use vstd::prelude::*;
use crate::b64::{b64_encode, b64_encode_bytes};
use crate::ciphers::{cipher_encrypt, stream_room, CipherView, InnerCipher};
use crate::errors::{CryptoError, DatabaseIntegrityError};
use crate::model::{
    AutoTypeView, Database, DatabaseView, Entry, EntryView, Group, GroupView, Meta, MetaView,
    Node, NodeView, Value, ValueView,
};
use crate::timestamp::spec_ts_text;
use crate::xmlrep::{xml_nodes_view, XmlElement, XmlElementView, XmlNode, XmlNodeView};

verus! {

// Serializing the tree to its document form. Protected values pass
// through the inner cipher in document order — every entry's fields in
// insertion order, history entries recursively — so the keystream the
// encoder consumes matches the one the decoder will consume. Empty
// protected values are emitted empty and do not advance the keystream.

/// An element holding one text run, or nothing for empty text.
pub open spec fn sv_text_el(name: Seq<char>, text: Seq<char>) -> XmlElementView {
    XmlElementView {
        name: name,
        protected: None,
        children: if text.len() == 0 {
            Seq::<XmlNodeView>::empty()
        } else {
            seq![XmlNodeView::Text(text)]
        },
    }
}

/// The elements of preserved unrecognized fields, in order.
pub open spec fn sv_unhandled_els(pairs: Seq<(Seq<char>, Seq<char>)>) -> Seq<XmlNodeView> {
    Seq::new(pairs.len(), |i: int| XmlNodeView::Elem(sv_text_el(pairs[i].0, pairs[i].1)))
}

/// The text of a boolean: `True` or `False`.
pub open spec fn sv_bool_text(b: bool) -> Seq<char> {
    if b {
        "True"@
    } else {
        "False"@
    }
}

/// The elements of a timestamp map, in insertion order, each text in
/// the Base64 dialect.
pub open spec fn sv_time_els(times: Seq<(Seq<char>, i64)>) -> Seq<XmlNodeView> {
    Seq::new(times.len(), |i: int| XmlNodeView::Elem(sv_text_el(times[i].0, spec_ts_text(times[i].1))))
}

/// The `Times` block: `Expires` first, then one element per timestamp in
/// insertion order, its text the Base64 dialect.
pub open spec fn sv_times_el(times: Seq<(Seq<char>, i64)>, expires: bool) -> XmlElementView {
    XmlElementView {
        name: "Times"@,
        protected: None,
        children: seq![XmlNodeView::Elem(sv_text_el("Expires"@, sv_bool_text(expires)))]
            + sv_time_els(times),
    }
}

/// The `AutoType` block: `Enabled`, then the default sequence where one
/// is set. Associations are not emitted.
pub open spec fn sv_autotype_el(a: AutoTypeView) -> XmlElementView {
    XmlElementView {
        name: "AutoType"@,
        protected: None,
        children: match a.sequence {
            Some(s) => seq![
                XmlNodeView::Elem(sv_text_el("Enabled"@, sv_bool_text(a.enabled))),
                XmlNodeView::Elem(sv_text_el("DefaultSequence"@, s)),
            ],
            None => seq![XmlNodeView::Elem(sv_text_el("Enabled"@, sv_bool_text(a.enabled)))],
        },
    }
}

/// One `String` block: the key, and the value in its three shapes. A
/// nonempty protected value is encrypted — advancing the cipher — and
/// carried as Base64 under `Protected="True"`; an empty one is carried
/// empty without touching the cipher; a bytes value is carried as an
/// empty element. Fails only where the keystream bound would be passed.
pub open spec fn sv_string_el(key: Seq<char>, v: ValueView, c: CipherView) -> Result<
    (XmlElementView, CipherView),
    DatabaseIntegrityError,
> {
    let key_el = XmlNodeView::Elem(sv_text_el("Key"@, key));
    match v {
        ValueView::Bytes(_) => Ok(
            (
                XmlElementView {
                    name: "String"@,
                    protected: None,
                    children: seq![
                        key_el,
                        XmlNodeView::Elem(
                            XmlElementView {
                                name: "Value"@,
                                protected: None,
                                children: Seq::<XmlNodeView>::empty(),
                            },
                        ),
                    ],
                },
                c,
            ),
        ),
        ValueView::Unprotected(t) => Ok(
            (
                XmlElementView {
                    name: "String"@,
                    protected: None,
                    children: seq![key_el, XmlNodeView::Elem(sv_text_el("Value"@, t))],
                },
                c,
            ),
        ),
        ValueView::Protected(p) => if p.len() == 0 {
            Ok(
                (
                    XmlElementView {
                        name: "String"@,
                        protected: None,
                        children: seq![
                            key_el,
                            XmlNodeView::Elem(
                                XmlElementView {
                                    name: "Value"@,
                                    protected: Some("True"@),
                                    children: Seq::<XmlNodeView>::empty(),
                                },
                            ),
                        ],
                    },
                    c,
                ),
            )
        } else if !stream_room(c, p.len() as int) {
            Err(DatabaseIntegrityError::Crypto(CryptoError::KeystreamExhausted))
        } else {
            let (ct, c2) = cipher_encrypt(c, p);
            Ok(
                (
                    XmlElementView {
                        name: "String"@,
                        protected: None,
                        children: seq![
                            key_el,
                            XmlNodeView::Elem(
                                XmlElementView {
                                    name: "Value"@,
                                    protected: Some("True"@),
                                    children: seq![XmlNodeView::Text(b64_encode(ct))],
                                },
                            ),
                        ],
                    },
                    c2,
                ),
            )
        },
    }
}

/// The `String` blocks of an entry's fields, in insertion order, the
/// cipher threaded left to right.
pub open spec fn sv_fields(
    fields: Seq<(Seq<char>, ValueView)>,
    c: CipherView,
) -> Result<(Seq<XmlNodeView>, CipherView), DatabaseIntegrityError>
    decreases fields.len(),
{
    if fields.len() == 0 {
        Ok((Seq::<XmlNodeView>::empty(), c))
    } else {
        match sv_string_el(fields[0].0, fields[0].1, c) {
            Ok((el, c1)) => match sv_fields(fields.drop_first(), c1) {
                Ok((rest, c2)) => Ok((seq![XmlNodeView::Elem(el)] + rest, c2)),
                Err(e) => Err(e),
            },
            Err(e) => Err(e),
        }
    }
}

/// The `Entry` element: identifier, preserved fields, `String` blocks,
/// automation, history, timestamps — in that order.
pub open spec fn sv_entry(e: EntryView, c: CipherView) -> Result<
    (XmlElementView, CipherView),
    DatabaseIntegrityError,
>
    decreases e,
{
    match sv_fields(e.fields, c) {
        Ok((field_els, c1)) => match sv_history(e.history, c1) {
            Ok((hist_els, c2)) => {
                let at_els = match e.autotype {
                    Some(a) => seq![XmlNodeView::Elem(sv_autotype_el(a))],
                    None => Seq::<XmlNodeView>::empty(),
                };
                let hist_block = if e.history.len() > 0 {
                    seq![
                        XmlNodeView::Elem(
                            XmlElementView {
                                name: "History"@,
                                protected: None,
                                children: hist_els,
                            },
                        ),
                    ]
                } else {
                    Seq::<XmlNodeView>::empty()
                };
                Ok(
                    (
                        XmlElementView {
                            name: "Entry"@,
                            protected: None,
                            children: seq![XmlNodeView::Elem(sv_text_el("UUID"@, e.uuid))]
                                + sv_unhandled_els(e.unhandled) + field_els + at_els + hist_block
                                + seq![XmlNodeView::Elem(sv_times_el(e.times, e.expires))],
                        },
                        c2,
                    ),
                )
            },
            Err(e2) => Err(e2),
        },
        Err(e1) => Err(e1),
    }
}

/// The `Entry` elements of a history, in order, the cipher threaded.
pub open spec fn sv_history(hist: Seq<EntryView>, c: CipherView) -> Result<
    (Seq<XmlNodeView>, CipherView),
    DatabaseIntegrityError,
>
    decreases hist,
{
    if hist.len() == 0 {
        Ok((Seq::<XmlNodeView>::empty(), c))
    } else {
        match sv_entry(hist[0], c) {
            Ok((el, c1)) => match sv_history(hist.drop_first(), c1) {
                Ok((rest, c2)) => Ok((seq![XmlNodeView::Elem(el)] + rest, c2)),
                Err(e) => Err(e),
            },
            Err(e) => Err(e),
        }
    }
}

/// The `Group` element: identifier, name, preserved fields, timestamps,
/// then every child in order.
pub open spec fn sv_group(g: GroupView, c: CipherView) -> Result<
    (XmlElementView, CipherView),
    DatabaseIntegrityError,
>
    decreases g,
{
    match sv_nodes(g.children, c) {
        Ok((child_els, c1)) => Ok(
            (
                XmlElementView {
                    name: "Group"@,
                    protected: None,
                    children: seq![
                        XmlNodeView::Elem(sv_text_el("UUID"@, g.uuid)),
                        XmlNodeView::Elem(sv_text_el("Name"@, g.name)),
                    ] + sv_unhandled_els(g.unhandled) + seq![
                        XmlNodeView::Elem(sv_times_el(g.times, g.expires)),
                    ] + child_els,
                },
                c1,
            ),
        ),
        Err(e) => Err(e),
    }
}

/// The elements of a group's children, in order, the cipher threaded.
pub open spec fn sv_nodes(children: Seq<NodeView>, c: CipherView) -> Result<
    (Seq<XmlNodeView>, CipherView),
    DatabaseIntegrityError,
>
    decreases children,
{
    if children.len() == 0 {
        Ok((Seq::<XmlNodeView>::empty(), c))
    } else {
        let first = match children[0] {
            NodeView::Group(g) => sv_group(g, c),
            NodeView::Entry(e) => sv_entry(e, c),
        };
        match first {
            Ok((el, c1)) => match sv_nodes(children.drop_first(), c1) {
                Ok((rest, c2)) => Ok((seq![XmlNodeView::Elem(el)] + rest, c2)),
                Err(e) => Err(e),
            },
            Err(e) => Err(e),
        }
    }
}

/// The `Meta` element: the recycle-bin identifier, then the preserved
/// fields in order.
pub open spec fn sv_meta(m: MetaView) -> XmlElementView {
    XmlElementView {
        name: "Meta"@,
        protected: None,
        children: seq![XmlNodeView::Elem(sv_text_el("RecycleBinUUID"@, m.recyclebin_uuid))]
            + sv_unhandled_els(m.unhandled),
    }
}

/// The document: `KeePassFile` holding `Meta` and `Root`, the root group
/// the single child of `Root`.
pub open spec fn sv_database(db: DatabaseView, c: CipherView) -> Result<
    (XmlElementView, CipherView),
    DatabaseIntegrityError,
> {
    match sv_group(db.root, c) {
        Ok((root_el, c1)) => Ok(
            (
                XmlElementView {
                    name: "KeePassFile"@,
                    protected: None,
                    children: seq![
                        XmlNodeView::Elem(sv_meta(db.meta)),
                        XmlNodeView::Elem(
                            XmlElementView {
                                name: "Root"@,
                                protected: None,
                                children: seq![XmlNodeView::Elem(root_el)],
                            },
                        ),
                    ],
                },
                c1,
            ),
        ),
        Err(e) => Err(e),
    }
}

/// A node sequence's abstract form distributes over concatenation.
pub proof fn lemma_nodes_view_concat(a: Seq<XmlNode>, b: Seq<XmlNode>)
    ensures
        crate::xmlrep::xml_nodes_view(a + b) =~= crate::xmlrep::xml_nodes_view(a)
            + crate::xmlrep::xml_nodes_view(b),
{
}

/// An element holding the given text: the shape every scalar field of
/// the document takes.
pub fn write_simple_element(tag: &str, value: &str) -> (r: XmlElement)
    ensures
        r@ == sv_text_el(tag@, value@),
{
    let mut children: Vec<XmlNode> = Vec::new();
    if !value.is_empty() {
        children.push(XmlNode::Text(value.to_owned()));
    }
    let r = XmlElement { name: tag.to_owned(), protected: None, children };
    proof {
        assert(r@.children =~~= sv_text_el(tag@, value@).children);
        assert(r@ =~~= sv_text_el(tag@, value@));
    }
    r
}

/// The elements of the preserved unrecognized fields, in order.
fn serialize_unhandled(pairs: &Vec<(String, String)>) -> (r: Vec<XmlNode>)
    ensures
        crate::xmlrep::xml_nodes_view(r@) == sv_unhandled_els(crate::model::strpairs_view(pairs@)),
{
    let mut out: Vec<XmlNode> = Vec::new();
    let mut i: usize = 0;
    while i < pairs.len()
        invariant
            i <= pairs@.len(),
            out@.len() == i,
            crate::xmlrep::xml_nodes_view(out@) =~~= sv_unhandled_els(
                crate::model::strpairs_view(pairs@),
            ).take(i as int),
        decreases pairs@.len() - i,
    {
        let pair = &pairs[i];
        let el = write_simple_element(pair.0.as_str(), pair.1.as_str());
        proof {
            assert(el@ == sv_text_el(pairs@[i as int].0@, pairs@[i as int].1@));
        }
        out.push(XmlNode::Elem(el));
        proof {
            assert(out@.len() == i + 1);
            assert(crate::xmlrep::xml_node_view(out@[i as int]) == XmlNodeView::Elem(
                sv_text_el(pairs@[i as int].0@, pairs@[i as int].1@),
            ));
            assert(crate::model::strpairs_view(pairs@)[i as int] == (
                pairs@[i as int].0@,
                pairs@[i as int].1@,
            ));
            assert(sv_unhandled_els(crate::model::strpairs_view(pairs@))[i as int]
                == XmlNodeView::Elem(sv_text_el(pairs@[i as int].0@, pairs@[i as int].1@)));
            assert(crate::xmlrep::xml_nodes_view(out@) =~~= sv_unhandled_els(
                crate::model::strpairs_view(pairs@),
            ).take(i + 1));
        }
        i = i + 1;
    }
    proof {
        assert(sv_unhandled_els(crate::model::strpairs_view(pairs@)).take(pairs@.len() as int)
            =~~= sv_unhandled_els(crate::model::strpairs_view(pairs@)));
    }
    out
}

/// The `Times` block of a group or entry.
fn serialize_times(times: &Vec<(String, crate::timestamp::Timestamp)>, expires: bool) -> (r:
    XmlElement)
    ensures
        r@ == sv_times_el(crate::model::times_view(times@), expires),
{
    let mut children: Vec<XmlNode> = Vec::new();
    children.push(
        XmlNode::Elem(
            write_simple_element("Expires", if expires { "True" } else { "False" }),
        ),
    );
    let ghost target = sv_times_el(crate::model::times_view(times@), expires).children;
    let mut i: usize = 0;
    while i < times.len()
        invariant
            i <= times@.len(),
            children@.len() == 1 + i,
            target == sv_times_el(crate::model::times_view(times@), expires).children,
            crate::xmlrep::xml_nodes_view(children@) =~~= target.take(1 + i as int),
        decreases times@.len() - i,
    {
        let pair = &times[i];
        let txt = crate::timestamp::timestamp_text(&pair.1);
        children.push(XmlNode::Elem(write_simple_element(pair.0.as_str(), txt.as_str())));
        proof {
            assert(crate::xmlrep::xml_nodes_view(children@) =~~= target.take(1 + (i + 1)));
        }
        i = i + 1;
    }
    let r = XmlElement { name: String::from_str("Times"), protected: None, children };
    proof {
        assert(target.take(1 + times@.len() as int) =~~= target);
        assert(r@ =~~= sv_times_el(crate::model::times_view(times@), expires));
    }
    r
}

/// The `AutoType` block of an entry.
fn serialize_autotype(at: &crate::model::AutoType) -> (r: XmlElement)
    ensures
        r@ == sv_autotype_el(at@),
{
    let mut children: Vec<XmlNode> = Vec::new();
    children.push(
        XmlNode::Elem(
            write_simple_element("Enabled", if at.enabled { "True" } else { "False" }),
        ),
    );
    if let Some(seq_text) = &at.sequence {
        children.push(XmlNode::Elem(write_simple_element("DefaultSequence", seq_text.as_str())));
    }
    let r = XmlElement { name: String::from_str("AutoType"), protected: None, children };
    proof {
        assert(r@.children =~~= sv_autotype_el(at@).children);
        assert(r@ =~~= sv_autotype_el(at@));
    }
    r
}

/// One `String` block, the value encrypted through the inner cipher
/// where it is protected and nonempty.
fn serialize_kv(key: &String, v: &Value, cipher: &mut InnerCipher) -> (r: Result<
    XmlElement,
    DatabaseIntegrityError,
>)
    requires
        old(cipher).wf(),
    ensures
        final(cipher).wf(),
        match r {
            Ok(el) => sv_string_el(key@, v@, old(cipher)@) == Ok::<
                (XmlElementView, CipherView),
                DatabaseIntegrityError,
            >((el@, final(cipher)@)),
            Err(e) => sv_string_el(key@, v@, old(cipher)@) == Err::<
                (XmlElementView, CipherView),
                DatabaseIntegrityError,
            >(e),
        },
{
    let key_el = XmlNode::Elem(write_simple_element("Key", key.as_str()));
    let mut children: Vec<XmlNode> = Vec::new();
    children.push(key_el);
    match v {
        Value::Bytes(_) => {
            children.push(
                XmlNode::Elem(
                    XmlElement {
                        name: String::from_str("Value"),
                        protected: None,
                        children: Vec::new(),
                    },
                ),
            );
            let r = XmlElement { name: String::from_str("String"), protected: None, children };
            proof {
                let spec_el = sv_string_el(key@, v@, old(cipher)@)->Ok_0.0;
                assert(r@.children.len() == 2);
                assert(spec_el.children.len() == 2);
                assert(r@.children[0] =~~= spec_el.children[0]);
                assert(children@[1] is Elem);
                assert(crate::xmlrep::xml_element_view(children@[1]->Elem_0).name == "Value"@);
                assert(crate::xmlrep::xml_element_view(children@[1]->Elem_0).protected is None);
                assert(crate::xmlrep::xml_element_view(children@[1]->Elem_0).children =~~= Seq::<XmlNodeView>::empty());
                assert(r@.children[1] == crate::xmlrep::xml_node_view(children@[1]));
                assert(r@.children[1] =~~= spec_el.children[1]);
                assert(r@.children =~~= spec_el.children);
                assert(r@ =~~= spec_el);
            }
            Ok(r)
        },
        Value::Unprotected(t) => {
            children.push(XmlNode::Elem(write_simple_element("Value", t.as_str())));
            let r = XmlElement { name: String::from_str("String"), protected: None, children };
            proof {
                let spec_el = sv_string_el(key@, v@, old(cipher)@)->Ok_0.0;
                assert(r@.children.len() == 2);
                assert(r@.children[0] =~~= spec_el.children[0]);
                assert(r@.children[1] == crate::xmlrep::xml_node_view(children@[1]));
                assert(r@.children[1] =~~= spec_el.children[1]);
                assert(r@.children =~~= spec_el.children);
                assert(r@ =~~= spec_el);
            }
            Ok(r)
        },
        Value::Protected(p) => {
            let plain = p.unsecure();
            if plain.len() == 0 {
                children.push(
                    XmlNode::Elem(
                        XmlElement {
                            name: String::from_str("Value"),
                            protected: Some(String::from_str("True")),
                            children: Vec::new(),
                        },
                    ),
                );
                let r = XmlElement { name: String::from_str("String"), protected: None, children };
                proof {
                    let spec_el = sv_string_el(key@, v@, old(cipher)@)->Ok_0.0;
                    assert(r@.children.len() == 2);
                    assert(r@.children[0] =~~= spec_el.children[0]);
                    assert(children@[1] is Elem);
                    assert(crate::xmlrep::xml_element_view(children@[1]->Elem_0).children
                        =~~= Seq::<XmlNodeView>::empty());
                    assert(r@.children[1] == crate::xmlrep::xml_node_view(children@[1]));
                    assert(r@.children[1] =~~= spec_el.children[1]);
                    assert(r@.children =~~= spec_el.children);
                    assert(r@ =~~= spec_el);
                }
                Ok(r)
            } else {
                match cipher.encrypt(plain) {
                    Ok(ct) => {
                        let encoded = b64_encode_bytes(ct.as_slice());
                        let mut value_children: Vec<XmlNode> = Vec::new();
                        value_children.push(XmlNode::Text(encoded));
                        children.push(
                            XmlNode::Elem(
                                XmlElement {
                                    name: String::from_str("Value"),
                                    protected: Some(String::from_str("True")),
                                    children: value_children,
                                },
                            ),
                        );
                        let r = XmlElement {
                            name: String::from_str("String"),
                            protected: None,
                            children,
                        };
                        proof {
                            let spec_el = sv_string_el(key@, v@, old(cipher)@)->Ok_0.0;
                            assert(r@.children.len() == 2);
                            assert(r@.children[0] =~~= spec_el.children[0]);
                            assert(children@[1] is Elem);
                            assert(crate::xmlrep::xml_element_view(children@[1]->Elem_0).children
                                =~~= seq![XmlNodeView::Text(b64_encode(ct@))]);
                            assert(r@.children[1] == crate::xmlrep::xml_node_view(children@[1]));
                            assert(r@.children[1] =~~= spec_el.children[1]);
                            assert(r@.children =~~= spec_el.children);
                            assert(r@ =~~= spec_el);
                        }
                        Ok(r)
                    },
                    Err(e) => Err(DatabaseIntegrityError::Crypto(e)),
                }
            }
        },
    }
}

impl Meta {
    /// The `Meta` element of this record.
    pub fn serialize(&self) -> (r: XmlElement)
        ensures
            r@ == sv_meta(self@),
    {
        let mut children: Vec<XmlNode> = Vec::new();
        children.push(XmlNode::Elem(write_simple_element("RecycleBinUUID", self.recyclebin_uuid.as_str())));
        let ghost first = children@;
        let mut unh = serialize_unhandled(&self.unhandled_fields);
        let ghost unh_v = unh@;
        children.append(&mut unh);
        let r = XmlElement { name: String::from_str("Meta"), protected: None, children };
        proof {
            lemma_nodes_view_concat(first, unh_v);
            assert(r@.children =~~= sv_meta(self@).children);
            assert(r@ =~~= sv_meta(self@));
        }
        r
    }
}

impl Entry {
    /// The `Entry` element of this entry, its protected values taken
    /// through the inner cipher in field order, history recursively.
    pub fn serialize(&self, cipher: &mut InnerCipher) -> (r: Result<
        XmlElement,
        DatabaseIntegrityError,
    >)
        requires
            old(cipher).wf(),
        ensures
            final(cipher).wf(),
            match r {
                Ok(el) => sv_entry(self@, old(cipher)@) == Ok::<
                    (XmlElementView, CipherView),
                    DatabaseIntegrityError,
                >((el@, final(cipher)@)),
                Err(e) => sv_entry(self@, old(cipher)@) == Err::<
                    (XmlElementView, CipherView),
                    DatabaseIntegrityError,
                >(e),
            },
        decreases *self,
    {
        let ghost c0 = cipher@;
        let ghost fv = crate::model::fields_view(self.fields@);
        // the String blocks, threading the cipher left to right
        let mut field_nodes: Vec<XmlNode> = Vec::new();
        let mut j: usize = 0;
        proof {
            assert(fv.skip(0) =~~= fv);
            assert(xml_nodes_view(field_nodes@) + Seq::<XmlNodeView>::empty()
                =~~= xml_nodes_view(field_nodes@));
        }
        while j < self.fields.len()
            invariant
                j <= self.fields@.len(),
                cipher.wf(),
                c0 == old(cipher)@,
                fv == crate::model::fields_view(self.fields@),
                match sv_fields(fv.skip(j as int), cipher@) {
                    Ok((els, cf)) => sv_fields(fv, c0) == Ok::<
                        (Seq<XmlNodeView>, CipherView),
                        DatabaseIntegrityError,
                    >((xml_nodes_view(field_nodes@) + els, cf)),
                    Err(e) => sv_fields(fv, c0) == Err::<
                        (Seq<XmlNodeView>, CipherView),
                        DatabaseIntegrityError,
                    >(e),
                },
            decreases self.fields@.len() - j,
        {
            let pair = &self.fields[j];
            let ghost c_before = cipher@;
            let ghost prev = field_nodes@;
            let res = serialize_kv(&pair.0, &pair.1, cipher);
            proof {
                let rest = fv.skip(j as int);
                assert(rest[0] == fv[j as int]);
                assert(fv[j as int] == (pair.0@, pair.1@));
                assert(rest.drop_first() =~~= fv.skip(j + 1));
            }
            match res {
                Ok(el) => {
                    field_nodes.push(XmlNode::Elem(el));
                    proof {
                        assert(xml_nodes_view(field_nodes@) =~~= xml_nodes_view(prev) + seq![
                            XmlNodeView::Elem(el@),
                        ]);
                        if let Ok((els2, cf)) = sv_fields(fv.skip(j + 1), cipher@) {
                            assert(xml_nodes_view(prev) + (seq![XmlNodeView::Elem(el@)] + els2)
                                =~~= xml_nodes_view(field_nodes@) + els2);
                        }
                    }
                },
                Err(e) => {
                    proof {
                        assert(sv_fields(fv, c0) == Err::<
                            (Seq<XmlNodeView>, CipherView),
                            DatabaseIntegrityError,
                        >(e));
                        assert(self@.fields == fv);
                        assert(sv_entry(self@, c0) == Err::<
                            (XmlElementView, CipherView),
                            DatabaseIntegrityError,
                        >(e));
                    }
                    return Err(e);
                },
            }
            j = j + 1;
        }
        proof {
            assert(fv.skip(self.fields@.len() as int) =~~= Seq::<(Seq<char>, ValueView)>::empty());
            assert(xml_nodes_view(field_nodes@) + Seq::<XmlNodeView>::empty()
                =~~= xml_nodes_view(field_nodes@));
        }
        let ghost field_nodes_view = xml_nodes_view(field_nodes@);
        let ghost c_fields = cipher@;
        proof {
            assert(sv_fields(fv, c0) == Ok::<(Seq<XmlNodeView>, CipherView), DatabaseIntegrityError>(
                (field_nodes_view, c_fields),
            ));
        }
        // the history entries, threading the cipher onwards
        let ghost hv = crate::model::entries_view(self.history@);
        let mut hist_nodes: Vec<XmlNode> = Vec::new();
        let mut h: usize = 0;
        proof {
            assert(hv.skip(0) =~~= hv);
        }
        while h < self.history.len()
            invariant
                h <= self.history@.len(),
                cipher.wf(),
                c0 == old(cipher)@,
                fv == crate::model::fields_view(self.fields@),
                hv == crate::model::entries_view(self.history@),
                sv_fields(fv, c0) == Ok::<(Seq<XmlNodeView>, CipherView), DatabaseIntegrityError>(
                    (field_nodes_view, c_fields),
                ),
                match sv_history(hv.skip(h as int), cipher@) {
                    Ok((els, cf)) => sv_history(hv, c_fields) == Ok::<
                        (Seq<XmlNodeView>, CipherView),
                        DatabaseIntegrityError,
                    >((xml_nodes_view(hist_nodes@) + els, cf)),
                    Err(e) => sv_history(hv, c_fields) == Err::<
                        (Seq<XmlNodeView>, CipherView),
                        DatabaseIntegrityError,
                    >(e),
                },
            decreases self.history@.len() - h,
        {
            let item = &self.history[h];
            let ghost prev = hist_nodes@;
            proof {
                let rest = hv.skip(h as int);
                assert(rest[0] == hv[h as int]);
                assert(hv[h as int] == crate::model::entry_view(self.history@[h as int]));
                assert(rest.drop_first() =~~= hv.skip(h + 1));
            }
            let res = item.serialize(cipher);
            match res {
                Ok(el) => {
                    hist_nodes.push(XmlNode::Elem(el));
                    proof {
                        assert(xml_nodes_view(hist_nodes@) =~~= xml_nodes_view(prev) + seq![
                            XmlNodeView::Elem(el@),
                        ]);
                        if let Ok((els2, cf)) = sv_history(hv.skip(h + 1), cipher@) {
                            assert(xml_nodes_view(prev) + (seq![XmlNodeView::Elem(el@)] + els2)
                                =~~= xml_nodes_view(hist_nodes@) + els2);
                        }
                    }
                },
                Err(e) => {
                    proof {
                        assert(sv_history(hv, c_fields) == Err::<
                            (Seq<XmlNodeView>, CipherView),
                            DatabaseIntegrityError,
                        >(e));
                        assert(self@.fields == fv);
                        assert(self@.history == hv);
                        assert(sv_fields(fv, c0) == Ok::<
                            (Seq<XmlNodeView>, CipherView),
                            DatabaseIntegrityError,
                        >((field_nodes_view, c_fields)));
                        assert(sv_entry(self@, c0) == Err::<
                            (XmlElementView, CipherView),
                            DatabaseIntegrityError,
                        >(e));
                    }
                    return Err(e);
                },
            }
            h = h + 1;
        }
        proof {
            assert(hv.skip(self.history@.len() as int) =~~= Seq::<EntryView>::empty());
            assert(xml_nodes_view(hist_nodes@) + Seq::<XmlNodeView>::empty()
                =~~= xml_nodes_view(hist_nodes@));
        }
        // assembly, in document order
        let ghost hist_nodes_v = xml_nodes_view(hist_nodes@);
        proof {
            assert(sv_history(hv, c_fields) == Ok::<
                (Seq<XmlNodeView>, CipherView),
                DatabaseIntegrityError,
            >((hist_nodes_v, cipher@)));
        }
        let ghost p_uuid = seq![XmlNodeView::Elem(sv_text_el("UUID"@, self.uuid@))];
        let ghost p_unh = sv_unhandled_els(crate::model::strpairs_view(self.unhandled_fields@));
        let ghost p_at = (match self@.autotype {
            Some(a) => seq![XmlNodeView::Elem(sv_autotype_el(a))],
            None => Seq::<XmlNodeView>::empty(),
        });
        let ghost p_hist = (if self@.history.len() > 0 {
            seq![
                XmlNodeView::Elem(
                    XmlElementView { name: "History"@, protected: None, children: hist_nodes_v },
                ),
            ]
        } else {
            Seq::<XmlNodeView>::empty()
        });
        let ghost p_times = seq![
            XmlNodeView::Elem(sv_times_el(crate::model::times_view(self.times@), self.expires)),
        ];
        let mut children: Vec<XmlNode> = Vec::new();
        children.push(XmlNode::Elem(write_simple_element("UUID", self.uuid.as_str())));
        let ghost acc0 = children@;
        proof {
            assert(xml_nodes_view(acc0) =~~= p_uuid);
        }
        let mut unh = serialize_unhandled(&self.unhandled_fields);
        let ghost unh_v = unh@;
        children.append(&mut unh);
        let ghost acc1 = children@;
        proof {
            lemma_nodes_view_concat(acc0, unh_v);
            assert(xml_nodes_view(acc1) =~~= p_uuid + p_unh);
        }
        let ghost field_nodes_raw = field_nodes@;
        children.append(&mut field_nodes);
        let ghost acc2 = children@;
        proof {
            lemma_nodes_view_concat(acc1, field_nodes_raw);
            assert(xml_nodes_view(acc2) =~~= (p_uuid + p_unh) + field_nodes_view);
        }
        if let Some(at) = &self.autotype {
            children.push(XmlNode::Elem(serialize_autotype(at)));
        }
        let ghost acc3 = children@;
        proof {
            assert(xml_nodes_view(acc3) =~~= ((p_uuid + p_unh) + field_nodes_view) + p_at);
        }
        if self.history.len() > 0 {
            let hist_el = XmlElement {
                name: String::from_str("History"),
                protected: None,
                children: hist_nodes,
            };
            children.push(XmlNode::Elem(hist_el));
        }
        let ghost acc4 = children@;
        proof {
            assert(xml_nodes_view(acc4) =~~= (((p_uuid + p_unh) + field_nodes_view) + p_at)
                + p_hist);
        }
        children.push(XmlNode::Elem(serialize_times(&self.times, self.expires)));
        let r = XmlElement { name: String::from_str("Entry"), protected: None, children };
        proof {
            assert(xml_nodes_view(children@) =~~= ((((p_uuid + p_unh) + field_nodes_view) + p_at)
                + p_hist) + p_times);
            assert(self@.fields == fv);
            assert(self@.history == hv);
            let spec_r = sv_entry(self@, c0);
            let target = spec_r->Ok_0.0;
            assert(target.children == ((((p_uuid + p_unh) + field_nodes_view) + p_at) + p_hist)
                + p_times);
            assert(r@.children =~~= target.children);
            assert(r@ =~~= target);
        }
        Ok(r)
    }
}

impl Group {
    /// The `Group` element of this group, every child serialized in
    /// order, the inner cipher threaded through them.
    pub fn serialize(&self, cipher: &mut InnerCipher) -> (r: Result<
        XmlElement,
        DatabaseIntegrityError,
    >)
        requires
            old(cipher).wf(),
        ensures
            final(cipher).wf(),
            match r {
                Ok(el) => sv_group(self@, old(cipher)@) == Ok::<
                    (XmlElementView, CipherView),
                    DatabaseIntegrityError,
                >((el@, final(cipher)@)),
                Err(e) => sv_group(self@, old(cipher)@) == Err::<
                    (XmlElementView, CipherView),
                    DatabaseIntegrityError,
                >(e),
            },
        decreases *self,
    {
        let ghost c0 = cipher@;
        let ghost nv = crate::model::model_nodes_view(self.children@);
        let mut child_nodes: Vec<XmlNode> = Vec::new();
        let mut i: usize = 0;
        proof {
            assert(nv.skip(0) =~~= nv);
            assert(xml_nodes_view(child_nodes@) + Seq::<XmlNodeView>::empty()
                =~~= xml_nodes_view(child_nodes@));
        }
        while i < self.children.len()
            invariant
                i <= self.children@.len(),
                cipher.wf(),
                c0 == old(cipher)@,
                nv == crate::model::model_nodes_view(self.children@),
                match sv_nodes(nv.skip(i as int), cipher@) {
                    Ok((els, cf)) => sv_nodes(nv, c0) == Ok::<
                        (Seq<XmlNodeView>, CipherView),
                        DatabaseIntegrityError,
                    >((xml_nodes_view(child_nodes@) + els, cf)),
                    Err(e) => sv_nodes(nv, c0) == Err::<
                        (Seq<XmlNodeView>, CipherView),
                        DatabaseIntegrityError,
                    >(e),
                },
            decreases self.children@.len() - i,
        {
            let ghost c_before = cipher@;
            let ghost prev = child_nodes@;
            proof {
                let rest = nv.skip(i as int);
                assert(rest[0] == nv[i as int]);
                assert(nv[i as int] == crate::model::node_view(self.children@[i as int]));
                assert(rest.drop_first() =~~= nv.skip(i + 1));
            }
            let res = match &self.children[i] {
                Node::Group(g) => {
                    proof {
                        assert(decreases_to!(*self => self.children));
                        assert(decreases_to!(self.children => self.children@));
                        assert(decreases_to!(self.children@ => self.children@[i as int]));
                        assert(self.children@[i as int]->Group_0 == *g);
                        assert(decreases_to!(self.children@[i as int] => self.children@[
                            i as int
                        ]->Group_0));
                        assert(decreases_to!(*self => *g));
                    }
                    g.serialize(cipher)
                },
                Node::Entry(en) => en.serialize(cipher),
            };
            match res {
                Ok(el) => {
                    child_nodes.push(XmlNode::Elem(el));
                    proof {
                        assert(xml_nodes_view(child_nodes@) =~~= xml_nodes_view(prev) + seq![
                            XmlNodeView::Elem(el@),
                        ]);
                        if let Ok((els2, cf)) = sv_nodes(nv.skip(i + 1), cipher@) {
                            assert(xml_nodes_view(prev) + (seq![XmlNodeView::Elem(el@)] + els2)
                                =~~= xml_nodes_view(child_nodes@) + els2);
                        }
                    }
                },
                Err(e) => {
                    proof {
                        assert(sv_nodes(nv, c0) == Err::<
                            (Seq<XmlNodeView>, CipherView),
                            DatabaseIntegrityError,
                        >(e));
                        assert(self@.children == nv);
                        assert(sv_group(self@, c0) == Err::<
                            (XmlElementView, CipherView),
                            DatabaseIntegrityError,
                        >(e));
                    }
                    return Err(e);
                },
            }
            i = i + 1;
        }
        proof {
            assert(nv.skip(self.children@.len() as int) =~~= Seq::<NodeView>::empty());
            assert(xml_nodes_view(child_nodes@) + Seq::<XmlNodeView>::empty()
                =~~= xml_nodes_view(child_nodes@));
        }
        let ghost child_nodes_view = xml_nodes_view(child_nodes@);
        proof {
            assert(sv_nodes(nv, c0) == Ok::<(Seq<XmlNodeView>, CipherView), DatabaseIntegrityError>(
                (child_nodes_view, cipher@),
            ));
        }
        // assembly, in document order
        let ghost p_head = seq![
            XmlNodeView::Elem(sv_text_el("UUID"@, self.uuid@)),
            XmlNodeView::Elem(sv_text_el("Name"@, self.name@)),
        ];
        let ghost p_unh = sv_unhandled_els(crate::model::strpairs_view(self.unhandled_fields@));
        let ghost p_times = seq![
            XmlNodeView::Elem(sv_times_el(crate::model::times_view(self.times@), self.expires)),
        ];
        let mut children: Vec<XmlNode> = Vec::new();
        children.push(XmlNode::Elem(write_simple_element("UUID", self.uuid.as_str())));
        children.push(XmlNode::Elem(write_simple_element("Name", self.name.as_str())));
        let ghost acc0 = children@;
        proof {
            assert(xml_nodes_view(acc0) =~~= p_head);
        }
        let mut unh = serialize_unhandled(&self.unhandled_fields);
        let ghost unh_v = unh@;
        children.append(&mut unh);
        let ghost acc1 = children@;
        proof {
            lemma_nodes_view_concat(acc0, unh_v);
            assert(xml_nodes_view(acc1) =~~= p_head + p_unh);
        }
        children.push(XmlNode::Elem(serialize_times(&self.times, self.expires)));
        let ghost acc2 = children@;
        proof {
            assert(xml_nodes_view(acc2) =~~= (p_head + p_unh) + p_times);
        }
        let ghost child_nodes_raw = child_nodes@;
        children.append(&mut child_nodes);
        let r = XmlElement { name: String::from_str("Group"), protected: None, children };
        proof {
            lemma_nodes_view_concat(acc2, child_nodes_raw);
            assert(xml_nodes_view(children@) =~~= ((p_head + p_unh) + p_times) + child_nodes_view);
            assert(self@.children == nv);
            let target = sv_group(self@, c0)->Ok_0.0;
            assert(target.children == ((p_head + p_unh) + p_times) + child_nodes_view);
            assert(r@.children =~~= target.children);
            assert(r@ =~~= target);
        }
        Ok(r)
    }
}

impl Database {
    /// The whole document element.
    pub fn serialize(&self, cipher: &mut InnerCipher) -> (r: Result<
        XmlElement,
        DatabaseIntegrityError,
    >)
        requires
            old(cipher).wf(),
        ensures
            final(cipher).wf(),
            match r {
                Ok(el) => sv_database(self@, old(cipher)@) == Ok::<
                    (XmlElementView, CipherView),
                    DatabaseIntegrityError,
                >((el@, final(cipher)@)),
                Err(e) => sv_database(self@, old(cipher)@) == Err::<
                    (XmlElementView, CipherView),
                    DatabaseIntegrityError,
                >(e),
            },
    {
        let meta_el = self.meta.serialize();
        match self.root.serialize(cipher) {
            Ok(root_el) => {
                let ghost root_el_v = root_el@;
                let mut root_children: Vec<XmlNode> = Vec::new();
                root_children.push(XmlNode::Elem(root_el));
                let root_wrap = XmlElement {
                    name: String::from_str("Root"),
                    protected: None,
                    children: root_children,
                };
                proof {
                    assert(root_wrap@.children =~~= seq![XmlNodeView::Elem(root_el_v)]);
                }
                let ghost root_wrap_v = root_wrap@;
                let mut children: Vec<XmlNode> = Vec::new();
                children.push(XmlNode::Elem(meta_el));
                children.push(XmlNode::Elem(root_wrap));
                let r = XmlElement {
                    name: String::from_str("KeePassFile"),
                    protected: None,
                    children,
                };
                proof {
                    let target = sv_database(self@, old(cipher)@)->Ok_0.0;
                    assert(r@.children.len() == 2);
                    assert(r@.children[0] =~~= target.children[0]);
                    assert(r@.children[1] is Elem);
                    assert(r@.children[1]->Elem_0 == root_wrap_v);
                    assert(target.children[1]->Elem_0.children == seq![XmlNodeView::Elem(root_el_v)]);
                    assert(r@.children[1]->Elem_0.children =~~= target.children[1]->Elem_0.children);
                    assert(r@.children[1] =~~= target.children[1]);
                    assert(r@.children =~~= target.children);
                    assert(r@ =~~= target);
                }
                Ok(r)
            },
            Err(e) => Err(e),
        }
    }
}

/// The document bytes of a database: the tree serialized — the inner
/// cipher consumed by its protected values in document order — and then
/// written as indented XML.
pub fn write_xml(d: &Database, cipher: &mut InnerCipher) -> (r: Result<
    Vec<u8>,
    DatabaseIntegrityError,
>)
    requires
        old(cipher).wf(),
    ensures
        final(cipher).wf(),
        match sv_database(d@, old(cipher)@) {
            Ok((tree, cf)) => final(cipher)@ == cf && match r {
                Ok(bytes) => crate::xmlrep::xml_bytes_of(tree) == Some(bytes@),
                Err(e) => crate::xmlrep::xml_bytes_of(tree) is None && e
                    == DatabaseIntegrityError::XmlWrite,
            },
            Err(e) => r == Err::<Vec<u8>, DatabaseIntegrityError>(e),
        },
{
    match d.serialize(cipher) {
        Ok(el) => crate::xmlrep::write_xml_bytes(&el),
        Err(e) => Err(e),
    }
}

} // verus!
