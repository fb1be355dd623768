use vstd::prelude::*;
use crate::b64::{b64_decode, b64_decode_str};
use crate::ciphers::{cipher_decrypt, stream_room, CipherView, InnerCipher};
use crate::errors::{CryptoError, DatabaseIntegrityError};
use crate::model::{
    AutoType, AutoTypeAssociation, AutoTypeAssociationView, AutoTypeView, Entry, EntryView, Group,
    GroupView, Meta, MetaView, Node, NodeView, Value, ValueView,
};
use crate::secure::SecureBytes;
use crate::timestamp::{spec_parse_iso, spec_parse_timestamp, Timestamp};
use crate::xmlrep::{XmlElement, XmlElementView, XmlNode, XmlNodeView};

verus! {

// Parsing the document form back into the tree. The walk follows
// document order, so protected values consume the inner cipher's
// keystream exactly as the encoder produced them: each entry's fields in
// order, history entries recursively. Unknown names at Meta, Group and
// Entry level are preserved; unknown names inside History or a key/value
// pair are fatal.

/// The five timestamp names a `Times` block may carry.
pub open spec fn known_time_name(s: Seq<char>) -> bool {
    s == "LastModificationTime"@ || s == "CreationTime"@ || s == "LastAccessTime"@ || s
        == "ExpiryTime"@ || s == "LocationChanged"@
}

/// The text a scalar element carries: empty where it has no child,
/// fatal where its first child is not text.
pub open spec fn spec_text(e: XmlElementView) -> Result<Seq<char>, DatabaseIntegrityError> {
    if e.children.len() == 0 {
        Ok(Seq::<char>::empty())
    } else {
        match e.children[0] {
            XmlNodeView::Text(s) => Ok(s),
            XmlNodeView::Elem(_) => Err(DatabaseIntegrityError::MissingText),
        }
    }
}

/// Insertion-ordered map update: an existing key keeps its place and
/// takes the new value, a new key is appended.
pub open spec fn spec_upsert<V>(s: Seq<(Seq<char>, V)>, k: Seq<char>, v: V) -> Seq<(Seq<char>, V)>
    decreases s.len(),
{
    if s.len() == 0 {
        seq![(k, v)]
    } else if s[0].0 == k {
        seq![(k, v)] + s.drop_first()
    } else {
        seq![s[0]] + spec_upsert(s.drop_first(), k, v)
    }
}

/// The value under a key, first match.
pub open spec fn spec_lookup<V>(s: Seq<(Seq<char>, V)>, k: Seq<char>) -> Option<V>
    decreases s.len(),
{
    if s.len() == 0 {
        None
    } else if s[0].0 == k {
        Some(s[0].1)
    } else {
        spec_lookup(s.drop_first(), k)
    }
}

/// The error timestamp text carries: not Base64 at all, or too short.
pub open spec fn spec_ts_err(t: Seq<char>) -> DatabaseIntegrityError {
    if spec_parse_iso(t) is None && b64_decode(t) is None {
        DatabaseIntegrityError::Base64
    } else {
        DatabaseIntegrityError::Timestamp
    }
}

/// The name-to-text map of an element's children, fatal where a child
/// carries no text.
pub open spec fn spec_hashmap(
    children: Seq<XmlNodeView>,
    acc: Seq<(Seq<char>, Seq<char>)>,
) -> Result<Seq<(Seq<char>, Seq<char>)>, DatabaseIntegrityError>
    decreases children.len(),
{
    if children.len() == 0 {
        Ok(acc)
    } else {
        match children[0] {
            XmlNodeView::Elem(el) => match spec_text(el) {
                Ok(t) => spec_hashmap(children.drop_first(), spec_upsert(acc, el.name, t)),
                Err(e) => Err(e),
            },
            XmlNodeView::Text(_) => spec_hashmap(children.drop_first(), acc),
        }
    }
}

/// An empty AutoType record.
pub open spec fn empty_autotype() -> AutoTypeView {
    AutoTypeView {
        enabled: false,
        sequence: None,
        associations: Seq::<AutoTypeAssociationView>::empty(),
    }
}

/// The AutoType record of a block's children: `Enabled` and
/// `DefaultSequence` set the scalars, each `Association` contributes one
/// record, obfuscation settings are dropped, anything else is fatal.
pub open spec fn spec_parse_autotype(
    children: Seq<XmlNodeView>,
    acc: AutoTypeView,
) -> Result<AutoTypeView, DatabaseIntegrityError>
    decreases children.len(),
{
    if children.len() == 0 {
        Ok(acc)
    } else {
        match children[0] {
            XmlNodeView::Elem(el) => if el.name == "Enabled"@ {
                match spec_text(el) {
                    Ok(t) => spec_parse_autotype(
                        children.drop_first(),
                        AutoTypeView { enabled: t == "True"@, ..acc },
                    ),
                    Err(e) => Err(e),
                }
            } else if el.name == "DefaultSequence"@ {
                match spec_text(el) {
                    Ok(t) => spec_parse_autotype(
                        children.drop_first(),
                        AutoTypeView { sequence: Some(t), ..acc },
                    ),
                    Err(e) => Err(e),
                }
            } else if el.name == "DataTransferObfuscation"@ {
                spec_parse_autotype(children.drop_first(), acc)
            } else if el.name == "Association"@ {
                match spec_hashmap(el.children, Seq::empty()) {
                    Ok(pairs) => spec_parse_autotype(
                        children.drop_first(),
                        AutoTypeView {
                            associations: acc.associations.push(
                                AutoTypeAssociationView {
                                    window: spec_lookup(pairs, "Window"@),
                                    sequence: spec_lookup(pairs, "KeystrokeSequence"@),
                                },
                            ),
                            ..acc
                        },
                    ),
                    Err(e) => Err(e),
                }
            } else {
                Err(DatabaseIntegrityError::UnexpectedElement)
            },
            XmlNodeView::Text(_) => spec_parse_autotype(children.drop_first(), acc),
        }
    }
}

/// The timestamps and expiry flag of a `Times` block: the five known
/// names parse in either dialect, `Expires` sets the flag, anything else
/// is dropped.
pub open spec fn spec_parse_times(
    children: Seq<XmlNodeView>,
    times: Seq<(Seq<char>, i64)>,
    expires: bool,
) -> Result<(Seq<(Seq<char>, i64)>, bool), DatabaseIntegrityError>
    decreases children.len(),
{
    if children.len() == 0 {
        Ok((times, expires))
    } else {
        match children[0] {
            XmlNodeView::Elem(el) => if known_time_name(el.name) {
                match spec_text(el) {
                    Ok(t) => match spec_parse_timestamp(t) {
                        Some(ts) => spec_parse_times(
                            children.drop_first(),
                            spec_upsert(times, el.name, ts),
                            expires,
                        ),
                        None => Err(spec_ts_err(t)),
                    },
                    Err(e) => Err(e),
                }
            } else if el.name == "Expires"@ {
                match spec_text(el) {
                    Ok(t) => spec_parse_times(children.drop_first(), times, t == "True"@),
                    Err(e) => Err(e),
                }
            } else {
                spec_parse_times(children.drop_first(), times, expires)
            },
            XmlNodeView::Text(_) => spec_parse_times(children.drop_first(), times, expires),
        }
    }
}

/// The key and value of a `String` block. A protected value is Base64,
/// decrypted through the inner cipher unless empty; finding one ends the
/// walk at once. Both key and value must appear; any other child name is
/// fatal.
pub open spec fn spec_parse_kv(
    children: Seq<XmlNodeView>,
    key: Option<Seq<char>>,
    val: Option<ValueView>,
    c: CipherView,
) -> Result<((Seq<char>, ValueView), CipherView), DatabaseIntegrityError>
    decreases children.len(),
{
    if children.len() == 0 {
        match (key, val) {
            (Some(k), Some(v)) => Ok(((k, v), c)),
            _ => Err(DatabaseIntegrityError::MissingText),
        }
    } else {
        match children[0] {
            XmlNodeView::Elem(el) => if el.name == "Key"@ {
                match spec_text(el) {
                    Ok(t) => spec_parse_kv(children.drop_first(), Some(t), val, c),
                    Err(e) => Err(e),
                }
            } else if el.name == "Value"@ {
                if el.protected == Some("True"@) {
                    match spec_text(el) {
                        Ok(t) => match b64_decode(t) {
                            Some(bytes) => if bytes.len() == 0 {
                                match key {
                                    Some(k) => Ok(((k, ValueView::Protected(Seq::empty())), c)),
                                    None => Err(DatabaseIntegrityError::MissingText),
                                }
                            } else if !stream_room(c, bytes.len() as int) {
                                Err(
                                    DatabaseIntegrityError::Crypto(
                                        CryptoError::KeystreamExhausted,
                                    ),
                                )
                            } else {
                                let (dec, c2) = cipher_decrypt(c, bytes);
                                match dec {
                                    Some(p) => match key {
                                        Some(k) => Ok(((k, ValueView::Protected(p)), c2)),
                                        None => Err(DatabaseIntegrityError::MissingText),
                                    },
                                    None => Err(
                                        DatabaseIntegrityError::Crypto(
                                            CryptoError::InvalidPadding,
                                        ),
                                    ),
                                }
                            },
                            None => Err(DatabaseIntegrityError::Base64),
                        },
                        Err(e) => Err(e),
                    }
                } else {
                    match spec_text(el) {
                        Ok(t) => spec_parse_kv(
                            children.drop_first(),
                            key,
                            Some(ValueView::Unprotected(t)),
                            c,
                        ),
                        Err(e) => Err(e),
                    }
                }
            } else {
                Err(DatabaseIntegrityError::UnexpectedElement)
            },
            XmlNodeView::Text(_) => spec_parse_kv(children.drop_first(), key, val, c),
        }
    }
}

/// An empty entry.
pub open spec fn empty_entry() -> EntryView {
    EntryView {
        uuid: Seq::<char>::empty(),
        fields: Seq::<(Seq<char>, ValueView)>::empty(),
        autotype: None,
        history: Seq::<EntryView>::empty(),
        times: Seq::<(Seq<char>, i64)>::empty(),
        expires: false,
        unhandled: Seq::<(Seq<char>, Seq<char>)>::empty(),
    }
}

/// An empty group.
pub open spec fn empty_group() -> GroupView {
    GroupView {
        uuid: Seq::<char>::empty(),
        name: Seq::<char>::empty(),
        children: Seq::<NodeView>::empty(),
        times: Seq::<(Seq<char>, i64)>::empty(),
        expires: false,
        unhandled: Seq::<(Seq<char>, Seq<char>)>::empty(),
    }
}

/// Empty metadata.
pub open spec fn empty_meta() -> MetaView {
    MetaView {
        recyclebin_uuid: Seq::<char>::empty(),
        unhandled: Seq::<(Seq<char>, Seq<char>)>::empty(),
    }
}

/// The entry of an `Entry` element's children, the inner cipher
/// consumed by its protected values and its history in document order.
pub open spec fn spec_parse_entry(
    children: Seq<XmlNodeView>,
    acc: EntryView,
    c: CipherView,
) -> Result<(EntryView, CipherView), DatabaseIntegrityError>
    decreases children, 0int,
{
    if children.len() == 0 {
        Ok((acc, c))
    } else {
        match children[0] {
            XmlNodeView::Elem(el) => if el.name == "UUID"@ {
                match spec_text(el) {
                    Ok(t) => spec_parse_entry(
                        children.drop_first(),
                        EntryView { uuid: t, ..acc },
                        c,
                    ),
                    Err(e) => Err(e),
                }
            } else if el.name == "Times"@ {
                match spec_parse_times(el.children, Seq::empty(), false) {
                    Ok((times, expires)) => spec_parse_entry(
                        children.drop_first(),
                        EntryView { times, expires, ..acc },
                        c,
                    ),
                    Err(e) => Err(e),
                }
            } else if el.name == "String"@ {
                match spec_parse_kv(el.children, None, None, c) {
                    Ok(((k, v), c2)) => spec_parse_entry(
                        children.drop_first(),
                        EntryView { fields: spec_upsert(acc.fields, k, v), ..acc },
                        c2,
                    ),
                    Err(e) => Err(e),
                }
            } else if el.name == "AutoType"@ {
                match spec_parse_autotype(el.children, empty_autotype()) {
                    Ok(at) => spec_parse_entry(
                        children.drop_first(),
                        EntryView { autotype: Some(at), ..acc },
                        c,
                    ),
                    Err(e) => Err(e),
                }
            } else if el.name == "History"@ {
                match spec_parse_history(el.children, Seq::empty(), c) {
                    Ok((hist, c2)) => spec_parse_entry(
                        children.drop_first(),
                        EntryView { history: hist, ..acc },
                        c2,
                    ),
                    Err(e) => Err(e),
                }
            } else if el.name == "CustomData"@ {
                spec_parse_entry(children.drop_first(), acc, c)
            } else {
                match spec_text(el) {
                    Ok(t) => spec_parse_entry(
                        children.drop_first(),
                        EntryView { unhandled: spec_upsert(acc.unhandled, el.name, t), ..acc },
                        c,
                    ),
                    Err(e) => Err(e),
                }
            },
            XmlNodeView::Text(_) => spec_parse_entry(children.drop_first(), acc, c),
        }
    }
}

/// The prior entries of a `History` block, in order, the cipher
/// threaded; any child that is not an `Entry` element is fatal.
pub open spec fn spec_parse_history(
    children: Seq<XmlNodeView>,
    acc: Seq<EntryView>,
    c: CipherView,
) -> Result<(Seq<EntryView>, CipherView), DatabaseIntegrityError>
    decreases children, 1int,
{
    if children.len() == 0 {
        Ok((acc, c))
    } else {
        match children[0] {
            XmlNodeView::Elem(el) => if el.name == "Entry"@ {
                match spec_parse_entry(el.children, empty_entry(), c) {
                    Ok((en, c2)) => spec_parse_history(children.drop_first(), acc.push(en), c2),
                    Err(e) => Err(e),
                }
            } else {
                Err(DatabaseIntegrityError::UnexpectedElement)
            },
            XmlNodeView::Text(_) => spec_parse_history(children.drop_first(), acc, c),
        }
    }
}

/// The group of a `Group` element's children: scalars assigned, nested
/// groups and entries appended in document order, unknown names
/// preserved.
pub open spec fn spec_parse_group(
    children: Seq<XmlNodeView>,
    acc: GroupView,
    c: CipherView,
) -> Result<(GroupView, CipherView), DatabaseIntegrityError>
    decreases children, 2int,
{
    if children.len() == 0 {
        Ok((acc, c))
    } else {
        match children[0] {
            XmlNodeView::Elem(el) => if el.name == "UUID"@ {
                match spec_text(el) {
                    Ok(t) => spec_parse_group(
                        children.drop_first(),
                        GroupView { uuid: t, ..acc },
                        c,
                    ),
                    Err(e) => Err(e),
                }
            } else if el.name == "Name"@ {
                match spec_text(el) {
                    Ok(t) => spec_parse_group(
                        children.drop_first(),
                        GroupView { name: t, ..acc },
                        c,
                    ),
                    Err(e) => Err(e),
                }
            } else if el.name == "Group"@ {
                match spec_parse_group(el.children, empty_group(), c) {
                    Ok((g, c2)) => spec_parse_group(
                        children.drop_first(),
                        GroupView { children: acc.children.push(NodeView::Group(g)), ..acc },
                        c2,
                    ),
                    Err(e) => Err(e),
                }
            } else if el.name == "Entry"@ {
                match spec_parse_entry(el.children, empty_entry(), c) {
                    Ok((en, c2)) => spec_parse_group(
                        children.drop_first(),
                        GroupView { children: acc.children.push(NodeView::Entry(en)), ..acc },
                        c2,
                    ),
                    Err(e) => Err(e),
                }
            } else if el.name == "Times"@ {
                match spec_parse_times(el.children, Seq::empty(), false) {
                    Ok((times, expires)) => spec_parse_group(
                        children.drop_first(),
                        GroupView { times, expires, ..acc },
                        c,
                    ),
                    Err(e) => Err(e),
                }
            } else {
                match spec_text(el) {
                    Ok(t) => spec_parse_group(
                        children.drop_first(),
                        GroupView { unhandled: spec_upsert(acc.unhandled, el.name, t), ..acc },
                        c,
                    ),
                    Err(e) => Err(e),
                }
            },
            XmlNodeView::Text(_) => spec_parse_group(children.drop_first(), acc, c),
        }
    }
}

/// The metadata of a `Meta` element's children: the recycle-bin
/// identifier assigned, protection and custom-data settings dropped,
/// anything else preserved.
pub open spec fn spec_parse_meta(
    children: Seq<XmlNodeView>,
    acc: MetaView,
) -> Result<MetaView, DatabaseIntegrityError>
    decreases children.len(),
{
    if children.len() == 0 {
        Ok(acc)
    } else {
        match children[0] {
            XmlNodeView::Elem(el) => if el.name == "RecycleBinUUID"@ {
                match spec_text(el) {
                    Ok(t) => spec_parse_meta(
                        children.drop_first(),
                        MetaView { recyclebin_uuid: t, ..acc },
                    ),
                    Err(e) => Err(e),
                }
            } else if el.name == "MemoryProtection"@ || el.name == "CustomData"@ {
                spec_parse_meta(children.drop_first(), acc)
            } else {
                match spec_text(el) {
                    Ok(t) => spec_parse_meta(
                        children.drop_first(),
                        MetaView { unhandled: spec_upsert(acc.unhandled, el.name, t), ..acc },
                    ),
                    Err(e) => Err(e),
                }
            },
            XmlNodeView::Text(_) => spec_parse_meta(children.drop_first(), acc),
        }
    }
}

/// The root group of a `Root` element's children: the last `Group`
/// child wins, anything else is dropped.
pub open spec fn spec_parse_root(
    children: Seq<XmlNodeView>,
    acc: GroupView,
    c: CipherView,
) -> Result<(GroupView, CipherView), DatabaseIntegrityError>
    decreases children, 3int,
{
    if children.len() == 0 {
        Ok((acc, c))
    } else {
        match children[0] {
            XmlNodeView::Elem(el) => if el.name == "Group"@ {
                match spec_parse_group(el.children, empty_group(), c) {
                    Ok((g, c2)) => spec_parse_root(children.drop_first(), g, c2),
                    Err(e) => Err(e),
                }
            } else {
                spec_parse_root(children.drop_first(), acc, c)
            },
            XmlNodeView::Text(_) => spec_parse_root(children.drop_first(), acc, c),
        }
    }
}

/// The root group and metadata of the document element's children: a
/// `Root` or `Meta` child is read (the last of each winning), anything
/// else is fatal.
pub open spec fn spec_parse_document_children(
    children: Seq<XmlNodeView>,
    root: GroupView,
    meta: MetaView,
    c: CipherView,
) -> Result<((GroupView, MetaView), CipherView), DatabaseIntegrityError>
    decreases children, 4int,
{
    if children.len() == 0 {
        Ok(((root, meta), c))
    } else {
        match children[0] {
            XmlNodeView::Elem(el) => if el.name == "Root"@ {
                match spec_parse_root(el.children, empty_group(), c) {
                    Ok((g, c2)) => spec_parse_document_children(
                        children.drop_first(),
                        g,
                        meta,
                        c2,
                    ),
                    Err(e) => Err(e),
                }
            } else if el.name == "Meta"@ {
                match spec_parse_meta(el.children, empty_meta()) {
                    Ok(m) => spec_parse_document_children(children.drop_first(), root, m, c),
                    Err(e) => Err(e),
                }
            } else {
                Err(DatabaseIntegrityError::UnexpectedElement)
            },
            XmlNodeView::Text(_) => spec_parse_document_children(
                children.drop_first(),
                root,
                meta,
                c,
            ),
        }
    }
}

/// The database a document tree describes.
pub open spec fn spec_parse_document(t: XmlElementView, c: CipherView) -> Result<
    ((GroupView, MetaView), CipherView),
    DatabaseIntegrityError,
> {
    spec_parse_document_children(t.children, empty_group(), empty_meta(), c)
}

/// Whether a stored name equals a literal.
fn name_is(name: &String, lit: &str) -> (r: bool)
    ensures
        r == (name@ == lit@),
{
    *name == lit.to_owned()
}

/// The text a scalar element carries.
pub fn get_text(e: &XmlElement) -> (r: Result<String, DatabaseIntegrityError>)
    ensures
        match r {
            Ok(s) => spec_text(e@) == Ok::<Seq<char>, DatabaseIntegrityError>(s@),
            Err(err) => spec_text(e@) == Err::<Seq<char>, DatabaseIntegrityError>(err),
        },
{
    if e.children.len() == 0 {
        Ok(String::new())
    } else {
        match &e.children[0] {
            XmlNode::Text(s) => Ok(s.clone()),
            XmlNode::Elem(_) => Err(DatabaseIntegrityError::MissingText),
        }
    }
}

/// Appends or replaces in place: string-valued insertion-ordered map.
fn upsert_str(pairs: &mut Vec<(String, String)>, k: String, v: String)
    ensures
        crate::model::strpairs_view(final(pairs)@) == spec_upsert(
            crate::model::strpairs_view(old(pairs)@),
            k@,
            v@,
        ),
{
    let ghost orig = crate::model::strpairs_view(pairs@);
    let mut j: usize = 0;
    while j < pairs.len()
        invariant
            j <= pairs@.len(),
            pairs@ == old(pairs)@,
            orig == crate::model::strpairs_view(pairs@),
            forall|m: int| 0 <= m < j ==> orig[m].0 != k@,
        decreases pairs@.len() - j,
    {
        if pairs[j].0 == k {
            pairs.set(j, (k, v));
            proof {
                lemma_upsert_at(orig, k@, v@, j as int);
                assert(crate::model::strpairs_view(pairs@) =~~= orig.update(j as int, (k@, v@)));
            }
            return ;
        }
        j = j + 1;
    }
    pairs.push((k, v));
    proof {
        lemma_upsert_absent(orig, k@, v@);
        assert(crate::model::strpairs_view(pairs@) =~~= orig.push((k@, v@)));
    }
}

/// Appends or replaces in place: timestamp-valued insertion-ordered map.
fn upsert_time(pairs: &mut Vec<(String, Timestamp)>, k: String, v: Timestamp)
    ensures
        crate::model::times_view(final(pairs)@) == spec_upsert(
            crate::model::times_view(old(pairs)@),
            k@,
            v.seconds,
        ),
{
    let ghost orig = crate::model::times_view(pairs@);
    let mut j: usize = 0;
    while j < pairs.len()
        invariant
            j <= pairs@.len(),
            pairs@ == old(pairs)@,
            orig == crate::model::times_view(pairs@),
            forall|m: int| 0 <= m < j ==> orig[m].0 != k@,
        decreases pairs@.len() - j,
    {
        if pairs[j].0 == k {
            pairs.set(j, (k, v));
            proof {
                lemma_upsert_at(orig, k@, v.seconds, j as int);
                assert(crate::model::times_view(pairs@) =~~= orig.update(
                    j as int,
                    (k@, v.seconds),
                ));
            }
            return ;
        }
        j = j + 1;
    }
    pairs.push((k, v));
    proof {
        lemma_upsert_absent(orig, k@, v.seconds);
        assert(crate::model::times_view(pairs@) =~~= orig.push((k@, v.seconds)));
    }
}

/// Appends or replaces in place: the ordered fields of an entry.
fn upsert_field(pairs: &mut Vec<(String, Value)>, k: String, v: Value)
    ensures
        crate::model::fields_view(final(pairs)@) == spec_upsert(
            crate::model::fields_view(old(pairs)@),
            k@,
            v@,
        ),
{
    let ghost orig = crate::model::fields_view(pairs@);
    let ghost vv = v@;
    let mut j: usize = 0;
    while j < pairs.len()
        invariant
            j <= pairs@.len(),
            pairs@ == old(pairs)@,
            orig == crate::model::fields_view(pairs@),
            vv == v@,
            forall|m: int| 0 <= m < j ==> orig[m].0 != k@,
        decreases pairs@.len() - j,
    {
        if pairs[j].0 == k {
            pairs.set(j, (k, v));
            proof {
                lemma_upsert_at(orig, k@, vv, j as int);
                assert(crate::model::fields_view(pairs@) =~~= orig.update(j as int, (k@, vv)));
            }
            return ;
        }
        j = j + 1;
    }
    pairs.push((k, v));
    proof {
        lemma_upsert_absent(orig, k@, vv);
        assert(crate::model::fields_view(pairs@) =~~= orig.push((k@, vv)));
    }
}

/// Updating at the first match is the insertion-ordered map update.
pub proof fn lemma_upsert_at<V>(s: Seq<(Seq<char>, V)>, k: Seq<char>, v: V, j: int)
    requires
        0 <= j < s.len(),
        s[j].0 == k,
        forall|m: int| 0 <= m < j ==> s[m].0 != k,
    ensures
        spec_upsert(s, k, v) == s.update(j, (k, v)),
    decreases j,
{
    if j == 0 {
        assert(seq![(k, v)] + s.drop_first() =~= s.update(0, (k, v)));
    } else {
        lemma_upsert_at(s.drop_first(), k, v, j - 1);
        assert(seq![s[0]] + s.drop_first().update(j - 1, (k, v)) =~= s.update(j, (k, v)));
    }
}

/// Appending a fresh key is the insertion-ordered map update.
pub proof fn lemma_upsert_absent<V>(s: Seq<(Seq<char>, V)>, k: Seq<char>, v: V)
    ensures
        (forall|m: int| 0 <= m < s.len() ==> s[m].0 != k) ==> spec_upsert(s, k, v) == s.push(
            (k, v),
        ),
    decreases s.len(),
{
    if s.len() > 0 {
        lemma_upsert_absent(s.drop_first(), k, v);
        if forall|m: int| 0 <= m < s.len() ==> s[m].0 != k {
            assert(forall|m: int|
                0 <= m < s.drop_first().len() ==> s.drop_first()[m].0 != k) by {
                assert(forall|m: int|
                    0 <= m < s.drop_first().len() ==> s.drop_first()[m] == s[m + 1]);
            }
            assert(seq![s[0]] + s.drop_first().push((k, v)) =~= s.push((k, v)));
        }
    } else {
        assert(seq![(k, v)] =~= s.push((k, v)));
    }
}

/// The value under a key, first match.
fn lookup_str(pairs: &Vec<(String, String)>, k: &str) -> (r: Option<String>)
    ensures
        match r {
            Some(s) => spec_lookup(crate::model::strpairs_view(pairs@), k@) == Some(s@),
            None => spec_lookup(crate::model::strpairs_view(pairs@), k@) is None,
        },
{
    let ghost pv = crate::model::strpairs_view(pairs@);
    let mut j: usize = 0;
    proof {
        assert(pv.skip(0) =~~= pv);
    }
    while j < pairs.len()
        invariant
            j <= pairs@.len(),
            pv == crate::model::strpairs_view(pairs@),
            spec_lookup(pv, k@) == spec_lookup(pv.skip(j as int), k@),
        decreases pairs@.len() - j,
    {
        proof {
            assert(pv.skip(j as int)[0] == pv[j as int]);
            assert(pv.skip(j as int).drop_first() =~~= pv.skip(j + 1));
        }
        if pairs[j].0 == k.to_owned() {
            return Some(pairs[j].1.clone());
        }
        j = j + 1;
    }
    proof {
        assert(pv.skip(pairs@.len() as int) =~~= Seq::<(Seq<char>, Seq<char>)>::empty());
    }
    None
}

/// The name-to-text map of an element's children.
pub fn get_hashmap(e: &XmlElement) -> (r: Result<Vec<(String, String)>, DatabaseIntegrityError>)
    ensures
        match r {
            Ok(pairs) => spec_hashmap(e@.children, Seq::empty()) == Ok::<
                Seq<(Seq<char>, Seq<char>)>,
                DatabaseIntegrityError,
            >(crate::model::strpairs_view(pairs@)),
            Err(err) => spec_hashmap(e@.children, Seq::empty()) == Err::<
                Seq<(Seq<char>, Seq<char>)>,
                DatabaseIntegrityError,
            >(err),
        },
{
    let mut out: Vec<(String, String)> = Vec::new();
    let mut i: usize = 0;
    proof {
        assert(e@.children.skip(0) =~~= e@.children);
        assert(crate::model::strpairs_view(out@) =~~= Seq::<(Seq<char>, Seq<char>)>::empty());
    }
    while i < e.children.len()
        invariant
            i <= e.children@.len(),
            e@.children.len() == e.children@.len(),
            spec_hashmap(e@.children, Seq::empty()) == spec_hashmap(
                e@.children.skip(i as int),
                crate::model::strpairs_view(out@),
            ),
        decreases e.children@.len() - i,
    {
        proof {
            assert(e@.children.skip(i as int)[0] == e@.children[i as int]);
            assert(e@.children[i as int] == crate::xmlrep::xml_node_view(e.children@[i as int]));
            assert(e@.children.skip(i as int).drop_first() =~~= e@.children.skip(i + 1));
        }
        match &e.children[i] {
            XmlNode::Elem(el) => {
                match get_text(el) {
                    Ok(t) => {
                        upsert_str(&mut out, el.name.clone(), t);
                    },
                    Err(err) => {
                        return Err(err);
                    },
                }
            },
            XmlNode::Text(_) => {},
        }
        i = i + 1;
    }
    proof {
        assert(e@.children.skip(e.children@.len() as int) =~~= Seq::<XmlNodeView>::empty());
    }
    Ok(out)
}

/// The `Times` block of a group or entry.
pub fn parse_times(e: &XmlElement) -> (r: Result<
    (Vec<(String, Timestamp)>, bool),
    DatabaseIntegrityError,
>)
    ensures
        match r {
            Ok((times, expires)) => spec_parse_times(e@.children, Seq::empty(), false) == Ok::<
                (Seq<(Seq<char>, i64)>, bool),
                DatabaseIntegrityError,
            >((crate::model::times_view(times@), expires)),
            Err(err) => spec_parse_times(e@.children, Seq::empty(), false) == Err::<
                (Seq<(Seq<char>, i64)>, bool),
                DatabaseIntegrityError,
            >(err),
        },
{
    let mut times: Vec<(String, Timestamp)> = Vec::new();
    let mut expires: bool = false;
    let mut i: usize = 0;
    proof {
        assert(e@.children.skip(0) =~~= e@.children);
        assert(crate::model::times_view(times@) =~~= Seq::<(Seq<char>, i64)>::empty());
    }
    while i < e.children.len()
        invariant
            i <= e.children@.len(),
            e@.children.len() == e.children@.len(),
            spec_parse_times(e@.children, Seq::empty(), false) == spec_parse_times(
                e@.children.skip(i as int),
                crate::model::times_view(times@),
                expires,
            ),
        decreases e.children@.len() - i,
    {
        proof {
            assert(e@.children.skip(i as int)[0] == e@.children[i as int]);
            assert(e@.children[i as int] == crate::xmlrep::xml_node_view(e.children@[i as int]));
            assert(e@.children.skip(i as int).drop_first() =~~= e@.children.skip(i + 1));
        }
        match &e.children[i] {
            XmlNode::Elem(el) => {
                let known = name_is(&el.name, "LastModificationTime") || name_is(
                    &el.name,
                    "CreationTime",
                ) || name_is(&el.name, "LastAccessTime") || name_is(&el.name, "ExpiryTime")
                    || name_is(&el.name, "LocationChanged");
                if known {
                    match get_text(el) {
                        Ok(t) => match crate::timestamp::parse_xml_timestamp(t.as_str()) {
                            Ok(ts) => {
                                upsert_time(&mut times, el.name.clone(), ts);
                            },
                            Err(err) => {
                                return Err(err);
                            },
                        },
                        Err(err) => {
                            return Err(err);
                        },
                    }
                } else if name_is(&el.name, "Expires") {
                    match get_text(el) {
                        Ok(t) => {
                            expires = name_is(&t, "True");
                        },
                        Err(err) => {
                            return Err(err);
                        },
                    }
                }
            },
            XmlNode::Text(_) => {},
        }
        i = i + 1;
    }
    proof {
        assert(e@.children.skip(e.children@.len() as int) =~~= Seq::<XmlNodeView>::empty());
    }
    Ok((times, expires))
}

/// The `AutoType` block of an entry.
pub fn parse_autotype(e: &XmlElement) -> (r: Result<AutoType, DatabaseIntegrityError>)
    ensures
        match r {
            Ok(at) => spec_parse_autotype(e@.children, empty_autotype()) == Ok::<
                AutoTypeView,
                DatabaseIntegrityError,
            >(at@),
            Err(err) => spec_parse_autotype(e@.children, empty_autotype()) == Err::<
                AutoTypeView,
                DatabaseIntegrityError,
            >(err),
        },
{
    let mut at = AutoType { enabled: false, sequence: None, associations: Vec::new() };
    let mut i: usize = 0;
    proof {
        assert(e@.children.skip(0) =~~= e@.children);
        assert(at@ =~~= empty_autotype());
    }
    while i < e.children.len()
        invariant
            i <= e.children@.len(),
            e@.children.len() == e.children@.len(),
            spec_parse_autotype(e@.children, empty_autotype()) == spec_parse_autotype(
                e@.children.skip(i as int),
                at@,
            ),
        decreases e.children@.len() - i,
    {
        proof {
            assert(e@.children.skip(i as int)[0] == e@.children[i as int]);
            assert(e@.children[i as int] == crate::xmlrep::xml_node_view(e.children@[i as int]));
            assert(e@.children.skip(i as int).drop_first() =~~= e@.children.skip(i + 1));
        }
        let ghost at_prev = at@;
        match &e.children[i] {
            XmlNode::Elem(el) => {
                if name_is(&el.name, "Enabled") {
                    match get_text(el) {
                        Ok(t) => {
                            at.enabled = name_is(&t, "True");
                            proof {
                                assert(at@ =~~= AutoTypeView {
                                    enabled: t@ == "True"@,
                                    ..at_prev
                                });
                            }
                        },
                        Err(err) => {
                            return Err(err);
                        },
                    }
                } else if name_is(&el.name, "DefaultSequence") {
                    match get_text(el) {
                        Ok(t) => {
                            let ghost tv = t@;
                            at.sequence = Some(t);
                            proof {
                                assert(at@ =~~= AutoTypeView { sequence: Some(tv), ..at_prev });
                            }
                        },
                        Err(err) => {
                            return Err(err);
                        },
                    }
                } else if name_is(&el.name, "DataTransferObfuscation") {
                } else if name_is(&el.name, "Association") {
                    match get_hashmap(el) {
                        Ok(pairs) => {
                            let window = lookup_str(&pairs, "Window");
                            let sequence = lookup_str(&pairs, "KeystrokeSequence");
                            at.associations.push(AutoTypeAssociation { window, sequence });
                            proof {
                                let assoc = AutoTypeAssociationView {
                                    window: spec_lookup(
                                        crate::model::strpairs_view(pairs@),
                                        "Window"@,
                                    ),
                                    sequence: spec_lookup(
                                        crate::model::strpairs_view(pairs@),
                                        "KeystrokeSequence"@,
                                    ),
                                };
                                assert(at@.associations =~~= at_prev.associations.push(assoc));
                                assert(at@ =~~= AutoTypeView {
                                    associations: at_prev.associations.push(assoc),
                                    ..at_prev
                                });
                            }
                        },
                        Err(err) => {
                            return Err(err);
                        },
                    }
                } else {
                    return Err(DatabaseIntegrityError::UnexpectedElement);
                }
            },
            XmlNode::Text(_) => {},
        }
        i = i + 1;
    }
    proof {
        assert(e@.children.skip(e.children@.len() as int) =~~= Seq::<XmlNodeView>::empty());
    }
    Ok(at)
}

/// The key and value of a `String` block, the inner cipher consumed
/// where the value is protected and nonempty.
pub fn get_kv_pair(e: &XmlElement, inner_cipher: &mut InnerCipher) -> (r: Result<
    (String, Value),
    DatabaseIntegrityError,
>)
    requires
        old(inner_cipher).wf(),
    ensures
        final(inner_cipher).wf(),
        match r {
            Ok((k, v)) => spec_parse_kv(e@.children, None, None, old(inner_cipher)@) == Ok::<
                ((Seq<char>, ValueView), CipherView),
                DatabaseIntegrityError,
            >(((k@, v@), final(inner_cipher)@)),
            Err(err) => spec_parse_kv(e@.children, None, None, old(inner_cipher)@) == Err::<
                ((Seq<char>, ValueView), CipherView),
                DatabaseIntegrityError,
            >(err),
        },
{
    let mut key: Option<String> = None;
    let mut val: Option<Value> = None;
    let mut i: usize = 0;
    proof {
        assert(e@.children.skip(0) =~~= e@.children);
    }
    while i < e.children.len()
        invariant
            i <= e.children@.len(),
            e@.children.len() == e.children@.len(),
            inner_cipher.wf(),
            val matches Some(v) ==> v@ is Unprotected,
            spec_parse_kv(e@.children, None, None, old(inner_cipher)@) == spec_parse_kv(
                e@.children.skip(i as int),
                match key {
                    Some(k) => Some(k@),
                    None => None,
                },
                match val {
                    Some(v) => Some(v@),
                    None => None,
                },
                inner_cipher@,
            ),
        decreases e.children@.len() - i,
    {
        proof {
            assert(e@.children.skip(i as int)[0] == e@.children[i as int]);
            assert(e@.children[i as int] == crate::xmlrep::xml_node_view(e.children@[i as int]));
            assert(e@.children.skip(i as int).drop_first() =~~= e@.children.skip(i + 1));
        }
        match &e.children[i] {
            XmlNode::Elem(el) => {
                if name_is(&el.name, "Key") {
                    match get_text(el) {
                        Ok(t) => {
                            key = Some(t);
                        },
                        Err(err) => {
                            return Err(err);
                        },
                    }
                } else if name_is(&el.name, "Value") {
                    let protected = match &el.protected {
                        Some(p) => name_is(p, "True"),
                        None => false,
                    };
                    proof {
                        assert(protected == (e@.children[i as int]->Elem_0.protected == Some(
                            "True"@,
                        ))) by {
                            reveal_strlit("True");
                        }
                    }
                    if protected {
                        let t = match get_text(el) {
                            Ok(t) => t,
                            Err(err) => {
                                return Err(err);
                            },
                        };
                        let bytes = match b64_decode_str(t.as_str()) {
                            Some(b) => b,
                            None => {
                                return Err(DatabaseIntegrityError::Base64);
                            },
                        };
                        if bytes.len() == 0 {
                            match key {
                                Some(k) => {
                                    return Ok((k, Value::Protected(SecureBytes::new(bytes))));
                                },
                                None => {
                                    return Err(DatabaseIntegrityError::MissingText);
                                },
                            }
                        } else {
                            match inner_cipher.decrypt(bytes.as_slice()) {
                                Ok(plain) => {
                                    match key {
                                        Some(k) => {
                                            return Ok(
                                                (k, Value::Protected(SecureBytes::new(plain))),
                                            );
                                        },
                                        None => {
                                            return Err(DatabaseIntegrityError::MissingText);
                                        },
                                    }
                                },
                                Err(ce) => {
                                    return Err(DatabaseIntegrityError::Crypto(ce));
                                },
                            }
                        }
                    } else {
                        match get_text(el) {
                            Ok(t) => {
                                val = Some(Value::Unprotected(t));
                            },
                            Err(err) => {
                                return Err(err);
                            },
                        }
                    }
                } else {
                    return Err(DatabaseIntegrityError::UnexpectedElement);
                }
            },
            XmlNode::Text(_) => {},
        }
        i = i + 1;
    }
    proof {
        assert(e@.children.skip(e.children@.len() as int) =~~= Seq::<XmlNodeView>::empty());
    }
    match (key, val) {
        (Some(k), Some(v)) => Ok((k, v)),
        _ => Err(DatabaseIntegrityError::MissingText),
    }
}

/// The entry an `Entry` element describes, its protected values and
/// history consuming the inner cipher in document order.
pub fn parse_entry(e: &XmlElement, inner_cipher: &mut InnerCipher) -> (r: Result<
    Entry,
    DatabaseIntegrityError,
>)
    requires
        old(inner_cipher).wf(),
    ensures
        final(inner_cipher).wf(),
        match r {
            Ok(en) => spec_parse_entry(e@.children, empty_entry(), old(inner_cipher)@) == Ok::<
                (EntryView, CipherView),
                DatabaseIntegrityError,
            >((en@, final(inner_cipher)@)),
            Err(err) => spec_parse_entry(e@.children, empty_entry(), old(inner_cipher)@) == Err::<
                (EntryView, CipherView),
                DatabaseIntegrityError,
            >(err),
        },
    decreases *e, 0int,
{
    let mut en = Entry {
        uuid: String::new(),
        fields: Vec::new(),
        autotype: None,
        history: Vec::new(),
        times: Vec::new(),
        expires: false,
        unhandled_fields: Vec::new(),
    };
    let mut i: usize = 0;
    proof {
        assert(e@.children.skip(0) =~~= e@.children);
        assert(en@.uuid =~~= empty_entry().uuid);
        assert(en@.fields =~~= empty_entry().fields);
        assert(en@.history =~~= empty_entry().history);
        assert(en@.times =~~= empty_entry().times);
        assert(en@.unhandled =~~= empty_entry().unhandled);
        assert(en@ =~~= empty_entry());
    }
    while i < e.children.len()
        invariant
            i <= e.children@.len(),
            e@.children.len() == e.children@.len(),
            e@.children == crate::xmlrep::xml_nodes_view(e.children@),
            inner_cipher.wf(),
            spec_parse_entry(e@.children, empty_entry(), old(inner_cipher)@) == spec_parse_entry(
                e@.children.skip(i as int),
                en@,
                inner_cipher@,
            ),
        decreases e.children@.len() - i,
    {
        proof {
            assert(e@.children.skip(i as int)[0] == e@.children[i as int]);
            assert(e@.children[i as int] == crate::xmlrep::xml_node_view(e.children@[i as int]));
            assert(e@.children.skip(i as int).drop_first() =~~= e@.children.skip(i + 1));
        }
        let ghost prev = en@;
        match &e.children[i] {
            XmlNode::Elem(el) => {
                if name_is(&el.name, "UUID") {
                    match get_text(el) {
                        Ok(t) => {
                            let ghost tv = t@;
                            en.uuid = t;
                            proof {
                                assert(en@ =~~= EntryView { uuid: tv, ..prev });
                            }
                        },
                        Err(err) => {
                            return Err(err);
                        },
                    }
                } else if name_is(&el.name, "Times") {
                    match parse_times(el) {
                        Ok((times, expires)) => {
                            let ghost tv = crate::model::times_view(times@);
                            en.times = times;
                            en.expires = expires;
                            proof {
                                assert(en@ =~~= EntryView { times: tv, expires, ..prev });
                            }
                        },
                        Err(err) => {
                            return Err(err);
                        },
                    }
                } else if name_is(&el.name, "String") {
                    match get_kv_pair(el, inner_cipher) {
                        Ok((k, v)) => {
                            let ghost kv = k@;
                            let ghost vv = v@;
                            upsert_field(&mut en.fields, k, v);
                            proof {
                                assert(en@ =~~= EntryView {
                                    fields: spec_upsert(prev.fields, kv, vv),
                                    ..prev
                                });
                            }
                        },
                        Err(err) => {
                            return Err(err);
                        },
                    }
                } else if name_is(&el.name, "AutoType") {
                    match parse_autotype(el) {
                        Ok(at) => {
                            let ghost atv = at@;
                            en.autotype = Some(at);
                            proof {
                                assert(en@ =~~= EntryView { autotype: Some(atv), ..prev });
                            }
                        },
                        Err(err) => {
                            return Err(err);
                        },
                    }
                } else if name_is(&el.name, "History") {
                    proof {
                        assert(decreases_to!(*e => e.children));
                        assert(decreases_to!(e.children => e.children@));
                        assert(decreases_to!(e.children@ => e.children@[i as int]));
                        assert(e.children@[i as int]->Elem_0 == *el);
                        assert(decreases_to!(e.children@[i as int] => e.children@[
                            i as int
                        ]->Elem_0));
                        assert(decreases_to!(*e => *el));
                    }
                    match parse_history(el, inner_cipher) {
                        Ok(hist) => {
                            let ghost hv = crate::model::entries_view(hist@);
                            en.history = hist;
                            proof {
                                assert(en@ =~~= EntryView { history: hv, ..prev });
                            }
                        },
                        Err(err) => {
                            return Err(err);
                        },
                    }
                } else if name_is(&el.name, "CustomData") {
                } else {
                    match get_text(el) {
                        Ok(t) => {
                            let ghost tv = t@;
                            let ghost nv = el.name@;
                            upsert_str(&mut en.unhandled_fields, el.name.clone(), t);
                            proof {
                                assert(en@ =~~= EntryView {
                                    unhandled: spec_upsert(prev.unhandled, nv, tv),
                                    ..prev
                                });
                            }
                        },
                        Err(err) => {
                            return Err(err);
                        },
                    }
                }
            },
            XmlNode::Text(_) => {},
        }
        i = i + 1;
    }
    proof {
        assert(e@.children.skip(e.children@.len() as int) =~~= Seq::<XmlNodeView>::empty());
    }
    Ok(en)
}

/// The prior entries of a `History` block, in order.
pub fn parse_history(e: &XmlElement, inner_cipher: &mut InnerCipher) -> (r: Result<
    Vec<Entry>,
    DatabaseIntegrityError,
>)
    requires
        old(inner_cipher).wf(),
    ensures
        final(inner_cipher).wf(),
        match r {
            Ok(hist) => spec_parse_history(e@.children, Seq::empty(), old(inner_cipher)@) == Ok::<
                (Seq<EntryView>, CipherView),
                DatabaseIntegrityError,
            >((crate::model::entries_view(hist@), final(inner_cipher)@)),
            Err(err) => spec_parse_history(e@.children, Seq::empty(), old(inner_cipher)@)
                == Err::<(Seq<EntryView>, CipherView), DatabaseIntegrityError>(err),
        },
    decreases *e, 1int,
{
    let mut hist: Vec<Entry> = Vec::new();
    let mut i: usize = 0;
    proof {
        assert(e@.children.skip(0) =~~= e@.children);
        assert(crate::model::entries_view(hist@) =~~= Seq::<EntryView>::empty());
    }
    while i < e.children.len()
        invariant
            i <= e.children@.len(),
            e@.children.len() == e.children@.len(),
            inner_cipher.wf(),
            spec_parse_history(e@.children, Seq::empty(), old(inner_cipher)@)
                == spec_parse_history(
                e@.children.skip(i as int),
                crate::model::entries_view(hist@),
                inner_cipher@,
            ),
        decreases e.children@.len() - i,
    {
        proof {
            assert(e@.children.skip(i as int)[0] == e@.children[i as int]);
            assert(e@.children[i as int] == crate::xmlrep::xml_node_view(e.children@[i as int]));
            assert(e@.children.skip(i as int).drop_first() =~~= e@.children.skip(i + 1));
        }
        let ghost prev = crate::model::entries_view(hist@);
        match &e.children[i] {
            XmlNode::Elem(el) => {
                if name_is(&el.name, "Entry") {
                    proof {
                        assert(decreases_to!(*e => e.children));
                        assert(decreases_to!(e.children => e.children@));
                        assert(decreases_to!(e.children@ => e.children@[i as int]));
                        assert(e.children@[i as int]->Elem_0 == *el);
                        assert(decreases_to!(e.children@[i as int] => e.children@[
                            i as int
                        ]->Elem_0));
                        assert(decreases_to!(*e => *el));
                    }
                    match parse_entry(el, inner_cipher) {
                        Ok(en) => {
                            let ghost env = en@;
                            hist.push(en);
                            proof {
                                assert(crate::model::entries_view(hist@) =~~= prev.push(env));
                            }
                        },
                        Err(err) => {
                            return Err(err);
                        },
                    }
                } else {
                    return Err(DatabaseIntegrityError::UnexpectedElement);
                }
            },
            XmlNode::Text(_) => {},
        }
        i = i + 1;
    }
    proof {
        assert(e@.children.skip(e.children@.len() as int) =~~= Seq::<XmlNodeView>::empty());
    }
    Ok(hist)
}

/// The group a `Group` element describes, children in document order.
pub fn parse_group(e: &XmlElement, inner_cipher: &mut InnerCipher) -> (r: Result<
    Group,
    DatabaseIntegrityError,
>)
    requires
        old(inner_cipher).wf(),
    ensures
        final(inner_cipher).wf(),
        match r {
            Ok(g) => spec_parse_group(e@.children, empty_group(), old(inner_cipher)@) == Ok::<
                (GroupView, CipherView),
                DatabaseIntegrityError,
            >((g@, final(inner_cipher)@)),
            Err(err) => spec_parse_group(e@.children, empty_group(), old(inner_cipher)@) == Err::<
                (GroupView, CipherView),
                DatabaseIntegrityError,
            >(err),
        },
    decreases *e, 2int,
{
    let mut g = Group {
        uuid: String::new(),
        name: String::new(),
        children: Vec::new(),
        times: Vec::new(),
        expires: false,
        unhandled_fields: Vec::new(),
    };
    let mut i: usize = 0;
    proof {
        assert(e@.children.skip(0) =~~= e@.children);
        assert(g@.uuid =~~= empty_group().uuid);
        assert(g@.name =~~= empty_group().name);
        assert(g@.children =~~= empty_group().children);
        assert(g@.times =~~= empty_group().times);
        assert(g@.unhandled =~~= empty_group().unhandled);
        assert(g@ =~~= empty_group());
    }
    while i < e.children.len()
        invariant
            i <= e.children@.len(),
            e@.children.len() == e.children@.len(),
            inner_cipher.wf(),
            spec_parse_group(e@.children, empty_group(), old(inner_cipher)@) == spec_parse_group(
                e@.children.skip(i as int),
                g@,
                inner_cipher@,
            ),
        decreases e.children@.len() - i,
    {
        proof {
            assert(e@.children.skip(i as int)[0] == e@.children[i as int]);
            assert(e@.children[i as int] == crate::xmlrep::xml_node_view(e.children@[i as int]));
            assert(e@.children.skip(i as int).drop_first() =~~= e@.children.skip(i + 1));
        }
        let ghost prev = g@;
        match &e.children[i] {
            XmlNode::Elem(el) => {
                if name_is(&el.name, "UUID") {
                    match get_text(el) {
                        Ok(t) => {
                            let ghost tv = t@;
                            g.uuid = t;
                            proof {
                                assert(g@ =~~= GroupView { uuid: tv, ..prev });
                            }
                        },
                        Err(err) => {
                            return Err(err);
                        },
                    }
                } else if name_is(&el.name, "Name") {
                    match get_text(el) {
                        Ok(t) => {
                            let ghost tv = t@;
                            g.name = t;
                            proof {
                                assert(g@ =~~= GroupView { name: tv, ..prev });
                            }
                        },
                        Err(err) => {
                            return Err(err);
                        },
                    }
                } else if name_is(&el.name, "Group") {
                    proof {
                        assert(decreases_to!(*e => e.children));
                        assert(decreases_to!(e.children => e.children@));
                        assert(decreases_to!(e.children@ => e.children@[i as int]));
                        assert(e.children@[i as int]->Elem_0 == *el);
                        assert(decreases_to!(e.children@[i as int] => e.children@[
                            i as int
                        ]->Elem_0));
                        assert(decreases_to!(*e => *el));
                    }
                    match parse_group(el, inner_cipher) {
                        Ok(sub) => {
                            let ghost subv = sub@;
                            g.children.push(Node::Group(sub));
                            proof {
                                assert(crate::model::model_nodes_view(g.children@)
                                    =~~= prev.children.push(NodeView::Group(subv)));
                                assert(g@ =~~= GroupView {
                                    children: prev.children.push(NodeView::Group(subv)),
                                    ..prev
                                });
                            }
                        },
                        Err(err) => {
                            return Err(err);
                        },
                    }
                } else if name_is(&el.name, "Entry") {
                    proof {
                        assert(decreases_to!(*e => e.children));
                        assert(decreases_to!(e.children => e.children@));
                        assert(decreases_to!(e.children@ => e.children@[i as int]));
                        assert(e.children@[i as int]->Elem_0 == *el);
                        assert(decreases_to!(e.children@[i as int] => e.children@[
                            i as int
                        ]->Elem_0));
                        assert(decreases_to!(*e => *el));
                    }
                    match parse_entry(el, inner_cipher) {
                        Ok(en) => {
                            let ghost env = en@;
                            g.children.push(Node::Entry(en));
                            proof {
                                assert(crate::model::model_nodes_view(g.children@)
                                    =~~= prev.children.push(NodeView::Entry(env)));
                                assert(g@ =~~= GroupView {
                                    children: prev.children.push(NodeView::Entry(env)),
                                    ..prev
                                });
                            }
                        },
                        Err(err) => {
                            return Err(err);
                        },
                    }
                } else if name_is(&el.name, "Times") {
                    match parse_times(el) {
                        Ok((times, expires)) => {
                            let ghost tv = crate::model::times_view(times@);
                            g.times = times;
                            g.expires = expires;
                            proof {
                                assert(g@ =~~= GroupView { times: tv, expires, ..prev });
                            }
                        },
                        Err(err) => {
                            return Err(err);
                        },
                    }
                } else {
                    match get_text(el) {
                        Ok(t) => {
                            let ghost tv = t@;
                            let ghost nv = el.name@;
                            upsert_str(&mut g.unhandled_fields, el.name.clone(), t);
                            proof {
                                assert(g@ =~~= GroupView {
                                    unhandled: spec_upsert(prev.unhandled, nv, tv),
                                    ..prev
                                });
                            }
                        },
                        Err(err) => {
                            return Err(err);
                        },
                    }
                }
            },
            XmlNode::Text(_) => {},
        }
        i = i + 1;
    }
    proof {
        assert(e@.children.skip(e.children@.len() as int) =~~= Seq::<XmlNodeView>::empty());
    }
    Ok(g)
}

/// The root group under a `Root` element: the last `Group` child wins.
pub fn parse_root(e: &XmlElement, inner_cipher: &mut InnerCipher) -> (r: Result<
    Group,
    DatabaseIntegrityError,
>)
    requires
        old(inner_cipher).wf(),
    ensures
        final(inner_cipher).wf(),
        match r {
            Ok(g) => spec_parse_root(e@.children, empty_group(), old(inner_cipher)@) == Ok::<
                (GroupView, CipherView),
                DatabaseIntegrityError,
            >((g@, final(inner_cipher)@)),
            Err(err) => spec_parse_root(e@.children, empty_group(), old(inner_cipher)@) == Err::<
                (GroupView, CipherView),
                DatabaseIntegrityError,
            >(err),
        },
{
    let mut root = Group {
        uuid: String::new(),
        name: String::new(),
        children: Vec::new(),
        times: Vec::new(),
        expires: false,
        unhandled_fields: Vec::new(),
    };
    let mut i: usize = 0;
    proof {
        assert(e@.children.skip(0) =~~= e@.children);
        assert(root@.uuid =~~= empty_group().uuid);
        assert(root@.name =~~= empty_group().name);
        assert(root@.children =~~= empty_group().children);
        assert(root@.times =~~= empty_group().times);
        assert(root@.unhandled =~~= empty_group().unhandled);
        assert(root@ =~~= empty_group());
    }
    while i < e.children.len()
        invariant
            i <= e.children@.len(),
            e@.children.len() == e.children@.len(),
            inner_cipher.wf(),
            spec_parse_root(e@.children, empty_group(), old(inner_cipher)@) == spec_parse_root(
                e@.children.skip(i as int),
                root@,
                inner_cipher@,
            ),
        decreases e.children@.len() - i,
    {
        proof {
            assert(e@.children.skip(i as int)[0] == e@.children[i as int]);
            assert(e@.children[i as int] == crate::xmlrep::xml_node_view(e.children@[i as int]));
            assert(e@.children.skip(i as int).drop_first() =~~= e@.children.skip(i + 1));
        }
        match &e.children[i] {
            XmlNode::Elem(el) => {
                if name_is(&el.name, "Group") {
                    match parse_group(el, inner_cipher) {
                        Ok(sub) => {
                            root = sub;
                        },
                        Err(err) => {
                            return Err(err);
                        },
                    }
                }
            },
            XmlNode::Text(_) => {},
        }
        i = i + 1;
    }
    proof {
        assert(e@.children.skip(e.children@.len() as int) =~~= Seq::<XmlNodeView>::empty());
    }
    Ok(root)
}

/// The root group and metadata a `Meta` element describes.
pub fn parse_meta(e: &XmlElement) -> (r: Result<Meta, DatabaseIntegrityError>)
    ensures
        match r {
            Ok(m) => spec_parse_meta(e@.children, empty_meta()) == Ok::<
                MetaView,
                DatabaseIntegrityError,
            >(m@),
            Err(err) => spec_parse_meta(e@.children, empty_meta()) == Err::<
                MetaView,
                DatabaseIntegrityError,
            >(err),
        },
{
    let mut m = Meta { recyclebin_uuid: String::new(), unhandled_fields: Vec::new() };
    let mut i: usize = 0;
    proof {
        assert(e@.children.skip(0) =~~= e@.children);
        assert(m@ =~~= empty_meta());
    }
    while i < e.children.len()
        invariant
            i <= e.children@.len(),
            e@.children.len() == e.children@.len(),
            spec_parse_meta(e@.children, empty_meta()) == spec_parse_meta(
                e@.children.skip(i as int),
                m@,
            ),
        decreases e.children@.len() - i,
    {
        proof {
            assert(e@.children.skip(i as int)[0] == e@.children[i as int]);
            assert(e@.children[i as int] == crate::xmlrep::xml_node_view(e.children@[i as int]));
            assert(e@.children.skip(i as int).drop_first() =~~= e@.children.skip(i + 1));
        }
        let ghost prev = m@;
        match &e.children[i] {
            XmlNode::Elem(el) => {
                if name_is(&el.name, "RecycleBinUUID") {
                    match get_text(el) {
                        Ok(t) => {
                            let ghost tv = t@;
                            m.recyclebin_uuid = t;
                            proof {
                                assert(m@ =~~= MetaView { recyclebin_uuid: tv, ..prev });
                            }
                        },
                        Err(err) => {
                            return Err(err);
                        },
                    }
                } else if name_is(&el.name, "MemoryProtection") || name_is(&el.name, "CustomData") {
                } else {
                    match get_text(el) {
                        Ok(t) => {
                            let ghost tv = t@;
                            let ghost nv = el.name@;
                            upsert_str(&mut m.unhandled_fields, el.name.clone(), t);
                            proof {
                                assert(m@ =~~= MetaView {
                                    unhandled: spec_upsert(prev.unhandled, nv, tv),
                                    ..prev
                                });
                            }
                        },
                        Err(err) => {
                            return Err(err);
                        },
                    }
                }
            },
            XmlNode::Text(_) => {},
        }
        i = i + 1;
    }
    proof {
        assert(e@.children.skip(e.children@.len() as int) =~~= Seq::<XmlNodeView>::empty());
    }
    Ok(m)
}

/// The database a document's bytes describe: the bytes parsed as XML,
/// then the tree walked in document order, protected values consuming
/// the inner cipher's keystream as the encoder produced them.
pub fn parse_xml_block(xml: &[u8], inner_cipher: &mut InnerCipher) -> (r: Result<
    (Group, Meta),
    DatabaseIntegrityError,
>)
    requires
        old(inner_cipher).wf(),
    ensures
        final(inner_cipher).wf(),
        match crate::xmlrep::xml_tree_of(xml@) {
            Some(t) => match r {
                Ok((g, m)) => spec_parse_document(t, old(inner_cipher)@) == Ok::<
                    ((GroupView, MetaView), CipherView),
                    DatabaseIntegrityError,
                >(((g@, m@), final(inner_cipher)@)),
                Err(err) => spec_parse_document(t, old(inner_cipher)@) == Err::<
                    ((GroupView, MetaView), CipherView),
                    DatabaseIntegrityError,
                >(err),
            },
            None => r == Err::<(Group, Meta), DatabaseIntegrityError>(
                DatabaseIntegrityError::XmlParse,
            ),
        },
{

    let root_el = match crate::xmlrep::parse_xml_bytes(xml) {
        Ok(el) => el,
        Err(err) => {
            return Err(err);
        },
    };
    let e = &root_el;
    let mut root = Group {
        uuid: String::new(),
        name: String::new(),
        children: Vec::new(),
        times: Vec::new(),
        expires: false,
        unhandled_fields: Vec::new(),
    };
    let mut meta = Meta { recyclebin_uuid: String::new(), unhandled_fields: Vec::new() };
    let mut i: usize = 0;
    proof {
        assert(e@.children.skip(0) =~~= e@.children);
        assert(root@.uuid =~~= empty_group().uuid);
        assert(root@.name =~~= empty_group().name);
        assert(root@.children =~~= empty_group().children);
        assert(root@.times =~~= empty_group().times);
        assert(root@.unhandled =~~= empty_group().unhandled);
        assert(root@ =~~= empty_group());
        assert(meta@ =~~= empty_meta());
    }
    while i < e.children.len()
        invariant
            i <= e.children@.len(),
            e@.children.len() == e.children@.len(),
            inner_cipher.wf(),
            crate::xmlrep::xml_tree_of(xml@) == Some(e@),
            spec_parse_document_children(
                e@.children,
                empty_group(),
                empty_meta(),
                old(inner_cipher)@,
            ) == spec_parse_document_children(
                e@.children.skip(i as int),
                root@,
                meta@,
                inner_cipher@,
            ),
        decreases e.children@.len() - i,
    {
        proof {
            assert(e@.children.skip(i as int)[0] == e@.children[i as int]);
            assert(e@.children[i as int] == crate::xmlrep::xml_node_view(e.children@[i as int]));
            assert(e@.children.skip(i as int).drop_first() =~~= e@.children.skip(i + 1));
        }
        match &e.children[i] {
            XmlNode::Elem(el) => {
                if name_is(&el.name, "Root") {
                    match parse_root(el, inner_cipher) {
                        Ok(g) => {
                            root = g;
                        },
                        Err(err) => {
                            return Err(err);
                        },
                    }
                } else if name_is(&el.name, "Meta") {
                    match parse_meta(el) {
                        Ok(m) => {
                            meta = m;
                        },
                        Err(err) => {
                            return Err(err);
                        },
                    }
                } else {
                    return Err(DatabaseIntegrityError::UnexpectedElement);
                }
            },
            XmlNode::Text(_) => {},
        }
        i = i + 1;
    }
    proof {
        assert(e@.children.skip(e.children@.len() as int) =~~= Seq::<XmlNodeView>::empty());
    }
    Ok((root, meta))
}

} // verus!
