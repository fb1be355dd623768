use vstd::prelude::*;
use crate::b64::{b64_decode, b64_encode, lemma_b64_roundtrip};
use crate::ciphers::{
    cipher_decrypt, cipher_encrypt, lemma_cipher_roundtrip, stream_room, CipherView,
};
use crate::errors::DatabaseIntegrityError;
use crate::model::{MetaView, ValueView};
use crate::xml_read::{
    empty_meta, spec_parse_kv, spec_parse_meta, spec_text, spec_upsert,
};
use crate::xml_write::{sv_meta, sv_string_el, sv_text_el, sv_unhandled_els};
use crate::xmlrep::{XmlElementView, XmlNodeView};

verus! {

// The laws the codec keeps: what one side of the document mapping
// writes, the other side reads back, with the inner cipher of the
// reading side consuming the keystream exactly as the writing side did.

/// Whether a cipher state is one of the inner-protection shapes: a
/// stream keystream or the pass-through. (The CBC block ciphers serve as
/// outer ciphers; their inversion is stated on their own operations.)
pub open spec fn inner_variant(c: CipherView) -> bool {
    c is Salsa || c is ChaCha || c is Plain
}

/// No two keys of an insertion-ordered map repeat.
pub open spec fn keys_unique<V>(s: Seq<(Seq<char>, V)>) -> bool {
    forall|i: int, j: int| 0 <= i < j < s.len() ==> s[i].0 != s[j].0
}

/// A key occurs in an insertion-ordered map.
pub open spec fn has_key<V>(s: Seq<(Seq<char>, V)>, k: Seq<char>) -> bool {
    exists|i: int| 0 <= i < s.len() && s[i].0 == k
}

/// Two stream encryptions in a row and one decryption of the
/// concatenation by a fresh state with the same configuration return the
/// two plaintexts in order.
pub proof fn lemma_stream_concatenation(c: CipherView, p1: Seq<u8>, p2: Seq<u8>)
    requires
        inner_variant(c),
    ensures
        ({
            let (ct1, ca) = cipher_encrypt(c, p1);
            let (ct2, cb) = cipher_encrypt(ca, p2);
            let (res, cd) = cipher_decrypt(c, ct1 + ct2);
            res == Some(p1 + p2) && cd == cb
        }),
{
    let (ct1, ca) = cipher_encrypt(c, p1);
    let (ct2, cb) = cipher_encrypt(ca, p2);
    let (res, cd) = cipher_decrypt(c, ct1 + ct2);
    assert forall|a: u8, k: u8| ((a ^ k) ^ k) == a by {
        assert(forall|a: u8, k: u8| ((a ^ k) ^ k) == a) by (bit_vector);
    }
    match c {
        CipherView::Salsa { key, iv, pos } => {
            assert(res.unwrap() =~= p1 + p2);
        },
        CipherView::ChaCha { key, nonce, pos } => {
            assert(res.unwrap() =~= p1 + p2);
        },
        CipherView::Plain => {
            assert(ct1 + ct2 =~= p1 + p2);
        },
        _ => {},
    }
}

/// A scalar element reads back the text it was written with.
pub proof fn lemma_text_el_roundtrip(name: Seq<char>, text: Seq<char>)
    ensures
        spec_text(sv_text_el(name, text)) == Ok::<Seq<char>, DatabaseIntegrityError>(text),
{
    if text.len() == 0 {
        assert(text =~= Seq::<char>::empty());
    }
}

/// The reserved names of the `Meta` block.
pub open spec fn meta_reserved(k: Seq<char>) -> bool {
    k == "RecycleBinUUID"@ || k == "MemoryProtection"@ || k == "CustomData"@
}

/// Metadata whose unrecognized fields can survive a round trip: no
/// repeated names, and none shadowing a recognized name.
pub open spec fn meta_wf(m: MetaView) -> bool {
    keys_unique(m.unhandled) && forall|i: int|
        0 <= i < m.unhandled.len() ==> !meta_reserved(m.unhandled[i].0)
}

/// Reading the elements of preserved fields appends them in order.
proof fn lemma_meta_unhandled_steps(pairs: Seq<(Seq<char>, Seq<char>)>, acc: MetaView)
    requires
        keys_unique(pairs),
        forall|i: int| 0 <= i < pairs.len() ==> !meta_reserved(pairs[i].0),
        forall|i: int| 0 <= i < pairs.len() ==> !has_key(acc.unhandled, pairs[i].0),
    ensures
        spec_parse_meta(sv_unhandled_els(pairs), acc) == Ok::<MetaView, DatabaseIntegrityError>(
            MetaView { recyclebin_uuid: acc.recyclebin_uuid, unhandled: acc.unhandled + pairs },
        ),
    decreases pairs.len(),
{
    if pairs.len() == 0 {
        assert(sv_unhandled_els(pairs) =~~= Seq::<XmlNodeView>::empty());
        assert(acc.unhandled + pairs =~~= acc.unhandled);
        assert(MetaView { recyclebin_uuid: acc.recyclebin_uuid, unhandled: acc.unhandled + pairs }
            =~~= acc);
    } else {
        let els = sv_unhandled_els(pairs);
        let k = pairs[0].0;
        let t = pairs[0].1;
        assert(els[0] == XmlNodeView::Elem(sv_text_el(k, t)));
        lemma_text_el_roundtrip(k, t);
        assert(!has_key(acc.unhandled, k));
        assert(forall|m: int| 0 <= m < acc.unhandled.len() ==> acc.unhandled[m].0 != k);
        crate::xml_read::lemma_upsert_absent(acc.unhandled, k, t);
        assert(spec_upsert(acc.unhandled, k, t) == acc.unhandled.push((k, t)));
        let acc2 = MetaView {
            recyclebin_uuid: acc.recyclebin_uuid,
            unhandled: acc.unhandled.push((k, t)),
        };
        assert(els.drop_first() =~~= sv_unhandled_els(pairs.drop_first()));
        assert(keys_unique(pairs.drop_first())) by {
            assert(forall|i: int, j: int|
                0 <= i < j < pairs.drop_first().len() ==> pairs.drop_first()[i]
                    == pairs[i + 1] && pairs.drop_first()[j] == pairs[j + 1]);
        }
        assert(forall|i: int|
            0 <= i < pairs.drop_first().len() ==> pairs.drop_first()[i] == pairs[i + 1]);
        assert forall|i: int| 0 <= i < pairs.drop_first().len() implies !has_key(
            acc2.unhandled,
            pairs.drop_first()[i].0,
        ) by {
            let kk = pairs.drop_first()[i].0;
            assert(kk == pairs[i + 1].0);
            assert(kk != k);
            if has_key(acc2.unhandled, kk) {
                let w = choose|w: int|
                    0 <= w < acc2.unhandled.len() && acc2.unhandled[w].0 == kk;
                assert(w < acc.unhandled.len() || acc2.unhandled[w] == (k, t));
                assert(has_key(acc.unhandled, kk) || kk == k);
            }
        }
        lemma_meta_unhandled_steps(pairs.drop_first(), acc2);
        assert(acc2.unhandled + pairs.drop_first() =~~= acc.unhandled + pairs);
        assert(spec_parse_meta(els, acc) == spec_parse_meta(els.drop_first(), acc2));
    }
}

/// The `Meta` block reads back exactly what it was written with: the
/// recycle-bin identifier and every preserved field, name and text
/// unchanged, in order. An unknown field injected into the metadata
/// therefore reappears in the re-serialized document under its own name.
pub proof fn lemma_meta_roundtrip(m: MetaView)
    requires
        meta_wf(m),
    ensures
        spec_parse_meta(sv_meta(m).children, empty_meta()) == Ok::<
            MetaView,
            DatabaseIntegrityError,
        >(m),
{
    let children = sv_meta(m).children;
    let rb_el = sv_text_el("RecycleBinUUID"@, m.recyclebin_uuid);
    assert(children[0] == XmlNodeView::Elem(rb_el));
    lemma_text_el_roundtrip("RecycleBinUUID"@, m.recyclebin_uuid);
    let acc1 = MetaView {
        recyclebin_uuid: m.recyclebin_uuid,
        unhandled: Seq::<(Seq<char>, Seq<char>)>::empty(),
    };
    assert(children.drop_first() =~~= sv_unhandled_els(m.unhandled));
    assert(spec_parse_meta(children, empty_meta()) == spec_parse_meta(
        children.drop_first(),
        acc1,
    ));
    lemma_meta_unhandled_steps(m.unhandled, acc1);
    assert(acc1.unhandled + m.unhandled =~~= m.unhandled);
    assert(MetaView { recyclebin_uuid: acc1.recyclebin_uuid, unhandled: acc1.unhandled
        + m.unhandled } =~~= m);
}

/// Makes the element and attribute names the codec distinguishes
/// distinct to the prover.
proof fn reveal_names()
    ensures
        "Key"@ != "Value"@,
        "True"@ != "False"@,
        !known_time_name("Expires"@),
        "UUID"@ != "Name"@,
        forall|k: Seq<char>|
            #[trigger] entry_reserved(k) ==> k != "Key"@ && !known_time_name(k) && k
                != "Expires"@,
        entry_reserved("UUID"@) && entry_reserved("Times"@) && entry_reserved("String"@)
            && entry_reserved("AutoType"@) && entry_reserved("History"@) && entry_reserved(
            "CustomData"@,
        ),
        group_reserved("UUID"@) && group_reserved("Name"@) && group_reserved("Group"@)
            && group_reserved("Entry"@) && group_reserved("Times"@),
        "UUID"@ != "Times"@ && "UUID"@ != "String"@ && "UUID"@ != "AutoType"@ && "UUID"@
            != "History"@ && "UUID"@ != "CustomData"@ && "Times"@ != "String"@ && "Times"@
            != "AutoType"@ && "Times"@ != "History"@ && "Times"@ != "CustomData"@ && "String"@
            != "AutoType"@ && "String"@ != "History"@ && "String"@ != "CustomData"@ && "AutoType"@
            != "History"@ && "AutoType"@ != "CustomData"@ && "History"@ != "CustomData"@,
        "UUID"@ != "Group"@ && "UUID"@ != "Entry"@ && "Name"@ != "Group"@ && "Name"@ != "Entry"@
            && "Name"@ != "Times"@ && "Group"@ != "Entry"@ && "Group"@ != "Times"@ && "Entry"@
            != "Times"@,
        "Enabled"@ != "DefaultSequence"@ && "Enabled"@ != "DataTransferObfuscation"@ && "Enabled"@
            != "Association"@ && "DefaultSequence"@ != "DataTransferObfuscation"@
            && "DefaultSequence"@ != "Association"@ && "DataTransferObfuscation"@
            != "Association"@,
{
    reveal_strlit("Key");
    reveal_strlit("Value");
    reveal_strlit("True");
    reveal_strlit("False");
    reveal_strlit("Expires");
    reveal_strlit("LastModificationTime");
    reveal_strlit("CreationTime");
    reveal_strlit("LastAccessTime");
    reveal_strlit("ExpiryTime");
    reveal_strlit("LocationChanged");
    reveal_strlit("UUID");
    reveal_strlit("Name");
    reveal_strlit("Times");
    reveal_strlit("String");
    reveal_strlit("AutoType");
    reveal_strlit("History");
    reveal_strlit("CustomData");
    reveal_strlit("Group");
    reveal_strlit("Entry");
    reveal_strlit("Enabled");
    reveal_strlit("DefaultSequence");
    reveal_strlit("DataTransferObfuscation");
    reveal_strlit("Association");
    assert("Key"@.len() == 3);
    assert("Value"@.len() == 5);
    assert("True"@.len() == 4);
    assert("False"@.len() == 5);
    assert("Expires"@.len() == 7);
    assert("LastModificationTime"@.len() == 20);
    assert("CreationTime"@.len() == 12);
    assert("LastAccessTime"@.len() == 14);
    assert("ExpiryTime"@.len() == 10);
    assert("LocationChanged"@.len() == 15);
    assert("UUID"@.len() == 4);
    assert("Name"@.len() == 4);
    assert("Times"@.len() == 5);
    assert("String"@.len() == 6);
    assert("AutoType"@.len() == 8);
    assert("History"@.len() == 7);
    assert("CustomData"@.len() == 10);
    assert("Group"@.len() == 5);
    assert("Entry"@.len() == 5);
    assert("Enabled"@.len() == 7);
    assert("DefaultSequence"@.len() == 15);
    assert("DataTransferObfuscation"@.len() == 23);
    assert("Association"@.len() == 11);
    assert("Value"@[0] == 'V');
    assert("False"@[0] == 'F');
    assert("Times"@[0] == 'T');
    assert("Group"@[0] == 'G');
    assert("Entry"@[0] == 'E');
    assert("True"@[0] == 'T');
    assert("UUID"@[0] == 'U');
    assert("Name"@[0] == 'N');
    assert("Expires"@[0] == 'E');
    assert("History"@[0] == 'H');
    assert("Enabled"@[0] == 'E');
    assert("ExpiryTime"@[0] == 'E');
    assert("CustomData"@[0] == 'C');
    assert("LocationChanged"@[0] == 'L');
    assert("DefaultSequence"@[0] == 'D');
    assert("Expires"@[1] == 'x');
    assert("Enabled"@[1] == 'n');
}

/// The names an entry walk recognizes.
pub open spec fn entry_reserved(k: Seq<char>) -> bool {
    k == "UUID"@ || k == "Times"@ || k == "String"@ || k == "AutoType"@ || k == "History"@ || k
        == "CustomData"@
}

/// The names a group walk recognizes.
pub open spec fn group_reserved(k: Seq<char>) -> bool {
    k == "UUID"@ || k == "Name"@ || k == "Group"@ || k == "Entry"@ || k == "Times"@
}

/// One `String` block reads back the key and value it was written with,
/// a second cipher state equal to the writer's moving in step.
pub proof fn lemma_kv_roundtrip(k: Seq<char>, v: ValueView, c: CipherView)
    requires
        inner_variant(c),
        !(v is Bytes),
        sv_string_el(k, v, c) is Ok,
    ensures
        ({
            let (el, cf) = sv_string_el(k, v, c)->Ok_0;
            spec_parse_kv(el.children, None, None, c) == Ok::<
                ((Seq<char>, ValueView), CipherView),
                DatabaseIntegrityError,
            >(((k, v), cf)) && inner_variant(cf)
        }),
{
    reveal_names();
    let (el, cf) = sv_string_el(k, v, c)->Ok_0;
    let ch = el.children;
    lemma_text_el_roundtrip("Key"@, k);
    assert(ch[0] == XmlNodeView::Elem(sv_text_el("Key"@, k)));
    let ch1 = ch.drop_first();
    assert(ch1 =~~= seq![ch[1]]);
    assert(spec_parse_kv(ch, None, None, c) == spec_parse_kv(ch1, Some(k), None, c));
    match v {
        ValueView::Unprotected(t) => {
            lemma_text_el_roundtrip("Value"@, t);
            let ch2 = ch1.drop_first();
            assert(ch2 =~~= Seq::<XmlNodeView>::empty());
            assert(spec_parse_kv(ch1, Some(k), None, c) == spec_parse_kv(
                ch2,
                Some(k),
                Some(ValueView::Unprotected(t)),
                c,
            ));
            assert(spec_parse_kv(ch2, Some(k), Some(ValueView::Unprotected(t)), c) == Ok::<
                ((Seq<char>, ValueView), CipherView),
                DatabaseIntegrityError,
            >(((k, ValueView::Unprotected(t)), c)));
        },
        ValueView::Protected(p) => {
            if p.len() == 0 {
                let vel = ch1[0]->Elem_0;
                assert(vel.protected == Some("True"@));
                assert(spec_text(vel) == Ok::<Seq<char>, DatabaseIntegrityError>(
                    Seq::<char>::empty(),
                ));
                assert(b64_decode(Seq::<char>::empty()) == Some(Seq::<u8>::empty()));
                assert(p =~~= Seq::<u8>::empty());
                assert(spec_parse_kv(ch1, Some(k), None, c) == Ok::<
                    ((Seq<char>, ValueView), CipherView),
                    DatabaseIntegrityError,
                >(((k, ValueView::Protected(Seq::<u8>::empty())), c)));
            } else {
                let (ct, c2) = cipher_encrypt(c, p);
                lemma_cipher_roundtrip(c, p);
                lemma_b64_roundtrip(ct);
                assert(ct.len() == p.len());
                let vel = ch1[0]->Elem_0;
                assert(vel.protected == Some("True"@));
                assert(vel.children[0] == XmlNodeView::Text(b64_encode(ct)));
                assert(spec_text(vel) == Ok::<Seq<char>, DatabaseIntegrityError>(b64_encode(ct)));
                assert(b64_decode(b64_encode(ct)) == Some(ct));
                assert(stream_room(c, ct.len() as int));
                assert(cipher_decrypt(c, ct) == (Some(p), cf));
                assert(spec_parse_kv(ch1, Some(k), None, c) == Ok::<
                    ((Seq<char>, ValueView), CipherView),
                    DatabaseIntegrityError,
                >(((k, ValueView::Protected(p)), cf)));
            }
        },
        ValueView::Bytes(_) => {},
    }
}

/// A timestamp map whose names are the recognized ones, none repeated.
pub open spec fn times_wf(times: Seq<(Seq<char>, i64)>) -> bool {
    keys_unique(times) && forall|i: int|
        0 <= i < times.len() ==> crate::xml_read::known_time_name(#[trigger] times[i].0)
}

use crate::xml_read::{known_time_name, spec_parse_times, spec_parse_autotype, empty_autotype};
use crate::xml_write::{sv_time_els, sv_times_el, sv_bool_text, sv_autotype_el};
use crate::timestamp::lemma_timestamp_roundtrip;
use crate::model::AutoTypeView;

/// Reading timestamp elements appends them in order.
proof fn lemma_times_steps(times: Seq<(Seq<char>, i64)>, acc: Seq<(Seq<char>, i64)>, expires: bool)
    requires
        times_wf(times),
        forall|i: int| 0 <= i < times.len() ==> !has_key(acc, #[trigger] times[i].0),
    ensures
        spec_parse_times(sv_time_els(times), acc, expires) == Ok::<
            (Seq<(Seq<char>, i64)>, bool),
            DatabaseIntegrityError,
        >((acc + times, expires)),
    decreases times.len(),
{
    if times.len() == 0 {
        assert(sv_time_els(times) =~~= Seq::<XmlNodeView>::empty());
        assert(acc + times =~~= acc);
    } else {
        let els = sv_time_els(times);
        let k = times[0].0;
        let sec = times[0].1;
        assert(els[0] == XmlNodeView::Elem(sv_text_el(k, crate::timestamp::spec_ts_text(sec))));
        lemma_text_el_roundtrip(k, crate::timestamp::spec_ts_text(sec));
        lemma_timestamp_roundtrip(sec);
        assert(forall|m: int| 0 <= m < acc.len() ==> acc[m].0 != k);
        crate::xml_read::lemma_upsert_absent(acc, k, sec);
        let acc2 = acc.push((k, sec));
        assert(els.drop_first() =~~= sv_time_els(times.drop_first()));
        assert(forall|i: int|
            0 <= i < times.drop_first().len() ==> times.drop_first()[i] == times[i + 1]);
        assert(times_wf(times.drop_first()));
        assert forall|i: int| 0 <= i < times.drop_first().len() implies !has_key(
            acc2,
            #[trigger] times.drop_first()[i].0,
        ) by {
            let kk = times.drop_first()[i].0;
            assert(kk == times[i + 1].0);
            assert(kk != k);
            if has_key(acc2, kk) {
                let w = choose|w: int| 0 <= w < acc2.len() && acc2[w].0 == kk;
                assert(w < acc.len() || acc2[w] == (k, sec));
            }
        }
        lemma_times_steps(times.drop_first(), acc2, expires);
        assert(acc2 + times.drop_first() =~~= acc + times);
    }
}

/// The `Times` block reads back the map and flag it was written with.
pub proof fn lemma_times_roundtrip(times: Seq<(Seq<char>, i64)>, expires: bool)
    requires
        times_wf(times),
    ensures
        spec_parse_times(sv_times_el(times, expires).children, Seq::empty(), false) == Ok::<
            (Seq<(Seq<char>, i64)>, bool),
            DatabaseIntegrityError,
        >((times, expires)),
{
    reveal_names();
    let ch = sv_times_el(times, expires).children;
    assert(ch[0] == XmlNodeView::Elem(sv_text_el("Expires"@, sv_bool_text(expires))));
    lemma_text_el_roundtrip("Expires"@, sv_bool_text(expires));
    assert((sv_bool_text(expires) == "True"@) == expires);
    assert(ch.drop_first() =~~= sv_time_els(times));
    lemma_times_steps(times, Seq::empty(), expires);
    assert(Seq::<(Seq<char>, i64)>::empty() + times =~~= times);
}

/// The `AutoType` block reads back the record it was written with, as
/// far as the writer carries it: associations are not emitted, so the
/// law asks for a record without them.
pub proof fn lemma_autotype_roundtrip(a: AutoTypeView)
    requires
        a.associations.len() == 0,
    ensures
        spec_parse_autotype(sv_autotype_el(a).children, empty_autotype()) == Ok::<
            AutoTypeView,
            DatabaseIntegrityError,
        >(a),
{
    reveal_names();
    let ch = sv_autotype_el(a).children;
    lemma_text_el_roundtrip("Enabled"@, sv_bool_text(a.enabled));
    assert((sv_bool_text(a.enabled) == "True"@) == a.enabled);
    assert(ch[0] == XmlNodeView::Elem(sv_text_el("Enabled"@, sv_bool_text(a.enabled))));
    let acc1 = AutoTypeView {
        enabled: a.enabled,
        sequence: None,
        associations: Seq::<crate::model::AutoTypeAssociationView>::empty(),
    };
    assert(spec_parse_autotype(ch, empty_autotype()) == spec_parse_autotype(
        ch.drop_first(),
        acc1,
    ));
    match a.sequence {
        Some(s) => {
            lemma_text_el_roundtrip("DefaultSequence"@, s);
            let ch1 = ch.drop_first();
            assert(ch1 =~~= seq![XmlNodeView::Elem(sv_text_el("DefaultSequence"@, s))]);
            let acc2 = AutoTypeView { sequence: Some(s), ..acc1 };
            assert(spec_parse_autotype(ch1, acc1) == spec_parse_autotype(
                ch1.drop_first(),
                acc2,
            ));
            assert(ch1.drop_first() =~~= Seq::<XmlNodeView>::empty());
            assert(spec_parse_autotype(ch1.drop_first(), acc2) == Ok::<
                AutoTypeView,
                DatabaseIntegrityError,
            >(acc2));
            assert(acc2 =~~= a);
        },
        None => {
            assert(ch.drop_first() =~~= Seq::<XmlNodeView>::empty());
            assert(spec_parse_autotype(ch.drop_first(), acc1) == Ok::<
                AutoTypeView,
                DatabaseIntegrityError,
            >(acc1));
            assert(acc1 =~~= a);
        },
    }
}

use crate::model::{DatabaseView, EntryView, GroupView, NodeView};
use crate::xml_read::{
    empty_entry, empty_group, spec_parse_document, spec_parse_entry, spec_parse_group,
    spec_parse_history, spec_parse_root,
};
use crate::xml_write::{sv_database, sv_entry, sv_fields, sv_group, sv_history, sv_nodes};

/// A value the serializer carries in full.
pub open spec fn value_wf(v: ValueView) -> bool {
    !(v is Bytes)
}

/// An entry that can survive a round trip: field keys unique and values
/// carried in full, automation without associations (the serializer does
/// not emit them), recognized timestamp names without repeats, preserved
/// names neither repeated nor shadowing recognized ones, and every prior
/// snapshot likewise.
pub open spec fn entry_wf(e: EntryView) -> bool
    decreases e,
{
    &&& keys_unique(e.fields)
    &&& (forall|i: int| 0 <= i < e.fields.len() ==> value_wf(#[trigger] e.fields[i].1))
    &&& (match e.autotype {
        Some(a) => a.associations.len() == 0,
        None => true,
    })
    &&& times_wf(e.times)
    &&& keys_unique(e.unhandled)
    &&& (forall|i: int| 0 <= i < e.unhandled.len() ==> !entry_reserved(#[trigger] e.unhandled[i].0))
    &&& (forall|i: int|
        0 <= i < e.history.len() ==> entry_wf(
            #[trigger] e.history[i],
        ))
}

/// A group child that can survive a round trip.
pub open spec fn node_wf(n: NodeView) -> bool
    decreases n,
{
    match n {
        NodeView::Group(g) => group_wf(g),
        NodeView::Entry(e) => entry_wf(e),
    }
}

/// A group that can survive a round trip.
pub open spec fn group_wf(g: GroupView) -> bool
    decreases g,
{
    &&& times_wf(g.times)
    &&& keys_unique(g.unhandled)
    &&& (forall|i: int| 0 <= i < g.unhandled.len() ==> !group_reserved(#[trigger] g.unhandled[i].0))
    &&& (forall|i: int| 0 <= i < g.children.len() ==> node_wf(#[trigger] g.children[i]))
}

/// A database that can survive a round trip.
pub open spec fn db_wf(db: DatabaseView) -> bool {
    meta_wf(db.meta) && group_wf(db.root)
}

/// Reading an entry's preserved fields appends them in order and walks on.
proof fn lemma_entry_unhandled_steps(
    pairs: Seq<(Seq<char>, Seq<char>)>,
    rest: Seq<XmlNodeView>,
    acc: EntryView,
    c: CipherView,
)
    requires
        keys_unique(pairs),
        forall|i: int| 0 <= i < pairs.len() ==> !entry_reserved(#[trigger] pairs[i].0),
        forall|i: int| 0 <= i < pairs.len() ==> !has_key(acc.unhandled, #[trigger] pairs[i].0),
    ensures
        spec_parse_entry(sv_unhandled_els(pairs) + rest, acc, c) == spec_parse_entry(
            rest,
            EntryView { unhandled: acc.unhandled + pairs, ..acc },
            c,
        ),
    decreases pairs.len(),
{
    reveal_names();
    if pairs.len() == 0 {
        assert(sv_unhandled_els(pairs) + rest =~~= rest);
        assert(EntryView { unhandled: acc.unhandled + pairs, ..acc } =~~= acc);
    } else {
        let k = pairs[0].0;
        let t = pairs[0].1;
        let all = sv_unhandled_els(pairs) + rest;
        assert(all[0] == XmlNodeView::Elem(sv_text_el(k, t)));
        lemma_text_el_roundtrip(k, t);
        assert(!entry_reserved(k));
        assert(forall|m: int| 0 <= m < acc.unhandled.len() ==> acc.unhandled[m].0 != k);
        crate::xml_read::lemma_upsert_absent(acc.unhandled, k, t);
        let acc2 = EntryView { unhandled: acc.unhandled.push((k, t)), ..acc };
        assert(all.drop_first() =~~= sv_unhandled_els(pairs.drop_first()) + rest);
        assert(forall|i: int|
            0 <= i < pairs.drop_first().len() ==> pairs.drop_first()[i] == pairs[i + 1]);
        assert(keys_unique(pairs.drop_first()));
        assert forall|i: int| 0 <= i < pairs.drop_first().len() implies !has_key(
            acc2.unhandled,
            #[trigger] pairs.drop_first()[i].0,
        ) by {
            let kk = pairs.drop_first()[i].0;
            assert(kk == pairs[i + 1].0);
            if has_key(acc2.unhandled, kk) {
                let w = choose|w: int|
                    0 <= w < acc2.unhandled.len() && acc2.unhandled[w].0 == kk;
                assert(w < acc.unhandled.len() || acc2.unhandled[w] == (k, t));
            }
        }
        lemma_entry_unhandled_steps(pairs.drop_first(), rest, acc2, c);
        assert(acc2.unhandled + pairs.drop_first() =~~= acc.unhandled + pairs);
        assert(EntryView { unhandled: acc2.unhandled + pairs.drop_first(), ..acc2 }
            =~~= EntryView { unhandled: acc.unhandled + pairs, ..acc });
    }
}

/// Reading an entry's `String` blocks appends the fields in order,
/// consuming the keystream exactly as the writer did, and walks on.
proof fn lemma_entry_fields_steps(
    fields: Seq<(Seq<char>, ValueView)>,
    rest: Seq<XmlNodeView>,
    acc: EntryView,
    c: CipherView,
)
    requires
        inner_variant(c),
        keys_unique(fields),
        forall|i: int| 0 <= i < fields.len() ==> value_wf(#[trigger] fields[i].1),
        forall|i: int| 0 <= i < fields.len() ==> !has_key(acc.fields, #[trigger] fields[i].0),
        sv_fields(fields, c) is Ok,
    ensures
        ({
            let (els, cf) = sv_fields(fields, c)->Ok_0;
            spec_parse_entry(els + rest, acc, c) == spec_parse_entry(
                rest,
                EntryView { fields: acc.fields + fields, ..acc },
                cf,
            ) && inner_variant(cf)
        }),
    decreases fields.len(),
{
    reveal_names();
    let (els, cf) = sv_fields(fields, c)->Ok_0;
    if fields.len() == 0 {
        assert(els + rest =~~= rest);
        assert(EntryView { fields: acc.fields + fields, ..acc } =~~= acc);
    } else {
        let k = fields[0].0;
        let v = fields[0].1;
        let (el0, c1) = sv_string_el(k, v, c)->Ok_0;
        lemma_kv_roundtrip(k, v, c);
        let (els1, cf1) = sv_fields(fields.drop_first(), c1)->Ok_0;
        assert(els == seq![XmlNodeView::Elem(el0)] + els1);
        let all = els + rest;
        assert(all[0] == XmlNodeView::Elem(el0));
        assert(el0.name == "String"@);
        assert(forall|m: int| 0 <= m < acc.fields.len() ==> acc.fields[m].0 != k);
        crate::xml_read::lemma_upsert_absent(acc.fields, k, v);
        let acc2 = EntryView { fields: acc.fields.push((k, v)), ..acc };
        assert(all.drop_first() =~~= els1 + rest);
        assert(forall|i: int|
            0 <= i < fields.drop_first().len() ==> fields.drop_first()[i] == fields[i + 1]);
        assert(keys_unique(fields.drop_first()));
        assert forall|i: int| 0 <= i < fields.drop_first().len() implies !has_key(
            acc2.fields,
            #[trigger] fields.drop_first()[i].0,
        ) by {
            let kk = fields.drop_first()[i].0;
            assert(kk == fields[i + 1].0);
            if has_key(acc2.fields, kk) {
                let w = choose|w: int| 0 <= w < acc2.fields.len() && acc2.fields[w].0 == kk;
                assert(w < acc.fields.len() || acc2.fields[w] == (k, v));
            }
        }
        lemma_entry_fields_steps(fields.drop_first(), rest, acc2, c1);
        assert(acc2.fields + fields.drop_first() =~~= acc.fields + fields);
        assert(EntryView { fields: acc2.fields + fields.drop_first(), ..acc2 } =~~= EntryView {
            fields: acc.fields + fields,
            ..acc
        });
    }
}

/// An entry element reads back the entry it was written with, the
/// reader's cipher moving in step with the writer's.
pub proof fn lemma_entry_roundtrip(e: EntryView, c: CipherView)
    requires
        entry_wf(e),
        inner_variant(c),
        sv_entry(e, c) is Ok,
    ensures
        ({
            let (el, cf) = sv_entry(e, c)->Ok_0;
            spec_parse_entry(el.children, empty_entry(), c) == Ok::<
                (EntryView, CipherView),
                DatabaseIntegrityError,
            >((e, cf)) && inner_variant(cf)
        }),
    decreases e, 1int,
{
    reveal_names();
    let (el, cf) = sv_entry(e, c)->Ok_0;
    let (field_els, c1) = sv_fields(e.fields, c)->Ok_0;
    let (hist_els, c2) = sv_history(e.history, c1)->Ok_0;
    let uuid_seg = seq![XmlNodeView::Elem(sv_text_el("UUID"@, e.uuid))];
    let unh_seg = sv_unhandled_els(e.unhandled);
    let at_seg: Seq<XmlNodeView> = match e.autotype {
        Some(a) => seq![XmlNodeView::Elem(crate::xml_write::sv_autotype_el(a))],
        None => Seq::<XmlNodeView>::empty(),
    };
    let hist_seg: Seq<XmlNodeView> = if e.history.len() > 0 {
        seq![
            XmlNodeView::Elem(
                XmlElementView { name: "History"@, protected: None, children: hist_els },
            ),
        ]
    } else {
        Seq::<XmlNodeView>::empty()
    };
    let times_seg = seq![XmlNodeView::Elem(sv_times_el(e.times, e.expires))];
    let ch = el.children;
    // peel the identifier
    let rest1 = unh_seg + (field_els + (at_seg + (hist_seg + times_seg)));
    assert(ch =~~= uuid_seg + rest1);
    assert(ch[0] == XmlNodeView::Elem(sv_text_el("UUID"@, e.uuid)));
    lemma_text_el_roundtrip("UUID"@, e.uuid);
    let acc1 = EntryView { uuid: e.uuid, ..empty_entry() };
    assert(ch.drop_first() =~~= rest1);
    assert(spec_parse_entry(ch, empty_entry(), c) == spec_parse_entry(rest1, acc1, c));
    // peel the preserved fields
    let rest2 = field_els + (at_seg + (hist_seg + times_seg));
    lemma_entry_unhandled_steps(e.unhandled, rest2, acc1, c);
    let acc2 = EntryView { unhandled: e.unhandled, ..acc1 };
    assert(acc1.unhandled + e.unhandled =~~= e.unhandled);
    assert(EntryView { unhandled: acc1.unhandled + e.unhandled, ..acc1 } =~~= acc2);
    // peel the String blocks
    let rest3 = at_seg + (hist_seg + times_seg);
    lemma_entry_fields_steps(e.fields, rest3, acc2, c);
    let acc3 = EntryView { fields: e.fields, ..acc2 };
    assert(acc2.fields + e.fields =~~= e.fields);
    assert(EntryView { fields: acc2.fields + e.fields, ..acc2 } =~~= acc3);
    // peel the automation block
    let rest4 = hist_seg + times_seg;
    let acc4 = EntryView { autotype: e.autotype, ..acc3 };
    match e.autotype {
        Some(a) => {
            lemma_autotype_roundtrip(a);
            assert((at_seg + rest4)[0] == XmlNodeView::Elem(crate::xml_write::sv_autotype_el(a)));
            assert((at_seg + rest4).drop_first() =~~= rest4);
            assert(spec_parse_entry(rest3, acc3, c1) == spec_parse_entry(rest4, acc4, c1));
        },
        None => {
            assert(rest3 =~~= rest4);
            assert(acc4 =~~= acc3);
        },
    }
    // peel the history block
    let acc5 = EntryView { history: e.history, ..acc4 };
    if e.history.len() > 0 {
        lemma_history_steps(e.history, Seq::empty(), c1);
        assert(Seq::<EntryView>::empty() + e.history =~~= e.history);
        assert((hist_seg + times_seg)[0] == XmlNodeView::Elem(
            XmlElementView { name: "History"@, protected: None, children: hist_els },
        ));
        assert((hist_seg + times_seg).drop_first() =~~= times_seg);
        assert(spec_parse_entry(rest4, acc4, c1) == spec_parse_entry(times_seg, acc5, c2));
    } else {
        assert(sv_history(e.history, c1) == Ok::<
            (Seq<XmlNodeView>, CipherView),
            DatabaseIntegrityError,
        >((Seq::<XmlNodeView>::empty(), c1)));
        assert(rest4 =~~= times_seg);
        assert(acc5 =~~= acc4);
        assert(e.history =~~= Seq::<EntryView>::empty());
    }
    // the trailing Times block
    lemma_times_roundtrip(e.times, e.expires);
    let acc6 = EntryView { times: e.times, expires: e.expires, ..acc5 };
    assert(times_seg[0] == XmlNodeView::Elem(sv_times_el(e.times, e.expires)));
    assert(times_seg.drop_first() =~~= Seq::<XmlNodeView>::empty());
    assert(spec_parse_entry(times_seg, acc5, c2) == spec_parse_entry(
        Seq::<XmlNodeView>::empty(),
        acc6,
        c2,
    ));
    assert(acc6 =~~= e);
}

/// History elements read back the snapshots in order, the cipher
/// threaded through them.
pub proof fn lemma_history_steps(hist: Seq<EntryView>, acc: Seq<EntryView>, c: CipherView)
    requires
        inner_variant(c),
        forall|i: int| 0 <= i < hist.len() ==> entry_wf(#[trigger] hist[i]),
        sv_history(hist, c) is Ok,
    ensures
        ({
            let (els, cf) = sv_history(hist, c)->Ok_0;
            spec_parse_history(els, acc, c) == Ok::<
                (Seq<EntryView>, CipherView),
                DatabaseIntegrityError,
            >((acc + hist, cf)) && inner_variant(cf)
        }),
    decreases hist, 0int,
{
    reveal_names();
    let (els, cf) = sv_history(hist, c)->Ok_0;
    if hist.len() == 0 {
        assert(els =~~= Seq::<XmlNodeView>::empty());
        assert(acc + hist =~~= acc);
    } else {
        let e0 = hist[0];
        let (el0, c1) = sv_entry(e0, c)->Ok_0;
        lemma_entry_roundtrip(e0, c);
        let (els1, cf1) = sv_history(hist.drop_first(), c1)->Ok_0;
        assert(els == seq![XmlNodeView::Elem(el0)] + els1);
        assert(els[0] == XmlNodeView::Elem(el0));
        assert(el0.name == "Entry"@);
        assert(els.drop_first() =~~= els1);
        assert(forall|i: int|
            0 <= i < hist.drop_first().len() ==> hist.drop_first()[i] == hist[i + 1]);
        lemma_history_steps(hist.drop_first(), acc.push(e0), c1);
        assert(acc.push(e0) + hist.drop_first() =~~= acc + hist);
    }
}

/// Group and entry elements read back the children in order, the cipher
/// threaded through them, appended to what was already read.
pub proof fn lemma_nodes_steps(ns: Seq<NodeView>, acc: GroupView, c: CipherView)
    requires
        inner_variant(c),
        forall|i: int| 0 <= i < ns.len() ==> node_wf(#[trigger] ns[i]),
        sv_nodes(ns, c) is Ok,
    ensures
        ({
            let (els, cf) = sv_nodes(ns, c)->Ok_0;
            spec_parse_group(els, acc, c) == Ok::<
                (GroupView, CipherView),
                DatabaseIntegrityError,
            >((GroupView { children: acc.children + ns, ..acc }, cf)) && inner_variant(cf)
        }),
    decreases ns, 2int,
{
    reveal_names();
    let (els, cf) = sv_nodes(ns, c)->Ok_0;
    if ns.len() == 0 {
        assert(els =~~= Seq::<XmlNodeView>::empty());
        assert(GroupView { children: acc.children + ns, ..acc } =~~= acc);
    } else {
        assert(forall|i: int|
            0 <= i < ns.drop_first().len() ==> ns.drop_first()[i] == ns[i + 1]);
        match ns[0] {
            NodeView::Group(g0) => {
                let (el0, c1) = sv_group(g0, c)->Ok_0;
                lemma_group_roundtrip(g0, c);
                assert(els[0] == XmlNodeView::Elem(el0));
                assert(el0.name == "Group"@);
                assert(els.drop_first() =~~= sv_nodes(ns.drop_first(), c1)->Ok_0.0);
                let acc2 = GroupView { children: acc.children.push(NodeView::Group(g0)), ..acc };
                lemma_nodes_steps(ns.drop_first(), acc2, c1);
                assert(acc2.children + ns.drop_first() =~~= acc.children + ns);
                assert(GroupView { children: acc2.children + ns.drop_first(), ..acc2 }
                    =~~= GroupView { children: acc.children + ns, ..acc });
            },
            NodeView::Entry(e0) => {
                let (el0, c1) = sv_entry(e0, c)->Ok_0;
                lemma_entry_roundtrip(e0, c);
                assert(els[0] == XmlNodeView::Elem(el0));
                assert(el0.name == "Entry"@);
                assert(els.drop_first() =~~= sv_nodes(ns.drop_first(), c1)->Ok_0.0);
                let acc2 = GroupView { children: acc.children.push(NodeView::Entry(e0)), ..acc };
                lemma_nodes_steps(ns.drop_first(), acc2, c1);
                assert(acc2.children + ns.drop_first() =~~= acc.children + ns);
                assert(GroupView { children: acc2.children + ns.drop_first(), ..acc2 }
                    =~~= GroupView { children: acc.children + ns, ..acc });
            },
        }
    }
}

/// Reading a group's preserved fields appends them in order and walks on.
proof fn lemma_group_unhandled_steps(
    pairs: Seq<(Seq<char>, Seq<char>)>,
    rest: Seq<XmlNodeView>,
    acc: GroupView,
    c: CipherView,
)
    requires
        keys_unique(pairs),
        forall|i: int| 0 <= i < pairs.len() ==> !group_reserved(#[trigger] pairs[i].0),
        forall|i: int| 0 <= i < pairs.len() ==> !has_key(acc.unhandled, #[trigger] pairs[i].0),
    ensures
        spec_parse_group(sv_unhandled_els(pairs) + rest, acc, c) == spec_parse_group(
            rest,
            GroupView { unhandled: acc.unhandled + pairs, ..acc },
            c,
        ),
    decreases pairs.len(),
{
    reveal_names();
    if pairs.len() == 0 {
        assert(sv_unhandled_els(pairs) + rest =~~= rest);
        assert(GroupView { unhandled: acc.unhandled + pairs, ..acc } =~~= acc);
    } else {
        let k = pairs[0].0;
        let t = pairs[0].1;
        let all = sv_unhandled_els(pairs) + rest;
        assert(all[0] == XmlNodeView::Elem(sv_text_el(k, t)));
        lemma_text_el_roundtrip(k, t);
        assert(!group_reserved(k));
        assert(forall|m: int| 0 <= m < acc.unhandled.len() ==> acc.unhandled[m].0 != k);
        crate::xml_read::lemma_upsert_absent(acc.unhandled, k, t);
        let acc2 = GroupView { unhandled: acc.unhandled.push((k, t)), ..acc };
        assert(all.drop_first() =~~= sv_unhandled_els(pairs.drop_first()) + rest);
        assert(forall|i: int|
            0 <= i < pairs.drop_first().len() ==> pairs.drop_first()[i] == pairs[i + 1]);
        assert(keys_unique(pairs.drop_first()));
        assert forall|i: int| 0 <= i < pairs.drop_first().len() implies !has_key(
            acc2.unhandled,
            #[trigger] pairs.drop_first()[i].0,
        ) by {
            let kk = pairs.drop_first()[i].0;
            assert(kk == pairs[i + 1].0);
            if has_key(acc2.unhandled, kk) {
                let w = choose|w: int|
                    0 <= w < acc2.unhandled.len() && acc2.unhandled[w].0 == kk;
                assert(w < acc.unhandled.len() || acc2.unhandled[w] == (k, t));
            }
        }
        lemma_group_unhandled_steps(pairs.drop_first(), rest, acc2, c);
        assert(acc2.unhandled + pairs.drop_first() =~~= acc.unhandled + pairs);
        assert(GroupView { unhandled: acc2.unhandled + pairs.drop_first(), ..acc2 }
            =~~= GroupView { unhandled: acc.unhandled + pairs, ..acc });
    }
}

/// A group element reads back the group it was written with, the
/// reader's cipher moving in step with the writer's.
pub proof fn lemma_group_roundtrip(g: GroupView, c: CipherView)
    requires
        group_wf(g),
        inner_variant(c),
        sv_group(g, c) is Ok,
    ensures
        ({
            let (el, cf) = sv_group(g, c)->Ok_0;
            spec_parse_group(el.children, empty_group(), c) == Ok::<
                (GroupView, CipherView),
                DatabaseIntegrityError,
            >((g, cf)) && inner_variant(cf)
        }),
    decreases g, 3int,
{
    reveal_names();
    let (el, cf) = sv_group(g, c)->Ok_0;
    let (child_els, c1) = sv_nodes(g.children, c)->Ok_0;
    let head_seg = seq![
        XmlNodeView::Elem(sv_text_el("UUID"@, g.uuid)),
        XmlNodeView::Elem(sv_text_el("Name"@, g.name)),
    ];
    let unh_seg = sv_unhandled_els(g.unhandled);
    let times_seg = seq![XmlNodeView::Elem(sv_times_el(g.times, g.expires))];
    let ch = el.children;
    let rest1 = seq![XmlNodeView::Elem(sv_text_el("Name"@, g.name))] + (unh_seg + (times_seg
        + child_els));
    assert(ch =~~= seq![XmlNodeView::Elem(sv_text_el("UUID"@, g.uuid))] + rest1);
    lemma_text_el_roundtrip("UUID"@, g.uuid);
    lemma_text_el_roundtrip("Name"@, g.name);
    let acc1 = GroupView { uuid: g.uuid, ..empty_group() };
    assert(ch.drop_first() =~~= rest1);
    assert(spec_parse_group(ch, empty_group(), c) == spec_parse_group(rest1, acc1, c));
    let rest2 = unh_seg + (times_seg + child_els);
    let acc2 = GroupView { name: g.name, ..acc1 };
    assert(rest1[0] == XmlNodeView::Elem(sv_text_el("Name"@, g.name)));
    assert(rest1.drop_first() =~~= rest2);
    assert(spec_parse_group(rest1, acc1, c) == spec_parse_group(rest2, acc2, c));
    let rest3 = times_seg + child_els;
    lemma_group_unhandled_steps(g.unhandled, rest3, acc2, c);
    let acc3 = GroupView { unhandled: g.unhandled, ..acc2 };
    assert(acc2.unhandled + g.unhandled =~~= g.unhandled);
    assert(GroupView { unhandled: acc2.unhandled + g.unhandled, ..acc2 } =~~= acc3);
    lemma_times_roundtrip(g.times, g.expires);
    let acc4 = GroupView { times: g.times, expires: g.expires, ..acc3 };
    assert(rest3[0] == XmlNodeView::Elem(sv_times_el(g.times, g.expires)));
    assert(rest3.drop_first() =~~= child_els);
    assert(spec_parse_group(rest3, acc3, c) == spec_parse_group(child_els, acc4, c));
    lemma_nodes_steps(g.children, acc4, c);
    assert(acc4.children + g.children =~~= g.children);
    assert(GroupView { children: acc4.children + g.children, ..acc4 } =~~= g);
}

/// The document element reads back the database it was written with:
/// parsing what the serializer produced — with a second cipher equal to
/// the one the serializer consumed — returns the same tree, metadata and
/// root group alike, and leaves the reading cipher exactly where the
/// writing cipher ended.
pub proof fn lemma_document_roundtrip(db: DatabaseView, c: CipherView)
    requires
        db_wf(db),
        inner_variant(c),
        sv_database(db, c) is Ok,
    ensures
        ({
            let (tree, cf) = sv_database(db, c)->Ok_0;
            spec_parse_document(tree, c) == Ok::<
                ((GroupView, MetaView), CipherView),
                DatabaseIntegrityError,
            >(((db.root, db.meta), cf))
        }),
{
    reveal_names();
    reveal_strlit("Meta");
    reveal_strlit("Root");
    reveal_strlit("KeePassFile");
    assert("Meta"@.len() == 4 && "Root"@.len() == 4 && "Meta"@[0] == 'M' && "Root"@[0] == 'R');
    let (tree, cf) = sv_database(db, c)->Ok_0;
    let (root_el, c1) = sv_group(db.root, c)->Ok_0;
    let ch = tree.children;
    assert(ch[0] == XmlNodeView::Elem(sv_meta(db.meta)));
    lemma_meta_roundtrip(db.meta);
    let root_wrap = XmlElementView {
        name: "Root"@,
        protected: None,
        children: seq![XmlNodeView::Elem(root_el)],
    };
    assert(ch[1] == XmlNodeView::Elem(root_wrap));
    assert(ch.drop_first() =~~= seq![XmlNodeView::Elem(root_wrap)]);
    lemma_group_roundtrip(db.root, c);
    // inside Root: one Group child, the last one read wins
    assert(root_wrap.children[0] == XmlNodeView::Elem(root_el));
    assert(root_el.name == "Group"@);
    assert(root_wrap.children.drop_first() =~~= Seq::<XmlNodeView>::empty());
    assert(spec_parse_root(root_wrap.children, empty_group(), c) == spec_parse_root(
        root_wrap.children.drop_first(),
        db.root,
        c1,
    ));
    assert(spec_parse_root(root_wrap.children.drop_first(), db.root, c1) == Ok::<
        (GroupView, CipherView),
        DatabaseIntegrityError,
    >((db.root, c1)));
    // the document fold: Meta first, then Root
    let em = crate::xml_read::empty_meta();
    assert(spec_parse_document(tree, c) == crate::xml_read::spec_parse_document_children(
        ch,
        empty_group(),
        em,
        c,
    ));
    assert(crate::xml_read::spec_parse_document_children(ch, empty_group(), em, c)
        == crate::xml_read::spec_parse_document_children(
        ch.drop_first(),
        empty_group(),
        db.meta,
        c,
    ));
    assert(crate::xml_read::spec_parse_document_children(
        ch.drop_first(),
        empty_group(),
        db.meta,
        c,
    ) == crate::xml_read::spec_parse_document_children(
        ch.drop_first().drop_first(),
        db.root,
        db.meta,
        c1,
    ));
    assert(ch.drop_first().drop_first() =~~= Seq::<XmlNodeView>::empty());
    assert(crate::xml_read::spec_parse_document_children(
        ch.drop_first().drop_first(),
        db.root,
        db.meta,
        c1,
    ) == Ok::<((GroupView, MetaView), CipherView), DatabaseIntegrityError>(
        ((db.root, db.meta), c1),
    ));
}

} // verus!
