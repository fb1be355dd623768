use kdbx_core::ciphers::{InnerCipher, PlainCipher, Salsa20Cipher};
use kdbx_core::errors::DatabaseIntegrityError;
use kdbx_core::model::{AutoType, Database, Entry, Group, Meta, Node, Value};
use kdbx_core::secure::SecureBytes;
use kdbx_core::timestamp::Timestamp;
use kdbx_core::xml_read::parse_xml_block;
use kdbx_core::xml_write::write_xml;

fn salsa() -> InnerCipher {
    InnerCipher::Salsa20(Salsa20Cipher::new(&[0u8; 32]).unwrap())
}

fn plain() -> InnerCipher {
    InnerCipher::Plain(PlainCipher::new(&[]).unwrap())
}

fn empty_entry() -> Entry {
    Entry {
        uuid: String::new(),
        fields: Vec::new(),
        autotype: None,
        history: Vec::new(),
        times: Vec::new(),
        expires: false,
        unhandled_fields: Vec::new(),
    }
}

fn empty_group() -> Group {
    Group {
        uuid: String::new(),
        name: String::new(),
        children: Vec::new(),
        times: Vec::new(),
        expires: false,
        unhandled_fields: Vec::new(),
    }
}

fn small_db() -> Database {
    let mut entry = empty_entry();
    entry.uuid = "entry-1".to_string();
    entry.fields.push(("Title".to_string(), Value::Unprotected("T".to_string())));
    entry.fields.push((
        "Password".to_string(),
        Value::Protected(SecureBytes::new(b"s3cret".to_vec())),
    ));
    let mut root = empty_group();
    root.uuid = "root-uuid".to_string();
    root.name = "Root Group".to_string();
    root.children.push(Node::Entry(entry));
    Database {
        meta: Meta { recyclebin_uuid: "bin".to_string(), unhandled_fields: Vec::new() },
        root,
    }
}

#[test]
fn protected_value_roundtrip() {
    let db = small_db();
    let mut enc = salsa();
    let bytes = write_xml(&db, &mut enc).unwrap();
    let mut dec = salsa();
    let (root, meta) = parse_xml_block(&bytes, &mut dec).unwrap();
    assert_eq!(Database { meta, root }, db);
}

#[test]
fn roundtrip_with_plain_cipher() {
    let db = small_db();
    let mut enc = plain();
    let bytes = write_xml(&db, &mut enc).unwrap();
    let mut dec = plain();
    let (root, meta) = parse_xml_block(&bytes, &mut dec).unwrap();
    assert_eq!(Database { meta, root }, db);
}

#[test]
fn history_keystream_ordering() {
    // two prior snapshots, each with a protected field, must decode
    // correctly only when the keystream is consumed in document order
    let mut h1 = empty_entry();
    h1.uuid = "h1".to_string();
    h1.fields.push((
        "Password".to_string(),
        Value::Protected(SecureBytes::new(b"older".to_vec())),
    ));
    let mut h2 = empty_entry();
    h2.uuid = "h2".to_string();
    h2.fields.push((
        "Password".to_string(),
        Value::Protected(SecureBytes::new(b"newer".to_vec())),
    ));
    let mut entry = empty_entry();
    entry.uuid = "current".to_string();
    entry.fields.push((
        "Password".to_string(),
        Value::Protected(SecureBytes::new(b"current".to_vec())),
    ));
    entry.history.push(h1);
    entry.history.push(h2);
    let mut root = empty_group();
    root.uuid = "r".to_string();
    root.children.push(Node::Entry(entry));
    let db = Database {
        meta: Meta { recyclebin_uuid: String::new(), unhandled_fields: Vec::new() },
        root,
    };
    let mut enc = salsa();
    let bytes = write_xml(&db, &mut enc).unwrap();
    let mut dec = salsa();
    let (root2, meta2) = parse_xml_block(&bytes, &mut dec).unwrap();
    assert_eq!(Database { meta: meta2, root: root2 }, db);
}

#[test]
fn empty_protected_value_does_not_consume_keystream() {
    let mut entry = empty_entry();
    entry.uuid = "e".to_string();
    entry.fields.push((
        "Empty".to_string(),
        Value::Protected(SecureBytes::new(Vec::new())),
    ));
    entry.fields.push((
        "Password".to_string(),
        Value::Protected(SecureBytes::new(b"after-empty".to_vec())),
    ));
    let mut root = empty_group();
    root.children.push(Node::Entry(entry));
    let db = Database {
        meta: Meta { recyclebin_uuid: String::new(), unhandled_fields: Vec::new() },
        root,
    };
    let mut enc = salsa();
    let bytes = write_xml(&db, &mut enc).unwrap();
    let mut dec = salsa();
    let (root2, meta2) = parse_xml_block(&bytes, &mut dec).unwrap();
    assert_eq!(Database { meta: meta2, root: root2 }, db);
}

#[test]
fn unknown_meta_field_is_preserved() {
    let input = b"<KeePassFile><Meta><FutureField>value42</FutureField></Meta>\
                  <Root><Group><UUID>u</UUID></Group></Root></KeePassFile>";
    let mut dec = plain();
    let (root, meta) = parse_xml_block(input, &mut dec).unwrap();
    assert_eq!(
        meta.unhandled_fields,
        vec![("FutureField".to_string(), "value42".to_string())]
    );
    let db = Database { meta, root };
    let mut enc = plain();
    let bytes = write_xml(&db, &mut enc).unwrap();
    let text = String::from_utf8(bytes.clone()).unwrap();
    assert!(text.contains("<FutureField>value42</FutureField>"));
    let mut dec2 = plain();
    let (_, meta2) = parse_xml_block(&bytes, &mut dec2).unwrap();
    assert_eq!(
        meta2.unhandled_fields,
        vec![("FutureField".to_string(), "value42".to_string())]
    );
}

#[test]
fn timestamps_and_autotype_roundtrip() {
    let mut entry = empty_entry();
    entry.uuid = "e".to_string();
    entry.times.push(("CreationTime".to_string(), Timestamp { seconds: 63839840645 }));
    entry.times.push(("ExpiryTime".to_string(), Timestamp { seconds: 63839840705 }));
    entry.expires = true;
    entry.autotype = Some(AutoType {
        enabled: true,
        sequence: Some("{USERNAME}{TAB}{PASSWORD}{ENTER}".to_string()),
        associations: Vec::new(),
    });
    let mut root = empty_group();
    root.times.push(("LastModificationTime".to_string(), Timestamp { seconds: 63839840645 }));
    root.children.push(Node::Entry(entry));
    let db = Database {
        meta: Meta { recyclebin_uuid: String::new(), unhandled_fields: Vec::new() },
        root,
    };
    let mut enc = plain();
    let bytes = write_xml(&db, &mut enc).unwrap();
    let mut dec = plain();
    let (root2, meta2) = parse_xml_block(&bytes, &mut dec).unwrap();
    assert_eq!(Database { meta: meta2, root: root2 }, db);
}

#[test]
fn iso_timestamps_decode_like_binary_ones() {
    // the same instant in both dialects decodes to the same database
    // seconds from 0001-01-01T00:00:00 to 2024-01-02T03:04:05
    let binary = base64::encode(63839761445i64.to_le_bytes());
    let doc_binary = format!(
        "<KeePassFile><Meta/><Root><Group><UUID>u</UUID>\
         <Times><Expires>False</Expires><CreationTime>{}</CreationTime></Times>\
         </Group></Root></KeePassFile>",
        binary
    );
    let doc_iso = "<KeePassFile><Meta/><Root><Group><UUID>u</UUID>\
         <Times><Expires>False</Expires><CreationTime>2024-01-02T03:04:05Z</CreationTime></Times>\
         </Group></Root></KeePassFile>";
    let mut d1 = plain();
    let (g1, m1) = parse_xml_block(doc_binary.as_bytes(), &mut d1).unwrap();
    let mut d2 = plain();
    let (g2, m2) = parse_xml_block(doc_iso.as_bytes(), &mut d2).unwrap();
    assert_eq!((g1, m1), (g2, m2));
}

#[test]
fn text_escaping_survives_the_writer() {
    let mut entry = empty_entry();
    entry.uuid = "e".to_string();
    entry.fields.push((
        "Notes".to_string(),
        Value::Unprotected("a < b && c > d \"quoted\"".to_string()),
    ));
    let mut root = empty_group();
    root.children.push(Node::Entry(entry));
    let db = Database {
        meta: Meta { recyclebin_uuid: String::new(), unhandled_fields: Vec::new() },
        root,
    };
    let mut enc = plain();
    let bytes = write_xml(&db, &mut enc).unwrap();
    let mut dec = plain();
    let (root2, meta2) = parse_xml_block(&bytes, &mut dec).unwrap();
    assert_eq!(Database { meta: meta2, root: root2 }, db);
}

#[test]
fn structural_error_variants() {
    let mut c = plain();
    assert_eq!(
        parse_xml_block(b"not xml at all", &mut c).unwrap_err(),
        DatabaseIntegrityError::XmlParse
    );
    assert_eq!(
        parse_xml_block(b"<KeePassFile><Bogus/></KeePassFile>", &mut c).unwrap_err(),
        DatabaseIntegrityError::UnexpectedElement
    );
    // a String block without a key
    let doc = b"<KeePassFile><Meta/><Root><Group><Entry>\
        <String><Value>v</Value></String></Entry></Group></Root></KeePassFile>";
    assert_eq!(
        parse_xml_block(doc, &mut c).unwrap_err(),
        DatabaseIntegrityError::MissingText
    );
    // a protected value that is not Base64
    let doc2 = b"<KeePassFile><Meta/><Root><Group><Entry>\
        <String><Key>p</Key><Value Protected=\"True\">!!</Value></String>\
        </Entry></Group></Root></KeePassFile>";
    assert_eq!(
        parse_xml_block(doc2, &mut c).unwrap_err(),
        DatabaseIntegrityError::Base64
    );
    // an element that is not an Entry inside History
    let doc3 = b"<KeePassFile><Meta/><Root><Group><Entry>\
        <History><Bogus/></History></Entry></Group></Root></KeePassFile>";
    assert_eq!(
        parse_xml_block(doc3, &mut c).unwrap_err(),
        DatabaseIntegrityError::UnexpectedElement
    );
}

#[test]
fn protected_values_compare_by_content() {
    let a = Value::Protected(SecureBytes::new(b"one".to_vec()));
    let b = Value::Protected(SecureBytes::new(b"two".to_vec()));
    let c = Value::Protected(SecureBytes::new(b"one".to_vec()));
    assert_ne!(a, b);
    assert_eq!(a, c);
}
