use std::io::Write;

use zilch::apk::{DecodeError, label};
use zilch::manifest::find_label_attr;
use zilch::restable::{
    ResConfig, ResEntry, ResPackage, ResTable, ResType, ResValue, resolve_in_table,
    resolve_reference,
};

fn single_entry_table(value: ResValue, pool: Vec<&str>) -> ResTable {
    ResTable {
        packages: vec![ResPackage {
            types: vec![ResType {
                configs: vec![ResConfig { entries: vec![ResEntry { key: 1, value }] }],
            }],
        }],
        pool: pool.into_iter().map(|s| s.to_string()).collect(),
    }
}

#[test]
fn reference_round_trip_resolves_the_pool_entry() {
    // one global-string-pool entry, one type (type id 1), whose sole
    // configuration block maps entry index 1 to a plain value
    // pointing at that pool entry
    let t = single_entry_table(ResValue::Plain(0), vec!["Example App"]);
    assert_eq!(resolve_in_table(&t, 1, 1).as_deref(), Some("Example App"));
    // a packed reference encoding type id 1 / entry index 1
    let packed = (1u32 << 16) | 1;
    assert_eq!(resolve_reference(&t, packed).as_deref(), Some("Example App"));
}

#[test]
fn resolution_misses_yield_nothing() {
    let t = single_entry_table(ResValue::Plain(0), vec!["Example App"]);
    assert_eq!(resolve_in_table(&t, 1, 2), None); // no such entry index
    assert_eq!(resolve_in_table(&t, 2, 1), None); // no such type
    assert_eq!(resolve_reference(&t, 1), None); // packed type id zero
    let out_of_pool = single_entry_table(ResValue::Plain(7), vec!["Example App"]);
    assert_eq!(resolve_in_table(&out_of_pool, 1, 1), None);
}

#[test]
fn a_bag_resolves_through_its_first_value() {
    let t = single_entry_table(ResValue::Bag(vec![0, 1]), vec!["First", "Second"]);
    assert_eq!(resolve_in_table(&t, 1, 1).as_deref(), Some("First"));
    let empty_bag = single_entry_table(ResValue::Bag(vec![]), vec!["First"]);
    assert_eq!(resolve_in_table(&empty_bag, 1, 1), None);
}

#[test]
fn the_first_matching_configuration_block_wins() {
    let t = ResTable {
        packages: vec![ResPackage {
            types: vec![ResType {
                configs: vec![
                    ResConfig { entries: vec![ResEntry { key: 9, value: ResValue::Plain(1) }] },
                    ResConfig { entries: vec![ResEntry { key: 1, value: ResValue::Plain(0) }] },
                    ResConfig { entries: vec![ResEntry { key: 1, value: ResValue::Plain(1) }] },
                ],
            }],
        }],
        pool: vec!["hit".to_string(), "other".to_string()],
    };
    assert_eq!(resolve_in_table(&t, 1, 1).as_deref(), Some("hit"));
}

#[test]
fn label_attribute_comes_from_the_first_child_carrying_it() {
    let children = vec![
        vec![("something".to_string(), "else".to_string())],
        vec![("android:label".to_string(), "Plain Label".to_string())],
        vec![("android:label".to_string(), "Shadowed".to_string())],
    ];
    assert_eq!(find_label_attr(&children, "android:label").as_deref(), Some("Plain Label"));
    assert_eq!(find_label_attr(&children, "android:icon"), None);
    assert_eq!(find_label_attr(&Vec::new(), "android:label"), None);
}

fn zip_bytes(entries: &[(&str, &[u8])]) -> Vec<u8> {
    let mut w = zip::ZipWriter::new(std::io::Cursor::new(Vec::new()));
    let opts = zip::write::SimpleFileOptions::default()
        .compression_method(zip::CompressionMethod::Deflated);
    for (name, data) in entries {
        w.start_file(*name, opts).unwrap();
        w.write_all(data).unwrap();
    }
    w.finish().unwrap().into_inner()
}

#[test]
fn garbage_bytes_are_a_decode_error() {
    assert_eq!(label(b"this is not an archive"), Err(DecodeError::BadArchive));
}

#[test]
fn a_missing_manifest_entry_is_absence_not_an_error() {
    let bytes = zip_bytes(&[("something.txt", b"hello")]);
    assert_eq!(label(&bytes), Ok(None));
}

#[test]
fn an_undecodable_manifest_or_table_is_absence() {
    let bytes = zip_bytes(&[
        ("AndroidManifest.xml", b"not really compiled xml"),
        ("resources.arsc", b"not really a table"),
    ]);
    assert_eq!(label(&bytes), Ok(None));
}

#[test]
fn oversized_archives_get_the_fallback_label_unread() {
    // the advertised decompressed size exceeds the 400 MiB limit, so
    // the resolver answers before either entry is decompressed —
    // there is not even a manifest here to read
    let mut w = zip::ZipWriter::new(std::io::Cursor::new(Vec::new()));
    let opts = zip::write::SimpleFileOptions::default()
        .compression_method(zip::CompressionMethod::Deflated);
    w.start_file("padding.bin", opts).unwrap();
    let chunk = vec![0u8; 1 << 20];
    for _ in 0..401 {
        w.write_all(&chunk).unwrap();
    }
    let bytes = w.finish().unwrap().into_inner();
    assert_eq!(label(&bytes), Ok(Some("No name".to_string())));
}

#[test]
fn equal_bytes_resolve_to_equal_labels() {
    let with_entries = zip_bytes(&[
        ("AndroidManifest.xml", b"junk"),
        ("resources.arsc", b"junk"),
    ]);
    assert_eq!(label(&with_entries), label(&with_entries));
    let copy = with_entries.clone();
    assert_eq!(label(&with_entries), label(&copy));
    let garbage = b"garbage".to_vec();
    assert_eq!(label(&garbage), label(&garbage));
}

// ---- crafted binary fixtures ----

fn push_u16(v: &mut Vec<u8>, x: u16) {
    v.extend_from_slice(&x.to_le_bytes());
}

fn push_u32(v: &mut Vec<u8>, x: u32) {
    v.extend_from_slice(&x.to_le_bytes());
}

/// A UTF-8 string pool chunk holding the given strings.
fn pool_chunk(strings: &[&str]) -> Vec<u8> {
    let mut items: Vec<u8> = Vec::new();
    let mut offsets: Vec<u32> = Vec::new();
    for s in strings {
        offsets.push(items.len() as u32);
        let bytes = s.as_bytes();
        items.push(bytes.len() as u8); // character count
        items.push(bytes.len() as u8); // byte count
        items.extend_from_slice(bytes);
        items.push(0);
    }
    let header_span = 28 + 4 * strings.len();
    let size = header_span + items.len();
    let mut out: Vec<u8> = Vec::new();
    push_u16(&mut out, 0x0001);
    push_u16(&mut out, 28);
    push_u32(&mut out, size as u32);
    push_u32(&mut out, strings.len() as u32);
    push_u32(&mut out, 0); // style count
    push_u32(&mut out, 0x100); // utf-8 flag
    push_u32(&mut out, header_span as u32);
    push_u32(&mut out, 0); // style offset
    for o in offsets {
        push_u32(&mut out, o);
    }
    out.extend_from_slice(&items);
    out
}

/// A minimal resource table: one pool entry, one type whose sole
/// block maps entry index 1 to a plain value naming pool entry 0.
fn minimal_arsc() -> Vec<u8> {
    let global = pool_chunk(&["Example App"]);
    let type_names = pool_chunk(&["string"]);
    let key_names = pool_chunk(&[]);

    // configuration block chunk for type id 1, entries 0 and 1; only
    // index 1 is present
    let mut config: Vec<u8> = Vec::new();
    push_u16(&mut config, 0x0201);
    push_u16(&mut config, 20);
    let entry_count = 2u32;
    // chunk size: 20 header+body, 4 config-id, offsets, one 16-byte entry
    let csize = 20 + 4 + 4 * entry_count + 16;
    push_u32(&mut config, csize);
    config.push(1); // type id
    config.push(0);
    push_u16(&mut config, 0);
    push_u32(&mut config, entry_count);
    push_u32(&mut config, 0); // entry start
    push_u32(&mut config, 4); // config-id block: its own 4 size bytes
    push_u32(&mut config, 0xFFFF_FFFF); // no entry for index 0
    push_u32(&mut config, 0); // entry at index 1
    push_u16(&mut config, 8); // entry size
    push_u16(&mut config, 0); // flags: plain
    push_u32(&mut config, 0); // key name index
    push_u16(&mut config, 8); // value size
    config.push(0);
    config.push(0x03); // string type
    push_u32(&mut config, 0); // pool index 0

    let mut package: Vec<u8> = Vec::new();
    push_u16(&mut package, 0x0200);
    push_u16(&mut package, 288);
    let psize = 288 + type_names.len() + key_names.len() + config.len();
    push_u32(&mut package, psize as u32);
    push_u32(&mut package, 0x7f); // package id
    package.extend_from_slice(&[0u8; 256]); // package name
    push_u32(&mut package, 0);
    push_u32(&mut package, 0);
    push_u32(&mut package, 0);
    push_u32(&mut package, 0);
    push_u32(&mut package, 0);
    package.extend_from_slice(&type_names);
    package.extend_from_slice(&key_names);
    package.extend_from_slice(&config);

    let mut table: Vec<u8> = Vec::new();
    push_u16(&mut table, 0x0002);
    push_u16(&mut table, 12);
    let tsize = 12 + global.len() + package.len();
    push_u32(&mut table, tsize as u32);
    push_u32(&mut table, 1); // package count
    table.extend_from_slice(&global);
    table.extend_from_slice(&package);
    table
}

/// A minimal compiled manifest: a root element with one child that
/// carries the label attribute as the given typed value.
fn minimal_manifest(attr_name: &str, dtype: u8, data: u32) -> Vec<u8> {
    let pool = pool_chunk(&["manifest", "application", attr_name]);

    fn element(name_index: u32, attrs: &[(u32, u8, u32)]) -> Vec<u8> {
        let mut e: Vec<u8> = Vec::new();
        push_u16(&mut e, 0x0102);
        push_u16(&mut e, 16);
        push_u32(&mut e, (36 + 20 * attrs.len()) as u32);
        push_u32(&mut e, 0); // line
        push_u32(&mut e, 0xFFFF_FFFF); // comment
        push_u32(&mut e, 0xFFFF_FFFF); // element namespace
        push_u32(&mut e, name_index);
        push_u16(&mut e, 20); // attribute start
        push_u16(&mut e, 20); // attribute size
        push_u16(&mut e, attrs.len() as u16);
        push_u16(&mut e, 0);
        push_u16(&mut e, 0);
        push_u16(&mut e, 0);
        for (name, ty, value) in attrs {
            push_u32(&mut e, 0xFFFF_FFFF); // attribute namespace: none
            push_u32(&mut e, *name);
            push_u32(&mut e, 0xFFFF_FFFF); // raw value
            push_u16(&mut e, 8);
            e.push(0);
            e.push(*ty);
            push_u32(&mut e, *value);
        }
        e
    }

    fn end_element(name_index: u32) -> Vec<u8> {
        let mut e: Vec<u8> = Vec::new();
        push_u16(&mut e, 0x0103);
        push_u16(&mut e, 16);
        push_u32(&mut e, 24);
        push_u32(&mut e, 0);
        push_u32(&mut e, 0xFFFF_FFFF);
        push_u32(&mut e, 0xFFFF_FFFF);
        push_u32(&mut e, name_index);
        e
    }

    let mut doc: Vec<u8> = Vec::new();
    push_u16(&mut doc, 0x0003);
    push_u16(&mut doc, 8);
    let root = element(0, &[]);
    let child = element(1, &[(2, dtype, data)]);
    let size = 8 + pool.len() + root.len() + child.len() + 2 * end_element(0).len();
    push_u32(&mut doc, size as u32);
    doc.extend_from_slice(&pool);
    doc.extend_from_slice(&root);
    doc.extend_from_slice(&child);
    doc.extend_from_slice(&end_element(1));
    doc.extend_from_slice(&end_element(0));
    doc
}

#[test]
fn a_crafted_table_parses_and_resolves() {
    let table = zilch::restable::parse_resource_table(&minimal_arsc()).expect("table parses");
    assert_eq!(table.pool.len(), 1);
    assert_eq!(table.pool[0], "Example App");
    assert_eq!(resolve_in_table(&table, 1, 1).as_deref(), Some("Example App"));
    assert_eq!(resolve_reference(&table, (1 << 16) | 1).as_deref(), Some("Example App"));
}

#[test]
fn a_crafted_manifest_parses_to_its_children() {
    // a reference to type id 1, entry index 1
    let doc = minimal_manifest("android:label", 0x01, (1 << 16) | 1);
    let children = zilch::manifest::parse_manifest_children(&doc).expect("manifest parses");
    assert_eq!(children.len(), 1);
    assert_eq!(children[0].len(), 1);
    assert_eq!(children[0][0].0, "android:label");
    assert_eq!(children[0][0].1, "ResourceValueType::Reference/65537");
}

#[test]
fn a_whole_installer_resolves_through_the_reference() {
    let apk = zip_bytes(&[
        ("AndroidManifest.xml", &minimal_manifest("android:label", 0x01, (1 << 16) | 1)[..]),
        ("resources.arsc", &minimal_arsc()[..]),
    ]);
    assert_eq!(label(&apk), Ok(Some("Example App".to_string())));
    // resolution is pure: the same bytes, decoded again, give the same label
    assert_eq!(label(&apk), Ok(Some("Example App".to_string())));
}

#[test]
fn a_literal_label_attribute_is_used_as_is() {
    // the attribute's value is pool string "manifest" (index 0)
    let apk = zip_bytes(&[
        ("AndroidManifest.xml", &minimal_manifest("android:label", 0x03, 0)[..]),
        ("resources.arsc", &minimal_arsc()[..]),
    ]);
    assert_eq!(label(&apk), Ok(Some("manifest".to_string())));
}

#[test]
fn a_dangling_reference_leaves_the_label_unresolved() {
    // type id 2 does not exist in the table
    let apk = zip_bytes(&[
        ("AndroidManifest.xml", &minimal_manifest("android:label", 0x01, (2 << 16) | 1)[..]),
        ("resources.arsc", &minimal_arsc()[..]),
    ]);
    assert_eq!(label(&apk), Ok(None));
}
