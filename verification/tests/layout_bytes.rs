use std::collections::BTreeMap;

use kiln::modpack_file::{KilnFile, KilnMod};
use kiln::wire::{pack, unpack};

fn registry_mod(id: &str, version: &str) -> KilnMod {
    KilnMod::ModDbMod { id: id.to_string(), version: version.to_string() }
}

fn other_mod(name: &str, source: &str) -> KilnMod {
    KilnMod::OtherMod { name: name.to_string(), source: source.to_string() }
}

fn sample() -> KilnFile {
    KilnFile {
        name: "Test".to_string(),
        mods: vec![registry_mod("abc", "1.2"), other_mod("extra", "https://example.com/e.zip")],
    }
}

fn sample_bytes() -> Vec<u8> {
    let mut bytes: Vec<u8> = vec![
        0x82, // a map of two entries
        0xa4, b'n', b'a', b'm', b'e', 0xa4, b'T', b'e', b's', b't',
        0xa4, b'm', b'o', b'd', b's', 0x92, // a list of two mods
        0x82, 0xa2, b'i', b'd', 0xa3, b'a', b'b', b'c',
        0xa7, b'v', b'e', b'r', b's', b'i', b'o', b'n', 0xa3, b'1', b'.', b'2',
        0x82, 0xa4, b'n', b'a', b'm', b'e', 0xa5, b'e', b'x', b't', b'r', b'a',
        0xa6, b's', b'o', b'u', b'r', b'c', b'e', 0xb9,
    ];
    bytes.extend_from_slice(b"https://example.com/e.zip");
    bytes
}

#[test]
fn pack_writes_the_documented_bytes() {
    assert_eq!(pack(&sample()), Some(sample_bytes()));
}

#[test]
fn pack_of_an_empty_modpack() {
    let file = KilnFile { name: String::new(), mods: Vec::new() };
    let expected: Vec<u8> = vec![0x82, 0xa4, b'n', b'a', b'm', b'e', 0xa0, 0xa4, b'm', b'o', b'd', b's', 0x90];
    assert_eq!(pack(&file), Some(expected.clone()));
    assert_eq!(unpack(&expected), Some(file));
}

#[test]
fn unpack_reads_the_documented_bytes() {
    assert_eq!(unpack(&sample_bytes()), Some(sample()));
}

#[test]
fn unpack_finds_what_pack_wrote() {
    let mut file = sample();
    file.name = "Größe ∑ 🎲".to_string();
    file.mods.push(registry_mod("", ""));
    file.mods.push(other_mod("a name that is longer than thirty-one bytes", &"u".repeat(300)));
    file.mods.push(registry_mod(&"i".repeat(70_000), "v"));
    for n in 0..20 {
        file.mods.push(registry_mod(&format!("mod{}", n), &format!("{}.0", n)));
    }
    let bytes = pack(&file).unwrap();
    assert_eq!(unpack(&bytes), Some(file));
}

#[test]
fn the_four_forms_of_a_length() {
    let lengths: Vec<(usize, Vec<u8>)> = vec![
        (0, vec![0xa0]),
        (31, vec![0xbf]),
        (32, vec![0xd9, 32]),
        (255, vec![0xd9, 255]),
        (256, vec![0xda, 1, 0]),
        (65535, vec![0xda, 255, 255]),
        (65536, vec![0xdb, 0, 1, 0, 0]),
        (70000, vec![0xdb, 0, 1, 0x11, 0x70]),
    ];
    for (length, header) in lengths {
        let file = KilnFile { name: "x".repeat(length), mods: Vec::new() };
        let bytes = pack(&file).unwrap();
        let mut expected: Vec<u8> = vec![0x82, 0xa4, b'n', b'a', b'm', b'e'];
        expected.extend_from_slice(&header);
        expected.extend_from_slice("x".repeat(length).as_bytes());
        expected.extend_from_slice(&[0xa4, b'm', b'o', b'd', b's', 0x90]);
        assert_eq!(bytes, expected);
        assert_eq!(unpack(&bytes), Some(file));
    }
}

#[test]
fn the_forms_of_a_list_length() {
    let counts: Vec<(usize, Vec<u8>)> = vec![
        (0, vec![0x90]),
        (15, vec![0x9f]),
        (16, vec![0xdc, 0, 16]),
        (300, vec![0xdc, 1, 44]),
    ];
    for (count, header) in counts {
        let mut file = KilnFile { name: "p".to_string(), mods: Vec::new() };
        for n in 0..count {
            file.mods.push(registry_mod(&n.to_string(), "1"));
        }
        let bytes = pack(&file).unwrap();
        let mut expected: Vec<u8> = vec![0x82, 0xa4, b'n', b'a', b'm', b'e', 0xa1, b'p', 0xa4, b'm', b'o', b'd', b's'];
        expected.extend_from_slice(&header);
        assert_eq!(&bytes[..expected.len()], &expected[..]);
        assert_eq!(unpack(&bytes), Some(file));
    }
}

#[test]
fn a_list_of_more_than_65535_mods() {
    let mut file = KilnFile { name: "big".to_string(), mods: Vec::new() };
    for n in 0..65_536usize {
        file.mods.push(registry_mod(&n.to_string(), ""));
    }
    let bytes = pack(&file).unwrap();
    assert_eq!(&bytes[..19], &[
        0x82, 0xa4, b'n', b'a', b'm', b'e', 0xa3, b'b', b'i', b'g',
        0xa4, b'm', b'o', b'd', b's', 0xdd, 0, 1, 0,
    ]);
    assert_eq!(bytes[19], 0);
    assert_eq!(unpack(&bytes), Some(file));
}

#[test]
fn unpack_refuses_bytes_that_are_no_modpack() {
    let good = sample_bytes();
    assert_eq!(unpack(&[]), None);
    assert_eq!(unpack(&[0x00]), None);
    assert_eq!(unpack(&[0x82]), None);
    assert_eq!(unpack(b"hello"), None);
    for end in 0..good.len() {
        assert_eq!(unpack(&good[..end]), None, "cut at {}", end);
    }
    let mut longer = good.clone();
    longer.push(0);
    assert_eq!(unpack(&longer), None);
}

#[test]
fn unpack_refuses_a_mod_of_neither_shape() {
    let expect_none = |entry: &[u8]| {
        let mut bytes: Vec<u8> = vec![0x82, 0xa4, b'n', b'a', b'm', b'e', 0xa1, b'p', 0xa4, b'm', b'o', b'd', b's', 0x91];
        bytes.extend_from_slice(entry);
        assert_eq!(unpack(&bytes), None);
    };
    // `id` with `source`
    expect_none(&[0x82, 0xa2, b'i', b'd', 0xa1, b'a', 0xa6, b's', b'o', b'u', b'r', b'c', b'e', 0xa1, b'b']);
    // `name` with `version`
    expect_none(&[0x82, 0xa4, b'n', b'a', b'm', b'e', 0xa1, b'a', 0xa7, b'v', b'e', b'r', b's', b'i', b'o', b'n', 0xa1, b'b']);
    // the keys in the other order
    expect_none(&[0x82, 0xa7, b'v', b'e', b'r', b's', b'i', b'o', b'n', 0xa1, b'b', 0xa2, b'i', b'd', 0xa1, b'a']);
    // a key that is not known
    expect_none(&[0x82, 0xa2, b'i', b'd', 0xa1, b'a', 0xa4, b'k', b'i', b'n', b'd', 0xa1, b'b']);
    // a map of one entry
    expect_none(&[0x81, 0xa2, b'i', b'd', 0xa1, b'a']);
    // a list in place of a map
    expect_none(&[0x92, 0xa1, b'a', 0xa1, b'b']);
    // a number in place of a text
    expect_none(&[0x82, 0xa2, b'i', b'd', 0x01, 0xa7, b'v', b'e', b'r', b's', b'i', b'o', b'n', 0xa1, b'b']);
}

#[test]
fn unpack_refuses_a_length_written_the_long_way() {
    // the name `p` with its length in two bytes instead of in the tag
    let bytes: Vec<u8> = vec![0x82, 0xa4, b'n', b'a', b'm', b'e', 0xd9, 1, b'p', 0xa4, b'm', b'o', b'd', b's', 0x90];
    assert_eq!(unpack(&bytes), None);
    // an empty list with its length in two bytes
    let bytes: Vec<u8> = vec![0x82, 0xa4, b'n', b'a', b'm', b'e', 0xa1, b'p', 0xa4, b'm', b'o', b'd', b's', 0xdc, 0, 0];
    assert_eq!(unpack(&bytes), None);
}

#[test]
fn unpack_refuses_text_that_is_not_utf8() {
    let bytes: Vec<u8> = vec![0x82, 0xa4, b'n', b'a', b'm', b'e', 0xa2, 0xc3, 0x28, 0xa4, b'm', b'o', b'd', b's', 0x90];
    assert_eq!(unpack(&bytes), None);
    let bytes: Vec<u8> = vec![0x82, 0xa4, b'n', b'a', b'm', b'e', 0xa1, 0xff, 0xa4, b'm', b'o', b'd', b's', 0x90];
    assert_eq!(unpack(&bytes), None);
    // the same place with well-formed text is read
    let bytes: Vec<u8> = vec![0x82, 0xa4, b'n', b'a', b'm', b'e', 0xa2, 0xc3, 0xa9, 0xa4, b'm', b'o', b'd', b's', 0x90];
    assert_eq!(unpack(&bytes), Some(KilnFile { name: "é".to_string(), mods: Vec::new() }));
}

#[test]
fn unpack_refuses_the_wrong_keys_of_the_modpack() {
    let bytes: Vec<u8> = vec![0x82, 0xa4, b'n', b'a', b'm', b'f', 0xa1, b'p', 0xa4, b'm', b'o', b'd', b's', 0x90];
    assert_eq!(unpack(&bytes), None);
    let bytes: Vec<u8> = vec![0x82, 0xa4, b'n', b'a', b'm', b'e', 0xa1, b'p', 0xa4, b'm', b'o', b'd', b'z', 0x90];
    assert_eq!(unpack(&bytes), None);
    let bytes: Vec<u8> = vec![0x82, 0xa4, b'm', b'o', b'd', b's', 0x90, 0xa4, b'n', b'a', b'm', b'e', 0xa1, b'p'];
    assert_eq!(unpack(&bytes), None);
}

fn text(value: &str) -> serde_json::Value {
    serde_json::Value::String(value.to_string())
}

fn object(entries: Vec<(&str, serde_json::Value)>) -> serde_json::Value {
    let mut map = serde_json::Map::new();
    for (key, value) in entries {
        map.insert(key.to_string(), value);
    }
    serde_json::Value::Object(map)
}

#[test]
fn a_messagepack_reader_finds_the_modpack_in_the_bytes() {
    let bytes = pack(&sample()).unwrap();
    let read: serde_json::Value = rmp_serde::from_slice(&bytes).unwrap();
    let expected = object(vec![
        ("name", text("Test")),
        (
            "mods",
            serde_json::Value::Array(vec![
                object(vec![("id", text("abc")), ("version", text("1.2"))]),
                object(vec![("name", text("extra")), ("source", text("https://example.com/e.zip"))]),
            ]),
        ),
    ]);
    assert_eq!(read, expected);
}

#[test]
fn a_messagepack_reader_finds_long_texts_and_lists() {
    let mut file = KilnFile { name: "n".repeat(40), mods: Vec::new() };
    file.mods.push(other_mod(&"é".repeat(200), &"s".repeat(66_000)));
    for n in 0..20 {
        file.mods.push(registry_mod(&n.to_string(), "1"));
    }
    let bytes = pack(&file).unwrap();
    let read: serde_json::Value = rmp_serde::from_slice(&bytes).unwrap();
    assert_eq!(read["name"], text(&"n".repeat(40)));
    assert_eq!(read["mods"].as_array().unwrap().len(), 21);
    assert_eq!(read["mods"][0]["name"], text(&"é".repeat(200)));
    assert_eq!(read["mods"][0]["source"], text(&"s".repeat(66_000)));
    assert_eq!(read["mods"][20], object(vec![("id", text("19")), ("version", text("1"))]));
}

#[test]
fn unpack_reads_what_a_messagepack_writer_wrote() {
    let mut first: BTreeMap<&str, &str> = BTreeMap::new();
    first.insert("id", "abc");
    first.insert("version", "1.2");
    let mut second: BTreeMap<&str, &str> = BTreeMap::new();
    second.insert("name", "extra");
    second.insert("source", "https://example.com/e.zip");
    let mut bytes: Vec<u8> = vec![0x82];
    bytes.extend(rmp_serde::to_vec("name").unwrap());
    bytes.extend(rmp_serde::to_vec("Test").unwrap());
    bytes.extend(rmp_serde::to_vec("mods").unwrap());
    bytes.extend(rmp_serde::to_vec(&vec![first, second]).unwrap());
    assert_eq!(bytes, sample_bytes());
    assert_eq!(unpack(&bytes), Some(sample()));
}

#[test]
fn unpack_reads_long_texts_that_a_messagepack_writer_wrote() {
    for length in [0usize, 1, 31, 32, 255, 256, 65_535, 65_536] {
        let name = "x".repeat(length);
        let mut bytes: Vec<u8> = vec![0x82];
        bytes.extend(rmp_serde::to_vec("name").unwrap());
        bytes.extend(rmp_serde::to_vec(&name).unwrap());
        bytes.extend(rmp_serde::to_vec("mods").unwrap());
        bytes.extend(rmp_serde::to_vec(&Vec::<BTreeMap<&str, &str>>::new()).unwrap());
        assert_eq!(unpack(&bytes), Some(KilnFile { name, mods: Vec::new() }));
    }
}

fn as_value(file: &KilnFile) -> serde_json::Value {
    let mods = file
        .mods
        .iter()
        .map(|entry| match entry {
            KilnMod::ModDbMod { id, version } => object(vec![("id", text(id)), ("version", text(version))]),
            KilnMod::OtherMod { name, source } => object(vec![("name", text(name)), ("source", text(source))]),
        })
        .collect();
    object(vec![("name", text(&file.name)), ("mods", serde_json::Value::Array(mods))])
}

#[test]
fn whatever_unpack_reads_a_messagepack_reader_reads_the_same() {
    let good = sample_bytes();
    let mut read = 0;
    for at in 0..good.len() {
        for byte in 0..=255u8 {
            let mut bytes = good.clone();
            bytes[at] = byte;
            if let Some(file) = unpack(&bytes) {
                let other: serde_json::Value = rmp_serde::from_slice(&bytes).unwrap();
                assert_eq!(other, as_value(&file), "byte {} set to {}", at, byte);
                assert_eq!(pack(&file), Some(bytes));
                read += 1;
            }
        }
    }
    // Each place read as written, and the letters of the texts changed.
    assert!(read >= good.len());
}
