use smol_epub::cache::{
    chapter_file_name, chapter_file_str, dir_name_for_hash, dir_name_str, fnv1a,
};

#[test]
fn fnv1a_known_values() {
    assert_eq!(fnv1a(b""), 0x811c_9dc5);
    assert_eq!(fnv1a(b"a"), 0xe40c_292c);
    assert_eq!(fnv1a(b"b"), 0xe70c_2de5);
    assert_eq!(fnv1a(b"foobar"), 0xbf9c_f968);
}

#[test]
fn fnv1a_continues_from_equal_hashes() {
    let all = fnv1a(b"book.epub");
    let mut h = fnv1a(b"book");
    for b in b".epub" {
        h = (h ^ *b as u32).wrapping_mul(0x0100_0193);
    }
    assert_eq!(h, all);
}

#[test]
fn dir_name_is_underscore_and_hex() {
    assert_eq!(&dir_name_for_hash(0), b"_0000000");
    assert_eq!(&dir_name_for_hash(0x0ABC_DEF1), b"_ABCDEF1");
    assert_eq!(&dir_name_for_hash(0x0000_0009), b"_0000009");
    assert_eq!(&dir_name_for_hash(0x1234_567A), b"_234567A");
}

#[test]
fn dir_name_drops_the_top_four_bits() {
    assert_eq!(dir_name_for_hash(0xF234_5678), dir_name_for_hash(0x0234_5678));
    assert_ne!(dir_name_for_hash(0x0234_5678), dir_name_for_hash(0x0234_5679));
}

#[test]
fn dir_name_reads_as_text() {
    assert_eq!(dir_name_str(&dir_name_for_hash(0xFFFF_FFFF)), "_FFFFFFF");
    assert_eq!(dir_name_str(b"any name"), "any name");
    assert_eq!(dir_name_str(&[0xC3, 0xA9, 0x41, 0x42, 0x43, 0x44, 0x45, 0x46]), "\u{e9}ABCDEF");
}

#[test]
fn dir_name_falls_back_on_broken_text() {
    assert_eq!(dir_name_str(&[0xFF; 8]), "_0000000");
    assert_eq!(dir_name_str(&[0x41, 0x42, 0x43, 0x44, 0x45, 0x46, 0x47, 0xC3]), "_0000000");
}

#[test]
fn chapter_names() {
    assert_eq!(&chapter_file_name(0), b"CH000.TXT");
    assert_eq!(&chapter_file_name(7), b"CH007.TXT");
    assert_eq!(&chapter_file_name(42), b"CH042.TXT");
    assert_eq!(&chapter_file_name(255), b"CH255.TXT");
    assert_eq!(&chapter_file_name(999), b"CH999.TXT");
}

#[test]
fn chapter_names_are_distinct() {
    let mut seen: Vec<[u8; 9]> = Vec::new();
    for i in 0..1000u16 {
        let name = chapter_file_name(i);
        assert_eq!(chapter_file_str(&name), format!("CH{:03}.TXT", i));
        assert!(!seen.contains(&name));
        seen.push(name);
    }
}

#[test]
fn chapter_name_falls_back_on_broken_text() {
    assert_eq!(chapter_file_str(&[0x80; 9]), "CH000.TXT");
    assert_eq!(chapter_file_str(b"CH123.TXT"), "CH123.TXT");
}
