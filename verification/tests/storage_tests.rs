use lazers::storage::fat32::{display_short_name, is_dot_entry, make_short_name};
use lazers::storage::gpt::GptPartition;
use lazers::storage::StorageError;

fn text(name: &lazers::storage::fat32::DisplayShortName) -> Vec<u8> {
    name.bytes[..name.len].to_vec()
}

#[test]
fn short_name_encoding_uppercases_and_pads() {
    assert!(matches!(
        make_short_name("echo"),
        Ok(value) if value == *b"ECHO       "
    ));
    assert!(matches!(
        make_short_name("cat.txt"),
        Ok(value) if value == *b"CAT     TXT"
    ));
}

#[test]
fn short_name_rejects_unsupported_shapes() {
    assert!(matches!(make_short_name(""), Err(StorageError::InvalidShortName)));
    assert!(matches!(make_short_name("toolongname"), Err(StorageError::InvalidShortName)));
    assert!(matches!(make_short_name("a.b.c"), Err(StorageError::InvalidShortName)));
    assert!(matches!(make_short_name("bad*name"), Err(StorageError::InvalidShortName)));
}

#[test]
fn display_name_formats_short_entries() {
    let display_name = display_short_name(b"ECHO       ");
    assert_eq!(text(&display_name), b"ECHO".to_vec());

    let display_name = display_short_name(b"CAT     TXT");
    assert_eq!(text(&display_name), b"CAT.TXT".to_vec());
}

#[test]
fn dot_entry_detection_matches_dot_and_dotdot() {
    assert!(is_dot_entry(&display_short_name(b".          ")));
    assert!(is_dot_entry(&display_short_name(b"..         ")));
    assert!(!is_dot_entry(&display_short_name(b"ECHO       ")));
}

#[test]
fn name_matching_requires_exact_utf16_name_and_zero_tail() {
    let mut name = [0u16; 36];
    name[0] = b'L' as u16;
    name[1] = b'A' as u16;
    name[2] = b'Z' as u16;
    let partition = GptPartition::new([0; 16], 1, 2, name);

    assert!(partition.name_matches("LAZ"));
    assert!(!partition.name_matches("LA"));
    assert!(!partition.name_matches("LAZZ"));
}

#[test]
fn short_name_keeps_allowed_punctuation_and_rejects_long_extension() {
    assert!(matches!(make_short_name("a-b_c.d~"), Ok(value) if value == *b"A-B_C   D~ "));
    assert!(matches!(make_short_name("file.text"), Err(StorageError::InvalidShortName)));
    assert!(matches!(make_short_name(".hidden"), Err(StorageError::InvalidShortName)));
}
