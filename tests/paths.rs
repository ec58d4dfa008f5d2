use fo_data::conventional::{conventional_hash, key_of};
use fo_data::retriever::type_of_extension;
use fo_data::{hash, make_path_conventional, recognize_type, FileType};

#[test]
fn conventional_lowers_and_turns_separators() {
    assert_eq!(
        make_path_conventional("Art\\Tiles\\FOM1000.FRM"),
        "art/tiles/fom1000.frm"
    );
    assert_eq!(make_path_conventional(""), "");
    assert_eq!(make_path_conventional("Ünï/ÄB"), "Ünï/Äb");
}

#[test]
fn conventional_is_idempotent() {
    for raw in ["Art\\Tiles\\FOM1000.FRM", "a/B\\c", "", "already/fine.txt", "\\\\X"] {
        let once = make_path_conventional(raw);
        let twice = make_path_conventional(&once);
        assert_eq!(once, twice);
    }
}

#[test]
fn hash_is_crc32() {
    assert_eq!(hash(b"123456789"), 0xCBF4_3926);
    assert_eq!(hash(b""), 0);
}

#[test]
fn conventional_hash_hashes_conventional_form() {
    assert_eq!(conventional_hash("ART\\X.FRM"), key_of("art/x.frm"));
    assert_eq!(key_of("123456789"), 0xCBF4_3926);
}

#[test]
fn recognizes_types_by_extension() {
    assert_eq!(recognize_type("art/tiles/fom1000.FRM"), FileType::Frm);
    assert_eq!(recognize_type("a/b.png"), FileType::Png);
    assert_eq!(recognize_type("a/b.Gif"), FileType::Gif);
    assert_eq!(recognize_type("a/b.fofrm"), FileType::FoFrm);
    assert_eq!(
        recognize_type("a/b.TXT"),
        FileType::Unsupported("txt".to_string())
    );
    assert_eq!(recognize_type("a/noext"), FileType::Unknown);
    assert_eq!(recognize_type(".hidden"), FileType::Unknown);
}

#[test]
fn type_of_extension_ignores_case() {
    assert_eq!(type_of_extension("PnG"), FileType::Png);
    assert_eq!(type_of_extension("FOFRM"), FileType::FoFrm);
    assert_eq!(type_of_extension(""), FileType::Unsupported(String::new()));
}
