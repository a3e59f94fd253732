use pdf_studier::text::{
    chars_of, fingerprint_from_digest, fingerprint_from_id_text, fingerprint_of_leading_bytes,
    hex_lower, join_with_tab, same_text, split_on_tab, starts_with, string_of, string_of_range,
    user_facing_path,
};

fn strings(v: &[&str]) -> Vec<String> {
    v.iter().map(|s| s.to_string()).collect()
}

#[test]
fn hex_lower_writes_two_digits_per_byte() {
    assert_eq!(hex_lower(&[0x00, 0xff, 0x1a, 0x09]), "00ff1a09");
    assert_eq!(hex_lower(&[]), "");
}

#[test]
fn fingerprint_from_digest_is_lower_hex() {
    let digest: [u8; 16] = [
        0x0f, 0x34, 0x3b, 0x09, 0x31, 0x12, 0x6a, 0x20, 0xf1, 0x33, 0xd6, 0x7c, 0x2b, 0x01, 0x8a,
        0x3b,
    ];
    assert_eq!(fingerprint_from_digest(&digest), "0f343b0931126a20f133d67c2b018a3b");
}

#[test]
fn fingerprint_of_leading_bytes_of_zeroed_buffer() {
    // The reader hashes the first 1024 bytes of a file that carries no ID.
    let buf = [0u8; 1024];
    assert_eq!(fingerprint_of_leading_bytes(&buf), "0f343b0931126a20f133d67c2b018a3b");
}

#[test]
fn fingerprint_of_leading_bytes_known_digests() {
    assert_eq!(fingerprint_of_leading_bytes(b""), "d41d8cd98f00b204e9800998ecf8427e");
    assert_eq!(fingerprint_of_leading_bytes(b"abc"), "900150983cd24fb0d6963f7d28e17f72");
}

#[test]
fn fingerprint_from_id_text_strips_delimiters() {
    assert_eq!(fingerprint_from_id_text("<a1b2c3>"), "a1b2c3");
    assert_eq!(fingerprint_from_id_text("()"), "");
    assert_eq!(fingerprint_from_id_text("<é>"), "é");
}

#[test]
fn user_facing_path_abbreviates_home() {
    assert_eq!(user_facing_path("/home/me/books/a.pdf", Some("/home/me")), "~/books/a.pdf");
    assert_eq!(user_facing_path("/srv/books/a.pdf", Some("/home/me")), "/srv/books/a.pdf");
    assert_eq!(user_facing_path("/home/me/a.pdf", None), "/home/me/a.pdf");
    assert_eq!(user_facing_path("/home", Some("/home/me")), "/home");
    assert_eq!(user_facing_path("/home/me", Some("/home/me")), "~");
}

#[test]
fn split_on_tab_keeps_empty_pieces() {
    assert_eq!(split_on_tab("a\tb\t"), strings(&["a", "b", ""]));
    assert_eq!(split_on_tab(""), strings(&[""]));
    assert_eq!(split_on_tab("\t"), strings(&["", ""]));
    assert_eq!(split_on_tab("open\t/tmp/x.pdf"), strings(&["open", "/tmp/x.pdf"]));
}

#[test]
fn join_with_tab_puts_tabs_between() {
    assert_eq!(join_with_tab(&strings(&["a", "b", "c"])), "a\tb\tc");
    assert_eq!(join_with_tab(&strings(&["only"])), "only");
    assert_eq!(join_with_tab(&Vec::new()), "");
}

#[test]
fn split_undoes_join() {
    let parts = strings(&["pdf-studier", "/home/me/a b.pdf", "", "x"]);
    assert_eq!(split_on_tab(&join_with_tab(&parts)), parts);
}

#[test]
fn char_helpers() {
    let cs = chars_of("héllo");
    assert_eq!(cs, vec!['h', 'é', 'l', 'l', 'o']);
    assert_eq!(string_of(&cs), "héllo");
    assert_eq!(string_of_range(&cs, 1, 3), "él");
    assert!(same_text("abc", "abc"));
    assert!(!same_text("abc", "abd"));
    assert!(!same_text("abc", "ab"));
    assert!(starts_with(&chars_of("abcdef"), &chars_of("abc")));
    assert!(!starts_with(&chars_of("ab"), &chars_of("abc")));
    assert!(starts_with(&chars_of("ab"), &chars_of("")));
}
