use demcru::text::str_eq;
use demcru::text::trim;
use demcru::text::usize_to_string;

#[test]
fn decimal_rendering_is_exact() {
    assert_eq!(usize_to_string(0), "0");
    assert_eq!(usize_to_string(7), "7");
    assert_eq!(usize_to_string(10), "10");
    assert_eq!(usize_to_string(409), "409");
    assert_eq!(usize_to_string(1_000_000), "1000000");
    assert_eq!(usize_to_string(usize::MAX), usize::MAX.to_string());
}

#[test]
fn str_eq_compares_by_characters() {
    assert!(str_eq("", ""));
    assert!(str_eq("main", "main"));
    assert!(!str_eq("main", "Main"));
    assert!(!str_eq("main", "main "));
    assert!(!str_eq("lobby", "lob"));
    assert!(str_eq("caf\u{e9}", "caf\u{e9}"));
}

#[test]
fn trim_strips_surrounding_whitespace_only() {
    assert_eq!(trim("  hello world  "), "hello world");
    assert_eq!(trim("\t/join lobby\n"), "/join lobby");
    assert_eq!(trim("inner  spaces stay"), "inner  spaces stay");
    assert_eq!(trim("   "), "");
}
