use si_registry_rs::text::{decimal_string, percent_encode_string, trim_end_matches_char};

#[test]
fn decimal_string_matches_format() {
    for n in [0usize, 7, 10, 42, 1000, 123456789, usize::MAX] {
        assert_eq!(decimal_string(n), format!("{}", n));
    }
}

#[test]
fn trim_end_matches_char_drops_all_trailing() {
    assert_eq!(trim_end_matches_char("https://x.supabase.co///", '/'), "https://x.supabase.co");
    assert_eq!(trim_end_matches_char("abc", '/'), "abc");
    assert_eq!(trim_end_matches_char("///", '/'), "");
    assert_eq!(trim_end_matches_char("", '/'), "");
    assert_eq!(trim_end_matches_char("a/b/", '/'), "a/b");
}

#[test]
fn percent_encode_string_escapes_reserved_and_non_ascii() {
    assert_eq!(percent_encode_string("inference"), "inference");
    assert_eq!(percent_encode_string("AZaz09-._~"), "AZaz09-._~");
    assert_eq!(percent_encode_string("a b"), "a%20b");
    assert_eq!(percent_encode_string("100%&x=,)#"), "100%25%26x%3D%2C%29%23");
    assert_eq!(percent_encode_string("é€"), "%C3%A9%E2%82%AC");
    assert_eq!(percent_encode_string(""), "");
}
