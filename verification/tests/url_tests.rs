use fastfiles::url::{code_from_query, urlencoding_decode};

#[test]
fn decodes_escapes() {
    assert_eq!(urlencoding_decode("AB%43D"), "ABCD");
    assert_eq!(urlencoding_decode("%41%62"), "Ab");
    assert_eq!(urlencoding_decode("a+b"), "a+b");
    assert_eq!(urlencoding_decode("%e4%B8"), "\u{e4}\u{b8}");
}

#[test]
fn broken_escapes_drop_what_follows_the_percent() {
    assert_eq!(urlencoding_decode("%zzAB"), "%AB");
    assert_eq!(urlencoding_decode("AB%4"), "AB%");
    assert_eq!(urlencoding_decode("AB%"), "AB%");
    assert_eq!(urlencoding_decode("%4g1"), "%1");
}

#[test]
fn code_from_query_string() {
    assert_eq!(code_from_query("code=ABCD"), "ABCD");
    assert_eq!(code_from_query("x=1&code=AB%43D&code=ZZZZ"), "AB%43D");
    assert_eq!(code_from_query("code&code=WXYZ"), "WXYZ");
    assert_eq!(code_from_query("code=A=B"), "A");
    assert_eq!(code_from_query("code="), "");
    assert_eq!(code_from_query(""), "");
    assert_eq!(code_from_query("codes=1&xcode=2"), "");
}
