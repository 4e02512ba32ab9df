use rp::trim::{TrimArg, TrimPos};

#[test]
fn test_trim_blank() {
    assert_eq!("abc", TrimArg::new_blank(TrimPos::Head).trim("abc".to_owned(), false));
    assert_eq!("abc\n\t", TrimArg::new_blank(TrimPos::Head).trim(" \n  abc\n\t".to_owned(), false));
}

#[test]
fn test_trim_char_nocase() {
    // head
    assert_eq!(
        "abc123abc",
        TrimArg::new_chars(TrimPos::Head, "_;+-=".to_owned(), true).trim("abc123abc".to_owned(), false)
    );
    assert_eq!(
        "23ABC",
        TrimArg::new_chars(TrimPos::Head, "cBAa1".to_owned(), true).trim("abc123ABC".to_owned(), false)
    );
    assert_eq!(
        "啊你好",
        TrimArg::new_chars(TrimPos::Head, "你好好".to_owned(), true).trim("你好你好啊你好".to_owned(), false)
    );
    assert_eq!(
        "1c好啊你好",
        TrimArg::new_chars(TrimPos::Head, "你好aBc".to_owned(), true)
            .trim("你a好b你c1c好啊你好".to_owned(), false)
    );
    assert_eq!(
        "",
        TrimArg::new_chars(TrimPos::Head, "你好啊abc".to_owned(), true).trim("a你".to_owned(), false)
    );
    // tail
    assert_eq!(
        "abc123abc",
        TrimArg::new_chars(TrimPos::Tail, "_;+-=".to_owned(), true).trim("abc123abc".to_owned(), false)
    );
    assert_eq!(
        "abc123",
        TrimArg::new_chars(TrimPos::Tail, "cBAa1".to_owned(), true).trim("abc123ABC".to_owned(), false)
    );
    assert_eq!(
        "你好你好啊",
        TrimArg::new_chars(TrimPos::Tail, "你好好".to_owned(), true).trim("你好你好啊你好".to_owned(), false)
    );
    assert_eq!(
        "你a好b你c1c好啊",
        TrimArg::new_chars(TrimPos::Tail, "你好aBc".to_owned(), true)
            .trim("你a好b你c1c好啊你好".to_owned(), false)
    );
    assert_eq!(
        "",
        TrimArg::new_chars(TrimPos::Tail, "你好啊abc".to_owned(), true).trim("a你".to_owned(), false)
    );
    // both
    assert_eq!(
        "abc123abc",
        TrimArg::new_chars(TrimPos::Both, "_;+-=".to_owned(), true).trim("abc123abc".to_owned(), false)
    );
    assert_eq!(
        "23",
        TrimArg::new_chars(TrimPos::Both, "cBAa1".to_owned(), true).trim("abc123ABC".to_owned(), false)
    );
    assert_eq!(
        "啊",
        TrimArg::new_chars(TrimPos::Both, "你好好".to_owned(), true).trim("你好你好啊你好".to_owned(), false)
    );
    assert_eq!(
        "1c好啊",
        TrimArg::new_chars(TrimPos::Both, "你好aBc".to_owned(), true)
            .trim("你a好b你c1c好啊你好".to_owned(), false)
    );
    assert_eq!(
        "",
        TrimArg::new_chars(TrimPos::Both, "你好啊abc".to_owned(), true).trim("a你".to_owned(), false)
    );
}

#[test]
fn test_trim_char() {
    // head
    assert_eq!(
        "abc123abc",
        TrimArg::new_chars(TrimPos::Head, "_;+-=".to_owned(), false).trim("abc123abc".to_owned(), false)
    );
    assert_eq!(
        "23aBc",
        TrimArg::new_chars(TrimPos::Head, "aBc1".to_owned(), false).trim("acB123aBc".to_owned(), false)
    );
    assert_eq!(
        "啊你好",
        TrimArg::new_chars(TrimPos::Head, "你好好".to_owned(), false).trim("你好你好啊你好".to_owned(), false)
    );
    assert_eq!(
        "b你c1c好啊你好",
        TrimArg::new_chars(TrimPos::Head, "你好aBc".to_owned(), false)
            .trim("你a好b你c1c好啊你好".to_owned(), false)
    );
    assert_eq!(
        "",
        TrimArg::new_chars(TrimPos::Head, "你好啊abc".to_owned(), false).trim("a你".to_owned(), false)
    );
    // tail
    assert_eq!(
        "abc123abc",
        TrimArg::new_chars(TrimPos::Tail, "_;+-=".to_owned(), false).trim("abc123abc".to_owned(), false)
    );
    assert_eq!(
        "abc123ab",
        TrimArg::new_chars(TrimPos::Tail, "aBc1".to_owned(), false).trim("abc123abc".to_owned(), false)
    );
    assert_eq!(
        "你好你好啊",
        TrimArg::new_chars(TrimPos::Tail, "你好好".to_owned(), false).trim("你好你好啊你好".to_owned(), false)
    );
    assert_eq!(
        "你a好b你c1c好啊",
        TrimArg::new_chars(TrimPos::Tail, "你好aBc".to_owned(), false)
            .trim("你a好b你c1c好啊你好".to_owned(), false)
    );
    assert_eq!(
        "",
        TrimArg::new_chars(TrimPos::Tail, "你好啊abc".to_owned(), false).trim("a你".to_owned(), false)
    );
    // both
    assert_eq!(
        "abc123abc",
        TrimArg::new_chars(TrimPos::Both, "_;+-=".to_owned(), false).trim("abc123abc".to_owned(), false)
    );
    assert_eq!(
        "bc123ab",
        TrimArg::new_chars(TrimPos::Both, "aBc1".to_owned(), false).trim("abc123abc".to_owned(), false)
    );
    assert_eq!(
        "啊",
        TrimArg::new_chars(TrimPos::Both, "你好好".to_owned(), false).trim("你好你好啊你好".to_owned(), false)
    );
    assert_eq!(
        "b你c1c好啊",
        TrimArg::new_chars(TrimPos::Both, "你好aBc".to_owned(), false)
            .trim("你a好b你c1c好啊你好".to_owned(), false)
    );
    assert_eq!(
        "",
        TrimArg::new_chars(TrimPos::Both, "你好啊abc".to_owned(), false).trim("a你".to_owned(), false)
    );
}

#[test]
fn test_trim_str_nocase() {
    // head
    assert_eq!(
        "abc123abc",
        TrimArg::new_str(TrimPos::Head, "_;+-=".to_owned(), true).trim("abc123abc".to_owned(), false)
    );
    assert_eq!(
        "abc123abCABC",
        TrimArg::new_str(TrimPos::Head, "abc".to_owned(), true).trim("abcabc123abCABC".to_owned(), false)
    );
    assert_eq!(
        "123aBc",
        TrimArg::new_str(TrimPos::Head, "acB".to_owned(), true).trim("acB123aBc".to_owned(), false)
    );
    assert_eq!(
        "好啊你好",
        TrimArg::new_str(TrimPos::Head, "你好你".to_owned(), true).trim("你好你好啊你好".to_owned(), false)
    );
    assert_eq!(
        "你a好b你c1c好啊你好",
        TrimArg::new_str(TrimPos::Head, "你好aBc".to_owned(), true)
            .trim("你a好b你c1c好啊你好".to_owned(), false)
    );
    assert_eq!(
        "啊你好你好aBc",
        TrimArg::new_str(TrimPos::Head, "你好aBc".to_owned(), true)
            .trim("你好aBc啊你好你好aBc".to_owned(), false)
    );
    assert_eq!(
        "a你",
        TrimArg::new_str(TrimPos::Head, "你好啊abc".to_owned(), true).trim("a你".to_owned(), false)
    );
    // tail
    assert_eq!(
        "abc123abc",
        TrimArg::new_str(TrimPos::Tail, "_;+-=".to_owned(), true).trim("abc123abc".to_owned(), false)
    );
    assert_eq!(
        "abcabc123abC",
        TrimArg::new_str(TrimPos::Tail, "abc".to_owned(), true).trim("abcabc123abCABC".to_owned(), false)
    );
    assert_eq!(
        "abc123abc",
        TrimArg::new_str(TrimPos::Tail, "aBc1".to_owned(), true).trim("abc123abc".to_owned(), false)
    );
    assert_eq!(
        "你好你好啊你好",
        TrimArg::new_str(TrimPos::Tail, "你好你".to_owned(), true).trim("你好你好啊你好".to_owned(), false)
    );
    assert_eq!(
        "你a好b你c1c好啊你好",
        TrimArg::new_str(TrimPos::Tail, "你好aBc".to_owned(), true)
            .trim("你a好b你c1c好啊你好".to_owned(), false)
    );
    assert_eq!(
        "你好aBc啊你好",
        TrimArg::new_str(TrimPos::Tail, "你好aBc".to_owned(), true)
            .trim("你好aBc啊你好你好aBc".to_owned(), false)
    );
    assert_eq!(
        "a你",
        TrimArg::new_str(TrimPos::Tail, "你好啊abc".to_owned(), true).trim("a你".to_owned(), false)
    );
    // both
    assert_eq!(
        "abc123abc",
        TrimArg::new_str(TrimPos::Both, "_;+-=".to_owned(), true).trim("abc123abc".to_owned(), false)
    );
    assert_eq!(
        "abc123abC",
        TrimArg::new_str(TrimPos::Both, "abc".to_owned(), true).trim("abcabc123abCABC".to_owned(), false)
    );
    assert_eq!(
        "23abc",
        TrimArg::new_str(TrimPos::Both, "aBc1".to_owned(), true).trim("abc123abc".to_owned(), false)
    );
    assert_eq!(
        "好啊你好",
        TrimArg::new_str(TrimPos::Both, "你好你".to_owned(), true).trim("你好你好啊你好".to_owned(), false)
    );
    assert_eq!(
        "你a好b你c1c好啊你好",
        TrimArg::new_str(TrimPos::Both, "你好aBc".to_owned(), true)
            .trim("你a好b你c1c好啊你好".to_owned(), false)
    );
    assert_eq!(
        "啊你好",
        TrimArg::new_str(TrimPos::Both, "你好aBc".to_owned(), true)
            .trim("你好aBc啊你好你好aBc".to_owned(), false)
    );
    assert_eq!(
        "a你",
        TrimArg::new_str(TrimPos::Both, "你好啊abc".to_owned(), true).trim("a你".to_owned(), false)
    );
}

#[test]
fn test_trim_str() {
    // head
    assert_eq!(
        "abc123abc",
        TrimArg::new_str(TrimPos::Head, "_;+-=".to_owned(), false).trim("abc123abc".to_owned(), false)
    );
    assert_eq!(
        "aBcabc123abcabc",
        TrimArg::new_str(TrimPos::Head, "abc".to_owned(), false).trim("aBcabc123abcabc".to_owned(), false)
    );
    assert_eq!(
        "123acb",
        TrimArg::new_str(TrimPos::Head, "acB".to_owned(), false).trim("acB123acb".to_owned(), false)
    );
    assert_eq!(
        "好啊你好",
        TrimArg::new_str(TrimPos::Head, "你好你".to_owned(), false).trim("你好你好啊你好".to_owned(), false)
    );
    assert_eq!(
        "你a好b你c1c好啊你好",
        TrimArg::new_str(TrimPos::Head, "你好aBc".to_owned(), false)
            .trim("你a好b你c1c好啊你好".to_owned(), false)
    );
    assert_eq!(
        "啊你好你好abc",
        TrimArg::new_str(TrimPos::Head, "你好aBc".to_owned(), false)
            .trim("你好aBc啊你好你好abc".to_owned(), false)
    );
    assert_eq!(
        "a你",
        TrimArg::new_str(TrimPos::Head, "你好啊abc".to_owned(), false).trim("a你".to_owned(), false)
    );
    // tail
    assert_eq!(
        "abc123abc",
        TrimArg::new_str(TrimPos::Tail, "_;+-=".to_owned(), false).trim("abc123abc".to_owned(), false)
    );
    assert_eq!(
        "aBcabc123abc",
        TrimArg::new_str(TrimPos::Tail, "abc".to_owned(), false).trim("aBcabc123abcabc".to_owned(), false)
    );
    assert_eq!(
        "abc123abc",
        TrimArg::new_str(TrimPos::Tail, "aBc1".to_owned(), false).trim("abc123abc".to_owned(), false)
    );
    assert_eq!(
        "你好你好啊你好",
        TrimArg::new_str(TrimPos::Tail, "你好你".to_owned(), false).trim("你好你好啊你好".to_owned(), false)
    );
    assert_eq!(
        "你a好b你c1c好啊你好",
        TrimArg::new_str(TrimPos::Tail, "你好aBc".to_owned(), false)
            .trim("你a好b你c1c好啊你好".to_owned(), false)
    );
    assert_eq!(
        "你好aBc啊你好你好abc",
        TrimArg::new_str(TrimPos::Tail, "你好aBc".to_owned(), false)
            .trim("你好aBc啊你好你好abc".to_owned(), false)
    );
    assert_eq!(
        "a你",
        TrimArg::new_str(TrimPos::Tail, "你好啊abc".to_owned(), false).trim("a你".to_owned(), false)
    );
    // both
    assert_eq!(
        "abc123abc",
        TrimArg::new_str(TrimPos::Both, "_;+-=".to_owned(), false).trim("abc123abc".to_owned(), false)
    );
    assert_eq!(
        "aBcabc123abc",
        TrimArg::new_str(TrimPos::Both, "abc".to_owned(), false).trim("aBcabc123abcabc".to_owned(), false)
    );
    assert_eq!(
        "abc123abc",
        TrimArg::new_str(TrimPos::Both, "aBc1".to_owned(), false).trim("abc123abc".to_owned(), false)
    );
    assert_eq!(
        "好啊你好",
        TrimArg::new_str(TrimPos::Both, "你好你".to_owned(), false).trim("你好你好啊你好".to_owned(), false)
    );
    assert_eq!(
        "你a好b你c1c好啊你好",
        TrimArg::new_str(TrimPos::Both, "你好aBc".to_owned(), false)
            .trim("你a好b你c1c好啊你好".to_owned(), false)
    );
    assert_eq!(
        "啊你好你好abc",
        TrimArg::new_str(TrimPos::Both, "你好aBc".to_owned(), false)
            .trim("你好aBc啊你好你好abc".to_owned(), false)
    );
    assert_eq!(
        "a你",
        TrimArg::new_str(TrimPos::Both, "你好啊abc".to_owned(), false).trim("a你".to_owned(), false)
    );
}

#[test]
fn test_trim_regex() {
    // head
    assert_eq!("", TrimArg::new_regex(TrimPos::Head, "\\d+".to_string()).unwrap().trim("".to_owned(), false));
    assert_eq!(
        "abc123",
        TrimArg::new_regex(TrimPos::Head, "\\d+".to_string()).unwrap().trim("123abc123".to_owned(), false)
    );
    // tail
    assert_eq!("", TrimArg::new_regex(TrimPos::Tail, "\\d+".to_string()).unwrap().trim("".to_owned(), false));
    assert_eq!(
        "123abc",
        TrimArg::new_regex(TrimPos::Tail, "\\d+".to_string()).unwrap().trim("123abc123".to_owned(), false)
    );
    // both
    assert_eq!("", TrimArg::new_regex(TrimPos::Both, "\\d+".to_string()).unwrap().trim("".to_owned(), false));
    assert_eq!(
        "abc",
        TrimArg::new_regex(TrimPos::Both, "\\d+".to_string()).unwrap().trim("123abc123".to_owned(), false)
    );
}

#[test]
fn trim_blank_each_end() {
    assert_eq!("abc\n\t", TrimArg::new_blank(TrimPos::Head).trim(" \n  abc\n\t".to_owned(), false));
    assert_eq!(" \n  abc", TrimArg::new_blank(TrimPos::Tail).trim(" \n  abc\n\t".to_owned(), false));
    assert_eq!("abc", TrimArg::new_blank(TrimPos::Both).trim(" \n  abc\n\t".to_owned(), false));
}

#[test]
fn trim_with_global_nocase() {
    assert_eq!("bc123ab", TrimArg::new_chars(TrimPos::Both, "aBc1".to_owned(), false).trim("abc123abc".to_owned(), false));
    assert_eq!("23", TrimArg::new_chars(TrimPos::Both, "aBc1".to_owned(), false).trim("abc123abc".to_owned(), true));
    assert_eq!("123abc", TrimArg::new_str(TrimPos::Head, "ABC".to_owned(), false).trim("abc123abc".to_owned(), true));
    assert_eq!("abc123abc", TrimArg::new_str(TrimPos::Head, "ABC".to_owned(), false).trim("abc123abc".to_owned(), false));
}
