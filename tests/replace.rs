use rp::replace::replace_with_count_and_nocase;

#[test]
fn test_replace_with_count_and_nocase() {
    assert_eq!(replace_with_count_and_nocase("abc ABC abc abc", "abc", "1234", None, false), "1234 ABC 1234 1234");
    assert_eq!(replace_with_count_and_nocase("abc ABC abc abc", "abc", "1234", None, true), "1234 1234 1234 1234");
    assert_eq!(replace_with_count_and_nocase("abc ABC abc abc", "abc", "1234", Some(0), false), "abc ABC abc abc");
    assert_eq!(replace_with_count_and_nocase("abc ABC abc abc", "abc", "1234", Some(0), true), "abc ABC abc abc");
    assert_eq!(replace_with_count_and_nocase("abc ABC abc abc", "abc", "1234", Some(2), false), "1234 ABC 1234 abc");
    assert_eq!(replace_with_count_and_nocase("abc ABC abc abc", "abc", "1234", Some(2), true), "1234 1234 abc abc");
    assert_eq!(
        replace_with_count_and_nocase("abc ABC abc abc", "", "1234", Some(2), true),
        "1234a1234bc ABC abc abc"
    );
    assert_eq!(replace_with_count_and_nocase("abc", "", "_", None, true), "_a_b_c_");
}

#[test]
fn replace_nocase_with_mixed_case_pattern() {
    assert_eq!(replace_with_count_and_nocase("abc ABC abc abc", "AbC", "1234", None, true), "1234 1234 1234 1234");
}

#[test]
fn replace_zero_count_keeps_text() {
    for (s, f, t) in [("aaa", "a", "b"), ("", "", "x"), ("Hello", "L", "y")] {
        assert_eq!(replace_with_count_and_nocase(s, f, t, Some(0), false), s);
        assert_eq!(replace_with_count_and_nocase(s, f, t, Some(0), true), s);
    }
}

#[test]
fn replace_twice_changes_nothing_more() {
    let once = replace_with_count_and_nocase("xaabyab", "ab", "c", None, false);
    assert_eq!(once, "xacyc");
    assert_eq!(replace_with_count_and_nocase(&once, "ab", "c", None, false), once);
}

#[test]
fn replace_again_can_find_new_occurrence() {
    let once = replace_with_count_and_nocase("abb", "ab", "a", None, false);
    assert_eq!(once, "ab");
    assert_eq!(replace_with_count_and_nocase(&once, "ab", "a", None, false), "a");
}

#[test]
fn replace_non_overlapping_and_unicode() {
    assert_eq!(replace_with_count_and_nocase("aaaa", "aa", "b", None, false), "bb");
    assert_eq!(replace_with_count_and_nocase("aaa", "aa", "b", None, false), "ba");
    assert_eq!(replace_with_count_and_nocase("你好你好", "好", "!", Some(1), false), "你!你好");
    assert_eq!(replace_with_count_and_nocase("no match", "xyz", "q", None, true), "no match");
}
