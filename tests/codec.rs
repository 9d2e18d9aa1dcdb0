use ngs_log_action::codec::{
    finish_unescape_double_quote, pre_unescape_double_quote, unescape_double_quote,
};

#[test]
fn unescape_collapses_pairs() {
    assert_eq!(unescape_double_quote("a\"\"b"), "a\"b");
    assert_eq!(unescape_double_quote("\"\"\"x"), "\"\"x");
    assert_eq!(unescape_double_quote("\"\"\"\""), "\"\"");
    assert_eq!(unescape_double_quote(""), "");
    assert_eq!(unescape_double_quote("\""), "\"");
}

#[test]
fn pre_unescape_uses_sentinel() {
    assert_eq!(pre_unescape_double_quote("say \"\"hi\"\"\""), "say \thi\t\"");
    assert_eq!(pre_unescape_double_quote("plain"), "plain");
}

#[test]
fn finish_unescape_restores_quotes() {
    assert_eq!(finish_unescape_double_quote("a\tb\t"), "a\"b\"");
    assert_eq!(finish_unescape_double_quote("none"), "none");
}

#[test]
fn two_step_unescape_matches_one_step() {
    for s in ["", "\"", "\"\"", "\"\"\"", "a\"\"b\"c", "\"\"\"first", "second\"\"", "x\"\"\"\"y"] {
        assert_eq!(
            finish_unescape_double_quote(&pre_unescape_double_quote(s)),
            unescape_double_quote(s)
        );
    }
}
