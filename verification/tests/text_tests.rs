use gc::display::Display;
use gc::app::config::{Command, CommandAction};
use gc::app::vars::{AppVars, AppVarsAction};
use gc::text::{chars_eq, decimal_chars, replace_all_str, to_chars, trim_matches_char};
use gc::tool::debug_print;

fn chars(s: &str) -> Vec<char> {
    s.chars().collect()
}

#[test]
fn replace_matches_std() {
    let cases = [
        ("aaaa", "aa", "b"),
        ("abcabc", "bc", "X"),
        ("abc", "", "-"),
        ("", "", "-"),
        ("héllo wörld", "ö", "o"),
        ("no match", "zz", "y"),
        ("aaa", "a", "aa"),
    ];
    for (s, p, r) in cases {
        assert_eq!(replace_all_str(s, &chars(p), r), s.replace(p, r));
    }
}

#[test]
fn trim_matches_std() {
    let cases = [("''a''", '\''), ("'", '\''), ("", '\''), ("a'b", '\''), ("\"x\"", '"'), ("xx", 'x')];
    for (s, c) in cases {
        assert_eq!(trim_matches_char(s, c), s.trim_matches(c));
    }
}

#[test]
fn decimal_digits() {
    assert_eq!(decimal_chars(0), vec!['0']);
    assert_eq!(decimal_chars(7), vec!['7']);
    assert_eq!(decimal_chars(10), vec!['1', '0']);
    assert_eq!(decimal_chars(1234567), chars("1234567"));
}

#[test]
fn chars_helpers() {
    assert_eq!(to_chars("héllo"), chars("héllo"));
    assert!(chars_eq(&chars("ab"), &chars("ab")));
    assert!(!chars_eq(&chars("ab"), &chars("abc")));
    assert!(!chars_eq(&chars("ab"), &chars("ac")));
}

#[test]
fn config_file_path() {
    assert_eq!(AppVars::file_path_in("/home/u"), "/home/u/.gc_config");
    assert_eq!(AppVars::file_path_in(""), "/.gc_config");
}

#[test]
fn init_vars_points_into_home() {
    if let Some(p) = AppVars::init_vars() {
        assert!(p.ends_with("/.gc_config"));
        assert!(p.len() > "/.gc_config".len() - 1);
    }
}

#[test]
fn app_vars_fields() {
    let v = <AppVars as AppVarsAction>::new("/tmp/x".to_string(), true);
    assert_eq!(v.get_file_path(), "/tmp/x");
    assert!(v.get_file_exist());
    let w = <AppVars as AppVarsAction>::new("p".to_string(), false);
    assert!(!w.get_file_exist());
}

#[test]
fn debug_print_prints_nothing() {
    assert!(!debug_print("message"));
}

#[test]
fn display_rows() {
    let a = <Command as CommandAction>::new("n".to_string(), "d".to_string(), Some("p".to_string()), None);
    let rows = Display::command_rows(&vec![a]);
    assert_eq!(rows.len(), 1);
    assert_eq!(rows[0], vec!["n", "String", "d", "p", ""]);
}
