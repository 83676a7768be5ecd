use bsa_ba2_tool::gui::search::{glob_match, path_matches_filter};
use bsa_ba2_tool::text::{
    bytes_eq, bytes_lt, chars_of, contains_chars, eq_ignore_ascii_case, normalize_key,
    occurs_at_exec, replace_separator, str_eq, string_of, to_ascii_lower,
};

fn chars(s: &str) -> Vec<char> {
    s.chars().collect()
}

#[test]
fn characters_round_trip() {
    assert_eq!(chars_of("héllo"), vec!['h', 'é', 'l', 'l', 'o']);
    assert_eq!(string_of(&vec!['a', 'ß', 'c']), "aßc");
    assert_eq!(chars_of(""), Vec::<char>::new());
}

#[test]
fn separators_are_replaced_everywhere() {
    assert_eq!(replace_separator("a/b/c", '/', '\\'), "a\\b\\c");
    assert_eq!(replace_separator("a\\b/c", '\\', '/'), "a/b/c");
    assert_eq!(replace_separator("abc", '/', '\\'), "abc");
    assert_eq!(replace_separator("", '/', '\\'), "");
}

#[test]
fn ascii_case_is_ignored_and_nothing_else() {
    assert_eq!(to_ascii_lower('A'), 'a');
    assert_eq!(to_ascii_lower('Z'), 'z');
    assert_eq!(to_ascii_lower('a'), 'a');
    assert_eq!(to_ascii_lower('@'), '@');
    assert_eq!(to_ascii_lower('['), '[');
    assert_eq!(to_ascii_lower('Ä'), 'Ä');
    assert!(eq_ignore_ascii_case("Foo\\Bar.TXT", "foo\\bar.txt"));
    assert!(!eq_ignore_ascii_case("Foo/Bar", "foo\\bar"));
    assert!(!eq_ignore_ascii_case("Ärger", "ärger"));
    assert!(!eq_ignore_ascii_case("abc", "abcd"));
    assert!(str_eq("abc", "abc"));
    assert!(!str_eq("abc", "abC"));
}

#[test]
fn substrings_are_found_where_they_are() {
    assert!(contains_chars(&chars("textures - main.ba2"), &chars("textures")));
    assert!(contains_chars(&chars("abc"), &chars("")));
    assert!(contains_chars(&chars(""), &chars("")));
    assert!(!contains_chars(&chars(""), &chars("a")));
    assert!(!contains_chars(&chars("ab"), &chars("abc")));
    assert!(contains_chars(&chars("aab"), &chars("ab")));
    assert!(contains_chars(&chars("xyz"), &chars("z")));
    assert!(occurs_at_exec(&chars("textures.ba2"), &chars("textures"), 0));
    assert!(!occurs_at_exec(&chars("my textures"), &chars("textures"), 0));
    assert!(occurs_at_exec(&chars("my textures"), &chars("textures"), 3));
    assert!(!occurs_at_exec(&chars("abc"), &chars("c"), 3));
}

#[test]
fn byte_order_is_lexicographic() {
    assert!(bytes_lt(b"a", b"b"));
    assert!(bytes_lt(b"a", b"ab"));
    assert!(bytes_lt(b"", b"a"));
    assert!(!bytes_lt(b"ab", b"a"));
    assert!(!bytes_lt(b"a", b"a"));
    assert!(!bytes_lt(b"", b""));
    assert!(bytes_lt(b"a/b.txt", b"a/b/x"));
    assert!(bytes_eq(b"abc", b"abc"));
    assert!(!bytes_eq(b"abc", b"abd"));
    assert!(!bytes_eq(b"abc", b"ab"));
}

#[test]
fn staging_keys_use_forward_slashes_and_no_leading_slash() {
    assert_eq!(normalize_key(b"x\\y.dat"), b"x/y.dat".to_vec());
    assert_eq!(normalize_key(b"/x/y"), b"x/y".to_vec());
    assert_eq!(normalize_key(b"\\\\//x"), b"x".to_vec());
    assert_eq!(normalize_key(b"x/"), b"x/".to_vec());
    assert_eq!(normalize_key(b"///"), b"".to_vec());
    assert_eq!(normalize_key(b""), b"".to_vec());
}

#[test]
fn star_stands_for_any_run() {
    assert!(glob_match(&chars("*.txt"), &chars("a/b.txt")));
    assert!(glob_match(&chars("*"), &chars("")));
    assert!(glob_match(&chars("**"), &chars("abc")));
    assert!(glob_match(&chars("a*c"), &chars("ac")));
    assert!(glob_match(&chars("a*c"), &chars("abbbc")));
    assert!(!glob_match(&chars("a*c"), &chars("abbb")));
    assert!(!glob_match(&chars("a*c"), &chars("bac")));
    assert!(glob_match(&chars("*a*b*"), &chars("xxaxxbxx")));
    assert!(!glob_match(&chars("*a*b*"), &chars("xxbxxaxx")));
    assert!(glob_match(&chars(""), &chars("")));
    assert!(!glob_match(&chars(""), &chars("a")));
    assert!(glob_match(&chars("abc"), &chars("abc")));
    assert!(!glob_match(&chars("abc"), &chars("abcd")));
    assert!(glob_match(&chars("*.txt"), &chars("a.txt.txt")));
}

#[test]
fn filters_match_in_lower_case() {
    assert!(path_matches_filter("", "anything"));
    assert!(path_matches_filter("B", "a\\b.txt"));
    assert!(!path_matches_filter("b", "a\\c.txt"));
    assert!(path_matches_filter("*.TXT", "a\\c.txt"));
    assert!(path_matches_filter("A*", "a\\c.txt"));
    assert!(!path_matches_filter("c*", "a\\c.txt"));
    assert!(path_matches_filter("*", ""));
}
