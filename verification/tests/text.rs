use osprey_codegen::builder::{escape_c_string, metadata_escape, Scopes};
use osprey_codegen::coverage::counter_global;
use osprey_codegen::names::NameSet;
use osprey_codegen::text::{
    chars_of, ends_with, replace_char, slice_chars, starts_with, str_eq, strip_prefix, trim,
    trim_matches, white_space,
};
use osprey_codegen::{LType, Value};

#[test]
fn c_strings_escape_quotes_backslashes_and_non_ascii_bytes() {
    assert_eq!(escape_c_string("hello"), ("hello\\00".to_string(), 6));
    assert_eq!(escape_c_string("a\"b\\c"), ("a\\22b\\5Cc\\00".to_string(), 6));
    assert_eq!(escape_c_string("line\n"), ("line\\0A\\00".to_string(), 6));
    assert_eq!(escape_c_string("é"), ("\\C3\\A9\\00".to_string(), 3));
    assert_eq!(escape_c_string(""), ("\\00".to_string(), 1));
    assert_eq!(escape_c_string("\u{7f}~"), ("\\7F~\\00".to_string(), 3));
}

#[test]
fn metadata_strings_escape_quotes_and_backslashes() {
    assert_eq!(metadata_escape("a\"b\\c"), "a\\\"b\\\\c");
    assert_eq!(metadata_escape("plain é"), "plain é");
}

#[test]
fn text_helpers() {
    assert!(str_eq("abc", "abc") && !str_eq("abc", "abd"));
    assert!(starts_with("List#i64", "List#") && !starts_with("Lis", "List#"));
    assert!(ends_with("i8*", "*") && !ends_with("i64", "*"));
    assert_eq!(slice_chars("héllo", 1, 3), "él");
    assert_eq!(strip_prefix("Map#i64", "Map#").as_deref(), Some("i64"));
    assert_eq!(strip_prefix("Map", "Map#"), None);
    assert_eq!(trim("  \t x y \n"), "x y");
    assert_eq!(trim_matches("<<list>>", &['<', '>']), "list");
    assert_eq!(replace_char("i8**", '*', 'p'), "i8pp");
    assert!(white_space('\u{2003}') && !white_space('x'));
    assert_eq!(chars_of("ab"), vec!['a', 'b']);
    assert_eq!(counter_global(0), "@__osp_cov_hits.0");
}

#[test]
fn name_sets_stay_sorted_and_unique() {
    let mut s = NameSet::new();
    for n in ["b", "a", "ab", "b", "B", "é"] {
        s.insert(n);
    }
    assert_eq!(s.as_slice().to_vec(), vec!["B", "a", "ab", "b", "é"]);
    assert_eq!(s.len(), 5);
    assert!(s.contains("ab") && !s.contains("c"));
    let mut t = NameSet::new();
    t.insert("b");
    t.insert("c");
    assert_eq!(s.intersection(&t).as_slice().to_vec(), vec!["b"]);
}

#[test]
fn an_inner_binding_shadows_and_a_closed_scope_forgets() {
    let mut scopes = Scopes::new();
    scopes.bind("lost", Value::new("%0", LType::I64));
    assert!(scopes.lookup("lost").is_none());
    scopes.push_scope();
    scopes.bind("x", Value::new("%1", LType::I64));
    scopes.push_scope();
    assert_eq!(scopes.lookup("x").unwrap().operand, "%1");
    scopes.bind("x", Value::new("%2", LType::Str));
    assert_eq!(scopes.lookup("x").unwrap().operand, "%2");
    scopes.bind("x", Value::new("%3", LType::Str));
    assert_eq!(scopes.lookup("x").unwrap().operand, "%3");
    assert_eq!(scopes.depth(), 2);
    scopes.pop_scope();
    assert_eq!(scopes.lookup("x").unwrap().operand, "%1");
    scopes.pop_scope();
    scopes.pop_scope();
    assert!(scopes.lookup("x").is_none());
    assert_eq!(scopes.depth(), 0);
}
