use mustcc::common::maps::{IdMap, NameMap};
use mustcc::common::{push_char, usize_to_string, Ident, Path, Position};
use mustcc::error::context::Context;
use mustcc::error::diagnostic::{labelled_error, Severity};
use mustcc::error::InternalError;
use mustcc::parser::{get_module_path, parse_char_literal, unescape_json_string};

fn strings(v: &[&str]) -> Vec<String> {
    v.iter().map(|s| s.to_string()).collect()
}

#[test]
fn char_literal_plain() {
    assert_eq!(parse_char_literal("'a'"), Ok(b'a'));
    assert_eq!(parse_char_literal("'Z'"), Ok(b'Z'));
}

#[test]
fn char_literal_escapes() {
    assert_eq!(parse_char_literal("'\\n'"), Ok(0x0A));
    assert_eq!(parse_char_literal("'\\t'"), Ok(0x09));
    assert_eq!(parse_char_literal("'\\a'"), Ok(0x07));
    assert_eq!(parse_char_literal("'\\v'"), Ok(0x0B));
    assert_eq!(parse_char_literal("'\\\\'"), Ok(b'\\'));
    assert_eq!(parse_char_literal("'\\''"), Ok(b'\''));
    assert_eq!(parse_char_literal("'\\?'"), Ok(b'?'));
}

#[test]
fn char_literal_hex() {
    assert_eq!(parse_char_literal("'\\x41'"), Ok(0x41));
    assert_eq!(parse_char_literal("'\\xf'"), Ok(0x0F));
    assert_eq!(parse_char_literal("'\\xFF'"), Ok(0xFF));
}

#[test]
fn char_literal_errors() {
    assert_eq!(parse_char_literal("a"), Err("invalid char literal".to_string()));
    assert_eq!(parse_char_literal("'a"), Err("invalid char literal".to_string()));
    assert_eq!(parse_char_literal("'\\x'"), Err("invalid hex escape".to_string()));
    assert_eq!(parse_char_literal("'\\x123'"), Err("invalid hex escape".to_string()));
    assert_eq!(parse_char_literal("'\\xZZ'"), Err("invalid hex digits".to_string()));
    assert_eq!(parse_char_literal("'\\q'"), Err("unknown escape".to_string()));
    assert_eq!(parse_char_literal("''"), Err("invalid char literal format".to_string()));
    assert_eq!(parse_char_literal("'ab'"), Err("invalid char literal format".to_string()));
}

#[test]
fn unescape_plain_and_escapes() {
    assert_eq!(unescape_json_string("\"abc\""), Ok("abc".to_string()));
    assert_eq!(unescape_json_string("\"a\\nb\""), Ok("a\nb".to_string()));
    assert_eq!(unescape_json_string("\"\\\"\\\\\\/\""), Ok("\"\\/".to_string()));
    assert_eq!(unescape_json_string("\"\\b\\f\\r\\t\""), Ok("\u{8}\u{c}\r\t".to_string()));
    assert_eq!(unescape_json_string("\"\""), Ok(String::new()));
}

#[test]
fn unescape_unicode() {
    assert_eq!(unescape_json_string("\"\\u0041\""), Ok("A".to_string()));
    assert_eq!(unescape_json_string("\"x\\u00e9y\""), Ok("x\u{e9}y".to_string()));
    assert_eq!(unescape_json_string("\"\\u20AC\""), Ok("\u{20ac}".to_string()));
}

#[test]
fn unescape_errors() {
    assert_eq!(unescape_json_string("\"\\uD800\""), Err("Invalid unicode escape: D800".to_string()));
    assert_eq!(unescape_json_string("\"\\uZZZZ\""), Err("Bad hex in unicode escape: ZZZZ".to_string()));
    assert_eq!(unescape_json_string("\"\\u12\""), Err("Incomplete unicode escape".to_string()));
    assert_eq!(unescape_json_string("\"\\q\""), Err("Invalid escape: \\q".to_string()));
    assert_eq!(unescape_json_string("\"\\\""), Err("Incomplete escape".to_string()));
}

#[test]
fn module_path_of_file() {
    let p = get_module_path(strings(&["src", "foo", "bar.mst"])).ok().unwrap();
    assert_eq!(p, strings(&["src", "foo", "bar"]));
}

#[test]
fn module_path_of_mod_file() {
    let p = get_module_path(strings(&["foo", "bar", "mod.mst"])).ok().unwrap();
    assert_eq!(p, strings(&["foo", "bar"]));
    let root = get_module_path(strings(&["mod.mst"])).ok().unwrap();
    assert!(root.is_empty());
}

#[test]
fn module_path_errors() {
    assert!(matches!(get_module_path(strings(&["foo", "bar.txt"])), Err(InternalError::AnyMsg(_))));
    assert!(matches!(get_module_path(Vec::new()), Err(InternalError::AnyMsg(_))));
}

#[test]
fn push_char_appends() {
    let mut s = "ab".to_string();
    push_char(&mut s, 'c');
    assert_eq!(s, "abc");
    push_char(&mut s, '\u{e9}');
    assert_eq!(s, "abc\u{e9}");
}

#[test]
fn decimal_strings() {
    assert_eq!(usize_to_string(0), "0");
    assert_eq!(usize_to_string(7), "7");
    assert_eq!(usize_to_string(12345), "12345");
}

fn ident(s: &str) -> Ident {
    Ident { data: s.to_string(), pos: Position::nowhere() }
}

#[test]
fn path_push_then_pop() {
    let p = Path::empty().push_back(ident("a")).push_back(ident("b"));
    assert_eq!(p.data.len(), 2);
    let q = p.push_back(ident("c")).pop_back();
    assert_eq!(q.data.len(), 2);
    assert_eq!(q.data[1].data, "b");
    let r = Path::empty().pop_back();
    assert_eq!(r.data.len(), 0);
}

#[test]
fn id_map_read_after_write() {
    let mut m: IdMap<u32> = IdMap::new();
    assert!(m.insert(3, 30).is_none());
    assert!(m.insert(4, 40).is_none());
    assert_eq!(m.insert(3, 31), Some(30));
    assert_eq!(m.get(3), Some(&31));
    assert_eq!(m.get(4), Some(&40));
    assert_eq!(m.get(5), None);
    assert_eq!(m.remove(4), Some(40));
    assert!(!m.contains_key(4));
    assert_eq!(m.len(), 1);
}

#[test]
fn name_map_read_after_write() {
    let mut m: NameMap<u32> = NameMap::new();
    assert!(m.insert("x".to_string(), 1).is_none());
    assert_eq!(m.insert("x".to_string(), 2), Some(1));
    assert_eq!(m.get("x"), Some(&2));
    assert_eq!(m.get("y"), None);
    assert!(m.keys_are_unique());
}

#[test]
fn context_keeps_reports_in_order() {
    let mut ctx = Context::init();
    assert_eq!(ctx.error_count(), 0);
    let p1 = Position::new("a.mst".to_string(), 1, 2);
    let p2 = Position::new("b.mst".to_string(), 3, 4);
    ctx.report(labelled_error(&p1, "first".to_string()));
    ctx.report(labelled_error(&p2, "second".to_string()));
    assert_eq!(ctx.error_count(), 2);
    let ds = ctx.finish();
    assert_eq!(ds[0].labels[0].msg, "first");
    assert_eq!(ds[1].labels[0].msg, "second");
    assert_eq!(ds[1].pos.filename, "b.mst");
    assert!(matches!(ds[0].severity, Severity::Error));
}
