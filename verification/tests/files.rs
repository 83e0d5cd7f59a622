use mustcc::common::{Ident, Position, Visibility};
use mustcc::parser::ast::{FileMap, Module};

fn module(name: &str) -> Module {
    Module {
        attributes: vec![],
        visibility: Visibility::Public,
        name: Ident { data: name.to_string(), pos: Position::nowhere() },
        items: vec![],
        pos: Position::nowhere(),
    }
}

fn path(names: &[&str]) -> Vec<String> {
    names.iter().map(|n| n.to_string()).collect()
}

#[test]
fn file_map_insert_replaces_and_hands_back_the_old_module() {
    let mut fm = FileMap::new();
    assert!(fm.insert(path(&["src", "a"]), module("first")).is_none());
    let old = fm.insert(path(&["src", "a"]), module("second"));
    assert_eq!(old.map(|m| m.name.data), Some("first".to_string()));
    assert_eq!(fm.entries.len(), 1);
    assert_eq!(fm.entries[0].1.name.data, "second");
}

#[test]
fn file_map_remove_takes_the_path_out() {
    let mut fm = FileMap::new();
    assert!(fm.insert(path(&["src"]), module("root")).is_none());
    assert!(fm.insert(path(&["src", "b"]), module("b")).is_none());
    let taken = fm.remove(&path(&["src", "b"]));
    assert_eq!(taken.map(|m| m.name.data), Some("b".to_string()));
    assert!(fm.remove(&path(&["src", "b"])).is_none());
    assert_eq!(fm.entries.len(), 1);
    assert_eq!(fm.entries[0].1.name.data, "root");
}
