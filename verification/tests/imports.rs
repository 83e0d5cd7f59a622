use std::collections::VecDeque;

use mustcc::common::maps::{IdMap, NameMap};
use mustcc::common::{Ident, NodeID, Path, Position, Visibility};
use mustcc::mod_tree::import_solve::resolve_import;
use mustcc::mod_tree::scope::{Binding, Import, Kind, Scope, ScopeKind, Symbol};
use mustcc::mod_tree::scope_info::ScopeInfo;

fn ident(s: &str) -> Ident {
    Ident { data: s.to_string(), pos: Position::nowhere() }
}

fn binding(kind: Kind, sym: Symbol) -> Binding {
    Binding { vis: Visibility::Public, kind, sym }
}

fn two_scopes(x_target: usize) -> ScopeInfo {
    let root = NodeID { id: 0 };
    let a = NodeID { id: 100 };
    let mut root_items = NameMap::new();
    root_items.insert("a".to_string(), binding(Kind::Module, Symbol::Local(a)));
    let mut a_items = NameMap::new();
    a_items.insert("x".to_string(), binding(Kind::Func, Symbol::Local(NodeID { id: x_target })));
    let mut data = IdMap::new();
    data.insert(root.id, Scope { items: root_items, kind: ScopeKind::Root });
    data.insert(a.id, Scope { items: a_items, kind: ScopeKind::Module { imports: vec![], parent: root } });
    ScopeInfo { data }
}

fn import_a_x(is_glob: bool) -> Import {
    let mut data = VecDeque::new();
    data.push_back(ident("a"));
    if !is_glob {
        data.push_back(ident("x"));
    }
    Import { path: Path { data }, alias: None, is_glob, vis: Visibility::Public }
}

#[test]
fn an_exact_import_shadows_a_glob_import() {
    let tree = two_scopes(102);
    let mut items = NameMap::new();
    items.insert("a".to_string(), binding(Kind::Module, Symbol::Local(NodeID { id: 100 })));
    items.insert("x".to_string(), binding(Kind::Func, Symbol::GlobImported(NodeID { id: 101 })));
    let res = resolve_import(&tree, &mut items, NodeID { id: 0 }, &import_a_x(false));
    assert!(matches!(res, Ok(true)));
    assert!(matches!(items.get("x").unwrap().sym, Symbol::Imported(NodeID { id: 102 })));
}

#[test]
fn an_exact_import_binds_a_free_name() {
    let tree = two_scopes(102);
    let mut items = NameMap::new();
    items.insert("a".to_string(), binding(Kind::Module, Symbol::Local(NodeID { id: 100 })));
    let res = resolve_import(&tree, &mut items, NodeID { id: 0 }, &import_a_x(false));
    assert!(matches!(res, Ok(true)));
    assert!(matches!(items.get("x").unwrap().sym, Symbol::Imported(NodeID { id: 102 })));
    // the same import again changes nothing
    let again = resolve_import(&tree, &mut items, NodeID { id: 0 }, &import_a_x(false));
    assert!(matches!(again, Ok(false)));
}

#[test]
fn a_glob_import_brings_in_free_names() {
    let tree = two_scopes(102);
    let mut items = NameMap::new();
    items.insert("a".to_string(), binding(Kind::Module, Symbol::Local(NodeID { id: 100 })));
    let res = resolve_import(&tree, &mut items, NodeID { id: 0 }, &import_a_x(true));
    assert!(matches!(res, Ok(true)));
    assert!(matches!(items.get("x").unwrap().sym, Symbol::GlobImported(NodeID { id: 102 })));
}
