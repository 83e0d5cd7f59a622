use mustcc::common::maps::{IdMap, NameMap};
use mustcc::common::{NodeID, Position};
use mustcc::error::context::Context;
use mustcc::symtable::layout::{LayoutKind, Type as LType};
use mustcc::symtable::type_sort::{make_dep_tree, reverse_graph, topo_sort};
use mustcc::symtable::{SymInfo, SymKind, SymTable, TypeInfo, TypeKind};
use mustcc::tp::tvar::{TVar, TVarKind};
use mustcc::tp::{Type, TypeView};

fn graph(edges: &[(usize, &[usize])]) -> IdMap<Vec<usize>> {
    let mut g = IdMap::new();
    for (k, ds) in edges {
        g.insert(*k, ds.to_vec());
    }
    g
}

#[test]
fn reverse_graph_lists_dependents() {
    let g = graph(&[(1, &[2, 3]), (2, &[3])]);
    let r = reverse_graph(&g);
    assert_eq!(r.get(1), Some(&vec![]));
    assert_eq!(r.get(2), Some(&vec![1]));
    assert_eq!(r.get(3), Some(&vec![1, 2]));
}

#[test]
fn topo_sort_puts_dependencies_first() {
    let g = graph(&[(1, &[2]), (2, &[3]), (3, &[])]);
    let (order, left) = topo_sort(g);
    assert_eq!(order, vec![3, 2, 1]);
    assert!(left.is_empty());
}

#[test]
fn topo_sort_keeps_cycles_apart() {
    // 1 and 2 depend on each other; 3 depends on 1 but nothing depends on 3
    let g = graph(&[(1, &[2]), (2, &[1]), (3, &[1])]);
    let (order, mut left) = topo_sort(g);
    assert_eq!(order, vec![3]);
    left.sort();
    assert_eq!(left, vec![1, 2]);
}

#[test]
fn topo_sort_self_loop() {
    let (order, left) = topo_sort(graph(&[(5, &[5])]));
    assert!(order.is_empty());
    assert_eq!(left, vec![5]);
}

#[test]
fn topo_sort_dependency_of_a_cycle_is_left_too() {
    // 1 and 2 form a cycle that depends on 4
    let (order, mut left) = topo_sort(graph(&[(1, &[2, 4]), (2, &[1]), (4, &[])]));
    assert!(order.is_empty());
    left.sort();
    assert_eq!(left, vec![1, 2, 4]);
}

#[test]
fn topo_sort_nodes_that_are_not_keys() {
    let (order, left) = topo_sort(graph(&[(1, &[9])]));
    assert_eq!(order, vec![9, 1]);
    assert!(left.is_empty());
}

fn pos(n: usize) -> Position {
    Position::new("t.mst".to_string(), n, n + 1)
}

fn named(id: usize, name: &str) -> Type {
    Type(TypeView::NamedVar(TVar { id, kind: TVarKind::Type }, name.to_string()))
}

fn struct_info(name: &str, at: usize, fields: Vec<(&str, Type)>) -> TypeInfo {
    let mut fs = NameMap::new();
    for (i, (n, t)) in fields.into_iter().enumerate() {
        fs.insert(n.to_string(), (i, t));
    }
    TypeInfo { name: name.to_string(), pos: pos(at), kind: TypeKind::Struct { params: vec![], fields: fs }, methods: NameMap::new() }
}

fn builtin_info(name: &str) -> TypeInfo {
    TypeInfo { name: name.to_string(), pos: pos(0), kind: TypeKind::Builtin, methods: NameMap::new() }
}

fn types() -> IdMap<TypeInfo> {
    let mut tm = IdMap::new();
    tm.insert(3, builtin_info("u8"));
    tm.insert(6, builtin_info("u64"));
    tm.insert(70, struct_info("Pair", 10, vec![("a", named(3, "u8")), ("b", named(6, "u64"))]));
    tm.insert(71, struct_info("Node", 20, vec![("next", Type::ptr(named(71, "Node"))), ("v", named(3, "u8"))]));
    tm
}

#[test]
fn dep_tree_follows_fields_but_not_pointers() {
    let tm = types();
    let g = make_dep_tree(&tm, &IdMap::new()).ok().unwrap();
    let mut pair = g.get(70).unwrap().clone();
    pair.sort();
    assert_eq!(pair, vec![3, 6]);
    assert_eq!(g.get(71), Some(&vec![3]));
    assert_eq!(g.get(3), Some(&vec![]));
}

#[test]
fn init_reports_nothing_without_recursion() {
    let mut ctx = Context::init();
    let st = SymTable::init(&mut ctx, IdMap::new(), types());
    assert!(st.is_ok());
    assert_eq!(ctx.error_count(), 0);
}

#[test]
fn init_reports_recursive_types() {
    let mut tm = IdMap::new();
    tm.insert(80, struct_info("A", 30, vec![("b", named(81, "B"))]));
    tm.insert(81, struct_info("B", 40, vec![("a", named(80, "A"))]));
    tm.insert(82, struct_info("C", 50, vec![("a", named(80, "A"))]));
    let mut ctx = Context::init();
    assert!(SymTable::init(&mut ctx, IdMap::new(), tm).is_ok());
    let ds = ctx.finish();
    assert_eq!(ds.len(), 2);
    let mut starts: Vec<usize> = ds.iter().map(|d| d.pos.start).collect();
    starts.sort();
    assert_eq!(starts, vec![30, 40]);
    assert_eq!(ds[0].labels[0].msg, "recursive type");
}

#[test]
fn init_refuses_a_constructor_that_is_missing() {
    let mut cons = NameMap::new();
    cons.insert("Some".to_string(), NodeID { id: 99 });
    let mut tm = IdMap::new();
    tm.insert(90, TypeInfo { name: "E".to_string(), pos: pos(1), kind: TypeKind::Enum { params: vec![], constructors: cons }, methods: NameMap::new() });
    let mut ctx = Context::init();
    assert!(SymTable::init(&mut ctx, IdMap::new(), tm).is_err());
    assert_eq!(ctx.error_count(), 0);
}

#[test]
fn enum_dependencies_come_from_constructor_arguments() {
    let mut nm = IdMap::new();
    nm.insert(99, SymInfo::build("Some".to_string(), pos(2), SymKind::EnumCons { id: 0, args: vec![named(6, "u64")], parent: NodeID { id: 98 } }));
    let mut cons = NameMap::new();
    cons.insert("Some".to_string(), NodeID { id: 99 });
    let mut tm = types();
    tm.insert(90, TypeInfo { name: "E".to_string(), pos: pos(1), kind: TypeKind::Enum { params: vec![], constructors: cons }, methods: NameMap::new() });
    let g = make_dep_tree(&tm, &nm).ok().unwrap();
    assert_eq!(g.get(90), Some(&vec![6]));
}

fn table() -> SymTable {
    let mut ctx = Context::init();
    SymTable::init(&mut ctx, IdMap::new(), types()).ok().unwrap()
}

#[test]
fn layout_of_builtins_and_pointers() {
    let st = table();
    let l = st.get_layout(&named(3, "u8")).ok().unwrap();
    assert_eq!((l.size, l.align), (1, 3));
    assert!(matches!(l.kind, LayoutKind::Primitive(LType::Tu8)));
    let p = st.get_layout(&Type::ptr(named(70, "Pair"))).ok().unwrap();
    assert_eq!(p.size, 8);
    assert!(matches!(p.kind, LayoutKind::Primitive(LType::Tusize)));
}

#[test]
fn layout_of_a_struct_lays_fields_in_a_row() {
    let st = table();
    let l = st.get_layout(&named(70, "Pair")).ok().unwrap();
    assert_eq!(l.size, 9);
    assert_eq!(l.align, 4);
    match &l.kind {
        LayoutKind::Struct(items) => {
            assert_eq!(items.len(), 2);
            assert_eq!(items[0].1, 0);
            assert_eq!(items[1].1, 1);
            assert_eq!(items[1].0.size, 8);
        }
        _ => panic!("a struct has a struct layout"),
    }
    let n = st.get_layout(&named(71, "Node")).ok().unwrap();
    assert_eq!(n.size, 9);
}

#[test]
fn layout_errors() {
    let st = table();
    assert!(st.get_layout(&Type::tuple(vec![])).is_err());
    assert!(st.get_layout(&named(1, "bool")).is_err());
    assert!(st.get_layout(&named(500, "Missing")).is_err());
    // a struct that contains itself has no layout
    let mut tm = IdMap::new();
    tm.insert(60, struct_info("R", 1, vec![("r", named(60, "R"))]));
    let rec = SymTable { node_map: IdMap::new(), tvar_map: tm };
    assert!(rec.get_layout(&named(60, "R")).is_err());
}
