use mustcc::tp::tvar::{TVar, TVarKind};
use mustcc::tp::uvar::UVarStore;
use mustcc::tp::{unify, Type};

#[test]
fn unify_equal_builtins() {
    let mut store = UVarStore::new();
    assert!(unify(&mut store, &Type::builtin("u8"), &Type::builtin("u8")));
    assert!(!unify(&mut store, &Type::builtin("u8"), &Type::builtin("bool")));
}

#[test]
fn unify_binds_a_variable() {
    let mut store = UVarStore::new();
    let v = Type::fresh_uvar(&mut store);
    assert_eq!(v.to_string(&store), "U?#65");
    assert!(unify(&mut store, &v, &Type::builtin("usize")));
    assert_eq!(v.zonk_with(&store).to_string(&store), "usize");
    // once bound, the variable no longer agrees with another type
    assert!(!unify(&mut store, &v, &Type::builtin("u8")));
}

#[test]
fn unify_inside_pointers_and_tuples() {
    let mut store = UVarStore::new();
    let a = Type::fresh_uvar(&mut store);
    let b = Type::fresh_uvar(&mut store);
    let t1 = Type::tuple(vec![Type::ptr(a.clone()), Type::builtin("bool")]);
    let t2 = Type::tuple(vec![Type::ptr(Type::builtin("u64")), b.clone()]);
    assert!(unify(&mut store, &t1, &t2));
    assert_eq!(t1.zonk_with(&store).to_string(&store), "(*u64, bool)");
    assert_eq!(b.zonk_with(&store).to_string(&store), "bool");
}

#[test]
fn never_coerces_to_anything() {
    let mut store = UVarStore::new();
    assert!(unify(&mut store, &Type::builtin("u8"), &Type::builtin("never")));
}

#[test]
fn occurs_check_refuses_infinite_types() {
    let mut store = UVarStore::new();
    let a = Type::fresh_uvar(&mut store);
    let p = Type::ptr(a.clone());
    assert!(!unify(&mut store, &a, &p));
}

#[test]
fn showing_types() {
    let store = UVarStore::new();
    let f = Type::fun(vec![Type::builtin("u8"), Type::builtin("bool")], Type::builtin("usize"));
    assert_eq!(f.to_string(&store), "fn(u8, bool) -> usize");
    let arr = Type::array(4, Type::mut_ptr(Type::builtin("i32")));
    assert_eq!(arr.to_string(&store), "[4]*mut i32");
    assert_eq!(Type::unit().to_string(&store), "()");
}

#[test]
fn builtin_type_variables() {
    let u8v = TVar::of_builtin("u8");
    assert_eq!(u8v.id(), 3);
    assert_eq!(u8v.builtin_size(), Some(1));
    let usizev = TVar::of_builtin("usize");
    assert_eq!(usizev.builtin_size(), Some(8));
    assert!(usizev.is_builtin());
    let never = TVar::of_builtin("never");
    assert!(never.is_never());
    assert!(matches!(u8v.kind(), TVarKind::Type));
}

#[test]
fn unify_a_rigid_type_with_itself() {
    let mut store = UVarStore::new();
    let f = Type::fun(
        vec![Type::tuple(vec![Type::builtin("u8")]), Type::array(3, Type::builtin("bool"))],
        Type::ptr(Type::builtin("usize")),
    );
    let g = f.clone();
    assert!(unify(&mut store, &f, &g));
}

#[test]
fn unify_joins_two_variables() {
    let mut store = UVarStore::new();
    let a = Type::fresh_uvar(&mut store);
    let b = Type::fresh_uvar(&mut store);
    assert!(unify(&mut store, &a, &b));
    assert!(unify(&mut store, &b, &Type::builtin("u8")));
    assert_eq!(a.zonk_with(&store).to_string(&store), "u8");
}

#[test]
fn a_slice_is_a_pointer_and_a_length() {
    let store = UVarStore::new();
    let s = Type::slice(Type::builtin("u8"), false);
    assert_eq!(s.to_string(&store), "(*u8, usize)");
    let m = Type::slice(Type::builtin("bool"), true);
    assert_eq!(m.to_string(&store), "(*mut bool, usize)");
}

#[test]
fn a_mutable_pointer_goes_where_a_pointer_is_expected() {
    let mut store = UVarStore::new();
    let i = Type::builtin("i32");
    assert!(unify(&mut store, &Type::ptr(i.clone()), &Type::mut_ptr(i.clone())));
    assert!(!unify(&mut store, &Type::mut_ptr(i.clone()), &Type::ptr(i.clone())));
}

#[test]
fn occurs_check_leaves_the_variable_free() {
    let mut store = UVarStore::new();
    let u = Type::fresh_uvar(&mut store);
    assert!(!unify(&mut store, &Type::tuple(vec![u.clone()]), &u));
    assert!(unify(&mut store, &u, &Type::builtin("u8")));
}

#[test]
fn a_failed_numeric_unify_leaves_the_variable_free() {
    let mut store = UVarStore::new();
    let n = Type::numeric_uvar(&mut store);
    let m = Type::numeric_uvar(&mut store);
    assert!(!unify(&mut store, &n, &Type::builtin("bool")));
    assert!(unify(&mut store, &n, &Type::builtin("u8")));
    assert_eq!(n.zonk_with(&store).to_string(&store), "u8");
    assert!(!unify(&mut store, &m, &Type::unit()));
}

#[test]
fn binding_one_variable_leaves_another_alone() {
    let mut store = UVarStore::new();
    let u = Type::fresh_uvar(&mut store);
    let w = Type::fresh_uvar(&mut store);
    let t = Type::ptr(Type::builtin("bool"));
    assert!(unify(&mut store, &u, &t));
    assert_eq!(u.zonk_with(&store).to_string(&store), "*bool");
    assert!(unify(&mut store, &t, &w));
    assert_eq!(w.zonk_with(&store).to_string(&store), "*bool");
}

#[test]
fn joined_variables_occur_in_each_other() {
    let mut store = UVarStore::new();
    let a = Type::fresh_uvar(&mut store);
    let b = Type::fresh_uvar(&mut store);
    assert!(unify(&mut store, &a, &b));
    assert!(!unify(&mut store, &a, &Type::ptr(b.clone())));
}
