//! Printing a program as C: type declarations, type definitions, function declarations
//! and function bodies.
use vstd::prelude::*;

use crate::common::{spec_decimal, usize_to_string, write_decimal};
use crate::error::InternalError;
use crate::tp::model::Ty;
use crate::tp::tvar::TVar;
use crate::codegen::ast::{Func, LValue, Program, RValue, Stmt, VarRef};
use crate::common::maps::{IdMap, NameMap};
use crate::common::NodeID;
use crate::common::node_id::spec_builtin_type_id;
use crate::symtable::type_sort::{make_dep_tree, spec_dep_graph, spec_parts_ok, spec_topo_sorted, topo_sort};
use crate::symtable::{SymKind, SymTable, TypeKind};
use crate::codegen::ast::VarID;
use crate::tp::{tys, Type, TypeView};

verus! {

/// The C name of a type variable.
pub open spec fn spec_tvar_text(id: usize) -> Seq<char> {
    "tv_"@ + spec_decimal(id as nat)
}

/// The C name of a declaration.
pub open spec fn spec_node_text(id: usize) -> Seq<char> {
    "id_"@ + spec_decimal(id as nat)
}

/// The C name of a local variable.
pub open spec fn spec_var_text(id: usize) -> Seq<char> {
    "v_"@ + spec_decimal(id as nat)
}

/// The name of the `i`-th unnamed field.
pub open spec fn spec_field_name(i: nat) -> Seq<char> {
    "__"@ + spec_decimal(i)
}

/// The C declaration of `name` with type `t`; types with unknown parts and applied type
/// constructors have none.
pub open spec fn spec_with_name(t: Ty, name: Seq<char>) -> Option<Seq<char>>
    decreases t,
{
    match t {
        Ty::NamedVar(v, _) => Some(spec_tvar_text(v.id) + " "@ + name),
        Ty::Var(v) => Some(spec_tvar_text(v.id) + " "@ + name),
        Ty::Tuple(items) => match spec_tuple_fields(items) {
            Some(f) => Some("struct {"@ + f + "}"@),
            None => None,
        },
        Ty::Array(size, b) => match spec_with_name(*b, name) {
            Some(x) => Some(x + "["@ + spec_decimal(size) + "]"@),
            None => None,
        },
        Ty::Fun(args, r) => match (spec_with_name(*r, ""@), spec_args_text(args)) {
            (Some(x), Some(a)) => Some(x + "(*"@ + name + ")("@ + a + ")"@),
            _ => None,
        },
        Ty::Ptr(b) => match spec_with_name(*b, ""@) {
            Some(x) => Some(x + " *"@ + name),
            None => None,
        },
        Ty::MutPtr(b) => match spec_with_name(*b, ""@) {
            Some(x) => Some(x + " *"@ + name),
            None => None,
        },
        _ => None,
    }
}

/// The fields of a tuple as C struct members, named by their positions.
pub open spec fn spec_tuple_fields(items: Seq<Ty>) -> Option<Seq<char>>
    decreases items,
{
    if items.len() == 0 {
        Some(Seq::empty())
    } else {
        match (spec_tuple_fields(items.drop_last()), spec_with_name(items.last(), spec_field_name((items.len() - 1) as nat))) {
            (Some(p), Some(x)) => Some(p + x + ";"@),
            _ => None,
        }
    }
}

/// Unnamed declarations of the given types, separated by commas.
pub open spec fn spec_args_text(ts: Seq<Ty>) -> Option<Seq<char>>
    decreases ts,
{
    if ts.len() == 0 {
        Some(Seq::empty())
    } else if ts.len() == 1 {
        spec_with_name(ts[0], ""@)
    } else {
        match (spec_args_text(ts.drop_last()), spec_with_name(ts.last(), ""@)) {
            (Some(p), Some(x)) => Some(p + ", "@ + x),
            _ => None,
        }
    }
}

/// `"__"` followed by the decimal digits of `i`.
fn field_name(i: usize) -> (res: String)
    ensures
        res@ == spec_field_name(i as nat),
{
    let mut s = String::new();
    s.append("__");
    write_decimal(&mut s, i);
    s
}

impl Type {
    /// The C declaration of `name` with this type; the error comes for a type with unknown
    /// parts or an applied type constructor.
    pub fn with_name(&self, name: &str) -> (res: Result<String, InternalError>)
        ensures
            match spec_with_name(self.ty(), name@) {
                Some(x) => res matches Ok(s) && s@ == x,
                None => res is Err,
            },
        decreases self, 1nat,
    {
        match &self.0 {
            TypeView::NamedVar(tvar, _) | TypeView::Var(tvar) => {
                let mut s = String::new();
                s.append("tv_");
                write_decimal(&mut s, tvar.id);
                s.append(" ");
                s.append(name);
                Ok(s)
            },
            TypeView::Tuple(items) => {
                assert(self.ty()->Tuple_0 =~= tys(items@));
                let f = tuple_fields(items, self)?;
                let mut s = String::new();
                s.append("struct {");
                s.append(f.as_str());
                s.append("}");
                assert(self.ty()->Tuple_0 =~= tys(items@));
                Ok(s)
            },
            TypeView::Array(size, b) => {
                let x = b.with_name(name)?;
                let mut s = x;
                s.append("[");
                write_decimal(&mut s, *size);
                s.append("]");
                Ok(s)
            },
            TypeView::Fun(args, r) => {
                assert(self.ty()->Fun_0 =~= tys(args@));
                let x = r.with_name("")?;
                let a = args_text(args, self)?;
                let mut s = x;
                s.append("(*");
                s.append(name);
                s.append(")(");
                s.append(a.as_str());
                s.append(")");
                assert(self.ty()->Fun_0 =~= tys(args@));
                Ok(s)
            },
            TypeView::Ptr(b) | TypeView::MutPtr(b) => {
                let x = b.with_name("")?;
                let mut s = x;
                s.append(" *");
                s.append(name);
                Ok(s)
            },
            _ => Err(InternalError::msg("this type cannot be printed")),
        }
    }
}

/// The members of a C struct for a tuple of the types `ts`.
fn tuple_fields(ts: &Vec<Type>, parent: &Type) -> (res: Result<String, InternalError>)
    requires
        decreases_to!(*parent => *ts),
    ensures
        match spec_tuple_fields(tys(ts@)) {
            Some(x) => res matches Ok(s) && s@ == x,
            None => res is Err,
        },
    decreases *parent, 0nat,
{
    let ghost all = tys(ts@);
    let mut acc = String::new();
    let n = ts.len();
    let mut i: usize = 0;
    assert(all.subrange(0, 0) =~= Seq::<Ty>::empty());
    while i < n
        invariant
            n == ts@.len(),
            all == tys(ts@),
            i <= n,
            decreases_to!(*parent => *ts),
            spec_tuple_fields(all.subrange(0, i as int)) == Some(acc@),
        decreases n - i,
    {
        assert(decreases_to!(*ts => ts@[i as int])) by {
            assert(decreases_to!(*ts => ts@));
        }
        let ghost pre = all.subrange(0, i as int);
        let ghost next = all.subrange(0, i + 1);
        assert(next.drop_last() =~= pre);
        assert(next.last() == ts@[i as int].ty());
        let fname = field_name(i);
        match ts[i].with_name(fname.as_str()) {
            Ok(x) => {
                acc.append(x.as_str());
                acc.append(";");
            },
            Err(e) => {
                proof {
                    lemma_tuple_fields_prefix(all, i + 1);
                }
                return Err(e);
            },
        }
        i = i + 1;
    }
    assert(all.subrange(0, n as int) =~= all);
    Ok(acc)
}

/// Where a prefix of a tuple cannot be printed, neither can the tuple.
proof fn lemma_tuple_fields_prefix(items: Seq<Ty>, k: int)
    requires
        0 <= k <= items.len(),
        spec_tuple_fields(items.subrange(0, k)) is None,
    ensures
        spec_tuple_fields(items) is None,
    decreases items.len() - k,
{
    if k < items.len() {
        let next = items.subrange(0, k + 1);
        assert(next.drop_last() =~= items.subrange(0, k));
        lemma_tuple_fields_prefix(items, k + 1);
    } else {
        assert(items.subrange(0, k) =~= items);
    }
}

/// Where a prefix of an argument list cannot be printed, neither can the list.
proof fn lemma_args_text_prefix(items: Seq<Ty>, k: int)
    requires
        1 <= k <= items.len(),
        spec_args_text(items.subrange(0, k)) is None,
    ensures
        spec_args_text(items) is None,
    decreases items.len() - k,
{
    if k < items.len() {
        let next = items.subrange(0, k + 1);
        assert(next.drop_last() =~= items.subrange(0, k));
        lemma_args_text_prefix(items, k + 1);
    } else {
        assert(items.subrange(0, k) =~= items);
    }
}

/// Unnamed C declarations of the types `ts`, separated by commas.
fn args_text(ts: &Vec<Type>, parent: &Type) -> (res: Result<String, InternalError>)
    requires
        decreases_to!(*parent => *ts),
    ensures
        match spec_args_text(tys(ts@)) {
            Some(x) => res matches Ok(s) && s@ == x,
            None => res is Err,
        },
    decreases *parent, 0nat,
{
    let ghost all = tys(ts@);
    let mut acc = String::new();
    let n = ts.len();
    let mut i: usize = 0;
    assert(all.subrange(0, 0) =~= Seq::<Ty>::empty());
    while i < n
        invariant
            n == ts@.len(),
            all == tys(ts@),
            i <= n,
            decreases_to!(*parent => *ts),
            spec_args_text(all.subrange(0, i as int)) == Some(acc@),
        decreases n - i,
    {
        assert(decreases_to!(*ts => ts@[i as int])) by {
            assert(decreases_to!(*ts => ts@));
        }
        let ghost pre = all.subrange(0, i as int);
        let ghost next = all.subrange(0, i + 1);
        assert(next.drop_last() =~= pre);
        assert(next.last() == ts@[i as int].ty());
        match ts[i].with_name("") {
            Ok(x) => {
                if i > 0 {
                    acc.append(", ");
                } else {
                    assert(next =~= seq![ts@[0].ty()]);
                }
                acc.append(x.as_str());
            },
            Err(e) => {
                proof {
                    if i == 0 {
                        assert(next =~= seq![ts@[0].ty()]);
                    }
                    lemma_args_text_prefix(all, i + 1);
                }
                return Err(e);
            },
        }
        i = i + 1;
    }
    assert(all.subrange(0, n as int) =~= all);
    Ok(acc)
}

/// The C text of a variable.
pub open spec fn spec_varref_text(v: VarRef) -> Seq<char> {
    match v {
        VarRef::LocalVar { id } => spec_var_text(id.0),
        VarRef::GlobalVar { id } => spec_node_text(id.id),
    }
}

/// The C text of a place; fields and dereferences have none yet.
pub open spec fn spec_lvalue_text(l: LValue) -> Option<Seq<char>> {
    match l {
        LValue::VarRef(v) => Some(spec_varref_text(v)),
        _ => None,
    }
}

/// The C text of a value; calls, references and struct values have none yet, and an array
/// prints as `[]`.
pub open spec fn spec_rvalue_text(r: RValue) -> Option<Seq<char>>
    decreases r,
{
    match r {
        RValue::NumLit(n, _) => Some(spec_decimal(n as nat)),
        RValue::Value(l) => spec_lvalue_text(l),
        RValue::ArrayInit(_) => Some("[]"@),
        RValue::Tuple(vals) => match spec_tuple_vals(vals@) {
            Some(x) => Some("{"@ + x + "}"@),
            None => None,
        },
        _ => None,
    }
}

/// The members of a tuple value, each given to the field of its position.
pub open spec fn spec_tuple_vals(vs: Seq<RValue>) -> Option<Seq<char>>
    decreases vs,
{
    if vs.len() == 0 {
        Some(Seq::empty())
    } else {
        match (spec_tuple_vals(vs.drop_last()), spec_rvalue_text(vs.last())) {
            (Some(p), Some(x)) => Some(p + "."@ + spec_field_name((vs.len() - 1) as nat) + " = "@ + x),
            _ => None,
        }
    }
}

/// The C text of a statement, without its final semicolon.
pub open spec fn spec_stmt_text(s: Stmt) -> Option<Seq<char>>
    decreases s,
{
    match s {
        Stmt::Return { expr, .. } => Some("return "@ + spec_varref_text(expr)),
        Stmt::VarDecl { id, tp } => spec_with_name(tp.ty(), spec_var_text(id.0)),
        Stmt::If { pred, th, el, .. } => match (spec_block_text(th@), spec_block_text(el@)) {
            (Some(a), Some(b)) => Some("if ("@ + spec_varref_text(pred) + ") {\n"@ + a + "} else {\n"@ + b + "}\n"@),
            _ => None,
        },
        Stmt::Assign { lval, rval } => match (spec_lvalue_text(lval), spec_rvalue_text(rval)) {
            (Some(a), Some(b)) => Some(a + " = "@ + b),
            _ => None,
        },
        Stmt::While { cond, body } => match spec_block_text(body@) {
            Some(a) => Some("while ("@ + spec_varref_text(cond) + ") {\n"@ + a + "};\n"@),
            None => None,
        },
    }
}

/// Statements, one to a line, each indented and ended by a semicolon.
pub open spec fn spec_block_text(ss: Seq<Stmt>) -> Option<Seq<char>>
    decreases ss,
{
    if ss.len() == 0 {
        Some(Seq::empty())
    } else {
        match (spec_block_text(ss.drop_last()), spec_stmt_text(ss.last())) {
            (Some(p), Some(x)) => Some(p + "    "@ + x + ";\n"@),
            _ => None,
        }
    }
}

pub fn varref_text(v: &VarRef) -> (res: String)
    ensures
        res@ == spec_varref_text(*v),
{
    let mut s = String::new();
    match v {
        VarRef::LocalVar { id } => {
            s.append("v_");
            write_decimal(&mut s, id.0);
        },
        VarRef::GlobalVar { id } => {
            s.append("id_");
            write_decimal(&mut s, id.id);
        },
    }
    s
}

pub fn lvalue_text(l: &LValue) -> (res: Result<String, InternalError>)
    ensures
        match spec_lvalue_text(*l) {
            Some(x) => res matches Ok(s) && s@ == x,
            None => res is Err,
        },
{
    match l {
        LValue::VarRef(v) => Ok(varref_text(v)),
        _ => Err(InternalError::msg("this place cannot be printed yet")),
    }
}

pub fn rvalue_text(r: &RValue) -> (res: Result<String, InternalError>)
    ensures
        match spec_rvalue_text(*r) {
            Some(x) => res matches Ok(s) && s@ == x,
            None => res is Err,
        },
    decreases r, 1nat,
{
    match r {
        RValue::NumLit(n, _) => Ok(usize_to_string(*n)),
        RValue::Value(l) => lvalue_text(l),
        RValue::ArrayInit(_) => Ok(String::from_str("[]")),
        RValue::Tuple(vals) => {
            let x = tuple_vals(vals, r)?;
            let mut s = String::new();
            s.append("{");
            s.append(x.as_str());
            s.append("}");
            Ok(s)
        },
        _ => Err(InternalError::msg("this value cannot be printed yet")),
    }
}

/// Where a prefix of a list cannot be printed, neither can the list.
proof fn lemma_tuple_vals_prefix(items: Seq<RValue>, k: int)
    requires
        0 <= k <= items.len(),
        spec_tuple_vals(items.subrange(0, k)) is None,
    ensures
        spec_tuple_vals(items) is None,
    decreases items.len() - k,
{
    if k < items.len() {
        let next = items.subrange(0, k + 1);
        assert(next.drop_last() =~= items.subrange(0, k));
        lemma_tuple_vals_prefix(items, k + 1);
    } else {
        assert(items.subrange(0, k) =~= items);
    }
}

fn tuple_vals(vs: &Vec<RValue>, parent: &RValue) -> (res: Result<String, InternalError>)
    requires
        decreases_to!(*parent => *vs),
    ensures
        match spec_tuple_vals(vs@) {
            Some(x) => res matches Ok(s) && s@ == x,
            None => res is Err,
        },
    decreases parent, 0nat,
{
    let mut acc = String::new();
    let n = vs.len();
    let mut i: usize = 0;
    assert(vs@.subrange(0, 0) =~= Seq::<RValue>::empty());
    while i < n
        invariant
            n == vs@.len(),
            i <= n,
            decreases_to!(*parent => *vs),
            spec_tuple_vals(vs@.subrange(0, i as int)) == Some(acc@),
        decreases n - i,
    {
        assert(decreases_to!(*vs => vs@[i as int])) by {
            assert(decreases_to!(*vs => vs@));
        }
        let ghost next = vs@.subrange(0, i + 1);
        assert(next.drop_last() =~= vs@.subrange(0, i as int));
        match rvalue_text(&vs[i]) {
            Ok(x) => {
                acc.append(".");
                let fname = field_name(i);
                acc.append(fname.as_str());
                acc.append(" = ");
                acc.append(x.as_str());
            },
            Err(e) => {
                proof {
                    lemma_tuple_vals_prefix(vs@, i + 1);
                }
                return Err(e);
            },
        }
        i = i + 1;
    }
    assert(vs@.subrange(0, n as int) =~= vs@);
    Ok(acc)
}

pub fn stmt_text(st: &Stmt) -> (res: Result<String, InternalError>)
    ensures
        match spec_stmt_text(*st) {
            Some(x) => res matches Ok(s) && s@ == x,
            None => res is Err,
        },
    decreases st,
{
    match st {
        Stmt::Return { expr, .. } => {
            let mut s = String::new();
            s.append("return ");
            let v = varref_text(expr);
            s.append(v.as_str());
            Ok(s)
        },
        Stmt::VarDecl { id, tp } => {
            let v = varref_text(&VarRef::LocalVar { id: *id });
            tp.with_name(v.as_str())
        },
        Stmt::If { pred, th, el, .. } => {
            let a = block_text(th)?;
            let b = block_text(el)?;
            let mut s = String::new();
            s.append("if (");
            let v = varref_text(pred);
            s.append(v.as_str());
            s.append(") {\n");
            s.append(a.as_str());
            s.append("} else {\n");
            s.append(b.as_str());
            s.append("}\n");
            Ok(s)
        },
        Stmt::Assign { lval, rval } => {
            let a = lvalue_text(lval)?;
            let b = rvalue_text(rval)?;
            let mut s = a;
            s.append(" = ");
            s.append(b.as_str());
            Ok(s)
        },
        Stmt::While { cond, body } => {
            let a = block_text(body)?;
            let mut s = String::new();
            s.append("while (");
            let v = varref_text(cond);
            s.append(v.as_str());
            s.append(") {\n");
            s.append(a.as_str());
            s.append("};\n");
            Ok(s)
        },
    }
}

/// Where a prefix of a block cannot be printed, neither can the block.
proof fn lemma_block_prefix(items: Seq<Stmt>, k: int)
    requires
        0 <= k <= items.len(),
        spec_block_text(items.subrange(0, k)) is None,
    ensures
        spec_block_text(items) is None,
    decreases items.len() - k,
{
    if k < items.len() {
        let next = items.subrange(0, k + 1);
        assert(next.drop_last() =~= items.subrange(0, k));
        lemma_block_prefix(items, k + 1);
    } else {
        assert(items.subrange(0, k) =~= items);
    }
}

/// Statements, one to a line, each indented and ended by a semicolon.
pub fn block_text(ss: &Vec<Stmt>) -> (res: Result<String, InternalError>)
    ensures
        match spec_block_text(ss@) {
            Some(x) => res matches Ok(s) && s@ == x,
            None => res is Err,
        },
    decreases ss,
{
    let mut acc = String::new();
    let n = ss.len();
    let mut i: usize = 0;
    assert(ss@.subrange(0, 0) =~= Seq::<Stmt>::empty());
    while i < n
        invariant
            n == ss@.len(),
            i <= n,
            spec_block_text(ss@.subrange(0, i as int)) == Some(acc@),
        decreases n - i,
    {
        assert(decreases_to!(ss => ss@[i as int])) by {
            assert(decreases_to!(ss => ss@));
        }
        let ghost next = ss@.subrange(0, i + 1);
        assert(next.drop_last() =~= ss@.subrange(0, i as int));
        match stmt_text(&ss[i]) {
            Ok(x) => {
                acc.append("    ");
                acc.append(x.as_str());
                acc.append(";\n");
            },
            Err(e) => {
                proof {
                    lemma_block_prefix(ss@, i + 1);
                }
                return Err(e);
            },
        }
        i = i + 1;
    }
    assert(ss@.subrange(0, n as int) =~= ss@);
    Ok(acc)
}

/// The parts one after the other; nothing if some part is missing.
pub open spec fn spec_concat_all(parts: Seq<Option<Seq<char>>>) -> Option<Seq<char>>
    decreases parts.len(),
{
    if parts.len() == 0 {
        Some(Seq::empty())
    } else {
        match (spec_concat_all(parts.drop_last()), parts.last()) {
            (Some(p), Some(x)) => Some(p + x),
            _ => None,
        }
    }
}

proof fn lemma_concat_all_step(parts: Seq<Option<Seq<char>>>, i: int)
    requires
        0 <= i < parts.len(),
    ensures
        spec_concat_all(parts.subrange(0, i + 1)) == match (spec_concat_all(parts.subrange(0, i)), parts[i]) {
            (Some(p), Some(x)) => Some(p + x),
            _ => None,
        },
{
    assert(parts.subrange(0, i + 1).drop_last() =~= parts.subrange(0, i));
}

proof fn lemma_concat_all_prefix(parts: Seq<Option<Seq<char>>>, k: int)
    requires
        0 <= k <= parts.len(),
        spec_concat_all(parts.subrange(0, k)) is None,
    ensures
        spec_concat_all(parts) is None,
    decreases parts.len() - k,
{
    if k < parts.len() {
        lemma_concat_all_step(parts, k);
        lemma_concat_all_prefix(parts, k + 1);
    } else {
        assert(parts.subrange(0, k) =~= parts);
    }
}

/// A line ended by a semicolon, if there is one.
pub open spec fn spec_semi(x: Option<Seq<char>>) -> Option<Seq<char>> {
    match x {
        Some(y) => Some(y + ";\n"@),
        None => None,
    }
}

/// How a builtin type of the given name is declared in C, up to its name.
pub open spec fn spec_builtin_typedef(name: Seq<char>) -> Option<Seq<char>> {
    if name == "never"@ {
        Some("typedef struct {} "@)
    } else if name == "bool"@ || name == "order"@ || name == "u8"@ {
        Some("typedef unsigned char "@)
    } else if name == "usize"@ {
        Some("typedef unsigned long int "@)
    } else if name == "i32"@ {
        Some("typedef int "@)
    } else {
        None
    }
}

/// The C integer type that a typedef declares, up to the declared name, on a target whose
/// `long` is 64 bits wide: whether it is signed, and its width in bits.
pub open spec fn spec_c_int_typedef(t: Seq<char>) -> Option<(bool, nat)> {
    if t == "typedef unsigned char "@ {
        Some((false, 8))
    } else if t == "typedef signed char "@ {
        Some((true, 8))
    } else if t == "typedef unsigned short "@ {
        Some((false, 16))
    } else if t == "typedef short "@ {
        Some((true, 16))
    } else if t == "typedef unsigned int "@ {
        Some((false, 32))
    } else if t == "typedef int "@ {
        Some((true, 32))
    } else if t == "typedef unsigned long int "@ {
        Some((false, 64))
    } else if t == "typedef long int "@ {
        Some((true, 64))
    } else {
        None
    }
}

/// A builtin numeric type that is declared in C becomes a C integer type of the same
/// signedness and width as its machine type.
pub proof fn lemma_typedef_keeps_sign_and_width(name: Seq<char>)
    ensures
        spec_builtin_type_id(name) matches Some(id) ==> (crate::tp::tvar::spec_builtin_primitive(id) matches Some(p) ==> (
        spec_builtin_typedef(name) matches Some(t) ==> spec_c_int_typedef(t) == Some((p.spec_signed(), p.spec_bits())))),
{
    reveal_strlit("never");
    reveal_strlit("bool");
    reveal_strlit("order");
    reveal_strlit("u8");
    reveal_strlit("usize");
    reveal_strlit("i32");
    reveal_strlit("typedef struct {} ");
    reveal_strlit("typedef unsigned char ");
    reveal_strlit("typedef signed char ");
    reveal_strlit("typedef unsigned short ");
    reveal_strlit("typedef short ");
    reveal_strlit("typedef unsigned int ");
    reveal_strlit("typedef int ");
    reveal_strlit("typedef unsigned long int ");
    reveal_strlit("typedef long int ");
    reveal_strlit("u16");
    reveal_strlit("u32");
    reveal_strlit("u64");
    reveal_strlit("i8");
    reveal_strlit("i16");
    reveal_strlit("i64");
    reveal_strlit("isize");
    if let Some(id) = spec_builtin_type_id(name) {
        if id == 3 {
            assert(name == "u8"@);
            assert(spec_builtin_typedef(name) == Some("typedef unsigned char "@));
            assert(spec_c_int_typedef("typedef unsigned char "@) == Some((false, 8nat)));
        } else if id == 4 {
            assert(name == "u16"@);
            assert("u16"@[0] != "i32"@[0]);
        } else if id == 5 {
            assert(name == "u32"@);
            assert("u32"@[0] != "i32"@[0]);
        } else if id == 6 {
            assert(name == "u64"@);
            assert("u64"@[0] != "i32"@[0]);
        } else if id == 7 {
            assert(name == "usize"@);
            assert("usize"@[0] != "never"@[0]);
            assert("usize"@[0] != "order"@[0]);
            assert(spec_builtin_typedef(name) == Some("typedef unsigned long int "@));
            assert("typedef unsigned long int "@.len() != "typedef unsigned char "@.len());
            assert("typedef unsigned long int "@.len() != "typedef signed char "@.len());
            assert("typedef unsigned long int "@.len() != "typedef unsigned short "@.len());
            assert("typedef unsigned long int "@.len() != "typedef short "@.len());
            assert("typedef unsigned long int "@.len() != "typedef unsigned int "@.len());
            assert("typedef unsigned long int "@.len() != "typedef int "@.len());
            assert(spec_c_int_typedef("typedef unsigned long int "@) == Some((false, 64nat)));
        } else if id == 8 {
            assert(name == "i8"@);
            assert("i8"@[0] != "u8"@[0]);
        } else if id == 9 {
            assert(name == "i16"@);
            assert("i16"@[1] != "i32"@[1]);
        } else if id == 10 {
            assert(name == "i32"@);
            assert(spec_builtin_typedef(name) == Some("typedef int "@));
            assert("typedef int "@.len() != "typedef unsigned char "@.len());
            assert("typedef int "@.len() != "typedef signed char "@.len());
            assert("typedef int "@.len() != "typedef unsigned short "@.len());
            assert("typedef int "@.len() != "typedef short "@.len());
            assert("typedef int "@.len() != "typedef unsigned int "@.len());
            assert(spec_c_int_typedef("typedef int "@) == Some((true, 32nat)));
        } else if id == 11 {
            assert(name == "i64"@);
            assert("i64"@[1] != "i32"@[1]);
        } else if id == 12 {
            assert(name == "isize"@);
            assert("isize"@[0] != "never"@[0]);
            assert("isize"@[0] != "order"@[0]);
            assert("isize"@[0] != "usize"@[0]);
        }
    }
}

/// The C declaration of the named type `tv`.
pub open spec fn spec_type_decl(st: SymTable, tv: usize) -> Option<Seq<char>> {
    if !st.tvar_map.has(tv) {
        None
    } else {
        match st.tvar_map.value(tv).kind {
            TypeKind::Builtin => match spec_builtin_typedef(st.tvar_map.value(tv).name@) {
                Some(p) => Some(p + spec_tvar_text(tv) + ";\n"@),
                None => None,
            },
            _ => Some("typedef struct "@ + spec_tvar_text(tv) + " "@ + spec_tvar_text(tv) + ";\n"@),
        }
    }
}

/// The members of a struct, one to a line.
pub open spec fn spec_struct_member_parts(fields: Seq<(String, (usize, Type))>) -> Seq<Option<Seq<char>>> {
    Seq::new(fields.len(), |i: int| spec_semi(spec_with_name(fields[i].1.1.ty(), fields[i].0@)))
}

/// The members of a constructor's struct, named by their positions.
pub open spec fn spec_arg_member_parts(args: Seq<Type>) -> Seq<Option<Seq<char>>> {
    Seq::new(args.len(), |i: int| spec_semi(spec_with_name(args[i].ty(), spec_field_name(i as nat))))
}

/// The member of an enum's union for the constructor declared with id `c`.
pub open spec fn spec_cons_member(st: SymTable, c: usize) -> Option<Seq<char>> {
    if st.node_map.has(c) {
        match st.node_map.value(c).kind {
            SymKind::EnumCons { id, args, .. } => match spec_concat_all(spec_arg_member_parts(args@)) {
                Some(m) => Some("struct {\n"@ + m + "} "@ + spec_field_name(id as nat) + ";\n"@),
                None => None,
            },
            _ => None,
        }
    } else {
        None
    }
}

pub open spec fn spec_cons_member_parts(st: SymTable, cons: Seq<(String, NodeID)>) -> Seq<Option<Seq<char>>> {
    Seq::new(cons.len(), |i: int| spec_cons_member(st, cons[i].1.id))
}

/// The C definition of the named type `tv`: nothing for a builtin, a struct for a struct,
/// and for an enum a struct of a tag and a union of its constructors.
pub open spec fn spec_type_def(st: SymTable, tv: usize) -> Option<Seq<char>> {
    if !st.tvar_map.has(tv) {
        None
    } else {
        match st.tvar_map.value(tv).kind {
            TypeKind::Builtin => Some(Seq::empty()),
            TypeKind::Struct { fields, .. } => match spec_concat_all(spec_struct_member_parts(fields.entries@)) {
                Some(m) => Some("struct "@ + spec_tvar_text(tv) + " {\n"@ + m + "};\n"@),
                None => None,
            },
            TypeKind::Enum { constructors, .. } => match spec_concat_all(spec_cons_member_parts(st, constructors.entries@)) {
                Some(m) => Some(
                    "struct "@ + spec_tvar_text(tv) + " {\n"@ + "int __id;\n"@ + "union {\n"@ + m + "} __data;\n"@ + "};\n"@,
                ),
                None => None,
            },
        }
    }
}

pub fn builtin_typedef(name: &str) -> (res: Result<String, InternalError>)
    ensures
        match spec_builtin_typedef(name@) {
            Some(x) => res matches Ok(s) && s@ == x,
            None => res is Err,
        },
{
    if crate::common::str_eq(name, "never") {
        Ok(String::from_str("typedef struct {} "))
    } else if crate::common::str_eq(name, "bool") || crate::common::str_eq(name, "order") || crate::common::str_eq(name, "u8") {
        Ok(String::from_str("typedef unsigned char "))
    } else if crate::common::str_eq(name, "usize") {
        Ok(String::from_str("typedef unsigned long int "))
    } else if crate::common::str_eq(name, "i32") {
        Ok(String::from_str("typedef int "))
    } else {
        Err(InternalError::msg("this builtin type cannot be printed"))
    }
}

fn tvar_text(tv: usize) -> (res: String)
    ensures
        res@ == spec_tvar_text(tv),
{
    let mut s = String::new();
    s.append("tv_");
    write_decimal(&mut s, tv);
    s
}

/// The C declaration of the named type `tv`.
pub fn type_decl(st: &SymTable, tv: usize) -> (res: Result<String, InternalError>)
    requires
        st.wf(),
    ensures
        match spec_type_decl(*st, tv) {
            Some(x) => res matches Ok(s) && s@ == x,
            None => res is Err,
        },
{
    let info = match st.tvar_map.get(tv) {
        Some(info) => info,
        None => {
            return Err(InternalError::msg("unknown type"));
        },
    };
    let n = tvar_text(tv);
    match &info.kind {
        TypeKind::Builtin => {
            let mut s = builtin_typedef(info.name.as_str())?;
            s.append(n.as_str());
            s.append(";\n");
            Ok(s)
        },
        _ => {
            let mut s = String::new();
            s.append("typedef struct ");
            s.append(n.as_str());
            s.append(" ");
            s.append(n.as_str());
            s.append(";\n");
            Ok(s)
        },
    }
}

fn struct_members(fields: &NameMap<(usize, Type)>) -> (res: Result<String, InternalError>)
    ensures
        match spec_concat_all(spec_struct_member_parts(fields.entries@)) {
            Some(x) => res matches Ok(s) && s@ == x,
            None => res is Err,
        },
{
    let ghost parts = spec_struct_member_parts(fields.entries@);
    let mut acc = String::new();
    let n = fields.entries.len();
    let mut i: usize = 0;
    assert(parts.subrange(0, 0) =~= Seq::<Option<Seq<char>>>::empty());
    while i < n
        invariant
            n == fields.entries@.len(),
            parts == spec_struct_member_parts(fields.entries@),
            i <= n,
            spec_concat_all(parts.subrange(0, i as int)) == Some(acc@),
        decreases n - i,
    {
        proof {
            lemma_concat_all_step(parts, i as int);
        }
        match fields.entries[i].1.1.with_name(fields.entries[i].0.as_str()) {
            Ok(x) => {
                acc.append(x.as_str());
                acc.append(";\n");
            },
            Err(e) => {
                proof {
                    lemma_concat_all_prefix(parts, i + 1);
                }
                return Err(e);
            },
        }
        i = i + 1;
    }
    assert(parts.subrange(0, n as int) =~= parts);
    Ok(acc)
}

fn arg_members(args: &Vec<Type>) -> (res: Result<String, InternalError>)
    ensures
        match spec_concat_all(spec_arg_member_parts(args@)) {
            Some(x) => res matches Ok(s) && s@ == x,
            None => res is Err,
        },
{
    let ghost parts = spec_arg_member_parts(args@);
    let mut acc = String::new();
    let n = args.len();
    let mut i: usize = 0;
    assert(parts.subrange(0, 0) =~= Seq::<Option<Seq<char>>>::empty());
    while i < n
        invariant
            n == args@.len(),
            parts == spec_arg_member_parts(args@),
            i <= n,
            spec_concat_all(parts.subrange(0, i as int)) == Some(acc@),
        decreases n - i,
    {
        proof {
            lemma_concat_all_step(parts, i as int);
        }
        let fname = field_name(i);
        match args[i].with_name(fname.as_str()) {
            Ok(x) => {
                acc.append(x.as_str());
                acc.append(";\n");
            },
            Err(e) => {
                proof {
                    lemma_concat_all_prefix(parts, i + 1);
                }
                return Err(e);
            },
        }
        i = i + 1;
    }
    assert(parts.subrange(0, n as int) =~= parts);
    Ok(acc)
}

fn cons_member(st: &SymTable, c: usize) -> (res: Result<String, InternalError>)
    requires
        st.wf(),
    ensures
        match spec_cons_member(*st, c) {
            Some(x) => res matches Ok(s) && s@ == x,
            None => res is Err,
        },
{
    let sym = match st.node_map.get(c) {
        Some(sym) => sym,
        None => {
            return Err(InternalError::msg("unknown constructor"));
        },
    };
    match &sym.kind {
        SymKind::EnumCons { id, args, .. } => {
            let m = arg_members(args)?;
            let mut s = String::new();
            s.append("struct {\n");
            s.append(m.as_str());
            s.append("} ");
            let fname = field_name(*id);
            s.append(fname.as_str());
            s.append(";\n");
            Ok(s)
        },
        _ => Err(InternalError::msg("a constructor that is not an enum constructor")),
    }
}

fn cons_members(st: &SymTable, cons: &NameMap<NodeID>) -> (res: Result<String, InternalError>)
    requires
        st.wf(),
    ensures
        match spec_concat_all(spec_cons_member_parts(*st, cons.entries@)) {
            Some(x) => res matches Ok(s) && s@ == x,
            None => res is Err,
        },
{
    let ghost parts = spec_cons_member_parts(*st, cons.entries@);
    let mut acc = String::new();
    let n = cons.entries.len();
    let mut i: usize = 0;
    assert(parts.subrange(0, 0) =~= Seq::<Option<Seq<char>>>::empty());
    while i < n
        invariant
            n == cons.entries@.len(),
            parts == spec_cons_member_parts(*st, cons.entries@),
            i <= n,
            st.wf(),
            spec_concat_all(parts.subrange(0, i as int)) == Some(acc@),
        decreases n - i,
    {
        proof {
            lemma_concat_all_step(parts, i as int);
        }
        match cons_member(st, cons.entries[i].1.id) {
            Ok(x) => {
                acc.append(x.as_str());
            },
            Err(e) => {
                proof {
                    lemma_concat_all_prefix(parts, i + 1);
                }
                return Err(e);
            },
        }
        i = i + 1;
    }
    assert(parts.subrange(0, n as int) =~= parts);
    Ok(acc)
}

/// The C definition of the named type `tv`.
pub fn type_def(st: &SymTable, tv: usize) -> (res: Result<String, InternalError>)
    requires
        st.wf(),
    ensures
        match spec_type_def(*st, tv) {
            Some(x) => res matches Ok(s) && s@ == x,
            None => res is Err,
        },
{
    let info = match st.tvar_map.get(tv) {
        Some(info) => info,
        None => {
            return Err(InternalError::msg("unknown type"));
        },
    };
    let n = tvar_text(tv);
    match &info.kind {
        TypeKind::Builtin => Ok(String::new()),
        TypeKind::Struct { fields, .. } => {
            let m = struct_members(fields)?;
            let mut s = String::new();
            s.append("struct ");
            s.append(n.as_str());
            s.append(" {\n");
            s.append(m.as_str());
            s.append("};\n");
            Ok(s)
        },
        TypeKind::Enum { constructors, .. } => {
            let m = cons_members(st, constructors)?;
            let mut s = String::new();
            s.append("struct ");
            s.append(n.as_str());
            s.append(" {\n");
            s.append("int __id;\n");
            s.append("union {\n");
            s.append(m.as_str());
            s.append("} __data;\n");
            s.append("};\n");
            Ok(s)
        },
    }
}

/// The parts separated by commas; nothing if some part is missing.
pub open spec fn spec_joined(parts: Seq<Option<Seq<char>>>) -> Option<Seq<char>>
    decreases parts.len(),
{
    if parts.len() == 0 {
        Some(Seq::empty())
    } else if parts.len() == 1 {
        parts[0]
    } else {
        match (spec_joined(parts.drop_last()), parts.last()) {
            (Some(p), Some(x)) => Some(p + ", "@ + x),
            _ => None,
        }
    }
}

proof fn lemma_joined_prefix(parts: Seq<Option<Seq<char>>>, k: int)
    requires
        1 <= k <= parts.len(),
        spec_joined(parts.subrange(0, k)) is None,
    ensures
        spec_joined(parts) is None,
    decreases parts.len() - k,
{
    if k < parts.len() {
        assert(parts.subrange(0, k + 1).drop_last() =~= parts.subrange(0, k));
        lemma_joined_prefix(parts, k + 1);
    } else {
        assert(parts.subrange(0, k) =~= parts);
    }
}

/// The arguments of a function declaration: their types, unnamed.
pub open spec fn spec_decl_arg_parts(args: Seq<(VarID, Type)>) -> Seq<Option<Seq<char>>> {
    Seq::new(args.len(), |i: int| spec_with_name(args[i].1.ty(), ""@))
}

/// The parameters of a function definition: their types and names.
pub open spec fn spec_param_parts(args: Seq<(VarID, Type)>) -> Seq<Option<Seq<char>>> {
    Seq::new(args.len(), |i: int| spec_with_name(args[i].1.ty(), spec_var_text(args[i].0.0)))
}

/// The C declaration of a function: under its id's name where its symbol is mangled.
pub open spec fn spec_fn_decl(st: SymTable, f: Func) -> Option<Seq<char>> {
    if !st.node_map.has(f.id.id) {
        None
    } else {
        let name = if st.node_map.value(f.id.id).mangle {
            spec_node_text(f.id.id)
        } else {
            f.name@
        };
        match (spec_with_name(f.ret_type.ty(), ""@), spec_joined(spec_decl_arg_parts(f.args@))) {
            (Some(r), Some(a)) => Some(r + " "@ + name + "("@ + a + ");\n"@),
            _ => None,
        }
    }
}

/// The C definition of a function, under its own name.
pub open spec fn spec_fn_impl(f: Func) -> Option<Seq<char>> {
    match (spec_with_name(f.ret_type.ty(), ""@), spec_joined(spec_param_parts(f.args@)), spec_block_text(f.body@)) {
        (Some(r), Some(p), Some(b)) => Some(r + " "@ + f.name@ + "("@ + p + ") {\n"@ + b + "}\n"@),
        _ => None,
    }
}

pub open spec fn spec_decl_parts(st: SymTable, order: Seq<usize>) -> Seq<Option<Seq<char>>> {
    Seq::new(order.len(), |i: int| spec_type_decl(st, order[i]))
}

pub open spec fn spec_def_parts(st: SymTable, order: Seq<usize>) -> Seq<Option<Seq<char>>> {
    Seq::new(order.len(), |i: int| spec_type_def(st, order[i]))
}

pub open spec fn spec_fn_decl_parts(st: SymTable, fs: Seq<Func>) -> Seq<Option<Seq<char>>> {
    Seq::new(fs.len(), |i: int| spec_fn_decl(st, fs[i]))
}

pub open spec fn spec_fn_impl_parts(fs: Seq<Func>) -> Seq<Option<Seq<char>>> {
    Seq::new(fs.len(), |i: int| spec_fn_impl(fs[i]))
}

/// The C text of a program whose named types come in the order `order`: the type
/// declarations, the type definitions, the function declarations, then the function
/// definitions.
pub open spec fn spec_program_text(st: SymTable, order: Seq<usize>, fs: Seq<Func>) -> Option<Seq<char>> {
    match (
        spec_concat_all(spec_decl_parts(st, order)),
        spec_concat_all(spec_def_parts(st, order)),
        spec_concat_all(spec_fn_decl_parts(st, fs)),
        spec_concat_all(spec_fn_impl_parts(fs)),
    ) {
        (Some(a), Some(b), Some(c), Some(d)) => Some(a + b + c + d),
        _ => None,
    }
}

/// The joined parts of a list of arguments; `named` gives each its variable's name.
fn args_joined(args: &Vec<(VarID, Type)>, named: bool) -> (res: Result<String, InternalError>)
    ensures
        match spec_joined(if named { spec_param_parts(args@) } else { spec_decl_arg_parts(args@) }) {
            Some(x) => res matches Ok(s) && s@ == x,
            None => res is Err,
        },
{
    let ghost parts = if named {
        spec_param_parts(args@)
    } else {
        spec_decl_arg_parts(args@)
    };
    let mut acc = String::new();
    let n = args.len();
    let mut i: usize = 0;
    assert(parts.subrange(0, 0) =~= Seq::<Option<Seq<char>>>::empty());
    while i < n
        invariant
            n == args@.len(),
            parts == (if named { spec_param_parts(args@) } else { spec_decl_arg_parts(args@) }),
            i <= n,
            spec_joined(parts.subrange(0, i as int)) == Some(acc@),
        decreases n - i,
    {
        let ghost next = parts.subrange(0, i + 1);
        assert(next.drop_last() =~= parts.subrange(0, i as int));
        let name = if named {
            varref_text(&VarRef::LocalVar { id: args[i].0 })
        } else {
            String::from_str("")
        };
        assert(parts[i as int] == spec_with_name(args@[i as int].1.ty(), name@));
        match args[i].1.with_name(name.as_str()) {
            Ok(x) => {
                if i > 0 {
                    acc.append(", ");
                } else {
                    assert(next =~= seq![parts[0]]);
                }
                acc.append(x.as_str());
            },
            Err(e) => {
                proof {
                    if i == 0 {
                        assert(next =~= seq![parts[0]]);
                    }
                    lemma_joined_prefix(parts, i + 1);
                }
                return Err(e);
            },
        }
        i = i + 1;
    }
    assert(parts.subrange(0, n as int) =~= parts);
    Ok(acc)
}

/// The C declaration of a function.
pub fn fn_decl(st: &SymTable, f: &Func) -> (res: Result<String, InternalError>)
    requires
        st.wf(),
    ensures
        match spec_fn_decl(*st, *f) {
            Some(x) => res matches Ok(s) && s@ == x,
            None => res is Err,
        },
{
    let info = match st.node_map.get(f.id.id) {
        Some(info) => info,
        None => {
            return Err(InternalError::msg("a function without a symbol"));
        },
    };
    let name = if info.mangle {
        varref_text(&VarRef::GlobalVar { id: f.id })
    } else {
        f.name.clone()
    };
    let r = f.ret_type.with_name("")?;
    let a = args_joined(&f.args, false)?;
    let mut s = r;
    s.append(" ");
    s.append(name.as_str());
    s.append("(");
    s.append(a.as_str());
    s.append(");\n");
    Ok(s)
}

/// The C definition of a function.
pub fn fn_impl(f: &Func) -> (res: Result<String, InternalError>)
    ensures
        match spec_fn_impl(*f) {
            Some(x) => res matches Ok(s) && s@ == x,
            None => res is Err,
        },
{
    let r = f.ret_type.with_name("")?;
    let p = args_joined(&f.args, true)?;
    let b = block_text(&f.body)?;
    let mut s = r;
    s.append(" ");
    s.append(f.name.as_str());
    s.append("(");
    s.append(p.as_str());
    s.append(") {\n");
    s.append(b.as_str());
    s.append("}\n");
    Ok(s)
}

/// One text for each of `items`, in order, from `each`'s kind: the declarations or the
/// definitions of the named types, or of the functions.
fn all_type_texts(st: &SymTable, order: &Vec<usize>, defs: bool) -> (res: Result<String, InternalError>)
    requires
        st.wf(),
    ensures
        match spec_concat_all(if defs { spec_def_parts(*st, order@) } else { spec_decl_parts(*st, order@) }) {
            Some(x) => res matches Ok(s) && s@ == x,
            None => res is Err,
        },
{
    let ghost parts = if defs {
        spec_def_parts(*st, order@)
    } else {
        spec_decl_parts(*st, order@)
    };
    let mut acc = String::new();
    let n = order.len();
    let mut i: usize = 0;
    assert(parts.subrange(0, 0) =~= Seq::<Option<Seq<char>>>::empty());
    while i < n
        invariant
            n == order@.len(),
            parts == (if defs { spec_def_parts(*st, order@) } else { spec_decl_parts(*st, order@) }),
            i <= n,
            st.wf(),
            spec_concat_all(parts.subrange(0, i as int)) == Some(acc@),
        decreases n - i,
    {
        proof {
            lemma_concat_all_step(parts, i as int);
        }
        let part = if defs {
            type_def(st, order[i])
        } else {
            type_decl(st, order[i])
        };
        match part {
            Ok(x) => {
                acc.append(x.as_str());
            },
            Err(e) => {
                proof {
                    lemma_concat_all_prefix(parts, i + 1);
                }
                return Err(e);
            },
        }
        i = i + 1;
    }
    assert(parts.subrange(0, n as int) =~= parts);
    Ok(acc)
}

fn all_fn_texts(st: &SymTable, fs: &Vec<Func>, impls: bool) -> (res: Result<String, InternalError>)
    requires
        st.wf(),
    ensures
        match spec_concat_all(if impls { spec_fn_impl_parts(fs@) } else { spec_fn_decl_parts(*st, fs@) }) {
            Some(x) => res matches Ok(s) && s@ == x,
            None => res is Err,
        },
{
    let ghost parts = if impls {
        spec_fn_impl_parts(fs@)
    } else {
        spec_fn_decl_parts(*st, fs@)
    };
    let mut acc = String::new();
    let n = fs.len();
    let mut i: usize = 0;
    assert(parts.subrange(0, 0) =~= Seq::<Option<Seq<char>>>::empty());
    while i < n
        invariant
            n == fs@.len(),
            parts == (if impls { spec_fn_impl_parts(fs@) } else { spec_fn_decl_parts(*st, fs@) }),
            i <= n,
            st.wf(),
            spec_concat_all(parts.subrange(0, i as int)) == Some(acc@),
        decreases n - i,
    {
        proof {
            lemma_concat_all_step(parts, i as int);
        }
        let part = if impls {
            fn_impl(&fs[i])
        } else {
            fn_decl(st, &fs[i])
        };
        match part {
            Ok(x) => {
                acc.append(x.as_str());
            },
            Err(e) => {
                proof {
                    lemma_concat_all_prefix(parts, i + 1);
                }
                return Err(e);
            },
        }
        i = i + 1;
    }
    assert(parts.subrange(0, n as int) =~= parts);
    Ok(acc)
}

/// The program as C text. The named types come in an order where each follows the types
/// its size depends on (those no such order can place are left out).
///
/// The error comes where the dependency graph cannot be built, and for what cannot be
/// printed yet.
pub fn emit_code(prog: Program) -> (res: Result<String, InternalError>)
    requires
        prog.sym_table.wf(),
    ensures
        res matches Ok(s) ==> exists|g: IdMap<Vec<usize>>, order: Seq<usize>, left: Seq<usize>|
            spec_dep_graph(prog.sym_table.tvar_map, prog.sym_table.node_map, g) && #[trigger] spec_topo_sorted(g, order, left)
                && spec_program_text(prog.sym_table, order, prog.functions@) == Some(s@),
        res is Err ==> (exists|k: usize|
            #[trigger] prog.sym_table.tvar_map.has(k) && !spec_parts_ok(prog.sym_table.tvar_map.value(k), prog.sym_table.node_map))
            || exists|g: IdMap<Vec<usize>>, order: Seq<usize>, left: Seq<usize>|
            spec_dep_graph(prog.sym_table.tvar_map, prog.sym_table.node_map, g) && #[trigger] spec_topo_sorted(g, order, left)
                && spec_program_text(prog.sym_table, order, prog.functions@) is None,
{
    let st = &prog.sym_table;
    let dep = make_dep_tree(&st.tvar_map, &st.node_map)?;
    let ghost g = dep;
    let (order, left) = topo_sort(dep);
    assert(spec_topo_sorted(g, order@, left@));
    let a = match all_type_texts(st, &order, false) {
        Ok(a) => a,
        Err(e) => {
            assert(spec_program_text(prog.sym_table, order@, prog.functions@) is None);
            return Err(e);
        },
    };
    let b = match all_type_texts(st, &order, true) {
        Ok(b) => b,
        Err(e) => {
            assert(spec_program_text(prog.sym_table, order@, prog.functions@) is None);
            return Err(e);
        },
    };
    let c = match all_fn_texts(st, &prog.functions, false) {
        Ok(c) => c,
        Err(e) => {
            assert(spec_program_text(prog.sym_table, order@, prog.functions@) is None);
            return Err(e);
        },
    };
    let d = match all_fn_texts(st, &prog.functions, true) {
        Ok(d) => d,
        Err(e) => {
            assert(spec_program_text(prog.sym_table, order@, prog.functions@) is None);
            return Err(e);
        },
    };
    let mut s = a;
    s.append(b.as_str());
    s.append(c.as_str());
    s.append(d.as_str());
    assert(spec_topo_sorted(g, order@, left@));
    Ok(s)
}

} // verus!
