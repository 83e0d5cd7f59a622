use vstd::prelude::*;

use crate::common::{concat, spec_decimal, string_of, usize_to_string, Position};
use crate::error::diagnostic::{labelled_error, spec_labelled_error, Diagnostic};
use crate::tp::model::{in_range, show, zonk};
use crate::tp::uvar::UVarStore;
use crate::tp::Type;

verus! {

/// How a type is printed, as the store makes it.
pub open spec fn spec_shown(store: UVarStore, t: Type) -> Seq<char> {
    show(store.model(), zonk(store.model(), t.ty()))
}

pub fn type_mismatch(pos: &Position, exp: &Type, got: &Type, store: &UVarStore) -> (res: Diagnostic)
    requires
        store.wf(),
        in_range(store.model(), exp.ty()),
        in_range(store.model(), got.ty()),
    ensures
        spec_labelled_error(res, *pos, "Type mismatch. Expected: "@ + spec_shown(*store, *exp) + ", Got: "@ + spec_shown(*store, *got)),
{
    let mut m = string_of("Type mismatch. Expected: ");
    m.append(exp.to_string(store).as_str());
    m.append(", Got: ");
    m.append(got.to_string(store).as_str());
    labelled_error(pos, m)
}

pub fn expected_mutable(pos: &Position) -> (res: Diagnostic)
    ensures
        spec_labelled_error(res, *pos, "cannot assign to immutable variable"@),
{
    labelled_error(pos, string_of("cannot assign to immutable variable"))
}

pub fn not_a_function(pos: &Position) -> (res: Diagnostic)
    ensures
        spec_labelled_error(res, *pos, "it's not a function and cannot be called"@),
{
    labelled_error(pos, string_of("it's not a function and cannot be called"))
}

pub fn missing_argument(pos: &Position, id: usize, tp: &Type, store: &UVarStore) -> (res: Diagnostic)
    requires
        store.wf(),
        in_range(store.model(), tp.ty()),
    ensures
        spec_labelled_error(res, *pos, "missing arg #"@ + spec_decimal(id as nat) + " of type "@ + spec_shown(*store, *tp)),
{
    let mut m = string_of("missing arg #");
    m.append(usize_to_string(id).as_str());
    m.append(" of type ");
    m.append(tp.to_string(store).as_str());
    labelled_error(pos, m)
}

pub fn unexpected_argument(id: usize, pos: &Position) -> (res: Diagnostic)
    ensures
        spec_labelled_error(res, *pos, "unexpected arg #"@ + spec_decimal(id as nat)),
{
    labelled_error(pos, concat("unexpected arg #", usize_to_string(id).as_str()))
}

pub fn no_such_field(field_name: &String, tp: &Type, pos: &Position, store: &UVarStore) -> (res: Diagnostic)
    requires
        store.wf(),
        in_range(store.model(), tp.ty()),
    ensures
        spec_labelled_error(res, *pos, "no field named "@ + field_name@ + " on type "@ + spec_shown(*store, *tp)),
{
    let mut m = string_of("no field named ");
    m.append(field_name.as_str());
    m.append(" on type ");
    m.append(tp.to_string(store).as_str());
    labelled_error(pos, m)
}

pub fn missing_field(pos: &Position, f_name: &String, f_type: &Type, store: &UVarStore) -> (res: Diagnostic)
    requires
        store.wf(),
        in_range(store.model(), f_type.ty()),
    ensures
        spec_labelled_error(res, *pos, "missing field `"@ + f_name@ + "` of type "@ + spec_shown(*store, *f_type)),
{
    let mut m = string_of("missing field `");
    m.append(f_name.as_str());
    m.append("` of type ");
    m.append(f_type.to_string(store).as_str());
    labelled_error(pos, m)
}

pub fn unbound_field(pos: &Position, f_name: &String) -> (res: Diagnostic)
    ensures
        spec_labelled_error(res, *pos, "unbound field `"@ + f_name@ + "`"@),
{
    labelled_error(pos, concat(concat("unbound field `", f_name.as_str()).as_str(), "`"))
}

pub fn unbound_method(pos: &Position, method_name: &String) -> (res: Diagnostic)
    ensures
        spec_labelled_error(res, *pos, "unbound method `"@ + method_name@ + "`"@),
{
    labelled_error(pos, concat(concat("unbound method `", method_name.as_str()).as_str(), "`"))
}

pub fn unsolved_uvar(pos: &Position, tp: &Type, store: &UVarStore) -> (res: Diagnostic)
    requires
        store.wf(),
        in_range(store.model(), tp.ty()),
    ensures
        spec_labelled_error(res, *pos, "unsolved unification variable `"@ + spec_shown(*store, *tp) + "`"@),
{
    labelled_error(pos, concat(concat("unsolved unification variable `", tp.to_string(store).as_str()).as_str(), "`"))
}

pub fn cannot_infer_type(pos: &Position) -> (res: Diagnostic)
    ensures
        spec_labelled_error(res, *pos, "cannot infer type, please annotate"@),
{
    labelled_error(pos, string_of("cannot infer type, please annotate"))
}

pub fn not_yet_supported(pos: &Position) -> (res: Diagnostic)
    ensures
        spec_labelled_error(res, *pos, "not yet supported"@),
{
    labelled_error(pos, string_of("not yet supported"))
}

pub fn unsized_type(pos: &Position) -> (res: Diagnostic)
    ensures
        spec_labelled_error(res, *pos, "this type has infinite size"@),
{
    labelled_error(pos, string_of("this type has infinite size"))
}

} // verus!
