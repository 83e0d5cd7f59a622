//! The syntax tree of a project as it was parsed.
//!
//! Some of the files might be undeclared; this is reported later on, when building
//! the module tree.
use vstd::prelude::*;

use crate::common::{Ident, Path, Position, RAttribute, Visibility};

verus! {

/// Program is a list of files implementing modules.
///
/// Each file has a „module path” in which it is declared.
/// `foo/bar/mod.mst` and `foo/bar.mst` are implementing the same module
/// with a path `[foo, bar]`.
#[derive(Debug)]
pub struct Program {
    pub file_map: FileMap,
}

/// The names of a module path.
pub open spec fn spec_path_names(p: Seq<String>) -> Seq<Seq<char>> {
    p.map_values(|s: String| s@)
}

/// The parsed files, by module path; each path occurs at most once.
#[derive(Debug)]
pub struct FileMap {
    pub entries: Vec<(Vec<String>, Module)>,
}

/// Whether two module paths are equal.
pub fn path_eq(a: &Vec<String>, b: &Vec<String>) -> (res: bool)
    ensures
        res == (spec_path_names(a@) == spec_path_names(b@)),
{
    if a.len() != b.len() {
        assert(spec_path_names(a@).len() != spec_path_names(b@).len());
        return false;
    }
    let n = a.len();
    let mut i: usize = 0;
    while i < n
        invariant
            n == a@.len(),
            n == b@.len(),
            i <= n,
            forall|j: int| 0 <= j < i ==> a@[j]@ == b@[j]@,
        decreases n - i,
    {
        if a[i] != b[i] {
            assert(spec_path_names(a@)[i as int] != spec_path_names(b@)[i as int]);
            return false;
        }
        i = i + 1;
    }
    assert(spec_path_names(a@) =~= spec_path_names(b@));
    true
}

impl FileMap {
    pub open spec fn paths(self) -> Seq<Seq<Seq<char>>> {
        self.entries@.map_values(|e: (Vec<String>, Module)| spec_path_names(e.0@))
    }

    pub open spec fn has(self, p: Seq<Seq<char>>) -> bool {
        self.paths().contains(p)
    }

    /// Each path has at most one module.
    pub open spec fn wf(self) -> bool {
        self.paths().no_duplicates()
    }

    pub fn new() -> (res: Self)
        ensures
            res.entries@.len() == 0,
            res.wf(),
    {
        FileMap { entries: Vec::new() }
    }

    /// Adds the module of a file; if the path already had one, it is replaced and handed back.
    pub fn insert(&mut self, path: Vec<String>, module: Module) -> (res: Option<Module>)
        requires
            old(self).wf(),
        ensures
            final(self).wf(),
            final(self).has(spec_path_names(path@)),
            old(self).has(spec_path_names(path@)) ==> exists|i: int|
                0 <= i < old(self).entries@.len()
                && #[trigger] old(self).paths()[i] == spec_path_names(path@)
                && res == Some(old(self).entries@[i].1)
                && final(self).entries@ == old(self).entries@.update(i, (path, module)),
            !old(self).has(spec_path_names(path@)) ==> res is None && final(self).entries@ == old(self).entries@.push((path, module)),
    {
        let ghost p = spec_path_names(path@);
        let n = self.entries.len();
        let mut i: usize = 0;
        while i < n
            invariant
                n == self.entries@.len(),
                self.entries@ == old(self).entries@,
                i <= n,
                forall|j: int| 0 <= j < i ==> #[trigger] self.paths()[j] != p,
                p == spec_path_names(path@),
                old(self).wf(),
            decreases n - i,
        {
            if path_eq(&self.entries[i].0, &path) {
                assert(self.paths()[i as int] == p);
                let ghost before = self.entries@;
                let (_, m) = self.entries.remove(i);
                self.entries.insert(i, (path, module));
                proof {
                    assert(self.entries@ =~= before.update(i as int, (path, module)));
                    assert(self.paths() =~= old(self).paths().update(i as int, p));
                    assert(old(self).paths().update(i as int, p) =~= old(self).paths());
                    assert(self.paths()[i as int] == p);
                }
                return Some(m);
            }
            i = i + 1;
        }
        assert(!self.has(p));
        self.entries.push((path, module));
        proof {
            assert(self.paths() =~= old(self).paths().push(p));
            assert(self.paths()[n as int] == p);
        }
        None
    }

    /// Takes out the module with the given path, which is then no longer there.
    pub fn remove(&mut self, path: &Vec<String>) -> (res: Option<Module>)
        ensures
            res is Some ==> final(self).entries@.len() == old(self).entries@.len() - 1,
            old(self).has(spec_path_names(path@)) <==> res is Some,
            res is None ==> final(self).entries@ == old(self).entries@,
            res is Some ==> exists|i: int|
                0 <= i < old(self).entries@.len()
                && #[trigger] old(self).paths()[i] == spec_path_names(path@)
                && res == Some(old(self).entries@[i].1)
                && final(self).entries@ == old(self).entries@.remove(i),
            old(self).wf() ==> final(self).wf() && !final(self).has(spec_path_names(path@)),
    {
        let ghost p = spec_path_names(path@);
        let n = self.entries.len();
        let mut i: usize = 0;
        while i < n
            invariant
                n == self.entries@.len(),
                self.entries@ == old(self).entries@,
                i <= n,
                forall|j: int| 0 <= j < i ==> #[trigger] self.paths()[j] != p,
                p == spec_path_names(path@),
            decreases n - i,
        {
            if path_eq(&self.entries[i].0, path) {
                assert(self.paths()[i as int] == p);
                let (_, m) = self.entries.remove(i);
                proof {
                    assert(self.paths() =~= old(self).paths().remove(i as int));
                    if old(self).wf() {
                        assert forall|j: int| 0 <= j < self.paths().len() implies self.paths()[j] != p by {
                            if j < i {
                                assert(old(self).paths()[j] != old(self).paths()[i as int]);
                            } else {
                                assert(old(self).paths()[j + 1] != old(self).paths()[i as int]);
                            }
                        }
                    }
                }
                return Some(m);
            }
            i = i + 1;
        }
        assert(!old(self).has(p)) by {
            assert(old(self).paths() == self.paths());
            assert(self.paths().len() == n);
        }
        None
    }
}

/// A module.
#[derive(Debug)]
pub struct Module {
    pub attributes: Vec<RAttribute>,
    pub visibility: Visibility,
    pub name: Ident,
    pub items: Vec<ModuleItem>,
    pub pos: Position,
}

/// Any item that can be declared inside of a module.
#[derive(Debug)]
pub enum ModuleItem {
    Module(Module),
    ModuleDecl(ModuleDecl),
    Import(Import),
    Func(Func),
    Struct(Struct),
    Enum(Enum),
    Error,
}

/// A declaration of a module implemented in a separate file.
#[derive(Debug)]
pub struct ModuleDecl {
    pub attributes: Vec<RAttribute>,
    pub visibility: Visibility,
    pub name: Ident,
    pub pos: Position,
}

/// Import of an item/items from another module/namespace.
#[derive(Debug)]
pub struct Import {
    pub visibility: Visibility,
    pub path: ImportPathNode,
    pub pos: Position,
}

/// Function declaration.
///
/// If return type is not specified, it defaults to `unit`.
/// Function body can be omitted for external and builtin functions.
#[derive(Debug)]
pub struct Func {
    pub attributes: Vec<RAttribute>,
    pub visibility: Visibility,
    pub name: Ident,
    pub args: Vec<FnArg>,
    pub ret_type: Option<RTypeNode>,
    pub body: Option<ExprNode>,
    pub pos: Position,
}

/// Declaration of structure type.
#[derive(Debug)]
pub struct Struct {
    pub attributes: Vec<RAttribute>,
    pub visibility: Visibility,
    pub name: Ident,
    pub fields: Vec<(Ident, RTypeNode)>,
    pub pos: Position,
    pub methods: Vec<Func>,
}

/// Declaration of enum type.
#[derive(Debug)]
pub struct Enum {
    pub attributes: Vec<RAttribute>,
    pub visibility: Visibility,
    pub name: Ident,
    pub constructors: Vec<Constructor>,
    pub pos: Position,
    pub methods: Vec<Func>,
}

/// Convenience wrapper for import path.
#[derive(Debug)]
pub struct ImportPathNode {
    pub pos: Position,
    pub data: ImportPathData,
}

/// A path used in import statement.
#[derive(Debug)]
pub enum ImportPathData {
    /// Glob import all items from a namespace.
    All,
    /// Import one item with an optional alias.
    Exact(Ident, Option<Ident>),
    /// Import many items from a namespace.
    Many(Vec<ImportPathNode>),
    /// A path node.
    Path(Ident, Box<ImportPathNode>),
}

/// An argument to a function.
#[derive(Debug)]
pub enum FnArg {
    Named { is_mut: bool, name: Ident, tp: RTypeNode, pos: Position },
    NSelf { is_mut: bool, pos: Position },
    PtrSelf(Position),
    MutPtrSelf(Position),
}

/// Constructor of an enum.
#[derive(Debug)]
pub enum Constructor {
    /// A tuple variant.
    Tuple { attributes: Vec<RAttribute>, name: Ident, pos: Position, params: Vec<RTypeNode> },
    /// A struct variant.
    Struct { attributes: Vec<RAttribute>, name: Ident, pos: Position, fields: Vec<(Ident, RTypeNode)> },
}

/// Convenience wrapper for expr.
#[derive(Debug)]
pub struct ExprNode {
    pub data: ExprData,
    pub pos: Position,
}

/// Expressions.
#[derive(Debug)]
pub enum ExprData {
    /// Parser error.
    Error,
    /// Access of a variable.
    Var(Path),
    /// Numeric literal.
    Number(usize),
    /// Character literal.
    Char(u8),
    /// String literal.
    String(String),
    /// Tuple.
    Tuple(Vec<ExprNode>),
    /// Function call. LHS is callable expression, RHS are arguments in order.
    FunCall(Box<ExprNode>, Vec<ExprNode>),
    /// Method call: the object, the name of the method, the arguments.
    MethodCall(Box<ExprNode>, Ident, Vec<ExprNode>),
    /// Field access to a struct type/variant.
    FieldAccess(Box<ExprNode>, Ident),
    /// Block of semicolon-separated expressions.
    ClosedBlock(Vec<ExprNode>),
    /// Block of semicolon-separated expressions and a last expression
    /// being the „return value” of the block.
    OpenBlock(Vec<ExprNode>, Box<ExprNode>),
    /// Return from the function early; without a value it returns `unit`.
    Return(Option<Box<ExprNode>>),
    /// Create a new variable, possibly mutable.
    Let { name: Ident, is_mut: bool, tp: Option<RTypeNode>, expr: Box<ExprNode> },
    /// Pattern matching on values.
    Match(Box<ExprNode>, Vec<MatchClause>),
    /// Get a pointer to value.
    Ref(Box<ExprNode>),
    /// Get a pointer to mutable value.
    RefMut(Box<ExprNode>),
    /// Dereference the pointer.
    Deref(Box<ExprNode>),
    /// If-then-else; without an else block it defaults to `unit`.
    If(Box<ExprNode>, Box<ExprNode>, Option<Box<ExprNode>>),
    /// While control statement.
    While(Box<ExprNode>, Box<ExprNode>),
    /// Struct type/variant constructor.
    StructCons(Path, Vec<(Ident, ExprNode)>),
    /// Assignment, (mut) LHS = RHS.
    Assign(Box<ExprNode>, Box<ExprNode>),
    /// Indexing into an array.
    IndexAccess(Box<ExprNode>, Box<ExprNode>),
    /// Conversion of a value to another type.
    Cast(Box<ExprNode>, RTypeNode),
    /// An array given element by element.
    ArrayInitExact(Vec<ExprNode>),
    /// An array of one value repeated.
    ArrayInitRepeat(Box<ExprNode>, usize),
}

/// A pattern matching clause: `<pattern> => expr`.
#[derive(Debug)]
pub struct MatchClause {
    pub pattern: PatternNode,
    pub expr: ExprNode,
    pub pos: Position,
}

/// Convenience wrapper for patterns.
#[derive(Debug)]
pub struct PatternNode {
    pub data: PatternData,
    pub pos: Position,
}

/// Pattern that can be matched against values.
#[derive(Debug)]
pub enum PatternData {
    /// `_` matches everything and discards the value.
    Wildcard,
    /// Match numeric literal.
    Number(usize),
    /// Match anything and bind it to a variable.
    Var(Ident),
    /// Match tuple.
    Tuple(Vec<PatternNode>),
    /// Match tuple variant constructor.
    TupleCons(Path, Vec<PatternNode>),
}

/// Convenience wrapper for raw types.
#[derive(Debug)]
pub struct RTypeNode {
    pub data: RTypeData,
    pub pos: Position,
}

/// Raw type annotation inserted by the user.
#[derive(Debug)]
pub enum RTypeData {
    /// Type represented by a specific name.
    Var(Path),
    /// A tuple.
    Tuple(Vec<RTypeNode>),
    /// An array with a compile-time known length.
    Array(usize, Box<RTypeNode>),
    /// An immutable pointer.
    Ptr(Box<RTypeNode>),
    /// A mutable pointer.
    MutPtr(Box<RTypeNode>),
    /// An immutable slice.
    Slice(Box<RTypeNode>),
    /// A mutable slice.
    MutSlice(Box<RTypeNode>),
    /// A function (pointer).
    Fun(Vec<RTypeNode>, Box<RTypeNode>),
    /// A type constructor applied to parameters.
    TypeApp(Path, Vec<RTypeNode>),
}

} // verus!
