//! The abstract syntax tree produced for one source file.
use vstd::prelude::*;
use crate::syntax::SyntaxTree;

verus! {

/// A source file and a byte range in it.
pub struct Location {
    pub file: String,
    pub start: usize,
    pub end: usize,
}

impl Location {
    /// This location is the span of node `i` of `tree`, in file `file`.
    pub open spec fn is_node(&self, tree: &SyntaxTree, file: Seq<char>, i: int) -> bool {
        &&& self.file@ == file
        &&& self.start == tree.node(i).start
        &&& self.end == tree.node(i).end
    }

    /// The location of node `i` of `tree`, in file `file`.
    pub fn of_node(tree: &SyntaxTree, file: &String, i: usize) -> (r: Location)
        requires
            i < tree.len(),
        ensures
            r.is_node(tree, file@, i as int),
    {
        Location { file: file.clone(), start: tree.nodes[i].start, end: tree.nodes[i].end }
    }
}

/// A name made of `::`-separated parts.
pub struct Name {
    pub parts: Vec<String>,
}

/// One attribute: key, value (empty when none was written) and where it stands.
pub struct Tag {
    pub key: String,
    pub value: String,
    pub loc: Location,
}

/// Attributes in the order they were written; a key may occur more than once.
pub struct Tags {
    pub entries: Vec<Tag>,
}

/// One level of indirection, with the attributes written for it.
pub struct Pointer {
    pub tags: Tags,
    pub loc: Location,
}

/// A type usage: its name and its pointer levels, in written order.
pub struct Typed {
    pub name: Name,
    pub loc: Location,
    pub ptr: Vec<Pointer>,
}

/// A type usage that declares a name, with the attributes that follow the
/// last pointer level.
pub struct TypedName {
    pub name: String,
    pub typed: Typed,
    pub tags: Tags,
}

/// A function parameter.
pub struct NamedArg {
    pub name: String,
    pub typed: Typed,
    pub tags: Tags,
    pub loc: Location,
}

/// A function's return slot.
pub struct AnonArg {
    pub typed: Typed,
}

/// A struct field, with its optional array size.
pub struct Field {
    pub name: String,
    pub typed: Typed,
    pub tags: Tags,
    pub array: Option<Expression>,
    pub loc: Location,
}

#[derive(Clone, Copy, Debug, PartialEq, Eq, Structural)]
pub enum Visibility {
    /// Private to the module.
    Object,
    /// Visible to the other modules of the same build unit.
    Shared,
    /// Visible outside the build unit.
    Export,
}

#[derive(Clone, Copy, Debug, PartialEq, Eq, Structural)]
pub enum Storage {
    Static,
    ThreadLocal,
    Atomic,
}

pub enum Def {
    Function { ret: Option<AnonArg>, args: Vec<NamedArg>, vararg: bool, body: Block },
    Macro { args: Vec<String>, body: Block },
    Struct { fields: Vec<Field>, packed: bool },
    Static { tags: Tags, storage: Storage, mutable: bool, typed: Typed, expr: Expression },
    Const { typed: Typed, expr: Expression },
}

/// One top-level declaration.
pub struct Local {
    pub name: String,
    pub export_as: Option<String>,
    pub vis: Visibility,
    pub loc: Location,
    pub def: Def,
}

/// One import: the imported path, an alias, and the names bound locally,
/// each with an optional rename.
pub struct Import {
    pub name: Name,
    pub alias: Option<String>,
    pub local: Vec<(String, Option<String>)>,
    pub vis: Visibility,
    pub loc: Location,
}

/// What one source file declares.
pub struct Module {
    pub source: String,
    pub sources: Vec<String>,
    pub name: Name,
    pub locals: Vec<Local>,
    pub imports: Vec<Import>,
}

pub enum Expression {
    Name(Typed),
    Literal { loc: Location, v: String },
    Call { loc: Location, name: Typed, args: Vec<Box<Expression>> },
    MemberAccess { loc: Location, lhs: Box<Expression>, op: String, rhs: String },
    ArrayAccess { loc: Location, lhs: Box<Expression>, rhs: Box<Expression> },
    UnaryPre { loc: Location, op: String, expr: Box<Expression> },
    UnaryPost { loc: Location, op: String, expr: Box<Expression> },
    Cast { loc: Location, into: Typed, expr: Box<Expression> },
    ArrayInit { loc: Location, fields: Vec<Box<Expression>> },
    StructInit { loc: Location, typed: Typed, fields: Vec<(String, Box<Expression>)> },
    /// A chain of binary operators whose precedence is not yet resolved.
    InfixOperation {
        loc: Location,
        lhs: Box<Expression>,
        rhs: Vec<((String, Location), Box<Expression>)>,
    },
}

impl Expression {
    /// Where the expression stands in the source.
    pub open spec fn loc(&self) -> Location {
        match self {
            Expression::Name(t) => t.loc,
            Expression::Literal { loc, .. } => *loc,
            Expression::Call { loc, .. } => *loc,
            Expression::MemberAccess { loc, .. } => *loc,
            Expression::ArrayAccess { loc, .. } => *loc,
            Expression::UnaryPre { loc, .. } => *loc,
            Expression::UnaryPost { loc, .. } => *loc,
            Expression::Cast { loc, .. } => *loc,
            Expression::ArrayInit { loc, .. } => *loc,
            Expression::StructInit { loc, .. } => *loc,
            Expression::InfixOperation { loc, .. } => *loc,
        }
    }
}

pub enum Statement {
    Mark { loc: Location, lhs: Expression, key: String, value: String },
    Label { loc: Location, label: String },
    Continue { loc: Location },
    Break { loc: Location },
    Goto { loc: Location, label: String },
    Block(Box<Block>),
    Return { loc: Location, expr: Option<Expression> },
    Expr { loc: Location, expr: Expression },
    /// One arm of a conditional: `if`, `else if` or `else`.
    Cond { op: String, expr: Option<Expression>, body: Block },
    For {
        e1: Option<Box<Statement>>,
        e2: Option<Box<Statement>>,
        e3: Option<Box<Statement>>,
        body: Block,
    },
    Var {
        loc: Location,
        typed: Typed,
        name: String,
        tags: Tags,
        array: Option<Expression>,
        assign: Option<Expression>,
    },
    Assign { loc: Location, lhs: Expression, op: String, rhs: Expression },
}

/// Statements in source order, and the empty location at the closing brace.
pub struct Block {
    pub statements: Vec<Statement>,
    pub end: Location,
}

#[derive(Clone, Copy, Debug, PartialEq, Eq, Structural)]
pub enum ErrorKind {
    /// A static variable declared `shared` or `export`.
    StaticVisibility,
    /// A constant with an export rename.
    ConstExportRename,
    /// Attributes on a type that declares no name (a cast, a struct
    /// initializer, a return slot, a constant).
    AnonymousTags,
    /// A declaration whose last part is not a name.
    ExpectedName,
    /// A node that the builder does not expect where it stands: the grammar
    /// and the builder disagree.
    Unexpected,
}

/// Why a file could not be turned into a module.
pub struct SyntaxError {
    pub kind: ErrorKind,
    pub loc: Location,
    pub message: String,
}

} // verus!

verus! {

impl SyntaxError {
    /// A node that the builder does not expect where it stands.
    pub fn unexpected(tree: &SyntaxTree, file: &String, c: usize) -> (r: SyntaxError)
        requires
            c < tree.len(),
        ensures
            r.kind == ErrorKind::Unexpected,
            r.loc.is_node(tree, file@, c as int),
    {
        SyntaxError {
            kind: ErrorKind::Unexpected,
            loc: Location::of_node(tree, file, c),
            message: "unexpected node".to_owned(),
        }
    }
}

impl Location {
    /// A copy of this location.
    pub fn clone_loc(&self) -> (r: Location)
        ensures
            r.file@ == self.file@,
            r.start == self.start,
            r.end == self.end,
    {
        Location { file: self.file.clone(), start: self.start, end: self.end }
    }
}

} // verus!
