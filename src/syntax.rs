//! The node tree handed over by the grammar engine, as plain values.
//!
//! Nodes live in one arena. A node's children are indices into that arena,
//! all greater than the node's own index, so every walk of the tree goes
//! strictly forward in the arena.
use vstd::prelude::*;

verus! {

/// The closed set of grammar rules that the builder understands.
#[derive(Clone, Copy, Debug, PartialEq, Eq, Structural)]
pub enum NodeKind {
    File,
    Eoi,
    Comment,
    Imacro,
    MacroArgs,
    Function,
    RetArg,
    FnArgs,
    Vararg,
    StructD,
    StructF,
    KeyPacked,
    Import,
    Importname,
    Importalias,
    Cimport,
    Local,
    LocalI,
    Qident,
    Istatic,
    Constant,
    KeyShared,
    Exported,
    KeyThreadLocal,
    KeyStatic,
    KeyAtomic,
    Ident,
    TypeName,
    NamedType,
    AnonType,
    Ptr,
    KeyMut,
    TagName,
    Array,
    Block,
    Expr,
    Lhs,
    Termish,
    Infix,
    Unarypre,
    Unarypost,
    Cast,
    PtrAccess,
    MemberAccess,
    ArrayAccess,
    NumberLiteral,
    StringLiteral,
    CharLiteral,
    Deref,
    Takeref,
    Call,
    CallArgs,
    ArrayInit,
    StructInit,
    StructInitField,
    MarkStm,
    Label,
    ContinueStm,
    BreakStm,
    GotoStm,
    ReturnStm,
    KeyReturn,
    IfStm,
    ElseifStm,
    ElseStm,
    ForStm,
    Semicolon,
    Vardecl,
    Assign,
    Assignop,
    /// A rule that carries only its text (an operator glyph, a key word).
    Other,
}

/// One grammar node: its rule, its byte range in the source, the source text
/// of that range, and its children in source order.
pub struct SyntaxNode {
    pub kind: NodeKind,
    pub start: usize,
    pub end: usize,
    pub text: String,
    pub children: Vec<usize>,
}

/// The arena of grammar nodes of one source file.
pub struct SyntaxTree {
    pub nodes: Vec<SyntaxNode>,
}

impl SyntaxTree {
    pub open spec fn len(&self) -> int {
        self.nodes@.len() as int
    }

    pub open spec fn node(&self, i: int) -> SyntaxNode {
        self.nodes@[i]
    }

    pub open spec fn kind(&self, i: int) -> NodeKind {
        self.nodes@[i].kind
    }

    pub open spec fn kids(&self, i: int) -> Seq<usize> {
        self.nodes@[i].children@
    }

    pub open spec fn text(&self, i: int) -> Seq<char> {
        self.nodes@[i].text@
    }

    /// Every child index points forward into the arena, and every span is
    /// ordered.
    pub open spec fn wf(&self) -> bool {
        forall|i: int, k: int|
            0 <= i < self.len() && 0 <= k < self.kids(i).len() ==> i < #[trigger] self.kids(i)[k]
                < self.len()
    }

    /// The `k`-th child of node `i`.
    pub fn child(&self, i: usize, k: usize) -> (r: usize)
        requires
            self.wf(),
            i < self.len(),
            k < self.kids(i as int).len(),
        ensures
            r == self.kids(i as int)[k as int],
            i < r < self.len(),
    {
        self.nodes[i].children[k]
    }

    /// Number of children of node `i`.
    pub fn n_kids(&self, i: usize) -> (r: usize)
        requires
            i < self.len(),
        ensures
            r == self.kids(i as int).len(),
    {
        self.nodes[i].children.len()
    }

    /// Rule of node `i`.
    pub fn kind_of(&self, i: usize) -> (r: NodeKind)
        requires
            i < self.len(),
        ensures
            r == self.kind(i as int),
    {
        self.nodes[i].kind
    }

    /// A copy of the source text of node `i`.
    pub fn text_of(&self, i: usize) -> (r: String)
        requires
            i < self.len(),
        ensures
            r@ == self.text(i as int),
    {
        self.nodes[i].text.clone()
    }
    /// Tells whether the tree is well formed.
    pub fn is_wf(&self) -> (r: bool)
        ensures
            r == self.wf(),
    {
        let n = self.nodes.len();
        let mut i: usize = 0;
        while i < n
            invariant
                n == self.len(),
                i <= n,
                forall|a: int, k: int|
                    0 <= a < i && 0 <= k < self.kids(a).len() ==> a < #[trigger] self.kids(a)[k] < self.len(),
            decreases n - i,
        {
            let m = self.nodes[i].children.len();
            let mut k: usize = 0;
            while k < m
                invariant
                    n == self.len(),
                    i < n,
                    m == self.kids(i as int).len(),
                    k <= m,
                    forall|a: int, b: int|
                        0 <= a < i && 0 <= b < self.kids(a).len() ==> a < #[trigger] self.kids(a)[b] < self.len(),
                    forall|b: int| 0 <= b < k ==> i < #[trigger] self.kids(i as int)[b] < self.len(),
                decreases m - k,
            {
                let c = self.nodes[i].children[k];
                if c <= i || c >= n {
                    assert(self.kids(i as int)[k as int] == c);
                    return false;
                }
                k = k + 1;
            }
            i = i + 1;
        }
        true
    }
}

/// The last of the first `k` nodes of `ks` with rule `kind`, if any.
pub open spec fn last_of_kind(tree: &SyntaxTree, ks: Seq<usize>, k: int, kind: NodeKind) -> Option<usize>
    decreases k,
{
    if k <= 0 || k > ks.len() {
        None
    } else if tree.kind(ks[k - 1] as int) == kind {
        Some(ks[k - 1])
    } else {
        last_of_kind(tree, ks, k - 1, kind)
    }
}

} // verus!
