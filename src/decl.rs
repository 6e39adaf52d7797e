//! Top-level declarations and the module they make up.
use vstd::prelude::*;
use crate::ast::{
    AnonArg, Def, ErrorKind, Expression, Field, Import, Local, Location, Module, Name, NamedArg,
    Storage, SyntaxError, TypedName, Visibility,
};
use crate::expr::{anon_ok, expr_is, expr_ok, in_tree, parse_expr};
use crate::stmt::{block_is, block_ok, parse_block};
use crate::syntax::{last_of_kind, NodeKind, SyntaxTree};
use crate::types::{chain, named_type_ok, parse_anon_type, parse_named_type, tag_is_node, tags_are, type_parts, typed_is};
use crate::ZZParser;

verus! {

/// The text views of an optional string.
pub open spec fn opt_view(o: Option<String>) -> Option<Seq<char>> {
    match o {
        Some(s) => Some(s@),
        None => None,
    }
}

/// The visibility that the parts `ks` declare: the last `shared` or
/// `export` keyword wins; without one, the declaration is private.
pub open spec fn vis_of(tree: &SyntaxTree, ks: Seq<usize>) -> Visibility
    decreases ks.len(),
{
    if ks.len() == 0 {
        Visibility::Object
    } else {
        let k = tree.kind(ks.last() as int);
        if k == NodeKind::KeyShared {
            Visibility::Shared
        } else if k == NodeKind::Exported {
            Visibility::Export
        } else {
            vis_of(tree, ks.drop_last())
        }
    }
}

/// The export rename that the parts `ks` declare, if any: the name inside
/// the last `export` keyword that carries one.
pub open spec fn export_of(tree: &SyntaxTree, ks: Seq<usize>) -> Option<Seq<char>>
    decreases ks.len(),
{
    if ks.len() == 0 {
        None
    } else {
        let c = ks.last() as int;
        if tree.kind(c) == NodeKind::Exported && tree.kids(c).len() > 0 {
            Some(tree.text(tree.kids(c).last() as int))
        } else {
            export_of(tree, ks.drop_last())
        }
    }
}

/// The storage class that the parts `ks` declare: the last storage keyword
/// wins; without one, it is `Static`.
pub open spec fn storage_of(tree: &SyntaxTree, ks: Seq<usize>) -> Storage
    decreases ks.len(),
{
    if ks.len() == 0 {
        Storage::Static
    } else {
        let k = tree.kind(ks.last() as int);
        if k == NodeKind::KeyThreadLocal {
            Storage::ThreadLocal
        } else if k == NodeKind::KeyAtomic {
            Storage::Atomic
        } else if k == NodeKind::KeyStatic {
            Storage::Static
        } else {
            storage_of(tree, ks.drop_last())
        }
    }
}

/// One of the parts `ks` has rule `k`.
pub open spec fn has_kind(tree: &SyntaxTree, ks: Seq<usize>, k: NodeKind) -> bool {
    exists|j: int| 0 <= j < ks.len() && tree.kind(#[trigger] ks[j] as int) == k
}

/// Number of the parts `ks` with rule `k`.
pub open spec fn count_kind(tree: &SyntaxTree, ks: Seq<usize>, k: NodeKind) -> nat {
    ks.filter(|c: usize| tree.kind(c as int) == k).len()
}

/// `name` is the text of a name among the parts `ks`.
pub open spec fn named_by(name: String, tree: &SyntaxTree, file: Seq<char>, ks: Seq<usize>) -> bool {
    exists|j: int|
        0 <= j < ks.len() && tree.kind(#[trigger] ks[j] as int) == NodeKind::Ident && name@ == tree.text(
            ks[j] as int,
        )
}

/// The declared name of a static or constant node `c`: the name of its
/// typed part.
pub open spec fn static_named(name: String, tree: &SyntaxTree, c: int) -> bool {
    exists|j: int|
        0 <= j < tree.kids(c).len() && tree.kind(#[trigger] tree.kids(c)[j] as int)
            == NodeKind::NamedType && name@ == tree.text(tree.kids(tree.kids(c)[j] as int).last() as int)
}

/// Some part of `ks` is a `shared` or `export` keyword.
pub open spec fn declares_visibility(tree: &SyntaxTree, ks: Seq<usize>) -> bool {
    has_kind(tree, ks, NodeKind::KeyShared) || has_kind(tree, ks, NodeKind::Exported)
}

/// Some part of `ks` is an `export` keyword that carries a rename.
pub open spec fn declares_rename(tree: &SyntaxTree, ks: Seq<usize>) -> bool {
    exists|j: int|
        0 <= j < ks.len() && tree.kind(#[trigger] ks[j] as int) == NodeKind::Exported && tree.kids(
            ks[j] as int,
        ).len() > 0
}

/// Part `d` is `shared`, or `export` with at most names inside.
pub open spec fn vis_part_ok(tree: &SyntaxTree, d: int) -> bool {
    ||| tree.kind(d) == NodeKind::KeyShared
    ||| tree.kind(d) == NodeKind::Exported && forall|m: int|
        0 <= m < tree.kids(d).len() ==> tree.kind(#[trigger] tree.kids(d)[m] as int) == NodeKind::Ident
}

/// Part `d` of a function declaration is well formed.
pub open spec fn fn_part_ok(tree: &SyntaxTree, d: int) -> bool {
    let k = tree.kind(d);
    let ks = tree.kids(d);
    ||| vis_part_ok(tree, d)
    ||| k == NodeKind::Ident
    ||| k == NodeKind::Block && block_ok(tree, d)
    ||| k == NodeKind::RetArg && ks.len() == 1 && anon_ok(tree, ks[0] as int)
    ||| k == NodeKind::FnArgs && forall|m: int|
        0 <= m < ks.len() ==> (tree.kind(#[trigger] ks[m] as int) == NodeKind::Vararg || named_type_ok(
            tree,
            ks[m] as int,
        ))
}

/// Part `d` of a macro declaration is well formed.
pub open spec fn macro_part_ok(tree: &SyntaxTree, d: int) -> bool {
    let k = tree.kind(d);
    ||| vis_part_ok(tree, d)
    ||| k == NodeKind::Ident
    ||| k == NodeKind::MacroArgs
    ||| k == NodeKind::Block && block_ok(tree, d)
}

/// Node `f` is a well-formed struct field.
pub open spec fn field_ok(tree: &SyntaxTree, f: int) -> bool {
    let ks = tree.kids(f);
    &&& 1 <= ks.len() <= 2
    &&& named_type_ok(tree, ks[0] as int)
    &&& ks.len() == 2 ==> tree.kids(ks[1] as int).len() == 1 && expr_ok(tree, tree.kids(ks[1] as int)[0] as int)
}

/// Part `d` of a struct declaration is well formed.
pub open spec fn struct_part_ok(tree: &SyntaxTree, d: int) -> bool {
    let k = tree.kind(d);
    ||| vis_part_ok(tree, d)
    ||| k == NodeKind::Ident
    ||| k == NodeKind::KeyPacked
    ||| k == NodeKind::StructF && field_ok(tree, d)
}

/// Part `d` of a static (`is_static`) or constant declaration is well formed.
pub open spec fn static_part_ok(tree: &SyntaxTree, is_static: bool, d: int) -> bool {
    let k = tree.kind(d);
    ||| k == NodeKind::KeyThreadLocal || k == NodeKind::KeyStatic || k == NodeKind::KeyAtomic
    ||| k == NodeKind::KeyMut && is_static
    ||| vis_part_ok(tree, d)
    ||| k == NodeKind::NamedType && named_type_ok(tree, d)
    ||| k == NodeKind::Expr && expr_ok(tree, d)
}

/// Part `d` of an import is well formed.
pub open spec fn import_part_ok(tree: &SyntaxTree, d: int) -> bool {
    let k = tree.kind(d);
    ||| k == NodeKind::Importname && importname_upto(tree, d, tree.kids(d).len() as int)
    ||| k == NodeKind::Exported
    ||| k == NodeKind::Importalias && tree.kids(d).len() >= 1
}

/// Node `c` holds a well-formed top-level declaration or import: every part
/// is well formed, and it has exactly one name and body where it needs them.
/// A static declares no visibility, and a constant no export rename and no
/// attributes.
pub open spec fn decl_ok(tree: &SyntaxTree, c: int) -> bool {
    let k = tree.kind(c);
    let ks = tree.kids(c);
    &&& in_tree(tree, c)
    &&& if k == NodeKind::Function {
        &&& forall|j: int| 0 <= j < ks.len() ==> fn_part_ok(tree, #[trigger] ks[j] as int)
        &&& count_kind(tree, ks, NodeKind::Ident) == 1
        &&& count_kind(tree, ks, NodeKind::Block) == 1
    } else if k == NodeKind::Imacro {
        &&& forall|j: int| 0 <= j < ks.len() ==> macro_part_ok(tree, #[trigger] ks[j] as int)
        &&& count_kind(tree, ks, NodeKind::Ident) == 1
        &&& count_kind(tree, ks, NodeKind::Block) == 1
    } else if k == NodeKind::StructD {
        &&& forall|j: int| 0 <= j < ks.len() ==> struct_part_ok(tree, #[trigger] ks[j] as int)
        &&& count_kind(tree, ks, NodeKind::Ident) == 1
    } else if k == NodeKind::Istatic || k == NodeKind::Constant {
        &&& static_shape_ok(tree, c)
        &&& k == NodeKind::Constant ==> forall|j: int|
            0 <= j < ks.len() && tree.kind(#[trigger] ks[j] as int) == NodeKind::NamedType ==> chain(
                tree,
                type_parts(tree, ks[j] as int, true),
            ).1.len() == 0
    } else if k == NodeKind::Import {
        &&& forall|j: int| 0 <= j < ks.len() ==> import_part_ok(tree, #[trigger] ks[j] as int)
        &&& has_kind(tree, ks, NodeKind::Importname)
    } else {
        false
    }
}

/// A static or constant node `c` has the right parts, one typed name and
/// one initializer; a static declares no visibility and a constant no
/// export rename.
pub open spec fn static_shape_ok(tree: &SyntaxTree, c: int) -> bool {
    let ks = tree.kids(c);
    let is_static = tree.kind(c) == NodeKind::Istatic;
    &&& is_static ==> !declares_visibility(tree, ks)
    &&& !is_static ==> !declares_rename(tree, ks)
    &&& forall|j: int| 0 <= j < ks.len() ==> static_part_ok(tree, is_static, #[trigger] ks[j] as int)
    &&& count_kind(tree, ks, NodeKind::NamedType) == 1
    &&& count_kind(tree, ks, NodeKind::Expr) == 1
}

/// Node `d` is a `shared` or `export` keyword.
pub open spec fn is_visibility_part(tree: &SyntaxTree, d: int) -> bool {
    tree.kind(d) == NodeKind::KeyShared || tree.kind(d) == NodeKind::Exported
}

/// Node `d` is an `export` keyword with a rename.
pub open spec fn is_rename_part(tree: &SyntaxTree, d: int) -> bool {
    tree.kind(d) == NodeKind::Exported && tree.kids(d).len() > 0
}

/// `e` is the error that node `c` raises where it is a static or a
/// constant: at the first visibility keyword of a static; at the first
/// export rename of a constant; otherwise, for a constant that is well
/// formed but for attributes on its type, at the first of those.
pub open spec fn static_error_is(e: SyntaxError, tree: &SyntaxTree, file: Seq<char>, c: int) -> bool {
    let ks = tree.kids(c);
    &&& tree.kind(c) == NodeKind::Istatic && declares_visibility(tree, ks) ==> {
        &&& e.kind == ErrorKind::StaticVisibility
        &&& exists|j: int|
            0 <= j < ks.len() && is_visibility_part(tree, #[trigger] ks[j] as int) && e.loc.is_node(
                tree,
                file,
                ks[j] as int,
            ) && forall|m: int| 0 <= m < j ==> !is_visibility_part(tree, #[trigger] ks[m] as int)
    }
    &&& tree.kind(c) == NodeKind::Constant && declares_rename(tree, ks) ==> {
        &&& e.kind == ErrorKind::ConstExportRename
        &&& exists|j: int|
            0 <= j < ks.len() && is_rename_part(tree, #[trigger] ks[j] as int) && e.loc.is_node(
                tree,
                file,
                ks[j] as int,
            ) && forall|m: int| 0 <= m < j ==> !is_rename_part(tree, #[trigger] ks[m] as int)
    }
    &&& tree.kind(c) == NodeKind::Constant && static_shape_ok(tree, c) ==> forall|j: int|
        0 <= j < ks.len() && tree.kind(#[trigger] ks[j] as int) == NodeKind::NamedType && chain(
            tree,
            type_parts(tree, ks[j] as int, true),
        ).1.len() > 0 ==> {
            &&& e.kind == ErrorKind::AnonymousTags
            &&& e.loc.is_node(tree, file, chain(tree, type_parts(tree, ks[j] as int, true)).1[0] as int)
        }
}

/// Counting one more part.
proof fn lemma_count_step(tree: &SyntaxTree, ks: Seq<usize>, k: int, kind: NodeKind)
    requires
        0 <= k < ks.len(),
    ensures
        count_kind(tree, ks.subrange(0, k + 1), kind) == count_kind(tree, ks.subrange(0, k), kind) + if tree.kind(
            ks[k] as int,
        ) == kind {
            1nat
        } else {
            0nat
        },
{
    let prev = ks.subrange(0, k);
    let next = ks.subrange(0, k + 1);
    assert(next.drop_last() == prev);
    assert(next.last() == ks[k]);
    reveal(Seq::filter);
}

/// A prefix holds no more parts of a kind than the whole.
proof fn lemma_count_prefix(tree: &SyntaxTree, ks: Seq<usize>, kind: NodeKind, k: int, n: int)
    requires
        0 <= k <= n <= ks.len(),
    ensures
        count_kind(tree, ks.subrange(0, k), kind) <= count_kind(tree, ks.subrange(0, n), kind),
    decreases n - k,
{
    if k < n {
        lemma_count_prefix(tree, ks, kind, k, n - 1);
        lemma_count_step(tree, ks, n - 1, kind);
    }
}

/// `fd` is the field that node `f` writes: its location and its name.
pub open spec fn field_is(fd: Field, tree: &SyntaxTree, file: Seq<char>, f: int) -> bool {
    let t = tree.kids(f)[0] as int;
    &&& fd.loc.is_node(tree, file, f)
    &&& fd.name@ == tree.text(tree.kids(t).last() as int)
    &&& typed_is(fd.typed, tree, file, t, type_parts(tree, t, true))
    &&& tags_are(fd.tags, tree, file, chain(tree, type_parts(tree, t, true)).1)
    &&& (fd.array is Some <==> tree.kids(f).len() == 2)
    &&& (fd.array matches Some(x) ==> expr_is(x, tree, file, tree.kids(tree.kids(f)[1] as int)[0] as int))
}

/// The field nodes among the parts `ks`, in order.
pub open spec fn field_nodes(tree: &SyntaxTree, ks: Seq<usize>) -> Seq<usize> {
    ks.filter(|c: usize| tree.kind(c as int) == NodeKind::StructF)
}

/// The parameter nodes (all but `...`) of the parameter lists among the
/// first `k` parts `ks`, in order.
pub open spec fn param_nodes(tree: &SyntaxTree, ks: Seq<usize>, k: int) -> Seq<usize>
    decreases k,
{
    if k <= 0 || k > ks.len() {
        seq![]
    } else if tree.kind(ks[k - 1] as int) == NodeKind::FnArgs {
        param_nodes(tree, ks, k - 1) + tree.kids(ks[k - 1] as int).filter(
            |d: usize| tree.kind(d as int) != NodeKind::Vararg,
        )
    } else {
        param_nodes(tree, ks, k - 1)
    }
}

/// One of the parameter lists among the first `k` parts `ks` ends in `...`.
pub open spec fn has_vararg(tree: &SyntaxTree, ks: Seq<usize>, k: int) -> bool {
    exists|j: int|
        0 <= j < k && tree.kind(ks[j] as int) == NodeKind::FnArgs && has_kind(
            tree,
            tree.kids(#[trigger] ks[j] as int),
            NodeKind::Vararg,
        )
}

/// The parameter names of a macro among the first `k` parts `ks`, in order.
pub open spec fn macro_params(tree: &SyntaxTree, ks: Seq<usize>, k: int) -> Seq<Seq<char>>
    decreases k,
{
    if k <= 0 || k > ks.len() {
        seq![]
    } else if tree.kind(ks[k - 1] as int) == NodeKind::MacroArgs {
        macro_params(tree, ks, k - 1) + tree.kids(ks[k - 1] as int).map_values(|d: usize| tree.text(d as int))
    } else {
        macro_params(tree, ks, k - 1)
    }
}

/// `a` is the parameter that node `d` writes: its location and its name.
pub open spec fn param_is(a: NamedArg, tree: &SyntaxTree, file: Seq<char>, d: int) -> bool {
    &&& a.loc.is_node(tree, file, d)
    &&& a.name@ == tree.text(tree.kids(d).last() as int)
    &&& typed_is(a.typed, tree, file, d, type_parts(tree, d, true))
    &&& tags_are(a.tags, tree, file, chain(tree, type_parts(tree, d, true)).1)
}

/// Rules of the nodes that declare a `Local`.
pub open spec fn is_local_kind(k: NodeKind) -> bool {
    k == NodeKind::Function || k == NodeKind::Imacro || k == NodeKind::StructD || k == NodeKind::Istatic
        || k == NodeKind::Constant
}

/// The declaration nodes among the children of the root `r`, in order.
pub open spec fn local_nodes(tree: &SyntaxTree, r: int) -> Seq<usize> {
    tree.kids(r).filter(|c: usize| is_local_kind(tree.kind(c as int)))
}

/// Child `c` of the root is a comment, the end of input, or a well-formed
/// declaration or import.
pub open spec fn top_ok(tree: &SyntaxTree, c: int) -> bool {
    let k = tree.kind(c);
    k == NodeKind::Comment || k == NodeKind::Eoi || (is_local_kind(k) || k == NodeKind::Import) && decl_ok(
        tree,
        c,
    )
}

/// Node `r` is a file whose children are all well formed.
pub open spec fn module_ok(tree: &SyntaxTree, r: int) -> bool {
    &&& tree.kind(r) == NodeKind::File
    &&& forall|j: int| 0 <= j < tree.kids(r).len() ==> top_ok(tree, #[trigger] tree.kids(r)[j] as int)
}

/// The import nodes among the children of the root `r`, in order.
pub open spec fn import_nodes(tree: &SyntaxTree, r: int) -> Seq<usize> {
    tree.kids(r).filter(|c: usize| tree.kind(c as int) == NodeKind::Import)
}

/// `l` is the declaration that node `c` writes: its kind, name, visibility,
/// location, and the parts of its definition stated below.
pub open spec fn local_is(l: Local, tree: &SyntaxTree, file: Seq<char>, c: int) -> bool {
    let k = tree.kind(c);
    let ks = tree.kids(c);
    if k == NodeKind::Function {
        &&& l.def matches Def::Function { args, vararg, body, ret }
        &&& (ret is Some <==> last_of_kind(tree, ks, ks.len() as int, NodeKind::RetArg) is Some)
        &&& (ret matches Some(a) ==> last_of_kind(tree, ks, ks.len() as int, NodeKind::RetArg) matches Some(
            d,
        ) && typed_is(
            a.typed,
            tree,
            file,
            tree.kids(d as int)[0] as int,
            type_parts(tree, tree.kids(d as int)[0] as int, false),
        ))
        &&& exists|j: int|
            0 <= j < ks.len() && tree.kind(#[trigger] ks[j] as int) == NodeKind::Block && block_is(
                body,
                tree,
                file,
                ks[j] as int,
            )
        &&& vararg == has_vararg(tree, ks, ks.len() as int)
        &&& args@.len() == param_nodes(tree, ks, ks.len() as int).len()
        &&& forall|j: int|
            0 <= j < args@.len() ==> param_is(
                #[trigger] args@[j],
                tree,
                file,
                param_nodes(tree, ks, ks.len() as int)[j] as int,
            )
        &&& l.loc.is_node(tree, file, c)
        &&& l.vis == vis_of(tree, ks)
        &&& opt_view(l.export_as) == export_of(tree, ks)
        &&& named_by(l.name, tree, file, ks)
    } else if k == NodeKind::Imacro {
        &&& l.def matches Def::Macro { args, body }
        &&& exists|j: int|
            0 <= j < ks.len() && tree.kind(#[trigger] ks[j] as int) == NodeKind::Block && block_is(
                body,
                tree,
                file,
                ks[j] as int,
            )
        &&& args@.map_values(|a: String| a@) == macro_params(tree, ks, ks.len() as int)
        &&& l.loc.is_node(tree, file, c)
        &&& l.vis == vis_of(tree, ks)
        &&& opt_view(l.export_as) == export_of(tree, ks)
        &&& named_by(l.name, tree, file, ks)
    } else if k == NodeKind::StructD {
        &&& l.def matches Def::Struct { fields, packed }
        &&& fields@.len() == count_kind(tree, ks, NodeKind::StructF)
        &&& forall|j: int|
            0 <= j < fields@.len() ==> field_is(#[trigger] fields@[j], tree, file, field_nodes(tree, ks)[j] as int)
        &&& packed == has_kind(tree, ks, NodeKind::KeyPacked)
        &&& l.vis == vis_of(tree, ks)
        &&& opt_view(l.export_as) == export_of(tree, ks)
        &&& exists|j: int|
            0 <= j < ks.len() && tree.kind(#[trigger] ks[j] as int) == NodeKind::Ident && l.name@
                == tree.text(ks[j] as int) && l.loc.is_node(tree, file, ks[j] as int)
    } else if k == NodeKind::Istatic {
        &&& l.def matches Def::Static { storage, mutable, expr, typed, tags }
        &&& last_of_kind(tree, ks, ks.len() as int, NodeKind::NamedType) matches Some(d) && typed_is(
            typed,
            tree,
            file,
            d as int,
            type_parts(tree, d as int, true),
        ) && tags_are(tags, tree, file, chain(tree, type_parts(tree, d as int, true)).1)
        &&& exists|j: int|
            0 <= j < ks.len() && tree.kind(#[trigger] ks[j] as int) == NodeKind::Expr && expr_is(
                expr,
                tree,
                file,
                ks[j] as int,
            )
        &&& storage == storage_of(tree, ks)
        &&& mutable == has_kind(tree, ks, NodeKind::KeyMut)
        &&& l.vis == Visibility::Object
        &&& l.export_as is None
        &&& l.loc.is_node(tree, file, c)
        &&& static_named(l.name, tree, c)
        &&& !declares_visibility(tree, ks)
    } else if k == NodeKind::Constant {
        &&& l.def matches Def::Const { expr, typed }
        &&& last_of_kind(tree, ks, ks.len() as int, NodeKind::NamedType) matches Some(d) && typed_is(
            typed,
            tree,
            file,
            d as int,
            type_parts(tree, d as int, true),
        )
        &&& exists|j: int|
            0 <= j < ks.len() && tree.kind(#[trigger] ks[j] as int) == NodeKind::Expr && expr_is(
                expr,
                tree,
                file,
                ks[j] as int,
            )
        &&& l.vis == vis_of(tree, ks)
        &&& l.export_as is None
        &&& l.loc.is_node(tree, file, c)
        &&& static_named(l.name, tree, c)
        &&& !declares_rename(tree, ks)
    } else {
        false
    }
}

/// Takes a `shared` or `export` part into the declaration's visibility and
/// export rename.
fn visibility_part(
    tree: &SyntaxTree,
    file: &String,
    p: usize,
    vis: &mut Visibility,
    export_as: &mut Option<String>,
) -> (r: Result<(), SyntaxError>)
    requires
        tree.wf(),
        p < tree.len(),
        tree.kind(p as int) == NodeKind::KeyShared || tree.kind(p as int) == NodeKind::Exported,
    ensures
        r is Ok ==> *final(vis) == (if tree.kind(p as int) == NodeKind::KeyShared {
            Visibility::Shared
        } else {
            Visibility::Export
        }),
        r is Ok ==> opt_view(*final(export_as)) == if tree.kind(p as int) == NodeKind::Exported
            && tree.kids(p as int).len() > 0 {
            Some(tree.text(tree.kids(p as int).last() as int))
        } else {
            opt_view(*old(export_as))
        },
        r is Ok <==> vis_part_ok(tree, p as int),
        r matches Err(e) ==> e.kind == ErrorKind::Unexpected,
{
    if tree.kind_of(p) == NodeKind::KeyShared {
        *vis = Visibility::Shared;
        return Ok(());
    }
    *vis = Visibility::Export;
    let n = tree.n_kids(p);
    let mut k: usize = 0;
    while k < n
        invariant
            tree.wf(),
            p < tree.len(),
            n == tree.kids(p as int).len(),
            k <= n,
            opt_view(*export_as) == if k > 0 {
                Some(tree.text(tree.kids(p as int)[k - 1] as int))
            } else {
                opt_view(*old(export_as))
            },
            *vis == Visibility::Export,
            tree.kind(p as int) == NodeKind::Exported,
            forall|m: int| 0 <= m < k ==> tree.kind(#[trigger] tree.kids(p as int)[m] as int) == NodeKind::Ident,
        decreases n - k,
    {
        let c = tree.child(p, k);
        if tree.kind_of(c) != NodeKind::Ident {
            return Err(SyntaxError::unexpected(tree, file, c));
        }
        *export_as = Some(tree.text_of(c));
        k = k + 1;
    }
    Ok(())
}

/// The errors that a declaration can raise.
pub open spec fn decl_error(k: ErrorKind) -> bool {
    k == ErrorKind::AnonymousTags || k == ErrorKind::ExpectedName || k == ErrorKind::Unexpected
        || k == ErrorKind::StaticVisibility || k == ErrorKind::ConstExportRename
}

/// A function declaration: visibility, name, return slot, parameters (a
/// trailing `...` makes it variadic) and body.
fn parse_function(tree: &SyntaxTree, file: &String, c: usize) -> (r: Result<Local, SyntaxError>)
    requires
        tree.wf(),
        c < tree.len(),
        tree.kind(c as int) == NodeKind::Function,
    ensures
        r is Ok <==> decl_ok(tree, c as int),
        r matches Ok(l) ==> local_is(l, tree, file@, c as int),
        r matches Err(e) ==> decl_error(e.kind),
{
    let n = tree.n_kids(c);
    let ghost ks = tree.kids(c as int);
    let mut vis = Visibility::Object;
    let mut export_as: Option<String> = None;
    let mut name: Option<String> = None;
    let ghost mut name_at: int = 0;
    let ghost mut body_at: int = 0;
    let mut ret: Option<AnonArg> = None;
    let mut args: Vec<NamedArg> = Vec::new();
    let mut vararg = false;
    let mut body = None;
    let mut k: usize = 0;
    while k < n
        invariant
            tree.wf(),
            c < tree.len(),
            ks == tree.kids(c as int),
            n == ks.len(),
            k <= n,
            vis == vis_of(tree, ks.subrange(0, k as int)),
            opt_view(export_as) == export_of(tree, ks.subrange(0, k as int)),
            name matches Some(s) ==> 0 <= name_at < k && tree.kind(ks[name_at] as int) == NodeKind::Ident
                && s@ == tree.text(ks[name_at] as int),
            tree.kind(c as int) == NodeKind::Function,
            forall|j: int| 0 <= j < k ==> fn_part_ok(tree, #[trigger] ks[j] as int),
            count_kind(tree, ks.subrange(0, k as int), NodeKind::Ident) == if name is Some { 1nat } else { 0nat },
            count_kind(tree, ks.subrange(0, k as int), NodeKind::Block) == if body is Some { 1nat } else { 0nat },
            body matches Some(bd) ==> 0 <= body_at < k && tree.kind(ks[body_at] as int) == NodeKind::Block
                && block_is(bd, tree, file@, ks[body_at] as int),
            args@.len() == param_nodes(tree, ks, k as int).len(),
            vararg == has_vararg(tree, ks, k as int),
            ret is Some <==> last_of_kind(tree, ks, k as int, NodeKind::RetArg) is Some,
            ret matches Some(a) ==> last_of_kind(tree, ks, k as int, NodeKind::RetArg) matches Some(d) && typed_is(
                a.typed,
                tree,
                file@,
                tree.kids(d as int)[0] as int,
                type_parts(tree, tree.kids(d as int)[0] as int, false),
            ),
            forall|j: int|
                0 <= j < args@.len() ==> param_is(#[trigger] args@[j], tree, file@, param_nodes(tree, ks, k as int)[j] as int),
        decreases n - k,
    {
        let p = tree.child(c, k);
        let pk = tree.kind_of(p);
        assert(ks[k as int] == p);
        proof {
            lemma_count_step(tree, ks, k as int, NodeKind::Ident);
            lemma_count_step(tree, ks, k as int, NodeKind::Block);
            if decl_ok(tree, c as int) {
                assert(fn_part_ok(tree, ks[k as int] as int));
                lemma_count_prefix(tree, ks, NodeKind::Ident, k + 1, n as int);
                lemma_count_prefix(tree, ks, NodeKind::Block, k + 1, n as int);
                assert(ks.subrange(0, n as int) == ks);
            }
        }
        assert(ks.subrange(0, k + 1).drop_last() == ks.subrange(0, k as int));
        if pk == NodeKind::KeyShared || pk == NodeKind::Exported {
            match visibility_part(tree, file, p, &mut vis, &mut export_as) {
                Ok(()) => {},
                Err(e) => return Err(e),
            }
        } else if pk == NodeKind::Ident && name.is_none() {
            name = Some(tree.text_of(p));
            proof {
                name_at = k as int;
            }
        } else if pk == NodeKind::RetArg && tree.n_kids(p) == 1 {
            ret = match parse_anon_type(tree, file, tree.child(p, 0)) {
                Ok(typed) => Some(AnonArg { typed }),
                Err(e) => return Err(e),
            };
        } else if pk == NodeKind::FnArgs {
            let m = tree.n_kids(p);
            let ghost before = param_nodes(tree, ks, k as int);
            let ghost pred = |d: usize| tree.kind(d as int) != NodeKind::Vararg;
            assert(param_nodes(tree, ks, k + 1) == before + tree.kids(p as int).filter(pred));
            let mut a: usize = 0;
            while a < m
                invariant
                    tree.wf(),
                    c < p < tree.len(),
                    m == tree.kids(p as int).len(),
                    a <= m,
                    tree.kind(p as int) == NodeKind::FnArgs,
                    decl_ok(tree, c as int) ==> fn_part_ok(tree, p as int),
                    forall|b: int|
                        0 <= b < a ==> (tree.kind(#[trigger] tree.kids(p as int)[b] as int) == NodeKind::Vararg
                            || named_type_ok(tree, tree.kids(p as int)[b] as int)),
                    before == param_nodes(tree, ks, k as int),
                    p == ks[k as int],
                    k < n,
                    ks == tree.kids(c as int),
                    n == ks.len(),
                    vararg == (has_vararg(tree, ks, k as int) || has_kind(
                        tree,
                        tree.kids(p as int).subrange(0, a as int),
                        NodeKind::Vararg,
                    )),
                    pred == (|d: usize| tree.kind(d as int) != NodeKind::Vararg),
                    args@.len() == (before + tree.kids(p as int).subrange(0, a as int).filter(pred)).len(),
                    forall|j: int|
                        0 <= j < args@.len() ==> param_is(
                            #[trigger] args@[j],
                            tree,
                            file@,
                            (before + tree.kids(p as int).subrange(0, a as int).filter(pred))[j] as int,
                        ),
                decreases m - a,
            {
                let arg = tree.child(p, a);
                let ghost pk_kids = tree.kids(p as int);
                assert(pk_kids.subrange(0, a + 1).drop_last() == pk_kids.subrange(0, a as int));
                assert(pk_kids.subrange(0, a + 1).last() == arg);
                assert(pk_kids.subrange(0, a + 1).filter(pred) == if pred(arg) {
                    pk_kids.subrange(0, a as int).filter(pred).push(arg)
                } else {
                    pk_kids.subrange(0, a as int).filter(pred)
                }) by {
                    reveal(Seq::filter);
                }
                assert(before + pk_kids.subrange(0, a as int).filter(pred).push(arg) == (before
                    + pk_kids.subrange(0, a as int).filter(pred)).push(arg));
                assert(has_kind(tree, pk_kids.subrange(0, a + 1), NodeKind::Vararg) == (has_kind(
                    tree,
                    pk_kids.subrange(0, a as int),
                    NodeKind::Vararg,
                ) || tree.kind(arg as int) == NodeKind::Vararg)) by {
                    let prev = pk_kids.subrange(0, a as int);
                    let next = pk_kids.subrange(0, a + 1);
                    if tree.kind(arg as int) == NodeKind::Vararg {
                        assert(next[a as int] == arg);
                    }
                    if has_kind(tree, next, NodeKind::Vararg) {
                        let j = choose|j: int| 0 <= j < next.len() && tree.kind(#[trigger] next[j] as int) == NodeKind::Vararg;
                        if j < a {
                            assert(prev[j] == next[j]);
                        }
                    }
                    if has_kind(tree, prev, NodeKind::Vararg) {
                        let j = choose|j: int| 0 <= j < prev.len() && tree.kind(#[trigger] prev[j] as int) == NodeKind::Vararg;
                        assert(prev[j] == next[j]);
                    }
                }
                if tree.kind_of(arg) == NodeKind::Vararg {
                    vararg = true;
                } else {
                    match parse_named_type(tree, file, arg) {
                        Ok(t) => args.push(
                            NamedArg {
                                name: t.name,
                                typed: t.typed,
                                tags: t.tags,
                                loc: Location::of_node(tree, file, arg),
                            },
                        ),
                        Err(e) => return Err(e),
                    }
                }
                a = a + 1;
            }
            assert(tree.kids(p as int).subrange(0, m as int) == tree.kids(p as int));
            assert(vararg == has_vararg(tree, ks, k + 1)) by {
                if has_vararg(tree, ks, k + 1) && !has_vararg(tree, ks, k as int) {
                    let j = choose|j: int|
                        0 <= j < k + 1 && tree.kind(ks[j] as int) == NodeKind::FnArgs && has_kind(
                            tree,
                            tree.kids(#[trigger] ks[j] as int),
                            NodeKind::Vararg,
                        );
                    assert(j == k);
                }
                if vararg && !has_vararg(tree, ks, k as int) {
                    assert(tree.kind(ks[k as int] as int) == NodeKind::FnArgs);
                }
            }
        } else if pk == NodeKind::Block && body.is_none() {
            body = match parse_block(tree, file, p) {
                Ok(b) => Some(b),
                Err(e) => return Err(e),
            };
            proof {
                body_at = k as int;
            }
        } else {
            return Err(SyntaxError::unexpected(tree, file, p));
        }
        k = k + 1;
    }
    assert(ks.subrange(0, n as int) == ks);
    assert(decl_ok(tree, c as int) <==> name is Some && body is Some);
    match (name, body) {
        (Some(name), Some(body)) => Ok(
            Local {
                name,
                export_as,
                vis,
                loc: Location::of_node(tree, file, c),
                def: Def::Function { ret, args, vararg, body },
            },
        ),
        _ => Err(SyntaxError::unexpected(tree, file, c)),
    }
}

/// A macro declaration: visibility, name, parameter names and body.
fn parse_macro(tree: &SyntaxTree, file: &String, c: usize) -> (r: Result<Local, SyntaxError>)
    requires
        tree.wf(),
        c < tree.len(),
        tree.kind(c as int) == NodeKind::Imacro,
    ensures
        r is Ok <==> decl_ok(tree, c as int),
        r matches Ok(l) ==> local_is(l, tree, file@, c as int),
        r matches Err(e) ==> decl_error(e.kind),
{
    let n = tree.n_kids(c);
    let ghost ks = tree.kids(c as int);
    let mut vis = Visibility::Object;
    let mut export_as: Option<String> = None;
    let mut name: Option<String> = None;
    let ghost mut name_at: int = 0;
    let ghost mut body_at: int = 0;
    let mut args: Vec<String> = Vec::new();
    let mut body = None;
    let mut k: usize = 0;
    while k < n
        invariant
            tree.wf(),
            c < tree.len(),
            ks == tree.kids(c as int),
            n == ks.len(),
            k <= n,
            vis == vis_of(tree, ks.subrange(0, k as int)),
            opt_view(export_as) == export_of(tree, ks.subrange(0, k as int)),
            name matches Some(s) ==> 0 <= name_at < k && tree.kind(ks[name_at] as int) == NodeKind::Ident
                && s@ == tree.text(ks[name_at] as int),
            tree.kind(c as int) == NodeKind::Imacro,
            forall|j: int| 0 <= j < k ==> macro_part_ok(tree, #[trigger] ks[j] as int),
            args@.map_values(|a: String| a@) == macro_params(tree, ks, k as int),
            count_kind(tree, ks.subrange(0, k as int), NodeKind::Ident) == if name is Some { 1nat } else { 0nat },
            count_kind(tree, ks.subrange(0, k as int), NodeKind::Block) == if body is Some { 1nat } else { 0nat },
            body matches Some(bd) ==> 0 <= body_at < k && tree.kind(ks[body_at] as int) == NodeKind::Block
                && block_is(bd, tree, file@, ks[body_at] as int),
        decreases n - k,
    {
        let p = tree.child(c, k);
        let pk = tree.kind_of(p);
        proof {
            lemma_count_step(tree, ks, k as int, NodeKind::Ident);
            lemma_count_step(tree, ks, k as int, NodeKind::Block);
            if decl_ok(tree, c as int) {
                assert(macro_part_ok(tree, ks[k as int] as int));
                lemma_count_prefix(tree, ks, NodeKind::Ident, k + 1, n as int);
                lemma_count_prefix(tree, ks, NodeKind::Block, k + 1, n as int);
                assert(ks.subrange(0, n as int) == ks);
            }
        }
        assert(ks.subrange(0, k + 1).drop_last() == ks.subrange(0, k as int));
        if pk == NodeKind::KeyShared || pk == NodeKind::Exported {
            match visibility_part(tree, file, p, &mut vis, &mut export_as) {
                Ok(()) => {},
                Err(e) => return Err(e),
            }
        } else if pk == NodeKind::Ident && name.is_none() {
            name = Some(tree.text_of(p));
            proof {
                name_at = k as int;
            }
        } else if pk == NodeKind::MacroArgs {
            let m = tree.n_kids(p);
            let ghost before = macro_params(tree, ks, k as int);
            let ghost names = tree.kids(p as int).map_values(|d: usize| tree.text(d as int));
            let mut a: usize = 0;
            while a < m
                invariant
                    tree.wf(),
                    c < p < tree.len(),
                    m == tree.kids(p as int).len(),
                    a <= m,
                    names == tree.kids(p as int).map_values(|d: usize| tree.text(d as int)),
                    args@.map_values(|a: String| a@) == before + names.subrange(0, a as int),
                decreases m - a,
            {
                let t = tree.text_of(tree.child(p, a));
                let ghost prev = args@.map_values(|a: String| a@);
                args.push(t);
                assert(args@.map_values(|a: String| a@) == prev.push(t@));
                assert(names.subrange(0, a + 1) == names.subrange(0, a as int).push(names[a as int]));
                a = a + 1;
            }
            assert(names.subrange(0, m as int) == names);
        } else if pk == NodeKind::Block && body.is_none() {
            body = match parse_block(tree, file, p) {
                Ok(b) => Some(b),
                Err(e) => return Err(e),
            };
            proof {
                body_at = k as int;
            }
        } else {
            return Err(SyntaxError::unexpected(tree, file, p));
        }
        k = k + 1;
    }
    assert(ks.subrange(0, n as int) == ks);
    assert(decl_ok(tree, c as int) <==> name is Some && body is Some);
    match (name, body) {
        (Some(name), Some(body)) => Ok(
            Local {
                name,
                export_as,
                vis,
                loc: Location::of_node(tree, file, c),
                def: Def::Macro { args, body },
            },
        ),
        _ => Err(SyntaxError::unexpected(tree, file, c)),
    }
}

/// One field of a struct: its typed name and an optional array size.
fn parse_field(tree: &SyntaxTree, file: &String, f: usize) -> (r: Result<Field, SyntaxError>)
    requires
        tree.wf(),
        f < tree.len(),
    ensures
        r is Ok <==> field_ok(tree, f as int),
        r matches Ok(fd) ==> field_is(fd, tree, file@, f as int),
        r matches Err(e) ==> decl_error(e.kind),
{
    let n = tree.n_kids(f);
    if n < 1 || n > 2 {
        return Err(SyntaxError::unexpected(tree, file, f));
    }
    let t = match parse_named_type(tree, file, tree.child(f, 0)) {
        Ok(t) => t,
        Err(e) => return Err(e),
    };
    let array = if n == 2 {
        let a = tree.child(f, 1);
        if tree.n_kids(a) != 1 {
            return Err(SyntaxError::unexpected(tree, file, a));
        }
        match parse_expr(tree, file, tree.child(a, 0)) {
            Ok(e) => Some(e),
            Err(e) => return Err(e),
        }
    } else {
        None
    };
    Ok(Field { name: t.name, typed: t.typed, tags: t.tags, array, loc: Location::of_node(tree, file, f) })
}

/// A struct declaration: visibility, `packed`, name and fields in order. Its
/// location is that of its name.
fn parse_struct(tree: &SyntaxTree, file: &String, c: usize) -> (r: Result<Local, SyntaxError>)
    requires
        tree.wf(),
        c < tree.len(),
        tree.kind(c as int) == NodeKind::StructD,
    ensures
        r is Ok <==> decl_ok(tree, c as int),
        r matches Ok(l) ==> local_is(l, tree, file@, c as int),
        r matches Err(e) ==> decl_error(e.kind),
{
    reveal(Seq::filter);
    let n = tree.n_kids(c);
    let ghost ks = tree.kids(c as int);
    let mut vis = Visibility::Object;
    let mut export_as: Option<String> = None;
    let mut name: Option<String> = None;
    let mut loc: Option<Location> = None;
    let ghost mut name_at: int = 0;
    let mut fields: Vec<Field> = Vec::new();
    let mut packed = false;
    let mut k: usize = 0;
    while k < n
        invariant
            tree.wf(),
            c < tree.len(),
            ks == tree.kids(c as int),
            n == ks.len(),
            k <= n,
            vis == vis_of(tree, ks.subrange(0, k as int)),
            opt_view(export_as) == export_of(tree, ks.subrange(0, k as int)),
            name is Some <==> loc is Some,
            name matches Some(s) ==> 0 <= name_at < k && tree.kind(ks[name_at] as int) == NodeKind::Ident
                && s@ == tree.text(ks[name_at] as int),
            loc matches Some(l) ==> l.is_node(tree, file@, ks[name_at] as int),
            fields@.len() == count_kind(tree, ks.subrange(0, k as int), NodeKind::StructF),
            forall|j: int|
                0 <= j < fields@.len() ==> field_is(
                    #[trigger] fields@[j],
                    tree,
                    file@,
                    field_nodes(tree, ks.subrange(0, k as int))[j] as int,
                ),
            packed == has_kind(tree, ks.subrange(0, k as int), NodeKind::KeyPacked),
            tree.kind(c as int) == NodeKind::StructD,
            forall|j: int| 0 <= j < k ==> struct_part_ok(tree, #[trigger] ks[j] as int),
            count_kind(tree, ks.subrange(0, k as int), NodeKind::Ident) == if name is Some { 1nat } else { 0nat },
        decreases n - k,
    {
        let p = tree.child(c, k);
        let pk = tree.kind_of(p);
        proof {
            lemma_count_step(tree, ks, k as int, NodeKind::Ident);
            if decl_ok(tree, c as int) {
                assert(struct_part_ok(tree, ks[k as int] as int));
                lemma_count_prefix(tree, ks, NodeKind::Ident, k + 1, n as int);
                assert(ks.subrange(0, n as int) == ks);
            }
        }
        let ghost prev = ks.subrange(0, k as int);
        let ghost next = ks.subrange(0, k + 1);
        assert(next.drop_last() == prev);
        assert(next.last() == p);
        assert(field_nodes(tree, next) == if pk == NodeKind::StructF {
            field_nodes(tree, prev).push(p)
        } else {
            field_nodes(tree, prev)
        }) by {
            reveal(Seq::filter);
        }
        if pk == NodeKind::KeyShared || pk == NodeKind::Exported {
            match visibility_part(tree, file, p, &mut vis, &mut export_as) {
                Ok(()) => {},
                Err(e) => return Err(e),
            }
        } else if pk == NodeKind::KeyPacked {
            packed = true;
        } else if pk == NodeKind::Ident && name.is_none() {
            name = Some(tree.text_of(p));
            loc = Some(Location::of_node(tree, file, p));
            proof {
                name_at = k as int;
            }
        } else if pk == NodeKind::StructF {
            match parse_field(tree, file, p) {
                Ok(fd) => fields.push(fd),
                Err(e) => return Err(e),
            }
        } else {
            return Err(SyntaxError::unexpected(tree, file, p));
        }
        assert(packed == has_kind(tree, next, NodeKind::KeyPacked)) by {
            if pk == NodeKind::KeyPacked {
                assert(tree.kind(next[k as int] as int) == NodeKind::KeyPacked);
            } else {
                if has_kind(tree, next, NodeKind::KeyPacked) {
                    let j = choose|j: int|
                        0 <= j < next.len() && tree.kind(#[trigger] next[j] as int) == NodeKind::KeyPacked;
                    assert(prev[j] == next[j]);
                }
                if has_kind(tree, prev, NodeKind::KeyPacked) {
                    let j = choose|j: int|
                        0 <= j < prev.len() && tree.kind(#[trigger] prev[j] as int) == NodeKind::KeyPacked;
                    assert(prev[j] == next[j]);
                }
            }
        }
        k = k + 1;
    }
    assert(ks.subrange(0, n as int) == ks);
    assert(decl_ok(tree, c as int) <==> name is Some);
    match (name, loc) {
        (Some(name), Some(loc)) => Ok(
            Local { name, export_as, vis, loc, def: Def::Struct { fields, packed } },
        ),
        _ => Err(SyntaxError::unexpected(tree, file, c)),
    }
}

/// A static variable or a constant: storage class, `mut`, visibility, typed
/// name and initializer. A static keeps its module private and may carry
/// attributes; a constant may be shared or exported, but not renamed, and
/// carries no attributes.
pub fn parse_static(tree: &SyntaxTree, file: &String, c: usize) -> (r: Result<Local, SyntaxError>)
    requires
        tree.wf(),
        c < tree.len(),
        tree.kind(c as int) == NodeKind::Istatic || tree.kind(c as int) == NodeKind::Constant,
    ensures
        r is Ok <==> decl_ok(tree, c as int),
        r matches Ok(l) ==> local_is(l, tree, file@, c as int),
        r matches Err(e) ==> decl_error(e.kind),
        r matches Err(e) ==> static_error_is(e, tree, file@, c as int),
        tree.kind(c as int) == NodeKind::Istatic && declares_visibility(tree, tree.kids(c as int)) ==> (r matches Err(
            e,
        ) && e.kind == ErrorKind::StaticVisibility),
        tree.kind(c as int) == NodeKind::Constant && declares_rename(tree, tree.kids(c as int)) ==> (r matches Err(
            e,
        ) && e.kind == ErrorKind::ConstExportRename),
        r matches Err(e) ==> (e.kind == ErrorKind::StaticVisibility <==> tree.kind(c as int)
            == NodeKind::Istatic && declares_visibility(tree, tree.kids(c as int))),
        r matches Err(e) ==> (e.kind == ErrorKind::ConstExportRename <==> tree.kind(c as int)
            == NodeKind::Constant && declares_rename(tree, tree.kids(c as int))),
{
    let n = tree.n_kids(c);
    let ghost ks = tree.kids(c as int);
    let is_static = tree.kind_of(c) == NodeKind::Istatic;
    let mut k: usize = 0;
    while k < n
        invariant
            tree.wf(),
            c < tree.len(),
            ks == tree.kids(c as int),
            n == ks.len(),
            k <= n,
            is_static == (tree.kind(c as int) == NodeKind::Istatic),
            tree.kind(c as int) == NodeKind::Istatic || tree.kind(c as int) == NodeKind::Constant,
            forall|j: int|
                0 <= j < k ==> if is_static {
                    tree.kind(#[trigger] ks[j] as int) != NodeKind::KeyShared && tree.kind(ks[j] as int)
                        != NodeKind::Exported
                } else {
                    !(tree.kind(#[trigger] ks[j] as int) == NodeKind::Exported && tree.kids(
                        ks[j] as int,
                    ).len() > 0)
                },
        decreases n - k,
    {
        let p = tree.child(c, k);
        let pk = tree.kind_of(p);
        if is_static && (pk == NodeKind::KeyShared || pk == NodeKind::Exported) {
            let e = SyntaxError {
                kind: ErrorKind::StaticVisibility,
                loc: Location::of_node(tree, file, p),
                message: "cannot change visibility of static variable".to_owned(),
            };
            assert(ks[k as int] == p);
            assert(is_visibility_part(tree, ks[k as int] as int));
            assert(forall|m: int| 0 <= m < k ==> !is_visibility_part(tree, #[trigger] ks[m] as int));
            return Err(e);
        }
        if !is_static && pk == NodeKind::Exported && tree.n_kids(p) > 0 {
            let e = SyntaxError {
                kind: ErrorKind::ConstExportRename,
                loc: Location::of_node(tree, file, p),
                message: "cannot export a constant under another name".to_owned(),
            };
            assert(ks[k as int] == p);
            assert(is_rename_part(tree, ks[k as int] as int));
            assert(forall|m: int| 0 <= m < k ==> !is_rename_part(tree, #[trigger] ks[m] as int));
            return Err(e);
        }
        k = k + 1;
    }
    let mut storage = Storage::Static;
    let mut mutable = false;
    let mut vis = Visibility::Object;
    let mut export_as: Option<String> = None;
    let mut typed: Option<TypedName> = None;
    let ghost mut typed_at: int = 0;
    let ghost mut expr_at: int = 0;
    let mut expr: Option<Expression> = None;
    let mut k: usize = 0;
    while k < n
        invariant
            tree.wf(),
            c < tree.len(),
            ks == tree.kids(c as int),
            n == ks.len(),
            k <= n,
            is_static == (tree.kind(c as int) == NodeKind::Istatic),
            tree.kind(c as int) == NodeKind::Istatic || tree.kind(c as int) == NodeKind::Constant,
            !is_static ==> !declares_rename(tree, ks),
            is_static ==> !declares_visibility(tree, ks),
            vis == vis_of(tree, ks.subrange(0, k as int)),
            opt_view(export_as) == export_of(tree, ks.subrange(0, k as int)),
            storage == storage_of(tree, ks.subrange(0, k as int)),
            mutable == has_kind(tree, ks.subrange(0, k as int), NodeKind::KeyMut),
            typed matches Some(t) ==> 0 <= typed_at < k && tree.kind(ks[typed_at] as int)
                == NodeKind::NamedType && t.name@ == tree.text(
                tree.kids(ks[typed_at] as int).last() as int,
            ) && t.tags.entries@.len() == chain(tree, type_parts(tree, ks[typed_at] as int, true)).1.len(),
            forall|j: int| 0 <= j < k ==> static_part_ok(tree, is_static, #[trigger] ks[j] as int),
            count_kind(tree, ks.subrange(0, k as int), NodeKind::NamedType) == if typed is Some { 1nat } else { 0nat },
            forall|j: int|
                0 <= j < k && tree.kind(#[trigger] ks[j] as int) == NodeKind::NamedType ==> typed is Some && j
                    == typed_at,
            count_kind(tree, ks.subrange(0, k as int), NodeKind::Expr) == if expr is Some { 1nat } else { 0nat },
            typed is Some <==> last_of_kind(tree, ks, k as int, NodeKind::NamedType) is Some,
            typed matches Some(t) ==> last_of_kind(tree, ks, k as int, NodeKind::NamedType) == Some(ks[typed_at])
                && typed_is(t.typed, tree, file@, ks[typed_at] as int, type_parts(tree, ks[typed_at] as int, true))
                && tags_are(t.tags, tree, file@, chain(tree, type_parts(tree, ks[typed_at] as int, true)).1),
            expr matches Some(x) ==> 0 <= expr_at < k && tree.kind(ks[expr_at] as int) == NodeKind::Expr
                && expr_is(x, tree, file@, ks[expr_at] as int),
        decreases n - k,
    {
        let p = tree.child(c, k);
        let pk = tree.kind_of(p);
        proof {
            lemma_count_step(tree, ks, k as int, NodeKind::NamedType);
            lemma_count_step(tree, ks, k as int, NodeKind::Expr);
            if static_shape_ok(tree, c as int) {
                assert(static_part_ok(tree, is_static, ks[k as int] as int));
                lemma_count_prefix(tree, ks, NodeKind::NamedType, k + 1, n as int);
                lemma_count_prefix(tree, ks, NodeKind::Expr, k + 1, n as int);
                assert(ks.subrange(0, n as int) == ks);
            }
        }
        let ghost prev = ks.subrange(0, k as int);
        let ghost next = ks.subrange(0, k + 1);
        assert(next.drop_last() == prev);
        assert(next.last() == p);
        assert(ks[k as int] == p);
        if pk == NodeKind::KeyThreadLocal {
            storage = Storage::ThreadLocal;
        } else if pk == NodeKind::KeyStatic {
            storage = Storage::Static;
        } else if pk == NodeKind::KeyAtomic {
            storage = Storage::Atomic;
        } else if pk == NodeKind::KeyMut && is_static {
            mutable = true;
        } else if pk == NodeKind::KeyShared || pk == NodeKind::Exported {
            match visibility_part(tree, file, p, &mut vis, &mut export_as) {
                Ok(()) => {},
                Err(e) => return Err(e),
            }
        } else if pk == NodeKind::NamedType && typed.is_none() {
            typed = match parse_named_type(tree, file, p) {
                Ok(t) => Some(t),
                Err(e) => return Err(e),
            };
            proof {
                typed_at = k as int;
            }
        } else if pk == NodeKind::Expr && expr.is_none() {
            expr = match parse_expr(tree, file, p) {
                Ok(e) => Some(e),
                Err(e) => return Err(e),
            };
            proof {
                expr_at = k as int;
            }
        } else {
            return Err(SyntaxError::unexpected(tree, file, p));
        }
        assert(mutable == has_kind(tree, next, NodeKind::KeyMut)) by {
            if pk == NodeKind::KeyMut && is_static {
                assert(tree.kind(next[k as int] as int) == NodeKind::KeyMut);
            } else {
                if has_kind(tree, next, NodeKind::KeyMut) {
                    let j = choose|j: int|
                        0 <= j < next.len() && tree.kind(#[trigger] next[j] as int) == NodeKind::KeyMut;
                    assert(prev[j] == next[j]);
                }
                if has_kind(tree, prev, NodeKind::KeyMut) {
                    let j = choose|j: int|
                        0 <= j < prev.len() && tree.kind(#[trigger] prev[j] as int) == NodeKind::KeyMut;
                    assert(prev[j] == next[j]);
                }
            }
        }
        k = k + 1;
    }
    assert(ks.subrange(0, n as int) == ks);
    assert(decl_ok(tree, c as int) ==> typed is Some && expr is Some);
    assert(typed is Some ==> tree.kind(ks[typed_at] as int) == NodeKind::NamedType);
    let loc = Location::of_node(tree, file, c);
    match (typed, expr) {
        (Some(t), Some(expr)) => {
            if is_static {
                Ok(
                    Local {
                        name: t.name,
                        export_as: None,
                        vis: Visibility::Object,
                        loc,
                        def: Def::Static { tags: t.tags, storage, mutable, typed: t.typed, expr },
                    },
                )
            } else if t.tags.entries.len() > 0 {
                let e = SyntaxError {
                    kind: ErrorKind::AnonymousTags,
                    loc: t.tags.entries[0].loc.clone_loc(),
                    message: "a constant cannot carry storage tags".to_owned(),
                };
                assert(tag_is_node(t.tags.entries@[0], tree, file@, chain(tree, type_parts(tree, ks[typed_at] as int, true)).1[0] as int));
                Err(e)
            } else {
                Ok(
                    Local {
                        name: t.name,
                        export_as: None,
                        vis,
                        loc,
                        def: Def::Const { typed: t.typed, expr },
                    },
                )
            }
        },
        _ => Err(SyntaxError::unexpected(tree, file, c)),
    }
}

/// The path that the first `k` children of import-name node `i` write: a
/// system import starts over as `::ext::<header>`, a name adds one part, and
/// a nested name adds its own path.
pub open spec fn path_upto(tree: &SyntaxTree, i: int, k: int) -> Seq<Seq<char>>
    decreases tree.len() - i, k,
{
    if k <= 0 || k > tree.kids(i).len() || i < 0 {
        seq![]
    } else {
        let prev = path_upto(tree, i, k - 1);
        let c = tree.kids(i)[k - 1] as int;
        let kc = tree.kind(c);
        if kc == NodeKind::Cimport {
            seq![Seq::empty(), "ext"@, tree.text(c)]
        } else if kc == NodeKind::Ident {
            prev.push(tree.text(c))
        } else if (kc == NodeKind::TypeName || kc == NodeKind::Importname) && i < c < tree.len() {
            prev + path_upto(tree, c, tree.kids(c).len() as int)
        } else {
            prev
        }
    }
}

/// A name bound by an import, and its rename.
pub open spec fn local_item(tree: &SyntaxTree, d: int) -> (Seq<char>, Option<Seq<char>>) {
    let ks = tree.kids(d);
    let nm = ks[0] as int;
    (
        if tree.kind(nm) == NodeKind::Qident {
            tree.text(tree.kids(nm)[0] as int)
        } else {
            tree.text(nm)
        },
        if ks.len() > 1 {
            Some(tree.text(ks[1] as int))
        } else {
            None
        },
    )
}

/// The names bound locally by the first `k` children of import-name node
/// `i`, nested names included, in order.
pub open spec fn locals_upto(tree: &SyntaxTree, i: int, k: int) -> Seq<(Seq<char>, Option<Seq<char>>)>
    decreases tree.len() - i, k,
{
    if k <= 0 || k > tree.kids(i).len() || i < 0 {
        seq![]
    } else {
        let prev = locals_upto(tree, i, k - 1);
        let c = tree.kids(i)[k - 1] as int;
        let kc = tree.kind(c);
        if kc == NodeKind::Local {
            prev + tree.kids(c).map_values(|d: usize| local_item(tree, d as int))
        } else if (kc == NodeKind::TypeName || kc == NodeKind::Importname) && i < c < tree.len() {
            prev + locals_upto(tree, c, tree.kids(c).len() as int)
        } else {
            prev
        }
    }
}

/// Node `d` binds one imported name: a name or a quoted name, then maybe
/// its rename.
pub open spec fn local_item_ok(tree: &SyntaxTree, d: int) -> bool {
    let ks = tree.kids(d);
    &&& tree.kind(d) == NodeKind::LocalI
    &&& ks.len() >= 1
    &&& (tree.kind(ks[0] as int) == NodeKind::Ident || tree.kind(ks[0] as int) == NodeKind::Qident
        && tree.kids(ks[0] as int).len() >= 1)
}

/// The first `k` children of import-name node `i` are well formed.
pub open spec fn importname_upto(tree: &SyntaxTree, i: int, k: int) -> bool
    decreases tree.len() - i, k,
{
    if !in_tree(tree, i) || k > tree.kids(i).len() {
        false
    } else if k <= 0 {
        true
    } else {
        let c = tree.kids(i)[k - 1] as int;
        let kc = tree.kind(c);
        &&& importname_upto(tree, i, k - 1)
        &&& if kc == NodeKind::Local {
            forall|m: int| 0 <= m < tree.kids(c).len() ==> local_item_ok(tree, #[trigger] tree.kids(c)[m] as int)
        } else if kc == NodeKind::TypeName || kc == NodeKind::Importname {
            importname_upto(tree, c, tree.kids(c).len() as int)
        } else {
            kc == NodeKind::Cimport || kc == NodeKind::Ident
        }
    }
}

/// Prefixes of a well-formed import name are well formed.
proof fn lemma_importname_prefix(tree: &SyntaxTree, i: int, k: int, n: int)
    requires
        0 <= k <= n,
        importname_upto(tree, i, n),
    ensures
        importname_upto(tree, i, k),
    decreases n - k,
{
    if k < n {
        lemma_importname_prefix(tree, i, k, n - 1);
    }
}

/// The text views of a list of bound names.
pub open spec fn bindings_view(v: Seq<(String, Option<String>)>) -> Seq<(Seq<char>, Option<Seq<char>>)> {
    v.map_values(|p: (String, Option<String>)| (p.0@, opt_view(p.1)))
}

/// Builds the imported path at node `i`, and the names it binds locally.
pub fn parse_importname(tree: &SyntaxTree, file: &String, i: usize) -> (r: Result<
    (Name, Vec<(String, Option<String>)>),
    SyntaxError,
>)
    requires
        tree.wf(),
        i < tree.len(),
    ensures
        r matches Ok((name, local)) ==> name.parts_view() == path_upto(
            tree,
            i as int,
            tree.kids(i as int).len() as int,
        ) && bindings_view(local@) == locals_upto(tree, i as int, tree.kids(i as int).len() as int),
        r is Ok <==> importname_upto(tree, i as int, tree.kids(i as int).len() as int),
        r matches Err(e) ==> e.kind == ErrorKind::Unexpected,
    decreases tree.len() - i,
{
    let n = tree.n_kids(i);
    let mut v: Vec<String> = Vec::new();
    let mut locals: Vec<(String, Option<String>)> = Vec::new();
    let mut k: usize = 0;
    while k < n
        invariant
            tree.wf(),
            i < tree.len(),
            n == tree.kids(i as int).len(),
            k <= n,
            (Name { parts: v }).parts_view() == path_upto(tree, i as int, k as int),
            bindings_view(locals@) == locals_upto(tree, i as int, k as int),
            importname_upto(tree, i as int, k as int),
        decreases n - k,
    {
        let c = tree.child(i, k);
        let kc = tree.kind_of(c);
        proof {
            if importname_upto(tree, i as int, n as int) {
                lemma_importname_prefix(tree, i as int, k + 1, n as int);
            }
        }
        let ghost pv = (Name { parts: v }).parts_view();
        let ghost lv = bindings_view(locals@);
        if kc == NodeKind::Cimport {
            v = Vec::new();
            v.push(String::new());
            v.push("ext".to_owned());
            v.push(tree.text_of(c));
            assert((Name { parts: v }).parts_view() == seq![Seq::<char>::empty(), "ext"@, tree.text(c as int)]);
        } else if kc == NodeKind::Ident {
            let t = tree.text_of(c);
            v.push(t);
            assert((Name { parts: v }).parts_view() == pv.push(t@));
        } else if kc == NodeKind::Local {
            let m = tree.n_kids(c);
            let ghost items = tree.kids(c as int).map_values(|d: usize| local_item(tree, d as int));
            let mut a: usize = 0;
            while a < m
                invariant
                    tree.wf(),
                    i < c < tree.len(),
                    m == tree.kids(c as int).len(),
                    a <= m,
                    items == tree.kids(c as int).map_values(|d: usize| local_item(tree, d as int)),
                    bindings_view(locals@) == lv + items.subrange(0, a as int),
                    n == tree.kids(i as int).len(),
                    c == tree.kids(i as int)[k as int],
                    tree.kind(c as int) == NodeKind::Local,
                    k < n,
                    importname_upto(tree, i as int, n as int) ==> importname_upto(tree, i as int, k + 1),
                    forall|b: int| 0 <= b < a ==> local_item_ok(tree, #[trigger] tree.kids(c as int)[b] as int),
                decreases m - a,
            {
                let d = tree.child(c, a);
                proof {
                    if importname_upto(tree, i as int, n as int) {
                        assert(importname_upto(tree, i as int, k + 1));
                        assert(local_item_ok(tree, tree.kids(c as int)[a as int] as int));
                    }
                }
                if tree.kind_of(d) != NodeKind::LocalI || tree.n_kids(d) < 1 {
                    return Err(SyntaxError::unexpected(tree, file, d));
                }
                let nm = tree.child(d, 0);
                let nk = tree.kind_of(nm);
                let name = if nk == NodeKind::Ident {
                    tree.text_of(nm)
                } else if nk == NodeKind::Qident && tree.n_kids(nm) >= 1 {
                    tree.text_of(tree.child(nm, 0))
                } else {
                    return Err(SyntaxError::unexpected(tree, file, nm));
                };
                let import_as = if tree.n_kids(d) > 1 {
                    Some(tree.text_of(tree.child(d, 1)))
                } else {
                    None
                };
                let ghost before = bindings_view(locals@);
                locals.push((name, import_as));
                assert(bindings_view(locals@) == before.push(local_item(tree, d as int)));
                assert(items.subrange(0, a + 1) == items.subrange(0, a as int).push(items[a as int]));
                a = a + 1;
            }
            assert(items.subrange(0, m as int) == items);
        } else if kc == NodeKind::TypeName || kc == NodeKind::Importname {
            let (name, more) = match parse_importname(tree, file, c) {
                Ok(x) => x,
                Err(e) => return Err(e),
            };
            let ghost before = v@;
            let ghost lbefore = locals@;
            let mut parts = name.parts;
            let ghost added = parts@;
            v.append(&mut parts);
            assert(v@ == before + added);
            assert(v@.map_values(|p: String| p@) == before.map_values(|p: String| p@) + added.map_values(
                |p: String| p@,
            ));
            let mut more = more;
            let ghost ladded = more@;
            locals.append(&mut more);
            assert(locals@ == lbefore + ladded);
            assert(bindings_view(locals@) == bindings_view(lbefore) + bindings_view(ladded));
        } else {
            return Err(SyntaxError::unexpected(tree, file, c));
        }
        k = k + 1;
    }
    Ok((Name { parts: v }, locals))
}

/// `im` is the import that node `c` writes: its location, visibility, path
/// and bound names.
pub open spec fn import_is(im: Import, tree: &SyntaxTree, file: Seq<char>, c: int) -> bool {
    let ks = tree.kids(c);
    &&& im.loc.is_node(tree, file, c)
    &&& opt_view(im.alias) == match last_of_kind(tree, ks, ks.len() as int, NodeKind::Importalias) {
        Some(d) => Some(tree.text(tree.kids(d as int)[0] as int)),
        None => None,
    }
    &&& im.vis == if has_kind(tree, ks, NodeKind::Exported) {
        Visibility::Export
    } else {
        Visibility::Object
    }
    &&& exists|j: int|
        0 <= j < ks.len() && tree.kind(#[trigger] ks[j] as int) == NodeKind::Importname
            && im.name.parts_view() == path_upto(tree, ks[j] as int, tree.kids(ks[j] as int).len() as int)
            && bindings_view(im.local@) == locals_upto(
            tree,
            ks[j] as int,
            tree.kids(ks[j] as int).len() as int,
        )
}

/// An import: the imported path and bound names, an alias, and whether it
/// is exported.
fn parse_import(tree: &SyntaxTree, file: &String, c: usize) -> (r: Result<Import, SyntaxError>)
    requires
        tree.wf(),
        c < tree.len(),
    ensures
        r is Ok <==> tree.kind(c as int) == NodeKind::Import && decl_ok(tree, c as int),
        r matches Ok(im) ==> import_is(im, tree, file@, c as int),
        r matches Err(e) ==> e.kind == ErrorKind::Unexpected,
{
    if tree.kind_of(c) != NodeKind::Import {
        return Err(SyntaxError::unexpected(tree, file, c));
    }
    let n = tree.n_kids(c);
    let ghost ks = tree.kids(c as int);
    let mut vis = Visibility::Object;
    let mut importname: Option<(Name, Vec<(String, Option<String>)>)> = None;
    let ghost mut name_at: int = 0;
    let mut alias: Option<String> = None;
    let mut k: usize = 0;
    while k < n
        invariant
            tree.wf(),
            c < tree.len(),
            ks == tree.kids(c as int),
            n == ks.len(),
            k <= n,
            vis == if has_kind(tree, ks.subrange(0, k as int), NodeKind::Exported) {
                Visibility::Export
            } else {
                Visibility::Object
            },
            importname matches Some((name, local)) ==> 0 <= name_at < k && tree.kind(ks[name_at] as int)
                == NodeKind::Importname && name.parts_view() == path_upto(
                tree,
                ks[name_at] as int,
                tree.kids(ks[name_at] as int).len() as int,
            ) && bindings_view(local@) == locals_upto(
                tree,
                ks[name_at] as int,
                tree.kids(ks[name_at] as int).len() as int,
            ),
            forall|j: int| 0 <= j < k ==> import_part_ok(tree, #[trigger] ks[j] as int),
            importname is Some <==> has_kind(tree, ks.subrange(0, k as int), NodeKind::Importname),
            opt_view(alias) == match last_of_kind(tree, ks, k as int, NodeKind::Importalias) {
                Some(d) => Some(tree.text(tree.kids(d as int)[0] as int)),
                None => None,
            },
        decreases n - k,
    {
        let p = tree.child(c, k);
        let pk = tree.kind_of(p);
        proof {
            if tree.kind(c as int) == NodeKind::Import && decl_ok(tree, c as int) {
                assert(import_part_ok(tree, ks[k as int] as int));
            }
        }
        let ghost prev = ks.subrange(0, k as int);
        let ghost next = ks.subrange(0, k + 1);
        assert(next.drop_last() == prev);
        assert(next.last() == p);
        assert(ks[k as int] == p);
        if pk == NodeKind::Importname {
            importname = match parse_importname(tree, file, p) {
                Ok(x) => Some(x),
                Err(e) => return Err(e),
            };
            proof {
                name_at = k as int;
            }
        } else if pk == NodeKind::Exported {
            vis = Visibility::Export;
        } else if pk == NodeKind::Importalias && tree.n_kids(p) >= 1 {
            alias = Some(tree.text_of(tree.child(p, 0)));
        } else {
            return Err(SyntaxError::unexpected(tree, file, p));
        }
        assert(has_kind(tree, next, NodeKind::Exported) == (has_kind(tree, prev, NodeKind::Exported)
            || pk == NodeKind::Exported)) by {
            if pk == NodeKind::Exported {
                assert(tree.kind(next[k as int] as int) == NodeKind::Exported);
            }
            if has_kind(tree, next, NodeKind::Exported) {
                let j = choose|j: int|
                    0 <= j < next.len() && tree.kind(#[trigger] next[j] as int) == NodeKind::Exported;
                if j < k {
                    assert(prev[j] == next[j]);
                }
            }
            if has_kind(tree, prev, NodeKind::Exported) {
                let j = choose|j: int|
                    0 <= j < prev.len() && tree.kind(#[trigger] prev[j] as int) == NodeKind::Exported;
                assert(prev[j] == next[j]);
            }
        }
        assert(has_kind(tree, next, NodeKind::Importname) == (has_kind(tree, prev, NodeKind::Importname)
            || pk == NodeKind::Importname)) by {
            if pk == NodeKind::Importname {
                assert(tree.kind(next[k as int] as int) == NodeKind::Importname);
            }
            if has_kind(tree, next, NodeKind::Importname) {
                let j = choose|j: int|
                    0 <= j < next.len() && tree.kind(#[trigger] next[j] as int) == NodeKind::Importname;
                if j < k {
                    assert(prev[j] == next[j]);
                }
            }
            if has_kind(tree, prev, NodeKind::Importname) {
                let j = choose|j: int|
                    0 <= j < prev.len() && tree.kind(#[trigger] prev[j] as int) == NodeKind::Importname;
                assert(prev[j] == next[j]);
            }
        }
        k = k + 1;
    }
    assert(ks.subrange(0, n as int) == ks);
    match importname {
        Some((name, local)) => Ok(Import { name, alias, local, vis, loc: Location::of_node(tree, file, c) }),
        None => Err(SyntaxError::unexpected(tree, file, c)),
    }
}

/// A file with a static variable marked `shared` or `export` is rejected,
/// and so is one with a constant exported under another name: no such file
/// is well formed, and `ZZParser::module` builds a module exactly for the
/// well-formed ones.
pub proof fn lemma_visibility_restriction(tree: &SyntaxTree, root: int, j: int)
    requires
        0 <= j < tree.kids(root).len(),
        tree.kind(tree.kids(root)[j] as int) == NodeKind::Istatic && declares_visibility(
            tree,
            tree.kids(tree.kids(root)[j] as int),
        ) || tree.kind(tree.kids(root)[j] as int) == NodeKind::Constant && declares_rename(
            tree,
            tree.kids(tree.kids(root)[j] as int),
        ),
    ensures
        !module_ok(tree, root),
{
    if module_ok(tree, root) {
        assert(top_ok(tree, tree.kids(root)[j] as int));
    }
}

impl ZZParser {
    /// Builds the module of file `file` (whose stem is `stem`) from the root
    /// node `root` of its tree: one `Local` per declaration and one `Import`
    /// per import, each list in source order. Comments and the end of input
    /// are skipped. The tree must already have been through macro
    /// preprocessing: the builder expands nothing itself. On error, the
    /// error is the one of the first malformed child.
    pub fn module(tree: &SyntaxTree, file: &String, stem: &String, root: usize) -> (r: Result<
        Module,
        SyntaxError,
    >)
        requires
            tree.wf(),
            root < tree.len(),
        ensures
            r is Ok <==> module_ok(tree, root as int),
            r matches Ok(m) ==> {
                &&& m.source@ == file@
                &&& m.sources@.len() == 0
                &&& m.name.parts_view() == seq![stem@]
                &&& m.locals@.len() == local_nodes(tree, root as int).len()
                &&& forall|j: int|
                    0 <= j < m.locals@.len() ==> local_is(
                        #[trigger] m.locals@[j],
                        tree,
                        file@,
                        local_nodes(tree, root as int)[j] as int,
                    )
                &&& m.imports@.len() == import_nodes(tree, root as int).len()
                &&& forall|j: int|
                    0 <= j < m.imports@.len() ==> import_is(
                        #[trigger] m.imports@[j],
                        tree,
                        file@,
                        import_nodes(tree, root as int)[j] as int,
                    )
            },
            r matches Err(e) ==> tree.kind(root as int) != NodeKind::File || exists|j: int|
                0 <= j < tree.kids(root as int).len() && !top_ok(tree, #[trigger] tree.kids(root as int)[j] as int)
                    && (forall|m: int| 0 <= m < j ==> top_ok(tree, #[trigger] tree.kids(root as int)[m] as int))
                    && static_error_is(e, tree, file@, tree.kids(root as int)[j] as int),
            r matches Err(e) ==> decl_error(e.kind),
    {
        if tree.kind_of(root) != NodeKind::File {
            return Err(SyntaxError::unexpected(tree, file, root));
        }
        let n = tree.n_kids(root);
        let ghost ks = tree.kids(root as int);
        let mut locals: Vec<Local> = Vec::new();
        let mut imports: Vec<Import> = Vec::new();
        let mut k: usize = 0;
        while k < n
            invariant
                tree.wf(),
                root < tree.len(),
                ks == tree.kids(root as int),
                n == ks.len(),
                k <= n,
                locals@.len() == ks.subrange(0, k as int).filter(
                    |c: usize| is_local_kind(tree.kind(c as int)),
                ).len(),
                forall|j: int|
                    0 <= j < locals@.len() ==> local_is(
                        #[trigger] locals@[j],
                        tree,
                        file@,
                        ks.subrange(0, k as int).filter(|c: usize| is_local_kind(tree.kind(c as int)))[j] as int,
                    ),
                imports@.len() == ks.subrange(0, k as int).filter(
                    |c: usize| tree.kind(c as int) == NodeKind::Import,
                ).len(),
                forall|j: int|
                    0 <= j < imports@.len() ==> import_is(
                        #[trigger] imports@[j],
                        tree,
                        file@,
                        ks.subrange(0, k as int).filter(|c: usize| tree.kind(c as int) == NodeKind::Import)[j] as int,
                    ),
                tree.kind(root as int) == NodeKind::File,
                forall|j: int| 0 <= j < k ==> top_ok(tree, #[trigger] ks[j] as int),
            decreases n - k,
        {
            let c = tree.child(root, k);
            let kc = tree.kind_of(c);
            proof {
                if module_ok(tree, root as int) {
                    assert(top_ok(tree, ks[k as int] as int));
                }
            }
            let ghost prev = ks.subrange(0, k as int);
            let ghost next = ks.subrange(0, k + 1);
            assert(next.drop_last() == prev);
            assert(next.last() == c);
            let ghost lp = |c: usize| is_local_kind(tree.kind(c as int));
            let ghost ip = |c: usize| tree.kind(c as int) == NodeKind::Import;
            assert(next.filter(lp) == if lp(c) {
                prev.filter(lp).push(c)
            } else {
                prev.filter(lp)
            }) by {
                reveal(Seq::filter);
            }
            assert(next.filter(ip) == if ip(c) {
                prev.filter(ip).push(c)
            } else {
                prev.filter(ip)
            }) by {
                reveal(Seq::filter);
            }
            if kc == NodeKind::Function || kc == NodeKind::Imacro || kc == NodeKind::StructD || kc
                == NodeKind::Istatic || kc == NodeKind::Constant {
                let l = if kc == NodeKind::Function {
                    parse_function(tree, file, c)
                } else if kc == NodeKind::Imacro {
                    parse_macro(tree, file, c)
                } else if kc == NodeKind::StructD {
                    parse_struct(tree, file, c)
                } else {
                    parse_static(tree, file, c)
                };
                match l {
                    Ok(l) => locals.push(l),
                    Err(e) => {
                        assert(tree.kids(root as int)[k as int] == c);
                        assert(!top_ok(tree, tree.kids(root as int)[k as int] as int));
                        assert(static_error_is(e, tree, file@, c as int));
                        return Err(e);
                    },
                }
            } else if kc == NodeKind::Import {
                match parse_import(tree, file, c) {
                    Ok(im) => imports.push(im),
                    Err(e) => {
                        assert(tree.kids(root as int)[k as int] == c);
                        assert(!top_ok(tree, tree.kids(root as int)[k as int] as int));
                        return Err(e);
                    },
                }
            } else if kc == NodeKind::Comment || kc == NodeKind::Eoi {
            } else {
                assert(tree.kids(root as int)[k as int] == c);
                assert(!top_ok(tree, tree.kids(root as int)[k as int] as int));
                return Err(SyntaxError::unexpected(tree, file, c));
            }
            k = k + 1;
        }
        assert(ks.subrange(0, n as int) == ks);
        let mut name_parts: Vec<String> = Vec::new();
        name_parts.push(stem.clone());
        let name = Name { parts: name_parts };
        assert(name.parts_view() == seq![stem@]);
        Ok(Module { source: file.clone(), sources: Vec::new(), name, locals, imports })
    }
}

} // verus!
