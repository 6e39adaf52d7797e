//! Statements and blocks.
//!
//! Each statement node becomes one statement, in source order. The arms of a
//! conditional stay separate statements; linking them is left to a later
//! pass.
use vstd::prelude::*;
use crate::ast::{Block, ErrorKind, Expression, Location, Statement, SyntaxError, Tags, Typed, TypedName};
use crate::expr::{expr_is, expr_ok, in_tree, parse_expr};
use crate::syntax::{last_of_kind, NodeKind, SyntaxTree};
use crate::types::{chain, named_type_ok, parse_named_type, tags_are, type_parts, typed_is};

verus! {

/// `end` is the empty location at the end of node `i`.
pub open spec fn is_end_of(end: Location, tree: &SyntaxTree, file: Seq<char>, i: int) -> bool {
    &&& end.file@ == file
    &&& end.start == tree.node(i).end
    &&& end.end == tree.node(i).end
}

/// `b` is the block that node `i` writes: one statement per child, in
/// order, and its end.
pub open spec fn block_is(b: Block, tree: &SyntaxTree, file: Seq<char>, i: int) -> bool
    decreases tree.len() - i, 0int,
{
    &&& in_tree(tree, i)
    &&& b.statements@.len() == tree.kids(i).len()
    &&& is_end_of(b.end, tree, file, i)
    &&& forall|j: int|
        0 <= j < b.statements@.len() ==> stmt_is(
            #[trigger] b.statements@[j],
            tree,
            file,
            tree.kids(i)[j] as int,
        )
}

/// The text of child `k` of node `c`, or nothing where there is no such
/// child.
pub open spec fn text_or_empty(tree: &SyntaxTree, c: int, k: int) -> Seq<char> {
    if k < tree.kids(c).len() {
        tree.text(tree.kids(c)[k] as int)
    } else {
        Seq::empty()
    }
}

/// `s` is the statement that node `c` writes: its variant, its location,
/// the text it takes from the source and, in turn, its expressions and
/// blocks (the parts of a `for` loop other than its body, and the parts of
/// declarations and assignments, are described by name only).
pub open spec fn stmt_is(s: Statement, tree: &SyntaxTree, file: Seq<char>, c: int) -> bool
    decreases tree.len() - c, 1int,
{
    let k = tree.kind(c);
    let ks = tree.kids(c);
    let n = ks.len();
    if !in_tree(tree, c) {
        false
    } else if k == NodeKind::MarkStm {
        s matches Statement::Mark { loc, key, value, lhs } && loc.is_node(tree, file, c) && ks.len() == 2
            && expr_is(lhs, tree, file, ks[0] as int) && key@ == text_or_empty(tree, ks[1] as int, 0)
            && value@ == text_or_empty(tree, ks[1] as int, 1)
    } else if k == NodeKind::Label {
        s matches Statement::Label { loc, label } && loc.is_node(tree, file, c) && label@ == tree.text(
            ks[0] as int,
        )
    } else if k == NodeKind::GotoStm {
        s matches Statement::Goto { loc, label } && loc.is_node(tree, file, c) && label@ == tree.text(
            ks[0] as int,
        )
    } else if k == NodeKind::ContinueStm {
        s matches Statement::Continue { loc } && loc.is_node(tree, file, c)
    } else if k == NodeKind::BreakStm {
        s matches Statement::Break { loc } && loc.is_node(tree, file, c)
    } else if k == NodeKind::Block {
        s matches Statement::Block(b) && block_is(*b, tree, file, c)
    } else if k == NodeKind::ReturnStm {
        s matches Statement::Return { loc, expr } && loc.is_node(tree, file, c) && (expr is Some
            <==> ks.len() == 2) && (ks.len() == 2 ==> (expr matches Some(x) && expr_is(x, tree, file, ks[1] as int)))
    } else if k == NodeKind::Expr {
        s matches Statement::Expr { loc, expr } && loc.is_node(tree, file, c) && expr_is(expr, tree, file, c)
    } else if k == NodeKind::IfStm || k == NodeKind::ElseifStm {
        s matches Statement::Cond { op, expr, body } && op@ == (if k == NodeKind::IfStm {
            "if"@
        } else {
            "else if"@
        }) && ks.len() == 2 && (expr matches Some(x) && expr_is(x, tree, file, ks[0] as int)) && block_is(
            body,
            tree,
            file,
            ks[1] as int,
        )
    } else if k == NodeKind::ElseStm {
        s matches Statement::Cond { op, expr, body } && op@ == "else"@ && expr is None && ks.len() == 1
            && block_is(body, tree, file, ks[0] as int)
    } else if k == NodeKind::ForStm {
        s matches Statement::For { e1, e2, e3, body } && slot_is(e1, tree, file, c, for_slot(tree, c, n as int, 1))
            && slot_is(e2, tree, file, c, for_slot(tree, c, n as int, 2)) && slot_is(
            e3,
            tree,
            file,
            c,
            for_slot(tree, c, n as int, 3),
        ) && body_is(Some(body), tree, file, c, for_body(tree, c, n as int))
    } else if k == NodeKind::Vardecl {
        s matches Statement::Var { loc, name, typed, tags, array, assign } && loc.is_node(tree, file, c)
            && var_named_is(name, typed, tags, tree, file, last_of_kind(tree, ks, n as int, NodeKind::NamedType))
            && opt_expr_at(
            array,
            tree,
            file,
            match last_of_kind(tree, ks, n as int, NodeKind::Array) {
                Some(a) => Some(tree.kids(a as int)[0]),
                None => None,
            },
        ) && opt_expr_at(assign, tree, file, last_of_kind(tree, ks, n as int, NodeKind::Expr))
    } else if k == NodeKind::Assign {
        s matches Statement::Assign { loc, op, lhs, rhs } && loc.is_node(tree, file, c) && opt_expr_at(
            Some(lhs),
            tree,
            file,
            last_of_kind(tree, ks, n as int, NodeKind::Lhs),
        ) && opt_expr_at(Some(rhs), tree, file, last_of_kind(tree, ks, n as int, NodeKind::Expr)) && (
        last_of_kind(tree, ks, n as int, NodeKind::Assignop) matches Some(d) && op@ == tree.text(d as int))
    } else {
        false
    }
}

/// `x` is the expression that node `d` writes, or nothing where there is no
/// such node.
pub open spec fn opt_expr_at(x: Option<Expression>, tree: &SyntaxTree, file: Seq<char>, d: Option<usize>) -> bool {
    match d {
        Some(d) => x matches Some(e) && expr_is(e, tree, file, d as int),
        None => x is None,
    }
}

/// The name, type and attributes of a variable declaration are those of
/// its typed node `d`.
pub open spec fn var_named_is(
    name: String,
    typed: Typed,
    tags: Tags,
    tree: &SyntaxTree,
    file: Seq<char>,
    d: Option<usize>,
) -> bool {
    match d {
        Some(d) => {
            let d = d as int;
            &&& name@ == tree.text(tree.kids(d).last() as int)
            &&& typed_is(typed, tree, file, d, type_parts(tree, d, true))
            &&& tags_are(tags, tree, file, chain(tree, type_parts(tree, d, true)).1)
        },
        None => false,
    }
}

/// One slot of `for` node `c`: the statement that node `d` writes, or
/// nothing where the slot is empty.
pub open spec fn slot_is(e: Option<Box<Statement>>, tree: &SyntaxTree, file: Seq<char>, c: int, d: Option<int>) -> bool
    decreases tree.len() - c, 0int,
{
    match d {
        Some(d) => c < d < tree.len() && (e matches Some(x) && stmt_is(*x, tree, file, d)),
        None => e is None,
    }
}

/// The body of `for` node `c`: the block that node `d` writes.
pub open spec fn body_is(b: Option<Block>, tree: &SyntaxTree, file: Seq<char>, c: int, d: Option<int>) -> bool
    decreases tree.len() - c, 0int,
{
    match d {
        Some(d) => c < d < tree.len() && (b matches Some(x) && block_is(x, tree, file, d)),
        None => b is None,
    }
}

/// The last child among the first `k` children of `for` node `c` that falls
/// into slot `slot` (1: start, 2: condition, 3: step).
pub open spec fn for_slot(tree: &SyntaxTree, c: int, k: int, slot: int) -> Option<int>
    decreases k,
{
    if k <= 0 || !in_tree(tree, c) || k > tree.kids(c).len() {
        None
    } else {
        let d = tree.kids(c)[k - 1] as int;
        match for_upto(tree, c, k - 1) {
            Some((cur, body)) => if tree.kind(d) != NodeKind::Semicolon && !(tree.kind(d) == NodeKind::Block
                && cur == 3 && !body) && cur == slot {
                Some(d)
            } else {
                for_slot(tree, c, k - 1, slot)
            },
            None => for_slot(tree, c, k - 1, slot),
        }
    }
}

/// The body among the first `k` children of `for` node `c`: the first block
/// in the third slot.
pub open spec fn for_body(tree: &SyntaxTree, c: int, k: int) -> Option<int>
    decreases k,
{
    if k <= 0 || !in_tree(tree, c) || k > tree.kids(c).len() {
        None
    } else {
        let d = tree.kids(c)[k - 1] as int;
        match for_upto(tree, c, k - 1) {
            Some((cur, body)) => if tree.kind(d) == NodeKind::Block && cur == 3 && !body {
                Some(d)
            } else {
                for_body(tree, c, k - 1)
            },
            None => for_body(tree, c, k - 1),
        }
    }
}

/// The first `k` children of block node `i` are well-formed statements.
pub open spec fn stmts_upto(tree: &SyntaxTree, i: int, k: int) -> bool
    decreases tree.len() - i, 0int, k,
{
    if !in_tree(tree, i) || k > tree.kids(i).len() {
        false
    } else if k <= 0 {
        true
    } else {
        stmts_upto(tree, i, k - 1) && stmt_ok(tree, tree.kids(i)[k - 1] as int)
    }
}

/// Node `i` holds a well-formed block.
pub open spec fn block_ok(tree: &SyntaxTree, i: int) -> bool
    decreases tree.len() - i, 1int, 0int,
{
    in_tree(tree, i) && tree.kind(i) == NodeKind::Block && stmts_upto(tree, i, tree.kids(i).len() as int)
}

/// After the first `k` children of `for` node `c`: the slot reached (1 to
/// 3, or 4 past the last), and whether the body was seen; nothing once a
/// child is out of place or malformed.
pub open spec fn for_upto(tree: &SyntaxTree, c: int, k: int) -> Option<(int, bool)>
    decreases tree.len() - c, 0int, k,
{
    if !in_tree(tree, c) || k > tree.kids(c).len() {
        None
    } else if k <= 0 {
        Some((1, false))
    } else {
        let d = tree.kids(c)[k - 1] as int;
        match for_upto(tree, c, k - 1) {
            None => None,
            Some((cur, body)) => if tree.kind(d) == NodeKind::Semicolon {
                Some((if cur < 4 { cur + 1 } else { cur }, body))
            } else if tree.kind(d) == NodeKind::Block && cur == 3 && !body {
                if block_ok(tree, d) { Some((cur, true)) } else { None }
            } else if cur <= 3 && stmt_ok(tree, d) {
                Some((cur, body))
            } else {
                None
            },
        }
    }
}

/// Part `d` of a variable declaration is well formed: the typed name, the
/// initializer, or the array size.
pub open spec fn var_part_ok(tree: &SyntaxTree, d: int) -> bool {
    let k = tree.kind(d);
    if k == NodeKind::NamedType {
        named_type_ok(tree, d)
    } else if k == NodeKind::Expr {
        expr_ok(tree, d)
    } else if k == NodeKind::Array {
        tree.kids(d).len() == 1 && expr_ok(tree, tree.kids(d)[0] as int)
    } else {
        false
    }
}

/// After the first `k` children of assignment node `c`: whether the left
/// side, the operator and the right side were seen; nothing once a child is
/// out of place or malformed.
pub open spec fn assign_upto(tree: &SyntaxTree, c: int, k: int) -> Option<(bool, bool, bool)>
    decreases k,
{
    if !in_tree(tree, c) || k > tree.kids(c).len() {
        None
    } else if k <= 0 {
        Some((false, false, false))
    } else {
        let d = tree.kids(c)[k - 1] as int;
        match assign_upto(tree, c, k - 1) {
            None => None,
            Some((l, o, r)) => if tree.kind(d) == NodeKind::Lhs && !l {
                if expr_ok(tree, d) { Some((true, o, r)) } else { None }
            } else if tree.kind(d) == NodeKind::Assignop {
                Some((l, true, r))
            } else if tree.kind(d) == NodeKind::Expr && !r {
                if expr_ok(tree, d) { Some((l, o, true)) } else { None }
            } else {
                None
            },
        }
    }
}

/// Node `c` holds a well-formed statement.
pub open spec fn stmt_ok(tree: &SyntaxTree, c: int) -> bool
    decreases tree.len() - c, 2int, 0int,
{
    if !in_tree(tree, c) {
        false
    } else {
        let k = tree.kind(c);
        let ks = tree.kids(c);
        let n = ks.len();
        if k == NodeKind::MarkStm {
            n == 2 && expr_ok(tree, ks[0] as int) && tree.kids(ks[1] as int).len() >= 1
        } else if k == NodeKind::Label || k == NodeKind::GotoStm {
            n >= 1
        } else if k == NodeKind::ContinueStm || k == NodeKind::BreakStm {
            true
        } else if k == NodeKind::Block {
            block_ok(tree, c)
        } else if k == NodeKind::ReturnStm {
            1 <= n <= 2 && tree.kind(ks[0] as int) == NodeKind::KeyReturn && (n == 2 ==> expr_ok(
                tree,
                ks[1] as int,
            ))
        } else if k == NodeKind::Expr {
            expr_ok(tree, c)
        } else if k == NodeKind::IfStm || k == NodeKind::ElseifStm {
            n == 2 && expr_ok(tree, ks[0] as int) && block_ok(tree, ks[1] as int)
        } else if k == NodeKind::ElseStm {
            n == 1 && block_ok(tree, ks[0] as int)
        } else if k == NodeKind::ForStm {
            for_upto(tree, c, n as int) matches Some((_, body)) && body
        } else if k == NodeKind::Vardecl {
            &&& forall|j: int| 0 <= j < n ==> var_part_ok(tree, #[trigger] ks[j] as int)
            &&& exists|j: int| 0 <= j < n && tree.kind(#[trigger] ks[j] as int) == NodeKind::NamedType
        } else if k == NodeKind::Assign {
            assign_upto(tree, c, n as int) == Some((true, true, true))
        } else {
            false
        }
    }
}

/// A block that is well formed up to `n` is well formed up to any `k <= n`.
proof fn lemma_stmts_prefix(tree: &SyntaxTree, i: int, k: int, n: int)
    requires
        0 <= k <= n,
        stmts_upto(tree, i, n),
    ensures
        stmts_upto(tree, i, k),
    decreases n - k,
{
    if k < n {
        lemma_stmts_prefix(tree, i, k, n - 1);
    }
}

/// Once a `for` loop's children go wrong, they stay wrong.
proof fn lemma_for_fails(tree: &SyntaxTree, c: int, k: int, n: int)
    requires
        0 <= k <= n,
        for_upto(tree, c, k) is None,
    ensures
        for_upto(tree, c, n) is None,
    decreases n - k,
{
    if k < n {
        lemma_for_fails(tree, c, k, n - 1);
    }
}

/// Once an assignment's children go wrong, they stay wrong.
proof fn lemma_assign_fails(tree: &SyntaxTree, c: int, k: int, n: int)
    requires
        0 <= k <= n,
        assign_upto(tree, c, k) is None,
    ensures
        assign_upto(tree, c, n) is None,
    decreases n - k,
{
    if k < n {
        lemma_assign_fails(tree, c, k, n - 1);
    }
}

/// One of the kinds of error that statements can raise.
pub open spec fn stmt_error(k: ErrorKind) -> bool {
    k == ErrorKind::AnonymousTags || k == ErrorKind::ExpectedName || k == ErrorKind::Unexpected
}

fn sub_expr(tree: &SyntaxTree, file: &String, d: usize) -> (r: Result<Expression, SyntaxError>)
    requires
        tree.wf(),
        d < tree.len(),
    ensures
        r is Ok <==> expr_ok(tree, d as int),
        r matches Ok(e) ==> expr_is(e, tree, file@, d as int),
        r matches Err(e) ==> stmt_error(e.kind),
{
    parse_expr(tree, file, d)
}

/// Builds the block at node `i`: its statements in source order, and the
/// empty location at its end.
pub fn parse_block(tree: &SyntaxTree, file: &String, i: usize) -> (r: Result<Block, SyntaxError>)
    requires
        tree.wf(),
        i < tree.len(),
    ensures
        r is Ok <==> block_ok(tree, i as int),
        r is Ok ==> tree.kind(i as int) == NodeKind::Block,
        r matches Ok(b) ==> block_is(b, tree, file@, i as int),
        r matches Err(e) ==> stmt_error(e.kind),
    decreases tree.len() - i, 0usize,
{
    if tree.kind_of(i) != NodeKind::Block {
        return Err(SyntaxError::unexpected(tree, file, i));
    }
    let end = Location { file: file.clone(), start: tree.nodes[i].end, end: tree.nodes[i].end };
    let n = tree.n_kids(i);
    let ghost ks = tree.kids(i as int);
    let mut statements: Vec<Statement> = Vec::new();
    let mut k: usize = 0;
    while k < n
        invariant
            tree.wf(),
            i < tree.len(),
            ks == tree.kids(i as int),
            n == ks.len(),
            k <= n,
            statements@.len() == k,
            forall|j: int|
                0 <= j < k ==> stmt_is(#[trigger] statements@[j], tree, file@, ks[j] as int),
            tree.kind(i as int) == NodeKind::Block,
            stmts_upto(tree, i as int, k as int),
        decreases n - k,
    {
        let s = match parse_statement(tree, file, tree.child(i, k)) {
            Ok(s) => s,
            Err(e) => {
                proof {
                    if stmts_upto(tree, i as int, n as int) {
                        lemma_stmts_prefix(tree, i as int, k + 1, n as int);
                    }
                }
                return Err(e);
            },
        };
        statements.push(s);
        k = k + 1;
    }
    Ok(Block { statements, end })
}

/// Builds the statement at node `c`.
pub fn parse_statement(tree: &SyntaxTree, file: &String, c: usize) -> (r: Result<Statement, SyntaxError>)
    requires
        tree.wf(),
        c < tree.len(),
    ensures
        r is Ok <==> stmt_ok(tree, c as int),
        r matches Ok(s) ==> stmt_is(s, tree, file@, c as int),
        r matches Err(e) ==> stmt_error(e.kind),
    decreases tree.len() - c, 1usize,
{
    let kind = tree.kind_of(c);
    let n = tree.n_kids(c);
    let loc = Location::of_node(tree, file, c);
    if kind == NodeKind::MarkStm {
        if n != 2 {
            return Err(SyntaxError::unexpected(tree, file, c));
        }
        let lhs = match sub_expr(tree, file, tree.child(c, 0)) {
            Ok(e) => e,
            Err(e) => return Err(e),
        };
        let t = tree.child(c, 1);
        if tree.n_kids(t) < 1 {
            return Err(SyntaxError::unexpected(tree, file, t));
        }
        let key = tree.text_of(tree.child(t, 0));
        let value = if tree.n_kids(t) > 1 {
            tree.text_of(tree.child(t, 1))
        } else {
            String::new()
        };
        Ok(Statement::Mark { loc, lhs, key, value })
    } else if kind == NodeKind::Label || kind == NodeKind::GotoStm {
        if n < 1 {
            return Err(SyntaxError::unexpected(tree, file, c));
        }
        let label = tree.text_of(tree.child(c, 0));
        if kind == NodeKind::Label {
            Ok(Statement::Label { loc, label })
        } else {
            Ok(Statement::Goto { loc, label })
        }
    } else if kind == NodeKind::ContinueStm {
        Ok(Statement::Continue { loc })
    } else if kind == NodeKind::BreakStm {
        Ok(Statement::Break { loc })
    } else if kind == NodeKind::Block {
        match parse_block(tree, file, c) {
            Ok(b) => Ok(Statement::Block(Box::new(b))),
            Err(e) => Err(e),
        }
    } else if kind == NodeKind::ReturnStm {
        if n < 1 || n > 2 || tree.kind_of(tree.child(c, 0)) != NodeKind::KeyReturn {
            return Err(SyntaxError::unexpected(tree, file, c));
        }
        let expr = if n == 2 {
            match sub_expr(tree, file, tree.child(c, 1)) {
                Ok(e) => Some(e),
                Err(e) => return Err(e),
            }
        } else {
            None
        };
        Ok(Statement::Return { loc, expr })
    } else if kind == NodeKind::Expr {
        match sub_expr(tree, file, c) {
            Ok(expr) => Ok(Statement::Expr { loc, expr }),
            Err(e) => Err(e),
        }
    } else if kind == NodeKind::IfStm || kind == NodeKind::ElseifStm {
        if n != 2 {
            return Err(SyntaxError::unexpected(tree, file, c));
        }
        let expr = match sub_expr(tree, file, tree.child(c, 0)) {
            Ok(e) => e,
            Err(e) => return Err(e),
        };
        let body = match parse_block(tree, file, tree.child(c, 1)) {
            Ok(b) => b,
            Err(e) => return Err(e),
        };
        let op = if kind == NodeKind::IfStm {
            "if".to_owned()
        } else {
            "else if".to_owned()
        };
        Ok(Statement::Cond { op, expr: Some(expr), body })
    } else if kind == NodeKind::ElseStm {
        if n != 1 {
            return Err(SyntaxError::unexpected(tree, file, c));
        }
        let body = match parse_block(tree, file, tree.child(c, 0)) {
            Ok(b) => b,
            Err(e) => return Err(e),
        };
        Ok(Statement::Cond { op: "else".to_owned(), expr: None, body })
    } else if kind == NodeKind::ForStm {
        parse_for(tree, file, c)
    } else if kind == NodeKind::Vardecl {
        parse_var(tree, file, c)
    } else if kind == NodeKind::Assign {
        parse_assign(tree, file, c)
    } else {
        Err(SyntaxError::unexpected(tree, file, c))
    }
}

/// Builds the variable declaration at node `c`: its typed name, and its
/// array size and initializer where they are written.
fn parse_var(tree: &SyntaxTree, file: &String, c: usize) -> (r: Result<Statement, SyntaxError>)
    requires
        tree.wf(),
        c < tree.len(),
        tree.kind(c as int) == NodeKind::Vardecl,
    ensures
        r is Ok <==> stmt_ok(tree, c as int),
        r matches Ok(s) ==> stmt_is(s, tree, file@, c as int),
        r matches Err(e) ==> stmt_error(e.kind),
{
    let n = tree.n_kids(c);
    let loc = Location::of_node(tree, file, c);
    let mut typed: Option<TypedName> = None;
    let mut assign: Option<Expression> = None;
    let mut array: Option<Expression> = None;
    let ghost ks = tree.kids(c as int);
    let mut k: usize = 0;
    while k < n
        invariant
            tree.wf(),
            c < tree.len(),
            ks == tree.kids(c as int),
            n == ks.len(),
            k <= n,
            tree.kind(c as int) == NodeKind::Vardecl,
            forall|j: int| 0 <= j < k ==> var_part_ok(tree, #[trigger] ks[j] as int),
            typed is Some <==> exists|j: int|
                0 <= j < k && tree.kind(#[trigger] ks[j] as int) == NodeKind::NamedType,
            typed is None <==> last_of_kind(tree, ks, k as int, NodeKind::NamedType) is None,
            typed matches Some(t) ==> var_named_is(
                t.name,
                t.typed,
                t.tags,
                tree,
                file@,
                last_of_kind(tree, ks, k as int, NodeKind::NamedType),
            ),
            opt_expr_at(assign, tree, file@, last_of_kind(tree, ks, k as int, NodeKind::Expr)),
            opt_expr_at(
                array,
                tree,
                file@,
                match last_of_kind(tree, ks, k as int, NodeKind::Array) {
                    Some(a) => Some(tree.kids(a as int)[0]),
                    None => None,
                },
            ),
        decreases n - k,
    {
        let p = tree.child(c, k);
        let pk = tree.kind_of(p);
        assert(ks[k as int] == p);
        if pk == NodeKind::NamedType {
            typed = match parse_named_type(tree, file, p) {
                Ok(t) => Some(t),
                Err(e) => return Err(e),
            };

        } else if pk == NodeKind::Expr {
            assign = match sub_expr(tree, file, p) {
                Ok(e) => Some(e),
                Err(e) => return Err(e),
            };
        } else if pk == NodeKind::Array && tree.n_kids(p) == 1 {
            array = match sub_expr(tree, file, tree.child(p, 0)) {
                Ok(e) => Some(e),
                Err(e) => return Err(e),
            };
        } else {
            return Err(SyntaxError::unexpected(tree, file, p));
        }
        assert(typed is Some <==> exists|j: int|
            0 <= j < k + 1 && tree.kind(#[trigger] ks[j] as int) == NodeKind::NamedType) by {
            if typed is Some && pk != NodeKind::NamedType {
                let j = choose|j: int| 0 <= j < k && tree.kind(#[trigger] ks[j] as int) == NodeKind::NamedType;
            }
        }
        k = k + 1;
    }
    match typed {
        Some(t) => Ok(Statement::Var { loc, typed: t.typed, name: t.name, tags: t.tags, array, assign }),
        None => Err(SyntaxError::unexpected(tree, file, c)),
    }
}

/// Builds the assignment at node `c`: its left side, operator and right
/// side.
fn parse_assign(tree: &SyntaxTree, file: &String, c: usize) -> (r: Result<Statement, SyntaxError>)
    requires
        tree.wf(),
        c < tree.len(),
        tree.kind(c as int) == NodeKind::Assign,
    ensures
        r is Ok <==> stmt_ok(tree, c as int),
        r matches Ok(s) ==> stmt_is(s, tree, file@, c as int),
        r matches Err(e) ==> stmt_error(e.kind),
{
    let n = tree.n_kids(c);
    let loc = Location::of_node(tree, file, c);
    let mut lhs: Option<Expression> = None;
    let mut rhs: Option<Expression> = None;
    let mut op: Option<String> = None;
    let ghost ks = tree.kids(c as int);
    let mut k: usize = 0;
    while k < n
        invariant
            tree.wf(),
            c < tree.len(),
            n == tree.kids(c as int).len(),
            k <= n,
            tree.kind(c as int) == NodeKind::Assign,
            assign_upto(tree, c as int, k as int) == Some((lhs is Some, op is Some, rhs is Some)),
            ks == tree.kids(c as int),
            op is None <==> last_of_kind(tree, ks, k as int, NodeKind::Assignop) is None,
            op matches Some(o) ==> (last_of_kind(tree, ks, k as int, NodeKind::Assignop) matches Some(d)
                && o@ == tree.text(d as int)),
            opt_expr_at(lhs, tree, file@, last_of_kind(tree, ks, k as int, NodeKind::Lhs)),
            opt_expr_at(rhs, tree, file@, last_of_kind(tree, ks, k as int, NodeKind::Expr)),
        decreases n - k,
    {
        let p = tree.child(c, k);
        let pk = tree.kind_of(p);
        proof {
            if assign_upto(tree, c as int, k + 1) is None {
                lemma_assign_fails(tree, c as int, k + 1, n as int);
            }
        }
        if pk == NodeKind::Lhs && lhs.is_none() {
            lhs = match sub_expr(tree, file, p) {
                Ok(e) => Some(e),
                Err(e) => return Err(e),
            };
        } else if pk == NodeKind::Assignop {
            op = Some(tree.text_of(p));

        } else if pk == NodeKind::Expr && rhs.is_none() {
            rhs = match sub_expr(tree, file, p) {
                Ok(e) => Some(e),
                Err(e) => return Err(e),
            };
        } else {
            return Err(SyntaxError::unexpected(tree, file, p));
        }
        k = k + 1;
    }
    match (lhs, op, rhs) {
        (Some(lhs), Some(op), Some(rhs)) => Ok(Statement::Assign { loc, lhs, op, rhs }),
        _ => Err(SyntaxError::unexpected(tree, file, c)),
    }
}

/// Builds a `for` loop at node `c`. Its children fall into three slots
/// (start, condition, step) separated by semicolon nodes; each slot holds a
/// statement, and the first block in the third slot is the body.
fn parse_for(tree: &SyntaxTree, file: &String, c: usize) -> (r: Result<Statement, SyntaxError>)
    requires
        tree.wf(),
        c < tree.len(),
        tree.kind(c as int) == NodeKind::ForStm,
    ensures
        r is Ok <==> stmt_ok(tree, c as int),
        r matches Ok(s) ==> stmt_is(s, tree, file@, c as int),
        r matches Err(e) ==> stmt_error(e.kind),
    decreases tree.len() - c, 0usize,
{
    let n = tree.n_kids(c);
    let mut e1: Option<Box<Statement>> = None;
    let mut e2: Option<Box<Statement>> = None;
    let mut e3: Option<Box<Statement>> = None;
    let mut body: Option<Block> = None;
    let mut cur: usize = 1;
    let ghost ks = tree.kids(c as int);
    let mut k: usize = 0;
    while k < n
        invariant
            tree.wf(),
            c < tree.len(),
            n == tree.kids(c as int).len(),
            k <= n,
            1 <= cur <= 4,
            tree.kind(c as int) == NodeKind::ForStm,
            for_upto(tree, c as int, k as int) == Some((cur as int, body is Some)),
            ks == tree.kids(c as int),
            slot_is(e1, tree, file@, c as int, for_slot(tree, c as int, k as int, 1)),
            slot_is(e2, tree, file@, c as int, for_slot(tree, c as int, k as int, 2)),
            slot_is(e3, tree, file@, c as int, for_slot(tree, c as int, k as int, 3)),
            body_is(body, tree, file@, c as int, for_body(tree, c as int, k as int)),
        decreases n - k,
    {
        let p = tree.child(c, k);
        let pk = tree.kind_of(p);
        proof {
            if for_upto(tree, c as int, k + 1) is None {
                lemma_for_fails(tree, c as int, k + 1, n as int);
            }
        }
        if pk == NodeKind::Semicolon {
            if cur < 4 {
                cur = cur + 1;
            }
        } else if pk == NodeKind::Block && cur == 3 && body.is_none() {
            body = match parse_block(tree, file, p) {
                Ok(b) => Some(b),
                Err(e) => return Err(e),
            };

        } else if cur <= 3 {
            let s = match parse_statement(tree, file, p) {
                Ok(s) => Box::new(s),
                Err(e) => return Err(e),
            };
            if cur == 1 {
                e1 = Some(s);
            } else if cur == 2 {
                e2 = Some(s);
            } else {
                e3 = Some(s);
            }
        } else {
            return Err(SyntaxError::unexpected(tree, file, p));
        }
        k = k + 1;
    }
    match body {
        Some(body) => Ok(Statement::For { e1, e2, e3, body }),
        None => Err(SyntaxError::unexpected(tree, file, c)),
    }
}

} // verus!
