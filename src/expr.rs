//! Expressions.
//!
//! An expression node holds operands separated by binary operators. Unary
//! operators, calls, member and array access and casts are folded into their
//! operand where they stand; the chain of binary operators is kept flat, in
//! source order, and its precedence is resolved by a later pass.
use vstd::prelude::*;
use crate::ast::{ErrorKind, Expression, Location, Name, SyntaxError, Typed};
use crate::names::split_path;
use crate::syntax::{NodeKind, SyntaxTree};
use crate::types::{parse_anon_type, type_parts, typed_is, anon_type_shape, anon_trailing_tags};

verus! {

/// Node `i` is one of the rules that hold an expression.
pub open spec fn is_expr_node(tree: &SyntaxTree, i: int) -> bool {
    tree.kind(i) == NodeKind::Expr || tree.kind(i) == NodeKind::Lhs || tree.kind(i) == NodeKind::Termish
}

/// The children of node `i` alternate operand, operator, operand, ...,
/// starting and ending with an operand.
pub open spec fn alternates(tree: &SyntaxTree, i: int) -> bool {
    let ks = tree.kids(i);
    &&& ks.len() % 2 == 1
    &&& forall|k: int| 0 <= k < ks.len() ==> ((tree.kind(#[trigger] ks[k] as int) == NodeKind::Infix) <==> k % 2 == 1)
}

/// Number of binary operators in the chain of node `i`.
pub open spec fn operator_count(tree: &SyntaxTree, i: int) -> int {
    tree.kids(i).len() as int / 2
}

/// `t` names what node `c` says, with no pointer levels.
pub open spec fn plain_name_is(t: Typed, tree: &SyntaxTree, file: Seq<char>, c: int) -> bool {
    &&& t.loc.is_node(tree, file, c)
    &&& t.name.parts_view() == split_path(tree.text(c))
    &&& t.ptr@.len() == 0
}

/// Node `c`'s rule is a literal.
pub open spec fn is_literal(k: NodeKind) -> bool {
    k == NodeKind::NumberLiteral || k == NodeKind::StringLiteral || k == NodeKind::CharLiteral
}

/// `e` is the expression that node `i` writes: its single operand, or the
/// flat chain of its operands and operators.
pub open spec fn expr_is(e: Expression, tree: &SyntaxTree, file: Seq<char>, i: int) -> bool
    decreases tree.len() - i, 1int,
{
    let ks = tree.kids(i);
    if !in_tree(tree, i) || ks.len() == 0 {
        false
    } else if operator_count(tree, i) == 0 {
        term_is(e, tree, file, ks[0] as int)
    } else {
        e matches Expression::InfixOperation { loc, lhs, rhs } && {
            &&& loc.is_node(tree, file, i)
            &&& term_is(*lhs, tree, file, ks[0] as int)
            &&& rhs@.len() == operator_count(tree, i)
            &&& forall|j: int|
                0 <= j < rhs@.len() ==> {
                    &&& (#[trigger] rhs@[j]).0.0@ == tree.text(ks[2 * j + 1] as int)
                    &&& rhs@[j].0.1.is_node(tree, file, ks[2 * j + 1] as int)
                    &&& 2 * j + 2 < ks.len() ==> term_is(*rhs@[j].1, tree, file, ks[2 * j + 2] as int)
                }
        }
    }
}

/// `fd` is the field name and value that node `f` of a struct initializer
/// writes.
pub open spec fn field_init_is(fd: (String, Box<Expression>), tree: &SyntaxTree, file: Seq<char>, f: int) -> bool
    decreases tree.len() - f, 3int,
{
    let ks = tree.kids(f);
    &&& in_tree(tree, f)
    &&& ks.len() == 2
    &&& fd.0@ == tree.text(ks[0] as int)
    &&& expr_is(*fd.1, tree, file, ks[1] as int)
}

/// `e` is the operand of a unary operator or access at node `d`: a bare
/// name, or a nested expression.
pub open spec fn operand_is(e: Expression, tree: &SyntaxTree, file: Seq<char>, d: int) -> bool
    decreases tree.len() - d, 2int,
{
    if !in_tree(tree, d) {
        false
    } else if tree.kind(d) == NodeKind::TypeName {
        e matches Expression::Name(t) && plain_name_is(t, tree, file, d)
    } else {
        expr_is(e, tree, file, d)
    }
}

/// `e` is the operand that node `c` writes: its variant, its location, the
/// text it takes from the source and, in turn, its sub-expressions.
pub open spec fn term_is(e: Expression, tree: &SyntaxTree, file: Seq<char>, c: int) -> bool
    decreases tree.len() - c, 2int,
{
    let k = tree.kind(c);
    let ks = tree.kids(c);
    if !in_tree(tree, c) {
        false
    } else if k == NodeKind::Expr {
        expr_is(e, tree, file, c)
    } else if k == NodeKind::TypeName {
        e matches Expression::Name(t) && plain_name_is(t, tree, file, c)
    } else if is_literal(k) {
        e matches Expression::Literal { loc, v } && loc.is_node(tree, file, c) && v@ == tree.text(c)
    } else if k == NodeKind::Unarypre {
        e matches Expression::UnaryPre { loc, op, expr } && loc.is_node(tree, file, c) && op@ == tree.text(
            ks[0] as int,
        ) && ks.len() == 2 && operand_is(*expr, tree, file, ks[1] as int)
    } else if k == NodeKind::Unarypost {
        e matches Expression::UnaryPost { loc, op, expr } && loc.is_node(tree, file, c) && op@ == tree.text(
            ks[1] as int,
        ) && ks.len() == 2 && operand_is(*expr, tree, file, ks[0] as int)
    } else if k == NodeKind::Deref || k == NodeKind::Takeref {
        e matches Expression::UnaryPre { loc, op, expr } && ks.len() == 1 && operand_is(*expr, tree, file, ks[0] as int)
            && loc.is_node(tree, file, c) && op@ == (if k
            == NodeKind::Deref {
            "*"@
        } else {
            "&"@
        })
    } else if k == NodeKind::Cast {
        e matches Expression::Cast { loc, into, expr } && loc.is_node(tree, file, c) && typed_is(
            into,
            tree,
            file,
            ks[0] as int,
            type_parts(tree, ks[0] as int, false),
        ) && ks.len() == 2 && expr_is(*expr, tree, file, ks[1] as int)
    } else if k == NodeKind::PtrAccess || k == NodeKind::MemberAccess {
        e matches Expression::MemberAccess { loc, op, rhs, lhs } && ks.len() == 2 && operand_is(
            *lhs,
            tree,
            file,
            ks[0] as int,
        ) && loc.is_node(tree, file, c) && op@
            == (if k == NodeKind::PtrAccess {
            "->"@
        } else {
            "."@
        }) && rhs@ == tree.text(ks[1] as int)
    } else if k == NodeKind::ArrayAccess {
        e matches Expression::ArrayAccess { loc, lhs, rhs } && loc.is_node(tree, file, c) && ks.len() == 2
            && operand_is(*lhs, tree, file, ks[0] as int) && tree.kids(ks[1] as int).len() == 1
            && expr_is(*rhs, tree, file, tree.kids(ks[1] as int)[0] as int)
    } else if k == NodeKind::Call {
        e matches Expression::Call { loc, name, args } && loc.is_node(tree, file, c) && plain_name_is(
            name,
            tree,
            file,
            ks[0] as int,
        ) && args@.len() == (if ks.len() > 1 {
            tree.kids(ks[1] as int).len()
        } else {
            0
        }) && forall|j: int|
            0 <= j < args@.len() ==> expr_is(
                *(#[trigger] args@[j]),
                tree,
                file,
                tree.kids(ks[1] as int)[j] as int,
            )
    } else if k == NodeKind::ArrayInit {
        e matches Expression::ArrayInit { loc, fields } && loc.is_node(tree, file, c) && fields@.len()
            == ks.len() && forall|j: int|
            0 <= j < fields@.len() ==> expr_is(*(#[trigger] fields@[j]), tree, file, ks[j] as int)
    } else if k == NodeKind::StructInit {
        e matches Expression::StructInit { loc, typed, fields } && loc.is_node(tree, file, c)
            && typed_is(typed, tree, file, ks[0] as int, type_parts(tree, ks[0] as int, false))
            && fields@.len() == ks.len() - 1 && forall|f: int|
            0 <= f < fields@.len() ==> field_init_is(#[trigger] fields@[f], tree, file, ks[f + 1] as int)
    } else {
        false
    }
}

/// The target type of a cast or struct initializer at node `c` carries
/// attributes after its last pointer level.
pub open spec fn target_has_tags(tree: &SyntaxTree, c: int) -> bool {
    let k = tree.kind(c);
    &&& k == NodeKind::Cast && tree.kids(c).len() == 2 || k == NodeKind::StructInit && tree.kids(c).len() >= 1
    &&& anon_type_shape(tree, tree.kids(c)[0] as int)
    &&& anon_trailing_tags(tree, tree.kids(c)[0] as int).len() > 0
}

/// What the children of a node hold, for [`kids_ok`].
pub enum ListShape {
    /// Operands at even positions, operators at odd ones.
    Chain,
    /// Each child is an expression (the arguments of a call).
    Args,
    /// Each child is a term expression (the elements of an array initializer).
    Elems,
    /// After the type at position 0, each child is a field name and its
    /// expression (the fields of a struct initializer).
    Fields,
}

/// Node `i` is in the tree, and the tree is well formed.
pub open spec fn in_tree(tree: &SyntaxTree, i: int) -> bool {
    tree.wf() && 0 <= i < tree.len()
}

/// The first `k` children of node `i` are what `shape` asks for.
pub open spec fn kids_ok(tree: &SyntaxTree, i: int, k: int, shape: ListShape) -> bool
    decreases tree.len() - i, 0int, k,
{
    if !in_tree(tree, i) || k > tree.kids(i).len() {
        false
    } else if k <= 0 {
        true
    } else {
        let p = k - 1;
        let c = tree.kids(i)[p] as int;
        &&& kids_ok(tree, i, p, shape)
        &&& match shape {
            ListShape::Chain => if p % 2 == 0 {
                tree.kind(c) != NodeKind::Infix && term_ok(tree, c)
            } else {
                tree.kind(c) == NodeKind::Infix
            },
            ListShape::Args => expr_ok(tree, c),
            ListShape::Elems => tree.kind(c) == NodeKind::Termish && expr_ok(tree, c),
            ListShape::Fields => p == 0 || tree.kind(c) == NodeKind::StructInitField && tree.kids(c).len()
                == 2 && expr_ok(tree, tree.kids(c)[1] as int),
        }
    }
}

/// Node `i` holds a well-formed expression: operands and operators
/// alternate, and every operand is well formed.
pub open spec fn expr_ok(tree: &SyntaxTree, i: int) -> bool
    decreases tree.len() - i, 1int, 0int,
{
    &&& in_tree(tree, i)
    &&& is_expr_node(tree, i)
    &&& tree.kids(i).len() % 2 == 1
    &&& kids_ok(tree, i, tree.kids(i).len() as int, ListShape::Chain)
}

/// Node `d` is a bare name, or a well-formed nested expression.
pub open spec fn operand_ok(tree: &SyntaxTree, d: int) -> bool
    decreases tree.len() - d, 2int, 0int,
{
    &&& in_tree(tree, d)
    &&& (tree.kind(d) == NodeKind::TypeName || (tree.kind(d) == NodeKind::Termish || tree.kind(d)
        == NodeKind::Expr) && expr_ok(tree, d))
}

/// Type node `t` declares no name and carries no attributes after its last
/// pointer level.
pub open spec fn anon_ok(tree: &SyntaxTree, t: int) -> bool {
    anon_type_shape(tree, t) && anon_trailing_tags(tree, t).len() == 0
}

/// Node `c` holds a well-formed operand.
pub open spec fn term_ok(tree: &SyntaxTree, c: int) -> bool
    decreases tree.len() - c, 3int, 0int,
{
    if !in_tree(tree, c) {
        false
    } else {
        let k = tree.kind(c);
        let ks = tree.kids(c);
        let n = ks.len();
        if k == NodeKind::TypeName || is_literal(k) {
            true
        } else if k == NodeKind::Expr {
            expr_ok(tree, c)
        } else if k == NodeKind::Unarypre {
            n == 2 && operand_ok(tree, ks[1] as int)
        } else if k == NodeKind::Unarypost || k == NodeKind::PtrAccess || k == NodeKind::MemberAccess {
            n == 2 && operand_ok(tree, ks[0] as int)
        } else if k == NodeKind::Deref || k == NodeKind::Takeref {
            n == 1 && operand_ok(tree, ks[0] as int)
        } else if k == NodeKind::Cast {
            n == 2 && anon_ok(tree, ks[0] as int) && expr_ok(tree, ks[1] as int)
        } else if k == NodeKind::ArrayAccess {
            &&& n == 2
            &&& operand_ok(tree, ks[0] as int)
            &&& tree.kind(ks[1] as int) == NodeKind::Array
            &&& tree.kids(ks[1] as int).len() == 1
            &&& expr_ok(tree, tree.kids(ks[1] as int)[0] as int)
        } else if k == NodeKind::Call {
            &&& 1 <= n <= 2
            &&& n == 2 ==> tree.kind(ks[1] as int) == NodeKind::CallArgs && kids_ok(
                tree,
                ks[1] as int,
                tree.kids(ks[1] as int).len() as int,
                ListShape::Args,
            )
        } else if k == NodeKind::ArrayInit {
            kids_ok(tree, c, n as int, ListShape::Elems)
        } else if k == NodeKind::StructInit {
            n >= 1 && anon_ok(tree, ks[0] as int) && kids_ok(tree, c, n as int, ListShape::Fields)
        } else {
            false
        }
    }
}

/// A list that is well formed up to `n` is well formed up to any `k <= n`.
pub proof fn lemma_kids_ok_prefix(tree: &SyntaxTree, i: int, k: int, n: int, shape: ListShape)
    requires
        0 <= k <= n,
        kids_ok(tree, i, n, shape),
    ensures
        kids_ok(tree, i, k, shape),
    decreases n - k,
{
    if k < n {
        lemma_kids_ok_prefix(tree, i, k, n - 1, shape);
    }
}

/// `e` is the error for the attributes on the target type of the cast or
/// struct initializer at node `c`: it stands at the first of them.
pub open spec fn tagged_error(e: SyntaxError, tree: &SyntaxTree, file: Seq<char>, c: int) -> bool {
    &&& e.kind == ErrorKind::AnonymousTags
    &&& e.loc.is_node(tree, file, anon_trailing_tags(tree, tree.kids(c)[0] as int)[0] as int)
}

/// Operand `p` of the chain at node `i` is the first fault in it, and is a
/// cast or struct initializer whose target type carries attributes.
pub open spec fn tagged_fault_at(tree: &SyntaxTree, i: int, p: int) -> bool {
    &&& is_expr_node(tree, i)
    &&& tree.kids(i).len() % 2 == 1
    &&& 0 <= p < tree.kids(i).len()
    &&& p % 2 == 0
    &&& kids_ok(tree, i, p, ListShape::Chain)
    &&& target_has_tags(tree, tree.kids(i)[p] as int)
}

/// No operand before position `k` of a chain that is well formed up to `k`
/// has a tagged target type.
proof fn lemma_no_fault_before(tree: &SyntaxTree, i: int, k: int, p: int)
    requires
        kids_ok(tree, i, k, ListShape::Chain),
        0 <= p < k,
        p % 2 == 0,
    ensures
        !target_has_tags(tree, tree.kids(i)[p] as int),
{
    lemma_kids_ok_prefix(tree, i, p + 1, k, ListShape::Chain);
    if target_has_tags(tree, tree.kids(i)[p] as int) {
        lemma_tagged_target_rejected(tree, tree.kids(i)[p] as int);
    }
}

fn plain_name(tree: &SyntaxTree, file: &String, c: usize) -> (r: Typed)
    requires
        c < tree.len(),
    ensures
        plain_name_is(r, tree, file@, c as int),
{
    Typed {
        name: Name::from_text(tree.nodes[c].text.as_str()),
        loc: Location::of_node(tree, file, c),
        ptr: Vec::new(),
    }
}

/// The operand of a unary operator or an access: a bare name, or a nested
/// expression.
fn parse_operand(tree: &SyntaxTree, file: &String, d: usize) -> (r: Result<Expression, SyntaxError>)
    requires
        tree.wf(),
        d < tree.len(),
    ensures
        r is Ok <==> operand_ok(tree, d as int),
        r matches Err(e) ==> e.kind == ErrorKind::AnonymousTags || e.kind == ErrorKind::Unexpected,
        r matches Ok(e) ==> operand_is(e, tree, file@, d as int),
    decreases tree.len() - d, 1usize,
{
    let kind = tree.kind_of(d);
    if kind == NodeKind::TypeName {
        Ok(Expression::Name(plain_name(tree, file, d)))
    } else if kind == NodeKind::Termish || kind == NodeKind::Expr {
        parse_expr(tree, file, d)
    } else {
        Err(SyntaxError::unexpected(tree, file, d))
    }
}

/// Builds the call at node `c`: the callee's name, then its arguments, if
/// any, as the children of the second child.
pub fn parse_call(tree: &SyntaxTree, file: &String, c: usize) -> (r: Result<Expression, SyntaxError>)
    requires
        tree.wf(),
        c < tree.len(),
        tree.kind(c as int) == NodeKind::Call,
    ensures
        r is Ok <==> term_ok(tree, c as int),
        r matches Ok(e) ==> term_is(e, tree, file@, c as int),
        r matches Err(e) ==> e.kind == ErrorKind::AnonymousTags || e.kind == ErrorKind::Unexpected,
    decreases tree.len() - c, 0usize,
{
    let n = tree.n_kids(c);
    if n < 1 || n > 2 {
        return Err(SyntaxError::unexpected(tree, file, c));
    }
    let name = plain_name(tree, file, tree.child(c, 0));
    let mut args: Vec<Box<Expression>> = Vec::new();
    if n == 2 {
        let a = tree.child(c, 1);
        if tree.kind_of(a) != NodeKind::CallArgs {
            return Err(SyntaxError::unexpected(tree, file, a));
        }
        let m = tree.n_kids(a);
        let mut k: usize = 0;
        while k < m
            invariant
                tree.wf(),
                c < a < tree.len(),
                m == tree.kids(a as int).len(),
                a == tree.kids(c as int)[1],
                tree.kids(c as int).len() == 2,
                tree.kind(c as int) == NodeKind::Call,
                k <= m,
                args@.len() == k,
                kids_ok(tree, a as int, k as int, ListShape::Args),
                forall|j: int|
                    0 <= j < k ==> expr_is(*(#[trigger] args@[j]), tree, file@, tree.kids(a as int)[j] as int),
            decreases m - k,
        {
            let arg = match parse_expr(tree, file, tree.child(a, k)) {
                Ok(e) => e,
                Err(e) => {
                    proof {
                        if kids_ok(tree, a as int, m as int, ListShape::Args) {
                            lemma_kids_ok_prefix(tree, a as int, k + 1, m as int, ListShape::Args);
                        }
                    }
                    return Err(e);
                },
            };
            args.push(Box::new(arg));
            k = k + 1;
        }
    }
    Ok(Expression::Call { loc: Location::of_node(tree, file, c), name, args })
}

/// Builds one operand of an expression chain.
pub fn parse_term(tree: &SyntaxTree, file: &String, c: usize) -> (r: Result<Expression, SyntaxError>)
    requires
        tree.wf(),
        c < tree.len(),
    ensures
        r is Ok <==> term_ok(tree, c as int),
        r matches Ok(e) ==> term_is(e, tree, file@, c as int),
        r matches Err(e) ==> e.kind == ErrorKind::AnonymousTags || e.kind == ErrorKind::Unexpected,
        target_has_tags(tree, c as int) ==> (r matches Err(e) && tagged_error(e, tree, file@, c as int)),
    decreases tree.len() - c, 1usize,
{
    let kind = tree.kind_of(c);
    let n = tree.n_kids(c);
    let loc = Location::of_node(tree, file, c);
    if kind == NodeKind::TypeName {
        Ok(Expression::Name(plain_name(tree, file, c)))
    } else if kind == NodeKind::NumberLiteral || kind == NodeKind::StringLiteral || kind
        == NodeKind::CharLiteral {
        Ok(Expression::Literal { loc, v: tree.text_of(c) })
    } else if kind == NodeKind::Expr {
        parse_expr(tree, file, c)
    } else if kind == NodeKind::Unarypre {
        if n != 2 {
            return Err(SyntaxError::unexpected(tree, file, c));
        }
        let op = tree.text_of(tree.child(c, 0));
        let inner = match parse_operand(tree, file, tree.child(c, 1)) {
            Ok(e) => e,
            Err(e) => return Err(e),
        };
        Ok(Expression::UnaryPre { loc, op, expr: Box::new(inner) })
    } else if kind == NodeKind::Unarypost {
        if n != 2 {
            return Err(SyntaxError::unexpected(tree, file, c));
        }
        let inner = match parse_operand(tree, file, tree.child(c, 0)) {
            Ok(e) => e,
            Err(e) => return Err(e),
        };
        let op = tree.text_of(tree.child(c, 1));
        Ok(Expression::UnaryPost { loc, op, expr: Box::new(inner) })
    } else if kind == NodeKind::Deref || kind == NodeKind::Takeref {
        if n != 1 {
            return Err(SyntaxError::unexpected(tree, file, c));
        }
        let op = if kind == NodeKind::Deref {
            "*".to_owned()
        } else {
            "&".to_owned()
        };
        let inner = match parse_operand(tree, file, tree.child(c, 0)) {
            Ok(e) => e,
            Err(e) => return Err(e),
        };
        Ok(Expression::UnaryPre { loc, op, expr: Box::new(inner) })
    } else if kind == NodeKind::Cast {
        if n != 2 {
            return Err(SyntaxError::unexpected(tree, file, c));
        }
        let into = match parse_anon_type(tree, file, tree.child(c, 0)) {
            Ok(t) => t,
            Err(e) => return Err(e),
        };
        let inner = match parse_expr(tree, file, tree.child(c, 1)) {
            Ok(e) => e,
            Err(e) => return Err(e),
        };
        Ok(Expression::Cast { loc, into, expr: Box::new(inner) })
    } else if kind == NodeKind::PtrAccess || kind == NodeKind::MemberAccess {
        if n != 2 {
            return Err(SyntaxError::unexpected(tree, file, c));
        }
        let lhs = match parse_operand(tree, file, tree.child(c, 0)) {
            Ok(e) => e,
            Err(e) => return Err(e),
        };
        let op = if kind == NodeKind::PtrAccess {
            "->".to_owned()
        } else {
            ".".to_owned()
        };
        let rhs = tree.text_of(tree.child(c, 1));
        Ok(Expression::MemberAccess { loc, lhs: Box::new(lhs), op, rhs })
    } else if kind == NodeKind::ArrayAccess {
        if n != 2 {
            return Err(SyntaxError::unexpected(tree, file, c));
        }
        let lhs = match parse_operand(tree, file, tree.child(c, 0)) {
            Ok(e) => e,
            Err(e) => return Err(e),
        };
        let a = tree.child(c, 1);
        if tree.kind_of(a) != NodeKind::Array || tree.n_kids(a) != 1 {
            return Err(SyntaxError::unexpected(tree, file, a));
        }
        let rhs = match parse_expr(tree, file, tree.child(a, 0)) {
            Ok(e) => e,
            Err(e) => return Err(e),
        };
        Ok(Expression::ArrayAccess { loc, lhs: Box::new(lhs), rhs: Box::new(rhs) })
    } else if kind == NodeKind::Call {
        parse_call(tree, file, c)
    } else if kind == NodeKind::ArrayInit {
        let mut fields: Vec<Box<Expression>> = Vec::new();
        let mut k: usize = 0;
        while k < n
            invariant
                tree.wf(),
                c < tree.len(),
                n == tree.kids(c as int).len(),
                k <= n,
                fields@.len() == k,
                !target_has_tags(tree, c as int),
                tree.kind(c as int) == NodeKind::ArrayInit,
                kids_ok(tree, c as int, k as int, ListShape::Elems),
                forall|j: int|
                    0 <= j < k ==> expr_is(*(#[trigger] fields@[j]), tree, file@, tree.kids(c as int)[j] as int),
            decreases n - k,
        {
            let f = tree.child(c, k);
            proof {
                if kids_ok(tree, c as int, n as int, ListShape::Elems) {
                    lemma_kids_ok_prefix(tree, c as int, k + 1, n as int, ListShape::Elems);
                }
            }
            if tree.kind_of(f) != NodeKind::Termish {
                return Err(SyntaxError::unexpected(tree, file, f));
            }
            let e = match parse_expr(tree, file, f) {
                Ok(e) => e,
                Err(e) => return Err(e),
            };
            fields.push(Box::new(e));
            k = k + 1;
        }
        Ok(Expression::ArrayInit { loc, fields })
    } else if kind == NodeKind::StructInit {
        if n < 1 {
            return Err(SyntaxError::unexpected(tree, file, c));
        }
        let typed = match parse_anon_type(tree, file, tree.child(c, 0)) {
            Ok(t) => t,
            Err(e) => return Err(e),
        };
        let ghost ks = tree.kids(c as int);
        let mut fields: Vec<(String, Box<Expression>)> = Vec::new();
        let mut k: usize = 1;
        assert(kids_ok(tree, c as int, 0, ListShape::Fields));
        assert(kids_ok(tree, c as int, 1, ListShape::Fields));
        while k < n
            invariant
                tree.wf(),
                c < tree.len(),
                ks == tree.kids(c as int),
                n == ks.len(),
                1 <= k <= n,
                fields@.len() == k - 1,
                !target_has_tags(tree, c as int),
                tree.kind(c as int) == NodeKind::StructInit,
                anon_ok(tree, ks[0] as int),
                kids_ok(tree, c as int, k as int, ListShape::Fields),
                forall|f: int|
                    0 <= f < fields@.len() ==> field_init_is(#[trigger] fields@[f], tree, file@, ks[f + 1] as int),
            decreases n - k,
        {
            let f = tree.child(c, k);
            proof {
                if kids_ok(tree, c as int, n as int, ListShape::Fields) {
                    lemma_kids_ok_prefix(tree, c as int, k + 1, n as int, ListShape::Fields);
                }
            }
            if tree.kind_of(f) != NodeKind::StructInitField || tree.n_kids(f) != 2 {
                return Err(SyntaxError::unexpected(tree, file, f));
            }
            let name = tree.text_of(tree.child(f, 0));
            let e = match parse_expr(tree, file, tree.child(f, 1)) {
                Ok(e) => e,
                Err(e) => return Err(e),
            };
            fields.push((name, Box::new(e)));
            k = k + 1;
        }
        Ok(Expression::StructInit { loc, typed, fields })
    } else {
        Err(SyntaxError::unexpected(tree, file, c))
    }
}

/// Builds the expression at node `i`. A single operand is returned as it is;
/// two or more become one flat chain whose left side is the first operand
/// and whose right side pairs each later operand with the operator before
/// it.
pub fn parse_expr(tree: &SyntaxTree, file: &String, i: usize) -> (r: Result<Expression, SyntaxError>)
    requires
        tree.wf(),
        i < tree.len(),
    ensures
        r is Ok <==> expr_ok(tree, i as int),
        r is Ok ==> is_expr_node(tree, i as int) && alternates(tree, i as int),
        r matches Ok(e) ==> expr_is(e, tree, file@, i as int),
        r matches Err(e) ==> e.kind == ErrorKind::AnonymousTags || e.kind == ErrorKind::Unexpected,
        r matches Err(e) ==> forall|p: int|
            #[trigger] tagged_fault_at(tree, i as int, p) ==> tagged_error(e, tree, file@, tree.kids(i as int)[p] as int),
    decreases tree.len() - i, 0usize,
{
    let kind = tree.kind_of(i);
    let n = tree.n_kids(i);
    if !(kind == NodeKind::Expr || kind == NodeKind::Lhs || kind == NodeKind::Termish) || n % 2 == 0 {
        return Err(SyntaxError::unexpected(tree, file, i));
    }
    let ghost ks = tree.kids(i as int);
    let c0 = tree.child(i, 0);
    proof {
        if kids_ok(tree, i as int, n as int, ListShape::Chain) {
            lemma_kids_ok_prefix(tree, i as int, 1, n as int, ListShape::Chain);
        }
    }
    if tree.kind_of(c0) == NodeKind::Infix {
        let e = SyntaxError::unexpected(tree, file, c0);
        assert forall|p: int| #[trigger] tagged_fault_at(tree, i as int, p) implies tagged_error(e, tree, file@, ks[p] as int) by {
            if p > 0 {
                lemma_kids_ok_prefix(tree, i as int, 1, p, ListShape::Chain);
            }
        }
        return Err(e);
    }
    let first = match parse_term(tree, file, c0) {
        Ok(e) => e,
        Err(e) => {
            assert forall|p: int| #[trigger] tagged_fault_at(tree, i as int, p) implies tagged_error(e, tree, file@, ks[p] as int) by {
                if p > 0 {
                    lemma_kids_ok_prefix(tree, i as int, 1, p, ListShape::Chain);
                }
            }
            return Err(e);
        },
    };
    assert(kids_ok(tree, i as int, 0, ListShape::Chain));
    let mut rhs: Vec<((String, Location), Box<Expression>)> = Vec::new();
    let mut k: usize = 1;
    while k < n
        invariant
            tree.wf(),
            i < tree.len(),
            ks == tree.kids(i as int),
            n == ks.len(),
            n % 2 == 1,
            k % 2 == 1,
            1 <= k <= n,
            rhs@.len() == k / 2,
            is_expr_node(tree, i as int),
            kids_ok(tree, i as int, k as int, ListShape::Chain),
            forall|m: int| 0 <= m < k ==> ((tree.kind(#[trigger] ks[m] as int) == NodeKind::Infix) <==> m % 2 == 1),
            forall|j: int|
                0 <= j < rhs@.len() ==> {
                    &&& (#[trigger] rhs@[j]).0.0@ == tree.text(ks[2 * j + 1] as int)
                    &&& rhs@[j].0.1.is_node(tree, file@, ks[2 * j + 1] as int)
                    &&& term_is(*rhs@[j].1, tree, file@, ks[2 * j + 2] as int)
                },
        decreases n - k,
    {
        let o = tree.child(i, k);
        let t = tree.child(i, k + 1);
        proof {
            if kids_ok(tree, i as int, n as int, ListShape::Chain) {
                lemma_kids_ok_prefix(tree, i as int, k + 1, n as int, ListShape::Chain);
                lemma_kids_ok_prefix(tree, i as int, k + 2, n as int, ListShape::Chain);
            }
        }
        if tree.kind_of(o) != NodeKind::Infix {
            let e = SyntaxError::unexpected(tree, file, o);
            assert forall|p: int| #[trigger] tagged_fault_at(tree, i as int, p) implies tagged_error(e, tree, file@, ks[p] as int) by {
                if p < k {
                    lemma_no_fault_before(tree, i as int, k as int, p);
                } else {
                    lemma_kids_ok_prefix(tree, i as int, k + 1, p, ListShape::Chain);
                }
            }
            return Err(e);
        }
        if tree.kind_of(t) == NodeKind::Infix {
            let e = SyntaxError::unexpected(tree, file, t);
            assert forall|p: int| #[trigger] tagged_fault_at(tree, i as int, p) implies tagged_error(e, tree, file@, ks[p] as int) by {
                if p < k {
                    lemma_no_fault_before(tree, i as int, k as int, p);
                } else if p > k + 1 {
                    lemma_kids_ok_prefix(tree, i as int, k + 2, p, ListShape::Chain);
                }
            }
            return Err(e);
        }
        let e = match parse_term(tree, file, t) {
            Ok(e) => e,
            Err(e) => {
                assert forall|p: int| #[trigger] tagged_fault_at(tree, i as int, p) implies tagged_error(e, tree, file@, ks[p] as int) by {
                    if p < k {
                        lemma_no_fault_before(tree, i as int, k as int, p);
                    } else if p > k + 1 {
                        lemma_kids_ok_prefix(tree, i as int, k + 2, p, ListShape::Chain);
                    }
                }
                return Err(e);
            },
        };
        rhs.push(((tree.text_of(o), Location::of_node(tree, file, o)), Box::new(e)));
        assert(kids_ok(tree, i as int, k + 1, ListShape::Chain));
        assert(kids_ok(tree, i as int, k + 2, ListShape::Chain));
        k = k + 2;
    }
    if rhs.len() == 0 {
        Ok(first)
    } else {
        Ok(Expression::InfixOperation { loc: Location::of_node(tree, file, i), lhs: Box::new(first), rhs })
    }
}

/// The operator nodes among the children of node `i`, in order.
pub open spec fn operator_nodes(tree: &SyntaxTree, i: int) -> Seq<usize> {
    tree.kids(i).filter(|c: usize| tree.kind(c as int) == NodeKind::Infix)
}

/// The operator nodes among the first `k` children of node `i`.
pub open spec fn operators_upto(tree: &SyntaxTree, i: int, k: int) -> Seq<usize> {
    tree.kids(i).subrange(0, k).filter(|c: usize| tree.kind(c as int) == NodeKind::Infix)
}

/// The operator nodes among the first `k` children of an alternating chain
/// are the children at odd positions below `k`.
proof fn lemma_operators_upto(tree: &SyntaxTree, i: int, k: int)
    requires
        alternates(tree, i),
        0 <= k <= tree.kids(i).len(),
    ensures
        operators_upto(tree, i, k).len() == k / 2,
        forall|j: int| 0 <= j < k / 2 ==> #[trigger] operators_upto(tree, i, k)[j] == tree.kids(i)[2 * j + 1],
    decreases k,
{
    let ks = tree.kids(i);
    let pred = |c: usize| tree.kind(c as int) == NodeKind::Infix;
    if k > 0 {
        lemma_operators_upto(tree, i, k - 1);
        let prev = ks.subrange(0, k - 1);
        let next = ks.subrange(0, k);
        assert(next.drop_last() == prev);
        assert(next.last() == ks[k - 1]);
        assert(next.filter(pred) == if pred(ks[k - 1]) {
            prev.filter(pred).push(ks[k - 1])
        } else {
            prev.filter(pred)
        }) by {
            reveal(Seq::filter);
        }
        assert(pred(ks[k - 1]) <==> (k - 1) % 2 == 1);
    }
}

/// In an alternating chain, the operator nodes are exactly the children at
/// odd positions. So the chain's right side (see `parse_expr`) has one
/// entry per operator token, and entry `j` pairs operator token `j` with
/// the operand written after it.
pub proof fn lemma_infix_flatness(tree: &SyntaxTree, i: int)
    requires
        alternates(tree, i),
    ensures
        operator_nodes(tree, i).len() == operator_count(tree, i),
        forall|j: int|
            0 <= j < operator_count(tree, i) ==> #[trigger] operator_nodes(tree, i)[j] == tree.kids(i)[2 * j + 1],
{
    let ks = tree.kids(i);
    lemma_operators_upto(tree, i, ks.len() as int);
    assert(ks.subrange(0, ks.len() as int) == ks);
    assert(operators_upto(tree, i, ks.len() as int) == operator_nodes(tree, i));
}

/// A cast or struct initializer whose target type carries attributes after
/// its last pointer level is never a well-formed operand, so `parse_term`
/// and every expression holding it are rejected.
pub proof fn lemma_tagged_target_rejected(tree: &SyntaxTree, c: int)
    requires
        target_has_tags(tree, c),
    ensures
        !term_ok(tree, c),
{
}

/// A literal operand keeps the span of its node and the text of that span.
pub proof fn lemma_literal_locality(e: Expression, tree: &SyntaxTree, file: Seq<char>, c: int)
    requires
        term_is(e, tree, file, c),
        is_literal(tree.kind(c)),
    ensures
        e matches Expression::Literal { loc, v } && loc.start == tree.node(c).start && loc.end == tree.node(
            c,
        ).end && v@ == tree.text(c),
{
}

} // verus!
