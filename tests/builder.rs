use zz::ast::{Def, ErrorKind, Expression, Statement, Storage, Visibility};
use zz::syntax::{NodeKind, SyntaxNode, SyntaxTree};
use zz::types::{parse_anon_type, parse_named_type};
use zz::expr::parse_expr;
use zz::stmt::parse_block;
use zz::decl::parse_importname;
use zz::ZZParser;

/// Builds a node arena over a source text; parents are added before their
/// children, so children always follow their parent.
struct Tb {
    src: String,
    nodes: Vec<SyntaxNode>,
}

impl Tb {
    fn new(src: &str) -> Tb {
        Tb { src: src.to_string(), nodes: Vec::new() }
    }

    /// Adds a node spanning the `nth` occurrence of `needle`.
    fn add(&mut self, parent: Option<usize>, kind: NodeKind, needle: &str, nth: usize) -> usize {
        let mut from = 0;
        let mut start = 0;
        for _ in 0..=nth {
            start = from + self.src[from..].find(needle).expect("needle in source");
            from = start + 1;
        }
        self.span(parent, kind, start, start + needle.len())
    }

    fn span(&mut self, parent: Option<usize>, kind: NodeKind, start: usize, end: usize) -> usize {
        let i = self.nodes.len();
        self.nodes.push(SyntaxNode {
            kind,
            start,
            end,
            text: self.src[start..end].to_string(),
            children: Vec::new(),
        });
        if let Some(p) = parent {
            self.nodes[p].children.push(i);
        }
        i
    }

    fn tree(self) -> (SyntaxTree, String) {
        (SyntaxTree { nodes: self.nodes }, self.src)
    }
}

fn file() -> String {
    "m.zz".to_string()
}

fn text(src: &str, start: usize, end: usize) -> String {
    src[start..end].to_string()
}

#[test]
fn exported_function_add() {
    let src = "export fn add(a: int, b: int) int { return a + b; }";
    let mut t = Tb::new(src);
    let root = t.span(None, NodeKind::File, 0, src.len());
    let f = t.span(Some(root), NodeKind::Function, 0, src.len());
    t.add(Some(f), NodeKind::Exported, "export", 0);
    t.add(Some(f), NodeKind::Ident, "add", 0);
    let args = t.add(Some(f), NodeKind::FnArgs, "a: int, b: int", 0);
    let a = t.add(Some(args), NodeKind::NamedType, "a: int", 0);
    t.add(Some(a), NodeKind::TypeName, "int", 0);
    t.add(Some(a), NodeKind::Ident, "a", 1);
    let b = t.add(Some(args), NodeKind::NamedType, "b: int", 0);
    t.add(Some(b), NodeKind::TypeName, "int", 1);
    t.add(Some(b), NodeKind::Ident, "b", 0);
    let ret = t.add(Some(f), NodeKind::RetArg, "int", 2);
    let rt = t.add(Some(ret), NodeKind::AnonType, "int", 2);
    t.add(Some(rt), NodeKind::TypeName, "int", 2);
    let body = t.add(Some(f), NodeKind::Block, "{ return a + b; }", 0);
    let r = t.add(Some(body), NodeKind::ReturnStm, "return a + b", 0);
    t.add(Some(r), NodeKind::KeyReturn, "return", 0);
    let e = t.add(Some(r), NodeKind::Expr, "a + b", 0);
    t.add(Some(e), NodeKind::TypeName, "a", 2);
    t.add(Some(e), NodeKind::Infix, "+", 0);
    t.add(Some(e), NodeKind::TypeName, "b", 1);
    let (tree, src) = t.tree();

    let m = ZZParser::module(&tree, &file(), &"m".to_string(), 0).ok().expect("module");
    assert_eq!(m.locals.len(), 1);
    assert_eq!(m.name.parts, vec!["m".to_string()]);
    let l = &m.locals[0];
    assert_eq!(l.name, "add");
    assert_eq!(l.vis, Visibility::Export);
    assert!(l.export_as.is_none());
    match &l.def {
        Def::Function { ret, args, vararg, body } => {
            assert_eq!(args.len(), 2);
            assert_eq!(args[0].name, "a");
            assert_eq!(args[1].name, "b");
            for a in args {
                assert_eq!(a.typed.name.parts, vec!["int".to_string()]);
                assert_eq!(a.typed.ptr.len(), 0);
            }
            let ret = ret.as_ref().expect("return slot");
            assert_eq!(ret.typed.name.parts, vec!["int".to_string()]);
            assert!(!vararg);
            assert_eq!(body.statements.len(), 1);
            assert_eq!(body.end.start, src.len());
            assert_eq!(body.end.end, src.len());
            match &body.statements[0] {
                Statement::Return { expr: Some(Expression::InfixOperation { lhs, rhs, .. }), .. } => {
                    assert_eq!(rhs.len(), 1);
                    assert_eq!((rhs[0].0).0, "+");
                    assert!(matches!(**lhs, Expression::Name(_)));
                }
                _ => panic!("expected a return of an operator chain"),
            }
        }
        _ => panic!("expected a function"),
    }
}

#[test]
fn struct_point_fields_in_order() {
    let src = "struct Point { int x; int y; }";
    let mut t = Tb::new(src);
    let root = t.span(None, NodeKind::File, 0, src.len());
    let s = t.span(Some(root), NodeKind::StructD, 0, src.len());
    t.add(Some(s), NodeKind::Ident, "Point", 0);
    for (k, n) in ["int x", "int y"].iter().enumerate() {
        let f = t.add(Some(s), NodeKind::StructF, n, 0);
        let nt = t.add(Some(f), NodeKind::NamedType, n, 0);
        t.add(Some(nt), NodeKind::TypeName, "int", k);
        t.add(Some(nt), NodeKind::Ident, &n[4..], 0);
    }
    let (tree, _) = t.tree();
    let m = ZZParser::module(&tree, &file(), &"m".to_string(), 0).ok().expect("module");
    assert_eq!(m.locals.len(), 1);
    assert_eq!(m.locals[0].name, "Point");
    assert_eq!(m.locals[0].loc.start, 7);
    assert_eq!(m.locals[0].loc.end, 12);
    match &m.locals[0].def {
        Def::Struct { fields, packed } => {
            assert_eq!(fields.len(), 2);
            assert_eq!(fields[0].name, "x");
            assert_eq!(fields[1].name, "y");
            assert!(!packed);
        }
        _ => panic!("expected a struct"),
    }
}

fn static_tree(src: &str, vis: Option<NodeKind>, with_mut: bool) -> SyntaxTree {
    let mut t = Tb::new(src);
    let root = t.span(None, NodeKind::File, 0, src.len());
    let st = t.span(Some(root), NodeKind::Istatic, 0, src.len());
    if let Some(v) = vis {
        t.add(Some(st), v, "export", 0);
    }
    t.add(Some(st), NodeKind::KeyStatic, "static", 0);
    if with_mut {
        t.add(Some(st), NodeKind::KeyMut, "mut", 0);
    }
    let nt = t.add(Some(st), NodeKind::NamedType, "int counter", 0);
    t.add(Some(nt), NodeKind::TypeName, "int", 0);
    t.add(Some(nt), NodeKind::Ident, "counter", 0);
    let e = t.add(Some(st), NodeKind::Expr, "0", 0);
    t.add(Some(e), NodeKind::NumberLiteral, "0", 0);
    t.tree().0
}

#[test]
fn static_mut_counter_is_accepted() {
    let tree = static_tree("static mut int counter = 0;", None, true);
    let m = ZZParser::module(&tree, &file(), &"m".to_string(), 0).ok().expect("module");
    assert_eq!(m.locals.len(), 1);
    assert_eq!(m.locals[0].name, "counter");
    assert_eq!(m.locals[0].vis, Visibility::Object);
    match &m.locals[0].def {
        Def::Static { storage, mutable, expr, .. } => {
            assert_eq!(*storage, Storage::Static);
            assert!(*mutable);
            match expr {
                Expression::Literal { v, .. } => assert_eq!(v, "0"),
                _ => panic!("expected a literal"),
            }
        }
        _ => panic!("expected a static"),
    }
}

#[test]
fn exported_static_is_rejected() {
    let tree = static_tree("export static int counter = 0;", Some(NodeKind::Exported), false);
    let e = ZZParser::module(&tree, &file(), &"m".to_string(), 0).err().expect("error");
    assert_eq!(e.kind, ErrorKind::StaticVisibility);
    assert_eq!(e.loc.start, 0);
    assert_eq!(e.loc.end, 6);
}

#[test]
fn shared_static_is_rejected() {
    let tree = static_tree("export static int counter = 0;", Some(NodeKind::KeyShared), false);
    let e = ZZParser::module(&tree, &file(), &"m".to_string(), 0).err().expect("error");
    assert_eq!(e.kind, ErrorKind::StaticVisibility);
}

fn const_tree(src: &str, rename: bool, tag: bool) -> SyntaxTree {
    let mut t = Tb::new(src);
    let root = t.span(None, NodeKind::File, 0, src.len());
    let c = t.span(Some(root), NodeKind::Constant, 0, src.len());
    let ex = t.add(Some(c), NodeKind::Exported, "export", 0);
    if rename {
        t.add(Some(ex), NodeKind::Ident, "other", 0);
    }
    let nt = t.add(Some(c), NodeKind::NamedType, "int", 0);
    t.add(Some(nt), NodeKind::TypeName, "int", 0);
    if tag {
        let tg = t.add(Some(nt), NodeKind::TagName, "+hot", 0);
        t.add(Some(tg), NodeKind::Ident, "hot", 0);
    }
    t.add(Some(nt), NodeKind::Ident, "K", 0);
    let e = t.add(Some(c), NodeKind::Expr, "1", 0);
    t.add(Some(e), NodeKind::NumberLiteral, "1", 0);
    t.tree().0
}

#[test]
fn exported_constant_is_accepted() {
    let tree = const_tree("export const int K = 1;", false, false);
    let m = ZZParser::module(&tree, &file(), &"m".to_string(), 0).ok().expect("module");
    assert_eq!(m.locals[0].name, "K");
    assert_eq!(m.locals[0].vis, Visibility::Export);
    assert!(matches!(m.locals[0].def, Def::Const { .. }));
}

#[test]
fn constant_with_export_rename_is_rejected() {
    let tree = const_tree("export(other) const int K = 1;", true, false);
    let e = ZZParser::module(&tree, &file(), &"m".to_string(), 0).err().expect("error");
    assert_eq!(e.kind, ErrorKind::ConstExportRename);
}

#[test]
fn constant_with_tags_is_rejected() {
    let tree = const_tree("export const int+hot K = 1;", false, true);
    let e = ZZParser::module(&tree, &file(), &"m".to_string(), 0).err().expect("error");
    assert_eq!(e.kind, ErrorKind::AnonymousTags);
    assert_eq!(text("export const int+hot K = 1;", e.loc.start, e.loc.end), "+hot");
}

/// `u8 mut * +a +b * mut * x`: three levels; tags bind to the nearer level.
#[test]
fn pointer_chain_levels_take_tags_in_between() {
    let src = "u8 mut * +a +b * mut * x";
    let mut t = Tb::new(src);
    let nt = t.span(None, NodeKind::NamedType, 0, src.len());
    t.add(Some(nt), NodeKind::TypeName, "u8", 0);
    t.add(Some(nt), NodeKind::KeyMut, "mut", 0);
    t.add(Some(nt), NodeKind::Ptr, "*", 0);
    let a = t.add(Some(nt), NodeKind::TagName, "+a", 0);
    t.add(Some(a), NodeKind::Ident, "a", 0);
    let b = t.add(Some(nt), NodeKind::TagName, "+b", 0);
    t.add(Some(b), NodeKind::Ident, "b", 0);
    let bv = t.add(Some(b), NodeKind::Ident, "b", 0);
    t.nodes[bv].text = "1".to_string();
    t.add(Some(nt), NodeKind::Ptr, "*", 1);
    t.add(Some(nt), NodeKind::KeyMut, "mut", 1);
    t.add(Some(nt), NodeKind::Ptr, "*", 2);
    t.add(Some(nt), NodeKind::Ident, "x", 0);
    let (tree, src) = t.tree();
    let tn = parse_named_type(&tree, &file(), 0).ok().expect("typed name");
    assert_eq!(tn.name, "x");
    assert_eq!(tn.typed.name.parts, vec!["u8".to_string()]);
    assert_eq!(tn.typed.ptr.len(), 3);
    let keys = |k: usize| -> Vec<(String, String)> {
        tn.typed.ptr[k].tags.entries.iter().map(|t| (t.key.clone(), t.value.clone())).collect()
    };
    assert_eq!(keys(0), vec![("mutable".to_string(), String::new())]);
    assert_eq!(keys(1), vec![("a".to_string(), String::new()), ("b".to_string(), "1".to_string())]);
    assert_eq!(keys(2), vec![("mutable".to_string(), String::new())]);
    assert_eq!(tn.tags.entries.len(), 0);
    assert_eq!(text(&src, tn.typed.ptr[1].loc.start, tn.typed.ptr[1].loc.end), "*");
    assert_eq!(tn.typed.ptr[1].loc.start, 15);
}

#[test]
fn trailing_tags_belong_to_the_declaration() {
    let src = "int * mut mut x";
    let mut t = Tb::new(src);
    let nt = t.span(None, NodeKind::NamedType, 0, src.len());
    t.add(Some(nt), NodeKind::TypeName, "int", 0);
    t.add(Some(nt), NodeKind::Ptr, "*", 0);
    t.add(Some(nt), NodeKind::KeyMut, "mut", 0);
    t.add(Some(nt), NodeKind::KeyMut, "mut", 1);
    t.add(Some(nt), NodeKind::Ident, "x", 0);
    let (tree, _) = t.tree();
    let tn = parse_named_type(&tree, &file(), 0).ok().expect("typed name");
    assert_eq!(tn.typed.ptr.len(), 1);
    assert_eq!(tn.typed.ptr[0].tags.entries.len(), 0);
    assert_eq!(tn.tags.entries.len(), 2);
    assert_eq!(tn.tags.entries[0].key, "mutable");
    assert_eq!(tn.tags.entries[1].key, "mutable");
    assert_eq!(tn.tags.entries[1].loc.start, 10);
}

#[test]
fn named_type_without_a_name_is_rejected() {
    let src = "int *";
    let mut t = Tb::new(src);
    let nt = t.span(None, NodeKind::NamedType, 0, src.len());
    t.add(Some(nt), NodeKind::TypeName, "int", 0);
    t.add(Some(nt), NodeKind::Ptr, "*", 0);
    let (tree, _) = t.tree();
    let e = parse_named_type(&tree, &file(), 0).err().expect("error");
    assert_eq!(e.kind, ErrorKind::ExpectedName);
    assert_eq!(e.loc.start, 4);
}

#[test]
fn anon_type_with_pointer_levels() {
    let src = "std::io::Buf mut *";
    let mut t = Tb::new(src);
    let at = t.span(None, NodeKind::AnonType, 0, src.len());
    t.add(Some(at), NodeKind::TypeName, "std::io::Buf", 0);
    t.add(Some(at), NodeKind::KeyMut, "mut", 0);
    t.add(Some(at), NodeKind::Ptr, "*", 0);
    let (tree, _) = t.tree();
    let ty = parse_anon_type(&tree, &file(), 0).ok().expect("type");
    assert_eq!(ty.name.parts, vec!["std".to_string(), "io".to_string(), "Buf".to_string()]);
    assert_eq!(ty.ptr.len(), 1);
    assert_eq!(ty.ptr[0].tags.entries[0].key, "mutable");
}

fn cast_tree(src: &str, tagged: bool) -> SyntaxTree {
    let mut t = Tb::new(src);
    let e = t.span(None, NodeKind::Expr, 0, src.len());
    let c = t.span(Some(e), NodeKind::Cast, 0, src.len());
    let at = t.add(Some(c), NodeKind::AnonType, if tagged { "u8 * mut" } else { "u8 *" }, 0);
    t.add(Some(at), NodeKind::TypeName, "u8", 0);
    t.add(Some(at), NodeKind::Ptr, "*", 0);
    if tagged {
        t.add(Some(at), NodeKind::KeyMut, "mut", 0);
    }
    let x = t.add(Some(c), NodeKind::Expr, "p", 0);
    t.add(Some(x), NodeKind::TypeName, "p", 0);
    t.tree().0
}

#[test]
fn cast_to_plain_pointer_is_accepted() {
    let tree = cast_tree("(u8 *)p", false);
    match parse_expr(&tree, &file(), 0).ok().expect("cast") {
        Expression::Cast { into, loc, .. } => {
            assert_eq!(into.ptr.len(), 1);
            assert_eq!((loc.start, loc.end), (0, 7));
        }
        _ => panic!("expected a cast"),
    }
}

#[test]
fn cast_target_with_tags_is_rejected() {
    let src = "(u8 * mut)p";
    let tree = cast_tree(src, true);
    let e = parse_expr(&tree, &file(), 0).err().expect("error");
    assert_eq!(e.kind, ErrorKind::AnonymousTags);
    assert_eq!(text(src, e.loc.start, e.loc.end), "mut");
}

#[test]
fn struct_init_target_with_tags_is_rejected() {
    let src = "Point mut{x: 1}";
    let mut t = Tb::new(src);
    let e = t.span(None, NodeKind::Expr, 0, src.len());
    let si = t.span(Some(e), NodeKind::StructInit, 0, src.len());
    let at = t.add(Some(si), NodeKind::AnonType, "Point mut", 0);
    t.add(Some(at), NodeKind::TypeName, "Point", 0);
    t.add(Some(at), NodeKind::KeyMut, "mut", 0);
    let f = t.add(Some(si), NodeKind::StructInitField, "x: 1", 0);
    t.add(Some(f), NodeKind::Ident, "x", 0);
    let fe = t.add(Some(f), NodeKind::Expr, "1", 0);
    t.add(Some(fe), NodeKind::NumberLiteral, "1", 0);
    let (tree, _) = t.tree();
    let e = parse_expr(&tree, &file(), 0).err().expect("error");
    assert_eq!(e.kind, ErrorKind::AnonymousTags);
}

#[test]
fn struct_init_keeps_field_order() {
    let src = "Point{y: 2, x: 1}";
    let mut t = Tb::new(src);
    let e = t.span(None, NodeKind::Expr, 0, src.len());
    let si = t.span(Some(e), NodeKind::StructInit, 0, src.len());
    let at = t.add(Some(si), NodeKind::AnonType, "Point", 0);
    t.add(Some(at), NodeKind::TypeName, "Point", 0);
    for (n, v) in [("y", "2"), ("x", "1")] {
        let f = t.add(Some(si), NodeKind::StructInitField, &format!("{}: {}", n, v), 0);
        t.add(Some(f), NodeKind::Ident, n, 0);
        let fe = t.add(Some(f), NodeKind::Expr, v, 0);
        t.add(Some(fe), NodeKind::NumberLiteral, v, 0);
    }
    let (tree, _) = t.tree();
    match parse_expr(&tree, &file(), 0).ok().expect("init") {
        Expression::StructInit { fields, typed, .. } => {
            assert_eq!(typed.name.parts, vec!["Point".to_string()]);
            let names: Vec<&str> = fields.iter().map(|f| f.0.as_str()).collect();
            assert_eq!(names, vec!["y", "x"]);
        }
        _ => panic!("expected a struct initializer"),
    }
}

/// `a + f(1, 2) * -b - c[0]`: four operands, three operators, kept flat.
#[test]
fn infix_chain_stays_flat_and_in_order() {
    let src = "a + f(1, 2) * -b - c[0]";
    let mut t = Tb::new(src);
    let e = t.span(None, NodeKind::Expr, 0, src.len());
    t.add(Some(e), NodeKind::TypeName, "a", 0);
    t.add(Some(e), NodeKind::Infix, "+", 0);
    let call = t.add(Some(e), NodeKind::Call, "f(1, 2)", 0);
    t.add(Some(call), NodeKind::TypeName, "f", 0);
    let ca = t.add(Some(call), NodeKind::CallArgs, "1, 2", 0);
    for v in ["1", "2"] {
        let x = t.add(Some(ca), NodeKind::Expr, v, 0);
        t.add(Some(x), NodeKind::NumberLiteral, v, 0);
    }
    t.add(Some(e), NodeKind::Infix, "*", 0);
    let u = t.add(Some(e), NodeKind::Unarypre, "-b", 0);
    t.add(Some(u), NodeKind::Other, "-", 0);
    t.add(Some(u), NodeKind::TypeName, "b", 0);
    t.add(Some(e), NodeKind::Infix, "-", 1);
    let aa = t.add(Some(e), NodeKind::ArrayAccess, "c[0]", 0);
    t.add(Some(aa), NodeKind::TypeName, "c", 0);
    let arr = t.add(Some(aa), NodeKind::Array, "[0]", 0);
    let ix = t.add(Some(arr), NodeKind::Expr, "0", 0);
    t.add(Some(ix), NodeKind::NumberLiteral, "0", 0);
    let (tree, src) = t.tree();
    match parse_expr(&tree, &file(), 0).ok().expect("expression") {
        Expression::InfixOperation { lhs, rhs, loc } => {
            assert_eq!((loc.start, loc.end), (0, src.len()));
            assert!(matches!(*lhs, Expression::Name(_)));
            let ops: Vec<&str> = rhs.iter().map(|r| (r.0).0.as_str()).collect();
            assert_eq!(ops, vec!["+", "*", "-"]);
            assert_eq!(text(&src, (rhs[2].0).1.start, (rhs[2].0).1.end), "-");
            match &*rhs[0].1 {
                Expression::Call { args, name, .. } => {
                    assert_eq!(args.len(), 2);
                    assert_eq!(name.name.parts, vec!["f".to_string()]);
                }
                _ => panic!("expected a call"),
            }
            match &*rhs[1].1 {
                Expression::UnaryPre { op, .. } => assert_eq!(op, "-"),
                _ => panic!("expected a unary operator"),
            }
            assert!(matches!(*rhs[2].1, Expression::ArrayAccess { .. }));
        }
        _ => panic!("expected an operator chain"),
    }
}

#[test]
fn single_operand_is_not_wrapped() {
    let src = "\"hi\"";
    let mut t = Tb::new(src);
    let e = t.span(None, NodeKind::Expr, 0, src.len());
    t.add(Some(e), NodeKind::StringLiteral, "\"hi\"", 0);
    let (tree, src) = t.tree();
    match parse_expr(&tree, &file(), 0).ok().expect("literal") {
        Expression::Literal { v, loc } => {
            assert_eq!(v, "\"hi\"");
            assert_eq!(text(&src, loc.start, loc.end), v);
        }
        _ => panic!("expected a literal"),
    }
}

#[test]
fn member_and_pointer_access() {
    let src = "a.b + p->q";
    let mut t = Tb::new(src);
    let e = t.span(None, NodeKind::Expr, 0, src.len());
    let m = t.add(Some(e), NodeKind::MemberAccess, "a.b", 0);
    t.add(Some(m), NodeKind::TypeName, "a", 0);
    t.add(Some(m), NodeKind::Ident, "b", 0);
    t.add(Some(e), NodeKind::Infix, "+", 0);
    let p = t.add(Some(e), NodeKind::PtrAccess, "p->q", 0);
    t.add(Some(p), NodeKind::TypeName, "p", 0);
    t.add(Some(p), NodeKind::Ident, "q", 0);
    let (tree, _) = t.tree();
    match parse_expr(&tree, &file(), 0).ok().expect("expression") {
        Expression::InfixOperation { lhs, rhs, .. } => {
            match *lhs {
                Expression::MemberAccess { op, rhs, .. } => {
                    assert_eq!(op, ".");
                    assert_eq!(rhs, "b");
                }
                _ => panic!("expected member access"),
            }
            match &*rhs[0].1 {
                Expression::MemberAccess { op, rhs, .. } => {
                    assert_eq!(op, "->");
                    assert_eq!(rhs, "q");
                }
                _ => panic!("expected pointer access"),
            }
        }
        _ => panic!("expected an operator chain"),
    }
}

#[test]
fn two_operands_without_operator_are_rejected() {
    let src = "a b";
    let mut t = Tb::new(src);
    let e = t.span(None, NodeKind::Expr, 0, src.len());
    t.add(Some(e), NodeKind::TypeName, "a", 0);
    t.add(Some(e), NodeKind::TypeName, "b", 0);
    let (tree, _) = t.tree();
    let e = parse_expr(&tree, &file(), 0).err().expect("error");
    assert_eq!(e.kind, ErrorKind::Unexpected);
}

#[test]
fn conditional_arms_stay_separate() {
    let src = "{ if a {} else if b {} else {} }";
    let mut t = Tb::new(src);
    let blk = t.span(None, NodeKind::Block, 0, src.len());
    let i1 = t.add(Some(blk), NodeKind::IfStm, "if a {}", 0);
    let c1 = t.add(Some(i1), NodeKind::Expr, "a", 0);
    t.add(Some(c1), NodeKind::TypeName, "a", 0);
    t.add(Some(i1), NodeKind::Block, "{}", 0);
    let i2 = t.add(Some(blk), NodeKind::ElseifStm, "else if b {}", 0);
    let c2 = t.add(Some(i2), NodeKind::Expr, "b", 0);
    t.add(Some(c2), NodeKind::TypeName, "b", 0);
    t.add(Some(i2), NodeKind::Block, "{}", 1);
    let i3 = t.add(Some(blk), NodeKind::ElseStm, "else {}", 0);
    t.add(Some(i3), NodeKind::Block, "{}", 2);
    let (tree, _) = t.tree();
    let b = parse_block(&tree, &file(), 0).ok().expect("block");
    let ops: Vec<String> = b
        .statements
        .iter()
        .map(|s| match s {
            Statement::Cond { op, .. } => op.clone(),
            _ => panic!("expected a conditional arm"),
        })
        .collect();
    assert_eq!(ops, vec!["if", "else if", "else"]);
    match &b.statements[2] {
        Statement::Cond { expr, .. } => assert!(expr.is_none()),
        _ => unreachable!(),
    }
}

#[test]
fn for_loop_slots_and_statements() {
    let src = "{ for (int i = 0; i < n; i++) { break; } goto out; out: mark x @k; continue; }";
    let mut t = Tb::new(src);
    let blk = t.span(None, NodeKind::Block, 0, src.len());
    let f = t.add(Some(blk), NodeKind::ForStm, "for (int i = 0; i < n; i++) { break; }", 0);
    let v = t.add(Some(f), NodeKind::Vardecl, "int i = 0", 0);
    let nt = t.add(Some(v), NodeKind::NamedType, "int i", 0);
    t.add(Some(nt), NodeKind::TypeName, "int", 0);
    t.add(Some(nt), NodeKind::Ident, "i", 1);
    let ve = t.add(Some(v), NodeKind::Expr, "0", 0);
    t.add(Some(ve), NodeKind::NumberLiteral, "0", 0);
    t.add(Some(f), NodeKind::Semicolon, ";", 0);
    let cond = t.add(Some(f), NodeKind::Expr, "i < n", 0);
    t.add(Some(cond), NodeKind::TypeName, "i", 2);
    t.add(Some(cond), NodeKind::Infix, "<", 0);
    t.add(Some(cond), NodeKind::TypeName, "n", 2);
    t.add(Some(f), NodeKind::Semicolon, ";", 1);
    let step = t.add(Some(f), NodeKind::Expr, "i++", 0);
    let up = t.add(Some(step), NodeKind::Unarypost, "i++", 0);
    t.add(Some(up), NodeKind::TypeName, "i", 3);
    t.add(Some(up), NodeKind::Other, "++", 0);
    let body = t.add(Some(f), NodeKind::Block, "{ break; }", 0);
    t.add(Some(body), NodeKind::BreakStm, "break", 0);
    let g = t.add(Some(blk), NodeKind::GotoStm, "goto out", 0);
    t.add(Some(g), NodeKind::Ident, "out", 0);
    let l = t.add(Some(blk), NodeKind::Label, "out:", 0);
    t.add(Some(l), NodeKind::Ident, "out", 1);
    let mk = t.add(Some(blk), NodeKind::MarkStm, "mark x @k", 0);
    let ml = t.add(Some(mk), NodeKind::Lhs, "x", 0);
    t.add(Some(ml), NodeKind::TypeName, "x", 0);
    let kv = t.add(Some(mk), NodeKind::TagName, "@k", 0);
    t.add(Some(kv), NodeKind::Ident, "k", 0);
    t.add(Some(blk), NodeKind::ContinueStm, "continue", 0);
    let (tree, _) = t.tree();
    let b = parse_block(&tree, &file(), 0).ok().expect("block");
    assert_eq!(b.statements.len(), 5);
    match &b.statements[0] {
        Statement::For { e1, e2, e3, body } => {
            assert!(matches!(e1.as_deref(), Some(Statement::Var { .. })));
            assert!(matches!(e2.as_deref(), Some(Statement::Expr { .. })));
            match e3.as_deref() {
                Some(Statement::Expr { expr: Expression::UnaryPost { op, .. }, .. }) => assert_eq!(op, "++"),
                _ => panic!("expected a step"),
            }
            assert_eq!(body.statements.len(), 1);
            assert!(matches!(body.statements[0], Statement::Break { .. }));
        }
        _ => panic!("expected a for loop"),
    }
    match &b.statements[1] {
        Statement::Goto { label, .. } => assert_eq!(label, "out"),
        _ => panic!("expected goto"),
    }
    match &b.statements[2] {
        Statement::Label { label, .. } => assert_eq!(label, "out"),
        _ => panic!("expected a label"),
    }
    match &b.statements[3] {
        Statement::Mark { key, value, .. } => {
            assert_eq!(key, "k");
            assert_eq!(value, "");
        }
        _ => panic!("expected a mark"),
    }
    assert!(matches!(b.statements[4], Statement::Continue { .. }));
}

#[test]
fn declarations_keep_source_order() {
    let src = "fn a() {} import x::y; struct B { int z; } macro c() {} const int D = 1;";
    let mut t = Tb::new(src);
    let root = t.span(None, NodeKind::File, 0, src.len());
    let f = t.add(Some(root), NodeKind::Function, "fn a() {}", 0);
    t.add(Some(f), NodeKind::Ident, "a", 0);
    t.add(Some(f), NodeKind::Block, "{}", 0);
    let im = t.add(Some(root), NodeKind::Import, "import x::y", 0);
    let iname = t.add(Some(im), NodeKind::Importname, "x::y", 0);
    t.add(Some(iname), NodeKind::Ident, "x", 0);
    t.add(Some(iname), NodeKind::Ident, "y", 0);
    let s = t.add(Some(root), NodeKind::StructD, "struct B { int z; }", 0);
    t.add(Some(s), NodeKind::Ident, "B", 0);
    let sf = t.add(Some(s), NodeKind::StructF, "int z", 0);
    let snt = t.add(Some(sf), NodeKind::NamedType, "int z", 0);
    t.add(Some(snt), NodeKind::TypeName, "int", 0);
    t.add(Some(snt), NodeKind::Ident, "z", 0);
    t.add(Some(root), NodeKind::Comment, "fn", 0);
    let mc = t.add(Some(root), NodeKind::Imacro, "macro c() {}", 0);
    t.add(Some(mc), NodeKind::Ident, "c", 0);
    t.add(Some(mc), NodeKind::Block, "{}", 1);
    let c = t.add(Some(root), NodeKind::Constant, "const int D = 1", 0);
    let cnt = t.add(Some(c), NodeKind::NamedType, "int D", 0);
    t.add(Some(cnt), NodeKind::TypeName, "int", 1);
    t.add(Some(cnt), NodeKind::Ident, "D", 0);
    let ce = t.add(Some(c), NodeKind::Expr, "1", 0);
    t.add(Some(ce), NodeKind::NumberLiteral, "1", 0);
    t.span(Some(root), NodeKind::Eoi, src.len(), src.len());
    let (tree, src) = t.tree();
    let m = ZZParser::module(&tree, &file(), &"m".to_string(), 0).ok().expect("module");
    let names: Vec<&str> = m.locals.iter().map(|l| l.name.as_str()).collect();
    assert_eq!(names, vec!["a", "B", "c", "D"]);
    assert!(matches!(m.locals[0].def, Def::Function { .. }));
    assert!(matches!(m.locals[1].def, Def::Struct { .. }));
    assert!(matches!(m.locals[2].def, Def::Macro { .. }));
    assert!(matches!(m.locals[3].def, Def::Const { .. }));
    assert_eq!(text(&src, m.locals[0].loc.start, m.locals[0].loc.end), "fn a() {}");
    assert_eq!(m.imports.len(), 1);
    assert_eq!(m.imports[0].name.parts, vec!["x".to_string(), "y".to_string()]);
    assert_eq!(m.imports[0].vis, Visibility::Object);
}

#[test]
fn import_with_local_bindings_and_system_header() {
    let src = "import ::ext::<stdio.h>::{printf, \"puts\" as p}";
    let mut t = Tb::new(src);
    let iname = t.span(None, NodeKind::Importname, 7, src.len());
    t.add(Some(iname), NodeKind::Cimport, "<stdio.h>", 0);
    let loc = t.add(Some(iname), NodeKind::Local, "{printf, \"puts\" as p}", 0);
    let l1 = t.add(Some(loc), NodeKind::LocalI, "printf", 0);
    t.add(Some(l1), NodeKind::Ident, "printf", 0);
    let l2 = t.add(Some(loc), NodeKind::LocalI, "\"puts\" as p", 0);
    let q = t.add(Some(l2), NodeKind::Qident, "\"puts\"", 0);
    t.add(Some(q), NodeKind::Ident, "puts", 0);
    t.add(Some(l2), NodeKind::Ident, "p", 0);
    let (tree, _) = t.tree();
    let (name, local) = parse_importname(&tree, &file(), 0).ok().expect("import name");
    assert_eq!(name.parts, vec!["".to_string(), "ext".to_string(), "<stdio.h>".to_string()]);
    assert_eq!(
        local,
        vec![("printf".to_string(), None), ("puts".to_string(), Some("p".to_string()))]
    );
}

#[test]
fn names_split_on_double_colons() {
    let n = zz::ast::Name::from_text("::std::io::File");
    assert_eq!(n.parts, vec!["".to_string(), "std".to_string(), "io".to_string(), "File".to_string()]);
    let one = zz::ast::Name::from_text("int");
    assert_eq!(one.parts, vec!["int".to_string()]);
    let empty = zz::ast::Name::from_text("");
    assert_eq!(empty.parts, vec!["".to_string()]);
}

fn function_tree(src: &str, names: &[&str], bodies: usize) -> SyntaxTree {
    let mut t = Tb::new(src);
    let root = t.span(None, NodeKind::File, 0, src.len());
    let f = t.span(Some(root), NodeKind::Function, 0, src.len());
    for n in names {
        t.add(Some(f), NodeKind::Ident, n, 0);
    }
    for k in 0..bodies {
        t.add(Some(f), NodeKind::Block, "{}", k);
    }
    t.tree().0
}

#[test]
fn function_with_two_names_is_rejected() {
    let tree = function_tree("fn a b {}", &["a", "b"], 1);
    let e = ZZParser::module(&tree, &file(), &"m".to_string(), 0).err().expect("error");
    assert_eq!(e.kind, ErrorKind::Unexpected);
}

#[test]
fn function_without_body_is_rejected() {
    let tree = function_tree("fn a;", &["a"], 0);
    let e = ZZParser::module(&tree, &file(), &"m".to_string(), 0).err().expect("error");
    assert_eq!(e.kind, ErrorKind::Unexpected);
}

#[test]
fn function_with_two_bodies_is_rejected() {
    let tree = function_tree("fn a {} {}", &["a"], 2);
    assert!(ZZParser::module(&tree, &file(), &"m".to_string(), 0).is_err());
}

#[test]
fn variadic_function_with_shared_visibility() {
    let src = "shared fn p(int a, ...) {}";
    let mut t = Tb::new(src);
    let root = t.span(None, NodeKind::File, 0, src.len());
    let f = t.span(Some(root), NodeKind::Function, 0, src.len());
    t.add(Some(f), NodeKind::KeyShared, "shared", 0);
    t.add(Some(f), NodeKind::Ident, "p", 0);
    let args = t.add(Some(f), NodeKind::FnArgs, "int a, ...", 0);
    let a = t.add(Some(args), NodeKind::NamedType, "int a", 0);
    t.add(Some(a), NodeKind::TypeName, "int", 0);
    t.add(Some(a), NodeKind::Ident, "a", 1);
    t.add(Some(args), NodeKind::Vararg, "...", 0);
    t.add(Some(f), NodeKind::Block, "{}", 0);
    let (tree, _) = t.tree();
    let m = ZZParser::module(&tree, &file(), &"m".to_string(), 0).ok().expect("module");
    assert_eq!(m.locals[0].name, "p");
    assert_eq!(m.locals[0].vis, Visibility::Shared);
    match &m.locals[0].def {
        Def::Function { args, vararg, ret, .. } => {
            assert_eq!(args.len(), 1);
            assert!(*vararg);
            assert!(ret.is_none());
        }
        _ => panic!("expected a function"),
    }
}

#[test]
fn exported_macro_with_rename() {
    let src = "export(mm) macro m(a, b) {}";
    let mut t = Tb::new(src);
    let root = t.span(None, NodeKind::File, 0, src.len());
    let mc = t.span(Some(root), NodeKind::Imacro, 0, src.len());
    let ex = t.add(Some(mc), NodeKind::Exported, "export(mm)", 0);
    t.add(Some(ex), NodeKind::Ident, "mm", 0);
    t.add(Some(mc), NodeKind::Ident, "m", 3);
    let ma = t.add(Some(mc), NodeKind::MacroArgs, "a, b", 0);
    t.add(Some(ma), NodeKind::Ident, "a", 1);
    t.add(Some(ma), NodeKind::Ident, "b", 0);
    t.add(Some(mc), NodeKind::Block, "{}", 0);
    let (tree, _) = t.tree();
    let m = ZZParser::module(&tree, &file(), &"m".to_string(), 0).ok().expect("module");
    let l = &m.locals[0];
    assert_eq!(l.name, "m");
    assert_eq!(l.vis, Visibility::Export);
    assert_eq!(l.export_as.as_deref(), Some("mm"));
    match &l.def {
        Def::Macro { args, .. } => assert_eq!(args, &vec!["a".to_string(), "b".to_string()]),
        _ => panic!("expected a macro"),
    }
}

#[test]
fn packed_struct_with_array_field() {
    let src = "struct S packed { u8 b[4]; }";
    let mut t = Tb::new(src);
    let root = t.span(None, NodeKind::File, 0, src.len());
    let s = t.span(Some(root), NodeKind::StructD, 0, src.len());
    t.add(Some(s), NodeKind::Ident, "S", 0);
    t.add(Some(s), NodeKind::KeyPacked, "packed", 0);
    let f = t.add(Some(s), NodeKind::StructF, "u8 b[4]", 0);
    let nt = t.add(Some(f), NodeKind::NamedType, "u8 b", 0);
    t.add(Some(nt), NodeKind::TypeName, "u8", 0);
    t.add(Some(nt), NodeKind::Ident, "b", 0);
    let arr = t.add(Some(f), NodeKind::Array, "[4]", 0);
    let e = t.add(Some(arr), NodeKind::Expr, "4", 0);
    t.add(Some(e), NodeKind::NumberLiteral, "4", 0);
    let (tree, _) = t.tree();
    let m = ZZParser::module(&tree, &file(), &"m".to_string(), 0).ok().expect("module");
    match &m.locals[0].def {
        Def::Struct { fields, packed } => {
            assert!(*packed);
            assert!(matches!(fields[0].array, Some(Expression::Literal { .. })));
        }
        _ => panic!("expected a struct"),
    }
}

#[test]
fn thread_local_static_storage() {
    let src = "thread_local int counter = 0;";
    let mut t = Tb::new(src);
    let root = t.span(None, NodeKind::File, 0, src.len());
    let st = t.span(Some(root), NodeKind::Istatic, 0, src.len());
    t.add(Some(st), NodeKind::KeyThreadLocal, "thread_local", 0);
    let nt = t.add(Some(st), NodeKind::NamedType, "int counter", 0);
    t.add(Some(nt), NodeKind::TypeName, "int", 0);
    t.add(Some(nt), NodeKind::Ident, "counter", 0);
    let e = t.add(Some(st), NodeKind::Expr, "0", 0);
    t.add(Some(e), NodeKind::NumberLiteral, "0", 0);
    let (tree, _) = t.tree();
    let m = ZZParser::module(&tree, &file(), &"m".to_string(), 0).ok().expect("module");
    match &m.locals[0].def {
        Def::Static { storage, mutable, .. } => {
            assert_eq!(*storage, Storage::ThreadLocal);
            assert!(!mutable);
        }
        _ => panic!("expected a static"),
    }
}

#[test]
fn unknown_top_level_node_is_rejected() {
    let src = "break";
    let mut t = Tb::new(src);
    let root = t.span(None, NodeKind::File, 0, src.len());
    t.add(Some(root), NodeKind::BreakStm, "break", 0);
    let (tree, _) = t.tree();
    let e = ZZParser::module(&tree, &file(), &"m".to_string(), 0).err().expect("error");
    assert_eq!(e.kind, ErrorKind::Unexpected);
    assert_eq!((e.loc.start, e.loc.end), (0, 5));
}

#[test]
fn exported_import_with_alias() {
    let src = "export import a::b as c";
    let mut t = Tb::new(src);
    let root = t.span(None, NodeKind::File, 0, src.len());
    let im = t.span(Some(root), NodeKind::Import, 0, src.len());
    t.add(Some(im), NodeKind::Exported, "export", 0);
    let iname = t.add(Some(im), NodeKind::Importname, "a::b", 0);
    let tn = t.add(Some(iname), NodeKind::TypeName, "a::b", 0);
    t.add(Some(tn), NodeKind::Ident, "a", 0);
    t.add(Some(tn), NodeKind::Ident, "b", 0);
    let al = t.add(Some(im), NodeKind::Importalias, "as c", 0);
    t.add(Some(al), NodeKind::Ident, "c", 0);
    let (tree, _) = t.tree();
    let m = ZZParser::module(&tree, &file(), &"m".to_string(), 0).ok().expect("module");
    assert_eq!(m.locals.len(), 0);
    let i = &m.imports[0];
    assert_eq!(i.name.parts, vec!["a".to_string(), "b".to_string()]);
    assert_eq!(i.alias.as_deref(), Some("c"));
    assert_eq!(i.vis, Visibility::Export);
}

#[test]
fn block_end_is_empty_location_at_close() {
    let src = "{ x; }";
    let mut t = Tb::new(src);
    let blk = t.span(None, NodeKind::Block, 0, src.len());
    let e = t.add(Some(blk), NodeKind::Expr, "x", 0);
    t.add(Some(e), NodeKind::TypeName, "x", 0);
    let (tree, _) = t.tree();
    let b = parse_block(&tree, &file(), 0).ok().expect("block");
    assert_eq!((b.end.start, b.end.end), (6, 6));
    assert_eq!(b.end.file, "m.zz");
    assert!(matches!(b.statements[0], Statement::Expr { .. }));
}

#[test]
fn tree_well_formedness_check() {
    let src = "a";
    let mut t = Tb::new(src);
    let e = t.span(None, NodeKind::Expr, 0, 1);
    t.add(Some(e), NodeKind::TypeName, "a", 0);
    let (mut tree, _) = t.tree();
    assert!(tree.is_wf());
    tree.nodes[1].children.push(0);
    assert!(!tree.is_wf());
}

#[test]
fn assignment_keeps_its_sides() {
    let src = "{ x += y; }";
    let mut t = Tb::new(src);
    let blk = t.span(None, NodeKind::Block, 0, src.len());
    let a = t.add(Some(blk), NodeKind::Assign, "x += y", 0);
    let l = t.add(Some(a), NodeKind::Lhs, "x", 0);
    t.add(Some(l), NodeKind::TypeName, "x", 0);
    t.add(Some(a), NodeKind::Assignop, "+=", 0);
    let r = t.add(Some(a), NodeKind::Expr, "y", 0);
    t.add(Some(r), NodeKind::TypeName, "y", 0);
    let (tree, _) = t.tree();
    let b = parse_block(&tree, &file(), 0).ok().expect("block");
    match &b.statements[0] {
        Statement::Assign { lhs, op, rhs, .. } => {
            assert_eq!(op, "+=");
            match (lhs, rhs) {
                (Expression::Name(l), Expression::Name(r)) => {
                    assert_eq!(l.name.parts, vec!["x".to_string()]);
                    assert_eq!(r.name.parts, vec!["y".to_string()]);
                }
                _ => panic!("expected two names"),
            }
        }
        _ => panic!("expected an assignment"),
    }
}

#[test]
fn var_declaration_parts() {
    let src = "{ new mut int a[2] = 0; }";
    let mut t = Tb::new(src);
    let blk = t.span(None, NodeKind::Block, 0, src.len());
    let v = t.add(Some(blk), NodeKind::Vardecl, "new mut int a[2] = 0", 0);
    let nt = t.add(Some(v), NodeKind::NamedType, "int a", 0);
    t.add(Some(nt), NodeKind::TypeName, "int", 0);
    t.add(Some(nt), NodeKind::Ident, "a", 0);
    let arr = t.add(Some(v), NodeKind::Array, "[2]", 0);
    let ae = t.add(Some(arr), NodeKind::Expr, "2", 0);
    t.add(Some(ae), NodeKind::NumberLiteral, "2", 0);
    let e = t.add(Some(v), NodeKind::Expr, "0", 0);
    t.add(Some(e), NodeKind::NumberLiteral, "0", 0);
    let (tree, _) = t.tree();
    let b = parse_block(&tree, &file(), 0).ok().expect("block");
    match &b.statements[0] {
        Statement::Var { name, typed, array, assign, .. } => {
            assert_eq!(name, "a");
            assert_eq!(typed.name.parts, vec!["int".to_string()]);
            assert!(matches!(array, Some(Expression::Literal { v, .. }) if v == "2"));
            assert!(matches!(assign, Some(Expression::Literal { v, .. }) if v == "0"));
        }
        _ => panic!("expected a variable declaration"),
    }
}
