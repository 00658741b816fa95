use blastf::ast::{
    Block, Constant, ConstantKind, Definition, DefinitionKind, Expr, ExprKind, Fn, FnDecl, FnHeader,
    FnSig, LocalBind, LocalBindKind, Param, Statement, StatementKind, Struct, StructField, Ty, TyKind,
};
use blastf::path::{Path, PathSegment};
use blastf::visitor::NodeKind as K;
use blastf::trace::Tracer;
use blastf::visitor::{ApplyResult, AstNode, Visitable, Visitor};

/// Counts the constants it is applied to.
struct ConstantCounter {
    count: usize,
}

impl Visitor<(), ()> for ConstantCounter {
    fn step(_pre: Self, _node: AstNode, _post: Self, _node2: AstNode, _r: ApplyResult<(), ()>) -> bool {
        true
    }

    fn apply(&mut self, node: &mut AstNode) -> ApplyResult<(), ()> {
        if let AstNode::Constant(_) = node {
            self.count += 1;
        }
        Ok((true, None))
    }
}

/// Renames every identifier in place.
struct Renamer;

impl Visitor<(), ()> for Renamer {
    fn step(_pre: Self, _node: AstNode, _post: Self, _node2: AstNode, _r: ApplyResult<(), ()>) -> bool {
        true
    }

    fn apply(&mut self, node: &mut AstNode) -> ApplyResult<(), ()> {
        if let AstNode::PathSegment(s) = node {
            s.ident = format!("r_{}", s.ident);
        }
        Ok((true, None))
    }
}

fn path(segs: &[&str]) -> Path {
    Path { segments: segs.iter().map(|s| PathSegment { ident: s.to_string() }).collect() }
}

fn int_expr(n: i64) -> Expr {
    Expr { kind: ExprKind::Constant(Constant { kind: ConstantKind::Int(n) }) }
}

/// A block holding one node of every kind.
fn every_kind() -> Block {
    let strukt = Struct {
        fields: vec![StructField {
            ident: "f".to_string(),
            ty: Box::new(Ty { kind: TyKind::Path(path(&["T"])) }),
        }],
    };
    let fun = Fn {
        sig: FnSig {
            header: FnHeader { rec: false, constness: false },
            decl: Box::new(FnDecl {
                inputs: vec![Param { ty: Box::new(Ty { kind: TyKind::Int }) }],
                output: Ty { kind: TyKind::Void },
            }),
        },
        body: None,
    };
    Block {
        stmts: vec![
            Statement {
                kind: StatementKind::Def(Box::new(Definition {
                    ident: "S".to_string(),
                    kind: DefinitionKind::Struct(strukt),
                })),
            },
            Statement {
                kind: StatementKind::Def(Box::new(Definition {
                    ident: "g".to_string(),
                    kind: DefinitionKind::Fn(Box::new(fun)),
                })),
            },
            Statement {
                kind: StatementKind::Let(Box::new(LocalBind {
                    ident: "x".to_string(),
                    ty: None,
                    kind: LocalBindKind::Init(int_expr(5)),
                })),
            },
        ],
    }
}

#[test]
fn records_every_kind_in_depth_first_order() {
    let mut b = every_kind();
    let mut r = Tracer::new(None, None);
    let res = b.visit(&mut r);
    assert_eq!(res, Ok(Some(K::Block)));
    assert_eq!(
        r.kinds,
        vec![
            K::Block, K::Statement, K::Definition, K::Struct, K::StructField, K::Ident, K::Ty, K::Path, K::PathSegment,
            K::Statement, K::Definition, K::Fn, K::FnSig, K::FnHeader, K::FnDecl, K::Param, K::Ty, K::Ty, K::Statement,
            K::LocalBind, K::Ident, K::Expr, K::Constant,
        ]
    );
    for k in [
        K::Ident, K::Path, K::PathSegment, K::Definition, K::Ty, K::Struct, K::StructField, K::Fn, K::FnSig, K::FnHeader,
        K::FnDecl, K::Param, K::Expr, K::Constant, K::LocalBind, K::Statement, K::Block,
    ] {
        assert!(r.kinds.contains(&k));
    }
    assert_eq!(b, every_kind());
}

#[test]
fn cut_skips_descendants_only() {
    let mut b = every_kind();
    let mut r = Tracer::new(Some(K::Struct), None);
    assert_eq!(b.visit(&mut r), Ok(Some(K::Block)));
    assert_eq!(
        r.kinds,
        vec![
            K::Block, K::Statement, K::Definition, K::Struct, K::Statement, K::Definition, K::Fn, K::FnSig, K::FnHeader,
            K::FnDecl, K::Param, K::Ty, K::Ty, K::Statement, K::LocalBind, K::Ident, K::Expr, K::Constant,
        ]
    );
}

#[test]
fn cut_at_root_visits_only_root() {
    let mut b = every_kind();
    let mut r = Tracer::new(Some(K::Block), None);
    assert_eq!(b.visit(&mut r), Ok(Some(K::Block)));
    assert_eq!(r.kinds, vec![K::Block]);
}

#[test]
fn failure_three_levels_down_stops_the_walk() {
    let mut b = every_kind();
    let mut r = Tracer::new(None, Some(K::Struct));
    assert_eq!(b.visit(&mut r), Err(K::Struct));
    assert_eq!(r.kinds, vec![K::Block, K::Statement, K::Definition, K::Struct]);
}

#[test]
fn failure_at_root_visits_nothing_else() {
    let mut b = every_kind();
    let mut r = Tracer::new(None, Some(K::Block));
    assert_eq!(b.visit(&mut r), Err(K::Block));
    assert_eq!(r.kinds, vec![K::Block]);
}

#[test]
fn declaration_without_body_visits_no_block() {
    let mut f = Fn {
        sig: FnSig {
            header: FnHeader { rec: true, constness: true },
            decl: Box::new(FnDecl { inputs: vec![], output: Ty { kind: TyKind::Bool } }),
        },
        body: None,
    };
    let mut r = Tracer::new(None, None);
    assert_eq!(f.visit(&mut r), Ok(Some(K::Fn)));
    assert!(!r.kinds.contains(&K::Block));
    assert_eq!(
        r.kinds,
        vec![K::Fn, K::FnSig, K::FnHeader, K::FnDecl, K::Ty]
    );
}

#[test]
fn function_with_body_visits_block() {
    let mut f = Fn {
        sig: FnSig {
            header: FnHeader { rec: false, constness: false },
            decl: Box::new(FnDecl { inputs: vec![], output: Ty { kind: TyKind::Void } }),
        },
        body: Some(Box::new(Block { stmts: vec![] })),
    };
    let mut r = Tracer::new(None, None);
    assert_eq!(f.visit(&mut r), Ok(Some(K::Fn)));
    assert_eq!(r.kinds.last(), Some(&K::Block));
}

#[test]
fn let_without_initializer_visits_no_expr() {
    let mut l = LocalBind {
        ident: "x".to_string(),
        ty: Some(Ty { kind: TyKind::String }),
        kind: LocalBindKind::Decl,
    };
    let mut r = Tracer::new(None, None);
    assert_eq!(l.visit(&mut r), Ok(Some(K::LocalBind)));
    assert_eq!(r.kinds, vec![K::LocalBind, K::Ident, K::Ty]);
}

#[test]
fn counts_one_constant_in_let() {
    let mut b = Block {
        stmts: vec![Statement {
            kind: StatementKind::Let(Box::new(LocalBind {
                ident: "x".to_string(),
                ty: None,
                kind: LocalBindKind::Init(int_expr(5)),
            })),
        }],
    };
    let mut c = ConstantCounter { count: 0 };
    assert_eq!(b.visit(&mut c), Ok(None));
    assert_eq!(c.count, 1);
}

#[test]
fn rewrites_in_place() {
    let mut e = Expr { kind: ExprKind::Variable(path(&["a", "b"])) };
    assert_eq!(e.visit(&mut Renamer), Ok(None));
    assert_eq!(e, Expr { kind: ExprKind::Variable(path(&["r_a", "r_b"])) });
}

#[test]
fn float_constant_keeps_its_bits() {
    let c = Constant { kind: ConstantKind::Float(1.5f64.to_bits()) };
    match c.kind {
        ConstantKind::Float(bits) => assert_eq!(f64::from_bits(bits), 1.5),
        _ => unreachable!(),
    }
}

#[test]
fn cut_and_fail_together() {
    let mut b = every_kind();
    let mut r = Tracer::new(Some(K::Struct), Some(K::Param));
    assert_eq!(b.visit(&mut r), Err(K::Param));
    assert_eq!(
        r.kinds,
        vec![
            K::Block, K::Statement, K::Definition, K::Struct, K::Statement, K::Definition, K::Fn,
            K::FnSig, K::FnHeader, K::FnDecl, K::Param,
        ]
    );
}

#[test]
fn payload_is_root_kind_only() {
    let mut s = Statement { kind: StatementKind::Expr(Box::new(int_expr(7))) };
    let mut r = Tracer::new(None, None);
    assert_eq!(s.visit(&mut r), Ok(Some(K::Statement)));
    assert_eq!(r.kinds, vec![K::Statement, K::Expr, K::Constant]);
}
