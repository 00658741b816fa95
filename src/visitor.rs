use crate::ast::{
    Block, Constant, ConstantKind, Definition, DefinitionKind, Expr, ExprKind, Fn, FnDecl, FnHeader, FnSig, Ident,
    LocalBind, LocalBindKind, Param, Statement, StatementKind, Struct, StructField, Ty, TyKind,
};
use crate::path::{Path, PathSegment};
use vstd::prelude::*;

verus! {

/// A node of the tree, of any kind, as handed to a visitor. A traversal moves the node out of
/// its place for the call and puts it back afterwards, with whatever the visitor made of it.
pub enum AstNode {
    Ident(Ident),
    Path(Path),
    PathSegment(PathSegment),
    Definition(Definition),
    Ty(Ty),
    Struct(Struct),
    StructField(StructField),
    Fn(Fn),
    FnSig(FnSig),
    FnHeader(FnHeader),
    FnDecl(FnDecl),
    Param(Param),
    Expr(Expr),
    Constant(Constant),
    LocalBind(LocalBind),
    Statement(Statement),
    Block(Block),
}

/// The kind of a node.
#[derive(Clone, Copy, Debug, PartialEq, Eq, Structural)]
pub enum NodeKind {
    Ident,
    Path,
    PathSegment,
    Definition,
    Ty,
    Struct,
    StructField,
    Fn,
    FnSig,
    FnHeader,
    FnDecl,
    Param,
    Expr,
    Constant,
    LocalBind,
    Statement,
    Block,
}

/// The kind of a node.
pub open spec fn kind_of(n: AstNode) -> NodeKind {
    match n {
        AstNode::Ident(_) => NodeKind::Ident,
        AstNode::Path(_) => NodeKind::Path,
        AstNode::PathSegment(_) => NodeKind::PathSegment,
        AstNode::Definition(_) => NodeKind::Definition,
        AstNode::Ty(_) => NodeKind::Ty,
        AstNode::Struct(_) => NodeKind::Struct,
        AstNode::StructField(_) => NodeKind::StructField,
        AstNode::Fn(_) => NodeKind::Fn,
        AstNode::FnSig(_) => NodeKind::FnSig,
        AstNode::FnHeader(_) => NodeKind::FnHeader,
        AstNode::FnDecl(_) => NodeKind::FnDecl,
        AstNode::Param(_) => NodeKind::Param,
        AstNode::Expr(_) => NodeKind::Expr,
        AstNode::Constant(_) => NodeKind::Constant,
        AstNode::LocalBind(_) => NodeKind::LocalBind,
        AstNode::Statement(_) => NodeKind::Statement,
        AstNode::Block(_) => NodeKind::Block,
    }
}

/// Path segments as nodes.
pub open spec fn segment_nodes(s: Seq<PathSegment>) -> Seq<AstNode> {
    s.map_values(|x: PathSegment| AstNode::PathSegment(x))
}

/// Struct fields as nodes.
pub open spec fn field_nodes(s: Seq<StructField>) -> Seq<AstNode> {
    s.map_values(|x: StructField| AstNode::StructField(x))
}

/// Parameters as nodes.
pub open spec fn param_nodes(s: Seq<Param>) -> Seq<AstNode> {
    s.map_values(|x: Param| AstNode::Param(x))
}

/// Statements as nodes.
pub open spec fn stmt_nodes(s: Seq<Statement>) -> Seq<AstNode> {
    s.map_values(|x: Statement| AstNode::Statement(x))
}

/// The children of a node that a traversal descends into, in order.
pub open spec fn children(n: AstNode) -> Seq<AstNode> {
    match n {
        AstNode::Path(p) => segment_nodes(p.segments@),
        AstNode::Definition(d) => match d.kind {
            DefinitionKind::Struct(s) => seq![AstNode::Struct(s)],
            DefinitionKind::Fn(f) => seq![AstNode::Fn(*f)],
        },
        AstNode::Ty(t) => match t.kind {
            TyKind::Path(p) => seq![AstNode::Path(p)],
            _ => Seq::empty(),
        },
        AstNode::Struct(s) => field_nodes(s.fields@),
        AstNode::StructField(f) => seq![AstNode::Ident(f.ident), AstNode::Ty(*f.ty)],
        AstNode::Fn(f) => match f.body {
            Some(b) => seq![AstNode::FnSig(f.sig), AstNode::Block(*b)],
            None => seq![AstNode::FnSig(f.sig)],
        },
        AstNode::FnSig(s) => seq![AstNode::FnHeader(s.header), AstNode::FnDecl(*s.decl)],
        AstNode::FnDecl(d) => param_nodes(d.inputs@).push(AstNode::Ty(d.output)),
        AstNode::Param(p) => seq![AstNode::Ty(*p.ty)],
        AstNode::Expr(e) => match e.kind {
            ExprKind::Variable(p) => seq![AstNode::Path(p)],
            ExprKind::Constant(c) => seq![AstNode::Constant(c)],
            ExprKind::Block(b) => seq![AstNode::Block(b)],
        },
        AstNode::LocalBind(l) => seq![AstNode::Ident(l.ident)] + match l.ty {
            Some(t) => seq![AstNode::Ty(t)],
            None => Seq::empty(),
        } + match l.kind {
            LocalBindKind::Init(e) => seq![AstNode::Expr(e)],
            LocalBindKind::Decl => Seq::empty(),
        },
        AstNode::Statement(s) => match s.kind {
            StatementKind::Let(l) => seq![AstNode::LocalBind(*l)],
            StatementKind::Def(d) => seq![AstNode::Definition(*d)],
            StatementKind::Expr(e) => seq![AstNode::Expr(*e)],
        },
        AstNode::Block(b) => stmt_nodes(b.stmts@),
        _ => Seq::empty(),
    }
}

/// Whether `b` has the shape of `a`: the same kind, the same data outside its children, and
/// the same optional children present.
pub open spec fn same_shape(a: AstNode, b: AstNode) -> bool {
    match (a, b) {
        (AstNode::Path(_), AstNode::Path(_)) => true,
        (AstNode::Definition(x), AstNode::Definition(y)) => x.ident == y.ident && match (x.kind, y.kind) {
            (DefinitionKind::Struct(_), DefinitionKind::Struct(_)) => true,
            (DefinitionKind::Fn(_), DefinitionKind::Fn(_)) => true,
            _ => false,
        },
        (AstNode::Ty(x), AstNode::Ty(y)) => match (x.kind, y.kind) {
            (TyKind::Path(_), TyKind::Path(_)) => true,
            (TyKind::Path(_), _) => false,
            (_, TyKind::Path(_)) => false,
            _ => x == y,
        },
        (AstNode::Struct(_), AstNode::Struct(_)) => true,
        (AstNode::StructField(_), AstNode::StructField(_)) => true,
        (AstNode::Fn(x), AstNode::Fn(y)) => x.body.is_some() == y.body.is_some(),
        (AstNode::FnSig(_), AstNode::FnSig(_)) => true,
        (AstNode::FnDecl(_), AstNode::FnDecl(_)) => true,
        (AstNode::Param(_), AstNode::Param(_)) => true,
        (AstNode::Expr(x), AstNode::Expr(y)) => match (x.kind, y.kind) {
            (ExprKind::Variable(_), ExprKind::Variable(_)) => true,
            (ExprKind::Constant(_), ExprKind::Constant(_)) => true,
            (ExprKind::Block(_), ExprKind::Block(_)) => true,
            _ => false,
        },
        (AstNode::LocalBind(x), AstNode::LocalBind(y)) => x.ty.is_some() == y.ty.is_some() && match (x.kind, y.kind) {
            (LocalBindKind::Decl, LocalBindKind::Decl) => true,
            (LocalBindKind::Init(_), LocalBindKind::Init(_)) => true,
            _ => false,
        },
        (AstNode::Statement(x), AstNode::Statement(y)) => match (x.kind, y.kind) {
            (StatementKind::Let(_), StatementKind::Let(_)) => true,
            (StatementKind::Def(_), StatementKind::Def(_)) => true,
            (StatementKind::Expr(_), StatementKind::Expr(_)) => true,
            _ => false,
        },
        (AstNode::Block(_), AstNode::Block(_)) => true,
        _ => a == b,
    }
}

/// The larger of two naturals.
pub open spec fn max_nat(a: nat, b: nat) -> nat {
    if a >= b { a } else { b }
}

/// The depth of a path: its segments are leaves.
pub open spec fn depth_path(p: Path) -> nat {
    1
}

/// The depth of a type.
pub open spec fn depth_ty(t: Ty) -> nat {
    match t.kind {
        TyKind::Path(p) => 1 + depth_path(p),
        _ => 1,
    }
}

/// The depth of a struct field.
pub open spec fn depth_field(f: StructField) -> nat {
    1 + depth_ty(*f.ty)
}

/// The greatest depth among struct fields.
pub open spec fn depth_fields(s: Seq<StructField>) -> nat
    decreases s.len(),
{
    if s.len() == 0 { 0 } else { max_nat(depth_fields(s.drop_last()), depth_field(s.last())) }
}

/// The depth of a struct.
pub open spec fn depth_struct(s: Struct) -> nat {
    1 + depth_fields(s.fields@)
}

/// The depth of a parameter.
pub open spec fn depth_param(p: Param) -> nat {
    1 + depth_ty(*p.ty)
}

/// The greatest depth among parameters.
pub open spec fn depth_params(s: Seq<Param>) -> nat
    decreases s.len(),
{
    if s.len() == 0 { 0 } else { max_nat(depth_params(s.drop_last()), depth_param(s.last())) }
}

/// The depth of a function declaration.
pub open spec fn depth_decl(d: FnDecl) -> nat {
    1 + max_nat(depth_params(d.inputs@), depth_ty(d.output))
}

/// The depth of a function signature.
pub open spec fn depth_sig(s: FnSig) -> nat {
    1 + depth_decl(*s.decl)
}

/// The depth of a function.
pub open spec fn depth_fn(f: Fn) -> nat
    decreases f,
{
    1 + max_nat(
        depth_sig(f.sig),
        match f.body {
            Some(b) => depth_block(*b),
            None => 0,
        },
    )
}

/// The depth of a definition.
pub open spec fn depth_def(d: Definition) -> nat
    decreases d,
{
    1 + match d.kind {
        DefinitionKind::Struct(s) => depth_struct(s),
        DefinitionKind::Fn(f) => depth_fn(*f),
    }
}

/// The depth of an expression.
pub open spec fn depth_expr(e: Expr) -> nat
    decreases e,
{
    1 + match e.kind {
        ExprKind::Variable(p) => depth_path(p),
        ExprKind::Constant(_) => 0,
        ExprKind::Block(b) => depth_block(b),
    }
}

/// The depth of a local binding.
pub open spec fn depth_local(l: LocalBind) -> nat
    decreases l,
{
    1 + max_nat(
        match l.ty {
            Some(t) => depth_ty(t),
            None => 0,
        },
        match l.kind {
            LocalBindKind::Init(e) => depth_expr(e),
            LocalBindKind::Decl => 0,
        },
    )
}

/// The depth of a statement.
pub open spec fn depth_stmt(s: Statement) -> nat
    decreases s,
{
    1 + match s.kind {
        StatementKind::Let(l) => depth_local(*l),
        StatementKind::Def(d) => depth_def(*d),
        StatementKind::Expr(e) => depth_expr(*e),
    }
}

/// The greatest depth among statements.
pub open spec fn depth_stmts(s: Seq<Statement>) -> nat
    decreases s,
{
    if s.len() == 0 { 0 } else { max_nat(depth_stmts(s.drop_last()), depth_stmt(s.last())) }
}

/// The depth of a block.
pub open spec fn depth_block(b: Block) -> nat
    decreases b,
{
    1 + depth_stmts(b.stmts@)
}

/// How deep a node reaches: 0 for a leaf, else one more than its deepest child.
pub open spec fn depth(n: AstNode) -> nat {
    match n {
        AstNode::Path(p) => depth_path(p),
        AstNode::Definition(d) => depth_def(d),
        AstNode::Ty(t) => depth_ty(t),
        AstNode::Struct(s) => depth_struct(s),
        AstNode::StructField(f) => depth_field(f),
        AstNode::Fn(f) => depth_fn(f),
        AstNode::FnSig(s) => depth_sig(s),
        AstNode::FnDecl(d) => depth_decl(d),
        AstNode::Param(p) => depth_param(p),
        AstNode::Expr(e) => depth_expr(e),
        AstNode::LocalBind(l) => depth_local(l),
        AstNode::Statement(s) => depth_stmt(s),
        AstNode::Block(b) => depth_block(b),
        _ => 0,
    }
}

/// What `apply` returns: whether to descend into the children, and an optional payload.
pub type ApplyResult<K, V> = Result<(bool, Option<K>), V>;

/// A pass over the tree. `apply` is called once on each node that a traversal reaches, and
/// may rewrite the node in place, keeping its kind and not making it deeper. A visitor that
/// has nothing to do at a node returns `Ok((true, None))`.
pub trait Visitor<K, V>: Sized {
    /// Whether one call of `apply` may take the visitor from `pre` to `post` while turning
    /// `node` into `node2` and returning `r`.
    spec fn step(pre: Self, node: AstNode, post: Self, node2: AstNode, r: ApplyResult<K, V>) -> bool;

    /// Applies the visitor to `node`. Keeping the node no deeper than it was is what makes
    /// every traversal end.
    fn apply(&mut self, node: &mut AstNode) -> (r: ApplyResult<K, V>)
        ensures
            kind_of(*final(node)) == kind_of(*old(node)),
            depth(*final(node)) <= depth(*old(node)),
            Self::step(*old(self), *old(node), *final(self), *final(node), r),
    ;
}

/// The result of a traversal given what the children's traversal returned.
pub open spec fn finish<K, V>(p: Option<K>, rr: Result<(), V>) -> Result<Option<K>, V> {
    match rr {
        Ok(_) => Ok(p),
        Err(e) => Err(e),
    }
}

/// The traversal of a node: `apply` once on the node; on failure stop with it; when told
/// not to descend, return the payload; else traverse the children in order, stopping at
/// the first failure, and return the payload or that failure.
pub open spec fn walk<K, V, T: Visitor<K, V>>(
    pre: T,
    n: AstNode,
    post: T,
    n2: AstNode,
    r: Result<Option<K>, V>,
) -> bool
    decreases depth(n) + 1, 0nat,
{
    exists|mid: T, nm: AstNode, ar: ApplyResult<K, V>|
        #[trigger] T::step(pre, n, mid, nm, ar) && kind_of(nm) == kind_of(n) && depth(nm) <= depth(n)
            && match ar {
            Err(e) => post == mid && n2 == nm && r == Err::<Option<K>, V>(e),
            Ok((false, p)) => post == mid && n2 == nm && r == Ok::<Option<K>, V>(p),
            Ok((true, p)) => exists|rr: Result<(), V>|
                walk_seq(mid, children(nm), post, children(n2), rr, depth(nm))
                    && same_shape(nm, n2) && r == #[trigger] finish(p, rr),
        }
}

/// Names the intermediate values of a traversal.
pub open spec fn chosen<A, B>(a: A, b: B) -> bool {
    true
}

/// The traversal of a sequence of siblings in order, each shallower than `bound`: a failure at
/// one skips the rest.
pub open spec fn walk_seq<K, V, T: Visitor<K, V>>(
    pre: T,
    s: Seq<AstNode>,
    post: T,
    s2: Seq<AstNode>,
    rr: Result<(), V>,
    bound: nat,
) -> bool
    decreases bound, s.len(),
{
    if s.len() == 0 {
        post == pre && s2 == s && rr == Ok::<(), V>(())
    } else if depth(s.last()) < bound && s2.len() == s.len() {
        exists|mid: T, r0: Result<(), V>|
            #[trigger] chosen(mid, r0) && walk_seq(pre, s.drop_last(), mid, s2.drop_last(), r0, bound)
                && match r0 {
                Err(e) => post == mid && s2.last() == s.last() && rr == r0,
                Ok(_) => exists|r1: Result<Option<K>, V>|
                    walk(mid, s.last(), post, s2.last(), r1) && rr == #[trigger] unit_of(r1),
            }
    } else {
        false
    }
}

/// What a child's traversal leaves for its siblings: only whether it failed.
pub open spec fn unit_of<K, V>(r: Result<Option<K>, V>) -> Result<(), V> {
    match r {
        Ok(_) => Ok(()),
        Err(e) => Err(e),
    }
}

/// The result of a traversal that stops at the node itself.
pub open spec fn stop_of<K, V>(ar: ApplyResult<K, V>) -> Result<Option<K>, V> {
    match ar {
        Ok((_, p)) => Ok(p),
        Err(e) => Err(e),
    }
}

proof fn lemma_seq_empty<K, V, T: Visitor<K, V>>(v: T, bound: nat)
    ensures
        walk_seq(v, Seq::<AstNode>::empty(), v, Seq::<AstNode>::empty(), Ok::<(), V>(()), bound),
{
}

proof fn lemma_seq_visit<K, V, T: Visitor<K, V>>(
    pre: T,
    s: Seq<AstNode>,
    mid: T,
    s2: Seq<AstNode>,
    c: AstNode,
    post: T,
    c2: AstNode,
    r1: Result<Option<K>, V>,
    bound: nat,
)
    requires
        walk_seq(pre, s, mid, s2, Ok::<(), V>(()), bound),
        walk(mid, c, post, c2, r1),
        depth(c) < bound,
    ensures
        walk_seq(pre, s.push(c), post, s2.push(c2), unit_of(r1), bound),
{
    reveal_with_fuel(walk_seq, 2);
    assert(s2.len() == s.len());
    assert(s.push(c).drop_last() =~= s);
    assert(s2.push(c2).drop_last() =~= s2);
    assert(walk_seq(pre, s.push(c).drop_last(), mid, s2.push(c2).drop_last(), Ok::<(), V>(()), bound));
    assert(walk(mid, s.push(c).last(), post, s2.push(c2).last(), r1));
    assert(chosen(mid, Ok::<(), V>(())));
}

proof fn lemma_seq_skip<K, V, T: Visitor<K, V>>(
    pre: T,
    s: Seq<AstNode>,
    mid: T,
    s2: Seq<AstNode>,
    rr: Result<(), V>,
    c: AstNode,
    bound: nat,
)
    requires
        walk_seq(pre, s, mid, s2, rr, bound),
        rr is Err,
        depth(c) < bound,
    ensures
        walk_seq(pre, s.push(c), mid, s2.push(c), rr, bound),
{
    reveal_with_fuel(walk_seq, 2);
    assert(s2.len() == s.len());
    assert(s.push(c).drop_last() =~= s);
    assert(s2.push(c).drop_last() =~= s2);
    assert(walk_seq(pre, s.push(c).drop_last(), mid, s2.push(c).drop_last(), rr, bound));
    assert(chosen(mid, rr));
}

proof fn lemma_walk_stop<K, V, T: Visitor<K, V>>(
    pre: T,
    n: AstNode,
    mid: T,
    nm: AstNode,
    ar: ApplyResult<K, V>,
)
    requires
        T::step(pre, n, mid, nm, ar),
        kind_of(nm) == kind_of(n),
        depth(nm) <= depth(n),
        !(ar matches Ok((true, _))),
    ensures
        walk(pre, n, mid, nm, stop_of(ar)),
{
}

proof fn lemma_walk_descend<K, V, T: Visitor<K, V>>(
    pre: T,
    n: AstNode,
    mid: T,
    nm: AstNode,
    p: Option<K>,
    post: T,
    n2: AstNode,
    rr: Result<(), V>,
)
    requires
        descended(pre, n, mid, nm, p),
        walk_seq(mid, children(nm), post, children(n2), rr, depth(nm)),
        same_shape(nm, n2),
    ensures
        walk(pre, n, post, n2, finish(p, rr)),
{
    reveal_with_fuel(walk, 2);
    let ar: ApplyResult<K, V> = Ok((true, p));
    assert(T::step(pre, n, mid, nm, ar));
    assert(exists|rr2: Result<(), V>|
        #[trigger] walk_seq(mid, children(nm), post, children(n2), rr2, depth(nm))
            && same_shape(nm, n2) && finish(p, rr) == finish(p, rr2));
}

proof fn lemma_depth_fields(s: Seq<StructField>, i: int)
    requires
        0 <= i < s.len(),
    ensures
        depth_field(s[i]) <= depth_fields(s),
    decreases s.len(),
{
    if i < s.len() - 1 {
        lemma_depth_fields(s.drop_last(), i);
    }
}

proof fn lemma_depth_params(s: Seq<Param>, i: int)
    requires
        0 <= i < s.len(),
    ensures
        depth_param(s[i]) <= depth_params(s),
    decreases s.len(),
{
    if i < s.len() - 1 {
        lemma_depth_params(s.drop_last(), i);
    }
}

proof fn lemma_depth_stmts(s: Seq<Statement>, i: int)
    requires
        0 <= i < s.len(),
    ensures
        depth_stmt(s[i]) <= depth_stmts(s),
    decreases s.len(),
{
    if i < s.len() - 1 {
        lemma_depth_stmts(s.drop_last(), i);
    }
}

fn unit_result<K, V>(r: Result<Option<K>, V>) -> (u: Result<(), V>)
    ensures
        u == unit_of(r),
{
    match r {
        Ok(_) => Ok(()),
        Err(e) => Err(e),
    }
}

fn finish_result<K, V>(p: Option<K>, rr: Result<(), V>) -> (r: Result<Option<K>, V>)
    ensures
        r == finish(p, rr),
{
    match rr {
        Ok(_) => Ok(p),
        Err(e) => Err(e),
    }
}

/// Every child of `n` is shallower than `n`.
pub open spec fn shallower_children(n: AstNode) -> bool {
    forall|j: int| 0 <= j < children(n).len() ==> #[trigger] depth(children(n)[j]) < depth(n)
}

/// Every child of a node is shallower than the node.
pub proof fn lemma_shallower(n: AstNode)
    ensures
        shallower_children(n),
{
    match n {
        AstNode::Struct(s) => {
            assert forall|j: int| 0 <= j < children(n).len() implies #[trigger] depth(children(n)[j]) < depth(n) by {
                lemma_depth_fields(s.fields@, j);
            }
        },
        AstNode::FnDecl(d) => {
            assert forall|j: int| 0 <= j < children(n).len() implies #[trigger] depth(children(n)[j]) < depth(n) by {
                if j < d.inputs@.len() {
                    lemma_depth_params(d.inputs@, j);
                }
            }
        },
        AstNode::Block(b) => {
            assert forall|j: int| 0 <= j < children(n).len() implies #[trigger] depth(children(n)[j]) < depth(n) by {
                lemma_depth_stmts(b.stmts@, j);
            }
        },
        _ => {},
    }
}

/// What holds once `apply` has told a traversal to descend into the children of `nm`.
pub open spec fn descended<K, V, T: Visitor<K, V>>(pre: T, n: AstNode, mid: T, nm: AstNode, p: Option<K>) -> bool {
    &&& T::step(pre, n, mid, nm, Ok((true, p)))
    &&& kind_of(nm) == kind_of(n)
    &&& depth(nm) <= depth(n)
    &&& shallower_children(nm)
}

/// Applies `v` to `node`, a node just taken out of the tree.
fn apply_to<K, V, T: Visitor<K, V>>(v: &mut T, node: AstNode) -> (res: (AstNode, ApplyResult<K, V>))
    ensures
        kind_of(res.0) == kind_of(node),
        depth(res.0) <= depth(node),
        T::step(*old(v), node, *final(v), res.0, res.1),
        shallower_children(res.0),
{
    let mut node = node;
    let ar = v.apply(&mut node);
    proof {
        lemma_shallower(node);
    }
    (node, ar)
}

/// Traverses an identifier with `v`.
pub fn visit_ident<K, V, T: Visitor<K, V>>(x: &mut Ident, v: &mut T) -> (r: Result<Option<K>, V>)
    ensures
        walk(*old(v), AstNode::Ident(*old(x)), *final(v), AstNode::Ident(*final(x)), r),
    decreases depth(AstNode::Ident(*old(x))),
{
    let mut taken = String::new();
    core::mem::swap(x, &mut taken);
    let (node, ar) = apply_to(v, AstNode::Ident(taken));
    match node {
        AstNode::Ident(y) => {
            *x = y;
        },
        _ => {
            assert(false);
        },
    }
    let ghost v1 = *v;
    let ghost nm = AstNode::Ident(*x);
    let ghost ag = ar;
    let p = match ar {
        Err(e) => {
            proof {
                lemma_walk_stop(*old(v), AstNode::Ident(*old(x)), v1, nm, ag);
            }
            return Err(e);
        },
        Ok((false, p)) => {
            proof {
                lemma_walk_stop(*old(v), AstNode::Ident(*old(x)), v1, nm, ag);
            }
            return Ok(p);
        },
        Ok((true, p)) => p,
    };
    let mut acc: Result<(), V> = Ok(());
    let ghost mut cs: Seq<AstNode> = Seq::empty();
    let ghost mut cs2: Seq<AstNode> = Seq::empty();
    proof {
        lemma_seq_empty(v1, depth(nm));
    }
    proof {
        assert(cs =~= children(nm));
        assert(cs2 =~= children(AstNode::Ident(*x)));
        lemma_walk_descend(*old(v), AstNode::Ident(*old(x)), v1, nm, p, *v, AstNode::Ident(*x), acc);
    }
    finish_result(p, acc)
}

/// Traverses a path segment with `v`.
pub fn visit_path_segment<K, V, T: Visitor<K, V>>(x: &mut PathSegment, v: &mut T) -> (r: Result<Option<K>, V>)
    ensures
        walk(*old(v), AstNode::PathSegment(*old(x)), *final(v), AstNode::PathSegment(*final(x)), r),
    decreases depth(AstNode::PathSegment(*old(x))),
{
    let mut taken = PathSegment { ident: String::new() };
    core::mem::swap(x, &mut taken);
    let (node, ar) = apply_to(v, AstNode::PathSegment(taken));
    match node {
        AstNode::PathSegment(y) => {
            *x = y;
        },
        _ => {
            assert(false);
        },
    }
    let ghost v1 = *v;
    let ghost nm = AstNode::PathSegment(*x);
    let ghost ag = ar;
    let p = match ar {
        Err(e) => {
            proof {
                lemma_walk_stop(*old(v), AstNode::PathSegment(*old(x)), v1, nm, ag);
            }
            return Err(e);
        },
        Ok((false, p)) => {
            proof {
                lemma_walk_stop(*old(v), AstNode::PathSegment(*old(x)), v1, nm, ag);
            }
            return Ok(p);
        },
        Ok((true, p)) => p,
    };
    let mut acc: Result<(), V> = Ok(());
    let ghost mut cs: Seq<AstNode> = Seq::empty();
    let ghost mut cs2: Seq<AstNode> = Seq::empty();
    proof {
        lemma_seq_empty(v1, depth(nm));
    }
    proof {
        assert(cs =~= children(nm));
        assert(cs2 =~= children(AstNode::PathSegment(*x)));
        lemma_walk_descend(*old(v), AstNode::PathSegment(*old(x)), v1, nm, p, *v, AstNode::PathSegment(*x), acc);
    }
    finish_result(p, acc)
}

/// Traverses a function header with `v`.
pub fn visit_fn_header<K, V, T: Visitor<K, V>>(x: &mut FnHeader, v: &mut T) -> (r: Result<Option<K>, V>)
    ensures
        walk(*old(v), AstNode::FnHeader(*old(x)), *final(v), AstNode::FnHeader(*final(x)), r),
    decreases depth(AstNode::FnHeader(*old(x))),
{
    let mut taken = FnHeader { rec: false, constness: false };
    core::mem::swap(x, &mut taken);
    let (node, ar) = apply_to(v, AstNode::FnHeader(taken));
    match node {
        AstNode::FnHeader(y) => {
            *x = y;
        },
        _ => {
            assert(false);
        },
    }
    let ghost v1 = *v;
    let ghost nm = AstNode::FnHeader(*x);
    let ghost ag = ar;
    let p = match ar {
        Err(e) => {
            proof {
                lemma_walk_stop(*old(v), AstNode::FnHeader(*old(x)), v1, nm, ag);
            }
            return Err(e);
        },
        Ok((false, p)) => {
            proof {
                lemma_walk_stop(*old(v), AstNode::FnHeader(*old(x)), v1, nm, ag);
            }
            return Ok(p);
        },
        Ok((true, p)) => p,
    };
    let mut acc: Result<(), V> = Ok(());
    let ghost mut cs: Seq<AstNode> = Seq::empty();
    let ghost mut cs2: Seq<AstNode> = Seq::empty();
    proof {
        lemma_seq_empty(v1, depth(nm));
    }
    proof {
        assert(cs =~= children(nm));
        assert(cs2 =~= children(AstNode::FnHeader(*x)));
        lemma_walk_descend(*old(v), AstNode::FnHeader(*old(x)), v1, nm, p, *v, AstNode::FnHeader(*x), acc);
    }
    finish_result(p, acc)
}

/// Traverses a constant with `v`.
pub fn visit_constant<K, V, T: Visitor<K, V>>(x: &mut Constant, v: &mut T) -> (r: Result<Option<K>, V>)
    ensures
        walk(*old(v), AstNode::Constant(*old(x)), *final(v), AstNode::Constant(*final(x)), r),
    decreases depth(AstNode::Constant(*old(x))),
{
    let mut taken = Constant { kind: ConstantKind::Bool(false) };
    core::mem::swap(x, &mut taken);
    let (node, ar) = apply_to(v, AstNode::Constant(taken));
    match node {
        AstNode::Constant(y) => {
            *x = y;
        },
        _ => {
            assert(false);
        },
    }
    let ghost v1 = *v;
    let ghost nm = AstNode::Constant(*x);
    let ghost ag = ar;
    let p = match ar {
        Err(e) => {
            proof {
                lemma_walk_stop(*old(v), AstNode::Constant(*old(x)), v1, nm, ag);
            }
            return Err(e);
        },
        Ok((false, p)) => {
            proof {
                lemma_walk_stop(*old(v), AstNode::Constant(*old(x)), v1, nm, ag);
            }
            return Ok(p);
        },
        Ok((true, p)) => p,
    };
    let mut acc: Result<(), V> = Ok(());
    let ghost mut cs: Seq<AstNode> = Seq::empty();
    let ghost mut cs2: Seq<AstNode> = Seq::empty();
    proof {
        lemma_seq_empty(v1, depth(nm));
    }
    proof {
        assert(cs =~= children(nm));
        assert(cs2 =~= children(AstNode::Constant(*x)));
        lemma_walk_descend(*old(v), AstNode::Constant(*old(x)), v1, nm, p, *v, AstNode::Constant(*x), acc);
    }
    finish_result(p, acc)
}

/// Traverses a path with `v`: the path, then each segment in order.
pub fn visit_path<K, V, T: Visitor<K, V>>(x: &mut Path, v: &mut T) -> (r: Result<Option<K>, V>)
    ensures
        walk(*old(v), AstNode::Path(*old(x)), *final(v), AstNode::Path(*final(x)), r),
    decreases depth(AstNode::Path(*old(x))),
{
    let mut taken = Path { segments: Vec::new() };
    core::mem::swap(x, &mut taken);
    let (node, ar) = apply_to(v, AstNode::Path(taken));
    match node {
        AstNode::Path(y) => {
            *x = y;
        },
        _ => {
            assert(false);
        },
    }
    let ghost v1 = *v;
    let ghost nm = AstNode::Path(*x);
    let ghost ag = ar;
    let p = match ar {
        Err(e) => {
            proof {
                lemma_walk_stop(*old(v), AstNode::Path(*old(x)), v1, nm, ag);
            }
            return Err(e);
        },
        Ok((false, p)) => {
            proof {
                lemma_walk_stop(*old(v), AstNode::Path(*old(x)), v1, nm, ag);
            }
            return Ok(p);
        },
        Ok((true, p)) => p,
    };
    let mut acc: Result<(), V> = Ok(());
    let ghost mut cs: Seq<AstNode> = Seq::empty();
    let ghost mut cs2: Seq<AstNode> = Seq::empty();
    proof {
        lemma_seq_empty(v1, depth(nm));
    }
    let ghost items = x.segments@;
    let mut i: usize = 0;
    while i < x.segments.len()
        invariant
            i <= x.segments.len() == items.len(),
            forall|j: int| i <= j < items.len() ==> x.segments@[j] == items[j],
            descended(*old(v), AstNode::Path(*old(x)), v1, nm, p),
            children(nm) == segment_nodes(items),
            cs == segment_nodes(items).take(i as int),
            cs2 == segment_nodes(x.segments@).take(i as int),
            walk_seq(v1, cs, *v, cs2, acc, depth(nm)),
        decreases x.segments.len() - i,
    {
        let ghost vb = *v;
        let ghost before = x.segments@;
        let ghost c = AstNode::PathSegment(items[i as int]);
        proof {
            assert(children(nm)[i as int] == c);
            assert(depth(children(nm)[i as int]) < depth(nm));
        }
        if acc.is_ok() {
            let r1 = visit_path_segment(&mut x.segments[i], v);
            proof {
                lemma_seq_visit(v1, cs, vb, cs2, c, *v, AstNode::PathSegment(x.segments@[i as int]), r1, depth(nm));
                cs = cs.push(c);
                cs2 = cs2.push(AstNode::PathSegment(x.segments@[i as int]));
            }
            acc = unit_result(r1);
        } else {
            proof {
                lemma_seq_skip(v1, cs, vb, cs2, acc, c, depth(nm));
                cs = cs.push(c);
                cs2 = cs2.push(c);
            }
        }
        proof {
            assert(cs =~= segment_nodes(items).take(i as int + 1));
            assert(cs2 =~= segment_nodes(x.segments@).take(i as int + 1));
        }
        i = i + 1;
    }
    proof {
        assert(cs =~= children(nm));
        assert(cs2 =~= children(AstNode::Path(*x)));
        lemma_walk_descend(*old(v), AstNode::Path(*old(x)), v1, nm, p, *v, AstNode::Path(*x), acc);
    }
    finish_result(p, acc)
}

/// Traverses a struct with `v`: the struct, then each field in order.
pub fn visit_struct<K, V, T: Visitor<K, V>>(x: &mut Struct, v: &mut T) -> (r: Result<Option<K>, V>)
    ensures
        walk(*old(v), AstNode::Struct(*old(x)), *final(v), AstNode::Struct(*final(x)), r),
    decreases depth(AstNode::Struct(*old(x))),
{
    let mut taken = Struct { fields: Vec::new() };
    core::mem::swap(x, &mut taken);
    let (node, ar) = apply_to(v, AstNode::Struct(taken));
    match node {
        AstNode::Struct(y) => {
            *x = y;
        },
        _ => {
            assert(false);
        },
    }
    let ghost v1 = *v;
    let ghost nm = AstNode::Struct(*x);
    let ghost ag = ar;
    let p = match ar {
        Err(e) => {
            proof {
                lemma_walk_stop(*old(v), AstNode::Struct(*old(x)), v1, nm, ag);
            }
            return Err(e);
        },
        Ok((false, p)) => {
            proof {
                lemma_walk_stop(*old(v), AstNode::Struct(*old(x)), v1, nm, ag);
            }
            return Ok(p);
        },
        Ok((true, p)) => p,
    };
    let mut acc: Result<(), V> = Ok(());
    let ghost mut cs: Seq<AstNode> = Seq::empty();
    let ghost mut cs2: Seq<AstNode> = Seq::empty();
    proof {
        lemma_seq_empty(v1, depth(nm));
    }
    let ghost items = x.fields@;
    let mut i: usize = 0;
    while i < x.fields.len()
        invariant
            i <= x.fields.len() == items.len(),
            forall|j: int| i <= j < items.len() ==> x.fields@[j] == items[j],
            descended(*old(v), AstNode::Struct(*old(x)), v1, nm, p),
            children(nm) == field_nodes(items),
            cs == field_nodes(items).take(i as int),
            cs2 == field_nodes(x.fields@).take(i as int),
            walk_seq(v1, cs, *v, cs2, acc, depth(nm)),
        decreases x.fields.len() - i,
    {
        let ghost vb = *v;
        let ghost before = x.fields@;
        let ghost c = AstNode::StructField(items[i as int]);
        proof {
            assert(children(nm)[i as int] == c);
            assert(depth(children(nm)[i as int]) < depth(nm));
        }
        if acc.is_ok() {
            let r1 = visit_struct_field(&mut x.fields[i], v);
            proof {
                lemma_seq_visit(v1, cs, vb, cs2, c, *v, AstNode::StructField(x.fields@[i as int]), r1, depth(nm));
                cs = cs.push(c);
                cs2 = cs2.push(AstNode::StructField(x.fields@[i as int]));
            }
            acc = unit_result(r1);
        } else {
            proof {
                lemma_seq_skip(v1, cs, vb, cs2, acc, c, depth(nm));
                cs = cs.push(c);
                cs2 = cs2.push(c);
            }
        }
        proof {
            assert(cs =~= field_nodes(items).take(i as int + 1));
            assert(cs2 =~= field_nodes(x.fields@).take(i as int + 1));
        }
        i = i + 1;
    }
    proof {
        assert(cs =~= children(nm));
        assert(cs2 =~= children(AstNode::Struct(*x)));
        lemma_walk_descend(*old(v), AstNode::Struct(*old(x)), v1, nm, p, *v, AstNode::Struct(*x), acc);
    }
    finish_result(p, acc)
}

/// Traverses a block with `v`: the block, then each statement in order.
pub fn visit_block<K, V, T: Visitor<K, V>>(x: &mut Block, v: &mut T) -> (r: Result<Option<K>, V>)
    ensures
        walk(*old(v), AstNode::Block(*old(x)), *final(v), AstNode::Block(*final(x)), r),
    decreases depth(AstNode::Block(*old(x))),
{
    let mut taken = Block { stmts: Vec::new() };
    core::mem::swap(x, &mut taken);
    let (node, ar) = apply_to(v, AstNode::Block(taken));
    match node {
        AstNode::Block(y) => {
            *x = y;
        },
        _ => {
            assert(false);
        },
    }
    let ghost v1 = *v;
    let ghost nm = AstNode::Block(*x);
    let ghost ag = ar;
    let p = match ar {
        Err(e) => {
            proof {
                lemma_walk_stop(*old(v), AstNode::Block(*old(x)), v1, nm, ag);
            }
            return Err(e);
        },
        Ok((false, p)) => {
            proof {
                lemma_walk_stop(*old(v), AstNode::Block(*old(x)), v1, nm, ag);
            }
            return Ok(p);
        },
        Ok((true, p)) => p,
    };
    let mut acc: Result<(), V> = Ok(());
    let ghost mut cs: Seq<AstNode> = Seq::empty();
    let ghost mut cs2: Seq<AstNode> = Seq::empty();
    proof {
        lemma_seq_empty(v1, depth(nm));
    }
    let ghost items = x.stmts@;
    let mut i: usize = 0;
    while i < x.stmts.len()
        invariant
            i <= x.stmts.len() == items.len(),
            forall|j: int| i <= j < items.len() ==> x.stmts@[j] == items[j],
            descended(*old(v), AstNode::Block(*old(x)), v1, nm, p),
            children(nm) == stmt_nodes(items),
            cs == stmt_nodes(items).take(i as int),
            cs2 == stmt_nodes(x.stmts@).take(i as int),
            walk_seq(v1, cs, *v, cs2, acc, depth(nm)),
        decreases x.stmts.len() - i,
    {
        let ghost vb = *v;
        let ghost before = x.stmts@;
        let ghost c = AstNode::Statement(items[i as int]);
        proof {
            assert(children(nm)[i as int] == c);
            assert(depth(children(nm)[i as int]) < depth(nm));
        }
        if acc.is_ok() {
            let r1 = visit_statement(&mut x.stmts[i], v);
            proof {
                lemma_seq_visit(v1, cs, vb, cs2, c, *v, AstNode::Statement(x.stmts@[i as int]), r1, depth(nm));
                cs = cs.push(c);
                cs2 = cs2.push(AstNode::Statement(x.stmts@[i as int]));
            }
            acc = unit_result(r1);
        } else {
            proof {
                lemma_seq_skip(v1, cs, vb, cs2, acc, c, depth(nm));
                cs = cs.push(c);
                cs2 = cs2.push(c);
            }
        }
        proof {
            assert(cs =~= stmt_nodes(items).take(i as int + 1));
            assert(cs2 =~= stmt_nodes(x.stmts@).take(i as int + 1));
        }
        i = i + 1;
    }
    proof {
        assert(cs =~= children(nm));
        assert(cs2 =~= children(AstNode::Block(*x)));
        lemma_walk_descend(*old(v), AstNode::Block(*old(x)), v1, nm, p, *v, AstNode::Block(*x), acc);
    }
    finish_result(p, acc)
}

/// Traverses a function declaration with `v`: the declaration, each parameter in order, then the return type.
pub fn visit_fn_decl<K, V, T: Visitor<K, V>>(x: &mut FnDecl, v: &mut T) -> (r: Result<Option<K>, V>)
    ensures
        walk(*old(v), AstNode::FnDecl(*old(x)), *final(v), AstNode::FnDecl(*final(x)), r),
    decreases depth(AstNode::FnDecl(*old(x))),
{
    let mut taken = FnDecl { inputs: Vec::new(), output: Ty { kind: TyKind::Void } };
    core::mem::swap(x, &mut taken);
    let (node, ar) = apply_to(v, AstNode::FnDecl(taken));
    match node {
        AstNode::FnDecl(y) => {
            *x = y;
        },
        _ => {
            assert(false);
        },
    }
    let ghost v1 = *v;
    let ghost nm = AstNode::FnDecl(*x);
    let ghost ag = ar;
    let p = match ar {
        Err(e) => {
            proof {
                lemma_walk_stop(*old(v), AstNode::FnDecl(*old(x)), v1, nm, ag);
            }
            return Err(e);
        },
        Ok((false, p)) => {
            proof {
                lemma_walk_stop(*old(v), AstNode::FnDecl(*old(x)), v1, nm, ag);
            }
            return Ok(p);
        },
        Ok((true, p)) => p,
    };
    let mut acc: Result<(), V> = Ok(());
    let ghost mut cs: Seq<AstNode> = Seq::empty();
    let ghost mut cs2: Seq<AstNode> = Seq::empty();
    proof {
        lemma_seq_empty(v1, depth(nm));
    }
    let ghost out0 = x.output;
    let ghost items = x.inputs@;
    let mut i: usize = 0;
    while i < x.inputs.len()
        invariant
            i <= x.inputs.len() == items.len(),
            forall|j: int| i <= j < items.len() ==> x.inputs@[j] == items[j],
            descended(*old(v), AstNode::FnDecl(*old(x)), v1, nm, p),
            children(nm) == param_nodes(items).push(AstNode::Ty(out0)),
            cs == param_nodes(items).take(i as int),
            cs2 == param_nodes(x.inputs@).take(i as int),
            walk_seq(v1, cs, *v, cs2, acc, depth(nm)),
            x.output == out0,
        decreases x.inputs.len() - i,
    {
        let ghost vb = *v;
        let ghost before = x.inputs@;
        let ghost c = AstNode::Param(items[i as int]);
        proof {
            assert(children(nm)[i as int] == c);
            assert(depth(children(nm)[i as int]) < depth(nm));
        }
        if acc.is_ok() {
            let r1 = visit_param(&mut x.inputs[i], v);
            proof {
                lemma_seq_visit(v1, cs, vb, cs2, c, *v, AstNode::Param(x.inputs@[i as int]), r1, depth(nm));
                cs = cs.push(c);
                cs2 = cs2.push(AstNode::Param(x.inputs@[i as int]));
            }
            acc = unit_result(r1);
        } else {
            proof {
                lemma_seq_skip(v1, cs, vb, cs2, acc, c, depth(nm));
                cs = cs.push(c);
                cs2 = cs2.push(c);
            }
        }
        proof {
            assert(cs =~= param_nodes(items).take(i as int + 1));
            assert(cs2 =~= param_nodes(x.inputs@).take(i as int + 1));
        }
        i = i + 1;
    }
        let ghost vb = *v;
        let ghost c = AstNode::Ty(x.output);
        proof {
            assert(children(nm)[cs.len() as int] == c);
            assert(depth(children(nm)[cs.len() as int]) < depth(nm));
        }
        if acc.is_ok() {
            let r1 = visit_ty(&mut x.output, v);
            proof {
                lemma_seq_visit(v1, cs, vb, cs2, c, *v, AstNode::Ty(x.output), r1, depth(nm));
                cs = cs.push(c);
                cs2 = cs2.push(AstNode::Ty(x.output));
            }
            acc = unit_result(r1);
        } else {
            proof {
                lemma_seq_skip(v1, cs, vb, cs2, acc, c, depth(nm));
                cs = cs.push(c);
                cs2 = cs2.push(c);
            }
        }
    proof {
        assert(cs =~= children(nm));
        assert(cs2 =~= children(AstNode::FnDecl(*x)));
        lemma_walk_descend(*old(v), AstNode::FnDecl(*old(x)), v1, nm, p, *v, AstNode::FnDecl(*x), acc);
    }
    finish_result(p, acc)
}

/// Traverses a struct field with `v`: the field, its identifier, then its type.
pub fn visit_struct_field<K, V, T: Visitor<K, V>>(x: &mut StructField, v: &mut T) -> (r: Result<Option<K>, V>)
    ensures
        walk(*old(v), AstNode::StructField(*old(x)), *final(v), AstNode::StructField(*final(x)), r),
    decreases depth(AstNode::StructField(*old(x))),
{
    let mut taken = StructField { ident: String::new(), ty: Box::new(Ty { kind: TyKind::Void }) };
    core::mem::swap(x, &mut taken);
    let (node, ar) = apply_to(v, AstNode::StructField(taken));
    match node {
        AstNode::StructField(y) => {
            *x = y;
        },
        _ => {
            assert(false);
        },
    }
    let ghost v1 = *v;
    let ghost nm = AstNode::StructField(*x);
    let ghost ag = ar;
    let p = match ar {
        Err(e) => {
            proof {
                lemma_walk_stop(*old(v), AstNode::StructField(*old(x)), v1, nm, ag);
            }
            return Err(e);
        },
        Ok((false, p)) => {
            proof {
                lemma_walk_stop(*old(v), AstNode::StructField(*old(x)), v1, nm, ag);
            }
            return Ok(p);
        },
        Ok((true, p)) => p,
    };
    let mut acc: Result<(), V> = Ok(());
    let ghost mut cs: Seq<AstNode> = Seq::empty();
    let ghost mut cs2: Seq<AstNode> = Seq::empty();
    proof {
        lemma_seq_empty(v1, depth(nm));
    }
        let ghost vb = *v;
        let ghost c = AstNode::Ident(x.ident);
        proof {
            assert(children(nm)[cs.len() as int] == c);
            assert(depth(children(nm)[cs.len() as int]) < depth(nm));
        }
        if acc.is_ok() {
            let r1 = visit_ident(&mut x.ident, v);
            proof {
                lemma_seq_visit(v1, cs, vb, cs2, c, *v, AstNode::Ident(x.ident), r1, depth(nm));
                cs = cs.push(c);
                cs2 = cs2.push(AstNode::Ident(x.ident));
            }
            acc = unit_result(r1);
        } else {
            proof {
                lemma_seq_skip(v1, cs, vb, cs2, acc, c, depth(nm));
                cs = cs.push(c);
                cs2 = cs2.push(c);
            }
        }
        let ghost vb = *v;
        let ghost c = AstNode::Ty(*x.ty);
        proof {
            assert(children(nm)[cs.len() as int] == c);
            assert(depth(children(nm)[cs.len() as int]) < depth(nm));
        }
        if acc.is_ok() {
            let r1 = visit_ty(&mut *x.ty, v);
            proof {
                lemma_seq_visit(v1, cs, vb, cs2, c, *v, AstNode::Ty(*x.ty), r1, depth(nm));
                cs = cs.push(c);
                cs2 = cs2.push(AstNode::Ty(*x.ty));
            }
            acc = unit_result(r1);
        } else {
            proof {
                lemma_seq_skip(v1, cs, vb, cs2, acc, c, depth(nm));
                cs = cs.push(c);
                cs2 = cs2.push(c);
            }
        }
    proof {
        assert(cs =~= children(nm));
        assert(cs2 =~= children(AstNode::StructField(*x)));
        lemma_walk_descend(*old(v), AstNode::StructField(*old(x)), v1, nm, p, *v, AstNode::StructField(*x), acc);
    }
    finish_result(p, acc)
}

/// Traverses a parameter with `v`: the parameter, then its type.
pub fn visit_param<K, V, T: Visitor<K, V>>(x: &mut Param, v: &mut T) -> (r: Result<Option<K>, V>)
    ensures
        walk(*old(v), AstNode::Param(*old(x)), *final(v), AstNode::Param(*final(x)), r),
    decreases depth(AstNode::Param(*old(x))),
{
    let mut taken = Param { ty: Box::new(Ty { kind: TyKind::Void }) };
    core::mem::swap(x, &mut taken);
    let (node, ar) = apply_to(v, AstNode::Param(taken));
    match node {
        AstNode::Param(y) => {
            *x = y;
        },
        _ => {
            assert(false);
        },
    }
    let ghost v1 = *v;
    let ghost nm = AstNode::Param(*x);
    let ghost ag = ar;
    let p = match ar {
        Err(e) => {
            proof {
                lemma_walk_stop(*old(v), AstNode::Param(*old(x)), v1, nm, ag);
            }
            return Err(e);
        },
        Ok((false, p)) => {
            proof {
                lemma_walk_stop(*old(v), AstNode::Param(*old(x)), v1, nm, ag);
            }
            return Ok(p);
        },
        Ok((true, p)) => p,
    };
    let mut acc: Result<(), V> = Ok(());
    let ghost mut cs: Seq<AstNode> = Seq::empty();
    let ghost mut cs2: Seq<AstNode> = Seq::empty();
    proof {
        lemma_seq_empty(v1, depth(nm));
    }
        let ghost vb = *v;
        let ghost c = AstNode::Ty(*x.ty);
        proof {
            assert(children(nm)[cs.len() as int] == c);
            assert(depth(children(nm)[cs.len() as int]) < depth(nm));
        }
        if acc.is_ok() {
            let r1 = visit_ty(&mut *x.ty, v);
            proof {
                lemma_seq_visit(v1, cs, vb, cs2, c, *v, AstNode::Ty(*x.ty), r1, depth(nm));
                cs = cs.push(c);
                cs2 = cs2.push(AstNode::Ty(*x.ty));
            }
            acc = unit_result(r1);
        } else {
            proof {
                lemma_seq_skip(v1, cs, vb, cs2, acc, c, depth(nm));
                cs = cs.push(c);
                cs2 = cs2.push(c);
            }
        }
    proof {
        assert(cs =~= children(nm));
        assert(cs2 =~= children(AstNode::Param(*x)));
        lemma_walk_descend(*old(v), AstNode::Param(*old(x)), v1, nm, p, *v, AstNode::Param(*x), acc);
    }
    finish_result(p, acc)
}

/// Traverses a function signature with `v`: the signature, its header, then its declaration.
pub fn visit_fn_sig<K, V, T: Visitor<K, V>>(x: &mut FnSig, v: &mut T) -> (r: Result<Option<K>, V>)
    ensures
        walk(*old(v), AstNode::FnSig(*old(x)), *final(v), AstNode::FnSig(*final(x)), r),
    decreases depth(AstNode::FnSig(*old(x))),
{
    let mut taken = FnSig { header: FnHeader { rec: false, constness: false }, decl: Box::new(FnDecl { inputs: Vec::new(), output: Ty { kind: TyKind::Void } }) };
    core::mem::swap(x, &mut taken);
    let (node, ar) = apply_to(v, AstNode::FnSig(taken));
    match node {
        AstNode::FnSig(y) => {
            *x = y;
        },
        _ => {
            assert(false);
        },
    }
    let ghost v1 = *v;
    let ghost nm = AstNode::FnSig(*x);
    let ghost ag = ar;
    let p = match ar {
        Err(e) => {
            proof {
                lemma_walk_stop(*old(v), AstNode::FnSig(*old(x)), v1, nm, ag);
            }
            return Err(e);
        },
        Ok((false, p)) => {
            proof {
                lemma_walk_stop(*old(v), AstNode::FnSig(*old(x)), v1, nm, ag);
            }
            return Ok(p);
        },
        Ok((true, p)) => p,
    };
    let mut acc: Result<(), V> = Ok(());
    let ghost mut cs: Seq<AstNode> = Seq::empty();
    let ghost mut cs2: Seq<AstNode> = Seq::empty();
    proof {
        lemma_seq_empty(v1, depth(nm));
    }
        let ghost vb = *v;
        let ghost c = AstNode::FnHeader(x.header);
        proof {
            assert(children(nm)[cs.len() as int] == c);
            assert(depth(children(nm)[cs.len() as int]) < depth(nm));
        }
        if acc.is_ok() {
            let r1 = visit_fn_header(&mut x.header, v);
            proof {
                lemma_seq_visit(v1, cs, vb, cs2, c, *v, AstNode::FnHeader(x.header), r1, depth(nm));
                cs = cs.push(c);
                cs2 = cs2.push(AstNode::FnHeader(x.header));
            }
            acc = unit_result(r1);
        } else {
            proof {
                lemma_seq_skip(v1, cs, vb, cs2, acc, c, depth(nm));
                cs = cs.push(c);
                cs2 = cs2.push(c);
            }
        }
        let ghost vb = *v;
        let ghost c = AstNode::FnDecl(*x.decl);
        proof {
            assert(children(nm)[cs.len() as int] == c);
            assert(depth(children(nm)[cs.len() as int]) < depth(nm));
        }
        if acc.is_ok() {
            let r1 = visit_fn_decl(&mut *x.decl, v);
            proof {
                lemma_seq_visit(v1, cs, vb, cs2, c, *v, AstNode::FnDecl(*x.decl), r1, depth(nm));
                cs = cs.push(c);
                cs2 = cs2.push(AstNode::FnDecl(*x.decl));
            }
            acc = unit_result(r1);
        } else {
            proof {
                lemma_seq_skip(v1, cs, vb, cs2, acc, c, depth(nm));
                cs = cs.push(c);
                cs2 = cs2.push(c);
            }
        }
    proof {
        assert(cs =~= children(nm));
        assert(cs2 =~= children(AstNode::FnSig(*x)));
        lemma_walk_descend(*old(v), AstNode::FnSig(*old(x)), v1, nm, p, *v, AstNode::FnSig(*x), acc);
    }
    finish_result(p, acc)
}

/// Traverses a function with `v`: the function, its signature, then its body if it has one.
pub fn visit_fn<K, V, T: Visitor<K, V>>(x: &mut Fn, v: &mut T) -> (r: Result<Option<K>, V>)
    ensures
        walk(*old(v), AstNode::Fn(*old(x)), *final(v), AstNode::Fn(*final(x)), r),
    decreases depth(AstNode::Fn(*old(x))),
{
    let mut taken = Fn { sig: FnSig { header: FnHeader { rec: false, constness: false }, decl: Box::new(FnDecl { inputs: Vec::new(), output: Ty { kind: TyKind::Void } }) }, body: None };
    core::mem::swap(x, &mut taken);
    let (node, ar) = apply_to(v, AstNode::Fn(taken));
    match node {
        AstNode::Fn(y) => {
            *x = y;
        },
        _ => {
            assert(false);
        },
    }
    let ghost v1 = *v;
    let ghost nm = AstNode::Fn(*x);
    let ghost ag = ar;
    let p = match ar {
        Err(e) => {
            proof {
                lemma_walk_stop(*old(v), AstNode::Fn(*old(x)), v1, nm, ag);
            }
            return Err(e);
        },
        Ok((false, p)) => {
            proof {
                lemma_walk_stop(*old(v), AstNode::Fn(*old(x)), v1, nm, ag);
            }
            return Ok(p);
        },
        Ok((true, p)) => p,
    };
    let mut acc: Result<(), V> = Ok(());
    let ghost mut cs: Seq<AstNode> = Seq::empty();
    let ghost mut cs2: Seq<AstNode> = Seq::empty();
    proof {
        lemma_seq_empty(v1, depth(nm));
    }
        let ghost vb = *v;
        let ghost c = AstNode::FnSig(x.sig);
        proof {
            assert(children(nm)[cs.len() as int] == c);
            assert(depth(children(nm)[cs.len() as int]) < depth(nm));
        }
        if acc.is_ok() {
            let r1 = visit_fn_sig(&mut x.sig, v);
            proof {
                lemma_seq_visit(v1, cs, vb, cs2, c, *v, AstNode::FnSig(x.sig), r1, depth(nm));
                cs = cs.push(c);
                cs2 = cs2.push(AstNode::FnSig(x.sig));
            }
            acc = unit_result(r1);
        } else {
            proof {
                lemma_seq_skip(v1, cs, vb, cs2, acc, c, depth(nm));
                cs = cs.push(c);
                cs2 = cs2.push(c);
            }
        }
    match &mut x.body {
        Some(b) => {
            let ghost vb = *v;
            let ghost c = AstNode::Block(**b);
            proof {
                assert(children(nm)[cs.len() as int] == c);
                assert(depth(children(nm)[cs.len() as int]) < depth(nm));
            }
            if acc.is_ok() {
                let r1 = visit_block(&mut **b, v);
                proof {
                    lemma_seq_visit(v1, cs, vb, cs2, c, *v, AstNode::Block(**b), r1, depth(nm));
                    cs = cs.push(c);
                    cs2 = cs2.push(AstNode::Block(**b));
                }
                acc = unit_result(r1);
            } else {
                proof {
                    lemma_seq_skip(v1, cs, vb, cs2, acc, c, depth(nm));
                    cs = cs.push(c);
                    cs2 = cs2.push(c);
                }
            }
        }
        None => {},
    }
    proof {
        assert(cs =~= children(nm));
        assert(cs2 =~= children(AstNode::Fn(*x)));
        lemma_walk_descend(*old(v), AstNode::Fn(*old(x)), v1, nm, p, *v, AstNode::Fn(*x), acc);
    }
    finish_result(p, acc)
}

/// Traverses a type with `v`: the type, then its path if it names one.
pub fn visit_ty<K, V, T: Visitor<K, V>>(x: &mut Ty, v: &mut T) -> (r: Result<Option<K>, V>)
    ensures
        walk(*old(v), AstNode::Ty(*old(x)), *final(v), AstNode::Ty(*final(x)), r),
    decreases depth(AstNode::Ty(*old(x))),
{
    let mut taken = Ty { kind: TyKind::Void };
    core::mem::swap(x, &mut taken);
    let (node, ar) = apply_to(v, AstNode::Ty(taken));
    match node {
        AstNode::Ty(y) => {
            *x = y;
        },
        _ => {
            assert(false);
        },
    }
    let ghost v1 = *v;
    let ghost nm = AstNode::Ty(*x);
    let ghost ag = ar;
    let p = match ar {
        Err(e) => {
            proof {
                lemma_walk_stop(*old(v), AstNode::Ty(*old(x)), v1, nm, ag);
            }
            return Err(e);
        },
        Ok((false, p)) => {
            proof {
                lemma_walk_stop(*old(v), AstNode::Ty(*old(x)), v1, nm, ag);
            }
            return Ok(p);
        },
        Ok((true, p)) => p,
    };
    let mut acc: Result<(), V> = Ok(());
    let ghost mut cs: Seq<AstNode> = Seq::empty();
    let ghost mut cs2: Seq<AstNode> = Seq::empty();
    proof {
        lemma_seq_empty(v1, depth(nm));
    }
    match &mut x.kind {
        TyKind::Path(q) => {
            let ghost vb = *v;
            let ghost c = AstNode::Path(*q);
            proof {
                assert(children(nm)[cs.len() as int] == c);
                assert(depth(children(nm)[cs.len() as int]) < depth(nm));
            }
            if acc.is_ok() {
                let r1 = visit_path(q, v);
                proof {
                    lemma_seq_visit(v1, cs, vb, cs2, c, *v, AstNode::Path(*q), r1, depth(nm));
                    cs = cs.push(c);
                    cs2 = cs2.push(AstNode::Path(*q));
                }
                acc = unit_result(r1);
            } else {
                proof {
                    lemma_seq_skip(v1, cs, vb, cs2, acc, c, depth(nm));
                    cs = cs.push(c);
                    cs2 = cs2.push(c);
                }
            }
        }
        _ => {},
    }
    proof {
        assert(cs =~= children(nm));
        assert(cs2 =~= children(AstNode::Ty(*x)));
        lemma_walk_descend(*old(v), AstNode::Ty(*old(x)), v1, nm, p, *v, AstNode::Ty(*x), acc);
    }
    finish_result(p, acc)
}

/// Traverses a definition with `v`: the definition, then the struct or function it defines.
pub fn visit_definition<K, V, T: Visitor<K, V>>(x: &mut Definition, v: &mut T) -> (r: Result<Option<K>, V>)
    ensures
        walk(*old(v), AstNode::Definition(*old(x)), *final(v), AstNode::Definition(*final(x)), r),
    decreases depth(AstNode::Definition(*old(x))),
{
    let mut taken = Definition { ident: String::new(), kind: DefinitionKind::Struct(Struct { fields: Vec::new() }) };
    core::mem::swap(x, &mut taken);
    let (node, ar) = apply_to(v, AstNode::Definition(taken));
    match node {
        AstNode::Definition(y) => {
            *x = y;
        },
        _ => {
            assert(false);
        },
    }
    let ghost v1 = *v;
    let ghost nm = AstNode::Definition(*x);
    let ghost ag = ar;
    let p = match ar {
        Err(e) => {
            proof {
                lemma_walk_stop(*old(v), AstNode::Definition(*old(x)), v1, nm, ag);
            }
            return Err(e);
        },
        Ok((false, p)) => {
            proof {
                lemma_walk_stop(*old(v), AstNode::Definition(*old(x)), v1, nm, ag);
            }
            return Ok(p);
        },
        Ok((true, p)) => p,
    };
    let mut acc: Result<(), V> = Ok(());
    let ghost mut cs: Seq<AstNode> = Seq::empty();
    let ghost mut cs2: Seq<AstNode> = Seq::empty();
    proof {
        lemma_seq_empty(v1, depth(nm));
    }
    match &mut x.kind {
        DefinitionKind::Struct(q) => {
            let ghost vb = *v;
            let ghost c = AstNode::Struct(*q);
            proof {
                assert(children(nm)[cs.len() as int] == c);
                assert(depth(children(nm)[cs.len() as int]) < depth(nm));
            }
            if acc.is_ok() {
                let r1 = visit_struct(q, v);
                proof {
                    lemma_seq_visit(v1, cs, vb, cs2, c, *v, AstNode::Struct(*q), r1, depth(nm));
                    cs = cs.push(c);
                    cs2 = cs2.push(AstNode::Struct(*q));
                }
                acc = unit_result(r1);
            } else {
                proof {
                    lemma_seq_skip(v1, cs, vb, cs2, acc, c, depth(nm));
                    cs = cs.push(c);
                    cs2 = cs2.push(c);
                }
            }
        }
        DefinitionKind::Fn(q) => {
            let ghost vb = *v;
            let ghost c = AstNode::Fn(**q);
            proof {
                assert(children(nm)[cs.len() as int] == c);
                assert(depth(children(nm)[cs.len() as int]) < depth(nm));
            }
            if acc.is_ok() {
                let r1 = visit_fn(&mut **q, v);
                proof {
                    lemma_seq_visit(v1, cs, vb, cs2, c, *v, AstNode::Fn(**q), r1, depth(nm));
                    cs = cs.push(c);
                    cs2 = cs2.push(AstNode::Fn(**q));
                }
                acc = unit_result(r1);
            } else {
                proof {
                    lemma_seq_skip(v1, cs, vb, cs2, acc, c, depth(nm));
                    cs = cs.push(c);
                    cs2 = cs2.push(c);
                }
            }
        }
    }
    proof {
        assert(cs =~= children(nm));
        assert(cs2 =~= children(AstNode::Definition(*x)));
        lemma_walk_descend(*old(v), AstNode::Definition(*old(x)), v1, nm, p, *v, AstNode::Definition(*x), acc);
    }
    finish_result(p, acc)
}

/// Traverses an expression with `v`: the expression, then its path, constant or block.
pub fn visit_expr<K, V, T: Visitor<K, V>>(x: &mut Expr, v: &mut T) -> (r: Result<Option<K>, V>)
    ensures
        walk(*old(v), AstNode::Expr(*old(x)), *final(v), AstNode::Expr(*final(x)), r),
    decreases depth(AstNode::Expr(*old(x))),
{
    let mut taken = Expr { kind: ExprKind::Constant(Constant { kind: ConstantKind::Bool(false) }) };
    core::mem::swap(x, &mut taken);
    let (node, ar) = apply_to(v, AstNode::Expr(taken));
    match node {
        AstNode::Expr(y) => {
            *x = y;
        },
        _ => {
            assert(false);
        },
    }
    let ghost v1 = *v;
    let ghost nm = AstNode::Expr(*x);
    let ghost ag = ar;
    let p = match ar {
        Err(e) => {
            proof {
                lemma_walk_stop(*old(v), AstNode::Expr(*old(x)), v1, nm, ag);
            }
            return Err(e);
        },
        Ok((false, p)) => {
            proof {
                lemma_walk_stop(*old(v), AstNode::Expr(*old(x)), v1, nm, ag);
            }
            return Ok(p);
        },
        Ok((true, p)) => p,
    };
    let mut acc: Result<(), V> = Ok(());
    let ghost mut cs: Seq<AstNode> = Seq::empty();
    let ghost mut cs2: Seq<AstNode> = Seq::empty();
    proof {
        lemma_seq_empty(v1, depth(nm));
    }
    match &mut x.kind {
        ExprKind::Variable(q) => {
            let ghost vb = *v;
            let ghost c = AstNode::Path(*q);
            proof {
                assert(children(nm)[cs.len() as int] == c);
                assert(depth(children(nm)[cs.len() as int]) < depth(nm));
            }
            if acc.is_ok() {
                let r1 = visit_path(q, v);
                proof {
                    lemma_seq_visit(v1, cs, vb, cs2, c, *v, AstNode::Path(*q), r1, depth(nm));
                    cs = cs.push(c);
                    cs2 = cs2.push(AstNode::Path(*q));
                }
                acc = unit_result(r1);
            } else {
                proof {
                    lemma_seq_skip(v1, cs, vb, cs2, acc, c, depth(nm));
                    cs = cs.push(c);
                    cs2 = cs2.push(c);
                }
            }
        }
        ExprKind::Constant(q) => {
            let ghost vb = *v;
            let ghost c = AstNode::Constant(*q);
            proof {
                assert(children(nm)[cs.len() as int] == c);
                assert(depth(children(nm)[cs.len() as int]) < depth(nm));
            }
            if acc.is_ok() {
                let r1 = visit_constant(q, v);
                proof {
                    lemma_seq_visit(v1, cs, vb, cs2, c, *v, AstNode::Constant(*q), r1, depth(nm));
                    cs = cs.push(c);
                    cs2 = cs2.push(AstNode::Constant(*q));
                }
                acc = unit_result(r1);
            } else {
                proof {
                    lemma_seq_skip(v1, cs, vb, cs2, acc, c, depth(nm));
                    cs = cs.push(c);
                    cs2 = cs2.push(c);
                }
            }
        }
        ExprKind::Block(q) => {
            let ghost vb = *v;
            let ghost c = AstNode::Block(*q);
            proof {
                assert(children(nm)[cs.len() as int] == c);
                assert(depth(children(nm)[cs.len() as int]) < depth(nm));
            }
            if acc.is_ok() {
                let r1 = visit_block(q, v);
                proof {
                    lemma_seq_visit(v1, cs, vb, cs2, c, *v, AstNode::Block(*q), r1, depth(nm));
                    cs = cs.push(c);
                    cs2 = cs2.push(AstNode::Block(*q));
                }
                acc = unit_result(r1);
            } else {
                proof {
                    lemma_seq_skip(v1, cs, vb, cs2, acc, c, depth(nm));
                    cs = cs.push(c);
                    cs2 = cs2.push(c);
                }
            }
        }
    }
    proof {
        assert(cs =~= children(nm));
        assert(cs2 =~= children(AstNode::Expr(*x)));
        lemma_walk_descend(*old(v), AstNode::Expr(*old(x)), v1, nm, p, *v, AstNode::Expr(*x), acc);
    }
    finish_result(p, acc)
}

/// Traverses a local binding with `v`: the binding, its identifier, its type if given, then its initializer if it has one.
pub fn visit_local_bind<K, V, T: Visitor<K, V>>(x: &mut LocalBind, v: &mut T) -> (r: Result<Option<K>, V>)
    ensures
        walk(*old(v), AstNode::LocalBind(*old(x)), *final(v), AstNode::LocalBind(*final(x)), r),
    decreases depth(AstNode::LocalBind(*old(x))),
{
    let mut taken = LocalBind { ident: String::new(), ty: None, kind: LocalBindKind::Decl };
    core::mem::swap(x, &mut taken);
    let (node, ar) = apply_to(v, AstNode::LocalBind(taken));
    match node {
        AstNode::LocalBind(y) => {
            *x = y;
        },
        _ => {
            assert(false);
        },
    }
    let ghost v1 = *v;
    let ghost nm = AstNode::LocalBind(*x);
    let ghost ag = ar;
    let p = match ar {
        Err(e) => {
            proof {
                lemma_walk_stop(*old(v), AstNode::LocalBind(*old(x)), v1, nm, ag);
            }
            return Err(e);
        },
        Ok((false, p)) => {
            proof {
                lemma_walk_stop(*old(v), AstNode::LocalBind(*old(x)), v1, nm, ag);
            }
            return Ok(p);
        },
        Ok((true, p)) => p,
    };
    let mut acc: Result<(), V> = Ok(());
    let ghost mut cs: Seq<AstNode> = Seq::empty();
    let ghost mut cs2: Seq<AstNode> = Seq::empty();
    proof {
        lemma_seq_empty(v1, depth(nm));
    }
        let ghost vb = *v;
        let ghost c = AstNode::Ident(x.ident);
        proof {
            assert(children(nm)[cs.len() as int] == c);
            assert(depth(children(nm)[cs.len() as int]) < depth(nm));
        }
        if acc.is_ok() {
            let r1 = visit_ident(&mut x.ident, v);
            proof {
                lemma_seq_visit(v1, cs, vb, cs2, c, *v, AstNode::Ident(x.ident), r1, depth(nm));
                cs = cs.push(c);
                cs2 = cs2.push(AstNode::Ident(x.ident));
            }
            acc = unit_result(r1);
        } else {
            proof {
                lemma_seq_skip(v1, cs, vb, cs2, acc, c, depth(nm));
                cs = cs.push(c);
                cs2 = cs2.push(c);
            }
        }
    match &mut x.ty {
        Some(q) => {
            let ghost vb = *v;
            let ghost c = AstNode::Ty(*q);
            proof {
                assert(children(nm)[cs.len() as int] == c);
                assert(depth(children(nm)[cs.len() as int]) < depth(nm));
            }
            if acc.is_ok() {
                let r1 = visit_ty(q, v);
                proof {
                    lemma_seq_visit(v1, cs, vb, cs2, c, *v, AstNode::Ty(*q), r1, depth(nm));
                    cs = cs.push(c);
                    cs2 = cs2.push(AstNode::Ty(*q));
                }
                acc = unit_result(r1);
            } else {
                proof {
                    lemma_seq_skip(v1, cs, vb, cs2, acc, c, depth(nm));
                    cs = cs.push(c);
                    cs2 = cs2.push(c);
                }
            }
        }
        None => {},
    }
    match &mut x.kind {
        LocalBindKind::Init(q) => {
            let ghost vb = *v;
            let ghost c = AstNode::Expr(*q);
            proof {
                assert(children(nm)[cs.len() as int] == c);
                assert(depth(children(nm)[cs.len() as int]) < depth(nm));
            }
            if acc.is_ok() {
                let r1 = visit_expr(q, v);
                proof {
                    lemma_seq_visit(v1, cs, vb, cs2, c, *v, AstNode::Expr(*q), r1, depth(nm));
                    cs = cs.push(c);
                    cs2 = cs2.push(AstNode::Expr(*q));
                }
                acc = unit_result(r1);
            } else {
                proof {
                    lemma_seq_skip(v1, cs, vb, cs2, acc, c, depth(nm));
                    cs = cs.push(c);
                    cs2 = cs2.push(c);
                }
            }
        }
        LocalBindKind::Decl => {},
    }
    proof {
        assert(cs =~= children(nm));
        assert(cs2 =~= children(AstNode::LocalBind(*x)));
        lemma_walk_descend(*old(v), AstNode::LocalBind(*old(x)), v1, nm, p, *v, AstNode::LocalBind(*x), acc);
    }
    finish_result(p, acc)
}

/// Traverses a statement with `v`: the statement, then the binding, definition or expression it holds.
pub fn visit_statement<K, V, T: Visitor<K, V>>(x: &mut Statement, v: &mut T) -> (r: Result<Option<K>, V>)
    ensures
        walk(*old(v), AstNode::Statement(*old(x)), *final(v), AstNode::Statement(*final(x)), r),
    decreases depth(AstNode::Statement(*old(x))),
{
    let mut taken = Statement { kind: StatementKind::Expr(Box::new(Expr { kind: ExprKind::Constant(Constant { kind: ConstantKind::Bool(false) }) })) };
    core::mem::swap(x, &mut taken);
    let (node, ar) = apply_to(v, AstNode::Statement(taken));
    match node {
        AstNode::Statement(y) => {
            *x = y;
        },
        _ => {
            assert(false);
        },
    }
    let ghost v1 = *v;
    let ghost nm = AstNode::Statement(*x);
    let ghost ag = ar;
    let p = match ar {
        Err(e) => {
            proof {
                lemma_walk_stop(*old(v), AstNode::Statement(*old(x)), v1, nm, ag);
            }
            return Err(e);
        },
        Ok((false, p)) => {
            proof {
                lemma_walk_stop(*old(v), AstNode::Statement(*old(x)), v1, nm, ag);
            }
            return Ok(p);
        },
        Ok((true, p)) => p,
    };
    let mut acc: Result<(), V> = Ok(());
    let ghost mut cs: Seq<AstNode> = Seq::empty();
    let ghost mut cs2: Seq<AstNode> = Seq::empty();
    proof {
        lemma_seq_empty(v1, depth(nm));
    }
    match &mut x.kind {
        StatementKind::Let(q) => {
            let ghost vb = *v;
            let ghost c = AstNode::LocalBind(**q);
            proof {
                assert(children(nm)[cs.len() as int] == c);
                assert(depth(children(nm)[cs.len() as int]) < depth(nm));
            }
            if acc.is_ok() {
                let r1 = visit_local_bind(&mut **q, v);
                proof {
                    lemma_seq_visit(v1, cs, vb, cs2, c, *v, AstNode::LocalBind(**q), r1, depth(nm));
                    cs = cs.push(c);
                    cs2 = cs2.push(AstNode::LocalBind(**q));
                }
                acc = unit_result(r1);
            } else {
                proof {
                    lemma_seq_skip(v1, cs, vb, cs2, acc, c, depth(nm));
                    cs = cs.push(c);
                    cs2 = cs2.push(c);
                }
            }
        }
        StatementKind::Def(q) => {
            let ghost vb = *v;
            let ghost c = AstNode::Definition(**q);
            proof {
                assert(children(nm)[cs.len() as int] == c);
                assert(depth(children(nm)[cs.len() as int]) < depth(nm));
            }
            if acc.is_ok() {
                let r1 = visit_definition(&mut **q, v);
                proof {
                    lemma_seq_visit(v1, cs, vb, cs2, c, *v, AstNode::Definition(**q), r1, depth(nm));
                    cs = cs.push(c);
                    cs2 = cs2.push(AstNode::Definition(**q));
                }
                acc = unit_result(r1);
            } else {
                proof {
                    lemma_seq_skip(v1, cs, vb, cs2, acc, c, depth(nm));
                    cs = cs.push(c);
                    cs2 = cs2.push(c);
                }
            }
        }
        StatementKind::Expr(q) => {
            let ghost vb = *v;
            let ghost c = AstNode::Expr(**q);
            proof {
                assert(children(nm)[cs.len() as int] == c);
                assert(depth(children(nm)[cs.len() as int]) < depth(nm));
            }
            if acc.is_ok() {
                let r1 = visit_expr(&mut **q, v);
                proof {
                    lemma_seq_visit(v1, cs, vb, cs2, c, *v, AstNode::Expr(**q), r1, depth(nm));
                    cs = cs.push(c);
                    cs2 = cs2.push(AstNode::Expr(**q));
                }
                acc = unit_result(r1);
            } else {
                proof {
                    lemma_seq_skip(v1, cs, vb, cs2, acc, c, depth(nm));
                    cs = cs.push(c);
                    cs2 = cs2.push(c);
                }
            }
        }
    }
    proof {
        assert(cs =~= children(nm));
        assert(cs2 =~= children(AstNode::Statement(*x)));
        lemma_walk_descend(*old(v), AstNode::Statement(*old(x)), v1, nm, p, *v, AstNode::Statement(*x), acc);
    }
    finish_result(p, acc)
}

/// A node type that a visitor can traverse.
pub trait Visitable<K, V, T: Visitor<K, V>>: Sized {
    /// The value as a node of the tree.
    spec fn as_node(self) -> AstNode;

    /// Traverses `self` with `visitor`: applies it to `self`, then, if told to, to the
    /// children in order, stopping at the first failure.
    fn visit(&mut self, visitor: &mut T) -> (r: Result<Option<K>, V>)
        ensures
            walk(*old(visitor), Self::as_node(*old(self)), *final(visitor), Self::as_node(*final(self)), r),
    ;
}

impl<K, V, T: Visitor<K, V>> Visitable<K, V, T> for Ident {
    open spec fn as_node(self) -> AstNode {
        AstNode::Ident(self)
    }

    fn visit(&mut self, visitor: &mut T) -> (r: Result<Option<K>, V>) {
        visit_ident(self, visitor)
    }
}

impl<K, V, T: Visitor<K, V>> Visitable<K, V, T> for Path {
    open spec fn as_node(self) -> AstNode {
        AstNode::Path(self)
    }

    fn visit(&mut self, visitor: &mut T) -> (r: Result<Option<K>, V>) {
        visit_path(self, visitor)
    }
}

impl<K, V, T: Visitor<K, V>> Visitable<K, V, T> for PathSegment {
    open spec fn as_node(self) -> AstNode {
        AstNode::PathSegment(self)
    }

    fn visit(&mut self, visitor: &mut T) -> (r: Result<Option<K>, V>) {
        visit_path_segment(self, visitor)
    }
}

impl<K, V, T: Visitor<K, V>> Visitable<K, V, T> for Definition {
    open spec fn as_node(self) -> AstNode {
        AstNode::Definition(self)
    }

    fn visit(&mut self, visitor: &mut T) -> (r: Result<Option<K>, V>) {
        visit_definition(self, visitor)
    }
}

impl<K, V, T: Visitor<K, V>> Visitable<K, V, T> for Ty {
    open spec fn as_node(self) -> AstNode {
        AstNode::Ty(self)
    }

    fn visit(&mut self, visitor: &mut T) -> (r: Result<Option<K>, V>) {
        visit_ty(self, visitor)
    }
}

impl<K, V, T: Visitor<K, V>> Visitable<K, V, T> for Struct {
    open spec fn as_node(self) -> AstNode {
        AstNode::Struct(self)
    }

    fn visit(&mut self, visitor: &mut T) -> (r: Result<Option<K>, V>) {
        visit_struct(self, visitor)
    }
}

impl<K, V, T: Visitor<K, V>> Visitable<K, V, T> for StructField {
    open spec fn as_node(self) -> AstNode {
        AstNode::StructField(self)
    }

    fn visit(&mut self, visitor: &mut T) -> (r: Result<Option<K>, V>) {
        visit_struct_field(self, visitor)
    }
}

impl<K, V, T: Visitor<K, V>> Visitable<K, V, T> for Fn {
    open spec fn as_node(self) -> AstNode {
        AstNode::Fn(self)
    }

    fn visit(&mut self, visitor: &mut T) -> (r: Result<Option<K>, V>) {
        visit_fn(self, visitor)
    }
}

impl<K, V, T: Visitor<K, V>> Visitable<K, V, T> for FnSig {
    open spec fn as_node(self) -> AstNode {
        AstNode::FnSig(self)
    }

    fn visit(&mut self, visitor: &mut T) -> (r: Result<Option<K>, V>) {
        visit_fn_sig(self, visitor)
    }
}

impl<K, V, T: Visitor<K, V>> Visitable<K, V, T> for FnHeader {
    open spec fn as_node(self) -> AstNode {
        AstNode::FnHeader(self)
    }

    fn visit(&mut self, visitor: &mut T) -> (r: Result<Option<K>, V>) {
        visit_fn_header(self, visitor)
    }
}

impl<K, V, T: Visitor<K, V>> Visitable<K, V, T> for FnDecl {
    open spec fn as_node(self) -> AstNode {
        AstNode::FnDecl(self)
    }

    fn visit(&mut self, visitor: &mut T) -> (r: Result<Option<K>, V>) {
        visit_fn_decl(self, visitor)
    }
}

impl<K, V, T: Visitor<K, V>> Visitable<K, V, T> for Param {
    open spec fn as_node(self) -> AstNode {
        AstNode::Param(self)
    }

    fn visit(&mut self, visitor: &mut T) -> (r: Result<Option<K>, V>) {
        visit_param(self, visitor)
    }
}

impl<K, V, T: Visitor<K, V>> Visitable<K, V, T> for Expr {
    open spec fn as_node(self) -> AstNode {
        AstNode::Expr(self)
    }

    fn visit(&mut self, visitor: &mut T) -> (r: Result<Option<K>, V>) {
        visit_expr(self, visitor)
    }
}

impl<K, V, T: Visitor<K, V>> Visitable<K, V, T> for Constant {
    open spec fn as_node(self) -> AstNode {
        AstNode::Constant(self)
    }

    fn visit(&mut self, visitor: &mut T) -> (r: Result<Option<K>, V>) {
        visit_constant(self, visitor)
    }
}

impl<K, V, T: Visitor<K, V>> Visitable<K, V, T> for LocalBind {
    open spec fn as_node(self) -> AstNode {
        AstNode::LocalBind(self)
    }

    fn visit(&mut self, visitor: &mut T) -> (r: Result<Option<K>, V>) {
        visit_local_bind(self, visitor)
    }
}

impl<K, V, T: Visitor<K, V>> Visitable<K, V, T> for Statement {
    open spec fn as_node(self) -> AstNode {
        AstNode::Statement(self)
    }

    fn visit(&mut self, visitor: &mut T) -> (r: Result<Option<K>, V>) {
        visit_statement(self, visitor)
    }
}

impl<K, V, T: Visitor<K, V>> Visitable<K, V, T> for Block {
    open spec fn as_node(self) -> AstNode {
        AstNode::Block(self)
    }

    fn visit(&mut self, visitor: &mut T) -> (r: Result<Option<K>, V>) {
        visit_block(self, visitor)
    }
}

} // verus!
