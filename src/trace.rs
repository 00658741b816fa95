use crate::ast::{Fn, LocalBind};
use crate::visitor::{
    children, chosen, depth, finish, kind_of, same_shape, unit_of, walk, walk_seq, ApplyResult,
    AstNode, NodeKind, Visitor,
};
use vstd::prelude::*;

verus! {

/// A visitor that records the kind of every node it is applied to. It does not descend below
/// nodes of kind `cut`, and fails at the first node of kind `fail`, with that kind. Its
/// payload at each node is the node's kind.
pub struct Tracer {
    pub kinds: Vec<NodeKind>,
    pub cut: Option<NodeKind>,
    pub fail: Option<NodeKind>,
}

/// The kind of a node.
pub fn node_kind(n: &AstNode) -> (k: NodeKind)
    ensures
        k == kind_of(*n),
{
    match n {
        AstNode::Ident(_) => NodeKind::Ident,
        AstNode::Path(_) => NodeKind::Path,
        AstNode::PathSegment(_) => NodeKind::PathSegment,
        AstNode::Definition(_) => NodeKind::Definition,
        AstNode::Ty(_) => NodeKind::Ty,
        AstNode::Struct(_) => NodeKind::Struct,
        AstNode::StructField(_) => NodeKind::StructField,
        AstNode::Fn(_) => NodeKind::Fn,
        AstNode::FnSig(_) => NodeKind::FnSig,
        AstNode::FnHeader(_) => NodeKind::FnHeader,
        AstNode::FnDecl(_) => NodeKind::FnDecl,
        AstNode::Param(_) => NodeKind::Param,
        AstNode::Expr(_) => NodeKind::Expr,
        AstNode::Constant(_) => NodeKind::Constant,
        AstNode::LocalBind(_) => NodeKind::LocalBind,
        AstNode::Statement(_) => NodeKind::Statement,
        AstNode::Block(_) => NodeKind::Block,
    }
}

/// What a tracer answers at a node of kind `k`.
pub open spec fn tracer_answer(cut: Option<NodeKind>, fail: Option<NodeKind>, k: NodeKind) -> ApplyResult<NodeKind, NodeKind> {
    if fail == Some(k) {
        Err(k)
    } else {
        Ok((cut != Some(k), Some(k)))
    }
}

impl Tracer {
    /// A tracer with an empty record.
    pub fn new(cut: Option<NodeKind>, fail: Option<NodeKind>) -> (t: Tracer)
        ensures
            t.kinds@ == Seq::<NodeKind>::empty(),
            t.cut == cut,
            t.fail == fail,
    {
        Tracer { kinds: Vec::new(), cut, fail }
    }
}

fn is_kind(o: Option<NodeKind>, k: NodeKind) -> (b: bool)
    ensures
        b == (o == Some(k)),
{
    match o {
        Some(x) => x == k,
        None => false,
    }
}

impl Visitor<NodeKind, NodeKind> for Tracer {
    open spec fn step(pre: Self, node: AstNode, post: Self, node2: AstNode, r: ApplyResult<NodeKind, NodeKind>) -> bool {
        &&& post.kinds@ == pre.kinds@.push(kind_of(node))
        &&& post.cut == pre.cut
        &&& post.fail == pre.fail
        &&& node2 == node
        &&& r == tracer_answer(pre.cut, pre.fail, kind_of(node))
    }

    fn apply(&mut self, node: &mut AstNode) -> (r: ApplyResult<NodeKind, NodeKind>) {
        let k = node_kind(node);
        self.kinds.push(k);
        if is_kind(self.fail, k) {
            Err(k)
        } else {
            Ok((!is_kind(self.cut, k), Some(k)))
        }
    }
}

/// The kinds of the nodes below and including `n`, depth first with each node before its
/// children, not descending below nodes of kind `cut`.
pub open spec fn trace(n: AstNode, cut: Option<NodeKind>) -> Seq<NodeKind>
    decreases depth(n) + 1, 0nat,
{
    seq![kind_of(n)] + if cut == Some(kind_of(n)) {
        Seq::<NodeKind>::empty()
    } else {
        trace_seq(children(n), cut, depth(n))
    }
}

/// The traces of a sequence of siblings, one after the other.
pub open spec fn trace_seq(s: Seq<AstNode>, cut: Option<NodeKind>, bound: nat) -> Seq<NodeKind>
    decreases bound, s.len(),
{
    if s.len() == 0 {
        Seq::empty()
    } else if depth(s.last()) < bound {
        trace_seq(s.drop_last(), cut, bound) + trace(s.last(), cut)
    } else {
        Seq::empty()
    }
}

/// Whether `t` holds the kind `fail` names.
pub open spec fn fails(t: Seq<NodeKind>, fail: Option<NodeKind>) -> bool {
    match fail {
        Some(k) => t.contains(k),
        None => false,
    }
}

/// `t` up to and including the first occurrence of the kind `fail` names; all of `t` if
/// there is none.
pub open spec fn upto(t: Seq<NodeKind>, fail: Option<NodeKind>) -> Seq<NodeKind>
    decreases t.len(),
{
    match fail {
        None => t,
        Some(k) => if t.len() == 0 {
            t
        } else if t[0] == k {
            seq![k]
        } else {
            seq![t[0]] + upto(t.drop_first(), fail)
        },
    }
}

proof fn lemma_upto_concat(a: Seq<NodeKind>, b: Seq<NodeKind>, fail: Option<NodeKind>)
    ensures
        upto(a + b, fail) == if fails(a, fail) { upto(a, fail) } else { a + upto(b, fail) },
        fails(a + b, fail) == (fails(a, fail) || fails(b, fail)),
    decreases a.len(),
{
    match fail {
        None => {},
        Some(k) => {
            if a.len() == 0 {
                assert(a + b =~= b);
            } else {
                assert((a + b)[0] == a[0]);
                if a[0] == k {
                    assert(a.contains(k)) by { assert(a[0] == k); };
                    assert((a + b).contains(k)) by { assert((a + b)[0] == k); };
                } else {
                    assert((a + b).drop_first() =~= a.drop_first() + b);
                    lemma_upto_concat(a.drop_first(), b, fail);
                    assert(a.contains(k) == a.drop_first().contains(k)) by {
                        if a.contains(k) {
                            let i = choose|i: int| 0 <= i < a.len() && a[i] == k;
                            assert(a.drop_first()[i - 1] == k);
                        }
                        if a.drop_first().contains(k) {
                            let i = choose|i: int| 0 <= i < a.len() - 1 && a.drop_first()[i] == k;
                            assert(a[i + 1] == k);
                        }
                    }
                    assert((a + b).contains(k) == (a + b).drop_first().contains(k)) by {
                        let ab = a + b;
                        if ab.contains(k) {
                            let i = choose|i: int| 0 <= i < ab.len() && ab[i] == k;
                            assert(ab.drop_first()[i - 1] == k);
                        }
                        if ab.drop_first().contains(k) {
                            let i = choose|i: int| 0 <= i < ab.len() - 1 && ab.drop_first()[i] == k;
                            assert(ab[i + 1] == k);
                        }
                    }
                    if !fails(a, fail) {
                        assert(seq![a[0]] + (a.drop_first() + upto(b, fail)) =~= a + upto(b, fail));
                    }
                }
            }
        },
    }
}

proof fn lemma_upto_whole(t: Seq<NodeKind>, fail: Option<NodeKind>)
    requires
        !fails(t, fail),
    ensures
        upto(t, fail) == t,
{
    lemma_upto_concat(t, Seq::empty(), fail);
    assert(t + Seq::<NodeKind>::empty() =~= t);
}

/// The result of a tracer's walk over nodes whose trace is `t`.
pub open spec fn trace_result(t: Seq<NodeKind>, fail: Option<NodeKind>, k: NodeKind) -> Result<Option<NodeKind>, NodeKind> {
    if fails(t, fail) {
        Err(fail->0)
    } else {
        Ok(Some(k))
    }
}

/// A tracer records exactly the nodes a traversal reaches: the depth-first trace of the tree,
/// each node before its children and children in order, cut below nodes of kind `cut`, and
/// ending at the first node of kind `fail`. The traversal returns that failure if there is
/// one, and else the kind of the node it started at.
pub proof fn lemma_tracer_walk(pre: Tracer, n: AstNode, post: Tracer, n2: AstNode, r: Result<Option<NodeKind>, NodeKind>)
    requires
        walk(pre, n, post, n2, r),
    ensures
        post.cut == pre.cut,
        post.fail == pre.fail,
        post.kinds@ == pre.kinds@ + upto(trace(n, pre.cut), pre.fail),
        r == trace_result(trace(n, pre.cut), pre.fail, kind_of(n)),
    decreases depth(n) + 1, 0nat,
{
    let (mid, nm, ar) = choose|mid: Tracer, nm: AstNode, ar: ApplyResult<NodeKind, NodeKind>|
        #[trigger] Tracer::step(pre, n, mid, nm, ar) && kind_of(nm) == kind_of(n) && depth(nm) <= depth(n)
            && match ar {
            Err(e) => post == mid && n2 == nm && r == Err::<Option<NodeKind>, NodeKind>(e),
            Ok((false, p)) => post == mid && n2 == nm && r == Ok::<Option<NodeKind>, NodeKind>(p),
            Ok((true, p)) => exists|rr: Result<(), NodeKind>|
                walk_seq(mid, children(nm), post, children(n2), rr, depth(nm))
                    && same_shape(nm, n2) && r == #[trigger] finish(p, rr),
        };
    let k = kind_of(n);
    let t = trace(n, pre.cut);
    let head = seq![k];
    assert(head.contains(k)) by { assert(head[0] == k); };
    if pre.fail == Some(k) {
        assert(upto(t, pre.fail) == head);
        assert(t.contains(k)) by { assert(t[0] == k); };
    } else {
        assert(!fails(head, pre.fail)) by {
            if let Some(f) = pre.fail {
                if head.contains(f) {
                    let i = choose|i: int| 0 <= i < head.len() && head[i] == f;
                }
            }
        }
        if pre.cut == Some(k) {
            assert(t =~= head);
            lemma_upto_whole(head, pre.fail);
        } else {
            let rr = choose|rr: Result<(), NodeKind>|
                walk_seq(mid, children(nm), post, children(n2), rr, depth(nm))
                    && same_shape(nm, n2) && r == #[trigger] finish(Some(k), rr);
            lemma_tracer_seq(mid, children(n), post, children(n2), rr, depth(n));
            let ts = trace_seq(children(n), pre.cut, depth(n));
            assert(t == head + ts);
            lemma_upto_concat(head, ts, pre.fail);
            lemma_upto_whole(head, pre.fail);
            assert(pre.kinds@ + upto(t, pre.fail) =~= pre.kinds@.push(k) + upto(ts, pre.fail));
        }
    }
}

proof fn lemma_tracer_seq(pre: Tracer, s: Seq<AstNode>, post: Tracer, s2: Seq<AstNode>, rr: Result<(), NodeKind>, bound: nat)
    requires
        walk_seq(pre, s, post, s2, rr, bound),
    ensures
        post.cut == pre.cut,
        post.fail == pre.fail,
        post.kinds@ == pre.kinds@ + upto(trace_seq(s, pre.cut, bound), pre.fail),
        rr == (if fails(trace_seq(s, pre.cut, bound), pre.fail) {
            Err::<(), NodeKind>(pre.fail->0)
        } else {
            Ok::<(), NodeKind>(())
        }),
    decreases bound, s.len(),
{
    if s.len() == 0 {
        assert(pre.kinds@ + Seq::<NodeKind>::empty() =~= pre.kinds@);
        assert(!fails(Seq::<NodeKind>::empty(), pre.fail));
    } else {
        let (mid, r0) = choose|mid: Tracer, r0: Result<(), NodeKind>|
            #[trigger] chosen(mid, r0) && walk_seq(pre, s.drop_last(), mid, s2.drop_last(), r0, bound)
                && match r0 {
                Err(e) => post == mid && s2.last() == s.last() && rr == r0,
                Ok(_) => exists|r1: Result<Option<NodeKind>, NodeKind>|
                    walk(mid, s.last(), post, s2.last(), r1) && rr == #[trigger] unit_of(r1),
            };
        lemma_tracer_seq(pre, s.drop_last(), mid, s2.drop_last(), r0, bound);
        let a = trace_seq(s.drop_last(), pre.cut, bound);
        let b = trace(s.last(), pre.cut);
        assert(trace_seq(s, pre.cut, bound) == a + b);
        lemma_upto_concat(a, b, pre.fail);
        if r0 is Ok {
            let r1 = choose|r1: Result<Option<NodeKind>, NodeKind>|
                walk(mid, s.last(), post, s2.last(), r1) && rr == #[trigger] unit_of(r1);
            lemma_tracer_walk(mid, s.last(), post, s2.last(), r1);
            lemma_upto_whole(a, pre.fail);
            assert(pre.kinds@ + (a + upto(b, pre.fail)) =~= pre.kinds@ + a + upto(b, pre.fail));
        }
    }
}

/// The kinds that can occur in a function signature or a binding's declared type.
pub open spec fn signature_kind(k: NodeKind) -> bool {
    ||| k == NodeKind::FnSig
    ||| k == NodeKind::FnHeader
    ||| k == NodeKind::FnDecl
    ||| k == NodeKind::Param
    ||| k == NodeKind::Ty
    ||| k == NodeKind::Path
    ||| k == NodeKind::PathSegment
    ||| k == NodeKind::Ident
}

proof fn lemma_signature_trace(n: AstNode, cut: Option<NodeKind>)
    requires
        signature_kind(kind_of(n)),
    ensures
        forall|i: int| 0 <= i < trace(n, cut).len() ==> signature_kind(#[trigger] trace(n, cut)[i]),
    decreases depth(n) + 1, 0nat,
{
    let cs = children(n);
    assert forall|i: int| 0 <= i < cs.len() implies signature_kind(kind_of(#[trigger] cs[i])) by {
        match n {
            AstNode::FnDecl(d) => {
                if i < d.inputs@.len() {
                    assert(cs[i] == AstNode::Param(d.inputs@[i]));
                }
            },
            _ => {},
        }
    }
    let rest = if cut == Some(kind_of(n)) {
        Seq::<NodeKind>::empty()
    } else {
        trace_seq(cs, cut, depth(n))
    };
    if cut != Some(kind_of(n)) {
        lemma_signature_trace_seq(cs, cut, depth(n));
    }
    let t = trace(n, cut);
    assert(t == seq![kind_of(n)] + rest);
    assert forall|i: int| 0 <= i < t.len() implies signature_kind(#[trigger] t[i]) by {
        if i > 0 {
            assert(t[i] == rest[i - 1]);
        }
    }
}

proof fn lemma_signature_trace_seq(s: Seq<AstNode>, cut: Option<NodeKind>, bound: nat)
    requires
        forall|i: int| 0 <= i < s.len() ==> signature_kind(kind_of(#[trigger] s[i])),
    ensures
        forall|i: int| 0 <= i < trace_seq(s, cut, bound).len() ==> signature_kind(#[trigger] trace_seq(s, cut, bound)[i]),
    decreases bound, s.len(),
{
    if s.len() > 0 && depth(s.last()) < bound {
        lemma_signature_trace_seq(s.drop_last(), cut, bound);
        lemma_signature_trace(s.last(), cut);
        let a = trace_seq(s.drop_last(), cut, bound);
        let b = trace(s.last(), cut);
        let t = trace_seq(s, cut, bound);
        assert(t == a + b);
        assert forall|i: int| 0 <= i < t.len() implies signature_kind(#[trigger] t[i]) by {
            if i >= a.len() {
                assert(t[i] == b[i - a.len()]);
            } else {
                assert(t[i] == a[i]);
            }
        }
    }
}

/// Traversing a function without a body reaches no block.
pub proof fn lemma_bodiless_fn_reaches_no_block(f: Fn, cut: Option<NodeKind>)
    requires
        f.body is None,
    ensures
        !trace(AstNode::Fn(f), cut).contains(NodeKind::Block),
{
    let n = AstNode::Fn(f);
    let c = AstNode::FnSig(f.sig);
    lemma_signature_trace(c, cut);
    assert(children(n) == seq![c]);
    assert(seq![c].drop_last() =~= Seq::<AstNode>::empty());
    crate::visitor::lemma_shallower(n);
    assert(depth(children(n)[0]) < depth(n));
    let t = trace(n, cut);
    let rest = if cut == Some(NodeKind::Fn) {
        Seq::<NodeKind>::empty()
    } else {
        trace(c, cut)
    };
    assert(trace_seq(seq![c], cut, depth(n)) == trace_seq(Seq::<AstNode>::empty(), cut, depth(n)) + trace(c, cut));
    assert(trace_seq(seq![c], cut, depth(n)) =~= trace(c, cut));
    assert(t == seq![NodeKind::Fn] + rest);
    if t.contains(NodeKind::Block) {
        let i = choose|i: int| 0 <= i < t.len() && t[i] == NodeKind::Block;
        if i > 0 {
            assert(t[i] == rest[i - 1]);
        }
    }
}

/// Traversing a `let` without an initializer reaches no expression.
pub proof fn lemma_uninitialized_let_reaches_no_expr(l: LocalBind, cut: Option<NodeKind>)
    requires
        l.kind is Decl,
    ensures
        !trace(AstNode::LocalBind(l), cut).contains(NodeKind::Expr),
{
    let n = AstNode::LocalBind(l);
    let cs = children(n);
    assert forall|i: int| 0 <= i < cs.len() implies signature_kind(kind_of(#[trigger] cs[i])) by {
    }
    crate::visitor::lemma_shallower(n);
    lemma_signature_trace_seq(cs, cut, depth(n));
    let t = trace(n, cut);
    let rest = if cut == Some(NodeKind::LocalBind) {
        Seq::<NodeKind>::empty()
    } else {
        trace_seq(cs, cut, depth(n))
    };
    assert(t == seq![NodeKind::LocalBind] + rest);
    if t.contains(NodeKind::Expr) {
        let i = choose|i: int| 0 <= i < t.len() && t[i] == NodeKind::Expr;
        if i > 0 {
            assert(t[i] == rest[i - 1]);
        }
    }
}

/// The part of a trace up to a failure is a prefix of it.
pub proof fn lemma_upto_prefix(t: Seq<NodeKind>, fail: Option<NodeKind>)
    ensures
        upto(t, fail).len() <= t.len(),
        forall|i: int| 0 <= i < upto(t, fail).len() ==> #[trigger] upto(t, fail)[i] == t[i],
    decreases t.len(),
{
    if fail is Some && t.len() > 0 && t[0] != fail->0 {
        lemma_upto_prefix(t.drop_first(), fail);
        let u = upto(t, fail);
        assert forall|i: int| 0 <= i < u.len() implies #[trigger] u[i] == t[i] by {
            if i > 0 {
                assert(u[i] == upto(t.drop_first(), fail)[i - 1]);
            }
        }
    }
}

/// A tracer run over a function without a body records no block.
pub proof fn lemma_tracer_skips_missing_body(pre: Tracer, f: Fn, post: Tracer, n2: AstNode, r: Result<Option<NodeKind>, NodeKind>)
    requires
        walk(pre, AstNode::Fn(f), post, n2, r),
        f.body is None,
    ensures
        forall|i: int| pre.kinds@.len() <= i < post.kinds@.len() ==> post.kinds@[i] != NodeKind::Block,
{
    let t = trace(AstNode::Fn(f), pre.cut);
    lemma_tracer_walk(pre, AstNode::Fn(f), post, n2, r);
    lemma_bodiless_fn_reaches_no_block(f, pre.cut);
    lemma_upto_prefix(t, pre.fail);
    assert forall|i: int| pre.kinds@.len() <= i < post.kinds@.len() implies post.kinds@[i] != NodeKind::Block by {
        let j = i - pre.kinds@.len();
        assert(post.kinds@[i] == upto(t, pre.fail)[j]);
        assert(t[j] == upto(t, pre.fail)[j]);
    }
}

/// A tracer run over a `let` without an initializer records no expression.
pub proof fn lemma_tracer_skips_missing_initializer(pre: Tracer, l: LocalBind, post: Tracer, n2: AstNode, r: Result<Option<NodeKind>, NodeKind>)
    requires
        walk(pre, AstNode::LocalBind(l), post, n2, r),
        l.kind is Decl,
    ensures
        forall|i: int| pre.kinds@.len() <= i < post.kinds@.len() ==> post.kinds@[i] != NodeKind::Expr,
{
    let t = trace(AstNode::LocalBind(l), pre.cut);
    lemma_tracer_walk(pre, AstNode::LocalBind(l), post, n2, r);
    lemma_uninitialized_let_reaches_no_expr(l, pre.cut);
    lemma_upto_prefix(t, pre.fail);
    assert forall|i: int| pre.kinds@.len() <= i < post.kinds@.len() implies post.kinds@[i] != NodeKind::Expr by {
        let j = i - pre.kinds@.len();
        assert(post.kinds@[i] == upto(t, pre.fail)[j]);
        assert(t[j] == upto(t, pre.fail)[j]);
    }
}

} // verus!
