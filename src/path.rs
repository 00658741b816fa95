use vstd::prelude::*;
use vstd::string::StringExecFns;

verus! {

/// One segment of a path, e.g. `foo` in `root::foo::Bar`.
#[derive(Debug, PartialEq)]
pub struct PathSegment {
    pub ident: String,
}

/// A symbolic address: segments separated by `::`, e.g. `root::foo::Bar`.
#[derive(Debug, PartialEq)]
pub struct Path {
    /// The segments, root first.
    pub segments: Vec<PathSegment>,
}

/// A path that denotes a known module location; the same model as `Path`.
pub type ModulePath = Path;

/// The identifiers of a sequence of segments, in order.
pub open spec fn idents_of(segs: Seq<PathSegment>) -> Seq<Seq<char>> {
    segs.map_values(|s: PathSegment| s.ident@)
}

/// The text `::`.
pub open spec fn sep() -> Seq<char> {
    seq![':', ':']
}

/// Segments joined with `::`.
pub open spec fn joined(s: Seq<Seq<char>>) -> Seq<char>
    decreases s.len(),
{
    if s.len() == 0 {
        Seq::empty()
    } else if s.len() == 1 {
        s[0]
    } else {
        joined(s.drop_last()) + sep() + s.last()
    }
}

impl View for Path {
    type V = Seq<Seq<char>>;

    /// The identifiers of the segments, root first.
    open spec fn view(&self) -> Seq<Seq<char>> {
        idents_of(self.segments@)
    }
}

impl Path {
    /// An empty path.
    pub fn new() -> (r: Path)
        ensures
            r@ == Seq::<Seq<char>>::empty(),
    {
        let r = Path { segments: Vec::new() };
        assert(r@ =~= Seq::<Seq<char>>::empty());
        r
    }

    /// Appends a segment.
    pub fn push(&mut self, ident: String)
        ensures
            final(self)@ == old(self)@.push(ident@),
    {
        let ghost ident_view = ident@;
        self.segments.push(PathSegment { ident });
        assert(self@ =~= old(self)@.push(ident_view));
    }

    /// The first segment; the path must not be empty.
    pub fn get_root(&self) -> (r: &str)
        requires
            self@.len() > 0,
        ensures
            r@ == self@[0],
    {
        self.segments[0].ident.as_str()
    }

    /// The last segment; the path must not be empty.
    pub fn get_last(&self) -> (r: &str)
        requires
            self@.len() > 0,
        ensures
            r@ == self@.last(),
    {
        let n = self.segments.len();
        self.segments[n - 1].ident.as_str()
    }

    /// Removes the first segment; the path must not be empty.
    pub fn pop_root(&mut self)
        requires
            old(self)@.len() > 0,
        ensures
            final(self)@ == old(self)@.drop_first(),
    {
        self.segments.remove(0);
        assert(self@ =~= old(self)@.drop_first());
    }

    /// Appends all segments of `other`, in order.
    pub fn extend(&mut self, other: Path)
        ensures
            final(self)@ == old(self)@ + other@,
    {
        let ghost tail = other@;
        let mut other = other;
        self.segments.append(&mut other.segments);
        assert(self@ =~= old(self)@ + tail);
    }

    /// The display form: the segments joined with `::`.
    pub fn to_string(&self) -> (r: String)
        ensures
            r@ == joined(self@),
    {
        let mut r = String::new();
        let mut i: usize = 0;
        while i < self.segments.len()
            invariant
                i <= self.segments.len(),
                r@ == joined(self@.take(i as int)),
            decreases self.segments.len() - i,
        {
            proof {
                reveal_strlit("::");
            }
            if i > 0 {
                r.append("::");
            }
            r.append(self.segments[i].ident.as_str());
            proof {
                let s = self@.take(i as int + 1);
                assert(s.drop_last() =~= self@.take(i as int));
                if i == 0 {
                    assert(self@.take(0) =~= Seq::<Seq<char>>::empty());
                }
            }
            i = i + 1;
        }
        assert(self@.take(self.segments.len() as int) =~= self@);
        r
    }
}

/// Pushing a segment makes it the last segment.
pub proof fn lemma_push_then_last(p: Seq<Seq<char>>, s: Seq<char>)
    ensures
        p.push(s).last() == s,
{
}

/// Removing the root of a path of two or more segments makes the former second segment
/// the root.
pub proof fn lemma_pop_root_then_root(p: Seq<Seq<char>>)
    requires
        p.len() >= 2,
    ensures
        p.drop_first()[0] == p[1],
{
}

/// Extending by a non-empty path makes that path's last segment the last one.
pub proof fn lemma_extend_then_last(p: Seq<Seq<char>>, q: Seq<Seq<char>>)
    requires
        q.len() > 0,
    ensures
        (p + q).last() == q.last(),
{
}

/// The display form of an extended path is the two display forms joined with `::`
/// (when both are non-empty).
pub proof fn lemma_extend_display(p: Seq<Seq<char>>, q: Seq<Seq<char>>)
    requires
        p.len() > 0,
        q.len() > 0,
    ensures
        joined(p + q) == joined(p) + sep() + joined(q),
    decreases q.len(),
{
    if q.len() == 1 {
        assert((p + q).drop_last() =~= p);
    } else {
        lemma_extend_display(p, q.drop_last());
        assert((p + q).drop_last() =~= p + q.drop_last());
    }
}

} // verus!
