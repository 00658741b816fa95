use crate::path::{joined, sep, ModulePath};
use vstd::prelude::*;
use vstd::string::StringExecFns;

verus! {

/// The resolved identity of a definition: an identifier, its owning module path, and an id
/// that the binder hands out uniquely. Only the id decides identity.
pub struct Name {
    ident: String,
    path: ModulePath,
    id: usize,
}

/// The decimal digit for `d`.
pub open spec fn digit_char(d: nat) -> char {
    if d == 0 { '0' }
    else if d == 1 { '1' }
    else if d == 2 { '2' }
    else if d == 3 { '3' }
    else if d == 4 { '4' }
    else if d == 5 { '5' }
    else if d == 6 { '6' }
    else if d == 7 { '7' }
    else if d == 8 { '8' }
    else { '9' }
}

/// The decimal form of `n`, without leading zeros.
pub open spec fn decimal(n: nat) -> Seq<char>
    decreases n,
{
    if n < 10 {
        seq![digit_char(n)]
    } else {
        decimal(n / 10).push(digit_char(n % 10))
    }
}

/// The display form of a name: `{path}::{ident}_{id}`.
pub open spec fn name_text(path: Seq<Seq<char>>, ident: Seq<char>, id: nat) -> Seq<char> {
    joined(path) + sep() + ident + seq!['_'] + decimal(id)
}

fn digit_str(d: usize) -> (r: &'static str)
    requires
        d < 10,
    ensures
        r@ == seq![digit_char(d as nat)],
{
    proof {
        reveal_strlit("0");
        reveal_strlit("1");
        reveal_strlit("2");
        reveal_strlit("3");
        reveal_strlit("4");
        reveal_strlit("5");
        reveal_strlit("6");
        reveal_strlit("7");
        reveal_strlit("8");
        reveal_strlit("9");
    }
    if d == 0 { "0" }
    else if d == 1 { "1" }
    else if d == 2 { "2" }
    else if d == 3 { "3" }
    else if d == 4 { "4" }
    else if d == 5 { "5" }
    else if d == 6 { "6" }
    else if d == 7 { "7" }
    else if d == 8 { "8" }
    else { "9" }
}

/// Appends the decimal form of `n` to `out`.
fn push_decimal(out: &mut String, n: usize)
    ensures
        final(out)@ == old(out)@ + decimal(n as nat),
    decreases n,
{
    if n < 10 {
        out.append(digit_str(n));
    } else {
        push_decimal(out, n / 10);
        out.append(digit_str(n % 10));
        assert(final(out)@ =~= old(out)@ + decimal(n as nat));
    }
}

impl Name {
    /// Builds a name; the caller is responsible for the id being unique.
    pub fn new(ident: String, path: ModulePath, id: usize) -> (r: Name)
        ensures
            r.ident_view() == ident@,
            r.path_view() == path@,
            r.id_view() == id,
    {
        Name { ident, path, id }
    }

    /// The identifier.
    pub closed spec fn ident_view(&self) -> Seq<char> {
        self.ident@
    }

    /// The segments of the owning module path.
    pub closed spec fn path_view(&self) -> Seq<Seq<char>> {
        self.path@
    }

    /// The unique id.
    pub closed spec fn id_view(&self) -> usize {
        self.id
    }

    /// The identifier.
    pub fn ident(&self) -> (r: &str)
        ensures
            r@ == self.ident_view(),
    {
        self.ident.as_str()
    }

    /// The owning module path.
    pub fn path(&self) -> (r: &ModulePath)
        ensures
            r@ == self.path_view(),
    {
        &self.path
    }

    /// The unique id.
    pub fn id(&self) -> (r: usize)
        ensures
            r == self.id_view(),
    {
        self.id
    }

    /// Whether the two names denote the same definition: their ids are equal.
    pub fn same_definition(&self, other: &Name) -> (r: bool)
        ensures
            r == same_def(*self, *other),
    {
        self.id == other.id
    }

    /// The display form `{path}::{ident}_{id}`.
    pub fn to_string(&self) -> (r: String)
        ensures
            r@ == name_text(self.path_view(), self.ident_view(), self.id_view() as nat),
    {
        let mut r = self.path.to_string();
        proof {
            reveal_strlit("::");
            reveal_strlit("_");
        }
        r.append("::");
        r.append(self.ident.as_str());
        r.append("_");
        push_decimal(&mut r, self.id);
        assert(r@ =~= name_text(self.path_view(), self.ident_view(), self.id_view() as nat));
        r
    }
}

/// Whether two names denote the same definition.
pub open spec fn same_def(a: Name, b: Name) -> bool {
    a.id_view() == b.id_view()
}

/// Names are the same definition exactly when they are equal.
impl PartialEq for Name {
    fn eq(&self, other: &Name) -> (r: bool) {
        self.id == other.id
    }
}

impl vstd::std_specs::cmp::PartialEqSpecImpl for Name {
    open spec fn obeys_eq_spec() -> bool {
        true
    }

    open spec fn eq_spec(&self, other: &Name) -> bool {
        same_def(*self, *other)
    }
}

/// Two names built with different ids are different definitions, even with the same
/// identifier and path.
pub proof fn lemma_identity_is_id(a: Name, b: Name)
    requires
        a.ident_view() == b.ident_view(),
        a.path_view() == b.path_view(),
        a.id_view() != b.id_view(),
    ensures
        !same_def(a, b),
{
}

/// Two names built with the same id are the same definition, whatever their identifiers
/// and paths.
pub proof fn lemma_same_id_same_definition(a: Name, b: Name)
    requires
        a.id_view() == b.id_view(),
    ensures
        same_def(a, b),
{
}

} // verus!
