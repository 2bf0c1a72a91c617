//! A line-level difference between two lists of lines: the lines they share
//! at the front, the lines they share at the back, and what lies between.

use crate::text::texts;
use crate::reconcile::append_range;
use vstd::prelude::*;
use vstd::string::*;

verus! {

/// What changed between an old and a new list of lines.
#[derive(Debug)]
pub struct Diff {
    /// How many leading lines the two lists share.
    pub kept_before: usize,
    /// The old lines that the new list replaces.
    pub removed: Vec<String>,
    /// The new lines that take their place.
    pub added: Vec<String>,
    /// How many trailing lines the two lists share.
    pub kept_after: usize,
}

/// `p` is the length of the longest common prefix of `a` and `b`.
pub open spec fn is_common_prefix(a: Seq<Seq<char>>, b: Seq<Seq<char>>, p: int) -> bool {
    &&& 0 <= p <= a.len()
    &&& p <= b.len()
    &&& forall|k: int| 0 <= k < p ==> a[k] == b[k]
    &&& (p == a.len() || p == b.len() || a[p] != b[p])
}

/// `q` is the length of the longest common suffix of `a` and `b` that does
/// not reach into their first `p` lines.
pub open spec fn is_common_suffix(a: Seq<Seq<char>>, b: Seq<Seq<char>>, p: int, q: int) -> bool {
    &&& 0 <= q
    &&& p + q <= a.len()
    &&& p + q <= b.len()
    &&& forall|k: int| a.len() - q <= k < a.len() ==> #[trigger] a[k] == b[k + (b.len() - a.len())]
    &&& (p + q == a.len() || p + q == b.len() || a[a.len() - 1 - q] != b[b.len() - 1 - q])
}

impl Diff {
    /// The difference `self` is the one between `a` and `b`.
    pub open spec fn describes(&self, a: Seq<Seq<char>>, b: Seq<Seq<char>>) -> bool {
        &&& is_common_prefix(a, b, self.kept_before as int)
        &&& is_common_suffix(a, b, self.kept_before as int, self.kept_after as int)
        &&& texts(self.removed@) == a.subrange(self.kept_before as int, a.len() - self.kept_after)
        &&& texts(self.added@) == b.subrange(self.kept_before as int, b.len() - self.kept_after)
    }

    /// Nothing was removed and nothing added.
    pub open spec fn empty(&self) -> bool {
        self.removed@.len() == 0 && self.added@.len() == 0
    }

    /// Whether the two lists were the same.
    pub fn is_empty(&self) -> (r: bool)
        ensures
            r == self.empty(),
    {
        self.removed.len() == 0 && self.added.len() == 0
    }
}

/// A difference is empty exactly when the two lists are equal.
pub proof fn lemma_empty_iff_equal(d: Diff, a: Seq<Seq<char>>, b: Seq<Seq<char>>)
    requires
        d.describes(a, b),
    ensures
        d.empty() <==> a == b,
{
    let p = d.kept_before as int;
    let q = d.kept_after as int;
    assert(texts(d.removed@).len() == d.removed@.len());
    assert(texts(d.added@).len() == d.added@.len());
    if d.empty() {
        assert(a.len() == p + q);
        assert(b.len() == p + q);
        assert forall|k: int| 0 <= k < a.len() implies a[k] == b[k] by {
        }
        assert(a =~= b);
    }
    if a == b {
        assert(p == a.len());
    }
}

/// The difference between the old lines and the new lines.
pub fn diff_lines(old_lines: &Vec<String>, new_lines: &Vec<String>) -> (r: Diff)
    ensures
        r.describes(texts(old_lines@), texts(new_lines@)),
        r.empty() <==> texts(old_lines@) == texts(new_lines@),
{
    let ghost a = texts(old_lines@);
    let ghost b = texts(new_lines@);
    let n: usize = old_lines.len();
    let m: usize = new_lines.len();
    let mut p: usize = 0;
    while p < n && p < m && old_lines[p] == new_lines[p]
        invariant
            p <= n,
            p <= m,
            n == old_lines@.len(),
            m == new_lines@.len(),
            a == texts(old_lines@),
            b == texts(new_lines@),
            forall|k: int| 0 <= k < p ==> a[k] == b[k],
        decreases n - p,
    {
        p += 1;
    }
    assert(is_common_prefix(a, b, p as int));
    let mut q: usize = 0;
    while p + q < n && p + q < m && old_lines[n - 1 - q] == new_lines[m - 1 - q]
        invariant
            p <= n,
            p <= m,
            p + q <= n,
            p + q <= m,
            n == old_lines@.len(),
            m == new_lines@.len(),
            a == texts(old_lines@),
            b == texts(new_lines@),
            forall|k: int| a.len() - q <= k < a.len() ==> #[trigger] a[k] == b[k + (b.len() - a.len())],
        decreases n - q,
    {
        q += 1;
    }
    assert(is_common_suffix(a, b, p as int, q as int));
    let mut removed: Vec<String> = Vec::new();
    let mut added: Vec<String> = Vec::new();
    assert(texts(removed@) =~= Seq::<Seq<char>>::empty());
    assert(texts(added@) =~= Seq::<Seq<char>>::empty());
    append_range(&mut removed, old_lines, p, n - q);
    append_range(&mut added, new_lines, p, m - q);
    assert(texts(removed@) =~= a.subrange(p as int, n - q));
    assert(texts(added@) =~= b.subrange(p as int, m - q));
    let r = Diff { kept_before: p, removed, added, kept_after: q };
    proof {
        lemma_empty_iff_equal(r, a, b);
    }
    r
}

} // verus!
