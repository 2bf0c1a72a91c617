//! Reconciliation of a freshly rendered managed block with the lines of an
//! existing file: a three-way split into the lines before the block, the
//! block, and the lines after it. Lines outside the block are never read for
//! their meaning nor rewritten.

use crate::render::{end_line, end_marker, is_marker, start_line, start_marker};
use crate::text::{push_line, texts};
use vstd::prelude::*;
use vstd::string::*;

verus! {

/// Among the first `upto` lines no closing marker follows an opening marker.
pub open spec fn no_pair(lines: Seq<Seq<char>>, upto: int) -> bool {
    forall|i: int, j: int|
        0 <= i < j < upto ==> !(#[trigger] lines[i] == start_marker() && #[trigger] lines[j]
            == end_marker())
}

/// Lines `s` and `e` delimit the managed block: `e` is the first closing
/// marker that follows an opening marker, and `s` is the last opening marker
/// before it.
pub open spec fn is_block(lines: Seq<Seq<char>>, s: int, e: int) -> bool {
    &&& 0 <= s < e < lines.len()
    &&& lines[s] == start_marker()
    &&& lines[e] == end_marker()
    &&& forall|k: int| s < k < e ==> !is_marker(#[trigger] lines[k])
    &&& no_pair(lines, s)
}

/// The positions of the managed block's markers, if the lines hold a block.
pub open spec fn block_of(lines: Seq<Seq<char>>) -> Option<(int, int)> {
    if exists|p: (int, int)| is_block(lines, p.0, p.1) {
        Some(choose|p: (int, int)| is_block(lines, p.0, p.1))
    } else {
        None
    }
}

/// The lines before the managed block; all lines where there is no block.
pub open spec fn prefix_of(lines: Seq<Seq<char>>) -> Seq<Seq<char>> {
    match block_of(lines) {
        Some((s, e)) => lines.subrange(0, s),
        None => lines,
    }
}

/// The managed block with its markers; empty where there is no block.
pub open spec fn managed_of(lines: Seq<Seq<char>>) -> Seq<Seq<char>> {
    match block_of(lines) {
        Some((s, e)) => lines.subrange(s, e + 1),
        None => Seq::empty(),
    }
}

/// The lines after the managed block; empty where there is no block.
pub open spec fn suffix_of(lines: Seq<Seq<char>>) -> Seq<Seq<char>> {
    match block_of(lines) {
        Some((s, e)) => lines.subrange(e + 1, lines.len() as int),
        None => Seq::empty(),
    }
}

/// The file after reconciliation: what stood before the block, the new
/// block, what stood after it. Without a block the new one goes to the end.
pub open spec fn merged(lines: Seq<Seq<char>>, block: Seq<Seq<char>>) -> Seq<Seq<char>> {
    prefix_of(lines) + block + suffix_of(lines)
}

/// A block as the renderer writes it: an opening marker, lines that are no
/// markers, a closing marker.
pub open spec fn well_formed_block(block: Seq<Seq<char>>) -> bool {
    &&& block.len() >= 2
    &&& block[0] == start_marker()
    &&& block.last() == end_marker()
    &&& forall|k: int| 0 < k < block.len() - 1 ==> !is_marker(#[trigger] block[k])
}

/// The two markers are different lines.
pub proof fn lemma_markers_differ()
    ensures
        start_marker() != end_marker(),
        start_marker().len() > 0,
        end_marker().len() > 0,
        start_marker()[0] == '#',
        end_marker()[0] == '#',
{
    reveal_strlit("# >>> rskm managed hosts >>>");
    reveal_strlit("# <<< rskm managed hosts <<<");
    assert(start_marker()[2] == '>');
    assert(end_marker()[2] == '<');
}

/// A file holds at most one managed block.
pub proof fn lemma_block_unique(lines: Seq<Seq<char>>, s1: int, e1: int, s2: int, e2: int)
    requires
        is_block(lines, s1, e1),
        is_block(lines, s2, e2),
    ensures
        s1 == s2,
        e1 == e2,
{
    lemma_markers_differ();
    if e1 < e2 {
        assert(lines[s1] == start_marker() && lines[e1] == end_marker());
        if e1 < s2 {
            assert(false);
        } else if e1 > s2 {
            assert(is_marker(lines[e1]));
            assert(false);
        }
    } else if e2 < e1 {
        assert(lines[s2] == start_marker() && lines[e2] == end_marker());
        if e2 < s1 {
            assert(false);
        } else if e2 > s1 {
            assert(is_marker(lines[e2]));
            assert(false);
        }
    } else {
        if s1 < s2 {
            assert(is_marker(lines[s2]));
        } else if s2 < s1 {
            assert(is_marker(lines[s1]));
        }
    }
}

/// Where a block is found, `block_of` names it.
pub proof fn lemma_block_found(lines: Seq<Seq<char>>, s: int, e: int)
    requires
        is_block(lines, s, e),
    ensures
        block_of(lines) == Some((s, e)),
{
    let p = (s, e);
    assert(is_block(lines, p.0, p.1));
    let q = choose|q: (int, int)| is_block(lines, q.0, q.1);
    lemma_block_unique(lines, s, e, q.0, q.1);
}

/// Where no closing marker follows an opening marker, there is no block.
pub proof fn lemma_block_absent(lines: Seq<Seq<char>>)
    requires
        no_pair(lines, lines.len() as int),
    ensures
        block_of(lines) is None,
{
    if exists|p: (int, int)| is_block(lines, p.0, p.1) {
        let p = choose|p: (int, int)| is_block(lines, p.0, p.1);
        assert(lines[p.0] == start_marker() && lines[p.1] == end_marker());
    }
}

/// The position after the last opening marker among the first `upto` lines;
/// 0 where there is none.
spec fn after_last_start(lines: Seq<Seq<char>>, upto: int) -> int
    decreases upto,
{
    if upto <= 0 {
        0
    } else if lines[upto - 1] == start_marker() {
        upto
    } else {
        after_last_start(lines, upto - 1)
    }
}

proof fn lemma_after_last_start(lines: Seq<Seq<char>>, upto: int)
    requires
        0 <= upto <= lines.len(),
    ensures
        0 <= after_last_start(lines, upto) <= upto,
        after_last_start(lines, upto) > 0 ==> lines[after_last_start(lines, upto) - 1]
            == start_marker(),
        forall|k: int|
            after_last_start(lines, upto) <= k < upto ==> #[trigger] lines[k] != start_marker(),
    decreases upto,
{
    if upto > 0 && lines[upto - 1] != start_marker() {
        lemma_after_last_start(lines, upto - 1);
    }
}

/// Among the first `upto` lines either no closing marker follows an opening
/// marker, or a block ends there.
proof fn lemma_pair_gives_block(lines: Seq<Seq<char>>, upto: int)
    requires
        0 <= upto <= lines.len(),
    ensures
        no_pair(lines, upto) || exists|p: (int, int)| is_block(lines, p.0, p.1) && p.1 < upto,
    decreases upto,
{
    lemma_markers_differ();
    if upto > 0 {
        lemma_pair_gives_block(lines, upto - 1);
        if no_pair(lines, upto - 1) {
            let e = upto - 1;
            lemma_after_last_start(lines, e);
            let a = after_last_start(lines, e);
            if lines[e] == end_marker() && a > 0 {
                let s = a - 1;
                assert forall|k: int| s < k < e implies !is_marker(#[trigger] lines[k]) by {
                    if lines[k] == end_marker() {
                        assert(lines[s] == start_marker() && lines[k] == end_marker());
                    }
                }
                let p = (s, e);
                assert(is_block(lines, p.0, p.1) && p.1 < upto);
            } else {
                assert(no_pair(lines, upto));
            }
        } else {
            let p = choose|p: (int, int)| is_block(lines, p.0, p.1) && p.1 < upto - 1;
            assert(is_block(lines, p.0, p.1) && p.1 < upto);
        }
    }
}

/// No closing marker follows an opening marker before the managed block,
/// nor anywhere in the kept lines of a file without a block.
pub proof fn lemma_prefix_has_no_pair(lines: Seq<Seq<char>>)
    ensures
        no_pair(prefix_of(lines), prefix_of(lines).len() as int),
{
    match block_of(lines) {
        Some((s, e)) => {
            let p = choose|p: (int, int)| is_block(lines, p.0, p.1);
            assert(is_block(lines, p.0, p.1));
            assert(no_pair(lines, s));
            assert forall|i: int, j: int| 0 <= i < j < s implies !(#[trigger] prefix_of(lines)[i]
                == start_marker() && #[trigger] prefix_of(lines)[j] == end_marker()) by {
                assert(prefix_of(lines)[i] == lines[i]);
                assert(prefix_of(lines)[j] == lines[j]);
            }
        },
        None => {
            lemma_pair_gives_block(lines, lines.len() as int);
        },
    }
}

/// The three parts make up the file: nothing is lost and nothing added.
pub proof fn lemma_split_whole(lines: Seq<Seq<char>>)
    ensures
        prefix_of(lines) + managed_of(lines) + suffix_of(lines) == lines,
        managed_of(lines).len() > 0 ==> well_formed_block(managed_of(lines)),
{
    match block_of(lines) {
        Some((s, e)) => {
            let p = choose|p: (int, int)| is_block(lines, p.0, p.1);
            assert(is_block(lines, p.0, p.1));
            assert(prefix_of(lines) + managed_of(lines) + suffix_of(lines) =~= lines);
            let m = managed_of(lines);
            assert forall|k: int| 0 < k < m.len() - 1 implies !is_marker(#[trigger] m[k]) by {
                assert(m[k] == lines[s + k]);
            }
        },
        None => {
            assert(prefix_of(lines) + managed_of(lines) + suffix_of(lines) =~= lines);
        },
    }
}

/// Reconciling a well-formed block into a file makes it that file's managed
/// block and leaves the lines around it as they were; reconciling the same
/// block once more changes nothing.
pub proof fn lemma_reconcile_idempotent(lines: Seq<Seq<char>>, block: Seq<Seq<char>>)
    requires
        well_formed_block(block),
    ensures
        managed_of(merged(lines, block)) == block,
        prefix_of(merged(lines, block)) == prefix_of(lines),
        suffix_of(merged(lines, block)) == suffix_of(lines),
        merged(merged(lines, block), block) == merged(lines, block),
{
    lemma_markers_differ();
    lemma_prefix_has_no_pair(lines);
    let p = prefix_of(lines);
    let x = suffix_of(lines);
    let m = merged(lines, block);
    let s = p.len() as int;
    let e = s + block.len() - 1;
    assert forall|i: int, j: int| 0 <= i < j < s implies !(#[trigger] m[i] == start_marker()
        && #[trigger] m[j] == end_marker()) by {
        assert(m[i] == p[i]);
        assert(m[j] == p[j]);
    }
    assert forall|k: int| s < k < e implies !is_marker(#[trigger] m[k]) by {
        assert(m[k] == block[k - s]);
    }
    assert(m[s] == block[0]);
    assert(m[e] == block[block.len() - 1]);
    assert(is_block(m, s, e));
    lemma_block_found(m, s, e);
    assert(prefix_of(m) =~= p);
    assert(managed_of(m) =~= block);
    assert(suffix_of(m) =~= x);
}

/// The positions of the managed block's markers.
pub fn locate(lines: &Vec<String>) -> (r: Option<(usize, usize)>)
    ensures
        match r {
            Some((s, e)) => block_of(texts(lines@)) == Some((s as int, e as int)),
            None => block_of(texts(lines@)) is None,
        },
{
    let ghost t = texts(lines@);
    let start = start_line();
    let end = end_line();
    let n: usize = lines.len();
    let mut open: Option<usize> = None;
    let mut i: usize = 0;
    proof {
        lemma_markers_differ();
    }
    while i < n
        invariant
            i <= n,
            n == lines@.len(),
            t == texts(lines@),
            start@ == start_marker(),
            end@ == end_marker(),
            start_marker() != end_marker(),
            no_pair(t, i as int),
            match open {
                Some(s) => s < i && t[s as int] == start_marker() && forall|k: int|
                    s < k < i ==> !is_marker(#[trigger] t[k]),
                None => forall|k: int| 0 <= k < i ==> #[trigger] t[k] != start_marker(),
            },
        decreases n - i,
    {
        assert(t[i as int] == lines@[i as int]@);
        if lines[i] == start {
            open = Some(i);
        } else if lines[i] == end {
            match open {
                Some(s) => {
                    proof {
                        assert(is_block(t, s as int, i as int));
                        lemma_block_found(t, s as int, i as int);
                    }
                    return Some((s, i));
                },
                None => {},
            }
        }
        i += 1;
    }
    proof {
        lemma_block_absent(t);
    }
    None
}

/// Appends copies of the lines from `from` up to `to`.
pub fn append_range(out: &mut Vec<String>, lines: &Vec<String>, from: usize, to: usize)
    requires
        from <= to <= lines@.len(),
    ensures
        texts(final(out)@) == texts(old(out)@) + texts(lines@).subrange(from as int, to as int),
{
    let ghost before = texts(out@);
    let mut i: usize = from;
    assert(texts(out@) =~= before + texts(lines@).subrange(from as int, from as int));
    while i < to
        invariant
            from <= i <= to,
            to <= lines@.len(),
            texts(out@) == before + texts(lines@).subrange(from as int, i as int),
        decreases to - i,
    {
        push_line(out, lines[i].clone());
        assert(texts(out@) =~= before + texts(lines@).subrange(from as int, i + 1));
        i += 1;
    }
}

/// The three parts of a file.
#[derive(Debug)]
pub struct Split {
    pub prefix: Vec<String>,
    pub managed: Vec<String>,
    pub suffix: Vec<String>,
}

/// Splits a file into the lines before its managed block, the block, and the
/// lines after it. A file without a block is all prefix.
pub fn split_managed(lines: &Vec<String>) -> (r: Split)
    ensures
        texts(r.prefix@) == prefix_of(texts(lines@)),
        texts(r.managed@) == managed_of(texts(lines@)),
        texts(r.suffix@) == suffix_of(texts(lines@)),
{
    let mut prefix: Vec<String> = Vec::new();
    let mut managed: Vec<String> = Vec::new();
    let mut suffix: Vec<String> = Vec::new();
    let n: usize = lines.len();
    assert(texts(prefix@) =~= Seq::<Seq<char>>::empty());
    assert(texts(managed@) =~= Seq::<Seq<char>>::empty());
    assert(texts(suffix@) =~= Seq::<Seq<char>>::empty());
    match locate(lines) {
        Some((s, e)) => {
            proof {
                let p = choose|p: (int, int)| is_block(texts(lines@), p.0, p.1);
                assert(is_block(texts(lines@), p.0, p.1));
            }
            append_range(&mut prefix, lines, 0, s);
            append_range(&mut managed, lines, s, e + 1);
            append_range(&mut suffix, lines, e + 1, n);
            assert(texts(prefix@) =~= prefix_of(texts(lines@)));
            assert(texts(managed@) =~= managed_of(texts(lines@)));
            assert(texts(suffix@) =~= suffix_of(texts(lines@)));
        },
        None => {
            append_range(&mut prefix, lines, 0, n);
            assert(texts(prefix@) =~= prefix_of(texts(lines@)));
        },
    }
    Split { prefix, managed, suffix }
}

/// The new content of the file: the lines before the old block, the new
/// block, the lines after the old block.
pub fn reconcile(existing: &Vec<String>, block: &Vec<String>) -> (r: Vec<String>)
    ensures
        texts(r@) == merged(texts(existing@), texts(block@)),
{
    let parts = split_managed(existing);
    let mut out = parts.prefix;
    append_range(&mut out, block, 0, block.len());
    append_range(&mut out, &parts.suffix, 0, parts.suffix.len());
    assert(texts(block@).subrange(0, block@.len() as int) =~= texts(block@));
    assert(texts(parts.suffix@).subrange(0, parts.suffix@.len() as int) =~= texts(parts.suffix@));
    out
}

} // verus!
