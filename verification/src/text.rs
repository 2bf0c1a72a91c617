//! Lines of text and decimal numerals.

use vstd::prelude::*;
use vstd::string::*;

verus! {

/// The characters of each line, in order.
pub open spec fn texts(lines: Seq<String>) -> Seq<Seq<char>> {
    Seq::new(lines.len(), |i: int| lines[i]@)
}

/// The numeral of a single digit.
pub open spec fn digit(d: nat) -> char {
    if d == 0 {
        '0'
    } else if d == 1 {
        '1'
    } else if d == 2 {
        '2'
    } else if d == 3 {
        '3'
    } else if d == 4 {
        '4'
    } else if d == 5 {
        '5'
    } else if d == 6 {
        '6'
    } else if d == 7 {
        '7'
    } else if d == 8 {
        '8'
    } else {
        '9'
    }
}

/// The decimal numeral of `n`, without leading zeros.
pub open spec fn decimal(n: nat) -> Seq<char>
    decreases n,
{
    if n < 10 {
        seq![digit(n)]
    } else {
        decimal(n / 10).push(digit(n % 10))
    }
}

fn digit_text(d: u16) -> (r: &'static str)
    requires
        d < 10,
    ensures
        r@ == seq![digit(d as nat)],
{
    proof {
        reveal_strlit("0");
        reveal_strlit("1");
        reveal_strlit("2");
        reveal_strlit("3");
        reveal_strlit("4");
        reveal_strlit("5");
        reveal_strlit("6");
        reveal_strlit("7");
        reveal_strlit("8");
        reveal_strlit("9");
    }
    let r = if d == 0 {
        "0"
    } else if d == 1 {
        "1"
    } else if d == 2 {
        "2"
    } else if d == 3 {
        "3"
    } else if d == 4 {
        "4"
    } else if d == 5 {
        "5"
    } else if d == 6 {
        "6"
    } else if d == 7 {
        "7"
    } else if d == 8 {
        "8"
    } else {
        "9"
    };
    assert(r@ =~= seq![digit(d as nat)]);
    r
}

/// Writes `n` in decimal.
pub fn number_text(n: u16) -> (r: String)
    ensures
        r@ == decimal(n as nat),
    decreases n,
{
    if n < 10 {
        String::from_str(digit_text(n))
    } else {
        let r = number_text(n / 10).concat(digit_text(n % 10));
        assert(r@ =~= decimal((n / 10) as nat).push(digit((n % 10) as nat)));
        r
    }
}

/// Where the line begins that is unfinished after the first `n` characters:
/// behind the last line feed among them.
pub open spec fn line_start(text: Seq<char>, n: int) -> int
    decreases n,
{
    if n <= 0 {
        0
    } else if text[n - 1] == '\n' {
        n
    } else {
        line_start(text, n - 1)
    }
}

/// The lines that a line feed ends among the first `n` characters, each
/// without its line feed.
pub open spec fn complete_lines(text: Seq<char>, n: int) -> Seq<Seq<char>>
    decreases n,
{
    if n <= 0 {
        Seq::empty()
    } else if text[n - 1] == '\n' {
        complete_lines(text, n - 1).push(text.subrange(line_start(text, n - 1), n - 1))
    } else {
        complete_lines(text, n - 1)
    }
}

/// The lines of a text: each ends at a line feed, which is dropped; what
/// follows the last line feed is a line too unless it is empty.
pub open spec fn lines_of(text: Seq<char>) -> Seq<Seq<char>> {
    let n = text.len() as int;
    if line_start(text, n) < n {
        complete_lines(text, n).push(text.subrange(line_start(text, n), n))
    } else {
        complete_lines(text, n)
    }
}

/// The text of some lines: each line followed by a line feed.
pub open spec fn joined(lines: Seq<Seq<char>>) -> Seq<char>
    decreases lines.len(),
{
    if lines.len() == 0 {
        Seq::empty()
    } else {
        joined(lines.drop_last()) + lines.last() + seq!['\n']
    }
}

/// The line holds no line feed.
pub open spec fn single_line(line: Seq<char>) -> bool {
    forall|i: int| 0 <= i < line.len() ==> line[i] != '\n'
}

/// No line holds a line feed.
pub open spec fn all_single_line(lines: Seq<Seq<char>>) -> bool {
    forall|k: int| 0 <= k < lines.len() ==> single_line(#[trigger] lines[k])
}

proof fn lemma_line_start_bounds(text: Seq<char>, n: int)
    requires
        0 <= n <= text.len(),
    ensures
        0 <= line_start(text, n) <= n,
        forall|k: int| line_start(text, n) <= k < n ==> text[k] != '\n',
    decreases n,
{
    if n > 0 && text[n - 1] != '\n' {
        lemma_line_start_bounds(text, n - 1);
    }
}

proof fn lemma_complete_lines_single(text: Seq<char>, n: int)
    requires
        0 <= n <= text.len(),
    ensures
        all_single_line(complete_lines(text, n)),
    decreases n,
{
    if n > 0 {
        lemma_complete_lines_single(text, n - 1);
        lemma_line_start_bounds(text, n - 1);
    }
}

/// The lines of a text hold no line feed.
pub proof fn lemma_lines_are_single(text: Seq<char>)
    ensures
        all_single_line(lines_of(text)),
{
    let n = text.len() as int;
    lemma_complete_lines_single(text, n);
    lemma_line_start_bounds(text, n);
}

proof fn lemma_scan_ignores_rest(text: Seq<char>, rest: Seq<char>, n: int)
    requires
        0 <= n <= text.len(),
    ensures
        line_start(text + rest, n) == line_start(text, n),
        complete_lines(text + rest, n) == complete_lines(text, n),
    decreases n,
{
    if n > 0 {
        lemma_scan_ignores_rest(text, rest, n - 1);
        lemma_line_start_bounds(text, n - 1);
        assert((text + rest)[n - 1] == text[n - 1]);
        assert((text + rest).subrange(line_start(text, n - 1), n - 1) =~= text.subrange(
            line_start(text, n - 1),
            n - 1,
        ));
    }
}

proof fn lemma_scan_within_line(text: Seq<char>, line: Seq<char>, k: int)
    requires
        line_start(text, text.len() as int) == text.len(),
        single_line(line),
        0 <= k <= line.len(),
    ensures
        line_start(text + line, text.len() + k) == text.len(),
        complete_lines(text + line, text.len() + k) == complete_lines(text, text.len() as int),
    decreases k,
{
    if k == 0 {
        lemma_scan_ignores_rest(text, line, text.len() as int);
    } else {
        lemma_scan_within_line(text, line, k - 1);
        assert((text + line)[text.len() + k - 1] == line[k - 1]);
    }
}

proof fn lemma_split_joined(lines: Seq<Seq<char>>)
    requires
        all_single_line(lines),
    ensures
        line_start(joined(lines), joined(lines).len() as int) == joined(lines).len(),
        complete_lines(joined(lines), joined(lines).len() as int) == lines,
    decreases lines.len(),
{
    if lines.len() > 0 {
        let front = lines.drop_last();
        let line = lines.last();
        lemma_split_joined(front);
        let t = joined(front);
        let u = t + line;
        let whole = u + seq!['\n'];
        assert(whole == joined(lines));
        lemma_scan_within_line(t, line, line.len() as int);
        lemma_scan_ignores_rest(u, seq!['\n'], u.len() as int);
        assert(whole[whole.len() - 1] == '\n');
        assert(whole.subrange(t.len() as int, u.len() as int) =~= line);
        assert(front.push(line) =~= lines);
    }
}

/// Joining lines that hold no line feed and splitting the text again gives
/// the lines back.
pub proof fn lemma_split_join(lines: Seq<Seq<char>>)
    requires
        all_single_line(lines),
    ensures
        lines_of(joined(lines)) == lines,
{
    lemma_split_joined(lines);
}

proof fn lemma_join_complete(text: Seq<char>, n: int)
    requires
        0 <= n <= text.len(),
    ensures
        joined(complete_lines(text, n)) == text.subrange(0, line_start(text, n)),
    decreases n,
{
    lemma_line_start_bounds(text, n);
    if n <= 0 {
        assert(joined(complete_lines(text, n)) =~= text.subrange(0, 0));
    } else {
        lemma_join_complete(text, n - 1);
        lemma_line_start_bounds(text, n - 1);
        if text[n - 1] == '\n' {
            let front = complete_lines(text, n - 1);
            let line = text.subrange(line_start(text, n - 1), n - 1);
            assert(front.push(line).drop_last() =~= front);
            assert(front.push(line).last() == line);
            assert(joined(front) + line + seq!['\n'] =~= text.subrange(0, n));
        }
    }
}

/// Splitting a text into lines and joining them again gives the text back,
/// with a line feed added where its last line had none.
pub proof fn lemma_join_split(text: Seq<char>)
    ensures
        joined(lines_of(text)) == if text.len() == 0 || text.last() == '\n' {
            text
        } else {
            text.push('\n')
        },
{
    let n = text.len() as int;
    lemma_join_complete(text, n);
    lemma_line_start_bounds(text, n);
    let front = complete_lines(text, n);
    if line_start(text, n) < n {
        let line = text.subrange(line_start(text, n), n);
        assert(front.push(line).drop_last() =~= front);
        assert(front.push(line).last() == line);
        assert(joined(front) + line + seq!['\n'] =~= text.push('\n'));
    } else {
        assert(text.subrange(0, n) =~= text);
    }
}

/// Whether a string holds no line feed.
pub fn is_single_line(s: &str) -> (r: bool)
    ensures
        r == single_line(s@),
{
    let n: usize = s.unicode_len();
    let mut i: usize = 0;
    while i < n
        invariant
            i <= n,
            n == s@.len(),
            forall|k: int| 0 <= k < i ==> s@[k] != '\n',
        decreases n - i,
    {
        if s.get_char(i) == '\n' {
            return false;
        }
        i += 1;
    }
    true
}

/// Splits a text into its lines.
pub fn split_lines(text: &str) -> (r: Vec<String>)
    ensures
        texts(r@) == lines_of(text@),
{
    let mut out: Vec<String> = Vec::new();
    let n: usize = text.unicode_len();
    let mut start: usize = 0;
    let mut i: usize = 0;
    assert(texts(out@) =~= complete_lines(text@, 0));
    while i < n
        invariant
            start <= i <= n,
            n == text@.len(),
            start == line_start(text@, i as int),
            texts(out@) == complete_lines(text@, i as int),
        decreases n - i,
    {
        if text.get_char(i) == '\n' {
            push_line(&mut out, String::from_str(text.substring_char(start, i)));
            start = i + 1;
        }
        i += 1;
    }
    if start < n {
        push_line(&mut out, String::from_str(text.substring_char(start, n)));
    }
    out
}

/// Joins lines into a text, each line followed by a line feed.
pub fn join_lines(lines: &Vec<String>) -> (r: String)
    ensures
        r@ == joined(texts(lines@)),
{
    let mut out = String::new();
    let n: usize = lines.len();
    let mut i: usize = 0;
    assert(texts(lines@).subrange(0, 0) =~= Seq::<Seq<char>>::empty());
    while i < n
        invariant
            i <= n,
            n == lines@.len(),
            out@ == joined(texts(lines@).subrange(0, i as int)),
        decreases n - i,
    {
        proof {
            reveal_strlit("\n");
            let next = texts(lines@).subrange(0, i + 1);
            assert(next.drop_last() =~= texts(lines@).subrange(0, i as int));
            assert(next.last() == lines@[i as int]@);
            assert("\n"@ =~= seq!['\n']);
        }
        out.append(lines[i].as_str());
        out.append("\n");
        i += 1;
    }
    assert(texts(lines@).subrange(0, n as int) =~= texts(lines@));
    out
}

/// Appends one line.
pub fn push_line(out: &mut Vec<String>, line: String)
    ensures
        texts(final(out)@) == texts(old(out)@).push(line@),
{
    out.push(line);
    assert(texts(out@) =~= texts(old(out)@).push(line@));
}

} // verus!
