//! Line diffs: how one text becomes another, line by line, keeping as many lines as can be kept.
use crate::refs;
use crate::text;
use vstd::prelude::*;

verus! {

/// What became of a line.
#[derive(Debug, Clone, Copy, PartialEq, Eq, Structural)]
pub enum DiffOp {
    /// It stands in both texts.
    Kept,
    /// It stands only in the old text.
    Removed,
    /// It stands only in the new text.
    Added,
}

/// One line of a diff.
pub struct DiffLine {
    pub op: DiffOp,
    pub text: String,
}

/// What a [`DiffLine`] says.
#[verifier::ext_equal]
pub struct DiffLineModel {
    pub op: DiffOp,
    pub text: Seq<char>,
}

impl View for DiffLine {
    type V = DiffLineModel;

    open spec fn view(&self) -> DiffLineModel {
        DiffLineModel { op: self.op, text: self.text@ }
    }
}

impl DeepView for DiffLine {
    type V = DiffLineModel;

    open spec fn deep_view(&self) -> DiffLineModel {
        self@
    }
}

// ----- lines -----

/// The lines from place `i` on: each ends before a line feed, the last one perhaps at the end of the
/// text.
pub open spec fn lines_from(s: Seq<char>, i: int) -> Seq<Seq<char>>
    decreases s.len() - i,
{
    let end = refs::find_char(s, '\n', i);
    if i < 0 || i >= s.len() {
        Seq::empty()
    } else if i <= end < s.len() {
        seq![s.subrange(i, end)] + lines_from(s, end + 1)
    } else {
        seq![s.subrange(i, s.len() as int)]
    }
}

/// The lines of a text.
pub open spec fn lines_of(s: Seq<char>) -> Seq<Seq<char>> {
    lines_from(s, 0)
}

proof fn lemma_find_char(s: Seq<char>, c: char, i: int)
    requires
        0 <= i <= s.len(),
    ensures
        i <= refs::find_char(s, c, i) <= s.len(),
    decreases s.len() - i,
{
    if i < s.len() && s[i] != c {
        lemma_find_char(s, c, i + 1);
    }
}

/// The lines of a text.
pub fn lines(s: &str) -> (lines: Vec<String>)
    ensures
        lines.deep_view() == lines_of(s@),
{
    let chars = text::chars_of(s);
    let n: usize = chars.len();
    let ghost all = s@;
    let mut out: Vec<String> = Vec::new();
    let mut i: usize = 0;
    proof {
        assert(out.deep_view() + lines_from(all, 0) =~= lines_of(all));
    }
    while i < n
        invariant
            i <= n,
            n == all.len(),
            all == s@,
            chars@ == all,
            out.deep_view() + lines_from(all, i as int) == lines_of(all),
        decreases n - i,
    {
        let ghost done = out.deep_view();
        let mut end: usize = i;
        proof {
            lemma_find_char(all, '\n', i as int);
        }
        while end < n && chars[end] != '\n'
            invariant
                i <= end <= n,
                n == all.len(),
                chars@ == all,
                refs::find_char(all, '\n', i as int) == refs::find_char(all, '\n', end as int),
            decreases n - end,
        {
            end = end + 1;
        }
        let line = s.substring_char(i, end).to_owned();
        out.push(line);
        proof {
            let cut = all.subrange(i as int, end as int);
            assert(out.deep_view() =~= done.push(cut));
            if end < n {
                assert(done + (seq![cut] + lines_from(all, end + 1)) =~= done.push(cut) + lines_from(all, end + 1));
            } else {
                assert(done + seq![cut] =~= done.push(cut));
            }
        }
        if end == n {
            return out;
        }
        i = end + 1;
    }
    proof {
        assert(lines_from(all, n as int) =~= Seq::empty());
        assert(out.deep_view() + lines_from(all, n as int) =~= out.deep_view());
    }
    out
}

// ----- what can be kept -----

/// How many lines two texts have in common, in order: the length of their longest common subsequence.
pub open spec fn common(a: Seq<Seq<char>>, b: Seq<Seq<char>>) -> nat
    decreases a.len() + b.len(),
{
    if a.len() == 0 || b.len() == 0 {
        0
    } else if a.last() == b.last() {
        common(a.drop_last(), b.drop_last()) + 1
    } else {
        let without_a = common(a.drop_last(), b);
        let without_b = common(a, b.drop_last());
        if without_a > without_b {
            without_a
        } else {
            without_b
        }
    }
}

/// The diff from `a` to `b`, from the end back: a line that both end with is kept; otherwise the last
/// line of `b` was added, unless more can be kept by taking the last line of `a` as removed.
pub open spec fn diff_of(a: Seq<Seq<char>>, b: Seq<Seq<char>>) -> Seq<DiffLineModel>
    decreases a.len() + b.len(),
{
    if a.len() == 0 && b.len() == 0 {
        Seq::empty()
    } else if a.len() > 0 && b.len() > 0 && a.last() == b.last() {
        diff_of(a.drop_last(), b.drop_last()).push(DiffLineModel { op: DiffOp::Kept, text: a.last() })
    } else if b.len() > 0 && (a.len() == 0 || common(a, b.drop_last()) >= common(a.drop_last(), b)) {
        diff_of(a, b.drop_last()).push(DiffLineModel { op: DiffOp::Added, text: b.last() })
    } else {
        diff_of(a.drop_last(), b).push(DiffLineModel { op: DiffOp::Removed, text: a.last() })
    }
}

/// The old text of a diff: its lines without the added ones.
pub open spec fn old_side(diff: Seq<DiffLineModel>) -> Seq<Seq<char>>
    decreases diff.len(),
{
    if diff.len() == 0 {
        Seq::empty()
    } else if diff.last().op == DiffOp::Added {
        old_side(diff.drop_last())
    } else {
        old_side(diff.drop_last()).push(diff.last().text)
    }
}

/// The new text of a diff: its lines without the removed ones.
pub open spec fn new_side(diff: Seq<DiffLineModel>) -> Seq<Seq<char>>
    decreases diff.len(),
{
    if diff.len() == 0 {
        Seq::empty()
    } else if diff.last().op == DiffOp::Removed {
        new_side(diff.drop_last())
    } else {
        new_side(diff.drop_last()).push(diff.last().text)
    }
}

/// How many lines a diff keeps.
pub open spec fn kept(diff: Seq<DiffLineModel>) -> nat
    decreases diff.len(),
{
    if diff.len() == 0 {
        0
    } else {
        kept(diff.drop_last()) + (if diff.last().op == DiffOp::Kept {
            1nat
        } else {
            0
        })
    }
}

/// A diff leads from the one text to the other: without its added lines it is the old text, without its
/// removed lines the new one; and it keeps as many lines as the two have in common.
pub proof fn law_diff_restores_both(a: Seq<Seq<char>>, b: Seq<Seq<char>>)
    ensures
        old_side(diff_of(a, b)) == a,
        new_side(diff_of(a, b)) == b,
        kept(diff_of(a, b)) == common(a, b),
    decreases a.len() + b.len(),
{
    let diff = diff_of(a, b);
    if a.len() == 0 && b.len() == 0 {
        assert(a =~= Seq::empty());
        assert(b =~= Seq::empty());
    } else if a.len() > 0 && b.len() > 0 && a.last() == b.last() {
        law_diff_restores_both(a.drop_last(), b.drop_last());
        assert(diff.drop_last() =~= diff_of(a.drop_last(), b.drop_last()));
        assert(a.drop_last().push(a.last()) =~= a);
        assert(b.drop_last().push(b.last()) =~= b);
    } else if b.len() > 0 && (a.len() == 0 || common(a, b.drop_last()) >= common(a.drop_last(), b)) {
        law_diff_restores_both(a, b.drop_last());
        assert(diff.drop_last() =~= diff_of(a, b.drop_last()));
        assert(b.drop_last().push(b.last()) =~= b);
    } else {
        law_diff_restores_both(a.drop_last(), b);
        assert(diff.drop_last() =~= diff_of(a.drop_last(), b));
        assert(a.drop_last().push(a.last()) =~= a);
    }
}

/// From a text to itself, every line is kept.
pub proof fn law_diff_of_equal_texts_keeps_every_line(a: Seq<Seq<char>>)
    ensures
        diff_of(a, a) == a.map_values(|line: Seq<char>| DiffLineModel { op: DiffOp::Kept, text: line }),
    decreases a.len(),
{
    let keep = |line: Seq<char>| DiffLineModel { op: DiffOp::Kept, text: line };
    if a.len() == 0 {
        assert(a.map_values(keep) =~= Seq::empty());
    } else {
        law_diff_of_equal_texts_keeps_every_line(a.drop_last());
        assert(a.map_values(keep) =~= a.drop_last().map_values(keep).push(keep(a.last())));
    }
}

/// Leaving out the last line of one text costs at most one common line.
proof fn lemma_common(a: Seq<Seq<char>>, b: Seq<Seq<char>>)
    ensures
        a.len() > 0 ==> common(a.drop_last(), b) <= common(a, b) <= common(a.drop_last(), b) + 1,
        b.len() > 0 ==> common(a, b.drop_last()) <= common(a, b) <= common(a, b.drop_last()) + 1,
        common(a, b) <= a.len(),
        common(a, b) <= b.len(),
    decreases a.len() + b.len(),
{
    if a.len() > 0 {
        lemma_common(a.drop_last(), b);
    }
    if b.len() > 0 {
        lemma_common(a, b.drop_last());
    }
    if a.len() > 0 && b.len() > 0 {
        lemma_common(a.drop_last(), b.drop_last());
    }
}

/// No diff between two texts keeps more lines than theirs have in common, so [`diff_of`] keeps as many as
/// can be kept.
pub proof fn law_diff_keeps_the_most(other: Seq<DiffLineModel>)
    ensures
        kept(other) <= kept(diff_of(old_side(other), new_side(other))),
{
    lemma_keeps_at_most(other);
    law_diff_restores_both(old_side(other), new_side(other));
}

proof fn lemma_keeps_at_most(other: Seq<DiffLineModel>)
    ensures
        kept(other) <= common(old_side(other), new_side(other)),
    decreases other.len(),
{
    if other.len() > 0 {
        let before = other.drop_last();
        let a = old_side(other);
        let b = new_side(other);
        lemma_keeps_at_most(before);
        lemma_common(a, b);
        if other.last().op == DiffOp::Kept {
            assert(a.drop_last() =~= old_side(before));
            assert(b.drop_last() =~= new_side(before));
        } else if other.last().op == DiffOp::Removed {
            assert(a.drop_last() =~= old_side(before));
        } else {
            assert(b.drop_last() =~= new_side(before));
        }
    }
}

// ----- computing a diff -----

/// The row for the first `i + 1` lines of `a`: what they have in common with the first lines of `b`.
spec fn is_row(row: Seq<usize>, a: Seq<Seq<char>>, b: Seq<Seq<char>>, i: int) -> bool {
    &&& row.len() == b.len()
    &&& forall|j: int| 0 <= j < row.len() ==> #[trigger] row[j] == common(a.take(i + 1), b.take(j + 1))
}

/// Every element is the row of its place.
spec fn are_rows(rows: Seq<Vec<usize>>, a: Seq<Seq<char>>, b: Seq<Seq<char>>) -> bool {
    forall|i: int| 0 <= i < rows.len() ==> is_row((#[trigger] rows[i])@, a, b, i)
}

/// What the first `i` lines of `a` and the first `j` lines of `b` have in common.
fn cell(rows: &Vec<Vec<usize>>, i: usize, j: usize, Ghost(a): Ghost<Seq<Seq<char>>>, Ghost(b): Ghost<Seq<Seq<char>>>) -> (n: usize)
    requires
        are_rows(rows@, a, b),
        i <= rows@.len(),
        j <= b.len(),
    ensures
        n == common(a.take(i as int), b.take(j as int)),
{
    if i == 0 || j == 0 {
        0
    } else {
        assert(is_row(rows@[i - 1]@, a, b, i - 1));
        rows[i - 1][j - 1]
    }
}

/// The row that follows `rows`.
fn next_row(a: &Vec<String>, b: &Vec<String>, rows: &Vec<Vec<usize>>) -> (row: Vec<usize>)
    requires
        rows@.len() < a@.len(),
        are_rows(rows@, a.deep_view(), b.deep_view()),
    ensures
        is_row(row@, a.deep_view(), b.deep_view(), rows@.len() as int),
{
    let ghost av = a.deep_view();
    let ghost bv = b.deep_view();
    let i: usize = rows.len();
    let ghost p = av.take(i + 1);
    let mut row: Vec<usize> = Vec::new();
    let mut left: usize = 0;
    let mut j: usize = 0;
    proof {
        assert(p.drop_last() =~= av.take(i as int));
        assert(p.last() == av[i as int]);
    }
    while j < b.len()
        invariant
            j <= b@.len(),
            i == rows@.len(),
            i < a@.len(),
            av == a.deep_view(),
            bv == b.deep_view(),
            p == av.take(i + 1),
            p.drop_last() == av.take(i as int),
            p.last() == av[i as int],
            are_rows(rows@, av, bv),
            left == common(p, bv.take(j as int)),
            row@.len() == j,
            forall|k: int| 0 <= k < row@.len() ==> #[trigger] row@[k] == common(p, bv.take(k + 1)),
        decreases b.len() - j,
    {
        let ghost q = bv.take(j + 1);
        proof {
            assert(q.drop_last() =~= bv.take(j as int));
            assert(q.last() == bv[j as int]);
            assert(av[i as int] == a@[i as int]@ && bv[j as int] == b@[j as int]@);
            lemma_common(p, q);
            lemma_common(p.drop_last(), q.drop_last());
        }
        if text::same_text(&a[i], &b[j]) {
            left = cell(rows, i, j, Ghost(av), Ghost(bv)) + 1;
        } else {
            let above: usize = cell(rows, i, j + 1, Ghost(av), Ghost(bv));
            if above > left {
                left = above;
            }
        }
        row.push(left);
        j = j + 1;
    }
    row
}

/// Every row, from the first line of `a` to all of them.
fn table(a: &Vec<String>, b: &Vec<String>) -> (rows: Vec<Vec<usize>>)
    ensures
        rows@.len() == a@.len(),
        are_rows(rows@, a.deep_view(), b.deep_view()),
{
    let mut rows: Vec<Vec<usize>> = Vec::new();
    while rows.len() < a.len()
        invariant
            rows@.len() <= a@.len(),
            are_rows(rows@, a.deep_view(), b.deep_view()),
        decreases a.len() - rows.len(),
    {
        let row = next_row(a, b, &rows);
        rows.push(row);
    }
    rows
}

/// The diff from the lines `a` to the lines `b`.
pub fn diff(a: &Vec<String>, b: &Vec<String>) -> (diff: Vec<DiffLine>)
    ensures
        diff.deep_view() == diff_of(a.deep_view(), b.deep_view()),
{
    let ghost av = a.deep_view();
    let ghost bv = b.deep_view();
    let rows = table(a, b);
    // The lines of the diff, last one first.
    let mut back: Vec<DiffLine> = Vec::new();
    let mut i: usize = a.len();
    let mut j: usize = b.len();
    proof {
        assert(av.take(i as int) =~= av);
        assert(bv.take(j as int) =~= bv);
        assert(diff_of(av, bv) + back.deep_view().reverse() =~= diff_of(av, bv));
    }
    while i > 0 || j > 0
        invariant
            i <= a@.len(),
            j <= b@.len(),
            av == a.deep_view(),
            bv == b.deep_view(),
            rows@.len() == a@.len(),
            are_rows(rows@, av, bv),
            diff_of(av.take(i as int), bv.take(j as int)) + back.deep_view().reverse() == diff_of(av, bv),
        decreases i + j,
    {
        let ghost p = av.take(i as int);
        let ghost q = bv.take(j as int);
        let ghost rest = back.deep_view();
        proof {
            if i > 0 {
                assert(p.drop_last() =~= av.take(i - 1));
                assert(p.last() == av[i - 1] && av[i - 1] == a@[i - 1]@);
            }
            if j > 0 {
                assert(q.drop_last() =~= bv.take(j - 1));
                assert(q.last() == bv[j - 1] && bv[j - 1] == b@[j - 1]@);
            }
        }
        if i > 0 && j > 0 && text::same_text(&a[i - 1], &b[j - 1]) {
            back.push(DiffLine { op: DiffOp::Kept, text: a[i - 1].clone() });
            i = i - 1;
            j = j - 1;
        } else if j > 0 && (i == 0 || cell(&rows, i, j - 1, Ghost(av), Ghost(bv)) >= cell(&rows, i - 1, j, Ghost(av), Ghost(bv))) {
            back.push(DiffLine { op: DiffOp::Added, text: b[j - 1].clone() });
            j = j - 1;
        } else {
            back.push(DiffLine { op: DiffOp::Removed, text: a[i - 1].clone() });
            i = i - 1;
        }
        proof {
            let new = back.deep_view().last();
            let shorter = diff_of(av.take(i as int), bv.take(j as int));
            assert(back.deep_view() =~= rest.push(new));
            assert(diff_of(p, q) == shorter.push(new));
            assert(shorter + rest.push(new).reverse() =~= shorter.push(new) + rest.reverse());
        }
    }
    proof {
        assert(diff_of(av.take(0), bv.take(0)) =~= Seq::empty());
        assert(diff_of(av.take(0), bv.take(0)) + back.deep_view().reverse() =~= back.deep_view().reverse());
    }
    let mut out: Vec<DiffLine> = Vec::new();
    let ghost all = back.deep_view();
    let mut n: usize = back.len();
    proof {
        assert(out.deep_view() + all.reverse() =~= all.reverse());
        assert(all.take(n as int) =~= all);
    }
    while n > 0
        invariant
            n == back@.len(),
            back.deep_view() == all.take(n as int),
            n <= all.len(),
            out.deep_view() + all.take(n as int).reverse() == all.reverse(),
        decreases n,
    {
        let ghost before = out.deep_view();
        let ghost held = back.deep_view();
        if let Some(line) = back.pop() {
            let ghost model = line@;
            out.push(line);
            proof {
                assert(model == held.last());
                assert(back.deep_view() =~= held.drop_last());
                assert(held.drop_last() =~= all.take(n - 1));
                assert(out.deep_view() =~= before.push(model));
                assert(before + held.reverse() =~= before.push(model) + held.drop_last().reverse());
            }
        }
        n = n - 1;
    }
    proof {
        assert(out.deep_view() + all.take(0).reverse() =~= out.deep_view());
    }
    out
}

// ----- what lines are -----

/// The lines written out, each ended by a line feed.
pub open spec fn written_out(lines: Seq<Seq<char>>) -> Seq<char>
    decreases lines.len(),
{
    if lines.len() == 0 {
        Seq::empty()
    } else {
        lines[0].push('\n') + written_out(lines.skip(1))
    }
}

proof fn lemma_no_feed(s: Seq<char>, i: int)
    requires
        0 <= i <= s.len(),
    ensures
        forall|j: int| i <= j < refs::find_char(s, '\n', i) ==> s[j] != '\n',
        refs::find_char(s, '\n', i) < s.len() ==> s[refs::find_char(s, '\n', i)] == '\n',
    decreases s.len() - i,
{
    if i < s.len() && s[i] != '\n' {
        lemma_no_feed(s, i + 1);
    }
}

proof fn lemma_written_out(s: Seq<char>, i: int)
    requires
        0 <= i <= s.len(),
    ensures
        ({
            let lines = lines_from(s, i);
            let rest = s.skip(i);
            &&& forall|k: int, j: int|
                0 <= k < lines.len() && 0 <= j < lines[k].len() ==> #[trigger] lines[k][j] != '\n'
            &&& written_out(lines) == (if rest.len() == 0 || rest.last() == '\n' {
                rest
            } else {
                rest.push('\n')
            })
        }),
    decreases s.len() - i,
{
    let lines = lines_from(s, i);
    let end = refs::find_char(s, '\n', i);
    lemma_find_char(s, '\n', i);
    lemma_no_feed(s, i);
    let rest = s.skip(i);
    if i == s.len() {
        assert(rest =~= Seq::empty());
    } else if end < s.len() {
        let line = s.subrange(i, end);
        let below = lines_from(s, end + 1);
        lemma_written_out(s, end + 1);
        assert(lines.skip(1) =~= below);
        assert(lines[0] == line);
        assert(line.push('\n') + s.skip(end + 1) =~= rest);
        assert forall|k: int, j: int| 0 <= k < lines.len() && 0 <= j < lines[k].len() implies #[trigger] lines[k][j]
            != '\n' by {
            if k == 0 {
                assert(line[j] == s[i + j]);
            } else {
                assert(lines[k] == below[k - 1]);
            }
        }
        if s.skip(end + 1).len() > 0 {
            assert(rest.last() == s.skip(end + 1).last());
            assert(line.push('\n') + s.skip(end + 1).push('\n') =~= rest.push('\n'));
        } else {
            assert(rest.last() == s[end]);
        }
    } else {
        let line = s.subrange(i, s.len() as int);
        assert(line =~= rest);
        assert(lines[0] == line);
        assert(lines.skip(1) =~= Seq::empty());
        assert(written_out(lines.skip(1)) =~= Seq::<char>::empty());
        assert(written_out(lines) == line.push('\n') + written_out(lines.skip(1)));
        assert(written_out(lines) =~= rest.push('\n'));
        assert(rest.last() == s[s.len() - 1]);
        assert forall|k: int, j: int| 0 <= k < lines.len() && 0 <= j < lines[k].len() implies #[trigger] lines[k][j]
            != '\n' by {
            assert(line[j] == s[i + j]);
        }
    }
}

/// The lines of a text are the text, cut at its line feeds: none holds one, and written out with one behind
/// each they are the text again, ended by a line feed where it was not.
pub proof fn law_lines_are_the_text(s: Seq<char>)
    ensures
        forall|k: int, j: int|
            0 <= k < lines_of(s).len() && 0 <= j < lines_of(s)[k].len() ==> #[trigger] lines_of(s)[k][j] != '\n',
        written_out(lines_of(s)) == (if s.len() == 0 || s.last() == '\n' {
            s
        } else {
            s.push('\n')
        }),
{
    lemma_written_out(s, 0);
    assert(s.skip(0) =~= s);
}

} // verus!
