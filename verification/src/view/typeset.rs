//! How a chain of stages is laid out: its two shapes, and where its captions
//! break.
//!
//! How wide a text comes out is known only where it is drawn. Here it is a table
//! of what fits.

use vstd::prelude::*;
use crate::text::{chars_of, slice};

verus! {

/// Below this width the stages stand in rows rather than side by side: four
/// columns stop being legible long before they stop fitting.
pub const WIDE_AT: i32 = 560;

/// Caption lines below a column.
pub const SUB_LINES: i32 = 2;

/// A column down to its value: cap, bar and value, with the space between them.
pub const COL_BASE_H: i32 = 70;

pub const LINE_H: i32 = 14;

/// The line that says a stage is the limit.
pub const MARK_H: i32 = 18;

/// What stands below the captions where no stage is marked.
pub const FOOT_H: i32 = 4;

pub const ROW_H: i32 = 46;

pub const ROWS_PAD: i32 = 10;

pub open spec fn columns_high(marked: bool) -> int {
    COL_BASE_H + SUB_LINES * LINE_H + (if marked {
        MARK_H as int
    } else {
        FOOT_H as int
    })
}

pub open spec fn rows_high(stages: nat) -> int {
    stages * ROW_H + 2 * ROWS_PAD
}

/// How high a chain stands in a given width.
pub fn content_height(stages: usize, marked: bool, width: i32) -> (r: i32)
    requires
        rows_high(stages as nat) <= i32::MAX,
    ensures
        r == (if width >= WIDE_AT {
            columns_high(marked)
        } else {
            rows_high(stages as nat)
        }),
{
    if width >= WIDE_AT {
        let foot: i32 = if marked {
            MARK_H
        } else {
            FOOT_H
        };
        COL_BASE_H + SUB_LINES * LINE_H + foot
    } else {
        assert(stages as int <= i32::MAX);
        let n: i32 = stages as i32;
        n * ROW_H + 2 * ROWS_PAD
    }
}

/// How many entries hold before the first that does not.
pub open spec fn leading(s: Seq<bool>) -> nat
    decreases s.len(),
{
    if s.len() == 0 || !s[0] {
        0
    } else {
        1 + leading(s.skip(1))
    }
}

proof fn lemma_leading(s: Seq<bool>, n: int)
    requires
        0 <= n <= s.len(),
        forall|i: int| 0 <= i < n ==> #[trigger] s[i],
        n < s.len() ==> !s[n],
    ensures
        leading(s) == n,
    decreases s.len(),
{
    if n > 0 {
        assert(s[0]);
        assert forall|i: int| 0 <= i < n - 1 implies #[trigger] s.skip(1)[i] by {
            assert(s[i + 1]);
        }
        lemma_leading(s.skip(1), n - 1);
    }
}

proof fn lemma_leading_bound(s: Seq<bool>)
    ensures
        leading(s) <= s.len(),
    decreases s.len(),
{
    if s.len() > 0 && s[0] {
        lemma_leading_bound(s.skip(1));
    }
}

fn count_leading(v: &Vec<bool>, from: usize) -> (r: usize)
    requires
        from <= v@.len(),
    ensures
        r == leading(v@.skip(from as int)),
        from + r <= v@.len(),
{
    let mut n: usize = from;
    while n < v.len() && v[n]
        invariant
            from <= n <= v@.len(),
            forall|i: int| from <= i < n ==> #[trigger] v@[i],
        decreases v@.len() - n,
    {
        n += 1;
    }
    proof {
        let s = v@.skip(from as int);
        assert forall|i: int| 0 <= i < n - from implies #[trigger] s[i] by {
            assert(v@[from + i]);
        }
        lemma_leading(s, n - from);
    }
    n - from
}

pub const ELLIPSIS: char = '\u{2026}';

/// A text cut to what fits. `prefixes` says of each prefix, from one character
/// on, whether it fits with the ellipsis behind it.
pub open spec fn fitted(s: Seq<char>, whole: bool, prefixes: Seq<bool>) -> Seq<char> {
    if whole {
        s
    } else {
        s.take(leading(prefixes) as int).push(ELLIPSIS)
    }
}

pub fn fit(s: &str, whole: bool, prefixes: &Vec<bool>) -> (r: String)
    requires
        prefixes@.len() == s@.len(),
    ensures
        r@ == fitted(s@, whole, prefixes@),
{
    let cs = chars_of(s);
    if whole {
        return slice(&cs, 0, cs.len());
    }
    let n = count_leading(prefixes, 0);
    assert(prefixes@.skip(0) =~= prefixes@);
    let mut out = slice(&cs, 0, n);
    assert(s@.subrange(0, n as int) =~= s@.take(n as int));
    out.push(ELLIPSIS);
    out
}

/// The words of one line, `from` up to `to`. A line with `cut` set ran out of
/// room: it holds everything that was left, and is shortened to fit.
#[derive(Debug, Clone, Copy, PartialEq, Eq, Structural)]
pub struct Span {
    pub from: usize,
    pub to: usize,
    pub cut: bool,
}

pub open spec fn rows_of(v: Seq<Vec<bool>>) -> Seq<Seq<bool>> {
    Seq::new(v.len(), |i: int| v[i]@)
}

/// Whether a table says of each word on, and of each count of words from there,
/// whether they fit on a line together.
pub open spec fn is_table(t: Seq<Seq<bool>>) -> bool {
    forall|i: int| 0 <= i < t.len() ==> (#[trigger] t[i]).len() == t.len() - i
}

/// How many words a line takes: the first in any case, and then as many as fit.
pub open spec fn line_words(row: Seq<bool>) -> nat {
    1 + leading(row.skip(1))
}

pub open spec fn broken(t: Seq<Seq<bool>>, from: int, lines: nat) -> Seq<Span>
    decreases lines,
{
    if from >= t.len() || lines == 0 {
        Seq::empty()
    } else {
        let end = from + line_words(t[from]);
        if lines == 1 && end < t.len() {
            seq![Span { from: from as usize, to: t.len() as usize, cut: true }]
        } else {
            seq![Span { from: from as usize, to: end as usize, cut: false }] + broken(
                t,
                end,
                (lines - 1) as nat,
            )
        }
    }
}

/// Greedy word wrap to at most `lines` lines.
pub fn wrap(table: &Vec<Vec<bool>>, lines: usize) -> (r: Vec<Span>)
    requires
        is_table(rows_of(table@)),
    ensures
        r@ == broken(rows_of(table@), 0, lines as nat),
{
    let ghost t = rows_of(table@);
    let total: usize = table.len();
    let mut out: Vec<Span> = Vec::new();
    let mut from: usize = 0;
    let mut left: usize = lines;
    assert(out@ + broken(t, 0, lines as nat) =~= broken(t, 0, lines as nat));
    while from < total && left > 0
        invariant
            from <= total,
            total == table@.len(),
            total == t.len(),
            t == rows_of(table@),
            is_table(t),
            out@ + broken(t, from as int, left as nat) == broken(t, 0, lines as nat),
        decreases left,
    {
        assert(t[from as int] == table@[from as int]@);
        assert(t[from as int].len() == total - from);
        let more = count_leading(&table[from], 1);
        let end: usize = from + 1 + more;
        let ghost before = out@;
        if left == 1 && end < total {
            out.push(Span { from, to: total, cut: true });
            assert(broken(t, from as int, 1) =~= seq![Span { from, to: total, cut: true }]);
            assert(out@ =~= broken(t, 0, lines as nat));
            return out;
        }
        out.push(Span { from, to: end, cut: false });
        assert(before + broken(t, from as int, left as nat) =~= out@ + broken(
            t,
            end as int,
            (left - 1) as nat,
        ));
        from = end;
        left -= 1;
    }
    assert(broken(t, from as int, left as nat) =~= Seq::empty());
    assert(out@ =~= broken(t, 0, lines as nat));
    out
}

/// Wrapping drops no word and repeats none: the lines follow on each other from
/// the first word to the last, in at most the lines there were.
pub proof fn no_word_is_dropped(t: Seq<Seq<bool>>, from: int, lines: nat)
    requires
        is_table(t),
        0 <= from < t.len() <= usize::MAX,
        lines > 0,
    ensures
        ({
            let s = broken(t, from, lines);
            &&& 0 < s.len() <= lines
            &&& s[0].from == from
            &&& s.last().to == t.len()
            &&& forall|i: int| 0 <= i < s.len() ==> (#[trigger] s[i]).from < s[i].to
            &&& forall|i: int, j: int|
                0 <= i && j == i + 1 && j < s.len() ==> (#[trigger] s[i]).to == (
                #[trigger] s[j]).from
        }),
    decreases lines,
{
    let s = broken(t, from, lines);
    let end = from + line_words(t[from]);
    lemma_leading_bound(t[from].skip(1));
    assert(t[from].len() == t.len() - from);
    assert(end <= t.len());
    if end < t.len() && lines > 1 {
        no_word_is_dropped(t, end, (lines - 1) as nat);
        let rest = broken(t, end, (lines - 1) as nat);
        assert(s =~= seq![Span { from: from as usize, to: end as usize, cut: false }] + rest);
        assert(forall|i: int| 1 <= i < s.len() ==> s[i] == rest[i - 1]);
        assert(s.last() == rest.last());
    } else if end >= t.len() {
        assert(broken(t, end, (lines - 1) as nat) =~= Seq::empty());
        assert(s =~= seq![Span { from: from as usize, to: end as usize, cut: false }]);
    }
}

/// A text is shortened only where it does not fit, and then says so.
pub proof fn a_shortened_text_shows_it(s: Seq<char>, prefixes: Seq<bool>)
    requires
        prefixes.len() == s.len(),
    ensures
        fitted(s, true, prefixes) == s,
        fitted(s, false, prefixes).last() == ELLIPSIS,
        fitted(s, false, prefixes).len() <= s.len() + 1,
{
    lemma_leading_bound(prefixes);
}

} // verus!
