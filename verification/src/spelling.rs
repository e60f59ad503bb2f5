//! How texts are cut, joined, filled and lowered, and how numbers are spelled.

use vstd::prelude::*;
use crate::number::{dec, digit_char, digits_value};
use crate::text::{
    after_last, all_digits, cut_first, cut_last, filled, first_char, is_digit, is_white, joined,
    lemma_after_last, lemma_first_char_bound, lowered, padded, pieces, trimmed, trimmed_end,
    trimmed_start,
};

verus! {

/// A text that is cut at a mark is what stands before it, the mark, and what
/// follows; at the first one, or at the last.
pub proof fn a_cut_loses_only_the_mark(s: Seq<char>, c: char)
    ensures
        cut_first(s, c) is None <==> !s.contains(c),
        cut_last(s, c) is None <==> !s.contains(c),
        cut_first(s, c) matches Some((a, b)) ==> s == a + seq![c] + b && !a.contains(c),
        cut_last(s, c) matches Some((a, b)) ==> s == a + seq![c] + b && !b.contains(c),
{
    lemma_first_char_bound(s, c);
    lemma_after_last(s, c);
    let n = first_char(s, c);
    let m = after_last(s, c);
    if s.contains(c) {
        let i = choose|i: int| 0 <= i < s.len() && s[i] == c;
        assert(n <= i);
        assert(m > i);
    }
    if n < s.len() {
        assert(s.contains(s[n]));
        assert(s.take(n) + seq![c] + s.skip(n + 1) =~= s);
        if s.take(n).contains(c) {
            let i = choose|i: int| 0 <= i < n && s.take(n)[i] == c;
            assert(s[i] == c);
        }
    }
    if m > 0 {
        assert(s.contains(s[m - 1]));
        assert(s.take(m - 1) + seq![c] + s.skip(m) =~= s);
        if s.skip(m).contains(c) {
            let i = choose|i: int| 0 <= i < s.skip(m).len() && s.skip(m)[i] == c;
            assert(s[m + i] == c);
        }
    }
}

proof fn lemma_joined_front(x: Seq<char>, v: Seq<Seq<char>>, sep: Seq<char>)
    requires
        v.len() > 0,
    ensures
        joined(seq![x] + v, sep) == x + sep + joined(v, sep),
    decreases v.len(),
{
    let w = seq![x] + v;
    assert(w.last() == v.last());
    if v.len() == 1 {
        assert(w.drop_last() =~= seq![x]);
        assert(joined(seq![x], sep) == x);
        assert(joined(v, sep) == v[0] && v.last() == v[0]);
        assert(joined(w, sep) =~= x + sep + joined(v, sep));
    } else {
        assert(w.drop_last() =~= seq![x] + v.drop_last());
        lemma_joined_front(x, v.drop_last(), sep);
        assert(joined(w, sep) =~= x + sep + joined(v, sep));
    }
}

/// The pieces of a text, joined by what they were split at, are the text again,
/// and no piece holds it.
pub proof fn pieces_make_the_whole(s: Seq<char>, c: char)
    ensures
        pieces(s, c).len() > 0,
        joined(pieces(s, c), seq![c]) == s,
        forall|i: int| 0 <= i < pieces(s, c).len() ==> !(#[trigger] pieces(s, c)[i]).contains(c),
    decreases s.len(),
{
    lemma_first_char_bound(s, c);
    a_cut_loses_only_the_mark(s, c);
    let n = first_char(s, c);
    if n < s.len() {
        let rest = s.skip(n + 1);
        pieces_make_the_whole(rest, c);
        lemma_joined_front(s.take(n), pieces(rest, c), seq![c]);
        assert(pieces(s, c) =~= seq![s.take(n)] + pieces(rest, c));
        assert forall|i: int| 0 <= i < pieces(s, c).len() implies !(
        #[trigger] pieces(s, c)[i]).contains(c) by {
            if i > 0 {
                assert(pieces(s, c)[i] == pieces(rest, c)[i - 1]);
            }
        }
    } else {
        assert(pieces(s, c) =~= seq![s]);
    }
}

/// Trimming takes blanks off both ends, and nothing else.
pub proof fn trimming_takes_only_blanks(s: Seq<char>)
    ensures
        trimmed(s).len() > 0 ==> !is_white(trimmed(s)[0]) && !is_white(trimmed(s).last()),
        exists|a: int, b: int|
            0 <= a <= b <= s.len() && trimmed(s) == #[trigger] s.subrange(a, b) && (forall|i: int|
                0 <= i < a ==> is_white(#[trigger] s[i])) && (forall|i: int|
                b <= i < s.len() ==> is_white(#[trigger] s[i])),
{
    let a = lemma_start(s);
    let t = trimmed_start(s);
    let b = lemma_end(t);
    assert(trimmed(s) =~= s.subrange(a, a + b));
    assert forall|i: int| a + b <= i < s.len() implies is_white(#[trigger] s[i]) by {
        assert(t[i - a] == s[i]);
    }
}

proof fn lemma_start(s: Seq<char>) -> (a: int)
    ensures
        0 <= a <= s.len(),
        trimmed_start(s) == s.skip(a),
        forall|i: int| 0 <= i < a ==> is_white(#[trigger] s[i]),
        a < s.len() ==> !is_white(s[a]),
    decreases s.len(),
{
    if s.len() > 0 && is_white(s[0]) {
        let t = s.skip(1);
        let a = lemma_start(t);
        assert(t.skip(a) =~= s.skip(a + 1));
        assert forall|i: int| 0 <= i < a + 1 implies is_white(#[trigger] s[i]) by {
            if i > 0 {
                assert(t[i - 1] == s[i]);
            }
        }
        a + 1
    } else {
        assert(s.skip(0) =~= s);
        0
    }
}

proof fn lemma_end(s: Seq<char>) -> (b: int)
    ensures
        0 <= b <= s.len(),
        trimmed_end(s) == s.take(b),
        forall|i: int| b <= i < s.len() ==> is_white(#[trigger] s[i]),
        b > 0 ==> !is_white(s[b - 1]),
    decreases s.len(),
{
    if s.len() > 0 && is_white(s.last()) {
        let t = s.drop_last();
        let b = lemma_end(t);
        assert(t.take(b) =~= s.take(b));
        assert forall|i: int| b <= i < s.len() implies is_white(#[trigger] s[i]) by {
            if i < t.len() {
                assert(t[i] == s[i]);
            }
        }
        b
    } else {
        assert(s.take(s.len() as int) =~= s);
        s.len() as int
    }
}

/// A blank in a form is filled with its word, and the rest stays as it is.
pub proof fn a_form_keeps_its_words(a: Seq<char>, x: Seq<char>, t: Seq<char>, more: Seq<Seq<char>>)
    requires
        !a.contains('{'),
    ensures
        filled(a + seq!['{', '}'] + t, seq![x] + more) == a + x + filled(t, more),
        filled(a, more) == a,
    decreases a.len(),
{
    let s = a + seq!['{', '}'] + t;
    let args = seq![x] + more;
    assert(args[0] == x);
    assert(args.skip(1) =~= more);
    if a.len() == 0 {
        assert(s[0] == '{' && s[1] == '}');
        assert(s.skip(2) =~= t);
        assert(filled(s, args) =~= a + x + filled(t, more));
    } else {
        let b = a.skip(1);
        assert(a.contains(a[0]));
        assert(s[0] == a[0]);
        if b.contains('{') {
            let i = choose|i: int| 0 <= i < b.len() && b[i] == '{';
            assert(a[i + 1] == '{');
        }
        a_form_keeps_its_words(b, x, t, more);
        assert(s.skip(1) =~= b + seq!['{', '}'] + t);
        assert(filled(s, args) =~= a + x + filled(t, more));
        assert(filled(a, more) =~= a);
    }
}

/// A number is spelled in digits that read as it, without a zero in front.
pub proof fn a_number_reads_as_it_is_spelled(n: nat)
    ensures
        digits_value(dec(n)) == n,
        all_digits(dec(n)),
        dec(n).len() > 0,
        n > 0 ==> dec(n)[0] != '0',
    decreases n,
{
    if n < 10 {
        assert(dec(n).last() == digit_char(n));
        assert(dec(n).drop_last() =~= Seq::<char>::empty());
        assert(digits_value(Seq::<char>::empty()) == 0);
    } else {
        a_number_reads_as_it_is_spelled(n / 10);
        let d = dec(n / 10);
        assert(dec(n).drop_last() =~= d);
        assert(dec(n).last() == digit_char(n % 10));
        assert forall|i: int| 0 <= i < dec(n).len() implies is_digit(#[trigger] dec(n)[i]) by {
            if i < d.len() {
                assert(dec(n)[i] == d[i]);
            }
        }
        assert(dec(n)[0] == d[0]);
    }
}

/// Lowering changes capitals to small letters, and nothing else.
pub proof fn lowering_changes_only_capitals(s: Seq<char>)
    ensures
        lowered(s).len() == s.len(),
        forall|i: int|
            0 <= i < s.len() ==> (if 'A' <= s[i] <= 'Z' {
                #[trigger] lowered(s)[i] as int == s[i] as int + 32
            } else {
                lowered(s)[i] == s[i]
            }),
        lowered(lowered(s)) == lowered(s),
{
    assert(lowered(lowered(s)) =~= lowered(s));
}

/// Padding puts blanks in front, up to the width.
pub proof fn padding_stands_in_front(s: Seq<char>, width: nat)
    ensures
        padded(s, width).len() == (if s.len() < width {
            width
        } else {
            s.len()
        }),
        padded(s, width).skip(padded(s, width).len() - s.len()) == s,
        forall|i: int|
            0 <= i < padded(s, width).len() - s.len() ==> #[trigger] padded(s, width)[i] == ' ',
{
    assert(padded(s, width).skip(padded(s, width).len() - s.len()) =~= s);
}

} // verus!
