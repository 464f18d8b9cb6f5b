//! Taking texts apart: what is cut off, what is left, and in what order.

use crate::laws::conf::lemma_pieces_cons;
use crate::laws::text::{blank, lemma_span_of, one_line};
use crate::number::{all_digits, decimal, is_digit, lemma_decimal, parsed, value};
use crate::text::{ascii_lowercase, before, byte_len, byte_prefix, halves, is_space, lines};
use crate::text::{occurs, occurs_at, or_empty, pieces, starts, strip, strip_back, strip_front};
use crate::text::{strip_suffixes, trimmed, width, without_cr, words, CharClass};
use vstd::prelude::*;

verus! {

// ---------------------------------------------------------------- cutting off ends

/// Every character of `s` is of the class `k`.
pub open spec fn all_of(s: Seq<char>, k: CharClass) -> bool {
    forall|i: int| 0 <= i < s.len() ==> k.contains(#[trigger] s[i])
}

proof fn lemma_front(a: Seq<char>, s: Seq<char>, k: CharClass)
    requires
        all_of(a, k),
        s.len() > 0 ==> !k.contains(s[0]),
    ensures
        strip_front(a + s, k) == s,
    decreases a.len(),
{
    let t = a + s;
    if a.len() == 0 {
        assert(t =~= s);
    } else {
        assert(t[0] == a[0]);
        assert(t.skip(1) =~= a.skip(1) + s);
        assert forall|i: int| 0 <= i < a.skip(1).len() implies k.contains(
            #[trigger] a.skip(1)[i],
        ) by {
            assert(a.skip(1)[i] == a[i + 1]);
        }
        lemma_front(a.skip(1), s, k);
    }
}

/// Cutting off the end takes everything of the class that the text ends with, and nothing else.
pub proof fn law_end_is_cut_off(s: Seq<char>, b: Seq<char>, k: CharClass)
    requires
        all_of(b, k),
        s.len() > 0 ==> !k.contains(s.last()),
    ensures
        strip_back(s + b, k) == s,
    decreases b.len(),
{
    let t = s + b;
    if b.len() == 0 {
        assert(t =~= s);
    } else {
        assert(t.last() == b.last());
        assert(t.drop_last() =~= s + b.drop_last());
        assert forall|i: int| 0 <= i < b.drop_last().len() implies k.contains(
            #[trigger] b.drop_last()[i],
        ) by {
            assert(b.drop_last()[i] == b[i]);
        }
        law_end_is_cut_off(s, b.drop_last(), k);
    }
}

/// Cutting off both ends leaves what stands between them: a text that neither starts nor ends
/// with a character of the class.
pub proof fn law_ends_are_cut_off(a: Seq<char>, s: Seq<char>, b: Seq<char>, k: CharClass)
    requires
        all_of(a, k),
        all_of(b, k),
        s.len() > 0 ==> !k.contains(s[0]) && !k.contains(s.last()),
    ensures
        strip(a + s + b, k) == s,
{
    if s.len() == 0 {
        let all = a + s + b;
        assert forall|i: int| 0 <= i < all.len() implies k.contains(#[trigger] all[i]) by {
            if i < a.len() {
                assert(all[i] == a[i]);
            } else {
                assert(all[i] == b[i - a.len()]);
            }
        }
        lemma_front(all, seq![], k);
        assert(all + Seq::<char>::empty() =~= all);
        assert(s =~= seq![]);
    } else {
        assert(a + s + b =~= a + (s + b));
        assert((s + b)[0] == s[0]);
        lemma_front(a, s + b, k);
        law_end_is_cut_off(s, b, k);
    }
}

/// White space round a text is trimmed, and nothing else.
pub proof fn law_trimmed(a: Seq<char>, s: Seq<char>, b: Seq<char>)
    requires
        blank(a),
        blank(b),
        s.len() > 0 ==> !is_space(s[0]) && !is_space(s.last()),
    ensures
        trimmed(a + s + b) == s,
{
    law_ends_are_cut_off(a, s, b, CharClass::Space);
}

/// A number before a unit is left where the unit is cut off.
pub proof fn law_unit_is_cut_off(n: nat, unit: Seq<char>)
    requires
        unit.len() > 0,
        !is_digit(unit.last()),
    ensures
        strip_suffixes(decimal(n) + unit, unit) == decimal(n),
        strip_suffixes(decimal(n), unit) == decimal(n),
{
    let d = decimal(n);
    let s = d + unit;
    lemma_decimal(n);
    assert(s.skip(s.len() - unit.len()) =~= unit);
    assert(s.take(s.len() - unit.len()) =~= d);
    if unit.len() <= d.len() {
        let t = d.skip(d.len() - unit.len());
        assert(t.last() == d.last());
        assert(is_digit(d[d.len() - 1]));
        assert(t != unit);
    }
    assert(strip_suffixes(d, unit) == d);
    assert(strip_suffixes(s, unit) == strip_suffixes(d, unit));
}

/// Every copy of a suffix at the end of a text is cut off, one after the other, and a text that
/// does not end with it stays.
pub proof fn law_suffixes_are_cut_off(s: Seq<char>, suffix: Seq<char>)
    requires
        suffix.len() > 0,
    ensures
        strip_suffixes(s + suffix, suffix) == strip_suffixes(s, suffix),
        s.len() < suffix.len() || s.skip(s.len() - suffix.len()) != suffix ==> strip_suffixes(
            s,
            suffix,
        ) == s,
{
    let t = s + suffix;
    assert(t.skip(t.len() - suffix.len()) =~= suffix);
    assert(t.take(t.len() - suffix.len()) =~= s);
}

/// One carriage return at the end of a line is dropped, and nothing else.
pub proof fn law_carriage_return(s: Seq<char>)
    ensures
        without_cr(s.push('\r')) == s,
        s.len() > 0 && s.last() != '\r' ==> without_cr(s) == s,
        s.len() == 0 ==> without_cr(s) == s,
{
    assert(s.push('\r').drop_last() =~= s);
}

// ---------------------------------------------------------------- pieces, halves, words, lines

/// The pieces of a text are those of what stands before a separator, and then those of what
/// stands after it; a text without the separator is one piece.
pub proof fn law_pieces(a: Seq<char>, c: char, b: Seq<char>)
    requires
        !a.contains(c),
    ensures
        pieces(a, c) == seq![a],
        pieces(a + seq![c] + b, c) == seq![a] + pieces(b, c),
        before(a + seq![c] + b, c) == a,
        before(a, c) == a,
        halves(a + seq![c] + b, c) == Some((a, b)),
        halves(a, c) is None,
{
    let k = CharClass::Only(c);
    assert(a + seq![c] + b =~= a + (seq![c] + b));
    lemma_pieces_cons(a, c, b);
    assert forall|i: int| 0 <= i < a.len() implies !k.contains(#[trigger] a[i]) by {
        assert(a.contains(a[i]));
    }
    lemma_span_of(a, seq![], k);
    assert(a + Seq::<char>::empty() =~= a);
    assert(a.take(a.len() as int) =~= a);
    lemma_span_of(a, seq![c] + b, k);
    assert((a + (seq![c] + b)).take(a.len() as int) =~= a);
}

/// No character of `s` is white space.
pub open spec fn solid(s: Seq<char>) -> bool {
    forall|i: int| 0 <= i < s.len() ==> !is_space(#[trigger] s[i])
}

/// The words of a text: white space before a word is passed over, and a word reaches to the next
/// white space or the end.
pub proof fn law_words(a: Seq<char>, w: Seq<char>, rest: Seq<char>)
    requires
        blank(a),
        solid(w),
        w.len() > 0,
        rest.len() > 0 ==> is_space(rest[0]),
    ensures
        words(a + w + rest) == seq![w] + words(rest),
        words(a) == Seq::<Seq<char>>::empty(),
    decreases a.len(),
{
    let s = a + w + rest;
    let k = CharClass::Space;
    if a.len() == 0 {
        assert(s =~= w + rest);
        assert(s[0] == w[0]);
        assert forall|i: int| 0 <= i < w.len() implies !k.contains(#[trigger] w[i]) by {}
        lemma_span_of(w, rest, k);
        assert(s.take(w.len() as int) =~= w);
        assert(s.skip(w.len() as int) =~= rest);
    } else {
        let b = a.skip(1);
        assert(k.contains(a[0]));
        assert(s[0] == a[0]);
        assert(s.skip(1) =~= b + w + rest);
        assert forall|i: int| 0 <= i < b.len() implies k.contains(#[trigger] b[i]) by {
            assert(b[i] == a[i + 1]);
        }
        law_words(b, w, rest);
    }
}

/// The words with one space between them.
pub open spec fn spaced(ws: Seq<Seq<char>>) -> Seq<char>
    decreases ws.len(),
{
    if ws.len() == 0 {
        seq![]
    } else if ws.len() == 1 {
        ws[0]
    } else {
        ws[0] + (seq![' '] + spaced(ws.skip(1)))
    }
}

/// Words: none is empty, none holds white space.
pub open spec fn are_words(ws: Seq<Seq<char>>) -> bool {
    forall|i: int| 0 <= i < ws.len() ==> (#[trigger] ws[i]).len() > 0 && solid(ws[i])
}

/// Words that are written with spaces between them are read back.
pub proof fn law_words_of_spaced(ws: Seq<Seq<char>>)
    requires
        are_words(ws),
    ensures
        words(spaced(ws)) == ws,
    decreases ws.len(),
{
    let none = Seq::<char>::empty();
    if ws.len() == 0 {
        assert(words(none) =~= ws);
    } else {
        let w = ws[0];
        assert(w.len() > 0 && solid(w));
        if ws.len() == 1 {
            assert(none + w + none =~= w);
            law_words(none, w, none);
            assert(words(none) =~= Seq::<Seq<char>>::empty());
            assert(seq![w] + words(none) =~= ws);
        } else {
            let more = ws.skip(1);
            assert forall|i: int| 0 <= i < more.len() implies (#[trigger] more[i]).len() > 0
                && solid(more[i]) by {
                assert(more[i] == ws[i + 1]);
            }
            law_words_of_spaced(more);
            let rest = seq![' '] + spaced(more);
            assert(none + w + rest =~= w + rest);
            law_words(none, w, rest);
            assert(is_space(' '));
            assert(rest.skip(1) =~= spaced(more));
            assert(words(rest) == words(spaced(more)));
            assert(seq![w] + more =~= ws);
        }
    }
}

/// A text without a newline is one line, and the empty text is none.
pub proof fn law_one_line(s: Seq<char>)
    requires
        one_line(s),
    ensures
        lines(s) == (if s.len() == 0 {
            Seq::<Seq<char>>::empty()
        } else {
            seq![s]
        }),
{
    let k = CharClass::Only('\n');
    assert forall|i: int| 0 <= i < s.len() implies !k.contains(#[trigger] s[i]) by {
        assert(s.contains(s[i]));
    }
    lemma_span_of(s, seq![], k);
    assert(s + Seq::<char>::empty() =~= s);
}

/// A text starts with another one exactly where it is that text and something after it, and holds
/// it exactly where it is that text with something before and after it.
pub proof fn law_starts_and_occurs(a: Seq<char>, n: Seq<char>, b: Seq<char>, s: Seq<char>)
    ensures
        starts(n + b, n),
        starts(s, n) ==> s == n + s.skip(n.len() as int),
        occurs(a + n + b, n),
        occurs(s, n) ==> exists|i: int|
            0 <= i <= s.len() && s == #[trigger] s.take(i) + n + s.skip(i + n.len()),
        or_empty(Some(s)) == s,
        or_empty(None) == Seq::<char>::empty(),
{
    assert((n + b).take(n.len() as int) =~= n);
    if starts(s, n) {
        assert(s =~= s.take(n.len() as int) + s.skip(n.len() as int));
    }
    let t = a + n + b;
    let k = a.len() as int;
    assert(t.subrange(k, k + n.len()) =~= n);
    assert(occurs_at(t, n, k));
    if occurs(s, n) {
        let i = choose|i: int| occurs_at(s, n, i);
        assert(s =~= s.take(i) + s.subrange(i, i + n.len()) + s.skip(i + n.len()));
    }
}

// ---------------------------------------------------------------- numbers

proof fn lemma_value_zero(d: Seq<char>)
    ensures
        value(seq!['0'] + d) == value(d),
    decreases d.len(),
{
    let z = seq!['0'] + d;
    if d.len() == 0 {
        assert(z =~= seq!['0']);
        assert(z.drop_last() =~= seq![]);
        assert(value(z.drop_last()) == 0);
    } else {
        assert(z.drop_last() =~= seq!['0'] + d.drop_last());
        assert(z.last() == d.last());
        lemma_value_zero(d.drop_last());
    }
}

/// A plus sign before a number and zeros at its start make no difference; a text with anything
/// but digits after its sign is no number, nor is one without digits; a number over the limit is
/// none either.
pub proof fn law_parsed(d: Seq<char>, n: nat, max: nat)
    ensures
        all_digits(d) && d.len() > 0 ==> parsed(seq!['+'] + d, max) == parsed(d, max),
        all_digits(d) && d.len() > 0 ==> parsed(seq!['0'] + d, max) == parsed(d, max),
        d.len() > 0 && d[0] != '+' && !all_digits(d) ==> parsed(d, max) is None,
        !all_digits(d) ==> parsed(seq!['+'] + d, max) is None,
        d.len() == 0 ==> parsed(d, max) is None,
        n > max ==> parsed(decimal(n), max) is None,
{
    let plus = seq!['+'] + d;
    let zero = seq!['0'] + d;
    assert(plus.skip(1) =~= d);
    lemma_value_zero(d);
    if all_digits(d) && d.len() > 0 {
        assert(is_digit(d[0]));
        assert forall|i: int| 0 <= i < zero.len() implies is_digit(#[trigger] zero[i]) by {
            if i > 0 {
                assert(zero[i] == d[i - 1]);
            }
        }
    }
    lemma_decimal(n);
    assert(is_digit(decimal(n)[0]));
}

/// The decimal notation of a number has no needless zero at its start.
pub proof fn law_no_leading_zero(n: nat)
    ensures
        n > 0 ==> decimal(n)[0] != '0',
        n == 0 ==> decimal(n) == seq!['0'],
    decreases n,
{
    if n >= 10 {
        law_no_leading_zero(n / 10);
        lemma_decimal(n / 10);
        assert(decimal(n)[0] == decimal(n / 10)[0]);
    }
}

/// Lower case is made character by character: a letter from `A` to `Z` becomes the one that
/// stands 32 after it, and nothing else changes.
pub proof fn law_ascii_lowercase(s: Seq<char>)
    ensures
        ascii_lowercase(s).len() == s.len(),
        forall|i: int|
            0 <= i < s.len() ==> if 'A' <= s[i] <= 'Z' {
                #[trigger] ascii_lowercase(s)[i] as u32 == s[i] as u32 + 32
            } else {
                ascii_lowercase(s)[i] == s[i]
            },
{
}

// ---------------------------------------------------------------- bytes

/// The first bytes of a text: what stands before a cut between two characters is taken as it is,
/// a text that is no longer than the cut as a whole; a cut through a character gives nothing.
pub proof fn law_byte_prefix(a: Seq<char>, b: Seq<char>, c: char, n: nat)
    ensures
        byte_prefix(a + b, byte_len(a)) == Some(a),
        n >= byte_len(a) ==> byte_prefix(a, n) == Some(a),
        byte_len(a) < n < byte_len(a) + width(c) ==> byte_prefix(a + seq![c] + b, n) is None,
    decreases a.len(),
{
    let none = Seq::<char>::empty();
    let s = a + seq![c] + b;
    if a.len() == 0 {
        assert(a =~= none);
        assert(s[0] == c);
    } else {
        let t = a.skip(1);
        let w = width(a[0]);
        assert((a + b).skip(1) =~= t + b);
        assert((a + b)[0] == a[0]);
        assert(s.skip(1) =~= t + seq![c] + b);
        assert(s[0] == a[0]);
        law_byte_prefix(t, b, c, if n >= w {
            (n - w) as nat
        } else {
            0
        });
        assert(seq![a[0]] + t =~= a);
    }
}

} // verus!
