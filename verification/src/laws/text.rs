//! Trimming, lines, and the length of text in bytes.

use crate::conf::unlines;
use crate::text::{byte_len, lemma_span_bound, lines, span, strip_back, strip_front};
use crate::text::{trimmed, width, without_cr, CharClass};
use vstd::prelude::*;

verus! {

/// `s` holds no newline.
pub open spec fn one_line(s: Seq<char>) -> bool {
    !s.contains('\n')
}

/// `s` is white space.
pub open spec fn blank(s: Seq<char>) -> bool {
    forall|i: int| 0 <= i < s.len() ==> CharClass::Space.contains(#[trigger] s[i])
}

/// What neither part holds, the whole does not hold.
pub proof fn lemma_lacks_add(a: Seq<char>, b: Seq<char>, c: char)
    requires
        !a.contains(c),
        !b.contains(c),
    ensures
        !(a + b).contains(c),
{
    let s = a + b;
    if s.contains(c) {
        let i = choose|i: int| 0 <= i < s.len() && s[i] == c;
        if i < a.len() {
            assert(a[i] == c);
        } else {
            assert(b[i - a.len()] == c);
        }
    }
}

/// What is left in front is the end of the text, and does not start with what was stripped.
pub proof fn lemma_strip_front(s: Seq<char>, k: CharClass)
    ensures
        strip_front(s, k).len() <= s.len(),
        strip_front(s, k) == s.skip(s.len() - strip_front(s, k).len()),
        strip_front(s, k).len() > 0 ==> !k.contains(strip_front(s, k)[0]),
    decreases s.len(),
{
    if s.len() > 0 && k.contains(s[0]) {
        let t = s.skip(1);
        lemma_strip_front(t, k);
        let r = strip_front(t, k);
        assert(t.skip(t.len() - r.len()) =~= s.skip(s.len() - r.len()));
    } else {
        assert(s.skip(0) =~= s);
    }
}

/// What is left in the back is the start of the text, and does not end with what was stripped.
pub proof fn lemma_strip_back(s: Seq<char>, k: CharClass)
    ensures
        strip_back(s, k).len() <= s.len(),
        strip_back(s, k) == s.take(strip_back(s, k).len() as int),
        strip_back(s, k).len() > 0 ==> !k.contains(strip_back(s, k).last()),
    decreases s.len(),
{
    if s.len() > 0 && k.contains(s.last()) {
        let t = s.drop_last();
        lemma_strip_back(t, k);
        let r = strip_back(t, k);
        assert(t.take(r.len() as int) =~= s.take(r.len() as int));
    } else {
        assert(s.take(s.len() as int) =~= s);
    }
}

/// What `strip_back` takes off is blank.
pub proof fn lemma_stripped_is_blank(s: Seq<char>)
    ensures
        strip_back(s, CharClass::Space).len() <= s.len(),
        blank(s.skip(strip_back(s, CharClass::Space).len() as int)),
    decreases s.len(),
{
    let k = CharClass::Space;
    if s.len() > 0 && k.contains(s.last()) {
        let t = s.drop_last();
        lemma_stripped_is_blank(t);
        let m = strip_back(s, k).len() as int;
        let w = s.skip(m);
        assert forall|i: int| 0 <= i < w.len() implies k.contains(#[trigger] w[i]) by {
            if i < w.len() - 1 {
                assert(w[i] == t.skip(m)[i]);
            }
        }
    }
}

/// Trimming once is enough.
pub proof fn law_trim_twice(s: Seq<char>)
    ensures
        trimmed(trimmed(s)) == trimmed(s),
{
    let k = CharClass::Space;
    let f = strip_front(s, k);
    let t = trimmed(s);
    lemma_strip_front(s, k);
    lemma_strip_back(f, k);
    if t.len() > 0 {
        assert(t[0] == f[0]);
    }
    assert(strip_front(t, k) == t);
    assert(strip_back(t, k) == t);
}

/// A text that starts with no white space still starts with the same character when trimmed.
pub proof fn lemma_trim_keeps_first(s: Seq<char>)
    requires
        s.len() > 0,
        !CharClass::Space.contains(s[0]),
    ensures
        trimmed(s).len() > 0,
        trimmed(s)[0] == s[0],
{
    let k = CharClass::Space;
    assert(strip_front(s, k) == s);
    lemma_back_keeps_first(s);
}

proof fn lemma_back_keeps_first(s: Seq<char>)
    requires
        s.len() > 0,
        !CharClass::Space.contains(s[0]),
    ensures
        strip_back(s, CharClass::Space).len() > 0,
        strip_back(s, CharClass::Space)[0] == s[0],
    decreases s.len(),
{
    if CharClass::Space.contains(s.last()) {
        lemma_back_keeps_first(s.drop_last());
    }
}

/// White space at the end makes no difference to the trimmed text.
pub proof fn lemma_trim_push(s: Seq<char>, c: char)
    requires
        CharClass::Space.contains(c),
    ensures
        trimmed(s.push(c)) == trimmed(s),
    decreases s.len(),
{
    let k = CharClass::Space;
    let t = s.push(c);
    if s.len() == 0 {
        assert(t.skip(1) =~= seq![]);
        assert(strip_front(t.skip(1), k) =~= seq![]);
        assert(s =~= seq![]);
    } else if k.contains(s[0]) {
        assert(t.skip(1) =~= s.skip(1).push(c));
        lemma_trim_push(s.skip(1), c);
    } else {
        assert(t[0] == s[0]);
        assert(strip_front(t, k) == t);
        assert(strip_front(s, k) == s);
        assert(t.drop_last() =~= s);
    }
}

/// A blank text at the end makes no difference to the trimmed text.
pub proof fn lemma_trim_blank(s: Seq<char>, w: Seq<char>)
    requires
        blank(w),
    ensures
        trimmed(s + w) == trimmed(s),
    decreases w.len(),
{
    if w.len() == 0 {
        assert(s + w =~= s);
    } else {
        let v = w.drop_last();
        assert forall|i: int| 0 <= i < v.len() implies CharClass::Space.contains(
            #[trigger] v[i],
        ) by {
            assert(v[i] == w[i]);
        }
        assert(CharClass::Space.contains(w[w.len() - 1]));
        assert(s + w =~= (s + v).push(w.last()));
        lemma_trim_push(s + v, w.last());
        lemma_trim_blank(s, v);
    }
}

/// A carriage return at the end makes no difference to the trimmed text.
pub proof fn lemma_trim_without_cr(s: Seq<char>)
    ensures
        trimmed(without_cr(s)) == trimmed(s),
{
    if s.len() > 0 && s.last() == '\r' {
        assert(s =~= s.drop_last().push('\r'));
        lemma_trim_push(s.drop_last(), '\r');
    }
}

/// The first character of `k` stands where it first occurs.
pub proof fn lemma_span_of(a: Seq<char>, b: Seq<char>, k: CharClass)
    requires
        forall|i: int| 0 <= i < a.len() ==> !k.contains(#[trigger] a[i]),
        b.len() > 0 ==> k.contains(b[0]),
    ensures
        span(a + b, k) == a.len(),
    decreases a.len(),
{
    let s = a + b;
    if a.len() == 0 {
        assert(s =~= b);
    } else {
        assert(s[0] == a[0]);
        assert(s.skip(1) =~= a.skip(1) + b);
        lemma_span_of(a.skip(1), b, k);
    }
}

/// No character of `k` stands before the one that `span` finds.
pub proof fn lemma_span_free(s: Seq<char>, k: CharClass)
    ensures
        forall|i: int| 0 <= i < span(s, k) ==> !k.contains(#[trigger] s[i]),
        span(s, k) < s.len() ==> k.contains(s[span(s, k) as int]),
    decreases s.len(),
{
    if s.len() > 0 && !k.contains(s[0]) {
        let t = s.skip(1);
        lemma_span_free(t, k);
        lemma_span_bound(t, k);
        assert forall|i: int| 0 <= i < span(s, k) implies !k.contains(#[trigger] s[i]) by {
            if i > 0 {
                assert(t[i - 1] == s[i]);
            }
        }
    }
}

/// A line, its newline and what follows are read as that line and the lines that follow.
pub proof fn lemma_lines_cons(line: Seq<char>, rest: Seq<char>)
    requires
        one_line(line),
    ensures
        lines(line.push('\n') + rest) == seq![without_cr(line)] + lines(rest),
{
    let k = CharClass::Only('\n');
    let s = line.push('\n') + rest;
    let tail = seq!['\n'] + rest;
    assert(s =~= line + tail);
    assert forall|i: int| 0 <= i < line.len() implies !k.contains(#[trigger] line[i]) by {
        assert(line.contains(line[i]));
    }
    lemma_span_of(line, tail, k);
    assert(s.take(line.len() as int) =~= line);
    assert(s.skip(line.len() as int + 1) =~= rest);
}

/// The lines of a text that ends with a newline, and of what follows it.
pub proof fn lemma_lines_add(h: Seq<char>, rest: Seq<char>)
    requires
        h.len() > 0 ==> h.last() == '\n',
    ensures
        lines(h + rest) == lines(h) + lines(rest),
    decreases h.len(),
{
    if h.len() == 0 {
        assert(h + rest =~= rest);
        assert(lines(h) + lines(rest) =~= lines(rest));
    } else {
        let k = CharClass::Only('\n');
        let n = span(h, k) as int;
        lemma_span_bound(h, k);
        lemma_span_free(h, k);
        if n == h.len() {
            assert(!k.contains(h[h.len() - 1]));
        }
        let line = h.take(n);
        let tail = h.skip(n + 1);
        assert(one_line(line)) by {
            if line.contains('\n') {
                let i = choose|i: int| 0 <= i < line.len() && line[i] == '\n';
                assert(!k.contains(h[i]));
            }
        }
        assert(h =~= line.push('\n') + tail);
        assert(h + rest =~= line.push('\n') + (tail + rest));
        lemma_lines_cons(line, tail);
        lemma_lines_cons(line, tail + rest);
        lemma_lines_add(tail, rest);
        assert(seq![without_cr(line)] + (lines(tail) + lines(rest)) =~= seq![without_cr(line)]
            + lines(tail) + lines(rest));
    }
}

/// The lines without a carriage return at their ends.
pub open spec fn clean(ls: Seq<Seq<char>>) -> Seq<Seq<char>> {
    ls.map_values(|l: Seq<char>| without_cr(l))
}

/// Every line is one line.
pub open spec fn all_one_line(ls: Seq<Seq<char>>) -> bool {
    forall|i: int| 0 <= i < ls.len() ==> one_line(#[trigger] ls[i])
}

/// Lines that were written, and what follows them, are read back; a carriage return at the end of
/// a line is lost.
pub proof fn law_lines_of_unlines(ls: Seq<Seq<char>>, rest: Seq<char>)
    requires
        all_one_line(ls),
    ensures
        lines(unlines(ls) + rest) == clean(ls) + lines(rest),
    decreases ls.len(),
{
    if ls.len() == 0 {
        assert(unlines(ls) + rest =~= rest);
        assert(clean(ls) + lines(rest) =~= lines(rest));
    } else {
        let last = ls.last();
        let init = ls.drop_last();
        let tail = last.push('\n') + rest;
        assert(unlines(ls) + rest =~= unlines(init) + tail);
        assert forall|i: int| 0 <= i < init.len() implies one_line(#[trigger] init[i]) by {
            assert(init[i] == ls[i]);
        }
        law_lines_of_unlines(init, tail);
        assert(one_line(ls[ls.len() - 1]));
        lemma_lines_cons(last, rest);
        assert(clean(ls) =~= clean(init).push(without_cr(last)));
        assert(clean(init) + (seq![without_cr(last)] + lines(rest)) =~= clean(ls) + lines(rest));
    }
}

/// What is read as a line is one line.
pub proof fn lemma_lines_are_lines(s: Seq<char>)
    ensures
        all_one_line(lines(s)),
    decreases s.len(),
{
    let k = CharClass::Only('\n');
    let n = span(s, k) as int;
    lemma_span_bound(s, k);
    lemma_span_free(s, k);
    let head = s.take(n);
    assert(one_line(head)) by {
        if head.contains('\n') {
            let i = choose|i: int| 0 <= i < head.len() && head[i] == '\n';
            assert(!k.contains(s[i]));
        }
    }
    if s.len() > 0 && n >= s.len() {
        assert(head =~= s);
    } else if s.len() > 0 {
        lemma_lines_are_lines(s.skip(n + 1));
        let tail = lines(s.skip(n + 1));
        assert(one_line(without_cr(head))) by {
            if without_cr(head).contains('\n') {
                let i = choose|i: int|
                    0 <= i < without_cr(head).len() && without_cr(head)[i] == '\n';
                assert(head[i] == '\n');
            }
        }
        let all = seq![without_cr(head)] + tail;
        assert forall|i: int| 0 <= i < all.len() implies one_line(#[trigger] all[i]) by {
            if i > 0 {
                assert(all[i] == tail[i - 1]);
            }
        }
    }
}

/// The bytes that are counted are those of the UTF-8 encoding.
pub proof fn law_byte_len(s: Seq<char>)
    ensures
        byte_len(s) == vstd::utf8::encode_utf8(s).len(),
    decreases s.len(),
{
    if s.len() > 0 {
        law_byte_len(s.skip(1));
        assert(s.drop_first() =~= s.skip(1));
        vstd::utf8::char_is_scalar(s[0]);
        assert(vstd::utf8::encode_scalar(s[0] as u32).len() == width(s[0]));
    }
}

} // verus!
