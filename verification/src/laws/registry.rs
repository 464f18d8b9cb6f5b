//! What is remembered of the registration, and the pace of the heartbeats.

use crate::laws::text::{blank, lemma_lacks_add, lemma_lines_cons, lemma_span_free};
use crate::laws::text::{lemma_strip_back, lemma_stripped_is_blank, lemma_trim_blank, lemma_trim_without_cr, one_line};
use crate::number::law_parse_of_decimal;
use crate::registry::{last_value, pace, remembered, state_text, suggested_poll};
use crate::reply::number_field;
use crate::text::{lemma_span_bound, lines, span, starts, strip_back, trimmed, without_cr, CharClass};
use vstd::prelude::*;

verus! {

/// The lines are blank.
spec fn all_blank(ls: Seq<Seq<char>>) -> bool {
    forall|i: int| 0 <= i < ls.len() ==> blank(#[trigger] ls[i])
}

proof fn lemma_blank_part(w: Seq<char>, from: int, to: int)
    requires
        blank(w),
        0 <= from <= to <= w.len(),
    ensures
        blank(w.subrange(from, to)),
{
    let v = w.subrange(from, to);
    assert forall|i: int| 0 <= i < v.len() implies CharClass::Space.contains(#[trigger] v[i]) by {
        assert(v[i] == w[from + i]);
    }
}

/// What stands before the first newline of `w`, and what stands after it, where there is one.
proof fn lemma_first_newline(w: Seq<char>) -> (n: int)
    requires
        w.contains('\n'),
    ensures
        0 <= n < w.len(),
        w[n] == '\n',
        one_line(w.take(n)),
        w == w.take(n).push('\n') + w.skip(n + 1),
{
    let k = CharClass::Only('\n');
    let n = span(w, k) as int;
    lemma_span_bound(w, k);
    lemma_span_free(w, k);
    if n == w.len() {
        let i = choose|i: int| 0 <= i < w.len() && w[i] == '\n';
        assert(!k.contains(w[i]));
    }
    let head = w.take(n);
    if head.contains('\n') {
        let i = choose|i: int| 0 <= i < head.len() && head[i] == '\n';
        assert(!k.contains(w[i]));
    }
    assert(w =~= head.push('\n') + w.skip(n + 1));
    n
}

/// A blank text and a newline are read as blank lines.
proof fn lemma_blank_lines(w: Seq<char>, rest: Seq<char>) -> (bl: Seq<Seq<char>>)
    requires
        blank(w),
    ensures
        lines(w.push('\n') + rest) == bl + lines(rest),
        all_blank(bl),
    decreases w.len(),
{
    if one_line(w) {
        lemma_lines_cons(w, rest);
        let bl = seq![without_cr(w)];
        assert(w.take(w.len() as int) =~= w);
        if w.len() > 0 {
            lemma_blank_part(w, 0, w.len() - 1);
            assert(w.drop_last() =~= w.subrange(0, w.len() - 1));
        }
        assert(blank(without_cr(w)));
        assert(all_blank(bl));
        bl
    } else {
        let n = lemma_first_newline(w);
        let head = w.take(n);
        let tail = w.skip(n + 1);
        lemma_blank_part(w, 0, n);
        assert(head =~= w.subrange(0, n));
        lemma_blank_part(w, n + 1, w.len() as int);
        assert(tail =~= w.subrange(n + 1, w.len() as int));
        assert(w.push('\n') + rest =~= head.push('\n') + (tail.push('\n') + rest));
        lemma_lines_cons(head, tail.push('\n') + rest);
        let more = lemma_blank_lines(tail, rest);
        let first = without_cr(head);
        if head.len() > 0 {
            lemma_blank_part(head, 0, head.len() - 1);
            assert(head.drop_last() =~= head.subrange(0, head.len() - 1));
        }
        let bl = seq![first] + more;
        assert forall|i: int| 0 <= i < bl.len() implies blank(#[trigger] bl[i]) by {
            if i > 0 {
                assert(bl[i] == more[i - 1]);
            }
        }
        assert(seq![first] + (more + lines(rest)) =~= bl + lines(rest));
        bl
    }
}

/// A line that starts with a prefix and has a value after it.
proof fn lemma_value_line(prefix: Seq<char>, value: Seq<char>)
    requires
        prefix.len() > 0,
        prefix.last() != '\r',
    ensures
        starts(without_cr(prefix + value), prefix),
        trimmed(without_cr(prefix + value).skip(prefix.len() as int)) == trimmed(value),
{
    let line = prefix + value;
    let w = without_cr(line);
    if value.len() == 0 {
        assert(line =~= prefix);
        assert(w.skip(prefix.len() as int) =~= value);
    } else if value.last() == '\r' {
        assert(line.last() == '\r');
        assert(w.skip(prefix.len() as int) =~= without_cr(value));
        lemma_trim_without_cr(value);
    } else {
        assert(line.last() == value.last());
        assert(w.skip(prefix.len() as int) =~= value);
    }
    assert(w.take(prefix.len() as int) =~= prefix);
}

/// A prefix and a value, whose newlines stand at its end if it has any, are read as one line with
/// that value and blank lines.
proof fn lemma_value_lines(prefix: Seq<char>, value: Seq<char>, rest: Seq<char>) -> (r: (
    Seq<char>,
    Seq<Seq<char>>,
))
    requires
        prefix.len() > 0,
        prefix.last() != '\r',
        one_line(prefix),
        one_line(strip_back(value, CharClass::Space)),
    ensures
        lines((prefix + value).push('\n') + rest) == seq![r.0] + r.1 + lines(rest),
        starts(r.0, prefix),
        trimmed(r.0.skip(prefix.len() as int)) == trimmed(value),
        all_blank(r.1),
{
    let k = CharClass::Space;
    let body = strip_back(value, k);
    let m = body.len() as int;
    let w = value.skip(m);
    lemma_strip_back(value, k);
    lemma_stripped_is_blank(value);
    lemma_lacks_add(prefix, body, '\n');
    assert(value =~= body + w);
    if one_line(w) {
        lemma_lacks_add(prefix + body, w, '\n');
        assert(prefix + value =~= prefix + body + w);
        lemma_lines_cons(prefix + value, rest);
        lemma_value_line(prefix, value);
        let none = Seq::<Seq<char>>::empty();
        let first = without_cr(prefix + value);
        assert(seq![first] + lines(rest) =~= seq![first] + none + lines(rest));
        (first, none)
    } else {
        let n = lemma_first_newline(w);
        let w1 = w.take(n);
        let w2 = w.skip(n + 1);
        lemma_blank_part(w, 0, n);
        assert(w1 =~= w.subrange(0, n));
        lemma_blank_part(w, n + 1, w.len() as int);
        assert(w2 =~= w.subrange(n + 1, w.len() as int));
        let v = body + w1;
        lemma_lacks_add(prefix + body, w1, '\n');
        assert(prefix + v =~= prefix + body + w1);
        assert((prefix + value).push('\n') + rest =~= (prefix + v).push('\n') + (w2.push('\n')
            + rest));
        lemma_lines_cons(prefix + v, w2.push('\n') + rest);
        lemma_value_line(prefix, v);
        lemma_trim_blank(body, w1);
        lemma_trim_blank(body, w);
        let bl = lemma_blank_lines(w2, rest);
        let first = without_cr(prefix + v);
        assert(seq![first] + (bl + lines(rest)) =~= seq![first] + bl + lines(rest));
        (first, bl)
    }
}

/// Blank lines at the end have no value.
proof fn lemma_last_value_blank(ls: Seq<Seq<char>>, bl: Seq<Seq<char>>, prefix: Seq<char>)
    requires
        all_blank(bl),
        prefix.len() > 0,
        !CharClass::Space.contains(prefix[0]),
    ensures
        last_value(ls + bl, prefix) == last_value(ls, prefix),
    decreases bl.len(),
{
    if bl.len() == 0 {
        assert(ls + bl =~= ls);
    } else {
        let all = ls + bl;
        let init = bl.drop_last();
        assert(all.drop_last() =~= ls + init);
        assert(all.last() == bl[bl.len() - 1]);
        assert(!starts(all.last(), prefix)) by {
            if starts(all.last(), prefix) {
                assert(all.last().take(prefix.len() as int)[0] == prefix[0]);
                assert(CharClass::Space.contains(bl[bl.len() - 1][0]));
            }
        }
        assert forall|i: int| 0 <= i < init.len() implies blank(#[trigger] init[i]) by {
            assert(init[i] == bl[i]);
        }
        lemma_last_value_blank(ls, init, prefix);
    }
}

/// A text without a newline but in the white space at its end.
pub open spec fn one_line_value(s: Seq<char>) -> bool {
    one_line(strip_back(s, CharClass::Space))
}

/// The id and the secret that were saved are the ones that are loaded, up to white space at their
/// ends, where they hold no newline but in the white space at their ends.
pub proof fn law_registration_is_remembered(id: Seq<char>, secret: Seq<char>)
    requires
        one_line_value(id),
        one_line_value(secret),
    ensures
        remembered(Some(state_text(id, secret))) == (trimmed(id), trimmed(secret)),
{
    reveal_strlit("SERVER_ID=");
    reveal_strlit("\nSECRET=");
    reveal_strlit("SECRET=");
    reveal_strlit("\n");
    let p1 = "SERVER_ID="@;
    let p2 = "SECRET="@;
    let none = Seq::<char>::empty();
    let tail = (p2 + secret).push('\n') + none;
    assert(state_text(id, secret) =~= (p1 + id).push('\n') + tail);
    let (f1, b1) = lemma_value_lines(p1, id, tail);
    let (f2, b2) = lemma_value_lines(p2, secret, none);
    let ls = lines(state_text(id, secret));
    let first = seq![f1] + b1;
    let second = first + seq![f2];
    assert(ls =~= second + b2);
    lemma_last_value_blank(second, b2, p1);
    lemma_last_value_blank(second, b2, p2);
    assert(second.last() == f2);
    assert(second.drop_last() =~= first);
    assert(!starts(f2, p1)) by {
        if starts(f2, p1) {
            assert(f2.take(p1.len() as int)[2] == p1[2]);
            assert(f2.take(p2.len() as int)[2] == p2[2]);
        }
    }
    lemma_last_value_blank(seq![f1], b1, p1);
    assert(seq![f1].last() == f1);
}

/// A number of seconds from 5 to 600 in a reply is the pace from then on; any other reply leaves
/// the pace as it was.
pub proof fn law_pace_is_taken(resp: Seq<char>, before: Option<Seq<char>>, poll: nat)
    ensures
        pace(poll, suggested_poll(resp, before)) == (match number_field(
            resp,
            "poll_interval_secs"@,
        ) {
            Some(n) => if 5 <= n <= 600 {
                n
            } else {
                pace(poll, before)
            },
            None => pace(poll, before),
        }),
{
    if let Some(n) = number_field(resp, "poll_interval_secs"@) {
        if 5 <= n <= 600 {
            law_parse_of_decimal(n, u64::MAX as nat);
        }
    }
}

/// The pace is from 5 to 600 seconds where the configured one is and the one before was.
pub proof fn law_pace_is_bounded(resp: Seq<char>, before: Option<Seq<char>>, poll: nat)
    requires
        5 <= poll <= 600,
        5 <= pace(poll, before) <= 600,
    ensures
        5 <= pace(poll, suggested_poll(resp, before)) <= 600,
{
    law_pace_is_taken(resp, before, poll);
}

} // verus!
