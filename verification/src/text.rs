//! Strings as sequences of characters: the operations on text that the agent needs,
//! each with a recursive definition on `Seq<char>` and an executable counterpart.

use vstd::prelude::*;

verus! {

/// `String::push`: the character is added at the end of the string.
pub assume_specification[ String::push ](s: &mut String, c: char)
    ensures
        final(s)@ == old(s)@.push(c),
;

/// What `str::to_lowercase` makes of `s`: the Unicode lower case mapping of its characters.
pub uninterp spec fn lowercase(s: Seq<char>) -> Seq<char>;

/// `s` with `A` to `Z` mapped to `a` to `z`.
pub open spec fn ascii_lowercase(s: Seq<char>) -> Seq<char> {
    s.map_values(
        |c: char|
            if 'A' <= c <= 'Z' {
                ((c as u32 + 32) as u32) as char
            } else {
                c
            },
    )
}

/// `str::to_lowercase`: the result is a function of the characters alone, it holds none of `A`
/// to `Z`, and on ASCII text it maps these to `a` to `z` and keeps the rest.
pub assume_specification[ str::to_lowercase ](s: &str) -> (r: String)
    ensures
        r@ == lowercase(s@),
        forall|i: int| 0 <= i < r@.len() ==> !('A' <= #[trigger] r@[i] <= 'Z'),
        vstd::utf8::is_ascii_chars(s@) ==> r@ == ascii_lowercase(s@),
;

// ---------------------------------------------------------------- definitions

/// The characters with the Unicode property `White_Space`.
pub open spec fn is_space(c: char) -> bool {
    let u = c as u32;
    ||| 0x9 <= u <= 0xd
    ||| u == 0x20
    ||| u == 0x85
    ||| u == 0xa0
    ||| u == 0x1680
    ||| 0x2000 <= u <= 0x200a
    ||| 0x2028 <= u <= 0x2029
    ||| u == 0x202f
    ||| u == 0x205f
    ||| u == 0x3000
}

/// A set of characters to cut at or to strip.
pub enum CharClass {
    /// White space.
    Space,
    /// One character.
    Only(char),
}

impl CharClass {
    /// `c` is of this class.
    pub open spec fn contains(self, c: char) -> bool {
        match self {
            CharClass::Space => is_space(c),
            CharClass::Only(x) => c == x,
        }
    }
}

/// `s` without the characters of `k` that it starts with.
pub open spec fn strip_front(s: Seq<char>, k: CharClass) -> Seq<char>
    decreases s.len(),
{
    if s.len() > 0 && k.contains(s[0]) {
        strip_front(s.skip(1), k)
    } else {
        s
    }
}

/// `s` without the characters of `k` that it ends with.
pub open spec fn strip_back(s: Seq<char>, k: CharClass) -> Seq<char>
    decreases s.len(),
{
    if s.len() > 0 && k.contains(s.last()) {
        strip_back(s.drop_last(), k)
    } else {
        s
    }
}

/// `s` without the characters of `k` at either end.
pub open spec fn strip(s: Seq<char>, k: CharClass) -> Seq<char> {
    strip_back(strip_front(s, k), k)
}

/// `s` without white space at either end.
pub open spec fn trimmed(s: Seq<char>) -> Seq<char> {
    strip(s, CharClass::Space)
}

/// `s` without the copies of `suffix` that it ends with.
pub open spec fn strip_suffixes(s: Seq<char>, suffix: Seq<char>) -> Seq<char>
    decreases s.len(),
{
    if 0 < suffix.len() <= s.len() && s.skip(s.len() - suffix.len()) == suffix {
        strip_suffixes(s.take(s.len() - suffix.len()), suffix)
    } else {
        s
    }
}

/// How many characters stand before the first one of `k`; all of them where there is none.
pub open spec fn span(s: Seq<char>, k: CharClass) -> nat
    decreases s.len(),
{
    if s.len() == 0 || k.contains(s[0]) {
        0
    } else {
        1 + span(s.skip(1), k)
    }
}

/// What stands before the first `c`; all of `s` where there is none.
pub open spec fn before(s: Seq<char>, c: char) -> Seq<char> {
    s.take(span(s, CharClass::Only(c)) as int)
}

/// The pieces of `s` between the occurrences of `c`: one more than there are occurrences.
pub open spec fn pieces(s: Seq<char>, c: char) -> Seq<Seq<char>>
    decreases s.len(),
{
    let k = span(s, CharClass::Only(c)) as int;
    if k >= s.len() {
        seq![s]
    } else {
        proof {
            lemma_span_bound(s, CharClass::Only(c));
        }
        seq![s.take(k)] + pieces(s.skip(k + 1), c)
    }
}

/// What stands before and after the first `c`.
pub open spec fn halves(s: Seq<char>, c: char) -> Option<(Seq<char>, Seq<char>)> {
    let k = span(s, CharClass::Only(c)) as int;
    if k < s.len() {
        Some((s.take(k), s.skip(k + 1)))
    } else {
        None
    }
}

/// `s` without one carriage return at its end.
pub open spec fn without_cr(s: Seq<char>) -> Seq<char> {
    if s.len() > 0 && s.last() == '\r' {
        s.drop_last()
    } else {
        s
    }
}

/// The lines of `s`. A line ends with `\n` or `\r\n`; the last one need not.
pub open spec fn lines(s: Seq<char>) -> Seq<Seq<char>>
    decreases s.len(),
{
    let k = span(s, CharClass::Only('\n')) as int;
    if s.len() == 0 {
        seq![]
    } else if k >= s.len() {
        seq![s]
    } else {
        seq![without_cr(s.take(k))] + lines(s.skip(k + 1))
    }
}

/// The longest stretches of `s` without white space.
pub open spec fn words(s: Seq<char>) -> Seq<Seq<char>>
    decreases s.len(),
{
    if s.len() == 0 {
        seq![]
    } else if is_space(s[0]) {
        words(s.skip(1))
    } else {
        let k = span(s, CharClass::Space) as int;
        proof {
            assert(k >= 1);
            lemma_span_bound(s, CharClass::Space);
        }
        seq![s.take(k)] + words(s.skip(k))
    }
}

/// `n` stands in `s` at position `i`.
pub open spec fn occurs_at(s: Seq<char>, n: Seq<char>, i: int) -> bool {
    0 <= i && i + n.len() <= s.len() && s.subrange(i, i + n.len()) == n
}

/// `s` starts with `p`.
pub open spec fn starts(s: Seq<char>, p: Seq<char>) -> bool {
    p.len() <= s.len() && s.take(p.len() as int) == p
}

/// The first position at which `n` stands in `s`.
pub open spec fn find(s: Seq<char>, n: Seq<char>) -> Option<int>
    decreases s.len(),
{
    if starts(s, n) {
        Some(0)
    } else if s.len() == 0 {
        None
    } else {
        match find(s.skip(1), n) {
            Some(i) => Some(i + 1),
            None => None,
        }
    }
}

/// `n` stands somewhere in `s`.
pub open spec fn occurs(s: Seq<char>, n: Seq<char>) -> bool {
    exists|i: int| occurs_at(s, n, i)
}

/// How many bytes UTF-8 takes for `c`.
pub open spec fn width(c: char) -> nat {
    let u = c as u32;
    if u < 0x80 {
        1
    } else if u < 0x800 {
        2
    } else if u < 0x10000 {
        3
    } else {
        4
    }
}

/// How many bytes UTF-8 takes for `s`.
pub open spec fn byte_len(s: Seq<char>) -> nat
    decreases s.len(),
{
    if s.len() == 0 {
        0
    } else {
        width(s[0]) + byte_len(s.skip(1))
    }
}

/// The first `n` bytes of `s`, or all of it where it is shorter; `None` where the cut would go
/// through a character.
pub open spec fn byte_prefix(s: Seq<char>, n: nat) -> Option<Seq<char>>
    decreases s.len(),
{
    if n == 0 || s.len() == 0 {
        Some(seq![])
    } else if width(s[0]) > n {
        None
    } else {
        match byte_prefix(s.skip(1), (n - width(s[0])) as nat) {
            Some(p) => Some(seq![s[0]] + p),
            None => None,
        }
    }
}

/// The views of a list of strings.
pub open spec fn views(v: Seq<String>) -> Seq<Seq<char>> {
    v.map_values(|s: String| s@)
}

/// The view of an optional string.
pub open spec fn view_of(o: Option<String>) -> Option<Seq<char>> {
    match o {
        Some(s) => Some(s@),
        None => None,
    }
}

/// The string of an option, or the empty one.
pub open spec fn or_empty(o: Option<Seq<char>>) -> Seq<char> {
    match o {
        Some(s) => s,
        None => seq![],
    }
}

// ---------------------------------------------------------------- facts

/// Adding a string adds its view.
pub broadcast proof fn lemma_views_push(v: Seq<String>, s: String)
    ensures
        #[trigger] views(v.push(s)) == views(v).push(s@),
{
    assert(views(v.push(s)) =~= views(v).push(s@));
}

/// What is found is found within the text.
pub broadcast proof fn lemma_span_bound(s: Seq<char>, k: CharClass)
    ensures
        0 <= #[trigger] span(s, k) <= s.len(),
    decreases s.len(),
{
    if s.len() > 0 && !k.contains(s[0]) {
        lemma_span_bound(s.skip(1), k);
    }
}

/// `find` gives an occurrence, and none stands further to the left.
pub proof fn lemma_find(s: Seq<char>, n: Seq<char>)
    ensures
        find(s, n) matches Some(i) ==> occurs_at(s, n, i) && forall|j: int|
            0 <= j < i ==> !occurs_at(s, n, j),
        find(s, n) is None ==> !occurs(s, n),
    decreases s.len(),
{
    if starts(s, n) {
        assert(s.subrange(0, n.len() as int) == s.take(n.len() as int));
    } else if s.len() == 0 {
        assert forall|i: int| !occurs_at(s, n, i) by {
            if occurs_at(s, n, i) {
                assert(s.subrange(i, i + n.len()) =~= s.take(n.len() as int));
            }
        }
    } else {
        let t = s.skip(1);
        lemma_find(t, n);
        assert forall|j: int| occurs_at(s, n, j) implies j > 0 && occurs_at(t, n, j - 1) by {
            if j == 0 {
                assert(s.subrange(0, n.len() as int) =~= s.take(n.len() as int));
            }
            assert(t.subrange(j - 1, j - 1 + n.len()) =~= s.subrange(j, j + n.len()));
        }
        if let Some(i) = find(t, n) {
            assert(s.subrange(i + 1, i + 1 + n.len()) =~= t.subrange(i, i + n.len()));
        }
    }
}

// ---------------------------------------------------------------- executable counterparts

/// The characters of `s`, in order.
pub fn chars_of(s: &str) -> (v: Vec<char>)
    ensures
        v@ == s@,
{
    let mut v: Vec<char> = Vec::new();
    for c in it: s.chars()
        invariant
            v@ == it.seq().take(it.index() as int),
            it.seq() == s@,
    {
        v.push(c);
    }
    v
}

/// The string made of `v[from..to]`.
pub fn string_of(v: &Vec<char>, from: usize, to: usize) -> (s: String)
    requires
        from <= to <= v.len(),
    ensures
        s@ == v@.subrange(from as int, to as int),
{
    let mut s = String::new();
    let mut i: usize = from;
    while i < to
        invariant
            from <= i <= to <= v.len(),
            s@ == v@.subrange(from as int, i as int),
        decreases to - i,
    {
        s.push(v[i]);
        i += 1;
    }
    s
}

/// Whether `a` and `b` hold the same characters.
pub fn same(a: &str, b: &str) -> (r: bool)
    ensures
        r == (a@ == b@),
{
    a.to_owned() == b.to_owned()
}

impl CharClass {
    /// Whether `c` belongs to the class.
    pub fn holds(&self, c: char) -> (r: bool)
        ensures
            r == self.contains(c),
    {
        match self {
            CharClass::Space => {
                let u: u32 = c as u32;
                (0x9 <= u && u <= 0xd) || u == 0x20 || u == 0x85 || u == 0xa0 || u == 0x1680 || (
                0x2000 <= u && u <= 0x200a) || (0x2028 <= u && u <= 0x2029) || u == 0x202f || u
                    == 0x205f || u == 0x3000
            },
            CharClass::Only(x) => c == *x,
        }
    }
}

/// The position after the characters of `k` that `v` has from `from` on.
pub fn skip_front(v: &Vec<char>, from: usize, k: &CharClass) -> (i: usize)
    requires
        from <= v.len(),
    ensures
        from <= i <= v.len(),
        v@.skip(i as int) == strip_front(v@.skip(from as int), *k),
{
    let mut i: usize = from;
    while i < v.len() && k.holds(v[i])
        invariant
            from <= i <= v.len(),
            strip_front(v@.skip(i as int), *k) == strip_front(v@.skip(from as int), *k),
        decreases v.len() - i,
    {
        assert(v@.skip(i as int).skip(1) =~= v@.skip(i + 1));
        i += 1;
    }
    i
}

/// The position of the first character of `k` from `from` on, or the end.
pub fn next_of(v: &Vec<char>, from: usize, k: &CharClass) -> (i: usize)
    requires
        from <= v.len(),
    ensures
        from <= i <= v.len(),
        i - from == span(v@.skip(from as int), *k),
        i < v.len() ==> k.contains(v[i as int]),
{
    let mut i: usize = from;
    while i < v.len() && !k.holds(v[i])
        invariant
            from <= i <= v.len(),
            i - from + span(v@.skip(i as int), *k) == span(v@.skip(from as int), *k),
        decreases v.len() - i,
    {
        assert(v@.skip(i as int).skip(1) =~= v@.skip(i + 1));
        i += 1;
    }
    i
}

/// `s` without the characters of `k` that it ends with.
pub fn trim_end_class(s: &str, k: &CharClass) -> (r: String)
    ensures
        r@ == strip_back(s@, *k),
{
    let v = chars_of(s);
    assert(v@.skip(0) =~= s@);
    trim_end_from(&v, 0, k)
}

fn trim_end_from(v: &Vec<char>, from: usize, k: &CharClass) -> (r: String)
    requires
        from <= v.len(),
    ensures
        r@ == strip_back(v@.skip(from as int), *k),
{
    let mut to: usize = v.len();
    assert(v@.subrange(from as int, to as int) =~= v@.skip(from as int));
    while to > from && k.holds(v[to - 1])
        invariant
            from <= to <= v.len(),
            strip_back(v@.subrange(from as int, to as int), *k) == strip_back(
                v@.skip(from as int),
                *k,
            ),
        decreases to,
    {
        assert(v@.subrange(from as int, to as int).drop_last() =~= v@.subrange(
            from as int,
            to - 1,
        ));
        to -= 1;
    }
    string_of(v, from, to)
}

/// `s` without the characters of `k` at either end.
pub fn trim_class(s: &str, k: &CharClass) -> (r: String)
    ensures
        r@ == strip(s@, *k),
{
    let v = chars_of(s);
    assert(v@.skip(0) =~= s@);
    let from = skip_front(&v, 0, k);
    trim_end_from(&v, from, k)
}

/// `s` without white space at either end.
pub fn trim(s: &str) -> (r: String)
    ensures
        r@ == trimmed(s@),
{
    trim_class(s, &CharClass::Space)
}

/// `s` without the copies of `suffix` that it ends with.
pub fn trim_end_str(s: &str, suffix: &str) -> (r: String)
    ensures
        r@ == strip_suffixes(s@, suffix@),
{
    let v = chars_of(s);
    let x = chars_of(suffix);
    let mut to: usize = v.len();
    assert(v@.take(to as int) =~= s@);
    while 0 < x.len() && x.len() <= to && matches_at(&v, to - x.len(), &x)
        invariant
            x@ == suffix@,
            to <= v.len(),
            strip_suffixes(v@.take(to as int), suffix@) == strip_suffixes(s@, suffix@),
        decreases to,
    {
        assert(v@.take(to as int).skip(to - x.len()) =~= v@.subrange(to - x.len(), to as int));
        assert(v@.take(to as int).take(to - x.len()) =~= v@.take(to - x.len()));
        to -= x.len();
    }
    assert(0 < x.len() && x.len() <= to ==> v@.take(to as int).skip(to - x.len()) =~= v@.subrange(
        to - x.len(),
        to as int,
    ));
    assert(v@.take(to as int) =~= v@.subrange(0, to as int));
    string_of(&v, 0, to)
}

/// Whether `n` stands in `v` at position `i`.
pub fn matches_at(v: &Vec<char>, i: usize, n: &Vec<char>) -> (r: bool)
    requires
        i <= v.len(),
    ensures
        r == occurs_at(v@, n@, i as int),
        r == starts(v@.skip(i as int), n@),
{
    proof {
        if i + n.len() <= v.len() {
            assert(v@.skip(i as int).take(n.len() as int) =~= v@.subrange(i as int, i + n.len()));
        }
    }
    if n.len() > v.len() - i {
        return false;
    }
    let mut j: usize = 0;
    while j < n.len()
        invariant
            j <= n.len(),
            i + n.len() <= v.len(),
            forall|t: int| 0 <= t < j ==> v@[i + t] == n@[t],
        decreases n.len() - j,
    {
        if v[i + j] != n[j] {
            assert(v@.subrange(i as int, i + n.len())[j as int] != n@[j as int]);
            return false;
        }
        j += 1;
    }
    assert(v@.subrange(i as int, i + n.len()) =~= n@);
    true
}

/// The first position from `from` on at which `n` stands in `v`.
pub fn find_from(v: &Vec<char>, from: usize, n: &Vec<char>) -> (r: Option<usize>)
    requires
        from <= v.len(),
    ensures
        match r {
            Some(i) => from <= i && i + n.len() <= v.len() && find(v@.skip(from as int), n@)
                == Some(i - from),
            None => find(v@.skip(from as int), n@) is None,
        },
{
    let mut i: usize = from;
    loop
        invariant
            from <= i <= v.len(),
            find(v@.skip(from as int), n@) == (match find(v@.skip(i as int), n@) {
                Some(t) => Some(t + (i - from)),
                None => None::<int>,
            }),
        decreases v.len() - i,
    {
        if matches_at(v, i, n) {
            return Some(i);
        }
        if i == v.len() {
            return None;
        }
        assert(v@.skip(i as int).skip(1) =~= v@.skip(i + 1));
        i += 1;
    }
}

/// Whether `n` stands somewhere in `s`.
pub fn contains(s: &str, n: &str) -> (r: bool)
    ensures
        r == occurs(s@, n@),
{
    let v = chars_of(s);
    let x = chars_of(n);
    proof {
        lemma_find(s@, n@);
        assert(v@.skip(0) =~= s@);
    }
    find_from(&v, 0, &x).is_some()
}

/// Whether `s` starts with `p`.
pub fn starts_with(s: &str, p: &str) -> (r: bool)
    ensures
        r == starts(s@, p@),
{
    let v = chars_of(s);
    let x = chars_of(p);
    assert(v@.skip(0) =~= s@);
    matches_at(&v, 0, &x)
}

/// What follows `p` in a string that starts with it.
pub fn strip_prefix(s: &str, p: &str) -> (r: Option<String>)
    ensures
        view_of(r) == (if starts(s@, p@) {
            Some(s@.skip(p@.len() as int))
        } else {
            None
        }),
{
    let v = chars_of(s);
    let x = chars_of(p);
    assert(v@.skip(0) =~= s@);
    if matches_at(&v, 0, &x) {
        assert(v@.subrange(x.len() as int, v.len() as int) =~= s@.skip(p@.len() as int));
        Some(string_of(&v, x.len(), v.len()))
    } else {
        None
    }
}

/// What stands before the first `c`; all of `s` where there is none.
pub fn first_piece(s: &str, c: char) -> (r: String)
    ensures
        r@ == before(s@, c),
{
    let v = chars_of(s);
    assert(v@.skip(0) =~= s@);
    let k = next_of(&v, 0, &CharClass::Only(c));
    assert(v@.subrange(0, k as int) =~= s@.take(k as int));
    string_of(&v, 0, k)
}

/// The pieces of `s` between the occurrences of `c`.
pub fn split_on(s: &str, c: char) -> (r: Vec<String>)
    ensures
        views(r@) == pieces(s@, c),
{
    broadcast use lemma_views_push;

    let v = chars_of(s);
    let k = CharClass::Only(c);
    let mut out: Vec<String> = Vec::new();
    let mut i: usize = 0;
    assert(v@.skip(0) =~= s@);
    assert(views(out@) =~= seq![]);
    loop
        invariant
            i <= v.len(),
            k == CharClass::Only(c),
            views(out@) + pieces(v@.skip(i as int), c) == pieces(s@, c),
        decreases v.len() - i,
    {
        let j = next_of(&v, i, &k);
        let ghost rest = v@.skip(i as int);
        assert(v@.subrange(i as int, j as int) =~= rest.take(j - i));
        let ghost before_push = views(out@);
        out.push(string_of(&v, i, j));
        if j == v.len() {
            assert(rest.take(j - i) =~= rest);
            assert(views(out@) =~= before_push + seq![rest]);
            return out;
        }
        assert(rest.skip(j - i + 1) =~= v@.skip(j + 1));
        assert(views(out@) + pieces(v@.skip(j + 1), c) =~= before_push + (seq![rest.take(j - i)]
            + pieces(v@.skip(j + 1), c)));
        i = j + 1;
    }
}

/// What stands before and after the first `c`.
pub fn split_once(s: &str, c: char) -> (r: Option<(String, String)>)
    ensures
        match r {
            Some(p) => halves(s@, c) == Some((p.0@, p.1@)),
            None => halves(s@, c) is None,
        },
{
    let v = chars_of(s);
    assert(v@.skip(0) =~= s@);
    let k = next_of(&v, 0, &CharClass::Only(c));
    if k < v.len() {
        assert(v@.subrange(0, k as int) =~= s@.take(k as int));
        assert(v@.subrange(k + 1, v.len() as int) =~= s@.skip(k + 1));
        Some((string_of(&v, 0, k), string_of(&v, k + 1, v.len())))
    } else {
        None
    }
}

/// The lines of `s`.
pub fn split_lines(s: &str) -> (r: Vec<String>)
    ensures
        views(r@) == lines(s@),
{
    broadcast use lemma_views_push;

    let v = chars_of(s);
    let k = CharClass::Only('\n');
    let mut out: Vec<String> = Vec::new();
    let mut i: usize = 0;
    assert(v@.skip(0) =~= s@);
    assert(views(out@) =~= seq![]);
    while i < v.len()
        invariant
            i <= v.len(),
            k == CharClass::Only('\n'),
            views(out@) + lines(v@.skip(i as int)) == lines(s@),
        decreases v.len() - i,
    {
        let j = next_of(&v, i, &k);
        let ghost rest = v@.skip(i as int);
        let ghost line = rest.take(j - i);
        assert(v@.subrange(i as int, j as int) =~= line);
        let ghost before_push = views(out@);
        if j == v.len() {
            assert(line =~= rest);
            out.push(string_of(&v, i, j));
            assert(views(out@) =~= before_push + seq![rest]);
            return out;
        }
        if j > i && v[j - 1] == '\r' {
            assert(v@.subrange(i as int, j - 1) =~= line.drop_last());
            out.push(string_of(&v, i, j - 1));
        } else {
            out.push(string_of(&v, i, j));
        }
        assert(views(out@) == before_push.push(without_cr(line)));
        assert(rest.skip(j - i + 1) =~= v@.skip(j + 1));
        assert(views(out@) + lines(v@.skip(j + 1)) =~= before_push + (seq![without_cr(line)]
            + lines(v@.skip(j + 1))));
        i = j + 1;
    }
    assert(views(out@) + lines(v@.skip(i as int)) =~= views(out@));
    out
}

/// The words of `s`.
pub fn split_words(s: &str) -> (r: Vec<String>)
    ensures
        views(r@) == words(s@),
{
    broadcast use lemma_views_push;

    let v = chars_of(s);
    let k = CharClass::Space;
    let mut out: Vec<String> = Vec::new();
    let mut i: usize = 0;
    assert(v@.skip(0) =~= s@);
    assert(views(out@) =~= seq![]);
    while i < v.len()
        invariant
            i <= v.len(),
            k == CharClass::Space,
            views(out@) + words(v@.skip(i as int)) == words(s@),
        decreases v.len() - i,
    {
        let ghost rest = v@.skip(i as int);
        if k.holds(v[i]) {
            assert(rest.skip(1) =~= v@.skip(i + 1));
            i += 1;
        } else {
            let j = next_of(&v, i, &k);
            assert(v@.subrange(i as int, j as int) =~= rest.take(j - i));
            let ghost before_push = views(out@);
            out.push(string_of(&v, i, j));
            assert(rest.skip(j - i) =~= v@.skip(j as int));
            assert(views(out@) + words(v@.skip(j as int)) =~= before_push + (seq![rest.take(j - i)]
                + words(v@.skip(j as int))));
            i = j;
        }
    }
    assert(views(out@) + words(v@.skip(i as int)) =~= views(out@));
    out
}

/// How many bytes UTF-8 takes for `c`.
pub fn char_width(c: char) -> (w: usize)
    ensures
        w == width(c),
{
    let u: u32 = c as u32;
    if u < 0x80 {
        1
    } else if u < 0x800 {
        2
    } else if u < 0x10000 {
        3
    } else {
        4
    }
}

/// Whether UTF-8 takes exactly `n` bytes for `s`.
pub fn has_byte_len(s: &str, n: usize) -> (r: bool)
    ensures
        r == (byte_len(s@) == n),
{
    let v = chars_of(s);
    let mut i: usize = 0;
    let mut left: usize = n;
    assert(v@.skip(0) =~= s@);
    while i < v.len()
        invariant
            i <= v.len(),
            left <= n,
            n - left + byte_len(v@.skip(i as int)) == byte_len(s@),
        decreases v.len() - i,
    {
        assert(v@.skip(i as int).skip(1) =~= v@.skip(i + 1));
        let w = char_width(v[i]);
        if w > left {
            return false;
        }
        left -= w;
        i += 1;
    }
    left == 0
}

/// The first `n` bytes of `s`, or all of it where it is shorter; `None` where the cut would go
/// through a character.
pub fn cut_bytes(s: &str, n: usize) -> (r: Option<String>)
    ensures
        view_of(r) == byte_prefix(s@, n as nat),
{
    let v = chars_of(s);
    let mut i: usize = 0;
    let mut left: usize = n;
    assert(v@.skip(0) =~= s@);
    assert(v@.take(0) =~= seq![]);
    assert(match byte_prefix(s@, n as nat) {
        Some(p) => v@.take(0) + p =~= p,
        None => true,
    });
    while i < v.len() && left > 0
        invariant
            i <= v.len(),
            left <= n,
            byte_prefix(s@, n as nat) == (match byte_prefix(v@.skip(i as int), left as nat) {
                Some(p) => Some(v@.take(i as int) + p),
                None => None,
            }),
        decreases v.len() - i,
    {
        let ghost rest = v@.skip(i as int);
        assert(rest.skip(1) =~= v@.skip(i + 1));
        let w = char_width(v[i]);
        if w > left {
            return None;
        }
        proof {
            if let Some(p) = byte_prefix(v@.skip(i + 1), (left - w) as nat) {
                assert(v@.take(i as int) + (seq![rest[0]] + p) =~= v@.take(i + 1) + p);
            }
        }
        left -= w;
        i += 1;
    }
    assert(v@.take(i as int) + seq![] =~= v@.subrange(0, i as int));
    Some(string_of(&v, 0, i))
}

} // verus!
