//! Text as sequences of characters: what whitespace, a line, a word, a prefix,
//! a replacement and a decimal number are, and the functions that compute them.
use vstd::prelude::*;

verus! {

/// The characters that have the Unicode property White_Space.
pub open spec fn is_white(c: char) -> bool {
    ||| '\u{9}' <= c <= '\u{d}'
    ||| c == '\u{20}'
    ||| c == '\u{85}'
    ||| c == '\u{a0}'
    ||| c == '\u{1680}'
    ||| '\u{2000}' <= c <= '\u{200a}'
    ||| c == '\u{2028}'
    ||| c == '\u{2029}'
    ||| c == '\u{202f}'
    ||| c == '\u{205f}'
    ||| c == '\u{3000}'
}

/// `char::is_whitespace` of std: whether the character has the property
/// White_Space, which [`is_white`] lists.
pub assume_specification[ char::is_whitespace ](c: char) -> (r: bool)
    ensures
        r == is_white(c),
;

/// `String::push` of std: appends the character to the end of the string.
pub assume_specification[ String::push ](s: &mut String, ch: char)
    ensures
        final(s)@ == old(s)@.push(ch),
;

// ---------------------------------------------------------------------------
// Prefixes, occurrences, trimming
// ---------------------------------------------------------------------------

/// The view of an optional string.
pub open spec fn opt_text(s: Option<String>) -> Option<Seq<char>> {
    match s {
        Some(t) => Some(t@),
        None => None,
    }
}

/// The views of some strings.
pub open spec fn texts(v: Seq<String>) -> Seq<Seq<char>> {
    v.map_values(|s: String| s@)
}

/// Whether `s` begins with `p`.
pub open spec fn starts_with(s: Seq<char>, p: Seq<char>) -> bool {
    p.len() <= s.len() && s.take(p.len() as int) == p
}

/// Whether `s` ends with `p`.
pub open spec fn ends_with(s: Seq<char>, p: Seq<char>) -> bool {
    p.len() <= s.len() && s.skip(s.len() - p.len()) == p
}

/// Whether `p` stands in `s` at position `i`.
pub open spec fn occurs_at(s: Seq<char>, p: Seq<char>, i: int) -> bool {
    0 <= i && i + p.len() <= s.len() && s.subrange(i, i + p.len()) == p
}

/// Whether `p` stands in `s` anywhere.
pub open spec fn contains(s: Seq<char>, p: Seq<char>) -> bool {
    exists|i: int| #[trigger] occurs_at(s, p, i)
}

/// Whether `c` is a character of `s`.
pub open spec fn has_char(s: Seq<char>, c: char) -> bool {
    exists|i: int| 0 <= i < s.len() && #[trigger] s[i] == c
}

/// Whether no character of `s` is whitespace.
pub open spec fn no_white(s: Seq<char>) -> bool {
    forall|i: int| 0 <= i < s.len() ==> !is_white(#[trigger] s[i])
}

/// `s` without its leading whitespace.
pub open spec fn trim_start(s: Seq<char>) -> Seq<char>
    decreases s.len(),
{
    if s.len() > 0 && is_white(s[0]) {
        trim_start(s.skip(1))
    } else {
        s
    }
}

/// `s` without its trailing whitespace.
pub open spec fn trim_end(s: Seq<char>) -> Seq<char>
    decreases s.len(),
{
    if s.len() > 0 && is_white(s.last()) {
        trim_end(s.drop_last())
    } else {
        s
    }
}

/// `s` without leading and trailing whitespace.
pub open spec fn trim(s: Seq<char>) -> Seq<char> {
    trim_end(trim_start(s))
}

/// The characters of a string.
pub fn chars_of(s: &str) -> (r: Vec<char>)
    ensures
        r@ == s@,
{
    let mut r: Vec<char> = Vec::new();
    for c in it: s.chars()
        invariant
            it.seq() == s@,
            r@ == s@.take(it.index() as int),
    {
        r.push(c);
        assert(s@.take(it.index() + 1) =~= s@.take(it.index() as int).push(c));
    }
    assert(s@.take(s@.len() as int) =~= s@);
    r
}

/// The string that a vector of characters spells.
pub fn string_of(v: &Vec<char>) -> (r: String)
    ensures
        r@ == v@,
{
    let mut r: String = String::new();
    for i in 0..v.len()
        invariant
            r@ == v@.take(i as int),
    {
        r.push(v[i]);
        assert(v@.take(i + 1) =~= v@.take(i as int).push(v@[i as int]));
    }
    assert(v@.take(v@.len() as int) =~= v@);
    r
}

/// The characters of `v` from `from` up to but not including `to`.
pub fn piece(v: &Vec<char>, from: usize, to: usize) -> (r: Vec<char>)
    requires
        from <= to <= v@.len(),
    ensures
        r@ == v@.subrange(from as int, to as int),
{
    let mut r: Vec<char> = Vec::new();
    for i in from..to
        invariant
            from <= i <= to <= v@.len(),
            r@ == v@.subrange(from as int, i as int),
    {
        r.push(v[i]);
        assert(v@.subrange(from as int, i + 1) =~= v@.subrange(from as int, i as int).push(
            v@[i as int],
        ));
    }
    r
}

/// Whether two vectors hold the same characters.
pub fn same(a: &Vec<char>, b: &Vec<char>) -> (r: bool)
    ensures
        r == (a@ == b@),
{
    if a.len() != b.len() {
        return false;
    }
    for i in 0..a.len()
        invariant
            a@.len() == b@.len(),
            a@.take(i as int) =~= b@.take(i as int),
    {
        if a[i] != b[i] {
            assert(a@[i as int] != b@[i as int]);
            return false;
        }
        assert(a@.take(i + 1) =~= a@.take(i as int).push(a@[i as int]));
        assert(b@.take(i + 1) =~= b@.take(i as int).push(b@[i as int]));
    }
    assert(a@.take(a@.len() as int) =~= a@);
    assert(b@.take(b@.len() as int) =~= b@);
    true
}

/// Whether two strings are equal.
pub fn str_eq(a: &str, b: &str) -> (r: bool)
    ensures
        r == (a@ == b@),
{
    a.to_owned() == b.to_owned()
}

/// Whether `p` stands in `v` at position `at`.
pub fn is_at(v: &Vec<char>, p: &Vec<char>, at: usize) -> (r: bool)
    requires
        at <= v@.len(),
    ensures
        r == occurs_at(v@, p@, at as int),
{
    if p.len() > v.len() - at {
        return false;
    }
    let here = piece(v, at, at + p.len());
    same(&here, p)
}

/// Whether `v` begins with `p`.
pub fn has_prefix(v: &Vec<char>, p: &Vec<char>) -> (r: bool)
    ensures
        r == starts_with(v@, p@),
{
    proof {
        assert(v@.subrange(0, p@.len() as int) =~= v@.take(p@.len() as int));
    }
    is_at(v, p, 0)
}

/// Whether `p` stands in `v` anywhere.
pub fn has_part(v: &Vec<char>, p: &Vec<char>) -> (r: bool)
    ensures
        r == contains(v@, p@),
{
    let mut i: usize = 0;
    loop
        invariant
            i <= v@.len(),
            forall|k: int| 0 <= k < i ==> !#[trigger] occurs_at(v@, p@, k),
        decreases v@.len() - i,
    {
        if is_at(v, p, i) {
            return true;
        }
        if i == v.len() {
            return false;
        }
        i += 1;
    }
}

proof fn lemma_trim_start_from(s: Seq<char>, k: int)
    requires
        0 <= k <= s.len(),
        forall|i: int| 0 <= i < k ==> is_white(#[trigger] s[i]),
        k < s.len() ==> !is_white(s[k]),
    ensures
        trim_start(s) == s.skip(k),
    decreases k,
{
    if k == 0 {
        assert(s.skip(0) =~= s);
    } else {
        lemma_trim_start_from(s.skip(1), k - 1);
        assert(s.skip(1).skip(k - 1) =~= s.skip(k));
    }
}

proof fn lemma_trim_end_to(s: Seq<char>, k: int)
    requires
        0 <= k <= s.len(),
        forall|i: int| k <= i < s.len() ==> is_white(#[trigger] s[i]),
        k > 0 ==> !is_white(s[k - 1]),
    ensures
        trim_end(s) == s.take(k),
    decreases s.len() - k,
{
    if k == s.len() {
        assert(s.take(k) =~= s);
    } else {
        lemma_trim_end_to(s.drop_last(), k);
        assert(s.drop_last().take(k) =~= s.take(k));
    }
}

/// `v` without leading and trailing whitespace.
pub fn trimmed(v: &Vec<char>) -> (r: Vec<char>)
    ensures
        r@ == trim(v@),
{
    let mut a: usize = 0;
    while a < v.len() && v[a].is_whitespace()
        invariant
            a <= v@.len(),
            forall|i: int| 0 <= i < a ==> is_white(#[trigger] v@[i]),
        decreases v@.len() - a,
    {
        a += 1;
    }
    let mut b: usize = v.len();
    while b > a && v[b - 1].is_whitespace()
        invariant
            a <= b <= v@.len(),
            forall|i: int| b <= i < v@.len() ==> is_white(#[trigger] v@[i]),
        decreases b,
    {
        b -= 1;
    }
    proof {
        lemma_trim_start_from(v@, a as int);
        lemma_trim_end_to(v@.skip(a as int), b - a);
        assert(v@.skip(a as int).take(b - a) =~= v@.subrange(a as int, b as int));
    }
    piece(v, a, b)
}

// ---------------------------------------------------------------------------
// Lines and words
// ---------------------------------------------------------------------------

/// The position of the first `c` in `s`, or the length of `s` where there is none.
pub open spec fn find(s: Seq<char>, c: char) -> int
    decreases s.len(),
{
    if s.len() == 0 || s[0] == c {
        0
    } else {
        1 + find(s.skip(1), c)
    }
}

/// A line without the carriage return at its end, if it has one.
pub open spec fn strip_cr(line: Seq<char>) -> Seq<char> {
    if line.len() > 0 && line.last() == '\r' {
        line.drop_last()
    } else {
        line
    }
}

/// The lines of a text. A line ends at a newline, and a carriage return just
/// before the newline belongs to the line's end. A last line without a newline
/// counts if it is not empty, and keeps a carriage return at its end.
pub open spec fn lines(s: Seq<char>) -> Seq<Seq<char>>
    decreases s.len(),
    via lines_shrink
{
    let k = find(s, '\n');
    if s.len() == 0 {
        seq![]
    } else if k >= s.len() {
        seq![s]
    } else {
        seq![strip_cr(s.take(k))] + lines(s.skip(k + 1))
    }
}

#[via_fn]
proof fn lines_shrink(s: Seq<char>) {
    lemma_find(s, '\n');
}

pub proof fn lemma_find(s: Seq<char>, c: char)
    ensures
        0 <= find(s, c) <= s.len(),
        forall|i: int| 0 <= i < find(s, c) ==> #[trigger] s[i] != c,
        find(s, c) < s.len() ==> s[find(s, c)] == c,
    decreases s.len(),
{
    if s.len() > 0 && s[0] != c {
        lemma_find(s.skip(1), c);
        assert forall|i: int| 0 <= i < find(s, c) implies #[trigger] s[i] != c by {
            if i > 0 {
                assert(s[i] == s.skip(1)[i - 1]);
            }
        }
    }
}

pub proof fn lemma_find_is(s: Seq<char>, c: char, k: int)
    requires
        0 <= k <= s.len(),
        forall|i: int| 0 <= i < k ==> #[trigger] s[i] != c,
        k < s.len() ==> s[k] == c,
    ensures
        find(s, c) == k,
{
    lemma_find(s, c);
    let f = find(s, c);
    if f < k {
        assert(s[f] != c);
    }
    if k < f {
        assert(s[k] != c);
    }
}

/// The lines of a text.
pub fn lines_of(v: &Vec<char>) -> (r: Vec<Vec<char>>)
    ensures
        r@.map_values(|l: Vec<char>| l@) == lines(v@),
{
    let mut r: Vec<Vec<char>> = Vec::new();
    let mut start: usize = 0;
    let ghost view = |l: Vec<char>| l@;
    assert(v@.skip(0) =~= v@);
    assert(r@.map_values(view) + lines(v@) =~= lines(v@));
    while start < v.len()
        invariant
            start <= v@.len(),
            view == (|l: Vec<char>| l@),
            r@.map_values(view) + lines(v@.skip(start as int)) == lines(v@),
        decreases v@.len() - start,
    {
        let ghost rest = v@.skip(start as int);
        let ghost before = r@;
        let mut end: usize = start;
        while end < v.len() && v[end] != '\n'
            invariant
                start <= end <= v@.len(),
                rest == v@.skip(start as int),
                forall|i: int| 0 <= i < end - start ==> #[trigger] rest[i] != '\n',
            decreases v@.len() - end,
        {
            assert(rest[end - start] == v@[end as int]);
            end += 1;
        }
        proof {
            lemma_find_is(rest, '\n', end - start);
        }
        if end == v.len() {
            let line = piece(v, start, end);
            assert(line@ =~= rest);
            r.push(line);
            assert(lines(rest) =~= seq![rest]);
            assert(r@.map_values(view) =~= before.map_values(view).push(rest));
            assert(before.map_values(view) + seq![rest] =~= before.map_values(view).push(rest));
            start = end;
            assert(v@.skip(start as int).len() == 0);
            assert(lines(v@.skip(start as int)) =~= seq![]);
        } else {
            let stop: usize = if end > start && v[end - 1] == '\r' {
                end - 1
            } else {
                end
            };
            let line = piece(v, start, stop);
            assert(line@ =~= strip_cr(rest.take(end - start)));
            r.push(line);
            assert(rest.skip(end - start + 1) =~= v@.skip(end + 1));
            assert(r@.map_values(view) =~= before.map_values(view).push(line@));
            assert(before.map_values(view) + (seq![line@] + lines(v@.skip(end + 1)))
                =~= before.map_values(view).push(line@) + lines(v@.skip(end + 1)));
            start = end + 1;
        }
    }
    assert(v@.skip(start as int).len() == 0);
    assert(r@.map_values(view) + lines(v@.skip(start as int)) =~= r@.map_values(view));
    r
}

/// The number of characters before the first whitespace in `s`.
pub open spec fn word_len(s: Seq<char>) -> int
    decreases s.len(),
{
    if s.len() == 0 || is_white(s[0]) {
        0
    } else {
        1 + word_len(s.skip(1))
    }
}

/// The words of a text: its longest runs of characters that are not whitespace.
pub open spec fn words(s: Seq<char>) -> Seq<Seq<char>>
    decreases s.len(),
    via words_shrink
{
    let t = trim_start(s);
    if t.len() == 0 {
        seq![]
    } else {
        seq![t.take(word_len(t))] + words(t.skip(word_len(t)))
    }
}

#[via_fn]
proof fn words_shrink(s: Seq<char>) {
    lemma_trim_start_len(s);
    lemma_word_len(trim_start(s));
    if trim_start(s).len() > 0 {
        assert(word_len(trim_start(s)) > 0);
    }
}

proof fn lemma_trim_start_len(s: Seq<char>)
    ensures
        trim_start(s).len() <= s.len(),
        trim_start(s).len() > 0 ==> !is_white(trim_start(s)[0]),
    decreases s.len(),
{
    if s.len() > 0 && is_white(s[0]) {
        lemma_trim_start_len(s.skip(1));
    }
}

pub proof fn lemma_word_len(s: Seq<char>)
    ensures
        0 <= word_len(s) <= s.len(),
        forall|i: int| 0 <= i < word_len(s) ==> !is_white(#[trigger] s[i]),
        word_len(s) < s.len() ==> is_white(s[word_len(s)]),
        s.len() > 0 && !is_white(s[0]) ==> word_len(s) > 0,
    decreases s.len(),
{
    if s.len() > 0 && !is_white(s[0]) {
        lemma_word_len(s.skip(1));
        assert forall|i: int| 0 <= i < word_len(s) implies !is_white(#[trigger] s[i]) by {
            if i > 0 {
                assert(s[i] == s.skip(1)[i - 1]);
            }
        }
    }
}

proof fn lemma_word_len_is(s: Seq<char>, k: int)
    requires
        0 <= k <= s.len(),
        forall|i: int| 0 <= i < k ==> !is_white(#[trigger] s[i]),
        k < s.len() ==> is_white(s[k]),
    ensures
        word_len(s) == k,
{
    lemma_word_len(s);
    let w = word_len(s);
    if w < k {
        assert(!is_white(s[w]));
    }
    if k < w {
        assert(!is_white(s[k]));
    }
}

/// The words of a text.
pub fn words_of(v: &Vec<char>) -> (r: Vec<Vec<char>>)
    ensures
        r@.map_values(|l: Vec<char>| l@) == words(v@),
{
    let mut r: Vec<Vec<char>> = Vec::new();
    let mut at: usize = 0;
    let ghost view = |l: Vec<char>| l@;
    assert(v@.skip(0) =~= v@);
    assert(r@.map_values(view) + words(v@) =~= words(v@));
    loop
        invariant
            at <= v@.len(),
            view == (|l: Vec<char>| l@),
            r@.map_values(view) + words(v@.skip(at as int)) == words(v@),
        decreases v@.len() - at,
    {
        let ghost rest = v@.skip(at as int);
        let ghost before = r@;
        let mut from: usize = at;
        while from < v.len() && v[from].is_whitespace()
            invariant
                at <= from <= v@.len(),
                rest == v@.skip(at as int),
                forall|i: int| 0 <= i < from - at ==> is_white(#[trigger] rest[i]),
            decreases v@.len() - from,
        {
            assert(rest[from - at] == v@[from as int]);
            from += 1;
        }
        proof {
            lemma_trim_start_from(rest, from - at);
            assert(rest.skip(from - at) =~= v@.skip(from as int));
        }
        let ghost t = v@.skip(from as int);
        if from == v.len() {
            assert(words(rest) =~= seq![]);
            assert(r@.map_values(view) + seq![] =~= r@.map_values(view));
            return r;
        }
        let mut to: usize = from;
        while to < v.len() && !v[to].is_whitespace()
            invariant
                from <= to <= v@.len(),
                t == v@.skip(from as int),
                forall|i: int| 0 <= i < to - from ==> !is_white(#[trigger] t[i]),
            decreases v@.len() - to,
        {
            assert(t[to - from] == v@[to as int]);
            to += 1;
        }
        proof {
            lemma_word_len_is(t, to - from);
            lemma_word_len(t);
            assert(t[0] == v@[from as int]);
        }
        let word = piece(v, from, to);
        assert(word@ =~= t.take(to - from));
        assert(t.skip(to - from) =~= v@.skip(to as int));
        r.push(word);
        assert(r@.map_values(view) =~= before.map_values(view).push(word@));
        assert(before.map_values(view) + (seq![word@] + words(v@.skip(to as int)))
            =~= before.map_values(view).push(word@) + words(v@.skip(to as int)));
        at = to;
    }
}

// ---------------------------------------------------------------------------
// Replacement, case, numbers
// ---------------------------------------------------------------------------

/// `s` with each occurrence of `p`, taken from the left and without overlap,
/// replaced by `w`.
pub open spec fn replace(s: Seq<char>, p: Seq<char>, w: Seq<char>) -> Seq<char>
    recommends
        p.len() > 0,
    decreases s.len(),
{
    if s.len() == 0 {
        s
    } else if p.len() > 0 && starts_with(s, p) {
        w + replace(s.skip(p.len() as int), p, w)
    } else {
        seq![s[0]] + replace(s.skip(1), p, w)
    }
}

/// `v` with each occurrence of `p`, taken from the left and without overlap,
/// replaced by `w`.
pub fn replaced(v: &Vec<char>, p: &Vec<char>, w: &Vec<char>) -> (r: Vec<char>)
    requires
        p@.len() > 0,
    ensures
        r@ == replace(v@, p@, w@),
{
    let mut r: Vec<char> = Vec::new();
    let mut i: usize = 0;
    assert(v@.skip(0) =~= v@);
    assert(r@ + replace(v@, p@, w@) =~= replace(v@, p@, w@));
    while i < v.len()
        invariant
            i <= v@.len(),
            p@.len() > 0,
            r@ + replace(v@.skip(i as int), p@, w@) == replace(v@, p@, w@),
        decreases v@.len() - i,
    {
        let ghost rest = v@.skip(i as int);
        let ghost before = r@;
        if is_at(v, p, i) {
            assert(v@.subrange(i as int, i + p@.len()) =~= rest.take(p@.len() as int));
            assert(starts_with(rest, p@));
            append(&mut r, w);
            assert(rest.skip(p@.len() as int) =~= v@.skip(i + p@.len()));
            assert(before + (w@ + replace(v@.skip(i + p@.len()), p@, w@)) =~= before + w@
                + replace(v@.skip(i + p@.len()), p@, w@));
            i += p.len();
        } else {
            assert(!starts_with(rest, p@)) by {
                if starts_with(rest, p@) {
                    assert(v@.subrange(i as int, i + p@.len()) =~= rest.take(p@.len() as int));
                }
            }
            r.push(v[i]);
            assert(rest.skip(1) =~= v@.skip(i + 1));
            assert(before + (seq![rest[0]] + replace(v@.skip(i + 1), p@, w@)) =~= before.push(
                v@[i as int],
            ) + replace(v@.skip(i + 1), p@, w@));
            i += 1;
        }
    }
    assert(replace(v@.skip(i as int), p@, w@) =~= seq![]);
    assert(r@ + seq![] =~= r@);
    r
}

/// Replacing what does not occur changes nothing.
pub proof fn lemma_replace_nothing(s: Seq<char>, p: Seq<char>, w: Seq<char>)
    requires
        !contains(s, p),
    ensures
        replace(s, p, w) == s,
    decreases s.len(),
{
    if s.len() > 0 {
        let tail = s.skip(1);
        assert(!contains(tail, p)) by {
            if contains(tail, p) {
                let i = choose|i: int| occurs_at(tail, p, i);
                assert(s.subrange(i + 1, i + 1 + p.len()) =~= tail.subrange(i, i + p.len()));
                assert(occurs_at(s, p, i + 1));
            }
        }
        lemma_replace_nothing(tail, p, w);
        if starts_with(s, p) {
            assert(s.subrange(0, p.len() as int) =~= s.take(p.len() as int));
            assert(occurs_at(s, p, 0));
        }
        assert(seq![s[0]] + tail =~= s);
    }
}

/// The first occurrence is replaced, and the replacement goes on behind it.
pub proof fn lemma_replace_first(a: Seq<char>, p: Seq<char>, rest: Seq<char>, w: Seq<char>)
    requires
        p.len() > 0,
        forall|i: int| 0 <= i < a.len() ==> !#[trigger] occurs_at(a + p + rest, p, i),
    ensures
        replace(a + p + rest, p, w) == a + w + replace(rest, p, w),
    decreases a.len(),
{
    let s = a + p + rest;
    if a.len() == 0 {
        assert(s.take(p.len() as int) =~= p);
        assert(s.skip(p.len() as int) =~= rest);
        assert(a + w + replace(rest, p, w) =~= w + replace(rest, p, w));
    } else {
        let b = a.skip(1);
        assert(s.skip(1) =~= b + p + rest);
        assert(!starts_with(s, p)) by {
            if starts_with(s, p) {
                assert(s.subrange(0, p.len() as int) =~= s.take(p.len() as int));
                assert(occurs_at(s, p, 0));
            }
        }
        assert forall|i: int| 0 <= i < b.len() implies !#[trigger] occurs_at(b + p + rest, p, i) by {
            if occurs_at(b + p + rest, p, i) {
                assert(s.subrange(i + 1, i + 1 + p.len()) =~= (b + p + rest).subrange(
                    i,
                    i + p.len(),
                ));
                assert(occurs_at(s, p, i + 1));
            }
        }
        lemma_replace_first(b, p, rest, w);
        assert(seq![s[0]] + (b + w + replace(rest, p, w)) =~= a + w + replace(rest, p, w));
    }
}

/// Appends the characters of `w` to `v`.
pub fn append(v: &mut Vec<char>, w: &Vec<char>)
    ensures
        final(v)@ == old(v)@ + w@,
{
    let ghost before = v@;
    for i in 0..w.len()
        invariant
            v@ == before + w@.take(i as int),
    {
        v.push(w[i]);
        assert(w@.take(i + 1) =~= w@.take(i as int).push(w@[i as int]));
        assert(before + w@.take(i as int).push(w@[i as int]) =~= (before + w@.take(i as int)).push(
            w@[i as int],
        ));
    }
    assert(w@.take(w@.len() as int) =~= w@);
}

/// A character with an upper case ASCII letter turned into the lower case one.
pub open spec fn lower_char(c: char) -> char {
    if 'A' <= c <= 'Z' {
        (c as u8 + 32) as u8 as char
    } else {
        c
    }
}

/// A text with its upper case ASCII letters turned into lower case ones.
pub open spec fn lower(s: Seq<char>) -> Seq<char> {
    s.map_values(|c: char| lower_char(c))
}

/// `v` with its upper case ASCII letters turned into lower case ones.
pub fn lowered(v: &Vec<char>) -> (r: Vec<char>)
    ensures
        r@ == lower(v@),
{
    let mut r: Vec<char> = Vec::new();
    for i in 0..v.len()
        invariant
            r@ == lower(v@.take(i as int)),
    {
        let c = v[i];
        if 'A' <= c && c <= 'Z' {
            r.push((c as u8 + 32) as char);
        } else {
            r.push(c);
        }
        assert(r@ =~= lower(v@.take(i + 1)));
    }
    assert(v@.take(v@.len() as int) =~= v@);
    r
}

/// The decimal digit that stands for `d`.
pub open spec fn digit(d: nat) -> char {
    ('0' as u8 + d) as u8 as char
}

/// The decimal notation of `n`.
pub open spec fn decimal(n: nat) -> Seq<char>
    decreases n,
{
    if n < 10 {
        seq![digit(n)]
    } else {
        decimal(n / 10).push(digit(n % 10))
    }
}

/// Decimal notation consists of digits.
pub proof fn lemma_decimal_digits(n: nat)
    ensures
        forall|i: int| 0 <= i < decimal(n).len() ==> '0' <= #[trigger] decimal(n)[i] <= '9',
    decreases n,
{
    if n >= 10 {
        lemma_decimal_digits(n / 10);
        assert(decimal(n) == decimal(n / 10).push(digit(n % 10)));
        assert('0' <= digit(n % 10) <= '9');
    } else {
        assert(decimal(n) == seq![digit(n)]);
        assert('0' <= digit(n) <= '9');
    }
}

/// Appends the decimal notation of `n` to `s`.
pub fn push_decimal(s: &mut String, n: u64)
    ensures
        final(s)@ == old(s)@ + decimal(n as nat),
    decreases n,
{
    let ghost before = s@;
    if n >= 10 {
        push_decimal(s, n / 10);
    }
    let d: u8 = (n % 10) as u8;
    s.push(('0' as u8 + d) as char);
    assert(s@ =~= before + decimal(n as nat));
}

/// The decimal notation of `n`.
pub fn decimal_of(n: u64) -> (r: String)
    ensures
        r@ == decimal(n as nat),
{
    let mut r: String = String::new();
    push_decimal(&mut r, n);
    assert(r@ =~= decimal(n as nat));
    r
}

// ---------------------------------------------------------------------------
// How lines, words and trimming compose
// ---------------------------------------------------------------------------

/// The lines of a text that ends in a newline, and those of a text after it, are
/// the lines of both together.
pub proof fn lemma_lines_add(a: Seq<char>, b: Seq<char>)
    requires
        a.len() == 0 || a.last() == '\n',
    ensures
        lines(a + b) == lines(a) + lines(b),
    decreases a.len(),
{
    if a.len() == 0 {
        assert(a + b =~= b);
        assert(lines(a) + lines(b) =~= lines(b));
    } else {
        lemma_find(a, '\n');
        let k = find(a, '\n');
        if k == a.len() {
            assert(a[a.len() - 1] != '\n');
        }
        assert forall|i: int| 0 <= i < k implies #[trigger] (a + b)[i] != '\n' by {
            assert((a + b)[i] == a[i]);
        }
        lemma_find_is(a + b, '\n', k);
        let rest = a.skip(k + 1);
        assert((a + b).take(k) =~= a.take(k));
        assert((a + b).skip(k + 1) =~= rest + b);
        lemma_lines_add(rest, b);
        assert(seq![strip_cr(a.take(k))] + (lines(rest) + lines(b)) =~= seq![strip_cr(a.take(k))]
            + lines(rest) + lines(b));
    }
}

/// One line ended by a newline is one line.
pub proof fn lemma_lines_one(l: Seq<char>)
    requires
        !has_char(l, '\n'),
    ensures
        lines(l.push('\n')) == seq![strip_cr(l)],
{
    let s = l.push('\n');
    assert forall|i: int| 0 <= i < l.len() implies #[trigger] s[i] != '\n' by {
        assert(s[i] == l[i]);
    }
    lemma_find_is(s, '\n', l.len() as int);
    assert(s.take(l.len() as int) =~= l);
    assert(s.skip(l.len() as int + 1) =~= seq![]);
    assert(lines(seq![]) =~= seq![]);
    assert(lines(s) =~= seq![strip_cr(l)]);
}

/// No line holds a newline.
pub proof fn lemma_lines_hold_no_newline(s: Seq<char>)
    ensures
        forall|i: int| 0 <= i < lines(s).len() ==> !has_char(#[trigger] lines(s)[i], '\n'),
    decreases s.len(),
{
    if s.len() > 0 {
        lemma_find(s, '\n');
        let k = find(s, '\n');
        if k >= s.len() {
            assert(lines(s) =~= seq![s]);
            assert(!has_char(s, '\n'));
        } else {
            lemma_lines_hold_no_newline(s.skip(k + 1));
            let first = strip_cr(s.take(k));
            if has_char(first, '\n') {
                let j = choose|j: int| 0 <= j < first.len() && #[trigger] first[j] == '\n';
                assert(s[j] == '\n');
            }
            assert forall|i: int| 0 <= i < lines(s).len() implies !has_char(
                #[trigger] lines(s)[i],
                '\n',
            ) by {
                if i > 0 {
                    assert(lines(s)[i] == lines(s.skip(k + 1))[i - 1]);
                }
            }
        }
    }
}

/// Leading whitespace does not matter to trimming.
pub proof fn lemma_trim_leading(c: char, s: Seq<char>)
    requires
        is_white(c),
    ensures
        trim(seq![c] + s) == trim(s),
{
    assert((seq![c] + s).skip(1) =~= s);
}

proof fn lemma_trim_end_push(s: Seq<char>, c: char)
    requires
        is_white(c),
    ensures
        trim_end(s.push(c)) == trim_end(s),
{
    assert(s.push(c).drop_last() =~= s);
}

proof fn lemma_trim_start_push(s: Seq<char>, c: char)
    requires
        is_white(c),
    ensures
        trim_start(s.push(c)) == if trim_start(s).len() == 0 {
            seq![]
        } else {
            trim_start(s).push(c)
        },
    decreases s.len(),
{
    if s.len() == 0 {
        assert(s.push(c).skip(1) =~= seq![]);
        assert(trim_start(Seq::<char>::empty()) =~= seq![]);
        assert(trim_start(s.push(c)) == trim_start(s.push(c).skip(1)));
    } else if is_white(s[0]) {
        assert(s.push(c).skip(1) =~= s.skip(1).push(c));
        lemma_trim_start_push(s.skip(1), c);
    }
}

/// Trailing whitespace does not matter to trimming.
pub proof fn lemma_trim_trailing(s: Seq<char>, c: char)
    requires
        is_white(c),
    ensures
        trim(s.push(c)) == trim(s),
{
    lemma_trim_start_push(s, c);
    if trim_start(s).len() > 0 {
        lemma_trim_end_push(trim_start(s), c);
    }
}

/// A carriage return at the end of a line does not matter to trimming.
pub proof fn lemma_trim_strip_cr(l: Seq<char>)
    ensures
        trim(strip_cr(l)) == trim(l),
{
    if l.len() > 0 && l.last() == '\r' {
        lemma_trim_trailing(l.drop_last(), '\r');
        assert(l.drop_last().push('\r') =~= l);
    }
}

/// A text that neither begins nor ends with whitespace is trimmed.
pub proof fn lemma_trim_id(s: Seq<char>)
    requires
        s.len() > 0 ==> !is_white(s[0]) && !is_white(s.last()),
    ensures
        trim(s) == s,
{
}

/// A trimmed text neither begins nor ends with whitespace.
pub proof fn lemma_trim_ends(s: Seq<char>)
    ensures
        trim(s).len() > 0 ==> !is_white(trim(s)[0]) && !is_white(trim(s).last()),
    decreases s.len(),
{
    lemma_trim_start_len(s);
    lemma_trim_end_first(trim_start(s));
}

proof fn lemma_trim_end_first(s: Seq<char>)
    ensures
        trim_end(s).len() > 0 ==> trim_end(s)[0] == s[0] && !is_white(trim_end(s).last()),
        trim_end(s).len() <= s.len(),
    decreases s.len(),
{
    if s.len() > 0 && is_white(s.last()) {
        lemma_trim_end_first(s.drop_last());
    }
}

/// A word and a blank before a text are one more word.
pub proof fn lemma_words_cons(w: Seq<char>, s: Seq<char>)
    requires
        w.len() > 0,
        no_white(w),
    ensures
        words(w + seq![' '] + s) == seq![w] + words(s),
{
    let all = w + seq![' '] + s;
    assert(all[0] == w[0]);
    assert(all[w.len() as int] == ' ');
    assert forall|i: int| 0 <= i < w.len() implies !is_white(#[trigger] all[i]) by {
        assert(all[i] == w[i]);
    }
    lemma_word_len_is(all, w.len() as int);
    assert(trim_start(all) == all);
    assert(all.take(w.len() as int) =~= w);
    let rest = all.skip(w.len() as int);
    assert(rest =~= seq![' '] + s);
    assert(rest.skip(1) =~= s);
    assert(trim_start(rest) == trim_start(s));
    assert(words(rest) == words(s));
}

/// One word is one word.
pub proof fn lemma_words_one(w: Seq<char>)
    requires
        w.len() > 0,
        no_white(w),
    ensures
        words(w) == seq![w],
{
    lemma_word_len_is(w, w.len() as int);
    assert(trim_start(w) == w);
    assert(w.take(w.len() as int) =~= w);
    let rest = w.skip(w.len() as int);
    assert(rest.len() == 0);
    assert(trim_start(rest).len() == 0);
    assert(words(rest) =~= seq![]);
    assert(words(w) =~= seq![w]);
}

/// The first word of a text is a part of it.
pub proof fn lemma_first_word(s: Seq<char>)
    requires
        words(s).len() > 0,
    ensures
        contains(s, words(s)[0]),
{
    let t = trim_start(s);
    lemma_trim_start_part(s);
    lemma_word_len(t);
    let n = word_len(t);
    let w = t.take(n);
    assert(words(s)[0] == w);
    let i = s.len() - t.len();
    assert(s.subrange(i, i + n) =~= t.subrange(0, n));
    assert(t.subrange(0, n) =~= w);
    assert(occurs_at(s, w, i));
}

proof fn lemma_trim_start_part(s: Seq<char>)
    ensures
        trim_start(s).len() <= s.len(),
        trim_start(s) == s.skip(s.len() - trim_start(s).len()),
    decreases s.len(),
{
    if s.len() > 0 && is_white(s[0]) {
        lemma_trim_start_part(s.skip(1));
    }
    let t = trim_start(s);
    assert(t =~= s.skip(s.len() - t.len()));
}

proof fn lemma_trim_end_part(s: Seq<char>)
    ensures
        trim_end(s).len() <= s.len(),
        trim_end(s) == s.take(trim_end(s).len() as int),
    decreases s.len(),
{
    if s.len() > 0 && is_white(s.last()) {
        lemma_trim_end_part(s.drop_last());
    }
    let t = trim_end(s);
    assert(t =~= s.take(t.len() as int));
}

/// A trimmed text is a part of the text.
pub proof fn lemma_trim_part(s: Seq<char>)
    ensures
        contains(s, trim(s)),
{
    lemma_trim_start_part(s);
    let t = trim_start(s);
    lemma_trim_end_part(t);
    let u = trim_end(t);
    let i = s.len() - t.len();
    assert(s.subrange(i, i + u.len()) =~= u);
    assert(occurs_at(s, u, i));
}

} // verus!
