//! What holds of text: what a prefix, a part, a line, a word and a number in
//! writing are, told by how texts are put together.
use vstd::prelude::*;

use crate::text;

verus! {

/// Whether every character of a text is whitespace.
pub open spec fn all_white(s: Seq<char>) -> bool {
    forall|i: int| 0 <= i < s.len() ==> text::is_white(#[trigger] s[i])
}

/// Whether a text neither begins nor ends with whitespace.
pub open spec fn is_trimmed(s: Seq<char>) -> bool {
    s.len() > 0 ==> !text::is_white(s[0]) && !text::is_white(s[s.len() - 1])
}

/// Of the ASCII characters, the blank and those from tabulator to carriage return
/// are whitespace.
pub proof fn ascii_whitespace(c: char)
    requires
        c as u32 <= 0x7f,
    ensures
        text::is_white(c) <==> c as u32 == 0x20 || 9 <= c as u32 <= 13,
{
}

/// Beyond ASCII, the whitespace are the next-line character and the spaces and
/// separators of Unicode.
pub proof fn unicode_whitespace(c: char)
    requires
        c as u32 > 0x7f,
    ensures
        text::is_white(c) <==> {
            let u = c as u32;
            u == 0x85 || u == 0xa0 || u == 0x1680 || 0x2000 <= u <= 0x200a || u == 0x2028 || u
                == 0x2029 || u == 0x202f || u == 0x205f || u == 0x3000
        },
{
}

/// A text begins with a prefix exactly where it is the prefix and something behind
/// it.
pub proof fn prefixes_come_first(s: Seq<char>, p: Seq<char>, rest: Seq<char>)
    ensures
        text::starts_with(p + rest, p),
        text::starts_with(s, p) ==> s == p + s.skip(p.len() as int),
{
    assert((p + rest).take(p.len() as int) =~= p);
    if text::starts_with(s, p) {
        assert(s =~= s.take(p.len() as int) + s.skip(p.len() as int));
    }
}

/// A text ends with a suffix exactly where it is something and the suffix behind
/// it.
pub proof fn suffixes_come_last(s: Seq<char>, p: Seq<char>, rest: Seq<char>)
    ensures
        text::ends_with(rest + p, p),
        text::ends_with(s, p) ==> s == s.take(s.len() - p.len()) + p,
{
    assert((rest + p).skip(rest.len() as int) =~= p);
    if text::ends_with(s, p) {
        assert(s =~= s.take(s.len() - p.len()) + s.skip(s.len() - p.len()));
    }
}

/// A text holds every part that it is put together from.
pub proof fn parts_stand_inside(a: Seq<char>, p: Seq<char>, b: Seq<char>)
    ensures
        text::contains(a + p + b, p),
{
    let all = a + p + b;
    assert(all.subrange(a.len() as int, a.len() as int + p.len()) =~= p);
    assert(text::occurs_at(all, p, a.len() as int));
}

/// A text that holds a part is that part with something before and something behind
/// it.
pub proof fn a_part_has_a_place(s: Seq<char>, p: Seq<char>) -> (r: (Seq<char>, Seq<char>))
    requires
        text::contains(s, p),
    ensures
        s == r.0 + p + r.1,
{
    let i = choose|i: int| text::occurs_at(s, p, i);
    let x = s.take(i);
    let y = s.skip(i + p.len());
    assert(s =~= x + s.subrange(i, i + p.len()) + y);
    (x, y)
}

/// A character is one of a text, or none of it is whitespace, in the plain sense.
pub proof fn characters_of_a_text(s: Seq<char>, c: char)
    ensures
        text::has_char(s, c) <==> s.contains(c),
        text::no_white(s) && s.contains(c) ==> !text::is_white(c),
        !text::no_white(s) ==> exists|i: int| 0 <= i < s.len() && text::is_white(#[trigger] s[i]),
{
}

/// Trimming takes away all the whitespace around a text, and nothing else.
pub proof fn trimming_takes_away_outer_whitespace(a: Seq<char>, m: Seq<char>, b: Seq<char>)
    requires
        all_white(a),
        is_trimmed(m),
        all_white(b),
    ensures
        text::trim(a + m + b) == m,
    decreases a.len() + b.len(),
{
    if a.len() > 0 {
        let tail = a.skip(1);
        assert forall|i: int| 0 <= i < tail.len() implies text::is_white(#[trigger] tail[i]) by {
            assert(tail[i] == a[i + 1]);
        }
        trimming_takes_away_outer_whitespace(tail, m, b);
        assert(text::is_white(a[0]));
        assert(a + m + b =~= seq![a[0]] + (tail + m + b));
        text::lemma_trim_leading(a[0], tail + m + b);
    } else if b.len() > 0 {
        let head = b.drop_last();
        assert forall|i: int| 0 <= i < head.len() implies text::is_white(#[trigger] head[i]) by {
            assert(head[i] == b[i]);
        }
        trimming_takes_away_outer_whitespace(a, m, head);
        assert(text::is_white(b[b.len() - 1]));
        assert(a + m + b =~= (a + m + head).push(b[b.len() - 1]));
        text::lemma_trim_trailing(a + m + head, b[b.len() - 1]);
    } else {
        assert(a + m + b =~= m);
        text::lemma_trim_id(m);
    }
}

/// Every text is a trimmed one with whitespace around it: the one that trimming
/// gives.
pub proof fn every_text_can_be_trimmed(s: Seq<char>) -> (r: (Seq<char>, Seq<char>))
    ensures
        s == r.0 + text::trim(s) + r.1,
        all_white(r.0),
        all_white(r.1),
        is_trimmed(text::trim(s)),
    decreases s.len(),
{
    if s.len() > 0 && text::is_white(s[0]) {
        let tail = s.skip(1);
        let (a, b) = every_text_can_be_trimmed(tail);
        let first = seq![s[0]];
        assert(s =~= first + tail);
        text::lemma_trim_leading(s[0], tail);
        lemma_white_add(first, a);
        let m = text::trim(s);
        assert(first + (a + m + b) =~= first + a + m + b);
        (first + a, b)
    } else if s.len() > 0 && text::is_white(s[s.len() - 1]) {
        let head = s.drop_last();
        let (a, b) = every_text_can_be_trimmed(head);
        let last = seq![s[s.len() - 1]];
        assert(s =~= head + last);
        assert(s =~= head.push(s[s.len() - 1]));
        text::lemma_trim_trailing(head, s[s.len() - 1]);
        lemma_white_add(b, last);
        let m = text::trim(s);
        assert(a + m + b + last =~= a + m + (b + last));
        (a, b + last)
    } else {
        text::lemma_trim_id(s);
        let none = Seq::<char>::empty();
        assert(s =~= none + s + none);
        (none, none)
    }
}

proof fn lemma_white_add(a: Seq<char>, b: Seq<char>)
    requires
        all_white(a),
        all_white(b),
    ensures
        all_white(a + b),
{
    assert forall|i: int| 0 <= i < (a + b).len() implies text::is_white(#[trigger] (a + b)[i]) by {
        if i < a.len() {
            assert((a + b)[i] == a[i]);
        } else {
            assert((a + b)[i] == b[i - a.len()]);
        }
    }
}

/// A line ends at a newline, or at a carriage return and a newline. What is left
/// at the end without a newline is a line if it is not empty.
pub proof fn lines_end_at_newlines(l: Seq<char>, rest: Seq<char>)
    requires
        forall|i: int| 0 <= i < l.len() ==> #[trigger] l[i] != '\n',
    ensures
        l.len() > 0 && l[l.len() - 1] == '\r' || text::lines(l + seq!['\n'] + rest) == seq![l]
            + text::lines(rest),
        text::lines(l + seq!['\r', '\n'] + rest) == seq![l] + text::lines(rest),
        l.len() > 0 ==> text::lines(l) == seq![l],
        text::lines(seq![]) == Seq::<Seq<char>>::empty(),
{
    let x = l + seq!['\n'] + rest;
    assert forall|i: int| 0 <= i < l.len() implies #[trigger] x[i] != '\n' by {
        assert(x[i] == l[i]);
    }
    text::lemma_find_is(x, '\n', l.len() as int);
    assert(x.take(l.len() as int) =~= l);
    assert(x.skip(l.len() as int + 1) =~= rest);
    let cr = l.push('\r');
    let y = l + seq!['\r', '\n'] + rest;
    assert forall|i: int| 0 <= i < cr.len() implies #[trigger] y[i] != '\n' by {
        assert(y[i] == cr[i]);
    }
    text::lemma_find_is(y, '\n', cr.len() as int);
    assert(y.take(cr.len() as int) =~= cr);
    assert(y.skip(cr.len() as int + 1) =~= rest);
    assert(cr.drop_last() =~= l);
    text::lemma_find_is(l, '\n', l.len() as int);
}

/// Words are what whitespace separates.
pub proof fn words_are_separated_by_whitespace(w: Seq<char>, gap: Seq<char>, rest: Seq<char>)
    requires
        w.len() > 0,
        forall|i: int| 0 <= i < w.len() ==> !text::is_white(#[trigger] w[i]),
        gap.len() > 0,
        all_white(gap),
    ensures
        text::words(w + gap + rest) == seq![w] + text::words(rest),
        text::words(gap + rest) == text::words(rest),
        text::words(w) == seq![w],
        text::words(seq![]) == Seq::<Seq<char>>::empty(),
{
    let tail = gap.skip(1);
    assert forall|i: int| 0 <= i < tail.len() implies text::is_white(#[trigger] tail[i]) by {
        assert(tail[i] == gap[i + 1]);
    }
    lemma_gap(tail, rest);
    lemma_gap(gap, rest);
    lemma_word_then(w, gap[0], tail + rest);
    assert(w + gap + rest =~= w + seq![gap[0]] + (tail + rest));
    text::lemma_words_one(w);
}

proof fn lemma_gap(gap: Seq<char>, rest: Seq<char>)
    requires
        all_white(gap),
    ensures
        text::words(gap + rest) == text::words(rest),
    decreases gap.len(),
{
    if gap.len() == 0 {
        assert(gap + rest =~= rest);
    } else {
        let tail = gap.skip(1);
        assert forall|i: int| 0 <= i < tail.len() implies text::is_white(#[trigger] tail[i]) by {
            assert(tail[i] == gap[i + 1]);
        }
        lemma_gap(tail, rest);
        assert(text::is_white(gap[0]));
        assert((gap + rest).skip(1) =~= tail + rest);
        assert(text::trim_start(gap + rest) == text::trim_start(tail + rest));
    }
}

proof fn lemma_word_then(w: Seq<char>, c: char, s: Seq<char>)
    requires
        w.len() > 0,
        forall|i: int| 0 <= i < w.len() ==> !text::is_white(#[trigger] w[i]),
        text::is_white(c),
    ensures
        text::words(w + seq![c] + s) == seq![w] + text::words(s),
{
    let all = w + seq![c] + s;
    assert(all[0] == w[0]);
    assert(all[w.len() as int] == c);
    text::lemma_word_len(all);
    let n = text::word_len(all);
    assert(n == w.len()) by {
        if n < w.len() {
            assert(all[n] == w[n]);
        } else if n > w.len() {
            assert(!text::is_white(all[w.len() as int]));
        }
    }
    assert(text::trim_start(all) == all);
    assert(all.take(n) =~= w);
    let rest = all.skip(n);
    assert(rest =~= seq![c] + s);
    lemma_gap(seq![c], s);
}

/// The words of two texts with whitespace between them are those of the one and then
/// those of the other.
pub proof fn gaps_separate_words(a: Seq<char>, gap: Seq<char>, rest: Seq<char>)
    requires
        gap.len() > 0,
        all_white(gap),
    ensures
        text::words(a + gap + rest) == text::words(a) + text::words(rest),
    decreases a.len(),
{
    if a.len() == 0 {
        lemma_gap(gap, rest);
        assert(a + gap + rest =~= gap + rest);
        assert(text::trim_start(a).len() == 0);
        assert(text::words(a) =~= seq![]);
        assert(text::words(a) + text::words(rest) =~= text::words(rest));
    } else if text::is_white(a[0]) {
        let tail = a.skip(1);
        gaps_separate_words(tail, gap, rest);
        lemma_gap(seq![a[0]], tail);
        lemma_gap(seq![a[0]], tail + gap + rest);
        assert(a =~= seq![a[0]] + tail);
        assert(a + gap + rest =~= seq![a[0]] + (tail + gap + rest));
    } else {
        text::lemma_word_len(a);
        let n = text::word_len(a);
        let w = a.take(n);
        assert forall|i: int| 0 <= i < w.len() implies !text::is_white(#[trigger] w[i]) by {
            assert(w[i] == a[i]);
        }
        if n == a.len() {
            assert(w =~= a);
            words_are_separated_by_whitespace(w, gap, rest);
        } else {
            let c = a[n];
            let tail = a.skip(n + 1);
            gaps_separate_words(tail, gap, rest);
            lemma_word_then(w, c, tail);
            lemma_word_then(w, c, tail + gap + rest);
            assert(a =~= w + seq![c] + tail);
            assert(a + gap + rest =~= w + seq![c] + (tail + gap + rest));
            assert(seq![w] + (text::words(tail) + text::words(rest)) =~= seq![w] + text::words(tail)
                + text::words(rest));
        }
    }
}

/// Lower case changes the letters from `A` to `Z` into those from `a` to `z`, and
/// nothing else.
pub proof fn lower_case_changes_capital_letters(s: Seq<char>, i: int)
    requires
        0 <= i < s.len(),
    ensures
        text::lower(s).len() == s.len(),
        0x41 <= s[i] as u32 <= 0x5a ==> text::lower(s)[i] as u32 == s[i] as u32 + 32,
        !(0x41 <= s[i] as u32 <= 0x5a) ==> text::lower(s)[i] == s[i],
{
}

/// The number that a text of decimal digits stands for.
pub open spec fn value(digits: Seq<char>) -> int
    decreases digits.len(),
{
    if digits.len() == 0 {
        0
    } else {
        10 * value(digits.drop_last()) + (digits[digits.len() - 1] as int - '0' as int)
    }
}

/// Decimal notation reads back: its digits, in base ten, make up the number. It
/// consists of digits and begins with no zero, but for the number zero. So numbers
/// that differ are written differently.
pub proof fn decimal_notation_reads_back(n: nat)
    ensures
        value(text::decimal(n)) == n,
        text::decimal(n).len() > 0,
        forall|i: int|
            0 <= i < text::decimal(n).len() ==> '0' <= #[trigger] text::decimal(n)[i] <= '9',
        n > 0 ==> text::decimal(n)[0] != '0',
    decreases n,
{
    text::lemma_decimal_digits(n);
    let d = text::decimal(n);
    if n >= 10 {
        decimal_notation_reads_back(n / 10);
        assert(d.drop_last() =~= text::decimal(n / 10));
        assert(d[0] == text::decimal(n / 10)[0]);
        assert(d[d.len() - 1] as int == '0' as int + n % 10);
    } else {
        assert(d.drop_last() =~= seq![]);
        assert(value(d.drop_last()) == 0);
        assert(d[0] as int == '0' as int + n);
    }
}

/// Numbers that differ are written differently.
pub proof fn decimal_notations_differ(m: nat, n: nat)
    requires
        text::decimal(m) == text::decimal(n),
    ensures
        m == n,
{
    decimal_notation_reads_back(m);
    decimal_notation_reads_back(n);
}

} // verus!
