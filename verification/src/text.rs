//! Character and number handling shared by the assembler and the machine:
//! whitespace and label-character classes, line splitting, whitespace
//! trimming and tokenising, decimal parsing, and decimal rendering.
//!
//! Every executable function here is proved against a spec function over
//! `Seq<char>`; the parser's and the machine's contracts are phrased in
//! terms of those spec functions.

use vstd::prelude::*;

verus! {

/// Whitespace, as the assembler understands it: the ASCII space, tab,
/// line feed, vertical tab, form feed and carriage return characters.
pub open spec fn is_space(c: char) -> bool {
    c == ' ' || c == '\t' || c == '\n' || c == '\u{b}' || c == '\u{c}' || c == '\r'
}

/// Whether `c` may open a label name: an ASCII letter or an underscore.
pub open spec fn is_label_start(c: char) -> bool {
    ('a' <= c && c <= 'z') || ('A' <= c && c <= 'Z') || c == '_'
}

/// Whether `c` may stand anywhere in a label name: an ASCII letter, an
/// ASCII digit or an underscore.
pub open spec fn is_label_char(c: char) -> bool {
    is_label_start(c) || is_digit(c)
}

/// Whether `c` is an ASCII decimal digit.
pub open spec fn is_digit(c: char) -> bool {
    '0' <= c && c <= '9'
}

/// The numeric value of an ASCII decimal digit.
pub open spec fn digit_value(c: char) -> int {
    c as int - '0' as int
}

/// Exec mirror of [`is_space`].
pub fn char_is_space(c: char) -> (r: bool)
    ensures
        r == is_space(c),
{
    c == ' ' || c == '\t' || c == '\n' || c == '\u{b}' || c == '\u{c}' || c == '\r'
}

/// Exec mirror of [`is_label_start`].
pub fn char_is_label_start(c: char) -> (r: bool)
    ensures
        r == is_label_start(c),
{
    ('a' <= c && c <= 'z') || ('A' <= c && c <= 'Z') || c == '_'
}

/// Exec mirror of [`is_label_char`].
pub fn char_is_label_char(c: char) -> (r: bool)
    ensures
        r == is_label_char(c),
{
    char_is_label_start(c) || char_is_digit(c)
}

/// Exec mirror of [`is_digit`].
pub fn char_is_digit(c: char) -> (r: bool)
    ensures
        r == is_digit(c),
{
    '0' <= c && c <= '9'
}

/// The uppercase form of an ASCII letter; any other character is left
/// unchanged.
pub open spec fn upper(c: char) -> char {
    if 'a' <= c && c <= 'z' {
        ((c as u32) - 32) as char
    } else {
        c
    }
}

/// Exec mirror of [`upper`].
pub fn char_upper(c: char) -> (r: char)
    ensures
        r == upper(c),
{
    if 'a' <= c && c <= 'z' {
        (((c as u32) - 32) as u8) as char
    } else {
        c
    }
}

/// The characters of a string slice, as a vector.
pub fn chars_of(s: &str) -> (r: Vec<char>)
    ensures
        r@ == s@,
{
    let n = s.unicode_len();
    let mut r: Vec<char> = Vec::new();
    let mut i: usize = 0;
    while i < n
        invariant
            n == s@.len(),
            i <= n,
            r@ == s@.take(i as int),
        decreases n - i,
    {
        r.push(s.get_char(i));
        i = i + 1;
        proof {
            assert(r@ =~= s@.take(i as int));
        }
    }
    proof {
        assert(s@.take(n as int) =~= s@);
    }
    r
}

/// The text before the first `#`, or all of it if there is none: a line
/// with its comment stripped.
pub open spec fn before_comment(s: Seq<char>) -> Seq<char>
    decreases s.len(),
{
    if s.len() == 0 {
        s
    } else if s[0] == '#' {
        Seq::empty()
    } else {
        seq![s[0]] + before_comment(s.drop_first())
    }
}

/// `before_comment` keeps exactly the prefix up to the first `#`.
pub proof fn lemma_before_comment_take(s: Seq<char>, k: int)
    requires
        0 <= k <= s.len(),
        forall|j: int| 0 <= j < k ==> s[j] != '#',
        k < s.len() ==> s[k] == '#',
    ensures
        before_comment(s) == s.take(k),
    decreases s.len(),
{
    if s.len() == 0 {
        assert(before_comment(s) =~= s.take(k));
    } else if k == 0 {
        if s[0] == '#' {
            assert(before_comment(s) =~= s.take(0));
        } else {
            // k == 0 with s[0] != '#' is ruled out: k < s.len() forces s[k] == '#'.
            assert(s[0] == '#');
        }
    } else {
        let t = s.drop_first();
        assert(forall|j: int| 0 <= j < k - 1 ==> t[j] == s[j + 1] && t[j] != '#');
        lemma_before_comment_take(t, k - 1);
        assert(before_comment(s) =~= s.take(k)) by {
            assert(before_comment(s) == seq![s[0]] + t.take(k - 1));
        }
    }
}

/// The index where a line's comment starts: the position of its first
/// `#`, or its length if it has none. The text before that index is
/// exactly [`before_comment`] of the line.
pub fn comment_cut(line: &Vec<char>) -> (r: usize)
    ensures
        r <= line@.len(),
        before_comment(line@) == line@.take(r as int),
{
    let n = line.len();
    let mut i: usize = 0;
    while i < n
        invariant
            n == line@.len(),
            i <= n,
            forall|j: int| 0 <= j < i ==> line@[j] != '#',
        decreases n - i,
    {
        if line[i] == '#' {
            proof {
                lemma_before_comment_take(line@, i as int);
            }
            return i;
        }
        i = i + 1;
    }
    proof {
        lemma_before_comment_take(line@, n as int);
    }
    n
}

/// The whitespace-separated words of `s`, given the word accumulated so
/// far. The helper behind [`split_ws`].
pub open spec fn split_ws_acc(s: Seq<char>, cur: Seq<char>) -> Seq<Seq<char>>
    decreases s.len(),
{
    if s.len() == 0 {
        if cur.len() == 0 {
            Seq::empty()
        } else {
            seq![cur]
        }
    } else if is_space(s[0]) {
        if cur.len() == 0 {
            split_ws_acc(s.drop_first(), Seq::empty())
        } else {
            seq![cur] + split_ws_acc(s.drop_first(), Seq::empty())
        }
    } else {
        split_ws_acc(s.drop_first(), cur.push(s[0]))
    }
}

/// The whitespace-separated words of `s`, in order: what splitting on
/// whitespace yields. Words are maximal runs of non-whitespace
/// characters; there are no empty words.
pub open spec fn split_ws(s: Seq<char>) -> Seq<Seq<char>> {
    split_ws_acc(s, Seq::empty())
}

/// The texts a sequence of index spans selects out of `s`.
pub open spec fn span_texts(spans: Seq<(usize, usize)>, s: Seq<char>) -> Seq<Seq<char>> {
    spans.map_values(|p: (usize, usize)| s.subrange(p.0 as int, p.1 as int))
}

/// Splits `line[..end]` into its whitespace-separated words, returned as
/// index spans into `line`. The spanned texts are exactly
/// [`split_ws`] of `line[..end]`.
#[verifier::spinoff_prover]
pub fn tokenize(line: &Vec<char>, end: usize) -> (r: Vec<(usize, usize)>)
    requires
        end <= line@.len(),
    ensures
        ({
            let toks = split_ws(line@.take(end as int));
            &&& span_texts(r@, line@) == toks
            &&& forall|i: int| 0 <= i < r@.len() ==> #[trigger] r@[i].0 < r@[i].1 <= end
        }),
{
    let ghost content = line@.take(end as int);
    let mut r: Vec<(usize, usize)> = Vec::new();
    let mut cur_start: Option<usize> = None;
    let mut i: usize = 0;
    proof {
        assert(content.subrange(0, end as int) =~= content);
        assert(span_texts(Seq::<(usize, usize)>::empty(), line@) + split_ws_acc(
            content,
            Seq::<char>::empty(),
        ) =~= split_ws_acc(content, Seq::<char>::empty()));
    }
    while i < end
        invariant
            end <= line@.len(),
            content == line@.take(end as int),
            i <= end,
            match cur_start {
                Some(st) => st < i,
                None => true,
            },
            forall|k: int| 0 <= k < r@.len() ==> #[trigger] r@[k].0 < r@[k].1 <= end,
            split_ws(content) == span_texts(r@, line@) + split_ws_acc(
                content.subrange(i as int, end as int),
                match cur_start {
                    Some(st) => line@.subrange(st as int, i as int),
                    None => Seq::<char>::empty(),
                },
            ),
        decreases end - i,
    {
        let c = line[i];
        let ghost rest = content.subrange(i as int, end as int);
        proof {
            assert(rest[0] == c);
            assert(rest.drop_first() =~= content.subrange(i as int + 1, end as int));
        }
        if char_is_space(c) {
            match cur_start {
                Some(st) => {
                    r.push((st, i));
                    proof {
                        assert(span_texts(r@, line@) =~= span_texts(r@.drop_last(), line@)
                            + seq![line@.subrange(st as int, i as int)]);
                        assert(span_texts(r@.drop_last(), line@) + (seq![
                            line@.subrange(st as int, i as int),
                        ] + split_ws_acc(rest.drop_first(), Seq::<char>::empty()))
                            =~= span_texts(r@, line@) + split_ws_acc(
                            rest.drop_first(),
                            Seq::<char>::empty(),
                        ));
                    }
                    cur_start = None;
                },
                None => {
                },
            }
        } else {
            match cur_start {
                Some(st) => {
                    proof {
                        assert(line@.subrange(st as int, i as int).push(c) =~= line@.subrange(
                            st as int,
                            i as int + 1,
                        ));
                    }
                },
                None => {
                    proof {
                        assert(Seq::<char>::empty().push(c) =~= line@.subrange(
                            i as int,
                            i as int + 1,
                        ));
                    }
                    cur_start = Some(i);
                },
            }
        }
        i = i + 1;
    }
    proof {
        assert(content.subrange(end as int, end as int) =~= Seq::<char>::empty());
    }
    match cur_start {
        Some(st) => {
            r.push((st, end));
            proof {
                assert(span_texts(r@, line@) =~= span_texts(r@.drop_last(), line@) + seq![
                    line@.subrange(st as int, end as int),
                ]);
            }
        },
        None => {
            proof {
                assert(span_texts(r@, line@) + Seq::<Seq<char>>::empty() =~= span_texts(
                    r@,
                    line@,
                ));
            }
        },
    }
    r
}

/// `s` with its leading whitespace removed.
pub open spec fn trim_start(s: Seq<char>) -> Seq<char>
    decreases s.len(),
{
    if s.len() > 0 && is_space(s[0]) {
        trim_start(s.drop_first())
    } else {
        s
    }
}

/// `s` with its trailing whitespace removed.
pub open spec fn trim_end(s: Seq<char>) -> Seq<char>
    decreases s.len(),
{
    if s.len() > 0 && is_space(s.last()) {
        trim_end(s.drop_last())
    } else {
        s
    }
}

/// `s` with leading and trailing whitespace removed.
pub open spec fn trim(s: Seq<char>) -> Seq<char> {
    trim_end(trim_start(s))
}

/// `trim_start` drops exactly the leading run of whitespace.
pub proof fn lemma_trim_start_skip(s: Seq<char>, k: int)
    requires
        0 <= k <= s.len(),
        forall|j: int| 0 <= j < k ==> is_space(s[j]),
        k < s.len() ==> !is_space(s[k]),
    ensures
        trim_start(s) == s.skip(k),
    decreases k,
{
    if k == 0 {
        assert(trim_start(s) =~= s.skip(0));
    } else {
        let t = s.drop_first();
        assert(forall|j: int| 0 <= j < k - 1 ==> t[j] == s[j + 1] && is_space(t[j]));
        lemma_trim_start_skip(t, k - 1);
        assert(t.skip(k - 1) =~= s.skip(k));
    }
}

/// `trim_end` drops exactly the trailing run of whitespace.
pub proof fn lemma_trim_end_take(s: Seq<char>, k: int)
    requires
        0 <= k <= s.len(),
        forall|j: int| k <= j < s.len() ==> is_space(s[j]),
        k > 0 ==> !is_space(s[k - 1]),
    ensures
        trim_end(s) == s.take(k),
    decreases s.len(),
{
    if k == s.len() {
        if s.len() > 0 {
            assert(!is_space(s.last()));
        }
        assert(trim_end(s) =~= s.take(k));
    } else {
        let t = s.drop_last();
        assert(is_space(s.last()));
        assert(forall|j: int| k <= j < t.len() ==> t[j] == s[j] && is_space(t[j]));
        assert(k > 0 ==> t[k - 1] == s[k - 1]);
        lemma_trim_end_take(t, k);
        assert(t.take(k) =~= s.take(k));
    }
}

/// The bounds of `v` with surrounding whitespace removed: the spanned
/// text is exactly [`trim`] of `v`.
pub fn trim_bounds(v: &Vec<char>) -> (r: (usize, usize))
    ensures
        r.0 <= r.1 <= v@.len(),
        v@.subrange(r.0 as int, r.1 as int) == trim(v@),
{
    let n = v.len();
    let mut a: usize = 0;
    while a < n && char_is_space(v[a])
        invariant
            n == v@.len(),
            a <= n,
            forall|j: int| 0 <= j < a ==> is_space(v@[j]),
        decreases n - a,
    {
        a = a + 1;
    }
    proof {
        lemma_trim_start_skip(v@, a as int);
    }
    let ghost rest = v@.skip(a as int);
    if a == n {
        proof {
            lemma_trim_end_take(rest, 0);
            assert(v@.subrange(n as int, n as int) =~= rest.take(0));
        }
        return (n, n);
    }
    let mut b: usize = n;
    while b > a && char_is_space(v[b - 1])
        invariant
            n == v@.len(),
            a <= b <= n,
            forall|j: int| b <= j < n ==> is_space(v@[j]),
        decreases b,
    {
        b = b - 1;
    }
    // The first non-space character bounds the backward scan above `a`.
    assert(!is_space(v@[a as int]));
    assert(b > a);
    proof {
        assert(forall|j: int| b - a <= j < rest.len() ==> rest[j] == v@[j + a] && is_space(
            rest[j],
        ));
        assert(rest[b - a - 1] == v@[b as int - 1]);
        lemma_trim_end_take(rest, b as int - a as int);
        assert(v@.subrange(a as int, b as int) =~= rest.take(b as int - a as int));
    }
    (a, b)
}

/// `t` with one trailing carriage return removed, if it ends in one.
pub open spec fn strip_tail_cr(t: Seq<char>) -> Seq<char> {
    if t.len() > 0 && t.last() == '\r' {
        t.drop_last()
    } else {
        t
    }
}

/// The lines of `s`, given the line accumulated so far. The helper
/// behind [`split_lines`].
pub open spec fn split_lines_acc(s: Seq<char>, cur: Seq<char>) -> Seq<Seq<char>>
    decreases s.len(),
{
    if s.len() == 0 {
        if cur.len() == 0 {
            Seq::empty()
        } else {
            seq![cur]
        }
    } else if s[0] == '\n' {
        seq![strip_tail_cr(cur)] + split_lines_acc(s.drop_first(), Seq::empty())
    } else {
        split_lines_acc(s.drop_first(), cur.push(s[0]))
    }
}

/// The lines of `s`: pieces separated by a line feed, each with one
/// carriage return before the line feed removed, and with no extra empty
/// line after a trailing line feed.
pub open spec fn split_lines(s: Seq<char>) -> Seq<Seq<char>> {
    split_lines_acc(s, Seq::empty())
}

/// Splits `src` into its lines, returned as index spans into `src`. The
/// spanned texts are exactly [`split_lines`] of `src`.
pub fn line_spans(src: &Vec<char>) -> (r: Vec<(usize, usize)>)
    ensures
        span_texts(r@, src@) == split_lines(src@),
        forall|i: int| 0 <= i < r@.len() ==> #[trigger] r@[i].0 <= r@[i].1 <= src@.len(),
{
    let n = src.len();
    let mut r: Vec<(usize, usize)> = Vec::new();
    let mut start: usize = 0;
    let mut i: usize = 0;
    proof {
        assert(src@.skip(0) =~= src@);
        assert(src@.subrange(0, 0) =~= Seq::<char>::empty());
        assert(span_texts(Seq::<(usize, usize)>::empty(), src@) + split_lines_acc(
            src@,
            Seq::<char>::empty(),
        ) =~= split_lines_acc(src@, Seq::<char>::empty()));
    }
    while i < n
        invariant
            n == src@.len(),
            start <= i <= n,
            forall|k: int| 0 <= k < r@.len() ==> #[trigger] r@[k].0 <= r@[k].1 <= n,
            split_lines(src@) == span_texts(r@, src@) + split_lines_acc(
                src@.skip(i as int),
                src@.subrange(start as int, i as int),
            ),
        decreases n - i,
    {
        let c = src[i];
        let ghost rest = src@.skip(i as int);
        let ghost cur = src@.subrange(start as int, i as int);
        proof {
            assert(rest[0] == c);
            assert(rest.drop_first() =~= src@.skip(i as int + 1));
        }
        if c == '\n' {
            let stop = if i > start && src[i - 1] == '\r' {
                i - 1
            } else {
                i
            };
            proof {
                assert(strip_tail_cr(cur) =~= src@.subrange(start as int, stop as int));
                assert(start <= stop && stop <= n);
            }
            let ghost prev = r@;
            r.push((start, stop));
            start = i + 1;
            proof {
                assert(span_texts(r@, src@) =~= span_texts(r@.drop_last(), src@) + seq![
                    src@.subrange(r@.last().0 as int, r@.last().1 as int),
                ]);
                assert(src@.subrange(start as int, start as int) =~= Seq::<char>::empty());
                assert forall|k: int| 0 <= k < r@.len() implies #[trigger] r@[k].0 <= r@[k].1
                    <= n by {
                    if k < prev.len() {
                        assert(r@[k] == prev[k]);
                    }
                }
            }
        } else {
            proof {
                assert(cur.push(c) =~= src@.subrange(start as int, i as int + 1));
            }
        }
        i = i + 1;
    }
    proof {
        assert(src@.skip(n as int) =~= Seq::<char>::empty());
    }
    if start < n {
        r.push((start, n));
        proof {
            assert(span_texts(r@, src@) =~= span_texts(r@.drop_last(), src@) + seq![
                src@.subrange(start as int, n as int),
            ]);
        }
    } else {
        proof {
            assert(src@.subrange(start as int, n as int) =~= Seq::<char>::empty());
            assert(span_texts(r@, src@) + Seq::<Seq<char>>::empty() =~= span_texts(r@, src@));
        }
    }
    r
}

/// Whether every character of `s` is an ASCII decimal digit.
pub open spec fn all_digits(s: Seq<char>) -> bool {
    forall|i: int| 0 <= i < s.len() ==> is_digit(#[trigger] s[i])
}

/// The number a digit string denotes, read in base ten from the left.
pub open spec fn digits_value(s: Seq<char>) -> int
    decreases s.len(),
{
    if s.len() == 0 {
        0
    } else {
        digits_value(s.drop_last()) * 10 + digit_value(s.last())
    }
}

/// A digit string denotes a non-negative number.
pub proof fn lemma_digits_value_nonneg(s: Seq<char>)
    requires
        all_digits(s),
    ensures
        digits_value(s) >= 0,
    decreases s.len(),
{
    if s.len() > 0 {
        assert(all_digits(s.drop_last()));
        lemma_digits_value_nonneg(s.drop_last());
        assert(digits_value(s.drop_last()) * 10 >= 0) by (nonlinear_arith)
            requires
                digits_value(s.drop_last()) >= 0,
        ;
    }
}

/// Reading more digits never shrinks the number: a prefix of a digit
/// string denotes at most what the whole denotes.
pub proof fn lemma_digits_value_prefix(s: Seq<char>, k: int)
    requires
        0 <= k <= s.len(),
        all_digits(s),
    ensures
        digits_value(s.take(k)) <= digits_value(s),
    decreases s.len(),
{
    if k < s.len() {
        let t = s.drop_last();
        assert(all_digits(t));
        assert(s.take(k) =~= t.take(k));
        lemma_digits_value_prefix(t, k);
        lemma_digits_value_nonneg(t);
        assert(digits_value(t) * 10 >= digits_value(t)) by (nonlinear_arith)
            requires
                digits_value(t) >= 0,
        ;
    } else {
        assert(s.take(k) =~= s);
    }
}

/// The numeric value of the digit character `c`, as a machine word.
pub fn digit_of(c: char) -> (r: u64)
    requires
        is_digit(c),
    ensures
        r == digit_value(c),
        r < 10,
{
    ((c as u32) - ('0' as u32)) as u64
}

/// The value of the digit span `v[start..end]`, or `None` if the span is
/// empty, holds a non-digit, or denotes more than `bound`.
fn digits_to_u64(v: &Vec<char>, start: usize, end: usize, bound: u64) -> (r: Option<u64>)
    requires
        start <= end <= v@.len(),
    ensures
        ({
            let t = v@.subrange(start as int, end as int);
            match r {
                Some(m) => t.len() > 0 && all_digits(t) && m == digits_value(t) && m <= bound,
                None => !(t.len() > 0 && all_digits(t) && digits_value(t) <= bound),
            }
        }),
{
    let ghost t = v@.subrange(start as int, end as int);
    if start == end {
        return None;
    }
    // First pass: every character must be a digit.
    let mut i: usize = start;
    while i < end
        invariant
            start <= i <= end <= v@.len(),
            t == v@.subrange(start as int, end as int),
            forall|j: int| 0 <= j < i - start ==> is_digit(#[trigger] t[j]),
        decreases end - i,
    {
        if !char_is_digit(v[i]) {
            proof {
                assert(t[i - start as int] == v@[i as int]);
            }
            return None;
        }
        proof {
            assert(t[i - start as int] == v@[i as int]);
        }
        i = i + 1;
    }
    assert(all_digits(t));
    // Second pass: accumulate, watching the bound.
    let mut acc: u64 = 0;
    let mut i: usize = start;
    while i < end
        invariant
            start <= i <= end <= v@.len(),
            t == v@.subrange(start as int, end as int),
            all_digits(t),
            acc == digits_value(t.take(i - start as int)),
            acc <= bound,
        decreases end - i,
    {
        proof {
            assert(t[i - start as int] == v@[i as int]);
        }
        let d = digit_of(v[i]);
        proof {
            assert(t.take(i + 1 - start as int).drop_last() =~= t.take(i - start as int));
            assert(t.take(i + 1 - start as int).last() == t[i - start as int]);
        }
        let step = match acc.checked_mul(10) {
            Some(m) => m.checked_add(d),
            None => None,
        };
        match step {
            Some(next) if next <= bound => {
                acc = next;
            },
            _ => {
                // The prefix up to and including this digit already
                // exceeds the bound, so the whole span does.
                proof {
                    lemma_digits_value_prefix(t, i + 1 - start as int);
                }
                return None;
            },
        }
        i = i + 1;
    }
    proof {
        assert(t.take(end - start as int) =~= t);
    }
    Some(acc)
}

/// The number `s` denotes when read the way `usize` text is read: an
/// optional plus sign, then one or more decimal digits, rejecting a
/// value above `usize::MAX`.
pub open spec fn parse_usize(s: Seq<char>) -> Option<usize> {
    let t = if s.len() > 0 && s[0] == '+' {
        s.drop_first()
    } else {
        s
    };
    if t.len() > 0 && all_digits(t) && digits_value(t) <= usize::MAX {
        Some(digits_value(t) as usize)
    } else {
        None
    }
}

/// The number `s` denotes when read the way `i64` text is read: an
/// optional sign, then one or more decimal digits, rejecting a value
/// outside the `i64` range.
pub open spec fn parse_i64(s: Seq<char>) -> Option<i64> {
    if s.len() > 0 && (s[0] == '+' || s[0] == '-') {
        let t = s.drop_first();
        let v = if s[0] == '-' {
            -digits_value(t)
        } else {
            digits_value(t)
        };
        if t.len() > 0 && all_digits(t) && i64::MIN <= v <= i64::MAX {
            Some(v as i64)
        } else {
            None
        }
    } else {
        if s.len() > 0 && all_digits(s) && digits_value(s) <= i64::MAX {
            Some(digits_value(s) as i64)
        } else {
            None
        }
    }
}

/// Reads the span `v[start..end]` as [`parse_usize`] does.
pub fn parse_usize_span(v: &Vec<char>, start: usize, end: usize) -> (r: Option<usize>)
    requires
        start <= end <= v@.len(),
    ensures
        r == parse_usize(v@.subrange(start as int, end as int)),
{
    let ghost s = v@.subrange(start as int, end as int);
    let digits_from = if start < end && v[start] == '+' {
        proof {
            assert(s[0] == '+');
            assert(s.drop_first() =~= v@.subrange(start as int + 1, end as int));
        }
        start + 1
    } else {
        start
    };
    // usize is no wider than 64 bits here, so accumulate in u64.
    match digits_to_u64(v, digits_from, end, usize::MAX as u64) {
        Some(m) => Some(m as usize),
        None => None,
    }
}

/// Reads the span `v[start..end]` as [`parse_i64`] does.
pub fn parse_i64_span(v: &Vec<char>, start: usize, end: usize) -> (r: Option<i64>)
    requires
        start <= end <= v@.len(),
    ensures
        r == parse_i64(v@.subrange(start as int, end as int)),
{
    let ghost s = v@.subrange(start as int, end as int);
    if start == end {
        return None;
    }
    let c0 = v[start];
    proof {
        assert(s[0] == c0);
    }
    if c0 == '+' || c0 == '-' {
        proof {
            assert(s.drop_first() =~= v@.subrange(start as int + 1, end as int));
        }
        if c0 == '-' {
            // The magnitude of i64::MIN is one above i64::MAX.
            match digits_to_u64(v, start + 1, end, 9223372036854775808u64) {
                Some(m) => {
                    if m == 9223372036854775808u64 {
                        Some(i64::MIN)
                    } else {
                        Some(-(m as i64))
                    }
                },
                None => None,
            }
        } else {
            match digits_to_u64(v, start + 1, end, i64::MAX as u64) {
                Some(m) => Some(m as i64),
                None => None,
            }
        }
    } else {
        match digits_to_u64(v, start, end, i64::MAX as u64) {
            Some(m) => Some(m as i64),
            None => None,
        }
    }
}

/// The ASCII character for the decimal digit `d`.
pub open spec fn digit_char(d: int) -> char {
    if d == 0 {
        '0'
    } else if d == 1 {
        '1'
    } else if d == 2 {
        '2'
    } else if d == 3 {
        '3'
    } else if d == 4 {
        '4'
    } else if d == 5 {
        '5'
    } else if d == 6 {
        '6'
    } else if d == 7 {
        '7'
    } else if d == 8 {
        '8'
    } else {
        '9'
    }
}

/// The decimal digit string of the non-negative number `n`, most
/// significant digit first, with no sign and no leading zero except for
/// `0` itself.
pub open spec fn dec_digits(n: int) -> Seq<char>
    decreases n,
{
    if n < 10 {
        seq![digit_char(n)]
    } else {
        dec_digits(n / 10).push(digit_char(n % 10))
    }
}

/// The decimal text of the integer `v`: its digits, preceded by a minus
/// sign when `v` is negative.
pub open spec fn int_text(v: int) -> Seq<char> {
    if v >= 0 {
        dec_digits(v)
    } else {
        seq!['-'] + dec_digits(-v)
    }
}

/// Appends one decimal digit to `out`.
fn push_digit(out: &mut String, d: u64)
    requires
        d < 10,
    ensures
        final(out)@ == old(out)@ + seq![digit_char(d as int)],
{
    proof {
        reveal_strlit("0");
        reveal_strlit("1");
        reveal_strlit("2");
        reveal_strlit("3");
        reveal_strlit("4");
        reveal_strlit("5");
        reveal_strlit("6");
        reveal_strlit("7");
        reveal_strlit("8");
        reveal_strlit("9");
    }
    if d == 0 {
        out.append("0");
        assert(out@ =~= old(out)@ + seq![digit_char(d as int)]);
    } else if d == 1 {
        out.append("1");
        assert(out@ =~= old(out)@ + seq![digit_char(d as int)]);
    } else if d == 2 {
        out.append("2");
        assert(out@ =~= old(out)@ + seq![digit_char(d as int)]);
    } else if d == 3 {
        out.append("3");
        assert(out@ =~= old(out)@ + seq![digit_char(d as int)]);
    } else if d == 4 {
        out.append("4");
        assert(out@ =~= old(out)@ + seq![digit_char(d as int)]);
    } else if d == 5 {
        out.append("5");
        assert(out@ =~= old(out)@ + seq![digit_char(d as int)]);
    } else if d == 6 {
        out.append("6");
        assert(out@ =~= old(out)@ + seq![digit_char(d as int)]);
    } else if d == 7 {
        out.append("7");
        assert(out@ =~= old(out)@ + seq![digit_char(d as int)]);
    } else if d == 8 {
        out.append("8");
        assert(out@ =~= old(out)@ + seq![digit_char(d as int)]);
    } else {
        out.append("9");
        assert(out@ =~= old(out)@ + seq![digit_char(d as int)]);
    }
}

/// Appends the decimal digits of `n` to `out`.
fn push_dec_digits(out: &mut String, n: u64)
    ensures
        final(out)@ == old(out)@ + dec_digits(n as int),
    decreases n,
{
    if n < 10 {
        push_digit(out, n);
    } else {
        push_dec_digits(out, n / 10);
        push_digit(out, n % 10);
        proof {
            assert(old(out)@ + dec_digits(n as int) =~= (old(out)@ + dec_digits(n as int / 10))
                + seq![digit_char(n as int % 10)]);
        }
    }
}

/// The decimal text of `v`, exactly [`int_text`] of its value.
pub fn i64_to_string(v: i64) -> (r: String)
    ensures
        r@ == int_text(v as int),
{
    let mut out = String::new();
    if v >= 0 {
        push_dec_digits(&mut out, v as u64);
        proof {
            assert(Seq::<char>::empty() + dec_digits(v as int) =~= dec_digits(v as int));
        }
    } else {
        proof {
            reveal_strlit("-");
        }
        out.append("-");
        // The magnitude is computed through `v + 1` so that the most
        // negative value does not overflow on negation.
        let mag: u64 = ((-(v + 1)) as u64) + 1;
        assert(mag == -(v as int));
        push_dec_digits(&mut out, mag);
        proof {
            assert((Seq::<char>::empty() + "-"@) + dec_digits(mag as int) =~= seq!['-']
                + dec_digits(mag as int));
        }
    }
    out
}

} // verus!
