//! Character-level text handling: whitespace trimming, line splitting,
//! searching, decimal integers, and conversions between `&str`/`String`
//! and character vectors.
//!
//! Every function here works on `Seq<char>` models; the specifications
//! follow the behaviour of the corresponding `str` methods.

use vstd::prelude::*;

verus! {

// ---------------------------------------------------------------------
// Specifications
// ---------------------------------------------------------------------

/// Whether `c` has the Unicode `White_Space` property (`char::is_whitespace`).
pub open spec fn is_ws(c: char) -> bool {
    ||| ('\u{9}' <= c && c <= '\u{d}')
    ||| c == ' '
    ||| c == '\u{85}'
    ||| c == '\u{a0}'
    ||| c == '\u{1680}'
    ||| ('\u{2000}' <= c && c <= '\u{200a}')
    ||| c == '\u{2028}'
    ||| c == '\u{2029}'
    ||| c == '\u{202f}'
    ||| c == '\u{205f}'
    ||| c == '\u{3000}'
}

/// `s` without its leading whitespace.
pub open spec fn trim_start(s: Seq<char>) -> Seq<char>
    decreases s.len(),
{
    if s.len() > 0 && is_ws(s[0]) {
        trim_start(s.drop_first())
    } else {
        s
    }
}

/// `s` without its trailing whitespace.
pub open spec fn trim_end(s: Seq<char>) -> Seq<char>
    decreases s.len(),
{
    if s.len() > 0 && is_ws(s.last()) {
        trim_end(s.drop_last())
    } else {
        s
    }
}

/// `s` without leading and trailing whitespace (`str::trim`).
pub open spec fn trim(s: Seq<char>) -> Seq<char> {
    trim_end(trim_start(s))
}

/// The index of the first `c` in `s`, or `s.len()` when there is none.
pub open spec fn index_of(s: Seq<char>, c: char) -> int
    decreases s.len(),
{
    if s.len() == 0 {
        0
    } else if s[0] == c {
        0
    } else {
        1 + index_of(s.drop_first(), c)
    }
}

/// `l` without one trailing carriage return.
pub open spec fn strip_cr(l: Seq<char>) -> Seq<char> {
    if l.len() > 0 && l.last() == '\r' {
        l.drop_last()
    } else {
        l
    }
}

/// The lines of `s` (`str::lines`): split at `\n`, a `\r` directly before
/// a `\n` is dropped, and a final line ending adds no empty line.
pub open spec fn lines(s: Seq<char>) -> Seq<Seq<char>>
    decreases s.len(),
{
    if s.len() == 0 {
        seq![]
    } else {
        let i = index_of(s, '\n');
        if i >= s.len() {
            seq![s]
        } else {
            proof {
                lemma_index_of_bounds(s, '\n');
            }
            seq![strip_cr(s.take(i))] + lines(s.skip(i + 1))
        }
    }
}

/// The text whose lines are `ls`: each line followed by a `\n`.
pub open spec fn unlines(ls: Seq<Seq<char>>) -> Seq<char>
    decreases ls.len(),
{
    if ls.len() == 0 {
        seq![]
    } else {
        ls[0] + seq!['\n'] + unlines(ls.drop_first())
    }
}

/// Whether `s` begins with `p`.
pub open spec fn starts_with(s: Seq<char>, p: Seq<char>) -> bool {
    p.len() <= s.len() && s.take(p.len() as int) == p
}

/// Whether `s` ends with `p`.
pub open spec fn ends_with(s: Seq<char>, p: Seq<char>) -> bool {
    p.len() <= s.len() && s.skip(s.len() - p.len()) == p
}

/// Whether `p` occurs in `s` at position `i`.
pub open spec fn occurs_at(s: Seq<char>, p: Seq<char>, i: int) -> bool {
    0 <= i && i + p.len() <= s.len() && s.subrange(i, i + p.len()) == p
}

/// The first position at or after `i` where `p` occurs in `s`.
pub open spec fn find_from(s: Seq<char>, p: Seq<char>, i: int) -> Option<int>
    decreases s.len() + 1 - i,
{
    if i < 0 || i + p.len() > s.len() {
        None
    } else if occurs_at(s, p, i) {
        Some(i)
    } else {
        find_from(s, p, i + 1)
    }
}

/// The first position where `p` occurs in `s` (`str::find`).
pub open spec fn find(s: Seq<char>, p: Seq<char>) -> Option<int> {
    find_from(s, p, 0)
}

/// `s` split around the first occurrence of `p` (`str::split_once`).
pub open spec fn split_once(s: Seq<char>, p: Seq<char>) -> Option<(Seq<char>, Seq<char>)> {
    match find(s, p) {
        Some(i) => Some((s.take(i), s.skip(i + p.len()))),
        None => None,
    }
}

/// The decimal digit character for `d < 10`.
pub open spec fn digit_char(d: int) -> char {
    if d == 0 {
        '0'
    } else if d == 1 {
        '1'
    } else if d == 2 {
        '2'
    } else if d == 3 {
        '3'
    } else if d == 4 {
        '4'
    } else if d == 5 {
        '5'
    } else if d == 6 {
        '6'
    } else if d == 7 {
        '7'
    } else if d == 8 {
        '8'
    } else {
        '9'
    }
}

/// Whether `c` is an ASCII decimal digit.
pub open spec fn is_digit(c: char) -> bool {
    '0' <= c && c <= '9'
}

/// The decimal text of a natural number, without leading zeros.
pub open spec fn nat_text(n: nat) -> Seq<char>
    decreases n,
{
    if n < 10 {
        seq![digit_char(n as int)]
    } else {
        nat_text(n / 10).push(digit_char((n % 10) as int))
    }
}

/// The decimal text of an integer, with a `-` for negative values.
pub open spec fn int_text(n: int) -> Seq<char> {
    if n < 0 {
        seq!['-'] + nat_text((-n) as nat)
    } else {
        nat_text(n as nat)
    }
}

/// Whether every character of `s` is a decimal digit.
pub open spec fn all_digits(s: Seq<char>) -> bool {
    forall|i: int| 0 <= i < s.len() ==> #[trigger] is_digit(s[i])
}

/// The value of a string of decimal digits.
pub open spec fn digits_value(s: Seq<char>) -> int
    decreases s.len(),
{
    if s.len() == 0 {
        0
    } else {
        digits_value(s.drop_last()) * 10 + (s.last() as int - 48)
    }
}

/// What `str::parse::<i32>` gives for `s`: an optional sign followed by
/// at least one decimal digit, whose value fits in an `i32`.
pub open spec fn parse_i32(s: Seq<char>) -> Option<i32> {
    if s.len() == 0 {
        None
    } else {
        let neg = s[0] == '-';
        let ds = if s[0] == '+' || s[0] == '-' {
            s.drop_first()
        } else {
            s
        };
        if ds.len() == 0 || !all_digits(ds) {
            None
        } else {
            let v = if neg {
                -digits_value(ds)
            } else {
                digits_value(ds)
            };
            if i32::MIN <= v <= i32::MAX {
                Some(v as i32)
            } else {
                None
            }
        }
    }
}

/// The characters of each string in `v`.
pub open spec fn seq_views(v: Seq<Vec<char>>) -> Seq<Seq<char>> {
    v.map_values(|x: Vec<char>| x@)
}

/// The characters of each `String` in `v`.
pub open spec fn string_views(v: Seq<String>) -> Seq<Seq<char>> {
    v.map_values(|x: String| x@)
}

// ---------------------------------------------------------------------
// Lemmas
// ---------------------------------------------------------------------

/// `index_of` lies within `s` (or just past it), and no earlier character is `c`.
pub proof fn lemma_index_of_bounds(s: Seq<char>, c: char)
    ensures
        0 <= index_of(s, c) <= s.len(),
        index_of(s, c) < s.len() ==> s[index_of(s, c)] == c,
        forall|j: int| 0 <= j < index_of(s, c) ==> s[j] != c,
    decreases s.len(),
{
    if s.len() > 0 && s[0] != c {
        lemma_index_of_bounds(s.drop_first(), c);
        assert forall|j: int| 0 <= j < index_of(s, c) implies s[j] != c by {
            if j > 0 {
                assert(s[j] == s.drop_first()[j - 1]);
            }
        }
    }
}

/// `index_of` is the first position holding `c`.
pub proof fn lemma_index_of_is(s: Seq<char>, c: char, k: int)
    requires
        0 <= k <= s.len(),
        k < s.len() ==> s[k] == c,
        forall|j: int| 0 <= j < k ==> s[j] != c,
    ensures
        index_of(s, c) == k,
    decreases s.len(),
{
    if s.len() > 0 && k > 0 {
        assert(s[0] != c);
        assert forall|j: int| 0 <= j < k - 1 implies s.drop_first()[j] != c by {
            assert(s.drop_first()[j] == s[j + 1]);
        }
        lemma_index_of_is(s.drop_first(), c, k - 1);
    }
}

/// The lines of a text with a first line ending.
pub proof fn lemma_lines_cons(a: Seq<char>, rest: Seq<char>)
    requires
        forall|j: int| 0 <= j < a.len() ==> a[j] != '\n',
    ensures
        lines(a + seq!['\n'] + rest) == seq![strip_cr(a)] + lines(rest),
{
    let s = a + seq!['\n'] + rest;
    lemma_index_of_is(s, '\n', a.len() as int);
    assert(s.take(a.len() as int) == a);
    assert(s.skip(a.len() as int + 1) == rest);
}

/// The lines of a text with no line ending at all.
pub proof fn lemma_lines_last(a: Seq<char>)
    requires
        a.len() > 0,
        forall|j: int| 0 <= j < a.len() ==> a[j] != '\n',
    ensures
        lines(a) == seq![a],
{
    lemma_index_of_is(a, '\n', a.len() as int);
}

/// Joining lines with line endings and splitting them again gives them back,
/// as long as no line holds a `\n` or ends with a `\r`.
pub proof fn lemma_lines_unlines(ls: Seq<Seq<char>>)
    requires
        forall|k: int, j: int|
            0 <= k < ls.len() && 0 <= j < ls[k].len() ==> #[trigger] ls[k][j] != '\n',
        forall|k: int| 0 <= k < ls.len() ==> strip_cr(#[trigger] ls[k]) == ls[k],
    ensures
        lines(unlines(ls)) == ls,
    decreases ls.len(),
{
    if ls.len() > 0 {
        let a = ls[0];
        assert forall|j: int| 0 <= j < a.len() implies a[j] != '\n' by {
            assert(ls[0][j] != '\n');
        }
        assert(strip_cr(ls[0]) == ls[0]);
        let rest = ls.drop_first();
        assert forall|k: int, j: int|
            0 <= k < rest.len() && 0 <= j < rest[k].len() implies #[trigger] rest[k][j] != '\n' by {
            assert(rest[k] == ls[k + 1]);
            assert(ls[k + 1][j] != '\n');
        }
        assert forall|k: int| 0 <= k < rest.len() implies strip_cr(#[trigger] rest[k]) == rest[k] by {
            assert(rest[k] == ls[k + 1]);
            assert(strip_cr(ls[k + 1]) == ls[k + 1]);
        }
        lemma_lines_unlines(rest);
        lemma_lines_cons(a, unlines(rest));
        assert(unlines(ls) == a + seq!['\n'] + unlines(rest));
        assert(seq![strip_cr(a)] + rest == ls);
    }
}

/// A text that neither starts nor ends with whitespace is its own trim.
pub proof fn lemma_trim_fixed(s: Seq<char>)
    requires
        s.len() > 0 ==> !is_ws(s[0]) && !is_ws(s.last()),
    ensures
        trim(s) == s,
{
    assert(trim_start(s) == s);
}

/// Trimming ignores whitespace added at either end.
pub proof fn lemma_trim_pad(pre: Seq<char>, s: Seq<char>, post: Seq<char>)
    requires
        forall|j: int| 0 <= j < pre.len() ==> is_ws(#[trigger] pre[j]),
        forall|j: int| 0 <= j < post.len() ==> is_ws(#[trigger] post[j]),
        s.len() > 0 ==> !is_ws(s[0]) && !is_ws(s.last()),
    ensures
        trim(pre + s + post) == s,
    decreases pre.len() + post.len(),
{
    if pre.len() > 0 {
        assert((pre + s + post).drop_first() == pre.drop_first() + s + post);
        assert forall|j: int| 0 <= j < pre.drop_first().len() implies is_ws(
            #[trigger] pre.drop_first()[j],
        ) by {
            assert(pre.drop_first()[j] == pre[j + 1]);
        }
        lemma_trim_pad(pre.drop_first(), s, post);
        assert((pre + s + post)[0] == pre[0]);
    } else if post.len() > 0 {
        assert(pre + s + post == s + post);
        lemma_trim_end_pad(s, post);
        if s.len() > 0 {
            assert((s + post)[0] == s[0]);
            assert(trim_start(s + post) == s + post);
        } else {
            lemma_trim_start_all_ws(post);
            assert(s + post == post);
            assert(trim_end(seq![]) == Seq::<char>::empty());
        }
    } else {
        assert(pre + s + post == s);
        lemma_trim_fixed(s);
    }
}

/// `trim_end` removes trailing whitespace added after a text that does not
/// end with whitespace.
pub proof fn lemma_trim_end_pad(s: Seq<char>, post: Seq<char>)
    requires
        forall|j: int| 0 <= j < post.len() ==> is_ws(#[trigger] post[j]),
        s.len() > 0 ==> !is_ws(s.last()),
    ensures
        trim_end(s + post) == s,
    decreases post.len(),
{
    if post.len() > 0 {
        assert((s + post).last() == post.last());
        assert((s + post).drop_last() == s + post.drop_last());
        assert forall|j: int| 0 <= j < post.drop_last().len() implies is_ws(
            #[trigger] post.drop_last()[j],
        ) by {
            assert(post.drop_last()[j] == post[j]);
        }
        lemma_trim_end_pad(s, post.drop_last());
    } else {
        assert(s + post == s);
    }
}

/// A text made only of whitespace trims to nothing.
pub proof fn lemma_trim_start_all_ws(s: Seq<char>)
    requires
        forall|j: int| 0 <= j < s.len() ==> is_ws(#[trigger] s[j]),
    ensures
        trim_start(s) == Seq::<char>::empty(),
    decreases s.len(),
{
    if s.len() > 0 {
        assert(is_ws(s[0]));
        assert forall|j: int| 0 <= j < s.drop_first().len() implies is_ws(
            #[trigger] s.drop_first()[j],
        ) by {
            assert(s.drop_first()[j] == s[j + 1]);
        }
        lemma_trim_start_all_ws(s.drop_first());
    }
}

/// `find_from` gives the first occurrence at or after `i`.
pub proof fn lemma_find_from(s: Seq<char>, p: Seq<char>, i: int)
    requires
        0 <= i,
    ensures
        find_from(s, p, i) matches Some(k) ==> i <= k && occurs_at(s, p, k) && (forall|j: int|
            i <= j < k ==> !occurs_at(s, p, j)),
        find_from(s, p, i) is None ==> (forall|j: int| i <= j ==> !occurs_at(s, p, j)),
    decreases s.len() + 1 - i,
{
    if i + p.len() <= s.len() && !occurs_at(s, p, i) {
        lemma_find_from(s, p, i + 1);
    }
}

/// `find_from` is determined by the first occurrence at or after `i`.
pub proof fn lemma_find_from_is(s: Seq<char>, p: Seq<char>, i: int, k: int)
    requires
        0 <= i <= k,
        occurs_at(s, p, k),
        forall|j: int| i <= j < k ==> !occurs_at(s, p, j),
    ensures
        find_from(s, p, i) == Some(k),
    decreases k - i,
{
    if i < k {
        assert(!occurs_at(s, p, i));
        lemma_find_from_is(s, p, i + 1, k);
    }
}

/// A digit character is a decimal digit with the expected code.
pub proof fn lemma_digit_char(d: int)
    requires
        0 <= d < 10,
    ensures
        digit_char(d) as int == d + 48,
        is_digit(digit_char(d)),
        !is_ws(digit_char(d)),
{
}

/// The digits of `nat_text` are decimal digits and read back as the number.
pub proof fn lemma_nat_text(n: nat)
    ensures
        nat_text(n).len() > 0,
        all_digits(nat_text(n)),
        digits_value(nat_text(n)) == n,
        nat_text(n)[0] != '-' && nat_text(n)[0] != '+',
        !is_ws(nat_text(n)[0]),
        !is_ws(nat_text(n).last()),
        forall|j: int| 0 <= j < nat_text(n).len() ==> #[trigger] nat_text(n)[j] != '\n',
    decreases n,
{
    lemma_digit_char((n % 10) as int);
    if n < 10 {
        assert(nat_text(n).drop_last() =~= Seq::<char>::empty());
        assert(digits_value(nat_text(n)) == digits_value(Seq::<char>::empty()) * 10 + (
        nat_text(n).last() as int - 48));
    } else {
        lemma_nat_text(n / 10);
        let t = nat_text(n / 10);
        let d = digit_char((n % 10) as int);
        assert(t.push(d).last() == d);
        assert(nat_text(n) == t.push(d));
        assert(t.push(d).drop_last() == t);
        assert(digits_value(t.push(d)) == digits_value(t) * 10 + (d as int - 48));
        assert(t.push(d).drop_last() == t);
        assert(t.push(d)[0] == t[0]);
        assert forall|j: int| 0 <= j < t.push(d).len() implies #[trigger] is_digit(t.push(d)[j]) by {
            if j < t.len() {
                assert(t.push(d)[j] == t[j]);
                assert(is_digit(t[j]));
            }
        }
        assert forall|j: int| 0 <= j < t.push(d).len() implies #[trigger] t.push(d)[j] != '\n' by {
            if j < t.len() {
                assert(t.push(d)[j] == t[j]);
            }
        }
    }
}

/// Parsing the decimal text of an `i32` gives it back.
pub proof fn lemma_parse_int_text(n: i32)
    ensures
        parse_i32(int_text(n as int)) == Some(n),
        int_text(n as int).len() > 0,
        !is_ws(int_text(n as int)[0]),
        !is_ws(int_text(n as int).last()),
        forall|j: int|
            0 <= j < int_text(n as int).len() ==> #[trigger] int_text(n as int)[j] != '\n',
{
    if n < 0 {
        let m = (-n) as nat;
        lemma_nat_text(m);
        let s = seq!['-'] + nat_text(m);
        assert(s.drop_first() == nat_text(m));
        assert(s.last() == nat_text(m).last());
        assert forall|j: int| 0 <= j < s.len() implies #[trigger] s[j] != '\n' by {
            if j > 0 {
                assert(s[j] == nat_text(m)[j - 1]);
            }
        }
    } else {
        lemma_nat_text(n as nat);
    }
}

// ---------------------------------------------------------------------
// Conversions
// ---------------------------------------------------------------------

/// std's `String::push`, taken on trust: the string's characters afterwards
/// are the characters before it followed by `c`.
#[verifier::external_body]
fn push_char(s: &mut String, c: char)
    ensures
        final(s)@ == old(s)@.push(c),
{
    s.push(c);
}

/// The characters of `s`, in order.
pub fn chars_of(s: &str) -> (res: Vec<char>)
    ensures
        res@ == s@,
{
    let mut res: Vec<char> = Vec::new();
    for c in it: s.chars()
        invariant
            res@ == it.seq().take(it.index() as int),
    {
        res.push(c);
    }
    res
}

/// The string made of the characters of `cs`.
pub fn string_of(cs: &[char]) -> (res: String)
    ensures
        res@ == cs@,
{
    let mut res = String::new();
    let n = cs.len();
    for i in 0..n
        invariant
            n == cs@.len(),
            res@ == cs@.take(i as int),
    {
        push_char(&mut res, cs[i]);
        assert(cs@.take(i + 1) == cs@.take(i as int).push(cs@[i as int]));
    }
    assert(cs@.take(n as int) == cs@);
    res
}

/// Appends the characters of `cs` to `v`.
pub fn push_chars(v: &mut Vec<char>, cs: &[char])
    ensures
        final(v)@ == old(v)@ + cs@,
{
    let n = cs.len();
    for i in 0..n
        invariant
            n == cs@.len(),
            v@ == old(v)@ + cs@.take(i as int),
    {
        v.push(cs[i]);
        assert(cs@.take(i + 1) == cs@.take(i as int).push(cs@[i as int]));
    }
    assert(cs@.take(n as int) == cs@);
}

/// Appends the characters of `s` to `v`.
pub fn push_str(v: &mut Vec<char>, s: &str)
    ensures
        final(v)@ == old(v)@ + s@,
{
    let cs = chars_of(s);
    push_chars(v, cs.as_slice());
}

/// Whether two character sequences are equal.
pub fn chars_eq(a: &[char], b: &[char]) -> (res: bool)
    ensures
        res == (a@ == b@),
{
    if a.len() != b.len() {
        return false;
    }
    let n = a.len();
    for i in 0..n
        invariant
            n == a@.len(),
            n == b@.len(),
            forall|j: int| 0 <= j < i ==> a@[j] == b@[j],
    {
        if a[i] != b[i] {
            return false;
        }
    }
    assert(a@ =~= b@);
    true
}

/// Whether `a` equals the text `s`.
pub fn chars_eq_str(a: &[char], s: &str) -> (res: bool)
    ensures
        res == (a@ == s@),
{
    let b = chars_of(s);
    chars_eq(a, b.as_slice())
}

/// The characters `cs[from..to]`.
pub fn sub_chars(cs: &[char], from: usize, to: usize) -> (res: Vec<char>)
    requires
        from <= to <= cs@.len(),
    ensures
        res@ == cs@.subrange(from as int, to as int),
{
    let mut res: Vec<char> = Vec::new();
    for i in from..to
        invariant
            from <= i <= to <= cs@.len(),
            res@ == cs@.subrange(from as int, i as int),
    {
        res.push(cs[i]);
        assert(cs@.subrange(from as int, i + 1) == cs@.subrange(from as int, i as int).push(
            cs@[i as int],
        ));
    }
    res
}

// ---------------------------------------------------------------------
// Whitespace
// ---------------------------------------------------------------------

/// `char::is_whitespace`.
pub fn is_whitespace(c: char) -> (res: bool)
    ensures
        res == is_ws(c),
{
    ('\u{9}' <= c && c <= '\u{d}') || c == ' ' || c == '\u{85}' || c == '\u{a0}' || c
        == '\u{1680}' || ('\u{2000}' <= c && c <= '\u{200a}') || c == '\u{2028}' || c
        == '\u{2029}' || c == '\u{202f}' || c == '\u{205f}' || c == '\u{3000}'
}

/// `cs` without leading and trailing whitespace (`str::trim`).
pub fn trim_chars(cs: &[char]) -> (res: Vec<char>)
    ensures
        res@ == trim(cs@),
{
    let n = cs.len();
    let mut start: usize = 0;
    assert(cs@.skip(0) == cs@);
    while start < n && is_whitespace(cs[start])
        invariant
            n == cs@.len(),
            start <= n,
            trim_start(cs@) == trim_start(cs@.skip(start as int)),
        decreases n - start,
    {
        assert(cs@.skip(start as int).drop_first() == cs@.skip(start + 1));
        start = start + 1;
    }
    assert(trim_start(cs@) == cs@.skip(start as int));
    let mut end: usize = n;
    while end > start && is_whitespace(cs[end - 1])
        invariant
            n == cs@.len(),
            start <= end <= n,
            trim(cs@) == trim_end(cs@.subrange(start as int, end as int)),
        decreases end,
    {
        assert(cs@.subrange(start as int, end as int).drop_last() == cs@.subrange(
            start as int,
            end - 1,
        ));
        end = end - 1;
    }
    if start == n {
        assert(cs@.skip(start as int) =~= cs@.subrange(start as int, end as int));
    } else {
        assert(cs@.skip(start as int) =~= cs@.subrange(start as int, n as int));
    }
    sub_chars(cs, start, end)
}

// ---------------------------------------------------------------------
// Lines
// ---------------------------------------------------------------------

/// The lines of `cs` (`str::lines`).
pub fn split_lines(cs: &[char]) -> (res: Vec<Vec<char>>)
    ensures
        seq_views(res@) == lines(cs@),
{
    let n = cs.len();
    let mut res: Vec<Vec<char>> = Vec::new();
    let mut cur: Vec<char> = Vec::new();
    let mut start: usize = 0;
    assert(cs@.skip(0) == cs@);
    assert(seq_views(res@) + lines(cs@) == lines(cs@));
    for i in 0..n
        invariant
            n == cs@.len(),
            start <= i,
            cur@ == cs@.subrange(start as int, i as int),
            forall|j: int| start <= j < i ==> cs@[j] != '\n',
            lines(cs@) == seq_views(res@) + lines(cs@.skip(start as int)),
    {
        if cs[i] == '\n' {
            proof {
                let t = cs@.skip(start as int);
                lemma_index_of_is(t, '\n', i - start);
                assert(t.take(i - start) == cur@);
                assert(t.skip(i - start + 1) == cs@.skip(i + 1));
                assert(t.len() > 0);
            }
            let line = if cur.len() > 0 && cur[cur.len() - 1] == '\r' {
                sub_chars(cur.as_slice(), 0, cur.len() - 1)
            } else {
                cur
            };
            proof {
                if cur@.len() > 0 {
                    assert(cur@.drop_last() == cur@.subrange(0, cur@.len() - 1));
                }
                assert(line@ == strip_cr(cs@.skip(start as int).take(i - start)));
                assert(seq_views(res@.push(line)) == seq_views(res@).push(line@));
            }
            res.push(line);
            cur = Vec::new();
            start = i + 1;
        } else {
            cur.push(cs[i]);
            assert(cs@.subrange(start as int, i + 1) == cs@.subrange(start as int, i as int).push(
                cs@[i as int],
            ));
        }
    }
    proof {
        let t = cs@.skip(start as int);
        assert(t == cur@);
    }
    if cur.len() > 0 {
        proof {
            lemma_lines_last(cur@);
            assert(seq_views(res@.push(cur)) == seq_views(res@).push(cur@));
        }
        res.push(cur);
    } else {
        assert(seq_views(res@) + seq![] == seq_views(res@));
    }
    res
}

/// The text of `ls` with a line ending after each line.
pub fn join_lines(ls: &[String]) -> (res: String)
    ensures
        res@ == unlines(string_views(ls@)),
{
    let n = ls.len();
    let mut acc: Vec<char> = Vec::new();
    let mut i: usize = n;
    while i > 0
        invariant
            n == ls@.len(),
            i <= n,
            acc@ == unlines(string_views(ls@).skip(i as int)),
        decreases i,
    {
        i = i - 1;
        let mut next = chars_of(ls[i].as_str());
        next.push('\n');
        let tail = acc;
        push_chars(&mut next, tail.as_slice());
        proof {
            let v = string_views(ls@);
            assert(v.skip(i as int).drop_first() == v.skip(i + 1));
            assert(v.skip(i as int)[0] == ls@[i as int]@);
        }
        acc = next;
    }
    assert(string_views(ls@).skip(0) == string_views(ls@));
    string_of(acc.as_slice())
}

// ---------------------------------------------------------------------
// Searching
// ---------------------------------------------------------------------

/// Whether `p` occurs in `s` at position `i`.
pub fn occurs_at_exec(s: &[char], p: &[char], i: usize) -> (res: bool)
    ensures
        res == occurs_at(s@, p@, i as int),
{
    if i > s.len() || p.len() > s.len() - i {
        return false;
    }
    let m = p.len();
    for j in 0..m
        invariant
            m == p@.len(),
            i + m <= s.len(),
            s@.len() == s.len(),
            forall|k: int| 0 <= k < j ==> s@[i + k] == p@[k],
    {
        assert(i + j < s@.len());
        if s[i + j] != p[j] {
            assert(s@.subrange(i as int, i + m)[j as int] != p@[j as int]);
            return false;
        }
    }
    assert(s@.subrange(i as int, i + m) =~= p@);
    true
}

/// The first position where `p` occurs in `s` (`str::find`).
pub fn find_chars(s: &[char], p: &[char]) -> (res: Option<usize>)
    ensures
        res matches Some(k) ==> find(s@, p@) == Some(k as int),
        res is None ==> find(s@, p@) is None,
{
    if p.len() > s.len() {
        return None;
    }
    let last = s.len() - p.len();
    let mut i: usize = 0;
    while i <= last
        invariant
            last + p@.len() == s@.len(),
            find(s@, p@) == find_from(s@, p@, i as int),
        decreases last + 1 - i,
    {
        if occurs_at_exec(s, p, i) {
            return Some(i);
        }
        if i == last {
            assert(find_from(s@, p@, i + 1) is None);
            return None;
        }
        i = i + 1;
    }
    None
}

/// `s` split around the first occurrence of `p` (`str::split_once`).
pub fn split_once_chars(s: &[char], p: &[char]) -> (res: Option<(Vec<char>, Vec<char>)>)
    ensures
        match (res, split_once(s@, p@)) {
            (Some((a, b)), Some((x, y))) => a@ == x && b@ == y,
            (None, None) => true,
            _ => false,
        },
{
    match find_chars(s, p) {
        Some(k) => {
            proof {
                lemma_find_from(s@, p@, 0);
            }
            assert(s@.len() == s.len());
            let a = sub_chars(s, 0, k);
            let b = sub_chars(s, k + p.len(), s.len());
            assert(a@ == s@.take(k as int));
            assert(b@ == s@.skip(k + p@.len()));
            Some((a, b))
        },
        None => None,
    }
}

/// Whether `s` begins with `p`.
pub fn starts_with_chars(s: &[char], p: &[char]) -> (res: bool)
    ensures
        res == starts_with(s@, p@),
{
    if p.len() > s.len() {
        return false;
    }
    let r = occurs_at_exec(s, p, 0);
    assert(s@.subrange(0, p@.len() as int) == s@.take(p@.len() as int));
    r
}

/// Whether `s` ends with `p`.
pub fn ends_with_chars(s: &[char], p: &[char]) -> (res: bool)
    ensures
        res == ends_with(s@, p@),
{
    if p.len() > s.len() {
        return false;
    }
    let r = occurs_at_exec(s, p, s.len() - p.len());
    assert(s@.subrange(s@.len() - p@.len(), s@.len() as int) == s@.skip(s@.len() - p@.len()));
    r
}

// ---------------------------------------------------------------------
// Numbers
// ---------------------------------------------------------------------

/// The decimal text of `n`.
pub fn nat_text_exec(n: u64) -> (res: Vec<char>)
    ensures
        res@ == nat_text(n as nat),
    decreases n,
{
    let d: u64 = n % 10;
    let c: char = if d == 0 {
        '0'
    } else if d == 1 {
        '1'
    } else if d == 2 {
        '2'
    } else if d == 3 {
        '3'
    } else if d == 4 {
        '4'
    } else if d == 5 {
        '5'
    } else if d == 6 {
        '6'
    } else if d == 7 {
        '7'
    } else if d == 8 {
        '8'
    } else {
        '9'
    };
    assert(c == digit_char(d as int));
    if n < 10 {
        let mut v: Vec<char> = Vec::new();
        v.push(c);
        v
    } else {
        let mut v = nat_text_exec(n / 10);
        v.push(c);
        v
    }
}

/// The decimal text of `n`, with a `-` for negative values.
pub fn int_text_exec(n: i64) -> (res: Vec<char>)
    ensures
        res@ == int_text(n as int),
{
    if n < 0 {
        let m: i128 = -(n as i128);
        let mut v: Vec<char> = Vec::new();
        v.push('-');
        let t = nat_text_exec(m as u64);
        push_chars(&mut v, t.as_slice());
        v
    } else {
        nat_text_exec(n as u64)
    }
}

/// `str::parse::<i32>`.
pub fn parse_i32_exec(s: &[char]) -> (res: Option<i32>)
    ensures
        res == parse_i32(s@),
{
    let n = s.len();
    if n == 0 {
        return None;
    }
    let neg = s[0] == '-';
    let first: usize = if s[0] == '+' || s[0] == '-' {
        1
    } else {
        0
    };
    let ghost ds = if s@[0] == '+' || s@[0] == '-' {
        s@.drop_first()
    } else {
        s@
    };
    assert(ds == s@.skip(first as int));
    if first == n {
        return None;
    }
    let cap: i64 = 2147483649;
    let mut acc: i64 = 0;
    for i in first..n
        invariant
            n == s@.len(),
            first < n,
            ds == s@.skip(first as int),
            ds == (if s@[0] == '+' || s@[0] == '-' {
                s@.drop_first()
            } else {
                s@
            }),
            0 <= acc <= cap,
            cap == 2147483649,
            all_digits(s@.subrange(first as int, i as int)),
            acc == (if digits_value(s@.subrange(first as int, i as int)) < cap {
                digits_value(s@.subrange(first as int, i as int))
            } else {
                cap as int
            }),
    {
        let c = s[i];
        if !('0' <= c && c <= '9') {
            proof {
                assert(ds[i - first] == c);
                assert(!is_digit(ds[i - first]));
                assert(!all_digits(ds));
                assert(ds.len() > 0);
                assert(s@.len() > 0);
                assert(parse_i32(s@) is None);
            }
            return None;
        }
        let d: i64 = (c as u32 - 48u32) as i64;
        let ghost pre = s@.subrange(first as int, i as int);
        let ghost post = s@.subrange(first as int, i + 1);
        proof {
            assert(post.drop_last() == pre);
            assert(post.last() == c);
            assert forall|j: int| 0 <= j < post.len() implies #[trigger] is_digit(post[j]) by {
                if j < pre.len() {
                    assert(post[j] == pre[j]);
                }
            }
            assert(digits_value(pre) >= 0) by {
                lemma_digits_value_nonneg(pre);
            }
        }
        let next: i64 = acc * 10 + d;
        acc = if next < cap {
            next
        } else {
            cap
        };
    }
    assert(s@.subrange(first as int, n as int) == ds);
    assert(all_digits(ds));
    assert(acc == (if digits_value(ds) < cap {
        digits_value(ds)
    } else {
        cap as int
    }));
    let v: i64 = if neg {
        -acc
    } else {
        acc
    };
    if -2147483648 <= v && v <= 2147483647 {
        Some(v as i32)
    } else {
        None
    }
}

/// The value of a digit string is never negative.
pub proof fn lemma_digits_value_nonneg(s: Seq<char>)
    requires
        all_digits(s),
    ensures
        digits_value(s) >= 0,
    decreases s.len(),
{
    if s.len() > 0 {
        assert forall|j: int| 0 <= j < s.drop_last().len() implies #[trigger] is_digit(
            s.drop_last()[j],
        ) by {
            assert(s.drop_last()[j] == s[j]);
        }
        lemma_digits_value_nonneg(s.drop_last());
        assert(is_digit(s[s.len() - 1]));
    }
}

} // verus!
