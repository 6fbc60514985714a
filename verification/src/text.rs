//! Character-level model of the string operations the helper relies on.

use vstd::prelude::*;

verus! {

/// `String::push` appends one character.
pub assume_specification[ String::push ](s: &mut String, ch: char)
    ensures
        final(s)@ == old(s)@.push(ch),
;

/// The characters of `s`, in order.
pub fn chars_of(s: &str) -> (r: Vec<char>)
    ensures
        r@ == s@,
{
    let mut out: Vec<char> = Vec::new();
    for c in it: s.chars()
        invariant
            out@ == it.seq().take(it.index() as int),
    {
        out.push(c);
    }
    out
}

/// A `String` holding exactly the characters of `cs`.
pub fn string_of(cs: &[char]) -> (r: String)
    ensures
        r@ == cs@,
{
    let mut out = String::new();
    let mut i: usize = 0;
    while i < cs.len()
        invariant
            i <= cs@.len(),
            out@ == cs@.take(i as int),
        decreases cs@.len() - i,
    {
        out.push(cs[i]);
        i = i + 1;
        assert(cs@.take(i as int) == cs@.take(i - 1).push(cs@[i - 1]));
    }
    assert(cs@.take(cs@.len() as int) == cs@);
    out
}


/// Unicode `White_Space`, the set that `char::is_whitespace` and `str::trim` use.
pub open spec fn is_white_space(c: char) -> bool {
    ||| '\t' <= c <= '\r'
    ||| c == ' '
    ||| c == '\u{85}'
    ||| c == '\u{a0}'
    ||| c == '\u{1680}'
    ||| '\u{2000}' <= c <= '\u{200a}'
    ||| c == '\u{2028}'
    ||| c == '\u{2029}'
    ||| c == '\u{202f}'
    ||| c == '\u{205f}'
    ||| c == '\u{3000}'
}

/// Among ASCII characters, white space is exactly tab, line feed,
/// vertical tab, form feed, carriage return and space; letters, digits,
/// `=`, `[`, `]` and `/` are never white space.
pub proof fn lemma_ascii_white_space(c: char)
    requires
        (c as u32) < 128,
    ensures
        is_white_space(c) <==> (c == '\t' || c == '\n' || c == '\u{b}' || c == '\u{c}' || c == '\r' || c == ' '),
{
}

/// `s` without its leading white space.
pub open spec fn trim_start(s: Seq<char>) -> Seq<char>
    decreases s.len(),
{
    if s.len() > 0 && is_white_space(s[0]) {
        trim_start(s.drop_first())
    } else {
        s
    }
}

/// `s` without its trailing white space.
pub open spec fn trim_end(s: Seq<char>) -> Seq<char>
    decreases s.len(),
{
    if s.len() > 0 && is_white_space(s.last()) {
        trim_end(s.drop_last())
    } else {
        s
    }
}

/// `str::trim`: white space removed from both ends.
pub open spec fn trim(s: Seq<char>) -> Seq<char> {
    trim_end(trim_start(s))
}

/// `s` begins with `p`.
pub open spec fn starts_with(s: Seq<char>, p: Seq<char>) -> bool {
    p.len() <= s.len() && s.take(p.len() as int) == p
}

/// `s` ends with `p`.
pub open spec fn ends_with(s: Seq<char>, p: Seq<char>) -> bool {
    p.len() <= s.len() && s.skip(s.len() - p.len()) == p
}

/// `p` occurs in `s` at position `i`.
pub open spec fn occurs_at(s: Seq<char>, p: Seq<char>, i: int) -> bool {
    0 <= i && i + p.len() <= s.len() && s.subrange(i, i + p.len()) == p
}

/// `str::contains` for a string pattern.
pub open spec fn contains(s: Seq<char>, p: Seq<char>) -> bool {
    exists|i: int| occurs_at(s, p, i)
}

/// Position of the first `c` in `s`, as `str::find` with a `char` gives it.
pub open spec fn find_char(s: Seq<char>, c: char) -> Option<int>
    decreases s.len(),
{
    if s.len() == 0 {
        None
    } else if s[0] == c {
        Some(0)
    } else {
        match find_char(s.drop_first(), c) {
            Some(i) => Some(i + 1),
            None => None,
        }
    }
}

pub proof fn lemma_find_char(s: Seq<char>, c: char)
    ensures
        match find_char(s, c) {
            Some(i) => 0 <= i < s.len() && s[i] == c && forall|j: int| 0 <= j < i ==> s[j] != c,
            None => forall|j: int| 0 <= j < s.len() ==> s[j] != c,
        },
    decreases s.len(),
{
    if s.len() > 0 && s[0] != c {
        lemma_find_char(s.drop_first(), c);
        match find_char(s.drop_first(), c) {
            Some(i) => {
                assert forall|j: int| 0 <= j < i + 1 implies s[j] != c by {
                    if j > 0 {
                        assert(s[j] == s.drop_first()[j - 1]);
                    }
                }
            },
            None => {
                assert forall|j: int| 0 <= j < s.len() implies s[j] != c by {
                    if j > 0 {
                        assert(s[j] == s.drop_first()[j - 1]);
                    }
                }
            },
        }
    }
}

/// A characterisation of `find_char` by its result's properties.
pub proof fn lemma_find_char_is(s: Seq<char>, c: char, i: int)
    requires
        0 <= i < s.len(),
        s[i] == c,
        forall|j: int| 0 <= j < i ==> s[j] != c,
    ensures
        find_char(s, c) == Some(i),
{
    lemma_find_char(s, c);
}

pub proof fn lemma_find_char_none(s: Seq<char>, c: char)
    requires
        forall|j: int| 0 <= j < s.len() ==> s[j] != c,
    ensures
        find_char(s, c) is None,
{
    lemma_find_char(s, c);
}

/// `trim` removes exactly the white space at both ends: a text made of
/// leading white space, a middle that neither starts nor ends with white
/// space (or is empty), and trailing white space trims to that middle.
pub proof fn lemma_trim_exactly(a: Seq<char>, m: Seq<char>, b: Seq<char>)
    requires
        forall|k: int| 0 <= k < a.len() ==> is_white_space(#[trigger] a[k]),
        forall|k: int| 0 <= k < b.len() ==> is_white_space(#[trigger] b[k]),
        m.len() == 0 || (!is_white_space(m[0]) && !is_white_space(m.last())),
    ensures
        trim(a + m + b) == m,
{
    if m.len() == 0 {
        let w = a + m + b;
        assert forall|k: int| 0 <= k < w.len() implies is_white_space(#[trigger] w[k]) by {
            if k >= a.len() {
                assert(w[k] == b[k - a.len()]);
            }
        }
        lemma_trim_start_drops(w, Seq::empty());
        assert(w + Seq::<char>::empty() == w);
    } else {
        lemma_trim_start_drops(a, m + b);
        assert(a + m + b == a + (m + b));
        lemma_trim_end_drops(m, b);
    }
}

proof fn lemma_trim_start_drops(a: Seq<char>, r: Seq<char>)
    requires
        forall|k: int| 0 <= k < a.len() ==> is_white_space(#[trigger] a[k]),
        r.len() == 0 || !is_white_space(r[0]),
    ensures
        trim_start(a + r) == r,
    decreases a.len(),
{
    if a.len() > 0 {
        assert((a + r).drop_first() == a.drop_first() + r);
        lemma_trim_start_drops(a.drop_first(), r);
    } else {
        assert(a + r == r);
    }
}

proof fn lemma_trim_end_drops(m: Seq<char>, b: Seq<char>)
    requires
        forall|k: int| 0 <= k < b.len() ==> is_white_space(#[trigger] b[k]),
        m.len() == 0 || !is_white_space(m.last()),
    ensures
        trim_end(m + b) == m,
    decreases b.len(),
{
    if b.len() > 0 {
        assert((m + b).drop_last() == m + b.drop_last());
        lemma_trim_end_drops(m, b.drop_last());
    } else {
        assert(m + b == m);
    }
}

/// `lines` splits exactly at each `'\n'`: a text that is a line (holding
/// no `'\n'`), a `'\n'` and a rest gives that line, without one final
/// `'\r'`, then the lines of the rest; a last line with no `'\n'` after
/// it is a line of its own; the empty text has none, so a final `'\n'`
/// adds no empty line.
pub proof fn lemma_lines_split(l: Seq<char>, rest: Seq<char>)
    requires
        forall|k: int| 0 <= k < l.len() ==> l[k] != '\n',
    ensures
        lines(l + seq!['\n'] + rest) == seq![
            if l.len() > 0 && l.last() == '\r' { l.drop_last() } else { l },
        ] + lines(rest),
        l.len() > 0 ==> lines(l) == seq![l],
        lines(Seq::<char>::empty()).len() == 0,
{
    let s = l + seq!['\n'] + rest;
    assert forall|k: int| 0 <= k < l.len() implies s[k] != '\n' by {
        assert(s[k] == l[k]);
    }
    assert(s[l.len() as int] == '\n');
    lemma_find_char_is(s, '\n', l.len() as int);
    assert(s.take(l.len() as int) == l);
    assert(s.skip(l.len() as int + 1) == rest);
    if l.len() > 0 {
        lemma_find_char_none(l, '\n');
    }
}

/// A line as `str::lines` yields it: one trailing `'\r'` is dropped.
pub open spec fn strip_cr(l: Seq<char>) -> Seq<char> {
    if l.len() > 0 && l.last() == '\r' {
        l.drop_last()
    } else {
        l
    }
}

/// `str::lines`: the text split at `'\n'` (a `"\r\n"` counts as one line
/// ending), with no final empty line after a trailing newline.
pub open spec fn lines(s: Seq<char>) -> Seq<Seq<char>>
    decreases s.len(),
{
    if s.len() == 0 {
        Seq::empty()
    } else {
        match find_char(s, '\n') {
            Some(i) => {
                proof {
                    lemma_find_char(s, '\n');
                }
                seq![strip_cr(s.take(i))] + lines(s.skip(i + 1))
            },
            None => seq![s],
        }
    }
}

/// Two characters that are equal once ASCII letters are lower-cased: the
/// same character, or the upper- and lower-case forms of one ASCII letter.
pub open spec fn ascii_eq_ignore_case(x: char, y: char) -> bool {
    ||| x == y
    ||| 'A' <= x <= 'Z' && 'a' <= y <= 'z' && x as u32 + 32 == y as u32
    ||| 'a' <= x <= 'z' && 'A' <= y <= 'Z' && y as u32 + 32 == x as u32
}

/// `str::eq_ignore_ascii_case`.
pub open spec fn eq_ignore_ascii_case(a: Seq<char>, b: Seq<char>) -> bool {
    a.len() == b.len() && forall|i: int| 0 <= i < a.len() ==> ascii_eq_ignore_case(a[i], b[i])
}

/// `s` without any trailing `c`, as `str::trim_end_matches` with a `char`.
pub open spec fn trim_end_char(s: Seq<char>, c: char) -> Seq<char>
    decreases s.len(),
{
    if s.len() > 0 && s.last() == c {
        trim_end_char(s.drop_last(), c)
    } else {
        s
    }
}


/// `char::is_whitespace`.
pub fn is_white_space_char(c: char) -> (r: bool)
    ensures
        r == is_white_space(c),
{
    ('\t' <= c && c <= '\r') || c == ' ' || c == '\u{85}' || c == '\u{a0}' || c == '\u{1680}'
        || ('\u{2000}' <= c && c <= '\u{200a}') || c == '\u{2028}' || c == '\u{2029}'
        || c == '\u{202f}' || c == '\u{205f}' || c == '\u{3000}'
}

/// The bounds of `trim(s)` within `s`.
pub fn trim_bounds(s: &[char]) -> (r: (usize, usize))
    ensures
        r.0 <= r.1 <= s@.len(),
        s@.subrange(r.0 as int, r.1 as int) == trim(s@),
{
    let n = s.len();
    let mut a: usize = 0;
    assert(s@.subrange(0, n as int) == s@);
    while a < n && is_white_space_char(s[a])
        invariant
            a <= n == s@.len(),
            trim_start(s@) == trim_start(s@.subrange(a as int, n as int)),
        decreases n - a,
    {
        assert(s@.subrange(a as int, n as int).drop_first() == s@.subrange(a + 1, n as int));
        a = a + 1;
    }
    assert(trim_start(s@.subrange(a as int, n as int)) == s@.subrange(a as int, n as int));
    let mut b: usize = n;
    while b > a && is_white_space_char(s[b - 1])
        invariant
            a <= b <= n == s@.len(),
            trim(s@) == trim_end(s@.subrange(a as int, b as int)),
        decreases b - a,
    {
        assert(s@.subrange(a as int, b as int).drop_last() == s@.subrange(a as int, b - 1));
        b = b - 1;
    }
    (a, b)
}

/// A fresh vector holding `s[from..to]`.
pub fn slice_chars(s: &[char], from: usize, to: usize) -> (r: Vec<char>)
    requires
        from <= to <= s@.len(),
    ensures
        r@ == s@.subrange(from as int, to as int),
{
    let mut out: Vec<char> = Vec::new();
    let mut i = from;
    while i < to
        invariant
            from <= i <= to <= s@.len(),
            out@ == s@.subrange(from as int, i as int),
        decreases to - i,
    {
        out.push(s[i]);
        i = i + 1;
        assert(out@ == s@.subrange(from as int, i as int));
    }
    out
}

/// `trim(s)` as a fresh vector.
pub fn trimmed(s: &[char]) -> (r: Vec<char>)
    ensures
        r@ == trim(s@),
{
    let (a, b) = trim_bounds(s);
    slice_chars(s, a, b)
}

/// `p` occurs in `s` at position `i`.
pub fn occurs_at_exec(s: &[char], p: &[char], i: usize) -> (r: bool)
    ensures
        r == occurs_at(s@, p@, i as int),
{
    if i > s.len() || p.len() > s.len() - i {
        return false;
    }
    let mut k: usize = 0;
    while k < p.len()
        invariant
            i + p@.len() <= s@.len(),
            s@.len() == s.len(),
            k <= p@.len(),
            forall|j: int| 0 <= j < k ==> s@[i + j] == p@[j],
        decreases p@.len() - k,
    {
        if s[i + k] != p[k] {
            assert(s@.subrange(i as int, i + p@.len())[k as int] != p@[k as int]);
            return false;
        }
        k = k + 1;
    }
    assert(s@.subrange(i as int, i + p@.len()) == p@);
    true
}

/// `str::starts_with`.
pub fn starts_with_exec(s: &[char], p: &[char]) -> (r: bool)
    ensures
        r == starts_with(s@, p@),
{
    let r = occurs_at_exec(s, p, 0);
    proof {
        if p@.len() <= s@.len() {
            assert(s@.subrange(0, p@.len() as int) == s@.take(p@.len() as int));
        }
    }
    r
}

/// `str::contains` with a string pattern.
pub fn contains_exec(s: &[char], p: &[char]) -> (r: bool)
    ensures
        r == contains(s@, p@),
{
    if p.len() > s.len() {
        return false;
    }
    let last = s.len() - p.len();
    let mut i: usize = 0;
    loop
        invariant
            last == s@.len() - p@.len(),
            i <= last,
            forall|j: int| 0 <= j < i ==> !occurs_at(s@, p@, j),
        decreases last - i,
    {
        if occurs_at_exec(s, p, i) {
            return true;
        }
        if i == last {
            assert forall|j: int| !occurs_at(s@, p@, j) by {
                if occurs_at(s@, p@, j) {
                    assert(j <= last);
                }
            }
            return false;
        }
        i = i + 1;
    }
}

/// `str::find` with a `char` pattern, counted in characters.
pub fn find_char_exec(s: &[char], c: char) -> (r: Option<usize>)
    ensures
        match r {
            Some(i) => find_char(s@, c) == Some(i as int),
            None => find_char(s@, c) is None,
        },
{
    let mut i: usize = 0;
    while i < s.len()
        invariant
            i <= s@.len(),
            forall|j: int| 0 <= j < i ==> s@[j] != c,
        decreases s@.len() - i,
    {
        if s[i] == c {
            proof {
                lemma_find_char_is(s@, c, i as int);
            }
            return Some(i);
        }
        i = i + 1;
    }
    proof {
        lemma_find_char_none(s@, c);
    }
    None
}

/// `str::eq_ignore_ascii_case`.
pub fn eq_ignore_ascii_case_exec(a: &[char], b: &[char]) -> (r: bool)
    ensures
        r == eq_ignore_ascii_case(a@, b@),
{
    if a.len() != b.len() {
        return false;
    }
    let mut i: usize = 0;
    while i < a.len()
        invariant
            a@.len() == b@.len(),
            i <= a@.len(),
            forall|j: int| 0 <= j < i ==> ascii_eq_ignore_case(a@[j], b@[j]),
        decreases a@.len() - i,
    {
        let x = a[i];
        let y = b[i];
        let same = x == y || ('A' <= x && x <= 'Z' && 'a' <= y && y <= 'z' && x as u32 + 32 == y as u32)
            || ('a' <= x && x <= 'z' && 'A' <= y && y <= 'Z' && y as u32 + 32 == x as u32);
        if !same {
            return false;
        }
        i = i + 1;
    }
    true
}

/// Length of `trim_end_char(s, c)`.
pub fn trim_end_char_len(s: &[char], c: char) -> (r: usize)
    ensures
        r <= s@.len(),
        s@.take(r as int) == trim_end_char(s@, c),
{
    let mut n = s.len();
    assert(s@.take(n as int) == s@);
    while n > 0 && s[n - 1] == c
        invariant
            n <= s@.len(),
            trim_end_char(s@, c) == trim_end_char(s@.take(n as int), c),
        decreases n,
    {
        assert(s@.take(n as int).drop_last() == s@.take(n - 1));
        n = n - 1;
    }
    n
}


/// The character sequences held by a vector of character vectors.
pub open spec fn views(v: Seq<Vec<char>>) -> Seq<Seq<char>> {
    Seq::new(v.len(), |i: int| v[i]@)
}

/// `str::lines`, as vectors of characters.
pub fn split_lines(s: &[char]) -> (r: Vec<Vec<char>>)
    ensures
        views(r@) == lines(s@),
{
    let n = s.len();
    let mut out: Vec<Vec<char>> = Vec::new();
    let mut start: usize = 0;
    assert(s@.skip(0) == s@);
    while start < n
        invariant
            start <= n == s@.len(),
            lines(s@) == views(out@) + lines(s@.skip(start as int)),
        decreases n - start,
    {
        let ghost t = s@.skip(start as int);
        let mut j = start;
        while j < n && s[j] != '\n'
            invariant
                start <= j <= n == s@.len(),
                forall|k: int| start <= k < j ==> s@[k] != '\n',
            decreases n - j,
        {
            j = j + 1;
        }
        let mut line = slice_chars(s, start, j);
        let ghost prev = out@;
        if j < n {
            proof {
                assert forall|k: int| 0 <= k < j - start implies t[k] != '\n' by {
                    assert(t[k] == s@[start + k]);
                }
                lemma_find_char_is(t, '\n', j - start);
                assert(t.take(j - start) == s@.subrange(start as int, j as int));
                assert(t.skip(j - start + 1) == s@.skip(j + 1));
            }
            if line.len() > 0 && line[line.len() - 1] == '\r' {
                line.pop();
            }
            assert(line@ == strip_cr(s@.subrange(start as int, j as int)));
            out.push(line);
            start = j + 1;
        } else {
            proof {
                assert forall|k: int| 0 <= k < t.len() implies t[k] != '\n' by {
                    assert(t[k] == s@[start + k]);
                }
                lemma_find_char_none(t, '\n');
                assert(t == s@.subrange(start as int, n as int));
                assert(s@.skip(n as int).len() == 0);
            }
            out.push(line);
            start = n;
        }
        assert(views(out@) == views(prev) + seq![out@.last()@]);
    }
    assert(s@.skip(n as int).len() == 0);
    assert(views(out@) + lines(s@.skip(n as int)) == views(out@));
    out
}

/// An ASCII decimal digit.
pub open spec fn is_digit(c: char) -> bool {
    '0' <= c <= '9'
}

/// Every character of `d` is a decimal digit.
pub open spec fn all_digits(d: Seq<char>) -> bool {
    forall|i: int| 0 <= i < d.len() ==> is_digit(#[trigger] d[i])
}

/// The value of a run of decimal digits.
pub open spec fn digits_value(d: Seq<char>) -> int
    decreases d.len(),
{
    if d.len() == 0 {
        0
    } else {
        digits_value(d.drop_last()) * 10 + (d.last() as int - '0' as int)
    }
}

/// `str::parse::<i32>`: an optional sign, then one or more decimal digits,
/// with a value that fits in an `i32`.
pub open spec fn parse_i32(s: Seq<char>) -> Option<int> {
    if s.len() == 0 {
        None
    } else {
        let d = if s[0] == '-' || s[0] == '+' {
            s.drop_first()
        } else {
            s
        };
        let v = if s[0] == '-' {
            -digits_value(d)
        } else {
            digits_value(d)
        };
        if d.len() == 0 || !all_digits(d) || v < i32::MIN || v > i32::MAX {
            None
        } else {
            Some(v)
        }
    }
}

pub proof fn lemma_digits_value_nonneg(d: Seq<char>)
    requires
        all_digits(d),
    ensures
        digits_value(d) >= 0,
    decreases d.len(),
{
    if d.len() > 0 {
        assert(all_digits(d.drop_last())) by {
            assert forall|i: int| 0 <= i < d.drop_last().len() implies is_digit(
                #[trigger] d.drop_last()[i],
            ) by {
                assert(d.drop_last()[i] == d[i]);
            }
        }
        lemma_digits_value_nonneg(d.drop_last());
        assert(is_digit(d[d.len() - 1]));
    }
}

pub proof fn lemma_digits_value_prefix(d: Seq<char>, k: int)
    requires
        all_digits(d),
        0 <= k <= d.len(),
    ensures
        digits_value(d.take(k)) <= digits_value(d),
    decreases d.len(),
{
    if k < d.len() {
        let e = d.drop_last();
        assert(all_digits(e)) by {
            assert forall|i: int| 0 <= i < e.len() implies is_digit(#[trigger] e[i]) by {
                assert(e[i] == d[i]);
            }
        }
        lemma_digits_value_prefix(e, k);
        assert(e.take(k) == d.take(k));
        lemma_digits_value_nonneg(e);
        assert(is_digit(d[d.len() - 1]));
    } else {
        assert(d.take(k) == d);
    }
}

/// `str::parse::<i32>`, `None` for every error.
pub fn parse_i32_exec(s: &[char]) -> (r: Option<i32>)
    ensures
        match r {
            Some(v) => parse_i32(s@) == Some(v as int),
            None => parse_i32(s@) is None,
        },
{
    let n = s.len();
    if n == 0 {
        return None;
    }
    let neg = s[0] == '-';
    let start: usize = if s[0] == '-' || s[0] == '+' { 1 } else { 0 };
    let ghost d = if s@[0] == '-' || s@[0] == '+' { s@.drop_first() } else { s@ };
    assert(d == s@.subrange(start as int, n as int));
    if start == n {
        return None;
    }
    let mut acc: i64 = 0;
    let mut i = start;
    assert(s@.subrange(start as int, start as int).len() == 0);
    while i < n
        invariant
            start <= i <= n == s@.len(),
            start < n,
            d == s@.subrange(start as int, n as int),
            d == (if s@[0] == '-' || s@[0] == '+' { s@.drop_first() } else { s@ }),
            0 <= acc <= 2147483648,
            acc == digits_value(s@.subrange(start as int, i as int)),
            all_digits(s@.subrange(start as int, i as int)),
        decreases n - i,
    {
        let c = s[i];
        if !('0' <= c && c <= '9') {
            assert(!is_digit(d[i - start]));
            return None;
        }
        let dv: i64 = (c as u32 - '0' as u32) as i64;
        let v = acc * 10 + dv;
        let ghost next = s@.subrange(start as int, i + 1);
        assert(next.drop_last() == s@.subrange(start as int, i as int));
        assert(all_digits(next)) by {
            assert forall|k: int| 0 <= k < next.len() implies is_digit(#[trigger] next[k]) by {
                if k < next.len() - 1 {
                    assert(next[k] == s@.subrange(start as int, i as int)[k]);
                }
            }
        }
        assert(v == digits_value(next));
        if v > 2147483648 {
            proof {
                if all_digits(d) {
                    assert(d.take(i + 1 - start) == next);
                    lemma_digits_value_prefix(d, i + 1 - start);
                }
            }
            return None;
        }
        acc = v;
        i = i + 1;
    }
    assert(s@.subrange(start as int, n as int) == d);
    if neg {
        Some((-acc) as i32)
    } else if acc > 2147483647 {
        None
    } else {
        Some(acc as i32)
    }
}

/// The decimal digit character for `d` (0 to 9).
pub open spec fn digit_char(d: int) -> char {
    if d == 0 {
        '0'
    } else if d == 1 {
        '1'
    } else if d == 2 {
        '2'
    } else if d == 3 {
        '3'
    } else if d == 4 {
        '4'
    } else if d == 5 {
        '5'
    } else if d == 6 {
        '6'
    } else if d == 7 {
        '7'
    } else if d == 8 {
        '8'
    } else {
        '9'
    }
}

/// The decimal spelling of `n`, as `format!("{n}")` writes it.
pub open spec fn decimal(n: nat) -> Seq<char>
    decreases n,
{
    if n < 10 {
        seq![digit_char(n as int)]
    } else {
        decimal(n / 10).push(digit_char(n as int % 10))
    }
}

pub proof fn lemma_decimal_digits(n: nat)
    ensures
        decimal(n).len() > 0,
        all_digits(decimal(n)),
    decreases n,
{
    if n >= 10 {
        lemma_decimal_digits(n / 10);
        let d = decimal(n / 10);
        assert forall|i: int| 0 <= i < decimal(n).len() implies is_digit(#[trigger] decimal(n)[i]) by {
            if i < d.len() {
                assert(decimal(n)[i] == d[i]);
            }
        }
    }
}

/// `decimal` spells `n` exactly: its digits read back as `n`, and only
/// `0` itself starts with a `0`.
pub proof fn lemma_decimal_value(n: nat)
    ensures
        all_digits(decimal(n)),
        digits_value(decimal(n)) == n,
        n > 0 ==> decimal(n)[0] != '0',
    decreases n,
{
    lemma_decimal_digits(n);
    let m: int = (n % 10) as int;
    assert(0 <= m < 10);
    assert(digit_char(m) as int - '0' as int == m);
    let s = decimal(n);
    if n < 10 {
        assert(m == n);
        assert(s.drop_last().len() == 0);
        assert(digits_value(s.drop_last()) == 0);
        assert(s.last() == digit_char(m));
    } else {
        lemma_decimal_value(n / 10);
        let d = decimal(n / 10);
        assert(s.drop_last() == d);
        assert(s.last() == digit_char(m));
        assert(s[0] == d[0]);
        assert((n / 10) * 10 + n % 10 == n) by (nonlinear_arith);
        assert(digits_value(s) == digits_value(d) * 10 + m);
    }
}

/// `parse_i32` reads back what `decimal` writes, with an optional sign,
/// for every value in range; a text holding a character that is not a
/// digit past the sign parses to nothing.
pub proof fn lemma_parse_i32_reads_decimal(n: nat, s: Seq<char>)
    ensures
        n <= i32::MAX ==> parse_i32(decimal(n)) == Some(n as int),
        n <= i32::MAX ==> parse_i32(seq!['+'] + decimal(n)) == Some(n as int),
        n <= i32::MAX + 1 ==> parse_i32(seq!['-'] + decimal(n)) == Some(-(n as int)),
        (exists|k: int| 0 < k < s.len() && !is_digit(#[trigger] s[k])) ==> parse_i32(s) is None,
        s.len() > 0 && !is_digit(s[0]) && s[0] != '+' && s[0] != '-' ==> parse_i32(s) is None,
{
    lemma_decimal_value(n);
    let d = decimal(n);
    assert(d[0] != '-' && d[0] != '+') by {
        assert(is_digit(d[0]));
    }
    assert((seq!['+'] + d).drop_first() == d);
    assert((seq!['-'] + d).drop_first() == d);
    if exists|k: int| 0 < k < s.len() && !is_digit(#[trigger] s[k]) {
        let k = choose|k: int| 0 < k < s.len() && !is_digit(#[trigger] s[k]);
        if s[0] == '-' || s[0] == '+' {
            assert(s.drop_first()[k - 1] == s[k]);
        }
    }
}

/// A line that is present in a text: after the start or a newline, and
/// followed by a newline.
pub proof fn lemma_lines_contain(a: Seq<char>, l: Seq<char>, b: Seq<char>)
    requires
        a.len() == 0 || a.last() == '\n',
        forall|k: int| 0 <= k < l.len() ==> l[k] != '\n',
        strip_cr(l) == l,
    ensures
        exists|i: int| 0 <= i < lines(a + l + seq!['\n'] + b).len() && #[trigger] lines(a + l + seq!['\n'] + b)[i] == l,
    decreases a.len(),
{
    let s = a + l + seq!['\n'] + b;
    if a.len() == 0 {
        assert(s == l + seq!['\n'] + b);
        assert forall|k: int| 0 <= k < l.len() implies s[k] != '\n' by {
            assert(s[k] == l[k]);
        }
        assert(s[l.len() as int] == '\n');
        lemma_find_char_is(s, '\n', l.len() as int);
        assert(s.take(l.len() as int) == l);
        assert(lines(s)[0] == l);
    } else {
        lemma_find_char(a, '\n');
        let j = find_char(a, '\n')->0;
        assert forall|k: int| 0 <= k < j implies s[k] != '\n' by {
            assert(s[k] == a[k]);
        }
        assert(s[j] == a[j]);
        lemma_find_char_is(s, '\n', j);
        let a2 = a.skip(j + 1);
        assert(a2.len() == 0 || a2.last() == '\n');
        assert(s.skip(j + 1) == a2 + l + seq!['\n'] + b);
        lemma_lines_contain(a2, l, b);
        let i = choose|i: int| 0 <= i < lines(a2 + l + seq!['\n'] + b).len() && #[trigger] lines(a2 + l + seq!['\n'] + b)[i] == l;
        assert(lines(s) == seq![strip_cr(s.take(j))] + lines(s.skip(j + 1)));
        assert(lines(s)[i + 1] == l);
    }
}

fn digit_char_exec(d: u32) -> (r: char)
    requires
        d < 10,
    ensures
        r == digit_char(d as int),
{
    match d {
        0 => '0',
        1 => '1',
        2 => '2',
        3 => '3',
        4 => '4',
        5 => '5',
        6 => '6',
        7 => '7',
        8 => '8',
        _ => '9',
    }
}

/// Appends the decimal spelling of `n`.
pub fn push_decimal(out: &mut Vec<char>, n: u32)
    ensures
        final(out)@ == old(out)@ + decimal(n as nat),
    decreases n,
{
    if n >= 10 {
        push_decimal(out, n / 10);
    }
    out.push(digit_char_exec(n % 10));
}

/// Every occurrence of `pat` in `s`, from the left and without overlap,
/// replaced by `rep`: `str::replace` for a non-empty pattern.
pub open spec fn replace_all(s: Seq<char>, pat: Seq<char>, rep: Seq<char>) -> Seq<char>
    decreases s.len(),
{
    if s.len() == 0 {
        s
    } else if pat.len() > 0 && starts_with(s, pat) {
        rep + replace_all(s.skip(pat.len() as int), pat, rep)
    } else {
        seq![s[0]] + replace_all(s.drop_first(), pat, rep)
    }
}

/// A text in which the pattern does not occur is left as it is.
pub proof fn lemma_replace_all_absent(s: Seq<char>, pat: Seq<char>, rep: Seq<char>)
    requires
        !contains(s, pat),
    ensures
        replace_all(s, pat, rep) == s,
    decreases s.len(),
{
    if s.len() > 0 {
        if pat.len() > 0 && starts_with(s, pat) {
            assert(s.subrange(0, pat.len() as int) == s.take(pat.len() as int));
            assert(occurs_at(s, pat, 0));
        }
        let t = s.drop_first();
        assert forall|i: int| !occurs_at(t, pat, i) by {
            if occurs_at(t, pat, i) {
                assert(s.subrange(i + 1, i + 1 + pat.len()) == t.subrange(i, i + pat.len()));
                assert(occurs_at(s, pat, i + 1));
            }
        }
        lemma_replace_all_absent(t, pat, rep);
        assert(s == seq![s[0]] + t);
    }
}

/// Replacement goes left to right: text before the first occurrence of the
/// pattern is kept, that occurrence becomes the replacement, and the rest
/// is replaced in the same way.
pub proof fn lemma_replace_all_first(a: Seq<char>, pat: Seq<char>, b: Seq<char>, rep: Seq<char>)
    requires
        pat.len() > 0,
        forall|i: int| 0 <= i < a.len() ==> !occurs_at(a + pat + b, pat, i),
    ensures
        replace_all(a + pat + b, pat, rep) == a + rep + replace_all(b, pat, rep),
    decreases a.len(),
{
    let s = a + pat + b;
    if a.len() == 0 {
        assert(s == pat + b);
        assert(s.take(pat.len() as int) == pat);
        assert(s.skip(pat.len() as int) == b);
        assert(a + rep == rep);
    } else {
        assert(!occurs_at(s, pat, 0));
        if starts_with(s, pat) {
            assert(s.subrange(0, pat.len() as int) == s.take(pat.len() as int));
        }
        let a2 = a.drop_first();
        assert(s.drop_first() == a2 + pat + b);
        assert forall|i: int| 0 <= i < a2.len() implies !occurs_at(a2 + pat + b, pat, i) by {
            if occurs_at(a2 + pat + b, pat, i) {
                assert(s.subrange(i + 1, i + 1 + pat.len()) == (a2 + pat + b).subrange(i, i + pat.len()));
                assert(occurs_at(s, pat, i + 1));
            }
        }
        lemma_replace_all_first(a2, pat, b, rep);
        assert(a == seq![a[0]] + a2);
    }
}

/// Where the pattern occurs, the replacement occurs in the result.
pub proof fn lemma_replace_all_contains(s: Seq<char>, pat: Seq<char>, rep: Seq<char>)
    requires
        pat.len() > 0,
        contains(s, pat),
    ensures
        contains(replace_all(s, pat, rep), rep),
    decreases s.len(),
{
    let i = choose|i: int| occurs_at(s, pat, i);
    if starts_with(s, pat) {
        let r = replace_all(s, pat, rep);
        assert(r.subrange(0, rep.len() as int) == rep);
        assert(occurs_at(r, rep, 0));
    } else {
        if i == 0 {
            assert(s.take(pat.len() as int) == s.subrange(0, pat.len() as int));
        }
        let t = s.drop_first();
        assert(t.subrange(i - 1, i - 1 + pat.len()) == s.subrange(i, i + pat.len()));
        assert(occurs_at(t, pat, i - 1));
        lemma_replace_all_contains(t, pat, rep);
        let rt = replace_all(t, pat, rep);
        let j = choose|j: int| occurs_at(rt, rep, j);
        let r = replace_all(s, pat, rep);
        assert(r == seq![s[0]] + rt);
        assert(r.subrange(j + 1, j + 1 + rep.len()) == rt.subrange(j, j + rep.len()));
        assert(occurs_at(r, rep, j + 1));
    }
}

/// `str::replace` for a non-empty pattern.
pub fn replace_all_exec(s: &[char], pat: &[char], rep: &[char]) -> (r: Vec<char>)
    requires
        pat@.len() > 0,
    ensures
        r@ == replace_all(s@, pat@, rep@),
{
    let n = s.len();
    let mut out: Vec<char> = Vec::new();
    let mut i: usize = 0;
    assert(s@.skip(0) == s@);
    while i < n
        invariant
            i <= n == s@.len(),
            pat@.len() > 0,
            replace_all(s@, pat@, rep@) == out@ + replace_all(s@.skip(i as int), pat@, rep@),
        decreases n - i,
    {
        let ghost t = s@.skip(i as int);
        if occurs_at_exec(s, pat, i) {
            assert(t.take(pat@.len() as int) == s@.subrange(i as int, i + pat@.len()));
            assert(t.skip(pat@.len() as int) == s@.skip(i + pat@.len()));
            push_all(&mut out, rep);
            i = i + pat.len();
        } else {
            assert(!starts_with(t, pat@)) by {
                if starts_with(t, pat@) {
                    assert(t.take(pat@.len() as int) == s@.subrange(i as int, i + pat@.len()));
                }
            }
            assert(t.drop_first() == s@.skip(i + 1));
            out.push(s[i]);
            i = i + 1;
        }
    }
    assert(s@.skip(n as int).len() == 0);
    out
}


/// Appends every character of `s`.
pub fn push_all(out: &mut Vec<char>, s: &[char])
    ensures
        final(out)@ == old(out)@ + s@,
{
    let mut k: usize = 0;
    while k < s.len()
        invariant
            k <= s@.len(),
            out@ == old(out)@ + s@.take(k as int),
        decreases s@.len() - k,
    {
        out.push(s[k]);
        k = k + 1;
        assert(s@.take(k as int) == s@.take(k - 1).push(s@[k - 1]));
    }
    assert(s@.take(s@.len() as int) == s@);
}


/// Lexicographic order on characters, which is the order `String`'s `Ord`
/// gives (UTF-8 byte order follows code point order).
pub open spec fn lex_lt(a: Seq<char>, b: Seq<char>) -> bool
    decreases a.len(),
{
    if a.len() == 0 {
        b.len() > 0
    } else if b.len() == 0 {
        false
    } else if a[0] != b[0] {
        a[0] < b[0]
    } else {
        lex_lt(a.drop_first(), b.drop_first())
    }
}

/// The order of two strings is decided at their first difference: past a
/// common start, the one with the smaller character there comes first,
/// and a string that ends there (a proper prefix of the other) comes first.
pub proof fn lemma_lex_lt_first_difference(a: Seq<char>, b: Seq<char>, k: int)
    requires
        0 <= k <= a.len(),
        k <= b.len(),
        a.take(k) == b.take(k),
    ensures
        k < a.len() && k < b.len() && a[k] != b[k] ==> (lex_lt(a, b) <==> a[k] < b[k]),
        k == a.len() && k < b.len() ==> lex_lt(a, b) && !lex_lt(b, a),
    decreases k,
{
    if k > 0 {
        assert(a[0] == a.take(k)[0] && b[0] == b.take(k)[0]);
        assert(a.drop_first().take(k - 1) == a.take(k).drop_first());
        assert(b.drop_first().take(k - 1) == b.take(k).drop_first());
        lemma_lex_lt_first_difference(a.drop_first(), b.drop_first(), k - 1);
    }
}

pub proof fn lemma_lex_irreflexive(a: Seq<char>)
    ensures
        !lex_lt(a, a),
    decreases a.len(),
{
    if a.len() > 0 {
        lemma_lex_irreflexive(a.drop_first());
    }
}

pub proof fn lemma_lex_transitive(a: Seq<char>, b: Seq<char>, c: Seq<char>)
    requires
        lex_lt(a, b),
        lex_lt(b, c),
    ensures
        lex_lt(a, c),
    decreases a.len(),
{
    if a.len() > 0 && b.len() > 0 && c.len() > 0 {
        if a[0] == b[0] && b[0] == c[0] {
            lemma_lex_transitive(a.drop_first(), b.drop_first(), c.drop_first());
        }
    }
}

pub proof fn lemma_lex_total(a: Seq<char>, b: Seq<char>)
    requires
        a != b,
    ensures
        lex_lt(a, b) || lex_lt(b, a),
    decreases a.len(),
{
    if a.len() > 0 && b.len() > 0 && a[0] == b[0] {
        if a.drop_first() == b.drop_first() {
            assert(a == seq![a[0]] + a.drop_first());
            assert(b == seq![b[0]] + b.drop_first());
        }
        lemma_lex_total(a.drop_first(), b.drop_first());
    } else if a.len() == 0 && b.len() == 0 {
        assert(a == b);
    } else if a.len() > 0 && b.len() > 0 {
    }
}

/// `a < b` for strings.
pub fn lex_lt_exec(a: &[char], b: &[char]) -> (r: bool)
    ensures
        r == lex_lt(a@, b@),
{
    let mut k: usize = 0;
    assert(a@.skip(0) == a@ && b@.skip(0) == b@);
    while k < a.len() && k < b.len() && a[k] == b[k]
        invariant
            k <= a@.len(),
            k <= b@.len(),
            lex_lt(a@, b@) == lex_lt(a@.skip(k as int), b@.skip(k as int)),
        decreases a@.len() - k,
    {
        assert(a@.skip(k as int).drop_first() == a@.skip(k + 1));
        assert(b@.skip(k as int).drop_first() == b@.skip(k + 1));
        k = k + 1;
    }
    if k == a.len() {
        k < b.len()
    } else if k == b.len() {
        false
    } else {
        a[k] < b[k]
    }
}

/// `a == b` for strings.
pub fn chars_eq(a: &[char], b: &[char]) -> (r: bool)
    ensures
        r == (a@ == b@),
{
    if a.len() != b.len() {
        return false;
    }
    let mut k: usize = 0;
    while k < a.len()
        invariant
            a@.len() == b@.len(),
            k <= a@.len(),
            forall|j: int| 0 <= j < k ==> a@[j] == b@[j],
        decreases a@.len() - k,
    {
        if a[k] != b[k] {
            return false;
        }
        k = k + 1;
    }
    assert(a@ == b@);
    true
}


/// `str::trim`, as an owned string.
pub fn trim_str(s: &str) -> (r: String)
    ensures
        r@ == trim(s@),
{
    let cs = chars_of(s);
    let t = trimmed(cs.as_slice());
    string_of(t.as_slice())
}

} // verus!
