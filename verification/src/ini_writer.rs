//! `terminal.ini` editing that whitelists `https://markitel.com` for
//! WebRequest: an existing `[Experts]` section gets a new
//! `WebRequestURL_N` key one index above the highest one it holds; a file
//! without that section gets the section appended; a file that already
//! lists the URL is left alone.

use vstd::prelude::*;
use crate::text::{
    chars_of, decimal, eq_ignore_ascii_case, eq_ignore_ascii_case_exec, find_char, find_char_exec,
    lemma_find_char, lines, parse_i32, parse_i32_exec, push_all, push_decimal, slice_chars,
    split_lines, starts_with, starts_with_exec, string_of, strip_cr, trim, trim_end, trim_end_char,
    trim_end_char_len, trim_start, trimmed, views, is_white_space, lemma_decimal_digits, ascii_eq_ignore_case,
    lemma_lines_contain, lemma_find_char_is, lemma_find_char_none, is_digit, ends_with,
};

verus! {

/// The section that holds the WebRequest whitelist.
pub const SECTION: &'static str = "[Experts]";

/// The prefix of each whitelist key.
pub const URL_KEY_PREFIX: &'static str = "WebRequestURL_";

/// The origin that the EA calls.
pub const MARKITEL_URL: &'static str = "https://markitel.com";

/// `[Experts]`, the section that holds the WebRequest whitelist.
pub open spec fn section_name() -> Seq<char> {
    seq!['[', 'E', 'x', 'p', 'e', 'r', 't', 's', ']']
}

/// `WebRequestURL_`, the prefix of each whitelist key.
pub open spec fn url_key_prefix() -> Seq<char> {
    seq!['W', 'e', 'b', 'R', 'e', 'q', 'u', 'e', 's', 't', 'U', 'R', 'L', '_']
}

/// `https://markitel.com`, the origin that the EA calls.
pub open spec fn markitel_url() -> Seq<char> {
    seq!['h', 't', 't', 'p', 's', ':', '/', '/', 'm', 'a', 'r', 'k', 'i', 't', 'e', 'l', '.', 'c', 'o', 'm']
}

fn section_chars() -> (r: Vec<char>)
    ensures
        r@ == section_name(),
{
    let r = vec!['[', 'E', 'x', 'p', 'e', 'r', 't', 's', ']'];
    assert(r@ == section_name());
    r
}

fn url_key_prefix_chars() -> (r: Vec<char>)
    ensures
        r@ == url_key_prefix(),
{
    let r = vec!['W', 'e', 'b', 'R', 'e', 'q', 'u', 'e', 's', 't', 'U', 'R', 'L', '_'];
    assert(r@ == url_key_prefix());
    r
}

fn markitel_url_chars() -> (r: Vec<char>)
    ensures
        r@ == markitel_url(),
{
    let r = vec!['h', 't', 't', 'p', 's', ':', '/', '/', 'm', 'a', 'r', 'k', 'i', 't', 'e', 'l', '.', 'c', 'o', 'm'];
    assert(r@ == markitel_url());
    r
}


/// A section header such as `[Common]` (already trimmed).
pub open spec fn is_header(t: Seq<char>) -> bool {
    t.len() > 0 && t[0] == '[' && t.last() == ']'
}

/// The line, trimmed, is a section header.
pub open spec fn is_section_line(l: Seq<char>) -> bool {
    is_header(trim(l))
}

/// The line, trimmed, is `[Experts]` in any ASCII case.
pub open spec fn is_experts_header(l: Seq<char>) -> bool {
    eq_ignore_ascii_case(trim(l), section_name())
}

/// After the first `n` lines, the section in force is `[Experts]`.
pub open spec fn experts_open(ls: Seq<Seq<char>>, n: int) -> bool
    decreases n,
{
    if n <= 0 {
        false
    } else if is_section_line(ls[n - 1]) {
        is_experts_header(ls[n - 1])
    } else {
        experts_open(ls, n - 1)
    }
}

/// Line `i` is a key line (not a header) inside an `[Experts]` section.
pub open spec fn in_experts_body(ls: Seq<Seq<char>>, i: int) -> bool {
    !is_section_line(ls[i]) && experts_open(ls, i)
}

/// The `N` of a `WebRequestURL_N=...` line, when `N` parses as an `i32`.
pub open spec fn url_key_index(l: Seq<char>) -> Option<int> {
    let t = trim(l);
    if starts_with(t, url_key_prefix()) {
        match find_char(t, '=') {
            Some(e) => parse_i32(t.subrange(url_key_prefix().len() as int, e)),
            None => None,
        }
    } else {
        None
    }
}

/// The highest whitelist index among the `[Experts]` lines of the first
/// `n` lines; -1 when there is none.
pub open spec fn max_url_index(ls: Seq<Seq<char>>, n: int) -> int
    decreases n,
{
    if n <= 0 {
        -1
    } else {
        let m = max_url_index(ls, n - 1);
        if in_experts_body(ls, n - 1) && url_key_index(ls[n - 1]) is Some
            && url_key_index(ls[n - 1])->0 > m {
            url_key_index(ls[n - 1])->0
        } else {
            m
        }
    }
}

pub proof fn lemma_max_url_index_range(ls: Seq<Seq<char>>, n: int)
    ensures
        -1 <= max_url_index(ls, n) <= i32::MAX,
    decreases n,
{
    if n > 0 {
        lemma_max_url_index_range(ls, n - 1);
    }
}

/// The highest whitelist index in the `[Experts]` sections of `content`.
pub open spec fn max_index_of(content: Seq<char>) -> int {
    max_url_index(lines(content), lines(content).len() as int)
}

/// `WebRequestURL_<n>=https://markitel.com`.
pub open spec fn url_line(n: nat) -> Seq<char> {
    url_key_prefix() + decimal(n) + seq!['='] + markitel_url()
}

/// Each line followed by `'\n'`.
pub open spec fn joined(ls: Seq<Seq<char>>) -> Seq<char>
    decreases ls.len(),
{
    if ls.len() == 0 {
        Seq::empty()
    } else {
        joined(ls.drop_last()) + ls.last() + seq!['\n']
    }
}

/// Line `i` ends an `[Experts]` block (its header or its last key line):
/// the next line is a header, or there is none.
pub open spec fn is_insertion_point(ls: Seq<Seq<char>>, i: int) -> bool {
    0 <= i < ls.len() && experts_open(ls, i + 1) && (i + 1 == ls.len() || is_section_line(
        ls[i + 1],
    ))
}

/// The first insertion point at or after line `k`.
pub open spec fn first_insertion_from(ls: Seq<Seq<char>>, k: int) -> Option<int>
    decreases ls.len() - k,
{
    if k < 0 || k >= ls.len() {
        None
    } else if is_insertion_point(ls, k) {
        Some(k)
    } else {
        first_insertion_from(ls, k + 1)
    }
}

/// Some line is an `[Experts]` header.
pub open spec fn has_experts_header(ls: Seq<Seq<char>>) -> bool {
    exists|i: int| 0 <= i < ls.len() && is_experts_header(#[trigger] ls[i])
}

/// What `patch_content` makes of `content`. The new line carries the index
/// one above `max_index_of(content)`. Where an `[Experts]` header exists,
/// the text is rebuilt line by line, each line followed by `'\n'`, and the
/// new line goes at the end of the first `[Experts]` block: right after its
/// last key line, or right after its header when it has none, before the
/// next header or the end (such a place always exists:
/// `lemma_experts_block_found`). Otherwise the text is kept, ended with `'\n'` if it is not,
/// and a new `[Experts]` section holding the new line is appended.
pub open spec fn patched(content: Seq<char>) -> Seq<char> {
    let ls = lines(content);
    let nl = url_line((max_index_of(content) + 1) as nat);
    if has_experts_header(ls) {
        match first_insertion_from(ls, 0) {
            Some(p) => joined(ls.take(p + 1)) + nl + seq!['\n'] + joined(ls.skip(p + 1)),
            None => joined(ls) + nl + seq!['\n'],
        }
    } else {
        let base = if content.len() > 0 && content.last() == '\n' {
            content
        } else {
            content.push('\n')
        };
        base + section_name() + seq!['\n'] + nl + seq!['\n']
    }
}

/// A `WebRequestURL_*` line whose value, trimmed and without trailing
/// slashes, is the Markitel origin.
pub open spec fn line_whitelists(l: Seq<char>) -> bool {
    let t = trim(l);
    starts_with(t, url_key_prefix()) && match find_char(t, '=') {
        Some(e) => trim_end_char(trim(t.skip(e + 1)), '/') == trim_end_char(markitel_url(), '/'),
        None => false,
    }
}

/// Some line of `content` whitelists the Markitel origin.
pub open spec fn whitelisted(content: Seq<char>) -> bool {
    exists|i: int| 0 <= i < lines(content).len() && line_whitelists(#[trigger] lines(content)[i])
}


fn is_header_exec(t: &[char]) -> (r: bool)
    ensures
        r == is_header(t@),
{
    t.len() > 0 && t[0] == '[' && t[t.len() - 1] == ']'
}

fn is_section_line_exec(l: &[char]) -> (r: bool)
    ensures
        r == is_section_line(l@),
{
    let t = trimmed(l);
    is_header_exec(t.as_slice())
}

/// The `N` of a `WebRequestURL_N=...` line.
fn line_url_index(l: &[char]) -> (r: Option<i32>)
    ensures
        match r {
            Some(v) => url_key_index(l@) == Some(v as int),
            None => url_key_index(l@) is None,
        },
{
    let t = trimmed(l);
    let prefix = url_key_prefix_chars();
    if !starts_with_exec(t.as_slice(), prefix.as_slice()) {
        return None;
    }
    match find_char_exec(t.as_slice(), '=') {
        Some(e) => {
            proof {
                lemma_find_char(t@, '=');
                if e < 14 {
                    assert(t@[e as int] == t@.take(14)[e as int]);
                }
            }
            let key = slice_chars(t.as_slice(), 14, e);
            parse_i32_exec(key.as_slice())
        },
        None => None,
    }
}

/// The line whitelists the Markitel origin.
fn line_whitelists_exec(l: &[char]) -> (r: bool)
    ensures
        r == line_whitelists(l@),
{
    let t = trimmed(l);
    let prefix = url_key_prefix_chars();
    if !starts_with_exec(t.as_slice(), prefix.as_slice()) {
        return false;
    }
    match find_char_exec(t.as_slice(), '=') {
        Some(e) => {
            proof {
                lemma_find_char(t@, '=');
                assert(e < t@.len());
            }
            let tl = t.len();
            let rest = slice_chars(t.as_slice(), e + 1, tl);
            assert(rest@ == t@.skip(e + 1));
            let value = trimmed(rest.as_slice());
            let vn = trim_end_char_len(value.as_slice(), '/');
            let url = markitel_url_chars();
            let un = trim_end_char_len(url.as_slice(), '/');
            if vn != un {
                return false;
            }
            let mut k: usize = 0;
            #[verifier::loop_isolation(false)]
            while k < vn
                invariant
                    vn == un,
                    vn <= value@.len(),
                    un <= url@.len(),
                    k <= vn,
                    forall|j: int| 0 <= j < k ==> value@[j] == url@[j],
                decreases vn - k,
            {
                if value[k] != url[k] {
                    assert(value@.take(vn as int)[k as int] != url@.take(un as int)[k as int]);
                    return false;
                }
                k = k + 1;
            }
            assert(value@.take(vn as int) == url@.take(un as int));
            true
        },
        None => false,
    }
}

/// Some line of `content` already whitelists `https://markitel.com`
/// (ignoring surrounding white space and trailing slashes of the value).
pub fn url_is_whitelisted(content: &str) -> (r: bool)
    ensures
        r == whitelisted(content@),
{
    let cs = chars_of(content);
    let ls = split_lines(cs.as_slice());
    let mut i: usize = 0;
    while i < ls.len()
        invariant
            i <= ls@.len(),
            views(ls@) == lines(content@),
            forall|j: int| 0 <= j < i ==> !line_whitelists(#[trigger] lines(content@)[j]),
        decreases ls@.len() - i,
    {
        if line_whitelists_exec(ls[i].as_slice()) {
            assert(views(ls@)[i as int] == ls@[i as int]@);
            return true;
        }
        assert(views(ls@)[i as int] == ls@[i as int]@);
        i = i + 1;
    }
    false
}

/// The index of a whitelist line is what follows `WebRequestURL_` in its
/// key (the trimmed text before the first `=`), read as an `i32`; a key
/// without that prefix has none.
pub proof fn lemma_url_key_index_exactly(l: Seq<char>, key: Seq<char>, value: Seq<char>)
    requires
        trim(l) == key + seq!['='] + value,
        !key.contains('='),
    ensures
        url_key_index(l) == if starts_with(key, "WebRequestURL_"@) {
            parse_i32(key.skip(14))
        } else {
            None
        },
{
    reveal_strlit("WebRequestURL_");
    let t = trim(l);
    let n = key.len() as int;
    let p = url_key_prefix();
    assert("WebRequestURL_"@ == p);
    assert(t[n] == '=');
    assert forall|j: int| 0 <= j < n implies t[j] != '=' by {
        assert(t[j] == key[j]);
        if t[j] == '=' {
            assert(key.contains('='));
        }
    }
    lemma_find_char_is(t, '=', n);
    if n >= 14 {
        assert(t.take(14) == key.take(14));
        assert(t.subrange(14, n) == key.skip(14));
    } else if t.len() >= 14 {
        assert(t.take(14)[n] == t[n]);
        assert(p[n] != '=');
    }
}

/// The highest index found is one that some key line of an `[Experts]`
/// section carries, or -1 when there is none: with the bound of
/// `lemma_new_index_above_existing`, the added line's index is one above
/// the highest existing one, and 0 in a section without keys.
pub proof fn lemma_max_index_attained(content: Seq<char>)
    ensures
        max_index_of(content) == -1 || exists|i: int|
            0 <= i < lines(content).len() && in_experts_body(lines(content), i) && #[trigger] url_key_index(
                lines(content)[i],
            ) == Some(max_index_of(content)),
{
    lemma_max_attained_upto(lines(content), lines(content).len() as int);
}

proof fn lemma_max_attained_upto(ls: Seq<Seq<char>>, n: int)
    requires
        n <= ls.len(),
    ensures
        max_url_index(ls, n) == -1 || exists|i: int|
            0 <= i < n && in_experts_body(ls, i) && #[trigger] url_key_index(ls[i]) == Some(max_url_index(ls, n)),
    decreases n,
{
    if n > 0 {
        lemma_max_attained_upto(ls, n - 1);
        let m = max_url_index(ls, n - 1);
        if in_experts_body(ls, n - 1) && url_key_index(ls[n - 1]) is Some && url_key_index(ls[n - 1])->0 > m {
            assert(url_key_index(ls[n - 1]) == Some(max_url_index(ls, n)));
        } else if m != -1 {
            let i = choose|i: int| 0 <= i < n - 1 && in_experts_body(ls, i) && #[trigger] url_key_index(ls[i]) == Some(m);
            assert(url_key_index(ls[i]) == Some(max_url_index(ls, n)));
        }
    }
}

/// A line opens the whitelist's section exactly when, trimmed, it is
/// `[Experts]` in any mix of ASCII case (`[EXPERTS]`, `[experts]`): nine
/// characters, each the matching character of `[experts]` or, for a
/// letter, its upper-case form. Every such line is a section header.
pub proof fn lemma_experts_header_exactly(l: Seq<char>)
    ensures
        is_experts_header(l) <==> (trim(l).len() == 9 && forall|i: int|
            0 <= i < 9 ==> #[trigger] trim(l)[i] == "[experts]"@[i] || ('a' <= "[experts]"@[i] <= 'z'
                && trim(l)[i] as int + 32 == "[experts]"@[i] as int)),
        is_experts_header(l) ==> is_section_line(l),
{
    reveal_strlit("[experts]");
    let t = trim(l);
    let sec = section_name();
    let low = "[experts]"@;
    assert(low.len() == 9);
    if t.len() == 9 {
        assert forall|i: int| 0 <= i < 9 implies (ascii_eq_ignore_case(t[i], sec[i]) <==> (t[i] == low[i] || (
        'a' <= low[i] <= 'z' && t[i] as int + 32 == low[i] as int))) by {
            if i == 1 {
                assert(sec[i] == 'E' && low[i] == 'e');
            } else {
                assert(sec[i] == low[i]);
            }
        }
    }
    if is_experts_header(l) {
        assert(ascii_eq_ignore_case(t[0], sec[0]));
        assert(ascii_eq_ignore_case(t[8], sec[8]));
    }
}

/// The text that whitelisting writes: the added line reads
/// `WebRequestURL_<n>=https://markitel.com` with `<n>` in decimal, a new
/// section starts with the `[Experts]` header, and a `terminal.ini`
/// written from nothing is that header and the line of index 0.
pub proof fn lemma_written_text_literal(n: nat)
    ensures
        url_line(n) == "WebRequestURL_"@ + decimal(n) + "=https://markitel.com"@,
        section_name() == "[Experts]"@,
        fresh_ini() == "[Experts]\nWebRequestURL_0=https://markitel.com\n"@,
{
    reveal_strlit("WebRequestURL_");
    reveal_strlit("=https://markitel.com");
    reveal_strlit("[Experts]");
    reveal_strlit("[Experts]\nWebRequestURL_0=https://markitel.com\n");
    assert(url_line(n) =~= "WebRequestURL_"@ + decimal(n) + "=https://markitel.com"@);
    assert(decimal(0) == seq!['0']);
    assert(fresh_ini() =~= "[Experts]\nWebRequestURL_0=https://markitel.com\n"@);
}

/// A line whitelists the Markitel origin exactly when, trimmed, it reads
/// `<key>=<value>` with a key (the text before the first `=`) that starts
/// with `WebRequestURL_` and a value that, trimmed and stripped of its
/// trailing `/`, is `https://markitel.com` itself: another origin counts
/// not, however much of it it shares (`https://www.markitel.com`,
/// `http://markitel.com`, `https://markitel.com.evil`).
pub proof fn lemma_line_whitelists_exactly(l: Seq<char>, key: Seq<char>, value: Seq<char>)
    requires
        trim(l) == key + seq!['='] + value,
        !key.contains('='),
    ensures
        line_whitelists(l) <==> (starts_with(key, "WebRequestURL_"@) && trim_end_char(trim(value), '/')
            == "https://markitel.com"@),
{
    reveal_strlit("WebRequestURL_");
    reveal_strlit("https://markitel.com");
    let t = trim(l);
    let n = key.len() as int;
    let p = url_key_prefix();
    assert("WebRequestURL_"@ == p);
    assert("https://markitel.com"@ == markitel_url());
    assert(t[n] == '=');
    assert forall|j: int| 0 <= j < n implies t[j] != '=' by {
        assert(t[j] == key[j]);
        if t[j] == '=' {
            assert(key.contains('='));
        }
    }
    lemma_find_char_is(t, '=', n);
    assert(t.skip(n + 1) == value);
    if n >= 14 {
        assert(t.take(14) == key.take(14));
    } else if t.len() >= 14 {
        assert(t.take(14)[n] == t[n]);
        assert(p[n] != '=');
    }
    let url = markitel_url();
    assert(url.last() == 'm');
    assert(trim_end_char(url, '/') == url);
}

/// A line whose trimmed text holds no `=` never whitelists anything.
pub proof fn lemma_line_without_value_not_whitelisting(l: Seq<char>)
    requires
        !trim(l).contains('='),
    ensures
        !line_whitelists(l),
{
    let t = trim(l);
    assert forall|j: int| 0 <= j < t.len() implies t[j] != '=' by {
        if t[j] == '=' {
            assert(t.contains('='));
        }
    }
    lemma_find_char_none(t, '=');
}

/// The highest whitelist index in the `[Experts]` sections of the lines.
fn max_index_exec(ls: &Vec<Vec<char>>) -> (r: i32)
    ensures
        r as int == max_url_index(views(ls@), ls@.len() as int),
{
    let ghost vs = views(ls@);
    let section = section_chars();
    let mut max: i32 = -1;
    let mut cur = false;
    let mut i: usize = 0;
    while i < ls.len()
        invariant
            i <= ls@.len(),
            vs == views(ls@),
            section@ == section_name(),
            cur == experts_open(vs, i as int),
            max as int == max_url_index(vs, i as int),
            -1 <= max,
        decreases ls@.len() - i,
    {
        assert(vs[i as int] == ls@[i as int]@);
        let t = trimmed(ls[i].as_slice());
        if is_header_exec(t.as_slice()) {
            cur = eq_ignore_ascii_case_exec(t.as_slice(), section.as_slice());
        } else if cur {
            match line_url_index(ls[i].as_slice()) {
                Some(v) => {
                    if v > max {
                        max = v;
                    }
                },
                None => {},
            }
        }
        i = i + 1;
    }
    max
}

/// `content` names some whitelist index equal to `i32::MAX` in an
/// `[Experts]` section, so that no index above it fits in an `i32`.
pub fn url_index_exhausted(content: &str) -> (r: bool)
    ensures
        r == (max_index_of(content@) == i32::MAX),
{
    let cs = chars_of(content);
    let ls = split_lines(cs.as_slice());
    max_index_exec(&ls) == i32::MAX
}


/// Some line is an `[Experts]` header.
fn has_experts_header_exec(ls: &Vec<Vec<char>>) -> (r: bool)
    ensures
        r == has_experts_header(views(ls@)),
{
    let section = section_chars();
    let mut i: usize = 0;
    while i < ls.len()
        invariant
            i <= ls@.len(),
            section@ == section_name(),
            forall|j: int| 0 <= j < i ==> !is_experts_header(#[trigger] views(ls@)[j]),
        decreases ls@.len() - i,
    {
        let t = trimmed(ls[i].as_slice());
        assert(views(ls@)[i as int] == ls@[i as int]@);
        if eq_ignore_ascii_case_exec(t.as_slice(), section.as_slice()) {
            return true;
        }
        i = i + 1;
    }
    false
}

/// `url_line(n)`.
fn url_line_exec(n: u32) -> (r: Vec<char>)
    ensures
        r@ == url_line(n as nat),
{
    let mut out = url_key_prefix_chars();
    push_decimal(&mut out, n);
    out.push('=');
    let url = markitel_url_chars();
    push_all(&mut out, url.as_slice());
    out
}

/// `content` with a new `WebRequestURL_N=https://markitel.com` line, `N`
/// one above the highest index in its `[Experts]` sections: under the
/// existing section, or in a new `[Experts]` section at the end.
pub fn patch_content(content: &str) -> (r: String)
    requires
        max_index_of(content@) < i32::MAX,
    ensures
        r@ == patched(content@),
{
    let cs = chars_of(content);
    let ls = split_lines(cs.as_slice());
    let ghost vs = views(ls@);
    let max = max_index_exec(&ls);
    proof {
        lemma_max_url_index_range(vs, vs.len() as int);
    }
    let new_idx = max + 1;
    let nl = url_line_exec(new_idx as u32);
    let section = section_chars();
    if has_experts_header_exec(&ls) {
        let mut out: Vec<char> = Vec::new();
        let mut appended = false;
        let mut cur = false;
        let ghost mut ins: int = -1;
        let n = ls.len();
        let mut i: usize = 0;
        while i < n
            invariant
                i <= n == ls@.len() == vs.len(),
                vs == views(ls@),
                section@ == section_name(),
                cur == experts_open(vs, i as int),
                !appended ==> out@ == joined(vs.take(i as int)),
                !appended ==> first_insertion_from(vs, 0) == first_insertion_from(vs, i as int),
                appended ==> 0 <= ins < i && first_insertion_from(vs, 0) == Some(ins)
                    && out@ == joined(vs.take(ins + 1)) + nl@ + seq!['\n'] + joined(
                    vs.subrange(ins + 1, i as int),
                ),
            decreases n - i,
        {
            assert(vs[i as int] == ls@[i as int]@);
            let ghost prev = out@;
            push_all(&mut out, ls[i].as_slice());
            out.push('\n');
            assert(vs.take(i + 1).drop_last() == vs.take(i as int));
            assert(appended ==> vs.subrange(ins + 1, i + 1).drop_last() == vs.subrange(
                ins + 1,
                i as int,
            ));
            let t = trimmed(ls[i].as_slice());
            if is_header_exec(t.as_slice()) {
                cur = eq_ignore_ascii_case_exec(t.as_slice(), section.as_slice());
            }
            let is_last = i + 1 == n;
            let next_is_section = !is_last && is_section_line_exec(ls[i + 1].as_slice());
            proof {
                if !is_last {
                    assert(vs[i + 1] == ls@[i + 1]@);
                }
            }
            if cur && !appended && (is_last || next_is_section) {
                push_all(&mut out, nl.as_slice());
                out.push('\n');
                proof {
                    ins = i as int;
                    assert(vs.subrange(ins + 1, i + 1).len() == 0);
                }
                appended = true;
            }
            i = i + 1;
        }
        if !appended {
            assert(vs.take(n as int) == vs);
            push_all(&mut out, nl.as_slice());
            out.push('\n');
        } else {
            assert(vs.subrange(ins + 1, n as int) == vs.skip(ins + 1));
        }
        string_of(out.as_slice())
    } else {
        let mut out = cs;
        if !(out.len() > 0 && out[out.len() - 1] == '\n') {
            out.push('\n');
        }
        push_all(&mut out, section.as_slice());
        out.push('\n');
        push_all(&mut out, nl.as_slice());
        out.push('\n');
        string_of(out.as_slice())
    }
}


proof fn lemma_url_line_whitelists(n: nat)
    ensures
        line_whitelists(url_line(n)),
        forall|k: int| 0 <= k < url_line(n).len() ==> url_line(n)[k] != '\n',
        strip_cr(url_line(n)) == url_line(n),
{
    let l = url_line(n);
    let d = decimal(n);
    lemma_decimal_digits(n);
    let e: int = 14 + d.len() as int;
    assert(l.len() == e + 21);
    assert forall|k: int| 0 <= k < l.len() implies l[k] != '\n' && (k < e ==> l[k] != '=') by {
        if 14 <= k < e {
            assert(l[k] == d[k - 14]);
            assert(is_digit(d[k - 14]));
        }
    }
    assert(l[e] == '=');
    lemma_find_char_is(l, '=', e);
    assert(!is_white_space(l[0]));
    assert(trim_start(l) == l);
    assert(!is_white_space(l.last()));
    assert(trim_end(l) == l);
    assert(l.take(14) == url_key_prefix());
    let url = markitel_url();
    assert(l.skip(e + 1) == url);
    assert(trim_start(url) == url);
    assert(trim_end(url) == url);
}

/// A text holding a whitelisting line after its start or a newline, and
/// followed by a newline, is whitelisted.
proof fn lemma_whitelisted_with(a: Seq<char>, n: nat, b: Seq<char>)
    requires
        a.len() == 0 || a.last() == '\n',
    ensures
        whitelisted(a + url_line(n) + seq!['\n'] + b),
{
    lemma_url_line_whitelists(n);
    lemma_lines_contain(a, url_line(n), b);
}

proof fn lemma_joined_ends_with_newline(ls: Seq<Seq<char>>)
    requires
        ls.len() > 0,
    ensures
        joined(ls).len() > 0 && joined(ls).last() == '\n',
{
}

/// After `patch_content`, the text whitelists the Markitel origin.
pub proof fn lemma_patch_whitelists(content: Seq<char>)
    requires
        max_index_of(content) < i32::MAX,
    ensures
        whitelisted(patched(content)),
{
    let ls = lines(content);
    let n = (max_index_of(content) + 1) as nat;
    let nl = url_line(n);
    if has_experts_header(ls) {
        match first_insertion_from(ls, 0) {
            Some(p) => {
                lemma_first_insertion_range(ls, 0);
                lemma_joined_ends_with_newline(ls.take(p + 1));
                lemma_whitelisted_with(joined(ls.take(p + 1)), n, joined(ls.skip(p + 1)));
            },
            None => {
                lemma_joined_ends_with_newline(ls);
                lemma_whitelisted_with(joined(ls), n, Seq::empty());
                assert(joined(ls) + nl + seq!['\n'] + Seq::<char>::empty() == joined(ls) + nl + seq!['\n']);
            },
        }
    } else {
        let base = if content.len() > 0 && content.last() == '\n' {
            content
        } else {
            content.push('\n')
        };
        let a = base + section_name() + seq!['\n'];
        lemma_whitelisted_with(a, n, Seq::empty());
        assert(a + nl + seq!['\n'] + Seq::<char>::empty() == a + nl + seq!['\n']);
    }
}

proof fn lemma_block_has_end(ls: Seq<Seq<char>>, i: int)
    requires
        0 <= i < ls.len(),
        experts_open(ls, i + 1),
    ensures
        exists|p: int| i <= p && #[trigger] is_insertion_point(ls, p),
    decreases ls.len() - i,
{
    if i + 1 == ls.len() || is_section_line(ls[i + 1]) {
        assert(is_insertion_point(ls, i));
    } else {
        lemma_block_has_end(ls, i + 1);
    }
}

proof fn lemma_first_insertion_found(ls: Seq<Seq<char>>, k: int, p: int)
    requires
        0 <= k <= p,
        is_insertion_point(ls, p),
    ensures
        first_insertion_from(ls, k) is Some,
    decreases p - k,
{
    if !is_insertion_point(ls, k) {
        lemma_first_insertion_found(ls, k + 1, p);
    }
}

/// A line is a section header exactly when, trimmed, it starts with `[`
/// and ends with `]`, whatever lies between.
pub proof fn lemma_section_line_exactly(l: Seq<char>)
    ensures
        is_section_line(l) <==> (starts_with(trim(l), "["@) && ends_with(trim(l), "]"@)),
{
    reveal_strlit("[");
    reveal_strlit("]");
    let t = trim(l);
    assert("["@ == seq!['[']);
    assert("]"@ == seq![']']);
    if t.len() > 0 {
        assert(t.take(1) =~= seq![t[0]]);
        assert(t.skip(t.len() - 1) =~= seq![t.last()]);
        if starts_with(t, "["@) {
            assert(t[0] == t.take(1)[0]);
        }
        if ends_with(t, "]"@) {
            assert(t.last() == t.skip(t.len() - 1)[0]);
        }
    }
}

/// After the first `n` lines the `[Experts]` section is in force exactly
/// when the last section header among them is an `[Experts]` header: a
/// key line counts as an `[Experts]` key only below such a header and
/// above the next header of any kind.
pub proof fn lemma_experts_open_exactly(ls: Seq<Seq<char>>, n: int)
    requires
        0 <= n <= ls.len(),
    ensures
        experts_open(ls, n) <==> exists|h: int|
            0 <= h < n && #[trigger] is_experts_header(ls[h]) && forall|j: int|
                h < j < n ==> !is_section_line(#[trigger] ls[j]),
    decreases n,
{
    if n > 0 {
        lemma_experts_open_exactly(ls, n - 1);
        lemma_experts_header_exactly(ls[n - 1]);
        if experts_open(ls, n) {
            if is_section_line(ls[n - 1]) {
                assert(is_experts_header(ls[n - 1]));
            } else {
                let h = choose|h: int|
                    0 <= h < n - 1 && #[trigger] is_experts_header(ls[h]) && forall|j: int|
                        h < j < n - 1 ==> !is_section_line(#[trigger] ls[j]);
                assert(forall|j: int| h < j < n ==> !is_section_line(#[trigger] ls[j]));
            }
        } else {
            assert forall|h: int| 0 <= h < n && #[trigger] is_experts_header(ls[h]) implies !(forall|j: int|
                h < j < n ==> !is_section_line(#[trigger] ls[j])) by {
                if h < n - 1 && !is_section_line(ls[n - 1]) {
                    if forall|j: int| h < j < n ==> !is_section_line(#[trigger] ls[j]) {
                        assert(forall|j: int| h < j < n - 1 ==> !is_section_line(#[trigger] ls[j]));
                    }
                } else if h < n - 1 {
                    assert(is_section_line(ls[n - 1]));
                } else {
                    lemma_experts_header_exactly(ls[h]);
                }
            }
        }
    }
}

proof fn lemma_open_needs_header(ls: Seq<Seq<char>>, n: int)
    requires
        n <= ls.len(),
        experts_open(ls, n),
    ensures
        exists|j: int| 0 <= j < n && is_experts_header(#[trigger] ls[j]),
    decreases n,
{
    if !is_section_line(ls[n - 1]) {
        lemma_open_needs_header(ls, n - 1);
    }
}

proof fn lemma_open_through(ls: Seq<Seq<char>>, h: int, q: int)
    requires
        0 <= h <= q < ls.len(),
        is_experts_header(ls[h]),
        forall|j: int| h < j <= q ==> !is_section_line(#[trigger] ls[j]),
    ensures
        experts_open(ls, q + 1),
    decreases q - h,
{
    if q == h {
        lemma_experts_header_exactly(ls[h]);
    } else {
        lemma_open_through(ls, h, q - 1);
    }
}

proof fn lemma_skip_before_header(ls: Seq<Seq<char>>, k: int, h: int)
    requires
        0 <= k <= h < ls.len(),
        forall|j: int| 0 <= j < h ==> !is_experts_header(#[trigger] ls[j]),
    ensures
        first_insertion_from(ls, k) == first_insertion_from(ls, h),
    decreases h - k,
{
    if k < h {
        if experts_open(ls, k + 1) {
            lemma_open_needs_header(ls, k + 1);
        }
        lemma_skip_before_header(ls, k + 1, h);
    }
}

proof fn lemma_scan_block(ls: Seq<Seq<char>>, h: int, q: int)
    requires
        0 <= h <= q < ls.len(),
        is_experts_header(ls[h]),
        forall|j: int| h < j <= q ==> !is_section_line(#[trigger] ls[j]),
    ensures
        first_insertion_from(ls, q) matches Some(p) && q <= p < ls.len() && (forall|j: int|
            h < j <= p ==> !is_section_line(#[trigger] ls[j])) && (p + 1 == ls.len() || is_section_line(ls[p + 1])),
    decreases ls.len() - q,
{
    lemma_open_through(ls, h, q);
    if !(q + 1 == ls.len() || is_section_line(ls[q + 1])) {
        lemma_scan_block(ls, h, q + 1);
    }
}

/// Where `[Experts]` headers exist, the new line goes at the end of the
/// block that the first of them opens: after its last line, that is
/// before the next section header or at the end of the text, and every
/// line of the block (between the header and the new line) is kept
/// before it. The lines before and after stay as they were.
pub proof fn lemma_new_line_ends_first_block(content: Seq<char>, h: int)
    requires
        0 <= h < lines(content).len(),
        is_experts_header(lines(content)[h]),
        forall|j: int| 0 <= j < h ==> !is_experts_header(#[trigger] lines(content)[j]),
    ensures
        ({
            let ls = lines(content);
            first_insertion_from(ls, 0) matches Some(p) && {
                &&& h <= p < ls.len()
                &&& forall|j: int| h < j <= p ==> !is_section_line(#[trigger] ls[j])
                &&& p + 1 == ls.len() || is_section_line(ls[p + 1])
                &&& patched(content) == joined(ls.take(p + 1)) + url_line((max_index_of(content) + 1) as nat)
                    + seq!['\n'] + joined(ls.skip(p + 1))
            }
        }),
{
    let ls = lines(content);
    lemma_skip_before_header(ls, 0, h);
    lemma_scan_block(ls, h, h);
    assert(has_experts_header(ls));
}

/// Every text with an `[Experts]` header has a place for the new line at
/// the end of its first `[Experts]` block.
pub proof fn lemma_experts_block_found(content: Seq<char>)
    requires
        has_experts_header(lines(content)),
    ensures
        first_insertion_from(lines(content), 0) matches Some(p) && experts_open(lines(content), p + 1),
{
    let ls = lines(content);
    let h = choose|h: int| 0 <= h < ls.len() && is_experts_header(#[trigger] ls[h]);
    let t = trim(ls[h]);
    assert(ascii_eq_ignore_case(t[0], section_name()[0]));
    assert(ascii_eq_ignore_case(t[8], section_name()[8]));
    assert(experts_open(ls, h + 1));
    lemma_block_has_end(ls, h);
    let p = choose|p: int| h <= p && #[trigger] is_insertion_point(ls, p);
    lemma_first_insertion_found(ls, 0, p);
    lemma_first_insertion_range(ls, 0);
}

proof fn lemma_first_insertion_range(ls: Seq<Seq<char>>, k: int)
    ensures
        first_insertion_from(ls, k) matches Some(p) ==> k <= p < ls.len() && is_insertion_point(ls, p),
    decreases ls.len() - k,
{
    if 0 <= k < ls.len() && !is_insertion_point(ls, k) {
        lemma_first_insertion_range(ls, k + 1);
    }
}


proof fn lemma_max_url_index_bounds(ls: Seq<Seq<char>>, n: int, i: int)
    requires
        0 <= i < n,
        in_experts_body(ls, i),
        url_key_index(ls[i]) is Some,
    ensures
        url_key_index(ls[i])->0 <= max_url_index(ls, n),
    decreases n,
{
    if i < n - 1 {
        lemma_max_url_index_bounds(ls, n - 1, i);
    }
}

/// The index that `patch_content` gives the new line is above every
/// `WebRequestURL_N` index already present in an `[Experts]` section.
pub proof fn lemma_new_index_above_existing(content: Seq<char>, i: int)
    requires
        0 <= i < lines(content).len(),
        in_experts_body(lines(content), i),
        url_key_index(lines(content)[i]) is Some,
    ensures
        url_key_index(lines(content)[i])->0 < max_index_of(content) + 1,
{
    lemma_max_url_index_bounds(lines(content), lines(content).len() as int, i);
}

proof fn lemma_no_experts_open(ls: Seq<Seq<char>>, n: int)
    requires
        !has_experts_header(ls),
        n <= ls.len(),
    ensures
        !experts_open(ls, n),
        max_url_index(ls, n) == -1,
    decreases n,
{
    if n > 0 {
        lemma_no_experts_open(ls, n - 1);
        if is_section_line(ls[n - 1]) {
            assert(!is_experts_header(ls[n - 1]));
        }
    }
}

/// A text without an `[Experts]` section gets one holding
/// `WebRequestURL_0`, after the text (ended with a newline).
pub proof fn lemma_new_section_starts_at_zero(content: Seq<char>)
    requires
        !has_experts_header(lines(content)),
    ensures
        max_index_of(content) == -1,
        patched(content) == (if content.len() > 0 && content.last() == '\n' {
            content
        } else {
            content.push('\n')
        }) + section_name() + seq!['\n'] + url_line(0) + seq!['\n'],
{
    lemma_no_experts_open(lines(content), lines(content).len() as int);
}

/// The `terminal.ini` written where none exists:
/// `[Experts]\nWebRequestURL_0=https://markitel.com\n`.
pub open spec fn fresh_ini() -> Seq<char> {
    section_name() + seq!['\n'] + url_line(0) + seq!['\n']
}

/// What to do with a terminal's `terminal.ini`.
pub enum WhitelistPlan {
    /// There is no file yet: write this text.
    WriteFresh(String),
    /// The origin is listed already: leave the file as it is.
    AlreadyPresent,
    /// Back the file up, then replace it with this text.
    Rewrite(String),
}

/// Why `terminal.ini` is not edited while MT5 runs: MT5 rewrites it on quit.
pub const MT5_RUNNING_REFUSAL: &'static str = "MT5 is running; close MT5 before editing terminal.ini";

/// The edit that whitelists the Markitel origin in a terminal's
/// `terminal.ini`, given whether MT5 runs and the file's current text
/// (`None`: no such file). While MT5 runs the edit is refused.
pub fn whitelist_plan(mt5_running: bool, existing: Option<&str>) -> (r: Result<WhitelistPlan, String>)
    requires
        !mt5_running ==> (existing matches Some(c) ==> whitelisted(c@) || max_index_of(c@) < i32::MAX),
    ensures
        match r {
            Err(e) => mt5_running && e@ == MT5_RUNNING_REFUSAL@,
            Ok(plan) => !mt5_running && match existing {
                None => plan matches WhitelistPlan::WriteFresh(s) && s@ == fresh_ini(),
                Some(c) => if whitelisted(c@) {
                    plan is AlreadyPresent
                } else {
                    plan matches WhitelistPlan::Rewrite(s) && s@ == patched(c@)
                },
            },
        },
{
    if mt5_running {
        return Err(String::from_str(MT5_RUNNING_REFUSAL));
    }
    match existing {
        None => {
            let mut out = section_chars();
            out.push('\n');
            let nl = url_line_exec(0);
            push_all(&mut out, nl.as_slice());
            out.push('\n');
            Ok(WhitelistPlan::WriteFresh(string_of(out.as_slice())))
        },
        Some(c) => {
            if url_is_whitelisted(c) {
                Ok(WhitelistPlan::AlreadyPresent)
            } else {
                Ok(WhitelistPlan::Rewrite(patch_content(c)))
            }
        },
    }
}

/// Whitelisting is idempotent: the text that a plan writes needs no
/// further edit.
pub proof fn lemma_whitelist_idempotent(existing: Option<Seq<char>>)
    requires
        existing matches Some(c) ==> whitelisted(c) || max_index_of(c) < i32::MAX,
    ensures
        match existing {
            None => whitelisted(fresh_ini()),
            Some(c) => whitelisted(c) || whitelisted(patched(c)),
        },
{
    match existing {
        None => {
            lemma_whitelisted_with(section_name() + seq!['\n'], 0, Seq::empty());
            assert(section_name() + seq!['\n'] + url_line(0) + seq!['\n'] + Seq::<char>::empty()
                == fresh_ini());
        },
        Some(c) => {
            if !whitelisted(c) {
                lemma_patch_whitelists(c);
            }
        },
    }
}

/// What editing one `terminal.ini` did.
pub struct IniEditResult {
    pub edited: bool,
    pub already_present: bool,
    pub backed_up_to: Option<String>,
}

/// The report of a carried-out plan; `backed_up_to` is where a rewritten
/// file was backed up.
pub fn edit_result(plan: &WhitelistPlan, backed_up_to: Option<String>) -> (r: IniEditResult)
    ensures
        r.edited == !(plan is AlreadyPresent),
        r.already_present == (plan is AlreadyPresent),
        r.backed_up_to == (if plan is Rewrite { backed_up_to } else { None }),
{
    match plan {
        WhitelistPlan::WriteFresh(_) => IniEditResult { edited: true, already_present: false, backed_up_to: None },
        WhitelistPlan::AlreadyPresent => IniEditResult { edited: false, already_present: true, backed_up_to: None },
        WhitelistPlan::Rewrite(_) => IniEditResult { edited: true, already_present: false, backed_up_to },
    }
}

} // verus!
