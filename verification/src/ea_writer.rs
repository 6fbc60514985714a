//! Keying of the Markitel bridge EA: the user's API key becomes the
//! default value of the EA's `input string ApiKey` parameter.

use vstd::prelude::*;
use crate::text::{
    chars_of, contains, contains_exec, lemma_replace_all_absent, lemma_replace_all_contains, lemma_replace_all_first,
    occurs_at, replace_all, replace_all_exec, string_of,
};

verus! {

/// The default-value line of the server's EA template:
/// `input string   ApiKey          = "";`.
pub open spec fn api_key_needle() -> Seq<char> {
    seq!['i', 'n', 'p', 'u', 't', ' ', 's', 't', 'r', 'i', 'n', 'g', ' ', ' ', ' ', 'A', 'p', 'i', 'K', 'e', 'y', ' ', ' ', ' ', ' ', ' ', ' ', ' ', ' ', ' ', ' ', '=', ' ', '"', '"', ';']
}

fn api_key_needle_chars() -> (r: Vec<char>)
    ensures
        r@ == api_key_needle(),
{
    let r = vec!['i', 'n', 'p', 'u', 't', ' ', 's', 't', 'r', 'i', 'n', 'g', ' ', ' ', ' ', 'A', 'p', 'i', 'K', 'e', 'y', ' ', ' ', ' ', ' ', ' ', ' ', ' ', ' ', ' ', ' ', '=', ' ', '"', '"', ';'];
    assert(r@ == api_key_needle());
    r
}

/// The keyed line: `input string   ApiKey          = "<key>";`.
pub open spec fn keyed_line(key: Seq<char>) -> Seq<char> {
    api_key_needle().take(34) + key + seq!['"', ';']
}

/// A lower-case hexadecimal digit.
pub open spec fn is_lower_hex(c: char) -> bool {
    ('0' <= c <= '9') || ('a' <= c <= 'f')
}

/// A bridge API key: `mk_` and 64 lower-case hexadecimal digits
/// (`^mk_[a-f0-9]{64}$`).
pub open spec fn valid_key(k: Seq<char>) -> bool {
    &&& k.len() == 67
    &&& k[0] == 'm' && k[1] == 'k' && k[2] == '_'
    &&& forall|i: int| 3 <= i < 67 ==> is_lower_hex(#[trigger] k[i])
}

/// Whether `key` has the form of a bridge API key: `mk_` followed by 64
/// lower-case hexadecimal digits.
pub fn is_valid_key(key: &str) -> (r: bool)
    ensures
        r == valid_key(key@),
{
    let k = chars_of(key);
    if !(k.len() >= 3 && k[0] == 'm' && k[1] == 'k' && k[2] == '_') {
        return false;
    }
    if k.len() != 67 {
        return false;
    }
    let mut i: usize = 3;
    while i < 67
        invariant
            k@ == key@,
            k@.len() == 67,
            3 <= i <= 67,
            forall|j: int| 3 <= j < i ==> is_lower_hex(#[trigger] k@[j]),
        decreases 67 - i,
    {
        let c = k[i];
        if !(('0' <= c && c <= '9') || ('a' <= c && c <= 'f')) {
            return false;
        }
        i = i + 1;
    }
    true
}

/// What `render_keyed` gives for a source and a key.
pub open spec fn rendered(source: Seq<char>, key: Seq<char>) -> Result<Seq<char>, Seq<char>> {
    if !valid_key(key) {
        Err("invalid api key format"@)
    } else if !contains(source, api_key_needle()) {
        Err("EA source missing ApiKey marker"@)
    } else {
        Ok(replace_all(source, api_key_needle(), keyed_line(key)))
    }
}

/// `source` with every `input string   ApiKey          = "";` line
/// keyed with `api_key`. Fails when the key is malformed, or when the
/// source has no such line.
pub fn render_keyed(source: &str, api_key: &str) -> (r: Result<String, String>)
    ensures
        match r {
            Ok(s) => rendered(source@, api_key@) == Ok::<Seq<char>, Seq<char>>(s@),
            Err(e) => rendered(source@, api_key@) == Err::<Seq<char>, Seq<char>>(e@),
        },
{
    if !is_valid_key(api_key) {
        return Err(String::from_str("invalid api key format"));
    }
    let s = chars_of(source);
    let needle = api_key_needle_chars();
    if !contains_exec(s.as_slice(), needle.as_slice()) {
        return Err(String::from_str("EA source missing ApiKey marker"));
    }
    let mut replacement: Vec<char> = Vec::new();
    let mut i: usize = 0;
    while i < 34
        invariant
            needle@ == api_key_needle(),
            i <= 34,
            replacement@ == api_key_needle().take(i as int),
        decreases 34 - i,
    {
        replacement.push(needle[i]);
        i = i + 1;
        assert(api_key_needle().take(i as int) == api_key_needle().take(i - 1).push(api_key_needle()[i - 1]));
    }
    let key = chars_of(api_key);
    crate::text::push_all(&mut replacement, key.as_slice());
    replacement.push('"');
    replacement.push(';');
    assert(replacement@ == keyed_line(api_key@));
    let out = replace_all_exec(s.as_slice(), needle.as_slice(), replacement.as_slice());
    Ok(string_of(out.as_slice()))
}


/// The template line that keying looks for, and the line it becomes: the
/// empty default of `input string   ApiKey          = "";` replaced by the
/// key, quoted, with nothing else on the line changed.
pub proof fn lemma_keyed_line_literal(key: Seq<char>)
    ensures
        api_key_needle() == "input string   ApiKey          = \"\";"@,
        keyed_line(key) == "input string   ApiKey          = \""@ + key + "\";"@,
{
    reveal_strlit("input string   ApiKey          = \"\";");
    reveal_strlit("input string   ApiKey          = \"");
    reveal_strlit("\";");
    assert(api_key_needle() == "input string   ApiKey          = \"\";"@);
    assert(api_key_needle().take(34) == "input string   ApiKey          = \""@);
    assert(seq!['"', ';'] == "\";"@);
}

/// A key is accepted exactly when it is `mk_` followed by 64 characters,
/// each one of `0123456789abcdef`: upper-case hex, other letters, and
/// keys one character short or long are refused.
pub proof fn lemma_valid_key_exactly(k: Seq<char>)
    ensures
        valid_key(k) <==> (k.len() == 67 && k.take(3) == "mk_"@ && forall|i: int|
            3 <= i < 67 ==> "0123456789abcdef"@.contains(#[trigger] k[i])),
{
    reveal_strlit("mk_");
    reveal_strlit("0123456789abcdef");
    let hex = "0123456789abcdef"@;
    assert forall|c: char| is_lower_hex(c) <==> hex.contains(c) by {
        if is_lower_hex(c) {
            if '0' <= c <= '9' {
                assert(hex[(c as int) - ('0' as int)] == c);
            } else {
                assert(hex[(c as int) - ('a' as int) + 10] == c);
            }
        }
    }
    if k.len() == 67 && k.take(3) == "mk_"@ {
        assert(k[0] == k.take(3)[0] && k[1] == k.take(3)[1] && k[2] == k.take(3)[2]);
    }
    if valid_key(k) {
        assert(k.take(3) =~= "mk_"@);
    }
}

/// Keying refuses a malformed key first, whatever the source; with a well
/// formed key it refuses a source without the `ApiKey` template line.
pub proof fn lemma_rendered_refusals(source: Seq<char>, key: Seq<char>)
    ensures
        !valid_key(key) ==> rendered(source, key) == Err::<Seq<char>, Seq<char>>("invalid api key format"@),
        valid_key(key) && !contains(source, "input string   ApiKey          = \"\";"@) ==> rendered(source, key)
            == Err::<Seq<char>, Seq<char>>("EA source missing ApiKey marker"@),
{
    lemma_keyed_line_literal(Seq::empty());
}

proof fn lemma_replace_single(a: Seq<char>, n: Seq<char>, b: Seq<char>, r: Seq<char>)
    requires
        n.len() > 0,
        forall|i: int| 0 <= i < a.len() ==> !occurs_at(a + n + b, n, i),
        !contains(b, n),
    ensures
        contains(a + n + b, n),
        replace_all(a + n + b, n, r) == a + r + b,
{
    let s = a + n + b;
    assert(s.subrange(a.len() as int, (a.len() + n.len()) as int) =~= n);
    assert(occurs_at(s, n, a.len() as int));
    lemma_replace_all_first(a, n, b, r);
    lemma_replace_all_absent(b, n, r);
}

/// With a well formed key, a source holding the `ApiKey` template line
/// once is keyed by replacing that line with the keyed one and keeping
/// everything before and after it as it was.
pub proof fn lemma_rendered_single_line(a: Seq<char>, b: Seq<char>, key: Seq<char>)
    requires
        valid_key(key),
        forall|i: int| 0 <= i < a.len() ==> !occurs_at(a + api_key_needle() + b, api_key_needle(), i),
        !contains(b, api_key_needle()),
    ensures
        rendered(a + api_key_needle() + b, key) == Ok::<Seq<char>, Seq<char>>(
            a + "input string   ApiKey          = \""@ + key + "\";"@ + b,
        ),
{
    let n = api_key_needle();
    let kl = keyed_line(key);
    lemma_replace_single(a, n, b, kl);
    assert(a + kl + b =~= a + "input string   ApiKey          = \""@ + key + "\";"@ + b) by {
        lemma_keyed_line_literal(key);
    }
}

/// A keyed EA holds the keyed `ApiKey` line.
pub proof fn lemma_rendered_holds_key(source: Seq<char>, key: Seq<char>)
    requires
        valid_key(key),
        contains(source, api_key_needle()),
    ensures
        rendered(source, key) is Ok,
        contains(rendered(source, key)->Ok_0, keyed_line(key)),
{
    lemma_replace_all_contains(source, api_key_needle(), keyed_line(key));
}


/// The EA's file name in `MQL5/Experts`.
pub const EA_FILENAME: &'static str = "Markitel_Bridge.mq5";

/// Why the keyed EA cannot be written into this experts directory, if it
/// cannot: the directory must exist already and be a directory.
pub fn experts_dir_problem(exists: bool, is_dir: bool, display: &str) -> (r: Option<String>)
    ensures
        match r {
            Some(e) => {
                ||| !exists && e@ == "experts directory does not exist: "@ + display@
                ||| exists && !is_dir && e@ == "experts path is not a directory: "@ + display@
            },
            None => exists && is_dir,
        },
{
    if !exists {
        let mut e = String::from_str("experts directory does not exist: ");
        e.append(display);
        return Some(e);
    }
    if !is_dir {
        let mut e = String::from_str("experts path is not a directory: ");
        e.append(display);
        return Some(e);
    }
    None
}

} // verus!
