//! MT5 installation discovery: which directories are terminals, which
//! broker build each is, and which running process is MT5. The walk of
//! the file system and the process list are read by the caller.

use vstd::prelude::*;
use crate::text::{chars_of, chars_eq, contains, contains_exec, lex_lt, lex_lt_exec, lemma_lex_irreflexive, lemma_lex_total, lemma_lex_transitive};
use crate::unicode_case::{lowercase, to_lowercase};

verus! {

/// One MT5 terminal data directory and the paths the helper writes to.
#[derive(Clone, Debug)]
pub struct Terminal {
    /// The terminal data directory, holding both `MQL5/` and `config/`.
    pub data_dir: String,
    /// `MQL5/Experts`, where the keyed EA goes.
    pub experts_dir: String,
    /// `MQL5/Indicators`, sibling of `experts_dir`.
    pub indicators_dir: String,
    /// `config/`, where `terminal.ini` and `common.ini` live.
    pub config_dir: String,
    /// `profiles/`, where the `Markitel` profile goes.
    pub profiles_dir: String,
    /// Best-effort broker build label, `unknown` when none matches.
    pub broker_build: String,
}

/// What a discovery found.
#[derive(Clone, Debug)]
pub struct DiscoveryResult {
    pub terminals: Vec<Terminal>,
    pub mt5_running: bool,
}

/// The broker label for an already lower-cased path: the first keyword
/// of the table that the path contains.
pub open spec fn broker_label(lower: Seq<char>) -> Seq<char> {
    if contains(lower, "mtrading"@) {
        "MTrading"@
    } else if contains(lower, "amarkets"@) {
        "AMarkets"@
    } else if contains(lower, "metaquotes"@) {
        "MetaQuotes"@
    } else if contains(lower, "exness"@) {
        "Exness"@
    } else if contains(lower, "ic markets"@) {
        "IC Markets"@
    } else if contains(lower, "icmarkets"@) {
        "IC Markets"@
    } else {
        "unknown"@
    }
}

/// The broker label is that of the first keyword, in the table's order
/// (`mtrading`, `amarkets`, `metaquotes`, `exness`, `ic markets`,
/// `icmarkets`), that the lower-cased path contains, and `unknown` when it
/// contains none. A path naming two of them gets the earlier one's label:
/// an AMarkets terminal under a MetaQuotes data path is AMarkets.
pub proof fn lemma_broker_label_first_match(lower: Seq<char>)
    ensures
        ({
            let table = seq![
                ("mtrading"@, "MTrading"@),
                ("amarkets"@, "AMarkets"@),
                ("metaquotes"@, "MetaQuotes"@),
                ("exness"@, "Exness"@),
                ("ic markets"@, "IC Markets"@),
                ("icmarkets"@, "IC Markets"@),
            ];
            &&& forall|j: int|
                0 <= j < table.len() && contains(lower, #[trigger] table[j].0) && (forall|i: int|
                    0 <= i < j ==> !contains(lower, table[i].0)) ==> broker_label(lower) == table[j].1
            &&& (forall|i: int| 0 <= i < table.len() ==> !contains(lower, #[trigger] table[i].0))
                ==> broker_label(lower) == "unknown"@
        }),
{
    let table = seq![
        ("mtrading"@, "MTrading"@),
        ("amarkets"@, "AMarkets"@),
        ("metaquotes"@, "MetaQuotes"@),
        ("exness"@, "Exness"@),
        ("ic markets"@, "IC Markets"@),
        ("icmarkets"@, "IC Markets"@),
    ];
    assert forall|j: int|
        0 <= j < table.len() && contains(lower, #[trigger] table[j].0) && (forall|i: int|
            0 <= i < j ==> !contains(lower, table[i].0)) implies broker_label(lower) == table[j].1 by {
        if j >= 1 {
            assert(!contains(lower, table[0].0));
        }
        if j >= 2 {
            assert(!contains(lower, table[1].0));
        }
        if j >= 3 {
            assert(!contains(lower, table[2].0));
        }
        if j >= 4 {
            assert(!contains(lower, table[3].0));
        }
        if j >= 5 {
            assert(!contains(lower, table[4].0));
        }
    }
    if forall|i: int| 0 <= i < table.len() ==> !contains(lower, #[trigger] table[i].0) {
        assert(!contains(lower, table[0].0));
        assert(!contains(lower, table[1].0));
        assert(!contains(lower, table[2].0));
        assert(!contains(lower, table[3].0));
        assert(!contains(lower, table[4].0));
        assert(!contains(lower, table[5].0));
    }
}

fn contains_str(hay: &[char], needle: &str) -> (r: bool)
    ensures
        r == contains(hay@, needle@),
{
    let n = chars_of(needle);
    contains_exec(hay, n.as_slice())
}

/// The broker label of a path that is already lower-cased.
pub fn broker_from_lowercase(lower: &str) -> (r: String)
    ensures
        r@ == broker_label(lower@),
{
    let l = chars_of(lower);
    if contains_str(l.as_slice(), "mtrading") {
        String::from_str("MTrading")
    } else if contains_str(l.as_slice(), "amarkets") {
        String::from_str("AMarkets")
    } else if contains_str(l.as_slice(), "metaquotes") {
        String::from_str("MetaQuotes")
    } else if contains_str(l.as_slice(), "exness") {
        String::from_str("Exness")
    } else if contains_str(l.as_slice(), "ic markets") {
        String::from_str("IC Markets")
    } else if contains_str(l.as_slice(), "icmarkets") {
        String::from_str("IC Markets")
    } else {
        String::from_str("unknown")
    }
}

/// Best-effort broker build of a terminal data directory, matched on the
/// lower-cased path.
pub fn classify_broker(path: &str) -> (r: String)
    ensures
        r@ == broker_label(lowercase(path@)),
{
    let lower = to_lowercase(path);
    broker_from_lowercase(lower.as_str())
}


impl Terminal {
    /// A copy of this terminal.
    pub fn copied(&self) -> (r: Terminal)
        ensures
            r == *self,
    {
        Terminal {
            data_dir: self.data_dir.clone(),
            experts_dir: self.experts_dir.clone(),
            indicators_dir: self.indicators_dir.clone(),
            config_dir: self.config_dir.clone(),
            profiles_dir: self.profiles_dir.clone(),
            broker_build: self.broker_build.clone(),
        }
    }
}

/// Terminal `j` is the first in `s` with its data directory.
#[verifier::opaque]
pub open spec fn first_of_dir(s: Seq<Terminal>, j: int) -> bool {
    0 <= j < s.len() && forall|k: int| #![trigger s[k]] 0 <= k < j ==> s[k].data_dir@ != s[j].data_dir@
}

/// The data directories ascend strictly.
pub open spec fn sorted_by_dir(s: Seq<Terminal>) -> bool {
    forall|a: int, b: int| 0 <= a < b < s.len() ==> lex_lt(s[a].data_dir@, s[b].data_dir@)
}

/// Inserts `t` at its place in a list sorted by data directory, unless a
/// terminal with the same directory is there already.
fn insert_sorted(out: &mut Vec<Terminal>, t: Terminal) -> (inserted: bool)
    requires
        sorted_by_dir(old(out)@),
    ensures
        sorted_by_dir(final(out)@),
        inserted == forall|b: int| 0 <= b < old(out)@.len() ==> old(out)@[b].data_dir@ != t.data_dir@,
        !inserted ==> final(out)@ == old(out)@,
        inserted ==> exists|p: int| 0 <= p <= old(out)@.len() && final(out)@ == old(out)@.insert(p, t),
{
    let key = chars_of(t.data_dir.as_str());
    let mut p: usize = 0;
    while p < out.len() && lex_lt_exec(chars_of(out[p].data_dir.as_str()).as_slice(), key.as_slice())
        invariant
            p <= out@.len(),
            key@ == t.data_dir@,
            forall|a: int| 0 <= a < p ==> lex_lt(out@[a].data_dir@, key@),
        decreases out@.len() - p,
    {
        p = p + 1;
    }
    let dup = p < out.len() && chars_eq(chars_of(out[p].data_dir.as_str()).as_slice(), key.as_slice());
    if dup {
        return false;
    }
    proof {
        assert forall|a: int| p <= a < out@.len() implies lex_lt(key@, out@[a].data_dir@) by {
            let q = out@[p as int].data_dir@;
            lemma_lex_total(q, key@);
            if a > p {
                lemma_lex_transitive(key@, q, out@[a].data_dir@);
            }
        }
        assert forall|b: int| 0 <= b < out@.len() implies out@[b].data_dir@ != key@ by {
            lemma_lex_irreflexive(key@);
        }
    }
    let ghost prev = out@;
    out.insert(p, t);
    proof {
        assert forall|a: int, b: int| 0 <= a < b < out@.len() implies lex_lt(
            out@[a].data_dir@,
            out@[b].data_dir@,
        ) by {
            if a < p && b > p {
                assert(out@[b] == prev[b - 1]);
                lemma_lex_transitive(out@[a].data_dir@, key@, out@[b].data_dir@);
            } else if a == p {
                assert(out@[b] == prev[b - 1]);
            } else if a > p {
                assert(out@[a] == prev[a - 1]);
                assert(out@[b] == prev[b - 1]);
            }
        }
    }
    true
}

/// `x` is the first of `terms[..i]` with its data directory.
pub open spec fn first_copy_in(x: Terminal, terms: Seq<Terminal>, i: int) -> bool {
    exists|j: int| #![trigger terms[j]] 0 <= j < i && first_of_dir(terms, j) && x == terms[j]
}

/// Some terminal of `out` has data directory `d`.
pub open spec fn has_dir(out: Seq<Terminal>, d: Seq<char>) -> bool {
    exists|a: int| #![trigger out[a]] 0 <= a < out.len() && out[a].data_dir@ == d
}

/// Each of `out` is the first of `terms[..i]` with its data directory.
pub open spec fn drawn_from_firsts(out: Seq<Terminal>, terms: Seq<Terminal>, i: int) -> bool {
    forall|a: int| 0 <= a < out.len() ==> first_copy_in(#[trigger] out[a], terms, i)
}

/// Each data directory of `terms[..i]` has a terminal in `out`.
pub open spec fn covers_dirs(out: Seq<Terminal>, terms: Seq<Terminal>, i: int) -> bool {
    forall|j: int| 0 <= j < i ==> has_dir(out, #[trigger] terms[j].data_dir@)
}

proof fn lemma_dedupe_inserted(prev: Seq<Terminal>, out: Seq<Terminal>, terms: Seq<Terminal>, i: int, p: int)
    requires
        0 <= i < terms.len(),
        drawn_from_firsts(prev, terms, i),
        covers_dirs(prev, terms, i),
        forall|b: int| 0 <= b < prev.len() ==> prev[b].data_dir@ != terms[i].data_dir@,
        0 <= p <= prev.len(),
        out == prev.insert(p, terms[i]),
    ensures
        drawn_from_firsts(out, terms, i + 1),
        covers_dirs(out, terms, i + 1),
{
    assert(out[p] == terms[i]);
    assert(first_of_dir(terms, i)) by {
        reveal(first_of_dir);
        assert forall|k: int| 0 <= k < i implies terms[k].data_dir@ != terms[i].data_dir@ by {
            assert(has_dir(prev, terms[k].data_dir@));
        }
    }
    assert forall|a: int| 0 <= a < out.len() implies first_copy_in(#[trigger] out[a], terms, i + 1) by {
        if a < p {
            assert(out[a] == prev[a]);
            assert(first_copy_in(prev[a], terms, i));
        } else if a > p {
            assert(out[a] == prev[a - 1]);
            assert(first_copy_in(prev[a - 1], terms, i));
        } else {
            assert(terms[i] == terms[i]);
        }
    }
    assert forall|j: int| 0 <= j < i + 1 implies has_dir(out, #[trigger] terms[j].data_dir@) by {
        if j < i {
            assert(has_dir(prev, terms[j].data_dir@));
            let a = choose|a: int| #![trigger prev[a]] 0 <= a < prev.len() && prev[a].data_dir@ == terms[j].data_dir@;
            if a < p {
                assert(out[a] == prev[a]);
            } else {
                assert(out[a + 1] == prev[a]);
            }
        } else {
            assert(out[p].data_dir@ == terms[j].data_dir@);
        }
    }
}

proof fn lemma_dedupe_skipped(out: Seq<Terminal>, terms: Seq<Terminal>, i: int, b: int)
    requires
        0 <= i < terms.len(),
        drawn_from_firsts(out, terms, i),
        covers_dirs(out, terms, i),
        0 <= b < out.len(),
        out[b].data_dir@ == terms[i].data_dir@,
    ensures
        drawn_from_firsts(out, terms, i + 1),
        covers_dirs(out, terms, i + 1),
{
    assert forall|a: int| 0 <= a < out.len() implies first_copy_in(#[trigger] out[a], terms, i + 1) by {
        assert(first_copy_in(out[a], terms, i));
    }
    assert forall|j: int| 0 <= j < i + 1 implies has_dir(out, #[trigger] terms[j].data_dir@) by {
        if j == i {
            assert(out[b].data_dir@ == terms[j].data_dir@);
        }
    }
}

/// One terminal per data directory, sorted by data directory: of several
/// with the same directory, the first found stays.
pub fn dedupe(terminals: Vec<Terminal>) -> (r: Vec<Terminal>)
    ensures
        sorted_by_dir(r@),
        drawn_from_firsts(r@, terminals@, terminals@.len() as int),
        covers_dirs(r@, terminals@, terminals@.len() as int),
{
    let mut out: Vec<Terminal> = Vec::new();
    let mut i: usize = 0;
    while i < terminals.len()
        invariant
            i <= terminals@.len(),
            sorted_by_dir(out@),
            drawn_from_firsts(out@, terminals@, i as int),
            covers_dirs(out@, terminals@, i as int),
        decreases terminals@.len() - i,
    {
        let t = terminals[i].copied();
        let ghost prev = out@;
        let inserted = insert_sorted(&mut out, t);
        proof {
            if inserted {
                let p = choose|p: int| 0 <= p <= prev.len() && out@ == prev.insert(p, t);
                lemma_dedupe_inserted(prev, out@, terminals@, i as int, p);
            } else {
                let b = choose|b: int| 0 <= b < prev.len() && prev[b].data_dir@ == t.data_dir@;
                lemma_dedupe_skipped(out@, terminals@, i as int, b);
            }
        }
        i = i + 1;
    }
    out
}


/// Where in `input` the terminal `r[a]` comes from.
spec fn source_index(r: Seq<Terminal>, input: Seq<Terminal>, a: int) -> int {
    choose|j: int| 0 <= j < input.len() && first_of_dir(input, j) && r[a] == input[j]
}

proof fn lemma_sorted_keys_distinct(input: Seq<Terminal>, x: int, y: int)
    requires
        sorted_by_dir(input),
        0 <= x < input.len(),
        0 <= y < input.len(),
        input[x].data_dir@ == input[y].data_dir@,
    ensures
        x == y,
{
    if x < y {
        lemma_lex_irreflexive(input[x].data_dir@);
        assert(lex_lt(input[x].data_dir@, input[y].data_dir@));
    } else if y < x {
        lemma_lex_irreflexive(input[x].data_dir@);
        assert(lex_lt(input[y].data_dir@, input[x].data_dir@));
    }
}

proof fn lemma_source_is_identity(r: Seq<Terminal>, input: Seq<Terminal>, a: int)
    requires
        sorted_by_dir(input),
        sorted_by_dir(r),
        drawn_from_firsts(r, input, input.len() as int),
        covers_dirs(r, input, input.len() as int),
        0 <= a < r.len(),
    ensures
        source_index(r, input, a) == a,
    decreases a,
{
    assert(first_copy_in(r[a], input, input.len() as int));
    let ja = source_index(r, input, a);
    assert(0 <= ja < input.len() && r[a] == input[ja]);
    if a > 0 {
        lemma_source_is_identity(r, input, a - 1);
        assert(first_copy_in(r[a - 1], input, input.len() as int));
        let jp = source_index(r, input, a - 1);
        assert(r[a - 1] == input[a - 1]);
        assert(lex_lt(r[a - 1].data_dir@, r[a].data_dir@));
        if ja <= a - 1 {
            lemma_lex_irreflexive(input[ja].data_dir@);
            if ja < a - 1 {
                assert(lex_lt(input[ja].data_dir@, input[a - 1].data_dir@));
                lemma_lex_transitive(input[ja].data_dir@, input[a - 1].data_dir@, input[ja].data_dir@);
            }
        }
    }
    if ja > a {
        assert(has_dir(r, input[a].data_dir@));
        let c = choose|c: int| #![trigger r[c]] 0 <= c < r.len() && r[c].data_dir@ == input[a].data_dir@;
        assert(first_copy_in(r[c], input, input.len() as int));
        let jc = source_index(r, input, c);
        assert(r[c] == input[jc]);
        lemma_sorted_keys_distinct(input, jc, a);
        if c < a {
            lemma_source_is_identity(r, input, c);
        } else if c > a {
            assert(lex_lt(r[a].data_dir@, r[c].data_dir@));
            assert(lex_lt(input[a].data_dir@, input[ja].data_dir@));
            lemma_lex_transitive(input[a].data_dir@, input[ja].data_dir@, input[a].data_dir@);
            lemma_lex_irreflexive(input[a].data_dir@);
        }
    }
}

/// `dedupe` is idempotent: a list that is already sorted by distinct data
/// directories, as `dedupe` returns it, is its own deduplication.
/// Terminal `j` of `input` is the earliest found with its data directory.
pub open spec fn earliest_with_dir(input: Seq<Terminal>, j: int) -> bool {
    0 <= j < input.len() && forall|k: int| 0 <= k < j ==> #[trigger] input[k].data_dir@ != input[j].data_dir@
}

/// `x` is, among the terminals of `input` with its data directory, the
/// earliest one.
pub open spec fn is_earliest_of_dir(input: Seq<Terminal>, x: Terminal) -> bool {
    exists|j: int| #[trigger] earliest_with_dir(input, j) && input[j] == x
}

/// What deduplication keeps, in plain terms: no data directory twice;
/// each terminal kept is, among those found with its directory, the
/// earliest one found; and every directory found has its terminal.
pub proof fn lemma_dedupe_keeps_first_of_each_dir(input: Seq<Terminal>, r: Seq<Terminal>)
    requires
        sorted_by_dir(r),
        drawn_from_firsts(r, input, input.len() as int),
        covers_dirs(r, input, input.len() as int),
    ensures
        forall|a: int, b: int| 0 <= a < b < r.len() ==> r[a].data_dir@ != r[b].data_dir@,
        forall|a: int| 0 <= a < r.len() ==> is_earliest_of_dir(input, #[trigger] r[a]),
        forall|j: int| 0 <= j < input.len() ==> has_dir(r, #[trigger] input[j].data_dir@),
{
    reveal(first_of_dir);
    assert forall|a: int, b: int| 0 <= a < b < r.len() implies r[a].data_dir@ != r[b].data_dir@ by {
        lemma_lex_irreflexive(r[a].data_dir@);
    }
    assert forall|a: int| 0 <= a < r.len() implies is_earliest_of_dir(input, #[trigger] r[a]) by {
        assert(first_copy_in(r[a], input, input.len() as int));
        let j = choose|j: int| #![trigger input[j]] 0 <= j < input.len() && first_of_dir(input, j) && r[a] == input[j];
        assert(earliest_with_dir(input, j));
        assert(input[j] == r[a]);
    }
}

pub proof fn lemma_dedupe_idempotent(input: Seq<Terminal>, r: Seq<Terminal>)
    requires
        sorted_by_dir(input),
        sorted_by_dir(r),
        drawn_from_firsts(r, input, input.len() as int),
        covers_dirs(r, input, input.len() as int),
    ensures
        r == input,
{
    assert forall|a: int| 0 <= a < r.len() implies r[a] == input[a] && a < input.len() by {
        lemma_source_is_identity(r, input, a);
        assert(first_copy_in(r[a], input, input.len() as int));
    }
    if r.len() < input.len() {
        let k = r.len() as int;
        assert(has_dir(r, input[k].data_dir@));
        let c = choose|c: int| #![trigger r[c]] 0 <= c < r.len() && r[c].data_dir@ == input[k].data_dir@;
        assert(r[c] == input[c]);
        lemma_sorted_keys_distinct(input, c, k);
    }
    if r.len() > input.len() {
        let k = input.len() as int;
        lemma_source_is_identity(r, input, k);
        assert(first_copy_in(r[k], input, input.len() as int));
    }
    assert(r =~= input);
}

/// A directory named `Experts` whose parent is named `MQL5`: the experts
/// folder of a terminal data directory.
pub fn is_terminal_experts_dir(name: Option<&str>, parent_name: Option<&str>) -> (r: bool)
    ensures
        r == (name is Some && name->0@ == "Experts"@ && parent_name is Some && parent_name->0@
            == "MQL5"@),
{
    match (name, parent_name) {
        (Some(n), Some(p)) => {
            let nc = chars_of(n);
            let pc = chars_of(p);
            let e = chars_of("Experts");
            let m = chars_of("MQL5");
            chars_eq(nc.as_slice(), e.as_slice()) && chars_eq(pc.as_slice(), m.as_slice())
        },
        _ => false,
    }
}

/// The terminal found at `data_dir`, with the paths beneath it, its broker
/// classified from the data directory path.
pub fn terminal_at(
    data_dir: String,
    experts_dir: String,
    indicators_dir: String,
    config_dir: String,
    profiles_dir: String,
) -> (r: Terminal)
    ensures
        r.data_dir == data_dir,
        r.experts_dir == experts_dir,
        r.indicators_dir == indicators_dir,
        r.config_dir == config_dir,
        r.profiles_dir == profiles_dir,
        r.broker_build@ == broker_label(lowercase(data_dir@)),
{
    let broker_build = classify_broker(data_dir.as_str());
    Terminal { data_dir, experts_dir, indicators_dir, config_dir, profiles_dir, broker_build }
}

/// The process names that identify a running MT5, before lower-casing.
pub open spec fn mt5_process_needles() -> Seq<Seq<char>> {
    seq!["terminal64.exe"@, "terminal.exe"@, "MetaTrader 5"@, "metatrader"@]
}

/// A process counts as MT5 exactly when its lower-cased name contains the
/// lower-cased form of one of `terminal64.exe`, `terminal.exe`,
/// `MetaTrader 5` and `metatrader`; a name that contains none of them
/// (such as that of the macOS `Terminal` app) does not count.
pub proof fn lemma_mt5_process_names_exactly(name: Seq<char>)
    ensures
        matches_any(lowercase(name), mt5_process_needles().map_values(|n: Seq<char>| lowercase(n))) <==> (
        contains(lowercase(name), lowercase("terminal64.exe"@)) || contains(lowercase(name), lowercase("terminal.exe"@))
            || contains(lowercase(name), lowercase("MetaTrader 5"@)) || contains(
            lowercase(name),
            lowercase("metatrader"@),
        )),
{
    let ln = lowercase(name);
    let ns = mt5_process_needles().map_values(|n: Seq<char>| lowercase(n));
    assert(ns[0] == lowercase("terminal64.exe"@));
    assert(ns[1] == lowercase("terminal.exe"@));
    assert(ns[2] == lowercase("MetaTrader 5"@));
    assert(ns[3] == lowercase("metatrader"@));
    if matches_any(ln, ns) {
        let i = choose|i: int| 0 <= i < ns.len() && contains(ln, #[trigger] ns[i]);
        assert(0 <= i < 4);
    }
}

/// A lower-cased process name contains one of the lower-cased needles.
pub open spec fn matches_any(lower_name: Seq<char>, lower_needles: Seq<Seq<char>>) -> bool {
    exists|i: int| 0 <= i < lower_needles.len() && contains(lower_name, #[trigger] lower_needles[i])
}

/// Whether a lower-cased process name contains one of the lower-cased
/// needles.
pub fn name_matches_any(lower_name: &str, lower_needles: &Vec<String>) -> (r: bool)
    ensures
        r == matches_any(lower_name@, lower_needles@.map_values(|s: String| s@)),
{
    let name = chars_of(lower_name);
    let ghost needles = lower_needles@.map_values(|s: String| s@);
    let mut i: usize = 0;
    while i < lower_needles.len()
        invariant
            i <= lower_needles@.len(),
            name@ == lower_name@,
            needles == lower_needles@.map_values(|s: String| s@),
            forall|j: int| 0 <= j < i ==> !contains(lower_name@, #[trigger] needles[j]),
        decreases lower_needles@.len() - i,
    {
        let n = chars_of(lower_needles[i].as_str());
        if contains_exec(name.as_slice(), n.as_slice()) {
            assert(needles[i as int] == lower_needles@[i as int]@);
            return true;
        }
        i = i + 1;
    }
    false
}

/// Whether a process of this name is MT5: its lower-cased name contains
/// the lower-cased form of `terminal64.exe`, `terminal.exe`,
/// `MetaTrader 5` or `metatrader`.
pub fn is_mt5_process_name(name: &str) -> (r: bool)
    ensures
        r == matches_any(lowercase(name@), mt5_process_needles().map_values(|n: Seq<char>| lowercase(n))),
{
    let lower = to_lowercase(name);
    let mut needles: Vec<String> = Vec::new();
    needles.push(to_lowercase("terminal64.exe"));
    needles.push(to_lowercase("terminal.exe"));
    needles.push(to_lowercase("MetaTrader 5"));
    needles.push(to_lowercase("metatrader"));
    let r = name_matches_any(lower.as_str(), &needles);
    assert(needles@.map_values(|s: String| s@) == mt5_process_needles().map_values(|n: Seq<char>| lowercase(n)));
    r
}

/// Whether any of the running processes is MT5.
pub fn any_mt5_process(names: &Vec<String>) -> (r: bool)
    ensures
        r == exists|i: int| 0 <= i < names@.len() && matches_any(
            lowercase(#[trigger] names@[i]@),
            mt5_process_needles().map_values(|n: Seq<char>| lowercase(n)),
        ),
{
    let mut i: usize = 0;
    while i < names.len()
        invariant
            i <= names@.len(),
            forall|j: int| 0 <= j < i ==> !matches_any(
                lowercase(#[trigger] names@[j]@),
                mt5_process_needles().map_values(|n: Seq<char>| lowercase(n)),
            ),
        decreases names@.len() - i,
    {
        if is_mt5_process_name(names[i].as_str()) {
            return true;
        }
        i = i + 1;
    }
    false
}

} // verus!
