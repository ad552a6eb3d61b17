//! The state of a fuzzing run.
use vstd::prelude::*;

use crate::fuzzing::circuits::CircuitKind;
use crate::fuzzing::crashes;
use crate::fuzzing::crashes::BugReport;
use crate::fuzzing::crashes::CrashArtifact;
use crate::fuzzing::programs::SeedProgram;
use crate::fuzzing::seeds;
use crate::fuzzing::seeds::expand_seed_cases;
use crate::fuzzing::seeds::CacheEntry;
use crate::fuzzing::seeds::SeedCase;
use crate::text;

verus! {

/// The number of a decimal digit.
pub open spec fn digit_of(c: char) -> Option<int> {
    if '0' <= c && c <= '9' {
        Some(c as int - '0' as int)
    } else {
        None
    }
}

/// The number that digits write.
pub open spec fn digits_value(s: Seq<char>) -> Option<int>
    decreases s.len(),
{
    if s.len() == 0 {
        Some(0)
    } else {
        match (digits_value(s.drop_last()), digit_of(s.last())) {
            (Some(n), Some(d)) => Some(10 * n + d),
            _ => None,
        }
    }
}

/// The number that a text writes: digits, at least one, after at most one plus sign.
pub open spec fn parsed_number(s: Seq<char>) -> Option<u64> {
    let digits = if s.len() > 0 && s[0] == '+' {
        s.skip(1)
    } else {
        s
    };
    match digits_value(digits) {
        Some(n) => if digits.len() > 0 && n <= u64::MAX {
            Some(n as u64)
        } else {
            None
        },
        None => None,
    }
}

/// The place of the first comma from a place on, or the end.
pub open spec fn comma_from(s: Seq<char>, start: int) -> int
    decreases s.len() - start,
{
    if start >= s.len() || s[start] == ',' {
        start
    } else {
        comma_from(s, start + 1)
    }
}

/// The number of the finding that a file of this name keeps: it stands after `id:`, before the
/// first comma.
pub open spec fn crash_id(name: Seq<char>) -> Option<u64> {
    if name.len() >= 3 && name[0] == 'i' && name[1] == 'd' && name[2] == ':' {
        parsed_number(name.subrange(3, comma_from(name, 3)))
    } else {
        None
    }
}

/// The largest number of a finding among file names.
pub open spec fn largest_id(names: Seq<Seq<char>>) -> Option<u64>
    decreases names.len(),
{
    if names.len() == 0 {
        None
    } else {
        match (largest_id(names.drop_last()), crash_id(names.last())) {
            (Some(a), Some(b)) => Some(
                if a >= b {
                    a
                } else {
                    b
                },
            ),
            (Some(a), None) => Some(a),
            (None, b) => b,
        }
    }
}

/// The number of the next finding: one past the largest, or zero.
pub open spec fn next_id(names: Seq<Seq<char>>) -> int {
    match largest_id(names) {
        Some(n) => n + 1,
        None => 0,
    }
}

/// The texts of strings.
pub open spec fn texts(names: Seq<String>) -> Seq<Seq<char>> {
    names.map_values(|s: String| s@)
}

proof fn lemma_prefix_value(s: Seq<char>, k: int)
    requires
        0 <= k <= s.len(),
    ensures
        digits_value(s) matches Some(n) ==> (digits_value(s.take(k)) matches Some(m) && 0 <= m <= n),
        digits_value(s.take(k)) is None ==> digits_value(s) is None,
    decreases s.len(),
{
    if k == s.len() {
        assert(s.take(k) =~= s);
        if s.len() > 0 {
            lemma_prefix_value(s.drop_last(), s.len() - 1);
            assert(s.drop_last().take(s.len() - 1) =~= s.drop_last());
        }
    } else {
        lemma_prefix_value(s.drop_last(), k);
        assert(s.drop_last().take(k) =~= s.take(k));
    }
}

/// Reads digits of a text between two places.
fn parse_digits(s: &str, start: usize, end: usize) -> (r: Option<u64>)
    requires
        start <= end <= s@.len(),
    ensures
        r == match digits_value(s@.subrange(start as int, end as int)) {
            Some(n) => if n <= u64::MAX {
                Some(n as u64)
            } else {
                None
            },
            None => None,
        },
{
    let ghost all = s@.subrange(start as int, end as int);
    let mut value: u64 = 0;
    let mut i: usize = start;
    assert(all.take(0) =~= Seq::empty());
    while i < end
        invariant
            start <= i <= end <= s@.len(),
            all == s@.subrange(start as int, end as int),
            digits_value(all.take(i - start)) == Some(value as int),
        decreases end - i,
    {
        let c = s.get_char(i);
        let ghost k = i - start;
        assert(all.take(k + 1).drop_last() =~= all.take(k));
        assert(all.take(k + 1).last() == c);
        proof {
            lemma_prefix_value(all, k + 1);
        }
        if c < '0' || c > '9' {
            return None;
        }
        let d: u64 = (c as u32 - '0' as u32) as u64;
        if value > (u64::MAX - d) / 10 {
            return None;
        }
        value = 10 * value + d;
        i = i + 1;
    }
    assert(all.take(end - start) =~= all);
    Some(value)
}

/// The number of the finding that a file of this name keeps.
pub fn parse_crash_id(name: &str) -> (r: Option<u64>)
    ensures
        r == crash_id(name@),
{
    let n: usize = name.unicode_len();
    if n < 3 || name.get_char(0) != 'i' || name.get_char(1) != 'd' || name.get_char(2) != ':' {
        return None;
    }
    let mut end: usize = 3;
    while end < n && name.get_char(end) != ','
        invariant
            n == name@.len(),
            3 <= end <= n,
            comma_from(name@, 3) == comma_from(name@, end as int),
        decreases n - end,
    {
        end = end + 1;
    }
    let ghost raw = name@.subrange(3, end as int);
    assert(comma_from(name@, 3) == end);
    let start: usize = if end > 3 && name.get_char(3) == '+' {
        4
    } else {
        3
    };
    proof {
        if start == 4 {
            assert(raw[0] == '+');
            assert(raw.skip(1) =~= name@.subrange(4, end as int));
        } else {
            assert(raw.len() > 0 ==> raw[0] == name@[3]);
        }
    }
    if start == end {
        return None;
    }
    parse_digits(name, start, end)
}

/// The number of the next finding, from the names of the files that keep the earlier ones.
pub fn discover_next_crash_id(names: &Vec<String>) -> (r: u64)
    requires
        next_id(texts(names@)) <= u64::MAX,
    ensures
        r == next_id(texts(names@)),
{
    let mut largest: Option<u64> = None;
    for i in 0..names.len()
        invariant
            largest == largest_id(texts(names@).take(i as int)),
    {
        let ghost all = texts(names@);
        assert(all.take(i + 1).drop_last() =~= all.take(i as int));
        assert(all.take(i + 1).last() == names@[i as int]@);
        let found = parse_crash_id(names[i].as_str());
        largest = match (largest, found) {
            (Some(a), Some(b)) => Some(
                if a >= b {
                    a
                } else {
                    b
                },
            ),
            (Some(a), None) => Some(a),
            (None, b) => b,
        };
    }
    assert(texts(names@).take(names@.len() as int) =~= texts(names@));
    match largest {
        Some(n) => n + 1,
        None => 0,
    }
}

/// In-memory state accumulated across a fuzzing run.
#[derive(Debug)]
pub struct FuzzerState {
    /// Seed programs discovered from the input corpus directory.
    pub programs: Vec<SeedProgram>,
    /// Cache entries loaded or constructed during initialization.
    pub cache_entries: Vec<CacheEntry>,
    /// Flattened per-circuit seed cases derived from the cache.
    pub seed_cases: Vec<SeedCase>,
    /// Next crash id to allocate when persisting a bug report.
    pub next_crash_id: u64,
}

impl FuzzerState {
    /// The state before anything is loaded.
    pub fn empty() -> (r: FuzzerState)
        ensures
            r.programs@.len() == 0,
            r.cache_entries@.len() == 0,
            r.seed_cases@.len() == 0,
            r.next_crash_id == 0,
    {
        FuzzerState {
            programs: Vec::new(),
            cache_entries: Vec::new(),
            seed_cases: Vec::new(),
            next_crash_id: 0,
        }
    }

    /// The state of a run on programs with their cache entries, where the crash directory holds
    /// files of these names.
    pub fn new(
        programs: Vec<SeedProgram>,
        cache_entries: Vec<CacheEntry>,
        crash_files: &Vec<String>,
    ) -> (r: FuzzerState)
        requires
            seeds::names_circuits(cache_entries@),
            next_id(texts(crash_files@)) <= u64::MAX,
        ensures
            r.programs == programs,
            r.cache_entries == cache_entries,
            seeds::case_values(r.seed_cases@) == seeds::expanded(cache_entries@),
            r.next_crash_id == next_id(texts(crash_files@)),
    {
        let seed_cases = expand_seed_cases(&cache_entries);
        let next_crash_id = discover_next_crash_id(crash_files);
        FuzzerState { programs, cache_entries, seed_cases, next_crash_id }
    }

    /// Allocates a new crash id and numbers the report with it.
    pub fn save_bug(&mut self, report: BugReport) -> (r: CrashArtifact)
        requires
            old(self).next_crash_id < u64::MAX,
        ensures
            r.id == old(self).next_crash_id,
            r.report == report,
            *final(self) == (FuzzerState {
                next_crash_id: (old(self).next_crash_id + 1) as u64,
                ..*old(self)
            }),
    {
        let crash_id = self.next_crash_id;
        self.next_crash_id = crash_id + 1;
        CrashArtifact::new(crash_id, report)
    }
}

proof fn lemma_decimal_value(n: nat)
    ensures
        digits_value(text::decimal(n)) == Some(n as int),
        text::decimal(n).len() > 0,
        forall|i: int|
            0 <= i < text::decimal(n).len() ==> '0' <= #[trigger] text::decimal(n)[i]
                && text::decimal(n)[i] <= '9',
    decreases n,
{
    if n >= 10 {
        lemma_decimal_value(n / 10);
        assert(text::decimal(n).drop_last() =~= text::decimal(n / 10));
    } else {
        assert(text::decimal(n).drop_last() =~= Seq::empty());
        reveal_with_fuel(digits_value, 2);
    }
}

proof fn lemma_comma(s: Seq<char>, start: int, end: int)
    requires
        0 <= start <= end < s.len(),
        s[end] == ',',
        forall|i: int| start <= i < end ==> s[i] != ',',
    ensures
        comma_from(s, start) == end,
    decreases end - start,
{
    if start < end {
        lemma_comma(s, start + 1, end);
    }
}

/// The name of the file of a finding gives its number back.
pub proof fn crash_names_hold_their_ids(id: u64, circuit: CircuitKind)
    ensures
        crash_id(crashes::crash_name(id, circuit)) == Some(id),
{
    let name = crashes::crash_name(id, circuit);
    let digits = text::decimal(id as nat);
    lemma_decimal_value(id as nat);
    reveal_strlit("id:");
    reveal_strlit(",circuit:");
    let end = 3 + digits.len();
    assert(name.subrange(3, end as int) =~= digits);
    assert(name[end as int] == ',');
    assert forall|i: int| 3 <= i < end implies name[i] != ',' by {
        assert(name[i] == digits[i - 3]);
    }
    lemma_comma(name, 3, end as int);
    assert(name[0] == 'i' && name[1] == 'd' && name[2] == ':');
    assert(digits[0] != '+');
}

/// The number of the next finding is larger than that of each kept one, so that no file is
/// overwritten.
pub proof fn next_ids_are_unused(names: Seq<Seq<char>>, i: int)
    requires
        0 <= i < names.len(),
    ensures
        crash_id(names[i]) matches Some(id) ==> id < next_id(names),
    decreases names.len(),
{
    if i < names.len() - 1 {
        next_ids_are_unused(names.drop_last(), i);
        assert(names.drop_last()[i] == names[i]);
    }
}

/// Once a finding is kept under its number, the next number is found from the files again.
pub proof fn kept_findings_are_counted(names: Seq<Seq<char>>, circuit: CircuitKind)
    requires
        next_id(names) <= u64::MAX,
    ensures
        next_id(names.push(crashes::crash_name(next_id(names) as u64, circuit))) == next_id(names)
            + 1,
{
    let id = next_id(names) as u64;
    let after = names.push(crashes::crash_name(id, circuit));
    crash_names_hold_their_ids(id, circuit);
    assert(after.drop_last() =~= names);
}

/// The number of the next finding is one past that of a kept one, or zero where none is kept.
pub proof fn next_ids_follow_a_kept_one(names: Seq<Seq<char>>)
    ensures
        next_id(names) == 0 <==> (forall|i: int|
            0 <= i < names.len() ==> crash_id(#[trigger] names[i]) is None),
        next_id(names) > 0 ==> exists|i: int|
            0 <= i < names.len() && crash_id(#[trigger] names[i]) == Some(
                (next_id(names) - 1) as u64,
            ),
    decreases names.len(),
{
    if names.len() > 0 {
        let before = names.drop_last();
        let last = names.len() - 1;
        next_ids_follow_a_kept_one(before);
        if next_id(names) == 0 {
            assert forall|i: int| 0 <= i < names.len() implies crash_id(
                #[trigger] names[i],
            ) is None by {
                if i < last {
                    assert(before[i] == names[i]);
                }
            }
        } else if next_id(names) == next_id(before) {
            let i = choose|i: int|
                0 <= i < before.len() && crash_id(#[trigger] before[i]) == Some(
                    (next_id(before) - 1) as u64,
                );
            assert(crash_id(names[i]) == Some((next_id(names) - 1) as u64));
        } else {
            assert(crash_id(names[last]) == Some((next_id(names) - 1) as u64));
        }
    }
}

proof fn lemma_comma_is_first(s: Seq<char>, start: int)
    requires
        0 <= start <= s.len(),
    ensures
        start <= comma_from(s, start) <= s.len(),
        forall|i: int| start <= i < comma_from(s, start) ==> #[trigger] s[i] != ',',
        comma_from(s, start) < s.len() ==> s[comma_from(s, start)] == ',',
    decreases s.len() - start,
{
    if start < s.len() && s[start] != ',' {
        lemma_comma_is_first(s, start + 1);
    }
}

proof fn lemma_only_digits(s: Seq<char>, i: int)
    requires
        digits_value(s) is Some,
        0 <= i < s.len(),
    ensures
        '0' <= s[i] && s[i] <= '9',
    decreases s.len(),
{
    if i < s.len() - 1 {
        lemma_only_digits(s.drop_last(), i);
    }
}

/// Every number can be read from a name that begins with `id:` and its digits, whether or not a comma
/// and more follow; and a name that a number is read from begins so.
pub proof fn numbers_are_read_after_their_mark(id: u64, rest: Seq<char>, name: Seq<char>, i: int)
    ensures
        crash_id("id:"@ + text::decimal(id as nat)) == Some(id),
        crash_id("id:"@ + text::decimal(id as nat) + ","@ + rest) == Some(id),
        crash_id(name) is Some ==> name.len() > 3 && name.take(3) == "id:"@,
        crash_id(name) is Some && 3 < i < name.len() && (forall|j: int|
            3 <= j <= i ==> #[trigger] name[j] != ',') ==> '0' <= name[i] && name[i] <= '9',
{
    let digits = text::decimal(id as nat);
    lemma_decimal_value(id as nat);
    reveal_strlit("id:");
    reveal_strlit(",");
    let short = "id:"@ + digits;
    let end = 3 + digits.len();
    lemma_comma_is_first(short, 3);
    assert forall|j: int| 3 <= j < end implies short[j] != ',' by {
        assert(short[j] == digits[j - 3]);
    }
    assert(comma_from(short, 3) == end);
    assert(short.subrange(3, end as int) =~= digits);
    assert(digits[0] != '+');
    let long = short + ","@ + rest;
    assert("id:"@ + digits + ","@ + rest == long);
    assert(long[end as int] == ',');
    assert forall|j: int| 3 <= j < end implies long[j] != ',' by {
        assert(long[j] == digits[j - 3]);
    }
    lemma_comma(long, 3, end as int);
    assert(long.subrange(3, end as int) =~= digits);
    if crash_id(name) is Some {
        assert(name.take(3) =~= "id:"@);
        lemma_comma_is_first(name, 3);
        let stop = comma_from(name, 3);
        let raw = name.subrange(3, stop);
        if 3 < i < name.len() && (forall|j: int| 3 <= j <= i ==> #[trigger] name[j] != ',') {
            assert(i < stop);
            if raw[0] == '+' {
                lemma_only_digits(raw.skip(1), i - 4);
            } else {
                lemma_only_digits(raw, i - 3);
            }
        }
    }
}

} // verus!
