//! The seeds that mutations start from.
use rand::rngs::StdRng;
use vstd::prelude::*;

use crate::fuzzing::circuits::CircuitKind;
use crate::fuzzing::inputs::StoredProofInputs;
use crate::fuzzing::inputs::StoredProofInputsView;
use crate::fuzzing::rng::choose_item;

verus! {

/// The inputs of one circuit in the run of one program.
#[derive(Debug)]
pub struct SeedCase {
    pub seed_program: String,
    pub circuit: CircuitKind,
    pub base_input: StoredProofInputs,
}

/// The value of [`SeedCase`].
pub struct SeedCaseView {
    pub seed_program: Seq<char>,
    pub circuit: CircuitKind,
    pub base_input: StoredProofInputsView,
}

impl View for SeedCase {
    type V = SeedCaseView;

    open spec fn view(&self) -> SeedCaseView {
        SeedCaseView {
            seed_program: self.seed_program@,
            circuit: self.circuit,
            base_input: self.base_input@,
        }
    }
}

impl SeedCase {
    /// A copy with the same value.
    pub fn duplicate(&self) -> (r: SeedCase)
        ensures
            r@ == self@,
    {
        SeedCase {
            seed_program: self.seed_program.clone(),
            circuit: self.circuit,
            base_input: self.base_input.duplicate(),
        }
    }
}

/// The inputs of all circuits in the run of one program.
#[derive(Debug)]
pub struct CacheEntry {
    pub seed: String,
    pub inputs: Vec<StoredProofInputs>,
}

/// The values of stored inputs.
pub open spec fn input_values(inputs: Seq<StoredProofInputs>) -> Seq<StoredProofInputsView> {
    inputs.map_values(|i: StoredProofInputs| i@)
}

/// The seed case of one stored input.
pub open spec fn case_of(seed: Seq<char>, input: StoredProofInputsView) -> SeedCaseView {
    SeedCaseView { seed_program: seed, circuit: input.circuit()->Some_0, base_input: input }
}

/// The seed cases of one entry, in the order of its inputs.
pub open spec fn entry_cases(entry: CacheEntry) -> Seq<SeedCaseView> {
    input_values(entry.inputs@).map_values(|i: StoredProofInputsView| case_of(entry.seed@, i))
}

/// The seed cases of entries, one entry after the other.
pub open spec fn expanded(entries: Seq<CacheEntry>) -> Seq<SeedCaseView>
    decreases entries.len(),
{
    if entries.len() == 0 {
        Seq::empty()
    } else {
        expanded(entries.drop_last()) + entry_cases(entries.last())
    }
}

/// Whether every stored input names a circuit.
pub open spec fn names_circuits(entries: Seq<CacheEntry>) -> bool {
    forall|e: int, i: int|
        0 <= e < entries.len() && 0 <= i < entries[e].inputs@.len() ==> (
        #[trigger] entries[e].inputs@[i])@.circuit() is Some
}

/// The values of seed cases.
pub open spec fn case_values(cases: Seq<SeedCase>) -> Seq<SeedCaseView> {
    cases.map_values(|c: SeedCase| c@)
}

/// The seed cases of entries.
pub fn expand_seed_cases(entries: &Vec<CacheEntry>) -> (r: Vec<SeedCase>)
    requires
        names_circuits(entries@),
    ensures
        case_values(r@) == expanded(entries@),
{
    let mut out: Vec<SeedCase> = Vec::new();
    for e in 0..entries.len()
        invariant
            names_circuits(entries@),
            case_values(out@) == expanded(entries@.take(e as int)),
    {
        let entry = &entries[e];
        let ghost before = case_values(out@);
        for i in 0..entry.inputs.len()
            invariant
                names_circuits(entries@),
                e < entries@.len(),
                *entry == entries@[e as int],
                case_values(out@) == before + entry_cases(*entry).take(i as int),
        {
            assert(entries@[e as int].inputs@[i as int]@.circuit() is Some);
            let input = entry.inputs[i].duplicate();
            let case = SeedCase {
                seed_program: entry.seed.clone(),
                circuit: input.circuit(),
                base_input: input,
            };
            let ghost cases = case_values(out@);
            out.push(case);
            assert(case_values(out@) =~= cases.push(case@));
            assert(entry_cases(*entry)[i as int] == case@);
            assert(entry_cases(*entry).take(i + 1) =~= entry_cases(*entry).take(i as int).push(
                case@,
            ));
            assert(before + entry_cases(*entry).take(i + 1) =~= (before + entry_cases(*entry).take(
                i as int,
            )).push(case@));
        }
        assert(entry_cases(*entry).take(entry.inputs@.len() as int) =~= entry_cases(*entry));
        assert(entries@.take(e + 1).drop_last() =~= entries@.take(e as int));
        assert(entries@.take(e + 1).last() == *entry);
    }
    assert(entries@.take(entries@.len() as int) =~= entries@);
    out
}

/// There were no seed cases to choose from.
#[derive(Clone, Copy, Debug, PartialEq, Eq, Structural)]
pub struct NoSeedCases;

impl NoSeedCases {
    /// The error as text.
    pub fn message(&self) -> (r: &'static str)
        ensures
            r@ == "no seed cases available"@,
    {
        "no seed cases available"
    }
}

/// A copy of a random seed case.
pub fn choose_seed_case(seed_cases: &[SeedCase], rng: &mut StdRng) -> (r: Result<
    SeedCase,
    NoSeedCases,
>)
    ensures
        r is Ok <==> seed_cases@.len() > 0,
        r matches Ok(c) ==> case_values(seed_cases@).contains(c@),
{
    match choose_item(seed_cases, rng) {
        Some(c) => {
            let case = c.duplicate();
            proof {
                let i = choose|i: int| 0 <= i < seed_cases@.len() && seed_cases@[i] == *c;
                assert(case_values(seed_cases@)[i] == case@);
            }
            Ok(case)
        },
        None => Err(NoSeedCases),
    }
}

/// Entries after others come after them: their cases follow.
pub proof fn cases_follow_the_entries(first: Seq<CacheEntry>, second: Seq<CacheEntry>)
    ensures
        expanded(first + second) == expanded(first) + expanded(second),
    decreases second.len(),
{
    if second.len() == 0 {
        assert(first + second =~= first);
        assert(expanded(first) + expanded(second) =~= expanded(first));
    } else {
        let all = first + second;
        assert(all.drop_last() =~= first + second.drop_last());
        assert(all.last() == second.last());
        cases_follow_the_entries(first, second.drop_last());
        assert(expanded(all) =~= expanded(first) + expanded(second));
    }
}

/// Every stored input of an entry has its own case, in order: it holds the input, under the name of
/// the entry's program and the circuit that the input names.
pub proof fn entries_have_a_case_for_each_input(entry: CacheEntry, i: int)
    requires
        0 <= i < entry.inputs@.len(),
        entry.inputs@[i]@.circuit() is Some,
    ensures
        expanded(seq![entry]).len() == entry.inputs@.len(),
        expanded(seq![entry])[i].seed_program == entry.seed@,
        expanded(seq![entry])[i].base_input == entry.inputs@[i]@,
        Some(expanded(seq![entry])[i].circuit) == entry.inputs@[i]@.circuit(),
{
    let entries = seq![entry];
    assert(entries.drop_last() =~= Seq::empty());
    assert(expanded(entries.drop_last()) =~= Seq::empty());
    assert(expanded(entries) =~= entry_cases(entry));
}

} // verus!
