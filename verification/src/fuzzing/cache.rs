//! The cached inputs of a program.
use vstd::prelude::*;

use crate::fuzzing::circuits::CircuitKind;
use crate::fuzzing::inputs::StoredProofInputs;
use crate::fuzzing::inputs::StoredProofInputsView;
use crate::fuzzing::programs::SeedProgram;
use crate::fuzzing::proving;
use crate::fuzzing::proving::PreparedExecution;
use crate::fuzzing::proving::ProofFailure;
use crate::fuzzing::registry;
use crate::fuzzing::registry::CircuitRegistry;
use crate::fuzzing::registry::NonMemoryTrace;
use crate::fuzzing::seeds;
use crate::fuzzing::seeds::CacheEntry;

verus! {

/// Where the inputs of a program come from.
#[derive(Debug)]
pub enum CacheSource {
    /// The entry that was kept.
    Stored(CacheEntry),
    /// A run of the program, with the trace of each circuit.
    Fresh { prepared: PreparedExecution, traced: Vec<NonMemoryTrace> },
}

/// The first failure among the circuits of a run.
pub open spec fn creation_failure(
    kinds: Seq<CircuitKind>,
    prepared: PreparedExecution,
    traced: Seq<NonMemoryTrace>,
) -> Option<ProofFailure>
    decreases kinds.len(),
{
    if kinds.len() == 0 {
        None
    } else {
        match registry::generation_failure(kinds[0], prepared, traced[0]) {
            Some(f) => Some(f),
            None => creation_failure(kinds.skip(1), prepared, traced.skip(1)),
        }
    }
}

/// The inputs of the circuits of a run.
pub open spec fn created_inputs(
    kinds: Seq<CircuitKind>,
    prepared: PreparedExecution,
    traced: Seq<NonMemoryTrace>,
) -> Seq<StoredProofInputsView> {
    Seq::new(
        kinds.len(),
        |i: int| registry::generated_inputs(kinds[i], prepared, traced[i]),
    )
}

fn create_inputs(
    registry: &CircuitRegistry,
    prepared: &PreparedExecution,
    traced: Vec<NonMemoryTrace>,
) -> (r: Result<Vec<StoredProofInputs>, ProofFailure>)
    requires
        registry.wf(),
        traced@.len() == registry.kinds().len(),
    ensures
        match creation_failure(registry.kinds(), *prepared, traced@) {
            Some(f) => r == Err::<Vec<StoredProofInputs>, ProofFailure>(f),
            None => r matches Ok(inputs) && seeds::input_values(inputs@) == created_inputs(
                registry.kinds(),
                *prepared,
                traced@,
            ),
        },
{
    let ghost all = traced@;
    let ghost kinds = registry.kinds();
    let circuits = registry.circuits();
    let count: usize = circuits.len();
    let mut rest = traced;
    let mut out: Vec<StoredProofInputs> = Vec::new();
    assert(all.skip(0) =~= all);
    assert(kinds.skip(0) =~= kinds);
    assert(seeds::input_values(out@) =~= created_inputs(kinds, *prepared, all).take(0));
    for i in 0..count
        invariant
            registry.wf(),
            kinds == registry.kinds(),
            circuits@ == kinds,
            count == kinds.len(),
            all == traced@,
            all.len() == kinds.len(),
            rest@ == all.skip(i as int),
            creation_failure(kinds, *prepared, all) == creation_failure(
                kinds.skip(i as int),
                *prepared,
                all.skip(i as int),
            ),
            seeds::input_values(out@) == created_inputs(kinds, *prepared, all).take(i as int),
    {
        let kind = circuits[i];
        let ghost before = seeds::input_values(out@);
        let trace = rest.remove(0);
        assert(kinds[i as int] is AddSubLuiAuipcMop);
        assert(all.skip(i as int)[0] == trace);
        assert(rest@ =~= all.skip(i + 1));
        assert(kinds.skip(i as int).skip(1) =~= kinds.skip(i + 1));
        assert(all.skip(i as int).skip(1) =~= all.skip(i + 1));
        match registry.generate_inputs(kind, prepared, trace) {
            Ok(inputs) => {
                out.push(inputs);
                assert(seeds::input_values(out@) =~= before.push(inputs@));
                assert(seeds::input_values(out@) =~= created_inputs(kinds, *prepared, all).take(
                    i + 1,
                ));
            },
            Err(f) => {
                return Err(f);
            },
        }
    }
    assert(kinds.skip(count as int).len() == 0);
    assert(created_inputs(kinds, *prepared, all).take(count as int) =~= created_inputs(
        kinds,
        *prepared,
        all,
    ));
    Ok(out)
}

/// Whether this is the entry of a program from a source, with whether it has to be kept.
pub open spec fn is_entry_of(
    r: Result<(CacheEntry, bool), ProofFailure>,
    program: Seq<char>,
    kinds: Seq<CircuitKind>,
    source: CacheSource,
) -> bool {
    match source {
        CacheSource::Stored(entry) => r == Ok::<(CacheEntry, bool), ProofFailure>((entry, false)),
        CacheSource::Fresh { prepared, traced } => match creation_failure(
            kinds,
            prepared,
            traced@,
        ) {
            Some(f) => r == Err::<(CacheEntry, bool), ProofFailure>(f),
            None => r matches Ok((entry, write)) && write && entry.seed@ == program
                && seeds::input_values(entry.inputs@) == created_inputs(kinds, prepared, traced@),
        },
    }
}

impl CacheEntry {
    /// The entry of a program, and whether it has to be kept: one that was kept is taken as it is,
    /// and a new one is made from the traces of all circuits.
    pub fn load_or_create(
        program: &SeedProgram,
        registry: &CircuitRegistry,
        source: CacheSource,
    ) -> (r: Result<(CacheEntry, bool), ProofFailure>)
        requires
            registry.wf(),
            source matches CacheSource::Fresh { traced, .. } ==> traced@.len()
                == registry.kinds().len(),
        ensures
            match source {
                CacheSource::Stored(entry) => r == Ok::<(CacheEntry, bool), ProofFailure>(
                    (entry, false),
                ),
                CacheSource::Fresh { prepared, traced } => match creation_failure(
                    registry.kinds(),
                    prepared,
                    traced@,
                ) {
                    Some(f) => r == Err::<(CacheEntry, bool), ProofFailure>(f),
                    None => {
                        r matches Ok((entry, write)) && write && entry.seed@ == program.name@
                            && seeds::input_values(entry.inputs@) == created_inputs(
                            registry.kinds(),
                            prepared,
                            traced@,
                        )
                    },
                },
            },
            is_entry_of(r, program.name@, registry.kinds(), source),
    {
        match source {
            CacheSource::Stored(entry) => Ok((entry, false)),
            CacheSource::Fresh { prepared, traced } => match create_inputs(
                registry,
                &prepared,
                traced,
            ) {
                Ok(inputs) => Ok((CacheEntry { seed: program.name.clone(), inputs }, true)),
                Err(f) => Err(f),
            },
        }
    }
}

/// The inputs that are made name the circuit that they were made for.
pub proof fn created_inputs_name_their_circuits(
    kinds: Seq<CircuitKind>,
    prepared: PreparedExecution,
    traced: Seq<NonMemoryTrace>,
    i: int,
)
    requires
        0 <= i < kinds.len(),
        kinds[i] is AddSubLuiAuipcMop,
    ensures
        created_inputs(kinds, prepared, traced)[i].circuit() == Some(kinds[i]),
{
}

/// Inputs are made exactly where none of the circuits fails, and otherwise the first failure is
/// reported.
pub proof fn creation_fails_with_the_first_failure(
    kinds: Seq<CircuitKind>,
    prepared: PreparedExecution,
    traced: Seq<NonMemoryTrace>,
)
    requires
        traced.len() == kinds.len(),
    ensures
        creation_failure(kinds, prepared, traced) is None <==> (forall|i: int|
            0 <= i < kinds.len() ==> registry::generation_failure(
                kinds[i],
                prepared,
                #[trigger] traced[i],
            ) is None),
        creation_failure(kinds, prepared, traced) is Some ==> exists|i: int|
            0 <= i < kinds.len() && creation_failure(kinds, prepared, traced)
                == registry::generation_failure(kinds[i], prepared, #[trigger] traced[i]) && (
            forall|j: int|
                0 <= j < i ==> registry::generation_failure(
                    kinds[j],
                    prepared,
                    #[trigger] traced[j],
                ) is None),
    decreases kinds.len(),
{
    if kinds.len() > 0 {
        let rest = traced.skip(1);
        creation_fails_with_the_first_failure(kinds.skip(1), prepared, rest);
        let first = registry::generation_failure(kinds[0], prepared, traced[0]);
        if first is Some {
            assert(creation_failure(kinds, prepared, traced) == first);
        } else if creation_failure(kinds, prepared, traced) is None {
            assert forall|i: int| 0 <= i < kinds.len() implies registry::generation_failure(
                kinds[i],
                prepared,
                #[trigger] traced[i],
            ) is None by {
                if i > 0 {
                    assert(rest[i - 1] == traced[i]);
                    assert(kinds.skip(1)[i - 1] == kinds[i]);
                }
            }
        } else {
            let k = choose|i: int|
                0 <= i < kinds.skip(1).len() && creation_failure(kinds.skip(1), prepared, rest)
                    == registry::generation_failure(kinds.skip(1)[i], prepared, #[trigger] rest[i])
                    && (forall|j: int|
                    0 <= j < i ==> registry::generation_failure(
                        kinds.skip(1)[j],
                        prepared,
                        #[trigger] rest[j],
                    ) is None);
            assert(traced[k + 1] == rest[k]);
            assert(kinds[k + 1] == kinds.skip(1)[k]);
            assert forall|j: int| 0 <= j < k + 1 implies registry::generation_failure(
                kinds[j],
                prepared,
                #[trigger] traced[j],
            ) is None by {
                if j > 0 {
                    assert(rest[j - 1] == traced[j]);
                    assert(kinds.skip(1)[j - 1] == kinds[j]);
                }
            }
        }
    }
}

/// The inputs of a circuit hold its trace and compiled form as they were given, under the number of
/// its family, with the tables that belong to that family.
pub proof fn created_inputs_hold_the_trace(
    kinds: Seq<CircuitKind>,
    prepared: PreparedExecution,
    traced: Seq<NonMemoryTrace>,
    i: int,
    t: int,
)
    requires
        0 <= i < kinds.len(),
        0 <= t < prepared.preprocessing_data@.len(),
        prepared.preprocessing_data@[t].family_idx == kinds[i].family(),
        forall|j: int|
            0 <= j < prepared.preprocessing_data@.len() && (
            #[trigger] prepared.preprocessing_data@[j]).family_idx == kinds[i].family() ==> j == t,
    ensures
        created_inputs(kinds, prepared, traced).len() == kinds.len(),
        created_inputs(kinds, prepared, traced)[i] matches StoredProofInputsView::NonMemory(k, p)
            && {
            &&& k == kinds[i]
            &&& p.family_idx == kinds[i].family()
            &&& p.circuit == traced[i].circuit@
            &&& p.buffer == traced[i].buffer@
            &&& p.decoder_table_data == prepared.preprocessing_data@[t].decoder_table_data@
            &&& p.witness_gen_data == prepared.preprocessing_data@[t].witness_gen_data@
        },
{
    proving::tables_are_those_of_the_family(prepared.preprocessing_data@, kinds[i].family());
}

/// An entry that was kept is taken as it is and not written again; a new one is filed under its
/// program, holds one input for each circuit, and is written; and only a new one can fail.
pub proof fn kept_entries_are_taken_over(
    r: Result<(CacheEntry, bool), ProofFailure>,
    program: Seq<char>,
    kinds: Seq<CircuitKind>,
    source: CacheSource,
)
    requires
        is_entry_of(r, program, kinds, source),
    ensures
        source matches CacheSource::Stored(entry) ==> r is Ok && r->Ok_0.0 == entry && !r->Ok_0.1,
        source is Fresh && r is Ok ==> r->Ok_0.1 && r->Ok_0.0.seed@ == program
            && r->Ok_0.0.inputs@.len() == kinds.len(),
        r is Err ==> source is Fresh,
{
    if source is Fresh && r is Ok {
        assert(seeds::input_values(r->Ok_0.0.inputs@).len() == kinds.len());
    }
}

} // verus!
