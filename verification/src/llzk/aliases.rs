//! The variables that carry placeholders.
use vstd::prelude::*;

use crate::circuit::CircuitOutput;
use crate::circuit::Placeholder;
use crate::circuit::ShuffleRamMemQuery;
use crate::circuit::Substitution;
use crate::circuit::Variable;
use crate::llzk::lowering;

verus! {

/// The query whose read value a placeholder stands for, if it stands for one: the read value of
/// one of the first three queries by its number, or the first register, the second register and
/// the prior value of the destination by name.
pub open spec fn aliased_query(placeholder: Placeholder) -> Option<int> {
    match placeholder {
        Placeholder::ShuffleRamReadValue(i) => if i < 3 {
            Some(i as int)
        } else {
            None
        },
        Placeholder::FirstRegMem => Some(0),
        Placeholder::SecondRegMem => Some(1),
        Placeholder::WriteRdReadSetWitness => Some(2),
        Placeholder::WriteRegMemReadWitness => Some(2),
        _ => None,
    }
}

/// The variable that a query provides for a limb of a placeholder.
pub open spec fn alias_of(
    queries: Seq<ShuffleRamMemQuery>,
    placeholder: Placeholder,
    subindex: usize,
) -> Option<Variable> {
    match aliased_query(placeholder) {
        Some(q) => if q < queries.len() && subindex < 2 {
            Some(queries[q].read_value[subindex as int])
        } else {
            None
        },
        None => None,
    }
}

/// A lookup in two lists one after the other.
proof fn lemma_appended(
    a: Seq<Substitution>,
    b: Seq<Substitution>,
    placeholder: Placeholder,
    subindex: usize,
)
    ensures
        lowering::substituted(a + b, placeholder, subindex) == (match lowering::substituted(
            a,
            placeholder,
            subindex,
        ) {
            Some(v) => Some(v),
            None => lowering::substituted(b, placeholder, subindex),
        }),
    decreases a.len(),
{
    if a.len() == 0 {
        assert(a + b =~= b);
    } else {
        assert((a + b).skip(1) =~= a.skip(1) + b);
        lemma_appended(a.skip(1), b, placeholder, subindex);
    }
}

fn find(list: &Vec<Substitution>, placeholder: Placeholder, subindex: usize) -> (r: Option<Variable>)
    ensures
        r == lowering::substituted(list@, placeholder, subindex),
{
    let ghost subs = list@;
    assert(subs.skip(0) =~= subs);
    let mut i: usize = 0;
    while i < list.len()
        invariant
            subs == list@,
            i <= subs.len(),
            lowering::substituted(subs, placeholder, subindex) == lowering::substituted(
                subs.skip(i as int),
                placeholder,
                subindex,
            ),
        decreases subs.len() - i,
    {
        let s = list[i];
        assert(subs.skip(i as int)[0] == s);
        assert(subs.skip(i as int).skip(1) =~= subs.skip(i + 1));
        if s.placeholder == placeholder && s.subindex == subindex {
            return Some(s.variable);
        }
        i = i + 1;
    }
    None
}

/// Adds a substitution, unless there is one for the same limb.
fn insert_if_absent(list: &mut Vec<Substitution>, s: Substitution)
    ensures
        forall|p: Placeholder, i: usize| #[trigger]
            lowering::substituted(final(list)@, p, i) == (if p == s.placeholder && i == s.subindex
                && lowering::substituted(old(list)@, p, i) is None {
                Some(s.variable)
            } else {
                lowering::substituted(old(list)@, p, i)
            }),
{
    let ghost before = list@;
    if find(list, s.placeholder, s.subindex).is_none() {
        list.push(s);
        assert(list@ =~= before + seq![s]);
        assert forall|p: Placeholder, i: usize| #[trigger]
            lowering::substituted(list@, p, i) == (if p == s.placeholder && i == s.subindex
                && lowering::substituted(before, p, i) is None {
                Some(s.variable)
            } else {
                lowering::substituted(before, p, i)
            }) by {
            lemma_appended(before, seq![s], p, i);
            reveal_with_fuel(lowering::substituted, 2);
            assert(seq![s].skip(1) =~= Seq::empty());
        }
    }
}

/// Adds both limbs of a register for a placeholder that has none.
fn insert_register_alias(
    aliases: &mut Vec<Substitution>,
    placeholder: Placeholder,
    register: [Variable; 2],
)
    requires
        forall|i: usize| lowering::substituted(old(aliases)@, placeholder, i) is None,
    ensures
        forall|p: Placeholder, i: usize| #[trigger]
            lowering::substituted(final(aliases)@, p, i) == (if p == placeholder {
                if i < 2 {
                    Some(register[i as int])
                } else {
                    None
                }
            } else {
                lowering::substituted(old(aliases)@, p, i)
            }),
{
    insert_if_absent(
        aliases,
        Substitution { placeholder, subindex: 0, variable: register[0] },
    );
    insert_if_absent(
        aliases,
        Substitution { placeholder, subindex: 1, variable: register[1] },
    );
}

/// The placeholders that stand for the read values of queries.
pub fn derive_shuffle_ram_placeholder_aliases(queries: &Vec<ShuffleRamMemQuery>) -> (r: Vec<
    Substitution,
>)
    ensures
        forall|p: Placeholder, i: usize| #[trigger]
            lowering::substituted(r@, p, i) == alias_of(queries@, p, i),
{
    let mut aliases: Vec<Substitution> = Vec::new();
    if queries.len() > 0 {
        insert_register_alias(
            &mut aliases,
            Placeholder::ShuffleRamReadValue(0),
            queries[0].read_value,
        );
    }
    if queries.len() > 1 {
        insert_register_alias(
            &mut aliases,
            Placeholder::ShuffleRamReadValue(1),
            queries[1].read_value,
        );
    }
    if queries.len() > 2 {
        insert_register_alias(
            &mut aliases,
            Placeholder::ShuffleRamReadValue(2),
            queries[2].read_value,
        );
    }
    if queries.len() > 0 {
        insert_register_alias(&mut aliases, Placeholder::FirstRegMem, queries[0].read_value);
    }
    if queries.len() > 1 {
        insert_register_alias(&mut aliases, Placeholder::SecondRegMem, queries[1].read_value);
    }
    if queries.len() > 2 {
        insert_register_alias(
            &mut aliases,
            Placeholder::WriteRdReadSetWitness,
            queries[2].read_value,
        );
        insert_register_alias(
            &mut aliases,
            Placeholder::WriteRegMemReadWitness,
            queries[2].read_value,
        );
    }
    aliases
}

/// The variable that carries a limb of a placeholder of a circuit: the one that it substitutes, or
/// else the one that a query provides.
pub open spec fn merged_alias(co: CircuitOutput, placeholder: Placeholder, subindex: usize) -> Option<
    Variable,
> {
    match lowering::substituted(co.substitutions@, placeholder, subindex) {
        Some(v) => Some(v),
        None => alias_of(co.shuffle_ram_queries@, placeholder, subindex),
    }
}

/// The substitutions of a circuit, and for limbs that have none the aliases of its queries.
pub fn merge_llzk_placeholder_aliases(circuit_output: &CircuitOutput) -> (r: Vec<Substitution>)
    ensures
        forall|p: Placeholder, i: usize| #[trigger]
            lowering::substituted(r@, p, i) == (match lowering::substituted(
                circuit_output.substitutions@,
                p,
                i,
            ) {
                Some(v) => Some(v),
                None => alias_of(circuit_output.shuffle_ram_queries@, p, i),
            }),
        forall|p: Placeholder, i: usize| #[trigger]
            lowering::substituted(r@, p, i) == merged_alias(*circuit_output, p, i),
{
    let mut merged: Vec<Substitution> = Vec::new();
    for i in 0..circuit_output.substitutions.len()
        invariant
            merged@ == circuit_output.substitutions@.take(i as int),
    {
        merged.push(circuit_output.substitutions[i]);
        assert(merged@ =~= circuit_output.substitutions@.take(i + 1));
    }
    assert(merged@ =~= circuit_output.substitutions@);
    let aliases = derive_shuffle_ram_placeholder_aliases(&circuit_output.shuffle_ram_queries);
    assert(aliases@.take(0) =~= Seq::empty());
    for i in 0..aliases.len()
        invariant
            forall|p: Placeholder, j: usize| #[trigger]
                lowering::substituted(merged@, p, j) == (match lowering::substituted(
                    circuit_output.substitutions@,
                    p,
                    j,
                ) {
                    Some(v) => Some(v),
                    None => lowering::substituted(aliases@.take(i as int), p, j),
                }),
    {
        let s = aliases[i];
        insert_if_absent(&mut merged, s);
        assert(aliases@.take(i + 1) =~= aliases@.take(i as int) + seq![s]);
        assert forall|p: Placeholder, j: usize| #[trigger]
            lowering::substituted(merged@, p, j) == (match lowering::substituted(
                circuit_output.substitutions@,
                p,
                j,
            ) {
                Some(v) => Some(v),
                None => lowering::substituted(aliases@.take(i + 1), p, j),
            }) by {
            lemma_appended(aliases@.take(i as int), seq![s], p, j);
            reveal_with_fuel(lowering::substituted, 2);
            assert(seq![s].skip(1) =~= Seq::empty());
        }
    }
    assert(aliases@.take(aliases@.len() as int) =~= aliases@);
    merged
}

proof fn lemma_first(subs: Seq<Substitution>, k: int, placeholder: Placeholder, subindex: usize)
    requires
        0 <= k < subs.len(),
        subs[k].placeholder == placeholder && subs[k].subindex == subindex,
        forall|j: int|
            0 <= j < k ==> !((#[trigger] subs[j]).placeholder == placeholder && subs[j].subindex
                == subindex),
    ensures
        lowering::substituted(subs, placeholder, subindex) == Some(subs[k].variable),
    decreases k,
{
    if k > 0 {
        lemma_first(subs.skip(1), k - 1, placeholder, subindex);
    }
}

proof fn lemma_no_substitution(subs: Seq<Substitution>, placeholder: Placeholder, subindex: usize)
    requires
        forall|j: int|
            0 <= j < subs.len() ==> !((#[trigger] subs[j]).placeholder == placeholder
                && subs[j].subindex == subindex),
    ensures
        lowering::substituted(subs, placeholder, subindex) is None,
    decreases subs.len(),
{
    if subs.len() > 0 {
        lemma_no_substitution(subs.skip(1), placeholder, subindex);
    }
}

/// A limb that the circuit substitutes is carried by the variable of the first substitution for it,
/// whatever the queries are.
pub proof fn substitutions_take_precedence(co: CircuitOutput, k: int)
    requires
        0 <= k < co.substitutions@.len(),
        forall|j: int|
            0 <= j < k ==> !((#[trigger] co.substitutions@[j]).placeholder
                == co.substitutions@[k].placeholder && co.substitutions@[j].subindex
                == co.substitutions@[k].subindex),
    ensures
        merged_alias(co, co.substitutions@[k].placeholder, co.substitutions@[k].subindex) == Some(
            co.substitutions@[k].variable,
        ),
{
    let s = co.substitutions@[k];
    lemma_first(co.substitutions@, k, s.placeholder, s.subindex);
}

/// Where the circuit substitutes nothing, the registers that an instruction names are carried by what
/// the queries read, limb by limb: the first operand by the first query, the second operand by the
/// second one, and the prior value of the destination by the third.
pub proof fn placeholders_stand_for_what_was_read(co: CircuitOutput, limb: usize)
    requires
        co.substitutions@.len() == 0,
    ensures
        ({
            let q = co.shuffle_ram_queries@;
            &&& q.len() > 0 && limb < 2 ==> merged_alias(co, Placeholder::FirstRegMem, limb)
                == Some(q[0].read_value[limb as int])
            &&& q.len() > 1 && limb < 2 ==> merged_alias(co, Placeholder::SecondRegMem, limb)
                == Some(q[1].read_value[limb as int])
            &&& q.len() > 2 && limb < 2 ==> merged_alias(
                co,
                Placeholder::WriteRdReadSetWitness,
                limb,
            ) == Some(q[2].read_value[limb as int])
            &&& q.len() > 2 && limb < 2 ==> merged_alias(
                co,
                Placeholder::WriteRegMemReadWitness,
                limb,
            ) == Some(q[2].read_value[limb as int])
            &&& forall|i: usize|
                i < 3 && i < q.len() && limb < 2 ==> #[trigger] merged_alias(
                    co,
                    Placeholder::ShuffleRamReadValue(i),
                    limb,
                ) == Some(q[i as int].read_value[limb as int])
        }),
{
}

/// Only what a query reads is carried for a placeholder that the circuit does not substitute: no
/// written value, address or timestamp, no third limb, and nothing of a query that there is not.
pub proof fn other_placeholders_have_no_alias(co: CircuitOutput, p: Placeholder, limb: usize)
    requires
        forall|j: int|
            0 <= j < co.substitutions@.len() ==> !((#[trigger] co.substitutions@[j]).placeholder
                == p && co.substitutions@[j].subindex == limb),
        match p {
            Placeholder::FirstRegMem => limb >= 2 || co.shuffle_ram_queries@.len() < 1,
            Placeholder::SecondRegMem => limb >= 2 || co.shuffle_ram_queries@.len() < 2,
            Placeholder::WriteRdReadSetWitness => limb >= 2 || co.shuffle_ram_queries@.len() < 3,
            Placeholder::WriteRegMemReadWitness => limb >= 2 || co.shuffle_ram_queries@.len() < 3,
            Placeholder::ShuffleRamReadValue(i) => limb >= 2 || i >= 3 || i
                >= co.shuffle_ram_queries@.len(),
            _ => true,
        },
    ensures
        merged_alias(co, p, limb) is None,
{
    lemma_no_substitution(co.substitutions@, p, limb);
}

} // verus!
