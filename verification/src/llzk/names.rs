//! Names for the values of a module.
use vstd::prelude::*;

use crate::text;
use crate::text::push_decimal;

verus! {

/// The names that values were given. A value is known by its number.
#[derive(Debug)]
pub struct NameState {
    names: Vec<(u64, String)>,
}

/// The name that a value was given.
pub open spec fn name_of(names: Seq<(u64, Seq<char>)>, key: u64) -> Option<Seq<char>>
    decreases names.len(),
{
    if names.len() == 0 {
        None
    } else if names[0].0 == key {
        Some(names[0].1)
    } else {
        name_of(names.skip(1), key)
    }
}

/// The name that a new value is given: the prefix and the number of values so far.
pub open spec fn fresh_name(names: Seq<(u64, Seq<char>)>, prefix: Seq<char>) -> Seq<char> {
    prefix + text::decimal(names.len())
}

/// The names after a value was asked for.
pub open spec fn names_after(
    names: Seq<(u64, Seq<char>)>,
    key: u64,
    prefix: Seq<char>,
) -> Seq<(u64, Seq<char>)> {
    if name_of(names, key) is Some {
        names
    } else {
        names.push((key, fresh_name(names, prefix)))
    }
}

impl View for NameState {
    type V = Seq<(u64, Seq<char>)>;

    closed spec fn view(&self) -> Seq<(u64, Seq<char>)> {
        self.names@.map_values(|n: (u64, String)| (n.0, n.1@))
    }
}

impl NameState {
    /// No names.
    pub fn new() -> (r: NameState)
        ensures
            r@ == Seq::<(u64, Seq<char>)>::empty(),
    {
        let r = NameState { names: Vec::new() };
        assert(r@ =~= Seq::<(u64, Seq<char>)>::empty());
        r
    }

    /// The name of a value, which is given one where it has none.
    pub fn get(&mut self, key: u64, prefix: &str) -> (r: String)
        ensures
            r@ == (match name_of(old(self)@, key) {
                Some(name) => name,
                None => fresh_name(old(self)@, prefix@),
            }),
            final(self)@ == names_after(old(self)@, key, prefix@),
    {
        let ghost all = self@;
        assert(all.skip(0) =~= all);
        for i in 0..self.names.len()
            invariant
                *self == *old(self),
                all == self@,
                name_of(all, key) == name_of(all.skip(i as int), key),
        {
            assert(all.skip(i as int)[0] == (self.names@[i as int].0, self.names@[i as int].1@));
            assert(all.skip(i as int).skip(1) =~= all.skip(i + 1));
            if self.names[i].0 == key {
                return self.names[i].1.clone();
            }
        }
        let mut name = prefix.to_owned();
        push_decimal(&mut name, self.names.len() as u64);
        self.names.push((key, name.clone()));
        assert(self@ =~= all.push((key, name@)));
        name
    }
}

/// Whether every name is a prefix with the number of names before it, under one prefix.
pub open spec fn numbered(names: Seq<(u64, Seq<char>)>, prefix: Seq<char>) -> bool {
    forall|i: int|
        0 <= i < names.len() ==> (#[trigger] names[i]).1 == prefix + text::decimal(i as nat)
}

/// Asking twice for a value gives the same name and changes nothing more.
pub proof fn names_are_kept(
    names: Seq<(u64, Seq<char>)>,
    key: u64,
    prefix: Seq<char>,
    other: Seq<char>,
)
    ensures
        name_of(names_after(names, key, prefix), key) is Some,
        names_after(names_after(names, key, prefix), key, other) == names_after(
            names,
            key,
            prefix,
        ),
{
    lemma_found(names, key, (key, fresh_name(names, prefix)));
}

proof fn lemma_found(names: Seq<(u64, Seq<char>)>, key: u64, item: (u64, Seq<char>))
    requires
        item.0 == key,
    ensures
        name_of(names.push(item), key) is Some,
    decreases names.len(),
{
    if names.len() > 0 {
        assert(names.push(item).skip(1) =~= names.skip(1).push(item));
        lemma_found(names.skip(1), key, item);
    }
}

/// Under one prefix names stay numbered, and two places never have the same name.
pub proof fn names_differ(
    names: Seq<(u64, Seq<char>)>,
    key: u64,
    prefix: Seq<char>,
    i: int,
    j: int,
)
    requires
        numbered(names, prefix),
        0 <= i < j < names_after(names, key, prefix).len(),
    ensures
        numbered(names_after(names, key, prefix), prefix),
        names_after(names, key, prefix)[i].1 != names_after(names, key, prefix)[j].1,
{
    let after = names_after(names, key, prefix);
    assert(after[i].1 == prefix + text::decimal(i as nat));
    assert(after[j].1 == prefix + text::decimal(j as nat));
    if after[i].1 == after[j].1 {
        let n = prefix.len() as int;
        assert(after[i].1.skip(n) =~= text::decimal(i as nat));
        assert(after[j].1.skip(n) =~= text::decimal(j as nat));
        text::decimal_is_injective(i as nat, j as nat);
    }
}

proof fn lemma_others_keep_their_name(
    names: Seq<(u64, Seq<char>)>,
    item: (u64, Seq<char>),
    key: u64,
)
    ensures
        name_of(names, key) is Some || item.0 != key ==> name_of(names.push(item), key) == name_of(
            names,
            key,
        ),
        name_of(names, key) is None && item.0 == key ==> name_of(names.push(item), key) == Some(
            item.1,
        ),
    decreases names.len(),
{
    if names.len() > 0 {
        assert(names.push(item).skip(1) =~= names.skip(1).push(item));
        lemma_others_keep_their_name(names.skip(1), item, key);
    } else {
        assert(names.push(item).skip(1) =~= Seq::empty());
        reveal_with_fuel(name_of, 2);
    }
}

/// Naming a value names it, with the prefix in front of its number, and leaves every name that was
/// given before.
pub proof fn naming_keeps_the_other_names(
    names: Seq<(u64, Seq<char>)>,
    key: u64,
    prefix: Seq<char>,
    other: u64,
)
    ensures
        name_of(names, key) is None ==> name_of(names_after(names, key, prefix), key) == Some(
            prefix + text::decimal(names.len()),
        ),
        name_of(names, other) is Some ==> name_of(names_after(names, key, prefix), other)
            == name_of(names, other),
        other != key ==> name_of(names_after(names, key, prefix), other) == name_of(names, other),
{
    lemma_others_keep_their_name(names, (key, fresh_name(names, prefix)), key);
    lemma_others_keep_their_name(names, (key, fresh_name(names, prefix)), other);
}

} // verus!
