//! How the variables of a circuit are represented in an LLZK struct.
use std::collections::HashMap;

use vstd::prelude::*;
use vstd::string::StringExecFns;

use crate::circuit::CircuitOutput;
use crate::circuit::Mersenne31Field;
use crate::circuit::Variable;
use crate::llzk::builder::LlzkError;
use crate::llzk::builder::OpsBuilder;
use crate::llzk::builder::Value;
use crate::llzk::extract::ExtractedVariable;
use crate::llzk::ir;
use crate::llzk::ir::ConstType;
use crate::llzk::ir::Effect;
use crate::llzk::ir::Sym;
use crate::llzk::ir::ValueType;
use crate::text;
use crate::text::push_decimal;

verus! {

/// What the `SpecialCSRProperties` table states about the control registers.
#[derive(Debug)]
pub struct SpecialCsrPropertiesMetadata {
    pub supported_only_indices: Vec<u16>,
    pub delegation_indices: Vec<u16>,
}

/// The registers of the rows with a nonzero delegation column.
pub open spec fn delegation_list(rows: Seq<[Mersenne31Field; 3]>) -> Seq<u16>
    decreases rows.len(),
{
    if rows.len() == 0 {
        Seq::empty()
    } else if rows.last()[2].reduced() != 0 {
        delegation_list(rows.drop_last()).push(rows.last()[0].reduced() as u16)
    } else {
        delegation_list(rows.drop_last())
    }
}

/// The registers of the rows that are supported and no delegation.
pub open spec fn supported_list(rows: Seq<[Mersenne31Field; 3]>) -> Seq<u16>
    decreases rows.len(),
{
    if rows.len() == 0 {
        Seq::empty()
    } else if rows.last()[2].reduced() == 0 && rows.last()[1].reduced() != 0 {
        supported_list(rows.drop_last()).push(rows.last()[0].reduced() as u16)
    } else {
        supported_list(rows.drop_last())
    }
}

/// Whether this is the policy that a finalized table states.
pub open spec fn is_policy_of(
    r: Option<SpecialCsrPropertiesMetadata>,
    table: Option<Seq<[Mersenne31Field; 3]>>,
) -> bool {
    match table {
        None => r is None,
        Some(rows) => {
            &&& r is None <==> supported_list(rows).len() == 0 && delegation_list(rows).len() == 0
            &&& r matches Some(m) ==> {
                &&& m.supported_only_indices@ == supported_list(rows)
                &&& m.delegation_indices@ == delegation_list(rows)
            }
        },
    }
}

/// Whether a row of the table is that of a control register that is delegated.
pub open spec fn is_delegated(row: [Mersenne31Field; 3]) -> bool {
    row[2].0 as int % 0x7fff_ffff != 0
}

/// Whether a row of the table is that of a control register that is supported and not delegated.
pub open spec fn is_supported_only(row: [Mersenne31Field; 3]) -> bool {
    row[1].0 as int % 0x7fff_ffff != 0 && row[2].0 as int % 0x7fff_ffff == 0
}

proof fn lemma_policy_lists(rows: Seq<[Mersenne31Field; 3]>, c: u16)
    ensures
        delegation_list(rows).contains(c) <==> exists|i: int|
            0 <= i < rows.len() && is_delegated(#[trigger] rows[i]) && rows[i][0].reduced() as u16
                == c,
        supported_list(rows).contains(c) <==> exists|i: int|
            0 <= i < rows.len() && is_supported_only(#[trigger] rows[i])
                && rows[i][0].reduced() as u16 == c,
    decreases rows.len(),
{
    if rows.len() > 0 {
        let front = rows.drop_last();
        let last = rows.len() - 1;
        lemma_policy_lists(front, c);
        let d = delegation_list(front);
        let s = supported_list(front);
        let x = rows[last][0].reduced() as u16;
        assert(d.push(x).contains(c) <==> d.contains(c) || x == c) by {
            assert(d.push(x)[d.len() as int] == x);
            if d.contains(c) {
                let i = choose|i: int| 0 <= i < d.len() && d[i] == c;
                assert(d.push(x)[i] == c);
            }
        }
        assert(s.push(x).contains(c) <==> s.contains(c) || x == c) by {
            assert(s.push(x)[s.len() as int] == x);
            if s.contains(c) {
                let i = choose|i: int| 0 <= i < s.len() && s[i] == c;
                assert(s.push(x)[i] == c);
            }
        }
        assert forall|i: int| 0 <= i < front.len() implies #[trigger] front[i] == rows[i] by {}
        if exists|i: int|
            0 <= i < front.len() && is_delegated(#[trigger] front[i]) && front[i][0].reduced() as u16
                == c {
            let i = choose|i: int|
                0 <= i < front.len() && is_delegated(#[trigger] front[i])
                    && front[i][0].reduced() as u16 == c;
            assert(is_delegated(rows[i]));
        }
        if exists|i: int|
            0 <= i < front.len() && is_supported_only(#[trigger] front[i])
                && front[i][0].reduced() as u16 == c {
            let i = choose|i: int|
                0 <= i < front.len() && is_supported_only(#[trigger] front[i])
                    && front[i][0].reduced() as u16 == c;
            assert(is_supported_only(rows[i]));
        }
        if exists|i: int|
            0 <= i < rows.len() && is_delegated(#[trigger] rows[i]) && rows[i][0].reduced() as u16
                == c {
            let i = choose|i: int|
                0 <= i < rows.len() && is_delegated(#[trigger] rows[i])
                    && rows[i][0].reduced() as u16 == c;
            if i < last {
                assert(is_delegated(front[i]));
            }
        }
        if exists|i: int|
            0 <= i < rows.len() && is_supported_only(#[trigger] rows[i])
                && rows[i][0].reduced() as u16 == c {
            let i = choose|i: int|
                0 <= i < rows.len() && is_supported_only(#[trigger] rows[i])
                    && rows[i][0].reduced() as u16 == c;
            if i < last {
                assert(is_supported_only(front[i]));
            }
        }
    }
}

/// The policy lists a control register under delegation exactly where a row of the table says so, and
/// else where a row says that it is supported; and there is a policy exactly where there is a register
/// to list.
pub proof fn policies_list_the_registers_of_the_table(
    r: Option<SpecialCsrPropertiesMetadata>,
    rows: Seq<[Mersenne31Field; 3]>,
    c: u16,
)
    requires
        is_policy_of(r, Some(rows)),
    ensures
        r matches Some(m) ==> (m.delegation_indices@.contains(c) <==> exists|i: int|
            0 <= i < rows.len() && is_delegated(#[trigger] rows[i]) && rows[i][0].reduced() as u16
                == c),
        r matches Some(m) ==> (m.supported_only_indices@.contains(c) <==> exists|i: int|
            0 <= i < rows.len() && is_supported_only(#[trigger] rows[i])
                && rows[i][0].reduced() as u16 == c),
        r is None ==> forall|i: int|
            0 <= i < rows.len() ==> !is_delegated(#[trigger] rows[i]) && !is_supported_only(rows[i]),
{
    lemma_policy_lists(rows, c);
    if r is None {
        assert forall|i: int| 0 <= i < rows.len() implies !is_delegated(#[trigger] rows[i])
            && !is_supported_only(rows[i]) by {
            lemma_policy_lists(rows, rows[i][0].reduced() as u16);
        }
    }
}

impl SpecialCsrPropertiesMetadata {
    /// Recovers the policy from the finalized table. A table without a supported register, or
    /// none, gives nothing.
    pub fn new(circuit_output: &CircuitOutput) -> (r: Option<Self>)
        ensures
            match circuit_output.special_csr_table {
                None => r is None,
                Some(table) => {
                    &&& r is None <==> supported_list(table@).len() == 0 && delegation_list(
                        table@,
                    ).len() == 0
                    &&& r matches Some(m) ==> {
                        &&& m.supported_only_indices@ == supported_list(table@)
                        &&& m.delegation_indices@ == delegation_list(table@)
                    }
                },
            },
            is_policy_of(
                r,
                match circuit_output.special_csr_table {
                    Some(table) => Some(table@),
                    None => None,
                },
            ),
    {
        let table = match &circuit_output.special_csr_table {
            Some(table) => table,
            None => {
                return None;
            },
        };
        let mut supported_only_indices: Vec<u16> = Vec::new();
        let mut delegation_indices: Vec<u16> = Vec::new();
        for i in 0..table.len()
            invariant
                supported_only_indices@ == supported_list(table@.take(i as int)),
                delegation_indices@ == delegation_list(table@.take(i as int)),
        {
            assert(table@.take(i + 1).drop_last() =~= table@.take(i as int));
            assert(table@.take(i + 1).last() == table@[i as int]);
            let row = &table[i];
            let csr_index: u16 = row[0].as_u64_reduced() as u16;
            let is_supported = !row[1].is_zero();
            let is_delegation = !row[2].is_zero();
            if is_delegation {
                delegation_indices.push(csr_index);
            } else if is_supported {
                supported_only_indices.push(csr_index);
            }
        }
        assert(table@.take(table@.len() as int) =~= table@);
        if supported_only_indices.len() == 0 && delegation_indices.len() == 0 {
            None
        } else {
            Some(SpecialCsrPropertiesMetadata { supported_only_indices, delegation_indices })
        }
    }
}

/// A member of a struct.
#[derive(Debug)]
pub struct MemberDef {
    pub name: String,
    pub ty: ValueType,
    pub is_public: bool,
}

/// Collects the arguments and the members of a struct.
#[derive(Debug)]
pub struct StructBuilder {
    pub name: String,
    pub inputs: Vec<ValueType>,
    pub members: Vec<MemberDef>,
}

/// A member as plain values: name, type, visibility.
pub open spec fn member_view(m: MemberDef) -> (Seq<char>, ValueType, bool) {
    (m.name@, m.ty, m.is_public)
}

/// Members as plain values.
pub open spec fn member_views(ms: Seq<MemberDef>) -> Seq<(Seq<char>, ValueType, bool)> {
    ms.map_values(|m: MemberDef| member_view(m))
}

impl StructBuilder {
    /// A struct without arguments and members.
    pub fn new(name: &str) -> (r: Self)
        ensures
            r.name@ == name@,
            r.inputs@ == Seq::<ValueType>::empty(),
            r.members@ == Seq::<MemberDef>::empty(),
    {
        StructBuilder { name: name.to_owned(), inputs: Vec::new(), members: Vec::new() }
    }

    /// Adds an argument.
    pub fn with_input(&mut self, input: ValueType)
        ensures
            final(self).inputs@ == old(self).inputs@.push(input),
            final(self).name == old(self).name,
            final(self).members == old(self).members,
    {
        self.inputs.push(input);
    }

    /// Adds a member.
    pub fn with_member(&mut self, name: String, ty: ValueType, is_public: bool)
        ensures
            member_views(final(self).members@) == member_views(old(self).members@).push(
                (name@, ty, is_public),
            ),
            final(self).name == old(self).name,
            final(self).inputs == old(self).inputs,
    {
        self.members.push(MemberDef { name, ty, is_public });
        assert(member_views(self.members@) =~= member_views(old(self).members@).push(
            (name@, ty, is_public),
        ));
    }

    /// The argument types of the compute function.
    pub fn compute_arguments(&self) -> (r: Vec<ValueType>)
        ensures
            r@ == self.inputs@,
    {
        let mut r: Vec<ValueType> = Vec::new();
        for i in 0..self.inputs.len()
            invariant
                r@ == self.inputs@.take(i as int),
        {
            r.push(self.inputs[i]);
            assert(r@ =~= self.inputs@.take(i + 1));
        }
        assert(r@ =~= self.inputs@);
        r
    }

    /// The argument types of the constrain function, which takes the struct first.
    pub fn constrain_arguments(&self) -> (r: Vec<ValueType>)
        ensures
            r@ == seq![ValueType::Struct] + self.inputs@,
    {
        let mut r: Vec<ValueType> = Vec::new();
        r.push(ValueType::Struct);
        for i in 0..self.inputs.len()
            invariant
                r@ == seq![ValueType::Struct] + self.inputs@.take(i as int),
        {
            r.push(self.inputs[i]);
            assert(r@ =~= seq![ValueType::Struct] + self.inputs@.take(i + 1));
        }
        assert(r@ =~= seq![ValueType::Struct] + self.inputs@);
        r
    }
}

/// The argument, and for a register the limb, that carries an input variable.
#[derive(Clone, Copy, Debug, PartialEq, Eq, Structural)]
pub struct ArgSlot {
    pub arg: usize,
    pub limb: Option<u64>,
}

/// The member, and for a register the limb, that carries a variable.
#[derive(Debug)]
pub struct MemberSlot {
    pub name: String,
    pub limb: Option<u64>,
}

/// The representation of variables in a struct.
pub struct StructVars {
    member_map: HashMap<u64, MemberSlot>,
    arg_map: HashMap<u64, ArgSlot>,
    special_csr_properties: Option<SpecialCsrPropertiesMetadata>,
}

/// The slots of the variables of a list of inputs; of two slots for one variable the later
/// counts.
pub open spec fn arg_slots(inputs: Seq<ExtractedVariable>) -> Map<u64, ArgSlot>
    decreases inputs.len(),
{
    if inputs.len() == 0 {
        Map::empty()
    } else {
        let head = arg_slots(inputs.drop_last());
        let n = (inputs.len() - 1) as usize;
        match inputs.last() {
            ExtractedVariable::Register { low, high } => head.insert(
                low.0,
                (ArgSlot { arg: n, limb: Some(0) }),
            ).insert(high.0, (ArgSlot { arg: n, limb: Some(1) })),
            ExtractedVariable::Scalar(v) => head.insert(v.0, (ArgSlot { arg: n, limb: None })),
        }
    }
}

/// The types of inputs.
pub open spec fn slot_type(x: ExtractedVariable) -> ValueType {
    match x {
        ExtractedVariable::Register { .. } => ValueType::Register,
        ExtractedVariable::Scalar(_) => ValueType::Felt,
    }
}

/// The name of the member of an output or an intermediate.
pub open spec fn member_name(x: ExtractedVariable, is_output: bool) -> Seq<char> {
    match x {
        ExtractedVariable::Register { low, high } => (if is_output {
            "out_reg_"@
        } else {
            "internal_reg_"@
        }) + text::decimal(low.0 as nat) + "_"@ + text::decimal(high.0 as nat),
        ExtractedVariable::Scalar(v) => (if is_output {
            "out_var_"@
        } else {
            "internal_var_"@
        }) + text::decimal(v.0 as nat),
    }
}

/// The prefix of the name of a member.
spec fn name_prefix(x: ExtractedVariable, is_output: bool) -> Seq<char> {
    match (x, is_output) {
        (ExtractedVariable::Register { .. }, true) => "out_reg_"@,
        (ExtractedVariable::Register { .. }, false) => "internal_reg_"@,
        (ExtractedVariable::Scalar(_), true) => "out_var_"@,
        (ExtractedVariable::Scalar(_), false) => "internal_var_"@,
    }
}

/// Different outputs and intermediates have members of different names.
pub proof fn member_names_differ(
    x: ExtractedVariable,
    x_is_output: bool,
    y: ExtractedVariable,
    y_is_output: bool,
)
    requires
        member_name(x, x_is_output) == member_name(y, y_is_output),
    ensures
        x == y,
        x_is_output == y_is_output,
{
    reveal_strlit("out_reg_");
    reveal_strlit("internal_reg_");
    reveal_strlit("out_var_");
    reveal_strlit("internal_var_");
    reveal_strlit("_");
    let a = member_name(x, x_is_output);
    let b = member_name(y, y_is_output);
    assert(a[0] == if x_is_output {
        'o'
    } else {
        'i'
    });
    assert(b[0] == if y_is_output {
        'o'
    } else {
        'i'
    });
    let at: int = if x_is_output {
        4
    } else {
        9
    };
    assert(a[at] == if x is Register {
        'r'
    } else {
        'v'
    });
    assert(b[at] == if y is Register {
        'r'
    } else {
        'v'
    });
    let n = name_prefix(x, x_is_output).len() as int;
    match (x, y) {
        (
            ExtractedVariable::Register { low, high },
            ExtractedVariable::Register { low: other_low, high: other_high },
        ) => {
            let separator = seq!['_'];
            assert("_"@ =~= separator);
            assert(a.skip(n) =~= text::decimal(low.0 as nat) + separator + text::decimal(
                high.0 as nat,
            ));
            assert(b.skip(n) =~= text::decimal(other_low.0 as nat) + separator + text::decimal(
                other_high.0 as nat,
            ));
            text::decimal_pairs_are_injective(
                low.0 as nat,
                high.0 as nat,
                other_low.0 as nat,
                other_high.0 as nat,
            );
        },
        (ExtractedVariable::Scalar(v), ExtractedVariable::Scalar(u)) => {
            assert(a.skip(n) =~= text::decimal(v.0 as nat));
            assert(b.skip(n) =~= text::decimal(u.0 as nat));
            text::decimal_is_injective(v.0 as nat, u.0 as nat);
        },
        _ => {},
    }
}

/// A member slot as plain values.
pub open spec fn slot_view(s: MemberSlot) -> (Seq<char>, Option<u64>) {
    (s.name@, s.limb)
}

/// The slots of a list of outputs or intermediates, added to earlier slots.
pub open spec fn member_slots(
    base: Map<u64, (Seq<char>, Option<u64>)>,
    xs: Seq<ExtractedVariable>,
    is_output: bool,
) -> Map<u64, (Seq<char>, Option<u64>)>
    decreases xs.len(),
{
    if xs.len() == 0 {
        base
    } else {
        let head = member_slots(base, xs.drop_last(), is_output);
        let name = member_name(xs.last(), is_output);
        match xs.last() {
            ExtractedVariable::Register { low, high } => head.insert(
                low.0,
                (name, Some(0u64)),
            ).insert(high.0, (name, Some(1u64))),
            ExtractedVariable::Scalar(v) => head.insert(v.0, (name, None)),
        }
    }
}

/// The members of a list of outputs or intermediates.
pub open spec fn member_defs(xs: Seq<ExtractedVariable>, is_output: bool) -> Seq<
    (Seq<char>, ValueType, bool),
> {
    xs.map_values(
        |x: ExtractedVariable| (member_name(x, is_output), slot_type(x), is_output),
    )
}

fn name_of(x: &ExtractedVariable, is_output: bool) -> (r: String)
    ensures
        r@ == member_name(*x, is_output),
{
    match x {
        ExtractedVariable::Register { low, high } => {
            let mut name = String::from_str(
                if is_output {
                    "out_reg_"
                } else {
                    "internal_reg_"
                },
            );
            push_decimal(&mut name, low.0);
            name.append("_");
            push_decimal(&mut name, high.0);
            name
        },
        ExtractedVariable::Scalar(v) => {
            let mut name = String::from_str(
                if is_output {
                    "out_var_"
                } else {
                    "internal_var_"
                },
            );
            push_decimal(&mut name, v.0);
            name
        },
    }
}

/// The limb of an optional register position.
pub open spec fn limb_type(limb: Option<u64>) -> ValueType {
    match limb {
        None => ValueType::Felt,
        Some(_) => ValueType::Register,
    }
}

/// A value, or a limb of it.
pub open spec fn limb_of(value: Sym, limb: Option<u64>) -> Sym {
    match limb {
        None => value,
        Some(i) => ir::array_read(value, ir::index(i)),
    }
}

/// The term and the new effects of reading something.
pub struct Reading {
    pub sym: Sym,
    pub effects: Seq<Effect>,
}

/// Reading an argument slot, the arguments of the circuit starting at `offset`.
pub open spec fn read_arg(slot: ArgSlot, args: Seq<ValueType>, offset: int) -> Result<
    Reading,
    LlzkError,
> {
    if slot.arg + offset >= args.len() {
        Err(LlzkError::ArgumentOutOfRange)
    } else {
        match slot.limb {
            None => Ok((Reading { sym: Sym::Arg((slot.arg + offset) as usize), effects: Seq::empty() })),
            Some(i) => if i > i64::MAX {
                Err(LlzkError::ConstantOutOfRange)
            } else if args[slot.arg + offset] != ValueType::Register {
                Err(LlzkError::NotAnArray)
            } else {
                Ok(
                    (Reading {
                        sym: limb_of(Sym::Arg((slot.arg + offset) as usize), slot.limb),
                        effects: Seq::empty(),
                    }),
                )
            },
        }
    }
}

/// Reading a member slot of a struct, `k` effects having gone before.
pub open spec fn read_member(slot: (Seq<char>, Option<u64>), component: Sym, k: nat) -> Result<
    Reading,
    LlzkError,
> {
    if slot.1 is Some && slot.1->0 > i64::MAX {
        Err(LlzkError::ConstantOutOfRange)
    } else {
        Ok(
            (Reading {
                sym: limb_of(Sym::Result(k, 0), slot.1),
                effects: seq![Effect::MemberRead(component, slot.0, limb_type(slot.1))],
            }),
        )
    }
}

/// Reading a variable in the constrain function, whose arguments follow the struct.
pub open spec fn constrain_reading(
    args_map: Map<u64, ArgSlot>,
    members: Map<u64, (Seq<char>, Option<u64>)>,
    args: Seq<ValueType>,
    var: Variable,
    k: nat,
) -> Result<Option<Reading>, LlzkError> {
    if args_map.contains_key(var.0) {
        match read_arg(args_map[var.0], args, 1) {
            Ok(r) => Ok(Some(r)),
            Err(e) => Err(e),
        }
    } else if args.len() == 0 {
        Err(LlzkError::ArgumentOutOfRange)
    } else if members.contains_key(var.0) {
        match read_member(members[var.0], Sym::Arg(0), k) {
            Ok(r) => Ok(Some(r)),
            Err(e) => Err(e),
        }
    } else {
        Ok(None)
    }
}

/// Reading a variable in the compute function: its arguments, then the members written so far.
pub open spec fn compute_reading(
    args_map: Map<u64, ArgSlot>,
    members: Map<u64, (Seq<char>, Option<u64>)>,
    args: Seq<ValueType>,
    component: Sym,
    var: Variable,
    k: nat,
) -> Result<Option<Reading>, LlzkError> {
    if args_map.contains_key(var.0) {
        match read_arg(args_map[var.0], args, 0) {
            Ok(r) => Ok(Some(r)),
            Err(e) => Err(e),
        }
    } else if members.contains_key(var.0) {
        match read_member(members[var.0], component, k) {
            Ok(r) => Ok(Some(r)),
            Err(e) => Err(e),
        }
    } else {
        Ok(None)
    }
}

/// A reading that must exist.
pub open spec fn required(r: Result<Option<Reading>, LlzkError>, missing: LlzkError) -> Result<
    Reading,
    LlzkError,
> {
    match r {
        Ok(Some(r)) => Ok(r),
        Ok(None) => Err(missing),
        Err(e) => Err(e),
    }
}

/// The effects of assigning a member slot.
pub open spec fn assign_effects(
    slot: (Seq<char>, Option<u64>),
    component: Sym,
    value: Sym,
    k: nat,
) -> Seq<Effect> {
    match slot.1 {
        None => seq![Effect::MemberWrite(component, slot.0, value)],
        Some(i) => seq![
            Effect::MemberRead(component, slot.0, ValueType::Register),
            Effect::ArrayWrite(Sym::Result(k, 0), ir::index(i), value),
            Effect::MemberWrite(component, slot.0, Sym::Result(k, 0)),
        ],
    }
}

/// Whether scalar slots have field arguments, the arguments of the circuit starting at `offset`.
pub open spec fn scalars_are_felts(
    args_map: Map<u64, ArgSlot>,
    args: Seq<ValueType>,
    offset: int,
) -> bool {
    forall|v: u64| #[trigger]
        args_map.contains_key(v) && args_map[v].limb is None && args_map[v].arg + offset
            < args.len() ==> args[args_map[v].arg + offset] == ValueType::Felt
}

/// Whether a value of a body is the outcome of a reading that may find nothing.
pub open spec fn is_reading(
    before: OpsBuilder,
    after: OpsBuilder,
    r: Result<Option<Value>, LlzkError>,
    expected: Result<Option<Reading>, LlzkError>,
) -> bool {
    &&& after.continues(before)
    &&& match (r, expected) {
        (Ok(None), Ok(None)) => after.effects() == before.effects(),
        (Ok(Some(v)), Ok(Some(reading))) => {
            &&& after.has(v)
            &&& v.sym@ == reading.sym
            &&& after.effects() == before.effects() + reading.effects
        },
        (Err(e), Err(expected_error)) => e == expected_error,
        _ => false,
    }
}

/// Whether a value of a body is the outcome of a reading.
pub open spec fn is_required_reading(
    before: OpsBuilder,
    after: OpsBuilder,
    r: Result<Value, LlzkError>,
    expected: Result<Reading, LlzkError>,
) -> bool {
    &&& after.continues(before)
    &&& match (r, expected) {
        (Ok(v), Ok(reading)) => {
            &&& after.has(v)
            &&& v.sym@ == reading.sym
            &&& after.effects() == before.effects() + reading.effects
        },
        (Err(e), Err(expected_error)) => e == expected_error,
        _ => false,
    }
}

/// Which variables are arguments and which are members.
pub struct VarMaps {
    pub args_map: Map<u64, ArgSlot>,
    pub members: Map<u64, (Seq<char>, Option<u64>)>,
}

impl StructVars {
    /// Which variables are arguments and which are members.
    pub open spec fn maps(self) -> VarMaps {
        VarMaps { args_map: self.args_map(), members: self.members() }
    }

    /// The arguments that carry input variables.
    pub closed spec fn args_map(self) -> Map<u64, ArgSlot> {
        self.arg_map@
    }

    /// The members that carry variables.
    pub closed spec fn members(self) -> Map<u64, (Seq<char>, Option<u64>)> {
        self.member_map@.map_values(|s: MemberSlot| slot_view(s))
    }

    /// The policy for special control registers.
    pub closed spec fn csr_policy(self) -> Option<SpecialCsrPropertiesMetadata> {
        self.special_csr_properties
    }

    /// Gives every input an argument, and every output and intermediate a member.
    pub fn new(
        co: &CircuitOutput,
        inputs: &Vec<ExtractedVariable>,
        outputs: &Vec<ExtractedVariable>,
        intermediates: &Vec<ExtractedVariable>,
        struct_builder: &mut StructBuilder,
    ) -> (r: Self)
        ensures
            r.args_map() == arg_slots(inputs@),
            r.members() == member_slots(
                member_slots(Map::empty(), outputs@, true),
                intermediates@,
                false,
            ),
            match co.special_csr_table {
                None => r.csr_policy() is None,
                Some(table) => {
                    &&& r.csr_policy() is None <==> supported_list(table@).len() == 0
                        && delegation_list(table@).len() == 0
                    &&& r.csr_policy() matches Some(m) ==> {
                        &&& m.supported_only_indices@ == supported_list(table@)
                        &&& m.delegation_indices@ == delegation_list(table@)
                    }
                },
            },
            final(struct_builder).name == old(struct_builder).name,
            final(struct_builder).inputs@ == old(struct_builder).inputs@ + inputs@.map_values(
                |x: ExtractedVariable| slot_type(x),
            ),
            member_views(final(struct_builder).members@) == member_views(
                old(struct_builder).members@,
            ) + member_defs(outputs@, true) + member_defs(intermediates@, false),
    {
        let special_csr_properties = SpecialCsrPropertiesMetadata::new(co);
        let mut arg_map: HashMap<u64, ArgSlot> = HashMap::new();
        let ghost types = inputs@.map_values(|x: ExtractedVariable| slot_type(x));
        assert(inputs@.take(0) =~= Seq::empty());
        assert(old(struct_builder).inputs@ + types.take(0) =~= old(struct_builder).inputs@);
        for i in 0..inputs.len()
            invariant
                types == inputs@.map_values(|x: ExtractedVariable| slot_type(x)),
                arg_map@ == arg_slots(inputs@.take(i as int)),
                struct_builder.name == old(struct_builder).name,
                struct_builder.members == old(struct_builder).members,
                struct_builder.inputs@ == old(struct_builder).inputs@ + types.take(i as int),
        {
            assert(inputs@.take(i + 1).drop_last() =~= inputs@.take(i as int));
            assert(inputs@.take(i + 1).last() == inputs@[i as int]);
            match &inputs[i] {
                ExtractedVariable::Register { low, high } => {
                    arg_map.insert(low.0, ArgSlot { arg: i, limb: Some(0) });
                    arg_map.insert(high.0, ArgSlot { arg: i, limb: Some(1) });
                    struct_builder.with_input(ValueType::Register);
                },
                ExtractedVariable::Scalar(v) => {
                    arg_map.insert(v.0, ArgSlot { arg: i, limb: None });
                    struct_builder.with_input(ValueType::Felt);
                },
            }
            assert(struct_builder.inputs@ =~= old(struct_builder).inputs@ + types.take(i + 1));
        }
        assert(inputs@.take(inputs@.len() as int) =~= inputs@);
        assert(types.take(inputs@.len() as int) =~= types);

        let mut member_map: HashMap<u64, MemberSlot> = HashMap::new();
        let ghost start = member_views(struct_builder.members@);
        assert(member_map@.map_values(|s: MemberSlot| slot_view(s)) =~= Map::empty());
        add_members(&mut member_map, outputs, true, struct_builder);
        add_members(&mut member_map, intermediates, false, struct_builder);
        StructVars { member_map, arg_map, special_csr_properties }
    }

    /// Direct construction from given slots.
    pub fn from_maps(
        member_map: HashMap<u64, MemberSlot>,
        arg_map: HashMap<u64, ArgSlot>,
        special_csr_properties: Option<SpecialCsrPropertiesMetadata>,
    ) -> (r: Self)
        ensures
            r.args_map() == arg_map@,
            r.members() == member_map@.map_values(|s: MemberSlot| slot_view(s)),
            r.csr_policy() == special_csr_properties,
    {
        StructVars { member_map, arg_map, special_csr_properties }
    }

    /// Whether a variable is an argument of the compute function.
    pub fn has_compute_input(&self, var: &Variable) -> (r: bool)
        ensures
            r == self.args_map().contains_key(var.0),
    {
        self.arg_map.contains_key(&var.0)
    }

    /// Whether a variable is a member.
    pub fn has_member(&self, var: &Variable) -> (r: bool)
        ensures
            r == self.members().contains_key(var.0),
    {
        self.member_map.contains_key(&var.0)
    }

    /// Whether a variable is an argument of the compute function or a member.
    pub fn is_compute_exposed(&self, var: &Variable) -> (r: bool)
        ensures
            r == (self.args_map().contains_key(var.0) || self.members().contains_key(var.0)),
    {
        self.has_compute_input(var) || self.has_member(var)
    }

    /// The policy for special control registers.
    pub fn special_csr_properties(&self) -> (r: Option<&SpecialCsrPropertiesMetadata>)
        ensures
            match r {
                Some(m) => self.csr_policy() == Some(*m),
                None => self.csr_policy() is None,
            },
    {
        match &self.special_csr_properties {
            Some(m) => Some(m),
            None => None,
        }
    }

    fn read_limb(builder: &mut OpsBuilder, value: Value, limb: Option<u64>) -> (r: Result<
        Value,
        LlzkError,
    >)
        requires
            old(builder).has(value),
        ensures
            final(builder).purely_continues(*old(builder)),
            match r {
                Ok(v) => {
                    &&& final(builder).has(v)
                    &&& v.sym@ == limb_of(value.sym@, limb)
                    &&& v.ty == (if limb is None {
                        value.ty
                    } else {
                        ValueType::Felt
                    })
                    &&& limb matches Some(i) ==> i <= i64::MAX && value.ty == ValueType::Register
                },
                Err(e) => limb matches Some(i) && (if i > i64::MAX {
                    e == LlzkError::ConstantOutOfRange
                } else {
                    value.ty != ValueType::Register && e == LlzkError::NotAnArray
                }),
            },
    {
        match limb {
            None => Ok(value),
            Some(i) => {
                let position = builder.get_constant_from_start(ConstType::Index, i)?;
                builder.append_array_read(value, position)
            },
        }
    }

    fn get_input_val_at_offset(
        &self,
        builder: &mut OpsBuilder,
        var: &Variable,
        offset: usize,
    ) -> (r: Result<Option<Value>, LlzkError>)
        requires
            offset <= 1,
        ensures
            is_reading(
                *old(builder),
                *final(builder),
                r,
                if self.args_map().contains_key(var.0) {
                    match read_arg(
                        self.args_map()[var.0],
                        old(builder).arguments(),
                        offset as int,
                    ) {
                        Ok(x) => Ok(Some(x)),
                        Err(e) => Err(e),
                    }
                } else {
                    Ok(None)
                },
            ),
            scalars_are_felts(self.args_map(), old(builder).arguments(), offset as int)
                ==> (r matches Ok(Some(v)) ==> v.ty == ValueType::Felt),
    {
        match self.arg_map.get(&var.0) {
            None => Ok(None),
            Some(slot) => {
                if slot.arg >= builder.argument_count() {
                    return Err(LlzkError::ArgumentOutOfRange);
                }
                let arg_val = builder.get_arg_value(slot.arg + offset)?;
                let val = Self::read_limb(builder, arg_val, slot.limb)?;
                assert(builder.effects() =~= old(builder).effects() + Seq::<Effect>::empty());
                Ok(Some(val))
            },
        }
    }

    fn get_member_val_from(&self, builder: &mut OpsBuilder, self_val: Value, var: &Variable) -> (r:
        Result<Option<Value>, LlzkError>)
        requires
            old(builder).has(self_val),
        ensures
            is_reading(
                *old(builder),
                *final(builder),
                r,
                if self.members().contains_key(var.0) {
                    match read_member(
                        self.members()[var.0],
                        self_val.sym@,
                        old(builder).effects().len(),
                    ) {
                        Ok(x) => Ok(Some(x)),
                        Err(e) => Err(e),
                    }
                } else {
                    Ok(None)
                },
            ),
            r matches Ok(Some(v)) ==> v.ty == ValueType::Felt,
    {
        match self.member_map.get(&var.0) {
            None => Ok(None),
            Some(slot) => {
                let member_ty = match slot.limb {
                    None => ValueType::Felt,
                    Some(_) => ValueType::Register,
                };
                let member_val = builder.append_member_read(self_val, member_ty, &slot.name);
                let ghost one = Effect::MemberRead(self_val.sym@, slot.name@, member_ty);
                let val = Self::read_limb(builder, member_val, slot.limb)?;
                assert(old(builder).effects().push(one) =~= old(builder).effects() + seq![one]);
                Ok(Some(val))
            },
        }
    }

    /// Reads a variable in the constrain function, if it is there.
    pub fn try_get_constrain_val(&self, builder: &mut OpsBuilder, var: &Variable) -> (r: Result<
        Option<Value>,
        LlzkError,
    >)
        ensures
            is_reading(
                *old(builder),
                *final(builder),
                r,
                constrain_reading(
                    self.args_map(),
                    self.members(),
                    old(builder).arguments(),
                    *var,
                    old(builder).effects().len(),
                ),
            ),
            scalars_are_felts(self.args_map(), old(builder).arguments(), 1) ==> (r matches Ok(
                Some(v),
            ) ==> v.ty == ValueType::Felt),
    {
        let input = self.get_input_val_at_offset(builder, var, 1)?;
        match input {
            Some(val) => Ok(Some(val)),
            None => {
                let self_val = builder.get_arg_value(0)?;
                self.get_member_val_from(builder, self_val, var)
            },
        }
    }

    /// Reads a variable in the constrain function.
    pub fn get_constrain_val(&self, builder: &mut OpsBuilder, var: &Variable) -> (r: Result<
        Value,
        LlzkError,
    >)
        ensures
            is_required_reading(
                *old(builder),
                *final(builder),
                r,
                required(
                    constrain_reading(
                        self.args_map(),
                        self.members(),
                        old(builder).arguments(),
                        *var,
                        old(builder).effects().len(),
                    ),
                    LlzkError::NotInConstrain,
                ),
            ),
            scalars_are_felts(self.args_map(), old(builder).arguments(), 1) ==> (r matches Ok(v)
                ==> v.ty == ValueType::Felt),
    {
        match self.try_get_constrain_val(builder, var)? {
            Some(v) => Ok(v),
            None => Err(LlzkError::NotInConstrain),
        }
    }

    /// Reads a variable from the arguments of the compute function, if it is there.
    pub fn try_get_compute_input_val(&self, builder: &mut OpsBuilder, var: &Variable) -> (r:
        Result<Option<Value>, LlzkError>)
        ensures
            is_reading(
                *old(builder),
                *final(builder),
                r,
                if self.args_map().contains_key(var.0) {
                    match read_arg(self.args_map()[var.0], old(builder).arguments(), 0) {
                        Ok(x) => Ok(Some(x)),
                        Err(e) => Err(e),
                    }
                } else {
                    Ok(None)
                },
            ),
            scalars_are_felts(self.args_map(), old(builder).arguments(), 0) ==> (r matches Ok(
                Some(v),
            ) ==> v.ty == ValueType::Felt),
    {
        self.get_input_val_at_offset(builder, var, 0)
    }

    /// Reads a variable in the compute function, if it is there.
    pub fn try_get_compute_val(&self, builder: &mut OpsBuilder, self_value: Value, var: &Variable)
        -> (r: Result<Option<Value>, LlzkError>)
        requires
            old(builder).has(self_value),
        ensures
            is_reading(
                *old(builder),
                *final(builder),
                r,
                compute_reading(
                    self.args_map(),
                    self.members(),
                    old(builder).arguments(),
                    self_value.sym@,
                    *var,
                    old(builder).effects().len(),
                ),
            ),
            scalars_are_felts(self.args_map(), old(builder).arguments(), 0) ==> (r matches Ok(
                Some(v),
            ) ==> v.ty == ValueType::Felt),
    {
        let input = self.try_get_compute_input_val(builder, var)?;
        match input {
            Some(val) => Ok(Some(val)),
            None => self.get_member_val_from(builder, self_value, var),
        }
    }

    /// Reads a variable in the compute function.
    pub fn get_compute_val(&self, builder: &mut OpsBuilder, self_value: Value, var: &Variable) -> (r:
        Result<Value, LlzkError>)
        requires
            old(builder).has(self_value),
        ensures
            is_required_reading(
                *old(builder),
                *final(builder),
                r,
                required(
                    compute_reading(
                        self.args_map(),
                        self.members(),
                        old(builder).arguments(),
                        self_value.sym@,
                        *var,
                        old(builder).effects().len(),
                    ),
                    LlzkError::NotInCompute,
                ),
            ),
            scalars_are_felts(self.args_map(), old(builder).arguments(), 0) ==> (r matches Ok(v)
                ==> v.ty == ValueType::Felt),
    {
        match self.try_get_compute_val(builder, self_value, var)? {
            Some(v) => Ok(v),
            None => Err(LlzkError::NotInCompute),
        }
    }

    /// Assigns a variable by writing the member that carries it: a scalar member directly, a
    /// limb by updating its register.
    pub fn assign_compute_member(
        &self,
        builder: &mut OpsBuilder,
        self_value: Value,
        var: &Variable,
        value: Value,
    ) -> (r: Result<(), LlzkError>)
        requires
            old(builder).has(self_value),
            old(builder).has(value),
        ensures
            final(builder).continues(*old(builder)),
            match r {
                Ok(_) => {
                    &&& self.members().contains_key(var.0)
                    &&& self.members()[var.0].1 matches Some(i) ==> i <= i64::MAX
                    &&& final(builder).effects() == old(builder).effects() + assign_effects(
                        self.members()[var.0],
                        self_value.sym@,
                        value.sym@,
                        old(builder).effects().len(),
                    )
                },
                Err(e) => if self.members().contains_key(var.0) {
                    &&& self.members()[var.0].1 matches Some(i) && i > i64::MAX
                    &&& e == LlzkError::ConstantOutOfRange
                } else {
                    e == LlzkError::NotAMember
                },
            },
    {
        let ghost before = builder.effects();
        match self.member_map.get(&var.0) {
            None => Err(LlzkError::NotAMember),
            Some(slot) => {
                match slot.limb {
                    None => {
                        builder.append_member_write(self_value, &slot.name, value);
                    },
                    Some(i) => {
                        let register = builder.append_member_read(
                            self_value,
                            ValueType::Register,
                            &slot.name,
                        );
                        let position = builder.get_constant_from_start(ConstType::Index, i)?;
                        builder.append_array_write(register, position, value);
                        builder.append_member_write(self_value, &slot.name, register);
                    },
                }
                assert(builder.effects() =~= before + assign_effects(
                    slot_view(*slot),
                    self_value.sym@,
                    value.sym@,
                    before.len(),
                ));
                Ok(())
            },
        }
    }
}

fn add_members(
    member_map: &mut HashMap<u64, MemberSlot>,
    xs: &Vec<ExtractedVariable>,
    is_output: bool,
    struct_builder: &mut StructBuilder,
)
    ensures
        final(member_map)@.map_values(|s: MemberSlot| slot_view(s)) == member_slots(
            old(member_map)@.map_values(|s: MemberSlot| slot_view(s)),
            xs@,
            is_output,
        ),
        final(struct_builder).name == old(struct_builder).name,
        final(struct_builder).inputs == old(struct_builder).inputs,
        member_views(final(struct_builder).members@) == member_views(old(struct_builder).members@)
            + member_defs(xs@, is_output),
{
    let ghost view = |s: MemberSlot| slot_view(s);
    let ghost base = member_map@.map_values(view);
    let ghost defs = member_defs(xs@, is_output);
    let ghost start = member_views(struct_builder.members@);
    assert(xs@.take(0) =~= Seq::empty());
    assert(start + defs.take(0) =~= start);
    for i in 0..xs.len()
        invariant
            view == (|s: MemberSlot| slot_view(s)),
            defs == member_defs(xs@, is_output),
            member_map@.map_values(view) == member_slots(base, xs@.take(i as int), is_output),
            struct_builder.name == old(struct_builder).name,
            struct_builder.inputs == old(struct_builder).inputs,
            member_views(struct_builder.members@) == start + defs.take(i as int),
    {
        assert(xs@.take(i + 1).drop_last() =~= xs@.take(i as int));
        assert(xs@.take(i + 1).last() == xs@[i as int]);
        let ghost before = member_map@;
        let name = name_of(&xs[i], is_output);
        match &xs[i] {
            ExtractedVariable::Register { low, high } => {
                let first = MemberSlot { name: name.clone(), limb: Some(0) };
                let second = MemberSlot { name: name.clone(), limb: Some(1) };
                member_map.insert(low.0, first);
                member_map.insert(high.0, second);
                assert(member_map@.map_values(view) =~= before.map_values(view).insert(
                    low.0,
                    (name@, Some(0u64)),
                ).insert(high.0, (name@, Some(1u64))));
                struct_builder.with_member(name, ValueType::Register, is_output);
            },
            ExtractedVariable::Scalar(v) => {
                let slot = MemberSlot { name: name.clone(), limb: None };
                member_map.insert(v.0, slot);
                assert(member_map@.map_values(view) =~= before.map_values(view).insert(
                    v.0,
                    (name@, None::<u64>),
                ));
                struct_builder.with_member(name, ValueType::Felt, is_output);
            },
        }
        assert(member_views(struct_builder.members@) =~= start + defs.take(i + 1));
    }
    assert(xs@.take(xs@.len() as int) =~= xs@);
    assert(defs.take(xs@.len() as int) =~= defs);
}

} // verus!
