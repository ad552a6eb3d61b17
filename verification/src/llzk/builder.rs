//! Building function bodies.
use vstd::prelude::*;

use crate::llzk::ir;
use crate::llzk::ir::BoolBinary;
use crate::llzk::ir::Comparison;
use crate::llzk::ir::ConstType;
use crate::llzk::ir::Effect;
use crate::llzk::ir::FeltBinary;
use crate::llzk::ir::FeltUnary;
use crate::llzk::ir::Op;
use crate::llzk::ir::Sym;
use crate::llzk::ir::ValueRef;
use crate::llzk::ir::ValueType;

verus! {

/// Why a circuit could not be lowered.
#[derive(Clone, Copy, Debug, PartialEq, Eq, Structural)]
pub enum LlzkError {
    /// The function has no argument with the requested position.
    ArgumentOutOfRange,
    /// The function does not construct a struct.
    NotACompute,
    /// An integer constant does not fit in a signed 64-bit attribute.
    ConstantOutOfRange,
    /// An element was requested of a value that is no array.
    NotAnArray,
    /// Two values of different types were compared.
    TypeMismatch,
    /// Values of this type cannot be compared.
    UnsupportedPredicate,
    /// A fold over no values.
    EmptyFold,
    /// The circuit has no executor machine state.
    MissingExecutorState,
    /// A layout needs a witness program and has none.
    MissingWitness,
    /// A variable is neither a constrain argument nor a member.
    NotInConstrain,
    /// A variable is neither a compute argument nor a member.
    NotInCompute,
    /// A variable is not stored as a struct member.
    NotAMember,
    /// A variable is not exposed to the compute function.
    NotExposed,
    /// A setup column was written.
    SetupColumnWritten,
    /// A placeholder has a low limb and no high limb.
    MissingHighLimb,
    /// A placeholder has one limb among the compute arguments and not the other.
    PartiallyExposed,
    /// Operands of different widths.
    WidthMismatch,
    /// A value slot that does not exist.
    SlotOutOfBounds,
    /// A value slot that holds no scalar, boolean, integer or lookup tuple as requested.
    WrongSlotKind,
    /// A lookup output that does not exist.
    LookupOutputOutOfBounds,
    /// A lookup mapping that does not exist.
    LookupMappingOutOfBounds,
    /// A lookup addresses another table than its mapping states.
    LookupTableMismatch,
    /// A lookup with the wrong number of inputs.
    WrongInputCount,
    /// A lookup output that was not rewritten into an access.
    LookupNotRewritten,
    /// An integer operation without a lowering.
    UnsupportedInteger,
}

/// A value of a function body.
#[derive(Clone, Copy)]
pub struct Value {
    pub id: ValueRef,
    pub ty: ValueType,
    pub sym: Ghost<Sym>,
}

/// Which function of a struct a body belongs to.
#[derive(Clone, Copy, Debug, PartialEq, Eq, Structural)]
pub enum FunctionKind {
    Compute,
    Constrain,
}

/// Appends operations to a function body.
///
/// Constants stand in front of the body, each once; the one requested last comes first.
pub struct OpsBuilder {
    kind: FunctionKind,
    args: Vec<ValueType>,
    consts: Vec<(ConstType, u64)>,
    ops: Vec<Op>,
}

/// The terms of values.
pub open spec fn syms(values: Seq<Value>) -> Seq<Sym> {
    values.map_values(|v: Value| v.sym@)
}

/// The fold of a binary field operation over terms, from the left.
pub open spec fn fold(op: FeltBinary, terms: Seq<Sym>) -> Sym
    decreases terms.len(),
{
    if terms.len() == 0 {
        Sym::Unit
    } else if terms.len() == 1 {
        terms[0]
    } else {
        ir::felt2(op, fold(op, terms.drop_last()), terms.last())
    }
}

/// `value mod 2^bits`, where no bits leave zero.
pub open spec fn lowest_bits(value: Sym, bits: u32) -> Sym {
    if bits == 0 {
        ir::felt(0)
    } else {
        ir::felt2(FeltBinary::Umod, value, ir::felt(1u64 << bits))
    }
}

/// `bits` bits of a value from `shift` on.
pub open spec fn shifted_low_bits(value: Sym, shift: u64, bits: u32) -> Sym {
    lowest_bits(
        if shift == 0 {
            value
        } else {
            ir::felt2(FeltBinary::Shr, value, ir::felt(shift))
        },
        bits,
    )
}

/// Whether a field value is nonzero.
pub open spec fn is_nonzero(value: Sym) -> Sym {
    ir::compare(Comparison::Ne, value, ir::felt(0))
}

/// A boolean as a field element.
pub open spec fn to_field(value: Sym) -> Sym {
    ir::select(value, ir::felt(1), ir::felt(0))
}

/// Whether a field value is a given number.
pub open spec fn is_constant(value: Sym, constant: u64) -> Sym {
    ir::compare(Comparison::Eq, value, ir::felt(constant))
}

/// `value * (value - 1)`
pub open spec fn boolean_product(value: Sym) -> Sym {
    ir::felt2(FeltBinary::Mul, value, ir::felt2(FeltBinary::Sub, value, ir::felt(1)))
}

/// `value < 2^width`
pub open spec fn in_range(value: Sym, width: usize) -> Sym {
    ir::compare(Comparison::Lt, value, ir::felt(1u64 << width))
}

/// Whether two terms of a type are equal.
pub open spec fn eq_predicate(ty: ValueType, a: Sym, b: Sym) -> Sym {
    if ty == ValueType::Felt {
        ir::compare(Comparison::Eq, a, b)
    } else {
        ir::compare_int(a, b)
    }
}

/// The constraint `a = b`, or where there is a condition that it is zero or `a = b`.
pub open spec fn conditional_eq(cond: Option<Sym>, ty: ValueType, a: Sym, b: Sym) -> Effect {
    match cond {
        None => Effect::ConstrainEq(a, b),
        Some(c) => Effect::ConstrainEq(
            ir::bool2(
                BoolBinary::Or,
                ir::compare(Comparison::Eq, ir::felt(0), c),
                eq_predicate(ty, a, b),
            ),
            ir::boolean(true),
        ),
    }
}

/// The term of an optional value.
pub open spec fn opt_sym(v: Option<Value>) -> Option<Sym> {
    match v {
        Some(v) => Some(v.sym@),
        None => None,
    }
}

/// The sum of one-hot bits, each times its position.
pub open spec fn one_hot_reconstruction(bits: Seq<Sym>) -> Sym
    decreases bits.len(),
{
    if bits.len() <= 1 {
        ir::felt2(FeltBinary::Mul, ir::felt(0), bits[0])
    } else {
        ir::felt2(
            FeltBinary::Add,
            one_hot_reconstruction(bits.drop_last()),
            ir::felt2(FeltBinary::Mul, ir::felt((bits.len() - 1) as u64), bits.last()),
        )
    }
}

/// The results of `count` nondeterministic values with a boolean constraint each, from
/// effect `k` on.
pub open spec fn one_hot_terms(k: nat, count: nat) -> Seq<Sym> {
    Seq::new(count, |i: int| Sym::Result((k + 2 * i) as nat, 0))
}

/// The effects that introduce `count` boolean values, from effect `k` on.
pub open spec fn one_hot_bit_effects(k: nat, count: nat) -> Seq<Effect>
    decreases count,
{
    if count == 0 {
        Seq::empty()
    } else {
        one_hot_bit_effects(k, (count - 1) as nat).push(Effect::Nondet(ValueType::Felt)).push(
            Effect::ConstrainEq(
                boolean_product(Sym::Result((k + 2 * (count - 1)) as nat, 0)),
                ir::felt(0),
            ),
        )
    }
}

/// The effects that introduce `count` boolean values of which exactly one is set.
pub open spec fn one_hot_effects(k: nat, count: nat) -> Seq<Effect> {
    one_hot_bit_effects(k, count).push(
        Effect::ConstrainEq(fold(FeltBinary::Add, one_hot_terms(k, count)), ir::felt(1)),
    )
}

impl OpsBuilder {
    /// The terms of the operations.
    pub closed spec fn terms(self) -> Seq<Sym> {
        ir::meaning(self.ops@).0
    }

    /// The effects of the body, in order.
    pub closed spec fn effects(self) -> Seq<Effect> {
        ir::meaning(self.ops@).1
    }

    /// The operations of the body.
    pub closed spec fn operations(self) -> Seq<Op> {
        self.ops@
    }

    /// The constants in front of the body, oldest first.
    pub closed spec fn constants(self) -> Seq<(ConstType, u64)> {
        self.consts@
    }

    /// The types of the arguments.
    pub closed spec fn arguments(self) -> Seq<ValueType> {
        self.args@
    }

    /// The function that the body belongs to.
    pub closed spec fn function(self) -> FunctionKind {
        self.kind
    }

    /// Whether a value belongs to this body and stands for its term.
    pub closed spec fn has(self, v: Value) -> bool {
        &&& v.sym@ == ir::resolve(self.terms(), v.id)
        &&& self.defines(v.id)
    }

    /// Whether a value is defined in this body.
    closed spec fn defines(self, r: ValueRef) -> bool {
        ir::is_defined(self.args@, self.consts@, self.ops@, self.kind is Compute, r)
    }

    /// Whether every value that the body uses is defined before it is used.
    pub closed spec fn is_closed(self) -> bool {
        ir::defines_its_values(self.args@, self.consts@, self.ops@, self.kind is Compute)
    }

    /// Whether values belong to this body.
    pub open spec fn has_all(self, vs: Seq<Value>) -> bool {
        forall|i: int| 0 <= i < vs.len() ==> self.has(#[trigger] vs[i])
    }

    /// Whether an optional value belongs to this body.
    pub open spec fn has_opt(self, v: Option<Value>) -> bool {
        match v {
            Some(v) => self.has(v),
            None => true,
        }
    }

    /// Whether the body continues an earlier one: every value of the earlier one keeps its term, and
    /// what is used is defined if it was so before.
    pub open spec fn continues(self, before: Self) -> bool {
        &&& self.arguments() == before.arguments()
        &&& self.function() == before.function()
        &&& forall|v: Value| before.has(v) ==> #[trigger] self.has(v)
        &&& before.is_closed() ==> self.is_closed()
    }

    /// A body that continues another one keeps its constants.
    pub proof fn constants_are_kept(self, before: Self, c: (ConstType, u64))
        requires
            self.continues(before),
            before.constants().contains(c),
        ensures
            self.constants().contains(c),
    {
        let v = Value {
            id: ValueRef::Const(c.0, c.1),
            ty: const_value_type(c.0),
            sym: Ghost(Sym::Const(c.0, c.1)),
        };
        assert(before.has(v));
        assert(self.has(v));
    }

    /// Whether the body continues an earlier one without a new effect.
    pub open spec fn purely_continues(self, before: Self) -> bool {
        &&& self.continues(before)
        &&& self.effects() == before.effects()
    }

    /// An empty body of a function.
    pub fn new(kind: FunctionKind, args: Vec<ValueType>) -> (r: Self)
        ensures
            r.function() == kind,
            r.arguments() == args@,
            r.effects() == Seq::<Effect>::empty(),
            r.operations() == Seq::<Op>::empty(),
            r.constants() == Seq::<(ConstType, u64)>::empty(),
            r.is_closed(),
    {
        OpsBuilder { kind, args, consts: Vec::new(), ops: Vec::new() }
    }

    /// The operations of the body.
    pub fn ops(&self) -> (r: &Vec<Op>)
        ensures
            r@ == self.operations(),
    {
        &self.ops
    }

    /// The constants in front of the body, oldest first.
    pub fn prologue(&self) -> (r: &Vec<(ConstType, u64)>)
        ensures
            r@ == self.constants(),
    {
        &self.consts
    }

    /// The finished body: its argument types, constants and operations.
    pub fn finish(self) -> (r: (Vec<ValueType>, Vec<(ConstType, u64)>, Vec<Op>))
        ensures
            r.0@ == self.arguments(),
            r.1@ == self.constants(),
            r.2@ == self.operations(),
            ir::meaning(r.2@).1 == self.effects(),
            self.is_closed() <==> ir::defines_its_values(
                r.0@,
                r.1@,
                r.2@,
                self.function() is Compute,
            ),
    {
        (self.args, self.consts, self.ops)
    }

    fn push(&mut self, op: Op, ty: ValueType) -> (r: Value)
        requires
            forall|v: ValueRef| #[trigger] ir::mentions(op, v) ==> old(self).defines(v),
        ensures
            final(self).continues(*old(self)),
            final(self).ops@ == old(self).ops@.push(op),
            ir::result_count(op) > 0 ==> final(self).has(r),
            r.ty == ty,
            r.id matches ValueRef::Op(i, j) && i == old(self).ops@.len() && j == 0,
            r.sym@ == ir::term_of(old(self).terms(), old(self).effects().len(), op),
            final(self).effects() == (match ir::effect_of(old(self).terms(), op) {
                Some(e) => old(self).effects().push(e),
                None => old(self).effects(),
            }),
    {
        let index: usize = self.ops.len();
        let ghost before = *self;
        self.ops.push(op);
        assert(self.ops@.drop_last() =~= before.ops@);
        proof {
            lemma_meaning_len(before.ops@);
            assert forall|v: Value| before.has(v) implies #[trigger] self.has(v) by {}
            if before.is_closed() {
                lemma_closed(*self, before, op);
            }
        }
        Value {
            id: ValueRef::Op(index, 0),
            ty,
            sym: Ghost(ir::resolve(self.terms(), ValueRef::Op(index, 0))),
        }
    }

    /// Appends a binary field operation.
    pub fn append_felt_binary(&mut self, op: FeltBinary, lhs: Value, rhs: Value) -> (r: Value)
        requires
            old(self).has(lhs),
            old(self).has(rhs),
        ensures
            final(self).purely_continues(*old(self)),
            final(self).has(r),
            r.ty == ValueType::Felt,
            r.sym@ == ir::felt2(op, lhs.sym@, rhs.sym@),
    {
        self.push(Op::FeltBinary(op, lhs.id, rhs.id), ValueType::Felt)
    }

    /// Appends a unary field operation.
    pub fn append_felt_unary(&mut self, op: FeltUnary, value: Value) -> (r: Value)
        requires
            old(self).has(value),
        ensures
            final(self).purely_continues(*old(self)),
            final(self).has(r),
            r.ty == ValueType::Felt,
            r.sym@ == ir::felt1(op, value.sym@),
    {
        self.push(Op::FeltUnary(op, value.id), ValueType::Felt)
    }

    /// Appends a comparison of field elements.
    pub fn append_compare(&mut self, op: Comparison, lhs: Value, rhs: Value) -> (r: Value)
        requires
            old(self).has(lhs),
            old(self).has(rhs),
        ensures
            final(self).purely_continues(*old(self)),
            final(self).has(r),
            r.ty == ValueType::Bool,
            r.sym@ == ir::compare(op, lhs.sym@, rhs.sym@),
    {
        self.push(Op::Compare(op, lhs.id, rhs.id), ValueType::Bool)
    }

    fn append_compare_int(&mut self, lhs: Value, rhs: Value) -> (r: Value)
        requires
            old(self).has(lhs),
            old(self).has(rhs),
        ensures
            final(self).purely_continues(*old(self)),
            final(self).has(r),
            r.ty == ValueType::Bool,
            r.sym@ == ir::compare_int(lhs.sym@, rhs.sym@),
    {
        self.push(Op::CompareInt(lhs.id, rhs.id), ValueType::Bool)
    }

    /// Appends a binary boolean operation.
    pub fn append_bool_binary(&mut self, op: BoolBinary, lhs: Value, rhs: Value) -> (r: Value)
        requires
            old(self).has(lhs),
            old(self).has(rhs),
        ensures
            final(self).purely_continues(*old(self)),
            final(self).has(r),
            r.ty == ValueType::Bool,
            r.sym@ == ir::bool2(op, lhs.sym@, rhs.sym@),
    {
        self.push(Op::BoolBinary(op, lhs.id, rhs.id), ValueType::Bool)
    }

    /// Appends a boolean negation.
    pub fn append_bool_not(&mut self, value: Value) -> (r: Value)
        requires
            old(self).has(value),
        ensures
            final(self).purely_continues(*old(self)),
            final(self).has(r),
            r.ty == ValueType::Bool,
            r.sym@ == ir::not(value.sym@),
    {
        self.push(Op::BoolNot(value.id), ValueType::Bool)
    }

    /// Appends a selection between two values of one type.
    pub fn append_select_value(&mut self, condition: Value, if_true: Value, if_false: Value) -> (r:
        Value)
        requires
            old(self).has(condition),
            old(self).has(if_true),
            old(self).has(if_false),
        ensures
            final(self).purely_continues(*old(self)),
            final(self).has(r),
            r.ty == if_true.ty,
            r.sym@ == ir::select(condition.sym@, if_true.sym@, if_false.sym@),
    {
        self.push(Op::Select(condition.id, if_true.id, if_false.id), if_true.ty)
    }

    /// Appends a nondeterministic value.
    pub fn new_nondet(&mut self, ty: ValueType) -> (r: Value)
        ensures
            final(self).continues(*old(self)),
            final(self).has(r),
            final(self).effects() == old(self).effects().push(Effect::Nondet(ty)),
            r.ty == ty,
            r.sym@ == Sym::Result(old(self).effects().len(), 0),
    {
        self.push(Op::Nondet(ty), ty)
    }

    /// Appends a nondeterministic field element.
    pub fn new_nondet_felt(&mut self) -> (r: Value)
        ensures
            final(self).continues(*old(self)),
            final(self).has(r),
            final(self).effects() == old(self).effects().push(Effect::Nondet(ValueType::Felt)),
            r.ty == ValueType::Felt,
            r.sym@ == Sym::Result(old(self).effects().len(), 0),
    {
        self.new_nondet(ValueType::Felt)
    }

    /// Appends the constraint that two values are equal.
    pub fn append_constrain_eq(&mut self, lhs: Value, rhs: Value)
        requires
            old(self).has(lhs),
            old(self).has(rhs),
        ensures
            final(self).continues(*old(self)),
            final(self).effects() == old(self).effects().push(
                Effect::ConstrainEq(lhs.sym@, rhs.sym@),
            ),
    {
        let _ = self.push(Op::ConstrainEq(lhs.id, rhs.id), ValueType::Struct);
    }

    /// Appends a read of a struct member.
    pub fn append_member_read(
        &mut self,
        component: Value,
        result_type: ValueType,
        member_name: &String,
    ) -> (r: Value)
        requires
            old(self).has(component),
        ensures
            final(self).continues(*old(self)),
            final(self).has(r),
            final(self).effects() == old(self).effects().push(
                Effect::MemberRead(component.sym@, member_name@, result_type),
            ),
            r.ty == result_type,
            r.sym@ == Sym::Result(old(self).effects().len(), 0),
    {
        self.push(Op::MemberRead(component.id, member_name.clone(), result_type), result_type)
    }

    /// Appends a write of a struct member.
    pub fn append_member_write(&mut self, component: Value, member_name: &String, value: Value)
        requires
            old(self).has(component),
            old(self).has(value),
        ensures
            final(self).continues(*old(self)),
            final(self).effects() == old(self).effects().push(
                Effect::MemberWrite(component.sym@, member_name@, value.sym@),
            ),
    {
        let _ = self.push(
            Op::MemberWrite(component.id, member_name.clone(), value.id),
            ValueType::Struct,
        );
    }

    /// Appends a read of a register element.
    pub fn append_array_read(&mut self, array: Value, index: Value) -> (r: Result<Value, LlzkError>)
        requires
            old(self).has(array),
            old(self).has(index),
        ensures
            final(self).purely_continues(*old(self)),
            match r {
                Ok(v) => {
                    &&& array.ty == ValueType::Register
                    &&& final(self).has(v)
                    &&& v.ty == ValueType::Felt
                    &&& v.sym@ == ir::array_read(array.sym@, index.sym@)
                },
                Err(e) => array.ty != ValueType::Register && e == LlzkError::NotAnArray,
            },
    {
        if array.ty != ValueType::Register {
            return Err(LlzkError::NotAnArray);
        }
        Ok(self.push(Op::ArrayRead(array.id, index.id), ValueType::Felt))
    }

    /// Appends a write of a register element.
    pub fn append_array_write(&mut self, array: Value, index: Value, value: Value)
        requires
            old(self).has(array),
            old(self).has(index),
            old(self).has(value),
        ensures
            final(self).continues(*old(self)),
            final(self).effects() == old(self).effects().push(
                Effect::ArrayWrite(array.sym@, index.sym@, value.sym@),
            ),
    {
        let _ = self.push(Op::ArrayWrite(array.id, index.id, value.id), ValueType::Struct);
    }

    fn push_call(&mut self, callee: &str, args: &Vec<Value>, results: usize, ty: ValueType) -> (r:
        Value)
        requires
            old(self).has_all(args@),
        ensures
            final(self).continues(*old(self)),
            results > 0 ==> final(self).has(r),
            final(self).effects() == old(self).effects().push(
                Effect::Call(callee@, syms(args@), results as nat),
            ),
            r.ty == ty,
            r.id matches ValueRef::Op(i, j) && i == old(self).ops@.len() && j == 0,
            final(self).ops@.len() == old(self).ops@.len() + 1,
            ir::result_count(final(self).ops@.last()) == results,
            r.sym@ == Sym::Result(old(self).effects().len(), 0),
    {
        let mut refs: Vec<ValueRef> = Vec::new();
        for i in 0..args.len()
            invariant
                refs@ == args@.take(i as int).map_values(|v: Value| v.id),
        {
            refs.push(args[i].id);
            assert(refs@ =~= args@.take(i + 1).map_values(|v: Value| v.id));
        }
        proof {
            assert(ir::resolve_all(self.terms(), refs@) =~= syms(args@)) by {
                assert forall|i: int| 0 <= i < args@.len() implies ir::resolve(
                    self.terms(),
                    #[trigger] refs@[i],
                ) == args@[i].sym@ by {
                    assert(self.has(args@[i]));
                }
            }
        }
        assert forall|r: ValueRef| refs@.contains(r) implies #[trigger] self.defines(r) by {
            let i = choose|i: int| 0 <= i < refs@.len() && refs@[i] == r;
            assert(self.has(args@[i]));
        }
        self.push(Op::Call(callee.to_owned(), refs, results), ty)
    }

    /// Appends a call with one result.
    pub fn append_call_with_result(
        &mut self,
        callee: &str,
        args: &Vec<Value>,
        result_type: ValueType,
    ) -> (r: Value)
        requires
            old(self).has_all(args@),
        ensures
            final(self).continues(*old(self)),
            final(self).has(r),
            final(self).effects() == old(self).effects().push(
                Effect::Call(callee@, syms(args@), 1),
            ),
            r.ty == result_type,
            r.sym@ == Sym::Result(old(self).effects().len(), 0),
    {
        self.push_call(callee, args, 1, result_type)
    }

    /// Appends a call with two field results.
    pub fn append_call_with_two_results(&mut self, callee: &str, args: &Vec<Value>) -> (r: (
        Value,
        Value,
    ))
        requires
            old(self).has_all(args@),
        ensures
            final(self).continues(*old(self)),
            final(self).has(r.0),
            final(self).has(r.1),
            final(self).effects() == old(self).effects().push(
                Effect::Call(callee@, syms(args@), 2),
            ),
            r.0.ty == ValueType::Felt,
            r.1.ty == ValueType::Felt,
            r.0.sym@ == Sym::Result(old(self).effects().len(), 0),
            r.1.sym@ == Sym::Result(old(self).effects().len(), 1),
    {
        let first = self.push_call(callee, args, 2, ValueType::Felt);
        let id = match first.id {
            ValueRef::Op(index, _) => ValueRef::Op(index, 1),
            other => other,
        };
        let second = Value {
            id,
            ty: ValueType::Felt,
            sym: Ghost(Sym::Result(old(self).effects().len(), 1)),
        };
        (first, second)
    }

    /// Appends a call without results.
    pub fn append_call_no_results(&mut self, callee: &str, args: &Vec<Value>)
        requires
            old(self).has_all(args@),
        ensures
            final(self).continues(*old(self)),
            final(self).effects() == old(self).effects().push(
                Effect::Call(callee@, syms(args@), 0),
            ),
    {
        let _ = self.push_call(callee, args, 0, ValueType::Struct);
    }
}

/// The type of a value of a constant.
pub open spec fn const_value_type(ty: ConstType) -> ValueType {
    match ty {
        ConstType::Felt => ValueType::Felt,
        ConstType::Bool => ValueType::Bool,
        ConstType::Index => ValueType::Index,
    }
}

/// A list of constants with one more, unless it is there already.
pub open spec fn with_constant(consts: Seq<(ConstType, u64)>, ty: ConstType, i: u64) -> Seq<
    (ConstType, u64),
> {
    if consts.contains((ty, i)) {
        consts
    } else {
        consts.push((ty, i))
    }
}

impl OpsBuilder {
    fn declare_constant(&mut self, ty: ConstType, i: u64) -> (r: Value)
        ensures
            final(self).purely_continues(*old(self)),
            final(self).operations() == old(self).operations(),
            final(self).constants() == with_constant(old(self).constants(), ty, i),
            final(self).has(r),
            r.ty == const_value_type(ty),
            r.sym@ == Sym::Const(ty, i),
    {
        let ghost before = *self;
        let mut found = false;
        let mut k: usize = 0;
        while k < self.consts.len()
            invariant
                k <= self.consts@.len(),
                *self == before,
                found == self.consts@.take(k as int).contains((ty, i)),
            decreases self.consts@.len() - k,
        {
            assert(self.consts@.take(k + 1) =~= self.consts@.take(k as int).push(
                self.consts@[k as int],
            ));
            proof {
                let head = self.consts@.take(k as int);
                let c = self.consts@[k as int];
                assert(head.push(c)[head.len() as int] == c);
                if head.contains((ty, i)) {
                    let j = choose|j: int| 0 <= j < head.len() && head[j] == (ty, i);
                    assert(head.push(c)[j] == (ty, i));
                }
                if head.push(c).contains((ty, i)) && c != (ty, i) {
                    let j = choose|j: int|
                        0 <= j < head.push(c).len() && head.push(c)[j] == (ty, i);
                    assert(head[j] == (ty, i));
                }
            }
            if self.consts[k].0 == ty && self.consts[k].1 == i {
                found = true;
            }
            k = k + 1;
        }
        assert(self.consts@.take(k as int) =~= self.consts@);
        if !found {
            self.consts.push((ty, i));
            proof {
                assert(self.consts@[before.consts@.len() as int] == (ty, i));
                assert forall|v: Value| before.has(v) implies #[trigger] self.has(v) by {
                    match v.id {
                        ValueRef::Const(t, c) => {
                            let j = choose|j: int|
                                0 <= j < before.consts@.len() && before.consts@[j] == (t, c);
                            assert(self.consts@[j] == (t, c));
                        },
                        _ => {},
                    }
                }
                if before.is_closed() {
                    lemma_closed_constant(*self, before, (ty, i));
                }
            }
        }
        let value_type = match ty {
            ConstType::Felt => ValueType::Felt,
            ConstType::Bool => ValueType::Bool,
            ConstType::Index => ValueType::Index,
        };
        Value { id: ValueRef::Const(ty, i), ty: value_type, sym: Ghost(Sym::Const(ty, i)) }
    }

    /// A constant from the front of the body, which is added where it is missing.
    pub fn get_constant_from_start(&mut self, ty: ConstType, i: u64) -> (r: Result<
        Value,
        LlzkError,
    >)
        ensures
            final(self).purely_continues(*old(self)),
            final(self).operations() == old(self).operations(),
            match r {
                Ok(v) => {
                    &&& ty == ConstType::Felt || i <= i64::MAX
                    &&& final(self).constants() == with_constant(old(self).constants(), ty, i)
                    &&& final(self).has(v)
                    &&& v.ty == const_value_type(ty)
                    &&& v.sym@ == Sym::Const(ty, i)
                },
                Err(e) => {
                    &&& ty != ConstType::Felt
                    &&& i > i64::MAX
                    &&& e == LlzkError::ConstantOutOfRange
                    &&& final(self).constants() == old(self).constants()
                },
            },
    {
        if ty != ConstType::Felt && i > 0x7fff_ffff_ffff_ffff {
            return Err(LlzkError::ConstantOutOfRange);
        }
        Ok(self.declare_constant(ty, i))
    }

    /// A field constant.
    pub fn get_felt_constant_from_start(&mut self, i: u64) -> (r: Value)
        ensures
            final(self).purely_continues(*old(self)),
            final(self).operations() == old(self).operations(),
            final(self).constants() == with_constant(
                old(self).constants(),
                ConstType::Felt,
                i,
            ),
            final(self).has(r),
            r.ty == ValueType::Felt,
            r.sym@ == ir::felt(i),
    {
        self.declare_constant(ConstType::Felt, i)
    }

    /// A boolean constant.
    pub fn get_bool_constant_from_start(&mut self, value: bool) -> (r: Value)
        ensures
            final(self).purely_continues(*old(self)),
            final(self).operations() == old(self).operations(),
            final(self).constants() == with_constant(
                old(self).constants(),
                ConstType::Bool,
                if value {
                    1
                } else {
                    0
                },
            ),
            final(self).has(r),
            r.ty == ValueType::Bool,
            r.sym@ == ir::boolean(value),
    {
        self.declare_constant(
            ConstType::Bool,
            if value {
                1
            } else {
                0
            },
        )
    }

    /// Adds a constant to the front of the body where it is missing.
    pub fn insert_constant_at_start(&mut self, ty: ConstType, i: u64) -> (r: Result<(), LlzkError>)
        ensures
            final(self).purely_continues(*old(self)),
            final(self).operations() == old(self).operations(),
            r is Ok <==> (ty == ConstType::Felt || i <= i64::MAX),
            r is Err ==> r == Err::<(), LlzkError>(LlzkError::ConstantOutOfRange),
            final(self).constants() == (if r is Ok {
                with_constant(old(self).constants(), ty, i)
            } else {
                old(self).constants()
            }),
    {
        match self.get_constant_from_start(ty, i) {
            Ok(_) => Ok(()),
            Err(e) => Err(e),
        }
    }

    /// The number of arguments.
    pub fn argument_count(&self) -> (r: usize)
        ensures
            r == self.arguments().len(),
    {
        self.args.len()
    }

    /// The argument with a position.
    pub fn get_arg_value(&self, arg_no: usize) -> (r: Result<Value, LlzkError>)
        ensures
            match r {
                Ok(v) => {
                    &&& arg_no < self.arguments().len()
                    &&& self.has(v)
                    &&& v.ty == self.arguments()[arg_no as int]
                    &&& v.sym@ == Sym::Arg(arg_no)
                },
                Err(e) => arg_no >= self.arguments().len() && e == LlzkError::ArgumentOutOfRange,
            },
    {
        if arg_no < self.args.len() {
            Ok(
                Value {
                    id: ValueRef::Arg(arg_no),
                    ty: self.args[arg_no],
                    sym: Ghost(Sym::Arg(arg_no)),
                },
            )
        } else {
            Err(LlzkError::ArgumentOutOfRange)
        }
    }

    /// The struct that a compute function constructs.
    pub fn get_compute_self_value(&self) -> (r: Result<Value, LlzkError>)
        ensures
            match r {
                Ok(v) => {
                    &&& self.function() == FunctionKind::Compute
                    &&& self.has(v)
                    &&& v.ty == ValueType::Struct
                    &&& v.sym@ == Sym::SelfStruct
                },
                Err(e) => {
                    &&& self.function() != FunctionKind::Compute
                    &&& e == LlzkError::NotACompute
                },
            },
    {
        match self.kind {
            FunctionKind::Compute => Ok(
                Value {
                    id: ValueRef::SelfStruct,
                    ty: ValueType::Struct,
                    sym: Ghost(Sym::SelfStruct),
                },
            ),
            FunctionKind::Constrain => Err(LlzkError::NotACompute),
        }
    }

    /// Compares two values of one type.
    fn append_eq_predicate(&mut self, lhs: Value, rhs: Value) -> (r: Result<Value, LlzkError>)
        requires
            old(self).has(lhs),
            old(self).has(rhs),
        ensures
            final(self).purely_continues(*old(self)),
            match r {
                Ok(v) => {
                    &&& comparable(lhs.ty, rhs.ty) is None
                    &&& final(self).has(v)
                    &&& v.ty == ValueType::Bool
                    &&& v.sym@ == eq_predicate(lhs.ty, lhs.sym@, rhs.sym@)
                },
                Err(e) => comparable(lhs.ty, rhs.ty) == Some(e),
            },
    {
        if lhs.ty != rhs.ty {
            return Err(LlzkError::TypeMismatch);
        }
        match lhs.ty {
            ValueType::Felt => Ok(self.append_compare(Comparison::Eq, lhs, rhs)),
            ValueType::Bool => Ok(self.append_compare_int(lhs, rhs)),
            ValueType::Index => Ok(self.append_compare_int(lhs, rhs)),
            _ => Err(LlzkError::UnsupportedPredicate),
        }
    }

    /// Appends `lhs = rhs`, or where there is a condition that it is zero or `lhs = rhs`.
    pub fn append_conditional_constrain_eq(
        &mut self,
        conditional: Option<Value>,
        lhs: Value,
        rhs: Value,
    ) -> (r: Result<(), LlzkError>)
        requires
            old(self).has_opt(conditional),
            old(self).has(lhs),
            old(self).has(rhs),
            conditional matches Some(c) ==> c.ty == ValueType::Felt,
        ensures
            final(self).continues(*old(self)),
            r is Err <==> conditional is Some && comparable(lhs.ty, rhs.ty) is Some,
            match r {
                Ok(_) => final(self).effects() == old(self).effects().push(
                    conditional_eq(opt_sym(conditional), lhs.ty, lhs.sym@, rhs.sym@),
                ),
                Err(e) => {
                    &&& comparable(lhs.ty, rhs.ty) == Some(e)
                    &&& final(self).effects() == old(self).effects()
                },
            },
    {
        match conditional {
            None => {
                self.append_constrain_eq(lhs, rhs);
                Ok(())
            },
            Some(conditional) => {
                let zero = self.get_felt_constant_from_start(0);
                let not_conditional = self.append_compare(Comparison::Eq, zero, conditional);
                let sides_eq = self.append_eq_predicate(lhs, rhs)?;
                let implication = self.append_bool_binary(
                    BoolBinary::Or,
                    not_conditional,
                    sides_eq,
                );
                let truth = self.get_bool_constant_from_start(true);
                self.append_constrain_eq(implication, truth);
                Ok(())
            },
        }
    }

    /// Appends the equality of two field elements, where the condition holds.
    pub fn append_conditional_felt_eq(&mut self, conditional: Option<Value>, lhs: Value, rhs: Value)
        requires
            old(self).has_opt(conditional),
            old(self).has(lhs),
            old(self).has(rhs),
            lhs.ty == ValueType::Felt,
            rhs.ty == ValueType::Felt,
            conditional matches Some(c) ==> c.ty == ValueType::Felt,
        ensures
            final(self).continues(*old(self)),
            final(self).effects() == old(self).effects().push(
                conditional_eq(opt_sym(conditional), ValueType::Felt, lhs.sym@, rhs.sym@),
            ),
    {
        let _ = self.append_conditional_constrain_eq(conditional, lhs, rhs);
    }

    fn compute_boolean_constraint_expression(&mut self, val: Value) -> (r: (Value, Value))
        requires
            old(self).has(val),
            val.ty == ValueType::Felt,
        ensures
            final(self).purely_continues(*old(self)),
            final(self).has(r.0),
            final(self).has(r.1),
            r.0.ty == ValueType::Felt,
            r.1.ty == ValueType::Felt,
            r.0.sym@ == boolean_product(val.sym@),
            r.1.sym@ == ir::felt(0),
    {
        let zero = self.get_felt_constant_from_start(0);
        let one = self.get_felt_constant_from_start(1);
        let minus_one = self.append_felt_binary(FeltBinary::Sub, val, one);
        let product = self.append_felt_binary(FeltBinary::Mul, val, minus_one);
        (product, zero)
    }

    /// Appends the constraint that a value is zero or one.
    pub fn append_boolean_constraint(&mut self, val: Value)
        requires
            old(self).has(val),
            val.ty == ValueType::Felt,
        ensures
            final(self).continues(*old(self)),
            final(self).effects() == old(self).effects().push(
                Effect::ConstrainEq(boolean_product(val.sym@), ir::felt(0)),
            ),
    {
        let (product, zero) = self.compute_boolean_constraint_expression(val);
        self.append_constrain_eq(product, zero);
    }

    /// Appends the constraint that a value is zero or one, where the condition holds.
    pub fn append_conditional_boolean_constraint(&mut self, conditional: Option<Value>, val: Value)
        requires
            old(self).has_opt(conditional),
            old(self).has(val),
            val.ty == ValueType::Felt,
            conditional matches Some(c) ==> c.ty == ValueType::Felt,
        ensures
            final(self).continues(*old(self)),
            final(self).effects() == old(self).effects().push(
                conditional_boolean(opt_sym(conditional), val.sym@),
            ),
    {
        let (product, zero) = self.compute_boolean_constraint_expression(val);
        let _ = self.append_conditional_constrain_eq(conditional, product, zero);
    }

    fn compute_range_constraint_expression(&mut self, val: Value, width: usize) -> (r: (
        Value,
        Value,
    ))
        requires
            old(self).has(val),
            val.ty == ValueType::Felt,
            width < 64,
        ensures
            final(self).purely_continues(*old(self)),
            final(self).has(r.0),
            final(self).has(r.1),
            r.0.ty == ValueType::Bool,
            r.1.ty == ValueType::Bool,
            r.0.sym@ == in_range(val.sym@, width),
            r.1.sym@ == ir::boolean(true),
    {
        let bound = self.get_felt_constant_from_start(1u64 << width);
        let bound_check = self.append_compare(Comparison::Lt, val, bound);
        let truth = self.get_bool_constant_from_start(true);
        (bound_check, truth)
    }

    /// Appends the constraint that a value fits in `width` bits.
    pub fn append_range_constraint(&mut self, val: Value, width: usize)
        requires
            old(self).has(val),
            val.ty == ValueType::Felt,
            width < 64,
        ensures
            final(self).continues(*old(self)),
            final(self).effects() == old(self).effects().push(
                Effect::ConstrainEq(in_range(val.sym@, width), ir::boolean(true)),
            ),
    {
        let (bound_check, truth) = self.compute_range_constraint_expression(val, width);
        self.append_constrain_eq(bound_check, truth);
    }

    /// Appends the constraint that a value fits in `width` bits, where the condition holds.
    pub fn append_conditional_range_constraint(
        &mut self,
        conditional: Option<Value>,
        val: Value,
        width: usize,
    )
        requires
            old(self).has_opt(conditional),
            old(self).has(val),
            val.ty == ValueType::Felt,
            width < 64,
            conditional matches Some(c) ==> c.ty == ValueType::Felt,
        ensures
            final(self).continues(*old(self)),
            final(self).effects() == old(self).effects().push(
                conditional_range(opt_sym(conditional), val.sym@, width),
            ),
    {
        let (bound_check, truth) = self.compute_range_constraint_expression(val, width);
        let _ = self.append_conditional_constrain_eq(conditional, bound_check, truth);
    }

    fn append_fold(&mut self, op: FeltBinary, values: &Vec<Value>) -> (r: Result<Value, LlzkError>)
        requires
            old(self).has_all(values@),
            values@.len() == 1 ==> values@[0].ty == ValueType::Felt,
        ensures
            final(self).purely_continues(*old(self)),
            r is Err <==> values@.len() == 0,
            match r {
                Ok(v) => {
                    &&& final(self).has(v)
                    &&& v.ty == ValueType::Felt
                    &&& v.sym@ == fold(op, syms(values@))
                },
                Err(e) => e == LlzkError::EmptyFold,
            },
    {
        if values.len() == 0 {
            return Err(LlzkError::EmptyFold);
        }
        let mut acc = values[0];
        let ghost terms = syms(values@);
        assert(terms.take(1) =~= seq![terms[0]]);
        for i in 1..values.len()
            invariant
                terms == syms(values@),
                self.purely_continues(*old(self)),
                old(self).has_all(values@),
                self.has(acc),
                i == 1 || acc.ty == ValueType::Felt,
                values@.len() >= 1,
                acc == values@[0] || i > 1,
                acc.sym@ == fold(op, terms.take(i as int)),
        {
            assert(terms.take(i + 1).drop_last() =~= terms.take(i as int));
            assert(old(self).has(values@[i as int]));
            acc = self.append_felt_binary(op, acc, values[i]);
        }
        assert(terms.take(values@.len() as int) =~= terms);
        Ok(acc)
    }

    /// Appends the sum of values.
    pub fn append_sum(&mut self, values: &Vec<Value>) -> (r: Result<Value, LlzkError>)
        requires
            old(self).has_all(values@),
            values@.len() == 1 ==> values@[0].ty == ValueType::Felt,
        ensures
            final(self).purely_continues(*old(self)),
            r is Err <==> values@.len() == 0,
            match r {
                Ok(v) => {
                    &&& final(self).has(v)
                    &&& v.ty == ValueType::Felt
                    &&& v.sym@ == fold(FeltBinary::Add, syms(values@))
                },
                Err(e) => e == LlzkError::EmptyFold,
            },
    {
        self.append_fold(FeltBinary::Add, values)
    }

    /// Appends the product of values.
    pub fn append_product(&mut self, values: &Vec<Value>) -> (r: Result<Value, LlzkError>)
        requires
            old(self).has_all(values@),
            values@.len() == 1 ==> values@[0].ty == ValueType::Felt,
        ensures
            final(self).purely_continues(*old(self)),
            r is Err <==> values@.len() == 0,
            match r {
                Ok(v) => {
                    &&& final(self).has(v)
                    &&& v.ty == ValueType::Felt
                    &&& v.sym@ == fold(FeltBinary::Mul, syms(values@))
                },
                Err(e) => e == LlzkError::EmptyFold,
            },
    {
        self.append_fold(FeltBinary::Mul, values)
    }

    /// Appends whether a field element is nonzero.
    pub fn append_field_is_nonzero(&mut self, value: Value) -> (r: Value)
        requires
            old(self).has(value),
        ensures
            final(self).purely_continues(*old(self)),
            final(self).has(r),
            r.ty == ValueType::Bool,
            r.sym@ == is_nonzero(value.sym@),
    {
        let zero = self.get_felt_constant_from_start(0);
        self.append_compare(Comparison::Ne, value, zero)
    }

    /// Appends the field encoding of a boolean.
    pub fn append_bool_to_field(&mut self, value: Value) -> (r: Value)
        requires
            old(self).has(value),
        ensures
            final(self).purely_continues(*old(self)),
            final(self).has(r),
            r.ty == ValueType::Felt,
            r.sym@ == to_field(value.sym@),
    {
        let one = self.get_felt_constant_from_start(1);
        let zero = self.get_felt_constant_from_start(0);
        self.append_select_value(value, one, zero)
    }

    /// Appends a field element modulo `2^bits`.
    pub fn append_lowest_bits_felt(&mut self, value: Value, bits: u32) -> (r: Value)
        requires
            old(self).has(value),
            bits < 64,
        ensures
            final(self).purely_continues(*old(self)),
            final(self).has(r),
            r.ty == ValueType::Felt,
            r.sym@ == lowest_bits(value.sym@, bits),
    {
        if bits == 0 {
            return self.get_felt_constant_from_start(0);
        }
        let modulus = self.get_felt_constant_from_start(1u64 << bits);
        self.append_felt_binary(FeltBinary::Umod, value, modulus)
    }

    /// Appends the comparison of a field element with a number.
    pub fn append_field_eq_constant(&mut self, value: Value, constant: u64) -> (r: Value)
        requires
            old(self).has(value),
        ensures
            final(self).purely_continues(*old(self)),
            final(self).has(r),
            r.ty == ValueType::Bool,
            r.sym@ == is_constant(value.sym@, constant),
    {
        let c = self.get_felt_constant_from_start(constant);
        self.append_compare(Comparison::Eq, value, c)
    }

    /// Appends `bits` bits of a field element from `shift` on.
    pub fn append_shifted_low_bits(&mut self, value: Value, shift: u64, bits: u32) -> (r: Value)
        requires
            old(self).has(value),
            bits < 64,
        ensures
            final(self).purely_continues(*old(self)),
            final(self).has(r),
            r.ty == ValueType::Felt,
            r.sym@ == shifted_low_bits(value.sym@, shift, bits),
    {
        if shift == 0 {
            self.append_lowest_bits_felt(value, bits)
        } else {
            let amount = self.get_felt_constant_from_start(shift);
            let shifted = self.append_felt_binary(FeltBinary::Shr, value, amount);
            self.append_lowest_bits_felt(shifted, bits)
        }
    }

    /// Appends a multiplication by a number.
    pub fn append_const_scaling(&mut self, const_coeff: u64, val: Value) -> (r: Value)
        requires
            old(self).has(val),
        ensures
            final(self).purely_continues(*old(self)),
            final(self).has(r),
            r.ty == ValueType::Felt,
            r.sym@ == ir::felt2(FeltBinary::Mul, ir::felt(const_coeff), val.sym@),
    {
        let c = self.get_felt_constant_from_start(const_coeff);
        self.append_felt_binary(FeltBinary::Mul, c, val)
    }

    /// Appends `bits` boolean values of which exactly one is set.
    pub fn append_one_hot(&mut self, bits: usize) -> (r: Result<Vec<Value>, LlzkError>)
        ensures
            final(self).continues(*old(self)),
            r is Err <==> bits == 0,
            match r {
                Ok(vs) => {
                    &&& final(self).has_all(vs@)
                    &&& vs@.len() == bits
                    &&& forall|i: int| 0 <= i < bits ==> (#[trigger] vs@[i]).ty == ValueType::Felt
                    &&& syms(vs@) == one_hot_terms(old(self).effects().len(), bits as nat)
                    &&& final(self).effects() == old(self).effects() + one_hot_effects(
                        old(self).effects().len(),
                        bits as nat,
                    )
                },
                Err(e) => {
                    &&& e == LlzkError::EmptyFold
                    &&& final(self).effects() == old(self).effects()
                },
            },
    {
        let ghost start = self.effects();
        let ghost k = start.len();
        let mut values: Vec<Value> = Vec::new();
        assert(start + one_hot_bit_effects(k, 0) =~= start);
        for i in 0..bits
            invariant
                k == start.len(),
                self.continues(*old(self)),
                self.has_all(values@),
                values@.len() == i,
                forall|j: int| 0 <= j < i ==> (#[trigger] values@[j]).ty == ValueType::Felt,
                syms(values@) == one_hot_terms(k, i as nat),
                self.effects() == start + one_hot_bit_effects(k, i as nat),
        {
            let ghost before = *self;
            proof {
                lemma_one_hot_bit_effects_len(k, i as nat);
            }
            let bit = self.new_nondet_felt();
            self.append_boolean_constraint(bit);
            assert forall|j: int| 0 <= j < i implies self.has(#[trigger] values@[j]) by {
                assert(before.has(values@[j]));
            }
            let ghost earlier = values@;
            values.push(bit);
            assert forall|j: int| 0 <= j < i + 1 implies #[trigger] syms(values@)[j]
                == one_hot_terms(k, (i + 1) as nat)[j] by {
                if j < i {
                    assert(syms(earlier)[j] == one_hot_terms(k, i as nat)[j]);
                }
            }
            assert(syms(values@) =~= one_hot_terms(k, (i + 1) as nat));
            assert(self.effects() =~= start + one_hot_bit_effects(k, (i + 1) as nat));
        }
        let sum = self.append_sum(&values)?;
        let one = self.get_felt_constant_from_start(1);
        self.append_constrain_eq(sum, one);
        assert(self.effects() =~= start + one_hot_effects(k, bits as nat));
        Ok(values)
    }

    /// Appends the position of the set bit of a one-hot vector.
    pub fn append_one_hot_reconstruction(&mut self, bits: &Vec<Value>) -> (r: Result<
        Value,
        LlzkError,
    >)
        requires
            old(self).has_all(bits@),
        ensures
            final(self).purely_continues(*old(self)),
            r is Err <==> bits@.len() == 0,
            match r {
                Ok(v) => {
                    &&& final(self).has(v)
                    &&& v.ty == ValueType::Felt
                    &&& v.sym@ == one_hot_reconstruction(syms(bits@))
                },
                Err(e) => e == LlzkError::EmptyFold,
            },
    {
        if bits.len() == 0 {
            return Err(LlzkError::EmptyFold);
        }
        let ghost terms = syms(bits@);
        assert(old(self).has(bits@[0]));
        let mut acc = self.append_const_scaling(0, bits[0]);
        assert(terms.take(1) =~= seq![terms[0]]);
        for i in 1..bits.len()
            invariant
                terms == syms(bits@),
                self.purely_continues(*old(self)),
                old(self).has_all(bits@),
                self.has(acc),
                acc.ty == ValueType::Felt,
                bits@.len() >= 1,
                acc.sym@ == one_hot_reconstruction(terms.take(i as int)),
        {
            assert(terms.take(i + 1).drop_last() =~= terms.take(i as int));
            assert(old(self).has(bits@[i as int]));
            let scaled = self.append_const_scaling(i as u64, bits[i]);
            acc = self.append_felt_binary(FeltBinary::Add, acc, scaled);
        }
        assert(terms.take(bits@.len() as int) =~= terms);
        Ok(acc)
    }
}

/// Why values of two types cannot be compared, if they cannot.
pub open spec fn comparable(a: ValueType, b: ValueType) -> Option<LlzkError> {
    if a != b {
        Some(LlzkError::TypeMismatch)
    } else if a == ValueType::Register || a == ValueType::Struct {
        Some(LlzkError::UnsupportedPredicate)
    } else {
        None
    }
}

/// The constraint that a value is zero or one, where the condition holds.
pub open spec fn conditional_boolean(cond: Option<Sym>, value: Sym) -> Effect {
    conditional_eq(cond, ValueType::Felt, boolean_product(value), ir::felt(0))
}

/// The constraint that a value fits in `width` bits, where the condition holds.
pub open spec fn conditional_range(cond: Option<Sym>, value: Sym, width: usize) -> Effect {
    conditional_eq(cond, ValueType::Bool, in_range(value, width), ir::boolean(true))
}

/// A body stays closed under an operation whose operands are defined.
proof fn lemma_closed(after: OpsBuilder, before: OpsBuilder, op: Op)
    requires
        before.is_closed(),
        after.kind == before.kind,
        after.args@ == before.args@,
        after.consts@ == before.consts@,
        after.ops@ == before.ops@.push(op),
        forall|v: ValueRef| #[trigger] ir::mentions(op, v) ==> before.defines(v),
    ensures
        after.is_closed(),
{
    assert forall|i: int, r: ValueRef|
        0 <= i < after.ops@.len() && #[trigger] ir::mentions(
            after.ops@[i],
            r,
        ) implies ir::is_defined(
        after.args@,
        after.consts@,
        after.ops@.take(i),
        after.kind is Compute,
        r,
    ) by {
        if i < before.ops@.len() {
            assert(ir::mentions(before.ops@[i], r));
            assert(after.ops@.take(i) =~= before.ops@.take(i));
        } else {
            assert(after.ops@.take(i) =~= before.ops@);
        }
    }
}

/// A body stays closed under one more constant.
proof fn lemma_closed_constant(after: OpsBuilder, before: OpsBuilder, c: (ConstType, u64))
    requires
        before.is_closed(),
        after.kind == before.kind,
        after.args@ == before.args@,
        after.ops@ == before.ops@,
        !before.consts@.contains(c),
        after.consts@ == before.consts@.push(c),
    ensures
        after.is_closed(),
{
    assert forall|i: int, r: ValueRef|
        0 <= i < after.ops@.len() && #[trigger] ir::mentions(
            after.ops@[i],
            r,
        ) implies ir::is_defined(
        after.args@,
        after.consts@,
        after.ops@.take(i),
        after.kind is Compute,
        r,
    ) by {
        assert(ir::mentions(before.ops@[i], r));
        if let ValueRef::Const(ty, x) = r {
            let j = choose|j: int|
                0 <= j < before.consts@.len() && before.consts@[j] == (ty, x);
            assert(after.consts@[j] == (ty, x));
        }
    }
}

proof fn lemma_one_hot_bit_effects_len(k: nat, count: nat)
    ensures
        one_hot_bit_effects(k, count).len() == 2 * count,
    decreases count,
{
    if count > 0 {
        lemma_one_hot_bit_effects_len(k, (count - 1) as nat);
    }
}

proof fn lemma_meaning_len(ops: Seq<Op>)
    ensures
        ir::meaning(ops).0.len() == ops.len(),
    decreases ops.len(),
{
    if ops.len() > 0 {
        lemma_meaning_len(ops.drop_last());
    }
}

} // verus!
