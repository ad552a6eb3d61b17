//! The operations of a function body, and what they mean.
//!
//! A body is a list of operations in static single assignment form. Its meaning is the value of
//! every result as a term over the function's arguments and the results of its effects, and the
//! list of its effects in order.
use vstd::prelude::*;

use crate::circuit::CHARACTERISTICS;

verus! {

/// Binary operations on field elements; the integer ones work on canonical representatives.
#[derive(Clone, Copy, Debug, PartialEq, Eq, Structural)]
pub enum FeltBinary {
    Add,
    Sub,
    Mul,
    Umod,
    Uintdiv,
    Shl,
    Shr,
    BitAnd,
    BitOr,
    BitXor,
}

/// Unary operations on field elements.
#[derive(Clone, Copy, Debug, PartialEq, Eq, Structural)]
pub enum FeltUnary {
    Neg,
    Inv,
}

/// Comparisons of the canonical representatives of field elements.
#[derive(Clone, Copy, Debug, PartialEq, Eq, Structural)]
pub enum Comparison {
    Eq,
    Ne,
    Lt,
    Ge,
}

/// Binary operations on booleans.
#[derive(Clone, Copy, Debug, PartialEq, Eq, Structural)]
pub enum BoolBinary {
    And,
    Or,
}

/// The type of a value. A register is an array of two field elements.
#[derive(Clone, Copy, Debug, PartialEq, Eq, Structural)]
pub enum ValueType {
    Felt,
    Bool,
    Index,
    Register,
    Struct,
}

/// The type of a constant.
#[derive(Clone, Copy, Debug, PartialEq, Eq, Structural)]
pub enum ConstType {
    Felt,
    Bool,
    Index,
}

/// Where a value comes from. A constant is named by its type and its value.
#[derive(Clone, Copy, Debug, PartialEq, Eq, Structural)]
pub enum ValueRef {
    Arg(usize),
    SelfStruct,
    Const(ConstType, u64),
    Op(usize, usize),
}

/// One operation.
#[derive(Debug, PartialEq, Eq)]
pub enum Op {
    FeltBinary(FeltBinary, ValueRef, ValueRef),
    FeltUnary(FeltUnary, ValueRef),
    Compare(Comparison, ValueRef, ValueRef),
    CompareInt(ValueRef, ValueRef),
    BoolBinary(BoolBinary, ValueRef, ValueRef),
    BoolNot(ValueRef),
    Select(ValueRef, ValueRef, ValueRef),
    ArrayRead(ValueRef, ValueRef),
    Nondet(ValueType),
    MemberRead(ValueRef, String, ValueType),
    MemberWrite(ValueRef, String, ValueRef),
    ArrayWrite(ValueRef, ValueRef, ValueRef),
    Call(String, Vec<ValueRef>, usize),
    ConstrainEq(ValueRef, ValueRef),
}

/// The term that a value stands for. `Result(k, r)` is result `r` of effect `k`.
pub enum Sym {
    Arg(usize),
    SelfStruct,
    Const(ConstType, u64),
    FeltBinary(FeltBinary, Box<Sym>, Box<Sym>),
    FeltUnary(FeltUnary, Box<Sym>),
    Compare(Comparison, Box<Sym>, Box<Sym>),
    CompareInt(Box<Sym>, Box<Sym>),
    BoolBinary(BoolBinary, Box<Sym>, Box<Sym>),
    BoolNot(Box<Sym>),
    Select(Box<Sym>, Box<Sym>, Box<Sym>),
    ArrayRead(Box<Sym>, Box<Sym>),
    Result(nat, nat),
    Unit,
}

/// What an operation does besides computing a value.
pub enum Effect {
    Nondet(ValueType),
    MemberRead(Sym, Seq<char>, ValueType),
    MemberWrite(Sym, Seq<char>, Sym),
    ArrayWrite(Sym, Sym, Sym),
    Call(Seq<char>, Seq<Sym>, nat),
    ConstrainEq(Sym, Sym),
}

/// `a op b` on field elements.
pub open spec fn felt2(op: FeltBinary, a: Sym, b: Sym) -> Sym {
    Sym::FeltBinary(op, Box::new(a), Box::new(b))
}

/// `op a` on a field element.
pub open spec fn felt1(op: FeltUnary, a: Sym) -> Sym {
    Sym::FeltUnary(op, Box::new(a))
}

/// A comparison of field elements.
pub open spec fn compare(op: Comparison, a: Sym, b: Sym) -> Sym {
    Sym::Compare(op, Box::new(a), Box::new(b))
}

/// A comparison of plain integers.
pub open spec fn compare_int(a: Sym, b: Sym) -> Sym {
    Sym::CompareInt(Box::new(a), Box::new(b))
}

/// `a op b` on booleans.
pub open spec fn bool2(op: BoolBinary, a: Sym, b: Sym) -> Sym {
    Sym::BoolBinary(op, Box::new(a), Box::new(b))
}

/// The negation of a boolean.
pub open spec fn not(a: Sym) -> Sym {
    Sym::BoolNot(Box::new(a))
}

/// `a` where `c` holds, `b` elsewhere.
pub open spec fn select(c: Sym, a: Sym, b: Sym) -> Sym {
    Sym::Select(Box::new(c), Box::new(a), Box::new(b))
}

/// An element of a register.
pub open spec fn array_read(array: Sym, index: Sym) -> Sym {
    Sym::ArrayRead(Box::new(array), Box::new(index))
}

/// A field constant.
pub open spec fn felt(c: u64) -> Sym {
    Sym::Const(ConstType::Felt, c)
}

/// A boolean constant.
pub open spec fn boolean(b: bool) -> Sym {
    Sym::Const(
        ConstType::Bool,
        if b {
            1
        } else {
            0
        },
    )
}

/// An index constant.
pub open spec fn index(c: u64) -> Sym {
    Sym::Const(ConstType::Index, c)
}

/// The term behind a reference, given the terms of the operations so far.
pub open spec fn resolve(syms: Seq<Sym>, r: ValueRef) -> Sym {
    match r {
        ValueRef::Arg(i) => Sym::Arg(i),
        ValueRef::SelfStruct => Sym::SelfStruct,
        ValueRef::Const(t, c) => Sym::Const(t, c),
        ValueRef::Op(i, j) => if i < syms.len() {
            match syms[i as int] {
                Sym::Result(k, _) => Sym::Result(k, j as nat),
                s => s,
            }
        } else {
            Sym::Unit
        },
    }
}

/// The terms behind references.
pub open spec fn resolve_all(syms: Seq<Sym>, refs: Seq<ValueRef>) -> Seq<Sym> {
    refs.map_values(|r: ValueRef| resolve(syms, r))
}

/// The effect of one operation, if it has one.
pub open spec fn effect_of(syms: Seq<Sym>, op: Op) -> Option<Effect> {
    match op {
        Op::Nondet(t) => Some(Effect::Nondet(t)),
        Op::MemberRead(c, name, t) => Some(Effect::MemberRead(resolve(syms, c), name@, t)),
        Op::MemberWrite(c, name, v) => Some(
            Effect::MemberWrite(resolve(syms, c), name@, resolve(syms, v)),
        ),
        Op::ArrayWrite(a, i, v) => Some(
            Effect::ArrayWrite(resolve(syms, a), resolve(syms, i), resolve(syms, v)),
        ),
        Op::Call(name, args, n) => Some(
            Effect::Call(name@, resolve_all(syms, args@), n as nat),
        ),
        Op::ConstrainEq(a, b) => Some(Effect::ConstrainEq(resolve(syms, a), resolve(syms, b))),
        _ => None,
    }
}

/// The term of one operation, the `k`-th effect being the next.
pub open spec fn term_of(syms: Seq<Sym>, k: nat, op: Op) -> Sym {
    match op {
        Op::FeltBinary(o, a, b) => felt2(o, resolve(syms, a), resolve(syms, b)),
        Op::FeltUnary(o, a) => felt1(o, resolve(syms, a)),
        Op::Compare(o, a, b) => compare(o, resolve(syms, a), resolve(syms, b)),
        Op::CompareInt(a, b) => compare_int(resolve(syms, a), resolve(syms, b)),
        Op::BoolBinary(o, a, b) => bool2(o, resolve(syms, a), resolve(syms, b)),
        Op::BoolNot(a) => not(resolve(syms, a)),
        Op::Select(c, a, b) => select(resolve(syms, c), resolve(syms, a), resolve(syms, b)),
        Op::ArrayRead(a, i) => array_read(resolve(syms, a), resolve(syms, i)),
        Op::Nondet(_) => Sym::Result(k, 0),
        Op::MemberRead(_, _, _) => Sym::Result(k, 0),
        Op::Call(_, _, _) => Sym::Result(k, 0),
        Op::MemberWrite(_, _, _) => Sym::Unit,
        Op::ArrayWrite(_, _, _) => Sym::Unit,
        Op::ConstrainEq(_, _) => Sym::Unit,
    }
}

/// Whether an operation uses a value.
pub open spec fn mentions(op: Op, r: ValueRef) -> bool {
    match op {
        Op::FeltBinary(_, a, b) => r == a || r == b,
        Op::FeltUnary(_, a) => r == a,
        Op::Compare(_, a, b) => r == a || r == b,
        Op::CompareInt(a, b) => r == a || r == b,
        Op::BoolBinary(_, a, b) => r == a || r == b,
        Op::BoolNot(a) => r == a,
        Op::Select(c, a, b) => r == c || r == a || r == b,
        Op::ArrayRead(a, i) => r == a || r == i,
        Op::Nondet(_) => false,
        Op::MemberRead(c, _, _) => r == c,
        Op::MemberWrite(c, _, v) => r == c || r == v,
        Op::ArrayWrite(a, i, v) => r == a || r == i || r == v,
        Op::Call(_, args, _) => args@.contains(r),
        Op::ConstrainEq(a, b) => r == a || r == b,
    }
}

/// How many values an operation gives.
pub open spec fn result_count(op: Op) -> nat {
    match op {
        Op::MemberWrite(_, _, _) | Op::ArrayWrite(_, _, _) | Op::ConstrainEq(_, _) => 0,
        Op::Call(_, _, n) => n as nat,
        _ => 1,
    }
}

/// Whether a value is defined after operations: it is an argument, a constant of the prologue, a
/// result of one of the operations, or the struct of a function that constructs one.
pub open spec fn is_defined(
    arguments: Seq<ValueType>,
    prologue: Seq<(ConstType, u64)>,
    ops: Seq<Op>,
    constructs: bool,
    r: ValueRef,
) -> bool {
    match r {
        ValueRef::Arg(i) => i < arguments.len(),
        ValueRef::SelfStruct => constructs,
        ValueRef::Const(t, c) => prologue.contains((t, c)),
        ValueRef::Op(i, j) => i < ops.len() && j < result_count(ops[i as int]),
    }
}

/// Whether every value that an operation uses is defined before it, and every constant is defined
/// once.
pub open spec fn defines_its_values(
    arguments: Seq<ValueType>,
    prologue: Seq<(ConstType, u64)>,
    ops: Seq<Op>,
    constructs: bool,
) -> bool {
    &&& prologue.no_duplicates()
    &&& forall|i: int, r: ValueRef|
        0 <= i < ops.len() && #[trigger] mentions(ops[i], r) ==> is_defined(
            arguments,
            prologue,
            ops.take(i),
            constructs,
            r,
        )
}

/// The meaning of a body: the term of every operation, and the effects in order.
pub open spec fn meaning(ops: Seq<Op>) -> (Seq<Sym>, Seq<Effect>)
    decreases ops.len(),
{
    if ops.len() == 0 {
        (Seq::empty(), Seq::empty())
    } else {
        let (syms, effects) = meaning(ops.drop_last());
        let op = ops.last();
        (
            syms.push(term_of(syms, effects.len(), op)),
            match effect_of(syms, op) {
                Some(e) => effects.push(e),
                None => effects,
            },
        )
    }
}

impl Op {
    /// The name of the operation in textual form.
    pub fn mnemonic(&self) -> (r: &'static str)
        ensures
            r@ == match *self {
                Op::FeltBinary(FeltBinary::Add, _, _) => "felt.add"@,
                Op::FeltBinary(FeltBinary::Sub, _, _) => "felt.sub"@,
                Op::FeltBinary(FeltBinary::Mul, _, _) => "felt.mul"@,
                Op::FeltBinary(FeltBinary::Umod, _, _) => "felt.umod"@,
                Op::FeltBinary(FeltBinary::Uintdiv, _, _) => "felt.uintdiv"@,
                Op::FeltBinary(FeltBinary::Shl, _, _) => "felt.shl"@,
                Op::FeltBinary(FeltBinary::Shr, _, _) => "felt.shr"@,
                Op::FeltBinary(FeltBinary::BitAnd, _, _) => "felt.bit_and"@,
                Op::FeltBinary(FeltBinary::BitOr, _, _) => "felt.bit_or"@,
                Op::FeltBinary(FeltBinary::BitXor, _, _) => "felt.bit_xor"@,
                Op::FeltUnary(FeltUnary::Neg, _) => "felt.neg"@,
                Op::FeltUnary(FeltUnary::Inv, _) => "felt.inv"@,
                Op::Compare(Comparison::Eq, _, _) => "bool.cmp eq"@,
                Op::Compare(Comparison::Ne, _, _) => "bool.cmp ne"@,
                Op::Compare(Comparison::Lt, _, _) => "bool.cmp lt"@,
                Op::Compare(Comparison::Ge, _, _) => "bool.cmp ge"@,
                Op::CompareInt(_, _) => "arith.cmpi eq"@,
                Op::BoolBinary(BoolBinary::And, _, _) => "bool.and"@,
                Op::BoolBinary(BoolBinary::Or, _, _) => "bool.or"@,
                Op::BoolNot(_) => "bool.not"@,
                Op::Select(_, _, _) => "arith.select"@,
                Op::ArrayRead(_, _) => "array.read"@,
                Op::Nondet(_) => "llzk.nondet"@,
                Op::MemberRead(_, _, _) => "struct.readm"@,
                Op::MemberWrite(_, _, _) => "struct.writem"@,
                Op::ArrayWrite(_, _, _) => "array.write"@,
                Op::Call(_, _, _) => "function.call"@,
                Op::ConstrainEq(_, _) => "constrain.eq"@,
            },
    {
        match self {
            Op::FeltBinary(FeltBinary::Add, _, _) => "felt.add",
            Op::FeltBinary(FeltBinary::Sub, _, _) => "felt.sub",
            Op::FeltBinary(FeltBinary::Mul, _, _) => "felt.mul",
            Op::FeltBinary(FeltBinary::Umod, _, _) => "felt.umod",
            Op::FeltBinary(FeltBinary::Uintdiv, _, _) => "felt.uintdiv",
            Op::FeltBinary(FeltBinary::Shl, _, _) => "felt.shl",
            Op::FeltBinary(FeltBinary::Shr, _, _) => "felt.shr",
            Op::FeltBinary(FeltBinary::BitAnd, _, _) => "felt.bit_and",
            Op::FeltBinary(FeltBinary::BitOr, _, _) => "felt.bit_or",
            Op::FeltBinary(FeltBinary::BitXor, _, _) => "felt.bit_xor",
            Op::FeltUnary(FeltUnary::Neg, _) => "felt.neg",
            Op::FeltUnary(FeltUnary::Inv, _) => "felt.inv",
            Op::Compare(Comparison::Eq, _, _) => "bool.cmp eq",
            Op::Compare(Comparison::Ne, _, _) => "bool.cmp ne",
            Op::Compare(Comparison::Lt, _, _) => "bool.cmp lt",
            Op::Compare(Comparison::Ge, _, _) => "bool.cmp ge",
            Op::CompareInt(_, _) => "arith.cmpi eq",
            Op::BoolBinary(BoolBinary::And, _, _) => "bool.and",
            Op::BoolBinary(BoolBinary::Or, _, _) => "bool.or",
            Op::BoolNot(_) => "bool.not",
            Op::Select(_, _, _) => "arith.select",
            Op::ArrayRead(_, _) => "array.read",
            Op::Nondet(_) => "llzk.nondet",
            Op::MemberRead(_, _, _) => "struct.readm",
            Op::MemberWrite(_, _, _) => "struct.writem",
            Op::ArrayWrite(_, _, _) => "array.write",
            Op::Call(_, _, _) => "function.call",
            Op::ConstrainEq(_, _) => "constrain.eq",
        }
    }
}

/// What the arguments and the effects hand to a body. Field elements are taken modulo the
/// characteristic; the last index selects a limb of a register.
pub struct Valuation {
    pub arg: spec_fn(usize, int) -> int,
    pub result: spec_fn(nat, nat, int) -> int,
}

/// The multiplicative inverse of a nonzero field element.
pub open spec fn inverse(a: int) -> int {
    choose|x: int| 0 <= x < CHARACTERISTICS && #[trigger] (a * x) % CHARACTERISTICS as int == 1
}

/// `1` for true and `0` for false.
pub open spec fn truth(b: bool) -> int {
    if b {
        1
    } else {
        0
    }
}

/// The result of a binary operation on canonical representatives.
pub open spec fn felt_binary_value(op: FeltBinary, a: int, b: int) -> int {
    let p = CHARACTERISTICS as int;
    match op {
        FeltBinary::Add => (a + b) % p,
        FeltBinary::Sub => (a - b) % p,
        FeltBinary::Mul => (a * b) % p,
        FeltBinary::Umod => if b == 0 {
            0
        } else {
            a % b
        },
        FeltBinary::Uintdiv => if b == 0 {
            0
        } else {
            a / b
        },
        FeltBinary::Shl => (a * vstd::arithmetic::power2::pow2(b as nat)) % p,
        FeltBinary::Shr => a / vstd::arithmetic::power2::pow2(b as nat) as int,
        FeltBinary::BitAnd => ((a as u32) & (b as u32)) as int % p,
        FeltBinary::BitOr => ((a as u32) | (b as u32)) as int % p,
        FeltBinary::BitXor => ((a as u32) ^ (b as u32)) as int % p,
    }
}

/// The truth of a comparison of canonical representatives.
pub open spec fn comparison_value(op: Comparison, a: int, b: int) -> bool {
    match op {
        Comparison::Eq => a == b,
        Comparison::Ne => a != b,
        Comparison::Lt => a < b,
        Comparison::Ge => a >= b,
    }
}

impl Sym {
    /// The value of a term.
    #[verifier::opaque]
    pub open spec fn eval(self, rho: Valuation) -> int
        decreases self,
    {
        let p = CHARACTERISTICS as int;
        match self {
            Sym::Arg(i) => (rho.arg)(i, 0) % p,
            Sym::SelfStruct => 0,
            Sym::Const(ConstType::Felt, c) => c as int % p,
            Sym::Const(_, c) => c as int,
            Sym::FeltBinary(op, a, b) => felt_binary_value(op, a.eval(rho), b.eval(rho)),
            Sym::FeltUnary(FeltUnary::Neg, a) => (0 - a.eval(rho)) % p,
            Sym::FeltUnary(FeltUnary::Inv, a) => inverse(a.eval(rho)),
            Sym::Compare(op, a, b) => truth(comparison_value(op, a.eval(rho), b.eval(rho))),
            Sym::CompareInt(a, b) => truth(a.eval(rho) == b.eval(rho)),
            Sym::BoolBinary(BoolBinary::And, a, b) => truth(
                a.eval(rho) != 0 && b.eval(rho) != 0,
            ),
            Sym::BoolBinary(BoolBinary::Or, a, b) => truth(a.eval(rho) != 0 || b.eval(rho) != 0),
            Sym::BoolNot(a) => truth(a.eval(rho) == 0),
            Sym::Select(c, a, b) => if c.eval(rho) != 0 {
                a.eval(rho)
            } else {
                b.eval(rho)
            },
            Sym::ArrayRead(a, i) => match *a {
                Sym::Arg(n) => (rho.arg)(n, i.eval(rho)) % p,
                Sym::Result(k, r) => (rho.result)(k, r, i.eval(rho)) % p,
                _ => 0,
            },
            Sym::Result(k, r) => (rho.result)(k, r, 0) % p,
            Sym::Unit => 0,
        }
    }
}

/// Whether an effect, if it is a constraint, is satisfied.
pub open spec fn satisfied(e: Effect, rho: Valuation) -> bool {
    match e {
        Effect::ConstrainEq(a, b) => a.eval(rho) == b.eval(rho),
        _ => true,
    }
}

/// Whether every constraint among the effects is satisfied.
pub open spec fn all_satisfied(es: Seq<Effect>, rho: Valuation) -> bool {
    forall|i: int| 0 <= i < es.len() ==> satisfied(#[trigger] es[i], rho)
}

/// Appending effects appends constraints.
pub proof fn satisfied_appended(a: Seq<Effect>, b: Seq<Effect>, rho: Valuation)
    ensures
        all_satisfied(a + b, rho) <==> all_satisfied(a, rho) && all_satisfied(b, rho),
{
    if all_satisfied(a + b, rho) {
        assert forall|i: int| 0 <= i < a.len() implies satisfied(#[trigger] a[i], rho) by {
            assert((a + b)[i] == a[i]);
        }
        assert forall|i: int| 0 <= i < b.len() implies satisfied(#[trigger] b[i], rho) by {
            assert((a + b)[a.len() + i] == b[i]);
        }
    }
}

} // verus!
