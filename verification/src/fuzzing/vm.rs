//! Runs of the machine.
use vstd::prelude::*;

use crate::fuzzing::circuits::CircuitKind;

verus! {

/// The registers that hold the result of a run.
pub type GuestResult = [u32; 8];

/// A register and the time of its last access.
#[derive(Clone, Copy, Debug, PartialEq, Eq, Structural)]
pub struct Register {
    pub value: u32,
    pub timestamp: u64,
}

/// How often each circuit was called.
#[derive(Clone, Copy, Debug, PartialEq, Eq, Structural)]
pub struct Counters {
    pub add_sub_family: usize,
    pub jump_branch_slt_family: usize,
    pub shift_binary_csr_family: usize,
    pub mul_div_family: usize,
    pub word_memory_family: usize,
    pub subword_memory_family: usize,
    pub blake_calls: usize,
    pub keccak_calls: usize,
}

impl Counters {
    /// No calls.
    pub open spec fn zeroed() -> Counters {
        Counters {
            add_sub_family: 0,
            jump_branch_slt_family: 0,
            shift_binary_csr_family: 0,
            mul_div_family: 0,
            word_memory_family: 0,
            subword_memory_family: 0,
            blake_calls: 0,
            keccak_calls: 0,
        }
    }

    /// The calls to a circuit. Memory is torn down without calls.
    pub open spec fn calls_to(self, kind: CircuitKind) -> usize {
        match kind {
            CircuitKind::AddSubLuiAuipcMop => self.add_sub_family,
            CircuitKind::JumpBranchSlt => self.jump_branch_slt_family,
            CircuitKind::XorAndOrShiftCsr => self.shift_binary_csr_family,
            CircuitKind::MulDiv => self.mul_div_family,
            CircuitKind::LoadStore => self.word_memory_family,
            CircuitKind::SubwordLoadStore => self.subword_memory_family,
            CircuitKind::InitsAndTeardowns => 0,
            CircuitKind::BlakeDelegation => self.blake_calls,
            CircuitKind::KeccakDelegation => self.keccak_calls,
        }
    }

    /// No calls.
    pub fn new() -> (r: Counters)
        ensures
            r == Counters::zeroed(),
    {
        Counters {
            add_sub_family: 0,
            jump_branch_slt_family: 0,
            shift_binary_csr_family: 0,
            mul_div_family: 0,
            word_memory_family: 0,
            subword_memory_family: 0,
            blake_calls: 0,
            keccak_calls: 0,
        }
    }

    /// The calls to a circuit.
    pub fn calls(&self, kind: CircuitKind) -> (r: usize)
        ensures
            r == self.calls_to(kind),
    {
        match kind {
            CircuitKind::AddSubLuiAuipcMop => self.add_sub_family,
            CircuitKind::JumpBranchSlt => self.jump_branch_slt_family,
            CircuitKind::XorAndOrShiftCsr => self.shift_binary_csr_family,
            CircuitKind::MulDiv => self.mul_div_family,
            CircuitKind::LoadStore => self.word_memory_family,
            CircuitKind::SubwordLoadStore => self.subword_memory_family,
            CircuitKind::InitsAndTeardowns => 0,
            CircuitKind::BlakeDelegation => self.blake_calls,
            CircuitKind::KeccakDelegation => self.keccak_calls,
        }
    }
}

/// The state of the machine.
#[derive(Clone, Copy, Debug)]
pub struct MachineState {
    pub registers: [Register; 32],
    pub timestamp: u64,
    pub pc: u32,
    pub counters: Counters,
}

impl MachineState {
    /// Whether two states are equal.
    pub fn same(&self, other: &MachineState) -> (r: bool)
        ensures
            r == (*self == *other),
    {
        if self.timestamp != other.timestamp || self.pc != other.pc || self.counters
            != other.counters {
            return false;
        }
        for i in 0..32
            invariant
                forall|j: int| 0 <= j < i ==> self.registers@[j] == other.registers@[j],
        {
            if self.registers[i] != other.registers[i] {
                return false;
            }
        }
        assert(self.registers =~= other.registers);
        true
    }

    /// The state without its counters.
    pub fn without_counters(&self) -> (r: MachineState)
        ensures
            r == (MachineState { counters: Counters::zeroed(), ..*self }),
    {
        MachineState {
            registers: self.registers,
            timestamp: self.timestamp,
            pc: self.pc,
            counters: Counters::new(),
        }
    }
}

/// Whether this is the result of a run: where it ended, the registers from X10 on.
pub open spec fn is_result_of(
    finished: bool,
    state: MachineState,
    r: Option<GuestResult>,
) -> bool {
    &&& r is Some <==> finished
    &&& r matches Some(regs) ==> forall|i: int|
        0 <= i < 8 ==> #[trigger] regs@[i] == state.registers@[i + 10].value
}

/// The result of a run that ended: the registers A0 to A7, which are X10 to X17.
pub fn guest_result(is_program_finished: bool, state: &MachineState) -> (r: Option<GuestResult>)
    ensures
        r is Some <==> is_program_finished,
        r matches Some(regs) ==> forall|i: int|
            0 <= i < 8 ==> #[trigger] regs@[i] == state.registers@[i + 10].value,
        is_result_of(is_program_finished, *state, r),
{
    if is_program_finished {
        let g: &[Register; 32] = &state.registers;
        Some(
            [
                g[10].value,
                g[11].value,
                g[12].value,
                g[13].value,
                g[14].value,
                g[15].value,
                g[16].value,
                g[17].value,
            ],
        )
    } else {
        None
    }
}

/// Data followed by zeros up to a whole number of words.
pub open spec fn aligned(data: Seq<u8>) -> Seq<u8> {
    data + Seq::new(((4 - data.len() % 4) % 4) as nat, |i: int| 0u8)
}

/// The words of whole bytes, with the lowest byte first.
pub open spec fn words_of(data: Seq<u8>) -> Seq<u32> {
    Seq::new(
        data.len() / 4,
        |i: int|
            (data[4 * i] + 0x100 * data[4 * i + 1] + 0x1_0000 * data[4 * i + 2] + 0x100_0000
                * data[4 * i + 3]) as u32,
    )
}

fn align(data: &[u8]) -> (r: Vec<u8>)
    ensures
        r@ == aligned(data@),
{
    let mut out: Vec<u8> = Vec::new();
    for i in 0..data.len()
        invariant
            out@ == data@.take(i as int),
    {
        out.push(data[i]);
        assert(out@ =~= data@.take(i + 1));
    }
    let missing: usize = (4 - data.len() % 4) % 4;
    assert(out@ =~= data@ + Seq::new(0, |i: int| 0u8));
    for i in 0..missing
        invariant
            out@ == data@ + Seq::new(i as nat, |i: int| 0u8),
    {
        out.push(0);
        assert(out@ =~= data@ + Seq::new((i + 1) as nat, |i: int| 0u8));
    }
    out
}

fn into_chunks(data: &Vec<u8>) -> (r: Vec<u32>)
    requires
        data@.len() % 4 == 0,
    ensures
        r@ == words_of(data@),
{
    let count: usize = data.len() / 4;
    let mut out: Vec<u32> = Vec::new();
    assert(4 * count <= data.len());
    for i in 0..count
        invariant
            count == data@.len() / 4,
            4 * count <= usize::MAX,
            out@ == words_of(data@).take(i as int),
    {
        let word: u32 = data[4 * i] as u32 + 0x100 * (data[4 * i + 1] as u32) + 0x1_0000 * (
        data[4 * i + 2] as u32) + 0x100_0000 * (data[4 * i + 3] as u32);
        out.push(word);
        assert(out@ =~= words_of(data@).take(i + 1));
    }
    assert(out@ =~= words_of(data@));
    out
}

/// The bytes that are decoded as instructions: the text section, or the data where it is not known.
pub open spec fn instruction_bytes(data: Seq<u8>, text: Option<Seq<u8>>) -> Seq<u8> {
    match text {
        Some(t) => t,
        None => data,
    }
}

/// A program: its data and, where it is known, its text section.
#[derive(Debug)]
pub struct Binary {
    data: Vec<u8>,
    text: Option<Vec<u8>>,
}

impl Binary {
    /// The data.
    pub closed spec fn data_bytes(self) -> Seq<u8> {
        self.data@
    }

    /// The text section.
    pub closed spec fn text_bytes(self) -> Option<Seq<u8>> {
        match self.text {
            Some(t) => Some(t@),
            None => None,
        }
    }

    /// Whether both sections are made of whole words.
    pub open spec fn wf(self) -> bool {
        &&& self.data_bytes().len() % 4 == 0
        &&& self.text_bytes() matches Some(t) ==> t.len() % 4 == 0
    }

    /// A program, with zeros after each section up to a whole number of words.
    pub fn new(data: &[u8], text: Option<&[u8]>) -> (r: Binary)
        ensures
            r.wf(),
            r.data_bytes() == aligned(data@),
            r.text_bytes() == match text {
                Some(t) => Some(aligned(t@)),
                None => None,
            },
    {
        Binary {
            data: align(data),
            text: match text {
                Some(t) => Some(align(t)),
                None => None,
            },
        }
    }

    /// The data.
    pub fn data(&self) -> (r: &Vec<u8>)
        ensures
            r@ == self.data_bytes(),
    {
        &self.data
    }

    /// The text section.
    pub fn text(&self) -> (r: Option<&Vec<u8>>)
        ensures
            match (r, self.text_bytes()) {
                (Some(t), Some(s)) => t@ == s,
                (None, None) => true,
                _ => false,
            },
    {
        match &self.text {
            Some(t) => Some(t),
            None => None,
        }
    }

    /// The data as words.
    pub fn data_chunks(&self) -> (r: Vec<u32>)
        requires
            self.wf(),
        ensures
            r@ == words_of(self.data_bytes()),
    {
        into_chunks(&self.data)
    }

    /// The text section as words.
    pub fn text_chunks(&self) -> (r: Option<Vec<u32>>)
        requires
            self.wf(),
        ensures
            match (r, self.text_bytes()) {
                (Some(t), Some(s)) => t@ == words_of(s),
                (None, None) => true,
                _ => false,
            },
    {
        match &self.text {
            Some(t) => Some(into_chunks(t)),
            None => None,
        }
    }

    /// The words that are decoded as instructions: the text section, or the data where it is not
    /// known.
    pub fn instruction_words(&self) -> (r: Vec<u32>)
        requires
            self.wf(),
        ensures
            r@ == words_of(
                match self.text_bytes() {
                    Some(t) => t,
                    None => self.data_bytes(),
                },
            ),
            r@ == words_of(instruction_bytes(self.data_bytes(), self.text_bytes())),
    {
        match self.text_chunks() {
            Some(chunks) => chunks,
            None => self.data_chunks(),
        }
    }
}

/// Whether the text section is the beginning of the data.
pub fn text_is_beginning_of_data(data: &[u8], text: &[u8]) -> (r: bool)
    ensures
        r == (text@.len() <= data@.len() && data@.take(text@.len() as int) == text@),
{
    if data.len() < text.len() {
        return false;
    }
    for i in 0..text.len()
        invariant
            text@.len() <= data@.len(),
            forall|j: int| 0 <= j < i ==> data@[j] == text@[j],
    {
        if data[i] != text[i] {
            assert(data@.take(text@.len() as int)[i as int] != text@[i as int]);
            return false;
        }
    }
    assert(data@.take(text@.len() as int) =~= text@);
    true
}

/// How a run of the machine ended.
#[derive(Debug)]
pub enum VmRun {
    Returned(Option<GuestResult>),
    Panicked(String),
    PanickedWithoutText,
}

/// What a run of the machine comes to.
#[derive(Debug)]
pub enum VmOutcome {
    Result(Option<GuestResult>),
    Abort,
    Panic,
}

/// Whether a text begins with a prefix.
pub open spec fn begins_with(s: Seq<char>, prefix: Seq<char>) -> bool {
    prefix.len() <= s.len() && s.take(prefix.len() as int) == prefix
}

fn starts_with(s: &str, prefix: &str) -> (r: bool)
    ensures
        r == begins_with(s@, prefix@),
{
    let n: usize = prefix.unicode_len();
    if s.unicode_len() < n {
        return false;
    }
    for i in 0..n
        invariant
            n == prefix@.len(),
            n <= s@.len(),
            forall|j: int| 0 <= j < i ==> s@[j] == prefix@[j],
    {
        if s.get_char(i) != prefix.get_char(i) {
            assert(s@.take(n as int)[i as int] != prefix@[i as int]);
            return false;
        }
    }
    assert(s@.take(n as int) =~= prefix@);
    true
}

/// Whether a panic reports an exception of the guest.
pub open spec fn is_guest_exception(s: Seq<char>) -> bool {
    begins_with(s, "Illegal instruction encounteted at PC ="@) || begins_with(
        s,
        "Unaligned memory access at PC ="@,
    )
}

/// A panic that the machine raises for an exception of the guest gives no result; another one ends
/// the process or is raised again.
pub fn check_panic_string<const ABORT: bool>(s: &str) -> (r: VmOutcome)
    ensures
        r == if is_guest_exception(s@) {
            VmOutcome::Result(None)
        } else if ABORT {
            VmOutcome::Abort
        } else {
            VmOutcome::Panic
        },
{
    if starts_with(s, "Illegal instruction encounteted at PC =") || starts_with(
        s,
        "Unaligned memory access at PC =",
    ) {
        return VmOutcome::Result(None);
    }
    if ABORT {
        VmOutcome::Abort
    } else {
        VmOutcome::Panic
    }
}

/// What a run comes to: its result, or what its panic asks for.
pub open spec fn outcome_of(run: VmRun, abort: bool) -> VmOutcome {
    let other = if abort {
        VmOutcome::Abort
    } else {
        VmOutcome::Panic
    };
    match run {
        VmRun::Returned(result) => VmOutcome::Result(result),
        VmRun::Panicked(s) => if is_guest_exception(s@) {
            VmOutcome::Result(None)
        } else {
            other
        },
        VmRun::PanickedWithoutText => other,
    }
}

/// What a run comes to: its result, or what its panic asks for.
pub fn run_vm<const ABORT: bool>(run: VmRun) -> (r: VmOutcome)
    ensures
        r == match run {
            VmRun::Returned(result) => VmOutcome::Result(result),
            VmRun::Panicked(s) => if is_guest_exception(s@) {
                VmOutcome::Result(None)
            } else if ABORT {
                VmOutcome::Abort
            } else {
                VmOutcome::Panic
            },
            VmRun::PanickedWithoutText => if ABORT {
                VmOutcome::Abort
            } else {
                VmOutcome::Panic
            },
        },
        r == outcome_of(run, ABORT),
{
    match run {
        VmRun::Returned(result) => VmOutcome::Result(result),
        VmRun::Panicked(s) => check_panic_string::<ABORT>(s.as_str()),
        VmRun::PanickedWithoutText => if ABORT {
            VmOutcome::Abort
        } else {
            VmOutcome::Panic
        },
    }
}

/// Aligned data is made of whole words, begins with the data, and is the data where that is made of
/// whole words already.
pub proof fn alignment_pads_to_words(data: Seq<u8>)
    ensures
        aligned(data).len() % 4 == 0,
        data.len() <= aligned(data).len() < data.len() + 4,
        aligned(data).take(data.len() as int) == data,
        data.len() % 4 == 0 ==> aligned(data) == data,
        forall|i: int|
            data.len() <= i < aligned(data).len() ==> #[trigger] aligned(data)[i] == 0,
        aligned(aligned(data)) == aligned(data),
{
    let n = data.len();
    let padding = ((4 - n % 4) % 4) as nat;
    assert((n + padding) % 4 == 0 && padding < 4);
    let whole = aligned(data);
    assert(whole.len() == n + padding);
    assert(whole.take(n as int) =~= data);
    if n % 4 == 0 {
        assert(whole =~= data);
    }
    assert((4 - whole.len() % 4) % 4 == 0);
    assert(aligned(whole) =~= whole);
}

/// Every family and every delegation has a counter of its own, and memory is torn down without
/// calls.
pub proof fn counters_count_their_circuits(c: Counters)
    ensures
        c.calls_to(CircuitKind::AddSubLuiAuipcMop) == c.add_sub_family,
        c.calls_to(CircuitKind::JumpBranchSlt) == c.jump_branch_slt_family,
        c.calls_to(CircuitKind::XorAndOrShiftCsr) == c.shift_binary_csr_family,
        c.calls_to(CircuitKind::MulDiv) == c.mul_div_family,
        c.calls_to(CircuitKind::LoadStore) == c.word_memory_family,
        c.calls_to(CircuitKind::SubwordLoadStore) == c.subword_memory_family,
        c.calls_to(CircuitKind::InitsAndTeardowns) == 0,
        c.calls_to(CircuitKind::BlakeDelegation) == c.blake_calls,
        c.calls_to(CircuitKind::KeccakDelegation) == c.keccak_calls,
{
}

/// No circuit was called where the counters start.
pub proof fn new_counters_count_nothing(kind: CircuitKind)
    ensures
        Counters::zeroed().calls_to(kind) == 0,
{
}

proof fn lemma_bytes(a: int, b: int, c: int, d: int)
    requires
        0 <= a < 0x100,
        0 <= b < 0x100,
        0 <= c < 0x100,
        0 <= d < 0x100,
    ensures
        ({
            let word = a + 0x100 * b + 0x1_0000 * c + 0x100_0000 * d;
            &&& word % 0x100 == a
            &&& (word / 0x100) % 0x100 == b
            &&& (word / 0x1_0000) % 0x100 == c
            &&& (word / 0x100_0000) % 0x100 == d
        }),
{
    let word = a + 0x100 * b + 0x1_0000 * c + 0x100_0000 * d;
    assert(word / 0x100 == b + 0x100 * c + 0x1_0000 * d);
    assert(word / 0x1_0000 == c + 0x100 * d);
    assert(word / 0x100_0000 == d);
}

/// A word is made of four bytes in order, the lowest first: writing it out again gives the bytes.
pub proof fn words_hold_their_bytes(data: Seq<u8>, i: int)
    requires
        data.len() % 4 == 0,
        0 <= i < data.len(),
    ensures
        words_of(data).len() * 4 == data.len(),
        data[i] == (words_of(data)[i / 4] as int / (if i % 4 == 0 {
            1int
        } else if i % 4 == 1 {
            0x100
        } else if i % 4 == 2 {
            0x1_0000
        } else {
            0x100_0000
        })) % 0x100,
{
    let j = i / 4;
    let word = words_of(data)[j] as int;
    let a = data[4 * j] as int;
    let b = data[4 * j + 1] as int;
    let c = data[4 * j + 2] as int;
    let d = data[4 * j + 3] as int;
    assert(word == a + 0x100 * b + 0x1_0000 * c + 0x100_0000 * d);
    lemma_bytes(a, b, c, d);
    assert(i == 4 * j || i == 4 * j + 1 || i == 4 * j + 2 || i == 4 * j + 3);
}

/// The result of a run that ended is in A0 to A7, the registers X10 to X17 in order, and a run that
/// did not end has none.
pub proof fn results_are_in_the_argument_registers(
    finished: bool,
    state: MachineState,
    r: Option<GuestResult>,
)
    requires
        is_result_of(finished, state, r),
    ensures
        r is Some <==> finished,
        r matches Some(regs) ==> {
            &&& regs@[0] == state.registers@[10].value
            &&& regs@[1] == state.registers@[11].value
            &&& regs@[2] == state.registers@[12].value
            &&& regs@[3] == state.registers@[13].value
            &&& regs@[4] == state.registers@[14].value
            &&& regs@[5] == state.registers@[15].value
            &&& regs@[6] == state.registers@[16].value
            &&& regs@[7] == state.registers@[17].value
        },
{
    if let Some(regs) = r {
        assert(regs@[0] == state.registers@[0int + 10int].value);
        assert(regs@[1] == state.registers@[1int + 10int].value);
        assert(regs@[2] == state.registers@[2int + 10int].value);
        assert(regs@[3] == state.registers@[3int + 10int].value);
        assert(regs@[4] == state.registers@[4int + 10int].value);
        assert(regs@[5] == state.registers@[5int + 10int].value);
        assert(regs@[6] == state.registers@[6int + 10int].value);
        assert(regs@[7] == state.registers@[7int + 10int].value);
    }
}

/// A text begins with another exactly where it is that text with something after it.
pub proof fn beginnings_are_continued(s: Seq<char>, prefix: Seq<char>)
    ensures
        begins_with(s, prefix) <==> exists|rest: Seq<char>| s == #[trigger] (prefix + rest),
{
    if begins_with(s, prefix) {
        let rest = s.skip(prefix.len() as int);
        assert(s =~= prefix + rest);
    }
    if exists|rest: Seq<char>| s == #[trigger] (prefix + rest) {
        let rest = choose|rest: Seq<char>| s == #[trigger] (prefix + rest);
        assert(s.take(prefix.len() as int) =~= prefix);
    }
}

/// Exceptions of the guest are illegal instructions and unaligned accesses, reported with the program
/// counter; a panic that reports one gives no result, and no other panic is taken for one.
pub proof fn guest_exceptions_give_no_result(
    s: Seq<char>,
    at: Seq<char>,
    run: VmRun,
    abort: bool,
)
    ensures
        is_guest_exception("Illegal instruction encounteted at PC ="@ + at),
        is_guest_exception("Unaligned memory access at PC ="@ + at),
        is_guest_exception(s) ==> (exists|rest: Seq<char>|
            s == #[trigger] ("Illegal instruction encounteted at PC ="@ + rest)) || (exists|
            rest: Seq<char>,
        |
            s == #[trigger] ("Unaligned memory access at PC ="@ + rest)),
        outcome_of(run, abort) == VmOutcome::Result(None) <==> (run == VmRun::Returned(None) || (
        run matches VmRun::Panicked(text) && is_guest_exception(text@))),
        run matches VmRun::Returned(result) ==> outcome_of(run, abort) == VmOutcome::Result(result),
        !(outcome_of(run, abort) is Result) ==> (outcome_of(run, abort) is Abort <==> abort),
{
    let illegal = "Illegal instruction encounteted at PC ="@;
    let unaligned = "Unaligned memory access at PC ="@;
    assert((illegal + at).take(illegal.len() as int) =~= illegal);
    assert((unaligned + at).take(unaligned.len() as int) =~= unaligned);
    if is_guest_exception(s) {
        if begins_with(s, illegal) {
            let rest = s.skip(illegal.len() as int);
            assert(s =~= illegal + rest);
        } else {
            let rest = s.skip(unaligned.len() as int);
            assert(s =~= unaligned + rest);
        }
    }
}

/// The instructions of a program are the words of its text section where that is known, and of its
/// data elsewhere.
pub proof fn instructions_are_those_of_the_text(data: Seq<u8>, text: Option<Seq<u8>>)
    ensures
        text matches Some(t) ==> instruction_bytes(data, text) == t,
        text is None ==> instruction_bytes(data, text) == data,
{
}

} // verus!
