//! Runs of the machine that results are compared with.
use vstd::prelude::*;
use vstd::string::StringExecFns;

use crate::circuit::ROM_SECOND_WORD_BITS;
use crate::fuzzing::rv32im;
use crate::fuzzing::rv32im::ENTRYPOINT;
use crate::fuzzing::rv32im::TOTAL_MEM_SIZE;
use crate::fuzzing::vm;
use crate::fuzzing::vm::GuestResult;
use crate::fuzzing::vm::MachineState;
use crate::text;
use crate::text::push_decimal;

verus! {

/// The size of the read-only memory.
pub const ROM: u64 = 0x40_0000;

/// The size of the memory after the read-only memory.
pub const RAM: u64 = 0x3fc0_0000;

/// What a section of the memory allows.
#[derive(Clone, Copy, Debug, PartialEq, Eq, Structural)]
pub enum Protection {
    Execute,
    ReadWrite,
}

/// A section of the memory.
#[derive(Clone, Copy, Debug, PartialEq, Eq, Structural)]
pub struct Section {
    pub base: u64,
    pub size: u64,
    pub protection: Protection,
}

/// The sections of the memory: the read-only memory at the entrypoint, and the rest right after it.
pub fn memory_sections() -> (r: [Section; 2])
    ensures
        r@[0] == (Section {
            base: ENTRYPOINT as u64,
            size: ROM,
            protection: Protection::Execute,
        }),
        r@[1] == (Section { base: ROM, size: RAM, protection: Protection::ReadWrite }),
{
    [
        Section { base: ENTRYPOINT as u64, size: ROM, protection: Protection::Execute },
        Section { base: ROM, size: RAM, protection: Protection::ReadWrite },
    ]
}

/// The sections lie one after the other and fill the address space.
pub proof fn sections_fill_the_memory()
    ensures
        ENTRYPOINT + ROM == ROM,
        ROM + RAM == TOTAL_MEM_SIZE,
{
}

/// What is remembered between instructions.
#[derive(Clone, Copy, Debug, PartialEq, Eq, Structural)]
pub struct HookState {
    /// The address of the previous instruction.
    pub prev_pc: Option<u64>,
    /// Whether an instruction was met that the target does not support.
    pub unsupported_instructions: bool,
}

/// What to do at an instruction.
#[derive(Clone, Copy, Debug, PartialEq, Eq, Structural)]
pub struct HookAction {
    /// Stop the run.
    pub stop: bool,
    /// Read the instruction.
    pub read_instruction: bool,
}

/// What is remembered after an instruction, and what to do at it.
pub open spec fn hooked(before: HookState, addr: u64, size: u32) -> (HookState, HookAction) {
    (
        HookState {
            prev_pc: Some(addr),
            unsupported_instructions: before.unsupported_instructions || size == 2,
        },
        HookAction { stop: before.prev_pc == Some(addr), read_instruction: size != 2 },
    )
}

impl HookState {
    /// Before the first instruction.
    pub fn new() -> (r: HookState)
        ensures
            r == (HookState { prev_pc: None, unsupported_instructions: false }),
    {
        HookState { prev_pc: None, unsupported_instructions: false }
    }

    /// At an instruction: one that jumps to itself ends the run, and one of two bytes is not
    /// supported by the target.
    pub fn on_code(&mut self, addr: u64, size: u32) -> (r: HookAction)
        ensures
            r.stop == (old(self).prev_pc == Some(addr)),
            r.read_instruction == (size != 2),
            *final(self) == (HookState {
                prev_pc: Some(addr),
                unsupported_instructions: old(self).unsupported_instructions || size == 2,
            }),
            (*final(self), r) == hooked(*old(self), addr, size),
    {
        let stop: bool = match self.prev_pc {
            Some(prev) => prev == addr,
            None => false,
        };
        self.prev_pc = Some(addr);
        if size == 2 {
            self.unsupported_instructions = true;
        }
        HookAction { stop, read_instruction: size != 2 }
    }
}

/// Why there is no result.
#[derive(Debug, PartialEq, Eq)]
pub enum Error {
    /// The machine reported the error with this text.
    Unicorn(String),
    /// The value of a register has more than 32 bits.
    U32(u64),
    /// There were as many registers, not eight.
    UnexpectedRegisterListSize(usize),
}

/// An error as plain values.
pub enum ErrorView {
    Unicorn(Seq<char>),
    U32(u64),
    UnexpectedRegisterListSize(usize),
}

impl View for Error {
    type V = ErrorView;

    open spec fn view(&self) -> ErrorView {
        match *self {
            Error::Unicorn(text) => ErrorView::Unicorn(text@),
            Error::U32(v) => ErrorView::U32(v),
            Error::UnexpectedRegisterListSize(n) => ErrorView::UnexpectedRegisterListSize(n),
        }
    }
}

impl Error {
    /// The error as text.
    pub fn message(&self) -> (r: String)
        ensures
            match self@ {
                ErrorView::UnexpectedRegisterListSize(n) => r@ == "expected 8 registers, but got "@
                    + text::decimal(n as nat),
                ErrorView::U32(_) => r@
                    == "u64 to u32 conversion error: out of range integral type conversion attempted"@,
                ErrorView::Unicorn(reported) => r@ == "unicorn error: "@ + reported,
            },
    {
        match self {
            Error::UnexpectedRegisterListSize(n) => {
                let mut out = String::from_str("expected 8 registers, but got ");
                push_decimal(&mut out, *n as u64);
                out
            },
            Error::U32(_) => String::from_str(
                "u64 to u32 conversion error: out of range integral type conversion attempted",
            ),
            Error::Unicorn(reported) => {
                let mut out = String::from_str("unicorn error: ");
                out.append(reported.as_str());
                out
            },
        }
    }
}

/// What the machine reported of a run.
#[derive(Debug)]
pub struct UnicornRun {
    /// Whether the run ended without an error.
    pub completed: bool,
    /// The error of removing the hook, if there was one.
    pub hook_error: Option<String>,
    /// The values read from the registers A0 to A7, each with the error of reading it.
    pub registers: Vec<Result<u64, String>>,
}

/// Why the value of a register is of no use.
pub open spec fn register_error(reading: Result<u64, String>) -> Option<ErrorView> {
    match reading {
        Err(reported) => Some(ErrorView::Unicorn(reported@)),
        Ok(v) => if v > u32::MAX {
            Some(ErrorView::U32(v))
        } else {
            None
        },
    }
}

/// The error of the first register whose value is of no use.
pub open spec fn first_error(readings: Seq<Result<u64, String>>) -> Option<ErrorView>
    decreases readings.len(),
{
    if readings.len() == 0 {
        None
    } else {
        match register_error(readings[0]) {
            Some(e) => Some(e),
            None => first_error(readings.skip(1)),
        }
    }
}

/// Whether a run has a result to read: it ended, and met only instructions that the target supports.
pub open spec fn has_result(state: HookState, run: UnicornRun) -> bool {
    run.completed && !state.unsupported_instructions
}

/// Whether this is the result of a run.
pub open spec fn is_run_result(
    state: HookState,
    run: UnicornRun,
    r: Result<Option<GuestResult>, Error>,
) -> bool {
    if !run.completed {
        match run.hook_error {
            Some(reported) => r matches Err(e) && e@ == ErrorView::Unicorn(reported@),
            None => r == Ok::<Option<GuestResult>, Error>(None),
        }
    } else if state.unsupported_instructions {
        r == Ok::<Option<GuestResult>, Error>(None)
    } else {
        match run.hook_error {
            Some(reported) => r matches Err(e) && e@ == ErrorView::Unicorn(reported@),
            None => match first_error(run.registers@) {
                Some(x) => r matches Err(e) && e@ == x,
                None => if run.registers@.len() != 8 {
                    r matches Err(e) && e@ == ErrorView::UnexpectedRegisterListSize(
                        run.registers@.len() as usize,
                    )
                } else {
                    r matches Ok(Some(values)) && forall|i: int|
                        0 <= i < 8 ==> run.registers@[i] == Ok::<u64, String>(
                            #[trigger] values@[i] as u64,
                        )
                },
            },
        }
    }
}

/// The result of a run. A run that failed, or that met an instruction that the target does not
/// support, has no result.
pub fn run_on_unicorn(state: &HookState, run: &UnicornRun) -> (r: Result<
    Option<GuestResult>,
    Error,
>)
    ensures
        has_result(*state, *run) ==> match run.hook_error {
            Some(reported) => r matches Err(e) && e@ == ErrorView::Unicorn(reported@),
            None => match first_error(run.registers@) {
                Some(x) => r matches Err(e) && e@ == x,
                None => if run.registers@.len() != 8 {
                    r matches Err(e) && e@ == ErrorView::UnexpectedRegisterListSize(
                        run.registers@.len() as usize,
                    )
                } else {
                    r matches Ok(Some(values)) && forall|i: int|
                        0 <= i < 8 ==> run.registers@[i] == Ok::<u64, String>(
                            #[trigger] values@[i] as u64,
                        )
                },
            },
        },
        !run.completed ==> match run.hook_error {
            Some(reported) => r matches Err(e) && e@ == ErrorView::Unicorn(reported@),
            None => r == Ok::<Option<GuestResult>, Error>(None),
        },
        run.completed && state.unsupported_instructions ==> r == Ok::<
            Option<GuestResult>,
            Error,
        >(None),
        is_run_result(*state, *run, r),
{
    if !run.completed {
        return match &run.hook_error {
            Some(reported) => Err(Error::Unicorn(reported.clone())),
            None => Ok(None),
        };
    }
    if state.unsupported_instructions {
        return Ok(None);
    }
    if let Some(reported) = &run.hook_error {
        return Err(Error::Unicorn(reported.clone()));
    }
    let ghost all = run.registers@;
    let mut values: Vec<u32> = Vec::new();
    assert(all.skip(0) =~= all);
    for i in 0..run.registers.len()
        invariant
            has_result(*state, *run),
            run.hook_error is None,
            all == run.registers@,
            first_error(all) == first_error(all.skip(i as int)),
            values@.len() == i,
            forall|j: int| 0 <= j < i ==> all[j] == Ok::<u64, String>(#[trigger] values@[j] as u64),
    {
        assert(all.skip(i as int)[0] == all[i as int]);
        assert(all.skip(i as int).skip(1) =~= all.skip(i + 1));
        match &run.registers[i] {
            Err(reported) => {
                return Err(Error::Unicorn(reported.clone()));
            },
            Ok(v) => {
                if *v > u32::MAX as u64 {
                    return Err(Error::U32(*v));
                }
                values.push(*v as u32);
            },
        }
    }
    if values.len() != 8 {
        return Err(Error::UnexpectedRegisterListSize(values.len()));
    }
    Ok(
        Some(
            [
                values[0],
                values[1],
                values[2],
                values[3],
                values[4],
                values[5],
                values[6],
                values[7],
            ],
        ),
    )
}

/// The memory is that of the target: the read-only memory is as large as its second address word
/// allows, and the rest follows it.
pub proof fn sections_are_those_of_the_target()
    ensures
        ENTRYPOINT == 0,
        ROM == 0x1_0000 * vstd::arithmetic::power2::pow2(ROM_SECOND_WORD_BITS as nat),
        ROM + RAM == 0x4000_0000,
{
    vstd::arithmetic::power2::lemma2_to64();
}

/// The first register that is of no use decides the error: one that could not be read, with what the
/// machine reported, or one whose value has more than 32 bits.
pub proof fn first_errors_come_first(readings: Seq<Result<u64, String>>)
    ensures
        first_error(readings) is None <==> (forall|i: int|
            0 <= i < readings.len() ==> ((#[trigger] readings[i]) matches Ok(v) && v <= u32::MAX)),
        first_error(readings) matches Some(e) ==> exists|i: int|
            0 <= i < readings.len() && (match #[trigger] readings[i] {
                Ok(v) => v > u32::MAX && e == ErrorView::U32(v),
                Err(reported) => e == ErrorView::Unicorn(reported@),
            }) && (forall|j: int|
                0 <= j < i ==> ((#[trigger] readings[j]) matches Ok(v) && v <= u32::MAX)),
    decreases readings.len(),
{
    if readings.len() > 0 {
        let rest = readings.skip(1);
        first_errors_come_first(rest);
        match register_error(readings[0]) {
            Some(e) => {
                assert(match readings[0] {
                    Ok(v) => v > u32::MAX && e == ErrorView::U32(v),
                    Err(reported) => e == ErrorView::Unicorn(reported@),
                });
            },
            None => {
                if first_error(rest) is None {
                    assert forall|i: int| 0 <= i < readings.len() implies ((
                    #[trigger] readings[i]) matches Ok(v) && v <= u32::MAX) by {
                        if i > 0 {
                            assert(rest[i - 1] == readings[i]);
                        }
                    }
                } else {
                    let e = first_error(rest)->0;
                    let k = choose|i: int|
                        0 <= i < rest.len() && (match #[trigger] rest[i] {
                            Ok(v) => v > u32::MAX && e == ErrorView::U32(v),
                            Err(reported) => e == ErrorView::Unicorn(reported@),
                        }) && (forall|j: int|
                            0 <= j < i ==> ((#[trigger] rest[j]) matches Ok(v) && v <= u32::MAX));
                    assert(readings[k + 1] == rest[k]);
                    assert forall|j: int| 0 <= j < k + 1 implies ((
                    #[trigger] readings[j]) matches Ok(v) && v <= u32::MAX) by {
                        if j > 0 {
                            assert(rest[j - 1] == readings[j]);
                        }
                    }
                }
            },
        }
    }
}

/// A run that ended on supported instructions, and whose eight registers could be read, has just the
/// values that were read as its result, so that a target with these values in A0 to A7 agrees with
/// it, and one with another value in one of them does not.
pub proof fn runs_are_compared_register_by_register(
    state: HookState,
    run: UnicornRun,
    r: Result<Option<GuestResult>, Error>,
    finished: bool,
    machine: MachineState,
    target: Option<GuestResult>,
)
    requires
        is_run_result(state, run, r),
        run.completed,
        !state.unsupported_instructions,
        run.hook_error is None,
        run.registers@.len() == 8,
        forall|i: int|
            0 <= i < 8 ==> ((#[trigger] run.registers@[i]) matches Ok(v) && v <= u32::MAX),
        vm::is_result_of(finished, machine, target),
        finished,
    ensures
        r matches Ok(oracle) && (rv32im::verdict_on(Some(oracle), target) is Agreed <==> (forall|
            i: int,
        |
            0 <= i < 8 ==> #[trigger] run.registers@[i] == Ok::<u64, String>(
                machine.registers@[i + 10].value as u64,
            ))),
{
    first_errors_come_first(run.registers@);
    let oracle = r->Ok_0;
    let a = oracle->0;
    let b = target->0;
    if forall|i: int|
        0 <= i < 8 ==> #[trigger] run.registers@[i] == Ok::<u64, String>(
            machine.registers@[i + 10].value as u64,
        ) {
        assert forall|i: int| 0 <= i < 8 implies a@[i] == b@[i] by {
            assert(run.registers@[i] == Ok::<u64, String>(a@[i] as u64));
            assert(b@[i] == machine.registers@[i + 10].value);
        }
        assert(a =~= b);
    }
    if oracle == target {
        assert forall|i: int| 0 <= i < 8 implies #[trigger] run.registers@[i] == Ok::<u64, String>(
            machine.registers@[i + 10].value as u64,
        ) by {
            assert(run.registers@[i] == Ok::<u64, String>(a@[i] as u64));
            assert(b@[i] == machine.registers@[i + 10].value);
        }
    }
}

/// A run that did not end has no result, or the error of removing the hook; a run that met an
/// instruction that the target does not support has none.
pub proof fn failed_runs_have_no_result(
    state: HookState,
    run: UnicornRun,
    r: Result<Option<GuestResult>, Error>,
)
    requires
        is_run_result(state, run, r),
        !run.completed || state.unsupported_instructions,
    ensures
        r matches Ok(result) ==> result is None,
        r matches Err(e) ==> !run.completed && (run.hook_error matches Some(reported) && e@
            == ErrorView::Unicorn(reported@)),
{
}

/// The run is stopped at an instruction that follows itself and at no other, and once an instruction
/// of two bytes was met, that stays known.
pub proof fn hooks_watch_every_instruction(before: HookState, addr: u64, size: u32, next: u64)
    ensures
        hooked(before, addr, size).1.stop <==> before.prev_pc == Some(addr),
        hooked(hooked(before, addr, size).0, next, size).1.stop <==> next == addr,
        hooked(before, addr, 2).0.unsupported_instructions,
        before.unsupported_instructions ==> hooked(before, addr, size).0.unsupported_instructions,
        size != 2 ==> hooked(before, addr, size).0.unsupported_instructions
            == before.unsupported_instructions,
        hooked(before, addr, size).1.read_instruction <==> size != 2,
{
}

} // verus!
