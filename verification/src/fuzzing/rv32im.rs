//! Fuzzing of the machine with random programs.
use vstd::prelude::*;

use crate::fuzzing::vm::GuestResult;

verus! {

/// Default amount of cycles.
pub const DEFAULT_CYCLES: usize = 32_000_000;

/// Where a program starts.
pub const ENTRYPOINT: u32 = 0;

/// The size of the address space.
pub const TOTAL_MEM_SIZE: u64 = 0x4000_0000;

/// Available fuzzing modes
#[derive(Clone, Copy, Debug, PartialEq, Eq, Structural)]
pub enum Mode {
    /// Dumb fuzzing that runs the prover with random binary inputs.
    Dumb,
    /// Runs the input against the target and an unicorn VM, comparing the results.
    Unicorn,
}

/// How a fuzzing session goes.
#[derive(Clone, Copy, Debug, PartialEq, Eq, Structural)]
pub struct Session {
    /// The number of inputs to take, or no limit.
    pub loop_count: Option<u64>,
    /// Whether the results are compared with those of the other machine.
    pub with_oracle: bool,
    /// Whether the results are printed.
    pub print_result: bool,
}

/// The session of a mode. A test takes one input and prints the result.
pub open spec fn session_of(mode: Mode, test_one: bool) -> Session {
    Session {
        loop_count: if test_one {
            Some(1u64)
        } else {
            None
        },
        with_oracle: mode is Unicorn,
        print_result: test_one,
    }
}

/// The session of a mode. A test takes one input and prints the result.
pub fn run(mode: Mode, test_one: bool) -> (r: Session)
    ensures
        r.loop_count == if test_one {
            Some(1u64)
        } else {
            None
        },
        r.with_oracle == (mode == Mode::Unicorn),
        r.print_result == test_one,
        r == session_of(mode, test_one),
{
    Session {
        loop_count: if test_one {
            Some(1)
        } else {
            None
        },
        with_oracle: match mode {
            Mode::Dumb => false,
            Mode::Unicorn => true,
        },
        print_result: test_one,
    }
}

/// What came of one input.
#[derive(Clone, Copy, Debug, PartialEq, Eq, Structural)]
pub enum Verdict {
    /// The other machine failed, so there is nothing to compare with.
    Skipped,
    /// Both machines gave the same result.
    Agreed,
    /// The machines gave different results.
    Disagreed,
}

/// Whether two results are equal.
pub fn same_result(a: &Option<GuestResult>, b: &Option<GuestResult>) -> (r: bool)
    ensures
        r == (*a == *b),
{
    match (a, b) {
        (Some(x), Some(y)) => {
            for i in 0..8
                invariant
                    *a == Some(*x),
                    *b == Some(*y),
                    forall|j: int| 0 <= j < i ==> x@[j] == y@[j],
            {
                if x[i] != y[i] {
                    return false;
                }
            }
            assert(*x =~= *y);
            true
        },
        (None, None) => true,
        _ => false,
    }
}

/// The verdict on one input: the other machine's result, where it has one, against the target's.
pub open spec fn verdict_on(
    oracle: Option<Option<GuestResult>>,
    target: Option<GuestResult>,
) -> Verdict {
    match oracle {
        None => Verdict::Skipped,
        Some(o) => if o == target {
            Verdict::Agreed
        } else {
            Verdict::Disagreed
        },
    }
}

/// The verdict on one input: the other machine's result, where it has one, against the target's.
pub fn compare_results(
    oracle: &Option<Option<GuestResult>>,
    target: &Option<GuestResult>,
) -> (r: Verdict)
    ensures
        r == match *oracle {
            None => Verdict::Skipped,
            Some(o) => if o == *target {
                Verdict::Agreed
            } else {
                Verdict::Disagreed
            },
        },
        r == verdict_on(*oracle, *target),
{
    match oracle {
        None => Verdict::Skipped,
        Some(o) => if same_result(o, target) {
            Verdict::Agreed
        } else {
            Verdict::Disagreed
        },
    }
}

/// Where there is something to compare with, equal results agree and different ones do not; where
/// there is not, the input is skipped.
pub proof fn verdicts_compare_the_results(
    oracle: Option<Option<GuestResult>>,
    target: Option<GuestResult>,
)
    ensures
        verdict_on(oracle, target) is Skipped <==> oracle is None,
        verdict_on(oracle, target) is Agreed <==> oracle == Some(target),
        oracle matches Some(o) ==> (verdict_on(oracle, target) is Disagreed <==> o != target),
        oracle matches Some(o) ==> verdict_on(Some(o), target) == verdict_on(Some(target), o),
{
}

/// Only fuzzing against the other machine compares results, a test takes one input and prints its
/// result, and a session that is no test goes on.
pub proof fn sessions_follow_their_mode(test_one: bool)
    ensures
        session_of(Mode::Unicorn, test_one).with_oracle,
        !session_of(Mode::Dumb, test_one).with_oracle,
        forall|mode: Mode| (#[trigger] session_of(mode, test_one)).print_result == test_one,
        forall|mode: Mode|
            (#[trigger] session_of(mode, test_one)).loop_count is None <==> !test_one,
        forall|mode: Mode| (#[trigger] session_of(mode, true)).loop_count == Some(1u64),
{
}

} // verus!
