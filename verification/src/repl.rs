//! What the read loop decides from the text it has read so far. Reading and
//! printing are the caller's.
use vstd::prelude::*;
use vstd::string::StringSliceAdditionalSpecFns;

verus! {

/// What to do with the input read so far.
#[derive(Copy, Clone, Debug, PartialEq, Eq, Structural)]
pub enum Step {
    /// More brackets were opened than closed: read another line.
    More,
    /// The input is the line `exit`: leave the loop.
    Exit,
    /// Evaluate the input and print what it gives.
    Evaluate,
}

/// How often the byte `b` occurs in `s`.
pub open spec fn count(s: Seq<u8>, b: u8) -> nat
    decreases s.len(),
{
    if s.len() == 0 {
        0
    } else {
        count(s.drop_last(), b) + if s.last() == b {
            1nat
        } else {
            0nat
        }
    }
}

/// The bytes of the line `exit`, with its line feed.
pub open spec fn exit_line() -> Seq<u8> {
    seq![101u8, 120u8, 105u8, 116u8, 10u8]
}

/// What the loop does with `input`: it goes on reading while round brackets
/// are open, leaves on the line `exit`, and evaluates anything else.
pub open spec fn step_of(input: Seq<u8>) -> Step {
    if count(input, 40) > count(input, 41) {
        Step::More
    } else if input == exit_line() {
        Step::Exit
    } else {
        Step::Evaluate
    }
}

/// Counts the byte `b` in `s`.
fn count_byte(s: &[u8], b: u8) -> (n: usize)
    ensures
        n == count(s@, b),
{
    let mut n: usize = 0;
    let mut i: usize = 0;
    while i < s.len()
        invariant
            i <= s@.len(),
            n <= i,
            n == count(s@.subrange(0, i as int), b),
        decreases s@.len() - i,
    {
        assert(s@.subrange(0, i + 1).drop_last() =~= s@.subrange(0, i as int));
        if s[i] == b {
            n = n + 1;
        }
        i = i + 1;
    }
    assert(s@.subrange(0, i as int) =~= s@);
    n
}

/// What to do with the input read so far.
pub fn next_step(input: &str) -> (step: Step)
    ensures
        step == step_of(input.spec_bytes()),
{
    let b = input.as_bytes();
    if count_byte(b, 40) > count_byte(b, 41) {
        Step::More
    } else if b.len() == 5 && b[0] == 101 && b[1] == 120 && b[2] == 105 && b[3] == 116 && b[4]
        == 10 {
        assert(b@ =~= exit_line());
        Step::Exit
    } else {
        Step::Evaluate
    }
}

} // verus!
