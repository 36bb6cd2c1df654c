use vstd::prelude::*;

verus! {

/// What the demo does for one number.
#[derive(Debug, Clone, Copy, PartialEq, Eq, Structural)]
pub enum DemoStep {
    /// Raise the fizz interrupt.
    Fizz,
    /// Raise the buzz interrupt.
    Buzz,
    /// Print the number.
    Number(i32),
}

/// Fizz for multiples of 3, else buzz for multiples of 5, else the number.
pub fn demo_step(i: i32) -> (r: DemoStep)
    ensures
        r == (if i % 3 == 0 {
            DemoStep::Fizz
        } else if i % 5 == 0 {
            DemoStep::Buzz
        } else {
            DemoStep::Number(i)
        }),
{
    let by_three = i % 3;
    assert(by_three == 0 <==> i % 3 == 0);
    let by_five = i % 5;
    assert(by_five == 0 <==> i % 5 == 0);
    if by_three == 0 {
        DemoStep::Fizz
    } else if by_five == 0 {
        DemoStep::Buzz
    } else {
        DemoStep::Number(i)
    }
}

} // verus!
