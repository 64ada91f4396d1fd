//! The small rules of the screen.
use vstd::prelude::*;

verus! {

/// How many errors the screen shows.
pub const SHOWN_ERRORS: usize = 10;

/// Which of `count` errors the screen shows, by their numbers: the latest ones, the
/// latest first.
pub fn shown_errors(count: usize) -> (numbers: Vec<usize>)
    ensures
        numbers@.len() == (if count < SHOWN_ERRORS {
            count
        } else {
            SHOWN_ERRORS
        }),
        forall|i: int| 0 <= i < numbers@.len() ==> numbers@[i] == count - 1 - i,
{
    let mut numbers: Vec<usize> = Vec::new();
    while numbers.len() < SHOWN_ERRORS && numbers.len() < count
        invariant
            numbers.len() <= SHOWN_ERRORS,
            numbers.len() <= count,
            forall|i: int| 0 <= i < numbers@.len() ==> numbers@[i] == count - 1 - i,
        decreases count - numbers.len(),
    {
        let number: usize = count - 1 - numbers.len();
        numbers.push(number);
    }
    numbers
}

/// Tells whether a key ends the program: `q`, or `c` with control and nothing else.
pub fn is_quit(key: char, control_only: bool) -> (quit: bool)
    ensures
        quit == (key == 'q' || (control_only && key == 'c')),
{
    key == 'q' || (control_only && key == 'c')
}

} // verus!
