//! What the owner of the log is told.

use vstd::prelude::*;

verus! {

/// What is said when the worker cannot be reached: how it failed, where that is
/// known.
pub open spec fn unavailable_text(last_error: Option<Seq<char>>) -> Seq<char> {
    match last_error {
        Some(text) => text,
        None => "Breeze log worker is unavailable"@,
    }
}

/// What is said when the worker cannot be reached.
pub fn unavailable_message(last_error: Option<String>) -> (r: String)
    ensures
        r@ == unavailable_text(
            match last_error {
                Some(text) => Some(text@),
                None => None,
            },
        ),
{
    match last_error {
        Some(text) => text,
        None => "Breeze log worker is unavailable".to_owned(),
    }
}

/// The outcome of asking for a flush, where the worker may have been out of reach.
pub fn flush_outcome(answer: Option<Result<(), String>>, last_error: Option<String>) -> (r: Result<
    (),
    String,
>)
    ensures
        match answer {
            Some(outcome) => r == outcome,
            None => r matches Err(text) && text@ == unavailable_text(
                match last_error {
                    Some(text) => Some(text@),
                    None => None,
                },
            ),
        },
{
    match answer {
        Some(outcome) => outcome,
        None => Err(unavailable_message(last_error)),
    }
}

/// An answer of the worker is passed on as it is; without one the reason that is known
/// is given, and where none is known it is said that the worker cannot be reached.
pub proof fn callers_are_told_the_outcome(
    answer: Option<Result<(), String>>,
    last_error: Option<String>,
    outcome: Result<(), String>,
)
    requires
        call_ensures(flush_outcome, (answer, last_error), outcome),
    ensures
        answer is Some ==> outcome == answer->0,
        answer is None ==> outcome is Err,
        answer is None && last_error is Some ==> outcome->Err_0@ == last_error->0@,
        answer is None && last_error is None ==> outcome->Err_0@
            == "Breeze log worker is unavailable"@,
        outcome is Ok <==> answer is Some && answer->0 is Ok,
{
}

/// Where the worker cannot be reached, the reason that is known is given.
pub proof fn unreachable_workers_are_told_of(last_error: Option<String>, message: String)
    requires
        call_ensures(unavailable_message, (last_error,), message),
    ensures
        last_error matches Some(text) ==> message@ == text@,
        last_error is None ==> message@ == "Breeze log worker is unavailable"@,
{
}

} // verus!
