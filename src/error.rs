use vstd::prelude::*;

verus! {

/// What an error type must offer to be used with a `Parser`.
///
/// Whether an error is fatal is asked of each value: one type can stand both for "try the next
/// alternative" and for "this was the right production, but it is malformed: stop".
pub trait JlnError: Sized {
    /// Whether this error is a cut: no further alternative or repetition is tried.
    fn is_fatal(&self) -> bool;

    /// The error for reading past the last token.
    fn eof() -> Self;

    /// One error that stands for the ordinary failures of all the alternatives of an `or`, given
    /// in the order in which they were tried.
    fn aggregate(errors: Vec<Self>) -> Self;
}

/// The error that says nothing: never fatal.
impl JlnError for () {
    fn is_fatal(&self) -> (r: bool)
        ensures
            !r,
    {
        false
    }

    fn eof() -> Self {
        ()
    }

    fn aggregate(errors: Vec<Self>) -> Self {
        ()
    }
}

/// `e` is an error for which `is_fatal` may answer `fatal`.
pub open spec fn classified<E: JlnError>(e: E, fatal: bool) -> bool {
    call_ensures(E::is_fatal, (&e,), fatal)
}

/// `e` is an error that `eof` may return.
pub open spec fn end_of_input<E: JlnError>(e: E) -> bool {
    call_ensures(E::eof, (), e)
}

/// `errors`, handed to `aggregate` in this order, may give `e`.
pub open spec fn aggregates_to<E: JlnError>(errors: Seq<E>, e: E) -> bool {
    exists|v: Vec<E>| v@ == errors && #[trigger] call_ensures(E::aggregate, (v,), e)
}

} // verus!
