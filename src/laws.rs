use vstd::prelude::*;

use crate::error::{aggregates_to, classified, JlnError};
use crate::parser::{alternation, attempt, repetition, successes, Parser};

verus! {

broadcast use vstd::function::group_function_axioms;

/// `list` over an operation that never succeeds, and fails only with errors that `is_fatal`
/// calls ordinary, returns no values and leaves the buffer where it was.
pub proof fn lemma_list_of_failures<
    'a,
    T,
    S,
    E: JlnError,
    F: FnOnce(&mut Parser<'a, T>) -> Result<S, E>,
>(
    f: F,
    tokens: Seq<T>,
    start: nat,
    stops: Seq<nat>,
    values: Seq<S>,
    e: E,
    fatal: bool,
    ms: Seq<&mut Parser<'a, T>>,
    r: Result<Vec<S>, E>,
    end: nat,
)
    requires
        forall|m: &mut Parser<'a, T>, r0: Result<S, E>|
            #[trigger] f.ensures((m,), r0) ==> r0 is Err && forall|b: bool|
                #[trigger] classified(r0->Err_0, b) ==> !b,
        repetition(f, tokens, start, stops, values, e, fatal, r, end),
        successes(f, tokens, stops, values, ms),
    ensures
        r is Ok,
        r->Ok_0@ == Seq::<S>::empty(),
        end == start,
{
    if values.len() > 0 {
        assert(attempt(f, ms[0], tokens, stops[0], Ok(values[0])));
    }
    assert(exists|m: &mut Parser<'a, T>| #[trigger] attempt(f, m, tokens, stops.last(), Err(e)));
    let m = choose|m: &mut Parser<'a, T>| #[trigger] attempt(f, m, tokens, stops.last(), Err(e));
    assert(f.ensures((m,), Err::<S, E>(e)));
    assert(Err::<S, E>(e)->Err_0 == e);
    assert(classified(e, fatal));
    assert(!fatal);
}

/// When the first alternative handed to `or` can only fail, with errors that `is_fatal` calls
/// fatal, `or` tries no other alternative: it returns the error of the first one, and leaves the
/// buffer where it was.
pub proof fn lemma_or_stops_at_fatal<
    'a,
    T,
    S,
    E: JlnError,
    F: FnOnce(&mut Parser<'a, T>) -> Result<S, E>,
>(
    alternatives: Seq<F>,
    tokens: Seq<T>,
    start: nat,
    ms: Seq<&mut Parser<'a, T>>,
    results: Seq<Result<S, E>>,
    errors: Seq<E>,
    r: Result<S, E>,
    end: nat,
)
    requires
        alternatives.len() > 0,
        forall|m: &mut Parser<'a, T>, r0: Result<S, E>|
            #[trigger] alternatives[0].ensures((m,), r0) ==> r0 is Err && forall|b: bool|
                #[trigger] classified(r0->Err_0, b) ==> b,
        alternation(alternatives, tokens, start, ms, results, errors, r, end),
    ensures
        ms.len() == 1,
        errors.len() == 0,
        r is Err,
        r == results[0],
        end == start,
{
    assert(attempt(alternatives[0], ms[0], tokens, start, results[0]));
    if errors.len() > 0 {
        assert(results[0] == Err::<S, E>(errors[0]));
        assert(results[0]->Err_0 == errors[0]);
        assert(classified(errors[0], false));
    }
}

/// When every alternative handed to `or` can only fail, with errors that `is_fatal` calls
/// ordinary, `or` tries them all, in order, and returns what `aggregate` makes of their errors in
/// that order, leaving the buffer where it was.
pub proof fn lemma_or_aggregates<
    'a,
    T,
    S,
    E: JlnError,
    F: FnOnce(&mut Parser<'a, T>) -> Result<S, E>,
>(
    alternatives: Seq<F>,
    tokens: Seq<T>,
    start: nat,
    ms: Seq<&mut Parser<'a, T>>,
    results: Seq<Result<S, E>>,
    errors: Seq<E>,
    r: Result<S, E>,
    end: nat,
)
    requires
        forall|i: int, m: &mut Parser<'a, T>, r0: Result<S, E>|
            0 <= i < alternatives.len() && #[trigger] alternatives[i].ensures((m,), r0) ==> r0 is Err
                && forall|b: bool| #[trigger] classified(r0->Err_0, b) ==> !b,
        alternation(alternatives, tokens, start, ms, results, errors, r, end),
    ensures
        errors.len() == alternatives.len(),
        forall|i: int|
            0 <= i < alternatives.len() ==> attempt(
                alternatives[i],
                #[trigger] ms[i],
                tokens,
                start,
                Err(errors[i]),
            ),
        r is Err,
        aggregates_to(errors, r->Err_0),
        end == start,
{
    if errors.len() < alternatives.len() {
        let k = errors.len() as int;
        assert(attempt(alternatives[k], ms[k], tokens, start, results[k]));
        assert(results.last() == results[k]);
        assert(alternatives[k].ensures((ms[k],), results[k]));
        assert(classified(results[k]->Err_0, true));
    }
    assert forall|i: int| 0 <= i < alternatives.len() implies attempt(
        alternatives[i],
        #[trigger] ms[i],
        tokens,
        start,
        Err(errors[i]),
    ) by {
        assert(results[i] == Err::<S, E>(errors[i]));
    }
}

} // verus!
