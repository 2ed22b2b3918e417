use vstd::prelude::*;

use crate::error::{aggregates_to, classified, end_of_input, JlnError};
use crate::input::Input;

verus! {

broadcast use vstd::function::group_function_axioms;

/// A read position over a finite sequence of tokens that never changes.
///
/// The tokens are either borrowed or held in a shared slice; copying a buffer to try something
/// on it copies the position and the handle, never the tokens. The position stays within the
/// tokens: `0 <= pos() <= tokens().len()`.
pub struct Parser<'a, T> {
    input: Input<'a, T>,
    index: usize,
}

/// `f` may be started on any buffer over `tokens`.
pub open spec fn callable_over<'a, T, S, E, F: FnOnce(&mut Parser<'a, T>) -> Result<S, E>>(
    f: F,
    tokens: Seq<T>,
) -> bool {
    forall|m: &mut Parser<'a, T>|
        mut_ref_current(m).tokens() == tokens ==> #[trigger] f.requires((m,))
}

/// `f`, started on the buffer `m` over `tokens` at `start`, may return `r`.
pub open spec fn attempt<'a, T, S, E, F: FnOnce(&mut Parser<'a, T>) -> Result<S, E>>(
    f: F,
    m: &mut Parser<'a, T>,
    tokens: Seq<T>,
    start: nat,
    r: Result<S, E>,
) -> bool {
    mut_ref_current(m).tokens() == tokens && mut_ref_current(m).pos() == start && f.ensures(
        (m,),
        r,
    )
}

/// What `option` gives when `f`, run from `start`, returned `r0` and left its buffer at `end0`:
/// the result `r`, and the position `end` that the buffer is left at.
pub open spec fn optional_outcome<S, E: JlnError>(
    start: nat,
    r0: Result<S, E>,
    end0: nat,
    r: Result<Option<S>, E>,
    end: nat,
) -> bool {
    match r0 {
        Ok(v) => r == Ok::<Option<S>, E>(Some(v)) && end == end0,
        Err(e) => end == start && exists|fatal: bool|
            classified(e, fatal) && if fatal {
                r == Err::<Option<S>, E>(e)
            } else {
                r == Ok::<Option<S>, E>(None)
            },
    }
}

/// The bookkeeping of `list` over `f`, started over `tokens` at `start`: `values.len()` attempts
/// succeeded, the i-th starting at `stops[i]` (see `successes`), and then an attempt from the
/// last stop failed with `e`, which `is_fatal` called `fatal`. The result is `r`, and the buffer
/// is left at `end`, the last stop.
pub open spec fn repetition<'a, T, S, E: JlnError, F: FnOnce(&mut Parser<'a, T>) -> Result<S, E>>(
    f: F,
    tokens: Seq<T>,
    start: nat,
    stops: Seq<nat>,
    values: Seq<S>,
    e: E,
    fatal: bool,
    r: Result<Vec<S>, E>,
    end: nat,
) -> bool {
    &&& stops.len() == values.len() + 1
    &&& stops[0] == start
    &&& end == stops.last()
    &&& exists|m: &mut Parser<'a, T>| #[trigger] attempt(f, m, tokens, stops.last(), Err(e))
    &&& classified(e, fatal)
    &&& if fatal {
        r == Err::<Vec<S>, E>(e)
    } else {
        r is Ok && r->Ok_0@ == values
    }
}

/// `f` succeeded on the buffers `ms`, in order, the i-th started over `tokens` at `stops[i]` and
/// returning `values[i]`.
pub open spec fn successes<'a, T, S, E, F: FnOnce(&mut Parser<'a, T>) -> Result<S, E>>(
    f: F,
    tokens: Seq<T>,
    stops: Seq<nat>,
    values: Seq<S>,
    ms: Seq<&mut Parser<'a, T>>,
) -> bool {
    &&& ms.len() == values.len()
    &&& forall|i: int|
        0 <= i < ms.len() ==> attempt(f, #[trigger] ms[i], tokens, stops[i], Ok(values[i]))
}

/// What `or` over `alternatives` gives, started over `tokens` at `start`, when the first
/// `ms.len()` alternatives were tried in order, each from `start`, on the buffers `ms`, and
/// returned `results`. The first `errors.len()` of them failed with `errors`, which `is_fatal`
/// called ordinary. Then either the next one succeeded with `r`, or failed with `r`, an error
/// that `is_fatal` called fatal, the buffer staying at `start`; or none was left, and `r` is what
/// `aggregate` made of `errors`, the buffer staying at `start`.
pub open spec fn alternation<'a, T, S, E: JlnError, F: FnOnce(&mut Parser<'a, T>) -> Result<S, E>>(
    alternatives: Seq<F>,
    tokens: Seq<T>,
    start: nat,
    ms: Seq<&mut Parser<'a, T>>,
    results: Seq<Result<S, E>>,
    errors: Seq<E>,
    r: Result<S, E>,
    end: nat,
) -> bool {
    &&& results.len() == ms.len()
    &&& ms.len() <= alternatives.len()
    &&& forall|i: int|
        0 <= i < ms.len() ==> attempt(alternatives[i], #[trigger] ms[i], tokens, start, results[i])
    &&& errors.len() <= results.len()
    &&& forall|i: int|
        0 <= i < errors.len() ==> #[trigger] results[i] == Err::<S, E>(errors[i]) && classified(
            errors[i],
            false,
        )
    &&& if errors.len() == alternatives.len() {
        &&& end == start
        &&& r is Err
        &&& aggregates_to(errors, r->Err_0)
    } else {
        &&& ms.len() == errors.len() + 1
        &&& match results.last() {
            Ok(v) => r == Ok::<S, E>(v),
            Err(e) => r == Err::<S, E>(e) && end == start && classified(e, true),
        }
    }
}

impl<'a, T> Parser<'a, T> {
    #[verifier::type_invariant]
    spec fn inv(&self) -> bool {
        self.index <= self.input.view().len()
    }

    /// The tokens read by this buffer.
    pub closed spec fn tokens(&self) -> Seq<T> {
        self.input.view()
    }

    /// The position of the next token to read.
    pub closed spec fn pos(&self) -> nat {
        self.index as nat
    }

    /// A buffer at the start of the borrowed `input`.
    pub fn new(input: &'a [T]) -> (r: Parser<'a, T>)
        ensures
            r.tokens() == input@,
            r.pos() == 0,
    {
        Parser { input: Input::Ref(input), index: 0 }
    }

    /// The token at the position, which stays as it is; the `eof` error at the end.
    pub fn peek<E: JlnError>(&self) -> (r: Result<&T, E>)
        ensures
            self.pos() < self.tokens().len() <==> r is Ok,
            r matches Ok(t) ==> *t == self.tokens()[self.pos() as int],
            r matches Err(e) ==> end_of_input(e),
    {
        proof {
            use_type_invariant(self);
        }
        let tokens = self.input.as_slice();
        if self.index < tokens.len() {
            Ok(&tokens[self.index])
        } else {
            Err(E::eof())
        }
    }

    /// The token at the position, which then moves past it; the `eof` error at the end, where
    /// the position stays.
    pub fn get<E: JlnError>(&mut self) -> (r: Result<&T, E>)
        ensures
            final(self).tokens() == old(self).tokens(),
            final(self).pos() <= final(self).tokens().len(),
            old(self).pos() < old(self).tokens().len() <==> r is Ok,
            r matches Ok(t) ==> *t == old(self).tokens()[old(self).pos() as int]
                && final(self).pos() == old(self).pos() + 1,
            r matches Err(e) ==> end_of_input(e) && final(self).pos() == old(self).pos(),
    {
        proof {
            use_type_invariant(&*self);
        }
        if self.index < self.input.as_slice().len() {
            let i = self.index;
            self.index = i + 1;
            Ok(&self.input.as_slice()[i])
        } else {
            Err(E::eof())
        }
    }

    /// Whether every token has been read.
    pub fn end(&self) -> (r: bool)
        ensures
            r == (self.pos() == self.tokens().len()),
    {
        proof {
            use_type_invariant(self);
        }
        self.index >= self.input.as_slice().len()
    }

    /// The position, for callers that inspect or record it.
    pub fn index(&self) -> (r: usize)
        ensures
            r == self.pos(),
            r <= self.tokens().len(),
    {
        proof {
            use_type_invariant(self);
        }
        self.index
    }

    /// Runs `f` on a copy of this buffer. When `f` succeeds, this buffer takes the position
    /// that `f` left the copy at; when it fails, this buffer stays as it was. The result is what
    /// `f` returned.
    pub fn with_rollback<S, E: JlnError, F: FnOnce(&mut Parser<'a, T>) -> Result<S, E>>(
        &mut self,
        f: F,
    ) -> (r: Result<S, E>)
        requires
            callable_over(f, old(self).tokens()),
            forall|m: &mut Parser<'a, T>, r: Result<S, E>|
                #[trigger] f.ensures((m,), r) ==> mut_ref_future(m).tokens() == mut_ref_current(
                    m,
                ).tokens(),
        ensures
            final(self).tokens() == old(self).tokens(),
            final(self).pos() <= final(self).tokens().len(),
            r is Err ==> final(self).pos() == old(self).pos(),
            exists|m: &mut Parser<'a, T>|
                #![trigger f.ensures((m,), r)]
                attempt(f, m, old(self).tokens(), old(self).pos(), r)
                    && final(self).pos() == if r is Ok {
                    mut_ref_future(m).pos()
                } else {
                    old(self).pos()
                },
    {
        proof {
            use_type_invariant(&*self);
        }
        let mut ops = self.clone();
        let r = f(&mut ops);
        proof {
            use_type_invariant(&ops);
        }
        match r {
            Ok(v) => {
                self.index = ops.index;
                Ok(v)
            },
            Err(e) => Err(e),
        }
    }

    /// Runs `f` as `with_rollback` does, but an error that `is_fatal` calls ordinary becomes
    /// `Ok(None)`; a fatal error is returned as it is. On any error this buffer stays as it was.
    pub fn option<S, E: JlnError, F: FnOnce(&mut Parser<'a, T>) -> Result<S, E>>(
        &mut self,
        f: F,
    ) -> (r: Result<Option<S>, E>)
        requires
            callable_over(f, old(self).tokens()),
            forall|m: &mut Parser<'a, T>, r: Result<S, E>|
                #[trigger] f.ensures((m,), r) ==> mut_ref_future(m).tokens() == mut_ref_current(
                    m,
                ).tokens(),
        ensures
            final(self).tokens() == old(self).tokens(),
            final(self).pos() <= final(self).tokens().len(),
            exists|m: &mut Parser<'a, T>, r0: Result<S, E>|
                #![trigger f.ensures((m,), r0)]
                attempt(f, m, old(self).tokens(), old(self).pos(), r0)
                    && optional_outcome(
                    old(self).pos(),
                    r0,
                    mut_ref_future(m).pos(),
                    r,
                    final(self).pos(),
                ),
    {
        proof {
            use_type_invariant(&*self);
        }
        let mut ops = self.clone();
        let r0 = f(&mut ops);
        proof {
            use_type_invariant(&ops);
        }
        match r0 {
            Ok(v) => {
                self.index = ops.index;
                Ok(Some(v))
            },
            Err(e) => {
                let fatal = e.is_fatal();
                proof {
                    assert(classified(e, fatal));
                }
                if fatal {
                    Err(e)
                } else {
                    Ok(None)
                }
            },
        }
    }

    /// Tries the alternatives in order, each on a copy of this buffer at the same position. The
    /// first success is returned and its position taken. A fatal error is returned at once,
    /// this buffer staying as it was. When all fail ordinarily, their errors, in order, are
    /// handed to `aggregate` and its result is returned, this buffer staying as it was.
    pub fn or<
        S,
        E: JlnError,
        F: Fn(&mut Parser<'a, T>) -> Result<S, E> + Copy,
        const N: usize,
    >(&mut self, targets: [F; N]) -> (r: Result<S, E>)
        requires
            forall|i: int| 0 <= i < N ==> callable_over(#[trigger] targets@[i], old(self).tokens()),
            forall|i: int, m: &mut Parser<'a, T>, r: Result<S, E>|
                0 <= i < N && #[trigger] targets@[i].ensures((m,), r) ==> mut_ref_future(m).tokens()
                    == mut_ref_current(m).tokens(),
        ensures
            final(self).tokens() == old(self).tokens(),
            final(self).pos() <= final(self).tokens().len(),
            exists|
                ms: Seq<&mut Parser<'a, T>>,
                results: Seq<Result<S, E>>,
                errors: Seq<E>,
            |
                #![trigger alternation(targets@, old(self).tokens(), old(self).pos(), ms, results, errors, r, final(self).pos())]
                alternation(
                    targets@,
                    old(self).tokens(),
                    old(self).pos(),
                    ms,
                    results,
                    errors,
                    r,
                    final(self).pos(),
                ) && (r is Ok ==> final(self).pos() == mut_ref_future(ms.last()).pos()),
    {
        proof {
            use_type_invariant(&*self);
        }
        let ghost tokens = self.tokens();
        let ghost start = self.pos();
        let ghost mut ms: Seq<&mut Parser<'a, T>> = Seq::empty();
        let ghost mut results: Seq<Result<S, E>> = Seq::empty();
        let mut errors: Vec<E> = Vec::new();
        let mut i: usize = 0;
        while i < N
            invariant
                0 <= i <= N,
                self.tokens() == tokens,
                self.pos() == start,
                tokens == old(self).tokens(),
                start == old(self).pos(),
                forall|j: int| 0 <= j < N ==> callable_over(#[trigger] targets@[j], tokens),
                forall|j: int, m: &mut Parser<'a, T>, r: Result<S, E>|
                    0 <= j < N && #[trigger] targets@[j].ensures((m,), r) ==> mut_ref_future(
                        m,
                    ).tokens() == mut_ref_current(m).tokens(),
                ms.len() == i,
                results.len() == i,
                errors@.len() == i,
                forall|j: int|
                    0 <= j < i ==> attempt(targets@[j], #[trigger] ms[j], tokens, start, results[j]),
                forall|j: int|
                    0 <= j < i ==> #[trigger] results[j] == Err::<S, E>(errors@[j]) && classified(
                        errors@[j],
                        false,
                    ),
            decreases N - i,
        {
            proof {
                use_type_invariant(&*self);
            }
            let target = targets[i];
            let mut ops = self.clone();
            let r0 = target(&mut ops);
            proof {
                use_type_invariant(&ops);
            }
            assert(exists|m: &mut Parser<'a, T>|
                #![trigger target.ensures((m,), r0)]
                attempt(target, m, tokens, start, r0) && mut_ref_future(m).pos() == ops.pos());
            proof {
                results = results.push(r0);
            }
            match r0 {
                Ok(v) => {
                    self.index = ops.index;
                    proof {
                        // The witness names where the successful attempt ended, so it is prophetic
                        // and cannot go into the loop's ghost record: it is used here only.
                        let m1 = choose|m: &mut Parser<'a, T>|
                            #![trigger target.ensures((m,), r0)]
                            attempt(target, m, tokens, start, r0) && mut_ref_future(m).pos()
                                == ops.pos();
                        let tried = ms.push(m1);
                        assert(tried.last() == m1);
                        assert(alternation(
                            targets@,
                            tokens,
                            start,
                            tried,
                            results,
                            errors@,
                            Ok(v),
                            self.pos(),
                        ));
                    }
                    return Ok(v);
                },
                Err(e) => {
                    let fatal = e.is_fatal();
                    proof {
                        assert(classified(e, fatal));
                        let m0 = choose|m: &mut Parser<'a, T>|
                            #![trigger target.ensures((m,), r0)]
                            attempt(target, m, tokens, start, r0);
                        ms = ms.push(m0);
                    }
                    if fatal {
                        proof {
                            assert(alternation(
                                targets@,
                                tokens,
                                start,
                                ms,
                                results,
                                errors@,
                                Err(e),
                                self.pos(),
                            ));
                        }
                        return Err(e);
                    }
                    errors.push(e);
                },
            }
            i = i + 1;
        }
        let ghost collected = errors@;
        let e = E::aggregate(errors);
        proof {
            assert(aggregates_to(collected, e));
            assert(alternation(targets@, tokens, start, ms, results, collected, Err(e), self.pos()));
        }
        Err(e)
    }

    /// Runs `f` again and again, each time on a copy of this buffer from where the last success
    /// left it, taking the position of each success and collecting its value. The first
    /// ordinary failure ends the list, which is returned; a fatal one is returned instead of the
    /// values, the position staying after the last success. `f` must move the buffer forward
    /// whenever it succeeds, or the list would never end.
    pub fn list<S, E: JlnError, F: FnMut(&mut Parser<'a, T>) -> Result<S, E>>(
        &mut self,
        f: F,
    ) -> (r: Result<Vec<S>, E>)
        requires
            callable_over(f, old(self).tokens()),
            forall|m: &mut Parser<'a, T>, r: Result<S, E>|
                #[trigger] f.ensures((m,), r) ==> mut_ref_future(m).tokens() == mut_ref_current(
                    m,
                ).tokens() && (r is Ok ==> mut_ref_future(m).pos() > mut_ref_current(m).pos()),
        ensures
            final(self).tokens() == old(self).tokens(),
            final(self).pos() <= final(self).tokens().len(),
            r matches Ok(vs) ==> vs@.len() <= old(self).tokens().len() - old(self).pos(),
            exists|
                stops: Seq<nat>,
                values: Seq<S>,
                e: E,
                fatal: bool,
                ms: Seq<&mut Parser<'a, T>>,
            |
                #![trigger repetition(f, old(self).tokens(), old(self).pos(), stops, values, e, fatal, r, final(self).pos()), ms.len()]
                repetition(
                    f,
                    old(self).tokens(),
                    old(self).pos(),
                    stops,
                    values,
                    e,
                    fatal,
                    r,
                    final(self).pos(),
                ) && successes(f, old(self).tokens(), stops, values, ms) && forall|i: int|
                    0 <= i < ms.len() ==> mut_ref_future(#[trigger] ms[i]).pos() == stops[i + 1],
    {
        let ghost tokens = self.tokens();
        let ghost start = self.pos();
        let ghost g = f;
        let ghost mut stops: Seq<nat> = seq![start];
        let mut step = f;
        let mut rets: Vec<S> = Vec::new();
        proof {
            assert(successes(g, tokens, stops, rets@, Seq::<&mut Parser<'a, T>>::empty()));
        }
        loop
            invariant
                step == g,
                g == f,
                tokens == old(self).tokens(),
                start == old(self).pos(),
                self.tokens() == tokens,
                callable_over(g, tokens),
                forall|m: &mut Parser<'a, T>, r: Result<S, E>|
                    #[trigger] g.ensures((m,), r) ==> mut_ref_future(m).tokens()
                        == mut_ref_current(m).tokens() && (r is Ok ==> mut_ref_future(m).pos()
                        > mut_ref_current(m).pos()),
                stops.len() == rets@.len() + 1,
                stops[0] == start,
                stops.last() == self.pos(),
                start + rets@.len() <= self.pos(),
                exists|ms: Seq<&mut Parser<'a, T>>|
                    #![trigger successes(g, tokens, stops, rets@, ms)]
                    successes(g, tokens, stops, rets@, ms) && forall|i: int|
                        0 <= i < ms.len() ==> mut_ref_future(#[trigger] ms[i]).pos() == stops[i
                            + 1],
            decreases tokens.len() - self.pos(),
        {
            proof {
                use_type_invariant(&*self);
            }
            let ghost ms0 = choose|ms: Seq<&mut Parser<'a, T>>|
                #![trigger successes(g, tokens, stops, rets@, ms)]
                successes(g, tokens, stops, rets@, ms) && forall|i: int|
                    0 <= i < ms.len() ==> mut_ref_future(#[trigger] ms[i]).pos() == stops[i + 1];
            let ghost before = rets@;
            let ghost stops0 = stops;
            let ghost pos0 = self.pos();
            let mut ops = self.clone();
            let r0 = step(&mut ops);
            proof {
                use_type_invariant(&ops);
            }
            assert(exists|m: &mut Parser<'a, T>|
                #![trigger g.ensures((m,), r0)]
                attempt(g, m, tokens, pos0, r0) && mut_ref_future(m).pos() == ops.pos());
            let ghost m0 = choose|m: &mut Parser<'a, T>|
                #![trigger g.ensures((m,), r0)]
                attempt(g, m, tokens, pos0, r0) && mut_ref_future(m).pos() == ops.pos();
            match r0 {
                Ok(v) => {
                    self.index = ops.index;
                    rets.push(v);
                    proof {
                        stops = stops.push(ops.pos());
                        let ms1 = ms0.push(m0);
                        assert(rets@ =~= before.push(v));
                        assert forall|i: int| 0 <= i < ms1.len() implies attempt(
                            g,
                            #[trigger] ms1[i],
                            tokens,
                            stops[i],
                            Ok(rets@[i]),
                        ) && mut_ref_future(ms1[i]).pos() == stops[i + 1] by {
                            if i < ms0.len() {
                                assert(ms1[i] == ms0[i]);
                                assert(stops[i] == stops0[i]);
                                assert(stops[i + 1] == stops0[i + 1]);
                                assert(rets@[i] == before[i]);
                            }
                        }
                        assert(successes(g, tokens, stops, rets@, ms1));
                    }
                },
                Err(e) => {
                    let fatal = e.is_fatal();
                    proof {
                        assert(classified(e, fatal));
                        assert(attempt(g, m0, tokens, stops.last(), Err::<S, E>(e)));
                        assert(successes(g, tokens, stops, rets@, ms0));
                        assert(ms0.len() == rets@.len());
                    }
                    if fatal {
                        proof {
                            assert(repetition(
                                g,
                                tokens,
                                start,
                                stops,
                                rets@,
                                e,
                                fatal,
                                Err(e),
                                self.pos(),
                            ));
                        }
                        return Err(e);
                    } else {
                        proof {
                            assert(repetition(
                                g,
                                tokens,
                                start,
                                stops,
                                rets@,
                                e,
                                fatal,
                                Ok(rets),
                                self.pos(),
                            ));
                        }
                        return Ok(rets);
                    }
                },
            }
        }
    }
}

/// Relies on `From<Vec<T>> for Rc<[T]>`: the vector's elements are moved, in order, into a
/// newly allocated shared slice.
#[verifier::external_body]
fn share<T>(v: Vec<T>) -> (r: std::rc::Rc<[T]>)
    ensures
        (*r)@ == v@,
{
    std::rc::Rc::from(v)
}

impl<'a, T> From<&'a [T]> for Parser<'a, T> {
    fn from(item: &'a [T]) -> (r: Self)
        ensures
            r.tokens() == item@,
            r.pos() == 0,
    {
        Parser { input: Input::Ref(item), index: 0 }
    }
}

impl<'a, T> vstd::std_specs::convert::FromSpecImpl<&'a [T]> for Parser<'a, T> {
    open spec fn obeys_from_spec() -> bool {
        true
    }

    closed spec fn from_spec(v: &'a [T]) -> Self {
        Parser { input: Input::Ref(v), index: 0 }
    }
}

impl<'a, T> From<Vec<T>> for Parser<'a, T> {
    fn from(item: Vec<T>) -> (r: Self)
        ensures
            r.tokens() == item@,
            r.pos() == 0,
    {
        let ghost tokens = item@;
        let s = share(item);
        proof {
            let c = choose|c: std::rc::Rc<[T]>| (*c)@ == tokens;
            assert((*c)@ == tokens);
            assert(&*c == &*s);
        }
        Parser { input: Input::Rc(s), index: 0 }
    }
}

impl<'a, T> vstd::std_specs::convert::FromSpecImpl<Vec<T>> for Parser<'a, T> {
    open spec fn obeys_from_spec() -> bool {
        true
    }

    closed spec fn from_spec(v: Vec<T>) -> Self {
        Parser { input: Input::Rc(choose|s: std::rc::Rc<[T]>| (*s)@ == v@), index: 0 }
    }
}

impl<'a, 'b, T> From<&'b std::rc::Rc<[T]>> for Parser<'a, T> {
    fn from(item: &'b std::rc::Rc<[T]>) -> (r: Self)
        ensures
            r.tokens() == (**item)@,
            r.pos() == 0,
    {
        Parser { input: Input::Rc(std::rc::Rc::clone(item)), index: 0 }
    }
}

impl<'a, 'b, T> vstd::std_specs::convert::FromSpecImpl<&'b std::rc::Rc<[T]>> for Parser<'a, T> {
    open spec fn obeys_from_spec() -> bool {
        true
    }

    closed spec fn from_spec(v: &'b std::rc::Rc<[T]>) -> Self {
        Parser { input: Input::Rc(*v), index: 0 }
    }
}

impl<'a, T> Parser<'a, T> {
    /// A buffer made from a borrowed slice starts at the first of its tokens.
    pub proof fn lemma_from_slice(v: &'a [T])
        ensures
            <Parser<'a, T> as vstd::std_specs::convert::FromSpec<&'a [T]>>::from_spec(v).tokens()
                == v@,
            <Parser<'a, T> as vstd::std_specs::convert::FromSpec<&'a [T]>>::from_spec(v).pos()
                == 0,
    {
    }

    /// A buffer made from a shared slice starts at the first of its tokens.
    pub proof fn lemma_from_shared<'b>(v: &'b std::rc::Rc<[T]>)
        ensures
            <Parser<'a, T> as vstd::std_specs::convert::FromSpec<&'b std::rc::Rc<[T]>>>::from_spec(
                v,
            ).tokens() == (**v)@,
            <Parser<'a, T> as vstd::std_specs::convert::FromSpec<&'b std::rc::Rc<[T]>>>::from_spec(
                v,
            ).pos() == 0,
    {
    }
}

impl<'a, T> FromIterator<T> for Parser<'a, T> {
    /// Relies on `Iterator::collect` into a `Vec`, which keeps the items in the order that the
    /// iterator yields them, and then builds the buffer as `From<Vec<T>>` does. Verus does not
    /// take the `IntoIterator` bound, and has no model of what a generic iterator yields, so the
    /// tokens are not stated here.
    #[verifier::external_body]
    fn from_iter<I: IntoIterator<Item = T>>(iter: I) -> (r: Self)
        ensures
            r.pos() == 0,
    {
        let items: Vec<T> = iter.into_iter().collect();
        Parser::from(items)
    }
}

impl<'a, T> Clone for Parser<'a, T> {
    fn clone(&self) -> (r: Self)
        ensures
            r.tokens() == self.tokens(),
            r.pos() == self.pos(),
    {
        proof {
            use_type_invariant(self);
        }
        Parser { input: self.input.duplicate(), index: self.index }
    }
}

} // verus!
