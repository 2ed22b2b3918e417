use vstd::prelude::*;

verus! {

/// The tokens of a buffer: borrowed from the caller, or held in a slice that copies of the
/// buffer share.
pub(crate) enum Input<'a, T> {
    Ref(&'a [T]),
    Rc(std::rc::Rc<[T]>),
}

impl<'a, T> Input<'a, T> {
    /// The tokens, in order.
    pub(crate) open spec fn view(&self) -> Seq<T> {
        match self {
            Input::Ref(x) => x@,
            Input::Rc(x) => (**x)@,
        }
    }

    /// The tokens, as one slice, whichever way they are held.
    pub(crate) fn as_slice(&self) -> (r: &[T])
        ensures
            r@ == self.view(),
    {
        match self {
            Input::Ref(x) => x,
            Input::Rc(x) => &**x,
        }
    }

    /// Another handle on the same tokens: the borrow, or the shared slice with one more owner.
    /// The tokens themselves are not copied.
    pub(crate) fn duplicate(&self) -> (r: Self)
        ensures
            r.view() == self.view(),
    {
        match self {
            Input::Ref(x) => Input::Ref(x),
            Input::Rc(x) => Input::Rc(std::rc::Rc::clone(x)),
        }
    }
}

} // verus!
