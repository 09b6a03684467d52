//! The waker that signals the editor's loop.
use vstd::prelude::*;

verus! {

/// A waker that signals a handle `H` of the loop, once it has been given one.
pub struct LuvWaker<H> {
    handle: Option<H>,
}

impl<H> LuvWaker<H> {
    /// The handle that is signalled.
    pub closed spec fn handle(self) -> Option<H> {
        self.handle
    }

    /// A waker without a handle.
    pub fn new() -> (waker: LuvWaker<H>)
        ensures
            waker.handle() is None,
    {
        LuvWaker { handle: None }
    }

    /// Gives the waker the handle to signal, in place of any that it had.
    pub fn init(&mut self, handle: H)
        ensures
            final(self).handle() == Some(handle),
    {
        self.handle = Some(handle);
    }

    /// The handle to signal. Without one a wake-up has no effect.
    pub fn wake(&mut self) -> (handle: Option<&mut H>)
        ensures
            match handle {
                Some(target) => {
                    &&& old(self).handle() == Some(*target)
                    &&& final(self).handle() == Some(*final(target))
                },
                None => old(self).handle() is None && final(self).handle() is None,
            },
    {
        self.handle.as_mut()
    }
}

} // verus!
