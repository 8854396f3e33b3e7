//! The AudioToolbox framework.
use vstd::prelude::*;

pub mod audio_queue;
pub mod exports;
pub mod guestaudio;

verus! {

/// The status code that the framework returns for a null parameter
/// (Carbon's `paramErr`).
#[allow(non_upper_case_globals)]
pub const paramErr: i32 = -50;

/// The audio context that AudioToolbox plays through, created the first
/// time it is needed.
pub struct LazyALContext<C>(pub Option<C>);

impl<C> LazyALContext<C> {
    /// No context yet.
    pub fn new() -> (l: LazyALContext<C>)
        ensures
            l.0 is None,
    {
        LazyALContext(None)
    }

    /// The context, created with `create` if there is none yet; `None` when
    /// creating it fails (audio is then unavailable, and the next call tries
    /// again). `create` is called only when there is no context.
    pub fn try_get_context<E, F: FnOnce() -> Result<C, E>>(&mut self, create: F) -> (r: Option<&mut C>)
        requires
            old(self).0 is None ==> create.requires(()),
        ensures
            old(self).0 matches Some(c) ==> r matches Some(x) && *x == c && final(self).0 == Some(*final(x)),
            old(self).0 is None ==> exists|created: Result<C, E>| {
                &&& create.ensures((), created)
                &&& match created {
                    Ok(c) => r matches Some(x) && *x == c && final(self).0 == Some(*final(x)),
                    Err(_) => r is None && final(self).0 is None,
                }
            },
    {
        if self.0.is_none() {
            match create() {
                Ok(context) => {
                    self.0 = Some(context);
                },
                Err(_) => {
                    return None;
                },
            }
        }
        self.0.as_mut()
    }
}

} // verus!
