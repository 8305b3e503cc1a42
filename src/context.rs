//! The handler interface: one operation per command form.
use vstd::prelude::*;

use crate::{Args, AtError, AtResult};

verus! {

/// Handler of one AT command. Each form of the command has an operation; an
/// operation that an implementation leaves out answers `NotSupported`.
pub trait AtContext: Sized {
    /// Execute command (`AT+CMD`), invoked without any suffix.
    fn exec(&self) -> (r: AtResult<'static>)
        default_ensures
            r == Err::<&str, AtError>(AtError::NotSupported),
    {
        Err(AtError::NotSupported)
    }

    /// Query command (`AT+CMD?`), which reports the current value or state.
    fn query(&mut self) -> (r: AtResult<'static>)
        default_ensures
            r == Err::<&str, AtError>(AtError::NotSupported),
            *final(self) == *old(self),
    {
        Err(AtError::NotSupported)
    }

    /// Test command (`AT+CMD=?`), which describes the accepted parameters.
    fn test(&mut self) -> (r: AtResult<'static>)
        default_ensures
            r == Err::<&str, AtError>(AtError::NotSupported),
            *final(self) == *old(self),
    {
        Err(AtError::NotSupported)
    }

    /// Set command (`AT+CMD=args`), which applies the given arguments.
    fn set(&mut self, args: Args) -> (r: AtResult<'static>)
        default_ensures
            r == Err::<&str, AtError>(AtError::NotSupported),
            *final(self) == *old(self),
    {
        Err(AtError::NotSupported)
    }
}

} // verus!
