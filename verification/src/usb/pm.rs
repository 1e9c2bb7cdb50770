//! The order in which a window is closed and opened around the driver's callbacks.

use vstd::prelude::*;

use crate::error::Error;
use crate::usb::window;
use crate::usb::window::{Closing, IoWindow};

verus! {

/// What happens to a window ahead of a callback: one that resumes finds it open.
pub fn before_callback(w: &mut IoWindow, resume: bool)
    ensures
        final(w)@ == (if resume {
            window::after(old(w)@, window::Happening::Reopen)
        } else {
            old(w)@
        }),
{
    if resume {
        w.reopen();
    }
}

/// Whether a window is closed after a callback: where one that resumes failed, and where any
/// other succeeded.
pub open spec fn closes_after(resume: bool, result: Result<(), Error>) -> bool {
    resume == (result is Err)
}

/// What happens to a window after a callback; where it is closed, the closing to carry through
/// before the callback returns.
pub fn after_callback(w: &mut IoWindow, resume: bool, result: Result<(), Error>) -> (closing: Option<
    Closing,
>)
    ensures
        if closes_after(resume, result) {
            &&& final(w)@ == window::after(old(w)@, window::Happening::Close)
            &&& closing matches Some(c) && c@ == (window::ClosingState {
                window: old(w)@.id,
                stage: window::CloseStage::Wake,
            })
        } else {
            &&& final(w)@ == old(w)@
            &&& closing is None
        },
{
    let failed = result.is_err();
    if resume == failed {
        Some(w.close())
    } else {
        None
    }
}

/// A window around a whole callback.
pub open spec fn dispatched(s: window::WindowState, resume: bool, result: Result<(), Error>) -> window::WindowState {
    let t = if resume {
        window::after(s, window::Happening::Reopen)
    } else {
        s
    };
    if closes_after(resume, result) {
        window::after(t, window::Happening::Close)
    } else {
        t
    }
}

/// After a callback that resumes, transfers are permitted exactly where it succeeded; after a
/// suspend or a reset's start, exactly where that failed and they were before.
pub proof fn law_windows_follow_their_callbacks(
    s: window::WindowState,
    resume: bool,
    result: Result<(), Error>,
)
    ensures
        dispatched(s, resume, result).open == (if resume {
            result is Ok
        } else {
            s.open && result is Err
        }),
        dispatched(s, resume, result).active == s.active,
{
}

} // verus!
