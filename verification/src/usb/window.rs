//! The window in which transfers are permitted on an interface, and the tokens that prove it is
//! open.

use vstd::prelude::*;

use std::sync::Arc;

use crate::error::Error;
use crate::haar::quant;
use crate::usb::endpoint::Interface;

verus! {

/// The whole-millisecond timeout of a transfer that may last `nanos`.
///
/// Zero means to wait for ever, so a timeout below a millisecond that is not zero becomes one
/// millisecond. One that does not fit its type is invalid.
pub open spec fn timeout_of(nanos: i64) -> Result<i32, Error> {
    let ms = quant::truncated(nanos as int, 1_000_000);
    if ms == 0 && nanos != 0 {
        Ok(1)
    } else if i32::MIN <= ms <= i32::MAX {
        Ok(ms as i32)
    } else {
        Err(Error::EINVAL)
    }
}

/// The whole-millisecond timeout of a transfer that may last `nanos`; see [`timeout_of`].
pub fn timeout_millis(nanos: i64) -> (r: Result<i32, Error>)
    ensures
        r == timeout_of(nanos),
{
    let ms: i64 = if nanos >= 0 {
        nanos / 1_000_000
    } else {
        -(((-(nanos as i128)) / 1_000_000) as i64)
    };
    if ms == 0 && nanos != 0 {
        return Ok(1);
    }
    if ms >= -0x8000_0000 && ms <= 0x7fff_ffff {
        Ok(ms as i32)
    } else {
        Err(Error::EINVAL)
    }
}

/// A timeout that is asked for is never turned into waiting for ever.
pub proof fn law_short_timeouts_stay_timeouts(nanos: i64)
    requires
        nanos != 0,
    ensures
        timeout_of(nanos) matches Ok(ms) ==> ms != 0,
{
}

/// A transfer registered with a window, tagged with its queue.
#[derive(Clone, Copy, Debug, PartialEq, Eq, Structural)]
pub struct RegisteredUrb {
    /// The queue.
    pub token: u64,
    /// The transfer.
    pub urb: u64,
}

/// What a window holds.
#[verifier::ext_equal]
pub ghost struct WindowState {
    /// Which window it is.
    pub id: u64,
    /// The interface.
    pub interface: Interface,
    /// Whether tokens are handed out.
    pub open: bool,
    /// Tokens that are out.
    pub active: int,
    /// Transfers of the queues opened against it.
    pub urbs: Seq<RegisteredUrb>,
    /// The next queue's token.
    pub next_token: u64,
}

/// A revocable window during which transfers are permitted on an interface.
#[derive(Debug)]
pub struct IoWindow {
    id: u64,
    interface: Arc<Interface>,
    open: bool,
    active: usize,
    urbs: Vec<RegisteredUrb>,
    next_token: u64,
}

impl View for IoWindow {
    type V = WindowState;

    closed spec fn view(&self) -> WindowState {
        WindowState {
            id: self.id,
            interface: *self.interface,
            open: self.open,
            active: self.active as int,
            urbs: self.urbs@,
            next_token: self.next_token,
        }
    }
}

/// Proof that transfers are permitted.
#[derive(Debug)]
pub struct Io {
    window: u64,
    interface: Arc<Interface>,
}

/// The window a token was taken from, and its interface.
pub ghost struct IoState {
    pub window: u64,
    pub interface: Interface,
}

impl View for Io {
    type V = IoState;

    closed spec fn view(&self) -> IoState {
        IoState { window: self.window, interface: *self.interface }
    }
}

impl Io {
    /// The interface the token permits transfers on.
    pub fn interface(&self) -> (i: &Interface)
        ensures
            *i == self@.interface,
    {
        &self.interface
    }

    /// The window the token was taken from.
    pub fn window(&self) -> (id: u64)
        ensures
            id == self@.window,
    {
        self.window
    }

    /// The arguments of the request that selects an alternate setting of the token's interface;
    /// `ENODEV` without an active setting.
    pub fn set_alternate_setting(&self, alternate: u8) -> (r: Result<(u8, u8), Error>)
        ensures
            r == (match self@.interface.active {
                Some(alt) => Ok::<(u8, u8), Error>((alt.interface_number, alternate)),
                None => Err(Error::ENODEV),
            }),
    {
        match self.interface.number() {
            Some(n) => Ok((n, alternate)),
            None => Err(Error::ENODEV),
        }
    }
}

/// What happens to a window.
pub ghost enum Happening {
    /// A token is asked for.
    Enter,
    /// A token is given back.
    Leave,
    /// It is closed.
    Close,
    /// It is opened again.
    Reopen,
}

/// Whether a token that is asked for is handed out.
pub open spec fn admits(s: WindowState) -> bool {
    s.open && s.active < usize::MAX
}

/// A window after a happening.
pub open spec fn after(s: WindowState, h: Happening) -> WindowState {
    match h {
        Happening::Enter => if admits(s) {
            WindowState { active: s.active + 1, ..s }
        } else {
            s
        },
        Happening::Leave => if s.active > 0 {
            WindowState { active: s.active - 1, ..s }
        } else {
            s
        },
        Happening::Close => WindowState { open: false, ..s },
        Happening::Reopen => WindowState { open: true, ..s },
    }
}

/// The registrations that are not queue `token`'s.
pub open spec fn others(urbs: Seq<RegisteredUrb>, token: u64) -> Seq<RegisteredUrb> {
    urbs.filter(|r: RegisteredUrb| r.token != token)
}

/// How far a window's closing has come.
#[derive(Clone, Copy, Debug, PartialEq, Eq, Structural)]
pub enum CloseStage {
    /// Whoever waits for a transfer is to be woken.
    Wake,
    /// Tokens may still be out.
    Drain,
    /// No transfer is in flight.
    Done,
}

/// What is to be done next for a window to be closed.
#[derive(Debug)]
pub enum CloseStep {
    /// Cancel these transfers.
    Cancel(Vec<RegisteredUrb>),
    /// Wait until a token is given back.
    Wait,
    /// Nothing: the window is closed and idle.
    Done,
}

/// The model of a [`CloseStep`].
pub ghost enum CloseAction {
    /// Cancel these transfers.
    Cancel(Seq<RegisteredUrb>),
    /// Wait.
    Wait,
    /// Nothing.
    Done,
}

impl View for CloseStep {
    type V = CloseAction;

    open spec fn view(&self) -> CloseAction {
        match self {
            CloseStep::Cancel(urbs) => CloseAction::Cancel(urbs@),
            CloseStep::Wait => CloseAction::Wait,
            CloseStep::Done => CloseAction::Done,
        }
    }
}

/// What is to be done for a window to be closed. All its transfers are cancelled at once, which
/// wakes whoever waits for one. A token that is out may still submit, so they are cancelled once
/// more when the last has been given back.
pub open spec fn close_action(stage: CloseStage, s: WindowState) -> CloseAction {
    match stage {
        CloseStage::Wake => CloseAction::Cancel(s.urbs),
        CloseStage::Drain => if s.active == 0 {
            CloseAction::Cancel(s.urbs)
        } else {
            CloseAction::Wait
        },
        CloseStage::Done => CloseAction::Done,
    }
}

/// How far the closing has come after that.
pub open spec fn close_stage(stage: CloseStage, s: WindowState) -> CloseStage {
    match stage {
        CloseStage::Wake => CloseStage::Drain,
        CloseStage::Drain => if s.active == 0 {
            CloseStage::Done
        } else {
            CloseStage::Drain
        },
        CloseStage::Done => CloseStage::Done,
    }
}

/// A window being closed: which one, and how far it has come.
pub ghost struct ClosingState {
    /// The window.
    pub window: u64,
    /// How far it has come.
    pub stage: CloseStage,
}

/// A window being closed.
#[derive(Debug)]
pub struct Closing {
    window: u64,
    stage: CloseStage,
}

impl View for Closing {
    type V = ClosingState;

    closed spec fn view(&self) -> ClosingState {
        ClosingState { window: self.window, stage: self.stage }
    }
}

impl Closing {
    /// What is to be done next; see [`close_action`].
    pub fn next(&mut self, w: &IoWindow) -> (step: CloseStep)
        requires
            w@.id == old(self)@.window,
        ensures
            step@ == close_action(old(self)@.stage, w@),
            final(self)@ == (ClosingState {
                stage: close_stage(old(self)@.stage, w@),
                ..old(self)@
            }),
    {
        match self.stage {
            CloseStage::Wake => {
                self.stage = CloseStage::Drain;
                CloseStep::Cancel(w.registered())
            },
            CloseStage::Drain => if w.is_idle() {
                self.stage = CloseStage::Done;
                CloseStep::Cancel(w.registered())
            } else {
                CloseStep::Wait
            },
            CloseStage::Done => CloseStep::Done,
        }
    }

    /// The window being closed.
    pub fn window(&self) -> (id: u64)
        ensures
            id == self@.window,
    {
        self.window
    }
}

impl IoWindow {
    /// Open a window on an interface. `id` tells it from every other window.
    pub fn new(id: u64, interface: Interface) -> (w: IoWindow)
        ensures
            w@ == (WindowState {
                id,
                interface,
                open: true,
                active: 0,
                urbs: seq![],
                next_token: 0,
            }),
    {
        let w = IoWindow {
            id,
            interface: Arc::new(interface),
            open: true,
            active: 0,
            urbs: Vec::new(),
            next_token: 0,
        };
        assert(w@.urbs =~= seq![]);
        w
    }

    /// What tells the window from every other.
    pub fn id(&self) -> (id: u64)
        ensures
            id == self@.id,
    {
        self.id
    }

    /// Take a token; `ENODEV` once the window is closed.
    pub fn enter(&mut self) -> (r: Result<Io, Error>)
        ensures
            final(self)@ == after(old(self)@, Happening::Enter),
            r is Ok <==> admits(old(self)@),
            match r {
                Ok(io) => io@ == (IoState {
                    window: old(self)@.id,
                    interface: old(self)@.interface,
                }),
                Err(e) => e == (if !old(self)@.open {
                    Error::ENODEV
                } else {
                    Error::EOVERFLOW
                }),
            },
    {
        if !self.open {
            return Err(Error::ENODEV);
        }
        if self.active == usize::MAX {
            return Err(Error::EOVERFLOW);
        }
        self.active = self.active + 1;
        Ok(Io { window: self.id, interface: self.interface.clone() })
    }

    /// Give a token back, and say whether it was the last.
    pub fn leave(&mut self, io: Io) -> (last: bool)
        requires
            io@.window == old(self)@.id,
            old(self)@.active > 0,
        ensures
            final(self)@ == after(old(self)@, Happening::Leave),
            last == (final(self)@.active == 0),
    {
        self.active = self.active - 1;
        self.active == 0
    }

    /// The interface the window permits transfers on.
    pub fn interface(&self) -> (i: &Interface)
        ensures
            *i == self@.interface,
    {
        &self.interface
    }

    /// Refuse new tokens, and start closing the window; see [`Closing`].
    pub fn close(&mut self) -> (c: Closing)
        ensures
            final(self)@ == after(old(self)@, Happening::Close),
            c@ == (ClosingState { window: old(self)@.id, stage: CloseStage::Wake }),
    {
        self.open = false;
        Closing { window: self.id, stage: CloseStage::Wake }
    }

    /// The transfers registered with the window.
    fn registered(&self) -> (urbs: Vec<RegisteredUrb>)
        ensures
            urbs@ == self@.urbs,
    {
        let mut out: Vec<RegisteredUrb> = Vec::new();
        let mut i: usize = 0;
        while i < self.urbs.len()
            invariant
                i <= self.urbs@.len(),
                out@ == self.urbs@.take(i as int),
            decreases self.urbs@.len() - i,
        {
            out.push(self.urbs[i]);
            i += 1;
            assert(out@ =~= self.urbs@.take(i as int));
        }
        assert(out@ =~= self.urbs@);
        out
    }

    /// Whether no token is out.
    pub fn is_idle(&self) -> (b: bool)
        ensures
            b == (self@.active == 0),
    {
        self.active == 0
    }

    /// Whether tokens are handed out.
    pub fn is_open(&self) -> (b: bool)
        ensures
            b == self@.open,
    {
        self.open
    }

    /// Hand out tokens again.
    pub fn reopen(&mut self)
        ensures
            final(self)@ == after(old(self)@, Happening::Reopen),
    {
        self.open = true;
    }

    /// Register a transfer of queue `token`; `ENODEV` once the window is closed.
    pub fn register_urb(&mut self, token: u64, urb: u64) -> (r: Result<(), Error>)
        ensures
            match r {
                Ok(()) => old(self)@.open && final(self)@ == (WindowState {
                    urbs: old(self)@.urbs.push(RegisteredUrb { token, urb }),
                    ..old(self)@
                }),
                Err(e) => !old(self)@.open && e == Error::ENODEV && final(self)@ == old(self)@,
            },
    {
        if !self.open {
            return Err(Error::ENODEV);
        }
        self.urbs.push(RegisteredUrb { token, urb });
        Ok(())
    }

    /// Take a token for a queue; `ENODEV` once the window is closed.
    pub fn new_token(&mut self) -> (r: Result<u64, Error>)
        ensures
            match r {
                Ok(t) => old(self)@.open && t == old(self)@.next_token && t < u64::MAX
                    && final(self)@ == (WindowState {
                    next_token: (t + 1) as u64,
                    ..old(self)@
                }),
                Err(e) => final(self)@ == old(self)@ && e == (if !old(self)@.open {
                    Error::ENODEV
                } else {
                    Error::EOVERFLOW
                }) && (!old(self)@.open || old(self)@.next_token == u64::MAX),
            },
    {
        if !self.open {
            return Err(Error::ENODEV);
        }
        let token: u64 = self.next_token;
        if token == u64::MAX {
            return Err(Error::EOVERFLOW);
        }
        self.next_token = token + 1;
        Ok(token)
    }

    /// Forget the transfers of queue `token`.
    pub fn deregister(&mut self, token: u64)
        ensures
            final(self)@ == (WindowState {
                urbs: others(old(self)@.urbs, token),
                ..old(self)@
            }),
    {
        let mut kept: Vec<RegisteredUrb> = Vec::new();
        let mut i: usize = 0;
        let ghost all = self.urbs@;
        proof {
            reveal_with_fuel(Seq::filter, 1);
            assert(all.take(0) =~= seq![]);
        }
        while i < self.urbs.len()
            invariant
                i <= self.urbs@.len(),
                all == self.urbs@,
                self@ == old(self)@,
                kept@ == others(all.take(i as int), token),
            decreases self.urbs@.len() - i,
        {
            proof {
                let t = all.take(i + 1);
                assert(t.drop_last() =~= all.take(i as int));
                assert(t.last() == all[i as int]);
                reveal(Seq::filter);
            }
            let r = self.urbs[i];
            if r.token != token {
                kept.push(r);
            }
            i += 1;
        }
        assert(all.take(i as int) =~= all);
        self.urbs = kept;
    }
}

/// After a run of happenings.
pub open spec fn after_all(s: WindowState, hs: Seq<Happening>) -> WindowState
    decreases hs.len(),
{
    if hs.len() == 0 {
        s
    } else {
        after(after_all(s, hs.drop_last()), hs.last())
    }
}

/// Once a window is closed and idle it stays so until it is opened again: no transfer can start
/// in between.
pub proof fn law_closed_windows_stay_idle(s: WindowState, hs: Seq<Happening>)
    requires
        !s.open,
        s.active == 0,
        forall|i: int| 0 <= i < hs.len() ==> !(#[trigger] hs[i] is Reopen),
    ensures
        after_all(s, hs) == s,
    decreases hs.len(),
{
    if hs.len() > 0 {
        let rest = hs.drop_last();
        assert forall|i: int| 0 <= i < rest.len() implies !(#[trigger] rest[i] is Reopen) by {
            assert(rest[i] == hs[i]);
        }
        law_closed_windows_stay_idle(s, rest);
        assert(!(hs.last() is Reopen)) by {
            assert(hs[hs.len() - 1] == hs.last());
        }
    }
}

/// How far a closing has come that found its window in these states.
pub open spec fn closing_after(seen: Seq<WindowState>) -> CloseStage
    decreases seen.len(),
{
    if seen.len() == 0 {
        CloseStage::Wake
    } else {
        close_stage(closing_after(seen.drop_last()), seen.last())
    }
}

/// What a closing asks for in the last of the states it found its window in.
pub open spec fn asked_last(seen: Seq<WindowState>) -> CloseAction {
    close_action(closing_after(seen.drop_last()), seen.last())
}

/// A window is closed only when no token is out: every transfer registered at the start has been
/// cancelled, and later every one registered when the window was found idle.
pub proof fn law_closing_cancels_until_idle(seen: Seq<WindowState>) -> (k: int)
    requires
        closing_after(seen) == CloseStage::Done,
    ensures
        2 <= k <= seen.len(),
        asked_last(seen.take(1)) == CloseAction::Cancel(seen[0].urbs),
        seen[k - 1].active == 0,
        asked_last(seen.take(k)) == CloseAction::Cancel(seen[k - 1].urbs),
    decreases seen.len(),
{
    let before = seen.drop_last();
    if closing_after(before) == CloseStage::Done {
        let k = law_closing_cancels_until_idle(before);
        assert(before.take(k) =~= seen.take(k));
        assert(before.take(1) =~= seen.take(1));
        k
    } else {
        assert(before.len() >= 1);
        let first = seen.take(1);
        assert(first.drop_last() =~= seen.take(0));
        assert(closing_after(first.drop_last()) == CloseStage::Wake);
        assert(first.last() == seen[0]);
        assert(seen.take(seen.len() as int) =~= seen);
        seen.len() as int
    }
}

/// A queue that has been forgotten leaves none of its transfers behind, and none of any other
/// queue's are lost.
pub proof fn law_deregistering_is_exact(urbs: Seq<RegisteredUrb>, token: u64, r: RegisteredUrb)
    ensures
        others(urbs, token).contains(r) <==> urbs.contains(r) && r.token != token,
{
    let f = |r: RegisteredUrb| r.token != token;
    let kept = others(urbs, token);
    if kept.contains(r) {
        urbs.lemma_filter_contains_rev(f, r);
        let i = choose|i: int| 0 <= i < kept.len() && kept[i] == r;
        urbs.lemma_filter_pred(f, i);
    }
    if urbs.contains(r) && r.token != token {
        let i = choose|i: int| 0 <= i < urbs.len() && urbs[i] == r;
        urbs.lemma_filter_contains(f, i);
    }
}

/// A timeout is counted in whole milliseconds, and refused only where their number does not fit.
pub proof fn law_timeouts_are_whole_milliseconds(nanos: i64)
    requires
        nanos >= 0,
    ensures
        match timeout_of(nanos) {
            Ok(ms) => if nanos == 0 {
                ms == 0
            } else if nanos < 1_000_000 {
                ms == 1
            } else {
                1_000_000 * ms <= nanos < 1_000_000 * (ms + 1)
            },
            Err(e) => e == Error::EINVAL && nanos >= 1_000_000 * 0x8000_0000,
        },
{
}

/// An open window hands a token out and takes it back as if nothing had been; a closed one hands
/// none out.
pub proof fn law_open_windows_admit(s: WindowState)
    requires
        0 <= s.active < usize::MAX,
    ensures
        s.open ==> after(s, Happening::Enter).active == s.active + 1,
        !s.open ==> after(s, Happening::Enter) == s,
        s.open ==> after(after(s, Happening::Enter), Happening::Leave) == s,
        after(s, Happening::Enter).urbs == s.urbs,
        after(s, Happening::Enter).open == s.open,
{
}

/// Closing and opening again leave the tokens and the transfers alone, and tokens may be given
/// back to a closed window.
pub proof fn law_closing_leaves_the_tokens(s: WindowState)
    requires
        s.active > 0,
    ensures
        !after(s, Happening::Close).open,
        after(s, Happening::Reopen).open,
        after(s, Happening::Close).active == s.active,
        after(s, Happening::Reopen).active == s.active,
        after(s, Happening::Close).urbs == s.urbs,
        after(s, Happening::Reopen).urbs == s.urbs,
        s.open ==> after(after(s, Happening::Close), Happening::Reopen) == s,
        after(s, Happening::Leave).active == s.active - 1,
        after(s, Happening::Leave).open == s.open,
{
}

/// A closing waits for as long as a token is out, and asks for nothing after its end.
pub proof fn law_closing_waits_for_the_tokens(s: WindowState)
    requires
        s.active > 0,
    ensures
        close_action(CloseStage::Drain, s) == CloseAction::Wait,
        close_stage(CloseStage::Drain, s) == CloseStage::Drain,
        close_action(CloseStage::Done, s) == CloseAction::Done,
        close_stage(CloseStage::Done, s) == CloseStage::Done,
{
}

/// A closing that finds its window idle ends there.
pub proof fn law_closing_ends(seen: Seq<WindowState>)
    requires
        seen.len() >= 2,
        seen.last().active == 0,
    ensures
        closing_after(seen) == CloseStage::Done,
    decreases seen.len(),
{
    let before = seen.drop_last();
    assert(closing_after(before) != CloseStage::Wake) by {
        assert(before.len() >= 1);
        assert(closing_after(before) == close_stage(
            closing_after(before.drop_last()),
            before.last(),
        ));
    }
}

} // verus!
