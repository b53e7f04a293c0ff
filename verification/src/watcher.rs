//! Change watchers and the signal they raise.
//!
//! A watcher turns what the operating system reports into the decision
//! whether the capture worker is to be woken. The signal itself only knows
//! whether a wake-up is pending: signals raised before the capture worker
//! gets to them collapse into one.

use vstd::prelude::*;

verus! {

/// How a platform learns of clipboard changes.
#[derive(Debug, Clone, Copy, PartialEq, Eq, Structural)]
pub enum ChangeWatcher {
    /// The system broadcasts every clipboard update.
    EventDriven,
    /// The system keeps a counter of changes, which is polled on a timer;
    /// `last` is the count seen last.
    ChangeCounter { last: i64 },
    /// Nothing is known: every tick of the timer counts as a possible change.
    Blind,
}

/// What a watcher is told.
#[derive(Debug, Clone, Copy, PartialEq, Eq, Structural)]
pub enum WatchEvent {
    /// The system broadcast a clipboard update.
    Broadcast,
    /// The timer ticked; `counter` is the system's change count where it
    /// keeps one.
    Tick { counter: Option<i64> },
}

/// Whether a watcher signals on an event. An event-driven watcher signals
/// on every broadcast and on nothing else. A counting watcher signals on a
/// tick whose count differs from the one seen last. A blind watcher signals
/// on every tick.
pub open spec fn signals_on(w: ChangeWatcher, e: WatchEvent) -> bool {
    match w {
        ChangeWatcher::EventDriven => e is Broadcast,
        ChangeWatcher::ChangeCounter { last } => match e {
            WatchEvent::Tick { counter: Some(c) } => c != last,
            _ => false,
        },
        ChangeWatcher::Blind => e is Tick,
    }
}

/// The watcher after an event: a counting watcher remembers the count it
/// was shown, the others have nothing to remember.
pub open spec fn after_event(w: ChangeWatcher, e: WatchEvent) -> ChangeWatcher {
    match w {
        ChangeWatcher::ChangeCounter { last } => match e {
            WatchEvent::Tick { counter: Some(c) } => ChangeWatcher::ChangeCounter { last: c },
            _ => w,
        },
        _ => w,
    }
}

impl ChangeWatcher {
    /// A counting watcher that starts from the given count.
    pub fn counting_from(count: i64) -> (w: ChangeWatcher)
        ensures
            w == (ChangeWatcher::ChangeCounter { last: count }),
    {
        ChangeWatcher::ChangeCounter { last: count }
    }

    /// Takes note of an event and tells whether the capture worker is to
    /// be signalled.
    pub fn observe(&mut self, event: WatchEvent) -> (signal: bool)
        ensures
            signal == signals_on(*old(self), event),
            *final(self) == after_event(*old(self), event),
    {
        match *self {
            ChangeWatcher::EventDriven => matches!(event, WatchEvent::Broadcast),
            ChangeWatcher::ChangeCounter { last } => match event {
                WatchEvent::Tick { counter: Some(c) } => {
                    *self = ChangeWatcher::ChangeCounter { last: c };
                    c != last
                },
                _ => false,
            },
            ChangeWatcher::Blind => matches!(event, WatchEvent::Tick { .. }),
        }
    }
}

/// The signal between the watchers and the capture worker: either a
/// wake-up is pending or none is.
#[derive(Debug, Clone, Copy, PartialEq, Eq, Structural)]
pub struct SignalSlot {
    pub pending: bool,
}

/// The slot after the signal was raised once more.
pub open spec fn after_raise(s: SignalSlot) -> SignalSlot {
    SignalSlot { pending: true }
}

/// The slot after the capture worker took what was pending.
pub open spec fn after_take(s: SignalSlot) -> SignalSlot {
    SignalSlot { pending: false }
}

/// The slot after the signal was raised `n` times in a row.
pub open spec fn raised(s: SignalSlot, n: nat) -> SignalSlot
    decreases n,
{
    if n == 0 {
        s
    } else {
        after_raise(raised(s, (n - 1) as nat))
    }
}

impl SignalSlot {
    /// A slot with nothing pending.
    pub fn new() -> (s: SignalSlot)
        ensures
            !s.pending,
    {
        SignalSlot { pending: false }
    }

    /// Raises the signal. Returns whether this made a wake-up pending;
    /// `false` means that one was pending already, which is no error.
    pub fn raise(&mut self) -> (fresh: bool)
        ensures
            *final(self) == after_raise(*old(self)),
            fresh == !old(self).pending,
    {
        let fresh = !self.pending;
        self.pending = true;
        fresh
    }

    /// Takes the pending wake-up, if there is one.
    pub fn take(&mut self) -> (woken: bool)
        ensures
            *final(self) == after_take(*old(self)),
            woken == old(self).pending,
    {
        let woken = self.pending;
        self.pending = false;
        woken
    }
}

/// Coalescing: however often the signal is raised before the capture worker
/// looks, exactly one wake-up is pending afterwards. The worker takes it once
/// and then finds nothing.
pub proof fn lemma_signals_coalesce(s: SignalSlot, n: nat)
    requires
        n > 0,
    ensures
        raised(s, n).pending,
        !after_take(raised(s, n)).pending,
        raised(s, n) == raised(s, 1),
{
}

/// A counting watcher signals once per change: shown the same count again,
/// it stays quiet.
pub proof fn lemma_counter_signals_once(w: ChangeWatcher, count: i64)
    requires
        w is ChangeCounter,
    ensures
        !signals_on(
            after_event(w, WatchEvent::Tick { counter: Some(count) }),
            WatchEvent::Tick { counter: Some(count) },
        ),
{
}

} // verus!
