//! Idle auto-lock for the vault.
//!
//! The renderer "touches" the locker on every meaningful interaction. When
//! the idle timeout passes without a touch, the vault is locked. Times are
//! readings of a monotonic clock in nanoseconds, taken by the caller; a
//! frozen process does not lock while frozen, which is not the threat
//! modelled here.

use vstd::prelude::*;
use crate::vault::Vault;

verus! {

/// Default idle timeout, in seconds (15 minutes).
pub const DEFAULT_IDLE_SECS: u64 = 900;

/// The locker's state: when the renderer last touched it and the timeout.
#[derive(Debug, Clone, Copy)]
pub struct AutoLocker {
    last_activity: u128,
    idle_secs: u64,
}

/// Whether the vault is due for locking at `now`: a timeout is set (not
/// zero), the vault is unlocked, and at least the timeout has passed since
/// the last touch (no time has passed if the clock reads earlier).
pub open spec fn due(last: u128, idle_secs: u64, now: u128, unlocked: bool) -> bool {
    &&& idle_secs != 0
    &&& unlocked
    &&& now >= last
    &&& now - last >= idle_secs * 1_000_000_000
}

impl AutoLocker {
    /// The time of the last touch.
    pub closed spec fn last_view(&self) -> u128 {
        self.last_activity
    }

    /// The timeout in seconds (0: never lock).
    pub closed spec fn idle_view(&self) -> u64 {
        self.idle_secs
    }

    /// A locker started at `now`, with the default timeout.
    pub fn new(now: u128) -> (res: Self)
        ensures
            res.last_view() == now,
            res.idle_view() == DEFAULT_IDLE_SECS,
    {
        AutoLocker { last_activity: now, idle_secs: DEFAULT_IDLE_SECS }
    }

    /// Renderer-driven heartbeat.
    pub fn touch(&mut self, now: u128)
        ensures
            final(self).last_view() == now,
            final(self).idle_view() == old(self).idle_view(),
    {
        self.last_activity = now;
    }

    /// Sets the idle timeout in seconds; 0 disables locking.
    pub fn set_idle_secs(&mut self, secs: u64)
        ensures
            final(self).idle_view() == secs,
            final(self).last_view() == old(self).last_view(),
    {
        self.idle_secs = secs;
    }

    /// The idle timeout in seconds.
    pub fn idle_secs(&self) -> (res: u64)
        ensures
            res == self.idle_view(),
    {
        self.idle_secs
    }

    /// Whether the vault is due for locking at `now`.
    pub fn should_lock(&self, now: u128, vault_unlocked: bool) -> (res: bool)
        ensures
            res == due(self.last_view(), self.idle_view(), now, vault_unlocked),
    {
        if self.idle_secs == 0 {
            return false;
        }
        if !vault_unlocked {
            return false;
        }
        let elapsed: u128 = if now >= self.last_activity { now - self.last_activity } else { 0 };
        elapsed >= (self.idle_secs as u128) * 1_000_000_000
    }

    /// Locks the vault if it is due at `now` (the timer's tick).
    pub fn maybe_lock(&self, vault: &mut Vault, now: u128)
        requires
            old(vault).wf(),
        ensures
            final(vault).wf(),
            final(vault).path_view() == old(vault).path_view(),
            final(vault).record_view() == old(vault).record_view(),
            due(self.last_view(), self.idle_view(), now, old(vault).dek_view() is Some) ==> final(vault).dek_view() is None,
            !due(self.last_view(), self.idle_view(), now, old(vault).dek_view() is Some) ==> final(vault).dek_view()
                == old(vault).dek_view(),
    {
        if self.should_lock(now, vault.is_unlocked()) {
            vault.lock();
        }
    }
}

/// A touch keeps the vault unlocked for the whole timeout: until that much
/// time has passed after the touch, it is never due.
pub proof fn law_touch_defers_lock(idle_secs: u64, touched: u128, now: u128, unlocked: bool)
    requires
        touched <= now,
        now - touched < idle_secs * 1_000_000_000,
    ensures
        !due(touched, idle_secs, now, unlocked),
{
}

/// A timeout of zero never locks.
pub proof fn law_zero_timeout_never_locks(last: u128, now: u128, unlocked: bool)
    ensures
        !due(last, 0, now, unlocked),
{
}

} // verus!
