//! The transient status overlay: one message at a time, visible for a fixed
//! time to live and cleared once it has expired.

use vstd::prelude::*;

verus! {

/// How long a status message stays visible, in milliseconds.
pub const OVERLAY_TTL_MILLIS: u64 = 2000;

/// The status overlay state: at most one message, with the timestamp at
/// which it expires.
pub struct StatusOverlay {
    pub message: Option<String>,
    pub expires_at: u64,
}

impl StatusOverlay {
    /// An overlay with no message.
    pub fn new() -> (r: StatusOverlay)
        ensures
            r.message is None,
    {
        StatusOverlay { message: None, expires_at: 0 }
    }

    /// Replaces any current message with the given one, visible until
    /// `now + OVERLAY_TTL_MILLIS`.
    pub fn show(&mut self, message: String, now: u64)
        requires
            now + OVERLAY_TTL_MILLIS <= u64::MAX,
        ensures
            final(self).message is Some,
            final(self).message->0@ == message@,
            final(self).expires_at == now + OVERLAY_TTL_MILLIS,
    {
        self.message = Some(message);
        self.expires_at = now + OVERLAY_TTL_MILLIS;
    }

    /// Whether a message is live at the given instant: one is set and its
    /// expiry has not passed.  An expired message is cleared by the call.
    pub fn is_live(&mut self, now: u64) -> (r: bool)
        ensures
            r == (old(self).message is Some && now <= old(self).expires_at),
            r ==> *final(self) == *old(self),
            !r ==> final(self).message is None,
            final(self).expires_at == old(self).expires_at,
    {
        let live = self.message.is_some() && now <= self.expires_at;
        if !live {
            self.message = None;
        }
        live
    }

    /// A copy of the current message text, if one is set.
    pub fn current_message(&self) -> (r: Option<&String>)
        ensures
            r is Some <==> self.message is Some,
            r is Some ==> r->0@ == self.message->0@,
    {
        match &self.message {
            Some(m) => Some(m),
            None => None,
        }
    }
}

} // verus!
