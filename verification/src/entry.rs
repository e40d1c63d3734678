//! A piece of cached content with the time it was stored and the time, if
//! any, at which it stops being valid.

use vstd::prelude::*;
use crate::time::{TimeSpan, now, clock_limit};

verus! {

/// The mathematical content of an entry: times as nanoseconds since the
/// epoch, and the content itself.
pub ghost struct EntryView<C> {
    pub update_time: nat,
    pub expires_at: Option<nat>,
    pub content: C,
}

impl<C> EntryView<C> {
    /// An entry is valid at `now` if it never expires or expires later.
    pub open spec fn is_valid_at(self, now: nat) -> bool {
        match self.expires_at {
            None => true,
            Some(at) => at > now,
        }
    }

    /// The same entry around other content.
    pub open spec fn with_content<D>(self, content: D) -> EntryView<D> {
        EntryView { update_time: self.update_time, expires_at: self.expires_at, content }
    }
}

/// The length of an optional span.
pub open spec fn span_nanos(span: Option<TimeSpan>) -> Option<nat> {
    match span {
        Some(s) => Some(s@),
        None => None,
    }
}

/// When an entry stamped at `update_time` with the given lifetime expires:
/// never without a lifetime, else at the end of the lifetime, or at the last
/// representable time where the lifetime reaches beyond it.
pub open spec fn expiry(update_time: nat, lifetime: Option<nat>) -> Option<nat> {
    match lifetime {
        None => None,
        Some(l) => Some(
            if update_time + l <= u128::MAX {
                update_time + l
            } else {
                u128::MAX as nat
            },
        ),
    }
}

/// Holds some content, the time it was stored and, optionally, the time at
/// which it expires. Nothing changes an entry once it is made.
#[derive(Clone, Debug, PartialEq, Eq)]
pub struct CachedContent<T> {
    update_time: TimeSpan,
    expires_at: Option<TimeSpan>,
    content: T,
}

impl<T> View for CachedContent<T> {
    type V = EntryView<T>;

    closed spec fn view(&self) -> EntryView<T> {
        EntryView {
            update_time: self.update_time@,
            expires_at: span_nanos(self.expires_at),
            content: self.content,
        }
    }
}

impl<T> CachedContent<T> {
    /// The times of an entry fit in 128 bits.
    pub proof fn lemma_view_bounds(self)
        ensures
            self@.update_time <= u128::MAX,
            self@.expires_at matches Some(at) ==> at <= u128::MAX,
    {
        TimeSpan::lemma_view_bound(self.update_time);
        if let Some(x) = self.expires_at {
            TimeSpan::lemma_view_bound(x);
        }
    }

    /// An entry with exactly the given parts.
    pub fn from_parts(update_time: TimeSpan, expires_at: Option<TimeSpan>, content: T) -> (r: Self)
        ensures
            r@ == (EntryView {
                update_time: update_time@,
                expires_at: span_nanos(expires_at),
                content,
            }),
    {
        CachedContent { update_time, expires_at, content }
    }

    /// An entry for `content`, stored at `time_now`. With a lifetime it
    /// expires that long after `time_now`.
    pub fn stamped(content: T, lifetime: Option<TimeSpan>, time_now: TimeSpan) -> (r: Self)
        ensures
            r@ == (EntryView {
                update_time: time_now@,
                expires_at: expiry(time_now@, span_nanos(lifetime)),
                content,
            }),
    {
        let expires_at = match lifetime {
            Some(l) => Some(time_now.saturating_add(l)),
            None => None,
        };
        CachedContent { update_time: time_now, expires_at, content }
    }

    /// Create a new entry from some content, stored now. Optionally attach
    /// the time the entry has to live.
    pub fn from(content: T, lifetime: Option<TimeSpan>) -> (r: Self)
        ensures
            r@.content == content,
            r@.update_time <= clock_limit(),
            r@.expires_at == expiry(r@.update_time, span_nanos(lifetime)),
    {
        CachedContent::stamped(content, lifetime, now())
    }

    /// Whether the entry is valid at `time_now`: it has no expiry time, or
    /// its expiry time is still ahead.
    pub fn is_valid(&self, time_now: TimeSpan) -> (r: bool)
        ensures
            r == self@.is_valid_at(time_now@),
    {
        match self.expires_at {
            None => true,
            Some(at) => at.is_after(time_now),
        }
    }

    /// Whether the entry is valid by the system clock. An entry without an
    /// expiry time always is.
    pub fn valid(&self) -> (r: bool)
        ensures
            self@.expires_at is None ==> r,
            exists|t: nat| t <= clock_limit() && r == #[trigger] self@.is_valid_at(t),
    {
        let time_now = now();
        let r = self.is_valid(time_now);
        assert(r == self@.is_valid_at(time_now@));
        r
    }

    /// The content, for reading.
    pub fn content(&self) -> (r: &T)
        ensures
            *r == self@.content,
    {
        &self.content
    }

    /// The content, given up by the entry.
    pub fn into_content(self) -> (r: T)
        ensures
            r == self@.content,
    {
        self.content
    }

    /// The time at which the entry was stored.
    pub fn update_time(&self) -> (r: TimeSpan)
        ensures
            r@ == self@.update_time,
    {
        self.update_time
    }

    /// The time at which the entry expires, if it ever does.
    pub fn expires_at(&self) -> (r: Option<TimeSpan>)
        ensures
            span_nanos(r) == self@.expires_at,
    {
        self.expires_at
    }

    /// The same entry around other content, such as its encoded form.
    pub fn replace_content<U>(self, content: U) -> (r: CachedContent<U>)
        ensures
            r@ == self@.with_content(content),
    {
        CachedContent { update_time: self.update_time, expires_at: self.expires_at, content }
    }
}

} // verus!
