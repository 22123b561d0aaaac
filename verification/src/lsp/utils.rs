//! Conversions between the rules' coordinates and the editor's, and the
//! bookkeeping of delayed work.

use crate::lsp::protocol::Position;
use crate::table::Table;
use crate::text::{chars_of, string_of};
use vstd::prelude::*;

verus! {

/// `n` as a 32-bit number, or the largest one where `n` does not fit.
pub open spec fn clamp_u32(n: int) -> u32 {
    if n < 0 {
        0
    } else if n > u32::MAX {
        u32::MAX
    } else {
        n as u32
    }
}

/// `n` as a 32-bit number, or the largest one where `n` does not fit.
pub fn to_u32(n: usize) -> (r: u32)
    ensures
        r == clamp_u32(n as int),
{
    if n > u32::MAX as usize {
        u32::MAX
    } else {
        n as u32
    }
}

/// The 0-based form of a 1-based number; 0 stays 0.
pub open spec fn zero_based(n: int) -> int {
    if n > 0 {
        n - 1
    } else {
        0
    }
}

/// The editor position of a 1-based line and column.
pub open spec fn position_of(line: int, column: int) -> Position {
    Position { line: clamp_u32(zero_based(line)), character: clamp_u32(zero_based(column)) }
}

/// Converts a 1-based line and column to the editor's 0-based position.
pub fn to_position(line: usize, column: usize) -> (r: Position)
    ensures
        r == position_of(line as int, column as int),
{
    let l: usize = if line > 0 { line - 1 } else { 0 };
    let c: usize = if column > 0 { column - 1 } else { 0 };
    Position { line: to_u32(l), character: to_u32(c) }
}

/// What `schedule` answers: the token of the timer to start, and the token
/// of the timer that it replaces, which is to be stopped.
#[derive(Clone, Copy, Debug, PartialEq, Eq, Structural)]
pub struct Scheduled {
    pub token: u64,
    pub superseded: Option<u64>,
}

/// Whether the timer `token` of `key` is the one that is pending.
pub open spec fn fires(pending: Map<Seq<char>, u64>, key: Seq<char>, token: u64) -> bool {
    pending.contains_key(key) && pending[key] == token
}

/// Keeps, for each key, the one timer that is pending for it.
///
/// The debouncer decides; the caller keeps the clock. `schedule` hands out
/// the token of a new timer. When a timer's quiet interval is over the
/// caller asks `fire` whether its task is to run: it is, unless the timer
/// was cancelled or replaced in the meantime.
pub struct Debouncer {
    pending: Table<u64>,
    next_token: u64,
    quiet_millis: u64,
}

impl Debouncer {
    /// The pending timer of each key.
    pub closed spec fn pending(&self) -> Map<Seq<char>, u64> {
        self.pending.map()
    }

    /// The token that the next timer gets.
    pub closed spec fn next_token(&self) -> u64 {
        self.next_token
    }

    /// The quiet interval, in milliseconds.
    pub closed spec fn quiet(&self) -> u64 {
        self.quiet_millis
    }

    /// A debouncer without pending timers.
    pub fn new(quiet_millis: u64) -> (r: Self)
        ensures
            r.pending() == Map::<Seq<char>, u64>::empty(),
            r.next_token() == 0,
            r.quiet() == quiet_millis,
    {
        Debouncer { pending: Table::new(), next_token: 0, quiet_millis }
    }

    /// The quiet interval, in milliseconds.
    pub fn quiet_interval(&self) -> (r: u64)
        ensures
            r == self.quiet(),
    {
        self.quiet_millis
    }

    /// The token of the timer that is pending for `key`.
    pub fn pending_token(&self, key: &str) -> (r: Option<u64>)
        ensures
            r == if self.pending().contains_key(key@) {
                Some(self.pending()[key@])
            } else {
                None
            },
    {
        match self.pending.get(key) {
            Some(t) => Some(*t),
            None => None,
        }
    }

    /// Installs a new timer for `key` in place of the pending one.
    ///
    /// The answer names the new timer and the one it replaces. There is no
    /// answer, and nothing changes, once every token has been handed out.
    pub fn schedule(&mut self, key: &str) -> (r: Option<Scheduled>)
        ensures
            final(self).quiet() == old(self).quiet(),
            match r {
                Some(s) => {
                    &&& old(self).next_token() < u64::MAX
                    &&& s.token == old(self).next_token()
                    &&& s.superseded == if old(self).pending().contains_key(key@) {
                        Some(old(self).pending()[key@])
                    } else {
                        None
                    }
                    &&& final(self).next_token() == s.token + 1
                    &&& final(self).pending() == old(self).pending().insert(key@, s.token)
                },
                None => {
                    &&& old(self).next_token() == u64::MAX
                    &&& final(self).next_token() == old(self).next_token()
                    &&& final(self).pending() == old(self).pending()
                },
            },
    {
        if self.next_token == u64::MAX {
            return None;
        }
        let token = self.next_token;
        let superseded = self.pending.set(string_of(chars_of(key).as_slice()), token);
        self.next_token = token + 1;
        Some(Scheduled { token, superseded })
    }

    /// Removes the pending timer of `key` and returns its token, so that
    /// the caller can stop it.
    pub fn cancel(&mut self, key: &str) -> (r: Option<u64>)
        ensures
            final(self).quiet() == old(self).quiet(),
            final(self).next_token() == old(self).next_token(),
            final(self).pending() == old(self).pending().remove(key@),
            r == if old(self).pending().contains_key(key@) {
                Some(old(self).pending()[key@])
            } else {
                None
            },
    {
        self.pending.remove(key)
    }

    /// Tells whether the task of timer `token` of `key` is to run now that
    /// its interval is over. It is where that timer is the pending one;
    /// the key then has no pending timer any more.
    pub fn fire(&mut self, key: &str, token: u64) -> (run: bool)
        ensures
            final(self).quiet() == old(self).quiet(),
            final(self).next_token() == old(self).next_token(),
            run == fires(old(self).pending(), key@, token),
            final(self).pending() == if run {
                old(self).pending().remove(key@)
            } else {
                old(self).pending()
            },
    {
        match self.pending.get(key) {
            Some(t) => {
                if *t == token {
                    let _ = self.pending.remove(key);
                    true
                } else {
                    false
                }
            },
            None => false,
        }
    }
}

/// Scheduling twice for a key coalesces: the two timers get the tokens
/// `next` and `next + 1`, and of the two only the second runs its task, in
/// whichever order their intervals end, and it runs it once.
pub proof fn lemma_rescheduling_coalesces(pending: Map<Seq<char>, u64>, key: Seq<char>, next: u64)
    requires
        next < u64::MAX,
    ensures
        ({
            let first = next;
            let second = (next + 1) as u64;
            let after = pending.insert(key, first).insert(key, second);
            &&& !fires(after, key, first)
            &&& fires(after, key, second)
            &&& !fires(after.remove(key), key, first)
            &&& !fires(after.remove(key), key, second)
        }),
{
}

/// A timer that was replaced never runs its task: tokens are handed out in
/// increasing order, so the token of an earlier timer is not the token of
/// the timer that is installed now.
pub proof fn lemma_stale_timer_never_fires(
    pending: Map<Seq<char>, u64>,
    key: Seq<char>,
    stale: u64,
    next: u64,
)
    requires
        stale < next,
    ensures
        !fires(pending.insert(key, next), key, stale),
{
}

/// A cancelled timer never runs its task, and cancelling leaves the timers
/// of other keys alone.
pub proof fn lemma_cancelled_never_fires(
    pending: Map<Seq<char>, u64>,
    key: Seq<char>,
    token: u64,
    other: Seq<char>,
)
    requires
        other != key,
    ensures
        !fires(pending.remove(key), key, token),
        fires(pending.remove(key), other, token) == fires(pending, other, token),
{
}

} // verus!
