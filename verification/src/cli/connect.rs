//! Connecting to one address of a target after the other.

use super::connector::attempt_timeout;
use super::connector::attempt_share;
use crate::net::{socket_text, SocketAddr};
use crate::net::socket_chars;
use crate::text::join3;
use vstd::prelude::*;

verus! {

/// What is connected to. A target shares its time among its addresses; an
/// upstream gives each address all that is left.
#[derive(Debug, Clone, Copy, PartialEq, Eq, Structural)]
pub enum ConnectKind {
    Target,
    Upstream,
}

/// Why there is no connection.
#[derive(Debug)]
pub struct ConnectError {
    pub message: String,
    pub timed_out: bool,
}

#[verifier::ext_equal]
pub struct ConnectErrorView {
    pub message: Seq<char>,
    pub timed_out: bool,
}

impl View for ConnectError {
    type V = ConnectErrorView;

    open spec fn view(&self) -> ConnectErrorView {
        ConnectErrorView { message: self.message@, timed_out: self.timed_out }
    }
}

/// The last error of a round, if there was one.
pub open spec fn last_view(last: Option<ConnectError>) -> Option<ConnectErrorView> {
    match last {
        Some(error) => Some(error@),
        None => None,
    }
}

/// Attempts to connect, one address after the other.
#[derive(Debug)]
pub struct ConnectRound {
    pub kind: ConnectKind,
    pub addresses: Vec<SocketAddr>,
    pub next: usize,
    pub timeout: u64,
    pub last: Option<ConnectError>,
}

/// An attempt: where to, and how many nanoseconds it may take.
#[derive(Debug, Clone, Copy, PartialEq, Eq, Structural)]
pub struct ConnectAttempt {
    pub address: SocketAddr,
    pub share: u64,
}

/// What became of an attempt.
#[derive(Debug)]
pub enum AttemptFailure {
    /// It took longer than its share.
    TimedOut,
    Failed(ConnectError),
}

/// The error where no address can be tried.
pub open spec fn no_address(kind: ConnectKind) -> ConnectErrorView {
    ConnectErrorView {
        message: match kind {
            ConnectKind::Target => "target DNS result does not match the iWAN address family"@,
            ConnectKind::Upstream => "upstream DNS result does not match the iWAN address family"@,
        },
        timed_out: false,
    }
}

/// The error where the names took too long to resolve.
pub open spec fn late_names(kind: ConnectKind) -> ConnectErrorView {
    ConnectErrorView {
        message: match kind {
            ConnectKind::Target => "target resolution timed out"@,
            ConnectKind::Upstream => "upstream connection timed out"@,
        },
        timed_out: true,
    }
}

/// The error where the time is up.
pub open spec fn time_is_up(kind: ConnectKind) -> ConnectErrorView {
    ConnectErrorView {
        message: match kind {
            ConnectKind::Target => "target connection timed out"@,
            ConnectKind::Upstream => "upstream connection timed out"@,
        },
        timed_out: true,
    }
}

/// The error of a round in which every address was tried.
pub open spec fn all_tried(kind: ConnectKind, last: Option<ConnectErrorView>) -> ConnectErrorView {
    match last {
        Some(error) => error,
        None => match kind {
            ConnectKind::Target => time_is_up(kind),
            ConnectKind::Upstream => ConnectErrorView {
                message: "upstream has no usable address"@,
                timed_out: false,
            },
        },
    }
}

/// Attempts as they are counted: more than fit in 32 bits count as many as fit.
pub open spec fn counted(attempts: nat) -> nat {
    if attempts > u32::MAX {
        u32::MAX as nat
    } else {
        attempts
    }
}

/// How many nanoseconds an attempt may take while others may follow it.
pub open spec fn share_of(
    kind: ConnectKind,
    timeout: u64,
    elapsed: u64,
    attempts_left: nat,
) -> Option<u64> {
    match kind {
        ConnectKind::Target => attempt_share(timeout, elapsed, counted(attempts_left)),
        ConnectKind::Upstream => if elapsed >= timeout {
            None
        } else {
            Some((timeout - elapsed) as u64)
        },
    }
}

/// The error of a round that ends early because its time is up: a target's last
/// error goes before that.
pub open spec fn ended_early(kind: ConnectKind, last: Option<ConnectErrorView>) -> ConnectErrorView {
    match kind {
        ConnectKind::Target => all_tried(kind, last),
        ConnectKind::Upstream => time_is_up(kind),
    }
}

/// The message on an address that took too long.
pub open spec fn late_address(address: SocketAddr) -> ConnectErrorView {
    ConnectErrorView {
        message: "connection setup for target address "@ + socket_chars(address) + " timed out"@,
        timed_out: true,
    }
}

fn connect_error(message: &str, timed_out: bool) -> (error: ConnectError)
    ensures
        error@ == (ConnectErrorView { message: message@, timed_out }),
{
    ConnectError { message: message.to_owned(), timed_out }
}

fn up(kind: ConnectKind) -> (answer: ConnectError)
    ensures
        answer@ == time_is_up(kind),
{
    match kind {
        ConnectKind::Target => connect_error("target connection timed out", true),
        ConnectKind::Upstream => connect_error("upstream connection timed out", true),
    }
}

/// The error where the names of a target took too long to resolve.
pub fn resolution_timed_out(kind: ConnectKind) -> (answer: ConnectError)
    ensures
        answer@ == late_names(kind),
{
    match kind {
        ConnectKind::Target => connect_error("target resolution timed out", true),
        ConnectKind::Upstream => connect_error("upstream connection timed out", true),
    }
}

impl ConnectRound {
    /// Begins a round that may take a number of nanoseconds in all.
    pub fn start(kind: ConnectKind, addresses: Vec<SocketAddr>, timeout: u64) -> (result: Result<
        Self,
        ConnectError,
    >)
        ensures
            match result {
                Ok(round) => addresses@.len() > 0 && round.kind == kind && round.addresses
                    == addresses && round.next == 0 && round.timeout == timeout && round.last is None,
                Err(error) => addresses@.len() == 0 && error@ == no_address(kind),
            },
    {
        if addresses.len() == 0 {
            return Err(
                match kind {
                    ConnectKind::Target => connect_error(
                        "target DNS result does not match the iWAN address family",
                        false,
                    ),
                    ConnectKind::Upstream => connect_error(
                        "upstream DNS result does not match the iWAN address family",
                        false,
                    ),
                },
            );
        }
        Ok(ConnectRound { kind, addresses, next: 0, timeout, last: None })
    }

    /// The next attempt, once some nanoseconds have passed, or the error that the
    /// round ends in.
    pub fn next_attempt(&mut self, elapsed: u64) -> (result: Result<ConnectAttempt, ConnectError>)
        requires
            old(self).next <= old(self).addresses@.len(),
        ensures
            final(self).kind == old(self).kind,
            final(self).addresses == old(self).addresses,
            final(self).timeout == old(self).timeout,
            final(self).next <= final(self).addresses@.len(),
            ({
                let left = (old(self).addresses@.len() - old(self).next) as nat;
                let share = share_of(old(self).kind, old(self).timeout, elapsed, left);
                match result {
                    Ok(attempt) => {
                        &&& left > 0
                        &&& attempt.address == old(self).addresses@[old(self).next as int]
                        &&& share == Some(attempt.share)
                        &&& 0 < attempt.share <= old(self).timeout - elapsed
                        &&& final(self).next == old(self).next + 1
                        &&& final(self).last == old(self).last
                    },
                    Err(error) => if left == 0 {
                        error@ == all_tried(old(self).kind, last_view(old(self).last))
                    } else {
                        share is None && error@ == ended_early(
                            old(self).kind,
                            last_view(old(self).last),
                        )
                    },
                }
            }),
    {
        if self.next >= self.addresses.len() {
            return Err(
                match self.last.take() {
                    Some(error) => error,
                    None => match self.kind {
                        ConnectKind::Target => up(ConnectKind::Target),
                        ConnectKind::Upstream => connect_error("upstream has no usable address", false),
                    },
                },
            );
        }
        if elapsed >= self.timeout {
            return Err(
                match self.kind {
                    ConnectKind::Target => match self.last.take() {
                        Some(error) => error,
                        None => up(ConnectKind::Target),
                    },
                    ConnectKind::Upstream => up(ConnectKind::Upstream),
                },
            );
        }
        let left: usize = self.addresses.len() - self.next;
        let share: u64 = match self.kind {
            ConnectKind::Target => share_among(self.timeout, elapsed, left),
            ConnectKind::Upstream => self.timeout - elapsed,
        };
        let address = self.addresses[self.next];
        self.next += 1;
        Ok(ConnectAttempt { address, share })
    }

    /// Takes in that the attempt to reach an address failed. Gives the error
    /// where the round is over with it.
    pub fn record(&mut self, address: SocketAddr, failure: AttemptFailure) -> (over: Option<
        ConnectError,
    >)
        ensures
            final(self).kind == old(self).kind,
            final(self).addresses == old(self).addresses,
            final(self).timeout == old(self).timeout,
            final(self).next == old(self).next,
            match failure {
                AttemptFailure::Failed(error) => over is None && last_view(final(self).last) == Some(
                    error@,
                ),
                AttemptFailure::TimedOut => match old(self).kind {
                    ConnectKind::Target => over is None && last_view(final(self).last) == Some(
                        late_address(address),
                    ),
                    ConnectKind::Upstream => (over matches Some(error) && error@ == time_is_up(
                        old(self).kind,
                    )) && final(self).last == old(self).last,
                },
            },
    {
        match failure {
            AttemptFailure::Failed(error) => {
                self.last = Some(error);
                None
            },
            AttemptFailure::TimedOut => match self.kind {
                ConnectKind::Target => {
                    let shown = socket_text(address);
                    let message = join3(
                        "connection setup for target address ",
                        &shown,
                        " timed out",
                    );
                    self.last = Some(ConnectError { message, timed_out: true });
                    None
                },
                ConnectKind::Upstream => Some(up(ConnectKind::Upstream)),
            },
        }
    }
}

/// A fair share of the time that is left, for one of a number of attempts.
fn share_among(timeout: u64, elapsed: u64, left: usize) -> (share: u64)
    requires
        left > 0,
        elapsed < timeout,
    ensures
        attempt_share(timeout, elapsed, counted(left as nat)) == Some(share),
        0 < share <= timeout - elapsed,
{
    let attempts: u32 = if left > u32::MAX as usize {
        u32::MAX
    } else {
        left as u32
    };
    match attempt_timeout(timeout, elapsed, attempts) {
        Some(share) => share,
        None => timeout - elapsed,
    }
}

/// The addresses of a target are tried one after the other, from the first; without
/// any there is nothing to try.
pub proof fn law_round_starts(
    kind: ConnectKind,
    addresses: Vec<SocketAddr>,
    timeout: u64,
    result: Result<ConnectRound, ConnectError>,
)
    requires
        call_ensures(ConnectRound::start, (kind, addresses, timeout), result),
    ensures
        result is Ok <==> addresses@.len() > 0,
        result matches Ok(round) ==> round.next == 0 && round.addresses@ == addresses@
            && round.timeout == timeout && round.kind == kind && round.last is None,
        result matches Err(error) ==> !error.timed_out,
{
}

/// An attempt goes to the next address while there is one and time is left, and
/// has no more than the time that is left. A target's addresses share it evenly,
/// but for a millisecond that each of them has; an upstream's next address has all
/// of it.
pub proof fn law_next_address(elapsed: u64, result: Result<ConnectAttempt, ConnectError>)
    ensures
        forall|round: &mut ConnectRound|
            (*round).next <= (*round).addresses@.len() && #[trigger] call_ensures(
                ConnectRound::next_attempt,
                (round, elapsed),
                result,
            ) ==> {
                let left = (*round).addresses@.len() - (*round).next;
                &&& result is Ok <==> left > 0 && elapsed < (*round).timeout
                &&& result matches Ok(attempt) ==> {
                    let time = (*round).timeout - elapsed;
                    &&& attempt.address == (*round).addresses@[(*round).next as int]
                    &&& (*final(round)).next == (*round).next + 1
                    &&& attempt.share <= time
                    &&& (*round).kind is Upstream ==> attempt.share == time
                    &&& (*round).kind is Target && left <= 0xffff_ffff ==> attempt.share == (
                    if time / left >= 1_000_000 {
                        time / left
                    } else if time >= 1_000_000 {
                        1_000_000
                    } else {
                        time
                    })
                }
                &&& (result is Err && left == 0 && (*round).last is Some) ==> result->Err_0@
                    == (*round).last->Some_0@
                &&& (*final(round)).addresses@ == (*round).addresses@
            },
{
}

/// A failed attempt is remembered, and the next address tried; an upstream that
/// keeps one waiting is given up.
pub proof fn law_failed_attempt(address: SocketAddr, failure: AttemptFailure, over: Option<ConnectError>)
    ensures
        forall|round: &mut ConnectRound| #[trigger]
            call_ensures(ConnectRound::record, (round, address, failure), over) ==> {
                &&& over is Some <==> failure is TimedOut && (*round).kind is Upstream
                &&& over matches Some(error) ==> error.timed_out
                &&& failure matches AttemptFailure::Failed(error) ==> (*final(round)).last is Some
                    && (*final(round)).last->Some_0@ == error@
                &&& failure is TimedOut && (*round).kind is Target ==> (*final(round)).last is Some
                    && (*final(round)).last->Some_0.timed_out
                &&& (*final(round)).next == (*round).next
            },
{
}

} // verus!
