//! The streaming client: its configuration, the handle that stops a running
//! session, and the decisions that a session takes from one event to the next.
//!
//! The session observes cancellation only between lines: a read that is
//! already waiting on the socket is not cut short by it.

use vstd::prelude::*;
use vstd::utf8::encode_utf8;
use crate::filter::{FilterSpec, FilterView, accepts, admits};
use crate::packet::{RbnPacket, PacketView, all_spots, parse_all, views_of};
use crate::text::copy_range;

verus! {

#[verifier::external_type_specification]
#[verifier::external_body]
#[verifier::reject_recursive_types(T)]
pub struct ExSender<T>(std::sync::mpsc::Sender<T>);

/// Relies on `std::sync::mpsc::Sender::send`: hands the value to the
/// receiving end, and fails where that end is gone.
#[verifier::external_body]
fn send_stop(tx: &std::sync::mpsc::Sender<bool>) -> (r: bool) {
    tx.send(true).is_ok()
}

/// The feed's address, used where no other is given.
pub open spec fn default_addr() -> Seq<char> {
    "telnet.reversebeacon.net:7000"@
}

/// A client of the feed: where to connect, the callsign to log in with, and
/// the stop channel of the session it started, if any.
pub struct RbnClient {
    bind_addr: String,
    callsign: String,
    chan_to_thread: Option<std::sync::mpsc::Sender<bool>>,
}

pub struct ClientView {
    pub bind_addr: Seq<char>,
    pub callsign: Seq<char>,
    pub started: bool,
}

impl View for RbnClient {
    type V = ClientView;

    closed spec fn view(&self) -> ClientView {
        ClientView {
            bind_addr: self.bind_addr@,
            callsign: self.callsign@,
            started: self.chan_to_thread is Some,
        }
    }
}

impl RbnClient {
    pub fn new(bind_addr: String, callsign: String) -> (r: Self)
        ensures
            r@.bind_addr == bind_addr@,
            r@.callsign == callsign@,
            !r@.started,
    {
        Self { bind_addr, callsign, chan_to_thread: None }
    }

    pub fn new_default_addr(callsign: String) -> (r: Self)
        ensures
            r@.bind_addr == default_addr(),
            r@.callsign == callsign@,
            !r@.started,
    {
        proof { reveal_strlit("telnet.reversebeacon.net:7000"); }
        RbnClient::new("telnet.reversebeacon.net:7000".to_string(), callsign)
    }

    pub fn bind_addr(&self) -> (r: &String)
        ensures
            r@ == self@.bind_addr,
    {
        &self.bind_addr
    }

    pub fn callsign(&self) -> (r: &String)
        ensures
            r@ == self@.callsign,
    {
        &self.callsign
    }

    /// Records the stop channel of a session that has just been started.
    pub fn attach(&mut self, tx: std::sync::mpsc::Sender<bool>)
        ensures
            final(self)@.bind_addr == old(self)@.bind_addr,
            final(self)@.callsign == old(self)@.callsign,
            final(self)@.started,
    {
        self.chan_to_thread = Some(tx);
    }

    /// Asks the running session to stop before it delivers or reads again.
    /// Without a running session (none started, or one that has ended) this
    /// does nothing.
    pub fn stop(&mut self) -> (r: Result<(), ()>)
        ensures
            final(self)@ == old(self)@,
            r is Ok,
    {
        match &self.chan_to_thread {
            Some(tx) => {
                let _ = send_stop(tx);
            },
            None => {},
        }
        Ok(())
    }
}


/// The number of bytes of the login banner that the server sends first.
pub const GREETING_LEN: usize = 24;

/// Where a session stands.
#[derive(Clone, Copy, Debug, PartialEq, Eq, Structural)]
pub enum Phase {
    Disconnected,
    Connecting,
    AwaitingLogin,
    Streaming,
    Stopped,
}

/// What ended a session other than a stop request.
#[derive(Clone, Copy, Debug, PartialEq, Eq, Structural)]
pub enum SessionError {
    /// The connection could not be made, or the login could not be sent.
    Connection,
    /// A read failed, or the server closed the stream.
    Read,
}

/// What the outside world reports to a session.
pub enum Event {
    /// The caller asks for the session to begin.
    Start,
    /// The connection is open.
    Connected,
    /// The connection could not be made.
    ConnectFailed,
    /// The login banner has been read.
    GreetingRead,
    /// The login line has been written.
    LoginSent,
    /// The login line could not be written.
    WriteFailed,
    /// Before the next read: whether a stop was requested.
    Ready { cancelled: bool },
    /// One line, up to and including its line feed, and whether a stop was
    /// requested while it was being read.
    LineRead { line: String, cancelled: bool },
    /// A read failed or met the end of the stream.
    ReadFailed,
}

/// What a session asks the outside world to do next.
pub enum Action {
    /// Open the connection.
    Connect,
    /// Read this many bytes of login banner.
    ReadGreeting(usize),
    /// Write these bytes: the callsign and a CRLF.
    SendLogin(Vec<u8>),
    /// Check for a stop request and report it with `Ready`.
    Poll,
    /// Read one line and report it with `LineRead`.
    ReadLine,
    /// Hand these spots to the consumer, in order, then `Poll`.
    Deliver(Vec<RbnPacket>),
    /// Release the connection: the session stopped on request.
    Close,
    /// Release the connection: the session failed.
    Fail(SessionError),
    /// Nothing to do: the event does not belong to this phase.
    Idle,
}

/// The spots of `v` that pass filter `f`, in order.
pub open spec fn kept(v: Seq<PacketView>, f: FilterView) -> Seq<PacketView>
    decreases v.len(),
{
    if v.len() == 0 {
        Seq::empty()
    } else if admits(v.last(), f) {
        kept(v.drop_last(), f).push(v.last())
    } else {
        kept(v.drop_last(), f)
    }
}

/// The spots that one line hands to the consumer under filter `f`.
pub open spec fn delivered(line: Seq<u8>, f: FilterView) -> Seq<PacketView> {
    kept(all_spots(line, 0), f)
}

/// One step of a session: from phase `ph`, with login `callsign` and filter
/// `f`, event `e` leads to phase `next` and action `a`.
pub open spec fn follows(
    ph: Phase,
    callsign: Seq<char>,
    f: FilterView,
    e: Event,
    next: Phase,
    a: Action,
) -> bool {
    match (ph, e) {
        (Phase::Disconnected, Event::Start) => next == Phase::Connecting && a is Connect,
        (Phase::Connecting, Event::Connected) => next == Phase::AwaitingLogin && a == Action::ReadGreeting(
            GREETING_LEN,
        ),
        (Phase::Connecting, Event::ConnectFailed) => next == Phase::Stopped && a == Action::Fail(
            SessionError::Connection,
        ),
        (Phase::AwaitingLogin, Event::GreetingRead) => next == Phase::AwaitingLogin && (a matches Action::SendLogin(v)
            && v@ == encode_utf8(callsign) + seq![13u8, 10u8]),
        (Phase::AwaitingLogin, Event::LoginSent) => next == Phase::Streaming && a is Poll,
        (Phase::AwaitingLogin, Event::WriteFailed) => next == Phase::Stopped && a == Action::Fail(
            SessionError::Connection,
        ),
        (Phase::AwaitingLogin, Event::ReadFailed) => next == Phase::Stopped && a == Action::Fail(
            SessionError::Read,
        ),
        (Phase::Streaming, Event::Ready { cancelled }) => if cancelled {
            next == Phase::Stopped && a is Close
        } else {
            next == Phase::Streaming && a is ReadLine
        },
        (Phase::Streaming, Event::LineRead { line, cancelled }) => if cancelled {
            next == Phase::Stopped && a is Close
        } else {
            next == Phase::Streaming && (a matches Action::Deliver(v) && views_of(v@) == delivered(
                encode_utf8(line@),
                f,
            ))
        },
        (Phase::Streaming, Event::ReadFailed) => next == Phase::Stopped && a == Action::Fail(
            SessionError::Read,
        ),
        _ => next == ph && a is Idle,
    }
}

/// A session of the feed: its phase, the callsign it logs in with, and the
/// filter its spots pass through.
pub struct Session {
    pub phase: Phase,
    pub callsign: String,
    pub filter: FilterSpec,
}

impl Session {
    pub fn new(callsign: String, filter: FilterSpec) -> (r: Self)
        ensures
            r.phase == Phase::Disconnected,
            r.callsign == callsign,
            r.filter == filter,
    {
        Session { phase: Phase::Disconnected, callsign, filter }
    }

    /// Takes one event, moves to the next phase and says what to do.
    pub fn step(&mut self, e: Event) -> (a: Action)
        ensures
            final(self).callsign == old(self).callsign,
            final(self).filter == old(self).filter,
            follows(old(self).phase, old(self).callsign@, old(self).filter@, e, final(self).phase, a),
    {
        let ghost e0 = e;
        match (self.phase, e) {
            (Phase::Disconnected, Event::Start) => {
                self.phase = Phase::Connecting;
                Action::Connect
            },
            (Phase::Connecting, Event::Connected) => {
                self.phase = Phase::AwaitingLogin;
                Action::ReadGreeting(GREETING_LEN)
            },
            (Phase::Connecting, Event::ConnectFailed) => {
                self.phase = Phase::Stopped;
                Action::Fail(SessionError::Connection)
            },
            (Phase::AwaitingLogin, Event::GreetingRead) => {
                let b = self.callsign.as_str().as_bytes();
                let mut v = copy_range(b, 0, b.len());
                v.push(13);
                v.push(10);
                assert(b@.subrange(0, b@.len() as int) =~= b@);
                assert(v@ =~= encode_utf8(self.callsign@) + seq![13u8, 10u8]);
                Action::SendLogin(v)
            },
            (Phase::AwaitingLogin, Event::LoginSent) => {
                self.phase = Phase::Streaming;
                Action::Poll
            },
            (Phase::AwaitingLogin, Event::WriteFailed) => {
                self.phase = Phase::Stopped;
                Action::Fail(SessionError::Connection)
            },
            (Phase::AwaitingLogin, Event::ReadFailed) => {
                self.phase = Phase::Stopped;
                Action::Fail(SessionError::Read)
            },
            (Phase::Streaming, Event::Ready { cancelled }) => {
                if cancelled {
                    self.phase = Phase::Stopped;
                    Action::Close
                } else {
                    Action::ReadLine
                }
            },
            (Phase::Streaming, Event::LineRead { line, cancelled: true }) => {
                self.phase = Phase::Stopped;
                Action::Close
            },
            (Phase::Streaming, Event::LineRead { line, cancelled: false }) => {
                let mut found = parse_all(line.as_str());
                let ghost orig = found@;
                let ghost all = views_of(orig);
                let n = found.len();
                let mut v: Vec<RbnPacket> = Vec::new();
                let mut i: usize = 0;
                while i < n
                    invariant
                        i <= n == orig.len(),
                        all == views_of(orig),
                        found@ == orig.subrange(i as int, n as int),
                        views_of(v@) == kept(all.subrange(0, i as int), self.filter@),
                    decreases n - i,
                {
                    let ghost pre = all.subrange(0, i + 1);
                    assert(pre.drop_last() =~= all.subrange(0, i as int));
                    assert(pre.last() == orig[i as int]@);
                    let p = found.remove(0);
                    assert(p == orig[i as int]);
                    assert(found@ =~= orig.subrange(i + 1, n as int));
                    if accepts(&p, &self.filter) {
                        let ghost before = views_of(v@);
                        v.push(p);
                        assert(views_of(v@) =~= before.push(orig[i as int]@));
                    }
                    i = i + 1;
                }
                assert(all.subrange(0, n as int) =~= all);
                Action::Deliver(v)
            },
            (Phase::Streaming, Event::ReadFailed) => {
                self.phase = Phase::Stopped;
                Action::Fail(SessionError::Read)
            },
            _ => Action::Idle,
        }
    }
}

/// A stop request seen in the streaming phase, before a read or after the
/// read that was in flight, ends the session without a delivery, and a
/// stopped session neither reads nor delivers again, whatever it is told.
pub proof fn lemma_cancel_is_final(
    callsign: Seq<char>,
    f: FilterView,
    e0: Event,
    e: Event,
    next: Phase,
    a: Action,
    next2: Phase,
    a2: Action,
)
    requires
        (e0 matches Event::Ready { cancelled } && cancelled) || (e0 matches Event::LineRead {
            cancelled,
            ..
        } && cancelled),
        follows(Phase::Streaming, callsign, f, e0, next, a),
        follows(next, callsign, f, e, next2, a2),
    ensures
        next == Phase::Stopped,
        a is Close,
        next2 == Phase::Stopped,
        a2 is Idle,
{
}

} // verus!
