//! Keeping a session with the feed alive: what to do about each thing that arrives, and how
//! long to wait before the next session.

use vstd::prelude::*;
use crate::message::{no_news, process_message, Notice};
use crate::number::to_numeral;
use crate::state::AppState;
use crate::text::{same_text, trim};

verus! {

/// The seconds without any data after which a connection counts as stale.
pub const SILENCE_TIMEOUT_SECS: u64 = 30;

/// The seconds that connecting may take.
pub const CONNECT_TIMEOUT_SECS: u64 = 15;

/// The longest wait between two sessions, in seconds.
pub const MAX_BACKOFF_SECS: u64 = 64;

/// A session that ends cleanly after more than this many seconds has done well.
pub const GOOD_SESSION_SECS: u64 = 30;

/// A session that fails within fewer seconds than this has failed fast.
pub const FAST_FAIL_SECS: u64 = 5;

/// The number of fast failures in a row from which on the wait is the longest.
pub const MAX_FAST_FAILS: u32 = 5;

/// Why a session failed.
#[derive(Debug)]
pub enum SessionError {
    Tls { reason: String },
    ConnectTimeout,
    Connect { reason: String },
    Handshake { reason: String },
    Stale,
    Read { reason: String },
}

/// What a session failed of.
pub enum ErrorView {
    Tls { reason: Seq<char> },
    ConnectTimeout,
    Connect { reason: Seq<char> },
    Handshake { reason: Seq<char> },
    Stale,
    Read { reason: Seq<char> },
}

impl View for SessionError {
    type V = ErrorView;

    open spec fn view(&self) -> ErrorView {
        match *self {
            SessionError::Tls { reason } => ErrorView::Tls { reason: reason@ },
            SessionError::ConnectTimeout => ErrorView::ConnectTimeout,
            SessionError::Connect { reason } => ErrorView::Connect { reason: reason@ },
            SessionError::Handshake { reason } => ErrorView::Handshake { reason: reason@ },
            SessionError::Stale => ErrorView::Stale,
            SessionError::Read { reason } => ErrorView::Read { reason: reason@ },
        }
    }
}

impl ErrorView {
    /// The error in words.
    pub open spec fn message(self) -> Seq<char> {
        match self {
            ErrorView::Tls { reason } => "TLS build error: "@ + reason,
            ErrorView::ConnectTimeout => "Connect timed out ("@ + crate::number::numeral(
                CONNECT_TIMEOUT_SECS as nat,
                10,
            ) + "s)"@,
            ErrorView::Connect { reason } => "WS connect error: "@ + reason,
            ErrorView::Handshake { reason } => "Handshake failed: "@ + reason,
            ErrorView::Stale => "No data for "@ + crate::number::numeral(
                SILENCE_TIMEOUT_SECS as nat,
                10,
            ) + "s \u{2014} stale connection"@,
            ErrorView::Read { reason } => "WS read error: "@ + reason,
        }
    }
}

/// The strings `a`, `b` and `c`, one after the other.
fn concat3(a: &str, b: &str, c: &str) -> (r: String)
    ensures
        r@ == a@ + b@ + c@,
{
    let mut r = a.to_owned();
    r.append(b);
    r.append(c);
    r
}

impl SessionError {
    /// The error in words.
    pub fn message(&self) -> (r: String)
        ensures
            r@ == self@.message(),
    {
        match self {
            SessionError::Tls { reason } => concat2("TLS build error: ", reason.as_str()),
            SessionError::ConnectTimeout => concat3(
                "Connect timed out (",
                to_numeral(CONNECT_TIMEOUT_SECS, 10).as_str(),
                "s)",
            ),
            SessionError::Connect { reason } => concat2("WS connect error: ", reason.as_str()),
            SessionError::Handshake { reason } => concat2("Handshake failed: ", reason.as_str()),
            SessionError::Stale => concat3(
                "No data for ",
                to_numeral(SILENCE_TIMEOUT_SECS, 10).as_str(),
                "s \u{2014} stale connection",
            ),
            SessionError::Read { reason } => concat2("WS read error: ", reason.as_str()),
        }
    }
}

/// The strings `a` and `b`, one after the other.
fn concat2(a: &str, b: &str) -> (r: String)
    ensures
        r@ == a@ + b@,
{
    let mut r = a.to_owned();
    r.append(b);
    r
}

/// What is sent to the server.
pub enum SentView {
    Text { text: Seq<char> },
    Pong { payload: Seq<u8> },
}

/// The kinds of what is sent.
#[derive(Clone, Copy, Debug, PartialEq, Eq, Structural)]
pub enum Sending {
    Handshake,
    Pong,
}

/// The text that opens a session.
pub fn handshake() -> (r: String)
    ensures
        r@ == "{}"@,
{
    "{}".to_owned()
}

/// What it means that something could not be sent: without its handshake a session fails,
/// and without a pong it goes on.
pub fn send_failure(what: Sending, reason: String) -> (r: Option<SessionError>)
    ensures
        match what {
            Sending::Handshake => r matches Some(e) && e@ == (ErrorView::Handshake {
                reason: reason@,
            }),
            Sending::Pong => r is None,
        },
{
    match what {
        Sending::Handshake => Some(SessionError::Handshake { reason }),
        Sending::Pong => None,
    }
}

/// What arrives on a connection, or fails to.
#[derive(Debug)]
pub enum Incoming {
    /// Nothing came for [`SILENCE_TIMEOUT_SECS`].
    Silence,
    /// The stream is at its end.
    Ended,
    /// Reading failed.
    Failed { reason: String },
    /// A text.
    Text { text: String },
    /// A ping, which asks for a pong with the same payload.
    Ping { payload: Vec<u8> },
    /// The server closes the connection.
    Closed,
    /// Anything else.
    Other,
}

/// What to do about it.
#[derive(Debug)]
pub enum Action {
    /// Take in a text.
    Process { text: String },
    /// Answer a ping.
    Pong { payload: Vec<u8> },
    /// Nothing.
    Ignore,
    /// End the session cleanly.
    Finish,
    /// End the session with an error.
    Fail { error: SessionError },
}

/// What to do, in terms of texts and errors.
pub enum ActionView {
    Process { text: Seq<char> },
    Pong { payload: Seq<u8> },
    Ignore,
    Finish,
    Fail { error: ErrorView },
}

impl View for Action {
    type V = ActionView;

    open spec fn view(&self) -> ActionView {
        match *self {
            Action::Process { text } => ActionView::Process { text: text@ },
            Action::Pong { payload } => ActionView::Pong { payload: payload@ },
            Action::Ignore => ActionView::Ignore,
            Action::Finish => ActionView::Finish,
            Action::Fail { error } => ActionView::Fail { error: error@ },
        }
    }
}

impl ActionView {
    /// Whether the session goes on.
    pub open spec fn goes_on(self) -> bool {
        !(self is Finish) && !(self is Fail)
    }
}

/// What to do about what arrives. A text counts without the whitespace around it; an empty
/// one and an empty object are keep-alives. A ping is answered with its own payload.
pub open spec fn action_for(incoming: Incoming) -> ActionView {
    match incoming {
        Incoming::Silence => ActionView::Fail { error: ErrorView::Stale },
        Incoming::Ended => ActionView::Finish,
        Incoming::Failed { reason } => ActionView::Fail {
            error: ErrorView::Read { reason: reason@ },
        },
        Incoming::Text { text } => {
            let t = crate::text::trimmed(text@);
            if t.len() > 0 && t != "{}"@ {
                ActionView::Process { text: t }
            } else {
                ActionView::Ignore
            }
        },
        Incoming::Ping { payload } => ActionView::Pong { payload: payload@ },
        Incoming::Closed => ActionView::Finish,
        Incoming::Other => ActionView::Ignore,
    }
}

/// Decides what to do about what arrives, and whether the connection is still up.
pub fn next_action(incoming: Incoming) -> (r: (Action, bool))
    ensures
        r.0@ == action_for(incoming),
        r.1 == action_for(incoming).goes_on(),
{
    match incoming {
        Incoming::Silence => (Action::Fail { error: SessionError::Stale }, false),
        Incoming::Ended => (Action::Finish, false),
        Incoming::Failed { reason } => (
            Action::Fail { error: SessionError::Read { reason } },
            false,
        ),
        Incoming::Text { text } => {
            let t = trim(text.as_str());
            if !t.as_str().is_empty() && !same_text(t.as_str(), "{}") {
                (Action::Process { text: t }, true)
            } else {
                (Action::Ignore, true)
            }
        },
        Incoming::Ping { payload } => (Action::Pong { payload }, true),
        Incoming::Closed => (Action::Finish, false),
        Incoming::Other => (Action::Ignore, true),
    }
}

/// The message in what arrives, if there is one: a text without the whitespace around it
/// that is neither empty nor an empty object.
pub open spec fn message_in(incoming: Incoming) -> Option<Seq<char>> {
    match incoming {
        Incoming::Text { text } => {
            let t = crate::text::trimmed(text@);
            if t.len() > 0 && t != "{}"@ {
                Some(t)
            } else {
                None
            }
        },
        _ => None,
    }
}

/// Whether what arrives ends the session.
pub open spec fn ends_session(incoming: Incoming) -> bool {
    incoming is Silence || incoming is Ended || incoming is Failed || incoming is Closed
}

/// What there is to do to the state about what arrives, and what there is to tell.
pub open spec fn incoming_step(st: crate::state::StateView, incoming: Incoming) -> (
    crate::state::StateView,
    Seq<crate::message::NoticeView>,
) {
    match action_for(incoming) {
        ActionView::Process { text } => crate::message::message_step(st, text),
        _ => (st, Seq::empty()),
    }
}

/// Takes in what arrives: decides what to do about it, whether the connection is still up,
/// and, if it is a message, what there is to tell.
pub fn take_in(incoming: Incoming, state: &mut AppState) -> (r: (Action, bool, Vec<Notice>))
    ensures
        r.0@ == action_for(incoming),
        r.1 == action_for(incoming).goes_on(),
        final(state)@ == incoming_step(old(state)@, incoming).0,
        crate::message::notice_views(r.2@) == incoming_step(old(state)@, incoming).1,
        old(state)@.valid() ==> final(state)@.valid(),
        old(state)@.valid() ==> crate::message::reports_finite(
            crate::message::notice_views(r.2@),
        ),
{
    let (action, up) = next_action(incoming);
    let told = match &action {
        Action::Process { text } => process_message(text.as_str(), state),
        _ => no_news(),
    };
    (action, up, told)
}

/// Whether one of `events` ends the session.
pub open spec fn ended(events: Seq<Incoming>) -> bool {
    exists|i: int| 0 <= i < events.len() && ends_session(#[trigger] events[i])
}

/// What a session does in which `events` arrive one after the other: the state after it,
/// and what there is to tell. Each event is dealt with as it comes, until the session goes
/// on no longer.
pub open spec fn session_run(st: crate::state::StateView, events: Seq<Incoming>) -> (
    crate::state::StateView,
    Seq<crate::message::NoticeView>,
)
    decreases events.len(),
{
    if events.len() == 0 {
        (st, Seq::empty())
    } else {
        let earlier = events.drop_last();
        let (before, told) = session_run(st, earlier);
        if forall|i: int|
            0 <= i < earlier.len() ==> action_for(#[trigger] earlier[i]).goes_on() {
            let (after, news) = incoming_step(before, events.last());
            (after, told + news)
        } else {
            (before, told)
        }
    }
}

/// What `texts` do, taken in as messages one after the other.
pub open spec fn messages_run(st: crate::state::StateView, texts: Seq<Seq<char>>) -> (
    crate::state::StateView,
    Seq<crate::message::NoticeView>,
)
    decreases texts.len(),
{
    if texts.len() == 0 {
        (st, Seq::empty())
    } else {
        let (before, told) = messages_run(st, texts.drop_last());
        let (after, news) = crate::message::message_step(before, texts.last());
        (after, told + news)
    }
}

/// How many of `events` arrive before the session ends.
pub open spec fn live_len(events: Seq<Incoming>) -> nat
    decreases events.len(),
{
    if events.len() == 0 {
        0
    } else if ended(events.drop_last()) || ends_session(events.last()) {
        live_len(events.drop_last())
    } else {
        events.len()
    }
}

/// The messages that a session hands on, in the order of their arrival: those in front of
/// the first event that ends the session.
pub open spec fn messages_of(events: Seq<Incoming>) -> Seq<Seq<char>> {
    events.take(live_len(events) as int).filter_map(|e: Incoming| message_in(e))
}

/// A session's life ends right in front of the first event that ends it, if there is one.
pub proof fn lemma_live_len(events: Seq<Incoming>)
    ensures
        live_len(events) <= events.len(),
        forall|i: int| 0 <= i < live_len(events) ==> !ends_session(#[trigger] events[i]),
        live_len(events) < events.len() ==> ends_session(events[live_len(events) as int]),
    decreases events.len(),
{
    if events.len() > 0 {
        let earlier = events.drop_last();
        lemma_live_len(earlier);
        assert forall|i: int| 0 <= i < earlier.len() implies #[trigger] earlier[i]
            == events[i] by {}
        let n = live_len(earlier);
        if ended(earlier) {
            assert(n < earlier.len());
            assert(earlier[n as int] == events[n as int]);
        } else if n < earlier.len() {
            assert(ends_session(earlier[n as int]));
        }
        assert forall|i: int| 0 <= i < live_len(events) implies !ends_session(
            #[trigger] events[i],
        ) by {
            if i < earlier.len() {
                assert(earlier[i] == events[i]);
            }
        }
    }
}

/// What a session does to the state is what its messages do, each taken in once, in the
/// order of arrival, up to the first event that ends the session, and nothing else does
/// anything to it, however the session ends.
pub proof fn lemma_session_takes_in_messages(
    st: crate::state::StateView,
    events: Seq<Incoming>,
)
    ensures
        session_run(st, events) == messages_run(st, messages_of(events)),
    decreases events.len(),
{
    if events.len() == 0 {
        assert(messages_of(events) =~= Seq::empty());
    } else {
        let earlier = events.drop_last();
        let e = events.last();
        lemma_session_takes_in_messages(st, earlier);
        lemma_live_len(earlier);
        let n = live_len(earlier);
        let (before, told) = session_run(st, earlier);
        assert(events.take(n as int) =~= earlier.take(n as int));
        if ended(earlier) {
            let i = choose|i: int| 0 <= i < earlier.len() && ends_session(#[trigger] earlier[i]);
            assert(!action_for(earlier[i]).goes_on());
            assert(messages_of(events) == messages_of(earlier));
        } else {
            assert forall|i: int| 0 <= i < earlier.len() implies action_for(
                #[trigger] earlier[i],
            ).goes_on() by {
                assert(!ends_session(earlier[i]));
            }
            if n < earlier.len() {
                assert(ends_session(earlier[n as int]));
            }
            assert(earlier.take(n as int) =~= earlier);
            assert(told + Seq::<crate::message::NoticeView>::empty() =~= told);
            if ends_session(e) {
                assert(messages_of(events) == messages_of(earlier));
            } else {
                assert(events.take(events.len() as int) =~= events);
                let texts = messages_of(earlier);
                match message_in(e) {
                    Some(t) => {
                        assert(messages_of(events) =~= texts.push(t));
                        assert(texts.push(t).drop_last() =~= texts);
                    },
                    None => {
                        assert(messages_of(events) =~= texts);
                    },
                }
            }
        }
    }
}

/// Nothing that arrives behind the end of a session does anything.
pub proof fn lemma_nothing_after_the_end(
    st: crate::state::StateView,
    events: Seq<Incoming>,
    later: Seq<Incoming>,
)
    requires
        ended(events),
    ensures
        session_run(st, events + later) == session_run(st, events),
    decreases later.len(),
{
    if later.len() == 0 {
        assert(events + later =~= events);
    } else {
        let all = events + later;
        lemma_nothing_after_the_end(st, events, later.drop_last());
        assert(all.drop_last() =~= events + later.drop_last());
        let i = choose|i: int| 0 <= i < events.len() && ends_session(#[trigger] events[i]);
        assert(all.drop_last()[i] == events[i]);
        assert(!action_for(all.drop_last()[i]).goes_on());
    }
}

/// What is sent on account of an action.
pub open spec fn sent_for(action: ActionView) -> Option<SentView> {
    match action {
        ActionView::Pong { payload } => Some(SentView::Pong { payload }),
        _ => None,
    }
}

/// What a session sends in which `events` arrive one after the other: the handshake before
/// any of them, then what each asks for as it comes, until the session goes on no longer.
pub open spec fn session_sends(events: Seq<Incoming>) -> Seq<SentView>
    decreases events.len(),
{
    if events.len() == 0 {
        seq![SentView::Text { text: "{}"@ }]
    } else {
        let earlier = events.drop_last();
        let before = session_sends(earlier);
        if forall|i: int|
            0 <= i < earlier.len() ==> action_for(#[trigger] earlier[i]).goes_on() {
            match sent_for(action_for(events.last())) {
                Some(sent) => before.push(sent),
                None => before,
            }
        } else {
            before
        }
    }
}

/// The payload of a ping.
pub open spec fn ping_in(incoming: Incoming) -> Option<Seq<u8>> {
    match incoming {
        Incoming::Ping { payload } => Some(payload@),
        _ => None,
    }
}

/// The payloads of the pings in front of the first event that ends a session, in the order
/// of their arrival.
pub open spec fn pings_of(events: Seq<Incoming>) -> Seq<Seq<u8>> {
    events.take(live_len(events) as int).filter_map(|e: Incoming| ping_in(e))
}

/// A session sends its handshake first, then one pong for each ping, in the order of
/// arrival and with the ping's payload unchanged, and nothing else.
pub proof fn lemma_session_answers_pings(events: Seq<Incoming>)
    ensures
        session_sends(events) == seq![SentView::Text { text: "{}"@ }] + pings_of(
            events,
        ).map_values(|p: Seq<u8>| SentView::Pong { payload: p }),
    decreases events.len(),
{
    let first = seq![SentView::Text { text: "{}"@ }];
    let pong = |p: Seq<u8>| SentView::Pong { payload: p };
    if events.len() == 0 {
        assert(pings_of(events) =~= Seq::empty());
        assert(first + Seq::<Seq<u8>>::empty().map_values(pong) =~= first);
    } else {
        let earlier = events.drop_last();
        let e = events.last();
        lemma_session_answers_pings(earlier);
        lemma_live_len(earlier);
        let n = live_len(earlier);
        assert(events.take(n as int) =~= earlier.take(n as int));
        if ended(earlier) {
            let i = choose|i: int| 0 <= i < earlier.len() && ends_session(#[trigger] earlier[i]);
            assert(!action_for(earlier[i]).goes_on());
        } else {
            assert forall|i: int| 0 <= i < earlier.len() implies action_for(
                #[trigger] earlier[i],
            ).goes_on() by {
                assert(!ends_session(earlier[i]));
            }
            if n < earlier.len() {
                assert(ends_session(earlier[n as int]));
            }
            assert(earlier.take(n as int) =~= earlier);
            if !ends_session(e) {
                assert(events.take(events.len() as int) =~= events);
                let pings = pings_of(earlier);
                match ping_in(e) {
                    Some(p) => {
                        assert(pings_of(events) =~= pings.push(p));
                        assert(pings.push(p).map_values(pong) =~= pings.map_values(pong).push(
                            pong(p),
                        ));
                        assert(session_sends(events) =~= first + pings.push(p).map_values(pong));
                    },
                    None => {
                        assert(pings_of(events) =~= pings);
                    },
                }
            }
        }
    }
}

/// How a session ended: cleanly or not, and after how many seconds.
#[derive(Clone, Copy, Debug, PartialEq, Eq, Structural)]
pub struct SessionEnd {
    pub clean: bool,
    pub lived: u64,
}

impl SessionEnd {
    /// Whether the waiting starts over after this session.
    pub open spec fn starts_over(self) -> bool {
        if self.clean {
            self.lived > GOOD_SESSION_SECS
        } else {
            self.lived >= FAST_FAIL_SECS
        }
    }

    /// Whether the session failed fast.
    pub open spec fn failed_fast(self) -> bool {
        !self.clean && self.lived < FAST_FAIL_SECS
    }
}

/// How long to wait before the next session, and how many sessions failed fast in a row.
#[derive(Debug)]
pub struct Backoff {
    delay: u64,
    fast_fails: u32,
}

/// What is remembered between sessions.
pub struct BackoffView {
    pub delay: nat,
    pub fast_fails: nat,
}

impl View for Backoff {
    type V = BackoffView;

    closed spec fn view(&self) -> BackoffView {
        BackoffView { delay: self.delay as nat, fast_fails: self.fast_fails as nat }
    }
}

impl BackoffView {
    /// What is remembered before the first session.
    pub open spec fn initial() -> BackoffView {
        BackoffView { delay: 1, fast_fails: 0 }
    }

    /// What a session's end makes of it: a fresh start, one more fast failure, or nothing.
    /// The count of fast failures starts again from 0 behind the largest `u32`.
    pub open spec fn after(self, end: SessionEnd) -> BackoffView {
        if end.starts_over() {
            BackoffView::initial()
        } else if end.failed_fast() {
            let fast_fails = if self.fast_fails == u32::MAX {
                0
            } else {
                self.fast_fails + 1
            };
            BackoffView {
                delay: if fast_fails >= MAX_FAST_FAILS {
                    MAX_BACKOFF_SECS as nat
                } else {
                    self.delay
                },
                fast_fails,
            }
        } else {
            self
        }
    }

    /// What is remembered once the wait is over: twice the wait, up to the longest.
    pub open spec fn doubled(self) -> BackoffView {
        BackoffView {
            delay: if 2 * self.delay <= MAX_BACKOFF_SECS {
                2 * self.delay
            } else {
                MAX_BACKOFF_SECS as nat
            },
            ..self
        }
    }
}

impl Backoff {
    #[verifier::type_invariant]
    spec fn well_formed(self) -> bool {
        1 <= self.delay <= MAX_BACKOFF_SECS
    }

    /// What is remembered before the first session.
    pub fn new() -> (r: Backoff)
        ensures
            r@ == BackoffView::initial(),
    {
        Backoff { delay: 1, fast_fails: 0 }
    }

    /// Takes in how a session ended, and says how many seconds to wait before the next.
    pub fn reconnect(&mut self, end: SessionEnd) -> (wait: u64)
        ensures
            wait == old(self)@.after(end).delay,
            final(self)@ == old(self)@.after(end).doubled(),
            1 <= wait <= MAX_BACKOFF_SECS,
    {
        proof {
            use_type_invariant(&*self);
        }
        if end.clean {
            if end.lived > GOOD_SESSION_SECS {
                self.delay = 1;
                self.fast_fails = 0;
            }
        } else if end.lived < FAST_FAIL_SECS {
            self.fast_fails = self.fast_fails.wrapping_add(1);
            if self.fast_fails >= MAX_FAST_FAILS {
                self.delay = MAX_BACKOFF_SECS;
            }
        } else {
            self.fast_fails = 0;
            self.delay = 1;
        }
        let wait: u64 = self.delay;
        let twice: u64 = wait * 2;
        self.delay = if twice <= MAX_BACKOFF_SECS {
            twice
        } else {
            MAX_BACKOFF_SECS
        };
        wait
    }
}

/// What is remembered after the first `k` of some sessions, their waits included.
pub open spec fn after_sessions(b: BackoffView, ends: Seq<SessionEnd>, k: nat) -> BackoffView
    decreases k,
{
    if k == 0 {
        b
    } else {
        after_sessions(b, ends, (k - 1) as nat).after(ends[k - 1]).doubled()
    }
}

/// The wait after session number `k` of some sessions, counted from 0.
pub open spec fn wait_after(b: BackoffView, ends: Seq<SessionEnd>, k: int) -> nat {
    after_sessions(b, ends, k as nat).after(ends[k]).delay
}

/// However sessions end, a wait is at least one second and at most the longest.
pub proof fn lemma_wait_in_bounds(b: BackoffView, ends: Seq<SessionEnd>, k: int)
    requires
        1 <= b.delay <= MAX_BACKOFF_SECS,
        0 <= k < ends.len(),
    ensures
        1 <= wait_after(b, ends, k) <= MAX_BACKOFF_SECS,
{
    lemma_delay_in_bounds(b, ends, k as nat);
}

proof fn lemma_delay_in_bounds(b: BackoffView, ends: Seq<SessionEnd>, k: nat)
    requires
        1 <= b.delay <= MAX_BACKOFF_SECS,
    ensures
        1 <= after_sessions(b, ends, k).delay <= MAX_BACKOFF_SECS,
    decreases k,
{
    if k > 0 {
        lemma_delay_in_bounds(b, ends, (k - 1) as nat);
    }
}

/// After a session that did well, or failed late, the wait is one second, whatever went
/// before.
pub proof fn lemma_good_session_starts_over(b: BackoffView, ends: Seq<SessionEnd>, k: int)
    requires
        0 <= k < ends.len(),
        ends[k].starts_over(),
    ensures
        wait_after(b, ends, k) == 1,
{
}

/// From the fast failure on that is number [`MAX_FAST_FAILS`] of a run of them, the wait is
/// the longest, as long as their count fits its type.
pub proof fn lemma_fast_failures_wait_longest(b: BackoffView, ends: Seq<SessionEnd>, k: int)
    requires
        0 <= k < ends.len(),
        b.fast_fails + k < u32::MAX,
        k + 1 >= MAX_FAST_FAILS,
        forall|i: int| 0 <= i <= k ==> (#[trigger] ends[i]).failed_fast(),
    ensures
        wait_after(b, ends, k) == MAX_BACKOFF_SECS,
{
    lemma_fast_failures_count(b, ends, k as nat);
    assert(ends[k].failed_fast());
}

proof fn lemma_fast_failures_count(b: BackoffView, ends: Seq<SessionEnd>, k: nat)
    requires
        k <= ends.len(),
        b.fast_fails + k <= u32::MAX,
        forall|i: int| 0 <= i < k ==> (#[trigger] ends[i]).failed_fast(),
    ensures
        after_sessions(b, ends, k).fast_fails == b.fast_fails + k,
    decreases k,
{
    if k > 0 {
        lemma_fast_failures_count(b, ends, (k - 1) as nat);
        assert(ends[k - 1].failed_fast());
    }
}

/// As long as no session starts the waiting over, and fewer than [`MAX_FAST_FAILS`] have
/// failed fast, the waits double, from one second up to the longest.
pub proof fn lemma_waits_double(ends: Seq<SessionEnd>, k: int)
    requires
        0 <= k < ends.len(),
        forall|i: int| 0 <= i <= k ==> !(#[trigger] ends[i]).starts_over(),
        forall|i: nat|
            i <= k + 1 ==> (#[trigger] after_sessions(BackoffView::initial(), ends, i)).fast_fails
                < MAX_FAST_FAILS,
    ensures
        wait_after(BackoffView::initial(), ends, k) == capped_power(k as nat),
{
    let b = BackoffView::initial();
    lemma_delay_doubles(ends, k as nat);
    assert(!ends[k].starts_over());
    assert(after_sessions(b, ends, (k + 1) as nat).fast_fails < MAX_FAST_FAILS);
}

/// Two to the power of `k`, or the longest wait if that is less.
pub open spec fn capped_power(k: nat) -> nat {
    let p = vstd::arithmetic::power2::pow2(k);
    if p < MAX_BACKOFF_SECS {
        p
    } else {
        MAX_BACKOFF_SECS as nat
    }
}

proof fn lemma_delay_doubles(ends: Seq<SessionEnd>, k: nat)
    requires
        k <= ends.len(),
        forall|i: int| 0 <= i < k ==> !(#[trigger] ends[i]).starts_over(),
        forall|i: nat|
            i <= k ==> (#[trigger] after_sessions(BackoffView::initial(), ends, i)).fast_fails
                < MAX_FAST_FAILS,
    ensures
        after_sessions(BackoffView::initial(), ends, k).delay == capped_power(k),
    decreases k,
{
    if k == 0 {
        vstd::arithmetic::power2::lemma2_to64();
    } else {
        let b = BackoffView::initial();
        lemma_delay_doubles(ends, (k - 1) as nat);
        assert(!ends[k - 1].starts_over());
        assert(after_sessions(b, ends, k).fast_fails < MAX_FAST_FAILS);
        vstd::arithmetic::power2::lemma_pow2_unfold(k);
    }
}

/// Between two sessions of which the later does not start the waiting over, the wait never
/// shrinks: it doubles up to the longest, or is the longest.
pub proof fn lemma_wait_grows(b: BackoffView, first: SessionEnd, second: SessionEnd)
    requires
        1 <= b.delay <= MAX_BACKOFF_SECS,
        !second.starts_over(),
    ensures
        ({
            let wait = b.after(first).delay;
            let next = b.after(first).doubled().after(second).delay;
            next == MAX_BACKOFF_SECS || next == 2 * wait
        }),
{
}

/// A text from the feed is handed on without the whitespace around it, unless nothing or an
/// empty object is left.
pub proof fn lemma_action_on_text(
    incoming: Incoming,
    p: Seq<char>,
    t: Seq<char>,
    q: Seq<char>,
)
    requires
        incoming matches Incoming::Text { text } && text@ == p + t + q,
        forall|i: int| 0 <= i < p.len() ==> crate::text::is_space(#[trigger] p[i]),
        forall|i: int| 0 <= i < q.len() ==> crate::text::is_space(#[trigger] q[i]),
        t.len() > 0 ==> !crate::text::is_space(t[0]) && !crate::text::is_space(t.last()),
    ensures
        action_for(incoming) == (if t.len() == 0 || t == "{}"@ {
            ActionView::Ignore
        } else {
            ActionView::Process { text: t }
        }),
{
    crate::text::lemma_trims_padding(p, t, q);
}

/// Silence and failed reads fail a session, each with its own error. The end of the stream
/// and a closing server finish it. A ping is answered with what it carries, and anything else
/// but a text is ignored.
pub proof fn lemma_action_on_the_rest(incoming: Incoming)
    ensures
        incoming is Silence ==> action_for(incoming) == (ActionView::Fail {
            error: ErrorView::Stale,
        }),
        incoming matches Incoming::Failed { reason } ==> action_for(incoming) == (
        ActionView::Fail { error: ErrorView::Read { reason: reason@ } }),
        incoming is Ended || incoming is Closed ==> action_for(incoming) is Finish,
        incoming matches Incoming::Ping { payload } ==> action_for(incoming) == (
        ActionView::Pong { payload: payload@ }),
        incoming is Other ==> action_for(incoming) is Ignore,
        action_for(incoming).goes_on() <==> incoming is Text || incoming is Ping || incoming
            is Other,
{
}

/// What is handed on does what a message does, and nothing else does anything to the state or
/// is told.
pub proof fn lemma_only_messages_act(st: crate::state::StateView, incoming: Incoming)
    ensures
        match action_for(incoming) {
            ActionView::Process { text } => incoming_step(st, incoming)
                == crate::message::message_step(st, text),
            _ => incoming_step(st, incoming).0 == st && incoming_step(st, incoming).1.len() == 0,
        },
{
}

/// An action says what is in its fields.
pub proof fn lemma_action_says(action: Action)
    ensures
        action matches Action::Process { text } ==> action@ == (ActionView::Process {
            text: text@,
        }),
        action matches Action::Pong { payload } ==> action@ == (ActionView::Pong {
            payload: payload@,
        }),
        action is Ignore <==> action@ is Ignore,
        action is Finish <==> action@ is Finish,
        action matches Action::Fail { error } ==> action@ == (ActionView::Fail { error: error@ }),
{
}

/// An error says what is in its fields.
pub proof fn lemma_error_says(error: SessionError)
    ensures
        error matches SessionError::Tls { reason } ==> error@ == (ErrorView::Tls {
            reason: reason@,
        }),
        error is ConnectTimeout <==> error@ is ConnectTimeout,
        error matches SessionError::Connect { reason } ==> error@ == (ErrorView::Connect {
            reason: reason@,
        }),
        error matches SessionError::Handshake { reason } ==> error@ == (ErrorView::Handshake {
            reason: reason@,
        }),
        error is Stale <==> error@ is Stale,
        error matches SessionError::Read { reason } ==> error@ == (ErrorView::Read {
            reason: reason@,
        }),
{
}

/// The words of an error start with what failed, and end with the whole reason.
pub proof fn lemma_error_words(reason: Seq<char>)
    ensures
        (ErrorView::Tls { reason }).message() == "TLS build error: "@ + reason,
        (ErrorView::Connect { reason }).message() == "WS connect error: "@ + reason,
        (ErrorView::Handshake { reason }).message() == "Handshake failed: "@ + reason,
        (ErrorView::Read { reason }).message() == "WS read error: "@ + reason,
        ErrorView::ConnectTimeout.message() == "Connect timed out (15s)"@,
        ErrorView::Stale.message() == "No data for 30s \u{2014} stale connection"@,
{
    reveal_with_fuel(crate::number::numeral, 3);
    reveal_strlit("Connect timed out (");
    reveal_strlit("s)");
    reveal_strlit("Connect timed out (15s)");
    reveal_strlit("No data for ");
    reveal_strlit("s \u{2014} stale connection");
    reveal_strlit("No data for 30s \u{2014} stale connection");
    assert(crate::number::numeral(15, 10) =~= seq!['1', '5']);
    assert(crate::number::numeral(30, 10) =~= seq!['3', '0']);
    assert(ErrorView::ConnectTimeout.message() =~= "Connect timed out (15s)"@);
    assert(ErrorView::Stale.message() =~= "No data for 30s \u{2014} stale connection"@);
}

/// A session that failed after five seconds or more, and one that ended cleanly after more
/// than thirty, start the waiting over: the wait is one second, however long the one before
/// was, and no fast failure counts any more. The wait after the next session that does not
/// start it over is two seconds.
pub proof fn lemma_waiting_starts_over(b: BackoffView, ends: Seq<SessionEnd>, k: int)
    requires
        0 <= k < ends.len(),
        ends[k].clean ==> ends[k].lived > 30,
        !ends[k].clean ==> ends[k].lived >= 5,
    ensures
        wait_after(b, ends, k) == 1,
        after_sessions(b, ends, (k + 1) as nat).fast_fails == 0,
        after_sessions(b, ends, (k + 1) as nat).delay == 2,
{
}

/// However many sessions fail after five seconds or more in a row, the wait after each is one
/// second.
pub proof fn lemma_late_failures_wait_shortest(b: BackoffView, ends: Seq<SessionEnd>)
    requires
        forall|i: int|
            0 <= i < ends.len() ==> !(#[trigger] ends[i]).clean && ends[i].lived >= 5,
    ensures
        forall|k: int| 0 <= k < ends.len() ==> #[trigger] wait_after(b, ends, k) == 1,
{
    assert forall|k: int| 0 <= k < ends.len() implies #[trigger] wait_after(b, ends, k) == 1 by {
        assert(!ends[k].clean && ends[k].lived >= 5);
    }
}

/// A session that ended cleanly within thirty seconds changes nothing: the wait is the one
/// that was next.
pub proof fn lemma_short_session_goes_on(b: BackoffView, end: SessionEnd)
    requires
        end.clean,
        end.lived <= 30,
    ensures
        b.after(end) == b,
{
}

/// A session that failed within five seconds counts as one more fast failure. From the fifth
/// in a row on the wait is 64 seconds, and before that it is the one that was next. Behind the
/// largest count the counting starts again from 0.
pub proof fn lemma_fast_failure_counts(b: BackoffView, end: SessionEnd)
    requires
        !end.clean,
        end.lived < 5,
        b.fast_fails <= u32::MAX,
    ensures
        b.fast_fails < u32::MAX ==> b.after(end).fast_fails == b.fast_fails + 1,
        4 <= b.fast_fails < u32::MAX ==> b.after(end).delay == 64,
        b.fast_fails < 4 ==> b.after(end).delay == b.delay,
        b.fast_fails == u32::MAX ==> b.after(end) == (BackoffView { fast_fails: 0, ..b }),
{
}

/// The wait that is next is twice the last one, and 64 seconds at most, and waiting changes
/// nothing else. The first wait is one second.
pub proof fn lemma_next_wait(b: BackoffView)
    ensures
        b.doubled().fast_fails == b.fast_fails,
        b.delay <= 32 ==> b.doubled().delay == b.delay + b.delay,
        b.delay > 32 ==> b.doubled().delay == 64,
        BackoffView::initial().delay == 1,
        BackoffView::initial().fast_fails == 0,
{
}

/// Reconnecting waits one second after a session that failed after five seconds or more, or
/// that ended cleanly after more than thirty, and then two seconds unless that changes.
pub proof fn lemma_reconnect_starts_over(end: SessionEnd, wait: u64)
    requires
        end.clean ==> end.lived > 30,
        !end.clean ==> end.lived >= 5,
    ensures
        forall|b: &mut Backoff| #[trigger]
            call_ensures(Backoff::reconnect, (b, end), wait) ==> wait == 1 && final(b)@
                == (BackoffView { delay: 2, fast_fails: 0 }),
{
}

/// Reconnecting after any other session waits as long as was next, or 64 seconds from the
/// fifth fast failure on, and the wait after that is twice as long, up to 64 seconds.
pub proof fn lemma_reconnect_waits_longer(end: SessionEnd, wait: u64)
    requires
        end.clean ==> end.lived <= 30,
        !end.clean ==> end.lived < 5,
    ensures
        forall|b: &mut Backoff| #[trigger]
            call_ensures(Backoff::reconnect, (b, end), wait) && b@.fast_fails < u32::MAX ==> {
                &&& final(b)@.fast_fails == b@.fast_fails + if end.clean {
                    0int
                } else {
                    1
                }
                &&& wait == (if !end.clean && b@.fast_fails >= 4 {
                    64
                } else {
                    b@.delay as int
                })
                &&& final(b)@.delay == (if wait <= 32 {
                    2 * wait
                } else {
                    64
                })
            },
{
}

/// The first wait is one second, and no fast failure counts yet.
pub proof fn lemma_new_backoff(b: Backoff)
    requires
        call_ensures(Backoff::new, (), b),
    ensures
        b@.delay == 1,
        b@.fast_fails == 0,
{
}

/// A ping is answered with the bytes that it carries, and leaves the connection up, nothing to
/// tell and the state as it is.
pub proof fn lemma_ping_taken_in(payload: Vec<u8>, r: (Action, bool, Vec<Notice>))
    ensures
        forall|state: &mut AppState| #[trigger]
            call_ensures(take_in, (Incoming::Ping { payload }, state), r) ==> {
                &&& r.0 matches Action::Pong { payload: sent } && sent@ == payload@
                &&& r.1
                &&& r.2.len() == 0
                &&& final(state)@ == state@
            },
{
    assert(crate::message::notice_views(r.2@).len() == r.2.len());
}

/// A text is taken in exactly as the message is that is left when the whitespace around it is
/// trimmed off, unless that is nothing or an empty object, which does nothing.
pub proof fn lemma_text_taken_in(
    text: String,
    r: (Action, bool, Vec<Notice>),
    p: Seq<char>,
    t: Seq<char>,
    q: Seq<char>,
)
    requires
        text@ == p + t + q,
        forall|i: int| 0 <= i < p.len() ==> crate::text::is_space(#[trigger] p[i]),
        forall|i: int| 0 <= i < q.len() ==> crate::text::is_space(#[trigger] q[i]),
        t.len() > 0 ==> !crate::text::is_space(t[0]) && !crate::text::is_space(t.last()),
    ensures
        forall|state: &mut AppState| #[trigger]
            call_ensures(take_in, (Incoming::Text { text }, state), r) ==> {
                &&& r.1
                &&& if t.len() == 0 || t == "{}"@ {
                    r.0 is Ignore && r.2.len() == 0 && final(state)@ == state@
                } else {
                    &&& r.0 matches Action::Process { text: s } && s@ == t
                    &&& final(state)@ == crate::message::message_step(state@, t).0
                    &&& crate::message::notice_views(r.2@) == crate::message::message_step(
                        state@,
                        t,
                    ).1
                }
            },
{
    lemma_action_on_text(Incoming::Text { text }, p, t, q);
    assert(crate::message::notice_views(r.2@).len() == r.2.len());
}

/// What ends a session is told apart: silence and failed reads are errors, the end of the
/// stream and a closing server are not. None of it touches the state.
pub proof fn lemma_end_taken_in(incoming: Incoming, r: (Action, bool, Vec<Notice>))
    requires
        incoming is Silence || incoming is Failed || incoming is Ended || incoming is Closed,
    ensures
        forall|state: &mut AppState| #[trigger]
            call_ensures(take_in, (incoming, state), r) ==> {
                &&& !r.1
                &&& r.2.len() == 0
                &&& final(state)@ == state@
                &&& r.0 is Finish <==> incoming is Ended || incoming is Closed
                &&& r.0 matches Action::Fail { error } ==> (incoming is Silence <==> error
                    is Stale) && (incoming is Failed <==> error is Read)
            },
{
    assert(crate::message::notice_views(r.2@).len() == r.2.len());
}

/// A session opens with an empty object, and an opening that cannot be sent ends it with an
/// error that gives the whole reason, while a pong that cannot be sent does not end it.
pub proof fn lemma_sending(
    opening: String,
    reason: String,
    r: Option<SessionError>,
    s: Option<SessionError>,
)
    requires
        call_ensures(handshake, (), opening),
        call_ensures(send_failure, (Sending::Handshake, reason), r),
        call_ensures(send_failure, (Sending::Pong, reason), s),
    ensures
        opening@ == seq!['{', '}'],
        r matches Some(SessionError::Handshake { reason: given }) && given@ == reason@,
        s is None,
{
    reveal_strlit("{}");
}

/// An error in words ends with the whole reason.
pub proof fn lemma_error_in_words(error: SessionError, r: String, reason: String)
    requires
        call_ensures(SessionError::message, (&error,), r),
        error == (SessionError::Tls { reason }) || error == (SessionError::Connect { reason })
            || error == (SessionError::Handshake { reason }) || error == (SessionError::Read {
            reason,
        }),
    ensures
        r@.len() > reason@.len(),
        r@.skip(r@.len() - reason@.len()) == reason@,
{
    reveal_strlit("TLS build error: ");
    reveal_strlit("WS connect error: ");
    reveal_strlit("Handshake failed: ");
    reveal_strlit("WS read error: ");
    assert(r@.skip(r@.len() - reason@.len()) =~= reason@);
}

} // verus!
