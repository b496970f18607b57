//! The messages of the feed: what is read out of them, and what they do to the state.

use vstd::prelude::*;
use crate::counter::{assign_sub_counters, gap, parse_counter};
use crate::double::{Double, ONE, ZERO};
use crate::event::{parse_bet, parse_cashout, BetEvent, CashoutEvent};
use crate::json::{as_double, element, member, read_json};
use crate::state::{AppState, GameState, RoundResult};
use crate::text::same_text;

verus! {

/// What is read out of one message: its kind, and of its first argument the crash flag, the
/// multiplier and the time of a flight, and the kind and the text of a player's event.
#[derive(Debug)]
pub struct Item {
    pub kind: Option<String>,
    pub crashed: Option<bool>,
    pub mult: Option<Double>,
    pub time: Option<Double>,
    pub event: Option<String>,
    pub event_text: Option<String>,
}

/// What is read out of a frame: the field that carries the counter, and the messages.
#[derive(Debug)]
pub struct Frame {
    pub counter_field: String,
    pub items: Vec<Item>,
}

/// The characters of a string that may be missing.
pub open spec fn text_view(s: Option<String>) -> Option<Seq<char>> {
    match s {
        Some(t) => Some(t@),
        None => None,
    }
}

/// What one message says.
pub struct ItemView {
    pub kind: Option<Seq<char>>,
    pub crashed: Option<bool>,
    pub mult: Option<Double>,
    pub time: Option<Double>,
    pub event: Option<Seq<char>>,
    pub event_text: Option<Seq<char>>,
}

impl View for Item {
    type V = ItemView;

    open spec fn view(&self) -> ItemView {
        ItemView {
            kind: text_view(self.kind),
            crashed: self.crashed,
            mult: self.mult,
            time: self.time,
            event: text_view(self.event),
            event_text: text_view(self.event_text),
        }
    }
}

/// What a frame says.
pub struct FrameView {
    pub counter_field: Seq<char>,
    pub items: Seq<ItemView>,
}

impl FrameView {
    /// Whether the numbers of the frame's messages are finite.
    pub open spec fn numbers_finite(self) -> bool {
        forall|i: int| 0 <= i < self.items.len() ==> (#[trigger] self.items[i]).numbers_finite()
    }
}

/// What each of a list of messages says.
pub open spec fn item_views(list: Seq<Item>) -> Seq<ItemView> {
    list.map_values(|m: Item| m@)
}

impl View for Frame {
    type V = FrameView;

    open spec fn view(&self) -> FrameView {
        FrameView { counter_field: self.counter_field@, items: item_views(self.items@) }
    }
}

/// What there is to tell, or to do, about a message.
#[derive(Debug)]
pub enum Notice {
    /// Counters were passed over since the last message.
    Gap { last: u64, counter: String, missed: u64 },
    /// Several messages came in one frame.
    Batch { count: usize, counter: String },
    /// A round starts.
    Board { round: u32 },
    /// The plane lifts off.
    LiftOff { mult: Double, time: Double },
    /// The plane is in flight.
    Flight { mult: Double, time: Double },
    /// The plane has crashed.
    Crash { mult: Double, time: Double },
    /// The history is to be saved, and the round to be reported.
    Report { result: RoundResult, history: Vec<Double> },
    /// A player has cashed out, in time or too late.
    Cashout { cashout: CashoutEvent, leak: bool },
    /// A player has placed a bet, in time or too late.
    Bet { bet: BetEvent, leak: bool },
    /// A cashout could not be read.
    BadCashout { text: String },
    /// A bet could not be read.
    BadBet { text: String },
    /// A player's event is of no known kind.
    UnknownEvent { kind: String, counter: String },
    /// A message is of no known kind.
    UnknownMessage { kind: String, counter: String },
}

/// What a notice says.
pub enum NoticeView {
    Gap { last: u64, counter: Seq<char>, missed: nat },
    Batch { count: nat, counter: Seq<char> },
    Board { round: u32 },
    LiftOff { mult: Double, time: Double },
    Flight { mult: Double, time: Double },
    Crash { mult: Double, time: Double },
    Report { result: crate::state::ResultView, history: Seq<Double> },
    Cashout { cashout: crate::event::CashoutView, leak: bool },
    Bet { bet: crate::event::BetView, leak: bool },
    BadCashout { text: Seq<char> },
    BadBet { text: Seq<char> },
    UnknownEvent { kind: Seq<char>, counter: Seq<char> },
    UnknownMessage { kind: Seq<char>, counter: Seq<char> },
}

impl View for Notice {
    type V = NoticeView;

    open spec fn view(&self) -> NoticeView {
        match *self {
            Notice::Gap { last, counter, missed } => NoticeView::Gap {
                last,
                counter: counter@,
                missed: missed as nat,
            },
            Notice::Batch { count, counter } => NoticeView::Batch {
                count: count as nat,
                counter: counter@,
            },
            Notice::Board { round } => NoticeView::Board { round },
            Notice::LiftOff { mult, time } => NoticeView::LiftOff { mult, time },
            Notice::Flight { mult, time } => NoticeView::Flight { mult, time },
            Notice::Crash { mult, time } => NoticeView::Crash { mult, time },
            Notice::Report { result, history } => NoticeView::Report {
                result: result@,
                history: history@,
            },
            Notice::Cashout { cashout, leak } => NoticeView::Cashout { cashout: cashout@, leak },
            Notice::Bet { bet, leak } => NoticeView::Bet { bet: bet@, leak },
            Notice::BadCashout { text } => NoticeView::BadCashout { text: text@ },
            Notice::BadBet { text } => NoticeView::BadBet { text: text@ },
            Notice::UnknownEvent { kind, counter } => NoticeView::UnknownEvent {
                kind: kind@,
                counter: counter@,
            },
            Notice::UnknownMessage { kind, counter } => NoticeView::UnknownMessage {
                kind: kind@,
                counter: counter@,
            },
        }
    }
}

/// What each of a list of notices says.
pub open spec fn notice_views(list: Seq<Notice>) -> Seq<NoticeView> {
    list.map_values(|n: Notice| n@)
}

/// Whether every report among `told` compares its round with finite numbers only.
pub open spec fn reports_finite(told: Seq<NoticeView>) -> bool {
    forall|i: int|
        0 <= i < told.len() ==> ((#[trigger] told[i]) matches NoticeView::Report { history, .. }
            ==> crate::state::all_finite(history))
}

/// What is read out of a message.
pub open spec fn item_of(j: crate::json::Json) -> ItemView {
    let first = j.member("A"@).element(0);
    ItemView {
        kind: j.member("M"@).text(),
        crashed: first.member("f"@).truth(),
        mult: first.member("v"@).double(),
        time: first.member("s"@).double(),
        event: first.member("M"@).text(),
        event_text: first.member("I"@).member("a"@).text(),
    }
}

/// What is read out of a frame, if it holds any messages.
pub open spec fn frame_of(j: crate::json::Json) -> Option<FrameView> {
    match j.member("M"@).elements() {
        Some(list) => if list.len() > 0 {
            Some(
                FrameView {
                    counter_field: j.member("C"@).text().unwrap_or(Seq::empty()),
                    items: list.map_values(|e: crate::json::Json| item_of(e)),
                },
            )
        } else {
            None
        },
        None => None,
    }
}

impl ItemView {
    /// Whether the numbers of this message are finite.
    pub open spec fn numbers_finite(self) -> bool {
        &&& self.mult matches Some(d) ==> d.is_finite()
        &&& self.time matches Some(d) ==> d.is_finite()
    }

    /// Whether this message tells that the plane has crashed.
    pub open spec fn is_crash(self) -> bool {
        self.kind == Some("response"@) && self.crashed == Some(true)
    }
}

/// Whether the plane is at its starting point: the multiplier one at the time zero.
pub open spec fn at_start(mult: Double, time: Double) -> bool {
    &&& !mult.is_nan() && mult.value() == crate::double::unit()
    &&& !time.is_nan() && time.value() == 0
}

/// Whether a cashout comes too late: the plane has crashed, before this message or in an
/// earlier one of the same frame.
pub open spec fn cashout_leaks(st: crate::state::StateView, after_crash: bool) -> bool {
    st.game_state == GameState::Crashed || after_crash
}

/// Whether a bet comes too late: the plane has taken off.
pub open spec fn bet_leaks(st: crate::state::StateView) -> bool {
    st.game_state == GameState::Flying || st.game_state == GameState::Crashed
}

/// What a report on the flight does: the state after it, and what there is to tell.
pub open spec fn flight_step(st: crate::state::StateView, m: ItemView) -> (
    crate::state::StateView,
    Seq<NoticeView>,
) {
    let mult = m.mult.unwrap_or(Double { bits: ONE });
    let time = m.time.unwrap_or(Double { bits: ZERO });
    if m.crashed.unwrap_or(false) {
        let after = st.crashed(mult);
        (
            after,
            seq![
                NoticeView::Crash { mult, time },
                NoticeView::Report { result: st.result(mult, time), history: after.history },
            ],
        )
    } else if at_start(mult, time) {
        (
            crate::state::StateView {
                current_mult: mult,
                current_time: time,
                game_state: GameState::Flying,
                ..st
            },
            seq![NoticeView::LiftOff { mult, time }],
        )
    } else {
        (
            crate::state::StateView { current_mult: mult, current_time: time, ..st },
            seq![NoticeView::Flight { mult, time }],
        )
    }
}

/// What a player's event does: the state after it, and what there is to tell.
pub open spec fn player_step(
    st: crate::state::StateView,
    m: ItemView,
    label: Seq<char>,
    after_crash: bool,
) -> (crate::state::StateView, Seq<NoticeView>) {
    let kind = m.event.unwrap_or(Seq::empty());
    let text = m.event_text.unwrap_or(Seq::empty());
    if kind == "c"@ {
        match crate::event::cashout_of(text, label) {
            Some(event) => {
                let leak = cashout_leaks(st, after_crash);
                (
                    if leak {
                        crate::state::StateView {
                            leaked_cashouts: st.leaked_cashouts.push(event),
                            ..st
                        }
                    } else {
                        crate::state::StateView {
                            normal_cashouts: st.normal_cashouts.push(event),
                            ..st
                        }
                    },
                    seq![NoticeView::Cashout { cashout: event, leak }],
                )
            },
            None => (st, seq![NoticeView::BadCashout { text }]),
        }
    } else if kind == "b"@ {
        match crate::event::bet_of(text, label) {
            Some(event) => {
                let leak = bet_leaks(st);
                (
                    if leak {
                        crate::state::StateView { leaked_bets: st.leaked_bets.push(event), ..st }
                    } else {
                        crate::state::StateView { normal_bets: st.normal_bets.push(event), ..st }
                    },
                    seq![NoticeView::Bet { bet: event, leak }],
                )
            },
            None => (st, seq![NoticeView::BadBet { text }]),
        }
    } else {
        (st, seq![NoticeView::UnknownEvent { kind, counter: label }])
    }
}

/// What one message with the counter `label` does: the state after it, and what there is
/// to tell.
pub open spec fn step(
    st: crate::state::StateView,
    m: ItemView,
    label: Seq<char>,
    after_crash: bool,
) -> (crate::state::StateView, Seq<NoticeView>) {
    let kind = m.kind.unwrap_or(Seq::empty());
    if kind == "gBoard"@ {
        (st.reset(), seq![NoticeView::Board { round: st.reset().round_number }])
    } else if kind == "response"@ {
        flight_step(st, m)
    } else if kind == "g"@ {
        player_step(st, m, label, after_crash)
    } else if kind.len() > 0 {
        (st, seq![NoticeView::UnknownMessage { kind, counter: label }])
    } else {
        (st, Seq::empty())
    }
}

/// Whether one of the first `k` messages tells of a crash.
pub open spec fn crash_before(items: Seq<ItemView>, k: int) -> bool {
    exists|i: int| 0 <= i < k && i < items.len() && (#[trigger] items[i]).is_crash()
}

/// What the first `k` messages of a frame do, one after the other.
pub open spec fn run(
    st: crate::state::StateView,
    items: Seq<ItemView>,
    labels: Seq<Seq<char>>,
    k: nat,
) -> (crate::state::StateView, Seq<NoticeView>)
    decreases k,
{
    if k == 0 {
        (st, Seq::empty())
    } else {
        let (before, told) = run(st, items, labels, (k - 1) as nat);
        let (after, news) = step(before, items[k - 1], labels[k - 1], crash_before(items, k - 1));
        (after, told + news)
    }
}

/// The text and the value of a frame's counter. A frame without one counts as 0.
pub open spec fn frame_counter(f: FrameView) -> (Seq<char>, nat) {
    crate::counter::counter_of(f.counter_field).unwrap_or(("UNK"@, 0))
}

/// The counters of a frame's messages: each its own where there are several.
pub open spec fn frame_labels(f: FrameView) -> Seq<Seq<char>> {
    let (text, value) = frame_counter(f);
    if f.items.len() > 1 {
        crate::counter::labels_of(value, f.items.len())
    } else {
        seq![text]
    }
}

/// The state once a frame's counter is noted. The counter 0 is not noted.
pub open spec fn noted(st: crate::state::StateView, f: FrameView) -> crate::state::StateView {
    let (_, value) = frame_counter(f);
    if value > 0 {
        crate::state::StateView { last_counter: Some(value as u64), ..st }
    } else {
        st
    }
}

/// What there is to tell of a frame before its messages: a gap in front of a single
/// message, or that there are several messages.
pub open spec fn preamble(st: crate::state::StateView, f: FrameView) -> Seq<NoticeView> {
    let (text, value) = frame_counter(f);
    if f.items.len() > 1 {
        seq![NoticeView::Batch { count: f.items.len(), counter: text }]
    } else {
        match crate::counter::gap_of(st.last_counter, value as u64) {
            Some(missed) => seq![
                NoticeView::Gap { last: st.last_counter.unwrap(), counter: text, missed },
            ],
            None => Seq::empty(),
        }
    }
}

/// What a frame does: the state after it, and what there is to tell.
pub open spec fn frame_step(st: crate::state::StateView, f: FrameView) -> (
    crate::state::StateView,
    Seq<NoticeView>,
) {
    if f.items.len() == 0 {
        (st, Seq::empty())
    } else {
        let (after, news) = run(noted(st, f), f.items, frame_labels(f), f.items.len());
        (after, preamble(st, f) + news)
    }
}

/// What a text does that arrives from the feed: nothing where it holds no messages.
pub open spec fn message_step(st: crate::state::StateView, raw: Seq<char>) -> (
    crate::state::StateView,
    Seq<NoticeView>,
) {
    match crate::json::parsed(raw) {
        Some(j) => match frame_of(j) {
            Some(f) => frame_step(st, f),
            None => (st, Seq::empty()),
        },
        None => (st, Seq::empty()),
    }
}

/// A copy of a string that may be missing.
fn own(s: Option<&str>) -> (r: Option<String>)
    ensures
        match s {
            Some(t) => text_view(r) == Some(t@),
            None => text_view(r) is None,
        },
{
    match s {
        Some(t) => Some(t.to_owned()),
        None => None,
    }
}

/// Reads a message.
pub fn read_item(v: &serde_json::Value) -> (r: Item)
    ensures
        r@ == item_of(crate::json::contents(*v)),
        r@.numbers_finite(),
{
    let first = element(member(v, "A"), 0);
    Item {
        kind: own(member(v, "M").as_str()),
        crashed: member(first, "f").as_bool(),
        mult: as_double(member(first, "v")),
        time: as_double(member(first, "s")),
        event: own(member(first, "M").as_str()),
        event_text: own(member(member(first, "I"), "a").as_str()),
    }
}

/// Reads a frame, if it holds any messages.
pub fn read_frame(v: &serde_json::Value) -> (r: Option<Frame>)
    ensures
        match r {
            Some(f) => frame_of(crate::json::contents(*v)) == Some(f@) && f@.numbers_finite(),
            None => frame_of(crate::json::contents(*v)) is None,
        },
{
    let list = match member(v, "M").as_array() {
        Some(list) => list,
        None => {
            return None;
        },
    };
    if list.len() == 0 {
        return None;
    }
    let ghost all = crate::json::all_contents(list@);
    let mut items: Vec<Item> = Vec::new();
    let mut i: usize = 0;
    while i < list.len()
        invariant
            i <= list.len(),
            all == crate::json::all_contents(list@),
            items.len() == i,
            forall|j: int|
                0 <= j < i ==> (#[trigger] items[j])@ == item_of(all[j])
                    && items[j]@.numbers_finite(),
        decreases list.len() - i,
    {
        assert(all[i as int] == crate::json::contents(list[i as int]));
        items.push(read_item(&list[i]));
        i += 1;
    }
    let counter_field = match member(v, "C").as_str() {
        Some(c) => c.to_owned(),
        None => String::new(),
    };
    assert(item_views(items@) =~= all.map_values(|e: crate::json::Json| item_of(e)));
    Some(Frame { counter_field, items })
}

/// The string in `s`, or the empty string.
fn or_empty(s: &Option<String>) -> (r: String)
    ensures
        r@ == text_view(*s).unwrap_or(Seq::empty()),
{
    match s {
        Some(t) => t.clone(),
        None => String::new(),
    }
}

/// Whether a message tells of a crash.
fn tells_crash(m: &Item) -> (r: bool)
    ensures
        r == m@.is_crash(),
{
    let response = match &m.kind {
        Some(kind) => same_text(kind.as_str(), "response"),
        None => false,
    };
    let crashed = match m.crashed {
        Some(f) => f,
        None => false,
    };
    response && crashed
}

/// Adds a notice.
fn tell(out: &mut Vec<Notice>, n: Notice)
    ensures
        notice_views(final(out)@) == notice_views(old(out)@) + seq![n@],
{
    out.push(n);
    assert(notice_views(out@) =~= notice_views(old(out)@) + seq![n@]);
}

/// The numbers of a history, oldest first.
fn snapshot(h: &std::collections::VecDeque<Double>) -> (r: Vec<Double>)
    ensures
        r@ == h@,
{
    let mut r: Vec<Double> = Vec::new();
    let mut i: usize = 0;
    while i < h.len()
        invariant
            i <= h.len(),
            r@ == h@.take(i as int),
        decreases h.len() - i,
    {
        r.push(h[i]);
        i += 1;
    }
    r
}

impl AppState {
    /// Takes in a report on the flight.
    fn flight(&mut self, m: &Item, out: &mut Vec<Notice>)
        ensures
            final(self)@ == flight_step(old(self)@, m@).0,
            notice_views(final(out)@) == notice_views(old(out)@) + flight_step(
                old(self)@,
                m@,
            ).1,
    {
        let mult = m.mult.unwrap_or(Double { bits: ONE });
        let time = m.time.unwrap_or(Double { bits: ZERO });
        let crashed = m.crashed.unwrap_or(false);
        if crashed {
            let result = self.result(mult, time);
            self.crash(mult);
            tell(out, Notice::Crash { mult, time });
            tell(out, Notice::Report { result, history: snapshot(&self.history) });
        } else {
            proof {
                crate::double::lemma_named_values();
            }
            self.current_mult = mult;
            self.current_time = time;
            if mult.same(Double { bits: ONE }) && time.same(Double { bits: ZERO }) {
                self.game_state = GameState::Flying;
                tell(out, Notice::LiftOff { mult, time });
            } else {
                tell(out, Notice::Flight { mult, time });
            }
        }
        assert(notice_views(out@) =~= notice_views(old(out)@) + flight_step(old(self)@, m@).1);
    }

    /// Takes in a player's event.
    fn player(&mut self, m: &Item, label: &str, after_crash: bool, out: &mut Vec<Notice>)
        ensures
            final(self)@ == player_step(old(self)@, m@, label@, after_crash).0,
            notice_views(final(out)@) == notice_views(old(out)@) + player_step(
                old(self)@,
                m@,
                label@,
                after_crash,
            ).1,
    {
        let kind = or_empty(&m.event);
        let text = or_empty(&m.event_text);
        if same_text(kind.as_str(), "c") {
            match parse_cashout(text.as_str(), label) {
                Some(event) => {
                    let leak = self.game_state == GameState::Crashed || after_crash;
                    tell(out, Notice::Cashout { cashout: event.clone(), leak });
                    if leak {
                        self.leaked_cashouts.push(event);
                        assert(self@.leaked_cashouts =~= old(self)@.leaked_cashouts.push(event@));
                    } else {
                        self.normal_cashouts.push(event);
                        assert(self@.normal_cashouts =~= old(self)@.normal_cashouts.push(event@));
                    }
                },
                None => {
                    tell(out, Notice::BadCashout { text });
                },
            }
        } else if same_text(kind.as_str(), "b") {
            match parse_bet(text.as_str(), label) {
                Some(event) => {
                    let leak = self.game_state == GameState::Flying || self.game_state
                        == GameState::Crashed;
                    tell(out, Notice::Bet { bet: event.clone(), leak });
                    if leak {
                        self.leaked_bets.push(event);
                        assert(self@.leaked_bets =~= old(self)@.leaked_bets.push(event@));
                    } else {
                        self.normal_bets.push(event);
                        assert(self@.normal_bets =~= old(self)@.normal_bets.push(event@));
                    }
                },
                None => {
                    tell(out, Notice::BadBet { text });
                },
            }
        } else {
            tell(out, Notice::UnknownEvent { kind, counter: label.to_owned() });
        }
    }

    /// Takes in one message with the counter `label`.
    pub fn apply(&mut self, m: &Item, label: &str, after_crash: bool, out: &mut Vec<Notice>)
        ensures
            final(self)@ == step(old(self)@, m@, label@, after_crash).0,
            notice_views(final(out)@) == notice_views(old(out)@) + step(
                old(self)@,
                m@,
                label@,
                after_crash,
            ).1,
    {
        let kind = or_empty(&m.kind);
        if same_text(kind.as_str(), "gBoard") {
            self.reset_round();
            tell(out, Notice::Board { round: self.round_number });
        } else if same_text(kind.as_str(), "response") {
            self.flight(m, out);
        } else if same_text(kind.as_str(), "g") {
            self.player(m, label, after_crash, out);
        } else if !kind.as_str().is_empty() {
            tell(out, Notice::UnknownMessage { kind, counter: label.to_owned() });
        } else {
            assert(notice_views(out@) =~= notice_views(old(out)@) + Seq::empty());
        }
    }
}

/// Takes in a frame, and says what there is to tell.
pub fn process_frame(f: &Frame, state: &mut AppState) -> (r: Vec<Notice>)
    ensures
        final(state)@ == frame_step(old(state)@, f@).0,
        notice_views(r@) == frame_step(old(state)@, f@).1,
{
    let mut out: Vec<Notice> = Vec::new();
    let count: usize = f.items.len();
    assert(notice_views(out@) =~= Seq::empty());
    if count == 0 {
        return out;
    }
    let ghost st = state@;
    let (counter, value) = match parse_counter(f.counter_field.as_str()) {
        Some((text, n)) => (text, n),
        None => ("UNK".to_owned(), 0),
    };
    assert(frame_counter(f@) == (counter@, value as nat));
    let labels: Vec<String> = if count > 1 {
        assign_sub_counters(value, count)
    } else {
        let mut one: Vec<String> = Vec::new();
        one.push(counter.clone());
        assert(one@.map_values(|s: String| s@) =~= seq![counter@]);
        one
    };
    let ghost shown = labels@.map_values(|s: String| s@);
    assert(shown == frame_labels(f@));
    if count > 1 {
        tell(&mut out, Notice::Batch { count, counter });
    } else {
        match gap(state.last_counter, value) {
            Some(missed) => {
                let last = state.last_counter.unwrap_or(0);
                tell(&mut out, Notice::Gap { last, counter, missed });
            },
            None => {},
        }
    }
    if value > 0 {
        state.last_counter = Some(value);
    }
    assert(notice_views(out@) =~= preamble(st, f@));
    assert(state@ == noted(st, f@));
    let mut after_crash: bool = false;
    let mut i: usize = 0;
    while i < count
        invariant
            i <= count,
            count == f.items.len(),
            shown == labels@.map_values(|s: String| s@),
            shown == frame_labels(f@),
            labels.len() == count,
            after_crash == crash_before(f@.items, i as int),
            state@ == run(noted(st, f@), f@.items, shown, i as nat).0,
            notice_views(out@) == preamble(st, f@) + run(
                noted(st, f@),
                f@.items,
                shown,
                i as nat,
            ).1,
        decreases count - i,
    {
        assert(f@.items[i as int] == f.items[i as int]@);
        assert(shown[i as int] == labels[i as int]@);
        state.apply(&f.items[i], labels[i].as_str(), after_crash, &mut out);
        assert(notice_views(out@) =~= preamble(st, f@) + run(
            noted(st, f@),
            f@.items,
            shown,
            (i + 1) as nat,
        ).1);
        if tells_crash(&f.items[i]) {
            after_crash = true;
        }
        i += 1;
    }
    out
}

/// Takes in a text that arrives from the feed, and says what there is to tell.
pub fn process_message(raw: &str, state: &mut AppState) -> (r: Vec<Notice>)
    ensures
        final(state)@ == message_step(old(state)@, raw@).0,
        notice_views(r@) == message_step(old(state)@, raw@).1,
        old(state)@.valid() ==> final(state)@.valid(),
        old(state)@.valid() ==> reports_finite(notice_views(r@)),
{
    match read_json(raw) {
        Ok(v) => match read_frame(&v) {
            Some(f) => {
                proof {
                    if state@.valid() {
                        crate::invariants::lemma_stays_valid(state@, f@);
                    }
                }
                process_frame(&f, state)
            },
            None => no_news(),
        },
        Err(_) => no_news(),
    }
}

/// Nothing to tell.
pub(crate) fn no_news() -> (r: Vec<Notice>)
    ensures
        notice_views(r@) == Seq::<NoticeView>::empty(),
{
    let r: Vec<Notice> = Vec::new();
    assert(notice_views(r@) =~= Seq::empty());
    r
}

} // verus!
