//! The state that is kept between messages: where the current round stands, what was bet
//! and cashed out in it, and how earlier rounds ended.

use vstd::prelude::*;
use std::collections::VecDeque;
use crate::double::{Double, ONE, ZERO};
use crate::event::{BetEvent, CashoutEvent};
use crate::json::{as_double, read_json};

verus! {

/// The number of past rounds beyond which the oldest one is forgotten when a new one ends.
pub const HISTORY_LIMIT: usize = 500;

/// The number of rounds that a history has room for when none was saved.
pub const FRESH_CAPACITY: usize = 200;

/// The phases of a round.
#[derive(Clone, Copy, Debug, PartialEq, Eq, Structural)]
pub enum GameState {
    WaitingForBets,
    Flying,
    Crashed,
}

/// What is known when a round has crashed.
#[derive(Debug)]
pub struct RoundResult {
    pub crash_multiplier: Double,
    pub flight_time: Double,
    pub normal_bets: Vec<BetEvent>,
    pub normal_cashouts: Vec<CashoutEvent>,
    pub leaked_bets: Vec<BetEvent>,
    pub leaked_cashouts: Vec<CashoutEvent>,
}

/// The state between messages.
#[derive(Debug)]
pub struct AppState {
    pub game_state: GameState,
    pub round_number: u32,
    pub last_counter: Option<u64>,
    pub current_mult: Double,
    pub current_time: Double,
    pub normal_bets: Vec<BetEvent>,
    pub normal_cashouts: Vec<CashoutEvent>,
    pub leaked_bets: Vec<BetEvent>,
    pub leaked_cashouts: Vec<CashoutEvent>,
    pub history: VecDeque<Double>,
}

/// What each of a list of bets says.
pub open spec fn bet_views(list: Seq<BetEvent>) -> Seq<crate::event::BetView> {
    list.map_values(|b: BetEvent| b@)
}

/// What each of a list of cashouts says.
pub open spec fn cashout_views(list: Seq<CashoutEvent>) -> Seq<crate::event::CashoutView> {
    list.map_values(|c: CashoutEvent| c@)
}

/// What the result of a round says.
pub struct ResultView {
    pub crash_multiplier: Double,
    pub flight_time: Double,
    pub normal_bets: Seq<crate::event::BetView>,
    pub normal_cashouts: Seq<crate::event::CashoutView>,
    pub leaked_bets: Seq<crate::event::BetView>,
    pub leaked_cashouts: Seq<crate::event::CashoutView>,
}

impl View for RoundResult {
    type V = ResultView;

    open spec fn view(&self) -> ResultView {
        ResultView {
            crash_multiplier: self.crash_multiplier,
            flight_time: self.flight_time,
            normal_bets: bet_views(self.normal_bets@),
            normal_cashouts: cashout_views(self.normal_cashouts@),
            leaked_bets: bet_views(self.leaked_bets@),
            leaked_cashouts: cashout_views(self.leaked_cashouts@),
        }
    }
}

/// What the state holds.
pub struct StateView {
    pub game_state: GameState,
    pub round_number: u32,
    pub last_counter: Option<u64>,
    pub current_mult: Double,
    pub current_time: Double,
    pub normal_bets: Seq<crate::event::BetView>,
    pub normal_cashouts: Seq<crate::event::CashoutView>,
    pub leaked_bets: Seq<crate::event::BetView>,
    pub leaked_cashouts: Seq<crate::event::CashoutView>,
    pub history: Seq<Double>,
}

impl View for AppState {
    type V = StateView;

    open spec fn view(&self) -> StateView {
        StateView {
            game_state: self.game_state,
            round_number: self.round_number,
            last_counter: self.last_counter,
            current_mult: self.current_mult,
            current_time: self.current_time,
            normal_bets: bet_views(self.normal_bets@),
            normal_cashouts: cashout_views(self.normal_cashouts@),
            leaked_bets: bet_views(self.leaked_bets@),
            leaked_cashouts: cashout_views(self.leaked_cashouts@),
            history: self.history@,
        }
    }
}

/// The round after round `n`. Round numbers start again from 0 behind the largest.
pub open spec fn next_round(n: u32) -> u32 {
    if n == u32::MAX {
        0
    } else {
        (n + 1) as u32
    }
}

/// The history `h` once a round has crashed at `v`.
pub open spec fn remembered(h: Seq<Double>, v: Double) -> Seq<Double> {
    if h.len() + 1 > HISTORY_LIMIT {
        h.push(v).drop_first()
    } else {
        h.push(v)
    }
}

/// Whether every number in `h` is finite.
pub open spec fn all_finite(h: Seq<Double>) -> bool {
    forall|i: int| 0 <= i < h.len() ==> (#[trigger] h[i]).is_finite()
}

impl StateView {
    /// Whether the rounds in memory are finite numbers.
    pub open spec fn valid(self) -> bool {
        all_finite(self.history)
    }

    /// The state before the first message, with the given rounds in memory.
    pub open spec fn initial(history: Seq<Double>) -> StateView {
        StateView {
            game_state: GameState::WaitingForBets,
            round_number: 0,
            last_counter: None,
            current_mult: Double { bits: ONE },
            current_time: Double { bits: ZERO },
            normal_bets: Seq::empty(),
            normal_cashouts: Seq::empty(),
            leaked_bets: Seq::empty(),
            leaked_cashouts: Seq::empty(),
            history,
        }
    }

    /// The state at the start of the next round.
    pub open spec fn reset(self) -> StateView {
        StateView {
            round_number: next_round(self.round_number),
            last_counter: self.last_counter,
            ..StateView::initial(self.history)
        }
    }

    /// The state when the round has crashed at `v`.
    pub open spec fn crashed(self, v: Double) -> StateView {
        StateView {
            game_state: GameState::Crashed,
            history: remembered(self.history, v),
            ..self
        }
    }

    /// What is known of the round if it crashes at `v` after the time `s`.
    pub open spec fn result(self, v: Double, s: Double) -> ResultView {
        ResultView {
            crash_multiplier: v,
            flight_time: s,
            normal_bets: self.normal_bets,
            normal_cashouts: self.normal_cashouts,
            leaked_bets: self.leaked_bets,
            leaked_cashouts: self.leaked_cashouts,
        }
    }
}

/// A copy of a list of bets.
fn copy_bets(list: &Vec<BetEvent>) -> (r: Vec<BetEvent>)
    ensures
        r@ == list@,
{
    let r = list.clone();
    assert(r@ =~= list@);
    r
}

/// A copy of a list of cashouts.
fn copy_cashouts(list: &Vec<CashoutEvent>) -> (r: Vec<CashoutEvent>)
    ensures
        r@ == list@,
{
    let r = list.clone();
    assert(r@ =~= list@);
    r
}

impl AppState {
    /// The state before the first message, with the rounds of `history` in memory.
    pub fn new(history: VecDeque<Double>) -> (r: AppState)
        ensures
            r@ == StateView::initial(history@),
    {
        let r = AppState {
            game_state: GameState::WaitingForBets,
            round_number: 0,
            last_counter: None,
            current_mult: Double { bits: ONE },
            current_time: Double { bits: ZERO },
            normal_bets: Vec::new(),
            normal_cashouts: Vec::new(),
            leaked_bets: Vec::new(),
            leaked_cashouts: Vec::new(),
            history,
        };
        assert(r@.normal_bets =~= Seq::empty());
        assert(r@.normal_cashouts =~= Seq::empty());
        assert(r@.leaked_bets =~= Seq::empty());
        assert(r@.leaked_cashouts =~= Seq::empty());
        r
    }

    /// Starts the next round.
    pub fn reset_round(&mut self)
        ensures
            final(self)@ == old(self)@.reset(),
    {
        self.round_number = self.round_number.wrapping_add(1);
        self.game_state = GameState::WaitingForBets;
        self.current_mult = Double { bits: ONE };
        self.current_time = Double { bits: ZERO };
        self.normal_bets.clear();
        self.normal_cashouts.clear();
        self.leaked_bets.clear();
        self.leaked_cashouts.clear();
        assert(self@.normal_bets =~= Seq::empty());
        assert(self@.normal_cashouts =~= Seq::empty());
        assert(self@.leaked_bets =~= Seq::empty());
        assert(self@.leaked_cashouts =~= Seq::empty());
    }

    /// Notes that the round has crashed at `v`, and forgets the oldest round if there are
    /// more than [`HISTORY_LIMIT`].
    pub fn crash(&mut self, v: Double)
        ensures
            final(self)@ == old(self)@.crashed(v),
    {
        self.game_state = GameState::Crashed;
        self.history.push_back(v);
        if self.history.len() > HISTORY_LIMIT {
            let _ = self.history.pop_front();
        }
        assert(self@.history =~= remembered(old(self)@.history, v));
    }

    /// What is known of the round if it crashes at `v` after the time `s`.
    pub fn result(&self, v: Double, s: Double) -> (r: RoundResult)
        ensures
            r@ == self@.result(v, s),
    {
        RoundResult {
            crash_multiplier: v,
            flight_time: s,
            normal_bets: copy_bets(&self.normal_bets),
            normal_cashouts: copy_cashouts(&self.normal_cashouts),
            leaked_bets: copy_bets(&self.leaked_bets),
            leaked_cashouts: copy_cashouts(&self.leaked_cashouts),
        }
    }
}

/// The numbers in the elements of a JSON array, nothing standing for an element that is no
/// number; nothing at all for a value that is no array.
pub open spec fn entries_of(j: crate::json::Json) -> Option<Seq<Option<Double>>> {
    match j.elements() {
        Some(list) => Some(list.map_values(|e: crate::json::Json| e.double())),
        None => None,
    }
}

/// The history that the entries of a saved array make up: none where an entry is no number.
pub open spec fn history_from(entries: Seq<Option<Double>>) -> Seq<Double> {
    if forall|i: int| 0 <= i < entries.len() ==> (#[trigger] entries[i]) is Some {
        entries.map_values(|e: Option<Double>| e.unwrap())
    } else {
        Seq::empty()
    }
}

/// The history that a saved text holds: none where there is no text, or where the text is
/// not a JSON array of numbers.
pub open spec fn history_of(saved: Option<Seq<char>>) -> Seq<Double> {
    match saved {
        Some(text) => match crate::json::parsed(text) {
            Some(j) => match entries_of(j) {
                Some(entries) => history_from(entries),
                None => Seq::empty(),
            },
            None => Seq::empty(),
        },
        None => Seq::empty(),
    }
}

/// Reads the elements of a JSON array as numbers.
pub fn read_entries(v: &serde_json::Value) -> (r: Option<Vec<Option<Double>>>)
    ensures
        match r {
            Some(entries) => entries_of(crate::json::contents(*v)) == Some(entries@),
            None => entries_of(crate::json::contents(*v)) is None,
        },
        r matches Some(entries) ==> forall|i: int|
            0 <= i < entries.len() ==> ((#[trigger] entries[i]) matches Some(d)
                ==> d.is_finite()),
{
    let list = match v.as_array() {
        Some(list) => list,
        None => {
            return None;
        },
    };
    let ghost all = crate::json::all_contents(list@);
    let mut r: Vec<Option<Double>> = Vec::new();
    let mut i: usize = 0;
    while i < list.len()
        invariant
            i <= list.len(),
            all == crate::json::all_contents(list@),
            r.len() == i,
            forall|j: int| 0 <= j < i ==> (#[trigger] all[j]).double() == r[j],
            forall|j: int| 0 <= j < i ==> ((#[trigger] r[j]) matches Some(d) ==> d.is_finite()),
        decreases list.len() - i,
    {
        assert(all[i as int] == crate::json::contents(list[i as int]));
        r.push(as_double(&list[i]));
        i += 1;
    }
    assert(r@ =~= all.map_values(|e: crate::json::Json| e.double()));
    Some(r)
}

/// Makes a history of the entries of a saved array.
pub fn collect_history(entries: &Vec<Option<Double>>) -> (r: VecDeque<Double>)
    ensures
        r@ == history_from(entries@),
{
    let mut r: VecDeque<Double> = VecDeque::new();
    let mut i: usize = 0;
    while i < entries.len()
        invariant
            i <= entries.len(),
            r@.len() == i,
            forall|j: int| 0 <= j < i ==> #[trigger] entries[j] == Some(r@[j]),
        decreases entries.len() - i,
    {
        match entries[i] {
            Some(d) => {
                r.push_back(d);
            },
            None => {
                assert(entries@[i as int] is None);
                return VecDeque::new();
            },
        }
        i += 1;
    }
    assert(r@ =~= entries@.map_values(|e: Option<Double>| e.unwrap()));
    r
}

/// Reads a saved history back from the text that was saved, if there is one.
pub fn load_history(saved: Option<&str>) -> (r: VecDeque<Double>)
    ensures
        saved matches Some(text) ==> r@ == history_of(Some(text@)),
        saved is None ==> r@ == history_of(None),
        all_finite(r@),
{
    match saved {
        Some(text) => match read_json(text) {
            Ok(v) => match read_entries(&v) {
                Some(entries) => {
                    let r = collect_history(&entries);
                    assert forall|i: int| 0 <= i < r@.len() implies (
                    #[trigger] r@[i]).is_finite() by {
                        assert(entries[i] == Some(r@[i]));
                    }
                    r
                },
                None => VecDeque::new(),
            },
            Err(_) => VecDeque::new(),
        },
        None => VecDeque::with_capacity(FRESH_CAPACITY),
    }
}

/// The history that is read back from a saved text: the numbers of a JSON array, all of them
/// and in their order, if it is an array of numbers, and nothing otherwise.
pub proof fn lemma_history_reads_back(text: Seq<char>, list: Seq<crate::json::Json>)
    requires
        crate::json::parsed(text) == Some(crate::json::Json::Array(list)),
    ensures
        (forall|i: int| 0 <= i < list.len() ==> (#[trigger] list[i]) is Number) ==> history_of(
            Some(text),
        ).len() == list.len() && forall|i: int|
            0 <= i < list.len() ==> #[trigger] list[i] == crate::json::Json::Number(
                history_of(Some(text))[i],
            ),
        (exists|i: int| 0 <= i < list.len() && !((#[trigger] list[i]) is Number)) ==> history_of(
            Some(text),
        ).len() == 0,
{
    let entries = list.map_values(|e: crate::json::Json| e.double());
    if forall|i: int| 0 <= i < list.len() ==> (#[trigger] list[i]) is Number {
        assert forall|i: int| 0 <= i < entries.len() implies (#[trigger] entries[i]) is Some by {
            assert(list[i] is Number);
        }
    } else {
        let i = choose|i: int| 0 <= i < list.len() && !((#[trigger] list[i]) is Number);
        assert(entries[i] is None);
    }
}

/// There is no history where there is no saved text, and none in a text that is not a JSON
/// array.
pub proof fn lemma_no_history(text: Seq<char>)
    requires
        crate::json::parsed(text) matches Some(j) ==> !(j is Array),
    ensures
        history_of(Some(text)).len() == 0,
        history_of(None).len() == 0,
{
}

/// Before the first message nothing is known but the rounds in memory: the first round has no
/// number yet, waits for bets and has had none.
pub proof fn lemma_initial(history: Seq<Double>)
    ensures
        ({
            let st = StateView::initial(history);
            &&& st.game_state == GameState::WaitingForBets
            &&& st.round_number == 0
            &&& st.last_counter is None
            &&& st.current_mult.value() == crate::double::unit()
            &&& st.current_time.bits == 0
            &&& st.normal_bets.len() + st.leaked_bets.len() == 0
            &&& st.normal_cashouts.len() + st.leaked_cashouts.len() == 0
            &&& st.history == history
        }),
{
    crate::double::lemma_named_values();
}

/// The state says what is in its fields.
pub proof fn lemma_state_says(st: AppState)
    ensures
        st@.game_state == st.game_state,
        st@.round_number == st.round_number,
        st@.last_counter == st.last_counter,
        st@.current_mult == st.current_mult,
        st@.current_time == st.current_time,
        st@.history == st.history@,
        st@.normal_bets.len() == st.normal_bets.len(),
        st@.leaked_bets.len() == st.leaked_bets.len(),
        st@.normal_cashouts.len() == st.normal_cashouts.len(),
        st@.leaked_cashouts.len() == st.leaked_cashouts.len(),
        forall|i: int|
            0 <= i < st.normal_bets.len() ==> #[trigger] st@.normal_bets[i] == st.normal_bets[i]@,
        forall|i: int|
            0 <= i < st.leaked_bets.len() ==> #[trigger] st@.leaked_bets[i] == st.leaked_bets[i]@,
        forall|i: int|
            0 <= i < st.normal_cashouts.len() ==> #[trigger] st@.normal_cashouts[i]
                == st.normal_cashouts[i]@,
        forall|i: int|
            0 <= i < st.leaked_cashouts.len() ==> #[trigger] st@.leaked_cashouts[i]
                == st.leaked_cashouts[i]@,
{
}

/// The result of a round says what is in its fields.
pub proof fn lemma_result_says(r: RoundResult)
    ensures
        r@.crash_multiplier == r.crash_multiplier,
        r@.flight_time == r.flight_time,
        r@.normal_bets.len() == r.normal_bets.len(),
        r@.leaked_bets.len() == r.leaked_bets.len(),
        r@.normal_cashouts.len() == r.normal_cashouts.len(),
        r@.leaked_cashouts.len() == r.leaked_cashouts.len(),
        forall|i: int|
            0 <= i < r.normal_bets.len() ==> #[trigger] r@.normal_bets[i] == r.normal_bets[i]@,
        forall|i: int|
            0 <= i < r.leaked_bets.len() ==> #[trigger] r@.leaked_bets[i] == r.leaked_bets[i]@,
        forall|i: int|
            0 <= i < r.normal_cashouts.len() ==> #[trigger] r@.normal_cashouts[i]
                == r.normal_cashouts[i]@,
        forall|i: int|
            0 <= i < r.leaked_cashouts.len() ==> #[trigger] r@.leaked_cashouts[i]
                == r.leaked_cashouts[i]@,
{
}

/// A saved array of numbers is loaded number by number, and nothing is loaded where nothing
/// was saved.
pub proof fn lemma_history_loaded(
    text: &str,
    list: Seq<crate::json::Json>,
    r: VecDeque<Double>,
    none: VecDeque<Double>,
)
    requires
        crate::json::parsed(text@) == Some(crate::json::Json::Array(list)),
        call_ensures(load_history, (Some(text),), r),
        call_ensures(load_history, (None,), none),
    ensures
        none@.len() == 0,
        (forall|i: int| 0 <= i < list.len() ==> (#[trigger] list[i]) is Number) ==> r@.len()
            == list.len() && forall|i: int|
            0 <= i < list.len() ==> #[trigger] list[i] == crate::json::Json::Number(r@[i]),
        (exists|i: int| 0 <= i < list.len() && !((#[trigger] list[i]) is Number)) ==> r@.len()
            == 0,
{
    lemma_history_reads_back(text@, list);
}

/// A new state has the rounds in memory that it was given, and has seen no message.
pub proof fn lemma_new_state(history: VecDeque<Double>, st: AppState)
    requires
        call_ensures(AppState::new, (history,), st),
    ensures
        st.history@ == history@,
        st.game_state == GameState::WaitingForBets,
        st.round_number == 0,
        st.last_counter is None,
        st.normal_bets.len() == 0 && st.leaked_bets.len() == 0,
        st.normal_cashouts.len() == 0 && st.leaked_cashouts.len() == 0,
{
    lemma_state_says(st);
}

/// Starting a round and noting a crash keep the rounds in memory, but for the crash itself and
/// the oldest round where there are five hundred or more. The result of a round has all that
/// was bet and cashed out.
pub proof fn lemma_round_ends(st: AppState, v: Double, s: Double, r: RoundResult)
    requires
        call_ensures(AppState::result, (&st, v, s), r),
    ensures
        r.crash_multiplier == v,
        r.flight_time == s,
        r@.normal_bets == st@.normal_bets,
        r@.leaked_bets == st@.leaked_bets,
        r@.normal_cashouts == st@.normal_cashouts,
        r@.leaked_cashouts == st@.leaked_cashouts,
        forall|st: &mut AppState| #[trigger]
            call_ensures(AppState::reset_round, (st,), ()) ==> {
                &&& final(st).history@ == st.history@
                &&& final(st).last_counter == st.last_counter
                &&& final(st).game_state == GameState::WaitingForBets
                &&& final(st)@.normal_bets.len() + final(st)@.leaked_bets.len() == 0
                &&& final(st)@.normal_cashouts.len() + final(st)@.leaked_cashouts.len() == 0
                &&& st.round_number < u32::MAX ==> final(st).round_number == st.round_number + 1
            },
        forall|st: &mut AppState| #[trigger]
            call_ensures(AppState::crash, (st, v), ()) ==> {
                &&& final(st).history@ == (if st.history@.len() < 500 {
                    st.history@.push(v)
                } else {
                    st.history@.skip(1).push(v)
                })
                &&& final(st)@ == (StateView {
                    game_state: GameState::Crashed,
                    history: final(st).history@,
                    ..st@
                })
            },
{
    assert forall|st: &mut AppState| #[trigger]
        call_ensures(AppState::crash, (st, v), ()) implies final(st).history@ == (
    if st.history@.len() < 500 {
        st.history@.push(v)
    } else {
        st.history@.skip(1).push(v)
    }) by {
        if st.history@.len() >= 500 {
            assert(st.history@.push(v).drop_first() =~= st.history@.skip(1).push(v));
        }
    }
}

} // verus!
