//! What holds of every message and of every frame.

use vstd::prelude::*;
use crate::double::{Double, ONE, ZERO};
use crate::state::{GameState, HISTORY_LIMIT};

verus! {

/// The kinds of message that do something to the state.
pub enum Effect {
    /// A new round starts.
    Board,
    /// The plane has crashed at a multiplier.
    Crash { mult: Double },
    /// The plane lifts off.
    LiftOff,
    /// The plane is in flight.
    Flight,
    /// A player's event.
    Player,
    /// None of these.
    Nothing,
}

/// What a message does to the state.
pub open spec fn effect_of(m: crate::message::ItemView) -> Effect {
    let mult = m.mult.unwrap_or(Double { bits: ONE });
    let time = m.time.unwrap_or(Double { bits: ZERO });
    if m.kind == Some("gBoard"@) {
        Effect::Board
    } else if m.kind == Some("response"@) && m.crashed == Some(true) {
        Effect::Crash { mult }
    } else if m.kind == Some("response"@) && !mult.is_nan() && mult.value()
        == crate::double::unit() && !time.is_nan() && time.value() == 0 {
        Effect::LiftOff
    } else if m.kind == Some("response"@) {
        Effect::Flight
    } else if m.kind == Some("g"@) {
        Effect::Player
    } else {
        Effect::Nothing
    }
}

/// The names of the kinds of message differ, and none is empty.
proof fn lemma_kinds()
    ensures
        "gBoard"@ != "response"@,
        "gBoard"@ != "g"@,
        "response"@ != "g"@,
        "gBoard"@.len() > 0,
        "response"@.len() > 0,
        "g"@.len() > 0,
        "c"@ != "b"@,
        "c"@.len() > 0,
        "b"@.len() > 0,
{
    reveal_strlit("gBoard");
    reveal_strlit("response");
    reveal_strlit("g");
    reveal_strlit("c");
    reveal_strlit("b");
    assert("gBoard"@.len() == 6);
    assert("response"@.len() == 8);
    assert("g"@.len() == 1);
    assert("c"@[0] == 'c');
    assert("b"@[0] == 'b');
}

/// The phase of the round after a message: a new round waits for bets, a lift-off starts the
/// flight, a crash ends it, and nothing else changes the phase.
pub proof fn lemma_phase(
    st: crate::state::StateView,
    m: crate::message::ItemView,
    label: Seq<char>,
    after_crash: bool,
)
    ensures
        crate::message::step(st, m, label, after_crash).0.game_state == (match effect_of(m) {
            Effect::Board => GameState::WaitingForBets,
            Effect::Crash { .. } => GameState::Crashed,
            Effect::LiftOff => GameState::Flying,
            _ => st.game_state,
        }),
{
    lemma_kinds();
}

/// The number of the round after a message: only a new round changes it, to the next.
pub proof fn lemma_round_number(
    st: crate::state::StateView,
    m: crate::message::ItemView,
    label: Seq<char>,
    after_crash: bool,
)
    ensures
        crate::message::step(st, m, label, after_crash).0.round_number == (if effect_of(
            m,
        ) is Board {
            crate::state::next_round(st.round_number)
        } else {
            st.round_number
        }),
{
    lemma_kinds();
}

/// The rounds in memory after a message: only a crash changes them, and it adds its round.
pub proof fn lemma_history(
    st: crate::state::StateView,
    m: crate::message::ItemView,
    label: Seq<char>,
    after_crash: bool,
)
    ensures
        crate::message::step(st, m, label, after_crash).0.history == (match effect_of(m) {
            Effect::Crash { mult } => crate::state::remembered(st.history, mult),
            _ => st.history,
        }),
{
    lemma_kinds();
}

/// Starting a round forgets the bets and cashouts of the one before, and keeps the rounds in
/// memory and the last counter.
pub proof fn lemma_board_clears(
    st: crate::state::StateView,
    m: crate::message::ItemView,
    label: Seq<char>,
    after_crash: bool,
)
    requires
        effect_of(m) is Board,
    ensures
        ({
            let after = crate::message::step(st, m, label, after_crash).0;
            &&& after.normal_bets.len() == 0
            &&& after.normal_cashouts.len() == 0
            &&& after.leaked_bets.len() == 0
            &&& after.leaked_cashouts.len() == 0
            &&& after.current_mult == (Double { bits: ONE })
            &&& after.current_time == (Double { bits: ZERO })
            &&& after.history == st.history
            &&& after.last_counter == st.last_counter
        }),
{
    lemma_kinds();
}

/// The bet that a message places, if it places one.
pub open spec fn bet_in(m: crate::message::ItemView, label: Seq<char>) -> Option<
    crate::event::BetView,
> {
    if m.kind == Some("g"@) && m.event == Some("b"@) {
        crate::event::bet_of(m.event_text.unwrap_or(Seq::empty()), label)
    } else {
        None
    }
}

/// The cashout that a message makes, if it makes one.
pub open spec fn cashout_in(m: crate::message::ItemView, label: Seq<char>) -> Option<
    crate::event::CashoutView,
> {
    if m.kind == Some("g"@) && m.event == Some("c"@) {
        crate::event::cashout_of(m.event_text.unwrap_or(Seq::empty()), label)
    } else {
        None
    }
}

/// A bet goes to the end of one of the two lists of bets: of the normal ones while the round
/// waits for bets, of the leaked ones once the plane has taken off. Apart from a new round,
/// nothing else changes these lists.
pub proof fn lemma_bets_sorted(
    st: crate::state::StateView,
    m: crate::message::ItemView,
    label: Seq<char>,
    after_crash: bool,
)
    requires
        !(effect_of(m) is Board),
    ensures
        ({
            let after = crate::message::step(st, m, label, after_crash).0;
            match bet_in(m, label) {
                Some(bet) => if st.game_state == GameState::WaitingForBets {
                    after.normal_bets == st.normal_bets.push(bet) && after.leaked_bets
                        == st.leaked_bets
                } else {
                    after.normal_bets == st.normal_bets && after.leaked_bets
                        == st.leaked_bets.push(bet)
                },
                None => after.normal_bets == st.normal_bets && after.leaked_bets
                    == st.leaked_bets,
            }
        }),
{
    lemma_kinds();
}

/// A cashout goes to the end of one of the two lists of cashouts: of the leaked ones once the
/// plane has crashed, be it in an earlier frame or in an earlier message of the same frame,
/// and of the normal ones otherwise. Apart from a new round, nothing else changes these
/// lists.
pub proof fn lemma_cashouts_sorted(
    st: crate::state::StateView,
    m: crate::message::ItemView,
    label: Seq<char>,
    after_crash: bool,
)
    requires
        !(effect_of(m) is Board),
    ensures
        ({
            let after = crate::message::step(st, m, label, after_crash).0;
            match cashout_in(m, label) {
                Some(cashout) => if st.game_state == GameState::Crashed || after_crash {
                    after.normal_cashouts == st.normal_cashouts && after.leaked_cashouts
                        == st.leaked_cashouts.push(cashout)
                } else {
                    after.normal_cashouts == st.normal_cashouts.push(cashout)
                        && after.leaked_cashouts == st.leaked_cashouts
                },
                None => after.normal_cashouts == st.normal_cashouts && after.leaked_cashouts
                    == st.leaked_cashouts,
            }
        }),
{
    lemma_kinds();
}

/// Behind a crash in a frame no cashout of the same frame counts as normal: the normal
/// cashouts stay as they are, or a new round clears them.
pub proof fn lemma_no_normal_cashout_after_crash(
    st: crate::state::StateView,
    items: Seq<crate::message::ItemView>,
    labels: Seq<Seq<char>>,
    c: int,
    k: nat,
)
    requires
        0 <= c < k <= items.len(),
        items[c].is_crash(),
    ensures
        ({
            let at = crate::message::run(st, items, labels, (c + 1) as nat).0;
            let now = crate::message::run(st, items, labels, k).0;
            now.normal_cashouts == at.normal_cashouts || now.normal_cashouts.len() == 0
        }),
    decreases k,
{
    if k > c + 1 {
        lemma_no_normal_cashout_after_crash(st, items, labels, c, (k - 1) as nat);
        let before = crate::message::run(st, items, labels, (k - 1) as nat).0;
        let m = items[k - 1];
        assert(crate::message::crash_before(items, k - 1));
        if effect_of(m) is Board {
            lemma_board_clears(before, m, labels[k - 1], true);
        } else {
            lemma_cashouts_sorted(before, m, labels[k - 1], true);
        }
    }
}

/// The multipliers of the crashes that the first `k` messages tell of, in order.
pub open spec fn crashes_in(items: Seq<crate::message::ItemView>, k: nat) -> Seq<Double>
    decreases k,
{
    if k == 0 {
        Seq::empty()
    } else {
        let before = crashes_in(items, (k - 1) as nat);
        match effect_of(items[k - 1]) {
            Effect::Crash { mult } => before.push(mult),
            _ => before,
        }
    }
}

/// How many of `total` rounds are in memory, if there were `kept` before the later ones.
pub open spec fn kept_of(kept: nat, total: nat) -> nat {
    if total <= HISTORY_LIMIT {
        total
    } else if kept <= HISTORY_LIMIT {
        HISTORY_LIMIT as nat
    } else {
        kept
    }
}

/// The last `n` elements of `s`.
pub open spec fn latest(s: Seq<Double>, n: nat) -> Seq<Double> {
    s.skip(s.len() - n)
}

/// The rounds in memory are always the latest ones, oldest first: all of them up to
/// [`HISTORY_LIMIT`], and from then on that many, or as many as there were to begin with.
pub proof fn lemma_history_is_latest(
    st: crate::state::StateView,
    items: Seq<crate::message::ItemView>,
    labels: Seq<Seq<char>>,
    k: nat,
)
    requires
        k <= items.len(),
    ensures
        ({
            let all = st.history + crashes_in(items, k);
            crate::message::run(st, items, labels, k).0.history == latest(
                all,
                kept_of(st.history.len(), all.len()),
            )
        }),
    decreases k,
{
    let all = st.history + crashes_in(items, k);
    if k == 0 {
        assert(all =~= st.history);
        assert(latest(all, all.len()) =~= all);
    } else {
        let j = (k - 1) as nat;
        lemma_history_is_latest(st, items, labels, j);
        let before = crate::message::run(st, items, labels, j).0;
        let m = items[k - 1];
        lemma_history(before, m, labels[k - 1], crate::message::crash_before(items, k - 1));
        match effect_of(m) {
            Effect::Crash { mult } => {
                let old_all = st.history + crashes_in(items, j);
                assert(all =~= old_all.push(mult));
                assert(crate::state::remembered(before.history, mult) =~= latest(
                    all,
                    kept_of(st.history.len(), all.len()),
                ));
            },
            _ => {},
        }
    }
}

/// No more rounds are kept in memory than [`HISTORY_LIMIT`], or than there were before, and
/// none is forgotten without a later one taking its place.
pub proof fn lemma_history_bounded(st: crate::state::StateView, f: crate::message::FrameView)
    ensures
        ({
            let after = crate::message::frame_step(st, f).0.history.len();
            &&& st.history.len() <= after
            &&& after <= HISTORY_LIMIT || after == st.history.len()
        }),
{
    if f.items.len() > 0 {
        lemma_history_is_latest(
            crate::message::noted(st, f),
            f.items,
            crate::message::frame_labels(f),
            f.items.len(),
        );
    }
}

/// A frame with finite numbers keeps a state valid, and each of its reports compares a round
/// with finite numbers only.
pub proof fn lemma_stays_valid(st: crate::state::StateView, f: crate::message::FrameView)
    requires
        st.valid(),
        f.numbers_finite(),
    ensures
        crate::message::frame_step(st, f).0.valid(),
        crate::message::reports_finite(crate::message::frame_step(st, f).1),
{
    if f.items.len() > 0 {
        let start = crate::message::noted(st, f);
        let labels = crate::message::frame_labels(f);
        lemma_run_valid(start, f, labels, f.items.len());
        let pre = crate::message::preamble(st, f);
        let news = crate::message::run(start, f.items, labels, f.items.len()).1;
        lemma_reports_add(pre, news);
    }
}

proof fn lemma_reports_add(
    a: Seq<crate::message::NoticeView>,
    b: Seq<crate::message::NoticeView>,
)
    requires
        crate::message::reports_finite(a),
        crate::message::reports_finite(b),
    ensures
        crate::message::reports_finite(a + b),
{
    let s = a + b;
    assert forall|i: int| 0 <= i < s.len() implies ((
    #[trigger] s[i]) matches crate::message::NoticeView::Report { history, .. }
        ==> crate::state::all_finite(history)) by {
        if i < a.len() {
            assert(s[i] == a[i]);
        } else {
            assert(s[i] == b[i - a.len()]);
        }
    }
}

proof fn lemma_run_valid(
    st: crate::state::StateView,
    f: crate::message::FrameView,
    labels: Seq<Seq<char>>,
    k: nat,
)
    requires
        k <= f.items.len(),
        st.valid(),
        f.numbers_finite(),
    ensures
        crate::message::run(st, f.items, labels, k).0.valid(),
        crate::message::reports_finite(crate::message::run(st, f.items, labels, k).1),
    decreases k,
{
    if k > 0 {
        let j = (k - 1) as nat;
        lemma_run_valid(st, f, labels, j);
        let (before, told) = crate::message::run(st, f.items, labels, j);
        let m = f.items[k - 1];
        let late = crate::message::crash_before(f.items, k - 1);
        let (after, news) = crate::message::step(before, m, labels[k - 1], late);
        assert(m.numbers_finite());
        crate::double::lemma_named_values();
        lemma_history(before, m, labels[k - 1], late);
        lemma_kinds();
        assert(after.valid());
        assert(crate::message::reports_finite(news));
        lemma_reports_add(told, news);
    }
}

/// A frame's messages leave the last counter alone: after a frame it is the frame's counter,
/// or, where that is 0, what it was.
pub proof fn lemma_last_counter(st: crate::state::StateView, f: crate::message::FrameView)
    requires
        f.items.len() > 0,
    ensures
        crate::message::frame_step(st, f).0.last_counter == (if crate::message::frame_counter(
            f,
        ).1 > 0 {
            Some(crate::message::frame_counter(f).1 as u64)
        } else {
            st.last_counter
        }),
{
    lemma_run_keeps_counter(
        crate::message::noted(st, f),
        f.items,
        crate::message::frame_labels(f),
        f.items.len(),
    );
}

proof fn lemma_run_keeps_counter(
    st: crate::state::StateView,
    items: Seq<crate::message::ItemView>,
    labels: Seq<Seq<char>>,
    k: nat,
)
    ensures
        crate::message::run(st, items, labels, k).0.last_counter == st.last_counter,
    decreases k,
{
    if k > 0 {
        lemma_run_keeps_counter(st, items, labels, (k - 1) as nat);
    }
}

/// Whether a notice is a report on a round.
pub open spec fn is_report(n: crate::message::NoticeView) -> bool {
    n is Report
}

/// There is one report for each crash, and no other report.
pub proof fn lemma_one_report_per_crash(
    st: crate::state::StateView,
    f: crate::message::FrameView,
)
    ensures
        crate::message::frame_step(st, f).1.filter(
            |n: crate::message::NoticeView| is_report(n),
        ).len() == crashes_in(f.items, f.items.len()).len(),
{
    let p = |n: crate::message::NoticeView| is_report(n);
    reveal(Seq::filter);
    if f.items.len() > 0 {
        let start = crate::message::noted(st, f);
        let labels = crate::message::frame_labels(f);
        lemma_run_reports(start, f.items, labels, f.items.len());
        let pre = crate::message::preamble(st, f);
        pre.lemma_all_neg_filter_empty(p);
        Seq::filter_distributes_over_add(
            pre,
            crate::message::run(start, f.items, labels, f.items.len()).1,
            p,
        );
    }
}

proof fn lemma_run_reports(
    st: crate::state::StateView,
    items: Seq<crate::message::ItemView>,
    labels: Seq<Seq<char>>,
    k: nat,
)
    requires
        k <= items.len(),
    ensures
        crate::message::run(st, items, labels, k).1.filter(
            |n: crate::message::NoticeView| is_report(n),
        ).len() == crashes_in(items, k).len(),
    decreases k,
{
    let p = |n: crate::message::NoticeView| is_report(n);
    if k == 0 {
        reveal(Seq::filter);
    } else {
        let j = (k - 1) as nat;
        lemma_run_reports(st, items, labels, j);
        let (before, told) = crate::message::run(st, items, labels, j);
        let m = items[k - 1];
        let news = crate::message::step(
            before,
            m,
            labels[k - 1],
            crate::message::crash_before(items, k - 1),
        ).1;
        Seq::filter_distributes_over_add(told, news, p);
        lemma_kinds();
        if m.is_crash() {
            let quiet = seq![news[0]];
            let loud = seq![news[1]];
            assert(news =~= quiet + loud);
            Seq::filter_distributes_over_add(quiet, loud, p);
            quiet.lemma_all_neg_filter_empty(p);
            reveal(Seq::filter);
            assert(loud.drop_last() =~= Seq::empty());
            assert(loud.filter(p).len() == 1);
        } else {
            news.lemma_all_neg_filter_empty(p);
        }
    }
}

/// The report on a crash gives the multiplier and the time of the crash and every bet and
/// cashout that the round has had, and the rounds that it is compared with end with it.
pub proof fn lemma_report_contents(
    st: crate::state::StateView,
    m: crate::message::ItemView,
    label: Seq<char>,
    after_crash: bool,
)
    requires
        m.is_crash(),
    ensures
        ({
            let (after, news) = crate::message::step(st, m, label, after_crash);
            let mult = m.mult.unwrap_or(Double { bits: ONE });
            let time = m.time.unwrap_or(Double { bits: ZERO });
            &&& news.len() == 2
            &&& news[0] == (crate::message::NoticeView::Crash { mult, time })
            &&& news[1] == (crate::message::NoticeView::Report {
                result: st.result(mult, time),
                history: after.history,
            })
            &&& after.history.len() > 0
            &&& after.history.last() == mult
        }),
{
    lemma_kinds();
}

/// Whether the message `j` begins a new round or a flight behind a crash, and no crash stands
/// between it and the message `k`.
pub open spec fn crash_is_over(items: Seq<crate::message::ItemView>, j: int, k: int) -> bool {
    &&& 0 <= j < k
    &&& effect_of(items[j]) is Board || effect_of(items[j]) is LiftOff
    &&& crate::message::crash_before(items, j)
    &&& forall|l: int| j < l < k ==> !(#[trigger] items[l]).is_crash()
}

/// Whether a message with the counter `label` is a cashout.
pub open spec fn is_cashout(m: crate::message::ItemView, label: Seq<char>) -> bool {
    &&& m.kind == Some("g"@)
    &&& m.event == Some("c"@)
    &&& crate::event::cashout_of(m.event_text.unwrap_or(Seq::empty()), label) is Some
}

/// Whether no cashout in `items` comes once a crash before it in `items` is over.
pub open spec fn crash_lasts(
    items: Seq<crate::message::ItemView>,
    labels: Seq<Seq<char>>,
) -> bool {
    forall|j: int, k: int|
        k < items.len() && #[trigger] crash_is_over(items, j, k) ==> !is_cashout(
            items[k],
            labels[k],
        )
}

/// What the first `k` messages do if each comes on its own.
pub open spec fn run_apart(
    st: crate::state::StateView,
    items: Seq<crate::message::ItemView>,
    labels: Seq<Seq<char>>,
    k: nat,
) -> (crate::state::StateView, Seq<crate::message::NoticeView>)
    decreases k,
{
    if k == 0 {
        (st, Seq::empty())
    } else {
        let (before, told) = run_apart(st, items, labels, (k - 1) as nat);
        let (after, news) = crate::message::step(before, items[k - 1], labels[k - 1], false);
        (after, told + news)
    }
}

/// The messages of a frame do together what each does on its own, unless a cashout among them
/// comes after a crash and a new round or lift-off behind that crash.
pub proof fn lemma_batch_as_messages(
    st: crate::state::StateView,
    items: Seq<crate::message::ItemView>,
    labels: Seq<Seq<char>>,
)
    requires
        crash_lasts(items, labels),
    ensures
        crate::message::run(st, items, labels, items.len()) == run_apart(
            st,
            items,
            labels,
            items.len(),
        ),
{
    lemma_prefix_as_messages(st, items, labels, items.len());
}

proof fn lemma_prefix_as_messages(
    st: crate::state::StateView,
    items: Seq<crate::message::ItemView>,
    labels: Seq<Seq<char>>,
    k: nat,
)
    requires
        k <= items.len(),
        crash_lasts(items, labels),
    ensures
        crate::message::run(st, items, labels, k) == run_apart(st, items, labels, k),
        crate::message::crash_before(items, k as int) ==> run_apart(
            st,
            items,
            labels,
            k,
        ).0.game_state == GameState::Crashed || exists|j: int|
            #[trigger] crash_is_over(items, j, k as int),
    decreases k,
{
    if k > 0 {
        let last = k - 1;
        lemma_prefix_as_messages(st, items, labels, last as nat);
        let before = run_apart(st, items, labels, last as nat).0;
        let m = items[last];
        let late = crate::message::crash_before(items, last);
        lemma_phase(before, m, labels[last], late);
        lemma_kinds();
        if late && before.game_state != GameState::Crashed {
            let j = choose|j: int| #[trigger] crash_is_over(items, j, last);
            assert(!is_cashout(m, labels[last]));
            if !m.is_crash() {
                assert(crash_is_over(items, j, k as int));
            }
        }
        if late && (effect_of(m) is Board || effect_of(m) is LiftOff) {
            assert(crash_is_over(items, last, k as int));
        }
    }
}

/// What the first `k` of some frames do, one after the other.
pub open spec fn frames_run(
    st: crate::state::StateView,
    frames: Seq<crate::message::FrameView>,
    k: nat,
) -> crate::state::StateView
    decreases k,
{
    if k == 0 {
        st
    } else {
        crate::message::frame_step(frames_run(st, frames, (k - 1) as nat), frames[k - 1]).0
    }
}

/// The state `st` with the last counter `c`.
pub open spec fn with_counter(st: crate::state::StateView, c: Option<u64>) -> crate::state::StateView {
    crate::state::StateView { last_counter: c, ..st }
}

/// A frame does to the state, but for the last counter, what frames of one message each do
/// that carry its messages under the same counters, unless a cashout in it comes after a crash
/// and a new round or lift-off behind that crash.
pub proof fn lemma_batch_as_frames(
    st: crate::state::StateView,
    f: crate::message::FrameView,
    frames: Seq<crate::message::FrameView>,
)
    requires
        f.items.len() > 0,
        crash_lasts(f.items, crate::message::frame_labels(f)),
        frames.len() == f.items.len(),
        forall|i: int|
            0 <= i < frames.len() ==> (#[trigger] frames[i]).items == seq![f.items[i]]
                && crate::message::frame_labels(frames[i])[0] == crate::message::frame_labels(
                f,
            )[i],
    ensures
        with_counter(crate::message::frame_step(st, f).0, None) == with_counter(
            frames_run(st, frames, frames.len()),
            None,
        ),
{
    let labels = crate::message::frame_labels(f);
    let start = crate::message::noted(st, f);
    lemma_batch_as_messages(start, f.items, labels);
    lemma_frames_apart(st, start, f.items, labels, frames, frames.len());
}

proof fn lemma_frames_apart(
    st: crate::state::StateView,
    start: crate::state::StateView,
    items: Seq<crate::message::ItemView>,
    labels: Seq<Seq<char>>,
    frames: Seq<crate::message::FrameView>,
    k: nat,
)
    requires
        k <= frames.len() == items.len(),
        with_counter(st, None) == with_counter(start, None),
        forall|i: int|
            0 <= i < frames.len() ==> (#[trigger] frames[i]).items == seq![items[i]]
                && crate::message::frame_labels(frames[i])[0] == labels[i],
    ensures
        with_counter(run_apart(start, items, labels, k).0, None) == with_counter(
            frames_run(st, frames, k),
            None,
        ),
    decreases k,
{
    if k > 0 {
        let j = (k - 1) as nat;
        lemma_frames_apart(st, start, items, labels, frames, j);
        let a = run_apart(start, items, labels, j).0;
        let b = frames_run(st, frames, j);
        let one = frames[k - 1];
        let c = crate::message::noted(b, one);
        reveal_with_fuel(crate::message::run, 2);
        assert(!crate::message::crash_before(one.items, 0));
        assert(crate::message::frame_step(b, one).0 == crate::message::step(
            c,
            items[k - 1],
            labels[k - 1],
            false,
        ).0);
        assert(with_counter(a, None) == with_counter(c, None));
        lemma_step_keeps_apart(a, c, items[k - 1], labels[k - 1]);
    }
}

/// What a message does, but for the last counter, does not depend on the last counter.
proof fn lemma_step_keeps_apart(
    a: crate::state::StateView,
    b: crate::state::StateView,
    m: crate::message::ItemView,
    label: Seq<char>,
)
    requires
        with_counter(a, None) == with_counter(b, None),
    ensures
        with_counter(crate::message::step(a, m, label, false).0, None) == with_counter(
            crate::message::step(b, m, label, false).0,
            None,
        ),
{
}

/// A text that is not JSON, or that holds no messages, changes nothing and tells nothing.
pub proof fn lemma_no_messages(st: crate::state::StateView, raw: Seq<char>)
    requires
        crate::json::parsed(raw) matches Some(j) ==> crate::message::frame_of(j) is None,
    ensures
        crate::message::message_step(st, raw).0 == st,
        crate::message::message_step(st, raw).1.len() == 0,
{
}

/// A bet is told once, as it was read, and told as a leak exactly where the round no longer
/// waits for bets. It is kept with the leaked bets if it is told as a leak, and with the normal
/// ones if not, and changes nothing else. A bet that cannot be read is told, and nothing more.
pub proof fn lemma_bet_told(
    st: crate::state::StateView,
    m: crate::message::ItemView,
    label: Seq<char>,
    after_crash: bool,
)
    requires
        m.kind == Some("g"@),
        m.event == Some("b"@),
    ensures
        ({
            let (after, news) = crate::message::step(st, m, label, after_crash);
            let text = m.event_text.unwrap_or(Seq::empty());
            let late = st.game_state != GameState::WaitingForBets;
            match crate::event::bet_of(text, label) {
                Some(bet) => {
                    &&& news == seq![crate::message::NoticeView::Bet { bet, leak: late }]
                    &&& late ==> after == (crate::state::StateView {
                        leaked_bets: st.leaked_bets.push(bet),
                        ..st
                    })
                    &&& !late ==> after == (crate::state::StateView {
                        normal_bets: st.normal_bets.push(bet),
                        ..st
                    })
                },
                None => news == seq![crate::message::NoticeView::BadBet { text }] && after == st,
            }
        }),
{
    lemma_kinds();
}

/// A cashout is told once, as it was read, and told as a leak exactly where the plane has
/// crashed, be it in an earlier message of the same frame. It is kept with the leaked cashouts
/// if it is told as a leak, and with the normal ones if not, and changes nothing else. A
/// cashout that cannot be read is told, and nothing more.
pub proof fn lemma_cashout_told(
    st: crate::state::StateView,
    m: crate::message::ItemView,
    label: Seq<char>,
    after_crash: bool,
)
    requires
        m.kind == Some("g"@),
        m.event == Some("c"@),
    ensures
        ({
            let (after, news) = crate::message::step(st, m, label, after_crash);
            let text = m.event_text.unwrap_or(Seq::empty());
            let late = after_crash || st.game_state == GameState::Crashed;
            match crate::event::cashout_of(text, label) {
                Some(cashout) => {
                    &&& news == seq![crate::message::NoticeView::Cashout { cashout, leak: late }]
                    &&& late ==> after == (crate::state::StateView {
                        leaked_cashouts: st.leaked_cashouts.push(cashout),
                        ..st
                    })
                    &&& !late ==> after == (crate::state::StateView {
                        normal_cashouts: st.normal_cashouts.push(cashout),
                        ..st
                    })
                },
                None => news == seq![crate::message::NoticeView::BadCashout { text }] && after
                    == st,
            }
        }),
{
    lemma_kinds();
}

/// Whatever a message is, a bet or cashout that it tells of is the last of the list that it
/// was added to, and that is the list of the leaked ones exactly where it is told as a leak.
pub proof fn lemma_leaks_are_told_as_kept(
    st: crate::state::StateView,
    m: crate::message::ItemView,
    label: Seq<char>,
    after_crash: bool,
    i: int,
)
    requires
        0 <= i < crate::message::step(st, m, label, after_crash).1.len(),
    ensures
        ({
            let (after, news) = crate::message::step(st, m, label, after_crash);
            &&& news[i] matches crate::message::NoticeView::Bet { bet, leak } ==> {
                &&& news.len() == 1
                &&& leak <==> after.leaked_bets.len() == st.leaked_bets.len() + 1
                &&& !leak <==> after.normal_bets.len() == st.normal_bets.len() + 1
                &&& leak ==> after.leaked_bets.last() == bet
                &&& !leak ==> after.normal_bets.last() == bet
            }
            &&& news[i] matches crate::message::NoticeView::Cashout { cashout, leak } ==> {
                &&& news.len() == 1
                &&& leak <==> after.leaked_cashouts.len() == st.leaked_cashouts.len() + 1
                &&& !leak <==> after.normal_cashouts.len() == st.normal_cashouts.len() + 1
                &&& leak ==> after.leaked_cashouts.last() == cashout
                &&& !leak ==> after.normal_cashouts.last() == cashout
            }
        }),
{
    lemma_kinds();
}

/// A message on the flight that tells of no crash tells of one thing: the lift-off, where the
/// multiplier is one and the time zero, or the flight. What it tells are the multiplier and the
/// time of the message, one and zero standing for what is missing, and these are the current
/// ones from then on.
pub proof fn lemma_flight_told(
    st: crate::state::StateView,
    m: crate::message::ItemView,
    label: Seq<char>,
    after_crash: bool,
)
    requires
        m.kind == Some("response"@),
        m.crashed != Some(true),
    ensures
        ({
            let (after, news) = crate::message::step(st, m, label, after_crash);
            let mult = after.current_mult;
            let time = after.current_time;
            let starts = !mult.is_nan() && mult.value() == crate::double::unit() && !time.is_nan()
                && time.value() == 0;
            &&& m.mult matches Some(v) ==> mult == v
            &&& m.mult is None ==> mult.value() == crate::double::unit()
            &&& m.time matches Some(s) ==> time == s
            &&& m.time is None ==> time.bits == 0
            &&& starts ==> news == seq![crate::message::NoticeView::LiftOff { mult, time }]
            &&& !starts ==> news == seq![crate::message::NoticeView::Flight { mult, time }]
            &&& after == (crate::state::StateView {
                current_mult: mult,
                current_time: time,
                game_state: if starts {
                    GameState::Flying
                } else {
                    st.game_state
                },
                ..st
            })
        }),
{
    lemma_kinds();
    crate::double::lemma_named_values();
}

/// A crash is told with its multiplier and time, and then reported, with all that the round
/// has had. Its multiplier joins the rounds in memory, of which the oldest is forgotten if
/// there were five hundred or more. Apart from that the round is over and nothing changes.
pub proof fn lemma_crash_told(
    st: crate::state::StateView,
    m: crate::message::ItemView,
    label: Seq<char>,
    after_crash: bool,
)
    requires
        m.kind == Some("response"@),
        m.crashed == Some(true),
    ensures
        ({
            let (after, news) = crate::message::step(st, m, label, after_crash);
            let mult = after.history.last();
            &&& after.history == (if st.history.len() < 500 {
                st.history.push(mult)
            } else {
                st.history.skip(1).push(mult)
            })
            &&& m.mult matches Some(v) ==> mult == v
            &&& m.mult is None ==> mult.value() == crate::double::unit()
            &&& after == (crate::state::StateView {
                game_state: GameState::Crashed,
                history: after.history,
                ..st
            })
            &&& news.len() == 2
            &&& news[0] matches crate::message::NoticeView::Crash { mult: v, time } && {
                &&& v == mult
                &&& m.time matches Some(s) ==> time == s
                &&& m.time is None ==> time.bits == 0
                &&& news[1] matches crate::message::NoticeView::Report { result, history } && {
                    &&& history == after.history
                    &&& result.crash_multiplier == mult
                    &&& result.flight_time == time
                    &&& result.normal_bets == st.normal_bets
                    &&& result.normal_cashouts == st.normal_cashouts
                    &&& result.leaked_bets == st.leaked_bets
                    &&& result.leaked_cashouts == st.leaked_cashouts
                }
            }
        }),
{
    lemma_kinds();
    crate::double::lemma_named_values();
    let after = crate::message::step(st, m, label, after_crash).0;
    let mult = m.mult.unwrap_or(Double { bits: ONE });
    if st.history.len() >= 500 {
        assert(after.history =~= st.history.skip(1).push(mult));
    }
}

/// A new round is told with its number, which is one more than that of the round before, or 0
/// behind the largest.
pub proof fn lemma_board_told(
    st: crate::state::StateView,
    m: crate::message::ItemView,
    label: Seq<char>,
    after_crash: bool,
)
    requires
        m.kind == Some("gBoard"@),
    ensures
        ({
            let (after, news) = crate::message::step(st, m, label, after_crash);
            &&& news == seq![crate::message::NoticeView::Board { round: after.round_number }]
            &&& st.round_number < u32::MAX ==> after.round_number == st.round_number + 1
            &&& st.round_number == u32::MAX ==> after.round_number == 0
            &&& after.game_state == GameState::WaitingForBets
            &&& after.normal_bets.len() + after.leaked_bets.len() == 0
            &&& after.normal_cashouts.len() + after.leaked_cashouts.len() == 0
            &&& after.current_mult.value() == crate::double::unit()
            &&& after.current_time.bits == 0
            &&& after.history == st.history
            &&& after.last_counter == st.last_counter
        }),
{
    lemma_kinds();
    crate::double::lemma_named_values();
}

/// A message or a player's event of no known kind is told under its counter, a message without
/// a kind is not told, and none of them changes anything.
pub proof fn lemma_unknown_told(
    st: crate::state::StateView,
    m: crate::message::ItemView,
    label: Seq<char>,
    after_crash: bool,
)
    requires
        m.kind != Some("gBoard"@),
        m.kind != Some("response"@),
        m.kind == Some("g"@) ==> m.event != Some("b"@) && m.event != Some("c"@),
    ensures
        ({
            let (after, news) = crate::message::step(st, m, label, after_crash);
            &&& after == st
            &&& match m.kind {
                Some(kind) => if kind == "g"@ {
                    news == seq![
                        crate::message::NoticeView::UnknownEvent {
                            kind: m.event.unwrap_or(Seq::empty()),
                            counter: label,
                        },
                    ]
                } else if kind.len() > 0 {
                    news == seq![
                        crate::message::NoticeView::UnknownMessage { kind, counter: label },
                    ]
                } else {
                    news.len() == 0
                },
                None => news.len() == 0,
            }
        }),
{
    lemma_kinds();
}

/// What the first messages of a frame do does not depend on the ones behind them.
proof fn lemma_prefix(
    st: crate::state::StateView,
    items: Seq<crate::message::ItemView>,
    labels: Seq<Seq<char>>,
    m: crate::message::ItemView,
    label: Seq<char>,
    k: nat,
)
    requires
        k <= items.len() == labels.len(),
    ensures
        crate::message::run(st, items.push(m), labels.push(label), k) == crate::message::run(
            st,
            items,
            labels,
            k,
        ),
    decreases k,
{
    if k > 0 {
        let more = items.push(m);
        lemma_prefix(st, items, labels, m, label, (k - 1) as nat);
        assert(more[k - 1] == items[k - 1]);
        assert(labels.push(label)[k - 1] == labels[k - 1]);
        lemma_crash_before(items, m, k - 1);
    }
}

proof fn lemma_crash_before(
    items: Seq<crate::message::ItemView>,
    m: crate::message::ItemView,
    k: int,
)
    requires
        0 <= k <= items.len(),
    ensures
        crate::message::crash_before(items.push(m), k) == crate::message::crash_before(items, k),
{
    let more = items.push(m);
    if crate::message::crash_before(items, k) {
        let i = choose|i: int| 0 <= i < k && i < items.len() && (#[trigger] items[i]).is_crash();
        assert(more[i].is_crash());
    }
    if crate::message::crash_before(more, k) {
        let i = choose|i: int| 0 <= i < k && i < more.len() && (#[trigger] more[i]).is_crash();
        assert(items[i].is_crash());
    }
}

/// One more message in a frame acts on what the ones before it leave, and is told behind them.
/// It counts as behind a crash exactly where one of them tells of a crash. No messages do
/// nothing.
pub proof fn lemma_one_more_message(
    st: crate::state::StateView,
    items: Seq<crate::message::ItemView>,
    labels: Seq<Seq<char>>,
    m: crate::message::ItemView,
    label: Seq<char>,
)
    requires
        items.len() == labels.len(),
    ensures
        crate::message::run(st, items, labels, 0) == (
            st,
            Seq::<crate::message::NoticeView>::empty(),
        ),
        ({
            let n = items.len();
            let (before, told) = crate::message::run(st, items, labels, n);
            let late = exists|i: int|
                0 <= i < n && (#[trigger] items[i]).kind == Some("response"@) && items[i].crashed
                    == Some(true);
            let (after, news) = crate::message::step(before, m, label, late);
            crate::message::run(st, items.push(m), labels.push(label), n + 1) == (
                after,
                told + news,
            )
        }),
{
    let n = items.len();
    let more = items.push(m);
    lemma_prefix(st, items, labels, m, label, n);
    lemma_crash_before(items, m, n as int);
    assert(more[n as int] == m);
    assert(labels.push(label)[n as int] == label);
    if crate::message::crash_before(items, n as int) {
        let i = choose|i: int|
            0 <= i < n && i < items.len() && (#[trigger] items[i]).is_crash();
        assert(items[i].kind == Some("response"@) && items[i].crashed == Some(true));
    }
    if exists|i: int|
        0 <= i < n && (#[trigger] items[i]).kind == Some("response"@) && items[i].crashed == Some(
            true,
        ) {
        let i = choose|i: int|
            0 <= i < n && (#[trigger] items[i]).kind == Some("response"@) && items[i].crashed
                == Some(true);
        assert(items[i].is_crash());
    }
}

/// The counter of a frame: its text and its value, or `UNK` and 0 where the frame has none.
pub open spec fn has_counter(f: crate::message::FrameView, text: Seq<char>, value: nat) -> bool {
    match crate::counter::counter_of(f.counter_field) {
        Some(c) => c == (text, value),
        None => text == "UNK"@ && value == 0,
    }
}

/// The state `st` when the counter `value` has been noted. The counter 0 is not noted.
pub open spec fn counted(st: crate::state::StateView, value: nat) -> crate::state::StateView {
    with_counter(
        st,
        if value == 0 {
            st.last_counter
        } else {
            Some(value as u64)
        },
    )
}

/// A single message in a frame acts under the frame's counter as it was written, once that is
/// noted. If counters were passed over since the last one, that is told first.
pub proof fn lemma_single_message(
    st: crate::state::StateView,
    f: crate::message::FrameView,
    text: Seq<char>,
    value: nat,
)
    requires
        f.items.len() == 1,
        has_counter(f, text, value),
    ensures
        ({
            let (after, told) = crate::message::frame_step(st, f);
            let (alone, news) = crate::message::step(counted(st, value), f.items[0], text, false);
            &&& after == alone
            &&& match st.last_counter {
                Some(last) => if last < u64::MAX && value > last + 1 {
                    told == seq![
                        crate::message::NoticeView::Gap {
                            last,
                            counter: text,
                            missed: (value - last - 1) as nat,
                        },
                    ] + news
                } else if last == u64::MAX && value > 0 {
                    told == seq![
                        crate::message::NoticeView::Gap { last, counter: text, missed: value },
                    ] + news
                } else {
                    told == news
                },
                None => told == news,
            }
        }),
{
    lemma_counter_fits(f);
    let m = f.items[0];
    let start = crate::message::noted(st, f);
    let labels = crate::message::frame_labels(f);
    reveal_with_fuel(crate::message::run, 2);
    assert(!crate::message::crash_before(f.items, 0));
    assert(labels[0] == text);
    assert(start == counted(st, value));
    let (alone, news) = crate::message::step(start, m, text, false);
    assert(crate::message::run(start, f.items, labels, 1).1 =~= news);
    assert(crate::message::frame_step(st, f).0 == alone);
    assert(crate::message::frame_step(st, f).1 =~= crate::message::preamble(st, f) + news);
    assert(Seq::<crate::message::NoticeView>::empty() + news =~= news);
}

/// A counter is at most the largest.
proof fn lemma_counter_fits(f: crate::message::FrameView)
    ensures
        crate::message::frame_counter(f).1 <= u64::MAX,
{
}

/// Several messages in a frame are told to be several, with their number and the frame's
/// counter, and act one after the other once that counter is noted, under counters that run up
/// to it, or up from 0 where it is too small for that.
pub proof fn lemma_several_messages(
    st: crate::state::StateView,
    f: crate::message::FrameView,
    text: Seq<char>,
    value: nat,
    labels: Seq<Seq<char>>,
)
    requires
        f.items.len() > 1,
        has_counter(f, text, value),
        labels.len() == f.items.len(),
        forall|i: int|
            0 <= i < labels.len() ==> #[trigger] labels[i] == crate::number::numeral(
                if value + 1 >= labels.len() {
                    (value + 1 - labels.len() + i) as nat
                } else {
                    i as nat
                },
                16,
            ),
    ensures
        ({
            let (after, told) = crate::message::frame_step(st, f);
            let (last, news) = crate::message::run(
                counted(st, value),
                f.items,
                labels,
                f.items.len(),
            );
            &&& after == last
            &&& told == seq![
                crate::message::NoticeView::Batch { count: f.items.len(), counter: text },
            ] + news
        }),
{
    lemma_counter_fits(f);
    assert(crate::message::noted(st, f) == counted(st, value));
    assert(crate::message::frame_labels(f) =~= labels);
}

/// A frame without messages does nothing.
pub proof fn lemma_empty_frame(st: crate::state::StateView, f: crate::message::FrameView)
    requires
        f.items.len() == 0,
    ensures
        crate::message::frame_step(st, f).0 == st,
        crate::message::frame_step(st, f).1.len() == 0,
{
}

/// A JSON object with an array of messages under `M` does what a frame of these messages does,
/// under the counter field `C`, if that is a string, or an empty one.
pub proof fn lemma_messages_read(
    st: crate::state::StateView,
    raw: Seq<char>,
    members: Map<Seq<char>, crate::json::Json>,
    list: Seq<crate::json::Json>,
    f: crate::message::FrameView,
)
    requires
        crate::json::parsed(raw) == Some(crate::json::Json::Object(members)),
        members.contains_key("M"@),
        members["M"@] == crate::json::Json::Array(list),
        list.len() > 0,
        f.items.len() == list.len(),
        forall|i: int|
            0 <= i < list.len() ==> #[trigger] f.items[i] == crate::message::item_of(list[i]),
        if members.contains_key("C"@) && members["C"@] is Text {
            members["C"@] == crate::json::Json::Text(f.counter_field)
        } else {
            f.counter_field.len() == 0
        },
    ensures
        crate::message::message_step(st, raw) == crate::message::frame_step(st, f),
{
    assert(f.items =~= list.map_values(|e: crate::json::Json| crate::message::item_of(e)));
    if !(members.contains_key("C"@) && members["C"@] is Text) {
        assert(f.counter_field =~= Seq::empty());
    }
}

/// A text that is not JSON does nothing, and neither does one without an array of messages
/// under `M`, or with an empty one.
pub proof fn lemma_nothing_read(st: crate::state::StateView, raw: Seq<char>)
    requires
        crate::json::parsed(raw) matches Some(crate::json::Json::Object(members))
            ==> members.contains_key("M"@) ==> (
        members["M"@] matches crate::json::Json::Array(list) ==> list.len() == 0),
    ensures
        crate::message::message_step(st, raw).0 == st,
        crate::message::message_step(st, raw).1.len() == 0,
{
}

/// What a JSON object has under `key`, if it has anything there.
pub open spec fn under(members: Map<Seq<char>, crate::json::Json>, key: Seq<char>) -> Option<
    crate::json::Json,
> {
    if members.contains_key(key) {
        Some(members[key])
    } else {
        None
    }
}

/// What is read out of a message stands under `M`, and in the first of the arguments under
/// `A`: the crash flag under `f`, the multiplier under `v`, the time under `s`, the kind of a
/// player's event under `M`, and its text under `a` in what is under `I`. What is missing, or
/// is of another type, is not read.
pub proof fn lemma_item_read(
    members: Map<Seq<char>, crate::json::Json>,
    args: Seq<crate::json::Json>,
    first: Map<Seq<char>, crate::json::Json>,
)
    requires
        under(members, "A"@) == Some(crate::json::Json::Array(args)),
        args.len() > 0,
        args[0] == crate::json::Json::Object(first),
    ensures
        ({
            let m = crate::message::item_of(crate::json::Json::Object(members));
            &&& match under(members, "M"@) {
                Some(crate::json::Json::Text(k)) => m.kind == Some(k),
                _ => m.kind is None,
            }
            &&& match under(first, "f"@) {
                Some(crate::json::Json::Bool(b)) => m.crashed == Some(b),
                _ => m.crashed is None,
            }
            &&& match under(first, "v"@) {
                Some(crate::json::Json::Number(d)) => m.mult == Some(d),
                _ => m.mult is None,
            }
            &&& match under(first, "s"@) {
                Some(crate::json::Json::Number(d)) => m.time == Some(d),
                _ => m.time is None,
            }
            &&& match under(first, "M"@) {
                Some(crate::json::Json::Text(k)) => m.event == Some(k),
                _ => m.event is None,
            }
            &&& match under(first, "I"@) {
                Some(crate::json::Json::Object(inner)) => match under(inner, "a"@) {
                    Some(crate::json::Json::Text(k)) => m.event_text == Some(k),
                    _ => m.event_text is None,
                },
                _ => m.event_text is None,
            }
        }),
{
}

/// Without arguments only the kind of a message is read, and nothing of what is no object.
pub proof fn lemma_bare_item_read(j: crate::json::Json)
    requires
        j matches crate::json::Json::Object(members) ==> (under(members, "A"@) matches Some(
            crate::json::Json::Array(args),
        ) ==> args.len() == 0 || !(args[0] is Object)),
    ensures
        ({
            let m = crate::message::item_of(j);
            &&& m.crashed is None && m.mult is None && m.time is None
            &&& m.event is None && m.event_text is None
            &&& match j {
                crate::json::Json::Object(members) => match under(members, "M"@) {
                    Some(crate::json::Json::Text(k)) => m.kind == Some(k),
                    _ => m.kind is None,
                },
                _ => m.kind is None,
            }
        }),
{
}

/// A message says what is in its fields.
pub proof fn lemma_item_says(m: crate::message::Item)
    ensures
        m.kind matches Some(s) ==> m@.kind == Some(s@),
        m.kind is None ==> m@.kind is None,
        m@.crashed == m.crashed,
        m@.mult == m.mult,
        m@.time == m.time,
        m.event matches Some(s) ==> m@.event == Some(s@),
        m.event is None ==> m@.event is None,
        m.event_text matches Some(s) ==> m@.event_text == Some(s@),
        m.event_text is None ==> m@.event_text is None,
{
}

/// A frame says what is in its fields.
pub proof fn lemma_frame_says(f: crate::message::Frame)
    ensures
        f@.counter_field == f.counter_field@,
        f@.items.len() == f.items.len(),
        forall|i: int| 0 <= i < f.items.len() ==> #[trigger] f@.items[i] == f.items[i]@,
{
}

/// A notice says what is in its fields, and a list of notices says what each of them says.
pub proof fn lemma_notices_say(list: Seq<crate::message::Notice>, i: int)
    requires
        0 <= i < list.len(),
    ensures
        ({
            let says = crate::message::notice_views(list);
            &&& says.len() == list.len()
            &&& match list[i] {
                crate::message::Notice::Gap { last, counter, missed } => says[i] == (
                crate::message::NoticeView::Gap { last, counter: counter@, missed: missed as nat }),
                crate::message::Notice::Batch { count, counter } => says[i] == (
                crate::message::NoticeView::Batch { count: count as nat, counter: counter@ }),
                crate::message::Notice::Board { round } => says[i] == (
                crate::message::NoticeView::Board { round }),
                crate::message::Notice::LiftOff { mult, time } => says[i] == (
                crate::message::NoticeView::LiftOff { mult, time }),
                crate::message::Notice::Flight { mult, time } => says[i] == (
                crate::message::NoticeView::Flight { mult, time }),
                crate::message::Notice::Crash { mult, time } => says[i] == (
                crate::message::NoticeView::Crash { mult, time }),
                crate::message::Notice::Report { result, history } => says[i] == (
                crate::message::NoticeView::Report { result: result@, history: history@ }),
                crate::message::Notice::Cashout { cashout, leak } => says[i] == (
                crate::message::NoticeView::Cashout { cashout: cashout@, leak }),
                crate::message::Notice::Bet { bet, leak } => says[i] == (
                crate::message::NoticeView::Bet { bet: bet@, leak }),
                crate::message::Notice::BadCashout { text } => says[i] == (
                crate::message::NoticeView::BadCashout { text: text@ }),
                crate::message::Notice::BadBet { text } => says[i] == (
                crate::message::NoticeView::BadBet { text: text@ }),
                crate::message::Notice::UnknownEvent { kind, counter } => says[i] == (
                crate::message::NoticeView::UnknownEvent { kind: kind@, counter: counter@ }),
                crate::message::Notice::UnknownMessage { kind, counter } => says[i] == (
                crate::message::NoticeView::UnknownMessage { kind: kind@, counter: counter@ }),
            }
        }),
{
}

/// How many of the first `k` messages place a bet.
pub open spec fn bets_placed(
    items: Seq<crate::message::ItemView>,
    labels: Seq<Seq<char>>,
    k: nat,
) -> nat
    decreases k,
{
    if k == 0 {
        0
    } else {
        bets_placed(items, labels, (k - 1) as nat) + if bet_in(items[k - 1], labels[k - 1])
            is Some {
            1nat
        } else {
            0nat
        }
    }
}

/// How many of the first `k` messages make a cashout.
pub open spec fn cashouts_made(
    items: Seq<crate::message::ItemView>,
    labels: Seq<Seq<char>>,
    k: nat,
) -> nat
    decreases k,
{
    if k == 0 {
        0
    } else {
        cashouts_made(items, labels, (k - 1) as nat) + if cashout_in(items[k - 1], labels[k - 1])
            is Some {
            1nat
        } else {
            0nat
        }
    }
}

/// Between two new rounds every bet and every cashout is kept once, as normal or as leaked.
pub proof fn lemma_all_are_kept(
    st: crate::state::StateView,
    items: Seq<crate::message::ItemView>,
    labels: Seq<Seq<char>>,
    k: nat,
)
    requires
        k <= items.len(),
        forall|i: int| 0 <= i < k ==> (#[trigger] items[i]).kind != Some("gBoard"@),
    ensures
        ({
            let now = crate::message::run(st, items, labels, k).0;
            &&& now.normal_bets.len() + now.leaked_bets.len() == st.normal_bets.len()
                + st.leaked_bets.len() + bets_placed(items, labels, k)
            &&& now.normal_cashouts.len() + now.leaked_cashouts.len() == st.normal_cashouts.len()
                + st.leaked_cashouts.len() + cashouts_made(items, labels, k)
        }),
    decreases k,
{
    if k > 0 {
        let j = (k - 1) as nat;
        lemma_all_are_kept(st, items, labels, j);
        let before = crate::message::run(st, items, labels, j).0;
        let late = crate::message::crash_before(items, k - 1);
        assert(items[k - 1].kind != Some("gBoard"@));
        lemma_bets_sorted(before, items[k - 1], labels[k - 1], late);
        lemma_cashouts_sorted(before, items[k - 1], labels[k - 1], late);
    }
}

/// What taking in a message does, in terms of the state before and after and of the notices
/// before and after.
pub open spec fn applied(
    before: crate::state::AppState,
    after: crate::state::AppState,
    told: Vec<crate::message::Notice>,
    now: Vec<crate::message::Notice>,
    m: crate::message::Item,
    label: Seq<char>,
    after_crash: bool,
) -> bool {
    let (st, news) = crate::message::step(before@, m@, label, after_crash);
    &&& after@ == st
    &&& crate::message::notice_views(now@) == crate::message::notice_views(told@) + news
}

/// Taking in one message, a frame or a text does what is said of messages, frames and texts.
pub proof fn lemma_taken_in(
    m: crate::message::Item,
    label: &str,
    after_crash: bool,
    f: crate::message::Frame,
    raw: &str,
    r: Vec<crate::message::Notice>,
)
    ensures
        forall|st: &mut crate::state::AppState, out: &mut Vec<crate::message::Notice>| #[trigger]
            call_ensures(
                crate::state::AppState::apply,
                (st, &m, label, after_crash, out),
                (),
            ) ==> applied(*st, *final(st), *out, *final(out), m, label@, after_crash),
        forall|st: &mut crate::state::AppState| #[trigger]
            call_ensures(crate::message::process_frame, (&f, st), r) ==> (
                final(st)@,
                crate::message::notice_views(r@),
            ) == crate::message::frame_step(st@, f@),
        forall|st: &mut crate::state::AppState| #[trigger]
            call_ensures(crate::message::process_message, (raw, st), r) ==> (
                final(st)@,
                crate::message::notice_views(r@),
            ) == crate::message::message_step(st@, raw@),
{
}

/// What is read out of JSON is what stands in it.
pub proof fn lemma_json_read(
    v: serde_json::Value,
    m: crate::message::Item,
    f: Option<crate::message::Frame>,
)
    requires
        call_ensures(crate::message::read_item, (&v,), m),
        call_ensures(crate::message::read_frame, (&v,), f),
    ensures
        m@ == crate::message::item_of(crate::json::contents(v)),
        f is Some <==> (crate::json::contents(v) matches crate::json::Json::Object(members) && (
        under(members, "M"@) matches Some(crate::json::Json::Array(list)) && list.len() > 0)),
        f matches Some(frame) ==> crate::message::frame_of(crate::json::contents(v)) == Some(
            frame@,
        ),
{
}

/// A bet that is taken in is the one notice that is added. It is told as a leak exactly where
/// the round no longer waits for bets, and is added to the list that goes with that.
pub proof fn lemma_bet_applied(
    before: crate::state::AppState,
    after: crate::state::AppState,
    told: Vec<crate::message::Notice>,
    now: Vec<crate::message::Notice>,
    m: crate::message::Item,
    label: Seq<char>,
    after_crash: bool,
    bet: crate::event::BetView,
)
    requires
        applied(before, after, told, now, m, label, after_crash),
        bet_in(m@, label) == Some(bet),
    ensures
        now.len() == told.len() + 1,
        now@.last() matches crate::message::Notice::Bet { bet: b, leak } && b@ == bet && leak == (
        before.game_state != GameState::WaitingForBets),
        before.game_state == GameState::WaitingForBets ==> after.normal_bets.len()
            == before.normal_bets.len() + 1 && after.normal_bets@.last()@ == bet
            && after.leaked_bets.len() == before.leaked_bets.len(),
        before.game_state != GameState::WaitingForBets ==> after.leaked_bets.len()
            == before.leaked_bets.len() + 1 && after.leaked_bets@.last()@ == bet
            && after.normal_bets.len() == before.normal_bets.len(),
{
    lemma_bet_told(before@, m@, label, after_crash);
    crate::state::lemma_state_says(before);
    crate::state::lemma_state_says(after);
    let says = crate::message::notice_views(now@);
    assert(crate::message::notice_views(told@).len() == told.len());
    assert(says.len() == now.len());
    assert(says.last() == now@.last()@);
    if before.game_state == GameState::WaitingForBets {
        assert(after@.normal_bets.last() == after.normal_bets@.last()@);
    } else {
        assert(after@.leaked_bets.last() == after.leaked_bets@.last()@);
    }
}

/// A cashout that is taken in is the one notice that is added. It is told as a leak exactly
/// where the plane has crashed, and is added to the list that goes with that.
pub proof fn lemma_cashout_applied(
    before: crate::state::AppState,
    after: crate::state::AppState,
    told: Vec<crate::message::Notice>,
    now: Vec<crate::message::Notice>,
    m: crate::message::Item,
    label: Seq<char>,
    after_crash: bool,
    cashout: crate::event::CashoutView,
)
    requires
        applied(before, after, told, now, m, label, after_crash),
        cashout_in(m@, label) == Some(cashout),
    ensures
        now.len() == told.len() + 1,
        now@.last() matches crate::message::Notice::Cashout { cashout: c, leak } && c@ == cashout
            && leak == (after_crash || before.game_state == GameState::Crashed),
        !after_crash && before.game_state != GameState::Crashed ==> after.normal_cashouts.len()
            == before.normal_cashouts.len() + 1 && after.normal_cashouts@.last()@ == cashout
            && after.leaked_cashouts.len() == before.leaked_cashouts.len(),
        after_crash || before.game_state == GameState::Crashed ==> after.leaked_cashouts.len()
            == before.leaked_cashouts.len() + 1 && after.leaked_cashouts@.last()@ == cashout
            && after.normal_cashouts.len() == before.normal_cashouts.len(),
{
    lemma_cashout_told(before@, m@, label, after_crash);
    crate::state::lemma_state_says(before);
    crate::state::lemma_state_says(after);
    let says = crate::message::notice_views(now@);
    assert(crate::message::notice_views(told@).len() == told.len());
    assert(says.len() == now.len());
    assert(says.last() == now@.last()@);
    if after_crash || before.game_state == GameState::Crashed {
        assert(after@.leaked_cashouts.last() == after.leaked_cashouts@.last()@);
    } else {
        assert(after@.normal_cashouts.last() == after.normal_cashouts@.last()@);
    }
}

/// A message on the flight that is taken in adds one notice, with the multiplier and the time
/// of the message, and these are the current ones from then on.
pub proof fn lemma_flight_applied(
    before: crate::state::AppState,
    after: crate::state::AppState,
    told: Vec<crate::message::Notice>,
    now: Vec<crate::message::Notice>,
    m: crate::message::Item,
    label: Seq<char>,
    after_crash: bool,
)
    requires
        applied(before, after, told, now, m, label, after_crash),
        m@.kind == Some("response"@),
        m.crashed != Some(true),
    ensures
        now.len() == told.len() + 1,
        m.mult matches Some(v) ==> after.current_mult == v,
        m.time matches Some(s) ==> after.current_time == s,
        now@.last() == (crate::message::Notice::LiftOff {
            mult: after.current_mult,
            time: after.current_time,
        }) || now@.last() == (crate::message::Notice::Flight {
            mult: after.current_mult,
            time: after.current_time,
        }),
        now@.last() is LiftOff <==> !after.current_mult.is_nan() && after.current_mult.value()
            == crate::double::unit() && !after.current_time.is_nan()
            && after.current_time.value() == 0,
        after.game_state == (if now@.last() is LiftOff {
            GameState::Flying
        } else {
            before.game_state
        }),
{
    lemma_item_says(m);
    lemma_flight_told(before@, m@, label, after_crash);
    crate::state::lemma_state_says(before);
    crate::state::lemma_state_says(after);
    let says = crate::message::notice_views(now@);
    assert(crate::message::notice_views(told@).len() == told.len());
    assert(says.len() == now.len());
    assert(says.last() == now@.last()@);
}

} // verus!
