//! The tags and colours under which notices are shown.

use vstd::prelude::*;
use crate::message::Notice;
use crate::report::Band;

verus! {

/// The colours of the output.
#[derive(Clone, Copy, Debug, PartialEq, Eq, Structural)]
pub enum Color {
    Green,
    Blue,
    Red,
    Cyan,
    Yellow,
    Gray,
}

/// A tag in front of a line.
#[derive(Debug)]
pub struct Tag {
    pub text: String,
    pub color: Color,
    pub bold: bool,
}

/// What a tag says.
pub struct TagView {
    pub text: Seq<char>,
    pub color: Color,
    pub bold: bool,
}

impl View for Tag {
    type V = TagView;

    open spec fn view(&self) -> TagView {
        TagView { text: self.text@, color: self.color, bold: self.bold }
    }
}

/// The tag of a notice: cashouts are green, bets blue, crashes and leaks red, flights cyan.
/// What happens in a round is in bold, but for the steps of a flight. A frame of several
/// messages and a report have headings of their own.
pub open spec fn tag_for(n: crate::message::NoticeView) -> Option<TagView> {
    match n {
        crate::message::NoticeView::Gap { .. } => Some(
            TagView { text: "[GAP]"@, color: Color::Gray, bold: false },
        ),
        crate::message::NoticeView::Batch { .. } => None,
        crate::message::NoticeView::Board { .. } => Some(
            TagView { text: "[gBOARD]"@, color: Color::Gray, bold: true },
        ),
        crate::message::NoticeView::LiftOff { .. } => Some(
            TagView { text: "[CASE 1 START]"@, color: Color::Cyan, bold: true },
        ),
        crate::message::NoticeView::Flight { .. } => Some(
            TagView { text: "[FLYING]"@, color: Color::Cyan, bold: false },
        ),
        crate::message::NoticeView::Crash { .. } => Some(
            TagView { text: "[CASE 3 CRASH]"@, color: Color::Red, bold: true },
        ),
        crate::message::NoticeView::Report { .. } => None,
        crate::message::NoticeView::Cashout { leak, .. } => if leak {
            Some(TagView { text: "[LEAK-CASHOUT]"@, color: Color::Red, bold: true })
        } else {
            Some(TagView { text: "[CASHOUT]"@, color: Color::Green, bold: true })
        },
        crate::message::NoticeView::Bet { leak, .. } => if leak {
            Some(TagView { text: "[LEAK-BET]"@, color: Color::Red, bold: true })
        } else {
            Some(TagView { text: "[BET]"@, color: Color::Blue, bold: true })
        },
        crate::message::NoticeView::BadCashout { .. } => Some(
            TagView { text: "[WARN]"@, color: Color::Yellow, bold: false },
        ),
        crate::message::NoticeView::BadBet { .. } => Some(
            TagView { text: "[WARN]"@, color: Color::Yellow, bold: false },
        ),
        crate::message::NoticeView::UnknownEvent { .. } => Some(
            TagView { text: "[UNK]"@, color: Color::Gray, bold: false },
        ),
        crate::message::NoticeView::UnknownMessage { .. } => Some(
            TagView { text: "[UNK]"@, color: Color::Gray, bold: false },
        ),
    }
}

/// Makes a tag.
fn tagged(text: &str, color: Color, bold: bool) -> (r: Option<Tag>)
    ensures
        r is Some,
        r.unwrap()@ == (TagView { text: text@, color, bold }),
{
    Some(Tag { text: text.to_owned(), color, bold })
}

/// Gives a notice its tag.
pub fn tag(n: &Notice) -> (r: Option<Tag>)
    ensures
        match r {
            Some(t) => tag_for(n@) == Some(t@),
            None => tag_for(n@) is None,
        },
{
    match n {
        Notice::Gap { .. } => tagged("[GAP]", Color::Gray, false),
        Notice::Batch { .. } => None,
        Notice::Board { .. } => tagged("[gBOARD]", Color::Gray, true),
        Notice::LiftOff { .. } => tagged("[CASE 1 START]", Color::Cyan, true),
        Notice::Flight { .. } => tagged("[FLYING]", Color::Cyan, false),
        Notice::Crash { .. } => tagged("[CASE 3 CRASH]", Color::Red, true),
        Notice::Report { .. } => None,
        Notice::Cashout { leak, .. } => if *leak {
            tagged("[LEAK-CASHOUT]", Color::Red, true)
        } else {
            tagged("[CASHOUT]", Color::Green, true)
        },
        Notice::Bet { leak, .. } => if *leak {
            tagged("[LEAK-BET]", Color::Red, true)
        } else {
            tagged("[BET]", Color::Blue, true)
        },
        Notice::BadCashout { .. } => tagged("[WARN]", Color::Yellow, false),
        Notice::BadBet { .. } => tagged("[WARN]", Color::Yellow, false),
        Notice::UnknownEvent { .. } => tagged("[UNK]", Color::Gray, false),
        Notice::UnknownMessage { .. } => tagged("[UNK]", Color::Gray, false),
    }
}

/// Gives the rounds of a band their colour: red, yellow and green from low to high.
pub fn band_color(b: Band) -> (r: Color)
    ensures
        r == (match b {
            Band::Low => Color::Red,
            Band::Middle => Color::Yellow,
            Band::High => Color::Green,
        }),
{
    match b {
        Band::Low => Color::Red,
        Band::Middle => Color::Yellow,
        Band::High => Color::Green,
    }
}

/// The colours tell what happened: green is a timely cashout, blue a timely bet, red a crash
/// or a leak, cyan a flight and yellow what could not be read.
pub proof fn lemma_colors(n: crate::message::NoticeView)
    ensures
        ({
            let color = match tag_for(n) {
                Some(t) => Some(t.color),
                None => None,
            };
            let leak = (n matches crate::message::NoticeView::Bet { leak, .. } && leak) || (
            n matches crate::message::NoticeView::Cashout { leak, .. } && leak);
            &&& color == Some(Color::Green) <==> n is Cashout && !leak
            &&& color == Some(Color::Blue) <==> n is Bet && !leak
            &&& color == Some(Color::Red) <==> n is Crash || leak
            &&& color == Some(Color::Cyan) <==> n is LiftOff || n is Flight
            &&& color == Some(Color::Yellow) <==> n is BadCashout || n is BadBet
            &&& color == Some(Color::Gray) <==> n is Gap || n is Board || n is UnknownEvent
                || n is UnknownMessage
            &&& color is None <==> n is Batch || n is Report
        }),
{
}

/// The tags name what happened, and a bet or cashout that leaked is marked as a leak. Players'
/// events, new rounds, lift-offs and crashes stand out in bold.
pub proof fn lemma_tags(n: crate::message::NoticeView)
    ensures
        n matches crate::message::NoticeView::Bet { leak, .. } ==> tag_for(n).unwrap().text == (
        if leak {
            "[LEAK-BET]"@
        } else {
            "[BET]"@
        }),
        n matches crate::message::NoticeView::Cashout { leak, .. } ==> tag_for(n).unwrap().text
            == (if leak {
            "[LEAK-CASHOUT]"@
        } else {
            "[CASHOUT]"@
        }),
        n is Gap ==> tag_for(n).unwrap().text == "[GAP]"@,
        n is Board ==> tag_for(n).unwrap().text == "[gBOARD]"@,
        n is LiftOff ==> tag_for(n).unwrap().text == "[CASE 1 START]"@,
        n is Flight ==> tag_for(n).unwrap().text == "[FLYING]"@,
        n is Crash ==> tag_for(n).unwrap().text == "[CASE 3 CRASH]"@,
        n is BadCashout || n is BadBet ==> tag_for(n).unwrap().text == "[WARN]"@,
        n is UnknownEvent || n is UnknownMessage ==> tag_for(n).unwrap().text == "[UNK]"@,
        tag_for(n) matches Some(t) ==> (t.bold <==> n is Bet || n is Cashout || n is Board
            || n is LiftOff || n is Crash),
{
}

/// A tag says what is in its fields.
pub proof fn lemma_tag_says(t: Tag)
    ensures
        t@.text == t.text@,
        t@.color == t.color,
        t@.bold == t.bold,
{
}

/// A bet that leaked is shown in red as a leak, and a timely one in blue, both in bold.
pub proof fn lemma_bet_shown(bet: crate::event::BetEvent, leak: bool, r: Option<Tag>)
    requires
        call_ensures(tag, (&(Notice::Bet { bet, leak }),), r),
    ensures
        r matches Some(t) && t.bold && (if leak {
            t.text@ == "[LEAK-BET]"@ && t.color == Color::Red
        } else {
            t.text@ == "[BET]"@ && t.color == Color::Blue
        }),
{
}

/// A cashout that leaked is shown in red as a leak, and a timely one in green, both in bold.
pub proof fn lemma_cashout_shown(cashout: crate::event::CashoutEvent, leak: bool, r: Option<Tag>)
    requires
        call_ensures(tag, (&(Notice::Cashout { cashout, leak }),), r),
    ensures
        r matches Some(t) && t.bold && (if leak {
            t.text@ == "[LEAK-CASHOUT]"@ && t.color == Color::Red
        } else {
            t.text@ == "[CASHOUT]"@ && t.color == Color::Green
        }),
{
}

/// Every notice is shown under the tag that is its own.
pub proof fn lemma_shown(n: Notice, r: Option<Tag>)
    requires
        call_ensures(tag, (&n,), r),
    ensures
        r is None <==> n is Batch || n is Report,
        r matches Some(t) ==> tag_for(n@) == Some(t@),
{
}

/// Low rounds are red, high ones green, and the others yellow.
pub proof fn lemma_band_colors(b: Band, r: Color)
    requires
        call_ensures(band_color, (b,), r),
    ensures
        r == Color::Red <==> b is Low,
        r == Color::Green <==> b is High,
        r == Color::Yellow <==> b is Middle,
{
}

} // verus!
