//! The bets and cashouts of players, as the feed writes them: fields with underscores
//! between them.

use vstd::prelude::*;
use crate::number::{is_decimal_text, parse_integer};
use crate::text::split;

verus! {

/// An amount of money or a multiplier, kept as the decimal number that the feed wrote.
#[derive(Debug)]
pub struct Amount {
    text: String,
}

impl View for Amount {
    type V = Seq<char>;

    closed spec fn view(&self) -> Seq<char> {
        self.text@
    }
}

impl Amount {
    #[verifier::type_invariant]
    spec fn well_formed(self) -> bool {
        crate::number::is_decimal(self.text@)
    }

    /// Takes `s` as an amount, if it writes a decimal number.
    pub fn parse(s: &str) -> (r: Option<Amount>)
        ensures
            match r {
                Some(a) => crate::number::is_decimal(s@) && a@ == s@,
                None => !crate::number::is_decimal(s@),
            },
    {
        if is_decimal_text(s) {
            Some(Amount { text: s.to_owned() })
        } else {
            None
        }
    }

    /// The decimal number as it was written.
    pub fn as_str(&self) -> (r: &str)
        ensures
            r@ == self@,
            crate::number::is_decimal(r@),
    {
        proof {
            use_type_invariant(self);
        }
        self.text.as_str()
    }
}

impl Clone for Amount {
    fn clone(&self) -> (r: Self)
        ensures
            r == *self,
    {
        proof {
            use_type_invariant(self);
        }
        Amount { text: self.text.clone() }
    }
}

/// A player's cashout.
#[derive(Debug)]
pub struct CashoutEvent {
    pub counter: String,
    pub player_name: String,
    pub bet_usd: Amount,
    pub bet_local: Amount,
    pub multiplier: Amount,
    pub cashout_usd: Amount,
    pub currency: String,
    pub slot: u8,
    pub player_id: String,
}

/// A player's bet.
#[derive(Debug)]
pub struct BetEvent {
    pub counter: String,
    pub player_name: String,
    pub bet_usd: Amount,
    pub bet_local: Amount,
    pub currency: String,
    pub slot: u8,
    pub player_id: String,
}

/// What a cashout says.
pub struct CashoutView {
    pub counter: Seq<char>,
    pub player_name: Seq<char>,
    pub bet_usd: Seq<char>,
    pub bet_local: Seq<char>,
    pub multiplier: Seq<char>,
    pub cashout_usd: Seq<char>,
    pub currency: Seq<char>,
    pub slot: u8,
    pub player_id: Seq<char>,
}

/// What a bet says.
pub struct BetView {
    pub counter: Seq<char>,
    pub player_name: Seq<char>,
    pub bet_usd: Seq<char>,
    pub bet_local: Seq<char>,
    pub currency: Seq<char>,
    pub slot: u8,
    pub player_id: Seq<char>,
}

impl View for CashoutEvent {
    type V = CashoutView;

    open spec fn view(&self) -> CashoutView {
        CashoutView {
            counter: self.counter@,
            player_name: self.player_name@,
            bet_usd: self.bet_usd@,
            bet_local: self.bet_local@,
            multiplier: self.multiplier@,
            cashout_usd: self.cashout_usd@,
            currency: self.currency@,
            slot: self.slot,
            player_id: self.player_id@,
        }
    }
}

impl View for BetEvent {
    type V = BetView;

    open spec fn view(&self) -> BetView {
        BetView {
            counter: self.counter@,
            player_name: self.player_name@,
            bet_usd: self.bet_usd@,
            bet_local: self.bet_local@,
            currency: self.currency@,
            slot: self.slot,
            player_id: self.player_id@,
        }
    }
}

impl Clone for CashoutEvent {
    fn clone(&self) -> (r: Self)
        ensures
            r == *self,
    {
        CashoutEvent {
            counter: self.counter.clone(),
            player_name: self.player_name.clone(),
            bet_usd: self.bet_usd.clone(),
            bet_local: self.bet_local.clone(),
            multiplier: self.multiplier.clone(),
            cashout_usd: self.cashout_usd.clone(),
            currency: self.currency.clone(),
            slot: self.slot,
            player_id: self.player_id.clone(),
        }
    }
}

impl Clone for BetEvent {
    fn clone(&self) -> (r: Self)
        ensures
            r == *self,
    {
        BetEvent {
            counter: self.counter.clone(),
            player_name: self.player_name.clone(),
            bet_usd: self.bet_usd.clone(),
            bet_local: self.bet_local.clone(),
            currency: self.currency.clone(),
            slot: self.slot,
            player_id: self.player_id.clone(),
        }
    }
}

/// The slot that the text of a slot field names; slot 0 where it names none.
pub open spec fn slot_of(s: Seq<char>) -> u8 {
    match crate::number::integer_of(s, 10, 255) {
        Some(n) => n as u8,
        None => 0,
    }
}

/// The cashout that `a` writes: at least nine fields, of which the second to the fifth are
/// decimal numbers.
pub open spec fn cashout_of(a: Seq<char>, counter: Seq<char>) -> Option<CashoutView> {
    let p = crate::text::pieces(a, '_');
    if p.len() >= 9 && crate::number::is_decimal(p[1]) && crate::number::is_decimal(p[2])
        && crate::number::is_decimal(p[3]) && crate::number::is_decimal(p[4]) {
        Some(
            CashoutView {
                counter,
                player_name: p[0],
                bet_usd: p[1],
                bet_local: p[2],
                multiplier: p[3],
                cashout_usd: p[4],
                player_id: p[5],
                currency: p[7],
                slot: slot_of(p[8]),
            },
        )
    } else {
        None
    }
}

/// The bet that `a` writes: at least nine fields, of which the second and the third are
/// decimal numbers.
pub open spec fn bet_of(a: Seq<char>, counter: Seq<char>) -> Option<BetView> {
    let p = crate::text::pieces(a, '_');
    if p.len() >= 9 && crate::number::is_decimal(p[1]) && crate::number::is_decimal(p[2]) {
        Some(
            BetView {
                counter,
                player_name: p[0],
                bet_usd: p[1],
                bet_local: p[2],
                player_id: p[5],
                currency: p[7],
                slot: slot_of(p[8]),
            },
        )
    } else {
        None
    }
}

/// Reads a slot field.
fn parse_slot(s: &str) -> (r: u8)
    ensures
        r == slot_of(s@),
{
    match parse_integer(s, 10, 255) {
        Some(n) => n as u8,
        None => 0,
    }
}

/// Reads a cashout that was sent under `counter`.
pub fn parse_cashout(a: &str, counter: &str) -> (r: Option<CashoutEvent>)
    ensures
        match r {
            Some(ev) => cashout_of(a@, counter@) == Some(ev@),
            None => cashout_of(a@, counter@) is None,
        },
{
    let p = split(a, '_');
    let ghost q = p@.map_values(|s: String| s@);
    if p.len() < 9 {
        return None;
    }
    assert(forall|i: int| 0 <= i < p.len() ==> #[trigger] q[i] == p[i]@);
    let bet_usd = Amount::parse(p[1].as_str())?;
    let bet_local = Amount::parse(p[2].as_str())?;
    let multiplier = Amount::parse(p[3].as_str())?;
    let cashout_usd = Amount::parse(p[4].as_str())?;
    Some(
        CashoutEvent {
            counter: counter.to_owned(),
            player_name: p[0].clone(),
            bet_usd,
            bet_local,
            multiplier,
            cashout_usd,
            player_id: p[5].clone(),
            currency: p[7].clone(),
            slot: parse_slot(p[8].as_str()),
        },
    )
}

/// Reads a bet that was sent under `counter`.
pub fn parse_bet(a: &str, counter: &str) -> (r: Option<BetEvent>)
    ensures
        match r {
            Some(ev) => bet_of(a@, counter@) == Some(ev@),
            None => bet_of(a@, counter@) is None,
        },
{
    let p = split(a, '_');
    let ghost q = p@.map_values(|s: String| s@);
    if p.len() < 9 {
        return None;
    }
    assert(forall|i: int| 0 <= i < p.len() ==> #[trigger] q[i] == p[i]@);
    let bet_usd = Amount::parse(p[1].as_str())?;
    let bet_local = Amount::parse(p[2].as_str())?;
    Some(
        BetEvent {
            counter: counter.to_owned(),
            player_name: p[0].clone(),
            bet_usd,
            bet_local,
            player_id: p[5].clone(),
            currency: p[7].clone(),
            slot: parse_slot(p[8].as_str()),
        },
    )
}

/// The fields of a cashout, written with underscores between them, are read back, provided
/// that none holds an underscore and the amounts are decimal numbers.
pub proof fn lemma_cashout_reads_back(fields: Seq<Seq<char>>, counter: Seq<char>)
    requires
        fields.len() >= 9,
        forall|i: int| 0 <= i < fields.len() ==> !(#[trigger] fields[i]).contains('_'),
        forall|i: int| 1 <= i <= 4 ==> crate::number::is_decimal(#[trigger] fields[i]),
    ensures
        cashout_of(crate::text::joined(fields, '_'), counter) == Some(
            CashoutView {
                counter,
                player_name: fields[0],
                bet_usd: fields[1],
                bet_local: fields[2],
                multiplier: fields[3],
                cashout_usd: fields[4],
                player_id: fields[5],
                currency: fields[7],
                slot: slot_of(fields[8]),
            },
        ),
{
    crate::text::lemma_join_pieces(fields, '_');
}

/// The fields of a bet, written with underscores between them, are read back, provided that
/// none holds an underscore and the amounts are decimal numbers.
pub proof fn lemma_bet_reads_back(fields: Seq<Seq<char>>, counter: Seq<char>)
    requires
        fields.len() >= 9,
        forall|i: int| 0 <= i < fields.len() ==> !(#[trigger] fields[i]).contains('_'),
        crate::number::is_decimal(fields[1]),
        crate::number::is_decimal(fields[2]),
    ensures
        bet_of(crate::text::joined(fields, '_'), counter) == Some(
            BetView {
                counter,
                player_name: fields[0],
                bet_usd: fields[1],
                bet_local: fields[2],
                player_id: fields[5],
                currency: fields[7],
                slot: slot_of(fields[8]),
            },
        ),
{
    crate::text::lemma_join_pieces(fields, '_');
}

/// A slot is read back from its decimal numeral.
pub proof fn lemma_slot_reads_back(slot: u8)
    ensures
        slot_of(crate::number::numeral(slot as nat, 10)) == slot,
{
    crate::number::lemma_numeral_reads_back(slot as nat, 10, 255);
}

/// A text with fewer than nine fields is neither a bet nor a cashout. One whose second or
/// third field is no decimal number is neither, and one whose fourth or fifth field is none
/// is no cashout.
pub proof fn lemma_events_refused(fields: Seq<Seq<char>>, counter: Seq<char>)
    requires
        fields.len() > 0,
        forall|i: int| 0 <= i < fields.len() ==> !(#[trigger] fields[i]).contains('_'),
    ensures
        ({
            let a = crate::text::joined(fields, '_');
            &&& fields.len() < 9 ==> bet_of(a, counter) is None && cashout_of(a, counter) is None
            &&& fields.len() >= 9 && !(crate::number::is_decimal(fields[1])
                && crate::number::is_decimal(fields[2])) ==> bet_of(a, counter) is None
                && cashout_of(a, counter) is None
            &&& fields.len() >= 9 && !(crate::number::is_decimal(fields[3])
                && crate::number::is_decimal(fields[4])) ==> cashout_of(a, counter) is None
        }),
{
    crate::text::lemma_join_pieces(fields, '_');
}

/// A slot field that reads as an integer of at most 255 names that slot, and any other field
/// names slot 0.
pub proof fn lemma_slot(s: Seq<char>)
    ensures
        match crate::number::integer_of(s, 10, 255) {
            Some(n) => slot_of(s) as nat == n,
            None => slot_of(s) == 0,
        },
{
}

/// A cashout and a bet say what is in their fields.
pub proof fn lemma_events_say(c: CashoutEvent, b: BetEvent)
    ensures
        c@.counter == c.counter@ && b@.counter == b.counter@,
        c@.player_name == c.player_name@ && b@.player_name == b.player_name@,
        c@.bet_usd == c.bet_usd@ && b@.bet_usd == b.bet_usd@,
        c@.bet_local == c.bet_local@ && b@.bet_local == b.bet_local@,
        c@.multiplier == c.multiplier@,
        c@.cashout_usd == c.cashout_usd@,
        c@.currency == c.currency@ && b@.currency == b.currency@,
        c@.slot == c.slot && b@.slot == b.slot,
        c@.player_id == c.player_id@ && b@.player_id == b.player_id@,
{
}

/// What is read from the fields of a text: a bet and a cashout take the same name, amounts,
/// identifier, currency and slot from them, and the counter that they were sent under.
pub proof fn lemma_events_read(
    a: &str,
    counter: &str,
    fields: Seq<Seq<char>>,
    b: Option<BetEvent>,
    c: Option<CashoutEvent>,
)
    requires
        fields.len() > 0,
        forall|i: int| 0 <= i < fields.len() ==> !(#[trigger] fields[i]).contains('_'),
        a@ == crate::text::joined(fields, '_'),
        call_ensures(parse_bet, (a, counter), b),
        call_ensures(parse_cashout, (a, counter), c),
    ensures
        b is Some <==> fields.len() >= 9 && crate::number::is_decimal(fields[1])
            && crate::number::is_decimal(fields[2]),
        c is Some <==> b is Some && crate::number::is_decimal(fields[3])
            && crate::number::is_decimal(fields[4]),
        b matches Some(bet) ==> {
            &&& bet.counter@ == counter@
            &&& bet.player_name@ == fields[0]
            &&& bet.bet_usd@ == fields[1]
            &&& bet.bet_local@ == fields[2]
            &&& bet.player_id@ == fields[5]
            &&& bet.currency@ == fields[7]
            &&& bet.slot as nat == crate::number::integer_of(fields[8], 10, 255).unwrap_or(0)
        },
        c matches Some(cashout) ==> {
            &&& cashout.counter@ == counter@
            &&& cashout.player_name@ == fields[0]
            &&& cashout.bet_usd@ == fields[1]
            &&& cashout.bet_local@ == fields[2]
            &&& cashout.multiplier@ == fields[3]
            &&& cashout.cashout_usd@ == fields[4]
            &&& cashout.player_id@ == fields[5]
            &&& cashout.currency@ == fields[7]
            &&& cashout.slot as nat == crate::number::integer_of(fields[8], 10, 255).unwrap_or(0)
        },
{
    crate::text::lemma_join_pieces(fields, '_');
}

/// An amount is what its text was: it is taken exactly where the text is a decimal number, and
/// the text comes back as it was written.
pub proof fn lemma_amount_comes_back(s: &str, r: Option<Amount>, a: Amount, t: &str)
    requires
        call_ensures(Amount::parse, (s,), r),
        r is Some ==> r == Some(a),
        call_ensures(Amount::as_str, (&a,), t),
    ensures
        r is Some <==> crate::number::is_decimal(s@),
        r is Some ==> t@ == s@,
{
}

/// Whatever digits an amount is written in, it is taken: cents in front of no whole digits, or
/// behind any, with or without a sign.
pub proof fn lemma_amounts_are_taken(
    s: &str,
    sign: Seq<char>,
    a: Seq<char>,
    b: Seq<char>,
    r: Option<Amount>,
)
    requires
        crate::number::is_sign(sign),
        crate::number::plain_digits(a),
        crate::number::plain_digits(b),
        a.len() + b.len() > 0,
        s@ == sign + (a + seq!['.'] + b) || a.len() > 0 && s@ == sign + a,
        call_ensures(Amount::parse, (s,), r),
    ensures
        r matches Some(amount) && amount@ == s@,
{
    crate::number::lemma_digits_write_amounts(sign, a, b, Seq::empty());
    assert(a + Seq::<char>::empty() =~= a);
    assert(a + seq!['.'] + b + Seq::<char>::empty() =~= a + seq!['.'] + b);
}

} // verus!
