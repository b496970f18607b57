//! The labelled rules that set off a frame of several messages.

use vstd::prelude::*;
use crate::number::to_numeral;

verus! {

/// The width, in bytes of text, that a labelled rule fills.
pub const RULE_WIDTH: usize = 60;

/// `n` dashes.
pub open spec fn dashes(n: nat) -> Seq<char> {
    Seq::new(n, |i: int| '\u{2500}')
}

/// The dashes behind a label of `len` bytes.
pub open spec fn filler(len: nat) -> nat {
    if len + 6 < RULE_WIDTH {
        (RULE_WIDTH - len - 6) as nat
    } else {
        0
    }
}

/// The rule with the label `label`.
pub open spec fn rule_of(label: Seq<char>) -> Seq<char> {
    dashes(4).push(' ') + label.push(' ') + dashes(filler(vstd::utf8::encode_utf8(label).len()))
}

/// Adds `n` dashes to a line.
fn draw(line: &mut String, n: usize)
    ensures
        final(line)@ == old(line)@ + dashes(n as nat),
{
    let mut i: usize = 0;
    assert(line@ + dashes(0) == line@);
    while i < n
        invariant
            i <= n,
            line@ == old(line)@ + dashes(i as nat),
        decreases n - i,
    {
        line.push('\u{2500}');
        i += 1;
        assert(line@ =~= old(line)@ + dashes(i as nat));
    }
}

/// Draws a rule with a label.
pub fn sep(label: &str) -> (r: String)
    ensures
        r@ == rule_of(label@),
{
    let mut r = String::new();
    let len: usize = label.as_bytes().len();
    draw(&mut r, 4);
    r.push(' ');
    r.append(label);
    r.push(' ');
    if len < RULE_WIDTH - 6 {
        draw(&mut r, RULE_WIDTH - 6 - len);
    }
    assert(r@ =~= rule_of(label@));
    r
}

/// The label of a frame of `count` messages under `counter`.
pub open spec fn batch_label_of(count: nat, counter: Seq<char>) -> Seq<char> {
    "BATCH x"@ + crate::number::numeral(count, 10) + " @ "@ + counter
}

/// Labels a frame of `count` messages under `counter`.
pub fn batch_label(count: usize, counter: &str) -> (r: String)
    ensures
        r@ == batch_label_of(count as nat, counter@),
{
    let mut r = "BATCH x".to_owned();
    r.append(to_numeral(count as u64, 10).as_str());
    r.append(" @ ");
    r.append(counter);
    r
}

/// A label of ASCII characters makes a rule of the full width, if it fits into one.
pub proof fn lemma_rule_width(label: Seq<char>)
    requires
        vstd::utf8::is_ascii_chars(label),
        label.len() + 6 <= RULE_WIDTH,
    ensures
        rule_of(label).len() == RULE_WIDTH,
{
    vstd::utf8::is_ascii_chars_encode_utf8(label);
}

/// A rule shows its label behind four dashes and a blank, and fills up with dashes behind
/// another blank: to the full width where the label leaves room, counted in bytes.
pub proof fn lemma_rule(label: Seq<char>)
    ensures
        ({
            let r = rule_of(label);
            let bytes = vstd::utf8::encode_utf8(label).len();
            let n = label.len() as int;
            &&& r.len() == n + 6 + (if bytes < 54 {
                54 - bytes
            } else {
                0
            })
            &&& r.subrange(5, 5 + n) == label
            &&& r[4] == ' ' && r[5 + n] == ' '
            &&& forall|i: int| 0 <= i < 4 ==> #[trigger] r[i] == '\u{2500}'
            &&& forall|i: int| 6 + n <= i < r.len() ==> #[trigger] r[i] == '\u{2500}'
        }),
{
    assert(rule_of(label).subrange(5, 5 + label.len() as int) =~= label);
}

/// The label of a frame says how many messages it holds, so that it reads back, and then the
/// counter that they came under.
pub proof fn lemma_batch_label(count: nat, counter: Seq<char>, digits: int)
    requires
        digits == crate::number::numeral(count, 10).len(),
    ensures
        ({
            let s = batch_label_of(count, counter);
            &&& s.len() == 7 + digits + 3 + counter.len()
            &&& s.take(7) == "BATCH x"@
            &&& crate::number::integer_of(s.subrange(7, 7 + digits), 10, count) == Some(count)
            &&& s.subrange(7 + digits, 10 + digits) == " @ "@
            &&& s.skip(10 + digits) == counter
        }),
{
    reveal_strlit("BATCH x");
    reveal_strlit(" @ ");
    crate::number::lemma_numeral_reads_back(count, 10, count);
    let s = batch_label_of(count, counter);
    assert(s.take(7) =~= "BATCH x"@);
    assert(s.subrange(7, 7 + digits) =~= crate::number::numeral(count, 10));
    assert(s.subrange(7 + digits, 10 + digits) =~= " @ "@);
    assert(s.skip(10 + digits) =~= counter);
}

/// A rule is drawn with its label between blanks, and dashes on both sides.
pub proof fn lemma_rule_drawn(label: &str, r: String)
    requires
        call_ensures(sep, (label,), r),
    ensures
        r@.len() >= label@.len() + 6,
        r@.subrange(5, 5 + label@.len() as int) == label@,
        r@[0] == '\u{2500}' && r@[3] == '\u{2500}' && r@[4] == ' ',
        r@[5 + label@.len() as int] == ' ',
        vstd::utf8::encode_utf8(label@).len() < 54 ==> r@.last() == '\u{2500}',
        vstd::utf8::encode_utf8(label@).len() >= 54 ==> r@.last() == ' ',
{
    lemma_rule(label@);
}

/// A label ends with the counter, and starts with the number of messages.
pub proof fn lemma_label_written(count: usize, counter: &str, r: String)
    requires
        call_ensures(batch_label, (count, counter), r),
    ensures
        r@ == "BATCH x"@ + crate::number::numeral(count as nat, 10) + " @ "@ + counter@,
{
}

} // verus!
