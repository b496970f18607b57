//! The counters that the feed numbers its messages by.

use vstd::prelude::*;
use crate::number::{parse_integer, to_numeral};
use crate::text::{split, trim};

verus! {

/// The counter that the field `c` of a message carries, as its text and its value: the
/// hexadecimal number between the first comma and the next comma or bar.
pub open spec fn counter_of(c: Seq<char>) -> Option<(Seq<char>, nat)> {
    let fields = crate::text::pieces(c, ',');
    if fields.len() < 2 {
        None
    } else {
        let hex = crate::text::trimmed(crate::text::pieces(fields[1], '|')[0]);
        match crate::number::integer_of(hex, 16, u64::MAX as nat) {
            Some(n) => Some((hex, n)),
            None => None,
        }
    }
}

/// The counter of the first of `count` messages that arrive together under `current`.
pub open spec fn first_of(current: nat, count: nat) -> nat {
    if current + 1 >= count {
        (current + 1 - count) as nat
    } else {
        0
    }
}

/// The counters of `count` messages that arrive together under `current`, in upper case
/// hexadecimal.
pub open spec fn labels_of(current: nat, count: nat) -> Seq<Seq<char>> {
    Seq::new(count, |i: int| crate::number::numeral(first_of(current, count) + i as nat, 16))
}

/// The counter after `last`. The one after the largest counter is 0.
pub open spec fn next_counter(last: u64) -> nat {
    if last == u64::MAX {
        0
    } else {
        (last + 1) as nat
    }
}

/// How many counters were passed over when `value` follows `last`; nothing where none was.
pub open spec fn gap_of(last: Option<u64>, value: u64) -> Option<nat> {
    match last {
        Some(n) => if value > next_counter(n) {
            Some((value - next_counter(n)) as nat)
        } else {
            None
        },
        None => None,
    }
}

/// Reads the counter that a message's field `c` carries.
pub fn parse_counter(c_field: &str) -> (r: Option<(String, u64)>)
    ensures
        match r {
            Some((text, n)) => counter_of(c_field@) == Some((text@, n as nat)),
            None => counter_of(c_field@) is None,
        },
{
    let fields = split(c_field, ',');
    let ghost f = fields@.map_values(|s: String| s@);
    if fields.len() < 2 {
        return None;
    }
    assert(f[1] == fields[1]@);
    let parts = split(fields[1].as_str(), '|');
    let ghost p = parts@.map_values(|s: String| s@);
    proof {
        crate::text::lemma_pieces_join(fields[1]@, '|');
    }
    assert(p[0] == parts[0]@);
    let hex = trim(parts[0].as_str());
    let n = parse_integer(hex.as_str(), 16, u64::MAX)?;
    Some((hex, n))
}

/// Gives each of `count` messages that arrived together under `current_val` a counter of
/// its own.
pub fn assign_sub_counters(current_val: u64, count: usize) -> (r: Vec<String>)
    ensures
        r@.map_values(|s: String| s@) == labels_of(current_val as nat, count as nat),
{
    let base: u64 = current_val.saturating_sub((count as u64).wrapping_sub(1));
    let mut r: Vec<String> = Vec::new();
    let mut i: usize = 0;
    while i < count
        invariant
            i <= count,
            count > 0 ==> base == first_of(current_val as nat, count as nat),
            r.len() == i,
            forall|j: int|
                0 <= j < i ==> (#[trigger] r[j])@ == labels_of(
                    current_val as nat,
                    count as nat,
                )[j],
        decreases count - i,
    {
        r.push(to_numeral(base + i as u64, 16));
        i += 1;
    }
    assert(r@.map_values(|s: String| s@) =~= labels_of(current_val as nat, count as nat));
    r
}

/// How many counters were passed over when `value` follows `last`.
pub fn gap(last: Option<u64>, value: u64) -> (r: Option<u64>)
    ensures
        match r {
            Some(n) => gap_of(last, value) == Some(n as nat),
            None => gap_of(last, value) is None,
        },
{
    match last {
        Some(n) => {
            let next: u64 = n.wrapping_add(1);
            if value > next {
                Some(value - next)
            } else {
                None
            }
        },
        None => None,
    }
}

/// The counter of a field is what stands behind the first comma and in front of the next comma
/// or bar, without the whitespace around it, if that is a hexadecimal number.
pub proof fn lemma_counter_is_read(front: Seq<char>, mid: Seq<char>, tail: Seq<char>)
    requires
        !front.contains(','),
        !mid.contains(','),
        !mid.contains('|'),
        tail.len() > 0 ==> tail[0] == ',' || tail[0] == '|',
    ensures
        counter_of(front.push(',') + (mid + tail)) == (match crate::number::integer_of(
            crate::text::trimmed(mid),
            16,
            u64::MAX as nat,
        ) {
            Some(n) => Some((crate::text::trimmed(mid), n)),
            None => None,
        }),
{
    let body = mid + tail;
    let c = front.push(',') + body;
    let fields = crate::text::pieces(c, ',');
    assert(fields.len() >= 2 && fields[1] == crate::text::pieces(body, ',')[0]) by {
        crate::text::lemma_pieces_around(front, body, ',');
        crate::text::lemma_pieces_in_front(front, Seq::empty(), ',');
        assert(front + Seq::<char>::empty() == front);
        crate::text::lemma_pieces_join(body, ',');
    }
    crate::text::lemma_pieces_join(tail, ',');
    let head = crate::text::pieces(tail, ',')[0];
    assert(fields[1] == mid + head) by {
        crate::text::lemma_pieces_in_front(mid, tail, ',');
    }
    crate::text::lemma_pieces_join(head, '|');
    assert(crate::text::pieces(fields[1], '|')[0] == mid + crate::text::pieces(head, '|')[0]) by {
        crate::text::lemma_pieces_in_front(mid, head, '|');
    }
    assert(crate::text::pieces(head, '|')[0] == Seq::<char>::empty()) by {
        if tail.len() > 0 {
            let rest = tail.drop_first();
            if tail[0] == ',' {
                crate::text::lemma_pieces_around(Seq::empty(), rest, ',');
                assert(Seq::<char>::empty().push(',') + rest == tail);
            } else {
                let bar = seq!['|'];
                assert(!bar.contains(','));
                crate::text::lemma_pieces_in_front(bar, rest, ',');
                crate::text::lemma_pieces_join(rest, ',');
                assert(bar + rest == tail);
                let z = crate::text::pieces(rest, ',')[0];
                assert(head == bar + z);
                crate::text::lemma_pieces_around(Seq::empty(), z, '|');
                assert(Seq::<char>::empty().push('|') + z == head);
            }
        }
    }
    assert(mid + Seq::<char>::empty() == mid);
}

/// A field without a comma carries no counter.
pub proof fn lemma_no_counter(c: Seq<char>)
    requires
        !c.contains(','),
    ensures
        counter_of(c) is None,
{
    crate::text::lemma_pieces_in_front(c, Seq::empty(), ',');
    assert(c + Seq::<char>::empty() == c);
    assert(crate::text::pieces(Seq::<char>::empty(), ',').len() == 1);
}

/// A counter written in a field is read back from it: behind text without a comma, and in
/// front of nothing, a comma or a bar.
pub proof fn lemma_counter_reads_back(front: Seq<char>, n: u64, tail: Seq<char>)
    requires
        !front.contains(','),
        tail.len() > 0 ==> tail[0] == ',' || tail[0] == '|',
    ensures
        counter_of(front.push(',') + (crate::number::numeral(n as nat, 16) + tail)) == Some(
            (crate::number::numeral(n as nat, 16), n as nat),
        ),
{
    let hex = crate::number::numeral(n as nat, 16);
    crate::number::lemma_numeral_digits(n as nat, 16);
    crate::number::lemma_numeral_reads_back(n as nat, 16, u64::MAX as nat);
    assert forall|i: int| 0 <= i < hex.len() implies #[trigger] hex[i] != ',' && hex[i] != '|'
        && !crate::text::is_space(hex[i]) by {
        assert(crate::number::is_digit(hex[i], 16));
    }
    lemma_counter_is_read(front, hex, tail);
    assert(crate::text::trimmed(hex) == hex);
}

/// The counters of messages that arrive together run on by one, each reads back as itself,
/// and the last message has the counter that came with them, unless there are more messages
/// than counters up to it.
pub proof fn lemma_labels_run_on(current: u64, count: nat, i: int)
    requires
        0 <= i < count,
        count <= u64::MAX,
    ensures
        labels_of(current as nat, count).len() == count,
        crate::number::integer_of(labels_of(current as nat, count)[i], 16, u64::MAX as nat)
            == Some((first_of(current as nat, count) + i) as nat),
        current + 1 >= count ==> first_of(current as nat, count) + count - 1 == current,
        current + 1 >= count ==> labels_of(current as nat, count)[count - 1]
            == crate::number::numeral(current as nat, 16),
{
    crate::number::lemma_numeral_reads_back(
        (first_of(current as nat, count) + i) as nat,
        16,
        u64::MAX as nat,
    );
}

/// The counters strictly between `last` and `value`.
pub open spec fn missing(last: u64, value: u64) -> Set<u64> {
    Set::new(|c: u64| last < c < value)
}

/// There is a gap exactly where a counter lies strictly between the last one and the new
/// one, and it is as wide as there are such counters.
pub proof fn lemma_gap_width(last: u64, value: u64)
    requires
        last < u64::MAX,
    ensures
        missing(last, value).finite(),
        gap_of(Some(last), value) == (if missing(last, value).len() > 0 {
            Some(missing(last, value).len())
        } else {
            None
        }),
{
    lemma_missing_len(last, value);
}

/// How many counters lie strictly between two others.
proof fn lemma_missing_len(last: u64, value: u64)
    ensures
        missing(last, value).finite(),
        missing(last, value).len() == (if value > last + 1 {
            value - last - 1
        } else {
            0
        }),
    decreases value,
{
    if value > last + 1 {
        let prev = (value - 1) as u64;
        lemma_missing_len(last, prev);
        assert(missing(last, value) =~= missing(last, prev).insert(prev));
    } else {
        assert(missing(last, value) =~= Set::empty());
    }
}

/// Messages that arrive together have as many counters as there are messages. They end with
/// the counter that came with the messages; where there are more messages than counters up to
/// it, they start from 0.
pub proof fn lemma_labels(current: u64, count: nat, i: int)
    requires
        0 <= i < count,
    ensures
        labels_of(current as nat, count).len() == count,
        current + 1 >= count ==> labels_of(current as nat, count)[i] == crate::number::numeral(
            (current - (count - 1 - i)) as nat,
            16,
        ),
        current + 1 < count ==> labels_of(current as nat, count)[i] == crate::number::numeral(
            i as nat,
            16,
        ),
{
}

/// There is no gap in front of the first counter. Behind the largest counter the next is 0,
/// so that every counter up to the new one was passed over.
pub proof fn lemma_gap_at_the_ends(value: u64)
    ensures
        gap_of(None, value) is None,
        value > 0 ==> gap_of(Some(u64::MAX), value) == Some(value as nat),
        value == 0 ==> gap_of(Some(u64::MAX), value) is None,
{
}

/// A counter that was written in a field is read with its text and its value.
pub proof fn lemma_counter_parsed(
    c_field: &str,
    front: Seq<char>,
    mid: Seq<char>,
    tail: Seq<char>,
    r: Option<(String, u64)>,
)
    requires
        !front.contains(','),
        !mid.contains(','),
        !mid.contains('|'),
        tail.len() > 0 ==> tail[0] == ',' || tail[0] == '|',
        c_field@ == front.push(',') + (mid + tail),
        call_ensures(parse_counter, (c_field,), r),
    ensures
        match crate::number::integer_of(crate::text::trimmed(mid), 16, u64::MAX as nat) {
            Some(n) => r matches Some((text, value)) && text@ == crate::text::trimmed(mid) && value
                as nat == n,
            None => r is None,
        },
{
    lemma_counter_is_read(front, mid, tail);
}

/// Every message of a frame gets a counter, and the last one gets the counter of the frame,
/// unless there are more messages than counters up to it.
pub proof fn lemma_counters_assigned(current_val: u64, count: usize, r: Vec<String>, i: int)
    requires
        call_ensures(assign_sub_counters, (current_val, count), r),
        0 <= i < count,
    ensures
        r.len() == count,
        r[i]@ == crate::number::numeral(
            if current_val + 1 >= count {
                (current_val + 1 - count + i) as nat
            } else {
                i as nat
            },
            16,
        ),
{
    let shown = r@.map_values(|s: String| s@);
    assert(shown == labels_of(current_val as nat, count as nat));
    assert(shown.len() == r.len());
    assert(shown[i] == r[i]@);
}

/// A gap is as wide as there are counters between the last one and the new one.
pub proof fn lemma_gap_found(last: u64, value: u64, r: Option<u64>, s: Option<u64>)
    requires
        call_ensures(gap, (Some(last), value), r),
        call_ensures(gap, (None, value), s),
    ensures
        s is None,
        last < u64::MAX ==> (r is Some <==> value > last + 1),
        last < u64::MAX && r is Some ==> r.unwrap() == value - last - 1,
{
}

} // verus!
