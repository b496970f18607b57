//! Strings as sequences of characters: comparing, splitting and trimming.

use vstd::prelude::*;

verus! {

/// `String::push` appends one character at the end of the string.
pub assume_specification[ String::push ](s: &mut String, ch: char)
    ensures
        final(s)@ == old(s)@.push(ch),
;

/// The pieces of `s` between occurrences of `sep`, in order. A string without `sep` is
/// its own single piece.
pub open spec fn pieces(s: Seq<char>, sep: char) -> Seq<Seq<char>>
    decreases s.len(),
{
    if s.len() == 0 {
        seq![Seq::empty()]
    } else {
        let before = pieces(s.drop_last(), sep);
        if s.last() == sep {
            before.push(Seq::empty())
        } else {
            before.drop_last().push(before.last().push(s.last()))
        }
    }
}

/// The strings of `list`, one after the other, with `sep` between neighbours.
pub open spec fn joined(list: Seq<Seq<char>>, sep: char) -> Seq<char>
    decreases list.len(),
{
    if list.len() == 0 {
        Seq::empty()
    } else if list.len() == 1 {
        list[0]
    } else {
        joined(list.drop_last(), sep).push(sep) + list.last()
    }
}

/// The characters with the Unicode property `White_Space`.
pub open spec fn is_space(c: char) -> bool {
    let n = c as u32;
    ||| 0x9 <= n <= 0xD
    ||| n == 0x20
    ||| n == 0x85
    ||| n == 0xA0
    ||| n == 0x1680
    ||| 0x2000 <= n <= 0x200A
    ||| n == 0x2028
    ||| n == 0x2029
    ||| n == 0x202F
    ||| n == 0x205F
    ||| n == 0x3000
}

/// `s` without its leading whitespace.
pub open spec fn trimmed_start(s: Seq<char>) -> Seq<char>
    decreases s.len(),
{
    if s.len() > 0 && is_space(s[0]) {
        trimmed_start(s.drop_first())
    } else {
        s
    }
}

/// `s` without its trailing whitespace.
pub open spec fn trimmed_end(s: Seq<char>) -> Seq<char>
    decreases s.len(),
{
    if s.len() > 0 && is_space(s.last()) {
        trimmed_end(s.drop_last())
    } else {
        s
    }
}

/// `s` without whitespace at either end.
pub open spec fn trimmed(s: Seq<char>) -> Seq<char> {
    trimmed_end(trimmed_start(s))
}

/// The characters of `s`.
pub fn chars_of(s: &str) -> (r: Vec<char>)
    ensures
        r@ == s@,
{
    let mut r: Vec<char> = Vec::new();
    for c in it: s.chars()
        invariant
            it.seq() == s@,
            r@ == s@.take(it.index()),
    {
        r.push(c);
    }
    r
}

/// The string of the characters `v[from..to]`.
pub fn string_of(v: &Vec<char>, from: usize, to: usize) -> (r: String)
    requires
        from <= to <= v.len(),
    ensures
        r@ == v@.subrange(from as int, to as int),
{
    let mut r = String::new();
    let mut i: usize = from;
    while i < to
        invariant
            from <= i <= to <= v.len(),
            r@ == v@.subrange(from as int, i as int),
        decreases to - i,
    {
        r.push(v[i]);
        i += 1;
    }
    r
}

/// Whether two strings hold the same characters.
pub fn same_text(a: &str, b: &str) -> (r: bool)
    ensures
        r == (a@ == b@),
{
    let x = a.to_owned();
    let y = b.to_owned();
    x == y
}

/// Cuts `s` at every occurrence of `sep`.
pub fn split(s: &str, sep: char) -> (r: Vec<String>)
    ensures
        r@.map_values(|p: String| p@) == pieces(s@, sep),
{
    let v = chars_of(s);
    let mut r: Vec<String> = Vec::new();
    let mut cur = String::new();
    let mut i: usize = 0;
    while i < v.len()
        invariant
            0 <= i <= v.len(),
            r@.map_values(|p: String| p@).push(cur@) == pieces(v@.take(i as int), sep),
        decreases v.len() - i,
    {
        let c = v[i];
        assert(v@.take(i + 1).drop_last() == v@.take(i as int));
        let ghost before = r@.map_values(|p: String| p@);
        assert(before.push(cur@).drop_last() == before);
        if c == sep {
            let ghost c0 = cur;
            r.push(cur);
            cur = String::new();
            assert(r@.map_values(|p: String| p@) == before.push(c0@));
        } else {
            cur.push(c);
        }
        i += 1;
    }
    assert(v@.take(i as int) == s@);
    let ghost before = r@.map_values(|p: String| p@);
    let ghost c0 = cur;
    r.push(cur);
    assert(r@.map_values(|p: String| p@) == before.push(c0@));
    r
}

/// Whether `c` has the Unicode property `White_Space`.
pub fn is_whitespace(c: char) -> (r: bool)
    ensures
        r == is_space(c),
{
    let n: u32 = c as u32;
    (0x9 <= n && n <= 0xD) || n == 0x20 || n == 0x85 || n == 0xA0 || n == 0x1680
        || (0x2000 <= n && n <= 0x200A) || n == 0x2028 || n == 0x2029 || n == 0x202F
        || n == 0x205F || n == 0x3000
}

/// Removes whitespace from both ends of `s`.
pub fn trim(s: &str) -> (r: String)
    ensures
        r@ == trimmed(s@),
{
    let v = chars_of(s);
    let mut from: usize = 0;
    assert(v@.skip(0) == v@);
    while from < v.len() && is_whitespace(v[from])
        invariant
            from <= v.len(),
            trimmed_start(v@) == trimmed_start(v@.skip(from as int)),
        decreases v.len() - from,
    {
        assert(v@.skip(from as int).drop_first() == v@.skip(from + 1));
        from += 1;
    }
    let ghost rest = v@.skip(from as int);
    let mut to: usize = v.len();
    assert(v@.subrange(from as int, to as int) == rest);
    while from < to && is_whitespace(v[to - 1])
        invariant
            from <= to <= v.len(),
            trimmed_end(rest) == trimmed_end(v@.subrange(from as int, to as int)),
        decreases to - from,
    {
        assert(v@.subrange(from as int, to as int).drop_last() == v@.subrange(
            from as int,
            to - 1,
        ));
        to -= 1;
    }
    string_of(&v, from, to)
}

/// Every string has at least one piece, no piece holds the separator, and the pieces with
/// separators between them make up the string.
pub proof fn lemma_pieces_join(s: Seq<char>, sep: char)
    ensures
        pieces(s, sep).len() > 0,
        forall|i: int| 0 <= i < pieces(s, sep).len() ==> !(#[trigger] pieces(s, sep)[i]).contains(
            sep,
        ),
        joined(pieces(s, sep), sep) == s,
    decreases s.len(),
{
    if s.len() == 0 {
        assert(joined(pieces(s, sep), sep) =~= s);
    } else {
        lemma_pieces_join(s.drop_last(), sep);
        let before = pieces(s.drop_last(), sep);
        let now = pieces(s, sep);
        if s.last() == sep {
            assert(now.drop_last() == before);
            assert(joined(now, sep) =~= s);
        } else {
            let end = before.last().push(s.last());
            assert(!before.last().contains(sep));
            assert forall|i: int| 0 <= i < now.len() implies !(#[trigger] now[i]).contains(
                sep,
            ) by {
                if i < now.len() - 1 {
                    assert(now[i] == before[i]);
                } else {
                    assert forall|j: int| 0 <= j < end.len() implies end[j] != sep by {
                        if j < before.last().len() {
                            assert(before.last()[j] != sep);
                        }
                    }
                }
            }
            if before.len() == 1 {
                assert(joined(before, sep) == before[0]);
                assert(now[0] == end);
                assert(joined(now, sep) =~= s);
            } else {
                assert(now.drop_last() == before.drop_last());
                assert(now.last() == end);
                assert(joined(before, sep) == joined(before.drop_last(), sep).push(sep)
                    + before.last());
                assert(joined(now, sep) == joined(before.drop_last(), sep).push(sep) + end);
                assert(joined(now, sep) =~= s.drop_last().push(s.last()));
                assert(s.drop_last().push(s.last()) =~= s);
            }
        }
    }
}

/// A separator between two strings parts their pieces.
pub proof fn lemma_pieces_around(a: Seq<char>, b: Seq<char>, sep: char)
    ensures
        pieces(a.push(sep) + b, sep) == pieces(a, sep) + pieces(b, sep),
    decreases b.len(),
{
    let s = a.push(sep) + b;
    lemma_pieces_join(a, sep);
    lemma_pieces_join(b, sep);
    if b.len() == 0 {
        assert(s.drop_last() == a);
        assert(pieces(s, sep) =~= pieces(a, sep) + pieces(b, sep));
    } else {
        lemma_pieces_around(a, b.drop_last(), sep);
        lemma_pieces_join(b.drop_last(), sep);
        assert(s.drop_last() == a.push(sep) + b.drop_last());
        assert(pieces(s, sep) =~= pieces(a, sep) + pieces(b, sep));
    }
}

/// A string without the separator in front of another one belongs to its first piece.
pub proof fn lemma_pieces_in_front(a: Seq<char>, b: Seq<char>, sep: char)
    requires
        !a.contains(sep),
    ensures
        pieces(a + b, sep) == pieces(b, sep).update(0, a + pieces(b, sep)[0]),
    decreases a.len() + b.len(),
{
    let s = a + b;
    lemma_pieces_join(b, sep);
    if s.len() == 0 {
        assert(s == b);
        assert(pieces(s, sep) =~= pieces(b, sep).update(0, a + pieces(b, sep)[0]));
    } else if b.len() == 0 {
        let front = a.drop_last();
        assert(a.last() != sep) by {
            assert(a.contains(a.last()));
        }
        assert forall|i: int| 0 <= i < front.len() implies front[i] != sep by {
            assert(a.contains(a[i]));
        }
        lemma_pieces_in_front(front, b, sep);
        assert(s.drop_last() == front + b);
        assert(s.last() == a.last());
        assert(pieces(b, sep) == seq![Seq::<char>::empty()]);
        assert(front + Seq::<char>::empty() == front);
        assert(pieces(front + b, sep) =~= seq![front]);
        assert(front.push(a.last()) == a);
        assert(a + Seq::<char>::empty() == a);
        assert(pieces(s, sep) =~= seq![a]);
        assert(pieces(s, sep) =~= pieces(b, sep).update(0, a + pieces(b, sep)[0]));
    } else {
        lemma_pieces_in_front(a, b.drop_last(), sep);
        lemma_pieces_join(b.drop_last(), sep);
        assert(s.drop_last() == a + b.drop_last());
        assert(s.last() == b.last());
        let q = pieces(b.drop_last(), sep);
        let p = pieces(b, sep);
        if b.last() == sep {
            assert(pieces(s, sep) =~= p.update(0, a + p[0]));
        } else if q.len() == 1 {
            assert(p[0] == q[0].push(b.last()));
            assert(a + p[0] =~= (a + q[0]).push(b.last()));
            assert(pieces(s, sep) =~= p.update(0, a + p[0]));
        } else {
            assert(p[0] == q[0]);
            assert(pieces(s, sep) =~= p.update(0, a + p[0]));
        }
    }
}

/// Strings without the separator are the pieces of what they make up when joined.
pub proof fn lemma_join_pieces(list: Seq<Seq<char>>, sep: char)
    requires
        list.len() > 0,
        forall|i: int| 0 <= i < list.len() ==> !(#[trigger] list[i]).contains(sep),
    ensures
        pieces(joined(list, sep), sep) == list,
    decreases list.len(),
{
    let end = list.last();
    assert(pieces(end, sep) =~= seq![end]) by {
        lemma_pieces_in_front(end, Seq::empty(), sep);
        assert(end + Seq::<char>::empty() == end);
    }
    if list.len() == 1 {
        assert(list =~= seq![end]);
    } else {
        let front = list.drop_last();
        assert forall|i: int| 0 <= i < front.len() implies !(#[trigger] front[i]).contains(
            sep,
        ) by {
            assert(front[i] == list[i]);
        }
        lemma_join_pieces(front, sep);
        lemma_pieces_around(joined(front, sep), end, sep);
        assert(front + seq![end] =~= list);
    }
}

/// Trimming takes whitespace off both ends, all of it and nothing else.
pub proof fn lemma_trimmed(s: Seq<char>)
    ensures
        exists|from: int, to: int|
            {
                &&& 0 <= from <= to <= s.len()
                &&& trimmed(s) == #[trigger] s.subrange(from, to)
                &&& forall|i: int| 0 <= i < from ==> is_space(#[trigger] s[i])
                &&& forall|i: int| to <= i < s.len() ==> is_space(#[trigger] s[i])
            },
        trimmed(s).len() > 0 ==> !is_space(trimmed(s)[0]) && !is_space(trimmed(s).last()),
        trimmed(trimmed(s)) == trimmed(s),
{
    let from = lemma_trimmed_start(s);
    let rest = s.skip(from);
    let to = lemma_trimmed_end(rest);
    assert(rest.take(to) == s.subrange(from, from + to));
    assert forall|i: int| from + to <= i < s.len() implies is_space(#[trigger] s[i]) by {
        assert(s[i] == rest[i - from]);
    }
    let t = trimmed(s);
    if t.len() > 0 {
        assert(t[0] == rest[0]);
    }
}

/// Where the leading whitespace of `s` ends.
proof fn lemma_trimmed_start(s: Seq<char>) -> (from: int)
    ensures
        0 <= from <= s.len(),
        trimmed_start(s) == s.skip(from),
        forall|i: int| 0 <= i < from ==> is_space(#[trigger] s[i]),
        from < s.len() ==> !is_space(s[from]),
    decreases s.len(),
{
    if s.len() > 0 && is_space(s[0]) {
        let rest = s.drop_first();
        let k = lemma_trimmed_start(rest);
        assert(rest.skip(k) == s.skip(k + 1));
        assert forall|i: int| 0 <= i < k + 1 implies is_space(#[trigger] s[i]) by {
            if i > 0 {
                assert(s[i] == rest[i - 1]);
            }
        }
        k + 1
    } else {
        assert(s.skip(0) == s);
        0
    }
}

/// Where the trailing whitespace of `s` starts.
proof fn lemma_trimmed_end(s: Seq<char>) -> (to: int)
    ensures
        0 <= to <= s.len(),
        trimmed_end(s) == s.take(to),
        forall|i: int| to <= i < s.len() ==> is_space(#[trigger] s[i]),
        to > 0 ==> !is_space(s[to - 1]),
    decreases s.len(),
{
    if s.len() > 0 && is_space(s.last()) {
        let rest = s.drop_last();
        let k = lemma_trimmed_end(rest);
        assert(rest.take(k) == s.take(k));
        assert forall|i: int| k <= i < s.len() implies is_space(#[trigger] s[i]) by {
            if i < rest.len() {
                assert(s[i] == rest[i]);
            }
        }
        k
    } else {
        assert(s.take(s.len() as int) == s);
        s.len() as int
    }
}

/// Whitespace around a text that has none at its ends is trimmed off, and nothing else is.
pub proof fn lemma_trims_padding(p: Seq<char>, t: Seq<char>, q: Seq<char>)
    requires
        forall|i: int| 0 <= i < p.len() ==> is_space(#[trigger] p[i]),
        forall|i: int| 0 <= i < q.len() ==> is_space(#[trigger] q[i]),
        t.len() > 0 ==> !is_space(t[0]) && !is_space(t.last()),
    ensures
        trimmed(p + t + q) == t,
{
    let s = p + t + q;
    let from = lemma_trimmed_start(s);
    let rest = s.skip(from);
    let to = lemma_trimmed_end(rest);
    let n = p.len() as int;
    if from < n {
        assert(s[from] == p[from]);
    }
    if t.len() > 0 {
        assert(s[n] == t[0]);
        assert(from == n);
        assert(rest =~= t + q);
        if to > t.len() {
            assert(rest[to - 1] == q[to - 1 - t.len()]);
        }
        if to < t.len() {
            assert(rest[t.len() - 1] == t.last());
        }
        assert(rest.take(to) =~= t);
    } else {
        if from < s.len() {
            assert(s[from] == q[from - n]);
        }
        assert(rest.take(to) =~= t);
    }
}

/// Cutting a text gives pieces without the separator that make it up again when joined, and
/// trimming it takes off the whitespace around it.
pub proof fn lemma_cut_and_trimmed(s: &str, sep: char, r: Vec<String>, t: String)
    requires
        call_ensures(split, (s, sep), r),
        call_ensures(trim, (s,), t),
    ensures
        r.len() > 0,
        forall|i: int| 0 <= i < r.len() ==> !(#[trigger] r[i])@.contains(sep),
        joined(r@.map_values(|p: String| p@), sep) == s@,
        exists|from: int, to: int|
            {
                &&& 0 <= from <= to <= s@.len()
                &&& t@ == #[trigger] s@.subrange(from, to)
                &&& forall|i: int| 0 <= i < from ==> is_space(#[trigger] s@[i])
                &&& forall|i: int| to <= i < s@.len() ==> is_space(#[trigger] s@[i])
            },
        t@.len() > 0 ==> !is_space(t@[0]) && !is_space(t@.last()),
{
    let p = r@.map_values(|p: String| p@);
    lemma_pieces_join(s@, sep);
    lemma_trimmed(s@);
    assert(p.len() == r.len());
    assert forall|i: int| 0 <= i < r.len() implies !(#[trigger] r[i])@.contains(sep) by {
        assert(p[i] == r[i]@);
        assert(!pieces(s@, sep)[i].contains(sep));
    }
}

} // verus!
