//! Numerals: writing integers in a radix, reading them back, and telling which texts
//! are decimal numerals.

use vstd::prelude::*;
use crate::text::chars_of;

verus! {

/// The value of `c` as a digit, letters of either case counting from ten.
pub open spec fn digit_value(c: char) -> Option<nat> {
    let n = c as u32;
    if 48 <= n <= 57 {
        Some((n - 48) as nat)
    } else if 65 <= n <= 90 {
        Some((n - 55) as nat)
    } else if 97 <= n <= 122 {
        Some((n - 87) as nat)
    } else {
        None
    }
}

/// Whether `c` is a digit in the given radix.
pub open spec fn is_digit(c: char, radix: nat) -> bool {
    digit_value(c) matches Some(d) && d < radix
}

/// Whether `s` is made of digits alone.
pub open spec fn all_digits(s: Seq<char>, radix: nat) -> bool {
    forall|i: int| 0 <= i < s.len() ==> is_digit(#[trigger] s[i], radix)
}

/// The number that the digits `s` stand for.
pub open spec fn digits_value(s: Seq<char>, radix: nat) -> nat
    decreases s.len(),
{
    if s.len() == 0 {
        0
    } else {
        digits_value(s.drop_last(), radix) * radix + digit_value(s.last()).unwrap_or(0)
    }
}

/// `s` without one leading plus sign.
pub open spec fn without_plus(s: Seq<char>) -> Seq<char> {
    if s.len() > 0 && s[0] == '+' {
        s.drop_first()
    } else {
        s
    }
}

/// What `s` reads as, as an unsigned integer no larger than `max`: an optional plus sign,
/// then at least one digit, and nothing else.
pub open spec fn integer_of(s: Seq<char>, radix: nat, max: nat) -> Option<nat> {
    let digits = without_plus(s);
    if digits.len() > 0 && all_digits(digits, radix) && digits_value(digits, radix) <= max {
        Some(digits_value(digits, radix))
    } else {
        None
    }
}

/// The digit for `d`, upper case from ten on.
pub open spec fn digit_char(d: nat) -> char {
    if d < 10 {
        (48 + d) as char
    } else {
        (55 + d) as char
    }
}

/// The numeral of `n` in the given radix, in upper case and without leading zeros.
pub open spec fn numeral(n: nat, radix: nat) -> Seq<char>
    decreases n,
{
    if radix < 2 || n < radix {
        seq![digit_char(n)]
    } else {
        proof {
            assert(n / radix < n) by (nonlinear_arith)
                requires
                    n >= radix,
                    radix >= 2,
            ;
        }
        numeral(n / radix, radix).push(digit_char(n % radix))
    }
}

/// Digits that overrun a bound keep overrunning it, whatever digits follow.
proof fn lemma_prefix_value(s: Seq<char>, k: int, radix: nat)
    requires
        0 <= k <= s.len(),
        radix >= 1,
    ensures
        digits_value(s.take(k), radix) <= digits_value(s, radix),
    decreases s.len() - k,
{
    if k == s.len() {
        assert(s.take(k) == s);
    } else {
        lemma_prefix_value(s, k + 1, radix);
        assert(s.take(k + 1).drop_last() == s.take(k));
        let p = digits_value(s.take(k), radix);
        assert(p <= p * radix) by (nonlinear_arith)
            requires
                radix >= 1,
        ;
    }
}

/// Reads the digit `c`.
fn digit(c: char) -> (r: Option<u64>)
    ensures
        match r {
            Some(d) => digit_value(c) == Some(d as nat) && d < 36,
            None => digit_value(c) is None,
        },
{
    let n: u32 = c as u32;
    if 48 <= n && n <= 57 {
        Some((n - 48) as u64)
    } else if 65 <= n && n <= 90 {
        Some((n - 55) as u64)
    } else if 97 <= n && n <= 122 {
        Some((n - 87) as u64)
    } else {
        None
    }
}

/// Reads `s` as an unsigned integer no larger than `max`.
pub fn parse_integer(s: &str, radix: u64, max: u64) -> (r: Option<u64>)
    requires
        2 <= radix <= 36,
    ensures
        match r {
            Some(n) => integer_of(s@, radix as nat, max as nat) == Some(n as nat),
            None => integer_of(s@, radix as nat, max as nat) is None,
        },
{
    let v = chars_of(s);
    let start: usize = if v.len() > 0 && v[0] == '+' {
        1
    } else {
        0
    };
    let ghost digits = without_plus(s@);
    assert(digits == v@.skip(start as int));
    if start == v.len() {
        return None;
    }
    let mut n: u64 = 0;
    let mut i: usize = start;
    assert(digits.take(0) == Seq::<char>::empty());
    while i < v.len()
        invariant
            2 <= radix <= 36,
            start <= i <= v.len(),
            digits == v@.skip(start as int),
            digits == without_plus(s@),
            all_digits(digits.take(i - start), radix as nat),
            n == digits_value(digits.take(i - start), radix as nat),
            n <= max,
        decreases v.len() - i,
    {
        let ghost k = i - start;
        assert(digits[k] == v[i as int]);
        let d = match digit(v[i]) {
            Some(d) => d,
            None => {
                assert(!is_digit(digits[k], radix as nat));
                return None;
            },
        };
        if d >= radix {
            assert(!is_digit(digits[k], radix as nat));
            return None;
        }
        assert(digits.take(k + 1).drop_last() == digits.take(k));
        assert(digits.take(k + 1).last() == digits[k]);
        assert(n * radix <= u64::MAX * 36) by (nonlinear_arith)
            requires
                n <= u64::MAX,
                radix <= 36,
        ;
        let next: u128 = n as u128 * radix as u128 + d as u128;
        proof {
            lemma_prefix_value(digits, k + 1, radix as nat);
        }
        if next > max as u128 {
            return None;
        }
        n = next as u64;
        assert(all_digits(digits.take(k + 1), radix as nat)) by {
            assert forall|j: int| 0 <= j < k + 1 implies is_digit(
                #[trigger] digits.take(k + 1)[j],
                radix as nat,
            ) by {
                if j < k {
                    assert(digits.take(k)[j] == digits[j]);
                }
            }
        }
        i += 1;
    }
    assert(digits.take(v.len() - start) == digits);
    Some(n)
}

/// Writes `n` in the given radix.
pub fn to_numeral(n: u64, radix: u64) -> (r: String)
    requires
        2 <= radix <= 36,
    ensures
        r@ == numeral(n as nat, radix as nat),
{
    let mut back: Vec<char> = Vec::new();
    let mut rest: u64 = n;
    while rest >= radix
        invariant
            2 <= radix <= 36,
            numeral(n as nat, radix as nat) == numeral(rest as nat, radix as nat)
                + back@.reverse(),
        decreases rest,
    {
        let d: u64 = rest % radix;
        let ghost old_back = back@;
        let c = digit_to_char(d);
        back.push(c);
        proof {
            assert(rest / radix < rest) by (nonlinear_arith)
                requires
                    rest >= radix,
                    radix >= 2,
            ;
            assert(back@.reverse() =~= seq![c] + old_back.reverse());
            assert(numeral(rest as nat, radix as nat) + old_back.reverse() =~= numeral(
                (rest / radix) as nat,
                radix as nat,
            ) + back@.reverse());
        }
        rest = rest / radix;
    }
    let c = digit_to_char(rest);
    let mut r = String::new();
    r.push(c);
    let mut i: usize = back.len();
    while i > 0
        invariant
            i <= back.len(),
            r@ == seq![c] + back@.reverse().take(back.len() - i),
        decreases i,
    {
        i -= 1;
        r.push(back[i]);
        assert(back@.reverse()[back.len() - 1 - i] == back@[i as int]);
    }
    assert(back@.reverse().take(back.len() as int) == back@.reverse());
    r
}

/// The digit for `d`.
fn digit_to_char(d: u64) -> (c: char)
    requires
        d < 36,
    ensures
        c == digit_char(d as nat),
{
    if d < 10 {
        (48 + d as u8) as char
    } else {
        (55 + d as u8) as char
    }
}

/// `s` without one leading sign.
pub open spec fn without_sign(s: Seq<char>) -> Seq<char> {
    if s.len() > 0 && (s[0] == '+' || s[0] == '-') {
        s.drop_first()
    } else {
        s
    }
}

/// `c`, with an ASCII capital letter turned into its small letter.
pub open spec fn small(c: char) -> char {
    let n = c as u32;
    if 65 <= n <= 90 {
        (n + 32) as char
    } else {
        c
    }
}

/// Whether `s` is the word `w`, in capital or small ASCII letters.
pub open spec fn is_word(s: Seq<char>, w: Seq<char>) -> bool {
    s.len() == w.len() && forall|i: int| 0 <= i < s.len() ==> small(#[trigger] s[i]) == w[i]
}

/// Decimal digits with at most one point among them or at either end, and at least one
/// digit.
pub open spec fn is_mantissa(s: Seq<char>) -> bool {
    ||| s.len() > 0 && all_digits(s, 10)
    ||| s.len() > 1 && exists|p: int|
        0 <= p < s.len() && #[trigger] s[p] == '.' && all_digits(s.take(p), 10) && all_digits(
            s.skip(p + 1),
            10,
        )
}

/// Nothing, or the letter `e` followed by an integer with an optional sign.
pub open spec fn is_exponent(s: Seq<char>) -> bool {
    ||| s.len() == 0
    ||| {
        let digits = without_sign(s.drop_first());
        small(s[0]) == 'e' && digits.len() > 0 && all_digits(digits, 10)
    }
}

/// Whether `s` writes a decimal number: an optional sign, then one of the words `inf`,
/// `infinity` and `nan`, or a mantissa and an exponent.
pub open spec fn is_decimal(s: Seq<char>) -> bool {
    let body = without_sign(s);
    ||| is_word(body, "inf"@)
    ||| is_word(body, "infinity"@)
    ||| is_word(body, "nan"@)
    ||| exists|m: int|
        0 <= m <= body.len() && is_mantissa(#[trigger] body.take(m)) && is_exponent(body.skip(m))
}

/// Turns an ASCII capital letter into its small letter.
fn to_small(c: char) -> (r: char)
    ensures
        r == small(c),
{
    let n: u32 = c as u32;
    if 65 <= n && n <= 90 {
        (n as u8 + 32) as char
    } else {
        c
    }
}

/// Whether the characters of `v` from `from` on are the word `w`.
fn spells(v: &Vec<char>, from: usize, w: &str) -> (r: bool)
    requires
        from <= v.len(),
    ensures
        r == is_word(v@.skip(from as int), w@),
{
    let word = chars_of(w);
    if v.len() - from != word.len() {
        return false;
    }
    let mut i: usize = 0;
    while i < word.len()
        invariant
            from <= v.len(),
            v.len() - from == word.len(),
            word@ == w@,
            i <= word.len(),
            forall|j: int| 0 <= j < i ==> small(#[trigger] v@.skip(from as int)[j]) == w@[j],
        decreases word.len() - i,
    {
        assert(v@.skip(from as int)[i as int] == v[from + i]);
        if to_small(v[from + i]) != word[i] {
            return false;
        }
        i += 1;
    }
    true
}

/// The end of the run of decimal digits that starts at `from`.
fn digits_end(v: &Vec<char>, from: usize) -> (end: usize)
    requires
        from <= v.len(),
    ensures
        from <= end <= v.len(),
        forall|i: int| from <= i < end ==> is_digit(#[trigger] v[i], 10),
        end < v.len() ==> !is_digit(v[end as int], 10),
{
    let mut end: usize = from;
    while end < v.len()
        invariant
            from <= end <= v.len(),
            forall|i: int| from <= i < end ==> is_digit(#[trigger] v[i], 10),
        decreases v.len() - end,
    {
        match digit(v[end]) {
            Some(d) => {
                if d >= 10 {
                    return end;
                }
            },
            None => {
                return end;
            },
        }
        end += 1;
    }
    end
}

/// Whether the characters of `v` from `from` on are an exponent.
fn exponent_from(v: &Vec<char>, from: usize) -> (r: bool)
    requires
        from <= v.len(),
    ensures
        r == is_exponent(v@.skip(from as int)),
{
    if from == v.len() {
        return true;
    }
    let ghost tail = v@.skip(from as int);
    assert(tail[0] == v[from as int]);
    if to_small(v[from]) != 'e' {
        return false;
    }
    let mut start: usize = from + 1;
    if start < v.len() && (v[start] == '+' || v[start] == '-') {
        start += 1;
    }
    let ghost digits = without_sign(tail.drop_first());
    assert(digits == v@.skip(start as int));
    let end = digits_end(v, start);
    proof {
        if end < v.len() {
            assert(digits[end - start] == v[end as int]);
        } else {
            assert forall|i: int| 0 <= i < digits.len() implies is_digit(
                #[trigger] digits[i],
                10,
            ) by {
                assert(digits[i] == v[start + i]);
            }
        }
    }
    end == v.len() && start < v.len()
}

/// What a scan of `body` for a mantissa has found: its digits up to `whole`, then, if there
/// is a point, the digits behind it, up to `end`.
spec fn is_scan(body: Seq<char>, whole: int, end: int, point: bool) -> bool {
    &&& 0 <= whole <= end <= body.len()
    &&& forall|i: int| 0 <= i < whole ==> is_digit(#[trigger] body[i], 10)
    &&& whole < body.len() ==> !is_digit(body[whole], 10)
    &&& point == (whole < body.len() && body[whole] == '.')
    &&& if point {
        &&& whole < end
        &&& forall|i: int| whole < i < end ==> is_digit(#[trigger] body[i], 10)
        &&& end < body.len() ==> !is_digit(body[end], 10)
    } else {
        end == whole
    }
}

/// The scan ends where the mantissa must end.
proof fn lemma_scan_end(body: Seq<char>, whole: int, end: int, point: bool, m: int)
    requires
        is_scan(body, whole, end, point),
        0 <= m <= body.len(),
        is_mantissa(body.take(m)),
        is_exponent(body.skip(m)),
    ensures
        m == end,
        if point {
            end > 1
        } else {
            end > 0
        },
{
    let t = body.take(m);
    if m < body.len() {
        assert(body.skip(m)[0] == body[m]);
        assert(!is_digit(body[m], 10));
    }
    if all_digits(t, 10) {
        if whole < m {
            assert(t[whole] == body[whole]);
            assert(is_digit(t[whole], 10));
        }
    } else {
        let p = choose|p: int|
            0 <= p < t.len() && #[trigger] t[p] == '.' && all_digits(t.take(p), 10) && all_digits(
                t.skip(p + 1),
                10,
            );
        assert(body[p] == '.');
        assert(!is_digit(body[p], 10));
        if whole < p {
            assert(t.take(p)[whole] == body[whole]);
            assert(is_digit(t.take(p)[whole], 10));
        }
        if end < m {
            assert(t.skip(p + 1)[end - p - 1] == body[end]);
            assert(is_digit(t.skip(p + 1)[end - p - 1], 10));
        }
    }
}

/// The scan decides whether `body` is a mantissa and an exponent.
proof fn lemma_scan(body: Seq<char>, whole: int, end: int, point: bool)
    requires
        is_scan(body, whole, end, point),
    ensures
        (exists|m: int|
            0 <= m <= body.len() && is_mantissa(#[trigger] body.take(m)) && is_exponent(
                body.skip(m),
            )) == ((if point {
            end > 1
        } else {
            end > 0
        }) && is_exponent(body.skip(end))),
{
    if (if point {
        end > 1
    } else {
        end > 0
    }) {
        let t = body.take(end);
        if point {
            assert(t[whole] == '.');
            assert forall|i: int| 0 <= i < whole implies is_digit(
                #[trigger] t.take(whole)[i],
                10,
            ) by {
                assert(t.take(whole)[i] == body[i]);
            }
            assert forall|i: int| 0 <= i < end - whole - 1 implies is_digit(
                #[trigger] t.skip(whole + 1)[i],
                10,
            ) by {
                assert(t.skip(whole + 1)[i] == body[whole + 1 + i]);
            }
        } else {
            assert forall|i: int| 0 <= i < end implies is_digit(#[trigger] t[i], 10) by {
                assert(t[i] == body[i]);
            }
        }
        assert(is_mantissa(body.take(end)));
    }
    if exists|m: int|
        0 <= m <= body.len() && is_mantissa(#[trigger] body.take(m)) && is_exponent(
            body.skip(m),
        ) {
        let m = choose|m: int|
            0 <= m <= body.len() && is_mantissa(#[trigger] body.take(m)) && is_exponent(
                body.skip(m),
            );
        lemma_scan_end(body, whole, end, point, m);
    }
}

/// Whether `s` writes a decimal number.
pub fn is_decimal_text(s: &str) -> (r: bool)
    ensures
        r == is_decimal(s@),
{
    let v = chars_of(s);
    let start: usize = if v.len() > 0 && (v[0] == '+' || v[0] == '-') {
        1
    } else {
        0
    };
    let ghost body = without_sign(s@);
    assert(body == v@.skip(start as int));
    if spells(&v, start, "inf") || spells(&v, start, "infinity") || spells(&v, start, "nan") {
        return true;
    }
    let whole = digits_end(&v, start);
    let point: bool = whole < v.len() && v[whole] == '.';
    let end: usize = if point {
        digits_end(&v, whole + 1)
    } else {
        whole
    };
    let digits: usize = if point {
        end - start - 1
    } else {
        end - start
    };
    proof {
        let k = whole - start;
        let m = end - start;
        assert(body.skip(m) == v@.skip(end as int));
        assert forall|i: int| 0 <= i < k implies is_digit(#[trigger] body[i], 10) by {
            assert(body[i] == v[start + i]);
        }
        assert forall|i: int| k < i < m implies is_digit(#[trigger] body[i], 10) by {
            assert(body[i] == v[start + i]);
        }
        lemma_scan(body, k, m, point);
    }
    digits > 0 && exponent_from(&v, end)
}

/// The digit for a value has that value.
proof fn lemma_digit_char(d: nat)
    requires
        d < 36,
    ensures
        digit_value(digit_char(d)) == Some(d),
{
}

/// A numeral is made of digits, and they stand for its number.
proof fn lemma_numeral_value(n: nat, radix: nat)
    requires
        2 <= radix <= 36,
    ensures
        numeral(n, radix).len() > 0,
        all_digits(numeral(n, radix), radix),
        digits_value(numeral(n, radix), radix) == n,
    decreases n,
{
    let s = numeral(n, radix);
    if n < radix {
        lemma_digit_char(n);
        assert(s.drop_last() == Seq::<char>::empty());
        assert(digits_value(s.drop_last(), radix) == 0);
        assert(0 * radix == 0) by (nonlinear_arith);
    } else {
        assert(n / radix < n && n % radix < radix && n == (n / radix) * radix + n % radix)
            by (nonlinear_arith)
            requires
                n >= radix,
                radix >= 2,
        ;
        lemma_numeral_value(n / radix, radix);
        lemma_digit_char(n % radix);
        let front = numeral(n / radix, radix);
        assert(s.drop_last() == front);
        assert forall|i: int| 0 <= i < s.len() implies is_digit(#[trigger] s[i], radix) by {
            if i < front.len() {
                assert(s[i] == front[i]);
            }
        }
    }
}

/// Reading a numeral gives back the number that was written.
pub proof fn lemma_numeral_reads_back(n: nat, radix: nat, max: nat)
    requires
        2 <= radix <= 36,
        n <= max,
    ensures
        integer_of(numeral(n, radix), radix, max) == Some(n),
{
    lemma_numeral_value(n, radix);
    assert(is_digit(numeral(n, radix)[0], radix));
}

/// A numeral holds only digits.
pub proof fn lemma_numeral_digits(n: nat, radix: nat)
    requires
        2 <= radix <= 36,
    ensures
        numeral(n, radix).len() > 0,
        all_digits(numeral(n, radix), radix),
{
    lemma_numeral_value(n, radix);
}

/// Whether `c` is the digit for `d`: the digits from 0 to 9, then the letters of the alphabet
/// in either case.
pub open spec fn stands_for(c: char, d: nat) -> bool {
    ||| d < 10 && c as int == '0' as int + d
    ||| 10 <= d < 36 && c as int == 'A' as int + d - 10
    ||| 10 <= d < 36 && c as int == 'a' as int + d - 10
}

/// The value of a character as a digit is that of the digit that it is.
proof fn lemma_digit(c: char)
    ensures
        digit_value(c) matches Some(d) ==> stands_for(c, d),
        is_digit(c, 10) == ('0' as int <= c as int <= '9' as int),
{
}

/// A text of one digit reads as the value of the digit, with a plus sign in front of it or
/// without.
pub proof fn lemma_first_digit(c: char, d: nat, radix: nat, max: nat)
    requires
        2 <= radix <= 36,
        d < radix,
        stands_for(c, d),
    ensures
        integer_of(seq![c], radix, max) == (if d <= max {
            Some(d)
        } else {
            None
        }),
        integer_of(seq!['+', c], radix, max) == integer_of(seq![c], radix, max),
{
    let s = seq![c];
    assert(without_plus(s) == s);
    assert(without_plus(seq!['+', c]) =~= s);
    assert(s.drop_last() =~= Seq::empty());
    assert(digits_value(s.drop_last(), radix) == 0);
    assert(0 * radix == 0) by (nonlinear_arith);
    assert(digits_value(s, radix) == d);
    assert(is_digit(s[0], radix));
}

/// One more digit behind a text makes it read as the radix times what it read as, and the
/// value of the digit added, as long as that is not too large.
pub proof fn lemma_one_more_digit(s: Seq<char>, c: char, d: nat, radix: nat, max: nat)
    requires
        2 <= radix <= 36,
        d < radix,
        stands_for(c, d),
        s.len() > 0,
        s != seq!['+'],
    ensures
        integer_of(s.push(c), radix, max) == (match integer_of(s, radix, max) {
            Some(n) => if n * radix + d <= max {
                Some(n * radix + d)
            } else {
                None
            },
            None => None,
        }),
{
    let digits = without_plus(s);
    if digits.len() == 0 {
        assert(s =~= seq!['+']);
    }
    let more = digits.push(c);
    assert(without_plus(s.push(c)) =~= more);
    assert(more.drop_last() =~= digits);
    assert(digit_value(c) == Some(d));
    let n = digits_value(digits, radix);
    assert(digits_value(more, radix) == n * radix + d);
    assert(n <= n * radix) by (nonlinear_arith)
        requires
            radix >= 1,
    ;
    if all_digits(digits, radix) {
        assert forall|i: int| 0 <= i < more.len() implies is_digit(#[trigger] more[i], radix) by {
            if i < digits.len() {
                assert(more[i] == digits[i]);
            }
        }
    } else {
        let i = choose|i: int| 0 <= i < digits.len() && !is_digit(#[trigger] digits[i], radix);
        assert(more[i] == digits[i]);
    }
}

/// A text reads as no integer if it is empty, if it is a lone plus sign, or if a character
/// in it is no digit of the radix and no plus sign at its front.
pub proof fn lemma_no_integer(s: Seq<char>, i: int, radix: nat, max: nat)
    requires
        2 <= radix <= 36,
        ({
            ||| s.len() == 0
            ||| s == seq!['+']
            ||| 0 <= i < s.len() && !(i == 0 && s[0] == '+') && forall|d: nat|
                d < radix ==> !stands_for(s[i], d)
        }),
    ensures
        integer_of(s, radix, max) is None,
{
    let digits = without_plus(s);
    if s.len() > 0 && s != seq!['+'] {
        let k = if s[0] == '+' {
            i - 1
        } else {
            i
        };
        assert(digits[k] == s[i]);
        if is_digit(digits[k], radix) {
            lemma_digit(s[i]);
            assert(stands_for(s[i], digit_value(s[i]).unwrap()));
        }
    }
}

/// A numeral is written in digits and capital letters, and does not start with a zero unless
/// it is the numeral of zero.
pub proof fn lemma_numeral_form(n: nat, radix: nat)
    requires
        2 <= radix <= 36,
    ensures
        numeral(n, radix).len() > 0,
        forall|i: int|
            0 <= i < numeral(n, radix).len() ==> '0' as int <= (#[trigger] numeral(n, radix)[i])
                as int <= '9' as int || 'A' as int <= numeral(n, radix)[i] as int <= 'Z' as int,
        numeral(n, radix)[0] == '0' <==> n == 0,
    decreases n,
{
    let s = numeral(n, radix);
    if n >= radix {
        assert(0 < n / radix < n && n % radix < radix) by (nonlinear_arith)
            requires
                n >= radix,
                radix >= 2,
        ;
        lemma_numeral_form(n / radix, radix);
        let front = numeral(n / radix, radix);
        assert forall|i: int| 0 <= i < s.len() implies '0' as int <= (#[trigger] s[i]) as int
            <= '9' as int || 'A' as int <= s[i] as int <= 'Z' as int by {
            if i < front.len() {
                assert(s[i] == front[i]);
            }
        }
        assert(s[0] == front[0]);
    }
}

/// Whether `s` holds the digits from 0 to 9 only.
pub open spec fn plain_digits(s: Seq<char>) -> bool {
    forall|i: int| 0 <= i < s.len() ==> '0' as int <= (#[trigger] s[i]) as int <= '9' as int
}

/// Nothing, a plus sign or a minus sign.
pub open spec fn is_sign(s: Seq<char>) -> bool {
    s.len() == 0 || s == seq!['+'] || s == seq!['-']
}

/// The letter `e` in either case, a sign and digits, at least one.
pub open spec fn power(e: char, sign: Seq<char>, digits: Seq<char>) -> Seq<char>
    recommends
        e == 'e' || e == 'E',
        is_sign(sign),
        plain_digits(digits),
        digits.len() > 0,
{
    seq![e] + sign + digits
}

/// Whether `s` is empty or a [`power`].
pub open spec fn may_be_power(s: Seq<char>) -> bool {
    s.len() == 0 || exists|e: char, sign: Seq<char>, digits: Seq<char>|
        (e == 'e' || e == 'E') && is_sign(sign) && plain_digits(digits) && digits.len() > 0 && s
            == #[trigger] power(e, sign, digits)
}

proof fn lemma_plain_digits(s: Seq<char>)
    ensures
        plain_digits(s) == all_digits(s, 10),
{
    assert forall|i: int| 0 <= i < s.len() implies ('0' as int <= (#[trigger] s[i]) as int
        <= '9' as int) == is_digit(s[i], 10) by {
        lemma_digit(s[i]);
    }
    if plain_digits(s) {
        assert forall|i: int| 0 <= i < s.len() implies is_digit(#[trigger] s[i], 10) by {}
    }
    if all_digits(s, 10) {
        assert forall|i: int| 0 <= i < s.len() implies '0' as int <= (#[trigger] s[i]) as int
            <= '9' as int by {
            assert(is_digit(s[i], 10));
        }
    }
}

proof fn lemma_power(s: Seq<char>)
    ensures
        may_be_power(s) == is_exponent(s),
{
    if s.len() > 0 {
        let rest = s.drop_first();
        if may_be_power(s) {
            let (e, sign, digits) = choose|e: char, sign: Seq<char>, digits: Seq<char>|
                (e == 'e' || e == 'E') && is_sign(sign) && plain_digits(digits) && digits.len() > 0
                    && s == #[trigger] power(e, sign, digits);
            assert(rest =~= sign + digits);
            assert(s[0] == e);
            lemma_without_sign(sign, digits);
            lemma_plain_digits(digits);
        }
        if is_exponent(s) {
            lemma_small(s[0], 'e', 'E');
            let digits = without_sign(rest);
            let sign = rest.take(rest.len() - digits.len());
            lemma_plain_digits(digits);
            assert(is_sign(sign)) by {
                if sign.len() > 0 {
                    assert(sign =~= seq![rest[0]]);
                }
            }
            assert(s =~= power(s[0], sign, digits));
        }
    }
}

/// A sign in front of what does not start with one is taken off.
proof fn lemma_without_sign(sign: Seq<char>, body: Seq<char>)
    requires
        is_sign(sign),
        body.len() > 0 ==> body[0] != '+' && body[0] != '-',
    ensures
        without_sign(sign + body) == body,
{
    if sign.len() == 0 {
        assert(sign + body =~= body);
    } else {
        assert((sign + body).drop_first() =~= body);
    }
}

/// Digits write an amount, whichever they are and however many: with or without a point in
/// front of them, behind them or among them, with or without a sign and a power of ten.
pub proof fn lemma_digits_write_amounts(
    sign: Seq<char>,
    a: Seq<char>,
    b: Seq<char>,
    e: Seq<char>,
)
    requires
        is_sign(sign),
        plain_digits(a),
        plain_digits(b),
        a.len() + b.len() > 0,
        may_be_power(e),
    ensures
        a.len() > 0 ==> is_decimal(sign + (a + e)),
        is_decimal(sign + (a + seq!['.'] + b + e)),
{
    lemma_power(e);
    lemma_plain_digits(a);
    lemma_plain_digits(b);
    if a.len() > 0 {
        let body = a + e;
        assert(body[0] == a[0]);
        lemma_without_sign(sign, body);
        assert(body.take(a.len() as int) =~= a);
        assert(body.skip(a.len() as int) =~= e);
        assert(is_mantissa(body.take(a.len() as int)));
    }
    let t = a + seq!['.'] + b;
    let body = t + e;
    let p = a.len() as int;
    assert(body[0] == if a.len() > 0 {
        a[0]
    } else {
        '.'
    });
    lemma_without_sign(sign, body);
    assert(body.take(t.len() as int) =~= t);
    assert(body.skip(t.len() as int) =~= e);
    assert(t[p] == '.');
    assert(t.take(p) =~= a);
    assert(t.skip(p + 1) =~= b);
    assert(is_mantissa(body.take(t.len() as int)));
}

/// Whether `s` is written in the letters of `w`, which are small, or in the capitals `v`.
pub open spec fn in_either_case(s: Seq<char>, w: Seq<char>, v: Seq<char>) -> bool {
    s.len() == w.len() && forall|i: int|
        0 <= i < s.len() ==> (#[trigger] s[i]) == w[i] || s[i] == v[i]
}

/// Whether `s` is one of the words for what is no finite number.
pub open spec fn is_number_word(s: Seq<char>) -> bool {
    ||| in_either_case(s, "inf"@, "INF"@)
    ||| in_either_case(s, "infinity"@, "INFINITY"@)
    ||| in_either_case(s, "nan"@, "NAN"@)
}

proof fn lemma_number_word(s: Seq<char>)
    ensures
        is_number_word(s) == (is_word(s, "inf"@) || is_word(s, "infinity"@) || is_word(s, "nan"@)),
{
    reveal_strlit("inf");
    reveal_strlit("INF");
    reveal_strlit("infinity");
    reveal_strlit("INFINITY");
    reveal_strlit("nan");
    reveal_strlit("NAN");
    lemma_word(s, "inf"@, "INF"@);
    lemma_word(s, "infinity"@, "INFINITY"@);
    lemma_word(s, "nan"@, "NAN"@);
}

proof fn lemma_small(c: char, w: char, v: char)
    requires
        97 <= w as int <= 122,
        v as int == w as int - 32,
    ensures
        (small(c) == w) == (c == w || c == v),
{
}

proof fn lemma_word(s: Seq<char>, w: Seq<char>, v: Seq<char>)
    requires
        w.len() == v.len(),
        forall|i: int|
            0 <= i < w.len() ==> 97 <= (#[trigger] w[i]) as int <= 122 && v[i] as int == w[i] as int
                - 32,
    ensures
        in_either_case(s, w, v) == is_word(s, w),
{
    if s.len() == w.len() {
        assert forall|i: int| 0 <= i < s.len() implies (small(#[trigger] s[i]) == w[i]) == (s[i]
            == w[i] || s[i] == v[i]) by {
            lemma_small(s[i], w[i], v[i]);
        }
        if is_word(s, w) {
            assert forall|i: int| 0 <= i < s.len() implies (#[trigger] s[i]) == w[i] || s[i]
                == v[i] by {
                assert(small(s[i]) == w[i]);
            }
        }
    }
}

/// The words for what is no finite number are amounts, with or without a sign.
pub proof fn lemma_words_write_amounts(sign: Seq<char>, w: Seq<char>)
    requires
        is_sign(sign),
        is_number_word(w),
    ensures
        is_decimal(sign + w),
{
    lemma_number_word(w);
    reveal_strlit("inf");
    reveal_strlit("INF");
    reveal_strlit("infinity");
    reveal_strlit("INFINITY");
    reveal_strlit("nan");
    reveal_strlit("NAN");
    assert(w[0] != '+' && w[0] != '-');
    lemma_without_sign(sign, w);
}

/// Whether `s` is a sign, digits with or without a point, at least one of them, and perhaps a
/// power of ten.
pub open spec fn is_made_of(
    s: Seq<char>,
    sign: Seq<char>,
    a: Seq<char>,
    b: Seq<char>,
    e: Seq<char>,
) -> bool {
    &&& is_sign(sign)
    &&& plain_digits(a)
    &&& plain_digits(b)
    &&& a.len() + b.len() > 0
    &&& may_be_power(e)
    &&& a.len() > 0 && s == sign + (a + e) || s == sign + (a + seq!['.'] + b + e)
}

/// Nothing else is an amount: behind its sign an amount is one of the words for what is no
/// finite number, or it is made of digits, a point and a power of ten.
pub proof fn lemma_nothing_else_is_an_amount(s: Seq<char>)
    requires
        is_decimal(s),
    ensures
        (exists|sign: Seq<char>, w: Seq<char>|
            is_sign(sign) && is_number_word(w) && s == #[trigger] (sign + w)) || (exists|
            sign: Seq<char>,
            a: Seq<char>,
            b: Seq<char>,
            e: Seq<char>,
        | #[trigger]
            is_made_of(s, sign, a, b, e)),
{
    let body = without_sign(s);
    let sign = s.take(s.len() - body.len());
    assert(is_sign(sign)) by {
        if sign.len() > 0 {
            assert(sign =~= seq![s[0]]);
        }
    }
    assert(s =~= sign + body);
    lemma_number_word(body);
    if is_number_word(body) {
        assert(s == sign + body);
    } else {
        lemma_made_of(s, sign, body);
    }
}

proof fn lemma_made_of(s: Seq<char>, sign: Seq<char>, body: Seq<char>)
    requires
        is_sign(sign),
        s == sign + body,
        exists|m: int|
            0 <= m <= body.len() && is_mantissa(#[trigger] body.take(m)) && is_exponent(
                body.skip(m),
            ),
    ensures
        exists|a: Seq<char>, b: Seq<char>, e: Seq<char>| #[trigger]
            is_made_of(s, sign, a, b, e),
{
    let m = choose|m: int|
        0 <= m <= body.len() && is_mantissa(#[trigger] body.take(m)) && is_exponent(
            body.skip(m),
        );
    let t = body.take(m);
    let e = body.skip(m);
    assert(body =~= t + e);
    lemma_power(e);
    if all_digits(t, 10) {
        lemma_plain_digits(t);
        assert(is_made_of(s, sign, t, Seq::empty(), e));
    } else {
        let p = choose|p: int|
            0 <= p < t.len() && #[trigger] t[p] == '.' && all_digits(t.take(p), 10)
                && all_digits(t.skip(p + 1), 10);
        let a = t.take(p);
        let b = t.skip(p + 1);
        lemma_plain_digits(a);
        lemma_plain_digits(b);
        assert(t =~= a + seq!['.'] + b);
        assert(is_made_of(s, sign, a, b, e));
    }
}

/// A number that was written in a radix is read back from what was written.
pub proof fn lemma_written_is_read(n: u64, radix: u64, s: String, t: &str, r: Option<u64>)
    requires
        2 <= radix <= 36,
        call_ensures(to_numeral, (n, radix), s),
        t@ == s@,
        call_ensures(parse_integer, (t, radix, u64::MAX), r),
    ensures
        r == Some(n),
        s@.len() > 0,
        s@[0] == '0' <==> n == 0,
{
    lemma_numeral_reads_back(n as nat, radix as nat, u64::MAX as nat);
    lemma_numeral_form(n as nat, radix as nat);
}

/// What is read as an integer is what the text says, and it is no larger than allowed.
pub proof fn lemma_integer_read(s: &str, radix: u64, max: u64, r: Option<u64>)
    requires
        call_ensures(parse_integer, (s, radix, max), r),
    ensures
        match integer_of(s@, radix as nat, max as nat) {
            Some(n) => r == Some(n as u64) && n <= max,
            None => r is None,
        },
{
}

/// A text is told to be a decimal number exactly where it is a sign and a word for what is no
/// finite number, or is made of digits, a point and a power of ten.
pub proof fn lemma_decimal_told(s: &str, r: bool)
    requires
        call_ensures(is_decimal_text, (s,), r),
    ensures
        r <==> (exists|sign: Seq<char>, w: Seq<char>|
            is_sign(sign) && is_number_word(w) && s@ == #[trigger] (sign + w)) || (exists|
            sign: Seq<char>,
            a: Seq<char>,
            b: Seq<char>,
            e: Seq<char>,
        | #[trigger]
            is_made_of(s@, sign, a, b, e)),
{
    if r {
        lemma_nothing_else_is_an_amount(s@);
    }
    if exists|sign: Seq<char>, w: Seq<char>|
        is_sign(sign) && is_number_word(w) && s@ == #[trigger] (sign + w) {
        let (sign, w) = choose|sign: Seq<char>, w: Seq<char>|
            is_sign(sign) && is_number_word(w) && s@ == #[trigger] (sign + w);
        lemma_words_write_amounts(sign, w);
    }
    if exists|sign: Seq<char>, a: Seq<char>, b: Seq<char>, e: Seq<char>| #[trigger]
        is_made_of(s@, sign, a, b, e) {
        let (sign, a, b, e) = choose|
            sign: Seq<char>,
            a: Seq<char>,
            b: Seq<char>,
            e: Seq<char>,
        | #[trigger]
            is_made_of(s@, sign, a, b, e);
        lemma_digits_write_amounts(sign, a, b, e);
    }
}

} // verus!
