//! Decimal numbers the way programs print them: a sign, a point and an exponent
//! where they are wanted, or a word for what no number is.
//!
//! A number is held in trillionths. What is finer than that is dropped, and what
//! is further from zero than [`MOST`] counts as that.

use crate::text::all_digits;
use crate::text::copy_of;
use crate::text::digits_value;
use crate::text::find_of;
use crate::text::first_of;
use crate::text::is_text;
use crate::text::lower;
use crate::text::only_digits;
use crate::text::to_lower;
use crate::timestamps::lemma_first_is;
use vstd::prelude::*;
use vstd::slice::slice_subrange;

verus! {

/// The furthest from zero a number is held, in trillionths: ten to the power of
/// twenty-two.
pub const MOST: i128 = 10_000_000_000_000_000_000_000_000_000_000_000;

/// An exponent this large puts any number but zero past [`MOST`], and one this
/// far below zero puts any number below a trillionth.
const FAR: i128 = 100_000_000_000_000_000_000_000_000_000_000_000;

/// A number in trillionths, or no number: beyond all numbers upward, downward,
/// or, with both marks, neither here nor there.
#[derive(Clone, Copy, Debug, PartialEq, Eq, Structural)]
pub struct Amount {
    pub units: i128,
    pub up: bool,
    pub down: bool,
}

/// Whether a text starts with a minus sign.
pub open spec fn negative(s: Seq<char>) -> bool {
    s.len() > 0 && s[0] == '-'
}

/// A text without the sign in front.
pub open spec fn unsigned(s: Seq<char>) -> Seq<char> {
    if s.len() > 0 && (s[0] == '+' || s[0] == '-') {
        s.skip(1)
    } else {
        s
    }
}

/// The power of ten after the exponent mark: digits, with either sign allowed in
/// front.
pub open spec fn exponent(s: Seq<char>) -> Option<int> {
    let d = unsigned(s);
    if d.len() == 0 || !all_digits(d) {
        None
    } else if negative(s) {
        Some(-digits_value(d))
    } else {
        Some(digits_value(d) as int)
    }
}

/// The number that the first `n` digits of an endless run write, which starts
/// with these and goes on in zeros.
pub open spec fn leading(d: Seq<char>, n: int) -> int
    decreases n,
{
    if n <= 0 {
        0
    } else if n <= d.len() {
        leading(d, n - 1) * 10 + (d[n - 1] as int - 48)
    } else {
        leading(d, n - 1) * 10
    }
}

/// A number no larger than it may be.
pub open spec fn at_most(n: int, most: int) -> int {
    if n > most {
        most
    } else {
        n
    }
}

/// A number without a sign, in trillionths: digits with a point somewhere among
/// them or nowhere, as long as there is a digit, and then perhaps an exponent.
pub open spec fn magnitude(s: Seq<char>) -> Option<int> {
    let e = first_of(s, seq!['e', 'E']);
    let mantissa = s.take(e);
    let p = first_of(mantissa, seq!['.']);
    let whole = mantissa.take(p);
    let part = mantissa.skip(if p < mantissa.len() { p + 1 } else { p });
    let power = if e < s.len() {
        exponent(s.skip(e + 1))
    } else {
        Some(0)
    };
    match power {
        Some(power) if (whole + part).len() > 0 && all_digits(whole) && all_digits(part) => Some(
            at_most(leading(whole + part, whole.len() + power + 12), MOST as int),
        ),
        _ => None,
    }
}

/// What a text says, if it says a number: a sign, if there is one, and then the
/// number, or in any case of letters `inf`, `infinity` or `nan`.
pub open spec fn amount(s: Seq<char>) -> Option<Amount> {
    let word = lower(unsigned(s));
    match magnitude(unsigned(s)) {
        Some(n) => Some(
            Amount {
                units: (if negative(s) {
                    -n
                } else {
                    n
                }) as i128,
                up: false,
                down: false,
            },
        ),
        None => if word == "inf"@ || word == "infinity"@ {
            Some(Amount { units: 0, up: !negative(s), down: negative(s) })
        } else if word == "nan"@ {
            Some(Amount { units: 0, up: true, down: true })
        } else {
            None
        },
    }
}

/// The digits of a run that are all given write the run.
pub proof fn lemma_leading_is_value(d: Seq<char>)
    requires
        all_digits(d),
    ensures
        leading(d, d.len() as int) == digits_value(d),
    decreases d.len(),
{
    if d.len() > 0 {
        let n = d.len() as int;
        lemma_leading_is_value(d.drop_last());
        lemma_leading_of_prefix(d, d.drop_last(), n - 1);
        assert('0' <= d[n - 1] <= '9');
    }
}

proof fn lemma_leading_of_prefix(d: Seq<char>, front: Seq<char>, n: int)
    requires
        n <= front.len() <= d.len(),
        front == d.take(front.len() as int),
    ensures
        leading(d, n) == leading(front, n),
    decreases n,
{
    if n > 0 {
        lemma_leading_of_prefix(d, front, n - 1);
    }
}

proof fn lemma_leading_nonnegative(d: Seq<char>, n: int)
    requires
        all_digits(d),
    ensures
        leading(d, n) >= 0,
    decreases n,
{
    if n > 0 {
        lemma_leading_nonnegative(d, n - 1);
        if n <= d.len() {
            assert('0' <= d[n - 1] <= '9');
        }
    }
}

/// Past the given digits, a number that is zero or large enough stays so.
proof fn lemma_leading_settles(d: Seq<char>, k: int, n: int, most: int)
    requires
        d.len() <= k <= n,
        0 <= k,
        0 <= most,
        leading(d, k) == 0 || leading(d, k) >= most,
    ensures
        leading(d, k) == 0 ==> leading(d, n) == 0,
        leading(d, k) >= most ==> leading(d, n) >= most,
    decreases n - k,
{
    if k < n {
        lemma_leading_settles(d, k, n - 1, most);
    }
}

/// Each zero adds to a number that is not zero.
proof fn lemma_leading_grows(d: Seq<char>, n: int)
    requires
        all_digits(d),
        d.len() <= n,
    ensures
        leading(d, d.len() as int) == 0 ==> leading(d, n) == 0,
        leading(d, d.len() as int) > 0 ==> leading(d, n) > n - d.len(),
    decreases n,
{
    if d.len() < n {
        lemma_leading_grows(d, n - 1);
    }
}

/// Past [`FAR`], an exponent changes nothing more.
proof fn lemma_far_is_enough(d: Seq<char>, w: int, power: int)
    requires
        all_digits(d),
        0 <= w <= d.len() <= usize::MAX,
    ensures
        power > FAR ==> at_most(leading(d, w + power + 12), MOST as int) == at_most(
            leading(d, w + FAR + 12),
            MOST as int,
        ),
        power < -FAR ==> leading(d, w + power + 12) == leading(d, w - FAR + 12),
{
    if power > FAR {
        lemma_leading_nonnegative(d, d.len() as int);
        lemma_leading_grows(d, w + power + 12);
        lemma_leading_grows(d, w + FAR + 12);
    }
}

/// The number that the first `n` digits of an endless run write, no larger than
/// it may be.
fn capped_leading(d: &[char], n: i128, most: i128) -> (r: i128)
    requires
        all_digits(d@),
        0 <= most <= FAR,
    ensures
        r == at_most(leading(d@, n as int), most as int),
        0 <= r <= most,
{
    let mut v: i128 = 0;
    let mut i: usize = 0;
    while i < d.len() && (i as i128) < n
        invariant
            i <= d@.len(),
            n > 0 ==> i <= n,
            n <= 0 ==> i == 0,
            all_digits(d@),
            0 <= v <= most <= FAR,
            v == at_most(leading(d@, i as int), most as int),
        decreases d@.len() - i,
    {
        proof {
            lemma_leading_nonnegative(d@, i as int);
            assert('0' <= d@[i as int] <= '9');
        }
        let next: i128 = v * 10 + (d[i] as u32 - 48) as i128;
        v = if next > most {
            most
        } else {
            next
        };
        i += 1;
    }
    if n <= 0 || (i as i128) >= n {
        return v;
    }
    let mut k: i128 = i as i128;
    while k < n && v > 0 && v < most
        invariant
            d@.len() <= k <= n,
            0 <= v <= most <= FAR,
            v == at_most(leading(d@, k as int), most as int),
            all_digits(d@),
        decreases n - k,
    {
        proof {
            lemma_leading_nonnegative(d@, k as int);
        }
        let next: i128 = v * 10;
        v = if next > most {
            most
        } else {
            next
        };
        k += 1;
    }
    proof {
        lemma_leading_nonnegative(d@, k as int);
        if k < n {
            lemma_leading_settles(d@, k as int, n as int, most as int);
        }
    }
    v
}

/// Digits, and a point with more of them behind it if there are any, say the
/// number they write.
pub proof fn lemma_plain_number(whole: Seq<char>, part: Seq<char>)
    requires
        whole.len() > 0,
        all_digits(whole),
        all_digits(part),
        part.len() == 0 || part.len() == 3,
        part.len() == 0 ==> digits_value(whole) <= 10_000_000_000_000_000_000_000,
        part.len() == 3 ==> digits_value(whole) * 1000 + digits_value(part)
            <= 10_000_000_000_000_000_000_000_000,
    ensures
        part.len() == 0 ==> amount(whole) == Some(
            Amount {
                units: (digits_value(whole) * 1_000_000_000_000) as i128,
                up: false,
                down: false,
            },
        ),
        part.len() == 3 ==> amount(whole + seq!['.'] + part) == Some(
            Amount {
                units: ((digits_value(whole) * 1000 + digits_value(part)) * 1_000_000_000) as i128,
                up: false,
                down: false,
            },
        ),
{
    let d = whole + part;
    let s = if part.len() == 0 {
        whole
    } else {
        whole + seq!['.'] + part
    };
    let n = whole.len() as int;
    assert forall|i: int| 0 <= i < s.len() implies ('0' <= #[trigger] s[i] <= '9' || (i == n && s[i]
        == '.')) by {
        if i < n {
            assert(s[i] == whole[i]);
        } else if i > n {
            assert(s[i] == part[i - n - 1]);
        }
    }
    assert('0' <= s[0] <= '9') by {
        assert(s[0] == whole[0]);
    }
    assert(unsigned(s) == s);
    let marks = seq!['e', 'E'];
    assert(forall|c: char| marks.contains(c) ==> c == 'e' || c == 'E');
    lemma_first_is(s, marks, s.len() as int);
    let mantissa = s.take(s.len() as int);
    assert(mantissa =~= s);
    let point = seq!['.'];
    assert(forall|c: char| point.contains(c) ==> c == '.');
    assert(point.contains('.')) by {
        assert(point[0] == '.');
    }
    assert forall|i: int| 0 <= i < n implies !point.contains(#[trigger] s[i]) by {
        assert(s[i] == whole[i]);
    }
    lemma_first_is(s, point, n);
    assert(mantissa.take(n) =~= whole);
    assert(mantissa.skip(if n < s.len() { n + 1 } else { n }) =~= part);
    assert(all_digits(d)) by {
        assert forall|i: int| 0 <= i < d.len() implies '0' <= #[trigger] d[i] <= '9' by {
            if i < n {
                assert(d[i] == whole[i]);
            } else {
                assert(d[i] == part[i - n]);
            }
        }
    }
    lemma_leading_is_value(d);
    if part.len() == 0 {
        assert(d =~= whole);
        reveal_with_fuel(leading, 13);
        assert(leading(d, n + 12) == leading(d, n) * 1_000_000_000_000);
    } else {
        lemma_three_more(whole, part);
        reveal_with_fuel(leading, 10);
        assert(leading(d, n + 12) == leading(d, n + 3) * 1_000_000_000);
    }
}

/// Three digits more write a thousand times the number, and theirs.
proof fn lemma_three_more(whole: Seq<char>, part: Seq<char>)
    requires
        all_digits(part),
        part.len() == 3,
    ensures
        digits_value(whole + part) == digits_value(whole) * 1000 + digits_value(part),
{
    reveal_with_fuel(digits_value, 4);
    let d = whole + part;
    assert('0' <= part[0] <= '9' && '0' <= part[1] <= '9' && '0' <= part[2] <= '9');
    assert(d.drop_last() =~= whole + part.take(2));
    assert(d.drop_last().drop_last() =~= whole + part.take(1));
    assert(d.drop_last().drop_last().drop_last() =~= whole);
    assert(part.drop_last() =~= part.take(2));
    assert(part.drop_last().drop_last() =~= part.take(1));
    assert(part.take(1).drop_last() =~= Seq::<char>::empty());
}

/// Whether a text starts with a minus sign.
fn is_negative(cs: &[char]) -> (r: bool)
    ensures
        r == negative(cs@),
{
    cs.len() > 0 && cs[0] == '-'
}

/// A text without the sign in front.
fn after_sign(cs: &[char]) -> (r: &[char])
    ensures
        r@ == unsigned(cs@),
{
    if cs.len() > 0 && (cs[0] == '+' || cs[0] == '-') {
        let r = slice_subrange(cs, 1, cs.len());
        assert(r@ =~= cs@.skip(1));
        r
    } else {
        cs
    }
}

/// Reads an exponent, one past [`FAR`] on either side as [`FAR`].
fn parse_exponent(cs: &[char]) -> (r: Option<i128>)
    ensures
        match exponent(cs@) {
            Some(n) => r == Some(
                if n > FAR {
                    FAR
                } else if n < -FAR {
                    (-FAR) as i128
                } else {
                    n as i128
                },
            ),
            None => r is None,
        },
        r matches Some(n) ==> -FAR <= n <= FAR,
{
    let d = after_sign(cs);
    if d.len() == 0 || !only_digits(d) {
        return None;
    }
    let n = capped_leading(d, d.len() as i128, FAR);
    proof {
        lemma_leading_is_value(d@);
    }
    if is_negative(cs) {
        Some(-n)
    } else {
        Some(n)
    }
}

/// Reads a number without a sign, in trillionths.
fn parse_magnitude(cs: &[char]) -> (r: Option<i128>)
    ensures
        match magnitude(cs@) {
            Some(n) => 0 <= n <= MOST && r == Some(n as i128),
            None => r is None,
        },
{
    let marks: [char; 2] = ['e', 'E'];
    let point: [char; 1] = ['.'];
    assert(marks@ =~= seq!['e', 'E']);
    assert(point@ =~= seq!['.']);
    let e = find_of(cs, marks.as_slice());
    let mantissa = slice_subrange(cs, 0, e);
    assert(mantissa@ =~= cs@.take(e as int));
    let p = find_of(mantissa, point.as_slice());
    let whole = slice_subrange(mantissa, 0, p);
    assert(whole@ =~= mantissa@.take(p as int));
    let from: usize = if p < mantissa.len() {
        p + 1
    } else {
        p
    };
    let part = slice_subrange(mantissa, from, mantissa.len());
    assert(part@ =~= mantissa@.skip(from as int));
    let ghost mut exact: int = 0;
    let power: i128 = if e < cs.len() {
        let after = slice_subrange(cs, e + 1, cs.len());
        assert(after@ =~= cs@.skip(e + 1));
        match parse_exponent(after) {
            Some(n) => {
                proof {
                    exact = exponent(after@)->0;
                }
                n
            },
            None => return None,
        }
    } else {
        0
    };
    if (whole.len() == 0 && part.len() == 0) || !only_digits(whole) || !only_digits(part) {
        return None;
    }
    let mut digits = copy_of(whole, whole.len());
    let mut i: usize = 0;
    assert(digits@ =~= whole@ + part@.take(0));
    while i < part.len()
        invariant
            i <= part@.len(),
            digits@ == whole@ + part@.take(i as int),
        decreases part@.len() - i,
    {
        digits.push(part[i]);
        assert(digits@ =~= whole@ + part@.take(i + 1));
        i += 1;
    }
    proof {
        assert(digits@ =~= whole@ + part@);
        assert forall|k: int| 0 <= k < digits@.len() implies '0' <= #[trigger] digits@[k] <= '9' by {
            if k < whole@.len() {
                assert(digits@[k] == whole@[k]);
            } else {
                assert(digits@[k] == part@[k - whole@.len()]);
            }
        }
        lemma_far_is_enough(digits@, whole@.len() as int, exact);
        lemma_leading_nonnegative(digits@, whole@.len() + exact + 12);
    }
    Some(capped_leading(digits.as_slice(), whole.len() as i128 + power + 12, MOST))
}

/// Reads a number, or a word for what no number is.
pub fn parse_amount(cs: &[char]) -> (r: Option<Amount>)
    ensures
        r == amount(cs@),
        r matches Some(a) ==> -MOST <= a.units <= MOST,
{
    let body = after_sign(cs);
    let minus = is_negative(cs);
    if let Some(n) = parse_magnitude(body) {
        let units: i128 = if minus {
            -n
        } else {
            n
        };
        return Some(Amount { units, up: false, down: false });
    }
    let word = to_lower(body);
    if is_text(word.as_slice(), "inf") || is_text(word.as_slice(), "infinity") {
        Some(Amount { units: 0, up: !minus, down: minus })
    } else if is_text(word.as_slice(), "nan") {
        Some(Amount { units: 0, up: true, down: true })
    } else {
        None
    }
}

/// A minus sign turns a number round, and a plus sign changes nothing.
pub proof fn law_signs_turn_numbers_round(s: Seq<char>)
    requires
        s.len() > 0,
        s[0] != '+',
        s[0] != '-',
        magnitude(s) is Some,
    ensures
        amount(s) matches Some(a) && !a.up && !a.down && {
            &&& amount(seq!['-'] + s) == Some(Amount { units: (-a.units) as i128, ..a })
            &&& amount(seq!['+'] + s) == Some(a)
        },
{
    let minus = seq!['-'] + s;
    let plus = seq!['+'] + s;
    assert(minus.skip(1) =~= s);
    assert(plus.skip(1) =~= s);
    lemma_magnitude_bounds(s);
}

proof fn lemma_magnitude_bounds(s: Seq<char>)
    ensures
        magnitude(s) matches Some(n) ==> 0 <= n <= MOST,
{
    if magnitude(s) is Some {
        let e = first_of(s, seq!['e', 'E']);
        let mantissa = s.take(e);
        let p = first_of(mantissa, seq!['.']);
        let whole = mantissa.take(p);
        let part = mantissa.skip(if p < mantissa.len() {
            p + 1
        } else {
            p
        });
        let d = whole + part;
        assert(all_digits(d)) by {
            assert forall|i: int| 0 <= i < d.len() implies '0' <= #[trigger] d[i] <= '9' by {
                if i < whole.len() {
                    assert(d[i] == whole[i]);
                } else {
                    assert(d[i] == part[i - whole.len()]);
                }
            }
        }
        let power = if e < s.len() {
            exponent(s.skip(e + 1))
        } else {
            Some(0)
        };
        lemma_leading_nonnegative(d, whole.len() + power->0 + 12);
    }
}

/// An exponent moves the point: digits with one say the number they write, times
/// that power of ten, for as long as that is no more than is held.
pub proof fn law_exponents_move_the_point(d: Seq<char>, mark: char, power: Seq<char>)
    requires
        d.len() > 0,
        all_digits(d),
        mark == 'e' || mark == 'E',
        power.len() > 0,
        all_digits(power),
    ensures
        magnitude(d + seq![mark] + power) == Some(
            at_most(leading(d, d.len() as int + digits_value(power) + 12), MOST as int),
        ),
        forall|k: int| k >= d.len() ==> #[trigger] leading(d, k + 1) == 10 * leading(d, k),
        leading(d, d.len() as int) == digits_value(d),
{
    let s = d + seq![mark] + power;
    let n = d.len() as int;
    let marks = seq!['e', 'E'];
    assert(marks[0] == 'e' && marks[1] == 'E');
    assert forall|i: int| 0 <= i < n implies !marks.contains(#[trigger] s[i]) by {
        assert(s[i] == d[i]);
        assert('0' <= d[i] <= '9');
    }
    assert(marks.contains(s[n]));
    lemma_first_is(s, marks, n);
    assert(s.take(n) =~= d);
    assert(s.skip(n + 1) =~= power);
    let point = seq!['.'];
    assert forall|i: int| 0 <= i < n implies !point.contains(#[trigger] d[i]) by {
        assert('0' <= d[i] <= '9');
    }
    lemma_first_is(d, point, n);
    assert(d.take(n) =~= d);
    assert(d.skip(n) =~= Seq::<char>::empty());
    assert(d + Seq::<char>::empty() =~= d);
    assert('0' <= power[0] <= '9');
    lemma_leading_is_value(d);
}

} // verus!
