//! Coordinates as decimal text: how a coordinate of a saved graph is written
//! and read back, in thousandths of a pixel.
use vstd::prelude::*;
use crate::text::push_char;

verus! {

/// The largest magnitude of a coordinate, in thousandths of a pixel.
pub const COORDINATE_LIMIT: i64 = 9_000_000_000_000_000_000;

pub open spec fn is_digit(c: char) -> bool {
    '0' <= c && c <= '9'
}

pub open spec fn digit_value(c: char) -> int {
    (c as int) - ('0' as int)
}

pub open spec fn all_digits(s: Seq<char>) -> bool {
    forall|i: int| 0 <= i < s.len() ==> is_digit(#[trigger] s[i])
}

/// The number that the decimal digits `s` stand for.
pub open spec fn digits_value(s: Seq<char>) -> int
    decreases s.len(),
{
    if s.len() == 0 {
        0
    } else {
        digits_value(s.drop_last()) * 10 + digit_value(s.last())
    }
}

pub open spec fn pow10(k: nat) -> int
    decreases k,
{
    if k == 0 {
        1
    } else {
        10 * pow10((k - 1) as nat)
    }
}

/// How many decimal digits `s` begins with.
pub open spec fn leading_digits(s: Seq<char>) -> int
    decreases s.len(),
{
    if s.len() > 0 && is_digit(s[0]) {
        1 + leading_digits(s.drop_first())
    } else {
        0
    }
}

/// The value of an exponent: an optional sign and at least one digit.
pub open spec fn exponent_value(x: Seq<char>) -> Option<int> {
    let signed = x.len() > 0 && (x[0] == '-' || x[0] == '+');
    let d = if signed {
        x.skip(1)
    } else {
        x
    };
    if d.len() > 0 && all_digits(d) {
        if x[0] == '-' {
            Some(-digits_value(d))
        } else {
            Some(digits_value(d))
        }
    } else {
        None
    }
}

/// The digits `d` with the point after the first `p` of them, rounded half
/// up to a whole number. The point may stand past the digits, with zeros
/// between, or before them, with zeros between.
pub open spec fn shifted_value(d: Seq<char>, p: int) -> int {
    if p >= d.len() {
        digits_value(d) * pow10((p - d.len()) as nat)
    } else if p >= 0 {
        digits_value(d.take(p)) + if digit_value(d[p]) >= 5 {
            1int
        } else {
            0int
        }
    } else {
        0
    }
}

/// The exponent that ends a numeral: none, or `e` or `E` and its value.
pub open spec fn exponent_part(rest: Seq<char>) -> Option<int> {
    if rest.len() == 0 {
        Some(0)
    } else if rest[0] == 'e' || rest[0] == 'E' {
        exponent_value(rest.drop_first())
    } else {
        None
    }
}

/// The thousandths, rounded half up, that an unsigned numeral stands for,
/// in the forms that Rust reads as a finite float: digits, a point and
/// digits, with at least one digit in all, then `e` or `E`, an optional sign
/// and digits, where there is an exponent.
#[verifier::opaque]
pub open spec fn unsigned_milli(b: Seq<char>) -> Option<int> {
    let i = leading_digits(b);
    let point = i < b.len() && b[i] == '.';
    let f = if point {
        leading_digits(b.skip(i + 1))
    } else {
        0
    };
    let end = if point {
        i + 1 + f
    } else {
        i
    };
    let digits = if point {
        b.take(i) + b.subrange(i + 1, end)
    } else {
        b.take(i)
    };
    if i + f == 0 {
        None
    } else {
        match exponent_part(b.skip(end)) {
            Some(e) => Some(shifted_value(digits, i + e + 3)),
            None => None,
        }
    }
}

/// The coordinate, in thousandths of a pixel, that the text `s` stands for:
/// an optional sign and an unsigned numeral, of a magnitude at most
/// `COORDINATE_LIMIT`; `None` for any other text.
pub open spec fn decimal_milli(s: Seq<char>) -> Option<int> {
    let signed = s.len() > 0 && (s[0] == '-' || s[0] == '+');
    let magnitude = if signed {
        unsigned_milli(s.skip(1))
    } else {
        unsigned_milli(s)
    };
    match magnitude {
        Some(m) => if m > COORDINATE_LIMIT {
            None
        } else if s.len() > 0 && s[0] == '-' {
            Some(-m)
        } else {
            Some(m)
        },
        None => None,
    }
}

pub open spec fn digit_char(d: int) -> char {
    (('0' as int) + d) as char
}

/// The decimal digits of `n`, without leading zeros.
pub open spec fn natural_digits(n: nat) -> Seq<char>
    decreases n,
{
    if n < 10 {
        seq![digit_char(n as int)]
    } else {
        natural_digits(n / 10).push(digit_char((n % 10) as int))
    }
}

/// The digits of a fraction of `f` thousandths, `0 < f < 1000`, without
/// trailing zeros.
pub open spec fn fraction_digits(f: int) -> Seq<char> {
    if f % 100 == 0 {
        seq![digit_char(f / 100)]
    } else if f % 10 == 0 {
        seq![digit_char(f / 100), digit_char((f / 10) % 10)]
    } else {
        seq![digit_char(f / 100), digit_char((f / 10) % 10), digit_char(f % 10)]
    }
}

/// `m` thousandths written in pixels: the whole part, and a point and the
/// fraction where there is one.
pub open spec fn unsigned_text(m: nat) -> Seq<char> {
    if m % 1000 == 0 {
        natural_digits(m / 1000)
    } else {
        natural_digits(m / 1000) + seq!['.'] + fraction_digits((m % 1000) as int)
    }
}

/// The text of a coordinate of `v` thousandths of a pixel.
pub open spec fn coordinate_text(v: int) -> Seq<char> {
    if v < 0 {
        seq!['-'] + unsigned_text((-v) as nat)
    } else {
        unsigned_text(v as nat)
    }
}


proof fn lemma_digit_char(d: int)
    requires
        0 <= d <= 9,
    ensures
        is_digit(digit_char(d)),
        digit_value(digit_char(d)) == d,
{
}

proof fn lemma_natural_digits(n: nat)
    ensures
        all_digits(natural_digits(n)),
        natural_digits(n).len() > 0,
        digits_value(natural_digits(n)) == n,
    decreases n,
{
    if n < 10 {
        lemma_digit_char(n as int);
        assert(natural_digits(n).drop_last() =~= Seq::<char>::empty());
        assert(digits_value(Seq::<char>::empty()) == 0);
    } else {
        lemma_natural_digits(n / 10);
        lemma_digit_char((n % 10) as int);
        let s = natural_digits(n / 10);
        assert(natural_digits(n).drop_last() =~= s);
        assert(natural_digits(n).last() == digit_char((n % 10) as int));
        assert(digits_value(natural_digits(n)) == digits_value(s) * 10 + (n % 10));
        assert((n / 10) * 10 + n % 10 == n);
    }
}

proof fn lemma_pow10_small()
    ensures
        pow10(0) == 1,
        pow10(1) == 10,
        pow10(2) == 100,
        pow10(3) == 1000,
{
    reveal_with_fuel(pow10, 4);
}

proof fn lemma_fraction_digits(f: int)
    requires
        0 < f < 1000,
    ensures
        all_digits(fraction_digits(f)),
        1 <= fraction_digits(f).len() <= 3,
        digits_value(fraction_digits(f)) * pow10((3 - fraction_digits(f).len()) as nat) == f,
{
    let fd = fraction_digits(f);
    lemma_digit_char(f / 100);
    lemma_digit_char((f / 10) % 10);
    lemma_digit_char(f % 10);
    lemma_pow10_small();
    assert(fd.take(0) =~= Seq::<char>::empty());
    lemma_digits_step(fd, 0);
    assert(digits_value(fd.take(1)) == f / 100);
    if fd.len() == 1 {
        assert(fd.take(1) =~= fd);
        assert((3 - fd.len()) as nat == 2);
        assert((f / 100) * 100 == f);
    } else {
        lemma_digits_step(fd, 1);
        assert(digits_value(fd.take(2)) == (f / 100) * 10 + (f / 10) % 10);
        if fd.len() == 2 {
            assert(fd.take(2) =~= fd);
            assert((3 - fd.len()) as nat == 1);
            assert(((f / 100) * 10 + (f / 10) % 10) * 10 == f);
        } else {
            lemma_digits_step(fd, 2);
            assert(fd.take(3) =~= fd);
            assert((3 - fd.len()) as nat == 0);
            assert(((f / 100) * 10 + (f / 10) % 10) * 10 + f % 10 == f);
        }
    }
}

/// The digits of `a` followed by those of `c` stand for `a`'s number
/// shifted by `c`'s length, plus `c`'s number.
pub(crate) proof fn lemma_digits_concat(a: Seq<char>, c: Seq<char>)
    ensures
        digits_value(a + c) == digits_value(a) * pow10(c.len()) + digits_value(c),
    decreases c.len(),
{
    if c.len() == 0 {
        assert(a + c =~= a);
    } else {
        let c1 = c.drop_last();
        lemma_digits_concat(a, c1);
        assert((a + c).drop_last() =~= a + c1);
        assert((a + c).last() == c.last());
        let x = digits_value(a);
        let p = pow10(c1.len());
        assert(pow10(c.len()) == 10 * p);
        assert((x * p + digits_value(c1)) * 10 == x * (10 * p) + digits_value(c1) * 10)
            by (nonlinear_arith);
    }
}

/// A run of `k` digits ended by the text's end or by another character is
/// the run the text begins with.
proof fn lemma_leading_digits(s: Seq<char>, k: int)
    requires
        0 <= k <= s.len(),
        all_digits(s.take(k)),
        k == s.len() || !is_digit(s[k]),
    ensures
        leading_digits(s) == k,
    decreases k,
{
    if k > 0 {
        assert(s.take(k)[0] == s[0]);
        let t = s.drop_first();
        assert forall|j: int| 0 <= j < t.take(k - 1).len() implies is_digit(
            #[trigger] t.take(k - 1)[j],
        ) by {
            assert(t.take(k - 1)[j] == s.take(k)[j + 1]);
        }
        if k < s.len() {
            assert(t[k - 1] == s[k]);
        }
        lemma_leading_digits(t, k - 1);
    }
}

proof fn lemma_whole_text(q: nat)
    ensures
        unsigned_milli(natural_digits(q)) == Some((q * 1000) as int),
{
    reveal(unsigned_milli);
    let nd = natural_digits(q);
    lemma_natural_digits(q);
    lemma_pow10_small();
    let k = nd.len() as int;
    assert(nd.take(k) =~= nd);
    lemma_leading_digits(nd, k);
    assert(nd.skip(k) =~= Seq::<char>::empty());
    assert(shifted_value(nd, k + 3) == q * 1000);
}

proof fn lemma_fraction_text(q: nat, f: int)
    requires
        0 < f < 1000,
    ensures
        unsigned_milli(natural_digits(q) + seq!['.'] + fraction_digits(f)) == Some(q * 1000 + f),
{
    reveal(unsigned_milli);
    let nd = natural_digits(q);
    lemma_natural_digits(q);
    lemma_pow10_small();
    let k = nd.len() as int;
    let fd = fraction_digits(f);
    lemma_fraction_digits(f);
    let b = nd + seq!['.'] + fd;
    assert(b.take(k) =~= nd);
    assert(b[k] == '.');
    lemma_leading_digits(b, k);
    assert(b.skip(k + 1) =~= fd);
    assert(fd.take(fd.len() as int) =~= fd);
    lemma_leading_digits(fd, fd.len() as int);
    let end = k + 1 + fd.len();
    assert(b.subrange(k + 1, end) =~= fd);
    assert(b.skip(end) =~= Seq::<char>::empty());
    lemma_digits_concat(nd, fd);
    let lf = fd.len();
    let g = (3 - lf) as nat;
    let pf = pow10(lf);
    let pg = pow10(g);
    assert(pf * pg == 1000);
    let x = digits_value(fd);
    assert((q * pf + x) * pg == q * (pf * pg) + x * pg) by (nonlinear_arith);
    assert(shifted_value(nd + fd, k + 3) == q * 1000 + f);
}

proof fn lemma_unsigned_text(m: nat)
    ensures
        unsigned_milli(unsigned_text(m)) == Some(m as int),
        unsigned_text(m).len() > 0,
        is_digit(unsigned_text(m)[0]),
{
    let q = m / 1000;
    lemma_natural_digits(q);
    if m % 1000 == 0 {
        lemma_whole_text(q);
    } else {
        let f = (m % 1000) as int;
        lemma_fraction_text(q, f);
        let nd = natural_digits(q);
        assert((nd + seq!['.'] + fraction_digits(f))[0] == nd[0]);
    }
}

/// Writing a coordinate and reading the text back gives the coordinate.
pub proof fn lemma_coordinate_round_trip(v: int)
    requires
        -COORDINATE_LIMIT <= v <= COORDINATE_LIMIT,
    ensures
        decimal_milli(coordinate_text(v)) == Some(v),
{
    if v < 0 {
        let u = unsigned_text((-v) as nat);
        lemma_unsigned_text((-v) as nat);
        let s = seq!['-'] + u;
        assert(s.skip(1) =~= u);
        assert(s[0] == '-');
    } else {
        lemma_unsigned_text(v as nat);
        let u = unsigned_text(v as nat);
        assert(u[0] != '-' && u[0] != '+');
    }
}

pub(crate) proof fn lemma_digits_nonneg(s: Seq<char>)
    requires
        all_digits(s),
    ensures
        digits_value(s) >= 0,
    decreases s.len(),
{
    if s.len() > 0 {
        assert(all_digits(s.drop_last())) by {
            assert forall|i: int| 0 <= i < s.drop_last().len() implies is_digit(
                #[trigger] s.drop_last()[i],
            ) by {
                assert(s.drop_last()[i] == s[i]);
            }
        }
        lemma_digits_nonneg(s.drop_last());
        assert(is_digit(s[s.len() - 1]));
    }
}

pub(crate) proof fn lemma_all_digits_take(s: Seq<char>, j: int)
    requires
        all_digits(s),
        0 <= j <= s.len(),
    ensures
        all_digits(s.take(j)),
{
    assert forall|i: int| 0 <= i < s.take(j).len() implies is_digit(#[trigger] s.take(j)[i]) by {
        assert(s.take(j)[i] == s[i]);
    }
}

/// A prefix of a numeral never stands for more than the numeral.
pub(crate) proof fn lemma_digits_prefix(s: Seq<char>, j: int)
    requires
        all_digits(s),
        0 <= j <= s.len(),
    ensures
        digits_value(s.take(j)) <= digits_value(s),
    decreases s.len(),
{
    if j < s.len() {
        let t = s.drop_last();
        lemma_all_digits_take(s, s.len() - 1);
        assert(t =~= s.take(s.len() - 1));
        lemma_digits_prefix(t, j);
        assert(t.take(j) =~= s.take(j));
        lemma_digits_nonneg(t);
        assert(is_digit(s[s.len() - 1]));
    } else {
        assert(s.take(j) =~= s);
    }
}

pub(crate) proof fn lemma_digits_step(s: Seq<char>, j: int)
    requires
        0 <= j < s.len(),
    ensures
        digits_value(s.take(j + 1)) == digits_value(s.take(j)) * 10 + digit_value(s[j]),
{
    assert(s.take(j + 1).drop_last() =~= s.take(j));
}

proof fn lemma_pow10_positive(k: nat)
    ensures
        pow10(k) >= 1,
    decreases k,
{
    if k > 0 {
        lemma_pow10_positive((k - 1) as nat);
    }
}

proof fn lemma_pow10_grows(a: nat, b: nat)
    requires
        a <= b,
    ensures
        1 <= pow10(a) <= pow10(b),
    decreases b,
{
    lemma_pow10_positive(a);
    if b > a {
        lemma_pow10_grows(a, (b - 1) as nat);
    }
}

/// A point placed anywhere at or after the `j`th digit never gives less
/// than the first `j` digits.
proof fn lemma_shifted_at_least(d: Seq<char>, p: int, j: int)
    requires
        all_digits(d),
        0 <= j <= d.len(),
        j <= p,
    ensures
        shifted_value(d, p) >= digits_value(d.take(j)),
{
    if p >= d.len() {
        lemma_digits_prefix(d, j);
        lemma_digits_nonneg(d);
        lemma_pow10_grows(0, (p - d.len()) as nat);
        let x = digits_value(d);
        let y = pow10((p - d.len()) as nat);
        assert(x * y >= x) by (nonlinear_arith)
            requires
                x >= 0,
                y >= 1,
        ;
    } else {
        lemma_all_digits_take(d, p);
        lemma_digits_prefix(d.take(p), j);
        assert(d.take(p).take(j) =~= d.take(j));
    }
}

/// With the point twenty places or more past the digits, the value is zero
/// or beyond the coordinate limit.
proof fn lemma_far_shift(d: Seq<char>, p: int)
    requires
        all_digits(d),
        p >= d.len() + 20,
    ensures
        digits_value(d) == 0 ==> shifted_value(d, p) == 0,
        digits_value(d) != 0 ==> shifted_value(d, p) > COORDINATE_LIMIT,
{
    lemma_digits_nonneg(d);
    let q = (p - d.len()) as nat;
    lemma_pow10_grows(20, q);
    reveal_with_fuel(pow10, 21);
    assert(pow10(20) == 100_000_000_000_000_000_000);
    let x = digits_value(d);
    let y = pow10(q);
    if x != 0 {
        assert(x * y >= y) by (nonlinear_arith)
            requires
                x >= 1,
                y >= 1,
        ;
    }
}

} // verus!

verus! {

/// An exponent beyond this bound is held at the bound's next value: past it,
/// a numeral as long as any string stands for zero or for more than any
/// coordinate.
const EXPONENT_CAP: i128 = 100_000_000_000_000_000_000;

spec fn clamped(e: int) -> int {
    if e > EXPONENT_CAP {
        EXPONENT_CAP + 1
    } else if e < -EXPONENT_CAP {
        -EXPONENT_CAP - 1
    } else {
        e
    }
}

/// A magnitude with its sign, if it is within the coordinate limit.
pub open spec fn signed_coordinate(magnitude: Option<int>, negative: bool) -> Option<int> {
    match magnitude {
        Some(m) => if m > COORDINATE_LIMIT {
            None
        } else if negative {
            Some(-m)
        } else {
            Some(m)
        },
        None => None,
    }
}

fn digit_of(c: char) -> (d: Option<i64>)
    ensures
        is_digit(c) ==> d == Some(digit_value(c) as i64),
        !is_digit(c) ==> d is None,
        d matches Some(v) ==> 0 <= v <= 9,
{
    if '0' <= c && c <= '9' {
        Some((c as u32 - '0' as u32) as i64)
    } else {
        None
    }
}

/// Appends to `digits` the run of digits that the text has from `start`,
/// and gives the index where that run ends.
fn push_digits(text: &str, start: usize, digits: &mut Vec<char>) -> (end: usize)
    requires
        start <= text@.len(),
    ensures
        start <= end <= text@.len(),
        end - start == leading_digits(text@.skip(start as int)),
        all_digits(text@.subrange(start as int, end as int)),
        final(digits)@ == old(digits)@ + text@.subrange(start as int, end as int),
{
    let n = text.unicode_len();
    let ghost s = text@;
    let mut i = start;
    while i < n
        invariant
            start <= i <= n,
            n == s.len(),
            s == text@,
            all_digits(s.subrange(start as int, i as int)),
            digits@ == old(digits)@ + s.subrange(start as int, i as int),
        ensures
            i == n || !is_digit(s[i as int]),
        decreases n - i,
    {
        let c = text.get_char(i);
        if !('0' <= c && c <= '9') {
            break ;
        }
        digits.push(c);
        proof {
            assert forall|t: int| 0 <= t < s.subrange(start as int, i + 1).len() implies is_digit(
                #[trigger] s.subrange(start as int, i + 1)[t],
            ) by {
                if t < i - start {
                    assert(s.subrange(start as int, i + 1)[t] == s.subrange(
                        start as int,
                        i as int,
                    )[t]);
                }
            }
        }
        i = i + 1;
        assert(digits@ =~= old(digits)@ + s.subrange(start as int, i as int));
    }
    proof {
        let t = s.skip(start as int);
        assert(t.take(i - start) =~= s.subrange(start as int, i as int));
        if i < n {
            assert(t[i - start] == s[i as int]);
        }
        lemma_leading_digits(t, i - start);
    }
    i
}

/// Reads the exponent that the text has from `start`, held within the cap.
fn read_exponent(text: &str, start: usize) -> (r: Option<i128>)
    requires
        start <= text@.len(),
    ensures
        match exponent_value(text@.skip(start as int)) {
            Some(e) => r == Some(clamped(e) as i128),
            None => r is None,
        },
{
    let n = text.unicode_len();
    let ghost s = text@;
    let ghost x = s.skip(start as int);
    let mut first = start;
    let mut negative = false;
    if start < n {
        let c = text.get_char(start);
        if c == '-' || c == '+' {
            negative = c == '-';
            first = start + 1;
        }
    }
    let ghost d = s.skip(first as int);
    proof {
        if start < n {
            assert(x[0] == s[start as int]);
        }
        if first == start {
            assert(d =~= x);
        } else {
            assert(d =~= x.skip(1));
        }
        assert(d.take(0) =~= Seq::<char>::empty());
    }
    assert(exponent_value(x) == if d.len() > 0 && all_digits(d) {
        Some(
            if negative {
                -digits_value(d)
            } else {
                digits_value(d)
            },
        )
    } else {
        None
    });
    let mut i = first;
    let mut acc: i128 = 0;
    let mut big = false;
    while i < n
        invariant
            first <= i <= n,
            n == s.len(),
            s == text@,
            d == s.skip(first as int),
            x == s.skip(start as int),
            exponent_value(x) == if d.len() > 0 && all_digits(d) {
                Some(
                    if negative {
                        -digits_value(d)
                    } else {
                        digits_value(d)
                    },
                )
            } else {
                None
            },
            all_digits(d.take(i - first)),
            big ==> digits_value(d.take(i - first)) > EXPONENT_CAP,
            !big ==> acc == digits_value(d.take(i - first)) && 0 <= acc <= EXPONENT_CAP,
        decreases n - i,
    {
        let c = text.get_char(i);
        let ghost j = i - first;
        assert(d[j] == s[i as int]);
        let v = match digit_of(c) {
            Some(v) => v,
            None => {
                assert(!all_digits(d)) by {
                    assert(!is_digit(d[j]));
                }
                return None;
            },
        };
        proof {
            lemma_digits_step(d, j);
            lemma_digits_nonneg(d.take(j));
            assert forall|t: int| 0 <= t < d.take(j + 1).len() implies is_digit(
                #[trigger] d.take(j + 1)[t],
            ) by {
                if t < j {
                    assert(d.take(j + 1)[t] == d.take(j)[t]);
                }
            }
        }
        if !big {
            acc = acc * 10 + v as i128;
            if acc > EXPONENT_CAP {
                big = true;
            }
        }
        i = i + 1;
    }
    assert(d.take(n - first) =~= d);
    if i == first {
        return None;
    }
    let e: i128 = if big {
        EXPONENT_CAP + 1
    } else {
        acc
    };
    if negative {
        Some(-e)
    } else {
        Some(e)
    }
}

/// The value of `d` with its point after the first `p` digits, where it is
/// within the coordinate limit.
fn shift_digits(d: &Vec<char>, p: i128) -> (r: Option<i64>)
    requires
        all_digits(d@),
    ensures
        shifted_value(d@, p as int) >= 0,
        shifted_value(d@, p as int) <= COORDINATE_LIMIT ==> r == Some(
            shifted_value(d@, p as int) as i64,
        ),
        shifted_value(d@, p as int) > COORDINATE_LIMIT ==> r is None,
{
    if p < 0 {
        return Some(0);
    }
    let n = d.len();
    let k: usize = if p < n as i128 {
        p as usize
    } else {
        n
    };
    proof {
        assert(d@.take(0) =~= Seq::<char>::empty());
    }
    let mut v: i128 = 0;
    let mut j: usize = 0;
    while j < k
        invariant
            0 <= j <= k <= n,
            n == d@.len(),
            k <= p,
            all_digits(d@),
            v == digits_value(d@.take(j as int)),
            0 <= v <= COORDINATE_LIMIT,
        decreases k - j,
    {
        let c = d[j];
        assert(is_digit(d@[j as int]));
        let dv = match digit_of(c) {
            Some(x) => x,
            None => {
                return None;
            },
        };
        proof {
            lemma_digits_step(d@, j as int);
        }
        v = v * 10 + dv as i128;
        j = j + 1;
        if v > COORDINATE_LIMIT as i128 {
            proof {
                lemma_shifted_at_least(d@, p as int, j as int);
            }
            return None;
        }
    }
    proof {
        lemma_shifted_at_least(d@, p as int, k as int);
    }
    if k < n {
        assert(is_digit(d@[k as int]));
        let up: i128 = if d[k] >= '5' {
            1
        } else {
            0
        };
        let m = v + up;
        if m > COORDINATE_LIMIT as i128 {
            return None;
        }
        return Some(m as i64);
    }
    assert(d@.take(n as int) =~= d@);
    if v == 0 {
        assert(digits_value(d@) == 0);
        assert(p >= n);
        assert(shifted_value(d@, p as int) == 0 * pow10((p - n) as nat));
        return Some(0);
    }
    let q: i128 = p - n as i128;
    let mut t: i128 = 0;
    while t < q
        invariant
            0 <= t <= q,
            q == p - n,
            n == d@.len(),
            all_digits(d@),
            v == digits_value(d@) * pow10(t as nat),
            1 <= v <= COORDINATE_LIMIT,
        decreases q - t,
    {
        let ghost before = v;
        proof {
            assert(pow10((t + 1) as nat) == 10 * pow10(t as nat));
            let x = digits_value(d@);
            let y = pow10(t as nat);
            assert(x * (10 * y) == (x * y) * 10) by (nonlinear_arith);
        }
        v = v * 10;
        t = t + 1;
        if v > COORDINATE_LIMIT as i128 {
            proof {
                lemma_pow10_grows(t as nat, q as nat);
                let x = digits_value(d@);
                let y = pow10(t as nat);
                let z = pow10(q as nat);
                lemma_digits_nonneg(d@);
                assert(x * z >= x * y) by (nonlinear_arith)
                    requires
                        x >= 0,
                        z >= y,
                ;
            }
            return None;
        }
    }
    Some(v as i64)
}

/// How an unsigned numeral is read: the run of digits it begins with, the
/// point and the run of digits after it where there is one, and the
/// exponent part that follows.
proof fn lemma_unsigned_reading(b: Seq<char>, i: int, end: int, d: Seq<char>)
    requires
        0 <= i <= end <= b.len(),
        i == leading_digits(b),
        (i < b.len() && b[i] == '.') ==> end == i + 1 + leading_digits(b.skip(i + 1)) && d
            == b.take(i) + b.subrange(i + 1, end),
        !(i < b.len() && b[i] == '.') ==> end == i && d == b.take(i),
    ensures
        unsigned_milli(b) == if d.len() == 0 {
            None
        } else {
            match exponent_part(b.skip(end)) {
                Some(e) => Some(shifted_value(d, i + e + 3)),
                None => None,
            }
        },
{
    reveal(unsigned_milli);
}

/// Reads an unsigned numeral from the text at `start`, where it is within
/// the coordinate limit.
fn read_unsigned(text: &str, start: usize) -> (r: Option<i64>)
    requires
        start <= text@.len(),
    ensures
        match unsigned_milli(text@.skip(start as int)) {
            Some(m) => m >= 0 && if m <= COORDINATE_LIMIT {
                r == Some(m as i64)
            } else {
                r is None
            },
            None => r is None,
        },
{
    let n = text.unicode_len();
    let ghost s = text@;
    let ghost b = s.skip(start as int);
    let mut digits: Vec<char> = Vec::new();
    let whole_end = push_digits(text, start, &mut digits);
    let ghost i = whole_end - start;
    let ghost whole = s.subrange(start as int, whole_end as int);
    assert(b.take(i) =~= whole);
    assert(digits@ =~= whole);
    let point = whole_end < n && text.get_char(whole_end) == '.';
    if whole_end < n {
        assert(b[i] == s[whole_end as int]);
    }
    let mut end = whole_end;
    if point {
        end = push_digits(text, whole_end + 1, &mut digits);
        assert(b.skip(i + 1) =~= s.skip(whole_end + 1));
        assert(b.subrange(i + 1, end - start) =~= s.subrange(whole_end + 1, end as int));
        assert(digits@ =~= b.take(i) + b.subrange(i + 1, end - start));
    }
    assert(all_digits(digits@)) by {
        assert forall|t: int| 0 <= t < digits@.len() implies is_digit(#[trigger] digits@[t]) by {
            if t < i {
                assert(digits@[t] == whole[t]);
            } else {
                assert(digits@[t] == s.subrange(whole_end + 1, end as int)[t - i]);
            }
        }
    }
    let ghost rest = b.skip(end - start);
    proof {
        lemma_unsigned_reading(b, i, end - start, digits@);
        assert(rest =~= s.skip(end as int));
    }
    if digits.len() == 0 {
        return None;
    }
    let mut exponent: i128 = 0;
    if end < n {
        let c = text.get_char(end);
        assert(rest[0] == c);
        if c == 'e' || c == 'E' {
            assert(rest.drop_first() =~= s.skip(end + 1));
            match read_exponent(text, end + 1) {
                Some(e) => {
                    exponent = e;
                },
                None => {
                    return None;
                },
            }
        } else {
            return None;
        }
    }
    let ghost e_spec: int = exponent_part(rest)->0;
    assert(exponent == clamped(e_spec));
    let p: i128 = (whole_end - start) as i128 + exponent + 3;
    let shifted = shift_digits(&digits, p);
    proof {
        let d = digits@;
        let p_spec = i + e_spec + 3;
        assert(unsigned_milli(b) == Some(shifted_value(d, p_spec)));
        if e_spec > EXPONENT_CAP {
            lemma_far_shift(d, p as int);
            lemma_far_shift(d, p_spec);
        }
    }
    shifted
}

/// Reads a coordinate, in thousandths of a pixel, from its text: a sign
/// where there is one, then a numeral in one of the forms that Rust reads
/// as a finite float.
pub fn parse_coordinate(text: &str) -> (r: Option<i64>)
    ensures
        match decimal_milli(text@) {
            Some(v) => r == Some(v as i64),
            None => r is None,
        },
        r matches Some(v) ==> -COORDINATE_LIMIT <= v <= COORDINATE_LIMIT,
        decimal_milli(text@) matches Some(v) ==> -COORDINATE_LIMIT <= v <= COORDINATE_LIMIT,
{
    let n = text.unicode_len();
    let ghost s = text@;
    let mut start: usize = 0;
    let mut negative = false;
    if n > 0 {
        let c = text.get_char(0);
        if c == '-' || c == '+' {
            negative = c == '-';
            start = 1;
        }
    }
    let ghost b = s.skip(start as int);
    proof {
        if start == 0 {
            assert(b =~= s);
        }
    }
    assert(decimal_milli(s) == signed_coordinate(unsigned_milli(b), negative));
    match read_unsigned(text, start) {
        Some(m) => {
            if negative {
                Some(-m)
            } else {
                Some(m)
            }
        },
        None => None,
    }
}

fn digit_char_of(d: u64) -> (c: char)
    requires
        d < 10,
    ensures
        c == digit_char(d as int),
{
    let c = ((48 + d) as u8) as char;
    c
}

fn push_natural(s: &mut String, n: u64)
    ensures
        final(s)@ == old(s)@ + natural_digits(n as nat),
    decreases n,
{
    if n >= 10 {
        push_natural(s, n / 10);
    }
    push_char(s, digit_char_of(n % 10));
    proof {
        if n < 10 {
            assert(natural_digits(n as nat) =~= seq![digit_char(n as int)]);
        }
    }
    assert(final(s)@ =~= old(s)@ + natural_digits(n as nat));
}

/// Appends the text of a coordinate of `v` thousandths of a pixel.
pub fn push_coordinate(s: &mut String, v: i64)
    ensures
        final(s)@ == old(s)@ + coordinate_text(v as int),
{
    let ghost start = s@;
    let m: u64 = if v < 0 {
        push_char(s, '-');
        ((-(v + 1)) as u64) + 1
    } else {
        v as u64
    };
    let ghost signed = s@;
    let q = m / 1000;
    let f = m % 1000;
    push_natural(s, q);
    if f != 0 {
        push_char(s, '.');
        push_char(s, digit_char_of(f / 100));
        if f % 100 != 0 {
            push_char(s, digit_char_of((f / 10) % 10));
            if f % 10 != 0 {
                push_char(s, digit_char_of(f % 10));
            }
        }
    }
    assert(s@ =~= signed + unsigned_text(m as nat));
    assert(s@ =~= start + coordinate_text(v as int));
}

} // verus!
