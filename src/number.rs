//! Numbers written in decimal text, read exactly: a mantissa and a count of
//! decimal places, so that `10.0001` and `9.9999` compare as written.

use vstd::prelude::*;

verus! {

/// Mantissas stay strictly below this bound (10^18).
pub const MANTISSA_BOUND: i64 = 1_000_000_000_000_000_000;

/// At most this many digits follow the decimal point.
pub const MAX_PLACES: u32 = 18;

pub open spec fn is_digit(c: char) -> bool {
    48 <= (c as u32) && (c as u32) <= 57
}

pub open spec fn digit_value(c: char) -> int {
    (c as u32) as int - 48
}

/// The number of times `c` occurs in `s`.
pub open spec fn count_char(s: Seq<char>, c: char) -> nat
    decreases s.len(),
{
    if s.len() == 0 {
        0
    } else {
        count_char(s.drop_last(), c) + if s.last() == c {
            1nat
        } else {
            0nat
        }
    }
}

/// The digits of `s`, in order, with every `.` left out.
pub open spec fn without_points(s: Seq<char>) -> Seq<char>
    decreases s.len(),
{
    if s.len() == 0 {
        s
    } else if s.last() == '.' {
        without_points(s.drop_last())
    } else {
        without_points(s.drop_last()).push(s.last())
    }
}

/// How many characters follow the last `.` of `s` (zero if it has none).
pub open spec fn places(s: Seq<char>) -> nat
    decreases s.len(),
{
    if s.len() == 0 || s.last() == '.' {
        0
    } else if count_char(s.drop_last(), '.') > 0 {
        places(s.drop_last()) + 1
    } else {
        0
    }
}

/// The value of a run of decimal digits.
pub open spec fn digits_value(s: Seq<char>) -> int
    decreases s.len(),
{
    if s.len() == 0 {
        0
    } else {
        10 * digits_value(s.drop_last()) + digit_value(s.last())
    }
}

pub open spec fn pow10(n: nat) -> int
    decreases n,
{
    if n == 0 {
        1
    } else {
        10 * pow10((n - 1) as nat)
    }
}

/// Length of the sign that `s` starts with, if any.
pub open spec fn sign_len(s: Seq<char>) -> int {
    if s.len() > 0 && (s[0] == '-' || s[0] == '+') {
        1
    } else {
        0
    }
}

pub open spec fn is_negative(s: Seq<char>) -> bool {
    s.len() > 0 && s[0] == '-'
}

/// `s` after its sign.
pub open spec fn unsigned_part(s: Seq<char>) -> Seq<char> {
    s.subrange(sign_len(s), s.len() as int)
}

/// Digits with at most one point among them, and at least one digit.
pub open spec fn is_decimal_body(b: Seq<char>) -> bool {
    &&& forall|i: int| 0 <= i < b.len() ==> is_digit(#[trigger] b[i]) || b[i] == '.'
    &&& count_char(b, '.') <= 1
    &&& without_points(b).len() > 0
}

/// The value of decimal text as (mantissa, places): an optional `+` or `-`,
/// then digits with at most one point among them. The value is
/// mantissa / 10^places. Text whose mantissa reaches 10^18, or with more than
/// 18 places, has no value here.
pub open spec fn decimal_value(s: Seq<char>) -> Option<(int, nat)> {
    let b = unsigned_part(s);
    let m = digits_value(without_points(b));
    if is_decimal_body(b) && m < MANTISSA_BOUND && places(b) <= MAX_PLACES {
        Some(
            (
                if is_negative(s) {
                    -m
                } else {
                    m
                },
                places(b),
            ),
        )
    } else {
        None
    }
}

/// The value of integer text as `i32::from_str` reads it: an optional sign,
/// then digits only, within the range of `i32`.
pub open spec fn int_value(s: Seq<char>) -> Option<int> {
    match decimal_value(s) {
        Some(v) => if count_char(unsigned_part(s), '.') == 0 && i32::MIN <= v.0 <= i32::MAX {
            Some(v.0)
        } else {
            None
        },
        None => None,
    }
}

pub open spec fn is_exp_mark(c: char) -> bool {
    c == 'e' || c == 'E'
}

/// `p` is the position of the first exponent mark of `s`.
pub open spec fn first_exp_mark(s: Seq<char>, p: int) -> bool {
    0 <= p < s.len() && is_exp_mark(s[p]) && forall|i: int| 0 <= i < p ==> !is_exp_mark(#[trigger] s[i])
}

/// `d * 10^e` as (mantissa, places), where it has such a form within the
/// bounds of `decimal_value`.
pub open spec fn scaled(d: (int, nat), e: int) -> Option<(int, nat)> {
    let sc = d.1 - e;
    if 0 <= sc <= MAX_PLACES {
        Some((d.0, sc as nat))
    } else if -(MAX_PLACES as int) <= sc < 0 && -MANTISSA_BOUND < d.0 * pow10((-sc) as nat)
        < MANTISSA_BOUND {
        Some((d.0 * pow10((-sc) as nat), 0nat))
    } else {
        None
    }
}

/// The value of floating-point text as (mantissa, places): decimal text,
/// then optionally `e` or `E` and an exponent as `i32::from_str` reads it
/// (`1.5e3`, `2E-2`). Text whose exact value does not fit the bounds of
/// `decimal_value` has no value here.
pub open spec fn float_value(s: Seq<char>) -> Option<(int, nat)> {
    if exists|p: int| first_exp_mark(s, p) {
        let p = choose|p: int| first_exp_mark(s, p);
        match (decimal_value(s.take(p)), int_value(s.skip(p + 1))) {
            (Some(d), Some(e)) => scaled(d, e),
            _ => None,
        }
    } else {
        decimal_value(s)
    }
}

/// `a <= b` for values given as (mantissa, places).
pub open spec fn decimal_le(a: (int, nat), b: (int, nat)) -> bool {
    a.0 * pow10(b.1) <= b.0 * pow10(a.1)
}

/// A number held exactly: `mantissa / 10^scale`.
#[derive(Clone, Copy, Debug)]
pub struct Decimal {
    mantissa: i64,
    scale: u32,
}

impl View for Decimal {
    type V = (int, nat);

    closed spec fn view(&self) -> (int, nat) {
        (self.mantissa as int, self.scale as nat)
    }
}

impl Decimal {
    #[verifier::type_invariant]
    spec fn wf(&self) -> bool {
        -MANTISSA_BOUND < self.mantissa < MANTISSA_BOUND && self.scale <= MAX_PLACES
    }

    /// The mantissa: the value times 10^scale.
    pub fn mantissa(&self) -> (r: i64)
        ensures
            r == self@.0,
    {
        self.mantissa
    }

    /// Zero.
    pub fn zero() -> (r: Decimal)
        ensures
            r@ == (0int, 0nat),
    {
        Decimal { mantissa: 0, scale: 0 }
    }
}

proof fn lemma_pow10_positive(n: nat)
    ensures
        pow10(n) >= 1,
    decreases n,
{
    if n > 0 {
        lemma_pow10_positive((n - 1) as nat);
    }
}

proof fn lemma_pow10_monotone(n: nat, m: nat)
    requires
        n <= m,
    ensures
        pow10(n) <= pow10(m),
    decreases m,
{
    if n < m {
        lemma_pow10_monotone(n, (m - 1) as nat);
        lemma_pow10_positive((m - 1) as nat);
    }
}

proof fn lemma_pow10_bounds(n: nat)
    requires
        n <= 18,
    ensures
        1 <= pow10(n) <= 1_000_000_000_000_000_000,
        n < 18 ==> pow10(n) <= 100_000_000_000_000_000,
{
    reveal_with_fuel(pow10, 19);
    assert(pow10(17) == 100_000_000_000_000_000);
    assert(pow10(18) == 1_000_000_000_000_000_000);
    lemma_pow10_positive(n);
    if n < 18 {
        lemma_pow10_monotone(n, 17);
    } else {
        lemma_pow10_monotone(n, 18);
    }
}

fn pow10_exec(n: u32) -> (r: i64)
    requires
        n <= MAX_PLACES,
    ensures
        r == pow10(n as nat),
{
    let mut r: i64 = 1;
    let mut i: u32 = 0;
    while i < n
        invariant
            i <= n <= 18,
            r == pow10(i as nat),
        decreases n - i,
    {
        proof {
            lemma_pow10_bounds(i as nat);
        }
        r = r * 10;
        i = i + 1;
    }
    r
}

/// Whether `a <= b`.
pub fn decimal_le_exec(a: &Decimal, b: &Decimal) -> (r: bool)
    ensures
        r == decimal_le(a@, b@),
{
    proof {
        use_type_invariant(a);
        use_type_invariant(b);
    }
    let pa = pow10_exec(a.scale);
    let pb = pow10_exec(b.scale);
    proof {
        lemma_pow10_bounds(a.scale as nat);
        lemma_pow10_bounds(b.scale as nat);
        lemma_product_bound(a.mantissa as int, pb as int);
        lemma_product_bound(b.mantissa as int, pa as int);
    }
    let x = (a.mantissa as i128) * (pb as i128);
    let y = (b.mantissa as i128) * (pa as i128);
    x <= y
}

proof fn lemma_product_bound(m: int, p: int)
    requires
        -1_000_000_000_000_000_000 < m < 1_000_000_000_000_000_000,
        1 <= p <= 1_000_000_000_000_000_000,
    ensures
        -1_000_000_000_000_000_000_000_000_000_000_000_000 <= m * p
            <= 1_000_000_000_000_000_000_000_000_000_000_000_000,
{
    assert(-1_000_000_000_000_000_000_000_000_000_000_000_000 <= m * p
        <= 1_000_000_000_000_000_000_000_000_000_000_000_000) by (nonlinear_arith)
        requires
            -1_000_000_000_000_000_000 < m < 1_000_000_000_000_000_000,
            1 <= p <= 1_000_000_000_000_000_000,
    ;
}

pub open spec fn digit_or_point(s: Seq<char>) -> bool {
    forall|i: int| 0 <= i < s.len() ==> is_digit(#[trigger] s[i]) || s[i] == '.'
}

proof fn lemma_count_prefix(s: Seq<char>, k: int, c: char)
    requires
        0 <= k <= s.len(),
    ensures
        count_char(s.take(k), c) <= count_char(s, c),
    decreases s.len(),
{
    if k < s.len() {
        assert(s.drop_last().take(k) =~= s.take(k));
        lemma_count_prefix(s.drop_last(), k, c);
    } else {
        assert(s.take(k) =~= s);
    }
}

proof fn lemma_digits_nonnegative(s: Seq<char>)
    requires
        digit_or_point(s),
    ensures
        digits_value(without_points(s)) >= 0,
    decreases s.len(),
{
    if s.len() > 0 {
        lemma_digits_nonnegative(s.drop_last());
        if s.last() != '.' {
            let w = without_points(s.drop_last());
            assert(w.push(s.last()).drop_last() =~= w);
        }
    }
}

proof fn lemma_digits_prefix(s: Seq<char>, k: int)
    requires
        0 <= k <= s.len(),
        digit_or_point(s),
    ensures
        0 <= digits_value(without_points(s.take(k))) <= digits_value(without_points(s)),
    decreases s.len(),
{
    lemma_digits_nonnegative(s);
    if k < s.len() {
        assert(s.drop_last().take(k) =~= s.take(k));
        lemma_digits_prefix(s.drop_last(), k);
        if s.last() != '.' {
            let w = without_points(s.drop_last());
            assert(w.push(s.last()).drop_last() =~= w);
        }
    } else {
        assert(s.take(k) =~= s);
    }
}

proof fn lemma_places_prefix(s: Seq<char>, k: int)
    requires
        0 <= k <= s.len(),
        count_char(s, '.') <= 1,
        count_char(s.take(k), '.') == 1,
    ensures
        places(s.take(k)) <= places(s),
    decreases s.len(),
{
    if k < s.len() {
        assert(s.drop_last().take(k) =~= s.take(k));
        lemma_count_prefix(s.drop_last(), k, '.');
        lemma_places_prefix(s.drop_last(), k);
    } else {
        assert(s.take(k) =~= s);
    }
}

/// Reads decimal text. Beside the value it tells whether the text holds a point.
fn scan_decimal(s: &str) -> (r: Option<(Decimal, bool)>)
    ensures
        match r {
            Some((d, point)) => {
                &&& decimal_value(s@) == Some(d@)
                &&& point == (count_char(unsigned_part(s@), '.') > 0)
            },
            None => decimal_value(s@) is None,
        },
{
    let n = s.unicode_len();
    let mut start: usize = 0;
    let mut neg = false;
    if n > 0 {
        let c0 = s.get_char(0);
        if c0 == '-' {
            neg = true;
            start = 1;
        } else if c0 == '+' {
            start = 1;
        }
    }
    let ghost b = unsigned_part(s@);
    let mut i: usize = start;
    let mut acc: i64 = 0;
    let mut points: usize = 0;
    let mut frac: u32 = 0;
    let mut any_digit = false;
    proof {
        assert(b.take(0) =~= Seq::<char>::empty());
    }
    while i < n
        invariant
            n == s@.len(),
            start == sign_len(s@),
            neg == is_negative(s@),
            start <= i <= n,
            b == unsigned_part(s@),
            b.len() == n - start,
            digit_or_point(b.take(i - start)),
            points == count_char(b.take(i - start), '.'),
            points <= 1,
            acc == digits_value(without_points(b.take(i - start))),
            0 <= acc < MANTISSA_BOUND,
            frac == places(b.take(i - start)),
            frac <= MAX_PLACES,
            any_digit == (without_points(b.take(i - start)).len() > 0),
        decreases n - i,
    {
        let c = s.get_char(i);
        let ghost k = i - start;
        let ghost pre = b.take(k);
        let ghost next = b.take(k + 1);
        proof {
            assert(next.drop_last() =~= pre);
            assert(b[k] == c);
            assert(next.last() == c);
        }
        if c == '.' {
            if points == 1 {
                proof {
                    lemma_count_prefix(b, k + 1, '.');
                }
                return None;
            }
            points = 1;
            frac = 0;
        } else if '0' <= c && c <= '9' {
            let d = (c as u32 - 48) as i64;
            let ghost w = without_points(pre);
            proof {
                assert(w.push(c).drop_last() =~= w);
            }
            if acc >= 100_000_000_000_000_000 {
                proof {
                    if is_decimal_body(b) {
                        assert(digit_or_point(b));
                        lemma_digits_prefix(b, k + 1);
                    }
                }
                return None;
            }
            if points == 1 {
                if frac == MAX_PLACES {
                    proof {
                        if is_decimal_body(b) {
                            lemma_count_prefix(b, k + 1, '.');
                            lemma_places_prefix(b, k + 1);
                        }
                    }
                    return None;
                }
                frac = frac + 1;
            }
            acc = acc * 10 + d;
            any_digit = true;
        } else {
            proof {
                assert(!(is_digit(b[k]) || b[k] == '.'));
            }
            return None;
        }
        proof {
            assert(digit_or_point(next)) by {
                assert forall|j: int| 0 <= j < next.len() implies is_digit(#[trigger] next[j])
                    || next[j] == '.' by {
                    if j < k {
                        assert(next[j] == pre[j]);
                    }
                }
            }
        }
        i = i + 1;
    }
    proof {
        assert(b.take(n - start) =~= b);
    }
    if !any_digit {
        return None;
    }
    let mantissa = if neg {
        -acc
    } else {
        acc
    };
    Some((Decimal { mantissa, scale: frac }, points == 1))
}

/// Reads decimal text: an optional sign, digits and at most one point.
pub fn parse_decimal(s: &str) -> (r: Option<Decimal>)
    ensures
        match r {
            Some(d) => decimal_value(s@) == Some(d@),
            None => decimal_value(s@) is None,
        },
{
    match scan_decimal(s) {
        Some((d, _)) => Some(d),
        None => None,
    }
}

/// Reads integer text as `i32::from_str` does, into a decimal with no places.
pub fn parse_int(s: &str) -> (r: Option<Decimal>)
    ensures
        match r {
            Some(d) => int_value(s@) == Some(d@.0) && d@.1 == 0,
            None => int_value(s@) is None,
        },
{
    match scan_decimal(s) {
        Some((d, point)) => {
            if point || d.mantissa < -2147483648 || d.mantissa > 2147483647 {
                None
            } else {
                proof {
                    assert(places(unsigned_part(s@)) == 0) by {
                        lemma_no_point_no_places(unsigned_part(s@));
                    }
                }
                Some(d)
            }
        },
        None => None,
    }
}

/// Reads floating-point text: decimal text with an optional exponent.
pub fn parse_float(s: &str) -> (r: Option<Decimal>)
    ensures
        match r {
            Some(d) => float_value(s@) == Some(d@),
            None => float_value(s@) is None,
        },
{
    let n = s.unicode_len();
    let mut i: usize = 0;
    while i < n
        invariant
            n == s@.len(),
            i <= n,
            forall|j: int| 0 <= j < i ==> !is_exp_mark(#[trigger] s@[j]),
        decreases n - i,
    {
        let c = s.get_char(i);
        if c == 'e' || c == 'E' {
            proof {
                assert(first_exp_mark(s@, i as int));
                assert forall|q: int| first_exp_mark(s@, q) implies q == i by {
                    if q < i {
                        assert(!is_exp_mark(s@[q]));
                    } else if q > i {
                        assert(!is_exp_mark(s@[i as int]));
                    }
                }
            }
            let left = s.substring_char(0, i);
            let right = s.substring_char(i + 1, n);
            proof {
                assert(left@ =~= s@.take(i as int));
                assert(right@ =~= s@.skip(i + 1));
            }
            return match (parse_decimal(left), parse_int(right)) {
                (Some(d), Some(e)) => scale_by(&d, e.mantissa()),
                _ => None,
            };
        }
        i = i + 1;
    }
    proof {
        assert(!exists|p: int| first_exp_mark(s@, p));
    }
    parse_decimal(s)
}

/// `d * 10^e`, within the bounds of a decimal.
fn scale_by(d: &Decimal, e: i64) -> (r: Option<Decimal>)
    requires
        i32::MIN <= e <= i32::MAX,
    ensures
        match r {
            Some(x) => scaled(d@, e as int) == Some(x@),
            None => scaled(d@, e as int) is None,
        },
{
    proof {
        use_type_invariant(d);
    }
    let sc: i64 = d.scale as i64 - e;
    if 0 <= sc && sc <= MAX_PLACES as i64 {
        Some(Decimal { mantissa: d.mantissa, scale: sc as u32 })
    } else if -(MAX_PLACES as i64) <= sc && sc < 0 {
        let p = pow10_exec((-sc) as u32);
        proof {
            lemma_pow10_bounds((-sc) as nat);
            lemma_product_bound(d.mantissa as int, p as int);
        }
        let m = (d.mantissa as i128) * (p as i128);
        if -(MANTISSA_BOUND as i128) < m && m < MANTISSA_BOUND as i128 {
            Some(Decimal { mantissa: m as i64, scale: 0 })
        } else {
            None
        }
    } else {
        None
    }
}

proof fn lemma_no_point_no_places(s: Seq<char>)
    requires
        count_char(s, '.') == 0,
    ensures
        places(s) == 0,
    decreases s.len(),
{
    if s.len() > 0 {
        lemma_no_point_no_places(s.drop_last());
    }
}

} // verus!
