use vstd::prelude::*;

verus! {

/// Largest number of digits after the decimal point that a number keeps.
pub const MAX_SCALE: u32 = 18;

/// `10` to the power `n`.
pub open spec fn pow10(n: nat) -> int
    decreases n,
{
    if n == 0 {
        1
    } else {
        10 * pow10((n - 1) as nat)
    }
}

/// An exact decimal number: `mantissa / 10^scale`.
#[derive(Clone, Copy, Debug, PartialEq, Eq, Structural)]
pub struct Number {
    pub mantissa: i64,
    pub scale: u32,
}

/// The absolute value of an integer.
pub open spec fn abs(m: int) -> nat {
    if m < 0 {
        (-m) as nat
    } else {
        m as nat
    }
}

/// Removes trailing zero digits after the decimal point: `(mantissa, scale)` of `a / 10^s`
/// with the fewest digits after the point.
pub open spec fn strip_zeros(a: nat, s: nat) -> (nat, nat)
    decreases s,
{
    if s > 0 && a % 10 == 0 {
        strip_zeros(a / 10, (s - 1) as nat)
    } else {
        (a, s)
    }
}

/// The canonical `(mantissa, scale)` of the decimal `m / 10^s`.
pub open spec fn canonical(m: int, s: nat) -> (int, nat) {
    let (a, t) = strip_zeros(abs(m), s);
    (if m < 0 {
        -a
    } else {
        a as int
    }, t)
}

/// The number with the canonical form of `m / 10^s`, where it fits.
pub open spec fn checked_number(m: int, s: nat) -> Option<Number> {
    let (cm, cs) = canonical(m, s);
    if i64::MIN <= cm <= i64::MAX && cs <= MAX_SCALE {
        Some(Number { mantissa: cm as i64, scale: cs as u32 })
    } else {
        None
    }
}

/// Exact sum of two decimals, before canonicalisation.
pub open spec fn sum_parts(a: Number, b: Number, negate_b: bool) -> (int, nat) {
    let s: nat = if a.scale >= b.scale {
        a.scale as nat
    } else {
        b.scale as nat
    };
    let x = a.mantissa * pow10((s - a.scale) as nat);
    let y = b.mantissa * pow10((s - b.scale) as nat);
    (if negate_b {
        x - y
    } else {
        x + y
    }, s)
}

impl Number {
    /// Well-formed: at most `MAX_SCALE` digits after the point and no trailing zero there.
    pub open spec fn wf(&self) -> bool {
        self.scale <= MAX_SCALE && (self.scale == 0 || self.mantissa % 10 != 0)
    }

    /// Whether this number is well-formed.
    pub fn is_wf(&self) -> (r: bool)
        ensures
            r == self.wf(),
    {
        self.scale <= MAX_SCALE && (self.scale == 0 || self.mantissa % 10 != 0)
    }

    /// The integer `v`.
    pub fn from_int(v: i64) -> (r: Number)
        ensures
            r == (Number { mantissa: v, scale: 0 }),
            r.wf(),
    {
        Number { mantissa: v, scale: 0 }
    }

    /// `self + other`, where the result fits.
    pub fn checked_add(&self, other: &Number) -> (r: Option<Number>)
        requires
            self.wf(),
            other.wf(),
        ensures
            r == checked_number(sum_parts(*self, *other, false).0, sum_parts(*self, *other, false).1),
    {
        add_or_sub(self, other, false)
    }

    /// `self - other`, where the result fits.
    pub fn checked_sub(&self, other: &Number) -> (r: Option<Number>)
        requires
            self.wf(),
            other.wf(),
        ensures
            r == checked_number(sum_parts(*self, *other, true).0, sum_parts(*self, *other, true).1),
    {
        add_or_sub(self, other, true)
    }

    /// `self * other`, where the result fits.
    pub fn checked_mul(&self, other: &Number) -> (r: Option<Number>)
        requires
            self.wf(),
            other.wf(),
        ensures
            r == checked_number(
                self.mantissa * other.mantissa,
                (self.scale + other.scale) as nat,
            ),
    {
        let x = self.mantissa as i128;
        let y = other.mantissa as i128;
        assert(-0x4000_0000_0000_0000_0000_0000_0000_0000 <= x * y
            <= 0x4000_0000_0000_0000_0000_0000_0000_0000) by (nonlinear_arith)
            requires
                i64::MIN <= x <= i64::MAX,
                i64::MIN <= y <= i64::MAX,
        ;
        let m: i128 = x * y;
        make_number(m, self.scale + other.scale)
    }

    /// Whether `self < other` as decimals.
    pub open spec fn lt_spec(&self, other: &Number) -> bool {
        self.mantissa * pow10(other.scale as nat) < other.mantissa * pow10(self.scale as nat)
    }

    /// Whether `self` and `other` are the same decimal.
    pub open spec fn eq_spec(&self, other: &Number) -> bool {
        self.mantissa * pow10(other.scale as nat) == other.mantissa * pow10(self.scale as nat)
    }

    /// Compares two decimals: `-1`, `0` or `1`.
    pub fn compare(&self, other: &Number) -> (r: i8)
        requires
            self.wf(),
            other.wf(),
        ensures
            r == -1 <==> self.lt_spec(other),
            r == 0 <==> self.eq_spec(other),
            r == 1 <==> other.lt_spec(self),
            -1 <= r <= 1,
    {
        let px = pow10_exec(other.scale);
        let py = pow10_exec(self.scale);
        proof {
            lemma_scaled_bound(self.mantissa as int, other.scale as nat);
            lemma_scaled_bound(other.mantissa as int, self.scale as nat);
        }
        let x: i128 = (self.mantissa as i128) * px;
        let y: i128 = (other.mantissa as i128) * py;
        if x < y {
            -1
        } else if x == y {
            0
        } else {
            1
        }
    }
}

/// `10^n` for `n <= MAX_SCALE`.
pub fn pow10_exec(n: u32) -> (r: i128)
    requires
        n <= MAX_SCALE,
    ensures
        r == pow10(n as nat),
{
    proof {
        lemma_pow10_bounds(n as nat);
    }
    let mut r: i128 = 1;
    let mut i: u32 = 0;
    while i < n
        invariant
            i <= n,
            n <= MAX_SCALE,
            r == pow10(i as nat),
        decreases n - i,
    {
        proof {
            lemma_pow10_bounds(i as nat);
            lemma_pow10_mono(i as nat, MAX_SCALE as nat);
        }
        r = r * 10;
        i = i + 1;
    }
    r
}

/// `10^n` is positive and grows with `n`.
pub proof fn lemma_pow10_mono(m: nat, n: nat)
    requires
        m <= n,
    ensures
        1 <= pow10(m) <= pow10(n),
    decreases n,
{
    if n > m {
        lemma_pow10_mono(m, (n - 1) as nat);
    } else if n > 0 {
        lemma_pow10_mono((n - 1) as nat, (n - 1) as nat);
    }
}

/// `10^n` for `n <= 18` is at most `10^18`.
pub proof fn lemma_pow10_bounds(n: nat)
    requires
        n <= MAX_SCALE,
    ensures
        1 <= pow10(n) <= 1_000_000_000_000_000_000,
{
    lemma_pow10_mono(n, 18);
    reveal_with_fuel(pow10, 19);
}

/// A 64-bit mantissa scaled by `10^n` with `n <= 18` fits comfortably in 128 bits.
pub proof fn lemma_scaled_bound(m: int, n: nat)
    requires
        i64::MIN <= m <= i64::MAX,
        n <= MAX_SCALE,
    ensures
        -0x1000_0000_0000_0000_0000_0000_0000_0000 < m * pow10(n)
            < 0x1000_0000_0000_0000_0000_0000_0000_0000,
{
    lemma_pow10_bounds(n);
    let p = pow10(n);
    assert(-0x1000_0000_0000_0000_0000_0000_0000_0000 < m * p
        < 0x1000_0000_0000_0000_0000_0000_0000_0000) by (nonlinear_arith)
        requires
            i64::MIN <= m <= i64::MAX,
            1 <= p <= 1_000_000_000_000_000_000,
    ;
}

/// Shared body of addition and subtraction.
fn add_or_sub(a: &Number, b: &Number, negate_b: bool) -> (r: Option<Number>)
    requires
        a.wf(),
        b.wf(),
    ensures
        r == checked_number(sum_parts(*a, *b, negate_b).0, sum_parts(*a, *b, negate_b).1),
{
    let s: u32 = if a.scale >= b.scale {
        a.scale
    } else {
        b.scale
    };
    let pa = pow10_exec(s - a.scale);
    let pb = pow10_exec(s - b.scale);
    proof {
        lemma_scaled_bound(a.mantissa as int, (s - a.scale) as nat);
        lemma_scaled_bound(b.mantissa as int, (s - b.scale) as nat);
    }
    let x: i128 = (a.mantissa as i128) * pa;
    let y: i128 = (b.mantissa as i128) * pb;
    let m: i128 = if negate_b {
        x - y
    } else {
        x + y
    };
    make_number(m, s)
}

/// The canonical number `m / 10^s`, where it fits.
pub fn make_number(m: i128, s: u32) -> (r: Option<Number>)
    ensures
        r == checked_number(m as int, s as nat),
{
    let neg = m < 0;
    let mut a: u128 = if neg {
        ((0 - (m + 1)) as u128) + 1
    } else {
        m as u128
    };
    let mut t: u32 = s;
    let ghost a0 = abs(m as int);
    assert(a == a0);
    while t > 0 && a % 10 == 0
        invariant
            strip_zeros(a as nat, t as nat) == strip_zeros(a0, s as nat),
        decreases t,
    {
        a = a / 10;
        t = t - 1;
    }
    if t > MAX_SCALE {
        return None;
    }
    if neg {
        if a > 0x8000_0000_0000_0000 {
            return None;
        }
        let v: i128 = 0 - (a as i128);
        Some(Number { mantissa: v as i64, scale: t })
    } else {
        if a > 0x7fff_ffff_ffff_ffff {
            return None;
        }
        Some(Number { mantissa: a as i64, scale: t })
    }
}

/// The decimal digit character for `d < 10`.
pub open spec fn digit_char(d: nat) -> char {
    if d == 0 { '0' } else if d == 1 { '1' } else if d == 2 { '2' } else if d == 3 { '3' }
    else if d == 4 { '4' } else if d == 5 { '5' } else if d == 6 { '6' } else if d == 7 { '7' }
    else if d == 8 { '8' } else { '9' }
}

/// The decimal digits of `n`, without leading zeros.
pub open spec fn digits_of(n: nat) -> Seq<char>
    decreases n,
{
    if n < 10 {
        seq![digit_char(n)]
    } else {
        digits_of(n / 10).push(digit_char(n % 10))
    }
}

/// `n` zero characters.
pub open spec fn zeros(n: nat) -> Seq<char> {
    Seq::new(n, |i: int| '0')
}

/// The text of a number: an optional `-`, the integer digits, and the digits after the
/// point where there are any (`20`, `-1`, `0.05`).
pub open spec fn number_text(n: Number) -> Seq<char> {
    let sign: Seq<char> = if n.mantissa < 0 {
        seq!['-']
    } else {
        seq![]
    };
    let d = digits_of(abs(n.mantissa as int));
    let s = n.scale as nat;
    if s == 0 {
        sign + d
    } else if d.len() > s {
        sign + d.subrange(0, d.len() - s) + seq!['.'] + d.subrange(d.len() - s, d.len() as int)
    } else {
        sign + seq!['0', '.'] + zeros((s - d.len()) as nat) + d
    }
}

fn digit_exec(d: u64) -> (c: char)
    requires
        d < 10,
    ensures
        c == digit_char(d as nat),
{
    if d == 0 { '0' } else if d == 1 { '1' } else if d == 2 { '2' } else if d == 3 { '3' }
    else if d == 4 { '4' } else if d == 5 { '5' } else if d == 6 { '6' } else if d == 7 { '7' }
    else if d == 8 { '8' } else { '9' }
}

/// Appends the decimal digits of `n`.
pub fn push_digits(out: &mut Vec<char>, n: u64)
    ensures
        final(out)@ == old(out)@ + digits_of(n as nat),
    decreases n,
{
    if n >= 10 {
        push_digits(out, n / 10);
    }
    let c = digit_exec(n % 10);
    out.push(c);
    proof {
        if n >= 10 {
            assert(final(out)@ =~= old(out)@ + digits_of(n as nat));
        } else {
            assert(final(out)@ =~= old(out)@ + digits_of(n as nat));
        }
    }
}

impl Number {
    /// The text of this number.
    pub fn to_chars(&self) -> (r: Vec<char>)
        ensures
            r@ == number_text(*self),
    {
        let m = self.mantissa;
        let a: u64 = if m < 0 {
            ((0 - (m + 1)) as u64) + 1
        } else {
            m as u64
        };
        let mut d: Vec<char> = Vec::new();
        push_digits(&mut d, a);
        assert(d@ =~= digits_of(abs(m as int)));
        let mut out: Vec<char> = Vec::new();
        if m < 0 {
            out.push('-');
        }
        let ghost sign = out@;
        let s = self.scale as usize;
        if s == 0 {
            crate::text::push_chars(&mut out, &d);
        } else if d.len() > s {
            let k = d.len() - s;
            let mut i: usize = 0;
            while i < d.len()
                invariant
                    0 < k < d.len(),
                    i <= d.len(),
                    out@ == if i <= k {
                        sign + d@.subrange(0, i as int)
                    } else {
                        sign + d@.subrange(0, k as int) + seq!['.'] + d@.subrange(k as int, i as int)
                    },
                decreases d.len() - i,
            {
                if i == k {
                    out.push('.');
                }
                out.push(d[i]);
                i = i + 1;
                assert(out@ =~= if i <= k {
                    sign + d@.subrange(0, i as int)
                } else {
                    sign + d@.subrange(0, k as int) + seq!['.'] + d@.subrange(k as int, i as int)
                });
            }
        } else {
            out.push('0');
            out.push('.');
            let mut i: usize = d.len();
            while i < s
                invariant
                    d.len() <= i <= s,
                    out@ == sign + seq!['0', '.'] + zeros((i - d.len()) as nat),
                decreases s - i,
            {
                out.push('0');
                i = i + 1;
                assert(out@ =~= sign + seq!['0', '.'] + zeros((i - d.len()) as nat));
            }
            crate::text::push_chars(&mut out, &d);
        }
        assert(out@ =~= number_text(*self));
        out
    }
}

/// The value of a digit character.
pub open spec fn dval(c: char) -> nat {
    ((c as u32) - ('0' as u32)) as nat
}

/// The digits and the one point of a decimal from position `i`: where they end, the
/// mantissa, how many digits follow the point, and whether a digit came. `None` where the
/// mantissa passes `10^19` or more than 40 digits follow the point.
pub open spec fn mant_scan(cs: Seq<char>, i: int, mant: nat, frac: nat, seen: bool, any: bool) -> Option<(int, nat, nat, bool)>
    decreases cs.len() - i,
{
    if 0 <= i < cs.len() && (('0' <= cs[i] && cs[i] <= '9') || (cs[i] == '.' && !seen)) {
        if cs[i] == '.' {
            mant_scan(cs, i + 1, mant, frac, true, any)
        } else if mant >= 10_000_000_000_000_000_000 || frac >= 40 {
            None
        } else {
            mant_scan(cs, i + 1, mant * 10 + dval(cs[i]), if seen { frac + 1 } else { frac }, seen, true)
        }
    } else {
        Some((i, mant, frac, any))
    }
}

/// The digits of an exponent from position `i`: where they end, its value and whether a digit
/// came. `None` where it passes 40.
pub open spec fn exp_scan(cs: Seq<char>, i: int, e: nat, any: bool) -> Option<(int, nat, bool)>
    decreases cs.len() - i,
{
    if 0 <= i < cs.len() && '0' <= cs[i] && cs[i] <= '9' {
        if e * 10 + dval(cs[i]) > 40 {
            None
        } else {
            exp_scan(cs, i + 1, e * 10 + dval(cs[i]), true)
        }
    } else {
        Some((i, e, any))
    }
}

/// `mant * 10^k`, where no step passes `10^20`.
pub open spec fn scale_up(mant: nat, k: nat) -> Option<nat>
    decreases k,
{
    if k == 0 {
        Some(mant)
    } else if mant >= 10_000_000_000_000_000_000 {
        None
    } else {
        scale_up(mant * 10, (k - 1) as nat)
    }
}

/// The exponent part after position `i`: where it ends and its value; `(i, 0)` where there is
/// none, `None` where an `e` has no digits or the exponent passes 40.
pub open spec fn exp_part(cs: Seq<char>, i: int) -> Option<(int, int)> {
    if 0 <= i < cs.len() && (cs[i] == 'e' || cs[i] == 'E') {
        let j0 = i + 1;
        let (j1, eneg) = if j0 < cs.len() && (cs[j0] == '-' || cs[j0] == '+') {
            (j0 + 1, cs[j0] == '-')
        } else {
            (j0, false)
        };
        match exp_scan(cs, j1, 0, false) {
            None => None,
            Some((j, e, anye)) => if !anye {
                None
            } else {
                Some((j, if eneg { -e } else { e as int }))
            },
        }
    } else {
        Some((i, 0))
    }
}

/// The number that a decimal text writes: an optional sign, digits with at most one point, an
/// optional exponent; `None` for other text and for values that do not fit a `Number`.
pub open spec fn number_of(cs: Seq<char>) -> Option<Number> {
    let (i0, neg) = if cs.len() > 0 && (cs[0] == '-' || cs[0] == '+') {
        (1int, cs[0] == '-')
    } else {
        (0int, false)
    };
    match mant_scan(cs, i0, 0, 0, false, false) {
        None => None,
        Some((i, mant, frac, any)) => if !any {
            None
        } else {
            match exp_part(cs, i) {
                None => None,
                Some((j, exp)) => if j != cs.len() {
                    None
                } else {
                    let scale = frac - exp;
                    if scale < 0 {
                        match scale_up(mant, (-scale) as nat) {
                            None => None,
                            Some(m2) => checked_number(if neg { -m2 } else { m2 as int }, 0),
                        }
                    } else {
                        checked_number(if neg { -mant } else { mant as int }, scale as nat)
                    }
                },
            }
        },
    }
}

/// Parses a decimal: an optional sign, digits with an optional fractional part, and an
/// optional exponent (`10`, `-1.5`, `2.5e3`). `None` where the text is not a decimal or the
/// value does not fit a `Number`.
pub fn parse_number(cs: &Vec<char>) -> (r: Option<Number>)
    ensures
        r == number_of(cs@),
        r matches Some(n) ==> n.wf(),
        cs@.len() == 0 ==> r is None,
{
    let n = cs.len();
    let mut i: usize = 0;
    let mut neg = false;
    if i < n && (cs[i] == '-' || cs[i] == '+') {
        neg = cs[i] == '-';
        i = i + 1;
    }
    let ghost i0 = i as int;
    assert(i0 == (if cs@.len() > 0 && (cs@[0] == '-' || cs@[0] == '+') { 1int } else { 0int }));
    assert(neg == (cs@.len() > 0 && cs@[0] == '-'));
    let mut mant: u128 = 0;
    let mut any_digit = false;
    let mut frac: u32 = 0;
    let mut seen_point = false;
    while i < n && ((cs[i] >= '0' && cs[i] <= '9') || (cs[i] == '.' && !seen_point))
        invariant
            i <= n,
            n == cs.len(),
            mant < 100_000_000_000_000_000_000,
            frac <= 40,
            any_digit ==> n > 0,
            mant_scan(cs@, i0, 0, 0, false, false) == mant_scan(cs@, i as int, mant as nat, frac as nat, seen_point, any_digit),
            i0 == (if cs@.len() > 0 && (cs@[0] == '-' || cs@[0] == '+') { 1int } else { 0int }),
            neg == (cs@.len() > 0 && cs@[0] == '-'),
        decreases n - i,
    {
        if cs[i] == '.' {
            seen_point = true;
        } else {
            if mant >= 10_000_000_000_000_000_000 || frac >= 40 {
                assert(mant_scan(cs@, i as int, mant as nat, frac as nat, seen_point, any_digit)
                    is None);
                return None;
            }
            let d = (cs[i] as u32 - '0' as u32) as u128;
            assert(d as nat == dval(cs@[i as int]));
            mant = mant * 10 + d;
            any_digit = true;
            if seen_point {
                frac = frac + 1;
            }
        }
        i = i + 1;
    }
    assert(mant_scan(cs@, i0, 0, 0, false, false) == Some((i as int, mant as nat, frac as nat, any_digit)));
    if !any_digit {
        return None;
    }
    let ghost mi = i as int;
    let mut exp: i32 = 0;
    if i < n && (cs[i] == 'e' || cs[i] == 'E') {
        i = i + 1;
        let mut eneg = false;
        if i < n && (cs[i] == '-' || cs[i] == '+') {
            eneg = cs[i] == '-';
            i = i + 1;
        }
        let ghost j1 = i as int;
        let mut any_exp_digit = false;
        while i < n && cs[i] >= '0' && cs[i] <= '9'
            invariant
                i <= n,
                n == cs.len(),
                0 <= exp <= 40,
                exp_scan(cs@, j1, 0, false) == exp_scan(cs@, i as int, exp as nat, any_exp_digit),
                mant_scan(cs@, i0, 0, 0, false, false) == Some((mi, mant as nat, frac as nat, true)),
                i0 == (if cs@.len() > 0 && (cs@[0] == '-' || cs@[0] == '+') { 1int } else { 0int }),
                0 <= mi < n && (cs@[mi] == 'e' || cs@[mi] == 'E'),
                j1 == (if mi + 1 < n && (cs@[mi + 1] == '-' || cs@[mi + 1] == '+') { mi + 2 } else { mi + 1 }),
            decreases n - i,
        {
            let d = (cs[i] as u32 - '0' as u32) as i32;
            assert(d as nat == dval(cs@[i as int]));
            let ghost e0 = exp;
            exp = exp * 10 + d;
            if exp > 40 {
                assert(exp_scan(cs@, i as int, e0 as nat, any_exp_digit) is None);
                assert(exp_part(cs@, mi) is None);
                return None;
            }
            any_exp_digit = true;
            i = i + 1;
        }
        assert(exp_scan(cs@, i as int, exp as nat, any_exp_digit) == Some((i as int, exp as nat, any_exp_digit)));
        if !any_exp_digit {
            assert(exp_part(cs@, mi) is None);
            return None;
        }
        if eneg {
            exp = 0 - exp;
        }
        assert(exp_part(cs@, mi) == Some((i as int, exp as int)));
    } else {
        assert(exp_part(cs@, mi) == Some((i as int, 0int)));
    }
    if i != n {
        return None;
    }
    let scale: i32 = frac as i32 - exp;
    if scale < 0 {
        let mut k: i32 = scale;
        let ghost m0 = mant as nat;
        assert(number_of(cs@) == (match scale_up(m0, (-scale) as nat) {
            None => None::<Number>,
            Some(m2) => checked_number(if neg { -m2 } else { m2 as int }, 0),
        }));
        while k < 0
            invariant
                mant < 100_000_000_000_000_000_000,
                k <= 0,
                scale < 0,
                number_of(cs@) == (match scale_up(m0, (-scale) as nat) {
                    None => None::<Number>,
                    Some(m2) => checked_number(if neg { -m2 } else { m2 as int }, 0),
                }),
                scale_up(m0, (-scale) as nat) == scale_up(mant as nat, (-k) as nat),
            decreases 0 - k,
        {
            if mant >= 10_000_000_000_000_000_000 {
                assert(scale_up(mant as nat, (-k) as nat) is None);
                return None;
            }
            mant = mant * 10;
            k = k + 1;
        }
        let m: i128 = if neg {
            0 - (mant as i128)
        } else {
            mant as i128
        };
        make_checked(m, 0)
    } else {
        let m: i128 = if neg {
            0 - (mant as i128)
        } else {
            mant as i128
        };
        make_checked(m, scale as u32)
    }
}

fn make_checked(m: i128, s: u32) -> (r: Option<Number>)
    ensures
        r == checked_number(m as int, s as nat),
        r matches Some(n) ==> n.wf(),
{
    let r = make_number(m, s);
    proof {
        if r is Some {
            lemma_canonical_wf(m as int, s as nat);
        }
    }
    r
}

/// A canonical form has no trailing zero after the point.
pub proof fn lemma_canonical_wf(m: int, s: nat)
    ensures
        checked_number(m, s) matches Some(n) ==> n.wf(),
{
    lemma_strip_zeros_end(abs(m), s);
    let (a, t) = strip_zeros(abs(m), s);
    if checked_number(m, s) is Some && t > 0 {
        let cm: int = if m < 0 { -a } else { a as int };
        assert(cm % 10 != 0) by {
            if m < 0 {
                assert((-a) % 10 == 0 ==> a % 10 == 0) by (nonlinear_arith);
            }
        }
    }
}

/// After stripping, either no digit follows the point or the last one is not zero.
pub proof fn lemma_strip_zeros_end(a: nat, s: nat)
    ensures
        strip_zeros(a, s).1 == 0 || strip_zeros(a, s).0 % 10 != 0,
        strip_zeros(a, s).1 <= s,
    decreases s,
{
    if s > 0 && a % 10 == 0 {
        lemma_strip_zeros_end(a / 10, (s - 1) as nat);
    }
}

} // verus!
