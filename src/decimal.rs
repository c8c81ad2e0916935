use vstd::prelude::*;

verus! {

/// Ten to the power `n`.
pub open spec fn pow10(n: nat) -> nat
    decreases n,
{
    if n == 0 {
        1
    } else {
        10 * pow10((n - 1) as nat)
    }
}

pub proof fn lemma_pow10_positive(n: nat)
    ensures
        pow10(n) >= 1,
    decreases n,
{
    if n > 0 {
        lemma_pow10_positive((n - 1) as nat);
    }
}

pub proof fn lemma_pow10_monotone(a: nat, b: nat)
    requires
        a <= b,
    ensures
        pow10(a) <= pow10(b),
    decreases b,
{
    if a < b {
        lemma_pow10_monotone(a, (b - 1) as nat);
        lemma_pow10_positive((b - 1) as nat);
    }
}

pub open spec fn is_digit(c: char) -> bool {
    '0' <= c && c <= '9'
}

pub open spec fn digit_value(c: char) -> nat {
    (c as int - '0' as int) as nat
}

/// The number that a run of decimal digits spells, most significant first.
pub open spec fn digits_value(s: Seq<char>) -> nat
    decreases s.len(),
{
    if s.len() == 0 {
        0
    } else {
        digits_value(s.drop_last()) * 10 + digit_value(s.last())
    }
}

proof fn lemma_digits_prefix_bounded(s: Seq<char>, j: int)
    requires
        0 <= j <= s.len(),
    ensures
        digits_value(s.take(j)) <= digits_value(s),
    decreases s.len() - j,
{
    if j < s.len() {
        lemma_digits_prefix_bounded(s, j + 1);
        assert(s.take(j + 1).drop_last() =~= s.take(j));
    } else {
        assert(s.take(j) =~= s);
    }
}

/// An exact decimal number: `mantissa / 10^scale`, negated when `negative`.
///
/// Values built by this module are canonical (no trailing zero in the
/// fraction, no negative zero), so two of them are equal exactly when the
/// numbers are.
#[derive(Clone, Copy, Debug, PartialEq, Eq, Hash, Structural)]
pub struct Decimal {
    pub negative: bool,
    pub mantissa: u64,
    pub scale: usize,
}

/// The canonical decimal for the number `(-1 if neg) * v / 10^s`.
pub open spec fn canonical_decimal(neg: bool, v: nat, s: nat) -> Decimal
    recommends
        v <= u64::MAX,
        s <= usize::MAX,
    decreases s,
{
    if s > 0 && v % 10 == 0 {
        canonical_decimal(neg, v / 10, (s - 1) as nat)
    } else {
        Decimal { negative: neg && v != 0, mantissa: v as u64, scale: s as usize }
    }
}

impl Decimal {
    /// The number is at least ten.
    pub open spec fn spec_at_least_ten(self) -> bool {
        !self.negative && self.mantissa >= 10 * pow10(self.scale as nat)
    }

    /// The non-negative number `mantissa / 10^scale`.
    pub fn new(mantissa: u64, scale: usize) -> (r: Decimal)
        ensures
            r == canonical_decimal(false, mantissa as nat, scale as nat),
    {
        Decimal::normalized(false, mantissa, scale)
    }

    /// Zero, the value of an absent amount.
    pub fn zero() -> (r: Decimal)
        ensures
            r == canonical_decimal(false, 0, 0),
    {
        Decimal { negative: false, mantissa: 0, scale: 0 }
    }

    fn normalized(negative: bool, mantissa: u64, scale: usize) -> (r: Decimal)
        ensures
            r == canonical_decimal(negative, mantissa as nat, scale as nat),
    {
        let mut m: u64 = mantissa;
        let mut s: usize = scale;
        while s > 0 && m % 10 == 0
            invariant
                canonical_decimal(negative, m as nat, s as nat) == canonical_decimal(
                    negative,
                    mantissa as nat,
                    scale as nat,
                ),
            decreases s,
        {
            m = m / 10;
            s = s - 1;
        }
        Decimal { negative: negative && m != 0, mantissa: m, scale: s }
    }

    /// Whether the number is at least ten.
    pub fn at_least_ten(&self) -> (r: bool)
        ensures
            r == self.spec_at_least_ten(),
    {
        if self.negative {
            return false;
        }
        let mut bound: u64 = 10;
        let mut i: usize = 0;
        while i < self.scale
            invariant
                i <= self.scale,
                bound == 10 * pow10(i as nat),
            decreases self.scale - i,
        {
            if bound > self.mantissa / 10 {
                proof {
                    lemma_pow10_monotone((i + 1) as nat, self.scale as nat);
                    assert(10 * bound > self.mantissa) by (nonlinear_arith)
                        requires
                            bound > self.mantissa / 10,
                    ;
                }
                return false;
            }
            assert(bound * 10 <= self.mantissa) by (nonlinear_arith)
                requires
                    bound <= self.mantissa / 10,
            ;
            bound = bound * 10;
            i = i + 1;
        }
        self.mantissa >= bound
    }
}

/// Position of the decimal point in `b`, or `b.len()` when there is none.
pub open spec fn point_index(b: Seq<char>) -> int {
    if exists|k: int| 0 <= k < b.len() && b[k] == '.' {
        choose|k: int| 0 <= k < b.len() && b[k] == '.'
    } else {
        b.len() as int
    }
}

/// The characters of `b` with the decimal point taken out.
pub open spec fn digits_without_point(b: Seq<char>) -> Seq<char> {
    let k = point_index(b);
    if k < b.len() {
        b.take(k) + b.skip(k + 1)
    } else {
        b
    }
}

/// Number of digits after the decimal point.
pub open spec fn fraction_len(b: Seq<char>) -> nat {
    let k = point_index(b);
    if k < b.len() {
        (b.len() - k - 1) as nat
    } else {
        0
    }
}

pub open spec fn sign_len(s: Seq<char>) -> int {
    if s.len() > 0 && (s[0] == '+' || s[0] == '-') {
        1
    } else {
        0
    }
}

pub open spec fn unsigned_part(s: Seq<char>) -> Seq<char> {
    s.skip(sign_len(s))
}

/// Text of the form `[+|-]digits[.digits]` with at least one digit, whose
/// digits spell a number that fits in 64 bits.
pub open spec fn is_decimal_text(s: Seq<char>) -> bool {
    let b = unsigned_part(s);
    let k = point_index(b);
    &&& forall|i: int| 0 <= i < b.len() && i != k ==> is_digit(#[trigger] b[i])
    &&& digits_without_point(b).len() > 0
    &&& digits_value(digits_without_point(b)) <= u64::MAX
}

/// The number that decimal text spells, or `None` for other text.
pub open spec fn decimal_of_text(s: Seq<char>) -> Option<Decimal> {
    if is_decimal_text(s) {
        let b = unsigned_part(s);
        Some(
            canonical_decimal(
                sign_len(s) == 1 && s[0] == '-',
                digits_value(digits_without_point(b)),
                fraction_len(b),
            ),
        )
    } else {
        None
    }
}

/// Reads decimal text, `[+|-]digits[.digits]`, exactly.
pub fn parse_decimal(s: &str) -> (r: Option<Decimal>)
    ensures
        r == decimal_of_text(s@),
{
    let n = s.unicode_len();
    let mut start: usize = 0;
    let mut negative = false;
    if n > 0 {
        let c = s.get_char(0);
        if c == '+' || c == '-' {
            start = 1;
            negative = c == '-';
        }
    }
    let ghost b = s@.skip(start as int);
    assert(start as int == sign_len(s@));
    assert(b == unsigned_part(s@));
    // find the first decimal point
    let mut k: usize = n;
    let mut i: usize = start;
    while i < n
        invariant
            start <= i <= n,
            n == s@.len(),
            k <= n,
            k == n ==> forall|j: int| start <= j < i ==> s@[j] != '.',
            k < n ==> start <= k && s@[k as int] == '.',
        decreases n - i,
    {
        if s.get_char(i) == '.' {
            k = i;
            i = n;
        } else {
            i = i + 1;
        }
    }
    let ghost kb: int = if k < n { k - start } else { b.len() as int };
    assert(k == n ==> forall|q: int| 0 <= q < b.len() ==> b[q] != '.') by {
        if k == n {
            assert forall|q: int| 0 <= q < b.len() implies b[q] != '.' by {
                assert(b[q] == s@[q + start]);
            }
        }
    }
    assert(b.len() == n - start);
    assert(k < n ==> kb < b.len());
    assert(kb == b.len() ==> k == n);
    assert(kb < b.len() ==> b[kb] == '.');
    let ghost dd: Seq<char> = if k < n { b.take(kb) + b.skip(kb + 1) } else { b };
    // read the digits, skipping the point
    let mut m: u64 = 0;
    let mut j: usize = 0;
    i = start;
    while i < n
        invariant
            start <= i <= n,
            n == s@.len(),
            b == s@.skip(start as int),
            b == unsigned_part(s@),
            b.len() == n - start,
            k <= n,
            k < n ==> start <= k && s@[k as int] == '.' && kb == k - start,
            k == n ==> kb == b.len(),
            k == n ==> forall|q: int| 0 <= q < b.len() ==> b[q] != '.',
            0 <= kb <= b.len(),
            kb < b.len() ==> b[kb] == '.',
            kb == b.len() ==> forall|q: int| 0 <= q < b.len() ==> b[q] != '.',
            dd == (if k < n { b.take(kb) + b.skip(kb + 1) } else { b }),
            dd.len() == b.len() - (if k < n { 1int } else { 0 }),
            j == i - start - (if k < n && k < i { 1int } else { 0 }),
            m == digits_value(dd.take(j as int)),
            forall|p: int| 0 <= p < i - start && p != kb ==> is_digit(#[trigger] b[p]),
        decreases n - i,
    {
        if i != k {
            let c = s.get_char(i);
            assert(dd[j as int] == c);
            if c < '0' || c > '9' {
                assert(b[i - start] == c);
                proof {
                    let p: int = i - start;
                    lemma_not_decimal(s@, b, p, kb);
                }
                return None;
            }
            let d = (c as u32 - '0' as u32) as u64;
            assert(dd.take(j + 1).drop_last() =~= dd.take(j as int));
            assert(digit_value(c) == d);
            assert(digits_value(dd.take(j + 1)) == m * 10 + d);
            match m.checked_mul(10) {
                Some(t) => match t.checked_add(d) {
                    Some(u) => {
                        m = u;
                    },
                    None => {
                        proof {
                            lemma_digits_prefix_bounded(dd, j + 1);
                            lemma_decimal_point(s@, b, kb);
                        }
                        return None;
                    },
                },
                None => {
                    proof {
                        lemma_digits_prefix_bounded(dd, j + 1);
                        lemma_decimal_point(s@, b, kb);
                    }
                    return None;
                },
            }
            j = j + 1;
        }
        i = i + 1;
    }
    proof {
        assert(dd.take(j as int) =~= dd);
        lemma_point_index(b, kb);
    }
    if j == 0 {
        return None;
    }
    let scale: usize = if k < n { n - k - 1 } else { 0 };
    Some(Decimal::normalized(negative, m, scale))
}

/// In text with at most one point, `point_index` finds it.
proof fn lemma_point_index(b: Seq<char>, kb: int)
    requires
        0 <= kb <= b.len(),
        kb < b.len() ==> b[kb] == '.',
        forall|p: int| 0 <= p < b.len() && p != kb ==> is_digit(#[trigger] b[p]),
    ensures
        point_index(b) == kb,
{
    if kb < b.len() {
        assert(exists|k: int| 0 <= k < b.len() && b[k] == '.');
        let c = choose|k: int| 0 <= k < b.len() && b[k] == '.';
        if c != kb {
            assert(is_digit(b[c]));
        }
    } else {
        if exists|k: int| 0 <= k < b.len() && b[k] == '.' {
            let c = choose|k: int| 0 <= k < b.len() && b[k] == '.';
            assert(is_digit(b[c]));
        }
    }
}

/// In decimal text the point is the one found first, if any.
proof fn lemma_decimal_point(s: Seq<char>, b: Seq<char>, kb: int)
    requires
        unsigned_part(s) == b,
        0 <= kb <= b.len(),
        kb < b.len() ==> b[kb] == '.',
        kb == b.len() ==> forall|q: int| 0 <= q < b.len() ==> b[q] != '.',
    ensures
        is_decimal_text(s) ==> point_index(b) == kb,
{
    if is_decimal_text(s) {
        let c = point_index(b);
        if kb < b.len() && c != kb {
            assert(is_digit(b[kb]));
        }
        if kb == b.len() && exists|q: int| 0 <= q < b.len() && b[q] == '.' {
            assert(b[c] == '.');
        }
    }
}

/// A character that is neither a digit nor the point found first makes the
/// text no decimal.
proof fn lemma_not_decimal(s: Seq<char>, b: Seq<char>, p: int, kb: int)
    requires
        unsigned_part(s) == b,
        kb == b.len() ==> forall|q: int| 0 <= q < b.len() ==> b[q] != '.',
        0 <= p < b.len(),
        p != kb,
        !is_digit(b[p]),
        0 <= kb <= b.len(),
        kb < b.len() ==> b[kb] == '.',
    ensures
        !is_decimal_text(s),
{
    let k = point_index(b);
    if k != p {
        assert(!(forall|i: int| 0 <= i < b.len() && i != k ==> is_digit(#[trigger] b[i])));
    } else {
        // the point sits at p; then kb, another position, holds a point too
        assert(exists|q: int| 0 <= q < b.len() && b[q] == '.');
        assert(b[k] == '.');
        assert(!is_digit(b[kb]));
        assert(!(forall|i: int| 0 <= i < b.len() && i != k ==> is_digit(#[trigger] b[i])));
    }
}

} // verus!
