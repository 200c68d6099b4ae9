use vstd::prelude::*;
use crate::text::{
    all_digit_chars, all_digits, chars_of, copy_range, digit_value, digits_to_u64, digits_value, is_digit,
    lemma_digits_value_prefix,
};
use vstd::arithmetic::div_mod::{lemma_div_denominator, lemma_div_is_ordered, lemma_hoist_over_denominator};

verus! {

/// How much memory a device tolerates before it is left out.
#[derive(Clone, Copy, Debug, PartialEq, Eq, Structural)]
pub enum MemoryLimit {
    /// At most this many megabytes of total memory.
    Bounded(u64),
    /// Any amount of memory.
    Unlimited,
}

/// A decimal ratio, kept exactly: `±digits × 10^scale`, where `digits` is
/// read as a whole number.
#[derive(Clone, Debug, PartialEq, Eq)]
pub struct Fraction {
    pub negative: bool,
    pub digits: Vec<char>,
    pub scale: i64,
}

pub struct FractionView {
    pub negative: bool,
    pub digits: Seq<char>,
    pub scale: int,
}

impl View for Fraction {
    type V = FractionView;

    open spec fn view(&self) -> FractionView {
        FractionView { negative: self.negative, digits: self.digits@, scale: self.scale as int }
    }
}

pub open spec fn pow10(k: nat) -> nat
    decreases k,
{
    if k == 0 {
        1
    } else {
        10 * pow10((k - 1) as nat)
    }
}

/// The index of the first `.` in `s`, or its length.
pub open spec fn first_dot(s: Seq<char>) -> nat
    decreases s.len(),
{
    if s.len() == 0 || s[0] == '.' {
        0
    } else {
        1 + first_dot(s.drop_first())
    }
}

pub open spec fn whole_digits(b: Seq<char>) -> Seq<char> {
    b.take(first_dot(b) as int)
}

pub open spec fn fraction_digits(b: Seq<char>) -> Seq<char> {
    if first_dot(b) < b.len() {
        b.skip(first_dot(b) + 1int)
    } else {
        Seq::empty()
    }
}

/// The index of the first `e` or `E` in `s`, or its length.
pub open spec fn first_exp(s: Seq<char>) -> nat
    decreases s.len(),
{
    if s.len() == 0 || s[0] == 'e' || s[0] == 'E' {
        0
    } else {
        1 + first_exp(s.drop_first())
    }
}

/// The text after the exponent mark, if there is one.
pub open spec fn exponent_text(b: Seq<char>) -> Option<Seq<char>> {
    if first_exp(b) < b.len() {
        Some(b.skip(first_exp(b) + 1int))
    } else {
        None
    }
}

/// An exponent without its optional sign.
pub open spec fn exponent_digits(t: Seq<char>) -> Seq<char> {
    if t.len() > 0 && (t[0] == '+' || t[0] == '-') {
        t.drop_first()
    } else {
        t
    }
}

/// The power of ten that an exponent denotes: an optional sign and at least
/// one digit, whose magnitude fits in 64 bits; no exponent denotes 0.
pub open spec fn exponent_value(x: Option<Seq<char>>) -> Option<int> {
    match x {
        None => Some(0),
        Some(t) => {
            let u = exponent_digits(t);
            if u.len() > 0 && all_digits(u) && digits_value(u) <= u64::MAX {
                Some(
                    if t[0] == '-' {
                        -digits_value(u)
                    } else {
                        digits_value(u) as int
                    },
                )
            } else {
                None
            }
        },
    }
}

/// A literal without its optional sign.
pub open spec fn signless(s: Seq<char>) -> Seq<char> {
    if s.len() > 0 && (s[0] == '+' || s[0] == '-') {
        s.drop_first()
    } else {
        s
    }
}

/// Whether `c` is the lower-case letter `l` in either case.
pub open spec fn same_letter(c: char, l: char) -> bool {
    c == l || c as u32 + 32 == l as u32
}

/// Whether `b` spells the lower-case word `w`, in any case.
pub open spec fn spells(b: Seq<char>, w: Seq<char>) -> bool {
    b.len() == w.len() && forall|i: int| 0 <= i < b.len() ==> same_letter(b[i], #[trigger] w[i])
}

/// How a ratio is read from text, as a floating-point literal: an optional
/// sign, digits with at most one decimal point and at least one digit, and
/// an optional exponent (`e` or `E`). Every digit is kept; the scale must
/// fit in 64 bits. `inf` and `infinity` read as `10^i64::MAX`, more than any
/// size can take; `nan` reads as a negative zero, which gives no size, as a
/// float that is not a number gives none.
pub open spec fn parse_fraction_spec(s: Seq<char>) -> Option<FractionView> {
    let b = signless(s);
    if spells(b, "nan"@) {
        Some(FractionView { negative: true, digits: seq!['0'], scale: 0 })
    } else if spells(b, "inf"@) || spells(b, "infinity"@) {
        Some(
            FractionView {
                negative: s.len() > 0 && s[0] == '-',
                digits: seq!['1'],
                scale: i64::MAX as int,
            },
        )
    } else {
        parse_number_spec(s)
    }
}

/// A ratio written with digits.
pub open spec fn parse_number_spec(s: Seq<char>) -> Option<FractionView> {
    let b = signless(s);
    let m = b.take(first_exp(b) as int);
    let w = whole_digits(m);
    let f = fraction_digits(m);
    if !(all_digits(w) && all_digits(f) && w.len() + f.len() > 0) {
        None
    } else {
        match exponent_value(exponent_text(b)) {
            None => None,
            Some(e) => if i64::MIN <= e - f.len() <= i64::MAX {
                Some(
                    FractionView {
                        negative: s.len() > 0 && s[0] == '-',
                        digits: w + f,
                        scale: e - f.len(),
                    },
                )
            } else {
                None
            },
        }
    }
}

/// Whether a device with this limit is kept on a machine with `mem_kb`
/// kilobytes of memory: the memory in megabytes may not exceed the limit.
pub open spec fn within_limit(limit: MemoryLimit, mem_kb: nat) -> bool {
    match limit {
        MemoryLimit::Unlimited => true,
        MemoryLimit::Bounded(l) => mem_kb <= l * 1024,
    }
}

/// `floor(ratio × mem_kb / 1024)`, the whole megabytes of the ratio of the
/// memory, computed exactly; a negative ratio gives none.
pub open spec fn size_mb(f: FractionView, mem_kb: nat) -> nat {
    if f.negative {
        0
    } else if f.scale >= 0 {
        (digits_value(f.digits) * pow10(f.scale as nat) * mem_kb / 1024) as nat
    } else {
        (digits_value(f.digits) * mem_kb / (pow10((-f.scale) as nat) * 1024)) as nat
    }
}

/// The device size in bytes: whole megabytes first, then scaled to bytes.
pub open spec fn disksize_spec(f: FractionView, mem_kb: nat) -> nat {
    size_mb(f, mem_kb) * 1048576
}

proof fn lemma_first_dot(b: Seq<char>, p: int)
    requires
        0 <= p <= b.len(),
        forall|k: int| 0 <= k < p ==> b[k] != '.',
        p == b.len() || b[p] == '.',
    ensures
        first_dot(b) == p,
    decreases p,
{
    if p > 0 {
        lemma_first_dot(b.drop_first(), p - 1);
    }
}

proof fn lemma_first_exp(b: Seq<char>, p: int)
    requires
        0 <= p <= b.len(),
        forall|k: int| 0 <= k < p ==> b[k] != 'e' && b[k] != 'E',
        p == b.len() || b[p] == 'e' || b[p] == 'E',
    ensures
        first_exp(b) == p,
    decreases p,
{
    if p > 0 {
        lemma_first_exp(b.drop_first(), p - 1);
    }
}

proof fn lemma_pow10_positive(k: nat)
    ensures
        pow10(k) >= 1,
    decreases k,
{
    if k > 0 {
        lemma_pow10_positive((k - 1) as nat);
    }
}

proof fn lemma_pow10_mono(i: nat, j: nat)
    requires
        i <= j,
    ensures
        pow10(i) <= pow10(j),
    decreases j,
{
    if i < j {
        lemma_pow10_mono(i, (j - 1) as nat);
    }
}

/// The digits of a mantissa, its decimal point left out, and how many of
/// them follow the point; `None` where it is not digits with at most one
/// point and at least one digit.
fn mantissa_digits(m: &Vec<char>) -> (r: Option<(Vec<char>, usize)>)
    ensures
        match r {
            Some(x) => all_digits(whole_digits(m@)) && all_digits(fraction_digits(m@))
                && whole_digits(m@).len() + fraction_digits(m@).len() > 0 && x.0@ == whole_digits(m@)
                + fraction_digits(m@) && x.1 == fraction_digits(m@).len(),
            None => !(all_digits(whole_digits(m@)) && all_digits(fraction_digits(m@))
                && whole_digits(m@).len() + fraction_digits(m@).len() > 0),
        },
{
    let mut p: usize = 0;
    while p < m.len() && m[p] != '.'
        invariant
            p <= m@.len(),
            forall|k: int| 0 <= k < p ==> m@[k] != '.',
        decreases m@.len() - p,
    {
        p = p + 1;
    }
    proof {
        lemma_first_dot(m@, p as int);
    }
    let w = copy_range(m, 0, p);
    let f = if p < m.len() { copy_range(m, p + 1, m.len()) } else { Vec::new() };
    assert(w@ =~= whole_digits(m@));
    assert(f@ =~= fraction_digits(m@));
    if !all_digit_chars(&w) || !all_digit_chars(&f) || w.len() + f.len() == 0 {
        return None;
    }
    let mut d = w.clone();
    let mut k: usize = 0;
    while k < f.len()
        invariant
            k <= f@.len(),
            d@ == w@ + f@.take(k as int),
        decreases f@.len() - k,
    {
        d.push(f[k]);
        k = k + 1;
        assert(d@ =~= w@ + f@.take(k as int));
    }
    assert(f@.take(f@.len() as int) =~= f@);
    Some((d, f.len()))
}

/// Reads the exponent that follows the mark at `q`, if any: whether it is
/// negative, and its magnitude.
fn exponent_of(b: &Vec<char>, q: usize) -> (r: Option<(bool, u64)>)
    requires
        q == first_exp(b@),
        q <= b@.len(),
    ensures
        match r {
            Some(x) => exponent_value(exponent_text(b@)) == Some(
                if x.0 {
                    -(x.1 as int)
                } else {
                    x.1 as int
                },
            ),
            None => exponent_value(exponent_text(b@)) is None,
        },
{
    if q == b.len() {
        return Some((false, 0));
    }
    let t = copy_range(b, q + 1, b.len());
    assert(t@ =~= exponent_text(b@)->Some_0);
    let signed = t.len() > 0 && (t[0] == '+' || t[0] == '-');
    let u = if signed { copy_range(&t, 1, t.len()) } else { copy_range(&t, 0, t.len()) };
    assert(u@ =~= exponent_digits(t@));
    if u.len() == 0 || !all_digit_chars(&u) {
        return None;
    }
    match digits_to_u64(&u) {
        None => None,
        Some(v) => Some((t[0] == '-', v)),
    }
}

/// Whether `b` spells the lower-case word `w`, in any case.
fn spells_word(b: &Vec<char>, w: &str) -> (r: bool)
    ensures
        r == spells(b@, w@),
{
    let n = w.unicode_len();
    if b.len() != n {
        return false;
    }
    let mut i: usize = 0;
    while i < n
        invariant
            n == w@.len() == b@.len(),
            i <= n,
            forall|k: int| 0 <= k < i ==> same_letter(b@[k], #[trigger] w@[k]),
        decreases n - i,
    {
        let c = b[i];
        let l = w.get_char(i);
        if !(c == l || (c as u32 as u64) + 32 == l as u32 as u64) {
            return false;
        }
        i = i + 1;
    }
    true
}

/// Reads a ratio written as a floating-point literal, keeping every digit.
pub fn parse_fraction(s: &str) -> (r: Option<Fraction>)
    ensures
        match r {
            Some(f) => parse_fraction_spec(s@) == Some(f@) && all_digits(f.digits@),
            None => parse_fraction_spec(s@) is None,
        },
{
    let cs = chars_of(s);
    let negative = cs.len() > 0 && cs[0] == '-';
    let start: usize = if cs.len() > 0 && (cs[0] == '+' || cs[0] == '-') { 1 } else { 0 };
    let b = copy_range(&cs, start, cs.len());
    assert(b@ =~= signless(s@));
    if spells_word(&b, "nan") {
        let digits = vec!['0'];
        assert(digits@ =~= seq!['0']);
        assert(all_digits(digits@)) by {
            assert forall|i: int| 0 <= i < digits@.len() implies is_digit(#[trigger] digits@[i]) by {
                assert(i == 0);
            }
        }
        return Some(Fraction { negative: true, digits, scale: 0 });
    }
    if spells_word(&b, "inf") || spells_word(&b, "infinity") {
        let digits = vec!['1'];
        assert(digits@ =~= seq!['1']);
        assert(all_digits(digits@)) by {
            assert forall|i: int| 0 <= i < digits@.len() implies is_digit(#[trigger] digits@[i]) by {
                assert(i == 0);
            }
        }
        return Some(Fraction { negative, digits, scale: i64::MAX });
    }
    let mut q: usize = 0;
    while q < b.len() && b[q] != 'e' && b[q] != 'E'
        invariant
            q <= b@.len(),
            forall|k: int| 0 <= k < q ==> b@[k] != 'e' && b@[k] != 'E',
        decreases b@.len() - q,
    {
        q = q + 1;
    }
    proof {
        lemma_first_exp(b@, q as int);
    }
    let m = copy_range(&b, 0, q);
    assert(m@ =~= b@.take(q as int));
    let (digits, flen) = match mantissa_digits(&m) {
        None => {
            return None;
        },
        Some(x) => x,
    };
    let (eneg, exp) = match exponent_of(&b, q) {
        None => {
            return None;
        },
        Some(x) => x,
    };
    let scale: i128 = if eneg { -(exp as i128) } else { exp as i128 } - (flen as i128);
    if scale < i64::MIN as i128 || scale > i64::MAX as i128 {
        return None;
    }
    assert(all_digits(digits@)) by {
        let w = whole_digits(m@);
        let f = fraction_digits(m@);
        assert forall|i: int| 0 <= i < digits@.len() implies is_digit(#[trigger] digits@[i]) by {
            if i >= w.len() {
                assert(digits@[i] == f[i - w.len()]);
            } else {
                assert(digits@[i] == w[i]);
            }
        }
    }
    Some(Fraction { negative, digits, scale: scale as i64 })
}

/// Whether a device with this limit is kept when the machine has `mem_kb`
/// kilobytes of memory.
pub fn fits_memory(limit: MemoryLimit, mem_kb: u64) -> (r: bool)
    ensures
        r == within_limit(limit, mem_kb as nat),
{
    match limit {
        MemoryLimit::Unlimited => true,
        MemoryLimit::Bounded(l) => (mem_kb as u128) <= (l as u128) * 1024,
    }
}


/// The most whole megabytes whose size in bytes fits in 64 bits.
pub const SIZE_LIMIT_MB: u64 = 17592186044415;

/// A value of digits from which on the size cannot fit in 64 bits.
const SATURATION: u64 = 18014398509481984;

pub proof fn lemma_pow10_add(a: nat, b: nat)
    ensures
        pow10(a + b) == pow10(a) * pow10(b),
    decreases b,
{
    if b == 0 {
        assert(a + b == a);
        assert(pow10(0) == 1);
    } else {
        lemma_pow10_add(a, (b - 1) as nat);
        assert((a + b - 1) as nat == a + (b - 1) as nat);
        assert(pow10(a + b) == 10 * pow10((a + b - 1) as nat));
        assert(pow10(b) == 10 * pow10((b - 1) as nat));
        let x = pow10(a);
        let y = pow10((b - 1) as nat);
        assert(10 * (x * y) == x * (10 * y)) by (nonlinear_arith);
    }
}

/// The value of digits placed after others.
pub proof fn lemma_digits_concat(a: Seq<char>, b: Seq<char>)
    ensures
        digits_value(a + b) == digits_value(a) * pow10(b.len()) + digits_value(b),
    decreases b.len(),
{
    if b.len() == 0 {
        assert(a + b =~= a);
        assert(pow10(0) == 1);
        assert(digits_value(b) == 0);
    } else {
        lemma_digits_concat(a, b.drop_last());
        assert((a + b).drop_last() =~= a + b.drop_last());
        assert((a + b).last() == b.last());
        let x = digits_value(a);
        let p = pow10((b.len() - 1) as nat);
        let y = digits_value(b.drop_last());
        let z = digit_value(b.last());
        assert(digits_value(a + b) == digits_value((a + b).drop_last()) * 10 + digit_value((a + b).last()));
        assert(digits_value(b) == y * 10 + z);
        assert(pow10(b.len()) == 10 * p);
        assert((x * p + y) * 10 + z == x * (10 * p) + (y * 10 + z)) by (nonlinear_arith);
    }
}

/// `floor(kb × 0.s)`: the whole part of `kb` times the digits read as decimals.
pub open spec fn scaled_floor(s: Seq<char>, kb: nat) -> nat {
    (kb * digits_value(s) / pow10(s.len())) as nat
}

/// The value of `d[lo..hi]`, or `None` when it reaches `SATURATION`.
fn saturated_value(d: &Vec<char>, lo: usize, hi: usize) -> (r: Option<u64>)
    requires
        all_digits(d@),
        lo <= hi <= d@.len(),
    ensures
        match r {
            Some(v) => v == digits_value(d@.subrange(lo as int, hi as int)) && v < SATURATION,
            None => digits_value(d@.subrange(lo as int, hi as int)) >= SATURATION,
        },
{
    let mut x: u64 = 0;
    let mut i = lo;
    assert(d@.subrange(lo as int, lo as int) =~= Seq::<char>::empty());
    while i < hi
        invariant
            lo <= i <= hi <= d@.len(),
            all_digits(d@),
            x == digits_value(d@.subrange(lo as int, i as int)),
            x < SATURATION,
        decreases hi - i,
    {
        assert(is_digit(d@[i as int]));
        let v = (d[i] as u32 - '0' as u32) as u64;
        assert(d@.subrange(lo as int, i + 1).drop_last() =~= d@.subrange(lo as int, i as int));
        x = x * 10 + v;
        i = i + 1;
        if x >= SATURATION {
            proof {
                let t = d@.subrange(lo as int, hi as int);
                lemma_digits_value_prefix(t, i - lo, hi - lo);
                assert(t.take(i - lo) =~= d@.subrange(lo as int, i as int));
                assert(t.take(hi - lo) =~= t);
            }
            return None;
        }
    }
    Some(x)
}

/// `floor(kb × 0.d[lo..hi])`, from the last digit to the first.
fn carry_floor(d: &Vec<char>, lo: usize, hi: usize, kb: u64) -> (r: u128)
    requires
        all_digits(d@),
        lo <= hi <= d@.len(),
    ensures
        r == scaled_floor(d@.subrange(lo as int, hi as int), kb as nat),
        r <= 2 * kb,
{
    let mut c: u128 = 0;
    let mut i = hi;
    proof {
        assert(d@.subrange(hi as int, hi as int) =~= Seq::<char>::empty());
        assert(pow10(0) == 1);
        assert(digits_value(Seq::<char>::empty()) == 0);
        assert((kb as int) * 0 == 0);
    }
    while i > lo
        invariant
            lo <= i <= hi <= d@.len(),
            all_digits(d@),
            c == scaled_floor(d@.subrange(i as int, hi as int), kb as nat),
            c <= 2 * kb,
        decreases i - lo,
    {
        i = i - 1;
        assert(is_digit(d@[i as int]));
        let v = (d[i] as u32 - '0' as u32) as u128;
        proof {
            let s = d@.subrange(i as int, hi as int);
            let t = d@.subrange(i + 1, hi as int);
            let one = seq![d@[i as int]];
            assert(s =~= one + t);
            lemma_digits_concat(one, t);
            assert(one.drop_last() =~= Seq::<char>::empty());
            assert(one.last() == d@[i as int]);
            assert(digits_value(one) == digits_value(one.drop_last()) * 10 + digit_value(one.last()));
            assert(digits_value(one) == v);
            let p = pow10(t.len());
            lemma_pow10_positive(t.len());
            assert(pow10(s.len()) == 10 * p);
            let k = kb as int;
            let x = k * digits_value(s);
            assert(x == (k * v) * p + k * digits_value(t)) by (nonlinear_arith)
                requires
                    x == k * digits_value(s),
                    digits_value(s) == v * p + digits_value(t),
            ;
            lemma_hoist_over_denominator(k * digits_value(t), k * v, p);
            assert(k * digits_value(t) + (k * v) * p == x);
            assert(x >= 0) by (nonlinear_arith)
                requires
                    x == k * digits_value(s),
                    k >= 0,
            ;
            lemma_div_denominator(x, p as int, 10);
            assert(p * 10 == 10 * p);
            assert(k * v + c <= 11 * k) by (nonlinear_arith)
                requires
                    v <= 9,
                    c <= 2 * k,
            ;
        }
        c = ((kb as u128) * v + c) / 10;
    }
    c
}

/// The size in bytes of a device that takes the ratio `f` of `mem_kb`
/// kilobytes, if it fits in 64 bits.
pub fn disksize(f: &Fraction, mem_kb: u64) -> (r: Option<u64>)
    requires
        all_digits(f.digits@),
    ensures
        r == (if disksize_spec(f@, mem_kb as nat) <= u64::MAX {
            Some(disksize_spec(f@, mem_kb as nat) as u64)
        } else {
            None
        }),
{
    match size_in_mb(f, mem_kb) {
        Some(mb) => {
            assert(mb * 1048576 <= u64::MAX);
            Some(mb * 1048576)
        },
        None => None,
    }
}

/// `size_mb(f, mem_kb)`, where it is at most `SIZE_LIMIT_MB`.
fn size_in_mb(f: &Fraction, mem_kb: u64) -> (r: Option<u64>)
    requires
        all_digits(f.digits@),
    ensures
        match r {
            Some(v) => v == size_mb(f@, mem_kb as nat) && v <= SIZE_LIMIT_MB,
            None => size_mb(f@, mem_kb as nat) > SIZE_LIMIT_MB,
        },
{
    let ghost dv = digits_value(f.digits@);
    let ghost k = mem_kb as int;
    let len = f.digits.len();
    assert(f.digits@.subrange(0, len as int) =~= f.digits@);
    if f.negative {
        return Some(0);
    }
    if mem_kb == 0 {
        proof {
            assert(dv * pow10(f@.scale as nat) * 0 == 0) by (nonlinear_arith);
            assert(dv * 0 == 0);
            assert(0int / 1024 == 0);
            lemma_pow10_positive((-f@.scale) as nat);
            assert(0int / (pow10((-f@.scale) as nat) * 1024) as int == 0);
        }
        return Some(0);
    }
    if f.scale >= 0 {
        size_whole_scale(f, mem_kb)
    } else {
        size_decimal_scale(f, mem_kb)
    }
}

fn size_whole_scale(f: &Fraction, mem_kb: u64) -> (r: Option<u64>)
    requires
        all_digits(f.digits@),
        !f.negative,
        mem_kb >= 1,
        f.scale >= 0,
    ensures
        match r {
            Some(v) => v == size_mb(f@, mem_kb as nat) && v <= SIZE_LIMIT_MB,
            None => size_mb(f@, mem_kb as nat) > SIZE_LIMIT_MB,
        },
{
    let ghost dv = digits_value(f.digits@);
    let ghost k = mem_kb as int;
    let len = f.digits.len();
    assert(f.digits@.subrange(0, len as int) =~= f.digits@);
    let s = f.scale as u64;
    let a = match saturated_value(&f.digits, 0, len) {
        None => {
            proof {
                lemma_pow10_positive(s as nat);
                let x = dv * pow10(s as nat);
                assert(x * k >= SATURATION) by (nonlinear_arith)
                    requires
                        x == dv * pow10(s as nat),
                        dv >= SATURATION,
                        pow10(s as nat) >= 1,
                        k >= 1,
                ;
                lemma_div_is_ordered(SATURATION as int, x * k, 1024);
            }
            return None;
        },
        Some(a) => a,
    };
    let mut x: u64 = a;
    let mut j: u64 = 0;
    assert(pow10(0) == 1);
    while j < s && x > 0
        invariant
            j <= s,
            x == a * pow10(j as nat),
            x < SATURATION,
            a == dv,
            dv == digits_value(f.digits@),
            k == mem_kb as int,
            mem_kb >= 1,
            s == f.scale,
            !f.negative,
        decreases s - j,
    {
        assert(pow10((j + 1) as nat) == 10 * pow10(j as nat));
        assert(a * pow10((j + 1) as nat) == 10 * x) by (nonlinear_arith)
            requires
                pow10((j + 1) as nat) == 10 * pow10(j as nat),
                x == a * pow10(j as nat),
        ;
        x = x * 10;
        j = j + 1;
        if x >= SATURATION {
            proof {
                lemma_pow10_mono(j as nat, s as nat);
                let big = dv * pow10(s as nat);
                assert(big * k >= SATURATION) by (nonlinear_arith)
                    requires
                        big == a * pow10(s as nat),
                        x == a * pow10(j as nat),
                        pow10(s as nat) >= pow10(j as nat),
                        x >= SATURATION,
                        k >= 1,
                        a >= 0,
                ;
                lemma_div_is_ordered(SATURATION as int, big * k, 1024);
                assert(s as nat == f@.scale as nat);
                assert(!f@.negative);
                assert(f@.scale >= 0);
                assert(digits_value(f@.digits) == dv);
                assert(size_mb(f@, mem_kb as nat) == (dv * pow10(f@.scale as nat) * (mem_kb as nat) / 1024) as nat);
                assert(size_mb(f@, mem_kb as nat) == (big * k / 1024) as nat);
                assert(SATURATION as int / 1024 > SIZE_LIMIT_MB);
            }
            return None;
        }
    }
    proof {
        if x == 0 {
            lemma_pow10_positive(j as nat);
            assert(a == 0) by (nonlinear_arith)
                requires
                    x == a * pow10(j as nat),
                    pow10(j as nat) > 0,
                    x == 0,
            ;
            assert(dv * pow10(s as nat) * k == 0) by (nonlinear_arith)
                requires
                    dv == 0,
            ;
            assert((x as int) * k == 0) by (nonlinear_arith)
                requires
                    x == 0,
            ;
        } else {
            assert(j == s);
        }
        assert((x as int) * k == dv * pow10(s as nat) * k);
        assert(x * k < SATURATION * 18446744073709551616) by (nonlinear_arith)
            requires
                x < SATURATION,
                0 <= k < 18446744073709551616,
        ;
        assert(s as nat == f@.scale as nat);
        assert(size_mb(f@, mem_kb as nat) == ((x as int) * k / 1024) as nat);
    }
    let mb = (x as u128) * (mem_kb as u128) / 1024;
    assert(mb == (x as int) * k / 1024);
    if mb > SIZE_LIMIT_MB as u128 {
        return None;
    }
    Some(mb as u64)
}

#[verifier::rlimit(80)]
fn size_decimal_scale(f: &Fraction, mem_kb: u64) -> (r: Option<u64>)
    requires
        all_digits(f.digits@),
        !f.negative,
        mem_kb >= 1,
        f.scale < 0,
    ensures
        match r {
            Some(v) => v == size_mb(f@, mem_kb as nat) && v <= SIZE_LIMIT_MB,
            None => size_mb(f@, mem_kb as nat) > SIZE_LIMIT_MB,
        },
{
    let ghost dv = digits_value(f.digits@);
    let ghost k = mem_kb as int;
    let len = f.digits.len();
    assert(f.digits@.subrange(0, len as int) =~= f.digits@);
    let n: u64 = (-(f.scale as i128)) as u64;
    proof {
        lemma_pow10_positive(n as nat);
        assert(dv * k >= 0) by (nonlinear_arith)
            requires
                dv >= 0,
                k >= 0,
        ;
        lemma_div_denominator(dv * k, pow10(n as nat) as int, 1024);
    }
    let g: u128 = if n <= len as u64 {
        let split = len - n as usize;
        let b = carry_floor(&f.digits, split, len, mem_kb);
        let a = match saturated_value(&f.digits, 0, split) {
            None => {
                proof {
                    let av = digits_value(f.digits@.subrange(0, split as int));
                    let bs = f.digits@.subrange(split as int, len as int);
                    assert(f.digits@ =~= f.digits@.subrange(0, split as int) + bs);
                    lemma_digits_concat(f.digits@.subrange(0, split as int), bs);
                    let p = pow10(n as nat);
                    let bv = digits_value(bs);
                    lemma_hoist_over_denominator(k * bv, k * av, p);
                    assert(k * dv == k * bv + (k * av) * p) by (nonlinear_arith)
                        requires
                            dv == av * p + bv,
                    ;
                    assert(k * bv >= 0) by (nonlinear_arith)
                        requires
                            k >= 0,
                            bv >= 0,
                    ;
                    assert(k * av >= SATURATION) by (nonlinear_arith)
                        requires
                            k >= 1,
                            av >= SATURATION,
                    ;
                    assert((k * bv) / (p as int) >= 0);
                    lemma_div_is_ordered(SATURATION as int, k * dv / (p as int), 1024);
                }
                return None;
            },
            Some(a) => a,
        };
        proof {
            let av = digits_value(f.digits@.subrange(0, split as int));
            let bs = f.digits@.subrange(split as int, len as int);
            assert(f.digits@ =~= f.digits@.subrange(0, split as int) + bs);
            lemma_digits_concat(f.digits@.subrange(0, split as int), bs);
            let p = pow10(n as nat);
            let bv = digits_value(bs);
            assert(bs.len() == n);
            lemma_hoist_over_denominator(k * bv, k * av, p);
            assert(k * dv == k * bv + (k * av) * p) by (nonlinear_arith)
                requires
                    dv == av * p + bv,
            ;
            assert(a as int * k < SATURATION * 18446744073709551616) by (nonlinear_arith)
                requires
                    a < SATURATION,
                    0 <= k < 18446744073709551616,
            ;
        }
        (a as u128) * (mem_kb as u128) + b
    } else {
        let extra = n - len as u64;
        let g0 = carry_floor(&f.digits, 0, len, mem_kb);
        let mut g: u128 = g0;
        let mut j: u64 = 0;
        assert(pow10(0) == 1);
        while j < extra && g > 0
            invariant
                j <= extra,
                g as int == g0 as int / (pow10(j as nat) as int),
                g0 == scaled_floor(f.digits@, k as nat),
            decreases extra - j,
        {
            proof {
                lemma_pow10_positive(j as nat);
                lemma_div_denominator(g0 as int, pow10(j as nat) as int, 10);
                assert(pow10((j + 1) as nat) == 10 * pow10(j as nat));
            }
            g = g / 10;
            j = j + 1;
        }
        proof {
            lemma_pow10_positive(j as nat);
            lemma_pow10_positive((extra - j) as nat);
            lemma_pow10_positive(len as nat);
            lemma_div_denominator(g0 as int, pow10(j as nat) as int, pow10((extra - j) as nat) as int);
            lemma_pow10_add(j as nat, (extra - j) as nat);
            if g == 0 {
                assert(0int / (pow10((extra - j) as nat) as int) == 0);
            }
            lemma_div_denominator(k * dv, pow10(len as nat) as int, pow10(extra as nat) as int);
            lemma_pow10_add(len as nat, extra as nat);
            assert(len + extra == n);
        }
        g
    };
    let mb = g / 1024;
    if mb > SIZE_LIMIT_MB as u128 {
        return None;
    }
    Some(mb as u64)
}

} // verus!
