//! Decimal text for the wire protocol.
//!
//! Every number on the aggregator's sockets is plain ASCII decimal.  Unsigned
//! counters print as digit strings; fixed-point scalars print as
//! `[-]integer.ffffff` with exactly six fractional digits, one per power of
//! ten below [`crate::fixed::SCALE`].  Parsing accepts the same grammar with
//! any number of fractional digits, truncating beyond the sixth, so every
//! formatted value reads back exactly.

use vstd::prelude::*;

use crate::fixed::{FIX_LIMIT, SCALE};

verus! {

pub const DOT: u8 = 46;

pub const MINUS: u8 = 45;

/// ASCII digit?
pub open spec fn is_digit(b: u8) -> bool {
    48 <= b <= 57
}

/// Numeric value of an ASCII digit.
pub open spec fn digit_val(b: u8) -> int {
    b - 48
}

/// All bytes of `s` are ASCII digits.
pub open spec fn is_digits(s: Seq<u8>) -> bool {
    forall|i: int| 0 <= i < s.len() ==> is_digit(#[trigger] s[i])
}

/// Value of a digit string read most-significant first.
pub open spec fn dec_value(s: Seq<u8>) -> int
    decreases s.len(),
{
    if s.len() == 0 {
        0
    } else {
        dec_value(s.drop_last()) * 10 + digit_val(s.last())
    }
}

/// Canonical digit string of `n`: no leading zero except for zero itself.
pub open spec fn dec_digits(n: nat) -> Seq<u8>
    decreases n,
{
    if n < 10 {
        seq![(48 + n) as u8]
    } else {
        dec_digits(n / 10).push((48 + n % 10) as u8)
    }
}

pub proof fn lemma_dec_digits_ok(n: nat)
    ensures
        dec_digits(n).len() >= 1,
        is_digits(dec_digits(n)),
        dec_value(dec_digits(n)) == n,
    decreases n,
{
    if n < 10 {
        let d = dec_digits(n);
        assert(d =~= seq![(48 + n) as u8]);
        assert(d.drop_last() =~= Seq::<u8>::empty());
        assert(dec_value(d.drop_last()) == 0);
        assert(dec_value(d) == 0 * 10 + digit_val((48 + n) as u8));
    } else {
        lemma_dec_digits_ok(n / 10);
        assert(dec_digits(n).drop_last() =~= dec_digits(n / 10));
        assert(n / 10 * 10 + n % 10 == n) by {
            vstd::arithmetic::div_mod::lemma_fundamental_div_mod(n as int, 10);
        }
    }
}

/// `dec_value` never goes negative on digit strings.
pub proof fn lemma_dec_value_nonneg(s: Seq<u8>)
    requires
        is_digits(s),
    ensures
        dec_value(s) >= 0,
    decreases s.len(),
{
    if s.len() > 0 {
        lemma_dec_value_nonneg(s.drop_last());
    }
}

/// Reading one more digit multiplies the prefix value by ten and adds it.
pub proof fn lemma_dec_value_step(s: Seq<u8>, i: int)
    requires
        0 <= i < s.len(),
    ensures
        dec_value(s.take(i + 1)) == dec_value(s.take(i)) * 10 + digit_val(s[i]),
{
    assert(s.take(i + 1).drop_last() =~= s.take(i));
    assert(s.take(i + 1).last() == s[i]);
}

/// On digit strings the value of a prefix never exceeds the whole.
pub proof fn lemma_dec_value_prefix_le(s: Seq<u8>, i: int)
    requires
        is_digits(s),
        0 <= i <= s.len(),
    ensures
        dec_value(s.take(i)) <= dec_value(s),
    decreases s.len() - i,
{
    if i == s.len() {
        assert(s.take(i) =~= s);
    } else {
        lemma_dec_value_step(s, i);
        lemma_dec_value_nonneg(s.take(i));
        lemma_dec_value_prefix_le(s, i + 1);
    }
}

/// Formats `n` as its canonical digit string.
pub fn fmt_u64(n: u64) -> (r: Vec<u8>)
    ensures
        r@ == dec_digits(n as nat),
    decreases n,
{
    if n < 10 {
        let mut v: Vec<u8> = Vec::new();
        v.push(48 + n as u8);
        assert(v@ =~= dec_digits(n as nat));
        v
    } else {
        let mut v = fmt_u64(n / 10);
        v.push(48 + (n % 10) as u8);
        assert(v@ =~= dec_digits(n as nat));
        v
    }
}

/// Parses a digit string.  Returns the value exactly when the input is a
/// non-empty run of digits whose value fits in `u64`.
pub fn parse_u64(s: &[u8]) -> (r: Option<u64>)
    ensures
        match r {
            Some(n) => s@.len() > 0 && is_digits(s@) && n == dec_value(s@),
            None => !(s@.len() > 0 && is_digits(s@) && dec_value(s@) <= u64::MAX),
        },
{
    if s.len() == 0 {
        return None;
    }
    let mut acc: u64 = 0;
    let mut i: usize = 0;
    while i < s.len()
        invariant
            0 <= i <= s@.len(),
            is_digits(s@.take(i as int)),
            acc == dec_value(s@.take(i as int)),
        decreases s@.len() - i,
    {
        let b = s[i];
        if b < 48 || b > 57 {
            assert(!is_digits(s@));
            return None;
        }
        let d = (b - 48) as u64;
        proof {
            lemma_dec_value_step(s@, i as int);
            assert(is_digits(s@.take(i as int + 1)));
        }
        if acc > (u64::MAX - d) / 10 {
            proof {
                lemma_dec_value_nonneg(s@.take(i as int));
                if is_digits(s@) {
                    lemma_dec_value_prefix_le(s@, i as int + 1);
                }
            }
            return None;
        }
        acc = acc * 10 + d;
        i = i + 1;
    }
    proof {
        assert(s@.take(i as int) =~= s@);
    }
    Some(acc)
}

/// Powers of ten used for missing fractional digits.
pub open spec fn pow10(k: nat) -> int
    decreases k,
{
    if k == 0 {
        1
    } else {
        10 * pow10((k - 1) as nat)
    }
}

/// Exponentiation table for the fractional part; `k` at most six.
pub fn pow10_exec(k: usize) -> (r: i64)
    requires
        k <= 6,
    ensures
        r == pow10(k as nat),
        1 <= r <= 1_000_000,
{
    proof {
        reveal_with_fuel(pow10, 8);
    }
    if k == 0 {
        1
    } else if k == 1 {
        10
    } else if k == 2 {
        100
    } else if k == 3 {
        1_000
    } else if k == 4 {
        10_000
    } else if k == 5 {
        100_000
    } else {
        1_000_000
    }
}

/// The six zero-padded fractional digits of `f`, most significant first.
pub open spec fn pad6(f: int) -> Seq<u8> {
    seq![
        (48 + f / 100_000 % 10) as u8,
        (48 + f / 10_000 % 10) as u8,
        (48 + f / 1_000 % 10) as u8,
        (48 + f / 100 % 10) as u8,
        (48 + f / 10 % 10) as u8,
        (48 + f % 10) as u8,
    ]
}

/// Canonical text of a fixed-point scalar: optional minus sign, integer
/// digits, a dot, and exactly six fractional digits.
pub open spec fn fix_text(x: int) -> Seq<u8> {
    if x < 0 {
        seq![MINUS] + mag_text(-x)
    } else {
        mag_text(x)
    }
}

/// Text of a non-negative fixed-point magnitude.
pub open spec fn mag_text(m: int) -> Seq<u8> {
    dec_digits((m / (SCALE as int)) as nat) + seq![DOT] + pad6(m % (SCALE as int))
}

/// Formats a fixed-point scalar canonically.
pub fn fmt_fix(x: i64) -> (r: Vec<u8>)
    requires
        crate::fixed::fix_in_range(x as int),
    ensures
        r@ == fix_text(x as int),
{
    let mut v: Vec<u8> = Vec::new();
    let m: i64 = if x < 0 {
        v.push(MINUS);
        -x
    } else {
        x
    };
    let mut ip = fmt_u64((m / SCALE) as u64);
    v.append(&mut ip);
    v.push(DOT);
    let f = m % SCALE;
    v.push(48 + (f / 100_000 % 10) as u8);
    v.push(48 + (f / 10_000 % 10) as u8);
    v.push(48 + (f / 1_000 % 10) as u8);
    v.push(48 + (f / 100 % 10) as u8);
    v.push(48 + (f / 10 % 10) as u8);
    v.push(48 + (f % 10) as u8);
    assert(v@ =~= fix_text(x as int));
    v
}

/// Grammar of a fixed-point magnitude: integer digits, optionally followed
/// by a dot and at least one fractional digit.  Digits beyond the sixth are
/// truncated, matching a parse into a value of this precision.  `None` when
/// the text is malformed.
pub open spec fn spec_parse_mag(s: Seq<u8>) -> Option<int> {
    let parts = spec_split(s, DOT);
    if parts.len() == 1 {
        if s.len() > 0 && is_digits(s) {
            Some(dec_value(s) * (SCALE as int))
        } else {
            None
        }
    } else if parts.len() == 2 {
        let ip = parts[0];
        let fp = parts[1];
        let kept = if fp.len() <= 6 {
            fp.len() as int
        } else {
            6
        };
        if ip.len() > 0 && is_digits(ip) && fp.len() >= 1 && is_digits(fp) {
            Some(dec_value(ip) * (SCALE as int) + dec_value(fp.take(kept)) * pow10(
                (6 - kept) as nat,
            ))
        } else {
            None
        }
    } else {
        None
    }
}

/// Grammar of a signed fixed-point scalar.
pub open spec fn spec_parse_fix(s: Seq<u8>) -> Option<int> {
    if s.len() > 0 && s[0] == MINUS {
        match spec_parse_mag(s.drop_first()) {
            Some(v) => Some(-v),
            None => None,
        }
    } else {
        spec_parse_mag(s)
    }
}

/// Splitting at every occurrence of `sep`; always at least one part.
pub open spec fn spec_split(s: Seq<u8>, sep: u8) -> Seq<Seq<u8>>
    decreases s.len(),
{
    if s.len() == 0 {
        seq![Seq::<u8>::empty()]
    } else if s[0] == sep {
        seq![Seq::<u8>::empty()] + spec_split(s.drop_first(), sep)
    } else {
        let rest = spec_split(s.drop_first(), sep);
        seq![seq![s[0]] + rest[0]] + rest.drop_first()
    }
}

pub proof fn lemma_split_len(s: Seq<u8>, sep: u8)
    ensures
        spec_split(s, sep).len() >= 1,
    decreases s.len(),
{
    if s.len() > 0 {
        lemma_split_len(s.drop_first(), sep);
    }
}

/// Joining with `sep` between consecutive parts.
pub open spec fn spec_join(parts: Seq<Seq<u8>>, sep: u8) -> Seq<u8>
    decreases parts.len(),
{
    if parts.len() == 0 {
        Seq::empty()
    } else if parts.len() == 1 {
        parts[0]
    } else {
        parts[0] + seq![sep] + spec_join(parts.drop_first(), sep)
    }
}

/// Splitting what was joined restores the parts, as long as no part contains
/// the separator.
pub proof fn lemma_split_of_join(parts: Seq<Seq<u8>>, sep: u8)
    requires
        parts.len() >= 1,
        forall|i: int, j: int|
            0 <= i < parts.len() && 0 <= j < parts[i].len() ==> #[trigger] parts[i][j] != sep,
    ensures
        spec_split(spec_join(parts, sep), sep) == parts,
    decreases parts.len(), parts[0].len(),
{
    let s = spec_join(parts, sep);
    if parts.len() == 1 {
        lemma_split_nosep(parts[0], sep);
        assert(spec_split(s, sep) =~~= parts);
    } else {
        if parts[0].len() == 0 {
            assert(s.drop_first() =~= spec_join(parts.drop_first(), sep));
            lemma_split_of_join(parts.drop_first(), sep);
            assert(spec_split(s, sep) =~~= parts);
        } else {
            let tail = parts.update(0, parts[0].drop_first());
            assert(tail[0] =~= parts[0].drop_first());
            assert(spec_join(tail, sep) =~= s.drop_first()) by {
                assert(tail.drop_first() =~= parts.drop_first());
            }
            lemma_split_of_join(tail, sep);
            let rest = spec_split(s.drop_first(), sep);
            assert(rest == tail);
            assert(seq![s[0]] + rest[0] =~= parts[0]);
            assert(spec_split(s, sep) =~~= parts) by {
                assert(rest.drop_first() =~= parts.drop_first());
            }
        }
    }
}

/// Occurrences of `b` in `s`.
pub open spec fn count_byte(s: Seq<u8>, b: u8) -> int
    decreases s.len(),
{
    if s.len() == 0 {
        0
    } else {
        (if s[0] == b {
            1int
        } else {
            0int
        }) + count_byte(s.drop_first(), b)
    }
}

pub proof fn lemma_count_nonneg(s: Seq<u8>, b: u8)
    ensures
        count_byte(s, b) >= 0,
    decreases s.len(),
{
    if s.len() > 0 {
        lemma_count_nonneg(s.drop_first(), b);
    }
}

/// Extending a string by one byte raises the count by at most one.
pub proof fn lemma_count_push(s: Seq<u8>, x: u8, b: u8)
    ensures
        count_byte(s.push(x), b) == count_byte(s, b) + if x == b {
            1int
        } else {
            0int
        },
    decreases s.len(),
{
    if s.len() == 0 {
        assert(s.push(x)[0] == x);
        assert(s.push(x).drop_first() =~= Seq::<u8>::empty());
        assert(count_byte(s.push(x), b) == (if x == b {
            1int
        } else {
            0int
        }) + count_byte(s.push(x).drop_first(), b));
    } else {
        assert(s.push(x)[0] == s[0]);
        assert(s.push(x).drop_first() =~= s.drop_first().push(x));
        lemma_count_push(s.drop_first(), x, b);
        assert(count_byte(s.push(x), b) == (if s[0] == b {
            1int
        } else {
            0int
        }) + count_byte(s.push(x).drop_first(), b));
    }
}

/// A split has one part more than the string has separators.
pub proof fn lemma_split_count(s: Seq<u8>, sep: u8)
    ensures
        spec_split(s, sep).len() == count_byte(s, sep) + 1,
    decreases s.len(),
{
    if s.len() > 0 {
        lemma_split_count(s.drop_first(), sep);
    }
}

/// A separator-free string splits into itself alone.
pub proof fn lemma_split_nosep(s: Seq<u8>, sep: u8)
    requires
        forall|j: int| 0 <= j < s.len() ==> #[trigger] s[j] != sep,
    ensures
        spec_split(s, sep) == seq![s],
    decreases s.len(),
{
    if s.len() == 0 {
        assert(spec_split(s, sep) =~~= seq![s]);
    } else {
        lemma_split_nosep(s.drop_first(), sep);
        assert(spec_split(s, sep)[0] =~= s);
        assert(spec_split(s, sep) =~~= seq![s]);
    }
}

/// A digit string is worth less than ten to its length.
pub proof fn lemma_dec_value_bound(s: Seq<u8>)
    requires
        is_digits(s),
    ensures
        dec_value(s) < pow10(s.len()),
    decreases s.len(),
{
    if s.len() == 0 {
    } else {
        lemma_dec_value_bound(s.drop_last());
        assert(pow10(s.len()) == 10 * pow10((s.len() - 1) as nat));
    }
}

/// Whether every byte of the slice is an ASCII digit.
fn digits_only(s: &[u8]) -> (r: bool)
    ensures
        r == is_digits(s@),
{
    let mut i: usize = 0;
    while i < s.len()
        invariant
            i <= s@.len(),
            forall|j: int| 0 <= j < i ==> is_digit(#[trigger] s@[j]),
        decreases s@.len() - i,
    {
        let b = s[i];
        if b < 48 || b > 57 {
            return false;
        }
        i = i + 1;
    }
    true
}

/// Parses the digit run of a fixed-point magnitude starting at `from`.
fn parse_mag_range(s: &[u8], from: usize) -> (r: Option<i64>)
    requires
        from <= s@.len(),
    ensures
        match spec_parse_mag(s@.skip(from as int)) {
            Some(v) => {
                if crate::fixed::fix_in_range(v) {
                    r == Some(v as i64)
                } else {
                    r == None::<i64>
                }
            },
            None => r == None::<i64>,
        },
{
    let ghost sub = s@.skip(from as int);
    let mut dots: usize = 0;
    let mut dot_at: usize = 0;
    let mut i: usize = from;
    while i < s.len()
        invariant
            from <= i <= s@.len(),
            sub == s@.skip(from as int),
            dots == count_byte(sub.take(i - from), DOT),
            dots > 0 ==> from <= dot_at < i && s@[dot_at as int] == DOT && count_byte(
                sub.take(dot_at - from),
                DOT,
            ) == 0,
            dots <= 1,
        decreases s@.len() - i,
    {
        proof {
            assert(sub.take(i - from).push(s@[i as int]) =~= sub.take(i + 1 - from));
            lemma_count_push(sub.take(i - from), s@[i as int], DOT);
        }
        if s[i] == DOT {
            if dots == 1 {
                proof {
                    lemma_split_count(sub, DOT);
                    assert(count_byte(sub, DOT) >= 2) by {
                        lemma_count_take_le(sub, i + 1 - from, DOT);
                    }
                }
                return None;
            }
            dot_at = i;
            dots = 1;
        }
        i = i + 1;
    }
    proof {
        assert(sub.take(s@.len() - from) =~= sub);
    }
    if dots == 0 {
        proof {
            lemma_split_count(sub, DOT);
        }
        proof {
            assert(s@.subrange(from as int, s@.len() as int) =~= sub);
        }
        let ip = parse_u64(vstd::slice::slice_subrange(s, from, s.len()));
        match ip {
            None => None,
            Some(n) => {
                if n > 1_000_000 {
                    None
                } else {
                    Some((n as i64) * SCALE)
                }
            },
        }
    } else {
        proof {
            lemma_split_count(sub, DOT);
            lemma_count_nonneg(sub.skip(dot_at + 1 - from), DOT);
            lemma_count_split_at(sub, dot_at - from, DOT);
        }
        let ghost ip_s = sub.take(dot_at - from);
        let ghost fp_s = sub.skip(dot_at + 1 - from);
        proof {
            lemma_split_two_parts(sub, dot_at - from, DOT);
            if ip_s.len() > 0 && is_digits(ip_s) && 1 <= fp_s.len() <= 6 && is_digits(fp_s) {
                lemma_dec_value_nonneg(ip_s);
                lemma_dec_value_nonneg(fp_s);
                lemma_pow10_pos((6 - fp_s.len()) as nat);
                vstd::arithmetic::mul::lemma_mul_nonnegative(
                    dec_value(fp_s),
                    pow10((6 - fp_s.len()) as nat),
                );
            }
        }
        let ip = parse_u64(vstd::slice::slice_subrange(s, from, dot_at));
        let fp_len = s.len() - (dot_at + 1);
        let kept = if fp_len <= 6 {
            fp_len
        } else {
            6
        };
        let fp = parse_u64(vstd::slice::slice_subrange(s, dot_at + 1, dot_at + 1 + kept));
        let fp_rest_ok = digits_only(vstd::slice::slice_subrange(s, dot_at + 1, s.len()));
        proof {
            assert(s@.subrange(from as int, dot_at as int) =~= ip_s);
            assert(s@.subrange(dot_at + 1, s@.len() as int) =~= fp_s);
            assert(s@.subrange(dot_at + 1, dot_at + 1 + kept as int) =~= fp_s.take(kept as int));
        }
        match (ip, fp) {
            (Some(a), Some(b)) => {
                if !fp_rest_ok {
                    proof {
                        assert(!is_digits(fp_s));
                    }
                    None
                } else if a > 1_000_000 {
                    None
                } else {
                    proof {
                        let kk = fp_s.take(kept as int).len() as nat;
                        let cap = pow10(kk);
                        let q = pow10((6 - kk) as nat);
                        lemma_dec_value_bound(fp_s.take(kept as int));
                        lemma_pow10_mul_bound(kk);
                        lemma_pow10_pos((6 - kk) as nat);
                        vstd::arithmetic::mul::lemma_mul_inequality(
                            dec_value(fp_s.take(kept as int)),
                            cap - 1,
                            q,
                        );
                        vstd::arithmetic::mul::lemma_mul_is_commutative(cap - 1, q);
                        vstd::arithmetic::mul::lemma_mul_is_distributive_sub(q, cap, 1);
                        vstd::arithmetic::mul::lemma_mul_is_commutative(q, cap);
                        reveal_with_fuel(pow10, 8);
                        assert(dec_value(fp_s.take(kept as int)) * q <= pow10(6) - q);
                    }
                    let frac = (b as i64) * pow10_exec(6 - kept);
                    let v = (a as i64) * SCALE + frac;
                    if v > FIX_LIMIT {
                        None
                    } else {
                        Some(v)
                    }
                }
            },
            _ => {
                proof {
                    if fp_s.len() >= 1 && is_digits(fp_s) {
                        assert(is_digits(fp_s.take(kept as int)));
                        lemma_dec_value_bound(fp_s.take(kept as int));
                        lemma_pow10_le(fp_s.take(kept as int).len() as nat, 6);
                        reveal_with_fuel(pow10, 8);
                    }
                }
                None
            },
        }
    }
}

/// `pow10` is monotone.
pub proof fn lemma_pow10_le(a: nat, b: nat)
    requires
        a <= b,
    ensures
        pow10(a) <= pow10(b),
        pow10(a) >= 1,
    decreases b,
{
    if a == b {
        lemma_pow10_pos(a);
    } else {
        lemma_pow10_le(a, (b - 1) as nat);
    }
}

pub proof fn lemma_pow10_pos(a: nat)
    ensures
        pow10(a) >= 1,
    decreases a,
{
    if a > 0 {
        lemma_pow10_pos((a - 1) as nat);
    }
}

/// The fractional padding multiplies out to exactly one whole unit.
proof fn lemma_pow10_mul_bound(k: nat)
    requires
        1 <= k <= 6,
    ensures
        pow10(k) * pow10((6 - k) as nat) == pow10(6),
    decreases k,
{
    if k == 1 {
        reveal_with_fuel(pow10, 8);
        assert(pow10(1) == 10);
        assert(pow10(5) == 100_000);
        assert(pow10(6) == 1_000_000);
    } else {
        lemma_pow10_mul_bound((k - 1) as nat);
        let p = pow10((k - 1) as nat);
        let q = pow10((6 - k) as nat);
        assert(pow10(k) == 10 * p);
        assert(pow10((6 - (k - 1)) as nat) == 10 * q);
        assert(p * (10 * q) == pow10(6));
        vstd::arithmetic::mul::lemma_mul_is_associative(p, 10, q);
        vstd::arithmetic::mul::lemma_mul_is_commutative(p, 10);
        vstd::arithmetic::mul::lemma_mul_is_associative(10, p, q);
    }
}

/// Counting distributes over a prefix.
pub proof fn lemma_count_take_le(s: Seq<u8>, i: int, b: u8)
    requires
        0 <= i <= s.len(),
    ensures
        count_byte(s, b) >= count_byte(s.take(i), b),
    decreases s.len(),
{
    if i > 0 && s.len() > 0 {
        assert(s.take(i).drop_first() =~= s.drop_first().take(i - 1));
        lemma_count_take_le(s.drop_first(), i - 1, b);
    } else {
        lemma_count_nonneg(s, b);
        if s.len() == 0 || i == 0 {
            assert(s.take(i) =~= Seq::<u8>::empty());
        }
    }
}

/// Counting splits around an occurrence.
pub proof fn lemma_count_split_at(s: Seq<u8>, d: int, b: u8)
    requires
        0 <= d < s.len(),
    ensures
        count_byte(s, b) == count_byte(s.take(d), b) + (if s[d] == b {
            1int
        } else {
            0int
        }) + count_byte(s.skip(d + 1), b),
    decreases d,
{
    if d == 0 {
        assert(s.take(0) =~= Seq::<u8>::empty());
        assert(s.skip(1) =~= s.drop_first());
    } else {
        assert(s.take(d).drop_first() =~= s.drop_first().take(d - 1));
        assert(s.skip(d + 1) =~= s.drop_first().skip(d));
        lemma_count_split_at(s.drop_first(), d - 1, b);
    }
}

/// A string with one separator splits into the two surrounding parts.
pub proof fn lemma_split_two_parts(s: Seq<u8>, d: int, sep: u8)
    requires
        0 <= d < s.len(),
        s[d] == sep,
        count_byte(s.take(d), sep) == 0,
        count_byte(s, sep) == 1,
    ensures
        spec_split(s, sep) == seq![s.take(d), s.skip(d + 1)],
{
    let parts = seq![s.take(d), s.skip(d + 1)];
    assert(parts.drop_first() =~= seq![s.skip(d + 1)]);
    assert(spec_join(parts.drop_first(), sep) == s.skip(d + 1));
    assert(spec_join(parts, sep) =~= s);
    lemma_count_split_at(s, d, sep);
    let pre = s.take(d);
    let post = s.skip(d + 1);
    assert forall|j: int| 0 <= j < pre.len() implies #[trigger] pre[j] != sep by {
        lemma_count_no_byte(pre, sep, j);
    }
    assert forall|j: int| 0 <= j < post.len() implies #[trigger] post[j] != sep by {
        lemma_count_no_byte(post, sep, j);
    }
    lemma_split_of_join(parts, sep);
}

/// A byte counted zero times never occurs.
pub proof fn lemma_count_no_byte(s: Seq<u8>, b: u8, j: int)
    requires
        count_byte(s, b) == 0,
        0 <= j < s.len(),
    ensures
        s[j] != b,
    decreases j,
{
    lemma_count_nonneg(s.drop_first(), b);
    if j > 0 {
        lemma_count_no_byte(s.drop_first(), b, j - 1);
    }
}

/// Parses a signed fixed-point scalar.  The result is exactly the value the
/// grammar assigns, whenever that value is in range; malformed or oversized
/// text yields `None`.
pub fn parse_fix(s: &[u8]) -> (r: Option<i64>)
    ensures
        match spec_parse_fix(s@) {
            Some(v) => {
                if crate::fixed::fix_in_range(v) {
                    r == Some(v as i64)
                } else {
                    r == None::<i64>
                }
            },
            None => r == None::<i64>,
        },
{
    if s.len() > 0 && s[0] == MINUS {
        proof {
            assert(s@.skip(1) =~= s@.drop_first());
        }
        match parse_mag_range(s, 1) {
            Some(v) => Some(-v),
            None => None,
        }
    } else {
        proof {
            assert(s@.skip(0) =~= s@);
        }
        parse_mag_range(s, 0)
    }
}

/// Every byte of a formatted scalar is a digit, the dot, or the minus sign;
/// in particular it never collides with the protocol separators.
pub proof fn lemma_fix_text_bytes(x: int, i: int)
    requires
        0 <= i < fix_text(x).len(),
    ensures
        fix_text(x)[i] == MINUS || fix_text(x)[i] == DOT || is_digit(fix_text(x)[i]),
{
    if x < 0 {
        if i > 0 {
            lemma_mag_text_bytes(-x, i - 1);
        }
    } else {
        lemma_mag_text_bytes(x, i);
    }
}

proof fn lemma_mag_text_bytes(m: int, i: int)
    requires
        0 <= i < mag_text(m).len(),
    ensures
        mag_text(m)[i] == DOT || is_digit(mag_text(m)[i]),
{
    let q = (m / (SCALE as int)) as nat;
    lemma_dec_digits_ok(q);
    if i < dec_digits(q).len() {
        assert(mag_text(m)[i] == dec_digits(q)[i]);
    }
}

/// Reading back a formatted scalar restores it exactly.
pub proof fn lemma_parse_of_fmt_fix(x: int)
    requires
        crate::fixed::fix_in_range(x),
    ensures
        spec_parse_fix(fix_text(x)) == Some(x),
{
    if x < 0 {
        lemma_parse_of_fmt_mag(-x);
        let s = fix_text(x);
        assert(s[0] == MINUS);
        assert(s.drop_first() =~= mag_text(-x));
    } else {
        lemma_parse_of_fmt_mag(x);
        let s = fix_text(x);
        lemma_dec_digits_ok(((x / (SCALE as int)) as nat));
        assert(is_digit(s[0]));
    }
}

proof fn lemma_parse_of_fmt_mag(m: int)
    requires
        0 <= m <= FIX_LIMIT,
    ensures
        spec_parse_mag(mag_text(m)) == Some(m),
{
    let q = (m / (SCALE as int)) as nat;
    let f = m % (SCALE as int);
    let dd = dec_digits(q);
    let fp = pad6(f);
    lemma_dec_digits_ok(q);
    let s = mag_text(m);
    assert(seq![dd, fp].drop_first() =~= seq![fp]);
    assert(spec_join(seq![dd, fp].drop_first(), DOT) == fp);
    assert(spec_join(seq![dd, fp], DOT) =~= s);
    assert forall|j: int| 0 <= j < dd.len() implies dd[j] != DOT by {
        assert(is_digit(dd[j]));
    }
    assert(is_digits(fp));
    assert forall|j: int| 0 <= j < fp.len() implies fp[j] != DOT by {
        assert(is_digit(fp[j]));
    }
    lemma_split_of_join(seq![dd, fp], DOT);
    lemma_pad6_value(f);
    assert(fp.take(6) =~= fp);
    assert(spec_parse_mag(s) == Some(dec_value(dd) * (SCALE as int) + dec_value(fp) * pow10(0)));
    assert(dec_value(dd) * (SCALE as int) + f * 1 == m) by {
        vstd::arithmetic::div_mod::lemma_fundamental_div_mod(m, SCALE as int);
    }
}

/// The six padded digits read back as the fractional value.
proof fn lemma_pad6_value(f: int)
    requires
        0 <= f < SCALE,
    ensures
        is_digits(pad6(f)),
        dec_value(pad6(f)) == f,
{
    let p = pad6(f);
    assert(p.drop_last() =~= seq![
        (48 + f / 100_000 % 10) as u8,
        (48 + f / 10_000 % 10) as u8,
        (48 + f / 1_000 % 10) as u8,
        (48 + f / 100 % 10) as u8,
        (48 + f / 10 % 10) as u8,
    ]);
    let p5 = p.drop_last();
    assert(p5.drop_last() =~= seq![
        (48 + f / 100_000 % 10) as u8,
        (48 + f / 10_000 % 10) as u8,
        (48 + f / 1_000 % 10) as u8,
        (48 + f / 100 % 10) as u8,
    ]);
    let p4 = p5.drop_last();
    assert(p4.drop_last() =~= seq![
        (48 + f / 100_000 % 10) as u8,
        (48 + f / 10_000 % 10) as u8,
        (48 + f / 1_000 % 10) as u8,
    ]);
    let p3 = p4.drop_last();
    assert(p3.drop_last() =~= seq![(48 + f / 100_000 % 10) as u8, (48 + f / 10_000 % 10) as u8]);
    let p2 = p3.drop_last();
    assert(p2.drop_last() =~= seq![(48 + f / 100_000 % 10) as u8]);
    let p1 = p2.drop_last();
    assert(p1.drop_last() =~= Seq::<u8>::empty());
    assert(0 <= f / 100_000 % 10 <= 9);
    assert(0 <= f / 10_000 % 10 <= 9);
    assert(0 <= f / 1_000 % 10 <= 9);
    assert(0 <= f / 100 % 10 <= 9);
    assert(0 <= f / 10 % 10 <= 9);
    assert(0 <= f % 10 <= 9);
    assert(p1.last() == (48 + f / 100_000 % 10) as u8);
    assert(dec_value(p1.drop_last()) == 0);
    assert(dec_value(p1) == f / 100_000 % 10);
    assert(dec_value(p2) == dec_value(p1) * 10 + f / 10_000 % 10);
    assert(dec_value(p3) == dec_value(p2) * 10 + f / 1_000 % 10);
    assert(dec_value(p4) == dec_value(p3) * 10 + f / 100 % 10);
    assert(dec_value(p5) == dec_value(p4) * 10 + f / 10 % 10);
    assert(dec_value(p) == dec_value(p5) * 10 + f % 10);
    lemma_digit_expansion(f);
}

/// Base-ten expansion of a value below one million.
proof fn lemma_digit_expansion(f: int)
    requires
        0 <= f < 1_000_000,
    ensures
        ((((f / 100_000 % 10) * 10 + f / 10_000 % 10) * 10 + f / 1_000 % 10) * 10 + f / 100 % 10)
            * 10 * 10 + (f / 10 % 10) * 10 + f % 10 == f,
{
    let f5 = f / 10;
    let f4 = f / 100;
    let f3 = f / 1_000;
    let f2 = f / 10_000;
    let f1 = f / 100_000;
    vstd::arithmetic::div_mod::lemma_div_denominator(f, 10, 10);
    vstd::arithmetic::div_mod::lemma_div_denominator(f, 100, 10);
    vstd::arithmetic::div_mod::lemma_div_denominator(f, 1_000, 10);
    vstd::arithmetic::div_mod::lemma_div_denominator(f, 10_000, 10);
    vstd::arithmetic::div_mod::lemma_fundamental_div_mod(f, 10);
    vstd::arithmetic::div_mod::lemma_fundamental_div_mod(f5, 10);
    vstd::arithmetic::div_mod::lemma_fundamental_div_mod(f4, 10);
    vstd::arithmetic::div_mod::lemma_fundamental_div_mod(f3, 10);
    vstd::arithmetic::div_mod::lemma_fundamental_div_mod(f2, 10);
    assert(f1 < 10);
    vstd::arithmetic::div_mod::lemma_small_mod(f1 as nat, 10);
    assert(f1 * 10 + f2 % 10 == f2);
    assert(f2 * 10 + f3 % 10 == f3);
    assert(f3 * 10 + f4 % 10 == f4);
    assert(f4 * 10 + f5 % 10 == f5);
    assert(f5 * 10 + f % 10 == f);
}

/// Splits a byte string at every separator.
pub fn split_bytes(s: &[u8], sep: u8) -> (r: Vec<Vec<u8>>)
    ensures
        r@.map_values(|v: Vec<u8>| v@) == spec_split(s@, sep),
        r@.len() >= 1,
{
    let mut done: Vec<Vec<u8>> = Vec::new();
    let mut cur: Vec<u8> = Vec::new();
    let mut i: usize = 0;
    proof {
        lemma_split_len(s@, sep);
        assert(s@.skip(0) =~= s@);
        assert(done@.map_values(|v: Vec<u8>| v@) =~= Seq::<Seq<u8>>::empty());
        assert(cur@ + spec_split(s@, sep)[0] =~= spec_split(s@, sep)[0]);
        assert(spec_split(s@, sep) =~~= Seq::<Seq<u8>>::empty() + seq![
            spec_split(s@, sep)[0],
        ] + spec_split(s@, sep).drop_first());
    }
    while i < s.len()
        invariant
            0 <= i <= s@.len(),
            spec_split(s@, sep) =~~= done@.map_values(|v: Vec<u8>| v@) + seq![
                cur@ + spec_split(s@.skip(i as int), sep)[0],
            ] + spec_split(s@.skip(i as int), sep).drop_first(),
            spec_split(s@.skip(i as int), sep).len() >= 1,
        decreases s@.len() - i,
    {
        let ghost rest = s@.skip(i as int);
        proof {
            assert(rest[0] == s@[i as int]);
            assert(rest.drop_first() =~= s@.skip(i as int + 1));
            lemma_split_len(s@.skip(i as int + 1), sep);
        }
        if s[i] == sep {
            let full = cur;
            cur = Vec::new();
            done.push(full);
            proof {
                assert(done@.map_values(|v: Vec<u8>| v@) =~= done@.drop_last().map_values(
                    |v: Vec<u8>| v@,
                ).push(full@));
                assert(full@ + spec_split(rest, sep)[0] =~= full@);
            }
        } else {
            let b = s[i];
            cur.push(b);
            proof {
                let rest2 = spec_split(s@.skip(i as int + 1), sep);
                assert(spec_split(rest, sep)[0] =~= seq![b] + rest2[0]);
                assert(spec_split(rest, sep).drop_first() =~= rest2.drop_first());
                assert(cur@ + rest2[0] =~= cur@.drop_last() + (seq![b] + rest2[0]));
            }
        }
        i = i + 1;
    }
    proof {
        assert(s@.skip(i as int) =~= Seq::<u8>::empty());
        assert(spec_split(s@.skip(i as int), sep) =~= seq![Seq::<u8>::empty()]);
        assert(cur@ + Seq::<u8>::empty() =~= cur@);
    }
    let last = cur;
    done.push(last);
    proof {
        assert(done@.map_values(|v: Vec<u8>| v@) =~= done@.drop_last().map_values(
            |v: Vec<u8>| v@,
        ).push(last@));
        assert(spec_split(s@, sep) =~~= done@.map_values(|v: Vec<u8>| v@));
    }
    done
}

/// Joins parts with a separator byte between consecutive parts.
pub fn join_bytes(parts: &Vec<Vec<u8>>, sep: u8) -> (r: Vec<u8>)
    ensures
        r@ == spec_join(parts@.map_values(|v: Vec<u8>| v@), sep),
{
    let mut out: Vec<u8> = Vec::new();
    let mut i: usize = 0;
    while i < parts.len()
        invariant
            0 <= i <= parts@.len(),
            out@ == spec_join(parts@.map_values(|v: Vec<u8>| v@).take(i as int), sep),
        decreases parts@.len() - i,
    {
        if i > 0 {
            out.push(sep);
        }
        let mut piece = Vec::new();
        piece.extend_from_slice(parts[i].as_slice());
        out.append(&mut piece);
        proof {
            let m = parts@.map_values(|v: Vec<u8>| v@);
            assert(m.take(i as int + 1) =~= m.take(i as int).push(parts@[i as int]@));
            lemma_join_push(m.take(i as int), parts@[i as int]@, sep);
        }
        i = i + 1;
    }
    proof {
        assert(parts@.map_values(|v: Vec<u8>| v@).take(parts@.len() as int)
            =~= parts@.map_values(|v: Vec<u8>| v@));
    }
    out
}

/// Appending one part extends the join by a separator and the part.
pub proof fn lemma_join_push(parts: Seq<Seq<u8>>, p: Seq<u8>, sep: u8)
    ensures
        spec_join(parts.push(p), sep) == if parts.len() == 0 {
            p
        } else {
            spec_join(parts, sep) + seq![sep] + p
        },
    decreases parts.len(),
{
    if parts.len() == 0 {
        assert(spec_join(parts.push(p), sep) =~= p);
    } else if parts.len() == 1 {
        assert(parts.push(p)[0] == parts[0]);
        assert(parts.push(p).drop_first() =~= seq![p]);
        assert(spec_join(seq![p], sep) == p);
        assert(spec_join(parts.push(p), sep) =~= parts[0] + seq![sep] + p);
    } else {
        assert(parts.push(p)[0] == parts[0]);
        assert(parts.push(p).drop_first() =~= parts.drop_first().push(p));
        lemma_join_push(parts.drop_first(), p, sep);
        assert(spec_join(parts.push(p), sep) =~= spec_join(parts, sep) + seq![sep] + p);
    }
}

/// Signed integer text: an optional minus sign before the digits.
pub open spec fn int_text(x: int) -> Seq<u8> {
    if x < 0 {
        seq![MINUS] + dec_digits((-x) as nat)
    } else {
        dec_digits(x as nat)
    }
}

/// Formats a signed integer.
pub fn fmt_i64(x: i64) -> (r: Vec<u8>)
    requires
        x > i64::MIN,
    ensures
        r@ == int_text(x as int),
{
    if x < 0 {
        let mut v: Vec<u8> = Vec::new();
        v.push(MINUS);
        let mut d = fmt_u64((-x) as u64);
        v.append(&mut d);
        assert(v@ =~= int_text(x as int));
        v
    } else {
        let v = fmt_u64(x as u64);
        v
    }
}

} // verus!
