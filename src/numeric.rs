//! Fixed-width decimal text: digit strings, padded integer fields and
//! signed fixed-point fields, with their parsers.
use vstd::prelude::*;

verus! {

pub open spec fn pow10(n: nat) -> nat
    decreases n,
{
    if n == 0 {
        1
    } else {
        10 * pow10((n - 1) as nat)
    }
}

pub open spec fn is_digit(c: u8) -> bool {
    48 <= c <= 57
}

pub open spec fn digit_char(d: nat) -> u8 {
    (48 + d % 10) as u8
}

pub open spec fn all_digits(s: Seq<u8>) -> bool {
    forall|i: int| 0 <= i < s.len() ==> is_digit(#[trigger] s[i])
}

/// Value of a string of decimal digits.
pub open spec fn digits_value(s: Seq<u8>) -> nat
    decreases s.len(),
{
    if s.len() == 0 {
        0
    } else {
        digits_value(s.drop_last()) * 10 + (s.last() - 48) as nat
    }
}

/// Decimal text of `n` without leading zeros.
pub open spec fn digits(n: nat) -> Seq<u8>
    decreases n,
{
    if n < 10 {
        seq![digit_char(n)]
    } else {
        digits(n / 10).push(digit_char(n % 10))
    }
}

/// The last `w` decimal digits of `n`, zero padded.
pub open spec fn zero_padded(n: nat, w: nat) -> Seq<u8>
    decreases w,
{
    if w == 0 {
        seq![]
    } else {
        zero_padded(n / 10, (w - 1) as nat).push(digit_char(n % 10))
    }
}

pub open spec fn spaces(k: nat) -> Seq<u8> {
    Seq::new(k, |i: int| 32u8)
}

/// Right-aligned in a field of `w` characters, padded with spaces on the left.
pub open spec fn right_aligned(s: Seq<u8>, w: nat) -> Seq<u8> {
    if s.len() >= w {
        s
    } else {
        spaces((w - s.len()) as nat) + s
    }
}

/// Left-aligned in a field of `w` characters, padded with spaces on the right.
pub open spec fn left_aligned(s: Seq<u8>, w: nat) -> Seq<u8> {
    if s.len() >= w {
        s
    } else {
        s + spaces((w - s.len()) as nat)
    }
}

/// Drops leading spaces.
pub open spec fn trim_start(s: Seq<u8>) -> Seq<u8>
    decreases s.len(),
{
    if s.len() > 0 && s[0] == 32 {
        trim_start(s.drop_first())
    } else {
        s
    }
}

/// Drops trailing spaces.
pub open spec fn trim_end(s: Seq<u8>) -> Seq<u8>
    decreases s.len(),
{
    if s.len() > 0 && s.last() == 32 {
        trim_end(s.drop_last())
    } else {
        s
    }
}

pub open spec fn trim(s: Seq<u8>) -> Seq<u8> {
    trim_end(trim_start(s))
}

/// A text that neither starts nor ends with a space.
pub open spec fn is_token(s: Seq<u8>) -> bool {
    s.len() > 0 && s[0] != 32 && s.last() != 32
}

/// An unsigned integer field: digits, surrounded by spaces.
pub open spec fn parse_uint(s: Seq<u8>) -> Option<nat> {
    let t = trim(s);
    if t.len() > 0 && all_digits(t) {
        Some(digits_value(t))
    } else {
        None
    }
}

/// Unsigned fixed-point text with exactly `k` fractional digits, as a count of `10^-k` units.
pub open spec fn parse_unsigned_fixed(t: Seq<u8>, k: nat) -> Option<nat> {
    let n = t.len();
    if n >= k + 2 && t[n - k - 1] == 46 && all_digits(t.subrange(0, n - k - 1)) && all_digits(
        t.subrange(n - k, n as int),
    ) {
        Some(
            digits_value(t.subrange(0, n - k - 1)) * pow10(k) + digits_value(
                t.subrange(n - k, n as int),
            ),
        )
    } else {
        None
    }
}

/// Signed fixed-point field with `k` fractional digits, surrounded by spaces.
pub open spec fn parse_fixed(s: Seq<u8>, k: nat) -> Option<int> {
    let t = trim(s);
    if t.len() > 0 && t[0] == 45 {
        match parse_unsigned_fixed(t.drop_first(), k) {
            Some(v) => Some(-v),
            None => None,
        }
    } else {
        match parse_unsigned_fixed(t, k) {
            Some(v) => Some(v as int),
            None => None,
        }
    }
}

/// Fixed-point text of `v` units of `10^-k`: sign, integer part, point, `k` digits.
pub open spec fn fixed_text(v: int, k: nat) -> Seq<u8> {
    let a = if v < 0 {
        -v
    } else {
        v
    };
    let body = digits((a / pow10(k) as int) as nat) + seq![46u8] + zero_padded(
        (a % pow10(k) as int) as nat,
        k,
    );
    if v < 0 {
        seq![45u8] + body
    } else {
        body
    }
}

/// Largest magnitude (exclusive) of a value written in a 14-character coordinate field.
pub const COORD_LIMIT: i64 = 1_000_000_000_000;

/// A 14-character coordinate field: six fractional digits, right aligned.
pub open spec fn coord_field(v: int) -> Seq<u8> {
    right_aligned(fixed_text(v, 6), 14)
}

pub open spec fn valid_coord(v: int) -> bool {
    -COORD_LIMIT < v < COORD_LIMIT
}

// ---------------------------------------------------------------- lemmas
pub proof fn lemma_pow10_values()
    ensures
        pow10(6) == 1_000_000,
        pow10(8) == 100_000_000,
        pow10(13) == 10_000_000_000_000,
        pow10(16) == 10_000_000_000_000_000,
        pow10(17) == 100_000_000_000_000_000,
        pow10(18) == 1_000_000_000_000_000_000,
{
    reveal_with_fuel(pow10, 19);
}

pub proof fn lemma_pow10_pos(n: nat)
    ensures
        pow10(n) >= 1,
    decreases n,
{
    if n > 0 {
        lemma_pow10_pos((n - 1) as nat);
    }
}

pub proof fn lemma_digits_value_bound(s: Seq<u8>)
    requires
        all_digits(s),
    ensures
        digits_value(s) < pow10(s.len()),
    decreases s.len(),
{
    if s.len() > 0 {
        let t = s.drop_last();
        assert(all_digits(t)) by {
            assert forall|i: int| 0 <= i < t.len() implies is_digit(#[trigger] t[i]) by {
                assert(t[i] == s[i]);
            }
        }
        lemma_digits_value_bound(t);
        assert(is_digit(s[s.len() - 1]));
    }
}

pub proof fn lemma_digits_props(n: nat)
    ensures
        all_digits(digits(n)),
        digits_value(digits(n)) == n,
        digits(n).len() >= 1,
        digits(n)[0] != 32,
        digits(n).last() != 32,
        n < pow10(digits(n).len()),
        n >= 10 ==> pow10((digits(n).len() - 1) as nat) <= n,
    decreases n,
{
    if n >= 10 {
        lemma_digits_props(n / 10);
        let d = digits(n / 10);
        let s = d.push(digit_char(n % 10));
        assert(s.drop_last() =~= d);
        assert forall|i: int| 0 <= i < s.len() implies is_digit(#[trigger] s[i]) by {
            if i < d.len() {
                assert(s[i] == d[i]);
            }
        }
        assert(s[0] == d[0]);
        assert(s.last() == digit_char(n % 10));
        assert((n % 10) % 10 == n % 10);
        assert((s.last() - 48) as nat == n % 10);
        assert(digits(n) == s);
        assert(digits_value(s) == digits_value(d) * 10 + n % 10);
        assert(digits_value(d) == n / 10);
        assert(n == (n / 10) * 10 + n % 10);
        assert(pow10(s.len()) == 10 * pow10(d.len()));
        if n / 10 < 10 {
            assert(d.len() == 1);
            assert(pow10(0) == 1);
        } else {
            assert(pow10((s.len() - 1) as nat) == 10 * pow10((d.len() - 1) as nat));
        }
    } else {
        assert(digits(n) =~= seq![digit_char(n)]);
        assert(n % 10 == n);
        assert(digits(n).drop_last() =~= Seq::<u8>::empty());
        assert(digits_value(digits(n).drop_last()) == 0);
        assert((digit_char(n) - 48) as nat == n);
        assert(pow10(1) == 10 * pow10(0));
    }
}

pub proof fn lemma_zero_padded_props(n: nat, w: nat)
    ensures
        zero_padded(n, w).len() == w,
        all_digits(zero_padded(n, w)),
        digits_value(zero_padded(n, w)) == n % pow10(w),
    decreases w,
{
    if w > 0 {
        lemma_zero_padded_props(n / 10, (w - 1) as nat);
        let p = zero_padded(n / 10, (w - 1) as nat);
        let s = p.push(digit_char(n % 10));
        assert(s.drop_last() =~= p);
        assert forall|i: int| 0 <= i < s.len() implies is_digit(#[trigger] s[i]) by {
            if i < p.len() {
                assert(s[i] == p[i]);
            }
        }
        let q = pow10((w - 1) as nat);
        lemma_pow10_pos((w - 1) as nat);
        assert((n / 10) % q * 10 + n % 10 == n % (q * 10)) by (nonlinear_arith)
            requires
                q >= 1,
        {
            assert(n == (n / 10) * 10 + n % 10);
            assert(n / 10 == ((n / 10) / q) * q + (n / 10) % q);
            assert(n == ((n / 10) / q) * (q * 10) + ((n / 10) % q * 10 + n % 10));
            assert(0 <= (n / 10) % q * 10 + n % 10 < q * 10);
            vstd::arithmetic::div_mod::lemma_fundamental_div_mod_converse(
                n as int,
                (q * 10) as int,
                ((n / 10) / q) as int,
                ((n / 10) % q * 10 + n % 10) as int,
            );
        }
    }
}

pub proof fn lemma_trim_start_spaces(k: nat, s: Seq<u8>)
    requires
        s.len() == 0 || s[0] != 32,
    ensures
        trim_start(spaces(k) + s) == s,
    decreases k,
{
    if k == 0 {
        assert(spaces(0) + s =~= s);
    } else {
        let t = spaces(k) + s;
        assert(t[0] == 32);
        assert(t.drop_first() =~= spaces((k - 1) as nat) + s);
        lemma_trim_start_spaces((k - 1) as nat, s);
    }
}

pub proof fn lemma_trim_end_spaces(k: nat, s: Seq<u8>)
    requires
        s.len() == 0 || s.last() != 32,
    ensures
        trim_end(s + spaces(k)) == s,
    decreases k,
{
    if k == 0 {
        assert(s + spaces(0) =~= s);
    } else {
        let t = s + spaces(k);
        assert(t.last() == 32);
        assert(t.drop_last() =~= s + spaces((k - 1) as nat));
        lemma_trim_end_spaces((k - 1) as nat, s);
    }
}

/// Trimming a right-aligned token gives the token back.
pub proof fn lemma_trim_right_aligned(s: Seq<u8>, w: nat)
    requires
        is_token(s),
    ensures
        trim(right_aligned(s, w)) == s,
{
    if s.len() >= w {
        lemma_trim_start_spaces(0, s);
        assert(spaces(0) + s =~= s);
    } else {
        lemma_trim_start_spaces((w - s.len()) as nat, s);
    }
    lemma_trim_end_spaces(0, s);
    assert(s + spaces(0) =~= s);
}

/// Trimming a left-aligned token gives the token back.
pub proof fn lemma_trim_left_aligned(s: Seq<u8>, w: nat)
    requires
        is_token(s),
    ensures
        trim(left_aligned(s, w)) == s,
{
    let t = left_aligned(s, w);
    let k: nat = if s.len() >= w {
        0
    } else {
        (w - s.len()) as nat
    };
    assert(t =~= s + spaces(k));
    lemma_trim_start_spaces(0, t);
    assert(spaces(0) + t =~= t);
    assert(t[0] == s[0]);
    lemma_trim_end_spaces(k, s);
}

/// A token surrounded by spaces trims to itself.
pub proof fn lemma_trim_padded(a: nat, t: Seq<u8>, b: nat)
    requires
        is_token(t),
    ensures
        trim(spaces(a) + t + spaces(b)) == t,
{
    assert(spaces(a) + t + spaces(b) =~= spaces(a) + (t + spaces(b)));
    lemma_trim_start_spaces(a, t + spaces(b));
    lemma_trim_end_spaces(b, t);
}

/// A right-aligned unsigned integer field reads back as its value.
pub proof fn lemma_uint_field_round_trip(n: nat, w: nat)
    ensures
        parse_uint(right_aligned(digits(n), w)) == Some(n),
{
    lemma_digits_props(n);
    lemma_trim_right_aligned(digits(n), w);
}

/// A zero-padded field reads back as its value when it fits.
pub proof fn lemma_zero_padded_round_trip(n: nat, w: nat)
    requires
        n < pow10(w),
        w > 0,
    ensures
        parse_uint(zero_padded(n, w)) == Some(n),
{
    lemma_zero_padded_props(n, w);
    let z = zero_padded(n, w);
    assert(is_digit(z[0]) && is_digit(z.last()));
    lemma_trim_right_aligned(z, 0);
    assert(right_aligned(z, 0) == z);
    assert(n % pow10(w) == n) by {
        vstd::arithmetic::div_mod::lemma_small_mod(n, pow10(w));
    }
}

pub proof fn lemma_fixed_text_round_trip(v: int, k: nat)
    ensures
        is_token(fixed_text(v, k)),
        parse_fixed(fixed_text(v, k), k) == Some(v),
{
    let a = if v < 0 {
        -v
    } else {
        v
    };
    lemma_pow10_pos(k);
    let p = pow10(k) as int;
    let q = (a / p) as nat;
    let r = (a % p) as nat;
    lemma_digits_props(q);
    lemma_zero_padded_props(r, k);
    let d = digits(q);
    let z = zero_padded(r, k);
    let body = d + seq![46u8] + z;
    let n = body.len();
    assert(n == d.len() + 1 + k);
    assert(body.subrange(0, n - k - 1) =~= d);
    assert(body.subrange(n - k, n as int) =~= z);
    assert(body[n - k - 1] == 46);
    assert(r % pow10(k) == r) by {
        vstd::arithmetic::div_mod::lemma_small_mod(r, pow10(k));
    }
    assert(q * pow10(k) + r == a) by {
        vstd::arithmetic::div_mod::lemma_fundamental_div_mod(a, p);
    }
    assert(parse_unsigned_fixed(body, k) == Some(a as nat));
    assert(body[0] == d[0]);
    assert(body.last() != 32) by {
        if k > 0 {
            assert(body.last() == z.last());
            assert(is_digit(z[z.len() - 1]));
        } else {
            assert(body.last() == 46);
        }
    }
    let t = fixed_text(v, k);
    lemma_trim_right_aligned(t, 0);
    assert(right_aligned(t, 0) == t);
    if v < 0 {
        assert(t.drop_first() =~= body);
        assert(t.last() == body.last());
    }
}

/// A coordinate field reads back as its value.
pub proof fn lemma_coord_field_round_trip(v: int)
    ensures
        parse_fixed(coord_field(v), 6) == Some(v),
{
    lemma_fixed_text_round_trip(v, 6);
    lemma_trim_right_aligned(fixed_text(v, 6), 14);
}

pub proof fn lemma_coord_field_len(v: int)
    requires
        valid_coord(v),
    ensures
        coord_field(v).len() == 14,
{
    let a = if v < 0 {
        -v
    } else {
        v
    };
    let q = (a / 1_000_000) as nat;
    lemma_pow10_values();
    lemma_digits_props(q);
    lemma_zero_padded_props((a % 1_000_000) as nat, 6);
    assert(q < 1_000_000);
    if digits(q).len() > 6 {
        assert(pow10(6) <= pow10((digits(q).len() - 1) as nat)) by {
            lemma_pow10_monotone(6, (digits(q).len() - 1) as nat);
        }
    }
    assert(digits(q).len() <= 6);
}

pub proof fn lemma_pow10_monotone(a: nat, b: nat)
    requires
        a <= b,
    ensures
        pow10(a) <= pow10(b),
    decreases b,
{
    if a < b {
        lemma_pow10_monotone(a, (b - 1) as nat);
        lemma_pow10_pos((b - 1) as nat);
    }
}

// ---------------------------------------------------------------- exec
/// Appends the decimal digits of `n`.
pub fn push_digits(out: &mut Vec<u8>, n: u64)
    ensures
        final(out)@ == old(out)@ + digits(n as nat),
    decreases n,
{
    if n >= 10 {
        push_digits(out, n / 10);
    }
    out.push((48 + n % 10) as u8);
    proof {
        if n < 10 {
            assert(n % 10 == n);
        }
    }
    assert(final(out)@ =~= old(out)@ + digits(n as nat));
}

/// Appends the last `w` decimal digits of `n`, zero padded.
pub fn push_zero_padded(out: &mut Vec<u8>, n: u64, w: usize)
    ensures
        final(out)@ == old(out)@ + zero_padded(n as nat, w as nat),
    decreases w,
{
    if w > 0 {
        push_zero_padded(out, n / 10, w - 1);
        out.push((48 + n % 10) as u8);
        assert(final(out)@ =~= old(out)@ + zero_padded(n as nat, w as nat));
    } else {
        assert(final(out)@ =~= old(out)@ + zero_padded(n as nat, w as nat));
    }
}

/// Appends `k` spaces.
pub fn push_spaces(out: &mut Vec<u8>, k: usize)
    ensures
        final(out)@ == old(out)@ + spaces(k as nat),
{
    let mut i: usize = 0;
    while i < k
        invariant
            i <= k,
            out@ == old(out)@ + spaces(i as nat),
        decreases k - i,
    {
        out.push(32u8);
        i = i + 1;
        assert(out@ =~= old(out)@ + spaces(i as nat));
    }
}

/// Appends bytes.
pub fn push_bytes(out: &mut Vec<u8>, s: &[u8])
    ensures
        final(out)@ == old(out)@ + s@,
{
    let mut i: usize = 0;
    while i < s.len()
        invariant
            i <= s.len(),
            out@ == old(out)@ + s@.subrange(0, i as int),
        decreases s.len() - i,
    {
        out.push(s[i]);
        i = i + 1;
        assert(out@ =~= old(out)@ + s@.subrange(0, i as int));
    }
    assert(s@.subrange(0, s.len() as int) =~= s@);
}

/// Appends `s`, right aligned in a field of `w` characters.
pub fn push_right_aligned(out: &mut Vec<u8>, s: &[u8], w: usize)
    ensures
        final(out)@ == old(out)@ + right_aligned(s@, w as nat),
{
    if s.len() < w {
        push_spaces(out, w - s.len());
    }
    push_bytes(out, s);
    assert(final(out)@ =~= old(out)@ + right_aligned(s@, w as nat));
}

/// Appends `s`, left aligned in a field of `w` characters.
pub fn push_left_aligned(out: &mut Vec<u8>, s: &[u8], w: usize)
    ensures
        final(out)@ == old(out)@ + left_aligned(s@, w as nat),
{
    push_bytes(out, s);
    if s.len() < w {
        push_spaces(out, w - s.len());
    }
    assert(final(out)@ =~= old(out)@ + left_aligned(s@, w as nat));
}

/// Appends `n` right aligned in a field of `w` characters.
pub fn push_uint_field(out: &mut Vec<u8>, n: u64, w: usize)
    ensures
        final(out)@ == old(out)@ + right_aligned(digits(n as nat), w as nat),
{
    let mut d: Vec<u8> = Vec::new();
    push_digits(&mut d, n);
    assert(d@ =~= digits(n as nat));
    push_right_aligned(out, d.as_slice(), w);
}

/// Appends the fixed-point text of `v` units of `10^-k`.
pub fn push_fixed_text(out: &mut Vec<u8>, v: i64, k: usize)
    requires
        v > i64::MIN,
        k <= 18,
    ensures
        final(out)@ == old(out)@ + fixed_text(v as int, k as nat),
{
    let a: u64 = if v < 0 {
        (-v) as u64
    } else {
        v as u64
    };
    let p = pow10_exec(k);
    if v < 0 {
        out.push(45u8);
    }
    push_digits(out, a / p);
    out.push(46u8);
    push_zero_padded(out, a % p, k);
    assert(final(out)@ =~= old(out)@ + fixed_text(v as int, k as nat));
}

/// Appends the fixed-point text of the non-negative `n` units of `10^-k`.
pub fn push_unsigned_fixed_text(out: &mut Vec<u8>, n: u64, k: usize)
    requires
        k <= 18,
    ensures
        final(out)@ == old(out)@ + fixed_text(n as int, k as nat),
{
    let p = pow10_exec(k);
    push_digits(out, n / p);
    out.push(46u8);
    push_zero_padded(out, n % p, k);
    assert(final(out)@ =~= old(out)@ + fixed_text(n as int, k as nat));
}

/// Appends the fixed-point text of `n` units of `10^-k`, right aligned in `w` characters.
pub fn push_unsigned_fixed_field(out: &mut Vec<u8>, n: u64, k: usize, w: usize)
    requires
        k <= 18,
    ensures
        final(out)@ == old(out)@ + right_aligned(fixed_text(n as int, k as nat), w as nat),
{
    let mut t: Vec<u8> = Vec::new();
    push_unsigned_fixed_text(&mut t, n, k);
    assert(t@ =~= fixed_text(n as int, k as nat));
    push_right_aligned(out, t.as_slice(), w);
}

/// Appends the 14-character coordinate field of `v`.
pub fn push_coord_field(out: &mut Vec<u8>, v: i64)
    requires
        v > i64::MIN,
    ensures
        final(out)@ == old(out)@ + coord_field(v as int),
{
    let mut t: Vec<u8> = Vec::new();
    push_fixed_text(&mut t, v, 6);
    assert(t@ =~= fixed_text(v as int, 6));
    push_right_aligned(out, t.as_slice(), 14);
}

pub fn pow10_exec(k: usize) -> (r: u64)
    requires
        k <= 18,
    ensures
        r == pow10(k as nat),
        r >= 1,
    decreases k,
{
    if k == 0 {
        1
    } else {
        let p = pow10_exec(k - 1);
        proof {
            lemma_pow10_pos(k as nat);
            lemma_pow10_monotone((k - 1) as nat, 17);
            lemma_pow10_values();
        }
        10 * p
    }
}

/// Bounds of the non-space part of `s[start..end]`.
pub fn trim_bounds(s: &[u8], start: usize, end: usize) -> (r: (usize, usize))
    requires
        start <= end <= s.len(),
    ensures
        start <= r.0 <= r.1 <= end,
        s@.subrange(r.0 as int, r.1 as int) == trim(s@.subrange(start as int, end as int)),
{
    let mut i = start;
    while i < end && s[i] == 32
        invariant
            start <= i <= end <= s.len(),
            trim_start(s@.subrange(start as int, end as int)) == trim_start(
                s@.subrange(i as int, end as int),
            ),
        decreases end - i,
    {
        assert(s@.subrange(i as int, end as int).drop_first() =~= s@.subrange(
            i + 1,
            end as int,
        ));
        i = i + 1;
    }
    assert(trim_start(s@.subrange(i as int, end as int)) == s@.subrange(i as int, end as int));
    let mut j = end;
    while j > i && s[j - 1] == 32
        invariant
            start <= i <= j <= end <= s.len(),
            trim(s@.subrange(start as int, end as int)) == trim_end(
                s@.subrange(i as int, j as int),
            ),
        decreases j - i,
    {
        assert(s@.subrange(i as int, j as int).drop_last() =~= s@.subrange(
            i as int,
            j - 1,
        ));
        j = j - 1;
    }
    (i, j)
}

/// Value of the digits `s[start..end]`, if all are digits.
pub fn parse_digits(s: &[u8], start: usize, end: usize) -> (r: Option<u64>)
    requires
        start <= end <= s.len(),
        end - start <= 19,
    ensures
        r.is_some() == all_digits(s@.subrange(start as int, end as int)),
        r.is_some() ==> r.unwrap() as nat == digits_value(s@.subrange(start as int, end as int)),
{
    let mut v: u64 = 0;
    let mut i = start;
    while i < end
        invariant
            start <= i <= end <= s.len(),
            end - start <= 19,
            all_digits(s@.subrange(start as int, i as int)),
            v as nat == digits_value(s@.subrange(start as int, i as int)),
            v < pow10((i - start) as nat),
        decreases end - i,
    {
        let c = s[i];
        if c < 48 || c > 57 {
            assert(!all_digits(s@.subrange(start as int, end as int))) by {
                assert(s@.subrange(start as int, end as int)[i - start] == c);
            }
            return None;
        }
        proof {
            lemma_pow10_monotone((i - start) as nat, 18);
            lemma_pow10_values();
        }
        v = v * 10 + (c - 48) as u64;
        let ghost sub = s@.subrange(start as int, i + 1);
        assert(sub.drop_last() =~= s@.subrange(start as int, i as int));
        assert(all_digits(sub)) by {
            assert forall|j: int| 0 <= j < sub.len() implies is_digit(#[trigger] sub[j]) by {
                if j < sub.len() - 1 {
                    assert(sub[j] == s@.subrange(start as int, i as int)[j]);
                }
            }
        }
        i = i + 1;
    }
    Some(v)
}

/// Reads an unsigned integer field `s[start..end]` (digits surrounded by spaces).
pub fn parse_uint_field(s: &[u8], start: usize, end: usize) -> (r: Option<u64>)
    requires
        start <= end <= s.len(),
        end - start <= 19,
    ensures
        r.is_some() == parse_uint(s@.subrange(start as int, end as int)).is_some(),
        r.is_some() ==> r.unwrap() as nat == parse_uint(
            s@.subrange(start as int, end as int),
        ).unwrap(),
{
    let (a, b) = trim_bounds(s, start, end);
    if a == b {
        return None;
    }
    parse_digits(s, a, b)
}

/// Reads a signed fixed-point field `s[start..end]` with `k` fractional digits.
pub fn parse_fixed_field(s: &[u8], start: usize, end: usize, k: usize) -> (r: Option<i64>)
    requires
        start <= end <= s.len(),
        end - start <= 18,
        k <= 16,
    ensures
        r.is_some() == parse_fixed(s@.subrange(start as int, end as int), k as nat).is_some(),
        r.is_some() ==> r.unwrap() as int == parse_fixed(
            s@.subrange(start as int, end as int),
            k as nat,
        ).unwrap(),
{
    let (a0, b) = trim_bounds(s, start, end);
    let ghost t = s@.subrange(a0 as int, b as int);
    let neg = a0 < b && s[a0] == 45;
    let a = if neg {
        a0 + 1
    } else {
        a0
    };
    let ghost u = s@.subrange(a as int, b as int);
    assert(neg ==> u =~= t.drop_first());
    let n = b - a;
    if n < k + 2 || s[b - k - 1] != 46 {
        return None;
    }
    assert(u[n - k - 1] == s@[b - k - 1]);
    let ip = parse_digits(s, a, b - k - 1);
    let fp = parse_digits(s, b - k, b);
    assert(u.subrange(0, n - k - 1) =~= s@.subrange(a as int, b - k - 1));
    assert(u.subrange(n - k, n as int) =~= s@.subrange(b - k, b as int));
    match (ip, fp) {
        (Some(i), Some(f)) => {
            proof {
                lemma_digits_value_bound(s@.subrange(a as int, b - k - 1));
                lemma_pow10_monotone((n - k - 1) as nat, 17);
                lemma_pow10_monotone(k as nat, 16);
                lemma_pow10_values();
                lemma_pow10_values();
                lemma_digits_value_bound(s@.subrange(b - k, b as int));
                assert((n - k - 1) + k <= 17);
                lemma_pow10_add((n - k - 1) as nat, k as nat);
                assert(i * pow10(k as nat) + f < pow10((n - k - 1) as nat) * pow10(k as nat))
                    by (nonlinear_arith)
                    requires
                        i < pow10((n - k - 1) as nat),
                        f < pow10(k as nat),
                ;
                lemma_pow10_monotone((n - 1) as nat, 17);
            }
            let p = pow10_exec(k);
            let m = i * p + f;
            if neg {
                Some(-(m as i64))
            } else {
                Some(m as i64)
            }
        },
        _ => None,
    }
}

pub proof fn lemma_pow10_add(a: nat, b: nat)
    ensures
        pow10(a) * pow10(b) == pow10(a + b),
    decreases a,
{
    if a > 0 {
        lemma_pow10_add((a - 1) as nat, b);
        assert(pow10(a + b) == 10 * pow10((a - 1 + b) as nat));
        let x = pow10((a - 1) as nat);
        let y = pow10(b);
        assert(pow10(a) == 10 * x);
        assert((10 * x) * y == 10 * (x * y)) by (nonlinear_arith);
    } else {
        assert(pow10(0) == 1);
        assert(a + b == b);
    }
}

} // verus!
