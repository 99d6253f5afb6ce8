use vstd::prelude::*;
use vstd::string::StringExecFns;
use crate::keys::AccountKey;

verus! {

/// The decimal digit character for a value below ten.
pub open spec fn digit_char(n: int) -> char {
    (('0' as u8) + n as u8) as char
}

/// The decimal digits of `n`, most significant first; zero is "0".
pub open spec fn dec_digits(n: nat) -> Seq<char>
    decreases n,
{
    if n < 10 {
        seq![digit_char(n as int)]
    } else {
        dec_digits(n / 10) + seq![digit_char((n % 10) as int)]
    }
}

/// The decimal rendering of a signed value: a minus sign and the digits
/// of the magnitude.
pub open spec fn spec_i64_string(t: i64) -> Seq<char> {
    if t < 0 {
        seq!['-'] + dec_digits((-(t as int)) as nat)
    } else {
        dec_digits(t as nat)
    }
}

pub open spec fn pow10(k: nat) -> nat
    decreases k,
{
    if k == 0 {
        1
    } else {
        10 * pow10((k - 1) as nat)
    }
}

/// `k` zero characters.
pub open spec fn zeros(k: nat) -> Seq<char> {
    Seq::new(k, |i: int| '0')
}

/// The value in hundredths of `mag * 10^expo`, rounded half away from
/// zero when the exponent leaves sub-cent precision.
pub open spec fn scaled_cents(mag: nat, expo: int) -> nat {
    if expo + 2 >= 0 {
        mag * pow10((expo + 2) as nat)
    } else {
        (mag + pow10((-(expo + 2)) as nat) / 2) / pow10((-(expo + 2)) as nat)
    }
}

/// A count of hundredths rendered with two decimal places: the digits,
/// zero-padded to at least three, with a point before the last two.
pub open spec fn cents_string_from(ds: Seq<char>) -> Seq<char> {
    let padded = if ds.len() >= 3 {
        ds
    } else {
        zeros((3 - ds.len()) as nat) + ds
    };
    padded.take(padded.len() - 2) + seq!['.'] + padded.skip(padded.len() - 2)
}

pub open spec fn cents_string(c: nat) -> Seq<char> {
    cents_string_from(dec_digits(c))
}

/// The rendering of an aggregate price: `price * 10^expo` with two
/// decimal places, the sign kept whenever the price is negative.
pub open spec fn price_string(price: int, expo: int) -> Seq<char> {
    let mag = if price < 0 {
        (-price) as nat
    } else {
        price as nat
    };
    (if price < 0 {
        seq!['-']
    } else {
        Seq::<char>::empty()
    }) + cents_string(scaled_cents(mag, expo))
}

/// The characters of a string, collected in order.
pub fn chars_of(s: &str) -> (r: Vec<char>)
    ensures
        r@ == s@,
{
    broadcast use vstd::string::axiom_spec_iter;

    let mut out: Vec<char> = Vec::new();
    let it0 = s.chars();
    for c in it: it0
        invariant
            out@ =~= it.seq().take(it.index()),
        ensures
            out@ =~= s@,
    {
        proof {
            assert(c == it.seq()[it.index()]);
        }
        out.push(c);
        proof {
            assert(out@ =~= it.seq().take(it.index() + 1));
        }
    }
    out
}

/// Relies on String::push: it appends exactly the one character.
#[verifier::external_body]
pub fn push_char(s: &mut String, c: char)
    ensures
        final(s)@ == old(s)@ + seq![c],
{
    s.push(c);
}

fn push_digit(s: &mut Vec<char>, d: u8)
    requires
        d < 10,
    ensures
        final(s)@ == old(s)@ + seq![digit_char(d as int)],
{
    s.push((('0' as u8) + d) as char);
    proof {
        assert(s@ =~= old(s)@ + seq![digit_char(d as int)]);
    }
}

/// Append the decimal digits of `n`.
fn push_digits(s: &mut Vec<char>, n: u128)
    ensures
        final(s)@ == old(s)@ + dec_digits(n as nat),
    decreases n,
{
    if n < 10 {
        push_digit(s, n as u8);
    } else {
        push_digits(s, n / 10);
        push_digit(s, (n % 10) as u8);
        proof {
            assert(old(s)@ + dec_digits((n / 10) as nat) + seq![
                digit_char((n % 10) as int),
            ] =~= old(s)@ + dec_digits(n as nat));
        }
    }
}

/// A character sequence as a string.
fn vec_to_string(v: &Vec<char>) -> (r: String)
    ensures
        r@ == v@,
{
    let mut s = String::new();
    let mut i: usize = 0;
    while i < v.len()
        invariant
            0 <= i <= v@.len(),
            s@ == v@.take(i as int),
        decreases v@.len() - i,
    {
        push_char(&mut s, v[i]);
        proof {
            assert(v@.take(i as int) + seq![v@[i as int]] =~= v@.take(i + 1 as int));
        }
        i = i + 1;
    }
    proof {
        assert(s@ =~= v@);
    }
    s
}

/// The decimal rendering of a signed 64-bit value.
pub fn i64_dec_string(t: i64) -> (r: String)
    ensures
        r@ == spec_i64_string(t),
{
    let mut cs: Vec<char> = Vec::new();
    if t < 0 {
        cs.push('-');
        let mag: u128 = (-(t as i128)) as u128;
        push_digits(&mut cs, mag);
        proof {
            assert(cs@ =~= spec_i64_string(t));
        }
    } else {
        push_digits(&mut cs, t as u128);
        proof {
            assert(cs@ =~= spec_i64_string(t));
        }
    }
    vec_to_string(&cs)
}

proof fn lemma_pow10_pos(k: nat)
    ensures
        pow10(k) >= 1,
    decreases k,
{
    if k > 0 {
        lemma_pow10_pos((k - 1) as nat);
    }
}

/// Multiplying by a power of ten appends that many zero digits.
proof fn lemma_digits_shift(m: nat, k: nat)
    requires
        m > 0,
    ensures
        dec_digits(m * pow10(k)) =~= dec_digits(m) + zeros(k),
    decreases k,
{
    if k == 0 {
        assert(m * pow10(0) == m) by (nonlinear_arith);
        assert(dec_digits(m) + zeros(0) =~= dec_digits(m));
    } else {
        lemma_digits_shift(m, (k - 1) as nat);
        let n = m * pow10((k - 1) as nat);
        assert(n > 0) by (nonlinear_arith)
            requires
                m > 0,
                pow10((k - 1) as nat) >= 1,
                n == m * pow10((k - 1) as nat),
        {
        }
        assert(m * pow10(k) == n * 10) by (nonlinear_arith)
            requires
                pow10(k) == 10 * pow10((k - 1) as nat),
                n == m * pow10((k - 1) as nat),
        {
        }
        assert(n * 10 >= 10) by (nonlinear_arith)
            requires
                n > 0,
        {
        }
        assert((n * 10) / 10 == n && (n * 10) % 10 == 0) by (nonlinear_arith);
        assert(dec_digits(n * 10) =~= dec_digits(n) + seq![digit_char(0)]);
        assert(zeros(k) =~= zeros((k - 1) as nat) + seq!['0']);
        assert(dec_digits(m * pow10(k)) =~= dec_digits(m) + zeros(k));
    }
    lemma_pow10_pos(k);
}

proof fn lemma_pow10_20_large()
    ensures
        pow10(20) == 100000000000000000000,
{
    reveal_with_fuel(pow10, 21);
}

proof fn lemma_pow10_mono(a: nat, b: nat)
    requires
        a <= b,
    ensures
        pow10(a) <= pow10(b),
    decreases b,
{
    if a < b {
        lemma_pow10_mono(a, (b - 1) as nat);
        lemma_pow10_pos((b - 1) as nat);
        assert(pow10(b) == 10 * pow10((b - 1) as nat));
        assert(10 * pow10((b - 1) as nat) >= pow10((b - 1) as nat)) by (nonlinear_arith)
            requires
                pow10((b - 1) as nat) >= 1,
        {
        }
    }
}

/// Render `price * 10^expo` with two decimal places, rounding half away
/// from zero where precision is lost; the sign is kept whenever the price
/// is negative, as the dashboard shows "-0.00" for tiny
/// negative prices.  A large positive exponent produces the exact digit
/// string, however long.
/// The digits of the cents value of `mag * 10^expo`, most significant
/// first.
#[verifier::rlimit(60)]
fn cents_digits(mag: u64, expo: i32) -> (digits: Vec<char>)
    ensures
        digits@ == dec_digits(scaled_cents(mag as nat, expo as int)),
        digits@.len() >= 1,
{
    let ghost magn = mag as nat;
    let ghost cents = scaled_cents(magn, expo as int);
    let mut digits: Vec<char> = Vec::new();
    if mag == 0 {
        push_digit(&mut digits, 0);
        proof {
            if expo + 2 >= 0 {
                assert(0 as nat * pow10((expo + 2) as nat) == 0) by (nonlinear_arith);
            } else {
                let d = pow10((-(expo as int + 2)) as nat);
                lemma_pow10_pos((-(expo as int + 2)) as nat);
                assert((0 + d / 2) / d == 0) by (nonlinear_arith)
                    requires
                        d >= 1,
                {
                }
            }
            assert(digits@ =~= dec_digits(cents));
        }
    } else if expo >= -2 {
        let e2: u64 = (expo as i64 + 2) as u64;
        push_digits(&mut digits, mag as u128);
        let mut z: u64 = 0;
        while z < e2
            invariant
                0 <= z <= e2,
                digits@ == dec_digits(magn) + zeros(z as nat),
            decreases e2 - z,
        {
            digits.push('0');
            proof {
                assert(dec_digits(magn) + zeros(z as nat) + seq!['0'] =~= dec_digits(magn)
                    + zeros((z + 1) as nat));
                assert(digits@ =~= dec_digits(magn) + zeros((z + 1) as nat));
            }
            z = z + 1;
        }
        proof {
            lemma_digits_shift(magn, e2 as nat);
            assert(digits@ =~= dec_digits(cents));
        }
    } else {
        // expo <= -3: divide with rounding; beyond 19 fractional digits
        // a 64-bit magnitude always rounds to zero.
        let k: i64 = -(expo as i64) - 2;
        if k >= 20 {
            push_digit(&mut digits, 0);
            proof {
                let kk = (-(expo as int + 2)) as nat;
                lemma_pow10_20_large();
                lemma_pow10_mono(20, kk);
                let d = pow10(kk);
                assert(magn + d / 2 < d) by (nonlinear_arith)
                    requires
                        d >= 100000000000000000000,
                        magn < 0x10000000000000000,
                {
                }
                assert((magn + d / 2) / d == 0) by (nonlinear_arith)
                    requires
                        magn + d / 2 < d,
                        d >= 1,
                {
                }
                assert(digits@ =~= dec_digits(cents));
            }
        } else {
            let mut d: u128 = 1;
            let mut i: i64 = 0;
            while i < k
                invariant
                    0 <= i <= k,
                    k < 20,
                    d == pow10(i as nat),
                    d <= 0x10000000000000000000000000000000,
                decreases k - i,
            {
                proof {
                    lemma_pow10_mono((i + 1) as nat, 19);
                    reveal_with_fuel(pow10, 20);
                }
                d = d * 10;
                i = i + 1;
            }
            proof {
                lemma_pow10_pos(k as nat);
            }
            let q: u128 = (mag as u128 + d / 2) / d;
            proof {
                assert(q == cents);
            }
            push_digits(&mut digits, q);
            proof {
                assert(digits@ =~= dec_digits(cents));
            }
        }
    }
    digits
}

/// Render `price * 10^expo` with two decimal places, rounding half away
/// from zero where precision is lost; the sign is kept whenever the price
/// is negative, as the dashboard shows "-0.00" for tiny negative prices.
/// A large positive exponent produces the exact digit string, however
/// long.
pub fn format_price(price: i64, expo: i32) -> (r: String)
    ensures
        r@ == price_string(price as int, expo as int),
{
    let neg = price < 0;
    let mag: u64 = if price < 0 {
        (-(price as i128)) as u64
    } else {
        price as u64
    };
    let digits = cents_digits(mag, expo);
    let mut s = String::new();
    if neg {
        push_char(&mut s, '-');
    }
    let ghost sign = s@;
    let n = digits.len();
    if n == 1 {
        push_char(&mut s, '0');
        push_char(&mut s, '.');
        push_char(&mut s, '0');
        push_char(&mut s, digits[0]);
        proof {
            assert(s@ =~= sign + cents_string_from(digits@));
        }
    } else if n == 2 {
        push_char(&mut s, '0');
        push_char(&mut s, '.');
        push_char(&mut s, digits[0]);
        push_char(&mut s, digits[1]);
        proof {
            assert(s@ =~= sign + cents_string_from(digits@));
        }
    } else {
        let mut idx: usize = 0;
        while idx < n - 2
            invariant
                2 < n == digits@.len(),
                0 <= idx <= n - 2,
                s@ == sign + digits@.take(idx as int),
            decreases n - idx,
        {
            push_char(&mut s, digits[idx]);
            proof {
                assert(sign + digits@.take(idx as int) + seq![digits@[idx as int]] =~= sign
                    + digits@.take(idx + 1 as int));
            }
            idx = idx + 1;
        }
        push_char(&mut s, '.');
        push_char(&mut s, digits[n - 2]);
        push_char(&mut s, digits[n - 1]);
        proof {
            assert(digits@.skip(n - 2 as int) =~= seq![digits@[n - 2 as int], digits@[n - 1 as int]]);
            assert(s@ =~= sign + cents_string_from(digits@));
        }
    }
    proof {
        assert(s@ =~= price_string(price as int, expo as int));
    }
    s
}

/// What the calendar renderer yields for a given timestamp: the
/// "year-month-day hour:minute:second" text, or nothing when the value is
/// out of the calendar's range.  A pure function of the timestamp alone.
pub uninterp spec fn utc_string_of(ts: i64) -> Option<Seq<char>>;

/// Relies on chrono::DateTime::from_timestamp and its formatter: the
/// rendered UTC calendar text depends on the timestamp alone.
#[verifier::external_body]
pub fn format_utc(ts: i64) -> (r: Option<String>)
    ensures
        r matches Some(s) ==> (utc_string_of(ts) matches Some(v) && v == s@),
        r is None ==> utc_string_of(ts) is None,
{
    chrono::DateTime::from_timestamp(ts, 0).map(
        |dt| dt.naive_utc().format("%Y-%m-%d %H:%M:%S").to_string(),
    )
}

/// The three-way rendering of a timestamp column: absent data, a
/// formatted calendar time, or a visible invalid-timestamp marker.
pub open spec fn timestamp_cell_spec(ts: Option<i64>) -> Seq<char> {
    match ts {
        None => "no data"@,
        Some(t) => match utc_string_of(t) {
            Some(s) => s,
            None => "Invalid timestamp "@ + spec_i64_string(t),
        },
    }
}

pub fn timestamp_cell(ts: Option<i64>) -> (r: String)
    ensures
        r@ == timestamp_cell_spec(ts),
{
    match ts {
        None => "no data".to_owned(),
        Some(t) => match format_utc(t) {
            Some(f) => f,
            None => {
                let mut s = "Invalid timestamp ".to_owned();
                let num = i64_dec_string(t);
                s.append(num.as_str());
                proof {
                    assert(s@ =~= timestamp_cell_spec(ts));
                }
                s
            },
        },
    }
}

/// The value of a byte string read as one big-endian number.
pub open spec fn be_value(s: Seq<u8>) -> nat
    decreases s.len(),
{
    if s.len() == 0 {
        0
    } else {
        (be_value(s.drop_last()) * 256 + s.last()) as nat
    }
}

/// The base-58 alphabet digit for a value below fifty-eight.
pub open spec fn b58_char(d: int) -> char {
    "123456789ABCDEFGHJKLMNPQRSTUVWXYZabcdefghijkmnopqrstuvwxyz"@[d]
}

/// The base-58 digits of `n`, most significant first.
pub open spec fn b58_digits(n: nat) -> Seq<char>
    decreases n,
{
    if n < 58 {
        seq![b58_char(n as int)]
    } else {
        b58_digits(n / 58) + seq![b58_char((n % 58) as int)]
    }
}

/// How many zero bytes the byte string starts with.
pub open spec fn leading_zero_bytes(s: Seq<u8>) -> nat
    decreases s.len(),
{
    if s.len() == 0 {
        0
    } else if s[0] != 0 {
        0
    } else {
        1 + leading_zero_bytes(s.skip(1))
    }
}

/// The base-58 text of a byte string: one '1' per leading zero byte, then
/// the base-58 digits of the bytes' big-endian value when it is not zero.
pub open spec fn base58_spec(s: Seq<u8>) -> Seq<char> {
    Seq::new(leading_zero_bytes(s), |i: int| '1') + if be_value(s) == 0 {
        Seq::<char>::empty()
    } else {
        b58_digits(be_value(s))
    }
}

/// Relies on bs58::encode with its standard alphabet: one '1' digit per
/// leading zero byte, then the base-58 digits of the bytes' big-endian
/// value — the stated pure function of the bytes alone.
#[verifier::external_body]
pub fn key_base58(k: &AccountKey) -> (r: String)
    ensures
        r@ == base58_spec(k@),
{
    bs58::encode(k).into_string()
}

} // verus!
