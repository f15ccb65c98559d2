//! Decimal text: parsing value tokens and rendering results.

use vstd::prelude::*;
use vstd::string::StringExecFns;
use vstd::string::StringSliceAdditionalSpecFns;
use crate::UconvError;
use crate::fixed::Fixed;
use crate::fixed::SCALE;

verus! {

/// The character for a single decimal digit.
pub open spec fn digit_char(d: int) -> char {
    if d == 0 {
        '0'
    } else if d == 1 {
        '1'
    } else if d == 2 {
        '2'
    } else if d == 3 {
        '3'
    } else if d == 4 {
        '4'
    } else if d == 5 {
        '5'
    } else if d == 6 {
        '6'
    } else if d == 7 {
        '7'
    } else if d == 8 {
        '8'
    } else {
        '9'
    }
}

/// Decimal digit sequence of a nonnegative integer, most significant first.
pub open spec fn dec_digits(n: int) -> Seq<char>
    decreases n,
{
    if n < 10 {
        seq![digit_char(n)]
    } else {
        dec_digits(n / 10).push(digit_char(n % 10))
    }
}

/// The one-character string for a decimal digit.
fn digit_str(d: u64) -> (r: &'static str)
    requires
        d < 10,
    ensures
        r@ == seq![digit_char(d as int)],
{
    proof {
        reveal_strlit("0");
        reveal_strlit("1");
        reveal_strlit("2");
        reveal_strlit("3");
        reveal_strlit("4");
        reveal_strlit("5");
        reveal_strlit("6");
        reveal_strlit("7");
        reveal_strlit("8");
        reveal_strlit("9");
    }
    let r: &'static str = if d == 0 {
        "0"
    } else if d == 1 {
        "1"
    } else if d == 2 {
        "2"
    } else if d == 3 {
        "3"
    } else if d == 4 {
        "4"
    } else if d == 5 {
        "5"
    } else if d == 6 {
        "6"
    } else if d == 7 {
        "7"
    } else if d == 8 {
        "8"
    } else {
        "9"
    };
    proof {
        assert(r@ =~= seq![digit_char(d as int)]);
    }
    r
}

/// Renders a nonnegative integer in decimal.
fn render_u64(n: u64) -> (s: String)
    ensures
        s@ == dec_digits(n as int),
    decreases n,
{
    if n < 10 {
        String::from_str(digit_str(n))
    } else {
        let mut s = render_u64(n / 10);
        s.append(digit_str(n % 10));
        proof {
            assert(s@ =~= dec_digits(n as int));
        }
        s
    }
}

/// Whether a byte is an ASCII decimal digit.
pub open spec fn is_digit_byte(b: u8) -> bool {
    48 <= b && b <= 57
}

/// A nonempty run of decimal digit bytes.
pub open spec fn all_digits(s: Seq<u8>) -> bool {
    s.len() > 0 && forall|i: int| 0 <= i < s.len() ==> is_digit_byte(#[trigger] s[i])
}

/// Value of a digit string, most significant digit first.
pub open spec fn digits_val(s: Seq<u8>) -> int
    decreases s.len(),
{
    if s.len() == 0 {
        0
    } else {
        digits_val(s.drop_last()) * 10 + (s.last() - 48)
    }
}

/// Index of the first '.', or the length when there is none.
pub open spec fn dot_pos(s: Seq<u8>) -> int
    decreases s.len(),
{
    if s.len() == 0 {
        0
    } else if s[0] == 46 {
        0
    } else {
        1 + dot_pos(s.skip(1))
    }
}

/// Powers of ten.
pub open spec fn pow10(k: nat) -> int
    decreases k,
{
    if k == 0 {
        1
    } else {
        10 * pow10((k - 1) as nat)
    }
}

/// Scaled value of the fraction digits: the first seven count (the rest are
/// beyond the resolution and are dropped), shorter runs are padded with zeros.
pub open spec fn frac_scaled(s: Seq<u8>) -> int {
    if s.len() >= 7 {
        digits_val(s.take(7))
    } else {
        digits_val(s) * pow10((7 - s.len()) as nat)
    }
}

/// An unsigned decimal body: digits, optionally followed by '.' and more
/// digits, both runs nonempty.
pub open spec fn valid_body(s: Seq<u8>) -> bool {
    let d = dot_pos(s);
    if d == s.len() {
        all_digits(s)
    } else {
        all_digits(s.take(d)) && all_digits(s.skip(d + 1))
    }
}

/// Scaled absolute value of a valid body.
pub open spec fn body_scaled(s: Seq<u8>) -> int {
    let d = dot_pos(s);
    if d == s.len() {
        digits_val(s) * (SCALE as int)
    } else {
        digits_val(s.take(d)) * (SCALE as int) + frac_scaled(s.skip(d + 1))
    }
}

/// A decimal number token: an optional '-', then a valid body.
pub open spec fn valid_number(s: Seq<u8>) -> bool {
    if s.len() > 0 && s[0] == 45 {
        valid_body(s.skip(1))
    } else {
        valid_body(s)
    }
}

/// The scaled signed value of a number token.
pub open spec fn number_scaled(s: Seq<u8>) -> int {
    if s.len() > 0 && s[0] == 45 {
        -body_scaled(s.skip(1))
    } else {
        body_scaled(s)
    }
}

/// `dot_pos` is the index of the first '.'.
proof fn lemma_dot_pos_at(s: Seq<u8>, i: int)
    requires
        0 <= i <= s.len(),
        forall|j: int| 0 <= j < i ==> s[j] != 46,
        i < s.len() ==> s[i] == 46,
    ensures
        dot_pos(s) == i,
    decreases s.len(),
{
    if s.len() == 0 {
    } else if s[0] == 46 {
        assert(i == 0);
    } else {
        assert(i >= 1);
        lemma_dot_pos_at(s.skip(1), i - 1);
    }
}

/// Appending one digit multiplies the prefix value by ten.
proof fn lemma_digits_val_step(s: Seq<u8>, i: int)
    requires
        0 <= i < s.len(),
    ensures
        digits_val(s.take(i + 1)) == digits_val(s.take(i)) * 10 + (s[i] - 48),
{
    assert(s.take(i + 1).drop_last() =~= s.take(i));
    assert(s.take(i + 1).last() == s[i]);
}

/// A digit string's value is nonnegative.
proof fn lemma_digits_val_nonneg(s: Seq<u8>)
    requires
        forall|i: int| 0 <= i < s.len() ==> is_digit_byte(#[trigger] s[i]),
    ensures
        digits_val(s) >= 0,
    decreases s.len(),
{
    if s.len() > 0 {
        lemma_digits_val_nonneg(s.drop_last());
    }
}

/// `pow10` is positive.
proof fn lemma_pow10_pos(k: nat)
    ensures
        pow10(k) >= 1,
    decreases k,
{
    if k > 0 {
        lemma_pow10_pos((k - 1) as nat);
    }
}

/// A run of `k` digits is worth less than `pow10(k)`.
proof fn lemma_digits_val_bound(s: Seq<u8>)
    requires
        forall|i: int| 0 <= i < s.len() ==> is_digit_byte(#[trigger] s[i]),
    ensures
        digits_val(s) < pow10(s.len()),
    decreases s.len(),
{
    if s.len() == 0 {
    } else {
        lemma_digits_val_bound(s.drop_last());
        lemma_digits_val_nonneg(s.drop_last());
    }
}

/// `pow10` splits over addition.
proof fn lemma_pow10_add(a: nat, b: nat)
    ensures
        pow10(a) * pow10(b) == pow10(a + b),
    decreases a,
{
    if a == 0 {
    } else {
        lemma_pow10_add((a - 1) as nat, b);
        assert(pow10(a) * pow10(b) == 10 * (pow10((a - 1) as nat) * pow10(b)))
            by (nonlinear_arith)
            requires
                pow10(a) == 10 * pow10((a - 1) as nat),
        ;
    }
}

/// The first eight powers of ten.
proof fn lemma_pow10_vals()
    ensures
        pow10(0) == 1,
        pow10(1) == 10,
        pow10(2) == 100,
        pow10(3) == 1000,
        pow10(4) == 10000,
        pow10(5) == 100000,
        pow10(6) == 1000000,
        pow10(7) == 10000000,
{
    assert(pow10(0) == 1);
    assert(pow10(1) == 10);
    assert(pow10(2) == 100);
    assert(pow10(3) == 1000);
    assert(pow10(4) == 10000);
    assert(pow10(5) == 100000);
    assert(pow10(6) == 1000000);
    assert(pow10(7) == 10000000);
}

/// A power of ten, for exponents up to seven.
fn pow10_small(k: usize) -> (r: u64)
    requires
        k <= 7,
    ensures
        r as int == pow10(k as nat),
{
    proof {
        lemma_pow10_vals();
    }
    if k == 0 {
        1
    } else if k == 1 {
        10
    } else if k == 2 {
        100
    } else if k == 3 {
        1000
    } else if k == 4 {
        10000
    } else if k == 5 {
        100000
    } else if k == 6 {
        1000000
    } else {
        10000000
    }
}

/// Parses a decimal token (`-`? digits (`.` digits)?) into a fixed-point
/// value. Fraction digits beyond the seventh are beyond the resolution and
/// are dropped; a token that is not a decimal number is rejected, as is one
/// whose scaled magnitude exceeds `u64::MAX`.
#[verifier::rlimit(100)]
pub fn parse_value(tok: &str) -> (r: Result<Fixed, UconvError>)
    ensures
        match r {
            Ok(v) => v.wf() && valid_number(tok.spec_bytes()) && crate::fixed::iabs(
                number_scaled(tok.spec_bytes()),
            ) <= u64::MAX && v.value() == number_scaled(tok.spec_bytes()),
            Err(UconvError::InvalidNumber) => !valid_number(tok.spec_bytes()),
            Err(UconvError::TooLarge) => valid_number(tok.spec_bytes()) && crate::fixed::iabs(
                number_scaled(tok.spec_bytes()),
            ) > u64::MAX,
            Err(UconvError::NegativePressure) => false,
        },
{
    let bs: &[u8] = tok.as_bytes();
    let n: usize = bs.len();
    let ghost b: Seq<u8> = tok.spec_bytes();
    let neg: bool = n > 0 && bs[0] == 45;
    let start: usize = if neg {
        1
    } else {
        0
    };
    let ghost body: Seq<u8> = if neg {
        b.skip(1)
    } else {
        b
    };
    proof {
        assert(b.skip(0) =~= b);
        assert(body.len() == n - start);
        assert(forall|j: int| 0 <= j < body.len() ==> body[j] == b[j + start]);
    }
    // Locate the first '.' in the body.
    let mut dotidx: usize = start;
    while dotidx < n && bs[dotidx] != 46
        invariant
            start <= dotidx <= n,
            n == b.len(),
            bs@ == b,
            forall|j: int| start <= j < dotidx ==> b[j] != 46,
        decreases n - dotidx,
    {
        dotidx = dotidx + 1;
    }
    let ghost d: int = dotidx - start;
    proof {
        lemma_dot_pos_at(body, d);
    }
    if dotidx == start {
        // The integer digit run is empty.
        proof {
            assert(d == 0);
            if d == body.len() {
                assert(body.len() == 0);
                assert(!all_digits(body));
            } else {
                assert(body.take(0).len() == 0);
                assert(!all_digits(body.take(0)));
            }
            assert(!valid_body(body));
            assert(!valid_number(b));
        }
        return Err(UconvError::InvalidNumber);
    }
    // Integer part.
    let mut i: usize = start;
    let mut acc: u64 = 0;
    let mut over: bool = false;
    while i < dotidx
        invariant
            start <= i <= dotidx <= n,
            n == b.len(),
            bs@ == b,
            b == tok.spec_bytes(),
            neg == (b.len() > 0 && b[0] == 45),
            body == if neg {
                b.skip(1)
            } else {
                b
            },
            start == if neg {
                1int
            } else {
                0int
            },
            body.len() == n - start,
            d == dotidx - start,
            d == dot_pos(body),
            forall|j: int| 0 <= j < body.len() ==> body[j] == b[j + start],
            forall|j: int| 0 <= j < i - start ==> is_digit_byte(#[trigger] body[j]),
            !over ==> acc as int == digits_val(body.take(i - start)),
            over ==> digits_val(body.take(i - start)) > u64::MAX,
        decreases dotidx - i,
    {
        let c: u8 = bs[i];
        if c < 48 || c > 57 {
            proof {
                assert(0 <= i - start < d <= body.len());
                assert(!is_digit_byte(body[i - start]));
                if d == body.len() {
                    assert(!all_digits(body));
                } else {
                    assert(body.take(d)[i - start] == body[i - start]);
                    assert(!all_digits(body.take(d)));
                }
                assert(!valid_body(body));
                assert(!valid_number(b));
            }
            return Err(UconvError::InvalidNumber);
        }
        proof {
            lemma_digits_val_step(body, i - start);
        }
        if !over {
            if acc > (u64::MAX - ((c - 48) as u64)) / 10 {
                over = true;
            } else {
                acc = acc * 10 + ((c - 48) as u64);
            }
        }
        i = i + 1;
    }
    let ghost intpart: Seq<u8> = body.take(d);
    proof {
        assert(all_digits(intpart));
        lemma_digits_val_nonneg(intpart);
    }
    // Fraction part, if a '.' is present: the first seven digits count.
    let mut facc: u64 = 0;
    let mut fcnt: usize = 0;
    let ghost frac: Seq<u8> = body.skip(d + 1);
    if dotidx < n {
        if dotidx + 1 == n {
            // The fraction digit run is empty.
            proof {
                assert(frac.len() == 0);
                assert(!all_digits(frac));
            }
            return Err(UconvError::InvalidNumber);
        }
        let mut j: usize = dotidx + 1;
        while j < n
            invariant
                dotidx + 1 <= j <= n,
                n == b.len(),
                bs@ == b,
                b == tok.spec_bytes(),
                neg == (b.len() > 0 && b[0] == 45),
                body == if neg {
                    b.skip(1)
                } else {
                    b
                },
                start == if neg {
                    1int
                } else {
                    0int
                },
                body.len() == n - start,
                start <= dotidx < n,
                d == dotidx - start,
                d == dot_pos(body),
                frac == body.skip(d + 1),
                forall|k: int| 0 <= k < body.len() ==> body[k] == b[k + start],
                forall|k: int| 0 <= k < frac.len() ==> frac[k] == body[k + d + 1],
                forall|k: int| 0 <= k < j - dotidx - 1 ==> is_digit_byte(#[trigger] frac[k]),
                fcnt == if j - dotidx - 1 <= 7 {
                    (j - dotidx - 1) as int
                } else {
                    7int
                },
                facc as int == digits_val(frac.take(fcnt as int)),
                facc < 10000000,
            decreases n - j,
        {
            let c: u8 = bs[j];
            if c < 48 || c > 57 {
                proof {
                    assert(0 <= j - dotidx - 1 < frac.len());
                    assert(!is_digit_byte(frac[j - dotidx - 1]));
                    assert(!all_digits(frac));
                    assert(d < body.len());
                    assert(!valid_body(body));
                    assert(!valid_number(b));
                }
                return Err(UconvError::InvalidNumber);
            }
            if fcnt < 7 {
                proof {
                    lemma_digits_val_step(frac, fcnt as int);
                    lemma_digits_val_bound(frac.take(fcnt as int));
                    lemma_digits_val_nonneg(frac.take(fcnt as int));
                    lemma_pow10_vals();
                    assert(pow10(fcnt as nat) <= 1000000) by {
                        lemma_pow10_add(fcnt as nat, (6 - fcnt) as nat);
                        lemma_pow10_pos((6 - fcnt) as nat);
                        lemma_pow10_pos(fcnt as nat);
                        vstd::arithmetic::mul::lemma_mul_increases(
                            pow10((6 - fcnt) as nat),
                            pow10(fcnt as nat),
                        );
                        vstd::arithmetic::mul::lemma_mul_is_commutative(
                            pow10((6 - fcnt) as nat),
                            pow10(fcnt as nat),
                        );
                    }
                }
                facc = facc * 10 + ((c - 48) as u64);
                fcnt = fcnt + 1;
            }
            j = j + 1;
        }
        proof {
            assert(all_digits(frac));
        }
    } else {
        proof {
            assert(d == body.len());
        }
    }
    // Pad the fraction to seven digits.
    proof {
        lemma_digits_val_nonneg(frac.take(fcnt as int));
        lemma_digits_val_bound(frac.take(fcnt as int));
    }
    let pad: u64 = pow10_small(7 - fcnt);
    proof {
        lemma_pow10_add(fcnt as nat, (7 - fcnt) as nat);
        lemma_pow10_vals();
        vstd::arithmetic::mul::lemma_mul_inequality(
            facc as int,
            pow10(fcnt as nat) - 1,
            pad as int,
        );
        vstd::arithmetic::mul::lemma_mul_is_distributive_sub_other_way(
            pad as int,
            pow10(fcnt as nat),
            1,
        );
        lemma_pow10_pos((7 - fcnt) as nat);
    }
    let fval: u64 = facc * pad;
    proof {
        // fval == frac_scaled(frac) in every case.
        if dotidx < n {
            if frac.len() >= 7 {
                assert(fcnt == 7);
                assert(frac.take(7).take(7) =~= frac.take(7));
                assert(fval as int == frac_scaled(frac));
            } else {
                assert(fcnt == frac.len());
                assert(frac.take(fcnt as int) =~= frac);
                assert(fval as int == frac_scaled(frac));
            }
        }
    }
    proof {
        // The token is a valid number on every remaining path.
        if d == body.len() {
            assert(body.take(d) =~= body);
            assert(all_digits(body));
        } else {
            assert(all_digits(frac));
        }
        assert(valid_body(body));
        assert(valid_number(b));
        // The fraction's scaled value is nonnegative.
        if d < body.len() {
            if frac.len() >= 7 {
                assert(forall|k: int|
                    0 <= k < frac.take(7).len() ==> is_digit_byte(#[trigger] frac.take(7)[k]));
                lemma_digits_val_nonneg(frac.take(7));
            } else {
                lemma_digits_val_nonneg(frac);
                lemma_pow10_pos((7 - frac.len()) as nat);
                vstd::arithmetic::mul::lemma_mul_nonnegative(
                    digits_val(frac),
                    pow10((7 - frac.len()) as nat),
                );
            }
            assert(frac_scaled(frac) >= 0);
        }
    }
    if over {
        proof {
            assert(digits_val(intpart) * (SCALE as int) >= digits_val(intpart)) by (nonlinear_arith)
                requires
                    digits_val(intpart) >= 0,
                    SCALE as int >= 1,
            ;
            if d == body.len() {
                assert(body.take(d) =~= body);
                assert(body_scaled(body) == digits_val(body) * (SCALE as int));
            } else {
                assert(body_scaled(body) == digits_val(intpart) * (SCALE as int) + frac_scaled(
                    frac,
                ));
            }
            assert(body_scaled(body) > u64::MAX);
        }
        return Err(UconvError::TooLarge);
    }
    let total: u128 = (acc as u128) * (SCALE as u128) + (fval as u128);
    proof {
        if d == body.len() {
            // No dot: the whole body is the integer part and the fraction is
            // empty, so `fval` is zero.
            assert(body.take(d) =~= body);
            assert(facc == 0);
            assert(fval == 0);
            assert(body_scaled(body) == digits_val(body) * (SCALE as int));
        }
        assert(total as int == body_scaled(body));
    }
    if total > u64::MAX as u128 {
        proof {
            assert(body_scaled(body) == total as int);
        }
        return Err(UconvError::TooLarge);
    }
    let v = Fixed::from_scaled(neg, total as u64);
    proof {
        assert(body_scaled(body) == total as int);
        if neg {
            assert(number_scaled(b) == -body_scaled(body));
        } else {
            assert(number_scaled(b) == body_scaled(body));
        }
    }
    Ok(v)
}

/// Scaled magnitude rounded to hundredths, half away from zero.
pub open spec fn hundredths(mag: int) -> int {
    (mag + 50000) / 100000
}

/// The two-decimal rendering of a fixed-point value: an optional minus sign,
/// the integer digits, '.', and two fraction digits (round half away from
/// zero).
pub open spec fn fixed2(v: Fixed) -> Seq<char> {
    let h = hundredths(crate::fixed::iabs(v.value()));
    let sign: Seq<char> = if v.value() < 0 {
        seq!['-']
    } else {
        Seq::empty()
    };
    sign + dec_digits(h / 100) + seq!['.', digit_char((h / 10) % 10), digit_char(h % 10)]
}

/// Renders a fixed-point value with two decimal places.
pub fn render_fixed2(v: &Fixed) -> (s: String)
    requires
        v.wf(),
    ensures
        s@ == fixed2(*v),
{
    proof {
        reveal_strlit("-");
        reveal_strlit(".");
    }
    let mag = v.scaled_mag();
    let h128: u128 = ((mag as u128) + 50000) / 100000;
    let h: u64 = h128 as u64;
    let mut s: String = if v.is_negative() {
        String::from_str("-")
    } else {
        String::new()
    };
    let intpart = render_u64(h / 100);
    s.append(intpart.as_str());
    s.append(".");
    s.append(digit_str((h / 10) % 10));
    s.append(digit_str(h % 10));
    proof {
        assert(s@ =~= fixed2(*v));
    }
    s
}

} // verus!
