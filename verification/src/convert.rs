//! The conversion engine: units and the three closed-form conversions.

use vstd::prelude::*;
use vstd::string::StringSliceAdditionalSpecFns;
use crate::UconvError;
use crate::fixed::Fixed;
use crate::fixed::SCALE;

verus! {

/// Speed of sound in m/s (unscaled: it is a whole number).
pub const SOUND_MS: u64 = 343;

/// One PSI in Pa, scaled by `SCALE`: 6894.7572932 exactly.
pub const PSI_PA_SCALED: u64 = 68_947_572_932;

/// The pressure unit of a dynamic-pressure request. An unrecognized or
/// missing unit resolves to `NoInp`, which the formulas treat as Pa.
#[derive(Clone, Copy, PartialEq, Eq, Structural, Debug)]
pub enum Units {
    Pa,
    Psi,
    NoInp,
}

/// Integer division rounding toward zero.
pub open spec fn tz_div(a: int, d: int) -> int {
    if a >= 0 {
        a / d
    } else {
        -((-a) / d)
    }
}

/// Dynamic pressure (scaled) from a scaled velocity: 0.5 * 1.2 * v^2, which
/// in scaled units is 3 * v^2 / 50000000, floored.
pub open spec fn dynp_scaled(v: int) -> int {
    3 * v * v / (5 * (SCALE as int))
}

/// Mach number (scaled) from a scaled velocity: v / 343, toward zero.
pub open spec fn mach_scaled(v: int) -> int {
    tz_div(v, SOUND_MS as int)
}

/// Pa value (scaled) of a nonnegative scaled PSI value, floored.
pub open spec fn psi_to_pa_scaled(p: int) -> int {
    p * (PSI_PA_SCALED as int) / (SCALE as int)
}

/// The scaled square of the velocity that a scaled dynamic pressure (in Pa)
/// gives: velocity = sqrt(2 * p / 1.2), so the scaled velocity is the square
/// root of 5 * p * SCALE / 3, floored.
pub open spec fn velsq_scaled(pa: int) -> int {
    5 * pa * (SCALE as int) / 3
}

/// ASCII lowercase of a byte.
pub open spec fn lower(b: u8) -> u8 {
    if 65 <= b && b <= 90 {
        (b + 32) as u8
    } else {
        b
    }
}

/// Whether the bytes spell "psi", ASCII-case-insensitively.
pub open spec fn is_psi_token(s: Seq<u8>) -> bool {
    s.len() == 3 && lower(s[0]) == 112 && lower(s[1]) == 115 && lower(s[2]) == 105
}

/// Whether the bytes spell "pa", ASCII-case-insensitively.
pub open spec fn is_pa_token(s: Seq<u8>) -> bool {
    s.len() == 2 && lower(s[0]) == 112 && lower(s[1]) == 97
}

/// The unit named by a token's bytes.
pub open spec fn unit_of_bytes(s: Seq<u8>) -> Units {
    if is_psi_token(s) {
        Units::Psi
    } else if is_pa_token(s) {
        Units::Pa
    } else {
        Units::NoInp
    }
}

/// ASCII lowercase of a byte (executable form).
fn lower_byte(b: u8) -> (r: u8)
    ensures
        r == lower(b),
{
    if b >= 65 && b <= 90 {
        b + 32
    } else {
        b
    }
}

/// Resolves an optional unit token, ASCII-case-insensitively; anything but
/// "psi" and "pa" resolves to `NoInp`.
pub fn unit_of_token(tok: Option<&str>) -> (r: Units)
    ensures
        r == match tok {
            Some(s) => unit_of_bytes(s.spec_bytes()),
            None => Units::NoInp,
        },
{
    match tok {
        None => Units::NoInp,
        Some(s) => {
            let bs: &[u8] = s.as_bytes();
            if bs.len() == 3 && lower_byte(bs[0]) == 112 && lower_byte(bs[1]) == 115 && lower_byte(
                bs[2],
            ) == 105 {
                Units::Psi
            } else if bs.len() == 2 && lower_byte(bs[0]) == 112 && lower_byte(bs[1]) == 97 {
                Units::Pa
            } else {
                Units::NoInp
            }
        },
    }
}

impl core::convert::From<Option<String>> for Units {
    /// Resolves an optional unit token, as `unit_of_token` does.
    fn from(opt: Option<String>) -> (r: Units) {
        match opt {
            Option::None => Units::NoInp,
            Option::Some(s) => unit_of_token(Some(s.as_str())),
        }
    }
}

impl vstd::std_specs::convert::FromSpecImpl<Option<String>> for Units {
    open spec fn obeys_from_spec() -> bool {
        true
    }

    open spec fn from_spec(opt: Option<String>) -> Units {
        match opt {
            Option::Some(s) => unit_of_bytes(vstd::utf8::encode_utf8(s@)),
            Option::None => Units::NoInp,
        }
    }
}

/// What a successful `from_mach` returns: the exact scaled velocity and the
/// floored scaled dynamic pressure, both of which fit the representation.
pub open spec fn mach_post(mach: Fixed, vel: Fixed, q: Fixed) -> bool {
    let vs = mach.value() * 343;
    &&& crate::fixed::iabs(vs) <= u64::MAX
    &&& dynp_scaled(vs) <= u64::MAX
    &&& vel == crate::fixed::spec_fixed(vs)
    &&& q == crate::fixed::spec_fixed(dynp_scaled(vs))
    &&& vel.wf()
    &&& q.wf()
}

/// What a successful `from_vel` returns: the truncated scaled Mach number and
/// the floored scaled dynamic pressure.
pub open spec fn vel_post(vel: Fixed, mach: Fixed, q: Fixed) -> bool {
    &&& dynp_scaled(vel.value()) <= u64::MAX
    &&& mach == crate::fixed::spec_fixed(mach_scaled(vel.value()))
    &&& q == crate::fixed::spec_fixed(dynp_scaled(vel.value()))
    &&& mach.wf()
    &&& q.wf()
}

/// What a successful `from_dynpress` returns: the pressure normalized to Pa,
/// the floored scaled velocity that gives it, and the truncated scaled Mach
/// number of that velocity.
pub open spec fn dynpress_post(p: Fixed, units: Units, mach: Fixed, vel: Fixed, pa: Fixed) -> bool {
    let pas = if units == Units::Psi {
        psi_to_pa_scaled(p.value())
    } else {
        p.value()
    };
    let vs = crate::fixed::sqrt_floor(velsq_scaled(pas));
    &&& p.value() >= 0
    &&& pas <= u64::MAX
    &&& mach == crate::fixed::spec_fixed(mach_scaled(vs))
    &&& vel == crate::fixed::spec_fixed(vs)
    &&& pa == crate::fixed::spec_fixed(pas)
    &&& mach.wf()
    &&& vel.wf()
    &&& pa.wf()
}

/// `dynp_scaled` of a velocity magnitude, or `None` when the result does not
/// fit the representation.
fn dynp_mag(vm: u64) -> (r: Option<u64>)
    ensures
        match r {
            Some(q) => q as int == dynp_scaled(vm as int) && dynp_scaled(vm as int) <= u64::MAX,
            None => dynp_scaled(vm as int) > u64::MAX,
        },
{
    proof {
        assert((vm as int) * (vm as int) <= (u64::MAX as int) * (u64::MAX as int))
            by (nonlinear_arith)
            requires
                0 <= vm <= u64::MAX,
        ;
    }
    let a: u128 = (vm as u128) * (vm as u128);
    let c: u128 = 50_000_000;
    let q0: u128 = a / c;
    let r0: u128 = a % c;
    proof {
        vstd::arithmetic::div_mod::lemma_div_is_ordered(
            a as int,
            (u64::MAX as int) * (u64::MAX as int),
            c as int,
        );
        assert(3 * (a as int) / (c as int) == 3 * (q0 as int) + (3 * (r0 as int)) / (c as int))
            by {
            vstd::arithmetic::div_mod::lemma_fundamental_div_mod(a as int, c as int);
            vstd::arithmetic::div_mod::lemma_fundamental_div_mod(3 * (r0 as int), c as int);
            assert(3 * (a as int) == (3 * (q0 as int) + (3 * (r0 as int)) / (c as int)) * (
            c as int) + (3 * (r0 as int)) % (c as int)) by (nonlinear_arith)
                requires
                    a as int == (c as int) * (q0 as int) + (r0 as int),
                    3 * (r0 as int) == (c as int) * ((3 * (r0 as int)) / (c as int)) + (3 * (
                    r0 as int)) % (c as int),
            ;
            vstd::arithmetic::div_mod::lemma_fundamental_div_mod_converse_div(
                3 * (a as int),
                c as int,
                3 * (q0 as int) + (3 * (r0 as int)) / (c as int),
                (3 * (r0 as int)) % (c as int),
            );
        }
        assert(3 * (vm as int) * (vm as int) == 3 * (a as int)) by (nonlinear_arith)
            requires
                a as int == (vm as int) * (vm as int),
        ;
        assert(dynp_scaled(vm as int) == 3 * (a as int) / (c as int));
    }
    let q: u128 = 3 * q0 + (3 * r0) / c;
    if q > u64::MAX as u128 {
        None
    } else {
        Some(q as u64)
    }
}

/// The `FromMach` conversion: velocity = mach * 343 (exact); dynamic
/// pressure = 0.5 * 1.2 * velocity^2, floored at the scale's resolution.
/// Fails only when a result does not fit the representation.
pub fn from_mach(mach: Fixed) -> (r: Result<(Fixed, Fixed), UconvError>)
    requires
        mach.wf(),
    ensures
        match r {
            Ok(res) => mach_post(mach, res.0, res.1),
            Err(e) => e == UconvError::TooLarge && (crate::fixed::iabs(mach.value() * 343)
                > u64::MAX || dynp_scaled(mach.value() * 343) > u64::MAX),
        },
{
    let vm128: u128 = (mach.mag as u128) * (SOUND_MS as u128);
    if vm128 > u64::MAX as u128 {
        proof {
            assert(crate::fixed::iabs(mach.value() * 343) == (mach.mag as int) * 343);
        }
        return Err(UconvError::TooLarge);
    }
    let vm: u64 = vm128 as u64;
    proof {
        assert(crate::fixed::iabs(mach.value() * 343) == vm as int);
        assert(dynp_scaled(mach.value() * 343) == dynp_scaled(vm as int)) by (nonlinear_arith)
            requires
                mach.value() * 343 == vm as int || mach.value() * 343 == -(vm as int),
        ;
    }
    match dynp_mag(vm) {
        None => Err(UconvError::TooLarge),
        Some(qm) => {
            let vel = Fixed::from_scaled(mach.is_negative(), vm);
            let q = Fixed::from_scaled(false, qm);
            proof {
                assert(vel == crate::fixed::spec_fixed(mach.value() * 343));
                assert(dynp_scaled(vm as int) >= 0) by {
                    vstd::arithmetic::div_mod::lemma_div_pos_is_pos(
                        3 * (vm as int) * (vm as int),
                        50_000_000,
                    );
                    assert(3 * (vm as int) * (vm as int) >= 0) by (nonlinear_arith);
                }
                assert(q == crate::fixed::spec_fixed(dynp_scaled(vm as int)));
            }
            Ok((vel, q))
        },
    }
}

/// The `FromVelocity` conversion: mach = velocity / 343 (toward zero, at the
/// scale's resolution); dynamic pressure = 0.5 * 1.2 * velocity^2, floored.
/// Fails only when the dynamic pressure does not fit the representation.
pub fn from_vel(vel: Fixed) -> (r: Result<(Fixed, Fixed), UconvError>)
    requires
        vel.wf(),
    ensures
        match r {
            Ok(res) => vel_post(vel, res.0, res.1),
            Err(e) => e == UconvError::TooLarge && dynp_scaled(vel.value()) > u64::MAX,
        },
{
    proof {
        assert(dynp_scaled(vel.value()) == dynp_scaled(vel.mag as int)) by (nonlinear_arith)
            requires
                vel.value() == vel.mag as int || vel.value() == -(vel.mag as int),
        ;
    }
    match dynp_mag(vel.mag) {
        None => Err(UconvError::TooLarge),
        Some(qm) => {
            let mm: u64 = vel.mag / SOUND_MS;
            let mach = Fixed::from_scaled(vel.is_negative(), mm);
            let q = Fixed::from_scaled(false, qm);
            proof {
                assert(mach == crate::fixed::spec_fixed(mach_scaled(vel.value())));
                assert(dynp_scaled(vel.mag as int) >= 0) by {
                    vstd::arithmetic::div_mod::lemma_div_pos_is_pos(
                        3 * (vel.mag as int) * (vel.mag as int),
                        50_000_000,
                    );
                    assert(3 * (vel.mag as int) * (vel.mag as int) >= 0) by (nonlinear_arith);
                }
                assert(q == crate::fixed::spec_fixed(dynp_scaled(vel.value())));
            }
            Ok((mach, q))
        },
    }
}

/// The `FromDynamicPressure` conversion: a PSI input is first converted to Pa
/// (floored at the scale's resolution); velocity = sqrt(2 * p / 1.2), floored;
/// mach = velocity / 343, floored. Returns (mach, velocity, pressure in Pa).
/// A negative pressure has no real velocity and is rejected; a PSI value whose
/// Pa equivalent does not fit the representation is rejected.
pub fn from_dynpress(p: Fixed, units: Units) -> (r: Result<(Fixed, Fixed, Fixed), UconvError>)
    requires
        p.wf(),
    ensures
        match r {
            Ok(res) => dynpress_post(p, units, res.0, res.1, res.2),
            Err(UconvError::NegativePressure) => p.value() < 0,
            Err(UconvError::TooLarge) => p.value() >= 0 && units == Units::Psi && psi_to_pa_scaled(
                p.value(),
            ) > u64::MAX,
            Err(UconvError::InvalidNumber) => false,
        },
{
    if p.is_negative() {
        return Err(UconvError::NegativePressure);
    }
    let pam: u64 = if units == Units::Psi {
        proof {
            assert((p.mag as int) * (PSI_PA_SCALED as int) <= (u64::MAX as int) * 68_947_572_932)
                by (nonlinear_arith)
                requires
                    p.mag <= u64::MAX,
                    PSI_PA_SCALED == 68_947_572_932,
            ;
        }
        let t: u128 = (p.mag as u128) * (PSI_PA_SCALED as u128) / (SCALE as u128);
        proof {
            assert(t as int == psi_to_pa_scaled(p.value()));
        }
        if t > u64::MAX as u128 {
            return Err(UconvError::TooLarge);
        }
        t as u64
    } else {
        p.mag
    };
    let n: u128 = 5 * (pam as u128) * (SCALE as u128) / 3;
    proof {
        assert(n as int == velsq_scaled(pam as int));
        assert(n < 0x1000000000000000000000000) by {
            vstd::arithmetic::div_mod::lemma_div_is_ordered(
                5 * (pam as int) * 10_000_000,
                5 * (u64::MAX as int) * 10_000_000,
                3,
            );
        }
    }
    let vm: u64 = crate::fixed::isqrt(n);
    let mm: u64 = vm / SOUND_MS;
    let mach = Fixed::from_scaled(false, mm);
    let vel = Fixed::from_scaled(false, vm);
    let pa = Fixed::from_scaled(false, pam);
    proof {
        assert(vm as int == crate::fixed::sqrt_floor(velsq_scaled(pam as int)));
        assert(mach == crate::fixed::spec_fixed(mach_scaled(vm as int)));
        assert(vel == crate::fixed::spec_fixed(vm as int));
        assert(pa == crate::fixed::spec_fixed(pam as int));
    }
    Ok((mach, vel, pa))
}

/// Round trip: the velocity that `from_mach` computes for a Mach number maps
/// back, through `from_vel`, to exactly that Mach number and to the same
/// dynamic pressure.
pub proof fn lemma_mach_vel_round_trip(m: Fixed, vel: Fixed, q: Fixed, mach2: Fixed, q2: Fixed)
    requires
        m.wf(),
        mach_post(m, vel, q),
        vel_post(vel, mach2, q2),
    ensures
        mach2 == m,
        q2 == q,
{
    let vs = m.value() * 343;
    crate::fixed::lemma_spec_fixed_value(vs);
    assert(vel.value() == vs);
    if m.value() >= 0 {
        vstd::arithmetic::div_mod::lemma_div_by_multiple(m.value(), 343);
        assert(mach_scaled(vs) == m.value());
    } else {
        assert(-vs == (-m.value()) * 343) by (nonlinear_arith)
            requires
                vs == m.value() * 343,
        ;
        vstd::arithmetic::div_mod::lemma_div_by_multiple(-m.value(), 343);
        assert(mach_scaled(vs) == m.value());
    }
    crate::fixed::lemma_fixed_eq_value(mach2, m);
}

/// Round trip: the Mach number that `from_vel` computes for a nonnegative
/// velocity maps back, through `from_mach`, to a velocity that differs from
/// the original by less than 343 scaled units (less than 3.43e-5 m/s).
pub proof fn lemma_vel_mach_round_trip(v: Fixed, mach: Fixed, q: Fixed, vel2: Fixed, q2: Fixed)
    requires
        v.wf(),
        v.value() >= 0,
        vel_post(v, mach, q),
        mach_post(mach, vel2, q2),
    ensures
        vel2.value() <= v.value() < vel2.value() + 343,
{
    let ms = mach_scaled(v.value());
    assert(ms == v.value() / 343);
    vstd::arithmetic::div_mod::lemma_div_nonincreasing(v.value(), 343);
    vstd::arithmetic::div_mod::lemma_div_pos_is_pos(v.value(), 343);
    crate::fixed::lemma_spec_fixed_value(ms);
    assert(mach.value() == ms);
    vstd::arithmetic::div_mod::lemma_fundamental_div_mod(v.value(), 343);
    assert(v.value() == 343 * ms + v.value() % 343);
    crate::fixed::lemma_spec_fixed_value(mach.value() * 343);
    assert(vel2.value() == ms * 343);
}

/// Unit conversion: a pressure given in PSI produces through `from_dynpress`
/// exactly the same Mach number, velocity, and Pa pressure as its Pa
/// equivalent does.
pub proof fn lemma_psi_matches_pa(
    p: Fixed,
    conv: Fixed,
    mach1: Fixed,
    vel1: Fixed,
    pa1: Fixed,
    mach2: Fixed,
    vel2: Fixed,
    pa2: Fixed,
)
    requires
        p.wf(),
        conv.wf(),
        conv.value() == psi_to_pa_scaled(p.value()),
        dynpress_post(p, Units::Psi, mach1, vel1, pa1),
        dynpress_post(conv, Units::Pa, mach2, vel2, pa2),
    ensures
        mach1 == mach2,
        vel1 == vel2,
        pa1 == pa2,
{
}

/// Round trip: for a pressure already in Pa, `from_dynpress` then `from_mach`
/// on the resulting Mach number reconstructs a dynamic pressure that never
/// exceeds the input and falls short of it by at most
/// (2058 * vel + 2) / 50000000 + 1 scaled units, where vel is the scaled
/// velocity of the first call: about 4.2e-5 Pa per m/s of velocity.
pub proof fn lemma_dynpress_round_trip(
    p: Fixed,
    mach: Fixed,
    vel: Fixed,
    pa: Fixed,
    vel2: Fixed,
    q2: Fixed,
)
    requires
        p.wf(),
        dynpress_post(p, Units::Pa, mach, vel, pa),
        mach_post(mach, vel2, q2),
    ensures
        q2.value() <= p.value(),
        p.value() - q2.value() <= (2058 * vel.value() + 2) / 50_000_000 + 1,
{
    let pv = p.value();
    let c = 50_000_000int;
    let n = velsq_scaled(pv);
    assert(5 * pv * 10_000_000 == pv * c) by (nonlinear_arith)
        requires
            c == 50_000_000int,
    ;
    vstd::arithmetic::div_mod::lemma_div_pos_is_pos(pv * c, 3);
    crate::fixed::lemma_sqrt_floor_exists(n);
    let vs = crate::fixed::sqrt_floor(n);
    assert(crate::fixed::is_sqrt_floor(n, vs));
    // The scaled velocity fits in u64.
    assert(3 * n <= pv * c) by {
        vstd::arithmetic::div_mod::lemma_fundamental_div_mod(pv * c, 3);
    }
    assert(pv <= u64::MAX);
    assert(n <= pv * c <= (u64::MAX as int) * c) by {
        vstd::arithmetic::mul::lemma_mul_inequality(pv, u64::MAX as int, c);
    }
    assert(vs <= 0x1000000000000) by {
        if vs > 0x1000000000000 {
            assert(vs * vs > (u64::MAX as int) * c) by (nonlinear_arith)
                requires
                    vs > 0x1000000000000,
                    c == 50_000_000int,
            ;
        }
    }
    crate::fixed::lemma_spec_fixed_value(vs);
    assert(vel.value() == vs);
    // The truncated velocity returned through the Mach number.
    let ms = mach_scaled(vs);
    assert(ms == vs / 343);
    vstd::arithmetic::div_mod::lemma_div_nonincreasing(vs, 343);
    vstd::arithmetic::div_mod::lemma_div_pos_is_pos(vs, 343);
    crate::fixed::lemma_spec_fixed_value(ms);
    assert(mach.value() == ms);
    vstd::arithmetic::div_mod::lemma_fundamental_div_mod(vs, 343);
    let r = vs % 343;
    let vp = ms * 343;
    assert(vs == 343 * ms + r && 0 <= r < 343);
    assert(vp == vs - r);
    crate::fixed::lemma_spec_fixed_value(mach.value() * 343);
    assert(vel2.value() == vp);
    assert(q2.value() == dynp_scaled(vp)) by {
        crate::fixed::lemma_spec_fixed_value(dynp_scaled(vp));
        assert(dynp_scaled(vp) >= 0) by {
            assert(3 * vp * vp >= 0) by (nonlinear_arith);
            vstd::arithmetic::div_mod::lemma_div_pos_is_pos(3 * vp * vp, c);
        }
    }
    // Upper bound: the reconstruction never exceeds the input.
    assert(3 * vp * vp <= 3 * vs * vs) by (nonlinear_arith)
        requires
            0 <= vp <= vs,
    ;
    assert(3 * vs * vs <= 3 * n) by (nonlinear_arith)
        requires
            vs * vs <= n,
    ;
    assert(dynp_scaled(vp) <= (pv * c) / c) by {
        vstd::arithmetic::div_mod::lemma_div_is_ordered(3 * vp * vp, pv * c, c);
    }
    assert((pv * c) / c == pv) by {
        vstd::arithmetic::div_mod::lemma_div_by_multiple(pv, c);
    }
    // Lower bound: how much the two floors and the truncation can lose.
    let y = 2058 * vs + 2;
    assert(3 * vp * vp >= pv * c - y) by {
        assert(3 * vp * vp >= 3 * vs * vs - 2052 * vs) by (nonlinear_arith)
            requires
                vp == vs - r,
                0 <= r < 343,
                vs >= 0,
        ;
        assert(n <= vs * vs + 2 * vs) by (nonlinear_arith)
            requires
                n < (vs + 1) * (vs + 1),
        ;
        assert(3 * n >= pv * c - 2) by {
            vstd::arithmetic::div_mod::lemma_fundamental_div_mod(pv * c, 3);
        }
        assert(3 * vs * vs >= 3 * n - 6 * vs) by (nonlinear_arith)
            requires
                n <= vs * vs + 2 * vs,
        ;
    }
    let k = y / c;
    vstd::arithmetic::div_mod::lemma_fundamental_div_mod(y, c);
    assert(y <= k * c + c - 1);
    assert(pv * c - y >= (pv - k - 1) * c + 1) by (nonlinear_arith)
        requires
            y <= k * c + c - 1,
    ;
    assert(dynp_scaled(vp) >= ((pv - k - 1) * c) / c) by {
        vstd::arithmetic::div_mod::lemma_div_is_ordered((pv - k - 1) * c, 3 * vp * vp, c);
    }
    assert(((pv - k - 1) * c) / c == pv - k - 1) by {
        vstd::arithmetic::mul::lemma_mul_is_commutative(pv - k - 1, c);
        vstd::arithmetic::div_mod::lemma_div_multiples_vanish(pv - k - 1, c);
    }
}

} // verus!
