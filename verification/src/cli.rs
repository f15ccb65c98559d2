//! The typed request and the dispatcher that renders a result line.

use vstd::prelude::*;
use vstd::string::StringExecFns;
use crate::UconvError;
use crate::convert::Units;
use crate::convert::dynp_scaled;
use crate::convert::mach_scaled;
use crate::convert::psi_to_pa_scaled;
use crate::convert::velsq_scaled;
use crate::fixed::Fixed;
use crate::fixed::iabs;
use crate::fixed::spec_fixed;
use crate::fixed::sqrt_floor;
use crate::text::fixed2;

verus! {

/// A conversion request: which quantity is known, its value, and (for dynamic
/// pressure) the unit it is given in.
#[derive(Clone, Copy, PartialEq, Eq, Structural, Debug)]
pub enum Commands {
    /// Calculate velocity and dynamic pressure from a Mach number.
    Mach { value: Fixed },
    /// Calculate Mach and dynamic pressure from a velocity in m/s.
    Vel { value: Fixed },
    /// Calculate Mach and velocity from a dynamic pressure.
    DynPress { value: Fixed, units: Units },
}

impl Commands {
    /// The value carried by the request is normalized.
    pub open spec fn wf(self) -> bool {
        match self {
            Commands::Mach { value } => value.wf(),
            Commands::Vel { value } => value.wf(),
            Commands::DynPress { value, .. } => value.wf(),
        }
    }
}

/// A parsed invocation.
#[derive(Clone, Copy, PartialEq, Eq, Structural, Debug)]
pub struct Args {
    pub command: Commands,
}

/// The result line for a Mach request.
pub open spec fn mach_line(vel: Fixed, q: Fixed) -> Seq<char> {
    "Velocity is "@ + fixed2(vel) + " m/s and Dynamic Pressure is "@ + fixed2(q) + " Pa"@
}

/// The result line for a velocity request.
pub open spec fn vel_line(mach: Fixed, q: Fixed) -> Seq<char> {
    "Mach is "@ + fixed2(mach) + " and Dynamic Pressure is "@ + fixed2(q) + " Pa"@
}

/// The result line for a dynamic-pressure request.
pub open spec fn dynpress_line(mach: Fixed, vel: Fixed, pa: Fixed) -> Seq<char> {
    "Mach is "@ + fixed2(mach) + ", Velocity is "@ + fixed2(vel)
        + " m/s, and Dynamic Pressure is "@ + fixed2(pa) + " Pa"@
}

/// Dispatches a request to its conversion and renders the one-line result.
pub fn run(args: Args) -> (r: Result<String, UconvError>)
    requires
        args.command.wf(),
    ensures
        match args.command {
            Commands::Mach { value } => {
                let vs = value.value() * 343;
                if iabs(vs) <= u64::MAX && dynp_scaled(vs) <= u64::MAX {
                    r is Ok && r->Ok_0@ == mach_line(spec_fixed(vs), spec_fixed(dynp_scaled(vs)))
                } else {
                    r == Result::<String, UconvError>::Err(UconvError::TooLarge)
                }
            },
            Commands::Vel { value } => {
                let vs = value.value();
                if dynp_scaled(vs) <= u64::MAX {
                    r is Ok && r->Ok_0@ == vel_line(
                        spec_fixed(mach_scaled(vs)),
                        spec_fixed(dynp_scaled(vs)),
                    )
                } else {
                    r == Result::<String, UconvError>::Err(UconvError::TooLarge)
                }
            },
            Commands::DynPress { value, units } => {
                let pas = if units == Units::Psi {
                    psi_to_pa_scaled(value.value())
                } else {
                    value.value()
                };
                let vs = sqrt_floor(velsq_scaled(pas));
                if value.value() < 0 {
                    r == Result::<String, UconvError>::Err(UconvError::NegativePressure)
                } else if units == Units::Psi && psi_to_pa_scaled(value.value()) > u64::MAX {
                    r == Result::<String, UconvError>::Err(UconvError::TooLarge)
                } else {
                    r is Ok && r->Ok_0@ == dynpress_line(
                        spec_fixed(mach_scaled(vs)),
                        spec_fixed(vs),
                        spec_fixed(pas),
                    )
                }
            },
        },
{
    match args.command {
        Commands::Mach { value } => {
            match crate::convert::from_mach(value) {
                Err(e) => Err(e),
                Ok((vel, q)) => {
                    let mut line = String::from_str("Velocity is ");
                    line.append(crate::text::render_fixed2(&vel).as_str());
                    line.append(" m/s and Dynamic Pressure is ");
                    line.append(crate::text::render_fixed2(&q).as_str());
                    line.append(" Pa");
                    proof {
                        assert(line@ =~= mach_line(vel, q));
                    }
                    Ok(line)
                },
            }
        },
        Commands::Vel { value } => {
            match crate::convert::from_vel(value) {
                Err(e) => Err(e),
                Ok((mach, q)) => {
                    let mut line = String::from_str("Mach is ");
                    line.append(crate::text::render_fixed2(&mach).as_str());
                    line.append(" and Dynamic Pressure is ");
                    line.append(crate::text::render_fixed2(&q).as_str());
                    line.append(" Pa");
                    proof {
                        assert(line@ =~= vel_line(mach, q));
                    }
                    Ok(line)
                },
            }
        },
        Commands::DynPress { value, units } => {
            match crate::convert::from_dynpress(value, units) {
                Err(e) => Err(e),
                Ok((mach, vel, pa)) => {
                    let mut line = String::from_str("Mach is ");
                    line.append(crate::text::render_fixed2(&mach).as_str());
                    line.append(", Velocity is ");
                    line.append(crate::text::render_fixed2(&vel).as_str());
                    line.append(" m/s, and Dynamic Pressure is ");
                    line.append(crate::text::render_fixed2(&pa).as_str());
                    line.append(" Pa");
                    proof {
                        assert(line@ =~= dynpress_line(mach, vel, pa));
                    }
                    Ok(line)
                },
            }
        },
    }
}

/// The usage synopsis.
pub open spec fn help_text() -> Seq<char> {
    "usage: uconv <COMMAND>\n  mach --value <NUMBER>\n  vel --value <NUMBER>\n  dynpress --value <NUMBER> [--units <Pa|PSI>]\n"@
}

/// The usage synopsis, for a caller to print when a request cannot be parsed.
pub fn help() -> (s: String)
    ensures
        s@ == help_text(),
{
    String::from_str(
        "usage: uconv <COMMAND>\n  mach --value <NUMBER>\n  vel --value <NUMBER>\n  dynpress --value <NUMBER> [--units <Pa|PSI>]\n",
    )
}

} // verus!
