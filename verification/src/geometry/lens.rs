//! Lens models.
//!
//! A camera in a ceiling corner is often a wide one, and a wide lens does not
//! obey the pinhole model. The lens model is per camera, because a room is
//! likely to mix an ordinary webcam with a wide one.

use vstd::prelude::*;

use crate::config::camera::LensKind;
use crate::scalar::Scalar;

verus! {

/// Distortion parameters, in the form matching the camera's lens kind.
#[derive(Debug, Clone, Copy, PartialEq, Eq, Structural)]
pub enum Lens {
    /// Radial and tangential distortion, for ordinary and moderately wide
    /// lenses.
    RadialTangential { k1: Scalar, k2: Scalar, p1: Scalar, p2: Scalar },
    /// Equidistant projection, for lenses past roughly 120 degrees, where the
    /// radial model can no longer be fitted.
    Fisheye { k1: Scalar, k2: Scalar, k3: Scalar, k4: Scalar },
}

/// No distortion coefficient.
pub open spec fn zero() -> Scalar {
    Scalar { bits: 0 }
}

impl Default for Lens {
    fn default() -> (lens: Self)
        ensures
            lens == (Lens::RadialTangential { k1: zero(), k2: zero(), p1: zero(), p2: zero() }),
    {
        let nothing: Scalar = Scalar::from_bits(0);
        Lens::RadialTangential { k1: nothing, k2: nothing, p1: nothing, p2: nothing }
    }
}

impl Lens {
    /// A zeroed lens of the shape a camera's configured kind calls for.
    pub fn for_kind(kind: LensKind) -> (lens: Self)
        ensures
            lens == match kind {
                LensKind::Fisheye => Lens::Fisheye {
                    k1: zero(),
                    k2: zero(),
                    k3: zero(),
                    k4: zero(),
                },
                _ => Lens::RadialTangential { k1: zero(), k2: zero(), p1: zero(), p2: zero() },
            },
    {
        let nothing: Scalar = Scalar::from_bits(0);
        match kind {
            LensKind::Standard | LensKind::Wide => Lens::default(),
            LensKind::Fisheye => Lens::Fisheye { k1: nothing, k2: nothing, k3: nothing, k4: nothing },
        }
    }

    /// The free parameters, in order.
    pub open spec fn values(self) -> Seq<Scalar> {
        match self {
            Lens::RadialTangential { k1, k2, p1, p2 } => seq![k1, k2, p1, p2],
            Lens::Fisheye { k1, k2, k3, k4 } => seq![k1, k2, k3, k4],
        }
    }

    /// Whether all the parameters are zero, of either sign.
    pub fn is_identity(&self) -> (identity: bool)
        ensures
            identity == forall|i: int| 0 <= i < 4 ==> (#[trigger] self.values()[i]).units() == 0,
    {
        let (a, b, c, d): (Scalar, Scalar, Scalar, Scalar) = match self {
            Lens::RadialTangential { k1, k2, p1, p2 } => (*k1, *k2, *p1, *p2),
            Lens::Fisheye { k1, k2, k3, k4 } => (*k1, *k2, *k3, *k4),
        };
        let identity: bool = a.is_zero() && b.is_zero() && c.is_zero() && d.is_zero();
        proof {
            let all = self.values();
            assert(all[0] == a && all[1] == b && all[2] == c && all[3] == d);
        }
        identity
    }

    /// The free parameters, for the calibration solver.
    pub fn parameters(&self) -> (values: [Scalar; 4])
        ensures
            values@ == self.values(),
    {
        let values: [Scalar; 4] = match self {
            Lens::RadialTangential { k1, k2, p1, p2 } => [*k1, *k2, *p1, *p2],
            Lens::Fisheye { k1, k2, k3, k4 } => [*k1, *k2, *k3, *k4],
        };
        assert(values@ =~= self.values());
        values
    }

    /// A lens of the same kind with other parameters.
    pub open spec fn changed(self, values: Seq<Scalar>) -> Lens {
        match self {
            Lens::RadialTangential { .. } => Lens::RadialTangential {
                k1: values[0],
                k2: values[1],
                p1: values[2],
                p2: values[3],
            },
            Lens::Fisheye { .. } => Lens::Fisheye {
                k1: values[0],
                k2: values[1],
                k3: values[2],
                k4: values[3],
            },
        }
    }

    /// A lens of the same kind with other parameters.
    pub fn with_parameters(&self, values: [Scalar; 4]) -> (lens: Self)
        ensures
            lens == self.changed(values@),
    {
        match self {
            Lens::RadialTangential { .. } => Lens::RadialTangential {
                k1: values[0],
                k2: values[1],
                p1: values[2],
                p2: values[3],
            },
            Lens::Fisheye { .. } => Lens::Fisheye {
                k1: values[0],
                k2: values[1],
                k3: values[2],
                k4: values[3],
            },
        }
    }
}

/// The parameters handed to the solver and back are the lens again, and what is
/// put in is what is read out.
pub proof fn parameters_round_trip(lens: Lens, values: Seq<Scalar>)
    requires
        values.len() == 4,
    ensures
        lens.changed(lens.values()) == lens,
        lens.changed(values).values() == values,
{
    assert(lens.changed(values).values() =~= values);
}

/// The parameters of a lens stand in the order they are named in, the radial ones first.
pub proof fn the_radial_parameters_come_first(a: Scalar, b: Scalar, c: Scalar, d: Scalar)
    ensures
        ({
            let plain = Lens::RadialTangential { k1: a, k2: b, p1: c, p2: d }.values();
            let wide = Lens::Fisheye { k1: a, k2: b, k3: c, k4: d }.values();
            &&& plain.len() == 4 && wide == plain
            &&& plain[0] == a && plain[1] == b && plain[2] == c && plain[3] == d
        }),
{
}

} // verus!
