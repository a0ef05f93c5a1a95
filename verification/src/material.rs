//! What a surface does with a ray that meets it.

use vstd::prelude::*;

verus! {

/// The kinds of surface.
#[derive(Clone, Copy, Debug, PartialEq, Eq, Structural)]
pub enum Surface {
    /// Matte: sends every ray on, into a direction drawn around the normal.
    Lambertian,
    /// Mirror with a blur: sends the ray on where the blurred mirror
    /// direction leaves the surface, and swallows it where it does not.
    Metal,
    /// Glass: sends every ray on, mirrored or bent.
    Dielectric,
}

/// What was found where a ray met a surface, as far as the outcome hangs on
/// it. A field that the kind of surface does not ask for may hold anything.
#[derive(Clone, Copy, Debug, PartialEq, Eq, Structural)]
pub struct Incidence {
    /// Metal: the blurred mirror direction points away from the surface, to
    /// the side of the normal.
    pub leaves_surface: bool,
    /// Dielectric: the ray comes in too flat to be bent through the surface.
    pub total_reflection: bool,
    /// Dielectric: the draw against the reflectance chose the mirror.
    pub reflectance_drawn: bool,
}

/// The outcome of one meeting of ray and surface.
#[derive(Clone, Copy, Debug, PartialEq, Eq, Structural)]
pub enum Outcome {
    /// The ray goes on in a direction drawn around the normal.
    Diffuse,
    /// The ray goes on in the mirror direction.
    Reflect,
    /// The ray goes on through the surface, bent.
    Refract,
    /// The ray ends here.
    Absorb,
}

impl Outcome {
    /// Whether a ray goes on after this outcome.
    pub open spec fn spec_scatters(self) -> bool {
        self != Outcome::Absorb
    }

    /// Whether a ray goes on after this outcome.
    pub fn scatters(self) -> (r: bool)
        ensures
            r == self.spec_scatters(),
    {
        match self {
            Outcome::Absorb => false,
            _ => true,
        }
    }
}

impl Surface {
    /// The outcome by kind of surface. A matte surface scatters diffusely
    /// whatever was found. Metal mirrors the ray if the mirror direction
    /// leaves the surface and absorbs it otherwise. Glass mirrors the ray if
    /// it cannot be bent or the draw chose the mirror, and bends it otherwise.
    pub open spec fn spec_scatter(self, at: Incidence) -> Outcome {
        match self {
            Surface::Lambertian => Outcome::Diffuse,
            Surface::Metal => if at.leaves_surface {
                Outcome::Reflect
            } else {
                Outcome::Absorb
            },
            Surface::Dielectric => if at.total_reflection || at.reflectance_drawn {
                Outcome::Reflect
            } else {
                Outcome::Refract
            },
        }
    }

    /// The outcome of a ray meeting a surface of this kind. Only metal ever
    /// absorbs, and it does so exactly when the mirror direction does not
    /// leave the surface.
    pub fn scatter(self, at: Incidence) -> (r: Outcome)
        ensures
            r == self.spec_scatter(at),
            r == Outcome::Absorb <==> self == Surface::Metal && !at.leaves_surface,
    {
        match self {
            Surface::Lambertian => Outcome::Diffuse,
            Surface::Metal => {
                if at.leaves_surface {
                    Outcome::Reflect
                } else {
                    Outcome::Absorb
                }
            },
            Surface::Dielectric => {
                if at.total_reflection || at.reflectance_drawn {
                    Outcome::Reflect
                } else {
                    Outcome::Refract
                }
            },
        }
    }
}

/// Matte surfaces and glass never absorb: whatever was found where the ray
/// met them, the ray goes on.
pub proof fn lemma_never_absorbs(kind: Surface, at: Incidence)
    requires
        kind != Surface::Metal,
    ensures
        kind.spec_scatter(at).spec_scatters(),
{
}

/// Metal absorbs exactly the rays whose mirror direction does not leave the
/// surface.
pub proof fn lemma_metal_absorbs(at: Incidence)
    ensures
        Surface::Metal.spec_scatter(at) == Outcome::Absorb <==> !at.leaves_surface,
{
}

} // verus!
