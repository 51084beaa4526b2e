use vstd::prelude::*;

use crate::shading::Action;
use crate::shading::Interaction;
use crate::shading::Terminal;
use crate::shading::TraceView;
use crate::shading::next_action;
use crate::shading::next_view;
use crate::shading::trace_wf;

verus! {

/// What a ray does at the surface of a dielectric.
#[derive(Clone, Copy, PartialEq, Eq, Structural, Debug)]
pub enum Bounce {
    Reflect,
    Refract,
}

/// A dielectric reflects under total internal reflection (the refraction
/// discriminant is negative), and otherwise where the uniform draw falls
/// below the Schlick reflectance; else it refracts.
pub open spec fn dielectric_bounce_of(total_internal: bool, draw_below_reflectance: bool) -> Bounce {
    if total_internal || draw_below_reflectance {
        Bounce::Reflect
    } else {
        Bounce::Refract
    }
}

pub fn dielectric_bounce(total_internal: bool, draw_below_reflectance: bool) -> (r: Bounce)
    ensures
        r == dielectric_bounce_of(total_internal, draw_below_reflectance),
{
    if total_internal {
        Bounce::Reflect
    } else if draw_below_reflectance {
        Bounce::Reflect
    } else {
        Bounce::Refract
    }
}

/// A metal absorbs a ray whose perturbed reflection points into the surface
/// (its dot product with the normal is not positive), and otherwise scatters
/// it along that reflection, tinted by its texture.
pub open spec fn metal_interaction_of<C, R>(into_surface: bool, tint: C, reflected: R) -> Interaction<
    C,
    R,
> {
    if into_surface {
        Interaction::Absorbed
    } else {
        Interaction::Scattered(tint, reflected)
    }
}

pub fn metal_interaction<C, R>(into_surface: bool, tint: C, reflected: R) -> (r: Interaction<C, R>)
    ensures
        r == metal_interaction_of(into_surface, tint, reflected),
{
    if into_surface {
        Interaction::Absorbed
    } else {
        Interaction::Scattered(tint, reflected)
    }
}

/// Beyond the critical angle a dielectric reflects whatever the random draw.
pub proof fn lemma_total_internal_reflection(draw_below_reflectance: bool)
    ensures
        dielectric_bounce_of(true, draw_below_reflectance) == Bounce::Reflect,
{
}

/// A metal whose perturbed reflection points into the surface ends the path
/// in black, with nothing more traced and no attenuation added.
pub proof fn lemma_metal_absorption<C, R>(v: TraceView<C>, tint: C, reflected: R)
    requires
        trace_wf(v),
        v.finished is None,
    ensures
        next_action(v, metal_interaction_of(true, tint, reflected)) == Action::<C, R>::Finish(
            Terminal::Black,
        ),
        next_view(v, metal_interaction_of(true, tint, reflected)).attenuations == v.attenuations,
{
}

} // verus!
