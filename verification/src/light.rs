//! The decisions of the light model: whether a point lies in shadow of a
//! light, and which term of the light then scales its color.

use crate::binary64::{
    decode, in_reach, is_below_zero, lemma_in_reach_is_between, less, INFINITY, ONE, ZERO,
};
use crate::scene::any_in_reach;
use vstd::prelude::*;

verus! {

/// The kinds of light source.
#[derive(Clone, Copy, Debug, PartialEq, Eq)]
pub enum LightKind {
    /// A directional light at infinity.
    Sun,
    /// A light at a position; its shadow ray runs from the shaded point to
    /// that position and reaches it at parameter one.
    SpotLight,
}

/// The term of a light that scales the color of a point.
#[derive(Clone, Copy, Debug, PartialEq, Eq)]
pub enum LightTerm {
    /// The point gets the ambient level only.
    Ambient,
    /// The point gets the full intensity of the light.
    Intensity,
}

impl LightKind {
    /// The parameter before which an intersection of the shadow ray hides
    /// the light: none for the sun, the light's own position for a spot
    /// light.
    pub open spec fn shadow_bound_spec(&self) -> u64 {
        match self {
            LightKind::Sun => INFINITY,
            LightKind::SpotLight => ONE,
        }
    }

    /// The parameter before which an intersection of the shadow ray hides
    /// the light.
    #[verifier::when_used_as_spec(shadow_bound_spec)]
    pub fn shadow_bound(&self) -> (bound: u64)
        ensures
            bound == self.shadow_bound_spec(),
    {
        match self {
            LightKind::Sun => INFINITY,
            LightKind::SpotLight => ONE,
        }
    }

    /// The term by which a light of this kind scales the color of a point.
    /// `intersections[k]` holds the parameters at which the shadow ray from
    /// the point meets object `k`, and `cos_theta` is the cosine of the angle
    /// between the surface normal and the direction to the light, all as
    /// binary64 patterns.  A surface with a cosine below zero faces away
    /// from the light.
    pub fn illumination_term(&self, intersections: &Vec<Vec<u64>>, cos_theta: u64) -> (term:
        LightTerm)
        ensures
            term == light_term_spec(
                any_in_reach(intersections.deep_view(), self.shadow_bound_spec()),
                less(decode(cos_theta), decode(ZERO)),
            ),
    {
        let shadow = there_is_shadow(intersections, self.shadow_bound());
        light_term(shadow, is_below_zero(cos_theta))
    }
}

/// Tells whether anything hides a light from a point: whether the shadow
/// ray meets some object at a parameter in reach of `upper_bound`.
pub fn there_is_shadow(intersections: &Vec<Vec<u64>>, upper_bound: u64) -> (shadow: bool)
    ensures
        shadow == any_in_reach(intersections.deep_view(), upper_bound),
{
    let ghost world = intersections.deep_view();
    let mut i: usize = 0;
    while i < intersections.len()
        invariant
            i <= intersections.len(),
            world == intersections.deep_view(),
            forall|a: int, b: int|
                0 <= a < i && 0 <= b < world[a].len() ==> !in_reach(
                    #[trigger] world[a][b],
                    upper_bound,
                ),
        decreases intersections.len() - i,
    {
        let t_s = &intersections[i];
        assert(world[i as int] == t_s@);
        let mut j: usize = 0;
        while j < t_s.len()
            invariant
                i < intersections.len(),
                j <= t_s.len(),
                world == intersections.deep_view(),
                world[i as int] == t_s@,
                forall|b: int| 0 <= b < j ==> !in_reach(#[trigger] t_s@[b], upper_bound),
            decreases t_s.len() - j,
        {
            let t: u64 = t_s[j];
            if 0 < t && t < upper_bound {
                assert(in_reach(world[i as int][j as int], upper_bound));
                return true;
            }
            j += 1;
        }
        i += 1;
    }
    false
}

/// The term that scales the color: the ambient level where the point is in
/// shadow or its surface faces away from the light, else the full intensity.
pub open spec fn light_term_spec(shadow: bool, facing_away: bool) -> LightTerm {
    if shadow || facing_away {
        LightTerm::Ambient
    } else {
        LightTerm::Intensity
    }
}

/// Chooses the term that scales the color of a point.
#[verifier::when_used_as_spec(light_term_spec)]
pub fn light_term(shadow: bool, facing_away: bool) -> (term: LightTerm)
    ensures
        term == light_term_spec(shadow, facing_away),
{
    if shadow || facing_away {
        LightTerm::Ambient
    } else {
        LightTerm::Intensity
    }
}

/// A point is in shadow exactly if the shadow ray meets some object at a
/// parameter that is a number above zero and below the bound, for a bound
/// that encodes a positive number or positive infinity.
pub proof fn lemma_shadow_is_between(world: Seq<Seq<u64>>, bound: u64)
    requires
        0 < bound <= INFINITY,
    ensures
        any_in_reach(world, bound) <==> exists|i: int, j: int|
            0 <= i < world.len() && 0 <= j < world[i].len() && less(
                decode(ZERO),
                decode(#[trigger] world[i][j]),
            ) && less(decode(world[i][j]), decode(bound)),
{
    assert forall|i: int, j: int| 0 <= i < world.len() && 0 <= j < world[i].len() implies (in_reach(
        #[trigger] world[i][j],
        bound,
    ) <==> less(decode(ZERO), decode(world[i][j])) && less(decode(world[i][j]), decode(bound))) by {
        lemma_in_reach_is_between(world[i][j], bound);
    }
}

/// A sun that some object hides lights a point by its ambient term only,
/// whatever the cosine: it is enough that the shadow ray meets one object at
/// a parameter that is a finite number above zero.
pub proof fn lemma_hidden_sun_is_ambient(world: Seq<Seq<u64>>, i: int, j: int, cos_theta: u64)
    requires
        0 <= i < world.len(),
        0 <= j < world[i].len(),
        less(decode(ZERO), decode(world[i][j])),
        less(decode(world[i][j]), decode(INFINITY)),
    ensures
        any_in_reach(world, LightKind::Sun.shadow_bound_spec()),
        light_term_spec(
            any_in_reach(world, LightKind::Sun.shadow_bound_spec()),
            less(decode(cos_theta), decode(ZERO)),
        ) == LightTerm::Ambient,
{
    lemma_in_reach_is_between(world[i][j], INFINITY);
}

} // verus!
