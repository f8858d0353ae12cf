//! What a scene is made of, as far as integers and decisions go: the pixel
//! grid of the camera and the layout of its screen, the kinds of object, and
//! the intersections of a ray with the objects.

use crate::binary64::{
    decode, equal, in_reach, is_zero, lemma_in_reach_is_between, less, INFINITY, ZERO,
};
use crate::quadratics::{Quadratic, QuadraticRoots};
use vstd::prelude::*;

verus! {

/// Why a scene cannot be set up.
#[derive(Clone, Copy, Debug, PartialEq, Eq)]
pub enum ConfigError {
    /// The screen has no columns.
    ZeroWidth,
    /// The screen has columns but no rows.
    ZeroHeight,
    /// A direction has no unit vector: its length is zero, infinite or no
    /// number.
    NoDirection,
}

/// Accepts the length of a direction that has a unit vector: a finite number
/// above zero, given as its binary64 pattern.
pub fn check_direction(length: u64) -> (checked: Result<(), ConfigError>)
    ensures
        checked is Ok <==> less(decode(ZERO), decode(length)) && less(
            decode(length),
            decode(INFINITY),
        ),
        checked is Err ==> checked == Err::<(), ConfigError>(ConfigError::NoDirection),
{
    proof {
        lemma_in_reach_is_between(length, INFINITY);
    }
    if 0 < length && length < INFINITY {
        Ok(())
    } else {
        Err(ConfigError::NoDirection)
    }
}

/// How a camera lays out the steps of its screen.
#[derive(Clone, Copy, Debug, PartialEq, Eq)]
pub enum ScreenBasis {
    /// The steps run along fixed axes: the horizontal one against the y
    /// axis, the vertical one along it.
    Fixed,
    /// The steps are turned with the view direction: both are at right
    /// angles to it, the horizontal one level.
    Turned,
}

/// Chooses the layout of the screen by the y component of the view
/// direction, given as its binary64 pattern: fixed where that component is
/// zero, turned with the direction everywhere else.
pub fn screen_basis(dir_y: u64) -> (basis: ScreenBasis)
    ensures
        equal(decode(dir_y), decode(ZERO)) ==> basis == ScreenBasis::Fixed,
        !equal(decode(dir_y), decode(ZERO)) ==> basis == ScreenBasis::Turned,
{
    if is_zero(dir_y) {
        ScreenBasis::Fixed
    } else {
        ScreenBasis::Turned
    }
}

/// The pixel grid of a camera: at least one column and one row.
#[derive(Clone, Copy, Debug, PartialEq, Eq)]
pub struct Screen {
    width: u16,
    height: u16,
}

impl Screen {
    #[verifier::type_invariant]
    spec fn has_pixels(self) -> bool {
        self.width > 0 && self.height > 0
    }

    /// The number of columns.
    pub closed spec fn spec_width(&self) -> u16 {
        self.width
    }

    /// The number of rows.
    pub closed spec fn spec_height(&self) -> u16 {
        self.height
    }

    /// The offset of pixel `(x, y)` from the middle of the screen, in pixel
    /// steps: columns count to the right, rows count upward, so the row
    /// index is flipped.
    pub open spec fn pixel_spec(&self, x: u16, y: u16) -> (int, int) {
        (x - self.spec_width() / 2, self.spec_height() / 2 - y)
    }

    /// Accepts a resolution with at least one pixel.
    pub fn new(screen_width: u16, screen_height: u16) -> (made: Result<Screen, ConfigError>)
        ensures
            screen_width == 0 ==> made == Err::<Screen, ConfigError>(ConfigError::ZeroWidth),
            screen_width != 0 && screen_height == 0 ==> made == Err::<Screen, ConfigError>(
                ConfigError::ZeroHeight,
            ),
            screen_width != 0 && screen_height != 0 ==> made is Ok && made->Ok_0.spec_width()
                == screen_width && made->Ok_0.spec_height() == screen_height,
    {
        if screen_width == 0 {
            Err(ConfigError::ZeroWidth)
        } else if screen_height == 0 {
            Err(ConfigError::ZeroHeight)
        } else {
            Ok(Screen { width: screen_width, height: screen_height })
        }
    }

    /// The number of columns, never zero.
    #[verifier::when_used_as_spec(spec_width)]
    pub fn width(&self) -> (w: u16)
        ensures
            w == self.spec_width(),
            w > 0,
    {
        proof {
            use_type_invariant(self);
        }
        self.width
    }

    /// The number of rows, never zero.
    #[verifier::when_used_as_spec(spec_height)]
    pub fn height(&self) -> (h: u16)
        ensures
            h == self.spec_height(),
            h > 0,
    {
        proof {
            use_type_invariant(self);
        }
        self.height
    }

    /// The offset of pixel `(x, y)` from the middle of the screen.  The
    /// camera adds that many horizontal and vertical steps to the center of
    /// its focal plane.
    pub fn pixel(&self, x: u16, y: u16) -> (offset: (i32, i32))
        ensures
            offset.0 == self.pixel_spec(x, y).0,
            offset.1 == self.pixel_spec(x, y).1,
            offset.0 == x - self.spec_width() / 2,
            offset.1 == self.spec_height() / 2 - y,
    {
        let x: i32 = x as i32;
        let y: i32 = y as i32;
        let half_width: i32 = (self.width / 2) as i32;
        let half_height: i32 = (self.height / 2) as i32;
        (x - half_width, -y + half_height)
    }
}

/// The pixel in column `width / 2` and row `height / 2` has offset zero: the
/// camera maps it to the center of its focal plane.  On a screen with an even
/// number of columns and of rows this is the pixel just right of and below
/// the middle.
pub proof fn lemma_center_pixel_has_no_offset(screen: Screen)
    ensures
        screen.pixel_spec(screen.spec_width() / 2, screen.spec_height() / 2) == (0int, 0int),
{
}

/// Offsets tell pixels apart, grow to the right and grow upward.
pub proof fn lemma_pixel_offsets_ordered(screen: Screen, x1: u16, y1: u16, x2: u16, y2: u16)
    ensures
        x1 < x2 <==> screen.pixel_spec(x1, y1).0 < screen.pixel_spec(x2, y2).0,
        y1 < y2 <==> screen.pixel_spec(x1, y1).1 > screen.pixel_spec(x2, y2).1,
{
}

/// Whether some intersection of some object lies in reach of `bound`.
/// `world[k]` holds the ray parameters at which a ray meets object `k` of
/// the scene.
pub open spec fn any_in_reach(world: Seq<Seq<u64>>, bound: u64) -> bool {
    exists|i: int, j: int|
        0 <= i < world.len() && 0 <= j < world[i].len() && in_reach(#[trigger] world[i][j], bound)
}

/// The kinds of object a scene is made of.
#[derive(Clone, Copy, Debug, PartialEq, Eq)]
pub enum ObjectKind {
    Sphere,
    Floor,
}

impl ObjectKind {
    /// The tag by which an object names its kind.
    pub open spec fn tag(&self) -> u32 {
        match self {
            ObjectKind::Sphere => 1,
            ObjectKind::Floor => 2,
        }
    }

    /// The tag by which an object names its kind: 1 for a sphere, 2 for the
    /// floor.
    #[verifier::when_used_as_spec(tag)]
    pub fn who_am_i(&self) -> (tag: u32)
        ensures
            tag == self.tag(),
    {
        match self {
            ObjectKind::Sphere => 1,
            ObjectKind::Floor => 2,
        }
    }
}

/// What the arithmetic finds of a ray and one object of the scene.  All
/// numbers are binary64 patterns.
#[derive(Clone, Copy, Debug, PartialEq, Eq)]
pub enum Meeting {
    /// A sphere: the quadratic in the ray parameter whose roots are the
    /// parameters at which the ray pierces the sphere.
    Sphere(Quadratic),
    /// The floor: the height by which the ray rises for each step of the
    /// parameter, and the parameter at which it would cross the plane, which
    /// is the height of the plane above the ray's origin divided by that
    /// rise.
    Floor { rise: u64, crossing: u64 },
}

impl Meeting {
    /// The kind of the object.
    pub open spec fn kind_spec(&self) -> ObjectKind {
        match self {
            Meeting::Sphere(_) => ObjectKind::Sphere,
            Meeting::Floor { .. } => ObjectKind::Floor,
        }
    }

    /// The ray parameters at which the ray meets the object: the roots of
    /// the quadratic for a sphere; for the floor the crossing, or nothing
    /// where the ray does not rise or fall.
    pub open spec fn intersections(&self) -> Seq<u64> {
        match self {
            Meeting::Sphere(quadratic) => QuadraticRoots::solve_spec(*quadratic).list(),
            Meeting::Floor { rise, crossing } => if equal(decode(*rise), decode(ZERO)) {
                seq![]
            } else {
                seq![*crossing]
            },
        }
    }

    /// The kind of the object.
    #[verifier::when_used_as_spec(kind_spec)]
    pub fn kind(&self) -> (kind: ObjectKind)
        ensures
            kind == self.kind_spec(),
    {
        match self {
            Meeting::Sphere(_) => ObjectKind::Sphere,
            Meeting::Floor { .. } => ObjectKind::Floor,
        }
    }

    /// Appends to `v` the ray parameters at which the ray meets the object.
    pub fn ray_intersections(&self, v: &mut Vec<u64>)
        ensures
            final(v)@ == old(v)@ + self.intersections(),
    {
        match self {
            Meeting::Sphere(quadratic) => {
                QuadraticRoots::solve(quadratic).push_to(v);
            },
            Meeting::Floor { rise, crossing } => {
                if !is_zero(*rise) {
                    v.push(*crossing);
                }
            },
        }
    }
}

/// A ray meets a sphere at two parameters at most, the second not below
/// the first, and the floor at one at most.
pub proof fn lemma_intersections_are_few(meeting: Meeting)
    ensures
        meeting is Sphere ==> meeting.intersections().len() <= 2,
        meeting is Floor ==> meeting.intersections().len() <= 1,
        meeting.intersections().len() == 2 ==> !less(
            decode(meeting.intersections()[1]),
            decode(meeting.intersections()[0]),
        ),
{
}

/// The intersections of a ray with each object of a scene, object by
/// object.
pub open spec fn world_of(meetings: Seq<Meeting>) -> Seq<Seq<u64>> {
    Seq::new(meetings.len(), |k: int| meetings[k].intersections())
}

/// Lists the intersections of a ray with each object of a scene, in scene
/// order.
pub fn world_intersections(meetings: &Vec<Meeting>) -> (world: Vec<Vec<u64>>)
    ensures
        world.deep_view() == world_of(meetings@),
{
    let mut world: Vec<Vec<u64>> = Vec::new();
    let mut k: usize = 0;
    while k < meetings.len()
        invariant
            k <= meetings.len(),
            world@.len() == k,
            forall|a: int| 0 <= a < k ==> (#[trigger] world@[a])@ == meetings@[a].intersections(),
        decreases meetings.len() - k,
    {
        let mut t_s: Vec<u64> = Vec::new();
        meetings[k].ray_intersections(&mut t_s);
        assert(t_s@ == meetings@[k as int].intersections());
        world.push(t_s);
        k += 1;
    }
    assert(world.deep_view() =~~= world_of(meetings@));
    world
}

} // verus!
