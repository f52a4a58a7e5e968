//! The rotation step: orientation normalization from the embedded
//! orientation code, composed with the user's fixed rotation.
//!
//! Both contributions are counted in quarter turns and applied together,
//! so they compose predictably: code 3 adds a half turn, 6 a quarter,
//! 8 three quarters; the user adds 0 to 3 quarters on top.

use vstd::prelude::*;
use crate::raster::Raster;
use crate::text::str_eq;

verus! {

/// The user's fixed rotation angle, in quarter turns.
#[derive(Debug, Clone, Copy, PartialEq, Eq, Structural, Default)]
pub enum Angle {
    #[default]
    Zero,
    Quarter,
    Half,
    ThreeQuarters,
}

/// The angle a user's choice string selects; anything unknown means no
/// rotation.
pub open spec fn angle_of(s: Seq<char>) -> Angle {
    if s == "90"@ {
        Angle::Quarter
    } else if s == "180"@ {
        Angle::Half
    } else if s == "270"@ {
        Angle::ThreeQuarters
    } else {
        Angle::Zero
    }
}

/// Quarter turns contributed by an embedded orientation code: 3 means a
/// half turn, 6 a quarter, 8 three quarters, anything else none.
pub open spec fn orientation_turns(code: Option<u32>) -> int {
    match code {
        Some(c) => if c == 6 {
            1
        } else if c == 3 {
            2
        } else if c == 8 {
            3
        } else {
            0
        },
        None => 0,
    }
}

/// Quarter turns contributed by the user's angle.
pub open spec fn angle_turns(a: Angle) -> int {
    match a {
        Angle::Zero => 0,
        Angle::Quarter => 1,
        Angle::Half => 2,
        Angle::ThreeQuarters => 3,
    }
}

/// The composed rotation of a picture: orientation normalization first,
/// then the user's angle, as quarter turns modulo a full turn.
pub open spec fn total_turns(code: Option<u32>, a: Angle) -> int {
    (orientation_turns(code) + angle_turns(a)) % 4
}

/// An embedded quarter turn (code 6) followed by a user rotation of
/// three quarters makes a full turn: the same composed rotation as no
/// orientation correction and no user rotation, so `Rotate::apply`
/// leaves the raster untouched in both cases.
pub proof fn lemma_orientation_composition()
    ensures
        total_turns(Some(6u32), Angle::ThreeQuarters) == 0,
        total_turns(None, Angle::Zero) == 0,
        total_turns(Some(6u32), Angle::ThreeQuarters) == total_turns(None, Angle::Zero),
{
}

/// Apply the orientation normalization alone: the embedded code's
/// quarter turns, nothing of the user's angle.
pub fn set_initial_rotation(code: Option<u32>, picture: &mut Raster)
    ensures
        orientation_turns(code) == 0 ==> *final(picture) == *old(picture),
        orientation_turns(code) % 2 == 0 ==> final(picture).width == old(picture).width && final(picture).height == old(picture).height,
        orientation_turns(code) % 2 == 1 ==> final(picture).width == old(picture).height && final(picture).height == old(picture).width,
{
    match code {
        Some(c) => {
            if c == 6 {
                picture.rotate90();
            } else if c == 3 {
                picture.rotate180();
            } else if c == 8 {
                picture.rotate270();
            }
        },
        None => {},
    }
}

/// The rotation configuration: the user's fixed angle.
#[derive(Debug, Clone, Copy, PartialEq, Eq, Structural, Default)]
pub struct Rotate {
    pub angle: Angle,
}

impl Rotate {
    /// Choose the angle from a user string.
    pub fn set_angle(&mut self, value: String)
        ensures
            final(self).angle == angle_of(value@),
    {
        self.angle = if str_eq(value.as_str(), "90") {
            Angle::Quarter
        } else if str_eq(value.as_str(), "180") {
            Angle::Half
        } else if str_eq(value.as_str(), "270") {
            Angle::ThreeQuarters
        } else {
            Angle::Zero
        };
    }

    /// Rotate the raster by the orientation code and the user's angle
    /// composed. A composed full turn touches nothing; an odd number of
    /// quarter turns swaps the dimensions, an even number keeps them.
    pub fn apply(&self, r: &mut Raster, code: Option<u32>)
        ensures
            total_turns(code, self.angle) == 0 ==> *final(r) == *old(r),
            total_turns(code, self.angle) % 2 == 0 ==> final(r).width == old(r).width
                && final(r).height == old(r).height,
            total_turns(code, self.angle) % 2 == 1 ==> final(r).width == old(r).height
                && final(r).height == old(r).width,
    {
        let exif: u32 = match code {
            Some(c) => {
                if c == 6 {
                    1
                } else if c == 3 {
                    2
                } else if c == 8 {
                    3
                } else {
                    0
                }
            },
            None => 0,
        };
        let user: u32 = match self.angle {
            Angle::Zero => 0,
            Angle::Quarter => 1,
            Angle::Half => 2,
            Angle::ThreeQuarters => 3,
        };
        let total: u32 = (exif + user) % 4;
        assert(total == total_turns(code, self.angle));
        if total == 1 {
            r.rotate90();
        } else if total == 2 {
            r.rotate180();
        } else if total == 3 {
            r.rotate270();
        }
    }
}

} // verus!
