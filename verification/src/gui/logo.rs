//! The geometry of the mark: five bars rising to a centre peak, a level meter
//! whose silhouette is also a span.

use vstd::prelude::*;

verus! {

/// The side of the square that the bars are placed in, in quarters of a unit.
pub const DESIGN: u32 = 256;

/// How many bars there are.
pub const BAR_COUNT: usize = 5;

/// One bar, in quarters of a unit.
#[derive(Debug, Clone, Copy, PartialEq, Eq, Structural)]
pub struct Bar {
    pub x: u32,
    pub y: u32,
    pub width: u32,
    pub height: u32,
}

/// The bars from left to right.
pub open spec fn bars() -> Seq<Bar> {
    seq![
        Bar { x: 44, y: 152, width: 26, height: 52 },
        Bar { x: 84, y: 120, width: 26, height: 84 },
        Bar { x: 115, y: 88, width: 26, height: 116 },
        Bar { x: 146, y: 120, width: 26, height: 84 },
        Bar { x: 186, y: 152, width: 26, height: 52 },
    ]
}

/// The bar at a place, from the left.
pub fn bar(i: usize) -> (bar: Bar)
    requires
        i < BAR_COUNT,
    ensures
        bar == bars()[i as int],
{
    if i == 0 {
        Bar { x: 44, y: 152, width: 26, height: 52 }
    } else if i == 1 {
        Bar { x: 84, y: 120, width: 26, height: 84 }
    } else if i == 2 {
        Bar { x: 115, y: 88, width: 26, height: 116 }
    } else if i == 3 {
        Bar { x: 146, y: 120, width: 26, height: 84 }
    } else {
        Bar { x: 186, y: 152, width: 26, height: 52 }
    }
}

/// Two bars at the same distance from the centre mirror each other, the centre
/// bar is in the centre, heights rise to it, and all bars stand on one line
/// inside the square.
pub proof fn the_bars_form_a_symmetric_arch(i: int)
    requires
        0 <= i < BAR_COUNT,
    ensures
        bars().len() == BAR_COUNT,
        bars()[i].x + bars()[4 - i].x + bars()[4 - i].width == DESIGN,
        bars()[i].width == bars()[4 - i].width,
        bars()[i].height == bars()[4 - i].height,
        i < 2 ==> bars()[i].height < bars()[i + 1].height,
        bars()[i].y + bars()[i].height == 204,
{
}

/// The bars stand apart from each other, from left to right, and inside the square.
pub proof fn the_bars_stand_apart(i: int)
    requires
        0 <= i < 5,
    ensures
        i < 4 ==> bars()[i].x + bars()[i].width < bars()[i + 1].x,
        bars()[i].x + bars()[i].width < 256,
        bars()[i].y + bars()[i].height < 256,
{
}

} // verus!
