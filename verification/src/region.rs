//! Rectangular regions in device pixel coordinates, and the padded
//! bounding-box computation used to derive a dirty region from the points of
//! a drawn shape.

use vstd::prelude::*;

verus! {

/// A rectangular area of the panel: top-left corner plus extent, in device
/// pixel units. `Region` itself enforces no invariant; producers are expected
/// to keep `x + width` and `y + height` within the addressable extent.
#[derive(Copy, Clone, Default)]
pub struct Region {
    pub x: u16,
    pub y: u16,
    pub width: u32,
    pub height: u32,
}

/// Smallest x coordinate among the points.
pub open spec fn spec_min_x(points: Seq<(u16, u16)>) -> int
    decreases points.len(),
{
    if points.len() <= 1 {
        points[0].0 as int
    } else {
        let rest = spec_min_x(points.drop_last());
        if points.last().0 as int <= rest {
            points.last().0 as int
        } else {
            rest
        }
    }
}

/// Largest x coordinate among the points.
pub open spec fn spec_max_x(points: Seq<(u16, u16)>) -> int
    decreases points.len(),
{
    if points.len() <= 1 {
        points[0].0 as int
    } else {
        let rest = spec_max_x(points.drop_last());
        if points.last().0 as int >= rest {
            points.last().0 as int
        } else {
            rest
        }
    }
}

/// Smallest y coordinate among the points.
pub open spec fn spec_min_y(points: Seq<(u16, u16)>) -> int
    decreases points.len(),
{
    if points.len() <= 1 {
        points[0].1 as int
    } else {
        let rest = spec_min_y(points.drop_last());
        if points.last().1 as int <= rest {
            points.last().1 as int
        } else {
            rest
        }
    }
}

/// Largest y coordinate among the points.
pub open spec fn spec_max_y(points: Seq<(u16, u16)>) -> int
    decreases points.len(),
{
    if points.len() <= 1 {
        points[0].1 as int
    } else {
        let rest = spec_max_y(points.drop_last());
        if points.last().1 as int >= rest {
            points.last().1 as int
        } else {
            rest
        }
    }
}

/// A low edge of the padded bounding box: the smallest point coordinate
/// minus the padding, floored at zero.
pub open spec fn spec_padded_low(low: int, padding: int) -> int {
    if low - padding >= 0 {
        low - padding
    } else {
        0
    }
}

/// One past a high edge of the padded bounding box: the largest point
/// coordinate plus the padding, clamped to the buffer extent.
pub open spec fn spec_padded_high(high: int, padding: int, extent: int) -> int {
    if high + padding <= extent {
        high + padding
    } else {
        extent
    }
}

/// Computes the minimal axis-aligned rectangle covering all `points`, expands
/// it by `padding` pixels on every side, and clamps the result to a
/// `buf_width` x `buf_height` buffer. Returns `None` only for an empty point
/// set. The padding absorbs overdraw around a drawn shape, so that the dirty
/// region registered for a frame still covers the shape's whole footprint.
pub fn bounding_region(points: &Vec<(u16, u16)>, padding: u16, buf_width: u32, buf_height: u32) -> (r: Option<
    Region,
>)
    ensures
        r is Some <==> points@.len() > 0,
        points@.len() > 0 ==> {
            let x0 = spec_padded_low(spec_min_x(points@), padding as int);
            let y0 = spec_padded_low(spec_min_y(points@), padding as int);
            let x1 = spec_padded_high(spec_max_x(points@), padding as int, buf_width as int);
            let y1 = spec_padded_high(spec_max_y(points@), padding as int, buf_height as int);
            &&& r.unwrap().x == x0
            &&& r.unwrap().y == y0
            &&& r.unwrap().width == if x1 - x0 >= 0 {
                x1 - x0
            } else {
                0
            }
            &&& r.unwrap().height == if y1 - y0 >= 0 {
                y1 - y0
            } else {
                0
            }
        },
{
    if points.len() == 0 {
        return None;
    }
    let first = points[0];
    let mut min_x: u16 = first.0;
    let mut max_x: u16 = first.0;
    let mut min_y: u16 = first.1;
    let mut max_y: u16 = first.1;
    proof {
        assert(points@.take(1).len() == 1);
        assert(points@.take(1)[0] == points@[0]);
    }
    let mut i: usize = 1;
    while i < points.len()
        invariant
            1 <= i <= points@.len(),
            min_x as int == spec_min_x(points@.take(i as int)),
            max_x as int == spec_max_x(points@.take(i as int)),
            min_y as int == spec_min_y(points@.take(i as int)),
            max_y as int == spec_max_y(points@.take(i as int)),
        decreases points@.len() - i,
    {
        let p = points[i];
        proof {
            assert(points@.take(i + 1).drop_last() =~= points@.take(i as int));
            assert(points@.take(i + 1).last() == points@[i as int]);
        }
        if p.0 < min_x {
            min_x = p.0;
        }
        if p.0 > max_x {
            max_x = p.0;
        }
        if p.1 < min_y {
            min_y = p.1;
        }
        if p.1 > max_y {
            max_y = p.1;
        }
        i = i + 1;
    }
    proof {
        assert(points@.take(points@.len() as int) =~= points@);
    }
    let x0: u16 = if min_x >= padding {
        min_x - padding
    } else {
        0
    };
    let y0: u16 = if min_y >= padding {
        min_y - padding
    } else {
        0
    };
    let x1: u32 = if max_x as u32 + padding as u32 <= buf_width {
        max_x as u32 + padding as u32
    } else {
        buf_width
    };
    let y1: u32 = if max_y as u32 + padding as u32 <= buf_height {
        max_y as u32 + padding as u32
    } else {
        buf_height
    };
    let width: u32 = if x1 >= x0 as u32 {
        x1 - x0 as u32
    } else {
        0
    };
    let height: u32 = if y1 >= y0 as u32 {
        y1 - y0 as u32
    } else {
        0
    };
    Some(Region { x: x0, y: y0, width, height })
}

} // verus!
