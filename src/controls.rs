use vstd::prelude::*;
use crate::geometry::Offset;

verus! {

/// The unit contribution of one pair of opposite keys: `1` for the positive
/// key alone, `-1` for the negative key alone, `0` for both or neither.
pub open spec fn axis(positive: bool, negative: bool) -> int {
    (if positive {
        1int
    } else {
        0int
    }) - (if negative {
        1int
    } else {
        0int
    })
}

/// The movement direction chosen by the four direction keys: each held key
/// adds its unit vector, up `(0, 1)`, right `(1, 0)`, down `(0, -1)` and
/// left `(-1, 0)`.
pub fn movement_delta(up: bool, right: bool, down: bool, left: bool) -> (r: Offset)
    ensures
        r.x == axis(right, left),
        r.y == axis(up, down),
{
    let mut delta = Offset::new(0, 0);
    if up {
        delta.y = delta.y + 1;
    }
    if right {
        delta.x = delta.x + 1;
    }
    if down {
        delta.y = delta.y - 1;
    }
    if left {
        delta.x = delta.x - 1;
    }
    delta
}

} // verus!
