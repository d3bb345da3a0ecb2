//! The browsing (prev/next cycling) policy over a layer's part list:
//! stepping forward from the last entry reaches the unequipped state,
//! and stepping forward again wraps to the first entry; backward is the
//! mirror image.

use vstd::prelude::*;

verus! {

/// The next position when cycling forward through a list of `len`
/// entries from `current` (`None` is the unequipped state): one step
/// right, falling off the end into `None`, and from `None` to the first
/// entry.
pub open spec fn spec_cycle_forward(len: nat, current: Option<usize>) -> Option<usize> {
    match current {
        Some(pos) => if pos + 1 < len {
            Some((pos + 1) as usize)
        } else {
            None
        },
        None => Some(0usize),
    }
}

/// The next position when cycling backward: one step left, falling off
/// the front into `None`, and from `None` to the last entry.
pub open spec fn spec_cycle_backward(len: nat, current: Option<usize>) -> Option<usize> {
    match current {
        Some(pos) => if pos > 0 {
            Some((pos - 1) as usize)
        } else {
            None
        },
        None => Some((len - 1) as usize),
    }
}

/// One cycling step through a non-empty list.
pub fn cycle_position(len: usize, current: Option<usize>, forward: bool) -> (r: Option<usize>)
    requires
        len >= 1,
    ensures
        forward ==> r == spec_cycle_forward(len as nat, current),
        !forward ==> r == spec_cycle_backward(len as nat, current),
{
    if forward {
        match current {
            Some(pos) => if pos < usize::MAX && pos + 1 < len {
                Some(pos + 1)
            } else {
                None
            },
            None => Some(0),
        }
    } else {
        match current {
            Some(pos) => if pos > 0 {
                Some(pos - 1)
            } else {
                None
            },
            None => Some(len - 1),
        }
    }
}

/// Cycling forward from the last entry reaches the unequipped state, and
/// cycling forward once more wraps to the first entry; backward from the
/// first entry it is the mirror image.
pub proof fn lemma_cycle_wraps(len: usize)
    requires
        len >= 1,
    ensures
        spec_cycle_forward(len as nat, Some((len - 1) as usize)) is None,
        spec_cycle_forward(len as nat, spec_cycle_forward(len as nat, Some((len - 1) as usize)))
            == Some(0usize),
        spec_cycle_backward(len as nat, Some(0usize)) is None,
        spec_cycle_backward(len as nat, spec_cycle_backward(len as nat, Some(0usize))) == Some(
            (len - 1) as usize,
        ),
{
}

/// The position of a catalog index inside a layer's list, if it stands
/// there.
pub fn position_of(list: &Vec<usize>, index: usize) -> (r: Option<usize>)
    ensures
        match r {
            Some(p) => p < list@.len() && list@[p as int] == index,
            None => !list@.contains(index),
        },
{
    let mut p: usize = 0;
    while p < list.len()
        invariant
            0 <= p <= list@.len(),
            forall|p2: int| 0 <= p2 < p ==> (#[trigger] list@[p2]) != index,
        decreases list@.len() - p,
    {
        if list[p] == index {
            return Some(p);
        }
        p = p + 1;
    }
    None
}

} // verus!
