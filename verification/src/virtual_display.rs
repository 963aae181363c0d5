//! The virtual monitor: its handle and errors, and the choice of the mode it
//! runs at.
//!
//! Creating the display establishes the ladder of modes it can offer, up to
//! the requested ceiling; it does not select one. macOS picks its own
//! default, so the host then chooses the available mode closest to what was
//! asked for.

use crate::text::{decimal, decimal_chars, push_chars, push_str};
use vstd::prelude::*;

verus! {

/// The private display classes, looked up by name at runtime.
pub const CLS_MODE: &'static str = "CGVirtualDisplayMode";
pub const CLS_DESCRIPTOR: &'static str = "CGVirtualDisplayDescriptor";
pub const CLS_SETTINGS: &'static str = "CGVirtualDisplaySettings";
pub const CLS_DISPLAY: &'static str = "CGVirtualDisplay";

/// Why the virtual display could not be created.
#[derive(Debug)]
pub enum VdError {
    /// A private class could not be found.
    ClassNotFound(&'static str),
    /// The display object could not be initialised.
    CreateFailed,
    /// The settings were refused; usually an impossible mode.
    ApplySettingsFailed,
    /// Built for a platform with no CoreGraphics.
    Unsupported,
}

/// A live virtual monitor. Dropping it removes the monitor.
pub struct VirtualDisplay {
    display_id: u32,
}

impl View for VirtualDisplay {
    type V = u32;

    /// A live display is known by its id.
    closed spec fn view(&self) -> u32 {
        self.display_id
    }
}

impl VirtualDisplay {
    /// The display's id, which capture uses to pick the display.
    pub fn display_id(&self) -> (id: u32)
        ensures
            id == self@,
    {
        self.display_id
    }
}

/// Whether a mode is HiDPI: its backing store is twice its logical width.
pub fn mode_is_hidpi(width: u32, pixel_width: u32) -> (r: bool)
    requires
        width * 2 <= u32::MAX,
    ensures
        r == (pixel_width == width * 2),
{
    pixel_width == width * 2
}

/// How a mode reads in a menu.
pub open spec fn mode_label_text(width: u32, height: u32, hidpi: bool) -> Seq<char> {
    decimal(width as nat) + " x "@ + decimal(height as nat) + if hidpi {
        " (HiDPI)"@
    } else {
        ""@
    }
}

/// "<w> x <h>", with " (HiDPI)" for a HiDPI mode.
pub fn mode_label(width: u32, height: u32, hidpi: bool) -> (s: String)
    ensures
        s@ == mode_label_text(width, height, hidpi),
{
    let mut s = String::new();
    push_chars(&mut s, decimal_chars(width as u64).as_slice());
    push_str(&mut s, " x ");
    push_chars(&mut s, decimal_chars(height as u64).as_slice());
    if hidpi {
        push_str(&mut s, " (HiDPI)");
    } else {
        push_str(&mut s, "");
    }
    s
}

/// The squared distance between a mode's logical size and a requested one.
pub open spec fn mode_distance(m: (u32, u32), width: u32, height: u32) -> int {
    (m.0 - width) * (m.0 - width) + (m.1 - height) * (m.1 - height)
}

/// The index of the first mode at the smallest distance from the request,
/// if there is any mode. Ranking by squared distance keeps a 16:9 request
/// from landing on a 4:3 mode of similar area.
pub open spec fn is_closest(modes: Seq<(u32, u32)>, width: u32, height: u32, i: int) -> bool {
    &&& 0 <= i < modes.len()
    &&& forall|j: int| 0 <= j < modes.len() ==> mode_distance(modes[i], width, height) <= #[trigger] mode_distance(modes[j], width, height)
    &&& forall|j: int| 0 <= j < i ==> mode_distance(modes[i], width, height) < #[trigger] mode_distance(modes[j], width, height)
}

/// Chooses the available mode closest to `width` by `height`: the first of
/// the nearest, or `None` when there is no mode at all.
pub fn closest_mode(modes: &[(u32, u32)], width: u32, height: u32) -> (r: Option<usize>)
    requires
        forall|j: int| 0 <= j < modes@.len() ==> #[trigger] mode_distance(modes@[j], width, height) <= i64::MAX,
    ensures
        match r {
            Some(i) => is_closest(modes@, width, height, i as int),
            None => modes@.len() == 0,
        },
{
    if modes.len() == 0 {
        return None;
    }
    let mut best: usize = 0;
    let mut best_d: i64 = 0;
    let mut i: usize = 0;
    while i < modes.len()
        invariant
            forall|j: int| 0 <= j < modes@.len() ==> #[trigger] mode_distance(modes@[j], width, height) <= i64::MAX,
            0 < modes@.len(),
            i <= modes@.len(),
            i > 0 ==> best < i,
            i > 0 ==> best_d == mode_distance(modes@[best as int], width, height),
            forall|j: int| 0 <= j < i ==> best_d <= #[trigger] mode_distance(modes@[j], width, height),
            forall|j: int| 0 <= j < best ==> best_d < #[trigger] mode_distance(modes@[j], width, height),
        decreases modes.len() - i,
    {
        let (mw, mh) = modes[i];
        let dw: i64 = mw as i64 - width as i64;
        let dh: i64 = mh as i64 - height as i64;
        proof {
            assert(dw * dw >= 0 && dh * dh >= 0) by (nonlinear_arith);
            assert(mode_distance(modes@[i as int], width, height) == dw * dw + dh * dh);
        }
        let d: i64 = dw * dw + dh * dh;
        if i == 0 || d < best_d {
            best = i;
            best_d = d;
        }
        i += 1;
    }
    Some(best)
}

/// Whether mode size `a` is smaller than `b`: narrower, or as wide and
/// shorter.
pub open spec fn size_lt(a: (u32, u32), b: (u32, u32)) -> bool {
    a.0 < b.0 || (a.0 == b.0 && a.1 < b.1)
}

/// Whether `order` lists every index of `sizes` exactly once.
pub open spec fn is_ordering(sizes: Seq<(u32, u32)>, order: Seq<usize>) -> bool {
    &&& order.len() == sizes.len()
    &&& forall|i: int| 0 <= i < order.len() ==> #[trigger] order[i] < sizes.len()
    &&& forall|i: int, j: int| 0 <= i < j < order.len() ==> order[i] != order[j]
}

/// Whether `order` lists `sizes` largest first, keeping the reported order
/// among modes of equal size.
pub open spec fn is_largest_first(sizes: Seq<(u32, u32)>, order: Seq<usize>) -> bool {
    &&& is_ordering(sizes, order)
    &&& forall|i: int, j: int|
        0 <= i < j < order.len() ==> !size_lt(sizes[order[i] as int], sizes[order[j] as int])
    &&& forall|i: int, j: int|
        0 <= i < j < order.len() && sizes[order[i] as int] == sizes[order[j] as int] ==> order[i] < order[j]
}

/// The order a resolution menu lists modes in: largest first by width, then
/// height, equal sizes in the order the system reported them. The result
/// holds indices into `sizes`.
pub fn largest_first(sizes: &[(u32, u32)]) -> (order: Vec<usize>)
    ensures
        is_largest_first(sizes@, order@),
{
    let mut order: Vec<usize> = Vec::new();
    let mut k: usize = 0;
    while k < sizes.len()
        invariant
            k <= sizes@.len(),
            order@.len() == k,
            forall|i: int| 0 <= i < order@.len() ==> #[trigger] order@[i] < k,
            forall|i: int, j: int| 0 <= i < j < order@.len() ==> order@[i] != order@[j],
            forall|i: int, j: int|
                0 <= i < j < order@.len() ==> !size_lt(sizes@[order@[i] as int], sizes@[order@[j] as int]),
            forall|i: int, j: int|
                0 <= i < j < order@.len() && sizes@[order@[i] as int] == sizes@[order@[j] as int] ==> order@[i]
                    < order@[j],
        decreases sizes.len() - k,
    {
        let key = sizes[k];
        // The new mode goes after every mode at least as large.
        let mut p: usize = 0;
        while p < order.len() && !(sizes[order[p]].0 < key.0 || (sizes[order[p]].0 == key.0 && sizes[order[p]].1
            < key.1))
            invariant
                p <= order@.len(),
                k < sizes@.len(),
                key == sizes@[k as int],
                forall|i: int| 0 <= i < order@.len() ==> #[trigger] order@[i] < k,
                forall|i: int| 0 <= i < p ==> !size_lt(#[trigger] sizes@[order@[i] as int], key),
            decreases order.len() - p,
        {
            p += 1;
        }
        let ghost old_order = order@;
        proof {
            assert forall|j: int| p <= j < old_order.len() implies size_lt(
                #[trigger] sizes@[old_order[j] as int],
                key,
            ) by {
                if j > p {
                    assert(!size_lt(sizes@[old_order[p as int] as int], sizes@[old_order[j] as int]));
                }
            }
        }
        order.insert(p, k);
        proof {
            assert(order@ =~= old_order.insert(p as int, k));
            assert forall|i: int| 0 <= i < order@.len() implies #[trigger] order@[i] < k + 1 by {
                if i < p {
                    assert(order@[i] == old_order[i]);
                } else if i > p {
                    assert(order@[i] == old_order[i - 1]);
                }
            }
            assert forall|i: int, j: int| 0 <= i < j < order@.len() implies order@[i] != order@[j] by {
                if j < p {
                } else if j == p {
                    assert(order@[i] == old_order[i]);
                } else if i < p {
                    assert(order@[j] == old_order[j - 1]);
                } else if i == p {
                    assert(order@[j] == old_order[j - 1]);
                } else {
                    assert(order@[i] == old_order[i - 1]);
                    assert(order@[j] == old_order[j - 1]);
                }
            }
            assert forall|i: int, j: int| 0 <= i < j < order@.len() implies !size_lt(
                sizes@[order@[i] as int],
                sizes@[order@[j] as int],
            ) && (sizes@[order@[i] as int] == sizes@[order@[j] as int] ==> order@[i] < order@[j]) by {
                if j < p {
                } else if j == p {
                    assert(order@[i] == old_order[i]);
                    assert(!size_lt(sizes@[old_order[i] as int], key));
                } else if i < p {
                    assert(order@[i] == old_order[i]);
                    assert(order@[j] == old_order[j - 1]);
                } else if i == p {
                    assert(order@[j] == old_order[j - 1]);
                    assert(size_lt(sizes@[old_order[j - 1] as int], key));
                } else {
                    assert(order@[i] == old_order[i - 1]);
                    assert(order@[j] == old_order[j - 1]);
                }
            }
        }
        k += 1;
    }
    order
}

} // verus!
