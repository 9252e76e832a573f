//! What the core that boots the machine decides.

use crate::dtb::MachineMeta;
use vstd::prelude::*;

verus! {

/// The cores to wake, given how many cores there are and which one is awake: every core
/// number below `count` but `main_hart_id`, in ascending order.
pub open spec fn other_harts(count: nat, main_hart_id: usize) -> Seq<usize> {
    Seq::new(
        if main_hart_id < count {
            (count - 1) as nat
        } else {
            count
        },
        |k: int|
            if k < main_hart_id {
                k as usize
            } else {
                (k + 1) as usize
            },
    )
}

/// The cores that the core `main_hart_id`, which booted the machine, has to wake.
pub fn start_other_harts(meta: &MachineMeta, main_hart_id: usize) -> (r: Vec<usize>)
    ensures
        r@ == other_harts(meta.harts().len(), main_hart_id),
{
    let harts: usize = meta.hart_count();
    let mut r: Vec<usize> = Vec::new();
    let mut i: usize = 0;
    while i < harts
        invariant
            i <= harts,
            harts == meta.harts().len(),
            r@ == other_harts(i as nat, main_hart_id),
        decreases harts - i,
    {
        if i != main_hart_id {
            r.push(i);
        }
        proof {
            assert(r@ =~= other_harts((i + 1) as nat, main_hart_id));
        }
        i = i + 1;
    }
    r
}

} // verus!
