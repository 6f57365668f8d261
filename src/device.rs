//! Choosing the device to open among the HID interfaces the host reports.

use vstd::prelude::*;

verus! {

/// The four fields that identify one HID interface of the key pad.
#[derive(Debug, Clone, Copy, PartialEq, Eq, Structural)]
pub struct DeviceId {
    pub vendor_id: u16,
    pub product_id: u16,
    pub usage: u16,
    pub usage_page: u16,
}

/// Vendor id of the supported key pad.
pub const VENDOR_ID: u16 = 0x0fd9;

/// Product id of the supported key pad.
pub const PRODUCT_ID: u16 = 0x0080;

/// HID usage of the interface that carries the key reports.
pub const USAGE: u16 = 0x0001;

/// HID usage page of the interface that carries the key reports.
pub const USAGE_PAGE: u16 = 0x000c;

/// The interface of the supported key pad that this library talks to.
pub fn key_pad_id() -> (r: DeviceId)
    ensures
        r == (DeviceId { vendor_id: VENDOR_ID, product_id: PRODUCT_ID, usage: USAGE, usage_page: USAGE_PAGE }),
{
    DeviceId { vendor_id: VENDOR_ID, product_id: PRODUCT_ID, usage: USAGE, usage_page: USAGE_PAGE }
}

/// Indices, in increasing order, of the first `n` candidates equal to `target`.
pub open spec fn matching_prefix(candidates: Seq<DeviceId>, target: DeviceId, n: nat) -> Seq<usize>
    decreases n,
{
    if n == 0 {
        Seq::empty()
    } else {
        let before = matching_prefix(candidates, target, (n - 1) as nat);
        if candidates[n - 1] == target {
            before.push((n - 1) as usize)
        } else {
            before
        }
    }
}

/// Indices of the candidates whose four identifying fields all equal
/// `target`'s, in the order in which the host listed them: the order in
/// which opening them is tried.
pub fn matching_devices(candidates: &[DeviceId], target: DeviceId) -> (r: Vec<usize>)
    ensures
        r@ == matching_prefix(candidates@, target, candidates@.len()),
{
    let mut r: Vec<usize> = Vec::new();
    let mut i: usize = 0;
    while i < candidates.len()
        invariant
            i <= candidates@.len(),
            r@ == matching_prefix(candidates@, target, i as nat),
        decreases candidates@.len() - i,
    {
        let c = candidates[i];
        if c.vendor_id == target.vendor_id && c.product_id == target.product_id && c.usage == target.usage
            && c.usage_page == target.usage_page {
            r.push(i);
        }
        i = i + 1;
    }
    r
}

/// The matching candidates are exactly those equal to the target, each
/// listed once, in increasing order.
pub proof fn lemma_matching_exact(candidates: Seq<DeviceId>, target: DeviceId, n: nat)
    requires
        n <= candidates.len() <= usize::MAX,
    ensures
        forall|k: int| 0 <= k < matching_prefix(candidates, target, n).len() ==> {
            let i = #[trigger] matching_prefix(candidates, target, n)[k];
            &&& i < n
            &&& candidates[i as int] == target
        },
        forall|k1: int, k2: int| 0 <= k1 < k2 < matching_prefix(candidates, target, n).len() ==>
            matching_prefix(candidates, target, n)[k1] < matching_prefix(candidates, target, n)[k2],
        forall|i: int| 0 <= i < n && candidates[i] == target ==>
            matching_prefix(candidates, target, n).contains(i as usize),
    decreases n,
{
    if n > 0 {
        lemma_matching_exact(candidates, target, (n - 1) as nat);
        let before = matching_prefix(candidates, target, (n - 1) as nat);
        if candidates[n - 1] == target {
            assert(matching_prefix(candidates, target, n)[before.len() as int] == (n - 1) as usize);
            assert forall|i: int| 0 <= i < n && candidates[i] == target implies
                matching_prefix(candidates, target, n).contains(i as usize) by {
                if i < n - 1 {
                    let k = choose|k: int| 0 <= k < before.len() && before[k] == i as usize;
                    assert(matching_prefix(candidates, target, n)[k] == i as usize);
                }
            }
        }
    }
}

} // verus!
