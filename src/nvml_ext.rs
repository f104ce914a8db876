//! Records returned by the extended vendor GPU library queries.
use vstd::prelude::*;

verus! {

/// Why an extended vendor query gave no answer.
#[derive(Clone, Copy, Debug, PartialEq, Eq, Structural)]
pub enum NvmlExtError {
    /// The library or the call is not available.
    NotSupported,
    /// The library returned this error code.
    NvmlReturn(i32),
}

/// Extended PCIe counters of one device, where available.
#[derive(Clone, Copy, Debug, Default, PartialEq, Eq)]
pub struct PcieExt {
    pub correctable_errors: Option<u64>,
    pub atomic_requests: Option<u64>,
}

/// Error counters of an NVSwitch, where available.
#[derive(Clone, Copy, Debug, Default, PartialEq, Eq)]
pub struct NvSwitchExt {
    pub errors: Option<u64>,
}

/// Field values answered by a field-value query, as `(field id, value)`.
#[derive(Clone, Debug, Default)]
pub struct FieldValues {
    pub values: Vec<(u32, i64)>,
}

/// The value of the first entry of `values` with field id `id`.
pub open spec fn first_value(values: Seq<(u32, i64)>, id: u32) -> Option<i64>
    decreases values.len(),
{
    if values.len() == 0 {
        None
    } else if values[0].0 == id {
        Some(values[0].1)
    } else {
        first_value(values.drop_first(), id)
    }
}

impl FieldValues {
    /// The value answered for field `id`, if any (the first one when the
    /// field was answered twice).
    pub fn get(&self, id: u32) -> (r: Option<i64>)
        ensures
            r == first_value(self.values@, id),
    {
        let mut i: usize = 0;
        assert(self.values@.subrange(0, self.values.len() as int) =~= self.values@);
        while i < self.values.len()
            invariant
                i <= self.values.len(),
                first_value(self.values@, id) == first_value(self.values@.subrange(i as int, self.values.len() as int), id),
            decreases self.values.len() - i,
        {
            let ghost rest = self.values@.subrange(i as int, self.values.len() as int);
            assert(rest[0] == self.values@[i as int]);
            if self.values[i].0 == id {
                return Some(self.values[i].1);
            }
            assert(rest.drop_first() =~= self.values@.subrange(i + 1, self.values.len() as int));
            i = i + 1;
        }
        None
    }
}

/// Field id: number of connected NVSwitch links.
pub const FI_DEV_NVSWITCH_CONNECTED_LINK_COUNT: u32 = 147;
/// Field id: PCIe correctable errors.
pub const FI_DEV_PCIE_COUNT_CORRECTABLE_ERRORS: u32 = 173;
/// Field id: PCIe non-fatal errors.
pub const FI_DEV_PCIE_COUNT_NON_FATAL_ERROR: u32 = 179;
/// Field id: PCIe fatal errors.
pub const FI_DEV_PCIE_COUNT_FATAL_ERROR: u32 = 180;
/// Field id: outbound PCIe atomics mask.
pub const FI_DEV_PCIE_OUTBOUND_ATOMICS_MASK: u32 = 228;
/// Field id: inbound PCIe atomics mask.
pub const FI_DEV_PCIE_INBOUND_ATOMICS_MASK: u32 = 229;

} // verus!
