//! Telemetry of one CUDA device.
use vstd::prelude::*;

verus! {

/// Least device memory kept free.
pub const MIN_VRAM_RESERVE_MIB: u64 = 8192;

/// Share of the device memory kept free.
pub const VRAM_RESERVE_PERCENT: u64 = 10;

/// Telemetry for one host CUDA device.
#[derive(Debug, Clone, Copy, PartialEq)]
pub struct GpuSample<U> {
    /// Host CUDA device ordinal used by the guest-to-host mapping.
    pub device_ordinal: u32,
    /// Streaming-multiprocessor utilization.
    pub utilization_percent: U,
    /// Used device memory in MiB.
    pub used_memory_mib: u64,
    /// Device-memory capacity in MiB.
    pub total_memory_mib: u64,
    /// Free memory remaining on this device.
    pub free_memory_mib: u64,
    /// Capacity-derived headroom reserved on this device.
    pub reserve_mib: u64,
}

/// The headroom of a device: a tenth of its memory, but no less than the
/// minimum. The product by the percentage saturates.
pub open spec fn reserve_of(total_memory_mib: u64) -> u64 {
    let product = total_memory_mib * VRAM_RESERVE_PERCENT;
    let share = (if product > u64::MAX {
        u64::MAX as int
    } else {
        product
    }) / 100;
    if share > MIN_VRAM_RESERVE_MIB {
        share as u64
    } else {
        MIN_VRAM_RESERVE_MIB
    }
}

/// Headroom that a device of this capacity keeps free.
pub fn device_reserve_mib(total_memory_mib: u64) -> (r: u64)
    ensures
        r == reserve_of(total_memory_mib),
{
    let product: u64 = if total_memory_mib > u64::MAX / VRAM_RESERVE_PERCENT {
        u64::MAX
    } else {
        total_memory_mib * VRAM_RESERVE_PERCENT
    };
    let share: u64 = product / 100;
    if share > MIN_VRAM_RESERVE_MIB {
        share
    } else {
        MIN_VRAM_RESERVE_MIB
    }
}

impl<U> GpuSample<U> {
    /// The device still has its reserve.
    pub open spec fn has_headroom(self) -> bool {
        self.free_memory_mib >= self.reserve_mib
    }

    /// A sample of a device, with the reserve that its capacity asks for.
    pub fn new(
        device_ordinal: u32,
        utilization_percent: U,
        used_memory_mib: u64,
        free_memory_mib: u64,
        total_memory_mib: u64,
    ) -> (r: Self)
        ensures
            r == (GpuSample {
                device_ordinal,
                utilization_percent,
                used_memory_mib,
                total_memory_mib,
                free_memory_mib,
                reserve_mib: reserve_of(total_memory_mib),
            }),
    {
        GpuSample {
            device_ordinal,
            utilization_percent,
            used_memory_mib,
            total_memory_mib,
            free_memory_mib,
            reserve_mib: device_reserve_mib(total_memory_mib),
        }
    }

    /// Whether the device still has its reserve.
    pub fn memory_safe(&self) -> (r: bool)
        ensures
            r == self.has_headroom(),
    {
        self.free_memory_mib >= self.reserve_mib
    }
}

/// One device's reserve depends on that device's capacity alone and never
/// falls below the minimum.
pub proof fn law_reserve_floor(total_memory_mib: u64)
    ensures
        reserve_of(total_memory_mib) >= MIN_VRAM_RESERVE_MIB,
        total_memory_mib <= 10 * MIN_VRAM_RESERVE_MIB ==> reserve_of(total_memory_mib)
            == MIN_VRAM_RESERVE_MIB,
{
}

/// A larger device never has a smaller reserve.
pub proof fn law_reserve_grows_with_capacity(a: u64, b: u64)
    requires
        a <= b,
    ensures
        reserve_of(a) <= reserve_of(b),
{
}

/// The reserve is a tenth of the memory, rounded down, where this is more than
/// 8 GiB, and 8 GiB else. (Capacities at which ten times the memory does not fit
/// in 64 bits are left out.)
pub proof fn law_reserve_is_a_tenth(total_memory_mib: u64)
    requires
        10 * total_memory_mib <= u64::MAX,
    ensures
        total_memory_mib >= 81920 ==> 10 * reserve_of(total_memory_mib) <= total_memory_mib < 10 * (
        reserve_of(total_memory_mib) + 1),
        total_memory_mib < 81920 ==> reserve_of(total_memory_mib) == 8192,
{
}

/// A device has headroom exactly if what is free covers its reserve.
pub proof fn law_headroom_covers_the_reserve<U>(sample: GpuSample<U>)
    ensures
        sample.has_headroom() <==> sample.reserve_mib <= sample.free_memory_mib,
{
}

} // verus!
