//! Device metrics, from what the vendor's management library reports.

use super::family;
use super::family::{GpuFamily, GpuVendor};
use super::host::MEGABYTE;
use crate::text;
use crate::text::{joined, signed_decimal_text};
use vstd::prelude::*;

verus! {

/// One device as reported in heartbeats.
#[derive(Debug)]
pub struct DeviceMetrics {
    /// Device index.
    pub index: u32,
    pub vendor: GpuVendor,
    pub name: String,
    /// Family derived from the name; absent outside the vocabulary.
    pub family: Option<GpuFamily>,
    /// Total device memory in megabytes.
    pub vram_total_mb: u64,
    /// Device memory in use, if it can be reported.
    pub vram_used_mb: Option<u64>,
    /// Free device memory, if it can be reported.
    pub vram_free_mb: Option<u64>,
    /// Compute utilization as a percentage.
    pub utilization_pct: Option<u32>,
    /// Temperature in degrees Celsius.
    pub temperature_c: Option<u32>,
}

/// What the management library reports of one device. Memory is in bytes.
#[derive(Debug)]
pub struct DeviceReading {
    pub index: u32,
    /// The name, if it could be read.
    pub name: Option<String>,
    /// Total, used and free memory, if they could be read.
    pub memory: Option<(u64, u64, u64)>,
    pub utilization_pct: Option<u32>,
    pub temperature_c: Option<u32>,
}

/// The name of a device; `unknown` if it could not be read.
pub open spec fn reading_name(reading: DeviceReading) -> Seq<char> {
    match reading.name {
        Some(name) => name@,
        None => "unknown"@,
    }
}

/// Whether metrics are those of a reading.
pub open spec fn is_metrics_of(metrics: DeviceMetrics, reading: DeviceReading) -> bool {
    &&& reading.memory is Some
    &&& metrics.index == reading.index
    &&& metrics.vendor == GpuVendor::Nvidia
    &&& metrics.name@ == reading_name(reading)
    &&& metrics.family == family::family_of(reading_name(reading))
    &&& metrics.vram_total_mb == (reading.memory->0).0 / MEGABYTE
    &&& metrics.vram_used_mb == Some((reading.memory->0).1 / MEGABYTE)
    &&& metrics.vram_free_mb == Some((reading.memory->0).2 / MEGABYTE)
    &&& metrics.utilization_pct == reading.utilization_pct
    &&& metrics.temperature_c == reading.temperature_c
}

/// The readings with memory, in order.
pub open spec fn readable(readings: Seq<DeviceReading>) -> Seq<DeviceReading>
    decreases readings.len(),
{
    if readings.len() == 0 {
        Seq::empty()
    } else {
        let before = readable(readings.drop_last());
        if readings.last().memory is Some {
            before.push(readings.last())
        } else {
            before
        }
    }
}

/// Metrics of the devices that the management library reports. A device whose
/// memory cannot be read is left out.
pub fn nvml_devices(readings: &Vec<DeviceReading>) -> (r: Vec<DeviceMetrics>)
    ensures
        r@.len() == readable(readings@).len(),
        forall|i: int|
            0 <= i < r@.len() ==> is_metrics_of(#[trigger] r@[i], readable(readings@)[i]),
{
    let mut out: Vec<DeviceMetrics> = Vec::new();
    let mut i: usize = 0;
    while i < readings.len()
        invariant
            i <= readings@.len(),
            out@.len() == readable(readings@.take(i as int)).len(),
            forall|j: int|
                0 <= j < out@.len() ==> is_metrics_of(
                    #[trigger] out@[j],
                    readable(readings@.take(i as int))[j],
                ),
        decreases readings.len() - i,
    {
        assert(readings@.take(i + 1).drop_last() =~= readings@.take(i as int));
        let reading: &DeviceReading = &readings[i];
        match reading.memory {
            Some((total, used, free)) => {
                let name: String = match &reading.name {
                    Some(name) => name.clone(),
                    None => "unknown".to_owned(),
                };
                let family: Option<GpuFamily> = GpuFamily::from_device_name(name.as_str());
                out.push(
                    DeviceMetrics {
                        index: reading.index,
                        vendor: GpuVendor::Nvidia,
                        name,
                        family,
                        vram_total_mb: total / MEGABYTE,
                        vram_used_mb: Some(used / MEGABYTE),
                        vram_free_mb: Some(free / MEGABYTE),
                        utilization_pct: reading.utilization_pct,
                        temperature_c: reading.temperature_c,
                    },
                );
            },
            None => {},
        }
        i = i + 1;
    }
    assert(readings@.take(readings@.len() as int) =~= readings@);
    out
}

/// Memory in use over devices, in megabytes.
pub open spec fn used_mb(readings: Seq<DeviceReading>) -> int
    decreases readings.len(),
{
    if readings.len() == 0 {
        0
    } else {
        used_mb(readings.drop_last()) + (match readings.last().memory {
            Some((_, used, _)) => (used / MEGABYTE) as int,
            None => 0,
        })
    }
}

proof fn lemma_used_prefix(readings: Seq<DeviceReading>, i: int)
    requires
        0 <= i <= readings.len(),
    ensures
        0 <= used_mb(readings.take(i)) <= used_mb(readings),
    decreases readings.len(),
{
    if i == readings.len() {
        assert(readings.take(i) =~= readings);
        if i > 0 {
            lemma_used_prefix(readings.drop_last(), i - 1);
            assert(readings.drop_last().take(i - 1) =~= readings.drop_last());
        }
    } else {
        lemma_used_prefix(readings.drop_last(), i);
        assert(readings.take(i) =~= readings.drop_last().take(i));
    }
}

/// Device memory in use across all devices, in megabytes.
pub open spec fn memory_used(readings: Seq<DeviceReading>) -> Option<u64> {
    if readings.len() == 0 {
        None
    } else {
        Some(used_mb(readings) as u64)
    }
}

/// Device memory in use across all devices; absent where there is no device.
pub fn nvml_memory_used(readings: &Vec<DeviceReading>) -> (r: Option<u64>)
    requires
        used_mb(readings@) <= u64::MAX,
    ensures
        r == memory_used(readings@),
{
    if readings.len() == 0 {
        return None;
    }
    let mut total: u64 = 0;
    let mut i: usize = 0;
    while i < readings.len()
        invariant
            i <= readings@.len(),
            total == used_mb(readings@.take(i as int)),
            used_mb(readings@) <= u64::MAX,
        decreases readings.len() - i,
    {
        proof {
            assert(readings@.take(i + 1).drop_last() =~= readings@.take(i as int));
            lemma_used_prefix(readings@, i + 1);
        }
        match readings[i].memory {
            Some((_, used, _)) => {
                total = total + used / MEGABYTE;
            },
            None => {},
        }
        i = i + 1;
    }
    assert(readings@.take(readings@.len() as int) =~= readings@);
    Some(total)
}

/// Free memory where some of a total is in use.
pub open spec fn free_mb(total: u64, used: Option<u64>) -> Option<u64> {
    match used {
        Some(u) => Some(
            if u <= total {
                (total - u) as u64
            } else {
                0
            },
        ),
        None => None,
    }
}

/// Whether a device is one without device memory of its own, whose use is that
/// of the process.
pub open spec fn is_shared_device(
    d: DeviceMetrics,
    vendor: GpuVendor,
    name: Seq<char>,
    family: Option<GpuFamily>,
    total: u64,
    used: Option<u64>,
) -> bool {
    &&& d.index == 0
    &&& d.vendor == vendor
    &&& d.name@ == name
    &&& d.family == family
    &&& d.vram_total_mb == total
    &&& d.vram_used_mb == used
    &&& d.vram_free_mb == free_mb(total, used)
    &&& d.utilization_pct is None
    &&& d.temperature_c is None
}

fn shared_device(
    vendor: GpuVendor,
    name: String,
    family: Option<GpuFamily>,
    total: u64,
    used: Option<u64>,
) -> (r: DeviceMetrics)
    ensures
        is_shared_device(r, vendor, name@, family, total, used),
{
    DeviceMetrics {
        index: 0,
        vendor,
        name,
        family,
        vram_total_mb: total,
        vram_used_mb: used,
        vram_free_mb: match used {
            Some(u) => Some(total.saturating_sub(u)),
            None => None,
        },
        utilization_pct: None,
        temperature_c: None,
    }
}

/// Whether devices are those of a machine without GPU.
pub open spec fn are_cpu_devices(
    devices: Seq<DeviceMetrics>,
    total: Option<u64>,
    used: Option<u64>,
) -> bool {
    match total {
        None => devices.len() == 0,
        Some(mb) => devices.len() == 1 && is_shared_device(
            devices[0],
            GpuVendor::Unknown,
            "CPU (system RAM)"@,
            Some(GpuFamily::Cpu),
            mb,
            used,
        ),
    }
}

/// The one device of a machine without GPU: system memory stands in for device
/// memory, and process memory for its use. There is none where the system's
/// memory is not known.
pub fn cpu_devices(total: Option<u64>, used: Option<u64>) -> (r: Vec<DeviceMetrics>)
    ensures
        are_cpu_devices(r@, total, used),
{
    let mut out: Vec<DeviceMetrics> = Vec::new();
    match total {
        None => {},
        Some(mb) => {
            out.push(
                shared_device(
                    GpuVendor::Unknown,
                    "CPU (system RAM)".to_owned(),
                    Some(GpuFamily::Cpu),
                    mb,
                    used,
                ),
            );
        },
    }
    out
}

/// Whether devices are those of a machine with unified memory.
pub open spec fn are_metal_devices(
    devices: Seq<DeviceMetrics>,
    name: Seq<char>,
    working_set: u64,
    used: Option<u64>,
) -> bool {
    devices.len() == 1 && is_shared_device(
        devices[0],
        GpuVendor::Apple,
        name,
        family::family_of(name),
        working_set / MEGABYTE,
        used,
    )
}

/// The one device of a machine with unified memory: the working set in bytes
/// that the device recommends, and the memory of the process.
pub fn metal_devices(name: String, working_set: u64, used: Option<u64>) -> (r: Vec<DeviceMetrics>)
    ensures
        are_metal_devices(r@, name@, working_set, used),
{
    let family: Option<GpuFamily> = GpuFamily::from_device_name(name.as_str());
    let mut out: Vec<DeviceMetrics> = Vec::new();
    out.push(shared_device(GpuVendor::Apple, name, family, working_set / MEGABYTE, used));
    out
}

/// Judges the return code of a driver call.
pub fn check(code: i32, what: &str) -> (r: Result<(), String>)
    ensures
        match r {
            Ok(_) => code == 0,
            Err(e) => code != 0 && e@ == what@ + " returned CUDA error "@ + text::signed_decimal(
                code as int,
            ),
        },
{
    if code == 0 {
        Ok(())
    } else {
        let head: String = joined(what, " returned CUDA error ");
        Err(joined(head.as_str(), signed_decimal_text(code as i64).as_str()))
    }
}

/// Whether a file is the management library, by its name.
pub fn is_nvml_library(file: &str) -> (r: bool)
    ensures
        r == "libnvidia-ml.so"@.is_prefix_of(file@),
{
    let name: Vec<char> = crate::text::chars_of(file);
    let prefix: Vec<char> = crate::text::chars_of("libnvidia-ml.so");
    if name.len() < prefix.len() {
        return false;
    }
    let mut i: usize = 0;
    while i < prefix.len()
        invariant
            i <= prefix@.len() <= name@.len(),
            prefix@ == "libnvidia-ml.so"@,
            name@ == file@,
            forall|j: int| 0 <= j < i ==> name@[j] == #[trigger] prefix@[j],
        decreases prefix.len() - i,
    {
        if name[i] != prefix[i] {
            assert(name@.take(prefix@.len() as int)[i as int] == name@[i as int]);
            return false;
        }
        i = i + 1;
    }
    assert(prefix@ =~= name@.take(prefix@.len() as int));
    true
}

/// Memory is conserved: what is free and what is in use make up the total,
/// where no more is in use than there is.
pub proof fn law_free_and_used_make_total(total: u64, used: u64)
    requires
        used <= total,
    ensures
        free_mb(total, Some(used))->0 + used == total,
{
}

/// The devices that are reported are those whose memory could be read, in order.
pub proof fn law_readable_devices_are_kept(readings: Seq<DeviceReading>)
    ensures
        readable(readings) == readings.filter(|reading: DeviceReading| reading.memory is Some),
    decreases readings.len(),
{
    reveal(Seq::filter);
    if readings.len() > 0 {
        law_readable_devices_are_kept(readings.drop_last());
    }
}

/// What is reported of a device is its own reading: total, used and free memory are each
/// the bytes of that name in whole megabytes, and everything else is as it was read.
pub proof fn law_metrics_are_the_reading(metrics: DeviceMetrics, reading: DeviceReading)
    requires
        is_metrics_of(metrics, reading),
    ensures
        ({
            let (total, used, free) = reading.memory->0;
            &&& metrics.index == reading.index
            &&& metrics.vram_total_mb * 1_048_576 <= total < (metrics.vram_total_mb + 1) * 1_048_576
            &&& metrics.vram_used_mb is Some && metrics.vram_used_mb->0 * 1_048_576 <= used < (
            metrics.vram_used_mb->0 + 1) * 1_048_576
            &&& metrics.vram_free_mb is Some && metrics.vram_free_mb->0 * 1_048_576 <= free < (
            metrics.vram_free_mb->0 + 1) * 1_048_576
            &&& metrics.utilization_pct == reading.utilization_pct
            &&& metrics.temperature_c == reading.temperature_c
            &&& reading.name matches Some(name) ==> metrics.name@ == name@
            &&& reading.name is None ==> metrics.name@ == "unknown"@
            &&& metrics.family == family::family_of(metrics.name@)
            &&& metrics.vendor == GpuVendor::Nvidia
        }),
{
}

/// Memory in use adds up over devices, in whole megabytes of each; a device whose memory
/// could not be read adds nothing.
pub proof fn law_used_memory_adds_up(readings: Seq<DeviceReading>, reading: DeviceReading)
    ensures
        used_mb(Seq::empty()) == 0,
        reading.memory is None ==> used_mb(readings.push(reading)) == used_mb(readings),
        reading.memory matches Some((_, used, _)) ==> ({
            let added = used_mb(readings.push(reading)) - used_mb(readings);
            added * 1_048_576 <= used < (added + 1) * 1_048_576
        }),
{
    assert(readings.push(reading).drop_last() =~= readings);
}

/// Where more is in use than there is, nothing is free; where the use is not known, neither
/// is what is free.
pub proof fn law_free_memory_is_not_negative(total: u64, used: Option<u64>)
    ensures
        free_mb(total, used) is Some <==> used is Some,
        used matches Some(u) ==> free_mb(total, used)->0 <= total && (u >= total ==> free_mb(
            total,
            used,
        )->0 == 0) && (u <= total ==> free_mb(total, used)->0 + u == total),
{
}

/// A device without memory of its own is the only one, and has no utilization and no
/// temperature to report. Its memory is what was given.
pub proof fn law_shared_devices_report_what_was_given(
    d: DeviceMetrics,
    vendor: GpuVendor,
    name: Seq<char>,
    family: Option<GpuFamily>,
    total: u64,
    used: Option<u64>,
)
    requires
        is_shared_device(d, vendor, name, family, total, used),
    ensures
        d.index == 0,
        d.vendor == vendor,
        d.name@ == name,
        d.family == family,
        d.vram_total_mb == total,
        d.vram_used_mb == used,
        d.vram_free_mb is Some <==> used is Some,
        used matches Some(u) ==> (u <= total ==> d.vram_free_mb->0 + u == total),
        d.utilization_pct is None,
        d.temperature_c is None,
{
}

/// Without devices nothing is known of the memory in use; with devices it is what they use
/// together.
pub proof fn law_memory_is_used_by_devices(readings: Seq<DeviceReading>)
    requires
        used_mb(readings) <= u64::MAX,
    ensures
        memory_used(readings) is None <==> readings.len() == 0,
        memory_used(readings) matches Some(mb) ==> mb == used_mb(readings),
{
    lemma_used_prefix(readings, 0);
}

/// A machine without GPU has one device where its memory is known, the processor with that
/// memory, and none where it is not.
pub proof fn law_processors_stand_in(
    devices: Seq<DeviceMetrics>,
    total: Option<u64>,
    used: Option<u64>,
)
    requires
        are_cpu_devices(devices, total, used),
    ensures
        devices.len() == (if total is Some {
            1nat
        } else {
            0nat
        }),
        total matches Some(mb) ==> devices[0].vram_total_mb == mb && devices[0].vram_used_mb == used
            && devices[0].family == Some(GpuFamily::Cpu) && devices[0].vendor == GpuVendor::Unknown
            && devices[0].index == 0,
{
}

/// A machine with unified memory has one device, under its own name, whose memory is the
/// recommended working set in whole megabytes.
pub proof fn law_unified_memory_is_one_device(
    devices: Seq<DeviceMetrics>,
    name: Seq<char>,
    working_set: u64,
    used: Option<u64>,
)
    requires
        are_metal_devices(devices, name, working_set, used),
    ensures
        devices.len() == 1,
        devices[0].vram_total_mb * 1_048_576 <= working_set < (devices[0].vram_total_mb + 1)
            * 1_048_576,
        devices[0].vram_used_mb == used,
        devices[0].name@ == name,
        devices[0].family == family::family_of(name),
        devices[0].vendor == GpuVendor::Apple,
        devices[0].index == 0,
{
}

} // verus!
