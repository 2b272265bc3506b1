//! Telemetry of the graphics card: what the driver and Vulkan say of it, put together. What nobody
//! knows stays `None`.

use vstd::prelude::*;

use crate::text;

verus! {

pub const BYTES_PER_MIB: u64 = 1_048_576;

/// What Vulkan says of its memory: what the process may use, and what it uses.
#[derive(Debug, Clone, Copy, PartialEq, Eq, Structural)]
pub struct MemoryBudget {
    pub budget_bytes: u64,
    pub usage_bytes: u64,
}

/// A graphics card with the driver `amdgpu`.
#[derive(Debug)]
pub struct Card {
    pub device_dir: String,
    pub vram_total_bytes: u64,
}

/// What the driver says of a card.
#[derive(Debug)]
pub struct CardReadings {
    pub vram_used_bytes: Option<u64>,
    pub busy_percent: Option<u64>,
    pub kernel_driver: Option<String>,
    pub temp_millidegrees: Option<u64>,
    /// Old kernels have this one.
    pub power_average_microwatts: Option<u64>,
    /// New kernels have this one.
    pub power_input_microwatts: Option<u64>,
    pub power_cap_microwatts: Option<u64>,
    pub fan_rpm: Option<u64>,
}

/// What Vulkan says of its device.
#[derive(Debug)]
pub struct DeviceFacts {
    pub device_local_bytes: u64,
    pub driver_name: Option<String>,
    pub driver_info: Option<String>,
    pub api_version: String,
}

/// What is known of the graphics card.
#[derive(Debug)]
pub struct GpuTelemetry {
    pub name: Option<String>,
    pub vram_total_bytes: Option<u64>,
    /// Used by all programs.
    pub vram_used_bytes: Option<u64>,
    pub utilization_pct: Option<u64>,
    pub temperature_millidegrees: Option<u64>,
    pub power_draw_microwatts: Option<u64>,
    pub power_limit_microwatts: Option<u64>,
    pub fan_rpm: Option<u64>,
    /// Driver of the kernel.
    pub kernel_driver: Option<String>,
    /// Driver of Vulkan and its version.
    pub driver_name: Option<String>,
    pub driver_info: Option<String>,
    /// Version of Vulkan that the device offers.
    pub vulkan_api_version: Option<String>,
}

impl GpuTelemetry {
    pub open spec fn spec_available(self) -> bool {
        self.name is Some || self.vram_total_bytes is Some
    }

    /// A graphics card was found, by Vulkan or by the driver.
    pub fn available(&self) -> (r: bool)
        ensures
            r == self.spec_available(),
    {
        self.name.is_some() || self.vram_total_bytes.is_some()
    }

    /// Memory that no program uses, where both numbers are known.
    pub fn vram_free_bytes(&self) -> (r: Option<u64>)
        ensures
            match (self.vram_total_bytes, self.vram_used_bytes) {
                (Some(total), Some(used)) => r == Some(
                    if used <= total {
                        (total - used) as u64
                    } else {
                        0
                    },
                ),
                _ => r is None,
            },
    {
        match (self.vram_total_bytes, self.vram_used_bytes) {
            (Some(total), Some(used)) => Some(total.saturating_sub(used)),
            _ => None,
        }
    }
}

/// The name of an operating system as the interface knows it.
pub fn host_platform(os: &str) -> (r: String)
    ensures
        r@ == (if os@ == "macos"@ {
            "mac"@
        } else {
            os@
        }),
{
    if text::same(os, "macos") {
        "mac".to_owned()
    } else {
        os.to_owned()
    }
}

/// `vulkan` if a card was found, else `cpu`.
pub fn device_backend(gpu: &GpuTelemetry) -> (r: &'static str)
    ensures
        r@ == if gpu.spec_available() {
            "vulkan"@
        } else {
            "cpu"@
        },
{
    if gpu.available() {
        "vulkan"
    } else {
        "cpu"
    }
}

/// Whole mebibytes.
pub fn bytes_to_mib(bytes: u64) -> (r: u64)
    ensures
        r == bytes / BYTES_PER_MIB,
{
    bytes / BYTES_PER_MIB
}

/// Used by all programs, as a budget lets it be estimated: the total without what the process may
/// use, and with what it uses itself, never more than there is.
pub open spec fn spec_used_from_budget(total: u64, budget: MemoryBudget) -> int {
    let others = if budget.budget_bytes <= total {
        total - budget.budget_bytes
    } else {
        0
    };
    if others + budget.usage_bytes < total {
        others + budget.usage_bytes
    } else {
        total as int
    }
}

/// An estimate of the memory that all programs use. A strange answer of the driver never gives more
/// than there is.
pub fn used_from_budget(total: u64, budget: MemoryBudget) -> (r: u64)
    ensures
        r == spec_used_from_budget(total, budget),
        r <= total,
{
    let sum = total.saturating_sub(budget.budget_bytes).saturating_add(budget.usage_bytes);
    if sum < total {
        sum
    } else {
        total
    }
}

/// Whether what `amdgpu` says belongs to the device of Vulkan: only if that is a card of AMD, or if
/// there is none.
pub open spec fn amd_name(name: Option<String>) -> bool {
    match name {
        Some(s) => text::has_part(s@, "AMD"@) || text::has_part(s@, "Radeon"@),
        None => true,
    }
}

/// Whether what `amdgpu` says belongs to the device of Vulkan.
pub fn sysfs_matches_vulkan_name(name: &Option<String>) -> (r: bool)
    ensures
        r == amd_name(*name),
{
    match name {
        Some(s) => text::contains(s.as_str(), "AMD") || text::contains(s.as_str(), "Radeon"),
        None => true,
    }
}

/// Whether a name is that of a card, not of a connector: `card` and a number.
pub open spec fn card_name(name: Seq<char>) -> bool {
    let n = "card"@.len();
    text::occurs_at(name, "card"@, 0) && name.len() > n && text::all_digits(name.skip(n as int))
}

/// Whether a name is that of a card, not of a connector (`card1-DP-1`).
pub fn is_card_name(name: &str) -> (r: bool)
    ensures
        r == card_name(name@),
{
    let chars = text::to_chars(name);
    let prefix = text::to_chars("card");
    if !text::matches_at(&chars, &prefix, 0) {
        return false;
    }
    assert(name@.skip(prefix@.len() as int) =~= name@.subrange(
        prefix@.len() as int,
        name@.len() as int,
    ));
    chars.len() > prefix.len() && text::digits_only(&chars, prefix.len(), chars.len())
}

pub open spec fn abs_diff(a: int, b: int) -> int {
    if a < b {
        b - a
    } else {
        a - b
    }
}

/// Whether card `i` is the one to be read: the first whose memory is closest to that of Vulkan; where
/// that is unknown, the last of those with the most memory.
pub open spec fn best_card(cards: Seq<Card>, vulkan_total: Option<u64>, i: int) -> bool {
    match vulkan_total {
        Some(total) => {
            &&& forall|k: int|
                0 <= k < cards.len() ==> abs_diff(cards[i].vram_total_bytes as int, total as int)
                    <= abs_diff((#[trigger] cards[k]).vram_total_bytes as int, total as int)
            &&& forall|k: int|
                0 <= k < i ==> abs_diff(cards[i].vram_total_bytes as int, total as int) < abs_diff(
                    (#[trigger] cards[k]).vram_total_bytes as int,
                    total as int,
                )
        },
        None => {
            &&& forall|k: int|
                0 <= k < cards.len() ==> (#[trigger] cards[k]).vram_total_bytes
                    <= cards[i].vram_total_bytes
            &&& forall|k: int|
                i < k < cards.len() ==> (#[trigger] cards[k]).vram_total_bytes
                    < cards[i].vram_total_bytes
        },
    }
}

fn distance(a: u64, b: u64) -> (r: u64)
    ensures
        r == abs_diff(a as int, b as int),
{
    if a < b {
        b - a
    } else {
        a - b
    }
}

/// The position of the card of the Vulkan device; nothing if there are no cards.
pub fn pick_card(cards: &Vec<Card>, vulkan_total: Option<u64>) -> (r: Option<usize>)
    ensures
        match r {
            Some(i) => i < cards@.len() && best_card(cards@, vulkan_total, i as int),
            None => cards@.len() == 0,
        },
{
    if cards.len() == 0 {
        return None;
    }
    let mut best: usize = 0;
    let mut i: usize = 1;
    while i < cards.len()
        invariant
            best < i <= cards@.len(),
            best_card(cards@.take(i as int), vulkan_total, best as int),
        decreases cards@.len() - i,
    {
        let ghost seen = cards@.take(i as int);
        let better = match vulkan_total {
            Some(total) => distance(cards[i].vram_total_bytes, total) < distance(
                cards[best].vram_total_bytes,
                total,
            ),
            None => cards[i].vram_total_bytes >= cards[best].vram_total_bytes,
        };
        let ghost next = cards@.take(i + 1);
        proof {
            assert forall|k: int| 0 <= k < i implies #[trigger] next[k] == seen[k] by {}
            assert(next[i as int] == cards@[i as int]);
            assert(seen[best as int] == cards@[best as int]);
        }
        if better {
            best = i;
        }
        i += 1;
    }
    assert(cards@.take(i as int) =~= cards@);
    Some(best)
}

pub open spec fn opt(o: Option<String>) -> Option<Seq<char>> {
    match o {
        Some(s) => Some(s@),
        None => None,
    }
}

/// What Vulkan says of its device: its name, where it is not empty, and its memory, where it has
/// any.
pub fn from_vulkan(device_name: Option<String>, info: Option<DeviceFacts>) -> (r: GpuTelemetry)
    ensures
        opt(r.name) == match device_name {
            Some(n) => if text::trimmed(n@).len() == 0 {
                None
            } else {
                Some(text::trimmed(n@))
            },
            None => None,
        },
        match info {
            Some(i) => {
                &&& r.vram_total_bytes == if i.device_local_bytes > 0 {
                    Some(i.device_local_bytes)
                } else {
                    None
                }
                &&& opt(r.driver_name) == opt(i.driver_name)
                &&& opt(r.driver_info) == opt(i.driver_info)
                &&& opt(r.vulkan_api_version) == Some(i.api_version@)
            },
            None => r.vram_total_bytes is None && r.driver_name is None && r.driver_info is None
                && r.vulkan_api_version is None,
        },
        r.vram_used_bytes is None,
        r.utilization_pct is None,
        r.temperature_millidegrees is None,
        r.power_draw_microwatts is None,
        r.power_limit_microwatts is None,
        r.fan_rpm is None,
        r.kernel_driver is None,
{
    let name = match device_name {
        Some(n) => {
            let n = text::trim(n.as_str());
            if n.as_str().is_empty() {
                None
            } else {
                Some(n)
            }
        },
        None => None,
    };
    let mut r = GpuTelemetry {
        name,
        vram_total_bytes: None,
        vram_used_bytes: None,
        utilization_pct: None,
        temperature_millidegrees: None,
        power_draw_microwatts: None,
        power_limit_microwatts: None,
        fan_rpm: None,
        kernel_driver: None,
        driver_name: None,
        driver_info: None,
        vulkan_api_version: None,
    };
    if let Some(i) = info {
        if i.device_local_bytes > 0 {
            r.vram_total_bytes = Some(i.device_local_bytes);
        }
        r.driver_name = i.driver_name;
        r.driver_info = i.driver_info;
        r.vulkan_api_version = Some(i.api_version);
    }
    r
}

/// Adds what the driver says of the card that was picked. What the driver knows replaces what Vulkan
/// said of the memory.
pub fn with_card(t: GpuTelemetry, vram_total_bytes: u64, card: CardReadings) -> (r: GpuTelemetry)
    ensures
        r.name == t.name,
        r.vram_total_bytes == Some(vram_total_bytes),
        r.vram_used_bytes == card.vram_used_bytes,
        r.utilization_pct == card.busy_percent,
        r.kernel_driver == card.kernel_driver,
        r.temperature_millidegrees == card.temp_millidegrees,
        r.power_draw_microwatts == if card.power_average_microwatts is Some {
            card.power_average_microwatts
        } else {
            card.power_input_microwatts
        },
        r.power_limit_microwatts == card.power_cap_microwatts,
        r.fan_rpm == card.fan_rpm,
        r.driver_name == t.driver_name,
        r.driver_info == t.driver_info,
        r.vulkan_api_version == t.vulkan_api_version,
{
    GpuTelemetry {
        name: t.name,
        vram_total_bytes: Some(vram_total_bytes),
        vram_used_bytes: card.vram_used_bytes,
        utilization_pct: card.busy_percent,
        temperature_millidegrees: card.temp_millidegrees,
        power_draw_microwatts: if card.power_average_microwatts.is_some() {
            card.power_average_microwatts
        } else {
            card.power_input_microwatts
        },
        power_limit_microwatts: card.power_cap_microwatts,
        fan_rpm: card.fan_rpm,
        kernel_driver: card.kernel_driver,
        driver_name: t.driver_name,
        driver_info: t.driver_info,
        vulkan_api_version: t.vulkan_api_version,
    }
}

/// Estimates the used memory by the budget of Vulkan where the driver did not tell it.
pub fn with_budget(t: GpuTelemetry, budget: Option<MemoryBudget>) -> (r: GpuTelemetry)
    ensures
        match (t.vram_used_bytes, t.vram_total_bytes, budget) {
            (None, Some(total), Some(b)) => r == (GpuTelemetry {
                vram_used_bytes: Some(spec_used_from_budget(total, b) as u64),
                ..t
            }),
            _ => r == t,
        },
{
    let mut t = t;
    if t.vram_used_bytes.is_none() {
        if let Some(total) = t.vram_total_bytes {
            if let Some(b) = budget {
                t.vram_used_bytes = Some(used_from_budget(total, b));
            }
        }
    }
    t
}

} // verus!
