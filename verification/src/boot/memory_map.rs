//! The map of physical memory, from the firmware or the boot loader.
use crate::arch::Platform;
use crate::bytes;
use crate::c_fastpath;
use vstd::prelude::*;
use vstd::slice::slice_subrange;
use vstd::string::StringSliceAdditionalSpecFns;

verus! {

pub const HANDOFF_MAGIC: u64 = 0x5255_5354_4d45_4d31;

pub const HANDOFF_VERSION: u32 = 1;

pub const MAX_REGIONS: usize = 256;

pub const MAX_BOOT_DATA_SIZE: u64 = 0x10_0000;

#[derive(Clone, Copy, Debug, PartialEq, Eq, Structural)]
pub enum MemorySource {
    BiosE820,
    Multiboot2,
    Uefi,
    DeviceTree,
    Unknown,
}

/// The name of what described the memory.
pub open spec fn source_name(source: MemorySource) -> &'static str {
    match source {
        MemorySource::BiosE820 => "BIOS E820",
        MemorySource::Multiboot2 => "Multiboot2",
        MemorySource::Uefi => "UEFI",
        MemorySource::DeviceTree => "device tree",
        MemorySource::Unknown => "unavailable",
    }
}

impl MemorySource {
    pub fn name(self) -> (name: &'static str)
        ensures
            name == source_name(self),
    {
        match self {
            MemorySource::BiosE820 => "BIOS E820",
            MemorySource::Multiboot2 => "Multiboot2",
            MemorySource::Uefi => "UEFI",
            MemorySource::DeviceTree => "device tree",
            MemorySource::Unknown => "unavailable",
        }
    }
}

#[derive(Clone, Copy, Debug, PartialEq, Eq, Structural)]
pub enum MemoryRegionKind {
    Usable,
    AcpiReclaimable,
    AcpiNonVolatile,
    Bootloader,
    Reserved,
    Bad,
}

#[derive(Clone, Copy, Debug, PartialEq, Eq, Structural)]
pub struct MemoryRegion {
    pub start: u64,
    pub end: u64,
    pub kind: MemoryRegionKind,
}

impl MemoryRegion {
    pub open spec fn spec_len(self) -> int {
        if self.end >= self.start {
            self.end - self.start
        } else {
            0
        }
    }

    pub fn len(self) -> (length: u64)
        ensures
            length == self.spec_len(),
    {
        self.end.saturating_sub(self.start)
    }
}

/// Physical memory of a machine from `start` on, as far as the boot data may lie in it.
pub struct BootMemory<'a> {
    pub platform: Platform,
    pub start: u64,
    pub bytes: &'a [u8],
}

impl<'a> BootMemory<'a> {
    /// Whether `size` bytes at `address` may be boot data and are at hand.
    pub open spec fn readable(self, address: u64, size: int) -> bool {
        &&& address != 0
        &&& 0 <= size <= MAX_BOOT_DATA_SIZE
        &&& address + size <= self.platform.spec_memory_limit()
        &&& self.start <= address
        &&& address + size <= self.start + self.bytes@.len()
    }

    /// Whether `size` bytes at `address` are at hand.
    pub open spec fn covers(self, address: u64, size: int) -> bool {
        &&& size >= 0
        &&& self.start <= address
        &&& address + size <= self.start + self.bytes@.len()
    }

    /// The `size` bytes at `address`, if they are at hand.
    pub fn slice(&self, address: u64, size: u64) -> (data: Option<&'a [u8]>)
        ensures
            data is Some <==> self.covers(address, size as int),
            data matches Some(bytes) ==> bytes@ == self.contents(address, size as int),
    {
        let length: u64 = self.bytes.len() as u64;
        if address < self.start {
            return None;
        }
        let offset: u64 = address - self.start;
        if offset > length || size > length - offset {
            return None;
        }
        Some(slice_subrange(self.bytes, offset as usize, (offset + size) as usize))
    }

    /// The `size` bytes at `address`.
    pub open spec fn contents(self, address: u64, size: int) -> Seq<u8> {
        self.bytes@.subrange(address - self.start, address - self.start + size)
    }

    /// The `size` bytes at `address`, if they may be boot data.
    pub fn get(&self, address: u64, size: u64) -> (data: Option<&'a [u8]>)
        ensures
            data is Some <==> self.readable(address, size as int),
            data matches Some(bytes) ==> bytes@ == self.contents(address, size as int),
    {
        let length: usize = self.bytes.len();
        let limit: u64 = self.platform.memory_limit();
        if address == 0 || size > MAX_BOOT_DATA_SIZE || address > limit || address + size > limit
            || address < self.start {
            return None;
        }
        let offset: u64 = address - self.start;
        if offset + size > length as u64 {
            return None;
        }
        Some(slice_subrange(self.bytes, offset as usize, (offset + size) as usize))
    }
}

/// The regions of the physical memory of a machine and the range that holds the boot data.
#[derive(Clone, Copy)]
pub struct MemoryMap {
    platform: Platform,
    source: MemorySource,
    regions: [MemoryRegion; 256],
    len: usize,
    boot_data: Option<(u64, u64)>,
}

#[verifier::ext_equal]
pub struct MemoryMapView {
    pub platform: Platform,
    pub source: MemorySource,
    pub regions: Seq<MemoryRegion>,
    pub boot_data: Option<(u64, u64)>,
}

/// A map that knows of no memory.
pub open spec fn empty_map(platform: Platform, source: MemorySource) -> MemoryMapView {
    MemoryMapView { platform, source, regions: Seq::empty(), boot_data: None }
}

impl View for MemoryMap {
    type V = MemoryMapView;

    closed spec fn view(&self) -> MemoryMapView {
        MemoryMapView {
            platform: self.platform,
            source: self.source,
            regions: self.regions@.take(self.len as int),
            boot_data: self.boot_data,
        }
    }
}

/// How strongly a kind asserts itself where regions overlap.
pub open spec fn priority(kind: MemoryRegionKind) -> int {
    match kind {
        MemoryRegionKind::Usable => 0,
        MemoryRegionKind::Bootloader => 1,
        MemoryRegionKind::AcpiReclaimable => 2,
        MemoryRegionKind::AcpiNonVolatile => 3,
        MemoryRegionKind::Reserved => 4,
        MemoryRegionKind::Bad => 5,
    }
}

pub fn kind_priority(kind: MemoryRegionKind) -> (rank: u8)
    ensures
        rank == priority(kind),
{
    match kind {
        MemoryRegionKind::Usable => 0,
        MemoryRegionKind::Bootloader => 1,
        MemoryRegionKind::AcpiReclaimable => 2,
        MemoryRegionKind::AcpiNonVolatile => 3,
        MemoryRegionKind::Reserved => 4,
        MemoryRegionKind::Bad => 5,
    }
}

/// Region `index` holds `address` and is of `kind`.
pub open spec fn holds(
    regions: Seq<MemoryRegion>,
    index: int,
    address: int,
    kind: MemoryRegionKind,
) -> bool {
    0 <= index < regions.len() && regions[index].kind == kind && regions[index].start <= address
        < regions[index].end
}

/// A region of `kind` holds `address`.
pub open spec fn covered_as(
    regions: Seq<MemoryRegion>,
    address: int,
    kind: MemoryRegionKind,
) -> bool {
    exists|index: int| holds(regions, index, address, kind)
}

/// `kind` is the strongest kind of the regions that hold `address`.
pub open spec fn strongest(
    regions: Seq<MemoryRegion>,
    address: int,
    kind: MemoryRegionKind,
) -> bool {
    covered_as(regions, address, kind) && forall|other: MemoryRegionKind|
        #[trigger] covered_as(regions, address, other) ==> priority(other) <= priority(kind)
}

/// Regions that are not empty, ascend without overlap, and are as long as they can
/// be.
pub open spec fn orderly(regions: Seq<MemoryRegion>) -> bool {
    &&& forall|i: int| 0 <= i < regions.len() ==> (#[trigger] regions[i]).start < regions[i].end
    &&& forall|i: int, j: int|
        0 <= i < j < regions.len() ==> (#[trigger] regions[i]).end <= (#[trigger] regions[j]).start
    &&& forall|i: int, j: int|
        0 <= i && j == i + 1 && j < regions.len() ==> !((#[trigger] regions[i]).end == (
        #[trigger] regions[j]).start && regions[i].kind == regions[j].kind)
}

/// `normal` says of every address what the strongest of the `raw` regions says of
/// it, in orderly regions.
pub open spec fn is_normal_form(normal: Seq<MemoryRegion>, raw: Seq<MemoryRegion>) -> bool {
    &&& orderly(normal)
    &&& forall|address: int, kind: MemoryRegionKind|
        #![trigger covered_as(normal, address, kind)]
        #![trigger strongest(raw, address, kind)]
        covered_as(normal, address, kind) <==> strongest(raw, address, kind)
}

/// `regions` is the normal form of `raw`; a normal form that has more regions than
/// a map can hold is refused whole.
pub open spec fn normalizes_to(raw: Seq<MemoryRegion>, regions: Seq<MemoryRegion>) -> bool {
    exists|normal: Seq<MemoryRegion>| #[trigger]
        is_normal_form(normal, raw) && regions == (if normal.len() <= 256 {
            normal
        } else {
            Seq::empty()
        })
}

/// The regions after one more was entered; `None` if its end does not exist or the
/// map is full. What lies above the memory that the machine can use is cut off.
pub open spec fn pushed(
    platform: Platform,
    regions: Seq<MemoryRegion>,
    start: u64,
    length: u64,
    kind: MemoryRegionKind,
) -> Option<Seq<MemoryRegion>> {
    let limit = platform.spec_memory_limit() as int;
    let end = if start + length <= limit {
        start + length
    } else {
        limit
    };
    if start + length > u64::MAX {
        None
    } else if start >= end {
        Some(regions)
    } else if regions.len() >= 256 {
        None
    } else {
        Some(regions.push(MemoryRegion { start, end: end as u64, kind }))
    }
}

/// The usable bytes of the first `count` regions, as far as `u64` counts.
pub open spec fn usable(regions: Seq<MemoryRegion>, count: nat) -> int
    decreases count,
{
    if count == 0 {
        0
    } else {
        let region = regions[count - 1];
        let before = usable(regions, (count - 1) as nat);
        if region.kind != MemoryRegionKind::Usable {
            before
        } else if before + region.spec_len() <= u64::MAX {
            before + region.spec_len()
        } else {
            u64::MAX as int
        }
    }
}

/// Every region has a first address below its end, inside the memory that the machine can
/// use.
pub open spec fn regions_valid(platform: Platform, regions: Seq<MemoryRegion>) -> bool {
    forall|i: int|
        0 <= i < regions.len() ==> (#[trigger] regions[i]).start < regions[i].end
            <= platform.spec_memory_limit()
}

/// Adds the window from `start` to `end` with its strongest kind to the regions
/// before it.
pub open spec fn with_window(
    regions: Seq<MemoryRegion>,
    start: u64,
    end: u64,
    kind: Option<MemoryRegionKind>,
) -> Seq<MemoryRegion> {
    match kind {
        None => regions,
        Some(kind) => if regions.len() > 0 && regions.last().kind == kind && regions.last().end
            == start {
            regions.update(
                regions.len() - 1,
                MemoryRegion { start: regions.last().start, end, kind },
            )
        } else {
            regions.push(MemoryRegion { start, end, kind })
        },
    }
}

/// The normal form as far as the addresses below `limit` go.
pub open spec fn normal_below(
    normal: Seq<MemoryRegion>,
    raw: Seq<MemoryRegion>,
    limit: int,
) -> bool {
    &&& orderly(normal)
    &&& forall|i: int| 0 <= i < normal.len() ==> (#[trigger] normal[i]).end <= limit
    &&& forall|address: int, kind: MemoryRegionKind|
        #![trigger covered_as(normal, address, kind)]
        #![trigger strongest(raw, address, kind)]
        address < limit ==> (covered_as(normal, address, kind) <==> strongest(raw, address, kind))
}

/// `start` and `end` are successive boundaries: no region begins or ends between.
pub open spec fn is_window(raw: Seq<MemoryRegion>, start: u64, end: u64) -> bool {
    start < end && forall|i: int|
        0 <= i < raw.len() ==> ((#[trigger] raw[i]).start <= start || raw[i].start >= end) && (
        raw[i].end <= start || raw[i].end >= end)
}

/// The kind of a window: that of all its addresses.
pub open spec fn window_kind(
    raw: Seq<MemoryRegion>,
    start: u64,
    kind: Option<MemoryRegionKind>,
) -> bool {
    match kind {
        Some(kind) => strongest(raw, start as int, kind),
        None => forall|other: MemoryRegionKind| !#[trigger] covered_as(raw, start as int, other),
    }
}

proof fn lemma_window_uniform(raw: Seq<MemoryRegion>, start: u64, end: u64, address: int)
    requires
        is_window(raw, start, end),
        start <= address < end,
    ensures
        forall|kind: MemoryRegionKind|
            covered_as(raw, address, kind) <==> covered_as(raw, start as int, kind),
        forall|kind: MemoryRegionKind|
            strongest(raw, address, kind) <==> strongest(raw, start as int, kind),
{
    assert forall|kind: MemoryRegionKind|
        covered_as(raw, address, kind) <==> covered_as(raw, start as int, kind) by {
        if covered_as(raw, address, kind) {
            let i = choose|i: int| holds(raw, i, address, kind);
            assert(raw[i].start <= start);
            assert(holds(raw, i, start as int, kind));
        }
        if covered_as(raw, start as int, kind) {
            let i = choose|i: int| holds(raw, i, start as int, kind);
            assert(raw[i].end >= end);
            assert(holds(raw, i, address, kind));
        }
    }
    assert forall|kind: MemoryRegionKind|
        strongest(raw, address, kind) <==> strongest(raw, start as int, kind) by {
        assert(covered_as(raw, address, kind) <==> covered_as(raw, start as int, kind));
        if strongest(raw, address, kind) {
            assert forall|other: MemoryRegionKind| #[trigger]
                covered_as(raw, start as int, other) implies priority(other) <= priority(kind) by {
                assert(covered_as(raw, address, other));
            }
        }
        if strongest(raw, start as int, kind) {
            assert forall|other: MemoryRegionKind| #[trigger]
                covered_as(raw, address, other) implies priority(other) <= priority(kind) by {
                assert(covered_as(raw, start as int, other));
            }
        }
    }
}

proof fn lemma_add_window(
    normal: Seq<MemoryRegion>,
    raw: Seq<MemoryRegion>,
    start: u64,
    end: u64,
    kind: Option<MemoryRegionKind>,
)
    requires
        normal_below(normal, raw, start as int),
        is_window(raw, start, end),
        window_kind(raw, start, kind),
    ensures
        normal_below(with_window(normal, start, end, kind), raw, end as int),
        with_window(normal, start, end, kind).len() >= normal.len(),
{
    let next = with_window(normal, start, end, kind);
    let last = normal.len() - 1;
    assert forall|i: int, j: int| 0 <= i < j < next.len() implies (#[trigger] next[i]).end <= (
    #[trigger] next[j]).start by {
        if i < normal.len() {
            assert(normal[i].end <= start);
        }
        if j < normal.len() {
            assert(normal[i].end <= normal[j].start);
        }
    }
    assert forall|i: int, j: int| 0 <= i && j == i + 1 && j < next.len() implies !((
    #[trigger] next[i]).end == (#[trigger] next[j]).start && next[i].kind == next[j].kind) by {
        if j < normal.len() {
            assert(!(normal[i].end == normal[j].start && normal[i].kind == normal[j].kind));
        } else {
            assert(normal[i] == normal.last());
        }
    }
    assert forall|i: int| 0 <= i < next.len() implies (#[trigger] next[i]).start < next[i].end by {
        if i < normal.len() {
            assert(normal[i].start < normal[i].end);
            assert(normal[i].end <= start);
        }
    }
    assert forall|i: int| 0 <= i < next.len() implies (#[trigger] next[i]).end <= end by {
        if i < normal.len() {
            assert(normal[i].end <= start);
        }
    }
    assert forall|address: int, k: MemoryRegionKind|
        #![trigger covered_as(next, address, k)]
        #![trigger strongest(raw, address, k)]
        address < end implies (covered_as(next, address, k) <==> strongest(raw, address, k)) by {
        if address < start {
            assert(covered_as(normal, address, k) <==> strongest(raw, address, k));
            if covered_as(normal, address, k) {
                let i = choose|i: int| holds(normal, i, address, k);
                assert(holds(next, i, address, k));
            }
            if covered_as(next, address, k) {
                let i = choose|i: int| holds(next, i, address, k);
                assert(i < normal.len());
                assert(normal[i].end <= start);
                assert(holds(normal, i, address, k));
            }
        } else {
            lemma_window_uniform(raw, start, end, address);
            assert(strongest(raw, address, k) <==> strongest(raw, start as int, k));
            if covered_as(next, address, k) {
                let i = choose|i: int| holds(next, i, address, k);
                if i < normal.len() {
                    assert(normal[i].end <= start);
                }
                assert(kind == Some(k));
            }
            if strongest(raw, start as int, k) {
                assert(covered_as(raw, start as int, k));
                match kind {
                    Some(w) => {
                        assert(covered_as(raw, start as int, w));
                        assert(priority(w) == priority(k));
                        assert(w == k);
                        assert(holds(next, next.len() - 1, address, k));
                    },
                    None => {},
                }
            }
        }
    }
}

/// A kind is determined by being the strongest, so a window has a kind.
proof fn lemma_window_kind_exists(raw: Seq<MemoryRegion>, address: int, count: int)
    requires
        0 <= count <= raw.len(),
    ensures
        (exists|kind: MemoryRegionKind| strongest(raw.take(count), address, kind)) || (forall|
            kind: MemoryRegionKind,
        |
            !#[trigger] covered_as(raw.take(count), address, kind)),
    decreases count,
{
    if count > 0 {
        lemma_window_kind_exists(raw, address, count - 1);
        let shorter = raw.take(count - 1);
        let longer = raw.take(count);
        let region = raw[count - 1];
        assert forall|kind: MemoryRegionKind|
            #[trigger] covered_as(longer, address, kind) <==> covered_as(shorter, address, kind)
            || holds(longer, count - 1, address, kind) by {
            if covered_as(longer, address, kind) {
                let i = choose|i: int| holds(longer, i, address, kind);
                if i < count - 1 {
                    assert(holds(shorter, i, address, kind));
                }
            }
            if covered_as(shorter, address, kind) {
                let i = choose|i: int| holds(shorter, i, address, kind);
                assert(holds(longer, i, address, kind));
            }
        }
        if exists|kind: MemoryRegionKind| strongest(shorter, address, kind) {
            let k = choose|kind: MemoryRegionKind| strongest(shorter, address, kind);
            if region.start <= address < region.end && priority(region.kind) > priority(k) {
                assert(holds(longer, count - 1, address, region.kind));
                assert(strongest(longer, address, region.kind));
            } else {
                assert(strongest(longer, address, k));
            }
        } else if region.start <= address < region.end {
            assert(holds(longer, count - 1, address, region.kind));
            assert(strongest(longer, address, region.kind));
        }
    }
}

/// Whether `values` are the boundaries of the regions, ascending.
pub open spec fn are_boundaries(values: Seq<u64>, raw: Seq<MemoryRegion>) -> bool {
    &&& c_fastpath::strictly_ascending(values)
    &&& forall|v: u64| #[trigger]
        values.contains(v) <==> exists|i: int|
            0 <= i < raw.len() && ((#[trigger] raw[i]).start == v || raw[i].end == v)
}

proof fn lemma_boundaries_window(values: Seq<u64>, raw: Seq<MemoryRegion>, index: int)
    requires
        are_boundaries(values, raw),
        0 <= index < values.len() - 1,
    ensures
        is_window(raw, values[index], values[index + 1]),
{
    let start = values[index];
    let end = values[index + 1];
    assert forall|i: int| 0 <= i < raw.len() implies ((#[trigger] raw[i]).start <= start || raw[i].start
        >= end) && (raw[i].end <= start || raw[i].end >= end) by {
        assert(values.contains(raw[i].start));
        assert(values.contains(raw[i].end));
        let a = values.index_of(raw[i].start);
        let b = values.index_of(raw[i].end);
        assert(values[a] == raw[i].start);
        assert(values[b] == raw[i].end);
    }
}

/// Going on from a normal form below a boundary reaches a full normal form that is
/// at least as long.
proof fn lemma_complete(
    normal: Seq<MemoryRegion>,
    raw: Seq<MemoryRegion>,
    values: Seq<u64>,
    index: int,
) -> (full: Seq<MemoryRegion>)
    requires
        are_boundaries(values, raw),
        0 <= index < values.len(),
        normal_below(normal, raw, values[index] as int),
    ensures
        is_normal_form(full, raw),
        full.len() >= normal.len(),
    decreases values.len() - index,
{
    if index == values.len() - 1 {
        lemma_nothing_above(normal, raw, values);
        normal
    } else {
        let start = values[index];
        let end = values[index + 1];
        lemma_boundaries_window(values, raw, index);
        lemma_window_kind_exists(raw, start as int, raw.len() as int);
        assert(raw.take(raw.len() as int) =~= raw);
        let kind = if exists|kind: MemoryRegionKind| strongest(raw, start as int, kind) {
            Some(choose|kind: MemoryRegionKind| strongest(raw, start as int, kind))
        } else {
            None
        };
        assert(window_kind(raw, start, kind));
        lemma_add_window(normal, raw, start, end, kind);
        lemma_complete(with_window(normal, start, end, kind), raw, values, index + 1)
    }
}

proof fn lemma_nothing_above(
    normal: Seq<MemoryRegion>,
    raw: Seq<MemoryRegion>,
    values: Seq<u64>,
)
    requires
        are_boundaries(values, raw),
        values.len() > 0,
        normal_below(normal, raw, values.last() as int),
    ensures
        is_normal_form(normal, raw),
{
    let limit = values.last() as int;
    assert forall|address: int, kind: MemoryRegionKind|
        #![trigger covered_as(normal, address, kind)]
        #![trigger strongest(raw, address, kind)]
        covered_as(normal, address, kind) <==> strongest(raw, address, kind) by {
        if address >= limit {
            if covered_as(normal, address, kind) {
                let i = choose|i: int| holds(normal, i, address, kind);
                assert(normal[i].end <= limit);
            }
            if strongest(raw, address, kind) {
                assert(covered_as(raw, address, kind));
                let i = choose|i: int| holds(raw, i, address, kind);
                assert(values.contains(raw[i].end));
                let b = values.index_of(raw[i].end);
                assert(values[b] == raw[i].end);
            }
        }
    }
}

/// The normal form is determined by the regions.
pub proof fn law_normal_form_is_unique(
    a: Seq<MemoryRegion>,
    b: Seq<MemoryRegion>,
    raw: Seq<MemoryRegion>,
)
    requires
        is_normal_form(a, raw),
        is_normal_form(b, raw),
    ensures
        a == b,
{
    assert forall|address: int, kind: MemoryRegionKind|
        #![trigger covered_as(a, address, kind)]
        #![trigger covered_as(b, address, kind)]
        covered_as(a, address, kind) <==> covered_as(b, address, kind) by {
        assert(covered_as(a, address, kind) <==> strongest(raw, address, kind));
        assert(covered_as(b, address, kind) <==> strongest(raw, address, kind));
    }
    if a.len() <= b.len() {
        lemma_orderly_prefix(a, b, a.len() as int);
        if a.len() < b.len() {
            let r = b[a.len() as int];
            assert(holds(b, a.len() as int, r.start as int, r.kind));
            assert(covered_as(b, r.start as int, r.kind));
            assert(covered_as(a, r.start as int, r.kind));
            let i = choose|i: int| holds(a, i, r.start as int, r.kind);
            assert(a[i] == b[i]);
            assert(b[i].end <= b[a.len() as int].start);
        }
        assert(a =~= b);
    } else {
        lemma_orderly_prefix(a, b, b.len() as int);
        let r = a[b.len() as int];
        assert(holds(a, b.len() as int, r.start as int, r.kind));
        assert(covered_as(a, r.start as int, r.kind));
        assert(covered_as(b, r.start as int, r.kind));
        let i = choose|i: int| holds(b, i, r.start as int, r.kind);
        assert(a[i] == b[i]);
        assert(a[i].end <= a[b.len() as int].start);
    }
}

/// Orderly regions that cover the same addresses alike agree one by one.
proof fn lemma_orderly_prefix(a: Seq<MemoryRegion>, b: Seq<MemoryRegion>, count: int)
    requires
        orderly(a),
        orderly(b),
        0 <= count <= a.len(),
        count <= b.len(),
        forall|address: int, kind: MemoryRegionKind|
            #![trigger covered_as(a, address, kind)]
            #![trigger covered_as(b, address, kind)]
            covered_as(a, address, kind) <==> covered_as(b, address, kind),
    ensures
        forall|i: int| 0 <= i < count ==> a[i] == b[i],
    decreases count,
{
    if count > 0 {
        let k = count - 1;
        lemma_orderly_prefix(a, b, k);
        lemma_orderly_starts(a, b, k);
        lemma_orderly_starts(b, a, k);
        assert(a[k].start == b[k].start);
        let s = a[k].start as int;
        assert(holds(a, k, s, a[k].kind));
        assert(covered_as(a, s, a[k].kind));
        assert(covered_as(b, s, a[k].kind));
        let j = choose|j: int| holds(b, j, s, a[k].kind);
        if j < k {
            assert(b[j].end <= b[k].start);
        } else if j > k {
            assert(b[k].end <= b[j].start);
        }
        assert(a[k].kind == b[k].kind);
        lemma_orderly_ends(a, b, k);
        lemma_orderly_ends(b, a, k);
    }
}

proof fn lemma_orderly_starts(a: Seq<MemoryRegion>, b: Seq<MemoryRegion>, k: int)
    requires
        orderly(a),
        orderly(b),
        0 <= k < a.len(),
        k < b.len(),
        forall|i: int| 0 <= i < k ==> a[i] == b[i],
        forall|address: int, kind: MemoryRegionKind|
            #![trigger covered_as(a, address, kind)]
            #![trigger covered_as(b, address, kind)]
            covered_as(a, address, kind) <==> covered_as(b, address, kind),
    ensures
        b[k].start <= a[k].start,
{
    let s = a[k].start as int;
    assert(holds(a, k, s, a[k].kind));
    assert(covered_as(a, s, a[k].kind));
    assert(covered_as(b, s, a[k].kind));
    let j = choose|j: int| holds(b, j, s, a[k].kind);
    if j < k {
        assert(a[j].end <= a[k].start);
    } else if j > k {
        assert(b[k].end <= b[j].start);
        assert(b[k].start < b[k].end);
    }
}

proof fn lemma_orderly_ends(a: Seq<MemoryRegion>, b: Seq<MemoryRegion>, k: int)
    requires
        orderly(a),
        orderly(b),
        0 <= k < a.len(),
        k < b.len(),
        a[k].start == b[k].start,
        a[k].kind == b[k].kind,
        forall|address: int, kind: MemoryRegionKind|
            #![trigger covered_as(a, address, kind)]
            #![trigger covered_as(b, address, kind)]
            covered_as(a, address, kind) <==> covered_as(b, address, kind),
    ensures
        a[k].end <= b[k].end,
{
    if a[k].end > b[k].end {
        let e = b[k].end as int;
        assert(b[k].start < b[k].end);
        assert(holds(a, k, e, a[k].kind));
        assert(covered_as(a, e, a[k].kind));
        assert(covered_as(b, e, a[k].kind));
        let j = choose|j: int| holds(b, j, e, a[k].kind);
        if j <= k {
            if j < k {
                assert(b[j].end <= b[k].start);
            }
        } else {
            assert(b[k].end <= b[j].start);
            assert(b[j].start == e);
            if j == k + 1 {
                assert(!(b[k].end == b[j].start && b[k].kind == b[j].kind));
            } else {
                assert(b[k].end <= b[k + 1].start);
                assert(b[k + 1].start < b[k + 1].end);
                assert(b[k + 1].end <= b[j].start);
            }
        }
    }
}

impl MemoryMap {
    /// The regions are valid and there are no more than the map can hold.
    #[verifier::type_invariant]
    spec fn valid(self) -> bool {
        self.len <= 256 && regions_valid(self.platform, self.regions@.take(self.len as int))
    }

    pub fn new(platform: Platform, source: MemorySource) -> (map: Self)
        ensures
            map@ == empty_map(platform, source),
    {
        let empty = MemoryRegion { start: 0, end: 0, kind: MemoryRegionKind::Reserved };
        let map = Self { platform, source, regions: [empty; 256], len: 0, boot_data: None };
        assert(map@.regions =~= Seq::<MemoryRegion>::empty());
        map
    }

    pub fn platform(&self) -> (platform: Platform)
        ensures
            platform == self@.platform,
    {
        self.platform
    }

    pub fn source(&self) -> (source: MemorySource)
        ensures
            source == self@.source,
    {
        self.source
    }

    pub fn regions(&self) -> (regions: &[MemoryRegion])
        ensures
            regions@ == self@.regions,
            regions@.len() <= 256,
            regions_valid(self@.platform, regions@),
    {
        proof {
            use_type_invariant(self);
        }
        slice_subrange(self.regions.as_slice(), 0, self.len)
    }

    pub fn boot_data_range(&self) -> (range: Option<(u64, u64)>)
        ensures
            range == self@.boot_data,
    {
        self.boot_data
    }

    /// How many bytes are usable.
    pub fn usable_bytes(&self) -> (total: u64)
        ensures
            total == usable(self@.regions, self@.regions.len()),
    {
        let regions = self.regions();
        let mut total: u64 = 0;
        let mut index: usize = 0;
        while index < regions.len()
            invariant
                index <= regions@.len(),
                total == usable(regions@, index as nat),
            decreases regions@.len() - index,
        {
            let region: MemoryRegion = regions[index];
            if region.kind == MemoryRegionKind::Usable {
                total = total.saturating_add(region.len());
            }
            index += 1;
        }
        total
    }

    /// Records where the boot data lie, unless the range is empty.
    pub fn set_boot_data(&mut self, start: u64, end: u64)
        ensures
            final(self)@ == (MemoryMapView {
                boot_data: if start < end {
                    Some((start, end))
                } else {
                    old(self)@.boot_data
                },
                ..old(self)@
            }),
    {
        proof {
            use_type_invariant(&*self);
        }
        if start < end {
            self.boot_data = Some((start, end));
        }
    }

    /// Enters a region; refuses one whose end does not exist, or that the map
    /// cannot hold.
    pub fn push(&mut self, start: u64, length: u64, kind: MemoryRegionKind) -> (entered: bool)
        ensures
            entered == (pushed(
                old(self)@.platform,
                old(self)@.regions,
                start,
                length,
                kind,
            ) is Some),
            final(self)@ == (match pushed(
                old(self)@.platform,
                old(self)@.regions,
                start,
                length,
                kind,
            ) {
                Some(regions) => MemoryMapView { regions, ..old(self)@ },
                None => old(self)@,
            }),
    {
        proof {
            use_type_invariant(&*self);
        }
        let end: u64 = match start.checked_add(length) {
            Some(end) => end,
            None => return false,
        };
        let limit: u64 = self.platform.memory_limit();
        let end: u64 = if end <= limit {
            end
        } else {
            limit
        };
        if start >= end {
            assert(self@ =~= old(self)@);
            return true;
        }
        if self.len == MAX_REGIONS {
            return false;
        }
        let ghost before = self@.regions;
        let at: usize = self.len;
        let mut regions: [MemoryRegion; 256] = self.regions;
        regions[at] = MemoryRegion { start, end, kind };
        proof {
            assert(regions@.take(at + 1) =~= before.push(MemoryRegion { start, end, kind }));
            assert forall|i: int| 0 <= i < at + 1 implies (#[trigger] regions@.take(at + 1)[i]).start
                < regions@.take(at + 1)[i].end <= limit by {
                if i < at {
                    assert(before[i].start < before[i].end <= limit);
                }
            }
        }
        *self = Self { platform: self.platform, source: self.source, regions, len: at + 1, boot_data: self.boot_data };
        assert(self@ =~= (MemoryMapView {
            regions: before.push(MemoryRegion { start, end, kind }),
            ..old(self)@
        }));
        true
    }

    /// Brings the regions to their normal form. A map that cannot hold it is left
    /// without regions: losing a reserved overlap could otherwise make firmware or
    /// device memory allocatable.
    pub fn normalize(&mut self)
        ensures
            normalizes_to(old(self)@.regions, final(self)@.regions),
            final(self)@.platform == old(self)@.platform,
            final(self)@.source == old(self)@.source,
            final(self)@.boot_data == old(self)@.boot_data,
    {
        proof {
            use_type_invariant(&*self);
        }
        let ghost limit = self.platform.spec_memory_limit();
        let raw = self.regions;
        let raw_len: usize = self.len;
        let ghost raw_view = self@.regions;
        let mut boundaries: Vec<u64> = Vec::new();
        let mut index: usize = 0;
        while index < raw_len
            invariant
                raw_len <= 256,
                index <= raw_len,
                raw_view == raw@.take(raw_len as int),
                boundaries@.len() == 2 * index,
                forall|v: u64| #[trigger]
                    boundaries@.contains(v) <==> exists|i: int|
                        0 <= i < index && ((#[trigger] raw_view[i]).start == v || raw_view[i].end
                            == v),
            decreases raw_len - index,
        {
            let ghost earlier = boundaries@;
            let region: MemoryRegion = raw[index];
            assert(raw_view[index as int] == region);
            boundaries.push(region.start);
            boundaries.push(region.end);
            proof {
                assert(boundaries@ =~= earlier.push(region.start).push(region.end));
                assert forall|v: u64| #[trigger]
                    boundaries@.contains(v) <==> exists|i: int|
                        0 <= i < index + 1 && ((#[trigger] raw_view[i]).start == v || raw_view[i].end
                            == v) by {
                    if boundaries@.contains(v) {
                        let k = boundaries@.index_of(v);
                        if k < earlier.len() {
                            assert(earlier[k] == v);
                            assert(earlier.contains(v));
                        } else {
                            assert(raw_view[index as int].start == v || raw_view[index as int].end
                                == v);
                        }
                    }
                    if exists|i: int|
                        0 <= i < index + 1 && ((#[trigger] raw_view[i]).start == v || raw_view[i].end
                            == v) {
                        let i = choose|i: int|
                            0 <= i < index + 1 && ((#[trigger] raw_view[i]).start == v
                                || raw_view[i].end == v);
                        if i < index {
                            assert(earlier.contains(v));
                            let k = earlier.index_of(v);
                            assert(boundaries@[k] == v);
                        } else {
                            assert(boundaries@[earlier.len() as int] == region.start);
                            assert(boundaries@[earlier.len() as int + 1] == region.end);
                        }
                    }
                }
            }
            index += 1;
        }
        let ghost listed = boundaries@;
        let unique: usize = c_fastpath::sort_unique_u64(boundaries.as_mut_slice());
        boundaries.truncate(unique);
        let ghost values = boundaries@;
        proof {
            assert forall|v: u64| #[trigger] values.contains(v) <==> listed.contains(v) by {}
        }
        assert(are_boundaries(values, raw_view));
        let mut regions: [MemoryRegion; 256] = self.regions;
        let mut len: usize = 0;
        let ghost mut normal: Seq<MemoryRegion> = Seq::empty();
        if unique == 0 {
            proof {
                if raw_view.len() > 0 {
                    assert(values.contains(raw_view[0].start));
                }
                assert forall|address: int, kind: MemoryRegionKind|
                    #![trigger covered_as(normal, address, kind)]
                    #![trigger strongest(raw_view, address, kind)]
                    covered_as(normal, address, kind) <==> strongest(raw_view, address, kind) by {
                    if strongest(raw_view, address, kind) {
                        assert(covered_as(raw_view, address, kind));
                    }
                }
                assert(is_normal_form(normal, raw_view));
                assert(regions@.take(0) =~= normal);
            }
            *self = Self { platform: self.platform, source: self.source, regions, len: 0, boot_data: self.boot_data };
            assert(self@.regions =~= normal);
            return ;
        }
        proof {
            assert forall|address: int, kind: MemoryRegionKind|
                #![trigger covered_as(normal, address, kind)]
                #![trigger strongest(raw_view, address, kind)]
                address < values[0] implies (covered_as(normal, address, kind) <==> strongest(
                raw_view,
                address,
                kind,
            )) by {
                if strongest(raw_view, address, kind) {
                    assert(covered_as(raw_view, address, kind));
                    let i = choose|i: int| holds(raw_view, i, address, kind);
                    assert(values.contains(raw_view[i].start));
                    let b = values.index_of(raw_view[i].start);
                    assert(values[b] == raw_view[i].start);
                }
            }
            assert(normal_below(normal, raw_view, values[0] as int));
            assert(regions@.take(0) =~= normal);
        }
        let mut index: usize = 0;
        while index + 1 < unique
            invariant
                raw_len <= 256,
                raw_view == raw@.take(raw_len as int),
                limit == self.platform.spec_memory_limit(),
                regions_valid(self.platform, raw_view),
                unique == boundaries@.len(),
                unique <= 512,
                values == boundaries@,
                are_boundaries(values, raw_view),
                0 <= index < unique,
                len <= 256,
                normal == regions@.take(len as int),
                normal_below(normal, raw_view, values[index as int] as int),
                regions_valid(self.platform, normal),
                raw_view == old(self)@.regions,
                *self == *old(self),
            decreases unique - index,
        {
            let start: u64 = boundaries[index];
            let end: u64 = boundaries[index + 1];
            proof {
                lemma_boundaries_window(values, raw_view, index as int);
                assert(values.contains(end));
                assert(end <= limit) by {
                    let i = choose|i: int|
                        0 <= i < raw_view.len() && ((#[trigger] raw_view[i]).start == end
                            || raw_view[i].end == end);
                    assert(raw_view[i].start < raw_view[i].end <= limit);
                }
            }
            let selected = strongest_kind(&raw, raw_len, start, end);
            proof {
                lemma_add_window(normal, raw_view, start, end, selected);
            }
            if let Some(kind) = selected {
                if len > 0 && regions[len - 1].kind == kind && regions[len - 1].end == start {
                    let previous: MemoryRegion = regions[len - 1];
                    assert(normal.last() == previous);
                    regions[len - 1] = MemoryRegion { start: previous.start, end, kind };
                    proof {
                        assert(previous.start < previous.end);
                        let next = with_window(normal, start, end, selected);
                        assert(regions@.take(len as int) =~= next);
                        assert forall|i: int| 0 <= i < next.len() implies (#[trigger] next[i]).start
                            < next[i].end <= limit by {
                            assert(normal[i].start < normal[i].end <= limit);
                        }
                        normal = next;
                    }
                } else {
                    if len == MAX_REGIONS {
                        proof {
                            let next = with_window(normal, start, end, selected);
                            assert(next.len() == 257) by {
                                assert(normal.last() == regions@[255]);
                            }
                            let full = lemma_complete(next, raw_view, values, index + 1);
                            assert(full.len() > 256);
                            assert(regions@.take(0) =~= Seq::<MemoryRegion>::empty());
                        }
                        *self = Self {
                            platform: self.platform,
                            source: self.source,
                            regions,
                            len: 0,
                            boot_data: self.boot_data,
                        };
                        assert(self@.regions =~= Seq::<MemoryRegion>::empty());
                        return ;
                    }
                    regions[len] = MemoryRegion { start, end, kind };
                    len += 1;
                    proof {
                        let next = with_window(normal, start, end, selected);
                        if normal.len() > 0 {
                            assert(normal.last() == regions@[len - 2]);
                        }
                        assert(regions@.take(len as int) =~= next);
                        assert forall|i: int| 0 <= i < next.len() implies (#[trigger] next[i]).start
                            < next[i].end <= limit by {
                            if i < normal.len() {
                                assert(normal[i].start < normal[i].end <= limit);
                            }
                        }
                        normal = next;
                    }
                }
            }
            index += 1;
        }
        proof {
            assert(index == unique - 1);
            lemma_nothing_above(normal, raw_view, values);
        }
        *self = Self { platform: self.platform, source: self.source, regions, len, boot_data: self.boot_data };
        assert(self@.regions =~= normal);
    }
}

/// The strongest kind of the window from `start` to `end`.
fn strongest_kind(raw: &[MemoryRegion; 256], raw_len: usize, start: u64, end: u64) -> (kind: Option<
    MemoryRegionKind,
>)
    requires
        raw_len <= 256,
        is_window(raw@.take(raw_len as int), start, end),
    ensures
        window_kind(raw@.take(raw_len as int), start, kind),
{
    let ghost all = raw@.take(raw_len as int);
    let mut selected: Option<MemoryRegionKind> = None;
    let mut index: usize = 0;
    assert(all.take(0) =~= Seq::<MemoryRegion>::empty());
    while index < raw_len
        invariant
            raw_len <= 256,
            all == raw@.take(raw_len as int),
            is_window(all, start, end),
            index <= raw_len,
            window_kind(all.take(index as int), start, selected),
        decreases raw_len - index,
    {
        let region: MemoryRegion = raw[index];
        let ghost shorter = all.take(index as int);
        let ghost longer = all.take(index + 1);
        let ghost before = selected;
        proof {
            assert(all[index as int] == region);
            assert forall|kind: MemoryRegionKind|
                #[trigger] covered_as(longer, start as int, kind) <==> covered_as(
                    shorter,
                    start as int,
                    kind,
                ) || (region.kind == kind && region.start <= start && region.end >= end) by {
                if covered_as(longer, start as int, kind) {
                    let i = choose|i: int| holds(longer, i, start as int, kind);
                    if i < index {
                        assert(holds(shorter, i, start as int, kind));
                    } else {
                        assert(longer[i] == region);
                    }
                }
                if covered_as(shorter, start as int, kind) {
                    let i = choose|i: int| holds(shorter, i, start as int, kind);
                    assert(holds(longer, i, start as int, kind));
                }
                if region.kind == kind && region.start <= start && region.end >= end {
                    assert(holds(longer, index as int, start as int, kind));
                }
            }
        }
        if region.start <= start && region.end >= end {
            selected = match selected {
                Some(current) => if kind_priority(current) >= kind_priority(region.kind) {
                    Some(current)
                } else {
                    Some(region.kind)
                },
                None => Some(region.kind),
            };
        }
        proof {
            match selected {
                Some(kind) => {
                    if before is Some {
                        assert(covered_as(shorter, start as int, before.unwrap()));
                    }
                    assert(covered_as(longer, start as int, kind));
                    assert forall|other: MemoryRegionKind| #[trigger]
                        covered_as(longer, start as int, other) implies priority(other) <= priority(
                        kind,
                    ) by {
                        if covered_as(shorter, start as int, other) {
                            assert(before is Some);
                        }
                    }
                    assert(strongest(longer, start as int, kind));
                },
                None => {
                    assert forall|other: MemoryRegionKind| !#[trigger] covered_as(
                        longer,
                        start as int,
                        other,
                    ) by {
                        assert(!covered_as(shorter, start as int, other));
                    }
                },
            }
        }
        index += 1;
    }
    assert(all.take(index as int) =~= all);
    selected
}

} // verus!
