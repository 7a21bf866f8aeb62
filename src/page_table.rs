//! The stage-1 identity-mapped page table, with one entry point per attribute profile.
use vstd::prelude::*;
use aarch64_paging::idmap::IdMap;
use aarch64_paging::paging::{Attributes, MemoryRegion};
use crate::attributes::{AttributeProfile, TABLE_OR_PAGE, lemma_profile_bits_not_table, profile_bits};
use crate::range::{AddressRange, PAGE_SIZE};

verus! {

#[verifier::external_type_specification]
#[verifier::external_body]
pub struct ExIdMap(IdMap);

#[verifier::external_type_specification]
#[verifier::external_body]
pub struct ExPagingMapError(aarch64_paging::MapError);

/// The root level that an identity map was created with.
pub uninterp spec fn idmap_root_level(m: IdMap) -> usize;

/// The address space identifier that an identity map was created with.
pub uninterp spec fn idmap_asid(m: IdMap) -> usize;

/// What an identity map holds: for each page address whose covering entry carries some attribute
/// bit besides the accessed flag and the descriptor-type bit (which the map adds itself), those
/// bits. The page maps to itself. Entries that carry nothing else, such as those filling the rest
/// of a block when a first mapping splits it, count as absent.
pub uninterp spec fn idmap_pages(m: IdMap) -> Map<int, u64>;

/// The pages of `[start, end)`, each with the attribute bits `flags`.
pub open spec fn page_map(start: usize, end: usize, flags: u64) -> Map<int, u64> {
    Map::new(|a: int| start <= a < end && a % (PAGE_SIZE as int) == 0, |a: int| flags)
}

/// Bytes of virtual address space that a table rooted at `level` covers (4 KiB granule, 512
/// entries per table).
pub open spec fn level_span(level: usize) -> int {
    if level == 0 {
        0x1_0000_0000_0000
    } else if level == 1 {
        0x80_0000_0000
    } else if level == 2 {
        0x4000_0000
    } else {
        0x20_0000
    }
}

/// Relies on `IdMap::new`: it builds an empty identity map with address space identifier `asid`,
/// rooted at `rootlevel`, and panics on a level deeper than the leaf level.
#[verifier::external_body]
fn idmap_new(asid: usize, rootlevel: usize) -> (r: IdMap)
    requires
        rootlevel <= 3,
    ensures
        idmap_root_level(r) == rootlevel,
        idmap_asid(r) == asid,
        forall|a: int| !(#[trigger] idmap_pages(r).contains_key(a)),
{
    IdMap::new(asid, rootlevel)
}

/// Relies on `IdMap::map_range`: page-aligned bounds of a non-empty range pass through
/// `MemoryRegion::new` unchanged, and the call fails exactly when the end lies beyond the span
/// that the root level covers. On success every page of the range maps to itself with `flags`
/// (blocks that are split keep their attributes in the new subtable), and other pages keep their
/// entries; on failure nothing is written. Mapping never changes the root level or the address
/// space identifier. `flags` is the bit word of one attribute profile: only bits that
/// `Attributes` defines (so `from_bits_truncate` keeps them all), never the accessed flag, never
/// zero, and never the table-or-page selector, which the crate would write as a block that later
/// calls take for a table pointer.
#[verifier::external_body]
fn idmap_map_range(idmap: &mut IdMap, start: usize, end: usize, flags: u64) -> (r: Result<
    (),
    aarch64_paging::MapError,
>)
    requires
        start % PAGE_SIZE == 0,
        end % PAGE_SIZE == 0,
        start < end,
        exists|p: AttributeProfile| #[trigger] profile_bits(p) == flags,
        flags & TABLE_OR_PAGE == 0,
    ensures
        idmap_root_level(*final(idmap)) == idmap_root_level(*old(idmap)),
        idmap_asid(*final(idmap)) == idmap_asid(*old(idmap)),
        r.is_ok() <==> end <= level_span(idmap_root_level(*old(idmap))),
        r.is_ok() ==> idmap_pages(*final(idmap)) == idmap_pages(*old(idmap)).union_prefer_right(
            page_map(start, end, flags),
        ),
        r.is_err() ==> idmap_pages(*final(idmap)) == idmap_pages(*old(idmap)),
{
    idmap.map_range(&MemoryRegion::new(start, end), Attributes::from_bits_truncate(flags as usize))
}

/// Why a mapping request was refused.
#[derive(Clone, Copy, Debug, PartialEq, Eq, Structural)]
pub enum MappingError {
    /// Part of the range is already mapped, and not as this very request would map it.
    AlreadyMapped,
    /// A bound of the range is not page-aligned.
    Misaligned,
    /// The range reaches beyond the address space that the table covers.
    OutOfRange,
    /// No lazily mapped device region has exactly this range.
    NotLazy,
}

/// A mapped range together with the profile of all its pages.
#[derive(Clone, Copy, Debug, PartialEq, Eq, Structural)]
pub struct MappedRegion {
    pub range: AddressRange,
    pub profile: AttributeProfile,
}

/// Level of the table's root: a level-1 root covers a 39-bit address space.
pub const ROOT_LEVEL: usize = 1;

/// Bytes of address space that the table covers.
pub const VA_SPAN: u64 = 0x80_0000_0000;

/// Recorded regions are non-empty, page-aligned, inside the covered span, and pairwise disjoint.
pub open spec fn regions_wf(s: Seq<MappedRegion>) -> bool {
    &&& forall|i: int|
        0 <= i < s.len() ==> {
            &&& s[i].range.is_page_aligned()
            &&& s[i].range.start < s[i].range.end
            &&& s[i].range.end <= VA_SPAN
        }
    &&& forall|i: int, j: int|
        0 <= i < s.len() && 0 <= j < s.len() && i != j ==> !s[i].range.overlaps(s[j].range)
}

/// Every page of every record is in the table with the bits of the record's profile.
pub open spec fn pages_match(pages: Map<int, u64>, s: Seq<MappedRegion>) -> bool {
    forall|i: int, a: int|
        0 <= i < s.len() && #[trigger] s[i].range.contains(a) && a % (PAGE_SIZE as int) == 0
            ==> pages.contains_key(a) && pages[a] == profile_bits(s[i].profile)
}

/// Some recorded region holds all of `range` under profile `p`.
pub open spec fn mapped_as(s: Seq<MappedRegion>, range: AddressRange, p: AttributeProfile) -> bool {
    exists|i: int| 0 <= i < s.len() && s[i].profile == p && range.within(s[i].range)
}

/// Some recorded region shares an address with `range`.
pub open spec fn overlaps_any(s: Seq<MappedRegion>, range: AddressRange) -> bool {
    exists|i: int| 0 <= i < s.len() && s[i].range.overlaps(range)
}

/// Some recorded region of another profile than `p` shares an address with `range`.
pub open spec fn conflicts(s: Seq<MappedRegion>, range: AddressRange, p: AttributeProfile) -> bool {
    exists|i: int| 0 <= i < s.len() && s[i].range.overlaps(range) && s[i].profile != p
}

/// The outcome of asking to map `range` with profile `p` over the regions `s`: it is refused
/// when a bound is not page-aligned, when it reaches beyond the covered span, or when a page of
/// it is already mapped with another profile.
pub open spec fn map_result(s: Seq<MappedRegion>, range: AddressRange, p: AttributeProfile) -> Result<
    (),
    MappingError,
> {
    if !range.is_page_aligned() {
        Err(MappingError::Misaligned)
    } else if range.end > VA_SPAN {
        Err(MappingError::OutOfRange)
    } else if conflicts(s, range, p) {
        Err(MappingError::AlreadyMapped)
    } else {
        Ok(())
    }
}

/// The records that share no address with `range`, in their order.
pub open spec fn untouched(s: Seq<MappedRegion>, range: AddressRange) -> Seq<MappedRegion>
    decreases s.len(),
{
    if s.len() == 0 {
        s
    } else {
        let t = untouched(s.drop_last(), range);
        if s.last().range.overlaps(range) {
            t
        } else {
            t.push(s.last())
        }
    }
}

/// The smallest range that holds `range` and every record sharing an address with it.
pub open spec fn hull(s: Seq<MappedRegion>, range: AddressRange) -> AddressRange
    decreases s.len(),
{
    if s.len() == 0 {
        range
    } else {
        let h = hull(s.drop_last(), range);
        let r = s.last().range;
        if r.overlaps(range) {
            AddressRange {
                start: if r.start < h.start {
                    r.start
                } else {
                    h.start
                },
                end: if r.end > h.end {
                    r.end
                } else {
                    h.end
                },
            }
        } else {
            h
        }
    }
}

/// The regions after asking to map `range` with profile `p` over `s`. A request whose pages all
/// lie in one region of that profile changes nothing. Otherwise the records that it touches,
/// all of profile `p`, merge with it into one region.
pub open spec fn map_effect(s: Seq<MappedRegion>, range: AddressRange, p: AttributeProfile) -> Seq<
    MappedRegion,
> {
    if map_result(s, range, p).is_ok() && !range.is_empty() && !mapped_as(s, range, p) {
        untouched(s, range).push(MappedRegion { range: hull(s, range), profile: p })
    } else {
        s
    }
}

/// The profile of the page holding `addr`, if any region holds it.
pub open spec fn profile_at(s: Seq<MappedRegion>, addr: int) -> Option<AttributeProfile> {
    if exists|i: int| 0 <= i < s.len() && s[i].range.contains(addr) {
        let i = choose|i: int| 0 <= i < s.len() && s[i].range.contains(addr);
        Some(s[i].profile)
    } else {
        None
    }
}

/// A lazily mapped device region with exactly this range is recorded.
pub open spec fn has_lazy_region(s: Seq<MappedRegion>, range: AddressRange) -> bool {
    exists|i: int| 0 <= i < s.len() && s[i].range == range && s[i].profile == AttributeProfile::DeviceLazy
}

/// The regions after promoting the lazy device region with exactly this range to a valid one.
pub open spec fn promote_effect(s: Seq<MappedRegion>, range: AddressRange) -> Seq<MappedRegion> {
    s.map_values(
        |m: MappedRegion|
            if m.range == range && m.profile == AttributeProfile::DeviceLazy {
                MappedRegion { range, profile: AttributeProfile::DeviceValidated }
            } else {
                m
            },
    )
}

/// What the merge of a non-empty request is made of: the hull holds the request and every record
/// touching it and nothing else, and the untouched records are exactly those of `s` that share
/// no address with the request.
pub proof fn lemma_merge_parts(s: Seq<MappedRegion>, range: AddressRange)
    requires
        regions_wf(s),
        range.start < range.end,
        range.is_page_aligned(),
        range.end <= VA_SPAN,
    ensures
        hull(s, range).start <= range.start,
        range.end <= hull(s, range).end,
        hull(s, range).is_page_aligned(),
        hull(s, range).end <= VA_SPAN,
        forall|j: int|
            0 <= j < s.len() && s[j].range.overlaps(range) ==> s[j].range.within(hull(s, range)),
        forall|a: int|
            #[trigger] hull(s, range).contains(a) ==> range.contains(a) || exists|j: int|
                0 <= j < s.len() && s[j].range.overlaps(range) && s[j].range.contains(a),
        forall|k: int|
            0 <= k < untouched(s, range).len() ==> exists|j: int|
                0 <= j < s.len() && #[trigger] untouched(s, range)[k] == #[trigger] s[j]
                    && !s[j].range.overlaps(range),
        forall|j: int|
            0 <= j < s.len() && !s[j].range.overlaps(range) ==> exists|k: int|
                0 <= k < untouched(s, range).len() && #[trigger] untouched(s, range)[k]
                    == #[trigger] s[j],
        regions_wf(untouched(s, range)),
    decreases s.len(),
{
    if s.len() > 0 {
        let t = s.drop_last();
        let n = s.len() - 1;
        assert(regions_wf(t)) by {
            assert forall|i: int| 0 <= i < t.len() implies t[i] == s[i] by {}
        }
        lemma_merge_parts(t, range);
        let ht = hull(t, range);
        let ut = untouched(t, range);
        let h = hull(s, range);
        let u = untouched(s, range);
        assert forall|j: int|
            0 <= j < s.len() && s[j].range.overlaps(range) implies s[j].range.within(h) by {
            if j < n {
                assert(t[j] == s[j]);
            }
        }
        assert forall|a: int| h.contains(a) implies range.contains(a) || exists|j: int|
            0 <= j < s.len() && s[j].range.overlaps(range) && s[j].range.contains(a) by {
            if ht.contains(a) {
                if !range.contains(a) {
                    let j = choose|j: int|
                        0 <= j < t.len() && t[j].range.overlaps(range) && t[j].range.contains(a);
                    assert(s[j] == t[j]);
                }
            } else {
                assert(s[n].range.contains(a));
            }
        }
        assert forall|k: int| 0 <= k < u.len() implies exists|j: int|
            0 <= j < s.len() && #[trigger] u[k] == #[trigger] s[j] && !s[j].range.overlaps(range) by {
            if k < ut.len() {
                let j = choose|j: int|
                    0 <= j < t.len() && ut[k] == t[j] && !t[j].range.overlaps(range);
                assert(s[j] == t[j]);
            } else {
                assert(u[k] == s[n]);
            }
        }
        assert forall|j: int| 0 <= j < s.len() && !s[j].range.overlaps(range) implies exists|k: int|
            0 <= k < u.len() && #[trigger] u[k] == #[trigger] s[j] by {
            if j < n {
                assert(t[j] == s[j]);
                let k = choose|k: int| 0 <= k < ut.len() && ut[k] == t[j];
                assert(u[k] == ut[k]);
            } else {
                assert(u[ut.len() as int] == s[n]);
            }
        }
        if !s[n].range.overlaps(range) {
            assert forall|k: int| 0 <= k < ut.len() implies !ut[k].range.overlaps(s[n].range) by {
                let j = choose|j: int|
                    0 <= j < t.len() && ut[k] == t[j] && !t[j].range.overlaps(range);
                assert(s[j] == t[j]);
            }
        }
    }
}

/// A request that touches no record merges with nothing.
pub proof fn lemma_merge_fresh(s: Seq<MappedRegion>, range: AddressRange)
    requires
        !overlaps_any(s, range),
    ensures
        untouched(s, range) == s,
        hull(s, range) == range,
    decreases s.len(),
{
    if s.len() > 0 {
        let t = s.drop_last();
        assert(!overlaps_any(t, range)) by {
            if overlaps_any(t, range) {
                let j = choose|j: int| 0 <= j < t.len() && t[j].range.overlaps(range);
                assert(s[j] == t[j]);
            }
        }
        lemma_merge_fresh(t, range);
        assert(!s.last().range.overlaps(range));
        assert(t.push(s.last()) == s);
    }
}

/// No record untouched by a request shares an address with the hull of the request.
proof fn lemma_hull_apart(s: Seq<MappedRegion>, range: AddressRange, k: int)
    requires
        regions_wf(s),
        range.start < range.end,
        range.is_page_aligned(),
        range.end <= VA_SPAN,
        0 <= k < untouched(s, range).len(),
    ensures
        !untouched(s, range)[k].range.overlaps(hull(s, range)),
{
    lemma_merge_parts(s, range);
    let u = untouched(s, range);
    let h = hull(s, range);
    let j = choose|j: int| 0 <= j < s.len() && #[trigger] u[k] == #[trigger] s[j] && !s[j].range.overlaps(range);
    if u[k].range.overlaps(h) {
        let a = if h.start < s[j].range.start {
            s[j].range.start as int
        } else {
            h.start as int
        };
        assert(h.contains(a) && s[j].range.contains(a));
        if !range.contains(a) {
            let m = choose|m: int|
                0 <= m < s.len() && s[m].range.overlaps(range) && s[m].range.contains(a);
            assert(s[m].range.overlaps(s[j].range));
        }
    }
}

/// Writing the pages of a successful merging request keeps the table in step with the records.
proof fn lemma_merge_pages(
    pages: Map<int, u64>,
    s: Seq<MappedRegion>,
    range: AddressRange,
    p: AttributeProfile,
)
    requires
        regions_wf(s),
        pages_match(pages, s),
        range.start < range.end,
        range.is_page_aligned(),
        range.end <= VA_SPAN,
        !conflicts(s, range, p),
        !mapped_as(s, range, p),
    ensures
        pages_match(
            pages.union_prefer_right(page_map(range.start, range.end, profile_bits(p))),
            map_effect(s, range, p),
        ),
{
    lemma_merge_parts(s, range);
    let q = pages.union_prefer_right(page_map(range.start, range.end, profile_bits(p)));
    let u = untouched(s, range);
    let h = hull(s, range);
    let t = map_effect(s, range, p);
    assert forall|i: int, a: int|
        0 <= i < t.len() && #[trigger] t[i].range.contains(a) && a % (PAGE_SIZE as int) == 0
            implies q.contains_key(a) && q[a] == profile_bits(t[i].profile) by {
        if i < u.len() {
            let j = choose|j: int|
                0 <= j < s.len() && #[trigger] u[i] == #[trigger] s[j] && !s[j].range.overlaps(range);
            assert(t[i] == s[j]);
            assert(!range.contains(a));
        } else {
            assert(t[i].range == h);
            if !range.contains(a) {
                let m = choose|m: int|
                    0 <= m < s.len() && s[m].range.overlaps(range) && s[m].range.contains(a);
                assert(s[m].profile == p);
            }
        }
    }
}

/// A successful mapping keeps the records non-empty, aligned, in span and disjoint.
pub proof fn lemma_map_effect_wf(s: Seq<MappedRegion>, range: AddressRange, p: AttributeProfile)
    requires
        regions_wf(s),
        range.wf(),
    ensures
        regions_wf(map_effect(s, range, p)),
{
    if map_result(s, range, p).is_ok() && !range.is_empty() && !mapped_as(s, range, p) {
        lemma_merge_parts(s, range);
        let u = untouched(s, range);
        let h = hull(s, range);
        let t = map_effect(s, range, p);
        assert forall|i: int, j: int|
            0 <= i < t.len() && 0 <= j < t.len() && i != j implies !t[i].range.overlaps(
            t[j].range,
        ) by {
            if i == u.len() {
                lemma_hull_apart(s, range, j);
            } else if j == u.len() {
                lemma_hull_apart(s, range, i);
            } else {
                assert(t[i] == u[i] && t[j] == u[j]);
            }
        }
        assert forall|i: int| 0 <= i < t.len() implies {
            &&& t[i].range.is_page_aligned()
            &&& t[i].range.start < t[i].range.end
            &&& t[i].range.end <= VA_SPAN
        } by {
            if i < u.len() {
                assert(t[i] == u[i]);
            }
        }
    }
}

/// Mapping two disjoint page-aligned ranges that lie in the covered span and touch no mapped
/// region succeeds both times, with any two profiles, and afterwards every address of each range
/// reads back with the profile it was mapped with.
pub proof fn lemma_map_disjoint_pair(
    s: Seq<MappedRegion>,
    r1: AddressRange,
    p1: AttributeProfile,
    r2: AddressRange,
    p2: AttributeProfile,
)
    requires
        regions_wf(s),
        r1.wf(),
        r2.wf(),
        r1.is_page_aligned(),
        r2.is_page_aligned(),
        r1.end <= VA_SPAN,
        r2.end <= VA_SPAN,
        !r1.overlaps(r2),
        !overlaps_any(s, r1),
        !overlaps_any(s, r2),
    ensures
        map_result(s, r1, p1) == Ok::<(), MappingError>(()),
        map_result(map_effect(s, r1, p1), r2, p2) == Ok::<(), MappingError>(()),
        forall|a: int|
            r1.contains(a) ==> profile_at(map_effect(map_effect(s, r1, p1), r2, p2), a) == Some(
                p1,
            ),
        forall|a: int|
            r2.contains(a) ==> profile_at(map_effect(map_effect(s, r1, p1), r2, p2), a) == Some(
                p2,
            ),
{
    let s1 = map_effect(s, r1, p1);
    lemma_map_effect_wf(s, r1, p1);
    lemma_merge_fresh(s, r1);
    if !r1.is_empty() {
        assert(!mapped_as(s, r1, p1)) by {
            if mapped_as(s, r1, p1) {
                let k = choose|k: int|
                    0 <= k < s.len() && s[k].profile == p1 && r1.within(s[k].range);
                assert(s[k].range.overlaps(r1));
            }
        }
        assert(s1 == s.push(MappedRegion { range: r1, profile: p1 }));
    }
    assert(!overlaps_any(s1, r2)) by {
        if overlaps_any(s1, r2) {
            let k = choose|k: int| 0 <= k < s1.len() && s1[k].range.overlaps(r2);
            if k < s.len() {
                assert(s[k].range.overlaps(r2));
            }
        }
    }
    let s2 = map_effect(s1, r2, p2);
    lemma_map_effect_wf(s1, r2, p2);
    lemma_merge_fresh(s1, r2);
    if !r2.is_empty() {
        assert(!mapped_as(s1, r2, p2)) by {
            if mapped_as(s1, r2, p2) {
                let k = choose|k: int|
                    0 <= k < s1.len() && s1[k].profile == p2 && r2.within(s1[k].range);
                assert(s1[k].range.overlaps(r2));
            }
        }
        assert(s2 == s1.push(MappedRegion { range: r2, profile: p2 }));
    }
    assert forall|a: int| r1.contains(a) implies profile_at(s2, a) == Some(p1) by {
        assert(s2[s.len() as int].range == r1);
        lemma_region_at(s2, s.len() as int, a);
    }
    assert forall|a: int| r2.contains(a) implies profile_at(s2, a) == Some(p2) by {
        assert(s2[s1.len() as int].range == r2);
        lemma_region_at(s2, s1.len() as int, a);
    }
}

/// After a successful request for a non-empty range, asking again with the same profile
/// succeeds and changes nothing, and asking with another profile fails as already mapped.
pub proof fn lemma_map_twice(
    s: Seq<MappedRegion>,
    range: AddressRange,
    p: AttributeProfile,
    q: AttributeProfile,
)
    requires
        regions_wf(s),
        range.wf(),
        !range.is_empty(),
        map_result(s, range, p).is_ok(),
    ensures
        mapped_as(map_effect(s, range, p), range, p),
        map_result(map_effect(s, range, p), range, p) == Ok::<(), MappingError>(()),
        map_effect(map_effect(s, range, p), range, p) == map_effect(s, range, p),
        p != q ==> map_result(map_effect(s, range, p), range, q) == Err::<(), MappingError>(
            MappingError::AlreadyMapped,
        ),
{
    let s1 = map_effect(s, range, p);
    lemma_map_effect_wf(s, range, p);
    if !mapped_as(s, range, p) {
        lemma_merge_parts(s, range);
        assert(range.within(s1[untouched(s, range).len() as int].range));
    }
    assert(mapped_as(s1, range, p));
    let k = choose|k: int| 0 <= k < s1.len() && s1[k].profile == p && range.within(s1[k].range);
    assert(s1[k].range.overlaps(range));
    assert(!conflicts(s1, range, p)) by {
        if conflicts(s1, range, p) {
            let m = choose|m: int|
                0 <= m < s1.len() && s1[m].range.overlaps(range) && s1[m].profile != p;
            assert(s1[m].range.overlaps(s1[k].range));
        }
    }
    if p != q {
        assert(conflicts(s1, range, q));
    }
}

/// The region that holds `addr`, if any.
pub open spec fn region_at(s: Seq<MappedRegion>, addr: int) -> Option<MappedRegion> {
    if exists|i: int| 0 <= i < s.len() && s[i].range.contains(addr) {
        let i = choose|i: int| 0 <= i < s.len() && s[i].range.contains(addr);
        Some(s[i])
    } else {
        None
    }
}

/// In disjoint regions, the region holding an address is the one `region_at` reports.
pub proof fn lemma_region_at(s: Seq<MappedRegion>, i: int, addr: int)
    requires
        regions_wf(s),
        0 <= i < s.len(),
        s[i].range.contains(addr),
    ensures
        region_at(s, addr) == Some(s[i]),
        profile_at(s, addr) == Some(s[i].profile),
{
    let j = choose|j: int| 0 <= j < s.len() && s[j].range.contains(addr);
    assert(s[i].range.overlaps(s[j].range));
}

/// Promotion keeps the records well formed, turns every address of the promoted range into
/// valid device memory, and leaves every other address as it was.
pub proof fn lemma_promote_exact(s: Seq<MappedRegion>, range: AddressRange, addr: int)
    requires
        regions_wf(s),
        has_lazy_region(s, range),
    ensures
        regions_wf(promote_effect(s, range)),
        range.contains(addr) ==> profile_at(promote_effect(s, range), addr) == Some(
            AttributeProfile::DeviceValidated,
        ),
        !range.contains(addr) ==> profile_at(promote_effect(s, range), addr) == profile_at(s, addr),
{
    let t = promote_effect(s, range);
    let i = choose|i: int| 0 <= i < s.len() && s[i].range == range && s[i].profile == AttributeProfile::DeviceLazy;
    assert forall|k: int| 0 <= k < t.len() implies t[k].range == s[k].range by {}
    assert(regions_wf(t));
    if range.contains(addr) {
        lemma_region_at(t, i, addr);
    } else if exists|j: int| 0 <= j < s.len() && s[j].range.contains(addr) {
        let j = choose|j: int| 0 <= j < s.len() && s[j].range.contains(addr);
        lemma_region_at(s, j, addr);
        lemma_region_at(t, j, addr);
    } else {
        assert(!exists|j: int| 0 <= j < t.len() && t[j].range.contains(addr)) by {
            if exists|j: int| 0 <= j < t.len() && t[j].range.contains(addr) {
                let j = choose|j: int| 0 <= j < t.len() && t[j].range.contains(addr);
                assert(s[j].range.contains(addr));
            }
        }
    }
}

/// A mapping request never changes the profile of an address that was already mapped.
pub proof fn lemma_map_keeps_mapped(
    s: Seq<MappedRegion>,
    range: AddressRange,
    p: AttributeProfile,
    addr: int,
)
    requires
        regions_wf(s),
        range.wf(),
        profile_at(s, addr).is_some(),
    ensures
        profile_at(map_effect(s, range, p), addr) == profile_at(s, addr),
{
    lemma_map_effect_wf(s, range, p);
    let t = map_effect(s, range, p);
    let j = choose|j: int| 0 <= j < s.len() && s[j].range.contains(addr);
    lemma_region_at(s, j, addr);
    if map_result(s, range, p).is_ok() && !range.is_empty() && !mapped_as(s, range, p) {
        lemma_merge_parts(s, range);
        let u = untouched(s, range);
        if s[j].range.overlaps(range) {
            assert(t[u.len() as int].range.contains(addr));
            lemma_region_at(t, u.len() as int, addr);
        } else {
            let k = choose|k: int| 0 <= k < u.len() && u[k] == s[j];
            assert(t[k] == s[j]);
            lemma_region_at(t, k, addr);
        }
    } else {
        lemma_region_at(t, j, addr);
    }
}

/// Translation granule field of `TCR_EL1` for the lower address range.
pub const TCR_EL1_TG0_MASK: u64 = 0x3;
pub const TCR_EL1_TG0_SHIFT: u64 = 14;
pub const TCR_EL1_TG0_SIZE_4KB: u64 = 0;

/// Size offset field of `TCR_EL1`: 64 minus the number of virtual address bits.
pub const TCR_EL1_T0SZ_MASK: u64 = 0x3f;
pub const TCR_EL1_T0SZ_39_VA_BITS: u64 = 25;

/// Whether a `TCR_EL1` value configures what this table is built for: a 4 KiB granule and a
/// 39-bit lower address space. Any other value is a fatal configuration error.
pub fn tcr_el1_matches(tcr_el1: u64) -> (r: bool)
    ensures
        r == ((tcr_el1 >> TCR_EL1_TG0_SHIFT) & TCR_EL1_TG0_MASK == TCR_EL1_TG0_SIZE_4KB
            && tcr_el1 & TCR_EL1_T0SZ_MASK == TCR_EL1_T0SZ_39_VA_BITS),
{
    (tcr_el1 >> TCR_EL1_TG0_SHIFT) & TCR_EL1_TG0_MASK == TCR_EL1_TG0_SIZE_4KB && tcr_el1
        & TCR_EL1_T0SZ_MASK == TCR_EL1_T0SZ_39_VA_BITS
}

/// High-level API for managing MMU mappings: an identity map and the record of what it maps.
pub struct PageTable {
    idmap: IdMap,
    regions: Vec<MappedRegion>,
}

impl View for PageTable {
    type V = Seq<MappedRegion>;

    closed spec fn view(&self) -> Seq<MappedRegion> {
        self.regions@
    }
}

impl Default for PageTable {
    /// An empty table rooted at level 1, with address space identifier `ASID`.
    fn default() -> (r: PageTable)
        ensures
            r.wf(),
            r@ == Seq::<MappedRegion>::empty(),
            idmap_asid(r.idmap()) == PageTable::ASID,
            idmap_root_level(r.idmap()) == ROOT_LEVEL,
            forall|a: int| !(#[trigger] idmap_pages(r.idmap()).contains_key(a)),
    {
        PageTable { idmap: idmap_new(Self::ASID, ROOT_LEVEL), regions: Vec::new() }
    }
}

impl PageTable {
    /// ASID used for the underlying page table.
    pub const ASID: usize = 1;

    pub closed spec fn wf(&self) -> bool {
        &&& idmap_root_level(self.idmap) == ROOT_LEVEL
        &&& idmap_asid(self.idmap) == Self::ASID
        &&& regions_wf(self.regions@)
        &&& pages_match(idmap_pages(self.idmap), self.regions@)
    }

    /// The hardware table that the records describe.
    pub closed spec fn idmap(&self) -> IdMap {
        self.idmap
    }

    /// What the records report for a page is what the identity map holds for it: the page maps
    /// to itself with the bits of the reported profile.
    pub proof fn lemma_table_agrees(&self, addr: int)
        requires
            self.wf(),
            addr % (PAGE_SIZE as int) == 0,
            profile_at(self@, addr).is_some(),
        ensures
            idmap_pages(self.idmap()).contains_key(addr),
            idmap_pages(self.idmap())[addr] == profile_bits(profile_at(self@, addr).unwrap()),
    {
        let s = self@;
        let i = choose|i: int| 0 <= i < s.len() && s[i].range.contains(addr);
        lemma_region_at(s, i, addr);
    }

    /// The records of a well-formed table are well formed.
    pub proof fn lemma_wf_regions(&self)
        requires
            self.wf(),
        ensures
            regions_wf(self@),
    {
    }

    /// Maps `range` with the bits of `profile`, unless the records refuse it.
    fn map_range(&mut self, range: &AddressRange, profile: AttributeProfile) -> (r: Result<
        (),
        MappingError,
    >)
        requires
            old(self).wf(),
            range.wf(),
        ensures
            final(self).wf(),
            r == map_result(old(self)@, *range, profile),
            final(self)@ == map_effect(old(self)@, *range, profile),
    {
        if !range.page_aligned() {
            return Err(MappingError::Misaligned);
        }
        if range.end as u64 > VA_SPAN {
            return Err(MappingError::OutOfRange);
        }
        if range.start == range.end {
            assert(!conflicts(self@, *range, profile));
            return Ok(());
        }
        let ghost s = self.regions@;
        let mut i: usize = 0;
        while i < self.regions.len()
            invariant
                self.wf(),
                self.regions@ == s,
                s == old(self)@,
                range.wf(),
                range.start < range.end,
                range.is_page_aligned(),
                range.end <= VA_SPAN,
                0 <= i <= s.len(),
                forall|j: int|
                    0 <= j < i && s[j].range.overlaps(*range) ==> s[j].profile == profile
                        && !range.within(s[j].range),
            decreases s.len() - i,
        {
            let m = self.regions[i];
            if m.range.overlaps_range(range) {
                if m.profile != profile {
                    assert(conflicts(s, *range, profile));
                    return Err(MappingError::AlreadyMapped);
                }
                if m.range.start <= range.start && range.end <= m.range.end {
                    assert(mapped_as(s, *range, profile));
                    assert(!conflicts(s, *range, profile)) by {
                        if conflicts(s, *range, profile) {
                            let k = choose|k: int|
                                0 <= k < s.len() && s[k].range.overlaps(*range) && s[k].profile
                                    != profile;
                            assert(s[k].range.overlaps(s[i as int].range));
                        }
                    }
                    return Ok(());
                }
            }
            i = i + 1;
        }
        assert(!conflicts(s, *range, profile));
        assert(!mapped_as(s, *range, profile)) by {
            if mapped_as(s, *range, profile) {
                let k = choose|k: int|
                    0 <= k < s.len() && s[k].profile == profile && range.within(s[k].range);
                assert(s[k].range.overlaps(*range));
            }
        }
        let mut kept: Vec<MappedRegion> = Vec::new();
        let mut lo: usize = range.start;
        let mut hi: usize = range.end;
        let mut i: usize = 0;
        while i < self.regions.len()
            invariant
                self.wf(),
                self.regions@ == s,
                0 <= i <= s.len(),
                kept@ == untouched(s.subrange(0, i as int), *range),
                lo == hull(s.subrange(0, i as int), *range).start,
                hi == hull(s.subrange(0, i as int), *range).end,
            decreases s.len() - i,
        {
            let m = self.regions[i];
            assert(s.subrange(0, i + 1).drop_last() == s.subrange(0, i as int));
            assert(s.subrange(0, i + 1).last() == m);
            if m.range.overlaps_range(range) {
                if m.range.start < lo {
                    lo = m.range.start;
                }
                if m.range.end > hi {
                    hi = m.range.end;
                }
            } else {
                kept.push(m);
            }
            i = i + 1;
        }
        assert(s.subrange(0, s.len() as int) == s);
        proof {
            lemma_profile_bits_not_table(profile);
            lemma_map_effect_wf(s, *range, profile);
            lemma_merge_pages(idmap_pages(self.idmap), s, *range, profile);
        }
        let res = idmap_map_range(&mut self.idmap, range.start, range.end, profile.bits());
        assert(res.is_ok());
        kept.push(MappedRegion { range: AddressRange { start: lo, end: hi }, profile });
        self.regions = kept;
        Ok(())
    }

    /// Maps the given range of virtual addresses to the physical addresses as lazily mapped
    /// nGnRE device memory.
    pub fn map_device_lazy(&mut self, range: &AddressRange) -> (r: Result<(), MappingError>)
        requires
            old(self).wf(),
            range.wf(),
        ensures
            final(self).wf(),
            r == map_result(old(self)@, *range, AttributeProfile::DeviceLazy),
            final(self)@ == map_effect(old(self)@, *range, AttributeProfile::DeviceLazy),
    {
        self.map_range(range, AttributeProfile::DeviceLazy)
    }

    /// Maps the given range of virtual addresses to the physical addresses as valid device
    /// nGnRE device memory.
    pub fn map_device(&mut self, range: &AddressRange) -> (r: Result<(), MappingError>)
        requires
            old(self).wf(),
            range.wf(),
        ensures
            final(self).wf(),
            r == map_result(old(self)@, *range, AttributeProfile::DeviceValidated),
            final(self)@ == map_effect(old(self)@, *range, AttributeProfile::DeviceValidated),
    {
        self.map_range(range, AttributeProfile::DeviceValidated)
    }

    /// Maps the given range of virtual addresses to the physical addresses as non-executable
    /// and writable normal memory.
    pub fn map_data(&mut self, range: &AddressRange) -> (r: Result<(), MappingError>)
        requires
            old(self).wf(),
            range.wf(),
        ensures
            final(self).wf(),
            r == map_result(old(self)@, *range, AttributeProfile::Data),
            final(self)@ == map_effect(old(self)@, *range, AttributeProfile::Data),
    {
        self.map_range(range, AttributeProfile::Data)
    }

    /// Maps the given range of virtual addresses to the physical addresses as non-executable,
    /// read-only and writable-clean normal memory.
    pub fn map_data_dbm(&mut self, range: &AddressRange) -> (r: Result<(), MappingError>)
        requires
            old(self).wf(),
            range.wf(),
        ensures
            final(self).wf(),
            r == map_result(old(self)@, *range, AttributeProfile::DataDbm),
            final(self)@ == map_effect(old(self)@, *range, AttributeProfile::DataDbm),
    {
        self.map_range(range, AttributeProfile::DataDbm)
    }

    /// Maps the given range of virtual addresses to the physical addresses as read-only
    /// normal memory.
    pub fn map_code(&mut self, range: &AddressRange) -> (r: Result<(), MappingError>)
        requires
            old(self).wf(),
            range.wf(),
        ensures
            final(self).wf(),
            r == map_result(old(self)@, *range, AttributeProfile::Code),
            final(self)@ == map_effect(old(self)@, *range, AttributeProfile::Code),
    {
        self.map_range(range, AttributeProfile::Code)
    }

    /// Maps the given range of virtual addresses to the physical addresses as non-executable
    /// and read-only normal memory.
    pub fn map_rodata(&mut self, range: &AddressRange) -> (r: Result<(), MappingError>)
        requires
            old(self).wf(),
            range.wf(),
        ensures
            final(self).wf(),
            r == map_result(old(self)@, *range, AttributeProfile::RoData),
            final(self)@ == map_effect(old(self)@, *range, AttributeProfile::RoData),
    {
        self.map_range(range, AttributeProfile::RoData)
    }
    /// The region that holds `addr`, if it is mapped.
    pub fn region_at(&self, addr: usize) -> (r: Option<MappedRegion>)
        requires
            self.wf(),
        ensures
            r == region_at(self@, addr as int),
    {
        let mut i: usize = 0;
        while i < self.regions.len()
            invariant
                self.wf(),
                0 <= i <= self.regions@.len(),
                forall|j: int| 0 <= j < i ==> !self.regions@[j].range.contains(addr as int),
            decreases self.regions@.len() - i,
        {
            if self.regions[i].range.contains_addr(addr) {
                proof {
                    lemma_region_at(self@, i as int, addr as int);
                }
                return Some(self.regions[i]);
            }
            i = i + 1;
        }
        None
    }

    /// The profile of the page that holds `addr`, if it is mapped.
    pub fn profile_at(&self, addr: usize) -> (r: Option<AttributeProfile>)
        requires
            self.wf(),
        ensures
            r == profile_at(self@, addr as int),
    {
        let mut i: usize = 0;
        while i < self.regions.len()
            invariant
                self.wf(),
                0 <= i <= self.regions@.len(),
                forall|j: int| 0 <= j < i ==> !self.regions@[j].range.contains(addr as int),
            decreases self.regions@.len() - i,
        {
            if self.regions[i].range.contains_addr(addr) {
                proof {
                    lemma_region_at(self@, i as int, addr as int);
                }
                return Some(self.regions[i].profile);
            }
            i = i + 1;
        }
        None
    }

    /// Promotes the lazily mapped device region with exactly this range to valid device memory,
    /// mapping it again with the valid bit set. The physical frames stay those of the identity
    /// map; no other region changes.
    pub fn promote_device_lazy(&mut self, range: &AddressRange) -> (r: Result<(), MappingError>)
        requires
            old(self).wf(),
        ensures
            final(self).wf(),
            r.is_ok() <==> has_lazy_region(old(self)@, *range),
            r.is_err() ==> r == Err::<(), MappingError>(MappingError::NotLazy),
            r.is_ok() ==> final(self)@ == promote_effect(old(self)@, *range),
            r.is_err() ==> final(self)@ == old(self)@,
    {
        let ghost s = self.regions@;
        let mut i: usize = 0;
        while i < self.regions.len()
            invariant
                self.wf(),
                s == self.regions@,
                s == old(self)@,
                0 <= i <= s.len(),
                forall|j: int|
                    0 <= j < i ==> !(s[j].range == *range && s[j].profile
                        == AttributeProfile::DeviceLazy),
            decreases s.len() - i,
        {
            let m = self.regions[i];
            if m.range == *range && m.profile == AttributeProfile::DeviceLazy {
                proof {
                    lemma_profile_bits_not_table(AttributeProfile::DeviceValidated);
                }
                let res = idmap_map_range(
                    &mut self.idmap,
                    m.range.start,
                    m.range.end,
                    AttributeProfile::DeviceValidated.bits(),
                );
                assert(res.is_ok());
                self.regions.set(i, MappedRegion { range: m.range, profile: AttributeProfile::DeviceValidated });
                proof {
                    let t = promote_effect(s, *range);
                    assert forall|k: int| 0 <= k < s.len() && k != i implies s[k].range != *range by {
                        assert(s[i as int].range.overlaps(s[i as int].range));
                    }
                    assert(self.regions@ =~= t);
                    assert(has_lazy_region(s, *range));
                    let q = idmap_pages(self.idmap);
                    assert forall|k: int, a: int|
                        0 <= k < t.len() && #[trigger] t[k].range.contains(a) && a % (
                        PAGE_SIZE as int) == 0 implies q.contains_key(a) && q[a] == profile_bits(
                        t[k].profile,
                    ) by {
                        if k != i {
                            assert(!s[k].range.overlaps(s[i as int].range));
                        }
                    }
                }
                return Ok(());
            }
            i = i + 1;
        }
        Err(MappingError::NotLazy)
    }

    /// Whether the table maps all of `code` as executable code, so that activating it keeps the
    /// instructions that run at that moment reachable.
    pub fn maps_code(&self, code: &AddressRange) -> (r: bool)
        requires
            self.wf(),
        ensures
            r == mapped_as(self@, *code, AttributeProfile::Code),
    {
        let mut i: usize = 0;
        while i < self.regions.len()
            invariant
                0 <= i <= self.regions@.len(),
                forall|j: int|
                    0 <= j < i ==> !(self.regions@[j].profile == AttributeProfile::Code
                        && code.within(self.regions@[j].range)),
            decreases self.regions@.len() - i,
        {
            let m = self.regions[i];
            if m.profile == AttributeProfile::Code && m.range.start <= code.start && code.end
                <= m.range.end {
                return true;
            }
            i = i + 1;
        }
        false
    }

    /// Hands out the identity map itself, so that it can be installed in the translation
    /// hardware. The records are untouched; what is done through the reference is not checked
    /// here, and the table is well formed afterwards only if the map keeps its root level and its
    /// pages, as activation does.
    pub fn idmap_mut(&mut self) -> (r: &mut IdMap)
        requires
            old(self).wf(),
        ensures
            *r == old(self).idmap(),
            final(self)@ == old(self)@,
            final(self).idmap() == *final(r),
    {
        &mut self.idmap
    }
}

} // verus!
