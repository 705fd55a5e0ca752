//! Resolving a stored bookmark snapshot against the package and derived
//! document it claims to come from: freshness, target pages, every evidence
//! reference, and parent levels.
//!
//! Boxes are compared as the floating-point numbers they are, through an
//! integer stand-in: [`BoxKey`] holds each coordinate's bit pattern (with
//! negative zero folded onto zero) and whether any coordinate is NaN, so
//! that two keys are [`box_same`] exactly when the boxes compare equal.

use vstd::prelude::*;

use super::snapshot::{
    check_fresh, check_parent_levels, check_target, derived_binding, find_page, parents_fault,
    snapshot_fault, target_fault, PageIndexRef, SnapshotCandidate, SnapshotRecord,
};
use crate::digest::{hex_of, sha256};
use crate::document_package::{package_valid, PackageRecord};
use crate::error::{CoreError, Result};
use crate::text::str_eq;

verus! {

/// A box as compared: the bit patterns of x, y, width and height (negative
/// zero written as zero) and whether any of them is NaN.
#[derive(Debug, Clone, Copy, PartialEq, Eq, Structural)]
pub struct BoxKey {
    pub x: i64,
    pub y: i64,
    pub width: i64,
    pub height: i64,
    pub has_nan: bool,
}

/// Whether two boxes compare equal: no NaN and the same four numbers.
pub open spec fn box_same(a: BoxKey, b: BoxKey) -> bool {
    !a.has_nan && !b.has_nan && a.x == b.x && a.y == b.y && a.width == b.width && a.height == b.height
}

fn box_same_exec(a: BoxKey, b: BoxKey) -> (r: bool)
    ensures
        r == box_same(a, b),
{
    !a.has_nan && !b.has_nan && a.x == b.x && a.y == b.y && a.width == b.width && a.height == b.height
}

/// One evidence reference of a candidate.
#[derive(Debug, Clone)]
pub enum EvidenceItem {
    MdpOutline { page_id: String, ordinal: u32, source: String },
    MdpPageLabel { page_id: String, label: String },
    MdpTypography { page_id: String, ordinal: u32, space_id: String, bbox: BoxKey },
    MdpRegion { page_id: String, ordinal: u32, space_id: String, bbox: BoxKey },
    DerivedPage { page_id: String, bbox: BoxKey },
    DerivedLine { page_id: String, line_id: String, bbox: BoxKey },
    DerivedWord { page_id: String, word_id: String, bbox: BoxKey },
}

/// A package page as evidence resolution reads it: its ID and physical
/// index, the source of each outline item, its printed label, and the
/// bounds (coordinate space and box) of each typography and region record.
#[derive(Debug, Clone)]
pub struct PageEvidence {
    pub page_id: String,
    pub physical_index: u32,
    pub outline_sources: Vec<String>,
    pub page_label: Option<String>,
    pub typography_bounds: Vec<(String, BoxKey)>,
    pub region_bounds: Vec<(String, BoxKey)>,
}

/// A derived page: its ID and box, and the ID and box of each of its lines
/// and words.
#[derive(Debug, Clone)]
pub struct DerivedPageEvidence {
    pub page_id: String,
    pub bbox: BoxKey,
    pub lines: Vec<(String, BoxKey)>,
    pub words: Vec<(String, BoxKey)>,
}

/// The first of the first `n` package pages with this ID.
pub open spec fn first_page(pages: Seq<PageEvidence>, id: Seq<char>, n: int) -> Option<int>
    decreases n,
{
    if n <= 0 {
        None
    } else {
        match first_page(pages, id, n - 1) {
            Some(i) => Some(i),
            None => if pages[n - 1].page_id@ == id {
                Some(n - 1)
            } else {
                None
            },
        }
    }
}

/// The last of the first `n` derived pages with this ID (a later page with
/// the same ID replaces an earlier one).
pub open spec fn last_derived(pages: Seq<DerivedPageEvidence>, id: Seq<char>, n: int) -> Option<int>
    decreases n,
{
    if n <= 0 {
        None
    } else if pages[n - 1].page_id@ == id {
        Some(n - 1)
    } else {
        last_derived(pages, id, n - 1)
    }
}

/// Whether some entry has this ID and an equal box.
pub open spec fn has_entry(entries: Seq<(String, BoxKey)>, id: Seq<char>, b: BoxKey) -> bool {
    exists|k: int| 0 <= k < entries.len() && (#[trigger] entries[k]).0@ == id && box_same(entries[k].1, b)
}

pub open spec fn derived_page_of(derived: Option<Seq<DerivedPageEvidence>>, id: Seq<char>) -> Option<DerivedPageEvidence> {
    match derived {
        None => None,
        Some(d) => match last_derived(d, id, d.len() as int) {
            Some(i) => Some(d[i]),
            None => None,
        },
    }
}

/// Why an evidence reference does not resolve, if it does not.
pub open spec fn evidence_fault(e: EvidenceItem, pages: Seq<PageEvidence>, derived: Option<Seq<DerivedPageEvidence>>) -> Option<Seq<char>> {
    match e {
        EvidenceItem::MdpOutline { page_id, ordinal, source } => match first_page(pages, page_id@, pages.len() as int) {
            Some(p) => if ordinal < pages[p].outline_sources@.len() && pages[p].outline_sources@[ordinal as int]@ == source@ {
                None
            } else {
                Some("MDP outline evidence is unresolved"@)
            },
            None => Some("MDP outline evidence is unresolved"@),
        },
        EvidenceItem::MdpPageLabel { page_id, label } => match first_page(pages, page_id@, pages.len() as int) {
            Some(p) => if pages[p].page_label matches Some(l) && l@ == label@ {
                None
            } else {
                Some("MDP page-label evidence is unresolved"@)
            },
            None => Some("MDP page-label evidence is unresolved"@),
        },
        EvidenceItem::MdpTypography { page_id, ordinal, space_id, bbox } => match first_page(pages, page_id@, pages.len() as int) {
            Some(p) => if ordinal < pages[p].typography_bounds@.len() && pages[p].typography_bounds@[ordinal as int].0@ == space_id@ && box_same(pages[p].typography_bounds@[ordinal as int].1, bbox) {
                None
            } else {
                Some("MDP typography evidence is unresolved"@)
            },
            None => Some("MDP typography evidence is unresolved"@),
        },
        EvidenceItem::MdpRegion { page_id, ordinal, space_id, bbox } => match first_page(pages, page_id@, pages.len() as int) {
            Some(p) => if ordinal < pages[p].region_bounds@.len() && pages[p].region_bounds@[ordinal as int].0@ == space_id@ && box_same(pages[p].region_bounds@[ordinal as int].1, bbox) {
                None
            } else {
                Some("MDP region evidence is unresolved"@)
            },
            None => Some("MDP region evidence is unresolved"@),
        },
        EvidenceItem::DerivedPage { page_id, bbox } => match derived_page_of(derived, page_id@) {
            Some(d) => if box_same(d.bbox, bbox) {
                None
            } else {
                Some("derived page evidence is unresolved"@)
            },
            None => Some("derived page evidence is unresolved"@),
        },
        EvidenceItem::DerivedLine { page_id, line_id, bbox } => match derived_page_of(derived, page_id@) {
            Some(d) => if has_entry(d.lines@, line_id@, bbox) {
                None
            } else {
                Some("derived line evidence is unresolved"@)
            },
            None => Some("derived line evidence is unresolved"@),
        },
        EvidenceItem::DerivedWord { page_id, word_id, bbox } => match derived_page_of(derived, page_id@) {
            Some(d) => if has_entry(d.words@, word_id@, bbox) {
                None
            } else {
                Some("derived word evidence is unresolved"@)
            },
            None => Some("derived word evidence is unresolved"@),
        },
    }
}

/// The first of the first `n` evidence references that does not resolve.
pub open spec fn items_fault(items: Seq<EvidenceItem>, pages: Seq<PageEvidence>, derived: Option<Seq<DerivedPageEvidence>>, n: int) -> Option<Seq<char>>
    decreases n,
{
    if n <= 0 {
        None
    } else {
        match items_fault(items, pages, derived, n - 1) {
            Some(m) => Some(m),
            None => evidence_fault(items[n - 1], pages, derived),
        }
    }
}

pub open spec fn index_refs(pages: Seq<PageEvidence>) -> Seq<PageIndexRef> {
    pages.map_values(|p: PageEvidence| PageIndexRef { page_id: p.page_id, physical_index: p.physical_index })
}

/// The first fault of candidate `c` with evidence `items`: its target and
/// provenance, then its evidence in order.
pub open spec fn candidate_against(c: SnapshotCandidate, items: Seq<EvidenceItem>, pages: Seq<PageEvidence>, derived: Option<Seq<DerivedPageEvidence>>) -> Option<Seq<char>> {
    match target_fault(c, index_refs(pages)) {
        Some(m) => Some(m),
        None => items_fault(items, pages, derived, items.len() as int),
    }
}

/// The first fault among the first `n` candidates.
pub open spec fn candidates_against(cs: Seq<SnapshotCandidate>, evidence: Seq<Vec<EvidenceItem>>, pages: Seq<PageEvidence>, derived: Option<Seq<DerivedPageEvidence>>, n: int) -> Option<Seq<char>>
    decreases n,
{
    if n <= 0 {
        None
    } else {
        match candidates_against(cs, evidence, pages, derived, n - 1) {
            Some(m) => Some(m),
            None => candidate_against(cs[n - 1], evidence[n - 1]@, pages, derived),
        }
    }
}

/// Whether the snapshot was generated from this package and derived
/// document.
pub open spec fn fresh(snapshot: SnapshotRecord, source_sha256: Seq<char>, package_bytes: Seq<u8>, derived_bytes: Option<Seq<u8>>) -> bool {
    &&& snapshot.source_digest@ == source_sha256
    &&& snapshot.package_digest@ == hex_of(sha256(package_bytes))
    &&& (match snapshot.derived_digest {
        Some(d) => Some(d@),
        None => None::<Seq<char>>,
    }) == derived_binding(derived_bytes)
}

proof fn lemma_items_fault_sticks(items: Seq<EvidenceItem>, pages: Seq<PageEvidence>, derived: Option<Seq<DerivedPageEvidence>>, n: int, m: int)
    requires
        0 <= n <= m,
        items_fault(items, pages, derived, n) is Some,
    ensures
        items_fault(items, pages, derived, m) == items_fault(items, pages, derived, n),
    decreases m - n,
{
    if m > n {
        lemma_items_fault_sticks(items, pages, derived, n, m - 1);
    }
}

proof fn lemma_candidates_sticks(cs: Seq<SnapshotCandidate>, evidence: Seq<Vec<EvidenceItem>>, pages: Seq<PageEvidence>, derived: Option<Seq<DerivedPageEvidence>>, n: int, m: int)
    requires
        0 <= n <= m,
        candidates_against(cs, evidence, pages, derived, n) is Some,
    ensures
        candidates_against(cs, evidence, pages, derived, m) == candidates_against(cs, evidence, pages, derived, n),
    decreases m - n,
{
    if m > n {
        lemma_candidates_sticks(cs, evidence, pages, derived, n, m - 1);
    }
}

proof fn lemma_first_page_props(pages: Seq<PageEvidence>, id: Seq<char>, n: int)
    requires
        0 <= n <= pages.len(),
    ensures
        first_page(pages, id, n) matches Some(p) ==> 0 <= p < n,
    decreases n,
{
    if n > 0 {
        lemma_first_page_props(pages, id, n - 1);
    }
}

fn find_first(pages: &[PageEvidence], id: &str) -> (r: Option<usize>)
    ensures
        match first_page(pages@, id@, pages@.len() as int) {
            Some(p) => r == Some(p as usize),
            None => r is None,
        },
        r matches Some(p) ==> p < pages@.len(),
        first_page(pages@, id@, pages@.len() as int) matches Some(p) ==> 0 <= p < pages@.len(),
{
    proof {
        lemma_first_page_props(pages@, id@, pages@.len() as int);
    }
    let mut i: usize = 0;
    while i < pages.len()
        invariant
            i <= pages@.len(),
            first_page(pages@, id@, i as int) is None,
            first_page(pages@, id@, pages@.len() as int) matches Some(p) ==> 0 <= p < pages@.len(),
        decreases pages.len() - i,
    {
        if str_eq(pages[i].page_id.as_str(), id) {
            proof {
                lemma_first_page_sticks(pages@, id@, i + 1, pages@.len() as int);
            }
            return Some(i);
        }
        i = i + 1;
    }
    None
}

proof fn lemma_first_page_sticks(pages: Seq<PageEvidence>, id: Seq<char>, n: int, m: int)
    requires
        0 <= n <= m,
        first_page(pages, id, n) is Some,
    ensures
        first_page(pages, id, m) == first_page(pages, id, n),
    decreases m - n,
{
    if m > n {
        lemma_first_page_sticks(pages, id, n, m - 1);
    }
}

proof fn lemma_last_derived_props(pages: Seq<DerivedPageEvidence>, id: Seq<char>, n: int)
    requires
        0 <= n <= pages.len(),
    ensures
        last_derived(pages, id, n) matches Some(p) ==> 0 <= p < n,
    decreases n,
{
    if n > 0 {
        lemma_last_derived_props(pages, id, n - 1);
    }
}

fn find_last(pages: &[DerivedPageEvidence], id: &str) -> (r: Option<usize>)
    ensures
        match last_derived(pages@, id@, pages@.len() as int) {
            Some(p) => r == Some(p as usize),
            None => r is None,
        },
        r matches Some(p) ==> p < pages@.len(),
        last_derived(pages@, id@, pages@.len() as int) matches Some(p) ==> 0 <= p < pages@.len(),
{
    proof {
        lemma_last_derived_props(pages@, id@, pages@.len() as int);
    }
    let mut i: usize = pages.len();
    while i > 0
        invariant
            i <= pages@.len(),
            last_derived(pages@, id@, pages@.len() as int) == last_derived(pages@, id@, i as int),
        decreases i,
    {
        if str_eq(pages[i - 1].page_id.as_str(), id) {
            return Some(i - 1);
        }
        i = i - 1;
    }
    None
}

fn find_entry(entries: &[(String, BoxKey)], id: &str, b: BoxKey) -> (r: bool)
    ensures
        r == has_entry(entries@, id@, b),
{
    let mut k: usize = 0;
    while k < entries.len()
        invariant
            k <= entries@.len(),
            forall|j: int| 0 <= j < k ==> !((#[trigger] entries@[j]).0@ == id@ && box_same(entries@[j].1, b)),
        decreases entries.len() - k,
    {
        if str_eq(entries[k].0.as_str(), id) && box_same_exec(entries[k].1, b) {
            assert(entries@[k as int].0@ == id@);
            return true;
        }
        k = k + 1;
    }
    false
}

fn unresolved(m: &str) -> (r: Result<()>)
    ensures
        r matches Err(CoreError::InvalidDocument(e)) && e@ == m@,
{
    Err(CoreError::InvalidDocument(m.to_owned()))
}

/// Resolves one evidence reference.
pub fn check_evidence(e: &EvidenceItem, pages: &[PageEvidence], derived: Option<&[DerivedPageEvidence]>) -> (r: Result<()>)
    ensures
        match evidence_fault(
            *e,
            pages@,
            match derived {
                Some(d) => Some(d@),
                None => None,
            },
        ) {
            Some(m) => r matches Err(CoreError::InvalidDocument(x)) && x@ == m,
            None => r is Ok,
        },
{
    match e {
        EvidenceItem::MdpOutline { page_id, ordinal, source } => {
            let ok = match find_first(pages, page_id.as_str()) {
                Some(p) => (*ordinal as usize) < pages[p].outline_sources.len() && str_eq(
                    pages[p].outline_sources[*ordinal as usize].as_str(),
                    source.as_str(),
                ),
                None => false,
            };
            if ok { Ok(()) } else { unresolved("MDP outline evidence is unresolved") }
        },
        EvidenceItem::MdpPageLabel { page_id, label } => {
            let ok = match find_first(pages, page_id.as_str()) {
                Some(p) => match &pages[p].page_label {
                    Some(l) => str_eq(l.as_str(), label.as_str()),
                    None => false,
                },
                None => false,
            };
            if ok { Ok(()) } else { unresolved("MDP page-label evidence is unresolved") }
        },
        EvidenceItem::MdpTypography { page_id, ordinal, space_id, bbox } => {
            let ok = match find_first(pages, page_id.as_str()) {
                Some(p) => (*ordinal as usize) < pages[p].typography_bounds.len() && str_eq(
                    pages[p].typography_bounds[*ordinal as usize].0.as_str(),
                    space_id.as_str(),
                ) && box_same_exec(pages[p].typography_bounds[*ordinal as usize].1, *bbox),
                None => false,
            };
            if ok { Ok(()) } else { unresolved("MDP typography evidence is unresolved") }
        },
        EvidenceItem::MdpRegion { page_id, ordinal, space_id, bbox } => {
            let ok = match find_first(pages, page_id.as_str()) {
                Some(p) => (*ordinal as usize) < pages[p].region_bounds.len() && str_eq(
                    pages[p].region_bounds[*ordinal as usize].0.as_str(),
                    space_id.as_str(),
                ) && box_same_exec(pages[p].region_bounds[*ordinal as usize].1, *bbox),
                None => false,
            };
            if ok { Ok(()) } else { unresolved("MDP region evidence is unresolved") }
        },
        EvidenceItem::DerivedPage { page_id, bbox } => {
            let ok = match derived {
                None => false,
                Some(d) => match find_last(d, page_id.as_str()) {
                    Some(j) => box_same_exec(d[j].bbox, *bbox),
                    None => false,
                },
            };
            if ok { Ok(()) } else { unresolved("derived page evidence is unresolved") }
        },
        EvidenceItem::DerivedLine { page_id, line_id, bbox } => {
            let ok = match derived {
                None => false,
                Some(d) => match find_last(d, page_id.as_str()) {
                    Some(j) => find_entry(d[j].lines.as_slice(), line_id.as_str(), *bbox),
                    None => false,
                },
            };
            if ok { Ok(()) } else { unresolved("derived line evidence is unresolved") }
        },
        EvidenceItem::DerivedWord { page_id, word_id, bbox } => {
            let ok = match derived {
                None => false,
                Some(d) => match find_last(d, page_id.as_str()) {
                    Some(j) => find_entry(d[j].words.as_slice(), word_id.as_str(), *bbox),
                    None => false,
                },
            };
            if ok { Ok(()) } else { unresolved("derived word evidence is unresolved") }
        },
    }
}

/// Resolves every reference of a snapshot against its package and, when
/// there is one, its derived document. `snapshot_canonical` is the
/// snapshot's canonical JSON text, `evidence[i]` the evidence of candidate
/// `i`, `package_bytes` and `derived_bytes` the compact JSON text of the
/// package and the derived document. The checks run in this order, and the
/// first that fails gives the error: the snapshot's own validity, the
/// package's, freshness, each candidate's target and then its evidence, and
/// the parents' levels.
#[verifier::loop_isolation(false)]
pub fn validate_against(
    snapshot: &SnapshotRecord,
    snapshot_canonical: &[u8],
    evidence: &[Vec<EvidenceItem>],
    package: &PackageRecord,
    pages: &[PageEvidence],
    derived: Option<&[DerivedPageEvidence]>,
    source_sha256: &str,
    package_bytes: &[u8],
    derived_bytes: Option<&[u8]>,
) -> (r: Result<()>)
    requires
        evidence@.len() == snapshot.candidates@.len(),
    ensures
        ({
            let dv = match derived {
                Some(d) => Some(d@),
                None => None,
            };
            let bv = match derived_bytes {
                Some(b) => Some(b@),
                None => None,
            };
            &&& r is Ok <==> (snapshot_fault(*snapshot, snapshot_canonical@) is None && package_valid(*package)
                && fresh(*snapshot, source_sha256@, package_bytes@, bv) && candidates_against(
                snapshot.candidates@,
                evidence@,
                pages@,
                dv,
                snapshot.candidates@.len() as int,
            ) is None && parents_fault(snapshot.candidates@, snapshot.candidates@.len() as int) is None)
            &&& snapshot_fault(*snapshot, snapshot_canonical@) matches Some(m) ==> (r matches Err(
                CoreError::InvalidDocument(e),
            ) && e@ == m)
            &&& snapshot_fault(*snapshot, snapshot_canonical@) is None && package_valid(*package) && fresh(
                *snapshot,
                source_sha256@,
                package_bytes@,
                bv,
            ) ==> match candidates_against(snapshot.candidates@, evidence@, pages@, dv, snapshot.candidates@.len() as int) {
                Some(m) => r matches Err(CoreError::InvalidDocument(e)) && e@ == m,
                None => match parents_fault(snapshot.candidates@, snapshot.candidates@.len() as int) {
                    Some(m) => r matches Err(CoreError::InvalidDocument(e)) && e@ == m,
                    None => r is Ok,
                },
            }
        }),
{
    match snapshot.validate(snapshot_canonical) {
        Err(e) => return Err(e),
        Ok(()) => {},
    }
    match package.validate() {
        Err(e) => return Err(e),
        Ok(()) => {},
    }
    match check_fresh(snapshot, source_sha256, package_bytes, derived_bytes) {
        Err(e) => return Err(e),
        Ok(()) => {},
    }
    let mut refs: Vec<PageIndexRef> = Vec::new();
    let mut p: usize = 0;
    while p < pages.len()
        invariant
            p <= pages@.len(),
            refs@ == index_refs(pages@).take(p as int),
        decreases pages.len() - p,
    {
        refs.push(PageIndexRef { page_id: pages[p].page_id.clone(), physical_index: pages[p].physical_index });
        p = p + 1;
        assert(refs@ =~= index_refs(pages@).take(p as int));
    }
    assert(refs@ =~= index_refs(pages@));
    let ghost dv = match derived {
        Some(d) => Some(d@),
        None => None,
    };
    let cs = &snapshot.candidates;
    let mut i: usize = 0;
    while i < cs.len()
        invariant
            *cs == snapshot.candidates,
            evidence@.len() == cs@.len(),
            refs@ == index_refs(pages@),
            dv == match derived {
                Some(d) => Some(d@),
                None => None,
            },
            i <= cs@.len(),
            candidates_against(cs@, evidence@, pages@, dv, i as int) is None,
        decreases cs.len() - i,
    {
        match check_target(&cs[i], refs.as_slice()) {
            Err(e) => {
                proof {
                    lemma_candidates_sticks(cs@, evidence@, pages@, dv, i + 1, cs@.len() as int);
                }
                return Err(e);
            },
            Ok(()) => {},
        }
        let items = &evidence[i];
        let mut k: usize = 0;
        while k < items.len()
            invariant
                items_fault(items@, pages@, dv, k as int) is None,
                k <= items@.len(),
                dv == match derived {
                    Some(d) => Some(d@),
                    None => None,
                },
            decreases items.len() - k,
        {
            match check_evidence(&items[k], pages, derived) {
                Err(e) => {
                    proof {
                        lemma_items_fault_sticks(items@, pages@, dv, k + 1, items@.len() as int);
                        lemma_candidates_sticks(cs@, evidence@, pages@, dv, i + 1, cs@.len() as int);
                    }
                    return Err(e);
                },
                Ok(()) => {},
            }
            k = k + 1;
        }
        i = i + 1;
    }
    check_parent_levels(cs.as_slice())
}

} // verus!
