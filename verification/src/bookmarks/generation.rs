//! The checks and the route choice that open an automatic bookmark
//! generation.

use vstd::prelude::*;

use super::model::GenerationMode;
use super::outline::{candidates_match, existing_outline_candidates, first_fault, outline_items, OutlineCandidate, OutlinePage};
use super::text_index::{bind_ocr_to_package, ocr_binding_fault};
use crate::derived::DerivedManifest;
use crate::document_package::{package_valid, PackageRecord, PageRecord};
use crate::error::{CoreError, Result};
use crate::text::str_eq;

verus! {

/// Why the derived document cannot be used with this package and OCR run,
/// if it cannot: it must come from the package's source and, when an OCR
/// run is given, from that run.
pub open spec fn inputs_fault(
    package_source_digest: Seq<char>,
    derived: Option<DerivedManifest>,
    ocr_digest: Option<Seq<char>>,
) -> Option<Seq<char>> {
    match derived {
        None => None,
        Some(d) => if d.source_digest@ != package_source_digest {
            Some("derived source does not match package"@)
        } else {
            match ocr_digest {
                Some(o) => if (match d.ocr_digest {
                    Some(x) => Some(x@),
                    None => None,
                }) != Some(o) {
                    Some("derived document was not built from this OCR run"@)
                } else {
                    None
                },
                None => None,
            }
        },
    }
}

/// Checks that the derived document belongs to the package and to the OCR
/// run (`ocr_digest`, the digest of the run, when there is one).
pub fn check_auto_inputs(
    package_source_digest: &str,
    derived: Option<&DerivedManifest>,
    ocr_digest: Option<&str>,
) -> (r: Result<()>)
    ensures
        match inputs_fault(
            package_source_digest@,
            match derived {
                Some(d) => Some(*d),
                None => None,
            },
            match ocr_digest {
                Some(o) => Some(o@),
                None => None,
            },
        ) {
            Some(m) => r matches Err(CoreError::InvalidDocument(e)) && e@ == m,
            None => r is Ok,
        },
{
    match derived {
        None => Ok(()),
        Some(d) => {
            if !str_eq(d.source_digest.as_str(), package_source_digest) {
                return Err(CoreError::InvalidDocument("derived source does not match package".to_owned()));
            }
            match ocr_digest {
                None => Ok(()),
                Some(o) => {
                    let same = match &d.ocr_digest {
                        Some(x) => str_eq(x.as_str(), o),
                        None => false,
                    };
                    if same {
                        Ok(())
                    } else {
                        Err(CoreError::InvalidDocument("derived document was not built from this OCR run".to_owned()))
                    }
                },
            }
        },
    }
}

/// How a generation proceeds: from the outline the package already has,
/// else from a printed contents page when both OCR and derived evidence are
/// there, else it refuses.
pub open spec fn route_spec(has_outline: bool, has_ocr: bool, has_derived: bool) -> GenerationMode {
    if has_outline {
        GenerationMode::ExistingOutline
    } else if has_ocr && has_derived {
        GenerationMode::TocAligned
    } else {
        GenerationMode::SafeRefusal
    }
}

/// Chooses how a generation proceeds; see [`route_spec`]. A refusal comes
/// with its reason. (A printed-contents run may still end in a refusal of
/// its own when no contents page is found.)
pub fn generation_route(has_outline: bool, has_ocr: bool, has_derived: bool) -> (r: (GenerationMode, Option<&'static str>))
    ensures
        r.0 == route_spec(has_outline, has_ocr, has_derived),
        r.1 is Some <==> r.0 == GenerationMode::SafeRefusal,
        r.1 matches Some(m) ==> m@ == "no validated native outline and no complete OCR evidence for this document"@,
{
    if has_outline {
        (GenerationMode::ExistingOutline, None)
    } else if has_ocr && has_derived {
        (GenerationMode::TocAligned, None)
    } else {
        (GenerationMode::SafeRefusal, Some("no validated native outline and no complete OCR evidence for this document"))
    }
}

/// What a run has of its OCR evidence: whether it covers the package's page
/// count, the page index of each OCR page, and the digest of the run.
#[derive(Debug, Clone)]
pub struct OcrBinding {
    pub complete: bool,
    pub page_indices: Vec<u32>,
    pub digest: String,
}

/// How a generation goes on once its inputs are checked: with the
/// candidates of the package's own outline, by compiling a printed contents
/// page, or by refusing with a reason.
#[derive(Debug)]
pub enum GenerationPlan {
    ExistingOutline(Vec<OutlineCandidate>),
    PrintedContents,
    Refusal(String),
}

pub open spec fn physical_indices(pages: Seq<PageRecord>) -> Seq<u32> {
    pages.map_values(|p: PageRecord| p.physical_index)
}

pub open spec fn has_outline(outline: Seq<OutlinePage>) -> bool {
    exists|p: int| 0 <= p < outline.len() && (#[trigger] outline[p]).outline@.len() > 0
}

/// Why the inputs of a generation are refused, if they are, after the
/// package itself is valid: the OCR run's binding to the package pages,
/// then the derived document's source and OCR run.
pub open spec fn plan_fault(package: PackageRecord, ocr: Option<OcrBinding>, derived: Option<DerivedManifest>) -> Option<Seq<char>> {
    match ocr {
        Some(o) if ocr_binding_fault(o.complete, o.page_indices@, physical_indices(package.pages@)) is Some =>
            ocr_binding_fault(o.complete, o.page_indices@, physical_indices(package.pages@)),
        _ => inputs_fault(
            package.source.content_sha256@,
            derived,
            match ocr {
                Some(o) => Some(o.digest@),
                None => None,
            },
        ),
    }
}

/// Checks the inputs of an automatic bookmark generation, in the order the
/// engine does (the package, the OCR run's binding to its pages, the derived
/// document's source and OCR run) and chooses the route. On the route of
/// the package's own outline it makes the outline's candidates.
pub fn plan_generation(
    package: &PackageRecord,
    outline: &[OutlinePage],
    ocr: Option<&OcrBinding>,
    derived: Option<&DerivedManifest>,
) -> (r: Result<GenerationPlan>)
    requires
        forall|p: int| 0 <= p < outline@.len() ==> #[trigger] outline@[p].outline@.len() <= u32::MAX,
    ensures
        !package_valid(*package) ==> r is Err,
        ({
            let ov = match ocr {
                Some(o) => Some(*o),
                None => None,
            };
            let dv = match derived {
                Some(d) => Some(*d),
                None => None,
            };
            package_valid(*package) ==> match plan_fault(*package, ov, dv) {
                Some(m) => r matches Err(CoreError::InvalidDocument(e)) && e@ == m,
                None => match route_spec(has_outline(outline@), ocr is Some, derived is Some) {
                    GenerationMode::ExistingOutline => match first_fault(outline@, outline_items(outline@).len() as int) {
                        Some(m) => r matches Err(CoreError::InvalidDocument(e)) && e@ == m,
                        None => r matches Ok(GenerationPlan::ExistingOutline(v)) && candidates_match(
                            outline@,
                            package.source.content_sha256@,
                            v@,
                        ),
                    },
                    GenerationMode::TocAligned => r matches Ok(GenerationPlan::PrintedContents),
                    GenerationMode::SafeRefusal => r matches Ok(GenerationPlan::Refusal(m)) && m@
                        == "no validated native outline and no complete OCR evidence for this document"@,
                },
            }
        }),
{
    match package.validate() {
        Err(e) => return Err(e),
        Ok(()) => {},
    }
    let ocr_digest: Option<&str> = match ocr {
        Some(o) => {
            let mut physical: Vec<u32> = Vec::new();
            let mut i: usize = 0;
            while i < package.pages.len()
                invariant
                    i <= package.pages@.len(),
                    physical@ == physical_indices(package.pages@).take(i as int),
                decreases package.pages.len() - i,
            {
                physical.push(package.pages[i].physical_index);
                i = i + 1;
                assert(physical@ =~= physical_indices(package.pages@).take(i as int));
            }
            assert(physical@ =~= physical_indices(package.pages@));
            match bind_ocr_to_package(o.complete, o.page_indices.as_slice(), physical.as_slice()) {
                Err(e) => return Err(e),
                Ok(()) => {},
            }
            Some(o.digest.as_str())
        },
        None => None,
    };
    match check_auto_inputs(package.source.content_sha256.as_str(), derived, ocr_digest) {
        Err(e) => return Err(e),
        Ok(()) => {},
    }
    let mut any = false;
    let mut p: usize = 0;
    while p < outline.len()
        invariant
            p <= outline@.len(),
            any == exists|q: int| 0 <= q < p && (#[trigger] outline@[q]).outline@.len() > 0,
        decreases outline.len() - p,
    {
        if outline[p].outline.len() > 0 {
            any = true;
        }
        p = p + 1;
    }
    let (mode, _reason) = generation_route(any, ocr.is_some(), derived.is_some());
    match mode {
        GenerationMode::ExistingOutline => match existing_outline_candidates(outline, package.source.content_sha256.as_str()) {
            Err(e) => Err(e),
            Ok(v) => Ok(GenerationPlan::ExistingOutline(v)),
        },
        GenerationMode::TocAligned => Ok(GenerationPlan::PrintedContents),
        GenerationMode::SafeRefusal => Ok(
            GenerationPlan::Refusal(
                "no validated native outline and no complete OCR evidence for this document".to_owned(),
            ),
        ),
    }
}

} // verus!
