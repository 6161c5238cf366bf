//! Knowledge bundles: the header that vouches for a bundle's payload, the
//! check of that checksum on import, and which lessons an import records.
//!
//! The payload is serialised by the caller; this module sees its bytes.

use vstd::prelude::*;
use std::collections::HashMap;
use crate::digest::{hex_encode, hex_lower, sha256, sha256_of};
use crate::text::str_eq;

verus! {

broadcast use vstd::string::group_string_axioms;

/// The bundle format this library writes.
pub const BUNDLE_FORMAT_VERSION: u32 = 1;

/// The file extension of a bundle.
pub const DEFAULT_BUNDLE_EXT: &'static str = "ozymem";

/// The header of a knowledge bundle.
#[derive(Debug, Clone)]
pub struct BundleHeader {
    pub format_version: u32,
    pub project_name: String,
    pub exported_at: String,
    pub lesson_count: usize,
    pub route_count: usize,
    pub metadata: HashMap<String, String>,
    pub sha256_payload: String,
}

/// What an export wrote.
#[derive(Debug, Clone)]
pub struct BundleExportSummary {
    pub file_path: String,
    pub project_name: String,
    pub lessons_exported: usize,
    pub routes_exported: usize,
    pub sha256: String,
    pub file_size_bytes: u64,
}

/// What an import did.
#[derive(Debug, Clone)]
pub struct BundleImportSummary {
    pub file_path: String,
    pub project_name: String,
    pub lessons_imported: usize,
    pub lessons_skipped_duplicate: usize,
    pub routes_imported: usize,
    pub mode: String,
}

/// The checksum text of a payload: its SHA-256 digest in lower-case hex.
pub open spec fn checksum_of(payload: Seq<u8>) -> Seq<char> {
    hex_lower(sha256_of(payload))
}

/// The checksum of the serialised payload `payload`.
pub fn payload_checksum(payload: &[u8]) -> (r: String)
    ensures
        r@ == checksum_of(payload@),
{
    let d = sha256(payload);
    hex_encode(d.as_slice())
}

/// The header of a bundle of `lesson_count` lessons and `route_count` API
/// routes for `project_name`, exported at `exported_at`, whose serialised
/// payload is `payload`.
pub fn bundle_header(
    project_name: &str,
    exported_at: String,
    lesson_count: usize,
    route_count: usize,
    payload: &[u8],
) -> (r: BundleHeader)
    ensures
        r.format_version == BUNDLE_FORMAT_VERSION,
        r.project_name@ == project_name@,
        r.exported_at@ == exported_at@,
        r.lesson_count == lesson_count,
        r.route_count == route_count,
        r.metadata@ == Map::<String, String>::empty(),
        r.sha256_payload@ == checksum_of(payload@),
{
    BundleHeader {
        format_version: BUNDLE_FORMAT_VERSION,
        project_name: project_name.to_owned(),
        exported_at,
        lesson_count,
        route_count,
        metadata: HashMap::new(),
        sha256_payload: payload_checksum(payload),
    }
}

/// Why a bundle was refused.
pub enum BundleError {
    /// The payload's checksum is not the one the header records.
    ChecksumMismatch { expected: String, computed: String },
}

impl BundleError {
    /// The message shown for the error.
    pub fn message(&self) -> (r: String)
        ensures
            match self {
                BundleError::ChecksumMismatch { expected, computed } => r@
                    == "Knowledge bundle checksum mismatch! Expected: "@ + expected@
                    + ", Computed: "@ + computed@,
            },
    {
        match self {
            BundleError::ChecksumMismatch { expected, computed } => {
                let mut r = "Knowledge bundle checksum mismatch! Expected: ".to_owned();
                crate::text::push_str(&mut r, expected.as_str());
                crate::text::push_str(&mut r, ", Computed: ");
                crate::text::push_str(&mut r, computed.as_str());
                r
            },
        }
    }
}

/// Checks a bundle's payload against its header: `Ok` exactly when the
/// payload's checksum is the recorded one; else the mismatch, with both
/// checksums.
pub fn verify_payload(header: &BundleHeader, payload: &[u8]) -> (r: Result<(), BundleError>)
    ensures
        r is Ok <==> checksum_of(payload@) == header.sha256_payload@,
        r matches Err(BundleError::ChecksumMismatch { expected, computed }) ==> expected@
            == header.sha256_payload@ && computed@ == checksum_of(payload@),
{
    let computed = payload_checksum(payload);
    if str_eq(computed.as_str(), header.sha256_payload.as_str()) {
        Ok(())
    } else {
        Err(BundleError::ChecksumMismatch { expected: header.sha256_payload.clone(), computed })
    }
}

/// The fields of a lesson that an import compares and records.
#[derive(Debug, Clone)]
pub struct LessonFields {
    pub file_path: String,
    pub symbol_name: String,
    pub error_context: String,
    pub solution: String,
    pub kind: String,
}

/// Two lessons are the same when their file, symbol, context and solution
/// are.
pub open spec fn same_lesson(a: LessonFields, b: LessonFields) -> bool {
    &&& a.file_path@ == b.file_path@
    &&& a.symbol_name@ == b.symbol_name@
    &&& a.error_context@ == b.error_context@
    &&& a.solution@ == b.solution@
}

/// `l` is already among `existing`.
pub open spec fn known_lesson(existing: Seq<LessonFields>, l: LessonFields) -> bool {
    exists|i: int| 0 <= i < existing.len() && same_lesson(#[trigger] existing[i], l)
}

/// Whether an import records `l`: always when overwriting, else only when it
/// is not already known.
pub open spec fn records(existing: Seq<LessonFields>, l: LessonFields, merge: bool) -> bool {
    !(merge && known_lesson(existing, l))
}

/// How many of `incoming` an import records.
pub open spec fn recorded_count(existing: Seq<LessonFields>, incoming: Seq<LessonFields>, merge: bool) -> nat
    decreases incoming.len(),
{
    if incoming.len() == 0 {
        0
    } else {
        recorded_count(existing, incoming.drop_last(), merge) + if records(
            existing,
            incoming.last(),
            merge,
        ) {
            1nat
        } else {
            0nat
        }
    }
}

/// Merging skips only exact duplicates: an incoming lesson is left out
/// exactly when merging and some existing lesson has the same file, symbol,
/// context and solution. A lesson that differs from every existing one in
/// any of those four (its symbol, say) is recorded; overwriting records all.
pub proof fn lemma_merge_skips_exact_duplicates(existing: Seq<LessonFields>, l: LessonFields, merge: bool)
    ensures
        !records(existing, l, merge) <==> (merge && exists|i: int|
            0 <= i < existing.len() && #[trigger] existing[i].file_path@ == l.file_path@
                && existing[i].symbol_name@ == l.symbol_name@ && existing[i].error_context@
                == l.error_context@ && existing[i].solution@ == l.solution@),
        (forall|i: int| 0 <= i < existing.len() ==> #[trigger] existing[i].symbol_name@ != l.symbol_name@)
            ==> records(existing, l, merge),
        !merge ==> records(existing, l, merge),
{
    if known_lesson(existing, l) {
        let i = choose|i: int| 0 <= i < existing.len() && same_lesson(#[trigger] existing[i], l);
        assert(existing[i].file_path@ == l.file_path@);
    }
}

fn is_known(existing: &[LessonFields], l: &LessonFields) -> (r: bool)
    ensures
        r == known_lesson(existing@, *l),
{
    let mut i: usize = 0;
    while i < existing.len()
        invariant
            i <= existing@.len(),
            forall|j: int| 0 <= j < i ==> !same_lesson(#[trigger] existing@[j], *l),
        decreases existing@.len() - i,
    {
        let e = &existing[i];
        if str_eq(e.file_path.as_str(), l.file_path.as_str()) && str_eq(
            e.symbol_name.as_str(),
            l.symbol_name.as_str(),
        ) && str_eq(e.error_context.as_str(), l.error_context.as_str()) && str_eq(
            e.solution.as_str(),
            l.solution.as_str(),
        ) {
            assert(same_lesson(existing@[i as int], *l));
            return true;
        }
        i += 1;
    }
    false
}

/// Which of the bundle's lessons `incoming` an import records, given the
/// lessons the project already has (`existing`, read once before the import):
/// when merging, those already known are skipped; when overwriting, all are
/// recorded.
pub fn plan_import(existing: &[LessonFields], incoming: &[LessonFields], merge: bool) -> (r: Vec<
    bool,
>)
    ensures
        r@.len() == incoming@.len(),
        forall|i: int| 0 <= i < incoming@.len() ==> #[trigger] r@[i] == records(existing@, incoming@[i], merge),
{
    let mut r: Vec<bool> = Vec::new();
    let mut i: usize = 0;
    while i < incoming.len()
        invariant
            i <= incoming@.len(),
            r@.len() == i,
            forall|j: int| 0 <= j < i ==> #[trigger] r@[j] == records(existing@, incoming@[j], merge),
        decreases incoming@.len() - i,
    {
        let dup = is_known(existing, &incoming[i]);
        r.push(!(merge && dup));
        i += 1;
    }
    r
}

/// The number of `true` entries of a plan.
pub open spec fn count_true(v: Seq<bool>) -> nat
    decreases v.len(),
{
    if v.len() == 0 {
        0
    } else {
        count_true(v.drop_last()) + if v.last() {
            1nat
        } else {
            0nat
        }
    }
}

/// Every lesson of a bundle is either recorded or skipped as a duplicate.
pub proof fn lemma_import_accounts_for_all(v: Seq<bool>)
    ensures
        count_true(v) + count_true(v.map_values(|b: bool| !b)) == v.len(),
    decreases v.len(),
{
    if v.len() > 0 {
        lemma_import_accounts_for_all(v.drop_last());
        assert(v.map_values(|b: bool| !b).drop_last() =~= v.drop_last().map_values(|b: bool| !b));
    }
}

/// The summary of an import from `file_path` of a bundle for `project_name`
/// with `routes` API routes, given the import plan (`true` for a recorded
/// lesson) and whether it merged.
pub fn import_summary(
    file_path: String,
    project_name: String,
    plan: &Vec<bool>,
    routes: usize,
    merge: bool,
) -> (r: BundleImportSummary)
    ensures
        r.file_path@ == file_path@,
        r.project_name@ == project_name@,
        r.lessons_imported == count_true(plan@),
        r.lessons_skipped_duplicate == count_true(plan@.map_values(|b: bool| !b)),
        r.routes_imported == routes,
        r.mode@ == (if merge {
            "merge"@
        } else {
            "overwrite"@
        }),
{
    let mut imported: usize = 0;
    let mut skipped: usize = 0;
    let mut i: usize = 0;
    while i < plan.len()
        invariant
            i <= plan@.len(),
            imported == count_true(plan@.take(i as int)),
            skipped == count_true(plan@.take(i as int).map_values(|b: bool| !b)),
            imported + skipped == i,
        decreases plan@.len() - i,
    {
        proof {
            assert(plan@.take(i + 1).drop_last() =~= plan@.take(i as int));
            assert(plan@.take(i + 1).map_values(|b: bool| !b).drop_last() =~= plan@.take(
                i as int,
            ).map_values(|b: bool| !b));
            lemma_import_accounts_for_all(plan@.take(i as int));
        }
        if plan[i] {
            imported += 1;
        } else {
            skipped += 1;
        }
        i += 1;
    }
    assert(plan@.take(i as int) =~= plan@);
    BundleImportSummary {
        file_path,
        project_name,
        lessons_imported: imported,
        lessons_skipped_duplicate: skipped,
        routes_imported: routes,
        mode: if merge {
            "merge".to_owned()
        } else {
            "overwrite".to_owned()
        },
    }
}

/// The summary of an export to `file_path` of `file_size_bytes` bytes,
/// taking its counts and checksum from the bundle's header.
pub fn export_summary(file_path: String, header: &BundleHeader, file_size_bytes: u64) -> (r:
    BundleExportSummary)
    ensures
        r.file_path@ == file_path@,
        r.project_name@ == header.project_name@,
        r.lessons_exported == header.lesson_count,
        r.routes_exported == header.route_count,
        r.sha256@ == header.sha256_payload@,
        r.file_size_bytes == file_size_bytes,
{
    BundleExportSummary {
        file_path,
        project_name: header.project_name.clone(),
        lessons_exported: header.lesson_count,
        routes_exported: header.route_count,
        sha256: header.sha256_payload.clone(),
        file_size_bytes,
    }
}

} // verus!
