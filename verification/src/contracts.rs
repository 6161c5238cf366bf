//! Export contracts: whether the spreadsheet templates that export code
//! refers to are registered, and whether the version in a download's file
//! name matches the template's.
//!
//! The parser reads each source file into hints; the versions in file names
//! are read by the parser too and handed in with each hint.

use vstd::prelude::*;
use crate::text::{chars_of, contains, occurs_at, occurs_in, push_str};

verus! {

broadcast use vstd::string::group_string_axioms;

/// What the parser found about one export in a source file.
#[derive(Debug, Clone)]
pub struct ExportHint {
    pub endpoint_path: Option<String>,
    pub template_ref: Option<String>,
    pub content_disposition_filename: Option<String>,
    /// The version tag of the download's file name, if it has one.
    pub header_version: Option<String>,
    /// The version tag of the referenced template, if it has one.
    pub template_version: Option<String>,
}

/// A problem found with an export.
#[derive(Debug, Clone)]
pub struct ContractMismatchAlert {
    pub alert_type: String,
    pub file_path: String,
    pub endpoint: Option<String>,
    pub template_found: Option<String>,
    pub header_version: Option<String>,
    pub template_version: Option<String>,
    pub message: String,
}

/// What a review of the export contracts found.
#[derive(Debug, Clone)]
pub struct ExportContractReport {
    pub templates_reviewed: usize,
    pub endpoints_reviewed: usize,
    pub version_mismatches: Vec<ContractMismatchAlert>,
    pub missing_templates: Vec<ContractMismatchAlert>,
    pub warnings: Vec<String>,
}

/// The text of an optional string.
pub open spec fn opt_str(o: Option<String>) -> Option<Seq<char>> {
    match o {
        Some(s) => Some(s@),
        None => None,
    }
}

/// The content of an alert.
pub struct AlertModel {
    pub alert_type: Seq<char>,
    pub file_path: Seq<char>,
    pub endpoint: Option<Seq<char>>,
    pub template_found: Option<Seq<char>>,
    pub header_version: Option<Seq<char>>,
    pub template_version: Option<Seq<char>>,
    pub message: Seq<char>,
}

/// The content of an alert.
pub open spec fn alert_model(a: ContractMismatchAlert) -> AlertModel {
    AlertModel {
        alert_type: a.alert_type@,
        file_path: a.file_path@,
        endpoint: opt_str(a.endpoint),
        template_found: opt_str(a.template_found),
        header_version: opt_str(a.header_version),
        template_version: opt_str(a.template_version),
        message: a.message@,
    }
}

/// The content of each alert.
pub open spec fn alert_models(v: Seq<ContractMismatchAlert>) -> Seq<AlertModel> {
    v.map_values(|a: ContractMismatchAlert| alert_model(a))
}

/// A registered template answers to the reference: one name contains the
/// other.
pub open spec fn template_known(names: Seq<Seq<char>>, r: Seq<char>) -> bool {
    exists|i: int| 0 <= i < names.len() && (occurs_in(#[trigger] names[i], r) || occurs_in(r, names[i]))
}

/// The alert for a hint whose template is not registered, if it has one.
pub open spec fn missing_alert(fp: Seq<char>, h: ExportHint, names: Seq<Seq<char>>) -> Option<AlertModel> {
    match h.template_ref {
        Some(r) => if template_known(names, r@) {
            None
        } else {
            Some(
                AlertModel {
                    alert_type: "MISSING_TEMPLATE"@,
                    file_path: fp,
                    endpoint: opt_str(h.endpoint_path),
                    template_found: None,
                    header_version: None,
                    template_version: None,
                    message: "Plantilla referenciada '"@ + r@
                        + "' no encontrada en los templates registrados"@,
                },
            )
        },
        None => None,
    }
}

/// The alert for a hint whose download names another version than its
/// template, if it has one.
pub open spec fn mismatch_alert(fp: Seq<char>, h: ExportHint) -> Option<AlertModel> {
    match (h.content_disposition_filename, h.template_ref, h.header_version, h.template_version) {
        (Some(cd), Some(r), Some(hv), Some(tv)) => if hv@ != tv@ {
            Some(
                AlertModel {
                    alert_type: "VERSION_MISMATCH"@,
                    file_path: fp,
                    endpoint: opt_str(h.endpoint_path),
                    template_found: Some(r@),
                    header_version: Some(hv@),
                    template_version: Some(tv@),
                    message: "Desalineación de versión: Header genera '"@ + cd@
                        + "' pero código usa plantilla '"@ + r@ + "'"@,
                },
            )
        } else {
            None
        },
        _ => None,
    }
}

/// The missing-template alerts of the hints of one file, in order.
pub open spec fn missing_in(fp: Seq<char>, hs: Seq<ExportHint>, names: Seq<Seq<char>>) -> Seq<AlertModel>
    decreases hs.len(),
{
    if hs.len() == 0 {
        Seq::empty()
    } else {
        let rest = missing_in(fp, hs.drop_last(), names);
        match missing_alert(fp, hs.last(), names) {
            Some(a) => rest.push(a),
            None => rest,
        }
    }
}

/// `n` appears in `h` as a run of consecutive characters.
pub open spec fn has_run(h: Seq<char>, n: Seq<char>) -> bool {
    exists|k: int| 0 <= k && k + n.len() <= h.len() && #[trigger] h.subrange(k, k + n.len()) == n
}

/// The reference `r` contains one of the registered template names, or
/// one of the names contains `r`.
pub open spec fn answers_to(names: Seq<Seq<char>>, r: Seq<char>) -> bool {
    exists|i: int| 0 <= i < names.len() && (has_run(r, #[trigger] names[i]) || has_run(names[i], r))
}

proof fn lemma_has_run(h: Seq<char>, n: Seq<char>)
    ensures
        has_run(h, n) == occurs_in(h, n),
{
    if has_run(h, n) {
        let k = choose|k: int| 0 <= k && k + n.len() <= h.len() && #[trigger] h.subrange(k, k + n.len()) == n;
        assert(occurs_at(h, n, k));
    }
    if occurs_in(h, n) {
        let k = choose|k: int| occurs_at(h, n, k);
        assert(h.subrange(k, k + n.len()) == n);
    }
}

proof fn lemma_answers_to_known(names: Seq<Seq<char>>, r: Seq<char>)
    ensures
        answers_to(names, r) == template_known(names, r),
{
    assert forall|i: int| 0 <= i < names.len() implies has_run(r, #[trigger] names[i]) == occurs_in(r, names[i])
        && has_run(names[i], r) == occurs_in(names[i], r) by {
        lemma_has_run(r, names[i]);
        lemma_has_run(names[i], r);
    }
}

/// A template reference that contains a registered template's name, or is
/// contained in one, raises no missing-template alert; a hint without a
/// reference raises none either; and an alert is raised only for a
/// reference that no registered name answers to, as a `MISSING_TEMPLATE`
/// alert for the hint's file.
pub proof fn lemma_missing_alert_law(fp: Seq<char>, h: ExportHint, names: Seq<Seq<char>>)
    ensures
        h.template_ref is None ==> missing_alert(fp, h, names) is None,
        (h.template_ref matches Some(r) && answers_to(names, r@)) ==> missing_alert(fp, h, names) is None,
        missing_alert(fp, h, names) is Some ==> (missing_alert(fp, h, names)->0.alert_type
            == "MISSING_TEMPLATE"@ && missing_alert(fp, h, names)->0.file_path == fp && (h.template_ref matches Some(
            r) && !answers_to(names, r@))),
{
    if let Some(r) = h.template_ref {
        lemma_answers_to_known(names, r@);
    }
}

/// No missing-template alert is raised for files whose every template
/// reference answers to a registered template.
pub proof fn lemma_no_missing_when_all_known(files: Seq<(String, Vec<ExportHint>)>, names: Seq<Seq<char>>)
    requires
        forall|f: int, j: int|
            0 <= f < files.len() && 0 <= j < files[f].1@.len() ==> (#[trigger] files[f].1@[j]).template_ref is None
                || answers_to(names, files[f].1@[j].template_ref->0@),
    ensures
        all_missing(files, names).len() == 0,
    decreases files.len(),
{
    if files.len() > 0 {
        let init = files.drop_last();
        assert forall|f: int, j: int|
            0 <= f < init.len() && 0 <= j < init[f].1@.len() implies (#[trigger] init[f].1@[j]).template_ref is None
                || answers_to(names, init[f].1@[j].template_ref->0@) by {
            assert(init[f] == files[f]);
        }
        lemma_no_missing_when_all_known(init, names);
        let last = files.last();
        assert(last == files[files.len() - 1]);
        lemma_no_missing_in(last.0@, last.1@, names);
    }
}

proof fn lemma_no_missing_in(fp: Seq<char>, hs: Seq<ExportHint>, names: Seq<Seq<char>>)
    requires
        forall|j: int|
            0 <= j < hs.len() ==> (#[trigger] hs[j]).template_ref is None || answers_to(
                names,
                hs[j].template_ref->0@,
            ),
    ensures
        missing_in(fp, hs, names).len() == 0,
    decreases hs.len(),
{
    if hs.len() > 0 {
        let init = hs.drop_last();
        assert forall|j: int| 0 <= j < init.len() implies (#[trigger] init[j]).template_ref is None || answers_to(
            names,
            init[j].template_ref->0@,
        ) by {
            assert(init[j] == hs[j]);
        }
        lemma_no_missing_in(fp, init, names);
        let h = hs.last();
        assert(h == hs[hs.len() - 1]);
        lemma_missing_alert_law(fp, h, names);
    }
}

/// The version-mismatch alerts of the hints of one file, in order.
pub open spec fn mismatches_in(fp: Seq<char>, hs: Seq<ExportHint>) -> Seq<AlertModel>
    decreases hs.len(),
{
    if hs.len() == 0 {
        Seq::empty()
    } else {
        let rest = mismatches_in(fp, hs.drop_last());
        match mismatch_alert(fp, hs.last()) {
            Some(a) => rest.push(a),
            None => rest,
        }
    }
}

/// The number of hints of one file that name an endpoint.
pub open spec fn endpoints_in(hs: Seq<ExportHint>) -> nat
    decreases hs.len(),
{
    if hs.len() == 0 {
        0
    } else {
        endpoints_in(hs.drop_last()) + if hs.last().endpoint_path is Some {
            1nat
        } else {
            0nat
        }
    }
}

/// The missing-template alerts of all files, file by file.
pub open spec fn all_missing(files: Seq<(String, Vec<ExportHint>)>, names: Seq<Seq<char>>) -> Seq<AlertModel>
    decreases files.len(),
{
    if files.len() == 0 {
        Seq::empty()
    } else {
        all_missing(files.drop_last(), names) + missing_in(files.last().0@, files.last().1@, names)
    }
}

/// The version-mismatch alerts of all files, file by file.
pub open spec fn all_mismatches(files: Seq<(String, Vec<ExportHint>)>) -> Seq<AlertModel>
    decreases files.len(),
{
    if files.len() == 0 {
        Seq::empty()
    } else {
        all_mismatches(files.drop_last()) + mismatches_in(files.last().0@, files.last().1@)
    }
}

/// The number of hints of all files that name an endpoint.
pub open spec fn all_endpoints(files: Seq<(String, Vec<ExportHint>)>) -> nat
    decreases files.len(),
{
    if files.len() == 0 {
        0
    } else {
        all_endpoints(files.drop_last()) + endpoints_in(files.last().1@)
    }
}

fn copy_opt(o: &Option<String>) -> (r: Option<String>)
    ensures
        opt_str(r) == opt_str(*o),
{
    match o {
        Some(s) => Some(s.clone()),
        None => None,
    }
}

/// Whether a registered template answers to the reference.
fn known_template(names: &[String], r: &str) -> (b: bool)
    ensures
        b == template_known(names@.map_values(|s: String| s@), r@),
{
    let ghost nv = names@.map_values(|s: String| s@);
    let rv = chars_of(r);
    let mut i: usize = 0;
    while i < names.len()
        invariant
            i <= names@.len(),
            nv == names@.map_values(|s: String| s@),
            rv@ == r@,
            forall|k: int| 0 <= k < i ==> !(occurs_in(#[trigger] nv[k], r@) || occurs_in(r@, nv[k])),
        decreases names@.len() - i,
    {
        let n = chars_of(names[i].as_str());
        if contains(&n, &rv) || contains(&rv, &n) {
            assert(occurs_in(nv[i as int], r@) || occurs_in(r@, nv[i as int]));
            return true;
        }
        i += 1;
    }
    false
}

/// Appends an alert, keeping the models in step.
fn push_alert(v: &mut Vec<ContractMismatchAlert>, a: ContractMismatchAlert)
    ensures
        alert_models(final(v)@) == alert_models(old(v)@).push(alert_model(a)),
{
    let ghost m = alert_model(a);
    v.push(a);
    assert(alert_models(v@) =~= alert_models(old(v)@).push(m));
}

/// The alerts and endpoint count of one file's hints, added to the totals.
fn check_file(
    fp: &String,
    hints: &Vec<ExportHint>,
    names: &[String],
    missing: &mut Vec<ContractMismatchAlert>,
    mismatches: &mut Vec<ContractMismatchAlert>,
    endpoints: &mut usize,
)
    requires
        *old(endpoints) + endpoints_in(hints@) <= usize::MAX,
    ensures
        alert_models(final(missing)@) == alert_models(old(missing)@) + missing_in(
            fp@,
            hints@,
            names@.map_values(|s: String| s@),
        ),
        alert_models(final(mismatches)@) == alert_models(old(mismatches)@) + mismatches_in(
            fp@,
            hints@,
        ),
        *final(endpoints) == *old(endpoints) + endpoints_in(hints@),
{
    let ghost nv = names@.map_values(|s: String| s@);
    let mut j: usize = 0;
    while j < hints.len()
        invariant
            j <= hints@.len(),
            nv == names@.map_values(|s: String| s@),
            *old(endpoints) + endpoints_in(hints@) <= usize::MAX,
            alert_models(missing@) == alert_models(old(missing)@) + missing_in(
                fp@,
                hints@.take(j as int),
                nv,
            ),
            alert_models(mismatches@) == alert_models(old(mismatches)@) + mismatches_in(
                fp@,
                hints@.take(j as int),
            ),
            *endpoints == *old(endpoints) + endpoints_in(hints@.take(j as int)),
        decreases hints@.len() - j,
    {
        let h = &hints[j];
        proof {
            assert(hints@.take(j + 1).drop_last() =~= hints@.take(j as int));
            assert(hints@.take(j + 1).last() == hints@[j as int]);
            lemma_endpoints_in_prefix(hints@, j + 1);
        }
        if h.endpoint_path.is_some() {
            *endpoints = *endpoints + 1;
        }
        if let Some(r) = &h.template_ref {
            if !known_template(names, r.as_str()) {
                let mut message = "Plantilla referenciada '".to_owned();
                push_str(&mut message, r.as_str());
                push_str(&mut message, "' no encontrada en los templates registrados");
                let a = ContractMismatchAlert {
                    alert_type: "MISSING_TEMPLATE".to_owned(),
                    file_path: fp.clone(),
                    endpoint: copy_opt(&h.endpoint_path),
                    template_found: None,
                    header_version: None,
                    template_version: None,
                    message,
                };
                push_alert(missing, a);
            }
        }
        if let Some(cd) = &h.content_disposition_filename {
            if let Some(r) = &h.template_ref {
                if let (Some(hv), Some(tv)) = (&h.header_version, &h.template_version) {
                    if !crate::text::str_eq(hv.as_str(), tv.as_str()) {
                        let mut message = "Desalineación de versión: Header genera '".to_owned();
                        push_str(&mut message, cd.as_str());
                        push_str(&mut message, "' pero código usa plantilla '");
                        push_str(&mut message, r.as_str());
                        push_str(&mut message, "'");
                        let a = ContractMismatchAlert {
                            alert_type: "VERSION_MISMATCH".to_owned(),
                            file_path: fp.clone(),
                            endpoint: copy_opt(&h.endpoint_path),
                            template_found: Some(r.clone()),
                            header_version: Some(hv.clone()),
                            template_version: Some(tv.clone()),
                            message,
                        };
                        push_alert(mismatches, a);
                    }
                }
            }
        }
        j += 1;
    }
    assert(hints@.take(j as int) =~= hints@);
}

/// Reviews the export contracts of the readable source files `files` (each
/// with the hints the parser found in it, in order) against the names of
/// the registered templates: counts the hints that name an endpoint, and
/// raises, in order, a missing-template alert for each referenced template
/// that no registered name contains or is contained in, and a
/// version-mismatch alert for each download whose file-name version differs
/// from its template's.
pub fn verify_export_contracts(files: &[(String, Vec<ExportHint>)], template_names: &[String]) -> (r:
    ExportContractReport)
    requires
        all_endpoints(files@) <= usize::MAX,
    ensures
        r.templates_reviewed == template_names@.len(),
        r.endpoints_reviewed == all_endpoints(files@),
        alert_models(r.missing_templates@) == all_missing(
            files@,
            template_names@.map_values(|s: String| s@),
        ),
        alert_models(r.version_mismatches@) == all_mismatches(files@),
        r.warnings@.len() == 0,
{
    let ghost nv = template_names@.map_values(|s: String| s@);
    let mut missing: Vec<ContractMismatchAlert> = Vec::new();
    let mut mismatches: Vec<ContractMismatchAlert> = Vec::new();
    let mut endpoints: usize = 0;
    let mut i: usize = 0;
    proof {
        assert(alert_models(missing@) =~= all_missing(files@.take(0), nv));
        assert(alert_models(mismatches@) =~= all_mismatches(files@.take(0)));
    }
    while i < files.len()
        invariant
            i <= files@.len(),
            nv == template_names@.map_values(|s: String| s@),
            all_endpoints(files@) <= usize::MAX,
            alert_models(missing@) == all_missing(files@.take(i as int), nv),
            alert_models(mismatches@) == all_mismatches(files@.take(i as int)),
            endpoints == all_endpoints(files@.take(i as int)),
        decreases files@.len() - i,
    {
        proof {
            assert(files@.take(i + 1).drop_last() =~= files@.take(i as int));
            assert(files@.take(i + 1).last() == files@[i as int]);
            lemma_endpoints_prefix(files@, i + 1);
        }
        check_file(&files[i].0, &files[i].1, template_names, &mut missing, &mut mismatches, &mut endpoints);
        i += 1;
    }
    assert(files@.take(i as int) =~= files@);
    ExportContractReport {
        templates_reviewed: template_names.len(),
        endpoints_reviewed: endpoints,
        version_mismatches: mismatches,
        missing_templates: missing,
        warnings: Vec::new(),
    }
}

proof fn lemma_endpoints_in_prefix(hs: Seq<ExportHint>, k: int)
    requires
        0 <= k <= hs.len(),
    ensures
        endpoints_in(hs.take(k)) <= endpoints_in(hs),
    decreases hs.len() - k,
{
    if k < hs.len() {
        lemma_endpoints_in_prefix(hs, k + 1);
        assert(hs.take(k + 1).drop_last() =~= hs.take(k));
    } else {
        assert(hs.take(k) =~= hs);
    }
}

proof fn lemma_endpoints_prefix(files: Seq<(String, Vec<ExportHint>)>, k: int)
    requires
        0 <= k <= files.len(),
    ensures
        all_endpoints(files.take(k)) <= all_endpoints(files),
    decreases files.len() - k,
{
    if k < files.len() {
        lemma_endpoints_prefix(files, k + 1);
        assert(files.take(k + 1).drop_last() =~= files.take(k));
    } else {
        assert(files.take(k) =~= files);
    }
}

} // verus!
