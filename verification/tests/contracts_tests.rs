use ozymem::contracts::{verify_export_contracts, ExportHint};

fn hint(endpoint: Option<&str>, template: Option<&str>, cd: Option<&str>, hv: Option<&str>, tv: Option<&str>) -> ExportHint {
    ExportHint {
        endpoint_path: endpoint.map(|s| s.to_string()),
        template_ref: template.map(|s| s.to_string()),
        content_disposition_filename: cd.map(|s| s.to_string()),
        header_version: hv.map(|s| s.to_string()),
        template_version: tv.map(|s| s.to_string()),
    }
}

#[test]
fn export_contracts_report_missing_templates_and_version_drift() {
    let files = vec![
        (
            "src/export.rs".to_string(),
            vec![
                hint(Some("/api/report"), Some("ventas_v2.xlsx"), Some("ventas_v3.xlsx"), Some("v3"), Some("v2")),
                hint(None, Some("inventario"), None, None, None),
                hint(Some("/api/ok"), Some("ventas"), Some("ventas_v2.xlsx"), Some("v2"), Some("v2")),
            ],
        ),
        ("src/other.rs".to_string(), vec![hint(Some("/api/x"), None, None, None, None)]),
    ];
    let templates = vec!["ventas_v2.xlsx".to_string()];
    let report = verify_export_contracts(&files, &templates);
    assert_eq!(report.templates_reviewed, 1);
    assert_eq!(report.endpoints_reviewed, 3);
    assert_eq!(report.missing_templates.len(), 1);
    let m = &report.missing_templates[0];
    assert_eq!(m.alert_type, "MISSING_TEMPLATE");
    assert_eq!(m.message, "Plantilla referenciada 'inventario' no encontrada en los templates registrados");
    assert_eq!(m.endpoint, None);
    assert_eq!(report.version_mismatches.len(), 1);
    let v = &report.version_mismatches[0];
    assert_eq!(v.alert_type, "VERSION_MISMATCH");
    assert_eq!(v.file_path, "src/export.rs");
    assert_eq!(v.template_found.as_deref(), Some("ventas_v2.xlsx"));
    assert_eq!((v.header_version.as_deref(), v.template_version.as_deref()), (Some("v3"), Some("v2")));
    assert_eq!(
        v.message,
        "Desalineación de versión: Header genera 'ventas_v3.xlsx' pero código usa plantilla 'ventas_v2.xlsx'"
    );
    assert!(report.warnings.is_empty());
}
