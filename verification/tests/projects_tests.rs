use ozymem::projects::{
    check_directory_authorized, get_project_identifier, last_log_line, log_cut_is_safe,
    is_critical_root, is_registered_target, scan_precheck, ScanRefusal, resolve_project_root, shorten_path, shorten_needs_cut,
};

#[test]
fn resolve_project_root_finds_the_registered_root() {
    let roots = vec![r"\\?\C:\Work\Other".to_string(), r"\\?\C:\Work\App".to_string()];
    assert_eq!(resolve_project_root(r"C:\work\app\src\main.rs", &roots), r"\\?\C:\Work\App");
    assert_eq!(resolve_project_root(r"C:\work\app", &roots), r"\\?\C:\Work\App");
    assert_eq!(resolve_project_root(r"C:\work\application", &roots), r"C:\work\application");
    assert_eq!(resolve_project_root("/home/u/x", &[]), "/home/u/x");
}

#[test]
fn project_identifier_uses_registered_name_or_folder() {
    let registered = vec![("api".to_string(), r"\\?\C:\Dev\Api".to_string())];
    let (name, path) = get_project_identifier(r"\\?\C:\dev\api", &registered);
    assert_eq!(name, "api");
    assert_eq!(path, r"C:\dev\api");
    let (name, path) = get_project_identifier("/home/u/tools", &registered);
    assert_eq!(name, "unregistered-tools");
    assert_eq!(path, "/home/u/tools");
    let (name, _) = get_project_identifier("/", &registered);
    assert_eq!(name, "unregistered-unknown");
}

#[test]
fn directory_authorization_follows_the_registry() {
    let registered = vec![r"C:\Users\Dev\MyApp".to_string()];
    assert!(check_directory_authorized(r"\\?\C:\USERS\dev\myapp\", &registered).is_ok());
    let err = check_directory_authorized(r"C:\other", &registered).unwrap_err();
    assert!(err.contains("no está registrado"));
}

#[test]
fn shorten_path_keeps_trailing_components() {
    assert_eq!(shorten_path("short/path", 20), "short/path");
    assert_eq!(shorten_path("/very/long/directory/name/file.rs", 20), ".../name/file.rs");
    assert_eq!(shorten_path(r"C:\a\bbbbbbbbbb\c.rs", 12), r"...\c.rs");
    assert!(shorten_needs_cut("abcdefghijklmnop", 8));
    assert_eq!(shorten_path("abcdefghijklmnop", 8), "...lmnop");
    assert!(!shorten_needs_cut("a/b", 8));
}

#[test]
fn log_summary_shows_the_last_line() {
    assert_eq!(last_log_line("first\nsecond  \n\n  \n"), "second");
    assert_eq!(last_log_line("   \n"), "Bitacora vacia.");
    let long = "x".repeat(70);
    assert!(log_cut_is_safe(&long));
    assert_eq!(last_log_line(&long), format!("{}...", "x".repeat(57)));
}

#[test]
fn scans_are_allowed_inside_registered_roots_only() {
    let roots = vec![r"\\?\C:\Work\App".to_string(), "/srv/api".to_string()];
    assert!(is_registered_target(r"C:\work\app", &roots));
    assert!(is_registered_target(r"C:\WORK\APP\src", &roots));
    assert!(is_registered_target("/srv/api/handlers", &roots));
    assert!(!is_registered_target(r"C:\work\application", &roots));
    assert!(!is_registered_target("/srv", &roots));
    assert!(!is_registered_target("/srv/api", &[]));
}

#[test]
fn profile_and_user_roots_are_guarded() {
    assert!(is_critical_root(r"C:\", true, None, None));
    assert!(is_critical_root(r"C:\Users\", false, None, None));
    assert!(is_critical_root("c:/USERS", false, None, None));
    assert!(is_critical_root(r"C:\Users\Dev", false, Some(r"C:\Users\dev\"), None));
    assert!(is_critical_root("/home/dev/", false, None, Some("/home/dev")));
    assert!(!is_critical_root("/home/dev/project", false, Some(r"C:\Users\dev"), Some("/home/dev")));
    assert!(!is_critical_root(r"C:\Users\Dev\app", false, None, None));
}

#[test]
fn shortened_paths_fit_and_keep_an_ending() {
    let paths = ["/home/user/projects/ozymem/crates/core/src/lib.rs", "abcdefghijklmnopqrstuvwxyz", "a/b", "x/verylongcomponentname"];
    for p in paths {
        for max in 3..40 {
            let r = shorten_path(p, max);
            assert!(r.len() <= max, "{p} {max} {r}");
            if p.len() <= max {
                assert_eq!(r, p);
            } else {
                assert!(r.starts_with("..."));
                assert!(p.ends_with(&r[3..]), "{p} {max} {r}");
            }
        }
    }
}

#[test]
fn scans_are_refused_outside_projects_and_at_critical_roots() {
    let roots = vec!["/srv/api".to_string(), "/home/ana".to_string()];
    assert_eq!(scan_precheck("/srv/api/src", &roots, false, None, Some("/home/ana"), false), Ok(()));
    assert_eq!(
        scan_precheck("/tmp/other", &roots, false, None, Some("/home/ana"), false),
        Err(ScanRefusal::NotRegistered)
    );
    assert_eq!(
        scan_precheck("/home/ana", &roots, false, None, Some("/home/ana"), false),
        Err(ScanRefusal::CriticalRoot)
    );
    assert_eq!(scan_precheck("/tmp/other", &roots, true, None, None, true), Ok(()));
}
