use ozymem::paths::normalize_path;
use ozymem::registry::{unique_name, ProjectStatus, Scale};

#[test]
fn scale_classification() {
    assert_eq!(Scale::from_file_count(0), Scale::Small);
    assert_eq!(Scale::from_file_count(50), Scale::Small);
    assert_eq!(Scale::from_file_count(99), Scale::Small);
    assert_eq!(Scale::from_file_count(100), Scale::Medium);
    assert_eq!(Scale::from_file_count(500), Scale::Medium);
    assert_eq!(Scale::from_file_count(1000), Scale::Large);
    assert_eq!(Scale::from_file_count(5000), Scale::Large);
    assert_eq!(Scale::from_file_count(10000), Scale::Enterprise);
}

#[test]
fn normalize_path_strips_prefix() {
    assert_eq!(normalize_path(r"\\?\C:\Users\dev\project"), r"C:\Users\dev\project");
    assert_eq!(normalize_path(r"C:\Users\dev\project\"), r"C:\Users\dev\project");
    assert_eq!(normalize_path("C:/Users/dev/project/"), "C:/Users/dev/project");
}

#[test]
fn unique_name_avoids_collisions() {
    let mut taken = vec!["api".to_string()];
    assert_eq!(unique_name("api", &taken), Some("api-2".to_string()));
    taken.push("api-2".to_string());
    assert_eq!(unique_name("api", &taken), Some("api-3".to_string()));
}

#[test]
fn unique_name_keeps_a_free_name() {
    assert_eq!(unique_name("web", &["api".to_string()]), Some("web".to_string()));
}

#[test]
fn unique_name_gives_up_after_one_hundred() {
    let mut taken = vec!["x".to_string()];
    for i in 2..=100 {
        taken.push(format!("x-{}", i));
    }
    assert_eq!(unique_name("x", &taken), None);
    taken.pop();
    assert_eq!(unique_name("x", &taken), Some("x-100".to_string()));
}

#[test]
fn scale_and_status_labels_round_trip() {
    for s in [Scale::Unknown, Scale::Small, Scale::Medium, Scale::Large, Scale::Enterprise] {
        assert_eq!(Scale::from_str(s.as_str()), s);
    }
    for s in [ProjectStatus::Active, ProjectStatus::Sleeping, ProjectStatus::Scanning] {
        assert_eq!(ProjectStatus::from_str(s.as_str()), s);
    }
    assert_eq!(Scale::from_str("large"), Scale::Large);
    assert_eq!(Scale::from_str("huge"), Scale::Unknown);
}
