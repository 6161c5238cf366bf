use ozymem::vectors::{listed_records, searched_records, top_records, VectorRecord};

fn record(id: &str, category: &str, project: &str, schema: u32, hits: i64) -> VectorRecord {
    VectorRecord {
        id: id.to_string(),
        text: String::new(),
        source_path: format!("src/{}.rs", id),
        category: category.to_string(),
        project: project.to_string(),
        schema_version: schema,
        hit_count: hits,
    }
}

#[test]
fn listings_filter_by_project_and_category_ignoring_case() {
    let records = vec![
        record("a", "lesson", "Api", 1, 0),
        record("b", "fact", "api", 1, 0),
        record("c", "LESSON", "web", 0, 0),
    ];
    assert_eq!(listed_records(&records, None, None), vec![0, 1, 2]);
    assert_eq!(listed_records(&records, Some("API"), None), vec![0, 1]);
    assert_eq!(listed_records(&records, None, Some("Lesson")), vec![0, 2]);
    assert_eq!(listed_records(&records, Some("api"), Some("lesson")), vec![0]);
    assert_eq!(searched_records(&records, Some("lesson")), vec![0]);
    assert_eq!(searched_records(&records, None), vec![0, 1]);
}

#[test]
fn the_most_used_come_first_and_ties_keep_store_order() {
    let records = vec![
        record("a", "fact", "p", 1, 3),
        record("b", "fact", "p", 1, 9),
        record("c", "fact", "q", 1, 20),
        record("d", "fact", "p", 1, 3),
        record("e", "fact", "P", 1, 5),
    ];
    assert_eq!(top_records(&records, Some("p")), vec![1, 4, 0, 3]);
    assert_eq!(top_records(&records, None), vec![2, 1, 4, 0, 3]);
    assert_eq!(top_records(&[], None), Vec::<usize>::new());
}

#[test]
fn at_most_ten_are_ranked() {
    let records: Vec<VectorRecord> = (0..15).map(|i| record(&format!("m{}", i), "fact", "p", 1, (i % 4) as i64)).collect();
    let top = top_records(&records, None);
    assert_eq!(top.len(), 10);
    assert_eq!(top, vec![3, 7, 11, 2, 6, 10, 14, 1, 5, 9]);
}
