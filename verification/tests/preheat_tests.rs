use hoolamike::preheat::plan_preheat;

fn demand(archive: &str, path: &str) -> (String, String) {
    (archive.to_string(), path.to_string())
}

#[test]
fn demands_group_per_archive_with_duplicates_dropped() {
    let demands = vec![
        demand("A", "x"),
        demand("A", "x"),
        demand("B", "y"),
        demand("A", "z"),
        demand("B", "y"),
    ];
    let plan = plan_preheat(&demands);
    assert_eq!(plan.len(), 2);
    assert_eq!(plan[0].archive, "A");
    assert_eq!(plan[0].paths, vec![String::from("x"), String::from("z")]);
    assert_eq!(plan[1].archive, "B");
    assert_eq!(plan[1].paths, vec![String::from("y")]);
}

#[test]
fn many_directives_one_extraction_each() {
    // Fifty directives demanding the same entry plan one extraction.
    let demands = vec![demand("A", "shared/entry.bin"); 50];
    let plan = plan_preheat(&demands);
    assert_eq!(plan.len(), 1);
    assert_eq!(plan[0].paths.len(), 1);
}

#[test]
fn empty_demand_set_plans_nothing() {
    let plan = plan_preheat(&Vec::new());
    assert!(plan.is_empty());
}
