use nalumina_link::meters::plan_meter_sync;

#[test]
fn plan_stops_unwanted_and_starts_new_known_sources() {
    let plan = plan_meter_sync(&vec![1, 2, 3], &vec![3, 4, 5, 4], &vec![1, 3, 4]);
    assert_eq!(plan.stop, vec![1, 2]);
    assert_eq!(plan.start, vec![4]);
}

#[test]
fn plan_for_unchanged_sources_is_empty() {
    let plan = plan_meter_sync(&vec![7, 8], &vec![8, 7], &vec![7, 8]);
    assert!(plan.stop.is_empty());
    assert!(plan.start.is_empty());
    let none = plan_meter_sync(&vec![7], &vec![], &vec![]);
    assert_eq!(none.stop, vec![7]);
    assert!(none.start.is_empty());
}

#[test]
fn plan_starts_in_ascending_order() {
    let plan = plan_meter_sync(&vec![], &vec![9, 4, 7, 4], &vec![7, 9, 4]);
    assert!(plan.stop.is_empty());
    assert_eq!(plan.start, vec![4, 7, 9]);
}
