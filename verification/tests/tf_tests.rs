use cfn_guard::commands::tf::property_of;

#[test]
fn property_half_of_a_plan_path_is_dotted() {
    assert_eq!(
        "tags.Name",
        property_of("/resource_changes/0/change/after/tags/Name")
    );
}

#[test]
fn a_path_without_the_after_marker_keeps_nothing() {
    assert_eq!("", property_of("/resource_changes/3/type"));
    assert_eq!("", property_of(""));
}

#[test]
fn only_the_first_after_marker_splits_the_path() {
    assert_eq!(
        "x.change.after.y",
        property_of("/resource_changes/1/change/after/x/change/after/y")
    );
}

#[test]
fn a_marker_at_the_end_leaves_an_empty_property() {
    assert_eq!("", property_of("/resource_changes/1/change/after/"));
}
