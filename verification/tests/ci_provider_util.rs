use ci_manager::ci_provider::util::{Date, DateFilter, LabelFilter};

#[test]
fn test_date_display() {
    let date = Date {
        year: 2021,
        month: 6,
        day: 2,
    };
    assert_eq!(date.to_string(), "2021-06-02");
}

#[test]
fn test_date_filter_display() {
    let date = Date {
        year: 2021,
        month: 6,
        day: 2,
    };
    let date_filter = DateFilter::Created(date);
    assert_eq!(date_filter.to_string(), "created:2021-06-02");
}

#[test]
fn test_label_filter_any_display() {
    let label_filter = LabelFilter::Any(vec!["kind/bug".to_string(), "area/bake".to_string()]);
    assert_eq!(label_filter.to_string(), r#"label:"kind/bug","area/bake""#);
}

#[test]
fn test_label_filter_all_display() {
    let label_filter = LabelFilter::All(vec!["kind/bug".to_string(), "area/bake".to_string()]);
    assert_eq!(
        label_filter.to_string(),
        r#"label:"kind/bug" label:"area/bake""#
    );
}

#[test]
fn test_label_filter_all_1_display() {
    let label_filter = LabelFilter::All(vec!["kind/bug".to_string()]);
    assert_eq!(label_filter.to_string(), r#"label:"kind/bug""#);
}
