use blogcore::models::{BlogEntry, Date, DateTime, Filters, QParams, QueryError, Status, Tag};
use blogcore::post;
use blogcore::tag;

fn tag_table() -> Vec<Tag> {
    vec![
        Tag { id: 1, name: "Rust".to_string() },
        Tag { id: 2, name: "Verus".to_string() },
        Tag { id: 3, name: "Databases".to_string() },
    ]
}

fn params(filter: Filters) -> QParams {
    QParams::new_filter(filter)
}

fn eq_filter(tokens: Vec<&str>) -> Filters {
    Filters::new_eq(tokens.into_iter().map(|s| s.to_string()).collect())
}

#[test]
fn eq_filter_returns_exactly_matching_rows() {
    let table = tag_table();
    let rows = tag::parse_and_query(params(eq_filter(vec!["name=Rust"])), &table).unwrap();
    assert_eq!(rows.len(), 1);
    assert_eq!(rows[0].id, 1);
    assert_eq!(rows[0].name, "Rust");
}

#[test]
fn eq_filters_are_or_combined() {
    let table = tag_table();
    let rows = tag::parse_and_query(params(eq_filter(vec!["id=2", "name=Databases"])), &table)
        .unwrap();
    assert_eq!(rows.len(), 2);
    assert_eq!(rows[0].id, 2);
    assert_eq!(rows[1].id, 3);
}

#[test]
fn unknown_field_token_is_dropped_not_fatal() {
    let table = tag_table();
    // The bogus token is silently ignored; the valid one still selects.
    let rows = tag::parse_and_query(params(eq_filter(vec!["bogus=1", "id=3"])), &table).unwrap();
    assert_eq!(rows.len(), 1);
    assert_eq!(rows[0].id, 3);
}

#[test]
fn unparseable_id_token_is_dropped() {
    let table = tag_table();
    let rows = tag::parse_and_query(params(eq_filter(vec!["id=notanumber"])), &table).unwrap();
    // The only token was dropped, so no condition survived: every row is
    // kept and the non-empty filter set gives the default page size of 10.
    assert_eq!(rows.len(), 3);
}

#[test]
fn empty_filter_without_step_returns_zero_rows() {
    let table = tag_table();
    let rows = tag::parse_and_query(params(eq_filter(vec![])), &table).unwrap();
    assert_eq!(rows.len(), 0);
}

#[test]
fn empty_filter_with_explicit_step_returns_up_to_step_rows() {
    let table = tag_table();
    let mut p = params(eq_filter(vec![]));
    p.step = Some(2);
    let rows = tag::parse_and_query(p, &table).unwrap();
    assert_eq!(rows.len(), 2);
    assert_eq!(rows[0].id, 1);
    assert_eq!(rows[1].id, 2);
}

#[test]
fn start_skips_rows() {
    let table = tag_table();
    let mut p = params(eq_filter(vec![]));
    p.start = Some(1);
    p.step = Some(10);
    let rows = tag::parse_and_query(p, &table).unwrap();
    assert_eq!(rows.len(), 2);
    assert_eq!(rows[0].id, 2);
}

#[test]
fn negative_page_is_a_storage_error_not_zero_rows() {
    let table = tag_table();
    let mut p = params(eq_filter(vec![]));
    p.start = Some(-1);
    assert_eq!(tag::parse_and_query(p, &table), Err(QueryError::InvalidRange));
}

#[test]
fn like_filter_matches_patterns() {
    let table = tag_table();
    let mut f = eq_filter(vec![]);
    f.like = vec!["name=Ru%".to_string()];
    let rows = tag::parse_and_query(params(f), &table).unwrap();
    assert_eq!(rows.len(), 1);
    assert_eq!(rows[0].name, "Rust");

    let mut f = eq_filter(vec![]);
    f.like = vec!["name=%us%".to_string()];
    let rows = tag::parse_and_query(params(f), &table).unwrap();
    assert_eq!(rows.len(), 2);

    let mut f = eq_filter(vec![]);
    f.like = vec!["name=_ust".to_string()];
    let rows = tag::parse_and_query(params(f), &table).unwrap();
    assert_eq!(rows.len(), 1);
    assert_eq!(rows[0].name, "Rust");
}

#[test]
fn between_filter_is_inclusive_and_needs_both_sides() {
    let table = tag_table();
    let mut f = eq_filter(vec![]);
    f.between = vec!["id=2,3".to_string()];
    let rows = tag::parse_and_query(params(f), &table).unwrap();
    assert_eq!(rows.len(), 2);

    // One unparseable side drops the whole condition; with no surviving
    // condition and a non-empty filter set, the default page applies.
    let mut f = eq_filter(vec![]);
    f.between = vec!["id=2,three".to_string()];
    let rows = tag::parse_and_query(params(f), &table).unwrap();
    assert_eq!(rows.len(), 3);
}

#[test]
fn ge_and_le_filters_bound_ranges() {
    let table = tag_table();
    let mut f = eq_filter(vec![]);
    f.ge = vec!["id=3".to_string()];
    let rows = tag::parse_and_query(params(f), &table).unwrap();
    assert_eq!(rows.len(), 1);
    assert_eq!(rows[0].id, 3);

    let mut f = eq_filter(vec![]);
    f.le = vec!["name=Rust".to_string()];
    let rows = tag::parse_and_query(params(f), &table).unwrap();
    assert_eq!(rows.len(), 2); // "Databases" and "Rust" precede-or-equal "Rust"
}

#[test]
fn order_tokens_sort_and_unknown_tokens_are_ignored() {
    let table = tag_table();
    let mut p = params(eq_filter(vec![]));
    p.step = Some(10);
    p.order = vec!["-id".to_string(), "sideways".to_string()];
    let rows = tag::parse_and_query(p, &table).unwrap();
    assert_eq!(rows.iter().map(|t| t.id).collect::<Vec<_>>(), vec![3, 2, 1]);
}

#[test]
fn sort_is_stable_across_equal_keys() {
    let table = vec![
        Tag { id: 5, name: "same".to_string() },
        Tag { id: 2, name: "same".to_string() },
        Tag { id: 9, name: "aaaa".to_string() },
    ];
    let mut p = params(eq_filter(vec![]));
    p.step = Some(10);
    p.order = vec!["name".to_string()];
    let rows = tag::parse_and_query(p, &table).unwrap();
    // Equal names keep their original relative order: 5 before 2.
    assert_eq!(rows.iter().map(|t| t.id).collect::<Vec<_>>(), vec![9, 5, 2]);
}

#[test]
fn key_tokens_are_case_folded() {
    let table = tag_table();
    let rows = tag::parse_and_query(params(eq_filter(vec!["ID=2"])), &table).unwrap();
    assert_eq!(rows.len(), 1);
    assert_eq!(rows[0].id, 2);
}

fn post_table() -> Vec<BlogEntry> {
    let d1 = Date { year: 2023, month: 5, day: 1 };
    let d2 = Date { year: 2023, month: 6, day: 15 };
    vec![
        BlogEntry {
            id: 1,
            title: "First".to_string(),
            author: "ann".to_string(),
            created: Some(DateTime { date: d1, secs: 0 }),
            last_updated: Some(d1),
            content: Some("hello world".to_string()),
        },
        BlogEntry {
            id: 2,
            title: "Second".to_string(),
            author: "bob".to_string(),
            created: Some(DateTime { date: d2, secs: 0 }),
            last_updated: None,
            content: None,
        },
    ]
}

#[test]
fn post_date_filter_parses_and_matches() {
    let table = post_table();
    let rows = post::parse_and_query(params(eq_filter(vec!["created=2023-05-01"])), &table)
        .unwrap();
    assert_eq!(rows.len(), 1);
    assert_eq!(rows[0].id, 1);
}

#[test]
fn post_bad_date_token_is_dropped() {
    let table = post_table();
    let rows = post::parse_and_query(
        params(eq_filter(vec!["created=2023-13-40", "id=2"])),
        &table,
    )
        .unwrap();
    assert_eq!(rows.len(), 1);
    assert_eq!(rows[0].id, 2);
}

#[test]
fn post_date_between_filter() {
    let table = post_table();
    let mut f = eq_filter(vec![]);
    f.between = vec!["created=2023-01-01,2023-05-31".to_string()];
    let rows = post::parse_and_query(params(f), &table).unwrap();
    assert_eq!(rows.len(), 1);
    assert_eq!(rows[0].id, 1);
}

#[test]
fn post_null_column_never_matches() {
    let table = post_table();
    // Post 2 has no content; a content condition cannot select it.
    let mut f = eq_filter(vec![]);
    f.like = vec!["content=%world%".to_string()];
    let rows = post::parse_and_query(params(f), &table).unwrap();
    assert_eq!(rows.len(), 1);
    assert_eq!(rows[0].id, 1);
}

#[test]
fn post_order_by_created_descending() {
    let table = post_table();
    let mut p = params(eq_filter(vec![]));
    p.step = Some(10);
    p.order = vec!["-created".to_string()];
    let rows = post::parse_and_query(p, &table).unwrap();
    assert_eq!(rows.iter().map(|e| e.id).collect::<Vec<_>>(), vec![2, 1]);
}

#[test]
fn post_absent_date_sorts_before_present_ascending() {
    let table = post_table();
    let mut p = params(eq_filter(vec![]));
    p.step = Some(10);
    p.order = vec!["lastupdated".to_string()];
    let rows = post::parse_and_query(p, &table).unwrap();
    assert_eq!(rows.iter().map(|e| e.id).collect::<Vec<_>>(), vec![2, 1]);
}

#[test]
fn calculate_limit_policy() {
    let p = params(eq_filter(vec![]));
    assert_eq!(p.calculate_limit(), 0);
    let p = params(eq_filter(vec!["id=1"]));
    assert_eq!(p.calculate_limit(), 10);
}

#[test]
fn status_codes_and_reasons() {
    assert_eq!(Status::OK.code(), 200);
    assert_eq!(Status::Created.code(), 201);
    assert_eq!(Status::NoContent.code(), 204);
    assert_eq!(Status::Unauthorized.code(), 401);
    assert_eq!(Status::Conflict.code(), 409);
    assert_eq!(Status::UnprocessableEntity.reason(), "Unprocessable Entity");
    assert_eq!(Status::InternalServerError.code(), 500);
}
