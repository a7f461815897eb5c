use blogcore::db::Db;
use blogcore::models::Status;
use blogcore::post;
use blogcore::tag;

fn seeded() -> Db {
    let mut db = Db::new();
    post::post_(
        post::NewPost {
            title: "Only".to_string(),
            author: "ann".to_string(),
            created: None,
            last_updated: None,
            content: None,
        },
        &mut db,
    )
        .unwrap();
    tag::post(tag::NewTag { name: "Rust".to_string() }, &mut db).unwrap();
    db
}

#[test]
fn resolver_classifies_one_row_as_success() {
    let db = seeded();
    let rows = tag::retrieve_one_tag(1, &db).unwrap();
    assert_eq!(rows.len(), 1);
    assert_eq!(rows[0].id, 1);

    let rows = post::retrieve_one_post(1, &db).unwrap();
    assert_eq!(rows.len(), 1);
    assert_eq!(rows[0].id, 1);
}

#[test]
fn resolver_classifies_zero_rows_as_not_found() {
    let db = seeded();
    // Arbitrary ids that exist nowhere, including extremes.
    for id in [0, 2, 17, 9999, -1, -2147483648, 2147483647, 123456789] {
        let err = tag::retrieve_one_tag(id, &db).unwrap_err();
        assert_eq!(err.0, Status::NotFound);
        assert_eq!(err.1.code.as_deref(), Some("NOT_FOUND"));
        assert_eq!(
            err.1.message.as_deref(),
            Some("Could not locate tag with provided id.")
        );

        let err = post::retrieve_one_post(id, &db).unwrap_err();
        assert_eq!(err.0, Status::NotFound);
        assert_eq!(
            err.1.message.as_deref(),
            Some("Could not locate post with provided id.")
        );
    }
}

#[test]
fn single_tag_get_wraps_the_row_or_404s() {
    let db = seeded();
    let rows = tag::get(1, &db).unwrap();
    assert_eq!(rows.len(), 1);
    let err = tag::get(3, &db).unwrap_err();
    assert_eq!(err.0, Status::NotFound);
    assert_eq!(err.1.message, None);
}

#[test]
fn single_post_get_carries_its_tags() {
    let mut db = seeded();
    post::put_post_tag(1, 1, &mut db).unwrap();
    let rows = post::get(1, &db).unwrap();
    assert_eq!(rows.len(), 1);
    assert_eq!(rows[0].post.id, 1);
    assert_eq!(rows[0].tags.len(), 1);
    assert_eq!(rows[0].tags[0].name, "Rust");

    let err = post::get(5, &db).unwrap_err();
    assert_eq!(err.0, Status::NotFound);
}
