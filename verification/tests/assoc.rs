use blogcore::db::Db;
use blogcore::models::{Status, Tag};
use blogcore::post;
use blogcore::post_tags;
use blogcore::tag;

fn seeded() -> Db {
    let mut db = Db::new();
    let p1 = post::NewPost {
        title: "First".to_string(),
        author: "ann".to_string(),
        created: None,
        last_updated: None,
        content: None,
    };
    let p2 = post::NewPost {
        title: "Second".to_string(),
        author: "bob".to_string(),
        created: None,
        last_updated: None,
        content: None,
    };
    post::post_(p1, &mut db).unwrap();
    post::post_(p2, &mut db).unwrap();
    tag::post(tag::NewTag { name: "Rust".to_string() }, &mut db).unwrap();
    tag::post(tag::NewTag { name: "Verus".to_string() }, &mut db).unwrap();
    db
}

#[test]
fn create_tag_sets_location_and_duplicate_conflicts() {
    let mut db = Db::new();
    // Create tag "Rust": created, location present.
    let (id, location) = tag::post(tag::NewTag { name: "Rust".to_string() }, &mut db).unwrap();
    assert_eq!(id, 1);
    assert_eq!(location, "/api/tags/1");

    // Create tag "Rust" again: a unique violation conflict.
    let err = tag::post(tag::NewTag { name: "Rust".to_string() }, &mut db).unwrap_err();
    assert_eq!(err.0, Status::Conflict);
    assert_eq!(err.0.code(), 409);
    assert_eq!(err.1.code.as_deref(), Some("UNIQUE_VIOLATION"));
    assert_eq!(db.tags.len(), 1);
}

#[test]
fn tag_name_length_is_validated_before_any_storage_work() {
    let mut db = Db::new();
    let err = tag::post(tag::NewTag { name: String::new() }, &mut db).unwrap_err();
    assert_eq!(err.0, Status::UnprocessableEntity);
    assert_eq!(err.1.code.as_deref(), Some("INVALID_INPUT"));
    let long = "x".repeat(101);
    let err = tag::post(tag::NewTag { name: long }, &mut db).unwrap_err();
    assert_eq!(err.0, Status::UnprocessableEntity);
    assert_eq!(db.tags.len(), 0);
}

#[test]
fn attach_is_idempotent_no_duplicate_association_row() {
    let mut db = seeded();
    post::put_post_tag(1, 1, &mut db).unwrap();
    assert_eq!(db.post_tags.len(), 1);

    // Attaching an already-associated tag creates no second row.
    post::put_post_tag(1, 1, &mut db).unwrap();
    assert_eq!(db.post_tags.len(), 1);
    assert_eq!(db.post_tags[0].post_id, 1);
    assert_eq!(db.post_tags[0].tag_id, 1);
}

#[test]
fn add_entries_with_no_post_is_a_no_op() {
    let mut db = seeded();
    let tags = vec![Tag { id: 1, name: "Rust".to_string() }];
    let n = post_tags::add_entries(&mut db, Vec::new(), tags).unwrap();
    assert_eq!(n, 0);
    assert_eq!(db.post_tags.len(), 0);
}

#[test]
fn deleting_a_post_removes_all_its_association_rows() {
    let mut db = seeded();
    post::put_post_tag(1, 1, &mut db).unwrap();
    post::put_post_tag(1, 2, &mut db).unwrap();
    post::put_post_tag(2, 1, &mut db).unwrap();
    assert_eq!(db.post_tags.len(), 3);

    post::delete(1, &mut db).unwrap();

    // No join row references the deleted post; the other post keeps its row.
    assert!(db.post_tags.iter().all(|r| r.post_id != 1));
    assert_eq!(db.post_tags.len(), 1);
    assert_eq!(db.post_tags[0].post_id, 2);
    assert!(db.posts.iter().all(|p| p.id != 1));
    assert_eq!(db.posts.len(), 1);
}

#[test]
fn deleting_a_missing_post_is_not_found() {
    let mut db = seeded();
    let err = post::delete(77, &mut db).unwrap_err();
    assert_eq!(err.0, Status::NotFound);
}

#[test]
fn deleting_a_tag_removes_its_association_rows_and_its_posts_query() {
    let mut db = seeded();
    post::put_post_tag(1, 1, &mut db).unwrap();
    post::put_post_tag(2, 1, &mut db).unwrap();
    post::put_post_tag(2, 2, &mut db).unwrap();

    let (gone, count) = tag::delete(1, &mut db).unwrap();
    assert_eq!(gone.id, 1);
    assert_eq!(gone.name, "Rust");
    assert_eq!(count, 2);

    // No join row references the deleted tag.
    assert!(db.post_tags.iter().all(|r| r.tag_id != 1));
    assert_eq!(db.post_tags.len(), 1);

    // Re-querying "posts by tag" for the deleted tag id finds no tag.
    let err = tag::get_posts(1, &db).unwrap_err();
    assert_eq!(err.0, Status::NotFound);
}

#[test]
fn posts_by_tag_lists_each_post_with_its_tags() {
    let mut db = seeded();
    post::put_post_tag(1, 1, &mut db).unwrap();
    post::put_post_tag(2, 1, &mut db).unwrap();
    post::put_post_tag(2, 2, &mut db).unwrap();

    let rows = tag::get_posts(1, &db).unwrap();
    assert_eq!(rows.len(), 2);
    assert_eq!(rows[0].post.id, 1);
    assert_eq!(rows[0].tags.len(), 1);
    assert_eq!(rows[1].post.id, 2);
    assert_eq!(rows[1].tags.len(), 2);
}

#[test]
fn patch_post_tags_with_mixed_ids_is_partial_success() {
    let mut db = seeded();
    // One existing tag id and one nonexistent id: the nonexistent id
    // selects nothing, the existing one is attached, and the request
    // still succeeds.
    let body = post::Tags { id: Some(vec![1, 99]), name: None };
    post::patch_post_tags_form(1, body, &mut db).unwrap();
    assert_eq!(db.post_tags.len(), 1);
    assert_eq!(db.post_tags[0].tag_id, 1);
}

#[test]
fn patch_post_tags_by_name_and_id() {
    let mut db = seeded();
    let body = post::Tags {
        id: Some(vec![1]),
        name: Some(vec!["Verus".to_string()]),
    };
    post::patch_post_tags_form(2, body, &mut db).unwrap();
    let mut pairs: Vec<(i32, i32)> =
        db.post_tags.iter().map(|r| (r.post_id, r.tag_id)).collect();
    pairs.sort();
    assert_eq!(pairs, vec![(2, 1), (2, 2)]);
}

#[test]
fn put_post_tags_replaces_the_existing_set() {
    let mut db = seeded();
    post::put_post_tag(1, 1, &mut db).unwrap();
    let body = post::Tags { id: Some(vec![2]), name: None };
    post::put_post_tags_form(1, body, &mut db).unwrap();
    let pairs: Vec<(i32, i32)> =
        db.post_tags.iter().map(|r| (r.post_id, r.tag_id)).collect();
    assert_eq!(pairs, vec![(1, 2)]);
}

#[test]
fn delete_post_tag_detaches_one_pair_only() {
    let mut db = seeded();
    post::put_post_tag(1, 1, &mut db).unwrap();
    post::put_post_tag(1, 2, &mut db).unwrap();
    post::delete_post_tag(1, 1, &mut db).unwrap();
    let pairs: Vec<(i32, i32)> =
        db.post_tags.iter().map(|r| (r.post_id, r.tag_id)).collect();
    assert_eq!(pairs, vec![(1, 2)]);
    // Detaching again removes nothing and is still no error.
    post::delete_post_tag(1, 1, &mut db).unwrap();
    assert_eq!(db.post_tags.len(), 1);
}

#[test]
fn tag_patch_renames_and_rejects_taken_names() {
    let mut db = seeded();
    tag::patch(1, tag::NewTag { name: "Systems".to_string() }, &mut db).unwrap();
    assert_eq!(db.tags[0].name, "Systems");

    let err = tag::patch(1, tag::NewTag { name: "Verus".to_string() }, &mut db).unwrap_err();
    assert_eq!(err.0, Status::UnprocessableEntity);
    assert_eq!(err.1.code.as_deref(), Some("UNIQUE_VIOLATION"));

    let err = tag::patch(42, tag::NewTag { name: "Anything".to_string() }, &mut db).unwrap_err();
    assert_eq!(err.0, Status::NotFound);
}

#[test]
fn post_patch_updates_fields_and_stamps_the_day() {
    let mut db = seeded();
    let body = post::NewPost {
        title: "First, revised".to_string(),
        author: "ann".to_string(),
        created: None,
        last_updated: None,
        content: Some("now with content".to_string()),
    };
    post::patch(1, body, &mut db).unwrap();
    let row = db.posts.iter().find(|p| p.id == 1).unwrap();
    assert_eq!(row.title, "First, revised");
    assert_eq!(row.content.as_deref(), Some("now with content"));
    assert!(row.last_updated.is_some());

    let bad = post::NewPost {
        title: String::new(),
        author: "ann".to_string(),
        created: None,
        last_updated: None,
        content: None,
    };
    let err = post::patch(1, bad, &mut db).unwrap_err();
    assert_eq!(err.0, Status::UnprocessableEntity);
    let details = err.1.errors.unwrap();
    assert_eq!(details.len(), 1);
    assert_eq!(details[0].field, "title");
}

#[test]
fn post_create_reports_every_bad_field() {
    let mut db = Db::new();
    let bad = post::NewPost {
        title: String::new(),
        author: "y".repeat(200),
        created: None,
        last_updated: None,
        content: None,
    };
    let err = post::post_(bad, &mut db).unwrap_err();
    assert_eq!(err.0, Status::UnprocessableEntity);
    assert_eq!(err.1.code.as_deref(), Some("INVALID_INPUT"));
    let details = err.1.errors.unwrap();
    assert_eq!(details.len(), 2);
    assert_eq!(details[0].field, "title");
    assert_eq!(details[1].field, "author");
    assert!(db.posts.is_empty());
}

#[test]
fn post_create_returns_location() {
    let mut db = Db::new();
    let body = post::NewPost {
        title: "Hello".to_string(),
        author: "ann".to_string(),
        created: None,
        last_updated: None,
        content: None,
    };
    let (id, location) = post::post_(body, &mut db).unwrap();
    assert_eq!(id, 1);
    assert_eq!(location, "/api/posts/1");
    assert_eq!(post::get_a_post_id(&db, &"Hello".to_string(), &"ann".to_string()), Some(1));
}

#[test]
fn put_post_tags_covers_more_than_the_default_page() {
    let mut db = Db::new();
    post::post_(
        post::NewPost {
            title: "Wide".to_string(),
            author: "ann".to_string(),
            created: None,
            last_updated: None,
            content: None,
        },
        &mut db,
    )
        .unwrap();
    let mut ids: Vec<i32> = Vec::new();
    for i in 0..12 {
        let (id, _) = tag::post(tag::NewTag { name: format!("topic-{i}") }, &mut db).unwrap();
        ids.push(id);
    }
    // Twelve listed tags exceed the compiler's default page of ten; the
    // body passes an explicit page size covering its tokens, so all twelve
    // are attached.
    let body = post::Tags { id: Some(ids), name: None };
    post::put_post_tags_form(1, body, &mut db).unwrap();
    assert_eq!(db.post_tags.len(), 12);
}

#[test]
fn posts_by_tag_covers_more_than_the_default_page() {
    let mut db = Db::new();
    tag::post(tag::NewTag { name: "common".to_string() }, &mut db).unwrap();
    for i in 0..12 {
        let (pid, _) = post::post_(
            post::NewPost {
                title: format!("Post {i}"),
                author: "ann".to_string(),
                created: None,
                last_updated: None,
                content: None,
            },
            &mut db,
        )
            .unwrap();
        post::put_post_tag(pid, 1, &mut db).unwrap();
    }
    // Twelve posts carry the tag; the internal query pages past the
    // default ten, so every one of them is listed.
    let rows = tag::get_posts(1, &db).unwrap();
    assert_eq!(rows.len(), 12);
}

#[test]
fn get_a_tag_id_finds_by_name() {
    let db = seeded();
    assert_eq!(tag::get_a_tag_id(&db, &"Verus".to_string()), Some(2));
    assert_eq!(tag::get_a_tag_id(&db, &"Nope".to_string()), None);
}
