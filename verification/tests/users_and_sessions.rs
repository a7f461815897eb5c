use blogcore::auth::{Level1, Outcome, ValidSession};
use blogcore::db::Db;
use blogcore::jwt::{get_jwt, validate_jwt};
use blogcore::models::{Role, Status};
use blogcore::pw::{get_phc, verify_password};
use blogcore::role;
use blogcore::session::email_or_pw_incorrect;
use blogcore::user;

const SECRET: &[u8] = b"a test signing secret";

fn seeded() -> Db {
    let mut db = Db::new();
    role::new_role(Role { id: 1, user_role: "admin".to_string() }, &mut db).unwrap();
    role::new_role(Role { id: 2, user_role: "standard".to_string() }, &mut db).unwrap();
    user::add_user(
        user::CreateNewUser {
            email: "ann@example.com".to_string(),
            pass: "hunter2hunter2".to_string(),
            first_name: Some("Ann".to_string()),
            last_name: None,
            role: 1,
            active: true,
        },
        &mut db,
    )
        .unwrap();
    user::add_user(
        user::CreateNewUser {
            email: "bob@example.com".to_string(),
            pass: "swordfish".to_string(),
            first_name: None,
            last_name: Some("Byrne".to_string()),
            role: 2,
            active: true,
        },
        &mut db,
    )
        .unwrap();
    db
}

#[test]
fn password_hash_round_trips() {
    let phc = get_phc("open sesame".to_string()).unwrap();
    assert!(verify_password(&"open sesame".to_string(), &phc).is_ok());
    assert!(verify_password(&"open says me".to_string(), &phc).is_err());
    // The PHC string is self-describing: algorithm, salt and hash.
    assert!(phc.starts_with("$pbkdf2-sha256$"));
}

#[test]
fn login_with_wrong_password_is_unauthorized_and_sets_nothing() {
    let mut db = seeded();
    let before = db.users.iter().find(|u| u.id == 1).unwrap().last_access;
    let err = user::start_session(
        &user::Login {
            email: "ann@example.com".to_string(),
            password: "wrong".to_string(),
        },
        &mut db,
        SECRET,
    )
        .unwrap_err();
    assert_eq!(err.0, Status::Unauthorized);
    assert_eq!(err.0.code(), 401);
    // The same envelope as for an unknown email: no account-existence oracle.
    assert_eq!(err.1.message.as_deref(), Some("Provided email or password was invalid."));
    assert_eq!(err.1.code.as_deref(), Some("UNAUTHORIZED"));
    assert_eq!(err.1.status, "Error");
    assert!(err.1.data.is_none() && err.1.errors.is_none() && err.1.location.is_none());
    // No cookie value was produced and last_access did not move.
    assert_eq!(db.users.iter().find(|u| u.id == 1).unwrap().last_access, before);
}

#[test]
fn login_with_unknown_email_is_unauthorized() {
    let mut db = seeded();
    let err = user::start_session(
        &user::Login {
            email: "nobody@example.com".to_string(),
            password: "whatever".to_string(),
        },
        &mut db,
        SECRET,
    )
        .unwrap_err();
    assert_eq!(err.0, Status::Unauthorized);
    assert_eq!(err.1.message.as_deref(), Some("Provided email or password was invalid."));
}

#[test]
fn login_with_correct_credentials_issues_a_valid_token_and_stamps_access() {
    let mut db = seeded();
    assert!(db.users.iter().find(|u| u.id == 1).unwrap().last_access.is_none());
    let token = user::start_session(
        &user::Login {
            email: "ann@example.com".to_string(),
            password: "hunter2hunter2".to_string(),
        },
        &mut db,
        SECRET,
    )
        .unwrap();

    // The signed cookie value validates and carries the user's claims.
    let claims = validate_jwt(&token, SECRET).unwrap();
    assert_eq!(claims.user_id, 1);
    assert_eq!(claims.email, "ann@example.com");
    assert_eq!(claims.role_id, 1);
    assert_eq!(claims.role, "admin");

    // The last_access column moved to the current date.
    let today = blogcore::dates::current_date();
    let stamped = db.users.iter().find(|u| u.id == 1).unwrap().last_access.unwrap();
    assert_eq!(stamped, today);
}

#[test]
fn tampered_or_foreign_tokens_fail_closed() {
    let token = get_jwt(7, "x@example.com".to_string(), 2, "standard".to_string(), SECRET)
        .unwrap();
    assert!(validate_jwt(&token, SECRET).is_ok());
    assert!(validate_jwt(&token, b"another secret").is_err());
    let mut tampered = token.clone();
    tampered.push('x');
    assert!(validate_jwt(&tampered, SECRET).is_err());
}

#[test]
fn guards_implement_the_access_matrix() {
    let admin_token = get_jwt(1, "ann@example.com".to_string(), 1, "admin".to_string(), SECRET)
        .unwrap();
    let user_token = get_jwt(2, "bob@example.com".to_string(), 2, "standard".to_string(), SECRET)
        .unwrap();

    // No credential: unauthorized.
    assert!(matches!(Level1::from_request(None, SECRET), Outcome::Unauthorized));
    assert!(matches!(ValidSession::from_request(None, SECRET), Outcome::Unauthorized));

    // Invalid credential: unauthorized.
    let junk = "not a token".to_string();
    assert!(matches!(Level1::from_request(Some(&junk), SECRET), Outcome::Unauthorized));

    // Valid credential, insufficient role: forbidden.
    assert!(matches!(Level1::from_request(Some(&user_token), SECRET), Outcome::Forbidden));

    // Valid credential, sufficient role: authorized with the claims.
    match Level1::from_request(Some(&admin_token), SECRET) {
        Outcome::Success(l) => assert_eq!(l.role_id, 1),
        _ => panic!("admin token should pass the admin guard"),
    }
    match ValidSession::from_request(Some(&user_token), SECRET) {
        Outcome::Success(s) => assert_eq!(s.id, 2),
        _ => panic!("any valid token should pass the session guard"),
    }
}

fn seeded_one() -> Db {
    let mut db = Db::new();
    role::new_role(Role { id: 2, user_role: "standard".to_string() }, &mut db).unwrap();
    user::add_user(
        user::CreateNewUser {
            email: "bob@example.com".to_string(),
            pass: "swordfish".to_string(),
            first_name: None,
            last_name: Some("Byrne".to_string()),
            role: 2,
            active: true,
        },
        &mut db,
    )
        .unwrap();
    db
}

#[test]
fn confirm_pw_accepts_the_existing_password() {
    let db = seeded_one();
    let session = ValidSession { id: 1 };
    let ok = user::confirm_pw(&"swordfish".to_string(), &session, &db).unwrap();
    assert_eq!(ok, Status::NoContent);
}

#[test]
fn confirm_pw_rejects_a_wrong_password() {
    let db = seeded_one();
    let session = ValidSession { id: 1 };
    let err = user::confirm_pw(&"bad".to_string(), &session, &db).unwrap_err();
    assert_eq!(err.0, Status::Unauthorized);
    assert_eq!(err.1.message.as_deref(), Some("Existing password was invalid."));
}

#[test]
fn update_self_hashes_a_new_password() {
    let mut db = seeded_one();
    let session = ValidSession { id: 1 };
    user::update_self(
        &session,
        user::UpdateUserNoRole {
            email: None,
            phc: Some("a new password".to_string()),
            first_name: Some("Robert".to_string()),
            last_name: None,
            active: None,
        },
        &mut db,
    )
        .unwrap();
    let row = db.users.iter().find(|u| u.id == 1).unwrap();
    assert_eq!(row.first_name.as_deref(), Some("Robert"));
    // The stored value is a hash that verifies, never the password itself.
    let stored = row.phc.clone().unwrap();
    assert_ne!(stored, "a new password");
    assert!(verify_password(&"a new password".to_string(), &stored).is_ok());
    // The untouched fields stayed.
    assert_eq!(row.last_name.as_deref(), Some("Byrne"));
}

#[test]
fn update_self_with_nothing_changes_nothing() {
    let mut db = seeded();
    let before = db.users.clone();
    user::update_self(
        &ValidSession { id: 1 },
        user::UpdateUserNoRole {
            email: None,
            phc: None,
            first_name: None,
            last_name: None,
            active: None,
        },
        &mut db,
    )
        .unwrap();
    assert_eq!(db.users, before);
}

#[test]
fn update_user_can_move_roles_but_not_onto_a_taken_email() {
    let mut db = seeded();
    user::update_user(
        2,
        user::UpdateUser {
            email: None,
            phc: None,
            first_name: None,
            last_name: None,
            role: Some(1),
            active: Some(false),
        },
        &mut db,
    )
        .unwrap();
    let row = db.users.iter().find(|u| u.id == 2).unwrap();
    assert_eq!(row.role, 1);
    assert_eq!(row.active, Some(false));

    // Moving onto a taken email is a unique-constraint violation.
    let err = user::update_user(
        2,
        user::UpdateUser {
            email: Some("ann@example.com".to_string()),
            phc: None,
            first_name: None,
            last_name: None,
            role: None,
            active: None,
        },
        &mut db,
    )
        .unwrap_err();
    assert_eq!(err.0, Status::UnprocessableEntity);
    assert_eq!(err.1.code.as_deref(), Some("UNIQUE_VIOLATION"));
}

#[test]
fn add_user_rejects_duplicate_emails() {
    let mut db = seeded();
    let err = user::add_user(
        user::CreateNewUser {
            email: "ann@example.com".to_string(),
            pass: "whatever".to_string(),
            first_name: None,
            last_name: None,
            role: 2,
            active: true,
        },
        &mut db,
    )
        .unwrap_err();
    assert_eq!(err.0, Status::UnprocessableEntity);
    assert_eq!(err.1.code.as_deref(), Some("INVALID_FIELD"));
    assert_eq!(db.users.len(), 2);
}

#[test]
fn add_user_rejects_an_unknown_role() {
    let mut db = Db::new();
    // No roles row exists, so the declared role reference cannot hold.
    let err = user::add_user(
        user::CreateNewUser {
            email: "solo@example.com".to_string(),
            pass: "whatever".to_string(),
            first_name: None,
            last_name: None,
            role: 7,
            active: true,
        },
        &mut db,
    )
        .unwrap_err();
    assert_eq!(err.0, Status::UnprocessableEntity);
    assert_eq!(err.1.code.as_deref(), Some("INVALID_FIELD"));
    assert_eq!(err.1.message.as_deref(), Some("The given role does not exist."));
    assert!(db.users.is_empty());
}

#[test]
fn delete_user_classifies_by_rows_removed() {
    let mut db = seeded();
    assert_eq!(user::delete_user(2, &mut db).unwrap(), Status::NoContent);
    assert_eq!(db.users.len(), 1);
    assert_eq!(user::delete_user(2, &mut db).unwrap(), Status::NotFound);
}

#[test]
fn reads_never_expose_the_stored_hash() {
    let db = seeded();
    let u = user::get_user_by_id(1, &db).unwrap();
    assert_eq!(u.email, "ann@example.com");
    let listed = user::list_of_all_users(1, &db);
    assert_eq!(listed.len(), 1);
    assert_eq!(listed[0].id, 2);
    let err = user::get_user_by_id(9, &db).unwrap_err();
    assert_eq!(err.0, Status::InternalServerError);
}

#[test]
fn catchers_build_their_documents() {
    let doc = user::catch_all(Status::Unauthorized);
    assert_eq!(doc.status, "401");
    assert_eq!(doc.canonical, "Unauthorized");
    assert_eq!(doc.title, "Session token missing or invalid.");
    assert_eq!(doc.detail, "The JWT is not present or is no longer valid.");

    let doc = user::catch_all(Status::NotFound);
    assert_eq!(doc.status, "404");
    assert_eq!(doc.canonical, "Not Found");
    assert_eq!(doc.title, "A error was generated but it had an unantacipated code.");

    assert_eq!(user::dup_entry(), "Ensure email is unique and role is valid.");
    assert_eq!(
        email_or_pw_incorrect("/api/session"),
        "You lack needed persmisison or your provided credentials were incorrect. /api/session"
    );
}

#[test]
fn role_crud_round_trips() {
    let mut db = Db::new();
    assert_eq!(role::new_role(Role { id: 5, user_role: "editor".to_string() }, &mut db), Ok(1));
    let err = role::new_role(Role { id: 5, user_role: "again".to_string() }, &mut db)
        .unwrap_err();
    assert_eq!(err.0, Status::InternalServerError);

    let rows = role::get_role(5, &db);
    assert_eq!(rows.len(), 1);
    assert_eq!(rows[0].user_role, "editor");

    assert_eq!(
        role::update_role(5, Role { id: 5, user_role: "chief editor".to_string() }, &mut db),
        Ok(1)
    );
    assert_eq!(db.roles[0].user_role, "chief editor");
    assert_eq!(
        role::update_role(9, Role { id: 9, user_role: "ghost".to_string() }, &mut db),
        Ok(0)
    );

    assert_eq!(role::get_roles(&db).len(), 1);
    assert_eq!(role::delete_role(5, &mut db), 1);
    assert_eq!(role::delete_role(5, &mut db), 0);
    assert!(db.roles.is_empty());
}

#[test]
fn date_parsing_follows_the_fixed_format() {
    let d = blogcore::dates::parse_date("2023-05-01").unwrap();
    assert_eq!((d.year, d.month, d.day), (2023, 5, 1));
    assert!(blogcore::dates::parse_date("2023-13-01").is_none());
    assert!(blogcore::dates::parse_date("2023-02-30").is_none());
    assert!(blogcore::dates::parse_date("yesterday").is_none());
}
