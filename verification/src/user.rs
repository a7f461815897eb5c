//! User management and the session lifecycle: profile reads that never
//! expose the stored password hash, self- and admin-updates, account
//! creation and deletion, and the login that verifies a password and
//! issues a session token.

use vstd::prelude::*;

use crate::auth::ValidSession;
use crate::dates::current_date;
use crate::db::{Db, unique_user_ids};
use crate::jwt::{get_jwt, jwt_of};
use crate::models::{AResponse, Custom, Date, DateTime, Status, User, UserV};
use crate::myjsonapi::JSONAPIError;
use crate::pw::{get_phc, pw_verifies, verify_password};
use crate::text::{dec_str, dec_string_i64};

verus! {

// ---------------------------------------------------------------------------
// Request bodies and projections
// ---------------------------------------------------------------------------

/// The body of a login request.
#[derive(Debug, PartialEq, Clone)]
pub struct Login {
    pub email: String,
    pub password: String,
}

/// The body of an account-creation request.
#[derive(Debug, PartialEq, Clone)]
pub struct CreateNewUser {
    pub email: String,
    pub pass: String,
    pub first_name: Option<String>,
    pub last_name: Option<String>,
    pub role: i32,
    pub active: bool,
}

/// An admin's update to any user: absent fields stay untouched.  A new
/// password arrives in the `phc` field and is hashed before storage.
#[derive(Debug, PartialEq, Clone)]
pub struct UpdateUser {
    pub email: Option<String>,
    pub phc: Option<String>,
    pub first_name: Option<String>,
    pub last_name: Option<String>,
    pub role: Option<i32>,
    pub active: Option<bool>,
}

/// A user's update to their own profile: like [`UpdateUser`], but the role
/// cannot be touched.
#[derive(Debug, PartialEq, Clone)]
pub struct UpdateUserNoRole {
    pub email: Option<String>,
    pub phc: Option<String>,
    pub first_name: Option<String>,
    pub last_name: Option<String>,
    pub active: Option<bool>,
}

/// The mathematical value of a roleless update.
pub ghost struct UpdateUserNoRoleV {
    pub email: Option<Seq<char>>,
    pub phc: Option<Seq<char>>,
    pub first_name: Option<Seq<char>>,
    pub last_name: Option<Seq<char>>,
    pub active: Option<bool>,
}

impl View for UpdateUserNoRole {
    type V = UpdateUserNoRoleV;

    open spec fn view(&self) -> UpdateUserNoRoleV {
        UpdateUserNoRoleV {
            email: self.email.deep_view(),
            phc: self.phc.deep_view(),
            first_name: self.first_name.deep_view(),
            last_name: self.last_name.deep_view(),
            active: self.active,
        }
    }
}

impl UpdateUserNoRole {
    /// Whether the update carries nothing at all.
    pub fn is_all_none(&self) -> (r: bool)
        ensures
            r == (self@.email is None && self@.phc is None && self@.first_name is None
                && self@.last_name is None && self@.active is None),
    {
        self.email.is_none() && self.phc.is_none() && self.first_name.is_none()
            && self.last_name.is_none() && self.active.is_none()
    }
}

/// A user row as handed out to callers: everything but the stored password
/// hash; a missing email reads as empty.
#[derive(Debug, PartialEq, Clone)]
pub struct UserWithoutPHC {
    pub id: i32,
    pub email: String,
    pub first_name: Option<String>,
    pub last_name: Option<String>,
    pub created: Option<DateTime>,
    pub role: i32,
    pub active: Option<bool>,
    pub last_access: Option<Date>,
}

/// The mathematical value of a hashless user row.
pub ghost struct UserWithoutPHCV {
    pub id: int,
    pub email: Seq<char>,
    pub first_name: Option<Seq<char>>,
    pub last_name: Option<Seq<char>>,
    pub created: Option<DateTime>,
    pub role: int,
    pub active: Option<bool>,
    pub last_access: Option<Date>,
}

impl View for UserWithoutPHC {
    type V = UserWithoutPHCV;

    open spec fn view(&self) -> UserWithoutPHCV {
        UserWithoutPHCV {
            id: self.id as int,
            email: self.email@,
            first_name: self.first_name.deep_view(),
            last_name: self.last_name.deep_view(),
            created: self.created,
            role: self.role as int,
            active: self.active,
            last_access: self.last_access,
        }
    }
}

impl DeepView for UserWithoutPHC {
    type V = UserWithoutPHCV;

    open spec fn deep_view(&self) -> UserWithoutPHCV {
        self@
    }
}

/// What scrubbing a user row keeps.
pub open spec fn scrub(u: UserV) -> UserWithoutPHCV {
    UserWithoutPHCV {
        id: u.id,
        email: match u.email {
            Some(e) => e,
            None => Seq::<char>::empty(),
        },
        first_name: u.first_name,
        last_name: u.last_name,
        created: u.created,
        role: u.role,
        active: u.active,
        last_access: u.last_access,
    }
}

/// Clones an optional string.
fn clone_opt(s: &Option<String>) -> (r: Option<String>)
    ensures
        r.deep_view() == s.deep_view(),
{
    match s {
        Some(v) => Some(v.clone()),
        None => None,
    }
}

/// A user row scrubbed of its password hash.
fn scrub_user(u: &User) -> (r: UserWithoutPHC)
    ensures
        r@ == scrub(u@),
{
    UserWithoutPHC {
        id: u.id,
        email: match &u.email {
            Some(e) => e.clone(),
            None => String::new(),
        },
        first_name: clone_opt(&u.first_name),
        last_name: clone_opt(&u.last_name),
        created: u.created,
        role: u.role,
        active: u.active,
        last_access: u.last_access,
    }
}

impl User {
    /// A row holding the same fields.
    pub fn duplicate(&self) -> (r: User)
        ensures
            r@ == self@,
    {
        User {
            id: self.id,
            email: clone_opt(&self.email),
            phc: clone_opt(&self.phc),
            first_name: clone_opt(&self.first_name),
            last_name: clone_opt(&self.last_name),
            created: self.created,
            role: self.role,
            active: self.active,
            last_access: self.last_access,
        }
    }
}

// ---------------------------------------------------------------------------
// Table-level predicates
// ---------------------------------------------------------------------------

/// Some user in the sequence has this id.
pub open spec fn users_contain_id(us: Seq<UserV>, id: int) -> bool {
    exists|i: int| 0 <= i < us.len() && us[i].id == id
}

/// Some user in the sequence carries this email.
pub open spec fn users_contain_email(us: Seq<UserV>, email: Seq<char>) -> bool {
    exists|i: int| 0 <= i < us.len() && us[i].email == Some(email)
}

/// Some user other than the one with this id carries this email.
pub open spec fn email_on_other_user(us: Seq<UserV>, email: Seq<char>, id: int) -> bool {
    exists|i: int| 0 <= i < us.len() && us[i].email == Some(email) && us[i].id != id
}

/// The stored hash a row verifies against: its PHC string, or empty when
/// none is stored.
pub open spec fn stored_phc(u: UserV) -> Seq<char> {
    match u.phc {
        Some(h) => h,
        None => Seq::<char>::empty(),
    }
}

/// Whether some user already carries this email.
fn email_exists(users: &Vec<User>, email: &String, excluding: Option<i32>) -> (r: bool)
    ensures
        match excluding {
            None => r == users_contain_email(users.deep_view(), email@),
            Some(id) => r == email_on_other_user(users.deep_view(), email@, id as int),
        },
{
    let mut i: usize = 0;
    while i < users.len()
        invariant
            i <= users.len(),
            match excluding {
                None => forall|j: int|
                    0 <= j < i ==> (#[trigger] users.deep_view()[j]).email != Some(email@),
                Some(id) => forall|j: int|
                    0 <= j < i ==> !((#[trigger] users.deep_view()[j]).email == Some(email@)
                        && users.deep_view()[j].id != id as int),
            },
        decreases users.len() - i,
    {
        let matches_email = match &users[i].email {
            Some(e) => *e == *email,
            None => false,
        };
        let excluded = match excluding {
            Some(id) => users[i].id == id,
            None => false,
        };
        if matches_email && !excluded {
            proof {
                assert(users.deep_view()[i as int].email == Some(email@));
            }
            return true;
        }
        i = i + 1;
    }
    false
}

/// The index of the user with this id, if any.
fn find_user_idx(users: &Vec<User>, id: i32) -> (r: Option<usize>)
    ensures
        match r {
            Some(k) => k < users.deep_view().len() && users.deep_view()[k as int].id == id as int,
            None => !users_contain_id(users.deep_view(), id as int),
        },
{
    let mut i: usize = 0;
    while i < users.len()
        invariant
            i <= users.len(),
            forall|j: int| 0 <= j < i ==> (#[trigger] users.deep_view()[j]).id != id as int,
        decreases users.len() - i,
    {
        if users[i].id == id {
            proof {
                assert(users.deep_view()[i as int].id == id as int);
            }
            return Some(i);
        }
        i = i + 1;
    }
    proof {
        if users_contain_id(users.deep_view(), id as int) {
            let w = choose|w: int|
                0 <= w < users.deep_view().len() && users.deep_view()[w].id == id as int;
            assert(users.deep_view()[w].id != id as int);
        }
    }
    None
}

// ---------------------------------------------------------------------------
// Catchers
// ---------------------------------------------------------------------------

/// The catcher message for a duplicate-entry rejection.
pub fn dup_entry() -> (r: String)
    ensures
        r@ == "Ensure email is unique and role is valid."@,
{
    "Ensure email is unique and role is valid.".to_owned()
}

/// The fallback catcher: an error document built entirely from the status,
/// with a specific text for a missing or invalid session token.
pub fn catch_all(status: Status) -> (r: JSONAPIError)
    ensures
        r.status@ == dec_str(status.spec_code()),
        r.canonical@ == status.spec_reason(),
        status == Status::Unauthorized ==> r.title@ == "Session token missing or invalid."@
            && r.detail@ == "The JWT is not present or is no longer valid."@,
        status != Status::Unauthorized ==> r.title@
            == "A error was generated but it had an unantacipated code."@ && r.detail@
            == "The back end of the application generated an unexpected non 200 response."@,
{
    let code = status.code();
    let mut message = JSONAPIError {
        status: dec_string_i64(code as i64),
        canonical: status.reason(),
        title: String::new(),
        detail: String::new(),
    };
    match status {
        Status::Unauthorized => {
            message.title = "Session token missing or invalid.".to_owned();
            message.detail = "The JWT is not present or is no longer valid.".to_owned();
        },
        _ => {
            message.title = "A error was generated but it had an unantacipated code.".to_owned();
            message.detail =
                "The back end of the application generated an unexpected non 200 response."
                .to_owned();
        },
    }
    message
}

// ---------------------------------------------------------------------------
// Reads
// ---------------------------------------------------------------------------

/// Every user but the caller, scrubbed of password hashes, in table order.
pub open spec fn scrubbed_except(us: Seq<UserV>, id: int) -> Seq<UserWithoutPHCV>
    decreases us.len(),
{
    if us.len() == 0 {
        seq![]
    } else {
        let rest = scrubbed_except(us.drop_last(), id);
        if us.last().id == id {
            rest
        } else {
            rest.push(scrub(us.last()))
        }
    }
}

/// Lists every user except the caller, without password hashes.
pub fn list_of_all_users(user_id: i32, db: &Db) -> (r: Vec<UserWithoutPHC>)
    ensures
        r.deep_view() =~= scrubbed_except(db.users.deep_view(), user_id as int),
{
    let ghost uv = db.users.deep_view();
    let mut out: Vec<UserWithoutPHC> = Vec::new();
    let mut i: usize = 0;
    while i < db.users.len()
        invariant
            i <= db.users@.len(),
            uv == db.users.deep_view(),
            out.deep_view() =~= scrubbed_except(uv.take(i as int), user_id as int),
        decreases db.users@.len() - i,
    {
        proof {
            assert(uv.take(i + 1).drop_last() =~= uv.take(i as int));
            assert(uv.take(i + 1).last() == uv[i as int]);
        }
        if db.users[i].id != user_id {
            out.push(scrub_user(&db.users[i]));
        }
        proof {
            assert(out.deep_view() =~= scrubbed_except(uv.take(i + 1), user_id as int));
        }
        i = i + 1;
    }
    proof {
        assert(uv.take(db.users@.len() as int) =~= uv);
    }
    out
}

/// The user with this id, scrubbed; a missing id is an internal error, as
/// the storage layer reports a missing first row.
pub fn get_user_by_id(id: i32, db: &Db) -> (r: Result<UserWithoutPHC, Custom>)
    ensures
        !users_contain_id(db.users.deep_view(), id as int) ==> (r matches Err(c) && c.0
            == Status::InternalServerError),
        forall|idx: int|
            0 <= idx < db.users.deep_view().len() && (#[trigger] db.users.deep_view()[idx]).id
                == id as int ==> (r matches Ok(u) && u@ == scrub(db.users.deep_view()[idx])
                || !unique_user_ids(db.users.deep_view())),
{
    match find_user_idx(&db.users, id) {
        Some(k) => {
            let u = scrub_user(&db.users[k]);
            proof {
                assert forall|idx: int|
                    0 <= idx < db.users.deep_view().len() && (#[trigger] db.users.deep_view()[
                    idx]).id == id as int && unique_user_ids(db.users.deep_view()) implies idx
                    == k as int by {}
            }
            Ok(u)
        },
        None => Err(Custom(Status::InternalServerError, AResponse::_500())),
    }
}

/// The caller's own row, scrubbed (admin rank).
pub fn get_admin_user(user_id: i32, db: &Db) -> (r: Result<UserWithoutPHC, Custom>)
    ensures
        !users_contain_id(db.users.deep_view(), user_id as int) ==> (r matches Err(c) && c.0
            == Status::InternalServerError),
        forall|idx: int|
            0 <= idx < db.users.deep_view().len() && (#[trigger] db.users.deep_view()[idx]).id
                == user_id as int ==> (r matches Ok(u) && u@ == scrub(db.users.deep_view()[idx])
                || !unique_user_ids(db.users.deep_view())),
{
    get_user_by_id(user_id, db)
}

/// The caller's own row, scrubbed (standard rank).
pub fn get_user(user_id: i32, db: &Db) -> (r: Result<UserWithoutPHC, Custom>)
    ensures
        !users_contain_id(db.users.deep_view(), user_id as int) ==> (r matches Err(c) && c.0
            == Status::InternalServerError),
        forall|idx: int|
            0 <= idx < db.users.deep_view().len() && (#[trigger] db.users.deep_view()[idx]).id
                == user_id as int ==> (r matches Ok(u) && u@ == scrub(db.users.deep_view()[idx])
                || !unique_user_ids(db.users.deep_view())),
{
    get_user_by_id(user_id, db)
}

/// The ranked fallbacks when a profile read lacks the needed session.
pub fn get_user_by_id_forbidden() -> (r: Status)
    ensures
        r == Status::Forbidden,
{
    Status::Forbidden
}

/// A profile read with no session at all.
pub fn get_user_by_id_unauthorized() -> (r: Status)
    ensures
        r == Status::Unauthorized,
{
    Status::Unauthorized
}

/// An own-profile read with no session at all.
pub fn get_no_user() -> (r: Status)
    ensures
        r == Status::Unauthorized,
{
    Status::Unauthorized
}

/// Confirms the caller's existing password: valid is "no content", invalid
/// is "unauthorized".  A session whose user is gone is an internal error.
pub fn confirm_pw(password: &String, user: &ValidSession, db: &Db) -> (r: Result<Status, Custom>)
    ensures
        !users_contain_id(db.users.deep_view(), user.id as int) ==> (r matches Err(c) && c.0
            == Status::InternalServerError),
        forall|idx: int|
            0 <= idx < db.users.deep_view().len() && (#[trigger] db.users.deep_view()[idx]).id
                == user.id as int ==> ((if pw_verifies(
                password@,
                stored_phc(db.users.deep_view()[idx]),
            ) {
                r == Ok::<Status, Custom>(Status::NoContent)
            } else {
                r matches Err(c) && c.0 == Status::Unauthorized
            }) || !unique_user_ids(db.users.deep_view())),
        r matches Err(c) ==> (c.0 == Status::Unauthorized ==> crate::models::plain_error_envelope(
            c.1,
            "UNAUTHORIZED"@,
            Some("Existing password was invalid."@),
        )),
{
    let k = match find_user_idx(&db.users, user.id) {
        Some(k) => k,
        None => {
            return Err(Custom(Status::InternalServerError, AResponse::_500()));
        },
    };
    let user_phc = match &db.users[k].phc {
        Some(h) => h.clone(),
        None => String::new(),
    };
    match verify_password(password, &user_phc) {
        Ok(_) => Ok(Status::NoContent),
        Err(_) => Err(
            Custom(
                Status::Unauthorized,
                AResponse::_401(Some("Existing password was invalid.".to_owned())),
            ),
        ),
    }
}

// ---------------------------------------------------------------------------
// Updates
// ---------------------------------------------------------------------------

/// The mathematical value of an admin update.
pub ghost struct UpdateUserV {
    pub email: Option<Seq<char>>,
    pub phc: Option<Seq<char>>,
    pub first_name: Option<Seq<char>>,
    pub last_name: Option<Seq<char>>,
    pub role: Option<int>,
    pub active: Option<bool>,
}

impl View for UpdateUser {
    type V = UpdateUserV;

    open spec fn view(&self) -> UpdateUserV {
        UpdateUserV {
            email: self.email.deep_view(),
            phc: self.phc.deep_view(),
            first_name: self.first_name.deep_view(),
            last_name: self.last_name.deep_view(),
            role: match self.role {
                Some(r) => Some(r as int),
                None => None,
            },
            active: self.active,
        }
    }
}

/// What a roleless update makes of a row: absent fields stay as they
/// were, and a supplied password is stored as the given hash.
pub open spec fn self_updated(u: UserV, upd: UpdateUserNoRoleV, hashed: Option<Seq<char>>) -> UserV {
    UserV {
        id: u.id,
        email: if upd.email is Some {
            upd.email
        } else {
            u.email
        },
        phc: if upd.phc is Some {
            hashed
        } else {
            u.phc
        },
        first_name: if upd.first_name is Some {
            upd.first_name
        } else {
            u.first_name
        },
        last_name: if upd.last_name is Some {
            upd.last_name
        } else {
            u.last_name
        },
        created: u.created,
        role: u.role,
        active: if upd.active is Some {
            upd.active
        } else {
            u.active
        },
        last_access: u.last_access,
    }
}

/// What an admin update makes of a row: like a self-update, but the role
/// may change too.
pub open spec fn admin_updated(u: UserV, upd: UpdateUserV, hashed: Option<Seq<char>>) -> UserV {
    UserV {
        id: u.id,
        email: if upd.email is Some {
            upd.email
        } else {
            u.email
        },
        phc: if upd.phc is Some {
            hashed
        } else {
            u.phc
        },
        first_name: if upd.first_name is Some {
            upd.first_name
        } else {
            u.first_name
        },
        last_name: if upd.last_name is Some {
            upd.last_name
        } else {
            u.last_name
        },
        created: u.created,
        role: match upd.role {
            Some(r) => r,
            None => u.role,
        },
        active: if upd.active is Some {
            upd.active
        } else {
            u.active
        },
        last_access: u.last_access,
    }
}

/// Updates the caller's own profile.  An empty update is a silent success;
/// a new password is hashed first; a new email that another user already
/// carries is a unique-constraint violation.  Updating a vanished user is
/// a silent success too — the storage layer reports zero rows, not an
/// error.
pub fn update_self(user: &ValidSession, updated_user: UpdateUserNoRole, db: &mut Db) -> (r: Result<
    (),
    Custom,
>)
    requires
        old(db).wf(),
    ensures
        final(db).wf(),
        final(db).posts == old(db).posts,
        final(db).tags == old(db).tags,
        final(db).post_tags == old(db).post_tags,
        final(db).roles == old(db).roles,
        final(db).next_post_id == old(db).next_post_id,
        final(db).next_tag_id == old(db).next_tag_id,
        final(db).next_post_tag_id == old(db).next_post_tag_id,
        final(db).next_user_id == old(db).next_user_id,
        r matches Err(c) ==> ((c.0 == Status::InternalServerError || c.0
            == Status::UnprocessableEntity) && *final(db) == *old(db)),
        (updated_user@.email matches Some(e) && email_on_other_user(
            old(db).users.deep_view(),
            e,
            user.id as int,
        )) ==> (r matches Err(c) && c.0 == Status::UnprocessableEntity
            && crate::models::plain_error_envelope(
            c.1,
            "UNIQUE_VIOLATION"@,
            Some("A user with this email already exists."@),
        )),
        (updated_user@.phc is None && (updated_user@.email is None || (updated_user@.email
            matches Some(e) && !email_on_other_user(
            old(db).users.deep_view(),
            e,
            user.id as int,
        )))) ==> r is Ok,
        (updated_user@.email is None && updated_user@.phc is None && updated_user@.first_name
            is None && updated_user@.last_name is None && updated_user@.active is None) ==> (
        r is Ok && *final(db) == *old(db)),
        (r is Ok && !users_contain_id(old(db).users.deep_view(), user.id as int)) ==> *final(db)
            == *old(db),
        (r is Ok && users_contain_id(old(db).users.deep_view(), user.id as int) && !(
        updated_user@.email is None && updated_user@.phc is None && updated_user@.first_name
            is None && updated_user@.last_name is None && updated_user@.active is None)) ==> exists|
            idx: int,
            h: Option<Seq<char>>,
        |
            #![trigger old(db).users.deep_view().update(idx, self_updated(old(db).users.deep_view()[idx], updated_user@, h))]
            0 <= idx < old(db).users.deep_view().len() && old(db).users.deep_view()[idx].id
                == user.id as int && (updated_user@.phc matches Some(p) ==> (h matches Some(hh)
                && pw_verifies(p, hh))) && final(db).users.deep_view() =~= old(
                db,
            ).users.deep_view().update(
                idx,
                self_updated(old(db).users.deep_view()[idx], updated_user@, h),
            ),
{
    if updated_user.is_all_none() {
        return Ok(());
    }
    match &updated_user.email {
        Some(em) => {
            if email_exists(&db.users, em, Some(user.id)) {
                return Err(
                    Custom(
                        Status::UnprocessableEntity,
                        AResponse::_422(
                            Some("A user with this email already exists.".to_owned()),
                            Some("UNIQUE_VIOLATION".to_owned()),
                            None,
                        ),
                    ),
                );
            }
        },
        None => (),
    }
    let hashed: Option<String> = match &updated_user.phc {
        Some(pass) => match get_phc(pass.clone()) {
            Ok(h) => Some(h),
            Err(_) => {
                return Err(Custom(Status::InternalServerError, AResponse::_500()));
            },
        },
        None => None,
    };
    let k = match find_user_idx(&db.users, user.id) {
        Some(k) => k,
        None => {
            return Ok(());
        },
    };
    let ghost ov = db.users.deep_view();
    let orig = db.users[k].duplicate();
    db.users[k] = User {
        id: orig.id,
        email: match updated_user.email {
            Some(e) => Some(e),
            None => orig.email,
        },
        phc: match updated_user.phc {
            Some(_) => hashed,
            None => orig.phc,
        },
        first_name: match updated_user.first_name {
            Some(f) => Some(f),
            None => orig.first_name,
        },
        last_name: match updated_user.last_name {
            Some(l) => Some(l),
            None => orig.last_name,
        },
        created: orig.created,
        role: orig.role,
        active: match updated_user.active {
            Some(a) => Some(a),
            None => orig.active,
        },
        last_access: orig.last_access,
    };
    proof {
        let nv = db.users.deep_view();
        let hv = hashed.deep_view();
        assert(nv =~= ov.update(k as int, self_updated(ov[k as int], updated_user@, hv)));
        assert forall|a: int, b: int|
            0 <= a < b < nv.len() implies (#[trigger] nv[a]).id != (#[trigger] nv[b]).id && !(
            nv[a].email is Some && nv[a].email == nv[b].email) by {
            assert(nv[a].id == ov[a].id && nv[b].id == ov[b].id);
            if a == k || b == k {
                let o = if a == k {
                    b
                } else {
                    a
                };
                assert(nv[o] == ov[o]);
                match updated_user@.email {
                    Some(e) => {
                        if ov[o].email == Some(e) {
                            assert(ov[o].id != user.id as int) by {
                                if ov[o].id == user.id as int {
                                    assert(ov[o].id == ov[k as int].id);
                                }
                            }
                            assert(email_on_other_user(ov, e, user.id as int));
                        }
                    },
                    None => {
                        assert(nv[k as int].email == ov[k as int].email);
                    },
                }
            }
        }
    }
    Ok(())
}

/// Updates any user's profile, role included (admin rank).  The same
/// hashing rule as a self-update applies, and a new email that another
/// user already carries is a unique-constraint violation.
pub fn update_user(id: i32, updated_user: UpdateUser, db: &mut Db) -> (r: Result<(), Custom>)
    requires
        old(db).wf(),
    ensures
        final(db).wf(),
        final(db).posts == old(db).posts,
        final(db).tags == old(db).tags,
        final(db).post_tags == old(db).post_tags,
        final(db).roles == old(db).roles,
        final(db).next_post_id == old(db).next_post_id,
        final(db).next_tag_id == old(db).next_tag_id,
        final(db).next_post_tag_id == old(db).next_post_tag_id,
        final(db).next_user_id == old(db).next_user_id,
        r matches Err(c) ==> ((c.0 == Status::InternalServerError || c.0
            == Status::UnprocessableEntity) && *final(db) == *old(db)),
        (updated_user@.email matches Some(e) && email_on_other_user(
            old(db).users.deep_view(),
            e,
            id as int,
        )) ==> (r matches Err(c) && c.0 == Status::UnprocessableEntity
            && crate::models::plain_error_envelope(
            c.1,
            "UNIQUE_VIOLATION"@,
            Some("A user with this email already exists."@),
        )),
        (updated_user@.phc is None && (updated_user@.email is None || (updated_user@.email
            matches Some(e) && !email_on_other_user(old(db).users.deep_view(), e, id as int))))
            ==> r is Ok,
        (r is Ok && !users_contain_id(old(db).users.deep_view(), id as int)) ==> *final(db)
            == *old(db),
        (r is Ok && users_contain_id(old(db).users.deep_view(), id as int)) ==> exists|
            idx: int,
            h: Option<Seq<char>>,
        |
            #![trigger old(db).users.deep_view().update(idx, admin_updated(old(db).users.deep_view()[idx], updated_user@, h))]
            0 <= idx < old(db).users.deep_view().len() && old(db).users.deep_view()[idx].id
                == id as int && (updated_user@.phc matches Some(p) ==> (h matches Some(hh)
                && pw_verifies(p, hh))) && final(db).users.deep_view() =~= old(
                db,
            ).users.deep_view().update(
                idx,
                admin_updated(old(db).users.deep_view()[idx], updated_user@, h),
            ),
{
    match &updated_user.email {
        Some(em) => {
            if email_exists(&db.users, em, Some(id)) {
                return Err(
                    Custom(
                        Status::UnprocessableEntity,
                        AResponse::_422(
                            Some("A user with this email already exists.".to_owned()),
                            Some("UNIQUE_VIOLATION".to_owned()),
                            None,
                        ),
                    ),
                );
            }
        },
        None => (),
    }
    let hashed: Option<String> = match &updated_user.phc {
        Some(pass) => match get_phc(pass.clone()) {
            Ok(h) => Some(h),
            Err(_) => {
                return Err(Custom(Status::InternalServerError, AResponse::_500()));
            },
        },
        None => None,
    };
    let k = match find_user_idx(&db.users, id) {
        Some(k) => k,
        None => {
            return Ok(());
        },
    };
    let ghost ov = db.users.deep_view();
    let orig = db.users[k].duplicate();
    db.users[k] = User {
        id: orig.id,
        email: match updated_user.email {
            Some(e) => Some(e),
            None => orig.email,
        },
        phc: match updated_user.phc {
            Some(_) => hashed,
            None => orig.phc,
        },
        first_name: match updated_user.first_name {
            Some(f) => Some(f),
            None => orig.first_name,
        },
        last_name: match updated_user.last_name {
            Some(l) => Some(l),
            None => orig.last_name,
        },
        created: orig.created,
        role: match updated_user.role {
            Some(ro) => ro,
            None => orig.role,
        },
        active: match updated_user.active {
            Some(a) => Some(a),
            None => orig.active,
        },
        last_access: orig.last_access,
    };
    proof {
        let nv = db.users.deep_view();
        let hv = hashed.deep_view();
        assert(nv =~= ov.update(k as int, admin_updated(ov[k as int], updated_user@, hv)));
        assert forall|a: int, b: int|
            0 <= a < b < nv.len() implies (#[trigger] nv[a]).id != (#[trigger] nv[b]).id && !(
            nv[a].email is Some && nv[a].email == nv[b].email) by {
            assert(nv[a].id == ov[a].id && nv[b].id == ov[b].id);
            if a == k || b == k {
                let o = if a == k {
                    b
                } else {
                    a
                };
                assert(nv[o] == ov[o]);
                match updated_user@.email {
                    Some(e) => {
                        if ov[o].email == Some(e) {
                            assert(ov[o].id != id as int) by {
                                if ov[o].id == id as int {
                                    assert(ov[o].id == ov[k as int].id);
                                }
                            }
                            assert(email_on_other_user(ov, e, id as int));
                        }
                    },
                    None => {
                        assert(nv[k as int].email == ov[k as int].email);
                    },
                }
            }
        }
    }
    Ok(())
}

// ---------------------------------------------------------------------------
// Creation and deletion
// ---------------------------------------------------------------------------

/// Creates a user: the password is hashed and never stored, the account
/// starts active under the next free id, a taken email is a constraint
/// violation, and the role must name an existing roles row — the schema
/// declares the reference, so an unknown role id is a semantic validation
/// failure, not a row.
pub fn add_user(new_user: CreateNewUser, db: &mut Db) -> (r: Result<(), Custom>)
    requires
        old(db).wf(),
    ensures
        final(db).wf(),
        final(db).posts == old(db).posts,
        final(db).tags == old(db).tags,
        final(db).post_tags == old(db).post_tags,
        final(db).roles == old(db).roles,
        final(db).next_post_id == old(db).next_post_id,
        final(db).next_tag_id == old(db).next_tag_id,
        final(db).next_post_tag_id == old(db).next_post_tag_id,
        r matches Err(c) ==> (*final(db) == *old(db) && (c.0 == Status::UnprocessableEntity
            || c.0 == Status::InternalServerError)),
        users_contain_email(old(db).users.deep_view(), new_user.email@) ==> (r matches Err(c)
            && c.0 == Status::UnprocessableEntity && crate::models::plain_error_envelope(
            c.1,
            "INVALID_FIELD"@,
            Some("A user with this email already exists."@),
        )),
        (!users_contain_email(old(db).users.deep_view(), new_user.email@)
            && !crate::role::roles_contain_id(old(db).roles.deep_view(), new_user.role as int))
            ==> (r matches Err(c) && c.0 == Status::UnprocessableEntity
            && crate::models::plain_error_envelope(
            c.1,
            "INVALID_FIELD"@,
            Some("The given role does not exist."@),
        )),
        (!users_contain_email(old(db).users.deep_view(), new_user.email@)
            && crate::role::roles_contain_id(old(db).roles.deep_view(), new_user.role as int))
            ==> !(r matches Err(c) && c.0 == Status::UnprocessableEntity),
        r is Ok ==> (!users_contain_email(old(db).users.deep_view(), new_user.email@)
            && crate::role::roles_contain_id(old(db).roles.deep_view(), new_user.role as int)
            && exists|
            h: Seq<char>,
        |
            #![trigger pw_verifies(new_user.pass@, h)]
            pw_verifies(new_user.pass@, h) && final(db).users.deep_view() =~= old(
                db,
            ).users.deep_view().push(
                UserV {
                    id: old(db).next_user_id as int,
                    email: Some(new_user.email@),
                    phc: Some(h),
                    first_name: new_user.first_name.deep_view(),
                    last_name: new_user.last_name.deep_view(),
                    created: None,
                    role: new_user.role as int,
                    active: Some(true),
                    last_access: None,
                },
            ) && final(db).next_user_id == old(db).next_user_id + 1),
{
    if email_exists(&db.users, &new_user.email, None) {
        return Err(
            Custom(
                Status::UnprocessableEntity,
                AResponse::_422(
                    Some("A user with this email already exists.".to_owned()),
                    Some("INVALID_FIELD".to_owned()),
                    None,
                ),
            ),
        );
    }
    if !crate::role::role_id_exists(&db.roles, new_user.role) {
        return Err(
            Custom(
                Status::UnprocessableEntity,
                AResponse::_422(
                    Some("The given role does not exist.".to_owned()),
                    Some("INVALID_FIELD".to_owned()),
                    None,
                ),
            ),
        );
    }
    let hashed = match get_phc(new_user.pass.clone()) {
        Ok(h) => h,
        Err(_) => {
            return Err(Custom(Status::InternalServerError, AResponse::_500()));
        },
    };
    if db.next_user_id == 0x7fff_ffff {
        return Err(Custom(Status::InternalServerError, AResponse::_500()));
    }
    let id = db.next_user_id;
    let ghost ov = db.users.deep_view();
    let ghost hv = hashed@;
    db.users.push(
        User {
            id,
            email: Some(new_user.email),
            phc: Some(hashed),
            first_name: new_user.first_name,
            last_name: new_user.last_name,
            created: None,
            role: new_user.role,
            active: Some(true),
            last_access: None,
        },
    );
    db.next_user_id = id + 1;
    proof {
        let nv = db.users.deep_view();
        assert(nv =~= ov.push(nv[nv.len() - 1]));
        assert forall|a: int, b: int|
            0 <= a < b < nv.len() implies (#[trigger] nv[a]).id != (#[trigger] nv[b]).id && !(
            nv[a].email is Some && nv[a].email == nv[b].email) by {
            if b == nv.len() - 1 {
                assert(nv[a] == ov[a]);
                assert(ov[a].id < id);
                if ov[a].email == nv[b].email && ov[a].email is Some {
                    assert(users_contain_email(ov, new_user.email@));
                }
            } else {
                assert(nv[a] == ov[a] && nv[b] == ov[b]);
            }
        }
        assert(pw_verifies(new_user.pass@, hv));
    }
    Ok(())
}

/// The user rows that survive deleting the one with this id.
pub open spec fn users_excluding_id(us: Seq<UserV>, id: int) -> Seq<UserV>
    decreases us.len(),
{
    if us.len() == 0 {
        seq![]
    } else {
        let rest = users_excluding_id(us.drop_last(), id);
        if us.last().id == id {
            rest
        } else {
            rest.push(us.last())
        }
    }
}

/// Deleting by id keeps every other row, drops every row with the id, and
/// keeps the table invariants; with unique ids exactly one row goes when
/// one matches.
proof fn lemma_users_excluding_id(us: Seq<UserV>, id: int)
    ensures
        forall|i: int|
            0 <= i < users_excluding_id(us, id).len() ==> (#[trigger] users_excluding_id(
                us,
                id,
            )[i]).id != id && us.contains(users_excluding_id(us, id)[i]),
        users_excluding_id(us, id).len() <= us.len(),
        !users_contain_id(us, id) ==> users_excluding_id(us, id) =~= us,
        (unique_user_ids(us) && users_contain_id(us, id)) ==> users_excluding_id(us, id).len()
            == us.len() - 1,
        (unique_user_ids(us) && crate::db::unique_user_emails(us)) ==> (unique_user_ids(
            users_excluding_id(us, id),
        ) && crate::db::unique_user_emails(users_excluding_id(us, id))),
    decreases us.len(),
{
    if us.len() > 0 {
        lemma_users_excluding_id(us.drop_last(), id);
        assert(forall|i: int| 0 <= i < us.len() - 1 ==> #[trigger] us.drop_last()[i] == us[i]);
        let rest = users_excluding_id(us.drop_last(), id);
        assert forall|i: int|
            0 <= i < users_excluding_id(us, id).len() implies (#[trigger] users_excluding_id(
            us,
            id,
        )[i]).id != id && us.contains(users_excluding_id(us, id)[i]) by {
            if i < rest.len() {
                assert(us.drop_last().contains(rest[i]));
                let w = choose|w: int| 0 <= w < us.drop_last().len() && us.drop_last()[w] == rest[i];
                assert(us[w] == rest[i]);
            } else {
                assert(users_excluding_id(us, id)[i] == us.last());
                assert(us[us.len() - 1] == us.last());
            }
        }
        if !users_contain_id(us, id) {
            assert(us.last().id != id) by {
                if us.last().id == id {
                    assert(us[us.len() - 1].id == id);
                }
            }
            assert(!users_contain_id(us.drop_last(), id)) by {
                if users_contain_id(us.drop_last(), id) {
                    let w = choose|w: int|
                        0 <= w < us.drop_last().len() && us.drop_last()[w].id == id;
                    assert(us[w].id == id);
                }
            }
        }
        if unique_user_ids(us) && users_contain_id(us, id) {
            if us.last().id == id {
                assert(!users_contain_id(us.drop_last(), id)) by {
                    if users_contain_id(us.drop_last(), id) {
                        let w = choose|w: int|
                            0 <= w < us.drop_last().len() && us.drop_last()[w].id == id;
                        assert(us[w].id == us[us.len() - 1].id);
                    }
                }
            } else {
                assert(users_contain_id(us.drop_last(), id)) by {
                    let w = choose|w: int| 0 <= w < us.len() && us[w].id == id;
                    assert(us.drop_last()[w].id == id);
                }
            }
        }
        if unique_user_ids(us) && crate::db::unique_user_emails(us) && us.last().id != id {
            assert forall|a: int, b: int|
                0 <= a < b < rest.push(us.last()).len() implies (#[trigger] rest.push(
                us.last(),
            )[a]).id != (#[trigger] rest.push(us.last())[b]).id && !(rest.push(us.last())[a].email
                is Some && rest.push(us.last())[a].email == rest.push(us.last())[b].email) by {
                if b == rest.len() {
                    assert(us.drop_last().contains(rest[a]));
                    let w = choose|w: int|
                        0 <= w < us.drop_last().len() && us.drop_last()[w] == rest[a];
                    assert(us[w] == rest[a]);
                    assert(us[us.len() - 1] == us.last());
                }
            }
        }
    }
}

/// Deletes the user with the given id: one row gone is "no content", none
/// is "not found".
pub fn delete_user(id: i32, db: &mut Db) -> (r: Result<Status, Custom>)
    requires
        old(db).wf(),
    ensures
        final(db).wf(),
        final(db).posts == old(db).posts,
        final(db).tags == old(db).tags,
        final(db).post_tags == old(db).post_tags,
        final(db).roles == old(db).roles,
        final(db).next_post_id == old(db).next_post_id,
        final(db).next_tag_id == old(db).next_tag_id,
        final(db).next_post_tag_id == old(db).next_post_tag_id,
        final(db).next_user_id == old(db).next_user_id,
        !users_contain_id(old(db).users.deep_view(), id as int) ==> (r == Ok::<Status, Custom>(
            Status::NotFound,
        ) && final(db).users.deep_view() =~= old(db).users.deep_view()),
        users_contain_id(old(db).users.deep_view(), id as int) ==> (r == Ok::<Status, Custom>(
            Status::NoContent,
        ) && final(db).users.deep_view() =~= users_excluding_id(
            old(db).users.deep_view(),
            id as int,
        ) && !users_contain_id(final(db).users.deep_view(), id as int)),
{
    let ghost ov = db.users.deep_view();
    let mut kept: Vec<User> = Vec::new();
    let mut i: usize = 0;
    while i < db.users.len()
        invariant
            *db == *old(db),
            i <= db.users@.len(),
            ov == db.users.deep_view(),
            kept@.len() <= i,
            kept.deep_view() =~= users_excluding_id(ov.take(i as int), id as int),
        decreases db.users@.len() - i,
    {
        proof {
            assert(ov.take(i + 1).drop_last() =~= ov.take(i as int));
            assert(ov.take(i + 1).last() == ov[i as int]);
        }
        if db.users[i].id != id {
            kept.push(db.users[i].duplicate());
        }
        proof {
            assert(kept.deep_view() =~= users_excluding_id(ov.take(i + 1), id as int));
        }
        i = i + 1;
    }
    proof {
        assert(ov.take(db.users@.len() as int) =~= ov);
        lemma_users_excluding_id(ov, id as int);
    }
    let count = db.users.len() - kept.len();
    db.users = kept;
    proof {
        if users_contain_id(db.users.deep_view(), id as int) {
            let w = choose|w: int|
                0 <= w < db.users.deep_view().len() && db.users.deep_view()[w].id == id as int;
            assert(db.users.deep_view()[w].id != id as int);
        }
    }
    if count == 1 {
        Ok(Status::NoContent)
    } else if count == 0 {
        Ok(Status::NotFound)
    } else {
        proof {
            assert(false);
        }
        Err(Custom(Status::InternalServerError, AResponse::_500()))
    }
}

// ---------------------------------------------------------------------------
// The session lifecycle
// ---------------------------------------------------------------------------

/// A row after a fresh login: only its last access day moved.
pub open spec fn touched(u: UserV, d: Date) -> UserV {
    UserV { last_access: Some(d), ..u }
}

/// What a granted login guarantees: the token signs the user's id, email
/// and role (under the role's stored name) with some expiry, and the only
/// change to the users table is that user's last access day, now some
/// valid calendar date.
pub open spec fn session_granted(
    oldus: Seq<UserV>,
    roles: Seq<crate::models::RoleV>,
    idx: int,
    email: Seq<char>,
    secret: Seq<u8>,
    t: Seq<char>,
    newus: Seq<UserV>,
) -> bool {
    exists|e: int, d: Date, rn: Seq<char>|
        #![trigger jwt_of(oldus[idx].id, email, oldus[idx].role, rn, e, secret), touched(oldus[idx], d)]
        0 <= e && 1 <= d.month <= 12 && 1 <= d.day <= 31 && (exists|j: int|
            0 <= j < roles.len() && (#[trigger] roles[j]).id == oldus[idx].role
                && roles[j].user_role == rn) && t == jwt_of(
            oldus[idx].id,
            email,
            oldus[idx].role,
            rn,
            e,
            secret,
        ) && newus =~= oldus.update(idx, touched(oldus[idx], d))
}

/// The index of the user carrying this email, if any.
fn find_user_by_email(users: &Vec<User>, email: &String) -> (r: Option<usize>)
    ensures
        match r {
            Some(k) => k < users.deep_view().len() && users.deep_view()[k as int].email == Some(
                email@,
            ),
            None => !users_contain_email(users.deep_view(), email@),
        },
{
    let mut i: usize = 0;
    while i < users.len()
        invariant
            i <= users.len(),
            forall|j: int|
                0 <= j < i ==> (#[trigger] users.deep_view()[j]).email != Some(email@),
        decreases users.len() - i,
    {
        let found = match &users[i].email {
            Some(e) => *e == *email,
            None => false,
        };
        if found {
            proof {
                assert(users.deep_view()[i as int].email == Some(email@));
            }
            return Some(i);
        }
        i = i + 1;
    }
    proof {
        if users_contain_email(users.deep_view(), email@) {
            let w = choose|w: int|
                0 <= w < users.deep_view().len() && users.deep_view()[w].email == Some(email@);
            assert(users.deep_view()[w].email != Some(email@));
        }
    }
    None
}

/// Logs a user in: a wrong email or a wrong password both answer
/// "unauthorized" without telling which was wrong, and no token leaves
/// this function.  On success the user's last access day is set to today
/// and the signed session token is returned for the caller to set as a
/// cookie.
pub fn start_session(login: &Login, db: &mut Db, secret: &[u8]) -> (r: Result<String, Custom>)
    requires
        old(db).wf(),
    ensures
        final(db).wf(),
        final(db).posts == old(db).posts,
        final(db).tags == old(db).tags,
        final(db).post_tags == old(db).post_tags,
        final(db).roles == old(db).roles,
        final(db).next_post_id == old(db).next_post_id,
        final(db).next_tag_id == old(db).next_tag_id,
        final(db).next_post_tag_id == old(db).next_post_tag_id,
        final(db).next_user_id == old(db).next_user_id,
        r matches Err(c) ==> (*final(db) == *old(db) && (c.0 == Status::Unauthorized || c.0
            == Status::InternalServerError)),
        r matches Err(c) ==> (c.0 == Status::Unauthorized ==> crate::models::plain_error_envelope(
            c.1,
            "UNAUTHORIZED"@,
            Some("Provided email or password was invalid."@),
        )),
        !users_contain_email(old(db).users.deep_view(), login.email@) ==> (r matches Err(c)
            && c.0 == Status::Unauthorized),
        forall|idx: int|
            (0 <= idx < old(db).users.deep_view().len() && (#[trigger] old(
                db,
            ).users.deep_view()[idx]).email == Some(login.email@) && pw_verifies(
                login.password@,
                stored_phc(old(db).users.deep_view()[idx]),
            ) && crate::role::roles_contain_id(
                old(db).roles.deep_view(),
                old(db).users.deep_view()[idx].role,
            )) ==> !(r matches Err(c) && c.0 == Status::Unauthorized),
        r is Ok ==> users_contain_email(old(db).users.deep_view(), login.email@),
        forall|idx: int|
            0 <= idx < old(db).users.deep_view().len() && (#[trigger] old(
                db,
            ).users.deep_view()[idx]).email == Some(login.email@) ==> ((!pw_verifies(
                login.password@,
                stored_phc(old(db).users.deep_view()[idx]),
            ) ==> (r matches Err(c) && c.0 == Status::Unauthorized)) && (r matches Ok(t)
                ==> session_granted(
                old(db).users.deep_view(),
                old(db).roles.deep_view(),
                idx,
                login.email@,
                secret@,
                t@,
                final(db).users.deep_view(),
            ))),
{
    let k = match find_user_by_email(&db.users, &login.email) {
        Some(k) => k,
        None => {
            return Err(
                Custom(
                    Status::Unauthorized,
                    AResponse::_401(Some("Provided email or password was invalid.".to_owned())),
                ),
            );
        },
    };
    let stored = match &db.users[k].phc {
        Some(h) => h.clone(),
        None => String::new(),
    };
    match verify_password(&login.password, &stored) {
        Ok(_) => (),
        Err(_) => {
            return Err(
                Custom(
                    Status::Unauthorized,
                    AResponse::_401(Some("Provided email or password was invalid.".to_owned())),
                ),
            );
        },
    }
    // The role name travels inside the token; a user pointing at no role
    // fails closed instead of panicking.
    let role_id = db.users[k].role;
    let mut role_name: Option<String> = None;
    let mut j: usize = 0;
    while j < db.roles.len()
        invariant
            *db == *old(db),
            j <= db.roles@.len(),
            match role_name {
                Some(rn) => exists|w: int|
                    0 <= w < db.roles.deep_view().len() && (#[trigger] db.roles.deep_view()[
                    w]).id == role_id as int && db.roles.deep_view()[w].user_role == rn@,
                None => true,
            },
        decreases db.roles@.len() - j,
    {
        if role_name.is_none() && db.roles[j].id == role_id {
            proof {
                assert(db.roles.deep_view()[j as int].id == role_id as int);
            }
            role_name = Some(db.roles[j].user_role.clone());
        }
        j = j + 1;
    }
    let rn = match role_name {
        Some(rn) => rn,
        None => {
            return Err(Custom(Status::InternalServerError, AResponse::_500()));
        },
    };
    let em = match &db.users[k].email {
        Some(e) => e.clone(),
        None => String::new(),
    };
    let uid = db.users[k].id;
    let token = match get_jwt(uid, em, role_id, rn, secret) {
        Ok(t) => t,
        Err(_) => {
            return Err(Custom(Status::InternalServerError, AResponse::_500()));
        },
    };
    let today = current_date();
    let ghost ov = db.users.deep_view();
    let orig = db.users[k].duplicate();
    db.users[k] = User {
        id: orig.id,
        email: orig.email,
        phc: orig.phc,
        first_name: orig.first_name,
        last_name: orig.last_name,
        created: orig.created,
        role: orig.role,
        active: orig.active,
        last_access: Some(today),
    };
    proof {
        let nv = db.users.deep_view();
        assert(nv =~= ov.update(k as int, touched(ov[k as int], today)));
        assert forall|a: int, b: int|
            0 <= a < b < nv.len() implies (#[trigger] nv[a]).id != (#[trigger] nv[b]).id && !(
            nv[a].email is Some && nv[a].email == nv[b].email) by {
            assert(nv[a].id == ov[a].id && nv[b].id == ov[b].id);
            assert(nv[a].email == ov[a].email && nv[b].email == ov[b].email);
        }
        assert forall|idx: int|
            0 <= idx < ov.len() && (#[trigger] ov[idx]).email == Some(login.email@) implies idx
            == k as int by {
            if idx != k as int {
                assert(ov[idx].email == ov[k as int].email);
            }
        }
    }
    Ok(token)
}

} // verus!
