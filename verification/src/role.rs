//! Role management: listing, fetching, creating, updating and deleting
//! role rows.  A role's id is supplied by the caller, so creation and
//! renumbering must respect id uniqueness; a violation is surfaced as an
//! internal error, as the storage layer would report it.

use vstd::prelude::*;

use crate::db::{Db, unique_role_ids};
use crate::models::{AResponse, Custom, Role, RoleV, Status};

verus! {

impl Role {
    /// A row holding the same id and name.
    pub fn duplicate(&self) -> (r: Role)
        ensures
            r@ == self@,
    {
        Role { id: self.id, user_role: self.user_role.clone() }
    }
}

/// Some role in the sequence has this id.
pub open spec fn roles_contain_id(rs: Seq<RoleV>, id: int) -> bool {
    exists|i: int| 0 <= i < rs.len() && rs[i].id == id
}

/// The role rows carrying this id, in table order.
pub open spec fn roles_with_id(rs: Seq<RoleV>, id: int) -> Seq<RoleV>
    decreases rs.len(),
{
    if rs.len() == 0 {
        seq![]
    } else {
        let rest = roles_with_id(rs.drop_last(), id);
        if rs.last().id == id {
            rest.push(rs.last())
        } else {
            rest
        }
    }
}

/// The role rows that survive deleting the ones with this id.
pub open spec fn roles_excluding_id(rs: Seq<RoleV>, id: int) -> Seq<RoleV>
    decreases rs.len(),
{
    if rs.len() == 0 {
        seq![]
    } else {
        let rest = roles_excluding_id(rs.drop_last(), id);
        if rs.last().id == id {
            rest
        } else {
            rest.push(rs.last())
        }
    }
}

/// Deleting by id keeps every other row, drops every row with the id, and
/// keeps id uniqueness.
proof fn lemma_roles_excluding_id(rs: Seq<RoleV>, id: int)
    ensures
        forall|i: int|
            0 <= i < roles_excluding_id(rs, id).len() ==> (#[trigger] roles_excluding_id(
                rs,
                id,
            )[i]).id != id && rs.contains(roles_excluding_id(rs, id)[i]),
        roles_excluding_id(rs, id).len() <= rs.len(),
        unique_role_ids(rs) ==> unique_role_ids(roles_excluding_id(rs, id)),
    decreases rs.len(),
{
    if rs.len() > 0 {
        lemma_roles_excluding_id(rs.drop_last(), id);
        assert(forall|i: int| 0 <= i < rs.len() - 1 ==> #[trigger] rs.drop_last()[i] == rs[i]);
        let rest = roles_excluding_id(rs.drop_last(), id);
        assert forall|i: int|
            0 <= i < roles_excluding_id(rs, id).len() implies (#[trigger] roles_excluding_id(
            rs,
            id,
        )[i]).id != id && rs.contains(roles_excluding_id(rs, id)[i]) by {
            if i < rest.len() {
                assert(rs.drop_last().contains(rest[i]));
                let w = choose|w: int| 0 <= w < rs.drop_last().len() && rs.drop_last()[w] == rest[i];
                assert(rs[w] == rest[i]);
            } else {
                assert(roles_excluding_id(rs, id)[i] == rs.last());
                assert(rs[rs.len() - 1] == rs.last());
            }
        }
        if unique_role_ids(rs) && rs.last().id != id {
            assert forall|a: int, b: int|
                0 <= a < b < rest.push(rs.last()).len() implies (#[trigger] rest.push(
                rs.last(),
            )[a]).id != (#[trigger] rest.push(rs.last())[b]).id by {
                if b == rest.len() {
                    assert(rs.drop_last().contains(rest[a]));
                    let w = choose|w: int|
                        0 <= w < rs.drop_last().len() && rs.drop_last()[w] == rest[a];
                    assert(rs[w] == rest[a]);
                    assert(rs[rs.len() - 1] == rs.last());
                }
            }
        }
    }
}

/// Whether some role already carries this id.
pub(crate) fn role_id_exists(roles: &Vec<Role>, id: i32) -> (r: bool)
    ensures
        r == roles_contain_id(roles.deep_view(), id as int),
{
    let mut i: usize = 0;
    while i < roles.len()
        invariant
            i <= roles.len(),
            forall|j: int| 0 <= j < i ==> (#[trigger] roles.deep_view()[j]).id != id as int,
        decreases roles.len() - i,
    {
        if roles[i].id == id {
            proof {
                assert(roles.deep_view()[i as int].id == id as int);
            }
            return true;
        }
        i = i + 1;
    }
    false
}

/// Lists at most the first hundred role rows.
pub fn get_roles(db: &Db) -> (r: Vec<Role>)
    ensures
        db.roles.deep_view().len() <= 100 ==> r.deep_view() =~= db.roles.deep_view(),
        db.roles.deep_view().len() > 100 ==> r.deep_view() =~= db.roles.deep_view().take(100),
{
    let n: usize = if db.roles.len() > 100 {
        100
    } else {
        db.roles.len()
    };
    let mut out: Vec<Role> = Vec::new();
    let mut i: usize = 0;
    while i < n
        invariant
            i <= n <= db.roles@.len(),
            out.deep_view() =~= db.roles.deep_view().take(i as int),
        decreases n - i,
    {
        out.push(db.roles[i].duplicate());
        proof {
            assert(db.roles.deep_view().take(i + 1) =~= db.roles.deep_view().take(
                i as int,
            ).push(db.roles.deep_view()[i as int]));
        }
        i = i + 1;
    }
    proof {
        if db.roles.deep_view().len() <= 100 {
            assert(db.roles.deep_view().take(n as int) =~= db.roles.deep_view());
        }
    }
    out
}

/// The role rows carrying the given id.
pub fn get_role(id: i32, db: &Db) -> (r: Vec<Role>)
    ensures
        r.deep_view() =~= roles_with_id(db.roles.deep_view(), id as int),
{
    let ghost rv = db.roles.deep_view();
    let mut out: Vec<Role> = Vec::new();
    let mut i: usize = 0;
    while i < db.roles.len()
        invariant
            i <= db.roles@.len(),
            rv == db.roles.deep_view(),
            out.deep_view() =~= roles_with_id(rv.take(i as int), id as int),
        decreases db.roles@.len() - i,
    {
        proof {
            assert(rv.take(i + 1).drop_last() =~= rv.take(i as int));
            assert(rv.take(i + 1).last() == rv[i as int]);
        }
        if db.roles[i].id == id {
            out.push(db.roles[i].duplicate());
        }
        proof {
            assert(out.deep_view() =~= roles_with_id(rv.take(i + 1), id as int));
        }
        i = i + 1;
    }
    proof {
        assert(rv.take(db.roles@.len() as int) =~= rv);
    }
    out
}

/// Creates a role under the id the caller supplied.  A taken id is an id
/// uniqueness violation, surfaced as an internal error.  Returns the
/// number of rows inserted.
pub fn new_role(new_entry: Role, db: &mut Db) -> (r: Result<usize, Custom>)
    requires
        old(db).wf(),
    ensures
        final(db).wf(),
        final(db).posts == old(db).posts,
        final(db).tags == old(db).tags,
        final(db).post_tags == old(db).post_tags,
        final(db).users == old(db).users,
        final(db).next_post_id == old(db).next_post_id,
        final(db).next_tag_id == old(db).next_tag_id,
        final(db).next_post_tag_id == old(db).next_post_tag_id,
        final(db).next_user_id == old(db).next_user_id,
        roles_contain_id(old(db).roles.deep_view(), new_entry.id as int) ==> (r matches Err(c)
            && c.0 == Status::InternalServerError && *final(db) == *old(db)),
        !roles_contain_id(old(db).roles.deep_view(), new_entry.id as int) ==> (r == Ok::<
            usize,
            Custom,
        >(1) && final(db).roles.deep_view() =~= old(db).roles.deep_view().push(new_entry@)),
{
    if role_id_exists(&db.roles, new_entry.id) {
        return Err(Custom(Status::InternalServerError, AResponse::_500()));
    }
    let ghost ov = db.roles.deep_view();
    let ghost nid = new_entry.id as int;
    db.roles.push(new_entry);
    proof {
        let nv = db.roles.deep_view();
        assert(nv =~= ov.push(nv[nv.len() - 1]));
        assert forall|a: int, b: int| 0 <= a < b < nv.len() implies (#[trigger] nv[a]).id
            != (#[trigger] nv[b]).id by {
            if b == nv.len() - 1 {
                assert(nv[a] == ov[a]);
                if ov[a].id == nid {
                    assert(roles_contain_id(ov, nid));
                }
            } else {
                assert(nv[a] == ov[a] && nv[b] == ov[b]);
            }
        }
    }
    Ok(1)
}

/// Renumbers or renames the role with the given id.  Updating no rows is
/// not an error; moving the role onto a taken id is an id uniqueness
/// violation, surfaced as an internal error.  Returns the number of rows
/// updated.
pub fn update_role(id: i32, new_entry: Role, db: &mut Db) -> (r: Result<usize, Custom>)
    requires
        old(db).wf(),
    ensures
        final(db).wf(),
        final(db).posts == old(db).posts,
        final(db).tags == old(db).tags,
        final(db).post_tags == old(db).post_tags,
        final(db).users == old(db).users,
        final(db).next_post_id == old(db).next_post_id,
        final(db).next_tag_id == old(db).next_tag_id,
        final(db).next_post_tag_id == old(db).next_post_tag_id,
        final(db).next_user_id == old(db).next_user_id,
        r matches Err(_) ==> *final(db) == *old(db),
        !roles_contain_id(old(db).roles.deep_view(), id as int) ==> (r == Ok::<usize, Custom>(0)
            && *final(db) == *old(db)),
        (roles_contain_id(old(db).roles.deep_view(), id as int) && new_entry.id != id
            && roles_contain_id(old(db).roles.deep_view(), new_entry.id as int)) ==> (
        r matches Err(c) && c.0 == Status::InternalServerError),
        (roles_contain_id(old(db).roles.deep_view(), id as int) && (new_entry.id == id
            || !roles_contain_id(old(db).roles.deep_view(), new_entry.id as int))) ==> (r == Ok::<
            usize,
            Custom,
        >(1) && exists|idx: int|
            0 <= idx < old(db).roles.deep_view().len() && (#[trigger] old(
                db,
            ).roles.deep_view()[idx]).id == id as int && final(db).roles.deep_view() =~= old(
                db,
            ).roles.deep_view().update(idx, new_entry@)),
{
    let ghost ov = db.roles.deep_view();
    let mut i: usize = 0;
    let mut found: Option<usize> = None;
    while i < db.roles.len()
        invariant
            *db == *old(db),
            i <= db.roles@.len(),
            ov == db.roles.deep_view(),
            match found {
                Some(k) => k < i && ov[k as int].id == id as int,
                None => forall|j: int| 0 <= j < i ==> (#[trigger] ov[j]).id != id as int,
            },
        decreases db.roles@.len() - i,
    {
        if found.is_none() && db.roles[i].id == id {
            proof {
                assert(ov[i as int].id == id as int);
            }
            found = Some(i);
        }
        i = i + 1;
    }
    let idx = match found {
        Some(k) => k,
        None => {
            return Ok(0);
        },
    };
    proof {
        assert(roles_contain_id(ov, id as int));
    }
    if new_entry.id != id && role_id_exists(&db.roles, new_entry.id) {
        return Err(Custom(Status::InternalServerError, AResponse::_500()));
    }
    let ghost nid = new_entry.id as int;
    db.roles[idx] = new_entry;
    proof {
        let nv = db.roles.deep_view();
        assert(nv =~= ov.update(idx as int, nv[idx as int]));
        assert forall|a: int, b: int| 0 <= a < b < nv.len() implies (#[trigger] nv[a]).id
            != (#[trigger] nv[b]).id by {
            if a == idx || b == idx {
                let o = if a == idx {
                    b
                } else {
                    a
                };
                assert(nv[o] == ov[o]);
                if nid == id as int {
                    assert(ov[o].id != id as int);
                } else {
                    if ov[o].id == nid {
                        assert(roles_contain_id(ov, nid));
                    }
                }
            }
        }
    }
    Ok(1)
}

/// Deletes the role rows carrying the given id; removing zero rows is not
/// an error.  Returns the number of rows removed.
pub fn delete_role(id: i32, db: &mut Db) -> (r: usize)
    requires
        old(db).wf(),
    ensures
        final(db).wf(),
        final(db).posts == old(db).posts,
        final(db).tags == old(db).tags,
        final(db).post_tags == old(db).post_tags,
        final(db).users == old(db).users,
        final(db).next_post_id == old(db).next_post_id,
        final(db).next_tag_id == old(db).next_tag_id,
        final(db).next_post_tag_id == old(db).next_post_tag_id,
        final(db).next_user_id == old(db).next_user_id,
        final(db).roles.deep_view() =~= roles_excluding_id(old(db).roles.deep_view(), id as int),
        r == old(db).roles.deep_view().len() - final(db).roles.deep_view().len(),
{
    let ghost ov = db.roles.deep_view();
    let mut kept: Vec<Role> = Vec::new();
    let mut i: usize = 0;
    while i < db.roles.len()
        invariant
            *db == *old(db),
            i <= db.roles@.len(),
            ov == db.roles.deep_view(),
            kept@.len() <= i,
            kept.deep_view() =~= roles_excluding_id(ov.take(i as int), id as int),
        decreases db.roles@.len() - i,
    {
        proof {
            assert(ov.take(i + 1).drop_last() =~= ov.take(i as int));
            assert(ov.take(i + 1).last() == ov[i as int]);
        }
        if db.roles[i].id != id {
            kept.push(db.roles[i].duplicate());
        }
        proof {
            assert(kept.deep_view() =~= roles_excluding_id(ov.take(i + 1), id as int));
        }
        i = i + 1;
    }
    proof {
        assert(ov.take(db.roles@.len() as int) =~= ov);
        lemma_roles_excluding_id(ov, id as int);
    }
    let count = db.roles.len() - kept.len();
    db.roles = kept;
    count
}

} // verus!
