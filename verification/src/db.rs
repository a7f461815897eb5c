//! The relational state the handlers operate on: the five tables, and the
//! ids that the next inserts will take.  Well-formedness pins the
//! invariants the storage schema promises: ids are unique within a table
//! and below the next free id, tag names and user emails are unique, and
//! no two join rows carry the same (post, tag) pair.

use vstd::prelude::*;

use crate::models::{BlogEntry, BlogEntryV, BlogTags, Role, RoleV, Tag, TagV, User, UserV};

verus! {

/// No two post rows share an id.
pub open spec fn unique_post_ids(s: Seq<BlogEntryV>) -> bool {
    forall|i: int, j: int| 0 <= i < j < s.len() ==> s[i].id != s[j].id
}

/// No two tag rows share an id.
pub open spec fn unique_tag_ids(s: Seq<TagV>) -> bool {
    forall|i: int, j: int| 0 <= i < j < s.len() ==> s[i].id != s[j].id
}

/// No two tag rows share a name.
pub open spec fn unique_tag_names(s: Seq<TagV>) -> bool {
    forall|i: int, j: int| 0 <= i < j < s.len() ==> s[i].name != s[j].name
}

/// No two user rows share an id.
pub open spec fn unique_user_ids(s: Seq<UserV>) -> bool {
    forall|i: int, j: int| 0 <= i < j < s.len() ==> s[i].id != s[j].id
}

/// No two user rows carry the same present email.
pub open spec fn unique_user_emails(s: Seq<UserV>) -> bool {
    forall|i: int, j: int|
        0 <= i < j < s.len() ==> !(s[i].email is Some && s[i].email == s[j].email)
}

/// No two role rows share an id.
pub open spec fn unique_role_ids(s: Seq<RoleV>) -> bool {
    forall|i: int, j: int| 0 <= i < j < s.len() ==> s[i].id != s[j].id
}

/// No two join rows share an id.
pub open spec fn unique_pt_ids(s: Seq<BlogTags>) -> bool {
    forall|i: int, j: int| 0 <= i < j < s.len() ==> s[i].id != s[j].id
}

/// No two join rows carry the same (post, tag) pair.
pub open spec fn unique_pairs(s: Seq<BlogTags>) -> bool {
    forall|i: int, j: int|
        0 <= i < j < s.len() ==> !(s[i].post_id == s[j].post_id && s[i].tag_id == s[j].tag_id)
}

/// Some post in the sequence has this id.
pub open spec fn posts_contain_id(ps: Seq<BlogEntryV>, id: int) -> bool {
    exists|i: int| 0 <= i < ps.len() && ps[i].id == id
}

/// Some tag in the sequence has this id.
pub open spec fn tags_contain_id(ts: Seq<TagV>, id: int) -> bool {
    exists|i: int| 0 <= i < ts.len() && ts[i].id == id
}

/// Some tag in the sequence has this name.
pub open spec fn tags_contain_name(ts: Seq<TagV>, name: Seq<char>) -> bool {
    exists|i: int| 0 <= i < ts.len() && ts[i].name == name
}

/// Some join row carries the pair (p, t).
pub open spec fn has_pair(s: Seq<BlogTags>, p: int, t: int) -> bool {
    exists|i: int| 0 <= i < s.len() && s[i].post_id == p && s[i].tag_id == t
}

/// The five tables, each with the id its next insert will take.
#[derive(Debug)]
pub struct Db {
    pub posts: Vec<BlogEntry>,
    pub tags: Vec<Tag>,
    pub post_tags: Vec<BlogTags>,
    pub users: Vec<User>,
    pub roles: Vec<Role>,
    pub next_post_id: i32,
    pub next_tag_id: i32,
    pub next_post_tag_id: i32,
    pub next_user_id: i32,
}

impl Db {
    /// The storage invariants: unique ids below the next free id in every
    /// table, unique tag names, unique user emails, and no duplicated
    /// (post, tag) pair in the join table.
    pub open spec fn wf(&self) -> bool {
        &&& unique_post_ids(self.posts.deep_view())
        &&& unique_tag_ids(self.tags.deep_view())
        &&& unique_tag_names(self.tags.deep_view())
        &&& unique_user_ids(self.users.deep_view())
        &&& unique_user_emails(self.users.deep_view())
        &&& unique_role_ids(self.roles.deep_view())
        &&& unique_pt_ids(self.post_tags@)
        &&& unique_pairs(self.post_tags@)
        &&& forall|i: int|
            0 <= i < self.posts.deep_view().len() ==> self.posts.deep_view()[i].id
                < self.next_post_id
        &&& forall|i: int|
            0 <= i < self.tags.deep_view().len() ==> self.tags.deep_view()[i].id
                < self.next_tag_id
        &&& forall|i: int|
            0 <= i < self.post_tags@.len() ==> self.post_tags@[i].id < self.next_post_tag_id
        &&& forall|i: int|
            0 <= i < self.users.deep_view().len() ==> self.users.deep_view()[i].id
                < self.next_user_id
    }

    /// An empty database, with inserts starting at id 1.
    pub fn new() -> (r: Db)
        ensures
            r.wf(),
            r.posts.deep_view().len() == 0,
            r.tags.deep_view().len() == 0,
            r.post_tags@.len() == 0,
            r.users.deep_view().len() == 0,
            r.roles.deep_view().len() == 0,
            r.next_post_id == 1,
            r.next_tag_id == 1,
            r.next_post_tag_id == 1,
            r.next_user_id == 1,
    {
        Db {
            posts: Vec::new(),
            tags: Vec::new(),
            post_tags: Vec::new(),
            users: Vec::new(),
            roles: Vec::new(),
            next_post_id: 1,
            next_tag_id: 1,
            next_post_tag_id: 1,
            next_user_id: 1,
        }
    }
}

} // verus!
