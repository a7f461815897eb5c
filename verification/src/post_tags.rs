//! The association manager: keeps the join table consistent with post and
//! tag lifecycles.  Deletion by selector is idempotent — removing zero rows
//! is not an error — and attaching tags to a post never duplicates a
//! (post, tag) pair: a tag that is already attached is left as it is.

use vstd::prelude::*;

use crate::db::{Db, has_pair, posts_contain_id, tags_contain_id, unique_pairs, unique_pt_ids};
use crate::models::{BlogEntry, BlogEntryV, BlogTags, Tag, TagV};

verus! {

// ---------------------------------------------------------------------------
// Deletion by selector
// ---------------------------------------------------------------------------

/// Which join rows a deletion targets: those of the given posts, those of
/// the given tags, or those pairing one of the posts with one of the tags.
#[derive(Debug)]
pub enum BelongsTo {
    Post(Vec<BlogEntry>),
    Tag(Vec<Tag>),
    PostTags((Vec<BlogEntry>, Vec<Tag>)),
}

/// The mathematical value of a deletion selector.
pub ghost enum BelongsToV {
    Post(Seq<BlogEntryV>),
    Tag(Seq<TagV>),
    PostTags(Seq<BlogEntryV>, Seq<TagV>),
}

impl View for BelongsTo {
    type V = BelongsToV;

    open spec fn view(&self) -> BelongsToV {
        match self {
            BelongsTo::Post(v) => BelongsToV::Post(v.deep_view()),
            BelongsTo::Tag(v) => BelongsToV::Tag(v.deep_view()),
            BelongsTo::PostTags(pair) => BelongsToV::PostTags(
                pair.0.deep_view(),
                pair.1.deep_view(),
            ),
        }
    }
}

/// Whether a join row is targeted by a selector.
pub open spec fn row_selected(k: BelongsToV, r: BlogTags) -> bool {
    match k {
        BelongsToV::Post(ps) => posts_contain_id(ps, r.post_id as int),
        BelongsToV::Tag(ts) => tags_contain_id(ts, r.tag_id as int),
        BelongsToV::PostTags(ps, ts) => posts_contain_id(ps, r.post_id as int)
            && tags_contain_id(ts, r.tag_id as int),
    }
}

/// The join rows a deletion leaves behind: those the selector does not
/// target, in table order.
pub open spec fn remaining(k: BelongsToV, table: Seq<BlogTags>) -> Seq<BlogTags>
    decreases table.len(),
{
    if table.len() == 0 {
        seq![]
    } else {
        let rest = remaining(k, table.drop_last());
        if row_selected(k, table.last()) {
            rest
        } else {
            rest.push(table.last())
        }
    }
}

/// After a deletion no surviving row is targeted, every surviving row was
/// in the table, and the table can only have shrunk.  In particular,
/// deleting by a post leaves no row referencing that post, and deleting by
/// a tag leaves no row referencing that tag.
pub proof fn lemma_remaining_unselected(k: BelongsToV, s: Seq<BlogTags>)
    ensures
        forall|i: int|
            0 <= i < remaining(k, s).len() ==> !row_selected(k, #[trigger] remaining(k, s)[i]),
        forall|i: int|
            0 <= i < remaining(k, s).len() ==> s.contains(#[trigger] remaining(k, s)[i]),
        remaining(k, s).len() <= s.len(),
    decreases s.len(),
{
    if s.len() > 0 {
        lemma_remaining_unselected(k, s.drop_last());
        let rest = remaining(k, s.drop_last());
        assert forall|i: int|
            0 <= i < remaining(k, s).len() implies s.contains(
            #[trigger] remaining(k, s)[i],
        ) by {
            if i < rest.len() {
                assert(s.drop_last().contains(rest[i]));
                let w = choose|w: int| 0 <= w < s.drop_last().len() && s.drop_last()[w] == rest[i];
                assert(s[w] == rest[i]);
            } else {
                assert(remaining(k, s)[i] == s.last());
                assert(s[s.len() - 1] == s.last());
            }
        }
    }
}

/// A deletion keeps the join-table invariants: surviving rows come from
/// the table, so unique ids, unique pairs, and the id bound all carry over.
pub proof fn lemma_remaining_wf(k: BelongsToV, s: Seq<BlogTags>, bound: int)
    requires
        unique_pt_ids(s),
        unique_pairs(s),
        forall|i: int| 0 <= i < s.len() ==> s[i].id < bound,
    ensures
        unique_pt_ids(remaining(k, s)),
        unique_pairs(remaining(k, s)),
        forall|i: int| 0 <= i < remaining(k, s).len() ==> remaining(k, s)[i].id < bound,
    decreases s.len(),
{
    if s.len() > 0 {
        assert(unique_pt_ids(s.drop_last())) by {
            assert(forall|i: int|
                0 <= i < s.len() - 1 ==> #[trigger] s.drop_last()[i] == s[i]);
        }
        assert(unique_pairs(s.drop_last()));
        lemma_remaining_wf(k, s.drop_last(), bound);
        lemma_remaining_unselected(k, s.drop_last());
        let rest = remaining(k, s.drop_last());
        if !row_selected(k, s.last()) {
            assert forall|i: int, j: int|
                0 <= i < j < rest.push(s.last()).len() implies rest.push(s.last())[i].id
                != rest.push(s.last())[j].id && !(rest.push(s.last())[i].post_id == rest.push(
                s.last(),
            )[j].post_id && rest.push(s.last())[i].tag_id == rest.push(s.last())[j].tag_id) by {
                if j == rest.len() {
                    assert(s.drop_last().contains(rest[i]));
                    let w = choose|w: int|
                        0 <= w < s.drop_last().len() && s.drop_last()[w] == rest[i];
                    assert(s[w] == rest[i]);
                    assert(s[s.len() - 1] == s.last());
                }
            }
        }
    }
}

/// Whether any of the given posts has this id.
fn posts_have_id(ps: &Vec<BlogEntry>, id: i32) -> (r: bool)
    ensures
        r == posts_contain_id(ps.deep_view(), id as int),
{
    let mut i: usize = 0;
    while i < ps.len()
        invariant
            i <= ps.len(),
            forall|j: int| 0 <= j < i ==> ps.deep_view()[j].id != id as int,
        decreases ps.len() - i,
    {
        if ps[i].id == id {
            proof {
                assert(ps.deep_view()[i as int].id == id as int);
            }
            return true;
        }
        i = i + 1;
    }
    false
}

/// Whether any of the given tags has this id.
fn tags_have_id(ts: &Vec<Tag>, id: i32) -> (r: bool)
    ensures
        r == tags_contain_id(ts.deep_view(), id as int),
{
    let mut i: usize = 0;
    while i < ts.len()
        invariant
            i <= ts.len(),
            forall|j: int| 0 <= j < i ==> ts.deep_view()[j].id != id as int,
        decreases ts.len() - i,
    {
        if ts[i].id == id {
            proof {
                assert(ts.deep_view()[i as int].id == id as int);
            }
            return true;
        }
        i = i + 1;
    }
    false
}

/// Whether a join row is targeted by a selector.
fn row_selected_x(k: &BelongsTo, r: &BlogTags) -> (b: bool)
    ensures
        b == row_selected(k@, *r),
{
    match k {
        BelongsTo::Post(ps) => {
            proof {
                assert(k@ == BelongsToV::Post(ps.deep_view()));
            }
            posts_have_id(ps, r.post_id)
        },
        BelongsTo::Tag(ts) => {
            proof {
                assert(k@ == BelongsToV::Tag(ts.deep_view()));
            }
            tags_have_id(ts, r.tag_id)
        },
        BelongsTo::PostTags(pair) => {
            proof {
                assert(k@ == BelongsToV::PostTags(pair.0.deep_view(), pair.1.deep_view()));
            }
            posts_have_id(&pair.0, r.post_id) && tags_have_id(&pair.1, r.tag_id)
        },
    }
}

/// Deletes every join row the selector targets and returns how many went;
/// removing zero rows is not an error.  Only the join table changes.
pub fn delete_entries(db: &mut Db, key: BelongsTo) -> (count: usize)
    ensures
        final(db).post_tags@ == remaining(key@, old(db).post_tags@),
        count == old(db).post_tags@.len() - final(db).post_tags@.len(),
        final(db).posts == old(db).posts,
        final(db).tags == old(db).tags,
        final(db).users == old(db).users,
        final(db).roles == old(db).roles,
        final(db).next_post_id == old(db).next_post_id,
        final(db).next_tag_id == old(db).next_tag_id,
        final(db).next_post_tag_id == old(db).next_post_tag_id,
        final(db).next_user_id == old(db).next_user_id,
        old(db).wf() ==> final(db).wf(),
{
    let ghost orig = db.post_tags@;
    let mut kept: Vec<BlogTags> = Vec::new();
    let mut i: usize = 0;
    while i < db.post_tags.len()
        invariant
            i <= db.post_tags@.len(),
            db.post_tags@ == orig,
            kept@.len() <= i,
            kept@ =~= remaining(key@, orig.take(i as int)),
        decreases db.post_tags@.len() - i,
    {
        proof {
            assert(orig.take(i + 1).drop_last() =~= orig.take(i as int));
            assert(orig.take(i + 1).last() == orig[i as int]);
        }
        let row = db.post_tags[i];
        if !row_selected_x(&key, &row) {
            kept.push(row);
        }
        proof {
            assert(kept@ =~= remaining(key@, orig.take(i + 1)));
        }
        i = i + 1;
    }
    proof {
        assert(orig.take(orig.len() as int) =~= orig);
        lemma_remaining_unselected(key@, orig);
        if old(db).wf() {
            lemma_remaining_wf(key@, orig, old(db).next_post_tag_id as int);
        }
    }
    let count = db.post_tags.len() - kept.len();
    db.post_tags = kept;
    count
}

// ---------------------------------------------------------------------------
// Attaching tags to a post
// ---------------------------------------------------------------------------

/// What attaching a sequence of tags to post `p` does to the join table
/// and the next free id: each tag in turn gains a row unless its pair is
/// already present.
pub open spec fn attach(pt: Seq<BlogTags>, next: int, p: int, ts: Seq<TagV>) -> (Seq<BlogTags>, int)
    decreases ts.len(),
{
    if ts.len() == 0 {
        (pt, next)
    } else {
        let prev = attach(pt, next, p, ts.drop_last());
        let t = ts.last();
        if has_pair(prev.0, p, t.id) {
            prev
        } else {
            (
                prev.0.push(
                    BlogTags { id: prev.1 as i32, post_id: p as i32, tag_id: t.id as i32 },
                ),
                prev.1 + 1,
            )
        }
    }
}

/// A pair stays present when a row is appended.
proof fn lemma_has_pair_push(s: Seq<BlogTags>, x: BlogTags, p: int, t: int)
    requires
        has_pair(s, p, t),
    ensures
        has_pair(s.push(x), p, t),
{
    let i = choose|i: int| 0 <= i < s.len() && s[i].post_id == p && s[i].tag_id == t;
    assert(s.push(x)[i].post_id == p && s.push(x)[i].tag_id == t);
}

/// What an attach guarantees: the old rows stay untouched in place, every
/// given tag ends up paired with the post, each new row pairs the post
/// with one of the given tags under a fresh id, and the join-table
/// invariants survive.  One fresh id is spent per row added.
#[verifier::rlimit(50)]
pub proof fn lemma_attach(pt: Seq<BlogTags>, next: int, p: int, ts: Seq<TagV>)
    requires
        -0x8000_0000 <= p <= 0x7fff_ffff,
        forall|k: int| 0 <= k < ts.len() ==> -0x8000_0000 <= #[trigger] ts[k].id <= 0x7fff_ffff,
        -0x8000_0000 <= next,
        next + ts.len() <= 0x8000_0000,
        unique_pt_ids(pt),
        unique_pairs(pt),
        forall|i: int| 0 <= i < pt.len() ==> pt[i].id < next,
    ensures
        ({
            let r = attach(pt, next, p, ts);
            &&& r.0.len() - pt.len() == r.1 - next
            &&& next <= r.1 <= next + ts.len()
            &&& r.0.take(pt.len() as int) == pt
            &&& forall|k: int| 0 <= k < ts.len() ==> has_pair(r.0, p, #[trigger] ts[k].id)
            &&& forall|k: int|
                pt.len() <= k < r.0.len() ==> ((#[trigger] r.0[k]).post_id == p
                    && next <= r.0[k].id < r.1
                    && exists|j: int| 0 <= j < ts.len() && ts[j].id == r.0[k].tag_id)
            &&& unique_pt_ids(r.0)
            &&& unique_pairs(r.0)
            &&& forall|i: int| 0 <= i < r.0.len() ==> (#[trigger] r.0[i]).id < r.1
        }),
    decreases ts.len(),
{
    if ts.len() > 0 {
        assert(forall|k: int|
            0 <= k < ts.len() - 1 ==> -0x8000_0000 <= #[trigger] ts.drop_last()[k].id
                <= 0x7fff_ffff);
        lemma_attach(pt, next, p, ts.drop_last());
        let prev = attach(pt, next, p, ts.drop_last());
        let t = ts.last();
        let r = attach(pt, next, p, ts);
        assert(forall|k: int| 0 <= k < ts.len() - 1 ==> #[trigger] ts[k] == ts.drop_last()[k]);
        if has_pair(prev.0, p, t.id) {
        } else {
            let nr = BlogTags { id: prev.1 as i32, post_id: p as i32, tag_id: t.id as i32 };
            assert(r.0 == prev.0.push(nr));
            assert(nr.id == prev.1 && nr.post_id == p && nr.tag_id == t.id);
            assert(r.0.take(pt.len() as int) =~= pt) by {
                assert(prev.0.take(pt.len() as int) == pt);
            }
            assert forall|k: int| 0 <= k < ts.len() implies has_pair(
                r.0,
                p,
                #[trigger] ts[k].id,
            ) by {
                if k < ts.len() - 1 {
                    assert(ts.drop_last()[k] == ts[k]);
                    lemma_has_pair_push(prev.0, nr, p, ts[k].id);
                } else {
                    assert(r.0[r.0.len() - 1] == nr);
                }
            }
            assert forall|i2: int, j2: int|
                0 <= i2 < j2 < r.0.len() implies r.0[i2].id != r.0[j2].id by {
                if j2 == r.0.len() - 1 {
                    assert(r.0[i2] == prev.0[i2]);
                    assert(prev.0[i2].id < prev.1);
                }
            }
            assert forall|i2: int, j2: int|
                0 <= i2 < j2 < r.0.len() implies !(r.0[i2].post_id == r.0[j2].post_id
                    && r.0[i2].tag_id == r.0[j2].tag_id) by {
                if j2 == r.0.len() - 1 {
                    assert(r.0[i2] == prev.0[i2]);
                    if r.0[i2].post_id == nr.post_id && r.0[i2].tag_id == nr.tag_id {
                        assert(0 <= i2 < prev.0.len() && prev.0[i2].post_id == p
                            && prev.0[i2].tag_id == t.id);
                        assert(has_pair(prev.0, p, t.id));
                    }
                }
            }
            assert forall|k: int|
                pt.len() <= k < r.0.len() implies (#[trigger] r.0[k].post_id == p
                    && next <= r.0[k].id < r.1
                    && exists|j: int| 0 <= j < ts.len() && ts[j].id == r.0[k].tag_id) by {
                if k < prev.0.len() {
                    assert((prev.0[k]).post_id == p && next <= prev.0[k].id < prev.1);
                    let j = choose|j: int|
                        0 <= j < ts.drop_last().len() && ts.drop_last()[j].id == prev.0[k].tag_id;
                    assert(ts[j].id == r.0[k].tag_id);
                } else {
                    assert(r.0[k] == nr);
                    assert(ts[ts.len() - 1].id == nr.tag_id);
                }
            }
            assert forall|i2: int| 0 <= i2 < r.0.len() implies #[trigger] r.0[i2].id < r.1 by {
                if i2 < prev.0.len() {
                    assert(prev.0[i2].id < prev.1);
                }
            }
        }
    } else {
        assert(attach(pt, next, p, ts).0.take(pt.len() as int) =~= pt);
    }
}

/// Whether some join row already carries the pair (p, t).
pub fn has_pair_x(table: &Vec<BlogTags>, p: i32, t: i32) -> (r: bool)
    ensures
        r == has_pair(table@, p as int, t as int),
{
    let mut i: usize = 0;
    while i < table.len()
        invariant
            i <= table.len(),
            forall|j: int|
                0 <= j < i ==> !(table@[j].post_id == p as int && table@[j].tag_id == t as int),
        decreases table.len() - i,
    {
        if table[i].post_id == p && table[i].tag_id == t {
            proof {
                assert(table@[i as int].post_id == p as int && table@[i as int].tag_id
                    == t as int);
            }
            return true;
        }
        i = i + 1;
    }
    false
}

/// Attaches the given tags to the last of the given posts: one join row
/// per tag whose pair is not already present, so an already-associated tag
/// never gains a duplicate row.  With no post this is a no-op returning
/// zero — the defensive default when an upstream step already reported
/// "not found".  An exhausted id space is the one failure, and leaves the
/// database untouched.  Only the join table and its next id change.
pub fn add_entries(db: &mut Db, post: Vec<BlogEntry>, tags: Vec<Tag>) -> (r: Result<usize, ()>)
    requires
        old(db).wf(),
    ensures
        final(db).posts == old(db).posts,
        final(db).tags == old(db).tags,
        final(db).users == old(db).users,
        final(db).roles == old(db).roles,
        final(db).next_post_id == old(db).next_post_id,
        final(db).next_tag_id == old(db).next_tag_id,
        final(db).next_user_id == old(db).next_user_id,
        final(db).wf(),
        post.deep_view().len() == 0 ==> r == Ok::<usize, ()>(0) && *final(db) == *old(db),
        r matches Err(_) ==> *final(db) == *old(db),
        post.deep_view().len() > 0 ==> (r matches Ok(n) ==> ({
            let att = attach(
                old(db).post_tags@,
                old(db).next_post_tag_id as int,
                post.deep_view().last().id,
                tags.deep_view(),
            );
            &&& final(db).post_tags@ == att.0
            &&& final(db).next_post_tag_id == att.1
            &&& n == att.0.len() - old(db).post_tags@.len()
        })),
        (post.deep_view().len() > 0 && old(db).next_post_tag_id as int + tags.deep_view().len()
            <= 0x7fff_ffff) ==> r is Ok,
{
    let ghost pv = post.deep_view();
    let mut post = post;
    let p = match post.pop() {
        Some(p) => p,
        None => {
            return Ok(0);
        },
    };
    proof {
        assert(p@ == pv.last());
    }

    // One fresh id per inserted row; refuse the batch when the id space
    // cannot hold it.
    let room: i64 = (0x7fff_ffffi64) - (db.next_post_tag_id as i64);
    proof {
        assert(room >= 0);
    }
    if tags.len() > (room as usize) {
        return Err(());
    }

    let ghost pt0 = db.post_tags@;
    let ghost next0 = db.next_post_tag_id as int;
    let ghost tsv = tags.deep_view();
    let old_len = db.post_tags.len();
    proof {
        assert(forall|k: int|
            0 <= k < tsv.len() ==> -0x8000_0000 <= #[trigger] tsv[k].id <= 0x7fff_ffff);
        assert(tsv.take(0) =~= Seq::<TagV>::empty());
    }
    let mut i: usize = 0;
    while i < tags.len()
        invariant
            i <= tags.len(),
            tsv == tags.deep_view(),
            p@ == pv.last(),
            pv.len() > 0,
            pt0 == old(db).post_tags@,
            next0 == old(db).next_post_tag_id as int,
            next0 + tsv.len() <= 0x7fff_ffff,
            old(db).wf(),
            (db.post_tags@, db.next_post_tag_id as int) == attach(
                pt0,
                next0,
                p@.id,
                tsv.take(i as int),
            ),
            db.post_tags@.len() >= old_len,
            old_len == pt0.len(),
            db.posts == old(db).posts,
            db.tags == old(db).tags,
            db.users == old(db).users,
            db.roles == old(db).roles,
            db.next_post_id == old(db).next_post_id,
            db.next_tag_id == old(db).next_tag_id,
            db.next_user_id == old(db).next_user_id,
        decreases tags.len() - i,
    {
        proof {
            assert(tsv.take(i + 1).drop_last() =~= tsv.take(i as int));
            assert(tsv.take(i + 1).last() == tsv[i as int]);
            assert(forall|k: int|
                0 <= k < i ==> -0x8000_0000 <= #[trigger] tsv.take(i as int)[k].id
                    <= 0x7fff_ffff);
            lemma_attach(pt0, next0, p@.id, tsv.take(i as int));
        }
        if !has_pair_x(&db.post_tags, p.id, tags[i].id) {
            proof {
                assert(tags.deep_view()[i as int].id == tags@[i as int]@.id);
            }
            let row = BlogTags { id: db.next_post_tag_id, post_id: p.id, tag_id: tags[i].id };
            db.post_tags.push(row);
            db.next_post_tag_id = db.next_post_tag_id + 1;
        }
        i = i + 1;
    }
    proof {
        assert(tsv.take(tags@.len() as int) =~= tsv);
        lemma_attach(pt0, next0, p@.id, tsv);
    }
    Ok(db.post_tags.len() - old_len)
}

} // verus!
