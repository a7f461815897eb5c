//! The query compiler for the tag table: validated filter tokens, compiled
//! conditions, and the executable query over a sequence of tag rows.
//!
//! Within and across operator buckets, conditions are alternatives: a row is
//! returned when any condition matches it (and every row is, when no token
//! survived validation).  An unparseable or unknown token silently drops
//! that one condition rather than failing the whole request.

use vstd::prelude::*;

use crate::db::{Db, tags_contain_id, tags_contain_name, unique_tag_ids, unique_tag_names};
use crate::models::{
    AResponse, BlogTags, Custom, ErrorDetail, Filters, FiltersV, QParams, QParamsV, QueryError,
    Status, Tag, TagV, spec_calculate_limit,
};
use crate::text::{
    Cmp, chars_eq_str, chars_le, chars_string, cmp_chars, dec_chars_i64, dec_str, find_char,
    find_char_x, like_match, like_match_x, lower, lower_chars, parse_i32, parse_i32_x, str_chars,
    subvec,
};

verus! {

impl DeepView for Tag {
    type V = TagV;

    open spec fn deep_view(&self) -> TagV {
        self@
    }
}

impl Tag {
    /// A row holding the same id and name.
    pub fn duplicate(&self) -> (r: Tag)
        ensures
            r@ == self@,
    {
        Tag { id: self.id, name: self.name.clone() }
    }
}

// ---------------------------------------------------------------------------
// Token validation
// ---------------------------------------------------------------------------

/// A validated `"field=value"` token for the tag table, with its typed
/// value.
#[derive(Debug, PartialEq, Clone)]
pub enum TagFields {
    Id(i32),
    Name(String),
}

/// The mathematical value of a validated tag token.
pub ghost enum TagFieldsV {
    Id(int),
    Name(Seq<char>),
}

impl View for TagFields {
    type V = TagFieldsV;

    open spec fn view(&self) -> TagFieldsV {
        match self {
            TagFields::Id(n) => TagFieldsV::Id(*n as int),
            TagFields::Name(s) => TagFieldsV::Name(s@),
        }
    }
}

/// What validation makes of a raw token: the part before the first `=` is
/// the field (case-folded), the rest is the value, converted to the field's
/// type.  A token without `=`, with an unknown field, or with a value that
/// does not convert, is dropped.
pub open spec fn spec_validation(qp: Seq<char>) -> Option<TagFieldsV> {
    match find_char(qp, '=') {
        None => None,
        Some(i) => {
            let k = lower(qp.take(i));
            let v = qp.skip(i + 1);
            if k == "id"@ {
                match parse_i32(v) {
                    Some(n) => Some(TagFieldsV::Id(n)),
                    None => None,
                }
            } else if k == "name"@ {
                Some(TagFieldsV::Name(v))
            } else {
                None
            }
        },
    }
}

/// Validates one raw filter token for the tag table.
pub fn validation(qp: String) -> (r: Option<TagFields>)
    ensures
        match r {
            Some(f) => spec_validation(qp@) == Some(f@),
            None => spec_validation(qp@) is None,
        },
{
    let cs = str_chars(qp.as_str());
    match find_char_x(&cs, '=') {
        None => None,
        Some(i) => {
            proof {
                crate::text::lemma_find_char(cs@, '=');
            }
            let key = subvec(&cs, 0, i);
            let key = lower_chars(&key);
            let val = subvec(&cs, i + 1, cs.len());
            proof {
                assert(cs@.subrange(0, i as int) =~= cs@.take(i as int));
                assert(cs@.subrange(i + 1, cs@.len() as int) =~= cs@.skip(i + 1));
            }
            if chars_eq_str(&key, "id") {
                match parse_i32_x(&val) {
                    Some(n) => Some(TagFields::Id(n)),
                    None => None,
                }
            } else if chars_eq_str(&key, "name") {
                Some(TagFields::Name(chars_string(&val)))
            } else {
                None
            }
        },
    }
}

// ---------------------------------------------------------------------------
// Compiled conditions
// ---------------------------------------------------------------------------

/// One compiled comparison against the tag table.
#[derive(Debug, PartialEq, Clone)]
pub enum TagCond {
    EqId(i32),
    EqName(String),
    GeId(i32),
    GeName(String),
    LeId(i32),
    LeName(String),
    LikeName(String),
    BetweenId(i32, i32),
    BetweenName(String, String),
}

/// The mathematical value of a compiled tag condition.
pub ghost enum TagCondV {
    EqId(int),
    EqName(Seq<char>),
    GeId(int),
    GeName(Seq<char>),
    LeId(int),
    LeName(Seq<char>),
    LikeName(Seq<char>),
    BetweenId(int, int),
    BetweenName(Seq<char>, Seq<char>),
}

impl View for TagCond {
    type V = TagCondV;

    open spec fn view(&self) -> TagCondV {
        match self {
            TagCond::EqId(n) => TagCondV::EqId(*n as int),
            TagCond::EqName(s) => TagCondV::EqName(s@),
            TagCond::GeId(n) => TagCondV::GeId(*n as int),
            TagCond::GeName(s) => TagCondV::GeName(s@),
            TagCond::LeId(n) => TagCondV::LeId(*n as int),
            TagCond::LeName(s) => TagCondV::LeName(s@),
            TagCond::LikeName(s) => TagCondV::LikeName(s@),
            TagCond::BetweenId(a, b) => TagCondV::BetweenId(*a as int, *b as int),
            TagCond::BetweenName(a, b) => TagCondV::BetweenName(a@, b@),
        }
    }
}

impl DeepView for TagCond {
    type V = TagCondV;

    open spec fn deep_view(&self) -> TagCondV {
        self@
    }
}

/// The condition one equality token compiles to, if any.
pub open spec fn eq_cond(s: Seq<char>) -> Option<TagCondV> {
    match spec_validation(s) {
        Some(TagFieldsV::Id(n)) => Some(TagCondV::EqId(n)),
        Some(TagFieldsV::Name(nm)) => Some(TagCondV::EqName(nm)),
        None => None,
    }
}

/// The condition one greater-or-equal token compiles to, if any.
pub open spec fn ge_cond(s: Seq<char>) -> Option<TagCondV> {
    match spec_validation(s) {
        Some(TagFieldsV::Id(n)) => Some(TagCondV::GeId(n)),
        Some(TagFieldsV::Name(nm)) => Some(TagCondV::GeName(nm)),
        None => None,
    }
}

/// The condition one less-or-equal token compiles to, if any.
pub open spec fn le_cond(s: Seq<char>) -> Option<TagCondV> {
    match spec_validation(s) {
        Some(TagFieldsV::Id(n)) => Some(TagCondV::LeId(n)),
        Some(TagFieldsV::Name(nm)) => Some(TagCondV::LeName(nm)),
        None => None,
    }
}

/// The condition one pattern token compiles to, if any: only the name field
/// takes a pattern.
pub open spec fn like_cond(s: Seq<char>) -> Option<TagCondV> {
    match find_char(s, '=') {
        None => None,
        Some(i) => {
            if lower(s.take(i)) == "name"@ {
                Some(TagCondV::LikeName(s.skip(i + 1)))
            } else {
                None
            }
        },
    }
}

/// The condition one between token compiles to, if any: the value must be a
/// comma-separated pair, and for the id field both sides must parse; if
/// either side fails, the whole condition is dropped.
pub open spec fn between_cond(s: Seq<char>) -> Option<TagCondV> {
    match find_char(s, '=') {
        None => None,
        Some(i) => {
            let k = lower(s.take(i));
            let v = s.skip(i + 1);
            match find_char(v, ',') {
                None => None,
                Some(j) => {
                    let lo = v.take(j);
                    let hi = v.skip(j + 1);
                    if k == "id"@ {
                        match parse_i32(lo) {
                            Some(a) => match parse_i32(hi) {
                                Some(b) => Some(TagCondV::BetweenId(a, b)),
                                None => None,
                            },
                            None => None,
                        }
                    } else if k == "name"@ {
                        Some(TagCondV::BetweenName(lo, hi))
                    } else {
                        None
                    }
                },
            }
        },
    }
}

/// The conditions a bucket of equality tokens compiles to, in order,
/// dropped tokens omitted.
pub open spec fn eq_conds(tokens: Seq<Seq<char>>) -> Seq<TagCondV>
    decreases tokens.len(),
{
    if tokens.len() == 0 {
        seq![]
    } else {
        let rest = eq_conds(tokens.drop_last());
        match eq_cond(tokens.last()) {
            Some(c) => rest.push(c),
            None => rest,
        }
    }
}

/// The conditions a bucket of greater-or-equal tokens compiles to.
pub open spec fn ge_conds(tokens: Seq<Seq<char>>) -> Seq<TagCondV>
    decreases tokens.len(),
{
    if tokens.len() == 0 {
        seq![]
    } else {
        let rest = ge_conds(tokens.drop_last());
        match ge_cond(tokens.last()) {
            Some(c) => rest.push(c),
            None => rest,
        }
    }
}

/// The conditions a bucket of less-or-equal tokens compiles to.
pub open spec fn le_conds(tokens: Seq<Seq<char>>) -> Seq<TagCondV>
    decreases tokens.len(),
{
    if tokens.len() == 0 {
        seq![]
    } else {
        let rest = le_conds(tokens.drop_last());
        match le_cond(tokens.last()) {
            Some(c) => rest.push(c),
            None => rest,
        }
    }
}

/// The conditions a bucket of pattern tokens compiles to.
pub open spec fn like_conds(tokens: Seq<Seq<char>>) -> Seq<TagCondV>
    decreases tokens.len(),
{
    if tokens.len() == 0 {
        seq![]
    } else {
        let rest = like_conds(tokens.drop_last());
        match like_cond(tokens.last()) {
            Some(c) => rest.push(c),
            None => rest,
        }
    }
}

/// The conditions a bucket of between tokens compiles to.
pub open spec fn between_conds(tokens: Seq<Seq<char>>) -> Seq<TagCondV>
    decreases tokens.len(),
{
    if tokens.len() == 0 {
        seq![]
    } else {
        let rest = between_conds(tokens.drop_last());
        match between_cond(tokens.last()) {
            Some(c) => rest.push(c),
            None => rest,
        }
    }
}

/// Every condition a filter set compiles to, bucket by bucket.
pub open spec fn tag_conds(f: FiltersV) -> Seq<TagCondV> {
    eq_conds(f.eq) + ge_conds(f.ge) + le_conds(f.le) + like_conds(f.like) + between_conds(
        f.between,
    )
}

// ---------------------------------------------------------------------------
// Condition evaluation
// ---------------------------------------------------------------------------

/// Whether one condition holds of a row.  Name order and patterns compare
/// by code point, case-sensitively.
pub open spec fn cond_matches(c: TagCondV, t: TagV) -> bool {
    match c {
        TagCondV::EqId(n) => t.id == n,
        TagCondV::EqName(s) => t.name == s,
        TagCondV::GeId(n) => t.id >= n,
        TagCondV::GeName(s) => chars_le(s, t.name),
        TagCondV::LeId(n) => t.id <= n,
        TagCondV::LeName(s) => chars_le(t.name, s),
        TagCondV::LikeName(p) => like_match(p, t.name),
        TagCondV::BetweenId(a, b) => a <= t.id && t.id <= b,
        TagCondV::BetweenName(a, b) => chars_le(a, t.name) && chars_le(t.name, b),
    }
}

/// Whether a row is kept: with no surviving condition every row is kept (a
/// query without conditions has no restriction); otherwise some condition
/// must match.
pub open spec fn row_matches(conds: Seq<TagCondV>, t: TagV) -> bool {
    conds.len() == 0 || exists|i: int| 0 <= i < conds.len() && cond_matches(conds[i], t)
}

/// The rows of `table` that the conditions keep, in table order.
pub open spec fn tag_filtered(conds: Seq<TagCondV>, table: Seq<TagV>) -> Seq<TagV>
    decreases table.len(),
{
    if table.len() == 0 {
        seq![]
    } else {
        let rest = tag_filtered(conds, table.drop_last());
        if row_matches(conds, table.last()) {
            rest.push(table.last())
        } else {
            rest
        }
    }
}

/// Whether one condition holds of a row.
pub fn cond_matches_x(c: &TagCond, t: &Tag) -> (r: bool)
    ensures
        r == cond_matches(c@, t@),
{
    match c {
        TagCond::EqId(n) => t.id == *n,
        TagCond::EqName(s) => t.name == *s,
        TagCond::GeId(n) => t.id >= *n,
        TagCond::GeName(s) => {
            let a = str_chars(s.as_str());
            let b = str_chars(t.name.as_str());
            crate::text::cmp_chars_x(&a, &b) != Cmp::Greater
        },
        TagCond::LeId(n) => t.id <= *n,
        TagCond::LeName(s) => {
            let a = str_chars(t.name.as_str());
            let b = str_chars(s.as_str());
            crate::text::cmp_chars_x(&a, &b) != Cmp::Greater
        },
        TagCond::LikeName(p) => {
            let pv = str_chars(p.as_str());
            let tv = str_chars(t.name.as_str());
            like_match_x(&pv, &tv)
        },
        TagCond::BetweenId(a, b) => *a <= t.id && t.id <= *b,
        TagCond::BetweenName(a, b) => {
            let av = str_chars(a.as_str());
            let bv = str_chars(b.as_str());
            let tv = str_chars(t.name.as_str());
            crate::text::cmp_chars_x(&av, &tv) != Cmp::Greater && crate::text::cmp_chars_x(
                &tv,
                &bv,
            ) != Cmp::Greater
        },
    }
}

/// Whether any condition holds of the row (or none was supplied).
pub fn row_matches_x(conds: &Vec<TagCond>, t: &Tag) -> (r: bool)
    ensures
        r == row_matches(conds.deep_view(), t@),
{
    if conds.len() == 0 {
        return true;
    }
    let mut i: usize = 0;
    while i < conds.len()
        invariant
            i <= conds.len(),
            forall|j: int| 0 <= j < i ==> !cond_matches(conds.deep_view()[j], t@),
        decreases conds.len() - i,
    {
        if cond_matches_x(&conds[i], t) {
            proof {
                assert(cond_matches(conds.deep_view()[i as int], t@));
            }
            return true;
        }
        i = i + 1;
    }
    false
}

// ---------------------------------------------------------------------------
// Sort keys
// ---------------------------------------------------------------------------

/// A recognized order token for the tag table.
#[derive(Clone, Copy, PartialEq, Eq, Structural, Debug)]
pub enum TagKey {
    IdAsc,
    IdDesc,
    NameAsc,
    NameDesc,
}

/// The sort key one order token denotes, if any; unrecognized tokens are
/// ignored.  Order tokens are matched exactly, not case-folded.
pub open spec fn tag_key(s: Seq<char>) -> Option<TagKey> {
    if s == "id"@ {
        Some(TagKey::IdAsc)
    } else if s == "-id"@ {
        Some(TagKey::IdDesc)
    } else if s == "name"@ {
        Some(TagKey::NameAsc)
    } else if s == "-name"@ {
        Some(TagKey::NameDesc)
    } else {
        None
    }
}

/// The sort keys an order list denotes, in caller order: later entries are
/// secondary keys.
pub open spec fn tag_keys(order: Seq<Seq<char>>) -> Seq<TagKey>
    decreases order.len(),
{
    if order.len() == 0 {
        seq![]
    } else {
        let rest = tag_keys(order.drop_last());
        match tag_key(order.last()) {
            Some(k) => rest.push(k),
            None => rest,
        }
    }
}

/// Reverses a comparison outcome.
pub open spec fn flip(c: Cmp) -> Cmp {
    match c {
        Cmp::Less => Cmp::Greater,
        Cmp::Equal => Cmp::Equal,
        Cmp::Greater => Cmp::Less,
    }
}

/// Three-way integer comparison.
pub open spec fn int_cmp(a: int, b: int) -> Cmp {
    if a < b {
        Cmp::Less
    } else if a == b {
        Cmp::Equal
    } else {
        Cmp::Greater
    }
}

/// How one sort key orders two rows.
pub open spec fn key_cmp(k: TagKey, a: TagV, b: TagV) -> Cmp {
    match k {
        TagKey::IdAsc => int_cmp(a.id, b.id),
        TagKey::IdDesc => flip(int_cmp(a.id, b.id)),
        TagKey::NameAsc => cmp_chars(a.name, b.name),
        TagKey::NameDesc => flip(cmp_chars(a.name, b.name)),
    }
}

/// How a key list orders two rows: the first key that distinguishes them
/// decides.
pub open spec fn keys_cmp(keys: Seq<TagKey>, a: TagV, b: TagV) -> Cmp
    decreases keys.len(),
{
    if keys.len() == 0 {
        Cmp::Equal
    } else if key_cmp(keys[0], a, b) == Cmp::Equal {
        keys_cmp(keys.drop_first(), a, b)
    } else {
        key_cmp(keys[0], a, b)
    }
}

/// Where a stable insertion puts `x`: after every row that does not compare
/// greater, so rows that compare equal keep their earlier place.
pub open spec fn sort_insert(s: Seq<TagV>, x: TagV, keys: Seq<TagKey>) -> Seq<TagV>
    decreases s.len(),
{
    if s.len() == 0 {
        seq![x]
    } else if keys_cmp(keys, s[0], x) != Cmp::Greater {
        seq![s[0]] + sort_insert(s.drop_first(), x, keys)
    } else {
        seq![x] + s
    }
}

/// The stable multi-key sort of a row sequence: each row inserted in turn
/// into the sorted prefix.
pub open spec fn tag_sort(s: Seq<TagV>, keys: Seq<TagKey>) -> Seq<TagV>
    decreases s.len(),
{
    if s.len() == 0 {
        seq![]
    } else {
        sort_insert(tag_sort(s.drop_last(), keys), s.last(), keys)
    }
}

/// How one sort key orders two rows.
fn key_cmp_x(k: TagKey, a: &Tag, b: &Tag) -> (r: Cmp)
    ensures
        r == key_cmp(k, a@, b@),
{
    match k {
        TagKey::IdAsc => {
            if a.id < b.id {
                Cmp::Less
            } else if a.id == b.id {
                Cmp::Equal
            } else {
                Cmp::Greater
            }
        },
        TagKey::IdDesc => {
            if a.id < b.id {
                Cmp::Greater
            } else if a.id == b.id {
                Cmp::Equal
            } else {
                Cmp::Less
            }
        },
        TagKey::NameAsc => {
            let av = str_chars(a.name.as_str());
            let bv = str_chars(b.name.as_str());
            crate::text::cmp_chars_x(&av, &bv)
        },
        TagKey::NameDesc => {
            let av = str_chars(a.name.as_str());
            let bv = str_chars(b.name.as_str());
            match crate::text::cmp_chars_x(&av, &bv) {
                Cmp::Less => Cmp::Greater,
                Cmp::Equal => Cmp::Equal,
                Cmp::Greater => Cmp::Less,
            }
        },
    }
}

/// How a key list orders two rows.
fn keys_cmp_x(keys: &Vec<TagKey>, a: &Tag, b: &Tag) -> (r: Cmp)
    ensures
        r == keys_cmp(keys@, a@, b@),
{
    proof {
        assert(keys@.skip(0) =~= keys@);
    }
    let mut i: usize = 0;
    while i < keys.len()
        invariant
            i <= keys.len(),
            keys_cmp(keys@, a@, b@) == keys_cmp(keys@.skip(i as int), a@, b@),
        decreases keys.len() - i,
    {
        proof {
            assert(keys@.skip(i as int)[0] == keys@[i as int]);
            assert(keys@.skip(i as int).drop_first() =~= keys@.skip(i + 1));
        }
        let c = key_cmp_x(keys[i], a, b);
        if !(c == Cmp::Equal) {
            return c;
        }
        i = i + 1;
    }
    proof {
        assert(keys@.skip(keys@.len() as int).len() == 0);
    }
    Cmp::Equal
}

/// A stable insertion lands exactly where the scan below stops.
proof fn lemma_sort_insert_split(s: Seq<TagV>, x: TagV, keys: Seq<TagKey>, j: int)
    requires
        0 <= j <= s.len(),
        forall|k: int| 0 <= k < j ==> keys_cmp(keys, s[k], x) != Cmp::Greater,
        j < s.len() ==> keys_cmp(keys, s[j], x) == Cmp::Greater,
    ensures
        sort_insert(s, x, keys) =~= s.take(j) + seq![x] + s.skip(j),
    decreases j,
{
    if j == 0 {
        if s.len() == 0 {
            assert(sort_insert(s, x, keys) =~= seq![x]);
        }
    } else {
        assert(keys_cmp(keys, s[0], x) != Cmp::Greater);
        lemma_sort_insert_split(s.drop_first(), x, keys, j - 1);
        assert(s.drop_first().take(j - 1) =~= s.take(j).drop_first());
        assert(s.drop_first().skip(j - 1) =~= s.skip(j));
    }
}

/// The position a stable insertion puts `x` at: after every leading row
/// that does not compare greater than `x`.
fn insert_pos(out: &Vec<Tag>, x: &Tag, keys: &Vec<TagKey>) -> (j: usize)
    ensures
        j <= out.len(),
        forall|k: int| 0 <= k < j ==> keys_cmp(keys@, out.deep_view()[k], x@) != Cmp::Greater,
        j < out.len() ==> keys_cmp(keys@, out.deep_view()[j as int], x@) == Cmp::Greater,
{
    let mut j: usize = 0;
    while j < out.len()
        invariant
            j <= out.len(),
            forall|k: int| 0 <= k < j ==> keys_cmp(keys@, out.deep_view()[k], x@)
                != Cmp::Greater,
        decreases out.len() - j,
    {
        let c = keys_cmp_x(keys, &out[j], x);
        if c == Cmp::Greater {
            return j;
        }
        j = j + 1;
    }
    j
}

/// Stable multi-key insertion sort of tag rows.
fn sort_tags(rows: Vec<Tag>, keys: &Vec<TagKey>) -> (r: Vec<Tag>)
    ensures
        r.deep_view() == tag_sort(rows.deep_view(), keys@),
{
    let mut out: Vec<Tag> = Vec::new();
    let mut rows = rows;
    let ghost all = rows.deep_view();
    let mut i: usize = 0;
    while i < rows.len()
        invariant
            i <= rows.len(),
            rows.deep_view() == all,
            out.deep_view() == tag_sort(all.take(i as int), keys@),
        decreases rows.len() - i,
    {
        let ghost pre = out.deep_view();
        let x = rows[i].duplicate();
        let j = insert_pos(&out, &x, keys);
        proof {
            lemma_sort_insert_split(pre, x@, keys@, j as int);
        }
        out.insert(j, x);
        proof {
            assert(out.deep_view() =~= pre.take(j as int) + seq![all[i as int]] + pre.skip(
                j as int,
            ));
            assert(all.take(i + 1).drop_last() =~= all.take(i as int));
            assert(all.take(i + 1).last() == all[i as int]);
            assert(out.deep_view() == tag_sort(all.take(i + 1), keys@));
        }
        i = i + 1;
    }
    proof {
        assert(all.take(rows@.len() as int) =~= all);
    }
    out
}

// ---------------------------------------------------------------------------
// The compiled query
// ---------------------------------------------------------------------------

/// The page of a sequence from `start`, at most `limit` rows, both
/// non-negative.
pub open spec fn page<T>(s: Seq<T>, start: int, limit: int) -> Seq<T> {
    if start >= s.len() {
        seq![]
    } else if limit >= s.len() - start {
        s.skip(start)
    } else {
        s.skip(start).take(limit)
    }
}

/// What the compiled tag query returns: the filtered rows, stably sorted by
/// the recognized order tokens, then paged.  A negative offset or limit is
/// a malformed page and an error, distinguished from "zero rows found".
pub open spec fn spec_tag_query(p: QParamsV, table: Seq<TagV>) -> Result<Seq<TagV>, QueryError> {
    let start = match p.start {
        Some(s) => s,
        None => 0,
    };
    let limit = match p.step {
        Some(s) => s,
        None => spec_calculate_limit(p.filter),
    };
    if start < 0 || limit < 0 {
        Err(QueryError::InvalidRange)
    } else {
        Ok(
            page(
                tag_sort(tag_filtered(tag_conds(p.filter), table), tag_keys(p.order)),
                start,
                limit,
            ),
        )
    }
}

/// The rows a query returns, empty on a storage failure.
pub open spec fn tag_query_rows(p: QParamsV, table: Seq<TagV>) -> Seq<TagV> {
    match spec_tag_query(p, table) {
        Ok(rows) => rows,
        Err(_) => seq![],
    }
}

/// The view of a query outcome.
pub open spec fn tag_rows_view(r: Result<Vec<Tag>, QueryError>) -> Result<Seq<TagV>, QueryError> {
    match r {
        Ok(rows) => Ok(rows.deep_view()),
        Err(e) => Err(e),
    }
}

/// Compiles every condition a filter set holds.
pub fn tag_conditions(f: &Filters) -> (r: Vec<TagCond>)
    ensures
        r.deep_view() == tag_conds(f@),
{
    let mut conds: Vec<TagCond> = Vec::new();
    let ghost fv = f@;

    let mut i: usize = 0;
    while i < f.eq.len()
        invariant
            i <= f.eq.len(),
            fv == f@,
            conds.deep_view() =~= eq_conds(fv.eq.take(i as int)),
        decreases f.eq.len() - i,
    {
        proof {
            assert(fv.eq.take(i + 1).drop_last() =~= fv.eq.take(i as int));
            assert(fv.eq.take(i + 1).last() == fv.eq[i as int]);
        }
        match validation(f.eq[i].clone()) {
            Some(TagFields::Id(n)) => conds.push(TagCond::EqId(n)),
            Some(TagFields::Name(nm)) => conds.push(TagCond::EqName(nm)),
            None => (),
        }
        proof {
            assert(conds.deep_view() =~= eq_conds(fv.eq.take(i + 1)));
        }
        i = i + 1;
    }
    proof {
        assert(fv.eq.take(f.eq@.len() as int) =~= fv.eq);
    }

    let ghost base1 = eq_conds(fv.eq);
    let mut i: usize = 0;
    while i < f.ge.len()
        invariant
            i <= f.ge.len(),
            fv == f@,
            conds.deep_view() =~= base1 + ge_conds(fv.ge.take(i as int)),
        decreases f.ge.len() - i,
    {
        proof {
            assert(fv.ge.take(i + 1).drop_last() =~= fv.ge.take(i as int));
            assert(fv.ge.take(i + 1).last() == fv.ge[i as int]);
        }
        match validation(f.ge[i].clone()) {
            Some(TagFields::Id(n)) => conds.push(TagCond::GeId(n)),
            Some(TagFields::Name(nm)) => conds.push(TagCond::GeName(nm)),
            None => (),
        }
        proof {
            let g0 = ge_conds(fv.ge.take(i as int));
            let g1 = ge_conds(fv.ge.take(i + 1));
            match ge_cond(fv.ge[i as int]) {
                Some(c) => {
                    assert(g1 == g0.push(c));
                    assert(base1 + g1 =~= (base1 + g0).push(c));
                },
                None => {
                    assert(g1 == g0);
                },
            }
            assert(conds.deep_view() =~= base1 + g1);
        }
        i = i + 1;
    }
    proof {
        assert(fv.ge.take(f.ge@.len() as int) =~= fv.ge);
    }

    let ghost base2 = base1 + ge_conds(fv.ge);
    let mut i: usize = 0;
    while i < f.le.len()
        invariant
            i <= f.le.len(),
            fv == f@,
            conds.deep_view() =~= base2 + le_conds(fv.le.take(i as int)),
        decreases f.le.len() - i,
    {
        proof {
            assert(fv.le.take(i + 1).drop_last() =~= fv.le.take(i as int));
            assert(fv.le.take(i + 1).last() == fv.le[i as int]);
        }
        match validation(f.le[i].clone()) {
            Some(TagFields::Id(n)) => conds.push(TagCond::LeId(n)),
            Some(TagFields::Name(nm)) => conds.push(TagCond::LeName(nm)),
            None => (),
        }
        proof {
            let g0 = le_conds(fv.le.take(i as int));
            let g1 = le_conds(fv.le.take(i + 1));
            match le_cond(fv.le[i as int]) {
                Some(c) => {
                    assert(g1 == g0.push(c));
                    assert(base2 + g1 =~= (base2 + g0).push(c));
                },
                None => {
                    assert(g1 == g0);
                },
            }
            assert(conds.deep_view() =~= base2 + g1);
        }
        i = i + 1;
    }
    proof {
        assert(fv.le.take(f.le@.len() as int) =~= fv.le);
    }

    let ghost base3 = base2 + le_conds(fv.le);
    let mut i: usize = 0;
    while i < f.like.len()
        invariant
            i <= f.like.len(),
            fv == f@,
            conds.deep_view() =~= base3 + like_conds(fv.like.take(i as int)),
        decreases f.like.len() - i,
    {
        proof {
            assert(fv.like.take(i + 1).drop_last() =~= fv.like.take(i as int));
            assert(fv.like.take(i + 1).last() == fv.like[i as int]);
        }
        let cs = str_chars(f.like[i].as_str());
        match find_char_x(&cs, '=') {
            None => (),
            Some(p) => {
                proof {
                    crate::text::lemma_find_char(cs@, '=');
                }
                let key = subvec(&cs, 0, p);
                let key = lower_chars(&key);
                proof {
                    assert(cs@.subrange(0, p as int) =~= cs@.take(p as int));
                }
                if chars_eq_str(&key, "name") {
                    let val = subvec(&cs, p + 1, cs.len());
                    proof {
                        assert(cs@.subrange(p + 1, cs@.len() as int) =~= cs@.skip(p + 1));
                    }
                    conds.push(TagCond::LikeName(chars_string(&val)));
                }
            },
        }
        proof {
            let g0 = like_conds(fv.like.take(i as int));
            let g1 = like_conds(fv.like.take(i + 1));
            match like_cond(fv.like[i as int]) {
                Some(c) => {
                    assert(g1 == g0.push(c));
                    assert(base3 + g1 =~= (base3 + g0).push(c));
                },
                None => {
                    assert(g1 == g0);
                },
            }
            assert(conds.deep_view() =~= base3 + g1);
        }
        i = i + 1;
    }
    proof {
        assert(fv.like.take(f.like@.len() as int) =~= fv.like);
    }

    let ghost base4 = base3 + like_conds(fv.like);
    let mut i: usize = 0;
    while i < f.between.len()
        invariant
            i <= f.between.len(),
            fv == f@,
            conds.deep_view() =~= base4 + between_conds(fv.between.take(i as int)),
        decreases f.between.len() - i,
    {
        proof {
            assert(fv.between.take(i + 1).drop_last() =~= fv.between.take(i as int));
            assert(fv.between.take(i + 1).last() == fv.between[i as int]);
        }
        let cs = str_chars(f.between[i].as_str());
        match find_char_x(&cs, '=') {
            None => (),
            Some(p) => {
                proof {
                    crate::text::lemma_find_char(cs@, '=');
                }
                let key = subvec(&cs, 0, p);
                let key = lower_chars(&key);
                let val = subvec(&cs, p + 1, cs.len());
                proof {
                    assert(cs@.subrange(0, p as int) =~= cs@.take(p as int));
                    assert(cs@.subrange(p + 1, cs@.len() as int) =~= cs@.skip(p + 1));
                }
                match find_char_x(&val, ',') {
                    None => (),
                    Some(q) => {
                        proof {
                            crate::text::lemma_find_char(val@, ',');
                        }
                        let lo = subvec(&val, 0, q);
                        let hi = subvec(&val, q + 1, val.len());
                        proof {
                            assert(val@.subrange(0, q as int) =~= val@.take(q as int));
                            assert(val@.subrange(q + 1, val@.len() as int) =~= val@.skip(q + 1));
                        }
                        if chars_eq_str(&key, "id") {
                            match parse_i32_x(&lo) {
                                Some(a) => match parse_i32_x(&hi) {
                                    Some(b) => conds.push(TagCond::BetweenId(a, b)),
                                    None => (),
                                },
                                None => (),
                            }
                        } else if chars_eq_str(&key, "name") {
                            conds.push(
                                TagCond::BetweenName(chars_string(&lo), chars_string(&hi)),
                            );
                        }
                    },
                }
            },
        }
        proof {
            let g0 = between_conds(fv.between.take(i as int));
            let g1 = between_conds(fv.between.take(i + 1));
            match between_cond(fv.between[i as int]) {
                Some(c) => {
                    assert(g1 == g0.push(c));
                    assert(base4 + g1 =~= (base4 + g0).push(c));
                },
                None => {
                    assert(g1 == g0);
                },
            }
            assert(conds.deep_view() =~= base4 + g1);
        }
        i = i + 1;
    }
    proof {
        assert(fv.between.take(f.between@.len() as int) =~= fv.between);
        assert(conds.deep_view() =~= tag_conds(fv));
    }
    conds
}

/// The recognized sort keys of an order list.
pub fn tag_sort_keys(order: &Vec<String>) -> (r: Vec<TagKey>)
    ensures
        r@ == tag_keys(order.deep_view()),
{
    let mut keys: Vec<TagKey> = Vec::new();
    let ghost ov = order.deep_view();
    let mut i: usize = 0;
    while i < order.len()
        invariant
            i <= order.len(),
            ov == order.deep_view(),
            keys@ =~= tag_keys(ov.take(i as int)),
        decreases order.len() - i,
    {
        proof {
            assert(ov.take(i + 1).drop_last() =~= ov.take(i as int));
            assert(ov.take(i + 1).last() == ov[i as int]);
        }
        let cs = str_chars(order[i].as_str());
        if chars_eq_str(&cs, "id") {
            keys.push(TagKey::IdAsc);
        } else if chars_eq_str(&cs, "-id") {
            keys.push(TagKey::IdDesc);
        } else if chars_eq_str(&cs, "name") {
            keys.push(TagKey::NameAsc);
        } else if chars_eq_str(&cs, "-name") {
            keys.push(TagKey::NameDesc);
        }
        proof {
            assert(keys@ =~= tag_keys(ov.take(i + 1)));
        }
        i = i + 1;
    }
    proof {
        assert(ov.take(order@.len() as int) =~= ov);
    }
    keys
}

/// Compiles and runs the caller's query against the tag table: validates
/// each filter token, keeps the rows any surviving condition matches (all
/// rows, when no condition survived), sorts them stably by the recognized
/// order tokens, and pages the result.  When the caller supplied no `step`,
/// an entirely empty filter set yields an empty page.
pub fn parse_and_query(params: QParams, table: &Vec<Tag>) -> (r: Result<Vec<Tag>, QueryError>)
    ensures
        tag_rows_view(r) == spec_tag_query(params@, table.deep_view()),
{
    let conds = tag_conditions(&params.filter);
    let keys = tag_sort_keys(&params.order);

    let start: i64 = match params.start {
        Some(s) => s,
        None => 0,
    };
    let limit: i64 = match params.step {
        Some(s) => s,
        None => params.calculate_limit(),
    };
    if start < 0 || limit < 0 {
        return Err(QueryError::InvalidRange);
    }

    let ghost tv = table.deep_view();
    let mut kept: Vec<Tag> = Vec::new();
    let mut i: usize = 0;
    while i < table.len()
        invariant
            i <= table.len(),
            tv == table.deep_view(),
            conds.deep_view() == tag_conds(params@.filter),
            kept.deep_view() =~= tag_filtered(conds.deep_view(), tv.take(i as int)),
        decreases table.len() - i,
    {
        proof {
            assert(tv.take(i + 1).drop_last() =~= tv.take(i as int));
            assert(tv.take(i + 1).last() == tv[i as int]);
        }
        if row_matches_x(&conds, &table[i]) {
            kept.push(table[i].duplicate());
        }
        proof {
            assert(kept.deep_view() =~= tag_filtered(conds.deep_view(), tv.take(i + 1)));
        }
        i = i + 1;
    }
    proof {
        assert(tv.take(table@.len() as int) =~= tv);
    }

    let sorted = sort_tags(kept, &keys);
    let ghost sv = sorted.deep_view();

    // Page: skip `start` rows, then take at most `limit`.
    let mut out: Vec<Tag> = Vec::new();
    let mut skipped: i64 = 0;
    let mut taken: i64 = 0;
    let mut i: usize = 0;
    while i < sorted.len()
        invariant
            i <= sorted.len(),
            sv == sorted.deep_view(),
            start >= 0,
            limit >= 0,
            skipped == if i as int <= start {
                i as int
            } else {
                start as int
            },
            taken == out.deep_view().len(),
            taken <= limit,
            out.deep_view().len() == if i as int <= start {
                0int
            } else if i as int - start as int <= limit {
                i as int - start as int
            } else {
                limit as int
            },
            forall|k: int| 0 <= k < out.deep_view().len() ==> out.deep_view()[k] == sv[start + k],
        decreases sorted.len() - i,
    {
        if skipped < start {
            skipped = skipped + 1;
        } else if taken < limit {
            let ghost pre = out.deep_view();
            out.push(sorted[i].duplicate());
            proof {
                assert(start as int + taken == i as int);
                assert(out.deep_view() =~= pre.push(sv[i as int]));
            }
            taken = taken + 1;
        }
        i = i + 1;
    }
    proof {
        assert(out.deep_view() =~= page(sv, start as int, limit as int));
    }
    Ok(out)
}

// ---------------------------------------------------------------------------
// Retrieving exactly one tag
// ---------------------------------------------------------------------------

/// The raw filter token selecting one id.
pub open spec fn id_token(n: int) -> Seq<char> {
    "id="@ + dec_str(n)
}

/// The query parameters the resolver builds: a single equality token on the
/// id, no pagination, no order.
pub open spec fn idq(n: int) -> QParamsV {
    QParamsV {
        start: None,
        step: None,
        filter: FiltersV {
            eq: seq![id_token(n)],
            like: seq![],
            ge: seq![],
            le: seq![],
            between: seq![],
        },
        order: seq![],
    }
}

/// The rows of the tag table whose id is `n`.
pub open spec fn tags_with_id(table: Seq<TagV>, n: int) -> Seq<TagV> {
    tag_filtered(seq![TagCondV::EqId(n)], table)
}

/// An id token validates to exactly its id.
proof fn lemma_id_token_validation(n: int)
    requires
        -0x8000_0000 <= n <= 0x7fff_ffff,
    ensures
        spec_validation(id_token(n)) == Some(TagFieldsV::Id(n)),
{
    reveal_strlit("id=");
    reveal_strlit("id");
    let tok = id_token(n);
    crate::text::lemma_parse_dec_roundtrip(n);
    assert(tok[0] == 'i' && tok[1] == 'd' && tok[2] == '=');
    crate::text::lemma_find_char(tok, '=');
    match find_char(tok, '=') {
        None => {
            assert(false);
        },
        Some(i) => {
            assert(i <= 2) by {
                if i > 2 {
                    assert(tok[2] != '=');
                }
            }
            assert(i == 2);
            assert(lower(tok.take(2)) =~= "id"@) by {
                assert(lower(tok.take(2))[0] == crate::text::lower_char('i'));
                assert(lower(tok.take(2))[1] == crate::text::lower_char('d'));
            }
            assert(tok.skip(3) =~= dec_str(n));
        },
    }
}

/// Filtering on one id keeps exactly the rows with that id — at most one
/// of them when ids are unique — and finds one exactly when one exists.
pub proof fn lemma_tags_with_id(table: Seq<TagV>, n: int)
    ensures
        forall|i: int|
            0 <= i < tags_with_id(table, n).len() ==> (#[trigger] tags_with_id(table, n)[i]).id
                == n && table.contains(tags_with_id(table, n)[i]),
        tags_contain_id(table, n) <==> tags_with_id(table, n).len() > 0,
        unique_tag_ids(table) ==> tags_with_id(table, n).len() <= 1,
    decreases table.len(),
{
    let conds = seq![TagCondV::EqId(n)];
    assert forall|t: TagV| row_matches(conds, t) == (t.id == n) by {
        if t.id == n {
            assert(cond_matches(conds[0], t));
        }
        if row_matches(conds, t) {
            let w = choose|i: int| 0 <= i < conds.len() && cond_matches(conds[i], t);
            assert(w == 0);
        }
    }
    if table.len() > 0 {
        lemma_tags_with_id(table.drop_last(), n);
        let rest = tags_with_id(table.drop_last(), n);
        assert forall|i: int|
            0 <= i < tags_with_id(table, n).len() implies (#[trigger] tags_with_id(table, n)[i]).id
            == n && table.contains(tags_with_id(table, n)[i]) by {
            if i < rest.len() {
                assert(table.drop_last().contains(rest[i]));
                let w = choose|w: int|
                    0 <= w < table.drop_last().len() && table.drop_last()[w] == rest[i];
                assert(table[w] == rest[i]);
            } else {
                assert(tags_with_id(table, n)[i] == table.last());
                assert(table[table.len() - 1] == table.last());
            }
        }
        if tags_contain_id(table, n) {
            let w = choose|w: int| 0 <= w < table.len() && table[w].id == n;
            if w < table.len() - 1 {
                assert(table.drop_last()[w].id == n);
                assert(tags_contain_id(table.drop_last(), n));
            }
        }
        if tags_with_id(table, n).len() > 0 {
            if rest.len() > 0 {
                assert(table.drop_last().contains(rest[0]));
                let w = choose|w: int|
                    0 <= w < table.drop_last().len() && table.drop_last()[w] == rest[0];
                assert(table[w].id == n);
            } else {
                assert(table.last().id == n);
                assert(table[table.len() - 1].id == n);
            }
        }
        if unique_tag_ids(table) {
            assert(unique_tag_ids(table.drop_last())) by {
                assert(forall|i: int|
                    0 <= i < table.len() - 1 ==> #[trigger] table.drop_last()[i] == table[i]);
            }
            if table.last().id == n {
                assert(!tags_contain_id(table.drop_last(), n)) by {
                    if tags_contain_id(table.drop_last(), n) {
                        let w = choose|w: int|
                            0 <= w < table.drop_last().len() && table.drop_last()[w].id == n;
                        assert(table[w].id == table[table.len() - 1].id);
                    }
                }
            }
        }
    }
}

/// Sorting a sequence of at most one row leaves it unchanged.
proof fn lemma_tag_sort_small(s: Seq<TagV>, keys: Seq<TagKey>)
    requires
        s.len() <= 1,
    ensures
        tag_sort(s, keys) == s,
{
    if s.len() == 1 {
        assert(s.drop_last() =~= Seq::<TagV>::empty());
        assert(tag_sort(s.drop_last(), keys) =~= Seq::<TagV>::empty());
        assert(sort_insert(tag_sort(s.drop_last(), keys), s.last(), keys) =~= s);
    } else {
        assert(s =~= Seq::<TagV>::empty());
        assert(tag_sort(s, keys) =~= s);
    }
}

/// A page from the start that is at least as long as the sequence is the
/// whole sequence.
pub proof fn lemma_page_whole<T>(s: Seq<T>, limit: int)
    requires
        s.len() <= limit,
    ensures
        page(s, 0, limit) == s,
{
    if s.len() > 0 {
        assert(s.skip(0) =~= s);
    } else {
        assert(page(s, 0, limit) =~= s);
    }
}

/// The id query returns exactly the rows carrying that id.
pub proof fn lemma_tag_id_query(n: int, table: Seq<TagV>)
    requires
        -0x8000_0000 <= n <= 0x7fff_ffff,
        unique_tag_ids(table),
    ensures
        spec_tag_query(idq(n), table) == Ok::<Seq<TagV>, QueryError>(tags_with_id(table, n)),
{
    lemma_id_token_validation(n);
    let f = idq(n).filter;
    assert(eq_conds(f.eq) =~= seq![TagCondV::EqId(n)]) by {
        assert(f.eq.drop_last() =~= Seq::<Seq<char>>::empty());
        assert(f.eq.last() == id_token(n));
        assert(eq_conds(f.eq.drop_last()) =~= Seq::<TagCondV>::empty());
    }
    assert(tag_conds(f) =~= seq![TagCondV::EqId(n)]);
    assert(tag_keys(idq(n).order) =~= Seq::<TagKey>::empty());
    assert(!crate::models::filters_empty(f));
    lemma_tags_with_id(table, n);
    assert(tag_filtered(tag_conds(f), table) == tags_with_id(table, n));
    lemma_tag_sort_small(tags_with_id(table, n), tag_keys(idq(n).order));
    lemma_page_whole(tags_with_id(table, n), 10);
}

/// The query parameters selecting one id: a single equality token, no
/// pagination, no order.
pub fn id_params(n: i32) -> (r: QParams)
    ensures
        r@ == idq(n as int),
{
    let mut tok = str_chars("id=");
    let mut d = dec_chars_i64(n as i64);
    tok.append(&mut d);
    let token = chars_string(&tok);
    let mut eq: Vec<String> = Vec::new();
    eq.push(token);
    let r = QParams::new_filter(Filters::new_eq(eq));
    proof {
        assert(r@.filter.eq =~= seq![id_token(n as int)]);
        assert(r@.filter.like =~= Seq::<Seq<char>>::empty());
        assert(r@.filter.ge =~= Seq::<Seq<char>>::empty());
        assert(r@.filter.le =~= Seq::<Seq<char>>::empty());
        assert(r@.filter.between =~= Seq::<Seq<char>>::empty());
        assert(r@.order =~= Seq::<Seq<char>>::empty());
    }
    r
}

/// Builds a filter selecting the given id alone, runs the query compiler,
/// and classifies the outcome: exactly one row is success, zero rows is
/// "not found", and anything else would be an internal inconsistency,
/// handled defensively rather than assumed away.
pub fn retrieve_one_tag(tag_id: i32, db: &Db) -> (r: Result<Vec<Tag>, Custom>)
    requires
        db.wf(),
    ensures
        match r {
            Ok(rows) => tags_contain_id(db.tags.deep_view(), tag_id as int) && rows.deep_view()
                =~= tags_with_id(db.tags.deep_view(), tag_id as int) && rows.deep_view().len()
                == 1 && rows.deep_view()[0].id == tag_id as int && db.tags.deep_view().contains(
                rows.deep_view()[0],
            ),
            Err(c) => !tags_contain_id(db.tags.deep_view(), tag_id as int) && c.0
                == Status::NotFound && crate::models::plain_error_envelope(
                c.1,
                "NOT_FOUND"@,
                Some("Could not locate tag with provided id."@),
            ),
        },
{
    let q_params = id_params(tag_id);
    proof {
        lemma_tag_id_query(tag_id as int, db.tags.deep_view());
        lemma_tags_with_id(db.tags.deep_view(), tag_id as int);
    }
    match parse_and_query(q_params, &db.tags) {
        Ok(tags) => {
            if tags.len() == 1 {
                Ok(tags)
            } else if tags.len() == 0 {
                Err(
                    Custom(
                        Status::NotFound,
                        AResponse::_404(
                            Some("Could not locate tag with provided id.".to_owned()),
                        ),
                    ),
                )
            } else {
                proof {
                    assert(false);
                }
                Err(Custom(Status::InternalServerError, AResponse::_500()))
            }
        },
        Err(_) => {
            proof {
                assert(false);
            }
            Err(Custom(Status::InternalServerError, AResponse::_500()))
        },
    }
}

// ---------------------------------------------------------------------------
// Handlers
// ---------------------------------------------------------------------------

/// The writable fields of a tag.
#[derive(Debug, PartialEq, Clone)]
pub struct NewTag {
    pub name: String,
}

/// The submitted tag name fits the column: one to a hundred bytes.
pub open spec fn tag_name_ok(s: Seq<char>) -> bool {
    1 <= vstd::utf8::encode_utf8(s).len() <= 100
}

/// Some tag other than the one with this id already carries this name.
pub open spec fn name_on_other_tag(ts: Seq<TagV>, name: Seq<char>, id: int) -> bool {
    exists|i: int| 0 <= i < ts.len() && ts[i].name == name && ts[i].id != id
}

/// The malformed-input response for a bad tag name.
fn bad_name_response() -> (r: Custom)
    ensures
        r.0 == Status::UnprocessableEntity,
        crate::models::invalid_input_envelope(r.1),
        r.1.errors matches Some(d) && d@.len() == 1 && d@[0].field@ == "name"@ && d@[0].message@
            == "Valid length is 1 to 100 chars."@,
{
    let mut details: Vec<ErrorDetail> = Vec::new();
    details.push(
        ErrorDetail {
            field: "name".to_owned(),
            message: "Valid length is 1 to 100 chars.".to_owned(),
        },
    );
    Custom(
        Status::UnprocessableEntity,
        AResponse::_422(
            Some("Correct input and try again.".to_owned()),
            Some("INVALID_INPUT".to_owned()),
            Some(details),
        ),
    )
}

/// Whether some tag already carries this name.
fn name_exists(tags: &Vec<Tag>, name: &String) -> (r: bool)
    ensures
        r == tags_contain_name(tags.deep_view(), name@),
{
    let mut i: usize = 0;
    while i < tags.len()
        invariant
            i <= tags.len(),
            forall|j: int| 0 <= j < i ==> (#[trigger] tags.deep_view()[j]).name != name@,
        decreases tags.len() - i,
    {
        if tags[i].name == *name {
            proof {
                assert(tags.deep_view()[i as int].name == name@);
            }
            return true;
        }
        i = i + 1;
    }
    false
}

/// Creates a tag: a name of a valid length that is not yet taken gains a
/// fresh id, and the location of the new resource is returned with it.
/// Re-creating an existing name is a conflict, reported as a unique
/// violation rather than a second row.
pub fn post(new_tag: NewTag, db: &mut Db) -> (r: Result<(i32, String), Custom>)
    requires
        old(db).wf(),
    ensures
        final(db).wf(),
        final(db).posts == old(db).posts,
        final(db).post_tags == old(db).post_tags,
        final(db).users == old(db).users,
        final(db).roles == old(db).roles,
        final(db).next_post_id == old(db).next_post_id,
        final(db).next_post_tag_id == old(db).next_post_tag_id,
        final(db).next_user_id == old(db).next_user_id,
        r matches Err(_) ==> *final(db) == *old(db),
        !tag_name_ok(new_tag.name@) ==> (r matches Err(c) && c.0 == Status::UnprocessableEntity
            && crate::models::invalid_input_envelope(c.1) && (c.1.errors matches Some(d)
            && d@.len() == 1 && d@[0].field@ == "name"@)),
        (tag_name_ok(new_tag.name@) && tags_contain_name(
            old(db).tags.deep_view(),
            new_tag.name@,
        )) ==> (r matches Err(c) && c.0 == Status::Conflict
            && crate::models::plain_error_envelope(
            c.1,
            "UNIQUE_VIOLATION"@,
            Some("A tag with this name already exists."@),
        )),
        (tag_name_ok(new_tag.name@) && !tags_contain_name(old(db).tags.deep_view(), new_tag.name@)
            && old(db).next_tag_id < 0x7fff_ffff) ==> (r matches Ok(p) && p.0 == old(
            db,
        ).next_tag_id && final(db).tags.deep_view() =~= old(db).tags.deep_view().push(
            TagV { id: p.0 as int, name: new_tag.name@ },
        ) && final(db).next_tag_id == old(db).next_tag_id + 1 && p.1@ == "/api/tags/"@ + dec_str(
            p.0 as int,
        )),
        (tag_name_ok(new_tag.name@) && !tags_contain_name(old(db).tags.deep_view(), new_tag.name@)
            && old(db).next_tag_id == 0x7fff_ffff) ==> (r matches Err(c) && c.0
            == Status::InternalServerError && crate::models::plain_error_envelope(
            c.1,
            "INTERNAL_SERVER_ERROR"@,
            Some("Our apologies, something went wrong."@),
        )),
{
    let len = new_tag.name.as_str().as_bytes().len();
    if len < 1 || len > 100 {
        return Err(bad_name_response());
    }
    if name_exists(&db.tags, &new_tag.name) {
        return Err(
            Custom(
                Status::Conflict,
                AResponse::_409(Some("A tag with this name already exists.".to_owned())),
            ),
        );
    }
    if db.next_tag_id == 0x7fff_ffff {
        return Err(Custom(Status::InternalServerError, AResponse::_500()));
    }
    let id = db.next_tag_id;
    let ghost ov = db.tags.deep_view();
    db.tags.push(Tag { id, name: new_tag.name });
    db.next_tag_id = id + 1;
    proof {
        let nv = db.tags.deep_view();
        assert(nv =~= ov.push(TagV { id: id as int, name: new_tag.name@ }));
        assert forall|i: int, j: int| 0 <= i < j < nv.len() implies (#[trigger] nv[i]).id
            != (#[trigger] nv[j]).id && nv[i].name != nv[j].name by {
            if j == nv.len() - 1 {
                assert(ov[i].id < id);
                assert(!(ov[i].name == new_tag.name@)) by {
                    if ov[i].name == new_tag.name@ {
                        assert(tags_contain_name(ov, new_tag.name@));
                    }
                }
            }
        }
    }
    let mut uri_chars = str_chars("/api/tags/");
    let mut d = dec_chars_i64(id as i64);
    uri_chars.append(&mut d);
    let uri = chars_string(&uri_chars);
    Ok((id, uri))
}

/// Renames a tag: the new name must have a valid length and must not be
/// carried by any other tag; a missing id is "not found".
pub fn patch(id: i32, new_tag: NewTag, db: &mut Db) -> (r: Result<(), Custom>)
    requires
        old(db).wf(),
    ensures
        final(db).wf(),
        final(db).posts == old(db).posts,
        final(db).post_tags == old(db).post_tags,
        final(db).users == old(db).users,
        final(db).roles == old(db).roles,
        final(db).next_post_id == old(db).next_post_id,
        final(db).next_tag_id == old(db).next_tag_id,
        final(db).next_post_tag_id == old(db).next_post_tag_id,
        final(db).next_user_id == old(db).next_user_id,
        r matches Err(_) ==> *final(db) == *old(db),
        !tag_name_ok(new_tag.name@) ==> (r matches Err(c) && c.0 == Status::UnprocessableEntity
            && crate::models::invalid_input_envelope(c.1) && (c.1.errors matches Some(d)
            && d@.len() == 1 && d@[0].field@ == "name"@)),
        (tag_name_ok(new_tag.name@) && !tags_contain_id(old(db).tags.deep_view(), id as int)) ==> (
        r matches Err(c) && c.0 == Status::NotFound && crate::models::plain_error_envelope(
            c.1,
            "NOT_FOUND"@,
            Some("Could not locate tag with provided id."@),
        )),
        (tag_name_ok(new_tag.name@) && tags_contain_id(old(db).tags.deep_view(), id as int)
            && name_on_other_tag(old(db).tags.deep_view(), new_tag.name@, id as int)) ==> (
        r matches Err(c) && c.0 == Status::UnprocessableEntity
            && crate::models::plain_error_envelope(
            c.1,
            "UNIQUE_VIOLATION"@,
            Some("A tag with this name already exists."@),
        )),
        (tag_name_ok(new_tag.name@) && tags_contain_id(old(db).tags.deep_view(), id as int)
            && !name_on_other_tag(old(db).tags.deep_view(), new_tag.name@, id as int)) ==> (
        r matches Ok(_) && exists|idx: int|
            0 <= idx < old(db).tags.deep_view().len() && (#[trigger] old(
                db,
            ).tags.deep_view()[idx]).id == id as int && final(db).tags.deep_view() =~= old(
                db,
            ).tags.deep_view().update(idx, TagV { id: id as int, name: new_tag.name@ })),
{
    let len = new_tag.name.as_str().as_bytes().len();
    if len < 1 || len > 100 {
        return Err(bad_name_response());
    }
    let ghost ov = db.tags.deep_view();
    let mut i: usize = 0;
    let mut found: Option<usize> = None;
    while i < db.tags.len()
        invariant
            *db == *old(db),
            i <= db.tags@.len(),
            ov == db.tags.deep_view(),
            match found {
                Some(k) => k < i && ov[k as int].id == id as int,
                None => forall|j: int| 0 <= j < i ==> (#[trigger] ov[j]).id != id as int,
            },
        decreases db.tags@.len() - i,
    {
        if found.is_none() && db.tags[i].id == id {
            proof {
                assert(ov[i as int].id == id as int);
            }
            found = Some(i);
        }
        i = i + 1;
    }
    let idx = match found {
        Some(k) => k,
        None => {
            return Err(
                Custom(
                    Status::NotFound,
                    AResponse::_404(
                        Some("Could not locate tag with provided id.".to_owned()),
                    ),
                ),
            );
        },
    };
    proof {
        assert(tags_contain_id(ov, id as int));
    }
    // A different tag already carrying the new name is a unique violation.
    let mut j: usize = 0;
    while j < db.tags.len()
        invariant
            *db == *old(db),
            old(db).wf(),
            tag_name_ok(new_tag.name@),
            tags_contain_id(ov, id as int),
            j <= db.tags@.len(),
            ov == db.tags.deep_view(),
            forall|k: int|
                0 <= k < j ==> !((#[trigger] ov[k]).name == new_tag.name@ && ov[k].id
                    != id as int),
        decreases db.tags@.len() - j,
    {
        if db.tags[j].name == new_tag.name && db.tags[j].id != id {
            proof {
                assert(ov[j as int].name == new_tag.name@ && ov[j as int].id != id as int);
            }
            return Err(
                Custom(
                    Status::UnprocessableEntity,
                    AResponse::_422(
                        Some("A tag with this name already exists.".to_owned()),
                        Some("UNIQUE_VIOLATION".to_owned()),
                        None,
                    ),
                ),
            );
        }
        j = j + 1;
    }
    db.tags[idx] = Tag { id, name: new_tag.name };
    proof {
        let nv = db.tags.deep_view();
        assert(nv =~= ov.update(idx as int, TagV { id: id as int, name: new_tag.name@ }));
        assert forall|a: int, b: int| 0 <= a < b < nv.len() implies (#[trigger] nv[a]).id
            != (#[trigger] nv[b]).id && nv[a].name != nv[b].name by {
            if a == idx || b == idx {
                let o = if a == idx {
                    b
                } else {
                    a
                };
                assert(nv[o] == ov[o]);
                assert(ov[o].id != id as int) by {
                    if ov[o].id == id as int {
                        assert(ov[o].id == ov[idx as int].id);
                    }
                }
            }
        }
    }
    Ok(())
}

/// The tag rows that survive deleting the one with this id.
pub open spec fn tags_excluding_id(ts: Seq<TagV>, n: int) -> Seq<TagV>
    decreases ts.len(),
{
    if ts.len() == 0 {
        seq![]
    } else {
        let rest = tags_excluding_id(ts.drop_last(), n);
        if ts.last().id == n {
            rest
        } else {
            rest.push(ts.last())
        }
    }
}

/// Deleting by id keeps every other row, drops every row with the id, and
/// keeps the table invariants.
proof fn lemma_tags_excluding_id(ts: Seq<TagV>, n: int)
    ensures
        forall|i: int|
            0 <= i < tags_excluding_id(ts, n).len() ==> (#[trigger] tags_excluding_id(ts, n)[i]).id
                != n && ts.contains(tags_excluding_id(ts, n)[i]),
        tags_excluding_id(ts, n).len() <= ts.len(),
        (unique_tag_ids(ts) && unique_tag_names(ts)) ==> (unique_tag_ids(tags_excluding_id(ts, n))
            && unique_tag_names(tags_excluding_id(ts, n))),
    decreases ts.len(),
{
    if ts.len() > 0 {
        lemma_tags_excluding_id(ts.drop_last(), n);
        assert(forall|i: int| 0 <= i < ts.len() - 1 ==> #[trigger] ts.drop_last()[i] == ts[i]);
        let rest = tags_excluding_id(ts.drop_last(), n);
        assert forall|i: int|
            0 <= i < tags_excluding_id(ts, n).len() implies (#[trigger] tags_excluding_id(
            ts,
            n,
        )[i]).id != n && ts.contains(tags_excluding_id(ts, n)[i]) by {
            if i < rest.len() {
                assert(ts.drop_last().contains(rest[i]));
                let w = choose|w: int| 0 <= w < ts.drop_last().len() && ts.drop_last()[w] == rest[i];
                assert(ts[w] == rest[i]);
            } else {
                assert(tags_excluding_id(ts, n)[i] == ts.last());
                assert(ts[ts.len() - 1] == ts.last());
            }
        }
        if unique_tag_ids(ts) && unique_tag_names(ts) && ts.last().id != n {
            assert forall|a: int, b: int|
                0 <= a < b < rest.push(ts.last()).len() implies (#[trigger] rest.push(
                ts.last(),
            )[a]).id != (#[trigger] rest.push(ts.last())[b]).id && rest.push(ts.last())[a].name
                != rest.push(ts.last())[b].name by {
                if b == rest.len() {
                    assert(ts.drop_last().contains(rest[a]));
                    let w = choose|w: int|
                        0 <= w < ts.drop_last().len() && ts.drop_last()[w] == rest[a];
                    assert(ts[w] == rest[a]);
                    assert(ts[ts.len() - 1] == ts.last());
                }
            }
        }
    }
}

/// Deletes a tag: its join rows go first, then the tag row, and the count
/// of detached posts is returned with the deleted row.  A missing id is
/// "not found"; after success no join row references the deleted tag, so
/// no later query can return a post as carrying it (asking this tag's
/// posts afterwards answers "not found", by the resolver rule).
pub fn delete(id: i32, db: &mut Db) -> (r: Result<(Tag, usize), Custom>)
    requires
        old(db).wf(),
    ensures
        final(db).wf(),
        final(db).posts == old(db).posts,
        final(db).users == old(db).users,
        final(db).roles == old(db).roles,
        final(db).next_post_id == old(db).next_post_id,
        final(db).next_tag_id == old(db).next_tag_id,
        final(db).next_post_tag_id == old(db).next_post_tag_id,
        final(db).next_user_id == old(db).next_user_id,
        r matches Err(_) ==> *final(db) == *old(db),
        !tags_contain_id(old(db).tags.deep_view(), id as int) ==> (r matches Err(c) && c.0
            == Status::NotFound && crate::models::plain_error_envelope(
            c.1,
            "NOT_FOUND"@,
            Some("Could not locate tag with provided id."@),
        )),
        tags_contain_id(old(db).tags.deep_view(), id as int) ==> (r matches Ok(p) && ({
            &&& p.0@.id == id as int
            &&& old(db).tags.deep_view().contains(p.0@)
            &&& final(db).tags.deep_view() =~= tags_excluding_id(
                old(db).tags.deep_view(),
                id as int,
            )
            &&& !tags_contain_id(final(db).tags.deep_view(), id as int)
            &&& forall|i: int|
                0 <= i < final(db).post_tags@.len()
                    ==> (#[trigger] final(db).post_tags@[i]).tag_id != id
            &&& p.1 == old(db).post_tags@.len() - final(db).post_tags@.len()
        })),
{
    let rows = match retrieve_one_tag(id, db) {
        Ok(rows) => rows,
        Err(c) => {
            return Err(c);
        },
    };
    let mut rows = rows;
    let target = match rows.pop() {
        Some(t) => t,
        None => {
            proof {
                assert(false);
            }
            return Err(Custom(Status::InternalServerError, AResponse::_500()));
        },
    };
    let kept_tag = target.duplicate();

    // Remove the associated join rows for the tag.
    let mut selector: Vec<Tag> = Vec::new();
    selector.push(target);
    proof {
        assert(selector.deep_view() =~= seq![kept_tag@]);
    }
    let count = crate::post_tags::delete_entries(db, crate::post_tags::BelongsTo::Tag(selector));
    proof {
        crate::post_tags::lemma_remaining_unselected(
            crate::post_tags::BelongsToV::Tag(seq![kept_tag@]),
            old(db).post_tags@,
        );
        assert forall|i: int|
            0 <= i < db.post_tags@.len() implies (#[trigger] db.post_tags@[i]).tag_id != id by {
            assert(!crate::post_tags::row_selected(
                crate::post_tags::BelongsToV::Tag(seq![kept_tag@]),
                db.post_tags@[i],
            ));
            assert(seq![kept_tag@][0].id == id as int);
        }
    }

    // Now remove the tag row itself.
    let ghost mid = *db;
    let ghost ov = db.tags.deep_view();
    let mut kept: Vec<Tag> = Vec::new();
    let mut i: usize = 0;
    while i < db.tags.len()
        invariant
            *db == mid,
            i <= db.tags@.len(),
            ov == db.tags.deep_view(),
            kept.deep_view() =~= tags_excluding_id(ov.take(i as int), id as int),
        decreases db.tags@.len() - i,
    {
        proof {
            assert(ov.take(i + 1).drop_last() =~= ov.take(i as int));
            assert(ov.take(i + 1).last() == ov[i as int]);
        }
        if db.tags[i].id != id {
            kept.push(db.tags[i].duplicate());
        }
        proof {
            assert(kept.deep_view() =~= tags_excluding_id(ov.take(i + 1), id as int));
        }
        i = i + 1;
    }
    proof {
        assert(ov.take(db.tags@.len() as int) =~= ov);
        lemma_tags_excluding_id(ov, id as int);
    }
    db.tags = kept;
    proof {
        if tags_contain_id(db.tags.deep_view(), id as int) {
            let w = choose|w: int|
                0 <= w < db.tags.deep_view().len() && db.tags.deep_view()[w].id == id as int;
            assert(db.tags.deep_view()[w].id != id as int);
        }
    }
    Ok((kept_tag, count))
}

/// Returns the tags the query selects; a storage failure is surfaced as an
/// internal error, distinguished from zero rows found.
pub fn get_users_tags(params: QParams, db: &Db) -> (r: Result<Vec<Tag>, Custom>)
    ensures
        match spec_tag_query(params@, db.tags.deep_view()) {
            Ok(rows) => r matches Ok(v) && v.deep_view() == rows,
            Err(_) => r matches Err(c) && c.0 == Status::InternalServerError,
        },
{
    match parse_and_query(params, &db.tags) {
        Ok(tags) => Ok(tags),
        Err(_) => {
            let mut details: Vec<ErrorDetail> = Vec::new();
            details.push(
                ErrorDetail {
                    field: String::new(),
                    message: "The requested page is malformed.".to_owned(),
                },
            );
            Err(Custom(Status::InternalServerError, AResponse::error(Some(details))))
        },
    }
}

/// Returns the tag carrying the given id, or "not found".
pub fn get(id: i32, db: &Db) -> (r: Result<Vec<Tag>, Custom>)
    requires
        db.wf(),
    ensures
        tags_contain_id(db.tags.deep_view(), id as int) ==> (r matches Ok(rows)
            && rows.deep_view() =~= tags_with_id(db.tags.deep_view(), id as int)),
        !tags_contain_id(db.tags.deep_view(), id as int) ==> (r matches Err(c) && c.0
            == Status::NotFound && crate::models::plain_error_envelope(
            c.1,
            "NOT_FOUND"@,
            None,
        )),
{
    let q_params = id_params(id);
    proof {
        lemma_tag_id_query(id as int, db.tags.deep_view());
        lemma_tags_with_id(db.tags.deep_view(), id as int);
    }
    match parse_and_query(q_params, &db.tags) {
        Ok(tags) => {
            if tags.len() == 0 {
                Err(Custom(Status::NotFound, AResponse::_404(None)))
            } else {
                Ok(tags)
            }
        },
        Err(_) => {
            proof {
                assert(false);
            }
            Err(Custom(Status::InternalServerError, AResponse::_500()))
        },
    }
}

/// The id of a tag with the given name, if one exists.  The storage layer
/// does not hand back the id of a fresh insert, so creation looks it up
/// with this.
pub fn get_a_tag_id(db: &Db, name: &String) -> (r: Option<i32>)
    ensures
        match r {
            Some(id) => exists|i: int|
                0 <= i < db.tags.deep_view().len() && (#[trigger] db.tags.deep_view()[i]).id
                    == id as int && db.tags.deep_view()[i].name == name@,
            None => !tags_contain_name(db.tags.deep_view(), name@),
        },
{
    let mut i: usize = 0;
    while i < db.tags.len()
        invariant
            i <= db.tags@.len(),
            forall|j: int| 0 <= j < i ==> (#[trigger] db.tags.deep_view()[j]).name != name@,
        decreases db.tags@.len() - i,
    {
        if db.tags[i].name == *name {
            proof {
                assert(db.tags.deep_view()[i as int].name == name@);
            }
            return Some(db.tags[i].id);
        }
        i = i + 1;
    }
    None
}

// ---------------------------------------------------------------------------
// Posts carrying a tag
// ---------------------------------------------------------------------------

/// The distinct post ids referenced by join rows of this tag, in first
/// appearance order.
pub open spec fn distinct_post_ids(pt: Seq<BlogTags>, tid: i32) -> Seq<i32>
    decreases pt.len(),
{
    if pt.len() == 0 {
        seq![]
    } else {
        let rest = distinct_post_ids(pt.drop_last(), tid);
        if pt.last().tag_id == tid && !rest.contains(pt.last().post_id) {
            rest.push(pt.last().post_id)
        } else {
            rest
        }
    }
}

/// The post query a tag's posts are fetched with: one equality token per
/// distinct post id of the tag, an explicit page size covering every token
/// (so the default page policy never truncates the list), no offset, no
/// order.
pub open spec fn posts_by_tag_q(pt: Seq<BlogTags>, tid: i32) -> QParamsV {
    QParamsV {
        start: None,
        step: Some(crate::models::covering_step(distinct_post_ids(pt, tid).len() as int)),
        filter: FiltersV {
            eq: crate::post::id_tokens_of(
                distinct_post_ids(pt, tid).map_values(|n: i32| n as int),
            ),
            like: seq![],
            ge: seq![],
            le: seq![],
            between: seq![],
        },
        order: seq![],
    }
}

/// Whether the vector holds this value.
fn vec_contains_i32(v: &Vec<i32>, x: i32) -> (r: bool)
    ensures
        r == v@.contains(x),
{
    let mut i: usize = 0;
    while i < v.len()
        invariant
            i <= v.len(),
            forall|j: int| 0 <= j < i ==> v@[j] != x,
        decreases v.len() - i,
    {
        if v[i] == x {
            return true;
        }
        i = i + 1;
    }
    proof {
        if v@.contains(x) {
            let w = choose|w: int| 0 <= w < v@.len() && v@[w] == x;
            assert(v@[w] != x);
        }
    }
    false
}

/// The distinct post ids referenced by join rows of this tag.
fn distinct_post_ids_x(pt: &Vec<BlogTags>, tid: i32) -> (r: Vec<i32>)
    ensures
        r@ == distinct_post_ids(pt@, tid),
{
    let mut out: Vec<i32> = Vec::new();
    let mut i: usize = 0;
    while i < pt.len()
        invariant
            i <= pt.len(),
            out@ =~= distinct_post_ids(pt@.take(i as int), tid),
        decreases pt.len() - i,
    {
        proof {
            assert(pt@.take(i + 1).drop_last() =~= pt@.take(i as int));
            assert(pt@.take(i + 1).last() == pt@[i as int]);
        }
        if pt[i].tag_id == tid && !vec_contains_i32(&out, pt[i].post_id) {
            out.push(pt[i].post_id);
        }
        proof {
            assert(out@ =~= distinct_post_ids(pt@.take(i + 1), tid));
        }
        i = i + 1;
    }
    proof {
        assert(pt@.take(pt@.len() as int) =~= pt@);
    }
    out
}

/// Lists the posts a tag is attached to, each with all of its tags.  A
/// missing tag id — a deleted tag included — is "not found": the resolver
/// classifies the id before any posts are gathered, so re-querying the
/// posts of a deleted tag answers "not found" rather than an empty list,
/// and a post referencing a deleted tag is never returned.  The tag's
/// distinct post ids become one equality token each, with a page size that
/// covers them all, so the post query returns exactly those posts.
pub fn get_posts(id: i32, db: &Db) -> (r: Result<Vec<crate::post::PostAndTags>, Custom>)
    requires
        db.wf(),
    ensures
        !tags_contain_id(db.tags.deep_view(), id as int) ==> (r matches Err(c) && c.0
            == Status::NotFound && crate::models::plain_error_envelope(
            c.1,
            "NOT_FOUND"@,
            Some("Could not locate tag with provided id."@),
        )),
        tags_contain_id(db.tags.deep_view(), id as int) ==> match crate::post::spec_post_query(
            posts_by_tag_q(db.post_tags@, id),
            db.posts.deep_view(),
        ) {
            Ok(rows) => r matches Ok(v) && v.deep_view() =~~= crate::post::with_tags(
                rows,
                db.tags.deep_view(),
                db.post_tags@,
            ),
            Err(_) => r matches Err(c) && c.0 == Status::InternalServerError,
        },
{
    match retrieve_one_tag(id, db) {
        Ok(_) => (),
        Err(c) => {
            return Err(c);
        },
    }
    let post_ids = distinct_post_ids_x(&db.post_tags, id);
    let ghost idsv = post_ids@.map_values(|n: i32| n as int);
    let mut eq: Vec<String> = Vec::new();
    let mut i: usize = 0;
    while i < post_ids.len()
        invariant
            i <= post_ids.len(),
            idsv == post_ids@.map_values(|n: i32| n as int),
            eq.deep_view() =~= crate::post::id_tokens_of(idsv.take(i as int)),
        decreases post_ids.len() - i,
    {
        let ghost pre = eq.deep_view();
        eq.push(crate::post::id_token_x(post_ids[i]));
        proof {
            assert(idsv[i as int] == post_ids@[i as int] as int);
            assert(eq.deep_view() =~= pre.push(id_token(idsv[i as int])));
            assert(eq.deep_view() =~= crate::post::id_tokens_of(idsv.take(i + 1)));
        }
        i = i + 1;
    }
    proof {
        assert(idsv.take(post_ids@.len() as int) =~= idsv);
    }
    let step = crate::models::covering_step_x(post_ids.len());
    let mut q_params = QParams::new_filter(Filters::new_eq(eq));
    q_params.step = Some(step);
    proof {
        assert(q_params@.filter.eq =~= posts_by_tag_q(db.post_tags@, id).filter.eq);
        assert(q_params@.filter.like =~= Seq::<Seq<char>>::empty());
        assert(q_params@.filter.ge =~= Seq::<Seq<char>>::empty());
        assert(q_params@.filter.le =~= Seq::<Seq<char>>::empty());
        assert(q_params@.filter.between =~= Seq::<Seq<char>>::empty());
        assert(q_params@.order =~= Seq::<Seq<char>>::empty());
        assert(q_params@ == posts_by_tag_q(db.post_tags@, id));
    }
    crate::post::post_and_tags(q_params, db)
}

// ---------------------------------------------------------------------------
// Laws of the compiled query
// ---------------------------------------------------------------------------

/// Sorting with no recognized order token keeps the filtered order.
proof fn lemma_tag_sort_no_keys(s: Seq<TagV>)
    ensures
        tag_sort(s, Seq::<TagKey>::empty()) =~= s,
    decreases s.len(),
{
    if s.len() > 0 {
        lemma_tag_sort_no_keys(s.drop_last());
        lemma_sort_insert_split(s.drop_last(), s.last(), Seq::<TagKey>::empty(), s.len() - 1);
        assert(s.drop_last().take(s.len() - 1) =~= s.drop_last());
        assert(s.drop_last().skip(s.len() - 1) =~= Seq::<TagV>::empty());
    }
}

/// Every filtered row matched some condition (or none survived), and came
/// from the table.
proof fn lemma_tag_filtered_sub(conds: Seq<TagCondV>, table: Seq<TagV>)
    ensures
        forall|i: int|
            0 <= i < tag_filtered(conds, table).len() ==> row_matches(
                conds,
                #[trigger] tag_filtered(conds, table)[i],
            ) && table.contains(tag_filtered(conds, table)[i]),
    decreases table.len(),
{
    if table.len() > 0 {
        lemma_tag_filtered_sub(conds, table.drop_last());
        let rest = tag_filtered(conds, table.drop_last());
        assert forall|i: int|
            0 <= i < tag_filtered(conds, table).len() implies row_matches(
            conds,
            #[trigger] tag_filtered(conds, table)[i],
        ) && table.contains(tag_filtered(conds, table)[i]) by {
            if i < rest.len() {
                assert(table.drop_last().contains(rest[i]));
                let w = choose|w: int|
                    0 <= w < table.drop_last().len() && table.drop_last()[w] == rest[i];
                assert(table[w] == rest[i]);
            } else {
                assert(tag_filtered(conds, table)[i] == table.last());
                assert(table[table.len() - 1] == table.last());
            }
        }
    }
}

/// With no surviving condition every table row is kept, in order.
proof fn lemma_tag_filtered_all(table: Seq<TagV>)
    ensures
        tag_filtered(Seq::<TagCondV>::empty(), table) =~= table,
    decreases table.len(),
{
    if table.len() > 0 {
        lemma_tag_filtered_all(table.drop_last());
    }
}

/// For all valid equality tokens, the compiled query keeps exactly the
/// rows whose field matches the token's value, OR-combined with any other
/// supplied filters: a row the token's condition matches is kept by the
/// filter stage, and — with no order tokens — every returned row matched
/// some compiled condition (or no condition survived validation) and came
/// from the table.
pub proof fn lemma_eq_filter_or(p: QParamsV, k: int, t: TagV, table: Seq<TagV>)
    requires
        0 <= k < p.filter.eq.len(),
    ensures
        (eq_cond(p.filter.eq[k]) matches Some(c) && cond_matches(c, t)) ==> row_matches(
            tag_conds(p.filter),
            t,
        ),
        p.order.len() == 0 ==> (spec_tag_query(p, table) matches Ok(rows) ==> forall|i: int|
            0 <= i < rows.len() ==> row_matches(tag_conds(p.filter), #[trigger] rows[i])
                && table.contains(rows[i])),
{
    if eq_cond(p.filter.eq[k]) is Some {
        let c = choose|c: TagCondV| eq_cond(p.filter.eq[k]) == Some(c);
        lemma_eq_conds_member(p.filter.eq, k);
        assert(eq_conds(p.filter.eq).contains(c));
        let w = choose|w: int|
            0 <= w < eq_conds(p.filter.eq).len() && eq_conds(p.filter.eq)[w] == c;
        assert(tag_conds(p.filter)[w] == c);
        if cond_matches(c, t) {
            assert(row_matches(tag_conds(p.filter), t));
        }
    }
    if p.order.len() == 0 && spec_tag_query(p, table) is Ok {
        let conds = tag_conds(p.filter);
        let filtered = tag_filtered(conds, table);
        assert(tag_keys(p.order) =~= Seq::<TagKey>::empty());
        lemma_tag_filtered_sub(conds, table);
        lemma_tag_sort_no_keys(filtered);
        let sorted = tag_sort(filtered, tag_keys(p.order));
        let start = match p.start {
            Some(s) => s,
            None => 0int,
        };
        let limit = match p.step {
            Some(s) => s,
            None => spec_calculate_limit(p.filter),
        };
        let rows = page(sorted, start, limit);
        assert forall|i: int|
            0 <= i < rows.len() implies row_matches(conds, #[trigger] rows[i]) && table.contains(
            rows[i],
        ) by {
            assert(rows[i] == filtered[start + i]);
        }
    }
}

/// A bucket's compiled conditions include the condition of each token that
/// validated.
proof fn lemma_eq_conds_member(tokens: Seq<Seq<char>>, k: int)
    requires
        0 <= k < tokens.len(),
        eq_cond(tokens[k]) is Some,
    ensures
        forall|c: TagCondV| eq_cond(tokens[k]) == Some(c) ==> eq_conds(tokens).contains(c),
    decreases tokens.len(),
{
    if k == tokens.len() - 1 {
        assert forall|c: TagCondV| eq_cond(tokens[k]) == Some(c) implies eq_conds(
            tokens,
        ).contains(c) by {
            let e = eq_conds(tokens);
            assert(e[e.len() - 1] == c);
        }
    } else {
        assert(tokens.drop_last()[k] == tokens[k]);
        lemma_eq_conds_member(tokens.drop_last(), k);
        assert forall|c: TagCondV| eq_cond(tokens[k]) == Some(c) implies eq_conds(
            tokens,
        ).contains(c) by {
            let rest = eq_conds(tokens.drop_last());
            assert(rest.contains(c));
            let w = choose|w: int| 0 <= w < rest.len() && rest[w] == c;
            assert(eq_conds(tokens)[w] == c);
        }
    }
}

/// A filter set with nothing in any bucket.
pub open spec fn empty_filters() -> FiltersV {
    FiltersV { eq: seq![], like: seq![], ge: seq![], le: seq![], between: seq![] }
}

/// An entirely empty filter set with no explicit limit returns zero rows —
/// the deliberate "match nothing" sentinel — while the same filters with
/// an explicit step return the first rows of the table, up to `step` of
/// them.
pub proof fn lemma_empty_filter_limits(table: Seq<TagV>, step: int)
    requires
        step >= 0,
    ensures
        spec_tag_query(
            QParamsV { start: None, step: None, filter: empty_filters(), order: seq![] },
            table,
        ) == Ok::<Seq<TagV>, QueryError>(Seq::<TagV>::empty()),
        spec_tag_query(
            QParamsV { start: Some(0), step: Some(step), filter: empty_filters(), order: seq![] },
            table,
        ) matches Ok(rows) && rows.len() <= step && rows =~= (if step >= table.len() {
            table
        } else {
            table.take(step)
        }),
{
    let f = empty_filters();
    assert(tag_conds(f) =~= Seq::<TagCondV>::empty());
    lemma_tag_filtered_all(table);
    assert(tag_filtered(tag_conds(f), table) == table);
    assert(tag_keys(Seq::<Seq<char>>::empty()) =~= Seq::<TagKey>::empty());
    lemma_tag_sort_no_keys(table);
    assert(tag_sort(table, tag_keys(Seq::<Seq<char>>::empty())) == table);
    assert(crate::models::filters_empty(f));
    assert(page(table, 0, 0) =~= Seq::<TagV>::empty());
    if step >= table.len() {
        if table.len() > 0 {
            assert(table.skip(0) =~= table);
        }
        assert(page(table, 0, step) =~= table);
    } else {
        assert(table.skip(0) =~= table);
        assert(page(table, 0, step) =~= table.take(step));
    }
}

} // verus!
