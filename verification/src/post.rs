//! The query compiler for the post table: validated filter tokens, compiled
//! conditions, and the executable query over a sequence of post rows.
//!
//! Date-valued fields parse from `YYYY-MM-DD`; a date compared against the
//! datetime-typed `created` column counts as midnight.  A condition on a
//! nullable column never matches a row where that column is absent, and
//! absent values sort before present ones on an ascending key.

use vstd::prelude::*;

use crate::dates::{current_date, date_of, parse_date};
use crate::db::{Db, posts_contain_id, unique_post_ids};
use crate::models::{
    AResponse, BlogEntry, BlogEntryV, BlogTags, Custom, Date, DateTime, ErrorDetail, Filters,
    FiltersV, QParams, QParamsV, QueryError, Status, Tag, TagV, date_le, datetime_le,
    spec_calculate_limit,
};
use crate::tag::{id_params, id_token, idq, lemma_page_whole, lemma_tags_with_id, tags_with_id};
use crate::text::{
    Cmp, chars_eq_str, chars_le, chars_string, cmp_chars, dec_chars_i64, dec_str, find_char,
    find_char_x, like_match, like_match_x, lower, lower_chars, parse_i32, parse_i32_x, str_chars,
    subvec,
};

verus! {

impl DeepView for BlogEntry {
    type V = BlogEntryV;

    open spec fn deep_view(&self) -> BlogEntryV {
        self@
    }
}

impl BlogEntry {
    /// A row holding the same fields.
    pub fn duplicate(&self) -> (r: BlogEntry)
        ensures
            r@ == self@,
    {
        BlogEntry {
            id: self.id,
            title: self.title.clone(),
            author: self.author.clone(),
            created: self.created,
            last_updated: self.last_updated,
            content: match &self.content {
                Some(c) => Some(c.clone()),
                None => None,
            },
        }
    }
}

/// Three-way comparison of dates, from their lexicographic order.
pub open spec fn date_cmp(a: Date, b: Date) -> Cmp {
    if a == b {
        Cmp::Equal
    } else if date_le(a, b) {
        Cmp::Less
    } else {
        Cmp::Greater
    }
}

/// Three-way comparison of date-times.
pub open spec fn datetime_cmp(a: DateTime, b: DateTime) -> Cmp {
    if a == b {
        Cmp::Equal
    } else if datetime_le(a, b) {
        Cmp::Less
    } else {
        Cmp::Greater
    }
}

/// Three-way comparison of dates.
pub fn date_cmp_x(a: &Date, b: &Date) -> (r: Cmp)
    ensures
        r == date_cmp(*a, *b),
{
    if a.year == b.year && a.month == b.month && a.day == b.day {
        Cmp::Equal
    } else if a.is_le(b) {
        Cmp::Less
    } else {
        Cmp::Greater
    }
}

/// Three-way comparison of date-times.
pub fn datetime_cmp_x(a: &DateTime, b: &DateTime) -> (r: Cmp)
    ensures
        r == datetime_cmp(*a, *b),
{
    if a.date.year == b.date.year && a.date.month == b.date.month && a.date.day == b.date.day
        && a.secs == b.secs {
        Cmp::Equal
    } else if a.is_le(b) {
        Cmp::Less
    } else {
        Cmp::Greater
    }
}

// ---------------------------------------------------------------------------
// Token validation
// ---------------------------------------------------------------------------

/// A validated `"field=value"` token for the post table, with its typed
/// value.
#[derive(Debug, PartialEq, Clone)]
pub enum PostFields {
    Id(i32),
    Title(String),
    Author(String),
    Created(DateTime),
    LastUpdated(Date),
    Content(String),
}

/// The mathematical value of a validated post token.
pub ghost enum PostFieldsV {
    Id(int),
    Title(Seq<char>),
    Author(Seq<char>),
    Created(DateTime),
    LastUpdated(Date),
    Content(Seq<char>),
}

impl View for PostFields {
    type V = PostFieldsV;

    open spec fn view(&self) -> PostFieldsV {
        match self {
            PostFields::Id(n) => PostFieldsV::Id(*n as int),
            PostFields::Title(s) => PostFieldsV::Title(s@),
            PostFields::Author(s) => PostFieldsV::Author(s@),
            PostFields::Created(d) => PostFieldsV::Created(*d),
            PostFields::LastUpdated(d) => PostFieldsV::LastUpdated(*d),
            PostFields::Content(s) => PostFieldsV::Content(s@),
        }
    }
}

/// The date a parsed `(year, month, day)` triple denotes.
pub open spec fn date_from_parts(t: (int, int, int)) -> Date {
    Date { year: t.0 as i32, month: t.1 as u8, day: t.2 as u8 }
}

/// What validation makes of a raw token for the post table.
pub open spec fn spec_validation(qp: Seq<char>) -> Option<PostFieldsV> {
    match find_char(qp, '=') {
        None => None,
        Some(i) => {
            let k = lower(qp.take(i));
            let v = qp.skip(i + 1);
            if k == "id"@ {
                match parse_i32(v) {
                    Some(n) => Some(PostFieldsV::Id(n)),
                    None => None,
                }
            } else if k == "title"@ {
                Some(PostFieldsV::Title(v))
            } else if k == "author"@ {
                Some(PostFieldsV::Author(v))
            } else if k == "content"@ {
                Some(PostFieldsV::Content(v))
            } else if k == "created"@ {
                match date_of(v) {
                    Some(t) => Some(
                        PostFieldsV::Created(DateTime { date: date_from_parts(t), secs: 0 }),
                    ),
                    None => None,
                }
            } else if k == "lastupdated"@ {
                match date_of(v) {
                    Some(t) => Some(PostFieldsV::LastUpdated(date_from_parts(t))),
                    None => None,
                }
            } else {
                None
            }
        },
    }
}

/// Validates one raw filter token for the post table.
pub fn validation(qp: String) -> (r: Option<PostFields>)
    ensures
        match r {
            Some(f) => spec_validation(qp@) == Some(f@),
            None => spec_validation(qp@) is None,
        },
{
    let cs = str_chars(qp.as_str());
    match find_char_x(&cs, '=') {
        None => None,
        Some(i) => {
            proof {
                crate::text::lemma_find_char(cs@, '=');
            }
            let key = subvec(&cs, 0, i);
            let key = lower_chars(&key);
            let val = subvec(&cs, i + 1, cs.len());
            proof {
                assert(cs@.subrange(0, i as int) =~= cs@.take(i as int));
                assert(cs@.subrange(i + 1, cs@.len() as int) =~= cs@.skip(i + 1));
            }
            if chars_eq_str(&key, "id") {
                match parse_i32_x(&val) {
                    Some(n) => Some(PostFields::Id(n)),
                    None => None,
                }
            } else if chars_eq_str(&key, "title") {
                Some(PostFields::Title(chars_string(&val)))
            } else if chars_eq_str(&key, "author") {
                Some(PostFields::Author(chars_string(&val)))
            } else if chars_eq_str(&key, "content") {
                Some(PostFields::Content(chars_string(&val)))
            } else if chars_eq_str(&key, "created") {
                let vs = chars_string(&val);
                match parse_date(vs.as_str()) {
                    Some(d) => Some(PostFields::Created(DateTime::midnight(d))),
                    None => None,
                }
            } else if chars_eq_str(&key, "lastupdated") {
                let vs = chars_string(&val);
                match parse_date(vs.as_str()) {
                    Some(d) => Some(PostFields::LastUpdated(d)),
                    None => None,
                }
            } else {
                None
            }
        },
    }
}

// ---------------------------------------------------------------------------
// Compiled conditions
// ---------------------------------------------------------------------------

/// One compiled comparison against the post table.
#[derive(Debug, PartialEq, Clone)]
pub enum PostCond {
    EqId(i32),
    EqTitle(String),
    EqAuthor(String),
    EqCreated(DateTime),
    EqLastUpdated(Date),
    EqContent(String),
    GeId(i32),
    GeTitle(String),
    GeAuthor(String),
    GeCreated(DateTime),
    GeLastUpdated(Date),
    GeContent(String),
    LeId(i32),
    LeTitle(String),
    LeAuthor(String),
    LeCreated(DateTime),
    LeLastUpdated(Date),
    LeContent(String),
    LikeTitle(String),
    LikeAuthor(String),
    LikeContent(String),
    BetweenId(i32, i32),
    BetweenTitle(String, String),
    BetweenCreated(DateTime, DateTime),
    BetweenLastUpdated(Date, Date),
}

/// The mathematical value of a compiled post condition.
pub ghost enum PostCondV {
    EqId(int),
    EqTitle(Seq<char>),
    EqAuthor(Seq<char>),
    EqCreated(DateTime),
    EqLastUpdated(Date),
    EqContent(Seq<char>),
    GeId(int),
    GeTitle(Seq<char>),
    GeAuthor(Seq<char>),
    GeCreated(DateTime),
    GeLastUpdated(Date),
    GeContent(Seq<char>),
    LeId(int),
    LeTitle(Seq<char>),
    LeAuthor(Seq<char>),
    LeCreated(DateTime),
    LeLastUpdated(Date),
    LeContent(Seq<char>),
    LikeTitle(Seq<char>),
    LikeAuthor(Seq<char>),
    LikeContent(Seq<char>),
    BetweenId(int, int),
    BetweenTitle(Seq<char>, Seq<char>),
    BetweenCreated(DateTime, DateTime),
    BetweenLastUpdated(Date, Date),
}

impl View for PostCond {
    type V = PostCondV;

    open spec fn view(&self) -> PostCondV {
        match self {
            PostCond::EqId(n) => PostCondV::EqId(*n as int),
            PostCond::EqTitle(s) => PostCondV::EqTitle(s@),
            PostCond::EqAuthor(s) => PostCondV::EqAuthor(s@),
            PostCond::EqCreated(d) => PostCondV::EqCreated(*d),
            PostCond::EqLastUpdated(d) => PostCondV::EqLastUpdated(*d),
            PostCond::EqContent(s) => PostCondV::EqContent(s@),
            PostCond::GeId(n) => PostCondV::GeId(*n as int),
            PostCond::GeTitle(s) => PostCondV::GeTitle(s@),
            PostCond::GeAuthor(s) => PostCondV::GeAuthor(s@),
            PostCond::GeCreated(d) => PostCondV::GeCreated(*d),
            PostCond::GeLastUpdated(d) => PostCondV::GeLastUpdated(*d),
            PostCond::GeContent(s) => PostCondV::GeContent(s@),
            PostCond::LeId(n) => PostCondV::LeId(*n as int),
            PostCond::LeTitle(s) => PostCondV::LeTitle(s@),
            PostCond::LeAuthor(s) => PostCondV::LeAuthor(s@),
            PostCond::LeCreated(d) => PostCondV::LeCreated(*d),
            PostCond::LeLastUpdated(d) => PostCondV::LeLastUpdated(*d),
            PostCond::LeContent(s) => PostCondV::LeContent(s@),
            PostCond::LikeTitle(s) => PostCondV::LikeTitle(s@),
            PostCond::LikeAuthor(s) => PostCondV::LikeAuthor(s@),
            PostCond::LikeContent(s) => PostCondV::LikeContent(s@),
            PostCond::BetweenId(a, b) => PostCondV::BetweenId(*a as int, *b as int),
            PostCond::BetweenTitle(a, b) => PostCondV::BetweenTitle(a@, b@),
            PostCond::BetweenCreated(a, b) => PostCondV::BetweenCreated(*a, *b),
            PostCond::BetweenLastUpdated(a, b) => PostCondV::BetweenLastUpdated(*a, *b),
        }
    }
}

impl DeepView for PostCond {
    type V = PostCondV;

    open spec fn deep_view(&self) -> PostCondV {
        self@
    }
}

/// The condition one equality token compiles to, if any.
pub open spec fn eq_cond(s: Seq<char>) -> Option<PostCondV> {
    match spec_validation(s) {
        Some(PostFieldsV::Id(n)) => Some(PostCondV::EqId(n)),
        Some(PostFieldsV::Title(t)) => Some(PostCondV::EqTitle(t)),
        Some(PostFieldsV::Author(a)) => Some(PostCondV::EqAuthor(a)),
        Some(PostFieldsV::Created(d)) => Some(PostCondV::EqCreated(d)),
        Some(PostFieldsV::LastUpdated(d)) => Some(PostCondV::EqLastUpdated(d)),
        Some(PostFieldsV::Content(c)) => Some(PostCondV::EqContent(c)),
        None => None,
    }
}

/// The condition one greater-or-equal token compiles to, if any.
pub open spec fn ge_cond(s: Seq<char>) -> Option<PostCondV> {
    match spec_validation(s) {
        Some(PostFieldsV::Id(n)) => Some(PostCondV::GeId(n)),
        Some(PostFieldsV::Title(t)) => Some(PostCondV::GeTitle(t)),
        Some(PostFieldsV::Author(a)) => Some(PostCondV::GeAuthor(a)),
        Some(PostFieldsV::Created(d)) => Some(PostCondV::GeCreated(d)),
        Some(PostFieldsV::LastUpdated(d)) => Some(PostCondV::GeLastUpdated(d)),
        Some(PostFieldsV::Content(c)) => Some(PostCondV::GeContent(c)),
        None => None,
    }
}

/// The condition one less-or-equal token compiles to, if any.
pub open spec fn le_cond(s: Seq<char>) -> Option<PostCondV> {
    match spec_validation(s) {
        Some(PostFieldsV::Id(n)) => Some(PostCondV::LeId(n)),
        Some(PostFieldsV::Title(t)) => Some(PostCondV::LeTitle(t)),
        Some(PostFieldsV::Author(a)) => Some(PostCondV::LeAuthor(a)),
        Some(PostFieldsV::Created(d)) => Some(PostCondV::LeCreated(d)),
        Some(PostFieldsV::LastUpdated(d)) => Some(PostCondV::LeLastUpdated(d)),
        Some(PostFieldsV::Content(c)) => Some(PostCondV::LeContent(c)),
        None => None,
    }
}

/// The condition one pattern token compiles to, if any: only text fields
/// take a pattern.
pub open spec fn like_cond(s: Seq<char>) -> Option<PostCondV> {
    match spec_validation(s) {
        Some(PostFieldsV::Title(t)) => Some(PostCondV::LikeTitle(t)),
        Some(PostFieldsV::Author(a)) => Some(PostCondV::LikeAuthor(a)),
        Some(PostFieldsV::Content(c)) => Some(PostCondV::LikeContent(c)),
        _ => None,
    }
}

/// The condition one between token compiles to, if any: the value must be
/// a comma-separated pair, each side independently converted; if either
/// side fails, the whole condition is dropped.
pub open spec fn between_cond(s: Seq<char>) -> Option<PostCondV> {
    match find_char(s, '=') {
        None => None,
        Some(i) => {
            let k = lower(s.take(i));
            let v = s.skip(i + 1);
            match find_char(v, ',') {
                None => None,
                Some(j) => {
                    let lo = v.take(j);
                    let hi = v.skip(j + 1);
                    if k == "id"@ {
                        match parse_i32(lo) {
                            Some(a) => match parse_i32(hi) {
                                Some(b) => Some(PostCondV::BetweenId(a, b)),
                                None => None,
                            },
                            None => None,
                        }
                    } else if k == "title"@ {
                        Some(PostCondV::BetweenTitle(lo, hi))
                    } else if k == "created"@ {
                        match date_of(lo) {
                            Some(a) => match date_of(hi) {
                                Some(b) => Some(
                                    PostCondV::BetweenCreated(
                                        DateTime { date: date_from_parts(a), secs: 0 },
                                        DateTime { date: date_from_parts(b), secs: 0 },
                                    ),
                                ),
                                None => None,
                            },
                            None => None,
                        }
                    } else if k == "lastupdated"@ {
                        match date_of(lo) {
                            Some(a) => match date_of(hi) {
                                Some(b) => Some(
                                    PostCondV::BetweenLastUpdated(
                                        date_from_parts(a),
                                        date_from_parts(b),
                                    ),
                                ),
                                None => None,
                            },
                            None => None,
                        }
                    } else {
                        None
                    }
                },
            }
        },
    }
}

/// The conditions a bucket of equality tokens compiles to.
pub open spec fn eq_conds(tokens: Seq<Seq<char>>) -> Seq<PostCondV>
    decreases tokens.len(),
{
    if tokens.len() == 0 {
        seq![]
    } else {
        let rest = eq_conds(tokens.drop_last());
        match eq_cond(tokens.last()) {
            Some(c) => rest.push(c),
            None => rest,
        }
    }
}

/// The conditions a bucket of greater-or-equal tokens compiles to.
pub open spec fn ge_conds(tokens: Seq<Seq<char>>) -> Seq<PostCondV>
    decreases tokens.len(),
{
    if tokens.len() == 0 {
        seq![]
    } else {
        let rest = ge_conds(tokens.drop_last());
        match ge_cond(tokens.last()) {
            Some(c) => rest.push(c),
            None => rest,
        }
    }
}

/// The conditions a bucket of less-or-equal tokens compiles to.
pub open spec fn le_conds(tokens: Seq<Seq<char>>) -> Seq<PostCondV>
    decreases tokens.len(),
{
    if tokens.len() == 0 {
        seq![]
    } else {
        let rest = le_conds(tokens.drop_last());
        match le_cond(tokens.last()) {
            Some(c) => rest.push(c),
            None => rest,
        }
    }
}

/// The conditions a bucket of pattern tokens compiles to.
pub open spec fn like_conds(tokens: Seq<Seq<char>>) -> Seq<PostCondV>
    decreases tokens.len(),
{
    if tokens.len() == 0 {
        seq![]
    } else {
        let rest = like_conds(tokens.drop_last());
        match like_cond(tokens.last()) {
            Some(c) => rest.push(c),
            None => rest,
        }
    }
}

/// The conditions a bucket of between tokens compiles to.
pub open spec fn between_conds(tokens: Seq<Seq<char>>) -> Seq<PostCondV>
    decreases tokens.len(),
{
    if tokens.len() == 0 {
        seq![]
    } else {
        let rest = between_conds(tokens.drop_last());
        match between_cond(tokens.last()) {
            Some(c) => rest.push(c),
            None => rest,
        }
    }
}

/// Every condition a filter set compiles to, bucket by bucket.
pub open spec fn post_conds(f: FiltersV) -> Seq<PostCondV> {
    eq_conds(f.eq) + ge_conds(f.ge) + le_conds(f.le) + like_conds(f.like) + between_conds(
        f.between,
    )
}

// ---------------------------------------------------------------------------
// Condition evaluation
// ---------------------------------------------------------------------------

/// Whether one condition holds of a row.  A condition on a nullable column
/// never matches a row whose column is absent.
pub open spec fn cond_matches(c: PostCondV, p: BlogEntryV) -> bool {
    match c {
        PostCondV::EqId(n) => p.id == n,
        PostCondV::EqTitle(s) => p.title == s,
        PostCondV::EqAuthor(s) => p.author == s,
        PostCondV::EqCreated(d) => p.created == Some(d),
        PostCondV::EqLastUpdated(d) => p.last_updated == Some(d),
        PostCondV::EqContent(s) => p.content == Some(s),
        PostCondV::GeId(n) => p.id >= n,
        PostCondV::GeTitle(s) => chars_le(s, p.title),
        PostCondV::GeAuthor(s) => chars_le(s, p.author),
        PostCondV::GeCreated(d) => p.created matches Some(c) && datetime_le(d, c),
        PostCondV::GeLastUpdated(d) => p.last_updated matches Some(u) && date_le(d, u),
        PostCondV::GeContent(s) => p.content matches Some(c) && chars_le(s, c),
        PostCondV::LeId(n) => p.id <= n,
        PostCondV::LeTitle(s) => chars_le(p.title, s),
        PostCondV::LeAuthor(s) => chars_le(p.author, s),
        PostCondV::LeCreated(d) => p.created matches Some(c) && datetime_le(c, d),
        PostCondV::LeLastUpdated(d) => p.last_updated matches Some(u) && date_le(u, d),
        PostCondV::LeContent(s) => p.content matches Some(c) && chars_le(c, s),
        PostCondV::LikeTitle(pat) => like_match(pat, p.title),
        PostCondV::LikeAuthor(pat) => like_match(pat, p.author),
        PostCondV::LikeContent(pat) => p.content matches Some(c) && like_match(pat, c),
        PostCondV::BetweenId(a, b) => a <= p.id && p.id <= b,
        PostCondV::BetweenTitle(a, b) => chars_le(a, p.title) && chars_le(p.title, b),
        PostCondV::BetweenCreated(a, b) => p.created matches Some(c) && datetime_le(a, c)
            && datetime_le(c, b),
        PostCondV::BetweenLastUpdated(a, b) => p.last_updated matches Some(u) && date_le(a, u)
            && date_le(u, b),
    }
}

/// Whether a row is kept: with no surviving condition every row is kept;
/// otherwise some condition must match.
pub open spec fn row_matches(conds: Seq<PostCondV>, p: BlogEntryV) -> bool {
    conds.len() == 0 || exists|i: int| 0 <= i < conds.len() && cond_matches(conds[i], p)
}

/// The rows of `table` that the conditions keep, in table order.
pub open spec fn post_filtered(conds: Seq<PostCondV>, table: Seq<BlogEntryV>) -> Seq<BlogEntryV>
    decreases table.len(),
{
    if table.len() == 0 {
        seq![]
    } else {
        let rest = post_filtered(conds, table.drop_last());
        if row_matches(conds, table.last()) {
            rest.push(table.last())
        } else {
            rest
        }
    }
}

/// Compares a string field against a bound, `bound <= field`.
fn str_ge(bound: &String, field: &String) -> (r: bool)
    ensures
        r == chars_le(bound@, field@),
{
    let a = str_chars(bound.as_str());
    let b = str_chars(field.as_str());
    crate::text::cmp_chars_x(&a, &b) != Cmp::Greater
}

/// Whether one condition holds of a row.
pub fn cond_matches_x(c: &PostCond, p: &BlogEntry) -> (r: bool)
    ensures
        r == cond_matches(c@, p@),
{
    match c {
        PostCond::EqId(n) => p.id == *n,
        PostCond::EqTitle(s) => p.title == *s,
        PostCond::EqAuthor(s) => p.author == *s,
        PostCond::EqCreated(d) => match &p.created {
            Some(pc) => pc.date.year == d.date.year && pc.date.month == d.date.month
                && pc.date.day == d.date.day && pc.secs == d.secs,
            None => false,
        },
        PostCond::EqLastUpdated(d) => match &p.last_updated {
            Some(u) => u.year == d.year && u.month == d.month && u.day == d.day,
            None => false,
        },
        PostCond::EqContent(s) => match &p.content {
            Some(c) => *c == *s,
            None => false,
        },
        PostCond::GeId(n) => p.id >= *n,
        PostCond::GeTitle(s) => str_ge(s, &p.title),
        PostCond::GeAuthor(s) => str_ge(s, &p.author),
        PostCond::GeCreated(d) => match &p.created {
            Some(pc) => d.is_le(pc),
            None => false,
        },
        PostCond::GeLastUpdated(d) => match &p.last_updated {
            Some(u) => d.is_le(u),
            None => false,
        },
        PostCond::GeContent(s) => match &p.content {
            Some(c) => str_ge(s, c),
            None => false,
        },
        PostCond::LeId(n) => p.id <= *n,
        PostCond::LeTitle(s) => str_ge(&p.title, s),
        PostCond::LeAuthor(s) => str_ge(&p.author, s),
        PostCond::LeCreated(d) => match &p.created {
            Some(pc) => pc.is_le(d),
            None => false,
        },
        PostCond::LeLastUpdated(d) => match &p.last_updated {
            Some(u) => u.is_le(d),
            None => false,
        },
        PostCond::LeContent(s) => match &p.content {
            Some(c) => str_ge(c, s),
            None => false,
        },
        PostCond::LikeTitle(pat) => {
            let pv = str_chars(pat.as_str());
            let tv = str_chars(p.title.as_str());
            like_match_x(&pv, &tv)
        },
        PostCond::LikeAuthor(pat) => {
            let pv = str_chars(pat.as_str());
            let tv = str_chars(p.author.as_str());
            like_match_x(&pv, &tv)
        },
        PostCond::LikeContent(pat) => match &p.content {
            Some(c) => {
                let pv = str_chars(pat.as_str());
                let tv = str_chars(c.as_str());
                like_match_x(&pv, &tv)
            },
            None => false,
        },
        PostCond::BetweenId(a, b) => *a <= p.id && p.id <= *b,
        PostCond::BetweenTitle(a, b) => str_ge(a, &p.title) && str_ge(&p.title, b),
        PostCond::BetweenCreated(a, b) => match &p.created {
            Some(pc) => a.is_le(pc) && pc.is_le(b),
            None => false,
        },
        PostCond::BetweenLastUpdated(a, b) => match &p.last_updated {
            Some(u) => a.is_le(u) && u.is_le(b),
            None => false,
        },
    }
}

/// Whether any condition holds of the row (or none was supplied).
pub fn row_matches_x(conds: &Vec<PostCond>, p: &BlogEntry) -> (r: bool)
    ensures
        r == row_matches(conds.deep_view(), p@),
{
    if conds.len() == 0 {
        return true;
    }
    let mut i: usize = 0;
    while i < conds.len()
        invariant
            i <= conds.len(),
            forall|j: int| 0 <= j < i ==> !cond_matches(conds.deep_view()[j], p@),
        decreases conds.len() - i,
    {
        if cond_matches_x(&conds[i], p) {
            proof {
                assert(cond_matches(conds.deep_view()[i as int], p@));
            }
            return true;
        }
        i = i + 1;
    }
    false
}

// ---------------------------------------------------------------------------
// Sort keys
// ---------------------------------------------------------------------------

/// A recognized order token for the post table.
#[derive(Clone, Copy, PartialEq, Eq, Structural, Debug)]
pub enum PostKey {
    IdAsc,
    IdDesc,
    TitleAsc,
    TitleDesc,
    AuthorAsc,
    AuthorDesc,
    CreatedAsc,
    CreatedDesc,
    LastUpdatedAsc,
    LastUpdatedDesc,
}

/// The sort key one order token denotes, if any.  Post order tokens are
/// case-folded before matching; unrecognized tokens are ignored.
pub open spec fn post_key(s: Seq<char>) -> Option<PostKey> {
    let t = lower(s);
    if t == "id"@ {
        Some(PostKey::IdAsc)
    } else if t == "-id"@ {
        Some(PostKey::IdDesc)
    } else if t == "title"@ {
        Some(PostKey::TitleAsc)
    } else if t == "-title"@ {
        Some(PostKey::TitleDesc)
    } else if t == "author"@ {
        Some(PostKey::AuthorAsc)
    } else if t == "-author"@ {
        Some(PostKey::AuthorDesc)
    } else if t == "created"@ {
        Some(PostKey::CreatedAsc)
    } else if t == "-created"@ {
        Some(PostKey::CreatedDesc)
    } else if t == "lastupdated"@ {
        Some(PostKey::LastUpdatedAsc)
    } else if t == "-lastupdated"@ {
        Some(PostKey::LastUpdatedDesc)
    } else {
        None
    }
}

/// The sort keys an order list denotes, in caller order.
pub open spec fn post_keys(order: Seq<Seq<char>>) -> Seq<PostKey>
    decreases order.len(),
{
    if order.len() == 0 {
        seq![]
    } else {
        let rest = post_keys(order.drop_last());
        match post_key(order.last()) {
            Some(k) => rest.push(k),
            None => rest,
        }
    }
}

/// Three-way comparison of optional date-times: an absent value sorts
/// before any present one.
pub open spec fn opt_datetime_cmp(a: Option<DateTime>, b: Option<DateTime>) -> Cmp {
    match (a, b) {
        (None, None) => Cmp::Equal,
        (None, Some(_)) => Cmp::Less,
        (Some(_), None) => Cmp::Greater,
        (Some(x), Some(y)) => datetime_cmp(x, y),
    }
}

/// Three-way comparison of optional dates: an absent value sorts before
/// any present one.
pub open spec fn opt_date_cmp(a: Option<Date>, b: Option<Date>) -> Cmp {
    match (a, b) {
        (None, None) => Cmp::Equal,
        (None, Some(_)) => Cmp::Less,
        (Some(_), None) => Cmp::Greater,
        (Some(x), Some(y)) => date_cmp(x, y),
    }
}

/// Reverses a comparison outcome.
pub open spec fn flip(c: Cmp) -> Cmp {
    match c {
        Cmp::Less => Cmp::Greater,
        Cmp::Equal => Cmp::Equal,
        Cmp::Greater => Cmp::Less,
    }
}

/// Three-way integer comparison.
pub open spec fn int_cmp(a: int, b: int) -> Cmp {
    if a < b {
        Cmp::Less
    } else if a == b {
        Cmp::Equal
    } else {
        Cmp::Greater
    }
}

/// How one sort key orders two rows.
pub open spec fn key_cmp(k: PostKey, a: BlogEntryV, b: BlogEntryV) -> Cmp {
    match k {
        PostKey::IdAsc => int_cmp(a.id, b.id),
        PostKey::IdDesc => flip(int_cmp(a.id, b.id)),
        PostKey::TitleAsc => cmp_chars(a.title, b.title),
        PostKey::TitleDesc => flip(cmp_chars(a.title, b.title)),
        PostKey::AuthorAsc => cmp_chars(a.author, b.author),
        PostKey::AuthorDesc => flip(cmp_chars(a.author, b.author)),
        PostKey::CreatedAsc => opt_datetime_cmp(a.created, b.created),
        PostKey::CreatedDesc => flip(opt_datetime_cmp(a.created, b.created)),
        PostKey::LastUpdatedAsc => opt_date_cmp(a.last_updated, b.last_updated),
        PostKey::LastUpdatedDesc => flip(opt_date_cmp(a.last_updated, b.last_updated)),
    }
}

/// How a key list orders two rows: the first key that distinguishes them
/// decides.
pub open spec fn keys_cmp(keys: Seq<PostKey>, a: BlogEntryV, b: BlogEntryV) -> Cmp
    decreases keys.len(),
{
    if keys.len() == 0 {
        Cmp::Equal
    } else if key_cmp(keys[0], a, b) == Cmp::Equal {
        keys_cmp(keys.drop_first(), a, b)
    } else {
        key_cmp(keys[0], a, b)
    }
}

/// Where a stable insertion puts `x`: after every row that does not
/// compare greater.
pub open spec fn sort_insert(s: Seq<BlogEntryV>, x: BlogEntryV, keys: Seq<PostKey>) -> Seq<
    BlogEntryV,
>
    decreases s.len(),
{
    if s.len() == 0 {
        seq![x]
    } else if keys_cmp(keys, s[0], x) != Cmp::Greater {
        seq![s[0]] + sort_insert(s.drop_first(), x, keys)
    } else {
        seq![x] + s
    }
}

/// The stable multi-key sort of a row sequence.
pub open spec fn post_sort(s: Seq<BlogEntryV>, keys: Seq<PostKey>) -> Seq<BlogEntryV>
    decreases s.len(),
{
    if s.len() == 0 {
        seq![]
    } else {
        sort_insert(post_sort(s.drop_last(), keys), s.last(), keys)
    }
}

/// Reverses a comparison outcome.
fn flip_x(c: Cmp) -> (r: Cmp)
    ensures
        r == flip(c),
{
    match c {
        Cmp::Less => Cmp::Greater,
        Cmp::Equal => Cmp::Equal,
        Cmp::Greater => Cmp::Less,
    }
}

/// Three-way comparison of optional date-times.
fn opt_datetime_cmp_x(a: &Option<DateTime>, b: &Option<DateTime>) -> (r: Cmp)
    ensures
        r == opt_datetime_cmp(*a, *b),
{
    match (a, b) {
        (None, None) => Cmp::Equal,
        (None, Some(_)) => Cmp::Less,
        (Some(_), None) => Cmp::Greater,
        (Some(x), Some(y)) => datetime_cmp_x(x, y),
    }
}

/// Three-way comparison of optional dates.
fn opt_date_cmp_x(a: &Option<Date>, b: &Option<Date>) -> (r: Cmp)
    ensures
        r == opt_date_cmp(*a, *b),
{
    match (a, b) {
        (None, None) => Cmp::Equal,
        (None, Some(_)) => Cmp::Less,
        (Some(_), None) => Cmp::Greater,
        (Some(x), Some(y)) => date_cmp_x(x, y),
    }
}

/// How one sort key orders two rows.
fn key_cmp_x(k: PostKey, a: &BlogEntry, b: &BlogEntry) -> (r: Cmp)
    ensures
        r == key_cmp(k, a@, b@),
{
    match k {
        PostKey::IdAsc => {
            if a.id < b.id {
                Cmp::Less
            } else if a.id == b.id {
                Cmp::Equal
            } else {
                Cmp::Greater
            }
        },
        PostKey::IdDesc => {
            if a.id < b.id {
                Cmp::Greater
            } else if a.id == b.id {
                Cmp::Equal
            } else {
                Cmp::Less
            }
        },
        PostKey::TitleAsc => {
            let av = str_chars(a.title.as_str());
            let bv = str_chars(b.title.as_str());
            crate::text::cmp_chars_x(&av, &bv)
        },
        PostKey::TitleDesc => {
            let av = str_chars(a.title.as_str());
            let bv = str_chars(b.title.as_str());
            flip_x(crate::text::cmp_chars_x(&av, &bv))
        },
        PostKey::AuthorAsc => {
            let av = str_chars(a.author.as_str());
            let bv = str_chars(b.author.as_str());
            crate::text::cmp_chars_x(&av, &bv)
        },
        PostKey::AuthorDesc => {
            let av = str_chars(a.author.as_str());
            let bv = str_chars(b.author.as_str());
            flip_x(crate::text::cmp_chars_x(&av, &bv))
        },
        PostKey::CreatedAsc => opt_datetime_cmp_x(&a.created, &b.created),
        PostKey::CreatedDesc => flip_x(opt_datetime_cmp_x(&a.created, &b.created)),
        PostKey::LastUpdatedAsc => opt_date_cmp_x(&a.last_updated, &b.last_updated),
        PostKey::LastUpdatedDesc => flip_x(opt_date_cmp_x(&a.last_updated, &b.last_updated)),
    }
}

/// How a key list orders two rows.
fn keys_cmp_x(keys: &Vec<PostKey>, a: &BlogEntry, b: &BlogEntry) -> (r: Cmp)
    ensures
        r == keys_cmp(keys@, a@, b@),
{
    proof {
        assert(keys@.skip(0) =~= keys@);
    }
    let mut i: usize = 0;
    while i < keys.len()
        invariant
            i <= keys.len(),
            keys_cmp(keys@, a@, b@) == keys_cmp(keys@.skip(i as int), a@, b@),
        decreases keys.len() - i,
    {
        proof {
            assert(keys@.skip(i as int)[0] == keys@[i as int]);
            assert(keys@.skip(i as int).drop_first() =~= keys@.skip(i + 1));
        }
        let c = key_cmp_x(keys[i], a, b);
        if !(c == Cmp::Equal) {
            return c;
        }
        i = i + 1;
    }
    proof {
        assert(keys@.skip(keys@.len() as int).len() == 0);
    }
    Cmp::Equal
}

/// A stable insertion lands exactly where the scan below stops.
proof fn lemma_sort_insert_split(s: Seq<BlogEntryV>, x: BlogEntryV, keys: Seq<PostKey>, j: int)
    requires
        0 <= j <= s.len(),
        forall|k: int| 0 <= k < j ==> keys_cmp(keys, s[k], x) != Cmp::Greater,
        j < s.len() ==> keys_cmp(keys, s[j], x) == Cmp::Greater,
    ensures
        sort_insert(s, x, keys) =~= s.take(j) + seq![x] + s.skip(j),
    decreases j,
{
    if j == 0 {
        if s.len() == 0 {
            assert(sort_insert(s, x, keys) =~= seq![x]);
        }
    } else {
        assert(keys_cmp(keys, s[0], x) != Cmp::Greater);
        lemma_sort_insert_split(s.drop_first(), x, keys, j - 1);
        assert(s.drop_first().take(j - 1) =~= s.take(j).drop_first());
        assert(s.drop_first().skip(j - 1) =~= s.skip(j));
    }
}

/// The position a stable insertion puts `x` at.
fn insert_pos(out: &Vec<BlogEntry>, x: &BlogEntry, keys: &Vec<PostKey>) -> (j: usize)
    ensures
        j <= out.len(),
        forall|k: int| 0 <= k < j ==> keys_cmp(keys@, out.deep_view()[k], x@) != Cmp::Greater,
        j < out.len() ==> keys_cmp(keys@, out.deep_view()[j as int], x@) == Cmp::Greater,
{
    let mut j: usize = 0;
    while j < out.len()
        invariant
            j <= out.len(),
            forall|k: int| 0 <= k < j ==> keys_cmp(keys@, out.deep_view()[k], x@)
                != Cmp::Greater,
        decreases out.len() - j,
    {
        let c = keys_cmp_x(keys, &out[j], x);
        if c == Cmp::Greater {
            return j;
        }
        j = j + 1;
    }
    j
}

/// Stable multi-key insertion sort of post rows.
fn sort_posts(rows: Vec<BlogEntry>, keys: &Vec<PostKey>) -> (r: Vec<BlogEntry>)
    ensures
        r.deep_view() == post_sort(rows.deep_view(), keys@),
{
    let mut out: Vec<BlogEntry> = Vec::new();
    let mut rows = rows;
    let ghost all = rows.deep_view();
    let mut i: usize = 0;
    while i < rows.len()
        invariant
            i <= rows.len(),
            rows.deep_view() == all,
            out.deep_view() == post_sort(all.take(i as int), keys@),
        decreases rows.len() - i,
    {
        let ghost pre = out.deep_view();
        let x = rows[i].duplicate();
        let j = insert_pos(&out, &x, keys);
        proof {
            lemma_sort_insert_split(pre, x@, keys@, j as int);
        }
        out.insert(j, x);
        proof {
            assert(out.deep_view() =~= pre.take(j as int) + seq![all[i as int]] + pre.skip(
                j as int,
            ));
            assert(all.take(i + 1).drop_last() =~= all.take(i as int));
            assert(all.take(i + 1).last() == all[i as int]);
            assert(out.deep_view() == post_sort(all.take(i + 1), keys@));
        }
        i = i + 1;
    }
    proof {
        assert(all.take(rows@.len() as int) =~= all);
    }
    out
}

// ---------------------------------------------------------------------------
// The compiled query
// ---------------------------------------------------------------------------

/// What the compiled post query returns: the filtered rows, stably sorted
/// by the recognized order tokens, then paged; or an error for a malformed
/// page.
pub open spec fn spec_post_query(p: QParamsV, table: Seq<BlogEntryV>) -> Result<
    Seq<BlogEntryV>,
    QueryError,
> {
    let start = match p.start {
        Some(s) => s,
        None => 0,
    };
    let limit = match p.step {
        Some(s) => s,
        None => spec_calculate_limit(p.filter),
    };
    if start < 0 || limit < 0 {
        Err(QueryError::InvalidRange)
    } else {
        Ok(
            crate::tag::page(
                post_sort(post_filtered(post_conds(p.filter), table), post_keys(p.order)),
                start,
                limit,
            ),
        )
    }
}

/// The view of a query outcome.
pub open spec fn post_rows_view(r: Result<Vec<BlogEntry>, QueryError>) -> Result<
    Seq<BlogEntryV>,
    QueryError,
> {
    match r {
        Ok(rows) => Ok(rows.deep_view()),
        Err(e) => Err(e),
    }
}

/// Compiles every condition a filter set holds.
pub fn post_conditions(f: &Filters) -> (r: Vec<PostCond>)
    ensures
        r.deep_view() == post_conds(f@),
{
    let mut conds: Vec<PostCond> = Vec::new();
    let ghost fv = f@;

    let mut i: usize = 0;
    while i < f.eq.len()
        invariant
            i <= f.eq.len(),
            fv == f@,
            conds.deep_view() =~= eq_conds(fv.eq.take(i as int)),
        decreases f.eq.len() - i,
    {
        proof {
            assert(fv.eq.take(i + 1).drop_last() =~= fv.eq.take(i as int));
            assert(fv.eq.take(i + 1).last() == fv.eq[i as int]);
        }
        match validation(f.eq[i].clone()) {
            Some(PostFields::Id(n)) => conds.push(PostCond::EqId(n)),
            Some(PostFields::Title(t)) => conds.push(PostCond::EqTitle(t)),
            Some(PostFields::Author(a)) => conds.push(PostCond::EqAuthor(a)),
            Some(PostFields::Created(d)) => conds.push(PostCond::EqCreated(d)),
            Some(PostFields::LastUpdated(d)) => conds.push(PostCond::EqLastUpdated(d)),
            Some(PostFields::Content(c)) => conds.push(PostCond::EqContent(c)),
            None => (),
        }
        proof {
            assert(conds.deep_view() =~= eq_conds(fv.eq.take(i + 1)));
        }
        i = i + 1;
    }
    proof {
        assert(fv.eq.take(f.eq@.len() as int) =~= fv.eq);
    }

    let ghost base1 = eq_conds(fv.eq);
    let mut i: usize = 0;
    while i < f.ge.len()
        invariant
            i <= f.ge.len(),
            fv == f@,
            conds.deep_view() =~= base1 + ge_conds(fv.ge.take(i as int)),
        decreases f.ge.len() - i,
    {
        proof {
            assert(fv.ge.take(i + 1).drop_last() =~= fv.ge.take(i as int));
            assert(fv.ge.take(i + 1).last() == fv.ge[i as int]);
        }
        match validation(f.ge[i].clone()) {
            Some(PostFields::Id(n)) => conds.push(PostCond::GeId(n)),
            Some(PostFields::Title(t)) => conds.push(PostCond::GeTitle(t)),
            Some(PostFields::Author(a)) => conds.push(PostCond::GeAuthor(a)),
            Some(PostFields::Created(d)) => conds.push(PostCond::GeCreated(d)),
            Some(PostFields::LastUpdated(d)) => conds.push(PostCond::GeLastUpdated(d)),
            Some(PostFields::Content(c)) => conds.push(PostCond::GeContent(c)),
            None => (),
        }
        proof {
            let g0 = ge_conds(fv.ge.take(i as int));
            let g1 = ge_conds(fv.ge.take(i + 1));
            match ge_cond(fv.ge[i as int]) {
                Some(c) => {
                    assert(g1 == g0.push(c));
                    assert(base1 + g1 =~= (base1 + g0).push(c));
                },
                None => {
                    assert(g1 == g0);
                },
            }
            assert(conds.deep_view() =~= base1 + g1);
        }
        i = i + 1;
    }
    proof {
        assert(fv.ge.take(f.ge@.len() as int) =~= fv.ge);
    }

    let ghost base2 = base1 + ge_conds(fv.ge);
    let mut i: usize = 0;
    while i < f.le.len()
        invariant
            i <= f.le.len(),
            fv == f@,
            conds.deep_view() =~= base2 + le_conds(fv.le.take(i as int)),
        decreases f.le.len() - i,
    {
        proof {
            assert(fv.le.take(i + 1).drop_last() =~= fv.le.take(i as int));
            assert(fv.le.take(i + 1).last() == fv.le[i as int]);
        }
        match validation(f.le[i].clone()) {
            Some(PostFields::Id(n)) => conds.push(PostCond::LeId(n)),
            Some(PostFields::Title(t)) => conds.push(PostCond::LeTitle(t)),
            Some(PostFields::Author(a)) => conds.push(PostCond::LeAuthor(a)),
            Some(PostFields::Created(d)) => conds.push(PostCond::LeCreated(d)),
            Some(PostFields::LastUpdated(d)) => conds.push(PostCond::LeLastUpdated(d)),
            Some(PostFields::Content(c)) => conds.push(PostCond::LeContent(c)),
            None => (),
        }
        proof {
            let g0 = le_conds(fv.le.take(i as int));
            let g1 = le_conds(fv.le.take(i + 1));
            match le_cond(fv.le[i as int]) {
                Some(c) => {
                    assert(g1 == g0.push(c));
                    assert(base2 + g1 =~= (base2 + g0).push(c));
                },
                None => {
                    assert(g1 == g0);
                },
            }
            assert(conds.deep_view() =~= base2 + g1);
        }
        i = i + 1;
    }
    proof {
        assert(fv.le.take(f.le@.len() as int) =~= fv.le);
    }

    let ghost base3 = base2 + le_conds(fv.le);
    let mut i: usize = 0;
    while i < f.like.len()
        invariant
            i <= f.like.len(),
            fv == f@,
            conds.deep_view() =~= base3 + like_conds(fv.like.take(i as int)),
        decreases f.like.len() - i,
    {
        proof {
            assert(fv.like.take(i + 1).drop_last() =~= fv.like.take(i as int));
            assert(fv.like.take(i + 1).last() == fv.like[i as int]);
        }
        match validation(f.like[i].clone()) {
            Some(PostFields::Title(t)) => conds.push(PostCond::LikeTitle(t)),
            Some(PostFields::Author(a)) => conds.push(PostCond::LikeAuthor(a)),
            Some(PostFields::Content(c)) => conds.push(PostCond::LikeContent(c)),
            _ => (),
        }
        proof {
            let g0 = like_conds(fv.like.take(i as int));
            let g1 = like_conds(fv.like.take(i + 1));
            match like_cond(fv.like[i as int]) {
                Some(c) => {
                    assert(g1 == g0.push(c));
                    assert(base3 + g1 =~= (base3 + g0).push(c));
                },
                None => {
                    assert(g1 == g0);
                },
            }
            assert(conds.deep_view() =~= base3 + g1);
        }
        i = i + 1;
    }
    proof {
        assert(fv.like.take(f.like@.len() as int) =~= fv.like);
    }

    let ghost base4 = base3 + like_conds(fv.like);
    let mut i: usize = 0;
    while i < f.between.len()
        invariant
            i <= f.between.len(),
            fv == f@,
            conds.deep_view() =~= base4 + between_conds(fv.between.take(i as int)),
        decreases f.between.len() - i,
    {
        proof {
            assert(fv.between.take(i + 1).drop_last() =~= fv.between.take(i as int));
            assert(fv.between.take(i + 1).last() == fv.between[i as int]);
        }
        let cs = str_chars(f.between[i].as_str());
        match find_char_x(&cs, '=') {
            None => (),
            Some(p) => {
                proof {
                    crate::text::lemma_find_char(cs@, '=');
                }
                let key = subvec(&cs, 0, p);
                let key = lower_chars(&key);
                let val = subvec(&cs, p + 1, cs.len());
                proof {
                    assert(cs@.subrange(0, p as int) =~= cs@.take(p as int));
                    assert(cs@.subrange(p + 1, cs@.len() as int) =~= cs@.skip(p + 1));
                }
                match find_char_x(&val, ',') {
                    None => (),
                    Some(q) => {
                        proof {
                            crate::text::lemma_find_char(val@, ',');
                        }
                        let lo = subvec(&val, 0, q);
                        let hi = subvec(&val, q + 1, val.len());
                        proof {
                            assert(val@.subrange(0, q as int) =~= val@.take(q as int));
                            assert(val@.subrange(q + 1, val@.len() as int) =~= val@.skip(q + 1));
                        }
                        if chars_eq_str(&key, "id") {
                            match parse_i32_x(&lo) {
                                Some(a) => match parse_i32_x(&hi) {
                                    Some(b) => conds.push(PostCond::BetweenId(a, b)),
                                    None => (),
                                },
                                None => (),
                            }
                        } else if chars_eq_str(&key, "title") {
                            conds.push(
                                PostCond::BetweenTitle(chars_string(&lo), chars_string(&hi)),
                            );
                        } else if chars_eq_str(&key, "created") {
                            let los = chars_string(&lo);
                            let his = chars_string(&hi);
                            match parse_date(los.as_str()) {
                                Some(a) => match parse_date(his.as_str()) {
                                    Some(b) => conds.push(
                                        PostCond::BetweenCreated(
                                            DateTime::midnight(a),
                                            DateTime::midnight(b),
                                        ),
                                    ),
                                    None => (),
                                },
                                None => (),
                            }
                        } else if chars_eq_str(&key, "lastupdated") {
                            let los = chars_string(&lo);
                            let his = chars_string(&hi);
                            match parse_date(los.as_str()) {
                                Some(a) => match parse_date(his.as_str()) {
                                    Some(b) => conds.push(PostCond::BetweenLastUpdated(a, b)),
                                    None => (),
                                },
                                None => (),
                            }
                        }
                    },
                }
            },
        }
        proof {
            let g0 = between_conds(fv.between.take(i as int));
            let g1 = between_conds(fv.between.take(i + 1));
            match between_cond(fv.between[i as int]) {
                Some(c) => {
                    assert(g1 == g0.push(c));
                    assert(base4 + g1 =~= (base4 + g0).push(c));
                },
                None => {
                    assert(g1 == g0);
                },
            }
            assert(conds.deep_view() =~= base4 + g1);
        }
        i = i + 1;
    }
    proof {
        assert(fv.between.take(f.between@.len() as int) =~= fv.between);
        assert(conds.deep_view() =~= post_conds(fv));
    }
    conds
}

/// The recognized sort keys of an order list.
pub fn post_sort_keys(order: &Vec<String>) -> (r: Vec<PostKey>)
    ensures
        r@ == post_keys(order.deep_view()),
{
    let mut keys: Vec<PostKey> = Vec::new();
    let ghost ov = order.deep_view();
    let mut i: usize = 0;
    while i < order.len()
        invariant
            i <= order.len(),
            ov == order.deep_view(),
            keys@ =~= post_keys(ov.take(i as int)),
        decreases order.len() - i,
    {
        proof {
            assert(ov.take(i + 1).drop_last() =~= ov.take(i as int));
            assert(ov.take(i + 1).last() == ov[i as int]);
        }
        let cs = str_chars(order[i].as_str());
        let cs = lower_chars(&cs);
        if chars_eq_str(&cs, "id") {
            keys.push(PostKey::IdAsc);
        } else if chars_eq_str(&cs, "-id") {
            keys.push(PostKey::IdDesc);
        } else if chars_eq_str(&cs, "title") {
            keys.push(PostKey::TitleAsc);
        } else if chars_eq_str(&cs, "-title") {
            keys.push(PostKey::TitleDesc);
        } else if chars_eq_str(&cs, "author") {
            keys.push(PostKey::AuthorAsc);
        } else if chars_eq_str(&cs, "-author") {
            keys.push(PostKey::AuthorDesc);
        } else if chars_eq_str(&cs, "created") {
            keys.push(PostKey::CreatedAsc);
        } else if chars_eq_str(&cs, "-created") {
            keys.push(PostKey::CreatedDesc);
        } else if chars_eq_str(&cs, "lastupdated") {
            keys.push(PostKey::LastUpdatedAsc);
        } else if chars_eq_str(&cs, "-lastupdated") {
            keys.push(PostKey::LastUpdatedDesc);
        }
        proof {
            assert(keys@ =~= post_keys(ov.take(i + 1)));
        }
        i = i + 1;
    }
    proof {
        assert(ov.take(order@.len() as int) =~= ov);
    }
    keys
}

/// Compiles and runs the caller's query against the post table: validates
/// each filter token, keeps the rows any surviving condition matches (all
/// rows, when no condition survived), sorts them stably by the recognized
/// order tokens, and pages the result.  When the caller supplied no `step`,
/// an entirely empty filter set yields an empty page.
pub fn parse_and_query(params: QParams, table: &Vec<BlogEntry>) -> (r: Result<
    Vec<BlogEntry>,
    QueryError,
>)
    ensures
        post_rows_view(r) == spec_post_query(params@, table.deep_view()),
{
    let conds = post_conditions(&params.filter);
    let keys = post_sort_keys(&params.order);

    let start: i64 = match params.start {
        Some(s) => s,
        None => 0,
    };
    let limit: i64 = match params.step {
        Some(s) => s,
        None => params.calculate_limit(),
    };
    if start < 0 || limit < 0 {
        return Err(QueryError::InvalidRange);
    }

    let ghost tv = table.deep_view();
    let mut kept: Vec<BlogEntry> = Vec::new();
    let mut i: usize = 0;
    while i < table.len()
        invariant
            i <= table.len(),
            tv == table.deep_view(),
            conds.deep_view() == post_conds(params@.filter),
            kept.deep_view() =~= post_filtered(conds.deep_view(), tv.take(i as int)),
        decreases table.len() - i,
    {
        proof {
            assert(tv.take(i + 1).drop_last() =~= tv.take(i as int));
            assert(tv.take(i + 1).last() == tv[i as int]);
        }
        if row_matches_x(&conds, &table[i]) {
            kept.push(table[i].duplicate());
        }
        proof {
            assert(kept.deep_view() =~= post_filtered(conds.deep_view(), tv.take(i + 1)));
        }
        i = i + 1;
    }
    proof {
        assert(tv.take(table@.len() as int) =~= tv);
    }

    let sorted = sort_posts(kept, &keys);
    let ghost sv = sorted.deep_view();

    // Page: skip `start` rows, then take at most `limit`.
    let mut out: Vec<BlogEntry> = Vec::new();
    let mut skipped: i64 = 0;
    let mut taken: i64 = 0;
    let mut i: usize = 0;
    while i < sorted.len()
        invariant
            i <= sorted.len(),
            sv == sorted.deep_view(),
            start >= 0,
            limit >= 0,
            skipped == if i as int <= start {
                i as int
            } else {
                start as int
            },
            taken == out.deep_view().len(),
            taken <= limit,
            out.deep_view().len() == if i as int <= start {
                0int
            } else if i as int - start as int <= limit {
                i as int - start as int
            } else {
                limit as int
            },
            forall|k: int| 0 <= k < out.deep_view().len() ==> out.deep_view()[k] == sv[start + k],
        decreases sorted.len() - i,
    {
        if skipped < start {
            skipped = skipped + 1;
        } else if taken < limit {
            let ghost pre = out.deep_view();
            out.push(sorted[i].duplicate());
            proof {
                assert(start as int + taken == i as int);
                assert(out.deep_view() =~= pre.push(sv[i as int]));
            }
            taken = taken + 1;
        }
        i = i + 1;
    }
    proof {
        assert(out.deep_view() =~= crate::tag::page(sv, start as int, limit as int));
    }
    Ok(out)
}

// ---------------------------------------------------------------------------
// Retrieving exactly one post
// ---------------------------------------------------------------------------

/// The rows of the post table whose id is `n`.
pub open spec fn posts_with_id(table: Seq<BlogEntryV>, n: int) -> Seq<BlogEntryV> {
    post_filtered(seq![PostCondV::EqId(n)], table)
}

/// An id token validates to exactly its id.
proof fn lemma_post_id_token_validation(n: int)
    requires
        -0x8000_0000 <= n <= 0x7fff_ffff,
    ensures
        spec_validation(id_token(n)) == Some(PostFieldsV::Id(n)),
{
    reveal_strlit("id=");
    reveal_strlit("id");
    let tok = id_token(n);
    crate::text::lemma_parse_dec_roundtrip(n);
    assert(tok[0] == 'i' && tok[1] == 'd' && tok[2] == '=');
    crate::text::lemma_find_char(tok, '=');
    match find_char(tok, '=') {
        None => {
            assert(false);
        },
        Some(i) => {
            assert(i <= 2) by {
                if i > 2 {
                    assert(tok[2] != '=');
                }
            }
            assert(i == 2);
            assert(lower(tok.take(2)) =~= "id"@) by {
                assert(lower(tok.take(2))[0] == crate::text::lower_char('i'));
                assert(lower(tok.take(2))[1] == crate::text::lower_char('d'));
            }
            assert(tok.skip(3) =~= dec_str(n));
        },
    }
}

/// Filtering on one id keeps exactly the rows with that id — at most one
/// of them when ids are unique — and finds one exactly when one exists.
pub proof fn lemma_posts_with_id(table: Seq<BlogEntryV>, n: int)
    ensures
        forall|i: int|
            0 <= i < posts_with_id(table, n).len() ==> (#[trigger] posts_with_id(table, n)[i]).id
                == n && table.contains(posts_with_id(table, n)[i]),
        posts_contain_id(table, n) <==> posts_with_id(table, n).len() > 0,
        unique_post_ids(table) ==> posts_with_id(table, n).len() <= 1,
    decreases table.len(),
{
    let conds = seq![PostCondV::EqId(n)];
    assert forall|t: BlogEntryV| row_matches(conds, t) == (t.id == n) by {
        if t.id == n {
            assert(cond_matches(conds[0], t));
        }
        if row_matches(conds, t) {
            let w = choose|i: int| 0 <= i < conds.len() && cond_matches(conds[i], t);
            assert(w == 0);
        }
    }
    if table.len() > 0 {
        lemma_posts_with_id(table.drop_last(), n);
        let rest = posts_with_id(table.drop_last(), n);
        assert forall|i: int|
            0 <= i < posts_with_id(table, n).len() implies (#[trigger] posts_with_id(
            table,
            n,
        )[i]).id == n && table.contains(posts_with_id(table, n)[i]) by {
            if i < rest.len() {
                assert(table.drop_last().contains(rest[i]));
                let w = choose|w: int|
                    0 <= w < table.drop_last().len() && table.drop_last()[w] == rest[i];
                assert(table[w] == rest[i]);
            } else {
                assert(posts_with_id(table, n)[i] == table.last());
                assert(table[table.len() - 1] == table.last());
            }
        }
        if posts_contain_id(table, n) {
            let w = choose|w: int| 0 <= w < table.len() && table[w].id == n;
            if w < table.len() - 1 {
                assert(table.drop_last()[w].id == n);
                assert(posts_contain_id(table.drop_last(), n));
            }
        }
        if posts_with_id(table, n).len() > 0 {
            if rest.len() > 0 {
                assert(table.drop_last().contains(rest[0]));
                let w = choose|w: int|
                    0 <= w < table.drop_last().len() && table.drop_last()[w] == rest[0];
                assert(table[w].id == n);
            } else {
                assert(table.last().id == n);
                assert(table[table.len() - 1].id == n);
            }
        }
        if unique_post_ids(table) {
            assert(unique_post_ids(table.drop_last())) by {
                assert(forall|i: int|
                    0 <= i < table.len() - 1 ==> #[trigger] table.drop_last()[i] == table[i]);
            }
            if table.last().id == n {
                assert(!posts_contain_id(table.drop_last(), n)) by {
                    if posts_contain_id(table.drop_last(), n) {
                        let w = choose|w: int|
                            0 <= w < table.drop_last().len() && table.drop_last()[w].id == n;
                        assert(table[w].id == table[table.len() - 1].id);
                    }
                }
            }
        }
    }
}

/// Sorting a sequence of at most one row leaves it unchanged.
proof fn lemma_post_sort_small(s: Seq<BlogEntryV>, keys: Seq<PostKey>)
    requires
        s.len() <= 1,
    ensures
        post_sort(s, keys) == s,
{
    if s.len() == 1 {
        assert(s.drop_last() =~= Seq::<BlogEntryV>::empty());
        assert(post_sort(s.drop_last(), keys) =~= Seq::<BlogEntryV>::empty());
        assert(sort_insert(post_sort(s.drop_last(), keys), s.last(), keys) =~= s);
    } else {
        assert(s =~= Seq::<BlogEntryV>::empty());
        assert(post_sort(s, keys) =~= s);
    }
}

/// The id query returns exactly the rows carrying that id.
pub proof fn lemma_post_id_query(n: int, table: Seq<BlogEntryV>)
    requires
        -0x8000_0000 <= n <= 0x7fff_ffff,
        unique_post_ids(table),
    ensures
        spec_post_query(idq(n), table) == Ok::<Seq<BlogEntryV>, QueryError>(
            posts_with_id(table, n),
        ),
{
    lemma_post_id_token_validation(n);
    let f = idq(n).filter;
    assert(eq_conds(f.eq) =~= seq![PostCondV::EqId(n)]) by {
        assert(f.eq.drop_last() =~= Seq::<Seq<char>>::empty());
        assert(f.eq.last() == id_token(n));
        assert(eq_conds(f.eq.drop_last()) =~= Seq::<PostCondV>::empty());
    }
    assert(post_conds(f) =~= seq![PostCondV::EqId(n)]);
    assert(post_keys(idq(n).order) =~= Seq::<PostKey>::empty());
    assert(!crate::models::filters_empty(f));
    lemma_posts_with_id(table, n);
    assert(post_filtered(post_conds(f), table) == posts_with_id(table, n));
    lemma_post_sort_small(posts_with_id(table, n), post_keys(idq(n).order));
    lemma_page_whole(posts_with_id(table, n), 10);
}

/// Builds a filter selecting the given id alone, runs the query compiler,
/// and classifies the outcome: exactly one row is success, zero rows is
/// "not found", and anything else would be an internal inconsistency,
/// handled defensively rather than assumed away.
pub fn retrieve_one_post(post_id: i32, db: &Db) -> (r: Result<Vec<BlogEntry>, Custom>)
    requires
        db.wf(),
    ensures
        match r {
            Ok(rows) => posts_contain_id(db.posts.deep_view(), post_id as int)
                && rows.deep_view() =~= posts_with_id(db.posts.deep_view(), post_id as int)
                && rows.deep_view().len() == 1 && rows.deep_view()[0].id == post_id as int
                && db.posts.deep_view().contains(rows.deep_view()[0]),
            Err(c) => !posts_contain_id(db.posts.deep_view(), post_id as int) && c.0
                == Status::NotFound && crate::models::plain_error_envelope(
                c.1,
                "NOT_FOUND"@,
                Some("Could not locate post with provided id."@),
            ),
        },
{
    let q_params = id_params(post_id);
    proof {
        lemma_post_id_query(post_id as int, db.posts.deep_view());
        lemma_posts_with_id(db.posts.deep_view(), post_id as int);
    }
    match parse_and_query(q_params, &db.posts) {
        Ok(posts) => {
            if posts.len() == 1 {
                Ok(posts)
            } else if posts.len() == 0 {
                Err(
                    Custom(
                        Status::NotFound,
                        AResponse::_404(
                            Some("Could not locate post with provided id.".to_owned()),
                        ),
                    ),
                )
            } else {
                proof {
                    assert(false);
                }
                Err(Custom(Status::InternalServerError, AResponse::_500()))
            }
        },
        Err(_) => {
            proof {
                assert(false);
            }
            Err(Custom(Status::InternalServerError, AResponse::_500()))
        },
    }
}

// ---------------------------------------------------------------------------
// Posts together with their tags
// ---------------------------------------------------------------------------

/// A post row together with the tags attached to it.
#[derive(Debug, PartialEq, Clone)]
pub struct PostAndTags {
    pub post: BlogEntry,
    pub tags: Vec<Tag>,
}

/// The mathematical value of a post with its tags.
#[verifier::ext_equal]
pub ghost struct PostAndTagsV {
    pub post: BlogEntryV,
    pub tags: Seq<TagV>,
}

impl View for PostAndTags {
    type V = PostAndTagsV;

    open spec fn view(&self) -> PostAndTagsV {
        PostAndTagsV { post: self.post@, tags: self.tags.deep_view() }
    }
}

impl DeepView for PostAndTags {
    type V = PostAndTagsV;

    open spec fn deep_view(&self) -> PostAndTagsV {
        self@
    }
}

/// The tags attached to post `pid`, in tag-table order.
pub open spec fn tags_of_post(tags: Seq<TagV>, pt: Seq<BlogTags>, pid: int) -> Seq<TagV>
    decreases tags.len(),
{
    if tags.len() == 0 {
        seq![]
    } else {
        let rest = tags_of_post(tags.drop_last(), pt, pid);
        if crate::db::has_pair(pt, pid, tags.last().id) {
            rest.push(tags.last())
        } else {
            rest
        }
    }
}

/// Each post of a sequence paired with its attached tags.
pub open spec fn with_tags(posts: Seq<BlogEntryV>, tags: Seq<TagV>, pt: Seq<BlogTags>) -> Seq<
    PostAndTagsV,
> {
    posts.map_values(|p: BlogEntryV| PostAndTagsV { post: p, tags: tags_of_post(tags, pt, p.id) })
}

/// The tags attached to post `pid`, in tag-table order.
fn collect_tags_of_post(tags: &Vec<Tag>, pt: &Vec<BlogTags>, pid: i32) -> (r: Vec<Tag>)
    ensures
        r.deep_view() == tags_of_post(tags.deep_view(), pt@, pid as int),
{
    let ghost tv = tags.deep_view();
    let mut out: Vec<Tag> = Vec::new();
    let mut i: usize = 0;
    while i < tags.len()
        invariant
            i <= tags.len(),
            tv == tags.deep_view(),
            out.deep_view() =~= tags_of_post(tv.take(i as int), pt@, pid as int),
        decreases tags.len() - i,
    {
        proof {
            assert(tv.take(i + 1).drop_last() =~= tv.take(i as int));
            assert(tv.take(i + 1).last() == tv[i as int]);
        }
        if crate::post_tags::has_pair_x(pt, pid, tags[i].id) {
            out.push(tags[i].duplicate());
        }
        proof {
            assert(out.deep_view() =~= tags_of_post(tv.take(i + 1), pt@, pid as int));
        }
        i = i + 1;
    }
    proof {
        assert(tv.take(tags@.len() as int) =~= tv);
    }
    out
}

/// Runs the post query and pairs each returned post with the tags attached
/// to it; a storage failure is surfaced as an internal error.
pub fn post_and_tags(params: QParams, db: &Db) -> (r: Result<Vec<PostAndTags>, Custom>)
    ensures
        match spec_post_query(params@, db.posts.deep_view()) {
            Ok(rows) => r matches Ok(v) && v.deep_view() =~~= with_tags(
                rows,
                db.tags.deep_view(),
                db.post_tags@,
            ),
            Err(_) => r matches Err(c) && c.0 == Status::InternalServerError,
        },
{
    let target_posts = match parse_and_query(params, &db.posts) {
        Ok(posts) => posts,
        Err(_) => {
            let mut details: Vec<ErrorDetail> = Vec::new();
            details.push(
                ErrorDetail {
                    field: String::new(),
                    message: "The requested page is malformed.".to_owned(),
                },
            );
            return Err(Custom(Status::InternalServerError, AResponse::error(Some(details))));
        },
    };
    let ghost pv = target_posts.deep_view();
    let mut out: Vec<PostAndTags> = Vec::new();
    let mut i: usize = 0;
    while i < target_posts.len()
        invariant
            i <= target_posts.len(),
            pv == target_posts.deep_view(),
            out.deep_view() =~~= with_tags(pv.take(i as int), db.tags.deep_view(), db.post_tags@),
        decreases target_posts.len() - i,
    {
        let ghost pre = out.deep_view();
        let tags = collect_tags_of_post(&db.tags, &db.post_tags, target_posts[i].id);
        out.push(PostAndTags { post: target_posts[i].duplicate(), tags });
        proof {
            let tv2 = db.tags.deep_view();
            let ptv = db.post_tags@;
            let elem = PostAndTagsV {
                post: pv[i as int],
                tags: tags_of_post(tv2, ptv, pv[i as int].id),
            };
            assert(target_posts@[i as int]@.id as int == pv[i as int].id);
            assert(out.deep_view() =~~= pre.push(elem));
            assert(pv.take(i + 1) =~= pv.take(i as int).push(pv[i as int]));
            assert(with_tags(pv.take(i + 1), tv2, ptv) =~~= with_tags(
                pv.take(i as int),
                tv2,
                ptv,
            ).push(elem));
        }
        i = i + 1;
    }
    proof {
        assert(pv.take(target_posts@.len() as int) =~= pv);
    }
    Ok(out)
}

/// Lists posts with their tags, as the caller's query selects them.
pub fn get_posts(params: QParams, db: &Db) -> (r: Result<Vec<PostAndTags>, Custom>)
    ensures
        match spec_post_query(params@, db.posts.deep_view()) {
            Ok(rows) => r matches Ok(v) && v.deep_view() =~~= with_tags(
                rows,
                db.tags.deep_view(),
                db.post_tags@,
            ),
            Err(_) => r matches Err(c) && c.0 == Status::InternalServerError,
        },
{
    post_and_tags(params, db)
}

/// Returns the post carrying the given id with its tags, or "not found".
pub fn get(id: i32, db: &Db) -> (r: Result<Vec<PostAndTags>, Custom>)
    requires
        db.wf(),
    ensures
        posts_contain_id(db.posts.deep_view(), id as int) ==> (r matches Ok(v) && v.deep_view()
            =~= with_tags(
            posts_with_id(db.posts.deep_view(), id as int),
            db.tags.deep_view(),
            db.post_tags@,
        )),
        !posts_contain_id(db.posts.deep_view(), id as int) ==> (r matches Err(c) && c.0
            == Status::NotFound && crate::models::plain_error_envelope(
            c.1,
            "NOT_FOUND"@,
            None,
        )),
{
    let q_params = id_params(id);
    proof {
        lemma_post_id_query(id as int, db.posts.deep_view());
        lemma_posts_with_id(db.posts.deep_view(), id as int);
    }
    match post_and_tags(q_params, db) {
        Ok(v) => {
            if v.len() == 0 {
                proof {
                    if posts_contain_id(db.posts.deep_view(), id as int) {
                        assert(posts_with_id(db.posts.deep_view(), id as int).len() > 0);
                    }
                }
                Err(Custom(Status::NotFound, AResponse::_404(None)))
            } else {
                proof {
                    if !posts_contain_id(db.posts.deep_view(), id as int) {
                        assert(posts_with_id(db.posts.deep_view(), id as int).len() == 0);
                    }
                }
                Ok(v)
            }
        },
        Err(_) => {
            proof {
                assert(false);
            }
            Err(Custom(Status::InternalServerError, AResponse::_500()))
        },
    }
}

// ---------------------------------------------------------------------------
// Creating, updating and deleting posts
// ---------------------------------------------------------------------------

/// The writable fields of a post.
#[derive(Debug, PartialEq, Clone)]
pub struct NewPost {
    pub title: String,
    pub author: String,
    pub created: Option<DateTime>,
    pub last_updated: Option<Date>,
    pub content: Option<String>,
}

/// The mathematical value of a post body.
pub ghost struct NewPostV {
    pub title: Seq<char>,
    pub author: Seq<char>,
    pub created: Option<DateTime>,
    pub last_updated: Option<Date>,
    pub content: Option<Seq<char>>,
}

impl View for NewPost {
    type V = NewPostV;

    open spec fn view(&self) -> NewPostV {
        NewPostV {
            title: self.title@,
            author: self.author@,
            created: self.created,
            last_updated: self.last_updated,
            content: self.content.deep_view(),
        }
    }
}

/// A submitted text field fits its column: one to a hundred bytes.
pub open spec fn field_len_ok(s: Seq<char>) -> bool {
    1 <= vstd::utf8::encode_utf8(s).len() <= 100
}

/// The structured error-details list validation produces: one entry per
/// offending field, title first.
pub open spec fn invalid_field_details(title: Seq<char>, author: Seq<char>, d: Seq<ErrorDetail>) -> bool {
    &&& d.len() == (if field_len_ok(title) {
        0int
    } else {
        1int
    }) + (if field_len_ok(author) {
        0int
    } else {
        1int
    })
    &&& (!field_len_ok(title) ==> d[0].field@ == "title"@)
    &&& ((field_len_ok(title) && !field_len_ok(author)) ==> d[0].field@ == "author"@)
    &&& ((!field_len_ok(title) && !field_len_ok(author)) ==> d[1].field@ == "author"@)
    &&& forall|i: int|
        0 <= i < d.len() ==> (#[trigger] d[i]).message@ == "Valid length is 1 to 100 chars."@
}

/// Checks the user-supplied field lengths before any storage work, and
/// reports every offending field at once.
pub fn validate_user_input(p: &NewPost) -> (r: Result<(), Custom>)
    ensures
        (field_len_ok(p.title@) && field_len_ok(p.author@)) <==> r is Ok,
        r matches Err(c) ==> c.0 == Status::UnprocessableEntity,
        r matches Err(c) ==> crate::models::invalid_input_envelope(c.1),
        r matches Err(c) ==> (c.1.errors matches Some(d) && invalid_field_details(
            p.title@,
            p.author@,
            d@,
        )),
{
    let mut messages: Vec<ErrorDetail> = Vec::new();
    let tlen = p.title.as_str().as_bytes().len();
    if tlen < 1 || tlen > 100 {
        messages.push(
            ErrorDetail {
                field: "title".to_owned(),
                message: "Valid length is 1 to 100 chars.".to_owned(),
            },
        );
    }
    let alen = p.author.as_str().as_bytes().len();
    if alen < 1 || alen > 100 {
        messages.push(
            ErrorDetail {
                field: "author".to_owned(),
                message: "Valid length is 1 to 100 chars.".to_owned(),
            },
        );
    }
    if messages.len() == 0 {
        Ok(())
    } else {
        Err(
            Custom(
                Status::UnprocessableEntity,
                AResponse::_422(
                    Some("Correct input and try again.".to_owned()),
                    Some("INVALID_INPUT".to_owned()),
                    Some(messages),
                ),
            ),
        )
    }
}

/// The id of some post carrying this title and author, if one exists.  The
/// storage layer does not hand back the id of a fresh insert, so creation
/// looks it up with this.
pub fn get_a_post_id(db: &Db, title: &String, author: &String) -> (r: Option<i32>)
    ensures
        match r {
            Some(id) => exists|i: int|
                0 <= i < db.posts.deep_view().len() && (#[trigger] db.posts.deep_view()[i]).id
                    == id as int && db.posts.deep_view()[i].title == title@
                    && db.posts.deep_view()[i].author == author@,
            None => !exists|i: int|
                0 <= i < db.posts.deep_view().len() && (#[trigger] db.posts.deep_view()[i]).title
                    == title@ && db.posts.deep_view()[i].author == author@,
        },
{
    let mut i: usize = 0;
    while i < db.posts.len()
        invariant
            i <= db.posts@.len(),
            forall|j: int|
                0 <= j < i ==> !((#[trigger] db.posts.deep_view()[j]).title == title@
                    && db.posts.deep_view()[j].author == author@),
        decreases db.posts@.len() - i,
    {
        if db.posts[i].title == *title && db.posts[i].author == *author {
            proof {
                assert(db.posts.deep_view()[i as int].title == title@);
            }
            return Some(db.posts[i].id);
        }
        i = i + 1;
    }
    None
}

/// The row a creation inserts: the submitted fields under the given id.
pub open spec fn inserted_post(p: NewPostV, id: int) -> BlogEntryV {
    BlogEntryV {
        id,
        title: p.title,
        author: p.author,
        created: p.created,
        last_updated: p.last_updated,
        content: p.content,
    }
}

/// Creates a post.  Tags are not accepted here: the caller attaches them in
/// a separate request.  The fields must pass validation; the new row takes
/// the next free id, and the location of the new resource is returned.
pub fn post_(new_post: NewPost, db: &mut Db) -> (r: Result<(i32, String), Custom>)
    requires
        old(db).wf(),
    ensures
        final(db).wf(),
        final(db).tags == old(db).tags,
        final(db).post_tags == old(db).post_tags,
        final(db).users == old(db).users,
        final(db).roles == old(db).roles,
        final(db).next_tag_id == old(db).next_tag_id,
        final(db).next_post_tag_id == old(db).next_post_tag_id,
        final(db).next_user_id == old(db).next_user_id,
        r matches Err(_) ==> *final(db) == *old(db),
        !(field_len_ok(new_post.title@) && field_len_ok(new_post.author@)) ==> (r matches Err(c)
            && c.0 == Status::UnprocessableEntity && crate::models::invalid_input_envelope(c.1)
            && (c.1.errors matches Some(d) && invalid_field_details(
            new_post.title@,
            new_post.author@,
            d@,
        ))),
        (field_len_ok(new_post.title@) && field_len_ok(new_post.author@) && old(db).next_post_id
            < 0x7fff_ffff) ==> (r matches Ok(p) && p.0 == old(db).next_post_id
            && final(db).posts.deep_view() =~= old(db).posts.deep_view().push(
            inserted_post(new_post@, p.0 as int),
        ) && final(db).next_post_id == old(db).next_post_id + 1 && p.1@ == "/api/posts/"@
            + dec_str(p.0 as int)),
        (field_len_ok(new_post.title@) && field_len_ok(new_post.author@) && old(db).next_post_id
            == 0x7fff_ffff) ==> (r matches Err(c) && c.0 == Status::InternalServerError
            && crate::models::plain_error_envelope(
            c.1,
            "INTERNAL_SERVER_ERROR"@,
            Some("Our apologies, something went wrong."@),
        )),
{
    match validate_user_input(&new_post) {
        Ok(_) => (),
        Err(c) => {
            return Err(c);
        },
    }
    if db.next_post_id == 0x7fff_ffff {
        return Err(Custom(Status::InternalServerError, AResponse::_500()));
    }
    let id = db.next_post_id;
    let ghost ov = db.posts.deep_view();
    db.posts.push(
        BlogEntry {
            id,
            title: new_post.title,
            author: new_post.author,
            created: new_post.created,
            last_updated: new_post.last_updated,
            content: new_post.content,
        },
    );
    db.next_post_id = id + 1;
    proof {
        let nv = db.posts.deep_view();
        assert(nv =~= ov.push(nv[nv.len() - 1]));
        assert forall|i: int, j: int| 0 <= i < j < nv.len() implies (#[trigger] nv[i]).id
            != (#[trigger] nv[j]).id by {
            if j == nv.len() - 1 {
                assert(nv[i] == ov[i]);
                assert(ov[i].id < id);
            } else {
                assert(nv[i] == ov[i] && nv[j] == ov[j]);
            }
        }
    }
    let mut uri_chars = str_chars("/api/posts/");
    let mut d = dec_chars_i64(id as i64);
    uri_chars.append(&mut d);
    let uri = chars_string(&uri_chars);
    Ok((id, uri))
}

/// What a patch makes of a post row: the title and author are replaced,
/// the content only when one was supplied, the creation stamp is kept, and
/// the update date becomes the given day.
pub open spec fn patched_post(orig: BlogEntryV, np: NewPostV, today: Date) -> BlogEntryV {
    BlogEntryV {
        id: orig.id,
        title: np.title,
        author: np.author,
        created: orig.created,
        last_updated: Some(today),
        content: if np.content is Some {
            np.content
        } else {
            orig.content
        },
    }
}

/// Updates a post's writable fields, stamping the update date with the
/// current day.  The fields must pass validation; a missing id is "not
/// found".
pub fn patch(id: i32, new_post: NewPost, db: &mut Db) -> (r: Result<(), Custom>)
    requires
        old(db).wf(),
    ensures
        final(db).wf(),
        final(db).tags == old(db).tags,
        final(db).post_tags == old(db).post_tags,
        final(db).users == old(db).users,
        final(db).roles == old(db).roles,
        final(db).next_post_id == old(db).next_post_id,
        final(db).next_tag_id == old(db).next_tag_id,
        final(db).next_post_tag_id == old(db).next_post_tag_id,
        final(db).next_user_id == old(db).next_user_id,
        r matches Err(_) ==> *final(db) == *old(db),
        !(field_len_ok(new_post.title@) && field_len_ok(new_post.author@)) ==> (r matches Err(c)
            && c.0 == Status::UnprocessableEntity && crate::models::invalid_input_envelope(c.1)
            && (c.1.errors matches Some(d) && invalid_field_details(
            new_post.title@,
            new_post.author@,
            d@,
        ))),
        (field_len_ok(new_post.title@) && field_len_ok(new_post.author@) && !posts_contain_id(
            old(db).posts.deep_view(),
            id as int,
        )) ==> (r matches Err(c) && c.0 == Status::NotFound
            && crate::models::plain_error_envelope(
            c.1,
            "NOT_FOUND"@,
            Some("Could not locate post with provided id."@),
        )),
        (field_len_ok(new_post.title@) && field_len_ok(new_post.author@) && posts_contain_id(
            old(db).posts.deep_view(),
            id as int,
        )) ==> (r matches Ok(_) && exists|idx: int, today: Date|
            #![trigger old(db).posts.deep_view().update(idx, patched_post(old(db).posts.deep_view()[idx], new_post@, today))]
            0 <= idx < old(db).posts.deep_view().len() && old(db).posts.deep_view()[idx].id
                == id as int && 1 <= today.month <= 12 && 1 <= today.day <= 31
                && final(db).posts.deep_view() =~= old(db).posts.deep_view().update(
                idx,
                patched_post(old(db).posts.deep_view()[idx], new_post@, today),
            )),
{
    match validate_user_input(&new_post) {
        Ok(_) => (),
        Err(c) => {
            return Err(c);
        },
    }
    let ghost ov = db.posts.deep_view();
    let mut i: usize = 0;
    let mut found: Option<usize> = None;
    while i < db.posts.len()
        invariant
            *db == *old(db),
            i <= db.posts@.len(),
            ov == db.posts.deep_view(),
            match found {
                Some(k) => k < i && ov[k as int].id == id as int,
                None => forall|j: int| 0 <= j < i ==> (#[trigger] ov[j]).id != id as int,
            },
        decreases db.posts@.len() - i,
    {
        if found.is_none() && db.posts[i].id == id {
            proof {
                assert(ov[i as int].id == id as int);
            }
            found = Some(i);
        }
        i = i + 1;
    }
    let idx = match found {
        Some(k) => k,
        None => {
            return Err(
                Custom(
                    Status::NotFound,
                    AResponse::_404(
                        Some("Could not locate post with provided id.".to_owned()),
                    ),
                ),
            );
        },
    };
    let today = current_date();
    let orig = db.posts[idx].duplicate();
    db.posts[idx] = BlogEntry {
        id: orig.id,
        title: new_post.title,
        author: new_post.author,
        created: orig.created,
        last_updated: Some(today),
        content: match new_post.content {
            Some(c) => Some(c),
            None => orig.content,
        },
    };
    proof {
        let nv = db.posts.deep_view();
        assert(orig.id == id);
        assert(nv =~= ov.update(idx as int, patched_post(ov[idx as int], new_post@, today)));
        assert forall|a: int, b: int| 0 <= a < b < nv.len() implies (#[trigger] nv[a]).id
            != (#[trigger] nv[b]).id by {
            assert(nv[a].id == ov[a].id && nv[b].id == ov[b].id);
        }
    }
    Ok(())
}

/// The post rows that survive deleting the one with this id.
pub open spec fn posts_excluding_id(ps: Seq<BlogEntryV>, n: int) -> Seq<BlogEntryV>
    decreases ps.len(),
{
    if ps.len() == 0 {
        seq![]
    } else {
        let rest = posts_excluding_id(ps.drop_last(), n);
        if ps.last().id == n {
            rest
        } else {
            rest.push(ps.last())
        }
    }
}

/// Deleting by id keeps every other row, drops every row with the id, and
/// keeps the table invariants.
proof fn lemma_posts_excluding_id(ps: Seq<BlogEntryV>, n: int)
    ensures
        forall|i: int|
            0 <= i < posts_excluding_id(ps, n).len() ==> (#[trigger] posts_excluding_id(
                ps,
                n,
            )[i]).id != n && ps.contains(posts_excluding_id(ps, n)[i]),
        posts_excluding_id(ps, n).len() <= ps.len(),
        unique_post_ids(ps) ==> unique_post_ids(posts_excluding_id(ps, n)),
    decreases ps.len(),
{
    if ps.len() > 0 {
        lemma_posts_excluding_id(ps.drop_last(), n);
        assert(forall|i: int| 0 <= i < ps.len() - 1 ==> #[trigger] ps.drop_last()[i] == ps[i]);
        let rest = posts_excluding_id(ps.drop_last(), n);
        assert forall|i: int|
            0 <= i < posts_excluding_id(ps, n).len() implies (#[trigger] posts_excluding_id(
            ps,
            n,
        )[i]).id != n && ps.contains(posts_excluding_id(ps, n)[i]) by {
            if i < rest.len() {
                assert(ps.drop_last().contains(rest[i]));
                let w = choose|w: int| 0 <= w < ps.drop_last().len() && ps.drop_last()[w] == rest[i];
                assert(ps[w] == rest[i]);
            } else {
                assert(posts_excluding_id(ps, n)[i] == ps.last());
                assert(ps[ps.len() - 1] == ps.last());
            }
        }
        if unique_post_ids(ps) && ps.last().id != n {
            assert forall|a: int, b: int|
                0 <= a < b < rest.push(ps.last()).len() implies (#[trigger] rest.push(
                ps.last(),
            )[a]).id != (#[trigger] rest.push(ps.last())[b]).id by {
                if b == rest.len() {
                    assert(ps.drop_last().contains(rest[a]));
                    let w = choose|w: int|
                        0 <= w < ps.drop_last().len() && ps.drop_last()[w] == rest[a];
                    assert(ps[w] == rest[a]);
                    assert(ps[ps.len() - 1] == ps.last());
                }
            }
        }
    }
}

/// Deletes a post: its join rows go first, then the post row.  A missing
/// id is "not found"; after success no join row references the deleted
/// post.
pub fn delete(id: i32, db: &mut Db) -> (r: Result<(), Custom>)
    requires
        old(db).wf(),
    ensures
        final(db).wf(),
        final(db).tags == old(db).tags,
        final(db).users == old(db).users,
        final(db).roles == old(db).roles,
        final(db).next_post_id == old(db).next_post_id,
        final(db).next_tag_id == old(db).next_tag_id,
        final(db).next_post_tag_id == old(db).next_post_tag_id,
        final(db).next_user_id == old(db).next_user_id,
        r matches Err(_) ==> *final(db) == *old(db),
        !posts_contain_id(old(db).posts.deep_view(), id as int) ==> (r matches Err(c) && c.0
            == Status::NotFound && crate::models::plain_error_envelope(
            c.1,
            "NOT_FOUND"@,
            Some("Could not locate post with provided id."@),
        )),
        posts_contain_id(old(db).posts.deep_view(), id as int) ==> (r matches Ok(_) && ({
            &&& final(db).posts.deep_view() =~= posts_excluding_id(
                old(db).posts.deep_view(),
                id as int,
            )
            &&& !posts_contain_id(final(db).posts.deep_view(), id as int)
            &&& forall|i: int|
                0 <= i < final(db).post_tags@.len()
                    ==> (#[trigger] final(db).post_tags@[i]).post_id != id
        })),
{
    let rows = match retrieve_one_post(id, db) {
        Ok(rows) => rows,
        Err(c) => {
            return Err(c);
        },
    };
    let mut rows = rows;
    let target = match rows.pop() {
        Some(t) => t,
        None => {
            proof {
                assert(false);
            }
            return Err(Custom(Status::InternalServerError, AResponse::_500()));
        },
    };
    let ghost targetv = target@;

    // Remove the associated join rows for the post.
    let mut selector: Vec<BlogEntry> = Vec::new();
    selector.push(target);
    proof {
        assert(selector.deep_view() =~= seq![targetv]);
    }
    let _count = crate::post_tags::delete_entries(
        db,
        crate::post_tags::BelongsTo::Post(selector),
    );
    proof {
        crate::post_tags::lemma_remaining_unselected(
            crate::post_tags::BelongsToV::Post(seq![targetv]),
            old(db).post_tags@,
        );
        assert forall|i: int|
            0 <= i < db.post_tags@.len() implies (#[trigger] db.post_tags@[i]).post_id != id by {
            assert(!crate::post_tags::row_selected(
                crate::post_tags::BelongsToV::Post(seq![targetv]),
                db.post_tags@[i],
            ));
            assert(seq![targetv][0].id == id as int);
        }
    }

    // Now remove the post row itself.
    let ghost mid = *db;
    let ghost ov = db.posts.deep_view();
    let mut kept: Vec<BlogEntry> = Vec::new();
    let mut i: usize = 0;
    while i < db.posts.len()
        invariant
            *db == mid,
            i <= db.posts@.len(),
            ov == db.posts.deep_view(),
            kept.deep_view() =~= posts_excluding_id(ov.take(i as int), id as int),
        decreases db.posts@.len() - i,
    {
        proof {
            assert(ov.take(i + 1).drop_last() =~= ov.take(i as int));
            assert(ov.take(i + 1).last() == ov[i as int]);
        }
        if db.posts[i].id != id {
            kept.push(db.posts[i].duplicate());
        }
        proof {
            assert(kept.deep_view() =~= posts_excluding_id(ov.take(i + 1), id as int));
        }
        i = i + 1;
    }
    proof {
        assert(ov.take(db.posts@.len() as int) =~= ov);
        lemma_posts_excluding_id(ov, id as int);
    }
    db.posts = kept;
    proof {
        if posts_contain_id(db.posts.deep_view(), id as int) {
            let w = choose|w: int|
                0 <= w < db.posts.deep_view().len() && db.posts.deep_view()[w].id == id as int;
            assert(db.posts.deep_view()[w].id != id as int);
        }
    }
    Ok(())
}

// ---------------------------------------------------------------------------
// Attaching and detaching tags
// ---------------------------------------------------------------------------

/// A tag selection sent in a request body: a list of tag ids, a list of
/// tag names, or both.
#[derive(Debug, PartialEq, Clone)]
pub struct Tags {
    pub id: Option<Vec<i32>>,
    pub name: Option<Vec<String>>,
}

/// The mathematical value of a tag selection.
pub ghost struct TagsV {
    pub id: Option<Seq<int>>,
    pub name: Option<Seq<Seq<char>>>,
}

impl View for Tags {
    type V = TagsV;

    open spec fn view(&self) -> TagsV {
        TagsV {
            id: match self.id {
                Some(v) => Some(v@.map_values(|n: i32| n as int)),
                None => None,
            },
            name: match self.name {
                Some(v) => Some(v.deep_view()),
                None => None,
            },
        }
    }
}

/// One id token per given id.
pub open spec fn id_tokens_of(ids: Seq<int>) -> Seq<Seq<char>> {
    ids.map_values(|n: int| id_token(n))
}

/// One name token per given name.
pub open spec fn name_tokens_of(names: Seq<Seq<char>>) -> Seq<Seq<char>> {
    names.map_values(|s: Seq<char>| "name="@ + s)
}

/// The equality tokens a tag selection compiles to: one id token per given
/// id, then one name token per given name.
pub open spec fn form_tokens(t: TagsV) -> Seq<Seq<char>> {
    let ids = match t.id {
        Some(v) => v,
        None => seq![],
    };
    let names = match t.name {
        Some(v) => v,
        None => seq![],
    };
    id_tokens_of(ids) + name_tokens_of(names)
}

/// The query parameters a tag selection builds: its equality tokens, an
/// explicit page size covering every token (so the default page policy
/// never truncates the selection), no offset, no order.
pub open spec fn form_q(t: TagsV) -> QParamsV {
    QParamsV {
        start: None,
        step: Some(crate::models::covering_step(form_tokens(t).len() as int)),
        filter: FiltersV {
            eq: form_tokens(t),
            like: seq![],
            ge: seq![],
            le: seq![],
            between: seq![],
        },
        order: seq![],
    }
}

/// The raw token selecting one id.
pub(crate) fn id_token_x(n: i32) -> (r: String)
    ensures
        r@ == id_token(n as int),
{
    let mut v = str_chars("id=");
    let mut d = dec_chars_i64(n as i64);
    v.append(&mut d);
    chars_string(&v)
}

/// The raw token selecting one name.
fn name_token_x(name: &String) -> (r: String)
    ensures
        r@ == "name="@ + name@,
{
    let mut v = str_chars("name=");
    let mut d = str_chars(name.as_str());
    v.append(&mut d);
    chars_string(&v)
}

/// The query parameters a tag selection builds.
fn form_params(tags: &Tags) -> (r: QParams)
    ensures
        r@ == form_q(tags@),
{
    let mut eq: Vec<String> = Vec::new();
    let ghost idsv: Seq<int> = match tags@.id {
        Some(v) => v,
        None => seq![],
    };
    let ghost namesv: Seq<Seq<char>> = match tags@.name {
        Some(v) => v,
        None => seq![],
    };
    match &tags.id {
        Some(ids) => {
            let mut i: usize = 0;
            while i < ids.len()
                invariant
                    i <= ids.len(),
                    idsv == ids@.map_values(|n: i32| n as int),
                    eq.deep_view() =~= id_tokens_of(idsv.take(i as int)),
                decreases ids.len() - i,
            {
                let ghost pre = eq.deep_view();
                eq.push(id_token_x(ids[i]));
                proof {
                    assert(idsv[i as int] == ids@[i as int] as int);
                    assert(eq.deep_view() =~= pre.push(id_token(idsv[i as int])));
                    assert(eq.deep_view() =~= id_tokens_of(idsv.take(i + 1)));
                }
                i = i + 1;
            }
            proof {
                assert(idsv.take(ids@.len() as int) =~= idsv);
            }
        },
        None => {
            proof {
                assert(id_tokens_of(idsv) =~= Seq::<Seq<char>>::empty());
            }
        },
    }
    let ghost base = id_tokens_of(idsv);
    match &tags.name {
        Some(names) => {
            let mut i: usize = 0;
            while i < names.len()
                invariant
                    i <= names.len(),
                    namesv == names.deep_view(),
                    eq.deep_view() =~= base + name_tokens_of(namesv.take(i as int)),
                decreases names.len() - i,
            {
                let ghost pre = eq.deep_view();
                eq.push(name_token_x(&names[i]));
                proof {
                    assert(eq.deep_view() =~= pre.push("name="@ + namesv[i as int]));
                    assert(eq.deep_view() =~= base + name_tokens_of(namesv.take(i + 1)));
                }
                i = i + 1;
            }
            proof {
                assert(namesv.take(names@.len() as int) =~= namesv);
            }
        },
        None => {
            proof {
                assert(name_tokens_of(namesv) =~= Seq::<Seq<char>>::empty());
            }
        },
    }
    let step = crate::models::covering_step_x(eq.len());
    proof {
        assert(eq.deep_view().len() == eq@.len());
        assert(eq.deep_view() =~= form_tokens(tags@));
    }
    let mut r = QParams::new_filter(Filters::new_eq(eq));
    r.step = Some(step);
    proof {
        assert(r@.filter.eq =~= form_tokens(tags@));
        assert(r@.filter.like =~= Seq::<Seq<char>>::empty());
        assert(r@.filter.ge =~= Seq::<Seq<char>>::empty());
        assert(r@.filter.le =~= Seq::<Seq<char>>::empty());
        assert(r@.filter.between =~= Seq::<Seq<char>>::empty());
        assert(r@.order =~= Seq::<Seq<char>>::empty());
    }
    r
}

/// Attaches one tag to one post.  A missing post is "not found"; a missing
/// tag selects nothing, so nothing is attached and the request still
/// succeeds.  An already-attached tag gains no second row.
pub fn put_post_tag(post_id: i32, tag_id: i32, db: &mut Db) -> (r: Result<(), Custom>)
    requires
        old(db).wf(),
    ensures
        final(db).wf(),
        final(db).posts == old(db).posts,
        final(db).tags == old(db).tags,
        final(db).users == old(db).users,
        final(db).roles == old(db).roles,
        final(db).next_post_id == old(db).next_post_id,
        final(db).next_tag_id == old(db).next_tag_id,
        final(db).next_user_id == old(db).next_user_id,
        r matches Err(_) ==> *final(db) == *old(db),
        !posts_contain_id(old(db).posts.deep_view(), post_id as int) ==> (r matches Err(c) && c.0
            == Status::NotFound && crate::models::plain_error_envelope(
            c.1,
            "NOT_FOUND"@,
            Some("Could not locate post with provided id."@),
        )),
        posts_contain_id(old(db).posts.deep_view(), post_id as int) ==> match r {
            Ok(_) => ({
                let att = crate::post_tags::attach(
                    old(db).post_tags@,
                    old(db).next_post_tag_id as int,
                    post_id as int,
                    tags_with_id(old(db).tags.deep_view(), tag_id as int),
                );
                final(db).post_tags@ == att.0 && final(db).next_post_tag_id == att.1
            }),
            Err(c) => c.0 == Status::InternalServerError,
        },
        (posts_contain_id(old(db).posts.deep_view(), post_id as int)
            && old(db).next_post_tag_id as int + 1 <= 0x7fff_ffff) ==> r is Ok,
{
    let target_post = match retrieve_one_post(post_id, db) {
        Ok(p) => p,
        Err(c) => {
            return Err(c);
        },
    };
    let q_params = id_params(tag_id);
    proof {
        crate::tag::lemma_tag_id_query(tag_id as int, db.tags.deep_view());
        lemma_tags_with_id(db.tags.deep_view(), tag_id as int);
    }
    let tags = match crate::tag::parse_and_query(q_params, &db.tags) {
        Ok(t) => t,
        Err(_) => {
            proof {
                assert(false);
            }
            return Err(Custom(Status::InternalServerError, AResponse::_500()));
        },
    };
    match crate::post_tags::add_entries(db, target_post, tags) {
        Ok(_) => Ok(()),
        Err(_) => Err(Custom(Status::InternalServerError, AResponse::_500())),
    }
}

/// Attaches every tag the caller's query selects to the post.  A tag token
/// that selects nothing simply attaches nothing: this endpoint is a
/// partial-success design, never all-or-nothing.
pub fn patch_post_tags(id: i32, tag_params: QParams, db: &mut Db) -> (r: Result<(), Custom>)
    requires
        old(db).wf(),
    ensures
        final(db).wf(),
        final(db).posts == old(db).posts,
        final(db).tags == old(db).tags,
        final(db).users == old(db).users,
        final(db).roles == old(db).roles,
        final(db).next_post_id == old(db).next_post_id,
        final(db).next_tag_id == old(db).next_tag_id,
        final(db).next_user_id == old(db).next_user_id,
        r matches Err(_) ==> *final(db) == *old(db),
        !posts_contain_id(old(db).posts.deep_view(), id as int) ==> (r matches Err(c) && c.0
            == Status::NotFound && crate::models::plain_error_envelope(
            c.1,
            "NOT_FOUND"@,
            Some("Could not locate post with provided id."@),
        )),
        posts_contain_id(old(db).posts.deep_view(), id as int) ==> match crate::tag::spec_tag_query(
            tag_params@,
            old(db).tags.deep_view(),
        ) {
            Ok(ts) => match r {
                Ok(_) => ({
                    let att = crate::post_tags::attach(
                        old(db).post_tags@,
                        old(db).next_post_tag_id as int,
                        id as int,
                        ts,
                    );
                    final(db).post_tags@ == att.0 && final(db).next_post_tag_id == att.1
                }),
                Err(c) => c.0 == Status::InternalServerError,
            },
            Err(_) => r matches Err(c) && c.0 == Status::InternalServerError,
        },
        posts_contain_id(old(db).posts.deep_view(), id as int) ==> ((crate::tag::spec_tag_query(
            tag_params@,
            old(db).tags.deep_view(),
        ) matches Ok(ts) && old(db).next_post_tag_id as int + ts.len() <= 0x7fff_ffff)
            ==> r is Ok),
{
    let target_post = match retrieve_one_post(id, db) {
        Ok(p) => p,
        Err(c) => {
            return Err(c);
        },
    };
    let tags = match crate::tag::parse_and_query(tag_params, &db.tags) {
        Ok(t) => t,
        Err(_) => {
            let mut details: Vec<ErrorDetail> = Vec::new();
            details.push(
                ErrorDetail {
                    field: String::new(),
                    message: "The requested page is malformed.".to_owned(),
                },
            );
            return Err(Custom(Status::InternalServerError, AResponse::error(Some(details))));
        },
    };
    match crate::post_tags::add_entries(db, target_post, tags) {
        Ok(_) => Ok(()),
        Err(_) => Err(Custom(Status::InternalServerError, AResponse::_500())),
    }
}

/// Attaches the tags a body of ids and names selects to the post.  An id
/// or name that matches no tag selects nothing and attaches nothing — the
/// outcome for the rest is partial success, not all-or-nothing.
pub fn patch_post_tags_form(id: i32, tags: Tags, db: &mut Db) -> (r: Result<(), Custom>)
    requires
        old(db).wf(),
    ensures
        final(db).wf(),
        final(db).posts == old(db).posts,
        final(db).tags == old(db).tags,
        final(db).users == old(db).users,
        final(db).roles == old(db).roles,
        final(db).next_post_id == old(db).next_post_id,
        final(db).next_tag_id == old(db).next_tag_id,
        final(db).next_user_id == old(db).next_user_id,
        r matches Err(_) ==> *final(db) == *old(db),
        !posts_contain_id(old(db).posts.deep_view(), id as int) ==> (r matches Err(c) && c.0
            == Status::NotFound && crate::models::plain_error_envelope(
            c.1,
            "NOT_FOUND"@,
            Some("Could not locate post with provided id."@),
        )),
        posts_contain_id(old(db).posts.deep_view(), id as int) ==> match r {
            Ok(_) => ({
                let att = crate::post_tags::attach(
                    old(db).post_tags@,
                    old(db).next_post_tag_id as int,
                    id as int,
                    crate::tag::tag_query_rows(form_q(tags@), old(db).tags.deep_view()),
                );
                final(db).post_tags@ == att.0 && final(db).next_post_tag_id == att.1
            }),
            Err(c) => c.0 == Status::InternalServerError,
        },
        (posts_contain_id(old(db).posts.deep_view(), id as int) && old(
            db,
        ).next_post_tag_id as int + crate::tag::tag_query_rows(
            form_q(tags@),
            old(db).tags.deep_view(),
        ).len() <= 0x7fff_ffff) ==> r is Ok,
{
    let target_post = match retrieve_one_post(id, db) {
        Ok(p) => p,
        Err(c) => {
            return Err(c);
        },
    };
    let q_params = form_params(&tags);
    let found = match crate::tag::parse_and_query(q_params, &db.tags) {
        Ok(t) => t,
        Err(_) => {
            proof {
                assert(false);
            }
            return Err(Custom(Status::InternalServerError, AResponse::_500()));
        },
    };
    match crate::post_tags::add_entries(db, target_post, found) {
        Ok(_) => Ok(()),
        Err(_) => Err(Custom(Status::InternalServerError, AResponse::_500())),
    }
}

/// Replaces the post's tags with the ones the body selects: the existing
/// join rows for the post are dropped first, then the selected tags are
/// attached.  The two steps are separate statements: a failure between
/// them leaves the post with no tags rather than its old ones.
pub fn put_post_tags_form(id: i32, tags: Tags, db: &mut Db) -> (r: Result<(), Custom>)
    requires
        old(db).wf(),
    ensures
        final(db).wf(),
        final(db).posts == old(db).posts,
        final(db).tags == old(db).tags,
        final(db).users == old(db).users,
        final(db).roles == old(db).roles,
        final(db).next_post_id == old(db).next_post_id,
        final(db).next_tag_id == old(db).next_tag_id,
        final(db).next_user_id == old(db).next_user_id,
        !posts_contain_id(old(db).posts.deep_view(), id as int) ==> (r matches Err(c) && c.0
            == Status::NotFound && *final(db) == *old(db)
            && crate::models::plain_error_envelope(
            c.1,
            "NOT_FOUND"@,
            Some("Could not locate post with provided id."@),
        )),
        posts_contain_id(old(db).posts.deep_view(), id as int) ==> ({
            let pruned = crate::post_tags::remaining(
                crate::post_tags::BelongsToV::Post(
                    posts_with_id(old(db).posts.deep_view(), id as int),
                ),
                old(db).post_tags@,
            );
            match r {
                Ok(_) => ({
                    let att = crate::post_tags::attach(
                        pruned,
                        old(db).next_post_tag_id as int,
                        id as int,
                        crate::tag::tag_query_rows(form_q(tags@), old(db).tags.deep_view()),
                    );
                    final(db).post_tags@ == att.0 && final(db).next_post_tag_id == att.1
                }),
                Err(c) => c.0 == Status::InternalServerError && final(db).post_tags@ == pruned
                    && final(db).next_post_tag_id == old(db).next_post_tag_id,
            }
        }),
        (posts_contain_id(old(db).posts.deep_view(), id as int) && old(
            db,
        ).next_post_tag_id as int + crate::tag::tag_query_rows(
            form_q(tags@),
            old(db).tags.deep_view(),
        ).len() <= 0x7fff_ffff) ==> r is Ok,
{
    let target_post = match retrieve_one_post(id, db) {
        Ok(p) => p,
        Err(c) => {
            return Err(c);
        },
    };
    let ghost targets = target_post.deep_view();

    let q_params = form_params(&tags);
    let found = match crate::tag::parse_and_query(q_params, &db.tags) {
        Ok(t) => t,
        Err(_) => {
            proof {
                assert(false);
            }
            return Err(Custom(Status::InternalServerError, AResponse::_500()));
        },
    };

    // Duplicate the selector so the post rows can still be handed to the
    // attach step afterwards.
    let mut selector: Vec<BlogEntry> = Vec::new();
    let mut i: usize = 0;
    while i < target_post.len()
        invariant
            i <= target_post.len(),
            targets == target_post.deep_view(),
            selector.deep_view() =~= targets.take(i as int),
        decreases target_post.len() - i,
    {
        selector.push(target_post[i].duplicate());
        proof {
            assert(targets.take(i + 1) =~= targets.take(i as int).push(targets[i as int]));
            assert(selector.deep_view() =~= targets.take(i + 1));
        }
        i = i + 1;
    }
    proof {
        assert(targets.take(target_post@.len() as int) =~= targets);
        assert(selector.deep_view() =~= targets);
    }

    // Drop the post's existing join rows, then attach the selected tags.
    let _dropped = crate::post_tags::delete_entries(
        db,
        crate::post_tags::BelongsTo::Post(selector),
    );
    match crate::post_tags::add_entries(db, target_post, found) {
        Ok(_) => Ok(()),
        Err(_) => Err(Custom(Status::InternalServerError, AResponse::_500())),
    }
}

/// Detaches one tag from one post: the join rows pairing them go, and
/// nothing else.  A missing post is "not found"; a missing tag detaches
/// nothing.
pub fn delete_post_tag(id: i32, tag_id: i32, db: &mut Db) -> (r: Result<(), Custom>)
    requires
        old(db).wf(),
    ensures
        final(db).wf(),
        final(db).posts == old(db).posts,
        final(db).tags == old(db).tags,
        final(db).users == old(db).users,
        final(db).roles == old(db).roles,
        final(db).next_post_id == old(db).next_post_id,
        final(db).next_tag_id == old(db).next_tag_id,
        final(db).next_post_tag_id == old(db).next_post_tag_id,
        final(db).next_user_id == old(db).next_user_id,
        r matches Err(_) ==> *final(db) == *old(db),
        !posts_contain_id(old(db).posts.deep_view(), id as int) ==> (r matches Err(c) && c.0
            == Status::NotFound && crate::models::plain_error_envelope(
            c.1,
            "NOT_FOUND"@,
            Some("Could not locate post with provided id."@),
        )),
        posts_contain_id(old(db).posts.deep_view(), id as int) ==> (r matches Ok(_)
            && final(db).post_tags@ == crate::post_tags::remaining(
            crate::post_tags::BelongsToV::PostTags(
                posts_with_id(old(db).posts.deep_view(), id as int),
                tags_with_id(old(db).tags.deep_view(), tag_id as int),
            ),
            old(db).post_tags@,
        )),
{
    let target_post = match retrieve_one_post(id, db) {
        Ok(p) => p,
        Err(c) => {
            return Err(c);
        },
    };
    let q_params = id_params(tag_id);
    proof {
        crate::tag::lemma_tag_id_query(tag_id as int, db.tags.deep_view());
    }
    let target_tags = match crate::tag::parse_and_query(q_params, &db.tags) {
        Ok(t) => t,
        Err(_) => {
            proof {
                assert(false);
            }
            return Err(Custom(Status::InternalServerError, AResponse::_500()));
        },
    };
    let _count = crate::post_tags::delete_entries(
        db,
        crate::post_tags::BelongsTo::PostTags((target_post, target_tags)),
    );
    Ok(())
}

} // verus!
