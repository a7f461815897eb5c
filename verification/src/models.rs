//! Shared data model: calendar values, query parameters, the response
//! envelope, and the entity rows that the query compiler works over.

use vstd::prelude::*;

verus! {

// ---------------------------------------------------------------------------
// Calendar values
// ---------------------------------------------------------------------------

/// A calendar date held as plain year, month and day numbers.
#[derive(Clone, Copy, PartialEq, Eq, Structural, Debug)]
pub struct Date {
    pub year: i32,
    pub month: u8,
    pub day: u8,
}

/// A date together with a seconds-of-day component.  A date that arrives
/// without a time component compares as midnight (`secs == 0`).
#[derive(Clone, Copy, PartialEq, Eq, Structural, Debug)]
pub struct DateTime {
    pub date: Date,
    pub secs: u32,
}

/// Lexicographic order on (year, month, day).
pub open spec fn date_le(a: Date, b: Date) -> bool {
    if a.year != b.year {
        a.year < b.year
    } else if a.month != b.month {
        a.month < b.month
    } else {
        a.day <= b.day
    }
}

/// Lexicographic order on (date, seconds of day).
pub open spec fn datetime_le(a: DateTime, b: DateTime) -> bool {
    if a.date != b.date {
        date_le(a.date, b.date)
    } else {
        a.secs <= b.secs
    }
}

impl Date {
    /// Decides `date_le` on two dates.
    pub fn is_le(&self, other: &Date) -> (r: bool)
        ensures
            r == date_le(*self, *other),
    {
        if self.year != other.year {
            self.year < other.year
        } else if self.month != other.month {
            self.month < other.month
        } else {
            self.day <= other.day
        }
    }
}

impl DateTime {
    /// Decides `datetime_le` on two date-times.
    pub fn is_le(&self, other: &DateTime) -> (r: bool)
        ensures
            r == datetime_le(*self, *other),
    {
        let dates_eq = self.date.year == other.date.year && self.date.month == other.date.month
            && self.date.day == other.date.day;
        if !dates_eq {
            self.date.is_le(&other.date)
        } else {
            self.secs <= other.secs
        }
    }

    /// Midnight at the start of the given date.
    pub fn midnight(date: Date) -> (r: DateTime)
        ensures
            r.date == date,
            r.secs == 0,
    {
        DateTime { date, secs: 0 }
    }
}

// ---------------------------------------------------------------------------
// Query parameters
// ---------------------------------------------------------------------------

/// Raw `"field=value"` filter tokens, one bucket per comparison operator.
/// Within a bucket - and across buckets - conditions are alternatives:
/// the compiled query matches a row when any condition matches it.
#[derive(Debug)]
pub struct Filters {
    pub like: Vec<String>,
    pub eq: Vec<String>,
    pub ge: Vec<String>,
    pub le: Vec<String>,
    pub between: Vec<String>,
}

/// The mathematical value of a [`Filters`]: each bucket as a sequence of
/// character sequences.
pub ghost struct FiltersV {
    pub like: Seq<Seq<char>>,
    pub eq: Seq<Seq<char>>,
    pub ge: Seq<Seq<char>>,
    pub le: Seq<Seq<char>>,
    pub between: Seq<Seq<char>>,
}

impl View for Filters {
    type V = FiltersV;

    open spec fn view(&self) -> FiltersV {
        FiltersV {
            like: self.like.deep_view(),
            eq: self.eq.deep_view(),
            ge: self.ge.deep_view(),
            le: self.le.deep_view(),
            between: self.between.deep_view(),
        }
    }
}

/// All five operator buckets are empty.
pub open spec fn filters_empty(f: FiltersV) -> bool {
    f.like.len() == 0 && f.eq.len() == 0 && f.ge.len() == 0 && f.le.len() == 0 && f.between.len()
        == 0
}

impl Filters {
    /// A filter set holding only equality tokens.
    pub fn new_eq(eq: Vec<String>) -> (r: Filters)
        ensures
            r@.eq == eq.deep_view(),
            r@.like.len() == 0,
            r@.ge.len() == 0,
            r@.le.len() == 0,
            r@.between.len() == 0,
    {
        Filters { eq, like: Vec::new(), ge: Vec::new(), le: Vec::new(), between: Vec::new() }
    }
}

/// Caller-supplied query constraints: pagination, filters and sort keys.
#[derive(Debug)]
pub struct QParams {
    pub start: Option<i64>,
    pub step: Option<i64>,
    pub filter: Filters,
    pub order: Vec<String>,
}

/// The mathematical value of a [`QParams`].
pub ghost struct QParamsV {
    pub start: Option<int>,
    pub step: Option<int>,
    pub filter: FiltersV,
    pub order: Seq<Seq<char>>,
}

impl View for QParams {
    type V = QParamsV;

    open spec fn view(&self) -> QParamsV {
        QParamsV {
            start: match self.start {
                Some(s) => Some(s as int),
                None => None,
            },
            step: match self.step {
                Some(s) => Some(s as int),
                None => None,
            },
            filter: self.filter@,
            order: self.order.deep_view(),
        }
    }
}

/// The default page size applied when the caller supplied no `step` but did
/// supply at least one filter token.
pub open spec fn spec_calculate_limit(f: FiltersV) -> int {
    if filters_empty(f) {
        0
    } else {
        10
    }
}

/// A page size large enough to cover `n` rows, clamped to what a page
/// limit can carry.  Queries the library builds for itself pass this as an
/// explicit `step`, so the default page policy never truncates them.
pub open spec fn covering_step(n: int) -> int {
    if n > 0x7fff_ffff {
        0x7fff_ffff
    } else {
        n
    }
}

/// A page size large enough to cover `n` rows.
pub fn covering_step_x(n: usize) -> (r: i64)
    ensures
        r == covering_step(n as int),
{
    if n > 0x7fff_ffff {
        0x7fff_ffff
    } else {
        n as i64
    }
}

impl QParams {
    /// Parameters carrying only the given filters: no pagination, no order.
    pub fn new_filter(filter: Filters) -> (r: QParams)
        ensures
            r@.start is None,
            r@.step is None,
            r@.filter == filter@,
            r@.order.len() == 0,
    {
        QParams { filter, start: None, step: None, order: Vec::new() }
    }

    /// The default limit when the caller supplied no `step`.  An entirely
    /// empty filter set is a deliberate sentinel meaning "match nothing":
    /// the default limit is then zero, so an implicit "give me everything"
    /// never dumps the table.  Otherwise a small fixed page size applies.
    pub fn calculate_limit(&self) -> (r: i64)
        ensures
            r == spec_calculate_limit(self@.filter),
    {
        if self.filter.like.len() == 0 && self.filter.eq.len() == 0 && self.filter.ge.len() == 0
            && self.filter.le.len() == 0 && self.filter.between.len() == 0 {
            0
        } else {
            10
        }
    }
}

// ---------------------------------------------------------------------------
// HTTP statuses
// ---------------------------------------------------------------------------

/// The HTTP statuses this backend produces.
#[derive(Clone, Copy, PartialEq, Eq, Structural, Debug)]
pub enum Status {
    OK,
    Created,
    NoContent,
    BadRequest,
    Unauthorized,
    Forbidden,
    NotFound,
    Conflict,
    UnprocessableEntity,
    InternalServerError,
}

impl Status {
    /// The numeric code of the status.
    pub open spec fn spec_code(self) -> int {
        match self {
            Status::OK => 200,
            Status::Created => 201,
            Status::NoContent => 204,
            Status::BadRequest => 400,
            Status::Unauthorized => 401,
            Status::Forbidden => 403,
            Status::NotFound => 404,
            Status::Conflict => 409,
            Status::UnprocessableEntity => 422,
            Status::InternalServerError => 500,
        }
    }

    /// The numeric code of the status.
    pub fn code(&self) -> (c: u16)
        ensures
            c == self.spec_code(),
    {
        match self {
            Status::OK => 200,
            Status::Created => 201,
            Status::NoContent => 204,
            Status::BadRequest => 400,
            Status::Unauthorized => 401,
            Status::Forbidden => 403,
            Status::NotFound => 404,
            Status::Conflict => 409,
            Status::UnprocessableEntity => 422,
            Status::InternalServerError => 500,
        }
    }

    /// The canonical reason phrase of the status.
    pub open spec fn spec_reason(self) -> Seq<char> {
        match self {
            Status::OK => "OK"@,
            Status::Created => "Created"@,
            Status::NoContent => "No Content"@,
            Status::BadRequest => "Bad Request"@,
            Status::Unauthorized => "Unauthorized"@,
            Status::Forbidden => "Forbidden"@,
            Status::NotFound => "Not Found"@,
            Status::Conflict => "Conflict"@,
            Status::UnprocessableEntity => "Unprocessable Entity"@,
            Status::InternalServerError => "Internal Server Error"@,
        }
    }

    /// The canonical reason phrase of the status.
    pub fn reason(&self) -> (r: String)
        ensures
            r@ == self.spec_reason(),
    {
        match self {
            Status::OK => "OK".to_owned(),
            Status::Created => "Created".to_owned(),
            Status::NoContent => "No Content".to_owned(),
            Status::BadRequest => "Bad Request".to_owned(),
            Status::Unauthorized => "Unauthorized".to_owned(),
            Status::Forbidden => "Forbidden".to_owned(),
            Status::NotFound => "Not Found".to_owned(),
            Status::Conflict => "Conflict".to_owned(),
            Status::UnprocessableEntity => "Unprocessable Entity".to_owned(),
            Status::InternalServerError => "Internal Server Error".to_owned(),
        }
    }
}

// ---------------------------------------------------------------------------
// Response envelope
// ---------------------------------------------------------------------------

/// One entry of a structured error-details list: which field was wrong and
/// why.
#[derive(Debug, PartialEq, Eq, Clone)]
pub struct ErrorDetail {
    pub field: String,
    pub message: String,
}

/// The uniform result wrapper returned to callers.  Fields left `None` are
/// omitted from the rendered response.  `data` carries an already-rendered
/// payload document.
#[derive(Debug, PartialEq, Eq)]
pub struct AResponse {
    pub status: String,
    pub message: Option<String>,
    pub location: Option<String>,
    pub data: Option<String>,
    pub code: Option<String>,
    pub errors: Option<Vec<ErrorDetail>>,
}

impl AResponse {
    /// Success with an optional payload.
    pub fn _200(data: Option<String>) -> (r: AResponse)
        ensures
            r.status@ == "Success"@,
            r.data == data,
            r.message is None,
            r.location is None,
            r.code is None,
            r.errors is None,
    {
        AResponse {
            status: "Success".to_owned(),
            data,
            message: None,
            location: None,
            code: None,
            errors: None,
        }
    }

    /// Created, with the location of the new resource.
    pub fn _201(location: Option<String>) -> (r: AResponse)
        ensures
            r.status@ == "Success"@,
            r.data is None,
            r.message matches Some(m) && m@ == "Resource created Successfully"@,
            r.location == location,
            r.code is None,
            r.errors is None,
    {
        AResponse {
            status: "Success".to_owned(),
            data: None,
            message: Some("Resource created Successfully".to_owned()),
            location,
            code: None,
            errors: None,
        }
    }

    /// Malformed request.
    pub fn _400(message: Option<String>) -> (r: AResponse)
        ensures
            r.status@ == "Error"@,
            r.data is None,
            r.message == message,
            r.location is None,
            r.code matches Some(c) && c@ == "INVALID_USER_INPUT"@,
            r.errors is None,
    {
        AResponse {
            status: "Error".to_owned(),
            data: None,
            message,
            location: None,
            code: Some("INVALID_USER_INPUT".to_owned()),
            errors: None,
        }
    }

    /// Missing or invalid credential.
    pub fn _401(message: Option<String>) -> (r: AResponse)
        ensures
            r.status@ == "Error"@,
            r.data is None,
            r.message == message,
            r.location is None,
            r.code matches Some(c) && c@ == "UNAUTHORIZED"@,
            r.errors is None,
    {
        AResponse {
            status: "Error".to_owned(),
            data: None,
            message,
            location: None,
            code: Some("UNAUTHORIZED".to_owned()),
            errors: None,
        }
    }

    /// Not found.
    pub fn _404(message: Option<String>) -> (r: AResponse)
        ensures
            r.status@ == "Error"@,
            r.data is None,
            r.message == message,
            r.location is None,
            r.code matches Some(c) && c@ == "NOT_FOUND"@,
            r.errors is None,
    {
        AResponse {
            status: "Error".to_owned(),
            data: None,
            message,
            location: None,
            code: Some("NOT_FOUND".to_owned()),
            errors: None,
        }
    }

    /// Conflict with an existing resource (a unique constraint).
    pub fn _409(message: Option<String>) -> (r: AResponse)
        ensures
            r.status@ == "Error"@,
            r.data is None,
            r.message == message,
            r.location is None,
            r.code matches Some(c) && c@ == "UNIQUE_VIOLATION"@,
            r.errors is None,
    {
        AResponse {
            status: "Error".to_owned(),
            data: None,
            message,
            location: None,
            code: Some("UNIQUE_VIOLATION".to_owned()),
            errors: None,
        }
    }

    /// Constraint violation or semantic validation failure, with a
    /// caller-chosen code and details.
    pub fn _422(message: Option<String>, code: Option<String>, errors: Option<Vec<ErrorDetail>>) -> (r:
        AResponse)
        ensures
            r.status@ == "Error"@,
            r.data is None,
            r.message == message,
            r.location is None,
            r.code == code,
            r.errors == errors,
    {
        AResponse { status: "Error".to_owned(), data: None, message, location: None, code, errors }
    }

    /// Unexpected failure.
    pub fn _500() -> (r: AResponse)
        ensures
            r.status@ == "Error"@,
            r.data is None,
            r.message matches Some(m) && m@ == "Our apologies, something went wrong."@,
            r.location is None,
            r.code matches Some(c) && c@ == "INTERNAL_SERVER_ERROR"@,
            r.errors is None,
    {
        AResponse {
            status: "Error".to_owned(),
            data: None,
            message: Some("Our apologies, something went wrong.".to_owned()),
            location: None,
            code: Some("INTERNAL_SERVER_ERROR".to_owned()),
            errors: None,
        }
    }

    /// An error of a kind the caller did not anticipate.
    pub fn error(errors: Option<Vec<ErrorDetail>>) -> (r: AResponse)
        ensures
            r.status@ == "Error"@,
            r.data is None,
            r.message matches Some(m) && m@ == "An unexpected error type has occured."@,
            r.location is None,
            r.code matches Some(c) && c@ == "UNEXPECTED_ERROR_TYPE"@,
            r.errors == errors,
    {
        AResponse {
            status: "Error".to_owned(),
            data: None,
            message: Some("An unexpected error type has occured.".to_owned()),
            location: None,
            code: Some("UNEXPECTED_ERROR_TYPE".to_owned()),
            errors,
        }
    }
}

/// A failure of the storage layer, distinguished from "zero rows found".
#[derive(Clone, Copy, PartialEq, Eq, Structural, Debug)]
pub enum QueryError {
    /// The caller asked for a page with a negative offset or limit.
    InvalidRange,
}

/// The whole envelope an error branch owes: an "Error" status carrying
/// exactly this machine code and this message, with no payload, location
/// or details — so two branches promising the same arguments are
/// observably identical.
pub open spec fn plain_error_envelope(
    a: AResponse,
    code: Seq<char>,
    message: Option<Seq<char>>,
) -> bool {
    &&& a.status@ == "Error"@
    &&& a.data is None
    &&& a.location is None
    &&& a.errors is None
    &&& (a.code matches Some(c) && c@ == code)
    &&& a.message.deep_view() == message
}

/// The envelope a field-validation failure owes: an "Error" status with
/// the INVALID_INPUT code and the fixed advice message, no payload and no
/// location; the caller states the details list separately.
pub open spec fn invalid_input_envelope(a: AResponse) -> bool {
    &&& a.status@ == "Error"@
    &&& a.data is None
    &&& a.location is None
    &&& (a.code matches Some(c) && c@ == "INVALID_INPUT"@)
    &&& (a.message matches Some(m) && m@ == "Correct input and try again."@)
}

/// A response paired with the HTTP status it travels under.
#[derive(Debug, PartialEq, Eq)]
pub struct Custom(pub Status, pub AResponse);

/// An error entry of the multi-part response shape.
#[derive(Debug, PartialEq, Eq)]
pub struct ErrorResponse {
    pub code: String,
    pub message: String,
}

/// A payload entry of the multi-part response shape.
#[derive(Debug, PartialEq, Eq)]
pub struct PayloadResponse {
    pub payload: String,
    pub message: Option<String>,
}

/// An informational entry of the multi-part response shape.
#[derive(Debug, PartialEq, Eq)]
pub struct InformationalResponse {
    pub message: String,
}

/// A response carrying any mix of payloads, information and errors.
#[derive(Debug, PartialEq, Eq)]
pub struct MyResponse {
    pub payloads: Vec<String>,
    pub information: Vec<InformationalResponse>,
    pub errors: Vec<ErrorResponse>,
}

// ---------------------------------------------------------------------------
// Entity rows
// ---------------------------------------------------------------------------

/// A blog post row.
#[derive(Debug, PartialEq, Clone)]
pub struct BlogEntry {
    pub id: i32,
    pub title: String,
    pub author: String,
    pub created: Option<DateTime>,
    pub last_updated: Option<Date>,
    pub content: Option<String>,
}

/// The mathematical value of a post row.
pub ghost struct BlogEntryV {
    pub id: int,
    pub title: Seq<char>,
    pub author: Seq<char>,
    pub created: Option<DateTime>,
    pub last_updated: Option<Date>,
    pub content: Option<Seq<char>>,
}

impl View for BlogEntry {
    type V = BlogEntryV;

    open spec fn view(&self) -> BlogEntryV {
        BlogEntryV {
            id: self.id as int,
            title: self.title@,
            author: self.author@,
            created: self.created,
            last_updated: self.last_updated,
            content: match self.content {
                Some(c) => Some(c@),
                None => None,
            },
        }
    }
}

/// A tag row.
#[derive(Debug, PartialEq, Clone)]
pub struct Tag {
    pub id: i32,
    pub name: String,
}

/// The mathematical value of a tag row.
pub ghost struct TagV {
    pub id: int,
    pub name: Seq<char>,
}

impl View for Tag {
    type V = TagV;

    open spec fn view(&self) -> TagV {
        TagV { id: self.id as int, name: self.name@ }
    }
}

/// A join-table row: "post `post_id` carries tag `tag_id`".
#[derive(Debug, PartialEq, Eq, Structural, Clone, Copy)]
pub struct BlogTags {
    pub id: i32,
    pub post_id: i32,
    pub tag_id: i32,
}

/// A join-table row not yet assigned an id.
#[derive(Debug, PartialEq, Eq, Structural, Clone, Copy)]
pub struct NewBlogTag {
    pub post_id: i32,
    pub tag_id: i32,
}

/// A user row.
#[derive(Debug, PartialEq, Clone)]
pub struct User {
    pub id: i32,
    pub email: Option<String>,
    pub phc: Option<String>,
    pub first_name: Option<String>,
    pub last_name: Option<String>,
    pub created: Option<DateTime>,
    pub role: i32,
    pub active: Option<bool>,
    pub last_access: Option<Date>,
}

/// The mathematical value of a user row.
pub ghost struct UserV {
    pub id: int,
    pub email: Option<Seq<char>>,
    pub phc: Option<Seq<char>>,
    pub first_name: Option<Seq<char>>,
    pub last_name: Option<Seq<char>>,
    pub created: Option<DateTime>,
    pub role: int,
    pub active: Option<bool>,
    pub last_access: Option<Date>,
}

impl View for User {
    type V = UserV;

    open spec fn view(&self) -> UserV {
        UserV {
            id: self.id as int,
            email: self.email.deep_view(),
            phc: self.phc.deep_view(),
            first_name: self.first_name.deep_view(),
            last_name: self.last_name.deep_view(),
            created: self.created,
            role: self.role as int,
            active: self.active,
            last_access: self.last_access,
        }
    }
}

impl DeepView for User {
    type V = UserV;

    open spec fn deep_view(&self) -> UserV {
        self@
    }
}

/// A user row not yet assigned an id.
#[derive(Debug, PartialEq, Clone)]
pub struct NewUser {
    pub email: String,
    pub phc: Option<String>,
    pub first_name: Option<String>,
    pub last_name: Option<String>,
    pub role: i32,
    pub active: bool,
}

/// A role row.
#[derive(Debug, PartialEq, Clone)]
pub struct Role {
    pub id: i32,
    pub user_role: String,
}

/// The mathematical value of a role row.
pub ghost struct RoleV {
    pub id: int,
    pub user_role: Seq<char>,
}

impl View for Role {
    type V = RoleV;

    open spec fn view(&self) -> RoleV {
        RoleV { id: self.id as int, user_role: self.user_role@ }
    }
}

impl DeepView for Role {
    type V = RoleV;

    open spec fn deep_view(&self) -> RoleV {
        self@
    }
}

/// The decoded payload of a session token.
#[derive(Debug, PartialEq, Clone)]
pub struct JWTClaims {
    pub user_id: i32,
    pub email: String,
    pub role_id: i32,
    pub role: String,
    pub exp: usize,
}

/// Process-wide configuration, read-only after startup.
#[derive(Debug, PartialEq, Clone)]
pub struct EnvVariables {
    pub jwt_secret: String,
}

} // verus!
