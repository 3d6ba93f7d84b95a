//! Decoding of the gateway's response envelope
//! `{ successStatus, error, response }` and of the SQL result inside it.

use vstd::prelude::*;
use vstd::string::StringExecFns;
use crate::json::{Json, member, take_member, parse_json, json_parse};
use crate::text::{u32_numeral, parse_u32};

verus! {

/// What is wrong with a response body that does not have the expected shape.
#[derive(PartialEq, Eq, Structural, Clone, Copy, Debug)]
pub enum DecodeFailure {
    /// The body is not a JSON document.
    NotJson,
    /// The document is not an object.
    NotObject,
    /// The envelope has no `successStatus`.
    MissingStatus,
    /// `successStatus` is not a non-negative integer that fits in 32 bits.
    BadStatus,
    /// `error` is neither text nor null.
    BadError,
    /// The envelope reports success but carries no `response`.
    MissingResponse,
    /// The SQL `response` is not an object.
    BadResponse,
    /// `fieldsMetadata` is not a list of `{fieldName, fieldTypeName}` texts.
    BadFields,
    /// `items` is not a list of rows of one cell per field.
    BadItems,
    /// The first page holds more rows than the page size asked for.
    TooManyRows,
}

/// Why an operation failed. An absent key is no failure: see `decode_get`.
#[derive(Debug)]
pub enum ClientError {
    /// The gateway answered with an HTTP status outside 200..=299.
    Transport { http_status: u16 },
    /// A well-formed answer reports that the operation failed.
    Application { status: u32, message: Option<String> },
    /// The answer does not have the expected shape.
    Decoding { failure: DecodeFailure },
}

/// Description of one column of a SQL result.
#[derive(Debug)]
pub struct FieldMeta {
    pub field_name: String,
    pub field_type_name: String,
}

/// The first page of a SQL result: column descriptions and rows whose cells
/// are aligned with them.
#[derive(Debug)]
pub struct SqlResult {
    pub fields: Vec<FieldMeta>,
    pub rows: Vec<Vec<Json>>,
}

impl SqlResult {
    pub open spec fn rows_view(&self) -> Seq<Seq<Json>> {
        self.rows@.map_values(|r: Vec<Json>| r@)
    }
}

/// The application status that an envelope's members report; where the
/// status may be left out, its absence reads as success.
pub open spec fn status_of(members: Seq<(String, Json)>, required: bool) -> Result<u32, DecodeFailure> {
    match member(members, "successStatus"@) {
        None => if required {
            Err(DecodeFailure::MissingStatus)
        } else {
            Ok(0)
        },
        Some(Json::Number(t)) => match u32_numeral(t@) {
            Some(n) => Ok(n),
            None => Err(DecodeFailure::BadStatus),
        },
        Some(_) => Err(DecodeFailure::BadStatus),
    }
}

/// The error text that an envelope's members carry, if any.
pub open spec fn error_text_of(members: Seq<(String, Json)>) -> Result<Option<String>, DecodeFailure> {
    match member(members, "error"@) {
        None => Ok(None),
        Some(Json::Null) => Ok(None),
        Some(Json::Text(s)) => Ok(Some(s)),
        Some(_) => Err(DecodeFailure::BadError),
    }
}

/// The outcome of a response envelope: an application failure where the
/// status is non-zero or an error text is present; otherwise its `response`,
/// with null read as "absent". `status_required` says whether
/// `successStatus` must be present.
pub open spec fn envelope_outcome(v: Json, status_required: bool) -> Result<Option<Json>, ClientError> {
    match v {
        Json::Object(m) => match status_of(m@, status_required) {
            Err(f) => Err(ClientError::Decoding { failure: f }),
            Ok(st) => match error_text_of(m@) {
                Err(f) => Err(ClientError::Decoding { failure: f }),
                Ok(msg) => if st != 0 || msg is Some {
                    Err(ClientError::Application { status: st, message: msg })
                } else {
                    match member(m@, "response"@) {
                        None => Err(ClientError::Decoding { failure: DecodeFailure::MissingResponse }),
                        Some(Json::Null) => Ok(None),
                        Some(x) => Ok(Some(x)),
                    }
                },
            },
        },
        _ => Err(ClientError::Decoding { failure: DecodeFailure::NotObject }),
    }
}

fn string_of(s: &str) -> (r: String)
    ensures
        r@ == s@,
{
    String::from_str(s)
}

/// Checks an envelope and hands out its `response` (`None` where it is null).
pub fn open_envelope(v: Json, status_required: bool) -> (r: Result<Option<Json>, ClientError>)
    ensures
        r == envelope_outcome(v, status_required),
{
    match v {
        Json::Object(mut m) => {
            let ghost m0 = m@;
            let status_key = string_of("successStatus");
            let error_key = string_of("error");
            let response_key = string_of("response");
            proof {
                reveal_strlit("successStatus");
                reveal_strlit("error");
                reveal_strlit("response");
                assert("successStatus"@.len() == 13);
                assert("error"@.len() == 5);
                assert("response"@.len() == 8);
                assert("error"@ != "successStatus"@);
                assert("response"@ != "successStatus"@);
                assert("response"@ != "error"@);
            }
            let status = match take_member(&mut m, &status_key) {
                None => if status_required {
                    return Err(ClientError::Decoding { failure: DecodeFailure::MissingStatus });
                } else {
                    0
                },
                Some(Json::Number(t)) => match parse_u32(t.as_str()) {
                    Some(n) => n,
                    None => {
                        return Err(ClientError::Decoding { failure: DecodeFailure::BadStatus });
                    },
                },
                Some(_) => {
                    return Err(ClientError::Decoding { failure: DecodeFailure::BadStatus });
                },
            };
            assert(status_of(m0, status_required) == Ok::<u32, DecodeFailure>(status));
            let ghost m1 = m@;
            assert(member(m1, "error"@) == member(m0, "error"@));
            let message = match take_member(&mut m, &error_key) {
                None => None,
                Some(Json::Null) => None,
                Some(Json::Text(s)) => Some(s),
                Some(_) => {
                    return Err(ClientError::Decoding { failure: DecodeFailure::BadError });
                },
            };
            assert(error_text_of(m0) == Ok::<Option<String>, DecodeFailure>(message));
            if status != 0 || message.is_some() {
                return Err(ClientError::Application { status, message });
            }
            assert(member(m@, "response"@) == member(m0, "response"@));
            match take_member(&mut m, &response_key) {
                None => Err(ClientError::Decoding { failure: DecodeFailure::MissingResponse }),
                Some(Json::Null) => Ok(None),
                Some(x) => Ok(Some(x)),
            }
        },
        _ => Err(ClientError::Decoding { failure: DecodeFailure::NotObject }),
    }
}

/// A column description read from a `{fieldName, fieldTypeName}` object.
pub open spec fn field_of(j: Json) -> Option<FieldMeta> {
    match j {
        Json::Object(m) => match (member(m@, "fieldName"@), member(m@, "fieldTypeName"@)) {
            (Some(Json::Text(a)), Some(Json::Text(b))) => Some(
                FieldMeta { field_name: a, field_type_name: b },
            ),
            _ => None,
        },
        _ => None,
    }
}

/// The elements of an optional list member; absent and null read as empty.
pub open spec fn list_of(x: Option<Json>) -> Option<Seq<Json>> {
    match x {
        None => Some(Seq::empty()),
        Some(Json::Null) => Some(Seq::empty()),
        Some(Json::Array(a)) => Some(a@),
        Some(_) => None,
    }
}

/// The column descriptions of a list, or `None` where one is malformed.
pub open spec fn fields_of(items: Seq<Json>) -> Option<Seq<FieldMeta>> {
    if forall|i: int| 0 <= i < items.len() ==> (#[trigger] field_of(items[i])) is Some {
        Some(items.map_values(|j: Json| field_of(j)->Some_0))
    } else {
        None
    }
}

/// A list of exactly `width` cells.
pub open spec fn is_row(j: Json, width: nat) -> bool {
    j is Array && j->Array_0@.len() == width
}

/// The rows of a list, or `None` where one is not a list of `width` cells.
pub open spec fn rows_of(items: Seq<Json>, width: nat) -> Option<Seq<Seq<Json>>> {
    if forall|i: int| 0 <= i < items.len() ==> is_row(#[trigger] items[i], width) {
        Some(items.map_values(|j: Json| j->Array_0@))
    } else {
        None
    }
}

/// The columns and rows of a SQL `response` object: each row has one cell per
/// column, and there are at most `page_size` rows.
pub open spec fn sql_result_of(resp: Json, page_size: u32) -> Result<(Seq<FieldMeta>, Seq<Seq<Json>>), DecodeFailure> {
    match resp {
        Json::Object(m) => match list_of(member(m@, "fieldsMetadata"@)) {
            None => Err(DecodeFailure::BadFields),
            Some(l) => match fields_of(l) {
                None => Err(DecodeFailure::BadFields),
                Some(fields) => match list_of(member(m@, "items"@)) {
                    None => Err(DecodeFailure::BadItems),
                    Some(items) => match rows_of(items, fields.len()) {
                        None => Err(DecodeFailure::BadItems),
                        Some(rows) => if rows.len() > page_size {
                            Err(DecodeFailure::TooManyRows)
                        } else {
                            Ok((fields, rows))
                        },
                    },
                },
            },
        },
        _ => Err(DecodeFailure::BadResponse),
    }
}

/// The outcome of a SQL answer to a request for pages of `page_size` rows.
/// Success with no `response` is malformed.
pub open spec fn sql_outcome(v: Json, page_size: u32) -> Result<(Seq<FieldMeta>, Seq<Seq<Json>>), ClientError> {
    match envelope_outcome(v, true) {
        Err(e) => Err(e),
        Ok(None) => Err(ClientError::Decoding { failure: DecodeFailure::MissingResponse }),
        Ok(Some(resp)) => match sql_result_of(resp, page_size) {
            Err(f) => Err(ClientError::Decoding { failure: f }),
            Ok(p) => Ok(p),
        },
    }
}

/// Reads one column description.
pub fn decode_field(j: Json) -> (r: Option<FieldMeta>)
    ensures
        r == field_of(j),
{
    match j {
        Json::Object(mut m) => {
            let ghost m0 = m@;
            let name_key = string_of("fieldName");
            let type_key = string_of("fieldTypeName");
            proof {
                reveal_strlit("fieldName");
                reveal_strlit("fieldTypeName");
                assert("fieldName"@.len() == 9);
                assert("fieldTypeName"@.len() == 13);
                assert("fieldName"@ != "fieldTypeName"@);
            }
            let name = take_member(&mut m, &name_key);
            let kind = take_member(&mut m, &type_key);
            match (name, kind) {
                (Some(Json::Text(a)), Some(Json::Text(b))) => Some(
                    FieldMeta { field_name: a, field_type_name: b },
                ),
                _ => None,
            }
        },
        _ => None,
    }
}

/// Takes the elements out of an optional list member.
fn take_list(x: Option<Json>) -> (r: Option<Vec<Json>>)
    ensures
        match r {
            Some(v) => list_of(x) == Some(v@),
            None => list_of(x) is None,
        },
{
    match x {
        None => Some(Vec::new()),
        Some(Json::Null) => Some(Vec::new()),
        Some(Json::Array(a)) => Some(a),
        Some(_) => None,
    }
}

/// Reads a list of column descriptions, in order.
pub fn decode_fields(items: Vec<Json>) -> (r: Option<Vec<FieldMeta>>)
    ensures
        r is Some <==> fields_of(items@) is Some,
        r is Some ==> fields_of(items@) == Some(r->Some_0@),
{
    let ghost orig = items@;
    let n = items.len();
    let mut rest = items;
    let mut out: Vec<FieldMeta> = Vec::new();
    let mut i: usize = 0;
    while i < n
        invariant
            n == orig.len(),
            i <= n,
            items@ == orig,
            rest@ == orig.subrange(i as int, n as int),
            forall|j: int| 0 <= j < i ==> (#[trigger] field_of(orig[j])) is Some,
            out@ == orig.subrange(0, i as int).map_values(|j: Json| field_of(j)->Some_0),
        decreases n - i,
    {
        let j = rest.remove(0);
        assert(j == orig[i as int]);
        match decode_field(j) {
            Some(f) => {
                out.push(f);
            },
            None => {
                assert(field_of(orig[i as int]) is None);
                assert(fields_of(orig) is None);
                return None;
            },
        }
        i = i + 1;
        assert(rest@ =~= orig.subrange(i as int, n as int));
        assert(out@ =~= orig.subrange(0, i as int).map_values(|j: Json| field_of(j)->Some_0));
    }
    assert(orig.subrange(0, n as int) =~= orig);
    Some(out)
}

/// Reads a list of rows of `width` cells each, in order.
pub fn decode_rows(items: Vec<Json>, width: usize) -> (r: Option<Vec<Vec<Json>>>)
    ensures
        r is Some <==> rows_of(items@, width as nat) is Some,
        r is Some ==> rows_of(items@, width as nat) == Some(r->Some_0@.map_values(|x: Vec<Json>| x@)),
{
    let ghost orig = items@;
    let n = items.len();
    let mut rest = items;
    let mut out: Vec<Vec<Json>> = Vec::new();
    let mut i: usize = 0;
    while i < n
        invariant
            n == orig.len(),
            i <= n,
            items@ == orig,
            rest@ == orig.subrange(i as int, n as int),
            forall|j: int| 0 <= j < i ==> is_row(#[trigger] orig[j], width as nat),
            out@.len() == i,
            out@.map_values(|x: Vec<Json>| x@) == orig.subrange(0, i as int).map_values(
                |j: Json| j->Array_0@,
            ),
        decreases n - i,
    {
        let j = rest.remove(0);
        assert(j == orig[i as int]);
        let ghost prev = out@;
        match j {
            Json::Array(cells) => {
                if cells.len() != width {
                    assert(!is_row(orig[i as int], width as nat));
                    assert(rows_of(orig, width as nat) is None);
                    return None;
                }
                out.push(cells);
            },
            _ => {
                assert(!is_row(orig[i as int], width as nat));
                assert(rows_of(orig, width as nat) is None);
                return None;
            },
        }
        i = i + 1;
        assert(rest@ =~= orig.subrange(i as int, n as int));
        let ghost lhs = out@.map_values(|x: Vec<Json>| x@);
        let ghost rhs = orig.subrange(0, i as int).map_values(|j: Json| j->Array_0@);
        assert forall|k: int| 0 <= k < i implies lhs[k] == rhs[k] by {
            if k < i - 1 {
                assert(out@[k] == prev[k]);
                assert(prev.map_values(|x: Vec<Json>| x@)[k] == orig.subrange(0, i - 1).map_values(
                    |j: Json| j->Array_0@,
                )[k]);
            }
        }
        assert(lhs =~= rhs);
    }
    assert(orig.subrange(0, n as int) =~= orig);
    Some(out)
}

/// Reads the columns and rows of a SQL `response` object, for a request of
/// pages of `page_size` rows.
pub fn decode_sql_result(resp: Json, page_size: u32) -> (r: Result<SqlResult, DecodeFailure>)
    ensures
        match r {
            Ok(res) => sql_result_of(resp, page_size) == Ok::<_, DecodeFailure>((res.fields@, res.rows_view())),
            Err(f) => sql_result_of(resp, page_size) == Err::<(Seq<FieldMeta>, Seq<Seq<Json>>), _>(f),
        },
{
    match resp {
        Json::Object(mut m) => {
            let fields_key = string_of("fieldsMetadata");
            let items_key = string_of("items");
            proof {
                reveal_strlit("fieldsMetadata");
                reveal_strlit("items");
                assert("fieldsMetadata"@.len() == 14);
                assert("items"@.len() == 5);
                assert("fieldsMetadata"@ != "items"@);
            }
            let field_list = match take_list(take_member(&mut m, &fields_key)) {
                Some(l) => l,
                None => {
                    return Err(DecodeFailure::BadFields);
                },
            };
            let fields = match decode_fields(field_list) {
                Some(f) => f,
                None => {
                    return Err(DecodeFailure::BadFields);
                },
            };
            let item_list = match take_list(take_member(&mut m, &items_key)) {
                Some(l) => l,
                None => {
                    return Err(DecodeFailure::BadItems);
                },
            };
            let rows = match decode_rows(item_list, fields.len()) {
                Some(r) => r,
                None => {
                    return Err(DecodeFailure::BadItems);
                },
            };
            if rows.len() as u64 > page_size as u64 {
                return Err(DecodeFailure::TooManyRows);
            }
            Ok(SqlResult { fields, rows })
        },
        _ => Err(DecodeFailure::BadResponse),
    }
}

/// Decodes the answer to a SQL request for pages of `page_size` rows: the
/// first page of its result, or why there is none.
pub fn decode_sql(v: Json, page_size: u32) -> (r: Result<SqlResult, ClientError>)
    ensures
        match r {
            Ok(res) => sql_outcome(v, page_size) == Ok::<_, ClientError>((res.fields@, res.rows_view())),
            Err(e) => sql_outcome(v, page_size) == Err::<(Seq<FieldMeta>, Seq<Seq<Json>>), _>(e),
        },
{
    match open_envelope(v, true) {
        Err(e) => Err(e),
        Ok(None) => Err(ClientError::Decoding { failure: DecodeFailure::MissingResponse }),
        Ok(Some(resp)) => match decode_sql_result(resp, page_size) {
            Err(f) => Err(ClientError::Decoding { failure: f }),
            Ok(res) => Ok(res),
        },
    }
}

/// Decodes the answer to a key lookup, `{ response: value | null }` with an
/// optional status: `Ok(None)` where the key is absent, which is a
/// successful outcome.
pub fn decode_get(v: Json) -> (r: Result<Option<Json>, ClientError>)
    ensures
        r == envelope_outcome(v, false),
{
    open_envelope(v, false)
}

/// Decodes the answer to a cache administration or put request.
pub fn decode_ack(v: Json) -> (r: Result<(), ClientError>)
    ensures
        r is Ok <==> envelope_outcome(v, true) is Ok,
        forall|e: ClientError| r == Err::<(), _>(e) <==> envelope_outcome(v, true) == Err::<Option<Json>, _>(e),
{
    match open_envelope(v, true) {
        Ok(_) => Ok(()),
        Err(e) => Err(e),
    }
}

/// Whether an HTTP status reports success.
pub open spec fn http_ok(status: u16) -> bool {
    200 <= status <= 299
}

/// The document that an HTTP answer carries, or why it carries none.
pub open spec fn body_outcome(http_status: u16, body: Seq<char>) -> Result<Json, ClientError> {
    if !http_ok(http_status) {
        Err(ClientError::Transport { http_status })
    } else {
        match json_parse(body) {
            None => Err(ClientError::Decoding { failure: DecodeFailure::NotJson }),
            Some(v) => Ok(v),
        }
    }
}

/// Checks the HTTP status of an answer and parses its body.
pub fn read_body(http_status: u16, body: &str) -> (r: Result<Json, ClientError>)
    ensures
        r == body_outcome(http_status, body@),
{
    if http_status < 200 || http_status > 299 {
        return Err(ClientError::Transport { http_status });
    }
    match parse_json(body) {
        None => Err(ClientError::Decoding { failure: DecodeFailure::NotJson }),
        Some(v) => Ok(v),
    }
}

/// Decodes an HTTP answer to a SQL request for pages of `page_size` rows.
pub fn decode_sql_answer(http_status: u16, body: &str, page_size: u32) -> (r: Result<SqlResult, ClientError>)
    ensures
        match body_outcome(http_status, body@) {
            Err(e) => r == Err::<SqlResult, _>(e),
            Ok(v) => match r {
                Ok(res) => sql_outcome(v, page_size) == Ok::<_, ClientError>((res.fields@, res.rows_view())),
                Err(e) => sql_outcome(v, page_size) == Err::<(Seq<FieldMeta>, Seq<Seq<Json>>), _>(e),
            },
        },
{
    match read_body(http_status, body) {
        Err(e) => Err(e),
        Ok(v) => decode_sql(v, page_size),
    }
}

/// Decodes an HTTP answer to a key lookup.
pub fn decode_get_answer(http_status: u16, body: &str) -> (r: Result<Option<Json>, ClientError>)
    ensures
        match body_outcome(http_status, body@) {
            Err(e) => r == Err::<Option<Json>, _>(e),
            Ok(v) => r == envelope_outcome(v, false),
        },
{
    match read_body(http_status, body) {
        Err(e) => Err(e),
        Ok(v) => decode_get(v),
    }
}

/// Decodes an HTTP answer to a cache administration or put request.
pub fn decode_ack_answer(http_status: u16, body: &str) -> (r: Result<(), ClientError>)
    ensures
        match body_outcome(http_status, body@) {
            Err(e) => r == Err::<(), _>(e),
            Ok(v) => {
                &&& r is Ok <==> envelope_outcome(v, true) is Ok
                &&& forall|e: ClientError| r == Err::<(), _>(e) <==> envelope_outcome(v, true) == Err::<Option<Json>, _>(e)
            },
        },
{
    match read_body(http_status, body) {
        Err(e) => Err(e),
        Ok(v) => decode_ack(v),
    }
}

/// An answer that reports success but carries no `response`, or a null one,
/// is a decoding failure: it never reads as an empty result.
pub proof fn law_success_without_response_is_malformed(members: Vec<(String, Json)>, page_size: u32)
    requires
        status_of(members@, true) == Ok::<u32, DecodeFailure>(0),
        error_text_of(members@) == Ok::<Option<String>, DecodeFailure>(None),
        member(members@, "response"@) is None || member(members@, "response"@) == Some(Json::Null),
    ensures
        sql_outcome(Json::Object(members), page_size) == Err::<(Seq<FieldMeta>, Seq<Seq<Json>>), ClientError>(
            ClientError::Decoding { failure: DecodeFailure::MissingResponse },
        ),
{
}

} // verus!
