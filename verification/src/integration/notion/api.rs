use vstd::prelude::*;

use super::json::{
    entries_get, number_free,
    json_at, json_compact, json_get, json_of_bytes, json_of_text, json_pretty, json_str, parse_json,
    parse_json_bytes, render_compact, render_pretty, JsonValue,
};

verus! {

/// The address of a Notion database.
pub open spec fn database_url_text(database_id: Seq<char>) -> Seq<char> {
    "https://api.notion.com/v1/databases/"@ + database_id
}

/// The address at which a Notion data source is queried.
pub open spec fn query_url_text(data_source_id: Seq<char>) -> Seq<char> {
    "https://api.notion.com/v1/data_sources/"@ + data_source_id + "/query"@
}

/// The value of the `Authorization` header for an integration token.
pub open spec fn authorization_text(token: Seq<char>) -> Seq<char> {
    "Bearer "@ + token
}

/// The id at `data_sources[0].id` of a database object, where it is there
/// and is a string.
pub open spec fn data_source_id_of(database: JsonValue) -> Option<Seq<char>> {
    match json_get(database, "data_sources"@) {
        Some(sources) => match json_at(sources, 0) {
            Some(first) => match json_get(first, "id"@) {
                Some(id) => json_str(id),
                None => None,
            },
            None => None,
        },
        None => None,
    }
}

/// The address of the Notion database `database_id`.
pub fn database_url(database_id: &str) -> (url: String)
    ensures
        url@ == database_url_text(database_id@),
{
    let mut url = "https://api.notion.com/v1/databases/".to_owned();
    url.append(database_id);
    url
}

/// The address at which the data source `data_source_id` is queried.
pub fn data_source_query_url(data_source_id: &str) -> (url: String)
    ensures
        url@ == query_url_text(data_source_id@),
{
    let mut url = "https://api.notion.com/v1/data_sources/".to_owned();
    url.append(data_source_id);
    url.append("/query");
    url
}

/// The `Authorization` header value for the integration token `token`.
pub fn authorization_header(token: &str) -> (value: String)
    ensures
        value@ == authorization_text(token@),
{
    let mut value = "Bearer ".to_owned();
    value.append(token);
    value
}

/// Whether a reply's HTTP status is `200 OK`, the only one that the bot
/// accepts from Notion.
pub fn is_ok_status(status: u16) -> (ok: bool)
    ensures
        ok == (status == 200),
{
    status == 200
}

/// The id of the first data source of a database, read from the database
/// object that Notion returns.
pub fn extract_data_source_id(database: &JsonValue) -> (id: Option<String>)
    ensures
        match id {
            Some(s) => data_source_id_of(*database) == Some(s@),
            None => data_source_id_of(*database) is None,
        },
{
    let sources = match database.get("data_sources") {
        Some(v) => v,
        None => return None,
    };
    let first = match sources.at(0) {
        Some(v) => v,
        None => return None,
    };
    let id = match first.get("id") {
        Some(v) => v,
        None => return None,
    };
    match id.as_str() {
        Some(s) => Some(s.clone()),
        None => None,
    }
}

/// Why a Notion reply could not be used.
#[derive(PartialEq, Eq, Structural, Debug, Clone, Copy)]
pub enum NotionReplyError {
    /// The reply's HTTP status is not `200 OK`.
    BadStatus(u16),
    /// The reply is not JSON.
    InvalidJson,
    /// The database object names no data source.
    MissingDataSourceId,
}

/// The id of the first data source, read from the bytes of a database reply.
pub fn data_source_id_from_reply(body: &[u8]) -> (r: Result<String, NotionReplyError>)
    ensures
        match json_of_bytes(body@) {
            None => r == Err::<String, NotionReplyError>(NotionReplyError::InvalidJson),
            Some(v) => match data_source_id_of(v) {
                Some(id) => r is Ok && r->Ok_0@ == id,
                None => r == Err::<String, NotionReplyError>(NotionReplyError::MissingDataSourceId),
            },
        },
{
    match parse_json_bytes(body) {
        None => Err(NotionReplyError::InvalidJson),
        Some(v) => match extract_data_source_id(&v) {
            Some(id) => Ok(id),
            None => Err(NotionReplyError::MissingDataSourceId),
        },
    }
}

/// What to do next in a Notion exchange, once the database reply's status
/// (and, where it was read, its body) is known.
pub enum DatabaseStep {
    /// The status is `200 OK`: read the reply's body.
    ReadBody,
    /// Send the data source query to this address.
    Query(String),
    /// Stop: the exchange failed.
    Fail(NotionReplyError),
}

/// The step of a Notion exchange after the database reply: the query is
/// sent only after a `200 OK` reply whose body names a data source, and only
/// to that data source's query address.
pub fn database_reply_step(status: u16, body: Option<&[u8]>) -> (step: DatabaseStep)
    ensures
        status != 200 ==> step == DatabaseStep::Fail(NotionReplyError::BadStatus(status)),
        status == 200 ==> match body {
            None => step == DatabaseStep::ReadBody,
            Some(b) => match json_of_bytes(b@) {
                None => step == DatabaseStep::Fail(NotionReplyError::InvalidJson),
                Some(v) => match data_source_id_of(v) {
                    Some(id) => step matches DatabaseStep::Query(url) && url@ == query_url_text(id),
                    None => step == DatabaseStep::Fail(NotionReplyError::MissingDataSourceId),
                },
            },
        },
        step matches DatabaseStep::Query(_) ==> status == 200 && body is Some,
{
    if !is_ok_status(status) {
        return DatabaseStep::Fail(NotionReplyError::BadStatus(status));
    }
    match body {
        None => DatabaseStep::ReadBody,
        Some(b) => match data_source_id_from_reply(b) {
            Ok(id) => DatabaseStep::Query(data_source_query_url(id.as_str())),
            Err(e) => DatabaseStep::Fail(e),
        },
    }
}

/// The line reporting the member data source's query reply: the reply
/// written as compact JSON after a label; `None` where the reply is not JSON.
pub fn member_query_report(body: &str) -> (r: Option<String>)
    ensures
        r is Some <==> json_of_text(body@) is Some,
        r matches Some(s) ==> s@ == "Notion API 응답: "@ + json_compact(json_of_text(body@)->0),
        match json_of_text(body@) {
            Some(v) => number_free(v) ==> json_of_text(json_compact(v)) == Some(v),
            None => true,
        },
{
    match parse_json(body) {
        None => None,
        Some(v) => {
            let mut line = "Notion API 응답: ".to_owned();
            let json = render_compact(&v);
            line.append(json.as_str());
            Some(line)
        },
    }
}

/// The text reporting the project data source's query reply: a label line,
/// then the reply, read from its bytes, written as indented JSON.
pub fn project_query_report(body: &[u8]) -> (r: Result<String, NotionReplyError>)
    ensures
        match json_of_bytes(body@) {
            None => r == Err::<String, NotionReplyError>(NotionReplyError::InvalidJson),
            Some(v) => r is Ok && r->Ok_0@ == "Response:\n"@ + json_pretty(v),
        },
        match json_of_bytes(body@) {
            Some(v) => number_free(v) ==> json_of_text(json_pretty(v)) == Some(v),
            None => true,
        },
{
    match parse_json_bytes(body) {
        None => Err(NotionReplyError::InvalidJson),
        Some(v) => {
            let mut text = "Response:\n".to_owned();
            let pretty = render_pretty(&v);
            text.append(pretty.as_str());
            Ok(text)
        },
    }
}

/// The data source id of a database reply is the whole text of the string
/// at `data_sources[0].id`, whatever its length: the reply is an object whose
/// `data_sources` member (the first of that name) is a non-empty array whose
/// first element is an object whose `id` member is that string. There is no
/// id exactly when the reply has no such string there.
pub proof fn law_data_source_id_is_whole_id_string(database: JsonValue)
    ensures
        match database {
            JsonValue::Object(top) => match entries_get(top@, "data_sources"@) {
                Some(JsonValue::Array(sources)) => if sources@.len() > 0 {
                    match sources@[0] {
                        JsonValue::Object(first) => match entries_get(first@, "id"@) {
                            Some(JsonValue::String(id)) => data_source_id_of(database) == Some(id@),
                            _ => data_source_id_of(database) is None,
                        },
                        _ => data_source_id_of(database) is None,
                    }
                } else {
                    data_source_id_of(database) is None
                },
                _ => data_source_id_of(database) is None,
            },
            _ => data_source_id_of(database) is None,
        },
{
}

/// The Notion addresses hold the whole id they are made from, between a
/// fixed prefix and (for a query) a fixed suffix, whatever the id's length.
pub proof fn law_addresses_hold_whole_id(id: Seq<char>)
    ensures
        ({
            let p = "https://api.notion.com/v1/data_sources/"@;
            let u = query_url_text(id);
            &&& u.len() == p.len() + id.len() + "/query"@.len()
            &&& u.take(p.len() as int) == p
            &&& u.subrange(p.len() as int, (p.len() + id.len()) as int) == id
            &&& u.skip((p.len() + id.len()) as int) == "/query"@
        }),
        ({
            let p = "https://api.notion.com/v1/databases/"@;
            let u = database_url_text(id);
            &&& u.len() == p.len() + id.len()
            &&& u.take(p.len() as int) == p
            &&& u.skip(p.len() as int) == id
        }),
{
    let p = "https://api.notion.com/v1/data_sources/"@;
    let u = query_url_text(id);
    assert(u.take(p.len() as int) =~= p);
    assert(u.subrange(p.len() as int, (p.len() + id.len()) as int) =~= id);
    assert(u.skip((p.len() + id.len()) as int) =~= "/query"@);
    let q = "https://api.notion.com/v1/databases/"@;
    let w = database_url_text(id);
    assert(w.take(q.len() as int) =~= q);
    assert(w.skip(q.len() as int) =~= id);
}

} // verus!
