//! Reading Jira's HTTP answers: the JSON body of a success, or the error
//! that a status and a body stand for.

use vstd::prelude::*;

use crate::issues::Issue;
use crate::json::{json_of, parse_json, Json};
use crate::model::{get, issue_from_json, issue_read, json_get, raw_str, raw_text};
use crate::split::join_with;
use crate::text::{chars_of, decimal, decimal_spec, extend_chars, string_of, trim, trim_spec};

verus! {

/// Why a call to Jira failed.
#[derive(Debug)]
pub enum JiraError {
    Unauthorized,
    Forbidden,
    NotFound,
    RateLimited,
    Http(u16, String),
    Network(String),
    Parse(String),
}

/// What a failure says to the user.
pub open spec fn error_text_spec(e: JiraError) -> Seq<char> {
    match e {
        JiraError::Unauthorized => "Jira recusou as credenciais (401): confira email e token"@,
        JiraError::Forbidden => "sem permissão no Jira para esta ação (403)"@,
        JiraError::NotFound => "não encontrado no Jira (404)"@,
        JiraError::RateLimited => "Jira limitou as requisições (429); tente de novo em instantes"@,
        JiraError::Http(status, m) => if m@.len() == 0 {
            "Jira respondeu "@ + decimal_spec(status as nat)
        } else {
            "Jira respondeu "@ + decimal_spec(status as nat) + ": "@ + m@
        },
        JiraError::Network(m) => "falha de rede ao falar com o Jira: "@ + m@,
        JiraError::Parse(m) => "resposta inesperada do Jira: "@ + m@,
    }
}

/// `a` followed by `b`.
fn joined(a: &str, b: &[char]) -> (r: String)
    ensures
        r@ == a@ + b@,
{
    let mut out = chars_of(a);
    extend_chars(&mut out, b);
    string_of(out.as_slice())
}

impl JiraError {
    /// What the failure says to the user.
    pub fn message(&self) -> (r: String)
        ensures
            r@ == error_text_spec(*self),
    {
        match self {
            JiraError::Unauthorized => string_of(
                chars_of("Jira recusou as credenciais (401): confira email e token").as_slice(),
            ),
            JiraError::Forbidden => string_of(chars_of("sem permissão no Jira para esta ação (403)").as_slice()),
            JiraError::NotFound => string_of(chars_of("não encontrado no Jira (404)").as_slice()),
            JiraError::RateLimited => string_of(
                chars_of("Jira limitou as requisições (429); tente de novo em instantes").as_slice(),
            ),
            JiraError::Http(status, m) => {
                let head = joined("Jira respondeu ", decimal(*status as u64).as_slice());
                if chars_of(m.as_str()).len() == 0 {
                    head
                } else {
                    let mut out = chars_of(head.as_str());
                    extend_chars(&mut out, chars_of(": ").as_slice());
                    extend_chars(&mut out, chars_of(m.as_str()).as_slice());
                    string_of(out.as_slice())
                }
            },
            JiraError::Network(m) => joined("falha de rede ao falar com o Jira: ", chars_of(m.as_str()).as_slice()),
            JiraError::Parse(m) => joined("resposta inesperada do Jira: ", chars_of(m.as_str()).as_slice()),
        }
    }
}

/// The position of the first member named `key`, from `i` on.
pub open spec fn member_index(entries: Seq<(String, Json)>, key: Seq<char>, i: int) -> Option<int>
    decreases entries.len() - i,
{
    if i < 0 || i >= entries.len() {
        None
    } else if entries[i].0@ == key {
        Some(i)
    } else {
        member_index(entries, key, i + 1)
    }
}

/// The member named `key` of an object.
pub open spec fn member(v: Json, key: Seq<char>) -> Option<Json> {
    match v {
        Json::Object(entries) => match member_index(entries@, key, 0) {
            Some(k) => Some(entries@[k].1),
            None => None,
        },
        _ => None,
    }
}

/// The strings among `items`, in order.
pub open spec fn texts(items: Seq<Json>) -> Seq<Seq<char>>
    decreases items.len(),
{
    if items.len() == 0 {
        Seq::empty()
    } else {
        let rest = texts(items.drop_last());
        match items.last() {
            Json::Text(s) => rest.push(s@),
            _ => rest,
        }
    }
}

/// `field: message` for each member whose value is a string, in order.
pub open spec fn field_errors(entries: Seq<(String, Json)>) -> Seq<Seq<char>>
    decreases entries.len(),
{
    if entries.len() == 0 {
        Seq::empty()
    } else {
        let rest = field_errors(entries.drop_last());
        match entries.last().1 {
            Json::Text(s) => rest.push(entries.last().0@ + ": "@ + s@),
            _ => rest,
        }
    }
}

/// The messages of a Jira error body: the strings of `errorMessages`, then
/// `field: message` for each string in `errors`.
pub open spec fn error_messages(v: Json) -> Seq<Seq<char>> {
    let listed = match member(v, "errorMessages"@) {
        Some(Json::Array(items)) => texts(items@),
        _ => Seq::empty(),
    };
    let fields = match member(v, "errors"@) {
        Some(Json::Object(entries)) => field_errors(entries@),
        _ => Seq::empty(),
    };
    listed + fields
}

/// The message of a Jira error body: its messages joined by `; `, empty
/// when the body is not JSON.
pub open spec fn error_message_spec(body: Seq<char>) -> Seq<char> {
    match json_of(body) {
        Ok(v) => join_with(error_messages(v), "; "@),
        Err(_) => Seq::empty(),
    }
}

/// The member named `key` of an object.
pub(crate) fn get_member<'a>(v: &'a Json, key: &str) -> (r: Option<&'a Json>)
    ensures
        r matches Some(x) ==> member(*v, key@) == Some(*x),
        r is None ==> member(*v, key@) is None,
{
    match v {
        Json::Object(entries) => {
            let mut i: usize = 0;
            while i < entries.len()
                invariant
                    i <= entries@.len(),
                    member_index(entries@, key@, 0) == member_index(entries@, key@, i as int),
                    *v == Json::Object(*entries),
                decreases entries@.len() - i,
            {
                if crate::text::eq_str(entries[i].0.as_str(), key) {
                    return Some(&entries[i].1);
                }
                i = i + 1;
            }
            None
        },
        _ => None,
    }
}

/// The message of a Jira error body (see [`error_message_spec`]).
pub fn error_message(body: &str) -> (r: String)
    ensures
        r@ == error_message_spec(body@),
{
    let value = match parse_json(body) {
        Ok(v) => v,
        Err(_) => return String::new(),
    };
    let mut parts: Vec<Vec<char>> = Vec::new();
    let ghost mut listed: Seq<Seq<char>> = Seq::empty();
    if let Some(Json::Array(items)) = get_member(&value, "errorMessages") {
        let mut i: usize = 0;
        while i < items.len()
            invariant
                i <= items@.len(),
                crate::split::views(parts@) == texts(items@.take(i as int)),
            decreases items@.len() - i,
        {
            let ghost before = parts@;
            assert(items@.take(i + 1).drop_last() =~= items@.take(i as int));
            if let Json::Text(s) = &items[i] {
                parts.push(chars_of(s.as_str()));
                assert(crate::split::views(parts@) =~= crate::split::views(before).push(s@));
            }
            i = i + 1;
        }
        assert(items@.take(items@.len() as int) =~= items@);
        proof {
            listed = texts(items@);
        }
    }
    assert(crate::split::views(parts@) == listed);
    if let Some(Json::Object(entries)) = get_member(&value, "errors") {
        let mut i: usize = 0;
        while i < entries.len()
            invariant
                i <= entries@.len(),
                crate::split::views(parts@) == listed + field_errors(entries@.take(i as int)),
            decreases entries@.len() - i,
        {
            let ghost before = parts@;
            assert(entries@.take(i + 1).drop_last() =~= entries@.take(i as int));
            if let Json::Text(s) = &entries[i].1 {
                let mut line = chars_of(entries[i].0.as_str());
                extend_chars(&mut line, chars_of(": ").as_slice());
                extend_chars(&mut line, chars_of(s.as_str()).as_slice());
                parts.push(line);
                assert(crate::split::views(parts@) =~= crate::split::views(before).push(
                    entries@[i as int].0@ + ": "@ + s@,
                ));
            }
            i = i + 1;
        }
        assert(entries@.take(entries@.len() as int) =~= entries@);
    } else {
        assert(listed + Seq::<Seq<char>>::empty() =~= listed);
    }
    assert(crate::split::views(parts@) == error_messages(value));
    let out = crate::split::join_parts(&parts, chars_of("; ").as_slice());
    string_of(out.as_slice())
}

/// What an answer of Jira gives: for a success (2xx) its JSON body, `null`
/// when the body is blank, or `Parse` with the reader's message; 401, 403,
/// 404 and 429 their own errors; any other status `Http` with the status and
/// the body's message.
pub fn parse_response(status: u16, body: &str) -> (r: Result<Json, JiraError>)
    ensures
        200 <= status <= 299 && trim_spec(body@).len() == 0 ==> r matches Ok(Json::Null),
        200 <= status <= 299 && trim_spec(body@).len() > 0 ==> match json_of(body@) {
            Ok(v) => r == Ok::<Json, JiraError>(v),
            Err(m) => (r matches Err(JiraError::Parse(e)) && e@ == m),
        },
        status == 401 ==> r matches Err(JiraError::Unauthorized),
        status == 403 ==> r matches Err(JiraError::Forbidden),
        status == 404 ==> r matches Err(JiraError::NotFound),
        status == 429 ==> r matches Err(JiraError::RateLimited),
        !(200 <= status <= 299) && status != 401 && status != 403 && status != 404 && status != 429
            ==> (r matches Err(JiraError::Http(s, m)) && s == status && m@ == error_message_spec(body@)),
{
    if 200 <= status && status <= 299 {
        if trim(chars_of(body).as_slice()).len() == 0 {
            Ok(Json::Null)
        } else {
            match parse_json(body) {
                Ok(v) => Ok(v),
                Err(e) => Err(JiraError::Parse(e)),
            }
        }
    } else if status == 401 {
        Err(JiraError::Unauthorized)
    } else if status == 403 {
        Err(JiraError::Forbidden)
    } else if status == 404 {
        Err(JiraError::NotFound)
    } else if status == 429 {
        Err(JiraError::RateLimited)
    } else {
        Err(JiraError::Http(status, error_message(body)))
    }
}

} // verus!

verus! {

/// Whether `list` holds the issues read from `items`, in order: one for
/// each item with a `key` string and `fields`, the others skipped.
pub open spec fn issues_read_from(list: Seq<Issue>, items: Seq<Json>) -> bool
    decreases items.len(),
{
    if items.len() == 0 {
        list.len() == 0
    } else {
        let item = items.last();
        if raw_text(json_get(item, "key"@)) is Some && json_get(item, "fields"@) is Some {
            list.len() > 0 && issue_read(list.last(), item) && issues_read_from(list.drop_last(), items.drop_last())
        } else {
            issues_read_from(list, items.drop_last())
        }
    }
}

/// The issues of a search answer: those read from its `issues` list, or a
/// `Parse` error when it has none.
pub fn search_issues(value: &Json) -> (r: Result<Vec<Issue>, JiraError>)
    ensures
        json_get(*value, "issues"@) matches Some(Json::Array(items)) ==> (r matches Ok(list)
            && issues_read_from(list@, items@)),
        !(json_get(*value, "issues"@) matches Some(Json::Array(_))) ==> (r matches Err(JiraError::Parse(m))
            && m@ == "busca sem lista de issues"@),
{
    match get(value, "issues") {
        Some(Json::Array(items)) => {
            let mut list: Vec<Issue> = Vec::new();
            let mut i: usize = 0;
            while i < items.len()
                invariant
                    i <= items@.len(),
                    issues_read_from(list@, items@.take(i as int)),
                decreases items@.len() - i,
            {
                let ghost before = list@;
                assert(items@.take(i + 1).drop_last() =~= items@.take(i as int));
                assert(items@.take(i + 1).last() == items@[i as int]);
                match issue_from_json(&items[i]) {
                    Some(issue) => {
                        list.push(issue);
                        assert(list@.drop_last() =~= before);
                    },
                    None => {},
                }
                i = i + 1;
            }
            assert(items@.take(items@.len() as int) =~= items@);
            Ok(list)
        },
        _ => Err(JiraError::Parse(string_of(chars_of("busca sem lista de issues").as_slice()))),
    }
}

/// The user of a `myself` answer: its `accountId` string and its
/// `displayName` string (empty when missing), or a `Parse` error without an
/// account.
pub fn myself_from(value: &Json) -> (r: Result<(String, String), JiraError>)
    ensures
        raw_text(json_get(*value, "accountId"@)) matches Some(a) ==> (r matches Ok((account, name)) && account@
            == a && name@ == match raw_text(json_get(*value, "displayName"@)) {
            Some(n) => n,
            None => Seq::empty(),
        }),
        raw_text(json_get(*value, "accountId"@)) is None ==> (r matches Err(JiraError::Parse(m)) && m@
            == "myself sem accountId"@),
{
    let account = match raw_str(get(value, "accountId")) {
        Some(a) => a,
        None => return Err(JiraError::Parse(string_of(chars_of("myself sem accountId").as_slice()))),
    };
    let name = match raw_str(get(value, "displayName")) {
        Some(n) => n,
        None => String::new(),
    };
    Ok((account, name))
}

} // verus!
