//! What the Jira view reads out of Jira's JSON answers: issues, comments,
//! issue details, transitions, and the pull requests of the development
//! panel.

use vstd::prelude::*;

use crate::issues::Issue;
use crate::jira::{DetailFields, PullRequest, StatusCategory};
use crate::jira_state::{Comment, IssueDetail, Transition};
use crate::json::Json;
use crate::split::string_views;
use crate::text::{chars_of, eq_str, string_of, trim, trim_spec};

verus! {

/// The position of the first entry named `key`, from `i` on.
pub open spec fn entry_from(entries: Seq<(String, Json)>, key: Seq<char>, i: int) -> Option<int>
    decreases entries.len() - i,
{
    if i < 0 || i >= entries.len() {
        None
    } else if entries[i].0@ == key {
        Some(i)
    } else {
        entry_from(entries, key, i + 1)
    }
}

/// The member `key` of an object (the first of that name); none for
/// anything else.
pub open spec fn json_get(v: Json, key: Seq<char>) -> Option<Json> {
    match v {
        Json::Object(entries) => match entry_from(entries@, key, 0) {
            Some(i) => Some(entries@[i].1),
            None => None,
        },
        _ => None,
    }
}

/// The member of an optional value.
pub open spec fn opt_get(v: Option<Json>, key: Seq<char>) -> Option<Json> {
    match v {
        Some(x) => json_get(x, key),
        None => None,
    }
}

/// The text of a string value.
pub open spec fn raw_text(v: Option<Json>) -> Option<Seq<char>> {
    match v {
        Some(Json::Text(s)) => Some(s@),
        _ => None,
    }
}

/// A text field: the string trimmed, none when not a string or blank.
pub open spec fn text_of(v: Option<Json>) -> Option<Seq<char>> {
    match raw_text(v) {
        Some(s) => if trim_spec(s).len() > 0 {
            Some(trim_spec(s))
        } else {
            None
        },
        None => None,
    }
}

/// A text, or the empty one.
pub open spec fn or_empty(t: Option<Seq<char>>) -> Seq<char> {
    match t {
        Some(s) => s,
        None => Seq::empty(),
    }
}

/// A text field as an optional string.
pub open spec fn opt_text_is(r: Option<String>, t: Option<Seq<char>>) -> bool {
    match (r, t) {
        (Some(s), Some(u)) => s@ == u,
        (None, None) => true,
        _ => false,
    }
}

/// The member `key` of an object.
pub fn get<'a>(v: &'a Json, key: &str) -> (r: Option<&'a Json>)
    ensures
        r matches Some(x) ==> json_get(*v, key@) == Some(*x),
        r is None ==> json_get(*v, key@) is None,
{
    match v {
        Json::Object(entries) => {
            let mut i: usize = 0;
            while i < entries.len()
                invariant
                    i <= entries@.len(),
                    *v == Json::Object(*entries),
                    entry_from(entries@, key@, 0) == entry_from(entries@, key@, i as int),
                decreases entries@.len() - i,
            {
                if eq_str(entries[i].0.as_str(), key) {
                    return Some(&entries[i].1);
                }
                i = i + 1;
            }
            None
        },
        _ => None,
    }
}

/// The member `key` of an optional value.
pub(crate) fn get_opt<'a>(v: Option<&'a Json>, key: &str) -> (r: Option<&'a Json>)
    ensures
        r matches Some(x) ==> opt_get(match v {
            Some(y) => Some(*y),
            None => None,
        }, key@) == Some(*x),
        r is None ==> opt_get(match v {
            Some(y) => Some(*y),
            None => None,
        }, key@) is None,
{
    match v {
        Some(x) => get(x, key),
        None => None,
    }
}

/// The text of a string value.
pub(crate) fn raw_str(v: Option<&Json>) -> (r: Option<String>)
    ensures
        opt_text_is(r, raw_text(match v {
            Some(y) => Some(*y),
            None => None,
        })),
{
    match v {
        Some(Json::Text(s)) => Some(s.clone()),
        _ => None,
    }
}

/// A text field: trimmed, none when not a string or blank.
pub fn text(v: Option<&Json>) -> (r: Option<String>)
    ensures
        opt_text_is(r, text_of(match v {
            Some(y) => Some(*y),
            None => None,
        })),
{
    match v {
        Some(Json::Text(s)) => {
            let t = trim(chars_of(s.as_str()).as_slice());
            if t.len() > 0 {
                Some(string_of(t.as_slice()))
            } else {
                None
            }
        },
        _ => None,
    }
}

/// A text, or the empty one.
fn or_empty_string(t: Option<String>) -> (r: String)
    ensures
        r@ == match t {
            Some(s) => s@,
            None => Seq::empty(),
        },
{
    match t {
        Some(s) => s,
        None => String::new(),
    }
}

/// The member `key` of an object, taken out of it.
#[verifier::loop_isolation(false)]
fn take(v: Json, key: &str) -> (r: Option<Json>)
    ensures
        r == json_get(v, key@),
{
    let ghost v0 = v;
    match v {
        Json::Object(entries) => {
            let ghost all = entries@;
            assert(json_get(v0, key@) == match entry_from(all, key@, 0) {
                Some(i) => Some(all[i].1),
                None => None,
            });
            let mut entries = entries;
            let mut i: usize = 0;
            while i < entries.len()
                invariant
                    i <= entries@.len(),
                    entries@ == all,
                    entry_from(all, key@, 0) == entry_from(all, key@, i as int),
                    json_get(v0, key@) == match entry_from(all, key@, 0) {
                        Some(j) => Some(all[j].1),
                        None => None,
                    },
                decreases entries@.len() - i,
            {
                if eq_str(entries[i].0.as_str(), key) {
                    let (_, value) = entries.remove(i);
                    return Some(value);
                }
                i = i + 1;
            }
            None
        },
        _ => None,
    }
}

/// Two different members of an object, taken out of it.
fn take_two(v: Json, first: &str, second: &str) -> (r: (Option<Json>, Option<Json>))
    requires
        first@ != second@,
    ensures
        r.0 == json_get(v, first@),
        r.1 == json_get(v, second@),
{
    match v {
        Json::Object(entries) => {
            let ghost all = entries@;
            let a = find_entry(&entries, first);
            let b = find_entry(&entries, second);
            let mut entries = entries;
            match (a, b) {
                (Some(i), Some(j)) => {
                    if i < j {
                        let (_, y) = entries.remove(j);
                        let (_, x) = entries.remove(i);
                        (Some(x), Some(y))
                    } else {
                        let (_, x) = entries.remove(i);
                        let (_, y) = entries.remove(j);
                        (Some(x), Some(y))
                    }
                },
                (Some(i), None) => {
                    let (_, x) = entries.remove(i);
                    (Some(x), None)
                },
                (None, Some(j)) => {
                    let (_, y) = entries.remove(j);
                    (None, Some(y))
                },
                (None, None) => (None, None),
            }
        },
        _ => (None, None),
    }
}

/// Where the first entry named `key` is.
fn find_entry(entries: &Vec<(String, Json)>, key: &str) -> (r: Option<usize>)
    ensures
        r matches Some(i) ==> entry_from(entries@, key@, 0) == Some(i as int) && i < entries@.len()
            && entries@[i as int].0@ == key@,
        r is None ==> entry_from(entries@, key@, 0) is None,
{
    let mut i: usize = 0;
    while i < entries.len()
        invariant
            i <= entries@.len(),
            entry_from(entries@, key@, 0) == entry_from(entries@, key@, i as int),
        decreases entries@.len() - i,
    {
        if eq_str(entries[i].0.as_str(), key) {
            return Some(i);
        }
        i = i + 1;
    }
    None
}

/// What an issue reads from its JSON: the `key` (as is), and from `fields`
/// the summary, the status name (`?` without one) and category (in
/// progress without one), priority, assignee, type, update time and parent;
/// text fields are trimmed, blank ones missing.
pub open spec fn issue_read(i: Issue, v: Json) -> bool {
    let fields = json_get(v, "fields"@);
    let status = opt_get(fields, "status"@);
    let parent = opt_get(fields, "parent"@);
    &&& raw_text(json_get(v, "key"@)) == Some(i.key@)
    &&& i.summary@ == or_empty(text_of(opt_get(fields, "summary"@)))
    &&& i.status@ == match text_of(opt_get(status, "name"@)) {
        Some(s) => s,
        None => "?"@,
    }
    &&& i.category == match text_of(opt_get(opt_get(status, "statusCategory"@), "key"@)) {
        Some(k) => if k == "new"@ {
            StatusCategory::New
        } else if k == "done"@ {
            StatusCategory::Done
        } else {
            StatusCategory::InProgress
        },
        None => StatusCategory::InProgress,
    }
    &&& opt_text_is(i.priority, text_of(opt_get(opt_get(fields, "priority"@), "name"@)))
    &&& opt_text_is(i.assignee, text_of(opt_get(opt_get(fields, "assignee"@), "displayName"@)))
    &&& i.issue_type@ == or_empty(text_of(opt_get(opt_get(fields, "issuetype"@), "name"@)))
    &&& i.updated@ == or_empty(text_of(opt_get(fields, "updated"@)))
    &&& match i.parent {
        Some((k, s)) => raw_text(opt_get(parent, "key"@)) == Some(k@) && s@ == or_empty(
            text_of(opt_get(opt_get(parent, "fields"@), "summary"@)),
        ),
        None => raw_text(opt_get(parent, "key"@)) is None,
    }
}

/// An issue of a search answer, when it has a `key` string and `fields`
/// (see `issue_read`).
pub fn issue_from_json(value: &Json) -> (r: Option<Issue>)
    ensures
        r is Some <==> raw_text(json_get(*value, "key"@)) is Some && json_get(*value, "fields"@) is Some,
        r matches Some(i) ==> issue_read(i, *value),
{
    let key = match raw_str(get(value, "key")) {
        Some(k) => k,
        None => return None,
    };
    let fields = match get(value, "fields") {
        Some(f) => f,
        None => return None,
    };
    let status = get(fields, "status");
    let summary = or_empty_string(text(get(fields, "summary")));
    let status_name = match text(get_opt(status, "name")) {
        Some(s) => s,
        None => string_of(chars_of("?").as_slice()),
    };
    let category = match text(get_opt(get_opt(status, "statusCategory"), "key")) {
        Some(k) => StatusCategory::from_key(k.as_str()),
        None => StatusCategory::InProgress,
    };
    let priority = text(get_opt(get(fields, "priority"), "name"));
    let assignee = text(get_opt(get(fields, "assignee"), "displayName"));
    let issue_type = or_empty_string(text(get_opt(get(fields, "issuetype"), "name")));
    let updated = or_empty_string(text(get(fields, "updated")));
    let parent_value = get(fields, "parent");
    let parent = match raw_str(get_opt(parent_value, "key")) {
        Some(k) => Some((k, or_empty_string(text(get_opt(get_opt(parent_value, "fields"), "summary"))))),
        None => None,
    };
    Some(
        Issue {
            key,
            summary,
            status: status_name,
            category,
            priority,
            assignee,
            issue_type,
            updated,
            parent,
        },
    )
}

/// What a comment reads from its JSON.
pub open spec fn comment_read(c: Comment, v: Json) -> bool {
    &&& c.author@ == or_empty(text_of(opt_get(json_get(v, "author"@), "displayName"@)))
    &&& c.created@ == or_empty(text_of(json_get(v, "created"@)))
    &&& Some(c.body) == json_get(v, "body"@)
}

/// The values of a list that have a `body`, in order.
pub open spec fn with_body(items: Seq<Json>) -> Seq<Json>
    decreases items.len(),
{
    if items.len() == 0 {
        Seq::empty()
    } else if json_get(items[0], "body"@) is Some {
        seq![items[0]] + with_body(items.skip(1))
    } else {
        with_body(items.skip(1))
    }
}

/// The values of an optional list that have a `body`.
pub open spec fn list_with_body(list: Option<Json>) -> Seq<Json> {
    match list {
        Some(Json::Array(items)) => with_body(items@),
        _ => Seq::empty(),
    }
}

/// The comments of a `comment` field: those of its `comments` list that
/// have a body.
pub open spec fn comments_of(comment: Option<Json>) -> Seq<Json> {
    match opt_get(comment, "comments"@) {
        Some(Json::Array(items)) => with_body(items@),
        _ => Seq::empty(),
    }
}

/// A comment of an issue, when it has a `body`: the author's display name
/// and the creation time (trimmed, empty when missing) and the body itself.
pub fn comment_from_json(value: Json) -> (r: Option<Comment>)
    ensures
        r is Some <==> json_get(value, "body"@) is Some,
        r matches Some(c) ==> comment_read(c, value),
{
    let author = or_empty_string(text(get_opt(get(&value, "author"), "displayName")));
    let created = or_empty_string(text(get(&value, "created")));
    match take(value, "body") {
        Some(body) => Some(Comment { author, created, body }),
        None => None,
    }
}

/// Whether the sprint is the active one.
pub open spec fn is_active(sprint: Json) -> bool {
    raw_text(json_get(sprint, "state"@)) == Some("active"@)
}

/// The first active sprint from `i` on.
pub open spec fn active_from(sprints: Seq<Json>, i: int) -> Option<int>
    decreases sprints.len() - i,
{
    if i < 0 || i >= sprints.len() {
        None
    } else if is_active(sprints[i]) {
        Some(i)
    } else {
        active_from(sprints, i + 1)
    }
}

/// The sprint an issue is in: of the sprint list, the active one, else the
/// last; its name.
pub open spec fn sprint_spec(v: Json) -> Option<Seq<char>> {
    match v {
        Json::Array(sprints) => match active_from(sprints@, 0) {
            Some(i) => text_of(json_get(sprints@[i], "name"@)),
            None => if sprints@.len() > 0 {
                text_of(json_get(sprints@.last(), "name"@))
            } else {
                None
            },
        },
        _ => None,
    }
}

/// The name of the sprint an issue is in (see `sprint_spec`).
pub fn sprint_name(value: &Json) -> (r: Option<String>)
    ensures
        opt_text_is(r, sprint_spec(*value)),
{
    match value {
        Json::Array(sprints) => {
            let mut i: usize = 0;
            while i < sprints.len()
                invariant
                    i <= sprints@.len(),
                    *value == Json::Array(*sprints),
                    active_from(sprints@, 0) == active_from(sprints@, i as int),
                decreases sprints@.len() - i,
            {
                let active = match raw_str(get(&sprints[i], "state")) {
                    Some(s) => eq_str(s.as_str(), "active"),
                    None => false,
                };
                if active {
                    return text(get(&sprints[i], "name"));
                }
                i = i + 1;
            }
            if sprints.len() > 0 {
                text(get(&sprints[sprints.len() - 1], "name"))
            } else {
                None
            }
        },
        _ => None,
    }
}

/// The detail of an issue, when its issue reads (see `issue_from_json`):
/// the description unless null, the comments that have a body, and the
/// sprint of the configured sprint field; the story points and the
/// development summary are given as they are shown.
pub fn detail_from_json(
    value: Json,
    fields_ids: &DetailFields,
    story_points: Option<String>,
    development: Option<String>,
) -> (r: Option<IssueDetail>)
    ensures
        r is Some <==> raw_text(json_get(value, "key"@)) is Some && json_get(value, "fields"@) is Some,
        r matches Some(d) ==> {
            let fields = json_get(value, "fields"@);
            &&& issue_read(d.issue, value)
            &&& d.description == match opt_get(fields, "description"@) {
                Some(Json::Null) => None,
                other => other,
            }
            &&& opt_text_is(d.sprint, match opt_get(fields, fields_ids.sprint@) {
                Some(s) => sprint_spec(s),
                None => None,
            })
            &&& d.story_points == story_points
            &&& d.development == development
            &&& d.pull_requests@.len() == 0
            &&& d.worktrees@.len() == 0
            &&& d.comments@.len() == comments_of(opt_get(fields, "comment"@)).len()
            &&& forall|i: int|
                0 <= i < d.comments@.len() ==> comment_read(
                    #[trigger] d.comments@[i],
                    comments_of(opt_get(fields, "comment"@))[i],
                )
        },
{
    let issue = match issue_from_json(&value) {
        Some(i) => i,
        None => return None,
    };
    let fields = match take(value, "fields") {
        Some(f) => f,
        None => return None,
    };
    let sprint = match get(&fields, fields_ids.sprint.as_str()) {
        Some(s) => sprint_name(s),
        None => None,
    };
    proof {
        reveal_strlit("description");
        reveal_strlit("comment");
        assert("description"@[0] != "comment"@[0]);
    }
    let (description, comment) = take_two(fields, "description", "comment");
    let description = match description {
        Some(Json::Null) => None,
        other => other,
    };
    let list = match comment {
        Some(c) => take(c, "comments"),
        None => None,
    };
    let ghost wanted = list_with_body(list);
    let mut comments: Vec<Comment> = Vec::new();
    match list {
        Some(Json::Array(items)) => {
            let mut items = items;
            while items.len() > 0
                invariant
                    comments@.len() + with_body(items@).len() == wanted.len(),
                    forall|i: int| 0 <= i < comments@.len() ==> comment_read(#[trigger] comments@[i], wanted[i]),
                    forall|i: int|
                        0 <= i < with_body(items@).len() ==> #[trigger] with_body(items@)[i] == wanted[comments@.len() + i],
                decreases items@.len(),
            {
                let ghost before = items@;
                let item = items.remove(0);
                assert(before.skip(1) =~= items@);
                match comment_from_json(item) {
                    Some(c) => {
                        assert(with_body(before) == seq![item] + with_body(items@));
                        assert(with_body(before)[0] == item);
                        comments.push(c);
                        assert forall|i: int| 0 <= i < with_body(items@).len() implies #[trigger] with_body(items@)[i]
                            == wanted[comments@.len() + i] by {
                            assert(with_body(before)[i + 1] == with_body(items@)[i]);
                        }
                    },
                    None => {
                        assert(with_body(before) == with_body(items@));
                    },
                }
            }
        },
        _ => {},
    }
    Some(
        IssueDetail {
            issue,
            description,
            comments,
            sprint,
            story_points,
            development,
            pull_requests: Vec::new(),
            worktrees: Vec::new(),
        },
    )
}

} // verus!

verus! {

/// The names of the fields a transition asks for: of the `fields` object,
/// those marked `required: true`, by their name (else their id).
pub open spec fn required_names(entries: Seq<(String, Json)>) -> Seq<Seq<char>>
    decreases entries.len(),
{
    if entries.len() == 0 {
        Seq::empty()
    } else {
        let e = entries.last();
        let rest = required_names(entries.drop_last());
        if json_get(e.1, "required"@) == Some(Json::Bool(true)) {
            rest.push(
                match text_of(json_get(e.1, "name"@)) {
                    Some(n) => n,
                    None => e.0@,
                },
            )
        } else {
            rest
        }
    }
}

/// The required names of a transition's `fields`, none when it is not an
/// object.
pub open spec fn required_of(fields: Option<Json>) -> Seq<Seq<char>> {
    match fields {
        Some(Json::Object(entries)) => required_names(entries@),
        _ => Seq::empty(),
    }
}

/// Whether the texts are in order (`str`'s order).
pub open spec fn sorted_texts(t: Seq<Seq<char>>) -> bool {
    forall|i: int| 0 <= i && i + 1 < t.len() ==> !crate::text::lex_lt(#[trigger] t[i + 1], t[i])
}

/// A transition, when it has an `id` string: its name, the name of its
/// target status, and the fields it asks for, in order.
pub fn transition_from_json(value: &Json) -> (r: Option<Transition>)
    ensures
        r is Some <==> raw_text(json_get(*value, "id"@)) is Some,
        r matches Some(t) ==> {
            &&& raw_text(json_get(*value, "id"@)) == Some(t.id@)
            &&& t.name@ == or_empty(text_of(json_get(*value, "name"@)))
            &&& t.to@ == or_empty(text_of(opt_get(json_get(*value, "to"@), "name"@)))
            &&& sorted_texts(string_views(t.required_fields@))
            &&& string_views(t.required_fields@).to_multiset() == required_of(json_get(*value, "fields"@)).to_multiset()
        },
{
    let id = match raw_str(get(value, "id")) {
        Some(i) => i,
        None => return None,
    };
    let name = or_empty_string(text(get(value, "name")));
    let to = or_empty_string(text(get_opt(get(value, "to"), "name")));
    let mut names: Vec<String> = Vec::new();
    match get(value, "fields") {
        Some(Json::Object(entries)) => {
            let mut k: usize = 0;
            while k < entries.len()
                invariant
                    k <= entries@.len(),
                    string_views(names@) == required_names(entries@.take(k as int)),
                decreases entries@.len() - k,
            {
                assert(entries@.take(k + 1).drop_last() =~= entries@.take(k as int));
                assert(entries@.take(k + 1).last() == entries@[k as int]);
                let field = &entries[k].1;
                let required = match get(field, "required") {
                    Some(Json::Bool(b)) => *b,
                    _ => false,
                };
                if required {
                    let label = match text(get(field, "name")) {
                        Some(n) => n,
                        None => entries[k].0.clone(),
                    };
                    let ghost before = names@;
                    names.push(label);
                    assert(string_views(names@) =~= string_views(before).push(label@));
                }
                k = k + 1;
            }
            assert(entries@.take(entries@.len() as int) =~= entries@);
        },
        _ => {},
    }
    let ghost names_v = string_views(names@);
    assert(names_v == required_of(json_get(*value, "fields"@)));
    let required_fields = sort_texts(names);
    Some(Transition { id, name, to, required_fields })
}

/// The texts in order, equal ones in their order.
fn sort_texts(items: Vec<String>) -> (r: Vec<String>)
    ensures
        sorted_texts(string_views(r@)),
        string_views(r@).to_multiset() == string_views(items@).to_multiset(),
{
    let mut out: Vec<String> = Vec::new();
    let mut rest = items;
    let ghost all = string_views(rest@);
    proof {
        broadcast use vstd::seq_lib::group_to_multiset_ensures;
        assert(string_views(out@).to_multiset() =~= vstd::multiset::Multiset::empty());
        assert(string_views(out@).to_multiset().add(string_views(rest@).to_multiset()) =~= all.to_multiset());
    }
    while rest.len() > 0
        invariant
            sorted_texts(string_views(out@)),
            string_views(out@).to_multiset().add(string_views(rest@).to_multiset()) == all.to_multiset(),
        decreases rest@.len(),
    {
        let ghost rest_before = string_views(rest@);
        let x = rest.remove(0);
        let key = chars_of(x.as_str());
        let mut p: usize = 0;
        while p < out.len()
            invariant
                p <= out@.len(),
                key@ == x@,
                forall|k: int| 0 <= k < p ==> !crate::text::lex_lt(key@, (#[trigger] out@[k])@),
            ensures
                p <= out@.len(),
                forall|k: int| 0 <= k < p ==> !crate::text::lex_lt(key@, (#[trigger] out@[k])@),
                p < out@.len() ==> crate::text::lex_lt(key@, out@[p as int]@),
            decreases out@.len() - p,
        {
            if crate::text::lex_less(key.as_slice(), chars_of(out[p].as_str()).as_slice()) {
                break;
            }
            p = p + 1;
        }
        let ghost out_before = string_views(out@);
        let ghost xv = x@;
        let ghost ob = out@;
        out.insert(p, x);
        proof {
            broadcast use vstd::seq_lib::group_to_multiset_ensures;
            assert(string_views(out@) =~= out_before.insert(p as int, xv));
            assert forall|i: int|
                0 <= i && i + 1 < string_views(out@).len() implies !crate::text::lex_lt(
                #[trigger] string_views(out@)[i + 1],
                string_views(out@)[i],
            ) by {
                let ov = string_views(out@);
                if i + 1 < p {
                    assert(ov[i] == out_before[i] && ov[i + 1] == out_before[i + 1]);
                } else if i + 1 == p {
                    assert(ov[i] == out_before[i]);
                    assert(ov[i + 1] == xv);
                    assert(out_before[i] == ob[i]@);
                    assert(!crate::text::lex_lt(xv, ob[i]@));
                    crate::text::lemma_lex_irreflexive(xv);
                } else if i == p {
                    assert(ov[i] == xv);
                    assert(ov[i + 1] == out_before[p as int]);
                    assert(p < ob.len());
                    crate::diff::lemma_lex_asym(xv, out_before[p as int]);
                } else {
                    assert(ov[i] == out_before[i - 1] && ov[i + 1] == out_before[i]);
                    assert(!crate::text::lex_lt(out_before[(i - 1) + 1], out_before[i - 1]));
                }
            }
            assert(rest_before =~= seq![xv] + string_views(rest@));
            crate::diff::lemma_insert_multiset(out_before, p as int, xv);
            crate::diff::lemma_cons_multiset(xv, string_views(rest@));
            assert(string_views(out@).to_multiset().add(string_views(rest@).to_multiset()) =~= out_before.to_multiset().add(
                rest_before.to_multiset(),
            ));
        }
    }
    proof {
        broadcast use vstd::seq_lib::group_to_multiset_ensures;
        assert(string_views(rest@).to_multiset() =~= vstd::multiset::Multiset::empty());
        assert(string_views(out@).to_multiset() =~= all.to_multiset());
    }
    out
}

} // verus!

verus! {

/// The names of an object's members, in order.
pub open spec fn keys_of(v: Option<Json>) -> Seq<Seq<char>> {
    match v {
        Some(Json::Object(entries)) => entries@.map_values(|e: (String, Json)| e.0@),
        _ => Seq::empty(),
    }
}

/// The kinds of pull-request source an issue's development summary lists:
/// the members of `summary.pullrequest.byInstanceType`.
pub fn pull_request_instance_types(summary: &Json) -> (r: Vec<String>)
    ensures
        string_views(r@) == keys_of(opt_get(opt_get(json_get(*summary, "summary"@), "pullrequest"@), "byInstanceType"@)),
{
    let mut out: Vec<String> = Vec::new();
    match get_opt(get_opt(get(summary, "summary"), "pullrequest"), "byInstanceType") {
        Some(Json::Object(entries)) => {
            let mut i: usize = 0;
            while i < entries.len()
                invariant
                    i <= entries@.len(),
                    string_views(out@) == entries@.map_values(|e: (String, Json)| e.0@).take(i as int),
                decreases entries@.len() - i,
            {
                let ghost before = out@;
                out.push(entries[i].0.clone());
                assert(string_views(out@) =~= string_views(before).push(entries@[i as int].0@));
                assert(entries@.map_values(|e: (String, Json)| e.0@).take(i + 1) =~= entries@.map_values(
                    |e: (String, Json)| e.0@,
                ).take(i as int).push(entries@[i as int].0@));
                i = i + 1;
            }
            assert(entries@.map_values(|e: (String, Json)| e.0@).take(entries@.len() as int) =~= entries@.map_values(
                |e: (String, Json)| e.0@,
            ));
        },
        _ => {},
    }
    out
}

/// The elements of a list value, none for anything else.
pub open spec fn items_of(v: Option<Json>) -> Seq<Json> {
    match v {
        Some(Json::Array(items)) => items@,
        _ => Seq::empty(),
    }
}

/// The pull requests of the entries of a development detail, in order.
pub open spec fn prs_in(entries: Seq<Json>) -> Seq<Json>
    decreases entries.len(),
{
    if entries.len() == 0 {
        Seq::empty()
    } else {
        prs_in(entries.drop_last()) + items_of(json_get(entries.last(), "pullRequests"@))
    }
}

/// The pull requests that have a URL, in order.
pub open spec fn with_url(prs: Seq<Json>) -> Seq<Json>
    decreases prs.len(),
{
    if prs.len() == 0 {
        Seq::empty()
    } else if text_of(json_get(prs.last(), "url"@)) is Some {
        with_url(prs.drop_last()).push(prs.last())
    } else {
        with_url(prs.drop_last())
    }
}

/// What a pull request reads from its JSON: status, title (`name`), URL,
/// repository name and source branch, trimmed.
pub open spec fn pr_read(p: PullRequest, v: Json) -> bool {
    &&& p.status@ == or_empty(text_of(json_get(v, "status"@)))
    &&& p.title@ == or_empty(text_of(json_get(v, "name"@)))
    &&& text_of(json_get(v, "url"@)) == Some(p.url@)
    &&& p.repository@ == or_empty(text_of(json_get(v, "repositoryName"@)))
    &&& opt_text_is(p.branch, text_of(opt_get(json_get(v, "source"@), "branch"@)))
}

/// `with_url` over a list that grows by one.
proof fn lemma_with_url_push(a: Seq<Json>, x: Json)
    ensures
        with_url(a.push(x)) == if text_of(json_get(x, "url"@)) is Some {
            with_url(a).push(x)
        } else {
            with_url(a)
        },
{
    assert(a.push(x).drop_last() =~= a);
}

/// The pull requests of a development detail answer: those of the
/// `pullRequests` of each `detail` entry that have a URL.
pub fn pull_requests_from_detail(detail: &Json) -> (r: Vec<PullRequest>)
    ensures
        r@.len() == with_url(prs_in(items_of(json_get(*detail, "detail"@)))).len(),
        forall|i: int|
            0 <= i < r@.len() ==> pr_read(#[trigger] r@[i], with_url(prs_in(items_of(json_get(*detail, "detail"@))))[i]),
{
    let mut out: Vec<PullRequest> = Vec::new();
    let ghost entries = items_of(json_get(*detail, "detail"@));
    match get(detail, "detail") {
        Some(Json::Array(list)) => {
            let mut i: usize = 0;
            while i < list.len()
                invariant
                    i <= list@.len(),
                    entries == list@,
                    out@.len() == with_url(prs_in(list@.take(i as int))).len(),
                    forall|k: int|
                        0 <= k < out@.len() ==> pr_read(#[trigger] out@[k], with_url(prs_in(list@.take(i as int)))[k]),
                decreases list@.len() - i,
            {
                let ghost done = prs_in(list@.take(i as int));
                assert(list@.take(i + 1).drop_last() =~= list@.take(i as int));
                assert(list@.take(i + 1).last() == list@[i as int]);
                match get(&list[i], "pullRequests") {
                    Some(Json::Array(prs)) => {
                        let mut j: usize = 0;
                        assert(done + prs@.take(0) =~= done);
                        while j < prs.len()
                            invariant
                                j <= prs@.len(),
                                out@.len() == with_url(done + prs@.take(j as int)).len(),
                                forall|k: int|
                                    0 <= k < out@.len() ==> pr_read(#[trigger] out@[k], with_url(done + prs@.take(j as int))[k]),
                            decreases prs@.len() - j,
                        {
                            let pr = &prs[j];
                            assert(done + prs@.take(j + 1) =~= (done + prs@.take(j as int)).push(prs@[j as int]));
                            proof {
                                lemma_with_url_push(done + prs@.take(j as int), prs@[j as int]);
                            }
                            match text(get(pr, "url")) {
                                Some(url) => {
                                    out.push(
                                        PullRequest {
                                            status: or_empty_string(text(get(pr, "status"))),
                                            title: or_empty_string(text(get(pr, "name"))),
                                            url,
                                            repository: or_empty_string(text(get(pr, "repositoryName"))),
                                            branch: text(get_opt(get(pr, "source"), "branch")),
                                        },
                                    );
                                },
                                None => {},
                            }
                            j = j + 1;
                        }
                        assert(prs@.take(prs@.len() as int) =~= prs@);
                        assert(prs_in(list@.take(i + 1)) == done + prs@);
                    },
                    _ => {
                        assert(prs_in(list@.take(i + 1)) =~= done);
                    },
                }
                i = i + 1;
            }
            assert(list@.take(list@.len() as int) =~= list@);
        },
        _ => {},
    }
    out
}

} // verus!

verus! {

/// The JSON text that a development field holds: what follows `json=` up
/// to the closing brace that ends the field (trailing whitespace left out).
pub open spec fn payload_spec(v: Json) -> Option<Seq<char>> {
    match v {
        Json::Text(s) => match crate::text::first_match_from(s@, "json="@, 0) {
            Some(i) => {
                let rest = s@.skip(i + 5);
                let t = rest.take(crate::text::trim_end_index(rest));
                if t.len() > 0 && t.last() == '}' {
                    Some(t.drop_last())
                } else {
                    None
                }
            },
            None => None,
        },
        _ => None,
    }
}

/// Where a pattern is first found, it is there.
proof fn lemma_first_match(s: Seq<char>, pat: Seq<char>, from: int)
    requires
        0 <= from,
    ensures
        crate::text::first_match_from(s, pat, from) matches Some(i) ==> from <= i <= s.len()
            && crate::text::matches_at(s, pat, i),
    decreases s.len() + 1 - from,
{
    if from <= s.len() && !crate::text::matches_at(s, pat, from) {
        lemma_first_match(s, pat, from + 1);
    }
}

/// The JSON text of a development field (see `payload_spec`).
pub fn development_payload(value: &Json) -> (r: Option<String>)
    ensures
        opt_text_is(r, payload_spec(*value)),
{
    match value {
        Json::Text(s) => {
            let chars = chars_of(s.as_str());
            let marker = chars_of("json=");
            proof {
                reveal_strlit("json=");
            }
            match crate::text::find_from(chars.as_slice(), marker.as_slice(), 0) {
                Some(i) => {
                    proof {
                        lemma_first_match(chars@, marker@, 0);
                        assert(marker@.len() == 5);
                        let j = crate::text::first_match_from(chars@, marker@, 0)->0;
                        assert(0 <= j <= chars@.len());
                        assert(j as usize == i);
                        assert(crate::text::matches_at(chars@, marker@, j));
                    }
                    let n = chars.len();
                    assert(i + 5 <= n);
                    let rest = crate::text::slice_chars(chars.as_slice(), i + 5, chars.len());
                    assert(rest@ =~= chars@.skip(i + 5));
                    proof {
                        crate::text::lemma_last_in_class_bounds(
                            rest@,
                            crate::text::CharClass::Whitespace,
                            false,
                            rest@.len() as int,
                        );
                    }
                    let end = match crate::text::rfind_class_before(
                        rest.as_slice(),
                        crate::text::CharClass::Whitespace,
                        false,
                        rest.len(),
                    ) {
                        Some(k) => k + 1,
                        None => 0,
                    };
                    if end > 0 && rest[end - 1] == '}' {
                        let body = crate::text::slice_chars(rest.as_slice(), 0, end - 1);
                        assert(body@ =~= rest@.take(end as int).drop_last());
                        Some(string_of(body.as_slice()))
                    } else {
                        None
                    }
                },
                None => None,
            }
        },
        _ => None,
    }
}

/// A non-negative integer value (`Value::as_u64`); numbers are written
/// without a sign.
pub open spec fn count_of(v: Option<Json>) -> Option<u64> {
    match v {
        Some(Json::Number(t)) => crate::text::parse_u64_spec(t@),
        _ => None,
    }
}

/// The part of the development summary for one kind: the count of its
/// `overall` when above zero, the noun in singular or plural, and the
/// state in lower case when given.
pub open spec fn dev_part(summary: Option<Json>, kind: Seq<char>, singular: Seq<char>, plural: Seq<char>) -> Option<
    Seq<char>,
> {
    let overall = opt_get(opt_get(summary, kind), "overall"@);
    match count_of(opt_get(overall, "count"@)) {
        Some(n) => if n > 0 {
            Some(
                crate::text::decimal_spec(n as nat) + " "@ + (if n == 1 {
                    singular
                } else {
                    plural
                }) + match raw_text(opt_get(overall, "state"@)) {
                    Some(st) => " ("@ + crate::jira::lowercase_of(st) + ")"@,
                    None => Seq::empty(),
                },
            )
        } else {
            None
        },
        None => None,
    }
}

/// The parts that are there, in order.
pub open spec fn present(parts: Seq<Option<Seq<char>>>) -> Seq<Seq<char>>
    decreases parts.len(),
{
    if parts.len() == 0 {
        Seq::empty()
    } else {
        match parts.last() {
            Some(p) => present(parts.drop_last()).push(p),
            None => present(parts.drop_last()),
        }
    }
}

/// The development summary of a parsed development payload: pull requests,
/// branches, commits and repositories, those with a count, joined by ` · `;
/// none when there is none.
pub open spec fn dev_summary_spec(parsed: Json) -> Option<Seq<char>> {
    let summary = opt_get(json_get(parsed, "cachedValue"@), "summary"@);
    let parts = present(
        seq![
            dev_part(summary, "pullrequest"@, "PR"@, "PRs"@),
            dev_part(summary, "branch"@, "branch"@, "branches"@),
            dev_part(summary, "commit"@, "commit"@, "commits"@),
            dev_part(summary, "repository"@, "repositório"@, "repositórios"@),
        ],
    );
    if summary is Some && parts.len() > 0 {
        Some(crate::split::join_with(parts, " · "@))
    } else {
        None
    }
}

/// One part of the development summary (see `dev_part`).
fn dev_part_of(summary: &Json, kind: &str, singular: &str, plural: &str) -> (r: Option<Vec<char>>)
    ensures
        match r {
            Some(v) => dev_part(Some(*summary), kind@, singular@, plural@) == Some(v@),
            None => dev_part(Some(*summary), kind@, singular@, plural@) is None,
        },
{
    let overall = get_opt(get(summary, kind), "overall");
    let count = match get_opt(overall, "count") {
        Some(Json::Number(t)) => crate::text::parse_u64(chars_of(t.as_str()).as_slice()),
        _ => None,
    };
    let n = match count {
        Some(n) => n,
        None => return None,
    };
    if n == 0 {
        return None;
    }
    let mut out = crate::text::decimal(n);
    crate::text::extend_chars(&mut out, chars_of(" ").as_slice());
    if n == 1 {
        crate::text::extend_chars(&mut out, chars_of(singular).as_slice());
    } else {
        crate::text::extend_chars(&mut out, chars_of(plural).as_slice());
    }
    match raw_str(get_opt(overall, "state")) {
        Some(st) => {
            crate::text::extend_chars(&mut out, chars_of(" (").as_slice());
            crate::text::extend_chars(&mut out, chars_of(crate::jira::to_lowercase(st.as_str()).as_str()).as_slice());
            crate::text::extend_chars(&mut out, chars_of(")").as_slice());
        },
        None => {},
    }
    Some(out)
}

/// The development summary of a parsed development payload (see
/// `dev_summary_spec`).
pub fn development_summary(parsed: &Json) -> (r: Option<String>)
    ensures
        opt_text_is(r, dev_summary_spec(*parsed)),
{
    let summary = match get_opt(get(parsed, "cachedValue"), "summary") {
        Some(s) => s,
        None => return None,
    };
    let a = dev_part_of(summary, "pullrequest", "PR", "PRs");
    let b = dev_part_of(summary, "branch", "branch", "branches");
    let c = dev_part_of(summary, "commit", "commit", "commits");
    let d = dev_part_of(summary, "repository", "repositório", "repositórios");
    let ghost sa = dev_part(Some(*summary), "pullrequest"@, "PR"@, "PRs"@);
    let ghost sb = dev_part(Some(*summary), "branch"@, "branch"@, "branches"@);
    let ghost sc = dev_part(Some(*summary), "commit"@, "commit"@, "commits"@);
    let ghost sd = dev_part(Some(*summary), "repository"@, "repositório"@, "repositórios"@);
    let mut parts: Vec<Vec<char>> = Vec::new();
    let ghost p0 = crate::split::views(parts@);
    assert(present(seq![sa, sb, sc, sd].take(0)) =~= p0);
    match a {
        Some(v) => parts.push(v),
        None => {},
    }
    assert(seq![sa, sb, sc, sd].take(1).drop_last() =~= seq![sa, sb, sc, sd].take(0));
    assert(crate::split::views(parts@) =~= present(seq![sa, sb, sc, sd].take(1)));
    match b {
        Some(v) => parts.push(v),
        None => {},
    }
    assert(seq![sa, sb, sc, sd].take(2).drop_last() =~= seq![sa, sb, sc, sd].take(1));
    assert(crate::split::views(parts@) =~= present(seq![sa, sb, sc, sd].take(2)));
    match c {
        Some(v) => parts.push(v),
        None => {},
    }
    assert(seq![sa, sb, sc, sd].take(3).drop_last() =~= seq![sa, sb, sc, sd].take(2));
    assert(crate::split::views(parts@) =~= present(seq![sa, sb, sc, sd].take(3)));
    match d {
        Some(v) => parts.push(v),
        None => {},
    }
    assert(seq![sa, sb, sc, sd].take(4).drop_last() =~= seq![sa, sb, sc, sd].take(3));
    assert(crate::split::views(parts@) =~= present(seq![sa, sb, sc, sd].take(4)));
    assert(seq![sa, sb, sc, sd].take(4) =~= seq![sa, sb, sc, sd]);
    if parts.len() == 0 {
        return None;
    }
    let joined = crate::split::join_parts(&parts, chars_of(" · ").as_slice());
    Some(string_of(joined.as_slice()))
}

/// The pull requests a detail answer lists, with a URL.
pub open spec fn detail_prs(detail: Json) -> Seq<Json> {
    with_url(prs_in(items_of(json_get(detail, "detail"@))))
}

/// The pull requests of the detail answers that came, in order.
pub open spec fn answered_prs(details: Seq<Result<Json, String>>) -> Seq<Json>
    decreases details.len(),
{
    if details.len() == 0 {
        Seq::empty()
    } else {
        answered_prs(details.drop_last()) + match details.last() {
            Ok(d) => detail_prs(d),
            Err(_) => Seq::empty(),
        }
    }
}

/// Whether `out` reads each of `items`, in order.
pub open spec fn read_all(out: Seq<PullRequest>, items: Seq<Json>) -> bool {
    &&& out.len() == items.len()
    &&& forall|i: int| 0 <= i < out.len() ==> pr_read(#[trigger] out[i], items[i])
}

/// The path of the development summary of an issue.
pub open spec fn summary_path(issue_id: Seq<char>) -> Seq<char> {
    "/rest/dev-status/latest/issue/summary?issueId="@ + crate::jira::percent_bytes(vstd::utf8::encode_utf8(issue_id))
}

/// The path of the pull requests of one kind of source of an issue.
pub open spec fn detail_path(issue_id: Seq<char>, kind: Seq<char>) -> Seq<char> {
    "/rest/dev-status/latest/issue/detail?issueId="@ + crate::jira::percent_bytes(vstd::utf8::encode_utf8(issue_id))
        + "&applicationType="@ + crate::jira::percent_bytes(vstd::utf8::encode_utf8(kind)) + "&dataType=pullrequest"@
}

/// The kinds of source a development summary lists.
pub open spec fn summary_kinds(summary: Json) -> Seq<Seq<char>> {
    keys_of(opt_get(opt_get(json_get(summary, "summary"@), "pullrequest"@), "byInstanceType"@))
}

/// The pull requests of an issue from the answer to its summary: none when
/// it failed; else the pull requests of the detail answers of the kinds of
/// source it lists, each asked in turn.
pub open spec fn prs_answered<T: JsonTransport>(
    transport: &T,
    issue_id: Seq<char>,
    summary: Result<Json, String>,
    r: Seq<PullRequest>,
) -> bool {
    match summary {
        Err(_) => r.len() == 0,
        Ok(v) => exists|details: Seq<Result<Json, String>>|
            details.len() == summary_kinds(v).len() && (forall|k: int|
                0 <= k < details.len() ==> transport.get_answer(
                    detail_path(issue_id, summary_kinds(v)[k]),
                    #[trigger] details[k],
                )) && read_all(r, #[trigger] answered_prs(details)),
    }
}

impl crate::jira::JiraApi {
/// The pull requests of an issue, from Jira's development panel: the kinds
/// of source its summary lists, then the pull requests of each kind's
/// detail. Answers that fail are left out.
pub fn pull_requests<T: JsonTransport>(&self, transport: &T, issue_id: &str) -> (r: Vec<PullRequest>)
    ensures
        exists|summary: Result<Json, String>|
            #[trigger] transport.get_answer(summary_path(issue_id@), summary) && prs_answered(
                transport,
                issue_id@,
                summary,
                r@,
            ),
{
    let id = crate::jira::percent_encode(issue_id);
    let summary_path_text = cat3("/rest/dev-status/latest/issue/summary?issueId=", id.as_str(), "");
    proof {
        reveal_strlit("");
    }
    assert(summary_path_text@ =~= summary_path(issue_id@));
    let answer = transport.get_json(summary_path_text.as_str());
    let ghost sa = answer;
    let summary = match answer {
        Ok(v) => v,
        Err(e) => {
            let r: Vec<PullRequest> = Vec::new();
            assert(transport.get_answer(summary_path(issue_id@), sa));
            assert(prs_answered(transport, issue_id@, sa, r@));
            return r;
        },
    };
    let kinds = pull_request_instance_types(&summary);
    let ghost kv = summary_kinds(summary);
    let mut out: Vec<PullRequest> = Vec::new();
    let ghost mut details: Seq<Result<Json, String>> = Seq::empty();
    let mut i: usize = 0;
    while i < kinds.len()
        invariant
            i <= kinds@.len(),
            string_views(kinds@) == kv,
            details.len() == i,
            forall|k: int| 0 <= k < details.len() ==> transport.get_answer(detail_path(issue_id@, kv[k]), #[trigger] details[k]),
            read_all(out@, answered_prs(details)),
            id@ == crate::jira::percent_bytes(vstd::utf8::encode_utf8(issue_id@)),
        decreases kinds@.len() - i,
    {
        let kind = crate::jira::percent_encode(kinds[i].as_str());
        let head = cat3("/rest/dev-status/latest/issue/detail?issueId=", id.as_str(), "&applicationType=");
        let path = cat3(head.as_str(), kind.as_str(), "&dataType=pullrequest");
        proof {
            assert(string_views(kinds@)[i as int] == kinds@[i as int]@);
            assert(path@ =~= detail_path(issue_id@, kv[i as int]));
        }
        let answer = transport.get_json(path.as_str());
        let ghost prev = details;
        let ghost before = out@;
        proof {
            details = details.push(answer);
            assert(details.drop_last() =~= prev);
            assert forall|k: int| 0 <= k < details.len() implies transport.get_answer(
                detail_path(issue_id@, kv[k]),
                #[trigger] details[k],
            ) by {
                if k < prev.len() {
                    assert(details[k] == prev[k]);
                }
            }
        }
        match answer {
            Ok(detail) => {
                let mut prs = pull_requests_from_detail(&detail);
                let ghost added = prs@;
                out.append(&mut prs);
                proof {
                    let items = answered_prs(prev);
                    let more = detail_prs(detail);
                    assert(out@ =~= before + added);
                    assert(answered_prs(details) =~= items + more);
                    assert forall|j: int| 0 <= j < out@.len() implies pr_read(#[trigger] out@[j], (items + more)[j]) by {
                        if j < before.len() {
                            assert(out@[j] == before[j]);
                        } else {
                            assert(out@[j] == added[j - before.len()]);
                        }
                    }
                }
            },
            Err(_) => {
                proof {
                    assert(answered_prs(details) =~= answered_prs(prev));
                }
            },
        }
        i = i + 1;
    }
    assert(transport.get_answer(summary_path(issue_id@), sa));
    assert(prs_answered(transport, issue_id@, sa, out@));
    out
}
}

/// `a`, `b` and `c` joined.
fn cat3(a: &str, b: &str, c: &str) -> (r: String)
    ensures
        r@ == a@ + b@ + c@,
{
    let mut out = chars_of(a);
    crate::text::extend_chars(&mut out, chars_of(b).as_slice());
    crate::text::extend_chars(&mut out, chars_of(c).as_slice());
    string_of(out.as_slice())
}

/// Reads JSON answers of the Jira site.
pub trait JsonTransport {
    /// Whether `answer` is what the site answered a GET of `path` with. It
    /// holds of every answer unless an implementation says more: it names the
    /// request an answer came from.
    open spec fn get_answer(&self, path: Seq<char>, answer: Result<Json, String>) -> bool {
        true
    }

    /// The JSON answer of a GET of `path`.
    fn get_json(&self, path: &str) -> (r: Result<Json, String>)
        ensures
            self.get_answer(path@, r),
    ;
}

proof fn lemma_entry_from(entries: Seq<(String, Json)>, key: Seq<char>, i: int)
    requires
        0 <= i,
    ensures
        entry_from(entries, key, i) matches Some(k) ==> i <= k < entries.len() && entries[k].0@ == key
            && forall|j: int| i <= j < k ==> (#[trigger] entries[j]).0@ != key,
        entry_from(entries, key, i) is None ==> forall|j: int| i <= j < entries.len() ==> (#[trigger] entries[j]).0@
            != key,
    decreases entries.len() - i,
{
    if i < entries.len() && entries[i].0@ != key {
        lemma_entry_from(entries, key, i + 1);
    }
}

/// A member read from an object is the value of the first entry of that
/// name; there is none when no entry has the name, and a value that is not
/// an object has no members.
pub proof fn a_member_is_the_first_entry_of_its_name(v: Json, key: Seq<char>)
    ensures
        match v {
            Json::Object(entries) => match json_get(v, key) {
                Some(x) => exists|k: int|
                    0 <= k < entries@.len() && (#[trigger] entries@[k]).0@ == key && entries@[k].1 == x && forall|
                        j: int,
                    | 0 <= j < k ==> (#[trigger] entries@[j]).0@ != key,
                None => forall|j: int| 0 <= j < entries@.len() ==> (#[trigger] entries@[j]).0@ != key,
            },
            _ => json_get(v, key) is None,
        },
{
    if let Json::Object(entries) = v {
        lemma_entry_from(entries@, key, 0);
        if let Some(k) = entry_from(entries@, key, 0) {
            assert(entries@[k].0@ == key);
        }
    }
}

} // verus!
