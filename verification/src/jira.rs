//! Jira view logic: issue keys and how sessions, paths and worktrees are tied
//! to them, status categories, priority icons, and the text the Jira client
//! sends to curl.

use vstd::prelude::*;

use crate::sessions::{duplicate_option};
use crate::split::{file_name, file_name_spec, pieces, split_pieces, views};
use crate::text::{
    ascii_lower_code,
    chars_of,
    eq_ignore_ascii_case_at,
    eq_ignore_ascii_case_spec,
    eq_str,
    extend_chars,
    last_match,
    parse_u32,
    parse_u32_spec,
    rfind,
    slice_chars,
    string_of,
    trim,
    trim_end_char,
    trim_end_matching,
    trim_spec,
    CharClass,
};

verus! {

/// The category of an issue's status.
#[derive(Debug, Clone, Copy, PartialEq, Eq, Structural)]
pub enum StatusCategory {
    New,
    InProgress,
    Done,
}

impl StatusCategory {
    /// The category of a Jira status-category key: `new`, `done`, and in
    /// progress for any other key.
    pub fn from_key(key: &str) -> (r: StatusCategory)
        ensures
            r == (if key@ == "new"@ {
                StatusCategory::New
            } else if key@ == "done"@ {
                StatusCategory::Done
            } else {
                StatusCategory::InProgress
            }),
    {
        if eq_str(key, "new") {
            StatusCategory::New
        } else if eq_str(key, "done") {
            StatusCategory::Done
        } else {
            StatusCategory::InProgress
        }
    }

    /// Where the category sorts: work in progress first, then new, then done.
    pub fn rank(self) -> (r: usize)
        ensures
            r == match self {
                StatusCategory::InProgress => 0usize,
                StatusCategory::New => 1usize,
                StatusCategory::Done => 2usize,
            },
    {
        match self {
            StatusCategory::InProgress => 0,
            StatusCategory::New => 1,
            StatusCategory::Done => 2,
        }
    }
}

/// A pull request linked to an issue.
#[derive(Debug, Clone, PartialEq, Eq)]
pub struct PullRequest {
    pub status: String,
    pub title: String,
    pub url: String,
    pub repository: String,
    /// The branch the pull request is made from.
    pub branch: Option<String>,
}

/// The part of `url` after its last `/` (all of it when it has none).
pub open spec fn last_url_segment(url: Seq<char>) -> Seq<char> {
    match last_match(url, "/"@) {
        Some(p) => url.skip(p + 1),
        None => url,
    }
}

/// How a pull request is shown: `repository#number`, or its URL when either
/// part is missing.
pub open spec fn pull_request_label(repository: Seq<char>, url: Seq<char>) -> Seq<char> {
    let number = last_url_segment(url);
    if repository.len() == 0 || number.len() == 0 {
        url
    } else {
        repository + "#"@ + number
    }
}

/// The part of `url` after its last `/`.
pub fn url_segment(url: &str) -> (number: Vec<char>)
    ensures
        number@ == last_url_segment(url@),
{
    let url = chars_of(url);
    let slash = chars_of("/");
    proof {
        reveal_strlit("/");
        assert(slash@.len() == 1);
    }
    let n = url.len();
    let found = rfind(url.as_slice(), slash.as_slice());
    let number = match found {
        Some(p) => {
            assert(p + slash@.len() <= url@.len());
            assert(slash@.len() == 1);
            assert(p + 1 <= n);
            slice_chars(url.as_slice(), p + 1, n)
        },
        None => slice_chars(url.as_slice(), 0, url.len()),
    };
    proof {
        crate::text::lemma_last_match_bound(url@, "/"@);
        assert(url@.subrange(0, url@.len() as int) =~= url@);
        match last_match(url@, "/"@) {
            Some(p) => {
                assert(number@ =~= url@.skip(p + 1));
            },
            None => {},
        }
    }
    number
}

impl PullRequest {
    /// `repository#number`, or the URL when either part is missing.
    pub fn label(&self) -> (r: String)
        ensures
            r@ == pull_request_label(self.repository@, self.url@),
    {
        let number = url_segment(self.url.as_str());
        if self.repository.as_str().is_empty() || number.len() == 0 {
            return self.url.clone();
        }
        let mut out = chars_of(self.repository.as_str());
        let hash = chars_of("#");
        extend_chars(&mut out, hash.as_slice());
        extend_chars(&mut out, number.as_slice());
        string_of(out.as_slice())
    }
}

/// `text` without a leading `prefix`, comparing ASCII letters without case.
pub open spec fn strip_prefix_ignore_case_spec(text: Seq<char>, prefix: Seq<char>) -> Option<
    Seq<char>,
> {
    if prefix.len() <= text.len() && eq_ignore_ascii_case_spec(text.take(prefix.len() as int), prefix) {
        Some(text.skip(prefix.len() as int))
    } else {
        None
    }
}

/// `text` without a leading `prefix`, comparing ASCII letters without case.
pub fn strip_prefix_ignore_case(text: &str, prefix: &str) -> (r: Option<String>)
    ensures
        r matches Some(rest) ==> strip_prefix_ignore_case_spec(text@, prefix@) == Some(rest@),
        r is None ==> strip_prefix_ignore_case_spec(text@, prefix@) is None,
{
    let t = chars_of(text);
    let p = chars_of(prefix);
    if p.len() > t.len() {
        return None;
    }
    if eq_ignore_ascii_case_at(t.as_slice(), 0, p.as_slice()) {
        assert(t@.subrange(0, p@.len() as int) =~= t@.take(p@.len() as int));
        let rest = slice_chars(t.as_slice(), p.len(), t.len());
        assert(rest@ =~= t@.skip(p@.len() as int));
        Some(string_of(rest.as_slice()))
    } else {
        assert(t@.subrange(0, p@.len() as int) =~= t@.take(p@.len() as int));
        None
    }
}

/// Whether `text` names the issue `key`: it starts with the key (ASCII case
/// ignored) and no digit follows, so `VK-12` does not match `VK-123`.
pub open spec fn key_matches_spec(text: Seq<char>, key: Seq<char>) -> bool {
    match strip_prefix_ignore_case_spec(text, key) {
        Some(rest) => !(rest.len() > 0 && '0' <= rest[0] && rest[0] <= '9'),
        None => false,
    }
}

/// Whether `text` names the issue `key`.
pub fn key_matches(text: &str, key: &str) -> (r: bool)
    ensures
        r == key_matches_spec(text@, key@),
{
    match strip_prefix_ignore_case(text, key) {
        Some(rest) => {
            let chars = chars_of(rest.as_str());
            !(chars.len() > 0 && '0' <= chars[0] && chars[0] <= '9')
        },
        None => false,
    }
}

/// The Unicode lower-case form of `s`, as `str::to_lowercase` gives it.
pub uninterp spec fn lowercase_of(s: Seq<char>) -> Seq<char>;

/// std's `str::to_lowercase`. Its result is named `lowercase_of` of the
/// argument; the Unicode case tables behind it are not stated.
#[verifier::external_body]
pub(crate) fn to_lowercase(s: &str) -> (r: String)
    ensures
        r@ == lowercase_of(s@),
{
    s.to_lowercase()
}

/// The icon of a priority, by its lower-case name.
pub open spec fn priority_icon_spec(priority: Option<Seq<char>>) -> Seq<char> {
    match priority {
        None => " "@,
        Some(p) => {
            let l = lowercase_of(p);
            if l == "highest"@ || l == "blocker"@ || l == "critical"@ {
                "⇈"@
            } else if l == "high"@ {
                "↑"@
            } else if l == "medium"@ {
                "="@
            } else if l == "low"@ {
                "↓"@
            } else if l == "lowest"@ || l == "trivial"@ {
                "⇊"@
            } else {
                " "@
            }
        },
    }
}

/// The icon of a priority.
pub fn priority_icon(priority: Option<&str>) -> (r: &'static str)
    ensures
        r@ == priority_icon_spec(
            match priority {
                Some(p) => Some(p@),
                None => None,
            },
        ),
{
    let p = match priority {
        Some(p) => p,
        None => return " ",
    };
    let lower = to_lowercase(p);
    let l = lower.as_str();
    if eq_str(l, "highest") || eq_str(l, "blocker") || eq_str(l, "critical") {
        "⇈"
    } else if eq_str(l, "high") {
        "↑"
    } else if eq_str(l, "medium") {
        "="
    } else if eq_str(l, "low") {
        "↓"
    } else if eq_str(l, "lowest") || eq_str(l, "trivial") {
        "⇊"
    } else {
        " "
    }
}

/// A agent session as herdr lists it.
#[derive(Debug, Clone, PartialEq, Eq)]
pub struct ClaudeSessionInfo {
    pub session_id: String,
    pub title: String,
    pub cwd: String,
    pub context: String,
    pub worktree_path: Option<String>,
    pub updated_at_ms: u64,
    pub pane_id: Option<String>,
}

/// The session of an issue: which session, in which pane, how recent.
#[derive(Debug, Clone, PartialEq, Eq)]
pub struct LinkedSession {
    pub session_id: String,
    pub pane_id: Option<String>,
    pub agent_status: Option<String>,
    pub updated_at_ms: u64,
}

/// The name of a session's worktree: the last component of its path.
pub open spec fn session_worktree_name(session: ClaudeSessionInfo) -> Option<Seq<char>> {
    match session.worktree_path {
        Some(p) => file_name_spec(p@),
        None => None,
    }
}

/// Whether `key` is the key of a session: its context or its worktree's name
/// names it.
pub open spec fn session_has_key(session: ClaudeSessionInfo, key: Seq<char>) -> bool {
    key_matches_spec(session.context@, key) || (session_worktree_name(session) matches Some(
        name,
    ) && key_matches_spec(name, key))
}

/// The first of `keys`, from position `from` on, that is a key of `session`.
pub open spec fn session_key_from(session: ClaudeSessionInfo, keys: Seq<Seq<char>>, from: int) -> Option<
    int,
>
    decreases keys.len() - from,
{
    if from < 0 || from >= keys.len() {
        None
    } else if session_has_key(session, keys[from]) {
        Some(from)
    } else {
        session_key_from(session, keys, from + 1)
    }
}

/// The key of a session: the first of `keys` that its context or worktree
/// names.
pub open spec fn session_key_spec(session: ClaudeSessionInfo, keys: Seq<Seq<char>>) -> Option<
    Seq<char>,
> {
    match session_key_from(session, keys, 0) {
        Some(i) => Some(keys[i]),
        None => None,
    }
}

proof fn lemma_session_key_from(session: ClaudeSessionInfo, keys: Seq<Seq<char>>, from: int)
    requires
        0 <= from,
    ensures
        session_key_from(session, keys, from) matches Some(i) ==> from <= i < keys.len(),
    decreases keys.len() - from,
{
    if from < keys.len() && !session_has_key(session, keys[from]) {
        lemma_session_key_from(session, keys, from + 1);
    }
}

/// The views of a list of strings.
pub open spec fn key_views(keys: Seq<String>) -> Seq<Seq<char>> {
    crate::split::string_views(keys)
}

/// The key of a session: the first of `keys` that its context or worktree
/// names.
pub fn session_key(session: &ClaudeSessionInfo, keys: &[String]) -> (r: Option<String>)
    ensures
        r matches Some(k) ==> session_key_spec(*session, key_views(keys@)) == Some(k@),
        r is None ==> session_key_spec(*session, key_views(keys@)) is None,
{
    let worktree_name: Option<String> = match &session.worktree_path {
        Some(p) => {
            let chars = chars_of(p.as_str());
            match file_name(chars.as_slice()) {
                Some(n) => Some(string_of(n.as_slice())),
                None => None,
            }
        },
        None => None,
    };
    let mut i: usize = 0;
    while i < keys.len()
        invariant
            i <= keys.len(),
            match worktree_name {
                Some(n) => session_worktree_name(*session) == Some(n@),
                None => session_worktree_name(*session) is None,
            },
            session_key_from(*session, key_views(keys@), 0) == session_key_from(
                *session,
                key_views(keys@),
                i as int,
            ),
        decreases keys.len() - i,
    {
        let key = keys[i].as_str();
        let hit = key_matches(session.context.as_str(), key) || match &worktree_name {
            Some(n) => key_matches(n.as_str(), key),
            None => false,
        };
        assert(key_views(keys@)[i as int] == keys@[i as int]@);
        if hit {
            return Some(keys[i].clone());
        }
        i = i + 1;
    }
    None
}

/// The session an issue would link to when `session` has its key.
pub open spec fn candidate_of(session: ClaudeSessionInfo) -> LinkedSession {
    LinkedSession {
        session_id: session.session_id,
        pane_id: session.pane_id,
        agent_status: None,
        updated_at_ms: session.updated_at_ms,
    }
}

/// Whether `candidate` beats `existing`: a session in a pane beats one
/// without, then the more recent one wins; ties keep the earlier.
pub open spec fn better_link(candidate: LinkedSession, existing: LinkedSession) -> bool {
    ||| (candidate.pane_id is Some && existing.pane_id is None)
    ||| ((candidate.pane_id is Some) == (existing.pane_id is Some) && candidate.updated_at_ms
        > existing.updated_at_ms)
}

/// The position of `key` among the keys of `links`.
pub open spec fn link_index_from(links: Seq<(Seq<char>, LinkedSession)>, key: Seq<char>, from: int) -> Option<
    int,
>
    decreases links.len() - from,
{
    if from < 0 || from >= links.len() {
        None
    } else if links[from].0 == key {
        Some(from)
    } else {
        link_index_from(links, key, from + 1)
    }
}

proof fn lemma_link_index_from(links: Seq<(Seq<char>, LinkedSession)>, key: Seq<char>, from: int)
    requires
        0 <= from,
    ensures
        link_index_from(links, key, from) matches Some(i) ==> from <= i < links.len()
            && links[i].0 == key,
        link_index_from(links, key, from) is None ==> forall|j: int|
            from <= j < links.len() ==> links[j].0 != key,
    decreases links.len() - from,
{
    if from < links.len() && links[from].0 != key {
        lemma_link_index_from(links, key, from + 1);
    }
}

/// The links after one more session: a session with a key links to it when
/// the key has no session yet or the session beats the one it has.
pub open spec fn link_step(
    links: Seq<(Seq<char>, LinkedSession)>,
    session: ClaudeSessionInfo,
    keys: Seq<Seq<char>>,
) -> Seq<(Seq<char>, LinkedSession)> {
    match session_key_spec(session, keys) {
        None => links,
        Some(key) => match link_index_from(links, key, 0) {
            None => links.push((key, candidate_of(session))),
            Some(i) => if better_link(candidate_of(session), links[i].1) {
                links.update(i, (key, candidate_of(session)))
            } else {
                links
            },
        },
    }
}

/// The sessions linked to the keys, each key once, in the order the keys were
/// first seen.
pub open spec fn link_fold(sessions: Seq<ClaudeSessionInfo>, keys: Seq<Seq<char>>) -> Seq<
    (Seq<char>, LinkedSession),
>
    decreases sessions.len(),
{
    if sessions.len() == 0 {
        Seq::empty()
    } else {
        link_step(link_fold(sessions.drop_last(), keys), sessions.last(), keys)
    }
}

/// The links as plain values.
pub open spec fn link_views(links: Seq<(String, LinkedSession)>) -> Seq<(Seq<char>, LinkedSession)> {
    links.map_values(|e: (String, LinkedSession)| (e.0@, e.1))
}

/// The position of `key` among the keys of `links`.
fn link_position(links: &Vec<(String, LinkedSession)>, key: &str) -> (r: Option<usize>)
    ensures
        r matches Some(i) ==> link_index_from(link_views(links@), key@, 0) == Some(i as int) && i
            < links@.len(),
        r is None ==> link_index_from(link_views(links@), key@, 0) is None,
{
    let ghost lv = link_views(links@);
    let mut j: usize = 0;
    while j < links.len()
        invariant
            j <= links.len(),
            lv == link_views(links@),
            link_index_from(lv, key@, 0) == link_index_from(lv, key@, j as int),
        decreases links.len() - j,
    {
        assert(lv[j as int].0 == links@[j as int].0@);
        if eq_str(links[j].0.as_str(), key) {
            return Some(j);
        }
        j = j + 1;
    }
    None
}

/// The session of each key: per key, the session in a pane if any, else the
/// most recent; the first of equals wins.
pub fn link_sessions(sessions: &[ClaudeSessionInfo], keys: &[String]) -> (r: Vec<
    (String, LinkedSession),
>)
    ensures
        link_views(r@) == link_fold(sessions@, key_views(keys@)),
{
    let mut links: Vec<(String, LinkedSession)> = Vec::new();
    let mut s: usize = 0;
    while s < sessions.len()
        invariant
            s <= sessions.len(),
            link_views(links@) == link_fold(sessions@.take(s as int), key_views(keys@)),
        decreases sessions.len() - s,
    {
        let session = &sessions[s];
        proof {
            assert(sessions@.take(s + 1).drop_last() =~= sessions@.take(s as int));
            assert(sessions@.take(s + 1).last() == *session);
        }
        match session_key(session, keys) {
            None => {},
            Some(key) => {
                let candidate = LinkedSession {
                    session_id: session.session_id.clone(),
                    pane_id: duplicate_option(&session.pane_id),
                    agent_status: None,
                    updated_at_ms: session.updated_at_ms,
                };
                let found = link_position(&links, key.as_str());
                match found {
                    None => {
                        let ghost before = links@;
                        links.push((key, candidate));
                        assert(link_views(links@) =~= link_views(before).push(
                            (link_views(links@).last().0, candidate),
                        ));
                    },
                    Some(i) => {
                        let existing = &links[i].1;
                        let beats = (candidate.pane_id.is_some() && existing.pane_id.is_none()) || (
                        candidate.pane_id.is_some() == existing.pane_id.is_some()
                            && candidate.updated_at_ms > existing.updated_at_ms);
                        if beats {
                            let ghost before = links@;
                            links.set(i, (key, candidate));
                            assert(link_views(links@) =~= link_views(before).update(
                                i as int,
                                (link_views(links@)[i as int].0, candidate),
                            ));
                        }
                    },
                }
            },
        }
        s = s + 1;
    }
    assert(sessions@.take(sessions.len() as int) =~= sessions@);
    links
}

/// The session linked to `key`, if any.
pub fn linked<'a>(links: &'a [(String, LinkedSession)], key: &str) -> (r: Option<&'a LinkedSession>)
    ensures
        r matches Some(l) ==> exists|i: int|
            0 <= i < links@.len() && links@[i].0@ == key@ && links@[i].1 == *l,
        r is None ==> forall|i: int| 0 <= i < links@.len() ==> links@[i].0@ != key@,
{
    let mut i: usize = 0;
    while i < links.len()
        invariant
            i <= links.len(),
            forall|j: int| 0 <= j < i ==> links@[j].0@ != key@,
        decreases links.len() - i,
    {
        if eq_str(links[i].0.as_str(), key) {
            return Some(&links[i].1);
        }
        i = i + 1;
    }
    None
}

/// The name that follows the last `-worktrees/` of a path, up to the next `/`.
pub open spec fn worktree_dir_name(path: Seq<char>) -> Option<Seq<char>> {
    match last_match(path, "-worktrees/"@) {
        Some(p) => Some(pieces(path.skip(p + "-worktrees/"@.len()), CharClass::Slash)[0]),
        None => None,
    }
}

/// The first of `keys`, from `from` on, that `name` names.
pub open spec fn key_for_name_from(name: Seq<char>, keys: Seq<Seq<char>>, from: int) -> Option<int>
    decreases keys.len() - from,
{
    if from < 0 || from >= keys.len() {
        None
    } else if key_matches_spec(name, keys[from]) {
        Some(from)
    } else {
        key_for_name_from(name, keys, from + 1)
    }
}

/// The key of the worktree a path lies in.
pub open spec fn key_for_path_spec(path: Seq<char>, keys: Seq<Seq<char>>) -> Option<Seq<char>> {
    match worktree_dir_name(path) {
        Some(name) => match key_for_name_from(name, keys, 0) {
            Some(i) => Some(keys[i]),
            None => None,
        },
        None => None,
    }
}

/// The first key that `name` names.
fn key_for_name(name: &str, keys: &[String]) -> (r: Option<String>)
    ensures
        r matches Some(k) ==> key_for_name_from(name@, key_views(keys@), 0) matches Some(i) && k@
            == key_views(keys@)[i],
        r is None ==> key_for_name_from(name@, key_views(keys@), 0) is None,
{
    let mut i: usize = 0;
    while i < keys.len()
        invariant
            i <= keys.len(),
            key_for_name_from(name@, key_views(keys@), 0) == key_for_name_from(
                name@,
                key_views(keys@),
                i as int,
            ),
        decreases keys.len() - i,
    {
        assert(key_views(keys@)[i as int] == keys@[i as int]@);
        if key_matches(name, keys[i].as_str()) {
            return Some(keys[i].clone());
        }
        i = i + 1;
    }
    None
}

/// The key of the worktree a path lies in: the name after its last
/// `-worktrees/`, up to the next `/`, matched against `keys`.
pub fn key_for_path(path: &str, keys: &[String]) -> (r: Option<String>)
    ensures
        r matches Some(k) ==> key_for_path_spec(path@, key_views(keys@)) == Some(k@),
        r is None ==> key_for_path_spec(path@, key_views(keys@)) is None,
{
    let chars = chars_of(path);
    let marker = chars_of("-worktrees/");
    proof {
        reveal_strlit("-worktrees/");
        crate::text::lemma_last_match_bound(chars@, marker@);
    }
    let p = match rfind(chars.as_slice(), marker.as_slice()) {
        Some(p) => p,
        None => return None,
    };
    let n = chars.len();
    assert(p + marker@.len() <= n);
    let rest = slice_chars(chars.as_slice(), p + marker.len(), n);
    assert(rest@ =~= path@.skip(p + "-worktrees/"@.len()));
    let parts = split_pieces(rest.as_slice(), CharClass::Slash);
    assert(views(parts@)[0] == parts@[0]@);
    let name = string_of(parts[0].as_slice());
    key_for_name(name.as_str(), keys)
}

/// The first session, from `from` on, that runs in pane `owner` and has a key.
pub open spec fn owner_session_from(
    owner: Seq<char>,
    sessions: Seq<ClaudeSessionInfo>,
    keys: Seq<Seq<char>>,
    from: int,
) -> Option<Seq<char>>
    decreases sessions.len() - from,
{
    if from < 0 || from >= sessions.len() {
        None
    } else if (sessions[from].pane_id matches Some(p) && p@ == owner) && session_key_spec(
        sessions[from],
        keys,
    ) is Some {
        session_key_spec(sessions[from], keys)
    } else {
        owner_session_from(owner, sessions, keys, from + 1)
    }
}

/// The issue to select first: the key of the owner pane's session, else the
/// key of the worktree the owner's directory lies in.
pub open spec fn preselect_key_spec(
    owner_pane: Option<Seq<char>>,
    owner_cwd: Option<Seq<char>>,
    sessions: Seq<ClaudeSessionInfo>,
    keys: Seq<Seq<char>>,
) -> Option<Seq<char>> {
    let by_session = match owner_pane {
        Some(owner) => owner_session_from(owner, sessions, keys, 0),
        None => None,
    };
    match by_session {
        Some(k) => Some(k),
        None => match owner_cwd {
            Some(cwd) => key_for_path_spec(cwd, keys),
            None => None,
        },
    }
}

/// The issue to select first.
#[verifier::loop_isolation(false)]
pub fn preselect_key(
    owner_pane: Option<&str>,
    owner_cwd: Option<&str>,
    sessions: &[ClaudeSessionInfo],
    keys: &[String],
) -> (r: Option<String>)
    ensures
        r matches Some(k) ==> preselect_key_spec(
            match owner_pane {
                Some(p) => Some(p@),
                None => None,
            },
            match owner_cwd {
                Some(c) => Some(c@),
                None => None,
            },
            sessions@,
            key_views(keys@),
        ) == Some(k@),
        r is None ==> preselect_key_spec(
            match owner_pane {
                Some(p) => Some(p@),
                None => None,
            },
            match owner_cwd {
                Some(c) => Some(c@),
                None => None,
            },
            sessions@,
            key_views(keys@),
        ) is None,
{
    if let Some(owner) = owner_pane {
        let mut i: usize = 0;
        while i < sessions.len()
            invariant
                i <= sessions.len(),
                owner_session_from(owner@, sessions@, key_views(keys@), 0) == owner_session_from(
                    owner@,
                    sessions@,
                    key_views(keys@),
                    i as int,
                ),
            decreases sessions.len() - i,
        {
            let session = &sessions[i];
            let in_pane = match &session.pane_id {
                Some(p) => eq_str(p.as_str(), owner),
                None => false,
            };
            if in_pane {
                if let Some(key) = session_key(session, keys) {
                    return Some(key);
                }
            }
            i = i + 1;
        }
    }
    match owner_cwd {
        Some(cwd) => key_for_path(cwd, keys),
        None => None,
    }
}

/// How one character is written inside a quoted curl value.
pub open spec fn quote_char(c: char) -> Seq<char> {
    if c == '\\' {
        seq!['\\', '\\']
    } else if c == '"' {
        seq!['\\', '"']
    } else if c == '\n' {
        seq!['\\', 'n']
    } else if c == '\r' {
        seq!['\\', 'r']
    } else if c == '\t' {
        seq!['\\', 't']
    } else {
        seq![c]
    }
}

/// The characters of `s` each written as inside a quoted curl value.
pub open spec fn quote_chars(s: Seq<char>) -> Seq<char>
    decreases s.len(),
{
    if s.len() == 0 {
        Seq::empty()
    } else {
        quote_chars(s.drop_last()) + quote_char(s.last())
    }
}

/// A value quoted for a curl configuration file.
pub open spec fn quote_spec(value: Seq<char>) -> Seq<char> {
    seq!['"'] + quote_chars(value) + seq!['"']
}

/// A value quoted for a curl configuration file: in double quotes, with
/// backslash, double quote, and the line feed, carriage return and tab
/// characters escaped.
pub fn quote(value: &str) -> (r: String)
    ensures
        r@ == quote_spec(value@),
{
    let chars = chars_of(value);
    let mut out: Vec<char> = Vec::new();
    out.push('"');
    let mut i: usize = 0;
    while i < chars.len()
        invariant
            i <= chars.len(),
            out@ == seq!['"'] + quote_chars(chars@.take(i as int)),
        decreases chars.len() - i,
    {
        let c = chars[i];
        if c == '\\' {
            out.push('\\');
            out.push('\\');
        } else if c == '"' {
            out.push('\\');
            out.push('"');
        } else if c == '\n' {
            out.push('\\');
            out.push('n');
        } else if c == '\r' {
            out.push('\\');
            out.push('r');
        } else if c == '\t' {
            out.push('\\');
            out.push('t');
        } else {
            out.push(c);
        }
        proof {
            assert(chars@.take(i + 1).drop_last() =~= chars@.take(i as int));
            assert(chars@.take(i + 1).last() == c);
            assert(out@ =~= seq!['"'] + quote_chars(chars@.take(i + 1)));
        }
        i = i + 1;
    }
    out.push('"');
    assert(chars@.take(chars.len() as int) =~= chars@);
    string_of(out.as_slice())
}

/// What `str::parse::<u16>` gives for `s`.
pub open spec fn parse_u16_spec(s: Seq<char>) -> Option<u16> {
    match parse_u32_spec(s) {
        Some(v) => if v <= u16::MAX {
            Some(v as u16)
        } else {
            None
        },
        None => None,
    }
}

/// curl's output split into the body and the HTTP status on its last line:
/// none when there is no line break or the status is not a non-zero number.
pub open spec fn split_status_spec(stdout: Seq<char>) -> Option<(Seq<char>, u16)> {
    match last_match(stdout, "\n"@) {
        Some(p) => match parse_u16_spec(trim_spec(stdout.skip(p + 1))) {
            Some(status) => if status != 0 {
                Some((stdout.take(p), status))
            } else {
                None
            },
            None => None,
        },
        None => None,
    }
}

/// curl's output split into the body and the HTTP status on its last line.
pub fn split_status(stdout: &str) -> (r: Option<(String, u16)>)
    ensures
        r matches Some((body, status)) ==> split_status_spec(stdout@) == Some((body@, status)),
        r is None ==> split_status_spec(stdout@) is None,
{
    let chars = chars_of(stdout);
    let nl = chars_of("\n");
    proof {
        reveal_strlit("\n");
        crate::text::lemma_last_match_bound(chars@, nl@);
    }
    let p = match rfind(chars.as_slice(), nl.as_slice()) {
        Some(p) => p,
        None => return None,
    };
    let n = chars.len();
    assert(p + nl@.len() <= n);
    let rest = slice_chars(chars.as_slice(), p + 1, n);
    assert(rest@ =~= stdout@.skip(p + 1));
    let t = trim(rest.as_slice());
    let status = match parse_u32(t.as_slice()) {
        Some(v) => {
            if v > 65535 || v == 0 {
                return None;
            }
            v as u16
        },
        None => return None,
    };
    let body = slice_chars(chars.as_slice(), 0, p);
    assert(body@ =~= stdout@.take(p as int));
    Some((string_of(body.as_slice()), status))
}

/// Whether a byte stands for itself in a URL: ASCII letters, digits, `-_.~`.
pub open spec fn unreserved(b: u8) -> bool {
    (65 <= b <= 90) || (97 <= b <= 122) || (48 <= b <= 57) || b == 45 || b == 95 || b == 46
        || b == 126
}

/// The upper-case hexadecimal digit for `d < 16`.
pub open spec fn hex_digit(d: u8) -> char {
    if d < 10 {
        (d + 48) as char
    } else {
        (d + 55) as char
    }
}

/// How one byte is written in a URL.
pub open spec fn percent_byte(b: u8) -> Seq<char> {
    if unreserved(b) {
        seq![b as char]
    } else {
        seq!['%', hex_digit(b / 16), hex_digit(b % 16)]
    }
}

/// The bytes `bytes` written for a URL.
pub open spec fn percent_bytes(bytes: Seq<u8>) -> Seq<char>
    decreases bytes.len(),
{
    if bytes.len() == 0 {
        Seq::empty()
    } else {
        percent_bytes(bytes.drop_last()) + percent_byte(bytes.last())
    }
}

fn hex_char(d: u8) -> (c: char)
    requires
        d < 16,
    ensures
        c == hex_digit(d),
{
    if d < 10 {
        (d + 48) as char
    } else {
        (d + 55) as char
    }
}

/// `value` written for a URL: each byte of its UTF-8 form that is not an ASCII
/// letter, digit or one of `-_.~` becomes `%` and two upper-case hex digits.
pub fn percent_encode(value: &str) -> (r: String)
    ensures
        r@ == percent_bytes(vstd::string::StringSliceAdditionalSpecFns::spec_bytes(value)),
{
    let bytes = value.as_bytes();
    let mut out: Vec<char> = Vec::new();
    let mut i: usize = 0;
    while i < bytes.len()
        invariant
            i <= bytes.len(),
            bytes@ == vstd::string::StringSliceAdditionalSpecFns::spec_bytes(value),
            out@ == percent_bytes(bytes@.take(i as int)),
        decreases bytes.len() - i,
    {
        let b = bytes[i];
        if (65 <= b && b <= 90) || (97 <= b && b <= 122) || (48 <= b && b <= 57) || b == 45 || b
            == 95 || b == 46 || b == 126 {
            out.push(b as char);
        } else {
            out.push('%');
            out.push(hex_char(b / 16));
            out.push(hex_char(b % 16));
        }
        proof {
            assert(bytes@.take(i + 1).drop_last() =~= bytes@.take(i as int));
            assert(bytes@.take(i + 1).last() == b);
            assert(out@ =~= percent_bytes(bytes@.take(i + 1)));
        }
        i = i + 1;
    }
    assert(bytes@.take(bytes.len() as int) =~= bytes@);
    string_of(out.as_slice())
}

/// The Jira fields that hold the sprint, the story points and the
/// development summary.
#[derive(Debug, Clone, PartialEq, Eq)]
pub struct DetailFields {
    pub sprint: String,
    pub story_points: String,
    pub development: String,
}

/// A Jira site and the credentials to use it.
pub struct JiraApi {
    pub site: String,
    pub email: String,
    pub token: String,
    pub fields: DetailFields,
}

impl JiraApi {
    /// A client of `site` (without trailing slashes) for `email`.
    pub fn new(site: &str, email: &str, token: String, fields: DetailFields) -> (r: JiraApi)
        ensures
            r.site@ == trim_end_char(site@, '/'),
            r.email@ == email@,
            r.token == token,
            r.fields == fields,
    {
        let chars = chars_of(site);
        let trimmed = trim_end_matching(chars.as_slice(), '/');
        JiraApi {
            site: string_of(trimmed.as_slice()),
            email: string_of(chars_of(email).as_slice()),
            token,
            fields,
        }
    }
}

} // verus!

verus! {

/// Whether session `s` does not beat the linked session `l`: `s` is not in a
/// pane when `l` is not, and, when both are in a pane or both are not, `s`
/// is not more recent.
pub open spec fn not_beaten(s: ClaudeSessionInfo, l: LinkedSession) -> bool {
    &&& !(s.pane_id is Some && l.pane_id is None)
    &&& ((s.pane_id is Some) == (l.pane_id is Some) ==> s.updated_at_ms <= l.updated_at_ms)
}

/// Whether the links are what the law below says of `sessions`: each key
/// once; each linked session is one of the sessions with that key; no
/// session with that key beats it; every session with a key has its key
/// linked.
pub open spec fn links_best(links: Seq<(Seq<char>, LinkedSession)>, sessions: Seq<ClaudeSessionInfo>, keys: Seq<Seq<char>>) -> bool {
    &&& forall|i: int, j: int| 0 <= i < j < links.len() ==> (#[trigger] links[i]).0 != (#[trigger] links[j]).0
    &&& forall|i: int|
        0 <= i < links.len() ==> exists|j: int|
            0 <= j < sessions.len() && session_key_spec(#[trigger] sessions[j], keys) == Some((#[trigger] links[i]).0)
                && links[i].1 == candidate_of(sessions[j])
    &&& forall|i: int, j: int|
        0 <= i < links.len() && 0 <= j < sessions.len() && session_key_spec(#[trigger] sessions[j], keys) == Some(
            (#[trigger] links[i]).0,
        ) ==> not_beaten(sessions[j], links[i].1)
    &&& forall|j: int|
        0 <= j < sessions.len() && #[trigger] session_key_spec(sessions[j], keys) is Some ==> exists|i: int|
            0 <= i < links.len() && Some((#[trigger] links[i]).0) == session_key_spec(sessions[j], keys)
}

/// Each issue key links to the best of the sessions with that key: one in
/// a pane over one without, then the most recent (the earliest listed among
/// equals); every key of a session is linked, once, to one of its sessions.
pub proof fn linked_sessions_are_the_best(sessions: Seq<ClaudeSessionInfo>, keys: Seq<Seq<char>>)
    ensures
        links_best(link_fold(sessions, keys), sessions, keys),
    decreases sessions.len(),
{
    if sessions.len() == 0 {
        return;
    }
    let prev_s = sessions.drop_last();
    let s = sessions.last();
    linked_sessions_are_the_best(prev_s, keys);
    let prev = link_fold(prev_s, keys);
    assert(sessions =~= prev_s.push(s));
    assert(link_fold(sessions, keys) == link_step(prev, s, keys));
    match session_key_spec(s, keys) {
        None => lemma_best_unkeyed(prev, prev_s, s, keys),
        Some(k) => match link_index_from(prev, k, 0) {
            None => lemma_best_new_key(prev, prev_s, s, keys, k),
            Some(at) => lemma_best_known_key(prev, prev_s, s, keys, k, at),
        },
    }
}

proof fn lemma_best_unkeyed(prev: Seq<(Seq<char>, LinkedSession)>, prev_s: Seq<ClaudeSessionInfo>, s: ClaudeSessionInfo, keys: Seq<Seq<char>>)
    requires
        links_best(prev, prev_s, keys),
        session_key_spec(s, keys) is None,
    ensures
        links_best(link_step(prev, s, keys), prev_s.push(s), keys),
{
    let sessions = prev_s.push(s);
    let n = prev_s.len() as int;
    let links = link_step(prev, s, keys);
    assert forall|j: int| 0 <= j < n implies sessions[j] == #[trigger] prev_s[j] by {}
    assert(sessions[n] == s);
    assert(links == prev);
    assert forall|i: int|
        0 <= i < links.len() implies exists|j: int|
            0 <= j < sessions.len() && session_key_spec(#[trigger] sessions[j], keys) == Some((#[trigger] links[i]).0)
                && links[i].1 == candidate_of(sessions[j]) by {
        let j = choose|j: int|
            0 <= j < prev_s.len() && session_key_spec(#[trigger] prev_s[j], keys) == Some(prev[i].0)
                && prev[i].1 == candidate_of(prev_s[j]);
        assert(sessions[j] == prev_s[j]);
    }
    assert forall|i: int, j: int|
        0 <= i < links.len() && 0 <= j < sessions.len() && session_key_spec(#[trigger] sessions[j], keys)
            == Some((#[trigger] links[i]).0) implies not_beaten(sessions[j], links[i].1) by {
        assert(j < n);
        assert(sessions[j] == prev_s[j]);
    }
    assert forall|j: int|
        0 <= j < sessions.len() && #[trigger] session_key_spec(sessions[j], keys) is Some implies exists|i: int|
            0 <= i < links.len() && Some((#[trigger] links[i]).0) == session_key_spec(sessions[j], keys) by {
        assert(j < n);
        assert(sessions[j] == prev_s[j]);
    }
}

proof fn lemma_best_new_key(prev: Seq<(Seq<char>, LinkedSession)>, prev_s: Seq<ClaudeSessionInfo>, s: ClaudeSessionInfo, keys: Seq<Seq<char>>, k: Seq<char>)
    requires
        links_best(prev, prev_s, keys),
        session_key_spec(s, keys) == Some(k),
        link_index_from(prev, k, 0) is None,
    ensures
        links_best(link_step(prev, s, keys), prev_s.push(s), keys),
{
    let sessions = prev_s.push(s);
    let n = prev_s.len() as int;
    let links = link_step(prev, s, keys);
    assert forall|j: int| 0 <= j < n implies sessions[j] == #[trigger] prev_s[j] by {}
    assert(sessions[n] == s);
    lemma_link_index_from(prev, k, 0);
    assert(links == prev.push((k, candidate_of(s))));
    assert forall|i: int, i2: int| 0 <= i < i2 < links.len() implies (#[trigger] links[i]).0
        != (#[trigger] links[i2]).0 by {
        if i2 < prev.len() {
            assert(links[i] == prev[i] && links[i2] == prev[i2]);
        } else {
            assert(links[i] == prev[i]);
        }
    }
    assert forall|i: int|
        0 <= i < links.len() implies exists|j: int|
            0 <= j < sessions.len() && session_key_spec(#[trigger] sessions[j], keys) == Some(
                (#[trigger] links[i]).0,
            ) && links[i].1 == candidate_of(sessions[j]) by {
        if i < prev.len() {
            assert(links[i] == prev[i]);
            let j = choose|j: int|
                0 <= j < prev_s.len() && session_key_spec(#[trigger] prev_s[j], keys) == Some(prev[i].0)
                    && prev[i].1 == candidate_of(prev_s[j]);
            assert(sessions[j] == prev_s[j]);
        } else {
            assert(session_key_spec(sessions[n], keys) == Some(links[i].0));
        }
    }
    assert forall|i: int, j: int|
        0 <= i < links.len() && 0 <= j < sessions.len() && session_key_spec(#[trigger] sessions[j], keys)
            == Some((#[trigger] links[i]).0) implies not_beaten(sessions[j], links[i].1) by {
        if i < prev.len() {
            assert(links[i] == prev[i]);
            if j < n {
                assert(sessions[j] == prev_s[j]);
            } else {
                assert(prev[i].0 == k);
            }
        } else {
            if j < n {
                assert(sessions[j] == prev_s[j]);
                let i0 = choose|i0: int|
                    0 <= i0 < prev.len() && Some((#[trigger] prev[i0]).0) == session_key_spec(prev_s[j], keys);
                assert(prev[i0].0 == k);
            }
        }
    }
    assert forall|j: int|
        0 <= j < sessions.len() && #[trigger] session_key_spec(sessions[j], keys) is Some implies exists|
            i: int,
        | 0 <= i < links.len() && Some((#[trigger] links[i]).0) == session_key_spec(sessions[j], keys) by {
        if j < n {
            assert(sessions[j] == prev_s[j]);
            let i0 = choose|i0: int|
                0 <= i0 < prev.len() && Some((#[trigger] prev[i0]).0) == session_key_spec(prev_s[j], keys);
            assert(links[i0] == prev[i0]);
        } else {
            assert(links[prev.len() as int].0 == k);
        }
    }
}

proof fn lemma_best_known_key(prev: Seq<(Seq<char>, LinkedSession)>, prev_s: Seq<ClaudeSessionInfo>, s: ClaudeSessionInfo, keys: Seq<Seq<char>>, k: Seq<char>, at: int)
    requires
        links_best(prev, prev_s, keys),
        session_key_spec(s, keys) == Some(k),
        link_index_from(prev, k, 0) == Some(at),
    ensures
        links_best(link_step(prev, s, keys), prev_s.push(s), keys),
{
    if better_link(candidate_of(s), prev[at].1) {
        lemma_best_replaced(prev, prev_s, s, keys, k, at);
    } else {
        lemma_best_kept(prev, prev_s, s, keys, k, at);
    }
}

proof fn lemma_best_replaced(prev: Seq<(Seq<char>, LinkedSession)>, prev_s: Seq<ClaudeSessionInfo>, s: ClaudeSessionInfo, keys: Seq<Seq<char>>, k: Seq<char>, at: int)
    requires
        links_best(prev, prev_s, keys),
        session_key_spec(s, keys) == Some(k),
        link_index_from(prev, k, 0) == Some(at),
        better_link(candidate_of(s), prev[at].1),
    ensures
        links_best(link_step(prev, s, keys), prev_s.push(s), keys),
{
    let sessions = prev_s.push(s);
    let n = prev_s.len() as int;
    let links = link_step(prev, s, keys);
    assert forall|j: int| 0 <= j < n implies sessions[j] == #[trigger] prev_s[j] by {}
    assert(sessions[n] == s);
    lemma_link_index_from(prev, k, 0);
    assert(links == prev.update(at, (k, candidate_of(s))));
    assert forall|i: int, i2: int| 0 <= i < i2 < links.len() implies (#[trigger] links[i]).0
        != (#[trigger] links[i2]).0 by {
        assert(links[i].0 == prev[i].0 && links[i2].0 == prev[i2].0);
    }
    assert forall|i: int|
        0 <= i < links.len() implies exists|j: int|
            0 <= j < sessions.len() && session_key_spec(#[trigger] sessions[j], keys) == Some(
                (#[trigger] links[i]).0,
            ) && links[i].1 == candidate_of(sessions[j]) by {
        if i == at {
            assert(session_key_spec(sessions[n], keys) == Some(links[i].0));
        } else {
            assert(links[i] == prev[i]);
            let j = choose|j: int|
                0 <= j < prev_s.len() && session_key_spec(#[trigger] prev_s[j], keys) == Some(prev[i].0)
                    && prev[i].1 == candidate_of(prev_s[j]);
            assert(sessions[j] == prev_s[j]);
        }
    }
    assert forall|i: int, j: int|
        0 <= i < links.len() && 0 <= j < sessions.len() && session_key_spec(#[trigger] sessions[j], keys)
            == Some((#[trigger] links[i]).0) implies not_beaten(sessions[j], links[i].1) by {
        if i == at {
            if j < n {
                assert(sessions[j] == prev_s[j]);
                assert(not_beaten(prev_s[j], prev[at].1));
            }
        } else {
            assert(links[i] == prev[i]);
            if j < n {
                assert(sessions[j] == prev_s[j]);
            } else {
                assert(prev[i].0 == k);
                assert(prev[at].0 == k);
            }
        }
    }
    assert forall|j: int|
        0 <= j < sessions.len() && #[trigger] session_key_spec(sessions[j], keys) is Some implies exists|
            i: int,
        | 0 <= i < links.len() && Some((#[trigger] links[i]).0) == session_key_spec(sessions[j], keys) by {
        if j < n {
            assert(sessions[j] == prev_s[j]);
            let i0 = choose|i0: int|
                0 <= i0 < prev.len() && Some((#[trigger] prev[i0]).0) == session_key_spec(prev_s[j], keys);
            assert(links[i0].0 == prev[i0].0);
        } else {
            assert(links[at].0 == k);
        }
    }
}


proof fn lemma_best_kept(prev: Seq<(Seq<char>, LinkedSession)>, prev_s: Seq<ClaudeSessionInfo>, s: ClaudeSessionInfo, keys: Seq<Seq<char>>, k: Seq<char>, at: int)
    requires
        links_best(prev, prev_s, keys),
        session_key_spec(s, keys) == Some(k),
        link_index_from(prev, k, 0) == Some(at),
        !better_link(candidate_of(s), prev[at].1),
    ensures
        links_best(link_step(prev, s, keys), prev_s.push(s), keys),
{
    let sessions = prev_s.push(s);
    let n = prev_s.len() as int;
    let links = link_step(prev, s, keys);
    assert forall|j: int| 0 <= j < n implies sessions[j] == #[trigger] prev_s[j] by {}
    assert(sessions[n] == s);
    lemma_link_index_from(prev, k, 0);
    assert(links == prev);
    assert forall|i: int, i2: int| 0 <= i < i2 < links.len() implies (#[trigger] links[i]).0
        != (#[trigger] links[i2]).0 by {
        assert(links[i].0 == prev[i].0 && links[i2].0 == prev[i2].0);
    }
    assert forall|i: int|
        0 <= i < links.len() implies exists|j: int|
            0 <= j < sessions.len() && session_key_spec(#[trigger] sessions[j], keys) == Some(
                (#[trigger] links[i]).0,
            ) && links[i].1 == candidate_of(sessions[j]) by {
        let j = choose|j: int|
            0 <= j < prev_s.len() && session_key_spec(#[trigger] prev_s[j], keys) == Some(prev[i].0)
                && prev[i].1 == candidate_of(prev_s[j]);
        assert(sessions[j] == prev_s[j]);
    }
    assert forall|i: int, j: int|
        0 <= i < links.len() && 0 <= j < sessions.len() && session_key_spec(#[trigger] sessions[j], keys)
            == Some((#[trigger] links[i]).0) implies not_beaten(sessions[j], links[i].1) by {
        if i == at {
            if j < n {
                assert(sessions[j] == prev_s[j]);
                assert(not_beaten(prev_s[j], prev[at].1));
            }
        } else {
            assert(links[i] == prev[i]);
            if j < n {
                assert(sessions[j] == prev_s[j]);
            } else {
                assert(prev[i].0 == k);
                assert(prev[at].0 == k);
            }
        }
    }
    assert forall|j: int|
        0 <= j < sessions.len() && #[trigger] session_key_spec(sessions[j], keys) is Some implies exists|
            i: int,
        | 0 <= i < links.len() && Some((#[trigger] links[i]).0) == session_key_spec(sessions[j], keys) by {
        if j < n {
            assert(sessions[j] == prev_s[j]);
            let i0 = choose|i0: int|
                0 <= i0 < prev.len() && Some((#[trigger] prev[i0]).0) == session_key_spec(prev_s[j], keys);
            assert(links[i0].0 == prev[i0].0);
        } else {
            assert(links[at].0 == k);
        }
    }
}

/// Whether session `s` runs in pane `owner` and has a key.
pub open spec fn owner_keyed(s: ClaudeSessionInfo, owner: Seq<char>, keys: Seq<Seq<char>>) -> bool {
    (s.pane_id matches Some(p) && p@ == owner) && session_key_spec(s, keys) is Some
}

proof fn lemma_owner_session_from(owner: Seq<char>, sessions: Seq<ClaudeSessionInfo>, keys: Seq<Seq<char>>, from: int)
    requires
        0 <= from,
    ensures
        (exists|j: int| from <= j < sessions.len() && owner_keyed(#[trigger] sessions[j], owner, keys)) ==> ({
            let j0 = choose|j: int|
                from <= j < sessions.len() && owner_keyed(#[trigger] sessions[j], owner, keys) && forall|i: int|
                    from <= i < j ==> !owner_keyed(#[trigger] sessions[i], owner, keys);
            owner_session_from(owner, sessions, keys, from) == session_key_spec(sessions[j0], keys)
        }),
        (forall|j: int| from <= j < sessions.len() ==> !owner_keyed(#[trigger] sessions[j], owner, keys))
            ==> owner_session_from(owner, sessions, keys, from) is None,
    decreases sessions.len() - from,
{
    if from < sessions.len() {
        lemma_owner_session_from(owner, sessions, keys, from + 1);
        if owner_keyed(sessions[from], owner, keys) {
            let j0 = choose|j: int|
                from <= j < sessions.len() && owner_keyed(#[trigger] sessions[j], owner, keys) && forall|i: int|
                    from <= i < j ==> !owner_keyed(#[trigger] sessions[i], owner, keys);
            assert(from <= j0 < sessions.len() && owner_keyed(sessions[j0], owner, keys) && forall|i: int|
                from <= i < j0 ==> !owner_keyed(#[trigger] sessions[i], owner, keys)) by {
                assert(from <= from < sessions.len() && owner_keyed(sessions[from], owner, keys) && forall|i: int|
                    from <= i < from ==> !owner_keyed(#[trigger] sessions[i], owner, keys));
            }
            if j0 > from {
                assert(!owner_keyed(sessions[from], owner, keys));
            }
        } else if exists|j: int| from <= j < sessions.len() && owner_keyed(#[trigger] sessions[j], owner, keys) {
            let w = choose|j: int| from <= j < sessions.len() && owner_keyed(#[trigger] sessions[j], owner, keys);
            assert(w > from);
            lemma_first_owner_keyed(owner, sessions, keys, from, w);
            let j0 = choose|j: int|
                from <= j < sessions.len() && owner_keyed(#[trigger] sessions[j], owner, keys) && forall|i: int|
                    from <= i < j ==> !owner_keyed(#[trigger] sessions[i], owner, keys);
            let j1 = choose|j: int|
                from + 1 <= j < sessions.len() && owner_keyed(#[trigger] sessions[j], owner, keys) && forall|i: int|
                    from + 1 <= i < j ==> !owner_keyed(#[trigger] sessions[i], owner, keys);
            assert(exists|j: int| from + 1 <= j < sessions.len() && owner_keyed(#[trigger] sessions[j], owner, keys)) by {
                assert(owner_keyed(sessions[w], owner, keys));
            }
            lemma_first_owner_keyed(owner, sessions, keys, from + 1, w);
            if j0 < j1 {
                assert(!owner_keyed(sessions[j0], owner, keys));
            } else if j1 < j0 {
                assert(!owner_keyed(sessions[j1], owner, keys));
            }
        }
    }
}

proof fn lemma_first_owner_keyed(owner: Seq<char>, sessions: Seq<ClaudeSessionInfo>, keys: Seq<Seq<char>>, from: int, w: int)
    requires
        from <= w < sessions.len(),
        owner_keyed(sessions[w], owner, keys),
    ensures
        exists|j: int|
            from <= j < sessions.len() && owner_keyed(#[trigger] sessions[j], owner, keys) && forall|i: int|
                from <= i < j ==> !owner_keyed(#[trigger] sessions[i], owner, keys),
    decreases w - from,
{
    if owner_keyed(sessions[from], owner, keys) {
        assert(from <= from < sessions.len() && owner_keyed(sessions[from], owner, keys) && forall|i: int|
            from <= i < from ==> !owner_keyed(#[trigger] sessions[i], owner, keys));
    } else {
        lemma_first_owner_keyed(owner, sessions, keys, from + 1, w);
        let j = choose|j: int|
            from + 1 <= j < sessions.len() && owner_keyed(#[trigger] sessions[j], owner, keys) && forall|i: int|
                from + 1 <= i < j ==> !owner_keyed(#[trigger] sessions[i], owner, keys);
        assert(forall|i: int| from <= i < j ==> !owner_keyed(#[trigger] sessions[i], owner, keys));
    }
}

/// The owner pane's own session decides the issue to select first: where
/// the first session that runs in the owner pane and has a key is
/// `sessions[j]`, its key is selected, whatever the owner's directory.
pub proof fn the_owner_session_is_preselected(
    owner: Seq<char>,
    owner_cwd: Option<Seq<char>>,
    sessions: Seq<ClaudeSessionInfo>,
    keys: Seq<Seq<char>>,
    j: int,
)
    requires
        0 <= j < sessions.len(),
        owner_keyed(sessions[j], owner, keys),
        forall|i: int| 0 <= i < j ==> !owner_keyed(#[trigger] sessions[i], owner, keys),
    ensures
        preselect_key_spec(Some(owner), owner_cwd, sessions, keys) == session_key_spec(sessions[j], keys),
        preselect_key_spec(Some(owner), owner_cwd, sessions, keys) is Some,
{
    lemma_owner_session_from(owner, sessions, keys, 0);
    let j0 = choose|j: int|
        0 <= j < sessions.len() && owner_keyed(#[trigger] sessions[j], owner, keys) && forall|i: int|
            0 <= i < j ==> !owner_keyed(#[trigger] sessions[i], owner, keys);
    if j0 < j {
        assert(!owner_keyed(sessions[j0], owner, keys));
    } else if j < j0 {
        assert(!owner_keyed(sessions[j], owner, keys));
    }
}

/// Without a session in the owner pane that has a key (or without an owner
/// pane), the issue to select first is the key of the worktree that the
/// owner's directory lies in, and none without a directory.
pub proof fn otherwise_the_owner_directory_is_preselected(
    owner_pane: Option<Seq<char>>,
    owner_cwd: Option<Seq<char>>,
    sessions: Seq<ClaudeSessionInfo>,
    keys: Seq<Seq<char>>,
)
    requires
        owner_pane matches Some(owner) ==> forall|i: int|
            0 <= i < sessions.len() ==> !owner_keyed(#[trigger] sessions[i], owner, keys),
    ensures
        preselect_key_spec(owner_pane, owner_cwd, sessions, keys) == match owner_cwd {
            Some(cwd) => key_for_path_spec(cwd, keys),
            None => None,
        },
{
    if let Some(owner) = owner_pane {
        lemma_owner_session_from(owner, sessions, keys, 0);
    }
}

} // verus!
