//! Issues of the Jira list and how they are grouped by status: one group per
//! status, ordered by the configured status order, then by category, then by
//! name.

use vstd::prelude::*;

use crate::jira::{lowercase_of, StatusCategory};
use crate::split::string_views;
use crate::text::{chars_of, eq_ignore_ascii_case_at, eq_ignore_ascii_case_spec, eq_str, lex_less, lex_lt};

verus! {

/// An issue as the list shows it.
#[derive(Debug)]
pub struct Issue {
    pub key: String,
    pub summary: String,
    pub status: String,
    pub category: StatusCategory,
    pub priority: Option<String>,
    pub assignee: Option<String>,
    pub issue_type: String,
    pub updated: String,
    /// The parent issue's key and summary.
    pub parent: Option<(String, String)>,
}

/// The issues that share one status.
#[derive(Debug)]
pub struct StatusGroup {
    pub status: String,
    pub issues: Vec<Issue>,
}

/// A copy of an optional text.
fn copy_text(t: &Option<String>) -> (r: Option<String>)
    ensures
        r == *t,
{
    match t {
        Some(s) => Some(s.clone()),
        None => None,
    }
}

impl Issue {
    /// A copy of the issue.
    pub fn copy(&self) -> (r: Issue)
        ensures
            r == *self,
    {
        let parent = match &self.parent {
            Some((k, s)) => Some((k.clone(), s.clone())),
            None => None,
        };
        Issue {
            key: self.key.clone(),
            summary: self.summary.clone(),
            status: self.status.clone(),
            category: self.category,
            priority: copy_text(&self.priority),
            assignee: copy_text(&self.assignee),
            issue_type: self.issue_type.clone(),
            updated: self.updated.clone(),
            parent,
        }
    }
}

/// The issues whose status is `status`, in their order.
pub open spec fn with_status(issues: Seq<Issue>, status: Seq<char>) -> Seq<Issue>
    decreases issues.len(),
{
    if issues.len() == 0 {
        Seq::empty()
    } else if issues.last().status@ == status {
        with_status(issues.drop_last(), status).push(issues.last())
    } else {
        with_status(issues.drop_last(), status)
    }
}

/// The statuses of the issues, each once, in the order they first appear.
pub open spec fn statuses_seen(issues: Seq<Issue>) -> Seq<Seq<char>>
    decreases issues.len(),
{
    if issues.len() == 0 {
        Seq::empty()
    } else if statuses_seen(issues.drop_last()).contains(issues.last().status@) {
        statuses_seen(issues.drop_last())
    } else {
        statuses_seen(issues.drop_last()).push(issues.last().status@)
    }
}

/// The first position, from `i` on, of a configured status equal to `status`
/// up to ASCII case.
pub open spec fn position_from(order: Seq<Seq<char>>, status: Seq<char>, i: int) -> Option<int>
    decreases order.len() - i,
{
    if i < 0 || i >= order.len() {
        None
    } else if eq_ignore_ascii_case_spec(order[i], status) {
        Some(i)
    } else {
        position_from(order, status, i + 1)
    }
}

/// What a group sorts by: whether its status is missing from the configured
/// order, its position there (`usize::MAX` when missing), the rank of the
/// category of its first issue, and its lower-case name.
pub open spec fn group_key(issues: Seq<Issue>, order: Seq<Seq<char>>, status: Seq<char>) -> (
    bool,
    int,
    int,
    Seq<char>,
) {
    let position = position_from(order, status, 0);
    let first = with_status(issues, status)[0];
    (
        position is None,
        match position {
            Some(p) => p,
            None => usize::MAX as int,
        },
        match first.category {
            StatusCategory::InProgress => 0int,
            StatusCategory::New => 1int,
            StatusCategory::Done => 2int,
        },
        lowercase_of(status),
    )
}

/// Whether key `a` sorts before key `b`, component by component.
pub open spec fn key_lt(a: (bool, int, int, Seq<char>), b: (bool, int, int, Seq<char>)) -> bool {
    (!a.0 && b.0) || (a.0 == b.0 && (a.1 < b.1 || (a.1 == b.1 && (a.2 < b.2 || (a.2 == b.2
        && lex_lt(a.3, b.3))))))
}

/// Whether the group of status `a` comes before that of status `b`: by key,
/// and among equal keys in the order the statuses first appear.
pub open spec fn group_before(issues: Seq<Issue>, order: Seq<Seq<char>>, a: Seq<char>, b: Seq<char>) -> bool {
    let ka = group_key(issues, order, a);
    let kb = group_key(issues, order, b);
    key_lt(ka, kb) || (ka == kb && statuses_seen(issues).index_of(a) < statuses_seen(issues).index_of(
        b,
    ))
}

/// Of two keys, one sorts before the other or they are equal.
proof fn lemma_key_total(a: (bool, int, int, Seq<char>), b: (bool, int, int, Seq<char>))
    ensures
        key_lt(a, b) || key_lt(b, a) || a == b,
{
    crate::text::lemma_lex_total(a.3, b.3);
}

/// No status is seen twice.
proof fn lemma_seen_distinct(issues: Seq<Issue>)
    ensures
        forall|i: int, j: int|
            0 <= i < j < statuses_seen(issues).len() ==> statuses_seen(issues)[i] != statuses_seen(
                issues,
            )[j],
    decreases issues.len(),
{
    if issues.len() > 0 {
        lemma_seen_distinct(issues.drop_last());
        let prev = statuses_seen(issues.drop_last());
        if !prev.contains(issues.last().status@) {
            assert forall|i: int, j: int|
                0 <= i < j < statuses_seen(issues).len() implies statuses_seen(issues)[i] != statuses_seen(
                issues,
            )[j] by {
                if j == prev.len() {
                    assert(statuses_seen(issues)[i] == prev[i]);
                }
            }
        }
    }
}

/// A seen status has at least one issue.
proof fn lemma_seen_has_issues(issues: Seq<Issue>, s: Seq<char>)
    requires
        statuses_seen(issues).contains(s),
    ensures
        with_status(issues, s).len() > 0,
    decreases issues.len(),
{
    if issues.len() > 0 {
        let prev = statuses_seen(issues.drop_last());
        if prev.contains(s) {
            lemma_seen_has_issues(issues.drop_last(), s);
        } else {
            let i = choose|i: int| 0 <= i < statuses_seen(issues).len() && statuses_seen(issues)[i] == s;
            assert(i == prev.len());
        }
    }
}

/// The position of each element of a sequence without repeats is its index.
proof fn lemma_index_of_distinct(s: Seq<Seq<char>>, k: int)
    requires
        0 <= k < s.len(),
        forall|i: int, j: int| 0 <= i < j < s.len() ==> s[i] != s[j],
    ensures
        s.index_of(s[k]) == k,
{
    assert(s.contains(s[k]));
}

/// The statuses of `issues`, each once, in the order they first appear.
fn seen_statuses(issues: &[Issue]) -> (r: Vec<String>)
    ensures
        string_views(r@) == statuses_seen(issues@),
{
    let mut seen: Vec<String> = Vec::new();
    let mut k: usize = 0;
    while k < issues.len()
        invariant
            k <= issues.len(),
            string_views(seen@) == statuses_seen(issues@.take(k as int)),
        decreases issues.len() - k,
    {
        assert(issues@.take(k + 1).drop_last() =~= issues@.take(k as int));
        assert(issues@.take(k + 1).last() == issues@[k as int]);
        let mut found = false;
        let mut j: usize = 0;
        while j < seen.len()
            invariant
                j <= seen.len(),
                k < issues@.len(),
                !found ==> forall|m: int| 0 <= m < j ==> seen@[m]@ != issues@[k as int].status@,
                found ==> string_views(seen@).contains(issues@[k as int].status@),
            decreases seen.len() - j,
        {
            if eq_str(seen[j].as_str(), issues[k].status.as_str()) {
                assert(string_views(seen@)[j as int] == issues@[k as int].status@);
                found = true;
            }
            j = j + 1;
        }
        if !found {
            assert(!string_views(seen@).contains(issues@[k as int].status@));
            let ghost before = seen@;
            seen.push(issues[k].status.clone());
            assert(string_views(seen@) =~= string_views(before).push(issues@[k as int].status@));
        }
        k = k + 1;
    }
    assert(issues@.take(issues.len() as int) =~= issues@);
    seen
}

/// The issues whose status is `status`, copied, in their order.
fn issues_with(issues: &[Issue], status: &str) -> (r: Vec<Issue>)
    ensures
        r@ == with_status(issues@, status@),
{
    let mut out: Vec<Issue> = Vec::new();
    let mut k: usize = 0;
    while k < issues.len()
        invariant
            k <= issues.len(),
            out@ == with_status(issues@.take(k as int), status@),
        decreases issues.len() - k,
    {
        assert(issues@.take(k + 1).drop_last() =~= issues@.take(k as int));
        assert(issues@.take(k + 1).last() == issues@[k as int]);
        if eq_str(issues[k].status.as_str(), status) {
            out.push(issues[k].copy());
        }
        k = k + 1;
    }
    assert(issues@.take(issues.len() as int) =~= issues@);
    out
}

/// The first position of `status` in the configured order, up to ASCII case.
fn position_in(order: &[String], status: &str) -> (r: Option<usize>)
    ensures
        r matches Some(p) ==> position_from(string_views(order@), status@, 0) == Some(p as int),
        r is None ==> position_from(string_views(order@), status@, 0) is None,
{
    let s = chars_of(status);
    let mut i: usize = 0;
    while i < order.len()
        invariant
            i <= order.len(),
            s@ == status@,
            position_from(string_views(order@), status@, 0) == position_from(string_views(order@), status@, i as int),
        decreases order.len() - i,
    {
        let o = chars_of(order[i].as_str());
        let same = o.len() == s.len() && eq_ignore_ascii_case_at(o.as_slice(), 0, s.as_slice());
        proof {
            if o.len() == s.len() {
                assert(o@.subrange(0, s@.len() as int) =~= o@);
            }
            assert(string_views(order@)[i as int] == o@);
        }
        if same {
            return Some(i);
        }
        i = i + 1;
    }
    None
}

/// A group's sort key, as computed.
struct Key {
    missing: bool,
    position: usize,
    rank: usize,
    lower: Vec<char>,
}

/// The key as a value.
spec fn key_of(k: Key) -> (bool, int, int, Seq<char>) {
    (k.missing, k.position as int, k.rank as int, k.lower@)
}

/// Whether key `a` sorts before key `b`.
fn key_less(a: &Key, b: &Key) -> (r: bool)
    ensures
        r == key_lt(key_of(*a), key_of(*b)),
{
    if a.missing != b.missing {
        return !a.missing;
    }
    if a.position != b.position {
        return a.position < b.position;
    }
    if a.rank != b.rank {
        return a.rank < b.rank;
    }
    lex_less(a.lower.as_slice(), b.lower.as_slice())
}

/// The sort key of the group of `status`, which has at least one issue.
fn group_key_of(issues: &[Issue], order: &[String], status: &str) -> (r: Key)
    requires
        with_status(issues@, status@).len() > 0,
    ensures
        key_of(r) == group_key(issues@, string_views(order@), status@),
{
    let position = position_in(order, status);
    let members = issues_with(issues, status);
    let rank = members[0].category.rank();
    let lower = chars_of(crate::jira::to_lowercase(status).as_str());
    match position {
        Some(p) => Key { missing: false, position: p, rank, lower },
        None => Key { missing: true, position: usize::MAX, rank, lower },
    }
}

/// Where index `k` goes among `sorted`: before the first index whose key
/// sorts after its key.
fn insert_position(sorted: &Vec<usize>, keys: &Vec<Key>, k: usize) -> (p: usize)
    requires
        k < keys@.len(),
        forall|i: int| 0 <= i < sorted@.len() ==> (#[trigger] sorted@[i]) < keys@.len(),
    ensures
        p <= sorted@.len(),
        forall|i: int| 0 <= i < p ==> !key_lt(key_of(keys@[k as int]), key_of(keys@[#[trigger] sorted@[i] as int])),
        p < sorted@.len() ==> key_lt(key_of(keys@[k as int]), key_of(keys@[sorted@[p as int] as int])),
{
    let mut p: usize = 0;
    while p < sorted.len()
        invariant
            p <= sorted@.len(),
            k < keys@.len(),
            forall|i: int| 0 <= i < sorted@.len() ==> (#[trigger] sorted@[i]) < keys@.len(),
            forall|i: int| 0 <= i < p ==> !key_lt(key_of(keys@[k as int]), key_of(keys@[#[trigger] sorted@[i] as int])),
        decreases sorted@.len() - p,
    {
        if key_less(&keys[k], &keys[sorted[p]]) {
            return p;
        }
        p = p + 1;
    }
    p
}

/// Whether index `a` comes before index `b`: by key, then by index.
spec fn index_before(keys: Seq<Key>, a: int, b: int) -> bool {
    key_lt(key_of(keys[a]), key_of(keys[b])) || (key_of(keys[a]) == key_of(keys[b]) && a < b)
}

/// The indices `0..keys.len()` ordered by key, equal keys by index.
fn sorted_indices(keys: &Vec<Key>) -> (r: Vec<usize>)
    ensures
        r@.len() == keys@.len(),
        forall|i: int| 0 <= i < r@.len() ==> (#[trigger] r@[i]) < keys@.len(),
        forall|m: usize| m < keys@.len() ==> #[trigger] r@.contains(m),
        forall|i: int, j: int| 0 <= i < j < r@.len() ==> r@[i] != r@[j],
        forall|i: int|
            0 <= i && i + 1 < r@.len() ==> index_before(keys@, #[trigger] r@[i] as int, r@[i + 1] as int),
{
    let mut sorted: Vec<usize> = Vec::new();
    let mut k: usize = 0;
    while k < keys.len()
        invariant
            k <= keys@.len(),
            sorted@.len() == k,
            forall|i: int| 0 <= i < sorted@.len() ==> (#[trigger] sorted@[i]) < k,
            forall|m: usize| m < k ==> #[trigger] sorted@.contains(m),
            forall|i: int, j: int| 0 <= i < j < sorted@.len() ==> sorted@[i] != sorted@[j],
            forall|i: int|
                0 <= i && i + 1 < sorted@.len() ==> index_before(
                    keys@,
                    #[trigger] sorted@[i] as int,
                    sorted@[i + 1] as int,
                ),
        decreases keys@.len() - k,
    {
        let p = insert_position(&sorted, keys, k);
        let ghost before = sorted@;
        sorted.insert(p, k);
        proof {
            assert(sorted@ =~= before.insert(p as int, k));
            assert forall|i: int| 0 <= i < sorted@.len() implies (#[trigger] sorted@[i]) < k + 1 by {
                if i < p {
                    assert(sorted@[i] == before[i]);
                } else if i > p {
                    assert(sorted@[i] == before[i - 1]);
                }
            }
            assert forall|m: usize| m < k + 1 implies #[trigger] sorted@.contains(m) by {
                if m == k {
                    assert(sorted@[p as int] == k);
                } else {
                    assert(before.contains(m));
                    let i0 = choose|i: int| 0 <= i < before.len() && before[i] == m;
                    if i0 < p {
                        assert(sorted@[i0] == m);
                    } else {
                        assert(sorted@[i0 + 1] == m);
                    }
                }
            }
            assert forall|i: int, j: int| 0 <= i < j < sorted@.len() implies sorted@[i] != sorted@[j] by {
                if i < p && j < p {
                    assert(sorted@[i] == before[i] && sorted@[j] == before[j]);
                } else if i < p && j == p {
                    assert(sorted@[i] == before[i]);
                } else if i < p {
                    assert(sorted@[i] == before[i] && sorted@[j] == before[j - 1]);
                } else if i == p {
                    assert(sorted@[j] == before[j - 1]);
                } else {
                    assert(sorted@[i] == before[i - 1] && sorted@[j] == before[j - 1]);
                }
            }
            assert forall|i: int|
                0 <= i && i + 1 < sorted@.len() implies index_before(
                    keys@,
                    #[trigger] sorted@[i] as int,
                    sorted@[i + 1] as int,
                ) by {
                if i + 1 < p {
                    assert(sorted@[i] == before[i] && sorted@[i + 1] == before[i + 1]);
                } else if i + 1 == p {
                    assert(sorted@[i] == before[i]);
                    lemma_key_total(key_of(keys@[k as int]), key_of(keys@[before[i] as int]));
                } else if i == p {
                    assert(sorted@[i + 1] == before[i]);
                } else {
                    assert(sorted@[i] == before[i - 1] && sorted@[i + 1] == before[i]);
                }
            }
        }
        k = k + 1;
    }
    sorted
}

/// The issues grouped by status, one group per status holding its issues in
/// their order. Groups whose status is in `status_order` (up to ASCII case)
/// come first, in that order; then by the category of their first issue (in
/// progress, new, done); then by lower-case name; equal keys keep the order in
/// which their statuses first appear.
pub fn group_issues(issues: &[Issue], status_order: &[String]) -> (r: Vec<StatusGroup>)
    ensures
        r@.len() == statuses_seen(issues@).len(),
        forall|i: int| 0 <= i < r@.len() ==> statuses_seen(issues@).contains((#[trigger] r@[i]).status@),
        forall|s: Seq<char>|
            statuses_seen(issues@).contains(s) ==> exists|i: int| 0 <= i < r@.len() && (#[trigger] r@[i]).status@ == s,
        forall|i: int, j: int| 0 <= i < j < r@.len() ==> r@[i].status@ != r@[j].status@,
        forall|i: int|
            0 <= i < r@.len() ==> (#[trigger] r@[i]).issues@ == with_status(issues@, r@[i].status@),
        forall|i: int|
            0 <= i && i + 1 < r@.len() ==> group_before(
                issues@,
                string_views(status_order@),
                (#[trigger] r@[i]).status@,
                r@[i + 1].status@,
            ),
{
    let ghost seen_v = statuses_seen(issues@);
    let seen = seen_statuses(issues);
    proof {
        lemma_seen_distinct(issues@);
    }
    let mut keys: Vec<Key> = Vec::new();
    let mut k: usize = 0;
    while k < seen.len()
        invariant
            k <= seen@.len(),
            string_views(seen@) == seen_v,
            seen_v == statuses_seen(issues@),
            keys@.len() == k,
            forall|i: int|
                0 <= i < k ==> key_of(#[trigger] keys@[i]) == group_key(issues@, string_views(status_order@), seen_v[i]),
        decreases seen@.len() - k,
    {
        proof {
            assert(seen_v[k as int] == seen@[k as int]@);
            lemma_seen_has_issues(issues@, seen_v[k as int]);
        }
        keys.push(group_key_of(issues, status_order, seen[k].as_str()));
        k = k + 1;
    }
    let order = sorted_indices(&keys);
    let mut groups: Vec<StatusGroup> = Vec::new();
    let mut i: usize = 0;
    while i < order.len()
        invariant
            i <= order@.len(),
            order@.len() == seen@.len(),
            string_views(seen@) == seen_v,
            seen_v == statuses_seen(issues@),
            keys@.len() == seen@.len(),
            forall|m: int| 0 <= m < order@.len() ==> (#[trigger] order@[m]) < keys@.len(),
            groups@.len() == i,
            forall|m: int|
                0 <= m < i ==> (#[trigger] groups@[m]).status@ == seen_v[order@[m] as int],
            forall|m: int|
                0 <= m < i ==> (#[trigger] groups@[m]).issues@ == with_status(issues@, groups@[m].status@),
        decreases order@.len() - i,
    {
        let idx = order[i];
        assert(seen_v[idx as int] == seen@[idx as int]@);
        let members = issues_with(issues, seen[idx].as_str());
        groups.push(StatusGroup { status: seen[idx].clone(), issues: members });
        i = i + 1;
    }
    proof {
        assert forall|m: int| 0 <= m < groups@.len() implies seen_v.contains((#[trigger] groups@[m]).status@) by {
            assert(seen_v[order@[m] as int] == groups@[m].status@);
        }
        assert forall|s: Seq<char>| seen_v.contains(s) implies exists|m: int|
            0 <= m < groups@.len() && (#[trigger] groups@[m]).status@ == s by {
            let t = choose|t: int| 0 <= t < seen_v.len() && seen_v[t] == s;
            assert(order@.contains(t as usize));
            let m = choose|m: int| 0 <= m < order@.len() && order@[m] == t as usize;
            assert(groups@[m].status@ == s);
        }
        assert forall|a: int, b: int| 0 <= a < b < groups@.len() implies groups@[a].status@ != groups@[b].status@ by {
            assert(order@[a] != order@[b]);
        }
        assert forall|m: int|
            0 <= m && m + 1 < groups@.len() implies group_before(
                issues@,
                string_views(status_order@),
                (#[trigger] groups@[m]).status@,
                groups@[m + 1].status@,
            ) by {
            let a = order@[m] as int;
            let b = order@[m + 1] as int;
            assert(index_before(keys@, a, b));
            lemma_index_of_distinct(seen_v, a);
            lemma_index_of_distinct(seen_v, b);
        }
    }
    groups
}

/// No issue is lost by grouping: the status of every issue is among the
/// statuses seen, and the issue is among those with its status.
pub proof fn every_issue_is_in_its_status_group(issues: Seq<Issue>, i: int)
    requires
        0 <= i < issues.len(),
    ensures
        statuses_seen(issues).contains(issues[i].status@),
        with_status(issues, issues[i].status@).contains(issues[i]),
    decreases issues.len(),
{
    let n = issues.len() - 1;
    let st = issues[i].status@;
    if i == n {
        let prev = statuses_seen(issues.drop_last());
        if !prev.contains(st) {
            assert(statuses_seen(issues).last() == st);
        }
        assert(with_status(issues, st).last() == issues[i]);
    } else {
        every_issue_is_in_its_status_group(issues.drop_last(), i);
        assert(issues.drop_last()[i] == issues[i]);
        let prev = statuses_seen(issues.drop_last());
        let k = choose|k: int| 0 <= k < prev.len() && prev[k] == st;
        assert(statuses_seen(issues)[k] == st);
        let w = with_status(issues.drop_last(), st);
        let k2 = choose|k2: int| 0 <= k2 < w.len() && w[k2] == issues[i];
        assert(with_status(issues, st)[k2] == issues[i]);
    }
}

} // verus!
