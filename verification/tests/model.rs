use herdr::jira::{DetailFields, JiraApi, StatusCategory};
use herdr::json::Json;
use herdr::model::{
    comment_from_json, detail_from_json, development_payload, development_summary,
    issue_from_json, pull_request_instance_types, pull_requests_from_detail, sprint_name,
    transition_from_json, JsonTransport,
};

fn s(text: &str) -> Json {
    Json::Text(text.into())
}

fn n(text: &str) -> Json {
    Json::Number(text.into())
}

fn obj(entries: Vec<(&str, Json)>) -> Json {
    Json::Object(entries.into_iter().map(|(k, v)| (k.to_string(), v)).collect())
}

fn arr(items: Vec<Json>) -> Json {
    Json::Array(items)
}

fn from_serde(v: serde_json::Value) -> Json {
    match v {
        serde_json::Value::Null => Json::Null,
        serde_json::Value::Bool(b) => Json::Bool(b),
        serde_json::Value::Number(x) => Json::Number(x.to_string()),
        serde_json::Value::String(t) => Json::Text(t),
        serde_json::Value::Array(items) => Json::Array(items.into_iter().map(from_serde).collect()),
        serde_json::Value::Object(map) => {
            Json::Object(map.into_iter().map(|(k, v)| (k, from_serde(v))).collect())
        }
    }
}

fn test_fields() -> DetailFields {
    DetailFields {
        sprint: "customfield_10020".into(),
        story_points: "customfield_10016".into(),
        development: "customfield_10000".into(),
    }
}

const DEV: &str = "{pullrequest={dataType=pullrequest, state=OPEN, stateCount=1}, json={\"cachedValue\":{\"errors\":[],\"summary\":{\"pullrequest\":{\"overall\":{\"count\":2,\"state\":\"OPEN\"}},\"repository\":{\"overall\":{\"count\":1}}}},\"isStale\":true}}";

fn detail_value() -> Json {
    obj(vec![
        ("key", s("VK25-9")),
        (
            "fields",
            obj(vec![
                ("summary", s("s")),
                (
                    "status",
                    obj(vec![
                        ("name", s("Code Review")),
                        ("statusCategory", obj(vec![("key", s("indeterminate"))])),
                    ]),
                ),
                ("description", obj(vec![("type", s("doc")), ("content", arr(vec![]))])),
                (
                    "comment",
                    obj(vec![(
                        "comments",
                        arr(vec![obj(vec![
                            ("author", obj(vec![("displayName", s("Ana"))])),
                            ("created", s("2026-09-01T00:00:00.000+0000")),
                            ("body", obj(vec![("type", s("doc"))])),
                        ])]),
                    )]),
                ),
                (
                    "customfield_10020",
                    arr(vec![
                        obj(vec![("name", s("Sprint 1")), ("state", s("closed"))]),
                        obj(vec![("name", s("Sprint 2")), ("state", s("active"))]),
                    ]),
                ),
                ("customfield_10016", n("3.0")),
                ("customfield_10000", s(DEV)),
                (
                    "parent",
                    obj(vec![("key", s("VK25-1")), ("fields", obj(vec![("summary", s("pai"))]))]),
                ),
            ]),
        ),
    ])
}

#[test]
fn detail_reads_sprint_points_and_pull_requests() {
    let payload = development_payload(&s(DEV)).unwrap();
    let parsed = from_serde(serde_json::from_str(&payload).unwrap());
    let development = development_summary(&parsed);

    let detail = detail_from_json(detail_value(), &test_fields(), Some("3".into()), development).unwrap();

    assert_eq!(detail.sprint.as_deref(), Some("Sprint 2"));
    assert_eq!(detail.story_points.as_deref(), Some("3"));
    assert_eq!(detail.development.as_deref(), Some("2 PRs (open) · 1 repositório"));
    assert_eq!(detail.comments[0].author, "Ana");
    assert_eq!(detail.issue.parent, Some(("VK25-1".into(), "pai".into())));
    assert_eq!(detail.issue.status, "Code Review");
    assert_eq!(detail.issue.category, StatusCategory::InProgress);
    assert!(detail.description.is_some());
}

#[test]
fn transitions_collect_required_fields() {
    let value = obj(vec![
        ("id", s("5")),
        ("name", s("Resolver")),
        ("to", obj(vec![("name", s("Concluído"))])),
        (
            "fields",
            obj(vec![
                ("resolution", obj(vec![("required", Json::Bool(true)), ("name", s("Resolução"))])),
                ("comment", obj(vec![("required", Json::Bool(false)), ("name", s("Comentário"))])),
            ]),
        ),
    ]);

    let transition = transition_from_json(&value).unwrap();

    assert_eq!(transition.to, "Concluído");
    assert_eq!(transition.required_fields, ["Resolução"]);
}

#[test]
fn required_fields_are_sorted_and_fall_back_to_their_id() {
    let value = obj(vec![
        ("id", s("7")),
        (
            "fields",
            obj(vec![
                ("zeta", obj(vec![("required", Json::Bool(true))])),
                ("x", obj(vec![("required", Json::Bool(true)), ("name", s("Beta"))])),
                ("y", obj(vec![("required", Json::Bool(true)), ("name", s("Alfa"))])),
            ]),
        ),
    ]);
    let transition = transition_from_json(&value).unwrap();
    assert_eq!(transition.required_fields, ["Alfa", "Beta", "zeta"]);
    assert_eq!(transition.name, "");
    assert!(transition_from_json(&obj(vec![("name", s("sem id"))])).is_none());
}

#[test]
fn pull_requests_come_from_dev_status_summary_and_detail() {
    let summary = obj(vec![(
        "summary",
        obj(vec![(
            "pullrequest",
            obj(vec![(
                "byInstanceType",
                obj(vec![("oAuth-com.github.integration.production", obj(vec![]))]),
            )]),
        )]),
    )]);
    assert_eq!(
        pull_request_instance_types(&summary),
        ["oAuth-com.github.integration.production"]
    );
    let detail = obj(vec![(
        "detail",
        arr(vec![obj(vec![(
            "pullRequests",
            arr(vec![
                obj(vec![
                    ("status", s("OPEN")),
                    ("name", s("VK25-1: x")),
                    ("url", s("https://github.com/vakinha/vakinha-web/pull/5783")),
                    ("repositoryName", s("vakinha/vakinha-web")),
                ]),
                obj(vec![("status", s("MERGED")), ("name", s("sem url"))]),
            ]),
        )])]),
    )]);
    let prs = pull_requests_from_detail(&detail);
    assert_eq!(prs.len(), 1);
    assert_eq!(prs[0].label(), "vakinha/vakinha-web#5783");
    assert_eq!(prs[0].status, "OPEN");
    assert!(pull_request_instance_types(&obj(vec![])).is_empty());
}

#[test]
fn issues_read_their_fields_and_defaults() {
    let value = obj(vec![
        ("key", s("A-1")),
        (
            "fields",
            obj(vec![
                ("summary", s("  resumo  ")),
                ("status", obj(vec![("statusCategory", obj(vec![("key", s("done"))]))])),
                ("priority", obj(vec![("name", s("High"))])),
                ("assignee", obj(vec![("displayName", s("   "))])),
            ]),
        ),
    ]);
    let issue = issue_from_json(&value).unwrap();
    assert_eq!(issue.key, "A-1");
    assert_eq!(issue.summary, "resumo");
    assert_eq!(issue.status, "?");
    assert_eq!(issue.category, StatusCategory::Done);
    assert_eq!(issue.priority.as_deref(), Some("High"));
    assert_eq!(issue.assignee, None);
    assert!(issue_from_json(&obj(vec![("key", s("A-2"))])).is_none());
    assert!(comment_from_json(obj(vec![("author", s("x"))])).is_none());
    assert_eq!(sprint_name(&arr(vec![obj(vec![("name", s("S9"))])])).as_deref(), Some("S9"));
}

struct FakeSite;

impl JsonTransport for FakeSite {
    fn get_json(&self, path: &str) -> Result<Json, String> {
        if path == "/rest/dev-status/latest/issue/summary?issueId=10%201" {
            return Ok(obj(vec![(
                "summary",
                obj(vec![("pullrequest", obj(vec![("byInstanceType", obj(vec![("gh", obj(vec![]))]))]))]),
            )]));
        }
        if path == "/rest/dev-status/latest/issue/detail?issueId=10%201&applicationType=gh&dataType=pullrequest" {
            return Ok(obj(vec![(
                "detail",
                arr(vec![obj(vec![(
                    "pullRequests",
                    arr(vec![obj(vec![("url", s("https://x/pull/1")), ("repositoryName", s("r"))])]),
                )])]),
            )]));
        }
        Err(format!("unexpected {path}"))
    }
}

#[test]
fn pull_requests_follow_the_summary_kinds() {
    let api = JiraApi::new("https://x.atlassian.net", "me@x.com", "t".into(), test_fields());
    let prs = api.pull_requests(&FakeSite, "10 1");
    assert_eq!(prs.len(), 1);
    assert_eq!(prs[0].label(), "r#1");
}
