use herdr::jira_api::{error_message, myself_from, parse_response, search_issues, JiraError};
use herdr::json::Json;

#[test]
fn success_bodies_are_read_as_json() {
    assert!(matches!(parse_response(200, "  \n"), Ok(Json::Null)));
    match parse_response(201, "{\"a\": 1, \"b\": [true, \"x\"]}") {
        Ok(Json::Object(entries)) => {
            assert_eq!(entries.len(), 2);
            assert_eq!(entries[0].0, "a");
            assert!(matches!(&entries[0].1, Json::Number(n) if n == "1"));
            assert!(matches!(&entries[1].1, Json::Array(items) if items.len() == 2));
        }
        _ => panic!("expected an object"),
    }
    assert!(matches!(parse_response(204, "{"), Err(JiraError::Parse(m)) if !m.is_empty()));
}

#[test]
fn known_statuses_have_their_own_errors() {
    assert!(matches!(parse_response(401, ""), Err(JiraError::Unauthorized)));
    assert!(matches!(parse_response(403, ""), Err(JiraError::Forbidden)));
    assert!(matches!(parse_response(404, ""), Err(JiraError::NotFound)));
    assert!(matches!(parse_response(429, ""), Err(JiraError::RateLimited)));
}

#[test]
fn other_statuses_carry_the_body_messages() {
    let body = r#"{"errorMessages":["x", 3, "y"],"errors":{"summary":"obrigatório","n":1}}"#;
    match parse_response(400, body) {
        Err(JiraError::Http(400, m)) => assert_eq!(m, "x; y; summary: obrigatório"),
        _ => panic!("expected an http error"),
    }
    assert_eq!(error_message("not json"), "");
    assert_eq!(error_message("[1]"), "");
    assert!(matches!(parse_response(502, "oops"), Err(JiraError::Http(502, m)) if m.is_empty()));
}

#[test]
fn errors_say_what_happened() {
    assert_eq!(JiraError::Http(500, String::new()).message(), "Jira respondeu 500");
    assert_eq!(JiraError::Http(500, "x".into()).message(), "Jira respondeu 500: x");
    assert_eq!(JiraError::NotFound.message(), "não encontrado no Jira (404)");
    assert_eq!(JiraError::Network("dns".into()).message(), "falha de rede ao falar com o Jira: dns");
    assert_eq!(JiraError::Parse("eof".into()).message(), "resposta inesperada do Jira: eof");
}

#[test]
fn search_answers_list_their_readable_issues() {
    let v = parse_response(
        200,
        r#"{"issues":[{"key":"VK-1","fields":{"summary":"a"}},{"nokey":1},{"key":"VK-2","fields":{}}]}"#,
    )
    .unwrap();
    let issues = search_issues(&v).unwrap();
    assert_eq!(issues.len(), 2);
    assert_eq!(issues[0].key, "VK-1");
    assert_eq!(issues[1].key, "VK-2");
    let empty = parse_response(200, "{}").unwrap();
    assert!(matches!(search_issues(&empty), Err(JiraError::Parse(m)) if m == "busca sem lista de issues"));
}

#[test]
fn myself_answers_give_the_account() {
    let v = parse_response(200, r#"{"accountId":"acc-9","displayName":"Marcelo"}"#).unwrap();
    assert_eq!(myself_from(&v).unwrap(), ("acc-9".to_string(), "Marcelo".to_string()));
    let v = parse_response(200, r#"{"accountId":"acc-9"}"#).unwrap();
    assert_eq!(myself_from(&v).unwrap().1, "");
    let v = parse_response(200, r#"{"displayName":"x"}"#).unwrap();
    assert!(matches!(myself_from(&v), Err(JiraError::Parse(m)) if m == "myself sem accountId"));
}
