//! The Jira view's settings: what the configuration and the environment must
//! provide, and what the view runs with.

use vstd::prelude::*;

use crate::jira::{DetailFields, JiraApi};
use crate::sessions::duplicate_strings;
use crate::text::{
    chars_of,
    eq_str,
    extend_chars,
    string_of,
    trim,
    trim_end_char,
    trim_end_matching,
    trim_spec,
};

verus! {

/// The `[jira]` section of the configuration.
#[derive(Debug, Clone, PartialEq, Eq)]
pub struct JiraConfig {
    pub site: String,
    pub email: String,
    pub project: String,
    pub jql: String,
    pub token_env: String,
    pub sprint_field: String,
    pub story_points_field: String,
    pub development_field: String,
    pub status_order: Vec<String>,
    pub refresh_seconds: u64,
    pub worktree_roots: Vec<String>,
    pub browser_command: String,
}

impl JiraConfig {
    /// A configuration with nothing set.
    pub fn empty() -> (r: JiraConfig)
        ensures
            r.site@.len() == 0 && r.email@.len() == 0 && r.project@.len() == 0 && r.jql@.len() == 0
                && r.token_env@.len() == 0,
            r.sprint_field@.len() == 0 && r.story_points_field@.len() == 0 && r.development_field@.len() == 0,
            r.status_order@.len() == 0 && r.refresh_seconds == 0 && r.worktree_roots@.len() == 0,
            r.browser_command@.len() == 0,
    {
        JiraConfig {
            site: String::new(),
            email: String::new(),
            project: String::new(),
            jql: String::new(),
            token_env: String::new(),
            sprint_field: String::new(),
            story_points_field: String::new(),
            development_field: String::new(),
            status_order: Vec::new(),
            refresh_seconds: 0,
            worktree_roots: Vec::new(),
            browser_command: String::new(),
        }
    }
}

/// What the Jira view runs with.
pub struct Setup {
    pub api: JiraApi,
    pub jql: String,
    pub project: String,
    pub browse_base: String,
    pub status_order: Vec<String>,
    pub refresh_seconds: u64,
    pub owner_pane: Option<String>,
    pub worktree_roots: Vec<String>,
    pub browser_command: String,
}

/// The value of the first variable called `name`.
pub open spec fn env_get(env: Seq<(String, String)>, name: Seq<char>) -> Option<Seq<char>>
    decreases env.len(),
{
    if env.len() == 0 {
        None
    } else if env[0].0@ == name {
        Some(env[0].1@)
    } else {
        env_get(env.drop_first(), name)
    }
}

fn env_lookup(env: &Vec<(String, String)>, name: &str) -> (r: Option<String>)
    ensures
        r matches Some(v) ==> env_get(env@, name@) == Some(v@),
        r is None ==> env_get(env@, name@) is None,
{
    let mut i: usize = 0;
    assert(env@.skip(0) =~= env@);
    while i < env.len()
        invariant
            i <= env.len(),
            env_get(env@, name@) == env_get(env@.skip(i as int), name@),
        decreases env.len() - i,
    {
        assert(env@.skip(i as int).drop_first() =~= env@.skip(i + 1));
        assert(env@.skip(i as int)[0] == env@[i as int]);
        if eq_str(env[i].0.as_str(), name) {
            return Some(env[i].1.clone());
        }
        i = i + 1;
    }
    None
}

/// The variable that holds the API token: the configured one, else
/// `JIRA_API_TOKEN`.
pub open spec fn token_env_spec(config: JiraConfig) -> Seq<char> {
    if trim_spec(config.token_env@).len() == 0 {
        "JIRA_API_TOKEN"@
    } else {
        trim_spec(config.token_env@)
    }
}

/// The API token, when its variable holds more than whitespace.
pub open spec fn token_spec(config: JiraConfig, env: Seq<(String, String)>) -> Option<Seq<char>> {
    match env_get(env, token_env_spec(config)) {
        Some(t) => if trim_spec(t).len() > 0 {
            Some(t)
        } else {
            None
        },
        None => None,
    }
}

/// What is missing, each as the setting to add: the site, the email, a
/// project or a query, and the token's variable.
pub open spec fn problems_spec(config: JiraConfig, env: Seq<(String, String)>) -> Seq<Seq<char>> {
    (if trim_spec(config.site@).len() == 0 {
        seq!["[jira] site = \"https://<sua-empresa>.atlassian.net\""@]
    } else {
        Seq::empty()
    }) + (if trim_spec(config.email@).len() == 0 {
        seq!["[jira] email = \"<seu email do Atlassian>\""@]
    } else {
        Seq::empty()
    }) + (if trim_spec(config.project@).len() == 0 && trim_spec(config.jql@).len() == 0 {
        seq!["[jira] project = \"<CHAVE>\" (ou [jira] jql = \"...\")"@]
    } else {
        Seq::empty()
    }) + (if token_spec(config, env) is None {
        seq![
            "variável de ambiente "@ + token_env_spec(config)
                + " com o API token (id.atlassian.com → Security → API tokens), visível para o servidor do herdr"@,
        ]
    } else {
        Seq::empty()
    })
}

/// The site without surrounding whitespace and trailing slashes.
pub open spec fn site_spec(config: JiraConfig) -> Seq<char> {
    trim_end_char(trim_spec(config.site@), '/')
}

/// The issues to show: the configured query, else the open issues of the
/// project assigned to the user, most recently updated first.
pub open spec fn jql_spec(config: JiraConfig) -> Seq<char> {
    if trim_spec(config.jql@).len() == 0 {
        "project = "@ + trim_spec(config.project@)
            + " AND assignee = currentUser() AND statusCategory != Done ORDER BY updated DESC"@
    } else {
        trim_spec(config.jql@)
    }
}

/// The pane the view belongs to: the first of `HERDR_PANEL_OWNER_PANE_ID` and
/// `HERDR_ACTIVE_PANE_ID` that is set and not empty.
pub open spec fn owner_pane_spec(env: Seq<(String, String)>) -> Option<Seq<char>> {
    match env_get(env, "HERDR_PANEL_OWNER_PANE_ID"@) {
        Some(v) if v.len() > 0 => Some(v),
        _ => match env_get(env, "HERDR_ACTIVE_PANE_ID"@) {
            Some(v) if v.len() > 0 => Some(v),
            _ => None,
        },
    }
}

fn non_empty_value(v: Option<String>) -> (r: Option<String>)
    ensures
        crate::split::opt_view(r) == match crate::split::opt_view(v) {
            Some(s) => if s.len() > 0 {
                Some(s)
            } else {
                None
            },
            None => None,
        },
{
    match v {
        Some(s) => if chars_of(s.as_str()).len() > 0 {
            Some(s)
        } else {
            None
        },
        None => None,
    }
}

fn push_literal(out: &mut Vec<String>, text: &str)
    ensures
        crate::split::string_views(final(out)@) == crate::split::string_views(old(out)@).push(text@),
{
    let ghost before = out@;
    out.push(string_of(chars_of(text).as_slice()));
    assert(crate::split::string_views(out@) =~= crate::split::string_views(before).push(text@));
}

/// The settings the view runs with, or the list of what is missing (see
/// [`problems_spec`]); `env` is the environment, first value of a name wins.
pub fn resolve_setup(config: &JiraConfig, env: &Vec<(String, String)>) -> (r: Result<
    Setup,
    Vec<String>,
>)
    ensures
        r matches Err(problems) ==> crate::split::string_views(problems@) == problems_spec(
            *config,
            env@,
        ) && problems@.len() > 0,
        r is Ok <==> problems_spec(*config, env@).len() == 0,
        r matches Ok(setup) ==> {
            &&& setup.api.site@ == site_spec(*config)
            &&& setup.api.email@ == trim_spec(config.email@)
            &&& token_spec(*config, env@) == Some(setup.api.token@)
            &&& setup.jql@ == jql_spec(*config)
            &&& setup.project@ == (if trim_spec(config.project@).len() == 0 {
                "jql"@
            } else {
                trim_spec(config.project@)
            })
            &&& setup.browse_base@ == site_spec(*config) + "/browse/"@
            &&& setup.status_order@ == config.status_order@
            &&& setup.refresh_seconds == config.refresh_seconds
            &&& crate::split::opt_view(setup.owner_pane) == owner_pane_spec(env@)
            &&& setup.worktree_roots@ == config.worktree_roots@
            &&& setup.browser_command@ == config.browser_command@
        },
{
    let mut problems: Vec<String> = Vec::new();
    let site_trim = trim(chars_of(config.site.as_str()).as_slice());
    let email_trim = trim(chars_of(config.email.as_str()).as_slice());
    let project_trim = trim(chars_of(config.project.as_str()).as_slice());
    let jql_trim = trim(chars_of(config.jql.as_str()).as_slice());
    let env_trim = trim(chars_of(config.token_env.as_str()).as_slice());
    assert(crate::split::string_views(problems@) =~= Seq::<Seq<char>>::empty());
    if site_trim.len() == 0 {
        push_literal(&mut problems, "[jira] site = \"https://<sua-empresa>.atlassian.net\"");
    }
    if email_trim.len() == 0 {
        push_literal(&mut problems, "[jira] email = \"<seu email do Atlassian>\"");
    }
    if project_trim.len() == 0 && jql_trim.len() == 0 {
        push_literal(&mut problems, "[jira] project = \"<CHAVE>\" (ou [jira] jql = \"...\")");
    }
    let token_env = if env_trim.len() == 0 {
        string_of(chars_of("JIRA_API_TOKEN").as_slice())
    } else {
        string_of(env_trim.as_slice())
    };
    let token = match env_lookup(env, token_env.as_str()) {
        Some(t) => if trim(chars_of(t.as_str()).as_slice()).len() > 0 {
            Some(t)
        } else {
            None
        },
        None => None,
    };
    if token.is_none() {
        let mut msg = chars_of("variável de ambiente ");
        extend_chars(&mut msg, chars_of(token_env.as_str()).as_slice());
        extend_chars(
            &mut msg,
            chars_of(
                " com o API token (id.atlassian.com → Security → API tokens), visível para o servidor do herdr",
            ).as_slice(),
        );
        let ghost before = problems@;
        problems.push(string_of(msg.as_slice()));
        assert(crate::split::string_views(problems@) =~= crate::split::string_views(before).push(
            msg@,
        ));
    }
    assert(crate::split::string_views(problems@) =~= problems_spec(*config, env@));
    if problems.len() > 0 {
        return Err(problems);
    }
    let token = match token {
        Some(t) => t,
        None => String::new(),
    };
    let site = trim_end_matching(site_trim.as_slice(), '/');
    let jql = if jql_trim.len() == 0 {
        let mut q = chars_of("project = ");
        extend_chars(&mut q, project_trim.as_slice());
        extend_chars(
            &mut q,
            chars_of(" AND assignee = currentUser() AND statusCategory != Done ORDER BY updated DESC").as_slice(),
        );
        string_of(q.as_slice())
    } else {
        string_of(jql_trim.as_slice())
    };
    let project = if project_trim.len() == 0 {
        string_of(chars_of("jql").as_slice())
    } else {
        string_of(project_trim.as_slice())
    };
    let mut browse = site.clone();
    extend_chars(&mut browse, chars_of("/browse/").as_slice());
    let first = non_empty_value(env_lookup(env, "HERDR_PANEL_OWNER_PANE_ID"));
    let owner_pane = if first.is_some() {
        first
    } else {
        non_empty_value(env_lookup(env, "HERDR_ACTIVE_PANE_ID"))
    };
    let site_str = string_of(site.as_slice());
    let email_str = string_of(email_trim.as_slice());
    let api = JiraApi::new(
        site_str.as_str(),
        email_str.as_str(),
        token,
        DetailFields {
            sprint: config.sprint_field.clone(),
            story_points: config.story_points_field.clone(),
            development: config.development_field.clone(),
        },
    );
    proof {
        crate::text::lemma_trim_end_twice(trim_spec(config.site@), '/');
    }
    Ok(
        Setup {
            api,
            jql,
            project,
            browse_base: string_of(browse.as_slice()),
            status_order: duplicate_strings(&config.status_order),
            refresh_seconds: config.refresh_seconds,
            owner_pane,
            worktree_roots: duplicate_strings(&config.worktree_roots),
            browser_command: config.browser_command.clone(),
        },
    )
}

} // verus!
