use repo_local_manifest::bulk::{project_context, render_projects};
use repo_local_manifest::config::{read_dot_env, split_once};
use repo_local_manifest::manifest::{Manifest, Project, Remote, ReviewProtocol};
use repo_local_manifest::resolve::{local_manifest, resolve_remote, Overrides};
use repo_local_manifest::subst::substitute;
use repo_local_manifest::OverlayError;

fn upstream_remote(name: &str, fetch: &str, push: Option<&str>) -> Remote {
    Remote {
        name: name.to_string(),
        fetch: fetch.to_string(),
        push: push.map(|p| p.to_string()),
        review: None,
        review_protocol: None,
        force_override: false,
    }
}

fn project(name: &str, remote: Option<&str>) -> Project {
    Project { name: name.to_string(), remote: remote.map(|r| r.to_string()) }
}

fn vars(pairs: &[(&str, &str)]) -> Vec<(String, String)> {
    pairs.iter().map(|(k, v)| (k.to_string(), v.to_string())).collect()
}

#[test]
fn config_push_url_is_templated_by_remote_name() {
    let config = "fetch_url=https://example.com/x.git\npush_url=ssh://${remote_name}/push";
    let r = resolve_remote("origin", config, &Overrides::default()).unwrap();
    assert_eq!(r.push.as_deref(), Some("ssh://origin/push"));
    assert_eq!(r.name, "origin");
    assert!(r.force_override);
}

#[test]
fn cli_fetch_url_overrides_config() {
    let config = "fetch_url=https://example.com/${remote_name}.git";
    let ov = Overrides {
        fetch_url: Some("https://override.example/x.git".to_string()),
        ..Overrides::default()
    };
    let r = resolve_remote("origin", config, &ov).unwrap();
    assert_eq!(r.fetch, "https://override.example/x.git");
    let plain = resolve_remote("origin", config, &Overrides::default()).unwrap();
    assert_eq!(plain.fetch, "https://example.com/origin.git");
}

#[test]
fn line_without_equals_fails_config_format() {
    let config = "fetch_url=https://example.com/x.git\nbadline\n";
    assert_eq!(
        resolve_remote("origin", config, &Overrides::default()).unwrap_err(),
        OverlayError::ConfigFileFormat
    );
    let upstream = Manifest {
        remotes: vec![upstream_remote("origin", "https://up/x.git", None)],
        projects: vec![],
    };
    assert_eq!(
        local_manifest(&upstream, config, &Overrides::default()).unwrap_err(),
        OverlayError::ConfigFileFormat
    );
}

#[test]
fn missing_fetch_url_fails_fetch_required() {
    let config = "push_url=ssh://${remote_name}/push\n";
    assert_eq!(
        resolve_remote("origin", config, &Overrides::default()).unwrap_err(),
        OverlayError::FetchRequired
    );
    let ov = Overrides { push_url: Some("ssh://p".to_string()), ..Overrides::default() };
    assert_eq!(resolve_remote("origin", "", &ov).unwrap_err(), OverlayError::FetchRequired);
}

#[test]
fn empty_fetch_url_fails_fetch_required() {
    assert_eq!(
        resolve_remote("origin", "fetch_url=", &Overrides::default()).unwrap_err(),
        OverlayError::FetchRequired
    );
}

#[test]
fn bulk_template_renders_each_project() {
    let m = Manifest {
        remotes: vec![upstream_remote("origin", "https://example.com/app.git", None)],
        projects: vec![project("app", Some("origin"))],
    };
    let out = render_projects(&m, "project=${project_name} remote=${remote_name}\n").unwrap();
    assert_eq!(out, "project=app remote=origin\n");
}

#[test]
fn bulk_template_concatenates_in_order() {
    let m = Manifest {
        remotes: vec![
            upstream_remote("origin", "https://o/f", Some("ssh://o/p")),
            upstream_remote("mirror", "https://m/f", None),
        ],
        projects: vec![project("a", Some("origin")), project("b", Some("mirror"))],
    };
    let out = render_projects(&m, "${project_name}:${fetch_url};").unwrap();
    assert_eq!(out, "a:https://o/f;b:https://m/f;");
    let pushes = render_projects(&m, "${push_url}");
    assert_eq!(pushes.unwrap_err(), OverlayError::Substitution);
}

#[test]
fn bulk_context_omits_urls_of_unknown_remote() {
    let remotes = vec![upstream_remote("origin", "https://o/f", Some("ssh://o/p"))];
    let known = project_context(&project("a", Some("origin")), &remotes);
    assert_eq!(
        known,
        vars(&[
            ("remote_name", "origin"),
            ("push_url", "ssh://o/p"),
            ("fetch_url", "https://o/f"),
            ("project_name", "a"),
        ])
    );
    let dangling = project_context(&project("b", Some("gone")), &remotes);
    assert_eq!(dangling, vars(&[("remote_name", "gone"), ("project_name", "b")]));
    let bare = project_context(&project("c", None), &remotes);
    assert_eq!(bare, vars(&[("project_name", "c")]));
}

#[test]
fn bulk_with_no_projects_is_empty() {
    let m = Manifest { remotes: vec![], projects: vec![] };
    assert_eq!(render_projects(&m, "${project_name}").unwrap(), "");
}

#[test]
fn substitution_replaces_every_occurrence() {
    let out = substitute("${a}-${b}-${a}", &vars(&[("a", "x"), ("b", "y")])).unwrap();
    assert_eq!(out, "x-y-x");
    assert_eq!(substitute("plain text", &vars(&[])).unwrap(), "plain text");
}

#[test]
fn substitution_is_all_or_nothing() {
    let v = vars(&[("remote_name", "origin")]);
    assert_eq!(substitute("${remote_name} ${other}", &v).unwrap_err(), OverlayError::Substitution);
    assert_eq!(substitute("${remote_name", &v).unwrap_err(), OverlayError::Substitution);
    assert_eq!(substitute("${x}", &vars(&[])).unwrap_err(), OverlayError::Substitution);
}

#[test]
fn substitution_rejects_forbidden_characters() {
    assert_eq!(
        substitute("${a}", &vars(&[("a", "x}")])).unwrap_err(),
        OverlayError::Substitution
    );
    assert_eq!(
        resolve_remote("or$gin", "fetch_url=f", &Overrides::default()).unwrap_err(),
        OverlayError::Substitution
    );
}

#[test]
fn split_once_splits_at_first_delimiter() {
    assert_eq!(split_once("a=b=c", '='), Some(("a", "b=c")));
    assert_eq!(split_once("=x", '='), Some(("", "x")));
    assert_eq!(split_once("none", '='), None);
    assert_eq!(split_once("", '='), None);
}

#[test]
fn dot_env_reads_lines_and_keeps_last_value() {
    let m = read_dot_env("a=1\r\nb=x=y\na=2\n").unwrap();
    assert_eq!(m.get("a").as_deref(), Some("2"));
    assert_eq!(m.get("b").as_deref(), Some("x=y"));
    assert_eq!(m.get("c"), None);
    assert!(read_dot_env("").unwrap().get("a").is_none());
}

#[test]
fn dot_env_rejects_empty_line() {
    assert_eq!(read_dot_env("a=1\n\nb=2").err(), Some(OverlayError::ConfigFileFormat));
}

#[test]
fn review_protocol_is_parsed() {
    let ov = Overrides {
        review_protocol: Some("gerrit".to_string()),
        review_url: Some("https://review/${remote_name}".to_string()),
        ..Overrides::default()
    };
    let r = resolve_remote("origin", "fetch_url=f", &ov).unwrap();
    assert_eq!(r.review_protocol, Some(ReviewProtocol::Gerrit));
    assert_eq!(r.review.as_deref(), Some("https://review/origin"));
    let bad = Overrides { review_protocol: Some("carrier-pigeon".to_string()), ..Overrides::default() };
    assert_eq!(
        resolve_remote("origin", "fetch_url=f", &bad).unwrap_err(),
        OverlayError::ReviewProtocol
    );
    assert_eq!(ReviewProtocol::parse("agit"), Some(ReviewProtocol::AGit));
    assert_eq!(ReviewProtocol::parse("Gerrit"), None);
}

#[test]
fn local_manifest_rewrites_remotes_in_order() {
    let upstream = Manifest {
        remotes: vec![
            upstream_remote("origin", "https://up/o", None),
            upstream_remote("mirror", "https://up/m", None),
        ],
        projects: vec![project("a", Some("origin"))],
    };
    let config = "fetch_url=https://local/${remote_name}\n";
    let out = local_manifest(&upstream, config, &Overrides::default()).unwrap();
    assert!(out.projects.is_empty());
    let names: Vec<&str> = out.remotes.iter().map(|r| r.name.as_str()).collect();
    assert_eq!(names, vec!["origin", "mirror"]);
    assert_eq!(out.remotes[1].fetch, "https://local/mirror");
    let again = local_manifest(&upstream, config, &Overrides::default()).unwrap();
    assert_eq!(format!("{:?}", out), format!("{:?}", again));
}

#[test]
fn local_manifest_fails_whole_file_on_one_remote() {
    let upstream = Manifest {
        remotes: vec![
            upstream_remote("origin", "https://up/o", None),
            upstream_remote("mirror", "https://up/m", None),
        ],
        projects: vec![],
    };
    let config = "fetch_url=https://local/${remote_name}\nreview_protocol=${remote_name}\n";
    let ov = Overrides::default();
    assert_eq!(local_manifest(&upstream, config, &ov).unwrap_err(), OverlayError::ReviewProtocol);
}

#[test]
fn resolution_is_deterministic() {
    let config = "fetch_url=https://e/${remote_name}\npush_url=ssh://p";
    let ov = Overrides { review_url: Some("r".to_string()), ..Overrides::default() };
    let a = resolve_remote("origin", config, &ov).unwrap();
    let b = resolve_remote("origin", config, &ov).unwrap();
    assert_eq!(format!("{:?}", a), format!("{:?}", b));
}

#[test]
fn review_protocol_tag_round_trips() {
    for p in [ReviewProtocol::Gerrit, ReviewProtocol::AGit] {
        assert_eq!(ReviewProtocol::parse(p.tag()), Some(p));
    }
    assert_eq!(ReviewProtocol::Gerrit.tag(), "gerrit");
}
