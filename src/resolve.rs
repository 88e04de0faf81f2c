//! The config overlay: a remote's effective connection parameters, from the
//! config file and the command-line overrides, and the local manifest that
//! holds the rewritten remotes.

use vstd::prelude::*;
use vstd::string::*;
use crate::OverlayError;
use crate::config::{Settings, read_dot_env, parsed_config, lines_of, lemma_line_without_separator_fails};
use crate::manifest::{
    Manifest, Remote, RemoteView, ReviewProtocol, protocol_of, opt_view, remotes_view,
};
use crate::subst::{substitute, substituted, vars_view};

verus! {

/// Values given on the command line; each one wins over the config file.
#[derive(Debug, Clone, Default)]
pub struct Overrides {
    pub push_url: Option<String>,
    pub fetch_url: Option<String>,
    pub review_url: Option<String>,
    pub review_protocol: Option<String>,
}

/// The variable context of a remote: its name.
pub open spec fn remote_vars(name: Seq<char>) -> Seq<(Seq<char>, Seq<char>)> {
    seq![("remote_name"@, name)]
}

/// `m` with `key` set to `value` substituted through `vars`, where a value
/// is given.
pub open spec fn with_override(
    m: Result<Map<Seq<char>, Seq<char>>, OverlayError>,
    key: Seq<char>,
    value: Option<Seq<char>>,
    vars: Seq<(Seq<char>, Seq<char>)>,
) -> Result<Map<Seq<char>, Seq<char>>, OverlayError> {
    match m {
        Err(e) => Err(e),
        Ok(m) => match value {
            None => Ok(m),
            Some(v) => match substituted(v, vars) {
                None => Err(OverlayError::Substitution),
                Some(s) => Ok(m.insert(key, s)),
            },
        },
    }
}

/// The effective settings of the remote `name`: the config text substituted
/// through the remote's context and read as `key=value` lines, then each
/// override given, substituted the same way, set over it.
pub open spec fn effective_settings(name: Seq<char>, config: Seq<char>, ov: Overrides) -> Result<
    Map<Seq<char>, Seq<char>>,
    OverlayError,
> {
    let vars = remote_vars(name);
    match substituted(config, vars) {
        None => Err(OverlayError::Substitution),
        Some(text) => match parsed_config(text) {
            None => Err(OverlayError::ConfigFileFormat),
            Some(m) => {
                let m1 = with_override(Ok(m), "push_url"@, opt_view(ov.push_url), vars);
                let m2 = with_override(m1, "fetch_url"@, opt_view(ov.fetch_url), vars);
                let m3 = with_override(m2, "review_url"@, opt_view(ov.review_url), vars);
                with_override(m3, "review_protocol"@, opt_view(ov.review_protocol), vars)
            },
        },
    }
}

/// The value of `key` in `m`, if it has one.
pub open spec fn lookup(m: Map<Seq<char>, Seq<char>>, key: Seq<char>) -> Option<Seq<char>> {
    if m.contains_key(key) {
        Some(m[key])
    } else {
        None
    }
}

/// The remote that `name` resolves to: a non-empty `fetch_url` is required,
/// and a `review_protocol` must name a known protocol.
pub open spec fn resolved(name: Seq<char>, config: Seq<char>, ov: Overrides) -> Result<
    RemoteView,
    OverlayError,
> {
    match effective_settings(name, config, ov) {
        Err(e) => Err(e),
        Ok(m) => if !m.contains_key("fetch_url"@) || m["fetch_url"@].len() == 0 {
            Err(OverlayError::FetchRequired)
        } else if m.contains_key("review_protocol"@) && protocol_of(m["review_protocol"@]) is None {
            Err(OverlayError::ReviewProtocol)
        } else {
            Ok(
                RemoteView {
                    name,
                    fetch: m["fetch_url"@],
                    push: lookup(m, "push_url"@),
                    review: lookup(m, "review_url"@),
                    review_protocol: match lookup(m, "review_protocol"@) {
                        Some(p) => protocol_of(p),
                        None => None,
                    },
                    force_override: true,
                },
            )
        },
    }
}

/// The remotes that `names` resolve to, in order; the first failure fails
/// them all.
pub open spec fn resolved_all(names: Seq<Seq<char>>, config: Seq<char>, ov: Overrides) -> Result<
    Seq<RemoteView>,
    OverlayError,
>
    decreases names.len(),
{
    if names.len() == 0 {
        Ok(Seq::empty())
    } else {
        match resolved_all(names.drop_last(), config, ov) {
            Err(e) => Err(e),
            Ok(rs) => match resolved(names.last(), config, ov) {
                Err(e) => Err(e),
                Ok(r) => Ok(rs.push(r)),
            },
        }
    }
}

/// The names of `rs`, in order.
pub open spec fn names_of(rs: Seq<RemoteView>) -> Seq<Seq<char>> {
    rs.map_values(|r: RemoteView| r.name)
}

/// Sets `key` to `value` substituted through `vars`, where a value is given.
fn set_override(
    m: &mut Settings,
    key: &str,
    value: &Option<String>,
    vars: &Vec<(String, String)>,
) -> (r: Result<(), OverlayError>)
    requires
        old(m).wf(),
    ensures
        final(m).wf(),
        match r {
            Ok(_) => with_override(Ok(old(m)@), key@, opt_view(*value), vars_view(vars@)) == Ok::<
                Map<Seq<char>, Seq<char>>,
                OverlayError,
            >(final(m)@),
            Err(e) => with_override(Ok(old(m)@), key@, opt_view(*value), vars_view(vars@)) == Err::<
                Map<Seq<char>, Seq<char>>,
                OverlayError,
            >(e),
        },
{
    match value {
        None => Ok(()),
        Some(v) => match substitute(v.as_str(), vars) {
            Err(e) => Err(e),
            Ok(s) => {
                m.insert(String::from_str(key), s);
                Ok(())
            },
        },
    }
}

/// Resolves the remote `name` against the config text and the overrides.
pub fn resolve_remote(name: &str, config: &str, ov: &Overrides) -> (r: Result<Remote, OverlayError>)
    ensures
        match r {
            Ok(remote) => resolved(name@, config@, *ov) == Ok::<RemoteView, OverlayError>(remote@),
            Err(e) => resolved(name@, config@, *ov) == Err::<RemoteView, OverlayError>(e),
        },
{
    let vars = vec![(String::from_str("remote_name"), String::from_str(name))];
    assert(vars_view(vars@) =~= remote_vars(name@));
    let text = match substitute(config, &vars) {
        Ok(t) => t,
        Err(e) => return Err(e),
    };
    let mut m = match read_dot_env(text.as_str()) {
        Ok(m) => m,
        Err(e) => return Err(e),
    };
    if let Err(e) = set_override(&mut m, "push_url", &ov.push_url, &vars) {
        return Err(e);
    }
    if let Err(e) = set_override(&mut m, "fetch_url", &ov.fetch_url, &vars) {
        return Err(e);
    }
    if let Err(e) = set_override(&mut m, "review_url", &ov.review_url, &vars) {
        return Err(e);
    }
    if let Err(e) = set_override(&mut m, "review_protocol", &ov.review_protocol, &vars) {
        return Err(e);
    }
    let fetch = match m.get("fetch_url") {
        None => return Err(OverlayError::FetchRequired),
        Some(f) => f,
    };
    if fetch.as_str().unicode_len() == 0 {
        return Err(OverlayError::FetchRequired);
    }
    let review_protocol = match m.get("review_protocol") {
        None => None,
        Some(p) => match ReviewProtocol::parse(p.as_str()) {
            None => return Err(OverlayError::ReviewProtocol),
            Some(p) => Some(p),
        },
    };
    let push = m.get("push_url");
    let review = m.get("review_url");
    let remote = Remote {
        name: String::from_str(name),
        fetch,
        push,
        review,
        review_protocol,
        force_override: true,
    };
    assert(opt_view(push) == lookup(m@, "push_url"@));
    assert(opt_view(review) == lookup(m@, "review_url"@));
    Ok(remote)
}

/// The local manifest of `upstream`: each of its remotes rewritten, in
/// order, and no projects. The first remote that fails fails it all.
pub fn local_manifest(upstream: &Manifest, config: &str, ov: &Overrides) -> (r: Result<
    Manifest,
    OverlayError,
>)
    ensures
        match r {
            Ok(m) => resolved_all(names_of(remotes_view(upstream.remotes@)), config@, *ov) == Ok::<
                Seq<RemoteView>,
                OverlayError,
            >(remotes_view(m.remotes@)) && m.projects@.len() == 0,
            Err(e) => resolved_all(names_of(remotes_view(upstream.remotes@)), config@, *ov)
                == Err::<Seq<RemoteView>, OverlayError>(e),
        },
{
    let ghost names = names_of(remotes_view(upstream.remotes@));
    let mut remotes: Vec<Remote> = Vec::new();
    let mut i: usize = 0;
    assert(names.subrange(0, 0) =~= Seq::<Seq<char>>::empty());
    assert(remotes_view(remotes@) =~= Seq::<RemoteView>::empty());
    while i < upstream.remotes.len()
        invariant
            i <= upstream.remotes@.len(),
            names == names_of(remotes_view(upstream.remotes@)),
            resolved_all(names.subrange(0, i as int), config@, *ov) == Ok::<
                Seq<RemoteView>,
                OverlayError,
            >(remotes_view(remotes@)),
        decreases upstream.remotes.len() - i,
    {
        let ghost pre = names.subrange(0, i + 1 as int);
        assert(pre.drop_last() =~= names.subrange(0, i as int));
        assert(pre.last() == upstream.remotes@[i as int].name@);
        match resolve_remote(upstream.remotes[i].name.as_str(), config, ov) {
            Err(e) => {
                proof {
                    lemma_resolved_all_err(config@, *ov, pre, names, e);
                }
                return Err(e);
            },
            Ok(remote) => {
                let ghost before = remotes_view(remotes@);
                let ghost rv = remote@;
                remotes.push(remote);
                assert(remotes_view(remotes@) =~= before.push(rv));
            },
        }
        i = i + 1;
    }
    assert(names.subrange(0, i as int) =~= names);
    Ok(Manifest { remotes, projects: Vec::new() })
}

/// A failure among the first remotes is the failure of all of them.
proof fn lemma_resolved_all_err(
    config: Seq<char>,
    ov: Overrides,
    pre: Seq<Seq<char>>,
    all: Seq<Seq<char>>,
    e: OverlayError,
)
    requires
        resolved_all(pre, config, ov) == Err::<Seq<RemoteView>, OverlayError>(e),
        pre.len() <= all.len(),
        pre == all.subrange(0, pre.len() as int),
    ensures
        resolved_all(all, config, ov) == Err::<Seq<RemoteView>, OverlayError>(e),
    decreases all.len() - pre.len(),
{
    if pre.len() < all.len() {
        let next = all.subrange(0, pre.len() + 1 as int);
        assert(next.drop_last() =~= pre);
        lemma_resolved_all_err(config, ov, next, all, e);
    } else {
        assert(pre =~= all);
    }
}

/// Whether two sets of overrides give the same values.
pub open spec fn same_overrides(a: Overrides, b: Overrides) -> bool {
    &&& opt_view(a.push_url) == opt_view(b.push_url)
    &&& opt_view(a.fetch_url) == opt_view(b.fetch_url)
    &&& opt_view(a.review_url) == opt_view(b.review_url)
    &&& opt_view(a.review_protocol) == opt_view(b.review_protocol)
}

/// Resolution is deterministic: the same remote name, config text and
/// override values give the same outcome every time.
pub proof fn lemma_resolution_deterministic(
    name: Seq<char>,
    config: Seq<char>,
    ov1: Overrides,
    ov2: Overrides,
)
    requires
        same_overrides(ov1, ov2),
    ensures
        resolved(name, config, ov1) == resolved(name, config, ov2),
{
}

/// The local manifest is a function of its inputs: generating it again from
/// the same remotes, config text and override values gives the same remotes,
/// in the same order, or the same failure.
pub proof fn lemma_local_manifest_idempotent(
    names: Seq<Seq<char>>,
    config: Seq<char>,
    ov1: Overrides,
    ov2: Overrides,
)
    requires
        same_overrides(ov1, ov2),
    ensures
        resolved_all(names, config, ov1) == resolved_all(names, config, ov2),
    decreases names.len(),
{
    if names.len() > 0 {
        lemma_local_manifest_idempotent(names.drop_last(), config, ov1, ov2);
        lemma_resolution_deterministic(names.last(), config, ov1, ov2);
    }
}

/// A command-line `fetch_url`, `push_url` or `review_url` wins over the
/// config file: a resolved remote holds the override, substituted through the
/// remote's context.
pub proof fn lemma_cli_overrides_config(name: Seq<char>, config: Seq<char>, ov: Overrides)
    ensures
        resolved(name, config, ov) matches Ok(r) ==> {
            &&& (opt_view(ov.fetch_url) matches Some(u) ==> substituted(u, remote_vars(name)) == Some(
                r.fetch,
            ))
            &&& (opt_view(ov.push_url) matches Some(u) ==> r.push == substituted(
                u,
                remote_vars(name),
            ))
            &&& (opt_view(ov.review_url) matches Some(u) ==> r.review == substituted(
                u,
                remote_vars(name),
            ))
        },
{
    reveal_strlit("push_url");
    reveal_strlit("fetch_url");
    reveal_strlit("review_url");
    reveal_strlit("review_protocol");
    assert("push_url"@.len() != "fetch_url"@.len());
    assert("review_url"@.len() != "fetch_url"@.len());
    assert("review_protocol"@.len() != "fetch_url"@.len());
    assert("review_protocol"@.len() != "push_url"@.len());
    assert("review_url"@.len() != "push_url"@.len());
    assert("review_protocol"@.len() != "review_url"@.len());
}

/// A config text that, once substituted for the remote, has a line without
/// `=` fails with `ConfigFileFormat`, whatever the overrides.
pub proof fn lemma_line_without_separator_rejected(
    name: Seq<char>,
    config: Seq<char>,
    ov: Overrides,
    text: Seq<char>,
    i: int,
)
    requires
        substituted(config, remote_vars(name)) == Some(text),
        0 <= i < lines_of(text).len(),
        !lines_of(text)[i].contains('='),
    ensures
        resolved(name, config, ov) == Err::<RemoteView, OverlayError>(OverlayError::ConfigFileFormat),
{
    lemma_line_without_separator_fails(lines_of(text), i);
}

/// A remote whose effective settings have no `fetch_url` fails with
/// `FetchRequired`.
pub proof fn lemma_missing_fetch_rejected(
    name: Seq<char>,
    config: Seq<char>,
    ov: Overrides,
    m: Map<Seq<char>, Seq<char>>,
)
    requires
        effective_settings(name, config, ov) == Ok::<Map<Seq<char>, Seq<char>>, OverlayError>(m),
        !m.contains_key("fetch_url"@),
    ensures
        resolved(name, config, ov) == Err::<RemoteView, OverlayError>(OverlayError::FetchRequired),
{
}

/// One remote that fails fails the whole local manifest: no partial set of
/// remotes is ever produced.
pub proof fn lemma_failed_remote_aborts_manifest(
    names: Seq<Seq<char>>,
    config: Seq<char>,
    ov: Overrides,
    i: int,
)
    requires
        0 <= i < names.len(),
        resolved(names[i], config, ov) is Err,
    ensures
        resolved_all(names, config, ov) is Err,
{
    let pre = names.subrange(0, i + 1);
    assert(pre.drop_last() =~= names.subrange(0, i));
    assert(pre.last() == names[i]);
    let e = resolved_all(pre, config, ov)->Err_0;
    lemma_resolved_all_err(config, ov, pre, names, e);
}

} // verus!
