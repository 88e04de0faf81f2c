//! Bulk templating: one template rendered for every project of a manifest.

use vstd::prelude::*;
use vstd::string::*;
use crate::OverlayError;
use crate::manifest::{
    Manifest, Project, ProjectView, Remote, RemoteView, projects_view, remotes_view,
};
use crate::subst::{substitute, substituted, vars_view};

verus! {

/// The last remote of `rs` named `name`, if any.
pub open spec fn find_remote(rs: Seq<RemoteView>, name: Seq<char>) -> Option<RemoteView>
    decreases rs.len(),
{
    if rs.len() == 0 {
        None
    } else if rs.last().name == name {
        Some(rs.last())
    } else {
        find_remote(rs.drop_last(), name)
    }
}

/// The variables that a remote found by name contributes: its push URL if it
/// has one, then its fetch URL.
pub open spec fn remote_url_vars(r: Option<RemoteView>) -> Seq<(Seq<char>, Seq<char>)> {
    match r {
        None => Seq::empty(),
        Some(r) => match r.push {
            Some(u) => seq![("push_url"@, u), ("fetch_url"@, r.fetch)],
            None => seq![("fetch_url"@, r.fetch)],
        },
    }
}

/// The variable context of project `p`: `remote_name` and the remote's URLs
/// where it names a remote, then `project_name`.
pub open spec fn project_vars(p: ProjectView, rs: Seq<RemoteView>) -> Seq<(Seq<char>, Seq<char>)> {
    let head = match p.remote {
        None => Seq::empty(),
        Some(rn) => seq![("remote_name"@, rn)] + remote_url_vars(find_remote(rs, rn)),
    };
    head.push(("project_name"@, p.name))
}

/// The template rendered for each project in turn and concatenated; `None`
/// when any rendering fails.
pub open spec fn rendered(t: Seq<char>, ps: Seq<ProjectView>, rs: Seq<RemoteView>) -> Option<
    Seq<char>,
>
    decreases ps.len(),
{
    if ps.len() == 0 {
        Some(Seq::empty())
    } else {
        match rendered(t, ps.drop_last(), rs) {
            None => None,
            Some(out) => match substituted(t, project_vars(ps.last(), rs)) {
                None => None,
                Some(s) => Some(out + s),
            },
        }
    }
}

/// The last remote of `remotes` named `name`.
fn find_remote_exec(remotes: &Vec<Remote>, name: &String) -> (r: Option<usize>)
    ensures
        match r {
            Some(i) => i < remotes@.len() && find_remote(remotes_view(remotes@), name@) == Some(
                remotes@[i as int]@,
            ),
            None => find_remote(remotes_view(remotes@), name@) is None,
        },
{
    let ghost rs = remotes_view(remotes@);
    let mut found: Option<usize> = None;
    let mut i: usize = 0;
    while i < remotes.len()
        invariant
            i <= remotes@.len(),
            rs == remotes_view(remotes@),
            match found {
                Some(j) => j < i && find_remote(rs.subrange(0, i as int), name@) == Some(
                    remotes@[j as int]@,
                ),
                None => find_remote(rs.subrange(0, i as int), name@) is None,
            },
        decreases remotes.len() - i,
    {
        assert(rs.subrange(0, i + 1 as int).drop_last() =~= rs.subrange(0, i as int));
        if remotes[i].name == *name {
            found = Some(i);
        }
        i = i + 1;
    }
    assert(rs.subrange(0, i as int) =~= rs);
    found
}

/// The variable context of `project` among `remotes`.
pub fn project_context(project: &Project, remotes: &Vec<Remote>) -> (r: Vec<(String, String)>)
    ensures
        vars_view(r@) == project_vars(project@, remotes_view(remotes@)),
{
    let mut vars: Vec<(String, String)> = Vec::new();
    let ghost mut head: Seq<(Seq<char>, Seq<char>)> = Seq::empty();
    match &project.remote {
        None => {},
        Some(rn) => {
            vars.push((String::from_str("remote_name"), rn.clone()));
            match find_remote_exec(remotes, rn) {
                None => {},
                Some(i) => {
                    let remote = &remotes[i];
                    match &remote.push {
                        None => {},
                        Some(u) => {
                            vars.push((String::from_str("push_url"), u.clone()));
                        },
                    }
                    vars.push((String::from_str("fetch_url"), remote.fetch.clone()));
                },
            }
            proof {
                head = seq![("remote_name"@, rn@)] + remote_url_vars(
                    find_remote(remotes_view(remotes@), rn@),
                );
            }
        },
    }
    assert(vars_view(vars@) =~= head);
    vars.push((String::from_str("project_name"), project.name.clone()));
    assert(vars_view(vars@) =~= head.push(("project_name"@, project.name@)));
    vars
}

/// Renders `template` once for each project of `manifest`, in order, and
/// concatenates the results. Nothing is returned unless every rendering
/// succeeds.
pub fn render_projects(manifest: &Manifest, template: &str) -> (r: Result<String, OverlayError>)
    ensures
        match r {
            Ok(s) => rendered(
                template@,
                projects_view(manifest.projects@),
                remotes_view(manifest.remotes@),
            ) == Some(s@),
            Err(e) => rendered(
                template@,
                projects_view(manifest.projects@),
                remotes_view(manifest.remotes@),
            ) is None && e == OverlayError::Substitution,
        },
{
    let ghost ps = projects_view(manifest.projects@);
    let ghost rs = remotes_view(manifest.remotes@);
    let mut out = String::new();
    let mut i: usize = 0;
    assert(ps.subrange(0, 0) =~= Seq::<ProjectView>::empty());
    while i < manifest.projects.len()
        invariant
            i <= manifest.projects@.len(),
            ps == projects_view(manifest.projects@),
            rs == remotes_view(manifest.remotes@),
            rendered(template@, ps.subrange(0, i as int), rs) == Some(out@),
        decreases manifest.projects.len() - i,
    {
        let ghost pre = ps.subrange(0, i + 1 as int);
        assert(pre.drop_last() =~= ps.subrange(0, i as int));
        let vars = project_context(&manifest.projects[i], &manifest.remotes);
        match substitute(template, &vars) {
            Err(e) => {
                proof {
                    lemma_rendered_none(template@, rs, pre, ps);
                }
                return Err(e);
            },
            Ok(s) => {
                out.append(s.as_str());
            },
        }
        i = i + 1;
    }
    assert(ps.subrange(0, i as int) =~= ps);
    Ok(out)
}

/// A failure among the first projects is a failure of all of them.
proof fn lemma_rendered_none(
    t: Seq<char>,
    rs: Seq<RemoteView>,
    pre: Seq<ProjectView>,
    all: Seq<ProjectView>,
)
    requires
        rendered(t, pre, rs) is None,
        pre.len() <= all.len(),
        pre == all.subrange(0, pre.len() as int),
    ensures
        rendered(t, all, rs) is None,
    decreases all.len() - pre.len(),
{
    if pre.len() < all.len() {
        let next = all.subrange(0, pre.len() + 1 as int);
        assert(next.drop_last() =~= pre);
        lemma_rendered_none(t, rs, next, all);
    } else {
        assert(pre =~= all);
    }
}

/// A project whose rendering fails leaves no output for any project: the
/// bulk rendering fails as a whole.
pub proof fn lemma_failed_project_fails_render(
    t: Seq<char>,
    ps: Seq<ProjectView>,
    rs: Seq<RemoteView>,
    i: int,
)
    requires
        0 <= i < ps.len(),
        substituted(t, project_vars(ps[i], rs)) is None,
    ensures
        rendered(t, ps, rs) is None,
{
    let pre = ps.subrange(0, i + 1);
    assert(pre.drop_last() =~= ps.subrange(0, i));
    assert(pre.last() == ps[i]);
    lemma_rendered_none(t, rs, pre, ps);
}

} // verus!
