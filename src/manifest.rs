//! The manifest data that the pipelines read and build: remotes and projects.

use vstd::prelude::*;

verus! {

/// The review protocols that a remote may name.
#[derive(Debug, Clone, Copy, PartialEq, Eq, Structural)]
pub enum ReviewProtocol {
    Gerrit,
    AGit,
}

/// The protocol that a `review_protocol` value names, if any.
pub open spec fn protocol_of(s: Seq<char>) -> Option<ReviewProtocol> {
    if s == "gerrit"@ {
        Some(ReviewProtocol::Gerrit)
    } else if s == "agit"@ {
        Some(ReviewProtocol::AGit)
    } else {
        None
    }
}

/// The characters of an optional string.
pub open spec fn opt_view(o: Option<String>) -> Option<Seq<char>> {
    match o {
        Some(s) => Some(s@),
        None => None,
    }
}

/// Whether `a` and `b` hold the same characters.
pub fn same_text(a: &str, b: &str) -> (r: bool)
    ensures
        r == (a@ == b@),
{
    let x = crate::subst::chars_of(a);
    let y = crate::subst::chars_of(b);
    if x.len() != y.len() {
        return false;
    }
    let mut i: usize = 0;
    while i < x.len()
        invariant
            x@.len() == y@.len(),
            x@ == a@,
            y@ == b@,
            i <= x@.len(),
            forall|q: int| 0 <= q < i ==> x@[q] == y@[q],
        decreases x.len() - i,
    {
        if x[i] != y[i] {
            assert(x@[i as int] != y@[i as int]);
            return false;
        }
        i = i + 1;
    }
    assert(x@ =~= y@);
    true
}

impl ReviewProtocol {
    /// Reads a protocol tag, `gerrit` or `agit`; `None` for any other text.
    pub fn parse(s: &str) -> (r: Option<ReviewProtocol>)
        ensures
            r == protocol_of(s@),
    {
        if same_text(s, "gerrit") {
            Some(ReviewProtocol::Gerrit)
        } else if same_text(s, "agit") {
            Some(ReviewProtocol::AGit)
        } else {
            None
        }
    }

    /// The tag that names this protocol.
    pub fn tag(&self) -> (r: &'static str)
        ensures
            protocol_of(r@) == Some(*self),
    {
        proof {
            reveal_strlit("gerrit");
            reveal_strlit("agit");
        }
        match self {
            ReviewProtocol::Gerrit => {
                let r = "gerrit";
                assert(r@ == "gerrit"@);
                r
            },
            ReviewProtocol::AGit => {
                let r = "agit";
                assert(r@ == "agit"@);
                assert(r@.len() != "gerrit"@.len());
                r
            },
        }
    }
}

/// A named remote with its connection parameters.
#[derive(Debug, Clone)]
pub struct Remote {
    pub name: String,
    pub fetch: String,
    pub push: Option<String>,
    pub review: Option<String>,
    pub review_protocol: Option<ReviewProtocol>,
    /// Marks a remote that overrides the upstream one of the same name.
    pub force_override: bool,
}

/// A remote as plain values.
pub struct RemoteView {
    pub name: Seq<char>,
    pub fetch: Seq<char>,
    pub push: Option<Seq<char>>,
    pub review: Option<Seq<char>>,
    pub review_protocol: Option<ReviewProtocol>,
    pub force_override: bool,
}

impl View for Remote {
    type V = RemoteView;

    open spec fn view(&self) -> RemoteView {
        RemoteView {
            name: self.name@,
            fetch: self.fetch@,
            push: opt_view(self.push),
            review: opt_view(self.review),
            review_protocol: self.review_protocol,
            force_override: self.force_override,
        }
    }
}

/// A project and the name of the remote it is bound to, if any.
#[derive(Debug, Clone)]
pub struct Project {
    pub name: String,
    pub remote: Option<String>,
}

/// A project as plain values.
pub struct ProjectView {
    pub name: Seq<char>,
    pub remote: Option<Seq<char>>,
}

impl View for Project {
    type V = ProjectView;

    open spec fn view(&self) -> ProjectView {
        ProjectView { name: self.name@, remote: opt_view(self.remote) }
    }
}

/// The views of a sequence of remotes.
pub open spec fn remotes_view(rs: Seq<Remote>) -> Seq<RemoteView> {
    rs.map_values(|r: Remote| r@)
}

/// The views of a sequence of projects.
pub open spec fn projects_view(ps: Seq<Project>) -> Seq<ProjectView> {
    ps.map_values(|p: Project| p@)
}

/// Remotes in declaration order and the projects bound to them.
#[derive(Debug, Clone)]
pub struct Manifest {
    pub remotes: Vec<Remote>,
    pub projects: Vec<Project>,
}

} // verus!
