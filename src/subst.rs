//! Replacement of `${name}` placeholders by the values of a variable context.

use vstd::prelude::*;
use vstd::string::*;
use crate::OverlayError;

verus! {

/// The error of `envsubst::substitute`, carried opaquely and mapped to
/// `OverlayError::Substitution`.
#[verifier::external_type_specification]
#[verifier::external_body]
pub struct ExEnvsubstError(envsubst::Error);

/// A variable context as a sequence of (name, value) pairs.
pub open spec fn vars_view(vars: Seq<(String, String)>) -> Seq<(Seq<char>, Seq<char>)> {
    vars.map_values(|p: (String, String)| (p.0@, p.1@))
}

/// Whether some pair of `vars` is named `k`.
pub open spec fn has_var(vars: Seq<(Seq<char>, Seq<char>)>, k: Seq<char>) -> bool {
    exists|i: int| 0 <= i < vars.len() && #[trigger] vars[i].0 == k
}

/// The placeholder text `${k}`.
pub open spec fn placeholder(k: Seq<char>) -> Seq<char> {
    seq!['$', '{'] + k + seq!['}']
}

/// Whether `s` holds one of the characters that no name or value may hold.
pub open spec fn has_forbidden(s: Seq<char>) -> bool {
    s.contains('$') || s.contains('{') || s.contains('}')
}

/// `s` with every occurrence of `pat`, taken left to right without overlap,
/// replaced by `v`.
pub open spec fn replace_all(s: Seq<char>, pat: Seq<char>, v: Seq<char>) -> Seq<char>
    decreases s.len(),
{
    if pat.len() == 0 || s.len() < pat.len() {
        s
    } else if s.subrange(0, pat.len() as int) == pat {
        v + replace_all(s.subrange(pat.len() as int, s.len() as int), pat, v)
    } else {
        seq![s[0]] + replace_all(s.drop_first(), pat, v)
    }
}

/// A placeholder opens at `i`: `$` followed by `{`.
pub open spec fn opens_at(t: Seq<char>, i: int) -> bool {
    0 <= i && i + 1 < t.len() && t[i] == '$' && t[i + 1] == '{'
}

/// The placeholder opened at `i` is closed at `j`: the first `}` after the `{`.
pub open spec fn closes_at(t: Seq<char>, i: int, j: int) -> bool {
    i + 2 <= j < t.len() && t[j] == '}' && forall|m: int| i + 2 <= m < j ==> t[m] != '}'
}

/// The placeholder opened at `i` is closed and names a variable of `vars`.
pub open spec fn resolved_at(t: Seq<char>, i: int, vars: Seq<(Seq<char>, Seq<char>)>) -> bool {
    exists|j: int| closes_at(t, i, j) && has_var(vars, #[trigger] t.subrange(i + 2, j))
}

/// Every placeholder of `t` is closed and names a variable of `vars`.
pub open spec fn all_resolved(t: Seq<char>, vars: Seq<(Seq<char>, Seq<char>)>) -> bool {
    forall|i: int| #[trigger] opens_at(t, i) ==> resolved_at(t, i, vars)
}

/// Replaces the variables of `vars` one after the other; `None` where a name
/// or a value holds a forbidden character.
pub open spec fn replace_vars(t: Seq<char>, vars: Seq<(Seq<char>, Seq<char>)>) -> Option<Seq<char>>
    decreases vars.len(),
{
    if vars.len() == 0 {
        Some(t)
    } else {
        match replace_vars(t, vars.drop_last()) {
            None => None,
            Some(s) => {
                let (k, v) = vars.last();
                if has_forbidden(k) || has_forbidden(v) {
                    None
                } else {
                    Some(replace_all(s, placeholder(k), v))
                }
            },
        }
    }
}

/// The substitution of `vars` into `t`: all or nothing. `None` where a
/// placeholder is unresolved or a variable is malformed.
pub open spec fn substituted(t: Seq<char>, vars: Seq<(Seq<char>, Seq<char>)>) -> Option<Seq<char>> {
    if all_resolved(t, vars) {
        replace_vars(t, vars)
    } else {
        None
    }
}

/// Relies on `envsubst::substitute` with a context of one variable: it fails
/// when the name or the value holds `$`, `{` or `}`, and otherwise replaces
/// every `${key}` of the template by the value with `str::replace`.
#[verifier::external_body]
fn substitute_one(template: &str, key: &str, value: &str) -> (r: Result<String, envsubst::Error>)
    ensures
        r is Err <==> (has_forbidden(key@) || has_forbidden(value@)),
        r is Ok ==> r->Ok_0@ == replace_all(template@, placeholder(key@), value@),
{
    let mut vars = std::collections::HashMap::new();
    vars.insert(key.to_string(), value.to_string());
    envsubst::substitute(template, &vars)
}

/// The characters of `s`, one by one.
pub fn chars_of(s: &str) -> (r: Vec<char>)
    ensures
        r@ == s@,
{
    let n = s.unicode_len();
    let mut r: Vec<char> = Vec::new();
    for i in 0..n
        invariant
            n == s@.len(),
            r@ == s@.subrange(0, i as int),
    {
        r.push(s.get_char(i));
    }
    r
}

/// Whether `vars` defines the name `t[from..to]`.
fn defines(vars: &Vec<(String, String)>, t: &Vec<char>, from: usize, to: usize) -> (r: bool)
    requires
        from <= to <= t@.len(),
    ensures
        r == has_var(vars_view(vars@), t@.subrange(from as int, to as int)),
{
    let ghost name = t@.subrange(from as int, to as int);
    let mut k: usize = 0;
    while k < vars.len()
        invariant
            k <= vars@.len(),
            from <= to <= t@.len(),
            name == t@.subrange(from as int, to as int),
            forall|q: int| 0 <= q < k ==> vars_view(vars@)[q].0 != name,
        decreases vars.len() - k,
    {
        let key = chars_of(vars[k].0.as_str());
        let mut same = key.len() == to - from;
        let mut m: usize = 0;
        while same && m < key.len()
            invariant
                same ==> key@.len() == to - from,
                m <= key@.len(),
                from <= to <= t@.len(),
                same ==> forall|q: int| 0 <= q < m ==> key@[q] == t@[from + q],
                !same ==> key@ != name,
                name == t@.subrange(from as int, to as int),
            decreases key.len() - m,
        {
            if key[m] != t[from + m] {
                same = false;
                assert(key@[m as int] != name[m as int]);
            }
            m = m + 1;
        }
        if same {
            assert(key@ =~= name);
            assert(vars_view(vars@)[k as int].0 == name);
            return true;
        }
        k = k + 1;
    }
    proof {
        assert forall|i: int| 0 <= i < vars_view(vars@).len() implies #[trigger] vars_view(vars@)[i].0 != name by {}
    }
    false
}

/// Whether every placeholder of `t` is closed and names a variable of `vars`.
fn check_placeholders(t: &Vec<char>, vars: &Vec<(String, String)>) -> (r: bool)
    ensures
        r == all_resolved(t@, vars_view(vars@)),
{
    let ghost vs = vars_view(vars@);
    let mut i: usize = 0;
    while i < t.len()
        invariant
            i <= t@.len(),
            vs == vars_view(vars@),
            forall|p: int| 0 <= p < i && #[trigger] opens_at(t@, p) ==> resolved_at(t@, p, vs),
        decreases t.len() - i,
    {
        if i + 1 < t.len() && t[i] == '$' && t[i + 1] == '{' {
            let mut j: usize = i + 2;
            while j < t.len() && t[j] != '}'
                invariant
                    i + 2 <= j <= t@.len(),
                    forall|m: int| i + 2 <= m < j ==> t@[m] != '}',
                decreases t.len() - j,
            {
                j = j + 1;
            }
            if j == t.len() {
                proof {
                    assert(opens_at(t@, i as int));
                    assert forall|j2: int| !closes_at(t@, i as int, j2) by {}
                }
                return false;
            }
            assert(closes_at(t@, i as int, j as int));
            if !defines(vars, t, i + 2, j) {
                proof {
                    assert(opens_at(t@, i as int));
                    assert forall|j2: int| closes_at(t@, i as int, j2) implies j2 == j by {
                        if j2 < j {
                            assert(t@[j2] != '}');
                        } else if j2 > j {
                            assert(t@[j as int] != '}');
                        }
                    }
                    assert(!resolved_at(t@, i as int, vs));
                }
                return false;
            }
        }
        i = i + 1;
    }
    true
}

/// Substitutes `vars` into `template`: every placeholder must name a
/// variable, and every variable is replaced in the order given. Nothing is
/// returned but the complete result or `OverlayError::Substitution`.
pub fn substitute(template: &str, vars: &Vec<(String, String)>) -> (r: Result<String, OverlayError>)
    ensures
        match r {
            Ok(s) => substituted(template@, vars_view(vars@)) == Some(s@),
            Err(e) => substituted(template@, vars_view(vars@)) is None && e == OverlayError::Substitution,
        },
{
    let t = chars_of(template);
    if !check_placeholders(&t, vars) {
        return Err(OverlayError::Substitution);
    }
    let ghost vs = vars_view(vars@);
    let mut out = String::from_str(template);
    let mut k: usize = 0;
    while k < vars.len()
        invariant
            k <= vars@.len(),
            vs == vars_view(vars@),
            replace_vars(template@, vs.subrange(0, k as int)) == Some(out@),
        decreases vars.len() - k,
    {
        assert(vs.subrange(0, k + 1 as int).drop_last() =~= vs.subrange(0, k as int));
        match substitute_one(out.as_str(), vars[k].0.as_str(), vars[k].1.as_str()) {
            Ok(s) => {
                out = s;
            },
            Err(_) => {
                proof {
                    lemma_replace_vars_none(template@, vs.subrange(0, k + 1 as int), vs);
                }
                return Err(OverlayError::Substitution);
            },
        }
        k = k + 1;
    }
    assert(vs.subrange(0, vars@.len() as int) =~= vs);
    Ok(out)
}

/// A context whose prefix fails to substitute fails as a whole.
proof fn lemma_replace_vars_none(
    t: Seq<char>,
    pre: Seq<(Seq<char>, Seq<char>)>,
    all: Seq<(Seq<char>, Seq<char>)>,
)
    requires
        replace_vars(t, pre) is None,
        pre.len() <= all.len(),
        pre == all.subrange(0, pre.len() as int),
    ensures
        replace_vars(t, all) is None,
    decreases all.len() - pre.len(),
{
    if pre.len() < all.len() {
        let next = all.subrange(0, pre.len() + 1 as int);
        assert(next.drop_last() =~= pre);
        lemma_replace_vars_none(t, next, all);
    } else {
        assert(pre =~= all);
    }
}

/// Substitution is all or nothing: a template with a placeholder that is
/// unclosed or names no variable of the context yields no output at all.
pub proof fn lemma_unresolved_placeholder_fails(
    t: Seq<char>,
    vars: Seq<(Seq<char>, Seq<char>)>,
    i: int,
)
    requires
        opens_at(t, i),
        !resolved_at(t, i, vars),
    ensures
        substituted(t, vars) is None,
{
}

} // verus!
