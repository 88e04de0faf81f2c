//! The per-user config file: newline-separated `key=value` lines.

use vstd::prelude::*;
use vstd::string::*;
use crate::OverlayError;
use crate::subst::chars_of;

verus! {

/// The characters of `s` before the first `c` and those after it; `None`
/// when `c` does not occur in `s`.
pub open spec fn split_first(s: Seq<char>, c: char) -> Option<(Seq<char>, Seq<char>)>
    decreases s.len(),
{
    if s.len() == 0 {
        None
    } else if s[0] == c {
        Some((Seq::empty(), s.drop_first()))
    } else {
        match split_first(s.drop_first(), c) {
            Some((a, b)) => Some((seq![s[0]] + a, b)),
            None => None,
        }
    }
}

/// A line without the `\r` that ends it, if any.
pub open spec fn trim_cr(line: Seq<char>) -> Seq<char> {
    if line.len() > 0 && line.last() == '\r' {
        line.drop_last()
    } else {
        line
    }
}

/// The lines of `t`: split at each `\n`, a `\r` before a `\n` dropped, and no
/// empty line after a final `\n`.
pub open spec fn lines_of(t: Seq<char>) -> Seq<Seq<char>>
    decreases t.len(),
{
    if t.len() == 0 {
        Seq::empty()
    } else {
        match split_first(t, '\n') {
            None => seq![t],
            Some((line, rest)) => {
                proof {
                    lemma_split_first_len(t, '\n');
                }
                seq![trim_cr(line)] + lines_of(rest)
            },
        }
    }
}

/// The mapping that `lines` define, a later line winning over an earlier one
/// with the same key; `None` when a line has no `=`.
pub open spec fn parse_lines(lines: Seq<Seq<char>>) -> Option<Map<Seq<char>, Seq<char>>>
    decreases lines.len(),
{
    if lines.len() == 0 {
        Some(Map::empty())
    } else {
        match parse_lines(lines.drop_last()) {
            None => None,
            Some(m) => match split_first(lines.last(), '=') {
                None => None,
                Some((k, v)) => Some(m.insert(k, v)),
            },
        }
    }
}

/// The mapping that a config text defines.
pub open spec fn parsed_config(t: Seq<char>) -> Option<Map<Seq<char>, Seq<char>>> {
    parse_lines(lines_of(t))
}

/// The two parts of a split leave out exactly the separator.
pub proof fn lemma_split_first_len(s: Seq<char>, c: char)
    ensures
        split_first(s, c) matches Some((a, b)) ==> a.len() + b.len() + 1 == s.len(),
    decreases s.len(),
{
    if s.len() > 0 && s[0] != c {
        lemma_split_first_len(s.drop_first(), c);
    }
}

proof fn lemma_split_first_found(s: Seq<char>, c: char, i: int)
    requires
        0 <= i < s.len(),
        s[i] == c,
        forall|m: int| 0 <= m < i ==> s[m] != c,
    ensures
        split_first(s, c) == Some((s.subrange(0, i), s.subrange(i + 1, s.len() as int))),
    decreases i,
{
    if i == 0 {
        assert(s.drop_first() =~= s.subrange(1, s.len() as int));
        assert(s.subrange(0, 0) =~= Seq::<char>::empty());
    } else {
        let d = s.drop_first();
        assert forall|m: int| 0 <= m < i - 1 implies d[m] != c by {
            assert(d[m] == s[m + 1]);
        }
        lemma_split_first_found(d, c, i - 1);
        assert(seq![s[0]] + d.subrange(0, i - 1) =~= s.subrange(0, i));
        assert(d.subrange(i, d.len() as int) =~= s.subrange(i + 1, s.len() as int));
    }
}

proof fn lemma_split_first_absent(s: Seq<char>, c: char)
    requires
        forall|m: int| 0 <= m < s.len() ==> s[m] != c,
    ensures
        split_first(s, c) is None,
    decreases s.len(),
{
    if s.len() > 0 {
        let d = s.drop_first();
        assert forall|m: int| 0 <= m < d.len() implies d[m] != c by {
            assert(d[m] == s[m + 1]);
        }
        lemma_split_first_absent(d, c);
    }
}

/// Once a line fails, every longer list of lines fails too.
proof fn lemma_parse_lines_none(pre: Seq<Seq<char>>, all: Seq<Seq<char>>)
    requires
        parse_lines(pre) is None,
        pre.len() <= all.len(),
        pre == all.subrange(0, pre.len() as int),
    ensures
        parse_lines(all) is None,
    decreases all.len() - pre.len(),
{
    if pre.len() < all.len() {
        let next = all.subrange(0, pre.len() + 1 as int);
        assert(next.drop_last() =~= pre);
        lemma_parse_lines_none(next, all);
    } else {
        assert(pre =~= all);
    }
}

/// Splits `s` at the first `delim`: the part before it and the part after it.
pub fn split_once<'a>(s: &'a str, delim: char) -> (r: Option<(&'a str, &'a str)>)
    ensures
        match r {
            Some((a, b)) => split_first(s@, delim) == Some((a@, b@)),
            None => split_first(s@, delim) is None,
        },
{
    let t = chars_of(s);
    let mut i: usize = 0;
    while i < t.len() && t[i] != delim
        invariant
            i <= t@.len(),
            t@ == s@,
            forall|m: int| 0 <= m < i ==> t@[m] != delim,
        decreases t.len() - i,
    {
        i = i + 1;
    }
    if i == t.len() {
        proof {
            lemma_split_first_absent(s@, delim);
        }
        None
    } else {
        proof {
            lemma_split_first_found(s@, delim, i as int);
        }
        Some((s.substring_char(0, i), s.substring_char(i + 1, t.len())))
    }
}

/// A mapping from config keys to values, with each key held once.
pub struct Settings {
    entries: Vec<(String, String)>,
    model: Ghost<Map<Seq<char>, Seq<char>>>,
}

impl View for Settings {
    type V = Map<Seq<char>, Seq<char>>;

    closed spec fn view(&self) -> Map<Seq<char>, Seq<char>> {
        self.model@
    }
}

impl Settings {
    /// The entries hold each key once, and the mapping is what they hold.
    pub closed spec fn wf(&self) -> bool {
        &&& forall|i: int, j: int|
            0 <= i < j < self.entries@.len() ==> #[trigger] self.entries@[i].0@
                != #[trigger] self.entries@[j].0@
        &&& forall|k: Seq<char>|
            #[trigger] self.model@.contains_key(k) <==> exists|i: int|
                0 <= i < self.entries@.len() && #[trigger] self.entries@[i].0@ == k
        &&& forall|i: int|
            0 <= i < self.entries@.len() ==> self.model@[#[trigger] self.entries@[i].0@]
                == self.entries@[i].1@
    }

    /// The empty mapping.
    pub fn new() -> (r: Settings)
        ensures
            r.wf(),
            r@ == Map::<Seq<char>, Seq<char>>::empty(),
    {
        Settings { entries: Vec::new(), model: Ghost(Map::empty()) }
    }

    /// Sets `key` to `value`, replacing the value it had.
    pub fn insert(&mut self, key: String, value: String)
        requires
            old(self).wf(),
        ensures
            final(self).wf(),
            final(self)@ == old(self)@.insert(key@, value@),
    {
        let mut i: usize = 0;
        while i < self.entries.len()
            invariant
                self.wf(),
                self == old(self),
                i <= self.entries@.len(),
                forall|q: int| 0 <= q < i ==> self.entries@[q].0@ != key@,
            decreases self.entries.len() - i,
        {
            if self.entries[i].0 == key {
                let ghost old_entries = self.entries@;
                self.entries.set(i, (key, value));
                self.model = Ghost(self.model@.insert(key@, value@));
                assert forall|k: Seq<char>| #[trigger] self.model@.contains_key(k) <==> exists|q: int|
                    0 <= q < self.entries@.len() && #[trigger] self.entries@[q].0@ == k by {
                    if self.model@.contains_key(k) && k != key@ {
                        let q = choose|q: int| 0 <= q < old_entries.len() && #[trigger] old_entries[q].0@ == k;
                        assert(self.entries@[q].0@ == k);
                    }
                    if k == key@ {
                        assert(self.entries@[i as int].0@ == k);
                    }
                }
                return;
            }
            i = i + 1;
        }
        let ghost old_entries = self.entries@;
        self.entries.push((key, value));
        self.model = Ghost(self.model@.insert(key@, value@));
        assert forall|k: Seq<char>| #[trigger] self.model@.contains_key(k) <==> exists|q: int|
            0 <= q < self.entries@.len() && #[trigger] self.entries@[q].0@ == k by {
            if self.model@.contains_key(k) && k != key@ {
                let q = choose|q: int| 0 <= q < old_entries.len() && #[trigger] old_entries[q].0@ == k;
                assert(self.entries@[q].0@ == k);
            }
            if k == key@ {
                assert(self.entries@[old_entries.len() as int].0@ == k);
            }
        }
    }

    /// The value of `key`, if it has one.
    pub fn get(&self, key: &str) -> (r: Option<String>)
        requires
            self.wf(),
        ensures
            match r {
                Some(v) => self@.contains_key(key@) && self@[key@] == v@,
                None => !self@.contains_key(key@),
            },
    {
        let wanted = String::from_str(key);
        let mut i: usize = 0;
        while i < self.entries.len()
            invariant
                self.wf(),
                wanted@ == key@,
                i <= self.entries@.len(),
                forall|q: int| 0 <= q < i ==> self.entries@[q].0@ != key@,
            decreases self.entries.len() - i,
        {
            if self.entries[i].0 == wanted {
                assert(self.entries@[i as int].0@ == key@);
                return Some(self.entries[i].1.clone());
            }
            i = i + 1;
        }
        None
    }
}

/// Reads a config text: one `key=value` pair per line, split at the first
/// `=`. A line without `=` fails the whole text.
pub fn read_dot_env(text: &str) -> (r: Result<Settings, OverlayError>)
    ensures
        match r {
            Ok(m) => m.wf() && parsed_config(text@) == Some(m@),
            Err(e) => parsed_config(text@) is None && e == OverlayError::ConfigFileFormat,
        },
{
    let t = chars_of(text);
    let n = t.len();
    let mut m = Settings::new();
    let mut start: usize = 0;
    let ghost mut done: Seq<Seq<char>> = Seq::empty();
    assert(t@.subrange(0, n as int) =~= t@);
    assert(done + lines_of(t@) =~= lines_of(t@));
    while start < n
        invariant
            n == t@.len(),
            t@ == text@,
            start <= n,
            m.wf(),
            lines_of(t@) == done + lines_of(t@.subrange(start as int, n as int)),
            parse_lines(done) == Some(m@),
        decreases n - start,
    {
        let ghost u = t@.subrange(start as int, n as int);
        let mut end: usize = start;
        while end < n && t[end] != '\n'
            invariant
                start <= end <= n,
                n == t@.len(),
                u == t@.subrange(start as int, n as int),
                forall|q: int| start <= q < end ==> t@[q] != '\n',
            decreases n - end,
        {
            end = end + 1;
        }
        let line_end = if end < n && end > start && t[end - 1] == '\r' {
            end - 1
        } else {
            end
        };
        let ghost line = t@.subrange(start as int, line_end as int);
        proof {
            let e = end - start;
            assert forall|q: int| 0 <= q < e implies u[q] != '\n' by {
                assert(u[q] == t@[start + q]);
            }
            if end < n {
                lemma_split_first_found(u, '\n', e);
                assert(u.subrange(e + 1, u.len() as int) =~= t@.subrange(end + 1, n as int));
                assert(trim_cr(u.subrange(0, e)) =~= line);
            } else {
                lemma_split_first_absent(u, '\n');
                assert(u =~= line);
                assert(t@.subrange(n as int, n as int) =~= Seq::<char>::empty());
            }
        }
        match split_once(text.substring_char(start, line_end), '=') {
            Some((k, v)) => {
                m.insert(String::from_str(k), String::from_str(v));
                proof {
                    assert(done.push(line).drop_last() =~= done);
                    done = done.push(line);
                }
            },
            None => {
                proof {
                    assert(done.push(line).drop_last() =~= done);
                    let rest = if end < n { t@.subrange(end + 1, n as int) } else { Seq::<char>::empty() };
                    let all = done.push(line) + lines_of(rest);
                    assert(all =~= lines_of(t@));
                    assert(all.subrange(0, done.len() + 1 as int) =~= done.push(line));
                    lemma_parse_lines_none(done.push(line), all);
                }
                return Err(OverlayError::ConfigFileFormat);
            },
        }
        start = if end < n {
            end + 1
        } else {
            end
        };
        proof {
            assert(done + lines_of(t@.subrange(start as int, n as int)) =~= lines_of(t@));
        }
    }
    proof {
        assert(t@.subrange(start as int, n as int) =~= Seq::<char>::empty());
        assert(done + Seq::<Seq<char>>::empty() =~= done);
    }
    Ok(m)
}

/// A line without `=` fails the whole config text, wherever it stands.
pub proof fn lemma_line_without_separator_fails(lines: Seq<Seq<char>>, i: int)
    requires
        0 <= i < lines.len(),
        !lines[i].contains('='),
    ensures
        parse_lines(lines) is None,
{
    let pre = lines.subrange(0, i + 1);
    assert(pre.drop_last() =~= lines.subrange(0, i));
    assert(pre.last() == lines[i]);
    lemma_split_first_absent(lines[i], '=');
    lemma_parse_lines_none(pre, lines);
}

} // verus!
