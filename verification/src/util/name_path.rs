use vstd::prelude::*;

use crate::util::cd_manager::clone_segments;

verus! {

/// Splitting a path string on `/`, processing the characters left to
/// right: `cur` is the segment read so far. Every segment is kept, so
/// joining the result with `/` gives the string back.
pub open spec fn raw_split_rec(s: Seq<char>, cur: Seq<char>) -> Seq<Seq<char>>
    decreases s.len(),
{
    if s.len() == 0 {
        seq![cur]
    } else if s.first() == '/' {
        seq![cur] + raw_split_rec(s.skip(1), Seq::empty())
    } else {
        raw_split_rec(s.skip(1), cur.push(s.first()))
    }
}

/// The segments of a path string, split on `/` with every segment kept.
pub open spec fn raw_split(s: Seq<char>) -> Seq<Seq<char>> {
    raw_split_rec(s, Seq::empty())
}

/// Splits a path string into its segments on `/`, keeping every segment
/// as it stands.
pub fn split_path(path: &str) -> (r: Vec<String>)
    ensures
        r.deep_view() == raw_split(path@),
{
    let ghost s = path@;
    let n = path.unicode_len();
    let mut out: Vec<String> = Vec::new();
    let mut start: usize = 0;
    let mut i: usize = 0;
    proof {
        assert(s.skip(0) =~= s);
        assert(s.subrange(0, 0) =~= Seq::<char>::empty());
        assert(out.deep_view() =~= Seq::<Seq<char>>::empty());
        assert(Seq::<Seq<char>>::empty() + raw_split_rec(s, Seq::empty()) =~= raw_split_rec(
            s,
            Seq::empty(),
        ));
    }
    while i < n
        invariant
            0 <= start <= i <= n,
            n == s.len(),
            s == path@,
            out.deep_view() + raw_split_rec(s.skip(i as int), s.subrange(start as int, i as int))
                =~= raw_split(s),
        decreases n - i,
    {
        let ghost cur = s.subrange(start as int, i as int);
        let ghost rest = s.skip(i as int);
        let ghost before = out.deep_view();
        proof {
            assert(rest.first() == s[i as int]);
            assert(rest.skip(1) =~= s.skip(i + 1));
        }
        let c = path.get_char(i);
        if c == '/' {
            let seg = path.substring_char(start, i);
            out.push(seg.to_owned());
            start = i + 1;
            proof {
                assert(raw_split_rec(rest, cur) == seq![cur] + raw_split_rec(
                    rest.skip(1),
                    Seq::empty(),
                ));
                assert(out.deep_view() =~= before + seq![cur]);
                assert(s.subrange(start as int, (i + 1) as int) =~= Seq::<char>::empty());
                assert(out.deep_view() + raw_split_rec(s.skip(i + 1), Seq::empty()) =~= before + (
                seq![cur] + raw_split_rec(rest.skip(1), Seq::empty())));
            }
        } else {
            proof {
                assert(cur.push(c) =~= s.subrange(start as int, (i + 1) as int));
                assert(raw_split_rec(rest, cur) == raw_split_rec(rest.skip(1), cur.push(c)));
            }
        }
        i += 1;
    }
    let ghost cur = s.subrange(start as int, n as int);
    let ghost before = out.deep_view();
    let seg = path.substring_char(start, n);
    out.push(seg.to_owned());
    proof {
        assert(s.skip(n as int) =~= Seq::<char>::empty());
        assert(raw_split_rec(s.skip(n as int), cur) == seq![cur]);
        assert(out.deep_view() =~= before + seq![cur]);
        assert(out.deep_view() =~= raw_split(s));
    }
    out
}

/// Where a resource is saved: either an explicit path given by the caller,
/// or a short name to be placed under the workspace's `git` directory.
#[derive(Debug)]
pub enum NameOrPath {
    Name(String),
    SavePath(String),
}

/// The destination directory a [`NameOrPath`] resolves to below the
/// workspace directory.
pub open spec fn resolved_path(np: NameOrPath, scaii_dir: Seq<Seq<char>>) -> Seq<Seq<char>> {
    match np {
        NameOrPath::SavePath(p) => raw_split(p@),
        NameOrPath::Name(n) => scaii_dir + seq!["git"@, n@],
    }
}

impl NameOrPath {
    /// The explicit save path when one was given, else the default name.
    pub fn from_path_or_default(path: Option<&str>, name: &str) -> (r: Self)
        ensures
            path matches Some(p) ==> (r matches NameOrPath::SavePath(s) && s@ == p@),
            path is None ==> (r matches NameOrPath::Name(n) && n@ == name@),
    {
        match path {
            Some(p) => NameOrPath::SavePath(p.to_owned()),
            None => NameOrPath::Name(name.to_owned()),
        }
    }

    /// Exactly one of an explicit save path and a name must be given;
    /// anything else is rejected.
    pub fn try_from_path_or_name(path: Option<&str>, name: Option<&str>) -> (r: Result<Self, ()>)
        ensures
            path matches Some(p) ==> (name is None ==> (r matches Ok(np) && np matches
                NameOrPath::SavePath(s) && s@ == p@)),
            name matches Some(nm) ==> (path is None ==> (r matches Ok(np) && np matches
                NameOrPath::Name(n) && n@ == nm@)),
            ((path is Some && name is Some) || (path is None && name is None)) <==> r is Err,
    {
        match (path, name) {
            (Some(p), None) => Ok(NameOrPath::SavePath(p.to_owned())),
            (None, Some(n)) => Ok(NameOrPath::Name(n.to_owned())),
            _ => Err(()),
        }
    }

    /// The destination directory this resolves to: an explicit save path is
    /// split into its segments; a name lands under `scaii_dir/git/<name>`.
    pub fn to_path_buf(self, scaii_dir: &Vec<String>) -> (r: Vec<String>)
        ensures
            r.deep_view() == resolved_path(self, scaii_dir.deep_view()),
    {
        match self {
            NameOrPath::SavePath(p) => split_path(p.as_str()),
            NameOrPath::Name(n) => {
                let mut d = clone_segments(scaii_dir);
                d.push("git".to_owned());
                d.push(n);
                proof {
                    assert(d.deep_view() =~= scaii_dir.deep_view() + seq!["git"@, n@]);
                }
                d
            },
        }
    }
}

} // verus!
