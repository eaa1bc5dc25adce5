use vstd::prelude::*;

use crate::error::Error;
use crate::text::{
    chars_of, find_first, first_at, first_index, lemma_first_at_unique, push_str, same_chars,
    starts_with_chars, string_of, sub_chars,
};

verus! {

/// Whether a dataset is the sending or the receiving side of a sync.
#[derive(Clone, Copy, Debug, PartialEq, Eq, Structural)]
pub enum Role {
    Source,
    Target,
}

/// A dataset, on the local machine or on a host reached through ssh.
#[derive(Clone, Debug)]
pub struct Fs {
    /// `user@host` or `host`; `None` for the local machine.
    pub host: Option<String>,
    /// The dataset path, `pool/path`.
    pub fs: String,
    pub role: Role,
    /// The `dataset@snapshot` this dataset was cloned from.
    pub origin: Option<String>,
}

/// The view of an optional string.
pub open spec fn opt_view(o: Option<String>) -> Option<Seq<char>> {
    match o {
        Some(s) => Some(s@),
        None => None,
    }
}

/// The view of an optional string slice.
pub open spec fn opt_str_view(o: Option<&str>) -> Option<Seq<char>> {
    match o {
        Some(s) => Some(s@),
        None => None,
    }
}

/// Where a specifier without an explicit host splits into host and path:
/// at its first `:`, provided no `/` comes before it.
pub open spec fn host_split(s: Seq<char>) -> Option<int> {
    match first_index(s, ':', '/') {
        Some(p) => if s[p] == ':' {
            Some(p)
        } else {
            None
        },
        None => None,
    }
}

/// The host and the path that a dataset specifier denotes.
pub open spec fn specifier_view(host: Option<Seq<char>>, path: Seq<char>) -> (
    Option<Seq<char>>,
    Seq<char>,
) {
    match host {
        Some(h) => (if h.len() == 0 {
            None
        } else {
            Some(h)
        }, path),
        None => match host_split(path) {
            Some(p) => (Some(path.subrange(0, p)), path.subrange(p + 1, path.len() as int)),
            None => (None, path),
        },
    }
}

/// The dataset part of an origin `dataset@snapshot`.
pub open spec fn origin_dataset_view(origin: Option<Seq<char>>) -> Option<Seq<char>> {
    match origin {
        Some(o) => match first_index(o, '@', '@') {
            Some(p) => Some(o.subrange(0, p)),
            None => None,
        },
        None => None,
    }
}

/// The origin that a discovered origin column denotes: `-` means none.
pub open spec fn origin_column_view(origin: Seq<char>) -> Option<Seq<char>> {
    if origin == seq!['-'] {
        None
    } else {
        Some(origin)
    }
}

/// Whether a host `user@host` names the root user, or the check is bypassed;
/// `None` for a host without a user.
pub open spec fn host_is_root(host: Option<Seq<char>>, bypass: bool) -> Option<bool> {
    match host {
        Some(h) => match first_index(h, '@', '@') {
            Some(p) => Some(bypass || h.subrange(0, p) == seq!['r', 'o', 'o', 't']),
            None => None,
        },
        None => None,
    }
}

/// Splits `user@host:path` or `host:path` at the first `:`, provided no `/`
/// comes before it.
pub fn split_host_at_colon(host: &str) -> (r: Option<(String, String)>)
    ensures
        r is None <==> host_split(host@) is None,
        r matches Some(pair) ==> pair.0@ == host@.subrange(0, host_split(host@)->0) && pair.1@
            == host@.subrange(host_split(host@)->0 + 1, host@.len() as int),
{
    let cs = chars_of(host);
    match find_first(&cs, ':', '/') {
        Some(p) => {
            if cs[p] == ':' {
                let h = sub_chars(&cs, 0, p);
                let rest = sub_chars(&cs, p + 1, cs.len());
                Some((string_of(&h), string_of(&rest)))
            } else {
                None
            }
        },
        None => None,
    }
}

/// Tells for each side whether operations run as root: a host `user@host`
/// decides by its user (or `bypass_root_check`); a side without a user falls
/// back to `local_is_root`, whether this process runs as root.
pub fn get_is_roots(
    source: Option<&str>,
    target: Option<&str>,
    bypass_root_check: bool,
    local_is_root: bool,
) -> (r: (bool, bool))
    ensures
        r.0 == match host_is_root(opt_str_view(source), bypass_root_check) {
            Some(b) => b,
            None => local_is_root,
        },
        r.1 == match host_is_root(opt_str_view(target), bypass_root_check) {
            Some(b) => b,
            None => local_is_root,
        },
{
    let s = get_is_root(source, bypass_root_check);
    let t = get_is_root(target, bypass_root_check);
    let s = match s {
        Some(b) => b,
        None => local_is_root,
    };
    let t = match t {
        Some(b) => b,
        None => local_is_root,
    };
    (s, t)
}

fn get_is_root(host: Option<&str>, bypass_root_check: bool) -> (r: Option<bool>)
    ensures
        r == host_is_root(opt_str_view(host), bypass_root_check),
{
    match host {
        Some(h) => {
            let cs = chars_of(h);
            match find_first(&cs, '@', '@') {
                Some(p) => {
                    let user = sub_chars(&cs, 0, p);
                    let root = vec!['r', 'o', 'o', 't'];
                    Some(bypass_root_check || same_chars(&user, &root))
                },
                None => None,
            }
        },
        None => None,
    }
}

/// The text of `a` followed by that of `b`.
fn join_strings(a: &String, b: &Vec<char>) -> (r: String)
    ensures
        r@ == a@ + b@,
{
    let mut cs = chars_of(a.as_str());
    let mut i: usize = 0;
    while i < b.len()
        invariant
            0 <= i <= b.len(),
            cs@ == a@ + b@.subrange(0, i as int),
        decreases b.len() - i,
    {
        cs.push(b[i]);
        i = i + 1;
    }
    assert(b@.subrange(0, b@.len() as int) == b@);
    string_of(&cs)
}

impl Fs {
    /// A dataset from a specifier `[user@host:]pool/path`. An explicit host,
    /// even an empty one (which forces the local machine), takes the path as
    /// it is.
    pub fn new(host_opt: Option<&str>, fs: &str, role: Role) -> (r: Fs)
        ensures
            (opt_view(r.host), r.fs@) == specifier_view(opt_str_view(host_opt), fs@),
            r.role == role,
            r.origin is None,
    {
        match host_opt {
            Some(h) => {
                let host = if h.is_empty() {
                    None
                } else {
                    Some(h.to_owned())
                };
                Fs { host, fs: fs.to_owned(), role, origin: None }
            },
            None => match split_host_at_colon(fs) {
                Some((h, p)) => Fs { host: Some(h), fs: p, role, origin: None },
                None => Fs { host: None, fs: fs.to_owned(), role, origin: None },
            },
        }
    }

    /// A dataset on the same host and side as `self`; an origin of `-`
    /// means none.
    pub fn new_child(&self, name: String, origin: String) -> (r: Fs)
        ensures
            r.host == self.host,
            r.fs@ == name@,
            r.role == self.role,
            opt_view(r.origin) == origin_column_view(origin@),
    {
        let dash = String::from_str("-");
        proof {
            reveal_strlit("-");
        }
        let is_dash = origin == dash;
        assert(dash@ == seq!['-']);
        Fs {
            host: self.host.clone(),
            fs: name,
            role: self.role,
            origin: if is_dash {
                None
            } else {
                Some(origin)
            },
        }
    }

    /// The dataset on this side that corresponds to `child`, a dataset below
    /// `source`: this dataset's path followed by what `child` adds to
    /// `source`. With `clone_handling`, an origin inside `source` is carried
    /// over the same way.
    pub fn child_from_source(&self, source: &Fs, child: &Fs, clone_handling: bool) -> (r: Result<
        Fs,
        Error,
    >)
        ensures
            r is Err <==> !(source.fs@.len() <= child.fs@.len() && child.fs@.subrange(
                0,
                source.fs@.len() as int,
            ) == source.fs@),
            r matches Ok(t) ==> {
                &&& t.host == self.host
                &&& t.role == self.role
                &&& t.fs@ == self.fs@ + child.fs@.subrange(
                    source.fs@.len() as int,
                    child.fs@.len() as int,
                )
                &&& opt_view(t.origin) == origin_column_view(
                    translated_origin(self.fs@, source.fs@, opt_view(child.origin), clone_handling),
                )
            },
    {
        let src = chars_of(source.fs.as_str());
        let ch = chars_of(child.fs.as_str());
        if !starts_with_chars(&ch, &src) {
            return Err(Error::other("child did not start with source"));
        }
        let rest = sub_chars(&ch, src.len(), ch.len());
        let target_dataset = join_strings(&self.fs, &rest);
        let mut target_origin = String::from_str("-");
        proof {
            reveal_strlit("-");
        }
        assert(target_origin@ == seq!['-']);
        if clone_handling {
            if let Some(o) = &child.origin {
                let oc = chars_of(o.as_str());
                if starts_with_chars(&oc, &src) {
                    let orest = sub_chars(&oc, src.len(), oc.len());
                    target_origin = join_strings(&self.fs, &orest);
                }
            }
        }
        assert(target_origin@ == translated_origin(
            self.fs@,
            source.fs@,
            opt_view(child.origin),
            clone_handling,
        ));
        Ok(self.new_child(target_dataset, target_origin))
    }

    /// The dataset part of this dataset's origin `dataset@snapshot`.
    pub fn origin_dataset(&self) -> (r: Option<String>)
        ensures
            opt_view(r) == origin_dataset_view(opt_view(self.origin)),
    {
        match &self.origin {
            Some(o) => {
                let cs = chars_of(o.as_str());
                match find_first(&cs, '@', '@') {
                    Some(p) => Some(string_of(&sub_chars(&cs, 0, p))),
                    None => None,
                }
            },
            None => None,
        }
    }

    /// `child` without this dataset's path in front and without the slash
    /// that follows it; `None` when `child` does not begin with that path.
    pub fn strip_parent_from(&self, child: &str) -> (r: Option<String>)
        ensures
            r is None <==> !(self.fs@.len() <= child@.len() && child@.subrange(
                0,
                self.fs@.len() as int,
            ) == self.fs@),
            r matches Some(s) ==> s@ == strip_slash(
                child@.subrange(self.fs@.len() as int, child@.len() as int),
            ),
    {
        let p = chars_of(self.fs.as_str());
        let c = chars_of(child);
        if !starts_with_chars(&c, &p) {
            return None;
        }
        let start = if c.len() > p.len() && c[p.len()] == '/' {
            p.len() + 1
        } else {
            p.len()
        };
        Some(string_of(&sub_chars(&c, start, c.len())))
    }
}

impl Fs {
    /// The dataset as it reads in messages: its path, then ` on ` and the
    /// host for a remote one.
    pub fn to_text(&self) -> (r: String)
        ensures
            r@ == self.fs@ + match self.host {
                Some(h) => " on "@ + h@,
                None => Seq::empty(),
            },
    {
        let mut buf = chars_of(self.fs.as_str());
        let ghost start = buf@;
        if let Some(h) = &self.host {
            push_str(&mut buf, " on ");
            push_str(&mut buf, h.as_str());
        }
        assert(buf@ =~= start + match self.host {
            Some(h) => " on "@ + h@,
            None => Seq::empty(),
        });
        string_of(&buf)
    }
}

/// `s` without one leading slash.
pub open spec fn strip_slash(s: Seq<char>) -> Seq<char> {
    if s.len() > 0 && s[0] == '/' {
        s.drop_first()
    } else {
        s
    }
}

/// The origin of the corresponding target dataset, as an origin column: the
/// target path followed by what the source origin adds to the source path,
/// or `-`.
pub open spec fn translated_origin(
    target: Seq<char>,
    source: Seq<char>,
    origin: Option<Seq<char>>,
    clone_handling: bool,
) -> Seq<char> {
    match origin {
        Some(o) => if clone_handling && source.len() <= o.len() && o.subrange(
            0,
            source.len() as int,
        ) == source {
            target + o.subrange(source.len() as int, o.len() as int)
        } else {
            seq!['-']
        },
        None => seq!['-'],
    }
}

/// Parsing a dataset specifier: a path without `:` keeps the given host
/// (absent or non-empty) and the path; `h:p` without an explicit host, with
/// neither `/` nor `:` in `h`, names path `p` on host `h`; and an explicit
/// empty host always means the local machine.
pub proof fn lemma_specifier_laws(host: Option<Seq<char>>, path: Seq<char>, h: Seq<char>, p: Seq<char>)
    ensures
        (forall|i: int| 0 <= i < path.len() ==> path[i] != ':') && (host is None || host->0.len()
            > 0) ==> specifier_view(host, path) == (host, path),
        (forall|i: int| 0 <= i < h.len() ==> h[i] != ':' && h[i] != '/') ==> specifier_view(
            None,
            h + seq![':'] + p,
        ) == (Some(h), p),
        specifier_view(Some(Seq::<char>::empty()), path).0 is None,
{
    if forall|i: int| 0 <= i < path.len() ==> path[i] != ':' {
        if let Some(q) = first_index(path, ':', '/') {
            let c = choose|c: int| first_at(path, ':', '/', c);
            assert(path[q] != ':');
        }
    }
    if forall|i: int| 0 <= i < h.len() ==> h[i] != ':' && h[i] != '/' {
        let s = h + seq![':'] + p;
        let k = h.len() as int;
        assert(first_at(s, ':', '/', k)) by {
            assert forall|q: int| 0 <= q < k implies s[q] != ':' && s[q] != '/' by {
                assert(s[q] == h[q]);
            }
        }
        let c = choose|c: int| first_at(s, ':', '/', c);
        lemma_first_at_unique(s, ':', '/', c, k);
        assert(s.subrange(0, k) =~= h);
        assert(s.subrange(k + 1, s.len() as int) =~= p);
    }
}

} // verus!
