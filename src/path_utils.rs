//! A lexical model of `/`-separated filesystem paths, and the resolver that
//! finds the media library's root directory in a track location.
use crate::text::same_text;
use vstd::prelude::*;
use vstd::string::*;

verus! {

/// The name of the directory that anchors the media library's tree.
pub open spec fn marker_name() -> Seq<char> {
    seq!['M', 'u', 's', 'i', 'c']
}

/// `s[0..i]` is an ancestor of `s` (or `s` itself) whose last component is
/// the marker directory name.
pub open spec fn is_marker_end(s: Seq<char>, i: int) -> bool {
    &&& 5 <= i <= s.len()
    &&& s.subrange(i - 5, i) == marker_name()
    &&& (i == 5 || s[i - 6] == '/')
    &&& (i == s.len() || s[i] == '/')
}

/// `s[0..i]` is the library root of `s`: the deepest ancestor (or `s`
/// itself) whose last component is the marker name.
pub open spec fn itunes_prefix_end(s: Seq<char>, i: int) -> bool {
    &&& is_marker_end(s, i)
    &&& forall|j: int| i < j <= s.len() ==> !is_marker_end(s, j)
}

/// The library root of a location could not be determined.
#[derive(Debug, Clone, Copy, PartialEq, Eq)]
pub struct PrefixError;

impl PrefixError {
    pub fn message(&self) -> (r: String)
        ensures
            r@ == "Could not determine iTunes prefix from first track location"@,
    {
        String::from_str("Could not determine iTunes prefix from first track location")
    }
}

fn is_marker_end_at(s: &str, n: usize, i: usize) -> (r: bool)
    requires
        n == s@.len(),
        i <= n,
    ensures
        r == is_marker_end(s@, i as int),
{
    if i < 5 {
        return false;
    }
    if i < n && s.get_char(i) != '/' {
        return false;
    }
    if i > 5 && s.get_char(i - 6) != '/' {
        return false;
    }
    let ok = s.get_char(i - 5) == 'M' && s.get_char(i - 4) == 'u' && s.get_char(i - 3) == 's'
        && s.get_char(i - 2) == 'i' && s.get_char(i - 1) == 'c';
    assert(ok == (s@.subrange(i - 5, i as int) =~= marker_name()));
    ok
}

/// Walks up from `path` to the first ancestor (or `path` itself) whose last
/// component is `Music`, and returns it.
pub fn generate_itunes_prefix(path: &str) -> (r: Result<&str, PrefixError>)
    ensures
        match r {
            Ok(p) => exists|i: int| itunes_prefix_end(path@, i) && p@ == path@.subrange(0, i),
            Err(_) => forall|i: int| !is_marker_end(path@, i),
        },
{
    let n = path.unicode_len();
    let mut i = n;
    while i > 0
        invariant
            n == path@.len(),
            i <= n,
            forall|j: int| i < j <= n ==> !is_marker_end(path@, j),
        decreases i,
    {
        if is_marker_end_at(path, n, i) {
            let p = path.substring_char(0, i);
            assert(itunes_prefix_end(path@, i as int));
            return Ok(p);
        }
        i = i - 1;
    }
    Err(PrefixError)
}

/// A component that names something: neither empty (repeated or trailing
/// separators) nor the current directory `.`.
pub open spec fn is_named_component(c: Seq<char>) -> bool {
    c.len() > 0 && c != seq!['.']
}

/// The named components of `s[i..]`, given the component `cur` read so far
/// and the components `acc` before it.
pub open spec fn components_from(
    s: Seq<char>,
    i: int,
    cur: Seq<char>,
    acc: Seq<Seq<char>>,
) -> Seq<Seq<char>>
    decreases s.len() - i,
{
    if i >= s.len() {
        if is_named_component(cur) {
            acc.push(cur)
        } else {
            acc
        }
    } else if s[i] == '/' {
        components_from(
            s,
            i + 1,
            seq![],
            if is_named_component(cur) {
                acc.push(cur)
            } else {
                acc
            },
        )
    } else {
        components_from(s, i + 1, cur.push(s[i]), acc)
    }
}

/// The named components of a path, in order.
pub open spec fn components(s: Seq<char>) -> Seq<Seq<char>> {
    components_from(s, 0, seq![], seq![])
}

pub open spec fn is_absolute(s: Seq<char>) -> bool {
    s.len() > 0 && s[0] == '/'
}

/// Components joined by single separators.
pub open spec fn join_components(cs: Seq<Seq<char>>) -> Seq<char>
    decreases cs.len(),
{
    if cs.len() == 0 {
        seq![]
    } else if cs.len() == 1 {
        cs[0]
    } else {
        join_components(cs.drop_last()) + seq!['/'] + cs.last()
    }
}

/// What is left of `s` below its ancestor `p`, as a relative path: `p` is an
/// ancestor when both are absolute or both relative and the components of
/// `p` begin those of `s`. `None` when `p` is no ancestor of `s`.
pub open spec fn strip_dir_prefix(s: Seq<char>, p: Seq<char>) -> Option<Seq<char>> {
    let cs = components(s);
    let cp = components(p);
    if is_absolute(s) == is_absolute(p) && cp.len() <= cs.len() && cs.subrange(
        0,
        cp.len() as int,
    ) == cp {
        Some(join_components(cs.subrange(cp.len() as int, cs.len() as int)))
    } else {
        None
    }
}

pub open spec fn views(v: Seq<String>) -> Seq<Seq<char>> {
    v.map_values(|x: String| x@)
}

fn is_named(s: &str, start: usize, end: usize) -> (r: bool)
    requires
        start <= end <= s@.len(),
    ensures
        r == is_named_component(s@.subrange(start as int, end as int)),
{
    if end == start {
        return false;
    }
    if end == start + 1 && s.get_char(start) == '.' {
        assert(s@.subrange(start as int, end as int) =~= seq!['.']);
        return false;
    }
    proof {
        if end == start + 1 {
            assert(s@.subrange(start as int, end as int)[0] != '.');
        }
    }
    true
}

/// The named components of `path`.
pub fn path_components(path: &str) -> (r: Vec<String>)
    ensures
        views(r@) == components(path@),
{
    let n = path.unicode_len();
    let mut acc: Vec<String> = Vec::new();
    let mut start: usize = 0;
    let mut i: usize = 0;
    proof {
        assert(path@.subrange(0, 0) =~= Seq::<char>::empty());
        assert(views(acc@) =~= Seq::<Seq<char>>::empty());
    }
    while i < n
        invariant
            n == path@.len(),
            start <= i <= n,
            components(path@) == components_from(
                path@,
                i as int,
                path@.subrange(start as int, i as int),
                views(acc@),
            ),
        decreases n - i,
    {
        let ghost before = views(acc@);
        if path.get_char(i) == '/' {
            if is_named(path, start, i) {
                acc.push(String::from_str(path.substring_char(start, i)));
                proof {
                    assert(views(acc@) =~= before.push(path@.subrange(start as int, i as int)));
                }
            }
            start = i + 1;
            proof {
                assert(path@.subrange(start as int, start as int) =~= Seq::<char>::empty());
            }
        } else {
            proof {
                assert(path@.subrange(start as int, i + 1) =~= path@.subrange(
                    start as int,
                    i as int,
                ).push(path@[i as int]));
            }
        }
        i = i + 1;
    }
    if is_named(path, start, n) {
        let ghost before = views(acc@);
        acc.push(String::from_str(path.substring_char(start, n)));
        proof {
            assert(views(acc@) =~= before.push(path@.subrange(start as int, n as int)));
        }
    }
    acc
}

/// Strips the ancestor `prefix` from `path`, comparing whole components.
pub fn strip_path_prefix(path: &str, prefix: &str) -> (r: Option<String>)
    ensures
        match r {
            Some(rest) => strip_dir_prefix(path@, prefix@) == Some(rest@),
            None => strip_dir_prefix(path@, prefix@) is None,
        },
{
    let abs_path = path.unicode_len() > 0 && path.get_char(0) == '/';
    let abs_prefix = prefix.unicode_len() > 0 && prefix.get_char(0) == '/';
    let cs = path_components(path);
    let cp = path_components(prefix);
    let ghost vs = views(cs@);
    let ghost vp = views(cp@);
    if abs_path != abs_prefix || cp.len() > cs.len() {
        return None;
    }
    let mut k: usize = 0;
    while k < cp.len()
        invariant
            k <= cp@.len() <= cs@.len(),
            vs == views(cs@),
            vp == views(cp@),
            vs == components(path@),
            vp == components(prefix@),
            forall|j: int| 0 <= j < k ==> vs[j] == vp[j],
        decreases cp@.len() - k,
    {
        if !same_text(cs[k].as_str(), cp[k].as_str()) {
            proof {
                assert(vs.subrange(0, vp.len() as int)[k as int] != vp[k as int]);
            }
            return None;
        }
        k = k + 1;
    }
    assert(vs.subrange(0, vp.len() as int) =~= vp);
    let m = cp.len();
    let mut rest = String::new();
    let mut j: usize = m;
    proof {
        assert(vs.subrange(m as int, m as int) =~= Seq::<Seq<char>>::empty());
    }
    while j < cs.len()
        invariant
            m <= j <= cs@.len(),
            vs == views(cs@),
            rest@ == join_components(vs.subrange(m as int, j as int)),
        decreases cs@.len() - j,
    {
        let ghost old_rest = rest@;
        if j > m {
            rest.append("/");
            proof {
                reveal_strlit("/");
            }
        }
        rest.append(cs[j].as_str());
        proof {
            let part = vs.subrange(m as int, j + 1);
            assert(part.drop_last() =~= vs.subrange(m as int, j as int));
            assert(part.last() == vs[j as int]);
            if j == m {
                assert(part.len() == 1);
                assert(rest@ =~= part[0]);
            } else {
                assert(rest@ =~= old_rest + seq!['/'] + part.last());
            }
        }
        j = j + 1;
    }
    Some(rest)
}

/// `rest` appended to `base` with one separator between them; an absolute
/// `rest` stands alone.
pub open spec fn joined_path(base: Seq<char>, rest: Seq<char>) -> Seq<char> {
    if rest.len() > 0 && rest[0] == '/' {
        rest
    } else if base.len() == 0 {
        rest
    } else if base.last() == '/' {
        base + rest
    } else {
        base + seq!['/'] + rest
    }
}

/// Appends the relative path `rest` to `base`.
pub fn join_path(base: &str, rest: &str) -> (r: String)
    ensures
        r@ == joined_path(base@, rest@),
{
    let n = base.unicode_len();
    if rest.unicode_len() > 0 && rest.get_char(0) == '/' {
        return String::from_str(rest);
    }
    let mut out = String::from_str(base);
    if n > 0 && base.get_char(n - 1) != '/' {
        out.append("/");
        proof {
            reveal_strlit("/");
        }
    }
    out.append(rest);
    out
}

/// The end of `s[0..end]` once trailing separators are dropped.
pub open spec fn trim_separators_end(s: Seq<char>, end: int) -> int
    decreases end,
{
    if 0 < end <= s.len() && s[end - 1] == '/' {
        trim_separators_end(s, end - 1)
    } else {
        end
    }
}

/// The index of the last separator in `s[0..end]`, or -1.
pub open spec fn last_separator(s: Seq<char>, end: int) -> int
    decreases end,
{
    if end <= 0 {
        -1
    } else if s[end - 1] == '/' {
        end - 1
    } else {
        last_separator(s, end - 1)
    }
}

/// The directory that contains `s`: `s` without its last component; `None`
/// for the root and for the empty path.
pub open spec fn parent_of(s: Seq<char>) -> Option<Seq<char>> {
    let e = trim_separators_end(s, s.len() as int);
    if e == 0 {
        None
    } else {
        let sep = last_separator(s, e);
        if sep < 0 {
            Some(seq![])
        } else {
            let pe = trim_separators_end(s, sep);
            if pe == 0 {
                Some(seq!['/'])
            } else {
                Some(s.subrange(0, pe))
            }
        }
    }
}

fn trim_end(s: &str, end: usize) -> (r: usize)
    requires
        end <= s@.len(),
    ensures
        r == trim_separators_end(s@, end as int),
        r <= end,
{
    let mut e = end;
    while e > 0 && s.get_char(e - 1) == '/'
        invariant
            e <= end <= s@.len(),
            trim_separators_end(s@, e as int) == trim_separators_end(s@, end as int),
        decreases e,
    {
        e = e - 1;
    }
    e
}

/// The directory that contains `path`.
pub fn parent_dir(path: &str) -> (r: Option<String>)
    ensures
        match r {
            Some(p) => parent_of(path@) == Some(p@),
            None => parent_of(path@) is None,
        },
{
    let n = path.unicode_len();
    let e = trim_end(path, n);
    if e == 0 {
        return None;
    }
    let mut j = e;
    while j > 0 && path.get_char(j - 1) != '/'
        invariant
            j <= e <= path@.len(),
            last_separator(path@, j as int) == last_separator(path@, e as int),
        decreases j,
    {
        j = j - 1;
    }
    if j == 0 {
        return Some(String::new());
    }
    let pe = trim_end(path, j - 1);
    if pe == 0 {
        proof {
            reveal_strlit("/");
        }
        Some(String::from_str("/"))
    } else {
        Some(String::from_str(path.substring_char(0, pe)))
    }
}

} // verus!
