//! Textual path operations on absolute, slash-separated paths.
use vstd::prelude::*;

verus! {

/// `m` is a prefix of `p` made of whole path components.
pub open spec fn is_path_prefix(m: Seq<char>, p: Seq<char>) -> bool {
    &&& m.len() <= p.len()
    &&& p.subrange(0, m.len() as int) == m
    &&& (m.len() == 0 || m.len() == p.len() || m[m.len() - 1] == '/' || p[m.len() as int] == '/')
}

/// The position of the last `/` in `p`, or -1 when there is none.
pub open spec fn last_slash(p: Seq<char>) -> int
    decreases p.len(),
{
    if p.len() == 0 {
        -1
    } else if p.last() == '/' {
        p.len() - 1
    } else {
        last_slash(p.drop_last())
    }
}

/// `p` without its trailing separators; the root stays the root.
pub open spec fn trim_trailing_slashes(p: Seq<char>) -> Seq<char>
    decreases p.len(),
{
    if p.len() > 1 && p.last() == '/' {
        trim_trailing_slashes(p.drop_last())
    } else {
        p
    }
}

/// `s` without its leading separators.
pub open spec fn trim_leading_slashes(s: Seq<char>) -> Seq<char>
    decreases s.len(),
{
    if s.len() > 0 && s[0] == '/' {
        trim_leading_slashes(s.subrange(1, s.len() as int))
    } else {
        s
    }
}

/// The directory that holds `p` (trailing separators aside); the root and the empty path
/// have the root as parent.
pub open spec fn parent_dir(p: Seq<char>) -> Seq<char> {
    let q = trim_trailing_slashes(p);
    let i = last_slash(q);
    if q.len() == 0 || i == 0 {
        seq!['/']
    } else if i < 0 {
        Seq::empty()
    } else {
        q.subrange(0, i)
    }
}

/// What is left of `p` past the path prefix `m`, without leading separators.
pub open spec fn strip_path_prefix(p: Seq<char>, m: Seq<char>) -> Seq<char> {
    if m.len() == 0 {
        p
    } else {
        trim_leading_slashes(p.subrange(m.len() as int, p.len() as int))
    }
}

/// `rel` appended to `base` as further components; an absolute `rel` replaces `base`.
pub open spec fn join_path(base: Seq<char>, rel: Seq<char>) -> Seq<char> {
    if rel.len() == 0 {
        base
    } else if rel[0] == '/' {
        rel
    } else if base.len() == 0 || base.last() == '/' {
        base + rel
    } else {
        base + seq!['/'] + rel
    }
}

/// An absolute path with no empty component and no trailing separator, or the root.
pub open spec fn is_normal_path(p: Seq<char>) -> bool {
    &&& p.len() > 0
    &&& p[0] == '/'
    &&& (p.len() == 1 || p.last() != '/')
    &&& forall|i: int| 0 <= i < p.len() - 1 && #[trigger] p[i] == '/' ==> p[i + 1] != '/'
}

/// Whether `m` is a component-wise prefix of `p`.
pub fn path_starts_with(p: &str, m: &str) -> (r: bool)
    ensures
        r == is_path_prefix(m@, p@),
{
    let plen = p.unicode_len();
    let mlen = m.unicode_len();
    if mlen > plen {
        return false;
    }
    let mut i: usize = 0;
    while i < mlen
        invariant
            plen == p@.len(),
            mlen == m@.len(),
            mlen <= plen,
            0 <= i <= mlen,
            forall|j: int| 0 <= j < i ==> p@[j] == m@[j],
        decreases mlen - i,
    {
        if p.get_char(i) != m.get_char(i) {
            assert(p@.subrange(0, mlen as int)[i as int] != m@[i as int]);
            return false;
        }
        i = i + 1;
    }
    assert(p@.subrange(0, mlen as int) =~= m@);
    mlen == 0 || mlen == plen || m.get_char(mlen - 1) == '/' || p.get_char(mlen) == '/'
}

/// The position of the last separator in `p`, if any.
fn find_last_slash(p: &str) -> (r: Option<usize>)
    ensures
        match r {
            Some(i) => i as int == last_slash(p@) && i < p@.len(),
            None => last_slash(p@) == -1,
        },
{
    let mut i: usize = p.unicode_len();
    assert(p@.subrange(0, i as int) =~= p@);
    while i > 0
        invariant
            i <= p@.len(),
            last_slash(p@) == last_slash(p@.subrange(0, i as int)),
        decreases i,
    {
        assert(p@.subrange(0, i as int).drop_last() =~= p@.subrange(0, i - 1));
        if p.get_char(i - 1) == '/' {
            return Some(i - 1);
        }
        i = i - 1;
    }
    None
}

/// The length of `p` without its trailing separators.
fn trimmed_len(p: &str) -> (r: usize)
    ensures
        r <= p@.len(),
        p@.subrange(0, r as int) == trim_trailing_slashes(p@),
{
    let mut end: usize = p.unicode_len();
    assert(p@.subrange(0, end as int) =~= p@);
    while end > 1 && p.get_char(end - 1) == '/'
        invariant
            end <= p@.len(),
            trim_trailing_slashes(p@) == trim_trailing_slashes(p@.subrange(0, end as int)),
        decreases end,
    {
        assert(p@.subrange(0, end as int).drop_last() =~= p@.subrange(0, end - 1));
        end = end - 1;
    }
    end
}

/// The directory that holds `p`.
pub fn parent_of(p: &str) -> (r: String)
    ensures
        r@ == parent_dir(p@),
{
    let end = trimmed_len(p);
    let q = p.substring_char(0, end);
    match find_last_slash(q) {
        Some(i) => {
            if end == 0 || i == 0 {
                root_path()
            } else {
                String::from_str(q.substring_char(0, i))
            }
        },
        None => {
            if end == 0 {
                root_path()
            } else {
                String::new()
            }
        },
    }
}

/// The root directory, `/`.
pub fn root_path() -> (r: String)
    ensures
        r@ == seq!['/'],
{
    let r = String::from_str("/");
    proof {
        reveal_strlit("/");
    }
    r
}

/// `p` with its path prefix `m` removed, or `None` when `m` is no path prefix of `p`.
pub fn strip_prefix(p: &str, m: &str) -> (r: Option<String>)
    ensures
        match r {
            Some(s) => is_path_prefix(m@, p@) && s@ == strip_path_prefix(p@, m@),
            None => !is_path_prefix(m@, p@),
        },
{
    if !path_starts_with(p, m) {
        return None;
    }
    let plen = p.unicode_len();
    let mlen = m.unicode_len();
    if mlen == 0 {
        return Some(String::from_str(p));
    }
    let mut start: usize = mlen;
    assert(p@.subrange(mlen as int, plen as int) =~= p@.subrange(start as int, plen as int));
    while start < plen && p.get_char(start) == '/'
        invariant
            plen == p@.len(),
            mlen <= start <= plen,
            trim_leading_slashes(p@.subrange(mlen as int, plen as int)) == trim_leading_slashes(
                p@.subrange(start as int, plen as int),
            ),
        decreases plen - start,
    {
        assert(p@.subrange(start as int, plen as int).subrange(1, plen - start) =~= p@.subrange(
            start + 1,
            plen as int,
        ));
        start = start + 1;
    }
    Some(String::from_str(p.substring_char(start, plen)))
}

/// `rel` appended to `base` as further path components.
pub fn join(base: &str, rel: &str) -> (r: String)
    ensures
        r@ == join_path(base@, rel@),
{
    let blen = base.unicode_len();
    let rlen = rel.unicode_len();
    if rlen == 0 {
        String::from_str(base)
    } else if rel.get_char(0) == '/' {
        String::from_str(rel)
    } else if blen == 0 || base.get_char(blen - 1) == '/' {
        let mut r = String::from_str(base);
        r.append(rel);
        r
    } else {
        let mut r = String::from_str(base);
        r.append("/");
        proof {
            reveal_strlit("/");
        }
        r.append(rel);
        r
    }
}

} // verus!
