//! Path-component arithmetic on plain strings.
//!
//! Paths are owned strings whose components are separated by `'/'`.  The
//! library never touches a real filesystem; these functions only compute
//! with names: stripping trailing separators, extracting the final
//! component (the name an entry keeps when it is moved into a directory),
//! joining a directory with a child name, and finding a path's parent.

use vstd::prelude::*;

verus! {

/// `s` with every trailing `'/'` removed.
pub open spec fn spec_strip_trailing(s: Seq<char>) -> Seq<char>
    decreases s.len(),
{
    if s.len() > 0 && s.last() == '/' {
        spec_strip_trailing(s.drop_last())
    } else {
        s
    }
}

/// The suffix of `s` after its last `'/'` (all of `s` if it has none,
/// empty if `s` ends with `'/'` or is empty).
pub open spec fn spec_after_last_sep(s: Seq<char>) -> Seq<char>
    decreases s.len(),
{
    if s.len() == 0 {
        Seq::empty()
    } else if s.last() == '/' {
        Seq::empty()
    } else {
        spec_after_last_sep(s.drop_last()).push(s.last())
    }
}

/// The final component of a path: trailing separators are ignored, then
/// everything after the last remaining `'/'` is taken.  Empty exactly when
/// the path is empty or consists of separators only.
pub open spec fn spec_final_component(s: Seq<char>) -> Seq<char> {
    spec_after_last_sep(spec_strip_trailing(s))
}

/// `dir` and a child name `name` joined into one path.
pub open spec fn spec_join(dir: Seq<char>, name: Seq<char>) -> Seq<char> {
    if dir.len() == 0 {
        name
    } else if dir.last() == '/' {
        dir + name
    } else {
        dir + seq!['/'] + name
    }
}

/// The parent of a path: what is left before the final component, with its
/// own trailing separators stripped.  A parent made of separators only is
/// the root `"/"`; a single-component relative path has the empty parent.
pub open spec fn spec_parent(s: Seq<char>) -> Seq<char> {
    let q = spec_strip_trailing(s);
    let f = spec_after_last_sep(q);
    let pre = q.subrange(0, q.len() - f.len());
    if pre.len() > 0 && spec_strip_trailing(pre).len() == 0 {
        seq!['/']
    } else {
        spec_strip_trailing(pre)
    }
}

/// The suffix after the last separator, characterised by its start index.
pub proof fn lemma_after_last_sep_split(s: Seq<char>, k: int)
    requires
        0 <= k <= s.len(),
        forall|i: int| k <= i < s.len() ==> s[i] != '/',
        k == 0 || s[k - 1] == '/',
    ensures
        spec_after_last_sep(s) == s.subrange(k, s.len() as int),
    decreases s.len(),
{
    if s.len() == k {
        if k == 0 {
            assert(spec_after_last_sep(s) =~= s.subrange(k, s.len() as int));
        } else {
            assert(s.last() == '/');
            assert(spec_after_last_sep(s) =~= s.subrange(k, s.len() as int));
        }
    } else {
        assert(s.last() != '/');
        lemma_after_last_sep_split(s.drop_last(), k);
        assert(s.drop_last().subrange(k, s.len() - 1) =~= s.subrange(k, s.len() - 1));
        assert(spec_after_last_sep(s) =~= s.subrange(k, s.len() as int));
    }
}

/// Length of the longest prefix of `p`'s first `m` characters that remains
/// after trailing separators are stripped.
fn strip_len_upto(p: &String, m: usize) -> (n: usize)
    requires
        m <= p@.len(),
    ensures
        n <= m,
        p@.subrange(0, n as int) == spec_strip_trailing(p@.subrange(0, m as int)),
        n > 0 ==> p@[n - 1] != '/',
{
    let mut n = m;
    while n > 0 && p.as_str().get_char(n - 1) == '/'
        invariant
            n <= m <= p@.len(),
            spec_strip_trailing(p@.subrange(0, m as int)) == spec_strip_trailing(
                p@.subrange(0, n as int),
            ),
        decreases n,
    {
        proof {
            assert(p@.subrange(0, n as int).last() == '/');
            assert(p@.subrange(0, n as int).drop_last() =~= p@.subrange(0, n - 1));
        }
        n = n - 1;
    }
    proof {
        if n > 0 {
            assert(p@.subrange(0, n as int).last() == p@[n - 1]);
        }
        assert(spec_strip_trailing(p@.subrange(0, n as int)) == p@.subrange(0, n as int));
    }
    n
}

/// `p` with its trailing separators removed.
pub fn strip_trailing_separators(p: &String) -> (r: String)
    ensures
        r@ == spec_strip_trailing(p@),
{
    let len = p.as_str().unicode_len();
    proof {
        assert(p@.subrange(0, len as int) =~= p@);
    }
    let n = strip_len_upto(p, len);
    let r = p.as_str().substring_char(0, n).to_owned();
    r
}

/// Start index of the final component of `p`'s first `n` characters: the
/// position right after the last `'/'` among them.
fn component_start(p: &String, n: usize) -> (k: usize)
    requires
        n <= p@.len(),
    ensures
        k <= n,
        forall|i: int| k <= i < n ==> p@[i] != '/',
        k > 0 ==> p@[k - 1] == '/',
{
    let mut k = n;
    while k > 0 && p.as_str().get_char(k - 1) != '/'
        invariant
            k <= n <= p@.len(),
            forall|i: int| k <= i < n ==> p@[i] != '/',
        decreases k,
    {
        k = k - 1;
    }
    k
}

/// The final component of `p`, or `None` when `p` has none (it is empty or
/// consists of separators only).
pub fn final_component(p: &String) -> (r: Option<String>)
    ensures
        match r {
            Some(c) => c@ == spec_final_component(p@) && c@.len() > 0,
            None => spec_final_component(p@).len() == 0,
        },
{
    let len = p.as_str().unicode_len();
    proof {
        assert(p@.subrange(0, len as int) =~= p@);
    }
    let n = strip_len_upto(p, len);
    if n == 0 {
        proof {
            assert(spec_strip_trailing(p@) =~= Seq::<char>::empty());
        }
        return None;
    }
    let k = component_start(p, n);
    proof {
        lemma_after_last_sep_split(p@.subrange(0, n as int), k as int);
        assert(p@.subrange(0, n as int).subrange(k as int, n as int) =~= p@.subrange(
            k as int,
            n as int,
        ));
    }
    let c = p.as_str().substring_char(k, n).to_owned();
    Some(c)
}

/// `dir` and a child name joined into one path.
pub fn join_path(dir: &String, name: &String) -> (r: String)
    ensures
        r@ == spec_join(dir@, name@),
{
    let dlen = dir.as_str().unicode_len();
    if dlen == 0 {
        name.clone()
    } else if dir.as_str().get_char(dlen - 1) == '/' {
        let r = dir.clone().concat(name.as_str());
        r
    } else {
        let mut r = dir.clone();
        r.append("/");
        r.append(name.as_str());
        proof {
            reveal_strlit("/");
            assert(r@ =~= dir@ + seq!['/'] + name@);
        }
        r
    }
}

/// The parent of `p`, per [`spec_parent`].
pub fn parent_of(p: &String) -> (r: String)
    ensures
        r@ == spec_parent(p@),
{
    let len = p.as_str().unicode_len();
    proof {
        assert(p@.subrange(0, len as int) =~= p@);
    }
    let n = strip_len_upto(p, len);
    let k = component_start(p, n);
    proof {
        lemma_after_last_sep_split(p@.subrange(0, n as int), k as int);
        assert(p@.subrange(0, n as int).subrange(k as int, n as int) =~= p@.subrange(
            k as int,
            n as int,
        ));
        assert(p@.subrange(0, n as int).subrange(0, k as int) =~= p@.subrange(0, k as int));
    }
    let j = strip_len_upto(p, k);
    if k > 0 && j == 0 {
        let r = "/".to_owned();
        proof {
            reveal_strlit("/");
            assert(r@ =~= seq!['/']);
        }
        r
    } else {
        let r = p.as_str().substring_char(0, j).to_owned();
        r
    }
}

} // verus!
