//! The parts of a `/`-separated path that the pipeline reads: the file name,
//! its extension, and joining a name onto a directory.

use vstd::prelude::*;
use crate::text::{chars_of, push_str, string_of};

verus! {

/// The index of the last `/` in `p`, or -1.
pub open spec fn last_slash(p: Seq<char>) -> int
    decreases p.len(),
{
    if p.len() == 0 {
        -1
    } else if p.last() == '/' {
        p.len() - 1
    } else {
        last_slash(p.drop_last())
    }
}

/// The bounds of the last component of `p` that is neither empty nor `.`,
/// as `Path::components` reads it.
pub open spec fn last_component(p: Seq<char>) -> Option<(int, int)>
    decreases p.len(),
{
    let k = last_slash(p);
    let seg = p.subrange(k + 1, p.len() as int);
    if seg.len() > 0 && seg != seq!['.'] {
        Some((k + 1, p.len() as int))
    } else if k < 0 {
        None
    } else {
        proof { lemma_last_slash(p); }
        last_component(p.subrange(0, k))
    }
}

/// `Path::file_name`: the last normal component; none for a path that ends
/// in `..`, is a root, or has no component.
pub open spec fn file_name(p: Seq<char>) -> Option<Seq<char>> {
    match last_component(p) {
        Some((a, b)) => if p.subrange(a, b) == seq!['.', '.'] { None } else { Some(p.subrange(a, b)) },
        None => None,
    }
}

/// The index of the last `.` in `n`, or -1.
pub open spec fn last_dot(n: Seq<char>) -> int
    decreases n.len(),
{
    if n.len() == 0 {
        -1
    } else if n.last() == '.' {
        n.len() - 1
    } else {
        last_dot(n.drop_last())
    }
}

/// `Path::extension`: what follows the last `.` of the file name, when that
/// `.` is not its first character.
pub open spec fn extension(p: Seq<char>) -> Option<Seq<char>> {
    match file_name(p) {
        Some(n) => if last_dot(n) > 0 { Some(n.subrange(last_dot(n) + 1, n.len() as int)) } else { None },
        None => None,
    }
}

pub proof fn lemma_last_slash(p: Seq<char>)
    ensures
        -1 <= last_slash(p) < p.len(),
        last_slash(p) >= 0 ==> p[last_slash(p)] == '/',
        forall|j: int| last_slash(p) < j < p.len() ==> p[j] != '/',
    decreases p.len(),
{
    if p.len() > 0 && p.last() != '/' {
        lemma_last_slash(p.drop_last());
        assert forall|j: int| last_slash(p) < j < p.len() implies p[j] != '/' by {
            if j < p.len() - 1 {
                assert(p[j] == p.drop_last()[j]);
            }
        }
    }
}

proof fn lemma_last_dot(n: Seq<char>)
    ensures
        -1 <= last_dot(n) < n.len(),
        last_dot(n) >= 0 ==> n[last_dot(n)] == '.',
        forall|j: int| last_dot(n) < j < n.len() ==> n[j] != '.',
    decreases n.len(),
{
    if n.len() > 0 && n.last() != '.' {
        lemma_last_dot(n.drop_last());
        assert forall|j: int| last_dot(n) < j < n.len() implies n[j] != '.' by {
            if j < n.len() - 1 {
                assert(n[j] == n.drop_last()[j]);
            }
        }
    }
}

fn find_last(cs: &Vec<char>, end: usize, c: char) -> (k: Option<usize>)
    requires
        end <= cs@.len(),
    ensures
        match k {
            Some(i) => i < end && cs@[i as int] == c && forall|j: int| i < j < end ==> cs@[j] != c,
            None => forall|j: int| 0 <= j < end ==> cs@[j] != c,
        },
{
    let mut i: usize = end;
    while i > 0
        invariant
            i <= end <= cs@.len(),
            forall|j: int| i <= j < end ==> cs@[j] != c,
        decreases i,
    {
        if cs[i - 1] == c {
            return Some(i - 1);
        }
        i = i - 1;
    }
    None
}

proof fn lemma_last_slash_is(p: Seq<char>, k: int)
    requires
        -1 <= k < p.len(),
        k >= 0 ==> p[k] == '/',
        forall|j: int| k < j < p.len() ==> p[j] != '/',
    ensures
        last_slash(p) == k,
{
    lemma_last_slash(p);
}

proof fn lemma_last_dot_is(n: Seq<char>, k: int)
    requires
        -1 <= k < n.len(),
        k >= 0 ==> n[k] == '.',
        forall|j: int| k < j < n.len() ==> n[j] != '.',
    ensures
        last_dot(n) == k,
{
    lemma_last_dot(n);
}

/// The bounds of the last normal-or-`..` component of `cs[..end]`.
fn last_component_bounds(cs: &Vec<char>, end: usize) -> (r: Option<(usize, usize)>)
    requires
        end <= cs@.len(),
    ensures
        match r {
            Some((a, b)) => a <= b <= end && last_component(cs@.subrange(0, end as int)) == Some((a as int, b as int)),
            None => last_component(cs@.subrange(0, end as int)) is None,
        },
    decreases end,
{
    let ghost p = cs@.subrange(0, end as int);
    let k = find_last(cs, end, '/');
    let start: usize = match k { Some(i) => i + 1, None => 0 };
    proof {
        let kk: int = match k { Some(i) => i as int, None => -1 };
        lemma_last_slash_is(p, kk);
        assert(p.subrange(start as int, end as int) =~= cs@.subrange(start as int, end as int));
    }
    let seg_len = end - start;
    let is_dot = seg_len == 1 && cs[start] == '.';
    if seg_len > 0 && !is_dot {
        proof {
            if p.subrange(start as int, end as int) == seq!['.'] {
                assert(p.subrange(start as int, end as int)[0] == cs@[start as int]);
            }
        }
        return Some((start, end));
    }
    proof {
        if seg_len == 1 {
            assert(p.subrange(start as int, end as int) =~= seq!['.']);
        }
    }
    match k {
        None => None,
        Some(i) => {
            proof {
                assert(p.subrange(0, i as int) =~= cs@.subrange(0, i as int));
            }
            last_component_bounds(cs, i)
        },
    }
}

/// The extension of a path's file name (`Path::extension`).
pub fn path_extension(path: &str) -> (r: Option<String>)
    ensures
        match r {
            Some(e) => extension(path@) == Some(e@),
            None => extension(path@) is None,
        },
{
    let cs = chars_of(path);
    proof { assert(cs@.subrange(0, cs@.len() as int) =~= cs@); }
    match last_component_bounds(&cs, cs.len()) {
        None => None,
        Some((a, b)) => {
            let ghost n = cs@.subrange(a as int, b as int);
            if b - a == 2 && cs[a] == '.' && cs[a + 1] == '.' {
                proof { assert(n =~= seq!['.', '.']); }
                return None;
            }
            proof {
                if n == seq!['.', '.'] {
                    assert(n[0] == cs@[a as int] && n[1] == cs@[a + 1]);
                }
            }
            let mut name: Vec<char> = Vec::new();
            let mut i: usize = a;
            while i < b
                invariant
                    a <= i <= b <= cs@.len(),
                    name@ == cs@.subrange(a as int, i as int),
                decreases b - i,
            {
                name.push(cs[i]);
                proof { assert(cs@.subrange(a as int, i + 1) =~= cs@.subrange(a as int, i as int).push(cs@[i as int])); }
                i = i + 1;
            }
            let d = find_last(&name, name.len(), '.');
            match d {
                Some(j) if j > 0 => {
                    proof { lemma_last_dot_is(n, j as int); }
                    let mut ext: Vec<char> = Vec::new();
                    let mut t: usize = j + 1;
                    while t < name.len()
                        invariant
                            j + 1 <= t <= name@.len(),
                            ext@ == name@.subrange(j + 1, t as int),
                        decreases name@.len() - t,
                    {
                        ext.push(name[t]);
                        proof { assert(name@.subrange(j + 1, t + 1) =~= name@.subrange(j + 1, t as int).push(name@[t as int])); }
                        t = t + 1;
                    }
                    Some(string_of(&ext))
                },
                _ => {
                    proof {
                        let kk: int = match d { Some(j) => j as int, None => -1 };
                        lemma_last_dot_is(n, kk);
                    }
                    None
                },
            }
        },
    }
}

/// `dir` joined with the relative name `name` (`Path::join`): a `/` goes
/// between them unless `dir` is empty or already ends in one.
pub open spec fn join_path(dir: Seq<char>, name: Seq<char>) -> Seq<char> {
    if dir.len() == 0 || dir.last() == '/' { dir + name } else { dir + "/"@ + name }
}

/// Joins a relative name onto a directory.
pub fn join_name(dir: &str, name: &str) -> (r: String)
    ensures
        r@ == join_path(dir@, name@),
{
    let cs = chars_of(dir);
    let mut r = dir.to_string();
    if cs.len() > 0 && cs[cs.len() - 1] != '/' {
        push_str(&mut r, "/");
        proof { reveal_strlit("/"); }
    }
    push_str(&mut r, name);
    proof {
        if cs@.len() > 0 {
            assert(dir@.last() == cs@[cs@.len() - 1]);
        }
    }
    r
}

/// The default workspace under a home directory: `<home>/.rowforge`.
pub fn workspace_root_of(home: &str) -> (r: String)
    ensures
        r@ == join_path(home@, ".rowforge"@),
{
    join_name(home, ".rowforge")
}

} // verus!
