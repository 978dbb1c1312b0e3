//! When a handler must be built before it runs: its entry command names a
//! binary inside the handler folder that is missing or older than the
//! newest source file.

use vstd::prelude::*;
use crate::text::{chars_of, str_eq, string_of};

verus! {

/// Extensions of the files that count as handler sources.
pub open spec fn source_extensions() -> Seq<Seq<char>> {
    seq!["go"@, "rs"@, "py"@, "js"@, "ts"@, "mjs"@, "java"@, "c"@, "cpp"@, "h"@, "hpp"@]
}

/// Whether a file with this extension is a handler source.
pub fn is_source_extension(ext: &str) -> (b: bool)
    ensures
        b == source_extensions().contains(ext@),
{
    proof {
        reveal_strlit("go");
        reveal_strlit("rs");
        reveal_strlit("py");
        reveal_strlit("js");
        reveal_strlit("ts");
        reveal_strlit("mjs");
        reveal_strlit("java");
        reveal_strlit("c");
        reveal_strlit("cpp");
        reveal_strlit("h");
        reveal_strlit("hpp");
        let s = source_extensions();
        assert(s[0] == "go"@ && s[1] == "rs"@ && s[2] == "py"@ && s[3] == "js"@ && s[4] == "ts"@);
        assert(s[5] == "mjs"@ && s[6] == "java"@ && s[7] == "c"@ && s[8] == "cpp"@ && s[9] == "h"@);
        assert(s[10] == "hpp"@);
    }
    str_eq(ext, "go") || str_eq(ext, "rs") || str_eq(ext, "py") || str_eq(ext, "js")
        || str_eq(ext, "ts") || str_eq(ext, "mjs") || str_eq(ext, "java") || str_eq(ext, "c")
        || str_eq(ext, "cpp") || str_eq(ext, "h") || str_eq(ext, "hpp")
}

/// The newest modification time among the source files of `files`, given
/// as `(extension, mtime)`; none when there is no source file.
pub open spec fn newest_source(files: Seq<(String, u128)>) -> Option<u128>
    decreases files.len(),
{
    if files.len() == 0 {
        None
    } else {
        let prev = newest_source(files.drop_last());
        let (ext, t) = files.last();
        if source_extensions().contains(ext@) {
            match prev {
                Some(m) => Some(if t > m { t } else { m }),
                None => Some(t),
            }
        } else {
            prev
        }
    }
}

/// Whether entry `i` of `files` is a source file.
pub open spec fn is_source_at(files: Seq<(String, u128)>, i: int) -> bool {
    source_extensions().contains(files[i].0@)
}

/// The newest source time is the maximum over the source files: no source
/// file is newer, one of them has exactly that time, and there is none
/// exactly when no file is a source.
pub proof fn law_newest_source_is_max(files: Seq<(String, u128)>)
    ensures
        forall|i: int| 0 <= i < files.len() && #[trigger] is_source_at(files, i) ==>
            (newest_source(files) matches Some(m) && files[i].1 <= m),
        newest_source(files) matches Some(m) ==>
            exists|i: int| 0 <= i < files.len() && #[trigger] is_source_at(files, i) && files[i].1 == m,
        newest_source(files) is None <==> forall|i: int| 0 <= i < files.len() ==> !#[trigger] is_source_at(files, i),
    decreases files.len(),
{
    if files.len() > 0 {
        let f0 = files.drop_last();
        law_newest_source_is_max(f0);
        let n = files.len() - 1;
        assert forall|i: int| 0 <= i < n implies #[trigger] is_source_at(files, i) == is_source_at(f0, i) by {
            assert(files[i] == f0[i]);
        }
        assert forall|i: int| 0 <= i < files.len() && #[trigger] is_source_at(files, i) implies
            (newest_source(files) matches Some(m) && files[i].1 <= m) by {
            if i < n {
                assert(is_source_at(f0, i));
                assert(files[i] == f0[i]);
            }
        }
        if let Some(m) = newest_source(files) {
            if is_source_at(files, n) && files[n].1 == m {
            } else {
                let pm = newest_source(f0);
                assert(pm == Some(m));
                let j = choose|j: int| 0 <= j < f0.len() && #[trigger] is_source_at(f0, j) && f0[j].1 == m;
                assert(is_source_at(files, j));
                assert(files[j] == f0[j]);
            }
        }
        if newest_source(files) is None {
            assert forall|i: int| 0 <= i < files.len() implies !#[trigger] is_source_at(files, i) by {
                if i < n {
                    assert(!is_source_at(f0, i));
                }
            }
        }
        if forall|i: int| 0 <= i < files.len() ==> !#[trigger] is_source_at(files, i) {
            assert forall|i: int| 0 <= i < f0.len() implies !#[trigger] is_source_at(f0, i) by {
                assert(!is_source_at(files, i));
            }
            assert(!is_source_at(files, n));
        }
    }
}

/// The newest modification time among the source files of a handler
/// folder's top level.
pub fn newest_source_mtime(files: &Vec<(String, u128)>) -> (r: Option<u128>)
    ensures
        r == newest_source(files@),
        forall|i: int| 0 <= i < files@.len() && #[trigger] is_source_at(files@, i) ==>
            (r matches Some(m) && files@[i].1 <= m),
        r matches Some(m) ==> exists|i: int| 0 <= i < files@.len() && #[trigger] is_source_at(files@, i) && files@[i].1 == m,
        r is None <==> forall|i: int| 0 <= i < files@.len() ==> !#[trigger] is_source_at(files@, i),
{
    proof { law_newest_source_is_max(files@); }
    let mut best: Option<u128> = None;
    let mut i: usize = 0;
    while i < files.len()
        invariant
            i <= files@.len(),
            best == newest_source(files@.take(i as int)),
        decreases files@.len() - i,
    {
        proof { assert(files@.take(i + 1).drop_last() =~= files@.take(i as int)); }
        let t = files[i].1;
        if is_source_extension(files[i].0.as_str()) {
            best = match best {
                Some(m) => Some(if t > m { t } else { m }),
                None => Some(t),
            };
        }
        i = i + 1;
    }
    proof { assert(files@.take(files@.len() as int) =~= files@); }
    best
}

/// `s` without every leading `./`.
pub open spec fn strip_dot_slash(s: Seq<char>) -> Seq<char>
    decreases s.len(),
{
    if s.len() >= 2 && s[0] == '.' && s[1] == '/' { strip_dot_slash(s.subrange(2, s.len() as int)) } else { s }
}

/// The binary's path relative to the handler folder: the entry command
/// without its leading `./` (each of them).
pub fn binary_relative_path(cmd: &str) -> (r: String)
    ensures
        r@ == strip_dot_slash(cmd@),
{
    let cs = chars_of(cmd);
    let mut start: usize = 0;
    proof { assert(cs@.subrange(0, cs@.len() as int) =~= cs@); }
    while cs.len() >= 2 && start <= cs.len() - 2 && cs[start] == '.' && cs[start + 1] == '/'
        invariant
            start <= cs@.len(),
            cs@ == cmd@,
            strip_dot_slash(cs@.subrange(start as int, cs@.len() as int)) == strip_dot_slash(cmd@),
        decreases cs@.len() - start,
    {
        proof {
            let t = cs@.subrange(start as int, cs@.len() as int);
            assert(t.subrange(2, t.len() as int) =~= cs@.subrange(start + 2, cs@.len() as int));
        }
        start = start + 2;
    }
    proof {
        let t = cs@.subrange(start as int, cs@.len() as int);
        assert(strip_dot_slash(t) == t);
    }
    let mut out: Vec<char> = Vec::new();
    let mut i: usize = start;
    while i < cs.len()
        invariant
            start <= i <= cs@.len(),
            out@ == cs@.subrange(start as int, i as int),
        decreases cs@.len() - i,
    {
        out.push(cs[i]);
        proof { assert(out@ =~= cs@.subrange(start as int, i + 1)); }
        i = i + 1;
    }
    let r = string_of(&out);
    proof { assert(out@ =~= cs@.subrange(start as int, cs@.len() as int)); }
    r
}

/// Whether a handler must be built before it runs. Never without a build
/// command or an entry command; never when the entry command is an absolute
/// path or a bare name found on `PATH`; always when the binary inside the
/// folder is missing; otherwise when some source file is newer than it.
pub open spec fn build_needed_spec(has_build: bool, cmd: Option<Seq<char>>, cmd_on_path: bool,
    bin_mtime: Option<u128>, newest: Option<u128>) -> bool
{
    if !has_build {
        false
    } else {
        match cmd {
            None => false,
            Some(c) => if c.len() > 0 && c[0] == '/' {
                false
            } else if !c.contains('/') && !(c.len() > 0 && c[0] == '.') && cmd_on_path {
                false
            } else {
                match bin_mtime {
                    None => true,
                    Some(b) => match newest {
                        Some(s) => s > b,
                        None => false,
                    },
                }
            },
        }
    }
}

/// Decides whether a handler must be built, from what the caller found on
/// disk: whether the entry command is found on `PATH`, the binary's
/// modification time (none when it is missing) and the newest source time.
pub fn build_needed(has_build: bool, cmd: Option<&str>, cmd_on_path: bool, bin_mtime: Option<u128>,
    newest: Option<u128>) -> (b: bool)
    ensures
        b == build_needed_spec(has_build, match cmd { Some(c) => Some(c@), None => None }, cmd_on_path,
            bin_mtime, newest),
{
    if !has_build {
        return false;
    }
    let c = match cmd {
        Some(c) => c,
        None => return false,
    };
    let cs = chars_of(c);
    if cs.len() > 0 && cs[0] == '/' {
        return false;
    }
    let mut has_slash = false;
    let mut i: usize = 0;
    while i < cs.len()
        invariant
            i <= cs@.len(),
            has_slash <==> exists|j: int| 0 <= j < i && cs@[j] == '/',
        decreases cs@.len() - i,
    {
        if cs[i] == '/' {
            has_slash = true;
        }
        i = i + 1;
    }
    proof {
        assert(has_slash <==> cs@.contains('/'));
    }
    let dotted = cs.len() > 0 && cs[0] == '.';
    if !has_slash && !dotted && cmd_on_path {
        return false;
    }
    match bin_mtime {
        None => true,
        Some(b) => match newest {
            Some(s) => s > b,
            None => false,
        },
    }
}

/// With a build command and an entry command that names a binary inside the
/// folder (relative, and not a bare name found on `PATH`) which exists, a
/// build is needed exactly when some source file of the folder is newer
/// than the binary.
pub proof fn law_build_when_a_source_is_newer(files: Seq<(String, u128)>, cmd: Seq<char>, cmd_on_path: bool,
    bin_mtime: u128)
    requires
        !(cmd.len() > 0 && cmd[0] == '/'),
        !(!cmd.contains('/') && !(cmd.len() > 0 && cmd[0] == '.') && cmd_on_path),
    ensures
        build_needed_spec(true, Some(cmd), cmd_on_path, Some(bin_mtime), newest_source(files))
            <==> exists|i: int| 0 <= i < files.len() && #[trigger] is_source_at(files, i) && files[i].1 > bin_mtime,
{
    law_newest_source_is_max(files);
    if let Some(m) = newest_source(files) {
        if m > bin_mtime {
            let i = choose|i: int| 0 <= i < files.len() && #[trigger] is_source_at(files, i) && files[i].1 == m;
            assert(is_source_at(files, i) && files[i].1 > bin_mtime);
        }
    }
}

/// The exit status of `handler build`: the number of failed builds, at
/// most 125.
pub fn build_exit_code(failed: usize) -> (code: i32)
    ensures
        code == (if failed < 125 { failed as int } else { 125 }),
{
    if failed < 125 { failed as i32 } else { 125 }
}

} // verus!
