//! Bundling: the supported targets, the runtimes a bundle needs, and the
//! bundle's README.

use vstd::prelude::*;
use crate::text::{contains_str, insert_sorted, push_str, str_eq, strictly_ascending, views};

verus! {

/// Arguments of `rowforge pack`.
pub struct PackArgs {
    /// Target alias: darwin-arm64 | linux-x86_64 | linux-aarch64.
    pub target: String,
    /// Handler directories to include.
    pub handlers: Vec<String>,
    /// Output zip path.
    pub output: String,
}

/// A build target.
pub struct Target {
    /// The name users give.
    pub alias: &'static str,
    /// The Rust target triple.
    pub triple: &'static str,
    /// Suffix of the binary's file name.
    pub bin_suffix: &'static str,
}

/// The triple of a supported alias.
pub open spec fn target_triple(alias: Seq<char>) -> Option<Seq<char>> {
    if alias == "darwin-arm64"@ {
        Some("aarch64-apple-darwin"@)
    } else if alias == "linux-x86_64"@ {
        Some("x86_64-unknown-linux-gnu"@)
    } else if alias == "linux-aarch64"@ {
        Some("aarch64-unknown-linux-gnu"@)
    } else {
        None
    }
}

pub open spec fn unknown_target_message(alias: Seq<char>) -> Seq<char> {
    "unknown --target '"@ + alias + "'. Supported: darwin-arm64, linux-x86_64, linux-aarch64"@
}

/// The target of an alias; an unknown alias is refused with the list of
/// supported ones.
pub fn parse_target(alias: &str) -> (r: Result<Target, String>)
    ensures
        match target_triple(alias@) {
            Some(t) => r matches Ok(tg) && tg.triple@ == t && tg.alias@ == alias@ && tg.bin_suffix@ == ""@,
            None => r matches Err(m) && m@ == unknown_target_message(alias@),
        },
{
    proof {
        reveal_strlit("darwin-arm64");
        reveal_strlit("linux-x86_64");
        reveal_strlit("linux-aarch64");
        assert("darwin-arm64"@[0] != "linux-x86_64"@[0]);
        assert("darwin-arm64"@[0] != "linux-aarch64"@[0]);
        assert("linux-x86_64"@[6] != "linux-aarch64"@[6]);
    }
    if str_eq(alias, "darwin-arm64") {
        Ok(Target { alias: "darwin-arm64", triple: "aarch64-apple-darwin", bin_suffix: "" })
    } else if str_eq(alias, "linux-x86_64") {
        Ok(Target { alias: "linux-x86_64", triple: "x86_64-unknown-linux-gnu", bin_suffix: "" })
    } else if str_eq(alias, "linux-aarch64") {
        Ok(Target { alias: "linux-aarch64", triple: "aarch64-unknown-linux-gnu", bin_suffix: "" })
    } else {
        let mut m = "unknown --target '".to_string();
        push_str(&mut m, alias);
        push_str(&mut m, "'. Supported: darwin-arm64, linux-x86_64, linux-aarch64");
        Err(m)
    }
}

/// A bundle needs at least one handler.
pub fn check_handlers(handlers: &Vec<String>) -> (r: Result<(), String>)
    ensures
        handlers@.len() > 0 <==> r is Ok,
        r matches Err(m) ==> m@ == "at least one --handler is required"@,
{
    if handlers.len() == 0 {
        proof { reveal_strlit("at least one --handler is required"); }
        return Err("at least one --handler is required".to_string());
    }
    Ok(())
}

// ---------------------------------------------------------------------------
// Runtimes
// ---------------------------------------------------------------------------

/// The non-empty languages of the handler summaries `(name, version,
/// description, language)`.
pub open spec fn languages(hs: Seq<(String, String, String, String)>) -> Set<Seq<char>> {
    Set::new(|l: Seq<char>| l.len() > 0 && exists|i: int| 0 <= i < hs.len() && (#[trigger] hs[i]).3@ == l)
}

/// The runtimes a bundle's recipient must install: the handlers' non-empty
/// languages, each once, in ascending order.
pub fn bundle_runtimes(handlers: &Vec<(String, String, String, String)>) -> (r: Vec<String>)
    ensures
        strictly_ascending(views(r@)),
        views(r@).no_duplicates(),
        views(r@).to_set() == languages(handlers@),
{
    let mut r: Vec<String> = Vec::new();
    let mut i: usize = 0;
    while i < handlers.len()
        invariant
            i <= handlers@.len(),
            strictly_ascending(views(r@)),
            views(r@).no_duplicates(),
            views(r@).to_set() == languages(handlers@.take(i as int)),
        decreases handlers@.len() - i,
    {
        let lang = handlers[i].3.as_str();
        let ghost pre = handlers@.take(i as int);
        let ghost post = handlers@.take(i + 1);
        if !lang.is_empty() && !contains_str(&r, lang) {
            insert_sorted(&mut r, lang.to_string());
        }
        proof {
            assert(post[i as int] == handlers@[i as int]);
            assert(views(r@).to_set() =~= languages(post)) by {
                assert forall|l: Seq<char>| languages(post).contains(l) <==> views(r@).to_set().contains(l) by {
                    if languages(post).contains(l) {
                        let k = choose|k: int| 0 <= k < post.len() && (#[trigger] post[k]).3@ == l;
                        if k < i {
                            assert(pre[k] == post[k]);
                            assert(languages(pre).contains(l));
                        }
                    }
                    if languages(pre).contains(l) {
                        let k = choose|k: int| 0 <= k < pre.len() && (#[trigger] pre[k]).3@ == l;
                        assert(post[k] == pre[k]);
                    }
                }
            }
        }
        i = i + 1;
    }
    proof { assert(handlers@.take(handlers@.len() as int) =~= handlers@); }
    r
}

// ---------------------------------------------------------------------------
// README
// ---------------------------------------------------------------------------

/// One handler's line of the README.
pub open spec fn handler_line(h: (String, String, String, String)) -> Seq<char> {
    "- **"@ + h.0@ + " "@ + h.1@ + "** ("@ + (if h.3@.len() == 0 { "n/a"@ } else { h.3@ }) + ") \u{2014} "@
        + (if h.2@.len() == 0 { "(no description)"@ } else { h.2@ }) + "\n"@
}

pub open spec fn handler_lines(hs: Seq<(String, String, String, String)>) -> Seq<char>
    decreases hs.len(),
{
    if hs.len() == 0 { Seq::empty() } else { handler_lines(hs.drop_last()) + handler_line(hs.last()) }
}

pub open spec fn runtime_lines(rs: Seq<String>) -> Seq<char>
    decreases rs.len(),
{
    if rs.len() == 0 { Seq::empty() } else { runtime_lines(rs.drop_last()) + "- "@ + rs.last()@ + "\n"@ }
}

pub open spec fn readme_text(alias: Seq<char>, hs: Seq<(String, String, String, String)>, rs: Seq<String>) -> Seq<char> {
    "# rowforge bundle ("@ + alias + ")\n\n"@
        + "Unzip and run:\n\n```\n./rowforge run --handler handlers/<name> --input data.csv --output-dir ./out\n```\n\n"@
        + "## Handlers\n\n"@
        + handler_lines(hs)
        + if rs.len() == 0 {
            Seq::empty()
        } else {
            "\n## Recipient runtime requirements\n\n"@ + "Install these on the target machine before running handlers:\n\n"@
                + runtime_lines(rs)
        }
}

fn push_handler_line(s: &mut String, h: &(String, String, String, String))
    ensures
        final(s)@ == old(s)@ + handler_line(*h),
{
    push_str(s, "- **");
    push_str(s, h.0.as_str());
    push_str(s, " ");
    push_str(s, h.1.as_str());
    push_str(s, "** (");
    if h.3.as_str().is_empty() {
        push_str(s, "n/a");
    } else {
        push_str(s, h.3.as_str());
    }
    push_str(s, ") \u{2014} ");
    if h.2.as_str().is_empty() {
        push_str(s, "(no description)");
    } else {
        push_str(s, h.2.as_str());
    }
    push_str(s, "\n");
    proof {
        assert(s@ =~= old(s)@ + handler_line(*h));
    }
}

/// The README of a bundle: how to run it, one line per handler, and the
/// runtimes to install when there are any.
pub fn render_readme(target: &Target, handlers: &Vec<(String, String, String, String)>, runtimes: &Vec<String>) -> (s: String)
    ensures
        s@ == readme_text(target.alias@, handlers@, runtimes@),
{
    let mut s = String::new();
    push_str(&mut s, "# rowforge bundle (");
    push_str(&mut s, target.alias);
    push_str(&mut s, ")\n\n");
    push_str(&mut s, "Unzip and run:\n\n```\n./rowforge run --handler handlers/<name> --input data.csv --output-dir ./out\n```\n\n");
    push_str(&mut s, "## Handlers\n\n");
    let ghost head = s@;
    let mut i: usize = 0;
    while i < handlers.len()
        invariant
            i <= handlers@.len(),
            s@ == head + handler_lines(handlers@.take(i as int)),
        decreases handlers@.len() - i,
    {
        push_handler_line(&mut s, &handlers[i]);
        proof {
            assert(handlers@.take(i + 1).drop_last() =~= handlers@.take(i as int));
            assert(handlers@.take(i + 1).last() == handlers@[i as int]);
            assert(s@ =~= head + handler_lines(handlers@.take(i + 1)));
        }
        i = i + 1;
    }
    proof { assert(handlers@.take(handlers@.len() as int) =~= handlers@); }
    if runtimes.len() > 0 {
        push_str(&mut s, "\n## Recipient runtime requirements\n\n");
        push_str(&mut s, "Install these on the target machine before running handlers:\n\n");
        let ghost mid = s@;
        let mut k: usize = 0;
        while k < runtimes.len()
            invariant
                k <= runtimes@.len(),
                s@ == mid + runtime_lines(runtimes@.take(k as int)),
            decreases runtimes@.len() - k,
        {
            push_str(&mut s, "- ");
            push_str(&mut s, runtimes[k].as_str());
            push_str(&mut s, "\n");
            proof {
                assert(runtimes@.take(k + 1).drop_last() =~= runtimes@.take(k as int));
                assert(runtimes@.take(k + 1).last() == runtimes@[k as int]);
                assert(s@ =~= mid + runtime_lines(runtimes@.take(k + 1)));
            }
            k = k + 1;
        }
        proof { assert(runtimes@.take(runtimes@.len() as int) =~= runtimes@); }
    }
    proof {
        assert(s@ =~= readme_text(target.alias@, handlers@, runtimes@));
    }
    s
}

/// Whether a bundle entry is the top-level `rowforge` binary, which is
/// stored executable.
pub open spec fn is_root_binary_path(rel: Seq<char>) -> bool {
    rel == "rowforge"@ || rel == "rowforge.exe"@
}

pub fn is_root_binary(rel: &str) -> (b: bool)
    ensures
        b == is_root_binary_path(rel@),
{
    str_eq(rel, "rowforge") || str_eq(rel, "rowforge.exe")
}

} // verus!
