//! The prompt context engine: the simplified working-directory label, the
//! version-control branch read out of the repository's HEAD file, and the
//! prompt string built from them.

use vstd::prelude::*;

use crate::paths::{base_name, base_name_spec};
use crate::strutil::{str_eq, str_has_prefix, trim_spec, trim_str};

verus! {

/// The label shown for the working directory. Inside a repository it is
/// the repository directory's base name followed by the path below it
/// (nothing more when the working directory is the root itself). Outside
/// any repository it is the full path, with the home-directory prefix
/// replaced by `~`.
pub open spec fn simplified_cwd_spec(
    cwd: Seq<char>,
    home: Seq<char>,
    root: Option<Seq<char>>,
) -> Seq<char> {
    match root {
        Some(r) => {
            let rel = if cwd == r {
                Seq::<char>::empty()
            } else if (r + "/"@).is_prefix_of(cwd) {
                cwd.skip(r.len() as int + 1)
            } else {
                cwd
            };
            if rel.len() == 0 {
                base_name_spec(r)
            } else {
                base_name_spec(r) + "/"@ + rel
            }
        },
        None => {
            if home.is_prefix_of(cwd) {
                "~"@ + cwd.skip(home.len() as int)
            } else {
                cwd
            }
        },
    }
}

/// Computes the working-directory label for the prompt. `git_root` is the
/// repository root found among the ancestors of `cwd`, if any.
pub fn get_simplified_cwd(cwd: &str, home: &str, git_root: &Option<String>) -> (r: String)
    ensures
        r@ == simplified_cwd_spec(cwd@, home@, git_root.deep_view()),
{
    match git_root {
        Some(root) => {
            let base = base_name(root.as_str());
            if str_eq(cwd, root.as_str()) {
                return base.to_owned();
            }
            let mut root_slash: String = root.as_str().to_owned();
            root_slash.append("/");
            let n = cwd.unicode_len();
            let mut rel: &str = cwd;
            if str_has_prefix(cwd, root_slash.as_str()) {
                let rl = root.as_str().unicode_len();
                proof {
                    reveal_strlit("/");
                    assert(root_slash@.len() == root@.len() + 1);
                    assert(root_slash@.len() <= cwd@.len());
                }
                rel = cwd.substring_char(rl + 1, n);
                proof {
                    assert(rel@ =~= cwd@.skip(root@.len() as int + 1));
                }
            }
            if rel.unicode_len() == 0 {
                proof {
                    assert(simplified_cwd_spec(cwd@, home@, git_root.deep_view())
                        == base_name_spec(root@));
                }
                return base.to_owned();
            }
            let mut out: String = base.to_owned();
            out.append("/");
            out.append(rel);
            proof {
                assert(out@ =~= base_name_spec(root@) + "/"@ + rel@);
            }
            out
        },
        None => {
            if str_has_prefix(cwd, home) {
                let n = cwd.unicode_len();
                let hl = home.unicode_len();
                let rest = cwd.substring_char(hl, n);
                let mut out: String = "~".to_owned();
                out.append(rest);
                proof {
                    assert(rest@ =~= cwd@.skip(home@.len() as int));
                }
                return out;
            }
            cwd.to_owned()
        },
    }
}

/// The branch named by the HEAD file's content: what stands after the
/// symbolic-reference prefix, or nothing when the prefix is absent (a
/// detached head or any other format).
pub open spec fn head_branch_spec(content: Seq<char>) -> Seq<char> {
    let t = trim_spec(content);
    if "ref: refs/heads/"@.is_prefix_of(t) {
        t.skip("ref: refs/heads/"@.len() as int)
    } else {
        Seq::<char>::empty()
    }
}

/// Extracts the branch name from the content of a repository's HEAD file.
pub fn parse_head_branch(content: &str) -> (r: String)
    ensures
        r@ == head_branch_spec(content@),
{
    let t = trim_str(content);
    let marker = "ref: refs/heads/";
    if str_has_prefix(t, marker) {
        let ml = marker.unicode_len();
        let tl = t.unicode_len();
        let rest = t.substring_char(ml, tl);
        proof {
            assert(rest@ =~= trim_spec(content@).skip("ref: refs/heads/"@.len() as int));
        }
        rest.to_owned()
    } else {
        String::new()
    }
}

/// The prompt line: user and host in color, then the location; a branch,
/// when present, follows in colored brackets.
pub open spec fn prompt_spec(
    user: Seq<char>,
    host: Seq<char>,
    location: Seq<char>,
    branch: Seq<char>,
) -> Seq<char> {
    let head = "\u{1b}[33m"@ + user + "@"@ + host + "\u{1b}[0m"@ + ": "@ + location;
    if branch.len() == 0 {
        head + "$ "@
    } else {
        head + " \u{1b}[33m["@ + branch + "]\u{1b}[0m$ "@
    }
}

/// Renders the prompt from the context's display values. An empty branch
/// means none was detected, and the bracketed segment is omitted.
pub fn format_prompt(user: &str, host: &str, location: &str, branch: &str) -> (r: String)
    ensures
        r@ == prompt_spec(user@, host@, location@, branch@),
{
    let mut out: String = "\u{1b}[33m".to_owned();
    out.append(user);
    out.append("@");
    out.append(host);
    out.append("\u{1b}[0m");
    out.append(": ");
    out.append(location);
    if branch.unicode_len() == 0 {
        out.append("$ ");
        proof {
            assert(out@ =~= prompt_spec(user@, host@, location@, branch@));
        }
    } else {
        out.append(" \u{1b}[33m[");
        out.append(branch);
        out.append("]\u{1b}[0m$ ");
        proof {
            assert(out@ =~= prompt_spec(user@, host@, location@, branch@));
        }
    }
    out
}

} // verus!
