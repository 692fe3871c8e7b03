//! Start-up decisions: where `servers.toml` is found, and which files of the
//! repository are sources to sample.

use crate::paths::{is_platform_separator, join, joined, main_separator};
use crate::config::{Config, ServerConfig};
use crate::text::{push_str, str_eq};
use vstd::prelude::*;

verus! {

/// Where a user-level `servers.toml` lives under the platform's
/// configuration directory `base`, joined with the platform's separator.
pub fn config_path_in(base: &str) -> (r: String)
    ensures
        exists|sep: char|
            is_platform_separator(sep) && r@ == #[trigger] joined(joined(base@, "lspgraph"@, sep), "servers.toml"@, sep),
{
    let sep = main_separator();
    let dir = join(base, "lspgraph", sep);
    let r = join(dir.as_str(), "servers.toml", sep);
    proof {
        assert(r@ == joined(joined(base@, "lspgraph"@, sep), "servers.toml"@, sep));
    }
    r
}

/// A place `servers.toml` may be, and whether a file is there.
#[derive(Debug, Clone)]
pub struct Candidate {
    pub path: String,
    pub is_file: bool,
}

/// The lines naming the places looked in, each indented by two spaces.
pub open spec fn looked_in(paths: Seq<Seq<char>>) -> Seq<char>
    decreases paths.len(),
{
    if paths.len() == 0 {
        Seq::empty()
    } else if paths.len() == 1 {
        "  "@ + paths[0]
    } else {
        looked_in(paths.drop_last()) + "\n"@ + "  "@ + paths.last()
    }
}

pub open spec fn override_error(path: Seq<char>) -> Seq<char> {
    "LSPGRAPH_SERVERS_TOML points at "@ + path + ", which is not a readable file"@
}

pub open spec fn not_found_error(paths: Seq<Seq<char>>) -> Seq<char> {
    "no servers.toml found. Looked in:\n"@ + looked_in(paths)
        + "\n\nCreate one of those, or set LSPGRAPH_SERVERS_TOML. A minimal file looks like:\n\n  [python]\n  cmd = \"basedpyright-langserver --stdio\"\n  extensions = [\"py\"]"@
}

/// The places searched after the override: the working directory, then
/// the user-level path.
pub open spec fn search_order(cwd: Candidate, user: Option<Candidate>) -> Seq<Candidate> {
    match user {
        Some(u) => seq![cwd, u],
        None => seq![cwd],
    }
}

/// Which `servers.toml` to use, most specific first: an explicit override
/// must exist (it is named in the error rather than silently ignored);
/// otherwise the first of the working directory's and the user-level file
/// that exists; otherwise an error that lists every path looked in and shows
/// a minimal file.
pub fn resolve_servers_toml(override_: Option<Candidate>, cwd: Candidate, user: Option<Candidate>) -> (r: Result<String, String>)
    ensures
        match override_ {
            Some(p) => if p.is_file {
                r matches Ok(s) && s@ == p.path@
            } else {
                r matches Err(e) && e@ == override_error(p.path@)
            },
            None => {
                let tried = search_order(cwd, user);
                if tried[0].is_file {
                    r matches Ok(s) && s@ == tried[0].path@
                } else if tried.len() > 1 && tried[1].is_file {
                    r matches Ok(s) && s@ == tried[1].path@
                } else {
                    r matches Err(e) && e@ == not_found_error(tried.map_values(|c: Candidate| c.path@))
                }
            },
        },
{
    match override_ {
        Some(p) => {
            if p.is_file {
                return Ok(p.path);
            }
            let mut e = String::new();
            push_str(&mut e, "LSPGRAPH_SERVERS_TOML points at ");
            push_str(&mut e, p.path.as_str());
            push_str(&mut e, ", which is not a readable file");
            return Err(e);
        },
        None => {},
    }
    let ghost tried = search_order(cwd, user);
    let ghost paths = tried.map_values(|c: Candidate| c.path@);
    if cwd.is_file {
        return Ok(cwd.path);
    }
    let mut e = String::new();
    push_str(&mut e, "no servers.toml found. Looked in:\n");
    push_str(&mut e, "  ");
    push_str(&mut e, cwd.path.as_str());
    match user {
        Some(u) => {
            if u.is_file {
                return Ok(u.path);
            }
            push_str(&mut e, "\n");
            push_str(&mut e, "  ");
            push_str(&mut e, u.path.as_str());
            proof {
                assert(paths.drop_last() =~= seq![cwd.path@]);
                assert(paths.last() == u.path@);
                assert(looked_in(paths) == looked_in(seq![cwd.path@]) + "\n"@ + "  "@ + u.path@);
                assert(looked_in(seq![cwd.path@]) == "  "@ + cwd.path@);
                assert(e@ =~= "no servers.toml found. Looked in:\n"@ + looked_in(paths));
            }
        },
        None => {
            proof {
                assert(paths =~= seq![cwd.path@]);
                assert(looked_in(paths) == "  "@ + cwd.path@);
                assert(e@ =~= "no servers.toml found. Looked in:\n"@ + looked_in(paths));
            }
        },
    }
    let ghost head = e@;
    push_str(
        &mut e,
        "\n\nCreate one of those, or set LSPGRAPH_SERVERS_TOML. A minimal file looks like:\n\n  [python]\n  cmd = \"basedpyright-langserver --stdio\"\n  extensions = [\"py\"]",
    );
    proof {
        assert(head == "no servers.toml found. Looked in:\n"@ + looked_in(paths));
        assert(e@ =~= not_found_error(paths));
    }
    Err(e)
}

/// Directories never searched for sources.
pub open spec fn skipped_dir(name: Seq<char>) -> bool {
    name == ".git"@ || name == "node_modules"@ || name == "target"@ || name == "vendor"@
}

pub fn is_skipped_dir(name: &str) -> (r: bool)
    ensures
        r == skipped_dir(name@),
{
    str_eq(name, ".git") || str_eq(name, "node_modules") || str_eq(name, "target") || str_eq(name, "vendor")
}

/// Is a file with extension `ext` (none when it has none) one of the
/// server's sources?
pub fn has_listed_extension(ext: Option<&str>, exts: &[String]) -> (r: bool)
    ensures
        r == match ext {
            Some(x) => exists|i: int| 0 <= i < exts@.len() && #[trigger] exts@[i]@ == x@,
            None => false,
        },
{
    match ext {
        Some(x) => {
            let mut i: usize = 0;
            while i < exts.len()
                invariant
                    i <= exts@.len(),
                    ext == Some(x),
                    forall|j: int| 0 <= j < i ==> #[trigger] exts@[j]@ != x@,
                decreases exts.len() - i,
            {
                if str_eq(exts[i].as_str(), x) {
                    proof {
                        assert(exts@[i as int]@ == x@);
                    }
                    return true;
                }
                i = i + 1;
            }
            false
        },
        None => false,
    }
}

/// Names joined by `, `.
pub open spec fn comma_joined(names: Seq<Seq<char>>) -> Seq<char>
    decreases names.len(),
{
    if names.len() == 0 {
        Seq::empty()
    } else if names.len() == 1 {
        names[0]
    } else {
        comma_joined(names.drop_last()) + ", "@ + names.last()
    }
}

/// The languages a configuration defines, in name order.
pub open spec fn language_names(cfg: Config) -> Seq<Seq<char>> {
    cfg.servers.spec_entries().map_values(|e: (Seq<char>, ServerConfig)| e.0)
}

/// The error for a language the configuration at `cfg_path` does not
/// define, given the language as quoted text (`{:?}`): it names the
/// languages the configuration does define, in name order.
pub fn unknown_language(quoted_lang: &str, cfg_path: &str, cfg: &Config) -> (r: String)
    ensures
        r@ == "no language named "@ + quoted_lang@ + " in "@ + cfg_path@ + ". It defines: "@ + comma_joined(
            language_names(*cfg),
        ),
{
    let entries = cfg.servers.entries();
    let ghost b = language_names(*cfg);
    let mut names = String::new();
    let mut i: usize = 0;
    proof {
        assert(entries@.map_values(crate::strmap::entry_view()).len() == entries@.len());
    }
    while i < entries.len()
        invariant
            i <= entries@.len(),
            entries@.len() == b.len(),
            entries@.map_values(crate::strmap::entry_view()) == cfg.servers.spec_entries(),
            b == language_names(*cfg),
            names@ == comma_joined(b.take(i as int)),
        decreases entries.len() - i,
    {
        proof {
            assert(b.take(i + 1).drop_last() =~= b.take(i as int));
            assert(b.take(i + 1).last() == b[i as int]);
            assert(b[i as int] == entries@[i as int].0@);
        }
        if i > 0 {
            push_str(&mut names, ", ");
        } else {
            proof {
                assert(b.take(i + 1) =~= seq![b[0]]);
                assert(names@ =~= Seq::<char>::empty());
            }
        }
        push_str(&mut names, entries[i].0.as_str());
        proof {
            if i == 0 {
                assert(names@ =~= comma_joined(b.take(i + 1)));
            }
        }
        i = i + 1;
    }
    proof {
        assert(b.take(i as int) =~= b);
    }
    let mut r = String::new();
    push_str(&mut r, "no language named ");
    push_str(&mut r, quoted_lang);
    push_str(&mut r, " in ");
    push_str(&mut r, cfg_path);
    push_str(&mut r, ". It defines: ");
    push_str(&mut r, names.as_str());
    proof {
        reveal_strlit("no language named ");
        reveal_strlit(" in ");
        reveal_strlit(". It defines: ");
        assert(r@ =~= "no language named "@ + quoted_lang@ + " in "@ + cfg_path@ + ". It defines: "@
            + comma_joined(b));
    }
    r
}

} // verus!
