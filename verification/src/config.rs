//! Server configuration. Adding a language means adding a table, not code.

use crate::strmap::{entry_view, StrMap};
use crate::text::{is_whitespace_char, char_is_whitespace, str_chars, str_eq, string_from_chars};
use vstd::prelude::*;

verus! {

/// How long to wait for a server to become genuinely ready, in seconds,
/// when its table does not say.
pub fn default_ready_timeout() -> (r: u64)
    ensures
        r == 300,
{
    300
}

/// How many requests may be in flight at once, when the table does not say:
/// one, serial.
pub fn default_concurrency() -> (r: usize)
    ensures
        r == 1,
{
    1
}

#[derive(Debug, Clone)]
pub struct ServerConfig {
    /// Full command line, e.g. `"vtsls --stdio"`.
    pub cmd: String,
    /// File extensions without a leading dot.
    pub extensions: Vec<String>,
    /// How long to wait for the server to become genuinely ready, in
    /// seconds (default 300); read through
    /// [`crate::readiness::ReadinessConfig::from_server_config`].
    pub ready_timeout_secs: u64,
    /// Reserved: parsed and validated, but not consumed by anything yet.
    /// Every crawl today is serial whatever this says; the key is accepted
    /// so that configurations written against it keep parsing.
    pub concurrency: usize,
}

/// The words of `s` that follow the word in progress `cur`: maximal runs of
/// non-whitespace characters, in order (`str::split_whitespace`).
pub open spec fn words_from(s: Seq<char>, cur: Seq<char>) -> Seq<Seq<char>>
    decreases s.len(),
{
    if s.len() == 0 {
        if cur.len() > 0 {
            seq![cur]
        } else {
            Seq::empty()
        }
    } else if is_whitespace_char(s[0]) {
        (if cur.len() > 0 {
            seq![cur]
        } else {
            Seq::empty()
        }) + words_from(s.drop_first(), Seq::empty())
    } else {
        words_from(s.drop_first(), cur.push(s[0]))
    }
}

pub open spec fn words(s: Seq<char>) -> Seq<Seq<char>> {
    words_from(s, Seq::empty())
}

pub open spec fn string_view() -> spec_fn(String) -> Seq<char> {
    |s: String| s@
}

/// The words of a text, split on whitespace.
pub fn split_whitespace(s: &str) -> (r: Vec<String>)
    ensures
        r@.map_values(string_view()) == words(s@),
{
    let cs = str_chars(s);
    let mut out: Vec<String> = Vec::new();
    let mut cur: Vec<char> = Vec::new();
    let mut i: usize = 0;
    proof {
        assert(cs@.skip(0) =~= cs@);
        assert(out@.map_values(string_view()) =~= Seq::<Seq<char>>::empty());
        assert(Seq::<Seq<char>>::empty() + words_from(cs@, Seq::empty()) =~= words(s@));
    }
    while i < cs.len()
        invariant
            i <= cs@.len(),
            cs@ == s@,
            out@.map_values(string_view()) + words_from(cs@.skip(i as int), cur@) == words(s@),
        decreases cs.len() - i,
    {
        let c = cs[i];
        let ghost before = out@;
        proof {
            assert(cs@.skip(i as int).drop_first() =~= cs@.skip(i + 1));
            assert(cs@.skip(i as int)[0] == c);
        }
        if char_is_whitespace(c) {
            if cur.len() > 0 {
                let w = string_from_chars(cur.as_slice());
                out.push(w);
                proof {
                    crate::graph::lemma_map_values_push(before, w, string_view());
                    assert(before.map_values(string_view()).push(cur@) + words_from(cs@.skip(i + 1), Seq::empty())
                        =~= before.map_values(string_view()) + (seq![cur@] + words_from(
                        cs@.skip(i + 1),
                        Seq::empty(),
                    )));
                }
            } else {
                proof {
                    assert(Seq::<Seq<char>>::empty() + words_from(cs@.skip(i + 1), Seq::empty()) =~= words_from(
                        cs@.skip(i + 1),
                        Seq::empty(),
                    ));
                }
            }
            cur = Vec::new();
        } else {
            cur.push(c);
        }
        i = i + 1;
    }
    if cur.len() > 0 {
        let ghost before = out@;
        let w = string_from_chars(cur.as_slice());
        out.push(w);
        proof {
            crate::graph::lemma_map_values_push(before, w, string_view());
        }
    }
    proof {
        assert(cs@.skip(i as int) =~= Seq::<char>::empty());
        assert(out@.map_values(string_view()) =~= words(s@));
    }
    out
}

impl ServerConfig {
    /// Split `cmd` into program and arguments: the first word, or nothing,
    /// and the words after it.
    pub fn command(&self) -> (r: (String, Vec<String>))
        ensures
            r.0@ == if words(self.cmd@).len() > 0 {
                words(self.cmd@)[0]
            } else {
                Seq::<char>::empty()
            },
            r.1@.map_values(string_view()) == if words(self.cmd@).len() > 0 {
                words(self.cmd@).drop_first()
            } else {
                Seq::<Seq<char>>::empty()
            },
    {
        let mut parts = split_whitespace(self.cmd.as_str());
        if parts.len() == 0 {
            proof {
                assert(parts@.map_values(string_view()) =~= Seq::<Seq<char>>::empty());
            }
            return (String::new(), parts);
        }
        let ghost all = parts@;
        let prog = parts.remove(0);
        proof {
            assert(parts@ =~= all.drop_first());
            assert(parts@.map_values(string_view()) =~= all.map_values(string_view()).drop_first());
        }
        (prog, parts)
    }

    /// Is `ext` one of this server's extensions?
    pub fn handles(&self, ext: &str) -> (r: bool)
        ensures
            r == handles_ext(*self, ext@),
    {
        let mut i: usize = 0;
        while i < self.extensions.len()
            invariant
                i <= self.extensions@.len(),
                forall|j: int| 0 <= j < i ==> #[trigger] self.extensions@[j]@ != ext@,
            decreases self.extensions.len() - i,
        {
            if str_eq(self.extensions[i].as_str(), ext) {
                return true;
            }
            i = i + 1;
        }
        false
    }
}

/// Does this server handle extension `ext`?
pub open spec fn handles_ext(s: ServerConfig, ext: Seq<char>) -> bool {
    exists|i: int| 0 <= i < s.extensions@.len() && #[trigger] s.extensions@[i]@ == ext
}

/// The position of the first server, in language order, that handles `ext`.
pub open spec fn first_handler(s: Seq<(Seq<char>, ServerConfig)>, ext: Seq<char>, i: nat) -> Option<nat>
    decreases s.len() - i,
{
    if i >= s.len() {
        None
    } else if handles_ext(s[i as int].1, ext) {
        Some(i)
    } else {
        first_handler(s, ext, i + 1)
    }
}

/// The servers, by language.
#[derive(Debug, Clone)]
pub struct Config {
    pub servers: StrMap<ServerConfig>,
}

impl Config {
    pub fn new() -> (c: Config)
        ensures
            c.servers.wf(),
            c.servers.spec_entries().len() == 0,
    {
        Config { servers: StrMap::new() }
    }

    /// Resolve an extension (no leading dot) to a language id and its
    /// server: the first language, in order, whose server lists it.
    pub fn for_extension(&self, ext: &str) -> (r: Option<(&str, &ServerConfig)>)
        ensures
            match (r, first_handler(self.servers.spec_entries(), ext@, 0)) {
                (Some((lang, s)), Some(i)) => lang@ == self.servers.spec_entries()[i as int].0 && *s
                    == self.servers.spec_entries()[i as int].1,
                (None, None) => true,
                _ => false,
            },
    {
        let entries = self.servers.entries();
        let ghost s = self.servers.spec_entries();
        let mut i: usize = 0;
        while i < entries.len()
            invariant
                i <= entries@.len(),
                s == entries@.map_values(entry_view()),
                s == self.servers.spec_entries(),
                first_handler(s, ext@, 0) == first_handler(s, ext@, i as nat),
            decreases entries.len() - i,
        {
            if entries[i].1.handles(ext) {
                return Some((entries[i].0.as_str(), &entries[i].1));
            }
            i = i + 1;
        }
        None
    }
}

} // verus!
