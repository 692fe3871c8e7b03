//! Decide when a language server is genuinely ready.
//!
//! There is no portable readiness signal, and quiet-period heuristics are
//! wrong: rust-analyzer goes silent for ~17s during dependency fetch. The
//! only portable answer is to poll a real semantic request across MANY
//! candidates and accept the first that answers.
//!
//! One deadline governs both phases. [`Gathering`] collects candidates from
//! an evenly spread sample of files, as long as the deadline allows;
//! [`Polling`] then asks about them until one answers or time runs out. The
//! program performs the requests and feeds back what it got.

use crate::clock::{Duration, Instant};
use crate::config::ServerConfig;
use crate::error::{Error, Result};
use crate::symbols::{callables_in, callables_view, collect_named_callables, CallableView, DocumentSymbol, NamedCallable};
use vstd::prelude::*;

verus! {

#[derive(Debug, Clone)]
pub struct ReadinessConfig {
    /// How many files to sample for candidates.
    pub max_files: usize,
    /// How many candidates to take from each file.
    pub per_file: usize,
    /// The one deadline for gathering and polling together.
    pub timeout: Duration,
}

impl Default for ReadinessConfig {
    fn default() -> (r: ReadinessConfig)
        ensures
            r.max_files == 40,
            r.per_file == 3,
            r.timeout.spec_nanos() == 300 * 1_000_000_000,
    {
        ReadinessConfig { max_files: 40, per_file: 3, timeout: Duration::from_secs(300) }
    }
}

impl ReadinessConfig {
    /// The defaults, with the server's own readiness timeout.
    pub fn from_server_config(cfg: &ServerConfig) -> (r: ReadinessConfig)
        ensures
            r.max_files == 40,
            r.per_file == 3,
            r.timeout.spec_nanos() == cfg.ready_timeout_secs * 1_000_000_000,
    {
        ReadinessConfig { max_files: 40, per_file: 3, timeout: Duration::from_secs(cfg.ready_timeout_secs) }
    }
}

/// The positions `even_stride` picks from `len` items, at most `max`: all of
/// them when they fit, else every `len / max`-th, starting at the first.
pub open spec fn stride_picks(len: nat, max: nat) -> Seq<int> {
    if len == 0 || max == 0 {
        Seq::empty()
    } else if len <= max {
        Seq::new(len, |k: int| k)
    } else {
        Seq::new(max, |k: int| k * (len / max) as int)
    }
}

/// Sample up to `max` items spread evenly across the slice.
///
/// Taking the first N alphabetically is a trap: it can land entirely inside
/// one directory (a benchmark tree with unresolvable imports, say), which
/// makes a healthy server look dead.
pub fn even_stride<T>(items: &[T], max: usize) -> (r: Vec<&T>)
    ensures
        r@.len() == stride_picks(items@.len(), max as nat).len(),
        forall|k: int|
            0 <= k < r@.len() ==> 0 <= stride_picks(items@.len(), max as nat)[k] < items@.len() && *r@[k]
                == items@[#[trigger] stride_picks(items@.len(), max as nat)[k]],
{
    let mut out: Vec<&T> = Vec::new();
    let n = items.len();
    if n == 0 || max == 0 {
        return out;
    }
    if n <= max {
        let mut i: usize = 0;
        while i < n
            invariant
                n == items@.len(),
                n <= max,
                n > 0,
                i <= n,
                out@.len() == i,
                forall|k: int| 0 <= k < i ==> *out@[k] == items@[k],
            decreases n - i,
        {
            out.push(&items[i]);
            i = i + 1;
        }
        return out;
    }
    let stride = n / max;
    let mut k: usize = 0;
    while k < max
        invariant
            n == items@.len(),
            n > max,
            max > 0,
            stride == n / max,
            k <= max,
            out@.len() == k,
            forall|j: int| 0 <= j < k ==> *out@[j] == items@[j * stride],
        decreases max - k,
    {
        proof {
            lemma_stride_in_range(k as int, max as int, n as int);
        }
        out.push(&items[k * stride]);
        k = k + 1;
    }
    proof {
        assert forall|j: int| 0 <= j < out@.len() implies 0 <= stride_picks(n as nat, max as nat)[j] < n
            && *out@[j] == items@[#[trigger] stride_picks(n as nat, max as nat)[j]] by {
            lemma_stride_in_range(j, max as int, n as int);
        }
    }
    out
}

/// A stride sample holds at most `max` picks, and at most `len`.
proof fn lemma_stride_len(len: nat, max: nat)
    ensures
        stride_picks(len, max).len() <= max,
        stride_picks(len, max).len() <= len,
{
}

/// Every pick of a stride sample lies inside the slice.
proof fn lemma_stride_in_range(k: int, max: int, n: int)
    requires
        0 <= k < max,
        max < n,
    ensures
        0 <= k * (n / max) < n,
{
    vstd::arithmetic::div_mod::lemma_fundamental_div_mod(n, max);
    let q = n / max;
    let r = n % max;
    assert(q >= 1) by {
        if q <= 0 {
            assert(max * q <= 0) by (nonlinear_arith)
                requires
                    max > 0,
                    q <= 0,
            ;
        }
    }
    assert(0 <= k * q <= (max - 1) * q) by (nonlinear_arith)
        requires
            0 <= k <= max - 1,
            q >= 1,
    ;
    assert((max - 1) * q == max * q - q) by (nonlinear_arith);
}

/// A capped sample reaches the far end of the slice: its last pick is less
/// than one stride plus `max` from the end, and its first is the first item.
pub proof fn lemma_stride_reaches_the_end(len: nat, max: nat)
    requires
        0 < max < len,
    ensures
        stride_picks(len, max)[0] == 0,
        stride_picks(len, max).last() + (len / max) as int + max > len,
{
    vstd::arithmetic::div_mod::lemma_fundamental_div_mod(len as int, max as int);
    let q = (len / max) as int;
    let last = stride_picks(len, max).last();
    assert(last == (max - 1) * q);
    assert((max - 1) * q == max * q - q) by (nonlinear_arith);
}

/// Time left before `deadline`, or `None` if it has already passed.
pub fn remaining_budget(deadline: Instant, now: Instant) -> (r: Option<Duration>)
    ensures
        r is Some <==> (now.spec_nanos() < deadline.spec_nanos() && deadline.spec_nanos() - now.spec_nanos()
            <= crate::clock::max_duration_nanos()),
        r matches Some(d) ==> d.spec_nanos() == deadline.spec_nanos() - now.spec_nanos(),
{
    match deadline.checked_duration_since(now) {
        Some(d) => if d.is_zero() {
            None
        } else {
            Some(d)
        },
        None => None,
    }
}

/// The first phase: gathering candidate symbols from a sample of files.
pub struct Gathering {
    deadline: Instant,
    timeout: Duration,
    per_file: usize,
    max_files: usize,
    files_len: usize,
    candidates: Vec<NamedCallable>,
    files_attempted: usize,
    files_failed: usize,
}

/// The second phase: asking about the candidates until one answers.
pub struct Polling {
    deadline: Instant,
    timeout: Duration,
    candidates: Vec<NamedCallable>,
}

/// Is there still time before `deadline`?
pub open spec fn before_deadline(deadline: Instant, now: Instant) -> bool {
    now.spec_nanos() < deadline.spec_nanos() && deadline.spec_nanos() - now.spec_nanos()
        <= crate::clock::max_duration_nanos()
}

/// The candidates one file contributes: its first `per_file` named callables.
pub open spec fn file_candidates(symbols: Seq<DocumentSymbol>, uri: Seq<char>, per_file: nat) -> Seq<CallableView> {
    let all = callables_in(symbols, uri);
    if all.len() <= per_file {
        all
    } else {
        all.take(per_file as int)
    }
}

impl Gathering {
    pub closed spec fn spec_deadline(&self) -> Instant {
        self.deadline
    }

    pub closed spec fn spec_timeout(&self) -> Duration {
        self.timeout
    }

    pub closed spec fn spec_per_file(&self) -> nat {
        self.per_file as nat
    }

    pub closed spec fn spec_max_files(&self) -> nat {
        self.max_files as nat
    }

    /// The positions, in the list of the repository's files, of the files
    /// to examine, in order: the stride sample of `even_stride`.
    pub closed spec fn spec_sample(&self) -> Seq<int> {
        stride_picks(self.files_len as nat, self.max_files as nat)
    }

    pub closed spec fn spec_files_len(&self) -> nat {
        self.files_len as nat
    }

    pub closed spec fn spec_candidates(&self) -> Seq<CallableView> {
        callables_view(self.candidates@)
    }

    pub closed spec fn spec_attempted(&self) -> nat {
        self.files_attempted as nat
    }

    pub closed spec fn spec_failed(&self) -> nat {
        self.files_failed as nat
    }

    /// Files are examined in sample order, each failed one is an examined
    /// one, and each examined file gives at most `per_file` candidates.
    pub open spec fn wf(&self) -> bool {
        &&& self.spec_failed() <= self.spec_attempted()
        &&& self.spec_attempted() <= self.spec_sample().len()
        &&& self.spec_candidates().len() <= self.spec_attempted() * self.spec_per_file()
    }

    /// Start gathering at `now` over a repository of `files_len` files; the
    /// deadline is `now` plus the timeout, and the files to examine are the
    /// stride sample of at most `max_files` of them.
    pub fn start(cfg: &ReadinessConfig, files_len: usize, now: Instant) -> (g: Gathering)
        requires
            now.spec_nanos() + cfg.timeout.spec_nanos() <= u128::MAX,
        ensures
            g.wf(),
            g.spec_deadline().spec_nanos() == now.spec_nanos() + cfg.timeout.spec_nanos(),
            g.spec_timeout() == cfg.timeout,
            g.spec_per_file() == cfg.per_file,
            g.spec_max_files() == cfg.max_files,
            g.spec_files_len() == files_len,
            g.spec_sample() == stride_picks(files_len as nat, cfg.max_files as nat),
            g.spec_candidates() == Seq::<CallableView>::empty(),
            g.spec_attempted() == 0,
            g.spec_failed() == 0,
    {
        let g = Gathering {
            deadline: now + cfg.timeout,
            timeout: cfg.timeout,
            per_file: cfg.per_file,
            max_files: cfg.max_files,
            files_len,
            candidates: Vec::new(),
            files_attempted: 0,
            files_failed: 0,
        };
        proof {
            assert(g.spec_candidates() =~= Seq::<CallableView>::empty());
        }
        g
    }

    /// May another file still be examined at `now`?
    pub fn in_time(&self, now: Instant) -> (r: bool)
        ensures
            r == before_deadline(self.spec_deadline(), now),
    {
        remaining_budget(self.deadline, now).is_some()
    }

    /// The position, in the list of the repository's files, of the next
    /// file to examine, or `None` once the whole sample has been examined.
    pub fn next_file(&self) -> (r: Option<usize>)
        requires
            self.wf(),
        ensures
            r == (if self.spec_attempted() < self.spec_sample().len() {
                Some(self.spec_sample()[self.spec_attempted() as int] as usize)
            } else {
                None::<usize>
            }),
            r matches Some(i) ==> i < self.spec_files_len(),
    {
        let n = self.files_len;
        let max = self.max_files;
        let k = self.files_attempted;
        if n == 0 || max == 0 {
            return None;
        }
        if n <= max {
            if k < n {
                return Some(k);
            }
            return None;
        }
        if k < max {
            proof {
                lemma_stride_in_range(k as int, max as int, n as int);
            }
            Some(k * (n / max))
        } else {
            None
        }
    }

    /// Record the file [`Gathering::next_file`] named, now examined: `None`
    /// when opening it or listing its symbols failed, else its symbols, of
    /// which the first `per_file` named callables become candidates.
    pub fn record_file(&mut self, symbols: Option<&[DocumentSymbol]>, uri: &str)
        requires
            old(self).wf(),
            old(self).spec_attempted() < old(self).spec_sample().len(),
        ensures
            final(self).wf(),
            final(self).spec_attempted() == old(self).spec_attempted() + 1,
            final(self).spec_failed() == old(self).spec_failed() + if symbols is None {
                1int
            } else {
                0int
            },
            final(self).spec_candidates() == old(self).spec_candidates() + match symbols {
                Some(s) => file_candidates(s@, uri@, old(self).spec_per_file()),
                None => Seq::<CallableView>::empty(),
            },
            final(self).spec_deadline() == old(self).spec_deadline(),
            final(self).spec_timeout() == old(self).spec_timeout(),
            final(self).spec_per_file() == old(self).spec_per_file(),
            final(self).spec_max_files() == old(self).spec_max_files(),
            final(self).spec_files_len() == old(self).spec_files_len(),
    {
        proof {
            lemma_stride_len(self.files_len as nat, self.max_files as nat);
        }
        self.files_attempted = self.files_attempted + 1;
        match symbols {
            None => {
                self.files_failed = self.files_failed + 1;
                proof {
                    assert(self.spec_candidates() =~= old(self).spec_candidates() + Seq::<CallableView>::empty());
                }
            },
            Some(syms) => {
                let mut found: Vec<NamedCallable> = Vec::new();
                collect_named_callables(syms, uri, &mut found);
                proof {
                    assert(callables_view(Seq::<NamedCallable>::empty()) =~= Seq::<CallableView>::empty());
                    assert(callables_view(found@) =~= callables_in(syms@, uri@));
                }
                let ghost all = found@;
                found.truncate(self.per_file);
                proof {
                    assert(callables_view(found@) =~= file_candidates(syms@, uri@, self.per_file as nat));
                }
                let mut i: usize = 0;
                let ghost start = self.candidates@;
                while i < found.len()
                    invariant
                        i <= found@.len(),
                        self.files_attempted == old(self).files_attempted + 1,
                        self.files_failed == old(self).files_failed,
                        self.deadline == old(self).deadline,
                        self.timeout == old(self).timeout,
                        self.per_file == old(self).per_file,
                        self.max_files == old(self).max_files,
                        self.files_len == old(self).files_len,
                        callables_view(self.candidates@) == callables_view(start) + callables_view(found@).take(
                            i as int,
                        ),
                    decreases found.len() - i,
                {
                    let ghost before = self.candidates@;
                    let c = NamedCallable { name: found[i].name.clone(), uri: found[i].uri.clone(), position: found[i].position };
                    self.candidates.push(c);
                    proof {
                        crate::graph::lemma_map_values_push(before, c, crate::symbols::callable_view());
                        assert(callables_view(found@).take(i + 1) =~= callables_view(found@).take(i as int).push(
                            found@[i as int]@,
                        ));
                    }
                    i = i + 1;
                }
                proof {
                    assert(callables_view(found@).take(i as int) =~= callables_view(found@));
                }
            },
        }
        proof {
            let a = old(self).spec_attempted();
            let pf = self.spec_per_file();
            let c0 = old(self).spec_candidates().len();
            let c1 = self.spec_candidates().len();
            assert(c1 <= c0 + pf);
            assert(c1 <= (a + 1) * pf) by (nonlinear_arith)
                requires
                    c1 <= c0 + pf,
                    c0 <= a * pf,
            ;
        }
    }

    /// The gathering's outcome: nothing to poll is an error of its own,
    /// naming how many files were examined and how many failed, not a
    /// timeout.
    pub fn finish(self) -> (r: Result<Polling>)
        requires
            self.wf(),
        ensures
            self.spec_candidates().len() == 0 <==> r is Err,
            self.spec_failed() <= self.spec_attempted() <= self.spec_sample().len() <= self.spec_max_files(),
            self.spec_candidates().len() <= self.spec_max_files() * self.spec_per_file(),
            r matches Err(e) ==> (e matches Error::NoCandidates { files_attempted, files_failed }
                && files_attempted == self.spec_attempted() && files_failed == self.spec_failed()),
            r matches Ok(p) ==> p.spec_candidates() == self.spec_candidates() && p.spec_deadline()
                == self.spec_deadline() && p.spec_timeout() == self.spec_timeout(),
    {
        proof {
            lemma_stride_len(self.files_len as nat, self.max_files as nat);
            let a = self.spec_attempted();
            let m = self.spec_max_files();
            let pf = self.spec_per_file();
            assert(a * pf <= m * pf) by (nonlinear_arith)
                requires
                    a <= m,
            ;
        }
        if self.candidates.len() == 0 {
            return Err(Error::NoCandidates { files_attempted: self.files_attempted, files_failed: self.files_failed });
        }
        Ok(Polling { deadline: self.deadline, timeout: self.timeout, candidates: self.candidates })
    }
}

/// What one answer about a candidate means for the wait.
#[derive(Debug, Clone, Copy, PartialEq, Eq, Structural)]
pub enum PollStep {
    /// The server answered for real: it is ready.
    Ready,
    /// Ask about the next candidate.
    AskOn,
    /// The deadline has passed without a real answer.
    GiveUp,
}

impl Polling {
    pub closed spec fn spec_deadline(&self) -> Instant {
        self.deadline
    }

    pub closed spec fn spec_timeout(&self) -> Duration {
        self.timeout
    }

    pub closed spec fn spec_candidates(&self) -> Seq<CallableView> {
        callables_view(self.candidates@)
    }

    /// The candidates, in the order they are asked about.
    pub fn candidates(&self) -> (r: &[NamedCallable])
        ensures
            callables_view(r@) == self.spec_candidates(),
    {
        self.candidates.as_slice()
    }

    /// May another request still be made at `now`? Checked before each
    /// candidate, not once per round, so that a round cannot run far past
    /// the deadline.
    pub fn in_time(&self, now: Instant) -> (r: bool)
        ensures
            r == before_deadline(self.spec_deadline(), now),
    {
        remaining_budget(self.deadline, now).is_some()
    }

    /// What the answer about one candidate means at `now`. A non-empty list
    /// of call hierarchy items (`Some(n)` with `n > 0`) shows the server
    /// ready, whenever it came; an empty list, or a request that failed
    /// (`None`), means asking on while the deadline allows, and giving up
    /// once it has passed.
    pub fn after_answer(&self, answer: Option<usize>, now: Instant) -> (r: PollStep)
        ensures
            r == (if answer matches Some(n) && n > 0 {
                PollStep::Ready
            } else if before_deadline(self.spec_deadline(), now) {
                PollStep::AskOn
            } else {
                PollStep::GiveUp
            }),
    {
        if let Some(n) = answer {
            if n > 0 {
                return PollStep::Ready;
            }
        }
        if self.in_time(now) {
            PollStep::AskOn
        } else {
            PollStep::GiveUp
        }
    }

    /// The error once time has run out without an answer.
    pub fn give_up(&self) -> (e: Error)
        ensures
            e matches Error::NotReady { timeout, tried } && timeout == self.spec_timeout() && tried
                == self.spec_candidates().len(),
    {
        Error::NotReady { timeout: self.timeout, tried: self.candidates.len() }
    }
}

} // verus!
