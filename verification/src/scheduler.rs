//! The scan scheduler's state and decisions: the per-run options the
//! pipeline reads, the directory queue, the busy-worker counter, the
//! first-run shard boost, and the termination condition.

use std::collections::VecDeque;
use std::sync::Arc;
use vstd::prelude::*;
use vstd::string::*;
use crate::text::{count_char, count_matching, lemma_count_le_len, str_eq};
use crate::validator::{DirectoryInfo, ScanOpts};
use crate::wordlist::UriGenerator;

verus! {

/// The per-run configuration the scan pipeline's decisions read.
#[derive(Clone, Debug)]
pub struct GlobalOpts {
    /// Base URLs, each ending in a slash.
    pub hostnames: Vec<String>,
    /// Prefixes prepended to each word; may contain the empty string.
    pub prefixes: Vec<String>,
    /// Extensions applied to each word; may contain the empty string.
    pub extensions: Vec<String>,
    /// Replace an existing extension instead of appending.
    pub extension_substitution: bool,
    /// Concurrency cap on busy workers.
    pub max_threads: u32,
    /// Configured shard count for one directory.
    pub wordlist_split: u32,
    /// Options consulted when gating directory descent.
    pub scan_opts: ScanOpts,
    /// Bound on listable-scrape recursion; unbounded when absent.
    pub max_recursion_depth: Option<i32>,
    /// Scrape hyperlinks out of listable directories.
    pub scrape_listable: bool,
}

impl GlobalOpts {
    /// The bounds argument parsing guarantees.
    pub open spec fn wf(&self) -> bool {
        &&& self.max_threads >= 1
        &&& self.wordlist_split >= 1
        &&& 1 <= self.hostnames@.len() <= u32::MAX
    }
}

/// The shard count used when enqueuing one directory: boosted on the
/// first run when there is headroom, so the initial bulk phase uses the
/// whole pool; the configured count otherwise.
pub open spec fn effective_split(opts: GlobalOpts, first_run: bool) -> int {
    let hosts = opts.hostnames@.len() as int;
    if first_run && opts.max_threads >= 3 && opts.wordlist_split * hosts < opts.max_threads - 2 {
        (opts.max_threads - 2) as int / hosts
    } else {
        opts.wordlist_split as int
    }
}

/// Computes the shard count for one enqueued directory.
pub fn compute_split(opts: &GlobalOpts, first_run: bool) -> (r: u32)
    requires
        opts.wf(),
    ensures
        r as int == effective_split(*opts, first_run),
        r >= 1,
{
    let hosts: u64 = opts.hostnames.len() as u64;
    proof {
        assert((opts.wordlist_split as u64) as int * hosts as int <= 0xFFFF_FFFF as int
            * 0xFFFF_FFFF as int) by (nonlinear_arith)
            requires
                opts.wordlist_split <= 0xFFFF_FFFF as u32,
                hosts <= 0xFFFF_FFFF as u64,
        ;
    }
    if first_run && opts.max_threads >= 3 && (opts.wordlist_split as u64) * hosts < (
    opts.max_threads as u64) - 2 {
        let s = ((opts.max_threads as u64) - 2) / hosts;
        proof {
            assert(hosts as int <= opts.wordlist_split as int * hosts as int) by (nonlinear_arith)
                requires
                    opts.wordlist_split >= 1,
                    hosts >= 1,
            ;
            assert(s >= 1 && s as int <= opts.max_threads as int - 2) by (nonlinear_arith)
                requires
                    hosts as int >= 1,
                    hosts as int <= opts.max_threads as int - 2,
                    s as int == (opts.max_threads as int - 2) / (hosts as int),
            ;
        }
        s as u32
    } else {
        opts.wordlist_split
    }
}

/// Relies on `Arc::clone`: the clone is the same shared value.
#[verifier::external_body]
fn clone_wordlist(w: &Arc<Vec<String>>) -> (r: Arc<Vec<String>>)
    ensures
        r == *w,
{
    w.clone()
}

/// The generator standing at offset `off` of the block enqueued for one
/// directory: the block walks prefixes, then extensions, then shards,
/// in that nesting order.
pub open spec fn queued_generator_ok(
    g: UriGenerator,
    off: int,
    opts: GlobalOpts,
    dir_info: DirectoryInfo,
    wordlist: Arc<Vec<String>>,
    split: int,
) -> bool {
    let es = opts.extensions@.len() * split;
    let pi = off / es;
    let rem = off % es;
    let ei = rem / split;
    let s = rem % split;
    &&& g.base == dir_info.url
    &&& g.prefix == opts.prefixes@[pi]
    &&& g.extension == opts.extensions@[ei]
    &&& g.wordlist == wordlist
    &&& g.shard == s
    &&& g.step == split
    &&& g.current_index == s
    &&& g.parent_index == dir_info.parent_index
    &&& g.parent_depth == dir_info.parent_depth
    &&& g.validator == dir_info.validator
    &&& g.extension_substitution == opts.extension_substitution
    &&& g.wf()
}

/// The scan queue grew by exactly the block of generators for one
/// directory: one per `(prefix, extension, shard)` triple, everything
/// already queued untouched.
pub open spec fn queue_extended(
    prev: Seq<UriGenerator>,
    cur: Seq<UriGenerator>,
    opts: GlobalOpts,
    dir_info: DirectoryInfo,
    wordlist: Arc<Vec<String>>,
    first_run: bool,
) -> bool {
    let split = effective_split(opts, first_run);
    &&& cur.len() == prev.len() + opts.prefixes@.len() * opts.extensions@.len() * split
    &&& (forall|t: int| 0 <= t < prev.len() ==> cur[t] == prev[t])
    &&& (forall|t: int| prev.len() <= t < cur.len() ==> queued_generator_ok(
        #[trigger] cur[t],
        t - prev.len(),
        opts,
        dir_info,
        wordlist,
        split,
    ))
}

/// Appends one generator per `(prefix, extension, shard)` triple for a
/// confirmed directory, with the shard count boosted on the first run.
pub fn add_dir_to_scan_queue(
    scan_queue: &mut VecDeque<UriGenerator>,
    global_opts: &GlobalOpts,
    dir_info: &DirectoryInfo,
    wordlist: &Arc<Vec<String>>,
    first_run: bool,
)
    requires
        global_opts.wf(),
        old(scan_queue)@.len() + global_opts.prefixes@.len() * global_opts.extensions@.len()
            * effective_split(*global_opts, first_run) <= usize::MAX,
    ensures
        final(scan_queue)@.len() == old(scan_queue)@.len() + global_opts.prefixes@.len()
            * global_opts.extensions@.len() * effective_split(*global_opts, first_run),
        queue_extended(
            old(scan_queue)@,
            final(scan_queue)@,
            *global_opts,
            *dir_info,
            *wordlist,
            first_run,
        ),
{
    let ghost old_len = scan_queue@.len() as int;
    let split_u32 = compute_split(global_opts, first_run);
    let split = split_u32 as usize;
    let ghost sp = effective_split(*global_opts, first_run);
    let pe = global_opts.prefixes.len();
    let ee = global_opts.extensions.len();
    if pe == 0 || ee == 0 {
        proof {
            assert(pe as int * ee as int * sp == 0) by (nonlinear_arith)
                requires
                    pe == 0 || ee == 0,
            ;
        }
        return;
    }
    proof {
        assert(ee as int * split as int <= pe as int * (ee as int * split as int)
            && pe as int * (ee as int * split as int) == pe as int * ee as int * split as int
            && 1 <= ee as int * split as int) by (nonlinear_arith)
            requires
                pe >= 1,
                ee >= 1,
                split >= 1,
        ;
    }
    let es: usize = ee * split;
    let total: usize = pe * es;
    let mut c: usize = 0;
    while c < total
        invariant
            0 <= c <= total,
            total == pe * es,
            es == ee * split,
            es >= 1,
            pe == global_opts.prefixes@.len(),
            ee == global_opts.extensions@.len(),
            split == sp,
            split >= 1,
            sp == effective_split(*global_opts, first_run),
            total as int == pe as int * ee as int * sp,
            old_len == old(scan_queue)@.len(),
            scan_queue@.len() == old_len + c,
            old_len + total <= usize::MAX,
            forall|t: int| 0 <= t < old_len ==> scan_queue@[t] == old(scan_queue)@[t],
            forall|t: int| old_len <= t < scan_queue@.len() ==> queued_generator_ok(
                #[trigger] scan_queue@[t],
                t - old_len,
                *global_opts,
                *dir_info,
                *wordlist,
                sp,
            ),
        decreases total - c,
    {
        let pi = c / es;
        let rem = c % es;
        let ei = rem / split;
        let s = rem % split;
        proof {
            assert(pi < pe && rem < es) by (nonlinear_arith)
                requires
                    es >= 1,
                    c < total,
                    total == pe * es,
                    pi == c / es,
                    rem == c % es,
            ;
            assert(ei < ee && s < split) by (nonlinear_arith)
                requires
                    split >= 1,
                    rem < es,
                    es == ee * split,
                    ei == rem / split,
                    s == rem % split,
            ;
        }
        let gen = UriGenerator::new(
            dir_info.url.clone(),
            global_opts.prefixes[pi].clone(),
            global_opts.extensions[ei].clone(),
            clone_wordlist(wordlist),
            s,
            split,
            dir_info.parent_index,
            dir_info.parent_depth,
            dir_info.validator,
            global_opts.extension_substitution,
        );
        let ghost prev = scan_queue@;
        scan_queue.push_back(gen);
        proof {
            assert(scan_queue@ == prev.push(gen));
            assert forall|t: int| 0 <= t < prev.len() implies scan_queue@[t] == prev[t] by {
                assert(prev.push(gen)[t] == prev[t]);
            }
            assert(scan_queue@[old_len + c] == gen);
            assert(queued_generator_ok(gen, c as int, *global_opts, *dir_info, *wordlist, sp));
            assert forall|t: int| old_len <= t < scan_queue@.len() implies queued_generator_ok(
                #[trigger] scan_queue@[t],
                t - old_len,
                *global_opts,
                *dir_info,
                *wordlist,
                sp,
            ) by {
                if t < old_len + c {
                    assert(prev.push(gen)[t] == prev[t]);
                    assert(scan_queue@[t] == prev[t]);
                    assert(queued_generator_ok(prev[t], t - old_len, *global_opts, *dir_info,
                        *wordlist, sp));
                }
            }
        }
        c = c + 1;
    }
    proof {
        assert(scan_queue@.len() == old_len + pe as int * ee as int * sp);
    }
}

/// The scheduler's owned state: the queue of generators awaiting a
/// worker, and how many workers are busy.
pub struct SchedulerState {
    /// Generators awaiting a worker, in arrival order.
    pub scan_queue: VecDeque<UriGenerator>,
    /// Number of spawned workers whose end sentinel has not arrived.
    pub threads_in_use: u32,
}

/// The reserved URL a worker's end sentinel carries.
pub open spec fn is_end_marker(url: Seq<char>) -> bool {
    url == "data:END"@
}

/// Whether a confirmed directory is to be scanned: always when no
/// profile was built, else as its profile decides.
pub open spec fn spec_scan_wanted(dir_info: DirectoryInfo, opts: GlobalOpts) -> bool {
    match dir_info.validator {
        Some(v) => v.spec_scan_folder(opts.scan_opts),
        None => true,
    }
}

impl SchedulerState {
    /// A scheduler with nothing queued and no busy worker.
    pub fn new() -> (r: SchedulerState)
        ensures
            r.scan_queue@.len() == 0,
            r.threads_in_use == 0,
    {
        SchedulerState { scan_queue: VecDeque::new(), threads_in_use: 0 }
    }

    /// Ingests one message from the validator channel: an end sentinel
    /// releases one worker; a skipped directory changes nothing; a
    /// scannable directory is expanded into the queue.
    pub fn process_dir_info(
        &mut self,
        dir_info: &DirectoryInfo,
        opts: &GlobalOpts,
        wordlist: &Arc<Vec<String>>,
        first_run: bool,
    ) -> (skipped: bool)
        requires
            opts.wf(),
            is_end_marker(dir_info.url@) ==> old(self).threads_in_use >= 1,
            old(self).scan_queue@.len() + opts.prefixes@.len() * opts.extensions@.len()
                * effective_split(*opts, first_run) <= usize::MAX,
        ensures
            is_end_marker(dir_info.url@) ==> {
                &&& !skipped
                &&& final(self).threads_in_use == old(self).threads_in_use - 1
                &&& final(self).scan_queue@ == old(self).scan_queue@
            },
            !is_end_marker(dir_info.url@) && !spec_scan_wanted(*dir_info, *opts) ==> {
                &&& skipped
                &&& final(self).threads_in_use == old(self).threads_in_use
                &&& final(self).scan_queue@ == old(self).scan_queue@
            },
            !is_end_marker(dir_info.url@) && spec_scan_wanted(*dir_info, *opts) ==> {
                &&& !skipped
                &&& final(self).threads_in_use == old(self).threads_in_use
                &&& queue_extended(
                    old(self).scan_queue@,
                    final(self).scan_queue@,
                    *opts,
                    *dir_info,
                    *wordlist,
                    first_run,
                )
            },
    {
        if str_eq(dir_info.url.as_str(), "data:END") {
            self.threads_in_use = self.threads_in_use - 1;
            false
        } else {
            let wanted = match &dir_info.validator {
                Some(v) => v.scan_folder(&opts.scan_opts),
                None => true,
            };
            if wanted {
                add_dir_to_scan_queue(&mut self.scan_queue, opts, dir_info, wordlist, first_run);
                false
            } else {
                true
            }
        }
    }

    /// A worker can be spawned: the pool has room and work is queued.
    pub fn should_dispatch(&self, opts: &GlobalOpts) -> (r: bool)
        ensures
            r == (self.threads_in_use < opts.max_threads && self.scan_queue@.len() > 0),
    {
        self.threads_in_use < opts.max_threads && self.scan_queue.len() > 0
    }

    /// Hands the oldest queued generator to a new worker and counts it
    /// busy.
    pub fn dispatch(&mut self) -> (r: UriGenerator)
        requires
            old(self).scan_queue@.len() > 0,
            old(self).threads_in_use < u32::MAX,
        ensures
            r == old(self).scan_queue@[0],
            final(self).scan_queue@ == old(self).scan_queue@.drop_first(),
            final(self).threads_in_use == old(self).threads_in_use + 1,
    {
        let gen = self.scan_queue.pop_front().unwrap();
        self.threads_in_use = self.threads_in_use + 1;
        proof {
            assert(self.scan_queue@ =~= old(self).scan_queue@.drop_first());
        }
        gen
    }

    /// The run is over exactly when the scan queue is empty and no
    /// worker is busy: nothing can produce further work.
    pub fn scan_finished(&self) -> (r: bool)
        ensures
            r == (self.scan_queue@.len() == 0 && self.threads_in_use == 0),
    {
        self.threads_in_use == 0 && self.scan_queue.len() == 0
    }
}

/// Path-segment count of a base URL whose only slashes outside the
/// path are the two of the scheme separator: the slash count less two.
pub fn host_depth(url: &String) -> (r: u32)
    requires
        url@.len() < 0x8000_0000,
        count_matching(url@, '/') >= 2,
    ensures
        r as int == count_matching(url@, '/') - 2,
{
    proof {
        lemma_count_le_len(url@, '/');
    }
    let cnt = count_char(url.as_str(), '/');
    (cnt - 2) as u32
}

} // verus!
