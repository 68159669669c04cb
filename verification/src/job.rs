//! Queue items and the rules the queue follows: which job runs next, where
//! its output goes, and how a run ends.

use vstd::prelude::*;
use crate::media::MediaInfo;
use crate::natural::{
    lemma_natural_rank_antisymmetric, lemma_natural_rank_range, lemma_natural_rank_reflexive,
    lemma_natural_rank_transitive,
    natural_order, natural_rank,
};
use crate::paths::{
    extension, extension_of, file_name, file_name_of, file_stem, file_stem_of, join, joined_path,
    lowercase, opt_view, parent, parent_of, path_exists, paths_equal, same_path, to_lowercase,
};
use crate::preset::{Settings, target_ext};
use crate::text::{
    chars_of, contains, decimal, decimal_padded, find, find_chars, lemma_decimal_injective,
    pad_left, push_chars, push_decimal, push_decimal_wide, replace_all, replace_all_chars, same_chars, string_of,
    trim, trim_bounds, trim_str, views,
};

verus! {

#[derive(Debug, Clone, PartialEq)]
pub enum Status {
    Queued,
    Running,
    Done,
    Failed(String),
    Canceled,
}

impl Status {
    pub open spec fn finished(&self) -> bool {
        !(*self is Queued || *self is Running)
    }

    pub fn is_finished(&self) -> (r: bool)
        ensures
            r == self.finished(),
    {
        match self {
            Status::Queued | Status::Running => false,
            _ => true,
        }
    }
}

/// Progress of a finished job, in hundredths of a percent.
pub const FULL_PROGRESS: u32 = 10000;

/// One file in the queue.
pub struct Job {
    pub id: u64,
    pub input: String,
    /// Output file name without extension, editable per file.
    pub stem: String,
    pub out_dir: Option<String>,
    pub info: Option<MediaInfo>,
    pub probe_error: Option<String>,
    pub status: Status,
    /// Hundredths of a percent, `0` to `FULL_PROGRESS`.
    pub progress: u32,
    pub speed: String,
    pub pid: Option<u32>,
    pub cancel: bool,
    pub output: Option<String>,
}

/// The stem a path gives an output name: its own, or `output`.
pub open spec fn stem_or_output(path: Seq<char>) -> Seq<char> {
    match file_stem_of(path) {
        Some(s) => s,
        None => "output"@,
    }
}

/// The output name a row's stem stands for: trimmed, or `output` when blank.
pub open spec fn output_stem(stem: Seq<char>) -> Seq<char> {
    if trim(stem).len() == 0 {
        "output"@
    } else {
        trim(stem)
    }
}

/// Where a job's output goes: its own folder, else the common one, else next
/// to the source, else the working folder.
pub open spec fn target_dir(job: Job, default_dir: Option<String>) -> Seq<char> {
    match job.out_dir {
        Some(d) => d@,
        None => match default_dir {
            Some(d) => d@,
            None => match parent_of(job.input@) {
                Some(p) => p,
                None => "."@,
            },
        },
    }
}

pub open spec fn target_path_of(job: Job, default_dir: Option<String>, s: Settings) -> Seq<char> {
    joined_path(target_dir(job, default_dir), output_stem(job.stem@) + "."@ + target_ext(s.target))
}

fn name_or(v: Option<String>, fallback: &str) -> (r: String)
    ensures
        r@ == match opt_view(v) {
            Some(s) => s,
            None => fallback@,
        },
{
    match v {
        Some(s) => s,
        None => fallback.to_string(),
    }
}

impl Job {
    /// A queued job for `input`, with what probing it gave.
    pub fn new(id: u64, input: String, probed: Result<MediaInfo, String>) -> (r: Job)
        ensures
            r.id == id,
            r.input@ == input@,
            r.stem@ == stem_or_output(input@),
            r.out_dir is None,
            match probed {
                Ok(i) => r.info == Some(i) && r.probe_error is None,
                Err(e) => r.info is None && r.probe_error == Some(e),
            },
            r.status is Queued,
            r.progress == 0,
            r.speed@ == Seq::<char>::empty(),
            r.pid is None,
            !r.cancel,
            r.output is None,
    {
        let stem = name_or(file_stem(input.as_str()), "output");
        let (info, probe_error) = match probed {
            Ok(i) => (Some(i), None),
            Err(e) => (None, Some(e)),
        };
        Job {
            id,
            input,
            stem,
            out_dir: None,
            info,
            probe_error,
            status: Status::Queued,
            progress: 0,
            speed: String::new(),
            pid: None,
            cancel: false,
            output: None,
        }
    }

    /// The source's file name, or empty.
    pub fn name(&self) -> (r: String)
        ensures
            r@ == or_empty_view(file_name_of(self.input@)),
    {
        proof {
            reveal_strlit("");
            assert(""@ =~= Seq::<char>::empty());
        }
        name_or(file_name(self.input.as_str()), "")
    }

    /// Where this job would write, before collisions are settled.
    pub fn target_path(&self, default_dir: &Option<String>, s: &Settings) -> (r: String)
        ensures
            r@ == target_path_of(*self, *default_dir, *s),
    {
        let dir = match &self.out_dir {
            Some(d) => d.clone(),
            None => match default_dir {
                Some(d) => d.clone(),
                None => name_or(parent(self.input.as_str()), "."),
            },
        };
        let c = chars_of(self.stem.as_str());
        let (lo, hi) = trim_bounds(c.as_slice());
        let mut name = if lo == hi {
            "output".to_string()
        } else {
            string_of(c.as_slice(), lo, hi)
        };
        name.append(".");
        name.append(s.target.ext());
        join(dir.as_str(), name.as_str())
    }
}

pub open spec fn or_empty_view(v: Option<Seq<char>>) -> Seq<char> {
    match v {
        Some(s) => s,
        None => Seq::empty(),
    }
}

/// The queue of jobs, in display order.
pub struct Queue {
    pub jobs: Vec<Job>,
}

impl Default for Queue {
    fn default() -> (r: Self)
        ensures
            r.jobs@.len() == 0,
    {
        Queue { jobs: Vec::new() }
    }
}

/// Another started or finished job already writes to `p`.
pub open spec fn claimed(jobs: Seq<Job>, id: u64, p: Seq<char>) -> bool {
    exists|k: int|
        0 <= k < jobs.len() && #[trigger] jobs[k].id != id && !(jobs[k].status is Queued)
            && jobs[k].output is Some && same_path(jobs[k].output->0@, p)
}

/// Writing to `p` would hit the source itself or another job's output.
pub open spec fn clashes(jobs: Seq<Job>, id: u64, p: Seq<char>, input: Seq<char>) -> bool {
    same_path(p, input) || claimed(jobs, id, p)
}

/// `Adam-Kun.mov` → `Adam-Kun(n).mov`, next to it.
pub open spec fn candidate(base: Seq<char>, n: nat) -> Seq<char> {
    joined_path(
        or_empty_view(parent_of(base)),
        stem_or_output(base) + "("@ + decimal(n) + ")."@ + or_empty_view(extension_of(base)),
    )
}

/// `p` is free to write: nothing in the run claims it, it is not the source,
/// and, unless overwriting, no file of that name is already on disk.
pub open spec fn free_output(
    jobs: Seq<Job>,
    id: u64,
    p: Seq<char>,
    input: Seq<char>,
    overwrite: bool,
    on_disk: Set<Seq<char>>,
) -> bool {
    !clashes(jobs, id, p, input) && (overwrite || !on_disk.contains(p))
}

/// The first free numbered candidate from `n` on, or `base` when all of them
/// up to 9999 are taken.
pub open spec fn first_free_candidate(
    jobs: Seq<Job>,
    id: u64,
    base: Seq<char>,
    input: Seq<char>,
    overwrite: bool,
    on_disk: Set<Seq<char>>,
    n: nat,
) -> Seq<char>
    decreases 10000 - n,
{
    if n >= 10000 {
        base
    } else if free_output(jobs, id, candidate(base, n), input, overwrite, on_disk) {
        candidate(base, n)
    } else {
        first_free_candidate(jobs, id, base, input, overwrite, on_disk, n + 1)
    }
}

/// The collision rule, for a given set of files already on disk: `base` if
/// it is free, else the first free numbered candidate, else `base`.
pub open spec fn chosen_output(
    jobs: Seq<Job>,
    id: u64,
    base: Seq<char>,
    input: Seq<char>,
    overwrite: bool,
    on_disk: Set<Seq<char>>,
) -> Seq<char> {
    if free_output(jobs, id, base, input, overwrite, on_disk) {
        base
    } else {
        first_free_candidate(jobs, id, base, input, overwrite, on_disk, 1)
    }
}

proof fn lemma_first_free_candidate(
    jobs: Seq<Job>,
    id: u64,
    base: Seq<char>,
    input: Seq<char>,
    overwrite: bool,
    on_disk: Set<Seq<char>>,
    n: nat,
)
    requires
        1 <= n,
    ensures
        free_output(jobs, id, first_free_candidate(jobs, id, base, input, overwrite, on_disk, n), input, overwrite, on_disk)
            || (first_free_candidate(jobs, id, base, input, overwrite, on_disk, n) == base && forall|m: nat|
            n <= m < 10000 ==> !free_output(jobs, id, #[trigger] candidate(base, m), input, overwrite, on_disk)),
    decreases 10000 - n,
{
    if n < 10000 && !free_output(jobs, id, candidate(base, n), input, overwrite, on_disk) {
        lemma_first_free_candidate(jobs, id, base, input, overwrite, on_disk, n + 1);
    }
}

/// Names never collide, and the source is never written over: the path the
/// collision rule picks is free (not the source, not claimed by another job,
/// not on disk unless overwriting), except when `base` and every numbered
/// alternative up to 9999 are taken, and `base` is handed back as it is.
pub proof fn lemma_chosen_output_free(
    jobs: Seq<Job>,
    id: u64,
    base: Seq<char>,
    input: Seq<char>,
    overwrite: bool,
    on_disk: Set<Seq<char>>,
)
    ensures
        free_output(jobs, id, chosen_output(jobs, id, base, input, overwrite, on_disk), input, overwrite, on_disk)
            || (chosen_output(jobs, id, base, input, overwrite, on_disk) == base && !free_output(
            jobs,
            id,
            base,
            input,
            overwrite,
            on_disk,
        ) && forall|m: nat|
            1 <= m < 10000 ==> !free_output(jobs, id, #[trigger] candidate(base, m), input, overwrite, on_disk)),
        !same_path(chosen_output(jobs, id, base, input, overwrite, on_disk), input) || !free_output(
            jobs,
            id,
            chosen_output(jobs, id, base, input, overwrite, on_disk),
            input,
            overwrite,
            on_disk,
        ),
{
    lemma_first_free_candidate(jobs, id, base, input, overwrite, on_disk, 1);
}

impl Queue {
    /// Whether writing to `p` would hit the source or another job's output.
    pub fn clashes_with(&self, id: u64, p: &str, input: &str) -> (r: bool)
        ensures
            r == clashes(self.jobs@, id, p@, input@),
    {
        if paths_equal(p, input) {
            return true;
        }
        let mut k: usize = 0;
        while k < self.jobs.len()
            invariant
                k <= self.jobs@.len(),
                forall|j: int|
                    0 <= j < k ==> !(#[trigger] self.jobs@[j].id != id && !(
                    self.jobs@[j].status is Queued) && self.jobs@[j].output is Some && same_path(
                        self.jobs@[j].output->0@,
                        p@,
                    )),
            decreases self.jobs.len() - k,
        {
            let j = &self.jobs[k];
            if j.id != id && !matches!(j.status, Status::Queued) {
                if let Some(o) = &j.output {
                    if paths_equal(o.as_str(), p) {
                        return true;
                    }
                }
            }
            k += 1;
        }
        false
    }
}

/// The `n`-th numbered alternative to `base`.
pub fn candidate_path(base: &str, n: u64) -> (r: String)
    ensures
        r@ == candidate(base@, n as nat),
{
    proof {
        reveal_strlit("");
        assert(""@ =~= Seq::<char>::empty());
    }
    let dir = name_or(parent(base), "");
    let mut name = name_or(file_stem(base), "output");
    name.append("(");
    push_decimal(&mut name, n);
    name.append(").");
    let ext = name_or(extension(base), "");
    name.append(ext.as_str());
    assert(name@ =~= stem_or_output(base@) + "("@ + decimal(n as nat) + ")."@ + or_empty_view(
        extension_of(base@),
    ));
    join(dir.as_str(), name.as_str())
}

/// Whether `p` is among the paths in `on_disk`.
fn listed(on_disk: &Vec<String>, p: &str) -> (r: bool)
    ensures
        r == views(on_disk@).to_set().contains(p@),
{
    let mut k: usize = 0;
    while k < on_disk.len()
        invariant
            k <= on_disk@.len(),
            forall|m: int| 0 <= m < k ==> on_disk@[m]@ != p@,
        decreases on_disk.len() - k,
    {
        if crate::text::same_text(on_disk[k].as_str(), p) {
            assert(views(on_disk@)[k as int] == p@);
            return true;
        }
        k += 1;
    }
    proof {
        if views(on_disk@).contains(p@) {
            let m = choose|m: int| 0 <= m < views(on_disk@).len() && views(on_disk@)[m] == p@;
            assert(on_disk@[m]@ == p@);
        }
    }
    false
}

/// Whether `p` is free to write, given the files `on_disk`.
fn is_free(queue: &Queue, id: u64, p: &str, input: &str, overwrite: bool, on_disk: &Vec<String>) -> (r:
    bool)
    ensures
        r == free_output(queue.jobs@, id, p@, input@, overwrite, views(on_disk@).to_set()),
{
    !queue.clashes_with(id, p, input) && (overwrite || !listed(on_disk, p))
}

/// Picks an output path that collides with nothing, given which files are
/// already on disk: not the source file, not a path another job in this run
/// already claimed, and, unless the user asked for overwriting, not a file
/// in `on_disk`.
///
/// `Adam-Kun.mov` taken → `Adam-Kun(1).mov` → `Adam-Kun(2).mov` → …
pub fn pick_output(
    queue: &Queue,
    id: u64,
    base: String,
    input: &str,
    overwrite: bool,
    on_disk: &Vec<String>,
) -> (r: String)
    ensures
        r@ == chosen_output(queue.jobs@, id, base@, input@, overwrite, views(on_disk@).to_set()),
{
    let ghost d = views(on_disk@).to_set();
    if is_free(queue, id, base.as_str(), input, overwrite, on_disk) {
        return base;
    }
    let mut n: u64 = 1;
    while n < 10000
        invariant
            1 <= n <= 10000,
            d == views(on_disk@).to_set(),
            !free_output(queue.jobs@, id, base@, input@, overwrite, d),
            first_free_candidate(queue.jobs@, id, base@, input@, overwrite, d, 1)
                == first_free_candidate(queue.jobs@, id, base@, input@, overwrite, d, n as nat),
        decreases 10000 - n,
    {
        let c = candidate_path(base.as_str(), n);
        if is_free(queue, id, c.as_str(), input, overwrite, on_disk) {
            return c;
        }
        n += 1;
    }
    base
}

/// The path the collision rule looks at `n`-th: `base` first, then its
/// numbered alternatives.
spec fn rule_path(base: Seq<char>, n: nat) -> Seq<char> {
    if n == 0 {
        base
    } else {
        candidate(base, n)
    }
}

/// Numbered candidates `k` up to `n` where only the last one is free: the
/// first free one from `k` on is the `n`-th.
proof fn lemma_first_free_is(
    jobs: Seq<Job>,
    id: u64,
    base: Seq<char>,
    input: Seq<char>,
    overwrite: bool,
    on_disk: Set<Seq<char>>,
    k: nat,
    n: nat,
)
    requires
        1 <= k <= n < 10000,
        forall|m: nat| k <= m < n ==> !free_output(jobs, id, #[trigger] candidate(base, m), input, overwrite, on_disk),
        free_output(jobs, id, candidate(base, n), input, overwrite, on_disk),
    ensures
        first_free_candidate(jobs, id, base, input, overwrite, on_disk, k) == candidate(base, n),
    decreases n - k,
{
    if k < n {
        assert(!free_output(jobs, id, candidate(base, k), input, overwrite, on_disk));
        lemma_first_free_is(jobs, id, base, input, overwrite, on_disk, k + 1, n);
    }
}

/// No numbered candidate from `k` on is free: the search falls back to `base`.
proof fn lemma_first_free_none(
    jobs: Seq<Job>,
    id: u64,
    base: Seq<char>,
    input: Seq<char>,
    overwrite: bool,
    on_disk: Set<Seq<char>>,
    k: nat,
)
    requires
        1 <= k,
        forall|m: nat| k <= m < 10000 ==> !free_output(jobs, id, #[trigger] candidate(base, m), input, overwrite, on_disk),
    ensures
        first_free_candidate(jobs, id, base, input, overwrite, on_disk, k) == base,
    decreases 10000 - k,
{
    if k < 10000 {
        assert(!free_output(jobs, id, candidate(base, k), input, overwrite, on_disk));
        lemma_first_free_none(jobs, id, base, input, overwrite, on_disk, k + 1);
    }
}

/// The rule picks the `n`-th path it looks at when that one is free and every
/// earlier one is not.
proof fn lemma_rule_picks(
    jobs: Seq<Job>,
    id: u64,
    base: Seq<char>,
    input: Seq<char>,
    overwrite: bool,
    on_disk: Set<Seq<char>>,
    n: nat,
)
    requires
        n < 10000,
        forall|m: nat| m < n ==> !free_output(jobs, id, #[trigger] rule_path(base, m), input, overwrite, on_disk),
        free_output(jobs, id, rule_path(base, n), input, overwrite, on_disk),
    ensures
        chosen_output(jobs, id, base, input, overwrite, on_disk) == rule_path(base, n),
{
    if n > 0 {
        assert(rule_path(base, 0) == base);
        assert forall|m: nat| 1 <= m < n implies !free_output(jobs, id, #[trigger] candidate(base, m), input, overwrite, on_disk) by {
            assert(rule_path(base, m) == candidate(base, m));
        }
        lemma_first_free_is(jobs, id, base, input, overwrite, on_disk, 1, n);
    }
}

/// The disk answered `b` when asked about a path whose text is `q`.
pub open spec fn reported<F: Fn(String) -> bool>(on_disk: F, q: Seq<char>, b: bool) -> bool {
    exists|t: String| t@ == q && #[trigger] call_ensures(on_disk, (t,), b)
}

/// Picks an output path that collides with nothing, asking `on_disk` whether
/// a file is already there about each path in turn (the same paths, in the
/// same order, that the collision rule looks at), and only while it still
/// needs to know. The answer is the rule's choice for a set of files each of
/// which `on_disk` reported present; and, unless overwriting, a path that is
/// free under that set is one `on_disk` reported absent, so no file the disk
/// knows of is ever written over.
pub fn unique_output_with<F: Fn(String) -> bool>(
    queue: &Queue,
    id: u64,
    base: String,
    input: &str,
    overwrite: bool,
    on_disk: F,
) -> (r: String)
    requires
        forall|t: String| call_requires(on_disk, (t,)),
    ensures
        exists|d: Set<Seq<char>>|
            {
                &&& r@ == chosen_output(queue.jobs@, id, base@, input@, overwrite, d)
                &&& forall|q: Seq<char>| #[trigger] d.contains(q) ==> reported(on_disk, q, true)
                &&& !overwrite && free_output(queue.jobs@, id, r@, input@, overwrite, d) ==> reported(
                    on_disk,
                    r@,
                    false,
                )
            },
{
    let mut found: Vec<String> = Vec::new();
    let mut n: u64 = 0;
    while n < 10000
        invariant
            n <= 10000,
            forall|t: String| call_requires(on_disk, (t,)),
            forall|q: Seq<char>| #[trigger] views(found@).to_set().contains(q) ==> reported(on_disk, q, true),
            forall|m: nat|
                m < n ==> !free_output(
                    queue.jobs@,
                    id,
                    #[trigger] rule_path(base@, m),
                    input@,
                    overwrite,
                    views(found@).to_set(),
                ),
        decreases 10000 - n,
    {
        let p = if n == 0 {
            base.clone()
        } else {
            candidate_path(base.as_str(), n)
        };
        assert(p@ == rule_path(base@, n as nat));
        if !queue.clashes_with(id, p.as_str(), input) {
            if overwrite {
                proof {
                    lemma_rule_picks(queue.jobs@, id, base@, input@, overwrite, views(found@).to_set(), n as nat);
                }
                return p;
            }
            if !listed(&found, p.as_str()) {
                let t = p.clone();
                let present = on_disk(t);
                if !present {
                    proof {
                        assert(reported(on_disk, p@, false));
                        lemma_rule_picks(queue.jobs@, id, base@, input@, overwrite, views(found@).to_set(), n as nat);
                    }
                    return p;
                }
                let ghost before = views(found@);
                let ghost pv = p@;
                proof {
                    assert(reported(on_disk, pv, true));
                }
                found.push(p);
                proof {
                    let now = views(found@);
                    assert(now =~= before.push(pv));
                    assert(now[before.len() as int] == pv);
                    assert forall|q: Seq<char>| before.to_set().contains(q) implies #[trigger] now.to_set().contains(q) by {
                        let i = choose|i: int| 0 <= i < before.len() && before[i] == q;
                        assert(now[i] == q);
                    }
                    assert(now.to_set().contains(pv));
                    assert forall|q: Seq<char>| #[trigger] now.to_set().contains(q) implies reported(on_disk, q, true) by {
                        if q != pv {
                            let i = choose|i: int| 0 <= i < now.len() && now[i] == q;
                            assert(before[i] == q);
                            assert(before.to_set().contains(q));
                        }
                    }
                    assert forall|m: nat| m < n + 1 implies !free_output(
                        queue.jobs@,
                        id,
                        #[trigger] rule_path(base@, m),
                        input@,
                        overwrite,
                        now.to_set(),
                    ) by {
                        if m < n {
                            assert(!free_output(queue.jobs@, id, rule_path(base@, m), input@, overwrite, before.to_set()));
                        }
                    }
                }
            }
        }
        n += 1;
    }
    proof {
        let d = views(found@).to_set();
        assert(rule_path(base@, 0) == base@);
        assert(!free_output(queue.jobs@, id, base@, input@, overwrite, d));
        assert forall|m: nat| 1 <= m < 10000 implies !free_output(queue.jobs@, id, #[trigger] candidate(base@, m), input@, overwrite, d) by {
            assert(rule_path(base@, m) == candidate(base@, m));
        }
        lemma_first_free_none(queue.jobs@, id, base@, input@, overwrite, d, 1);
    }
    base
}

/// Picks an output path that collides with nothing, asking the disk about
/// each path in turn (the same paths, in the same order, that the collision
/// rule looks at): `unique_output_with` with `Path::exists` as the question
/// put to the disk, where what is proved of the answers is stated. What is on
/// disk can change under us, so here the answer is stated as the rule's
/// choice for the files the disk reported.
pub fn unique_output(queue: &Queue, id: u64, base: String, input: &str, overwrite: bool) -> (r:
    String)
    ensures
        exists|on_disk: Set<Seq<char>>|
            r@ == chosen_output(queue.jobs@, id, base@, input@, overwrite, on_disk),
{
    unique_output_with(queue, id, base, input, overwrite, |p: String| path_exists(p.as_str()))
}

pub fn dup_info(o: &Option<MediaInfo>) -> (r: Option<MediaInfo>)
    ensures
        r == *o,
{
    match o {
        Some(i) => Some(i.duplicate()),
        None => None,
    }
}

/// The first queued job is at `k`.
pub open spec fn first_queued_at(jobs: Seq<Job>, k: int) -> bool {
    0 <= k < jobs.len() && jobs[k].status is Queued && forall|j: int|
        0 <= j < k ==> !(#[trigger] jobs[j].status is Queued)
}

pub open spec fn none_queued(jobs: Seq<Job>) -> bool {
    forall|j: int| 0 <= j < jobs.len() ==> !(#[trigger] jobs[j].status is Queued)
}

/// The first job with `id` is at `k`.
pub open spec fn first_with_id_at(jobs: Seq<Job>, id: u64, k: int) -> bool {
    0 <= k < jobs.len() && jobs[k].id == id && forall|j: int| 0 <= j < k ==> #[trigger] jobs[j].id != id
}

pub open spec fn no_id(jobs: Seq<Job>, id: u64) -> bool {
    forall|j: int| 0 <= j < jobs.len() ==> #[trigger] jobs[j].id != id
}

/// What the runner hands a worker when it takes a job.
pub struct Claim {
    pub index: usize,
    pub id: u64,
    pub input: String,
    pub output: String,
    pub info: Option<MediaInfo>,
}

/// A job taken by a worker: running from zero, writing to `out`, its row
/// showing the name the file will really get.
pub open spec fn claimed_from(old: Job, new: Job, out: Seq<char>) -> bool {
    &&& new.id == old.id
    &&& new.input == old.input
    &&& new.stem@ == (match file_stem_of(out) {
        Some(st) => st,
        None => old.stem@,
    })
    &&& new.out_dir == old.out_dir
    &&& new.info == old.info
    &&& new.probe_error == old.probe_error
    &&& new.status is Running
    &&& new.progress == 0
    &&& new.speed == old.speed
    &&& new.pid == old.pid
    &&& new.cancel == old.cancel
    &&& new.output is Some && new.output->0@ == out
}

/// How a run ends: cancelled if the user asked, done or failed otherwise.
pub open spec fn finished_from(old: Job, new: Job, outcome: Result<(), String>) -> bool {
    &&& new.id == old.id
    &&& new.input == old.input
    &&& new.stem == old.stem
    &&& new.out_dir == old.out_dir
    &&& new.info == old.info
    &&& new.probe_error == old.probe_error
    &&& new.status == (if old.cancel {
        Status::Canceled
    } else {
        match outcome {
            Ok(_) => Status::Done,
            Err(m) => Status::Failed(m),
        }
    })
    &&& new.progress == (if !old.cancel && outcome is Ok {
        FULL_PROGRESS
    } else {
        old.progress
    })
    &&& new.speed == old.speed
    &&& new.pid is None
    &&& !new.cancel
    &&& new.output == old.output
}

/// A cancelled job ends cancelled, whatever its run reported: once the user
/// has asked it to stop, finishing it records neither success nor failure.
pub proof fn lemma_cancel_wins(job: Job, outcome: Result<(), String>, cancelled: Job, ended: Job)
    requires
        cancelled == (Job { cancel: true, ..job }),
        finished_from(cancelled, ended, outcome),
    ensures
        ended.status is Canceled,
        !ended.cancel,
        ended.pid is None,
{
}

/// `jobs` with the rows at `from` and `to` trading places.
pub open spec fn swapped(jobs: Seq<Job>, from: int, to: int) -> Seq<Job> {
    jobs.update(from, jobs[to]).update(to, jobs[from])
}

/// Nudging a row and nudging it back restores the queue.
pub proof fn lemma_swap_back(jobs: Seq<Job>, from: int, to: int)
    requires
        0 <= from < jobs.len(),
        0 <= to < jobs.len(),
    ensures
        swapped(swapped(jobs, from, to), to, from) == jobs,
{
    assert(swapped(swapped(jobs, from, to), to, from) =~= jobs);
}

/// No two rows share an id.
pub open spec fn unique_ids(jobs: Seq<Job>) -> bool {
    forall|i: int, j: int|
        0 <= i < jobs.len() && 0 <= j < jobs.len() && i != j ==> #[trigger] jobs[i].id
            != #[trigger] jobs[j].id
}

/// A worker's run of one job, from `claim_next` to `finish`: the first queued
/// row is taken and runs from zero, writing to the path picked for it (its
/// name updated to that path's stem); while it runs only its cancel flag,
/// process, progress and speed change, and no row moves. It then ends
/// cancelled if the user asked meanwhile, else done (at full progress) or
/// failed with ffmpeg's message; nothing is left to cancel and no process is
/// recorded. With the ids unique, finishing by id reaches the very row taken.
pub proof fn lemma_worker_run(
    q0: Seq<Job>,
    q1: Seq<Job>,
    q2: Seq<Job>,
    q3: Seq<Job>,
    k: int,
    out: Seq<char>,
    outcome: Result<(), String>,
)
    requires
        unique_ids(q0),
        first_queued_at(q0, k),
        q1.len() == q0.len(),
        claimed_from(q0[k], q1[k], out),
        forall|j: int| 0 <= j < q0.len() && j != k ==> q1[j] == q0[j],
        q2.len() == q1.len(),
        forall|j: int| 0 <= j < q1.len() ==> #[trigger] q2[j].id == q1[j].id,
        q2[k] == (Job {
            cancel: q2[k].cancel,
            pid: q2[k].pid,
            progress: q2[k].progress,
            speed: q2[k].speed,
            ..q1[k]
        }),
        forall|m: int| first_with_id_at(q2, q0[k].id, m) ==> finished_from(q2[m], q3[m], outcome),
    ensures
        q1[k].status is Running,
        q1[k].progress == 0,
        q1[k].output matches Some(o) && o@ == out,
        q1[k].stem@ == (match file_stem_of(out) {
            Some(st) => st,
            None => q0[k].stem@,
        }),
        first_with_id_at(q2, q0[k].id, k),
        q3[k].status == (if q2[k].cancel {
            Status::Canceled
        } else {
            match outcome {
                Ok(_) => Status::Done,
                Err(m) => Status::Failed(m),
            }
        }),
        !q2[k].cancel && outcome is Ok ==> q3[k].progress == FULL_PROGRESS,
        !q3[k].cancel,
        q3[k].pid is None,
        q3[k].id == q0[k].id,
        q3[k].input == q0[k].input,
        q3[k].output == q1[k].output,
{
    assert forall|j: int| 0 <= j < k implies #[trigger] q2[j].id != q0[k].id by {
        assert(q2[j].id == q1[j].id);
        assert(q1[j] == q0[j]);
        assert(q0[j].id != q0[k].id);
    }
    assert(first_with_id_at(q2, q0[k].id, k));
}

/// Pids of the running jobs, in queue order.
pub open spec fn running_pids(jobs: Seq<Job>) -> Seq<u32>
    decreases jobs.len(),
{
    if jobs.len() == 0 {
        Seq::empty()
    } else {
        let rest = running_pids(jobs.drop_last());
        if jobs.last().status is Running && jobs.last().pid is Some {
            rest.push(jobs.last().pid->0)
        } else {
            rest
        }
    }
}

impl Queue {
    /// Index of the first queued job.
    pub fn next_queued(&mut self) -> (r: Option<usize>)
        ensures
            final(self).jobs@ == old(self).jobs@,
            match r {
                Some(k) => first_queued_at(old(self).jobs@, k as int),
                None => none_queued(old(self).jobs@),
            },
    {
        let mut k: usize = 0;
        while k < self.jobs.len()
            invariant
                k <= self.jobs@.len(),
                forall|j: int| 0 <= j < k ==> !(#[trigger] self.jobs@[j].status is Queued),
            decreases self.jobs.len() - k,
        {
            if matches!(self.jobs[k].status, Status::Queued) {
                return Some(k);
            }
            k += 1;
        }
        None
    }

    /// Index of the first job with `id`.
    pub fn position(&self, id: u64) -> (r: Option<usize>)
        ensures
            match r {
                Some(k) => first_with_id_at(self.jobs@, id, k as int),
                None => no_id(self.jobs@, id),
            },
    {
        let mut k: usize = 0;
        while k < self.jobs.len()
            invariant
                k <= self.jobs@.len(),
                forall|j: int| 0 <= j < k ==> #[trigger] self.jobs@[j].id != id,
            decreases self.jobs.len() - k,
        {
            if self.jobs[k].id == id {
                return Some(k);
            }
            k += 1;
        }
        None
    }

    /// The first job with `id`, to change in place.
    pub fn find(&mut self, id: u64) -> (r: Option<&mut Job>)
        ensures
            match r {
                Some(j) => exists|k: int|
                    first_with_id_at(old(self).jobs@, id, k) && *j == old(self).jobs@[k]
                        && final(self).jobs@ == old(self).jobs@.update(k, *final(j)),
                None => no_id(old(self).jobs@, id) && final(self).jobs@ == old(self).jobs@,
            },
    {
        match self.position(id) {
            Some(k) => Some(&mut self.jobs[k]),
            None => None,
        }
    }

    /// Takes the first queued job: settles where it writes, marks it running
    /// and returns what the worker needs. `None` when nothing is queued.
    pub fn claim_next(&mut self, out_dir: &Option<String>, s: &Settings) -> (r: Option<Claim>)
        ensures
            match r {
                None => none_queued(old(self).jobs@) && final(self).jobs@ == old(self).jobs@,
                Some(c) => {
                    let k = c.index as int;
                    let before = old(self).jobs@[k];
                    &&& first_queued_at(old(self).jobs@, k)
                    &&& c.id == before.id
                    &&& c.input == before.input
                    &&& c.info == before.info
                    &&& exists|on_disk: Set<Seq<char>>|
                        c.output@ == chosen_output(
                            old(self).jobs@,
                            before.id,
                            target_path_of(before, *out_dir, *s),
                            before.input@,
                            s.overwrite,
                            on_disk,
                        )
                    &&& final(self).jobs@.len() == old(self).jobs@.len()
                    &&& claimed_from(before, final(self).jobs@[k], c.output@)
                    &&& forall|j: int|
                        0 <= j < old(self).jobs@.len() && j != k ==> final(self).jobs@[j] == old(
                            self,
                        ).jobs@[j]
                },
            },
    {
        let idx = match self.next_queued() {
            Some(i) => i,
            None => return None,
        };
        let id = self.jobs[idx].id;
        let input = self.jobs[idx].input.clone();
        let base = self.jobs[idx].target_path(out_dir, s);
        let out = unique_output(self, id, base, input.as_str(), s.overwrite);
        let info = dup_info(&self.jobs[idx].info);
        let new_stem = file_stem(out.as_str());
        let ghost before = self.jobs@[idx as int];
        let job = &mut self.jobs[idx];
        job.status = Status::Running;
        job.progress = 0;
        // Show the name the file will really get, suffix and all.
        if let Some(st) = new_stem {
            job.stem = st;
        }
        job.output = Some(out.clone());
        Some(Claim { index: idx, id, input, output: out, info })
    }

    /// Records how the run of job `id` ended.
    pub fn finish(&mut self, id: u64, outcome: Result<(), String>)
        ensures
            final(self).jobs@.len() == old(self).jobs@.len(),
            no_id(old(self).jobs@, id) ==> final(self).jobs@ == old(self).jobs@,
            forall|k: int|
                first_with_id_at(old(self).jobs@, id, k) ==> finished_from(
                    old(self).jobs@[k],
                    final(self).jobs@[k],
                    outcome,
                ) && forall|j: int|
                    0 <= j < old(self).jobs@.len() && j != k ==> final(self).jobs@[j] == old(
                        self,
                    ).jobs@[j],
    {
        match self.position(id) {
            None => {},
            Some(k) => {
                let job = &mut self.jobs[k];
                job.pid = None;
                let cancelled = job.cancel;
                job.status = if cancelled {
                    Status::Canceled
                } else {
                    match outcome {
                        Ok(()) => {
                            job.progress = FULL_PROGRESS;
                            Status::Done
                        },
                        Err(m) => Status::Failed(m),
                    }
                };
                job.cancel = false;
            },
        }
    }

    /// Asks every running job to stop; returns the processes to signal.
    pub fn cancel_running(&mut self) -> (pids: Vec<u32>)
        ensures
            final(self).jobs@.len() == old(self).jobs@.len(),
            forall|k: int|
                0 <= k < old(self).jobs@.len() ==> {
                    let a = old(self).jobs@[k];
                    let b = #[trigger] final(self).jobs@[k];
                    b == (Job { cancel: a.cancel || a.status is Running, ..a })
                },
            pids@ == running_pids(old(self).jobs@),
    {
        let mut pids: Vec<u32> = Vec::new();
        let mut k: usize = 0;
        while k < self.jobs.len()
            invariant
                k <= self.jobs@.len(),
                self.jobs@.len() == old(self).jobs@.len(),
                forall|j: int|
                    0 <= j < k ==> {
                        let a = old(self).jobs@[j];
                        #[trigger] self.jobs@[j] == (Job { cancel: a.cancel || a.status is Running, ..a })
                    },
                forall|j: int| k <= j < self.jobs@.len() ==> #[trigger] self.jobs@[j] == old(self).jobs@[j],
                pids@ == running_pids(old(self).jobs@.take(k as int)),
            decreases self.jobs.len() - k,
        {
            proof {
                assert(old(self).jobs@.take(k + 1).drop_last() =~= old(self).jobs@.take(k as int));
            }
            let job = &mut self.jobs[k];
            if matches!(job.status, Status::Running) {
                job.cancel = true;
                if let Some(pid) = job.pid {
                    pids.push(pid);
                }
            }
            k += 1;
        }
        proof {
            assert(old(self).jobs@.take(old(self).jobs@.len() as int) =~= old(self).jobs@);
        }
        pids
    }

    /// Asks job `id` to stop; returns its process to signal, if it has one.
    pub fn cancel(&mut self, id: u64) -> (pid: Option<u32>)
        ensures
            no_id(old(self).jobs@, id) ==> final(self).jobs@ == old(self).jobs@ && pid is None,
            forall|k: int|
                first_with_id_at(old(self).jobs@, id, k) ==> pid == old(self).jobs@[k].pid
                    && final(self).jobs@ == old(self).jobs@.update(
                    k,
                    Job { cancel: true, ..old(self).jobs@[k] },
                ),
    {
        match self.position(id) {
            None => None,
            Some(k) => {
                let job = &mut self.jobs[k];
                job.cancel = true;
                job.pid
            },
        }
    }

    /// Puts a finished job back in the queue, from zero.
    pub fn requeue(&mut self, index: usize)
        ensures
            (index < old(self).jobs@.len() && old(self).jobs@[index as int].status.finished())
                ==> final(self).jobs@ == old(self).jobs@.update(
                index as int,
                Job { status: Status::Queued, progress: 0, ..old(self).jobs@[index as int] },
            ),
            !(index < old(self).jobs@.len() && old(self).jobs@[index as int].status.finished())
                ==> final(self).jobs@ == old(self).jobs@,
    {
        if index < self.jobs.len() && self.jobs[index].status.is_finished() {
            let job = &mut self.jobs[index];
            job.status = Status::Queued;
            job.progress = 0;
        }
    }

    /// Moves the row at `from` to `to`, a neighbour; returns the id of the
    /// row that moved so the view can keep it in sight.
    pub fn swap_rows(&mut self, from: usize, to: usize) -> (r: Option<u64>)
        ensures
            from >= old(self).jobs@.len() || to >= old(self).jobs@.len() ==> r is None
                && final(self).jobs@ == old(self).jobs@,
            from < old(self).jobs@.len() && to < old(self).jobs@.len() ==> r == Some(
                old(self).jobs@[from as int].id,
            ) && final(self).jobs@ == swapped(old(self).jobs@, from as int, to as int),
    {
        if from >= self.jobs.len() || to >= self.jobs.len() {
            return None;
        }
        if from == to {
            assert(self.jobs@.update(from as int, self.jobs@[to as int]).update(
                to as int,
                self.jobs@[from as int],
            ) =~= self.jobs@);
            return Some(self.jobs[from].id);
        }
        let (lo, hi) = if from < to {
            (from, to)
        } else {
            (to, from)
        };
        let ghost old_jobs = self.jobs@;
        let b = self.jobs.remove(hi);
        let a = self.jobs.remove(lo);
        self.jobs.insert(lo, b);
        self.jobs.insert(hi, a);
        assert(self.jobs@ =~= old_jobs.update(from as int, old_jobs[to as int]).update(
            to as int,
            old_jobs[from as int],
        ));
        Some(self.jobs[to].id)
    }
}

/// An unfinished job already works on `input`.
pub open spec fn has_unfinished(jobs: Seq<Job>, input: Seq<char>) -> bool {
    exists|k: int|
        0 <= k < jobs.len() && same_path(#[trigger] jobs[k].input@, input) && !jobs[k].status.finished()
}

/// A file that a queued or running job works on is busy: a job waiting its
/// turn and one being converted both count as unfinished.
pub proof fn lemma_busy_file_refused(jobs: Seq<Job>, input: Seq<char>, k: int)
    requires
        0 <= k < jobs.len(),
        same_path(jobs[k].input@, input),
        jobs[k].status is Queued || jobs[k].status is Running,
    ensures
        has_unfinished(jobs, input),
{
    assert(same_path(jobs[k].input@, input) && !jobs[k].status.finished());
}

/// The jobs other than those with `id`, in order.
pub open spec fn without_id(jobs: Seq<Job>, id: u64) -> Seq<Job>
    decreases jobs.len(),
{
    if jobs.len() == 0 {
        Seq::empty()
    } else if jobs[0].id != id {
        seq![jobs[0]] + without_id(jobs.drop_first(), id)
    } else {
        without_id(jobs.drop_first(), id)
    }
}

/// The unfinished jobs, in order.
pub open spec fn unfinished(jobs: Seq<Job>) -> Seq<Job>
    decreases jobs.len(),
{
    if jobs.len() == 0 {
        Seq::empty()
    } else if !jobs[0].status.finished() {
        seq![jobs[0]] + unfinished(jobs.drop_first())
    } else {
        unfinished(jobs.drop_first())
    }
}

/// How many jobs have a status matching `f`.
pub open spec fn count_where(jobs: Seq<Job>, f: spec_fn(Status) -> bool) -> nat
    decreases jobs.len(),
{
    if jobs.len() == 0 {
        0
    } else {
        count_where(jobs.drop_last(), f) + if f(jobs.last().status) {
            1nat
        } else {
            0nat
        }
    }
}

/// Queue totals for the status strip.
pub struct Tally {
    pub total: usize,
    pub done: usize,
    pub queued: usize,
    pub running: usize,
    /// Cancelled or failed: finished, but not successfully.
    pub settled: usize,
}

/// The status strip's line: `6 in queue · 1 running · 2 waiting · 1 done`.
pub open spec fn tally_text(t: Tally) -> Seq<char> {
    decimal(t.total as nat) + " in queue · "@ + decimal(t.running as nat) + " running · "@
        + decimal(t.queued as nat) + " waiting · "@ + decimal(t.done as nat) + " done"@
}

impl Tally {
    /// What the status strip says of the queue.
    pub fn line(&self) -> (r: String)
        ensures
            r@ == tally_text(*self),
    {
        let mut s = String::new();
        push_decimal(&mut s, self.total as u64);
        s.append(" in queue · ");
        push_decimal(&mut s, self.running as u64);
        s.append(" running · ");
        push_decimal(&mut s, self.queued as u64);
        s.append(" waiting · ");
        push_decimal(&mut s, self.done as u64);
        s.append(" done");
        s
    }
}

impl Queue {
    /// Whether an unfinished job already works on `input`.
    pub fn has_unfinished(&self, input: &str) -> (r: bool)
        ensures
            r == has_unfinished(self.jobs@, input@),
            r == exists|k: int|
                0 <= k < self.jobs@.len() && same_path(#[trigger] self.jobs@[k].input@, input@) && (
                self.jobs@[k].status is Queued || self.jobs@[k].status is Running),
    {
        let mut k: usize = 0;
        while k < self.jobs.len()
            invariant
                k <= self.jobs@.len(),
                forall|j: int|
                    0 <= j < k ==> !(same_path(#[trigger] self.jobs@[j].input@, input@)
                        && !self.jobs@[j].status.finished()),
            decreases self.jobs.len() - k,
        {
            if paths_equal(self.jobs[k].input.as_str(), input) && !self.jobs[k].status.is_finished() {
                return true;
            }
            k += 1;
        }
        false
    }

    /// Adds `job` unless an unfinished job already works on the same file.
    pub fn enqueue(&mut self, job: Job) -> (added: bool)
        ensures
            added == !has_unfinished(old(self).jobs@, job.input@),
            added == forall|k: int|
                0 <= k < old(self).jobs@.len() && same_path(#[trigger] old(self).jobs@[k].input@, job.input@)
                    ==> !(old(self).jobs@[k].status is Queued || old(self).jobs@[k].status is Running),
            added ==> final(self).jobs@ == old(self).jobs@.push(job),
            !added ==> final(self).jobs@ == old(self).jobs@,
    {
        if self.has_unfinished(job.input.as_str()) {
            return false;
        }
        self.jobs.push(job);
        true
    }

    /// Drops every job with `id`.
    pub fn remove(&mut self, id: u64)
        ensures
            final(self).jobs@ == without_id(old(self).jobs@, id),
    {
        let mut rest: Vec<Job> = Vec::new();
        std::mem::swap(&mut rest, &mut self.jobs);
        let ghost all = rest@;
        while rest.len() > 0
            invariant
                self.jobs@ + without_id(rest@, id) == without_id(all, id),
            decreases rest.len(),
        {
            let ghost before = rest@;
            let j = rest.remove(0);
            proof {
                assert(before.drop_first() =~= rest@);
            }
            if j.id != id {
                let ghost kept = self.jobs@;
                self.jobs.push(j);
                assert(kept + without_id(before, id) =~= self.jobs@ + without_id(rest@, id));
            }
        }
        assert(self.jobs@ + Seq::<Job>::empty() =~= self.jobs@);
    }

    /// Drops every finished job.
    pub fn clear_finished(&mut self)
        ensures
            final(self).jobs@ == unfinished(old(self).jobs@),
    {
        let mut rest: Vec<Job> = Vec::new();
        std::mem::swap(&mut rest, &mut self.jobs);
        let ghost all = rest@;
        while rest.len() > 0
            invariant
                self.jobs@ + unfinished(rest@) == unfinished(all),
            decreases rest.len(),
        {
            let ghost before = rest@;
            let j = rest.remove(0);
            proof {
                assert(before.drop_first() =~= rest@);
            }
            if !j.status.is_finished() {
                let ghost kept = self.jobs@;
                self.jobs.push(j);
                assert(kept + unfinished(before) =~= self.jobs@ + unfinished(rest@));
            }
        }
        assert(self.jobs@ + Seq::<Job>::empty() =~= self.jobs@);
    }

    /// Queue totals for the status strip.
    pub fn tally(&self) -> (t: Tally)
        ensures
            t.total == self.jobs@.len(),
            t.running == count_where(self.jobs@, |s: Status| s is Running),
            t.done == count_where(self.jobs@, |s: Status| s is Done),
            t.settled == count_where(self.jobs@, |s: Status| s is Canceled || s is Failed),
            t.queued == count_where(self.jobs@, |s: Status| s is Queued),
            t.total == t.queued + t.running + t.done + t.settled,
    {
        let ghost f_run = |s: Status| s is Running;
        let ghost f_done = |s: Status| s is Done;
        let ghost f_set = |s: Status| s is Canceled || s is Failed;
        let ghost f_q = |s: Status| s is Queued;
        let mut running: usize = 0;
        let mut done: usize = 0;
        let mut settled: usize = 0;
        let mut queued: usize = 0;
        let mut k: usize = 0;
        while k < self.jobs.len()
            invariant
                k <= self.jobs@.len(),
                f_run == (|s: Status| s is Running),
                f_done == (|s: Status| s is Done),
                f_set == (|s: Status| s is Canceled || s is Failed),
                f_q == (|s: Status| s is Queued),
                running == count_where(self.jobs@.take(k as int), f_run),
                done == count_where(self.jobs@.take(k as int), f_done),
                settled == count_where(self.jobs@.take(k as int), f_set),
                queued == count_where(self.jobs@.take(k as int), f_q),
                running + done + settled + queued == k,
            decreases self.jobs.len() - k,
        {
            proof {
                let t = self.jobs@.take(k + 1);
                assert(t.drop_last() =~= self.jobs@.take(k as int));
                assert(t.last() == self.jobs@[k as int]);
                assert(count_where(t, f_run) == count_where(t.drop_last(), f_run) + if f_run(t.last().status) { 1nat } else { 0nat });
                assert(count_where(t, f_done) == count_where(t.drop_last(), f_done) + if f_done(t.last().status) { 1nat } else { 0nat });
                assert(count_where(t, f_set) == count_where(t.drop_last(), f_set) + if f_set(t.last().status) { 1nat } else { 0nat });
                assert(count_where(t, f_q) == count_where(t.drop_last(), f_q) + if f_q(t.last().status) { 1nat } else { 0nat });
            }
            match &self.jobs[k].status {
                Status::Queued => queued += 1,
                Status::Running => running += 1,
                Status::Done => done += 1,
                Status::Canceled | Status::Failed(_) => settled += 1,
            }
            k += 1;
        }
        proof {
            assert(self.jobs@.take(self.jobs@.len() as int) =~= self.jobs@);
        }
        Tally { total: self.jobs.len(), done, queued, running, settled }
    }
}

/// What the queue is sorted by: the source's file name, lower-cased.
pub open spec fn sort_key(job: Job) -> Seq<char> {
    lowercase(or_empty_view(file_name_of(job.input@)))
}

/// `a` may stand right before `b`: A-Z by name, or Z-A when `desc`.
pub open spec fn in_order(a: Job, b: Job, desc: bool) -> bool {
    if desc {
        natural_rank(sort_key(b), sort_key(a)) != 1
    } else {
        natural_rank(sort_key(a), sort_key(b)) != 1
    }
}

pub open spec fn sorted_by_name(jobs: Seq<Job>, desc: bool) -> bool {
    forall|k: int| 0 <= k && k + 1 < jobs.len() ==> in_order(#[trigger] jobs[k], jobs[k + 1], desc)
}

/// Every row may stand before every later one.
pub open spec fn ordered_by_name(jobs: Seq<Job>, desc: bool) -> bool {
    forall|i: int, j: int|
        0 <= i < j < jobs.len() ==> in_order(#[trigger] jobs[i], #[trigger] jobs[j], desc)
}

proof fn lemma_in_order_transitive(a: Job, b: Job, c: Job, desc: bool)
    requires
        in_order(a, b, desc),
        in_order(b, c, desc),
    ensures
        in_order(a, c, desc),
{
    let (ka, kb, kc) = (sort_key(a), sort_key(b), sort_key(c));
    lemma_natural_rank_range(ka, kb);
    lemma_natural_rank_range(kb, kc);
    lemma_natural_rank_range(kb, ka);
    lemma_natural_rank_range(kc, kb);
    lemma_natural_rank_range(ka, kc);
    lemma_natural_rank_range(kc, ka);
    lemma_natural_rank_transitive(ka, kb, kc);
    lemma_natural_rank_transitive(kc, kb, ka);
}

proof fn lemma_ordered_pair(jobs: Seq<Job>, desc: bool, i: int, j: int)
    requires
        sorted_by_name(jobs, desc),
        0 <= i < j < jobs.len(),
    ensures
        in_order(jobs[i], jobs[j], desc),
    decreases j - i,
{
    if j > i + 1 {
        lemma_ordered_pair(jobs, desc, i, j - 1);
        assert(in_order(jobs[j - 1], jobs[j], desc));
        lemma_in_order_transitive(jobs[i], jobs[j - 1], jobs[j], desc);
    }
}

/// Rows each of which may stand before the next are in order throughout.
proof fn lemma_ordered_throughout(jobs: Seq<Job>, desc: bool)
    requires
        sorted_by_name(jobs, desc),
    ensures
        ordered_by_name(jobs, desc),
{
    assert forall|i: int, j: int| 0 <= i < j < jobs.len() implies in_order(
        #[trigger] jobs[i],
        #[trigger] jobs[j],
        desc,
    ) by {
        lemma_ordered_pair(jobs, desc, i, j);
    }
}

/// `job` placed into `sorted`: after the last row it may follow, so that it
/// lands behind every row it compares level with.
pub open spec fn insert_sorted(sorted: Seq<Job>, job: Job, desc: bool) -> Seq<Job>
    decreases sorted.len(),
{
    if sorted.len() == 0 {
        seq![job]
    } else if in_order(sorted.last(), job, desc) {
        sorted.push(job)
    } else {
        insert_sorted(sorted.drop_last(), job, desc).push(sorted.last())
    }
}

/// The rows sorted by name, each placed in turn: rows that compare level
/// keep the order they had.
pub open spec fn sorted_rows(jobs: Seq<Job>, desc: bool) -> Seq<Job>
    decreases jobs.len(),
{
    if jobs.len() == 0 {
        Seq::empty()
    } else {
        insert_sorted(sorted_rows(jobs.drop_last(), desc), jobs.last(), desc)
    }
}

proof fn lemma_insert_sorted(sorted: Seq<Job>, job: Job, desc: bool)
    requires
        sorted_by_name(sorted, desc),
    ensures
        insert_sorted(sorted, job, desc).len() == sorted.len() + 1,
        insert_sorted(sorted, job, desc).to_multiset() == sorted.to_multiset().insert(job),
        sorted_by_name(insert_sorted(sorted, job, desc), desc),
        insert_sorted(sorted, job, desc).last() == job || (sorted.len() > 0 && insert_sorted(
            sorted,
            job,
            desc,
        ).last() == sorted.last()),
    decreases sorted.len(),
{
    broadcast use vstd::multiset::group_multiset_axioms;
    let r = insert_sorted(sorted, job, desc);
    if sorted.len() == 0 {
        let e = Seq::<Job>::empty();
        assert(sorted =~= e);
        assert(r =~= e.push(job));
        vstd::seq_lib::to_multiset_build(e, job);
    } else if in_order(sorted.last(), job, desc) {
        vstd::seq_lib::to_multiset_build(sorted, job);
    } else {
        let t = sorted.drop_last();
        let last = sorted.last();
        assert(sorted_by_name(t, desc));
        lemma_insert_sorted(t, job, desc);
        let u = insert_sorted(t, job, desc);
        assert(r == u.push(last));
        assert(sorted =~= t.push(last));
        vstd::seq_lib::to_multiset_build(u, last);
        vstd::seq_lib::to_multiset_build(t, last);
        assert(t.to_multiset().insert(job).insert(last) =~= t.to_multiset().insert(last).insert(job));
        lemma_natural_rank_antisymmetric(sort_key(last), sort_key(job));
        if u.last() != job {
            assert(t.len() > 0 && u.last() == t.last());
            assert(t.last() == sorted[sorted.len() - 2]);
        }
        assert(in_order(u.last(), last, desc));
        assert forall|k: int| 0 <= k && k + 1 < r.len() implies in_order(#[trigger] r[k], r[k + 1], desc) by {
            if k + 1 < u.len() {
                assert(r[k] == u[k] && r[k + 1] == u[k + 1]);
            } else {
                assert(r[k] == u.last());
            }
        }
    }
}

/// Sorting keeps every row and puts them in order: each row may stand before
/// every later one.
pub proof fn lemma_sorted_rows(jobs: Seq<Job>, desc: bool)
    ensures
        sorted_rows(jobs, desc).len() == jobs.len(),
        sorted_rows(jobs, desc).to_multiset() == jobs.to_multiset(),
        sorted_by_name(sorted_rows(jobs, desc), desc),
        ordered_by_name(sorted_rows(jobs, desc), desc),
    decreases jobs.len(),
{
    lemma_sorted_rows_adjacent(jobs, desc);
    lemma_ordered_throughout(sorted_rows(jobs, desc), desc);
}

/// The sort is by file name alone, compared lower-cased and number-aware:
/// in A-Z order each row's lower-cased name ranks at or before every later
/// row's, in Z-A order at or after it. Names that differ only in letter
/// case rank level, so case never decides the order.
pub proof fn lemma_sorted_by_lowercase_name(jobs: Seq<Job>, desc: bool)
    ensures
        forall|i: int, j: int|
            0 <= i < j < sorted_rows(jobs, desc).len() ==> if desc {
                natural_rank(
                    lowercase(or_empty_view(file_name_of(#[trigger] sorted_rows(jobs, desc)[j].input@))),
                    lowercase(or_empty_view(file_name_of(#[trigger] sorted_rows(jobs, desc)[i].input@))),
                ) <= 0
            } else {
                natural_rank(
                    lowercase(or_empty_view(file_name_of(sorted_rows(jobs, desc)[i].input@))),
                    lowercase(or_empty_view(file_name_of(sorted_rows(jobs, desc)[j].input@))),
                ) <= 0
            },
{
    lemma_sorted_rows(jobs, desc);
    let r = sorted_rows(jobs, desc);
    assert forall|i: int, j: int| 0 <= i < j < r.len() implies if desc {
        natural_rank(
            lowercase(or_empty_view(file_name_of(#[trigger] r[j].input@))),
            lowercase(or_empty_view(file_name_of(#[trigger] r[i].input@))),
        ) <= 0
    } else {
        natural_rank(
            lowercase(or_empty_view(file_name_of(r[i].input@))),
            lowercase(or_empty_view(file_name_of(r[j].input@))),
        ) <= 0
    } by {
        assert(in_order(r[i], r[j], desc));
        lemma_natural_rank_range(sort_key(r[i]), sort_key(r[j]));
        lemma_natural_rank_range(sort_key(r[j]), sort_key(r[i]));
    }
}

/// Names equal but for letter case rank level.
pub proof fn lemma_case_blind(a: Job, b: Job)
    requires
        lowercase(or_empty_view(file_name_of(a.input@))) == lowercase(or_empty_view(file_name_of(b.input@))),
    ensures
        natural_rank(sort_key(a), sort_key(b)) == 0,
        in_order(a, b, false) && in_order(b, a, false) && in_order(a, b, true) && in_order(b, a, true),
{
    lemma_natural_rank_reflexive(sort_key(a));
}

proof fn lemma_sorted_rows_adjacent(jobs: Seq<Job>, desc: bool)
    ensures
        sorted_rows(jobs, desc).len() == jobs.len(),
        sorted_rows(jobs, desc).to_multiset() == jobs.to_multiset(),
        sorted_by_name(sorted_rows(jobs, desc), desc),
    decreases jobs.len(),
{
    if jobs.len() > 0 {
        lemma_sorted_rows_adjacent(jobs.drop_last(), desc);
        lemma_insert_sorted(sorted_rows(jobs.drop_last(), desc), jobs.last(), desc);
        assert(jobs =~= jobs.drop_last().push(jobs.last()));
        vstd::seq_lib::to_multiset_build(jobs.drop_last(), jobs.last());
    } else {
        assert(jobs =~= Seq::<Job>::empty());
    }
}

/// `insert_sorted` into the first `j` rows of `s`, the rest of `s` behind.
proof fn lemma_insert_step(s: Seq<Job>, x: Job, j: int, desc: bool)
    requires
        0 < j <= s.len(),
        !in_order(s[j - 1], x, desc),
    ensures
        insert_sorted(s.take(j), x, desc) + s.skip(j) == insert_sorted(s.take(j - 1), x, desc)
            + s.skip(j - 1),
{
    assert(s.take(j).drop_last() =~= s.take(j - 1));
    assert(s.take(j).last() == s[j - 1]);
    let a = insert_sorted(s.take(j - 1), x, desc);
    assert(insert_sorted(s.take(j), x, desc) == a.push(s[j - 1]));
    assert(a.push(s[j - 1]) + s.skip(j) =~= a + s.skip(j - 1));
}

impl Queue {
    /// Sorts the queue by file name, number-aware: A-Z, or Z-A when `desc`.
    /// Rows that compare level keep their order.
    pub fn sort_by_name(&mut self, desc: bool)
        ensures
            final(self).jobs@ == sorted_rows(old(self).jobs@, desc),
            final(self).jobs@.to_multiset() == old(self).jobs@.to_multiset(),
            ordered_by_name(final(self).jobs@, desc),
            forall|i: int, j: int|
                0 <= i < j < final(self).jobs@.len() ==> if desc {
                    natural_rank(
                        lowercase(or_empty_view(file_name_of(#[trigger] final(self).jobs@[j].input@))),
                        lowercase(or_empty_view(file_name_of(#[trigger] final(self).jobs@[i].input@))),
                    ) <= 0
                } else {
                    natural_rank(
                        lowercase(or_empty_view(file_name_of(final(self).jobs@[i].input@))),
                        lowercase(or_empty_view(file_name_of(final(self).jobs@[j].input@))),
                    ) <= 0
                },
    {
        proof {
            lemma_sorted_rows(old(self).jobs@, desc);
            lemma_sorted_by_lowercase_name(old(self).jobs@, desc);
        }
        let ghost start = self.jobs@;
        let n = self.jobs.len();
        let mut keys: Vec<String> = Vec::new();
        let mut k: usize = 0;
        while k < n
            invariant
                n == self.jobs@.len(),
                self.jobs@ == start,
                k <= n,
                keys@.len() == k,
                forall|m: int| 0 <= m < k ==> (#[trigger] keys@[m])@ == sort_key(self.jobs@[m]),
            decreases n - k,
        {
            let nm = self.jobs[k].name();
            keys.push(to_lowercase(nm.as_str()));
            k += 1;
        }
        if n == 0 {
            assert(start =~= Seq::<Job>::empty());
            return;
        }
        proof {
            assert(start.take(0) =~= Seq::<Job>::empty());
            assert(start.take(1).drop_last() =~= start.take(0));
            assert(start.take(1).last() == start[0]);
            assert(sorted_rows(start.take(0), desc) =~= Seq::<Job>::empty());
            assert(sorted_rows(start.take(1), desc) == insert_sorted(
                sorted_rows(start.take(0), desc),
                start[0],
                desc,
            ));
            assert(self.jobs@.take(1) =~= seq![start[0]]);
        }
        let mut i: usize = 1;
        while i < n
            invariant
                n == self.jobs@.len(),
                n == start.len(),
                1 <= i <= n,
                keys@.len() == n,
                forall|m: int| 0 <= m < n ==> (#[trigger] keys@[m])@ == sort_key(self.jobs@[m]),
                self.jobs@.take(i as int) == sorted_rows(start.take(i as int), desc),
                self.jobs@.skip(i as int) == start.skip(i as int),
            decreases n - i,
        {
            let ghost sorted = sorted_rows(start.take(i as int), desc);
            let ghost x = start[i as int];
            proof {
                lemma_sorted_rows(start.take(i as int), desc);
                assert(start.take(i + 1).drop_last() =~= start.take(i as int));
                assert(start.take(i + 1).last() == x);
                assert(self.jobs@[i as int] == self.jobs@.skip(i as int)[0]);
                assert(self.jobs@.take(i + 1) =~= sorted.take(i as int) + seq![x] + sorted.skip(i as int));
                assert(sorted.skip(i as int) =~= Seq::<Job>::empty());
                assert(sorted.take(i as int) =~= sorted);
                assert(insert_sorted(sorted, x, desc) =~= insert_sorted(sorted.take(i as int), x, desc) + sorted.skip(i as int));
                assert(self.jobs@.skip(i + 1) =~= self.jobs@.skip(i as int).skip(1));
                assert(start.skip(i + 1) =~= start.skip(i as int).skip(1));
            }
            let mut j: usize = i;
            loop
                invariant
                    n == self.jobs@.len(),
                    n == start.len(),
                    1 <= i < n,
                    j <= i,
                    sorted.len() == i,
                    keys@.len() == n,
                    forall|m: int| 0 <= m < n ==> (#[trigger] keys@[m])@ == sort_key(self.jobs@[m]),
                    self.jobs@.take(i + 1) == sorted.take(j as int) + seq![x] + sorted.skip(j as int),
                    self.jobs@.skip(i + 1) == start.skip(i + 1),
                    insert_sorted(sorted, x, desc) == insert_sorted(sorted.take(j as int), x, desc)
                        + sorted.skip(j as int),
                ensures
                    n == self.jobs@.len(),
                    keys@.len() == n,
                    forall|m: int| 0 <= m < n ==> (#[trigger] keys@[m])@ == sort_key(self.jobs@[m]),
                    self.jobs@.take(i + 1) == insert_sorted(sorted, x, desc),
                    self.jobs@.skip(i + 1) == start.skip(i + 1),
                decreases j,
            {
                if j == 0 {
                    assert(sorted.take(0) =~= Seq::<Job>::empty());
                    assert(insert_sorted(sorted.take(0), x, desc) =~= seq![x]);
                    break;
                }
                proof {
                    assert(self.jobs@[j as int] == self.jobs@.take(i + 1)[j as int]);
                    assert(self.jobs@.take(i + 1)[j as int] == x);
                    assert(self.jobs@[j - 1] == self.jobs@.take(i + 1)[j - 1]);
                    assert(self.jobs@.take(i + 1)[j - 1] == sorted[j - 1]);
                }
                let o = if desc {
                    natural_order(keys[j].as_str(), keys[j - 1].as_str())
                } else {
                    natural_order(keys[j - 1].as_str(), keys[j].as_str())
                };
                if o != 1 {
                    proof {
                        assert(in_order(sorted[j - 1], x, desc));
                        assert(sorted.take(j as int).drop_last() =~= sorted.take(j - 1));
                        assert(sorted.take(j as int).last() == sorted[j - 1]);
                        assert(insert_sorted(sorted.take(j as int), x, desc) == sorted.take(j as int).push(x));
                        assert(sorted.take(j as int) + seq![x] =~= sorted.take(j as int).push(x));
                    }
                    break;
                }
                proof {
                    lemma_insert_step(sorted, x, j as int, desc);
                }
                let ghost before = self.jobs@;
                let ghost kbefore = keys@;
                let y = self.jobs.remove(j);
                self.jobs.insert(j - 1, y);
                let ky = keys.remove(j);
                keys.insert(j - 1, ky);
                proof {
                    assert(self.jobs@ =~= before.update(j - 1, before[j as int]).update(j as int, before[j - 1]));
                    assert(keys@ =~= kbefore.update(j - 1, kbefore[j as int]).update(j as int, kbefore[j - 1]));
                    let t = sorted.take(j as int) + seq![x] + sorted.skip(j as int);
                    assert(before.take(i + 1) == t);
                    assert forall|m: int| 0 <= m < i + 1 implies #[trigger] self.jobs@.take(i + 1)[m] == (
                    sorted.take(j - 1) + seq![x] + sorted.skip(j - 1))[m] by {
                        assert(before[m] == t[m]);
                        if m < j - 1 {
                            assert(t[m] == sorted[m]);
                        } else if m == j - 1 {
                            assert(before[j as int] == t[j as int]);
                            assert(t[j as int] == x);
                        } else if m == j {
                            assert(t[j - 1] == sorted[j - 1]);
                        } else {
                            assert(t[m] == sorted[m - 1]);
                        }
                    }
                    assert(self.jobs@.take(i + 1) =~= sorted.take(j - 1) + seq![x] + sorted.skip(j - 1));
                    assert(self.jobs@.skip(i + 1) =~= before.skip(i + 1));
                }
                j -= 1;
            }
            proof {
                assert(sorted_rows(start.take(i + 1), desc) == insert_sorted(sorted, x, desc));
            }
            i += 1;
        }
        proof {
            assert(start.take(n as int) =~= start);
            assert(self.jobs@.take(n as int) =~= self.jobs@);
        }
    }
}

/// `{name}`: the source file name without its extension.
pub open spec fn name_token(job: Job) -> Seq<char> {
    or_empty_view(file_stem_of(job.input@))
}

/// `{res}`: the picture height, `1080p`.
pub open spec fn res_token(job: Job) -> Seq<char> {
    match job.info {
        Some(i) => decimal(i.height as nat) + "p"@,
        None => Seq::empty(),
    }
}

/// `{fps}`: the frame rate, `48fps`.
pub open spec fn fps_token(job: Job) -> Seq<char> {
    match job.info {
        Some(i) => decimal(i.fps_rounded as nat) + "fps"@,
        None => Seq::empty(),
    }
}

/// How many digits `{n}` takes: two, or the width of the total when wider.
pub open spec fn position_width(total: nat) -> nat {
    if decimal(total).len() > 2 {
        decimal(total).len()
    } else {
        2
    }
}

/// `{n}`: the 1-based position, zero-padded to at least two digits (`01`,
/// `02`, …), or to the width of the total when that is wider.
pub open spec fn position_token(i: nat, total: nat) -> Seq<char> {
    pad_left(decimal(i + 1), '0', position_width(total))
}

/// The rename pattern filled in for row `i` of `total`.
pub open spec fn pattern_stem(pattern: Seq<char>, job: Job, i: nat, total: nat) -> Seq<char> {
    replace_all(
        replace_all(
            replace_all(replace_all(pattern, "{name}"@, name_token(job)), "{n}"@, position_token(i, total)),
            "{res}"@,
            res_token(job),
        ),
        "{fps}"@,
        fps_token(job),
    )
}

/// How many of `s` equal `x`.
pub open spec fn count_in(s: Seq<Seq<char>>, x: Seq<char>) -> nat
    decreases s.len(),
{
    if s.len() == 0 {
        0
    } else {
        count_in(s.drop_last(), x) + if s.last() == x {
            1nat
        } else {
            0nat
        }
    }
}

proof fn lemma_count_step(s: Seq<Seq<char>>, x: Seq<char>, m: int)
    requires
        0 <= m < s.len(),
    ensures
        count_in(s.take(m + 1), x) == count_in(s.take(m), x) + if s[m] == x {
            1nat
        } else {
            0nat
        },
{
    assert(s.take(m + 1).drop_last() =~= s.take(m));
}

proof fn lemma_count_grows(s: Seq<Seq<char>>, x: Seq<char>, a: int, b: int)
    requires
        0 <= a <= b <= s.len(),
    ensures
        count_in(s.take(a), x) <= count_in(s.take(b), x),
    decreases b - a,
{
    if a < b {
        lemma_count_step(s, x, b - 1);
        lemma_count_grows(s, x, a, b - 1);
    }
}

/// `base-k`.
pub open spec fn suffixed(base: Seq<char>, k: nat) -> Seq<char> {
    base + "-"@ + decimal(k)
}

/// The first suffix from `k` on whose name is not in `taken`. One among the
/// first `taken.len() + 1` always is, so the search stops there.
pub open spec fn free_suffix_from(base: Seq<char>, taken: Seq<Seq<char>>, k: nat) -> nat
    decreases taken.len() + 2 - k,
{
    if k > taken.len() + 1 || !taken.contains(suffixed(base, k)) {
        k
    } else {
        free_suffix_from(base, taken, k + 1)
    }
}

/// The name a row ends up with, given the pattern's names for every row and
/// the names of the rows before it: a name no other row shares stays as it
/// is; a shared name gets the smallest `-k` (from 1) that is neither a
/// pattern name nor an earlier row's final name.
pub open spec fn row_name(stems: Seq<Seq<char>>, before: Seq<Seq<char>>, i: int) -> Seq<char> {
    if count_in(stems, stems[i]) > 1 {
        suffixed(stems[i], free_suffix_from(stems[i], stems + before, 1))
    } else {
        stems[i]
    }
}

/// The final names of the first `n` rows.
pub open spec fn renamed_upto(stems: Seq<Seq<char>>, n: nat) -> Seq<Seq<char>>
    decreases n,
{
    if n == 0 {
        Seq::empty()
    } else {
        let before = renamed_upto(stems, (n - 1) as nat);
        before.push(row_name(stems, before, n - 1))
    }
}

/// The final names of all rows.
pub open spec fn renamed(stems: Seq<Seq<char>>) -> Seq<Seq<char>> {
    renamed_upto(stems, stems.len())
}

proof fn lemma_renamed_prefix(stems: Seq<Seq<char>>, n: nat)
    ensures
        renamed_upto(stems, n).len() == n,
        forall|m: nat| m <= n ==> #[trigger] renamed_upto(stems, n).take(m as int) == renamed_upto(stems, m),
    decreases n,
{
    if n > 0 {
        lemma_renamed_prefix(stems, (n - 1) as nat);
        let r = renamed_upto(stems, n);
        assert forall|m: nat| m <= n implies #[trigger] r.take(m as int) == renamed_upto(stems, m) by {
            if m == n {
                assert(r.take(m as int) =~= r);
            } else {
                assert(r.take(m as int) =~= renamed_upto(stems, (n - 1) as nat).take(m as int));
            }
        }
    }
}

/// Every row's final name, by position.
proof fn lemma_renamed_at(stems: Seq<Seq<char>>, i: int)
    requires
        0 <= i < stems.len(),
    ensures
        renamed(stems).len() == stems.len(),
        renamed(stems)[i] == row_name(stems, renamed(stems).take(i), i),
        renamed(stems).take(i) == renamed_upto(stems, i as nat),
{
    lemma_renamed_prefix(stems, stems.len());
    lemma_renamed_prefix(stems, (i + 1) as nat);
    let r = renamed(stems);
    assert(r.take(i + 1) == renamed_upto(stems, (i + 1) as nat));
    assert(r.take(i) == renamed_upto(stems, i as nat));
    assert(r[i] == r.take(i + 1)[i]);
}

proof fn lemma_suffixed_injective(base: Seq<char>, a: nat, b: nat)
    requires
        suffixed(base, a) == suffixed(base, b),
    ensures
        a == b,
{
    let n = (base + "-"@).len() as int;
    assert(suffixed(base, a).skip(n) =~= decimal(a));
    assert(suffixed(base, b).skip(n) =~= decimal(b));
    lemma_decimal_injective(a, b);
}

/// Among the first `taken.len() + 1` suffixes one names nothing taken.
proof fn lemma_free_suffix_exists(base: Seq<char>, taken: Seq<Seq<char>>) -> (w: nat)
    ensures
        1 <= w <= taken.len() + 1,
        !taken.contains(suffixed(base, w)),
{
    let m = taken.len();
    let x = vstd::set_lib::set_int_range(1, m as int + 2);
    vstd::set_lib::lemma_int_range(1, m as int + 2);
    let f = |k: int| suffixed(base, k as nat);
    assert(vstd::relations::injective_on(f, x)) by {
        assert forall|a: int, b: int| x.contains(a) && x.contains(b) && #[trigger] f(a) == #[trigger] f(b) implies a == b by {
            lemma_suffixed_injective(base, a as nat, b as nat);
        }
    }
    let y = x.map(f);
    vstd::set_lib::lemma_map_size(x, y, f);
    if forall|k: nat| 1 <= k <= m + 1 ==> taken.contains(#[trigger] suffixed(base, k)) {
        assert(y.subset_of(taken.to_set())) by {
            assert forall|e: Seq<char>| y.contains(e) implies taken.to_set().contains(e) by {
                let k = choose|k: int| x.contains(k) && f(k) == e;
                assert(taken.contains(suffixed(base, k as nat)));
            }
        }
        taken.lemma_cardinality_of_set();
        vstd::set_lib::lemma_len_subset(y, taken.to_set());
        assert(false);
    }
    let w = choose|k: nat| !(1 <= k <= m + 1 ==> taken.contains(#[trigger] suffixed(base, k)));
    w
}

proof fn lemma_free_suffix_from(base: Seq<char>, taken: Seq<Seq<char>>, k: nat, w: nat)
    requires
        1 <= k <= w <= taken.len() + 1,
        !taken.contains(suffixed(base, w)),
    ensures
        k <= free_suffix_from(base, taken, k) <= w,
        !taken.contains(suffixed(base, free_suffix_from(base, taken, k))),
    decreases w - k,
{
    if taken.contains(suffixed(base, k)) {
        lemma_free_suffix_from(base, taken, k + 1, w);
    }
}

/// The suffix chosen for `base` names nothing in `taken`, and is at most one
/// past the number of taken names.
proof fn lemma_free_suffix(base: Seq<char>, taken: Seq<Seq<char>>)
    ensures
        1 <= free_suffix_from(base, taken, 1) <= taken.len() + 1,
        !taken.contains(suffixed(base, free_suffix_from(base, taken, 1))),
{
    let w = lemma_free_suffix_exists(base, taken);
    lemma_free_suffix_from(base, taken, 1, w);
}

/// Names never collide: after renaming, no two rows share a name, whatever
/// the pattern gives them.
pub proof fn lemma_renamed_distinct(stems: Seq<Seq<char>>)
    ensures
        renamed(stems).len() == stems.len(),
        forall|i: int, j: int|
            0 <= i < stems.len() && 0 <= j < stems.len() && i != j ==> #[trigger] renamed(stems)[i]
                != #[trigger] renamed(stems)[j],
{
    lemma_renamed_prefix(stems, stems.len());
    assert forall|i: int, j: int|
        0 <= i < stems.len() && 0 <= j < stems.len() && i != j implies #[trigger] renamed(stems)[i]
            != #[trigger] renamed(stems)[j] by {
        if i < j {
            lemma_renamed_pair(stems, i, j);
        } else {
            lemma_renamed_pair(stems, j, i);
        }
    }
}

proof fn lemma_renamed_pair(stems: Seq<Seq<char>>, i: int, j: int)
    requires
        0 <= i < j < stems.len(),
    ensures
        renamed(stems)[i] != renamed(stems)[j],
{
    let r = renamed(stems);
    lemma_renamed_at(stems, i);
    lemma_renamed_at(stems, j);
    let before = r.take(j);
    let taken = stems + before;
    assert(before[i] == r[i]);
    assert(taken[stems.len() + i] == r[i]);
    assert(taken.contains(r[i]));
    if count_in(stems, stems[j]) > 1 {
        lemma_free_suffix(stems[j], taken);
    } else {
        let ti = stems + r.take(i);
        assert(ti[j] == stems[j]);
        assert(ti.contains(stems[j]));
        if count_in(stems, stems[i]) > 1 {
            lemma_free_suffix(stems[i], ti);
        } else if stems[i] == stems[j] {
            let x = stems[i];
            lemma_count_step(stems, x, i);
            lemma_count_step(stems, x, j);
            lemma_count_grows(stems, x, i + 1, j);
            lemma_count_grows(stems, x, j + 1, stems.len() as int);
            lemma_count_grows(stems, x, 0, i);
            assert(stems.take(stems.len() as int) =~= stems);
        }
    }
}

/// Every row's stem from the pattern, before numbering.
pub open spec fn pattern_stems(pattern: Seq<char>, jobs: Seq<Job>) -> Seq<Seq<char>> {
    Seq::new(jobs.len(), |i: int| pattern_stem(pattern, jobs[i], i as nat, jobs.len()))
}

proof fn lemma_count_all(s: Seq<Seq<char>>, x: Seq<char>, k: int)
    requires
        0 <= k <= s.len(),
        forall|m: int| 0 <= m < s.len() ==> s[m] == x,
    ensures
        count_in(s.take(k), x) == k,
    decreases k,
{
    if k > 0 {
        lemma_count_step(s, x, k - 1);
        lemma_count_all(s, x, k - 1);
    } else {
        assert(s.take(0) =~= Seq::<Seq<char>>::empty());
    }
}

proof fn lemma_free_suffix_is(base: Seq<char>, taken: Seq<Seq<char>>, k: nat, w: nat)
    requires
        1 <= k <= w <= taken.len() + 1,
        forall|m: nat| k <= m < w ==> taken.contains(#[trigger] suffixed(base, m)),
        !taken.contains(suffixed(base, w)),
    ensures
        free_suffix_from(base, taken, k) == w,
    decreases w - k,
{
    if k < w {
        lemma_free_suffix_is(base, taken, k + 1, w);
    }
}

proof fn lemma_plain_prefix(p: Seq<char>, stems: Seq<Seq<char>>, i: nat)
    requires
        stems.len() >= 2,
        i <= stems.len(),
        forall|m: int| 0 <= m < stems.len() ==> stems[m] == p,
    ensures
        renamed_upto(stems, i) == Seq::new(i, |m: int| suffixed(p, (m + 1) as nat)),
    decreases i,
{
    if i > 0 {
        let j = (i - 1) as nat;
        lemma_plain_prefix(p, stems, j);
        let before = renamed_upto(stems, j);
        let taken = stems + before;
        lemma_count_all(stems, p, stems.len() as int);
        assert(stems.take(stems.len() as int) =~= stems);
        assert(count_in(stems, stems[j as int]) > 1);
        assert forall|m: nat| 1 <= m < i implies taken.contains(#[trigger] suffixed(p, m)) by {
            assert(taken[stems.len() + m - 1] == suffixed(p, m));
        }
        if taken.contains(suffixed(p, i)) {
            let t = choose|t: int| 0 <= t < taken.len() && taken[t] == suffixed(p, i);
            if t < stems.len() {
                assert(stems[t] == p);
                assert(suffixed(p, i).len() > p.len());
            } else {
                assert(before[t - stems.len()] == suffixed(p, (t - stems.len() + 1) as nat));
                lemma_suffixed_injective(p, i, (t - stems.len() + 1) as nat);
            }
        }
        lemma_free_suffix_is(p, taken, 1, i);
        assert(renamed_upto(stems, i) =~= Seq::new(i, |m: int| suffixed(p, (m + 1) as nat)));
    }
}

/// A plain name applied to the whole queue numbers the rows in order: one
/// name cannot serve several files, so `Adam-Kun` over five rows gives
/// `Adam-Kun-1` … `Adam-Kun-5`.
pub proof fn lemma_plain_pattern_numbers_rows(pattern: Seq<char>, jobs: Seq<Job>, i: int)
    requires
        !contains(pattern, "{name}"@),
        !contains(pattern, "{n}"@),
        !contains(pattern, "{res}"@),
        !contains(pattern, "{fps}"@),
        jobs.len() >= 2,
        0 <= i < jobs.len(),
    ensures
        renamed(pattern_stems(pattern, jobs))[i] == suffixed(pattern, (i + 1) as nat),
{
    reveal_strlit("{name}");
    reveal_strlit("{n}");
    reveal_strlit("{res}");
    reveal_strlit("{fps}");
    let stems = pattern_stems(pattern, jobs);
    assert forall|m: int| 0 <= m < stems.len() implies stems[m] == pattern by {
        let job = jobs[m];
        assert(replace_all(pattern, "{name}"@, name_token(job)) == pattern);
        assert(replace_all(pattern, "{n}"@, position_token(m as nat, jobs.len())) == pattern);
        assert(replace_all(pattern, "{res}"@, res_token(job)) == pattern);
        assert(replace_all(pattern, "{fps}"@, fps_token(job)) == pattern);
    }
    lemma_plain_prefix(pattern, stems, stems.len());
}

/// `base-k` as characters.
fn suffixed_chars(base: &Vec<char>, k: u128) -> (r: Vec<char>)
    ensures
        r@ == suffixed(base@, k as nat),
{
    proof {
        reveal_strlit("-");
    }
    let mut s = String::new();
    push_chars(&mut s, base.as_slice());
    s.append("-");
    push_decimal_wide(&mut s, k);
    assert(s@ =~= base@ + "-"@ + decimal(k as nat));
    chars_of(s.as_str())
}

/// Whether `x` is among `list`.
fn listed_chars(list: &Vec<Vec<char>>, x: &Vec<char>) -> (r: bool)
    ensures
        r == list@.map_values(|v: Vec<char>| v@).contains(x@),
{
    let ghost all = list@.map_values(|v: Vec<char>| v@);
    let mut k: usize = 0;
    while k < list.len()
        invariant
            all == list@.map_values(|v: Vec<char>| v@),
            k <= list@.len(),
            forall|m: int| 0 <= m < k ==> list@[m]@ != x@,
        decreases list.len() - k,
    {
        if same_chars(list[k].as_slice(), x.as_slice()) {
            assert(all[k as int] == x@);
            return true;
        }
        k += 1;
    }
    proof {
        if all.contains(x@) {
            let m = choose|m: int| 0 <= m < all.len() && all[m] == x@;
            assert(list@[m]@ == x@);
        }
    }
    false
}

fn count_equal(stems: &Vec<Vec<char>>, x: &Vec<char>, upto: usize) -> (r: usize)
    requires
        upto <= stems@.len(),
    ensures
        r == count_in(stems@.map_values(|v: Vec<char>| v@).take(upto as int), x@),
{
    let ghost all = stems@.map_values(|v: Vec<char>| v@);
    let mut c: usize = 0;
    let mut k: usize = 0;
    while k < upto
        invariant
            upto <= stems@.len(),
            all == stems@.map_values(|v: Vec<char>| v@),
            k <= upto,
            c == count_in(all.take(k as int), x@),
            c <= k,
        decreases upto - k,
    {
        proof {
            assert(all.take(k + 1).drop_last() =~= all.take(k as int));
            assert(all.take(k + 1).last() == stems@[k as int]@);
        }
        if same_chars(stems[k].as_slice(), x.as_slice()) {
            c += 1;
        }
        k += 1;
    }
    c
}

impl Queue {
    /// Applies the rename pattern to every row, then makes the names distinct:
    /// a pattern without `{n}` would give every file the same name, so
    /// `Adam-Kun` becomes `Adam-Kun-1`, `Adam-Kun-2`, … when it repeats,
    /// skipping any suffixed name another row already has.
    pub fn apply_pattern(&mut self, pattern: &str)
        ensures
            final(self).jobs@.len() == old(self).jobs@.len(),
            forall|i: int|
                0 <= i < old(self).jobs@.len() ==> #[trigger] final(self).jobs@[i] == (Job {
                    stem: final(self).jobs@[i].stem,
                    ..old(self).jobs@[i]
                }) && final(self).jobs@[i].stem@ == renamed(
                    pattern_stems(pattern@, old(self).jobs@),
                )[i],
            forall|i: int, j: int|
                0 <= i < final(self).jobs@.len() && 0 <= j < final(self).jobs@.len() && i != j
                    ==> #[trigger] final(self).jobs@[i].stem@ != #[trigger] final(self).jobs@[j].stem@,
    {
        proof {
            reveal_strlit("{name}");
            reveal_strlit("{n}");
            reveal_strlit("{res}");
            reveal_strlit("{fps}");
        }
        let n = self.jobs.len();
        let ghost target = pattern_stems(pattern@, self.jobs@);
        let pat = chars_of(pattern);
        let t_name = chars_of("{name}");
        let t_n = chars_of("{n}");
        let t_res = chars_of("{res}");
        let t_fps = chars_of("{fps}");
        let digits = decimal_string_len(n as u64);
        let width: usize = if digits > 2 {
            digits
        } else {
            2
        };
        let mut stems: Vec<Vec<char>> = Vec::new();
        let mut i: usize = 0;
        while i < n
            invariant
                n == self.jobs@.len(),
                self.jobs@ == old(self).jobs@,
                target == pattern_stems(pattern@, self.jobs@),
                pat@ == pattern@,
                t_name@ == "{name}"@,
                t_n@ == "{n}"@,
                t_res@ == "{res}"@,
                t_fps@ == "{fps}"@,
                t_name@.len() > 0,
                t_n@.len() > 0,
                t_res@.len() > 0,
                t_fps@.len() > 0,
                width == position_width(n as nat),
                i <= n,
                stems@.len() == i,
                forall|k: int| 0 <= k < i ==> (#[trigger] stems@[k])@ == target[k],
            decreases n - i,
        {
            let job = &self.jobs[i];
            let name = match file_stem(job.input.as_str()) {
                Some(s) => chars_of(s.as_str()),
                None => Vec::new(),
            };
            let mut res = String::new();
            let mut fps = String::new();
            if let Some(info) = &job.info {
                push_decimal(&mut res, info.height as u64);
                res.append("p");
                push_decimal(&mut fps, info.fps_rounded);
                fps.append("fps");
            }
            let num = decimal_padded((i as u64) + 1, width);
            let a = replace_all_chars(pat.as_slice(), t_name.as_slice(), name.as_slice());
            let nc = chars_of(num.as_str());
            let b = replace_all_chars(a.as_slice(), t_n.as_slice(), nc.as_slice());
            let rc = chars_of(res.as_str());
            let c = replace_all_chars(b.as_slice(), t_res.as_slice(), rc.as_slice());
            let fc = chars_of(fps.as_str());
            let d = replace_all_chars(c.as_slice(), t_fps.as_slice(), fc.as_slice());
            proof {
                assert(name@ == name_token(self.jobs@[i as int]));
                assert(Seq::<char>::empty() + decimal(info_height(self.jobs@[i as int]))
                    =~= decimal(info_height(self.jobs@[i as int])));
                assert(rc@ == res_token(self.jobs@[i as int]));
                assert(fc@ == fps_token(self.jobs@[i as int]));
                assert(nc@ == position_token(i as nat, n as nat));
                assert(d@ == target[i as int]);
            }
            stems.push(d);
            i += 1;
        }
        let ghost views_of = stems@.map_values(|v: Vec<char>| v@);
        assert(views_of =~= target);
        let mut names: Vec<Vec<char>> = Vec::new();
        let mut j: usize = 0;
        while j < n
            invariant
                n == self.jobs@.len(),
                n == old(self).jobs@.len(),
                stems@.len() == n,
                views_of == stems@.map_values(|v: Vec<char>| v@),
                views_of == pattern_stems(pattern@, old(self).jobs@),
                j <= n,
                names@.len() == j,
                names@.map_values(|v: Vec<char>| v@) == renamed_upto(views_of, j as nat),
                forall|i: int|
                    0 <= i < j ==> #[trigger] self.jobs@[i] == (Job {
                        stem: self.jobs@[i].stem,
                        ..old(self).jobs@[i]
                    }) && self.jobs@[i].stem@ == names@[i]@,
                forall|i: int| j <= i < n ==> #[trigger] self.jobs@[i] == old(self).jobs@[i],
            decreases n - j,
        {
            let total = count_equal(&stems, &stems[j], n);
            let ghost before = names@.map_values(|v: Vec<char>| v@);
            let ghost base = views_of[j as int];
            proof {
                assert(views_of.take(n as int) =~= views_of);
                assert(stems@[j as int]@ == base);
            }
            let name: Vec<char> = if total > 1 {
                let ghost taken = views_of + before;
                proof {
                    lemma_free_suffix(base, taken);
                }
                let ghost f = free_suffix_from(base, taken, 1);
                let mut found: Vec<char> = Vec::new();
                let mut k: u128 = 1;
                loop
                    invariant
                        stems@.len() == n,
                        views_of == stems@.map_values(|v: Vec<char>| v@),
                        before == names@.map_values(|v: Vec<char>| v@),
                        taken == views_of + before,
                        names@.len() == j,
                        j < n,
                        stems@[j as int]@ == base,
                        1 <= k <= f,
                        f <= taken.len() + 1,
                        free_suffix_from(base, taken, k as nat) == f,
                        !taken.contains(suffixed(base, f)),
                    ensures
                        found@ == suffixed(base, f),
                    decreases f - k,
                {
                    let cand = suffixed_chars(&stems[j], k);
                    let in_stems = listed_chars(&stems, &cand);
                    let in_names = listed_chars(&names, &cand);
                    proof {
                        if taken.contains(cand@) {
                            let m = choose|m: int| 0 <= m < taken.len() && taken[m] == cand@;
                            if m < views_of.len() {
                                assert(views_of[m] == cand@);
                            } else {
                                assert(before[m - views_of.len()] == cand@);
                            }
                        }
                        if in_stems {
                            let m = choose|m: int| 0 <= m < views_of.len() && views_of[m] == cand@;
                            assert(taken[m] == cand@);
                        }
                        if in_names {
                            let m = choose|m: int| 0 <= m < before.len() && before[m] == cand@;
                            assert(taken[views_of.len() + m] == cand@);
                        }
                    }
                    if !in_stems && !in_names {
                        found = cand;
                        break;
                    }
                    k = k + 1;
                }
                found
            } else {
                let mut copy: Vec<char> = Vec::new();
                let mut m: usize = 0;
                while m < stems[j].len()
                    invariant
                        stems@.len() == n,
                        j < n,
                        m <= stems@[j as int]@.len(),
                        copy@ == stems@[j as int]@.take(m as int),
                    decreases stems@[j as int]@.len() - m,
                {
                    assert(stems@[j as int]@.take(m + 1) =~= copy@.push(stems@[j as int]@[m as int]));
                    copy.push(stems[j][m]);
                    m += 1;
                }
                assert(stems@[j as int]@.take(m as int) =~= stems@[j as int]@);
                copy
            };
            proof {
                assert(name@ == row_name(views_of, before, j as int));
                assert(renamed_upto(views_of, (j + 1) as nat) == before.push(name@));
            }
            let stem = string_of(name.as_slice(), 0, name.len());
            assert(name@.subrange(0, name@.len() as int) =~= name@);
            let ghost names_before = names@;
            names.push(name);
            assert(names@.map_values(|v: Vec<char>| v@) =~= before.push(names@[j as int]@));
            self.jobs[j].stem = stem;
            j += 1;
        }
        proof {
            lemma_renamed_distinct(views_of);
            assert forall|i: int| 0 <= i < n implies #[trigger] self.jobs@[i].stem@ == renamed(views_of)[i] by {
                assert(names@.map_values(|v: Vec<char>| v@)[i] == names@[i]@);
            }
        }
    }
}

pub open spec fn info_height(job: Job) -> nat {
    match job.info {
        Some(i) => i.height as nat,
        None => 0,
    }
}

/// The number of digits `n` has in decimal.
fn decimal_string_len(n: u64) -> (r: usize)
    ensures
        r == decimal(n as nat).len(),
{
    let s = crate::text::decimal_string(n);
    s.unicode_len()
}

/// Extensions offered in the file picker and picked out of added folders.
pub open spec fn video_ext_list() -> Seq<Seq<char>> {
    seq![
        "mp4"@, "m4v"@, "mov"@, "mkv"@, "webm"@, "avi"@, "wmv"@, "flv"@, "f4v"@, "mpg"@, "mpeg"@,
        "m2v"@, "mts"@, "m2ts"@, "ts"@, "mxf"@, "vob"@, "3gp"@, "3g2"@, "ogv"@, "rm"@, "rmvb"@,
        "asf"@, "divx"@, "dv"@, "gxf"@, "y4m"@, "yuv"@, "braw"@, "r3d"@, "insv"@, "avchd"@,
        "mjpeg"@, "mj2"@, "nut"@, "gif"@,
    ]
}

/// Extensions offered in the file picker. ffmpeg accepts far more than this;
/// the picker also always offers "All files".
pub fn video_exts() -> (r: Vec<&'static str>)
    ensures
        r@.map_values(|e: &str| e@) == video_ext_list(),
{
    let r = vec![
        "mp4", "m4v", "mov", "mkv", "webm", "avi", "wmv", "flv", "f4v", "mpg", "mpeg", "m2v", "mts",
        "m2ts", "ts", "mxf", "vob", "3gp", "3g2", "ogv", "rm", "rmvb", "asf", "divx", "dv", "gxf",
        "y4m", "yuv", "braw", "r3d", "insv", "avchd", "mjpeg", "mj2", "nut", "gif",
    ];
    assert(r@.map_values(|e: &str| e@) =~= video_ext_list());
    r
}

/// A path whose extension, in any case, is one of the video extensions.
pub open spec fn video_path(path: Seq<char>) -> bool {
    match extension_of(path) {
        Some(e) => video_ext_list().contains(lowercase(e)),
        None => false,
    }
}

pub fn is_video(path: &str) -> (r: bool)
    ensures
        r == video_path(path@),
{
    let ext = extension(path);
    match ext {
        None => false,
        Some(e) => {
            let lower = to_lowercase(e.as_str());
            let exts = video_exts();
            let ghost list = exts@.map_values(|x: &str| x@);
            let mut k: usize = 0;
            while k < exts.len()
                invariant
                    list == exts@.map_values(|x: &str| x@),
                    list == video_ext_list(),
                    extension_of(path@) == Some(e@),
                    lower@ == lowercase(e@),
                    k <= exts@.len(),
                    forall|m: int| 0 <= m < k ==> list[m] != lower@,
                decreases exts.len() - k,
            {
                if crate::text::same_text(lower.as_str(), exts[k]) {
                    assert(list[k as int] == lower@);
                    assert(video_ext_list().contains(lower@));
                    return true;
                }
                k += 1;
            }
            proof {
                if list.contains(lower@) {
                    let m = choose|m: int| 0 <= m < list.len() && list[m] == lower@;
                }
            }
            false
        },
    }
}

/// One line of ffmpeg's `-progress` report, as far as the queue cares.
#[derive(Debug, PartialEq)]
pub enum ProgressLine {
    /// `out_time_us` or `out_time_ms`: microseconds written so far.
    Time(String),
    /// `speed`: how fast the encode runs, e.g. `2.5x`.
    Speed(String),
    Other,
}

/// What a `key=value` line of ffmpeg's progress report says.
pub open spec fn line_report(line: Seq<char>, r: ProgressLine) -> bool {
    let k = find(line, "="@);
    match r {
        ProgressLine::Time(v) => k >= 0 && (line.take(k) == "out_time_us"@ || line.take(k)
            == "out_time_ms"@) && v@ == trim(line.skip(k + 1)),
        ProgressLine::Speed(v) => k >= 0 && line.take(k) == "speed"@ && v@ == trim(line.skip(k + 1)),
        ProgressLine::Other => k < 0 || !(line.take(k) == "out_time_us"@ || line.take(k)
            == "out_time_ms"@ || line.take(k) == "speed"@),
    }
}

/// Reads one line of ffmpeg's progress report. Both time keys are reported
/// in microseconds by ffmpeg.
pub fn parse_progress_line(line: &str) -> (r: ProgressLine)
    ensures
        line_report(line@, r),
{
    let c = chars_of(line);
    let eq = chars_of("=");
    let k = match find_chars(c.as_slice(), eq.as_slice()) {
        Some(k) => k,
        None => return ProgressLine::Other,
    };
    proof {
        crate::text::lemma_find_from(c@, eq@, 0);
        reveal_strlit("=");
        assert(crate::text::occurs_at(c@, eq@, k as int));
        assert(eq@.len() == 1);
    }
    assert(k + 1 <= c.len());
    let key = string_of(c.as_slice(), 0, k);
    let value_chars = string_of(c.as_slice(), k + 1, c.len());
    let value = trim_str(value_chars.as_str());
    assert(c@.subrange(0, k as int) =~= c@.take(k as int));
    assert(c@.subrange(k + 1, c@.len() as int) =~= c@.skip(k + 1));
    if crate::text::same_text(key.as_str(), "out_time_us") || crate::text::same_text(
        key.as_str(),
        "out_time_ms",
    ) {
        ProgressLine::Time(value)
    } else if crate::text::same_text(key.as_str(), "speed") {
        ProgressLine::Speed(value)
    } else {
        ProgressLine::Other
    }
}

/// How many bytes `c` takes in UTF-8.
pub open spec fn utf8_len(c: char) -> nat {
    let u = c as u32;
    if u < 0x80 {
        1
    } else if u < 0x800 {
        2
    } else if u < 0x10000 {
        3
    } else {
        4
    }
}

/// How many bytes `s` takes in UTF-8.
pub open spec fn utf8_size(s: Seq<char>) -> nat
    decreases s.len(),
{
    if s.len() == 0 {
        0
    } else {
        utf8_len(s[0]) + utf8_size(s.drop_first())
    }
}

/// The first character, from `i` on, after which at most 2000 bytes of `s`
/// remain: where the last 2000 bytes begin, moved forward to the next
/// character boundary.
pub open spec fn tail_start(s: Seq<char>, i: int) -> int
    decreases s.len() - i,
{
    if i < 0 || i >= s.len() || utf8_size(s.skip(i)) <= 2000 {
        i
    } else {
        tail_start(s, i + 1)
    }
}

/// The error stream kept while ffmpeg runs: each line trimmed and ended
/// with a newline, and only the tail once it grows long, since ffmpeg can be
/// very chatty on bad input. Past 4000 bytes, the last 2000 bytes are kept,
/// starting at a character boundary.
pub open spec fn error_tail(buf: Seq<char>, line: Seq<char>) -> Seq<char> {
    let grown = buf + trim(line) + seq!['\n'];
    if utf8_size(grown) > 4000 {
        grown.skip(tail_start(grown, 0))
    } else {
        grown
    }
}

proof fn lemma_utf8_step(s: Seq<char>, j: int)
    requires
        0 < j <= s.len(),
    ensures
        utf8_size(s.skip(j - 1)) == utf8_len(s[j - 1]) + utf8_size(s.skip(j)),
{
    assert(s.skip(j - 1).drop_first() =~= s.skip(j));
    assert(s.skip(j - 1)[0] == s[j - 1]);
}

proof fn lemma_utf8_grows_back(s: Seq<char>, i: int, j: int)
    requires
        0 <= i <= j <= s.len(),
    ensures
        utf8_size(s.skip(i)) >= utf8_size(s.skip(j)),
    decreases j - i,
{
    if i < j {
        lemma_utf8_step(s, j);
        lemma_utf8_grows_back(s, i, j - 1);
    }
}

proof fn lemma_tail_start_is(s: Seq<char>, i: int, j: int)
    requires
        0 <= i <= j <= s.len(),
        j > i ==> utf8_size(s.skip(j - 1)) > 2000,
        j < s.len() ==> utf8_size(s.skip(j)) <= 2000,
    ensures
        tail_start(s, i) == j,
    decreases j - i,
{
    if i < j {
        lemma_utf8_grows_back(s, i, j - 1);
        lemma_tail_start_is(s, i + 1, j);
    }
}

fn utf8_width(c: char) -> (r: usize)
    ensures
        r == utf8_len(c),
{
    let u = c as u32;
    if u < 0x80 {
        1
    } else if u < 0x800 {
        2
    } else if u < 0x10000 {
        3
    } else {
        4
    }
}

/// Adds one line of ffmpeg's error stream to what is kept of it.
pub fn keep_error_line(buf: &mut String, line: &str)
    ensures
        final(buf)@ == error_tail(old(buf)@, line@),
{
    let t = trim_str(line);
    let mut c = chars_of(buf.as_str());
    let tc = chars_of(t.as_str());
    let mut i: usize = 0;
    while i < tc.len()
        invariant
            i <= tc@.len(),
            c@ == old(buf)@ + tc@.take(i as int),
        decreases tc.len() - i,
    {
        assert(tc@.take(i + 1) =~= tc@.take(i as int).push(tc@[i as int]));
        c.push(tc[i]);
        i += 1;
    }
    assert(tc@.take(tc@.len() as int) =~= tc@);
    c.push('\n');
    let ghost grown = old(buf)@ + trim(line@) + seq!['\n'];
    assert(c@ =~= grown);
    // Bytes from the end, until past 4000 or the whole is counted.
    let n = c.len();
    let mut j: usize = n;
    let mut total: usize = 0;
    assert(c@.skip(n as int) =~= Seq::<char>::empty());
    while j > 0 && total <= 4000
        invariant
            j <= n,
            n == c@.len(),
            total == utf8_size(c@.skip(j as int)),
            total <= 4004,
        decreases j,
    {
        proof {
            lemma_utf8_step(c@, j as int);
        }
        total = total + utf8_width(c[j - 1]);
        j -= 1;
    }
    proof {
        lemma_utf8_grows_back(c@, 0, j as int);
        assert(c@.skip(0) =~= c@);
    }
    if total <= 4000 {
        // The whole was counted and is short enough.
        assert(j == 0);
        assert(utf8_size(grown) <= 4000);
        *buf = string_of(c.as_slice(), 0, n);
        assert(c@.subrange(0, n as int) =~= c@);
        return;
    }
    // Now the longest tail within 2000 bytes.
    let mut k: usize = n;
    let mut kept: usize = 0;
    while k > 0 && kept + utf8_width(c[k - 1]) <= 2000
        invariant
            k <= n,
            n == c@.len(),
            kept == utf8_size(c@.skip(k as int)),
            kept <= 2000,
        decreases k,
    {
        proof {
            lemma_utf8_step(c@, k as int);
        }
        kept = kept + utf8_width(c[k - 1]);
        k -= 1;
    }
    proof {
        if k > 0 {
            lemma_utf8_step(c@, k as int);
        }
        lemma_tail_start_is(c@, 0, k as int);
        assert(utf8_size(grown) > 4000);
    }
    let tail = string_of(c.as_slice(), k, n);
    assert(c@.subrange(k as int, n as int) =~= c@.skip(k as int));
    *buf = tail;
}

/// Index of the last newline in `s`, or -1.
pub open spec fn last_newline(s: Seq<char>) -> int
    decreases s.len(),
{
    if s.len() == 0 {
        -1
    } else if s.last() == '\n' {
        s.len() - 1
    } else {
        last_newline(s.drop_last())
    }
}

/// The message a failed run shows: the last line ffmpeg wrote to its error
/// stream, or a plain statement when it wrote nothing.
pub open spec fn failure_text(errors: Seq<char>) -> Seq<char> {
    let t = trim(errors);
    if t.len() == 0 {
        "ffmpeg exited with an error"@
    } else {
        t.skip(last_newline(t) + 1)
    }
}

proof fn lemma_last_newline_bound(s: Seq<char>)
    ensures
        -1 <= last_newline(s) < s.len(),
    decreases s.len(),
{
    if s.len() > 0 && s.last() != '\n' {
        lemma_last_newline_bound(s.drop_last());
        assert(s.drop_last().len() == s.len() - 1);
    }
}

pub fn failure_message(errors: &str) -> (r: String)
    ensures
        r@ == failure_text(errors@),
{
    let t = trim_str(errors);
    let c = chars_of(t.as_str());
    if c.len() == 0 {
        return "ffmpeg exited with an error".to_string();
    }
    let mut k: usize = c.len();
    assert(c@.take(k as int) =~= c@);
    while k > 0 && c[k - 1] != '\n'
        invariant
            k <= c@.len(),
            c@ == trim(errors@),
            forall|m: int| k <= m < c@.len() ==> c@[m] != '\n',
            last_newline(c@) == last_newline(c@.take(k as int)),
        decreases k,
    {
        assert(c@.take(k as int).drop_last() =~= c@.take(k - 1));
        k -= 1;
    }
    proof {
        if k > 0 {
            assert(c@.take(k as int).last() == '\n');
        } else {
            assert(c@.take(0).len() == 0);
        }
    }
    assert(c@.subrange(k as int, c@.len() as int) =~= c@.skip(k as int));
    string_of(c.as_slice(), k, c.len())
}

} // verus!
