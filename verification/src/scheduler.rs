//! The scheduler: jobs moving from Pending to a final state over a frozen
//! pool of GPUs and CPU core slots, with at most one job on each.
use vstd::prelude::*;

use crate::format::{
    cpu_slots_text, cuda_devices_text, effective_cpu_threads, format_cpu_slots, format_cuda_devices,
    ids_text, join, join_ids, push_joined, slot_views,
};
use crate::text::{dec, opt_string_view, push_usize};
use crate::job::{
    active, stage, exit_file_code, exit_status, exit_suffix_text, finished, format_exit_code_suffix,
    format_job_status, job_base, join_path, map_exit_code, parse_exit_code, status_text,
    Job, JobStatus,
};
use crate::script::{build_script, build_tmux_shell_command, script_text, tmux_shell_command_text};
use crate::error::{ErrorKind, SchedulerError};
use crate::gpu::err_view;
use crate::input::strings_view;
use crate::namespace::{ensure_job_window_absent, job_window_text, window_name_for_job};

verus! {

/// The first position of `v` that `p` accepts, or `-1`.
pub open spec fn first_match<T>(v: Seq<T>, p: spec_fn(T) -> bool) -> int {
    if exists|k: int| 0 <= k < v.len() && p(v[k]) {
        choose|k: int| 0 <= k < v.len() && p(v[k]) && forall|j: int| 0 <= j < k ==> !p(v[j])
    } else {
        -1
    }
}

pub proof fn lemma_first_match_is<T>(v: Seq<T>, p: spec_fn(T) -> bool, i: int)
    requires
        -1 <= i < v.len(),
        i >= 0 ==> p(v[i]),
        forall|j: int| 0 <= j < v.len() && (i < 0 || j < i) ==> !p(#[trigger] v[j]),
    ensures
        first_match(v, p) == i,
{
    if i >= 0 {
        assert(0 <= i < v.len() && p(v[i]) && forall|j: int| 0 <= j < i ==> !p(v[j]));
        let k = first_match(v, p);
        assert(0 <= k < v.len() && p(v[k]) && forall|j: int| 0 <= j < k ==> !p(v[j]));
        if k < i {
            assert(!p(v[k]));
        }
        if k > i {
            assert(!p(v[i]));
        }
    } else {
        if exists|k: int| 0 <= k < v.len() && p(v[k]) {
            let k = choose|k: int| 0 <= k < v.len() && p(v[k]);
            assert(!p(v[k]));
        }
    }
}

pub proof fn lemma_first_match_bound<T>(v: Seq<T>, p: spec_fn(T) -> bool)
    ensures
        -1 <= first_match(v, p) < v.len(),
        first_match(v, p) >= 0 ==> p(v[first_match(v, p)]),
        forall|j: int|
            0 <= j < v.len() && (first_match(v, p) < 0 || j < first_match(v, p)) ==> !p(
                #[trigger] v[j],
            ),
{
    if exists|k: int| 0 <= k < v.len() && p(v[k]) {
        let k0 = choose|k: int| 0 <= k < v.len() && p(v[k]);
        lemma_least_match(v, p, k0);
    }
}

proof fn lemma_least_match<T>(v: Seq<T>, p: spec_fn(T) -> bool, k0: int)
    requires
        0 <= k0 < v.len(),
        p(v[k0]),
    ensures
        exists|k: int| 0 <= k < v.len() && p(v[k]) && forall|j: int| 0 <= j < k ==> !p(v[j]),
    decreases k0,
{
    if exists|j: int| 0 <= j < k0 && p(v[j]) {
        let j = choose|j: int| 0 <= j < k0 && p(v[j]);
        lemma_least_match(v, p, j);
    } else {
        assert(0 <= k0 < v.len() && p(v[k0]) && forall|j: int| 0 <= j < k0 ==> !p(v[j]));
    }
}

pub open spec fn is_free(b: bool) -> bool {
    !b
}

/// The first free slot of an in-use table, or `-1`.
pub open spec fn first_free(v: Seq<bool>) -> int {
    first_match(v, |b: bool| is_free(b))
}

/// The first position of `g` in `v`, or `-1`.
pub open spec fn position_of(v: Seq<usize>, g: usize) -> int {
    first_match(v, |x: usize| x == g)
}

/// The first position of the slot `s` in `v`, or `-1`.
pub open spec fn slot_position(v: Seq<Seq<usize>>, s: Seq<usize>) -> int {
    first_match(v, |x: Seq<usize>| x == s)
}

pub open spec fn distinct<T>(v: Seq<T>) -> bool {
    forall|a: int, b: int| 0 <= a < b < v.len() ==> v[a] != v[b]
}

/// The core slot of a job, by value.
pub open spec fn cores_of(j: Job) -> Option<Seq<usize>> {
    match j.cpu_cores {
        Some(c) => Some(c@),
        None => None,
    }
}

/// Some Scheduled or Running job holds GPU `g`.
pub open spec fn holds_gpu(jobs: Seq<Job>, g: usize) -> bool {
    exists|j: int| 0 <= j < jobs.len() && active(jobs[j].status) && #[trigger] jobs[j].gpu_id == Some(g)
}

/// Some Scheduled or Running job holds the core slot `s`.
pub open spec fn holds_slot(jobs: Seq<Job>, s: Seq<usize>) -> bool {
    exists|j: int| 0 <= j < jobs.len() && active(jobs[j].status) && #[trigger] cores_of(jobs[j]) == Some(s)
}

/// What holds of each job: only Scheduled and Running jobs hold resources,
/// taken from the pools; such a job holds a GPU exactly when the run has
/// GPUs, and a core slot exactly when it has slots; a Running job has its window.
pub open spec fn job_ok(j: Job, devices: Seq<usize>, slots: Seq<Seq<usize>>) -> bool {
    &&& (j.gpu_id matches Some(g) ==> active(j.status) && devices.contains(g))
    &&& (cores_of(j) matches Some(c) ==> active(j.status) && slots.contains(c))
    &&& (active(j.status) ==> (j.gpu_id is Some <==> devices.len() > 0) && (j.cpu_cores is Some
        <==> slots.len() > 0))
    &&& (j.status == JobStatus::Running ==> j.window_name is Some)
}

/// The scheduler's state and its pools.
pub struct Scheduler {
    pub session: String,
    pub jobs: Vec<Job>,
    pub logs_dir: String,
    pub job_window_prefix: String,
    pub cpu_threads: Option<usize>,
    pub device_ids: Vec<usize>,
    pub gpu_in_use: Vec<bool>,
    pub cpu_slots: Vec<Vec<usize>>,
    pub cpu_in_use: Vec<bool>,
    pub keep_job_tabs: bool,
    pub verbose: bool,
}

impl Scheduler {
    /// The invariant of the scheduler: the in-use tables match the pools;
    /// the pools hold no GPU and no slot twice; a GPU or slot is marked in use
    /// exactly when a Scheduled or Running job holds it; every job is as
    /// `job_ok` says; and no two jobs hold the same GPU or the same slot.
    #[verifier::opaque]
    pub open spec fn wf(self) -> bool {
        let slots = slot_views(self.cpu_slots@);
        &&& self.gpu_in_use@.len() == self.device_ids@.len()
        &&& self.cpu_in_use@.len() == self.cpu_slots@.len()
        &&& distinct(self.device_ids@)
        &&& distinct(slots)
        &&& forall|k: int|
            0 <= k < self.device_ids@.len() ==> #[trigger] self.gpu_in_use@[k] == holds_gpu(
                self.jobs@,
                self.device_ids@[k],
            )
        &&& forall|k: int|
            0 <= k < self.cpu_slots@.len() ==> #[trigger] self.cpu_in_use@[k] == holds_slot(
                self.jobs@,
                slots[k],
            )
        &&& forall|j: int|
            0 <= j < self.jobs@.len() ==> job_ok(#[trigger] self.jobs@[j], self.device_ids@, slots)
        &&& forall|a: int, b: int|
            0 <= a < self.jobs@.len() && 0 <= b < self.jobs@.len() && a != b && (
            #[trigger] self.jobs@[a]).gpu_id is Some ==> self.jobs@[a].gpu_id != (
            #[trigger] self.jobs@[b]).gpu_id
        &&& forall|a: int, b: int|
            0 <= a < self.jobs@.len() && 0 <= b < self.jobs@.len() && a != b && cores_of(
                #[trigger] self.jobs@[a],
            ) is Some ==> cores_of(self.jobs@[a]) != cores_of(#[trigger] self.jobs@[b])
    }

    /// Everything but the in-use tables is as in `other`.
    pub open spec fn same_but_tables(self, other: Scheduler) -> bool {
        &&& self.session == other.session
        &&& self.jobs == other.jobs
        &&& self.logs_dir == other.logs_dir
        &&& self.job_window_prefix == other.job_window_prefix
        &&& self.cpu_threads == other.cpu_threads
        &&& self.device_ids == other.device_ids
        &&& self.cpu_slots == other.cpu_slots
        &&& self.keep_job_tabs == other.keep_job_tabs
        &&& self.verbose == other.verbose
    }
}

fn all_free(n: usize) -> (v: Vec<bool>)
    ensures
        v@ == Seq::new(n as nat, |k: int| false),
{
    let mut v: Vec<bool> = Vec::new();
    let mut i: usize = 0;
    while i < n
        invariant
            i <= n,
            v@ == Seq::new(i as nat, |k: int| false),
        decreases n - i,
    {
        v.push(false);
        i = i + 1;
        assert(v@ =~= Seq::new(i as nat, |k: int| false));
    }
    v
}

fn usizes_eq(a: &Vec<usize>, b: &Vec<usize>) -> (r: bool)
    ensures
        r == (a@ == b@),
{
    if a.len() != b.len() {
        return false;
    }
    let n = a.len();
    let mut i: usize = 0;
    while i < n
        invariant
            i <= n == a@.len() == b@.len(),
            forall|k: int| 0 <= k < i ==> a@[k] == b@[k],
        decreases n - i,
    {
        if a[i] != b[i] {
            return false;
        }
        i = i + 1;
    }
    assert(a@ =~= b@);
    true
}

fn copy_usizes(v: &Vec<usize>) -> (r: Vec<usize>)
    ensures
        r@ == v@,
{
    let mut r: Vec<usize> = Vec::new();
    let n = v.len();
    let mut i: usize = 0;
    while i < n
        invariant
            i <= n == v@.len(),
            r@ == v@.take(i as int),
        decreases n - i,
    {
        r.push(v[i]);
        i = i + 1;
        assert(r@ =~= v@.take(i as int));
    }
    assert(v@.take(n as int) =~= v@);
    r
}

fn find_free(v: &Vec<bool>) -> (r: Option<usize>)
    ensures
        match r {
            Some(k) => k == first_free(v@) && k < v@.len(),
            None => first_free(v@) == -1,
        },
{
    let n = v.len();
    let mut i: usize = 0;
    while i < n
        invariant
            i <= n == v@.len(),
            forall|j: int| 0 <= j < i ==> !is_free(#[trigger] v@[j]),
        decreases n - i,
    {
        if !v[i] {
            proof {
                lemma_first_match_is(v@, |b: bool| is_free(b), i as int);
            }
            return Some(i);
        }
        i = i + 1;
    }
    proof {
        lemma_first_match_is(v@, |b: bool| is_free(b), -1);
    }
    None
}

impl Scheduler {
    /// A scheduler over the given pools whose jobs are the commands, in
    /// order, with ids from 1, all Pending.
    pub fn new(
        session: String,
        logs_dir: String,
        device_ids: Vec<usize>,
        cpu_slots: Vec<Vec<usize>>,
        commands: Vec<String>,
        job_window_prefix: String,
        cpu_threads: Option<usize>,
        keep_job_tabs: bool,
        verbose: bool,
    ) -> (s: Scheduler)
        ensures
            s.session == session,
            s.logs_dir == logs_dir,
            s.job_window_prefix == job_window_prefix,
            s.cpu_threads == cpu_threads,
            s.keep_job_tabs == keep_job_tabs,
            s.verbose == verbose,
            s.device_ids == device_ids,
            s.cpu_slots == cpu_slots,
            s.gpu_in_use@ == Seq::new(device_ids@.len(), |k: int| false),
            s.cpu_in_use@ == Seq::new(cpu_slots@.len(), |k: int| false),
            s.jobs@.len() == commands@.len(),
            forall|k: int|
                0 <= k < commands@.len() ==> {
                    let j = #[trigger] s.jobs@[k];
                    &&& j.id == k + 1
                    &&& j.cmd@ == commands@[k]@
                    &&& j.status == JobStatus::Pending
                    &&& j.gpu_id is None
                    &&& j.cpu_cores is None
                    &&& j.window_name is None
                    &&& j.log_path@ == join_path(logs_dir@, job_base((k + 1) as usize) + ".log"@)
                    &&& j.exit_path@ == join_path(logs_dir@, job_base((k + 1) as usize) + ".exit"@)
                },
            distinct(device_ids@) && distinct(slot_views(cpu_slots@)) ==> s.wf(),
    {
        let mut jobs: Vec<Job> = Vec::new();
        let n = commands.len();
        let mut i: usize = 0;
        while i < n
            invariant
                i <= n == commands@.len(),
                jobs@.len() == i,
                forall|k: int|
                    0 <= k < i ==> {
                        let j = #[trigger] jobs@[k];
                        &&& j.id == k + 1
                        &&& j.cmd@ == commands@[k]@
                        &&& j.status == JobStatus::Pending
                        &&& j.gpu_id is None
                        &&& j.cpu_cores is None
                        &&& j.window_name is None
                        &&& j.log_path@ == join_path(logs_dir@, job_base((k + 1) as usize) + ".log"@)
                        &&& j.exit_path@ == join_path(logs_dir@, job_base((k + 1) as usize) + ".exit"@)
                    },
            decreases n - i,
        {
            let cmd = commands[i].clone();
            let job = Job::new(i + 1, cmd, logs_dir.as_str());
            jobs.push(job);
            i = i + 1;
        }
        let gpu_in_use = all_free(device_ids.len());
        let cpu_in_use = all_free(cpu_slots.len());
        let s = Scheduler {
            session,
            jobs,
            logs_dir,
            job_window_prefix,
            cpu_threads,
            device_ids,
            gpu_in_use,
            cpu_slots,
            cpu_in_use,
            keep_job_tabs,
            verbose,
        };
        proof {
            reveal(Scheduler::wf);
            assert forall|k: int| 0 <= k < s.device_ids@.len() implies #[trigger] s.gpu_in_use@[k]
                == holds_gpu(s.jobs@, s.device_ids@[k]) by {
                if holds_gpu(s.jobs@, s.device_ids@[k]) {
                    let j = choose|j: int|
                        0 <= j < s.jobs@.len() && active(s.jobs@[j].status) && #[trigger] s.jobs@[j].gpu_id
                            == Some(s.device_ids@[k]);
                    assert(s.jobs@[j].status == JobStatus::Pending);
                }
            }
            assert forall|k: int| 0 <= k < s.cpu_slots@.len() implies #[trigger] s.cpu_in_use@[k]
                == holds_slot(s.jobs@, slot_views(s.cpu_slots@)[k]) by {
                if holds_slot(s.jobs@, slot_views(s.cpu_slots@)[k]) {
                    let j = choose|j: int|
                        0 <= j < s.jobs@.len() && active(s.jobs@[j].status) && #[trigger] cores_of(
                            s.jobs@[j],
                        ) == Some(slot_views(s.cpu_slots@)[k]);
                    assert(s.jobs@[j].status == JobStatus::Pending);
                }
            }
        }
        s
    }

    /// The jobs, in input order.
    pub fn jobs(&self) -> (r: &Vec<Job>)
        ensures
            r == &self.jobs,
    {
        &self.jobs
    }

    /// Takes the first free GPU slot: marks it in use and gives its device.
    fn acquire_gpu(&mut self) -> (r: Option<usize>)
        ensures
            final(self).same_but_tables(*old(self)),
            final(self).cpu_in_use == old(self).cpu_in_use,
            ({
                let k = first_free(old(self).gpu_in_use@);
                if k < 0 {
                    r is None && final(self).gpu_in_use@ == old(self).gpu_in_use@
                } else {
                    &&& final(self).gpu_in_use@ == old(self).gpu_in_use@.update(k, true)
                    &&& r == if k < old(self).device_ids@.len() {
                        Some(old(self).device_ids@[k])
                    } else {
                        None
                    }
                }
            }),
    {
        match find_free(&self.gpu_in_use) {
            Some(k) => {
                self.gpu_in_use.set(k, true);
                if k < self.device_ids.len() {
                    Some(self.device_ids[k])
                } else {
                    None
                }
            },
            None => None,
        }
    }

    /// Takes the first free core slot: marks it in use and gives its cores.
    fn acquire_cpu(&mut self) -> (r: Option<Vec<usize>>)
        ensures
            final(self).same_but_tables(*old(self)),
            final(self).gpu_in_use == old(self).gpu_in_use,
            ({
                let k = first_free(old(self).cpu_in_use@);
                if k < 0 {
                    r is None && final(self).cpu_in_use@ == old(self).cpu_in_use@
                } else {
                    &&& final(self).cpu_in_use@ == old(self).cpu_in_use@.update(k, true)
                    &&& match r {
                        Some(c) => k < old(self).cpu_slots@.len() && c@ == old(self).cpu_slots@[k]@,
                        None => k >= old(self).cpu_slots@.len(),
                    }
                }
            }),
    {
        match find_free(&self.cpu_in_use) {
            Some(k) => {
                self.cpu_in_use.set(k, true);
                if k < self.cpu_slots.len() {
                    Some(copy_usizes(&self.cpu_slots[k]))
                } else {
                    None
                }
            },
            None => None,
        }
    }

    /// Frees the slot of GPU `gpu_id`, if the pool has it.
    pub fn release_gpu(&mut self, gpu_id: usize)
        ensures
            final(self).same_but_tables(*old(self)),
            final(self).cpu_in_use == old(self).cpu_in_use,
            ({
                let k = position_of(old(self).device_ids@, gpu_id);
                if 0 <= k < old(self).gpu_in_use@.len() {
                    final(self).gpu_in_use@ == old(self).gpu_in_use@.update(k, false)
                } else {
                    final(self).gpu_in_use@ == old(self).gpu_in_use@
                }
            }),
    {
        let n = self.device_ids.len();
        let mut i: usize = 0;
        while i < n
            invariant
                i <= n == self.device_ids@.len(),
                forall|j: int| 0 <= j < i ==> #[trigger] self.device_ids@[j] != gpu_id,
                *self == *old(self),
            decreases n - i,
        {
            if self.device_ids[i] == gpu_id {
                proof {
                    lemma_first_match_is(self.device_ids@, |x: usize| x == gpu_id, i as int);
                }
                if i < self.gpu_in_use.len() {
                    self.gpu_in_use.set(i, false);
                }
                return ;
            }
            i = i + 1;
        }
        proof {
            lemma_first_match_is(self.device_ids@, |x: usize| x == gpu_id, -1);
        }
    }

    /// Frees the core slot `cpu_cores`, if the pool has it.
    pub fn release_cpu(&mut self, cpu_cores: &Vec<usize>)
        ensures
            final(self).same_but_tables(*old(self)),
            final(self).gpu_in_use == old(self).gpu_in_use,
            ({
                let k = slot_position(slot_views(old(self).cpu_slots@), cpu_cores@);
                if 0 <= k < old(self).cpu_in_use@.len() {
                    final(self).cpu_in_use@ == old(self).cpu_in_use@.update(k, false)
                } else {
                    final(self).cpu_in_use@ == old(self).cpu_in_use@
                }
            }),
    {
        let ghost views = slot_views(self.cpu_slots@);
        let n = self.cpu_slots.len();
        let mut i: usize = 0;
        while i < n
            invariant
                i <= n == self.cpu_slots@.len() == views.len(),
                views == slot_views(self.cpu_slots@),
                forall|j: int| 0 <= j < i ==> #[trigger] views[j] != cpu_cores@,
                *self == *old(self),
            decreases n - i,
        {
            if usizes_eq(&self.cpu_slots[i], cpu_cores) {
                proof {
                    lemma_first_match_is(views, |x: Seq<usize>| x == cpu_cores@, i as int);
                }
                if i < self.cpu_in_use.len() {
                    self.cpu_in_use.set(i, false);
                }
                return ;
            }
            i = i + 1;
        }
        proof {
            lemma_first_match_is(views, |x: Seq<usize>| x == cpu_cores@, -1);
        }
    }
}

pub open spec fn opt_cores(c: Option<Vec<usize>>) -> Option<Seq<usize>> {
    match c {
        Some(v) => Some(v@),
        None => None,
    }
}

/// Whether a job can get what it needs now: a free GPU where the run has
/// GPUs, and a free core slot where it has slots.
pub open spec fn can_acquire(s: Scheduler) -> bool {
    &&& (s.device_ids@.len() == 0 || first_free(s.gpu_in_use@) >= 0)
    &&& (s.cpu_slots@.len() == 0 || first_free(s.cpu_in_use@) >= 0)
}

impl Scheduler {
    /// Takes a GPU and a core slot for one job, as the run has them, or
    /// nothing where either is missing.
    fn acquire_resources(&mut self) -> (r: Option<(Option<usize>, Option<Vec<usize>>)>)
        ensures
            final(self).same_but_tables(*old(self)),
            old(self).gpu_in_use@.len() == old(self).device_ids@.len() && old(self).cpu_in_use@.len()
                == old(self).cpu_slots@.len() && distinct(old(self).device_ids@) ==> ({
                let kg = first_free(old(self).gpu_in_use@);
                let kc = first_free(old(self).cpu_in_use@);
                if can_acquire(*old(self)) {
                    &&& r matches Some((g, c))
                    &&& g == if old(self).device_ids@.len() == 0 {
                        None
                    } else {
                        Some(old(self).device_ids@[kg])
                    }
                    &&& opt_cores(c) == if old(self).cpu_slots@.len() == 0 {
                        None
                    } else {
                        Some(old(self).cpu_slots@[kc]@)
                    }
                    &&& final(self).gpu_in_use@ == if old(self).device_ids@.len() == 0 {
                        old(self).gpu_in_use@
                    } else {
                        old(self).gpu_in_use@.update(kg, true)
                    }
                    &&& final(self).cpu_in_use@ == if old(self).cpu_slots@.len() == 0 {
                        old(self).cpu_in_use@
                    } else {
                        old(self).cpu_in_use@.update(kc, true)
                    }
                } else {
                    &&& r is None
                    &&& final(self).gpu_in_use@ == old(self).gpu_in_use@
                    &&& final(self).cpu_in_use@ == old(self).cpu_in_use@
                }
            }),
            r is None <==> !can_acquire(*old(self)) || (old(self).device_ids@.len() > 0
                && first_free(old(self).gpu_in_use@) >= old(self).device_ids@.len()) || (
            old(self).cpu_slots@.len() > 0 && first_free(old(self).cpu_in_use@)
                >= old(self).cpu_slots@.len()),
    {
        let ghost kg = first_free(old(self).gpu_in_use@);
        proof {
            lemma_first_match_bound(old(self).gpu_in_use@, |b: bool| is_free(b));
            lemma_first_match_bound(old(self).cpu_in_use@, |b: bool| is_free(b));
        }
        let gpu_id = if self.device_ids.len() == 0 {
            None
        } else {
            match self.acquire_gpu() {
                Some(g) => Some(g),
                None => {
                    return None;
                },
            }
        };
        let cpu_cores = if self.cpu_slots.len() == 0 {
            None
        } else {
            match self.acquire_cpu() {
                Some(c) => Some(c),
                None => {
                    if let Some(g) = gpu_id {
                        proof {
                            if old(self).gpu_in_use@.len() == old(self).device_ids@.len()
                                && distinct(old(self).device_ids@) {
                                assert forall|j: int|
                                    0 <= j < self.device_ids@.len() && (kg < 0 || j < kg) implies !(
                                #[trigger] self.device_ids@[j] == g) by {
                                    assert(self.device_ids@[j] != self.device_ids@[kg]);
                                }
                                lemma_first_match_is(self.device_ids@, |x: usize| x == g, kg);
                                assert(is_free(old(self).gpu_in_use@[kg]));
                            }
                        }
                        self.release_gpu(g);
                        proof {
                            if old(self).gpu_in_use@.len() == old(self).device_ids@.len()
                                && distinct(old(self).device_ids@) {
                                assert(self.gpu_in_use@ =~= old(self).gpu_in_use@);
                            }
                        }
                    }
                    return None;
                },
            }
        };
        Some((gpu_id, cpu_cores))
    }
}

/// The pools and tables of `t` are those of `s`, and its jobs too but for job `idx`.
pub open spec fn same_but_job(s: Scheduler, t: Scheduler, idx: int) -> bool {
    &&& t.device_ids == s.device_ids
    &&& t.cpu_slots == s.cpu_slots
    &&& t.jobs@.len() == s.jobs@.len()
    &&& 0 <= idx < s.jobs@.len()
    &&& forall|j: int| 0 <= j < s.jobs@.len() && j != idx ==> t.jobs@[j] == s.jobs@[j]
}

/// A state that differs from a well-formed one only in how its tables are
/// stored, not in what they hold, is well formed.
proof fn lemma_same_tables_keep_wf(s: Scheduler, t: Scheduler)
    requires
        s.wf(),
        t.same_but_tables(s),
        t.gpu_in_use@ == s.gpu_in_use@,
        t.cpu_in_use@ == s.cpu_in_use@,
    ensures
        t.wf(),
{
    reveal(Scheduler::wf);
}

/// Giving a Pending job a free GPU and a free core slot keeps the invariant.
proof fn lemma_assign_keeps_wf(s: Scheduler, t: Scheduler, idx: int, kg: int, kc: int)
    requires
        s.wf(),
        same_but_job(s, t, idx),
        s.jobs@[idx].status == JobStatus::Pending,
        t.jobs@[idx].status == JobStatus::Scheduled,
        s.device_ids@.len() == 0 ==> t.jobs@[idx].gpu_id is None && t.gpu_in_use@ == s.gpu_in_use@,
        s.device_ids@.len() > 0 ==> 0 <= kg < s.device_ids@.len() && !s.gpu_in_use@[kg]
            && t.gpu_in_use@ == s.gpu_in_use@.update(kg, true) && t.jobs@[idx].gpu_id == Some(
            s.device_ids@[kg],
        ),
        s.cpu_slots@.len() == 0 ==> t.jobs@[idx].cpu_cores is None && t.cpu_in_use@ == s.cpu_in_use@,
        s.cpu_slots@.len() > 0 ==> 0 <= kc < s.cpu_slots@.len() && !s.cpu_in_use@[kc]
            && t.cpu_in_use@ == s.cpu_in_use@.update(kc, true) && cores_of(t.jobs@[idx]) == Some(
            s.cpu_slots@[kc]@,
        ),
    ensures
        t.wf(),
{
    reveal(Scheduler::wf);
    let slots = slot_views(s.cpu_slots@);
    let n = s.jobs@.len();
    assert(job_ok(s.jobs@[idx], s.device_ids@, slots));
    assert forall|k: int| 0 <= k < t.device_ids@.len() implies #[trigger] t.gpu_in_use@[k]
        == holds_gpu(t.jobs@, t.device_ids@[k]) by {
        let d = s.device_ids@[k];
        assert(s.gpu_in_use@[k] == holds_gpu(s.jobs@, d));
        if k == kg {
            assert(t.jobs@[idx].gpu_id == Some(d));
        } else {
            if holds_gpu(t.jobs@, d) {
                let j = choose|j: int|
                    0 <= j < n && active(t.jobs@[j].status) && #[trigger] t.jobs@[j].gpu_id == Some(d);
                if j == idx {
                    assert(s.device_ids@[kg] != s.device_ids@[k]);
                }
                assert(s.jobs@[j] == t.jobs@[j]);
            }
            if holds_gpu(s.jobs@, d) {
                let j = choose|j: int|
                    0 <= j < n && active(s.jobs@[j].status) && #[trigger] s.jobs@[j].gpu_id == Some(d);
                assert(j != idx);
                assert(s.jobs@[j] == t.jobs@[j]);
            }
        }
    }
    assert forall|k: int| 0 <= k < t.cpu_slots@.len() implies #[trigger] t.cpu_in_use@[k]
        == holds_slot(t.jobs@, slot_views(t.cpu_slots@)[k]) by {
        let c = slots[k];
        assert(s.cpu_in_use@[k] == holds_slot(s.jobs@, c));
        if k == kc {
            assert(cores_of(t.jobs@[idx]) == Some(c));
        } else {
            if holds_slot(t.jobs@, c) {
                let j = choose|j: int|
                    0 <= j < n && active(t.jobs@[j].status) && #[trigger] cores_of(t.jobs@[j]) == Some(c);
                if j == idx {
                    assert(slots[kc] != slots[k]);
                }
                assert(s.jobs@[j] == t.jobs@[j]);
            }
            if holds_slot(s.jobs@, c) {
                let j = choose|j: int|
                    0 <= j < n && active(s.jobs@[j].status) && #[trigger] cores_of(s.jobs@[j]) == Some(c);
                assert(j != idx);
                assert(s.jobs@[j] == t.jobs@[j]);
            }
        }
    }
    assert forall|j: int| 0 <= j < t.jobs@.len() implies job_ok(
        #[trigger] t.jobs@[j],
        t.device_ids@,
        slot_views(t.cpu_slots@),
    ) by {
        if j != idx {
            assert(s.jobs@[j] == t.jobs@[j]);
            assert(job_ok(s.jobs@[j], s.device_ids@, slots));
        } else {
            if s.cpu_slots@.len() > 0 {
                assert(slots[kc] == s.cpu_slots@[kc]@);
            }
        }
    }
    assert forall|a: int, b: int|
        0 <= a < t.jobs@.len() && 0 <= b < t.jobs@.len() && a != b && (
        #[trigger] t.jobs@[a]).gpu_id is Some implies t.jobs@[a].gpu_id != (
        #[trigger] t.jobs@[b]).gpu_id by {
        if a == idx {
            assert(s.jobs@[b] == t.jobs@[b]);
            if t.jobs@[b].gpu_id == t.jobs@[a].gpu_id {
                assert(job_ok(s.jobs@[b], s.device_ids@, slots));
                assert(holds_gpu(s.jobs@, s.device_ids@[kg]));
            }
        } else if b == idx {
            assert(s.jobs@[a] == t.jobs@[a]);
            if t.jobs@[b].gpu_id == t.jobs@[a].gpu_id {
                assert(job_ok(s.jobs@[a], s.device_ids@, slots));
                assert(holds_gpu(s.jobs@, s.device_ids@[kg]));
            }
        } else {
            assert(s.jobs@[a] == t.jobs@[a] && s.jobs@[b] == t.jobs@[b]);
        }
    }
    assert forall|a: int, b: int|
        0 <= a < t.jobs@.len() && 0 <= b < t.jobs@.len() && a != b && cores_of(
            #[trigger] t.jobs@[a],
        ) is Some implies cores_of(t.jobs@[a]) != cores_of(#[trigger] t.jobs@[b]) by {
        if a == idx {
            assert(s.jobs@[b] == t.jobs@[b]);
            if cores_of(t.jobs@[b]) == cores_of(t.jobs@[a]) {
                assert(job_ok(s.jobs@[b], s.device_ids@, slots));
                assert(holds_slot(s.jobs@, slots[kc]));
            }
        } else if b == idx {
            assert(s.jobs@[a] == t.jobs@[a]);
            if cores_of(t.jobs@[b]) == cores_of(t.jobs@[a]) {
                assert(job_ok(s.jobs@[a], s.device_ids@, slots));
                assert(holds_slot(s.jobs@, slots[kc]));
            }
        } else {
            assert(s.jobs@[a] == t.jobs@[a] && s.jobs@[b] == t.jobs@[b]);
        }
    }
}

/// Ending a job, with its GPU and core slot given back, keeps the invariant.
proof fn lemma_finish_keeps_wf(s: Scheduler, t: Scheduler, idx: int)
    requires
        s.wf(),
        same_but_job(s, t, idx),
        finished(t.jobs@[idx].status),
        t.jobs@[idx].gpu_id is None,
        t.jobs@[idx].cpu_cores is None,
        s.jobs@[idx].gpu_id matches Some(g) ==> t.gpu_in_use@ == s.gpu_in_use@.update(
            position_of(s.device_ids@, g),
            false,
        ),
        s.jobs@[idx].gpu_id is None ==> t.gpu_in_use@ == s.gpu_in_use@,
        cores_of(s.jobs@[idx]) matches Some(c) ==> t.cpu_in_use@ == s.cpu_in_use@.update(
            slot_position(slot_views(s.cpu_slots@), c),
            false,
        ),
        cores_of(s.jobs@[idx]) is None ==> t.cpu_in_use@ == s.cpu_in_use@,
    ensures
        t.wf(),
{
    reveal(Scheduler::wf);
    let slots = slot_views(s.cpu_slots@);
    let n = s.jobs@.len();
    assert(job_ok(s.jobs@[idx], s.device_ids@, slots));
    let kg = match s.jobs@[idx].gpu_id {
        Some(g) => position_of(s.device_ids@, g),
        None => -1,
    };
    let kc = match cores_of(s.jobs@[idx]) {
        Some(c) => slot_position(slots, c),
        None => -1,
    };
    if let Some(g) = s.jobs@[idx].gpu_id {
        lemma_first_match_bound(s.device_ids@, |x: usize| x == g);
        let k0 = choose|k: int| 0 <= k < s.device_ids@.len() && s.device_ids@[k] == g;
        assert(!(|x: usize| x == g)(s.device_ids@[k0]) ==> false);
        assert(0 <= kg < s.device_ids@.len() && s.device_ids@[kg] == g);
    }
    if let Some(c) = cores_of(s.jobs@[idx]) {
        lemma_first_match_bound(slots, |x: Seq<usize>| x == c);
        let k0 = choose|k: int| 0 <= k < slots.len() && slots[k] == c;
        assert(!(|x: Seq<usize>| x == c)(slots[k0]) ==> false);
        assert(0 <= kc < slots.len() && slots[kc] == c);
    }
    assert forall|k: int| 0 <= k < t.device_ids@.len() implies #[trigger] t.gpu_in_use@[k]
        == holds_gpu(t.jobs@, t.device_ids@[k]) by {
        let d = s.device_ids@[k];
        assert(s.gpu_in_use@[k] == holds_gpu(s.jobs@, d));
        if holds_gpu(t.jobs@, d) {
            let j = choose|j: int|
                0 <= j < n && active(t.jobs@[j].status) && #[trigger] t.jobs@[j].gpu_id == Some(d);
            assert(j != idx);
            assert(s.jobs@[j] == t.jobs@[j]);
            if k == kg {
                assert(s.jobs@[idx].gpu_id == s.jobs@[j].gpu_id);
            }
        }
        if holds_gpu(s.jobs@, d) && k != kg {
            let j = choose|j: int|
                0 <= j < n && active(s.jobs@[j].status) && #[trigger] s.jobs@[j].gpu_id == Some(d);
            if j == idx {
                assert(s.device_ids@[kg] == d);
            }
            assert(s.jobs@[j] == t.jobs@[j]);
        }
    }
    assert forall|k: int| 0 <= k < t.cpu_slots@.len() implies #[trigger] t.cpu_in_use@[k]
        == holds_slot(t.jobs@, slot_views(t.cpu_slots@)[k]) by {
        let c = slots[k];
        assert(s.cpu_in_use@[k] == holds_slot(s.jobs@, c));
        if holds_slot(t.jobs@, c) {
            let j = choose|j: int|
                0 <= j < n && active(t.jobs@[j].status) && #[trigger] cores_of(t.jobs@[j]) == Some(c);
            assert(j != idx);
            assert(s.jobs@[j] == t.jobs@[j]);
            if k == kc {
                assert(cores_of(s.jobs@[idx]) == cores_of(s.jobs@[j]));
            }
        }
        if holds_slot(s.jobs@, c) && k != kc {
            let j = choose|j: int|
                0 <= j < n && active(s.jobs@[j].status) && #[trigger] cores_of(s.jobs@[j]) == Some(c);
            if j == idx {
                assert(slots[kc] == c);
            }
            assert(s.jobs@[j] == t.jobs@[j]);
        }
    }
    assert forall|j: int| 0 <= j < t.jobs@.len() implies job_ok(
        #[trigger] t.jobs@[j],
        t.device_ids@,
        slot_views(t.cpu_slots@),
    ) by {
        if j != idx {
            assert(s.jobs@[j] == t.jobs@[j]);
            assert(job_ok(s.jobs@[j], s.device_ids@, slots));
        }
    }
    assert forall|a: int, b: int|
        0 <= a < t.jobs@.len() && 0 <= b < t.jobs@.len() && a != b && (
        #[trigger] t.jobs@[a]).gpu_id is Some implies t.jobs@[a].gpu_id != (
        #[trigger] t.jobs@[b]).gpu_id by {
        if a != idx && b != idx {
            assert(s.jobs@[a] == t.jobs@[a] && s.jobs@[b] == t.jobs@[b]);
        }
    }
    assert forall|a: int, b: int|
        0 <= a < t.jobs@.len() && 0 <= b < t.jobs@.len() && a != b && cores_of(
            #[trigger] t.jobs@[a],
        ) is Some implies cores_of(t.jobs@[a]) != cores_of(#[trigger] t.jobs@[b]) by {
        if a != idx && b != idx {
            assert(s.jobs@[a] == t.jobs@[a] && s.jobs@[b] == t.jobs@[b]);
        }
    }
}

/// Starting a Scheduled job in its window keeps the invariant.
proof fn lemma_start_keeps_wf(s: Scheduler, t: Scheduler, idx: int)
    requires
        s.wf(),
        same_but_job(s, t, idx),
        s.jobs@[idx].status == JobStatus::Scheduled,
        t.jobs@[idx].status == JobStatus::Running,
        t.jobs@[idx].window_name is Some,
        t.jobs@[idx].gpu_id == s.jobs@[idx].gpu_id,
        t.jobs@[idx].cpu_cores == s.jobs@[idx].cpu_cores,
        t.gpu_in_use == s.gpu_in_use,
        t.cpu_in_use == s.cpu_in_use,
    ensures
        t.wf(),
{
    reveal(Scheduler::wf);
    let slots = slot_views(s.cpu_slots@);
    let n = s.jobs@.len();
    assert(job_ok(s.jobs@[idx], s.device_ids@, slots));
    assert forall|k: int| 0 <= k < t.device_ids@.len() implies #[trigger] t.gpu_in_use@[k]
        == holds_gpu(t.jobs@, t.device_ids@[k]) by {
        let d = s.device_ids@[k];
        assert(s.gpu_in_use@[k] == holds_gpu(s.jobs@, d));
        if holds_gpu(t.jobs@, d) {
            let j = choose|j: int|
                0 <= j < n && active(t.jobs@[j].status) && #[trigger] t.jobs@[j].gpu_id == Some(d);
            if j != idx {
                assert(s.jobs@[j] == t.jobs@[j]);
            }
        }
        if holds_gpu(s.jobs@, d) {
            let j = choose|j: int|
                0 <= j < n && active(s.jobs@[j].status) && #[trigger] s.jobs@[j].gpu_id == Some(d);
            if j != idx {
                assert(s.jobs@[j] == t.jobs@[j]);
            }
        }
    }
    assert forall|k: int| 0 <= k < t.cpu_slots@.len() implies #[trigger] t.cpu_in_use@[k]
        == holds_slot(t.jobs@, slot_views(t.cpu_slots@)[k]) by {
        let c = slots[k];
        assert(s.cpu_in_use@[k] == holds_slot(s.jobs@, c));
        if holds_slot(t.jobs@, c) {
            let j = choose|j: int|
                0 <= j < n && active(t.jobs@[j].status) && #[trigger] cores_of(t.jobs@[j]) == Some(c);
            if j != idx {
                assert(s.jobs@[j] == t.jobs@[j]);
            } else {
                assert(cores_of(s.jobs@[idx]) == cores_of(t.jobs@[idx]));
            }
        }
        if holds_slot(s.jobs@, c) {
            let j = choose|j: int|
                0 <= j < n && active(s.jobs@[j].status) && #[trigger] cores_of(s.jobs@[j]) == Some(c);
            if j != idx {
                assert(s.jobs@[j] == t.jobs@[j]);
            } else {
                assert(cores_of(s.jobs@[idx]) == cores_of(t.jobs@[idx]));
            }
        }
    }
    assert forall|j: int| 0 <= j < t.jobs@.len() implies job_ok(
        #[trigger] t.jobs@[j],
        t.device_ids@,
        slot_views(t.cpu_slots@),
    ) by {
        if j != idx {
            assert(s.jobs@[j] == t.jobs@[j]);
            assert(job_ok(s.jobs@[j], s.device_ids@, slots));
        } else {
            assert(cores_of(s.jobs@[idx]) == cores_of(t.jobs@[idx]));
        }
    }
    assert forall|a: int, b: int|
        0 <= a < t.jobs@.len() && 0 <= b < t.jobs@.len() && a != b && (
        #[trigger] t.jobs@[a]).gpu_id is Some implies t.jobs@[a].gpu_id != (
        #[trigger] t.jobs@[b]).gpu_id by {
        if a != idx {
            assert(s.jobs@[a] == t.jobs@[a]);
        }
        if b != idx {
            assert(s.jobs@[b] == t.jobs@[b]);
        }
        assert(s.jobs@[a].gpu_id != s.jobs@[b].gpu_id);
    }
    assert forall|a: int, b: int|
        0 <= a < t.jobs@.len() && 0 <= b < t.jobs@.len() && a != b && cores_of(
            #[trigger] t.jobs@[a],
        ) is Some implies cores_of(t.jobs@[a]) != cores_of(#[trigger] t.jobs@[b]) by {
        if a != idx {
            assert(s.jobs@[a] == t.jobs@[a]);
        }
        if b != idx {
            assert(s.jobs@[b] == t.jobs@[b]);
        }
        assert(cores_of(s.jobs@[idx]) == cores_of(t.jobs@[idx]));
        assert(cores_of(s.jobs@[a]) != cores_of(s.jobs@[b]));
    }
}

/// The settings and pools of `a` are those of `b`, and it has as many jobs.
pub open spec fn same_config(a: Scheduler, b: Scheduler) -> bool {
    &&& a.session == b.session
    &&& a.logs_dir == b.logs_dir
    &&& a.job_window_prefix == b.job_window_prefix
    &&& a.cpu_threads == b.cpu_threads
    &&& a.device_ids == b.device_ids
    &&& a.cpu_slots == b.cpu_slots
    &&& a.keep_job_tabs == b.keep_job_tabs
    &&& a.verbose == b.verbose
    &&& a.jobs@.len() == b.jobs@.len()
}

/// Two states of one job: the same id, command, window and files.
pub open spec fn same_identity(a: Job, b: Job) -> bool {
    &&& a.id == b.id
    &&& a.cmd == b.cmd
    &&& a.log_path == b.log_path
    &&& a.exit_path == b.exit_path
}

/// A Pending job whose window name the session already holds.
pub open spec fn blocked(windows: Seq<Seq<char>>, prefix: Seq<char>) -> spec_fn(Job) -> bool {
    |job: Job|
        job.status == JobStatus::Pending && windows.contains(job_window_text(prefix, job.id))
}

/// The first Pending job whose window name is already held, or `-1`.
pub open spec fn first_blocked(s: Scheduler, windows: Seq<Seq<char>>) -> int {
    first_match(s.jobs@, blocked(windows, s.job_window_prefix@))
}

pub open spec fn error_of<T>(r: Result<T, SchedulerError>) -> Option<(ErrorKind, Seq<char>)> {
    match r {
        Ok(_) => None,
        Err(e) => Some(err_view(e)),
    }
}

/// The positions of the free entries of an in-use table, in order.
pub open spec fn free_positions(v: Seq<bool>) -> Seq<int>
    decreases v.len(),
{
    if v.len() == 0 {
        Seq::<int>::empty()
    } else {
        let r = free_positions(v.drop_last());
        if is_free(v.last()) {
            r.push(v.len() - 1)
        } else {
            r
        }
    }
}

/// `w` is the table `v` with its first `c` free entries marked in use.
pub open spec fn marked_first(v: Seq<bool>, w: Seq<bool>, c: int) -> bool {
    &&& w.len() == v.len()
    &&& 0 <= c <= free_positions(v).len()
    &&& forall|k: int|
        0 <= k < v.len() ==> #[trigger] w[k] == (v[k] || exists|r: int|
            0 <= r < c && #[trigger] free_positions(v)[r] == k)
}

/// How many of the jobs before position `j` went from Pending (in `oj`) to
/// Scheduled (in `fj`).
pub open spec fn newly_scheduled_before(oj: Seq<Job>, fj: Seq<Job>, j: int) -> nat
    decreases j,
{
    if j <= 0 {
        0
    } else {
        newly_scheduled_before(oj, fj, j - 1) + if oj[j - 1].status == JobStatus::Pending && fj[j
            - 1].status == JobStatus::Scheduled {
            1nat
        } else {
            0nat
        }
    }
}

proof fn lemma_free_positions(v: Seq<bool>)
    ensures
        forall|r: int|
            0 <= r < free_positions(v).len() ==> 0 <= #[trigger] free_positions(v)[r] < v.len()
                && is_free(v[free_positions(v)[r]]),
        forall|a: int, b: int|
            0 <= a < b < free_positions(v).len() ==> #[trigger] free_positions(v)[a]
                < #[trigger] free_positions(v)[b],
        forall|k: int|
            0 <= k < v.len() && is_free(#[trigger] v[k]) ==> exists|r: int|
                0 <= r < free_positions(v).len() && free_positions(v)[r] == k,
    decreases v.len(),
{
    if v.len() > 0 {
        let rest = v.drop_last();
        let r = free_positions(rest);
        let fp = free_positions(v);
        lemma_free_positions(rest);
        assert forall|q: int| 0 <= q < fp.len() implies 0 <= #[trigger] fp[q] < v.len() && is_free(
            v[fp[q]],
        ) by {
            if q < r.len() {
                assert(fp[q] == r[q]);
                assert(rest[r[q]] == v[r[q]]);
            }
        }
        assert forall|a: int, b: int| 0 <= a < b < fp.len() implies #[trigger] fp[a] < #[trigger] fp[b] by {
            assert(fp[a] == r[a]);
            if b < r.len() {
                assert(fp[b] == r[b]);
            }
        }
        assert forall|k: int| 0 <= k < v.len() && is_free(#[trigger] v[k]) implies exists|q: int|
            0 <= q < fp.len() && fp[q] == k by {
            if k < rest.len() {
                assert(rest[k] == v[k]);
                let q = choose|q: int| 0 <= q < r.len() && r[q] == k;
                assert(fp[q] == r[q]);
            } else {
                assert(fp[fp.len() - 1] == k);
            }
        }
    }
}

/// Once the first `c` free entries are marked in use, the first free entry
/// is the `c`-th free one, if any is left.
proof fn lemma_first_free_after_marking(v: Seq<bool>, w: Seq<bool>, c: int)
    requires
        marked_first(v, w, c),
    ensures
        first_free(w) == if c < free_positions(v).len() {
            free_positions(v)[c]
        } else {
            -1
        },
{
    lemma_free_positions(v);
    let fp = free_positions(v);
    let target = if c < fp.len() {
        fp[c]
    } else {
        -1
    };
    assert forall|j: int| 0 <= j < w.len() && (target < 0 || j < target) implies !is_free(
        #[trigger] w[j],
    ) by {
        if is_free(v[j]) {
            let q = choose|q: int| 0 <= q < fp.len() && fp[q] == j;
            if q >= c {
                if q > c {
                    assert(fp[c] < fp[q]);
                }
            }
            assert(0 <= q < c && fp[q] == j);
        }
    }
    if target >= 0 {
        assert(is_free(v[fp[c]]));
        if exists|q: int| 0 <= q < c && #[trigger] fp[q] == fp[c] {
            let q = choose|q: int| 0 <= q < c && #[trigger] fp[q] == fp[c];
            assert(fp[q] < fp[c]);
        }
        assert(is_free(w[target]));
    }
    lemma_first_match_is(w, |b: bool| is_free(b), target);
}

/// Marking the next free entry extends the marking by one.
proof fn lemma_mark_next(v: Seq<bool>, w: Seq<bool>, c: int)
    requires
        marked_first(v, w, c),
        c < free_positions(v).len(),
    ensures
        marked_first(v, w.update(free_positions(v)[c], true), c + 1),
{
    lemma_free_positions(v);
    let fp = free_positions(v);
    let w2 = w.update(fp[c], true);
    assert forall|k: int| 0 <= k < v.len() implies #[trigger] w2[k] == (v[k] || exists|r: int|
        0 <= r < c + 1 && #[trigger] free_positions(v)[r] == k) by {
        if k == fp[c] {
            assert(0 <= c < c + 1 && fp[c] == k);
        } else {
            if exists|r: int| 0 <= r < c + 1 && #[trigger] fp[r] == k {
                let r = choose|r: int| 0 <= r < c + 1 && #[trigger] fp[r] == k;
                assert(r < c);
            }
        }
    }
}

/// The count of newly Scheduled jobs before `j` reads only the jobs before `j`.
proof fn lemma_newly_prefix(oj: Seq<Job>, a: Seq<Job>, b: Seq<Job>, j: int)
    requires
        0 <= j <= a.len(),
        j <= b.len(),
        forall|k: int| 0 <= k < j ==> a[k] == b[k],
    ensures
        newly_scheduled_before(oj, a, j) == newly_scheduled_before(oj, b, j),
    decreases j,
{
    if j > 0 {
        lemma_newly_prefix(oj, a, b, j - 1);
    }
}

/// Jobs left as they were add nothing to the count of newly Scheduled jobs.
proof fn lemma_newly_tail(oj: Seq<Job>, fj: Seq<Job>, i: int, m: int)
    requires
        0 <= i <= m <= oj.len(),
        m <= fj.len(),
        forall|k: int|
            i <= k < m ==> !(oj[k].status == JobStatus::Pending && (#[trigger] fj[k]).status
                == JobStatus::Scheduled),
    ensures
        newly_scheduled_before(oj, fj, m) == newly_scheduled_before(oj, fj, i),
    decreases m - i,
{
    if m > i {
        lemma_newly_tail(oj, fj, i, m - 1);
        assert(!(oj[m - 1].status == JobStatus::Pending && fj[m - 1].status == JobStatus::Scheduled));
    }
}

/// A job that a round Scheduled got the GPU and the core slot of the free
/// entries of the tables, in order: the `r`-th job Scheduled in the round
/// gets the `r`-th free GPU and the `r`-th free core slot.
pub open spec fn took_in_order(o: Scheduler, fj: Seq<Job>, j: int) -> bool {
    let r = newly_scheduled_before(o.jobs@, fj, j) as int;
    &&& (o.device_ids@.len() > 0 ==> r < free_positions(o.gpu_in_use@).len() && fj[j].gpu_id == Some(
        o.device_ids@[free_positions(o.gpu_in_use@)[r]],
    ))
    &&& (o.cpu_slots@.len() > 0 ==> r < free_positions(o.cpu_in_use@).len() && cores_of(fj[j]) == Some(
        slot_views(o.cpu_slots@)[free_positions(o.cpu_in_use@)[r]],
    ))
}

/// What a scheduling round does, from state `o` to state `f`, with the
/// session holding the windows `wv`. A Pending job whose window name is
/// taken stops the round with `err`, and it and the jobs after it are left as
/// they were. Before it, each Pending job is Scheduled or left as it was; no
/// other job changes. From a well-formed state the round keeps the invariant,
/// schedules in input order (no Pending job is passed over for a later
/// one), gives each job it schedules the next free GPU and core slot (see
/// `took_in_order`) and marks exactly those entries in use, and leaves a job
/// before the blocked one (every job, where none is blocked) Pending only
/// where no GPU or no core slot is free.
pub open spec fn schedule_outcome(
    o: Scheduler,
    f: Scheduler,
    wv: Seq<Seq<char>>,
    err: Option<(ErrorKind, Seq<char>)>,
) -> bool {
    let e = first_blocked(o, wv);
    let oj = o.jobs@;
    let fj = f.jobs@;
    &&& same_config(f, o)
    &&& (err is Some <==> e >= 0)
    &&& (err matches Some(x) ==> x == (
        ErrorKind::AlreadyExists,
        "job window already exists in session "@ + o.session@ + ": "@ + job_window_text(
            o.job_window_prefix@,
            oj[e].id,
        ),
    ))
    &&& forall|j: int|
        0 <= j < oj.len() ==> {
            &&& same_identity(#[trigger] fj[j], oj[j])
            &&& fj[j].window_name == oj[j].window_name
            &&& (oj[j].status != JobStatus::Pending ==> fj[j] == oj[j])
            &&& (e >= 0 && j >= e ==> fj[j] == oj[j])
            &&& (oj[j].status == JobStatus::Pending ==> fj[j].status == JobStatus::Pending
                || fj[j].status == JobStatus::Scheduled)
            &&& (fj[j].status == JobStatus::Pending ==> fj[j] == oj[j])
        }
    &&& advanced(oj, fj)
    &&& o.wf() ==> f.wf()
    &&& o.wf() ==> forall|a: int, b: int|
        0 <= a < b < oj.len() && oj[a].status == JobStatus::Pending && oj[b].status
            == JobStatus::Pending && (#[trigger] fj[b]).status == JobStatus::Scheduled ==> (
        #[trigger] fj[a]).status == JobStatus::Scheduled
    &&& o.wf() ==> forall|j: int|
        0 <= j < oj.len() && oj[j].status == JobStatus::Pending && (#[trigger] fj[j]).status
            == JobStatus::Scheduled ==> took_in_order(o, fj, j)
    &&& o.wf() && err is None ==> forall|j: int|
        0 <= j < fj.len() && (#[trigger] fj[j]).status == JobStatus::Pending ==> !can_acquire(f)
    &&& o.wf() ==> forall|j: int|
        0 <= j < oj.len() && (e < 0 || j < e) && oj[j].status == JobStatus::Pending && (
        #[trigger] fj[j]).status == JobStatus::Pending ==> !can_acquire(f)
    &&& o.wf() ==> {
        let c = newly_scheduled_before(oj, fj, oj.len() as int) as int;
        &&& (o.device_ids@.len() > 0 ==> marked_first(o.gpu_in_use@, f.gpu_in_use@, c))
        &&& (o.device_ids@.len() == 0 ==> f.gpu_in_use@ == o.gpu_in_use@)
        &&& (o.cpu_slots@.len() > 0 ==> marked_first(o.cpu_in_use@, f.cpu_in_use@, c))
        &&& (o.cpu_slots@.len() == 0 ==> f.cpu_in_use@ == o.cpu_in_use@)
    }
}

/// How many of the jobs before position `j` are Pending.
pub open spec fn pending_before(oj: Seq<Job>, j: int) -> nat
    decreases j,
{
    if j <= 0 {
        0
    } else {
        pending_before(oj, j - 1) + if oj[j - 1].status == JobStatus::Pending {
            1nat
        } else {
            0nat
        }
    }
}

/// How many Pending jobs a round can schedule: as many as there are, but no
/// more than the free GPUs (where the run has GPUs) and the free core slots
/// (where it has slots).
pub open spec fn round_limit(o: Scheduler) -> nat {
    let p = pending_before(o.jobs@, o.jobs@.len() as int);
    let g = if o.device_ids@.len() > 0 {
        free_positions(o.gpu_in_use@).len()
    } else {
        p
    };
    let c = if o.cpu_slots@.len() > 0 {
        free_positions(o.cpu_in_use@).len()
    } else {
        p
    };
    if p <= g && p <= c {
        p
    } else if g <= c {
        g
    } else {
        c
    }
}

proof fn lemma_newly_bounds(oj: Seq<Job>, fj: Seq<Job>, j: int, m: int)
    requires
        0 <= j <= m <= oj.len(),
        m <= fj.len(),
    ensures
        newly_scheduled_before(oj, fj, j) <= newly_scheduled_before(oj, fj, m),
        newly_scheduled_before(oj, fj, m) <= pending_before(oj, m),
    decreases m,
{
    if m > 0 {
        if j < m {
            lemma_newly_bounds(oj, fj, j, m - 1);
        } else {
            lemma_newly_bounds(oj, fj, m - 1, m - 1);
        }
    }
}

proof fn lemma_newly_all_pending(oj: Seq<Job>, fj: Seq<Job>, j: int)
    requires
        0 <= j <= oj.len(),
        j <= fj.len(),
        forall|k: int|
            0 <= k < j && oj[k].status == JobStatus::Pending ==> (#[trigger] fj[k]).status
                == JobStatus::Scheduled,
    ensures
        newly_scheduled_before(oj, fj, j) == pending_before(oj, j),
    decreases j,
{
    if j > 0 {
        lemma_newly_all_pending(oj, fj, j - 1);
        if oj[j - 1].status == JobStatus::Pending {
            assert(fj[j - 1].status == JobStatus::Scheduled);
        }
    }
}

/// A round that ends without error schedules exactly the first Pending jobs,
/// as many as `round_limit` allows, and leaves the other Pending jobs Pending:
/// a Pending job is Scheduled exactly when fewer Pending jobs than that limit
/// come before it. With neither GPUs nor core slots, every Pending job is
/// Scheduled.
pub proof fn lemma_round_schedules_first_pending(o: Scheduler, f: Scheduler, wv: Seq<Seq<char>>)
    requires
        o.wf(),
        schedule_outcome(o, f, wv, None),
    ensures
        newly_scheduled_before(o.jobs@, f.jobs@, o.jobs@.len() as int) == round_limit(o),
        forall|j: int|
            0 <= j < o.jobs@.len() && o.jobs@[j].status == JobStatus::Pending ==> ((
            #[trigger] f.jobs@[j]).status == JobStatus::Scheduled <==> pending_before(o.jobs@, j)
                < round_limit(o)) && (f.jobs@[j].status == JobStatus::Pending
                || f.jobs@[j].status == JobStatus::Scheduled),
        o.device_ids@.len() == 0 && o.cpu_slots@.len() == 0 ==> round_limit(o) == pending_before(
            o.jobs@,
            o.jobs@.len() as int,
        ),
{
    let oj = o.jobs@;
    let fj = f.jobs@;
    let n = oj.len() as int;
    let c = newly_scheduled_before(oj, fj, n);
    let p = pending_before(oj, n);
    let og = o.gpu_in_use@;
    let oc = o.cpu_in_use@;
    lemma_newly_bounds(oj, fj, n, n);
    lemma_free_positions(og);
    lemma_free_positions(oc);
    if o.device_ids@.len() > 0 {
        lemma_first_free_after_marking(og, f.gpu_in_use@, c as int);
    }
    if o.cpu_slots@.len() > 0 {
        lemma_first_free_after_marking(oc, f.cpu_in_use@, c as int);
    }
    if c < p {
        if forall|k: int|
            0 <= k < n && oj[k].status == JobStatus::Pending ==> (#[trigger] fj[k]).status
                == JobStatus::Scheduled {
            lemma_newly_all_pending(oj, fj, n);
        }
        let k = choose|k: int|
            0 <= k < n && oj[k].status == JobStatus::Pending && !((#[trigger] fj[k]).status
                == JobStatus::Scheduled);
        assert(fj[k].status == JobStatus::Pending);
        assert(!can_acquire(f));
    }
    assert(c == round_limit(o));
    assert forall|j: int|
        0 <= j < n && oj[j].status == JobStatus::Pending implies ((#[trigger] fj[j]).status
        == JobStatus::Scheduled <==> pending_before(oj, j) < round_limit(o)) && (fj[j].status
        == JobStatus::Pending || fj[j].status == JobStatus::Scheduled) by {
        if fj[j].status == JobStatus::Scheduled {
            assert forall|k: int|
                0 <= k < j && oj[k].status == JobStatus::Pending implies (#[trigger] fj[k]).status
                == JobStatus::Scheduled by {}
            lemma_newly_all_pending(oj, fj, j);
            lemma_newly_bounds(oj, fj, j + 1, n);
        } else {
            assert forall|k: int| j <= k < n implies !(oj[k].status == JobStatus::Pending && (
            #[trigger] fj[k]).status == JobStatus::Scheduled) by {
                if k > j && oj[k].status == JobStatus::Pending && fj[k].status == JobStatus::Scheduled {
                    assert(fj[j].status == JobStatus::Scheduled);
                }
            }
            lemma_newly_tail(oj, fj, j, n);
            lemma_newly_bounds(oj, fj, j, j);
        }
    }
}

impl Scheduler {
    /// Gives the Pending job `i` the first free GPU and core slot, as the run
    /// has them, and makes it Scheduled; leaves it Pending where either is
    /// missing.
    fn assign_job(&mut self, i: usize) -> (got: bool)
        requires
            i < old(self).jobs@.len(),
            old(self).jobs@[i as int].status == JobStatus::Pending,
        ensures
            same_config(*final(self), *old(self)),
            forall|j: int|
                0 <= j < old(self).jobs@.len() && j != i ==> final(self).jobs@[j] == old(self).jobs@[j],
            got ==> final(self).jobs@[i as int].status == JobStatus::Scheduled,
            got ==> same_identity(final(self).jobs@[i as int], old(self).jobs@[i as int]),
            got ==> final(self).jobs@[i as int].window_name == old(self).jobs@[i as int].window_name,
            !got ==> final(self).jobs@[i as int] == old(self).jobs@[i as int],
            old(self).wf() ==> final(self).wf(),
            old(self).wf() ==> (got <==> can_acquire(*old(self))),
            old(self).wf() && !got ==> !can_acquire(*final(self)),
            old(self).wf() && !got ==> final(self).gpu_in_use@ == old(self).gpu_in_use@
                && final(self).cpu_in_use@ == old(self).cpu_in_use@,
            old(self).wf() && got ==> if old(self).device_ids@.len() > 0 {
                let k = first_free(old(self).gpu_in_use@);
                &&& final(self).jobs@[i as int].gpu_id == Some(old(self).device_ids@[k])
                &&& final(self).gpu_in_use@ == old(self).gpu_in_use@.update(k, true)
            } else {
                final(self).gpu_in_use@ == old(self).gpu_in_use@
            },
            old(self).wf() && got ==> if old(self).cpu_slots@.len() > 0 {
                let k = first_free(old(self).cpu_in_use@);
                &&& cores_of(final(self).jobs@[i as int]) == Some(old(self).cpu_slots@[k]@)
                &&& final(self).cpu_in_use@ == old(self).cpu_in_use@.update(k, true)
            } else {
                final(self).cpu_in_use@ == old(self).cpu_in_use@
            },
    {
        let ghost s0 = *self;
        proof {
            lemma_first_match_bound(self.gpu_in_use@, |b: bool| is_free(b));
            lemma_first_match_bound(self.cpu_in_use@, |b: bool| is_free(b));
            if s0.wf() {
                reveal(Scheduler::wf);
            }
        }
        match self.acquire_resources() {
            Some((gpu_id, cpu_cores)) => {
                self.jobs[i].gpu_id = gpu_id;
                self.jobs[i].cpu_cores = cpu_cores;
                self.jobs[i].status = JobStatus::Scheduled;
                proof {
                    if s0.wf() {
                        lemma_assign_keeps_wf(
                            s0,
                            *self,
                            i as int,
                            first_free(s0.gpu_in_use@),
                            first_free(s0.cpu_in_use@),
                        );
                    }
                }
                true
            },
            None => {
                proof {
                    if s0.wf() {
                        assert(self.gpu_in_use@ == s0.gpu_in_use@);
                        assert(self.cpu_in_use@ == s0.cpu_in_use@);
                        assert(!can_acquire(*self));
                        lemma_same_tables_keep_wf(s0, *self);
                    }
                }
                false
            },
        }
    }

    /// Gives resources to the Pending jobs, in order: each Pending job whose
    /// window name is free gets the first free GPU and core slot and becomes
    /// Scheduled, as long as there are any; a Pending job whose window name
    /// the session already holds stops the round with an error.
    #[verifier::spinoff_prover]
    #[verifier::rlimit(30)]
    pub fn schedule_pending_jobs(&mut self, windows: &Vec<String>) -> (r: Result<(), SchedulerError>)
        ensures
            schedule_outcome(*old(self), *final(self), strings_view(windows@), error_of(r)),
    {
        let ghost o = old(self).jobs@;
        let ghost wv = strings_view(windows@);
        let ghost pred = blocked(wv, old(self).job_window_prefix@);
        let ghost og = old(self).gpu_in_use@;
        let ghost oc = old(self).cpu_in_use@;
        proof {
            if old(self).wf() {
                reveal(Scheduler::wf);
                lemma_free_positions(og);
                lemma_free_positions(oc);
            }
        }
        let n = self.jobs.len();
        let mut i: usize = 0;
        while i < n
            invariant
                i <= n == o.len(),
                o == old(self).jobs@,
                wv == strings_view(windows@),
                pred == blocked(wv, old(self).job_window_prefix@),
                same_config(*self, *old(self)),
                forall|j: int| i <= j < n ==> self.jobs@[j] == o[j],
                forall|j: int| 0 <= j < i ==> !pred(#[trigger] o[j]),
                forall|j: int|
                    0 <= j < i ==> {
                        &&& same_identity(#[trigger] self.jobs@[j], o[j])
                        &&& self.jobs@[j].window_name == o[j].window_name
                        &&& (o[j].status != JobStatus::Pending ==> self.jobs@[j] == o[j])
                        &&& (o[j].status == JobStatus::Pending ==> self.jobs@[j].status
                            == JobStatus::Pending || self.jobs@[j].status == JobStatus::Scheduled)
                        &&& (self.jobs@[j].status == JobStatus::Pending ==> self.jobs@[j] == o[j])
                    },
                old(self).wf() ==> self.wf(),
                old(self).wf() ==> forall|a: int, b: int|
                    0 <= a < b < i && o[a].status == JobStatus::Pending && o[b].status
                        == JobStatus::Pending && (#[trigger] self.jobs@[b]).status
                        == JobStatus::Scheduled ==> (#[trigger] self.jobs@[a]).status
                        == JobStatus::Scheduled,
                old(self).wf() ==> forall|j: int|
                    0 <= j < i && o[j].status == JobStatus::Pending && (
                    #[trigger] self.jobs@[j]).status == JobStatus::Pending ==> !can_acquire(*self),
                og == old(self).gpu_in_use@,
                oc == old(self).cpu_in_use@,
                old(self).wf() ==> if old(self).device_ids@.len() > 0 {
                    marked_first(og, self.gpu_in_use@, newly_scheduled_before(o, self.jobs@, i as int) as int)
                } else {
                    self.gpu_in_use@ == og
                },
                old(self).wf() ==> if old(self).cpu_slots@.len() > 0 {
                    marked_first(oc, self.cpu_in_use@, newly_scheduled_before(o, self.jobs@, i as int) as int)
                } else {
                    self.cpu_in_use@ == oc
                },
                old(self).wf() ==> forall|j: int|
                    0 <= j < i && o[j].status == JobStatus::Pending && (#[trigger] self.jobs@[j]).status
                        == JobStatus::Scheduled ==> took_in_order(*old(self), self.jobs@, j),
            decreases n - i,
        {
            if self.jobs[i].status != JobStatus::Pending {
                i = i + 1;
                continue;
            }
            let window_name = window_name_for_job(self.job_window_prefix.as_str(), self.jobs[i].id);
            match ensure_job_window_absent(windows, self.session.as_str(), window_name.as_str()) {
                Ok(()) => {},
                Err(err) => {
                    proof {
                        assert(pred(o[i as int]));
                        lemma_first_match_is(o, pred, i as int);
                        assert forall|k: int| i <= k < n implies !(o[k].status == JobStatus::Pending
                            && (#[trigger] self.jobs@[k]).status == JobStatus::Scheduled) by {
                            assert(self.jobs@[k] == o[k]);
                        }
                        lemma_newly_tail(o, self.jobs@, i as int, n as int);
                    }
                    return Err(err);
                },
            }
            assert(!pred(o[i as int]));
            let ghost prev = self.jobs@;
            let ghost pg = self.gpu_in_use@;
            let ghost pc = self.cpu_in_use@;
            let ghost c = newly_scheduled_before(o, prev, i as int) as int;
            proof {
                if old(self).wf() {
                    if self.device_ids@.len() > 0 {
                        lemma_first_free_after_marking(og, pg, c);
                    }
                    if self.cpu_slots@.len() > 0 {
                        lemma_first_free_after_marking(oc, pc, c);
                    }
                }
            }
            let got = self.assign_job(i);
            proof {
                if old(self).wf() {
                    lemma_newly_prefix(o, prev, self.jobs@, i as int);
                    if got {
                        if self.device_ids@.len() > 0 {
                            lemma_mark_next(og, pg, c);
                        }
                        if self.cpu_slots@.len() > 0 {
                            lemma_mark_next(oc, pc, c);
                        }
                    }
                    assert forall|j: int|
                        0 <= j < i + 1 && o[j].status == JobStatus::Pending && (
                        #[trigger] self.jobs@[j]).status == JobStatus::Scheduled implies took_in_order(
                        *old(self),
                        self.jobs@,
                        j,
                    ) by {
                        if j < i {
                            lemma_newly_prefix(o, prev, self.jobs@, j);
                            assert(prev[j] == self.jobs@[j]);
                        } else {
                            reveal(Scheduler::wf);
                            lemma_free_positions(og);
                            lemma_free_positions(oc);
                            assert(got);
                            assert(newly_scheduled_before(o, self.jobs@, i as int) == c);
                            if old(self).device_ids@.len() > 0 {
                                assert(first_free(pg) >= 0);
                                assert(c < free_positions(og).len());
                                assert(first_free(pg) == free_positions(og)[c]);
                            }
                            if old(self).cpu_slots@.len() > 0 {
                                assert(first_free(pc) >= 0);
                                assert(c < free_positions(oc).len());
                                assert(first_free(pc) == free_positions(oc)[c]);
                            }
                        }
                    }
                }
            }
            i = i + 1;
        }
        proof {
            lemma_first_match_is(o, pred, -1);
        }
        Ok(())
    }

    /// One round of decisions: gives resources to the Pending jobs (see
    /// `schedule_pending_jobs`), then gives the launches of the Scheduled jobs.
    pub fn tick(&mut self, windows: &Vec<String>) -> (r: Result<Vec<JobLaunch>, SchedulerError>)
        ensures
            match r {
                Err(e) => schedule_outcome(
                    *old(self),
                    *final(self),
                    strings_view(windows@),
                    Some(err_view(e)),
                ),
                Ok(launches) => {
                    &&& schedule_outcome(*old(self), *final(self), strings_view(windows@), None)
                    &&& launches@.map_values(|l: JobLaunch| launch_view(l)) == launch_plan(
                        *final(self),
                        final(self).jobs@.len() as int,
                    )
                    &&& forall|k: int|
                        0 <= k < launches@.len() ==> (#[trigger] launches@[k]).shell_command@
                            == tmux_shell_command_text(launches@[k].script@)
                            && launches@[k].keep_on_exit == final(self).keep_job_tabs
                },
            },
    {
        match self.schedule_pending_jobs(windows) {
            Err(e) => Err(e),
            Ok(()) => Ok(self.start_scheduled_jobs()),
        }
    }
}

/// The line that reports a finished job: `[FINISHED] WINDOW -> STATE` and,
/// where the job wrote one, ` (exit=CODE)`.
pub open spec fn finished_line(window: Seq<char>, status: JobStatus, code: Option<i32>) -> Seq<char> {
    "[FINISHED] "@ + window + " -> "@ + status_text(status) + exit_suffix_text(code)
}

/// The window a job runs in: the one it was started in, else its planned name.
pub open spec fn job_window(s: Scheduler, j: Job) -> Seq<char> {
    match j.window_name {
        Some(w) => w@,
        None => job_window_text(s.job_window_prefix@, j.id),
    }
}

/// The in-use table `t` with entry `k` freed, where `t` has it.
pub open spec fn released(t: Seq<bool>, k: int) -> Seq<bool> {
    if 0 <= k < t.len() {
        t.update(k, false)
    } else {
        t
    }
}

impl Scheduler {
    /// The planned window name of job `job_id`.
    pub fn job_window_name(&self, job_id: usize) -> (r: String)
        ensures
            r@ == job_window_text(self.job_window_prefix@, job_id),
    {
        window_name_for_job(self.job_window_prefix.as_str(), job_id)
    }

    /// Ends job `idx` by the exit file it left (`None` where there is none):
    /// its state follows from the exit code, and its GPU and core slot go back
    /// to the pools. A file that holds no exit code is an error and changes
    /// nothing. Gives the line that reports the job where the scheduler is verbose.
    pub fn finish_running_job(&mut self, idx: usize, exit_content: Option<String>) -> (r: Result<
        Option<String>,
        SchedulerError,
    >)
        requires
            idx < old(self).jobs@.len(),
        ensures
            same_config(*final(self), *old(self)),
            ({
                let o = old(self).jobs@[idx as int];
                let f = final(self).jobs@[idx as int];
                match exit_file_code(opt_string_view(exit_content)) {
                    None => {
                        &&& r matches Err(e) && err_view(e) == (
                            ErrorKind::InvalidData,
                            "invalid exit code in "@ + o.exit_path@,
                        )
                        &&& *final(self) == *old(self)
                    },
                    Some(code) => {
                        &&& f.status == exit_status(code)
                        &&& f.gpu_id is None
                        &&& f.cpu_cores is None
                        &&& same_identity(f, o)
                        &&& f.window_name == o.window_name
                        &&& forall|j: int|
                            0 <= j < old(self).jobs@.len() && j != idx ==> final(self).jobs@[j]
                                == old(self).jobs@[j]
                        &&& final(self).gpu_in_use@ == match o.gpu_id {
                            Some(g) => released(
                                old(self).gpu_in_use@,
                                position_of(old(self).device_ids@, g),
                            ),
                            None => old(self).gpu_in_use@,
                        }
                        &&& final(self).cpu_in_use@ == match cores_of(o) {
                            Some(c) => released(
                                old(self).cpu_in_use@,
                                slot_position(slot_views(old(self).cpu_slots@), c),
                            ),
                            None => old(self).cpu_in_use@,
                        }
                        &&& r matches Ok(line)
                        &&& (old(self).verbose ==> (line matches Some(l) && l@ == finished_line(
                            job_window(*old(self), o),
                            f.status,
                            code,
                        )))
                        &&& (!old(self).verbose ==> line is None)
                    },
                }
            }),
            old(self).wf() ==> final(self).wf(),
    {
        let ghost s0 = *self;
        let code = match parse_exit_code(exit_content, self.jobs[idx].exit_path.as_str()) {
            Ok(c) => c,
            Err(e) => {
                return Err(e);
            },
        };
        let status = map_exit_code(code);
        self.jobs[idx].status = status;
        let window_name = match &self.jobs[idx].window_name {
            Some(w) => w.clone(),
            None => self.job_window_name(self.jobs[idx].id),
        };
        let gpu = self.jobs[idx].gpu_id;
        self.jobs[idx].gpu_id = None;
        let cores = match &self.jobs[idx].cpu_cores {
            Some(c) => Some(copy_usizes(c)),
            None => None,
        };
        self.jobs[idx].cpu_cores = None;
        let ghost s1 = *self;
        if let Some(g) = gpu {
            self.release_gpu(g);
        }
        if let Some(c) = cores {
            self.release_cpu(&c);
        }
        proof {
            if s0.wf() {
                reveal(Scheduler::wf);
                assert(job_ok(s0.jobs@[idx as int], s0.device_ids@, slot_views(s0.cpu_slots@)));
                if let Some(g) = gpu {
                    lemma_first_match_bound(s0.device_ids@, |x: usize| x == g);
                    let k0 = choose|k: int| 0 <= k < s0.device_ids@.len() && s0.device_ids@[k] == g;
                    assert(!(|x: usize| x == g)(s0.device_ids@[k0]) ==> false);
                }
                lemma_finish_keeps_wf(s0, *self, idx as int);
            }
        }
        if self.verbose {
            let mut line = String::from_str("[FINISHED] ");
            line.append(window_name.as_str());
            line.append(" -> ");
            line.append(format_job_status(&status));
            let suffix = format_exit_code_suffix(code);
            line.append(suffix.as_str());
            Ok(Some(line))
        } else {
            Ok(None)
        }
    }
}

/// The content of the exit file of job `id`, among the files read (the first
/// entry for that id), or `None`.
pub open spec fn exit_file_for(files: Seq<(usize, Seq<char>)>, id: usize) -> Option<Seq<char>> {
    let k = first_match(files, |p: (usize, Seq<char>)| p.0 == id);
    if k < 0 {
        None
    } else {
        Some(files[k].1)
    }
}

pub open spec fn files_view(files: Seq<(usize, String)>) -> Seq<(usize, Seq<char>)> {
    files.map_values(|p: (usize, String)| (p.0, p.1@))
}

/// A Running job has ended when its window is gone or its pane is dead.
pub open spec fn job_ended(j: Job, windows: Seq<Seq<char>>, dead: Seq<Seq<char>>) -> bool {
    j.status == JobStatus::Running && match j.window_name {
        Some(w) => !windows.contains(w@) || dead.contains(w@),
        None => false,
    }
}

/// An ended job whose exit file holds no exit code.
pub open spec fn unreadable_end(
    windows: Seq<Seq<char>>,
    dead: Seq<Seq<char>>,
    files: Seq<(usize, Seq<char>)>,
) -> spec_fn(Job) -> bool {
    |j: Job|
        job_ended(j, windows, dead) && exit_file_code(exit_file_for(files, j.id)) is None
}

/// The exit code of an ended job with a readable exit file.
pub open spec fn end_code(j: Job, files: Seq<(usize, Seq<char>)>) -> Option<i32> {
    exit_file_code(exit_file_for(files, j.id))->Some_0
}

/// The report lines of the ended jobs among `jobs`, in order.
pub open spec fn ended_lines(
    jobs: Seq<Job>,
    windows: Seq<Seq<char>>,
    dead: Seq<Seq<char>>,
    files: Seq<(usize, Seq<char>)>,
) -> Seq<Seq<char>>
    decreases jobs.len(),
{
    if jobs.len() == 0 {
        Seq::<Seq<char>>::empty()
    } else {
        let r = ended_lines(jobs.drop_last(), windows, dead, files);
        let j = jobs.last();
        if job_ended(j, windows, dead) {
            let code = end_code(j, files);
            r.push(finished_line(j.window_name->Some_0@, exit_status(code), code))
        } else {
            r
        }
    }
}

/// The content of job `id`'s exit file among `files`, where there is one.
#[verifier::spinoff_prover]
fn find_exit_file(files: &Vec<(usize, String)>, id: usize) -> (r: Option<String>)
    ensures
        opt_string_view(r) == exit_file_for(files_view(files@), id),
{
    let ghost fv = files_view(files@);
    let ghost p = |q: (usize, Seq<char>)| q.0 == id;
    let n = files.len();
    let mut i: usize = 0;
    while i < n
        invariant
            i <= n == files@.len() == fv.len(),
            fv == files_view(files@),
            p == (|q: (usize, Seq<char>)| q.0 == id),
            forall|j: int| 0 <= j < i ==> !p(#[trigger] fv[j]),
        decreases n - i,
    {
        if files[i].0 == id {
            proof {
                lemma_first_match_is(fv, p, i as int);
            }
            return Some(files[i].1.clone());
        }
        i = i + 1;
    }
    proof {
        lemma_first_match_is(fv, p, -1);
    }
    None
}

/// Job `j` holds the GPU at entry `k` of the pool `devices`.
pub open spec fn holds_gpu_entry(j: Job, devices: Seq<usize>, k: int) -> bool {
    j.gpu_id matches Some(g) && position_of(devices, g) == k
}

/// Job `j` holds the core slot at entry `k` of the pool `slots`.
pub open spec fn holds_slot_entry(j: Job, slots: Seq<Seq<usize>>, k: int) -> bool {
    cores_of(j) matches Some(c) && slot_position(slots, c) == k
}

/// `f` is the in-use table `t` once the jobs of `oj` before `upto` that have
/// ended gave back the entries they hold (by `holds`).
pub open spec fn freed_by_round(
    t: Seq<bool>,
    f: Seq<bool>,
    oj: Seq<Job>,
    upto: int,
    wv: Seq<Seq<char>>,
    dv: Seq<Seq<char>>,
    holds: spec_fn(Job, int) -> bool,
) -> bool {
    &&& f.len() == t.len()
    &&& forall|k: int|
        0 <= k < t.len() ==> #[trigger] f[k] == (t[k] && !exists|j: int|
            0 <= j < upto && job_ended(#[trigger] oj[j], wv, dv) && holds(oj[j], k))
}

proof fn lemma_freed_step(
    t: Seq<bool>,
    a: Seq<bool>,
    b: Seq<bool>,
    oj: Seq<Job>,
    i: int,
    wv: Seq<Seq<char>>,
    dv: Seq<Seq<char>>,
    holds: spec_fn(Job, int) -> bool,
)
    requires
        0 <= i < oj.len(),
        freed_by_round(t, a, oj, i, wv, dv, holds),
        b.len() == a.len(),
        forall|k: int|
            0 <= k < a.len() ==> #[trigger] b[k] == (a[k] && !(job_ended(oj[i], wv, dv) && holds(
                oj[i],
                k,
            ))),
    ensures
        freed_by_round(t, b, oj, i + 1, wv, dv, holds),
{
    assert forall|k: int| 0 <= k < t.len() implies #[trigger] b[k] == (t[k] && !exists|j: int|
        0 <= j < i + 1 && job_ended(#[trigger] oj[j], wv, dv) && holds(oj[j], k)) by {
        assert(a[k] == (t[k] && !exists|j: int|
            0 <= j < i && job_ended(#[trigger] oj[j], wv, dv) && holds(oj[j], k)));
        if exists|j: int| 0 <= j < i + 1 && job_ended(#[trigger] oj[j], wv, dv) && holds(oj[j], k) {
            let j = choose|j: int| 0 <= j < i + 1 && job_ended(#[trigger] oj[j], wv, dv) && holds(oj[j], k);
            if j < i {
                assert(0 <= j < i && job_ended(oj[j], wv, dv) && holds(oj[j], k));
            }
        }
        if job_ended(oj[i], wv, dv) && holds(oj[i], k) {
            assert(0 <= i < i + 1 && job_ended(oj[i], wv, dv) && holds(oj[i], k));
        }
    }
}

/// Job `o` after a round that ends it where it has ended.
pub open spec fn round_result(
    o: Job,
    f: Job,
    wv: Seq<Seq<char>>,
    dv: Seq<Seq<char>>,
    fv: Seq<(usize, Seq<char>)>,
) -> bool {
    if job_ended(o, wv, dv) {
        &&& f.status == exit_status(end_code(o, fv))
        &&& f.gpu_id is None
        &&& f.cpu_cores is None
        &&& same_identity(f, o)
        &&& f.window_name == o.window_name
    } else {
        f == o
    }
}

impl Scheduler {
    /// Ends job `i` if it is Running and has ended.
    fn finish_if_ended(
        &mut self,
        i: usize,
        windows: &Vec<String>,
        dead_windows: &Vec<String>,
        exit_files: &Vec<(usize, String)>,
    ) -> (r: Result<Option<String>, SchedulerError>)
        requires
            i < old(self).jobs@.len(),
            old(self).jobs@[i as int].status == JobStatus::Running ==> old(self).jobs@[i as int].window_name is Some,
        ensures
            same_config(*final(self), *old(self)),
            forall|j: int|
                0 <= j < old(self).jobs@.len() && j != i ==> final(self).jobs@[j] == old(self).jobs@[j],
            ({
                let wv = strings_view(windows@);
                let dv = strings_view(dead_windows@);
                let fv = files_view(exit_files@);
                let o = old(self).jobs@[i as int];
                &&& (r is Err <==> unreadable_end(wv, dv, fv)(o))
                &&& (r matches Err(e) ==> err_view(e) == (
                    ErrorKind::InvalidData,
                    "invalid exit code in "@ + o.exit_path@,
                ) && *final(self) == *old(self))
                &&& (r is Ok ==> round_result(o, final(self).jobs@[i as int], wv, dv, fv))
                &&& final(self).gpu_in_use@ == if r is Ok && job_ended(o, wv, dv) {
                    match o.gpu_id {
                        Some(g) => released(
                            old(self).gpu_in_use@,
                            position_of(old(self).device_ids@, g),
                        ),
                        None => old(self).gpu_in_use@,
                    }
                } else {
                    old(self).gpu_in_use@
                }
                &&& final(self).cpu_in_use@ == if r is Ok && job_ended(o, wv, dv) {
                    match cores_of(o) {
                        Some(c) => released(
                            old(self).cpu_in_use@,
                            slot_position(slot_views(old(self).cpu_slots@), c),
                        ),
                        None => old(self).cpu_in_use@,
                    }
                } else {
                    old(self).cpu_in_use@
                }
                &&& advanced(old(self).jobs@, final(self).jobs@)
                &&& (r matches Ok(line) ==> if old(self).verbose && job_ended(o, wv, dv) {
                    line matches Some(l) && l@ == finished_line(
                        o.window_name->Some_0@,
                        exit_status(end_code(o, fv)),
                        end_code(o, fv),
                    )
                } else {
                    line is None
                })
            }),
            old(self).wf() ==> final(self).wf(),
    {
        if self.jobs[i].status != JobStatus::Running {
            return Ok(None);
        }
        let window_name = match &self.jobs[i].window_name {
            Some(w) => w.clone(),
            None => {
                return Ok(None);
            },
        };
        let window_missing = !crate::namespace::has_window(windows, window_name.as_str());
        let pane_dead = if window_missing {
            false
        } else {
            crate::namespace::has_window(dead_windows, window_name.as_str())
        };
        if window_missing || pane_dead {
            let content = find_exit_file(exit_files, self.jobs[i].id);
            let r = self.finish_running_job(i, content);
            proof {
                assert forall|j: int| 0 <= j < old(self).jobs@.len() implies stage(
                    (#[trigger] self.jobs@[j]).status,
                ) >= stage(old(self).jobs@[j].status) by {
                    if j != i {
                        assert(self.jobs@[j] == old(self).jobs@[j]);
                    }
                }
            }
            r
        } else {
            Ok(None)
        }
    }

    /// Ends, in order, the Running jobs whose window is gone (not among
    /// `windows`) or whose pane is dead (among `dead_windows`), each by its
    /// exit file in `exit_files` (by job id; none where the file is missing).
    /// An exit file without an exit code stops the round with an error. Gives
    /// the report lines of the ended jobs where the scheduler is verbose.
    #[verifier::spinoff_prover]
    pub fn finalize_running_jobs(
        &mut self,
        windows: &Vec<String>,
        dead_windows: &Vec<String>,
        exit_files: &Vec<(usize, String)>,
    ) -> (r: Result<Vec<String>, SchedulerError>)
        requires
            forall|j: int|
                0 <= j < old(self).jobs@.len() && (#[trigger] old(self).jobs@[j]).status
                    == JobStatus::Running ==> old(self).jobs@[j].window_name is Some,
        ensures
            same_config(*final(self), *old(self)),
            ({
                let wv = strings_view(windows@);
                let dv = strings_view(dead_windows@);
                let fv = files_view(exit_files@);
                let o = old(self).jobs@;
                let f = final(self).jobs@;
                let stop = first_match(o, unreadable_end(wv, dv, fv));
                &&& (r is Err <==> stop >= 0)
                &&& (r matches Err(e) ==> err_view(e) == (
                    ErrorKind::InvalidData,
                    "invalid exit code in "@ + o[stop].exit_path@,
                ))
                &&& forall|j: int|
                    0 <= j < o.len() ==> {
                        &&& (stop >= 0 && j >= stop ==> #[trigger] f[j] == o[j])
                        &&& (stop < 0 || j < stop ==> round_result(o[j], f[j], wv, dv, fv))
                    }
                &&& (r matches Ok(lines) ==> strings_view(lines@) == if old(self).verbose {
                    ended_lines(o, wv, dv, fv)
                } else {
                    Seq::<Seq<char>>::empty()
                })
                &&& freed_by_round(
                    old(self).gpu_in_use@,
                    final(self).gpu_in_use@,
                    o,
                    if stop >= 0 {
                        stop
                    } else {
                        o.len() as int
                    },
                    wv,
                    dv,
                    |j: Job, k: int| holds_gpu_entry(j, old(self).device_ids@, k),
                )
                &&& freed_by_round(
                    old(self).cpu_in_use@,
                    final(self).cpu_in_use@,
                    o,
                    if stop >= 0 {
                        stop
                    } else {
                        o.len() as int
                    },
                    wv,
                    dv,
                    |j: Job, k: int| holds_slot_entry(j, slot_views(old(self).cpu_slots@), k),
                )
            }),
            advanced(old(self).jobs@, final(self).jobs@),
            old(self).wf() ==> final(self).wf(),
    {
        let ghost wv = strings_view(windows@);
        let ghost dv = strings_view(dead_windows@);
        let ghost fv = files_view(exit_files@);
        let ghost o = old(self).jobs@;
        let ghost pred = unreadable_end(wv, dv, fv);
        let ghost gh = |j: Job, k: int| holds_gpu_entry(j, old(self).device_ids@, k);
        let ghost ch = |j: Job, k: int| holds_slot_entry(j, slot_views(old(self).cpu_slots@), k);
        let mut lines: Vec<String> = Vec::new();
        let n = self.jobs.len();
        let mut i: usize = 0;
        while i < n
            invariant
                i <= n == o.len(),
                o == old(self).jobs@,
                wv == strings_view(windows@),
                dv == strings_view(dead_windows@),
                fv == files_view(exit_files@),
                pred == unreadable_end(wv, dv, fv),
                same_config(*self, *old(self)),
                forall|j: int|
                    0 <= j < o.len() && (#[trigger] o[j]).status == JobStatus::Running
                        ==> o[j].window_name is Some,
                forall|j: int| i <= j < n ==> self.jobs@[j] == o[j],
                forall|j: int| 0 <= j < i ==> !pred(#[trigger] o[j]),
                forall|j: int| 0 <= j < i ==> round_result(o[j], #[trigger] self.jobs@[j], wv, dv, fv),
                advanced(o, self.jobs@),
                strings_view(lines@) == if old(self).verbose {
                    ended_lines(o.take(i as int), wv, dv, fv)
                } else {
                    Seq::<Seq<char>>::empty()
                },
                old(self).wf() ==> self.wf(),
                gh == (|j: Job, k: int| holds_gpu_entry(j, old(self).device_ids@, k)),
                ch == (|j: Job, k: int| holds_slot_entry(j, slot_views(old(self).cpu_slots@), k)),
                freed_by_round(old(self).gpu_in_use@, self.gpu_in_use@, o, i as int, wv, dv, gh),
                freed_by_round(old(self).cpu_in_use@, self.cpu_in_use@, o, i as int, wv, dv, ch),
            decreases n - i,
        {
            proof {
                assert(o.take(i + 1).drop_last() =~= o.take(i as int));
                assert(o.take(i + 1).last() == o[i as int]);
                assert(self.jobs@[i as int] == o[i as int]);
            }
            let ghost prev = self.jobs@;
            let ghost pg = self.gpu_in_use@;
            let ghost pc = self.cpu_in_use@;
            let res = self.finish_if_ended(i, windows, dead_windows, exit_files);
            proof {
                lemma_advanced_trans(o, prev, self.jobs@);
                if res is Ok {
                    let oi = o[i as int];
                    assert forall|k: int| 0 <= k < pg.len() implies #[trigger] self.gpu_in_use@[k] == (
                    pg[k] && !(job_ended(oi, wv, dv) && gh(oi, k))) by {
                        if job_ended(oi, wv, dv) {
                            if let Some(g) = oi.gpu_id {
                                assert(gh(oi, k) == (position_of(old(self).device_ids@, g) == k));
                            }
                        }
                    }
                    assert forall|k: int| 0 <= k < pc.len() implies #[trigger] self.cpu_in_use@[k] == (
                    pc[k] && !(job_ended(oi, wv, dv) && ch(oi, k))) by {
                        if job_ended(oi, wv, dv) {
                            if let Some(c) = cores_of(oi) {
                                assert(ch(oi, k) == (slot_position(slot_views(old(self).cpu_slots@), c) == k));
                            }
                        }
                    }
                    lemma_freed_step(old(self).gpu_in_use@, pg, self.gpu_in_use@, o, i as int, wv, dv, gh);
                    lemma_freed_step(old(self).cpu_in_use@, pc, self.cpu_in_use@, o, i as int, wv, dv, ch);
                }
            }
            match res {
                Ok(line) => {
                    if let Some(l) = line {
                        let ghost before = lines@;
                        lines.push(l);
                        assert(strings_view(lines@) =~= strings_view(before).push(l@));
                    }
                },
                Err(e) => {
                    proof {
                        lemma_first_match_is(o, pred, i as int);
                    }
                    return Err(e);
                },
            }
            i = i + 1;
        }
        proof {
            lemma_first_match_is(o, pred, -1);
            assert(o.take(n as int) =~= o);
        }
        Ok(lines)
    }
}

/// What starting a Scheduled job takes: its position, its window, its
/// script, the command that runs the script, and whether its window stays
/// open once the job has finished.
#[derive(Debug)]
pub struct JobLaunch {
    pub job_index: usize,
    pub window_name: String,
    pub script: String,
    pub shell_command: String,
    pub keep_on_exit: bool,
}

/// The thread limit of a job: the one of the run, else the size of its slot.
pub open spec fn job_threads(s: Scheduler, j: Job) -> Option<usize> {
    if s.cpu_threads is Some {
        s.cpu_threads
    } else {
        match j.cpu_cores {
            Some(c) => Some(c@.len() as usize),
            None => None,
        }
    }
}

/// The window and the script of a Scheduled job.
pub open spec fn launch_of(s: Scheduler, j: Job) -> (Seq<char>, Seq<char>) {
    (
        job_window_text(s.job_window_prefix@, j.id),
        script_text(
            j.id,
            j.cmd@,
            j.log_path@,
            j.exit_path@,
            j.gpu_id,
            cores_of(j),
            job_threads(s, j),
        ),
    )
}

/// The launches of the Scheduled jobs among the first `n`, in order.
pub open spec fn launch_plan(s: Scheduler, n: int) -> Seq<(int, Seq<char>, Seq<char>)>
    decreases n,
{
    if n <= 0 {
        Seq::empty()
    } else {
        let r = launch_plan(s, n - 1);
        let j = s.jobs@[n - 1];
        if j.status == JobStatus::Scheduled {
            r.push((n - 1, launch_of(s, j).0, launch_of(s, j).1))
        } else {
            r
        }
    }
}

/// The thread limit written into a launched job's script is the run's
/// `--cpu-threads` whenever it is set, whatever core slot the job holds; only
/// without it is the limit the size of the job's core slot, and with neither
/// there is no limit. Each launch is that of a Scheduled job, in its window.
pub proof fn lemma_launch_thread_limit(s: Scheduler, n: int)
    requires
        0 <= n <= s.jobs@.len(),
    ensures
        forall|k: int|
            0 <= k < launch_plan(s, n).len() ==> {
                let (idx, w, sc) = #[trigger] launch_plan(s, n)[k];
                let j = s.jobs@[idx];
                &&& 0 <= idx < n
                &&& j.status == JobStatus::Scheduled
                &&& w == job_window_text(s.job_window_prefix@, j.id)
                &&& sc == script_text(
                    j.id,
                    j.cmd@,
                    j.log_path@,
                    j.exit_path@,
                    j.gpu_id,
                    cores_of(j),
                    if s.cpu_threads is Some {
                        s.cpu_threads
                    } else if j.cpu_cores is Some {
                        Some(j.cpu_cores->Some_0@.len() as usize)
                    } else {
                        None
                    },
                )
            },
        s.cpu_threads is Some ==> forall|j: Job|
            #[trigger] launch_of(s, j).1 == script_text(
                j.id,
                j.cmd@,
                j.log_path@,
                j.exit_path@,
                j.gpu_id,
                cores_of(j),
                s.cpu_threads,
            ),
    decreases n,
{
    if n > 0 {
        lemma_launch_thread_limit(s, n - 1);
        let r = launch_plan(s, n - 1);
        let p = launch_plan(s, n);
        assert forall|k: int| 0 <= k < p.len() implies {
            let (idx, w, sc) = #[trigger] p[k];
            let j = s.jobs@[idx];
            &&& 0 <= idx < n
            &&& j.status == JobStatus::Scheduled
            &&& w == job_window_text(s.job_window_prefix@, j.id)
            &&& sc == script_text(
                j.id,
                j.cmd@,
                j.log_path@,
                j.exit_path@,
                j.gpu_id,
                cores_of(j),
                if s.cpu_threads is Some {
                    s.cpu_threads
                } else if j.cpu_cores is Some {
                    Some(j.cpu_cores->Some_0@.len() as usize)
                } else {
                    None
                },
            )
        } by {
            if k < r.len() {
                assert(p[k] == r[k]);
            }
        }
    }
}

pub open spec fn launch_view(l: JobLaunch) -> (int, Seq<char>, Seq<char>) {
    (l.job_index as int, l.window_name@, l.script@)
}

/// Every job moved forward, if at all, and the finished ones stayed as they were.
pub open spec fn advanced(o: Seq<Job>, f: Seq<Job>) -> bool {
    &&& o.len() == f.len()
    &&& forall|j: int| 0 <= j < o.len() ==> stage((#[trigger] f[j]).status) >= stage(o[j].status)
    &&& forall|j: int| 0 <= j < o.len() && finished(o[j].status) ==> #[trigger] f[j] == o[j]
}

proof fn lemma_advanced_trans(a: Seq<Job>, b: Seq<Job>, c: Seq<Job>)
    requires
        advanced(a, b),
        advanced(b, c),
    ensures
        advanced(a, c),
{
    assert forall|j: int| 0 <= j < a.len() implies stage((#[trigger] c[j]).status) >= stage(
        a[j].status,
    ) by {
        assert(stage(c[j].status) >= stage(b[j].status));
        assert(stage(b[j].status) >= stage(a[j].status));
    }
    assert forall|j: int| 0 <= j < a.len() && finished(a[j].status) implies #[trigger] c[j] == a[j] by {
        assert(b[j] == a[j]);
        assert(c[j] == b[j]);
    }
}

/// The ids of the jobs in state `target`, in order.
pub open spec fn ids_with_status(jobs: Seq<Job>, target: JobStatus) -> Seq<usize>
    decreases jobs.len(),
{
    if jobs.len() == 0 {
        Seq::empty()
    } else {
        let r = ids_with_status(jobs.drop_last(), target);
        if jobs.last().status == target {
            r.push(jobs.last().id)
        } else {
            r
        }
    }
}

/// The ids of the jobs in state `target`, in order.
pub fn collect_job_ids(jobs: &Vec<Job>, target: JobStatus) -> (r: Vec<usize>)
    ensures
        r@ == ids_with_status(jobs@, target),
{
    let mut out: Vec<usize> = Vec::new();
    let n = jobs.len();
    let mut i: usize = 0;
    while i < n
        invariant
            i <= n == jobs@.len(),
            out@ == ids_with_status(jobs@.take(i as int), target),
        decreases n - i,
    {
        proof {
            assert(jobs@.take(i + 1).drop_last() =~= jobs@.take(i as int));
            assert(jobs@.take(i + 1).last() == jobs@[i as int]);
        }
        if jobs[i].status == target {
            out.push(jobs[i].id);
        }
        i = i + 1;
    }
    assert(jobs@.take(n as int) =~= jobs@);
    out
}

/// Once every job has finished, the summary's counts add up: each job is
/// counted exactly once, as Done, Failed or Cancelled.
pub proof fn lemma_summary_counts_add_up(jobs: Seq<Job>)
    requires
        forall|j: int| 0 <= j < jobs.len() ==> finished(#[trigger] jobs[j].status),
    ensures
        ids_with_status(jobs, JobStatus::Done).len() + ids_with_status(jobs, JobStatus::Failed).len()
            + ids_with_status(jobs, JobStatus::Cancelled).len() == jobs.len(),
    decreases jobs.len(),
{
    if jobs.len() > 0 {
        let rest = jobs.drop_last();
        assert forall|j: int| 0 <= j < rest.len() implies finished(#[trigger] rest[j].status) by {
            assert(rest[j] == jobs[j]);
        }
        assert(finished(jobs[jobs.len() - 1].status));
        lemma_summary_counts_add_up(rest);
    }
}

/// The lines of the final summary: the session, the GPUs, the core slots,
/// the logs directory, the number of jobs and of Done, Failed and Cancelled
/// jobs, and the ids of the Failed and of the Cancelled jobs, if any.
pub open spec fn summary_lines(s: Scheduler) -> Seq<Seq<char>> {
    let jobs = s.jobs@;
    let done = ids_with_status(jobs, JobStatus::Done);
    let failed = ids_with_status(jobs, JobStatus::Failed);
    let cancelled = ids_with_status(jobs, JobStatus::Cancelled);
    let base = seq![
        "===== Scheduler Summary ====="@,
        "Session: "@ + s.session@,
        "CUDA devices: "@ + cuda_devices_text(s.device_ids@),
        "CPU slots: "@ + cpu_slots_text(slot_views(s.cpu_slots@)),
        "Logs dir: "@ + s.logs_dir@,
        "Total jobs: "@ + dec(jobs.len()),
        "Done: "@ + dec(done.len()),
        "Failed: "@ + dec(failed.len()),
        "Cancelled: "@ + dec(cancelled.len()),
    ];
    let with_failed = if failed.len() > 0 {
        base.push("Failed job IDs: "@ + ids_text(failed))
    } else {
        base
    };
    if cancelled.len() > 0 {
        with_failed.push("Cancelled job IDs: "@ + ids_text(cancelled))
    } else {
        with_failed
    }
}

fn labeled(label: &str, value: &String) -> (r: String)
    ensures
        r@ == label@ + value@,
{
    let mut r = String::from_str(label);
    r.append(value.as_str());
    r
}

fn labeled_count(label: &str, n: usize) -> (r: String)
    ensures
        r@ == label@ + dec(n as nat),
{
    let mut r = String::from_str(label);
    push_usize(&mut r, n);
    r
}

impl Scheduler {
    /// The launches of the Scheduled jobs, in order.
    pub fn start_scheduled_jobs(&self) -> (r: Vec<JobLaunch>)
        ensures
            r@.map_values(|l: JobLaunch| launch_view(l)) == launch_plan(*self, self.jobs@.len() as int),
            forall|k: int|
                0 <= k < r@.len() ==> (#[trigger] r@[k]).shell_command@ == tmux_shell_command_text(
                    r@[k].script@,
                ) && r@[k].keep_on_exit == self.keep_job_tabs,
    {
        let mut out: Vec<JobLaunch> = Vec::new();
        let n = self.jobs.len();
        let mut i: usize = 0;
        while i < n
            invariant
                i <= n == self.jobs@.len(),
                out@.map_values(|l: JobLaunch| launch_view(l)) == launch_plan(*self, i as int),
                forall|k: int|
                    0 <= k < out@.len() ==> (#[trigger] out@[k]).shell_command@
                        == tmux_shell_command_text(out@[k].script@) && out@[k].keep_on_exit
                        == self.keep_job_tabs,
            decreases n - i,
        {
            let job = &self.jobs[i];
            if job.status == JobStatus::Scheduled {
                let window_name = window_name_for_job(self.job_window_prefix.as_str(), job.id);
                let slot_len = match &job.cpu_cores {
                    Some(c) => Some(c.len()),
                    None => None,
                };
                let threads = effective_cpu_threads(self.cpu_threads, slot_len);
                let script = build_script(job, job.gpu_id, job.cpu_cores.as_ref(), threads);
                let shell_command = build_tmux_shell_command(script.as_str());
                let launch = JobLaunch {
                    job_index: i,
                    window_name,
                    script,
                    shell_command,
                    keep_on_exit: self.keep_job_tabs,
                };
                let ghost before = out@;
                out.push(launch);
                proof {
                    assert(out@.map_values(|l: JobLaunch| launch_view(l)) =~= before.map_values(
                        |l: JobLaunch| launch_view(l),
                    ).push(launch_view(out@[before.len() as int])));
                }
            }
            i = i + 1;
        }
        out
    }

    /// Records that the Scheduled job `job_index` was started in its window:
    /// it is now Running there. Any other job is left as it is.
    pub fn mark_job_running(&mut self, job_index: usize, window_name: String)
        ensures
            same_config(*final(self), *old(self)),
            final(self).gpu_in_use == old(self).gpu_in_use,
            final(self).cpu_in_use == old(self).cpu_in_use,
            forall|j: int|
                0 <= j < old(self).jobs@.len() && j != job_index ==> final(self).jobs@[j] == old(
                    self,
                ).jobs@[j],
            job_index < old(self).jobs@.len() ==> if old(self).jobs@[job_index as int].status
                == JobStatus::Scheduled {
                let f = final(self).jobs@[job_index as int];
                let o = old(self).jobs@[job_index as int];
                &&& f.status == JobStatus::Running
                &&& f.window_name matches Some(w) && w@ == window_name@
                &&& same_identity(f, o)
                &&& f.gpu_id == o.gpu_id
                &&& f.cpu_cores == o.cpu_cores
            } else {
                final(self).jobs@[job_index as int] == old(self).jobs@[job_index as int]
            },
            advanced(old(self).jobs@, final(self).jobs@),
            old(self).wf() ==> final(self).wf(),
    {
        if job_index >= self.jobs.len() {
            return ;
        }
        if self.jobs[job_index].status != JobStatus::Scheduled {
            return ;
        }
        let ghost s0 = *self;
        self.jobs[job_index].window_name = Some(window_name);
        self.jobs[job_index].status = JobStatus::Running;
        proof {
            if s0.wf() {
                lemma_start_keeps_wf(s0, *self, job_index as int);
            }
        }
    }

    /// Whether every job is Done, Failed or Cancelled.
    pub fn all_jobs_finished(&self) -> (r: bool)
        ensures
            r == forall|j: int| 0 <= j < self.jobs@.len() ==> finished(#[trigger] self.jobs@[j].status),
    {
        let n = self.jobs.len();
        let mut i: usize = 0;
        while i < n
            invariant
                i <= n == self.jobs@.len(),
                forall|j: int| 0 <= j < i ==> finished(#[trigger] self.jobs@[j].status),
            decreases n - i,
        {
            if !self.jobs[i].status.is_finished() {
                return false;
            }
            i = i + 1;
        }
        true
    }

    /// The final summary, one item per line.
    pub fn summary(&self) -> (r: String)
        ensures
            r@ == join(summary_lines(*self), "\n"@),
    {
        let total = self.jobs.len();
        let done_ids = collect_job_ids(&self.jobs, JobStatus::Done);
        let failed_ids = collect_job_ids(&self.jobs, JobStatus::Failed);
        let cancelled_ids = collect_job_ids(&self.jobs, JobStatus::Cancelled);
        let mut lines: Vec<String> = Vec::new();
        lines.push(String::from_str("===== Scheduler Summary ====="));
        lines.push(labeled("Session: ", &self.session));
        lines.push(labeled("CUDA devices: ", &format_cuda_devices(&self.device_ids)));
        lines.push(labeled("CPU slots: ", &format_cpu_slots(&self.cpu_slots)));
        lines.push(labeled("Logs dir: ", &self.logs_dir));
        lines.push(labeled_count("Total jobs: ", total));
        lines.push(labeled_count("Done: ", done_ids.len()));
        lines.push(labeled_count("Failed: ", failed_ids.len()));
        lines.push(labeled_count("Cancelled: ", cancelled_ids.len()));
        if failed_ids.len() > 0 {
            lines.push(labeled("Failed job IDs: ", &join_ids(&failed_ids)));
        }
        if cancelled_ids.len() > 0 {
            lines.push(labeled("Cancelled job IDs: ", &join_ids(&cancelled_ids)));
        }
        proof {
            assert(strings_view(lines@) =~= summary_lines(*self));
        }
        let mut r = String::new();
        push_joined(&mut r, &lines, "\n");
        assert(r@ =~= join(summary_lines(*self), "\n"@));
        r
    }
}

/// How many jobs are Scheduled or Running.
pub open spec fn active_count(jobs: Seq<Job>) -> nat
    decreases jobs.len(),
{
    if jobs.len() == 0 {
        0
    } else {
        active_count(jobs.drop_last()) + if active(jobs.last().status) {
            1nat
        } else {
            0nat
        }
    }
}

/// No GPU is held by two jobs, no core slot either; a job holds a GPU or a
/// slot only while Scheduled or Running, and only one of the run's pools.
pub proof fn lemma_resources_exclusive(s: Scheduler)
    requires
        s.wf(),
    ensures
        forall|a: int, b: int|
            0 <= a < s.jobs@.len() && 0 <= b < s.jobs@.len() && a != b && (
            #[trigger] s.jobs@[a]).gpu_id is Some ==> s.jobs@[a].gpu_id != (
            #[trigger] s.jobs@[b]).gpu_id,
        forall|a: int, b: int|
            0 <= a < s.jobs@.len() && 0 <= b < s.jobs@.len() && a != b && cores_of(
                #[trigger] s.jobs@[a],
            ) is Some ==> cores_of(s.jobs@[a]) != cores_of(#[trigger] s.jobs@[b]),
        forall|j: int|
            0 <= j < s.jobs@.len() && !active((#[trigger] s.jobs@[j]).status) ==> s.jobs@[j].gpu_id is None
                && s.jobs@[j].cpu_cores is None,
        forall|j: int|
            0 <= j < s.jobs@.len() ==> ((#[trigger] s.jobs@[j]).gpu_id matches Some(g)
                ==> s.device_ids@.contains(g)),
        forall|j: int|
            0 <= j < s.jobs@.len() ==> (cores_of(#[trigger] s.jobs@[j]) matches Some(c)
                ==> slot_views(s.cpu_slots@).contains(c)),
{
    reveal(Scheduler::wf);
    assert forall|j: int| 0 <= j < s.jobs@.len() && !active((#[trigger] s.jobs@[j]).status) implies s.jobs@[j].gpu_id is None
        && s.jobs@[j].cpu_cores is None by {
        assert(job_ok(s.jobs@[j], s.device_ids@, slot_views(s.cpu_slots@)));
    }
    assert forall|j: int| 0 <= j < s.jobs@.len() implies ((#[trigger] s.jobs@[j]).gpu_id matches Some(g)
        ==> s.device_ids@.contains(g)) by {
        assert(job_ok(s.jobs@[j], s.device_ids@, slot_views(s.cpu_slots@)));
    }
    assert forall|j: int| 0 <= j < s.jobs@.len() implies (cores_of(#[trigger] s.jobs@[j]) matches Some(c)
        ==> slot_views(s.cpu_slots@).contains(c)) by {
        assert(job_ok(s.jobs@[j], s.device_ids@, slot_views(s.cpu_slots@)));
    }
}

proof fn lemma_count_within<T>(jobs: Seq<Job>, held: spec_fn(Job) -> Option<T>, pool: Set<T>)
    requires
        pool.finite(),
        forall|j: int|
            0 <= j < jobs.len() && active((#[trigger] jobs[j]).status) ==> held(jobs[j]) is Some
                && pool.contains(held(jobs[j])->Some_0),
        forall|a: int, b: int|
            0 <= a < jobs.len() && 0 <= b < jobs.len() && a != b && active((#[trigger] jobs[a]).status)
                && active((#[trigger] jobs[b]).status) ==> held(jobs[a]) != held(jobs[b]),
    ensures
        active_count(jobs) <= pool.len(),
    decreases jobs.len(),
{
    if jobs.len() > 0 {
        let rest = jobs.drop_last();
        let last = jobs.last();
        if active(last.status) {
            let g = held(last)->Some_0;
            assert(jobs[jobs.len() - 1] == last);
            assert forall|j: int|
                0 <= j < rest.len() && active((#[trigger] rest[j]).status) implies held(rest[j]) is Some
                && pool.remove(g).contains(held(rest[j])->Some_0) by {
                assert(rest[j] == jobs[j]);
                assert(held(jobs[j]) != held(jobs[jobs.len() - 1]));
            }
            assert forall|a: int, b: int|
                0 <= a < rest.len() && 0 <= b < rest.len() && a != b && active(
                    (#[trigger] rest[a]).status,
                ) && active((#[trigger] rest[b]).status) implies held(rest[a]) != held(rest[b]) by {
                assert(rest[a] == jobs[a] && rest[b] == jobs[b]);
            }
            lemma_count_within(rest, held, pool.remove(g));
        } else {
            assert forall|j: int|
                0 <= j < rest.len() && active((#[trigger] rest[j]).status) implies held(rest[j]) is Some
                && pool.contains(held(rest[j])->Some_0) by {
                assert(rest[j] == jobs[j]);
            }
            assert forall|a: int, b: int|
                0 <= a < rest.len() && 0 <= b < rest.len() && a != b && active(
                    (#[trigger] rest[a]).status,
                ) && active((#[trigger] rest[b]).status) implies held(rest[a]) != held(rest[b]) by {
                assert(rest[a] == jobs[a] && rest[b] == jobs[b]);
            }
            lemma_count_within(rest, held, pool);
        }
    }
}

/// One job per GPU and per core slot: in a run with GPUs, the Scheduled and
/// Running jobs are no more than its GPUs; in a run with core slots, no
/// more than its slots.
pub proof fn lemma_active_jobs_within_pools(s: Scheduler)
    requires
        s.wf(),
    ensures
        s.device_ids@.len() > 0 ==> active_count(s.jobs@) <= s.device_ids@.len(),
        s.cpu_slots@.len() > 0 ==> active_count(s.jobs@) <= s.cpu_slots@.len(),
{
    reveal(Scheduler::wf);
    let slots = slot_views(s.cpu_slots@);
    if s.device_ids@.len() > 0 {
        let pool = s.device_ids@.to_set();
        assert(s.device_ids@.no_duplicates()) by {
            assert forall|i: int, j: int|
                0 <= i < s.device_ids@.len() && 0 <= j < s.device_ids@.len() && i != j implies s.device_ids@[i]
                != s.device_ids@[j] by {
                if i < j {
                } else {
                }
            }
        }
        s.device_ids@.unique_seq_to_set();
        let held = |j: Job| j.gpu_id;
        assert forall|j: int|
            0 <= j < s.jobs@.len() && active((#[trigger] s.jobs@[j]).status) implies held(
            s.jobs@[j],
        ) is Some && pool.contains(held(s.jobs@[j])->Some_0) by {
            assert(job_ok(s.jobs@[j], s.device_ids@, slots));
        }
        lemma_count_within(s.jobs@, held, pool);
    }
    if s.cpu_slots@.len() > 0 {
        let pool = slots.to_set();
        assert(slots.no_duplicates()) by {
            assert forall|i: int, j: int|
                0 <= i < slots.len() && 0 <= j < slots.len() && i != j implies slots[i] != slots[j] by {
                if i < j {
                } else {
                }
            }
        }
        slots.unique_seq_to_set();
        let held = |j: Job| cores_of(j);
        assert forall|j: int|
            0 <= j < s.jobs@.len() && active((#[trigger] s.jobs@[j]).status) implies held(
            s.jobs@[j],
        ) is Some && pool.contains(held(s.jobs@[j])->Some_0) by {
            assert(job_ok(s.jobs@[j], s.device_ids@, slots));
        }
        lemma_count_within(s.jobs@, held, pool);
    }
}

} // verus!
