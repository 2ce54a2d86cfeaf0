//! The tmux window names of a run, and how a run finds names that no other
//! window of the session holds.
use vstd::prelude::*;

use crate::error::{ErrorKind, SchedulerError};
use crate::format::{join, push_joined};
use crate::gpu::err_view;
use crate::input::strings_view;
use crate::text::{dec, push_usize};

verus! {

pub const DEFAULT_SCHEDULER_WINDOW_NAME: &'static str = "__sched__";

pub const DEFAULT_JOB_WINDOW_PREFIX: &'static str = "job";

pub const AUTO_SCHEDULER_WINDOW_PREFIX: &'static str = "__sched_";

pub const AUTO_SCHEDULER_WINDOW_SUFFIX: &'static str = "__";

/// The name of the scheduler's window and the prefix of its job windows.
#[derive(Debug, Clone, PartialEq, Eq)]
pub struct RunNamespace {
    pub scheduler_window_name: String,
    pub job_window_prefix: String,
}

pub open spec fn ns_view(ns: RunNamespace) -> (Seq<char>, Seq<char>) {
    (ns.scheduler_window_name@, ns.job_window_prefix@)
}

/// The names of the `idx`-th run that picks its own names: `__sched__` and
/// `job` for the first, `__sched_IDX__` and `sched_IDX_job` after it.
pub open spec fn auto_ns(idx: usize) -> (Seq<char>, Seq<char>) {
    if idx == 1 {
        (DEFAULT_SCHEDULER_WINDOW_NAME@, DEFAULT_JOB_WINDOW_PREFIX@)
    } else {
        (
            AUTO_SCHEDULER_WINDOW_PREFIX@ + dec(idx as nat) + AUTO_SCHEDULER_WINDOW_SUFFIX@,
            "sched_"@ + dec(idx as nat) + "_job"@,
        )
    }
}

/// The names of a run called NAME: `__sched_NAME__` and `NAME_job`.
pub open spec fn named_ns(name: Seq<char>) -> (Seq<char>, Seq<char>) {
    ("__sched_"@ + name + "__"@, name + "_job"@)
}

/// The names of the `idx`-th run that picks its own names.
pub fn auto_run_namespace(idx: usize) -> (r: RunNamespace)
    ensures
        ns_view(r) == auto_ns(idx),
{
    if idx == 1 {
        RunNamespace {
            scheduler_window_name: String::from_str(DEFAULT_SCHEDULER_WINDOW_NAME),
            job_window_prefix: String::from_str(DEFAULT_JOB_WINDOW_PREFIX),
        }
    } else {
        let mut sched = String::from_str(AUTO_SCHEDULER_WINDOW_PREFIX);
        push_usize(&mut sched, idx);
        sched.append(AUTO_SCHEDULER_WINDOW_SUFFIX);
        let mut prefix = String::from_str("sched_");
        push_usize(&mut prefix, idx);
        prefix.append("_job");
        RunNamespace { scheduler_window_name: sched, job_window_prefix: prefix }
    }
}

/// The names of a run called `name`.
pub fn named_run_namespace(name: &str) -> (r: RunNamespace)
    ensures
        ns_view(r) == named_ns(name@),
{
    let mut sched = String::from_str("__sched_");
    sched.append(name);
    sched.append("__");
    let mut prefix = String::from_str(name);
    prefix.append("_job");
    RunNamespace { scheduler_window_name: sched, job_window_prefix: prefix }
}

/// The window of job ID: `PREFIX_ID`.
pub open spec fn job_window_text(prefix: Seq<char>, id: usize) -> Seq<char> {
    prefix + "_"@ + dec(id as nat)
}

/// `PREFIX_ID`.
pub fn window_name_for_job(job_window_prefix: &str, job_id: usize) -> (r: String)
    ensures
        r@ == job_window_text(job_window_prefix@, job_id),
{
    let mut s = String::from_str(job_window_prefix);
    s.append("_");
    push_usize(&mut s, job_id);
    s
}

/// The windows a run of `n` jobs will hold: the scheduler's, then one per job.
pub open spec fn planned_names(ns: (Seq<char>, Seq<char>), n: nat) -> Seq<Seq<char>> {
    seq![ns.0] + Seq::new(n, |k: int| job_window_text(ns.1, (k + 1) as usize))
}

/// The windows a run of `job_count` jobs will hold.
pub fn planned_window_names(namespace: &RunNamespace, job_count: usize) -> (r: Vec<String>)
    ensures
        strings_view(r@) == planned_names(ns_view(*namespace), job_count as nat),
{
    let mut out: Vec<String> = Vec::new();
    out.push(namespace.scheduler_window_name.clone());
    let mut id: usize = 0;
    while id < job_count
        invariant
            id <= job_count,
            strings_view(out@) == planned_names(ns_view(*namespace), id as nat),
        decreases job_count - id,
    {
        let name = window_name_for_job(namespace.job_window_prefix.as_str(), id + 1);
        let ghost before = out@;
        out.push(name);
        proof {
            let ns = ns_view(*namespace);
            assert(strings_view(out@) =~= strings_view(before).push(name@));
            assert(planned_names(ns, (id + 1) as nat) =~= planned_names(ns, id as nat).push(
                job_window_text(ns.1, (id + 1) as usize),
            ));
        }
        id = id + 1;
    }
    out
}

/// How many times `w` occurs in `ws`.
pub open spec fn count_of(ws: Seq<Seq<char>>, w: Seq<char>) -> nat
    decreases ws.len(),
{
    if ws.len() == 0 {
        0
    } else {
        count_of(ws.drop_last(), w) + if ws.last() == w {
            1nat
        } else {
            0nat
        }
    }
}

/// An existing window is in the way of a run when it is one of the run's job
/// windows, or when it is named as the run's scheduler window but is not the
/// current window, or that name is held twice.
pub open spec fn is_conflict(
    w: Seq<char>,
    existing: Seq<Seq<char>>,
    current: Seq<char>,
    sched: Seq<char>,
    planned: Seq<Seq<char>>,
) -> bool {
    if w == sched {
        current != sched || count_of(existing, sched) > 1
    } else {
        planned.contains(w)
    }
}

/// The windows of `ws` in the way, each once, in the order first seen.
pub open spec fn conflicts_from(
    ws: Seq<Seq<char>>,
    existing: Seq<Seq<char>>,
    current: Seq<char>,
    sched: Seq<char>,
    planned: Seq<Seq<char>>,
) -> Seq<Seq<char>>
    decreases ws.len(),
{
    if ws.len() == 0 {
        Seq::<Seq<char>>::empty()
    } else {
        let r = conflicts_from(ws.drop_last(), existing, current, sched, planned);
        let w = ws.last();
        if is_conflict(w, existing, current, sched, planned) && !r.contains(w) {
            r.push(w)
        } else {
            r
        }
    }
}

pub open spec fn conflicts_spec(
    existing: Seq<Seq<char>>,
    current: Seq<char>,
    sched: Seq<char>,
    planned: Seq<Seq<char>>,
) -> Seq<Seq<char>> {
    conflicts_from(existing, existing, current, sched, planned)
}

fn count_name(ws: &Vec<String>, w: &String) -> (r: usize)
    ensures
        r == count_of(strings_view(ws@), w@),
{
    let ghost v = strings_view(ws@);
    let n = ws.len();
    let mut c: usize = 0;
    let mut i: usize = 0;
    while i < n
        invariant
            i <= n == ws@.len() == v.len(),
            v == strings_view(ws@),
            c == count_of(v.take(i as int), w@),
            c <= i,
        decreases n - i,
    {
        proof {
            assert(v.take(i + 1).drop_last() =~= v.take(i as int));
            assert(v.take(i + 1).last() == ws@[i as int]@);
        }
        if ws[i] == *w {
            c = c + 1;
        }
        i = i + 1;
    }
    assert(v.take(n as int) =~= v);
    c
}

/// Whether `name` is among `names`.
pub fn has_window(names: &Vec<String>, name: &str) -> (r: bool)
    ensures
        r == strings_view(names@).contains(name@),
{
    let target = String::from_str(name);
    let n = names.len();
    let mut i: usize = 0;
    while i < n
        invariant
            i <= n == names@.len(),
            target@ == name@,
            forall|k: int| 0 <= k < i ==> names@[k]@ != name@,
        decreases n - i,
    {
        if names[i] == target {
            assert(strings_view(names@)[i as int] == name@);
            return true;
        }
        i = i + 1;
    }
    proof {
        if strings_view(names@).contains(name@) {
            let k = choose|k: int|
                0 <= k < strings_view(names@).len() && strings_view(names@)[k] == name@;
            assert(names@[k]@ == name@);
        }
    }
    false
}

fn string_in(names: &Vec<String>, name: &String) -> (r: bool)
    ensures
        r == strings_view(names@).contains(name@),
{
    has_window(names, name.as_str())
}

/// The existing windows in the way of a run, each once, in order.
pub fn find_window_conflicts(
    existing_windows: &Vec<String>,
    current_window: &str,
    scheduler_window_name: &str,
    planned_windows: &Vec<String>,
) -> (r: Vec<String>)
    ensures
        strings_view(r@) == conflicts_spec(
            strings_view(existing_windows@),
            current_window@,
            scheduler_window_name@,
            strings_view(planned_windows@),
        ),
{
    let ghost ev = strings_view(existing_windows@);
    let ghost pv = strings_view(planned_windows@);
    let sched = String::from_str(scheduler_window_name);
    let current = String::from_str(current_window);
    let scheduler_window_count = count_name(existing_windows, &sched);
    let mut conflicts: Vec<String> = Vec::new();
    let n = existing_windows.len();
    let mut i: usize = 0;
    while i < n
        invariant
            i <= n == existing_windows@.len() == ev.len(),
            ev == strings_view(existing_windows@),
            pv == strings_view(planned_windows@),
            sched@ == scheduler_window_name@,
            current@ == current_window@,
            scheduler_window_count == count_of(ev, sched@),
            strings_view(conflicts@) == conflicts_from(
                ev.take(i as int),
                ev,
                current_window@,
                scheduler_window_name@,
                pv,
            ),
        decreases n - i,
    {
        proof {
            assert(ev.take(i + 1).drop_last() =~= ev.take(i as int));
            assert(ev.take(i + 1).last() == existing_windows@[i as int]@);
        }
        let window = &existing_windows[i];
        let is_conflict = if *window == sched {
            current != sched || scheduler_window_count > 1
        } else {
            string_in(planned_windows, window)
        };
        if is_conflict && !string_in(&conflicts, window) {
            let ghost before = conflicts@;
            conflicts.push(window.clone());
            assert(strings_view(conflicts@) =~= strings_view(before).push(window@));
        }
        i = i + 1;
    }
    assert(ev.take(n as int) =~= ev);
    conflicts
}

/// The conflicts are exactly the windows in the way, each listed once.
pub proof fn lemma_conflicts_exact(
    ws: Seq<Seq<char>>,
    existing: Seq<Seq<char>>,
    current: Seq<char>,
    sched: Seq<char>,
    planned: Seq<Seq<char>>,
)
    ensures
        ({
            let c = conflicts_from(ws, existing, current, sched, planned);
            &&& forall|w: Seq<char>| #[trigger]
                c.contains(w) <==> (ws.contains(w) && is_conflict(
                    w,
                    existing,
                    current,
                    sched,
                    planned,
                ))
            &&& forall|a: int, b: int| 0 <= a < b < c.len() ==> c[a] != c[b]
        }),
    decreases ws.len(),
{
    if ws.len() > 0 {
        let prev = ws.drop_last();
        lemma_conflicts_exact(prev, existing, current, sched, planned);
        let r = conflicts_from(prev, existing, current, sched, planned);
        let c = conflicts_from(ws, existing, current, sched, planned);
        assert forall|w: Seq<char>| #[trigger]
            c.contains(w) <==> (ws.contains(w) && is_conflict(w, existing, current, sched, planned)) by {
            if ws.contains(w) {
                let k = choose|k: int| 0 <= k < ws.len() && ws[k] == w;
                if k < ws.len() - 1 {
                    assert(prev[k] == w);
                }
            }
            if prev.contains(w) {
                let k = choose|k: int| 0 <= k < prev.len() && prev[k] == w;
                assert(ws[k] == w);
            }
            if c.contains(w) && !r.contains(w) {
                let k = choose|k: int| 0 <= k < c.len() && c[k] == w;
                if k < r.len() {
                    assert(r[k] == w);
                }
            }
            if r.contains(w) {
                let k = choose|k: int| 0 <= k < r.len() && r[k] == w;
                assert(c[k] == w);
            }
            if w == ws.last() && is_conflict(w, existing, current, sched, planned) && !r.contains(w) {
                assert(c[c.len() - 1] == w);
            }
        }
    }
}

/// Whether the `idx`-th names are free for a run of `n` jobs.
pub open spec fn auto_ns_free(
    idx: usize,
    existing: Seq<Seq<char>>,
    current: Seq<char>,
    n: nat,
) -> bool {
    conflicts_spec(existing, current, auto_ns(idx).0, planned_names(auto_ns(idx), n)).len() == 0
}

/// How many names a run tries before it gives up.
pub open spec fn max_auto_namespaces() -> usize {
    10000
}

/// The names of a run: the names asked for, where nothing is in their way; or
/// else the first free names among the first 10000.
pub open spec fn namespace_spec(
    existing: Seq<Seq<char>>,
    current: Seq<char>,
    requested: Option<Seq<char>>,
    n: nat,
    session: Seq<char>,
) -> Result<(Seq<char>, Seq<char>), (ErrorKind, Seq<char>)> {
    match requested {
        Some(name) => {
            let ns = named_ns(name);
            let c = conflicts_spec(existing, current, ns.0, planned_names(ns, n));
            if c.len() == 0 {
                Ok(ns)
            } else {
                Err(
                    (
                        ErrorKind::AlreadyExists,
                        "window name conflict in session "@ + session + ": "@ + join(c, ", "@),
                    ),
                )
            }
        },
        None => if exists|idx: usize|
            1 <= idx <= max_auto_namespaces() && auto_ns_free(idx, existing, current, n) {
            let idx = choose|idx: usize|
                1 <= idx <= max_auto_namespaces() && auto_ns_free(idx, existing, current, n) && (
                forall|j: usize| 1 <= j < idx ==> !auto_ns_free(j, existing, current, n));
            Ok(auto_ns(idx))
        } else {
            Err(
                (
                    ErrorKind::AlreadyExists,
                    "no available scheduler namespace in session "@ + session,
                ),
            )
        },
    }
}

proof fn lemma_least_free(existing: Seq<Seq<char>>, current: Seq<char>, n: nat, k: usize)
    requires
        1 <= k <= max_auto_namespaces(),
        auto_ns_free(k, existing, current, n),
    ensures
        exists|idx: usize|
            1 <= idx <= max_auto_namespaces() && auto_ns_free(idx, existing, current, n) && (forall|
                j: usize,
            |
                1 <= j < idx ==> !auto_ns_free(j, existing, current, n)),
    decreases k,
{
    if exists|j: usize| 1 <= j < k && auto_ns_free(j, existing, current, n) {
        let j = choose|j: usize| 1 <= j < k && auto_ns_free(j, existing, current, n);
        lemma_least_free(existing, current, n, j);
    } else {
        assert(1 <= k <= max_auto_namespaces() && auto_ns_free(k, existing, current, n) && (forall|
            j: usize,
        |
            1 <= j < k ==> !auto_ns_free(j, existing, current, n)));
    }
}

/// The names a run gets are free in its session: no existing window holds the
/// name of one of its job windows, and its scheduler window, if it exists, is
/// the current window and is held only once.
pub proof fn lemma_resolved_names_free(
    existing: Seq<Seq<char>>,
    current: Seq<char>,
    requested: Option<Seq<char>>,
    n: nat,
    session: Seq<char>,
)
    ensures
        namespace_spec(existing, current, requested, n, session) matches Ok(ns) ==> {
            &&& forall|w: Seq<char>|
                #[trigger] existing.contains(w) && planned_names(ns, n).contains(w) ==> w == ns.0
            &&& existing.contains(ns.0) ==> current == ns.0 && count_of(existing, ns.0) <= 1
        },
{
    if let Ok(ns) = namespace_spec(existing, current, requested, n, session) {
        if requested is None {
            let k = choose|idx: usize|
                1 <= idx <= max_auto_namespaces() && auto_ns_free(idx, existing, current, n);
            lemma_least_free(existing, current, n, k);
        }
        let planned = planned_names(ns, n);
        lemma_conflicts_exact(existing, existing, current, ns.0, planned);
        let c = conflicts_spec(existing, current, ns.0, planned);
        assert(c.len() == 0);
        assert forall|w: Seq<char>| #[trigger] existing.contains(w) && planned.contains(w) implies w
            == ns.0 by {
            assert(!c.contains(w));
        }
        if existing.contains(ns.0) {
            assert(!c.contains(ns.0));
        }
    }
}

pub open spec fn ns_result_view(r: Result<RunNamespace, SchedulerError>) -> Result<
    (Seq<char>, Seq<char>),
    (ErrorKind, Seq<char>),
> {
    match r {
        Ok(ns) => Ok(ns_view(ns)),
        Err(e) => Err(err_view(e)),
    }
}

/// Picks the names of a run in a session whose windows are `windows`.
pub fn resolve_run_namespace(
    windows: &Vec<String>,
    session: &str,
    current_window: &str,
    requested_name: Option<&str>,
    job_count: usize,
) -> (r: Result<RunNamespace, SchedulerError>)
    ensures
        ns_result_view(r) == namespace_spec(
            strings_view(windows@),
            current_window@,
            match requested_name {
                Some(n) => Some(n@),
                None => None,
            },
            job_count as nat,
            session@,
        ),
{
    let ghost ev = strings_view(windows@);
    if let Some(name) = requested_name {
        let namespace = named_run_namespace(name);
        let planned = planned_window_names(&namespace, job_count);
        let conflicts = find_window_conflicts(
            windows,
            current_window,
            namespace.scheduler_window_name.as_str(),
            &planned,
        );
        if conflicts.len() == 0 {
            return Ok(namespace);
        } else {
            let mut m = String::from_str("window name conflict in session ");
            m.append(session);
            m.append(": ");
            push_joined(&mut m, &conflicts, ", ");
            return Err(SchedulerError::new(ErrorKind::AlreadyExists, m));
        }
    }
    let mut idx: usize = 1;
    while idx <= 10000
        invariant
            1 <= idx <= 10001,
            ev == strings_view(windows@),
            requested_name is None,
            forall|j: usize| 1 <= j < idx ==> !auto_ns_free(j, ev, current_window@, job_count as nat),
        decreases 10001 - idx,
    {
        let namespace = auto_run_namespace(idx);
        let planned = planned_window_names(&namespace, job_count);
        let conflicts = find_window_conflicts(
            windows,
            current_window,
            namespace.scheduler_window_name.as_str(),
            &planned,
        );
        if conflicts.len() == 0 {
            proof {
                assert(auto_ns_free(idx, ev, current_window@, job_count as nat));
                let chosen = choose|k: usize|
                    1 <= k <= max_auto_namespaces() && auto_ns_free(k, ev, current_window@, job_count as nat)
                        && (forall|j: usize|
                        1 <= j < k ==> !auto_ns_free(j, ev, current_window@, job_count as nat));
                assert(1 <= chosen <= max_auto_namespaces() && auto_ns_free(chosen, ev, current_window@, job_count as nat)
                        && (forall|j: usize|
                        1 <= j < chosen ==> !auto_ns_free(j, ev, current_window@, job_count as nat)));
                if chosen < idx {
                } else if chosen > idx {
                    assert(!auto_ns_free(idx, ev, current_window@, job_count as nat));
                }
            }
            return Ok(namespace);
        }
        idx = idx + 1;
    }
    let mut m = String::from_str("no available scheduler namespace in session ");
    m.append(session);
    Err(SchedulerError::new(ErrorKind::AlreadyExists, m))
}

/// Refuses to use a job window name that the session already holds.
pub fn ensure_job_window_absent(windows: &Vec<String>, session: &str, window_name: &str) -> (r: Result<
    (),
    SchedulerError,
>)
    ensures
        r is Ok <==> !strings_view(windows@).contains(window_name@),
        r matches Err(e) ==> err_view(e) == (
            ErrorKind::AlreadyExists,
            "job window already exists in session "@ + session@ + ": "@ + window_name@,
        ),
{
    if has_window(windows, window_name) {
        let mut m = String::from_str("job window already exists in session ");
        m.append(session);
        m.append(": ");
        m.append(window_name);
        Err(SchedulerError::new(ErrorKind::AlreadyExists, m))
    } else {
        Ok(())
    }
}

} // verus!
