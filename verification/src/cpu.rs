//! CPU core slots: a pool of logical cores cut into fixed-size slots.
use vstd::prelude::*;

use crate::cli::{CoresSelection, CpuCoresArg, cores_view};
use crate::error::{ErrorKind, SchedulerError};
use crate::format::slot_views;
use crate::gpu::err_view;
use crate::sorted::strictly_increasing;
use crate::text::{dec, push_usize};

verus! {

/// The full slots of `c` consecutive cores, in order; the cores left over
/// (fewer than `c`) are in no slot.
pub open spec fn chunk_slots(cores: Seq<usize>, c: nat) -> Seq<Seq<usize>>
    recommends
        c > 0,
{
    Seq::new(cores.len() / c, |k: int| cores.subrange(k * c, k * c + c))
}

/// Cutting a pool into slots of `c` cores: `c` must be positive and at most the
/// size of the pool.
pub open spec fn slots_spec(cores: Seq<usize>, c: usize) -> Result<Seq<Seq<usize>>, (ErrorKind, Seq<char>)> {
    if c == 0 {
        Err((ErrorKind::InvalidInput, "--cpus-per-job must be positive"@))
    } else if c > cores.len() {
        Err(
            (
                ErrorKind::InvalidInput,
                "--cpus-per-job ("@ + dec(c as nat) + ") exceeds CPU core pool size ("@ + dec(
                    cores.len(),
                ) + ")"@,
            ),
        )
    } else {
        Ok(chunk_slots(cores, c as nat))
    }
}

pub open spec fn slots_result_view(r: Result<Vec<Vec<usize>>, SchedulerError>) -> Result<
    Seq<Seq<usize>>,
    (ErrorKind, Seq<char>),
> {
    match r {
        Ok(v) => Ok(slot_views(v@)),
        Err(e) => Err(err_view(e)),
    }
}

proof fn lemma_chunk_bounds(len: nat, c: nat, k: int)
    requires
        c > 0,
        0 <= k < len / c,
    ensures
        0 <= k * c,
        k * c + c <= len,
{
    assert(k * c >= 0) by (nonlinear_arith)
        requires
            k >= 0,
            c > 0,
    ;
    assert(k * c + c <= len) by (nonlinear_arith)
        requires
            0 <= k < len / c,
            c > 0,
    ;
}

/// Cuts the core pool into slots of `cpus_per_job` cores.
pub fn split_cpu_pool_into_slots(cores: Vec<usize>, cpus_per_job: usize) -> (r: Result<
    Vec<Vec<usize>>,
    SchedulerError,
>)
    ensures
        slots_result_view(r) == slots_spec(cores@, cpus_per_job),
{
    if cpus_per_job == 0 {
        return Err(
            SchedulerError::new(
                ErrorKind::InvalidInput,
                String::from_str("--cpus-per-job must be positive"),
            ),
        );
    }
    let n = cores.len();
    if cpus_per_job > n {
        let mut m = String::from_str("--cpus-per-job (");
        push_usize(&mut m, cpus_per_job);
        m.append(") exceeds CPU core pool size (");
        push_usize(&mut m, n);
        m.append(")");
        return Err(SchedulerError::new(ErrorKind::InvalidInput, m));
    }
    let ghost c = cpus_per_job as nat;
    let count = n / cpus_per_job;
    let mut slots: Vec<Vec<usize>> = Vec::new();
    let mut k: usize = 0;
    while k < count
        invariant
            c == cpus_per_job as nat,
            0 < cpus_per_job <= n == cores@.len(),
            count == n / cpus_per_job,
            k <= count,
            slots@.len() == k,
            forall|j: int| 0 <= j < k ==> (#[trigger] slots@[j])@ == chunk_slots(cores@, c)[j],
        decreases count - k,
    {
        proof {
            lemma_chunk_bounds(n as nat, c, k as int);
        }
        let lo = k * cpus_per_job;
        let hi = lo + cpus_per_job;
        let mut slot: Vec<usize> = Vec::new();
        let mut i = lo;
        while i < hi
            invariant
                lo <= i <= hi <= cores@.len(),
                slot@ == cores@.subrange(lo as int, i as int),
            decreases hi - i,
        {
            slot.push(cores[i]);
            i = i + 1;
            assert(slot@ =~= cores@.subrange(lo as int, i as int));
        }
        slots.push(slot);
        k = k + 1;
    }
    proof {
        assert(slot_views(slots@) =~= chunk_slots(cores@, c));
        assert(count > 0) by (nonlinear_arith)
            requires
                0 < cpus_per_job <= n,
                count == n / cpus_per_job,
        ;
    }
    if slots.len() == 0 {
        return Err(
            SchedulerError::new(
                ErrorKind::InvalidInput,
                String::from_str("CPU core pool produced no usable slots"),
            ),
        );
    }
    Ok(slots)
}

/// The cores `0, 1, ..., n - 1`.
pub open spec fn all_cores(n: usize) -> Seq<usize> {
    Seq::new(n as nat, |k: int| k as usize)
}

/// The CPU slots of a run: none without `--cpu-cores`; otherwise the pool
/// (`auto`: all `available_cores` logical cores) cut into slots of
/// `--cpus-per-job` cores, which must then be given.
pub open spec fn cpu_slots_spec(
    sel: CoresSelection,
    cpus_per_job: Option<usize>,
    available_cores: usize,
) -> Result<Seq<Seq<usize>>, (ErrorKind, Seq<char>)> {
    match sel {
        CoresSelection::Disabled => if cpus_per_job is Some {
            Err(
                (
                    ErrorKind::InvalidInput,
                    "--cpus-per-job requires --cpu-cores auto or an explicit core list"@,
                ),
            )
        } else {
            Ok(Seq::<Seq<usize>>::empty())
        },
        CoresSelection::Auto => match cpus_per_job {
            None => Err((ErrorKind::InvalidInput, "--cpu-cores auto requires --cpus-per-job"@)),
            Some(c) => slots_spec(all_cores(available_cores), c),
        },
        CoresSelection::Explicit(cores) => match cpus_per_job {
            None => Err(
                (
                    ErrorKind::InvalidInput,
                    "--cpu-cores with an explicit core list requires --cpus-per-job"@,
                ),
            ),
            Some(c) => slots_spec(cores, c),
        },
    }
}

fn input_error(msg: &str) -> (e: SchedulerError)
    ensures
        err_view(e) == (ErrorKind::InvalidInput, msg@),
{
    SchedulerError::new(ErrorKind::InvalidInput, String::from_str(msg))
}

fn copy_cores(v: &Vec<usize>) -> (r: Vec<usize>)
    ensures
        r@ == v@,
{
    let mut r: Vec<usize> = Vec::new();
    let n = v.len();
    let mut i: usize = 0;
    while i < n
        invariant
            i <= n == v@.len(),
            r@ == v@.take(i as int),
        decreases n - i,
    {
        r.push(v[i]);
        i = i + 1;
        assert(r@ =~= v@.take(i as int));
    }
    assert(v@.take(n as int) =~= v@);
    r
}

/// The CPU slots of a run; `available_cores` is the number of logical cores
/// the machine reports (used by `auto`).
pub fn resolve_cpu_slots(
    selection: &CpuCoresArg,
    cpus_per_job: Option<usize>,
    available_cores: usize,
) -> (r: Result<Vec<Vec<usize>>, SchedulerError>)
    ensures
        slots_result_view(r) == cpu_slots_spec(cores_view(*selection), cpus_per_job, available_cores),
{
    match selection {
        CpuCoresArg::Disabled => {
            if cpus_per_job.is_some() {
                return Err(
                    input_error("--cpus-per-job requires --cpu-cores auto or an explicit core list"),
                );
            }
            let v: Vec<Vec<usize>> = Vec::new();
            assert(slot_views(v@) =~= Seq::<Seq<usize>>::empty());
            Ok(v)
        },
        CpuCoresArg::Auto => {
            let c = match cpus_per_job {
                Some(c) => c,
                None => {
                    return Err(input_error("--cpu-cores auto requires --cpus-per-job"));
                },
            };
            let mut pool: Vec<usize> = Vec::new();
            let mut i: usize = 0;
            while i < available_cores
                invariant
                    i <= available_cores,
                    pool@ == all_cores(available_cores).take(i as int),
                decreases available_cores - i,
            {
                pool.push(i);
                i = i + 1;
                assert(pool@ =~= all_cores(available_cores).take(i as int));
            }
            assert(pool@ =~= all_cores(available_cores));
            split_cpu_pool_into_slots(pool, c)
        },
        CpuCoresArg::Explicit(cores) => {
            let c = match cpus_per_job {
                Some(c) => c,
                None => {
                    return Err(
                        input_error("--cpu-cores with an explicit core list requires --cpus-per-job"),
                    );
                },
            };
            split_cpu_pool_into_slots(copy_cores(cores), c)
        },
    }
}

/// Slots cut from a strictly increasing pool hold strictly increasing,
/// pairwise disjoint runs of `c` cores that cover the pool but for fewer than
/// `c` cores at its end.
pub proof fn lemma_slots_partition(cores: Seq<usize>, c: nat)
    requires
        c > 0,
        strictly_increasing(cores),
    ensures
        ({
            let s = chunk_slots(cores, c);
            &&& forall|k: int| 0 <= k < s.len() ==> (#[trigger] s[k]).len() == c
            &&& forall|k: int| 0 <= k < s.len() ==> strictly_increasing(#[trigger] s[k])
            &&& cores.len() - s.len() * c < c
            &&& forall|a: int, b: int, x: usize|
                #![trigger s[a].contains(x), s[b].contains(x)]
                0 <= a < b < s.len() && s[a].contains(x) ==> !s[b].contains(x)
        }),
{
    let s = chunk_slots(cores, c);
    let len = cores.len();
    assert forall|k: int| 0 <= k < s.len() implies (#[trigger] s[k]).len() == c
        && strictly_increasing(s[k]) by {
        lemma_chunk_bounds(len, c, k);
        assert forall|i: int, j: int| 0 <= i < j < s[k].len() implies s[k][i] < s[k][j] by {
            assert(s[k][i] == cores[k * c + i]);
            assert(s[k][j] == cores[k * c + j]);
        }
    }
    assert(len - s.len() * c < c) by (nonlinear_arith)
        requires
            s.len() == len / c,
            c > 0,
    ;
    assert forall|a: int, b: int, x: usize|
        #![trigger s[a].contains(x), s[b].contains(x)]
        0 <= a < b < s.len() && s[a].contains(x) implies !s[b].contains(x) by {
        lemma_chunk_bounds(len, c, a);
        lemma_chunk_bounds(len, c, b);
        assert(a * c + c <= b * c) by (nonlinear_arith)
            requires
                a < b,
                c > 0,
        ;
        let i = choose|i: int| 0 <= i < s[a].len() && s[a][i] == x;
        assert(s[a][i] == cores[a * c + i]);
        if s[b].contains(x) {
            let j = choose|j: int| 0 <= j < s[b].len() && s[b][j] == x;
            assert(s[b][j] == cores[b * c + j]);
            assert(a * c + i < b * c + j);
        }
    }
}

} // verus!
