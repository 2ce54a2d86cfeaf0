//! GPUs: what `nvidia-smi` reports, when a GPU counts as idle, and which
//! GPUs a run may use.
use vstd::prelude::*;
use vstd::utf8::{decode_utf8, valid_utf8};

use crate::cli::{CudaDevicesArg, cuda_view, CudaSelection};
use crate::error::{ErrorKind, SchedulerError};
use crate::input::{lossy_utf8, utf8_lossy};
use crate::text::{
    chars_of, dec, lines, lines_chars, parse_usize, parse_usize_chars, push_chars, push_usize,
    split, split_chars, trim, trim_chars,
};

verus! {

/// One GPU as `nvidia-smi` reports it.
#[derive(Debug, Clone, Copy, PartialEq, Eq, Structural)]
pub struct GpuSnapshot {
    pub index: usize,
    pub memory_used_mb: usize,
    pub utilization_gpu: usize,
}

/// The kind and message of an error.
pub open spec fn err_view(e: SchedulerError) -> (ErrorKind, Seq<char>) {
    (e.kind, e.message@)
}

/// One line of `nvidia-smi --query-gpu=index,memory.used,utilization.gpu
/// --format=csv,noheader,nounits`: three comma-separated numbers.
pub open spec fn snapshot_of_line(line: Seq<char>) -> Result<GpuSnapshot, (ErrorKind, Seq<char>)> {
    let parts = split(line, ',');
    if parts.len() != 3 {
        Err((ErrorKind::InvalidData, "unexpected nvidia-smi output line: "@ + line))
    } else {
        match parse_usize(trim(parts[0])) {
            None => Err((ErrorKind::InvalidData, "invalid GPU index from nvidia-smi"@)),
            Some(index) => match parse_usize(trim(parts[1])) {
                None => Err((ErrorKind::InvalidData, "invalid memory.used from nvidia-smi"@)),
                Some(mem) => match parse_usize(trim(parts[2])) {
                    None => Err((ErrorKind::InvalidData, "invalid utilization.gpu from nvidia-smi"@)),
                    Some(util) => Ok(
                        GpuSnapshot { index, memory_used_mb: mem, utilization_gpu: util },
                    ),
                },
            },
        }
    }
}

/// The snapshots of all lines, or the error of the first bad line.
pub open spec fn snapshots_of_lines(ls: Seq<Seq<char>>) -> Result<
    Seq<GpuSnapshot>,
    (ErrorKind, Seq<char>),
>
    decreases ls.len(),
{
    if ls.len() == 0 {
        Ok(Seq::<GpuSnapshot>::empty())
    } else {
        match snapshots_of_lines(ls.drop_last()) {
            Err(e) => Err(e),
            Ok(r) => match snapshot_of_line(ls.last()) {
                Ok(g) => Ok(r.push(g)),
                Err(e) => Err(e),
            },
        }
    }
}

proof fn lemma_snapshots_err(ls: Seq<Seq<char>>, i: int)
    requires
        0 <= i <= ls.len(),
        snapshots_of_lines(ls.take(i)) is Err,
    ensures
        snapshots_of_lines(ls) == snapshots_of_lines(ls.take(i)),
    decreases ls.len() - i,
{
    if i == ls.len() {
        assert(ls.take(i) =~= ls);
    } else {
        assert(ls.take(i + 1).drop_last() =~= ls.take(i));
        lemma_snapshots_err(ls, i + 1);
    }
}

pub open spec fn snapshots_result_view(r: Result<Vec<GpuSnapshot>, SchedulerError>) -> Result<
    Seq<GpuSnapshot>,
    (ErrorKind, Seq<char>),
> {
    match r {
        Ok(v) => Ok(v@),
        Err(e) => Err(err_view(e)),
    }
}

fn data_error(msg: &str) -> (e: SchedulerError)
    ensures
        err_view(e) == (ErrorKind::InvalidData, msg@),
{
    SchedulerError::new(ErrorKind::InvalidData, String::from_str(msg))
}

/// Reads the GPUs from what `nvidia-smi` printed, one per line.
pub fn parse_gpu_snapshots(stdout: &[u8]) -> (r: Result<Vec<GpuSnapshot>, SchedulerError>)
    ensures
        snapshots_result_view(r) == snapshots_of_lines(lines(lossy_utf8(stdout@))),
        valid_utf8(stdout@) ==> lossy_utf8(stdout@) == decode_utf8(stdout@),
{
    let s = utf8_lossy(stdout);
    let text = chars_of(s.as_str());
    let ls = lines_chars(&text);
    let ghost lv = lines(text@);
    let n = ls.len();
    let mut out: Vec<GpuSnapshot> = Vec::new();
    let mut i: usize = 0;
    while i < n
        invariant
            i <= n == ls@.len() == lv.len(),
            lv == lines(text@),
            text@ == lossy_utf8(stdout@),
            valid_utf8(stdout@) ==> lossy_utf8(stdout@) == decode_utf8(stdout@),
            forall|k: int| 0 <= k < n ==> (#[trigger] ls@[k])@ == lv[k],
            snapshots_of_lines(lv.take(i as int)) == Ok::<
                Seq<GpuSnapshot>,
                (ErrorKind, Seq<char>),
            >(out@),
        decreases n - i,
    {
        proof {
            assert(lv.take(i + 1).drop_last() =~= lv.take(i as int));
            assert(lv.take(i + 1).last() == lv[i as int]);
        }
        let line = &ls[i];
        assert(line@ == lv[i as int]);
        let parts = split_chars(line, ',');
        if parts.len() != 3 {
            let mut m = String::from_str("unexpected nvidia-smi output line: ");
            push_chars(&mut m, line);
            proof {
                lemma_snapshots_err(lv, i + 1);
            }
            return Err(SchedulerError::new(ErrorKind::InvalidData, m));
        }
        let p0 = trim_chars(&parts[0]);
        let p1 = trim_chars(&parts[1]);
        let p2 = trim_chars(&parts[2]);
        let index = match parse_usize_chars(&p0) {
            Some(v) => v,
            None => {
                proof {
                    lemma_snapshots_err(lv, i + 1);
                }
                return Err(data_error("invalid GPU index from nvidia-smi"));
            },
        };
        let mem = match parse_usize_chars(&p1) {
            Some(v) => v,
            None => {
                proof {
                    lemma_snapshots_err(lv, i + 1);
                }
                return Err(data_error("invalid memory.used from nvidia-smi"));
            },
        };
        let util = match parse_usize_chars(&p2) {
            Some(v) => v,
            None => {
                proof {
                    lemma_snapshots_err(lv, i + 1);
                }
                return Err(data_error("invalid utilization.gpu from nvidia-smi"));
            },
        };
        out.push(GpuSnapshot { index, memory_used_mb: mem, utilization_gpu: util });
        i = i + 1;
    }
    assert(lv.take(n as int) =~= lv);
    Ok(out)
}

/// A GPU is idle when its used memory and its utilization are at most the
/// thresholds.
pub open spec fn idle(g: GpuSnapshot, mem: usize, util: usize) -> bool {
    g.memory_used_mb <= mem && g.utilization_gpu <= util
}

/// Whether the GPU passes the idle check.
pub fn is_gpu_idle(
    snapshot: &GpuSnapshot,
    idle_memory_threshold_mb: usize,
    idle_utilization_threshold: usize,
) -> (r: bool)
    ensures
        r == idle(*snapshot, idle_memory_threshold_mb, idle_utilization_threshold),
{
    snapshot.memory_used_mb <= idle_memory_threshold_mb && snapshot.utilization_gpu
        <= idle_utilization_threshold
}

/// How the idle check works and how to relax it, with the thresholds in use.
pub open spec fn idle_help_text(mem: usize, util: usize) -> Seq<char> {
    "GPU idleness is checked before jobs start:\n  --idle-memory-threshold-mb N       allow a GPU only when memory.used <= N MiB (current: "@
        + dec(mem as nat)
        + ")\n  --idle-utilization-threshold N     allow a GPU only when utilization.gpu <= N% (current: "@
        + dec(util as nat)
        + ")\n\nIf the memory is expected, for example from a harmless display process or cached context, you can relax the check:\n  --idle-memory-threshold-mb 5000 \\\n  --idle-utilization-threshold 40\n\nOnly relax these thresholds when you are sure the existing GPU activity will not conflict with your jobs."@
}

/// How the idle check works, with the thresholds in use.
pub fn idle_threshold_help(idle_memory_threshold_mb: usize, idle_utilization_threshold: usize) -> (r:
    String)
    ensures
        r@ == idle_help_text(idle_memory_threshold_mb, idle_utilization_threshold),
{
    let mut s = String::from_str(
        "GPU idleness is checked before jobs start:\n  --idle-memory-threshold-mb N       allow a GPU only when memory.used <= N MiB (current: ",
    );
    push_usize(&mut s, idle_memory_threshold_mb);
    s.append(
        ")\n  --idle-utilization-threshold N     allow a GPU only when utilization.gpu <= N% (current: ",
    );
    push_usize(&mut s, idle_utilization_threshold);
    s.append(
        ")\n\nIf the memory is expected, for example from a harmless display process or cached context, you can relax the check:\n  --idle-memory-threshold-mb 5000 \\\n  --idle-utilization-threshold 40\n\nOnly relax these thresholds when you are sure the existing GPU activity will not conflict with your jobs.",
    );
    s
}

/// Why a requested GPU is refused: its usage, the thresholds, how to relax
/// them, and the thresholds that this GPU would pass.
pub open spec fn busy_text(device: usize, g: GpuSnapshot, mem: usize, util: usize) -> Seq<char> {
    "CUDA device "@ + dec(device as nat) + " is busy (memory.used="@ + dec(
        g.memory_used_mb as nat,
    ) + " MiB, utilization.gpu="@ + dec(g.utilization_gpu as nat)
        + "%; thresholds: memory.used <= "@ + dec(mem as nat) + " MiB, utilization.gpu <= "@ + dec(
        util as nat,
    ) + "%)\n\n"@ + idle_help_text(mem, util)
        + "\nThis GPU would pass the current check with --idle-memory-threshold-mb "@ + dec(
        g.memory_used_mb as nat,
    ) + " --idle-utilization-threshold "@ + dec(g.utilization_gpu as nat) + "."@
}

/// Why GPU `device` was refused, and the thresholds that would accept it.
pub fn busy_cuda_device_message(
    device: usize,
    snapshot: &GpuSnapshot,
    idle_memory_threshold_mb: usize,
    idle_utilization_threshold: usize,
) -> (r: String)
    ensures
        r@ == busy_text(device, *snapshot, idle_memory_threshold_mb, idle_utilization_threshold),
{
    let mut s = String::from_str("CUDA device ");
    push_usize(&mut s, device);
    s.append(" is busy (memory.used=");
    push_usize(&mut s, snapshot.memory_used_mb);
    s.append(" MiB, utilization.gpu=");
    push_usize(&mut s, snapshot.utilization_gpu);
    s.append("%; thresholds: memory.used <= ");
    push_usize(&mut s, idle_memory_threshold_mb);
    s.append(" MiB, utilization.gpu <= ");
    push_usize(&mut s, idle_utilization_threshold);
    s.append("%)\n\n");
    let help = idle_threshold_help(idle_memory_threshold_mb, idle_utilization_threshold);
    s.append(help.as_str());
    s.append("\nThis GPU would pass the current check with --idle-memory-threshold-mb ");
    push_usize(&mut s, snapshot.memory_used_mb);
    s.append(" --idle-utilization-threshold ");
    push_usize(&mut s, snapshot.utilization_gpu);
    s.append(".");
    s
}

/// The indices of the idle GPUs, in the order reported.
pub open spec fn idle_indices(snaps: Seq<GpuSnapshot>, mem: usize, util: usize) -> Seq<usize>
    decreases snaps.len(),
{
    if snaps.len() == 0 {
        Seq::<usize>::empty()
    } else {
        let r = idle_indices(snaps.drop_last(), mem, util);
        if idle(snaps.last(), mem, util) {
            r.push(snaps.last().index)
        } else {
            r
        }
    }
}

/// The first reported GPU with index `d`, or `-1`.
pub open spec fn snapshot_position(snaps: Seq<GpuSnapshot>, d: usize) -> int
    decreases snaps.len(),
{
    if snaps.len() == 0 {
        -1
    } else if snaps[0].index == d {
        0
    } else {
        let r = snapshot_position(snaps.drop_first(), d);
        if r < 0 {
            -1
        } else {
            r + 1
        }
    }
}

proof fn lemma_snapshot_position(snaps: Seq<GpuSnapshot>, d: usize, k: int)
    requires
        -1 <= k < snaps.len(),
        k >= 0 ==> snaps[k].index == d,
        forall|j: int| 0 <= j < snaps.len() && (k < 0 || j < k) ==> (#[trigger] snaps[j]).index != d,
    ensures
        snapshot_position(snaps, d) == k,
    decreases snaps.len(),
{
    if snaps.len() > 0 && k != 0 {
        let t = snaps.drop_first();
        assert forall|j: int| 0 <= j < t.len() && (k - 1 < 0 || j < k - 1) implies (
        #[trigger] t[j]).index != d by {
            assert(t[j] == snaps[j + 1]);
        }
        if k > 0 {
            assert(t[k - 1] == snaps[k]);
            lemma_snapshot_position(t, d, k - 1);
        } else {
            assert(snaps[0].index != d);
            lemma_snapshot_position(t, d, -1);
        }
    }
}

/// What is wrong with asking for GPU `d`: it is not reported, or not idle.
pub open spec fn device_problem(d: usize, snaps: Seq<GpuSnapshot>, mem: usize, util: usize) -> Option<
    (ErrorKind, Seq<char>),
> {
    let k = snapshot_position(snaps, d);
    if k < 0 {
        Some((ErrorKind::InvalidInput, "CUDA device "@ + dec(d as nat) + " does not exist"@))
    } else if !idle(snaps[k], mem, util) {
        Some((ErrorKind::Other, busy_text(d, snaps[k], mem, util)))
    } else {
        None
    }
}

/// The problem of the first requested GPU that has one.
pub open spec fn explicit_problem(
    devs: Seq<usize>,
    snaps: Seq<GpuSnapshot>,
    mem: usize,
    util: usize,
) -> Option<(ErrorKind, Seq<char>)>
    decreases devs.len(),
{
    if devs.len() == 0 {
        None
    } else {
        match explicit_problem(devs.drop_last(), snaps, mem, util) {
            Some(e) => Some(e),
            None => device_problem(devs.last(), snaps, mem, util),
        }
    }
}

proof fn lemma_explicit_problem(devs: Seq<usize>, snaps: Seq<GpuSnapshot>, mem: usize, util: usize, i: int)
    requires
        0 <= i <= devs.len(),
        explicit_problem(devs.take(i), snaps, mem, util) is Some,
    ensures
        explicit_problem(devs, snaps, mem, util) == explicit_problem(devs.take(i), snaps, mem, util),
    decreases devs.len() - i,
{
    if i == devs.len() {
        assert(devs.take(i) =~= devs);
    } else {
        assert(devs.take(i + 1).drop_last() =~= devs.take(i));
        lemma_explicit_problem(devs, snaps, mem, util, i + 1);
    }
}

/// The GPUs a run may use, decided once at startup: for `auto` the idle ones
/// (an error where there is none); for `none` no GPU; for a list exactly the
/// listed GPUs, each of which must be reported and idle.
pub open spec fn resolve_spec(
    sel: CudaSelection,
    snaps: Seq<GpuSnapshot>,
    mem: usize,
    util: usize,
) -> Result<Seq<usize>, (ErrorKind, Seq<char>)> {
    match sel {
        CudaSelection::Auto => {
            let d = idle_indices(snaps, mem, util);
            if d.len() == 0 {
                Err(
                    (
                        ErrorKind::Other,
                        "auto mode found no idle CUDA devices\n\n"@ + idle_help_text(mem, util),
                    ),
                )
            } else {
                Ok(d)
            }
        },
        CudaSelection::Disabled => Ok(Seq::<usize>::empty()),
        CudaSelection::Explicit(devs) => match explicit_problem(devs, snaps, mem, util) {
            Some(e) => Err(e),
            None => Ok(devs),
        },
    }
}

pub open spec fn ids_result_view(r: Result<Vec<usize>, SchedulerError>) -> Result<
    Seq<usize>,
    (ErrorKind, Seq<char>),
> {
    match r {
        Ok(v) => Ok(v@),
        Err(e) => Err(err_view(e)),
    }
}

fn find_snapshot(snaps: &Vec<GpuSnapshot>, d: usize) -> (r: Option<usize>)
    ensures
        match r {
            Some(k) => k == snapshot_position(snaps@, d) && k < snaps@.len() && snaps@[k as int].index
                == d,
            None => snapshot_position(snaps@, d) < 0,
        },
{
    let n = snaps.len();
    let mut i: usize = 0;
    while i < n
        invariant
            i <= n == snaps@.len(),
            forall|j: int| 0 <= j < i ==> (#[trigger] snaps@[j]).index != d,
        decreases n - i,
    {
        if snaps[i].index == d {
            proof {
                lemma_snapshot_position(snaps@, d, i as int);
            }
            return Some(i);
        }
        i = i + 1;
    }
    proof {
        lemma_snapshot_position(snaps@, d, -1);
    }
    None
}

fn resolve_auto_cuda_devices(
    snapshots: &Vec<GpuSnapshot>,
    idle_memory_threshold_mb: usize,
    idle_utilization_threshold: usize,
) -> (r: Result<Vec<usize>, SchedulerError>)
    ensures
        ids_result_view(r) == resolve_spec(
            CudaSelection::Auto,
            snapshots@,
            idle_memory_threshold_mb,
            idle_utilization_threshold,
        ),
{
    let ghost mem = idle_memory_threshold_mb;
    let ghost util = idle_utilization_threshold;
    let n = snapshots.len();
    let mut devices: Vec<usize> = Vec::new();
    let mut i: usize = 0;
    while i < n
        invariant
            i <= n == snapshots@.len(),
            mem == idle_memory_threshold_mb,
            util == idle_utilization_threshold,
            devices@ == idle_indices(snapshots@.take(i as int), mem, util),
        decreases n - i,
    {
        proof {
            assert(snapshots@.take(i + 1).drop_last() =~= snapshots@.take(i as int));
            assert(snapshots@.take(i + 1).last() == snapshots@[i as int]);
        }
        if is_gpu_idle(&snapshots[i], idle_memory_threshold_mb, idle_utilization_threshold) {
            devices.push(snapshots[i].index);
        }
        i = i + 1;
    }
    assert(snapshots@.take(n as int) =~= snapshots@);
    if devices.len() == 0 {
        let mut m = String::from_str("auto mode found no idle CUDA devices\n\n");
        let help = idle_threshold_help(idle_memory_threshold_mb, idle_utilization_threshold);
        m.append(help.as_str());
        Err(SchedulerError::new(ErrorKind::Other, m))
    } else {
        Ok(devices)
    }
}

fn validate_explicit_cuda_devices(
    devices: &Vec<usize>,
    snapshots: &Vec<GpuSnapshot>,
    idle_memory_threshold_mb: usize,
    idle_utilization_threshold: usize,
) -> (r: Result<Vec<usize>, SchedulerError>)
    ensures
        ids_result_view(r) == resolve_spec(
            CudaSelection::Explicit(devices@),
            snapshots@,
            idle_memory_threshold_mb,
            idle_utilization_threshold,
        ),
{
    let ghost mem = idle_memory_threshold_mb;
    let ghost util = idle_utilization_threshold;
    let n = devices.len();
    let mut checked: Vec<usize> = Vec::new();
    let mut i: usize = 0;
    while i < n
        invariant
            i <= n == devices@.len(),
            mem == idle_memory_threshold_mb,
            util == idle_utilization_threshold,
            explicit_problem(devices@.take(i as int), snapshots@, mem, util) is None,
            checked@ == devices@.take(i as int),
        decreases n - i,
    {
        proof {
            assert(devices@.take(i + 1).drop_last() =~= devices@.take(i as int));
            assert(devices@.take(i + 1).last() == devices@[i as int]);
        }
        let device = devices[i];
        match find_snapshot(snapshots, device) {
            None => {
                let mut m = String::from_str("CUDA device ");
                push_usize(&mut m, device);
                m.append(" does not exist");
                proof {
                    lemma_explicit_problem(devices@, snapshots@, mem, util, i + 1);
                }
                return Err(SchedulerError::new(ErrorKind::InvalidInput, m));
            },
            Some(k) => {
                let snapshot = &snapshots[k];
                if !is_gpu_idle(snapshot, idle_memory_threshold_mb, idle_utilization_threshold) {
                    let m = busy_cuda_device_message(
                        device,
                        snapshot,
                        idle_memory_threshold_mb,
                        idle_utilization_threshold,
                    );
                    proof {
                        lemma_explicit_problem(devices@, snapshots@, mem, util, i + 1);
                    }
                    return Err(SchedulerError::new(ErrorKind::Other, m));
                }
            },
        }
        checked.push(device);
        i = i + 1;
        assert(checked@ =~= devices@.take(i as int));
    }
    assert(devices@.take(n as int) =~= devices@);
    Ok(checked)
}

/// The GPUs of this run, from the selection and what `nvidia-smi` reported
/// (which `none` does not read).
pub fn resolve_cuda_devices(
    selection: &CudaDevicesArg,
    idle_memory_threshold_mb: usize,
    idle_utilization_threshold: usize,
    snapshots: &Vec<GpuSnapshot>,
) -> (r: Result<Vec<usize>, SchedulerError>)
    ensures
        ids_result_view(r) == resolve_spec(
            cuda_view(*selection),
            snapshots@,
            idle_memory_threshold_mb,
            idle_utilization_threshold,
        ),
{
    match selection {
        CudaDevicesArg::Auto => resolve_auto_cuda_devices(
            snapshots,
            idle_memory_threshold_mb,
            idle_utilization_threshold,
        ),
        CudaDevicesArg::Disabled => Ok(Vec::new()),
        CudaDevicesArg::Explicit(devices) => validate_explicit_cuda_devices(
            devices,
            snapshots,
            idle_memory_threshold_mb,
            idle_utilization_threshold,
        ),
    }
}

/// Whether resolving the selection reads what `nvidia-smi` reports.
pub fn needs_gpu_query(selection: &CudaDevicesArg) -> (r: bool)
    ensures
        r == !(cuda_view(*selection) is Disabled),
{
    match selection {
        CudaDevicesArg::Disabled => false,
        _ => true,
    }
}

/// Whether `nvidia-smi` reported GPU `d` as idle.
pub open spec fn reported_idle(snaps: Seq<GpuSnapshot>, d: usize, mem: usize, util: usize) -> bool {
    exists|j: int| 0 <= j < snaps.len() && (#[trigger] snaps[j]).index == d && idle(snaps[j], mem, util)
}

proof fn lemma_position_found(snaps: Seq<GpuSnapshot>, d: usize)
    ensures
        snapshot_position(snaps, d) < snaps.len(),
        snapshot_position(snaps, d) >= 0 ==> snaps[snapshot_position(snaps, d)].index == d,
    decreases snaps.len(),
{
    if snaps.len() > 0 && snaps[0].index != d {
        lemma_position_found(snaps.drop_first(), d);
    }
}

proof fn lemma_idle_indices(snaps: Seq<GpuSnapshot>, mem: usize, util: usize)
    ensures
        forall|k: int|
            0 <= k < idle_indices(snaps, mem, util).len() ==> reported_idle(
                snaps,
                #[trigger] idle_indices(snaps, mem, util)[k],
                mem,
                util,
            ),
        forall|j: int|
            0 <= j < snaps.len() && idle(#[trigger] snaps[j], mem, util) ==> idle_indices(
                snaps,
                mem,
                util,
            ).contains(snaps[j].index),
    decreases snaps.len(),
{
    if snaps.len() > 0 {
        let rest = snaps.drop_last();
        let r = idle_indices(rest, mem, util);
        let d = idle_indices(snaps, mem, util);
        lemma_idle_indices(rest, mem, util);
        assert forall|k: int| 0 <= k < d.len() implies reported_idle(snaps, #[trigger] d[k], mem, util) by {
            if k < r.len() {
                assert(d[k] == r[k]);
                let j = choose|j: int|
                    0 <= j < rest.len() && (#[trigger] rest[j]).index == r[k] && idle(rest[j], mem, util);
                assert(snaps[j] == rest[j]);
            } else {
                assert(snaps[snaps.len() - 1] == snaps.last());
            }
        }
        assert forall|j: int| 0 <= j < snaps.len() && idle(#[trigger] snaps[j], mem, util) implies d.contains(
            snaps[j].index,
        ) by {
            if j < rest.len() {
                assert(rest[j] == snaps[j]);
                let k = choose|k: int| 0 <= k < r.len() && r[k] == rest[j].index;
                assert(d[k] == r[k]);
            } else {
                assert(snaps[j] == snaps.last());
                assert(d[d.len() - 1] == snaps[j].index);
            }
        }
    }
}

proof fn lemma_explicit_accepted(devs: Seq<usize>, snaps: Seq<GpuSnapshot>, mem: usize, util: usize)
    requires
        explicit_problem(devs, snaps, mem, util) is None,
    ensures
        forall|k: int| 0 <= k < devs.len() ==> reported_idle(snaps, #[trigger] devs[k], mem, util),
    decreases devs.len(),
{
    if devs.len() > 0 {
        let rest = devs.drop_last();
        lemma_explicit_accepted(rest, snaps, mem, util);
        let last = devs.last();
        lemma_position_found(snaps, last);
        let p = snapshot_position(snaps, last);
        assert(snaps[p].index == last && idle(snaps[p], mem, util));
        assert forall|k: int| 0 <= k < devs.len() implies reported_idle(snaps, #[trigger] devs[k], mem, util) by {
            if k < rest.len() {
                assert(devs[k] == rest[k]);
            } else {
                assert(devs[k] == last);
            }
        }
    }
}

/// The GPUs of a run are decided once, from what `nvidia-smi` reported at
/// startup: every GPU of the run was reported idle; `auto` takes exactly the
/// idle GPUs, in the order reported, so that none of them is left out; an
/// explicit list is used exactly as given, never silently reduced (it is
/// accepted whole or refused); `none` gives no GPU.
pub proof fn lemma_resolved_devices(sel: CudaSelection, snaps: Seq<GpuSnapshot>, mem: usize, util: usize)
    ensures
        resolve_spec(sel, snaps, mem, util) matches Ok(d) ==> forall|k: int|
            0 <= k < d.len() ==> reported_idle(snaps, #[trigger] d[k], mem, util),
        sel is Auto ==> (resolve_spec(sel, snaps, mem, util) matches Ok(d) ==> d == idle_indices(
            snaps,
            mem,
            util,
        ) && forall|j: int|
            0 <= j < snaps.len() && idle(#[trigger] snaps[j], mem, util) ==> d.contains(snaps[j].index)),
        sel matches CudaSelection::Explicit(devs) ==> (resolve_spec(sel, snaps, mem, util) matches Ok(d)
            ==> d == devs),
        sel is Disabled ==> resolve_spec(sel, snaps, mem, util) == Ok::<Seq<usize>, (ErrorKind, Seq<char>)>(
            Seq::empty(),
        ),
{
    lemma_idle_indices(snaps, mem, util);
    if let CudaSelection::Explicit(devs) = sel {
        if explicit_problem(devs, snaps, mem, util) is None {
            lemma_explicit_accepted(devs, snaps, mem, util);
        }
    }
}

} // verus!
