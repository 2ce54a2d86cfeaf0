//! The command line: options, their values, and how arguments are read.
use vstd::prelude::*;

use crate::script::{first_index, lemma_first_index};
use crate::sorted::{insert_sorted_unique, lemma_sort_unique, sort_unique, strictly_increasing};
use crate::text::{
    chars_eq, chars_of, opt_string_view, parse_u64, parse_u64_chars, parse_usize,
    parse_usize_chars, push_chars, split, split_chars, sub_chars, trim, trim_chars,
};

verus! {

/// The position of the first `c` in `v`, as `first_index` gives it.
pub fn find_char(v: &Vec<char>, c: char) -> (r: Option<usize>)
    ensures
        match r {
            Some(k) => k == first_index(v@, c),
            None => first_index(v@, c) < 0,
        },
{
    let n = v.len();
    let mut i: usize = 0;
    while i < n
        invariant
            i <= n == v@.len(),
            forall|k: int| 0 <= k < i ==> v@[k] != c,
        decreases n - i,
    {
        if v[i] == c {
            proof {
                lemma_first_index(v@, c);
                let f = first_index(v@, c);
                if f >= 0 && f < i {
                    assert(v@[f] != c);
                }
                if f < 0 || f > i {
                    assert(v@[i as int] != c);
                }
            }
            return Some(i);
        }
        i = i + 1;
    }
    proof {
        lemma_first_index(v@, c);
        let f = first_index(v@, c);
        if f >= 0 {
            assert(v@[f] != c);
        }
    }
    None
}

// ---------------------------------------------------------------------------
// --cuda-devices
// ---------------------------------------------------------------------------

/// Which GPUs a run may use.
#[derive(Debug, Clone, PartialEq, Eq)]
pub enum CudaDevicesArg {
    /// The GPUs found idle at startup.
    Auto,
    /// No GPU, and no `CUDA_VISIBLE_DEVICES` (`--cuda-devices none`).
    Disabled,
    /// Exactly these GPUs, each of which must be idle at startup.
    Explicit(Vec<usize>),
}

/// The value of a `CudaDevicesArg`.
pub enum CudaSelection {
    Auto,
    Disabled,
    Explicit(Seq<usize>),
}

pub open spec fn cuda_view(a: CudaDevicesArg) -> CudaSelection {
    match a {
        CudaDevicesArg::Auto => CudaSelection::Auto,
        CudaDevicesArg::Disabled => CudaSelection::Disabled,
        CudaDevicesArg::Explicit(v) => CudaSelection::Explicit(v@),
    }
}

/// One comma-separated piece of a device list: a device id, trimmed.
pub open spec fn cuda_part(p: Seq<char>, value: Seq<char>) -> Result<usize, Seq<char>> {
    let t = trim(p);
    if t.len() == 0 {
        Err("invalid --cuda-devices value: "@ + value)
    } else {
        match parse_usize(t) {
            Some(n) => Ok(n),
            None => Err("invalid CUDA device id in --cuda-devices: "@ + t),
        }
    }
}

/// The ids of the pieces, in order, or the error of the first bad piece.
pub open spec fn cuda_ids(parts: Seq<Seq<char>>, value: Seq<char>) -> Result<Seq<usize>, Seq<char>>
    decreases parts.len(),
{
    if parts.len() == 0 {
        Ok(Seq::<usize>::empty())
    } else {
        match cuda_ids(parts.drop_last(), value) {
            Err(e) => Err(e),
            Ok(r) => match cuda_part(parts.last(), value) {
                Ok(n) => Ok(r.push(n)),
                Err(e) => Err(e),
            },
        }
    }
}

proof fn lemma_cuda_ids_err(parts: Seq<Seq<char>>, value: Seq<char>, i: int)
    requires
        0 <= i <= parts.len(),
        cuda_ids(parts.take(i), value) is Err,
    ensures
        cuda_ids(parts, value) == cuda_ids(parts.take(i), value),
    decreases parts.len() - i,
{
    if i == parts.len() {
        assert(parts.take(i) =~= parts);
    } else {
        assert(parts.take(i + 1).drop_last() =~= parts.take(i));
        lemma_cuda_ids_err(parts, value, i + 1);
    }
}

/// `auto`, `none`, or a comma-separated list of device ids, which becomes the
/// increasing list of those ids, each once.
pub open spec fn cuda_devices_spec(value: Seq<char>) -> Result<CudaSelection, Seq<char>> {
    if value == "auto"@ {
        Ok(CudaSelection::Auto)
    } else if value == "none"@ {
        Ok(CudaSelection::Disabled)
    } else {
        match cuda_ids(split(value, ','), value) {
            Err(e) => Err(e),
            Ok(ids) => if ids.len() == 0 {
                Err("--cuda-devices cannot be empty"@)
            } else {
                Ok(CudaSelection::Explicit(sort_unique(ids)))
            },
        }
    }
}

pub open spec fn cuda_result_view(r: Result<CudaDevicesArg, String>) -> Result<CudaSelection, Seq<char>> {
    match r {
        Ok(a) => Ok(cuda_view(a)),
        Err(e) => Err(e@),
    }
}

fn message_with(prefix: &str, tail: &Vec<char>) -> (r: String)
    ensures
        r@ == prefix@ + tail@,
{
    let mut m = String::from_str(prefix);
    push_chars(&mut m, tail);
    m
}

/// Reads the value of `--cuda-devices`.
pub fn parse_cuda_devices_arg(value: &str) -> (r: Result<CudaDevicesArg, String>)
    ensures
        cuda_result_view(r) == cuda_devices_spec(value@),
        r matches Ok(CudaDevicesArg::Explicit(v)) ==> strictly_increasing(v@) && v@.len() > 0,
{
    let chars = chars_of(value);
    if chars_eq(&chars, &chars_of("auto")) {
        return Ok(CudaDevicesArg::Auto);
    }
    if chars_eq(&chars, &chars_of("none")) {
        return Ok(CudaDevicesArg::Disabled);
    }
    let parts = split_chars(&chars, ',');
    let ghost ps = split(value@, ',');
    let ghost mut ids: Seq<usize> = Seq::empty();
    let mut devices: Vec<usize> = Vec::new();
    let n = parts.len();
    let mut i: usize = 0;
    while i < n
        invariant
            i <= n == parts@.len() == ps.len(),
            ps == split(value@, ','),
            chars@ == value@,
            value@ != "auto"@,
            value@ != "none"@,
            forall|k: int| 0 <= k < n ==> (#[trigger] parts@[k])@ == ps[k],
            cuda_ids(ps.take(i as int), value@) == Ok::<Seq<usize>, Seq<char>>(ids),
            devices@ == sort_unique(ids),
            strictly_increasing(devices@),
        decreases n - i,
    {
        proof {
            assert(ps.take(i + 1).drop_last() =~= ps.take(i as int));
            assert(ps.take(i + 1).last() == ps[i as int]);
        }
        let t = trim_chars(&parts[i]);
        assert(parts@[i as int]@ == ps[i as int]);
        assert(t@ == trim(ps[i as int]));
        if t.len() == 0 {
            proof {
                assert(cuda_ids(ps.take(i + 1), value@) == Err::<Seq<usize>, Seq<char>>(
                    "invalid --cuda-devices value: "@ + value@,
                ));
                lemma_cuda_ids_err(ps, value@, i + 1);
            }
            return Err(message_with("invalid --cuda-devices value: ", &chars));
        }
        match parse_usize_chars(&t) {
            Some(id) => {
                let ghost old_ids = ids;
                insert_sorted_unique(&mut devices, id);
                proof {
                    ids = old_ids.push(id);
                    assert(ids.drop_last() =~= old_ids);
                    assert(ids.last() == id);
                }
            },
            None => {
                proof {
                    assert(cuda_ids(ps.take(i + 1), value@) == Err::<Seq<usize>, Seq<char>>(
                        "invalid CUDA device id in --cuda-devices: "@ + t@,
                    ));
                    lemma_cuda_ids_err(ps, value@, i + 1);
                }
                return Err(message_with("invalid CUDA device id in --cuda-devices: ", &t));
            },
        }
        i = i + 1;
    }
    proof {
        assert(ps.take(n as int) =~= ps);
        lemma_sort_unique(ids);
        crate::text::lemma_split_nonempty(value@, ',');
        assert(ps.take(1).drop_last() =~= ps.take(0));
    }
    if devices.len() == 0 {
        proof {
            if ids.len() > 0 {
                assert(sort_unique(ids).contains(ids[0]));
            }
        }
        return Err(String::from_str("--cuda-devices cannot be empty"));
    }
    proof {
        if ids.len() == 0 {
            assert(sort_unique(ids) =~= Seq::<usize>::empty());
        }
    }
    Ok(CudaDevicesArg::Explicit(devices))
}

// ---------------------------------------------------------------------------
// --cpu-cores
// ---------------------------------------------------------------------------

/// Which logical CPU cores a run splits into slots.
#[derive(Debug, Clone, PartialEq, Eq)]
pub enum CpuCoresArg {
    /// No core slots (`--cpu-cores none`).
    Disabled,
    /// All the logical cores of the machine.
    Auto,
    /// Exactly these cores.
    Explicit(Vec<usize>),
}

/// The value of a `CpuCoresArg`.
pub enum CoresSelection {
    Disabled,
    Auto,
    Explicit(Seq<usize>),
}

pub open spec fn cores_view(a: CpuCoresArg) -> CoresSelection {
    match a {
        CpuCoresArg::Disabled => CoresSelection::Disabled,
        CpuCoresArg::Auto => CoresSelection::Auto,
        CpuCoresArg::Explicit(v) => CoresSelection::Explicit(v@),
    }
}

/// The ids `lo, lo + 1, ..., hi`.
pub open spec fn core_range(lo: usize, hi: usize) -> Seq<usize> {
    Seq::new((hi - lo + 1) as nat, |k: int| (lo + k) as usize)
}

/// One comma-separated piece of a core list, trimmed: an id, or an inclusive
/// range `A-B` with `A <= B` split at its first `-`.
pub open spec fn core_part(p: Seq<char>, value: Seq<char>) -> Result<Seq<usize>, Seq<char>> {
    let t = trim(p);
    if t.len() == 0 {
        Err("invalid --cpu-cores value: "@ + value)
    } else {
        let k = first_index(t, '-');
        if k >= 0 {
            match (parse_usize(t.take(k)), parse_usize(t.skip(k + 1))) {
                (Some(a), Some(b)) => if a > b {
                    Err("invalid descending CPU core range: "@ + t)
                } else {
                    Ok(core_range(a, b))
                },
                _ => Err("invalid CPU core range in --cpu-cores: "@ + t),
            }
        } else {
            match parse_usize(t) {
                Some(x) => Ok(seq![x]),
                None => Err("invalid CPU core id in --cpu-cores: "@ + t),
            }
        }
    }
}

/// The cores of the pieces, in order, or the error of the first bad piece.
pub open spec fn core_ids(parts: Seq<Seq<char>>, value: Seq<char>) -> Result<Seq<usize>, Seq<char>>
    decreases parts.len(),
{
    if parts.len() == 0 {
        Ok(Seq::<usize>::empty())
    } else {
        match core_ids(parts.drop_last(), value) {
            Err(e) => Err(e),
            Ok(r) => match core_part(parts.last(), value) {
                Ok(c) => Ok(r + c),
                Err(e) => Err(e),
            },
        }
    }
}

proof fn lemma_core_ids_err(parts: Seq<Seq<char>>, value: Seq<char>, i: int)
    requires
        0 <= i <= parts.len(),
        core_ids(parts.take(i), value) is Err,
    ensures
        core_ids(parts, value) == core_ids(parts.take(i), value),
    decreases parts.len() - i,
{
    if i == parts.len() {
        assert(parts.take(i) =~= parts);
    } else {
        assert(parts.take(i + 1).drop_last() =~= parts.take(i));
        lemma_core_ids_err(parts, value, i + 1);
    }
}

/// A core list: the increasing list of the listed cores, each once.
pub open spec fn core_list_spec(value: Seq<char>) -> Result<Seq<usize>, Seq<char>> {
    match core_ids(split(value, ','), value) {
        Err(e) => Err(e),
        Ok(ids) => if ids.len() == 0 {
            Err("--cpu-cores cannot be empty"@)
        } else {
            Ok(sort_unique(ids))
        },
    }
}

/// `none`, `auto`, or a core list.
pub open spec fn cpu_cores_spec(value: Seq<char>) -> Result<CoresSelection, Seq<char>> {
    if value == "none"@ {
        Ok(CoresSelection::Disabled)
    } else if value == "auto"@ {
        Ok(CoresSelection::Auto)
    } else {
        match core_list_spec(value) {
            Ok(v) => Ok(CoresSelection::Explicit(v)),
            Err(e) => Err(e),
        }
    }
}

pub open spec fn cores_result_view(r: Result<CpuCoresArg, String>) -> Result<CoresSelection, Seq<char>> {
    match r {
        Ok(a) => Ok(cores_view(a)),
        Err(e) => Err(e@),
    }
}

pub open spec fn core_list_result_view(r: Result<Vec<usize>, String>) -> Result<Seq<usize>, Seq<char>> {
    match r {
        Ok(v) => Ok(v@),
        Err(e) => Err(e@),
    }
}

/// Puts the cores `lo..=hi` into the increasing list `cores`.
fn insert_core_range(cores: &mut Vec<usize>, lo: usize, hi: usize, Ghost(ids): Ghost<Seq<usize>>)
    requires
        lo <= hi,
        old(cores)@ == sort_unique(ids),
        strictly_increasing(old(cores)@),
    ensures
        final(cores)@ == sort_unique(ids + core_range(lo, hi)),
        strictly_increasing(final(cores)@),
{
    let ghost mut all = ids;
    let mut c = lo;
    loop
        invariant
            lo <= c <= hi,
            all == ids + core_range(lo, hi).take(c - lo),
            cores@ == sort_unique(all),
            strictly_increasing(cores@),
        decreases hi - c,
    {
        let ghost prev = all;
        insert_sorted_unique(cores, c);
        proof {
            all = prev.push(c);
            assert(all.drop_last() =~= prev);
            assert(all.last() == c);
            assert(all =~= ids + core_range(lo, hi).take(c + 1 - lo));
        }
        if c == hi {
            assert(core_range(lo, hi).take(c + 1 - lo) =~= core_range(lo, hi));
            return ;
        }
        c = c + 1;
    }
}

/// Reads a core list such as `0-15,32-47`.
pub fn parse_cpu_core_list(value: &str) -> (r: Result<Vec<usize>, String>)
    ensures
        core_list_result_view(r) == core_list_spec(value@),
        r matches Ok(v) ==> strictly_increasing(v@) && v@.len() > 0,
{
    let chars = chars_of(value);
    let parts = split_chars(&chars, ',');
    let ghost ps = split(value@, ',');
    let ghost mut ids: Seq<usize> = Seq::empty();
    let mut cores: Vec<usize> = Vec::new();
    let n = parts.len();
    let mut i: usize = 0;
    while i < n
        invariant
            i <= n == parts@.len() == ps.len(),
            ps == split(value@, ','),
            chars@ == value@,
            forall|k: int| 0 <= k < n ==> (#[trigger] parts@[k])@ == ps[k],
            core_ids(ps.take(i as int), value@) == Ok::<Seq<usize>, Seq<char>>(ids),
            cores@ == sort_unique(ids),
            strictly_increasing(cores@),
        decreases n - i,
    {
        proof {
            assert(ps.take(i + 1).drop_last() =~= ps.take(i as int));
            assert(ps.take(i + 1).last() == ps[i as int]);
        }
        let t = trim_chars(&parts[i]);
        assert(parts@[i as int]@ == ps[i as int]);
        assert(t@ == trim(ps[i as int]));
        if t.len() == 0 {
            proof {
                assert(core_ids(ps.take(i + 1), value@) == Err::<Seq<usize>, Seq<char>>(
                    "invalid --cpu-cores value: "@ + value@,
                ));
                lemma_core_ids_err(ps, value@, i + 1);
            }
            return Err(message_with("invalid --cpu-cores value: ", &chars));
        }
        match find_char(&t, '-') {
            Some(k) => {
                proof {
                    lemma_first_index(t@, '-');
                }
                let start = sub_chars(&t, 0, k);
                let end = sub_chars(&t, k + 1, t.len());
                assert(start@ =~= t@.take(k as int));
                assert(end@ =~= t@.skip(k + 1));
                let a = parse_usize_chars(&start);
                let b = parse_usize_chars(&end);
                if a.is_none() || b.is_none() {
                    proof {
                        assert(core_ids(ps.take(i + 1), value@) == Err::<Seq<usize>, Seq<char>>(
                            "invalid CPU core range in --cpu-cores: "@ + t@,
                        ));
                        lemma_core_ids_err(ps, value@, i + 1);
                    }
                    return Err(message_with("invalid CPU core range in --cpu-cores: ", &t));
                }
                let lo = a.unwrap();
                let hi = b.unwrap();
                if lo > hi {
                    proof {
                        assert(core_ids(ps.take(i + 1), value@) == Err::<Seq<usize>, Seq<char>>(
                            "invalid descending CPU core range: "@ + t@,
                        ));
                        lemma_core_ids_err(ps, value@, i + 1);
                    }
                    return Err(message_with("invalid descending CPU core range: ", &t));
                }
                insert_core_range(&mut cores, lo, hi, Ghost(ids));
                proof {
                    ids = ids + core_range(lo, hi);
                }
            },
            None => {
                match parse_usize_chars(&t) {
                    Some(x) => {
                        let ghost prev = ids;
                        insert_sorted_unique(&mut cores, x);
                        proof {
                            ids = prev.push(x);
                            assert(ids.drop_last() =~= prev);
                            assert(prev + seq![x] =~= ids);
                        }
                    },
                    None => {
                        proof {
                            assert(core_ids(ps.take(i + 1), value@) == Err::<Seq<usize>, Seq<char>>(
                                "invalid CPU core id in --cpu-cores: "@ + t@,
                            ));
                            lemma_core_ids_err(ps, value@, i + 1);
                        }
                        return Err(message_with("invalid CPU core id in --cpu-cores: ", &t));
                    },
                }
            },
        }
        i = i + 1;
    }
    proof {
        assert(ps.take(n as int) =~= ps);
        lemma_sort_unique(ids);
    }
    if cores.len() == 0 {
        proof {
            if ids.len() > 0 {
                assert(sort_unique(ids).contains(ids[0]));
            }
        }
        return Err(String::from_str("--cpu-cores cannot be empty"));
    }
    proof {
        if ids.len() == 0 {
            assert(sort_unique(ids) =~= Seq::<usize>::empty());
        }
    }
    Ok(cores)
}

/// Reads the value of `--cpu-cores`.
pub fn parse_cpu_cores_arg(value: &str) -> (r: Result<CpuCoresArg, String>)
    ensures
        cores_result_view(r) == cpu_cores_spec(value@),
        r matches Ok(CpuCoresArg::Explicit(v)) ==> strictly_increasing(v@) && v@.len() > 0,
{
    let chars = chars_of(value);
    if chars_eq(&chars, &chars_of("none")) {
        return Ok(CpuCoresArg::Disabled);
    }
    if chars_eq(&chars, &chars_of("auto")) {
        return Ok(CpuCoresArg::Auto);
    }
    match parse_cpu_core_list(value) {
        Ok(cores) => Ok(CpuCoresArg::Explicit(cores)),
        Err(e) => Err(e),
    }
}

// ---------------------------------------------------------------------------
// --scheduler-name and positive counts
// ---------------------------------------------------------------------------

/// ASCII letters and digits, `_`, `-` and `.`.
pub open spec fn name_char_ok(c: char) -> bool {
    let u = c as u32;
    ||| 48 <= u <= 57
    ||| 65 <= u <= 90
    ||| 97 <= u <= 122
    ||| u == 95
    ||| u == 45
    ||| u == 46
}

pub open spec fn scheduler_name_spec(value: Seq<char>) -> Result<Seq<char>, Seq<char>> {
    if value.len() == 0 {
        Err("--scheduler-name cannot be empty"@)
    } else if forall|k: int| 0 <= k < value.len() ==> name_char_ok(#[trigger] value[k]) {
        Ok(value)
    } else {
        Err("invalid --scheduler-name value: "@ + value
            + "; use only ASCII letters, digits, '_', '-', or '.'"@)
    }
}

pub open spec fn string_result_view(r: Result<String, String>) -> Result<Seq<char>, Seq<char>> {
    match r {
        Ok(v) => Ok(v@),
        Err(e) => Err(e@),
    }
}

/// Reads the value of `--scheduler-name`.
pub fn parse_scheduler_name_arg(value: &str) -> (r: Result<String, String>)
    ensures
        string_result_view(r) == scheduler_name_spec(value@),
{
    let chars = chars_of(value);
    if chars.len() == 0 {
        return Err(String::from_str("--scheduler-name cannot be empty"));
    }
    let n = chars.len();
    let mut i: usize = 0;
    while i < n
        invariant
            i <= n == chars@.len(),
            chars@ == value@,
            forall|k: int| 0 <= k < i ==> name_char_ok(#[trigger] chars@[k]),
        decreases n - i,
    {
        let u = chars[i] as u32;
        if !((48 <= u && u <= 57) || (65 <= u && u <= 90) || (97 <= u && u <= 122) || u == 95 || u
            == 45 || u == 46) {
            assert(!name_char_ok(value@[i as int]));
            let mut m = String::from_str("invalid --scheduler-name value: ");
            m.append(value);
            m.append("; use only ASCII letters, digits, '_', '-', or '.'");
            return Err(m);
        }
        i = i + 1;
    }
    Ok(String::from_str(value))
}

pub open spec fn positive_spec(option: Seq<char>, value: Seq<char>) -> Result<usize, Seq<char>> {
    match parse_usize(value) {
        None => Err("invalid "@ + option + " value: "@ + value),
        Some(n) => if n == 0 {
            Err(option + " must be positive"@)
        } else {
            Ok(n)
        },
    }
}

pub open spec fn usize_result_view(r: Result<usize, String>) -> Result<usize, Seq<char>> {
    match r {
        Ok(v) => Ok(v),
        Err(e) => Err(e@),
    }
}

/// Reads the positive count given to `option`.
pub fn parse_positive_usize_arg(option: &str, value: &str) -> (r: Result<usize, String>)
    ensures
        usize_result_view(r) == positive_spec(option@, value@),
{
    let chars = chars_of(value);
    match parse_usize_chars(&chars) {
        None => {
            let mut m = String::from_str("invalid ");
            m.append(option);
            m.append(" value: ");
            m.append(value);
            Err(m)
        },
        Some(n) => {
            if n == 0 {
                let mut m = String::from_str(option);
                m.append(" must be positive");
                Err(m)
            } else {
                Ok(n)
            }
        },
    }
}

// ---------------------------------------------------------------------------
// Help
// ---------------------------------------------------------------------------

pub const HELP_TEXT: &'static str = "tiny-exp-scheduler\n\nA minimal tmux-based scheduler for explicit shell commands on selected CUDA devices.\n\nUSAGE:\n  tiny-exp-scheduler run [COMMANDS_FILE] [OPTIONS]\n  cat commands.txt | tiny-exp-scheduler run [OPTIONS]\n  tiny-exp-scheduler -h | --help\n\nMODEL:\n  Run inside an existing tmux session.\n  The current tab becomes an available scheduler tab, such as __sched__.\n  Job tabs are appended after it.\n  The scheduler tab stays open for the final summary.\n\nOPTIONS:\n  --logs-dir DIR      Directory for log and exit-code files. Default: logs\n  --scheduler-name NAME\n                      Stable tmux namespace for this run. Window: __sched_NAME__.\n                      Jobs: NAME_job_1, NAME_job_2, ...\n  --cpu-threads N     Limit CPU compute threads per job by setting common\n                      OpenMP/BLAS/PyTorch environment variables.\n  --cpu-cores ARG     CPU core pool for affinity allocation: 'auto', 'none',\n                      or a comma-separated list/range like 0-15,32-47.\n                      Default: none\n  --cpus-per-job N    Number of CPU cores to allocate per running job.\n                      Required for --cpu-cores auto.\n  --cuda-devices ARG  'auto', 'none', or a comma-separated list like 0,2,5.\n                      Default: auto\n  --idle-memory-threshold-mb N\n                      Max memory.used for an idle GPU. Default: 64\n  --idle-utilization-threshold N\n                      Max utilization.gpu for an idle GPU. Default: 0\n  --tick-seconds N    Scheduler polling interval in seconds. Default: 1\n  --dry-run           Resolve GPUs and print the plan without touching tmux.\n  --keep-job-tabs     Keep finished job tabs open in tmux. Default: off\n  --verbose           Print per-job runtime events in the scheduler tab.\n  -h, --help          Show this help message.\n\nCUDA DEVICES:\n  auto                Detect idle GPUs once at startup and freeze that set.\n  none                Do not allocate GPUs or set CUDA_VISIBLE_DEVICES.\n  0,2,5               Use exactly these GPUs; all must already be idle.\n  idle rule           memory.used <= memory threshold and utilization.gpu <= utilization threshold\n  startup output      Prints the final CUDA device range.\n\nCPU CORES:\n  none                Do not allocate CPU affinity slots.\n  auto                Use all logical CPU cores, split by --cpus-per-job.\n  0-15,32-47          Use exactly these logical CPU cores.\n  --cpus-per-job N    Split the CPU pool into fixed-size slots.\n  thread limit        If --cpu-threads is omitted, each CPU slot uses N threads.\n\nINPUT RULES:\n  - ignore empty lines\n  - ignore lines starting with '#'\n  - each remaining line is one job\n\nRUNTIME:\n  By default, one running job occupies one GPU.\n  By default, finished job tabs exit and disappear.\n  With --keep-job-tabs, finished job tabs stay visible in tmux.\n";

/// The usage text: the runtime model, the options and their defaults.
pub fn help_text() -> (r: String)
    ensures
        r@ == HELP_TEXT@,
{
    String::from_str(HELP_TEXT)
}

/// What the options of `run` read into.
pub struct OptionsView {
    pub input_path: Option<Seq<char>>,
    pub logs_dir: Seq<char>,
    pub scheduler_name: Option<Seq<char>>,
    pub cpu_threads: Option<usize>,
    pub cpu_cores: CoresSelection,
    pub cpus_per_job: Option<usize>,
    pub cuda_devices: CudaSelection,
    pub idle_memory_threshold_mb: usize,
    pub idle_utilization_threshold: usize,
    pub tick_seconds: u64,
    pub dry_run: bool,
    pub keep_job_tabs: bool,
    pub verbose: bool,
}

/// What the command line asks for.
pub enum ActionView {
    Help,
    Run(OptionsView),
}

/// The defaults: read standard input, log to `logs`, GPUs `auto`, no core
/// slots, no thread limit, idle below 64 MiB and 0%, a tick of 1 second.
pub open spec fn default_options() -> OptionsView {
    OptionsView {
        input_path: None,
        logs_dir: "logs"@,
        scheduler_name: None,
        cpu_threads: None,
        cpu_cores: CoresSelection::Disabled,
        cpus_per_job: None,
        cuda_devices: CudaSelection::Auto,
        idle_memory_threshold_mb: 64,
        idle_utilization_threshold: 0,
        tick_seconds: 1,
        dry_run: false,
        keep_job_tabs: false,
        verbose: false,
    }
}

/// One step of reading the arguments of `run`: the token at `i` either ends
/// the reading or sets an option and moves on.
pub enum ArgStep {
    Done(Result<ActionView, Seq<char>>),
    Next(int, OptionsView),
}

pub open spec fn starts_with_dashes(a: Seq<char>) -> bool {
    a.len() >= 2 && a[0] == '-' && a[1] == '-'
}

pub open spec fn arg_step(argv: Seq<Seq<char>>, i: int, o: OptionsView) -> ArgStep {
    let a = argv[i];
    if a == "-h"@ || a == "--help"@ {
        ArgStep::Done(Ok(ActionView::Help))
    } else if a == "--logs-dir"@ {
        if i + 1 >= argv.len() {
            ArgStep::Done(Err("--logs-dir"@ + " requires a value"@))
        } else {
            let v = argv[i + 1];
            ArgStep::Next(i + 2, OptionsView { logs_dir: v, ..o })
        }
    } else if a == "--scheduler-name"@ {
        if i + 1 >= argv.len() {
            ArgStep::Done(Err("--scheduler-name"@ + " requires a value"@))
        } else {
            let v = argv[i + 1];
            match scheduler_name_spec(v) {
                Ok(x) => ArgStep::Next(i + 2, OptionsView { scheduler_name: Some(x), ..o }),
                Err(e) => ArgStep::Done(Err(e)),
            }
        }
    } else if a == "--cpu-threads"@ {
        if i + 1 >= argv.len() {
            ArgStep::Done(Err("--cpu-threads"@ + " requires a value"@))
        } else {
            let v = argv[i + 1];
            match positive_spec("--cpu-threads"@, v) {
                Ok(x) => ArgStep::Next(i + 2, OptionsView { cpu_threads: Some(x), ..o }),
                Err(e) => ArgStep::Done(Err(e)),
            }
        }
    } else if a == "--cpu-cores"@ {
        if i + 1 >= argv.len() {
            ArgStep::Done(Err("--cpu-cores"@ + " requires a value"@))
        } else {
            let v = argv[i + 1];
            match cpu_cores_spec(v) {
                Ok(x) => ArgStep::Next(i + 2, OptionsView { cpu_cores: x, ..o }),
                Err(e) => ArgStep::Done(Err(e)),
            }
        }
    } else if a == "--cpus-per-job"@ {
        if i + 1 >= argv.len() {
            ArgStep::Done(Err("--cpus-per-job"@ + " requires a value"@))
        } else {
            let v = argv[i + 1];
            match positive_spec("--cpus-per-job"@, v) {
                Ok(x) => ArgStep::Next(i + 2, OptionsView { cpus_per_job: Some(x), ..o }),
                Err(e) => ArgStep::Done(Err(e)),
            }
        }
    } else if a == "--cuda-devices"@ {
        if i + 1 >= argv.len() {
            ArgStep::Done(Err("--cuda-devices"@ + " requires a value"@))
        } else {
            let v = argv[i + 1];
            match cuda_devices_spec(v) {
                Ok(x) => ArgStep::Next(i + 2, OptionsView { cuda_devices: x, ..o }),
                Err(e) => ArgStep::Done(Err(e)),
            }
        }
    } else if a == "--idle-memory-threshold-mb"@ {
        if i + 1 >= argv.len() {
            ArgStep::Done(Err("--idle-memory-threshold-mb"@ + " requires a value"@))
        } else {
            let v = argv[i + 1];
            match parse_usize(v) {
                Some(x) => ArgStep::Next(i + 2, OptionsView { idle_memory_threshold_mb: x, ..o }),
                None => ArgStep::Done(Err("invalid --idle-memory-threshold-mb value: "@ + v)),
            }
        }
    } else if a == "--idle-utilization-threshold"@ {
        if i + 1 >= argv.len() {
            ArgStep::Done(Err("--idle-utilization-threshold"@ + " requires a value"@))
        } else {
            let v = argv[i + 1];
            match parse_usize(v) {
                Some(x) => ArgStep::Next(i + 2, OptionsView { idle_utilization_threshold: x, ..o }),
                None => ArgStep::Done(Err("invalid --idle-utilization-threshold value: "@ + v)),
            }
        }
    } else if a == "--tick-seconds"@ {
        if i + 1 >= argv.len() {
            ArgStep::Done(Err("--tick-seconds"@ + " requires a value"@))
        } else {
            let v = argv[i + 1];
            match parse_u64(v) {
                Some(x) => ArgStep::Next(i + 2, OptionsView { tick_seconds: x, ..o }),
                None => ArgStep::Done(Err("invalid --tick-seconds value: "@ + v)),
            }
        }
    } else if a == "--dry-run"@ {
        ArgStep::Next(i + 1, OptionsView { dry_run: true, ..o })
    } else if a == "--keep-job-tabs"@ {
        ArgStep::Next(i + 1, OptionsView { keep_job_tabs: true, ..o })
    } else if a == "--verbose"@ {
        ArgStep::Next(i + 1, OptionsView { verbose: true, ..o })
    } else if starts_with_dashes(a) {
        ArgStep::Done(Err("unknown option: "@ + a + "\n\n"@ + HELP_TEXT@))
    } else if o.input_path is Some {
        ArgStep::Done(Err("only one input file is allowed"@))
    } else {
        ArgStep::Next(i + 1, OptionsView { input_path: Some(a), ..o })
    }
}

/// Reads the arguments of `run` from position `i` on, with the options read
/// so far: an unknown option, a second input file, a missing or bad value is
/// an error; `-h` asks for help; anything else not an option is the input file.
pub open spec fn run_args_from(argv: Seq<Seq<char>>, i: int, o: OptionsView) -> Result<
    ActionView,
    Seq<char>,
>
    decreases argv.len() - i,
{
    if i < 0 || i >= argv.len() {
        Ok(ActionView::Run(o))
    } else {
        match arg_step(argv, i, o) {
            ArgStep::Done(r) => r,
            ArgStep::Next(j, o2) => if i < j {
                run_args_from(argv, j, o2)
            } else {
                Ok(ActionView::Run(o2))
            },
        }
    }
}

/// Reading one option sets only that option's field and leaves every other
/// field of the options as it was: `--cpu-threads N` sets the thread limit
/// only, `--cpus-per-job N` the slot size only, and so on; a path sets the
/// input file only.
pub proof fn lemma_option_sets_only_its_field(argv: Seq<Seq<char>>, i: int, o: OptionsView)
    requires
        0 <= i < argv.len(),
    ensures
        arg_step(argv, i, o) matches ArgStep::Next(j, o2) ==> {
            &&& i < j
            &&& (argv[i] == "--logs-dir"@ ==> o2 == OptionsView { logs_dir: o2.logs_dir, ..o })
            &&& (argv[i] == "--scheduler-name"@ ==> o2 == OptionsView {
                scheduler_name: o2.scheduler_name,
                ..o
            })
            &&& (argv[i] == "--cpu-threads"@ ==> o2 == OptionsView { cpu_threads: o2.cpu_threads, ..o }
                && o2.cpu_threads == Some(parse_usize(argv[i + 1])->Some_0))
            &&& (argv[i] == "--cpu-cores"@ ==> o2 == OptionsView { cpu_cores: o2.cpu_cores, ..o })
            &&& (argv[i] == "--cpus-per-job"@ ==> o2 == OptionsView {
                cpus_per_job: o2.cpus_per_job,
                ..o
            } && o2.cpus_per_job == Some(parse_usize(argv[i + 1])->Some_0))
            &&& (argv[i] == "--cuda-devices"@ ==> o2 == OptionsView {
                cuda_devices: o2.cuda_devices,
                ..o
            })
            &&& (argv[i] == "--idle-memory-threshold-mb"@ ==> o2 == OptionsView {
                idle_memory_threshold_mb: o2.idle_memory_threshold_mb,
                ..o
            })
            &&& (argv[i] == "--idle-utilization-threshold"@ ==> o2 == OptionsView {
                idle_utilization_threshold: o2.idle_utilization_threshold,
                ..o
            })
            &&& (argv[i] == "--tick-seconds"@ ==> o2 == OptionsView {
                tick_seconds: o2.tick_seconds,
                ..o
            })
            &&& (argv[i] == "--dry-run"@ ==> o2 == OptionsView { dry_run: true, ..o })
            &&& (argv[i] == "--keep-job-tabs"@ ==> o2 == OptionsView { keep_job_tabs: true, ..o })
            &&& (argv[i] == "--verbose"@ ==> o2 == OptionsView { verbose: true, ..o })
            &&& (!starts_with_dashes(argv[i]) ==> o2 == OptionsView {
                input_path: Some(argv[i]),
                ..o
            } && o.input_path is None)
        },
{
    reveal_strlit("-h");
    reveal_strlit("--help");
    reveal_strlit("--logs-dir");
    reveal_strlit("--scheduler-name");
    reveal_strlit("--cpu-threads");
    reveal_strlit("--cpu-cores");
    reveal_strlit("--cpus-per-job");
    reveal_strlit("--cuda-devices");
    reveal_strlit("--idle-memory-threshold-mb");
    reveal_strlit("--idle-utilization-threshold");
    reveal_strlit("--tick-seconds");
    reveal_strlit("--dry-run");
    reveal_strlit("--keep-job-tabs");
    reveal_strlit("--verbose");
    assert("--cuda-devices"@ != "--cpus-per-job"@) by {
        assert("--cuda-devices"@[3] != "--cpus-per-job"@[3]);
    }
    assert("--tick-seconds"@ != "--cpus-per-job"@) by {
        assert("--tick-seconds"@[2] != "--cpus-per-job"@[2]);
    }
    assert("--tick-seconds"@ != "--cuda-devices"@) by {
        assert("--tick-seconds"@[2] != "--cuda-devices"@[2]);
    }
    assert("--verbose"@ != "--dry-run"@) by {
        assert("--verbose"@[2] != "--dry-run"@[2]);
    }
}

/// The thread limit, the slot size, the core pool and the GPU selection of a
/// run keep their values unless their own option is given: arguments that
/// never name `--cpus-per-job` leave the slot size as it was (whatever
/// `--cpu-threads` says), and likewise for the other three.
pub proof fn lemma_unnamed_options_unchanged(argv: Seq<Seq<char>>, i: int, o: OptionsView)
    ensures
        run_args_from(argv, i, o) matches Ok(ActionView::Run(o2)) ==> {
            &&& (forall|k: int| i <= k < argv.len() ==> #[trigger] argv[k] != "--cpus-per-job"@)
                ==> o2.cpus_per_job == o.cpus_per_job
            &&& (forall|k: int| i <= k < argv.len() ==> #[trigger] argv[k] != "--cpu-threads"@)
                ==> o2.cpu_threads == o.cpu_threads
            &&& (forall|k: int| i <= k < argv.len() ==> #[trigger] argv[k] != "--cpu-cores"@)
                ==> o2.cpu_cores == o.cpu_cores
            &&& (forall|k: int| i <= k < argv.len() ==> #[trigger] argv[k] != "--cuda-devices"@)
                ==> o2.cuda_devices == o.cuda_devices
        },
    decreases argv.len() - i,
{
    if 0 <= i < argv.len() {
        lemma_option_sets_only_its_field(argv, i, o);
        if let ArgStep::Next(j, o3) = arg_step(argv, i, o) {
            if i < j {
                lemma_unnamed_options_unchanged(argv, j, o3);
            }
        }
    }
}

/// A command line that never names `--cpus-per-job` runs without a slot size
/// (the default), whatever else it sets, `--cpu-threads` included; and one
/// that never names `--cpu-threads` runs without a thread limit of its own.
pub proof fn lemma_run_defaults_kept(argv: Seq<Seq<char>>)
    ensures
        args_spec(argv) matches Ok(ActionView::Run(o)) ==> {
            &&& (forall|k: int| 0 <= k < argv.len() ==> #[trigger] argv[k] != "--cpus-per-job"@)
                ==> o.cpus_per_job is None
            &&& (forall|k: int| 0 <= k < argv.len() ==> #[trigger] argv[k] != "--cpu-threads"@)
                ==> o.cpu_threads is None
        },
{
    lemma_unnamed_options_unchanged(argv, 2, default_options());
}

/// `-h`/`--help` or nothing asks for help; `run` reads the options that follow.
pub open spec fn args_spec(argv: Seq<Seq<char>>) -> Result<ActionView, Seq<char>> {
    if argv.len() <= 1 {
        Ok(ActionView::Help)
    } else if argv[1] == "-h"@ || argv[1] == "--help"@ {
        Ok(ActionView::Help)
    } else if argv[1] == "run"@ {
        run_args_from(argv, 2, default_options())
    } else {
        Err("unknown command: "@ + argv[1] + "\n\n"@ + HELP_TEXT@)
    }
}

/// The options of a run.
#[derive(Debug, Clone, PartialEq, Eq)]
pub struct RunOptions {
    pub input_path: Option<String>,
    pub logs_dir: String,
    pub scheduler_name: Option<String>,
    pub cpu_threads: Option<usize>,
    pub cpu_cores: CpuCoresArg,
    pub cpus_per_job: Option<usize>,
    pub cuda_devices: CudaDevicesArg,
    pub idle_memory_threshold_mb: usize,
    pub idle_utilization_threshold: usize,
    pub tick_seconds: u64,
    pub dry_run: bool,
    pub keep_job_tabs: bool,
    pub verbose: bool,
}

impl View for RunOptions {
    type V = OptionsView;

    open spec fn view(&self) -> OptionsView {
        OptionsView {
            input_path: opt_string_view(self.input_path),
            logs_dir: self.logs_dir@,
            scheduler_name: opt_string_view(self.scheduler_name),
            cpu_threads: self.cpu_threads,
            cpu_cores: cores_view(self.cpu_cores),
            cpus_per_job: self.cpus_per_job,
            cuda_devices: cuda_view(self.cuda_devices),
            idle_memory_threshold_mb: self.idle_memory_threshold_mb,
            idle_utilization_threshold: self.idle_utilization_threshold,
            tick_seconds: self.tick_seconds,
            dry_run: self.dry_run,
            keep_job_tabs: self.keep_job_tabs,
            verbose: self.verbose,
        }
    }
}

impl Default for RunOptions {
    fn default() -> (r: RunOptions)
        ensures
            r@ == default_options(),
    {
        RunOptions {
            input_path: None,
            logs_dir: String::from_str("logs"),
            scheduler_name: None,
            cpu_threads: None,
            cpu_cores: CpuCoresArg::Disabled,
            cpus_per_job: None,
            cuda_devices: CudaDevicesArg::Auto,
            idle_memory_threshold_mb: 64,
            idle_utilization_threshold: 0,
            tick_seconds: 1,
            dry_run: false,
            keep_job_tabs: false,
            verbose: false,
        }
    }
}

/// What the command line asks for: the help text, or a run.
#[derive(Debug)]
pub enum CliAction {
    Help,
    Run(RunOptions),
}

pub open spec fn action_view(a: CliAction) -> ActionView {
    match a {
        CliAction::Help => ActionView::Help,
        CliAction::Run(o) => ActionView::Run(o@),
    }
}

pub open spec fn action_result_view(r: Result<CliAction, String>) -> Result<ActionView, Seq<char>> {
    match r {
        Ok(a) => Ok(action_view(a)),
        Err(e) => Err(e@),
    }
}

pub open spec fn argv_view(argv: Seq<String>) -> Seq<Seq<char>> {
    argv.map_values(|s: String| s@)
}

fn is_lit(a: &Vec<char>, lit: &str) -> (r: bool)
    ensures
        r == (a@ == lit@),
{
    chars_eq(a, &chars_of(lit))
}

fn requires_value(flag: &str) -> (r: String)
    ensures
        r@ == flag@ + " requires a value"@,
{
    let mut m = String::from_str(flag);
    m.append(" requires a value");
    m
}

/// Reads the arguments of `run` (from the third one on).
pub fn parse_run_args(argv: &Vec<String>) -> (r: Result<CliAction, String>)
    ensures
        action_result_view(r) == run_args_from(argv_view(argv@), 2, default_options()),
{
    let ghost av = argv_view(argv@);
    let mut options = RunOptions::default();
    let n = argv.len();
    if n < 2 {
        return Ok(CliAction::Run(options));
    }
    let mut i: usize = 2;
    while i < n
        invariant
            2 <= i <= n == argv@.len() == av.len(),
            av == argv_view(argv@),
            run_args_from(av, i as int, options@) == run_args_from(av, 2, default_options()),
        decreases n - i,
    {
        let ghost o = options@;
        let ghost start = i as int;
        let a = chars_of(argv[i].as_str());
        assert(a@ == av[i as int]);
        proof {
            if i + 1 < n {
                assert(argv[i + 1 as int]@ == av[i + 1]);
            }
        }
        if is_lit(&a, "-h") || is_lit(&a, "--help") {
            return Ok(CliAction::Help);
        } else if is_lit(&a, "--logs-dir") {
            if i + 1 >= n {
                return Err(requires_value("--logs-dir"));
            }
            {
                let v = argv[i + 1].as_str();
                options.logs_dir = String::from_str(v);
            }
            i = i + 2;
        } else if is_lit(&a, "--scheduler-name") {
            if i + 1 >= n {
                return Err(requires_value("--scheduler-name"));
            }
            {
                let v = argv[i + 1].as_str();
                match parse_scheduler_name_arg(v) {
                    Ok(x) => {
                        options.scheduler_name = Some(x);
                    },
                    Err(e) => {
                        return Err(e);
                    },
                }
            }
            i = i + 2;
        } else if is_lit(&a, "--cpu-threads") {
            if i + 1 >= n {
                return Err(requires_value("--cpu-threads"));
            }
            {
                let v = argv[i + 1].as_str();
                match parse_positive_usize_arg("--cpu-threads", v) {
                    Ok(x) => {
                        options.cpu_threads = Some(x);
                    },
                    Err(e) => {
                        return Err(e);
                    },
                }
            }
            i = i + 2;
        } else if is_lit(&a, "--cpu-cores") {
            if i + 1 >= n {
                return Err(requires_value("--cpu-cores"));
            }
            {
                let v = argv[i + 1].as_str();
                match parse_cpu_cores_arg(v) {
                    Ok(x) => {
                        options.cpu_cores = x;
                    },
                    Err(e) => {
                        return Err(e);
                    },
                }
            }
            i = i + 2;
        } else if is_lit(&a, "--cpus-per-job") {
            if i + 1 >= n {
                return Err(requires_value("--cpus-per-job"));
            }
            {
                let v = argv[i + 1].as_str();
                match parse_positive_usize_arg("--cpus-per-job", v) {
                    Ok(x) => {
                        options.cpus_per_job = Some(x);
                    },
                    Err(e) => {
                        return Err(e);
                    },
                }
            }
            i = i + 2;
        } else if is_lit(&a, "--cuda-devices") {
            if i + 1 >= n {
                return Err(requires_value("--cuda-devices"));
            }
            {
                let v = argv[i + 1].as_str();
                match parse_cuda_devices_arg(v) {
                    Ok(x) => {
                        options.cuda_devices = x;
                    },
                    Err(e) => {
                        return Err(e);
                    },
                }
            }
            i = i + 2;
        } else if is_lit(&a, "--idle-memory-threshold-mb") {
            if i + 1 >= n {
                return Err(requires_value("--idle-memory-threshold-mb"));
            }
            {
                let v = argv[i + 1].as_str();
                let vc = chars_of(v);
                match parse_usize_chars(&vc) {
                    Some(x) => {
                        options.idle_memory_threshold_mb = x;
                    },
                    None => {
                        let mut m = String::from_str("invalid --idle-memory-threshold-mb value: ");
                        m.append(v);
                        return Err(m);
                    },
                }
            }
            i = i + 2;
        } else if is_lit(&a, "--idle-utilization-threshold") {
            if i + 1 >= n {
                return Err(requires_value("--idle-utilization-threshold"));
            }
            {
                let v = argv[i + 1].as_str();
                let vc = chars_of(v);
                match parse_usize_chars(&vc) {
                    Some(x) => {
                        options.idle_utilization_threshold = x;
                    },
                    None => {
                        let mut m = String::from_str("invalid --idle-utilization-threshold value: ");
                        m.append(v);
                        return Err(m);
                    },
                }
            }
            i = i + 2;
        } else if is_lit(&a, "--tick-seconds") {
            if i + 1 >= n {
                return Err(requires_value("--tick-seconds"));
            }
            {
                let v = argv[i + 1].as_str();
                let vc = chars_of(v);
                match parse_u64_chars(&vc) {
                    Some(x) => {
                        options.tick_seconds = x;
                    },
                    None => {
                        let mut m = String::from_str("invalid --tick-seconds value: ");
                        m.append(v);
                        return Err(m);
                    },
                }
            }
            i = i + 2;
        } else if is_lit(&a, "--dry-run") {
            options.dry_run = true;
            i = i + 1;
        } else if is_lit(&a, "--keep-job-tabs") {
            options.keep_job_tabs = true;
            i = i + 1;
        } else if is_lit(&a, "--verbose") {
            options.verbose = true;
            i = i + 1;
        } else if a.len() >= 2 && a[0] == '-' && a[1] == '-' {
            let mut m = String::from_str("unknown option: ");
            m.append(argv[i].as_str());
            m.append("\n\n");
            m.append(HELP_TEXT);
            return Err(m);
        } else {
            if options.input_path.is_some() {
                return Err(String::from_str("only one input file is allowed"));
            }
            options.input_path = Some(String::from_str(argv[i].as_str()));
            i = i + 1;
        }
        proof {
            assert(arg_step(av, start, o) == ArgStep::Next(i as int, options@));
        }
    }
    Ok(CliAction::Run(options))
}

/// Reads the command line: help, or a run with its options.
pub fn parse_args(argv: &Vec<String>) -> (r: Result<CliAction, String>)
    ensures
        action_result_view(r) == args_spec(argv_view(argv@)),
{
    let ghost av = argv_view(argv@);
    if argv.len() <= 1 {
        return Ok(CliAction::Help);
    }
    let a = chars_of(argv[1].as_str());
    assert(a@ == av[1]);
    if is_lit(&a, "-h") || is_lit(&a, "--help") {
        Ok(CliAction::Help)
    } else if is_lit(&a, "run") {
        parse_run_args(argv)
    } else {
        let mut m = String::from_str("unknown command: ");
        m.append(argv[1].as_str());
        m.append("\n\n");
        m.append(HELP_TEXT);
        Err(m)
    }
}

} // verus!
