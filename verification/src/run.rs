//! The decisions of a run before its scheduler starts: whether there is work,
//! which GPUs and core slots it gets, and what it reports.
use vstd::prelude::*;

use crate::cli::{cores_view, cuda_view, CudaDevicesArg, CudaSelection, RunOptions};
use crate::cpu::{cpu_slots_spec, resolve_cpu_slots, slots_result_view};
use crate::error::{ErrorKind, SchedulerError};
use crate::format::{
    cpu_slots_text, cuda_devices_text, effective_cpu_threads, format_cpu_slots, format_cpu_threads,
    format_cuda_devices, join, push_joined, slot_views, threads_text,
};
use crate::gpu::{err_view, resolve_cuda_devices, resolve_spec, GpuSnapshot};
use crate::input::strings_view;
use crate::namespace::{ns_view, RunNamespace};
use crate::text::{dec, push_usize};

verus! {

/// A run needs at least one job.
pub fn check_commands(commands: &Vec<String>) -> (r: Result<(), SchedulerError>)
    ensures
        r is Ok <==> commands@.len() > 0,
        r matches Err(e) ==> err_view(e) == (ErrorKind::InvalidInput, "no jobs found in input"@),
{
    if commands.len() == 0 {
        Err(
            SchedulerError::new(ErrorKind::InvalidInput, String::from_str("no jobs found in input")),
        )
    } else {
        Ok(())
    }
}

/// The GPUs and the core slots of a run: the GPUs first, then the slots; a
/// run that asked for GPUs must get at least one.
pub open spec fn resources_spec(
    o: crate::cli::OptionsView,
    snaps: Seq<GpuSnapshot>,
    available_cores: usize,
) -> Result<(Seq<usize>, Seq<Seq<usize>>), (ErrorKind, Seq<char>)> {
    match resolve_spec(o.cuda_devices, snaps, o.idle_memory_threshold_mb, o.idle_utilization_threshold) {
        Err(e) => Err(e),
        Ok(g) => match cpu_slots_spec(o.cpu_cores, o.cpus_per_job, available_cores) {
            Err(e) => Err(e),
            Ok(c) => if !(o.cuda_devices is Disabled) && g.len() == 0 {
                Err((ErrorKind::InvalidInput, "no usable CUDA devices resolved"@))
            } else {
                Ok((g, c))
            },
        },
    }
}

pub open spec fn resources_view(r: Result<(Vec<usize>, Vec<Vec<usize>>), SchedulerError>) -> Result<
    (Seq<usize>, Seq<Seq<usize>>),
    (ErrorKind, Seq<char>),
> {
    match r {
        Ok((g, c)) => Ok((g@, slot_views(c@))),
        Err(e) => Err(err_view(e)),
    }
}

/// Decides the GPUs and core slots of a run from its options, what
/// `nvidia-smi` reported, and the number of logical cores of the machine.
pub fn resolve_run_resources(
    options: &RunOptions,
    snapshots: &Vec<GpuSnapshot>,
    available_cores: usize,
) -> (r: Result<(Vec<usize>, Vec<Vec<usize>>), SchedulerError>)
    ensures
        resources_view(r) == resources_spec(options@, snapshots@, available_cores),
{
    let gpu_devices = match resolve_cuda_devices(
        &options.cuda_devices,
        options.idle_memory_threshold_mb,
        options.idle_utilization_threshold,
        snapshots,
    ) {
        Ok(g) => g,
        Err(e) => {
            return Err(e);
        },
    };
    let cpu_slots = match resolve_cpu_slots(&options.cpu_cores, options.cpus_per_job, available_cores) {
        Ok(c) => c,
        Err(e) => {
            return Err(e);
        },
    };
    let disabled = match options.cuda_devices {
        CudaDevicesArg::Disabled => true,
        _ => false,
    };
    if !disabled && gpu_devices.len() == 0 {
        return Err(
            SchedulerError::new(
                ErrorKind::InvalidInput,
                String::from_str("no usable CUDA devices resolved"),
            ),
        );
    }
    Ok((gpu_devices, cpu_slots))
}

fn line_of(label: &str, value: &str) -> (r: String)
    ensures
        r@ == label@ + value@,
{
    let mut r = String::from_str(label);
    r.append(value);
    r
}

/// The lines of the plan that a dry run prints.
pub open spec fn dry_run_lines(
    o: crate::cli::OptionsView,
    devices: Seq<usize>,
    slots: Seq<Seq<usize>>,
    job_count: usize,
) -> Seq<Seq<char>> {
    let input = match o.input_path {
        Some(p) => p,
        None => "<stdin>"@,
    };
    seq![
        "===== Dry Run ====="@,
        "Input: "@ + input,
        "Jobs: "@ + dec(job_count as nat),
        "CUDA devices: "@ + cuda_devices_text(devices),
        "CPU threads per job: "@ + threads_text(
            if o.cpu_threads is Some {
                o.cpu_threads
            } else {
                o.cpus_per_job
            },
        ),
        "CPU slots: "@ + cpu_slots_text(slots),
        "Idle memory threshold: "@ + dec(o.idle_memory_threshold_mb as nat) + " MiB"@,
        "Idle utilization threshold: "@ + dec(o.idle_utilization_threshold as nat) + "%"@,
        "Logs dir: "@ + o.logs_dir,
        "tmux was not touched"@,
    ]
}

/// The plan of a dry run: input, number of jobs, GPUs, thread limit, core
/// slots, idle thresholds and logs directory.
pub fn build_dry_run_summary(
    options: &RunOptions,
    devices: &Vec<usize>,
    cpu_slots: &Vec<Vec<usize>>,
    job_count: usize,
) -> (r: String)
    ensures
        r@ == join(dry_run_lines(options@, devices@, slot_views(cpu_slots@), job_count), "\n"@),
{
    let mut lines: Vec<String> = Vec::new();
    lines.push(String::from_str("===== Dry Run ====="));
    match &options.input_path {
        Some(p) => lines.push(line_of("Input: ", p.as_str())),
        None => lines.push(line_of("Input: ", "<stdin>")),
    }
    let mut jobs_line = String::from_str("Jobs: ");
    push_usize(&mut jobs_line, job_count);
    lines.push(jobs_line);
    let cuda = format_cuda_devices(devices);
    lines.push(line_of("CUDA devices: ", cuda.as_str()));
    let threads = format_cpu_threads(effective_cpu_threads(options.cpu_threads, options.cpus_per_job));
    lines.push(line_of("CPU threads per job: ", threads.as_str()));
    let slots = format_cpu_slots(cpu_slots);
    lines.push(line_of("CPU slots: ", slots.as_str()));
    let mut mem = String::from_str("Idle memory threshold: ");
    push_usize(&mut mem, options.idle_memory_threshold_mb);
    mem.append(" MiB");
    lines.push(mem);
    let mut util = String::from_str("Idle utilization threshold: ");
    push_usize(&mut util, options.idle_utilization_threshold);
    util.append("%");
    lines.push(util);
    lines.push(line_of("Logs dir: ", options.logs_dir.as_str()));
    lines.push(String::from_str("tmux was not touched"));
    proof {
        assert(strings_view(lines@) =~= dry_run_lines(
            options@,
            devices@,
            slot_views(cpu_slots@),
            job_count,
        ));
    }
    let mut r = String::new();
    push_joined(&mut r, &lines, "\n");
    assert(r@ =~= join(
        dry_run_lines(options@, devices@, slot_views(cpu_slots@), job_count),
        "\n"@,
    ));
    r
}

/// The lines a run prints when its scheduler starts.
pub open spec fn startup_lines(
    session: Seq<char>,
    scheduler_window: Seq<char>,
    devices: Seq<usize>,
    threads: Option<usize>,
    slots: Seq<Seq<usize>>,
    logs_dir: Seq<char>,
    job_count: usize,
) -> Seq<Seq<char>> {
    seq![
        "Session: "@ + session,
        "Scheduler tab: "@ + scheduler_window,
        "Current tab renamed to "@ + scheduler_window + "."@,
        "Job tabs will be appended after it."@,
        "Final CUDA device range: "@ + cuda_devices_text(devices),
        "CPU threads per job: "@ + threads_text(threads),
        "CPU slots: "@ + cpu_slots_text(slots),
        "Logs dir: "@ + logs_dir,
        dec(job_count as nat) + " jobs in total."@,
    ]
}

/// What a run reports when its scheduler starts: the session, the
/// scheduler's window, the GPUs, the thread limit, the core slots, the logs
/// directory and the number of jobs.
pub fn build_startup_report(
    session: &str,
    namespace: &RunNamespace,
    devices: &Vec<usize>,
    cpu_threads: Option<usize>,
    cpus_per_job: Option<usize>,
    cpu_slots: &Vec<Vec<usize>>,
    logs_dir: &str,
    job_count: usize,
) -> (r: String)
    ensures
        r@ == join(
            startup_lines(
                session@,
                ns_view(*namespace).0,
                devices@,
                if cpu_threads is Some {
                    cpu_threads
                } else {
                    cpus_per_job
                },
                slot_views(cpu_slots@),
                logs_dir@,
                job_count,
            ),
            "\n"@,
        ),
{
    let name = namespace.scheduler_window_name.as_str();
    let mut lines: Vec<String> = Vec::new();
    lines.push(line_of("Session: ", session));
    lines.push(line_of("Scheduler tab: ", name));
    let mut renamed = line_of("Current tab renamed to ", name);
    renamed.append(".");
    lines.push(renamed);
    lines.push(String::from_str("Job tabs will be appended after it."));
    let cuda = format_cuda_devices(devices);
    lines.push(line_of("Final CUDA device range: ", cuda.as_str()));
    let threads = format_cpu_threads(effective_cpu_threads(cpu_threads, cpus_per_job));
    lines.push(line_of("CPU threads per job: ", threads.as_str()));
    let slots = format_cpu_slots(cpu_slots);
    lines.push(line_of("CPU slots: ", slots.as_str()));
    lines.push(line_of("Logs dir: ", logs_dir));
    let mut count = String::new();
    push_usize(&mut count, job_count);
    count.append(" jobs in total.");
    lines.push(count);
    let ghost threads_used = if cpu_threads is Some {
        cpu_threads
    } else {
        cpus_per_job
    };
    proof {
        assert(count@ =~= dec(job_count as nat) + " jobs in total."@);
        assert(strings_view(lines@) =~= startup_lines(
            session@,
            ns_view(*namespace).0,
            devices@,
            threads_used,
            slot_views(cpu_slots@),
            logs_dir@,
            job_count,
        ));
    }
    let mut r = String::new();
    push_joined(&mut r, &lines, "\n");
    r
}

} // verus!
