use tiny_exp_scheduler::cli::{
    help_text, parse_args, parse_cpu_core_list, parse_cpu_cores_arg, parse_cuda_devices_arg,
    parse_positive_usize_arg, parse_scheduler_name_arg, CliAction, CpuCoresArg, CudaDevicesArg,
    RunOptions,
};
use tiny_exp_scheduler::cpu::{resolve_cpu_slots, split_cpu_pool_into_slots};
use tiny_exp_scheduler::error::ErrorKind;
use tiny_exp_scheduler::format::{
    effective_cpu_threads, format_cpu_cores, format_cpu_slots, format_cpu_threads, join_ids,
};
use tiny_exp_scheduler::gpu::{
    busy_cuda_device_message, idle_threshold_help, needs_gpu_query, parse_gpu_snapshots,
    resolve_cuda_devices, GpuSnapshot,
};
use tiny_exp_scheduler::input::{parse_pane_dead, parse_tmux_name, parse_window_names};
use tiny_exp_scheduler::job::{
    format_exit_code_suffix, format_job_status, map_exit_code, parse_exit_code, Job, JobStatus,
};
use tiny_exp_scheduler::namespace::{
    ensure_job_window_absent, resolve_run_namespace, window_name_for_job, RunNamespace,
};
use tiny_exp_scheduler::run::{build_startup_report, check_commands, resolve_run_resources};
use tiny_exp_scheduler::scheduler::Scheduler;
use tiny_exp_scheduler::script::{
    build_job_invocation, build_runtime_env_pairs, build_script, build_tmux_shell_command,
    format_env_exports, format_env_pairs_inline, shell_quote,
};
use tiny_exp_scheduler::sorted::insert_sorted_unique;

fn argv(items: &[&str]) -> Vec<String> {
    items.iter().map(|s| s.to_string()).collect()
}

fn strings(items: &[&str]) -> Vec<String> {
    argv(items)
}

fn scheduler_with(devices: Vec<usize>, slots: Vec<Vec<usize>>, jobs: usize, verbose: bool) -> Scheduler {
    let commands = (1..=jobs).map(|i| format!("python job{i}.py")).collect();
    Scheduler::new(
        "session".to_string(),
        "logs".to_string(),
        devices,
        slots,
        commands,
        "job".to_string(),
        None,
        false,
        verbose,
    )
}

// ---------------------------------------------------------------------------
// shell quoting
// ---------------------------------------------------------------------------

#[test]
fn shell_quote_of_empty_string_is_two_quotes() {
    assert_eq!(shell_quote(""), "''");
}

#[test]
fn shell_quote_wraps_plain_text() {
    assert_eq!(shell_quote("python a.py --x 1"), "'python a.py --x 1'");
}

#[test]
fn shell_quote_escapes_every_single_quote() {
    assert_eq!(shell_quote("a'b'c"), "'a'\"'\"'b'\"'\"'c'");
}

#[test]
fn tmux_shell_command_quotes_the_whole_script() {
    assert_eq!(
        build_tmux_shell_command("echo 'x'"),
        "bash -lc 'echo '\"'\"'x'\"'\"''"
    );
}

// ---------------------------------------------------------------------------
// argument parsing
// ---------------------------------------------------------------------------

#[test]
fn cuda_devices_are_trimmed_sorted_and_deduplicated() {
    assert_eq!(
        parse_cuda_devices_arg("2, 0,2").unwrap(),
        CudaDevicesArg::Explicit(vec![0, 2])
    );
    assert_eq!(
        parse_cuda_devices_arg("+3").unwrap(),
        CudaDevicesArg::Explicit(vec![3])
    );
}

#[test]
fn cuda_devices_errors() {
    assert_eq!(
        parse_cuda_devices_arg("0,,1").unwrap_err(),
        "invalid --cuda-devices value: 0,,1"
    );
    assert_eq!(
        parse_cuda_devices_arg("").unwrap_err(),
        "invalid --cuda-devices value: "
    );
    assert_eq!(
        parse_cuda_devices_arg("0,x").unwrap_err(),
        "invalid CUDA device id in --cuda-devices: x"
    );
}

#[test]
fn cpu_core_list_merges_ranges_and_ids() {
    assert_eq!(parse_cpu_core_list("4,0-2,2").unwrap(), vec![0, 1, 2, 4]);
    assert_eq!(parse_cpu_core_list("1-1").unwrap(), vec![1]);
    assert_eq!(parse_cpu_cores_arg("none").unwrap(), CpuCoresArg::Disabled);
    assert_eq!(parse_cpu_cores_arg("auto").unwrap(), CpuCoresArg::Auto);
}

#[test]
fn cpu_core_list_errors() {
    assert_eq!(
        parse_cpu_core_list("3-1").unwrap_err(),
        "invalid descending CPU core range: 3-1"
    );
    assert_eq!(
        parse_cpu_core_list("a-2").unwrap_err(),
        "invalid CPU core range in --cpu-cores: a-2"
    );
    assert_eq!(
        parse_cpu_core_list("1-2-3").unwrap_err(),
        "invalid CPU core range in --cpu-cores: 1-2-3"
    );
    assert_eq!(
        parse_cpu_core_list("x").unwrap_err(),
        "invalid CPU core id in --cpu-cores: x"
    );
    assert_eq!(
        parse_cpu_core_list("0, ,1").unwrap_err(),
        "invalid --cpu-cores value: 0, ,1"
    );
}

#[test]
fn scheduler_name_rules() {
    assert_eq!(parse_scheduler_name_arg("exp-1.a_B").unwrap(), "exp-1.a_B");
    assert_eq!(
        parse_scheduler_name_arg("").unwrap_err(),
        "--scheduler-name cannot be empty"
    );
    assert_eq!(
        parse_scheduler_name_arg("a b").unwrap_err(),
        "invalid --scheduler-name value: a b; use only ASCII letters, digits, '_', '-', or '.'"
    );
}

#[test]
fn positive_usize_rules() {
    assert_eq!(parse_positive_usize_arg("--cpu-threads", "7").unwrap(), 7);
    assert_eq!(
        parse_positive_usize_arg("--cpu-threads", "0").unwrap_err(),
        "--cpu-threads must be positive"
    );
    assert_eq!(
        parse_positive_usize_arg("--cpus-per-job", "abc").unwrap_err(),
        "invalid --cpus-per-job value: abc"
    );
}

#[test]
fn parse_args_help_forms() {
    assert!(matches!(parse_args(&argv(&["prog"])).unwrap(), CliAction::Help));
    assert!(matches!(parse_args(&argv(&["prog", "-h"])).unwrap(), CliAction::Help));
    assert!(matches!(parse_args(&argv(&["prog", "--help"])).unwrap(), CliAction::Help));
    assert!(matches!(
        parse_args(&argv(&["prog", "run", "jobs.txt", "--help"])).unwrap(),
        CliAction::Help
    ));
}

#[test]
fn parse_args_defaults() {
    match parse_args(&argv(&["prog", "run"])).unwrap() {
        CliAction::Run(options) => {
            assert_eq!(options.input_path, None);
            assert_eq!(options.logs_dir, "logs");
            assert_eq!(options.scheduler_name, None);
            assert_eq!(options.cpu_threads, None);
            assert_eq!(options.cpu_cores, CpuCoresArg::Disabled);
            assert_eq!(options.cpus_per_job, None);
            assert_eq!(options.cuda_devices, CudaDevicesArg::Auto);
            assert_eq!(options.idle_memory_threshold_mb, 64);
            assert_eq!(options.idle_utilization_threshold, 0);
            assert_eq!(options.tick_seconds, 1);
            assert!(!options.dry_run);
            assert!(!options.keep_job_tabs);
            assert!(!options.verbose);
        }
        CliAction::Help => panic!("expected run"),
    }
}

#[test]
fn parse_args_tick_seconds_and_later_values_win() {
    match parse_args(&argv(&[
        "prog",
        "run",
        "--tick-seconds",
        "5",
        "--logs-dir",
        "a",
        "--logs-dir",
        "b",
    ]))
    .unwrap()
    {
        CliAction::Run(options) => {
            assert_eq!(options.tick_seconds, 5);
            assert_eq!(options.logs_dir, "b");
        }
        CliAction::Help => panic!("expected run"),
    }
}

#[test]
fn parse_args_errors() {
    assert_eq!(
        parse_args(&argv(&["prog", "start"])).unwrap_err(),
        format!("unknown command: start\n\n{}", help_text())
    );
    assert_eq!(
        parse_args(&argv(&["prog", "run", "--logs-dir"])).unwrap_err(),
        "--logs-dir requires a value"
    );
    assert_eq!(
        parse_args(&argv(&["prog", "run", "--bogus"])).unwrap_err(),
        format!("unknown option: --bogus\n\n{}", help_text())
    );
    assert_eq!(
        parse_args(&argv(&["prog", "run", "a.txt", "b.txt"])).unwrap_err(),
        "only one input file is allowed"
    );
    assert_eq!(
        parse_args(&argv(&["prog", "run", "--tick-seconds", "-1"])).unwrap_err(),
        "invalid --tick-seconds value: -1"
    );
    assert_eq!(
        parse_args(&argv(&["prog", "run", "--idle-memory-threshold-mb", "x"])).unwrap_err(),
        "invalid --idle-memory-threshold-mb value: x"
    );
    assert_eq!(
        parse_args(&argv(&["prog", "run", "--cpu-threads", "0"])).unwrap_err(),
        "--cpu-threads must be positive"
    );
    assert_eq!(
        parse_args(&argv(&["prog", "run", "--scheduler-name", "a/b"])).unwrap_err(),
        "invalid --scheduler-name value: a/b; use only ASCII letters, digits, '_', '-', or '.'"
    );
}

// ---------------------------------------------------------------------------
// CPU slots
// ---------------------------------------------------------------------------

#[test]
fn slots_drop_the_incomplete_tail() {
    assert_eq!(
        split_cpu_pool_into_slots(vec![0, 1, 2, 3, 4], 2).unwrap(),
        vec![vec![0, 1], vec![2, 3]]
    );
}

#[test]
fn slot_split_errors() {
    let e = split_cpu_pool_into_slots(vec![0, 1], 0).unwrap_err();
    assert_eq!(e.kind, ErrorKind::InvalidInput);
    assert_eq!(e.message, "--cpus-per-job must be positive");
    let e = split_cpu_pool_into_slots(vec![0, 1], 3).unwrap_err();
    assert_eq!(e.kind, ErrorKind::InvalidInput);
    assert_eq!(e.message, "--cpus-per-job (3) exceeds CPU core pool size (2)");
}

#[test]
fn resolve_cpu_slots_cases() {
    assert_eq!(
        resolve_cpu_slots(&CpuCoresArg::Disabled, None, 8).unwrap(),
        Vec::<Vec<usize>>::new()
    );
    assert_eq!(
        resolve_cpu_slots(&CpuCoresArg::Disabled, Some(2), 8).unwrap_err().message,
        "--cpus-per-job requires --cpu-cores auto or an explicit core list"
    );
    assert_eq!(
        resolve_cpu_slots(&CpuCoresArg::Auto, None, 8).unwrap_err().message,
        "--cpu-cores auto requires --cpus-per-job"
    );
    assert_eq!(
        resolve_cpu_slots(&CpuCoresArg::Auto, Some(3), 8).unwrap(),
        vec![vec![0, 1, 2], vec![3, 4, 5]]
    );
    assert_eq!(
        resolve_cpu_slots(&CpuCoresArg::Explicit(vec![4, 5, 6]), None, 8)
            .unwrap_err()
            .message,
        "--cpu-cores with an explicit core list requires --cpus-per-job"
    );
    assert_eq!(
        resolve_cpu_slots(&CpuCoresArg::Explicit(vec![4, 5, 6]), Some(1), 8).unwrap(),
        vec![vec![4], vec![5], vec![6]]
    );
}

// ---------------------------------------------------------------------------
// GPUs
// ---------------------------------------------------------------------------

fn snapshots() -> Vec<GpuSnapshot> {
    vec![
        GpuSnapshot { index: 0, memory_used_mb: 10, utilization_gpu: 0 },
        GpuSnapshot { index: 1, memory_used_mb: 5000, utilization_gpu: 50 },
        GpuSnapshot { index: 2, memory_used_mb: 0, utilization_gpu: 0 },
    ]
}

#[test]
fn gpu_snapshot_parse_errors() {
    let e = parse_gpu_snapshots(b"0, 1\n").unwrap_err();
    assert_eq!(e.kind, ErrorKind::InvalidData);
    assert_eq!(e.message, "unexpected nvidia-smi output line: 0, 1");
    assert_eq!(
        parse_gpu_snapshots(b"x, 1, 2").unwrap_err().message,
        "invalid GPU index from nvidia-smi"
    );
    assert_eq!(
        parse_gpu_snapshots(b"0, y, 2").unwrap_err().message,
        "invalid memory.used from nvidia-smi"
    );
    assert_eq!(
        parse_gpu_snapshots(b"0, 1, z").unwrap_err().message,
        "invalid utilization.gpu from nvidia-smi"
    );
    assert_eq!(parse_gpu_snapshots(b"").unwrap(), Vec::<GpuSnapshot>::new());
}

#[test]
fn gpu_snapshot_parse_decodes_invalid_utf8_lossily() {
    let e = parse_gpu_snapshots(b"\xff\n").unwrap_err();
    assert_eq!(e.message, "unexpected nvidia-smi output line: \u{FFFD}");
}

#[test]
fn resolve_cuda_devices_cases() {
    let snaps = snapshots();
    assert_eq!(resolve_cuda_devices(&CudaDevicesArg::Auto, 64, 0, &snaps).unwrap(), vec![0, 2]);
    assert_eq!(
        resolve_cuda_devices(&CudaDevicesArg::Disabled, 64, 0, &snaps).unwrap(),
        Vec::<usize>::new()
    );
    assert_eq!(
        resolve_cuda_devices(&CudaDevicesArg::Explicit(vec![2, 0]), 64, 0, &snaps).unwrap(),
        vec![2, 0]
    );
    let e = resolve_cuda_devices(&CudaDevicesArg::Explicit(vec![0, 1]), 64, 0, &snaps).unwrap_err();
    assert_eq!(e.kind, ErrorKind::Other);
    assert_eq!(e.message, busy_cuda_device_message(1, &snaps[1], 64, 0));
    let e = resolve_cuda_devices(&CudaDevicesArg::Explicit(vec![7]), 64, 0, &snaps).unwrap_err();
    assert_eq!(e.kind, ErrorKind::InvalidInput);
    assert_eq!(e.message, "CUDA device 7 does not exist");
    let e = resolve_cuda_devices(&CudaDevicesArg::Auto, 64, 0, &vec![snaps[1]]).unwrap_err();
    assert_eq!(e.kind, ErrorKind::Other);
    assert_eq!(
        e.message,
        format!("auto mode found no idle CUDA devices\n\n{}", idle_threshold_help(64, 0))
    );
    assert!(needs_gpu_query(&CudaDevicesArg::Auto));
    assert!(!needs_gpu_query(&CudaDevicesArg::Disabled));
}

#[test]
fn idle_threshold_help_reports_current_values() {
    let help = idle_threshold_help(64, 0);
    assert!(help.starts_with("GPU idleness is checked before jobs start:\n"));
    assert!(help.contains("allow a GPU only when memory.used <= N MiB (current: 64)"));
    assert!(help.contains("allow a GPU only when utilization.gpu <= N% (current: 0)"));
}

#[test]
fn run_resources_cases() {
    let mut options = RunOptions::default();
    let e = resolve_run_resources(&options, &Vec::new(), 4).unwrap_err();
    assert_eq!(e.kind, ErrorKind::Other);
    options.cuda_devices = CudaDevicesArg::Explicit(Vec::new());
    let e = resolve_run_resources(&options, &snapshots(), 4).unwrap_err();
    assert_eq!(e.kind, ErrorKind::InvalidInput);
    assert_eq!(e.message, "no usable CUDA devices resolved");
    options.cuda_devices = CudaDevicesArg::Disabled;
    options.cpu_cores = CpuCoresArg::Auto;
    options.cpus_per_job = Some(2);
    let (gpus, slots) = resolve_run_resources(&options, &Vec::new(), 4).unwrap();
    assert!(gpus.is_empty());
    assert_eq!(slots, vec![vec![0, 1], vec![2, 3]]);
    options.cuda_devices = CudaDevicesArg::Auto;
    let (gpus, _) = resolve_run_resources(&options, &snapshots(), 4).unwrap();
    assert_eq!(gpus, vec![0, 2]);
}

#[test]
fn empty_input_is_refused() {
    let e = check_commands(&Vec::new()).unwrap_err();
    assert_eq!(e.kind, ErrorKind::InvalidInput);
    assert_eq!(e.message, "no jobs found in input");
    assert!(check_commands(&strings(&["echo"])).is_ok());
}

// ---------------------------------------------------------------------------
// tmux output
// ---------------------------------------------------------------------------

#[test]
fn tmux_output_parsing() {
    assert_eq!(parse_window_names(b" main \n\n# notes\njob_1\n"), vec!["main", "# notes", "job_1"]);
    assert!(parse_pane_dead(b" 1 \n0\n"));
    assert!(!parse_pane_dead(b"0\n1\n"));
    assert!(!parse_pane_dead(b""));
    assert_eq!(parse_tmux_name(b"  work \n"), Some("work".to_string()));
    assert_eq!(parse_tmux_name(b" \n "), None);
    assert_eq!(parse_tmux_name(b"a\xffb"), Some("a\u{FFFD}b".to_string()));
}

// ---------------------------------------------------------------------------
// namespaces
// ---------------------------------------------------------------------------

#[test]
fn auto_namespace_skips_taken_names() {
    let ns = resolve_run_namespace(&strings(&["main", "__sched__", "job_1"]), "s", "main", None, 2)
        .unwrap();
    assert_eq!(
        ns,
        RunNamespace {
            scheduler_window_name: "__sched_2__".to_string(),
            job_window_prefix: "sched_2_job".to_string(),
        }
    );
}

#[test]
fn auto_namespace_reuses_current_scheduler_window() {
    let ns = resolve_run_namespace(&strings(&["__sched__"]), "s", "__sched__", None, 1).unwrap();
    assert_eq!(ns.scheduler_window_name, "__sched__");
    assert_eq!(ns.job_window_prefix, "job");
}

#[test]
fn named_namespace_conflict_is_reported() {
    let e = resolve_run_namespace(&strings(&["x", "exp_job_1", "exp_job_1"]), "s", "x", Some("exp"), 1)
        .unwrap_err();
    assert_eq!(e.kind, ErrorKind::AlreadyExists);
    assert_eq!(e.message, "window name conflict in session s: exp_job_1");
    let ns = resolve_run_namespace(&strings(&["x", "exp_job_2"]), "s", "x", Some("exp"), 1).unwrap();
    assert_eq!(ns.scheduler_window_name, "__sched_exp__");
    assert_eq!(ns.job_window_prefix, "exp_job");
}

#[test]
fn job_window_must_be_absent() {
    let e = ensure_job_window_absent(&strings(&["job_1"]), "s", "job_1").unwrap_err();
    assert_eq!(e.kind, ErrorKind::AlreadyExists);
    assert_eq!(e.message, "job window already exists in session s: job_1");
    assert!(ensure_job_window_absent(&strings(&["job_1"]), "s", "job_2").is_ok());
    assert_eq!(window_name_for_job("exp_job", 12), "exp_job_12");
}

// ---------------------------------------------------------------------------
// jobs and exit codes
// ---------------------------------------------------------------------------

#[test]
fn job_paths_follow_the_logs_dir() {
    let j = Job::new(3, "echo".to_string(), "logs");
    assert_eq!(j.log_path, "logs/job_3.log");
    assert_eq!(j.exit_path, "logs/job_3.exit");
    assert_eq!(j.name(), "job_3");
    assert_eq!(j.status, JobStatus::Pending);
    let j = Job::new(4, "echo".to_string(), "out/");
    assert_eq!(j.log_path, "out/job_4.log");
    let j = Job::new(5, "echo".to_string(), "");
    assert_eq!(j.exit_path, "job_5.exit");
}

#[test]
fn exit_file_contents() {
    assert_eq!(parse_exit_code(None, "p").unwrap(), None);
    assert_eq!(parse_exit_code(Some(" \n".to_string()), "p").unwrap(), None);
    assert_eq!(parse_exit_code(Some("42\n".to_string()), "p").unwrap(), Some(42));
    assert_eq!(parse_exit_code(Some("-3".to_string()), "p").unwrap(), Some(-3));
    let e = parse_exit_code(Some("abc".to_string()), "logs/job_1.exit").unwrap_err();
    assert_eq!(e.kind, ErrorKind::InvalidData);
    assert_eq!(e.message, "invalid exit code in logs/job_1.exit");
    assert!(parse_exit_code(Some("99999999999".to_string()), "p").is_err());
}

#[test]
fn exit_code_states_and_texts() {
    assert_eq!(map_exit_code(Some(-1)), JobStatus::Failed);
    assert_eq!(map_exit_code(Some(2)), JobStatus::Failed);
    assert_eq!(format_exit_code_suffix(Some(2)), " (exit=2)");
    assert_eq!(format_exit_code_suffix(Some(-9)), " (exit=-9)");
    assert_eq!(format_exit_code_suffix(None), "");
    assert_eq!(format_job_status(&JobStatus::Pending), "Pending");
    assert_eq!(format_job_status(&JobStatus::Scheduled), "Scheduled");
    assert_eq!(format_job_status(&JobStatus::Running), "Running");
    assert_eq!(format_job_status(&JobStatus::Done), "Done");
    assert_eq!(format_job_status(&JobStatus::Failed), "Failed");
    assert_eq!(format_job_status(&JobStatus::Cancelled), "Cancelled");
    assert!(JobStatus::Done.is_finished());
    assert!(!JobStatus::Running.is_finished());
}

// ---------------------------------------------------------------------------
// formatting and scripts
// ---------------------------------------------------------------------------

#[test]
fn formatting_helpers() {
    assert_eq!(format_cpu_slots(&vec![vec![0, 1], vec![2]]), "[0,1],[2]");
    assert_eq!(format_cpu_slots(&Vec::new()), "none");
    assert_eq!(format_cpu_threads(None), "unlimited");
    assert_eq!(format_cpu_threads(Some(3)), "3");
    assert_eq!(format_cpu_cores(None), "none");
    assert_eq!(format_cpu_cores(Some(&vec![5, 1])), "5,1");
    assert_eq!(join_ids(&vec![1, 3]), "1, 3");
    assert_eq!(effective_cpu_threads(None, Some(2)), Some(2));
    assert_eq!(effective_cpu_threads(Some(1), Some(2)), Some(1));
    assert_eq!(effective_cpu_threads(None, None), None);
}

#[test]
fn env_pairs_in_order() {
    let pairs = build_runtime_env_pairs(Some(1), Some(4));
    assert_eq!(
        format_env_pairs_inline(&pairs),
        "CUDA_VISIBLE_DEVICES='1' PYTHONUNBUFFERED='1' OMP_NUM_THREADS='4' MKL_NUM_THREADS='4' \
OPENBLAS_NUM_THREADS='4' NUMEXPR_NUM_THREADS='4' VECLIB_MAXIMUM_THREADS='4' BLIS_NUM_THREADS='4' \
DIAMOND_TORCH_NUM_THREADS='4' DIAMOND_TORCH_INTEROP_THREADS='1'"
    );
    let pairs = build_runtime_env_pairs(None, None);
    assert_eq!(format_env_exports(&pairs), "export PYTHONUNBUFFERED='1'");
    let pairs = build_runtime_env_pairs(Some(0), None);
    assert_eq!(
        format_env_exports(&pairs),
        "export CUDA_VISIBLE_DEVICES='0'\nexport PYTHONUNBUFFERED='1'"
    );
}

#[test]
fn job_invocation_with_and_without_taskset() {
    assert_eq!(
        build_job_invocation("echo hi", Some(&vec![2, 3])),
        "taskset -c '2,3' bash -lc 'echo hi'"
    );
    assert_eq!(build_job_invocation("echo hi", None), "bash -lc 'echo hi'");
}

#[test]
fn build_script_exact_text() {
    let job = Job::new(1, "echo hi".to_string(), "logs");
    let script = build_script(&job, None, None, None);
    let expected = r#"echo "================================"
echo "JOB ID: 1"
echo "GPU: none"
echo "CPU CORES: none"
echo "CPU THREADS: unlimited"
echo "LOG: logs/job_1.log"
echo "================================"
echo "[CMD]"
echo 'PYTHONUNBUFFERED='"'"'1'"'"' bash -lc '"'"'echo hi'"'"''
echo "--------------------------------"

set -o pipefail

export PYTHONUNBUFFERED='1'
bash -lc 'echo hi' \
2>&1 | tee 'logs/job_1.log'

EXIT_CODE=$?

echo "EXIT CODE: $EXIT_CODE"
echo $EXIT_CODE > 'logs/job_1.exit'

exit $EXIT_CODE"#;
    assert_eq!(script, expected);
}

#[test]
fn startup_report_lines() {
    let ns = RunNamespace {
        scheduler_window_name: "__sched__".to_string(),
        job_window_prefix: "job".to_string(),
    };
    let report = build_startup_report("s", &ns, &vec![0, 2], None, Some(2), &vec![vec![0, 1]], "logs", 3);
    assert_eq!(
        report,
        "Session: s\nScheduler tab: __sched__\nCurrent tab renamed to __sched__.\n\
Job tabs will be appended after it.\nFinal CUDA device range: cuda:0,cuda:2\n\
CPU threads per job: 2\nCPU slots: [0,1]\nLogs dir: logs\n3 jobs in total."
    );
}

#[test]
fn insert_sorted_unique_keeps_order_and_uniqueness() {
    let mut v = vec![1, 3];
    insert_sorted_unique(&mut v, 2);
    assert_eq!(v, vec![1, 2, 3]);
    insert_sorted_unique(&mut v, 3);
    assert_eq!(v, vec![1, 2, 3]);
    insert_sorted_unique(&mut v, 0);
    assert_eq!(v, vec![0, 1, 2, 3]);
}

// ---------------------------------------------------------------------------
// the scheduler
// ---------------------------------------------------------------------------

#[test]
fn jobs_take_gpus_in_order_and_wait_when_none_is_free() {
    let mut s = scheduler_with(vec![4, 7], Vec::new(), 3, false);
    let launches = s.tick(&Vec::new()).unwrap();
    assert_eq!(launches.len(), 2);
    assert_eq!(launches[0].job_index, 0);
    assert_eq!(launches[0].window_name, "job_1");
    assert_eq!(launches[1].job_index, 1);
    assert_eq!(launches[1].window_name, "job_2");
    assert_eq!(s.jobs[0].gpu_id, Some(4));
    assert_eq!(s.jobs[1].gpu_id, Some(7));
    assert_eq!(s.jobs[2].status, JobStatus::Pending);
    assert_eq!(s.jobs[2].gpu_id, None);
    assert_eq!(s.gpu_in_use, vec![true, true]);
    for l in &launches {
        assert_eq!(l.shell_command, build_tmux_shell_command(&l.script));
        assert!(!l.keep_on_exit);
    }
    assert!(launches[0].script.contains("export CUDA_VISIBLE_DEVICES='4'"));
}

#[test]
fn finished_job_frees_its_gpu_for_the_next_one() {
    let mut s = scheduler_with(vec![4, 7], Vec::new(), 3, true);
    let launches = s.tick(&Vec::new()).unwrap();
    for l in launches {
        s.mark_job_running(l.job_index, l.window_name);
    }
    assert_eq!(s.jobs[0].status, JobStatus::Running);
    assert_eq!(s.jobs[0].window_name, Some("job_1".to_string()));
    let lines = s
        .finalize_running_jobs(
            &strings(&["__sched__", "job_1", "job_2"]),
            &strings(&["job_1"]),
            &vec![(1, "0\n".to_string())],
        )
        .unwrap();
    assert_eq!(lines, vec!["[FINISHED] job_1 -> Done (exit=0)"]);
    assert_eq!(s.jobs[0].status, JobStatus::Done);
    assert_eq!(s.jobs[0].gpu_id, None);
    assert_eq!(s.jobs[1].status, JobStatus::Running);
    assert_eq!(s.gpu_in_use, vec![false, true]);
    let launches = s.tick(&strings(&["__sched__", "job_2"])).unwrap();
    assert_eq!(launches.len(), 1);
    assert_eq!(launches[0].job_index, 2);
    assert_eq!(s.jobs[2].gpu_id, Some(4));
}

#[test]
fn closed_window_without_exit_file_is_cancelled() {
    let mut s = scheduler_with(vec![0], Vec::new(), 1, false);
    let launches = s.tick(&Vec::new()).unwrap();
    s.mark_job_running(launches[0].job_index, launches[0].window_name.clone());
    let lines = s.finalize_running_jobs(&Vec::new(), &Vec::new(), &Vec::new()).unwrap();
    assert!(lines.is_empty());
    assert_eq!(s.jobs[0].status, JobStatus::Cancelled);
    assert!(s.all_jobs_finished());
    assert_eq!(s.gpu_in_use, vec![false]);
}

#[test]
fn live_window_keeps_its_job_running() {
    let mut s = scheduler_with(vec![0], Vec::new(), 1, false);
    let launches = s.tick(&Vec::new()).unwrap();
    s.mark_job_running(launches[0].job_index, launches[0].window_name.clone());
    s.finalize_running_jobs(&strings(&["job_1"]), &Vec::new(), &vec![(1, "1".to_string())])
        .unwrap();
    assert_eq!(s.jobs[0].status, JobStatus::Running);
    assert!(!s.all_jobs_finished());
}

#[test]
fn unreadable_exit_file_stops_the_round() {
    let mut s = scheduler_with(vec![0], Vec::new(), 1, false);
    let launches = s.tick(&Vec::new()).unwrap();
    s.mark_job_running(launches[0].job_index, launches[0].window_name.clone());
    let e = s
        .finalize_running_jobs(&strings(&["job_1"]), &strings(&["job_1"]), &vec![(1, "oops".to_string())])
        .unwrap_err();
    assert_eq!(e.kind, ErrorKind::InvalidData);
    assert_eq!(e.message, "invalid exit code in logs/job_1.exit");
    assert_eq!(s.jobs[0].status, JobStatus::Running);
    assert_eq!(s.gpu_in_use, vec![true]);
}

#[test]
fn job_needs_both_a_gpu_and_a_core_slot() {
    let mut s = scheduler_with(vec![0], vec![vec![0, 1], vec![2, 3]], 2, false);
    let launches = s.tick(&Vec::new()).unwrap();
    assert_eq!(launches.len(), 1);
    assert_eq!(s.jobs[0].cpu_cores, Some(vec![0, 1]));
    assert_eq!(s.jobs[1].status, JobStatus::Pending);
    assert_eq!(s.cpu_in_use, vec![true, false]);
    assert!(launches[0].script.contains("taskset -c '0,1' bash -lc 'python job1.py'"));
    assert!(launches[0].script.contains("export OMP_NUM_THREADS='2'"));
}

#[test]
fn core_slots_alone_limit_the_running_jobs() {
    let mut s = scheduler_with(Vec::new(), vec![vec![0], vec![1]], 3, false);
    let launches = s.tick(&Vec::new()).unwrap();
    assert_eq!(launches.len(), 2);
    assert_eq!(s.jobs[0].gpu_id, None);
    assert_eq!(s.jobs[1].cpu_cores, Some(vec![1]));
    assert_eq!(s.jobs[2].status, JobStatus::Pending);
    assert!(!launches[0].script.contains("CUDA_VISIBLE_DEVICES"));
}

#[test]
fn no_pools_means_every_job_starts() {
    let mut s = scheduler_with(Vec::new(), Vec::new(), 3, false);
    let launches = s.tick(&Vec::new()).unwrap();
    assert_eq!(launches.len(), 3);
}

#[test]
fn existing_job_window_stops_scheduling() {
    let mut s = scheduler_with(vec![0, 1], Vec::new(), 2, false);
    let e = s.tick(&strings(&["job_1"])).unwrap_err();
    assert_eq!(e.kind, ErrorKind::AlreadyExists);
    assert_eq!(e.message, "job window already exists in session session: job_1");
    assert_eq!(s.jobs[0].status, JobStatus::Pending);
    assert_eq!(s.jobs[1].status, JobStatus::Pending);
    assert_eq!(s.gpu_in_use, vec![false, false]);
}

#[test]
fn mark_running_ignores_jobs_that_are_not_scheduled() {
    let mut s = scheduler_with(vec![0], Vec::new(), 1, false);
    s.mark_job_running(0, "job_1".to_string());
    assert_eq!(s.jobs[0].status, JobStatus::Pending);
    s.mark_job_running(5, "job_6".to_string());
    assert_eq!(s.jobs.len(), 1);
}

#[test]
fn keep_job_tabs_is_carried_to_launches() {
    let mut s = Scheduler::new(
        "s".to_string(),
        "logs".to_string(),
        Vec::new(),
        Vec::new(),
        vec!["echo".to_string()],
        "exp_job".to_string(),
        Some(3),
        true,
        false,
    );
    let launches = s.tick(&Vec::new()).unwrap();
    assert!(launches[0].keep_on_exit);
    assert_eq!(launches[0].window_name, "exp_job_1");
    assert_eq!(s.job_window_name(1), "exp_job_1");
    assert!(launches[0].script.contains("export OMP_NUM_THREADS='3'"));
}

#[test]
fn summary_of_a_fresh_scheduler() {
    let s = scheduler_with(Vec::new(), Vec::new(), 2, false);
    assert_eq!(
        s.summary(),
        "===== Scheduler Summary =====\nSession: session\nCUDA devices: none\nCPU slots: none\n\
Logs dir: logs\nTotal jobs: 2\nDone: 0\nFailed: 0\nCancelled: 0"
    );
    assert!(!s.all_jobs_finished());
    assert_eq!(s.jobs().len(), 2);
}

#[test]
fn summary_counts_cover_every_finished_job() {
    let mut s = scheduler_with(Vec::new(), Vec::new(), 3, false);
    let launches = s.tick(&Vec::new()).unwrap();
    for l in launches {
        s.mark_job_running(l.job_index, l.window_name);
    }
    s.finalize_running_jobs(
        &Vec::new(),
        &Vec::new(),
        &vec![(1, "0".to_string()), (2, "3".to_string())],
    )
    .unwrap();
    assert!(s.all_jobs_finished());
    assert_eq!(
        s.summary(),
        "===== Scheduler Summary =====\nSession: session\nCUDA devices: none\nCPU slots: none\n\
Logs dir: logs\nTotal jobs: 3\nDone: 1\nFailed: 1\nCancelled: 1\nFailed job IDs: 2\n\
Cancelled job IDs: 3"
    );
}

#[test]
fn gpus_are_given_in_pool_order_to_jobs_in_input_order() {
    let mut s = scheduler_with(vec![9, 4, 7], Vec::new(), 4, false);
    let launches = s.tick(&Vec::new()).unwrap();
    for l in launches {
        s.mark_job_running(l.job_index, l.window_name);
    }
    assert_eq!(s.jobs[0].gpu_id, Some(9));
    assert_eq!(s.jobs[1].gpu_id, Some(4));
    assert_eq!(s.jobs[2].gpu_id, Some(7));
    s.finalize_running_jobs(
        &strings(&["job_1", "job_3"]),
        &Vec::new(),
        &vec![(2, "0".to_string())],
    )
    .unwrap();
    assert_eq!(s.jobs[1].status, JobStatus::Done);
    assert_eq!(s.gpu_in_use, vec![true, false, true]);
    s.tick(&strings(&["job_1", "job_3"])).unwrap();
    assert_eq!(s.jobs[3].gpu_id, Some(4));
}

#[test]
fn jobs_ahead_of_a_blocked_window_are_scheduled_first() {
    let mut s = scheduler_with(vec![0, 1], Vec::new(), 3, false);
    let e = s.tick(&strings(&["job_2"])).unwrap_err();
    assert_eq!(e.message, "job window already exists in session session: job_2");
    assert_eq!(s.jobs[0].status, JobStatus::Scheduled);
    assert_eq!(s.jobs[0].gpu_id, Some(0));
    assert_eq!(s.jobs[1].status, JobStatus::Pending);
    assert_eq!(s.jobs[2].status, JobStatus::Pending);
    assert_eq!(s.gpu_in_use, vec![true, false]);
}

#[test]
fn a_round_schedules_as_many_jobs_as_the_smaller_pool_allows() {
    let mut s = scheduler_with(vec![0, 1, 2], vec![vec![0], vec![1]], 5, false);
    let launches = s.tick(&Vec::new()).unwrap();
    assert_eq!(launches.len(), 2);
    let states: Vec<JobStatus> = s.jobs.iter().map(|j| j.status).collect();
    assert_eq!(
        states,
        vec![
            JobStatus::Scheduled,
            JobStatus::Scheduled,
            JobStatus::Pending,
            JobStatus::Pending,
            JobStatus::Pending
        ]
    );
    assert_eq!(s.gpu_in_use, vec![true, true, false]);
    assert_eq!(s.cpu_in_use, vec![true, true]);
}

#[test]
fn ending_jobs_frees_their_gpus_and_core_slots() {
    let mut s = scheduler_with(vec![5, 6], vec![vec![0, 1], vec![2, 3]], 2, false);
    let launches = s.tick(&Vec::new()).unwrap();
    for l in launches {
        s.mark_job_running(l.job_index, l.window_name);
    }
    s.finalize_running_jobs(&strings(&["job_2"]), &Vec::new(), &vec![(1, "1".to_string())])
        .unwrap();
    assert_eq!(s.jobs[0].status, JobStatus::Failed);
    assert_eq!(s.gpu_in_use, vec![false, true]);
    assert_eq!(s.cpu_in_use, vec![false, true]);
    assert_eq!(s.jobs[1].cpu_cores, Some(vec![2, 3]));
}
