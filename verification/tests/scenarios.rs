use tiny_exp_scheduler::cli::{
    help_text, parse_args, parse_cpu_cores_arg, parse_cuda_devices_arg, CliAction, CpuCoresArg,
    CudaDevicesArg, RunOptions,
};
use tiny_exp_scheduler::cpu::{resolve_cpu_slots, split_cpu_pool_into_slots};
use tiny_exp_scheduler::format::format_cuda_devices;
use tiny_exp_scheduler::gpu::{busy_cuda_device_message, is_gpu_idle, parse_gpu_snapshots, GpuSnapshot};
use tiny_exp_scheduler::input::parse_commands;
use tiny_exp_scheduler::job::{map_exit_code, Job, JobStatus};
use tiny_exp_scheduler::namespace::{
    auto_run_namespace, find_window_conflicts, named_run_namespace, planned_window_names,
    DEFAULT_JOB_WINDOW_PREFIX, DEFAULT_SCHEDULER_WINDOW_NAME,
};
use tiny_exp_scheduler::run::build_dry_run_summary;
use tiny_exp_scheduler::scheduler::Scheduler;
use tiny_exp_scheduler::script::{build_script, build_tmux_shell_command, shell_quote};

#[test]
fn parse_commands_skips_comments_and_empty_lines() {
    let input = "\n# comment\npython a.py\n  \npython b.py --x 1\n";
    let commands = parse_commands(input);
    assert_eq!(commands, vec!["python a.py", "python b.py --x 1"]);
}

#[test]
fn parse_run_args_handles_options() {
    let args = vec![
        "tiny-exp-scheduler".to_string(),
        "run".to_string(),
        "commands.txt".to_string(),
        "--logs-dir".to_string(),
        "artifacts".to_string(),
        "--scheduler-name".to_string(),
        "train-a".to_string(),
        "--cpu-threads".to_string(),
        "2".to_string(),
        "--cpu-cores".to_string(),
        "0-3,8,10-11".to_string(),
        "--cpus-per-job".to_string(),
        "2".to_string(),
        "--cuda-devices".to_string(),
        "0,2".to_string(),
        "--idle-memory-threshold-mb".to_string(),
        "96".to_string(),
        "--idle-utilization-threshold".to_string(),
        "25".to_string(),
        "--dry-run".to_string(),
        "--keep-job-tabs".to_string(),
        "--verbose".to_string(),
    ];
    let parsed = parse_args(&args).unwrap();
    match parsed {
        CliAction::Run(options) => {
            assert_eq!(options.input_path, Some("commands.txt".to_string()));
            assert_eq!(options.logs_dir, "artifacts".to_string());
            assert_eq!(options.scheduler_name, Some("train-a".to_string()));
            assert_eq!(options.cpu_threads, Some(2));
            assert_eq!(
                options.cpu_cores,
                CpuCoresArg::Explicit(vec![0, 1, 2, 3, 8, 10, 11])
            );
            assert_eq!(options.cpus_per_job, Some(2));
            assert_eq!(options.cuda_devices, CudaDevicesArg::Explicit(vec![0, 2]));
            assert_eq!(options.idle_memory_threshold_mb, 96);
            assert_eq!(options.idle_utilization_threshold, 25);
            assert!(options.dry_run);
            assert!(options.keep_job_tabs);
            assert!(options.verbose);
        }
        _ => panic!("expected run action"),
    }
}

#[test]
fn help_text_explains_tmux_runtime_model() {
    let help = help_text();
    assert!(help.contains("Run inside an existing tmux session."));
    assert!(help.contains("The current tab becomes an available scheduler tab"));
    assert!(help.contains("By default, finished job tabs exit and disappear."));
    assert!(help.contains("Detect idle GPUs once at startup"));
    assert!(help.contains("--dry-run"));
    assert!(help.contains("--idle-memory-threshold-mb"));
    assert!(help.contains("--idle-utilization-threshold"));
    assert!(help.contains("--keep-job-tabs"));
    assert!(help.contains("--scheduler-name"));
    assert!(help.contains("--cpu-threads"));
    assert!(help.contains("--cpu-cores"));
    assert!(help.contains("--cpus-per-job"));
    assert!(help.contains("--verbose"));
    assert!(help.contains("tiny-exp-scheduler run [COMMANDS_FILE] [OPTIONS]"));
}

#[test]
fn build_script_contains_required_pieces() {
    let job = Job::new(1, "python eval.py --ckpt 1000".to_string(), "logs");
    let script = build_script(&job, Some(1), None, None);
    assert!(script.contains("JOB ID: 1"));
    assert!(script.contains("GPU: 1"));
    assert!(script.contains("CPU CORES: none"));
    assert!(script.contains("CPU THREADS: unlimited"));
    assert!(script.contains("set -o pipefail"));
    assert!(script.contains("PYTHONUNBUFFERED='1'"));
    assert!(script.contains("tee 'logs/job_1.log'"));
    assert!(script.contains("echo $EXIT_CODE > 'logs/job_1.exit'"));
}

#[test]
fn build_script_without_gpu_skips_cuda_visible_devices() {
    let job = Job::new(1, "python train.py".to_string(), "logs");
    let script = build_script(&job, None, None, None);
    assert!(script.contains("GPU: none"));
    assert!(script.contains("PYTHONUNBUFFERED='1'"));
    assert!(!script.contains("CUDA_VISIBLE_DEVICES="));
}

#[test]
fn build_script_with_cpu_threads_sets_thread_env() {
    let job = Job::new(1, "python train.py".to_string(), "logs");
    let script = build_script(&job, Some(0), None, Some(2));
    assert!(script.contains("CPU THREADS: 2"));
    assert!(script.contains("CUDA_VISIBLE_DEVICES='0'"));
    assert!(script.contains("OMP_NUM_THREADS='2'"));
    assert!(script.contains("MKL_NUM_THREADS='2'"));
    assert!(script.contains("OPENBLAS_NUM_THREADS='2'"));
    assert!(script.contains("NUMEXPR_NUM_THREADS='2'"));
    assert!(script.contains("DIAMOND_TORCH_NUM_THREADS='2'"));
    assert!(script.contains("DIAMOND_TORCH_INTEROP_THREADS='1'"));
}

#[test]
fn build_script_with_cpu_cores_wraps_command_in_taskset() {
    let job = Job::new(1, "python train.py --x 1".to_string(), "logs");
    let cores = vec![0, 1, 2, 3];
    let script = build_script(&job, Some(0), Some(&cores), Some(4));
    assert!(script.contains("CPU CORES: 0,1,2,3"));
    assert!(script.contains("CPU THREADS: 4"));
    assert!(script.contains("taskset -c '0,1,2,3' bash -lc 'python train.py --x 1'"));
}

#[test]
fn build_tmux_shell_command_wraps_script_as_one_argument() {
    let command = build_tmux_shell_command("echo 'hello'");
    assert_eq!(command, r#"bash -lc 'echo '"'"'hello'"'"''"#);
}

#[test]
fn parse_args_rejects_internal_run_command() {
    let args = vec!["tiny-exp-scheduler".to_string(), "internal-run".to_string()];
    let err = parse_args(&args).unwrap_err();
    assert!(err.contains("unknown command: internal-run"));
}

#[test]
fn parse_cuda_devices_accepts_auto() {
    assert_eq!(
        parse_cuda_devices_arg("auto").unwrap(),
        CudaDevicesArg::Auto
    );
}

#[test]
fn parse_cuda_devices_accepts_none() {
    assert_eq!(
        parse_cuda_devices_arg("none").unwrap(),
        CudaDevicesArg::Disabled
    );
}

#[test]
fn parse_cuda_devices_accepts_explicit_list() {
    assert_eq!(
        parse_cuda_devices_arg("2,0,2,1").unwrap(),
        CudaDevicesArg::Explicit(vec![0, 1, 2])
    );
}

#[test]
fn parse_cpu_cores_accepts_ranges_and_lists() {
    assert_eq!(
        parse_cpu_cores_arg("4-6,1,6").unwrap(),
        CpuCoresArg::Explicit(vec![1, 4, 5, 6])
    );
}

#[test]
fn split_cpu_pool_into_fixed_size_slots() {
    let slots = split_cpu_pool_into_slots(vec![0, 1, 2, 3, 4], 2).unwrap();
    assert_eq!(slots, vec![vec![0, 1], vec![2, 3]]);
}

#[test]
fn resolve_cpu_slots_requires_cpus_per_job_for_explicit_pool() {
    let err = resolve_cpu_slots(&CpuCoresArg::Explicit(vec![0, 1]), None, 8).unwrap_err();
    assert!(err.to_string().contains("--cpus-per-job"));
}

#[test]
fn parse_gpu_snapshots_parses_nvidia_smi_output() {
    let snapshots = parse_gpu_snapshots(b"0, 12, 0\n1, 2048, 37\n").unwrap();
    assert_eq!(
        snapshots,
        vec![
            GpuSnapshot {
                index: 0,
                memory_used_mb: 12,
                utilization_gpu: 0,
            },
            GpuSnapshot {
                index: 1,
                memory_used_mb: 2048,
                utilization_gpu: 37,
            },
        ]
    );
}

#[test]
fn idle_gpu_rule_matches_current_threshold() {
    assert!(is_gpu_idle(
        &GpuSnapshot {
            index: 0,
            memory_used_mb: 64,
            utilization_gpu: 0,
        },
        64,
        0
    ));
    assert!(!is_gpu_idle(
        &GpuSnapshot {
            index: 0,
            memory_used_mb: 65,
            utilization_gpu: 0,
        },
        64,
        0
    ));
    assert!(!is_gpu_idle(
        &GpuSnapshot {
            index: 0,
            memory_used_mb: 32,
            utilization_gpu: 1,
        },
        64,
        0
    ));
    assert!(is_gpu_idle(
        &GpuSnapshot {
            index: 0,
            memory_used_mb: 96,
            utilization_gpu: 0,
        },
        96,
        0
    ));
    assert!(is_gpu_idle(
        &GpuSnapshot {
            index: 0,
            memory_used_mb: 96,
            utilization_gpu: 10,
        },
        96,
        10
    ));
}

#[test]
fn busy_cuda_device_message_explains_idle_thresholds() {
    let message = busy_cuda_device_message(
        0,
        &GpuSnapshot {
            index: 0,
            memory_used_mb: 4484,
            utilization_gpu: 0,
        },
        64,
        0,
    );

    assert!(message.contains("CUDA device 0 is busy"));
    assert!(message.contains("--idle-memory-threshold-mb 5000"));
    assert!(message.contains("--idle-utilization-threshold 40"));
    assert!(message.contains("allow a GPU only when memory.used <= N MiB"));
    assert!(message.contains("allow a GPU only when utilization.gpu <= N%"));
    assert!(message.contains("--idle-memory-threshold-mb 4484 --idle-utilization-threshold 0"));
}

#[test]
fn format_cuda_devices_is_explicit() {
    assert_eq!(format_cuda_devices(&vec![0, 2, 5]), "cuda:0,cuda:2,cuda:5");
}

#[test]
fn format_cuda_devices_none_is_stable() {
    assert_eq!(format_cuda_devices(&vec![]), "none");
}

#[test]
fn shell_quote_handles_single_quotes() {
    let quoted = shell_quote("python -c 'print(1)'");
    assert_eq!(quoted, r#"'python -c '"'"'print(1)'"'"''"#);
}

#[test]
fn scheduler_summary_lists_counts_and_problem_ids() {
    let scheduler = Scheduler {
        session: "exp".to_string(),
        jobs: vec![
            Job {
                id: 1,
                cmd: "a".to_string(),
                status: JobStatus::Done,
                gpu_id: None,
                cpu_cores: None,
                window_name: Some("job_1".to_string()),
                log_path: "logs/job_1.log".to_string(),
                exit_path: "logs/job_1.exit".to_string(),
            },
            Job {
                id: 2,
                cmd: "b".to_string(),
                status: JobStatus::Failed,
                gpu_id: None,
                cpu_cores: None,
                window_name: Some("job_2".to_string()),
                log_path: "logs/job_2.log".to_string(),
                exit_path: "logs/job_2.exit".to_string(),
            },
            Job {
                id: 3,
                cmd: "c".to_string(),
                status: JobStatus::Cancelled,
                gpu_id: None,
                cpu_cores: None,
                window_name: Some("job_3".to_string()),
                log_path: "logs/job_3.log".to_string(),
                exit_path: "logs/job_3.exit".to_string(),
            },
        ],
        logs_dir: "logs".to_string(),
        job_window_prefix: DEFAULT_JOB_WINDOW_PREFIX.to_string(),
        cpu_threads: None,
        device_ids: vec![0, 1, 2],
        gpu_in_use: vec![false, false, false],
        cpu_slots: vec![vec![0, 1], vec![2, 3]],
        cpu_in_use: vec![false, false],
        keep_job_tabs: false,
        verbose: false,
    };

    let summary = scheduler.summary();
    assert!(summary.contains("Session: exp"));
    assert!(summary.contains("CUDA devices: cuda:0,cuda:1,cuda:2"));
    assert!(summary.contains("CPU slots: [0,1],[2,3]"));
    assert!(summary.contains("Logs dir: logs"));
    assert!(summary.contains("Total jobs: 3"));
    assert!(summary.contains("Done: 1"));
    assert!(summary.contains("Failed: 1"));
    assert!(summary.contains("Cancelled: 1"));
    assert!(summary.contains("Failed job IDs: 2"));
    assert!(summary.contains("Cancelled job IDs: 3"));
}

#[test]
fn scheduler_releases_gpu_after_finish() {
    let mut scheduler = Scheduler::new(
        "session".to_string(),
        "logs".to_string(),
        vec![3],
        Vec::new(),
        vec!["python a.py".to_string(), "python b.py".to_string()],
        DEFAULT_JOB_WINDOW_PREFIX.to_string(),
        None,
        false,
        false,
    );
    scheduler.jobs[0].status = JobStatus::Running;
    scheduler.jobs[0].gpu_id = Some(3);
    scheduler.gpu_in_use[0] = true;
    scheduler.release_gpu(3);
    scheduler.jobs[0].status = JobStatus::Done;
    assert!(!scheduler.gpu_in_use[0]);
}

#[test]
fn map_exit_code_matches_spec() {
    assert_eq!(map_exit_code(Some(0)), JobStatus::Done);
    assert_eq!(map_exit_code(Some(130)), JobStatus::Cancelled);
    assert_eq!(map_exit_code(Some(1)), JobStatus::Failed);
    assert_eq!(map_exit_code(None), JobStatus::Cancelled);
}

#[test]
fn ctrl_c_exit_code_marks_job_cancelled_and_releases_gpu() {
    let mut scheduler = Scheduler::new(
        "session".to_string(),
        "logs".to_string(),
        vec![0],
        Vec::new(),
        vec!["python train.py".to_string()],
        DEFAULT_JOB_WINDOW_PREFIX.to_string(),
        None,
        false,
        false,
    );
    scheduler.jobs[0].status = JobStatus::Running;
    scheduler.jobs[0].gpu_id = Some(0);
    scheduler.gpu_in_use[0] = true;
    scheduler
        .finish_running_job(0, Some("130\n".to_string()))
        .unwrap();
    assert_eq!(scheduler.jobs[0].status, JobStatus::Cancelled);
    assert_eq!(scheduler.jobs[0].gpu_id, None);
    assert!(!scheduler.gpu_in_use[0]);
}

#[test]
fn missing_exit_file_marks_closed_window_as_cancelled_and_releases_gpu() {
    let mut scheduler = Scheduler::new(
        "session".to_string(),
        "logs".to_string(),
        vec![0],
        Vec::new(),
        vec!["python train.py".to_string()],
        DEFAULT_JOB_WINDOW_PREFIX.to_string(),
        None,
        false,
        false,
    );
    scheduler.jobs[0].status = JobStatus::Running;
    scheduler.jobs[0].gpu_id = Some(0);
    scheduler.gpu_in_use[0] = true;
    scheduler.finish_running_job(0, None).unwrap();
    assert_eq!(scheduler.jobs[0].status, JobStatus::Cancelled);
    assert_eq!(scheduler.jobs[0].gpu_id, None);
    assert!(!scheduler.gpu_in_use[0]);
}

#[test]
fn rename_current_window_command_is_stable() {
    // This only verifies the public name contract used by docs and runtime.
    assert_eq!(DEFAULT_SCHEDULER_WINDOW_NAME, "__sched__");
}

#[test]
fn dry_run_summary_includes_gpu_range_and_logs_dir() {
    let options = RunOptions {
        input_path: Some("commands.txt".to_string()),
        logs_dir: "artifacts".to_string(),
        scheduler_name: None,
        cpu_threads: Some(2),
        cpu_cores: CpuCoresArg::Explicit(vec![0, 1, 2, 3]),
        cpus_per_job: Some(2),
        cuda_devices: CudaDevicesArg::Explicit(vec![0, 2]),
        idle_memory_threshold_mb: 96,
        idle_utilization_threshold: 25,
        tick_seconds: 1,
        dry_run: true,
        keep_job_tabs: false,
        verbose: false,
    };
    let summary = build_dry_run_summary(&options, &vec![0, 2], &vec![vec![0, 1], vec![2, 3]], 4);
    assert!(summary.contains("===== Dry Run ====="));
    assert!(summary.contains("Jobs: 4"));
    assert!(summary.contains("CUDA devices: cuda:0,cuda:2"));
    assert!(summary.contains("CPU threads per job: 2"));
    assert!(summary.contains("CPU slots: [0,1],[2,3]"));
    assert!(summary.contains("Idle memory threshold: 96 MiB"));
    assert!(summary.contains("Idle utilization threshold: 25%"));
    assert!(summary.contains("Logs dir: artifacts"));
}

#[test]
fn find_window_conflicts_detects_scheduler_and_job_tabs() {
    let namespace = auto_run_namespace(1);
    let planned = planned_window_names(&namespace, 3);
    let existing = vec![
        "shell".to_string(),
        "__sched__".to_string(),
        "job_2".to_string(),
    ];
    let conflicts = find_window_conflicts(
        &existing,
        "shell",
        &namespace.scheduler_window_name,
        &planned,
    );
    assert_eq!(
        conflicts,
        vec!["__sched__".to_string(), "job_2".to_string()]
    );
}

#[test]
fn find_window_conflicts_allows_current_scheduler_window() {
    let namespace = auto_run_namespace(1);
    let planned = planned_window_names(&namespace, 1);
    let existing = vec!["__sched__".to_string(), "shell".to_string()];
    let conflicts = find_window_conflicts(
        &existing,
        "__sched__",
        &namespace.scheduler_window_name,
        &planned,
    );
    assert!(conflicts.is_empty());
}

#[test]
fn find_window_conflicts_rejects_duplicate_scheduler_window() {
    let namespace = auto_run_namespace(1);
    let planned = planned_window_names(&namespace, 1);
    let existing = vec![
        "__sched__".to_string(),
        "shell".to_string(),
        "__sched__".to_string(),
    ];
    let conflicts = find_window_conflicts(
        &existing,
        "__sched__",
        &namespace.scheduler_window_name,
        &planned,
    );
    assert_eq!(conflicts, vec!["__sched__".to_string()]);
}

#[test]
fn find_window_conflicts_still_rejects_job_tabs_from_current_scheduler_window() {
    let namespace = auto_run_namespace(1);
    let planned = planned_window_names(&namespace, 1);
    let existing = vec!["__sched__".to_string(), "job_1".to_string()];
    let conflicts = find_window_conflicts(
        &existing,
        "__sched__",
        &namespace.scheduler_window_name,
        &planned,
    );
    assert_eq!(conflicts, vec!["job_1".to_string()]);
}

#[test]
fn find_window_conflicts_allows_other_scheduler_job_tabs() {
    let namespace = auto_run_namespace(2);
    let planned = planned_window_names(&namespace, 2);
    let existing = vec!["shell".to_string(), "job_99".to_string()];
    let conflicts = find_window_conflicts(
        &existing,
        "shell",
        &namespace.scheduler_window_name,
        &planned,
    );
    assert!(conflicts.is_empty());
}

#[test]
fn find_window_conflicts_rejects_current_scheduler_namespaced_job_tabs() {
    let namespace = auto_run_namespace(2);
    let planned = planned_window_names(&namespace, 2);
    let existing = vec![
        "job_1".to_string(),
        "sched_2_job_1".to_string(),
        "sched_3_job_1".to_string(),
    ];
    let conflicts = find_window_conflicts(
        &existing,
        "shell",
        &namespace.scheduler_window_name,
        &planned,
    );
    assert_eq!(conflicts, vec!["sched_2_job_1".to_string()]);
}

#[test]
fn planned_window_names_match_runtime_contract() {
    let namespace = auto_run_namespace(1);
    assert_eq!(
        planned_window_names(&namespace, 3),
        vec![
            "__sched__".to_string(),
            "job_1".to_string(),
            "job_2".to_string(),
            "job_3".to_string(),
        ]
    );
}

#[test]
fn planned_window_names_for_auto_secondary_scheduler_are_namespaced() {
    let namespace = auto_run_namespace(2);
    assert_eq!(
        planned_window_names(&namespace, 2),
        vec![
            "__sched_2__".to_string(),
            "sched_2_job_1".to_string(),
            "sched_2_job_2".to_string(),
        ]
    );
}

#[test]
fn planned_window_names_for_named_scheduler_are_namespaced() {
    let namespace = named_run_namespace("train-a");
    assert_eq!(
        planned_window_names(&namespace, 2),
        vec![
            "__sched_train-a__".to_string(),
            "train-a_job_1".to_string(),
            "train-a_job_2".to_string(),
        ]
    );
}
