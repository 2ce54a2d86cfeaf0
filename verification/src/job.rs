//! Jobs, their states, and what an exit code means.
use vstd::prelude::*;

use crate::error::{ErrorKind, SchedulerError};
use crate::text::{chars_of, dec, opt_string_view, parse_i32, parse_i32_chars, push_char, push_i32, push_usize, signed_dec, trim, trim_chars};

verus! {

/// The state of a job: `Pending -> Scheduled -> Running -> Done/Failed/Cancelled`.
#[derive(Debug, Clone, Copy, PartialEq, Eq, Structural)]
pub enum JobStatus {
    Pending,
    Scheduled,
    Running,
    Done,
    Failed,
    Cancelled,
}

/// Done, Failed and Cancelled are the final states.
pub open spec fn finished(s: JobStatus) -> bool {
    s == JobStatus::Done || s == JobStatus::Failed || s == JobStatus::Cancelled
}

/// Scheduled and Running jobs hold their resources.
pub open spec fn active(s: JobStatus) -> bool {
    s == JobStatus::Scheduled || s == JobStatus::Running
}

/// The position of a state along the job's life; a job only moves forward.
pub open spec fn stage(s: JobStatus) -> nat {
    match s {
        JobStatus::Pending => 0,
        JobStatus::Scheduled => 1,
        JobStatus::Running => 2,
        _ => 3,
    }
}

impl JobStatus {
    /// Whether the state is Done, Failed or Cancelled.
    pub fn is_finished(&self) -> (r: bool)
        ensures
            r == finished(*self),
    {
        match self {
            JobStatus::Done | JobStatus::Failed | JobStatus::Cancelled => true,
            _ => false,
        }
    }
}

/// The name of the state, as the scheduler prints it.
pub open spec fn status_text(s: JobStatus) -> Seq<char> {
    match s {
        JobStatus::Pending => "Pending"@,
        JobStatus::Scheduled => "Scheduled"@,
        JobStatus::Running => "Running"@,
        JobStatus::Done => "Done"@,
        JobStatus::Failed => "Failed"@,
        JobStatus::Cancelled => "Cancelled"@,
    }
}

/// The name of a state.
pub fn format_job_status(status: &JobStatus) -> (r: &'static str)
    ensures
        r@ == status_text(*status),
{
    match status {
        JobStatus::Pending => "Pending",
        JobStatus::Scheduled => "Scheduled",
        JobStatus::Running => "Running",
        JobStatus::Done => "Done",
        JobStatus::Failed => "Failed",
        JobStatus::Cancelled => "Cancelled",
    }
}

/// The final state that an exit code gives: `0` is Done, `130` (Ctrl+C) and
/// a missing code are Cancelled, any other code is Failed.
pub open spec fn exit_status(code: Option<i32>) -> JobStatus {
    match code {
        Some(0) => JobStatus::Done,
        Some(130) => JobStatus::Cancelled,
        None => JobStatus::Cancelled,
        Some(_) => JobStatus::Failed,
    }
}

/// Only exit code 0 ends a job as Done; only 130 (Ctrl+C) or a missing exit
/// code end it as Cancelled; every other exit code, whatever its value (a
/// signal such as 137 or 143 included), ends it as Failed.
pub proof fn lemma_exit_code_states()
    ensures
        forall|code: Option<i32>| #[trigger] exit_status(code) == JobStatus::Done <==> code == Some(0i32),
        forall|code: Option<i32>|
            #[trigger] exit_status(code) == JobStatus::Cancelled <==> (code == Some(130i32) || code is None),
        forall|c: i32| c != 0 && c != 130 ==> #[trigger] exit_status(Some(c)) == JobStatus::Failed,
        forall|code: Option<i32>| finished(#[trigger] exit_status(code)),
{
}

/// The state an exit code gives a job: 0 is Done; 130, or no code, is
/// Cancelled; any other code is Failed.
pub fn map_exit_code(exit_code: Option<i32>) -> (r: JobStatus)
    ensures
        r == exit_status(exit_code),
        finished(r),
        r == JobStatus::Done <==> exit_code == Some(0i32),
        r == JobStatus::Cancelled <==> (exit_code == Some(130i32) || exit_code is None),
        forall|c: i32| c != 0 && c != 130 && exit_code == Some(c) ==> r == JobStatus::Failed,
{
    proof {
        lemma_exit_code_states();
    }
    match exit_code {
        Some(0) => JobStatus::Done,
        Some(130) | None => JobStatus::Cancelled,
        Some(_) => JobStatus::Failed,
    }
}

/// `" (exit=CODE)"` for a known code, nothing otherwise.
pub open spec fn exit_suffix_text(code: Option<i32>) -> Seq<char> {
    match code {
        Some(c) => " (exit="@ + signed_dec(c as int) + ")"@,
        None => Seq::<char>::empty(),
    }
}

/// ` (exit=CODE)`, or nothing where there is no code.
pub fn format_exit_code_suffix(exit_code: Option<i32>) -> (r: String)
    ensures
        r@ == exit_suffix_text(exit_code),
{
    match exit_code {
        Some(code) => {
            let mut s = String::new();
            s.append(" (exit=");
            push_i32(&mut s, code);
            s.append(")");
            s
        },
        None => String::new(),
    }
}

/// The code that an exit file holds, read as the scheduler reads it: `None`
/// for a missing file or one holding only whitespace; otherwise the trimmed
/// text parsed as an `i32`, with an error where it is no such number.
pub open spec fn exit_file_code(content: Option<Seq<char>>) -> Option<Option<i32>> {
    match content {
        None => Some(None),
        Some(raw) => {
            let t = trim(raw);
            if t.len() == 0 {
                Some(None)
            } else {
                match parse_i32(t) {
                    Some(c) => Some(Some(c)),
                    None => None,
                }
            }
        },
    }
}

/// Reads the exit code from the content of an exit file (`None` where the
/// file does not exist).
pub fn parse_exit_code(content: Option<String>, exit_path: &str) -> (r: Result<
    Option<i32>,
    SchedulerError,
>)
    ensures
        match exit_file_code(opt_string_view(content)) {
            Some(code) => r == Ok::<Option<i32>, SchedulerError>(code),
            None => r is Err && r->Err_0.kind == ErrorKind::InvalidData && r->Err_0.message@
                == "invalid exit code in "@ + exit_path@,
        },
{
    match content {
        None => Ok(None),
        Some(raw) => {
            let chars = chars_of(raw.as_str());
            let t = trim_chars(&chars);
            if t.len() == 0 {
                return Ok(None);
            }
            match parse_i32_chars(&t) {
                Some(c) => Ok(Some(c)),
                None => {
                    let mut m = String::new();
                    m.append("invalid exit code in ");
                    m.append(exit_path);
                    Err(SchedulerError::new(ErrorKind::InvalidData, m))
                },
            }
        },
    }
}

/// `PathBuf::join` of a relative file name onto a directory: a `'/'` is put
/// between them unless the directory is empty or already ends with one.
pub open spec fn join_path(dir: Seq<char>, file: Seq<char>) -> Seq<char> {
    if dir.len() == 0 || dir.last() == '/' {
        dir + file
    } else {
        dir + seq!['/'] + file
    }
}

/// The path of `file` in the directory `dir`.
pub fn join_path_string(dir: &str, file: &str) -> (r: String)
    ensures
        r@ == join_path(dir@, file@),
{
    let d = chars_of(dir);
    let mut r = String::new();
    r.append(dir);
    if d.len() > 0 && d[d.len() - 1] != '/' {
        push_char(&mut r, '/');
    }
    r.append(file);
    r
}

/// The base name of a job's files: `job_ID`.
pub open spec fn job_base(id: usize) -> Seq<char> {
    "job_"@ + dec(id as nat)
}

/// One line of input run as one job, with what the scheduler knows of it.
#[derive(Debug, Clone, PartialEq, Eq)]
pub struct Job {
    pub id: usize,
    pub cmd: String,
    pub status: JobStatus,
    pub gpu_id: Option<usize>,
    pub cpu_cores: Option<Vec<usize>>,
    pub window_name: Option<String>,
    pub log_path: String,
    pub exit_path: String,
}

impl Job {
    /// A Pending job with no resources, logging to `DIR/job_ID.log` and
    /// writing its exit code to `DIR/job_ID.exit`.
    pub fn new(id: usize, cmd: String, logs_dir: &str) -> (j: Job)
        ensures
            j.id == id,
            j.cmd@ == cmd@,
            j.status == JobStatus::Pending,
            j.gpu_id is None,
            j.cpu_cores is None,
            j.window_name is None,
            j.log_path@ == join_path(logs_dir@, job_base(id) + ".log"@),
            j.exit_path@ == join_path(logs_dir@, job_base(id) + ".exit"@),
    {
        let mut log_name = String::new();
        log_name.append("job_");
        push_usize(&mut log_name, id);
        let mut exit_name = log_name.clone();
        log_name.append(".log");
        exit_name.append(".exit");
        Job {
            id,
            cmd,
            status: JobStatus::Pending,
            gpu_id: None,
            cpu_cores: None,
            window_name: None,
            log_path: join_path_string(logs_dir, log_name.as_str()),
            exit_path: join_path_string(logs_dir, exit_name.as_str()),
        }
    }

    /// `job_ID`.
    pub fn name(&self) -> (r: String)
        ensures
            r@ == job_base(self.id),
    {
        let mut s = String::new();
        s.append("job_");
        push_usize(&mut s, self.id);
        s
    }
}

} // verus!
