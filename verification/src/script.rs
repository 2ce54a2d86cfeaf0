//! Shell quoting, and the bash script that runs one job.
use vstd::prelude::*;

use crate::format::{
    core_list_text, cpu_cores_text, format_cpu_core_list, format_cpu_cores, format_cpu_threads,
    join, lemma_join_step, opt_vec_view, threads_text,
};
use crate::job::Job;
use crate::text::{chars_of, dec, push_char, push_chars, push_usize};

verus! {

// ---------------------------------------------------------------------------
// Single-quote shell quoting
// ---------------------------------------------------------------------------

/// What a character becomes inside single quotes: a `'` closes the quotes,
/// gives a `'` in double quotes, and opens single quotes again.
pub open spec fn quote_piece(c: char) -> Seq<char> {
    if c == '\'' {
        seq!['\'', '"', '\'', '"', '\'']
    } else {
        seq![c]
    }
}

pub open spec fn escape_quotes(s: Seq<char>) -> Seq<char>
    decreases s.len(),
{
    if s.len() == 0 {
        Seq::<char>::empty()
    } else {
        quote_piece(s[0]) + escape_quotes(s.drop_first())
    }
}

/// `s` as one single-quoted shell word; the empty string is `''`.
pub open spec fn shell_quoted(s: Seq<char>) -> Seq<char> {
    if s.len() == 0 {
        seq!['\'', '\'']
    } else {
        seq!['\''] + escape_quotes(s) + seq!['\'']
    }
}

pub proof fn lemma_escape_append(a: Seq<char>, b: Seq<char>)
    ensures
        escape_quotes(a + b) == escape_quotes(a) + escape_quotes(b),
    decreases a.len(),
{
    if a.len() == 0 {
        assert(a + b =~= b);
        assert(escape_quotes(a) + escape_quotes(b) =~= escape_quotes(b));
    } else {
        assert((a + b).drop_first() =~= a.drop_first() + b);
        assert((a + b)[0] == a[0]);
        lemma_escape_append(a.drop_first(), b);
        assert(escape_quotes(a + b) =~= escape_quotes(a) + escape_quotes(b));
    }
}

proof fn lemma_escape_single(c: char)
    ensures
        escape_quotes(seq![c]) == quote_piece(c),
{
    let s = seq![c];
    assert(s.drop_first() =~= Seq::<char>::empty());
    assert(escape_quotes(s.drop_first()) == Seq::<char>::empty());
    assert(s[0] == c);
    assert(escape_quotes(s) == quote_piece(s[0]) + escape_quotes(s.drop_first()));
    assert(escape_quotes(s) =~= quote_piece(c));
}

/// Appends `s`, single-quoted, to `out`.
pub fn push_shell_quoted(out: &mut String, s: &Vec<char>)
    ensures
        final(out)@ == old(out)@ + shell_quoted(s@),
{
    let ghost start = out@;
    let n = s.len();
    if n == 0 {
        push_char(out, '\'');
        push_char(out, '\'');
        assert(out@ =~= start + shell_quoted(s@));
        return ;
    }
    push_char(out, '\'');
    let mut i: usize = 0;
    while i < n
        invariant
            i <= n == s@.len(),
            out@ == start + seq!['\''] + escape_quotes(s@.take(i as int)),
        decreases n - i,
    {
        proof {
            assert(s@.take(i + 1) =~= s@.take(i as int) + seq![s@[i as int]]);
            lemma_escape_append(s@.take(i as int), seq![s@[i as int]]);
            lemma_escape_single(s@[i as int]);
        }
        if s[i] == '\'' {
            push_char(out, '\'');
            push_char(out, '"');
            push_char(out, '\'');
            push_char(out, '"');
            push_char(out, '\'');
        } else {
            push_char(out, s[i]);
        }
        i = i + 1;
        proof {
            assert(out@ =~= start + seq!['\''] + escape_quotes(s@.take(i as int)));
        }
    }
    push_char(out, '\'');
    assert(s@.take(n as int) =~= s@);
    assert(out@ =~= start + shell_quoted(s@));
}

/// Quotes `input` as one shell word: inside single quotes, with each `'`
/// written as `'"'"'`.
pub fn shell_quote(input: &str) -> (r: String)
    ensures
        r@ == shell_quoted(input@),
{
    let chars = chars_of(input);
    let mut r = String::new();
    push_shell_quoted(&mut r, &chars);
    assert(r@ =~= shell_quoted(input@));
    r
}

// ---------------------------------------------------------------------------
// How a shell reads a quoted word
// ---------------------------------------------------------------------------

/// The first position of `c` in `s`, or `-1`.
pub open spec fn first_index(s: Seq<char>, c: char) -> int
    decreases s.len(),
{
    if s.len() == 0 {
        -1
    } else if s[0] == c {
        0
    } else {
        let r = first_index(s.drop_first(), c);
        if r < 0 {
            -1
        } else {
            r + 1
        }
    }
}

pub proof fn lemma_first_index(s: Seq<char>, c: char)
    ensures
        -1 <= first_index(s, c) < s.len(),
        first_index(s, c) >= 0 ==> s[first_index(s, c)] == c,
        forall|k: int|
            0 <= k < s.len() && (first_index(s, c) < 0 || k < first_index(s, c)) ==> #[trigger] s[k]
                != c,
    decreases s.len(),
{
    if s.len() > 0 && s[0] != c {
        lemma_first_index(s.drop_first(), c);
        assert forall|k: int|
            0 <= k < s.len() && (first_index(s, c) < 0 || k < first_index(s, c)) implies #[trigger] s[k]
            != c by {
            if k > 0 {
                assert(s[k] == s.drop_first()[k - 1]);
            }
        }
    }
}

proof fn lemma_first_index_is(s: Seq<char>, c: char, k: int)
    requires
        -1 <= k < s.len(),
        k >= 0 ==> s[k] == c,
        forall|j: int| 0 <= j < s.len() && (k < 0 || j < k) ==> #[trigger] s[j] != c,
    ensures
        first_index(s, c) == k,
{
    lemma_first_index(s, c);
    let f = first_index(s, c);
    if f >= 0 && (k < 0 || f < k) {
        assert(s[f] != c);
    }
    if k >= 0 && (f < 0 || k < f) {
        assert(s[k] != c);
    }
}

/// The characters that stay special inside double quotes.
pub open spec fn double_quote_special(c: char) -> bool {
    c == '$' || c == '`' || c == '\\'
}

/// The word that a POSIX shell reads from `q`, where `q` is made only of
/// single-quoted parts and of double-quoted parts without `$`, `` ` `` or
/// `\`; `None` for any other text.
pub open spec fn shell_word(q: Seq<char>) -> Option<Seq<char>>
    decreases q.len(),
{
    if q.len() == 0 {
        Some(Seq::<char>::empty())
    } else if q[0] == '\'' || q[0] == '"' {
        let quote = q[0];
        let rest = q.drop_first();
        let k = first_index(rest, quote);
        if k < 0 {
            None
        } else {
            let seg = rest.take(k);
            if quote == '"' && (exists|j: int| 0 <= j < seg.len() && double_quote_special(seg[j])) {
                None
            } else {
                proof {
                    lemma_first_index(rest, quote);
                }
                match shell_word(rest.skip(k + 1)) {
                    Some(w) => Some(seg + w),
                    None => None,
                }
            }
        }
    } else {
        None
    }
}

proof fn lemma_shell_quoted_wraps(s: Seq<char>)
    ensures
        shell_quoted(s) == seq!['\''] + escape_quotes(s) + seq!['\''],
{
    if s.len() == 0 {
        assert(seq!['\''] + escape_quotes(s) + seq!['\''] =~= seq!['\'', '\'']);
    }
}

proof fn lemma_escape_no_quote(s: Seq<char>)
    requires
        forall|k: int| 0 <= k < s.len() ==> #[trigger] s[k] != '\'',
    ensures
        escape_quotes(s) == s,
    decreases s.len(),
{
    if s.len() > 0 {
        assert forall|k: int| 0 <= k < s.drop_first().len() implies #[trigger] s.drop_first()[k]
            != '\'' by {
            assert(s.drop_first()[k] == s[k + 1]);
        }
        lemma_escape_no_quote(s.drop_first());
        assert(escape_quotes(s) =~= s);
    }
}

/// A quoted word reads back as the string it quotes: whatever `s` holds, the
/// shell reads `shell_quote(s)` as exactly `s`.
pub proof fn lemma_shell_quote_reads_back(s: Seq<char>)
    ensures
        shell_word(shell_quoted(s)) == Some(s),
    decreases s.len(),
{
    lemma_shell_quoted_wraps(s);
    let q = shell_quoted(s);
    let k = first_index(s, '\'');
    lemma_first_index(s, '\'');
    if k < 0 {
        lemma_escape_no_quote(s);
        let rest = q.drop_first();
        assert(rest =~= s + seq!['\'']);
        lemma_first_index_is(rest, '\'', s.len() as int);
        assert(rest.take(s.len() as int) =~= s);
        assert(rest.skip(s.len() as int + 1) =~= Seq::<char>::empty());
        assert(shell_word(rest.skip(s.len() as int + 1)) == Some(Seq::<char>::empty()));
        assert(s + Seq::<char>::empty() =~= s);
    } else {
        let a = s.take(k);
        let b = s.skip(k + 1);
        assert(s =~= a + seq!['\''] + b);
        assert forall|j: int| 0 <= j < a.len() implies #[trigger] a[j] != '\'' by {
            assert(a[j] == s[j]);
        }
        lemma_escape_no_quote(a);
        lemma_escape_append(a + seq!['\''], b);
        lemma_escape_append(a, seq!['\'']);
        lemma_escape_single('\'');
        let p = seq!['\'', '"', '\'', '"', '\''];
        assert(escape_quotes(s) == a + p + escape_quotes(b));
        let qb = seq!['\''] + escape_quotes(b) + seq!['\''];
        lemma_shell_quoted_wraps(b);
        lemma_shell_quote_reads_back(b);
        assert(shell_word(qb) == Some(b));
        // First part: 'a'
        let rest = q.drop_first();
        assert(rest =~= a + seq!['\'', '"', '\'', '"'] + qb);
        lemma_first_index_is(rest, '\'', a.len() as int);
        assert(rest.take(a.len() as int) =~= a);
        let q2 = rest.skip(a.len() as int + 1);
        assert(q2 =~= seq!['"', '\'', '"'] + qb);
        // Second part: "'"
        let rest2 = q2.drop_first();
        assert(rest2 =~= seq!['\'', '"'] + qb);
        lemma_first_index_is(rest2, '"', 1);
        let seg2 = rest2.take(1);
        assert(seg2 =~= seq!['\'']);
        assert(!(exists|j: int| 0 <= j < seg2.len() && double_quote_special(seg2[j])));
        assert(rest2.skip(2) =~= qb);
        assert(shell_word(q2) == Some(seg2 + b));
        assert(shell_word(q) == Some(a + (seg2 + b)));
        assert(a + (seg2 + b) =~= s);
    }
}

// ---------------------------------------------------------------------------
// The job script
// ---------------------------------------------------------------------------

/// `bash -lc 'SCRIPT'`: the script run by a login shell as one argument.
pub open spec fn tmux_shell_command_text(script: Seq<char>) -> Seq<char> {
    "bash -lc "@ + shell_quoted(script)
}

/// The command that `tmux` runs for a job: `bash -lc SCRIPT`, quoted.
pub fn build_tmux_shell_command(script: &str) -> (r: String)
    ensures
        r@ == tmux_shell_command_text(script@),
{
    let mut r = String::new();
    r.append("bash -lc ");
    let chars = chars_of(script);
    push_shell_quoted(&mut r, &chars);
    r
}

/// The environment that a job runs with: `CUDA_VISIBLE_DEVICES` for its GPU,
/// `PYTHONUNBUFFERED=1`, and, with a thread limit, the thread variables of
/// OpenMP, MKL, OpenBLAS, NumExpr, vecLib, BLIS and PyTorch.
pub open spec fn env_pairs(gpu_id: Option<usize>, cpu_threads: Option<usize>) -> Seq<
    (Seq<char>, Seq<char>),
> {
    let g = match gpu_id {
        Some(id) => seq![("CUDA_VISIBLE_DEVICES"@, dec(id as nat))],
        None => Seq::<(Seq<char>, Seq<char>)>::empty(),
    };
    let base = g.push(("PYTHONUNBUFFERED"@, "1"@));
    match cpu_threads {
        Some(t) => base + seq![
            ("OMP_NUM_THREADS"@, dec(t as nat)),
            ("MKL_NUM_THREADS"@, dec(t as nat)),
            ("OPENBLAS_NUM_THREADS"@, dec(t as nat)),
            ("NUMEXPR_NUM_THREADS"@, dec(t as nat)),
            ("VECLIB_MAXIMUM_THREADS"@, dec(t as nat)),
            ("BLIS_NUM_THREADS"@, dec(t as nat)),
            ("DIAMOND_TORCH_NUM_THREADS"@, dec(t as nat)),
            ("DIAMOND_TORCH_INTEROP_THREADS"@, "1"@),
        ],
        None => base,
    }
}

pub open spec fn pair_views(v: Seq<(&'static str, String)>) -> Seq<(Seq<char>, Seq<char>)> {
    v.map_values(|p: (&'static str, String)| (p.0@, p.1@))
}

fn decimal_string(n: usize) -> (r: String)
    ensures
        r@ == dec(n as nat),
{
    let mut s = String::new();
    push_usize(&mut s, n);
    assert(s@ =~= dec(n as nat));
    s
}

fn one_string() -> (r: String)
    ensures
        r@ == "1"@,
{
    String::from_str("1")
}

/// The environment of a job: its GPU, unbuffered Python output, and the
/// thread limits where there is one.
pub fn build_runtime_env_pairs(gpu_id: Option<usize>, cpu_threads: Option<usize>) -> (r: Vec<
    (&'static str, String),
>)
    ensures
        pair_views(r@) == env_pairs(gpu_id, cpu_threads),
{
    let mut pairs: Vec<(&'static str, String)> = Vec::new();
    if let Some(g) = gpu_id {
        pairs.push(("CUDA_VISIBLE_DEVICES", decimal_string(g)));
    }
    pairs.push(("PYTHONUNBUFFERED", one_string()));
    if let Some(t) = cpu_threads {
        pairs.push(("OMP_NUM_THREADS", decimal_string(t)));
        pairs.push(("MKL_NUM_THREADS", decimal_string(t)));
        pairs.push(("OPENBLAS_NUM_THREADS", decimal_string(t)));
        pairs.push(("NUMEXPR_NUM_THREADS", decimal_string(t)));
        pairs.push(("VECLIB_MAXIMUM_THREADS", decimal_string(t)));
        pairs.push(("BLIS_NUM_THREADS", decimal_string(t)));
        pairs.push(("DIAMOND_TORCH_NUM_THREADS", decimal_string(t)));
        pairs.push(("DIAMOND_TORCH_INTEROP_THREADS", one_string()));
    }
    assert(pair_views(pairs@) =~~= env_pairs(gpu_id, cpu_threads));
    pairs
}

pub open spec fn inline_pair(p: (Seq<char>, Seq<char>)) -> Seq<char> {
    p.0 + "="@ + shell_quoted(p.1)
}

pub open spec fn export_pair(p: (Seq<char>, Seq<char>)) -> Seq<char> {
    "export "@ + p.0 + "="@ + shell_quoted(p.1)
}

/// `K1='V1' K2='V2' ...`
pub open spec fn env_inline_text(pairs: Seq<(Seq<char>, Seq<char>)>) -> Seq<char> {
    join(pairs.map_values(|p: (Seq<char>, Seq<char>)| inline_pair(p)), " "@)
}

/// One `export K='V'` line per pair.
pub open spec fn env_exports_text(pairs: Seq<(Seq<char>, Seq<char>)>) -> Seq<char> {
    join(pairs.map_values(|p: (Seq<char>, Seq<char>)| export_pair(p)), "\n"@)
}

/// Appends the pairs, each written behind `prefix` as `K='V'`, joined by `sep`.
fn push_env_pairs(
    out: &mut String,
    pairs: &Vec<(&'static str, String)>,
    prefix: &str,
    sep: &str,
)
    ensures
        final(out)@ == old(out)@ + join(
            pair_views(pairs@).map_values(
                |p: (Seq<char>, Seq<char>)| prefix@ + p.0 + "="@ + shell_quoted(p.1),
            ),
            sep@,
        ),
{
    let ghost start = out@;
    let ghost parts = pair_views(pairs@).map_values(
        |p: (Seq<char>, Seq<char>)| prefix@ + p.0 + "="@ + shell_quoted(p.1),
    );
    let n = pairs.len();
    let mut i: usize = 0;
    while i < n
        invariant
            i <= n == pairs@.len() == parts.len(),
            parts == pair_views(pairs@).map_values(
                |p: (Seq<char>, Seq<char>)| prefix@ + p.0 + "="@ + shell_quoted(p.1),
            ),
            out@ == start + join(parts.take(i as int), sep@),
        decreases n - i,
    {
        proof {
            lemma_join_step(parts, sep@, i as int);
        }
        if i > 0 {
            out.append(sep);
        }
        let (key, value) = &pairs[i];
        out.append(prefix);
        out.append(*key);
        out.append("=");
        let chars = chars_of(value.as_str());
        push_shell_quoted(out, &chars);
        i = i + 1;
        proof {
            assert(out@ =~= start + join(parts.take(i as int), sep@));
        }
    }
    assert(parts.take(n as int) =~= parts);
}

/// `K='V' K='V' ...`.
pub fn format_env_pairs_inline(pairs: &Vec<(&'static str, String)>) -> (r: String)
    ensures
        r@ == env_inline_text(pair_views(pairs@)),
{
    let mut r = String::new();
    push_env_pairs(&mut r, pairs, "", " ");
    proof {
        reveal_strlit("");
        let a = pair_views(pairs@).map_values(
            |p: (Seq<char>, Seq<char>)| ""@ + p.0 + "="@ + shell_quoted(p.1),
        );
        let b = pair_views(pairs@).map_values(|p: (Seq<char>, Seq<char>)| inline_pair(p));
        assert forall|k: int| 0 <= k < a.len() implies a[k] == b[k] by {
            assert(""@ + pair_views(pairs@)[k].0 =~= pair_views(pairs@)[k].0);
        }
        assert(a =~= b);
        assert(r@ =~= env_inline_text(pair_views(pairs@)));
    }
    r
}

/// One `export K='V'` line per pair.
pub fn format_env_exports(pairs: &Vec<(&'static str, String)>) -> (r: String)
    ensures
        r@ == env_exports_text(pair_views(pairs@)),
{
    let mut r = String::new();
    push_env_pairs(&mut r, pairs, "export ", "\n");
    proof {
        let a = pair_views(pairs@).map_values(
            |p: (Seq<char>, Seq<char>)| "export "@ + p.0 + "="@ + shell_quoted(p.1),
        );
        let b = pair_views(pairs@).map_values(|p: (Seq<char>, Seq<char>)| export_pair(p));
        assert(a =~= b);
        assert(r@ =~= env_exports_text(pair_views(pairs@)));
    }
    r
}

/// `bash -lc 'CMD'`, run under `taskset -c 'CORES'` where the job has a core slot.
pub open spec fn job_invocation_text(cmd: Seq<char>, cpu_cores: Option<Seq<usize>>) -> Seq<char> {
    let shell_cmd = "bash -lc "@ + shell_quoted(cmd);
    match cpu_cores {
        Some(c) => "taskset -c "@ + shell_quoted(core_list_text(c)) + " "@ + shell_cmd,
        None => shell_cmd,
    }
}

/// The command as `bash -lc CMD`, under `taskset -c CORES` where the job has a
/// core slot.
pub fn build_job_invocation(cmd: &str, cpu_cores: Option<&Vec<usize>>) -> (r: String)
    ensures
        r@ == job_invocation_text(cmd@, opt_vec_view(cpu_cores)),
{
    let mut r = String::new();
    if let Some(cores) = cpu_cores {
        r.append("taskset -c ");
        let list = format_cpu_core_list(cores);
        let list_chars = chars_of(list.as_str());
        push_shell_quoted(&mut r, &list_chars);
        r.append(" ");
    }
    r.append("bash -lc ");
    let cmd_chars = chars_of(cmd);
    push_shell_quoted(&mut r, &cmd_chars);
    proof {
        assert(r@ =~= job_invocation_text(cmd@, opt_vec_view(cpu_cores)));
    }
    r
}

pub open spec fn gpu_text(gpu_id: Option<usize>) -> Seq<char> {
    match gpu_id {
        Some(g) => dec(g as nat),
        None => "none"@,
    }
}

/// The script that runs one job: it prints the job's id, GPU, cores, thread
/// limit and log path, then the command with its environment; exports the
/// environment; runs the command with its output sent through `tee` to the
/// log; and writes the command's exit status to the exit file.
pub open spec fn script_text(
    id: usize,
    cmd: Seq<char>,
    log_path: Seq<char>,
    exit_path: Seq<char>,
    gpu_id: Option<usize>,
    cpu_cores: Option<Seq<usize>>,
    cpu_threads: Option<usize>,
) -> Seq<char> {
    let pairs = env_pairs(gpu_id, cpu_threads);
    let invocation = job_invocation_text(cmd, cpu_cores);
    let cmd_display = env_inline_text(pairs) + " "@ + invocation;
    "echo \"================================\"\necho \"JOB ID: "@ + dec(id as nat)
        + "\"\necho \"GPU: "@ + gpu_text(gpu_id) + "\"\necho \"CPU CORES: "@ + cpu_cores_text(
        cpu_cores,
    ) + "\"\necho \"CPU THREADS: "@ + threads_text(cpu_threads) + "\"\necho \"LOG: "@ + log_path
        + "\"\necho \"================================\"\necho \"[CMD]\"\necho "@ + shell_quoted(
        cmd_display,
    ) + "\necho \"--------------------------------\"\n\nset -o pipefail\n\n"@ + env_exports_text(
        pairs,
    ) + "\n"@ + invocation + " \\\n2>&1 | tee "@ + shell_quoted(log_path)
        + "\n\nEXIT_CODE=$?\n\necho \"EXIT CODE: $EXIT_CODE\"\necho $EXIT_CODE > "@ + shell_quoted(
        exit_path,
    ) + "\n\nexit $EXIT_CODE"@
}

/// Whatever GPU, core slot and thread limit a job has, its script turns on
/// `pipefail` and then, with nothing but the environment exports in between,
/// runs the job's command through `tee` into the log, takes `$?` as the exit
/// code and writes it to the exit file: the code written is that of the
/// command, not that of `tee`.
pub proof fn lemma_script_keeps_command_status(
    id: usize,
    cmd: Seq<char>,
    log_path: Seq<char>,
    exit_path: Seq<char>,
    gpu_id: Option<usize>,
    cpu_cores: Option<Seq<usize>>,
    cpu_threads: Option<usize>,
)
    ensures
        exists|head: Seq<char>|
            script_text(id, cmd, log_path, exit_path, gpu_id, cpu_cores, cpu_threads) == head
                + "\nset -o pipefail\n\n"@ + env_exports_text(env_pairs(gpu_id, cpu_threads)) + "\n"@
                + job_invocation_text(cmd, cpu_cores) + " \\\n2>&1 | tee "@ + shell_quoted(log_path)
                + "\n\nEXIT_CODE=$?\n\necho \"EXIT CODE: $EXIT_CODE\"\necho $EXIT_CODE > "@
                + shell_quoted(exit_path) + "\n\nexit $EXIT_CODE"@,
{
    let pairs = env_pairs(gpu_id, cpu_threads);
    let invocation = job_invocation_text(cmd, cpu_cores);
    let cmd_display = env_inline_text(pairs) + " "@ + invocation;
    let p1 = "echo \"================================\"\necho \"JOB ID: "@ + dec(id as nat)
        + "\"\necho \"GPU: "@ + gpu_text(gpu_id) + "\"\necho \"CPU CORES: "@ + cpu_cores_text(
        cpu_cores,
    ) + "\"\necho \"CPU THREADS: "@ + threads_text(cpu_threads) + "\"\necho \"LOG: "@ + log_path
        + "\"\necho \"================================\"\necho \"[CMD]\"\necho "@ + shell_quoted(
        cmd_display,
    );
    let l1 = "\necho \"--------------------------------\"\n\nset -o pipefail\n\n"@;
    let d = "\necho \"--------------------------------\"\n"@;
    let q = "\nset -o pipefail\n\n"@;
    reveal_strlit("\necho \"--------------------------------\"\n\nset -o pipefail\n\n");
    reveal_strlit("\necho \"--------------------------------\"\n");
    reveal_strlit("\nset -o pipefail\n\n");
    assert(l1 =~= d + q);
    let head = p1 + d;
    assert(p1 + l1 =~= head + q);
    assert(script_text(id, cmd, log_path, exit_path, gpu_id, cpu_cores, cpu_threads) == head + q
        + env_exports_text(pairs) + "\n"@ + invocation + " \\\n2>&1 | tee "@ + shell_quoted(log_path)
        + "\n\nEXIT_CODE=$?\n\necho \"EXIT CODE: $EXIT_CODE\"\necho $EXIT_CODE > "@ + shell_quoted(
        exit_path,
    ) + "\n\nexit $EXIT_CODE"@);
}

/// The bash script that runs one job: it prints the job's settings, runs the
/// command with its environment, logs its output, and writes its exit code.
pub fn build_script(
    job: &Job,
    gpu_id: Option<usize>,
    cpu_cores: Option<&Vec<usize>>,
    cpu_threads: Option<usize>,
) -> (r: String)
    ensures
        r@ == script_text(
            job.id,
            job.cmd@,
            job.log_path@,
            job.exit_path@,
            gpu_id,
            opt_vec_view(cpu_cores),
            cpu_threads,
        ),
{
    let env_pairs = build_runtime_env_pairs(gpu_id, cpu_threads);
    let invocation = build_job_invocation(job.cmd.as_str(), cpu_cores);
    let mut cmd_display = format_env_pairs_inline(&env_pairs);
    cmd_display.append(" ");
    cmd_display.append(invocation.as_str());
    let runtime_env = format_env_exports(&env_pairs);
    let mut r = String::new();
    r.append("echo \"================================\"\necho \"JOB ID: ");
    push_usize(&mut r, job.id);
    r.append("\"\necho \"GPU: ");
    match gpu_id {
        Some(g) => push_usize(&mut r, g),
        None => r.append("none"),
    }
    r.append("\"\necho \"CPU CORES: ");
    let cores_display = format_cpu_cores(cpu_cores);
    r.append(cores_display.as_str());
    r.append("\"\necho \"CPU THREADS: ");
    let threads_display = format_cpu_threads(cpu_threads);
    r.append(threads_display.as_str());
    r.append("\"\necho \"LOG: ");
    r.append(job.log_path.as_str());
    r.append("\"\necho \"================================\"\necho \"[CMD]\"\necho ");
    let cmd_display_chars = chars_of(cmd_display.as_str());
    push_shell_quoted(&mut r, &cmd_display_chars);
    r.append("\necho \"--------------------------------\"\n\nset -o pipefail\n\n");
    r.append(runtime_env.as_str());
    r.append("\n");
    r.append(invocation.as_str());
    r.append(" \\\n2>&1 | tee ");
    let log_chars = chars_of(job.log_path.as_str());
    push_shell_quoted(&mut r, &log_chars);
    r.append("\n\nEXIT_CODE=$?\n\necho \"EXIT CODE: $EXIT_CODE\"\necho $EXIT_CODE > ");
    let exit_chars = chars_of(job.exit_path.as_str());
    push_shell_quoted(&mut r, &exit_chars);
    r.append("\n\nexit $EXIT_CODE");
    proof {
        assert(r@ =~= script_text(
            job.id,
            job.cmd@,
            job.log_path@,
            job.exit_path@,
            gpu_id,
            opt_vec_view(cpu_cores),
            cpu_threads,
        ));
    }
    r
}

} // verus!
