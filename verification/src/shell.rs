//! Shell organ: bounding command output to a byte budget without
//! splitting a character, the shell invocations it runs, what a finished
//! command is reported as, background task bookkeeping, and routing.

use vstd::prelude::*;
use crate::ids::fresh_uuid;
use crate::packager::{CommandSpec, command_view};
use crate::sdk::{ArgsView, OrganArgs, has_key, op_of, param_or};
use crate::text::{chars_of, dec, lowercase, push_chars, push_dec, push_text, same_text, string_from_chars, to_lower, trim, trim_chars};

verus! {

/// The number of bytes that `c` takes in UTF-8.
pub open spec fn utf8_width(c: char) -> nat {
    let u = c as u32;
    if u < 0x80 {
        1
    } else if u < 0x800 {
        2
    } else if u < 0x10000 {
        3
    } else {
        4
    }
}

/// The number of bytes that `s` takes in UTF-8.
pub open spec fn byte_len(s: Seq<char>) -> nat
    decreases s.len(),
{
    if s.len() == 0 {
        0
    } else {
        utf8_width(s[0]) + byte_len(s.drop_first())
    }
}

/// How many leading characters of `s` fit, whole, in `budget` bytes.
pub open spec fn fit_count(s: Seq<char>, budget: int) -> nat
    decreases s.len(),
{
    if s.len() == 0 || utf8_width(s[0]) > budget {
        0
    } else {
        1 + fit_count(s.drop_first(), budget - utf8_width(s[0]))
    }
}

/// `s` when it fits in `max` bytes; otherwise its longest prefix that fits
/// without splitting a character, followed by a truncation notice.
pub open spec fn truncated(s: Seq<char>, max: nat) -> Seq<char> {
    if byte_len(s) <= max {
        s
    } else {
        s.take(fit_count(s, max as int) as int) + "\n... [truncated to "@ + dec(max) + " bytes]"@
    }
}

pub fn char_width(c: char) -> (w: u128)
    ensures
        w == utf8_width(c),
{
    let u = c as u32;
    if u < 0x80 {
        1
    } else if u < 0x800 {
        2
    } else if u < 0x10000 {
        3
    } else {
        4
    }
}

proof fn lemma_fit_all(s: Seq<char>, budget: int)
    requires
        budget >= 0,
    ensures
        (fit_count(s, budget) == s.len()) <==> (byte_len(s) <= budget),
        fit_count(s, budget) <= s.len(),
    decreases s.len(),
{
    if s.len() > 0 && utf8_width(s[0]) <= budget {
        lemma_fit_all(s.drop_first(), budget - utf8_width(s[0]));
    }
}

/// The number of bytes that the characters of `s` from index `a` take in
/// UTF-8.
pub fn utf8_len_from(s: &[char], a: usize) -> (r: u128)
    requires
        a <= s@.len(),
    ensures
        r == byte_len(s@.skip(a as int)),
{
    let mut i: usize = s.len();
    let mut acc: u128 = 0;
    assert(s@.skip(i as int) =~= Seq::<char>::empty());
    while i > a
        invariant
            a <= i <= s@.len(),
            acc == byte_len(s@.skip(i as int)),
            acc <= 4 * (s@.len() - i),
        decreases i - a,
    {
        assert(s@.skip(i - 1).drop_first() =~= s@.skip(i as int));
        acc = acc + char_width(s[i - 1]);
        i = i - 1;
    }
    acc
}

/// The number of bytes that `s` takes in UTF-8 (`str::len`).
pub fn utf8_len(s: &str) -> (r: u128)
    ensures
        r == byte_len(s@),
{
    let cs = chars_of(s);
    assert(cs@.skip(0) =~= cs@);
    utf8_len_from(cs.as_slice(), 0)
}

/// Bound `s` to `max_bytes` bytes of UTF-8, cutting at a character
/// boundary and noting the cut.
pub fn truncate_safe(s: &str, max_bytes: usize) -> (r: String)
    ensures
        r@ == truncated(s@, max_bytes as nat),
{
    let cs = chars_of(s);
    let mut i: usize = 0;
    let mut acc: u128 = 0;
    let mut fits_all = true;
    proof {
        lemma_fit_all(s@, max_bytes as int);
    }
    assert(cs@.skip(0) =~= cs@);
    while i < cs.len()
        invariant_except_break
            fits_all,
        invariant
            i <= cs@.len(),
            cs@ == s@,
            acc <= max_bytes,
            fit_count(s@, max_bytes as int) == i + fit_count(cs@.skip(i as int), max_bytes - acc),
            byte_len(s@) <= max_bytes <==> byte_len(cs@.skip(i as int)) <= max_bytes - acc,
        ensures
            fits_all ==> i == cs@.len(),
            !fits_all ==> i < cs@.len() && fit_count(s@, max_bytes as int) == i && byte_len(s@)
                > max_bytes,
        decreases cs@.len() - i,
    {
        let w = char_width(cs[i]);
        assert(cs@.skip(i as int).drop_first() =~= cs@.skip(i + 1));
        if acc + w > max_bytes as u128 {
            fits_all = false;
            break;
        }
        acc = acc + w;
        i = i + 1;
    }
    if fits_all {
        proof {
            assert(cs@.skip(i as int) =~= Seq::<char>::empty());
        }
        let mut out = String::new();
        push_chars(&mut out, cs.as_slice());
        return out;
    }
    let mut out = String::new();
    let mut j: usize = 0;
    while j < i
        invariant
            j <= i < cs@.len(),
            out@ == cs@.take(j as int),
        decreases i - j,
    {
        crate::text::push_char(&mut out, cs[j]);
        assert(cs@.take(j as int).push(cs@[j as int]) =~= cs@.take(j + 1));
        j = j + 1;
    }
    push_text(&mut out, "\n... [truncated to ");
    push_dec(&mut out, max_bytes as u64);
    push_text(&mut out, " bytes]");
    out
}

/// The largest output, in bytes, that a command's stdout or stderr keeps.
pub const MAX_OUTPUT_BYTES: usize = 32000;

/// The longest log preview, in bytes, that polling a task shows.
pub const LOG_PREVIEW_BYTES: usize = 4000;

/// A command's captured output as reported: trimmed, then bounded to
/// `MAX_OUTPUT_BYTES`.
pub fn bound_output(raw: &str) -> (r: String)
    ensures
        r@ == truncated(trim(raw@), MAX_OUTPUT_BYTES as nat),
{
    let cs = chars_of(raw);
    let t = trim_chars(cs.as_slice());
    let mut ts = String::new();
    push_chars(&mut ts, t.as_slice());
    truncate_safe(ts.as_str(), MAX_OUTPUT_BYTES)
}


/// The command to run: trimmed, and refused when empty.
pub fn command_text(command: &str) -> (r: Result<String, String>)
    ensures
        trim(command@).len() == 0 ==> (r matches Err(e) && e@ == "command cannot be empty"@),
        trim(command@).len() > 0 ==> (r matches Ok(c) && c@ == trim(command@)),
{
    let t = trim_chars(chars_of(command).as_slice());
    if t.len() == 0 {
        Err(String::from_str("command cannot be empty"))
    } else {
        Ok(string_from_chars(t.as_slice()))
    }
}

/// The seconds a command may run when no timeout is given.
pub const DEFAULT_TIMEOUT_SECS: u64 = 30;

/// The timeout of a command: the one given, else the default.
pub fn timeout_secs(given: Option<u64>) -> (r: u64)
    ensures
        r == (match given {
            Some(t) => t,
            None => DEFAULT_TIMEOUT_SECS,
        }),
{
    match given {
        Some(t) => t,
        None => DEFAULT_TIMEOUT_SECS,
    }
}

/// The shell invocation for a command: PowerShell on Windows, `sh`
/// elsewhere.
pub open spec fn shell_invocation(windows: bool, command: Seq<char>) -> (Seq<char>, Seq<Seq<char>>) {
    if windows {
        ("pwsh.exe"@, seq!["-NoProfile"@, "-NonInteractive"@, "-Command"@, command])
    } else {
        ("sh"@, seq!["-c"@, command])
    }
}

fn strings(items: &[&str]) -> (r: Vec<String>)
    ensures
        r@.map_values(|s: String| s@) == items@.map_values(|s: &str| s@),
{
    let mut v: Vec<String> = Vec::new();
    let mut i: usize = 0;
    while i < items.len()
        invariant
            i <= items@.len(),
            v@.map_values(|s: String| s@) == items@.map_values(|s: &str| s@).take(i as int),
        decreases items@.len() - i,
    {
        let ghost before = v@.map_values(|s: String| s@);
        v.push(String::from_str(items[i]));
        assert(v@.map_values(|s: String| s@) =~= before.push(items@[i as int]@));
        assert(items@.map_values(|s: &str| s@).take(i as int).push(items@[i as int]@) =~= items@.map_values(
            |s: &str| s@,
        ).take(i + 1));
        i = i + 1;
    }
    assert(items@.map_values(|s: &str| s@).take(items@.len() as int) =~= items@.map_values(|s: &str| s@));
    v
}

/// The shell invocation that runs `command`.
pub fn build_shell_command(windows: bool, command: &str) -> (r: CommandSpec)
    ensures
        command_view(r) == shell_invocation(windows, command@),
{
    if windows {
        let a = ["-NoProfile", "-NonInteractive", "-Command", command];
        let v = strings(&a);
        assert(a@.map_values(|s: &str| s@) =~= seq!["-NoProfile"@, "-NonInteractive"@, "-Command"@, command@]);
        CommandSpec { program: String::from_str("pwsh.exe"), args: v }
    } else {
        let a = ["-c", command];
        let v = strings(&a);
        assert(a@.map_values(|s: &str| s@) =~= seq!["-c"@, command@]);
        CommandSpec { program: String::from_str("sh"), args: v }
    }
}

/// The fallback invocation on Windows when PowerShell cannot start.
pub fn fallback_shell_command(command: &str) -> (r: CommandSpec)
    ensures
        command_view(r) == ("cmd.exe"@, seq!["/c"@, command@]),
{
    let a = ["/c", command];
    let v = strings(&a);
    assert(a@.map_values(|s: &str| s@) =~= seq!["/c"@, command@]);
    CommandSpec { program: String::from_str("cmd.exe"), args: v }
}

/// What a finished command is reported as.
#[derive(Debug)]
pub struct ExecReport {
    pub command: String,
    pub exit_code: i32,
    pub success: bool,
    pub stdout: String,
    pub stderr: String,
    pub duration_ms: u64,
}

/// Report a finished command: its exit code (-1 when it was ended by a
/// signal), whether it succeeded, its bounded output and its duration.
pub fn exec_report(command: &str, code: Option<i32>, success: bool, stdout: &str, stderr: &str, duration_ms: u64) -> (r: ExecReport)
    ensures
        r.command@ == command@,
        r.exit_code == (match code {
            Some(c) => c,
            None => -1i32,
        }),
        r.success == success,
        r.stdout@ == truncated(trim(stdout@), MAX_OUTPUT_BYTES as nat),
        r.stderr@ == truncated(trim(stderr@), MAX_OUTPUT_BYTES as nat),
        r.duration_ms == duration_ms,
{
    ExecReport {
        command: String::from_str(command),
        exit_code: match code {
            Some(c) => c,
            None => -1,
        },
        success,
        stdout: bound_output(stdout),
        stderr: bound_output(stderr),
        duration_ms,
    }
}

/// The error for a command that ran out of time.
pub fn timeout_message(secs: u64) -> (r: String)
    ensures
        r@ == "command timed out after "@ + dec(secs as nat) + "s and was killed"@,
{
    let mut e = String::new();
    push_text(&mut e, "command timed out after ");
    push_dec(&mut e, secs);
    push_text(&mut e, "s and was killed");
    e
}

/// The error for a shell that could not start: with the fallback's error
/// too where one was tried.
pub fn spawn_error(first: &str, fallback: Option<&str>) -> (r: String)
    ensures
        r@ == (match fallback {
            None => "failed to spawn shell: "@ + first@,
            Some(f) => "failed to spawn shell (pwsh: "@ + first@ + ", cmd: "@ + f@ + ")"@,
        }),
{
    let mut e = String::new();
    match fallback {
        None => {
            push_text(&mut e, "failed to spawn shell: ");
            push_text(&mut e, first);
        },
        Some(f) => {
            push_text(&mut e, "failed to spawn shell (pwsh: ");
            push_text(&mut e, first);
            push_text(&mut e, ", cmd: ");
            push_text(&mut e, f);
            push_text(&mut e, ")");
        },
    }
    e
}

/// The identifier of a background task: the one given, else `task-`
/// followed by `fresh`.
pub fn task_id_with(given: &str, fresh: &str) -> (r: String)
    ensures
        r@ == (if given@.len() == 0 {
            "task-"@ + fresh@
        } else {
            given@
        }),
{
    if chars_of(given).len() == 0 {
        let mut t = String::new();
        push_text(&mut t, "task-");
        push_text(&mut t, fresh);
        t
    } else {
        String::from_str(given)
    }
}

/// The identifier of a background task, drawing a fresh one when none is
/// given.
pub fn task_id(given: &str) -> (r: String)
    ensures
        given@.len() > 0 ==> r@ == given@,
        given@.len() == 0 ==> exists|fresh: Seq<char>| crate::ids::hyphenated_v4(fresh) && r@ == "task-"@ + fresh,
{
    let fresh = fresh_uuid();
    task_id_with(given, fresh.as_str())
}

/// The log and metadata file names of a task.
pub fn task_files(tid: &str) -> (r: (String, String))
    ensures
        r.0@ == tid@ + ".log"@,
        r.1@ == tid@ + ".json"@,
{
    let mut log = String::new();
    push_text(&mut log, tid);
    push_text(&mut log, ".log");
    let mut meta = String::new();
    push_text(&mut meta, tid);
    push_text(&mut meta, ".json");
    (log, meta)
}

/// The error for a task that has no metadata.
pub fn task_not_found(tid: &str) -> (r: String)
    ensures
        r@ == "task '"@ + tid@ + "' not found"@,
{
    let mut e = String::new();
    push_text(&mut e, "task '");
    push_text(&mut e, tid);
    push_text(&mut e, "' not found");
    e
}

/// The command that kills a task's process tree.
pub fn kill_command(windows: bool, pid: u32) -> (r: CommandSpec)
    ensures
        command_view(r) == (if windows {
            ("taskkill"@, seq!["/F"@, "/PID"@, dec(pid as nat), "/T"@])
        } else {
            ("kill"@, seq!["-9"@, dec(pid as nat)])
        }),
{
    let mut p = String::new();
    push_dec(&mut p, pid as u64);
    if windows {
        let a = ["/F", "/PID", p.as_str(), "/T"];
        let v = strings(&a);
        assert(a@.map_values(|s: &str| s@) =~= seq!["/F"@, "/PID"@, dec(pid as nat), "/T"@]);
        CommandSpec { program: String::from_str("taskkill"), args: v }
    } else {
        let a = ["-9", p.as_str()];
        let v = strings(&a);
        assert(a@.map_values(|s: &str| s@) =~= seq!["-9"@, dec(pid as nat)]);
        CommandSpec { program: String::from_str("kill"), args: v }
    }
}

/// The operations of the shell organ, with their arguments.
#[derive(Debug)]
pub enum ShellOp {
    Spawn { command: String, task_id: String },
    Poll { task_id: String },
    Kill { task_id: String },
    Exec { command: String, timeout: Option<u64>, cwd: String },
}

/// Which operation a request selects: spawn, poll, kill, else run.
pub open spec fn shell_choice(a: ArgsView) -> int {
    let op = lowercase(op_of(a));
    if op == "spawn_background"@ || has_key(a, "spawn_background"@) || has_key(a, "background"@) {
        0
    } else if op == "poll_task"@ || has_key(a, "poll_task"@) || has_key(a, "poll"@) {
        1
    } else if op == "kill_task"@ || has_key(a, "kill_task"@) || has_key(a, "kill"@) {
        2
    } else {
        3
    }
}

/// Route a request of the shell organ.
pub fn shell_route(args: &OrganArgs) -> (r: ShellOp)
    ensures
        shell_choice(args@) == 0 ==> (r matches ShellOp::Spawn { command, task_id } && command@ == param_or(
            args@,
            "command"@,
            param_or(args@, "cmd"@, ""@),
        ) && task_id@ == param_or(args@, "task_id"@, param_or(args@, "id"@, ""@))),
        shell_choice(args@) == 1 ==> (r matches ShellOp::Poll { task_id } && task_id@ == param_or(
            args@,
            "task_id"@,
            param_or(args@, "id"@, ""@),
        )),
        shell_choice(args@) == 2 ==> (r matches ShellOp::Kill { task_id } && task_id@ == param_or(
            args@,
            "task_id"@,
            param_or(args@, "id"@, ""@),
        )),
        shell_choice(args@) == 3 ==> (r matches ShellOp::Exec { command, timeout, cwd } && command@
            == param_or(args@, "command"@, param_or(args@, "cmd"@, ""@)) && timeout == (if args@.5.contains_key(
            "timeout_secs"@,
        ) && crate::text::parse_u64(args@.5["timeout_secs"@]) is Some {
            crate::text::parse_u64(args@.5["timeout_secs"@])
        } else if args@.5.contains_key("timeout"@) {
            crate::text::parse_u64(args@.5["timeout"@])
        } else {
            None
        }) && cwd@ == param_or(args@, "cwd"@, ""@)),
{
    let op = to_lower(args.op());
    let o = op.as_str();
    let tid = String::from_str(args.get_or("task_id", args.get_or("id", "")));
    if same_text(o, "spawn_background") || args.has("spawn_background") || args.has("background") {
        ShellOp::Spawn {
            command: String::from_str(args.get_or("command", args.get_or("cmd", ""))),
            task_id: tid,
        }
    } else if same_text(o, "poll_task") || args.has("poll_task") || args.has("poll") {
        ShellOp::Poll { task_id: tid }
    } else if same_text(o, "kill_task") || args.has("kill_task") || args.has("kill") {
        ShellOp::Kill { task_id: tid }
    } else {
        let t = match args.get_u64("timeout_secs") {
            Some(v) => Some(v),
            None => args.get_u64("timeout"),
        };
        ShellOp::Exec {
            command: String::from_str(args.get_or("command", args.get_or("cmd", ""))),
            timeout: t,
            cwd: String::from_str(args.get_or("cwd", "")),
        }
    }
}


/// The part of `s` kept by bounding it to `budget` bytes fits in the
/// budget, and is the longest prefix that does: one more character would
/// not fit.
pub proof fn lemma_kept_prefix_fits(s: Seq<char>, budget: int)
    requires
        budget >= 0,
    ensures
        fit_count(s, budget) <= s.len(),
        byte_len(s.take(fit_count(s, budget) as int)) <= budget,
        fit_count(s, budget) < s.len() ==> byte_len(s.take(fit_count(s, budget) as int + 1)) > budget,
    decreases s.len(),
{
    let k = fit_count(s, budget);
    if s.len() > 0 && utf8_width(s[0]) <= budget {
        let b2 = budget - utf8_width(s[0]);
        lemma_kept_prefix_fits(s.drop_first(), b2);
        let k2 = fit_count(s.drop_first(), b2);
        assert(k == k2 + 1);
        assert(s.take(k as int).drop_first() =~= s.drop_first().take(k2 as int));
        assert(s.take(k as int)[0] == s[0]);
        if k < s.len() {
            assert(s.take(k as int + 1).drop_first() =~= s.drop_first().take(k2 as int + 1));
            assert(s.take(k as int + 1)[0] == s[0]);
        }
    } else {
        assert(s.take(0) =~= Seq::<char>::empty());
        if s.len() > 0 {
            assert(s.take(1).drop_first() =~= Seq::<char>::empty());
            assert(s.take(1)[0] == s[0]);
        }
    }
}

/// Bounding leaves a text that fits as it is; a text that does not fit
/// becomes its longest prefix within the budget followed by the notice.
pub proof fn lemma_truncated_shape(s: Seq<char>, max: nat)
    ensures
        byte_len(s) <= max ==> truncated(s, max) == s,
        byte_len(s) > max ==> {
            let p = s.take(fit_count(s, max as int) as int);
            &&& p.is_prefix_of(s)
            &&& byte_len(p) <= max
            &&& truncated(s, max) == p + "\n... [truncated to "@ + dec(max) + " bytes]"@
        },
{
    lemma_kept_prefix_fits(s, max as int);
    let p = s.take(fit_count(s, max as int) as int);
    assert(p.is_prefix_of(s)) by {
        assert(s.take(p.len() as int) =~= p);
    }
}

} // verus!
