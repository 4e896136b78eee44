//! What a worker makes of a finished task process: the structured lines of
//! its stdout, its outcome by exit code, and its error text.

use vstd::prelude::*;
use crate::proto_types::{LogLevel, TaskOutcome};
use crate::text::{
    chars_of, copy_range, find_separator, first_separator, has_prefix, owned, push_str,
    starts_with_chars, string_of,
};

verus! {

/// The state of splitting text into lines: the lines ended so far and the
/// line being read.
pub open spec fn split_step(st: (Seq<Seq<char>>, Seq<char>), c: char) -> (Seq<Seq<char>>, Seq<char>) {
    if c == '\n' {
        (st.0.push(drop_cr(st.1)), Seq::empty())
    } else {
        (st.0, st.1.push(c))
    }
}

/// A line ended by `\r\n` loses its `\r`.
pub open spec fn drop_cr(line: Seq<char>) -> Seq<char> {
    if line.len() > 0 && line.last() == '\r' {
        line.drop_last()
    } else {
        line
    }
}

pub open spec fn split_state(s: Seq<char>) -> (Seq<Seq<char>>, Seq<char>)
    decreases s.len(),
{
    if s.len() == 0 {
        (Seq::empty(), Seq::empty())
    } else {
        split_step(split_state(s.drop_last()), s.last())
    }
}

/// What `str::lines` gives: the text split at `\n` (and `\r\n`), with no
/// empty line after a final line ending.
pub open spec fn lines_of(s: Seq<char>) -> Seq<Seq<char>> {
    let st = split_state(s);
    if st.1.len() == 0 {
        st.0
    } else {
        st.0.push(st.1)
    }
}

/// The lines of a text.
pub fn split_lines(s: &str) -> (r: Vec<Vec<char>>)
    ensures
        r@.map_values(|l: Vec<char>| l@) == lines_of(s@),
{
    let c = chars_of(s);
    let mut done: Vec<Vec<char>> = Vec::new();
    let mut cur: Vec<char> = Vec::new();
    let mut i: usize = 0;
    proof {
        assert(c@.take(0) =~= Seq::<char>::empty());
        assert(done@.map_values(|l: Vec<char>| l@) =~= Seq::<Seq<char>>::empty());
    }
    while i < c.len()
        invariant
            c@ == s@,
            i <= c@.len(),
            (done@.map_values(|l: Vec<char>| l@), cur@) == split_state(c@.take(i as int)),
        decreases c.len() - i,
    {
        assert(c@.take(i + 1).drop_last() =~= c@.take(i as int));
        let ghost before = done@.map_values(|l: Vec<char>| l@);
        if c[i] == '\n' {
            let mut line = Vec::new();
            std::mem::swap(&mut line, &mut cur);
            if line.len() > 0 && line[line.len() - 1] == '\r' {
                line.pop();
            }
            done.push(line);
            assert(done@.map_values(|l: Vec<char>| l@) =~= before.push(drop_cr(split_state(c@.take(i as int)).1)));
        } else {
            cur.push(c[i]);
            assert(done@.map_values(|l: Vec<char>| l@) =~= before);
        }
        i = i + 1;
    }
    proof {
        assert(c@.take(i as int) =~= c@);
    }
    if cur.len() > 0 {
        let ghost before = done@.map_values(|l: Vec<char>| l@);
        done.push(cur);
        assert(done@.map_values(|l: Vec<char>| l@) =~= before.push(split_state(s@).1));
    }
    done
}

/// What the worker keeps of a task's stdout: the last XCom payload, the
/// metric lines (name and value text) and the log lines, in order.
#[verifier::ext_equal]
pub struct ScannedModel {
    pub xcom: Seq<char>,
    pub metrics: Seq<(Seq<char>, Seq<char>)>,
    pub logs: Seq<(LogLevel, Seq<char>)>,
}

/// The level and message of the text after `CONDUIT::LOG::`: a leading
/// `INFO::`, `WARN::`, `ERROR::` or `DEBUG::` names the level; otherwise the
/// whole text is an info message.
pub open spec fn log_entry(rest: Seq<char>) -> (LogLevel, Seq<char>) {
    if has_prefix(rest, "INFO::"@) {
        (LogLevel::Info, rest.skip(6))
    } else if has_prefix(rest, "WARN::"@) {
        (LogLevel::Warn, rest.skip(6))
    } else if has_prefix(rest, "ERROR::"@) {
        (LogLevel::Error, rest.skip(7))
    } else if has_prefix(rest, "DEBUG::"@) {
        (LogLevel::Debug, rest.skip(7))
    } else {
        (LogLevel::Info, rest)
    }
}

/// The scan after one more line.
pub open spec fn scan_step(m: ScannedModel, line: Seq<char>) -> ScannedModel {
    if has_prefix(line, "CONDUIT::XCOM::"@) {
        ScannedModel { xcom: line.skip(15), ..m }
    } else if has_prefix(line, "CONDUIT::METRIC::"@) {
        let rest = line.skip(17);
        match first_separator(rest) {
            Some(i) => ScannedModel { metrics: m.metrics.push((rest.take(i), rest.skip(i + 2))), ..m },
            None => m,
        }
    } else if has_prefix(line, "CONDUIT::LOG::"@) {
        ScannedModel { logs: m.logs.push(log_entry(line.skip(14))), ..m }
    } else {
        m
    }
}

pub open spec fn scan_lines(lines: Seq<Seq<char>>) -> ScannedModel
    decreases lines.len(),
{
    if lines.len() == 0 {
        ScannedModel { xcom: Seq::empty(), metrics: Seq::empty(), logs: Seq::empty() }
    } else {
        scan_step(scan_lines(lines.drop_last()), lines.last())
    }
}

/// What the worker keeps of a task's stdout.
#[derive(Debug, Clone)]
pub struct ScannedOutput {
    /// The payload of the last XCom line (empty when there is none).
    pub xcom: String,
    /// Each metric line's name and value text.
    pub metrics: Vec<(String, String)>,
    /// Each log line's level and message.
    pub logs: Vec<(LogLevel, String)>,
}

impl ScannedOutput {
    pub open spec fn model(&self) -> ScannedModel {
        ScannedModel {
            xcom: self.xcom@,
            metrics: self.metrics@.map_values(|p: (String, String)| (p.0@, p.1@)),
            logs: self.logs@.map_values(|p: (LogLevel, String)| (p.0, p.1@)),
        }
    }
}

fn log_entry_of(rest: &[char]) -> (r: (LogLevel, Vec<char>))
    ensures
        (r.0, r.1@) == log_entry(rest@),
{
    let n = rest.len();
    if starts_with_chars(rest, "INFO::") {
        proof {
            reveal_strlit("INFO::");
            assert(rest@.subrange(6, n as int) =~= rest@.skip(6));
        }
        (LogLevel::Info, copy_range(rest, 6, n))
    } else if starts_with_chars(rest, "WARN::") {
        proof {
            reveal_strlit("WARN::");
            assert(rest@.subrange(6, n as int) =~= rest@.skip(6));
        }
        (LogLevel::Warn, copy_range(rest, 6, n))
    } else if starts_with_chars(rest, "ERROR::") {
        proof {
            reveal_strlit("ERROR::");
            assert(rest@.subrange(7, n as int) =~= rest@.skip(7));
        }
        (LogLevel::Error, copy_range(rest, 7, n))
    } else if starts_with_chars(rest, "DEBUG::") {
        proof {
            reveal_strlit("DEBUG::");
            assert(rest@.subrange(7, n as int) =~= rest@.skip(7));
        }
        (LogLevel::Debug, copy_range(rest, 7, n))
    } else {
        proof {
            assert(rest@.subrange(0, n as int) =~= rest@);
        }
        (LogLevel::Info, copy_range(rest, 0, n))
    }
}

/// Reads a task's stdout the way a worker does.
pub fn scan_output(stdout: &str) -> (r: ScannedOutput)
    ensures
        r.model() == scan_lines(lines_of(stdout@)),
{
    let lines = split_lines(stdout);
    let ghost ls = lines@.map_values(|l: Vec<char>| l@);
    let mut out = ScannedOutput { xcom: String::new(), metrics: Vec::new(), logs: Vec::new() };
    let mut i: usize = 0;
    proof {
        assert(ls.take(0) =~= Seq::<Seq<char>>::empty());
        assert(out.model() =~= scan_lines(ls.take(0)));
    }
    while i < lines.len()
        invariant
            ls == lines@.map_values(|l: Vec<char>| l@),
            i <= lines@.len(),
            out.model() == scan_lines(ls.take(i as int)),
        decreases lines.len() - i,
    {
        assert(ls.take(i + 1).drop_last() =~= ls.take(i as int));
        assert(ls.take(i + 1).last() == lines@[i as int]@);
        let line = lines[i].as_slice();
        let n = line.len();
        let ghost before = out.model();
        if starts_with_chars(line, "CONDUIT::XCOM::") {
            proof {
                reveal_strlit("CONDUIT::XCOM::");
                assert(line@.subrange(15, n as int) =~= line@.skip(15));
            }
            out.xcom = string_of(copy_range(line, 15, n).as_slice());
            assert(out.model() =~= scan_step(before, line@));
        } else if starts_with_chars(line, "CONDUIT::METRIC::") {
            proof {
                reveal_strlit("CONDUIT::METRIC::");
                assert(line@.subrange(17, n as int) =~= line@.skip(17));
            }
            let rest = copy_range(line, 17, n);
            let sep = find_separator(rest.as_slice());
            if let Some(k) = sep {
                let m = rest.len();
                assert(k + 2 <= m);
                let name = copy_range(rest.as_slice(), 0, k);
                let value = copy_range(rest.as_slice(), k + 2, m);
                proof {
                    assert(rest@.subrange(0, k as int) =~= rest@.take(k as int));
                    assert(rest@.subrange(k + 2, m as int) =~= rest@.skip(k + 2));
                }
                out.metrics.push((string_of(name.as_slice()), string_of(value.as_slice())));
            }
            assert(out.model() =~= scan_step(before, line@));
        } else if starts_with_chars(line, "CONDUIT::LOG::") {
            proof {
                reveal_strlit("CONDUIT::LOG::");
                assert(line@.subrange(14, n as int) =~= line@.skip(14));
            }
            let rest = copy_range(line, 14, n);
            let (level, message) = log_entry_of(rest.as_slice());
            out.logs.push((level, string_of(message.as_slice())));
            assert(out.model() =~= scan_step(before, line@));
        } else {
            assert(out.model() =~= scan_step(before, line@));
        }
        i = i + 1;
    }
    proof {
        assert(ls.take(i as int) =~= ls);
    }
    out
}

/// How a task ended, by its exit code: 0 succeeded, 2 asks for a retry,
/// 3 asks to be skipped, anything else failed.
pub open spec fn outcome_of_exit(code: i32) -> TaskOutcome {
    if code == 0 {
        TaskOutcome::Success
    } else if code == 2 {
        TaskOutcome::Retry
    } else if code == 3 {
        TaskOutcome::Skipped
    } else {
        TaskOutcome::Failed
    }
}

/// The outcome of a task that exited with `code`.
pub fn outcome_for_exit_code(code: i32) -> (o: TaskOutcome)
    ensures
        o == outcome_of_exit(code),
{
    match code {
        0 => TaskOutcome::Success,
        2 => TaskOutcome::Retry,
        3 => TaskOutcome::Skipped,
        _ => TaskOutcome::Failed,
    }
}

/// The error a worker reports: the task's stderr unless it succeeded.
pub fn error_for(outcome: TaskOutcome, stderr: &str) -> (e: String)
    ensures
        e@ == if outcome == TaskOutcome::Success {
            Seq::<char>::empty()
        } else {
            stderr@
        },
{
    if outcome != TaskOutcome::Success {
        owned(stderr)
    } else {
        String::new()
    }
}

/// The seconds a task may run on a worker: its timeout, or an hour when it
/// sets none.
pub fn task_timeout_secs(timeout_secs: u64) -> (t: u64)
    ensures
        t == if timeout_secs > 0 {
            timeout_secs
        } else {
            3600
        },
{
    if timeout_secs > 0 {
        timeout_secs
    } else {
        3600
    }
}

/// The text with every `'` written as `'\''`, the way a single-quoted shell
/// word spells a quote.
pub open spec fn shell_quote_body(s: Seq<char>) -> Seq<char>
    decreases s.len(),
{
    if s.len() == 0 {
        Seq::empty()
    } else if s.last() == '\'' {
        shell_quote_body(s.drop_last()) + "'\\''"@
    } else {
        shell_quote_body(s.drop_last()).push(s.last())
    }
}

/// The shell command that runs a Python script: `python3 -c '<script>'`.
pub fn python_command(script: &str) -> (c: String)
    ensures
        c@ == "python3 -c '"@ + shell_quote_body(script@) + "'"@,
{
    let s = chars_of(script);
    let mut out: Vec<char> = Vec::new();
    push_str(&mut out, "python3 -c '");
    let ghost head = out@;
    let mut i: usize = 0;
    proof {
        assert(s@.take(0) =~= Seq::<char>::empty());
        assert(out@ =~= head + shell_quote_body(s@.take(0)));
    }
    while i < s.len()
        invariant
            s@ == script@,
            i <= s@.len(),
            out@ == head + shell_quote_body(s@.take(i as int)),
        decreases s.len() - i,
    {
        assert(s@.take(i + 1).drop_last() =~= s@.take(i as int));
        if s[i] == '\'' {
            push_str(&mut out, "'\\''");
        } else {
            out.push(s[i]);
        }
        assert(out@ =~= head + shell_quote_body(s@.take(i + 1)));
        i = i + 1;
    }
    proof {
        assert(s@.take(i as int) =~= s@);
    }
    push_str(&mut out, "'");
    string_of(out.as_slice())
}

} // verus!
