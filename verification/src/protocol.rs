//! The stdout protocol through which tasks talk back to the orchestrator.
//!
//! A task writes structured lines to stdout:
//! - `CONDUIT::XCOM::{json}`: cross-task data,
//! - `CONDUIT::LOG::LEVEL::message`: a structured log line,
//! - `CONDUIT::PROGRESS::percent`: progress from 0 to 100,
//! - `CONDUIT::METRIC::name::value`: a custom metric.
//!
//! Every other line is ordinary output.

use vstd::prelude::*;
use crate::error::ConduitError;
use crate::text::{
    chars_of, concat, copy_range, find_separator, first_separator, has_prefix, owned,
    parse_unsigned, parse_unsigned_chars, push_decimal, push_str, starts_with_chars,
    str_eq, string_of, trim, trim_chars, decimal, is_digit, is_space, trim_end, trim_start, unsigned_body,
    separator_from,
};

verus! {

/// What `str::to_uppercase` gives for a text (Unicode upper-case mapping).
pub uninterp spec fn uppercase(s: Seq<char>) -> Seq<char>;

/// `str::to_uppercase`: the upper-case form of the text, as the Unicode
/// `Uppercase` mapping gives it. Only that the result is that mapping of the
/// argument is claimed; the mapping itself is named, not stated.
#[verifier::external_body]
pub(crate) fn to_uppercase(s: &str) -> (r: String)
    ensures
        r@ == uppercase(s@),
{
    s.to_uppercase()
}

/// Severity of a structured log line.
#[derive(Debug, Clone, Copy, PartialEq, Eq, Structural)]
pub enum LogLevel {
    Debug,
    Info,
    Warn,
    Error,
}

/// The name a level is written with.
pub open spec fn level_text(level: LogLevel) -> Seq<char> {
    match level {
        LogLevel::Debug => "DEBUG"@,
        LogLevel::Info => "INFO"@,
        LogLevel::Warn => "WARN"@,
        LogLevel::Error => "ERROR"@,
    }
}

/// The level an upper-case name stands for (`WARNING` is a second name for
/// `WARN`).
pub open spec fn level_named(upper: Seq<char>) -> Option<LogLevel> {
    if upper == "DEBUG"@ {
        Some(LogLevel::Debug)
    } else if upper == "INFO"@ {
        Some(LogLevel::Info)
    } else if upper == "WARN"@ || upper == "WARNING"@ {
        Some(LogLevel::Warn)
    } else if upper == "ERROR"@ {
        Some(LogLevel::Error)
    } else {
        None
    }
}

impl LogLevel {
    /// The level's name, as it is written in protocol lines.
    pub fn to_string(&self) -> (s: String)
        ensures
            s@ == level_text(*self),
    {
        match self {
            LogLevel::Debug => owned("DEBUG"),
            LogLevel::Info => owned("INFO"),
            LogLevel::Warn => owned("WARN"),
            LogLevel::Error => owned("ERROR"),
        }
    }

    /// The level a name in any case stands for: a level's own name (which
    /// is its own upper case) at once, any other text by its upper case.
    pub open spec fn level_read(s: Seq<char>) -> Option<LogLevel> {
        if level_named(s) is Some {
            level_named(s)
        } else {
            level_named(uppercase(s))
        }
    }

    /// The level an already upper-cased name stands for, or a protocol error
    /// naming it.
    pub fn from_upper(upper: &str) -> (r: Result<LogLevel, ConduitError>)
        ensures
            match level_named(upper@) {
                Some(l) => r == Ok::<LogLevel, ConduitError>(l),
                None => r matches Err(ConduitError::ProtocolError(m)) && m@ == "Unknown log level: "@
                    + upper@,
            },
    {
        if str_eq(upper, "DEBUG") {
            Ok(LogLevel::Debug)
        } else if str_eq(upper, "INFO") {
            Ok(LogLevel::Info)
        } else if str_eq(upper, "WARN") || str_eq(upper, "WARNING") {
            Ok(LogLevel::Warn)
        } else if str_eq(upper, "ERROR") {
            Ok(LogLevel::Error)
        } else {
            Err(ConduitError::ProtocolError(concat("Unknown log level: ", upper)))
        }
    }

    /// Parses a level name in any case.
    pub fn parse_level(s: &str) -> (r: Result<LogLevel, ConduitError>)
        ensures
            match LogLevel::level_read(s@) {
                Some(l) => r == Ok::<LogLevel, ConduitError>(l),
                None => r matches Err(ConduitError::ProtocolError(m)) && m@ == "Unknown log level: "@
                    + uppercase(s@),
            },
    {
        if let Ok(level) = LogLevel::from_upper(s) {
            return Ok(level);
        }
        let upper = to_uppercase(s);
        LogLevel::from_upper(upper.as_str())
    }
}

impl std::str::FromStr for LogLevel {
    type Err = ConduitError;

    fn from_str(s: &str) -> (r: Result<LogLevel, ConduitError>)
        ensures
            match LogLevel::level_read(s@) {
                Some(l) => r == Ok::<LogLevel, ConduitError>(l),
                None => r matches Err(ConduitError::ProtocolError(m)) && m@ == "Unknown log level: "@
                    + uppercase(s@),
            },
    {
        LogLevel::parse_level(s)
    }
}

/// The key of the first entry of the JSON object that the text parses into
/// with `serde_json`, as iterating the object's map gives it; `None` when
/// the text is not JSON, not an object, or an empty object.
pub uninterp spec fn json_first_key(payload: Seq<char>) -> Option<Seq<char>>;

/// Whether `serde_json` parses the text into a JSON value.
pub uninterp spec fn json_reads(text: Seq<char>) -> bool;

/// `serde_json::from_str::<serde_json::Value>` of the text, then the first
/// entry of the object's map (`Value::as_object`, `Map::iter`): its key and
/// a copy of its value. Claimed: the result is `Some` exactly when the text
/// parses into a non-empty object, and then the key is `json_first_key` of
/// the text. What the value holds is not stated: Verus sees nothing inside a
/// `serde_json::Value`.
#[verifier::external_body]
fn xcom_entry(payload: &str) -> (r: Option<(String, serde_json::Value)>)
    ensures
        r is Some <==> json_first_key(payload@) is Some,
        r is Some ==> json_first_key(payload@) == Some((r->0).0@) && json_reads(payload@),
{
    let value: serde_json::Value = serde_json::from_str(payload).ok()?;
    let (key, val) = value.as_object()?.iter().next()?;
    Some((key.clone(), val.clone()))
}

/// `serde_json::from_str::<serde_json::Value>`: the JSON value the text
/// holds, or `None` when it is not JSON. Claimed: `Some` exactly when the
/// text parses (`json_reads`); what the value holds is not stated.
#[verifier::external_body]
pub(crate) fn json_value(text: &str) -> (r: Option<serde_json::Value>)
    ensures
        r is Some <==> json_reads(text@),
{
    serde_json::from_str(text).ok()
}

/// Reads the text after `CONDUIT::XCOM::`: the first key of the JSON object
/// it holds, with that key's value.
pub fn parse_xcom(rest: &str) -> (r: Option<ProtocolLine>)
    ensures
        match json_first_key(rest@) {
            Some(k) => r matches Some(l) && l.model() == LineModel::XCom(k),
            None => r is None,
        },
{
    match xcom_entry(rest) {
        Some((key, value)) => Some(ProtocolLine::XCom { key, value }),
        None => None,
    }
}

/// What a protocol line says. The number of a metric line is kept as the
/// text the task wrote.
#[derive(Debug)]
pub enum ProtocolLine {
    /// Cross-communication data: the first key of the JSON object after the
    /// prefix, with its value.
    XCom { key: String, value: serde_json::Value },
    /// A structured log line.
    Log { level: LogLevel, message: String },
    /// Task progress, from 0 to 100.
    Progress { percent: u8 },
    /// A custom metric: its name and the text of its value.
    Metric { name: String, value: String },
}

/// What a protocol line says, over plain values (of an XCom line, its key).
pub enum LineModel {
    XCom(Seq<char>),
    Log(LogLevel, Seq<char>),
    Progress(nat),
    Metric(Seq<char>, Seq<char>),
}

impl ProtocolLine {
    pub open spec fn model(&self) -> LineModel {
        match self {
            ProtocolLine::XCom { key, .. } => LineModel::XCom(key@),
            ProtocolLine::Log { level, message } => LineModel::Log(*level, message@),
            ProtocolLine::Progress { percent } => LineModel::Progress(*percent as nat),
            ProtocolLine::Metric { name, value } => LineModel::Metric(name@, value@),
        }
    }
}

/// The level and message of the text after `CONDUIT::LOG::`: the level runs
/// to the first `::`, the message is the rest (empty when there is no `::`).
pub open spec fn log_model(rest: Seq<char>) -> Option<LineModel> {
    let (level_text, message) = match first_separator(rest) {
        Some(i) => (rest.take(i), rest.skip(i + 2)),
        None => (rest, Seq::<char>::empty()),
    };
    match LogLevel::level_read(level_text) {
        Some(l) => Some(LineModel::Log(l, message)),
        None => None,
    }
}

/// The percent of the text after `CONDUIT::PROGRESS::`: a `u8` no above 100.
pub open spec fn progress_model(rest: Seq<char>) -> Option<LineModel> {
    match parse_unsigned(rest, 255) {
        Some(p) => if p <= 100 {
            Some(LineModel::Progress(p))
        } else {
            None
        },
        None => None,
    }
}

/// The name and value text of the text after `CONDUIT::METRIC::`, split at
/// the first `::`.
pub open spec fn metric_model(rest: Seq<char>) -> Option<LineModel> {
    match first_separator(rest) {
        Some(i) => Some(LineModel::Metric(rest.take(i), rest.skip(i + 2))),
        None => None,
    }
}

/// What a stdout line says, by the protocol: the line is trimmed, then read
/// by the first prefix it carries.
pub open spec fn line_model(line: Seq<char>) -> Option<LineModel> {
    let t = trim(line);
    if has_prefix(t, "CONDUIT::XCOM::"@) {
        match json_first_key(t.skip(15)) {
            Some(k) => Some(LineModel::XCom(k)),
            None => None,
        }
    } else if has_prefix(t, "CONDUIT::LOG::"@) {
        log_model(t.skip(14))
    } else if has_prefix(t, "CONDUIT::PROGRESS::"@) {
        progress_model(t.skip(19))
    } else if has_prefix(t, "CONDUIT::METRIC::"@) {
        metric_model(t.skip(17))
    } else {
        None
    }
}

/// Reads the text after `CONDUIT::LOG::`.
pub fn parse_log(rest: &[char]) -> (r: Option<ProtocolLine>)
    ensures
        match log_model(rest@) {
            Some(m) => r matches Some(l) && l.model() == m,
            None => r is None,
        },
{
    let sep = find_separator(rest);
    let (level_chars, message) = match sep {
        Some(i) => {
            let n = rest.len();
            assert(i + 2 <= n);
            (copy_range(rest, 0, i), copy_range(rest, i + 2, rest.len()))
        },
        None => (copy_range(rest, 0, rest.len()), Vec::new()),
    };
    proof {
        match first_separator(rest@) {
            Some(i) => {
                assert(rest@.subrange(0, i) =~= rest@.take(i));
                assert(rest@.subrange(i + 2, rest@.len() as int) =~= rest@.skip(i + 2));
            },
            None => {
                assert(rest@.subrange(0, rest@.len() as int) =~= rest@);
                assert(message@ =~= Seq::<char>::empty());
            },
        }
    }
    let level_text = string_of(level_chars.as_slice());
    match LogLevel::parse_level(level_text.as_str()) {
        Ok(level) => Some(ProtocolLine::Log { level, message: string_of(message.as_slice()) }),
        Err(_) => None,
    }
}

/// Reads the text after `CONDUIT::PROGRESS::`.
pub fn parse_progress(rest: &[char]) -> (r: Option<ProtocolLine>)
    ensures
        match progress_model(rest@) {
            Some(m) => r matches Some(l) && l.model() == m,
            None => r is None,
        },
{
    match parse_unsigned_chars(rest, 255) {
        Some(p) => if p <= 100 {
            Some(ProtocolLine::Progress { percent: p as u8 })
        } else {
            None
        },
        None => None,
    }
}

/// Reads the text after `CONDUIT::METRIC::`.
pub fn parse_metric(rest: &[char]) -> (r: Option<ProtocolLine>)
    ensures
        match metric_model(rest@) {
            Some(m) => r matches Some(l) && l.model() == m,
            None => r is None,
        },
{
    let sep = find_separator(rest);
    match sep {
        Some(i) => {
            let n = rest.len();
            assert(i + 2 <= n);
            let name = copy_range(rest, 0, i);
            let value = copy_range(rest, i + 2, rest.len());
            proof {
                assert(rest@.subrange(0, i as int) =~= rest@.take(i as int));
                assert(rest@.subrange(i + 2, rest@.len() as int) =~= rest@.skip(i + 2));
            }
            Some(
                ProtocolLine::Metric {
                    name: string_of(name.as_slice()),
                    value: string_of(value.as_slice()),
                },
            )
        },
        None => None,
    }
}

/// Reads a stdout line: `Some` for a protocol line, `None` for ordinary
/// output and for protocol lines that do not read.
pub fn parse_stdout_line(line: &str) -> (r: Option<ProtocolLine>)
    ensures
        match line_model(line@) {
            Some(m) => r matches Some(l) && l.model() == m,
            None => r is None,
        },
{
    let t = trim_chars(chars_of(line).as_slice());
    let n = t.len();
    if starts_with_chars(t.as_slice(), "CONDUIT::XCOM::") {
        proof {
            reveal_strlit("CONDUIT::XCOM::");
            assert(t@.subrange(15, n as int) =~= t@.skip(15));
        }
        let payload = copy_range(t.as_slice(), 15, n);
        parse_xcom(string_of(payload.as_slice()).as_str())
    } else if starts_with_chars(t.as_slice(), "CONDUIT::LOG::") {
        proof {
            reveal_strlit("CONDUIT::LOG::");
            assert(t@.subrange(14, n as int) =~= t@.skip(14));
        }
        parse_log(copy_range(t.as_slice(), 14, n).as_slice())
    } else if starts_with_chars(t.as_slice(), "CONDUIT::PROGRESS::") {
        proof {
            reveal_strlit("CONDUIT::PROGRESS::");
            assert(t@.subrange(19, n as int) =~= t@.skip(19));
        }
        parse_progress(copy_range(t.as_slice(), 19, n).as_slice())
    } else if starts_with_chars(t.as_slice(), "CONDUIT::METRIC::") {
        proof {
            reveal_strlit("CONDUIT::METRIC::");
            assert(t@.subrange(17, n as int) =~= t@.skip(17));
        }
        parse_metric(copy_range(t.as_slice(), 17, n).as_slice())
    } else {
        None
    }
}

/// The protocol line of a structured log message.
pub fn log_line(level: LogLevel, message: &str) -> (s: String)
    ensures
        s@ == "CONDUIT::LOG::"@ + level_text(level) + "::"@ + message@,
{
    let mut v: Vec<char> = Vec::new();
    push_str(&mut v, "CONDUIT::LOG::");
    let name = level.to_string();
    push_str(&mut v, name.as_str());
    push_str(&mut v, "::");
    push_str(&mut v, message);
    string_of(v.as_slice())
}

/// The protocol line of a progress report.
pub fn progress_line(percent: u8) -> (s: String)
    ensures
        s@ == "CONDUIT::PROGRESS::"@ + decimal(percent as nat),
{
    let mut v: Vec<char> = Vec::new();
    push_str(&mut v, "CONDUIT::PROGRESS::");
    push_decimal(&mut v, percent as u64);
    string_of(v.as_slice())
}

/// A progress line reads back as the progress it reports.
pub proof fn law_progress_line_reads_back(percent: u8)
    requires
        percent <= 100,
    ensures
        line_model("CONDUIT::PROGRESS::"@ + decimal(percent as nat)) == Some(LineModel::Progress(percent as nat)),
{
    let d = decimal(percent as nat);
    let line = "CONDUIT::PROGRESS::"@ + d;
    crate::text::lemma_decimal_reads_back(percent as nat);
    reveal_strlit("CONDUIT::PROGRESS::");
    reveal_strlit("CONDUIT::XCOM::");
    reveal_strlit("CONDUIT::LOG::");
    assert(line.len() == 19 + d.len());
    assert(line.last() == d.last());
    assert(is_digit(d[d.len() - 1]));
    assert(!is_space(line.last()));
    assert(trim_end(line) == line);
    assert(!is_space(line[0]));
    assert(trim_start(line) == line);
    assert(trim(line) == line);
    assert(line[9] == 'P');
    assert(!has_prefix(line, "CONDUIT::XCOM::"@)) by {
        assert(line.take(15)[9] != "CONDUIT::XCOM::"@[9]);
    }
    assert(!has_prefix(line, "CONDUIT::LOG::"@)) by {
        assert(line.take(14)[9] != "CONDUIT::LOG::"@[9]);
    }
    assert(line.take(19) =~= "CONDUIT::PROGRESS::"@);
    assert(line.skip(19) =~= d);
    assert(unsigned_body(d) == d);
}

/// No `:` of the text is followed by another `:` or by the text's end.
pub open spec fn no_colon_pair(name: Seq<char>) -> bool {
    forall|i: int| 0 <= i < name.len() && #[trigger] name[i] == ':' ==> i + 1 < name.len() && name[i + 1] != ':'
}

proof fn lemma_separator_after_name(name: Seq<char>, value: Seq<char>, i: int)
    requires
        no_colon_pair(name),
        0 <= i <= name.len(),
    ensures
        separator_from(name + "::"@ + value, i) == Some(name.len() as int),
    decreases name.len() - i,
{
    let s = name + "::"@ + value;
    reveal_strlit("::");
    assert(s[name.len() as int] == ':' && s[name.len() as int + 1] == ':');
    if i < name.len() {
        assert(s[i] == name[i]);
        if name[i] == ':' {
            assert(s[i + 1] == name[i + 1]);
        }
        lemma_separator_after_name(name, value, i + 1);
    }
}

/// A metric line reads back as the metric it reports, when no `:` of the
/// name is followed by another `:` or ends it (the name ends at the first
/// `::`), and the value does not end in whitespace (lines are trimmed).
pub proof fn law_metric_line_reads_back(name: Seq<char>, value: Seq<char>)
    requires
        no_colon_pair(name),
        value.len() > 0 ==> !is_space(value.last()),
    ensures
        line_model("CONDUIT::METRIC::"@ + name + "::"@ + value) == Some(LineModel::Metric(name, value)),
{
    let rest = name + "::"@ + value;
    let line = "CONDUIT::METRIC::"@ + rest;
    reveal_strlit("CONDUIT::METRIC::");
    reveal_strlit("CONDUIT::XCOM::");
    reveal_strlit("CONDUIT::LOG::");
    reveal_strlit("CONDUIT::PROGRESS::");
    reveal_strlit("::");
    assert(line =~= "CONDUIT::METRIC::"@ + name + "::"@ + value);
    assert(line.len() == 17 + rest.len());
    assert(rest.len() == name.len() + 2 + value.len());
    if value.len() > 0 {
        assert(line.last() == value.last());
    } else {
        assert(line.last() == ':');
    }
    assert(!is_space(line.last()));
    assert(trim_end(line) == line);
    assert(!is_space(line[0]));
    assert(trim_start(line) == line);
    assert(trim(line) == line);
    assert(line[9] == 'M');
    assert(!has_prefix(line, "CONDUIT::XCOM::"@)) by {
        assert(line.take(15)[9] != "CONDUIT::XCOM::"@[9]);
    }
    assert(!has_prefix(line, "CONDUIT::LOG::"@)) by {
        assert(line.take(14)[9] != "CONDUIT::LOG::"@[9]);
    }
    assert(!has_prefix(line, "CONDUIT::PROGRESS::"@)) by {
        assert(line.take(19)[9] != "CONDUIT::PROGRESS::"@[9]);
    }
    assert(line.take(17) =~= "CONDUIT::METRIC::"@);
    assert(line.skip(17) =~= rest);
    lemma_separator_after_name(name, value, 0);
    assert(rest.take(name.len() as int) =~= name);
    assert(rest.skip(name.len() as int + 2) =~= value);
}

/// A level's name reads back as that level.
proof fn lemma_level_name_reads_back(level: LogLevel)
    ensures
        no_colon_pair(level_text(level)),
        level_named(level_text(level)) == Some(level),
{
    reveal_strlit("DEBUG");
    reveal_strlit("INFO");
    reveal_strlit("WARN");
    reveal_strlit("WARNING");
    reveal_strlit("ERROR");
    let t = level_text(level);
    assert(t.len() <= 5);
    assert forall|i: int| 0 <= i < t.len() && #[trigger] t[i] == ':' implies i + 1 < t.len() && t[i + 1] != ':' by {}
    if level != LogLevel::Debug {
        assert(t != "DEBUG"@) by {
            if level == LogLevel::Info || level == LogLevel::Warn {
                assert(t.len() != 5);
            } else {
                assert(t[0] != "DEBUG"@[0]);
            }
        }
    }
    if level == LogLevel::Warn || level == LogLevel::Error {
        assert(t != "INFO"@) by {
            assert(t[0] != "INFO"@[0]);
        }
    }
    if level == LogLevel::Error {
        assert(t != "WARN"@ && t != "WARNING"@) by {
            assert(t[0] != "WARN"@[0]);
        }
    }
}

/// A log line reads back as the level and message it reports, when the
/// message does not end in whitespace (lines are trimmed). The message may
/// itself hold `::`: the level ends at the first one.
pub proof fn law_log_line_reads_back(level: LogLevel, message: Seq<char>)
    requires
        message.len() > 0 ==> !is_space(message.last()),
    ensures
        line_model("CONDUIT::LOG::"@ + level_text(level) + "::"@ + message) == Some(LineModel::Log(level, message)),
{
    let name = level_text(level);
    let rest = name + "::"@ + message;
    let line = "CONDUIT::LOG::"@ + rest;
    lemma_level_name_reads_back(level);
    reveal_strlit("CONDUIT::XCOM::");
    reveal_strlit("CONDUIT::LOG::");
    reveal_strlit("::");
    assert(line =~= "CONDUIT::LOG::"@ + name + "::"@ + message);
    assert(line.len() == 14 + rest.len());
    assert(rest.len() == name.len() + 2 + message.len());
    if message.len() > 0 {
        assert(line.last() == message.last());
    } else {
        assert(line.last() == ':');
    }
    assert(!is_space(line.last()));
    assert(trim_end(line) == line);
    assert(!is_space(line[0]));
    assert(trim_start(line) == line);
    assert(trim(line) == line);
    assert(line[9] == 'L');
    assert(!has_prefix(line, "CONDUIT::XCOM::"@)) by {
        assert(line.take(15)[9] != "CONDUIT::XCOM::"@[9]);
    }
    assert(line.take(14) =~= "CONDUIT::LOG::"@);
    assert(line.skip(14) =~= rest);
    lemma_separator_after_name(name, message, 0);
    assert(rest.take(name.len() as int) =~= name);
    assert(rest.skip(name.len() as int + 2) =~= message);
}

} // verus!
