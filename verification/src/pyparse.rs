//! The text handling of the Python DAG parser: decorator arguments, task
//! definitions, assignments and parameter defaults.

use vstd::prelude::*;
use crate::dag::TaskType;
use crate::dagparse::DagParser;
use crate::error::ConduitError;
use crate::resolver::ParsedTask;
use crate::text::{
    chars_of, clone_strings, copy_range, is_space, is_space_char, owned, parse_i32, parse_i32_spec,
    parse_u32, parse_unsigned, str_eq, string_of, trim, trim_chars, views,
};

verus! {

/// The state of splitting decorator arguments: the arguments ended so far,
/// the one being read, the bracket depth, and the open quote if any.
pub struct ArgsState {
    pub parts: Seq<Seq<char>>,
    pub current: Seq<char>,
    pub depth: int,
    pub in_string: bool,
    pub quote: char,
}

/// One character more.
pub open spec fn args_step(st: ArgsState, ch: char) -> ArgsState {
    if (ch == '"' || ch == '\'') && !st.in_string {
        ArgsState { in_string: true, quote: ch, current: st.current.push(ch), ..st }
    } else if st.in_string && ch == st.quote {
        ArgsState { in_string: false, current: st.current.push(ch), ..st }
    } else if (ch == '[' || ch == '(') && !st.in_string {
        ArgsState { depth: st.depth + 1, current: st.current.push(ch), ..st }
    } else if (ch == ']' || ch == ')') && !st.in_string {
        ArgsState { depth: st.depth - 1, current: st.current.push(ch), ..st }
    } else if ch == ',' && st.depth == 0 && !st.in_string {
        ArgsState {
            parts: if trim(st.current).len() > 0 {
                st.parts.push(trim(st.current))
            } else {
                st.parts
            },
            current: Seq::empty(),
            ..st
        }
    } else {
        ArgsState { current: st.current.push(ch), ..st }
    }
}

pub open spec fn args_state(s: Seq<char>) -> ArgsState
    decreases s.len(),
{
    if s.len() == 0 {
        ArgsState { parts: Seq::empty(), current: Seq::empty(), depth: 0, in_string: false, quote: '"' }
    } else {
        args_step(args_state(s.drop_last()), s.last())
    }
}

/// The arguments of a call's text, split at the commas outside brackets and
/// quotes, each trimmed, empty ones dropped.
pub open spec fn split_args_spec(s: Seq<char>) -> Seq<Seq<char>> {
    let st = args_state(s);
    if trim(st.current).len() > 0 {
        st.parts.push(trim(st.current))
    } else {
        st.parts
    }
}

proof fn lemma_depth_bounded(s: Seq<char>)
    ensures
        -(s.len() as int) <= args_state(s).depth <= s.len(),
    decreases s.len(),
{
    if s.len() > 0 {
        lemma_depth_bounded(s.drop_last());
    }
}

impl DagParser {
    /// Splits decorator arguments at the top-level commas, respecting brackets
    /// and quotes.
    pub fn split_args(s: &str) -> (r: Vec<String>)
        requires
            s@.len() <= i32::MAX,
        ensures
            views(r@) == split_args_spec(s@),
    {
        let c = chars_of(s);
        let mut parts: Vec<String> = Vec::new();
        let mut current: Vec<char> = Vec::new();
        let mut depth: i32 = 0;
        let mut in_string = false;
        let mut string_char = '"';
        let mut i: usize = 0;
        proof {
            assert(c@.take(0) =~= Seq::<char>::empty());
            assert(views(parts@) =~= Seq::<Seq<char>>::empty());
        }
        while i < c.len()
            invariant
                c@ == s@,
                s@.len() <= i32::MAX,
                i <= c@.len(),
                ({
                    let st = args_state(c@.take(i as int));
                    &&& views(parts@) == st.parts
                    &&& current@ == st.current
                    &&& depth as int == st.depth
                    &&& in_string == st.in_string
                    &&& string_char == st.quote
                }),
            decreases c.len() - i,
        {
            let ch = c[i];
            proof {
                assert(c@.take(i + 1).drop_last() =~= c@.take(i as int));
                lemma_depth_bounded(c@.take(i as int));
            }
            let ghost before = views(parts@);
            if (ch == '"' || ch == '\'') && !in_string {
                in_string = true;
                string_char = ch;
                current.push(ch);
            } else if in_string && ch == string_char {
                in_string = false;
                current.push(ch);
            } else if (ch == '[' || ch == '(') && !in_string {
                depth = depth + 1;
                current.push(ch);
            } else if (ch == ']' || ch == ')') && !in_string {
                depth = depth - 1;
                current.push(ch);
            } else if ch == ',' && depth == 0 && !in_string {
                let trimmed = trim_chars(current.as_slice());
                if trimmed.len() > 0 {
                    parts.push(string_of(trimmed.as_slice()));
                    assert(views(parts@) =~= before.push(trimmed@));
                }
                current = Vec::new();
            } else {
                current.push(ch);
            }
            i = i + 1;
        }
        proof {
            assert(c@.take(i as int) =~= c@);
        }
        let trimmed = trim_chars(current.as_slice());
        if trimmed.len() > 0 {
            let ghost before = views(parts@);
            parts.push(string_of(trimmed.as_slice()));
            assert(views(parts@) =~= before.push(trimmed@));
        }
        parts
    }
}

/// The first position of `c` in the text, if any.
pub open spec fn first_index(s: Seq<char>, c: char) -> Option<int> {
    if exists|i: int| 0 <= i < s.len() && s[i] == c {
        Some(choose|i: int| 0 <= i < s.len() && s[i] == c && forall|j: int| 0 <= j < i ==> s[j] != c)
    } else {
        None
    }
}

/// The last position of `c` in the text, if any.
pub open spec fn last_index(s: Seq<char>, c: char) -> Option<int> {
    if exists|i: int| 0 <= i < s.len() && s[i] == c {
        Some(choose|i: int| 0 <= i < s.len() && s[i] == c && forall|j: int| i < j < s.len() ==> s[j] != c)
    } else {
        None
    }
}

pub(crate) fn find_first(s: &[char], c: char) -> (r: Option<usize>)
    ensures
        match r {
            Some(i) => first_index(s@, c) == Some(i as int) && i < s@.len(),
            None => first_index(s@, c) is None,
        },
{
    let mut i: usize = 0;
    while i < s.len()
        invariant
            i <= s@.len(),
            forall|j: int| 0 <= j < i ==> s@[j] != c,
        decreases s.len() - i,
    {
        if s[i] == c {
            proof {
                let w = choose|k: int| 0 <= k < s@.len() && s@[k] == c && forall|j: int| 0 <= j < k ==> s@[j] != c;
                assert(0 <= i < s@.len() && s@[i as int] == c && forall|j: int| 0 <= j < i ==> s@[j] != c);
                if w < i {
                } else if w > i {
                    assert(s@[i as int] != c);
                }
            }
            return Some(i);
        }
        i = i + 1;
    }
    None
}

fn find_last(s: &[char], c: char) -> (r: Option<usize>)
    ensures
        match r {
            Some(i) => last_index(s@, c) == Some(i as int) && i < s@.len(),
            None => last_index(s@, c) is None,
        },
{
    let mut i: usize = s.len();
    while i > 0
        invariant
            i <= s@.len(),
            forall|j: int| i <= j < s@.len() ==> s@[j] != c,
        decreases i,
    {
        if s[i - 1] == c {
            proof {
                let k = i - 1;
                let w = choose|x: int| 0 <= x < s@.len() && s@[x] == c && forall|j: int| x < j < s@.len() ==> s@[j] != c;
                assert(0 <= k < s@.len() && s@[k as int] == c && forall|j: int| k < j < s@.len() ==> s@[j] != c);
                if w > k {
                } else if w < k {
                    assert(s@[k as int] != c);
                }
            }
            return Some(i - 1);
        }
        i = i - 1;
    }
    None
}

/// The text without every leading and trailing `"`.
pub open spec fn strip_quotes(s: Seq<char>) -> Seq<char>
    decreases s.len(),
{
    if s.len() > 0 && s[0] == '"' {
        strip_quotes(s.drop_first())
    } else if s.len() > 0 && s.last() == '"' {
        strip_quotes(s.drop_last())
    } else {
        s
    }
}

fn strip_quotes_chars(s: &[char]) -> (r: Vec<char>)
    ensures
        r@ == strip_quotes(s@),
{
    let mut lo: usize = 0;
    let mut hi: usize = s.len();
    proof {
        assert(s@.subrange(0, s@.len() as int) =~= s@);
    }
    while lo < hi && (s[lo] == '"' || s[hi - 1] == '"')
        invariant
            lo <= hi <= s@.len(),
            strip_quotes(s@) == strip_quotes(s@.subrange(lo as int, hi as int)),
        decreases hi - lo,
    {
        if s[lo] == '"' {
            assert(s@.subrange(lo as int, hi as int).drop_first() =~= s@.subrange(lo + 1, hi as int));
            lo = lo + 1;
        } else {
            assert(s@.subrange(lo as int, hi as int).drop_last() =~= s@.subrange(lo as int, hi - 1));
            hi = hi - 1;
        }
    }
    copy_range(s, lo, hi)
}

/// A `key=value` argument: the trimmed key and the trimmed value without
/// surrounding quotes; `None` without `=`.
pub open spec fn keyword_arg(part: Seq<char>) -> Option<(Seq<char>, Seq<char>)> {
    match first_index(part, '=') {
        Some(e) => Some((trim(part.take(e)), strip_quotes(trim(part.skip(e + 1))))),
        None => None,
    }
}

/// The keyword arguments of a decorator's text: what lies between its
/// first `(` and its last `)`, split into arguments, those with `=` kept,
/// in order (a later one for the same key wins).
pub open spec fn decorator_args_spec(text: Seq<char>) -> Seq<(Seq<char>, Seq<char>)> {
    match (first_index(text, '('), last_index(text, ')')) {
        (Some(start), Some(end)) => if start < end {
            keyword_args(split_args_spec(text.subrange(start + 1, end)))
        } else {
            Seq::empty()
        },
        _ => Seq::empty(),
    }
}

pub open spec fn keyword_args(parts: Seq<Seq<char>>) -> Seq<(Seq<char>, Seq<char>)>
    decreases parts.len(),
{
    if parts.len() == 0 {
        Seq::empty()
    } else {
        match keyword_arg(parts.last()) {
            Some(kv) => keyword_args(parts.drop_last()).push(kv),
            None => keyword_args(parts.drop_last()),
        }
    }
}

fn keyword_arg_of(part: &str) -> (r: Option<(String, String)>)
    ensures
        match keyword_arg(part@) {
            Some(kv) => r matches Some(p) && p.0@ == kv.0 && p.1@ == kv.1,
            None => r is None,
        },
{
    let c = chars_of(part);
    match find_first(c.as_slice(), '=') {
        Some(e) => {
            let n = c.len();
            assert(e < n);
            let key = trim_chars(copy_range(c.as_slice(), 0, e).as_slice());
            let val = trim_chars(copy_range(c.as_slice(), e + 1, c.len()).as_slice());
            let val = strip_quotes_chars(val.as_slice());
            proof {
                assert(c@.subrange(0, e as int) =~= c@.take(e as int));
                assert(c@.subrange(e + 1, c@.len() as int) =~= c@.skip(e + 1));
            }
            Some((string_of(key.as_slice()), string_of(val.as_slice())))
        },
        None => None,
    }
}

impl DagParser {
    /// The keyword arguments of a decorator (see `decorator_args_spec`).
    pub fn extract_decorator_args(text: &str) -> (r: Vec<(String, String)>)
        requires
            text@.len() <= i32::MAX,
        ensures
            r@.map_values(|p: (String, String)| (p.0@, p.1@)) == decorator_args_spec(text@),
    {
        let c = chars_of(text);
        let mut out: Vec<(String, String)> = Vec::new();
        let start = find_first(c.as_slice(), '(');
        let end = find_last(c.as_slice(), ')');
        match (start, end) {
            (Some(s), Some(e)) => {
                if s < e {
                    let inner = string_of(copy_range(c.as_slice(), s + 1, e).as_slice());
                    let parts = DagParser::split_args(inner.as_str());
                    let ghost ps = views(parts@);
                    let mut i: usize = 0;
                    proof {
                        assert(ps.take(0) =~= Seq::<Seq<char>>::empty());
                        assert(out@.map_values(|p: (String, String)| (p.0@, p.1@)) =~= Seq::<(Seq<char>, Seq<char>)>::empty());
                    }
                    while i < parts.len()
                        invariant
                            ps == views(parts@),
                            i <= ps.len(),
                            out@.map_values(|p: (String, String)| (p.0@, p.1@)) == keyword_args(ps.take(i as int)),
                        decreases parts.len() - i,
                    {
                        assert(ps.take(i + 1).drop_last() =~= ps.take(i as int));
                        assert(ps.take(i + 1).last() == parts@[i as int]@);
                        let ghost before = out@.map_values(|p: (String, String)| (p.0@, p.1@));
                        if let Some(kv) = keyword_arg_of(parts[i].as_str()) {
                            out.push(kv);
                            assert(out@.map_values(|p: (String, String)| (p.0@, p.1@)) =~= before.push(keyword_arg(ps[i as int]).unwrap()));
                        }
                        i = i + 1;
                    }
                    assert(ps.take(i as int) =~= ps);
                } else {
                    assert(out@.map_values(|p: (String, String)| (p.0@, p.1@)) =~= Seq::<(Seq<char>, Seq<char>)>::empty());
                }
            },
            _ => {
                assert(out@.map_values(|p: (String, String)| (p.0@, p.1@)) =~= Seq::<(Seq<char>, Seq<char>)>::empty());
            },
        }
        out
    }
}


/// The text `pat` occurs in `s`.
pub open spec fn contains_text(s: Seq<char>, pat: Seq<char>) -> bool {
    exists|i: int| 0 <= i && i + pat.len() <= s.len() && #[trigger] s.subrange(i, i + pat.len()) == pat
}

fn contains_str(s: &Vec<char>, pat: &str) -> (b: bool)
    ensures
        b == contains_text(s@, pat@),
{
    let p = chars_of(pat);
    contains_chars(s, &p)
}

/// Whether `p` occurs in `s`.
pub(crate) fn contains_chars(s: &Vec<char>, p: &Vec<char>) -> (b: bool)
    ensures
        b == contains_text(s@, p@),
{
    if p.len() > s.len() {
        return false;
    }
    let n = s.len();
    let m = p.len();
    let mut i: usize = 0;
    while i <= n - m
        invariant
            m == p@.len(),
            n == s@.len(),
            m <= n,
            i <= n - m + 1,
            forall|k: int| 0 <= k < i ==> #[trigger] s@.subrange(k, k + m) != p@,
        decreases n - m + 1 - i,
    {
        let mut j: usize = 0;
        let mut same = true;
        while j < m
            invariant
                m == p@.len(),
                n == s@.len(),
                i + m <= n,
                j <= m,
                same <==> forall|x: int| 0 <= x < j ==> s@[i + x] == p@[x],
            decreases m - j,
        {
            if s[i + j] != p[j] {
                same = false;
            }
            j = j + 1;
        }
        if same {
            assert(s@.subrange(i as int, i + m) =~= p@);
            return true;
        }
        assert(s@.subrange(i as int, i + m) != p@) by {
            let x = choose|x: int| 0 <= x < m && s@[i + x] != p@[x];
            assert(s@.subrange(i as int, i + m)[x] == s@[i + x]);
        }
        i = i + 1;
    }
    false
}

/// The last value given for `key`.
pub open spec fn arg_value(args: Seq<(Seq<char>, Seq<char>)>, key: Seq<char>) -> Option<Seq<char>>
    decreases args.len(),
{
    if args.len() == 0 {
        None
    } else if args.last().0 == key {
        Some(args.last().1)
    } else {
        arg_value(args.drop_last(), key)
    }
}

pub(crate) fn arg_lookup(args: &Vec<(String, String)>, key: &str) -> (r: Option<String>)
    ensures
        match arg_value(args@.map_values(|p: (String, String)| (p.0@, p.1@)), key@) {
            Some(v) => r matches Some(s) && s@ == v,
            None => r is None,
        },
{
    let ghost a = args@.map_values(|p: (String, String)| (p.0@, p.1@));
    let mut i: usize = args.len();
    proof {
        assert(a.take(a.len() as int) =~= a);
    }
    while i > 0
        invariant
            a == args@.map_values(|p: (String, String)| (p.0@, p.1@)),
            i <= a.len(),
            arg_value(a, key@) == arg_value(a.take(i as int), key@),
        decreases i,
    {
        assert(a.take(i as int).last() == a[i - 1]);
        assert(a.take(i as int).drop_last() =~= a.take(i - 1));
        if str_eq(args[i - 1].0.as_str(), key) {
            return Some(args[i - 1].1.clone());
        }
        i = i - 1;
    }
    None
}

/// A function definition as the Python parser finds it: its decorators'
/// texts, in order; whether the definition has a function; its name and its
/// parameter list's text, when the syntax tree gives them.
#[derive(Debug, Clone)]
pub struct TaskDefinition {
    pub decorators: Vec<String>,
    pub has_function: bool,
    pub function_name: Option<String>,
    pub parameters_text: Option<String>,
}

/// Of the decorators, the last that marks a task (`@task` or `@sensor`):
/// its position and whether it is a sensor.
pub open spec fn last_task_decorator(ds: Seq<Seq<char>>) -> Option<(int, bool)>
    decreases ds.len(),
{
    if ds.len() == 0 {
        None
    } else if contains_text(ds.last(), "@task"@) {
        Some((ds.len() - 1, false))
    } else if contains_text(ds.last(), "@sensor"@) {
        Some((ds.len() - 1, true))
    } else {
        last_task_decorator(ds.drop_last())
    }
}

/// A task type over plain values.
pub enum TaskTypeView {
    Python { module: Seq<char>, function: Seq<char> },
    Bash { command: Seq<char> },
    Sql { connection: Seq<char>, query: Seq<char>, target: Option<Seq<char>> },
    Sensor { sensor_type: Seq<char>, poke_interval: Option<Seq<char>> },
    Executable { command: Seq<char>, args: Seq<Seq<char>> },
}

pub open spec fn type_view(t: TaskType) -> TaskTypeView {
    match t {
        TaskType::Python { module, function } => TaskTypeView::Python { module: module@, function: function@ },
        TaskType::Bash { command } => TaskTypeView::Bash { command: command@ },
        TaskType::Sql { connection, query, target } => TaskTypeView::Sql {
            connection: connection@,
            query: query@,
            target: opt_view(target),
        },
        TaskType::Sensor { sensor_type, poke_interval } => TaskTypeView::Sensor {
            sensor_type: sensor_type@,
            poke_interval: opt_view(poke_interval),
        },
        TaskType::Executable { command, args } => TaskTypeView::Executable { command: command@, args: views(args@) },
    }
}

/// A parsed task over plain values.
pub struct ParsedTaskView {
    pub id: Seq<char>,
    pub task_type: TaskTypeView,
    pub retries: u32,
    pub retry_delay: Option<Seq<char>>,
    pub pool: Option<Seq<char>>,
    pub timeout: Option<Seq<char>>,
    pub priority: i32,
    pub raw_dependencies: Seq<Seq<char>>,
    pub parameters_text: Seq<char>,
}

pub open spec fn task_view(t: ParsedTask) -> ParsedTaskView {
    ParsedTaskView {
        id: t.id@,
        task_type: type_view(t.task_type),
        retries: t.retries,
        retry_delay: opt_view(t.retry_delay),
        pool: opt_view(t.pool),
        timeout: opt_view(t.timeout),
        priority: t.priority,
        raw_dependencies: views(t.raw_dependencies@),
        parameters_text: t.parameters_text@,
    }
}

pub open spec fn task_views(ts: Seq<ParsedTask>) -> Seq<ParsedTaskView> {
    ts.map_values(|t: ParsedTask| task_view(t))
}

/// What a function definition yields, from its decorators' texts, whether
/// it has a function, and the function's name and parameter list: `None`
/// when no decorator marks a task; the message of a parse error when the
/// decorator stands over no function; else the task, its settings from the
/// arguments of the last task decorator.
pub open spec fn task_outcome(
    decos: Seq<Seq<char>>,
    has_function: bool,
    name: Option<Seq<char>>,
    params: Option<Seq<char>>,
) -> Option<Result<ParsedTaskView, Seq<char>>> {
    match last_task_decorator(decos) {
        None => None,
        Some((k, sensor_decorator)) => if !has_function {
            Some(Err("Task decorator has no function"@))
        } else {
            let args = decorator_args_spec(decos[k]);
            let sensor = sensor_decorator || arg_value(args, "_is_sensor"@) is Some;
            let id = match name {
                Some(n) => n,
                None => "unknown"@,
            };
            Some(
                Ok(
                    ParsedTaskView {
                        id: id,
                        task_type: if sensor {
                            TaskTypeView::Sensor {
                                sensor_type: "python"@,
                                poke_interval: arg_value(args, "poke_interval"@),
                            }
                        } else {
                            TaskTypeView::Python { module: Seq::empty(), function: id }
                        },
                        retries: match arg_value(args, "retries"@) {
                            Some(v) => match parse_unsigned(v, u32::MAX as nat) {
                                Some(n) => n as u32,
                                None => 0,
                            },
                            None => 0,
                        },
                        retry_delay: arg_value(args, "retry_delay"@),
                        pool: arg_value(args, "pool"@),
                        timeout: arg_value(args, "timeout"@),
                        priority: match arg_value(args, "priority"@) {
                            Some(v) => match parse_i32_spec(v) {
                                Some(n) => n as i32,
                                None => 0,
                            },
                            None => 0,
                        },
                        raw_dependencies: Seq::empty(),
                        parameters_text: match params {
                            Some(p) => p,
                            None => Seq::empty(),
                        },
                    },
                ),
            )
        },
    }
}

/// What a task definition yields (see `task_outcome`); `file` names the
/// file in errors.
pub open spec fn task_from_spec(d: TaskDefinition, file: Seq<char>, r: Result<Option<ParsedTask>, ConduitError>) -> bool {
    match task_outcome(views(d.decorators@), d.has_function, opt_view(d.function_name), opt_view(d.parameters_text)) {
        None => r == Ok::<Option<ParsedTask>, ConduitError>(None),
        Some(Err(m)) => r matches Err(ConduitError::ParseError { file: f, message: mm }) && f@ == file && mm@ == m,
        Some(Ok(v)) => r matches Ok(Some(t)) && task_view(t) == v,
    }
}

pub open spec fn opt_view(o: Option<String>) -> Option<Seq<char>> {
    match o {
        Some(s) => Some(s@),
        None => None,
    }
}

/// The task a function definition declares, if it declares one; `file`
/// names the file in errors.
pub fn task_from_definition(d: &TaskDefinition, file: &str) -> (r: Result<Option<ParsedTask>, ConduitError>)
    requires
        forall|i: int| 0 <= i < d.decorators@.len() ==> (#[trigger] d.decorators@[i])@.len() <= i32::MAX,
    ensures
        task_from_spec(*d, file@, r),
{
    let ghost ds = views(d.decorators@);
    let mut found: Option<(usize, bool)> = None;
    let mut i: usize = 0;
    proof {
        assert(ds.take(0) =~= Seq::<Seq<char>>::empty());
    }
    while i < d.decorators.len()
        invariant
            ds == views(d.decorators@),
            i <= ds.len(),
            match found {
                Some((k, s)) => last_task_decorator(ds.take(i as int)) == Some((k as int, s)) && k < i,
                None => last_task_decorator(ds.take(i as int)) is None,
            },
        decreases d.decorators.len() - i,
    {
        assert(ds.take(i + 1).drop_last() =~= ds.take(i as int));
        assert(ds.take(i + 1).last() == d.decorators@[i as int]@);
        let text = chars_of(d.decorators[i].as_str());
        if contains_str(&text, "@task") {
            found = Some((i, false));
        } else if contains_str(&text, "@sensor") {
            found = Some((i, true));
        }
        i = i + 1;
    }
    assert(ds.take(i as int) =~= ds);
    let (k, sensor_decorator) = match found {
        None => {
            return Ok(None);
        },
        Some(f) => f,
    };
    if !d.has_function {
        return Err(ConduitError::ParseError { file: owned(file), message: owned("Task decorator has no function") });
    }
    assert(ds[k as int] == d.decorators@[k as int]@);
    let args = DagParser::extract_decorator_args(d.decorators[k].as_str());
    let ghost av = decorator_args_spec(ds[k as int]);
    let is_sensor_arg = arg_lookup(&args, "_is_sensor");
    let sensor = sensor_decorator || is_sensor_arg.is_some();
    assert(sensor == (sensor_decorator || arg_value(av, "_is_sensor"@) is Some));
    let id = match &d.function_name {
        Some(n) => n.clone(),
        None => owned("unknown"),
    };
    let ghost idv = match opt_view(d.function_name) {
        Some(n) => n,
        None => "unknown"@,
    };
    assert(id@ == idv);
    let task_type = if sensor {
        let poke = arg_lookup(&args, "poke_interval");
        assert(opt_view(poke) == arg_value(av, "poke_interval"@));
        TaskType::Sensor { sensor_type: owned("python"), poke_interval: poke }
    } else {
        TaskType::Python { module: String::new(), function: id.clone() }
    };
    let retries_arg = arg_lookup(&args, "retries");
    let retries: u32 = match retries_arg {
        Some(v) => match parse_u32(v.as_str()) {
            Some(n) => n,
            None => 0,
        },
        None => 0,
    };
    assert(retries == match arg_value(av, "retries"@) {
        Some(v) => match parse_unsigned(v, u32::MAX as nat) {
            Some(n) => n as u32,
            None => 0u32,
        },
        None => 0u32,
    });
    let priority_arg = arg_lookup(&args, "priority");
    let priority: i32 = match priority_arg {
        Some(v) => match parse_i32(v.as_str()) {
            Some(n) => n,
            None => 0,
        },
        None => 0,
    };
    assert(priority == match arg_value(av, "priority"@) {
        Some(v) => match parse_i32_spec(v) {
            Some(n) => n as i32,
            None => 0i32,
        },
        None => 0i32,
    });
    let parameters_text = match &d.parameters_text {
        Some(p) => p.clone(),
        None => String::new(),
    };
    let retry_delay = arg_lookup(&args, "retry_delay");
    let pool = arg_lookup(&args, "pool");
    let timeout = arg_lookup(&args, "timeout");
    assert(opt_view(retry_delay) == arg_value(av, "retry_delay"@));
    assert(opt_view(pool) == arg_value(av, "pool"@));
    assert(opt_view(timeout) == arg_value(av, "timeout"@));
    let t = ParsedTask {
        id,
        task_type,
        retries,
        retry_delay,
        pool,
        timeout,
        priority,
        raw_dependencies: Vec::new(),
        parameters_text,
    };
    assert(views(t.raw_dependencies@) =~= Seq::<Seq<char>>::empty());
    Ok(Some(t))
}


/// The first task name `rhs` calls: it starts with `name(` (or ` name(`).
pub open spec fn first_called(rhs: Seq<char>, names: Seq<Seq<char>>) -> Option<Seq<char>>
    decreases names.len(),
{
    if names.len() == 0 {
        None
    } else if crate::text::has_prefix(rhs, names[0] + "("@) || crate::text::has_prefix(
        rhs,
        " "@ + names[0] + "("@,
    ) {
        Some(names[0])
    } else {
        first_called(rhs, names.drop_first())
    }
}

/// An assignment `var = task(...)`: the trimmed variable and the task it
/// calls; `None` without `=` or without a call of a task.
pub open spec fn assignment_spec(text: Seq<char>, names: Seq<Seq<char>>) -> Option<(Seq<char>, Seq<char>)> {
    match first_index(text, '=') {
        Some(e) => match first_called(trim(text.skip(e + 1)), names) {
            Some(n) => Some((trim(text.take(e)), n)),
            None => None,
        },
        None => None,
    }
}

fn starts_with_call(rhs: &Vec<char>, name: &str, space: bool) -> (b: bool)
    ensures
        b == crate::text::has_prefix(rhs@, (if space { " "@ } else { Seq::<char>::empty() }) + name@ + "("@),
{
    let mut pat: Vec<char> = Vec::new();
    if space {
        pat.push(' ');
    }
    crate::text::push_str(&mut pat, name);
    pat.push('(');
    assert(pat@ =~= (if space { " "@ } else { Seq::<char>::empty() }) + name@ + "("@) by {
        reveal_strlit(" ");
        reveal_strlit("(");
    }
    let p = string_of(pat.as_slice());
    crate::text::starts_with_chars(rhs.as_slice(), p.as_str())
}

impl DagParser {
    /// Reads an assignment such as `raw = extract_orders(date)` against the
    /// known task names (see `assignment_spec`).
    pub fn parse_assignment(text: &str, task_names: &Vec<String>) -> (r: Option<(String, String)>)
        ensures
            match assignment_spec(text@, views(task_names@)) {
                Some((v, n)) => r matches Some(p) && p.0@ == v && p.1@ == n,
                None => r is None,
            },
    {
        let c = chars_of(text);
        let e = match find_first(c.as_slice(), '=') {
            Some(e) => e,
            None => {
                return None;
            },
        };
        let n = c.len();
        assert(e < n);
        let var = trim_chars(copy_range(c.as_slice(), 0, e).as_slice());
        let rhs = trim_chars(copy_range(c.as_slice(), e + 1, n).as_slice());
        proof {
            assert(c@.subrange(0, e as int) =~= c@.take(e as int));
            assert(c@.subrange(e + 1, n as int) =~= c@.skip(e + 1));
        }
        let ghost names = views(task_names@);
        let mut i: usize = 0;
        proof {
            assert(names.skip(0) =~= names);
        }
        while i < task_names.len()
            invariant
                names == views(task_names@),
                i <= names.len(),
                first_called(rhs@, names) == first_called(rhs@, names.skip(i as int)),
                first_index(text@, '=') == Some(e as int),
                rhs@ == trim(text@.skip(e + 1)),
                var@ == trim(text@.take(e as int)),
            decreases task_names.len() - i,
        {
            assert(names.skip(i as int)[0] == task_names@[i as int]@);
            assert(names.skip(i as int).drop_first() =~= names.skip(i + 1));
            let name = task_names[i].as_str();
            let plain = starts_with_call(&rhs, name, false);
            let spaced = starts_with_call(&rhs, name, true);
            proof {
                assert(Seq::<char>::empty() + name@ + "("@ =~= name@ + "("@);
            }
            if plain || spaced {
                proof {
                    let sk = names.skip(i as int);
                    assert(sk[0] == name@);
                    assert(crate::text::has_prefix(rhs@, sk[0] + "("@) || crate::text::has_prefix(
                        rhs@,
                        " "@ + sk[0] + "("@,
                    ));
                    assert(first_called(rhs@, sk) == Some(sk[0]));
                    assert(first_index(text@, '=') == Some(e as int));
                    assert(rhs@ == trim(text@.skip(e + 1)));
                    assert(var@ == trim(text@.take(e as int)));
                    assert(assignment_spec(text@, names) == Some((var@, names[i as int])));
                }
                let r = Some((string_of(var.as_slice()), task_names[i].clone()));
                return r;
            }
            i = i + 1;
        }
        None
    }
}

/// The text split at every comma.
pub open spec fn comma_state(s: Seq<char>) -> (Seq<Seq<char>>, Seq<char>)
    decreases s.len(),
{
    if s.len() == 0 {
        (Seq::empty(), Seq::empty())
    } else {
        let st = comma_state(s.drop_last());
        if s.last() == ',' {
            (st.0.push(st.1), Seq::empty())
        } else {
            (st.0, st.1.push(s.last()))
        }
    }
}

/// What `str::split(',')` gives: every piece between commas, empty ones
/// included.
pub open spec fn split_commas(s: Seq<char>) -> Seq<Seq<char>> {
    comma_state(s).0.push(comma_state(s).1)
}

/// The text without every leading `(`.
pub open spec fn strip_open(s: Seq<char>) -> Seq<char>
    decreases s.len(),
{
    if s.len() > 0 && s[0] == '(' {
        strip_open(s.drop_first())
    } else {
        s
    }
}

/// The text without every trailing `)`.
pub open spec fn strip_close(s: Seq<char>) -> Seq<char>
    decreases s.len(),
{
    if s.len() > 0 && s.last() == ')' {
        strip_close(s.drop_last())
    } else {
        s
    }
}

/// The text without every trailing comma or whitespace.
pub open spec fn strip_comma_space(s: Seq<char>) -> Seq<char>
    decreases s.len(),
{
    if s.len() > 0 && (s.last() == ',' || is_space(s.last())) {
        strip_comma_space(s.drop_last())
    } else {
        s
    }
}

/// The default value a parameter clause gives, if it has one.
pub open spec fn clause_default(clause: Seq<char>) -> Option<Seq<char>> {
    match first_index(clause, '=') {
        Some(e) => Some(strip_comma_space(trim(clause.skip(e + 1)))),
        None => None,
    }
}

/// The dependencies after one default value: each task named by it (other
/// than the task itself) joins them, once.
pub open spec fn add_named(deps: Seq<Seq<char>>, dflt: Seq<char>, names: Seq<Seq<char>>, id: Seq<char>) -> Seq<Seq<char>>
    decreases names.len(),
{
    if names.len() == 0 {
        deps
    } else {
        let d = add_named(deps, dflt, names.drop_last(), id);
        let n = names.last();
        if dflt == n && n != id && !d.contains(n) {
            d.push(n)
        } else {
            d
        }
    }
}

/// The dependencies after all the parameter clauses.
pub open spec fn add_defaults(deps: Seq<Seq<char>>, clauses: Seq<Seq<char>>, names: Seq<Seq<char>>, id: Seq<char>) -> Seq<Seq<char>>
    decreases clauses.len(),
{
    if clauses.len() == 0 {
        deps
    } else {
        let d = add_defaults(deps, clauses.drop_last(), names, id);
        match clause_default(clauses.last()) {
            Some(v) => add_named(d, v, names, id),
            None => d,
        }
    }
}

/// The parameter clauses of a parameter list's text.
pub open spec fn param_clauses(params: Seq<char>) -> Seq<Seq<char>> {
    split_commas(strip_close(strip_open(trim(params))))
}

pub(crate) fn strip_params(s: &[char]) -> (r: Vec<char>)
    ensures
        r@ == strip_close(strip_open(trim(s@))),
{
    let t = trim_chars(s);
    let mut lo: usize = 0;
    let n = t.len();
    proof {
        assert(t@.subrange(0, n as int) =~= t@);
    }
    while lo < n && t[lo] == '('
        invariant
            lo <= n == t@.len(),
            strip_open(t@) == strip_open(t@.subrange(lo as int, n as int)),
        decreases n - lo,
    {
        assert(t@.subrange(lo as int, n as int).drop_first() =~= t@.subrange(lo + 1, n as int));
        lo = lo + 1;
    }
    let mut hi: usize = n;
    assert(strip_open(t@.subrange(lo as int, n as int)) == t@.subrange(lo as int, n as int));
    while hi > lo && t[hi - 1] == ')'
        invariant
            lo <= hi <= n == t@.len(),
            strip_close(strip_open(t@)) == strip_close(t@.subrange(lo as int, hi as int)),
        decreases hi,
    {
        assert(t@.subrange(lo as int, hi as int).drop_last() =~= t@.subrange(lo as int, hi - 1));
        hi = hi - 1;
    }
    copy_range(t.as_slice(), lo, hi)
}

pub(crate) fn split_commas_exec(s: &Vec<char>) -> (r: Vec<Vec<char>>)
    ensures
        r@.map_values(|v: Vec<char>| v@) == split_commas(s@),
{
    let mut done: Vec<Vec<char>> = Vec::new();
    let mut cur: Vec<char> = Vec::new();
    let mut i: usize = 0;
    proof {
        assert(s@.take(0) =~= Seq::<char>::empty());
        assert(done@.map_values(|v: Vec<char>| v@) =~= Seq::<Seq<char>>::empty());
    }
    while i < s.len()
        invariant
            i <= s@.len(),
            (done@.map_values(|v: Vec<char>| v@), cur@) == comma_state(s@.take(i as int)),
        decreases s.len() - i,
    {
        assert(s@.take(i + 1).drop_last() =~= s@.take(i as int));
        let ghost before = done@.map_values(|v: Vec<char>| v@);
        if s[i] == ',' {
            let mut piece: Vec<char> = Vec::new();
            std::mem::swap(&mut piece, &mut cur);
            done.push(piece);
            assert(done@.map_values(|v: Vec<char>| v@) =~= before.push(comma_state(s@.take(i as int)).1));
        } else {
            cur.push(s[i]);
            assert(done@.map_values(|v: Vec<char>| v@) =~= before);
        }
        i = i + 1;
    }
    assert(s@.take(i as int) =~= s@);
    let ghost before = done@.map_values(|v: Vec<char>| v@);
    done.push(cur);
    assert(done@.map_values(|v: Vec<char>| v@) =~= before.push(comma_state(s@).1));
    done
}

fn strip_comma_space_chars(s: &[char]) -> (r: Vec<char>)
    ensures
        r@ == strip_comma_space(s@),
{
    let mut hi: usize = s.len();
    proof {
        assert(s@.take(hi as int) =~= s@);
    }
    while hi > 0 && (s[hi - 1] == ',' || is_space_char(s[hi - 1]))
        invariant
            hi <= s@.len(),
            strip_comma_space(s@) == strip_comma_space(s@.take(hi as int)),
        decreases hi,
    {
        assert(s@.take(hi as int).drop_last() =~= s@.take(hi - 1));
        hi = hi - 1;
    }
    assert(s@.subrange(0, hi as int) =~= s@.take(hi as int));
    copy_range(s, 0, hi)
}

fn default_of(clause: &Vec<char>) -> (r: Option<Vec<char>>)
    ensures
        match clause_default(clause@) {
            Some(v) => r matches Some(x) && x@ == v,
            None => r is None,
        },
{
    match find_first(clause.as_slice(), '=') {
        Some(e) => {
            let n = clause.len();
            assert(e < n);
            let rest = trim_chars(copy_range(clause.as_slice(), e + 1, n).as_slice());
            assert(clause@.subrange(e + 1, n as int) =~= clause@.skip(e + 1));
            Some(strip_comma_space_chars(rest.as_slice()))
        },
        None => None,
    }
}

pub(crate) fn contains_string(v: &Vec<String>, x: &str) -> (b: bool)
    ensures
        b == views(v@).contains(x@),
{
    let mut i: usize = 0;
    while i < v.len()
        invariant
            i <= v@.len(),
            forall|j: int| 0 <= j < i ==> views(v@)[j] != x@,
        decreases v.len() - i,
    {
        if str_eq(v[i].as_str(), x) {
            assert(views(v@)[i as int] == x@);
            return true;
        }
        i = i + 1;
    }
    false
}

/// Adds the tasks a default value names to `deps` (see `add_named`).
fn add_named_exec(deps: &mut Vec<String>, dflt: &Vec<char>, names: &Vec<String>, id: &str)
    ensures
        views(final(deps)@) == add_named(views(old(deps)@), dflt@, views(names@), id@),
{
    let ghost ns = views(names@);
    let ghost start = views(deps@);
    let d = string_of(dflt.as_slice());
    let mut i: usize = 0;
    proof {
        assert(ns.take(0) =~= Seq::<Seq<char>>::empty());
    }
    while i < names.len()
        invariant
            ns == views(names@),
            d@ == dflt@,
            i <= ns.len(),
            views(deps@) == add_named(start, dflt@, ns.take(i as int), id@),
        decreases names.len() - i,
    {
        assert(ns.take(i + 1).drop_last() =~= ns.take(i as int));
        assert(ns.take(i + 1).last() == names@[i as int]@);
        let n = names[i].as_str();
        if str_eq(d.as_str(), n) && !str_eq(n, id) && !contains_string(deps, n) {
            let ghost before = views(deps@);
            deps.push(names[i].clone());
            assert(views(deps@) =~= before.push(names@[i as int]@));
        }
        i = i + 1;
    }
    assert(ns.take(i as int) =~= ns);
}

/// The dependencies of each task after reading its parameter defaults.
pub open spec fn deps_after_defaults(ts: Seq<ParsedTask>, i: int) -> Seq<Seq<char>> {
    add_defaults(
        views(ts[i].raw_dependencies@),
        param_clauses(ts[i].parameters_text@),
        ts.map_values(|t: ParsedTask| t.id@),
        ts[i].id@,
    )
}

impl DagParser {
    /// Finds the dependencies that parameter defaults express, as in
    /// `def farewell(data=greet)`: a default naming another task makes it a
    /// dependency. Each task's new dependencies follow its old ones.
    pub fn extract_default_arg_deps(tasks: &mut Vec<ParsedTask>)
        ensures
            final(tasks)@.len() == old(tasks)@.len(),
            forall|i: int|
                0 <= i < old(tasks)@.len() ==> {
                    &&& views((#[trigger] final(tasks)@[i]).raw_dependencies@) == deps_after_defaults(old(tasks)@, i)
                    &&& final(tasks)@[i].id == old(tasks)@[i].id
                    &&& final(tasks)@[i].task_type == old(tasks)@[i].task_type
                    &&& final(tasks)@[i].parameters_text == old(tasks)@[i].parameters_text
                    &&& final(tasks)@[i].retries == old(tasks)@[i].retries
                    &&& final(tasks)@[i].priority == old(tasks)@[i].priority
                    &&& final(tasks)@[i].pool == old(tasks)@[i].pool
                    &&& final(tasks)@[i].timeout == old(tasks)@[i].timeout
                    &&& final(tasks)@[i].retry_delay == old(tasks)@[i].retry_delay
                },
    {
        let ghost orig = tasks@;
        let mut names: Vec<String> = Vec::new();
        let mut k: usize = 0;
        while k < tasks.len()
            invariant
                tasks@ == orig,
                k <= orig.len(),
                views(names@) == orig.map_values(|t: ParsedTask| t.id@).take(k as int),
            decreases tasks.len() - k,
        {
            let ghost before = views(names@);
            names.push(tasks[k].id.clone());
            assert(views(names@) =~= before.push(orig[k as int].id@));
            assert(orig.map_values(|t: ParsedTask| t.id@).take(k + 1) =~= orig.map_values(|t: ParsedTask| t.id@).take(k as int).push(orig[k as int].id@));
            k = k + 1;
        }
        assert(orig.map_values(|t: ParsedTask| t.id@).take(k as int) =~= orig.map_values(|t: ParsedTask| t.id@));
        let mut i: usize = 0;
        while i < tasks.len()
            invariant
                tasks@.len() == orig.len(),
                i <= orig.len(),
                views(names@) == orig.map_values(|t: ParsedTask| t.id@),
                forall|j: int|
                    0 <= j < orig.len() ==> {
                        &&& (#[trigger] tasks@[j]).id == orig[j].id
                        &&& tasks@[j].task_type == orig[j].task_type
                        &&& tasks@[j].parameters_text == orig[j].parameters_text
                        &&& tasks@[j].retries == orig[j].retries
                        &&& tasks@[j].priority == orig[j].priority
                        &&& tasks@[j].pool == orig[j].pool
                        &&& tasks@[j].timeout == orig[j].timeout
                        &&& tasks@[j].retry_delay == orig[j].retry_delay
                    },
                forall|j: int| 0 <= j < i ==> views((#[trigger] tasks@[j]).raw_dependencies@) == deps_after_defaults(orig, j),
                forall|j: int| i <= j < orig.len() ==> (#[trigger] tasks@[j]).raw_dependencies == orig[j].raw_dependencies,
            decreases tasks.len() - i,
        {
            let params = strip_params(chars_of(tasks[i].parameters_text.as_str()).as_slice());
            let clauses = split_commas_exec(&params);
            let ghost cs = clauses@.map_values(|v: Vec<char>| v@);
            let mut deps = clone_strings(&tasks[i].raw_dependencies);
            let id = tasks[i].id.clone();
            let ghost start = views(deps@);
            let mut c: usize = 0;
            proof {
                assert(cs.take(0) =~= Seq::<Seq<char>>::empty());
            }
            while c < clauses.len()
                invariant
                    cs == clauses@.map_values(|v: Vec<char>| v@),
                    c <= cs.len(),
                    views(names@) == orig.map_values(|t: ParsedTask| t.id@),
                    views(deps@) == add_defaults(start, cs.take(c as int), views(names@), id@),
                decreases clauses.len() - c,
            {
                assert(cs.take(c + 1).drop_last() =~= cs.take(c as int));
                assert(cs.take(c + 1).last() == clauses@[c as int]@);
                if let Some(v) = default_of(&clauses[c]) {
                    add_named_exec(&mut deps, &v, &names, id.as_str());
                }
                c = c + 1;
            }
            assert(cs.take(c as int) =~= cs);
            let ghost prev = tasks@;
            tasks[i].raw_dependencies = deps;
            proof {
                assert forall|j: int| 0 <= j < orig.len() && j != i implies tasks@[j] == prev[j] by {}
            }
            i = i + 1;
        }
    }
}

} // verus!
