//! The alert record produced for one notified container restart, and the
//! textual parts of the message rendered from it.

use vstd::prelude::*;
use crate::glob::find_from;
use crate::rules::lemma_find_char_absent;
use crate::rules::lemma_find_char_present;
use crate::rules::find_char;

verus! {

/// Number of log lines to include in the main message.
pub const LOG_SUMMARY_LINES: usize = 20;

/// Maximum length of a text section accepted by the messaging platform.
pub const SECTION_TEXT_LIMIT: usize = 3000;

/// Number of characters to include in the log summary; leaves a margin of
/// 200 characters for the header and footer around the quoted logs.
pub const LOG_SUMMARY_CHARS: usize = SECTION_TEXT_LIMIT - 200;

/// View of an optional string as an optional character sequence.
pub open spec fn opt_str_view(o: Option<String>) -> Option<Seq<char>> {
    match o {
        Some(s) => Some(s@),
        None => None,
    }
}

/// Last recorded termination of a container: exit status and timestamps,
/// every detail optional but the exit code.
pub struct ContainerState {
    pub exit_code: i32,
    pub signal: Option<i32>,
    pub reason: Option<String>,
    pub message: Option<String>,
    pub started_at: Option<String>,
    pub finished_at: Option<String>,
}

/// Mathematical form of `ContainerState`.
pub ghost struct ContainerStateView {
    pub exit_code: int,
    pub signal: Option<int>,
    pub reason: Option<Seq<char>>,
    pub message: Option<Seq<char>>,
    pub started_at: Option<Seq<char>>,
    pub finished_at: Option<Seq<char>>,
}

impl View for ContainerState {
    type V = ContainerStateView;

    open spec fn view(&self) -> ContainerStateView {
        ContainerStateView {
            exit_code: self.exit_code as int,
            signal: match self.signal {
                Some(s) => Some(s as int),
                None => None,
            },
            reason: opt_str_view(self.reason),
            message: opt_str_view(self.message),
            started_at: opt_str_view(self.started_at),
            finished_at: opt_str_view(self.finished_at),
        }
    }
}

/// Declared resource limits and requests of a container, in declaration
/// order, as (resource name, quantity) pairs.
pub struct ContainerResources {
    pub limits: Vec<(String, String)>,
    pub requests: Vec<(String, String)>,
}

/// Mathematical form of `ContainerResources`.
pub ghost struct ContainerResourcesView {
    pub limits: Seq<(Seq<char>, Seq<char>)>,
    pub requests: Seq<(Seq<char>, Seq<char>)>,
}

impl View for ContainerResources {
    type V = ContainerResourcesView;

    open spec fn view(&self) -> ContainerResourcesView {
        ContainerResourcesView {
            limits: self.limits@.map_values(|p: (String, String)| (p.0@, p.1@)),
            requests: self.requests@.map_values(|p: (String, String)| (p.0@, p.1@)),
        }
    }
}

impl ContainerResources {
    /// Resources with empty limits and requests.
    pub fn empty() -> (result: ContainerResources)
        ensures
            result@.limits.len() == 0,
            result@.requests.len() == 0,
    {
        ContainerResources { limits: Vec::new(), requests: Vec::new() }
    }
}

/// Outcome of the log fetch for the restarted container: the log text, or a
/// description of why it could not be fetched.
pub struct ContainerLog(pub Result<String, String>);

impl View for ContainerLog {
    type V = Result<Seq<char>, Seq<char>>;

    open spec fn view(&self) -> Result<Seq<char>, Seq<char>> {
        match self.0 {
            Ok(ref l) => Ok(l@),
            Err(ref e) => Err(e@),
        }
    }
}

/// The immutable record of one notified container restart, ready for
/// rendering and delivery.
pub struct ContainerRestartInfo {
    pub namespace: Option<String>,
    pub pod_name: String,
    pub container_name: String,
    pub container_image: String,
    pub node_name: Option<String>,
    pub restart_count: i32,
    pub last_state: Option<ContainerState>,
    pub resources: ContainerResources,
    pub logs: ContainerLog,
    pub channel: String,
}

/// Mathematical form of `ContainerRestartInfo`.
pub ghost struct ContainerRestartInfoView {
    pub namespace: Option<Seq<char>>,
    pub pod_name: Seq<char>,
    pub container_name: Seq<char>,
    pub container_image: Seq<char>,
    pub node_name: Option<Seq<char>>,
    pub restart_count: int,
    pub last_state: Option<ContainerStateView>,
    pub resources: ContainerResourcesView,
    pub logs: Result<Seq<char>, Seq<char>>,
    pub channel: Seq<char>,
}

impl View for ContainerRestartInfo {
    type V = ContainerRestartInfoView;

    open spec fn view(&self) -> ContainerRestartInfoView {
        ContainerRestartInfoView {
            namespace: opt_str_view(self.namespace),
            pod_name: self.pod_name@,
            container_name: self.container_name@,
            container_image: self.container_image@,
            node_name: opt_str_view(self.node_name),
            restart_count: self.restart_count as int,
            last_state: match self.last_state {
                Some(ref s) => Some(s@),
                None => None,
            },
            resources: self.resources@,
            logs: self.logs@,
            channel: self.channel@,
        }
    }
}

/// The decimal digit character for `d`.
pub open spec fn dec_digit(d: int) -> char
    recommends
        0 <= d < 10,
{
    if d == 0 {
        '0'
    } else if d == 1 {
        '1'
    } else if d == 2 {
        '2'
    } else if d == 3 {
        '3'
    } else if d == 4 {
        '4'
    } else if d == 5 {
        '5'
    } else if d == 6 {
        '6'
    } else if d == 7 {
        '7'
    } else if d == 8 {
        '8'
    } else {
        '9'
    }
}

/// Decimal rendering of a non-negative integer, most significant digit
/// first, without leading zeroes (a single `0` for zero).
pub open spec fn spec_nat_dec(n: int) -> Seq<char>
    recommends
        n >= 0,
    decreases n,
{
    if n < 10 {
        seq![dec_digit(n)]
    } else {
        spec_nat_dec(n / 10).push(dec_digit(n % 10))
    }
}

/// Decimal rendering of a signed integer: a leading `-` for negatives.
pub open spec fn spec_i32_dec(n: int) -> Seq<char> {
    if n < 0 {
        seq!['-'] + spec_nat_dec(-n)
    } else {
        spec_nat_dec(n)
    }
}

/// The one-character string for decimal digit `d`.
fn digit_str(d: u32) -> (result: &'static str)
    requires
        d < 10,
    ensures
        result@ =~= seq![dec_digit(d as int)],
{
    if d == 0 {
        proof {
            reveal_strlit("0");
        }
        "0"
    } else if d == 1 {
        proof {
            reveal_strlit("1");
        }
        "1"
    } else if d == 2 {
        proof {
            reveal_strlit("2");
        }
        "2"
    } else if d == 3 {
        proof {
            reveal_strlit("3");
        }
        "3"
    } else if d == 4 {
        proof {
            reveal_strlit("4");
        }
        "4"
    } else if d == 5 {
        proof {
            reveal_strlit("5");
        }
        "5"
    } else if d == 6 {
        proof {
            reveal_strlit("6");
        }
        "6"
    } else if d == 7 {
        proof {
            reveal_strlit("7");
        }
        "7"
    } else if d == 8 {
        proof {
            reveal_strlit("8");
        }
        "8"
    } else {
        proof {
            reveal_strlit("9");
        }
        "9"
    }
}

/// Appends the decimal rendering of `n` to `out`.
fn push_nat_dec(out: &mut String, n: u32)
    ensures
        final(out)@ == old(out)@ + spec_nat_dec(n as int),
    decreases n,
{
    if n >= 10 {
        push_nat_dec(out, n / 10);
    }
    out.append(digit_str(n % 10));
    proof {
        assert(final(out)@ =~= old(out)@ + spec_nat_dec(n as int));
    }
}

/// The decimal rendering of `n` as a string.
pub fn i32_string(n: i32) -> (result: String)
    ensures
        result@ == spec_i32_dec(n as int),
{
    let mut out = String::new();
    if n < 0 {
        out.append("-");
        let magnitude: u32 = ((-(n as i64)) as u32);
        push_nat_dec(&mut out, magnitude);
        proof {
            reveal_strlit("-");
            assert(magnitude as int == -(n as int));
            assert("-"@ =~= seq!['-']);
            assert(out@ =~= spec_i32_dec(n as int));
        }
    } else {
        push_nat_dec(&mut out, n as u32);
    }
    out
}

/// Rendering of an optional name: the name between backticks, or `unknown`.
pub open spec fn spec_format_name(o: Option<Seq<char>>) -> Seq<char> {
    match o {
        Some(s) => "`"@ + s + "`"@,
        None => "unknown"@,
    }
}

/// Renders an optional name for the message: backtick-quoted, or `unknown`.
pub fn format_name(name: &Option<String>) -> (result: String)
    ensures
        result@ == spec_format_name(opt_str_view(*name)),
{
    match name {
        Some(n) => {
            let mut out = String::new();
            out.append("`");
            out.append(n.as_str());
            out.append("`");
            out
        },
        None => {
            let out = String::new();
            let out = out.concat("unknown");
            proof {
                assert(out@ =~= "unknown"@);
            }
            out
        },
    }
}

/// The last `limit` characters of `s` (all of it when `limit` covers it).
pub open spec fn spec_suffix(s: Seq<char>, limit: int) -> Seq<char> {
    if limit >= s.len() {
        s
    } else {
        s.skip(s.len() - limit)
    }
}

/// Returns the last `limit` characters of `text`; never splits a character,
/// since it works on character counts, not bytes.
pub fn suffix<'a>(text: &'a str, limit: usize) -> (result: &'a str)
    ensures
        result@ == spec_suffix(text@, limit as int),
{
    let n = text.unicode_len();
    if limit >= n {
        text
    } else {
        let result = text.substring_char(n - limit, n);
        proof {
            assert(text@.subrange(n - limit, n as int) =~= text@.skip(n - limit));
        }
        result
    }
}

/// A line with one trailing carriage return removed.
pub open spec fn strip_cr(s: Seq<char>) -> Seq<char> {
    if s.len() > 0 && s.last() == '\r' {
        s.drop_last()
    } else {
        s
    }
}

/// The lines of `s`: segments between newlines, each with one trailing
/// carriage return removed, with no final empty segment.
pub open spec fn spec_lines(s: Seq<char>) -> Seq<Seq<char>>
    decreases s.len(),
{
    if s.len() == 0 {
        Seq::empty()
    } else {
        match find_char(s, '\n') {
            None => seq![strip_cr(s)],
            Some(i) => if 0 <= i < s.len() {
                seq![strip_cr(s.take(i))] + spec_lines(s.skip(i + 1))
            } else {
                // `find_char` never yields an out-of-range position; this
                // branch only discharges the termination check.
                Seq::empty()
            },
        }
    }
}

/// Lines joined by newlines.
pub open spec fn spec_join_lines(lines: Seq<Seq<char>>) -> Seq<char>
    decreases lines.len(),
{
    if lines.len() == 0 {
        Seq::empty()
    } else if lines.len() == 1 {
        lines[0]
    } else {
        spec_join_lines(lines.drop_last()) + "\n"@ + lines.last()
    }
}

/// The lines kept for the summary: the last `LOG_SUMMARY_LINES` of them.
pub open spec fn summary_tail(lines: Seq<Seq<char>>) -> Seq<Seq<char>> {
    if lines.len() > LOG_SUMMARY_LINES as int {
        lines.skip(lines.len() - LOG_SUMMARY_LINES as int)
    } else {
        lines
    }
}

/// The log summary: the last `LOG_SUMMARY_LINES` lines, joined by newlines,
/// truncated to the last `LOG_SUMMARY_CHARS` characters.
pub open spec fn spec_tail_lines(log: Seq<char>) -> Seq<char> {
    spec_suffix(spec_join_lines(summary_tail(spec_lines(log))), LOG_SUMMARY_CHARS as int)
}

/// One line of `s` as an owned string, with a trailing carriage return
/// removed.
fn line_of(s: &str, from: usize, to: usize) -> (result: String)
    requires
        from <= to <= s@.len(),
    ensures
        result@ == strip_cr(s@.subrange(from as int, to as int)),
{
    if to > from && s.get_char(to - 1) == '\r' {
        let piece = s.substring_char(from, to - 1);
        proof {
            let sub = s@.subrange(from as int, to as int);
            assert(sub.last() == s@[to as int - 1]);
            assert(s@.subrange(from as int, to as int - 1) =~= sub.drop_last());
        }
        piece.to_owned()
    } else {
        let piece = s.substring_char(from, to);
        proof {
            let sub = s@.subrange(from as int, to as int);
            if sub.len() > 0 {
                assert(sub.last() == s@[to as int - 1]);
            }
        }
        piece.to_owned()
    }
}

/// Splits `s` into its lines, as `spec_lines` describes.
fn split_lines(s: &str) -> (result: Vec<String>)
    ensures
        result.deep_view() =~= spec_lines(s@),
{
    let n = s.unicode_len();
    let mut result: Vec<String> = Vec::new();
    let mut pos: usize = 0;
    proof {
        assert(s@.skip(0) =~= s@);
        assert(result.deep_view() + spec_lines(s@) =~= spec_lines(s@));
    }
    while pos < n
        invariant
            pos <= n,
            n == s@.len(),
            spec_lines(s@) =~= result.deep_view() + spec_lines(s@.skip(pos as int)),
        decreases n - pos,
    {
        let ghost rest = s@.skip(pos as int);
        let ghost before = result.deep_view();
        match find_from(s, pos, '\n') {
            Some(i) => {
                proof {
                    lemma_find_char_present(rest, '\n', i - pos);
                }
                let line = line_of(s, pos, i);
                result.push(line);
                proof {
                    assert(rest.take(i - pos) =~= s@.subrange(pos as int, i as int));
                    assert(rest.skip(i - pos + 1) =~= s@.skip(i + 1));
                    assert(result.deep_view() =~= before.push(line@));
                    assert(spec_lines(rest) =~= seq![strip_cr(rest.take(i - pos))] + spec_lines(
                        rest.skip(i - pos + 1),
                    ));
                    assert(before + spec_lines(rest) =~= result.deep_view() + spec_lines(
                        s@.skip(i + 1),
                    ));
                }
                pos = i + 1;
            },
            None => {
                proof {
                    lemma_find_char_absent(rest, '\n');
                }
                let line = line_of(s, pos, n);
                result.push(line);
                proof {
                    assert(s@.subrange(pos as int, n as int) =~= rest);
                    assert(result.deep_view() =~= before.push(line@));
                    assert(spec_lines(rest) =~= seq![strip_cr(rest)]);
                    assert(before + spec_lines(rest) =~= result.deep_view());
                    assert(s@.skip(n as int) =~= Seq::<char>::empty());
                    assert(result.deep_view() + spec_lines(s@.skip(n as int))
                        =~= result.deep_view());
                }
                pos = n;
            },
        }
    }
    proof {
        assert(s@.skip(pos as int) =~= Seq::<char>::empty());
        assert(result.deep_view() + spec_lines(s@.skip(pos as int)) =~= result.deep_view());
    }
    result
}

impl ContainerLog {
    /// The log summary quoted in the message: the last `LOG_SUMMARY_LINES`
    /// lines of `log`, truncated to the last `LOG_SUMMARY_CHARS` characters.
    pub fn tail_lines(log: &str) -> (result: String)
        ensures
            result@ == spec_tail_lines(log@),
    {
        let lines = split_lines(log);
        let start = if lines.len() > LOG_SUMMARY_LINES {
            lines.len() - LOG_SUMMARY_LINES
        } else {
            0
        };
        let ghost tail = summary_tail(lines.deep_view());
        proof {
            assert(tail =~= lines.deep_view().skip(start as int));
        }
        let mut joined = String::new();
        let mut i: usize = start;
        while i < lines.len()
            invariant
                start <= i <= lines.len(),
                start == if lines.deep_view().len() > LOG_SUMMARY_LINES as int {
                    lines.deep_view().len() - LOG_SUMMARY_LINES as int
                } else {
                    0
                },
                joined@ =~= spec_join_lines(lines.deep_view().subrange(start as int, i as int)),
            decreases lines.len() - i,
        {
            let ghost sofar = lines.deep_view().subrange(start as int, i as int);
            if i > start {
                joined.append("\n");
            }
            joined.append(lines[i].as_str());
            proof {
                let next = lines.deep_view().subrange(start as int, i as int + 1);
                assert(next.drop_last() =~= sofar);
                assert(next.last() == lines.deep_view()[i as int]);
                assert(joined@ =~= spec_join_lines(next));
            }
            i = i + 1;
        }
        proof {
            assert(lines.deep_view().subrange(start as int, lines.deep_view().len() as int)
                =~= tail);
        }
        let result = suffix(joined.as_str(), LOG_SUMMARY_CHARS).to_owned();
        result
    }
}


/// The decimal rendering of an integer between backticks.
pub open spec fn spec_quoted_i32(n: int) -> Seq<char> {
    "`"@ + spec_i32_dec(n) + "`"@
}

/// The signal part of the stats block: the number quoted, or `none`.
pub open spec fn spec_signal_text(signal: Option<int>) -> Seq<char> {
    match signal {
        Some(sg) => spec_quoted_i32(sg),
        None => "none"@,
    }
}

/// The stats block: the restart count, and when a termination was recorded,
/// its exit code, signal, reason, message and timestamps.
pub open spec fn spec_stats_lines(count: int, state: Option<ContainerStateView>) -> Seq<
    Seq<char>,
> {
    let first = "Restart Count: "@ + spec_quoted_i32(count);
    match state {
        None => seq![first],
        Some(v) => seq![
            first,
            " "@,
            "Exit Code: "@ + spec_quoted_i32(v.exit_code),
            "Signal: "@ + spec_signal_text(v.signal),
            "Reason: "@ + spec_format_name(v.reason),
            "Message: "@ + spec_format_name(v.message),
            "Started at: "@ + spec_format_name(v.started_at),
            "Finished at: "@ + spec_format_name(v.finished_at),
        ],
    }
}

/// Concatenation of a label and a value into one line.
fn labeled(label: &str, value: &str) -> (result: String)
    ensures
        result@ == label@ + value@,
{
    let mut out = String::new();
    out.append(label);
    out.append(value);
    out
}

/// The decimal rendering of `n` between backticks.
fn quoted_i32(n: i32) -> (result: String)
    ensures
        result@ == spec_quoted_i32(n as int),
{
    let mut out = String::new();
    out.append("`");
    let dec = i32_string(n);
    out.append(dec.as_str());
    out.append("`");
    proof {
        assert(out@ =~= "`"@ + spec_i32_dec(n as int) + "`"@);
    }
    out
}

/// Renders the stats block of the message.
pub fn build_container_stats(restart_count: i32, state: &Option<ContainerState>) -> (result: Vec<
    String,
>)
    ensures
        result.deep_view() =~= spec_stats_lines(
            restart_count as int,
            match state {
                Some(s) => Some(s@),
                None => None,
            },
        ),
{
    let mut result: Vec<String> = Vec::new();
    let first = labeled("Restart Count: ", quoted_i32(restart_count).as_str());
    result.push(first);
    match state {
        None => {},
        Some(st) => {
            result.push(" ".to_owned());
            result.push(labeled("Exit Code: ", quoted_i32(st.exit_code).as_str()));
            let signal_text = match st.signal {
                Some(sg) => quoted_i32(sg),
                None => "none".to_owned(),
            };
            result.push(labeled("Signal: ", signal_text.as_str()));
            result.push(labeled("Reason: ", format_name(&st.reason).as_str()));
            result.push(labeled("Message: ", format_name(&st.message).as_str()));
            result.push(labeled("Started at: ", format_name(&st.started_at).as_str()));
            result.push(labeled("Finished at: ", format_name(&st.finished_at).as_str()));
        },
    }
    result
}

/// One line of the resources block for a limit.
pub open spec fn spec_limit_line(p: (Seq<char>, Seq<char>)) -> Seq<char> {
    p.0 + " limit: `"@ + p.1 + "`"@
}

/// One line of the resources block for a request.
pub open spec fn spec_request_line(p: (Seq<char>, Seq<char>)) -> Seq<char> {
    p.0 + " request: `"@ + p.1 + "`"@
}

/// The resources block: one line per limit and per request in declaration
/// order, or a single explicit line when there are none.
pub open spec fn spec_resources_lines(r: ContainerResourcesView) -> Seq<Seq<char>> {
    if r.limits.len() == 0 && r.requests.len() == 0 {
        seq!["No resource limits or requests"@]
    } else {
        r.limits.map_values(|p: (Seq<char>, Seq<char>)| spec_limit_line(p))
            + r.requests.map_values(|p: (Seq<char>, Seq<char>)| spec_request_line(p))
    }
}

impl ContainerResources {
    /// Renders the resources block of the message.
    pub fn to_message(&self) -> (result: Vec<String>)
        ensures
            result.deep_view() =~= spec_resources_lines(self@),
    {
        if self.limits.is_empty() && self.requests.is_empty() {
            let mut result: Vec<String> = Vec::new();
            result.push("No resource limits or requests".to_owned());
            proof {
                assert(result.deep_view() =~= spec_resources_lines(self@));
            }
            return result;
        }
        let ghost limit_lines = self@.limits.map_values(
            |p: (Seq<char>, Seq<char>)| spec_limit_line(p),
        );
        let ghost request_lines = self@.requests.map_values(
            |p: (Seq<char>, Seq<char>)| spec_request_line(p),
        );
        let mut result: Vec<String> = Vec::new();
        let mut i: usize = 0;
        while i < self.limits.len()
            invariant
                i <= self.limits.len(),
                limit_lines == self@.limits.map_values(
                    |p: (Seq<char>, Seq<char>)| spec_limit_line(p),
                ),
                result.deep_view() =~= limit_lines.take(i as int),
            decreases self.limits.len() - i,
        {
            let ghost before = result.deep_view();
            let mut line = String::new();
            line.append(self.limits[i].0.as_str());
            line.append(" limit: `");
            line.append(self.limits[i].1.as_str());
            line.append("`");
            proof {
                assert(line@ =~= spec_limit_line((self.limits@[i as int].0@, self.limits@[
                i as int].1@)));
            }
            result.push(line);
            proof {
                assert(result.deep_view() =~= before.push(line@));
                assert(result.deep_view() =~= limit_lines.take(i as int + 1));
            }
            i = i + 1;
        }
        proof {
            assert(limit_lines.take(self.limits@.len() as int) =~= limit_lines);
        }
        let mut j: usize = 0;
        while j < self.requests.len()
            invariant
                j <= self.requests.len(),
                limit_lines == self@.limits.map_values(
                    |p: (Seq<char>, Seq<char>)| spec_limit_line(p),
                ),
                request_lines == self@.requests.map_values(
                    |p: (Seq<char>, Seq<char>)| spec_request_line(p),
                ),
                result.deep_view() =~= limit_lines + request_lines.take(j as int),
            decreases self.requests.len() - j,
        {
            let ghost before = result.deep_view();
            let mut line = String::new();
            line.append(self.requests[j].0.as_str());
            line.append(" request: `");
            line.append(self.requests[j].1.as_str());
            line.append("`");
            proof {
                assert(line@ =~= spec_request_line((self.requests@[j as int].0@, self.requests@[
                j as int].1@)));
            }
            result.push(line);
            proof {
                assert(result.deep_view() =~= before.push(line@));
                assert(result.deep_view() =~= limit_lines + request_lines.take(j as int + 1));
            }
            j = j + 1;
        }
        proof {
            assert(request_lines.take(self.requests@.len() as int) =~= request_lines);
        }
        result
    }
}

/// The logs block: the quoted summary with a reference to the uploaded file,
/// an explicit empty marker, or the fetch-failure description.
pub open spec fn spec_log_message(log: Result<Seq<char>, Seq<char>>, url: Option<Seq<char>>) -> Seq<
    char,
> {
    match log {
        Ok(l) => if l.len() == 0 {
            "*Container logs before restart*\n(empty)"@
        } else {
            let u = match url {
                Some(u) => u,
                None => Seq::empty(),
            };
            "<"@ + u + "|*Container logs before restart*>\n```\n"@ + spec_tail_lines(l)
                + "\n```"@
        },
        Err(e) => "Failed to get container logs: "@ + e,
    }
}

impl ContainerLog {
    /// Renders the logs block of the message; `file_url` is the reference to
    /// the uploaded full log, if one was uploaded.
    pub fn to_message(&self, file_url: &Option<String>) -> (result: String)
        ensures
            result@ == spec_log_message(self@, opt_str_view(*file_url)),
    {
        match &self.0 {
            Ok(log) => {
                if log.as_str().is_empty() {
                    "*Container logs before restart*\n(empty)".to_owned()
                } else {
                    let mut out = String::new();
                    out.append("<");
                    match file_url {
                        Some(u) => out.append(u.as_str()),
                        None => (),
                    }
                    out.append("|*Container logs before restart*>\n```\n");
                    let tail = ContainerLog::tail_lines(log.as_str());
                    out.append(tail.as_str());
                    out.append("\n```");
                    proof {
                        assert(out@ =~= spec_log_message(self@, opt_str_view(*file_url)));
                    }
                    out
                }
            },
            Err(err) => {
                let mut out = String::new();
                out.append("Failed to get container logs: ");
                out.append(err.as_str());
                out
            },
        }
    }
}

/// The identity block: namespace, pod, container name and image.
pub open spec fn spec_identity_text(v: ContainerRestartInfoView) -> Seq<char> {
    "Namespace: "@ + spec_format_name(v.namespace) + "\nPod: `"@ + v.pod_name
        + "`\nContainer Name: `"@ + v.container_name + "`\nContainer Image: `"@
        + v.container_image + "`"@
}

/// One short line naming the restarted container, used in operator logs.
pub open spec fn spec_display_line(v: ContainerRestartInfoView) -> Seq<char> {
    (match v.namespace {
        Some(ns) => ns,
        None => Seq::empty(),
    }) + "/"@ + v.pod_name + " - "@ + v.container_name
}

impl ContainerRestartInfo {
    /// Renders the identity block of the message.
    pub fn identity_text(&self) -> (result: String)
        ensures
            result@ == spec_identity_text(self@),
    {
        let mut out = String::new();
        out.append("Namespace: ");
        let ns = format_name(&self.namespace);
        out.append(ns.as_str());
        out.append("\nPod: `");
        out.append(self.pod_name.as_str());
        out.append("`\nContainer Name: `");
        out.append(self.container_name.as_str());
        out.append("`\nContainer Image: `");
        out.append(self.container_image.as_str());
        out.append("`");
        proof {
            assert(out@ =~= spec_identity_text(self@));
        }
        out
    }

    /// Renders the short identity line used in operator logs.
    pub fn display_line(&self) -> (result: String)
        ensures
            result@ == spec_display_line(self@),
    {
        let mut out = String::new();
        match &self.namespace {
            Some(ns) => out.append(ns.as_str()),
            None => (),
        }
        out.append("/");
        out.append(self.pod_name.as_str());
        out.append(" - ");
        out.append(self.container_name.as_str());
        proof {
            assert(out@ =~= spec_display_line(self@));
        }
        out
    }
}


/// Law: the character-count suffix is empty for a zero limit, is the whole
/// text when the limit covers it, and otherwise keeps exactly the last
/// `limit` characters; it never splits a character, since it is defined on
/// characters, not bytes.
pub proof fn lemma_suffix_bounds(s: Seq<char>, limit: int)
    requires
        limit >= 0,
    ensures
        spec_suffix(s, limit).len() == if limit < s.len() {
            limit
        } else {
            s.len() as int
        },
        limit == 0 ==> spec_suffix(s, limit) =~= Seq::<char>::empty(),
        limit >= s.len() ==> spec_suffix(s, limit) == s,
        limit < s.len() ==> spec_suffix(s, limit) =~= s.skip(s.len() - limit),
{
}

} // verus!
