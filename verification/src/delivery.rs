//! Decisions of the delivery adapter that touch no network: whether a log
//! attachment is uploaded for an alert, with which content and title.

use vstd::prelude::*;
use crate::message::ContainerRestartInfo;
use crate::message::ContainerRestartInfoView;

verus! {

/// The white-space characters trimmed from the end of the log before
/// upload (the Unicode white-space code points).
pub open spec fn is_space(c: char) -> bool {
    c == ' ' || c == '\t' || c == '\n' || c == '\r' || c == '\u{b}' || c == '\u{c}' || c
        == '\u{85}' || c == '\u{a0}' || c == '\u{1680}' || c == '\u{2000}' || c == '\u{2001}' || c
        == '\u{2002}' || c == '\u{2003}' || c == '\u{2004}' || c == '\u{2005}' || c == '\u{2006}'
        || c == '\u{2007}' || c == '\u{2008}' || c == '\u{2009}' || c == '\u{200a}' || c
        == '\u{2028}' || c == '\u{2029}' || c == '\u{202f}' || c == '\u{205f}' || c == '\u{3000}'
}

/// Whether `c` is trimmed from the end of the log.
pub fn is_space_char(c: char) -> (result: bool)
    ensures
        result == is_space(c),
{
    c == ' ' || c == '\t' || c == '\n' || c == '\r' || c == '\u{b}' || c == '\u{c}' || c
        == '\u{85}' || c == '\u{a0}' || c == '\u{1680}' || c == '\u{2000}' || c == '\u{2001}' || c
        == '\u{2002}' || c == '\u{2003}' || c == '\u{2004}' || c == '\u{2005}' || c == '\u{2006}'
        || c == '\u{2007}' || c == '\u{2008}' || c == '\u{2009}' || c == '\u{200a}' || c
        == '\u{2028}' || c == '\u{2029}' || c == '\u{202f}' || c == '\u{205f}' || c == '\u{3000}'
}

/// `s` with every trailing white-space character removed.
pub open spec fn spec_trim_end(s: Seq<char>) -> Seq<char>
    decreases s.len(),
{
    if s.len() > 0 && is_space(s.last()) {
        spec_trim_end(s.drop_last())
    } else {
        s
    }
}

/// Removes trailing white space from `s`.
pub fn trim_end(s: &str) -> (result: String)
    ensures
        result@ == spec_trim_end(s@),
{
    let n = s.unicode_len();
    let mut end = n;
    proof {
        assert(s@.take(n as int) =~= s@);
    }
    while end > 0 && is_space_char(s.get_char(end - 1))
        invariant
            end <= n,
            n == s@.len(),
            spec_trim_end(s@) == spec_trim_end(s@.take(end as int)),
        decreases end,
    {
        proof {
            assert(s@.take(end as int).drop_last() =~= s@.take(end as int - 1));
            assert(s@.take(end as int).last() == s@[end as int - 1]);
        }
        end = end - 1;
    }
    let result = s.substring_char(0, end).to_owned();
    proof {
        assert(s@.subrange(0, end as int) =~= s@.take(end as int));
        if end > 0 {
            assert(s@.take(end as int).last() == s@[end as int - 1]);
        }
    }
    result
}

/// The attachment title: namespace (empty when absent), pod name and
/// container name, joined by underscores.
pub open spec fn spec_upload_title(v: ContainerRestartInfoView) -> Seq<char> {
    (match v.namespace {
        Some(ns) => ns,
        None => Seq::empty(),
    }) + "_"@ + v.pod_name + "_"@ + v.container_name
}

/// Decides the upload step for one alert: the trimmed log text and the
/// attachment title when the fetch succeeded with non-blank text; nothing
/// when the log is blank or the fetch failed (then no attachment is
/// uploaded and the message carries no reference).
pub fn upload_plan(info: &ContainerRestartInfo) -> (result: Option<(String, String)>)
    ensures
        match result {
            Some(plan) => info@.logs is Ok && plan.0@ == spec_trim_end(info@.logs->Ok_0)
                && plan.0@.len() > 0 && plan.1@ == spec_upload_title(info@),
            None => match info@.logs {
                Ok(l) => spec_trim_end(l).len() == 0,
                Err(_) => true,
            },
        },
{
    match &info.logs.0 {
        Ok(log) => {
            let trimmed = trim_end(log.as_str());
            if trimmed.as_str().is_empty() {
                None
            } else {
                let mut title = String::new();
                match &info.namespace {
                    Some(ns) => title.append(ns.as_str()),
                    None => (),
                }
                title.append("_");
                title.append(info.pod_name.as_str());
                title.append("_");
                title.append(info.container_name.as_str());
                proof {
                    assert(title@ =~= spec_upload_title(info@));
                }
                Some((trimmed, title))
            }
        },
        Err(_) => None,
    }
}

/// Whether a delivery-protocol response body reports success: its boolean
/// success flag must be present and true; an absent or false flag is a
/// failure even when the transport succeeded.
pub fn response_ok(ok_flag: Option<bool>) -> (result: bool)
    ensures
        result == (ok_flag == Some(true)),
{
    matches!(ok_flag, Some(true))
}

} // verus!
