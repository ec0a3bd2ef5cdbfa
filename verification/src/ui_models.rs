use vstd::prelude::*;
use vstd::string::StringExecFns;

use crate::chars::{chars_start_with, chars_vec, string_from_chars};
use crate::manager::{EventModel, RunReport};

verus! {

/// One release channel as the front-end lists it.
pub struct AppRelease {
    pub name: String,
    pub versions: Vec<AppVersionInfo>,
}

/// One installable build as the front-end lists it.
pub struct AppVersionInfo {
    pub version: String,
    pub download: String,
}

/// One line of a finished run's transcript.
pub struct InstallExecutionLog {
    pub message: String,
    pub is_substep: bool,
}

/// The transcript and verdict a front-end shows when a run ends.
pub struct InstallExecutionResult {
    pub logs: Vec<InstallExecutionLog>,
    pub success: bool,
}

/// The severity a front-end renders a log line with.
#[derive(Clone, Copy, PartialEq, Eq, Structural)]
pub enum LogLevel {
    Info,
    Success,
    Error,
    Step,
    SubStep,
}

/// One timestamped line of the front-end's log pane.
pub struct LogEntry {
    pub timestamp: u64,
    pub message: String,
    pub level: LogLevel,
}

/// The transcript line one pipeline event turns into, and whether it is
/// a sub-step line.
pub open spec fn event_log_line(e: EventModel) -> (Seq<char>, bool) {
    match e {
        EventModel::Started { name } => ("=== "@ + name + " ==="@, false),
        EventModel::Sub { step, message } => ("["@ + step + "] "@ + message, true),
        EventModel::Finished { name, success, message } => {
            if success {
                ("Step finished successfully: "@ + name + " - "@ + message, false)
            } else {
                ("Step failed: "@ + name + " - "@ + message, false)
            }
        },
    }
}

/// The transcript of a whole run.
pub open spec fn spec_execution_logs(events: Seq<EventModel>) -> Seq<(Seq<char>, bool)> {
    events.map_values(|e: EventModel| event_log_line(e))
}

/// Turn one pipeline event into its transcript line.
fn render_event(e: &crate::manager::PipelineEvent) -> (r: InstallExecutionLog)
    ensures
        (r.message@, r.is_substep) == event_log_line(e@),
{
    match e {
        crate::manager::PipelineEvent::StepStarted { name } => {
            let mut m = "=== ".to_owned();
            m.append(name.as_str());
            m.append(" ===");
            InstallExecutionLog { message: m, is_substep: false }
        },
        crate::manager::PipelineEvent::SubStep { step, message } => {
            let mut m = "[".to_owned();
            m.append(step.as_str());
            m.append("] ");
            m.append(message.as_str());
            InstallExecutionLog { message: m, is_substep: true }
        },
        crate::manager::PipelineEvent::StepFinished { name, success, message } => {
            let mut m = if *success {
                "Step finished successfully: ".to_owned()
            } else {
                "Step failed: ".to_owned()
            };
            m.append(name.as_str());
            m.append(" - ");
            m.append(message.as_str());
            InstallExecutionLog { message: m, is_substep: false }
        },
    }
}

/// Turn a run report into the transcript and verdict a front-end shows.
pub fn execution_result(rep: &RunReport) -> (r: InstallExecutionResult)
    ensures
        r.success == rep.success,
        r.logs@.len() == rep.events@.len(),
        forall|i: int|
            0 <= i < rep.events@.len() ==> ((#[trigger] r.logs@[i]).message@, r.logs@[i].is_substep)
                == spec_execution_logs(rep.events.deep_view())[i],
{
    let mut logs: Vec<InstallExecutionLog> = Vec::new();
    let mut i: usize = 0;
    while i < rep.events.len()
        invariant
            i <= rep.events@.len(),
            logs@.len() == i,
            forall|j: int|
                0 <= j < i ==> ((#[trigger] logs@[j]).message@, logs@[j].is_substep)
                    == spec_execution_logs(rep.events.deep_view())[j],
        decreases rep.events@.len() - i,
    {
        let line = render_event(&rep.events[i]);
        logs.push(line);
        i = i + 1;
    }
    InstallExecutionResult { logs, success: rep.success }
}

/// A whitespace character, exactly the Unicode White_Space set that
/// `str::trim` removes from user input.
pub open spec fn is_space(c: char) -> bool {
    ||| c == ' '
    ||| ('\u{9}' <= c && c <= '\u{d}')
    ||| c == '\u{85}'
    ||| c == '\u{a0}'
    ||| c == '\u{1680}'
    ||| ('\u{2000}' <= c && c <= '\u{200a}')
    ||| c == '\u{2028}'
    ||| c == '\u{2029}'
    ||| c == '\u{202f}'
    ||| c == '\u{205f}'
    ||| c == '\u{3000}'
}

/// Is `c` one of the characters trimming removes?
fn is_space_char(c: char) -> (r: bool)
    ensures
        r == is_space(c),
{
    c == ' ' || ('\u{9}' <= c && c <= '\u{d}') || c == '\u{85}' || c == '\u{a0}' || c
        == '\u{1680}' || ('\u{2000}' <= c && c <= '\u{200a}') || c == '\u{2028}' || c
        == '\u{2029}' || c == '\u{202f}' || c == '\u{205f}' || c == '\u{3000}'
}

/// Leading whitespace removed.
pub open spec fn trim_front(s: Seq<char>) -> Seq<char>
    decreases s.len(),
{
    if s.len() > 0 && is_space(s[0]) {
        trim_front(s.drop_first())
    } else {
        s
    }
}

/// Trailing whitespace removed.
pub open spec fn trim_back(s: Seq<char>) -> Seq<char>
    decreases s.len(),
{
    if s.len() > 0 && is_space(s.last()) {
        trim_back(s.drop_last())
    } else {
        s
    }
}

/// Surrounding whitespace removed.
pub open spec fn trim_chars(s: Seq<char>) -> Seq<char> {
    trim_back(trim_front(s))
}

/// A character allowed in an account login: ASCII letters and digits,
/// and the dash.
pub open spec fn is_login_char(c: char) -> bool {
    ('0' <= c && c <= '9') || ('a' <= c && c <= 'z') || ('A' <= c && c <= 'Z') || c == '-'
}

/// A trimmed login is acceptable: non-empty, at most 39 characters, all
/// of them login characters.
pub open spec fn login_ok(v: Seq<char>) -> bool {
    1 <= v.len() <= 39 && forall|i: int| 0 <= i < v.len() ==> is_login_char(#[trigger] v[i])
}

proof fn lemma_trim_front_index(s: Seq<char>, k: int)
    requires
        0 <= k <= s.len(),
        forall|j: int| 0 <= j < k ==> is_space(#[trigger] s[j]),
        k < s.len() ==> !is_space(s[k]),
    ensures
        trim_front(s) =~= s.skip(k),
    decreases s.len(),
{
    if s.len() > 0 && is_space(s[0]) {
        if k == 0 {
            assert(!is_space(s[0]));
            assert(false);
        }
        assert forall|j: int| 0 <= j < k - 1 implies is_space(#[trigger] s.drop_first()[j]) by {
            assert(s.drop_first()[j] == s[j + 1]);
        }
        lemma_trim_front_index(s.drop_first(), k - 1);
        assert(s.drop_first().skip(k - 1) =~= s.skip(k));
    } else {
        assert(k == 0);
    }
}

proof fn lemma_trim_back_index(s: Seq<char>, k: int)
    requires
        0 <= k <= s.len(),
        forall|j: int| k <= j < s.len() ==> is_space(#[trigger] s[j]),
        k > 0 ==> !is_space(s[k - 1]),
    ensures
        trim_back(s) =~= s.take(k),
    decreases s.len(),
{
    if s.len() > 0 && is_space(s.last()) {
        if k == s.len() {
            assert(!is_space(s[k - 1]));
            assert(false);
        }
        assert forall|j: int| k <= j < s.drop_last().len() implies is_space(
            #[trigger] s.drop_last()[j],
        ) by {
            assert(s.drop_last()[j] == s[j]);
        }
        lemma_trim_back_index(s.drop_last(), k);
        assert(s.drop_last().take(k) =~= s.take(k));
    } else {
        assert(k == s.len());
    }
}

/// Trim a character vector on both sides.
fn trim_vec(v: &Vec<char>) -> (r: Vec<char>)
    ensures
        r@ == trim_chars(v@),
{
    let mut lo: usize = 0;
    while lo < v.len() && is_space_char(v[lo])
        invariant
            lo <= v@.len(),
            forall|j: int| 0 <= j < lo ==> is_space(#[trigger] v@[j]),
        decreases v@.len() - lo,
    {
        lo = lo + 1;
    }
    proof {
        lemma_trim_front_index(v@, lo as int);
    }
    let mut hi: usize = v.len();
    while hi > lo && is_space_char(v[hi - 1])
        invariant
            lo <= hi <= v@.len(),
            forall|j: int| 0 <= j < lo ==> is_space(#[trigger] v@[j]),
            forall|j: int| hi <= j < v@.len() ==> is_space(#[trigger] v@[j]),
        decreases hi,
    {
        hi = hi - 1;
    }
    let mut out: Vec<char> = Vec::new();
    let mut i: usize = lo;
    while i < hi
        invariant
            lo <= i <= hi <= v@.len(),
            out@ =~= v@.subrange(lo as int, i as int),
        decreases hi - i,
    {
        out.push(v[i]);
        i = i + 1;
        proof {
            assert(out@ =~= v@.subrange(lo as int, i as int));
        }
    }
    proof {
        let f = v@.skip(lo as int);
        assert forall|j: int| (hi - lo) <= j < f.len() implies is_space(#[trigger] f[j]) by {
            assert(f[j] == v@[j + lo]);
        }
        if hi > lo {
            assert(!is_space(f[hi - lo - 1])) by {
                assert(f[hi - lo - 1] == v@[hi - 1]);
            }
        }
        lemma_trim_back_index(f, hi - lo);
        assert(out@ =~= f.take(hi - lo));
    }
    out
}

/// Validate and normalize an account login: surrounding whitespace is
/// dropped; a result comes back only when what is left is a plausible
/// login name.
pub fn sanitize_login(login: &str) -> (r: Option<String>)
    ensures
        match r {
            Some(s) => s@ == trim_chars(login@) && login_ok(trim_chars(login@)),
            None => !login_ok(trim_chars(login@)),
        },
{
    let v = chars_vec(login);
    let t = trim_vec(&v);
    if t.len() == 0 || t.len() > 39 {
        return None;
    }
    let mut i: usize = 0;
    while i < t.len()
        invariant
            i <= t@.len(),
            t@ == trim_chars(login@),
            forall|j: int| 0 <= j < i ==> is_login_char(#[trigger] t@[j]),
        decreases t@.len() - i,
    {
        let c = t[i];
        let ok = ('0' <= c && c <= '9') || ('a' <= c && c <= 'z') || ('A' <= c && c <= 'Z') || c
            == '-';
        if !ok {
            return None;
        }
        i = i + 1;
    }
    Some(string_from_chars(&t))
}

/// A control character, which never belongs in a profile address.
pub open spec fn is_control_char(c: char) -> bool {
    c < ' ' || c == '\u{7f}' || ('\u{80}' <= c && c <= '\u{9f}')
}

/// The fallback profile address built from a login.
pub open spec fn fallback_profile(login: Seq<char>) -> Seq<char> {
    "https://github.com/"@ + login
}

/// A trimmed address is taken as-is only when it points at the expected
/// host and carries no control characters.
pub open spec fn profile_url_ok(v: Seq<char>) -> bool {
    &&& "https://github.com/"@.len() <= v.len()
    &&& v.take("https://github.com/"@.len() as int) == "https://github.com/"@
    &&& forall|i: int| 0 <= i < v.len() ==> !is_control_char(#[trigger] v[i])
}

/// Validate a profile address, falling back to the address derived from
/// the login when the given one is suspect.
pub fn sanitize_profile_url(url: &str, fallback_login: &str) -> (r: String)
    ensures
        r@ == (if profile_url_ok(trim_chars(url@)) {
            trim_chars(url@)
        } else {
            fallback_profile(fallback_login@)
        }),
{
    let v = chars_vec(url);
    let t = trim_vec(&v);
    let prefix = chars_vec("https://github.com/");
    let mut good = chars_start_with(&t, &prefix);
    if good {
        let mut i: usize = 0;
        while i < t.len()
            invariant
                i <= t@.len(),
                t@ == trim_chars(url@),
                good ==> forall|j: int| 0 <= j < i ==> !is_control_char(#[trigger] t@[j]),
                !good ==> exists|j: int| 0 <= j < t@.len() && is_control_char(#[trigger] t@[j]),
            decreases t@.len() - i,
        {
            let c = t[i];
            if c < ' ' || c == '\u{7f}' || ('\u{80}' <= c && c <= '\u{9f}') {
                good = false;
                proof {
                    assert(is_control_char(t@[i as int]));
                }
                i = t.len();
            } else {
                i = i + 1;
            }
        }
        if good {
            proof {
                assert(profile_url_ok(trim_chars(url@)));
            }
            return string_from_chars(&t);
        }
    }
    let mut fallback = "https://github.com/".to_owned();
    fallback.append(fallback_login);
    proof {
        assert(!profile_url_ok(trim_chars(url@)));
    }
    fallback
}

} // verus!
