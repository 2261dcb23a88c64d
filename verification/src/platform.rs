//! What the platform layer decides without the platform: doctor checks and their report, and the
//! command line a trigger runs.

use vstd::prelude::*;

use crate::model::strings_view;
use crate::store::TriggerRecord;
use crate::text::{chars_of, chars_eq, push_str, string_of};

verus! {

/// The health of one component.
#[derive(Debug, Clone, Copy, PartialEq, Eq, Structural)]
pub enum DoctorStatus {
    Good,
    Warning,
    Error,
}

pub open spec fn doctor_status_text(s: DoctorStatus) -> Seq<char> {
    match s {
        DoctorStatus::Good => "ok"@,
        DoctorStatus::Warning => "warning"@,
        DoctorStatus::Error => "error"@,
    }
}

impl DoctorStatus {
    pub fn as_str(self) -> (r: &'static str)
        ensures
            r@ == doctor_status_text(self),
    {
        match self {
            DoctorStatus::Good => "ok",
            DoctorStatus::Warning => "warning",
            DoctorStatus::Error => "error",
        }
    }
}

/// One line of the doctor's report, with an optional fix.
#[derive(Debug, Clone, PartialEq, Eq)]
pub struct DoctorCheck {
    pub component: &'static str,
    pub status: DoctorStatus,
    pub detail: String,
    pub fix: Option<String>,
}

impl DoctorCheck {
    pub fn ok(component: &'static str, detail: String) -> (r: DoctorCheck)
        ensures
            r.component@ == component@,
            r.status == DoctorStatus::Good,
            r.detail@ == detail@,
            r.fix is None,
    {
        DoctorCheck { component, status: DoctorStatus::Good, detail, fix: None }
    }

    pub fn warning(component: &'static str, detail: String, fix: String) -> (r: DoctorCheck)
        ensures
            r.component@ == component@,
            r.status == DoctorStatus::Warning,
            r.detail@ == detail@,
            r.fix matches Some(f) && f@ == fix@,
    {
        DoctorCheck { component, status: DoctorStatus::Warning, detail, fix: Some(fix) }
    }

    pub fn error(component: &'static str, detail: String, fix: String) -> (r: DoctorCheck)
        ensures
            r.component@ == component@,
            r.status == DoctorStatus::Error,
            r.detail@ == detail@,
            r.fix matches Some(f) && f@ == fix@,
    {
        DoctorCheck { component, status: DoctorStatus::Error, detail, fix: Some(fix) }
    }
}

/// The doctor's checks.
#[derive(Debug, Clone, PartialEq, Eq)]
pub struct DoctorReport {
    pub checks: Vec<DoctorCheck>,
}

/// `COMPONENT: STATUS - DETAIL`, then `fix: FIX` when there is a fix, each on its own line.
pub open spec fn check_text(c: DoctorCheck) -> Seq<char> {
    c.component@ + ": "@ + doctor_status_text(c.status) + " - "@ + c.detail@ + seq!['\n'] + match c.fix {
        Some(f) => "fix: "@ + f@ + seq!['\n'],
        None => Seq::empty(),
    }
}

pub open spec fn report_text(checks: Seq<DoctorCheck>) -> Seq<char>
    decreases checks.len(),
{
    if checks.len() == 0 {
        Seq::empty()
    } else {
        report_text(checks.drop_last()) + check_text(checks.last())
    }
}

impl DoctorReport {
    /// The report as written to the terminal.
    pub fn text(&self) -> (r: String)
        ensures
            r@ == report_text(self.checks@),
    {
        let mut out: Vec<char> = Vec::new();
        let mut i: usize = 0;
        while i < self.checks.len()
            invariant
                i <= self.checks@.len(),
                out@ == report_text(self.checks@.take(i as int)),
            decreases self.checks.len() - i,
        {
            assert(self.checks@.take(i as int + 1).drop_last() == self.checks@.take(i as int));
            let c = &self.checks[i];
            push_str(&mut out, c.component);
            push_str(&mut out, ": ");
            push_str(&mut out, c.status.as_str());
            push_str(&mut out, " - ");
            push_str(&mut out, c.detail.as_str());
            out.push('\n');
            match &c.fix {
                Some(f) => {
                    push_str(&mut out, "fix: ");
                    push_str(&mut out, f.as_str());
                    out.push('\n');
                },
                None => {},
            }
            i = i + 1;
        }
        assert(self.checks@.take(self.checks@.len() as int) == self.checks@);
        string_of(out.as_slice())
    }
}

/// Compares the system's time zone with today's plan's: a warning when a plan exists in another
/// zone (and the system zone is known), otherwise fine.
pub fn timezone_doctor_check(system: &str, plan: Option<&str>) -> (r: DoctorCheck)
    ensures
        r.component@ == "timezone"@,
        match plan {
            Some(p) => if p@ != system@ && system@ != "unknown"@ {
                r.status == DoctorStatus::Warning
                    && r.detail@ == "system timezone is "@ + system@ + "; today's plan timezone is "@ + p@
                    && (r.fix matches Some(f) && f@ == "run `ccplan set --from <file> --date <date>` with the intended timezone"@)
            } else {
                r.status == DoctorStatus::Good && r.detail@ == "system timezone "@ + system@ + "; plan "@ + p@ && r.fix is None
            },
            None => r.status == DoctorStatus::Good && r.detail@ == "system timezone "@ + system@ + "; no plan for today"@
                && r.fix is None,
        },
{
    match plan {
        Some(p) => {
            let pv = chars_of(p);
            let sv = chars_of(system);
            let unknown = chars_of("unknown");
            if !chars_eq(pv.as_slice(), sv.as_slice()) && !chars_eq(sv.as_slice(), unknown.as_slice()) {
                let mut d: Vec<char> = Vec::new();
                push_str(&mut d, "system timezone is ");
                push_str(&mut d, system);
                push_str(&mut d, "; today's plan timezone is ");
                push_str(&mut d, p);
                DoctorCheck::warning("timezone", string_of(d.as_slice()), "run `ccplan set --from <file> --date <date>` with the intended timezone".to_owned())
            } else {
                let mut d: Vec<char> = Vec::new();
                push_str(&mut d, "system timezone ");
                push_str(&mut d, system);
                push_str(&mut d, "; plan ");
                push_str(&mut d, p);
                DoctorCheck::ok("timezone", string_of(d.as_slice()))
            }
        },
        None => {
            let mut d: Vec<char> = Vec::new();
            push_str(&mut d, "system timezone ");
            push_str(&mut d, system);
            push_str(&mut d, "; no plan for today");
            DoctorCheck::ok("timezone", string_of(d.as_slice()))
        },
    }
}

/// The arguments a scheduled trigger runs the planner with.
pub fn fire_args(trigger: &TriggerRecord) -> (r: Vec<String>)
    ensures
        strings_view(r@) =~~= seq![
            "fire"@, "--date"@, trigger.date.spec_text(), "--id"@, trigger.block_id@,
            "--event"@, crate::lifecycle::event_text(trigger.event), "--rev"@, trigger.rev@,
            "--at"@, trigger.scheduled_at.spec_text(),
        ],
{
    let mut r: Vec<String> = Vec::new();
    r.push("fire".to_owned());
    r.push("--date".to_owned());
    r.push(trigger.date.text());
    r.push("--id".to_owned());
    r.push(trigger.block_id.as_str().to_owned());
    r.push("--event".to_owned());
    r.push(trigger.event.as_str().to_owned());
    r.push("--rev".to_owned());
    r.push(trigger.rev.as_str().to_owned());
    r.push("--at".to_owned());
    r.push(trigger.scheduled_at.text());
    r
}

/// `DATE-HASH-REV-EVENT`, the identity scheduler backends name a trigger by.
pub fn trigger_identity(date: &crate::civil::PlanDate, id_hash: &str, rev: &crate::model::ScheduleRev, event: crate::lifecycle::Event) -> (r: String)
    ensures
        r@ == date.spec_text() + seq!['-'] + id_hash@ + seq!['-'] + rev@ + seq!['-'] + crate::lifecycle::event_text(event),
{
    let mut out: Vec<char> = date.text_chars();
    out.push('-');
    push_str(&mut out, id_hash);
    out.push('-');
    push_str(&mut out, rev.as_str());
    out.push('-');
    push_str(&mut out, event.as_str());
    string_of(out.as_slice())
}


// ── Quoting for notification scripts ─────────────────────────────────────

/// `s` with each character replaced by what `f` writes for it.
pub open spec fn escaped(s: Seq<char>, f: spec_fn(char) -> Seq<char>) -> Seq<char>
    decreases s.len(),
{
    if s.len() == 0 {
        Seq::empty()
    } else {
        escaped(s.drop_last(), f) + f(s.last())
    }
}

/// Inside an AppleScript string a backslash and a double quote take a backslash.
pub open spec fn applescript_char(c: char) -> Seq<char> {
    if c == '\\' {
        seq!['\\', '\\']
    } else if c == '"' {
        seq!['\\', '"']
    } else {
        seq![c]
    }
}

/// Inside a single-quoted PowerShell string a single quote is doubled.
pub open spec fn powershell_char(c: char) -> Seq<char> {
    if c == '\'' {
        seq!['\'', '\'']
    } else {
        seq![c]
    }
}

/// The five characters XML reserves become entities.
pub open spec fn xml_char(c: char) -> Seq<char> {
    if c == '&' {
        "&amp;"@
    } else if c == '<' {
        "&lt;"@
    } else if c == '>' {
        "&gt;"@
    } else if c == '"' {
        "&quot;"@
    } else if c == '\'' {
        "&apos;"@
    } else {
        seq![c]
    }
}

/// `value` as a double-quoted AppleScript string literal.
pub fn applescript_string(value: &str) -> (r: String)
    ensures
        r@ == seq!['"'] + escaped(value@, |c: char| applescript_char(c)) + seq!['"'],
{
    let v = chars_of(value);
    let mut out: Vec<char> = Vec::new();
    out.push('"');
    let mut i: usize = 0;
    while i < v.len()
        invariant
            i <= v@.len(),
            v@ == value@,
            out@ == seq!['"'] + escaped(v@.take(i as int), |c: char| applescript_char(c)),
        decreases v.len() - i,
    {
        assert(v@.take(i as int + 1).drop_last() == v@.take(i as int));
        let c = v[i];
        if c == '\\' {
            out.push('\\');
            out.push('\\');
        } else if c == '"' {
            out.push('\\');
            out.push('"');
        } else {
            out.push(c);
        }
        assert(out@ =~= seq!['"'] + escaped(v@.take(i as int + 1), |c: char| applescript_char(c)));
        i = i + 1;
    }
    assert(v@.take(v@.len() as int) == v@);
    out.push('"');
    string_of(out.as_slice())
}

/// `value` as a single-quoted PowerShell string literal.
pub fn powershell_string(value: &str) -> (r: String)
    ensures
        r@ == seq!['\''] + escaped(value@, |c: char| powershell_char(c)) + seq!['\''],
{
    let v = chars_of(value);
    let mut out: Vec<char> = Vec::new();
    out.push('\'');
    let mut i: usize = 0;
    while i < v.len()
        invariant
            i <= v@.len(),
            v@ == value@,
            out@ == seq!['\''] + escaped(v@.take(i as int), |c: char| powershell_char(c)),
        decreases v.len() - i,
    {
        assert(v@.take(i as int + 1).drop_last() == v@.take(i as int));
        let c = v[i];
        if c == '\'' {
            out.push('\'');
            out.push('\'');
        } else {
            out.push(c);
        }
        assert(out@ =~= seq!['\''] + escaped(v@.take(i as int + 1), |c: char| powershell_char(c)));
        i = i + 1;
    }
    assert(v@.take(v@.len() as int) == v@);
    out.push('\'');
    string_of(out.as_slice())
}

/// `value` with the characters XML reserves written as entities.
pub fn xml_escape(value: &str) -> (r: String)
    ensures
        r@ == escaped(value@, |c: char| xml_char(c)),
{
    proof {
        reveal_strlit("&amp;");
        reveal_strlit("&lt;");
        reveal_strlit("&gt;");
        reveal_strlit("&quot;");
        reveal_strlit("&apos;");
    }
    let v = chars_of(value);
    let mut out: Vec<char> = Vec::new();
    let mut i: usize = 0;
    while i < v.len()
        invariant
            i <= v@.len(),
            v@ == value@,
            out@ == escaped(v@.take(i as int), |c: char| xml_char(c)),
        decreases v.len() - i,
    {
        assert(v@.take(i as int + 1).drop_last() == v@.take(i as int));
        let c = v[i];
        if c == '&' {
            push_str(&mut out, "&amp;");
        } else if c == '<' {
            push_str(&mut out, "&lt;");
        } else if c == '>' {
            push_str(&mut out, "&gt;");
        } else if c == '"' {
            push_str(&mut out, "&quot;");
        } else if c == '\'' {
            push_str(&mut out, "&apos;");
        } else {
            out.push(c);
        }
        assert(out@ =~= escaped(v@.take(i as int + 1), |c: char| xml_char(c)));
        i = i + 1;
    }
    assert(v@.take(v@.len() as int) == v@);
    string_of(out.as_slice())
}

} // verus!
