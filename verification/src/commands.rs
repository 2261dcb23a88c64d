//! The command layer's decisions: plan edits, read-side selections, trigger planning, automation
//! policy and the human renderings of results.

use vstd::prelude::*;

use crate::config::AutomationConfig;
use crate::context::Notification;
use crate::error::{error_text, Error};
use crate::lifecycle::{Event, StatusUpdate};
use crate::model::{join_with, Plan, status_terminal};
use crate::store::{first_with_id, lemma_first_with_id, other_ids, TriggerRecord};
use crate::time::{SignedDuration, Timestamp};
use crate::gui::model::{countdown_str, countdown_text};
use crate::model::{
    run_view, status_text, strings_view, Block, BlockId, ClockTime, DurationSpec, FieldParseError, Lead, Run, Span,
    Status, valid_argv,
};
use crate::text::{
    chars_of, copy_string, decimal, decimal_chars, is_unicode_whitespace, octal, octal_chars, push_all, push_str, string_of,
    trim_end, unicode_whitespace, zero_padded, zero_padded_chars,
};

verus! {

// ── Human renderings ───────────────────────────────────────────────────────

/// Renders a seconds-until-start countdown: `now`, or `in 1h05m`, `in 2m`, `in 45s`.
pub fn humanize_countdown(seconds: i64) -> (r: String)
    ensures
        r@ == countdown_text(seconds as int),
{
    countdown_str(seconds)
}

/// Human label for a block status.
pub fn status_label(status: Status) -> (r: &'static str)
    ensures
        r@ == status_text(status),
{
    status.as_str()
}

/// `cell` padded with spaces on the right to `width` characters (never cut).
pub open spec fn pad_right(cell: Seq<char>, width: nat) -> Seq<char> {
    if cell.len() >= width {
        cell
    } else {
        cell + Seq::new((width - cell.len()) as nat, |i: int| ' ')
    }
}

/// The row before trimming: every cell but the last padded to its width and followed by two
/// spaces, then the last cell.
pub open spec fn row_text(cells: Seq<Seq<char>>, widths: Seq<usize>) -> Seq<char>
    decreases cells.len(),
{
    if cells.len() == 0 {
        Seq::empty()
    } else if cells.len() == 1 {
        cells[0]
    } else {
        pad_right(cells[0], widths[0] as nat) + "  "@ + row_text(cells.drop_first(), widths.drop_first())
    }
}

fn push_padded(out: &mut Vec<char>, cell: &[char], width: usize)
    ensures
        final(out)@ == old(out)@ + pad_right(cell@, width as nat),
{
    push_all(out, cell);
    let mut n: usize = cell.len();
    let ghost start = out@;
    while n < width
        invariant
            cell.len() <= n <= width || (n == cell.len() && cell.len() >= width),
            out@ == start + Seq::new((n - cell.len()) as nat, |i: int| ' '),
        decreases width - n,
    {
        out.push(' ');
        assert(Seq::new((n + 1 - cell.len()) as nat, |i: int| ' ') =~= Seq::new((n - cell.len()) as nat, |i: int| ' ').push(' '));
        n = n + 1;
    }
    if cell.len() >= width {
        assert(Seq::new(0nat, |i: int| ' ') =~= Seq::<char>::empty());
    }
}

/// Pads every cell but the last to its column width with a two-space gutter, then trims
/// trailing whitespace.
pub fn format_table_row(cells: &[String], widths: &[usize]) -> (r: String)
    requires
        cells@.len() <= widths@.len() + 1,
    ensures
        r@ == trim_end(row_text(strings_view(cells@), widths@)),
{
    let mut line: Vec<char> = Vec::new();
    let mut i: usize = 0;
    let ghost all = strings_view(cells@);
    proof {
        lemma_row_text_split(all, widths@, 0);
    }
    while i < cells.len()
        invariant
            i <= cells@.len() <= widths@.len() + 1,
            all == strings_view(cells@),
            line@ + row_text(all.skip(i as int), widths@.skip(i as int)) == row_text(all, widths@),
        decreases cells.len() - i,
    {
        let c = chars_of(cells[i].as_str());
        proof {
            lemma_row_text_step(all.skip(i as int), widths@.skip(i as int));
            assert(all.skip(i as int)[0] == c@);
            assert(all.skip(i as int).drop_first() == all.skip(i as int + 1));
            if i < widths.len() {
                assert(widths@.skip(i as int).drop_first() == widths@.skip(i as int + 1));
            }
        }
        if i + 1 == cells.len() {
            push_all(&mut line, c.as_slice());
            assert(all.skip(i as int + 1).len() == 0);
        } else {
            push_padded(&mut line, c.as_slice(), widths[i]);
            push_str(&mut line, "  ");
        }
        i = i + 1;
    }
    proof {
        assert(all.skip(cells@.len() as int).len() == 0);
    }
    let trimmed = trim_end_chars(line.as_slice());
    string_of(trimmed.as_slice())
}

proof fn lemma_row_text_split(cells: Seq<Seq<char>>, widths: Seq<usize>, i: int)
    requires
        i == 0,
    ensures
        cells.skip(i) == cells,
        widths.skip(i) == widths,
{
}

proof fn lemma_row_text_step(cells: Seq<Seq<char>>, widths: Seq<usize>)
    requires
        cells.len() >= 1,
        cells.len() <= widths.len() + 1,
    ensures
        cells.len() == 1 ==> row_text(cells, widths) == cells[0],
        cells.len() > 1 ==> row_text(cells, widths) == pad_right(cells[0], widths[0] as nat) + "  "@ + row_text(cells.drop_first(), widths.drop_first()),
{
}

/// Copies `s` without trailing whitespace.
pub fn trim_end_chars(s: &[char]) -> (r: Vec<char>)
    ensures
        r@ == trim_end(s@),
{
    let mut j: usize = s.len();
    assert(s@.subrange(0, j as int) == s@);
    while j > 0 && unicode_whitespace(s[j - 1])
        invariant
            j <= s.len(),
            trim_end(s@) == trim_end(s@.subrange(0, j as int)),
        decreases j,
    {
        assert(s@.subrange(0, j as int).drop_last() == s@.subrange(0, j as int - 1));
        j = j - 1;
    }
    let mut out: Vec<char> = Vec::new();
    let mut k: usize = 0;
    while k < j
        invariant
            k <= j <= s.len(),
            out@ == s@.subrange(0, k as int),
        decreases j - k,
    {
        out.push(s[k]);
        k = k + 1;
    }
    out
}

pub open spec fn max_nat(a: nat, b: nat) -> nat {
    if a >= b {
        a
    } else {
        b
    }
}

/// Width of column `k`: the longest of its header cell and its cells in `rows`, in characters.
pub open spec fn column_width(header: Seq<Seq<char>>, rows: Seq<Seq<Seq<char>>>, k: int) -> nat
    decreases rows.len(),
{
    if rows.len() == 0 {
        header[k].len()
    } else {
        let last = rows.last();
        max_nat(column_width(header, rows.drop_last(), k), if k < last.len() { last[k].len() } else { 0 })
    }
}

pub open spec fn rows_view(rows: Seq<Vec<String>>) -> Seq<Seq<Seq<char>>> {
    Seq::new(rows.len(), |i: int| strings_view(rows[i]@))
}

pub open spec fn strs_view(v: Seq<&str>) -> Seq<Seq<char>> {
    Seq::new(v.len(), |i: int| v[i]@)
}

/// The rendered table: the header row and each row, each on its own line.
pub open spec fn table_text(header: Seq<Seq<char>>, rows: Seq<Seq<Seq<char>>>, widths: Seq<usize>) -> Seq<char>
    decreases rows.len(),
{
    if rows.len() == 0 {
        trim_end(row_text(header, widths)) + seq!['\n']
    } else {
        table_text(header, rows.drop_last(), widths) + trim_end(row_text(rows.last(), widths)) + seq!['\n']
    }
}

/// Renders `rows` under `header` as a left-aligned, column-padded table, one line per row.
pub fn write_table(header: &[&str], rows: &[Vec<String>]) -> (r: String)
    requires
        forall|i: int| 0 <= i < rows@.len() ==> (#[trigger] rows@[i])@.len() <= header@.len(),
        header@.len() > 0,
    ensures
        exists|widths: Seq<usize>|
            widths.len() == header@.len()
            && (forall|k: int| 0 <= k < header@.len() ==> #[trigger] widths[k] == column_width(strs_view(header@), rows_view(rows@), k))
            && r@ == table_text(strs_view(header@), rows_view(rows@), widths),
{
    let ghost hv = strs_view(header@);
    let ghost rv = rows_view(rows@);
    let mut widths: Vec<usize> = Vec::new();
    let mut k: usize = 0;
    while k < header.len()
        invariant
            k <= header@.len(),
            hv == strs_view(header@),
            widths@.len() == k,
            forall|j: int| 0 <= j < k ==> #[trigger] widths@[j] == header@[j]@.len(),
        decreases header.len() - k,
    {
        widths.push(chars_of(header[k]).len());
        k = k + 1;
    }
    let mut i: usize = 0;
    while i < rows.len()
        invariant
            i <= rows@.len(),
            hv == strs_view(header@),
            rv == rows_view(rows@),
            forall|x: int| 0 <= x < rows@.len() ==> (#[trigger] rows@[x])@.len() <= header@.len(),
            widths@.len() == header@.len(),
            forall|j: int| 0 <= j < header@.len() ==> #[trigger] widths@[j] == column_width(hv, rv.take(i as int), j),
        decreases rows.len() - i,
    {
        let row = &rows[i];
        assert(rv.take(i as int + 1).drop_last() == rv.take(i as int));
        assert(rv.take(i as int + 1).last() == strings_view(row@));
        let ghost before = widths@;
        let mut j: usize = 0;
        while j < row.len()
            invariant
                j <= row@.len() <= header@.len(),
                widths@.len() == header@.len(),
                forall|x: int| 0 <= x < j ==> #[trigger] widths@[x] == max_nat(before[x] as nat, row@[x]@.len()),
                forall|x: int| j <= x < header@.len() ==> #[trigger] widths@[x] == before[x],
            decreases row.len() - j,
        {
            let n = chars_of(row[j].as_str()).len();
            if n > widths[j] {
                widths.set(j, n);
            }
            j = j + 1;
        }
        i = i + 1;
    }
    assert(rv.take(rows@.len() as int) == rv);
    let mut out: Vec<char> = Vec::new();
    let mut header_cells: Vec<String> = Vec::new();
    let mut h: usize = 0;
    while h < header.len()
        invariant
            h <= header@.len(),
            header_cells@.len() == h,
            forall|x: int| 0 <= x < h ==> #[trigger] header_cells@[x]@ == header@[x]@,
        decreases header.len() - h,
    {
        header_cells.push(header[h].to_owned());
        h = h + 1;
    }
    assert(strings_view(header_cells@) =~= hv);
    let first = format_table_row(header_cells.as_slice(), widths.as_slice());
    push_str(&mut out, first.as_str());
    out.push('\n');
    let mut i: usize = 0;
    while i < rows.len()
        invariant
            i <= rows@.len(),
            hv == strs_view(header@),
            rv == rows_view(rows@),
            forall|x: int| 0 <= x < rows@.len() ==> (#[trigger] rows@[x])@.len() <= header@.len(),
            widths@.len() == header@.len(),
            out@ == table_text(hv, rv.take(i as int), widths@),
        decreases rows.len() - i,
    {
        assert(rv.take(i as int + 1).drop_last() == rv.take(i as int));
        assert(rv.take(i as int + 1).last() == strings_view(rows@[i as int]@));
        let line = format_table_row(rows[i].as_slice(), widths.as_slice());
        push_str(&mut out, line.as_str());
        out.push('\n');
        i = i + 1;
    }
    assert(rv.take(rows@.len() as int) == rv);
    string_of(out.as_slice())
}

/// `HH:MM`, or `HH:MM:SS` when the seconds are not zero.
pub open spec fn clock_seconds_text(seconds: nat) -> Seq<char> {
    let h = seconds / 3600;
    let m = seconds % 3600 / 60;
    let s = seconds % 60;
    if s == 0 {
        zero_padded(h, 2) + seq![':'] + zero_padded(m, 2)
    } else {
        zero_padded(h, 2) + seq![':'] + zero_padded(m, 2) + seq![':'] + zero_padded(s, 2)
    }
}

pub fn format_seconds_as_clock(seconds: u32) -> (r: String)
    ensures
        r@ == clock_seconds_text(seconds as nat),
{
    let hours = seconds / 3600;
    let minutes = seconds % 3600 / 60;
    let secs = seconds % 60;
    let mut out = zero_padded_chars(hours as u64, 2);
    out.push(':');
    let m = zero_padded_chars(minutes as u64, 2);
    push_all(&mut out, m.as_slice());
    if secs != 0 {
        out.push(':');
        let s = zero_padded_chars(secs as u64, 2);
        push_all(&mut out, s.as_slice());
    }
    string_of(out.as_slice())
}

// ── Read-side rows ─────────────────────────────────────────────────────────

/// One block as the read commands list it.
#[derive(Debug, Clone, PartialEq, Eq)]
pub struct BlockSummary {
    pub id: String,
    pub title: String,
    pub start: String,
    pub end: String,
    pub status: Status,
}

pub open spec fn summary_matches(s: BlockSummary, b: Block) -> bool {
    &&& s.id@ == b.id@
    &&& s.title@ == b.title@
    &&& s.start@ == b.start.spec_text()
    &&& s.end@ == clock_seconds_text(b.spec_end_seconds())
    &&& s.status == b.status
}

impl BlockSummary {
    pub fn from_block(block: &Block) -> (r: BlockSummary)
        ensures
            summary_matches(r, *block),
    {
        BlockSummary {
            id: block.id.as_str().to_owned(),
            title: copy_string(&block.title),
            start: block.start.text(),
            end: format_seconds_as_clock(block.resolved_end_seconds()),
            status: block.status,
        }
    }

    /// The column headers of the human table.
    pub fn header() -> (r: Vec<&'static str>)
        ensures
            strs_view(r@) == seq!["TIME"@, "STATUS"@, "ID"@, "TITLE"@],
    {
        let r = vec!["TIME", "STATUS", "ID", "TITLE"];
        assert(strs_view(r@) =~= seq!["TIME"@, "STATUS"@, "ID"@, "TITLE"@]);
        r
    }

    /// The cells of the human table: `START-END`, status, id, title.
    pub fn columns(&self) -> (r: Vec<String>)
        ensures
            strings_view(r@) == seq![self.start@ + seq!['-'] + self.end@, status_text(self.status), self.id@, self.title@],
    {
        let mut time: Vec<char> = chars_of(self.start.as_str());
        time.push('-');
        push_str(&mut time, self.end.as_str());
        let mut r: Vec<String> = Vec::new();
        r.push(string_of(time.as_slice()));
        r.push(self.status.as_str().to_owned());
        r.push(copy_string(&self.id));
        r.push(copy_string(&self.title));
        assert(strings_view(r@) =~~= seq![self.start@ + seq!['-'] + self.end@, status_text(self.status), self.id@, self.title@]);
        r
    }
}

/// A block on the agenda, with the seconds until it starts.
#[derive(Debug, Clone, PartialEq, Eq)]
pub struct AgendaEntry {
    pub block: BlockSummary,
    pub starts_in_seconds: i64,
}

impl AgendaEntry {
    pub fn new(block: &Block, starts_in_seconds: i64) -> (r: AgendaEntry)
        ensures
            summary_matches(r.block, *block),
            r.starts_in_seconds == starts_in_seconds,
    {
        AgendaEntry { block: BlockSummary::from_block(block), starts_in_seconds }
    }

    /// The column headers of the human table, with the countdown column.
    pub fn header() -> (r: Vec<&'static str>)
        ensures
            strs_view(r@) == seq!["TIME"@, "IN"@, "STATUS"@, "ID"@, "TITLE"@],
    {
        let r = vec!["TIME", "IN", "STATUS", "ID", "TITLE"];
        assert(strs_view(r@) =~= seq!["TIME"@, "IN"@, "STATUS"@, "ID"@, "TITLE"@]);
        r
    }

    /// The cells of the human table: `START-END`, countdown, status, id, title.
    pub fn columns(&self) -> (r: Vec<String>)
        ensures
            strings_view(r@) == seq![
                self.block.start@ + seq!['-'] + self.block.end@,
                countdown_text(self.starts_in_seconds as int),
                status_text(self.block.status),
                self.block.id@,
                self.block.title@,
            ],
    {
        let mut time: Vec<char> = chars_of(self.block.start.as_str());
        time.push('-');
        push_str(&mut time, self.block.end.as_str());
        let mut r: Vec<String> = Vec::new();
        r.push(string_of(time.as_slice()));
        r.push(humanize_countdown(self.starts_in_seconds));
        r.push(self.block.status.as_str().to_owned());
        r.push(copy_string(&self.block.id));
        r.push(copy_string(&self.block.title));
        assert(strings_view(r@) =~~= seq![
            self.block.start@ + seq!['-'] + self.block.end@,
            countdown_text(self.starts_in_seconds as int),
            status_text(self.block.status),
            self.block.id@,
            self.block.title@,
        ]);
        r
    }
}

// ── Automation policy ──────────────────────────────────────────────────────

/// The path starts with neither `/` nor `\\` and holds no `:`: it has neither a Unix root nor a
/// Windows prefix.
pub open spec fn plainly_relative(p: Seq<char>) -> bool {
    (p.len() == 0 || (p[0] != '/' && p[0] != '\\')) && !p.contains(':')
}

/// Whether a path is absolute (std `Path::is_absolute`).
///
/// Trusted: std documents that on Unix a path is absolute when it starts with the root and on
/// Windows when it has a prefix and a root, so a plainly relative path is never absolute. Which
/// other paths are absolute depends on the platform and is left unsaid.
#[verifier::external_body]
fn path_is_absolute(path: &str) -> (r: bool)
    ensures
        plainly_relative(path@) ==> !r,
{
    std::path::Path::new(path).is_absolute()
}

/// A path text that splits into components one way on every platform: not empty, with no `\\`
/// and no `:` (so no Windows prefix), no doubled `/`, no trailing `/` (but for `/` itself) and no
/// `.` component after the first. Two such texts with the same components are the same text.
pub open spec fn plain_path(p: Seq<char>) -> bool {
    &&& p.len() > 0
    &&& forall|i: int| 0 <= i < p.len() ==> #[trigger] p[i] != '\\' && p[i] != ':'
    &&& forall|i: int| 0 <= i < p.len() - 1 ==> !(#[trigger] p[i] == '/' && p[i + 1] == '/')
    &&& p.len() > 1 ==> p[p.len() - 1] != '/'
    &&& forall|i: int| 0 <= i < p.len() - 1 ==> !(#[trigger] p[i] == '/' && p[i + 1] == '.' && (i + 2 == p.len() || p[i + 2] == '/'))
}

/// Whether two paths are equal as paths (std `PartialEq` for `Path`, which compares components).
///
/// Trusted: `Path` equality is an equivalence, so the same text is the same path. `Path` compares
/// the components, which `Path::components` documents: repeated separators and trailing ones
/// are dropped and `.` is dropped but at the start; a plain path has none of these and, having
/// no `\\` or `:`, no Windows prefix, so two different plain texts have different components
/// and are different paths. Whether other different texts name the same path depends on the
/// platform and is left unsaid.
#[verifier::external_body]
pub(crate) fn paths_equal(a: &str, b: &str) -> (r: bool)
    ensures
        a@ == b@ ==> r,
        plain_path(a@) && plain_path(b@) && a@ != b@ ==> !r,
{
    std::path::Path::new(a) == std::path::Path::new(b)
}

/// The allowlist holds `program` letter for letter.
pub open spec fn listed(allowed: Seq<String>, program: Seq<char>) -> bool {
    exists|k: int| 0 <= k < allowed.len() && #[trigger] allowed[k]@ == program
}

/// The program and every allowlist entry are plain paths and none is the program's text: the
/// allowlist surely lacks the program.
pub open spec fn surely_unlisted(allowed: Seq<String>, program: Seq<char>) -> bool {
    &&& plain_path(program)
    &&& forall|k: int| 0 <= k < allowed.len() ==> plain_path(#[trigger] allowed[k]@) && allowed[k]@ != program
}

/// The verdict on running `argv` under an automation policy, given whether its program is an
/// absolute path and whether the allowlist holds it.
pub open spec fn authorization(enabled: bool, argv: Seq<Seq<char>>, absolute: bool, allowed: bool) -> Result<(), Seq<char>> {
    if !enabled {
        Err("automation is disabled"@)
    } else if argv.len() == 0 {
        Err("empty run command argv"@)
    } else if !absolute {
        Err("executable path is not absolute: "@ + argv[0])
    } else if !allowed {
        Err("executable not in allowlist: "@ + argv[0])
    } else {
        Ok(())
    }
}

pub open spec fn result_view(r: Result<(), String>) -> Result<(), Seq<char>> {
    match r {
        Ok(()) => Ok(()),
        Err(m) => Err(m@),
    }
}

/// Decides whether a command may run, from the policy's switch and what is known of its program.
pub fn authorize_decision(enabled: bool, argv: &[String], absolute: bool, allowed: bool) -> (r: Result<(), String>)
    ensures
        result_view(r) == authorization(enabled, strings_view(argv@), absolute, allowed),
{
    if !enabled {
        return Err("automation is disabled".to_owned());
    }
    if argv.len() == 0 {
        return Err("empty run command argv".to_owned());
    }
    let program = &argv[0];
    if !absolute {
        let mut m: Vec<char> = Vec::new();
        push_str(&mut m, "executable path is not absolute: ");
        push_str(&mut m, program.as_str());
        return Err(string_of(m.as_slice()));
    }
    if !allowed {
        let mut m: Vec<char> = Vec::new();
        push_str(&mut m, "executable not in allowlist: ");
        push_str(&mut m, program.as_str());
        return Err(string_of(m.as_slice()));
    }
    Ok(())
}

/// Checks whether a block's command may run: automation must be enabled, the argv non-empty, its
/// program an absolute path on the allowlist.
pub fn authorize_run(automation: &AutomationConfig, argv: &[String]) -> (r: Result<(), String>)
    ensures
        exists|absolute: bool, allowed: bool|
            (argv@.len() > 0 && plainly_relative(argv@[0]@) ==> !absolute)
            && (argv@.len() > 0 && listed(automation.allowed_executables@, argv@[0]@) ==> allowed)
            && (argv@.len() > 0 && surely_unlisted(automation.allowed_executables@, argv@[0]@) ==> !allowed)
            && result_view(r) == #[trigger] authorization(automation.enabled, strings_view(argv@), absolute, allowed),
{
    if argv.len() == 0 {
        let r = authorize_decision(automation.enabled, argv, false, true);
        assert(result_view(r) == authorization(automation.enabled, strings_view(argv@), false, true));
        return r;
    }
    if !automation.enabled {
        let ghost allowed = !surely_unlisted(automation.allowed_executables@, argv@[0]@);
        let r = authorize_decision(automation.enabled, argv, false, true);
        assert(result_view(r) == authorization(automation.enabled, strings_view(argv@), false, allowed));
        return r;
    }
    let program = argv[0].as_str();
    let absolute = path_is_absolute(program);
    let mut allowed = false;
    let mut k: usize = 0;
    while k < automation.allowed_executables.len()
        invariant
            k <= automation.allowed_executables@.len(),
            program@ == argv@[0]@,
            (exists|j: int| 0 <= j < k && #[trigger] automation.allowed_executables@[j]@ == program@) ==> allowed,
            allowed ==> exists|j: int| 0 <= j < k && !(plain_path(#[trigger] automation.allowed_executables@[j]@)
                && plain_path(program@) && automation.allowed_executables@[j]@ != program@),
        decreases automation.allowed_executables.len() - k,
    {
        if paths_equal(automation.allowed_executables[k].as_str(), program) {
            allowed = true;
        }
        k = k + 1;
    }
    let r = authorize_decision(automation.enabled, argv, absolute, allowed);
    assert(result_view(r) == authorization(automation.enabled, strings_view(argv@), absolute, allowed));
    r
}

/// Keeps only the most recent `cap` bytes of a tail buffer.
pub fn cap_tail(buf: &mut Vec<u8>, cap: usize)
    ensures
        old(buf)@.len() > cap ==> final(buf)@ == old(buf)@.skip(old(buf)@.len() - cap),
        old(buf)@.len() <= cap ==> final(buf)@ == old(buf)@,
{
    if buf.len() > cap {
        let drain = buf.len() - cap;
        let mut out: Vec<u8> = Vec::new();
        let mut i: usize = drain;
        while i < buf.len()
            invariant
                drain <= i <= buf@.len(),
                out@ == buf@.subrange(drain as int, i as int),
            decreases buf.len() - i,
        {
            out.push(buf[i]);
            i = i + 1;
        }
        *buf = out;
    }
}

/// What `String::from_utf8_lossy` gives for a byte string.
pub uninterp spec fn utf8_lossy(bytes: Seq<u8>) -> Seq<char>;

/// Decodes bytes as UTF-8 with `String::from_utf8_lossy`, replacing invalid sequences.
///
/// Trusted: the text is std's lossy decoding of the bytes.
#[verifier::external_body]
pub(crate) fn decode_lossy(bytes: &[u8]) -> (r: String)
    ensures
        r@ == utf8_lossy(bytes@),
{
    String::from_utf8_lossy(bytes).into_owned()
}

/// Newlines written as the two characters `\n`, carriage returns dropped.
pub open spec fn escape_newlines(s: Seq<char>) -> Seq<char>
    decreases s.len(),
{
    if s.len() == 0 {
        Seq::empty()
    } else {
        let c = s.last();
        escape_newlines(s.drop_last()) + if c == '\n' {
            seq!['\\', 'n']
        } else if c == '\r' {
            Seq::empty()
        } else {
            seq![c]
        }
    }
}

/// How a command's run ended.
#[derive(Debug, Clone, PartialEq, Eq)]
pub enum RunEnd {
    /// It exited successfully.
    Success,
    /// It exited with this failure code.
    Exit(i32),
    /// A signal ended it.
    Signal,
    /// It ran past the time limit and was killed.
    Timeout,
    /// Waiting for it failed with this message.
    WaitFailed(String),
    /// It could not be started, with this message.
    SpawnFailed(String),
}

/// An integer in decimal, with a leading `-` when negative.
pub open spec fn signed_decimal(n: int) -> Seq<char> {
    if n < 0 {
        "-"@ + decimal((-n) as nat)
    } else {
        decimal(n as nat)
    }
}

/// The outcome token of a run in the fire log.
pub open spec fn run_outcome_text(end: RunEnd) -> Seq<char> {
    match end {
        RunEnd::Success => "success"@,
        RunEnd::Exit(code) => "failed:exit="@ + signed_decimal(code as int),
        RunEnd::Signal => "failed:signal"@,
        RunEnd::Timeout => "timeout"@,
        RunEnd::WaitFailed(m) => "error:"@ + m@,
        RunEnd::SpawnFailed(m) => "failed-to-spawn:"@ + m@,
    }
}

/// Renders how a run ended, e.g. `failed:exit=2`.
pub fn run_outcome(end: &RunEnd) -> (r: String)
    ensures
        r@ == run_outcome_text(*end),
{
    match end {
        RunEnd::Success => "success".to_owned(),
        RunEnd::Exit(code) => {
            let mut out = chars_of("failed:exit=");
            if *code < 0 {
                push_str(&mut out, "-");
                let magnitude: i64 = -(*code as i64);
                let digits = decimal_chars(magnitude as u64);
                push_all(&mut out, digits.as_slice());
            } else {
                let digits = decimal_chars(*code as u64);
                push_all(&mut out, digits.as_slice());
            }
            string_of(out.as_slice())
        },
        RunEnd::Signal => "failed:signal".to_owned(),
        RunEnd::Timeout => "timeout".to_owned(),
        RunEnd::WaitFailed(m) => crate::text::concat2("error:", m.as_str()),
        RunEnd::SpawnFailed(m) => crate::text::concat2("failed-to-spawn:", m.as_str()),
    }
}

/// Renders a captured output tail as one log token: decoded, trimmed, newlines escaped.
pub fn tail_string(bytes: &[u8]) -> (r: String)
    ensures
        r@ == escape_newlines(crate::text::trim(utf8_lossy(bytes@))),
{
    let text = decode_lossy(bytes);
    let v = chars_of(text.as_str());
    let t = crate::text::trim_chars(v.as_slice());
    let mut out: Vec<char> = Vec::new();
    let mut i: usize = 0;
    while i < t.len()
        invariant
            i <= t@.len(),
            out@ == escape_newlines(t@.take(i as int)),
        decreases t.len() - i,
    {
        assert(t@.take(i as int + 1).drop_last() == t@.take(i as int));
        let c = t[i];
        if c == '\n' {
            out.push('\\');
            out.push('n');
        } else if c != '\r' {
            out.push(c);
        }
        i = i + 1;
    }
    assert(t@.take(t@.len() as int) == t@);
    string_of(out.as_slice())
}

/// Each whitespace character replaced by `_`.
pub open spec fn sanitized(s: Seq<char>) -> Seq<char> {
    Seq::new(s.len(), |i: int| if is_unicode_whitespace(s[i]) { '_' } else { s[i] })
}

/// Makes a value safe as one whitespace-separated log field.
pub fn sanitize_log_field(value: &str) -> (r: String)
    ensures
        r@ == sanitized(value@),
{
    let v = chars_of(value);
    let mut out: Vec<char> = Vec::new();
    let mut i: usize = 0;
    while i < v.len()
        invariant
            i <= v@.len(),
            out@ == sanitized(v@).take(i as int),
        decreases v.len() - i,
    {
        if unicode_whitespace(v[i]) {
            out.push('_');
        } else {
            out.push(v[i]);
        }
        i = i + 1;
    }
    assert(sanitized(v@).take(v@.len() as int) == sanitized(v@));
    string_of(out.as_slice())
}

/// The notification for a block: its title, and `ID at HH:MM`.
pub fn notification_for(block: &Block) -> (r: Notification)
    ensures
        r.title@ == block.title@,
        r.body@ == block.id@ + " at "@ + block.start.spec_text(),
{
    let mut body: Vec<char> = Vec::new();
    push_str(&mut body, block.id.as_str());
    push_str(&mut body, " at ");
    let t = block.start.text_chars();
    push_all(&mut body, t.as_slice());
    Notification { title: copy_string(&block.title), body: string_of(body.as_slice()) }
}

// ── Building blocks from arguments ─────────────────────────────────────────

/// The span given by exactly one of an end and a duration.
pub fn span_from(end: Option<ClockTime>, duration: Option<DurationSpec>) -> (r: Result<Span, Error>)
    ensures
        (end, duration) matches (Some(e), None) ==> r == Ok::<Span, Error>(Span::End(e)),
        (end, duration) matches (None, Some(d)) ==> r == Ok::<Span, Error>(Span::Duration(d)),
        end is Some == duration is Some ==> (r matches Err(Error::Usage(m)) && m@ == "set exactly one of --end or --duration"@),
{
    match (end, duration) {
        (Some(e), None) => Ok(Span::End(e)),
        (None, Some(d)) => Ok(Span::Duration(d)),
        _ => Err(Error::Usage("set exactly one of --end or --duration".to_owned())),
    }
}

/// No command for an empty argv, otherwise the command it gives.
pub fn run_from(run: Vec<String>) -> (r: Result<Option<Run>, Error>)
    ensures
        run@.len() == 0 ==> r == Ok::<Option<Run>, Error>(None),
        run@.len() > 0 && valid_argv(run@) ==> (r matches Ok(Some(x)) && x@ == run@),
        run@.len() > 0 && !valid_argv(run@) ==> r == Err::<Option<Run>, Error>(Error::Field(FieldParseError::Run)),
{
    if run.len() == 0 {
        return Ok(None);
    }
    match Run::new(run) {
        Ok(x) => Ok(Some(x)),
        Err(e) => Err(Error::Field(e)),
    }
}

/// What `char::to_lowercase` yields for a character.
pub uninterp spec fn lowercase_of(c: char) -> Seq<char>;

/// The lowercase mapping of a character with `char::to_lowercase` (one or more characters).
///
/// Trusted: the characters are std's lowercase mapping of `c`.
#[verifier::external_body]
fn char_lowercase(c: char) -> (r: Vec<char>)
    ensures
        r@ == lowercase_of(c),
{
    c.to_lowercase().collect()
}

/// The title lowercased character by character.
pub open spec fn lowered(s: Seq<char>) -> Seq<char>
    decreases s.len(),
{
    if s.len() == 0 {
        Seq::empty()
    } else {
        lowered(s.drop_last()) + lowercase_of(s.last())
    }
}

/// The slug of lowercased text: ASCII letters and digits kept, each run of other characters after
/// the first kept one turned into one `-`.
pub open spec fn slug_scan(s: Seq<char>) -> (Seq<char>, bool)
    decreases s.len(),
{
    if s.len() == 0 {
        (Seq::empty(), false)
    } else {
        let (prev, last_dash) = slug_scan(s.drop_last());
        let c = s.last();
        if crate::text::is_ascii_alphanumeric(c) {
            (prev.push(c), false)
        } else if !last_dash && prev.len() > 0 {
            (prev.push('-'), true)
        } else {
            (prev, last_dash)
        }
    }
}

/// The block id made from a title: the slug without a trailing `-`, or `block` when empty.
pub open spec fn slug_of(title: Seq<char>) -> Seq<char> {
    let s = slug_scan(lowered(title)).0;
    let s2 = if s.len() > 0 && s.last() == '-' { s.drop_last() } else { s };
    if s2.len() == 0 {
        "block"@
    } else {
        s2
    }
}

proof fn lemma_slug_scan_chars(s: Seq<char>)
    ensures
        forall|i: int| 0 <= i < slug_scan(s).0.len() ==> crate::model::block_id_char(#[trigger] slug_scan(s).0[i]),
    decreases s.len(),
{
    if s.len() > 0 {
        lemma_slug_scan_chars(s.drop_last());
        let prev = slug_scan(s.drop_last()).0;
        assert forall|i: int| 0 <= i < prev.len() implies crate::model::block_id_char(#[trigger] prev.push(s.last())[i])
            && crate::model::block_id_char(#[trigger] prev.push('-')[i]) by {
            assert(prev.push(s.last())[i] == prev[i]);
            assert(prev.push('-')[i] == prev[i]);
        }
    }
}

/// A title's slug is always a valid block id.
pub proof fn lemma_slug_valid(title: Seq<char>)
    ensures
        crate::model::valid_block_id(slug_of(title)),
{
    reveal_strlit("block");
    let s = slug_scan(lowered(title)).0;
    lemma_slug_scan_chars(lowered(title));
    let s2 = if s.len() > 0 && s.last() == '-' { s.drop_last() } else { s };
    assert forall|i: int| 0 <= i < s2.len() implies crate::model::block_id_char(#[trigger] s2[i]) by {
        assert(s2[i] == s[i]);
    }
}

/// The maximal runs of ASCII letters and digits in `s`, in order.
pub open spec fn alnum_runs(s: Seq<char>) -> Seq<Seq<char>>
    decreases s.len(),
{
    if s.len() == 0 {
        Seq::empty()
    } else {
        let prev = alnum_runs(s.drop_last());
        let c = s.last();
        if !crate::text::is_ascii_alphanumeric(c) {
            prev
        } else if s.len() > 1 && crate::text::is_ascii_alphanumeric(s[s.len() - 2]) {
            prev.update(prev.len() - 1, prev.last().push(c))
        } else {
            prev.push(seq![c])
        }
    }
}

/// Every run is non-empty and made of ASCII letters and digits, and text that ends in one has
/// at least one run.
proof fn lemma_alnum_runs_shape(s: Seq<char>)
    ensures
        forall|i: int| 0 <= i < alnum_runs(s).len() ==> #[trigger] alnum_runs(s)[i].len() > 0,
        forall|i: int, j: int| 0 <= i < alnum_runs(s).len() && 0 <= j < alnum_runs(s)[i].len()
            ==> crate::text::is_ascii_alphanumeric(#[trigger] alnum_runs(s)[i][j]),
        s.len() > 0 && crate::text::is_ascii_alphanumeric(s.last()) ==> alnum_runs(s).len() > 0,
    decreases s.len(),
{
    if s.len() > 0 {
        let t = s.drop_last();
        lemma_alnum_runs_shape(t);
        let prev = alnum_runs(t);
        let c = s.last();
        if crate::text::is_ascii_alphanumeric(c) {
            if s.len() > 1 && crate::text::is_ascii_alphanumeric(s[s.len() - 2]) {
                assert(t.last() == s[s.len() - 2]);
                let r = prev.update(prev.len() - 1, prev.last().push(c));
                assert forall|i: int, j: int| 0 <= i < r.len() && 0 <= j < r[i].len()
                    implies crate::text::is_ascii_alphanumeric(#[trigger] r[i][j]) by {
                    if i < prev.len() - 1 {
                        assert(r[i] == prev[i]);
                    } else if j < prev.last().len() {
                        assert(r[i][j] == prev[prev.len() - 1][j]);
                    }
                }
            } else {
                let r = prev.push(seq![c]);
                assert forall|i: int, j: int| 0 <= i < r.len() && 0 <= j < r[i].len()
                    implies crate::text::is_ascii_alphanumeric(#[trigger] r[i][j]) by {
                    if i < prev.len() {
                        assert(r[i] == prev[i]);
                    }
                }
            }
        }
    }
}

/// Joining one more piece adds a separator and the piece.
proof fn lemma_join_push(v: Seq<Seq<char>>, x: Seq<char>, sep: char)
    ensures
        join_with(v.push(x), sep) == if v.len() == 0 { x } else { join_with(v, sep) + seq![sep] + x },
{
    assert(v.push(x).drop_last() == v);
    assert(v.push(x).last() == x);
}

/// Extending the last piece extends the joined text.
proof fn lemma_join_extend_last(v: Seq<Seq<char>>, c: char, sep: char)
    requires
        v.len() > 0,
    ensures
        join_with(v.update(v.len() - 1, v.last().push(c)), sep) == join_with(v, sep).push(c),
{
    let w = v.update(v.len() - 1, v.last().push(c));
    if v.len() == 1 {
        assert(w[0] == v[0].push(c));
    } else {
        assert(w.drop_last() == v.drop_last());
        assert(w.last() == v.last().push(c));
        assert(join_with(v, sep) == join_with(v.drop_last(), sep) + seq![sep] + v.last());
        assert((join_with(v.drop_last(), sep) + seq![sep] + v.last()).push(c)
            == join_with(v.drop_last(), sep) + seq![sep] + v.last().push(c));
    }
}

/// Joined runs end with the last run's last character.
proof fn lemma_join_last(v: Seq<Seq<char>>, sep: char)
    requires
        v.len() > 0,
        v.last().len() > 0,
    ensures
        join_with(v, sep).len() > 0,
        join_with(v, sep).last() == v.last().last(),
{
}

/// The scan behind the slug keeps the runs joined by `-`, with one trailing `-` exactly when text
/// after the first run ends in other characters.
proof fn lemma_slug_scan_runs(s: Seq<char>)
    ensures
        slug_scan(s).1 == (alnum_runs(s).len() > 0 && !crate::text::is_ascii_alphanumeric(s.last())),
        slug_scan(s).0 == join_with(alnum_runs(s), '-') + (if slug_scan(s).1 { seq!['-'] } else { Seq::empty() }),
    decreases s.len(),
{
    if s.len() > 0 {
        let t = s.drop_last();
        lemma_slug_scan_runs(t);
        lemma_alnum_runs_shape(t);
        let prev = alnum_runs(t);
        let c = s.last();
        let (p, d) = slug_scan(t);
        if crate::text::is_ascii_alphanumeric(c) {
            if s.len() > 1 && crate::text::is_ascii_alphanumeric(s[s.len() - 2]) {
                assert(t.last() == s[s.len() - 2]);
                assert(!d);
                assert(p == join_with(prev, '-'));
                lemma_join_extend_last(prev, c, '-');
            } else {
                lemma_join_push(prev, seq![c], '-');
                if t.len() > 0 {
                    assert(t.last() == s[s.len() - 2]);
                }
                if d {
                    assert(p.push(c) == join_with(prev, '-') + seq!['-'] + seq![c]);
                } else {
                    assert(prev.len() == 0);
                    assert(p == Seq::<char>::empty());
                    assert(p.push(c) == seq![c]);
                }
            }
        } else if !d {
            assert(p == join_with(prev, '-'));
            if prev.len() > 0 {
                lemma_join_last(prev, '-');
            } else {
                assert(p.len() == 0);
            }
        }
    }
}

/// A title's slug is the maximal runs of ASCII letters and digits in the lowercased title,
/// joined by `-`; `block` when there are none.
pub proof fn slug_is_joined_runs(title: Seq<char>)
    ensures
        slug_of(title) == (if alnum_runs(lowered(title)).len() == 0 {
            "block"@
        } else {
            join_with(alnum_runs(lowered(title)), '-')
        }),
{
    let low = lowered(title);
    let runs = alnum_runs(low);
    lemma_slug_scan_runs(low);
    lemma_alnum_runs_shape(low);
    let (p, d) = slug_scan(low);
    if d {
        assert(p.drop_last() == join_with(runs, '-'));
        lemma_join_last(runs, '-');
        assert(p.last() == '-');
    } else {
        assert(p == join_with(runs, '-'));
        if runs.len() > 0 {
            lemma_join_last(runs, '-');
            assert(crate::text::is_ascii_alphanumeric(runs.last()[runs.last().len() - 1]));
        }
    }
}

/// Derives a block id from a title: its slug, always a valid id.
pub fn slug_block_id(title: &str) -> (r: Result<BlockId, Error>)
    ensures
        r matches Ok(id) && id@ == slug_of(title@),
{
    proof {
        lemma_slug_valid(title@);
    }
    let t = chars_of(title);
    let mut low: Vec<char> = Vec::new();
    let mut i: usize = 0;
    while i < t.len()
        invariant
            i <= t@.len(),
            low@ == lowered(t@.take(i as int)),
        decreases t.len() - i,
    {
        assert(t@.take(i as int + 1).drop_last() == t@.take(i as int));
        let l = char_lowercase(t[i]);
        push_all(&mut low, l.as_slice());
        i = i + 1;
    }
    assert(t@.take(t@.len() as int) == t@);
    let mut slug: Vec<char> = Vec::new();
    let mut last_dash = false;
    let mut k: usize = 0;
    while k < low.len()
        invariant
            k <= low@.len(),
            (slug@, last_dash) == slug_scan(low@.take(k as int)),
        decreases low.len() - k,
    {
        assert(low@.take(k as int + 1).drop_last() == low@.take(k as int));
        let c = low[k];
        if crate::text::ascii_alphanumeric(c) {
            slug.push(c);
            last_dash = false;
        } else if !last_dash && slug.len() > 0 {
            slug.push('-');
            last_dash = true;
        }
        k = k + 1;
    }
    assert(low@.take(low@.len() as int) == low@);
    if slug.len() > 0 && slug[slug.len() - 1] == '-' {
        slug.pop();
    }
    if slug.len() == 0 {
        push_str(&mut slug, "block");
    }
    match BlockId::new(string_of(slug.as_slice())) {
        Ok(id) => Ok(id),
        Err(e) => Err(Error::Field(e)),
    }
}

/// The backend id of a trigger: `DATE-HASH-REV-EVENT`, with `HASH` the first ten hex digits of
/// the hash of the block id.
pub open spec fn backend_id_text(date: crate::civil::PlanDate, id: Seq<char>, event: crate::lifecycle::Event, rev: Seq<char>) -> Seq<char> {
    date.spec_text() + seq!['-'] + crate::model::blake3_hex_of(id).take(10) + seq!['-'] + rev + seq!['-'] + crate::lifecycle::event_text(event)
}

pub fn backend_id_for(date: &crate::civil::PlanDate, id: &BlockId, event: crate::lifecycle::Event, rev: &crate::model::ScheduleRev) -> (r: String)
    ensures
        r@ == backend_id_text(*date, id@, event, rev@),
{
    let hex = crate::model::block_id_hash_hex(id);
    let hv = chars_of(hex.as_str());
    let mut out: Vec<char> = date.text_chars();
    out.push('-');
    let mut k: usize = 0;
    let ghost start = out@;
    while k < 10
        invariant
            k <= 10,
            hv@.len() == 64,
            out@ == start + hv@.take(k as int),
        decreases 10 - k,
    {
        out.push(hv[k]);
        assert(hv@.take(k as int + 1) == hv@.take(k as int).push(hv@[k as int]));
        k = k + 1;
    }
    out.push('-');
    push_str(&mut out, rev.as_str());
    out.push('-');
    push_str(&mut out, event.as_str());
    string_of(out.as_slice())
}

// ── Plan edits ─────────────────────────────────────────────────────────────

/// ``block `ID` `` as the not-found message names it.
pub open spec fn block_label(id: Seq<char>) -> Seq<char> {
    "block `"@ + id + "`"@
}

fn block_not_found(id: &BlockId) -> (r: Error)
    ensures
        r matches Error::NotFound(m) && m@ == block_label(id@),
{
    let mut m: Vec<char> = Vec::new();
    push_str(&mut m, "block `");
    push_str(&mut m, id.as_str());
    push_str(&mut m, "`");
    Error::NotFound(string_of(m.as_slice()))
}

fn find_block(plan: &Plan, id: &BlockId) -> (r: Option<usize>)
    ensures
        r matches Some(i) ==> first_with_id(plan.blocks@, id@) == Some(i as int) && i < plan.blocks@.len(),
        r is None ==> first_with_id(plan.blocks@, id@) is None,
{
    let mut j: usize = 0;
    while j < plan.blocks.len()
        invariant
            j <= plan.blocks@.len(),
            forall|k: int| 0 <= k < j ==> plan.blocks@[k].id@ != id@,
        decreases plan.blocks.len() - j,
    {
        if plan.blocks[j].id.same(id) {
            proof {
                lemma_first_with_id(plan.blocks@, id@);
            }
            return Some(j);
        }
        j = j + 1;
    }
    proof {
        lemma_first_with_id(plan.blocks@, id@);
    }
    None
}

/// Adds a block, or replaces the first block with its id unless that one is terminal.
pub fn upsert_block(plan: &mut Plan, block: Block) -> (r: Result<(), Error>)
    ensures
        final(plan).date == old(plan).date,
        final(plan).timezone == old(plan).timezone,
        match first_with_id(old(plan).blocks@, block.id@) {
            None => r is Ok && final(plan).blocks@ == old(plan).blocks@.push(block),
            Some(i) => if status_terminal(old(plan).blocks@[i].status) {
                r matches Err(Error::HistoryConflict { id }) && id@ == block.id@ && final(plan).blocks@ == old(plan).blocks@
            } else {
                r is Ok && final(plan).blocks@ == old(plan).blocks@.update(i, block)
            },
        },
{
    match find_block(plan, &block.id) {
        None => {
            plan.blocks.push(block);
            Ok(())
        },
        Some(i) => {
            if plan.blocks[i].status.is_terminal() {
                return Err(Error::HistoryConflict { id: block.id.copied() });
            }
            plan.blocks.set(i, block);
            Ok(())
        },
    }
}

/// Removes the first block with `id`, unless it is missing or terminal.
pub fn remove_block(plan: &mut Plan, id: &BlockId) -> (r: Result<(), Error>)
    ensures
        final(plan).date == old(plan).date,
        final(plan).timezone == old(plan).timezone,
        match first_with_id(old(plan).blocks@, id@) {
            None => r matches Err(Error::NotFound(m)) && m@ == block_label(id@) && final(plan).blocks@ == old(plan).blocks@,
            Some(i) => if status_terminal(old(plan).blocks@[i].status) {
                r matches Err(Error::HistoryConflict { id: got }) && got@ == old(plan).blocks@[i].id@ && final(plan).blocks@ == old(plan).blocks@
            } else {
                r is Ok && final(plan).blocks@ == old(plan).blocks@.remove(i)
            },
        },
{
    match find_block(plan, id) {
        None => Err(block_not_found(id)),
        Some(i) => {
            if plan.blocks[i].status.is_terminal() {
                return Err(Error::HistoryConflict { id: plan.blocks[i].id.copied() });
            }
            plan.blocks.remove(i);
            Ok(())
        },
    }
}

/// Sets the status of the first block with `id`; a terminal status may only be set again.
pub fn set_block_status(plan: &mut Plan, id: &BlockId, status: Status) -> (r: Result<(), Error>)
    ensures
        final(plan).date == old(plan).date,
        final(plan).timezone == old(plan).timezone,
        match first_with_id(old(plan).blocks@, id@) {
            None => r matches Err(Error::NotFound(m)) && m@ == block_label(id@) && final(plan).blocks@ == old(plan).blocks@,
            Some(i) => if status_terminal(old(plan).blocks@[i].status) && old(plan).blocks@[i].status != status {
                r matches Err(Error::HistoryConflict { id: got }) && got@ == id@ && final(plan).blocks@ == old(plan).blocks@
            } else {
                r is Ok && final(plan).blocks@ == old(plan).blocks@.update(i, with_status(old(plan).blocks@[i], status))
            },
        },
{
    match find_block(plan, id) {
        None => Err(block_not_found(id)),
        Some(i) => {
            let current = plan.blocks[i].status;
            if current.is_terminal() && current != status {
                return Err(Error::HistoryConflict { id: id.copied() });
            }
            let mut b = plan.blocks.remove(i);
            b.status = status;
            plan.blocks.insert(i, b);
            Ok(())
        },
    }
}

/// Applies status updates to the blocks they name (the last update for an id wins); says
/// whether there were any.
pub fn apply_status_updates(plan: &mut Plan, updates: &[StatusUpdate]) -> (r: bool)
    ensures
        r == (updates@.len() > 0),
        final(plan).date == old(plan).date,
        final(plan).timezone == old(plan).timezone,
        final(plan).blocks@.len() == old(plan).blocks@.len(),
        forall|k: int| 0 <= k < old(plan).blocks@.len() ==> #[trigger] final(plan).blocks@[k] == settled(updates@, old(plan).blocks@[k]),
{
    if updates.len() == 0 {
        proof {
            assert forall|k: int| 0 <= k < old(plan).blocks@.len() implies #[trigger] plan.blocks@[k] == settled(updates@, old(plan).blocks@[k]) by {
                lemma_updated_status_none(updates@, old(plan).blocks@[k].id@, old(plan).blocks@[k].status);
            }
        }
        return false;
    }
    let ghost orig = plan.blocks@;
    let mut i: usize = 0;
    while i < plan.blocks.len()
        invariant
            i <= plan.blocks@.len() == orig.len(),
            plan.date == old(plan).date,
            plan.timezone == old(plan).timezone,
            orig == old(plan).blocks@,
            forall|k: int| 0 <= k < i ==> #[trigger] plan.blocks@[k] == settled(updates@, orig[k]),
            forall|k: int| i <= k < orig.len() ==> #[trigger] plan.blocks@[k] == orig[k],
        decreases plan.blocks.len() - i,
    {
        let st = status_for(updates, &plan.blocks[i].id, plan.blocks[i].status);
        let mut b = plan.blocks.remove(i);
        b.status = st;
        plan.blocks.insert(i, b);
        i = i + 1;
    }
    true
}

/// The block with another status.
pub open spec fn with_status(b: Block, status: Status) -> Block {
    Block { status, ..b }
}

/// The block with the status the updates give it.
pub open spec fn settled(updates: Seq<StatusUpdate>, b: Block) -> Block {
    with_status(b, updated_status(updates, b.id@, b.status))
}

/// The status the last update naming `id` gives, or `current` when none names it.
pub open spec fn updated_status(updates: Seq<StatusUpdate>, id: Seq<char>, current: Status) -> Status
    decreases updates.len(),
{
    if updates.len() == 0 {
        current
    } else if updates.last().id@ == id {
        updates.last().status
    } else {
        updated_status(updates.drop_last(), id, current)
    }
}

proof fn lemma_updated_status_none(updates: Seq<StatusUpdate>, id: Seq<char>, current: Status)
    requires
        updates.len() == 0,
    ensures
        updated_status(updates, id, current) == current,
{
}

fn status_for(updates: &[StatusUpdate], id: &BlockId, current: Status) -> (r: Status)
    ensures
        r == updated_status(updates@, id@, current),
{
    let mut k: usize = updates.len();
    assert(updates@.take(k as int) == updates@);
    while k > 0 && !updates[k - 1].id.same(id)
        invariant
            k <= updates@.len(),
            updated_status(updates@, id@, current) == updated_status(updates@.take(k as int), id@, current),
        decreases k,
    {
        assert(updates@.take(k as int).drop_last() == updates@.take(k as int - 1));
        k = k - 1;
    }
    if k == 0 {
        current
    } else {
        updates[k - 1].status
    }
}

// ── Trigger planning ───────────────────────────────────────────────────────

/// A trigger over plain values.
pub struct TriggerView {
    pub backend_id: Seq<char>,
    pub date: crate::civil::PlanDate,
    pub block_id: Seq<char>,
    pub event: Event,
    pub rev: Seq<char>,
    pub scheduled_at: int,
}

pub open spec fn trigger_view(t: TriggerRecord) -> TriggerView {
    TriggerView {
        backend_id: t.backend_id@,
        date: t.date,
        block_id: t.block_id@,
        event: t.event,
        rev: t.rev@,
        scheduled_at: t.scheduled_at.spec_nanos(),
    }
}

pub open spec fn trigger_entries(v: Seq<TriggerRecord>) -> Seq<(Seq<char>, TriggerView)> {
    Seq::new(v.len(), |i: int| (v[i].backend_id@, trigger_view(v[i])))
}

pub open spec fn planned_trigger(plan: Plan, b: Block, event: Event, at: int) -> (Seq<char>, TriggerView) {
    let id = backend_id_text(plan.date, b.id@, event, b.spec_rev());
    (id, TriggerView { backend_id: id, date: plan.date, block_id: b.id@, event, rev: b.spec_rev(), scheduled_at: at })
}

/// The triggers one open block wants, in order start, end, notify: each event whose instant is
/// after `now` (notify only when the lead is positive).
pub open spec fn block_triggers(plan: Plan, b: Block, start: int, end: int, now: int) -> Seq<(Seq<char>, TriggerView)> {
    let notify_at = start - b.notify.spec_seconds() * 1000000000;
    (if start > now { seq![planned_trigger(plan, b, Event::Start, start)] } else { Seq::empty() })
        + (if end > now { seq![planned_trigger(plan, b, Event::End, end)] } else { Seq::empty() })
        + (if notify_at < start && notify_at > now { seq![planned_trigger(plan, b, Event::Notify, notify_at)] } else { Seq::empty() })
}

/// The triggers the first `n` blocks want, in plan order; terminal blocks want none.
pub open spec fn planned_triggers(plan: Plan, starts: Seq<Timestamp>, ends: Seq<Timestamp>, now: Timestamp, n: int) -> Seq<(Seq<char>, TriggerView)>
    decreases n,
{
    if n <= 0 {
        Seq::empty()
    } else {
        let b = plan.blocks@[n - 1];
        planned_triggers(plan, starts, ends, now, n - 1) + if status_terminal(b.status) {
            Seq::empty()
        } else {
            block_triggers(plan, b, starts[n - 1].spec_nanos(), ends[n - 1].spec_nanos(), now.spec_nanos())
        }
    }
}

/// The instant event `e` of block `k` happens at: its start, its end, or its lead before its
/// start for the notification.
pub open spec fn event_instant(plan: Plan, starts: Seq<Timestamp>, ends: Seq<Timestamp>, k: int, e: Event) -> int {
    match e {
        Event::Start => starts[k].spec_nanos(),
        Event::End => ends[k].spec_nanos(),
        Event::Notify => starts[k].spec_nanos() - plan.blocks@[k].notify.spec_seconds() * 1000000000,
    }
}

/// Event `e` of block `k` is one to schedule: the block is open, the event's instant is still
/// ahead of `now`, and a notification needs a positive lead.
pub open spec fn event_ahead(plan: Plan, starts: Seq<Timestamp>, ends: Seq<Timestamp>, now: Timestamp, k: int, e: Event) -> bool {
    &&& 0 <= k < plan.blocks@.len()
    &&& !status_terminal(plan.blocks@[k].status)
    &&& event_instant(plan, starts, ends, k, e) > now.spec_nanos()
    &&& (e == Event::Notify ==> plan.blocks@[k].notify.spec_seconds() > 0)
}

/// `t` is the trigger of event `t.event` of block `k`: for that block, on the plan's date, with
/// its revision, at the event's instant, and the event is one to schedule.
pub open spec fn is_block_event(plan: Plan, starts: Seq<Timestamp>, ends: Seq<Timestamp>, now: Timestamp, t: TriggerView, k: int) -> bool {
    &&& event_ahead(plan, starts, ends, now, k, t.event)
    &&& t.block_id == plan.blocks@[k].id@
    &&& t.date == plan.date
    &&& t.rev == plan.blocks@[k].spec_rev()
    &&& t.scheduled_at == event_instant(plan, starts, ends, k, t.event)
}

/// `t` is the trigger of an event of one of the plan's blocks (see `is_block_event`).
pub open spec fn event_of_some_block(plan: Plan, starts: Seq<Timestamp>, ends: Seq<Timestamp>, now: Timestamp, t: TriggerView) -> bool {
    exists|k: int| is_block_event(plan, starts, ends, now, t, k)
}

proof fn lemma_block_triggers_parts(plan: Plan, b: Block, start: int, end: int, now: int)
    ensures
        block_triggers(plan, b, start, end, now) == (if start > now { seq![planned_trigger(plan, b, Event::Start, start)] } else { Seq::empty() })
            + (if end > now { seq![planned_trigger(plan, b, Event::End, end)] } else { Seq::empty() })
            + (if start - b.notify.spec_seconds() * 1000000000 < start && start - b.notify.spec_seconds() * 1000000000 > now {
                seq![planned_trigger(plan, b, Event::Notify, start - b.notify.spec_seconds() * 1000000000)]
            } else {
                Seq::empty()
            }),
{
}

/// Every trigger a plan wants is an event of one of its open blocks, at that event's instant:
/// a start trigger at the block's start, an end trigger at its end, and a notification exactly
/// the block's lead before its start (and only for a positive lead); each is still ahead of `now`.
#[verifier::spinoff_prover]
#[verifier::rlimit(40)]
pub proof fn planned_triggers_are_block_events(plan: Plan, starts: Seq<Timestamp>, ends: Seq<Timestamp>, now: Timestamp, n: int)
    requires
        0 <= n <= plan.blocks@.len(),
        starts.len() == plan.blocks@.len(),
        ends.len() == plan.blocks@.len(),
    ensures
        forall|p: int| 0 <= p < planned_triggers(plan, starts, ends, now, n).len()
            ==> event_of_some_block(plan, starts, ends, now, (#[trigger] planned_triggers(plan, starts, ends, now, n)[p]).1),
    decreases n,
{
    if n > 0 {
        planned_triggers_are_block_events(plan, starts, ends, now, n - 1);
        let b = plan.blocks@[n - 1];
        let start = starts[n - 1].spec_nanos();
        let end = ends[n - 1].spec_nanos();
        let bt = block_triggers(plan, b, start, end, now.spec_nanos());
        lemma_block_triggers_parts(plan, b, start, end, now.spec_nanos());
        assert(!status_terminal(b.status) ==> planned_triggers(plan, starts, ends, now, n) == planned_triggers(plan, starts, ends, now, n - 1) + bt);
        assert(status_terminal(b.status) ==> planned_triggers(plan, starts, ends, now, n) == planned_triggers(plan, starts, ends, now, n - 1));
        assert forall|p: int| 0 <= p < planned_triggers(plan, starts, ends, now, n).len()
            implies event_of_some_block(plan, starts, ends, now, (#[trigger] planned_triggers(plan, starts, ends, now, n)[p]).1) by {
            let prev = planned_triggers(plan, starts, ends, now, n - 1);
            if p < prev.len() {
                assert(planned_triggers(plan, starts, ends, now, n)[p] == prev[p]);
                assert(event_of_some_block(plan, starts, ends, now, prev[p].1));
            } else {
                assert(planned_triggers(plan, starts, ends, now, n)[p] == bt[p - prev.len()]);
                assert(is_block_event(plan, starts, ends, now, planned_triggers(plan, starts, ends, now, n)[p].1, n - 1));
            }
        }
    }
}

/// Every event of an open block that is still ahead of `now` is among the triggers the plan
/// wants: its start, its end, and its notification when the lead is positive.
pub proof fn open_block_events_ahead_are_planned(plan: Plan, starts: Seq<Timestamp>, ends: Seq<Timestamp>, now: Timestamp, n: int)
    requires
        0 <= n <= plan.blocks@.len(),
        starts.len() == plan.blocks@.len(),
        ends.len() == plan.blocks@.len(),
    ensures
        forall|k: int, e: Event| 0 <= k < n && #[trigger] event_ahead(plan, starts, ends, now, k, e)
            ==> exists|p: int| 0 <= p < planned_triggers(plan, starts, ends, now, n).len()
                && is_block_event(plan, starts, ends, now, planned_triggers(plan, starts, ends, now, n)[p].1, k)
                && planned_triggers(plan, starts, ends, now, n)[p].1.event == e,
    decreases n,
{
    if n > 0 {
        open_block_events_ahead_are_planned(plan, starts, ends, now, n - 1);
        let prev = planned_triggers(plan, starts, ends, now, n - 1);
        let all = planned_triggers(plan, starts, ends, now, n);
        let b = plan.blocks@[n - 1];
        assert forall|k: int, e: Event| 0 <= k < n && #[trigger] event_ahead(plan, starts, ends, now, k, e)
            implies exists|p: int| 0 <= p < all.len() && is_block_event(plan, starts, ends, now, all[p].1, k) && all[p].1.event == e by {
            if k < n - 1 {
                let p = choose|p: int| 0 <= p < prev.len() && is_block_event(plan, starts, ends, now, prev[p].1, k) && prev[p].1.event == e;
                assert(all[p] == prev[p]);
            } else {
                let start = starts[n - 1].spec_nanos();
                let end = ends[n - 1].spec_nanos();
                let bt = block_triggers(plan, b, start, end, now.spec_nanos());
                lemma_block_triggers_parts(plan, b, start, end, now.spec_nanos());
                assert(all == prev + bt);
                let s1: Seq<(Seq<char>, TriggerView)> = if start > now.spec_nanos() { seq![planned_trigger(plan, b, Event::Start, start)] } else { Seq::empty() };
                let s2: Seq<(Seq<char>, TriggerView)> = if end > now.spec_nanos() { seq![planned_trigger(plan, b, Event::End, end)] } else { Seq::empty() };
                let q: int = match e {
                    Event::Start => 0,
                    Event::End => s1.len() as int,
                    Event::Notify => (s1.len() + s2.len()) as int,
                };
                assert(all[prev.len() + q] == bt[q]);
                assert(is_block_event(plan, starts, ends, now, all[prev.len() + q].1, k));
            }
        }
    }
}

/// The notification instant of every open block is representable.
pub open spec fn notify_instants_ok(plan: Plan, starts: Seq<Timestamp>) -> bool {
    forall|k: int| 0 <= k < plan.blocks@.len() && !status_terminal(#[trigger] plan.blocks@[k].status)
        ==> crate::time::min_nanos() <= starts[k].spec_nanos() - plan.blocks@[k].notify.spec_seconds() * 1000000000
}

fn push_trigger(
    out: &mut Vec<TriggerRecord>,
    plan: &Plan,
    b: &Block,
    rev: &crate::model::ScheduleRev,
    event: Event,
    at: Timestamp,
    Ghost(src): Ghost<Seq<(Seq<char>, TriggerView)>>,
)
    requires
        crate::model::is_key_sorting(src, trigger_entries(old(out)@)),
        rev@ == b.spec_rev(),
    ensures
        crate::model::is_key_sorting(src.push(planned_trigger(*plan, *b, event, at.spec_nanos())), trigger_entries(final(out)@)),
{
    let t = TriggerRecord {
        backend_id: backend_id_for(&plan.date, &b.id, event, rev),
        date: plan.date,
        block_id: b.id.copied(),
        event,
        rev: rev.copied(),
        scheduled_at: at,
    };
    let ghost e = (t.backend_id@, trigger_view(t));
    assert(e == planned_trigger(*plan, *b, event, at.spec_nanos()));
    let key = chars_of(t.backend_id.as_str());
    let ghost old_v = trigger_entries(out@);
    let mut p: usize = out.len();
    while p > 0 && crate::text::chars_lt(key.as_slice(), chars_of(out[p - 1].backend_id.as_str()).as_slice())
        invariant
            p <= out@.len(),
            old_v == trigger_entries(out@),
            key@ == e.0,
            forall|q: int| p <= q < out@.len() ==> crate::text::seq_lt(e.0, #[trigger] old_v[q].0),
        decreases p,
    {
        p = p - 1;
    }
    out.insert(p, t);
    proof {
        assert(trigger_entries(out@) == old_v.insert(p as int, e));
        crate::model::lemma_key_sorting_insert(src, old_v, e, p as int);
    }
}

/// The triggers the plan wants after `now`, given its blocks' start and end instants, ordered by
/// backend id.
#[verifier::spinoff_prover]
#[verifier::rlimit(40)]
pub fn desired_triggers_at(plan: &Plan, starts: &Vec<Timestamp>, ends: &Vec<Timestamp>, now: Timestamp) -> (r: Result<Vec<TriggerRecord>, Error>)
    requires
        starts@.len() == plan.blocks@.len(),
        ends@.len() == plan.blocks@.len(),
    ensures
        r is Ok <==> notify_instants_ok(*plan, starts@),
        r matches Ok(v) ==> crate::model::is_key_sorting(planned_triggers(*plan, starts@, ends@, now, plan.blocks@.len() as int), trigger_entries(v@)),
        r matches Ok(v) ==> forall|p: int| 0 <= p < v@.len()
            ==> event_of_some_block(*plan, starts@, ends@, now, trigger_view(#[trigger] v@[p])),
        r matches Ok(v) ==> forall|k: int, e: Event| #[trigger] event_ahead(*plan, starts@, ends@, now, k, e)
            ==> exists|p: int| 0 <= p < v@.len() && is_block_event(*plan, starts@, ends@, now, trigger_view(v@[p]), k)
                && v@[p].event == e,
{
    let mut out: Vec<TriggerRecord> = Vec::new();
    let ghost mut src: Seq<(Seq<char>, TriggerView)> = Seq::empty();
    proof {
        crate::model::lemma_key_sorting_empty(src, trigger_entries(out@));
    }
    let mut i: usize = 0;
    while i < plan.blocks.len()
        invariant
            i <= plan.blocks@.len(),
            starts@.len() == plan.blocks@.len(),
            ends@.len() == plan.blocks@.len(),
            src == planned_triggers(*plan, starts@, ends@, now, i as int),
            crate::model::is_key_sorting(src, trigger_entries(out@)),
            forall|k: int| 0 <= k < i && !status_terminal(#[trigger] plan.blocks@[k].status)
                ==> crate::time::min_nanos() <= starts@[k].spec_nanos() - plan.blocks@[k].notify.spec_seconds() * 1000000000,
        decreases plan.blocks.len() - i,
    {
        let b = &plan.blocks[i];
        if !b.status.is_terminal() {
            let rev = b.schedule_rev();
            let start = starts[i];
            let end = ends[i];
            let lead = SignedDuration::from_secs(-(b.notify.as_seconds() as i64));
            start.assert_wf();
            let notify_at = match start.checked_add(lead) {
                Some(t) => t,
                None => {
                    let e = Error::Time(crate::time::TimeError::Resolve("notification instant out of range".to_owned()));
                    assert(!notify_instants_ok(*plan, starts@));
                    return Err(e);
                },
            };
            let ghost s0 = src;
            if now.lt(start) {
                push_trigger(&mut out, plan, b, &rev, Event::Start, start, Ghost(src));
                proof { src = src.push(planned_trigger(*plan, *b, Event::Start, start.spec_nanos())); }
            }
            if now.lt(end) {
                push_trigger(&mut out, plan, b, &rev, Event::End, end, Ghost(src));
                proof { src = src.push(planned_trigger(*plan, *b, Event::End, end.spec_nanos())); }
            }
            if notify_at.lt(start) && now.lt(notify_at) {
                push_trigger(&mut out, plan, b, &rev, Event::Notify, notify_at, Ghost(src));
                proof { src = src.push(planned_trigger(*plan, *b, Event::Notify, notify_at.spec_nanos())); }
            }
            proof {
                let bt = block_triggers(*plan, *b, start.spec_nanos(), end.spec_nanos(), now.spec_nanos());
                assert(src =~= s0 + bt);
            }
        }
        i = i + 1;
    }
    proof {
        let n = plan.blocks@.len() as int;
        planned_triggers_are_block_events(*plan, starts@, ends@, now, n);
        open_block_events_ahead_are_planned(*plan, starts@, ends@, now, n);
        let tv = trigger_entries(out@);
        reveal(crate::model::is_key_sorting);
        assert(crate::model::covers(src, tv));
        assert(crate::model::covers(tv, src));
        assert forall|p: int| 0 <= p < out@.len()
            implies event_of_some_block(*plan, starts@, ends@, now, trigger_view(#[trigger] out@[p])) by {
            assert(crate::model::found_in(src, tv, p));
            let j = choose|j: int| 0 <= j < src.len() && src[j] == tv[p];
            assert(src[j].1 == trigger_view(out@[p]));
            assert(event_of_some_block(*plan, starts@, ends@, now, src[j].1));
        }
        assert forall|k: int, e: Event| #[trigger] event_ahead(*plan, starts@, ends@, now, k, e)
            implies exists|p: int| 0 <= p < out@.len() && is_block_event(*plan, starts@, ends@, now, trigger_view(out@[p]), k)
                && out@[p].event == e by {
            let j = choose|j: int| 0 <= j < src.len() && is_block_event(*plan, starts@, ends@, now, src[j].1, k) && src[j].1.event == e;
            assert(crate::model::found_in(tv, src, j));
            let p = choose|p: int| 0 <= p < tv.len() && tv[p] == src[j];
            assert(tv[p].1 == trigger_view(out@[p]));
        }
    }
    Ok(out)
}

// ── Trigger reconciliation ─────────────────────────────────────────────────

/// A change the reconciliation makes to the installed triggers.
#[derive(Debug, Clone, PartialEq, Eq)]
pub enum ReconcileChange {
    Add(String),
    Remove(String),
}

pub open spec fn change_view(c: ReconcileChange) -> (bool, Seq<char>) {
    match c {
        ReconcileChange::Add(id) => (true, id@),
        ReconcileChange::Remove(id) => (false, id@),
    }
}

pub open spec fn changes_view(v: Seq<ReconcileChange>) -> Seq<(bool, Seq<char>)> {
    Seq::new(v.len(), |i: int| change_view(v[i]))
}

pub open spec fn has_id(v: Seq<TriggerRecord>, id: Seq<char>) -> bool {
    exists|i: int| 0 <= i < v.len() && #[trigger] v[i].backend_id@ == id
}

/// The installed trigger for `date` with `id` that counts (the last one).
pub open spec fn installed_for(v: Seq<TriggerRecord>, date: crate::civil::PlanDate, id: Seq<char>) -> Option<TriggerView>
    decreases v.len(),
{
    if v.len() == 0 {
        None
    } else if v.last().date == date && v.last().backend_id@ == id {
        Some(trigger_view(v.last()))
    } else {
        installed_for(v.drop_last(), date, id)
    }
}

/// The removals: the installed triggers of `date` no desired trigger shares an id with, in order.
pub open spec fn removals(current: Seq<TriggerRecord>, date: crate::civil::PlanDate, desired: Seq<TriggerRecord>) -> Seq<(bool, Seq<char>)>
    decreases current.len(),
{
    if current.len() == 0 {
        Seq::empty()
    } else {
        let t = current.last();
        removals(current.drop_last(), date, desired) + if t.date == date && !has_id(desired, t.backend_id@) {
            seq![(false, t.backend_id@)]
        } else {
            Seq::empty()
        }
    }
}

/// The additions: the desired triggers not installed as they are, in order.
pub open spec fn additions(current: Seq<TriggerRecord>, date: crate::civil::PlanDate, desired: Seq<TriggerRecord>) -> Seq<(bool, Seq<char>)>
    decreases desired.len(),
{
    if desired.len() == 0 {
        Seq::empty()
    } else {
        let t = desired.last();
        additions(current, date, desired.drop_last()) + if installed_for(current, date, t.backend_id@) != Some(trigger_view(t)) {
            seq![(true, t.backend_id@)]
        } else {
            Seq::empty()
        }
    }
}

fn same_trigger(a: &TriggerRecord, b: &TriggerRecord) -> (r: bool)
    ensures
        r == (trigger_view(*a) == trigger_view(*b)),
{
    proof {
        a.scheduled_at.lemma_nanos_determine(b.scheduled_at);
    }
    let ids = crate::text::chars_eq(chars_of(a.backend_id.as_str()).as_slice(), chars_of(b.backend_id.as_str()).as_slice());
    ids && a.date.same(&b.date) && a.block_id.same(&b.block_id) && a.event == b.event && a.rev.same(&b.rev)
        && a.scheduled_at.as_nanos() == b.scheduled_at.as_nanos()
}

fn same_id(a: &String, b: &String) -> (r: bool)
    ensures
        r == (a@ == b@),
{
    crate::text::chars_eq(chars_of(a.as_str()).as_slice(), chars_of(b.as_str()).as_slice())
}

/// The changes that bring the installed triggers of `date` to the desired ones: removals of
/// installed triggers no longer desired, then additions of desired triggers not installed as
/// they are.
pub fn reconcile_changes(current: &[TriggerRecord], date: &crate::civil::PlanDate, desired: &[TriggerRecord]) -> (r: Vec<ReconcileChange>)
    ensures
        changes_view(r@) == removals(current@, *date, desired@) + additions(current@, *date, desired@),
{
    let mut out: Vec<ReconcileChange> = Vec::new();
    let mut i: usize = 0;
    while i < current.len()
        invariant
            i <= current@.len(),
            changes_view(out@) == removals(current@.take(i as int), *date, desired@),
        decreases current.len() - i,
    {
        let t = &current[i];
        assert(current@.take(i as int + 1).drop_last() == current@.take(i as int));
        assert(current@.take(i as int + 1).last() == *t);
        if t.date.same(date) {
            let mut found = false;
            let mut k: usize = 0;
            while k < desired.len()
                invariant
                    k <= desired@.len(),
                    found == exists|x: int| 0 <= x < k && #[trigger] desired@[x].backend_id@ == t.backend_id@,
                decreases desired.len() - k,
            {
                if same_id(&desired[k].backend_id, &t.backend_id) {
                    found = true;
                }
                k = k + 1;
            }
            if !found {
                let ghost before = changes_view(out@);
                out.push(ReconcileChange::Remove(copy_string(&t.backend_id)));
                assert(changes_view(out@) =~= before.push((false, t.backend_id@)));
            }
        }
        assert(changes_view(out@) =~= removals(current@.take(i as int + 1), *date, desired@));
        i = i + 1;
    }
    assert(current@.take(current@.len() as int) == current@);
    let ghost rem = changes_view(out@);
    let mut j: usize = 0;
    while j < desired.len()
        invariant
            j <= desired@.len(),
            changes_view(out@) == rem + additions(current@, *date, desired@.take(j as int)),
        decreases desired.len() - j,
    {
        let t = &desired[j];
        assert(desired@.take(j as int + 1).drop_last() == desired@.take(j as int));
        assert(desired@.take(j as int + 1).last() == *t);
        let mut k: usize = current.len();
        assert(current@.take(k as int) == current@);
        while k > 0 && !(current[k - 1].date.same(date) && same_id(&current[k - 1].backend_id, &t.backend_id))
            invariant
                k <= current@.len(),
                installed_for(current@, *date, t.backend_id@) == installed_for(current@.take(k as int), *date, t.backend_id@),
            decreases k,
        {
            assert(current@.take(k as int).drop_last() == current@.take(k as int - 1));
            k = k - 1;
        }
        let unchanged = k > 0 && same_trigger(&current[k - 1], t);
        if !unchanged {
            let ghost before = changes_view(out@);
            out.push(ReconcileChange::Add(copy_string(&t.backend_id)));
            assert(changes_view(out@) =~= before.push((true, t.backend_id@)));
        }
        assert(changes_view(out@) =~= rem + additions(current@, *date, desired@.take(j as int + 1)));
        j = j + 1;
    }
    assert(desired@.take(desired@.len() as int) == desired@);
    out
}

/// The ledger after the removals, made in the order of `current`: each installed trigger of
/// `date` that no desired trigger shares an id with goes, with every entry of its id.
pub open spec fn after_removals(
    ledger: Seq<TriggerRecord>,
    current: Seq<TriggerRecord>,
    date: crate::civil::PlanDate,
    desired: Seq<TriggerRecord>,
) -> Seq<TriggerRecord>
    decreases current.len(),
{
    if current.len() == 0 {
        ledger
    } else {
        let t = current.last();
        let l = after_removals(ledger, current.drop_last(), date, desired);
        if t.date == date && !has_id(desired, t.backend_id@) {
            l.filter(other_ids(t.backend_id@))
        } else {
            l
        }
    }
}

/// The ledger after the additions, made in the order of `desired`: each desired trigger that
/// `current` does not hold as it is replaces the entries of its id.
pub open spec fn after_additions(
    ledger: Seq<TriggerRecord>,
    current: Seq<TriggerRecord>,
    date: crate::civil::PlanDate,
    desired: Seq<TriggerRecord>,
) -> Seq<TriggerRecord>
    decreases desired.len(),
{
    if desired.len() == 0 {
        ledger
    } else {
        let t = desired.last();
        let l = after_additions(ledger, current, date, desired.drop_last());
        if installed_for(current, date, t.backend_id@) != Some(trigger_view(t)) {
            l.filter(other_ids(t.backend_id@)).push(t)
        } else {
            l
        }
    }
}

/// The trigger ledger once the changes of a reconciliation are recorded in it, removals first:
/// each removal through `TriggerLedger::remove_trigger`, each addition through
/// `TriggerLedger::record_trigger`.
pub open spec fn reconciled_ledger(
    current: Seq<TriggerRecord>,
    date: crate::civil::PlanDate,
    desired: Seq<TriggerRecord>,
) -> Seq<TriggerRecord> {
    after_additions(after_removals(current, current, date, desired), current, date, desired)
}

proof fn lemma_installed_push(v: Seq<TriggerRecord>, t: TriggerRecord, date: crate::civil::PlanDate, id: Seq<char>)
    ensures
        installed_for(v.push(t), date, id) == if t.date == date && t.backend_id@ == id {
            Some(trigger_view(t))
        } else {
            installed_for(v, date, id)
        },
{
    assert(v.push(t).drop_last() == v);
    assert(v.push(t).last() == t);
}

proof fn lemma_drop_id_keeps_installed(v: Seq<TriggerRecord>, x: Seq<char>, date: crate::civil::PlanDate, id: Seq<char>)
    requires
        x != id,
    ensures
        installed_for(v.filter(other_ids(x)), date, id) == installed_for(v, date, id),
    decreases v.len(),
{
    reveal(Seq::filter);
    if v.len() > 0 {
        let pred = other_ids(x);
        lemma_drop_id_keeps_installed(v.drop_last(), x, date, id);
        let sub = v.drop_last().filter(pred);
        if pred(v.last()) {
            assert(v.filter(pred) == sub.push(v.last()));
            lemma_installed_push(sub, v.last(), date, id);
        } else {
            assert(v.filter(pred) == sub);
        }
    }
}

proof fn lemma_removals_keep_desired(
    ledger: Seq<TriggerRecord>,
    current: Seq<TriggerRecord>,
    date: crate::civil::PlanDate,
    desired: Seq<TriggerRecord>,
    id: Seq<char>,
)
    requires
        has_id(desired, id),
    ensures
        installed_for(after_removals(ledger, current, date, desired), date, id) == installed_for(ledger, date, id),
    decreases current.len(),
{
    if current.len() > 0 {
        lemma_removals_keep_desired(ledger, current.drop_last(), date, desired, id);
        let t = current.last();
        if t.date == date && !has_id(desired, t.backend_id@) {
            lemma_drop_id_keeps_installed(after_removals(ledger, current.drop_last(), date, desired), t.backend_id@, date, id);
        }
    }
}

proof fn lemma_removals_contents(
    ledger: Seq<TriggerRecord>,
    current: Seq<TriggerRecord>,
    date: crate::civil::PlanDate,
    desired: Seq<TriggerRecord>,
    y: TriggerRecord,
)
    requires
        after_removals(ledger, current, date, desired).contains(y),
    ensures
        ledger.contains(y),
        forall|j: int| 0 <= j < current.len() && #[trigger] current[j].date == date && !has_id(desired, current[j].backend_id@)
            ==> y.backend_id@ != current[j].backend_id@,
    decreases current.len(),
{
    broadcast use vstd::seq_lib::group_filter_ensures;

    if current.len() > 0 {
        let t = current.last();
        let prev = after_removals(ledger, current.drop_last(), date, desired);
        let pred = other_ids(t.backend_id@);
        if t.date == date && !has_id(desired, t.backend_id@) {
            prev.lemma_filter_contains_rev(pred, y);
            let k = choose|k: int| 0 <= k < prev.filter(pred).len() && prev.filter(pred)[k] == y;
            assert(pred(prev.filter(pred)[k]));
        }
        lemma_removals_contents(ledger, current.drop_last(), date, desired, y);
        assert forall|j: int| 0 <= j < current.len() && #[trigger] current[j].date == date && !has_id(desired, current[j].backend_id@)
            implies y.backend_id@ != current[j].backend_id@ by {
            if j < current.len() - 1 {
                assert(current.drop_last()[j] == current[j]);
            }
        }
    }
}

proof fn lemma_additions_contents(
    ledger: Seq<TriggerRecord>,
    current: Seq<TriggerRecord>,
    date: crate::civil::PlanDate,
    desired: Seq<TriggerRecord>,
    y: TriggerRecord,
)
    requires
        after_additions(ledger, current, date, desired).contains(y),
    ensures
        ledger.contains(y) || desired.contains(y),
    decreases desired.len(),
{
    if desired.len() > 0 {
        let t = desired.last();
        let prev = after_additions(ledger, current, date, desired.drop_last());
        let pred = other_ids(t.backend_id@);
        if installed_for(current, date, t.backend_id@) != Some(trigger_view(t)) {
            if y != t {
                let k = choose|k: int| 0 <= k < prev.filter(pred).push(t).len() && prev.filter(pred).push(t)[k] == y;
                assert(prev.filter(pred).contains(y));
                prev.lemma_filter_contains_rev(pred, y);
            } else {
                assert(desired[desired.len() - 1] == y);
            }
        }
        if prev.contains(y) {
            lemma_additions_contents(ledger, current, date, desired.drop_last(), y);
            if desired.drop_last().contains(y) {
                let k = choose|k: int| 0 <= k < desired.drop_last().len() && desired.drop_last()[k] == y;
                assert(desired[k] == y);
            }
        }
    }
}

proof fn lemma_additions_other(
    ledger: Seq<TriggerRecord>,
    current: Seq<TriggerRecord>,
    date: crate::civil::PlanDate,
    desired: Seq<TriggerRecord>,
    id: Seq<char>,
)
    requires
        forall|k: int| 0 <= k < desired.len() ==> #[trigger] desired[k].backend_id@ != id,
    ensures
        installed_for(after_additions(ledger, current, date, desired), date, id) == installed_for(ledger, date, id),
    decreases desired.len(),
{
    if desired.len() > 0 {
        let t = desired.last();
        assert(t == desired[desired.len() - 1]);
        let prev = after_additions(ledger, current, date, desired.drop_last());
        assert forall|k: int| 0 <= k < desired.drop_last().len() implies #[trigger] desired.drop_last()[k].backend_id@ != id by {
            assert(desired.drop_last()[k] == desired[k]);
        }
        lemma_additions_other(ledger, current, date, desired.drop_last(), id);
        if installed_for(current, date, t.backend_id@) != Some(trigger_view(t)) {
            let pred = other_ids(t.backend_id@);
            lemma_drop_id_keeps_installed(prev, t.backend_id@, date, id);
            lemma_installed_push(prev.filter(pred), t, date, id);
        }
    }
}

proof fn lemma_additions_own(
    ledger: Seq<TriggerRecord>,
    current: Seq<TriggerRecord>,
    date: crate::civil::PlanDate,
    desired: Seq<TriggerRecord>,
    i: int,
)
    requires
        0 <= i < desired.len(),
        forall|a: int, b: int| 0 <= a < b < desired.len() ==> #[trigger] desired[a].backend_id@ != #[trigger] desired[b].backend_id@,
        forall|a: int| 0 <= a < desired.len() ==> #[trigger] desired[a].date == date,
    ensures
        installed_for(after_additions(ledger, current, date, desired), date, desired[i].backend_id@) == if installed_for(
            current,
            date,
            desired[i].backend_id@,
        ) != Some(trigger_view(desired[i])) {
            Some(trigger_view(desired[i]))
        } else {
            installed_for(ledger, date, desired[i].backend_id@)
        },
    decreases desired.len(),
{
    let n = desired.len() - 1;
    let t = desired[n];
    let d1 = desired.drop_last();
    let prev = after_additions(ledger, current, date, d1);
    let pred = other_ids(t.backend_id@);
    assert(desired.last() == t);
    if i == n {
        assert forall|k: int| 0 <= k < d1.len() implies #[trigger] d1[k].backend_id@ != t.backend_id@ by {
            assert(d1[k] == desired[k]);
        }
        lemma_additions_other(ledger, current, date, d1, t.backend_id@);
        if installed_for(current, date, t.backend_id@) != Some(trigger_view(t)) {
            lemma_installed_push(prev.filter(pred), t, date, t.backend_id@);
        }
    } else {
        assert forall|a: int, b: int| 0 <= a < b < d1.len() implies #[trigger] d1[a].backend_id@ != #[trigger] d1[b].backend_id@ by {
            assert(d1[a] == desired[a] && d1[b] == desired[b]);
        }
        assert forall|a: int| 0 <= a < d1.len() implies #[trigger] d1[a].date == date by {
            assert(d1[a] == desired[a]);
        }
        assert(d1[i] == desired[i]);
        lemma_additions_own(ledger, current, date, d1, i);
        if installed_for(current, date, t.backend_id@) != Some(trigger_view(t)) {
            assert(desired[i].backend_id@ != desired[n].backend_id@);
            lemma_drop_id_keeps_installed(prev, t.backend_id@, date, desired[i].backend_id@);
            lemma_installed_push(prev.filter(pred), t, date, desired[i].backend_id@);
        }
    }
}

proof fn lemma_no_additions(current: Seq<TriggerRecord>, date: crate::civil::PlanDate, desired: Seq<TriggerRecord>)
    requires
        forall|i: int| 0 <= i < desired.len() ==> installed_for(current, date, #[trigger] desired[i].backend_id@)
            == Some(trigger_view(desired[i])),
    ensures
        additions(current, date, desired) == Seq::<(bool, Seq<char>)>::empty(),
    decreases desired.len(),
{
    if desired.len() > 0 {
        assert(desired.last() == desired[desired.len() - 1]);
        assert forall|i: int| 0 <= i < desired.drop_last().len() implies installed_for(current, date, #[trigger] desired.drop_last()[i].backend_id@)
            == Some(trigger_view(desired.drop_last()[i])) by {
            assert(desired.drop_last()[i] == desired[i]);
        }
        lemma_no_additions(current, date, desired.drop_last());
        assert(additions(current, date, desired) =~= Seq::<(bool, Seq<char>)>::empty());
    }
}

proof fn lemma_no_removals(current: Seq<TriggerRecord>, date: crate::civil::PlanDate, desired: Seq<TriggerRecord>)
    requires
        forall|i: int| 0 <= i < current.len() && #[trigger] current[i].date == date ==> has_id(desired, current[i].backend_id@),
    ensures
        removals(current, date, desired) == Seq::<(bool, Seq<char>)>::empty(),
    decreases current.len(),
{
    if current.len() > 0 {
        assert(current.last() == current[current.len() - 1]);
        assert forall|i: int| 0 <= i < current.drop_last().len() && #[trigger] current.drop_last()[i].date == date
            implies has_id(desired, current.drop_last()[i].backend_id@) by {
            assert(current.drop_last()[i] == current[i]);
        }
        lemma_no_removals(current.drop_last(), date, desired);
        assert(removals(current, date, desired) =~= Seq::<(bool, Seq<char>)>::empty());
    }
}

/// Trigger `j` is the first of `desired` with `id`.
pub open spec fn first_trigger_at(desired: Seq<TriggerRecord>, id: Seq<char>, j: int) -> bool {
    &&& 0 <= j < desired.len()
    &&& desired[j].backend_id@ == id
    &&& forall|k: int| 0 <= k < j ==> #[trigger] desired[k].backend_id@ != id
}

/// The index of the first trigger of `desired` with `id`.
pub open spec fn first_trigger(desired: Seq<TriggerRecord>, id: Seq<char>) -> Option<int> {
    if exists|j: int| first_trigger_at(desired, id, j) {
        Some(choose|j: int| first_trigger_at(desired, id, j))
    } else {
        None
    }
}

/// The ledger after one change is recorded: a removal drops the entries of its id; an addition
/// replaces them with the first desired trigger of that id (and changes nothing without one).
pub open spec fn applied_change(ledger: Seq<TriggerRecord>, c: (bool, Seq<char>), desired: Seq<TriggerRecord>) -> Seq<TriggerRecord> {
    if c.0 {
        match first_trigger(desired, c.1) {
            Some(j) => ledger.filter(other_ids(c.1)).push(desired[j]),
            None => ledger,
        }
    } else {
        ledger.filter(other_ids(c.1))
    }
}

/// The ledger after the changes are recorded in order.
pub open spec fn applied_changes(ledger: Seq<TriggerRecord>, cs: Seq<(bool, Seq<char>)>, desired: Seq<TriggerRecord>) -> Seq<TriggerRecord>
    decreases cs.len(),
{
    if cs.len() == 0 {
        ledger
    } else {
        applied_change(applied_changes(ledger, cs.drop_last(), desired), cs.last(), desired)
    }
}

/// Records the changes of a reconciliation in the trigger ledger, in order: a removal through
/// `TriggerLedger::remove_trigger`, an addition through `TriggerLedger::record_trigger` with the
/// first desired trigger of its id.
pub fn apply_changes(ledger: &mut crate::store::TriggerLedger, changes: &[ReconcileChange], desired: &[TriggerRecord])
    ensures
        final(ledger).triggers@ == applied_changes(old(ledger).triggers@, changes_view(changes@), desired@),
{
    let ghost start = ledger.triggers@;
    let mut i: usize = 0;
    while i < changes.len()
        invariant
            i <= changes@.len(),
            ledger.triggers@ == applied_changes(start, changes_view(changes@).take(i as int), desired@),
        decreases changes.len() - i,
    {
        let ghost before = ledger.triggers@;
        proof {
            assert(changes_view(changes@).take(i as int + 1).drop_last() == changes_view(changes@).take(i as int));
            assert(changes_view(changes@).take(i as int + 1).last() == change_view(changes@[i as int]));
        }
        match &changes[i] {
            ReconcileChange::Remove(id) => {
                ledger.remove_trigger(id.as_str());
                assert(change_view(changes@[i as int]) == (false, id@));
            },
            ReconcileChange::Add(id) => {
                let mut j: usize = 0;
                while j < desired.len() && desired[j].backend_id != *id
                    invariant
                        j <= desired@.len(),
                        forall|k: int| 0 <= k < j ==> #[trigger] desired@[k].backend_id@ != id@,
                    decreases desired.len() - j,
                {
                    j = j + 1;
                }
                if j < desired.len() {
                    proof {
                        assert(first_trigger_at(desired@, id@, j as int));
                        let c = choose|c: int| first_trigger_at(desired@, id@, c);
                        if c < j {
                            assert(desired@[c].backend_id@ != id@);
                        } else if c > j {
                            assert(desired@[j as int].backend_id@ != id@);
                        }
                        assert(c == j as int);
                        assert(first_trigger(desired@, id@) == Some(j as int));
                    }
                    let t = desired[j].copied();
                    ledger.record_trigger(t);
                    assert(change_view(changes@[i as int]) == (true, id@));
                    assert(ledger.triggers@ == before.filter(other_ids(id@)).push(desired@[j as int]));
                    assert(ledger.triggers@ == applied_change(before, (true, id@), desired@));
                } else {
                    proof {
                        assert forall|c: int| !first_trigger_at(desired@, id@, c) by {
                            if 0 <= c < desired@.len() && desired@[c].backend_id@ == id@ {
                                assert(desired@[c].backend_id@ != id@);
                            }
                        }
                        assert(change_view(changes@[i as int]) == (true, id@));
                        assert(first_trigger(desired@, id@) is None);
                    }
                }
            },
        }
        proof {
            let cs = changes_view(changes@).take(i as int + 1);
            assert(applied_changes(start, cs, desired@) == applied_change(applied_changes(start, cs.drop_last(), desired@), cs.last(), desired@));
            assert(ledger.triggers@ == applied_change(before, change_view(changes@[i as int]), desired@));
        }
        i = i + 1;
    }
    proof {
        assert(changes_view(changes@).take(changes@.len() as int) == changes_view(changes@));
    }
}

proof fn lemma_applied_concat(l: Seq<TriggerRecord>, a: Seq<(bool, Seq<char>)>, b: Seq<(bool, Seq<char>)>, d: Seq<TriggerRecord>)
    ensures
        applied_changes(l, a + b, d) == applied_changes(applied_changes(l, a, d), b, d),
    decreases b.len(),
{
    if b.len() == 0 {
        assert(a + b == a);
    } else {
        lemma_applied_concat(l, a, b.drop_last(), d);
        assert((a + b).drop_last() == a + b.drop_last());
        assert((a + b).last() == b.last());
    }
}

proof fn lemma_applied_removals(l: Seq<TriggerRecord>, current: Seq<TriggerRecord>, date: crate::civil::PlanDate, desired: Seq<TriggerRecord>)
    ensures
        applied_changes(l, removals(current, date, desired), desired) == after_removals(l, current, date, desired),
    decreases current.len(),
{
    if current.len() > 0 {
        let t = current.last();
        lemma_applied_removals(l, current.drop_last(), date, desired);
        let tail: Seq<(bool, Seq<char>)> = if t.date == date && !has_id(desired, t.backend_id@) {
            seq![(false, t.backend_id@)]
        } else {
            Seq::empty()
        };
        lemma_applied_concat(l, removals(current.drop_last(), date, desired), tail, desired);
        assert(removals(current, date, desired) == removals(current.drop_last(), date, desired) + tail);
        let x = applied_changes(l, removals(current.drop_last(), date, desired), desired);
        if tail.len() == 1 {
            assert(tail.drop_last() =~= Seq::<(bool, Seq<char>)>::empty());
            assert(applied_changes(x, tail, desired) == applied_change(applied_changes(x, tail.drop_last(), desired), tail.last(), desired));
        } else {
            assert(applied_changes(x, tail, desired) == x);
        }
    }
}

proof fn lemma_first_trigger_distinct(desired: Seq<TriggerRecord>, k: int)
    requires
        forall|a: int, b: int| 0 <= a < b < desired.len() ==> #[trigger] desired[a].backend_id@ != #[trigger] desired[b].backend_id@,
        0 <= k < desired.len(),
    ensures
        first_trigger_at(desired, desired[k].backend_id@, k),
        first_trigger(desired, desired[k].backend_id@) == Some(k),
{
    let id = desired[k].backend_id@;
    assert forall|x: int| 0 <= x < k implies #[trigger] desired[x].backend_id@ != id by {
        assert(desired[x].backend_id@ != desired[k].backend_id@);
    }
    assert(first_trigger_at(desired, id, k));
    let c = choose|j: int| first_trigger_at(desired, id, j);
    if c < k {
        assert(desired[c].backend_id@ != id);
    } else if c > k {
        assert(desired[k].backend_id@ != id);
    }
}

proof fn lemma_applied_additions(l: Seq<TriggerRecord>, current: Seq<TriggerRecord>, date: crate::civil::PlanDate, desired: Seq<TriggerRecord>, n: int)
    requires
        forall|a: int, b: int| 0 <= a < b < desired.len() ==> #[trigger] desired[a].backend_id@ != #[trigger] desired[b].backend_id@,
        0 <= n <= desired.len(),
    ensures
        applied_changes(l, additions(current, date, desired.take(n)), desired) == after_additions(l, current, date, desired.take(n)),
    decreases n,
{
    if n > 0 {
        let p = desired.take(n);
        assert(p.drop_last() == desired.take(n - 1));
        assert(p.last() == desired[n - 1]);
        lemma_applied_additions(l, current, date, desired, n - 1);
        let t = desired[n - 1];
        let tail: Seq<(bool, Seq<char>)> = if installed_for(current, date, t.backend_id@) != Some(trigger_view(t)) {
            seq![(true, t.backend_id@)]
        } else {
            Seq::empty()
        };
        lemma_applied_concat(l, additions(current, date, desired.take(n - 1)), tail, desired);
        assert(additions(current, date, p) == additions(current, date, desired.take(n - 1)) + tail);
        let x = applied_changes(l, additions(current, date, desired.take(n - 1)), desired);
        assert(x == after_additions(l, current, date, desired.take(n - 1)));
        if tail.len() == 1 {
            assert(tail.drop_last() =~= Seq::<(bool, Seq<char>)>::empty());
            assert(applied_changes(x, tail, desired) == applied_change(applied_changes(x, tail.drop_last(), desired), tail.last(), desired));
            lemma_first_trigger_distinct(desired, n - 1);
            assert(applied_change(x, (true, t.backend_id@), desired) == x.filter(other_ids(t.backend_id@)).push(t));
            assert(after_additions(l, current, date, p) == x.filter(other_ids(t.backend_id@)).push(t));
        } else {
            assert(applied_changes(x, tail, desired) == x);
            assert(after_additions(l, current, date, p) == x);
        }
    }
}

/// Recording the changes a reconciliation computes, in order, in the ledger it was computed from
/// gives the reconciled ledger: together with `reconcile_is_idempotent`, a second reconciliation
/// against the ledger `apply_changes` leaves changes nothing.
pub proof fn recorded_changes_reconcile(current: Seq<TriggerRecord>, date: crate::civil::PlanDate, desired: Seq<TriggerRecord>)
    requires
        forall|a: int, b: int| 0 <= a < b < desired.len() ==> #[trigger] desired[a].backend_id@ != #[trigger] desired[b].backend_id@,
    ensures
        applied_changes(current, removals(current, date, desired) + additions(current, date, desired), desired)
            == reconciled_ledger(current, date, desired),
{
    lemma_applied_concat(current, removals(current, date, desired), additions(current, date, desired), desired);
    lemma_applied_removals(current, current, date, desired);
    lemma_applied_additions(after_removals(current, current, date, desired), current, date, desired, desired.len() as int);
    assert(desired.take(desired.len() as int) == desired);
}


/// Reconciling is idempotent: once the changes of a reconciliation are recorded in the trigger
/// ledger, reconciling the same desired triggers (distinct ids, all of `date`) again changes
/// nothing.
pub proof fn reconcile_is_idempotent(current: Seq<TriggerRecord>, date: crate::civil::PlanDate, desired: Seq<TriggerRecord>)
    requires
        forall|a: int, b: int| 0 <= a < b < desired.len() ==> #[trigger] desired[a].backend_id@ != #[trigger] desired[b].backend_id@,
        forall|a: int| 0 <= a < desired.len() ==> #[trigger] desired[a].date == date,
    ensures
        removals(reconciled_ledger(current, date, desired), date, desired) == Seq::<(bool, Seq<char>)>::empty(),
        additions(reconciled_ledger(current, date, desired), date, desired) == Seq::<(bool, Seq<char>)>::empty(),
{
    let r = after_removals(current, current, date, desired);
    let after = reconciled_ledger(current, date, desired);
    assert forall|i: int| 0 <= i < desired.len() implies installed_for(after, date, #[trigger] desired[i].backend_id@)
        == Some(trigger_view(desired[i])) by {
        lemma_additions_own(r, current, date, desired, i);
        assert(has_id(desired, desired[i].backend_id@));
        lemma_removals_keep_desired(current, current, date, desired, desired[i].backend_id@);
    }
    lemma_no_additions(after, date, desired);
    assert forall|i: int| 0 <= i < after.len() && #[trigger] after[i].date == date implies has_id(desired, after[i].backend_id@) by {
        let y = after[i];
        assert(after.contains(y));
        lemma_additions_contents(r, current, date, desired, y);
        if r.contains(y) {
            lemma_removals_contents(current, current, date, desired, y);
            let j = choose|j: int| 0 <= j < current.len() && current[j] == y;
            assert(current[j].date == date);
        } else {
            let k = choose|k: int| 0 <= k < desired.len() && desired[k] == y;
            assert(desired[k].backend_id@ == y.backend_id@);
        }
    }
    lemma_no_removals(after, date, desired);
}

/// The summary written for a list of changes: `no changes`, or one `add ID` / `remove ID` line
/// per change.
pub open spec fn summary_text(changes: Seq<(bool, Seq<char>)>) -> Seq<char>
    decreases changes.len(),
{
    if changes.len() == 0 {
        Seq::empty()
    } else {
        summary_text(changes.drop_last()) + (if changes.last().0 { "add "@ } else { "remove "@ }) + changes.last().1 + seq!['\n']
    }
}

pub fn reconcile_summary(changes: &[ReconcileChange]) -> (r: String)
    ensures
        changes@.len() == 0 ==> r@ == "no changes\n"@,
        changes@.len() > 0 ==> r@ == summary_text(changes_view(changes@)),
{
    if changes.len() == 0 {
        return "no changes\n".to_owned();
    }
    let mut out: Vec<char> = Vec::new();
    let mut i: usize = 0;
    while i < changes.len()
        invariant
            i <= changes@.len(),
            out@ == summary_text(changes_view(changes@.take(i as int))),
        decreases changes.len() - i,
    {
        assert(changes_view(changes@.take(i as int + 1)).drop_last() =~= changes_view(changes@.take(i as int)));
        match &changes[i] {
            ReconcileChange::Add(id) => {
                push_str(&mut out, "add ");
                push_str(&mut out, id.as_str());
            },
            ReconcileChange::Remove(id) => {
                push_str(&mut out, "remove ");
                push_str(&mut out, id.as_str());
            },
        }
        out.push('\n');
        i = i + 1;
    }
    assert(changes@.take(changes@.len() as int) == changes@);
    string_of(out.as_slice())
}

// ── Read-side selections ───────────────────────────────────────────────────

/// The start and end instants of each block, resolved in the plan's zone. Terminal blocks are not
/// resolved and get `now` in both places; the first other block that cannot be resolved makes
/// the whole call fail with its error.
pub fn resolve_times(plan: &Plan, now: Timestamp) -> (r: Result<(Vec<Timestamp>, Vec<Timestamp>), crate::time::TimeError>)
    ensures
        r matches Ok(t) ==> {
            &&& t.0@.len() == plan.blocks@.len()
            &&& t.1@.len() == plan.blocks@.len()
            &&& forall|k: int| 0 <= k < plan.blocks@.len() && status_terminal(#[trigger] plan.blocks@[k].status)
                ==> t.0@[k] == now && t.1@[k] == now
            &&& forall|k: int| 0 <= k < plan.blocks@.len() && !status_terminal(#[trigger] plan.blocks@[k].status)
                ==> crate::time::placed(t.0@[k].spec_nanos(), plan.date, plan.timezone@, plan.blocks@[k].start.spec_seconds() as int)
                && crate::time::placed(t.1@[k].spec_nanos(), plan.date, plan.timezone@,
                    crate::model::span_end_seconds(plan.blocks@[k].span, plan.blocks@[k].start) as int)
        },
        r is Err ==> exists|k: int| 0 <= k < plan.blocks@.len() && !status_terminal(#[trigger] plan.blocks@[k].status),
        r matches Err(crate::time::TimeError::TimeZone(e)) ==> e is TimeZone && e->TimeZone_value@ == plan.timezone@,
        r matches Err(crate::time::TimeError::Resolve(_)) ==> plan.date.triple().0 == -9999 || plan.date.triple().0 == 9999,
{
    let mut starts: Vec<Timestamp> = Vec::new();
    let mut ends: Vec<Timestamp> = Vec::new();
    let mut i: usize = 0;
    while i < plan.blocks.len()
        invariant
            i <= plan.blocks@.len(),
            starts@.len() == i,
            ends@.len() == i,
            forall|k: int| 0 <= k < i && status_terminal(#[trigger] plan.blocks@[k].status)
                ==> starts@[k] == now && ends@[k] == now,
            forall|k: int| 0 <= k < i && !status_terminal(#[trigger] plan.blocks@[k].status)
                ==> crate::time::placed(starts@[k].spec_nanos(), plan.date, plan.timezone@, plan.blocks@[k].start.spec_seconds() as int)
                && crate::time::placed(ends@[k].spec_nanos(), plan.date, plan.timezone@,
                    crate::model::span_end_seconds(plan.blocks@[k].span, plan.blocks@[k].start) as int),
        decreases plan.blocks.len() - i,
    {
        let b = &plan.blocks[i];
        if b.status.is_terminal() {
            starts.push(now);
            ends.push(now);
        } else {
            let start = match crate::time::resolve_block_start(plan, b) {
                Ok(t) => t,
                Err(e) => {
                    assert(!status_terminal(plan.blocks@[i as int].status));
                    return Err(e);
                },
            };
            let end = match crate::time::resolve_block_end(plan, b) {
                Ok(t) => t,
                Err(e) => {
                    assert(!status_terminal(plan.blocks@[i as int].status));
                    return Err(e);
                },
            };
            starts.push(start);
            ends.push(end);
        }
        i = i + 1;
    }
    Ok((starts, ends))
}

pub open spec fn summaries_match(rows: Seq<BlockSummary>, blocks: Seq<Block>) -> bool {
    rows.len() == blocks.len() && forall|k: int| 0 <= k < rows.len() ==> summary_matches(#[trigger] rows[k], blocks[k])
}

/// Block `k` is open and running at `now`.
pub open spec fn running_at(plan: Plan, starts: Seq<Timestamp>, ends: Seq<Timestamp>, now: Timestamp, k: int) -> bool {
    !status_terminal(plan.blocks@[k].status) && starts[k].spec_nanos() <= now.spec_nanos() && now.spec_nanos() < ends[k].spec_nanos()
}

/// The indices `0..n` satisfying `p`, in order.
pub open spec fn indices_where(n: int, p: spec_fn(int) -> bool) -> Seq<int>
    decreases n,
{
    if n <= 0 {
        Seq::empty()
    } else {
        indices_where(n - 1, p) + if p(n - 1) { seq![n - 1] } else { Seq::empty() }
    }
}

pub open spec fn pick(blocks: Seq<Block>, idx: Seq<int>) -> Seq<Block> {
    Seq::new(idx.len(), |i: int| blocks[idx[i]])
}

/// The open blocks running at `now`, in plan order.
pub fn now_rows_at(plan: &Plan, starts: &Vec<Timestamp>, ends: &Vec<Timestamp>, now: Timestamp) -> (r: Vec<BlockSummary>)
    requires
        starts@.len() == plan.blocks@.len(),
        ends@.len() == plan.blocks@.len(),
    ensures
        summaries_match(r@, pick(plan.blocks@, indices_where(plan.blocks@.len() as int, |k: int| running_at(*plan, starts@, ends@, now, k)))),
{
    let ghost p = |k: int| running_at(*plan, starts@, ends@, now, k);
    let mut rows: Vec<BlockSummary> = Vec::new();
    let mut i: usize = 0;
    while i < plan.blocks.len()
        invariant
            i <= plan.blocks@.len(),
            starts@.len() == plan.blocks@.len(),
            ends@.len() == plan.blocks@.len(),
            p == (|k: int| running_at(*plan, starts@, ends@, now, k)),
            summaries_match(rows@, pick(plan.blocks@, indices_where(i as int, p))),
        decreases plan.blocks.len() - i,
    {
        let b = &plan.blocks[i];
        let running = !b.status.is_terminal() && starts[i].le(now) && now.lt(ends[i]);
        assert(running == p(i as int));
        let ghost before = indices_where(i as int, p);
        if running {
            rows.push(BlockSummary::from_block(b));
            assert(indices_where(i as int + 1, p) == before.push(i as int));
        } else {
            assert(indices_where(i as int + 1, p) == before);
        }
        i = i + 1;
    }
    rows
}

/// Block `k` is open and starts after `now`.
pub open spec fn upcoming(plan: Plan, starts: Seq<Timestamp>, now: Timestamp, k: int) -> bool {
    !status_terminal(plan.blocks@[k].status) && starts[k].spec_nanos() > now.spec_nanos()
}

/// `first` is the earliest start among the open blocks starting after `now`.
pub open spec fn earliest_upcoming(plan: Plan, starts: Seq<Timestamp>, now: Timestamp, first: int) -> bool {
    &&& exists|k: int| 0 <= k < plan.blocks@.len() && upcoming(plan, starts, now, k) && starts[k].spec_nanos() == first
    &&& forall|k: int| 0 <= k < plan.blocks@.len() && upcoming(plan, starts, now, k) ==> first <= starts[k].spec_nanos()
}

/// The open blocks starting after `now` exactly at `first`, in plan order.
pub open spec fn starting_at(plan: Plan, starts: Seq<Timestamp>, now: Timestamp, first: int) -> Seq<Block> {
    pick(plan.blocks@, indices_where(plan.blocks@.len() as int, |k: int| upcoming(plan, starts, now, k) && starts[k].spec_nanos() == first))
}

/// The open blocks that start after `now` at the earliest such instant, in plan order.
pub fn next_rows_at(plan: &Plan, starts: &Vec<Timestamp>, now: Timestamp) -> (r: Vec<BlockSummary>)
    requires
        starts@.len() == plan.blocks@.len(),
    ensures
        (forall|k: int| 0 <= k < plan.blocks@.len() ==> !upcoming(*plan, starts@, now, k)) ==> r@.len() == 0,
        (exists|k: int| 0 <= k < plan.blocks@.len() && upcoming(*plan, starts@, now, k)) ==> exists|first: int|
            #[trigger] earliest_upcoming(*plan, starts@, now, first) && summaries_match(r@, starting_at(*plan, starts@, now, first)),
{
    let mut best: Option<Timestamp> = None;
    let mut i: usize = 0;
    while i < plan.blocks.len()
        invariant
            i <= plan.blocks@.len(),
            starts@.len() == plan.blocks@.len(),
            match best {
                None => forall|k: int| 0 <= k < i ==> !upcoming(*plan, starts@, now, k),
                Some(t) => (exists|k: int| 0 <= k < i && upcoming(*plan, starts@, now, k) && starts@[k] == t)
                    && forall|k: int| 0 <= k < i && upcoming(*plan, starts@, now, k) ==> t.spec_nanos() <= starts@[k].spec_nanos(),
            },
        decreases plan.blocks.len() - i,
    {
        if !plan.blocks[i].status.is_terminal() && now.lt(starts[i]) {
            let better = match best {
                None => true,
                Some(t) => starts[i].lt(t),
            };
            if better {
                best = Some(starts[i]);
            }
        }
        i = i + 1;
    }
    match best {
        None => Vec::new(),
        Some(first) => {
            let ghost p = |k: int| upcoming(*plan, starts@, now, k) && starts@[k].spec_nanos() == first.spec_nanos();
            let mut rows: Vec<BlockSummary> = Vec::new();
            let mut i: usize = 0;
            while i < plan.blocks.len()
                invariant
                    i <= plan.blocks@.len(),
                    starts@.len() == plan.blocks@.len(),
                    p == (|k: int| upcoming(*plan, starts@, now, k) && starts@[k].spec_nanos() == first.spec_nanos()),
                    summaries_match(rows@, pick(plan.blocks@, indices_where(i as int, p))),
                decreases plan.blocks.len() - i,
            {
                let b = &plan.blocks[i];
                let take = !b.status.is_terminal() && now.lt(starts[i]) && starts[i].as_nanos() == first.as_nanos();
                assert(take == p(i as int));
                let ghost before = indices_where(i as int, p);
                if take {
                    rows.push(BlockSummary::from_block(b));
                    assert(indices_where(i as int + 1, p) == before.push(i as int));
                } else {
                    assert(indices_where(i as int + 1, p) == before);
                }
                i = i + 1;
            }
            assert(earliest_upcoming(*plan, starts@, now, first.spec_nanos()));
            rows
        },
    }
}

/// Block `k` is open and not yet over at `now`.
pub open spec fn on_agenda(plan: Plan, ends: Seq<Timestamp>, now: Timestamp, k: int) -> bool {
    !status_terminal(plan.blocks@[k].status) && ends[k].spec_nanos() > now.spec_nanos()
}

/// The agenda: the open blocks not yet over, in plan order, with the seconds until each starts.
pub fn agenda_at(plan: &Plan, starts: &Vec<Timestamp>, ends: &Vec<Timestamp>, now: Timestamp) -> (r: Vec<AgendaEntry>)
    requires
        starts@.len() == plan.blocks@.len(),
        ends@.len() == plan.blocks@.len(),
    ensures
        ({
            let idx = indices_where(plan.blocks@.len() as int, |k: int| on_agenda(*plan, ends@, now, k));
            &&& r@.len() == idx.len()
            &&& forall|x: int| 0 <= x < r@.len() ==> summary_matches(#[trigger] r@[x].block, plan.blocks@[idx[x]])
                && r@[x].starts_in_seconds == crate::time::trunc_secs(starts@[idx[x]].spec_nanos() - now.spec_nanos())
        }),
{
    let ghost p = |k: int| on_agenda(*plan, ends@, now, k);
    let mut rows: Vec<AgendaEntry> = Vec::new();
    let mut i: usize = 0;
    while i < plan.blocks.len()
        invariant
            i <= plan.blocks@.len(),
            starts@.len() == plan.blocks@.len(),
            ends@.len() == plan.blocks@.len(),
            p == (|k: int| on_agenda(*plan, ends@, now, k)),
            rows@.len() == indices_where(i as int, p).len(),
            forall|x: int| 0 <= x < rows@.len() ==> summary_matches(#[trigger] rows@[x].block, plan.blocks@[indices_where(i as int, p)[x]])
                && rows@[x].starts_in_seconds == crate::time::trunc_secs(starts@[indices_where(i as int, p)[x]].spec_nanos() - now.spec_nanos()),
        decreases plan.blocks.len() - i,
    {
        let b = &plan.blocks[i];
        let keep = !b.status.is_terminal() && now.lt(ends[i]);
        assert(keep == p(i as int));
        let ghost before = indices_where(i as int, p);
        if keep {
            let secs = starts[i].duration_since(now).as_secs();
            rows.push(AgendaEntry::new(b, secs));
            assert(indices_where(i as int + 1, p) == before.push(i as int));
        } else {
            assert(indices_where(i as int + 1, p) == before);
        }
        i = i + 1;
    }
    rows
}

// ── Editing a block ────────────────────────────────────────────────────────

/// The changes an edit asks for; `None` (or an empty argv) leaves a field alone.
#[derive(Debug, Clone)]
pub struct BlockEdit {
    pub title: Option<String>,
    pub start: Option<ClockTime>,
    pub end: Option<ClockTime>,
    pub duration: Option<DurationSpec>,
    pub notify: Option<crate::model::Lead>,
    pub run: Vec<String>,
}

/// Edits the first block with `id`: only one of end and duration may be given, the block must
/// exist and be open, and a new command must be valid.
pub fn edit_block(plan: &mut Plan, id: &BlockId, edit: BlockEdit) -> (r: Result<(), Error>)
    ensures
        edit.end is Some && edit.duration is Some ==> (r matches Err(Error::Usage(m)) && m@ == "edit accepts only one of --end or --duration"@),
        !(edit.end is Some && edit.duration is Some) ==> match first_with_id(old(plan).blocks@, id@) {
            None => r matches Err(Error::NotFound(m)) && m@ == block_label(id@),
            Some(i) => if status_terminal(old(plan).blocks@[i].status) {
                r matches Err(Error::HistoryConflict { id: got }) && got@ == old(plan).blocks@[i].id@
            } else if edit.run@.len() > 0 && !valid_argv(edit.run@) {
                r == Err::<(), Error>(Error::Field(FieldParseError::Run))
            } else {
                r is Ok && final(plan).blocks@.len() == old(plan).blocks@.len() && ({
                    let b0 = old(plan).blocks@[i];
                    let b1 = final(plan).blocks@[i];
                    &&& b1.id == b0.id && b1.status == b0.status && b1.tags == b0.tags
                    &&& b1.title@ == match edit.title { Some(t) => t@, None => b0.title@ }
                    &&& b1.start == match edit.start { Some(s) => s, None => b0.start }
                    &&& b1.span == match (edit.end, edit.duration) {
                        (Some(e), _) => Span::End(e),
                        (_, Some(d)) => Span::Duration(d),
                        _ => b0.span,
                    }
                    &&& b1.notify == match edit.notify { Some(n) => n, None => b0.notify }
                    &&& run_view(b1.run) == if edit.run@.len() > 0 { Some(strings_view(edit.run@)) } else { run_view(b0.run) }
                }) && forall|k: int| 0 <= k < old(plan).blocks@.len() && k != i ==> final(plan).blocks@[k] == old(plan).blocks@[k]
            },
        },
{
    if edit.end.is_some() && edit.duration.is_some() {
        return Err(Error::Usage("edit accepts only one of --end or --duration".to_owned()));
    }
    let i = match find_block(plan, id) {
        None => {
            return Err(block_not_found(id));
        },
        Some(i) => i,
    };
    if plan.blocks[i].status.is_terminal() {
        return Err(Error::HistoryConflict { id: plan.blocks[i].id.copied() });
    }
    let BlockEdit { title, start, end, duration, notify, run } = edit;
    let new_run = if run.len() > 0 {
        match Run::new(run) {
            Ok(x) => Some(x),
            Err(e) => {
                return Err(Error::Field(e));
            },
        }
    } else {
        None
    };
    let mut b = plan.blocks.remove(i);
    if let Some(t) = title {
        b.title = t;
    }
    if let Some(s) = start {
        b.start = s;
    }
    if let Some(e) = end {
        b.span = Span::End(e);
    }
    if let Some(d) = duration {
        b.span = Span::Duration(d);
    }
    if let Some(n) = notify {
        b.notify = n;
    }
    if new_run.is_some() {
        b.run = new_run;
    }
    plan.blocks.insert(i, b);
    Ok(())
}

// ── Firing a trigger ───────────────────────────────────────────────────────

/// The block a firing trigger acts on: the first block with its id, provided the block's
/// schedule revision is still the one the trigger carries (a stale trigger does nothing).
pub fn fire_target(plan: &Plan, id: &BlockId, rev: &crate::model::ScheduleRev) -> (r: Option<usize>)
    ensures
        match first_with_id(plan.blocks@, id@) {
            None => r is None,
            Some(i) => if plan.blocks@[i].spec_rev() == rev@ {
                r == Some(i as usize)
            } else {
                r is None
            },
        },
{
    match find_block(plan, id) {
        None => None,
        Some(i) => {
            let current = plan.blocks[i].schedule_rev();
            if current.same(rev) {
                Some(i)
            } else {
                None
            }
        },
    }
}

/// `DATE ID EVENT`, the start of a fire-log line.
pub fn fire_log_prefix(date: &crate::civil::PlanDate, id: &BlockId, event: Event) -> (r: String)
    ensures
        r@ == date.spec_text() + seq![' '] + id@ + seq![' '] + crate::lifecycle::event_text(event),
{
    let mut out = date.text_chars();
    out.push(' ');
    push_str(&mut out, id.as_str());
    out.push(' ');
    push_str(&mut out, event.as_str());
    string_of(out.as_slice())
}

/// Appends a notification's outcome to a log line: the success label, or `notify-failed=` and
/// the sanitized error.
pub fn log_notification_result(result: &Result<(), String>, success_label: &str, log_line: &mut String)
    ensures
        final(log_line)@ == old(log_line)@ + match result {
            Ok(()) => success_label@,
            Err(e) => " notify-failed="@ + sanitized(e@),
        },
{
    let mut out = chars_of(log_line.as_str());
    match result {
        Ok(()) => push_str(&mut out, success_label),
        Err(e) => {
            push_str(&mut out, " notify-failed=");
            let s = sanitize_log_field(e.as_str());
            push_str(&mut out, s.as_str());
        },
    }
    *log_line = string_of(out.as_slice());
}

/// Marks block `index` with `status` and appends `label` to the log line.
pub fn mark_block(plan: &mut Plan, index: usize, status: Status, label: &str, log_line: &mut String)
    requires
        index < old(plan).blocks@.len(),
    ensures
        final(plan).blocks@ == old(plan).blocks@.update(index as int, with_status(old(plan).blocks@[index as int], status)),
        final(plan).date == old(plan).date,
        final(plan).timezone == old(plan).timezone,
        final(log_line)@ == old(log_line)@ + label@,
{
    let mut b = plan.blocks.remove(index);
    b.status = status;
    plan.blocks.insert(index, b);
    let mut out = chars_of(log_line.as_str());
    push_str(&mut out, label);
    *log_line = string_of(out.as_slice());
}

/// Marks a block missed.
pub fn mark_missed(plan: &mut Plan, index: usize, log_line: &mut String)
    requires
        index < old(plan).blocks@.len(),
    ensures
        final(plan).blocks@ == old(plan).blocks@.update(index as int, with_status(old(plan).blocks@[index as int], Status::Missed)),
        final(plan).date == old(plan).date,
        final(plan).timezone == old(plan).timezone,
        final(log_line)@ == old(log_line)@ + " missed"@,
{
    mark_block(plan, index, Status::Missed, " missed", log_line)
}

/// Closes a block with the status the policy gives.
pub fn close_block(plan: &mut Plan, index: usize, status: Status, log_line: &mut String)
    requires
        index < old(plan).blocks@.len(),
    ensures
        final(plan).blocks@ == old(plan).blocks@.update(index as int, with_status(old(plan).blocks@[index as int], status)),
        final(plan).date == old(plan).date,
        final(plan).timezone == old(plan).timezone,
        final(log_line)@ == old(log_line)@ + " closed"@,
{
    mark_block(plan, index, status, " closed", log_line)
}

// ── Activation and the plan file's ownership ───────────────────────────────

/// The message that refuses commands from a plan file others can write to.
pub open spec fn writable_refusal(mode: u32) -> Seq<char> {
    "plan file is group- or world-writable (mode: "@ + octal(mode as nat) + ")"@
}

/// The message that refuses commands from a plan file another user owns.
pub open spec fn owner_refusal(file_uid: u32, uid: u32) -> Seq<char> {
    "plan file is not owned by the current user (file uid: "@ + decimal(file_uid as nat) + ", current uid: "@
        + decimal(uid as nat) + ")"@
}

/// Decides whether commands may run from a plan file with permission bits `mode` owned by
/// `file_uid`, for the current user's uid where it could be determined: the file must not be
/// group- or world-writable, and must belong to that user.
pub fn plan_file_verdict(mode: u32, file_uid: u32, current_uid: Option<u32>) -> (r: Result<(), Error>)
    ensures
        mode & 0o022u32 != 0 ==> (r matches Err(Error::AutomationRefused(m)) && m@ == writable_refusal(mode)),
        mode & 0o022u32 == 0 && current_uid is None ==> (r matches Err(Error::AutomationRefused(m))
            && m@ == "failed to determine current user UID"@),
        mode & 0o022u32 == 0 && current_uid is Some ==> (r is Ok <==> file_uid == current_uid->0),
        mode & 0o022u32 == 0 && current_uid is Some && file_uid != current_uid->0 ==> (r matches Err(
            Error::AutomationRefused(m),
        ) && m@ == owner_refusal(file_uid, current_uid->0)),
{
    if mode & 0o022u32 != 0 {
        let mut out = chars_of("plan file is group- or world-writable (mode: ");
        let digits = octal_chars(mode as u64);
        push_all(&mut out, digits.as_slice());
        push_str(&mut out, ")");
        return Err(Error::AutomationRefused(string_of(out.as_slice())));
    }
    let uid = match current_uid {
        Some(uid) => uid,
        None => return Err(Error::AutomationRefused("failed to determine current user UID".to_owned())),
    };
    if file_uid != uid {
        let mut out = chars_of("plan file is not owned by the current user (file uid: ");
        let file_digits = decimal_chars(file_uid as u64);
        push_all(&mut out, file_digits.as_slice());
        push_str(&mut out, ", current uid: ");
        let uid_digits = decimal_chars(uid as u64);
        push_all(&mut out, uid_digits.as_slice());
        push_str(&mut out, ")");
        return Err(Error::AutomationRefused(string_of(out.as_slice())));
    }
    Ok(())
}

/// The std `Debug` rendering of a list of strings, such as `["/bin/echo", "hi"]`.
pub uninterp spec fn debug_strings_text(v: Seq<Seq<char>>) -> Seq<char>;

/// The std `Debug` rendering of a string: quoted, with its special characters escaped.
pub uninterp spec fn debug_str_text(s: Seq<char>) -> Seq<char>;

/// std `impl Debug for [String]`, through `format!("{:?}")`; its text is named, and depends on
/// the strings alone.
#[verifier::external_body]
fn debug_strings(v: &[String]) -> (r: String)
    ensures
        r@ == debug_strings_text(strings_view(v@)),
{
    format!("{v:?}")
}

/// std `impl Debug for str`, through `format!("{:?}")`; its text is named, and depends on the
/// string alone.
#[verifier::external_body]
fn debug_str(s: &str) -> (r: String)
    ensures
        r@ == debug_str_text(s@),
{
    format!("{s:?}")
}

/// What activating a block leaves to its caller.
#[derive(Debug)]
pub enum Activation {
    /// There is no command to run.
    Activated,
    /// The command was refused: the caller stores the plan, then fails with this error.
    Refused(Error),
    /// A dry run: the caller shows the command without running it.
    DryRun(Vec<String>),
    /// The caller runs the command and logs its report.
    Execute(Vec<String>),
}

/// The command that activating block `b` considers: its own, when the decision is to run it.
pub open spec fn activation_command(b: Block, run: bool) -> Option<Seq<Seq<char>>> {
    if run {
        run_view(b.run)
    } else {
        None
    }
}

/// What activation does with command `argv`, given the policy's answer `auth` and the plan
/// file's verdict `secure`: `log` is the log line before, `log2` after, `r` the result.
pub open spec fn activation_of(
    argv: Seq<Seq<char>>,
    auth: Result<(), Seq<char>>,
    secure: Result<(), Error>,
    dry_run: bool,
    log: Seq<char>,
    log2: Seq<char>,
    r: Activation,
) -> bool {
    match auth {
        Err(reason) => log2 == log + " run-refused: "@ + reason
            && (r matches Activation::Refused(Error::AutomationRefused(m)) && m@ == reason),
        Ok(()) => match secure {
            Err(e) => log2 == log + " run-refused: "@ + error_text(e) && r == Activation::Refused(e),
            Ok(()) => if dry_run {
                log2 == log + " activated run (dry-run): argv="@ + debug_strings_text(argv)
                    && (r matches Activation::DryRun(v) && strings_view(v@) == argv)
            } else {
                log2 == log && (r matches Activation::Execute(v) && strings_view(v@) == argv)
            },
        },
    }
}

/// What the policy may have been told of a command's program: a plainly relative path is not
/// absolute, a listed program is allowed and a surely unlisted one is not.
pub open spec fn program_flags(allowed_executables: Seq<String>, argv: Seq<Seq<char>>, absolute: bool, allowed: bool) -> bool {
    &&& (argv.len() > 0 && plainly_relative(argv[0]) ==> !absolute)
    &&& (argv.len() > 0 && listed(allowed_executables, argv[0]) ==> allowed)
    &&& (argv.len() > 0 && surely_unlisted(allowed_executables, argv[0]) ==> !allowed)
}

fn append_to(log_line: &mut String, label: &str, text: &str)
    ensures
        final(log_line)@ == old(log_line)@ + label@ + text@,
{
    let mut out = chars_of(log_line.as_str());
    push_str(&mut out, label);
    push_str(&mut out, text);
    *log_line = string_of(out.as_slice());
}

/// Checks command `argv` against the policy, then against the plan file's verdict `secure`, and
/// logs what was decided.
fn activate_command(
    argv: Vec<String>,
    automation: &AutomationConfig,
    secure: Result<(), Error>,
    dry_run: bool,
    log_line: &mut String,
) -> (r: Activation)
    ensures
        exists|absolute: bool, allowed: bool|
            program_flags(automation.allowed_executables@, strings_view(argv@), absolute, allowed) && #[trigger] activation_of(
                strings_view(argv@),
                authorization(automation.enabled, strings_view(argv@), absolute, allowed),
                secure,
                dry_run,
                old(log_line)@,
                final(log_line)@,
                r,
            ),
{
    let ghost cmd = strings_view(argv@);
    let auth = authorize_run(automation, argv.as_slice());
    let ghost (absolute, allowed) = choose|absolute: bool, allowed: bool|
        (argv@.len() > 0 && plainly_relative(argv@[0]@) ==> !absolute)
        && (argv@.len() > 0 && listed(automation.allowed_executables@, argv@[0]@) ==> allowed)
        && (argv@.len() > 0 && surely_unlisted(automation.allowed_executables@, argv@[0]@) ==> !allowed)
        && result_view(auth) == #[trigger] authorization(automation.enabled, strings_view(argv@), absolute, allowed);
    assert(program_flags(automation.allowed_executables@, cmd, absolute, allowed));
    let r = match auth {
        Err(reason) => {
            append_to(log_line, " run-refused: ", reason.as_str());
            Activation::Refused(Error::AutomationRefused(reason))
        },
        Ok(()) => match secure {
            Err(e) => {
                let text = e.message();
                append_to(log_line, " run-refused: ", text.as_str());
                Activation::Refused(e)
            },
            Ok(()) => {
                if dry_run {
                    let text = debug_strings(argv.as_slice());
                    append_to(log_line, " activated run (dry-run): argv=", text.as_str());
                    Activation::DryRun(argv)
                } else {
                    Activation::Execute(argv)
                }
            },
        },
    };
    assert(activation_of(cmd, authorization(automation.enabled, cmd, absolute, allowed), secure, dry_run, old(log_line)@, log_line@, r));
    r
}

/// Activates block `index`: marks it active, and when `run` is set and the block has a command,
/// checks the command against the policy, then against the plan file's verdict `secure`. A
/// refusal is logged as ` run-refused: ` and its reason and handed back for after the store; a
/// dry run is logged with the command; otherwise the command is handed back to be run.
pub fn activate_step(
    plan: &mut Plan,
    index: usize,
    run: bool,
    automation: &AutomationConfig,
    secure: Result<(), Error>,
    dry_run: bool,
    log_line: &mut String,
) -> (r: Activation)
    requires
        index < old(plan).blocks@.len(),
    ensures
        final(plan).blocks@ == old(plan).blocks@.update(index as int, with_status(old(plan).blocks@[index as int], Status::Active)),
        final(plan).date == old(plan).date,
        final(plan).timezone == old(plan).timezone,
        activation_command(old(plan).blocks@[index as int], run) is None ==> r is Activated
            && final(log_line)@ == old(log_line)@ + " activated"@,
        activation_command(old(plan).blocks@[index as int], run) matches Some(argv) ==> exists|absolute: bool, allowed: bool|
            program_flags(automation.allowed_executables@, argv, absolute, allowed) && #[trigger] activation_of(
                argv,
                authorization(automation.enabled, argv, absolute, allowed),
                secure,
                dry_run,
                old(log_line)@,
                final(log_line)@,
                r,
            ),
{
    let command: Option<Vec<String>> = if run {
        match &plan.blocks[index].run {
            Some(c) => Some(c.to_argv()),
            None => None,
        }
    } else {
        None
    };
    assert(command is None <==> activation_command(old(plan).blocks@[index as int], run) is None);
    assert(command is Some ==> activation_command(old(plan).blocks@[index as int], run) == Some(
        strings_view(command->0@),
    ));
    let mut b = plan.blocks.remove(index);
    b.status = Status::Active;
    plan.blocks.insert(index, b);
    match command {
        None => {
            let mut out = chars_of(log_line.as_str());
            push_str(&mut out, " activated");
            *log_line = string_of(out.as_slice());
            Activation::Activated
        },
        Some(argv) => {
            let ghost cmd = strings_view(argv@);
            let r = activate_command(argv, automation, secure, dry_run, log_line);
            let ghost argv2 = activation_command(old(plan).blocks@[index as int], run)->0;
            assert(argv2 == cmd);
            assert(exists|absolute: bool, allowed: bool|
                program_flags(automation.allowed_executables@, argv2, absolute, allowed) && #[trigger] activation_of(
                    argv2,
                    authorization(automation.enabled, argv2, absolute, allowed),
                    secure,
                    dry_run,
                    old(log_line)@,
                    log_line@,
                    r,
                ));
            r
        },
    }
}

/// The log text of a command that ran: its argv, outcome, output tails, the block's revision
/// and the instant it finished.
pub fn run_log_suffix(argv: &[String], outcome: &str, stdout: &str, stderr: &str, rev: &str, at: &str) -> (r: String)
    ensures
        r@ == " activated run: argv="@ + debug_strings_text(strings_view(argv@)) + " outcome="@ + outcome@
            + " stdout="@ + debug_str_text(stdout@) + " stderr="@ + debug_str_text(stderr@) + " rev="@ + rev@
            + " at="@ + at@,
{
    let mut out = chars_of(" activated run: argv=");
    let argv_text = debug_strings(argv);
    push_str(&mut out, argv_text.as_str());
    push_str(&mut out, " outcome=");
    push_str(&mut out, outcome);
    push_str(&mut out, " stdout=");
    let out_text = debug_str(stdout);
    push_str(&mut out, out_text.as_str());
    push_str(&mut out, " stderr=");
    let err_text = debug_str(stderr);
    push_str(&mut out, err_text.as_str());
    push_str(&mut out, " rev=");
    push_str(&mut out, rev);
    push_str(&mut out, " at=");
    push_str(&mut out, at);
    string_of(out.as_slice())
}

/// The block the `add` command builds: the given id or the title's slug, the span from exactly
/// one of end and duration, the given lead or the default, the command when one is given, pending,
/// with nothing else set.
pub fn added_block(
    id: Option<BlockId>,
    title: String,
    start: ClockTime,
    end: Option<ClockTime>,
    duration: Option<DurationSpec>,
    notify: Option<Lead>,
    default_lead: Lead,
    tags: Vec<String>,
    run: Vec<String>,
) -> (r: Result<Block, Error>)
    ensures
        r is Ok <==> (end is Some != duration is Some) && (run@.len() == 0 || valid_argv(run@)),
        end is Some == duration is Some ==> (r matches Err(Error::Usage(m)) && m@ == "set exactly one of --end or --duration"@),
        end is Some != duration is Some && run@.len() > 0 && !valid_argv(run@) ==> r == Err::<Block, Error>(Error::Field(FieldParseError::Run)),
        r matches Ok(b) ==> {
            &&& b.id@ == match id { Some(i) => i@, None => slug_of(title@) }
            &&& b.title@ == title@
            &&& b.start == start
            &&& b.span == match end { Some(e) => Span::End(e), None => Span::Duration(duration->0) }
            &&& b.notify == match notify { Some(l) => l, None => default_lead }
            &&& strings_view(b.tags@) == strings_view(tags@)
            &&& b.status == Status::Pending
            &&& run_view(b.run) == if run@.len() == 0 { None } else { Some(strings_view(run@)) }
            &&& b.recurrence is None && b.origin is None && b.retry is None && b.expect_by is None
            &&& b.approval is None && b.when is None && b.agent is None
            &&& b.after@.len() == 0 && b.on_success@.len() == 0 && b.on_failure@.len() == 0 && b.on_missed@.len() == 0
        },
{
    let id = match id {
        Some(i) => i,
        None => match slug_block_id(title.as_str()) {
            Ok(i) => i,
            Err(e) => return Err(e),
        },
    };
    let span = match span_from(end, duration) {
        Ok(s) => s,
        Err(e) => return Err(e),
    };
    let ghost run_in = run@;
    let run = match run_from(run) {
        Ok(r) => r,
        Err(e) => return Err(e),
    };
    proof {
        if run_in.len() > 0 {
            assert(run_view(run) == Some(strings_view(run_in)));
        }
    }
    Ok(Block {
        id,
        title,
        start,
        span,
        notify: match notify {
            Some(l) => l,
            None => default_lead,
        },
        tags,
        status: Status::Pending,
        run,
        recurrence: None,
        origin: None,
        after: Vec::new(),
        on_success: Vec::new(),
        on_failure: Vec::new(),
        on_missed: Vec::new(),
        retry: None,
        expect_by: None,
        approval: None,
        when: None,
        agent: None,
    })
}

/// The plan a command creates for a day that has none.
pub fn empty_plan(date: crate::civil::PlanDate, timezone: crate::model::TimeZoneName) -> (r: Plan)
    ensures
        r.date == date,
        r.timezone == timezone,
        r.blocks@.len() == 0,
{
    Plan { date, timezone, blocks: Vec::new() }
}

/// The plan a mutation loaded, or `NotFound` naming the day.
pub fn required_plan(existing: Option<Plan>, date: &crate::civil::PlanDate) -> (r: Result<Plan, Error>)
    ensures
        existing matches Some(p) ==> r == Ok::<Plan, Error>(p),
        existing is None ==> (r matches Err(Error::NotFound(m)) && m@ == "plan for "@ + date.spec_text()),
{
    match existing {
        Some(p) => Ok(p),
        None => {
            let mut m: Vec<char> = Vec::new();
            push_str(&mut m, "plan for ");
            let d = date.text_chars();
            push_all(&mut m, d.as_slice());
            Err(Error::NotFound(string_of(m.as_slice())))
        },
    }
}

} // verus!
