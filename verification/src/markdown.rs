//! Bounded Markdown intent interchange. A Markdown document is imported as
//! a Draft plan of intent only: Markdown never creates evidence, provider
//! authority, a live subject, or a closure record.
use crate::markdown_text::{
    after_prefix, begins_with, blank, copy_chars, count_lead, count_trail, crlf_chars, crlf_to_lf, find_sub, find_text, lead_count, strip_end, fence_of, fence_run, fence_step, fence_view, find_char, find_first,
    is_blank, join, lines_of, lower, next_fence, normalize_heading, split_by, same_chars, slice, split_chars, split_lines, strip, strip_chars, strip_prefix_chars,
    strip_start, strip_start_chars, trim, trim_chars, utf8_len, utf8_longer_than, views, CharClass,
};
use crate::text::{chars_of, owned, push_str, starts_with, string_of};
use crate::model::{plan_error, plan_parts_error, validation_message, AcceptanceCriterion, Plan, PlanItem, PlanItemStatus, PlanStatus, ValidationError};
use crate::identity::{CriterionId, PlanId, PlanItemId};
use crate::text_map::entries_map;
use vstd::prelude::*;
use vstd::utf8::{decode_utf8, valid_utf8};

verus! {

/// The marker line of a native document.
pub const NATIVE_MARKER: &'static str = "<!-- eggplan-markdown:v1 -->";

/// The info string of the fenced native payload.
pub const NATIVE_FENCE: &'static str = "eggplan-plan-json";

/// Largest accepted input, in bytes.
pub const MAX_INPUT_BYTES: usize = 16 * 1024 * 1024;

/// Largest accepted number of lines.
pub const MAX_LINES: usize = 20_000;

/// Largest accepted line, in bytes.
pub const MAX_LINE_BYTES: usize = 64 * 1024;

/// Largest accepted number of `## ` sections.
pub const MAX_SECTIONS: usize = 256;

/// Which importer reads a document.
#[derive(Debug, Clone, Copy, PartialEq, Eq, Structural)]
pub enum ImportFormat {
    /// Native when the document holds a native marker outside fenced
    /// code, otherwise Codegg.
    Auto,
    /// The native format: a marker and one fenced JSON payload.
    Eggplan,
    /// Codegg-style implementation plans.
    Codegg,
}

/// Why a document was refused.
#[derive(Debug, Clone, PartialEq, Eq)]
pub struct MarkdownError(pub String);

/// Calls `core::str::from_utf8`. Trusted: it succeeds exactly on valid
/// UTF-8 (as `vstd::utf8::valid_utf8` states it) and then holds the
/// decoded characters.
#[verifier::external_body]
fn decode_text(bytes: &[u8]) -> (r: Option<&str>)
    ensures
        r is Some <==> valid_utf8(bytes@),
        r matches Some(s) ==> s@ == decode_utf8(bytes@),
{
    core::str::from_utf8(bytes).ok()
}

/// The first of the first `n` lines that breaks the line bounds: too many
/// lines, or a line longer than `MAX_LINE_BYTES` bytes.
pub open spec fn lines_fault(ls: Seq<Seq<char>>, n: int) -> Option<Seq<char>>
    decreases n,
{
    if n <= 0 {
        None
    } else if lines_fault(ls, n - 1) is Some {
        lines_fault(ls, n - 1)
    } else if n > MAX_LINES {
        Some("Markdown line count exceeds limit"@)
    } else if utf8_len(ls[n - 1]) > MAX_LINE_BYTES {
        Some("Markdown line exceeds byte limit"@)
    } else {
        None
    }
}

/// Why an input is refused before any parsing, checked in order: size,
/// NUL, UTF-8, then the line bounds.
pub open spec fn input_fault(bytes: Seq<u8>) -> Option<Seq<char>> {
    if bytes.len() > MAX_INPUT_BYTES {
        Some("Markdown input exceeds byte limit"@)
    } else if bytes.contains(0u8) {
        Some("Markdown input contains NUL"@)
    } else if !valid_utf8(bytes) {
        Some("input is not UTF-8"@)
    } else {
        let ls = lines_of(decode_utf8(bytes));
        lines_fault(ls, ls.len() as int)
    }
}

proof fn lemma_lines_fault_stable(ls: Seq<Seq<char>>, n: int, m: int)
    requires
        0 <= n <= m,
    ensures
        lines_fault(ls, n) is Some ==> lines_fault(ls, m) == lines_fault(ls, n),
    decreases m - n,
{
    if m > n {
        lemma_lines_fault_stable(ls, n, m - 1);
    }
}

fn error(m: &str) -> (e: MarkdownError)
    ensures
        e.0@ == m@,
{
    MarkdownError(owned(m))
}

/// Checks the input bounds and decodes it (see `input_fault`).
fn checked_text(input: &[u8]) -> (r: Result<Vec<char>, MarkdownError>)
    ensures
        match r {
            Ok(t) => input_fault(input@) is None && t@ == decode_utf8(input@),
            Err(e) => input_fault(input@) == Some(e.0@),
        },
{
    if input.len() > MAX_INPUT_BYTES {
        return Err(error("Markdown input exceeds byte limit"));
    }
    let mut i: usize = 0;
    while i < input.len()
        invariant
            i <= input@.len(),
            input@.len() <= MAX_INPUT_BYTES,
            forall|j: int| 0 <= j < i ==> input@[j] != 0u8,
        decreases input.len() - i,
    {
        if input[i] == 0 {
            assert(input@.contains(0u8));
            return Err(error("Markdown input contains NUL"));
        }
        i = i + 1;
    }
    assert(!input@.contains(0u8));
    let text = match decode_text(input) {
        Some(t) => t,
        None => {
            return Err(error("input is not UTF-8"));
        },
    };
    let chars = chars_of(text);
    let lines = split_lines(&chars);
    let ghost ls = lines_of(decode_utf8(input@));
    let mut k: usize = 0;
    while k < lines.len()
        invariant
            k <= lines@.len(),
            input@.len() <= MAX_INPUT_BYTES,
            !input@.contains(0u8),
            valid_utf8(input@),
            ls == lines_of(decode_utf8(input@)),
            chars@ == decode_utf8(input@),
            views(lines@) == ls,
            lines_fault(ls, k as int) is None,
        decreases lines.len() - k,
    {
        assert(views(lines@)[k as int] == lines@[k as int]@);
        if k + 1 > MAX_LINES {
            proof {
                assert(lines_fault(ls, k + 1) == Some("Markdown line count exceeds limit"@));
                lemma_lines_fault_stable(ls, k + 1, ls.len() as int);
            }
            return Err(error("Markdown line count exceeds limit"));
        }
        if utf8_longer_than(&lines[k], MAX_LINE_BYTES) {
            proof {
                assert(lines_fault(ls, k + 1) == Some("Markdown line exceeds byte limit"@));
                lemma_lines_fault_stable(ls, k + 1, ls.len() as int);
            }
            return Err(error("Markdown line exceeds byte limit"));
        }
        k = k + 1;
    }
    Ok(chars)
}

/// Checks the input bounds: size, NUL, UTF-8, and the line bounds.
pub fn check_input(input: &[u8]) -> (r: Result<(), MarkdownError>)
    ensures
        match r {
            Ok(()) => input_fault(input@) is None,
            Err(e) => input_fault(input@) == Some(e.0@),
        },
{
    match checked_text(input) {
        Ok(_) => Ok(()),
        Err(e) => Err(e),
    }
}

/// The native markers after the first `n` lines, with the fence open
/// after them: trimmed lines that start `<!-- eggplan-markdown:` outside
/// fenced code.
pub open spec fn marker_scan(ls: Seq<Seq<char>>, n: int) -> (Option<(char, nat)>, Seq<Seq<char>>)
    decreases n,
{
    if n <= 0 {
        (None, Seq::empty())
    } else {
        let (open, found) = marker_scan(ls, n - 1);
        let line = ls[n - 1];
        if fence_run(line) is Some {
            (fence_step(open, line), found)
        } else if open is None && starts_with(trim(line), "<!-- eggplan-markdown:"@) {
            (open, found.push(trim(line)))
        } else {
            (open, found)
        }
    }
}

/// The native markers of a document.
pub open spec fn native_markers(text: Seq<char>) -> Seq<Seq<char>> {
    let ls = lines_of(text);
    marker_scan(ls, ls.len() as int).1
}

/// Collects the native markers (see `native_markers`).
fn markers_of(lines: &Vec<Vec<char>>) -> (r: Vec<Vec<char>>)
    ensures
        views(r@) == marker_scan(views(lines@), lines@.len() as int).1,
{
    let mut open: Option<(char, usize)> = None;
    let mut found: Vec<Vec<char>> = Vec::new();
    let mut k: usize = 0;
    while k < lines.len()
        invariant
            k <= lines@.len(),
            (fence_view(open), views(found@)) == marker_scan(views(lines@), k as int),
        decreases lines.len() - k,
    {
        let line = &lines[k];
        assert(views(lines@)[k as int] == line@);
        match fence_of(line) {
            Some(f) => {
                open = next_fence(open, &f);
            },
            None => {
                if open.is_none() {
                    let t = trim_chars(line);
                    if begins_with(&t, "<!-- eggplan-markdown:") {
                        found.push(t);
                        assert(views(found@) =~= marker_scan(views(lines@), k + 1).1);
                    }
                }
            },
        }
        k = k + 1;
    }
    found
}

/// The format a document is read as: native when it holds a native
/// marker outside fenced code.
pub open spec fn detected(text: Seq<char>) -> ImportFormat {
    if native_markers(text).len() > 0 {
        ImportFormat::Eggplan
    } else {
        ImportFormat::Codegg
    }
}

/// Detects the format of a checked input (see `detected`).
pub fn detect_format(input: &[u8]) -> (r: Result<ImportFormat, MarkdownError>)
    ensures
        match r {
            Ok(f) => input_fault(input@) is None && f == detected(decode_utf8(input@)),
            Err(e) => input_fault(input@) == Some(e.0@),
        },
{
    let chars = checked_text(input)?;
    let lines = split_lines(&chars);
    let markers = markers_of(&lines);
    if markers.len() > 0 {
        Ok(ImportFormat::Eggplan)
    } else {
        Ok(ImportFormat::Codegg)
    }
}

} // verus!

verus! {

/// A `## ` section of a Codegg document.
pub struct SectionV {
    pub title: Seq<char>,
    pub body: Seq<Seq<char>>,
}

/// A `### Work package` heading and the lines under it.
pub struct PackageV {
    pub label: Seq<char>,
    pub title: Seq<char>,
    pub body: Seq<Seq<char>>,
}

/// What a Codegg document holds after some of its lines.
pub struct ScanV {
    pub sections: Seq<SectionV>,
    pub packages: Seq<PackageV>,
    /// Lines go to the last work package rather than the last section.
    pub in_package: bool,
    pub fence: Option<(char, nat)>,
    pub saw_fence: bool,
    pub status: Option<Seq<char>>,
    pub revision: Option<Seq<char>>,
}

/// Nothing read yet.
pub open spec fn scan_start() -> ScanV {
    ScanV {
        sections: Seq::empty(),
        packages: Seq::empty(),
        in_package: false,
        fence: None,
        saw_fence: false,
        status: None,
        revision: None,
    }
}

/// A section title without its numbering, ASCII-lowercased.
pub open spec fn section_name(title: Seq<char>) -> Seq<char> {
    crate::text::lower_seq(strip_start(trim(title), CharClass::Numbering))
}

/// `s` ends with `p`.
pub open spec fn ends_with(s: Seq<char>, p: Seq<char>) -> bool {
    p.len() <= s.len() && s.skip(s.len() - p.len()) == p
}

/// A section that lists work packages.
pub open spec fn is_package_section(title: Seq<char>) -> bool {
    section_name(title) == "ordered work packages"@ || section_name(title) == "work packages"@
}

/// A section that lists acceptance criteria.
pub open spec fn is_acceptance_section(title: Seq<char>) -> bool {
    section_name(title) == "acceptance criteria"@ || ends_with(section_name(title), " acceptance criteria"@)
}

/// A work-package heading's label and title, split at the first em dash,
/// or else at the first hyphen.
pub open spec fn split_label(v: Seq<char>) -> Option<(Seq<char>, Seq<char>)> {
    match find_char(v, '\u{2014}') {
        Some(i) => Some((v.take(i as int), v.skip(i as int + 1))),
        None => match find_char(v, '-') {
            Some(i) => Some((v.take(i as int), v.skip(i as int + 1))),
            None => None,
        },
    }
}

/// The label and title of a trimmed `### Work package` heading. The label
/// loses surrounding backticks; both must be nonempty and the label at
/// most 64 bytes.
pub open spec fn package_heading(line: Seq<char>) -> Result<(Seq<char>, Seq<char>), Seq<char>> {
    match after_prefix(line, "### Work package "@) {
        None => Err("invalid work-package heading"@),
        Some(v) => match split_label(v) {
            None => Err("work-package heading must include a label and title"@),
            Some((l, t)) => {
                let label = strip(trim(l), CharClass::Backtick);
                let title = trim(t);
                if label.len() == 0 || title.len() == 0 || utf8_len(label) > 64 {
                    Err("invalid work-package label or title"@)
                } else {
                    Ok((label, title))
                }
            },
        },
    }
}

/// Reads `Status:` and `Repository baseline:` lines before the first
/// section; a second value that differs is refused.
pub open spec fn metadata_step(st: ScanV, line: Seq<char>) -> Result<ScanV, Seq<char>> {
    match after_prefix(line, "Status:"@) {
        Some(v0) => {
            let v = trim(v0);
            if st.status is Some && st.status != Some(v) {
                Err("conflicting source Status metadata"@)
            } else {
                Ok(ScanV { status: Some(v), ..st })
            }
        },
        None => match after_prefix(line, "Repository baseline:"@) {
            Some(v0) => {
                let v = strip(trim(v0), CharClass::Backtick);
                if st.revision is Some && st.revision != Some(v) {
                    Err("conflicting Repository baseline metadata"@)
                } else {
                    Ok(ScanV { revision: Some(v), ..st })
                }
            },
            None => Ok(st),
        },
    }
}

/// Reads one line of a Codegg document. Fenced code is skipped; `## `
/// opens a section; lines before any section are metadata; in a work
/// packages section `### Work package` opens a package; other lines go to
/// the open package or section.
pub open spec fn scan_step(st: ScanV, line: Seq<char>) -> Result<ScanV, Seq<char>> {
    if fence_run(line) is Some {
        Ok(ScanV { fence: fence_step(st.fence, line), saw_fence: st.saw_fence || st.fence is None, ..st })
    } else if st.fence is Some {
        Ok(st)
    } else if starts_with(line, "## "@) {
        if st.sections.len() >= MAX_SECTIONS {
            Err("section count exceeds limit"@)
        } else {
            Ok(
                ScanV {
                    sections: st.sections.push(SectionV { title: trim(line.skip(3)), body: Seq::empty() }),
                    in_package: false,
                    ..st
                },
            )
        }
    } else if st.sections.len() == 0 {
        metadata_step(st, line)
    } else if is_package_section(st.sections.last().title) && starts_with(line, "### Work package "@) {
        if st.packages.len() >= crate::bounds::MAX_ITEMS {
            Err("work-package count exceeds plan bounds"@)
        } else {
            match package_heading(trim(line)) {
                Ok((label, title)) => Ok(
                    ScanV {
                        packages: st.packages.push(PackageV { label, title, body: Seq::empty() }),
                        in_package: true,
                        ..st
                    },
                ),
                Err(e) => Err(e),
            }
        }
    } else if st.in_package && st.packages.len() > 0 {
        let p = st.packages.last();
        Ok(
            ScanV {
                packages: st.packages.update(st.packages.len() - 1, PackageV { body: p.body.push(line), ..p }),
                ..st
            },
        )
    } else {
        let s = st.sections.last();
        Ok(
            ScanV {
                sections: st.sections.update(st.sections.len() - 1, SectionV { body: s.body.push(line), ..s }),
                ..st
            },
        )
    }
}

/// The document after its first `n` lines, or the first refusal.
pub open spec fn scan_lines(ls: Seq<Seq<char>>, n: int) -> Result<ScanV, Seq<char>>
    decreases n,
{
    if n <= 0 {
        Ok(scan_start())
    } else {
        match scan_lines(ls, n - 1) {
            Ok(st) => scan_step(st, ls[n - 1]),
            Err(e) => Err(e),
        }
    }
}

/// The first `# ` heading outside fenced code whose text is not blank,
/// trimmed, with the fence open after the first `n` lines.
pub open spec fn h1_scan(ls: Seq<Seq<char>>, n: int) -> (Option<(char, nat)>, Option<Seq<char>>)
    decreases n,
{
    if n <= 0 {
        (None, None)
    } else {
        let (open, found) = h1_scan(ls, n - 1);
        let line = ls[n - 1];
        if found is Some {
            (open, found)
        } else if fence_run(line) is Some {
            (fence_step(open, line), None)
        } else if open is None && starts_with(line, "# "@) && !is_blank(line.skip(2)) {
            (open, Some(trim(line.skip(2))))
        } else {
            (open, None)
        }
    }
}

/// The title of a document: its first `# ` heading.
pub open spec fn first_h1(ls: Seq<Seq<char>>) -> Option<Seq<char>> {
    h1_scan(ls, ls.len() as int).1
}

struct Section {
    title: Vec<char>,
    body: Vec<Vec<char>>,
}

struct RawPackage {
    label: Vec<char>,
    title: Vec<char>,
    body: Vec<Vec<char>>,
}

struct Scan {
    sections: Vec<Section>,
    packages: Vec<RawPackage>,
    in_package: bool,
    fence: Option<(char, usize)>,
    saw_fence: bool,
    status: Option<Vec<char>>,
    revision: Option<Vec<char>>,
}

spec fn opt_view(v: Option<Vec<char>>) -> Option<Seq<char>> {
    match v {
        Some(x) => Some(x@),
        None => None,
    }
}

spec fn section_views(v: Seq<Section>) -> Seq<SectionV> {
    Seq::new(v.len(), |i: int| SectionV { title: v[i].title@, body: views(v[i].body@) })
}

spec fn package_views(v: Seq<RawPackage>) -> Seq<PackageV> {
    Seq::new(v.len(), |i: int| PackageV { label: v[i].label@, title: v[i].title@, body: views(v[i].body@) })
}

impl Scan {
    spec fn view(&self) -> ScanV {
        ScanV {
            sections: section_views(self.sections@),
            packages: package_views(self.packages@),
            in_package: self.in_package,
            fence: fence_view(self.fence),
            saw_fence: self.saw_fence,
            status: opt_view(self.status),
            revision: opt_view(self.revision),
        }
    }
}

fn section_name_chars(title: &Vec<char>) -> (r: Vec<char>)
    ensures
        r@ == section_name(title@),
{
    let t = trim_chars(title);
    let s = strip_start_chars(&t, CharClass::Numbering);
    lower(&s)
}

fn ends_with_chars(s: &Vec<char>, p: &str) -> (r: bool)
    ensures
        r == ends_with(s@, p@),
{
    let pc = chars_of(p);
    if pc.len() > s.len() {
        return false;
    }
    let tail = slice(s, s.len() - pc.len(), s.len());
    assert(tail@ =~= s@.skip(s@.len() - pc@.len()));
    same_chars(&tail, &pc)
}

fn equals_literal(s: &Vec<char>, p: &str) -> (r: bool)
    ensures
        r == (s@ == p@),
{
    let pc = chars_of(p);
    same_chars(s, &pc)
}

fn package_section(title: &Vec<char>) -> (r: bool)
    ensures
        r == is_package_section(title@),
{
    let n = section_name_chars(title);
    equals_literal(&n, "ordered work packages") || equals_literal(&n, "work packages")
}

fn acceptance_section(title: &Vec<char>) -> (r: bool)
    ensures
        r == is_acceptance_section(title@),
{
    let n = section_name_chars(title);
    equals_literal(&n, "acceptance criteria") || ends_with_chars(&n, " acceptance criteria")
}

fn parse_package_heading(line: &Vec<char>) -> (r: Result<(Vec<char>, Vec<char>), MarkdownError>)
    ensures
        match r {
            Ok((l, t)) => package_heading(line@) == Ok::<(Seq<char>, Seq<char>), Seq<char>>((l@, t@)),
            Err(e) => package_heading(line@) == Err::<(Seq<char>, Seq<char>), Seq<char>>(e.0@),
        },
{
    let v = match strip_prefix_chars(line, "### Work package ") {
        Some(v) => v,
        None => {
            return Err(error("invalid work-package heading"));
        },
    };
    let dash = find_first(&v, '\u{2014}');
    let at: usize = match dash {
        Some(i) => i,
        None => {
            let hyphen = find_first(&v, '-');
            match hyphen {
                Some(i) => i,
                None => {
                    return Err(error("work-package heading must include a label and title"));
                },
            }
        },
    };
    assert(at < v@.len());
    assert(at < v.len());
    let next: usize = at + 1;
    let l = slice(&v, 0, at);
    let t = slice(&v, next, v.len());
    assert(l@ =~= v@.take(at as int));
    assert(t@ =~= v@.skip(at as int + 1));
    let lt = trim_chars(&l);
    let label = strip_chars(&lt, CharClass::Backtick);
    let title = trim_chars(&t);
    if label.len() == 0 || title.len() == 0 || utf8_longer_than(&label, 64) {
        return Err(error("invalid work-package label or title"));
    }
    Ok((label, title))
}

fn metadata_line(st: Scan, line: &Vec<char>) -> (r: Result<Scan, MarkdownError>)
    ensures
        match r {
            Ok(s) => metadata_step(st.view(), line@) == Ok::<ScanV, Seq<char>>(s.view()),
            Err(e) => metadata_step(st.view(), line@) == Err::<ScanV, Seq<char>>(e.0@),
        },
{
    let mut st = st;
    match strip_prefix_chars(line, "Status:") {
        Some(v0) => {
            let v = trim_chars(&v0);
            let conflict = match &st.status {
                Some(prev) => !same_chars(prev, &v),
                None => false,
            };
            if conflict {
                return Err(error("conflicting source Status metadata"));
            }
            st.status = Some(v);
            return Ok(st);
        },
        None => {},
    }
    match strip_prefix_chars(line, "Repository baseline:") {
        Some(v0) => {
            let vt = trim_chars(&v0);
            let v = strip_chars(&vt, CharClass::Backtick);
            let conflict = match &st.revision {
                Some(prev) => !same_chars(prev, &v),
                None => false,
            };
            if conflict {
                return Err(error("conflicting Repository baseline metadata"));
            }
            st.revision = Some(v);
            Ok(st)
        },
        None => Ok(st),
    }
}

fn scan_line(st: Scan, line: &Vec<char>) -> (r: Result<Scan, MarkdownError>)
    ensures
        match r {
            Ok(s) => scan_step(st.view(), line@) == Ok::<ScanV, Seq<char>>(s.view()),
            Err(e) => scan_step(st.view(), line@) == Err::<ScanV, Seq<char>>(e.0@),
        },
{
    let mut st = st;
    let ghost v0 = st.view();
    match fence_of(line) {
        Some(f) => {
            let was_closed = st.fence.is_none();
            st.fence = next_fence(st.fence, &f);
            st.saw_fence = st.saw_fence || was_closed;
            assert(st.view() == ScanV { fence: fence_step(v0.fence, line@), saw_fence: v0.saw_fence || v0.fence is None, ..v0 });
            return Ok(st);
        },
        None => {},
    }
    if st.fence.is_some() {
        return Ok(st);
    }
    if let Some(rest) = strip_prefix_chars(line, "## ") {
        proof {
            reveal_strlit("## ");
        }
        if st.sections.len() >= MAX_SECTIONS {
            return Err(error("section count exceeds limit"));
        }
        let title = trim_chars(&rest);
        st.sections.push(Section { title, body: Vec::new() });
        st.in_package = false;
        assert(views(st.sections@.last().body@) =~= Seq::<Seq<char>>::empty());
        assert(section_views(st.sections@) =~= v0.sections.push(SectionV { title: trim(line@.skip(3)), body: Seq::empty() }));
        return Ok(st);
    }
    if st.sections.len() == 0 {
        return metadata_line(st, line);
    }
    let last = st.sections.len() - 1;
    assert(section_views(st.sections@)[last as int].title == st.sections@[last as int].title@);
    if package_section(&st.sections[last].title) && begins_with(line, "### Work package ") {
        if st.packages.len() >= crate::bounds::MAX_ITEMS {
            return Err(error("work-package count exceeds plan bounds"));
        }
        let t = trim_chars(line);
        let (label, title) = parse_package_heading(&t)?;
        st.packages.push(RawPackage { label, title, body: Vec::new() });
        st.in_package = true;
        assert(views(st.packages@.last().body@) =~= Seq::<Seq<char>>::empty());
        assert(package_views(st.packages@) =~= v0.packages.push(PackageV { label: label@, title: title@, body: Seq::empty() }));
        return Ok(st);
    }
    if st.in_package && st.packages.len() > 0 {
        let mut p = st.packages.pop().unwrap();
        p.body.push(copy_chars(line));
        st.packages.push(p);
        proof {
            let pv = v0.packages.last();
            assert(views(p.body@) =~= pv.body.push(line@));
            assert(package_views(st.packages@) =~= v0.packages.update(
                v0.packages.len() - 1,
                PackageV { body: pv.body.push(line@), ..pv },
            ));
        }
        return Ok(st);
    }
    let mut s = st.sections.pop().unwrap();
    s.body.push(copy_chars(line));
    st.sections.push(s);
    proof {
        let sv = v0.sections.last();
        assert(views(s.body@) =~= sv.body.push(line@));
        assert(section_views(st.sections@) =~= v0.sections.update(
            v0.sections.len() - 1,
            SectionV { body: sv.body.push(line@), ..sv },
        ));
    }
    Ok(st)
}

proof fn lemma_scan_err_stable(ls: Seq<Seq<char>>, n: int, m: int)
    requires
        0 <= n <= m,
        scan_lines(ls, n) is Err,
    ensures
        scan_lines(ls, m) == scan_lines(ls, n),
    decreases m - n,
{
    if m > n {
        lemma_scan_err_stable(ls, n, m - 1);
    }
}

fn scan_document(lines: &Vec<Vec<char>>) -> (r: Result<Scan, MarkdownError>)
    ensures
        match r {
            Ok(s) => scan_lines(views(lines@), lines@.len() as int) == Ok::<ScanV, Seq<char>>(s.view()),
            Err(e) => scan_lines(views(lines@), lines@.len() as int) == Err::<ScanV, Seq<char>>(e.0@),
        },
{
    let mut st = Scan {
        sections: Vec::new(),
        packages: Vec::new(),
        in_package: false,
        fence: None,
        saw_fence: false,
        status: None,
        revision: None,
    };
    assert(section_views(st.sections@) =~= Seq::<SectionV>::empty());
    assert(package_views(st.packages@) =~= Seq::<PackageV>::empty());
    assert(st.view() == scan_start());
    let mut k: usize = 0;
    while k < lines.len()
        invariant
            k <= lines@.len(),
            scan_lines(views(lines@), k as int) == Ok::<ScanV, Seq<char>>(st.view()),
        decreases lines.len() - k,
    {
        assert(views(lines@)[k as int] == lines@[k as int]@);
        match scan_line(st, &lines[k]) {
            Ok(s) => {
                st = s;
            },
            Err(e) => {
                proof {
                    lemma_scan_err_stable(views(lines@), k + 1, lines@.len() as int);
                }
                return Err(e);
            },
        }
        k = k + 1;
    }
    Ok(st)
}

fn title_of(lines: &Vec<Vec<char>>) -> (r: Option<Vec<char>>)
    ensures
        opt_view(r) == first_h1(views(lines@)),
{
    let mut open: Option<(char, usize)> = None;
    let mut k: usize = 0;
    while k < lines.len()
        invariant
            k <= lines@.len(),
            h1_scan(views(lines@), k as int) == (fence_view(open), None::<Seq<char>>),
        decreases lines.len() - k,
    {
        let line = &lines[k];
        assert(views(lines@)[k as int] == line@);
        match fence_of(line) {
            Some(f) => {
                open = next_fence(open, &f);
            },
            None => {
                if open.is_none() {
                    match strip_prefix_chars(line, "# ") {
                        Some(rest) => {
                            if !blank(&rest) {
                                proof {
                                    reveal_strlit("# ");
                                    assert(rest@ =~= line@.skip(2));
                                    lemma_h1_found(views(lines@), k as int + 1, lines@.len() as int);
                                }
                                return Some(trim_chars(&rest));
                            }
                            proof {
                                reveal_strlit("# ");
                                assert(rest@ =~= line@.skip(2));
                            }
                        },
                        None => {},
                    }
                }
            },
        }
        k = k + 1;
    }
    None
}

proof fn lemma_h1_found(ls: Seq<Seq<char>>, n: int, m: int)
    requires
        0 <= n <= m,
        h1_scan(ls, n).1 is Some,
    ensures
        h1_scan(ls, m).1 == h1_scan(ls, n).1,
    decreases m - n,
{
    if m > n {
        lemma_h1_found(ls, n, m - 1);
    }
}

} // verus!

verus! {

/// The first 24 hex digits of the SHA-256 of a text's UTF-8 bytes.
pub open spec fn short_hash(v: Seq<char>) -> Seq<char> {
    crate::digest::hex_lower(crate::digest::sha256_spec(vstd::utf8::encode_utf8(v))).take(24)
}

/// What generated identifiers derive from: the source name when given,
/// else the hex SHA-256 of the input bytes.
pub open spec fn source_identity(input: Seq<u8>, name: Option<Seq<char>>) -> Seq<char> {
    match name {
        Some(n) => n,
        None => crate::digest::hex_lower(crate::digest::sha256_spec(input)),
    }
}

/// `a`, a NUL, then `b`.
pub open spec fn nul_join(a: Seq<char>, b: Seq<char>) -> Seq<char> {
    a + seq!['\0'] + b
}

/// The generated identifier of a work package.
pub open spec fn package_id(identity: Seq<char>, title: Seq<char>) -> Seq<char> {
    "epi_md_"@ + short_hash(nul_join(identity, normalize_heading(title)))
}

/// The generated identifier of the plan-level acceptance item.
pub open spec fn acceptance_item_id(identity: Seq<char>) -> Seq<char> {
    "epi_md_"@ + short_hash(nul_join(identity, "acceptance-intent"@))
}

/// The generated identifier of the `index`th acceptance statement.
pub open spec fn criterion_id(identity: Seq<char>, index: nat, statement: Seq<char>) -> Seq<char> {
    "epc_md_"@ + short_hash(
        nul_join(nul_join(nul_join(identity, "acceptance"@), crate::json::decimal(index)), statement),
    )
}

/// At most `max` characters of a text; a blank result becomes
/// `Imported text`.
pub open spec fn bounded(v: Seq<char>, max: nat) -> Seq<char> {
    let o = if v.len() > max {
        v.take(max as int)
    } else {
        v
    };
    if is_blank(o) {
        "Imported text"@
    } else {
        o
    }
}

/// The value of a dependency line: after `Dependencies:` or `Depends on:`
/// in the trimmed line.
pub open spec fn dep_value(line: Seq<char>) -> Option<Seq<char>> {
    match after_prefix(trim(line), "Dependencies:"@) {
        Some(v) => Some(v),
        None => after_prefix(trim(line), "Depends on:"@),
    }
}

/// The comma-separated parts of a dependency list, trimmed.
pub open spec fn dep_parts(v: Seq<char>) -> Seq<Seq<char>> {
    split_by(v, ',').map_values(|p: Seq<char>| trim(p))
}

/// A dependency target: without backticks, ASCII-lowercased.
pub open spec fn dep_target(p: Seq<char>) -> Seq<char> {
    crate::text::lower_seq(strip(p, CharClass::Backtick))
}

/// The dependency targets and content lines of the first `n` lines of a
/// work package; an empty part of a dependency list is refused.
pub open spec fn body_scan(body: Seq<Seq<char>>, n: int) -> Result<(Seq<Seq<char>>, Seq<Seq<char>>), Seq<char>>
    decreases n,
{
    if n <= 0 {
        Ok((Seq::empty(), Seq::empty()))
    } else {
        match body_scan(body, n - 1) {
            Err(e) => Err(e),
            Ok((deps, content)) => {
                let line = body[n - 1];
                match dep_value(line) {
                    Some(v) => {
                        let parts = dep_parts(v);
                        if exists|i: int| 0 <= i < parts.len() && (#[trigger] parts[i]).len() == 0 {
                            Err("malformed dependency reference list"@)
                        } else {
                            Ok((deps + parts.map_values(|p: Seq<char>| dep_target(p)), content))
                        }
                    },
                    None => if is_blank(line) {
                        Ok((deps, content))
                    } else {
                        Ok((deps, content.push(line)))
                    },
                }
            },
        }
    }
}

/// A generated identifier: the prefix and 24 lowercase hex digits.
pub open spec fn md_hex_id(s: Seq<char>, p: Seq<char>) -> bool {
    &&& s.len() == p.len() + 24
    &&& s.take(p.len() as int) == p
    &&& forall|i: int| p.len() <= i < s.len() ==> crate::digest::is_lower_hex(#[trigger] s[i])
}

/// A work package with its generated identifier.
pub struct WorkV {
    /// The label, ASCII-lowercased.
    pub key: Seq<char>,
    pub id: Seq<char>,
    pub title: Seq<char>,
    pub content: Seq<Seq<char>>,
    pub deps: Seq<Seq<char>>,
}

/// The first `n` work packages, refusing a repeated label and a repeated
/// generated identifier.
pub open spec fn work_fold(identity: Seq<char>, raws: Seq<PackageV>, n: int) -> Result<Seq<WorkV>, Seq<char>>
    decreases n,
{
    if n <= 0 {
        Ok(Seq::empty())
    } else {
        match work_fold(identity, raws, n - 1) {
            Err(e) => Err(e),
            Ok(ws) => {
                let p = raws[n - 1];
                let key = crate::text::lower_seq(p.label);
                let id = package_id(identity, p.title);
                if exists|j: int| 0 <= j < ws.len() && (#[trigger] ws[j]).key == key {
                    Err("duplicate work-package label"@)
                } else if exists|j: int| 0 <= j < ws.len() && (#[trigger] ws[j]).id == id {
                    Err("generated work-package ID collision"@)
                } else {
                    match body_scan(p.body, p.body.len() as int) {
                        Err(e) => Err(e),
                        Ok((deps, content)) => Ok(ws.push(WorkV { key, id, title: p.title, content, deps })),
                    }
                }
            },
        }
    }
}

/// The index of the work package with a key.
pub open spec fn resolve(ws: Seq<WorkV>, key: Seq<char>) -> Option<nat>
    decreases ws.len(),
{
    if ws.len() == 0 {
        None
    } else {
        match resolve(ws.drop_last(), key) {
            Some(j) => Some(j),
            None => if ws.last().key == key {
                Some((ws.len() - 1) as nat)
            } else {
                None
            },
        }
    }
}

/// The dependency identifiers of the first `m` targets of work package
/// `w`; an unknown target or one naming the package itself is refused.
pub open spec fn deps_fold(ws: Seq<WorkV>, w: WorkV, m: int) -> Result<Seq<Seq<char>>, Seq<char>>
    decreases m,
{
    if m <= 0 {
        Ok(Seq::empty())
    } else {
        match deps_fold(ws, w, m - 1) {
            Err(e) => Err(e),
            Ok(ids) => {
                let t = w.deps[m - 1];
                match resolve(ws, t) {
                    None => Err("malformed dependency reference `"@ + t + "`"@),
                    Some(j) => if ws[j as int].id == w.id {
                        Err("work package depends on itself"@)
                    } else {
                        Ok(ids.push(ws[j as int].id))
                    },
                }
            },
        }
    }
}

/// The text of a work package: its content lines joined and trimmed, or
/// its title when it has none.
pub open spec fn package_text(w: WorkV) -> Seq<char> {
    if w.content.len() == 0 {
        w.title
    } else {
        trim(join(w.content, '\n'))
    }
}

/// A plan item drafted from a work package.
pub struct DraftV {
    pub id: Seq<char>,
    pub deps: Seq<Seq<char>>,
    pub description: Seq<char>,
    pub truncated: bool,
}

/// The drafts of the first `n` work packages, or the first refusal.
pub open spec fn draft_fold(ws: Seq<WorkV>, n: int) -> Result<Seq<DraftV>, Seq<char>>
    decreases n,
{
    if n <= 0 {
        Ok(Seq::empty())
    } else {
        match draft_fold(ws, n - 1) {
            Err(e) => Err(e),
            Ok(ds) => {
                let w = ws[n - 1];
                match deps_fold(ws, w, w.deps.len() as int) {
                    Err(e) => Err(e),
                    Ok(ids) => Ok(
                        ds.push(
                            DraftV {
                                id: w.id,
                                deps: ids,
                                description: bounded(package_text(w), crate::bounds::DESCRIPTION_CHARS as nat),
                                truncated: package_text(w).len() > crate::bounds::DESCRIPTION_CHARS,
                            },
                        ),
                    ),
                }
            },
        }
    }
}

} // verus!

verus! {

fn dependency_value(line: &Vec<char>) -> (r: Option<Vec<char>>)
    ensures
        opt_view(r) == dep_value(line@),
{
    let t = trim_chars(line);
    match strip_prefix_chars(&t, "Dependencies:") {
        Some(v) => Some(v),
        None => strip_prefix_chars(&t, "Depends on:"),
    }
}

proof fn lemma_body_scan_err(body: Seq<Seq<char>>, n: int, m: int)
    requires
        0 <= n <= m,
        body_scan(body, n) is Err,
    ensures
        body_scan(body, m) == body_scan(body, n),
    decreases m - n,
{
    if m > n {
        lemma_body_scan_err(body, n, m - 1);
    }
}

fn scan_body(body: &Vec<Vec<char>>) -> (r: Result<(Vec<Vec<char>>, Vec<Vec<char>>), MarkdownError>)
    ensures
        match r {
            Ok((d, c)) => body_scan(views(body@), body@.len() as int) == Ok::<
                (Seq<Seq<char>>, Seq<Seq<char>>),
                Seq<char>,
            >((views(d@), views(c@))),
            Err(e) => body_scan(views(body@), body@.len() as int) == Err::<
                (Seq<Seq<char>>, Seq<Seq<char>>),
                Seq<char>,
            >(e.0@),
        },
{
    let mut deps: Vec<Vec<char>> = Vec::new();
    let mut content: Vec<Vec<char>> = Vec::new();
    let mut k: usize = 0;
    assert(views(deps@) =~= Seq::<Seq<char>>::empty());
    assert(views(content@) =~= Seq::<Seq<char>>::empty());
    while k < body.len()
        invariant
            k <= body@.len(),
            body_scan(views(body@), k as int) == Ok::<(Seq<Seq<char>>, Seq<Seq<char>>), Seq<char>>(
                (views(deps@), views(content@)),
            ),
        decreases body.len() - k,
    {
        let line = &body[k];
        assert(views(body@)[k as int] == line@);
        match dependency_value(line) {
            Some(v) => {
                let parts = split_chars(&v, ',');
                let ghost ps = dep_parts(v@);
                let ghost d0 = views(deps@);
                let mut i: usize = 0;
                while i < parts.len()
                    invariant
                        k < body@.len(),
                        views(body@)[k as int] == line@,
                        dep_value(line@) == Some(v@),
                        body_scan(views(body@), k as int) == Ok::<(Seq<Seq<char>>, Seq<Seq<char>>), Seq<char>>(
                            (d0, views(content@)),
                        ),
                        i <= parts@.len(),
                        views(parts@) == split_by(v@, ','),
                        ps == dep_parts(v@),
                        ps.len() == parts@.len(),
                        forall|j: int| 0 <= j < i ==> (#[trigger] ps[j]).len() != 0,
                        views(deps@) == d0 + ps.take(i as int).map_values(|p: Seq<char>| dep_target(p)),
                    decreases parts.len() - i,
                {
                    let p = trim_chars(&parts[i]);
                    assert(views(parts@)[i as int] == parts@[i as int]@);
                    assert(ps[i as int] == p@);
                    if p.len() == 0 {
                        proof {
                            assert(ps[i as int].len() == 0);
                            assert(body_scan(views(body@), k + 1) is Err);
                            lemma_body_scan_err(views(body@), k + 1, body@.len() as int);
                        }
                        return Err(error("malformed dependency reference list"));
                    }
                    let s = strip_chars(&p, CharClass::Backtick);
                    let target = lower(&s);
                    let ghost before = views(deps@);
                    deps.push(target);
                    assert(views(deps@) =~= before.push(dep_target(p@)));
                    i = i + 1;
                    proof {
                        assert(ps.take(i as int).map_values(|p: Seq<char>| dep_target(p)) =~= ps.take(i - 1).map_values(
                            |p: Seq<char>| dep_target(p),
                        ).push(dep_target(p@)));
                        assert(views(deps@) =~= d0 + ps.take(i as int).map_values(|p: Seq<char>| dep_target(p)));
                    }
                }
                assert(ps.take(ps.len() as int) =~= ps);
            },
            None => {
                if !blank(line) {
                    content.push(copy_chars(line));
                    assert(views(content@) =~= body_scan(views(body@), k + 1)->Ok_0.1);
                }
            },
        }
        k = k + 1;
    }
    Ok((deps, content))
}

struct Work {
    key: Vec<char>,
    id: Vec<char>,
    title: Vec<char>,
    content: Vec<Vec<char>>,
    deps: Vec<Vec<char>>,
}

spec fn work_views(v: Seq<Work>) -> Seq<WorkV> {
    Seq::new(
        v.len(),
        |i: int| WorkV { key: v[i].key@, id: v[i].id@, title: v[i].title@, content: views(v[i].content@), deps: views(v[i].deps@) },
    )
}

fn hash24(value: &Vec<char>) -> (r: Vec<char>)
    ensures
        r@ == short_hash(value@),
        r@.len() == 24,
        forall|i: int| 0 <= i < 24 ==> crate::digest::is_lower_hex(#[trigger] r@[i]),
{
    let s = string_of(value);
    let h = crate::digest::hex_sha256(s.as_str().as_bytes());
    let hc = chars_of(h.as_str());
    let r = slice(&hc, 0, 24);
    assert(r@ =~= short_hash(value@));
    r
}

fn prefixed(prefix: &str, tail: &Vec<char>) -> (r: Vec<char>)
    ensures
        r@ == prefix@ + tail@,
{
    let mut r = chars_of(prefix);
    let mut i: usize = 0;
    let ghost start = r@;
    while i < tail.len()
        invariant
            i <= tail@.len(),
            r@ == start + tail@.take(i as int),
        decreases tail.len() - i,
    {
        r.push(tail[i]);
        i = i + 1;
        assert(r@ =~= start + tail@.take(i as int));
    }
    assert(tail@.take(tail@.len() as int) =~= tail@);
    r
}

fn concat(a: &Vec<char>, b: &Vec<char>) -> (r: Vec<char>)
    ensures
        r@ == a@ + b@,
{
    let mut r = copy_chars(a);
    let mut i: usize = 0;
    while i < b.len()
        invariant
            i <= b@.len(),
            r@ == a@ + b@.take(i as int),
        decreases b.len() - i,
    {
        r.push(b[i]);
        i = i + 1;
        assert(r@ =~= a@ + b@.take(i as int));
    }
    assert(b@.take(b@.len() as int) =~= b@);
    r
}

fn nul_joined(a: &Vec<char>, b: &Vec<char>) -> (r: Vec<char>)
    ensures
        r@ == nul_join(a@, b@),
{
    let mut x = copy_chars(a);
    x.push('\0');
    concat(&x, b)
}

fn has_key(ws: &Vec<Work>, key: &Vec<char>) -> (r: bool)
    ensures
        r == exists|j: int| 0 <= j < ws@.len() && (#[trigger] work_views(ws@)[j]).key == key@,
{
    let mut j: usize = 0;
    while j < ws.len()
        invariant
            j <= ws@.len(),
            forall|i: int| 0 <= i < j ==> (#[trigger] work_views(ws@)[i]).key != key@,
        decreases ws.len() - j,
    {
        if same_chars(&ws[j].key, key) {
            assert(work_views(ws@)[j as int].key == key@);
            return true;
        }
        j = j + 1;
    }
    false
}

fn has_id(ws: &Vec<Work>, id: &Vec<char>) -> (r: bool)
    ensures
        r == exists|j: int| 0 <= j < ws@.len() && (#[trigger] work_views(ws@)[j]).id == id@,
{
    let mut j: usize = 0;
    while j < ws.len()
        invariant
            j <= ws@.len(),
            forall|i: int| 0 <= i < j ==> (#[trigger] work_views(ws@)[i]).id != id@,
        decreases ws.len() - j,
    {
        if same_chars(&ws[j].id, id) {
            assert(work_views(ws@)[j as int].id == id@);
            return true;
        }
        j = j + 1;
    }
    false
}

proof fn lemma_work_fold_err(identity: Seq<char>, raws: Seq<PackageV>, n: int, m: int)
    requires
        0 <= n <= m,
        work_fold(identity, raws, n) is Err,
    ensures
        work_fold(identity, raws, m) == work_fold(identity, raws, n),
    decreases m - n,
{
    if m > n {
        lemma_work_fold_err(identity, raws, n, m - 1);
    }
}

fn build_works(identity: &Vec<char>, raws: &Vec<RawPackage>) -> (r: Result<Vec<Work>, MarkdownError>)
    ensures
        match r {
            Ok(ws) => work_fold(identity@, package_views(raws@), raws@.len() as int) == Ok::<
                Seq<WorkV>,
                Seq<char>,
            >(work_views(ws@)) && (forall|j: int| 0 <= j < ws@.len() ==> md_hex_id(#[trigger] ws@[j].id@, "epi_md_"@)),
            Err(e) => work_fold(identity@, package_views(raws@), raws@.len() as int) == Err::<
                Seq<WorkV>,
                Seq<char>,
            >(e.0@),
        },
{
    let mut ws: Vec<Work> = Vec::new();
    let mut n: usize = 0;
    assert(work_views(ws@) =~= Seq::<WorkV>::empty());
    while n < raws.len()
        invariant
            n <= raws@.len(),
            work_fold(identity@, package_views(raws@), n as int) == Ok::<Seq<WorkV>, Seq<char>>(work_views(ws@)),
            forall|j: int| 0 <= j < ws@.len() ==> md_hex_id(#[trigger] ws@[j].id@, "epi_md_"@),
        decreases raws.len() - n,
    {
        let p = &raws[n];
        assert(package_views(raws@)[n as int] == PackageV { label: p.label@, title: p.title@, body: views(p.body@) });
        let key = lower(&p.label);
        let norm = crate::markdown_text::normalize_heading_chars(&p.title);
        let seed = nul_joined(identity, &norm);
        let h = hash24(&seed);
        let id = prefixed("epi_md_", &h);
        assert(id@.take(7) =~= "epi_md_"@) by {
            reveal_strlit("epi_md_");
        }
        proof {
            reveal_strlit("epi_md_");
            assert forall|i: int| 7 <= i < id@.len() implies crate::digest::is_lower_hex(#[trigger] id@[i]) by {
                assert(id@[i] == h@[i - 7]);
            }
        }
        if has_key(&ws, &key) {
            proof {
                lemma_work_fold_err(identity@, package_views(raws@), n + 1, raws@.len() as int);
            }
            return Err(error("duplicate work-package label"));
        }
        if has_id(&ws, &id) {
            proof {
                lemma_work_fold_err(identity@, package_views(raws@), n + 1, raws@.len() as int);
            }
            return Err(error("generated work-package ID collision"));
        }
        match scan_body(&p.body) {
            Err(e) => {
                proof {
                    lemma_work_fold_err(identity@, package_views(raws@), n + 1, raws@.len() as int);
                }
                return Err(e);
            },
            Ok((deps, content)) => {
                let title = copy_chars(&p.title);
                ws.push(Work { key, id, title, content, deps });
                assert(work_views(ws@) =~= work_fold(identity@, package_views(raws@), n + 1)->Ok_0);
            },
        }
        n = n + 1;
    }
    Ok(ws)
}

fn resolve_key(ws: &Vec<Work>, key: &Vec<char>) -> (r: Option<usize>)
    ensures
        match r {
            Some(j) => resolve(work_views(ws@), key@) == Some(j as nat) && j < ws@.len(),
            None => resolve(work_views(ws@), key@) is None,
        },
{
    let mut j: usize = 0;
    while j < ws.len()
        invariant
            j <= ws@.len(),
            resolve(work_views(ws@).take(j as int), key@) is None,
        decreases ws.len() - j,
    {
        proof {
            assert(work_views(ws@).take(j + 1).drop_last() =~= work_views(ws@).take(j as int));
        }
        if same_chars(&ws[j].key, key) {
            proof {
                lemma_resolve_prefix(work_views(ws@), key@, j + 1);
            }
            return Some(j);
        }
        j = j + 1;
    }
    assert(work_views(ws@).take(ws@.len() as int) =~= work_views(ws@));
    None
}

proof fn lemma_resolve_prefix(ws: Seq<WorkV>, key: Seq<char>, n: int)
    requires
        0 <= n <= ws.len(),
        resolve(ws.take(n), key) is Some,
    ensures
        resolve(ws, key) == resolve(ws.take(n), key),
    decreases ws.len() - n,
{
    if n < ws.len() {
        assert(ws.take(n + 1).drop_last() =~= ws.take(n));
        lemma_resolve_prefix(ws, key, n + 1);
    } else {
        assert(ws.take(n) =~= ws);
    }
}

proof fn lemma_deps_fold_err(ws: Seq<WorkV>, w: WorkV, n: int, m: int)
    requires
        0 <= n <= m,
        deps_fold(ws, w, n) is Err,
    ensures
        deps_fold(ws, w, m) == deps_fold(ws, w, n),
    decreases m - n,
{
    if m > n {
        lemma_deps_fold_err(ws, w, n, m - 1);
    }
}

struct Draft {
    id: Vec<char>,
    deps: Vec<Vec<char>>,
    description: Vec<char>,
    truncated: bool,
}

spec fn draft_views(v: Seq<Draft>) -> Seq<DraftV> {
    Seq::new(
        v.len(),
        |i: int| DraftV { id: v[i].id@, deps: views(v[i].deps@), description: v[i].description@, truncated: v[i].truncated },
    )
}

/// Bounds a text (see `bounded`), reporting whether it was cut.
fn bounded_chars(v: &Vec<char>, max: usize) -> (r: (Vec<char>, bool))
    ensures
        r.0@ == bounded(v@, max as nat),
        r.1 == (v@.len() > max),
{
    let o = if v.len() > max {
        slice(v, 0, max)
    } else {
        copy_chars(v)
    };
    assert(v@.len() > max ==> o@ =~= v@.take(max as int));
    if blank(&o) {
        (chars_of("Imported text"), v.len() > max)
    } else {
        (o, v.len() > max)
    }
}

proof fn lemma_draft_fold_err(ws: Seq<WorkV>, n: int, m: int)
    requires
        0 <= n <= m,
        draft_fold(ws, n) is Err,
    ensures
        draft_fold(ws, m) == draft_fold(ws, n),
    decreases m - n,
{
    if m > n {
        lemma_draft_fold_err(ws, n, m - 1);
    }
}

fn build_drafts(ws: &Vec<Work>) -> (r: Result<Vec<Draft>, MarkdownError>)
    requires
        forall|j: int| 0 <= j < ws@.len() ==> md_hex_id(#[trigger] ws@[j].id@, "epi_md_"@),
    ensures
        match r {
            Ok(ds) => draft_fold(work_views(ws@), ws@.len() as int) == Ok::<Seq<DraftV>, Seq<char>>(draft_views(ds@))
                && (forall|j: int| 0 <= j < ds@.len() ==> md_hex_id(#[trigger] ds@[j].id@, "epi_md_"@))
                && (forall|j: int, k: int| 0 <= j < ds@.len() && 0 <= k < ds@[j].deps@.len() ==> md_hex_id(
                    #[trigger] ds@[j].deps@[k]@,
                    "epi_md_"@,
                )),
            Err(e) => draft_fold(work_views(ws@), ws@.len() as int) == Err::<Seq<DraftV>, Seq<char>>(e.0@),
        },
{
    let ghost wv = work_views(ws@);
    let mut ds: Vec<Draft> = Vec::new();
    let mut n: usize = 0;
    assert(draft_views(ds@) =~= Seq::<DraftV>::empty());
    while n < ws.len()
        invariant
            n <= ws@.len(),
            wv == work_views(ws@),
            draft_fold(wv, n as int) == Ok::<Seq<DraftV>, Seq<char>>(draft_views(ds@)),
            forall|j: int| 0 <= j < ws@.len() ==> md_hex_id(#[trigger] ws@[j].id@, "epi_md_"@),
            forall|j: int| 0 <= j < ds@.len() ==> md_hex_id(#[trigger] ds@[j].id@, "epi_md_"@),
            forall|j: int, k: int| 0 <= j < ds@.len() && 0 <= k < ds@[j].deps@.len() ==> md_hex_id(
                #[trigger] ds@[j].deps@[k]@,
                "epi_md_"@,
            ),
        decreases ws.len() - n,
    {
        let w = &ws[n];
        let ghost w_v = wv[n as int];
        assert(w_v == WorkV { key: w.key@, id: w.id@, title: w.title@, content: views(w.content@), deps: views(w.deps@) });
        let mut ids: Vec<Vec<char>> = Vec::new();
        let mut m: usize = 0;
        assert(views(ids@) =~= Seq::<Seq<char>>::empty());
        while m < w.deps.len()
            invariant
                n < ws@.len(),
                m <= w.deps@.len(),
                wv == work_views(ws@),
                w_v == wv[n as int],
                w_v.deps == views(w.deps@),
                w_v.id == w.id@,
                deps_fold(wv, w_v, m as int) == Ok::<Seq<Seq<char>>, Seq<char>>(views(ids@)),
                draft_fold(wv, n as int) == Ok::<Seq<DraftV>, Seq<char>>(draft_views(ds@)),
                forall|j: int| 0 <= j < ws@.len() ==> md_hex_id(#[trigger] ws@[j].id@, "epi_md_"@),
                forall|j: int| 0 <= j < ds@.len() ==> md_hex_id(#[trigger] ds@[j].id@, "epi_md_"@),
                forall|j: int, k: int| 0 <= j < ds@.len() && 0 <= k < ds@[j].deps@.len() ==> md_hex_id(
                    #[trigger] ds@[j].deps@[k]@,
                    "epi_md_"@,
                ),
                forall|k: int| 0 <= k < ids@.len() ==> md_hex_id(#[trigger] ids@[k]@, "epi_md_"@),
            decreases w.deps.len() - m,
        {
            let t = &w.deps[m];
            assert(w_v.deps[m as int] == t@);
            match resolve_key(ws, t) {
                None => {
                    let mut msg = owned("malformed dependency reference `");
                    push_str(&mut msg, string_of(t).as_str());
                    push_str(&mut msg, "`");
                    proof {
                        lemma_deps_fold_err(wv, w_v, m + 1, w_v.deps.len() as int);
                        lemma_draft_fold_err(wv, n + 1, wv.len() as int);
                    }
                    return Err(MarkdownError(msg));
                },
                Some(j) => {
                    assert(wv[j as int].id == ws@[j as int].id@);
                    if same_chars(&ws[j].id, &w.id) {
                        proof {
                            lemma_deps_fold_err(wv, w_v, m + 1, w_v.deps.len() as int);
                            lemma_draft_fold_err(wv, n + 1, wv.len() as int);
                        }
                        return Err(error("work package depends on itself"));
                    }
                    ids.push(copy_chars(&ws[j].id));
                    assert(views(ids@) =~= deps_fold(wv, w_v, m + 1)->Ok_0);
                },
            }
            m = m + 1;
        }
        let text = if w.content.len() == 0 {
            copy_chars(&w.title)
        } else {
            let j = crate::markdown_text::join_chars(&w.content, '\n');
            trim_chars(&j)
        };
        assert(text@ == package_text(w_v));
        let (description, cut) = bounded_chars(&text, crate::bounds::DESCRIPTION_CHARS);
        ds.push(Draft { id: copy_chars(&w.id), deps: ids, description, truncated: cut });
        assert(draft_views(ds@) =~= draft_fold(wv, n + 1)->Ok_0);
        n = n + 1;
    }
    Ok(ds)
}

} // verus!

verus! {

/// A list item's text without its marker: `- `, `* `, or digits followed
/// by `. ` or `) `, then trimmed; other text is unchanged.
pub open spec fn strip_list_marker(t: Seq<char>) -> Seq<char> {
    match after_prefix(t, "- "@) {
        Some(r) => trim(r),
        None => match after_prefix(t, "* "@) {
            Some(r) => trim(r),
            None => {
                let d = lead_count(t, CharClass::Digit);
                if d > 0 {
                    match after_prefix(t.skip(d as int), ". "@) {
                        Some(r) => trim(r),
                        None => match after_prefix(t.skip(d as int), ") "@) {
                            Some(r) => trim(r),
                            None => t,
                        },
                    }
                } else {
                    t
                }
            },
        },
    }
}

/// The acceptance statements of the first `n` lines: each nonblank line
/// trimmed and without its list marker, when something remains.
pub open spec fn statement_scan(lines: Seq<Seq<char>>, n: int) -> Seq<Seq<char>>
    decreases n,
{
    if n <= 0 {
        Seq::empty()
    } else {
        let prev = statement_scan(lines, n - 1);
        let t = trim(lines[n - 1]);
        if t.len() == 0 || strip_list_marker(t).len() == 0 {
            prev
        } else {
            prev.push(strip_list_marker(t))
        }
    }
}

/// The acceptance statements of a section body, at most `MAX_CRITERIA`.
pub open spec fn statements(lines: Seq<Seq<char>>) -> Seq<Seq<char>> {
    let v = statement_scan(lines, lines.len() as int);
    if v.len() > crate::bounds::MAX_CRITERIA {
        v.take(crate::bounds::MAX_CRITERIA as int)
    } else {
        v
    }
}

/// Whether a section body holds more than `MAX_CRITERIA` statements.
pub open spec fn statements_cut(lines: Seq<Seq<char>>) -> bool {
    statement_scan(lines, lines.len() as int).len() > crate::bounds::MAX_CRITERIA
}

/// The work package a statement is scoped to, by `Work package <label>:`,
/// and the statement without the scope; an unknown label is refused.
pub open spec fn scoped(ws: Seq<WorkV>, st: Seq<char>) -> Result<(Option<nat>, Seq<char>), Seq<char>> {
    match after_prefix(st, "Work package "@) {
        Some(sc) => match find_char(sc, ':') {
            Some(k) => {
                let label = sc.take(k as int);
                match resolve(ws, crate::text::lower_seq(trim(label))) {
                    None => Err("malformed acceptance work-package reference `"@ + label + "`"@),
                    Some(j) => Ok((Some(j), trim(sc.skip(k as int + 1)))),
                }
            },
            None => Ok((None, st)),
        },
        None => Ok((None, st)),
    }
}

/// An acceptance criterion drafted from a statement.
pub struct CritV {
    /// The index of the work package it belongs to; plan level when none.
    pub target: Option<nat>,
    pub id: Seq<char>,
    pub statement: Seq<char>,
    pub truncated: bool,
}

/// The criteria of the first `n` statements, or the first refusal.
pub open spec fn crit_fold(identity: Seq<char>, ws: Seq<WorkV>, sts: Seq<Seq<char>>, n: int) -> Result<Seq<CritV>, Seq<char>>
    decreases n,
{
    if n <= 0 {
        Ok(Seq::empty())
    } else {
        match crit_fold(identity, ws, sts, n - 1) {
            Err(e) => Err(e),
            Ok(cs) => match scoped(ws, sts[n - 1]) {
                Err(e) => Err(e),
                Ok((t, s)) => {
                    let b = bounded(s, crate::bounds::CRITERION_CHARS as nat);
                    Ok(
                        cs.push(
                            CritV {
                                target: t,
                                id: criterion_id(identity, (n - 1) as nat, b),
                                statement: b,
                                truncated: s.len() > crate::bounds::CRITERION_CHARS,
                            },
                        ),
                    )
                },
            },
        }
    }
}

fn list_marker_stripped(t: &Vec<char>) -> (r: Vec<char>)
    ensures
        r@ == strip_list_marker(t@),
{
    if let Some(r) = strip_prefix_chars(t, "- ") {
        return trim_chars(&r);
    }
    if let Some(r) = strip_prefix_chars(t, "* ") {
        return trim_chars(&r);
    }
    let d = count_lead(t, 0, CharClass::Digit);
    assert(t@.skip(0) =~= t@);
    if d > 0 {
        let rest = slice(t, d, t.len());
        assert(rest@ =~= t@.skip(d as int));
        if let Some(r) = strip_prefix_chars(&rest, ". ") {
            return trim_chars(&r);
        }
        if let Some(r) = strip_prefix_chars(&rest, ") ") {
            return trim_chars(&r);
        }
    }
    copy_chars(t)
}

fn statements_of(lines: &Vec<Vec<char>>) -> (r: (Vec<Vec<char>>, bool))
    ensures
        views(r.0@) == statements(views(lines@)),
        r.1 == statements_cut(views(lines@)),
{
    let mut out: Vec<Vec<char>> = Vec::new();
    let mut k: usize = 0;
    assert(views(out@) =~= Seq::<Seq<char>>::empty());
    while k < lines.len()
        invariant
            k <= lines@.len(),
            views(out@) == statement_scan(views(lines@), k as int),
        decreases lines.len() - k,
    {
        assert(views(lines@)[k as int] == lines@[k as int]@);
        let t = trim_chars(&lines[k]);
        if t.len() > 0 {
            let s = list_marker_stripped(&t);
            if s.len() > 0 {
                out.push(s);
                assert(views(out@) =~= statement_scan(views(lines@), k + 1));
            }
        }
        k = k + 1;
    }
    let cut = out.len() > crate::bounds::MAX_CRITERIA;
    if cut {
        let mut kept: Vec<Vec<char>> = Vec::new();
        let mut i: usize = 0;
        while i < crate::bounds::MAX_CRITERIA
            invariant
                i <= crate::bounds::MAX_CRITERIA < out@.len(),
                views(kept@) == views(out@).take(i as int),
            decreases crate::bounds::MAX_CRITERIA - i,
        {
            let ghost before = views(kept@);
            kept.push(copy_chars(&out[i]));
            assert(views(kept@) =~= before.push(out@[i as int]@));
            assert(views(out@).take(i + 1) =~= views(out@).take(i as int).push(out@[i as int]@));
            i = i + 1;
        }
        (kept, true)
    } else {
        (out, false)
    }
}

struct Crit {
    target: Option<usize>,
    id: Vec<char>,
    statement: Vec<char>,
    truncated: bool,
}

spec fn target_view(t: Option<usize>) -> Option<nat> {
    match t {
        Some(j) => Some(j as nat),
        None => None,
    }
}

spec fn crit_views(v: Seq<Crit>) -> Seq<CritV> {
    Seq::new(
        v.len(),
        |i: int| CritV { target: target_view(v[i].target), id: v[i].id@, statement: v[i].statement@, truncated: v[i].truncated },
    )
}

fn scope_statement(ws: &Vec<Work>, st: &Vec<char>) -> (r: Result<(Option<usize>, Vec<char>), MarkdownError>)
    ensures
        match r {
            Ok((t, s)) => scoped(work_views(ws@), st@) == Ok::<(Option<nat>, Seq<char>), Seq<char>>(
                (target_view(t), s@),
            ) && (t matches Some(j) ==> j < ws@.len()),
            Err(e) => scoped(work_views(ws@), st@) == Err::<(Option<nat>, Seq<char>), Seq<char>>(e.0@),
        },
{
    match strip_prefix_chars(st, "Work package ") {
        Some(sc) => match find_first(&sc, ':') {
            Some(k) => {
                let label = slice(&sc, 0, k);
                assert(label@ =~= sc@.take(k as int));
                let tl = trim_chars(&label);
                let key = lower(&tl);
                match resolve_key(ws, &key) {
                    None => {
                        let mut msg = owned("malformed acceptance work-package reference `");
                        push_str(&mut msg, string_of(&label).as_str());
                        push_str(&mut msg, "`");
                        Err(MarkdownError(msg))
                    },
                    Some(j) => {
                        let slen = sc.len();
                        let rest = slice(&sc, k + 1, slen);
                        assert(rest@ =~= sc@.skip(k as int + 1));
                        Ok((Some(j), trim_chars(&rest)))
                    },
                }
            },
            None => Ok((None, copy_chars(st))),
        },
        None => Ok((None, copy_chars(st))),
    }
}

proof fn lemma_crit_fold_err(identity: Seq<char>, ws: Seq<WorkV>, sts: Seq<Seq<char>>, n: int, m: int)
    requires
        0 <= n <= m,
        crit_fold(identity, ws, sts, n) is Err,
    ensures
        crit_fold(identity, ws, sts, m) == crit_fold(identity, ws, sts, n),
    decreases m - n,
{
    if m > n {
        lemma_crit_fold_err(identity, ws, sts, n, m - 1);
    }
}

fn decimal_chars(n: usize) -> (r: Vec<char>)
    ensures
        r@ == crate::json::decimal(n as nat),
{
    let mut s = String::new();
    crate::json::write_decimal(n as u64, &mut s);
    chars_of(s.as_str())
}

fn build_crits(identity: &Vec<char>, ws: &Vec<Work>, sts: &Vec<Vec<char>>) -> (r: Result<Vec<Crit>, MarkdownError>)
    ensures
        match r {
            Ok(cs) => crit_fold(identity@, work_views(ws@), views(sts@), sts@.len() as int) == Ok::<
                Seq<CritV>,
                Seq<char>,
            >(crit_views(cs@)) && (forall|i: int| 0 <= i < cs@.len() ==> ((#[trigger] cs@[i]).target matches Some(j) ==> j < ws@.len()))
                && (forall|i: int| 0 <= i < cs@.len() ==> md_hex_id(#[trigger] cs@[i].id@, "epc_md_"@)),
            Err(e) => crit_fold(identity@, work_views(ws@), views(sts@), sts@.len() as int) == Err::<
                Seq<CritV>,
                Seq<char>,
            >(e.0@),
        },
{
    let mut cs: Vec<Crit> = Vec::new();
    let mut n: usize = 0;
    assert(crit_views(cs@) =~= Seq::<CritV>::empty());
    while n < sts.len()
        invariant
            n <= sts@.len(),
            crit_fold(identity@, work_views(ws@), views(sts@), n as int) == Ok::<Seq<CritV>, Seq<char>>(crit_views(cs@)),
            forall|i: int| 0 <= i < cs@.len() ==> ((#[trigger] cs@[i]).target matches Some(j) ==> j < ws@.len()),
            forall|i: int| 0 <= i < cs@.len() ==> md_hex_id(#[trigger] cs@[i].id@, "epc_md_"@),
        decreases sts.len() - n,
    {
        assert(views(sts@)[n as int] == sts@[n as int]@);
        match scope_statement(ws, &sts[n]) {
            Err(e) => {
                proof {
                    lemma_crit_fold_err(identity@, work_views(ws@), views(sts@), n + 1, sts@.len() as int);
                }
                return Err(e);
            },
            Ok((target, s)) => {
                let (b, cut) = bounded_chars(&s, crate::bounds::CRITERION_CHARS);
                let mut seed = copy_chars(identity);
                seed.push('\0');
                let a = chars_of("acceptance");
                let seed = concat(&seed, &a);
                let d = decimal_chars(n);
                let seed = nul_joined(&seed, &d);
                let seed = nul_joined(&seed, &b);
                assert(seed@ =~= nul_join(nul_join(nul_join(identity@, "acceptance"@), crate::json::decimal(n as nat)), b@));
                let h = hash24(&seed);
                let id = prefixed("epc_md_", &h);
                proof {
                    reveal_strlit("epc_md_");
                    assert(id@.take(7) =~= "epc_md_"@);
                    assert forall|i: int| 7 <= i < id@.len() implies crate::digest::is_lower_hex(#[trigger] id@[i]) by {
                        assert(id@[i] == h@[i - 7]);
                    }
                }
                cs.push(Crit { target, id, statement: b, truncated: cut });
                assert(crit_views(cs@) =~= crit_fold(identity@, work_views(ws@), views(sts@), n + 1)->Ok_0);
            },
        }
        n = n + 1;
    }
    Ok(cs)
}

} // verus!

verus! {

/// Sections a Codegg importer maps.
#[derive(Clone, Copy)]
pub enum SectionKind {
    Objective,
    Packages,
    Acceptance,
}

/// Whether a section title is of a kind.
pub open spec fn is_kind(k: SectionKind, title: Seq<char>) -> bool {
    match k {
        SectionKind::Objective => section_name(title) == "objective"@,
        SectionKind::Packages => is_package_section(title),
        SectionKind::Acceptance => is_acceptance_section(title),
    }
}

/// Number of the first `n` sections of a kind.
pub open spec fn count_kind(ss: Seq<SectionV>, k: SectionKind, n: int) -> nat
    decreases n,
{
    if n <= 0 {
        0
    } else {
        count_kind(ss, k, n - 1) + if is_kind(k, ss[n - 1].title) {
            1nat
        } else {
            0nat
        }
    }
}

/// The index of the first section of a kind.
pub open spec fn first_kind(ss: Seq<SectionV>, k: SectionKind) -> Option<nat>
    decreases ss.len(),
{
    if ss.len() == 0 {
        None
    } else {
        match first_kind(ss.drop_last(), k) {
            Some(i) => Some(i),
            None => if is_kind(k, ss.last().title) {
                Some((ss.len() - 1) as nat)
            } else {
                None
            },
        }
    }
}

/// The section body as objective text; blank bodies get a placeholder.
pub open spec fn nonempty_body(lines: Seq<Seq<char>>) -> Seq<char> {
    let v = trim(join(lines, '\n'));
    if v.len() == 0 {
        "Imported plan objective"@
    } else {
        v
    }
}

/// At most 512 characters.
pub open spec fn cap512(s: Seq<char>) -> Seq<char> {
    if s.len() > 512 {
        s.take(512)
    } else {
        s
    }
}

/// The criteria that belong to a target, as (identifier, statement).
pub open spec fn crits_for(cs: Seq<CritV>, target: Option<nat>) -> Seq<(Seq<char>, Seq<char>)>
    decreases cs.len(),
{
    if cs.len() == 0 {
        Seq::empty()
    } else if cs.last().target == target {
        crits_for(cs.drop_last(), target).push((cs.last().id, cs.last().statement))
    } else {
        crits_for(cs.drop_last(), target)
    }
}

/// An imported plan item.
pub struct ItemV {
    pub id: Seq<char>,
    pub position: nat,
    pub deps: Seq<Seq<char>>,
    pub description: Seq<char>,
    pub criteria: Seq<(Seq<char>, Seq<char>)>,
}

/// The item of each work package, with the criteria scoped to it.
pub open spec fn package_items(ds: Seq<DraftV>, cs: Seq<CritV>) -> Seq<ItemV> {
    Seq::new(
        ds.len(),
        |j: int|
            ItemV {
                id: ds[j].id,
                position: j as nat,
                deps: ds[j].deps,
                description: ds[j].description,
                criteria: crits_for(cs, Some(j as nat)),
            },
    )
}

/// The item that carries plan-level criteria: it depends on every work
/// package and comes last.
pub open spec fn acceptance_item(identity: Seq<char>, ds: Seq<DraftV>, cs: Seq<CritV>) -> ItemV {
    ItemV {
        id: acceptance_item_id(identity),
        position: ds.len(),
        deps: draft_ids(ds),
        description: "Imported plan-level acceptance criteria (intent only)"@,
        criteria: crits_for(cs, None),
    }
}

/// The identifiers of work packages.
pub open spec fn work_ids(ws: Seq<WorkV>) -> Seq<Seq<char>> {
    Seq::new(ws.len(), |j: int| ws[j].id)
}

/// The identifiers of drafted items.
pub open spec fn draft_ids(ds: Seq<DraftV>) -> Seq<Seq<char>> {
    Seq::new(ds.len(), |j: int| ds[j].id)
}

/// The identifiers of drafted criteria.
pub open spec fn crit_ids(cs: Seq<CritV>) -> Seq<Seq<char>> {
    Seq::new(cs.len(), |j: int| cs[j].id)
}

/// Whether an import cut any text: an item description, the number of
/// statements, a statement, the objective, the source status or revision
/// beyond 512 characters, or an unmapped section title.
pub open spec fn intent_truncated(
    ds: Seq<DraftV>,
    sts_cut: bool,
    cs: Seq<CritV>,
    objective: Seq<char>,
    status: Option<Seq<char>>,
    revision: Option<Seq<char>>,
    titles_cut: bool,
) -> bool {
    ||| exists|j: int| 0 <= j < ds.len() && (#[trigger] ds[j]).truncated
    ||| sts_cut
    ||| exists|j: int| 0 <= j < cs.len() && (#[trigger] cs[j]).truncated
    ||| objective.len() > crate::bounds::OBJECTIVE_CHARS
    ||| status matches Some(v) && v.len() > 512
    ||| revision matches Some(v) && v.len() > 512
    ||| titles_cut
}

/// What a Codegg document imports as, before the plan is validated.
pub struct IntentV {
    pub plan_id: Seq<char>,
    pub objective: Seq<char>,
    pub items: Seq<ItemV>,
    pub status: Option<Seq<char>>,
    pub revision: Option<Seq<char>>,
    pub generated: Seq<Seq<char>>,
    pub has_acceptance: bool,
    pub explicit_deps: bool,
    pub unmapped: Seq<Seq<char>>,
    pub saw_fence: bool,
    pub truncated: bool,
}

/// The titles of sections no importer maps, each at most 512 characters,
/// and whether one was longer.
pub open spec fn unmapped_titles(ss: Seq<SectionV>, n: int) -> (Seq<Seq<char>>, bool)
    decreases n,
{
    if n <= 0 {
        (Seq::empty(), false)
    } else {
        let (ts, cut) = unmapped_titles(ss, n - 1);
        let t = ss[n - 1].title;
        if is_kind(SectionKind::Objective, t) || is_kind(SectionKind::Packages, t) || is_kind(
            SectionKind::Acceptance,
            t,
        ) {
            (ts, cut)
        } else {
            (ts.push(cap512(t)), cut || t.len() > 512)
        }
    }
}

/// The import of a Codegg document, checked in order: the line scan, an
/// open fence at the end, more than one Objective section, the work
/// packages, their dependencies, more than one Acceptance section, the
/// acceptance statements, and room for the plan-level acceptance item.
pub open spec fn codegg_intent(input: Seq<u8>, text: Seq<char>, name: Option<Seq<char>>) -> Result<IntentV, Seq<char>> {
    let ls = lines_of(text);
    match scan_lines(ls, ls.len() as int) {
        Err(e) => Err(e),
        Ok(st) => if st.fence is Some {
            Err("unterminated fenced code block"@)
        } else if count_kind(st.sections, SectionKind::Objective, st.sections.len() as int) > 1 {
            Err("multiple Objective sections are ambiguous"@)
        } else {
            let title = match first_h1(ls) {
                Some(t) => t,
                None => "Imported implementation plan"@,
            };
            let objective = match first_kind(st.sections, SectionKind::Objective) {
                Some(i) => nonempty_body(st.sections[i as int].body),
                None => title,
            };
            let identity = source_identity(input, name);
            match work_fold(identity, st.packages, st.packages.len() as int) {
                Err(e) => Err(e),
                Ok(ws) => match draft_fold(ws, ws.len() as int) {
                    Err(e) => Err(e),
                    Ok(ds) => if count_kind(st.sections, SectionKind::Acceptance, st.sections.len() as int) > 1 {
                        Err("multiple Acceptance criteria sections are ambiguous"@)
                    } else {
                        let acc = first_kind(st.sections, SectionKind::Acceptance);
                        let sts = match acc {
                            Some(i) => statements(st.sections[i as int].body),
                            None => Seq::empty(),
                        };
                        let sts_cut = match acc {
                            Some(i) => statements_cut(st.sections[i as int].body),
                            None => false,
                        };
                        match crit_fold(identity, ws, sts, sts.len() as int) {
                            Err(e) => Err(e),
                            Ok(cs) => {
                                let plan_level = crits_for(cs, None).len() > 0;
                                let aid = acceptance_item_id(identity);
                                if plan_level && ds.len() >= crate::bounds::MAX_ITEMS {
                                    Err("cannot add acceptance intent item at plan item limit"@)
                                } else if plan_level && exists|j: int| 0 <= j < ws.len() && (#[trigger] ws[j]).id == aid {
                                    Err("generated acceptance item ID collision"@)
                                } else {
                                    let (unmapped, titles_cut) = unmapped_titles(st.sections, st.sections.len() as int);
                                    Ok(
                                        IntentV {
                                            plan_id: "ep_md_"@ + short_hash(identity),
                                            objective: bounded(objective, crate::bounds::OBJECTIVE_CHARS as nat),
                                            items: package_items(ds, cs) + if plan_level {
                                                seq![acceptance_item(identity, ds, cs)]
                                            } else {
                                                Seq::empty()
                                            },
                                            status: st.status,
                                            revision: st.revision,
                                            generated: seq!["ep_md_"@ + short_hash(identity)] + work_ids(ws) + crit_ids(cs) + if plan_level {
                                                seq![aid]
                                            } else {
                                                Seq::empty()
                                            },
                                            has_acceptance: acc is Some,
                                            explicit_deps: exists|j: int| 0 <= j < ws.len() && (#[trigger] ws[j]).deps.len() > 0,
                                            unmapped,
                                            saw_fence: st.saw_fence,
                                            truncated: intent_truncated(
                                                ds,
                                                sts_cut,
                                                cs,
                                                objective,
                                                st.status,
                                                st.revision,
                                                titles_cut,
                                            ),
                                        },
                                    )
                                }
                            },
                        }
                    },
                },
            }
        },
    }
}

} // verus!

verus! {

/// The report that accompanies an import.
#[derive(Debug, Clone, PartialEq, Eq)]
pub struct ImportReport {
    pub schema_version: u32,
    pub source_format: String,
    pub source_version: Option<u32>,
    pub source_name: Option<String>,
    pub plan_id: PlanId,
    pub original_source_status: Option<String>,
    pub original_source_revision: Option<String>,
    pub generated_ids: Vec<String>,
    pub preserved_fields: Vec<String>,
    pub dropped_fields: Vec<String>,
    pub lossy_mappings: Vec<String>,
    pub warning_codes: Vec<String>,
    pub truncated: bool,
}

/// An imported Draft plan and its report.
#[derive(Debug, Clone, PartialEq, Eq)]
pub struct ImportedPlan {
    pub plan: Plan,
    pub report: ImportReport,
}

/// The texts of strings.
pub open spec fn strings(v: Seq<String>) -> Seq<Seq<char>> {
    Seq::new(v.len(), |i: int| v[i]@)
}

/// The text of an optional string.
pub open spec fn opt_string(v: Option<String>) -> Option<Seq<char>> {
    match v {
        Some(s) => Some(s@),
        None => None,
    }
}

/// An optional text, at most 512 characters.
pub open spec fn opt_cap(v: Option<Seq<char>>) -> Option<Seq<char>> {
    match v {
        Some(s) => Some(cap512(s)),
        None => None,
    }
}

/// The fields a Codegg import keeps.
pub open spec fn codegg_preserved(v: IntentV) -> Seq<Seq<char>> {
    seq!["objective"@, "work_package_order"@, "work_package_text"@] + (if v.has_acceptance {
        seq!["acceptance_criteria"@]
    } else {
        Seq::empty()
    }) + if v.explicit_deps {
        seq!["explicit_dependencies"@]
    } else {
        Seq::empty()
    }
}

/// The fields a Codegg import drops: lifecycle authority, unmapped
/// sections, and fenced code.
pub open spec fn codegg_dropped(v: IntentV) -> Seq<Seq<char>> {
    seq!["source_status_and_lifecycle_authority"@] + v.unmapped + if v.saw_fence {
        seq!["fenced_code_block_contents"@]
    } else {
        Seq::empty()
    }
}

/// The warning codes of a Codegg import, each once, in ascending order.
pub open spec fn codegg_warnings(v: IntentV) -> Seq<Seq<char>> {
    seq!["generated_item_id"@, "markdown_closure_not_imported"@, "markdown_evidence_not_imported"@] + (if v.status is Some {
        seq!["source_lifecycle_not_authoritative"@]
    } else {
        Seq::empty()
    }) + (if v.revision is Some {
        seq!["source_revision_provenance_only"@]
    } else {
        Seq::empty()
    }) + (if v.truncated {
        seq!["text_truncated"@]
    } else {
        Seq::empty()
    }) + if v.unmapped.len() > 0 || v.saw_fence {
        seq!["unmapped_section"@]
    } else {
        Seq::empty()
    }
}

/// The provenance of an imported plan: the source status and revision,
/// bounded.
pub open spec fn codegg_provenance(v: IntentV) -> Map<Seq<char>, Seq<char>> {
    let m = match v.status {
        Some(s) => Map::empty().insert(
            "markdown_source_status"@,
            bounded(s, crate::bounds::PROVENANCE_CHARS as nat),
        ),
        None => Map::empty(),
    };
    match v.revision {
        Some(s) => m.insert("markdown_source_revision"@, bounded(s, crate::bounds::PROVENANCE_CHARS as nat)),
        None => m,
    }
}

/// An imported criterion: identifier and statement, no human judgment,
/// no evidence requirement.
pub open spec fn crit_is(c: AcceptanceCriterion, v: (Seq<char>, Seq<char>)) -> bool {
    &&& c.id@ == v.0
    &&& c.statement@ == v.1
    &&& !c.human_judgment_allowed
    &&& c.requirements@.len() == 0
}

/// An imported item: Pending, no parent, blocker or next action.
pub open spec fn item_is(i: PlanItem, v: ItemV) -> bool {
    &&& i.id@ == v.id
    &&& i.position == v.position
    &&& i.parent is None
    &&& i.dependencies@.len() == v.deps.len()
    &&& forall|k: int| 0 <= k < v.deps.len() ==> (#[trigger] i.dependencies@[k])@ == v.deps[k]
    &&& i.status == PlanItemStatus::Pending
    &&& i.description@ == v.description
    &&& i.criteria@.len() == v.criteria.len()
    &&& forall|k: int| 0 <= k < v.criteria.len() ==> crit_is(#[trigger] i.criteria@[k], v.criteria[k])
    &&& i.blocker is None
    &&& i.next_action is None
}

/// Items that are the imported items.
pub open spec fn items_are(items: Seq<PlanItem>, vs: Seq<ItemV>) -> bool {
    items.len() == vs.len() && forall|j: int| 0 <= j < vs.len() ==> item_is(#[trigger] items[j], vs[j])
}

/// The plan of a Codegg import: a Draft at revision zero with the current
/// schema, no subject, and the source status and revision as provenance.
pub open spec fn codegg_plan_is(p: Plan, v: IntentV) -> bool {
    &&& p.schema_version == crate::SCHEMA_VERSION
    &&& p.id@ == v.plan_id
    &&& p.revision == 0
    &&& p.objective@ == v.objective
    &&& p.status == PlanStatus::Draft
    &&& entries_map(p.provenance@) == codegg_provenance(v)
    &&& items_are(p.items@, v.items)
    &&& p.subject is None
}

/// The report of a Codegg import.
pub open spec fn codegg_report_is(r: ImportReport, v: IntentV, name: Option<Seq<char>>) -> bool {
    &&& r.schema_version == 1
    &&& r.source_format@ == "codegg"@
    &&& r.source_version is None
    &&& opt_string(r.source_name) == opt_cap(name)
    &&& r.plan_id@ == v.plan_id
    &&& opt_string(r.original_source_status) == opt_cap(v.status)
    &&& opt_string(r.original_source_revision) == opt_cap(v.revision)
    &&& strings(r.generated_ids@) == v.generated
    &&& strings(r.preserved_fields@) == codegg_preserved(v)
    &&& strings(r.dropped_fields@) == codegg_dropped(v)
    &&& strings(r.lossy_mappings@) == seq!["ordered_sections_not_dependency_edges"@]
    &&& strings(r.warning_codes@) == codegg_warnings(v)
    &&& r.truncated == v.truncated
}

/// The message of a plan that fails validation after import.
pub open spec fn invalid_plan_message(x: ValidationError) -> Seq<char> {
    "imported plan is invalid: "@ + validation_message(x)
}

/// The result of a Codegg import: the intent, as a validated plan and its
/// report; or the refusal. A plan that fails validation is refused with
/// the validation error (the same error for every plan with these parts).
pub open spec fn codegg_outcome(
    input: Seq<u8>,
    text: Seq<char>,
    name: Option<Seq<char>>,
    r: Result<ImportedPlan, MarkdownError>,
) -> bool {
    match r {
        Ok(ip) => match codegg_intent(input, text, name) {
            Ok(v) => codegg_plan_is(ip.plan, v) && plan_error(ip.plan) is None && codegg_report_is(ip.report, v, name),
            Err(_) => false,
        },
        Err(e) => match codegg_intent(input, text, name) {
            Err(m) => e.0@ == m,
            Ok(v) => exists|x: ValidationError|
                e.0@ == invalid_plan_message(x) && ((exists|items: Seq<PlanItem>|
                    items_are(items, v.items) && plan_parts_error(
                        crate::SCHEMA_VERSION,
                        v.objective,
                        items,
                        Seq::empty(),
                        None,
                    ) == Some(x)) || (exists|p: Plan| codegg_plan_is(p, v) && #[trigger] plan_error(p) == Some(x))),
        },
    }
}

} // verus!

verus! {

fn kind_of(k: SectionKind, title: &Vec<char>) -> (r: bool)
    ensures
        r == is_kind(k, title@),
{
    match k {
        SectionKind::Objective => {
            let n = section_name_chars(title);
            equals_literal(&n, "objective")
        },
        SectionKind::Packages => package_section(title),
        SectionKind::Acceptance => acceptance_section(title),
    }
}

proof fn lemma_first_kind_prefix(ss: Seq<SectionV>, k: SectionKind, n: int)
    requires
        0 <= n <= ss.len(),
        first_kind(ss.take(n), k) is Some,
    ensures
        first_kind(ss, k) == first_kind(ss.take(n), k),
    decreases ss.len() - n,
{
    if n < ss.len() {
        assert(ss.take(n + 1).drop_last() =~= ss.take(n));
        lemma_first_kind_prefix(ss, k, n + 1);
    } else {
        assert(ss.take(n) =~= ss);
    }
}

/// Counts the sections of a kind and finds the first.
fn kind_count(sections: &Vec<Section>, k: SectionKind) -> (r: (usize, Option<usize>))
    ensures
        r.0 == count_kind(section_views(sections@), k, sections@.len() as int),
        match r.1 {
            Some(i) => first_kind(section_views(sections@), k) == Some(i as nat) && i < sections@.len(),
            None => first_kind(section_views(sections@), k) is None,
        },
{
    let ghost ss = section_views(sections@);
    let mut count: usize = 0;
    let mut first: Option<usize> = None;
    let mut i: usize = 0;
    while i < sections.len()
        invariant
            i <= sections@.len(),
            ss == section_views(sections@),
            count == count_kind(ss, k, i as int),
            count <= i,
            match first {
                Some(j) => first_kind(ss.take(i as int), k) == Some(j as nat) && j < i,
                None => first_kind(ss.take(i as int), k) is None,
            },
        decreases sections.len() - i,
    {
        assert(ss[i as int].title == sections@[i as int].title@);
        assert(ss.take(i + 1).drop_last() =~= ss.take(i as int));
        if kind_of(k, &sections[i].title) {
            count = count + 1;
            if first.is_none() {
                first = Some(i);
            }
        }
        i = i + 1;
    }
    assert(ss.take(sections@.len() as int) =~= ss);
    (count, first)
}

fn nonempty_body_chars(lines: &Vec<Vec<char>>) -> (r: Vec<char>)
    ensures
        r@ == nonempty_body(views(lines@)),
{
    let j = crate::markdown_text::join_chars(lines, '\n');
    let v = trim_chars(&j);
    if v.len() == 0 {
        chars_of("Imported plan objective")
    } else {
        v
    }
}

/// Unmapped section titles (see `unmapped_titles`).
fn unmapped_of(sections: &Vec<Section>) -> (r: (Vec<String>, bool))
    ensures
        (strings(r.0@), r.1) == unmapped_titles(section_views(sections@), sections@.len() as int),
{
    let ghost ss = section_views(sections@);
    let mut out: Vec<String> = Vec::new();
    let mut cut = false;
    let mut i: usize = 0;
    assert(strings(out@) =~= Seq::<Seq<char>>::empty());
    while i < sections.len()
        invariant
            i <= sections@.len(),
            ss == section_views(sections@),
            (strings(out@), cut) == unmapped_titles(ss, i as int),
        decreases sections.len() - i,
    {
        let t = &sections[i].title;
        assert(ss[i as int].title == t@);
        if !(kind_of(SectionKind::Objective, t) || kind_of(SectionKind::Packages, t) || kind_of(SectionKind::Acceptance, t)) {
            let c = if t.len() > 512 {
                slice(t, 0, 512)
            } else {
                copy_chars(t)
            };
            assert(c@ =~= cap512(t@));
            let ghost before = strings(out@);
            out.push(string_of(&c));
            assert(strings(out@) =~= before.push(cap512(t@)));
            cut = cut || t.len() > 512;
        }
        i = i + 1;
    }
    (out, cut)
}

/// Makes the identifier of an imported item.
fn item_id_of(s: &Vec<char>) -> (r: PlanItemId)
    requires
        md_hex_id(s@, "epi_md_"@),
    ensures
        r@ == s@,
{
    let t = string_of(s);
    proof {
        reveal_strlit("epi_md_");
        reveal_strlit("epi_");
        assert(s@.take(4) =~= "epi_"@);
        assert forall|i: int| 4 <= i < s@.len() implies crate::identity::is_id_char(#[trigger] s@[i]) by {
            if i < 7 {
                assert(s@[i] == s@.take(7)[i]);
            }
        }
    }
    match PlanItemId::new(t.as_str()) {
        Ok(id) => id,
        Err(_) => {
            proof {
                assert(false);
            }
            PlanItemId::generate()
        },
    }
}

/// Makes the identifier of an imported criterion.
fn criterion_id_of(s: &Vec<char>) -> (r: CriterionId)
    requires
        md_hex_id(s@, "epc_md_"@),
    ensures
        r@ == s@,
{
    let t = string_of(s);
    proof {
        reveal_strlit("epc_md_");
        reveal_strlit("epc_");
        assert(s@.take(4) =~= "epc_"@);
        assert forall|i: int| 4 <= i < s@.len() implies crate::identity::is_id_char(#[trigger] s@[i]) by {
            if i < 7 {
                assert(s@[i] == s@.take(7)[i]);
            }
        }
    }
    match CriterionId::new(t.as_str()) {
        Ok(id) => id,
        Err(_) => {
            proof {
                assert(false);
            }
            CriterionId::generate()
        },
    }
}

/// Makes the identifier of an imported plan.
fn plan_id_of(s: &Vec<char>) -> (r: PlanId)
    requires
        md_hex_id(s@, "ep_md_"@),
    ensures
        r@ == s@,
{
    let t = string_of(s);
    proof {
        reveal_strlit("ep_md_");
        reveal_strlit("ep_");
        assert(s@.take(3) =~= "ep_"@);
        assert forall|i: int| 3 <= i < s@.len() implies crate::identity::is_id_char(#[trigger] s@[i]) by {
            if i < 6 {
                assert(s@[i] == s@.take(6)[i]);
            }
        }
    }
    match PlanId::new(t.as_str()) {
        Ok(id) => id,
        Err(_) => {
            proof {
                assert(false);
            }
            PlanId::generate()
        },
    }
}

/// The criteria of a target (see `crits_for`).
fn criteria_for(cs: &Vec<Crit>, target: Option<usize>) -> (r: Vec<AcceptanceCriterion>)
    requires
        forall|i: int| 0 <= i < cs@.len() ==> md_hex_id(#[trigger] cs@[i].id@, "epc_md_"@),
    ensures
        r@.len() == crits_for(crit_views(cs@), target_view(target)).len(),
        forall|k: int| 0 <= k < r@.len() ==> crit_is(#[trigger] r@[k], crits_for(crit_views(cs@), target_view(target))[k]),
{
    let ghost cv = crit_views(cs@);
    let mut out: Vec<AcceptanceCriterion> = Vec::new();
    let mut i: usize = 0;
    while i < cs.len()
        invariant
            i <= cs@.len(),
            cv == crit_views(cs@),
            forall|j: int| 0 <= j < cs@.len() ==> md_hex_id(#[trigger] cs@[j].id@, "epc_md_"@),
            out@.len() == crits_for(cv.take(i as int), target_view(target)).len(),
            forall|k: int| 0 <= k < out@.len() ==> crit_is(#[trigger] out@[k], crits_for(cv.take(i as int), target_view(target))[k]),
        decreases cs.len() - i,
    {
        let c = &cs[i];
        assert(cv.take(i + 1).drop_last() =~= cv.take(i as int));
        assert(cv.take(i + 1).last() == cv[i as int]);
        let hit = match (c.target, target) {
            (Some(a), Some(b)) => a == b,
            (None, None) => true,
            _ => false,
        };
        assert(hit == (cv[i as int].target == target_view(target)));
        if hit {
            out.push(AcceptanceCriterion {
                id: criterion_id_of(&c.id),
                statement: string_of(&c.statement),
                human_judgment_allowed: false,
                requirements: Vec::new(),
            });
        }
        i = i + 1;
    }
    assert(cv.take(cs@.len() as int) =~= cv);
    out
}

} // verus!

verus! {

fn package_plan_items(ds: &Vec<Draft>, cs: &Vec<Crit>) -> (r: Vec<PlanItem>)
    requires
        ds@.len() <= crate::bounds::MAX_ITEMS,
        forall|j: int| 0 <= j < ds@.len() ==> md_hex_id(#[trigger] ds@[j].id@, "epi_md_"@),
        forall|j: int, k: int| 0 <= j < ds@.len() && 0 <= k < ds@[j].deps@.len() ==> md_hex_id(
            #[trigger] ds@[j].deps@[k]@,
            "epi_md_"@,
        ),
        forall|i: int| 0 <= i < cs@.len() ==> md_hex_id(#[trigger] cs@[i].id@, "epc_md_"@),
    ensures
        items_are(r@, package_items(draft_views(ds@), crit_views(cs@))),
{
    let ghost want = package_items(draft_views(ds@), crit_views(cs@));
    let mut items: Vec<PlanItem> = Vec::new();
    let mut j: usize = 0;
    while j < ds.len()
        invariant
            j <= ds@.len() <= crate::bounds::MAX_ITEMS,
            want == package_items(draft_views(ds@), crit_views(cs@)),
            forall|a: int| 0 <= a < ds@.len() ==> md_hex_id(#[trigger] ds@[a].id@, "epi_md_"@),
            forall|a: int, k: int| 0 <= a < ds@.len() && 0 <= k < ds@[a].deps@.len() ==> md_hex_id(
                #[trigger] ds@[a].deps@[k]@,
                "epi_md_"@,
            ),
            forall|i: int| 0 <= i < cs@.len() ==> md_hex_id(#[trigger] cs@[i].id@, "epc_md_"@),
            items@.len() == j,
            forall|a: int| 0 <= a < j ==> item_is(#[trigger] items@[a], want[a]),
        decreases ds.len() - j,
    {
        let d = &ds[j];
        let mut deps: Vec<PlanItemId> = Vec::new();
        let mut k: usize = 0;
        while k < d.deps.len()
            invariant
                j < ds@.len(),
                d == &ds@[j as int],
                k <= d.deps@.len(),
                forall|a: int, b: int| 0 <= a < ds@.len() && 0 <= b < ds@[a].deps@.len() ==> md_hex_id(
                    #[trigger] ds@[a].deps@[b]@,
                    "epi_md_"@,
                ),
                deps@.len() == k,
                forall|b: int| 0 <= b < k ==> (#[trigger] deps@[b])@ == d.deps@[b]@,
            decreases d.deps.len() - k,
        {
            assert(md_hex_id(ds@[j as int].deps@[k as int]@, "epi_md_"@));
            deps.push(item_id_of(&d.deps[k]));
            k = k + 1;
        }
        let criteria = criteria_for(cs, Some(j));
        let item = PlanItem {
            id: item_id_of(&d.id),
            position: j as u32,
            parent: None,
            dependencies: deps,
            status: PlanItemStatus::Pending,
            description: string_of(&d.description),
            criteria,
            blocker: None,
            next_action: None,
        };
        assert(want[j as int].deps == views(d.deps@));
        assert(item_is(item, want[j as int]));
        items.push(item);
        j = j + 1;
    }
    items
}

fn acceptance_plan_item(aid: &Vec<char>, ds: &Vec<Draft>, cs: &Vec<Crit>, Ghost(identity): Ghost<Seq<char>>) -> (r: PlanItem)
    requires
        aid@ == acceptance_item_id(identity),
        md_hex_id(aid@, "epi_md_"@),
        ds@.len() < crate::bounds::MAX_ITEMS,
        forall|j: int| 0 <= j < ds@.len() ==> md_hex_id(#[trigger] ds@[j].id@, "epi_md_"@),
        forall|i: int| 0 <= i < cs@.len() ==> md_hex_id(#[trigger] cs@[i].id@, "epc_md_"@),
    ensures
        item_is(r, acceptance_item(identity, draft_views(ds@), crit_views(cs@))),
{
    let mut deps: Vec<PlanItemId> = Vec::new();
    let mut k: usize = 0;
    while k < ds.len()
        invariant
            k <= ds@.len(),
            forall|j: int| 0 <= j < ds@.len() ==> md_hex_id(#[trigger] ds@[j].id@, "epi_md_"@),
            deps@.len() == k,
            forall|b: int| 0 <= b < k ==> (#[trigger] deps@[b])@ == ds@[b].id@,
        decreases ds.len() - k,
    {
        deps.push(item_id_of(&ds[k].id));
        k = k + 1;
    }
    let criteria = criteria_for(cs, None);
    let item = PlanItem {
        id: item_id_of(aid),
        position: ds.len() as u32,
        parent: None,
        dependencies: deps,
        status: PlanItemStatus::Pending,
        description: owned("Imported plan-level acceptance criteria (intent only)"),
        criteria,
        blocker: None,
        next_action: None,
    };
    assert(item_is(item, acceptance_item(identity, draft_views(ds@), crit_views(cs@))));
    item
}

fn push_text(v: &mut Vec<String>, s: &str)
    ensures
        strings(final(v)@) == strings(old(v)@).push(s@),
{
    let ghost before = strings(v@);
    v.push(owned(s));
    assert(strings(v@) =~= before.push(s@));
}

fn push_chars(v: &mut Vec<String>, s: &Vec<char>)
    ensures
        strings(final(v)@) == strings(old(v)@).push(s@),
{
    let ghost before = strings(v@);
    v.push(string_of(s));
    assert(strings(v@) =~= before.push(s@));
}

fn cap_chars(s: &Vec<char>) -> (r: Vec<char>)
    ensures
        r@ == cap512(s@),
{
    if s.len() > 512 {
        let r = slice(s, 0, 512);
        assert(r@ =~= s@.take(512));
        r
    } else {
        copy_chars(s)
    }
}

fn opt_cap_string(v: &Option<Vec<char>>) -> (r: Option<String>)
    ensures
        opt_string(r) == opt_cap(opt_view(*v)),
{
    match v {
        Some(s) => Some(string_of(&cap_chars(s))),
        None => None,
    }
}

} // verus!

verus! {

proof fn lemma_scan_bound(ls: Seq<Seq<char>>, n: int)
    requires
        n >= 0,
        scan_lines(ls, n) is Ok,
    ensures
        scan_lines(ls, n)->Ok_0.packages.len() <= crate::bounds::MAX_ITEMS,
    decreases n,
{
    if n > 0 {
        lemma_scan_bound(ls, n - 1);
    }
}

proof fn lemma_work_fold_len(identity: Seq<char>, raws: Seq<PackageV>, n: int)
    requires
        n >= 0,
        work_fold(identity, raws, n) is Ok,
    ensures
        work_fold(identity, raws, n)->Ok_0.len() == n,
    decreases n,
{
    if n > 0 {
        lemma_work_fold_len(identity, raws, n - 1);
    }
}

proof fn lemma_draft_fold_len(ws: Seq<WorkV>, n: int)
    requires
        n >= 0,
        draft_fold(ws, n) is Ok,
    ensures
        draft_fold(ws, n)->Ok_0.len() == n,
        forall|j: int| 0 <= j < n ==> (#[trigger] draft_fold(ws, n)->Ok_0[j]).id == ws[j].id,
    decreases n,
{
    if n > 0 {
        lemma_draft_fold_len(ws, n - 1);
    }
}

/// The optional text of an optional string slice.
pub open spec fn opt_str(v: Option<&str>) -> Option<Seq<char>> {
    match v {
        Some(s) => Some(s@),
        None => None,
    }
}

fn any_draft_cut(ds: &Vec<Draft>) -> (r: bool)
    ensures
        r == exists|j: int| 0 <= j < ds@.len() && (#[trigger] draft_views(ds@)[j]).truncated,
{
    let mut i: usize = 0;
    while i < ds.len()
        invariant
            i <= ds@.len(),
            forall|j: int| 0 <= j < i ==> !(#[trigger] draft_views(ds@)[j]).truncated,
        decreases ds.len() - i,
    {
        if ds[i].truncated {
            assert(draft_views(ds@)[i as int].truncated);
            return true;
        }
        i = i + 1;
    }
    false
}

fn any_crit_cut(cs: &Vec<Crit>) -> (r: bool)
    ensures
        r == exists|j: int| 0 <= j < cs@.len() && (#[trigger] crit_views(cs@)[j]).truncated,
{
    let mut i: usize = 0;
    while i < cs.len()
        invariant
            i <= cs@.len(),
            forall|j: int| 0 <= j < i ==> !(#[trigger] crit_views(cs@)[j]).truncated,
        decreases cs.len() - i,
    {
        if cs[i].truncated {
            assert(crit_views(cs@)[i as int].truncated);
            return true;
        }
        i = i + 1;
    }
    false
}

fn any_deps(ws: &Vec<Work>) -> (r: bool)
    ensures
        r == exists|j: int| 0 <= j < ws@.len() && (#[trigger] work_views(ws@)[j]).deps.len() > 0,
{
    let mut i: usize = 0;
    while i < ws.len()
        invariant
            i <= ws@.len(),
            forall|j: int| 0 <= j < i ==> (#[trigger] work_views(ws@)[j]).deps.len() == 0,
        decreases ws.len() - i,
    {
        if ws[i].deps.len() > 0 {
            assert(work_views(ws@)[i as int].deps.len() > 0);
            return true;
        }
        i = i + 1;
    }
    false
}

proof fn lemma_intent(
    input: Seq<u8>,
    text: Seq<char>,
    nm: Option<Seq<char>>,
    sv: ScanV,
    wv: Seq<WorkV>,
    dv: Seq<DraftV>,
    cv: Seq<CritV>,
    objective: Seq<char>,
    sts_cut: bool,
    identity: Seq<char>,
    v: IntentV,
)
    requires
        scan_lines(lines_of(text), lines_of(text).len() as int) == Ok::<ScanV, Seq<char>>(sv),
        sv.fence is None,
        count_kind(sv.sections, SectionKind::Objective, sv.sections.len() as int) <= 1,
        objective == (match first_kind(sv.sections, SectionKind::Objective) {
            Some(i) => nonempty_body(sv.sections[i as int].body),
            None => match first_h1(lines_of(text)) {
                Some(t) => t,
                None => "Imported implementation plan"@,
            },
        }),
        identity == source_identity(input, nm),
        work_fold(identity, sv.packages, sv.packages.len() as int) == Ok::<Seq<WorkV>, Seq<char>>(wv),
        draft_fold(wv, wv.len() as int) == Ok::<Seq<DraftV>, Seq<char>>(dv),
        count_kind(sv.sections, SectionKind::Acceptance, sv.sections.len() as int) <= 1,
        sts_cut == (match first_kind(sv.sections, SectionKind::Acceptance) {
            Some(i) => statements_cut(sv.sections[i as int].body),
            None => false,
        }),
        crit_fold(
            identity,
            wv,
            match first_kind(sv.sections, SectionKind::Acceptance) {
                Some(i) => statements(sv.sections[i as int].body),
                None => Seq::empty(),
            },
            (match first_kind(sv.sections, SectionKind::Acceptance) {
                Some(i) => statements(sv.sections[i as int].body),
                None => Seq::empty(),
            }).len() as int,
        ) == Ok::<Seq<CritV>, Seq<char>>(cv),
        !(crits_for(cv, None).len() > 0 && dv.len() >= crate::bounds::MAX_ITEMS),
        !(crits_for(cv, None).len() > 0 && exists|j: int| 0 <= j < wv.len() && (#[trigger] wv[j]).id == acceptance_item_id(identity)),
        v.plan_id == "ep_md_"@ + short_hash(identity),
        v.objective == bounded(objective, crate::bounds::OBJECTIVE_CHARS as nat),
        v.items == package_items(dv, cv) + if crits_for(cv, None).len() > 0 {
            seq![acceptance_item(identity, dv, cv)]
        } else {
            Seq::empty()
        },
        v.status == sv.status,
        v.revision == sv.revision,
        v.generated == seq!["ep_md_"@ + short_hash(identity)] + work_ids(wv) + crit_ids(cv) + if crits_for(cv, None).len() > 0 {
            seq![acceptance_item_id(identity)]
        } else {
            Seq::empty()
        },
        v.has_acceptance == first_kind(sv.sections, SectionKind::Acceptance) is Some,
        v.explicit_deps == exists|j: int| 0 <= j < wv.len() && (#[trigger] wv[j]).deps.len() > 0,
        v.unmapped == unmapped_titles(sv.sections, sv.sections.len() as int).0,
        v.saw_fence == sv.saw_fence,
        v.truncated == intent_truncated(
            dv,
            sts_cut,
            cv,
            objective,
            sv.status,
            sv.revision,
            unmapped_titles(sv.sections, sv.sections.len() as int).1,
        ),
    ensures
        codegg_intent(input, text, nm) == Ok::<IntentV, Seq<char>>(v),
{
    let r = codegg_intent(input, text, nm);
    assert(r is Ok);
    let w = r->Ok_0;
    assert(w.plan_id == v.plan_id);
    assert(w.objective == v.objective);
    assert(w.items == v.items);
    assert(w.status == v.status);
    assert(w.revision == v.revision);
    assert(w.generated == v.generated);
    assert(w.has_acceptance == v.has_acceptance);
    assert(w.explicit_deps == v.explicit_deps);
    assert(w.unmapped == v.unmapped);
    assert(w.saw_fence == v.saw_fence);
    assert(w.truncated == v.truncated);
}

struct Parts {
    plan_id: Vec<char>,
    objective: Vec<char>,
    items: Vec<PlanItem>,
    status: Option<Vec<char>>,
    revision: Option<Vec<char>>,
    generated: Vec<String>,
    has_acceptance: bool,
    explicit_deps: bool,
    unmapped: Vec<String>,
    saw_fence: bool,
    truncated: bool,
}

spec fn parts_view(p: Parts, items: Seq<ItemV>) -> IntentV {
    IntentV {
        plan_id: p.plan_id@,
        objective: p.objective@,
        items,
        status: opt_view(p.status),
        revision: opt_view(p.revision),
        generated: strings(p.generated@),
        has_acceptance: p.has_acceptance,
        explicit_deps: p.explicit_deps,
        unmapped: strings(p.unmapped@),
        saw_fence: p.saw_fence,
        truncated: p.truncated,
    }
}

/// The parts of a Codegg import (see `codegg_intent`).
#[verifier::rlimit(80)]
#[verifier::spinoff_prover]
fn intent_parts(input: &[u8], text: &Vec<char>, name: Option<&str>) -> (r: Result<(Parts, Ghost<Seq<ItemV>>), MarkdownError>)
    requires
        text@ == decode_utf8(input@),
    ensures
        match r {
            Ok((p, items)) => codegg_intent(input@, text@, opt_str(name)) == Ok::<IntentV, Seq<char>>(
                parts_view(p, items@),
            ) && items_are(p.items@, items@) && md_hex_id(p.plan_id@, "ep_md_"@),
            Err(e) => codegg_intent(input@, text@, opt_str(name)) == Err::<IntentV, Seq<char>>(e.0@),
        },
{
    let ghost nm = opt_str(name);
    let lines = split_lines(text);
    let ghost ls = lines_of(text@);
    let st = scan_document(&lines)?;
    let ghost sv = st.view();
    proof {
        lemma_scan_bound(ls, ls.len() as int);
    }
    if st.fence.is_some() {
        return Err(error("unterminated fenced code block"));
    }
    let (n_obj, first_obj) = kind_count(&st.sections, SectionKind::Objective);
    if n_obj > 1 {
        return Err(error("multiple Objective sections are ambiguous"));
    }
    let title = match title_of(&lines) {
        Some(t) => t,
        None => chars_of("Imported implementation plan"),
    };
    let objective = match first_obj {
        Some(i) => {
            assert(sv.sections[i as int].body == views(st.sections@[i as int].body@));
            nonempty_body_chars(&st.sections[i].body)
        },
        None => title,
    };
    let identity = match name {
        Some(n) => chars_of(n),
        None => {
            let h = crate::digest::hex_sha256(input);
            chars_of(h.as_str())
        },
    };
    assert(identity@ == source_identity(input@, nm));
    let ph = hash24(&identity);
    let pid_chars = prefixed("ep_md_", &ph);
    proof {
        reveal_strlit("ep_md_");
        assert(pid_chars@.take(6) =~= "ep_md_"@);
        assert forall|i: int| 6 <= i < pid_chars@.len() implies crate::digest::is_lower_hex(#[trigger] pid_chars@[i]) by {
            assert(pid_chars@[i] == ph@[i - 6]);
        }
    }
    let ws = build_works(&identity, &st.packages)?;
    let ghost wv = work_views(ws@);
    proof {
        lemma_work_fold_len(identity@, sv.packages, sv.packages.len() as int);
    }
    let ds = build_drafts(&ws)?;
    let ghost dv = draft_views(ds@);
    proof {
        lemma_draft_fold_len(wv, wv.len() as int);
    }
    let (n_acc, first_acc) = kind_count(&st.sections, SectionKind::Acceptance);
    if n_acc > 1 {
        return Err(error("multiple Acceptance criteria sections are ambiguous"));
    }
    let (sts, sts_cut) = match first_acc {
        Some(i) => {
            assert(sv.sections[i as int].body == views(st.sections@[i as int].body@));
            statements_of(&st.sections[i].body)
        },
        None => {
            let e: Vec<Vec<char>> = Vec::new();
            assert(views(e@) =~= Seq::<Seq<char>>::empty());
            (e, false)
        },
    };
    let cs = build_crits(&identity, &ws, &sts)?;
    let ghost cv = crit_views(cs@);
    let plan_level = criteria_for(&cs, None);
    let has_plan_level = plan_level.len() > 0;
    let mut aseed = copy_chars(&identity);
    aseed.push('\0');
    let atail = chars_of("acceptance-intent");
    let aseed = concat(&aseed, &atail);
    let ah = hash24(&aseed);
    let aid = prefixed("epi_md_", &ah);
    assert(aseed@ =~= nul_join(identity@, "acceptance-intent"@));
    assert(aid@ == acceptance_item_id(identity@));
    proof {
        reveal_strlit("epi_md_");
        assert(aid@.take(7) =~= "epi_md_"@);
        assert forall|i: int| 7 <= i < aid@.len() implies crate::digest::is_lower_hex(#[trigger] aid@[i]) by {
            assert(aid@[i] == ah@[i - 7]);
        }
    }
    if has_plan_level && ds.len() >= crate::bounds::MAX_ITEMS {
        return Err(error("cannot add acceptance intent item at plan item limit"));
    }
    if has_plan_level && has_id(&ws, &aid) {
        return Err(error("generated acceptance item ID collision"));
    }
    let mut items = package_plan_items(&ds, &cs);
    let ghost pitems = package_items(dv, cv);
    if has_plan_level {
        let item = acceptance_plan_item(&aid, &ds, &cs, Ghost(identity@));
        items.push(item);
    }
    let ghost all_items = pitems + if has_plan_level {
        seq![acceptance_item(identity@, dv, cv)]
    } else {
        Seq::empty()
    };
    assert(items_are(items@, all_items)) by {
        if has_plan_level {
            assert forall|j: int| 0 <= j < all_items.len() implies item_is(#[trigger] items@[j], all_items[j]) by {
                if j < pitems.len() {
                    assert(all_items[j] == pitems[j]);
                }
            }
        } else {
            assert(all_items =~= pitems);
        }
    }
    let (objective_b, objective_cut) = bounded_chars(&objective, crate::bounds::OBJECTIVE_CHARS);
    let (unmapped, titles_cut) = unmapped_of(&st.sections);
    let status_cut = match &st.status {
        Some(v) => v.len() > 512,
        None => false,
    };
    let revision_cut = match &st.revision {
        Some(v) => v.len() > 512,
        None => false,
    };
    let truncated = any_draft_cut(&ds) || sts_cut || any_crit_cut(&cs) || objective_cut || status_cut || revision_cut
        || titles_cut;
    let explicit = any_deps(&ws);
    let mut generated: Vec<String> = Vec::new();
    push_chars(&mut generated, &pid_chars);
    let mut i: usize = 0;
    while i < ws.len()
        invariant
            i <= ws@.len(),
            strings(generated@) == seq![pid_chars@] + work_ids(work_views(ws@).take(i as int)),
        decreases ws.len() - i,
    {
        push_chars(&mut generated, &ws[i].id);
        i = i + 1;
        assert(work_ids(work_views(ws@).take(i as int)) =~= work_ids(work_views(ws@).take(i - 1)).push(ws@[i - 1].id@));
    }
    assert(work_views(ws@).take(ws@.len() as int) =~= work_views(ws@));
    let mut i: usize = 0;
    let ghost g0 = strings(generated@);
    while i < cs.len()
        invariant
            i <= cs@.len(),
            strings(generated@) == g0 + crit_ids(crit_views(cs@).take(i as int)),
        decreases cs.len() - i,
    {
        push_chars(&mut generated, &cs[i].id);
        i = i + 1;
        assert(crit_ids(crit_views(cs@).take(i as int)) =~= crit_ids(crit_views(cs@).take(i - 1)).push(cs@[i - 1].id@));
    }
    assert(crit_views(cs@).take(cs@.len() as int) =~= crit_views(cs@));
    if has_plan_level {
        push_chars(&mut generated, &aid);
    }
    let ghost v = IntentV {
        plan_id: pid_chars@,
        objective: objective_b@,
        items: all_items,
        status: sv.status,
        revision: sv.revision,
        generated: strings(generated@),
        has_acceptance: first_acc is Some,
        explicit_deps: explicit,
        unmapped: strings(unmapped@),
        saw_fence: sv.saw_fence,
        truncated,
    };
    proof {
        assert(pid_chars@ == "ep_md_"@ + short_hash(identity@));
        if has_plan_level {
            assert(strings(generated@) =~= seq!["ep_md_"@ + short_hash(identity@)] + work_ids(wv) + crit_ids(cv) + seq![
                acceptance_item_id(identity@),
            ]);
        } else {
            assert(strings(generated@) =~= seq!["ep_md_"@ + short_hash(identity@)] + work_ids(wv) + crit_ids(cv)
                + Seq::<Seq<char>>::empty());
        }
        lemma_intent(
            input@,
            text@,
            nm,
            sv,
            wv,
            dv,
            cv,
            objective@,
            sts_cut,
            identity@,
            v,
        );
    }
    Ok((
        Parts {
            plan_id: pid_chars,
            objective: objective_b,
            items,
            status: st.status,
            revision: st.revision,
            generated,
            has_acceptance: first_acc.is_some(),
            explicit_deps: explicit,
            unmapped,
            saw_fence: st.saw_fence,
            truncated,
        },
        Ghost(all_items),
    ))
}

/// Imports a Codegg-style implementation plan (see `codegg_outcome`).
#[verifier::rlimit(40)]
fn import_codegg(input: &[u8], text: &Vec<char>, name: Option<&str>) -> (r: Result<ImportedPlan, MarkdownError>)
    requires
        text@ == decode_utf8(input@),
    ensures
        codegg_outcome(input@, text@, opt_str(name), r),
{
    let (parts, Ghost(all_items)) = intent_parts(input, text, name)?;
    let ghost v = parts_view(parts, all_items);
    let Parts {
        plan_id: pid_chars,
        objective: objective_b,
        items,
        status,
        revision,
        generated,
        has_acceptance,
        explicit_deps: explicit,
        unmapped,
        saw_fence,
        truncated,
    } = parts;
    let plan_id = plan_id_of(&pid_chars);
    let objective_s = string_of(&objective_b);
    let ghost items_v = items@;
    let mut plan = match Plan::new(plan_id, objective_s.as_str(), items) {
        Ok(p) => p,
        Err(e) => {
            let mut m = owned("imported plan is invalid: ");
            push_str(&mut m, e.message().as_str());
            proof {
                assert(items_are(items_v, v.items));
                assert(plan_parts_error(crate::SCHEMA_VERSION, v.objective, items_v, Seq::empty(), None) == Some(e));
                assert(m@ == invalid_plan_message(e));
            }
            return Err(MarkdownError(m));
        },
    };
    match &status {
        Some(s) => {
            let (b, _) = bounded_chars(s, crate::bounds::PROVENANCE_CHARS);
            plan.provenance.insert(owned("markdown_source_status"), string_of(&b));
        },
        None => {},
    }
    match &revision {
        Some(s) => {
            let (b, _) = bounded_chars(s, crate::bounds::PROVENANCE_CHARS);
            plan.provenance.insert(owned("markdown_source_revision"), string_of(&b));
        },
        None => {},
    }
    assert(entries_map(plan.provenance@) =~= codegg_provenance(v));
    let mut preserved: Vec<String> = Vec::new();
    push_text(&mut preserved, "objective");
    push_text(&mut preserved, "work_package_order");
    push_text(&mut preserved, "work_package_text");
    if has_acceptance {
        push_text(&mut preserved, "acceptance_criteria");
    }
    if explicit {
        push_text(&mut preserved, "explicit_dependencies");
    }
    assert(strings(preserved@) =~= codegg_preserved(v));
    let mut dropped: Vec<String> = Vec::new();
    push_text(&mut dropped, "source_status_and_lifecycle_authority");
    let mut i: usize = 0;
    while i < unmapped.len()
        invariant
            i <= unmapped@.len(),
            strings(dropped@) == seq!["source_status_and_lifecycle_authority"@] + strings(unmapped@).take(i as int),
        decreases unmapped.len() - i,
    {
        push_text(&mut dropped, unmapped[i].as_str());
        i = i + 1;
        assert(strings(unmapped@).take(i as int) =~= strings(unmapped@).take(i - 1).push(unmapped@[i - 1]@));
    }
    if saw_fence {
        push_text(&mut dropped, "fenced_code_block_contents");
    }
    assert(strings(dropped@) =~= codegg_dropped(v));
    let mut lossy: Vec<String> = Vec::new();
    push_text(&mut lossy, "ordered_sections_not_dependency_edges");
    let mut warnings: Vec<String> = Vec::new();
    push_text(&mut warnings, "generated_item_id");
    push_text(&mut warnings, "markdown_closure_not_imported");
    push_text(&mut warnings, "markdown_evidence_not_imported");
    if status.is_some() {
        push_text(&mut warnings, "source_lifecycle_not_authoritative");
    }
    if revision.is_some() {
        push_text(&mut warnings, "source_revision_provenance_only");
    }
    if truncated {
        push_text(&mut warnings, "text_truncated");
    }
    if unmapped.len() > 0 || saw_fence {
        push_text(&mut warnings, "unmapped_section");
    }
    assert(strings(warnings@) =~= codegg_warnings(v));
    assert(strings(lossy@) =~= seq!["ordered_sections_not_dependency_edges"@]);
    let source_name = match name {
        Some(n) => Some(string_of(&cap_chars(&chars_of(n)))),
        None => None,
    };
    let report = ImportReport {
        schema_version: 1,
        source_format: owned("codegg"),
        source_version: None,
        source_name,
        plan_id: plan.id.duplicate(),
        original_source_status: opt_cap_string(&status),
        original_source_revision: opt_cap_string(&revision),
        generated_ids: generated,
        preserved_fields: preserved,
        dropped_fields: dropped,
        lossy_mappings: lossy,
        warning_codes: warnings,
        truncated,
    };
    match plan.validate() {
        Ok(()) => {},
        Err(e) => {
            let mut m = owned("imported plan is invalid: ");
            push_str(&mut m, e.message().as_str());
            proof {
                assert(codegg_plan_is(plan, v));
                assert(plan_error(plan) == Some(e));
                assert(m@ == invalid_plan_message(e));
            }
            return Err(MarkdownError(m));
        },
    }
    Ok(ImportedPlan { plan, report })
}

} // verus!

verus! {

/// The lines of a text with the position where each begins, split at
/// `\n` (`str::split_inclusive`, without the `\n`), after `n` characters:
/// finished pieces, the start and the text of the piece in progress.
pub open spec fn piece_scan(s: Seq<char>, n: int) -> (Seq<(int, Seq<char>)>, int, Seq<char>)
    decreases n,
{
    if n <= 0 {
        (Seq::empty(), 0, Seq::empty())
    } else {
        let (done, start, cur) = piece_scan(s, n - 1);
        if s[n - 1] == '\n' {
            (done.push((start, cur)), n, Seq::empty())
        } else {
            (done, start, cur.push(s[n - 1]))
        }
    }
}

/// The lines of a text with the position where each begins.
pub open spec fn pieces(s: Seq<char>) -> Seq<(int, Seq<char>)> {
    let (done, start, cur) = piece_scan(s, s.len() as int);
    if cur.len() > 0 {
        done.push((start, cur))
    } else {
        done
    }
}

/// The payload fences outside fenced code after the first `n` pieces,
/// with the position of the line and its leading whitespace: a fence line
/// whose trimmed text is exactly the native fence.
pub open spec fn start_scan(ps: Seq<(int, Seq<char>)>, n: int) -> (Option<(char, nat)>, Seq<(int, Seq<char>)>)
    decreases n,
{
    if n <= 0 {
        (None, Seq::empty())
    } else {
        let (open, starts) = start_scan(ps, n - 1);
        let line = strip_end(ps[n - 1].1, CharClass::Cr);
        if fence_run(line) is Some {
            let next = if open is None && trim(line) == "```eggplan-plan-json"@ {
                starts.push((ps[n - 1].0, line.take(lead_count(line, CharClass::Space) as int)))
            } else {
                starts
            };
            (fence_step(open, line), next)
        } else {
            (open, starts)
        }
    }
}

/// The native payload fences of a document.
pub open spec fn payload_starts(text: Seq<char>) -> Seq<(int, Seq<char>)> {
    let ps = pieces(text);
    start_scan(ps, ps.len() as int).1
}

/// The payload of a native document: exactly one payload fence and one
/// `v1` marker outside fenced code; the fence alone on its line; the
/// payload runs to the first line that begins with three backticks
/// (a `\r\n` one first), with `\r\n` turned into `\n`.
pub open spec fn native_frame(text: Seq<char>) -> Result<Seq<char>, Seq<char>> {
    let starts = payload_starts(text);
    let markers = native_markers(text);
    if starts.len() != 1 {
        Err("expected exactly one native intent payload"@)
    } else if markers.len() != 1 || markers[0] != "<!-- eggplan-markdown:v1 -->"@ {
        Err("native v1 marker is missing"@)
    } else if starts[0].1.len() > 0 {
        Err("native payload fence must start on its own line"@)
    } else {
        let after = text.skip(starts[0].0 + 20);
        let body = if after.len() >= 1 && after[0] == '\n' {
            Some(after.skip(1))
        } else if after.len() >= 2 && after[0] == '\r' && after[1] == '\n' {
            Some(after.skip(2))
        } else {
            None
        };
        match body {
            None => Err("native payload fence must start on its own line"@),
            Some(b) => match find_sub(b, "\r\n```"@) {
                Some(e) => Ok(crlf_to_lf(b.take(e as int))),
                None => match find_sub(b, "\n```"@) {
                    Some(e) => Ok(crlf_to_lf(b.take(e as int))),
                    None => Err("unterminated native payload"@),
                },
            },
        }
    }
}

/// A document whose single payload fence is indented by whitespace whose
/// UTF-8 encoding has no character boundary at byte 20: locating the
/// payload by byte position would split a character there.
pub open spec fn frame_splits_char(text: Seq<char>) -> bool {
    let starts = payload_starts(text);
    let markers = native_markers(text);
    &&& starts.len() == 1
    &&& markers.len() == 1
    &&& markers[0] == "<!-- eggplan-markdown:v1 -->"@
    &&& utf8_len(starts[0].1) > 20
    &&& !exists|k: int| 0 <= k <= starts[0].1.len() && utf8_len(#[trigger] starts[0].1.take(k)) == 20
}

fn split_pieces(s: &Vec<char>) -> (r: Vec<(usize, Vec<char>)>)
    ensures
        r@.len() == pieces(s@).len(),
        forall|i: int| 0 <= i < r@.len() ==> (#[trigger] r@[i]).0 as int == pieces(s@)[i].0 && r@[i].1@ == pieces(s@)[i].1,
        forall|i: int| 0 <= i < r@.len() ==> (#[trigger] r@[i]).0 + r@[i].1@.len() <= s@.len(),
{
    let mut done: Vec<(usize, Vec<char>)> = Vec::new();
    let mut start: usize = 0;
    let mut cur: Vec<char> = Vec::new();
    let mut i: usize = 0;
    while i < s.len()
        invariant
            i <= s@.len(),
            done@.len() == piece_scan(s@, i as int).0.len(),
            forall|k: int| 0 <= k < done@.len() ==> (#[trigger] done@[k]).0 as int == piece_scan(s@, i as int).0[k].0
                && done@[k].1@ == piece_scan(s@, i as int).0[k].1,
            forall|k: int| 0 <= k < done@.len() ==> (#[trigger] done@[k]).0 + done@[k].1@.len() <= i,
            start as int == piece_scan(s@, i as int).1,
            cur@ == piece_scan(s@, i as int).2,
            start + cur@.len() == i,
        decreases s.len() - i,
    {
        if s[i] == '\n' {
            done.push((start, cur));
            cur = Vec::new();
            start = i + 1;
        } else {
            cur.push(s[i]);
        }
        i = i + 1;
    }
    if cur.len() > 0 {
        done.push((start, cur));
    }
    done
}

fn starts_of(text: &Vec<char>) -> (r: Vec<(usize, Vec<char>)>)
    ensures
        r@.len() == payload_starts(text@).len(),
        forall|i: int| 0 <= i < r@.len() ==> (#[trigger] r@[i]).0 as int == payload_starts(text@)[i].0 && r@[i].1@
            == payload_starts(text@)[i].1,
        forall|i: int| 0 <= i < r@.len() ==> (#[trigger] r@[i]).0 + 20 <= text@.len() || r@[i].1@.len() > 0,
{
    let ps = split_pieces(text);
    let ghost pv = pieces(text@);
    let mut open: Option<(char, usize)> = None;
    let mut starts: Vec<(usize, Vec<char>)> = Vec::new();
    let mut k: usize = 0;
    while k < ps.len()
        invariant
            k <= ps@.len(),
            pv == pieces(text@),
            ps@.len() == pv.len(),
            forall|i: int| 0 <= i < ps@.len() ==> (#[trigger] ps@[i]).0 as int == pv[i].0 && ps@[i].1@ == pv[i].1,
            forall|i: int| 0 <= i < ps@.len() ==> (#[trigger] ps@[i]).0 + ps@[i].1@.len() <= text@.len(),
            fence_view(open) == start_scan(pv, k as int).0,
            starts@.len() == start_scan(pv, k as int).1.len(),
            forall|i: int| 0 <= i < starts@.len() ==> (#[trigger] starts@[i]).0 as int == start_scan(pv, k as int).1[i].0
                && starts@[i].1@ == start_scan(pv, k as int).1[i].1,
            forall|i: int| 0 <= i < starts@.len() ==> (#[trigger] starts@[i]).0 + 20 <= text@.len() || starts@[i].1@.len() > 0,
        decreases ps.len() - k,
    {
        let raw = &ps[k].1;
        let n = count_trail(raw, raw.len(), CharClass::Cr);
        assert(raw@.take(raw@.len() as int) =~= raw@);
        let line = slice(raw, 0, raw.len() - n);
        assert(line@ =~= strip_end(pv[k as int].1, CharClass::Cr));
        match fence_of(&line) {
            Some(f) => {
                if open.is_none() {
                    let t = trim_chars(&line);
                    if equals_literal(&t, "```eggplan-plan-json") {
                        let w = count_lead(&line, 0, CharClass::Space);
                        assert(line@.skip(0) =~= line@);
                        let lead = slice(&line, 0, w);
                        assert(lead@ =~= line@.take(w as int));
                        proof {
                            reveal_strlit("```eggplan-plan-json");
                            if w == 0 {
                                assert(trim(line@).len() == 20);
                                assert(line@.len() >= 20) by {
                                    crate::markdown_text::lemma_strip_len(line@, CharClass::Space);
                                }
                            }
                        }
                        starts.push((ps[k].0, lead));
                    }
                }
                open = next_fence(open, &f);
            },
            None => {},
        }
        k = k + 1;
    }
    starts
}

fn native_payload_text(text: &Vec<char>) -> (r: Result<Vec<char>, MarkdownError>)
    requires
        !frame_splits_char(text@),
    ensures
        match r {
            Ok(p) => native_frame(text@) == Ok::<Seq<char>, Seq<char>>(p@),
            Err(e) => native_frame(text@) == Err::<Seq<char>, Seq<char>>(e.0@),
        },
{
    let starts = starts_of(text);
    if starts.len() != 1 {
        return Err(error("expected exactly one native intent payload"));
    }
    let lines = split_lines(text);
    let markers = markers_of(&lines);
    if markers.len() != 1 || !equals_literal(&markers[0], "<!-- eggplan-markdown:v1 -->") {
        return Err(error("native v1 marker is missing"));
    }
    if starts[0].1.len() > 0 {
        return Err(error("native payload fence must start on its own line"));
    }
    let tl = text.len();
    assert(starts@[0].0 + 20 <= tl);
    let at = starts[0].0 + 20;
    let after = slice(text, at, tl);
    assert(after@ =~= text@.skip(at as int));
    let body = if after.len() >= 1 && after[0] == '\n' {
        let b = slice(&after, 1, after.len());
        assert(b@ =~= after@.skip(1));
        b
    } else if after.len() >= 2 && after[0] == '\r' && after[1] == '\n' {
        let b = slice(&after, 2, after.len());
        assert(b@ =~= after@.skip(2));
        b
    } else {
        return Err(error("native payload fence must start on its own line"));
    };
    let crlf = chars_of("\r\n```");
    let lf = chars_of("\n```");
    proof {
        reveal_strlit("\r\n```");
        reveal_strlit("\n```");
    }
    let end = match find_text(&body, &crlf) {
        Some(e) => e,
        None => match find_text(&body, &lf) {
            Some(e) => e,
            None => {
                return Err(error("unterminated native payload"));
            },
        },
    };
    let payload = slice(&body, 0, end);
    assert(payload@ =~= body@.take(end as int));
    Ok(crlf_chars(&payload))
}

} // verus!

verus! {

/// The plan intent a native document carries.
#[derive(Debug, Clone, PartialEq, Eq)]
pub struct NativePayload {
    pub format_version: u32,
    pub plan_schema_version: u32,
    pub plan_id: PlanId,
    pub objective: String,
    pub source_revision: u64,
    pub source_status: PlanStatus,
    pub items: Vec<NativeItem>,
}

/// An item of a native payload: intent, without a lifecycle status.
#[derive(Debug, Clone, PartialEq, Eq)]
pub struct NativeItem {
    pub id: PlanItemId,
    pub position: u32,
    pub parent: Option<PlanItemId>,
    pub dependencies: Vec<PlanItemId>,
    pub description: String,
    pub criteria: Vec<AcceptanceCriterion>,
    pub blocker: Option<String>,
    pub next_action: Option<String>,
}

/// The item a native item imports as: Blocked when it states a blocker,
/// else Pending.
pub open spec fn native_item_is(i: PlanItem, n: NativeItem) -> bool {
    &&& i.id == n.id
    &&& i.position == n.position
    &&& i.parent == n.parent
    &&& i.dependencies == n.dependencies
    &&& i.status == if n.blocker is Some {
        PlanItemStatus::Blocked
    } else {
        PlanItemStatus::Pending
    }
    &&& i.description == n.description
    &&& i.criteria == n.criteria
    &&& i.blocker == n.blocker
    &&& i.next_action == n.next_action
}

/// The provenance of a native import: the source status and revision.
pub open spec fn native_provenance(p: NativePayload) -> Map<Seq<char>, Seq<char>> {
    Map::empty().insert("markdown_source_status"@, crate::model::plan_status_text(p.source_status)).insert(
        "markdown_source_revision"@,
        crate::json::decimal(p.source_revision as nat),
    )
}

/// The plan of a native import: a Draft at revision zero with the
/// payload's schema version, identifier, objective and items.
pub open spec fn native_plan_is(pl: Plan, p: NativePayload) -> bool {
    &&& pl.schema_version == p.plan_schema_version
    &&& pl.id == p.plan_id
    &&& pl.revision == 0
    &&& pl.objective == p.objective
    &&& pl.status == PlanStatus::Draft
    &&& entries_map(pl.provenance@) == native_provenance(p)
    &&& pl.items@.len() == p.items@.len()
    &&& forall|j: int| 0 <= j < p.items@.len() ==> native_item_is(#[trigger] pl.items@[j], p.items@[j])
    &&& pl.subject is None
}

/// The report of a native import.
pub open spec fn native_report_is(r: ImportReport, p: NativePayload, name: Option<Seq<char>>) -> bool {
    let truncated = name matches Some(n) && n.len() > 512;
    &&& r.schema_version == 1
    &&& r.source_format@ == "eggplan"@
    &&& r.source_version == Some(1u32)
    &&& opt_string(r.source_name) == opt_cap(name)
    &&& r.plan_id == p.plan_id
    &&& opt_string(r.original_source_status) == Some(crate::model::plan_status_text(p.source_status))
    &&& opt_string(r.original_source_revision) == Some(crate::json::decimal(p.source_revision as nat))
    &&& r.generated_ids@.len() == 0
    &&& strings(r.preserved_fields@) == seq![
        "plan_id"@,
        "objective"@,
        "item_ids_and_order"@,
        "parent_and_dependencies"@,
        "descriptions"@,
        "acceptance_criteria_and_evidence_requirements"@,
        "blocker_and_next_action"@,
    ]
    &&& r.dropped_fields@.len() == 0
    &&& strings(r.lossy_mappings@) == seq!["item_status_reset_to_pending_or_blocked_from_blocker_intent"@]
        + if p.source_status != PlanStatus::Draft {
        seq!["source_plan_status_reset_to_draft"@]
    } else {
        Seq::empty()
    }
    &&& strings(r.warning_codes@) == seq![
        "source_lifecycle_not_authoritative"@,
        "source_revision_provenance_only"@,
        "markdown_evidence_not_imported"@,
        "markdown_closure_not_imported"@,
    ] + if truncated {
        seq!["text_truncated"@]
    } else {
        Seq::empty()
    }
    &&& r.truncated == truncated
}

/// The message of a native plan that fails validation.
pub open spec fn invalid_native_message(x: ValidationError) -> Seq<char> {
    "invalid native intent plan: "@ + validation_message(x)
}

fn name_report(name: Option<&str>) -> (r: (Option<String>, bool))
    ensures
        opt_string(r.0) == opt_cap(opt_str(name)),
        r.1 == (opt_str(name) matches Some(n) && n.len() > 512),
{
    match name {
        Some(n) => {
            let c = chars_of(n);
            (Some(string_of(&cap_chars(&c))), c.len() > 512)
        },
        None => (None, false),
    }
}

/// Imports a decoded native payload as a Draft plan of intent: item
/// statuses reset to Pending, or Blocked where a blocker is stated; the
/// source status and revision kept only as provenance. Refuses a format
/// version other than 1, more than `MAX_ITEMS` items, and a plan that
/// fails validation.
pub fn import_native_payload(payload: NativePayload, source_name: Option<&str>) -> (r: Result<ImportedPlan, MarkdownError>)
    ensures
        match r {
            Ok(ip) => {
                &&& payload.format_version == 1
                &&& payload.items@.len() <= crate::bounds::MAX_ITEMS
                &&& native_plan_is(ip.plan, payload)
                &&& plan_error(ip.plan) is None
                &&& native_report_is(ip.report, payload, opt_str(source_name))
            },
            Err(e) => if payload.format_version != 1 {
                e.0@ == "unsupported native format version "@ + crate::json::decimal(payload.format_version as nat)
            } else if payload.items@.len() > crate::bounds::MAX_ITEMS {
                e.0@ == "native item count exceeds plan bounds"@
            } else {
                exists|p: Plan|
                    native_plan_is(p, payload) && (#[trigger] plan_error(p) matches Some(x) && e.0@ == invalid_native_message(x))
            },
        },
{
    let ghost orig = payload;
    if payload.format_version != 1 {
        let mut m = owned("unsupported native format version ");
        crate::json::write_decimal(payload.format_version as u64, &mut m);
        return Err(MarkdownError(m));
    }
    if payload.items.len() > crate::bounds::MAX_ITEMS {
        return Err(error("native item count exceeds plan bounds"));
    }
    let NativePayload { format_version: _, plan_schema_version, plan_id, objective, source_revision, source_status, items: native } =
        payload;
    let mut native = native;
    let mut rev: Vec<PlanItem> = Vec::new();
    while native.len() > 0
        invariant
            native@.len() + rev@.len() == orig.items@.len(),
            forall|j: int| 0 <= j < native@.len() ==> native@[j] == orig.items@[j],
            forall|k: int| 0 <= k < rev@.len() ==> native_item_is(#[trigger] rev@[k], orig.items@[orig.items@.len() - 1 - k]),
        decreases native.len(),
    {
        let n = native.pop().unwrap();
        let status = if n.blocker.is_some() {
            PlanItemStatus::Blocked
        } else {
            PlanItemStatus::Pending
        };
        rev.push(PlanItem {
            id: n.id,
            position: n.position,
            parent: n.parent,
            dependencies: n.dependencies,
            status,
            description: n.description,
            criteria: n.criteria,
            blocker: n.blocker,
            next_action: n.next_action,
        });
    }
    let mut items: Vec<PlanItem> = Vec::new();
    while rev.len() > 0
        invariant
            rev@.len() + items@.len() == orig.items@.len(),
            forall|k: int| 0 <= k < rev@.len() ==> native_item_is(#[trigger] rev@[k], orig.items@[orig.items@.len() - 1 - k]),
            forall|j: int| 0 <= j < items@.len() ==> native_item_is(#[trigger] items@[j], orig.items@[j]),
        decreases rev.len(),
    {
        let it = rev.pop().unwrap();
        items.push(it);
    }
    let status_text = crate::model::plan_status_name(source_status);
    let mut revision_text = String::new();
    crate::json::write_decimal(source_revision, &mut revision_text);
    let pid = plan_id.duplicate();
    let mut plan = Plan {
        schema_version: plan_schema_version,
        id: plan_id,
        revision: 0,
        objective,
        status: PlanStatus::Draft,
        provenance: crate::text_map::TextMap::new(),
        items,
        subject: None,
    };
    plan.provenance.insert(owned("markdown_source_status"), owned(status_text));
    plan.provenance.insert(owned("markdown_source_revision"), owned(revision_text.as_str()));
    assert(entries_map(plan.provenance@) =~= native_provenance(orig));
    let (source_name_r, truncated) = name_report(source_name);
    let mut preserved: Vec<String> = Vec::new();
    push_text(&mut preserved, "plan_id");
    push_text(&mut preserved, "objective");
    push_text(&mut preserved, "item_ids_and_order");
    push_text(&mut preserved, "parent_and_dependencies");
    push_text(&mut preserved, "descriptions");
    push_text(&mut preserved, "acceptance_criteria_and_evidence_requirements");
    push_text(&mut preserved, "blocker_and_next_action");
    let mut lossy: Vec<String> = Vec::new();
    push_text(&mut lossy, "item_status_reset_to_pending_or_blocked_from_blocker_intent");
    if source_status != PlanStatus::Draft {
        push_text(&mut lossy, "source_plan_status_reset_to_draft");
    }
    let mut warnings: Vec<String> = Vec::new();
    push_text(&mut warnings, "source_lifecycle_not_authoritative");
    push_text(&mut warnings, "source_revision_provenance_only");
    push_text(&mut warnings, "markdown_evidence_not_imported");
    push_text(&mut warnings, "markdown_closure_not_imported");
    if truncated {
        push_text(&mut warnings, "text_truncated");
    }
    let report = ImportReport {
        schema_version: 1,
        source_format: owned("eggplan"),
        source_version: Some(1),
        source_name: source_name_r,
        plan_id: pid,
        original_source_status: Some(owned(status_text)),
        original_source_revision: Some(revision_text),
        generated_ids: Vec::new(),
        preserved_fields: preserved,
        dropped_fields: Vec::new(),
        lossy_mappings: lossy,
        warning_codes: warnings,
        truncated,
    };
    assert(strings(preserved@) =~= seq![
        "plan_id"@,
        "objective"@,
        "item_ids_and_order"@,
        "parent_and_dependencies"@,
        "descriptions"@,
        "acceptance_criteria_and_evidence_requirements"@,
        "blocker_and_next_action"@,
    ]);
    assert(strings(report.lossy_mappings@) =~= seq!["item_status_reset_to_pending_or_blocked_from_blocker_intent"@] + if orig.source_status
        != PlanStatus::Draft {
        seq!["source_plan_status_reset_to_draft"@]
    } else {
        Seq::<Seq<char>>::empty()
    });
    assert(strings(report.warning_codes@) =~= seq![
        "source_lifecycle_not_authoritative"@,
        "source_revision_provenance_only"@,
        "markdown_evidence_not_imported"@,
        "markdown_closure_not_imported"@,
    ] + if truncated {
        seq!["text_truncated"@]
    } else {
        Seq::<Seq<char>>::empty()
    });
    assert(native_plan_is(plan, orig));
    assert(native_report_is(report, orig, opt_str(source_name)));
    match plan.validate() {
        Ok(()) => {},
        Err(e) => {
            let mut m = owned("invalid native intent plan: ");
            push_str(&mut m, e.message().as_str());
            assert(native_plan_is(plan, orig));
            return Err(MarkdownError(m));
        },
    }
    Ok(ImportedPlan { plan, report })
}

} // verus!

verus! {

/// What an import gives: a Codegg plan, imported; or, for a native
/// document, its framed payload JSON, which the caller decodes and hands
/// to `import_native_payload`.
#[derive(Debug, Clone, PartialEq, Eq)]
pub enum ImportStep {
    Imported(ImportedPlan),
    NativePayload(String),
}

/// The format a document is read as.
pub open spec fn chosen_format(text: Seq<char>, format: ImportFormat) -> ImportFormat {
    match format {
        ImportFormat::Auto => detected(text),
        ImportFormat::Eggplan => ImportFormat::Eggplan,
        ImportFormat::Codegg => ImportFormat::Codegg,
    }
}

/// The outcome of an import: input bounds, then the source name bound,
/// then the chosen format's importer.
pub open spec fn import_outcome(
    input: Seq<u8>,
    format: ImportFormat,
    name: Option<Seq<char>>,
    r: Result<ImportStep, MarkdownError>,
) -> bool {
    match input_fault(input) {
        Some(m) => r matches Err(e) && e.0@ == m,
        None => if name matches Some(n) && n.len() > 512 {
            r matches Err(e) && e.0@ == "source name exceeds 512 characters"@
        } else {
            let text = decode_utf8(input);
            match chosen_format(text, format) {
                ImportFormat::Codegg => match r {
                    Ok(ImportStep::Imported(ip)) => codegg_outcome(input, text, name, Ok(ip)),
                    Ok(ImportStep::NativePayload(_)) => false,
                    Err(e) => codegg_outcome(input, text, name, Err(e)),
                },
                _ => match native_frame(text) {
                    Ok(p) => r matches Ok(ImportStep::NativePayload(s)) && s@ == p,
                    Err(m) => r matches Err(e) && e.0@ == m,
                },
            }
        },
    }
}

/// Imports a Markdown document (see `import_outcome`). A native
/// document whose payload fence is indented so that byte 20 of the line
/// falls inside a character is not accepted.
pub fn import(input: &[u8], format: ImportFormat, source_name: Option<&str>) -> (r: Result<ImportStep, MarkdownError>)
    requires
        !(input_fault(input@) is None && chosen_format(decode_utf8(input@), format) != ImportFormat::Codegg
            && frame_splits_char(decode_utf8(input@))),
    ensures
        import_outcome(input@, format, opt_str(source_name), r),
{
    let text = checked_text(input)?;
    match source_name {
        Some(n) => {
            if chars_of(n).len() > 512 {
                return Err(error("source name exceeds 512 characters"));
            }
        },
        None => {},
    }
    let chosen = match format {
        ImportFormat::Auto => {
            let lines = split_lines(&text);
            let markers = markers_of(&lines);
            if markers.len() > 0 {
                ImportFormat::Eggplan
            } else {
                ImportFormat::Codegg
            }
        },
        ImportFormat::Eggplan => ImportFormat::Eggplan,
        ImportFormat::Codegg => ImportFormat::Codegg,
    };
    match chosen {
        ImportFormat::Codegg => match import_codegg(input, &text, source_name) {
            Ok(ip) => Ok(ImportStep::Imported(ip)),
            Err(e) => Err(e),
        },
        _ => {
            let p = native_payload_text(&text)?;
            Ok(ImportStep::NativePayload(string_of(&p)))
        },
    }
}

/// Whether the native payload of a checked text cannot be read without
/// splitting a character (see `frame_splits_char`).
fn frame_would_split(text: &Vec<char>) -> (r: bool)
    ensures
        r == frame_splits_char(text@),
{
    let starts = starts_of(text);
    if starts.len() != 1 {
        return false;
    }
    let lines = split_lines(text);
    let markers = markers_of(&lines);
    if markers.len() != 1 || !equals_literal(&markers[0], "<!-- eggplan-markdown:v1 -->") {
        return false;
    }
    let lead = &starts[0].1;
    if !utf8_longer_than(lead, 20) {
        return false;
    }
    !crate::markdown_text::utf8_boundary_at(lead, 20)
}

/// Whether `import` would have to split a character to read the native
/// payload of `input` read as `format`: the inputs that `import` does
/// not take.
pub fn import_splits_char(input: &[u8], format: ImportFormat) -> (r: bool)
    ensures
        r == (input_fault(input@) is None && chosen_format(decode_utf8(input@), format) != ImportFormat::Codegg
            && frame_splits_char(decode_utf8(input@))),
{
    let text = match checked_text(input) {
        Ok(t) => t,
        Err(_) => {
            return false;
        },
    };
    let native = match format {
        ImportFormat::Auto => {
            let lines = split_lines(&text);
            let markers = markers_of(&lines);
            markers.len() > 0
        },
        ImportFormat::Eggplan => true,
        ImportFormat::Codegg => false,
    };
    native && frame_would_split(&text)
}

} // verus!

verus! {

/// A `* ` bullet and a `- ` bullet give the same list text: whatever
/// follows the marker, trimmed.
pub proof fn lemma_star_and_dash_bullets_agree(r: Seq<char>)
    ensures
        strip_list_marker(seq!['*', ' '] + r) == trim(r),
        strip_list_marker(seq!['-', ' '] + r) == trim(r),
{
    reveal_strlit("- ");
    reveal_strlit("* ");
    let star = seq!['*', ' '] + r;
    let dash = seq!['-', ' '] + r;
    assert(star.take(2) =~= "* "@);
    assert(star.skip(2) =~= r);
    assert(star.take(2)[0] != "- "@[0]);
    assert(!starts_with(star, "- "@));
    assert(dash.take(2) =~= "- "@);
    assert(dash.skip(2) =~= r);
}

proof fn lemma_digits_lead(d: Seq<char>, rest: Seq<char>)
    requires
        forall|i: int| 0 <= i < d.len() ==> crate::markdown_text::is_digit(#[trigger] d[i]),
        rest.len() > 0,
        !crate::markdown_text::is_digit(rest[0]),
    ensures
        lead_count(d + rest, CharClass::Digit) == d.len(),
    decreases d.len(),
{
    if d.len() == 0 {
        assert(d + rest =~= rest);
    } else {
        let t = d.drop_first();
        assert((d + rest).drop_first() =~= t + rest);
        assert forall|i: int| 0 <= i < t.len() implies crate::markdown_text::is_digit(#[trigger] t[i]) by {
            assert(t[i] == d[i + 1]);
        }
        lemma_digits_lead(t, rest);
    }
}

/// A numbered list item, digits followed by `. ` or `) `, gives the text
/// after the marker, trimmed, as a bullet does.
pub proof fn lemma_numbered_items_strip(d: Seq<char>, r: Seq<char>)
    requires
        d.len() > 0,
        forall|i: int| 0 <= i < d.len() ==> crate::markdown_text::is_digit(#[trigger] d[i]),
    ensures
        strip_list_marker(d + seq!['.', ' '] + r) == trim(r),
        strip_list_marker(d + seq![')', ' '] + r) == trim(r),
{
    reveal_strlit("- ");
    reveal_strlit("* ");
    reveal_strlit(". ");
    reveal_strlit(") ");
    let dot = d + seq!['.', ' '] + r;
    let par = d + seq![')', ' '] + r;
    assert(dot =~= d + (seq!['.', ' '] + r));
    assert(par =~= d + (seq![')', ' '] + r));
    lemma_digits_lead(d, seq!['.', ' '] + r);
    lemma_digits_lead(d, seq![')', ' '] + r);
    assert(dot[0] == d[0] && par[0] == d[0]);
    assert(dot.take(2)[0] != "- "@[0] && dot.take(2)[0] != "* "@[0]);
    assert(par.take(2)[0] != "- "@[0] && par.take(2)[0] != "* "@[0]);
    assert(dot.skip(d.len() as int) =~= seq!['.', ' '] + r);
    assert(par.skip(d.len() as int) =~= seq![')', ' '] + r);
    assert((seq!['.', ' '] + r).take(2) =~= ". "@);
    assert((seq!['.', ' '] + r).skip(2) =~= r);
    assert((seq![')', ' '] + r).take(2) =~= ") "@);
    assert((seq![')', ' '] + r).take(2)[0] != ". "@[0]);
    assert((seq![')', ' '] + r).skip(2) =~= r);
}

/// Text that begins with no list marker is kept as it is: a first
/// character that is not a digit, and not `-` or `*` followed by a space.
pub proof fn lemma_unmarked_text_kept(t: Seq<char>)
    requires
        t.len() == 0 || !crate::markdown_text::is_digit(t[0]),
        !(t.len() >= 2 && (t[0] == '-' || t[0] == '*') && t[1] == ' '),
    ensures
        strip_list_marker(t) == t,
{
    reveal_strlit("- ");
    reveal_strlit("* ");
    if t.len() >= 2 {
        assert(t.take(2)[0] == t[0] && t.take(2)[1] == t[1]);
        if t.take(2) == "- "@ {
            assert(t[0] == '-' && t[1] == ' ');
        }
        if t.take(2) == "* "@ {
            assert(t[0] == '*' && t[1] == ' ');
        }
    }
}

} // verus!
