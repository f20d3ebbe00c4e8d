//! The edits on a journal: finding, reading, replacing and adding the
//! sub-sections of a day, and opening a day section.
//!
//! A journal is a plain text. Each function here splits it into lines, does
//! its work on the lines, and joins them again; nothing is kept in between.

use vstd::prelude::*;
use crate::chars::{chars_of, newline, push_chars};
use crate::lines::{
    emit_line, emit_lines, join_lines, lemma_lines_cons, line_views, lines_of, lines_of_str,
    no_newline, plain_line, strip_cr,
};
use crate::locate::{
    day_end, day_end_in, day_start, day_start_in, differs_from, index_view, lemma_scan, section_in,
    section_span, span_view,
};
use crate::runs::{prefix_run, lemma_prefix_run_is};
use crate::time::{date_text, get_today, lemma_date_text_is_plain};

verus! {

/// The line under a date line: ten equals signs.
pub open spec fn underline() -> Seq<char> {
    seq!['=', '=', '=', '=', '=', '=', '=', '=', '=', '=']
}

/// What opens a day section: three empty lines, the date line, the
/// underline, and one empty line.
pub open spec fn day_heading(date: Seq<char>) -> Seq<char> {
    seq!['\n', '\n', '\n'] + date + seq!['\n'] + underline() + seq!['\n', '\n']
}

/// `text` without the line feeds it starts with.
pub open spec fn without_leading_newlines(text: Seq<char>) -> Seq<char> {
    text.skip(prefix_run(text, newline()))
}

/// The journal `text` with a new day section for `date` on top of it.
pub open spec fn created(text: Seq<char>, date: Seq<char>) -> Seq<char> {
    day_heading(date) + without_leading_newlines(text)
}

/// The journal `text` has a day section for `date`: one of its lines is
/// `date`.
pub open spec fn has_day(text: Seq<char>, date: Seq<char>) -> bool {
    lines_of(text).contains(date)
}

/// The journal `text` with a day section for `date`: itself where it has
/// one, else with a new one on top.
pub open spec fn ensured(text: Seq<char>, date: Seq<char>) -> Seq<char> {
    if has_day(text, date) {
        text
    } else {
        created(text, date)
    }
}

/// The body of the sub-section `header` of the day `date` in `text`: its
/// lines, joined; nothing where there is no such sub-section.
pub open spec fn extracted(text: Seq<char>, date: Seq<char>, header: Seq<char>) -> Option<
    Seq<char>,
> {
    let lines = lines_of(text);
    match section_span(lines, date, header) {
        None => None,
        Some((at, end)) => Some(join_lines(lines.subrange(at + 1, end))),
    }
}

/// The journal `text` with the lines of `body` in place of the body of the
/// sub-section `header` of the day `date`; `text` itself where there is no
/// such sub-section.
pub open spec fn replaced(
    text: Seq<char>,
    date: Seq<char>,
    header: Seq<char>,
    body: Seq<char>,
) -> Seq<char> {
    let lines = lines_of(text);
    match section_span(lines, date, header) {
        None => text,
        Some((at, end)) => join_lines(
            lines.subrange(0, at + 1) + lines_of(body) + lines.subrange(end, lines.len() as int),
        ),
    }
}

/// The lines `lines` with a new sub-section put in before the line `end`:
/// an empty line, the header, and the lines of the body.
pub open spec fn with_section(
    lines: Seq<Seq<char>>,
    end: int,
    header: Seq<char>,
    body: Seq<Seq<char>>,
) -> Seq<Seq<char>> {
    lines.subrange(0, end) + seq![Seq::<char>::empty(), header] + body + lines.subrange(
        end,
        lines.len() as int,
    )
}

/// The journal `text` with a new sub-section `header` with body `body` at
/// the end of the day section of `date`; `text` itself where there is no
/// such day section.
pub open spec fn inserted(
    text: Seq<char>,
    date: Seq<char>,
    header: Seq<char>,
    body: Seq<char>,
) -> Seq<char> {
    let lines = lines_of(text);
    match day_start(lines, date) {
        None => text,
        Some(start) => join_lines(
            with_section(lines, day_end(lines, start), header, lines_of(body)),
        ),
    }
}

/// A journal has a day section for a date exactly if a first line equal
/// to the date can be found.
pub proof fn lemma_day_start_contains(lines: Seq<Seq<char>>, date: Seq<char>)
    ensures
        day_start(lines, date) is Some <==> lines.contains(date),
{
    lemma_scan(lines, 0, lines.len() as int, differs_from(date));
    if day_start(lines, date) is Some {
        let n = day_start(lines, date)->0;
        assert(lines[n] == date);
    }
    if lines.contains(date) {
        let i = choose|i: int| 0 <= i < lines.len() && lines[i] == date;
        if day_start(lines, date) is None {
            assert(differs_from(date)(lines[i]));
        }
    }
}

/// The lines of a journal with a new day section on top: three empty
/// lines, the date (less a carriage return at its end), the underline, an
/// empty line, and then the lines of the old journal without the line
/// feeds it started with.
pub proof fn lemma_created_lines(text: Seq<char>, date: Seq<char>)
    requires
        no_newline(date),
    ensures
        lines_of(created(text, date)) == seq![
            Seq::<char>::empty(),
            Seq::<char>::empty(),
            Seq::<char>::empty(),
            strip_cr(date),
            underline(),
            Seq::<char>::empty(),
        ] + lines_of(without_leading_newlines(text)),
{
    let e = Seq::<char>::empty();
    let nl = seq!['\n'];
    let rest = without_leading_newlines(text);
    let c5 = rest;
    let c4 = e + nl + c5;
    let c3 = underline() + nl + c4;
    let c2 = date + nl + c3;
    let c1 = e + nl + c2;
    let c0 = e + nl + c1;
    let c = e + nl + c0;
    assert(c =~= created(text, date));
    lemma_lines_cons(e, c0);
    lemma_lines_cons(e, c1);
    lemma_lines_cons(e, c2);
    lemma_lines_cons(date, c3);
    lemma_lines_cons(underline(), c4);
    lemma_lines_cons(e, c5);
    assert(lines_of(c) =~= seq![e, e, e, strip_cr(date), underline(), e] + lines_of(rest));
}

/// A journal with a new day section for a date that is a plain line has a
/// day section for that date.
pub proof fn lemma_created_has_day(text: Seq<char>, date: Seq<char>)
    requires
        plain_line(date),
    ensures
        has_day(created(text, date), date),
{
    lemma_created_lines(text, date);
    assert(lines_of(created(text, date))[3] == date);
}

/// Whether `content` has a day section for `date`.
pub fn has_day_section(content: &str, date: &str) -> (yes: bool)
    ensures
        yes == has_day(content@, date@),
{
    let lines = lines_of_str(content);
    let d = chars_of(date);
    proof {
        lemma_day_start_contains(lines_of(content@), date@);
    }
    day_start_in(&lines, &d).is_some()
}

/// The index of the line at which the day section of `date` starts in
/// `content`: that of the first line equal to `date`.
pub fn find_day_section_start(content: &str, date: &str) -> (start: Option<usize>)
    ensures
        index_view(start) == day_start(lines_of(content@), date@),
{
    let lines = lines_of_str(content);
    let d = chars_of(date);
    day_start_in(&lines, &d)
}

/// The index of the line at which the day section that starts at line
/// `start` of `content` ends: that of the first date line after `start`,
/// or the number of lines.
pub fn find_day_section_end(content: &str, start: usize) -> (end: usize)
    ensures
        end == day_end(lines_of(content@), start as int),
{
    let lines = lines_of_str(content);
    day_end_in(&lines, start)
}

/// The sub-section `header` in the day section of `date`: the index of
/// its header line and the index at which its body ends.
pub fn find_section_on(content: &str, date: &str, header: &str) -> (span: Option<(usize, usize)>)
    ensures
        span_view(span) == section_span(lines_of(content@), date@, header@),
{
    let lines = lines_of_str(content);
    let d = chars_of(date);
    let h = chars_of(header);
    section_in(&lines, &d, &h)
}

/// The body of the sub-section `header` in the day section of `date`.
pub fn extract_section_on(content: &str, date: &str, header: &str) -> (body: Option<String>)
    ensures
        match body {
            Some(b) => extracted(content@, date@, header@) == Some(b@),
            None => extracted(content@, date@, header@) is None,
        },
{
    let lines = lines_of_str(content);
    let d = chars_of(date);
    let h = chars_of(header);
    match section_in(&lines, &d, &h) {
        None => None,
        Some((at, end)) => {
            let mut out = String::new();
            let ghost all = line_views(lines@);
            emit_lines(&mut out, &lines, at + 1, end, Ghost(Seq::empty()), true);
            proof {
                assert(Seq::<Seq<char>>::empty() + all.subrange(at + 1, end as int)
                    =~= all.subrange(at + 1, end as int));
            }
            Some(out)
        },
    }
}

/// `content` with the lines of `new_body` as the body of the sub-section
/// `header` in the day section of `date`. The header line and everything
/// outside the old body stay. Without such a sub-section nothing changes.
pub fn replace_section_on(content: &str, date: &str, header: &str, new_body: &str) -> (out: String)
    ensures
        out@ == replaced(content@, date@, header@, new_body@),
{
    let lines = lines_of_str(content);
    let d = chars_of(date);
    let h = chars_of(header);
    match section_in(&lines, &d, &h) {
        None => content.to_owned(),
        Some((at, end)) => {
            let body = lines_of_str(new_body);
            let mut out = String::new();
            let ghost all = line_views(lines@);
            let ghost head = all.subrange(0, at + 1);
            let ghost mid = line_views(body@);
            emit_lines(&mut out, &lines, 0, at + 1, Ghost(Seq::empty()), true);
            proof {
                assert(Seq::<Seq<char>>::empty() + head =~= head);
            }
            emit_lines(&mut out, &body, 0, body.len(), Ghost(head), false);
            proof {
                assert(mid.subrange(0, body.len() as int) =~= mid);
            }
            emit_lines(&mut out, &lines, end, lines.len(), Ghost(head + mid), false);
            out
        },
    }
}

/// `content` with a new sub-section at the end of the day section of
/// `date`: an empty line, the header line, and the lines of `body`. It is
/// added whether or not the day has a sub-section with that header
/// already. Without a day section for `date` nothing changes.
pub fn insert_section_on(content: &str, date: &str, header: &str, body: &str) -> (out: String)
    ensures
        out@ == inserted(content@, date@, header@, body@),
{
    let lines = lines_of_str(content);
    let d = chars_of(date);
    match day_start_in(&lines, &d) {
        None => content.to_owned(),
        Some(start) => {
            let end = day_end_in(&lines, start);
            let h = chars_of(header);
            let new_lines = lines_of_str(body);
            let empty: Vec<char> = Vec::new();
            let mut out = String::new();
            let ghost all = line_views(lines@);
            let ghost head = all.subrange(0, end as int);
            let ghost mid = line_views(new_lines@);
            let fresh = emit_lines(&mut out, &lines, 0, end, Ghost(Seq::empty()), true);
            proof {
                assert(Seq::<Seq<char>>::empty() + head =~= head);
            }
            emit_line(&mut out, &empty, Ghost(head), fresh);
            emit_line(&mut out, &h, Ghost(head.push(empty@)), false);
            proof {
                assert(head.push(empty@).push(h@) =~= head + seq![Seq::<char>::empty(), header@]);
            }
            let ghost top = head + seq![Seq::<char>::empty(), header@];
            emit_lines(&mut out, &new_lines, 0, new_lines.len(), Ghost(top), false);
            proof {
                assert(mid.subrange(0, new_lines.len() as int) =~= mid);
            }
            emit_lines(&mut out, &lines, end, lines.len(), Ghost(top + mid), false);
            out
        },
    }
}

/// `content` with a new day section for `date` on top: the heading, then
/// `content` without the line feeds it starts with. A section is made
/// whether or not the journal has one for that date already.
pub fn create_day_section(content: &str, date: &str) -> (out: String)
    ensures
        out@ == created(content@, date@),
{
    let text = chars_of(content);
    let d = chars_of(date);
    let mut out = String::new();
    out.push('\n');
    out.push('\n');
    out.push('\n');
    push_chars(&mut out, &d, 0);
    out.push('\n');
    let ghost start = out@;
    let mut n: usize = 0;
    while n < 10
        invariant
            n <= 10,
            out@ == start + underline().take(n as int),
        decreases 10 - n,
    {
        out.push('=');
        assert(out@ =~= start + underline().take(n + 1));
        n += 1;
    }
    out.push('\n');
    out.push('\n');
    assert(out@ =~= day_heading(date@)) by {
        assert(d@.skip(0) =~= d@);
        assert(underline().take(10) =~= underline());
    }
    let mut k: usize = 0;
    while k < text.len() && text[k] == '\n'
        invariant
            k <= text.len(),
            forall|j: int| 0 <= j < k ==> newline()(#[trigger] text@[j]),
        decreases text.len() - k,
    {
        k += 1;
    }
    proof {
        lemma_prefix_run_is(text@, newline(), k as int);
    }
    push_chars(&mut out, &text, k);
    out
}

/// `content` with a day section for `date`: unchanged where it has one,
/// else with a new one on top.
pub fn ensure_day_section(content: &str, date: &str) -> (out: String)
    ensures
        out@ == ensured(content@, date@),
{
    if has_day_section(content, date) {
        content.to_owned()
    } else {
        create_day_section(content, date)
    }
}

/// Whether `content` has a day section for today.
pub fn has_today_section(content: &str) -> (yes: bool)
    ensures
        exists|today: Seq<char>| #[trigger] date_text(today) && yes == has_day(content@, today),
{
    let today = get_today();
    has_day_section(content, today.as_str())
}

/// `content` with a new day section for today on top.
pub fn create_today_section(content: &str) -> (out: String)
    ensures
        exists|today: Seq<char>| #[trigger] date_text(today) && out@ == created(content@, today),
{
    let today = get_today();
    create_day_section(content, today.as_str())
}

/// `content` with a day section for today: unchanged where it has one,
/// else with a new one on top. Either way the result has one.
pub fn ensure_today_section(content: &str) -> (out: String)
    ensures
        exists|today: Seq<char>| #[trigger]
            date_text(today) && out@ == ensured(content@, today) && has_day(out@, today),
{
    let today = get_today();
    let out = ensure_day_section(content, today.as_str());
    proof {
        lemma_date_text_is_plain(today@);
        if !has_day(content@, today@) {
            lemma_created_has_day(content@, today@);
        }
    }
    out
}

/// The sub-section `header` in today's day section: the index of its
/// header line and the index at which its body ends.
pub fn find_section(content: &str, header: &str) -> (span: Option<(usize, usize)>)
    ensures
        exists|today: Seq<char>| #[trigger]
            date_text(today) && span_view(span) == section_span(
                lines_of(content@),
                today,
                header@,
            ),
{
    let today = get_today();
    find_section_on(content, today.as_str(), header)
}

/// The body of the sub-section `header` in today's day section.
pub fn extract_section(content: &str, header: &str) -> (body: Option<String>)
    ensures
        exists|today: Seq<char>| #[trigger]
            date_text(today) && match body {
                Some(b) => extracted(content@, today, header@) == Some(b@),
                None => extracted(content@, today, header@) is None,
            },
{
    let today = get_today();
    extract_section_on(content, today.as_str(), header)
}

/// `content` with the lines of `new_body` as the body of the sub-section
/// `header` in today's day section.
pub fn replace_section(content: &str, header: &str, new_body: &str) -> (out: String)
    ensures
        exists|today: Seq<char>| #[trigger]
            date_text(today) && out@ == replaced(content@, today, header@, new_body@),
{
    let today = get_today();
    replace_section_on(content, today.as_str(), header, new_body)
}

/// `content` with a new sub-section at the end of today's day section.
pub fn insert_section(content: &str, header: &str, body: &str) -> (out: String)
    ensures
        exists|today: Seq<char>| #[trigger]
            date_text(today) && out@ == inserted(content@, today, header@, body@),
{
    let today = get_today();
    insert_section_on(content, today.as_str(), header, body)
}

} // verus!
