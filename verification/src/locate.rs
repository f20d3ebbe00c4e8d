//! Where things are: the day section of a date among the lines of a
//! journal, and a sub-section within it.

use vstd::prelude::*;
use crate::classify::{date_line, starts_section, is_date_chars, starts_section_chars};
use crate::lines::line_views;
use crate::runs::{prefix_run, lemma_prefix_run, lemma_prefix_run_is};

verus! {

/// The predicate "is another line than `x`".
pub open spec fn differs_from(x: Seq<char>) -> spec_fn(Seq<char>) -> bool {
    |l: Seq<char>| l != x
}

/// The predicate "is no date line".
pub open spec fn not_date_line() -> spec_fn(Seq<char>) -> bool {
    |l: Seq<char>| !date_line(l)
}

/// The predicate "does not start a sub-section".
pub open spec fn not_section_start() -> spec_fn(Seq<char>) -> bool {
    |l: Seq<char>| !starts_section(l)
}

/// The index of the first line in `lines[from..to]` that does not satisfy
/// `p`, or `to` if there is none (and where the range is empty or lies
/// outside the lines).
pub open spec fn scan(
    lines: Seq<Seq<char>>,
    from: int,
    to: int,
    p: spec_fn(Seq<char>) -> bool,
) -> int {
    if 0 <= from <= to <= lines.len() {
        from + prefix_run(lines.subrange(from, to), p)
    } else {
        to
    }
}

/// The index of the first line equal to `date`, if there is one: the line
/// at which the day section of `date` starts.
pub open spec fn day_start(lines: Seq<Seq<char>>, date: Seq<char>) -> Option<int> {
    let n = scan(lines, 0, lines.len() as int, differs_from(date));
    if n < lines.len() {
        Some(n)
    } else {
        None
    }
}

/// The index at which the day section that starts at `start` ends: that of
/// the first date line after `start`, or the number of lines.
pub open spec fn day_end(lines: Seq<Seq<char>>, start: int) -> int {
    scan(lines, start + 1, lines.len() as int, not_date_line())
}

/// The sub-section with header `header` in the day section of `date`: the
/// index of the first line equal to `header` after the date line and the
/// line below it, and the index at which its body ends, that of the next
/// line that starts a sub-section or else the end of the day section.
pub open spec fn section_span(lines: Seq<Seq<char>>, date: Seq<char>, header: Seq<char>) -> Option<
    (int, int),
> {
    match day_start(lines, date) {
        None => None,
        Some(start) => {
            let end = day_end(lines, start);
            let at = scan(lines, start + 2, end, differs_from(header));
            if at < end {
                Some((at, scan(lines, at + 1, end, not_section_start())))
            } else {
                None
            }
        },
    }
}

/// An index as a mathematical integer.
pub open spec fn index_view(r: Option<usize>) -> Option<int> {
    match r {
        Some(i) => Some(i as int),
        None => None,
    }
}

/// A pair of indices as mathematical integers.
pub open spec fn span_view(r: Option<(usize, usize)>) -> Option<(int, int)> {
    match r {
        Some((a, b)) => Some((a as int, b as int)),
        None => None,
    }
}

/// A scan stays within its range, passes only lines that satisfy the
/// predicate, and stops at one that does not.
pub proof fn lemma_scan(lines: Seq<Seq<char>>, from: int, to: int, p: spec_fn(Seq<char>) -> bool)
    requires
        0 <= from <= to <= lines.len(),
    ensures
        from <= scan(lines, from, to, p) <= to,
        forall|j: int| from <= j < scan(lines, from, to, p) ==> p(#[trigger] lines[j]),
        scan(lines, from, to, p) < to ==> !p(lines[scan(lines, from, to, p)]),
{
    let part = lines.subrange(from, to);
    lemma_prefix_run(part, p);
    assert forall|j: int| from <= j < scan(lines, from, to, p) implies p(#[trigger] lines[j]) by {
        assert(lines[j] == part[j - from]);
    }
    if scan(lines, from, to, p) < to {
        assert(lines[scan(lines, from, to, p)] == part[prefix_run(part, p)]);
    }
}

/// A scan stops at `n` if the lines before `n` satisfy the predicate and
/// the line at `n`, if `n` is in the range, does not.
pub proof fn lemma_scan_is(
    lines: Seq<Seq<char>>,
    from: int,
    to: int,
    p: spec_fn(Seq<char>) -> bool,
    n: int,
)
    requires
        0 <= from <= n <= to <= lines.len(),
        forall|j: int| from <= j < n ==> p(#[trigger] lines[j]),
        n < to ==> !p(lines[n]),
    ensures
        scan(lines, from, to, p) == n,
{
    let part = lines.subrange(from, to);
    assert forall|j: int| 0 <= j < n - from implies p(#[trigger] part[j]) by {
        assert(part[j] == lines[j + from]);
    }
    if n < to {
        assert(part[n - from] == lines[n]);
    }
    lemma_prefix_run_is(part, p, n - from);
}

/// The day section of a date starts at the first line that is the date.
pub proof fn lemma_day_start(lines: Seq<Seq<char>>, date: Seq<char>)
    ensures
        match day_start(lines, date) {
            Some(start) => {
                &&& 0 <= start < lines.len()
                &&& lines[start] == date
                &&& forall|j: int| 0 <= j < start ==> lines[j] != date
            },
            None => forall|j: int| 0 <= j < lines.len() ==> lines[j] != date,
        },
{
    lemma_scan(lines, 0, lines.len() as int, differs_from(date));
    let n = scan(lines, 0, lines.len() as int, differs_from(date));
    assert forall|j: int| 0 <= j < n implies lines[j] != date by {
        assert(differs_from(date)(lines[j]));
    }
}

/// A day section ends at the first date line after its start, and at the
/// end of the journal where there is none.
pub proof fn lemma_day_end(lines: Seq<Seq<char>>, start: int)
    requires
        0 <= start < lines.len(),
    ensures
        start < day_end(lines, start) <= lines.len(),
        forall|j: int| start < j < day_end(lines, start) ==> !date_line(lines[j]),
        day_end(lines, start) < lines.len() ==> date_line(lines[day_end(lines, start)]),
{
    lemma_scan(lines, start + 1, lines.len() as int, not_date_line());
    let end = day_end(lines, start);
    assert forall|j: int| start < j < end implies !date_line(lines[j]) by {
        assert(not_date_line()(lines[j]));
    }
}

/// A sub-section lies within its day section, below the date line and
/// the line under it. Its header line is the first in that range that
/// equals the header; its body holds no line that starts a sub-section,
/// and ends at such a line or at the end of the day section.
pub proof fn lemma_section_span(lines: Seq<Seq<char>>, date: Seq<char>, header: Seq<char>)
    requires
        day_start(lines, date) is Some,
    ensures
        ({
            let start = day_start(lines, date)->0;
            let end = day_end(lines, start);
            match section_span(lines, date, header) {
                Some((at, stop)) => {
                    &&& start + 2 <= at < stop <= end <= lines.len()
                    &&& lines[at] == header
                    &&& forall|j: int| start + 2 <= j < at ==> lines[j] != header
                    &&& forall|j: int| at < j < stop ==> !starts_section(lines[j])
                    &&& stop < end ==> starts_section(lines[stop])
                },
                None => forall|j: int| start + 2 <= j < end ==> lines[j] != header,
            }
        }),
{
    lemma_day_start(lines, date);
    let start = day_start(lines, date)->0;
    lemma_day_end(lines, start);
    let end = day_end(lines, start);
    if start + 2 <= end {
        lemma_scan(lines, start + 2, end, differs_from(header));
        let at = scan(lines, start + 2, end, differs_from(header));
        assert forall|j: int| start + 2 <= j < at implies lines[j] != header by {
            assert(differs_from(header)(lines[j]));
        }
        if at < end {
            lemma_scan(lines, at + 1, end, not_section_start());
            let stop = scan(lines, at + 1, end, not_section_start());
            assert forall|j: int| at < j < stop implies !starts_section(lines[j]) by {
                assert(not_section_start()(lines[j]));
            }
        }
    }
}

/// Whether two lines hold the same characters.
pub fn same_line(a: &Vec<char>, b: &Vec<char>) -> (same: bool)
    ensures
        same == (a@ == b@),
{
    if a.len() != b.len() {
        return false;
    }
    let mut i: usize = 0;
    while i < a.len()
        invariant
            i <= a.len(),
            a.len() == b.len(),
            forall|j: int| 0 <= j < i ==> a@[j] == b@[j],
        decreases a.len() - i,
    {
        if a[i] != b[i] {
            return false;
        }
        i += 1;
    }
    assert(a@ =~= b@);
    true
}

/// The first index in `from..to` at which `lines` holds `line`, or `to`.
pub fn find_line(lines: &Vec<Vec<char>>, from: usize, to: usize, line: &Vec<char>) -> (at: usize)
    requires
        to <= lines.len(),
    ensures
        at == scan(line_views(lines@), from as int, to as int, differs_from(line@)),
{
    if from > to {
        return to;
    }
    let ghost all = line_views(lines@);
    let mut i: usize = from;
    while i < to
        invariant
            from <= i <= to <= lines.len(),
            all == line_views(lines@),
            forall|j: int| from <= j < i ==> differs_from(line@)(#[trigger] all[j]),
        decreases to - i,
    {
        if same_line(&lines[i], line) {
            proof {
                lemma_scan_is(all, from as int, to as int, differs_from(line@), i as int);
            }
            return i;
        }
        i += 1;
    }
    proof {
        lemma_scan_is(all, from as int, to as int, differs_from(line@), to as int);
    }
    to
}

/// The line at which the day section of `date` starts, if there is one.
pub fn day_start_in(lines: &Vec<Vec<char>>, date: &Vec<char>) -> (start: Option<usize>)
    ensures
        index_view(start) == day_start(line_views(lines@), date@),
{
    let at = find_line(lines, 0, lines.len(), date);
    if at < lines.len() {
        Some(at)
    } else {
        None
    }
}

/// The index at which the day section that starts at `start` ends.
pub fn day_end_in(lines: &Vec<Vec<char>>, start: usize) -> (end: usize)
    ensures
        end == day_end(line_views(lines@), start as int),
        end <= lines.len(),
{
    if start >= lines.len() {
        return lines.len();
    }
    let ghost all = line_views(lines@);
    let mut i: usize = start + 1;
    while i < lines.len()
        invariant
            start < i <= lines.len(),
            all == line_views(lines@),
            forall|j: int| start < j < i ==> not_date_line()(#[trigger] all[j]),
        decreases lines.len() - i,
    {
        if is_date_chars(&lines[i]) {
            proof {
                lemma_scan_is(all, start + 1, all.len() as int, not_date_line(), i as int);
            }
            return i;
        }
        i += 1;
    }
    proof {
        lemma_scan_is(all, start + 1, all.len() as int, not_date_line(), all.len() as int);
    }
    lines.len()
}

/// The index of the first line in `start..end` that starts a sub-section,
/// or `end`.
pub fn find_next_section_header(lines: &Vec<Vec<char>>, start: usize, end: usize) -> (at: usize)
    requires
        end <= lines.len(),
    ensures
        at == scan(line_views(lines@), start as int, end as int, not_section_start()),
{
    if start > end {
        return end;
    }
    let ghost all = line_views(lines@);
    let mut i: usize = start;
    while i < end
        invariant
            start <= i <= end <= lines.len(),
            all == line_views(lines@),
            forall|j: int| start <= j < i ==> not_section_start()(#[trigger] all[j]),
        decreases end - i,
    {
        if starts_section_chars(&lines[i]) {
            proof {
                lemma_scan_is(all, start as int, end as int, not_section_start(), i as int);
            }
            return i;
        }
        i += 1;
    }
    proof {
        lemma_scan_is(all, start as int, end as int, not_section_start(), end as int);
    }
    end
}

/// The sub-section with header `header` in the day section of `date`.
pub fn section_in(lines: &Vec<Vec<char>>, date: &Vec<char>, header: &Vec<char>) -> (span: Option<
    (usize, usize),
>)
    ensures
        span_view(span) == section_span(line_views(lines@), date@, header@),
        span matches Some((at, end)) ==> at < end <= lines.len(),
{
    match day_start_in(lines, date) {
        None => None,
        Some(start) => {
            let end = day_end_in(lines, start);
            let ghost all = line_views(lines@);
            proof {
                lemma_scan(all, 0, all.len() as int, differs_from(date@));
                lemma_scan(all, start + 1, all.len() as int, not_date_line());
            }
            if end - start < 2 {
                return None;
            }
            let at = find_line(lines, start + 2, end, header);
            proof {
                lemma_scan(all, start + 2, end as int, differs_from(header@));
            }
            if at < end {
                let stop = find_next_section_header(lines, at + 1, end);
                proof {
                    lemma_scan(all, at + 1, end as int, not_section_start());
                }
                Some((at, stop))
            } else {
                None
            }
        },
    }
}

} // verus!
