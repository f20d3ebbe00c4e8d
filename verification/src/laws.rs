//! Laws of the journal: what holds across its functions.

use vstd::prelude::*;
use crate::chars::{is_digit, is_space, newline, space};
use crate::classify::{date_line, starts_section};
use crate::editor::{
    created, day_heading, ensured, extracted, has_day, inserted, lemma_created_has_day,
    lemma_created_lines, replaced, underline, with_section, without_leading_newlines,
};
use crate::lines::{
    ends_with_cr, join_lines, lemma_join_is_injective, lemma_lines_cons,
    lemma_lines_have_no_newline, lemma_lines_of_join, lemma_splits_back, lines_of, no_newline,
    plain_line, resplit, splits_back, strip_cr,
};
use crate::locate::{
    day_end, day_start, differs_from, lemma_scan, lemma_scan_is, lemma_section_span,
    not_date_line, not_section_start, section_span,
};
use crate::md::{bullet_mark, depth_of, formatted, formatted_line, formatted_lines, is_item};
use crate::runs::{prefix_run, lemma_prefix_run, lemma_prefix_run_is};

verus! {

/// A line that has not exactly ten characters is no date line.
pub proof fn date_line_has_ten_characters(line: Seq<char>)
    requires
        line.len() != 10,
    ensures
        !date_line(line),
{
}

/// A line of ten characters with four ASCII digits first and dashes at
/// the places 4 and 7 is a date line, whatever stands where month and day
/// do: `2025-99-99` is one.
pub proof fn date_line_ignores_month_and_day(line: Seq<char>)
    requires
        line.len() == 10,
        line[4] == '-',
        line[7] == '-',
        forall|i: int| 0 <= i < 4 ==> is_digit(line[i]),
    ensures
        date_line(line),
{
}

/// Once a day section is made sure of, the journal has it, where it had
/// it before or the date is a plain line (no line feed in it, no carriage
/// return at its end).
pub proof fn ensured_journal_has_the_day(text: Seq<char>, date: Seq<char>)
    requires
        has_day(text, date) || plain_line(date),
    ensures
        has_day(ensured(text, date), date),
{
    if !has_day(text, date) {
        lemma_created_has_day(text, date);
    }
}

/// Making sure of a day section twice gives what doing so once gives,
/// where the journal has the section already or the date is a plain line.
pub proof fn ensure_is_idempotent(text: Seq<char>, date: Seq<char>)
    requires
        has_day(text, date) || plain_line(date),
    ensures
        ensured(ensured(text, date), date) == ensured(text, date),
{
    ensured_journal_has_the_day(text, date);
}

/// The lines of a text that starts with line feeds: an empty line for
/// each of them, then the lines of the rest.
pub proof fn leading_newlines_are_empty_lines(text: Seq<char>)
    ensures
        lines_of(text) == Seq::new(
            prefix_run(text, newline()) as nat,
            |i: int| Seq::<char>::empty(),
        ) + lines_of(without_leading_newlines(text)),
    decreases text.len(),
{
    lemma_prefix_run(text, newline());
    let k = prefix_run(text, newline());
    let blanks = Seq::new(k as nat, |i: int| Seq::<char>::empty());
    if text.len() == 0 || !newline()(text[0]) {
        assert(text.skip(0) =~= text);
        assert(blanks + lines_of(text) =~= lines_of(text));
    } else {
        let rest = text.skip(1);
        leading_newlines_are_empty_lines(rest);
        assert(text =~= Seq::<char>::empty() + seq!['\n'] + rest);
        lemma_lines_cons(Seq::<char>::empty(), rest);
        assert(rest.skip(k - 1) =~= text.skip(k));
        let fewer = Seq::new((k - 1) as nat, |i: int| Seq::<char>::empty());
        assert(seq![Seq::<char>::empty()] + (fewer + lines_of(text.skip(k))) =~= blanks + lines_of(
            text.skip(k),
        ));
    }
}

/// The condition of `ensure_is_idempotent` is needed: where the journal
/// has no day section for the date and the date is no plain line, making
/// sure a second time adds a second section.
pub proof fn ensure_is_idempotent_only_then(text: Seq<char>, date: Seq<char>)
    requires
        !has_day(text, date),
        !plain_line(date),
    ensures
        ensured(ensured(text, date), date) != ensured(text, date),
{
    let c = created(text, date);
    assert(!has_day(c, date)) by {
        if has_day(c, date) {
            let i = choose|i: int| 0 <= i < lines_of(c).len() && lines_of(c)[i] == date;
            lemma_lines_have_no_newline(c);
            assert(no_newline(lines_of(c)[i]));
            lemma_created_lines(text, date);
            leading_newlines_are_empty_lines(text);
            let k = prefix_run(text, newline());
            let rest_lines = lines_of(without_leading_newlines(text));
            lemma_prefix_run(text, newline());
            let blanks = Seq::new(k as nat, |i: int| Seq::<char>::empty());
            assert(lines_of(text) == blanks + rest_lines);
            assert(lines_of(c).len() == 6 + rest_lines.len());
            if i >= 6 {
                assert(lines_of(c)[i] == rest_lines[i - 6]);
                assert((blanks + rest_lines)[k + i - 6] == rest_lines[i - 6]);
                assert(lines_of(text).contains(date));
            } else {
                assert(underline().last() == '=');
            }
            assert(false);
        }
    }
    lemma_prefix_run(c, newline());
    let run = prefix_run(c, newline());
    assert(c[date.len() as int + 4] == '=');
    if run > date.len() + 4 {
        assert(newline()(c[date.len() as int + 4]));
    }
    assert(created(c, date).len() == day_heading(date).len() + c.len() - run);
}

/// Putting the body of a sub-section back in its place changes nothing,
/// where the journal is the join of its own lines and the lines of the
/// body survive joining and splitting.
pub proof fn replace_with_extracted_is_identity(text: Seq<char>, date: Seq<char>, header: Seq<char>)
    requires
        section_span(lines_of(text), date, header) is Some,
        join_lines(lines_of(text)) == text,
        ({
            let span = section_span(lines_of(text), date, header)->0;
            splits_back(lines_of(text).subrange(span.0 + 1, span.1))
        }),
    ensures
        replaced(text, date, header, extracted(text, date, header)->0) == text,
{
    let lines = lines_of(text);
    let start = day_start(lines, date)->0;
    let end = day_end(lines, start);
    lemma_scan(lines, 0, lines.len() as int, differs_from(date));
    lemma_scan(lines, start + 1, lines.len() as int, not_date_line());
    lemma_scan(lines, start + 2, end, differs_from(header));
    let span = section_span(lines, date, header)->0;
    lemma_scan(lines, span.0 + 1, end, not_section_start());
    let body = lines.subrange(span.0 + 1, span.1);
    assert(lines.subrange(0, span.0 + 1) + body + lines.subrange(span.1, lines.len() as int)
        =~= lines);
}

/// The condition of `replace_with_extracted_is_identity` is needed: where
/// putting the body back changes nothing, the journal is the join of its
/// own lines and the lines of the body survive joining and splitting.
pub proof fn replace_with_extracted_is_identity_only_then(
    text: Seq<char>,
    date: Seq<char>,
    header: Seq<char>,
)
    requires
        section_span(lines_of(text), date, header) is Some,
        replaced(text, date, header, extracted(text, date, header)->0) == text,
    ensures
        join_lines(lines_of(text)) == text,
        ({
            let span = section_span(lines_of(text), date, header)->0;
            splits_back(lines_of(text).subrange(span.0 + 1, span.1))
        }),
{
    let lines = lines_of(text);
    lemma_section_span(lines, date, header);
    let span = section_span(lines, date, header)->0;
    let at = span.0;
    let stop = span.1;
    let body = lines.subrange(at + 1, stop);
    lemma_lines_have_no_newline(text);
    assert forall|i: int| 0 <= i < body.len() implies no_newline(#[trigger] body[i]) by {
        assert(body[i] == lines[at + 1 + i]);
    }
    lemma_lines_of_join(body);
    let back = lines_of(join_lines(body));
    lemma_lines_have_no_newline(join_lines(body));
    let all = lines.subrange(0, at + 1) + back + lines.subrange(stop, lines.len() as int);
    assert(join_lines(all) == text);
    assert forall|i: int| 0 <= i < all.len() implies no_newline(#[trigger] all[i]) by {
        if i <= at {
            assert(all[i] == lines[i]);
        } else if i < at + 1 + back.len() {
            assert(all[i] == back[i - at - 1]);
        } else {
            assert(all[i] == lines[i - at - 1 - back.len() + stop]);
        }
    }
    lemma_lines_of_join(all);
    assert(lines == resplit(all));
    assert(back.len() == body.len());
    assert forall|k: int| 0 <= k < body.len() implies back[k] == body[k] by {
        let i = at + 1 + k;
        assert(all[i] == back[k]);
        assert(lines[i] == resplit(all)[i]);
        assert(body[k] == lines[i]);
        assert(back[k] == resplit(body)[k]);
    }
    assert(back =~= body);
    assert(all =~= lines);
}

/// A sub-section that was just inserted is the one that a search for its
/// header finds, and its body is the inserted body, line for line. This
/// holds where the day had no sub-section with that header before; the
/// header is a plain line, not empty and no date line; no line of the body
/// is a date line, starts a sub-section or ends in a carriage return; no
/// line of the journal up to the end of the day section ends in a carriage
/// return; and a body that comes to stand at the end of the journal does
/// not end in an empty line.
pub proof fn inserted_section_is_found(
    text: Seq<char>,
    date: Seq<char>,
    header: Seq<char>,
    body: Seq<char>,
)
    requires
        day_start(lines_of(text), date) is Some,
        section_span(lines_of(text), date, header) is None,
        header.len() > 0,
        plain_line(header),
        !date_line(header),
        forall|i: int|
            0 <= i < lines_of(body).len() ==> {
                &&& !date_line(#[trigger] lines_of(body)[i])
                &&& !starts_section(lines_of(body)[i])
                &&& !ends_with_cr(lines_of(body)[i])
            },
        ({
            let lines = lines_of(text);
            let end = day_end(lines, day_start(lines, date)->0);
            &&& forall|j: int|
                0 <= j <= end && j < lines.len() ==> !ends_with_cr(#[trigger] lines[j])
            &&& end == lines.len() && lines_of(body).len() > 0 ==> lines_of(body).last().len() > 0
        }),
    ensures
        ({
            let lines = lines_of(text);
            let end = day_end(lines, day_start(lines, date)->0);
            let after = inserted(text, date, header, body);
            let stop = end + 2 + lines_of(body).len();
            &&& section_span(lines_of(after), date, header) == Some((end + 1, stop))
            &&& lines_of(after).subrange(end + 2, stop) == lines_of(body)
            &&& extracted(after, date, header) == Some(join_lines(lines_of(body)))
        }),
{
    let lines = lines_of(text);
    let start = day_start(lines, date)->0;
    let end = day_end(lines, start);
    let new_lines = lines_of(body);
    let n = new_lines.len() as int;
    let stop = end + 2 + n;
    let joined = with_section(lines, end, header, new_lines);
    let after = lines_of(join_lines(joined));
    lemma_lines_have_no_newline(text);
    lemma_lines_have_no_newline(body);
    lemma_scan(lines, 0, lines.len() as int, differs_from(date));
    lemma_scan(lines, start + 1, lines.len() as int, not_date_line());
    assert(joined.len() == lines.len() + 2 + n);
    assert forall|i: int| 0 <= i < joined.len() implies no_newline(#[trigger] joined[i]) by {
        if i < end {
            assert(joined[i] == lines[i]);
        } else if i < end + 2 {
        } else if i < stop {
            assert(joined[i] == new_lines[i - end - 2]);
        } else {
            assert(joined[i] == lines[i - 2 - n]);
        }
    }
    lemma_lines_of_join(joined);
    assert(after == resplit(joined));
    assert(after.len() >= stop) by {
        if end < lines.len() {
            assert(joined[stop] == lines[end]);
            assert(date_line(lines[end])) by {
                assert(!not_date_line()(lines[end]));
            }
        } else if n > 0 {
            assert(joined.last() == new_lines.last());
        } else {
            assert(joined.last() == header);
        }
    }
    assert forall|j: int| 0 <= j < end implies #[trigger] after[j] == lines[j] by {
        assert(joined[j] == lines[j]);
    }
    assert(after[end] == Seq::<char>::empty()) by {
        assert(joined[end] == Seq::<char>::empty());
    }
    assert(after[end + 1] == header) by {
        assert(joined[end + 1] == header);
    }
    assert forall|i: int| 0 <= i < n implies #[trigger] after[end + 2 + i] == new_lines[i] by {
        assert(joined[end + 2 + i] == new_lines[i]);
    }
    if end < lines.len() {
        assert(after.len() > stop && after[stop] == lines[end]) by {
            assert(joined[stop] == lines[end]);
            assert(!not_date_line()(lines[end]));
        }
    }
    // the day section starts where it did
    assert forall|j: int| 0 <= j < start implies differs_from(date)(#[trigger] after[j]) by {
        assert(differs_from(date)(lines[j]));
    }
    lemma_scan_is(after, 0, after.len() as int, differs_from(date), start);
    // and ends after the new sub-section
    assert forall|j: int| start + 1 <= j < stop implies not_date_line()(#[trigger] after[j]) by {
        if j < end {
            assert(not_date_line()(lines[j]));
        } else if j < end + 2 {
        } else {
            assert(after[end + 2 + (j - end - 2)] == new_lines[j - end - 2]);
        }
    }
    if stop < after.len() {
        assert(!not_date_line()(after[stop])) by {
            assert(!not_date_line()(lines[end]));
        }
    }
    lemma_scan_is(after, start + 1, after.len() as int, not_date_line(), stop);
    // the header is first met in the new sub-section
    assert forall|j: int| start + 2 <= j < end + 1 implies differs_from(header)(
        #[trigger] after[j],
    ) by {
        if j < end {
            lemma_scan(lines, start + 2, end, differs_from(header));
            assert(differs_from(header)(lines[j]));
        }
    }
    lemma_scan_is(after, start + 2, stop, differs_from(header), end + 1);
    // and the body runs to the end of the day section
    assert forall|j: int| end + 2 <= j < stop implies not_section_start()(#[trigger] after[j]) by {
        assert(after[end + 2 + (j - end - 2)] == new_lines[j - end - 2]);
    }
    lemma_scan_is(after, end + 2, stop, not_section_start(), stop);
    assert(after.subrange(end + 2, stop) =~= new_lines);
}

/// A formatted line stays as it is when formatted again.
pub proof fn format_line_is_idempotent(line: Seq<char>)
    ensures
        formatted_line(formatted_line(line)) == formatted_line(line),
{
    if is_item(line) {
        let d = depth_of(line);
        let once = formatted_line(line);
        lemma_prefix_run(line, space());
        assert forall|j: int| 0 <= j < d implies space()(#[trigger] once[j]) by {
            assert(space()(line[j]));
        }
        assert(!is_space(bullet_mark(d)));
        lemma_prefix_run_is(once, space(), d);
        assert(once.update(d, bullet_mark(d)) =~= once);
    }
}

/// A formatted line is as long as the line and ends as it does.
pub proof fn format_line_keeps_the_end(line: Seq<char>)
    ensures
        formatted_line(line).len() == line.len(),
        no_newline(line) ==> no_newline(formatted_line(line)),
        ends_with_cr(formatted_line(line)) <==> ends_with_cr(line),
{
    lemma_prefix_run(line, space());
}

/// Formatting a formatted text changes nothing, where the lines of the
/// text survive joining and splitting, or the text is one empty line.
pub proof fn format_is_idempotent(text: Seq<char>)
    requires
        splits_back(lines_of(text)) || lines_of(text) == seq![Seq::<char>::empty()],
    ensures
        formatted(formatted(text)) == formatted(text),
{
    let lines = lines_of(text);
    let once = formatted_lines(lines);
    if !splits_back(lines) {
        assert(once =~= seq![Seq::<char>::empty()]);
        assert(join_lines(once) =~= Seq::<char>::empty());
        assert(lines_of(join_lines(once)) =~= Seq::<Seq<char>>::empty());
        assert(formatted_lines(lines_of(join_lines(once))) =~= Seq::<Seq<char>>::empty());
        return ;
    }
    lemma_splits_back(lines);
    assert forall|i: int| 0 <= i < once.len() implies no_newline(#[trigger] once[i]) by {
        assert(no_newline(lines[i]));
        lemma_prefix_run(lines[i], space());
    }
    assert forall|i: int| 0 <= i < once.len() - 1 implies !ends_with_cr(#[trigger] once[i]) by {
        assert(!ends_with_cr(lines[i]));
        lemma_prefix_run(lines[i], space());
    }
    lemma_splits_back(once);
    assert(lines_of(join_lines(once)) == once);
    assert forall|i: int| 0 <= i < once.len() implies formatted_line(once[i]) == once[i] by {
        format_line_is_idempotent(lines[i]);
    }
    assert(formatted_lines(once) =~= once);
}

/// The condition of `format_is_idempotent` is needed: where formatting a
/// second time changes nothing, the lines of the text survive joining and
/// splitting, or the text is one empty line.
pub proof fn format_is_idempotent_only_then(text: Seq<char>)
    requires
        formatted(formatted(text)) == formatted(text),
    ensures
        splits_back(lines_of(text)) || lines_of(text) == seq![Seq::<char>::empty()],
{
    let lines = lines_of(text);
    let once = formatted_lines(lines);
    lemma_lines_have_no_newline(text);
    assert forall|i: int| 0 <= i < once.len() implies no_newline(#[trigger] once[i]) by {
        format_line_keeps_the_end(lines[i]);
    }
    lemma_lines_of_join(once);
    let again = lines_of(join_lines(once));
    let twice = formatted_lines(again);
    lemma_lines_have_no_newline(join_lines(once));
    assert forall|i: int| 0 <= i < twice.len() implies no_newline(#[trigger] twice[i]) by {
        format_line_keeps_the_end(again[i]);
    }
    lemma_join_is_injective(twice, once);
    if twice == once {
        assert(again.len() == once.len());
        assert forall|i: int| 0 <= i < lines.len() - 1 implies !ends_with_cr(
            #[trigger] lines[i],
        ) by {
            format_line_keeps_the_end(lines[i]);
            format_line_keeps_the_end(again[i]);
            assert(again[i] == strip_cr(once[i]));
            assert(twice[i] == once[i]);
        }
        if lines.len() > 0 {
            format_line_keeps_the_end(lines.last());
            assert(once.last().len() == lines.last().len());
        }
        lemma_splits_back(lines);
    } else {
        assert(twice.len() == again.len() && again.len() <= once.len());
        format_line_keeps_the_end(lines[0]);
        assert(lines =~= seq![Seq::<char>::empty()]);
    }
}

} // verus!
