//! Line classes: which lines start a day section, and which start a
//! sub-section.

use vstd::prelude::*;
use crate::chars::{chars_of, is_digit, is_digit_char, is_space, is_space_char, space};
use crate::runs::{prefix_run, suffix_run, lemma_prefix_run_is, lemma_suffix_run_is};

verus! {

/// A date line has exactly ten characters: four ASCII digits, a dash, two
/// characters, a dash, two characters. Month and day are not looked at.
pub open spec fn date_line(l: Seq<char>) -> bool {
    &&& l.len() == 10
    &&& l[4] == '-'
    &&& l[7] == '-'
    &&& is_digit(l[0])
    &&& is_digit(l[1])
    &&& is_digit(l[2])
    &&& is_digit(l[3])
}

/// The header of the list of things to do.
pub open spec fn todo_header() -> Seq<char> {
    seq!['T', 'O', 'D', 'O']
}

/// The header of a note that carries no tag.
pub open spec fn note_header() -> Seq<char> {
    seq!['\u{3bb}', '\u{2026}', '\u{388}', '\u{3bd}', '\u{388}', ':']
}

/// A header line, given without the white space around it: the to-do
/// header, or a line that starts with `[` (a time stamp), with `#` (a tag)
/// or with the note header.
pub open spec fn header_line(l: Seq<char>) -> bool {
    ||| l == todo_header()
    ||| (l.len() > 0 && (l[0] == '[' || l[0] == '#'))
    ||| note_header().is_prefix_of(l)
}

/// `l` without the white space at its start and at its end.
pub open spec fn trim(l: Seq<char>) -> Seq<char> {
    let t = l.skip(prefix_run(l, space()));
    t.take(t.len() - suffix_run(t, space()))
}

/// The line `l` of a journal starts a sub-section: it is a header line
/// once the white space around it is removed.
pub open spec fn starts_section(l: Seq<char>) -> bool {
    header_line(trim(l))
}

/// `l` is empty or holds white space only.
pub open spec fn blank(l: Seq<char>) -> bool {
    forall|j: int| 0 <= j < l.len() ==> is_space(l[j])
}

/// Decides `date_line` on the characters of a line.
pub fn is_date_chars(l: &Vec<char>) -> (yes: bool)
    ensures
        yes == date_line(l@),
{
    l.len() == 10 && l[4] == '-' && l[7] == '-' && is_digit_char(l[0]) && is_digit_char(l[1])
        && is_digit_char(l[2]) && is_digit_char(l[3])
}

/// Whether `line` is a date line.
pub fn is_date_line(line: &str) -> (yes: bool)
    ensures
        yes == date_line(line@),
        line@.len() != 10 ==> !yes,
        line@.len() == 10 && line@[4] == '-' && line@[7] == '-' && (forall|i: int|
            0 <= i < 4 ==> is_digit(line@[i])) ==> yes,
{
    let l = chars_of(line);
    is_date_chars(&l)
}

/// Decides `header_line` on the characters `l[from..to]`.
pub fn is_header_chars(l: &Vec<char>, from: usize, to: usize) -> (yes: bool)
    requires
        from <= to <= l.len(),
    ensures
        yes == header_line(l@.subrange(from as int, to as int)),
{
    let ghost t = l@.subrange(from as int, to as int);
    let n: usize = to - from;
    let todo = n == 4 && l[from] == 'T' && l[from + 1] == 'O' && l[from + 2] == 'D' && l[from + 3]
        == 'O';
    let mark = n > 0 && (l[from] == '[' || l[from] == '#');
    let note = n >= 6 && l[from] == '\u{3bb}' && l[from + 1] == '\u{2026}' && l[from + 2]
        == '\u{388}' && l[from + 3] == '\u{3bd}' && l[from + 4] == '\u{388}' && l[from + 5] == ':';
    proof {
        if todo {
            assert(t =~= todo_header());
        }
        if t == todo_header() {
            assert(t.len() == 4 && t[0] == 'T' && t[1] == 'O' && t[2] == 'D' && t[3] == 'O');
        }
        if note {
            assert(t.subrange(0, 6) =~= note_header());
        }
        if note_header().is_prefix_of(t) {
            let head = t.subrange(0, 6);
            assert(head == note_header());
            assert(head[0] == '\u{3bb}' && head[1] == '\u{2026}' && head[2] == '\u{388}');
            assert(head[3] == '\u{3bd}' && head[4] == '\u{388}' && head[5] == ':');
        }
    }
    todo || mark || note
}

/// Whether `line`, taken as it stands, is a header line. The journal trims
/// a line before it asks.
pub fn is_header_line(line: &str) -> (yes: bool)
    ensures
        yes == header_line(line@),
{
    let l = chars_of(line);
    assert(l@.subrange(0, l@.len() as int) =~= l@);
    is_header_chars(&l, 0, l.len())
}

/// The bounds of `l` without the white space around it.
pub fn trim_bounds(l: &Vec<char>) -> (b: (usize, usize))
    ensures
        b.0 <= b.1 <= l.len(),
        trim(l@) == l@.subrange(b.0 as int, b.1 as int),
        b.0 == b.1 <==> blank(l@),
{
    let mut from: usize = 0;
    while from < l.len() && is_space_char(l[from])
        invariant
            from <= l.len(),
            forall|j: int| 0 <= j < from ==> space()(#[trigger] l@[j]),
        decreases l.len() - from,
    {
        from += 1;
    }
    let mut to: usize = l.len();
    while to > from && is_space_char(l[to - 1])
        invariant
            from <= to <= l.len(),
            forall|j: int| to <= j < l.len() ==> space()(#[trigger] l@[j]),
        decreases to,
    {
        to -= 1;
    }
    proof {
        lemma_prefix_run_is(l@, space(), from as int);
        let t = l@.skip(from as int);
        assert forall|j: int| t.len() - (l.len() - to) <= j < t.len() implies space()(
            #[trigger] t[j],
        ) by {
            assert(t[j] == l@[j + from]);
        }
        if to > from {
            assert(t[to - from - 1] == l@[to - 1]);
        }
        lemma_suffix_run_is(t, space(), l.len() - to);
        assert(t.take(t.len() - (l.len() - to)) =~= l@.subrange(from as int, to as int));
        if from == to {
            assert forall|j: int| 0 <= j < l@.len() implies is_space(l@[j]) by {
                if j < from {
                    assert(space()(l@[j]));
                } else {
                    assert(space()(l@[j]));
                }
            }
        } else {
            assert(!is_space(l@[from as int]));
        }
    }
    (from, to)
}

/// Decides `starts_section` on the characters of a line.
pub fn starts_section_chars(l: &Vec<char>) -> (yes: bool)
    ensures
        yes == starts_section(l@),
{
    let (from, to) = trim_bounds(l);
    is_header_chars(l, from, to)
}

/// Whether `text` is empty or holds white space only.
pub fn is_blank(text: &str) -> (yes: bool)
    ensures
        yes == blank(text@),
{
    let l = chars_of(text);
    let (from, to) = trim_bounds(&l);
    from == to
}

} // verus!
