//! Bullets: the marks of list items, set by how deep an item is indented.

use vstd::prelude::*;
use crate::chars::{is_space_char, space};
use crate::lines::{emit_line, join_lines, line_views, lines_of, lines_of_str};
use crate::runs::{prefix_run, lemma_prefix_run_is};

verus! {

/// The mark of an item at depth `depth`: a dash at even depth, a dot at
/// odd depth.
pub open spec fn bullet_mark(depth: int) -> char {
    if depth % 2 == 0 {
        '-'
    } else {
        '.'
    }
}

/// The depth of a line: the number of white-space characters it starts
/// with.
pub open spec fn depth_of(line: Seq<char>) -> int {
    prefix_run(line, space())
}

/// The line is a list item: after its indentation stand `-`, `.` or `*`
/// and a space.
pub open spec fn is_item(line: Seq<char>) -> bool {
    let d = depth_of(line);
    &&& 0 <= d
    &&& d + 1 < line.len()
    &&& (line[d] == '-' || line[d] == '.' || line[d] == '*')
    &&& line[d + 1] == ' '
}

/// A line with its mark set by its depth, where it is a list item; any
/// other line as it is. Indentation and text stay.
pub open spec fn formatted_line(line: Seq<char>) -> Seq<char> {
    if is_item(line) {
        line.update(depth_of(line), bullet_mark(depth_of(line)))
    } else {
        line
    }
}

/// Each of `lines`, formatted.
pub open spec fn formatted_lines(lines: Seq<Seq<char>>) -> Seq<Seq<char>> {
    Seq::new(lines.len(), |i: int| formatted_line(lines[i]))
}

/// A text with each of its lines formatted.
pub open spec fn formatted(text: Seq<char>) -> Seq<char> {
    join_lines(formatted_lines(lines_of(text)))
}

/// The mark of a list item at depth `depth`, as a character.
pub fn bullet_for(depth: usize) -> (mark: char)
    ensures
        mark == bullet_mark(depth as int),
{
    if depth % 2 == 0 {
        '-'
    } else {
        '.'
    }
}

/// The mark of a list item at depth `depth`.
pub fn get_bullet(depth: usize) -> (bullet: String)
    ensures
        bullet@ == seq![bullet_mark(depth as int)],
{
    let mut out = String::new();
    out.push(bullet_for(depth));
    assert(out@ =~= seq![bullet_mark(depth as int)]);
    out
}

/// A line with its mark set by its depth, where it is a list item.
pub fn format_line(line: &Vec<char>) -> (out: Vec<char>)
    ensures
        out@ == formatted_line(line@),
{
    let mut depth: usize = 0;
    while depth < line.len() && is_space_char(line[depth])
        invariant
            depth <= line.len(),
            forall|j: int| 0 <= j < depth ==> space()(#[trigger] line@[j]),
        decreases line.len() - depth,
    {
        depth += 1;
    }
    proof {
        lemma_prefix_run_is(line@, space(), depth as int);
    }
    let item = line.len() - depth > 1 && (line[depth] == '-' || line[depth] == '.' || line[depth]
        == '*') && line[depth + 1] == ' ';
    let mark = bullet_for(depth);
    let mut out: Vec<char> = Vec::new();
    let mut i: usize = 0;
    while i < line.len()
        invariant
            i <= line.len(),
            out.len() == i,
            forall|j: int|
                0 <= j < i ==> out@[j] == if item && j == depth {
                    mark
                } else {
                    line@[j]
                },
        decreases line.len() - i,
    {
        if item && i == depth {
            out.push(mark);
        } else {
            out.push(line[i]);
        }
        i += 1;
    }
    assert(out@ =~= formatted_line(line@));
    out
}

/// `content` with the mark of each list item set by its depth: a dash at
/// even depth, a dot at odd depth. Lines that are no list items stay as
/// they are.
pub fn format_bullets(content: &str) -> (out: String)
    ensures
        out@ == formatted(content@),
{
    let lines = lines_of_str(content);
    let mut out = String::new();
    let ghost all = line_views(lines@);
    let mut i: usize = 0;
    proof {
        assert(formatted_lines(all).take(0) =~= Seq::<Seq<char>>::empty());
    }
    while i < lines.len()
        invariant
            i <= lines.len(),
            all == line_views(lines@),
            out@ == join_lines(formatted_lines(all).take(i as int)),
        decreases lines.len() - i,
    {
        let line = format_line(&lines[i]);
        emit_line(&mut out, &line, Ghost(formatted_lines(all).take(i as int)), i == 0);
        proof {
            assert(formatted_lines(all).take(i as int).push(line@) =~= formatted_lines(all).take(
                i + 1,
            ));
        }
        i += 1;
    }
    proof {
        assert(formatted_lines(all).take(i as int) =~= formatted_lines(all));
    }
    out
}

} // verus!
