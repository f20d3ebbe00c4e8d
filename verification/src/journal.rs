//! One round of a command: what to hand to the editor, and what to make of
//! the journal once the user has edited it. Reading the journal, running
//! the editor and writing the journal back are the caller's part.

use vstd::prelude::*;
use crate::classify::{blank, is_blank, note_header, todo_header};
use crate::cli::{Command, CommandView};
use crate::editor::{
    ensure_day_section, ensured, extract_section_on, extracted, find_section_on, insert_section_on,
    inserted, replace_section_on, replaced,
};
use crate::lines::lines_of;
use crate::locate::section_span;
use crate::md::{format_bullets, formatted};
use crate::time::{date_text, get_current_time, get_today, timestamp};

verus! {

/// What the editor is opened on: the journal, with a day section for the
/// day, and the text that the user starts from.
#[derive(Debug)]
pub struct Draft {
    pub journal: String,
    pub seed: String,
}

/// The text that the user starts from: for the list of things to do, the
/// list as it stands in the journal, or nothing where there is none; for
/// an entry or a note, nothing.
pub open spec fn seed_of(command: CommandView, journal: Seq<char>, date: Seq<char>) -> Seq<char> {
    match command {
        CommandView::Todo => match extracted(journal, date, todo_header()) {
            Some(body) => body,
            None => Seq::empty(),
        },
        _ => Seq::empty(),
    }
}

/// The header under which a command writes: the to-do header; the time
/// stamp of an entry; for a note `#` and its tag, or the note header where
/// it has no tag.
pub open spec fn header_of(command: CommandView, stamp: Seq<char>) -> Seq<char> {
    match command {
        CommandView::Todo => todo_header(),
        CommandView::Done => stamp,
        CommandView::Note { tag: Some(t) } => seq!['#'] + t,
        CommandView::Note { tag: None } => note_header(),
    }
}

/// The journal after a command, given what the user left in the editor.
/// The list of things to do takes the place of the old one, or is added
/// where the day had none. An entry or a note is added, unless the user
/// left nothing but white space: then nothing is to be written. The
/// user's text is formatted first.
pub open spec fn committed(
    command: CommandView,
    journal: Seq<char>,
    date: Seq<char>,
    stamp: Seq<char>,
    edited: Seq<char>,
) -> Option<Seq<char>> {
    let header = header_of(command, stamp);
    let body = formatted(edited);
    match command {
        CommandView::Todo => if section_span(lines_of(journal), date, header) is Some {
            Some(replaced(journal, date, header, body))
        } else {
            Some(inserted(journal, date, header, body))
        },
        _ => if blank(edited) {
            None
        } else {
            Some(inserted(journal, date, header, body))
        },
    }
}

/// The view of a text that may be absent.
pub open spec fn text_view(text: Option<String>) -> Option<Seq<char>> {
    match text {
        Some(t) => Some(t@),
        None => None,
    }
}

/// The header under which `command` writes, `stamp` being the time stamp
/// of an entry.
pub fn entry_header(command: &Command, stamp: &str) -> (header: String)
    ensures
        header@ == header_of(command@, stamp@),
{
    match command {
        Command::Todo => {
            let header = "TODO".to_owned();
            proof {
                reveal_strlit("TODO");
                assert(header@ =~= todo_header());
            }
            header
        },
        Command::Done => stamp.to_owned(),
        Command::Note { tag: Some(t) } => {
            let mut header = String::new();
            header.push('#');
            let ghost mark = header@;
            header.append(t.as_str());
            assert(mark =~= seq!['#']);
            header
        },
        Command::Note { tag: None } => {
            let mut header = String::new();
            header.push('\u{3bb}');
            header.push('\u{2026}');
            header.push('\u{388}');
            header.push('\u{3bd}');
            header.push('\u{388}');
            header.push(':');
            assert(header@ =~= note_header());
            header
        },
    }
}

/// Prepares the round of `command` on the day `date`: makes sure that the
/// journal has a day section, and picks the text for the editor.
pub fn begin_entry_on(command: &Command, content: &str, date: &str) -> (draft: Draft)
    ensures
        draft.journal@ == ensured(content@, date@),
        draft.seed@ == seed_of(command@, draft.journal@, date@),
{
    let journal = ensure_day_section(content, date);
    let seed = match command {
        Command::Todo => {
            proof {
                reveal_strlit("TODO");
                assert("TODO"@ =~= todo_header());
            }
            match extract_section_on(journal.as_str(), date, "TODO") {
                Some(body) => body,
                None => String::new(),
            }
        },
        _ => String::new(),
    };
    Draft { journal, seed }
}

/// Ends the round of `command` on the day `date`: the journal to write
/// back, given the text `edited` that the user left, or nothing where
/// nothing is to be written. `stamp` is the time stamp for an entry.
pub fn finish_entry_on(command: &Command, journal: &str, date: &str, stamp: &str, edited: &str) -> (out:
    Option<String>)
    ensures
        text_view(out) == committed(command@, journal@, date@, stamp@, edited@),
{
    let header = entry_header(command, stamp);
    match command {
        Command::Todo => {
            let body = format_bullets(edited);
            if find_section_on(journal, date, header.as_str()).is_some() {
                Some(replace_section_on(journal, date, header.as_str(), body.as_str()))
            } else {
                Some(insert_section_on(journal, date, header.as_str(), body.as_str()))
            }
        },
        _ => {
            if is_blank(edited) {
                None
            } else {
                let body = format_bullets(edited);
                Some(insert_section_on(journal, date, header.as_str(), body.as_str()))
            }
        },
    }
}

/// Prepares the round of `command` for today.
pub fn begin_entry(command: &Command, content: &str) -> (draft: Draft)
    ensures
        exists|today: Seq<char>| #[trigger]
            date_text(today) && draft.journal@ == ensured(content@, today) && draft.seed@
                == seed_of(command@, draft.journal@, today),
{
    let today = get_today();
    begin_entry_on(command, content, today.as_str())
}

/// Ends the round of `command` for today. An entry gets the time of day
/// as its time stamp.
pub fn finish_entry(command: &Command, journal: &str, edited: &str) -> (out: Option<String>)
    ensures
        exists|today: Seq<char>, hour: nat, minute: nat| #[trigger]
            date_text(today) && hour < 24 && minute < 60 && text_view(out) == committed(
                command@,
                journal@,
                today,
                #[trigger] timestamp(hour, minute),
                edited@,
            ),
{
    let today = get_today();
    match command {
        Command::Done => {
            let stamp = get_current_time();
            finish_entry_on(command, journal, today.as_str(), stamp.as_str(), edited)
        },
        _ => {
            let out = finish_entry_on(command, journal, today.as_str(), "", edited);
            assert(committed(command@, journal@, today@, ""@, edited@) == committed(
                command@,
                journal@,
                today@,
                timestamp(0, 0),
                edited@,
            ));
            out
        },
    }
}

} // verus!
