use tag::cli::{Cli, Command};
use tag::config::{choose_editor, choose_journal_location, journal_file_name, JournalLocation};
use tag::editor::ensure_day_section;
use tag::journal::{begin_entry, begin_entry_on, entry_header, finish_entry, finish_entry_on};
use tag::time::get_today;

const DAY: &str = "2026-02-01";

fn journal() -> String {
    "2026-02-01\n==========\n\nTODO\n * a\n   * b\n\n[오전 10:30]\n - Done item".to_string()
}

#[test]
fn headers_of_the_commands() {
    assert_eq!(entry_header(&Command::Todo, "[오전 09:05]"), "TODO");
    assert_eq!(entry_header(&Command::Done, "[오전 09:05]"), "[오전 09:05]");
    assert_eq!(entry_header(&Command::Note { tag: Some("TIL".to_string()) }, "x"), "#TIL");
    assert_eq!(entry_header(&Command::Note { tag: Some(String::new()) }, "x"), "#");
    assert_eq!(entry_header(&Command::Note { tag: None }, "x"), "\u{3bb}\u{2026}\u{388}\u{3bd}\u{388}:");
}

#[test]
fn todo_starts_from_the_list_as_it_stands() {
    let draft = begin_entry_on(&Command::Todo, &journal(), DAY);
    assert_eq!(draft.journal, journal());
    assert_eq!(draft.seed, " * a\n   * b\n");
}

#[test]
fn todo_starts_from_nothing_on_a_new_day() {
    let draft = begin_entry_on(&Command::Todo, &journal(), "2026-02-02");
    assert_eq!(draft.journal, ensure_day_section(&journal(), "2026-02-02"));
    assert_eq!(draft.seed, "");
    let first = begin_entry_on(&Command::Todo, "", "2026-02-02");
    assert_eq!(first.journal, "\n\n\n2026-02-02\n==========\n\n");
    assert_eq!(first.seed, "");
}

#[test]
fn entries_and_notes_start_from_nothing() {
    let done = begin_entry_on(&Command::Done, &journal(), DAY);
    assert_eq!(done.journal, journal());
    assert_eq!(done.seed, "");
    let note = begin_entry_on(&Command::Note { tag: None }, "old", DAY);
    assert_eq!(note.journal, "\n\n\n2026-02-01\n==========\n\nold");
    assert_eq!(note.seed, "");
}

#[test]
fn todo_takes_the_place_of_the_old_list() {
    let out = finish_entry_on(&Command::Todo, &journal(), DAY, "", "* x\n * y\n");
    assert_eq!(
        out,
        Some("2026-02-01\n==========\n\nTODO\n- x\n . y\n[오전 10:30]\n - Done item".to_string())
    );
}

#[test]
fn todo_is_added_where_the_day_has_none() {
    let out = finish_entry_on(&Command::Todo, "2026-02-01\n==========\n", DAY, "", "* x");
    assert_eq!(out, Some("2026-02-01\n==========\n\nTODO\n- x".to_string()));
}

#[test]
fn todo_is_written_even_if_left_empty() {
    let out = finish_entry_on(&Command::Todo, &journal(), DAY, "", "");
    assert_eq!(
        out,
        Some("2026-02-01\n==========\n\nTODO\n[오전 10:30]\n - Done item".to_string())
    );
}

#[test]
fn entry_is_added_under_its_time_stamp() {
    let out = finish_entry_on(&Command::Done, &journal(), DAY, "[오후 01:07]", " * did it\n");
    assert_eq!(
        out,
        Some(
            "2026-02-01\n==========\n\nTODO\n * a\n   * b\n\n[오전 10:30]\n - Done item\n\n[오후 01:07]\n . did it"
                .to_string()
        )
    );
}

#[test]
fn note_is_added_under_its_tag() {
    let tagged = Command::Note { tag: Some("TIL".to_string()) };
    let out = finish_entry_on(&tagged, "2026-02-01\n==========\n", DAY, "", "* learned");
    assert_eq!(out, Some("2026-02-01\n==========\n\n#TIL\n- learned".to_string()));
    let plain = Command::Note { tag: None };
    let out = finish_entry_on(&plain, "2026-02-01\n==========\n", DAY, "", "* noted");
    assert_eq!(out, Some("2026-02-01\n==========\n\n\u{3bb}\u{2026}\u{388}\u{3bd}\u{388}:\n- noted".to_string()));
}

#[test]
fn nothing_is_written_for_an_empty_entry_or_note() {
    assert_eq!(finish_entry_on(&Command::Done, &journal(), DAY, "[x]", ""), None);
    assert_eq!(finish_entry_on(&Command::Done, &journal(), DAY, "[x]", " \n\t\r\n"), None);
    assert_eq!(finish_entry_on(&Command::Note { tag: None }, &journal(), DAY, "", "\n\n"), None);
    let tagged = Command::Note { tag: Some("TIL".to_string()) };
    assert_eq!(finish_entry_on(&tagged, &journal(), DAY, "", "   "), None);
}

#[test]
fn nothing_is_added_without_a_day_section() {
    let out = finish_entry_on(&Command::Done, "old", DAY, "[x]", "* a");
    assert_eq!(out, Some("old".to_string()));
}

#[test]
fn a_round_for_today() {
    let today = get_today();
    let cli = Cli { command: Command::Todo };
    let draft = begin_entry(&cli.command, "old");
    assert_eq!(draft.journal, format!("\n\n\n{today}\n==========\n\nold"));
    assert_eq!(draft.seed, "");
    let out = finish_entry(&cli.command, &draft.journal, "* x").unwrap();
    assert_eq!(out, format!("\n\n\n{today}\n==========\n\nold\n\nTODO\n- x"));
    let again = begin_entry(&cli.command, &out);
    assert_eq!(again.journal, out);
    assert_eq!(again.seed, "- x");
    let out = finish_entry(&cli.command, &again.journal, "- x\n- y").unwrap();
    assert_eq!(out, format!("\n\n\n{today}\n==========\n\nold\n\nTODO\n- x\n- y"));
}

#[test]
fn an_entry_for_today_gets_the_time_of_day() {
    let today = get_today();
    let start = format!("{today}\n==========\n");
    let out = finish_entry(&Command::Done, &start, "* x").unwrap();
    let lines: Vec<&str> = out.lines().collect();
    assert_eq!(lines.len(), 5);
    assert_eq!(lines[2], "");
    assert!(lines[3].starts_with("[오전 ") || lines[3].starts_with("[오후 "));
    assert!(lines[3].ends_with(']'));
    assert_eq!(lines[4], "- x");
    assert_eq!(finish_entry(&Command::Done, &start, " "), None);
    let note = finish_entry(&Command::Note { tag: Some("a".to_string()) }, &start, "n").unwrap();
    assert_eq!(note, format!("{today}\n==========\n\n#a\nn"));
}

#[test]
fn editor_is_chosen_in_order() {
    let e = Some("emacs".to_string());
    let v = Some("nano".to_string());
    assert_eq!(choose_editor(e.clone(), v.clone()), "emacs");
    assert_eq!(choose_editor(e, None), "emacs");
    assert_eq!(choose_editor(None, v), "nano");
    assert_eq!(choose_editor(None, None), "vim");
}

#[test]
fn journal_location_is_chosen_in_order() {
    let given = Some("/tmp/j.txt".to_string());
    assert!(matches!(
        choose_journal_location(given.clone(), true),
        JournalLocation::Given(p) if p == "/tmp/j.txt"
    ));
    assert!(matches!(
        choose_journal_location(given, false),
        JournalLocation::Given(p) if p == "/tmp/j.txt"
    ));
    assert!(matches!(choose_journal_location(None, true), JournalLocation::Home));
    assert!(matches!(choose_journal_location(None, false), JournalLocation::CurrentDir));
    assert_eq!(journal_file_name(), "todo.txt");
}
