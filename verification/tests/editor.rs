use tag::classify::{is_blank, is_date_line, is_header_line};
use tag::editor::{
    create_day_section, create_today_section, ensure_day_section, ensure_today_section,
    extract_section, extract_section_on, find_day_section_end, find_day_section_start,
    find_section, find_section_on, has_day_section, has_today_section, insert_section,
    insert_section_on, replace_section, replace_section_on,
};
use tag::time::get_today;

fn make_test_content(date: &str) -> String {
    format!("{date}\n==========\n\nTODO\n - Task 1\n - Task 2\n\n[오전 10:30]\n - Done item\n")
}

#[test]
fn test_is_date_line() {
    assert!(is_date_line("2026-02-01"));
    assert!(is_date_line("2025-12-31"));
    assert!(!is_date_line("not a date"));
    assert!(!is_date_line("2026-2-01")); // wrong format
    assert!(!is_date_line("26-02-01")); // wrong format
}

#[test]
fn test_find_section() {
    let today = get_today();
    let content = make_test_content(&today);

    let result = find_section(&content, "TODO");
    assert!(result.is_some());

    let (start, end) = result.unwrap();
    assert_eq!(start, 3); // TODO is at line 3
    assert_eq!(end, 7); // Next section starts at line 7
}

#[test]
fn test_extract_section() {
    let today = get_today();
    let content = make_test_content(&today);

    let result = extract_section(&content, "TODO");
    assert!(result.is_some());

    let extracted = result.unwrap();
    assert!(extracted.contains("Task 1"));
    assert!(extracted.contains("Task 2"));
}

#[test]
fn test_replace_section() {
    let today = get_today();
    let content = make_test_content(&today);

    let new_content = replace_section(&content, "TODO", " - New task");
    assert!(new_content.contains("New task"));
    assert!(!new_content.contains("Task 1"));
}

#[test]
fn test_insert_section() {
    let today = get_today();
    let content = make_test_content(&today);

    let new_content = insert_section(&content, "#TIL", " - Learned something");
    assert!(new_content.contains("#TIL"));
    assert!(new_content.contains("Learned something"));
}

#[test]
fn test_create_today_section() {
    let content = "old content";
    let result = create_today_section(content);

    assert!(result.contains(&get_today()));
    assert!(result.contains("=========="));
    assert!(result.contains("old content"));
}

#[test]
fn test_ensure_today_section_exists() {
    let today = get_today();
    let content = make_test_content(&today);

    let result = ensure_today_section(&content);
    assert_eq!(result, content);
}

#[test]
fn test_ensure_today_section_creates() {
    let content = "old content";
    let result = ensure_today_section(content);

    assert!(result.contains(&get_today()));
}

#[test]
fn date_line_needs_ten_characters() {
    assert!(!is_date_line(""));
    assert!(!is_date_line("2026-02-0"));
    assert!(!is_date_line("2026-02-011"));
    assert!(!is_date_line("2026-02-01 "));
    assert!(!is_date_line("2026-02-01\r"));
}

#[test]
fn date_line_looks_at_year_and_dashes_only() {
    assert!(is_date_line("2025-99-99"));
    assert!(is_date_line("0000-ab-cd"));
    assert!(is_date_line("2026-02-0\u{e9}"));
    assert!(!is_date_line("202a-02-01"));
    assert!(!is_date_line("2026/02/01"));
    assert!(!is_date_line("2026-02_01"));
    assert!(!is_date_line("\u{661}026-02-01"));
}

#[test]
fn header_lines() {
    assert!(is_header_line("TODO"));
    assert!(is_header_line("[오전 09:05]"));
    assert!(is_header_line("["));
    assert!(is_header_line("#TIL"));
    assert!(is_header_line("\u{3bb}\u{2026}\u{388}\u{3bd}\u{388}:"));
    assert!(is_header_line("\u{3bb}\u{2026}\u{388}\u{3bd}\u{388}: later"));
    assert!(!is_header_line("TODO "));
    assert!(!is_header_line(" TODO"));
    assert!(!is_header_line("TODOS"));
    assert!(!is_header_line("todo"));
    assert!(!is_header_line("\u{3bb}\u{2026}\u{388}\u{3bd}\u{388}"));
    assert!(!is_header_line("\u{3bb}\u{2026}:"));
    assert!(!is_header_line(""));
    assert!(!is_header_line(" - Task 1"));
}

#[test]
fn blank_texts() {
    assert!(is_blank(""));
    assert!(is_blank(" \t\r\n"));
    assert!(is_blank("\u{3000}\u{a0}"));
    assert!(!is_blank(" x "));
    assert!(!is_blank("\u{200b}"));
}

#[test]
fn scenario_find_todo() {
    let content = make_test_content("2026-02-01");
    assert_eq!(find_section_on(&content, "2026-02-01", "TODO"), Some((3, 7)));
    assert_eq!(find_section_on(&content, "2026-02-01", "[오전 10:30]"), Some((7, 9)));
}

#[test]
fn scenario_extract_todo() {
    let content = make_test_content("2026-02-01");
    let body = extract_section_on(&content, "2026-02-01", "TODO").unwrap();
    // the empty line before the next header belongs to the body
    assert_eq!(body, " - Task 1\n - Task 2\n");
    assert_eq!(body.lines().collect::<Vec<&str>>(), vec![" - Task 1", " - Task 2"]);
    assert_eq!(
        extract_section_on(&content, "2026-02-01", "[오전 10:30]"),
        Some(" - Done item".to_string())
    );
}

#[test]
fn scenario_replace_todo() {
    let content = make_test_content("2026-02-01");
    let out = replace_section_on(&content, "2026-02-01", "TODO", " - New task");
    assert!(out.contains("New task"));
    assert!(!out.contains("Task 1"));
    assert!(!out.contains("Task 2"));
    assert_eq!(
        out,
        "2026-02-01\n==========\n\nTODO\n - New task\n[오전 10:30]\n - Done item"
    );
}

#[test]
fn scenario_create_section() {
    let out = create_day_section("old content", "2026-02-01");
    assert!(out.contains("2026-02-01"));
    assert!(out.contains("=========="));
    assert!(out.contains("old content"));
    assert_eq!(out, "\n\n\n2026-02-01\n==========\n\nold content");
    assert_eq!(
        create_day_section("\n\n\nold content\n", "2026-02-01"),
        "\n\n\n2026-02-01\n==========\n\nold content\n"
    );
    assert_eq!(create_day_section("", "2026-02-01"), "\n\n\n2026-02-01\n==========\n\n");
    assert_eq!(create_day_section("\n\n", "2026-02-01"), "\n\n\n2026-02-01\n==========\n\n");
    // only line feeds are taken off, no other white space
    assert_eq!(
        create_day_section("\n \nold", "2026-02-01"),
        "\n\n\n2026-02-01\n==========\n\n \nold"
    );
}

#[test]
fn create_always_adds_a_section() {
    let once = create_day_section("x", "2026-02-01");
    let twice = create_day_section(&once, "2026-02-01");
    assert_eq!(
        twice,
        "\n\n\n2026-02-01\n==========\n\n2026-02-01\n==========\n\nx"
    );
}

#[test]
fn day_section_is_found_by_its_date() {
    let content = "2026-02-02\n==========\n\nTODO\n\n\n\n2026-02-01\n==========\n\nTODO\n - old";
    assert!(has_day_section(content, "2026-02-02"));
    assert!(has_day_section(content, "2026-02-01"));
    assert!(!has_day_section(content, "2026-02-03"));
    assert!(has_day_section(content, "TODO"));
    assert!(!has_day_section("", ""));
    assert!(has_day_section("\n", ""));
    assert_eq!(find_day_section_start(content, "2026-02-02"), Some(0));
    assert_eq!(find_day_section_start(content, "2026-02-01"), Some(7));
    assert_eq!(find_day_section_start(content, "2026-02-03"), None);
    assert_eq!(find_day_section_end(content, 0), 7);
    assert_eq!(find_day_section_end(content, 7), 12);
    assert_eq!(find_day_section_end(content, 6), 7);
    assert_eq!(find_day_section_end(content, 10), 12);
    assert_eq!(find_day_section_end(content, 11), 12);
    assert_eq!(find_day_section_end(content, 12), 12);
    assert_eq!(find_day_section_end(content, 500), 12);
}

#[test]
fn first_of_two_equal_dates_is_taken() {
    let content = "2026-02-01\n==========\n\n#a\n1\n2026-02-01\n==========\n\n#b\n2";
    assert_eq!(find_day_section_start(content, "2026-02-01"), Some(0));
    assert_eq!(find_section_on(content, "2026-02-01", "#a"), Some((3, 5)));
    assert_eq!(find_section_on(content, "2026-02-01", "#b"), None);
}

#[test]
fn sections_stay_within_their_day() {
    let content = "2026-02-02\n==========\n\nTODO\n - new\n\n\n2026-02-01\n==========\n\n#TIL\n - old";
    assert_eq!(find_section_on(content, "2026-02-02", "TODO"), Some((3, 7)));
    assert_eq!(find_section_on(content, "2026-02-02", "#TIL"), None);
    assert_eq!(find_section_on(content, "2026-02-01", "#TIL"), Some((10, 12)));
    assert_eq!(find_section_on(content, "2026-02-01", "TODO"), None);
    assert_eq!(find_section_on(content, "2026-02-03", "TODO"), None);
    assert_eq!(extract_section_on(content, "2026-02-02", "#TIL"), None);
    assert_eq!(
        extract_section_on(content, "2026-02-02", "TODO"),
        Some(" - new\n\n".to_string())
    );
}

#[test]
fn header_is_not_sought_in_the_first_two_lines() {
    assert_eq!(find_section_on("TODO\nTODO\nTODO\nx", "TODO", "TODO"), Some((2, 4)));
    assert_eq!(find_section_on("TODO\nTODO", "TODO", "TODO"), None);
    assert_eq!(find_section_on("TODO", "TODO", "TODO"), None);
}

#[test]
fn section_ends_at_the_next_header() {
    let content = "2026-02-01\n==========\n\nTODO\n a\n  #tag \n b\n\t[x\n \u{3bb}\u{2026}\u{388}\u{3bd}\u{388}: y\nTODO\n  TODO  ";
    assert_eq!(find_section_on(content, "2026-02-01", "TODO"), Some((3, 5)));
    assert_eq!(find_section_on(content, "2026-02-01", "  #tag "), Some((5, 7)));
    assert_eq!(find_section_on(content, "2026-02-01", "\t[x"), Some((7, 8)));
    assert_eq!(find_section_on(content, "2026-02-01", " \u{3bb}\u{2026}\u{388}\u{3bd}\u{388}: y"), Some((8, 9)));
    assert_eq!(find_section_on(content, "2026-02-01", "  TODO  "), Some((10, 11)));
    assert_eq!(find_section_on(content, "2026-02-01", " a"), Some((4, 5)));
    assert_eq!(find_section_on(content, "2026-02-01", "#tag"), None);
}

#[test]
fn empty_body_is_extracted_as_empty_text() {
    let content = "2026-02-01\n==========\n\nTODO\n#TIL\n - x";
    assert_eq!(find_section_on(content, "2026-02-01", "TODO"), Some((3, 4)));
    assert_eq!(extract_section_on(content, "2026-02-01", "TODO"), Some(String::new()));
    assert_eq!(extract_section_on(content, "2026-02-01", "#none"), None);
    assert_eq!(extract_section_on(content, "2026-02-09", "TODO"), None);
}

#[test]
fn replace_keeps_what_is_outside_the_body() {
    let content = "top\n2026-02-01\n==========\n\nTODO\n - a\n - b\n#TIL\n - x\n2026-01-31\n==========";
    assert_eq!(
        replace_section_on(content, "2026-02-01", "TODO", "1\n2\n3\n"),
        "top\n2026-02-01\n==========\n\nTODO\n1\n2\n3\n#TIL\n - x\n2026-01-31\n=========="
    );
    assert_eq!(
        replace_section_on(content, "2026-02-01", "TODO", ""),
        "top\n2026-02-01\n==========\n\nTODO\n#TIL\n - x\n2026-01-31\n=========="
    );
    assert_eq!(
        replace_section_on(content, "2026-02-01", "#TIL", "new\r\nbody"),
        "top\n2026-02-01\n==========\n\nTODO\n - a\n - b\n#TIL\nnew\nbody\n2026-01-31\n=========="
    );
}

#[test]
fn replace_without_the_header_changes_nothing() {
    let content = "2026-02-01\n==========\n\nTODO\n - a\n";
    assert_eq!(replace_section_on(content, "2026-02-01", "#TIL", "x"), content);
    assert_eq!(replace_section_on(content, "2026-02-02", "TODO", "x"), content);
    assert_eq!(replace_section_on("", "2026-02-02", "TODO", "x"), "");
}

#[test]
fn insert_goes_to_the_end_of_the_day() {
    let content = "2026-02-02\n==========\n\nTODO\n - a\n\n\n\n2026-02-01\n==========\n\nTODO\n - old";
    assert_eq!(
        insert_section_on(content, "2026-02-02", "#TIL", " - x\n - y"),
        "2026-02-02\n==========\n\nTODO\n - a\n\n\n\n\n#TIL\n - x\n - y\n2026-02-01\n==========\n\nTODO\n - old"
    );
    assert_eq!(
        insert_section_on(content, "2026-02-01", "#TIL", " - x"),
        "2026-02-02\n==========\n\nTODO\n - a\n\n\n\n2026-02-01\n==========\n\nTODO\n - old\n\n#TIL\n - x"
    );
    assert_eq!(
        insert_section_on("2026-02-01", "2026-02-01", "#TIL", ""),
        "2026-02-01\n\n#TIL"
    );
}

#[test]
fn insert_without_the_day_changes_nothing() {
    let content = "2026-02-01\n==========\n\nTODO\n - a\n";
    assert_eq!(insert_section_on(content, "2026-02-02", "#TIL", "x"), content);
    assert_eq!(insert_section_on("", "2026-02-02", "#TIL", "x"), "");
}

#[test]
fn insert_twice_gives_two_sections() {
    let content = "2026-02-01\n==========\n";
    let once = insert_section_on(content, "2026-02-01", "#TIL", "a");
    let twice = insert_section_on(&once, "2026-02-01", "#TIL", "b");
    assert_eq!(twice, "2026-02-01\n==========\n\n#TIL\na\n\n#TIL\nb");
    assert_eq!(find_section_on(&twice, "2026-02-01", "#TIL"), Some((3, 6)));
    assert_eq!(extract_section_on(&twice, "2026-02-01", "#TIL"), Some("a\n".to_string()));
}

#[test]
fn ensure_adds_a_section_only_where_there_is_none() {
    assert_eq!(
        ensure_day_section("old", "2026-02-01"),
        "\n\n\n2026-02-01\n==========\n\nold"
    );
    let content = "\n\n2026-02-01\n==========\n\nold\n";
    assert_eq!(ensure_day_section(content, "2026-02-01"), content);
    assert_eq!(
        ensure_day_section(content, "2026-02-02"),
        "\n\n\n2026-02-02\n==========\n\n2026-02-01\n==========\n\nold\n"
    );
}

#[test]
fn today_functions_use_the_date_of_the_clock() {
    let today = get_today();
    let content = make_test_content(&today);
    assert!(has_today_section(&content));
    assert!(!has_today_section("1066-10-14\n==========\n"));
    assert_eq!(find_section(&content, "TODO"), find_section_on(&content, &today, "TODO"));
    assert_eq!(find_section("1066-10-14\n==========\n\nTODO", "TODO"), None);
    assert_eq!(
        extract_section(&content, "[오전 10:30]"),
        Some(" - Done item".to_string())
    );
    assert_eq!(
        replace_section(&content, "TODO", "x"),
        replace_section_on(&content, &today, "TODO", "x")
    );
    assert_eq!(
        insert_section(&content, "#TIL", "x"),
        insert_section_on(&content, &today, "#TIL", "x")
    );
    assert_eq!(create_today_section("old"), create_day_section("old", &today));
    assert_eq!(ensure_today_section("old"), ensure_day_section("old", &today));
}
