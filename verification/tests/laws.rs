use tag::editor::{
    ensure_day_section, extract_section_on, find_section_on, insert_section_on,
    replace_section_on,
};
use tag::md::format_bullets;

const DAY: &str = "2026-02-01";

#[test]
fn ensuring_twice_is_ensuring_once() {
    for text in ["", "old", "\n\nold\n", "2026-02-01\n==========\n", "x\n2026-02-01"] {
        let once = ensure_day_section(text, DAY);
        assert_eq!(ensure_day_section(&once, DAY), once, "{:?}", text);
    }
    // the journal has the section already, whatever the date looks like
    assert_eq!(ensure_day_section("a\r", "a\r"), "a\r");
    let once = ensure_day_section("a\r", "a\r");
    assert_eq!(ensure_day_section(&once, "a\r"), once);
}

#[test]
fn ensuring_twice_differs_for_a_date_that_is_no_plain_line() {
    let once = ensure_day_section("old", "2026\n02");
    assert_ne!(ensure_day_section(&once, "2026\n02"), once);
    let once = ensure_day_section("old", "2026-02-01\r");
    assert_ne!(ensure_day_section(&once, "2026-02-01\r"), once);
}

#[test]
fn putting_the_extracted_body_back_changes_nothing() {
    let text = "2026-02-01\n==========\n\nTODO\n - Task 1\n - Task 2\n[오전 10:30]\n - Done item";
    for header in ["TODO", "[오전 10:30]"] {
        let body = extract_section_on(text, DAY, header).unwrap();
        assert_eq!(replace_section_on(text, DAY, header, &body), text);
    }
    let empty = "2026-02-01\n==========\n\nTODO\n#TIL\nx";
    let body = extract_section_on(empty, DAY, "TODO").unwrap();
    assert_eq!(body, "");
    assert_eq!(replace_section_on(empty, DAY, "TODO", &body), empty);
}

#[test]
fn putting_the_body_back_loses_an_empty_last_line() {
    let text = "2026-02-01\n==========\n\nTODO\n - Task 1\n\n[오전 10:30]\n - Done item";
    let body = extract_section_on(text, DAY, "TODO").unwrap();
    assert_eq!(body, " - Task 1\n");
    assert_eq!(
        replace_section_on(text, DAY, "TODO", &body),
        "2026-02-01\n==========\n\nTODO\n - Task 1\n[오전 10:30]\n - Done item"
    );
}

#[test]
fn putting_the_body_back_loses_the_final_line_ending() {
    let text = "2026-02-01\n==========\n\nTODO\n - Task 1\n";
    let body = extract_section_on(text, DAY, "TODO").unwrap();
    assert_eq!(
        replace_section_on(text, DAY, "TODO", &body),
        "2026-02-01\n==========\n\nTODO\n - Task 1"
    );
}

#[test]
fn inserted_section_is_found_with_its_body() {
    let text = "2026-02-01\n==========\n\nTODO\n - a\n\n2026-01-31\n==========\n\n#TIL\n - old";
    let out = insert_section_on(text, DAY, "#TIL", " - x\n - y");
    assert_eq!(find_section_on(&out, DAY, "#TIL"), Some((7, 10)));
    assert_eq!(extract_section_on(&out, DAY, "#TIL"), Some(" - x\n - y".to_string()));
    let last = "top\n2026-02-01\n==========";
    let out = insert_section_on(last, DAY, "[오후 01:07]", "one\ntwo\nthree");
    assert_eq!(find_section_on(&out, DAY, "[오후 01:07]"), Some((4, 8)));
    assert_eq!(
        extract_section_on(&out, DAY, "[오후 01:07]"),
        Some("one\ntwo\nthree".to_string())
    );
    let bare = insert_section_on(last, DAY, "#TIL", "");
    assert_eq!(find_section_on(&bare, DAY, "#TIL"), Some((4, 5)));
    assert_eq!(extract_section_on(&bare, DAY, "#TIL"), Some(String::new()));
}

#[test]
fn inserted_section_is_hidden_by_an_older_one() {
    let text = "2026-02-01\n==========\n\n#TIL\n - old";
    let out = insert_section_on(text, DAY, "#TIL", " - new");
    assert_eq!(find_section_on(&out, DAY, "#TIL"), Some((3, 6)));
    assert_eq!(extract_section_on(&out, DAY, "#TIL"), Some(" - old\n".to_string()));
}

#[test]
fn inserted_body_is_cut_at_a_header_or_a_date_in_it() {
    let text = "2026-02-01\n==========";
    let out = insert_section_on(text, DAY, "#TIL", "a\n#b\nc");
    assert_eq!(extract_section_on(&out, DAY, "#TIL"), Some("a".to_string()));
    let out = insert_section_on(text, DAY, "#TIL", "a\n2026-01-01\nc");
    assert_eq!(extract_section_on(&out, DAY, "#TIL"), Some("a".to_string()));
    let out = insert_section_on(text, DAY, "2026-01-01", "a");
    assert_eq!(find_section_on(&out, DAY, "2026-01-01"), None);
}

#[test]
fn formatting_twice_is_formatting_once() {
    for text in [
        "",
        "* a",
        "* a\n * b\n  * c\n\ntext",
        " . a\n- b\r\n* c",
        "\t* a\n\n   . b",
        "* a\n",
    ] {
        let once = format_bullets(text);
        assert_eq!(format_bullets(&once), once, "{:?}", text);
    }
}

#[test]
fn formatting_twice_differs_after_an_empty_last_line() {
    assert_eq!(format_bullets("a\n\n"), "a\n");
    assert_eq!(format_bullets("a\n"), "a");
    assert_eq!(format_bullets("a\r\r\nb"), "a\r\nb");
    assert_eq!(format_bullets("a\r\nb"), "a\nb");
}
