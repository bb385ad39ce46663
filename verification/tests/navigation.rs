use speedread::section::SectionCursor;

fn section(text: &str) -> SectionCursor {
    SectionCursor::from_text(0, String::from(text), Vec::new(), 80)
}

#[test]
fn cursor_starts_on_the_first_word() {
    let c = section("a b\nc d");
    assert_eq!(c.word_index(), 0);
    assert_eq!(c.current_word(), Some(String::from("a")));
    assert_eq!(c.current_line().unwrap().index, 0);
}

#[test]
fn next_word_walks_the_whole_section_then_reports_the_boundary() {
    let mut c = section("a b\nc d");
    assert!(c.next_word());
    assert_eq!(c.word_index(), 1);
    assert!(c.next_word());
    assert_eq!(c.word_index(), 2);
    assert_eq!(c.current_line().unwrap().index, 1);
    assert!(c.next_word());
    assert_eq!(c.word_index(), 3);
    // Crossing the last word of the last line signals the section boundary
    // and moves nowhere.
    assert!(!c.next_word());
    assert_eq!(c.word_index(), 3);
    assert_eq!(c.current_word(), Some(String::from("d")));
}

#[test]
fn prev_word_walks_back_and_reports_the_start() {
    let mut c = section("a b\nc d");
    for _ in 0..3 {
        c.next_word();
    }
    assert!(c.prev_word());
    assert_eq!(c.word_index(), 2);
    assert!(c.prev_word());
    assert_eq!(c.word_index(), 1);
    assert_eq!(c.current_line().unwrap().index, 0);
    assert!(c.prev_word());
    assert_eq!(c.word_index(), 0);
    assert!(!c.prev_word());
    assert_eq!(c.word_index(), 0);
}

#[test]
fn next_then_prev_returns_to_the_same_position() {
    // Within a line, and across a line break.
    for start in 0..3 {
        let mut c = section("a b\nc d");
        for _ in 0..start {
            c.next_word();
        }
        let line_before = c.current_line().unwrap().index;
        let word_before = c.word_index();
        assert!(c.next_word());
        assert!(c.prev_word());
        assert_eq!(c.word_index(), word_before);
        assert_eq!(c.current_line().unwrap().index, line_before);
    }
}

#[test]
fn line_steps_snap_to_first_and_last_words() {
    let mut c = section("a b c\nd e\nf");
    assert!(c.next_line());
    assert_eq!(c.current_line().unwrap().index, 1);
    assert_eq!(c.word_index(), 3);
    assert!(c.next_line());
    assert_eq!(c.word_index(), 5);
    assert!(!c.next_line());
    assert_eq!(c.current_line().unwrap().index, 2);
    assert!(c.prev_line());
    assert_eq!(c.word_index(), 4);
    assert!(c.prev_line());
    assert_eq!(c.word_index(), 2);
    assert!(!c.prev_line());
    assert_eq!(c.current_line().unwrap().index, 0);
}

#[test]
fn empty_section_reads_none_and_reports_every_boundary() {
    let mut c = section("");
    assert_eq!(c.current_word(), None);
    assert!(c.current_line().is_none());
    assert!(!c.next_word());
    assert!(!c.prev_word());
    assert!(!c.next_line());
    assert!(!c.prev_line());
    assert_eq!(c.word_index(), 0);
}

#[test]
fn blank_section_indexes_to_zero_lines_and_reads_none() {
    let c = section(" \n\t \n\n");
    assert_eq!(c.lines.len(), 0);
    assert_eq!(c.current_word(), None);
    assert!(c.current_line().is_none());
}

#[test]
fn seek_word_relocates_the_line_pointer() {
    let mut c = section("a b\nc d\ne");
    c.seek_word(3);
    assert_eq!(c.word_index(), 3);
    assert_eq!(c.current_line().unwrap().index, 1);
    assert_eq!(c.current_word(), Some(String::from("d")));
    // A position no line carries falls back to line 0 and reads as none.
    c.seek_word(99);
    assert_eq!(c.word_index(), 99);
    assert_eq!(c.current_line().unwrap().index, 0);
    assert_eq!(c.current_word(), None);
}

#[test]
fn line_lookup_is_by_index() {
    let c = section("a\nb");
    assert_eq!(c.line(0).unwrap().content, "a");
    assert_eq!(c.line(1).unwrap().content, "b");
    assert!(c.line(2).is_none());
}
