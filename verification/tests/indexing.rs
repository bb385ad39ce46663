use speedread::line::lines;

#[test]
fn lines_number_words_contiguously() {
    let ls = lines(String::from("one two\nthree\n\nfour five six"));
    assert_eq!(ls.len(), 3);
    assert_eq!(ls[0].index, 0);
    assert_eq!(ls[0].content, "one two");
    assert_eq!(ls[0].word_indexes, vec![0, 1]);
    assert_eq!(ls[1].index, 1);
    assert_eq!(ls[1].content, "three");
    assert_eq!(ls[1].word_indexes, vec![2]);
    assert_eq!(ls[2].index, 2);
    assert_eq!(ls[2].content, "four five six");
    assert_eq!(ls[2].word_indexes, vec![3, 4, 5]);
}

#[test]
fn lines_of_empty_text_is_empty() {
    let ls = lines(String::new());
    assert_eq!(ls.len(), 0);
}

#[test]
fn lines_of_blank_text_is_empty() {
    let ls = lines(String::from("\n   \n\t\n"));
    assert_eq!(ls.len(), 0);
}

#[test]
fn lines_skip_blank_rows_without_consuming_an_index() {
    let ls = lines(String::from("a\n\n\nb c"));
    assert_eq!(ls.len(), 2);
    assert_eq!(ls[0].word_indexes, vec![0]);
    assert_eq!(ls[1].index, 1);
    assert_eq!(ls[1].word_indexes, vec![1, 2]);
}

#[test]
fn word_positions_strictly_increase_and_ranges_do_not_overlap() {
    let ls = lines(String::from("one two three\nfour\nfive six\n\nseven eight nine ten"));
    for l in &ls {
        for w in l.word_indexes.windows(2) {
            assert!(w[0] < w[1]);
        }
    }
    for pair in ls.windows(2) {
        let last = *pair[0].word_indexes.last().unwrap();
        let first = *pair[1].word_indexes.first().unwrap();
        assert!(last < first);
    }
}

#[test]
fn every_whitespace_delimited_token_is_indexed() {
    // The segmentation policy indexes every token, alphabetic or not.
    let ls = lines(String::from("-- 12 ..."));
    assert_eq!(ls.len(), 1);
    assert_eq!(ls[0].word_indexes, vec![0, 1, 2]);
    assert_eq!(ls[0].current_word(2), Some(String::from("...")));
}

#[test]
fn no_break_spaces_separate_words_too() {
    let ls = lines(String::from("one\u{a0}two three\r"));
    assert_eq!(ls.len(), 1);
    assert_eq!(ls[0].word_indexes, vec![0, 1, 2]);
    assert_eq!(ls[0].current_word(1), Some(String::from("two")));
    assert_eq!(ls[0].current_word(2), Some(String::from("three")));
}

#[test]
fn line_reports_its_first_and_last_words() {
    let ls = lines(String::from("x\nalpha beta gamma"));
    let l = &ls[1];
    assert_eq!(l.first_word_index(), 1);
    assert_eq!(l.last_word_index(), 3);
}

#[test]
fn line_locates_a_word_it_carries() {
    let ls = lines(String::from("alpha beta gamma"));
    let l = &ls[0];
    assert_eq!(l.word_position(0), Some(0));
    assert_eq!(l.word_position(2), Some(2));
    assert_eq!(l.word_position(9), None);
}

#[test]
fn line_reads_the_word_text_by_global_position() {
    let ls = lines(String::from("stop\nalpha beta gamma"));
    let l = &ls[1];
    assert_eq!(l.current_word(1), Some(String::from("alpha")));
    assert_eq!(l.current_word(2), Some(String::from("beta")));
    assert_eq!(l.current_word(0), None);
    assert_eq!(l.current_word(4), None);
}

#[test]
fn line_steps_between_its_own_words() {
    let ls = lines(String::from("alpha beta gamma"));
    let l = &ls[0];
    assert_eq!(l.next_word(0), Some(1));
    assert_eq!(l.next_word(2), None);
    assert_eq!(l.prev_word(0), None);
    assert_eq!(l.prev_word(2), Some(1));
    assert_eq!(l.next_word(7), None);
}
