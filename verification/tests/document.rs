use speedread::doc::DocSource;
use speedread::doc::DocumentCursor;
use speedread::section::SectionCursor;
use speedread::state::DocState;
use speedread::toc::TableOfContentNode;

fn doc(pages: &[&str]) -> DocSource {
    DocSource {
        sections: pages.iter().map(|p| p.as_bytes().to_vec()).collect(),
        identifier: String::from("docid"),
        toc: Vec::new(),
    }
}

fn three_section_cursor() -> DocumentCursor {
    let d = doc(&["<p>one two</p>", "<p>three</p>", "<p>four five</p>"]);
    DocumentCursor::new(d, DocState::new(String::from("docid")))
}

#[test]
fn rendering_strips_the_markup() {
    // The first word of a rendered section is the text, not the tag it was
    // wrapped in.
    let c = SectionCursor::new(0, b"<p>hello world</p>".to_vec(), 80);
    assert_eq!(c.current_word(), Some(String::from("hello")));
}

#[test]
fn an_unrenderable_width_still_yields_a_usable_section() {
    // A width too narrow to render to must not crash: the section is either
    // rendered or empty, and navigation still answers.
    let mut c = SectionCursor::new(0, b"<p>word</p>".to_vec(), 1);
    assert_eq!(c.index, 0);
    assert_eq!(c.size, 1);
    c.next_word();
    c.prev_word();
}

#[test]
fn a_non_text_payload_still_yields_a_usable_section() {
    let raw = vec![0xff_u8, 0xfe, 0x00, 0x42];
    let mut c = SectionCursor::new(3, raw.clone(), 80);
    assert_eq!(c.index, 3);
    assert_eq!(c.raw_content, raw);
    c.next_word();
}

#[test]
fn a_fresh_cursor_stands_on_the_first_word_of_the_first_section() {
    let mut c = three_section_cursor();
    assert_eq!(c.section_index(), 0);
    assert_eq!(c.sections(), 3);
    assert_eq!(c.current_section().current_word(), Some(String::from("one")));
}

#[test]
fn section_steps_move_and_report_the_document_edges() {
    let mut c = three_section_cursor();
    assert!(!c.prev_section());
    assert_eq!(c.section_index(), 0);
    assert!(c.next_section());
    assert_eq!(c.section_index(), 1);
    assert_eq!(c.current_section().current_word(), Some(String::from("three")));
    assert!(c.next_section());
    assert_eq!(c.section_index(), 2);
    assert!(!c.next_section());
    assert_eq!(c.section_index(), 2);
    assert!(c.prev_section());
    assert_eq!(c.section_index(), 1);
}

#[test]
fn goto_section_jumps_or_refuses() {
    let mut c = three_section_cursor();
    assert!(c.goto_section(2));
    assert_eq!(c.section_index(), 2);
    assert_eq!(c.current_section().current_word(), Some(String::from("four")));
    assert!(!c.goto_section(3));
    assert_eq!(c.section_index(), 2);
}

#[test]
fn doc_state_snapshots_the_position() {
    let mut c = three_section_cursor();
    c.next_section();
    c.current_section().next_word();
    let st = c.doc_state();
    assert_eq!(st.identifier, "docid");
    assert_eq!(st.section_index, 1);
    assert_eq!(st.word_index, 0);
    c.goto_section(2);
    c.current_section().next_word();
    let st = c.doc_state();
    assert_eq!(st.section_index, 2);
    assert_eq!(st.word_index, 1);
}

#[test]
fn a_saved_position_is_restored() {
    let d = doc(&["<p>one two</p>", "<p>three</p>", "<p>four five</p>"]);
    let saved = DocState { identifier: String::from("docid"), section_index: 2, word_index: 1 };
    let mut c = DocumentCursor::new(d, saved);
    assert_eq!(c.section_index(), 2);
    assert_eq!(c.current_section().word_index(), 1);
    assert_eq!(c.current_section().current_word(), Some(String::from("five")));
}

#[test]
fn a_saved_position_outside_the_document_falls_back_to_the_start() {
    let d = doc(&["<p>one two</p>", "<p>three</p>"]);
    let saved = DocState { identifier: String::from("docid"), section_index: 9, word_index: 0 };
    let c = DocumentCursor::new(d, saved);
    assert_eq!(c.section_index(), 0);
}

#[test]
fn an_empty_document_reports_every_boundary() {
    let d = DocSource { sections: Vec::new(), identifier: String::from("e"), toc: Vec::new() };
    let mut c = DocumentCursor::new(d, DocState::new(String::from("e")));
    assert_eq!(c.sections(), 0);
    assert_eq!(c.current_section().current_word(), None);
    assert!(!c.next_section());
    assert!(!c.prev_section());
    assert!(!c.goto_section(0));
}

#[test]
fn reflow_preserves_the_word_under_the_cursor() {
    let raw = b"<p>alpha beta gamma delta epsilon zeta eta theta</p>".to_vec();
    let mut c = SectionCursor::new(0, raw, 40);
    c.next_word();
    c.next_word();
    let before = c.current_word();
    assert!(before.is_some());
    let narrow = SectionCursor::from_resize(&c, 12);
    assert_eq!(narrow.word_index(), c.word_index());
    assert_eq!(narrow.current_word(), before);
    let wide = SectionCursor::from_resize(&narrow, 60);
    assert_eq!(wide.current_word(), before);
}

#[test]
fn resize_is_lazy_and_on_demand() {
    let mut c = three_section_cursor();
    let w80 = c.current_section_or_resize(80).size;
    assert_eq!(w80, 80);
    let sc = c.current_section_or_resize(20);
    assert_eq!(sc.size, 20);
    assert_eq!(sc.current_word(), Some(String::from("one")));
}

#[test]
fn toc_path_follows_the_reading_position() {
    let toc = vec![
        TableOfContentNode {
            index: 0,
            name: String::from("A"),
            children: vec![
                TableOfContentNode { index: 0, name: String::from("A1"), children: Vec::new() },
                TableOfContentNode { index: 3, name: String::from("A2"), children: Vec::new() },
            ],
        },
        TableOfContentNode { index: 5, name: String::from("B"), children: Vec::new() },
    ];
    let d = DocSource {
        sections: (0..6).map(|_| b"<p>w</p>".to_vec()).collect(),
        identifier: String::from("docid"),
        toc,
    };
    let mut c = DocumentCursor::new(d, DocState::new(String::from("docid")));
    assert!(c.goto_section(4));
    assert_eq!(c.toc_index(), vec![0, 3]);
    assert!(c.goto_section(5));
    assert_eq!(c.toc_index(), vec![5]);
}
