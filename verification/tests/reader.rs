use speedread::doc::DocSource;
use speedread::doc::DocumentCursor;
use speedread::reader::Message;
use speedread::reader::Model;
use speedread::reader::ParseSpeedError;
use speedread::reader::Status;
use speedread::reader::TableOfContentsMessage;
use speedread::reader::parse_speed;
use speedread::reader::poll_timeout_millis;
use speedread::reader::should_auto_advance;
use speedread::reader::split_word;
use speedread::reader::update;
use speedread::state::DocState;

fn model() -> Model {
    let d = DocSource {
        sections: vec![b"<p>one two</p>".to_vec(), b"<p>three</p>".to_vec()],
        identifier: String::from("docid"),
        toc: Vec::new(),
    };
    let cursor = DocumentCursor::new(d, DocState::new(String::from("docid")));
    Model { should_quit: false, cursor, speed_millis: 100, status: Status::Paused }
}

#[test]
fn word_commands_chain_into_section_commands_at_the_boundary() {
    let mut m = model();
    assert_eq!(update(&mut m, Message::NextWord, None), None);
    assert_eq!(m.cursor.current_section().word_index(), 1);
    // The last word of the section: the next step asks for the next section.
    assert_eq!(update(&mut m, Message::NextWord, None), Some(Message::NextSection));
    assert_eq!(update(&mut m, Message::NextSection, None), None);
    assert_eq!(m.cursor.section_index(), 1);
    // And backwards at the start.
    assert_eq!(update(&mut m, Message::PrevWord, None), Some(Message::PrevSection));
    assert_eq!(update(&mut m, Message::PrevSection, None), None);
    assert_eq!(m.cursor.section_index(), 0);
}

#[test]
fn line_commands_chain_too() {
    let mut m = model();
    assert_eq!(update(&mut m, Message::NextLine, None), Some(Message::NextSection));
    assert_eq!(update(&mut m, Message::PrevLine, None), Some(Message::PrevSection));
}

#[test]
fn quit_sets_the_flag_and_nothing_else() {
    let mut m = model();
    assert_eq!(update(&mut m, Message::Quit, None), None);
    assert!(m.should_quit);
    assert_eq!(m.status, Status::Paused);
    assert_eq!(m.speed_millis, 100);
}

#[test]
fn speed_commands_step_and_clamp() {
    let mut m = model();
    assert_eq!(update(&mut m, Message::DecreaseSpeed, None), None);
    assert_eq!(m.speed_millis, 110);
    assert_eq!(update(&mut m, Message::IncreaseSpeed, None), None);
    assert_eq!(m.speed_millis, 100);
    m.speed_millis = 1995;
    update(&mut m, Message::DecreaseSpeed, None);
    assert_eq!(m.speed_millis, 2000);
    update(&mut m, Message::DecreaseSpeed, None);
    assert_eq!(m.speed_millis, 2000);
    m.speed_millis = 55;
    update(&mut m, Message::IncreaseSpeed, None);
    assert_eq!(m.speed_millis, 50);
    update(&mut m, Message::IncreaseSpeed, None);
    assert_eq!(m.speed_millis, 50);
}

#[test]
fn toggling_pauses_or_resumes_with_an_immediate_advance() {
    let mut m = model();
    assert_eq!(update(&mut m, Message::ToggleStatus, None), Some(Message::NextWord));
    assert_eq!(m.status, Status::Running);
    assert_eq!(update(&mut m, Message::ToggleStatus, None), None);
    assert_eq!(m.status, Status::Paused);
}

#[test]
fn selecting_a_toc_entry_jumps_and_pauses() {
    let mut m = model();
    m.status = Status::Running;
    let msg = Message::TableOfContentsMessage(TableOfContentsMessage::Select);
    assert_eq!(update(&mut m, msg, Some(1)), None);
    assert_eq!(m.status, Status::Paused);
    assert_eq!(m.cursor.section_index(), 1);
    // A selection outside the document moves nowhere.
    assert_eq!(update(&mut m, msg, Some(9)), None);
    assert_eq!(m.cursor.section_index(), 1);
    // The panel's own movement keys only pause the reader.
    m.status = Status::Running;
    let msg = Message::TableOfContentsMessage(TableOfContentsMessage::Down);
    assert_eq!(update(&mut m, msg, None), None);
    assert_eq!(m.status, Status::Paused);
    assert_eq!(m.cursor.section_index(), 1);
}

#[test]
fn the_event_loop_waits_out_the_rest_of_the_pace_interval() {
    assert_eq!(poll_timeout_millis(100, 30), 70);
    assert_eq!(poll_timeout_millis(100, 100), 0);
    assert_eq!(poll_timeout_millis(100, 150), 0);
}

#[test]
fn only_a_running_reader_advances_on_a_tick() {
    assert!(should_auto_advance(Status::Running, 100, 100));
    assert!(should_auto_advance(Status::Running, 100, 250));
    assert!(!should_auto_advance(Status::Running, 100, 99));
    assert!(!should_auto_advance(Status::Paused, 100, 250));
}

#[test]
fn parse_speed_reads_a_number_of_milliseconds() {
    assert_eq!(parse_speed("250"), Ok(250));
    assert_eq!(parse_speed("0"), Ok(0));
    assert_eq!(parse_speed("+30"), Ok(30));
    assert_eq!(parse_speed("007"), Ok(7));
}

#[test]
fn parse_speed_rejects_everything_else() {
    assert_eq!(parse_speed(""), Err(ParseSpeedError));
    assert_eq!(parse_speed("+"), Err(ParseSpeedError));
    assert_eq!(parse_speed("12a"), Err(ParseSpeedError));
    assert_eq!(parse_speed("-5"), Err(ParseSpeedError));
    assert_eq!(parse_speed(" 5"), Err(ParseSpeedError));
    assert_eq!(parse_speed("99999999999999999999999999"), Err(ParseSpeedError));
}

#[test]
fn split_word_singles_out_the_center_character() {
    assert_eq!(split_word("word"), (String::from("w"), String::from("o"), String::from("rd")));
    assert_eq!(split_word("a"), (String::new(), String::from("a"), String::new()));
    assert_eq!(split_word("abc"), (String::from("a"), String::from("b"), String::from("c")));
    assert_eq!(split_word("ab"), (String::new(), String::from("a"), String::from("b")));
}
