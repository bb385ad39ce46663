//! The reader's state machine: one update step per message, the pacing
//! decisions of the event loop, and the word-splitting helper of the focus
//! display. The presentation layer performs the terminal work and hands plain
//! values in.

use vstd::prelude::*;

use crate::digits::all_digits;
use crate::digits::dec_value;
use crate::digits::is_digit;
use crate::digits::parse_digits_u64;
use crate::digits::scan_digits;
use crate::doc::DocumentCursor;
use crate::doc::fresh_section;
use crate::section::SectionCursor;
use crate::section::next_line_step;
use crate::section::next_word_step;
use crate::section::prev_line_step;
use crate::section::prev_word_step;
use crate::text::chars_to_string;
use crate::text::str_to_chars;
use crate::text::sub_chars;

verus! {

/// The slowest pace, in milliseconds per word.
pub const MAX_SPEED_MILLIS: u64 = 2000;

/// The fastest pace, in milliseconds per word.
pub const MIN_SPEED_MILLIS: u64 = 50;

/// How much one speed command changes the pace.
pub const SPEED_STEP_MILLIS: u64 = 10;

/// Whether the reader advances on its own.
#[derive(Debug, PartialEq, Eq, Structural, Clone, Copy)]
pub enum Status {
    Running,
    Paused,
}

/// A command on the table-of-contents panel.
#[derive(Debug, PartialEq, Eq, Structural, Clone, Copy)]
pub enum TableOfContentsMessage {
    Select,
    Left,
    Right,
    Down,
    Up,
}

/// One command of the reader.
#[derive(Debug, PartialEq, Eq, Structural, Clone, Copy)]
pub enum Message {
    Quit,
    PrevWord,
    NextWord,
    PrevLine,
    NextLine,
    PrevSection,
    NextSection,
    IncreaseSpeed,
    DecreaseSpeed,
    ToggleStatus,
    TableOfContentsMessage(TableOfContentsMessage),
}

/// The reader's state: the document cursor, the pace, whether it is running,
/// and whether it should quit.
pub struct Model {
    /// Set by the quit command; the event loop stops on it.
    pub should_quit: bool,
    /// The cursor over the document.
    pub cursor: DocumentCursor,
    /// The pace: milliseconds per word while running.
    pub speed_millis: u64,
    /// Running or paused.
    pub status: Status,
}

/// The section cursor after a within-section step: only the (line, word)
/// pointer moved.
pub open spec fn stepped(old_sc: SectionCursor, new_sc: SectionCursor, li: int, wi: usize) -> bool {
    &&& new_sc.lines == old_sc.lines
    &&& new_sc.content == old_sc.content
    &&& new_sc.raw_content == old_sc.raw_content
    &&& new_sc.index == old_sc.index
    &&& new_sc.size == old_sc.size
    &&& new_sc.line_index == li
    &&& new_sc.word_index == wi
}

/// The document cursor after a section transition: forward or backward by
/// one, freshly materialized, or unchanged at the document's edge.
pub open spec fn section_shift(old_c: DocumentCursor, new_c: DocumentCursor, forward: bool) -> bool {
    let idx = old_c.current_section.index;
    let moved = if forward {
        idx + 1 < old_c.doc.sections@.len()
    } else {
        idx > 0 && old_c.doc.sections@.len() > 0
    };
    let target = if forward {
        idx + 1
    } else {
        idx - 1
    };
    &&& new_c.doc == old_c.doc
    &&& if moved {
        fresh_section(
            new_c.current_section,
            old_c.doc.sections@[target]@,
            target as usize,
            old_c.current_section.size,
        )
    } else {
        new_c.current_section == old_c.current_section
    }
}

/// One update step of the reader: applies `msg` to `model` and returns the
/// follow-up command, if the step chains into one. `toc_selected` is the
/// section index selected in the table-of-contents panel, for the select
/// command. Persisting the position on quit, timing, and the panel's own
/// cursor belong to the presentation layer.
pub fn update(model: &mut Model, msg: Message, toc_selected: Option<usize>) -> (r: Option<Message>)
    requires
        old(model).cursor.wf(),
    ensures
        final(model).cursor.wf(),
        ({
            let old_sc = old(model).cursor.current_section;
            let new_m = *final(model);
            let old_m = *old(model);
            match msg {
                Message::Quit => {
                    &&& new_m == Model { should_quit: true, ..old_m }
                    &&& r is None
                },
                Message::PrevWord => {
                    let (li, wi, moved) = prev_word_step(
                        old_sc.lines@,
                        old_sc.line_index,
                        old_sc.word_index,
                    );
                    &&& new_m.cursor.doc == old_m.cursor.doc
                    &&& stepped(old_sc, new_m.cursor.current_section, li, wi)
                    &&& new_m.should_quit == old_m.should_quit && new_m.speed_millis
                        == old_m.speed_millis && new_m.status == old_m.status
                    &&& r == if moved {
                        None::<Message>
                    } else {
                        Some(Message::PrevSection)
                    }
                },
                Message::NextWord => {
                    let (li, wi, moved) = next_word_step(
                        old_sc.lines@,
                        old_sc.line_index,
                        old_sc.word_index,
                    );
                    &&& new_m.cursor.doc == old_m.cursor.doc
                    &&& stepped(old_sc, new_m.cursor.current_section, li, wi)
                    &&& new_m.should_quit == old_m.should_quit && new_m.speed_millis
                        == old_m.speed_millis && new_m.status == old_m.status
                    &&& r == if moved {
                        None::<Message>
                    } else {
                        Some(Message::NextSection)
                    }
                },
                Message::PrevLine => {
                    let (li, wi, moved) = prev_line_step(
                        old_sc.lines@,
                        old_sc.line_index,
                        old_sc.word_index,
                    );
                    &&& new_m.cursor.doc == old_m.cursor.doc
                    &&& stepped(old_sc, new_m.cursor.current_section, li, wi)
                    &&& new_m.should_quit == old_m.should_quit && new_m.speed_millis
                        == old_m.speed_millis && new_m.status == old_m.status
                    &&& r == if moved {
                        None::<Message>
                    } else {
                        Some(Message::PrevSection)
                    }
                },
                Message::NextLine => {
                    let (li, wi, moved) = next_line_step(
                        old_sc.lines@,
                        old_sc.line_index,
                        old_sc.word_index,
                    );
                    &&& new_m.cursor.doc == old_m.cursor.doc
                    &&& stepped(old_sc, new_m.cursor.current_section, li, wi)
                    &&& new_m.should_quit == old_m.should_quit && new_m.speed_millis
                        == old_m.speed_millis && new_m.status == old_m.status
                    &&& r == if moved {
                        None::<Message>
                    } else {
                        Some(Message::NextSection)
                    }
                },
                Message::PrevSection => {
                    &&& section_shift(old_m.cursor, new_m.cursor, false)
                    &&& new_m.should_quit == old_m.should_quit && new_m.speed_millis
                        == old_m.speed_millis && new_m.status == old_m.status
                    &&& r is None
                },
                Message::NextSection => {
                    &&& section_shift(old_m.cursor, new_m.cursor, true)
                    &&& new_m.should_quit == old_m.should_quit && new_m.speed_millis
                        == old_m.speed_millis && new_m.status == old_m.status
                    &&& r is None
                },
                Message::DecreaseSpeed => {
                    &&& new_m == Model {
                        speed_millis: if old_m.speed_millis + SPEED_STEP_MILLIS
                            <= MAX_SPEED_MILLIS {
                            (old_m.speed_millis + SPEED_STEP_MILLIS) as u64
                        } else {
                            MAX_SPEED_MILLIS
                        },
                        ..old_m
                    }
                    &&& r is None
                },
                Message::IncreaseSpeed => {
                    &&& new_m == Model {
                        speed_millis: if old_m.speed_millis >= MIN_SPEED_MILLIS
                            + SPEED_STEP_MILLIS {
                            (old_m.speed_millis - SPEED_STEP_MILLIS) as u64
                        } else {
                            MIN_SPEED_MILLIS
                        },
                        ..old_m
                    }
                    &&& r is None
                },
                Message::ToggleStatus => {
                    if old_m.status == Status::Running {
                        &&& new_m == Model { status: Status::Paused, ..old_m }
                        &&& r is None
                    } else {
                        &&& new_m == Model { status: Status::Running, ..old_m }
                        &&& r == Some(Message::NextWord)
                    }
                },
                Message::TableOfContentsMessage(tm) => {
                    &&& r is None
                    &&& new_m.should_quit == old_m.should_quit && new_m.speed_millis
                        == old_m.speed_millis
                    &&& new_m.status == Status::Paused
                    &&& new_m.cursor.doc == old_m.cursor.doc
                    &&& match toc_selected {
                        Some(sel) => if tm == TableOfContentsMessage::Select {
                            if sel < old_m.cursor.doc.sections@.len() {
                                fresh_section(
                                    new_m.cursor.current_section,
                                    old_m.cursor.doc.sections@[sel as int]@,
                                    sel,
                                    old_sc.size,
                                )
                            } else {
                                new_m.cursor.current_section == old_sc
                            }
                        } else {
                            new_m.cursor.current_section == old_sc
                        },
                        None => new_m.cursor.current_section == old_sc,
                    }
                },
            }
        }),
{
    match msg {
        Message::Quit => {
            model.should_quit = true;
            None
        },
        Message::PrevWord => {
            if !model.cursor.current_section.prev_word() {
                Some(Message::PrevSection)
            } else {
                None
            }
        },
        Message::NextWord => {
            if !model.cursor.current_section.next_word() {
                Some(Message::NextSection)
            } else {
                None
            }
        },
        Message::PrevLine => {
            if !model.cursor.current_section.prev_line() {
                Some(Message::PrevSection)
            } else {
                None
            }
        },
        Message::NextLine => {
            if !model.cursor.current_section.next_line() {
                Some(Message::NextSection)
            } else {
                None
            }
        },
        Message::PrevSection => {
            model.cursor.prev_section();
            None
        },
        Message::NextSection => {
            model.cursor.next_section();
            None
        },
        Message::DecreaseSpeed => {
            model.speed_millis = if model.speed_millis <= MAX_SPEED_MILLIS - SPEED_STEP_MILLIS {
                model.speed_millis + SPEED_STEP_MILLIS
            } else {
                MAX_SPEED_MILLIS
            };
            None
        },
        Message::IncreaseSpeed => {
            model.speed_millis = if model.speed_millis >= MIN_SPEED_MILLIS + SPEED_STEP_MILLIS {
                model.speed_millis - SPEED_STEP_MILLIS
            } else {
                MIN_SPEED_MILLIS
            };
            None
        },
        Message::ToggleStatus => {
            match model.status {
                Status::Running => {
                    model.status = Status::Paused;
                    None
                },
                Status::Paused => {
                    model.status = Status::Running;
                    Some(Message::NextWord)
                },
            }
        },
        Message::TableOfContentsMessage(tm) => {
            model.status = Status::Paused;
            match tm {
                TableOfContentsMessage::Select => {
                    if let Some(sel) = toc_selected {
                        model.cursor.goto_section(sel);
                    }
                },
                _ => {},
            }
            None
        },
    }
}

/// How long the event loop may wait for input before the next pacing check:
/// the remainder of the pace interval.
pub fn poll_timeout_millis(speed_millis: u64, elapsed_millis: u64) -> (r: u64)
    ensures
        r == if elapsed_millis <= speed_millis {
            (speed_millis - elapsed_millis) as u64
        } else {
            0u64
        },
{
    if elapsed_millis <= speed_millis {
        speed_millis - elapsed_millis
    } else {
        0
    }
}

/// Whether a wait that saw no input advances the reader by one word: only
/// while running, and only once the pace interval has elapsed.
pub fn should_auto_advance(status: Status, speed_millis: u64, elapsed_millis: u64) -> (r: bool)
    ensures
        r == (status == Status::Running && elapsed_millis >= speed_millis),
{
    status == Status::Running && elapsed_millis >= speed_millis
}

/// The pace argument failed to parse as a number of milliseconds.
#[derive(Debug, PartialEq, Eq, Structural, Clone, Copy)]
pub struct ParseSpeedError;

/// The digits of a pace argument: an optional leading plus sign is allowed.
pub open spec fn speed_digits(s: Seq<char>) -> Seq<char> {
    if s.len() > 0 && s[0] == '+' {
        s.drop_first()
    } else {
        s
    }
}

/// Parses the pace argument: a whole number of milliseconds per word, with
/// an optional leading plus sign. Rejects everything else, including values
/// too large to represent.
pub fn parse_speed(arg: &str) -> (r: Result<u64, ParseSpeedError>)
    ensures
        match r {
            Ok(v) => all_digits(speed_digits(arg@)) && v == dec_value(speed_digits(arg@)),
            Err(e) => !all_digits(speed_digits(arg@)) || dec_value(speed_digits(arg@)) > u64::MAX,
        },
{
    let chars = str_to_chars(arg);
    let n = chars.len();
    let ghost digits = speed_digits(arg@);
    let start: usize = if n > 0 && chars[0] == '+' {
        1
    } else {
        0
    };
    proof {
        assert(digits =~= chars@.subrange(start as int, n as int));
    }
    let j = scan_digits(&chars, start);
    if j == start || j < n {
        proof {
            if all_digits(digits) {
                assert(digits[j - start] == chars@[j as int]);
                assert(is_digit(digits[j - start]));
            }
        }
        return Err(ParseSpeedError);
    }
    match parse_digits_u64(&chars, start, n) {
        Some(v) => {
            proof {
                assert(forall|i: int| 0 <= i < digits.len() ==> is_digit(#[trigger] digits[i]));
            }
            Ok(v)
        },
        None => Err(ParseSpeedError),
    }
}

/// Splits a word around its center character for the focus display: the
/// characters before the center, the center itself, and those after it.
pub fn split_word(word: &str) -> (r: (String, String, String))
    requires
        word@.len() >= 1,
    ensures
        ({
            let mid = (word@.len() - 1) / 2;
            &&& r.0@ == word@.subrange(0, mid)
            &&& r.1@ == seq![word@[mid]]
            &&& r.2@ == word@.subrange(mid + 1, word@.len() as int)
        }),
{
    let chars = str_to_chars(word);
    let n = chars.len();
    let mid = (n - 1) / 2;
    let first = sub_chars(&chars, 0, mid);
    let center = sub_chars(&chars, mid, mid + 1);
    let second = sub_chars(&chars, mid + 1, n);
    proof {
        assert(center@ =~= seq![word@[(word@.len() - 1) / 2]]);
    }
    (chars_to_string(&first), chars_to_string(&center), chars_to_string(&second))
}

} // verus!
