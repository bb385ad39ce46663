//! The Section Cursor: one section's indexed lines plus a live (line, word)
//! pointer, with word and line step operations. Steps that would leave the
//! section report a boundary instead of moving; the Document Cursor is the
//! component that crosses sections.

use vstd::prelude::*;

use crate::line::Line;
use crate::line::first_word_spec;
use crate::line::last_word_spec;
use crate::line::lemma_word_pos_spec;
use crate::line::line_matches;
use crate::line::line_next_spec;
use crate::line::line_prev_spec;
use crate::line::line_word_spec;
use crate::line::lines_match;
use crate::line::non_blank_lines;
use crate::line::word_pos_spec;
use crate::line::words_before;
use crate::text::lemma_token_count_snoc;
use crate::text::token_count;
use crate::text::tokens;

verus! {

/// The first word position of line `i`: the total number of words on the
/// lines before it.
pub open spec fn line_start(ls: Seq<Line>, i: int) -> nat
    decreases i,
{
    if i <= 0 {
        0
    } else {
        line_start(ls, i - 1) + ls[i - 1].word_indexes@.len()
    }
}

/// Line `i` of `ls` is well formed: it knows its own position, carries at
/// least one word, has exactly one position per token of its text, and its
/// positions continue the numbering of the lines before it.
pub open spec fn line_wf_at(ls: Seq<Line>, i: int) -> bool {
    let l = ls[i];
    &&& l.index == i
    &&& l.word_indexes@.len() >= 1
    &&& l.word_indexes@.len() == tokens(l.content@).len()
    &&& forall|j: int| 0 <= j < l.word_indexes@.len() ==> l.word_indexes@[j] == line_start(ls, i) + j
}

/// A well-formed line index: every line is well formed, so the word
/// positions of the whole section form one contiguous run starting at 0.
pub open spec fn lines_wf(ls: Seq<Line>) -> bool {
    forall|i: int| 0 <= i < ls.len() ==> #[trigger] line_wf_at(ls, i)
}

/// Line `i` carries the word position `w`.
pub open spec fn line_covers(ls: Seq<Line>, i: int, w: usize) -> bool {
    line_start(ls, i) <= w < line_start(ls, i) + ls[i].word_indexes@.len()
}

/// A full line index of a rendered text is well formed.
pub proof fn lemma_lines_match_wf(ls: Seq<Line>, s: Seq<char>)
    requires
        lines_match(ls, s),
    ensures
        lines_wf(ls),
{
    let nbl = non_blank_lines(s);
    assert forall|i: int| 0 <= i < ls.len() implies #[trigger] line_wf_at(ls, i) by {
        crate::text::split_lines(s).lemma_filter_pred(|l: Seq<char>| !crate::text::is_blank(l), i);
        assert(tokens(nbl[i]).len() > 0);
        lemma_line_start_is_words_before(ls, s, i);
        assert(line_matches(ls[i], nbl[i], i, words_before(nbl, i)));
    }
}

proof fn lemma_line_start_is_words_before(ls: Seq<Line>, s: Seq<char>, i: int)
    requires
        lines_match(ls, s),
        0 <= i < ls.len(),
    ensures
        line_start(ls, i) == words_before(non_blank_lines(s), i),
    decreases i,
{
    let nbl = non_blank_lines(s);
    if i == 0 {
        assert(nbl.take(0) =~~= Seq::<Seq<char>>::empty());
    } else {
        lemma_line_start_is_words_before(ls, s, i - 1);
        assert(nbl.take(i) =~~= nbl.take(i - 1).push(nbl[i - 1]));
        lemma_token_count_snoc(nbl.take(i - 1), nbl[i - 1]);
        assert(line_matches(ls[i - 1], nbl[i - 1], i - 1, words_before(nbl, i - 1)));
    }
}

/// Where the line step operation takes the pointer `(li, wi)`: one line
/// forward, snapping the word to the first word of that line, or a report of
/// the section boundary.
pub open spec fn next_line_step(ls: Seq<Line>, li: usize, wi: usize) -> (int, usize, bool) {
    if li + 1 < ls.len() {
        (li + 1, first_word_spec(ls[li + 1]), true)
    } else {
        (li as int, wi, false)
    }
}

/// One line backward, snapping the word to the last word of that line, or a
/// report of the section boundary.
pub open spec fn prev_line_step(ls: Seq<Line>, li: usize, wi: usize) -> (int, usize, bool) {
    if li == 0 {
        (li as int, wi, false)
    } else {
        (li - 1, last_word_spec(ls[li - 1]), true)
    }
}

/// One word forward within the current line, chaining to the line step when
/// the line has no next word.
pub open spec fn next_word_step(ls: Seq<Line>, li: usize, wi: usize) -> (int, usize, bool) {
    if li < ls.len() && line_next_spec(ls[li as int], wi) is Some {
        (li as int, line_next_spec(ls[li as int], wi).unwrap(), true)
    } else {
        next_line_step(ls, li, wi)
    }
}

/// One word backward within the current line, chaining to the line step when
/// the line has no previous word.
pub open spec fn prev_word_step(ls: Seq<Line>, li: usize, wi: usize) -> (int, usize, bool) {
    if li < ls.len() && line_prev_spec(ls[li as int], wi) is Some {
        (li as int, line_prev_spec(ls[li as int], wi).unwrap(), true)
    } else {
        prev_line_step(ls, li, wi)
    }
}

/// In a run of positions `start .. start + ws.len()`, a position is found
/// exactly where it lies in the run.
pub proof fn lemma_word_pos_contiguous(ws: Seq<usize>, start: nat, w: usize)
    requires
        forall|j: int| 0 <= j < ws.len() ==> ws[j] == start + j,
    ensures
        word_pos_spec(ws, w) == if start <= w < start + ws.len() {
            Some(w - start)
        } else {
            None::<int>
        },
{
    lemma_word_pos_spec(ws, w);
    if start <= w < start + ws.len() {
        let k0 = w - start;
        assert(ws[k0] == w);
        match word_pos_spec(ws, w) {
            Some(j) => {
                assert(ws[j] == w);
            },
            None => {
                assert(false);
            },
        }
    } else {
        match word_pos_spec(ws, w) {
            Some(j) => {
                assert(ws[j] == start + j);
                assert(false);
            },
            None => {},
        }
    }
}

/// Later lines start at or after where earlier lines end.
pub proof fn lemma_line_start_mono(ls: Seq<Line>, i: int, j: int)
    requires
        0 <= i < j <= ls.len(),
    ensures
        line_start(ls, j) >= line_start(ls, i) + ls[i].word_indexes@.len(),
    decreases j - i,
{
    if j == i + 1 {
    } else {
        lemma_line_start_mono(ls, i, j - 1);
    }
}

/// In a well-formed line index, at most one line carries a given word
/// position.
pub proof fn lemma_covers_unique(ls: Seq<Line>, i: int, j: int, w: usize)
    requires
        lines_wf(ls),
        0 <= i < ls.len(),
        0 <= j < ls.len(),
        line_covers(ls, i, w),
        line_covers(ls, j, w),
    ensures
        i == j,
{
    if i < j {
        lemma_line_start_mono(ls, i, j);
        assert(line_wf_at(ls, i));
        assert(line_wf_at(ls, j));
    } else if j < i {
        lemma_line_start_mono(ls, j, i);
        assert(line_wf_at(ls, i));
        assert(line_wf_at(ls, j));
    }
}

/// Law: within every line of a well-formed index the word positions are
/// strictly increasing, and the position ranges of consecutive lines do not
/// overlap.
pub proof fn lemma_word_positions_ordered(ls: Seq<Line>)
    requires
        lines_wf(ls),
    ensures
        forall|i: int, j1: int, j2: int|
            0 <= i < ls.len() && 0 <= j1 < j2 < ls[i].word_indexes@.len()
                ==> ls[i].word_indexes@[j1] < ls[i].word_indexes@[j2],
        forall|i: int|
            0 <= i < ls.len() - 1 ==> last_word_spec(#[trigger] ls[i]) < first_word_spec(ls[i + 1]),
{
    assert forall|i: int, j1: int, j2: int|
        0 <= i < ls.len() && 0 <= j1 < j2 < ls[i].word_indexes@.len() implies ls[i].word_indexes@[j1]
        < ls[i].word_indexes@[j2] by {
        assert(line_wf_at(ls, i));
    }
    assert forall|i: int| 0 <= i < ls.len() - 1 implies last_word_spec(#[trigger] ls[i])
        < first_word_spec(ls[i + 1]) by {
        assert(line_wf_at(ls, i));
        assert(line_wf_at(ls, i + 1));
        assert(last_word_spec(ls[i]) == line_start(ls, i) + ls[i].word_indexes@.len() - 1);
        assert(first_word_spec(ls[i + 1]) == line_start(ls, i + 1));
    }
}

/// Law: a word step forward followed by a word step backward returns to the
/// original (line, word) pointer, whenever the cursor stands on a word of its
/// line and the forward step does not cross the section boundary.
pub proof fn lemma_next_then_prev_word(ls: Seq<Line>, li: usize, wi: usize)
    requires
        lines_wf(ls),
        li < ls.len(),
        line_covers(ls, li as int, wi),
        next_word_step(ls, li, wi).2,
    ensures
        ({
            let (li1, wi1, _) = next_word_step(ls, li, wi);
            prev_word_step(ls, li1 as usize, wi1) == (li as int, wi, true)
        }),
{
    let l = ls[li as int];
    let start = line_start(ls, li as int);
    let len = l.word_indexes@.len();
    assert(line_wf_at(ls, li as int));
    lemma_word_pos_contiguous(l.word_indexes@, start, wi);
    let pos = wi - start;
    if pos + 1 < len {
        // The forward step stays on the same line.
        assert(line_next_spec(l, wi) == Some(l.word_indexes@[pos + 1]));
        let wi1 = l.word_indexes@[pos + 1];
        assert(wi1 == wi + 1);
        lemma_word_pos_contiguous(l.word_indexes@, start, wi1);
        assert(line_prev_spec(l, wi1) == Some(l.word_indexes@[pos]));
    } else {
        // The forward step crosses to the first word of the next line.
        assert(line_next_spec(l, wi) is None);
        assert(li + 1 < ls.len());
        let l2 = ls[li + 1];
        let start2 = line_start(ls, li + 1);
        assert(line_wf_at(ls, li + 1));
        assert(start2 == start + len);
        assert(first_word_spec(l2) == start2);
        let wi1 = first_word_spec(l2);
        lemma_word_pos_contiguous(l2.word_indexes@, start2, wi1);
        assert(line_prev_spec(l2, wi1) is None);
        assert(last_word_spec(l) == l.word_indexes@[len - 1]);
        assert(last_word_spec(l) == wi);
    }
}

/// Law: a word step forward from the last word of the last line reports the
/// section boundary and leaves the pointer where it was.
pub proof fn lemma_next_word_at_section_end(ls: Seq<Line>, li: usize, wi: usize)
    requires
        lines_wf(ls),
        ls.len() > 0,
        li == ls.len() - 1,
        wi == last_word_spec(ls[li as int]),
    ensures
        next_word_step(ls, li, wi) == (li as int, wi, false),
{
    let l = ls[li as int];
    let start = line_start(ls, li as int);
    let len = l.word_indexes@.len();
    assert(line_wf_at(ls, li as int));
    assert(wi == l.word_indexes@[len - 1]);
    lemma_word_pos_contiguous(l.word_indexes@, start, wi);
    assert(line_next_spec(l, wi) is None);
}

/// The first line at or after `i` whose word-position range contains `w`,
/// going by the line's own first and last positions.
pub open spec fn find_line(ls: Seq<Line>, w: usize, i: int) -> Option<int>
    decreases ls.len() - i,
{
    if i < 0 || i >= ls.len() {
        None
    } else if first_word_spec(ls[i]) <= w && w <= last_word_spec(ls[i]) {
        Some(i)
    } else {
        find_line(ls, w, i + 1)
    }
}

/// Where the cursor's line pointer lands after a reflow: the line whose range
/// contains the preserved word position, or line 0 if none does.
pub open spec fn relocate_spec(ls: Seq<Line>, w: usize) -> int {
    match find_line(ls, w, 0) {
        Some(i) => i,
        None => 0,
    }
}

/// The text of the word at global position `w` anywhere in the section.
pub open spec fn word_text(ls: Seq<Line>, w: usize) -> Option<Seq<char>> {
    match find_line(ls, w, 0) {
        Some(i) => line_word_spec(ls[i], w),
        None => None,
    }
}

/// `find_line` finds the first line whose range contains `w`, and finds one
/// whenever one exists.
pub proof fn lemma_find_line(ls: Seq<Line>, w: usize, i: int)
    requires
        0 <= i <= ls.len(),
    ensures
        match find_line(ls, w, i) {
            Some(k) => i <= k < ls.len() && first_word_spec(ls[k]) <= w <= last_word_spec(ls[k])
                && forall|m: int|
                i <= m < k ==> !(first_word_spec(#[trigger] ls[m]) <= w <= last_word_spec(ls[m])),
            None => forall|m: int|
                i <= m < ls.len() ==> !(first_word_spec(#[trigger] ls[m]) <= w <= last_word_spec(
                    ls[m],
                )),
        },
    decreases ls.len() - i,
{
    if i == ls.len() {
    } else if first_word_spec(ls[i]) <= w && w <= last_word_spec(ls[i]) {
    } else {
        lemma_find_line(ls, w, i + 1);
    }
}

/// In a well-formed line index, a line's own first and last positions bound
/// exactly the positions it covers.
pub proof fn lemma_range_is_covers(ls: Seq<Line>, i: int, w: usize)
    requires
        lines_wf(ls),
        0 <= i < ls.len(),
    ensures
        (first_word_spec(ls[i]) <= w <= last_word_spec(ls[i])) == line_covers(ls, i, w),
{
    assert(line_wf_at(ls, i));
    let l = ls[i];
    let len = l.word_indexes@.len();
    assert(first_word_spec(l) == l.word_indexes@[0]);
    assert(last_word_spec(l) == l.word_indexes@[len - 1]);
}

/// Law: a reflow preserves the word under the cursor. If the cursor stands
/// on a word of a well-formed index, and the re-segmented index still has a
/// word at the same global position with the same text, then reading the word
/// after relocating the line pointer yields that same text.
pub proof fn lemma_reflow_preserves_word(ls1: Seq<Line>, li1: usize, ls2: Seq<Line>, w: usize)
    requires
        lines_wf(ls1),
        lines_wf(ls2),
        li1 < ls1.len(),
        line_covers(ls1, li1 as int, w),
        word_text(ls2, w) is Some,
        word_text(ls2, w) == word_text(ls1, w),
    ensures
        ({
            let li2 = relocate_spec(ls2, w);
            &&& 0 <= li2 < ls2.len()
            &&& line_word_spec(ls2[li2], w) is Some
            &&& line_word_spec(ls2[li2], w) == line_word_spec(ls1[li1 as int], w)
        }),
{
    lemma_find_line(ls1, w, 0);
    lemma_find_line(ls2, w, 0);
    lemma_range_is_covers(ls1, li1 as int, w);
    match find_line(ls1, w, 0) {
        Some(k1) => {
            lemma_range_is_covers(ls1, k1, w);
            lemma_covers_unique(ls1, k1, li1 as int, w);
        },
        None => {
            assert(first_word_spec(ls1[li1 as int]) <= w <= last_word_spec(ls1[li1 as int]));
            assert(false);
        },
    }
}

/// Finds the line whose word-position range contains `w`, falling back to
/// line 0 when none does.
fn find_line_index(ls: &Vec<Line>, w: usize) -> (r: usize)
    ensures
        r == relocate_spec(ls@, w),
        ls@.len() == 0 ==> r == 0,
        ls@.len() > 0 ==> r < ls@.len(),
{
    let n = ls.len();
    let mut i: usize = 0;
    while i < n
        invariant
            i <= n,
            n == ls@.len(),
            forall|m: int|
                0 <= m < i ==> !(first_word_spec(#[trigger] ls@[m]) <= w <= last_word_spec(ls@[m])),
        decreases n - i,
    {
        let first = ls[i].first_word_index();
        let last = ls[i].last_word_index();
        if first <= w && w <= last {
            proof {
                lemma_find_line(ls@, w, 0);
                match find_line(ls@, w, 0) {
                    Some(k) => {
                        assert(!(k < i));
                        assert(!(k > i));
                    },
                    None => {
                        assert(!(first_word_spec(ls@[i as int]) <= w <= last_word_spec(
                            ls@[i as int],
                        )));
                    },
                }
            }
            return i;
        }
        i = i + 1;
    }
    proof {
        lemma_find_line(ls@, w, 0);
    }
    0
}

/// What a reflow of `old_sc` at width `size` produces: the same section and
/// payload, re-rendered and re-indexed, with the word position preserved and
/// the line pointer relocated to the line that carries it.
pub open spec fn reflow_post(old_sc: SectionCursor, c: SectionCursor, size: usize) -> bool {
    &&& c.index == old_sc.index
    &&& c.raw_content@ == old_sc.raw_content@
    &&& c.size == size
    &&& c.linked()
    &&& c.wf()
    &&& c.content@ == if crate::render::renders(old_sc.raw_content@, size as nat) {
        crate::render::rendered_of(old_sc.raw_content@, size as nat)
    } else {
        Seq::<char>::empty()
    }
    &&& c.word_index == old_sc.word_index
    &&& c.line_index == relocate_spec(c.lines@, old_sc.word_index)
}

/// One section of a document: its rendered text, the raw payload it was
/// rendered from, its indexed lines, and a live (line, word) pointer.
pub struct SectionCursor {
    /// The section's position in the document.
    pub index: usize,
    /// The rendered text of the section at width `size`.
    pub content: String,
    /// The raw payload, retained so the section can be re-rendered at a
    /// different width without refetching it.
    pub raw_content: Vec<u8>,
    /// The indexed non-blank lines of `content`.
    pub lines: Vec<Line>,
    /// The global (section-local) word position under the cursor.
    pub word_index: usize,
    /// The line the cursor stands on.
    pub line_index: usize,
    /// The rendering width `content` was produced at.
    pub size: usize,
}

impl SectionCursor {
    /// The cursor's structural invariant: the line index is well formed and
    /// the line pointer stays in range (0 for a section with no lines).
    pub open spec fn wf(self) -> bool {
        &&& lines_wf(self.lines@)
        &&& if self.lines@.len() == 0 {
            self.line_index == 0
        } else {
            self.line_index < self.lines@.len()
        }
    }

    /// The lines really index the rendered text of this cursor.
    pub open spec fn linked(self) -> bool {
        lines_match(self.lines@, self.content@)
    }

    /// The text under the cursor, if the current line carries the cursor's
    /// word position.
    pub open spec fn word_under_cursor(self) -> Option<Seq<char>> {
        if self.line_index < self.lines@.len() {
            line_word_spec(self.lines@[self.line_index as int], self.word_index)
        } else {
            None
        }
    }

    /// Indexes a section from its already rendered text. The cursor starts
    /// on line 0, at the first word of that line (or the default position 0
    /// when the text has no indexed line).
    pub fn from_text(number: usize, content: String, raw_content: Vec<u8>, size: usize) -> (c: Self)
        ensures
            c.index == number,
            c.content == content,
            c.raw_content == raw_content,
            c.size == size,
            c.line_index == 0,
            c.linked(),
            c.wf(),
            c.word_index == if c.lines@.len() > 0 {
                first_word_spec(c.lines@[0])
            } else {
                0usize
            },
    {
        let indexed = crate::line::lines(content.clone());
        proof {
            lemma_lines_match_wf(indexed@, content@);
        }
        let word_index = if indexed.len() > 0 {
            indexed[0].first_word_index()
        } else {
            0
        };
        SectionCursor {
            index: number,
            content,
            raw_content,
            lines: indexed,
            word_index,
            line_index: 0,
            size,
        }
    }

    /// Renders a section's raw payload at width `size` and indexes the
    /// result. A payload the renderer cannot handle yields the empty section
    /// (no text, no lines), leaving the payload in place so a later reflow
    /// can try again.
    pub fn new(number: usize, raw_content: Vec<u8>, size: usize) -> (c: Self)
        requires
            size >= 1,
        ensures
            c.index == number,
            c.raw_content == raw_content,
            c.size == size,
            c.line_index == 0,
            c.linked(),
            c.wf(),
            c.content@ == if crate::render::renders(raw_content@, size as nat) {
                crate::render::rendered_of(raw_content@, size as nat)
            } else {
                Seq::<char>::empty()
            },
            c.word_index == if c.lines@.len() > 0 {
                first_word_spec(c.lines@[0])
            } else {
                0usize
            },
    {
        match crate::render::render_text(&raw_content, size) {
            Some(text) => Self::from_text(number, text, raw_content, size),
            None => Self::from_text(number, String::new(), raw_content, size),
        }
    }

    /// Moves the cursor to the global word position `w`, relocating the line
    /// pointer to the line that carries it (line 0 if none does).
    pub fn seek_word(&mut self, w: usize)
        requires
            old(self).wf(),
        ensures
            final(self).wf(),
            final(self).lines == old(self).lines,
            final(self).content == old(self).content,
            final(self).raw_content == old(self).raw_content,
            final(self).index == old(self).index,
            final(self).size == old(self).size,
            final(self).word_index == w,
            final(self).line_index == relocate_spec(final(self).lines@, w),
    {
        self.word_index = w;
        self.line_index = find_line_index(&self.lines, w);
    }

    /// Rebuilds the section at a new width, preserving the global word
    /// position under the cursor and relocating the line pointer to the line
    /// that carries it (line 0 if none does).
    pub fn from_resize(other: &Self, size: usize) -> (c: Self)
        requires
            size >= 1,
        ensures
            reflow_post(*other, c, size),
    {
        let raw = vstd::slice::slice_to_vec(other.raw_content.as_slice());
        let mut result = Self::new(other.index, raw, size);
        result.seek_word(other.word_index);
        result
    }

    /// The word position under the cursor.
    pub fn word_index(&self) -> (r: usize)
        ensures
            r == self.word_index,
    {
        self.word_index
    }

    /// The line at `index`, if the section has one.
    pub fn line(&self, index: usize) -> (r: Option<&Line>)
        ensures
            match r {
                Some(l) => index < self.lines@.len() && *l == self.lines@[index as int],
                None => index >= self.lines@.len(),
            },
    {
        if index < self.lines.len() {
            Some(&self.lines[index])
        } else {
            None
        }
    }

    /// The line under the cursor, if the section has any line.
    pub fn current_line(&self) -> (r: Option<&Line>)
        ensures
            match r {
                Some(l) => self.line_index < self.lines@.len() && *l == self.lines@[self.line_index as int],
                None => self.line_index >= self.lines@.len(),
            },
    {
        self.line(self.line_index)
    }

    /// The text of the word under the cursor, if the current line carries
    /// the cursor's word position.
    pub fn current_word(&self) -> (r: Option<String>)
        ensures
            match r {
                Some(s) => self.word_under_cursor() == Some(s@),
                None => self.word_under_cursor() is None,
            },
    {
        match self.current_line() {
            Some(l) => l.current_word(self.word_index),
            None => None,
        }
    }

    /// Moves one word forward, through the line's word positions and then by
    /// line; reports `false`, and stays, at the section boundary.
    pub fn next_word(&mut self) -> (r: bool)
        requires
            old(self).wf(),
        ensures
            final(self).wf(),
            final(self).lines == old(self).lines,
            final(self).content == old(self).content,
            final(self).raw_content == old(self).raw_content,
            final(self).index == old(self).index,
            final(self).size == old(self).size,
            ({
                let (li, wi, moved) = next_word_step(
                    old(self).lines@,
                    old(self).line_index,
                    old(self).word_index,
                );
                final(self).line_index == li && final(self).word_index == wi && r == moved
            }),
    {
        let step = match self.current_line() {
            Some(l) => l.next_word(self.word_index),
            None => None,
        };
        if let Some(w) = step {
            self.word_index = w;
            true
        } else {
            self.next_line()
        }
    }

    /// Moves one word backward, through the line's word positions and then by
    /// line; reports `false`, and stays, at the section boundary.
    pub fn prev_word(&mut self) -> (r: bool)
        requires
            old(self).wf(),
        ensures
            final(self).wf(),
            final(self).lines == old(self).lines,
            final(self).content == old(self).content,
            final(self).raw_content == old(self).raw_content,
            final(self).index == old(self).index,
            final(self).size == old(self).size,
            ({
                let (li, wi, moved) = prev_word_step(
                    old(self).lines@,
                    old(self).line_index,
                    old(self).word_index,
                );
                final(self).line_index == li && final(self).word_index == wi && r == moved
            }),
    {
        let step = match self.current_line() {
            Some(l) => l.prev_word(self.word_index),
            None => None,
        };
        if let Some(w) = step {
            self.word_index = w;
            true
        } else {
            self.prev_line()
        }
    }

    /// Moves the line pointer one line forward, snapping the word to the
    /// first word of the new line; reports `false`, and stays, at the
    /// section boundary.
    pub fn next_line(&mut self) -> (r: bool)
        requires
            old(self).wf(),
        ensures
            final(self).wf(),
            final(self).lines == old(self).lines,
            final(self).content == old(self).content,
            final(self).raw_content == old(self).raw_content,
            final(self).index == old(self).index,
            final(self).size == old(self).size,
            ({
                let (li, wi, moved) = next_line_step(
                    old(self).lines@,
                    old(self).line_index,
                    old(self).word_index,
                );
                final(self).line_index == li && final(self).word_index == wi && r == moved
            }),
    {
        let n = self.lines.len();
        if self.line_index >= n || self.line_index + 1 >= n {
            return false;
        }
        self.line_index = self.line_index + 1;
        let fw = match self.current_line() {
            Some(l) => l.first_word_index(),
            None => 0,
        };
        self.word_index = fw;
        true
    }

    /// Moves the line pointer one line backward, snapping the word to the
    /// last word of the new line; reports `false`, and stays, at the section
    /// boundary.
    pub fn prev_line(&mut self) -> (r: bool)
        requires
            old(self).wf(),
        ensures
            final(self).wf(),
            final(self).lines == old(self).lines,
            final(self).content == old(self).content,
            final(self).raw_content == old(self).raw_content,
            final(self).index == old(self).index,
            final(self).size == old(self).size,
            ({
                let (li, wi, moved) = prev_line_step(
                    old(self).lines@,
                    old(self).line_index,
                    old(self).word_index,
                );
                final(self).line_index == li && final(self).word_index == wi && r == moved
            }),
    {
        if self.line_index == 0 {
            return false;
        }
        self.line_index = self.line_index - 1;
        let lw = match self.current_line() {
            Some(l) => l.last_word_index(),
            None => 0,
        };
        self.word_index = lw;
        true
    }
}

impl Default for SectionCursor {
    /// The empty section: no text, no lines, the cursor at the default
    /// position.
    fn default() -> (c: Self)
        ensures
            c.index == 0,
            c.content@.len() == 0,
            c.raw_content@.len() == 0,
            c.lines@.len() == 0,
            c.word_index == 0,
            c.line_index == 0,
            c.size == 0,
            c.wf(),
            c.linked(),
    {
        let c = SectionCursor {
            index: 0,
            content: String::new(),
            raw_content: Vec::new(),
            lines: Vec::new(),
            word_index: 0,
            line_index: 0,
            size: 0,
        };
        proof {
            lemma_empty_text_has_no_lines(c.content@);
        }
        c
    }
}

/// Law: a text of nothing but blank lines indexes to no line at all; in
/// particular the empty text does.
pub proof fn lemma_empty_text_has_no_lines(s: Seq<char>)
    requires
        forall|i: int|
            0 <= i < crate::text::split_lines(s).len() ==> crate::text::is_blank(
                #[trigger] crate::text::split_lines(s)[i],
            ),
    ensures
        non_blank_lines(s).len() == 0,
{
    let parts = crate::text::split_lines(s);
    let pred = |l: Seq<char>| !crate::text::is_blank(l);
    lemma_all_blank_filter(parts, pred);
}

/// Law: a section whose rendered text is entirely blank lines indexes to
/// zero lines, and both the current line and the word under the cursor read
/// as none.
pub proof fn lemma_blank_section_reads_none(c: SectionCursor)
    requires
        c.linked(),
        forall|i: int|
            0 <= i < crate::text::split_lines(c.content@).len() ==> crate::text::is_blank(
                #[trigger] crate::text::split_lines(c.content@)[i],
            ),
    ensures
        c.lines@.len() == 0,
        c.word_under_cursor() is None,
        c.line_index >= c.lines@.len(),
{
    lemma_empty_text_has_no_lines(c.content@);
}

proof fn lemma_all_blank_filter(parts: Seq<Seq<char>>, pred: spec_fn(Seq<char>) -> bool)
    requires
        forall|i: int| 0 <= i < parts.len() ==> !pred(#[trigger] parts[i]),
    ensures
        parts.filter(pred).len() == 0,
    decreases parts.len(),
{
    reveal(Seq::filter);
    if parts.len() == 0 {
    } else {
        assert(!pred(parts.last()));
        lemma_all_blank_filter(parts.drop_last(), pred);
    }
}

} // verus!
