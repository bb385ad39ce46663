//! The Document Cursor: it owns the opened document's content, keeps exactly
//! one materialized Section Cursor at a time, drives section transitions and
//! lazy re-rendering, and resolves the current position against the table of
//! contents.

use vstd::prelude::*;

use crate::line::first_word_spec;
use crate::render::rendered_of;
use crate::section::SectionCursor;
use crate::section::reflow_post;
use crate::section::relocate_spec;
use crate::state::DocState;
use crate::toc::TableOfContentNode;
use crate::toc::toc_path;

verus! {

/// A section that could not be fetched or read.
pub struct PageError;

/// One rendered content block of a document.
pub struct Page {
    /// The block's position in the document.
    pub number: usize,
    /// Its rendered text.
    pub content: String,
}

/// A source of content blocks, fetched one at a time by position.
pub trait Document {
    /// The rendered block at `number`, or an error local to that block.
    fn page(&mut self, number: usize) -> Result<Page, PageError>;
}

/// The content of an opened document, as the cursor reads it: the raw
/// payload of every section, the document's stable identity, and its table
/// of contents.
pub struct DocSource {
    /// The raw payload of each section, in reading order.
    pub sections: Vec<Vec<u8>>,
    /// The document's stable identifier.
    pub identifier: String,
    /// The table of contents.
    pub toc: Vec<TableOfContentNode>,
}

/// A freshly materialized section: rendered from the document's payload at
/// `idx` with width `size`, cursor on line 0 at its first word.
pub open spec fn fresh_section(sc: SectionCursor, raw: Seq<u8>, idx: usize, size: usize) -> bool {
    &&& sc.index == idx
    &&& sc.raw_content@ == raw
    &&& sc.size == size
    &&& sc.line_index == 0
    &&& sc.wf()
    &&& sc.linked()
    &&& sc.content@ == if crate::render::renders(raw, size as nat) {
        rendered_of(raw, size as nat)
    } else {
        Seq::<char>::empty()
    }
    &&& sc.word_index == if sc.lines@.len() > 0 {
        first_word_spec(sc.lines@[0])
    } else {
        0usize
    }
}

/// The cursor over a whole document: the document content and the one live
/// Section Cursor.
pub struct DocumentCursor {
    /// The opened document.
    pub doc: DocSource,
    /// The materialized cursor for the section the reader stands in.
    pub current_section: SectionCursor,
}

impl DocumentCursor {
    /// The cursor's invariant: the live section is well formed, belongs to
    /// the document, and holds the payload of the section it points at.
    pub open spec fn wf(self) -> bool {
        if self.doc.sections@.len() == 0 {
            &&& self.current_section.index == 0
            &&& self.current_section.wf()
            &&& self.current_section.linked()
            &&& self.current_section.lines@.len() == 0
            &&& self.current_section.content@.len() == 0
        } else {
            &&& self.current_section.index < self.doc.sections@.len()
            &&& self.current_section.wf()
            &&& self.current_section.linked()
            &&& self.current_section.size >= 1
            &&& self.current_section.raw_content@ == self.doc.sections@[self.current_section.index as int]@
            &&& self.current_section.content@ == if crate::render::renders(
                self.current_section.raw_content@,
                self.current_section.size as nat,
            ) {
                rendered_of(self.current_section.raw_content@, self.current_section.size as nat)
            } else {
                Seq::<char>::empty()
            }
        }
    }

    /// Opens a cursor over `doc` at a saved position: the saved section (or
    /// the first, when the saved index points outside the document),
    /// rendered at the default width, with the cursor seeking the saved
    /// word.
    pub fn new(doc: DocSource, doc_state: DocState) -> (c: Self)
        ensures
            c.wf(),
            c.doc == doc,
            doc.sections@.len() > 0 ==> {
                &&& c.current_section.index == if doc_state.section_index < doc.sections@.len() {
                    doc_state.section_index
                } else {
                    0usize
                }
                &&& c.current_section.size == 80
                &&& c.current_section.word_index == doc_state.word_index
                &&& c.current_section.line_index == relocate_spec(
                    c.current_section.lines@,
                    doc_state.word_index,
                )
            },
    {
        if doc.sections.len() == 0 {
            return DocumentCursor { doc, current_section: SectionCursor::default() };
        }
        let idx = if doc_state.section_index < doc.sections.len() {
            doc_state.section_index
        } else {
            0
        };
        let raw = vstd::slice::slice_to_vec(doc.sections[idx].as_slice());
        let mut section = SectionCursor::new(idx, raw, 80);
        section.seek_word(doc_state.word_index);
        DocumentCursor { doc, current_section: section }
    }

    /// The index of the section the reader stands in.
    pub fn section_index(&self) -> (r: usize)
        ensures
            r == self.current_section.index,
    {
        self.current_section.index
    }

    /// The number of sections of the document.
    pub fn sections(&self) -> (r: usize)
        ensures
            r == self.doc.sections@.len(),
    {
        self.doc.sections.len()
    }

    /// The live Section Cursor, for navigation within the section.
    pub fn current_section(&mut self) -> (sc: &mut SectionCursor)
        ensures
            *sc == old(self).current_section,
            final(self).doc == old(self).doc,
            final(self).current_section == *final(sc),
    {
        &mut self.current_section
    }

    /// The live Section Cursor, re-rendered at `size` first when the
    /// rendering width changed: the single path by which the presentation
    /// layer reads section content, so resizing is lazy and on demand.
    pub fn current_section_or_resize(&mut self, size: usize) -> (sc: &SectionCursor)
        requires
            old(self).wf(),
            size >= 1,
        ensures
            final(self).wf(),
            final(self).doc == old(self).doc,
            *sc == final(self).current_section,
            (old(self).current_section.size == size || old(self).doc.sections@.len() == 0)
                ==> final(self).current_section == old(self).current_section,
            (old(self).current_section.size != size && old(self).doc.sections@.len() > 0)
                ==> reflow_post(old(self).current_section, final(self).current_section, size),
    {
        if self.doc.sections.len() > 0 && self.current_section.size != size {
            self.current_section = SectionCursor::from_resize(&self.current_section, size);
        }
        &self.current_section
    }

    /// Materializes the section at `index`, rendered at the width in use.
    fn load_section(&mut self, index: usize)
        requires
            old(self).wf(),
            old(self).doc.sections@.len() > 0,
            index < old(self).doc.sections@.len(),
        ensures
            final(self).wf(),
            final(self).doc == old(self).doc,
            fresh_section(
                final(self).current_section,
                old(self).doc.sections@[index as int]@,
                index,
                old(self).current_section.size,
            ),
    {
        let raw = vstd::slice::slice_to_vec(self.doc.sections[index].as_slice());
        let size = self.current_section.size;
        self.current_section = SectionCursor::new(index, raw, size);
    }

    /// Jumps to the section at `index`: reports `false`, and stays, when the
    /// document has no such section.
    pub fn goto_section(&mut self, index: usize) -> (r: bool)
        requires
            old(self).wf(),
        ensures
            final(self).wf(),
            final(self).doc == old(self).doc,
            r == (index < old(self).doc.sections@.len()),
            !r ==> final(self).current_section == old(self).current_section,
            r ==> fresh_section(
                final(self).current_section,
                old(self).doc.sections@[index as int]@,
                index,
                old(self).current_section.size,
            ),
    {
        if index < self.doc.sections.len() {
            self.load_section(index);
            true
        } else {
            false
        }
    }

    /// Moves to the next section: reports `false`, and stays, at the end of
    /// the document. This is the terminal condition of a whole read.
    pub fn next_section(&mut self) -> (r: bool)
        requires
            old(self).wf(),
        ensures
            final(self).wf(),
            final(self).doc == old(self).doc,
            r == (old(self).current_section.index + 1 < old(self).doc.sections@.len()),
            !r ==> final(self).current_section == old(self).current_section,
            r ==> fresh_section(
                final(self).current_section,
                old(self).doc.sections@[old(self).current_section.index + 1]@,
                (old(self).current_section.index + 1) as usize,
                old(self).current_section.size,
            ),
    {
        let idx = self.current_section.index;
        if idx < self.doc.sections.len() && self.doc.sections.len() - idx > 1 {
            self.load_section(idx + 1);
            true
        } else {
            false
        }
    }

    /// Moves to the previous section: reports `false`, and stays, at the
    /// start of the document.
    pub fn prev_section(&mut self) -> (r: bool)
        requires
            old(self).wf(),
        ensures
            final(self).wf(),
            final(self).doc == old(self).doc,
            r == (old(self).current_section.index > 0 && old(self).doc.sections@.len() > 0),
            !r ==> final(self).current_section == old(self).current_section,
            r ==> fresh_section(
                final(self).current_section,
                old(self).doc.sections@[old(self).current_section.index - 1]@,
                (old(self).current_section.index - 1) as usize,
                old(self).current_section.size,
            ),
    {
        if self.current_section.index > 0 && self.doc.sections.len() > 0 {
            let idx = self.current_section.index - 1;
            self.load_section(idx);
            true
        } else {
            false
        }
    }

    /// The path of table-of-contents nodes that covers the current section.
    pub fn toc_index(&self) -> (r: Vec<usize>)
        ensures
            r@ == toc_path(self.doc.toc@, self.current_section.index as int),
    {
        crate::toc::toc_index(&self.doc.toc, self.current_section.index)
    }

    /// A snapshot of the reading position, for persistence.
    pub fn doc_state(&self) -> (st: DocState)
        ensures
            st.identifier@ == self.doc.identifier@,
            st.section_index == self.current_section.index,
            st.word_index == self.current_section.word_index,
    {
        DocState {
            identifier: self.doc.identifier.clone(),
            section_index: self.current_section.index,
            word_index: self.current_section.word_index,
        }
    }
}

} // verus!
