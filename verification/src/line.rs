//! The Line Indexer: it turns the rendered text of one section into the
//! ordered list of its non-blank lines, each carrying the section-local word
//! positions of its tokens. Word numbering starts at 0 for the section and
//! grows by one per token, so the positions of consecutive lines form one
//! contiguous run.

use vstd::prelude::*;

use crate::text::chars_to_string;
use crate::text::is_blank;
use crate::text::lemma_filter_token_count;
use crate::text::lemma_split_lines_sum;
use crate::text::lemma_token_count_le_sum;
use crate::text::lemma_token_count_snoc;
use crate::text::lemma_token_count_take_le;
use crate::text::split_lines;
use crate::text::split_lines_exec;
use crate::text::str_to_chars;
use crate::text::sum_lens;
use crate::text::token_count;
use crate::text::tokenize;
use crate::text::tokens;
use crate::text::views_of;

verus! {

/// One non-blank rendered row of a section, with the section-local word
/// positions of its tokens.
pub struct Line {
    /// Position of this line among the non-blank lines of its section.
    pub index: usize,
    /// The word positions present in this line, in increasing order.
    pub word_indexes: Vec<usize>,
    /// The text of the line, without its terminating line break.
    pub content: String,
}

/// The non-blank physical lines of a rendered text, in order.
pub open spec fn non_blank_lines(s: Seq<char>) -> Seq<Seq<char>> {
    split_lines(s).filter(|l: Seq<char>| !is_blank(l))
}

/// The number of words in the first `i` texts of `ls`.
pub open spec fn words_before(ls: Seq<Seq<char>>, i: int) -> nat {
    token_count(ls.take(i))
}

/// `l` is line number `idx` of a section, holds the text `text`, and numbers
/// its tokens from `start` on.
pub open spec fn line_matches(l: Line, text: Seq<char>, idx: int, start: nat) -> bool {
    &&& l.index == idx
    &&& l.content@ == text
    &&& l.word_indexes@.len() == tokens(text).len()
    &&& forall|j: int| 0 <= j < l.word_indexes@.len() ==> l.word_indexes@[j] == start + j
}

/// `ls` is the full line index of the rendered text `s`: one entry per
/// non-blank line, holding its text, its position, and the contiguous word
/// numbering that starts at 0 for the section.
pub open spec fn lines_match(ls: Seq<Line>, s: Seq<char>) -> bool {
    let nbl = non_blank_lines(s);
    &&& ls.len() == nbl.len()
    &&& forall|i: int|
        0 <= i < ls.len() ==> line_matches(#[trigger] ls[i], nbl[i], i, words_before(nbl, i))
}

/// The word positions `start .. start + count`, in order.
fn make_range(start: usize, count: usize) -> (r: Vec<usize>)
    requires
        start + count <= usize::MAX,
    ensures
        r@.len() == count,
        forall|j: int| 0 <= j < count ==> r@[j] == start + j,
{
    let mut r: Vec<usize> = Vec::new();
    let mut j: usize = 0;
    while j < count
        invariant
            j <= count,
            start + count <= usize::MAX,
            r@.len() == j,
            forall|k: int| 0 <= k < j ==> r@[k] == start + k,
        decreases count - j,
    {
        r.push(start + j);
        j = j + 1;
    }
    r
}

/// Indexes a section's rendered text: splits it into physical lines, discards
/// the blank ones, and numbers the tokens of the retained lines contiguously
/// from 0.
pub fn lines(content: String) -> (r: Vec<Line>)
    ensures
        lines_match(r@, content@),
{
    let chars = str_to_chars(content.as_str());
    let n_chars = chars.len();
    let parts = split_lines_exec(&chars);
    let ghost phys = views_of(parts@);
    proof {
        lemma_split_lines_sum(chars@);
        assert(sum_lens(phys) <= n_chars);
    }
    let mut r: Vec<Line> = Vec::new();
    let mut global: usize = 0;
    let mut i: usize = 0;
    let n = parts.len();
    proof {
        assert(phys.take(0) =~~= Seq::<Seq<char>>::empty());
        reveal(Seq::filter);
    }
    while i < n
        invariant
            i <= n,
            n == parts@.len(),
            views_of(parts@) == phys,
            sum_lens(phys) <= n_chars,
            n_chars <= usize::MAX,
            global == token_count(phys.take(i as int).filter(|l: Seq<char>| !is_blank(l))),
            r@.len() == phys.take(i as int).filter(|l: Seq<char>| !is_blank(l)).len(),
            forall|k: int|
                0 <= k < r@.len() ==> {
                    let f = phys.take(i as int).filter(|l: Seq<char>| !is_blank(l));
                    line_matches(#[trigger] r@[k], f[k], k, words_before(f, k))
                },
        decreases n - i,
    {
        let ghost f = phys.take(i as int).filter(|l: Seq<char>| !is_blank(l));
        let ghost f2 = phys.take(i + 1).filter(|l: Seq<char>| !is_blank(l));
        let ghost part = phys[i as int];
        proof {
            reveal(Seq::filter);
            assert(phys.take(i + 1).drop_last() =~~= phys.take(i as int));
            assert(phys.take(i + 1).last() == part);
            assert(f2 == if !is_blank(part) {
                f.push(part)
            } else {
                f
            });
        }
        let ts = tokenize(&parts[i]);
        let count = ts.len();
        proof {
            assert(views_of(ts@) == tokens(part));
            assert(count == tokens(part).len());
        }
        if count > 0 {
            proof {
                // The words numbered so far plus this line's words never
                // exceed the character count of the whole text.
                lemma_token_count_snoc(f, part);
                lemma_filter_token_count(phys.take(i + 1));
                lemma_token_count_take_le(phys, i + 1);
                lemma_token_count_le_sum(phys);
                assert(global + count == token_count(f2));
                assert(token_count(f2) <= sum_lens(phys));
            }
            let word_indexes = make_range(global, count);
            let line_text = chars_to_string(&parts[i]);
            let line = Line { index: r.len(), word_indexes, content: line_text };
            let ghost old_r = r@;
            r.push(line);
            global = global + count;
            proof {
                assert(f2 == f.push(part));
                assert(r@.len() == f2.len());
                assert forall|k: int| 0 <= k < r@.len() implies line_matches(
                    #[trigger] r@[k],
                    f2[k],
                    k,
                    words_before(f2, k),
                ) by {
                    if k < old_r.len() {
                        assert(r@[k] == old_r[k]);
                        assert(f2[k] == f[k]);
                        assert(f2.take(k) =~~= f.take(k));
                        assert(line_matches(old_r[k], f[k], k, words_before(f, k)));
                    } else {
                        assert(r@[k] == line);
                        assert(f2[k] == part);
                        assert(f2.take(k) =~~= f);
                    }
                }
            }
        } else {
            proof {
                assert(f2 == f);
            }
        }
        i = i + 1;
    }
    proof {
        assert(phys.take(n as int) =~~= phys);
        assert(non_blank_lines(content@) == phys.filter(|l: Seq<char>| !is_blank(l)));
    }
    r
}

/// The position of the first occurrence of `w` in `ws`, if any.
pub open spec fn word_pos_spec(ws: Seq<usize>, w: usize) -> Option<int>
    decreases ws.len(),
{
    if ws.len() == 0 {
        None
    } else if ws[0] == w {
        Some(0int)
    } else {
        match word_pos_spec(ws.drop_first(), w) {
            Some(j) => Some(j + 1),
            None => None,
        }
    }
}

/// `word_pos_spec` finds the first occurrence, and finds one whenever one
/// exists.
pub proof fn lemma_word_pos_spec(ws: Seq<usize>, w: usize)
    ensures
        match word_pos_spec(ws, w) {
            Some(j) => 0 <= j < ws.len() && ws[j] == w && forall|k: int| 0 <= k < j ==> ws[k] != w,
            None => forall|k: int| 0 <= k < ws.len() ==> ws[k] != w,
        },
    decreases ws.len(),
{
    if ws.len() == 0 {
    } else if ws[0] == w {
    } else {
        lemma_word_pos_spec(ws.drop_first(), w);
        match word_pos_spec(ws.drop_first(), w) {
            Some(j) => {
                assert(ws[j + 1] == ws.drop_first()[j]);
                assert forall|k: int| 0 <= k < j + 1 implies ws[k] != w by {
                    if k > 0 {
                        assert(ws[k] == ws.drop_first()[k - 1]);
                    }
                }
            },
            None => {
                assert forall|k: int| 0 <= k < ws.len() implies ws[k] != w by {
                    if k > 0 {
                        assert(ws[k] == ws.drop_first()[k - 1]);
                    }
                }
            },
        }
    }
}

/// The word position that follows `w` within `l`, if `w` is in `l` and is not
/// its last word.
pub open spec fn line_next_spec(l: Line, w: usize) -> Option<usize> {
    match word_pos_spec(l.word_indexes@, w) {
        Some(j) => if j + 1 < l.word_indexes@.len() {
            Some(l.word_indexes@[j + 1])
        } else {
            None
        },
        None => None,
    }
}

/// The word position that precedes `w` within `l`, if `w` is in `l` and is
/// not its first word.
pub open spec fn line_prev_spec(l: Line, w: usize) -> Option<usize> {
    match word_pos_spec(l.word_indexes@, w) {
        Some(j) => if j > 0 {
            Some(l.word_indexes@[j - 1])
        } else {
            None
        },
        None => None,
    }
}

/// The text of the word at global position `w` in `l`, if `l` carries that
/// position and has a token for it.
pub open spec fn line_word_spec(l: Line, w: usize) -> Option<Seq<char>> {
    match word_pos_spec(l.word_indexes@, w) {
        Some(j) => if j < tokens(l.content@).len() {
            Some(tokens(l.content@)[j])
        } else {
            None
        },
        None => None,
    }
}

/// The first word position of `l`, or 0 if `l` carries none.
pub open spec fn first_word_spec(l: Line) -> usize {
    if l.word_indexes@.len() > 0 {
        l.word_indexes@[0]
    } else {
        0
    }
}

/// The last word position of `l`, or 0 if `l` carries none.
pub open spec fn last_word_spec(l: Line) -> usize {
    if l.word_indexes@.len() > 0 {
        l.word_indexes@[l.word_indexes@.len() - 1]
    } else {
        0
    }
}

impl Line {
    /// The first word position of this line, or the default 0 if it carries
    /// none.
    pub fn first_word_index(&self) -> (r: usize)
        ensures
            r == first_word_spec(*self),
    {
        if self.word_indexes.len() > 0 {
            self.word_indexes[0]
        } else {
            0
        }
    }

    /// The last word position of this line, or the default 0 if it carries
    /// none.
    pub fn last_word_index(&self) -> (r: usize)
        ensures
            r == last_word_spec(*self),
    {
        if self.word_indexes.len() > 0 {
            self.word_indexes[self.word_indexes.len() - 1]
        } else {
            0
        }
    }

    /// Where in this line the global word position `global_word_index`
    /// stands, if anywhere.
    pub fn word_position(&self, global_word_index: usize) -> (r: Option<usize>)
        ensures
            match r {
                Some(p) => p < self.word_indexes@.len() && self.word_indexes@[p as int]
                    == global_word_index && word_pos_spec(self.word_indexes@, global_word_index)
                    == Some(p as int),
                None => word_pos_spec(self.word_indexes@, global_word_index) is None,
            },
    {
        let ghost ws = self.word_indexes@;
        proof {
            lemma_word_pos_spec(ws, global_word_index);
        }
        let n = self.word_indexes.len();
        let mut i: usize = 0;
        while i < n
            invariant
                i <= n,
                n == ws.len(),
                self.word_indexes@ == ws,
                forall|k: int| 0 <= k < i ==> ws[k] != global_word_index,
            decreases n - i,
        {
            if self.word_indexes[i] == global_word_index {
                proof {
                    lemma_word_pos_spec(ws, global_word_index);
                    match word_pos_spec(ws, global_word_index) {
                        Some(j) => {
                            assert(!(j < i));
                            assert(!(j > i));
                        },
                        None => {
                            assert(ws[i as int] != global_word_index);
                        },
                    }
                }
                return Some(i);
            }
            i = i + 1;
        }
        proof {
            lemma_word_pos_spec(ws, global_word_index);
        }
        None
    }

    /// The text of the word at global position `global_word_index`, if this
    /// line carries it.
    pub fn current_word(&self, global_word_index: usize) -> (r: Option<String>)
        ensures
            match r {
                Some(s) => line_word_spec(*self, global_word_index) == Some(s@),
                None => line_word_spec(*self, global_word_index) is None,
            },
    {
        let pos = match self.word_position(global_word_index) {
            Some(p) => p,
            None => {
                return None;
            },
        };
        let chars = str_to_chars(self.content.as_str());
        let ts = tokenize(&chars);
        if pos < ts.len() {
            proof {
                assert(tokens(self.content@)[pos as int] == views_of(ts@)[pos as int]);
            }
            Some(chars_to_string(&ts[pos]))
        } else {
            None
        }
    }

    /// The word position that follows `global_word_index` within this line,
    /// if there is one.
    pub fn next_word(&self, global_word_index: usize) -> (r: Option<usize>)
        ensures
            r == line_next_spec(*self, global_word_index),
    {
        match self.word_position(global_word_index) {
            Some(p) => {
                if p < self.word_indexes.len() - 1 {
                    Some(self.word_indexes[p + 1])
                } else {
                    None
                }
            },
            None => None,
        }
    }

    /// The word position that precedes `global_word_index` within this line,
    /// if there is one.
    pub fn prev_word(&self, global_word_index: usize) -> (r: Option<usize>)
        ensures
            r == line_prev_spec(*self, global_word_index),
    {
        match self.word_position(global_word_index) {
            Some(p) => {
                if p > 0 {
                    Some(self.word_indexes[p - 1])
                } else {
                    None
                }
            },
            None => None,
        }
    }
}

} // verus!
