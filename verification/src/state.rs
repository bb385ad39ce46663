//! The Position State: the persisted (section, word) checkpoint keyed by
//! document identity, with its record codec. The record is the section index
//! and the word index as canonical decimal numerals, each followed by a line
//! break, followed by the identifier; decoding rejects everything that
//! `encode` cannot have produced.

use vstd::prelude::*;

use crate::digits::all_digits;
use crate::digits::dec_digits;
use crate::digits::dec_value;
use crate::digits::digit_val;
use crate::digits::is_digit;
use crate::digits::lemma_canonical_digits;
use crate::digits::lemma_dec_digits_value;
use crate::digits::parse_digits_usize;
use crate::digits::push_decimal;
use crate::digits::scan_digits;
use crate::text::chars_to_string;
use crate::text::str_to_chars;

verus! {

/// A snapshot of a reading position, keyed by the document's identifier.
pub struct DocState {
    /// The stable identity of the document.
    pub identifier: String,
    /// The section the reader stands in.
    pub section_index: usize,
    /// The word within that section.
    pub word_index: usize,
}

/// The persisted record of a position: both indices as canonical decimal
/// numerals, each terminated by a line break, then the identifier.
pub open spec fn encode_spec(st: DocState) -> Seq<char> {
    dec_digits(st.section_index as nat) + seq!['\n'] + dec_digits(st.word_index as nat) + seq![
        '\n',
    ] + st.identifier@
}

/// Where each part of a persisted record stands within it.
pub proof fn lemma_encode_parts(st: DocState)
    ensures
        ({
            let d1 = dec_digits(st.section_index as nat);
            let d2 = dec_digits(st.word_index as nat);
            let id = st.identifier@;
            let s = encode_spec(st);
            &&& s.len() == d1.len() + 1 + d2.len() + 1 + id.len()
            &&& forall|i: int| 0 <= i < d1.len() ==> s[i] == d1[i]
            &&& s[d1.len() as int] == '\n'
            &&& forall|i: int| 0 <= i < d2.len() ==> s[d1.len() + 1 + i] == d2[i]
            &&& s[d1.len() + 1 + d2.len() as int] == '\n'
            &&& forall|i: int| 0 <= i < id.len() ==> s[d1.len() + 1 + d2.len() + 1 + i] == id[i]
        }),
{
    let d1 = dec_digits(st.section_index as nat);
    let d2 = dec_digits(st.word_index as nat);
    let id = st.identifier@;
    let t1 = d1 + seq!['\n'];
    let t2 = t1 + d2;
    let t3 = t2 + seq!['\n'];
    let s = t3 + id;
    assert(encode_spec(st) == s);
    assert forall|i: int| 0 <= i < d1.len() implies s[i] == d1[i] by {
        assert(s[i] == t3[i]);
        assert(t3[i] == t2[i]);
        assert(t2[i] == t1[i]);
        assert(t1[i] == d1[i]);
    }
    assert(s[d1.len() as int] == '\n') by {
        assert(s[d1.len() as int] == t3[d1.len() as int]);
        assert(t3[d1.len() as int] == t2[d1.len() as int]);
        assert(t2[d1.len() as int] == t1[d1.len() as int]);
        assert(t1[d1.len() as int] == '\n');
    }
    assert forall|i: int| 0 <= i < d2.len() implies s[d1.len() + 1 + i] == d2[i] by {
        assert(s[d1.len() + 1 + i] == t3[d1.len() + 1 + i]);
        assert(t3[d1.len() + 1 + i] == t2[d1.len() + 1 + i]);
        assert(t2[d1.len() + 1 + i] == d2[i]);
    }
    assert(s[d1.len() + 1 + d2.len() as int] == '\n') by {
        assert(s[d1.len() + 1 + d2.len() as int] == t3[d1.len() + 1 + d2.len() as int]);
        assert(t3[d1.len() + 1 + d2.len() as int] == '\n');
    }
    assert forall|i: int| 0 <= i < id.len() implies s[d1.len() + 1 + d2.len() + 1 + i] == id[i] by {
        assert(s[d1.len() + 1 + d2.len() + 1 + i] == id[i]);
    }
}

/// A digit run of `s` that starts at `p`, mirrors the numeral `d`, and is
/// terminated by a line break, ends exactly where the numeral does.
proof fn lemma_scan_pins(s: Seq<char>, p: int, d: Seq<char>, j: int)
    requires
        all_digits(d),
        0 <= p,
        p + d.len() < s.len(),
        forall|i: int| 0 <= i < d.len() ==> s[p + i] == d[i],
        s[p + d.len()] == '\n',
        p <= j <= s.len(),
        forall|i: int| p <= i < j ==> is_digit(#[trigger] s[i]),
        j < s.len() ==> !is_digit(s[j]),
    ensures
        j == p + d.len(),
{
    if j < p + d.len() {
        assert(s[j] == d[j - p]);
        assert(is_digit(d[j - p]));
        assert(false);
    }
    if j > p + d.len() {
        assert(is_digit(s[p + d.len()]));
        assert(digit_val('\n') == 10);
        assert(false);
    }
}

impl DocState {
    /// The default position for a document never read before: its first
    /// section, its first word.
    pub fn new(identifier: String) -> (st: Self)
        ensures
            st.identifier == identifier,
            st.section_index == 0,
            st.word_index == 0,
    {
        DocState { identifier, section_index: 0, word_index: 0 }
    }

    /// Serializes this position as its persisted record.
    pub fn encode(&self) -> (r: String)
        ensures
            r@ == encode_spec(*self),
    {
        let mut out: Vec<char> = Vec::new();
        push_decimal(self.section_index, &mut out);
        out.push('\n');
        push_decimal(self.word_index, &mut out);
        out.push('\n');
        let mut idc = str_to_chars(self.identifier.as_str());
        out.append(&mut idc);
        proof {
            assert(out@ =~= encode_spec(*self));
        }
        chars_to_string(&out)
    }

    /// Parses a persisted record. Returns the position it records, or `None`
    /// exactly when `text` is not the record of any position.
    #[verifier::rlimit(60)]
    pub fn decode(text: &str) -> (r: Option<DocState>)
        ensures
            match r {
                Some(st) => text@ == encode_spec(st),
                None => forall|st0: DocState| text@ != encode_spec(st0),
            },
    {
        let chars = str_to_chars(text);
        let ghost s = text@;
        let n = chars.len();
        let j1 = scan_digits(&chars, 0);
        if j1 == 0 || j1 >= n || chars[j1] != '\n' || (j1 > 1 && chars[0] == '0') {
            proof {
                assert forall|st0: DocState| s != encode_spec(st0) by {
                    if s == encode_spec(st0) {
                        let d1 = dec_digits(st0.section_index as nat);
                        lemma_dec_digits_value(st0.section_index as nat);
                        lemma_encode_parts(st0);
                        lemma_scan_pins(s, 0, d1, j1 as int);
                        assert(s[0] == d1[0]);
                    }
                }
            }
            return None;
        }
        let v1 = match parse_digits_usize(&chars, 0, j1) {
            Some(v) => v,
            None => {
                proof {
                    assert forall|st0: DocState| s != encode_spec(st0) by {
                        if s == encode_spec(st0) {
                            let d1 = dec_digits(st0.section_index as nat);
                            lemma_dec_digits_value(st0.section_index as nat);
                            lemma_encode_parts(st0);
                            lemma_scan_pins(s, 0, d1, j1 as int);
                            assert(s.subrange(0, j1 as int) =~= d1);
                        }
                    }
                }
                return None;
            },
        };
        let p2 = j1 + 1;
        let j2 = scan_digits(&chars, p2);
        if j2 == p2 || j2 >= n || chars[j2] != '\n' || (j2 > p2 + 1 && chars[p2] == '0') {
            proof {
                assert forall|st0: DocState| s != encode_spec(st0) by {
                    if s == encode_spec(st0) {
                        let d1 = dec_digits(st0.section_index as nat);
                        let d2 = dec_digits(st0.word_index as nat);
                        lemma_dec_digits_value(st0.section_index as nat);
                        lemma_dec_digits_value(st0.word_index as nat);
                        lemma_encode_parts(st0);
                        lemma_scan_pins(s, 0, d1, j1 as int);
                        lemma_scan_pins(s, j1 + 1, d2, j2 as int);
                        assert(s[p2 as int] == d2[0]);
                    }
                }
            }
            return None;
        }
        let v2 = match parse_digits_usize(&chars, p2, j2) {
            Some(v) => v,
            None => {
                proof {
                    assert forall|st0: DocState| s != encode_spec(st0) by {
                        if s == encode_spec(st0) {
                            let d1 = dec_digits(st0.section_index as nat);
                            let d2 = dec_digits(st0.word_index as nat);
                            lemma_dec_digits_value(st0.section_index as nat);
                            lemma_dec_digits_value(st0.word_index as nat);
                            lemma_encode_parts(st0);
                            lemma_scan_pins(s, 0, d1, j1 as int);
                            lemma_scan_pins(s, j1 + 1, d2, j2 as int);
                            assert(s.subrange(p2 as int, j2 as int) =~= d2);
                        }
                    }
                }
                return None;
            },
        };
        let mut idc: Vec<char> = Vec::new();
        let mut k = j2 + 1;
        while k < n
            invariant
                j2 + 1 <= k <= n,
                n == chars@.len(),
                chars@ == s,
                idc@ == s.subrange(j2 + 1, k as int),
            decreases n - k,
        {
            idc.push(chars[k]);
            k = k + 1;
            proof {
                assert(idc@ =~= s.subrange(j2 + 1, k as int));
            }
        }
        let identifier = chars_to_string(&idc);
        let st = DocState { identifier, section_index: v1, word_index: v2 };
        proof {
            let seg1 = s.subrange(0, j1 as int);
            let seg2 = s.subrange(p2 as int, j2 as int);
            assert(all_digits(seg1));
            assert(all_digits(seg2));
            lemma_canonical_digits(seg1);
            lemma_canonical_digits(seg2);
            assert(dec_digits(v1 as nat) == seg1);
            assert(dec_digits(v2 as nat) == seg2);
            lemma_encode_parts(st);
            let e = encode_spec(st);
            assert(st.identifier@ == s.subrange(j2 + 1, n as int));
            assert(e.len() == s.len());
            assert forall|i: int| 0 <= i < s.len() implies s[i] == e[i] by {
                if i < j1 {
                    assert(e[i] == seg1[i]);
                    assert(seg1[i] == s[i]);
                } else if i == j1 {
                    assert(e[i] == '\n');
                } else if i < j2 && i >= p2 {
                    assert(e[j1 + 1 + (i - p2)] == seg2[i - p2]);
                    assert(seg2[i - p2] == s[i]);
                } else if i == j2 {
                    assert(e[j1 + 1 + (j2 - p2)] == '\n');
                } else {
                    assert(e[j1 + 1 + (j2 - p2) + 1 + (i - j2 - 1)] == st.identifier@[i - j2 - 1]);
                    assert(st.identifier@[i - j2 - 1] == s[i]);
                }
            }
            assert(s =~= e);
        }
        Some(st)
    }

    /// What a stored record loads back to: the position it records, or the
    /// default position under `identifier` when there is no record or the
    /// record is not one that `encode` produces.
    pub fn load(contents: Option<&str>, identifier: String) -> (st: Self)
        ensures
            match contents {
                Some(text) => (text@ == encode_spec(st)) || (st.identifier == identifier
                    && st.section_index == 0 && st.word_index == 0 && forall|st0: DocState|
                    text@ != encode_spec(st0)),
                None => st.identifier == identifier && st.section_index == 0 && st.word_index == 0,
            },
    {
        match contents {
            Some(text) => {
                match Self::decode(text) {
                    Some(st) => st,
                    None => Self::new(identifier),
                }
            },
            None => Self::new(identifier),
        }
    }
}

/// Law: a position round-trips through its persisted record: the record
/// determines the triple, so decoding what `encode` writes yields the
/// identical section index, word index and identifier.
pub proof fn lemma_state_round_trip(st: DocState, decoded: DocState)
    requires
        encode_spec(st) == encode_spec(decoded),
    ensures
        decoded.section_index == st.section_index,
        decoded.word_index == st.word_index,
        decoded.identifier@ == st.identifier@,
{
    let d1a = dec_digits(st.section_index as nat);
    let d1b = dec_digits(decoded.section_index as nat);
    let d2a = dec_digits(st.word_index as nat);
    let d2b = dec_digits(decoded.word_index as nat);
    lemma_dec_digits_value(st.section_index as nat);
    lemma_dec_digits_value(decoded.section_index as nat);
    lemma_dec_digits_value(st.word_index as nat);
    lemma_dec_digits_value(decoded.word_index as nat);
    lemma_encode_parts(st);
    lemma_encode_parts(decoded);
    let s = encode_spec(st);
    assert(d1a.len() == d1b.len()) by {
        if d1a.len() < d1b.len() {
            assert(s[d1a.len() as int] == '\n');
            assert(s[d1a.len() as int] == d1b[d1a.len() as int]);
            assert(is_digit('\n'));
            assert(digit_val('\n') == 10);
            assert(false);
        }
        if d1b.len() < d1a.len() {
            assert(s[d1b.len() as int] == '\n');
            assert(s[d1b.len() as int] == d1a[d1b.len() as int]);
            assert(is_digit('\n'));
            assert(digit_val('\n') == 10);
            assert(false);
        }
    }
    assert(d1a =~= d1b) by {
        assert(forall|i: int| 0 <= i < d1a.len() ==> s[i] == d1a[i]);
        assert(forall|i: int| 0 <= i < d1b.len() ==> s[i] == d1b[i]);
    }
    assert(st.section_index == dec_value(d1a) && decoded.section_index == dec_value(d1b));
    let p: int = d1a.len() + 1int;
    assert(d2a.len() == d2b.len()) by {
        if d2a.len() < d2b.len() {
            assert(s[p + d2a.len() as int] == '\n');
            assert(s[p + d2a.len() as int] == d2b[d2a.len() as int]);
            assert(is_digit('\n'));
            assert(digit_val('\n') == 10);
            assert(false);
        }
        if d2b.len() < d2a.len() {
            assert(s[p + d2b.len() as int] == '\n');
            assert(s[p + d2b.len() as int] == d2a[d2b.len() as int]);
            assert(is_digit('\n'));
            assert(digit_val('\n') == 10);
            assert(false);
        }
    }
    assert(d2a =~= d2b) by {
        assert(forall|i: int| 0 <= i < d2a.len() ==> s[p + i] == d2a[i]);
        assert(forall|i: int| 0 <= i < d2b.len() ==> s[p + i] == d2b[i]);
    }
    assert(st.word_index == dec_value(d2a) && decoded.word_index == dec_value(d2b));
    let q: int = p + d2a.len() + 1int;
    assert(st.identifier@.len() == decoded.identifier@.len());
    assert(st.identifier@ =~= decoded.identifier@) by {
        assert(forall|i: int| 0 <= i < st.identifier@.len() ==> s[q + i] == st.identifier@[i]);
        assert(forall|i: int|
            0 <= i < decoded.identifier@.len() ==> s[q + i] == decoded.identifier@[i]);
    }
}

} // verus!
