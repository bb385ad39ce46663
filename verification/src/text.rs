//! Segmentation of rendered text into physical lines and whitespace-delimited
//! tokens.
//!
//! Policy: a line break is `'\n'`; a token separator is any ASCII whitespace
//! character or the no-break space the renderer emits. Every
//! whitespace-delimited token of a retained line is indexed as a word (no
//! token is filtered out for lacking alphabetic characters). This is a
//! deliberate, fixed separator set rather than the full Unicode white-space
//! class: rendered text contains no other spacing characters, and a fixed
//! set keeps the segmentation model plain. A carriage return before a line
//! break stays in the line's text; it is a separator, so it never enters a
//! token.

use vstd::prelude::*;

verus! {

/// The characters treated as token separators: ASCII whitespace and the
/// no-break space.
pub open spec fn is_space(c: char) -> bool {
    c == ' ' || c == '\t' || c == '\n' || c == '\r' || c == '\u{b}' || c == '\u{c}' || c
        == '\u{a0}'
}

/// Executable mirror of `is_space`.
pub fn is_space_char(c: char) -> (r: bool)
    ensures
        r == is_space(c),
{
    c == ' ' || c == '\t' || c == '\n' || c == '\r' || c == '\u{b}' || c == '\u{c}' || c
        == '\u{a0}'
}

/// The physical lines of `s`: the segments between `'\n'` characters.
/// Splitting the empty text yields one empty segment, and every `'\n'`
/// starts a fresh segment, so the result is never empty.
pub open spec fn split_lines(s: Seq<char>) -> Seq<Seq<char>>
    decreases s.len(),
{
    if s.len() == 0 {
        seq![Seq::<char>::empty()]
    } else if s[0] == '\n' {
        seq![Seq::<char>::empty()] + split_lines(s.drop_first())
    } else {
        let rest = split_lines(s.drop_first());
        seq![seq![s[0]] + rest[0]] + rest.drop_first()
    }
}

/// The whitespace-delimited tokens of `s`, in order: the maximal runs of
/// non-whitespace characters.
pub open spec fn tokens(s: Seq<char>) -> Seq<Seq<char>>
    decreases s.len(),
{
    if s.len() == 0 {
        Seq::<Seq<char>>::empty()
    } else if is_space(s[0]) {
        tokens(s.drop_first())
    } else if s.len() > 1 && !is_space(s[1]) {
        let rest = tokens(s.drop_first());
        seq![seq![s[0]] + rest[0]] + rest.drop_first()
    } else {
        seq![seq![s[0]]] + tokens(s.drop_first())
    }
}

/// A text is blank when it has no token.
pub open spec fn is_blank(s: Seq<char>) -> bool {
    tokens(s).len() == 0
}

pub proof fn lemma_split_lines_len(s: Seq<char>)
    ensures
        split_lines(s).len() >= 1,
    decreases s.len(),
{
    if s.len() == 0 {
    } else if s[0] == '\n' {
        lemma_split_lines_len(s.drop_first());
    } else {
        lemma_split_lines_len(s.drop_first());
    }
}

/// There are never more tokens than characters.
pub proof fn lemma_tokens_count_le(s: Seq<char>)
    ensures
        tokens(s).len() <= s.len(),
    decreases s.len(),
{
    if s.len() == 0 {
    } else {
        lemma_tokens_count_le(s.drop_first());
    }
}

/// How a non-empty all-non-whitespace prefix combines with the tokens of the
/// text that follows it.
pub proof fn lemma_tokens_concat(cur: Seq<char>, s: Seq<char>)
    requires
        cur.len() > 0,
        forall|j: int| 0 <= j < cur.len() ==> !is_space(cur[j]),
    ensures
        tokens(cur + s) == if s.len() == 0 || is_space(s[0]) {
            seq![cur] + tokens(s)
        } else {
            seq![cur + tokens(s)[0]] + tokens(s).drop_first()
        },
    decreases cur.len(),
{
    let t = cur + s;
    assert(t[0] == cur[0]);
    assert(!is_space(t[0]));
    if cur.len() == 1 {
        assert(t.drop_first() =~= s);
        if s.len() == 0 {
            assert(tokens(t) =~~= seq![cur] + tokens(s)) by {
                assert(seq![t[0]] =~= cur);
            }
        } else if is_space(s[0]) {
            assert(t.len() > 1 && is_space(t[1]));
            assert(tokens(t) =~~= seq![cur] + tokens(s)) by {
                assert(seq![t[0]] =~= cur);
            }
        } else {
            assert(t.len() > 1 && !is_space(t[1]));
            assert(tokens(t) =~~= seq![cur + tokens(s)[0]] + tokens(s).drop_first()) by {
                assert(seq![t[0]] + tokens(s)[0] =~= cur + tokens(s)[0]);
            }
        }
    } else {
        assert(t.len() > 1 && !is_space(t[1])) by {
            assert(t[1] == cur[1]);
        }
        let cur2 = cur.drop_first();
        assert(t.drop_first() =~= cur2 + s);
        lemma_tokens_concat(cur2, s);
        let rest = tokens(cur2 + s);
        if s.len() == 0 || is_space(s[0]) {
            assert(rest == seq![cur2] + tokens(s));
            assert(rest[0] == cur2);
            assert(rest.drop_first() =~~= tokens(s));
            assert(tokens(t) =~~= seq![cur] + tokens(s)) by {
                assert(seq![t[0]] + cur2 =~= cur);
            }
        } else {
            assert(rest == seq![cur2 + tokens(s)[0]] + tokens(s).drop_first());
            assert(rest[0] == cur2 + tokens(s)[0]);
            assert(rest.drop_first() =~~= tokens(s).drop_first());
            assert(tokens(t) =~~= seq![cur + tokens(s)[0]] + tokens(s).drop_first()) by {
                assert(seq![t[0]] + (cur2 + tokens(s)[0]) =~= cur + tokens(s)[0]);
            }
        }
    }
}

/// A non-empty all-non-whitespace text is a single token.
pub proof fn lemma_tokens_single(cur: Seq<char>)
    requires
        cur.len() > 0,
        forall|j: int| 0 <= j < cur.len() ==> !is_space(cur[j]),
    ensures
        tokens(cur) == seq![cur],
{
    assert(cur + Seq::<char>::empty() =~= cur);
    lemma_tokens_concat(cur, Seq::<char>::empty());
    assert(tokens(cur) =~~= seq![cur]);
}

/// The total number of characters in a list of texts.
pub open spec fn sum_lens(ls: Seq<Seq<char>>) -> nat
    decreases ls.len(),
{
    if ls.len() == 0 {
        0
    } else {
        ls[0].len() + sum_lens(ls.drop_first())
    }
}

/// The total number of tokens in a list of texts.
pub open spec fn token_count(ls: Seq<Seq<char>>) -> nat
    decreases ls.len(),
{
    if ls.len() == 0 {
        0
    } else {
        tokens(ls[0]).len() + token_count(ls.drop_first())
    }
}

pub proof fn lemma_token_count_snoc(ls: Seq<Seq<char>>, x: Seq<char>)
    ensures
        token_count(ls.push(x)) == token_count(ls) + tokens(x).len(),
    decreases ls.len(),
{
    if ls.len() == 0 {
        assert(ls.push(x).drop_first() =~~= Seq::<Seq<char>>::empty());
        assert(ls.push(x)[0] == x);
        assert(token_count(ls.push(x)) == tokens(x).len() + token_count(ls.push(x).drop_first()));
    } else {
        assert(ls.push(x).drop_first() =~~= ls.drop_first().push(x));
        lemma_token_count_snoc(ls.drop_first(), x);
        assert(ls.push(x)[0] == ls[0]);
        assert(token_count(ls.push(x)) == tokens(ls[0]).len() + token_count(
            ls.drop_first().push(x),
        ));
    }
}

pub proof fn lemma_token_count_le_sum(ls: Seq<Seq<char>>)
    ensures
        token_count(ls) <= sum_lens(ls),
    decreases ls.len(),
{
    if ls.len() == 0 {
    } else {
        lemma_tokens_count_le(ls[0]);
        lemma_token_count_le_sum(ls.drop_first());
    }
}

/// Discarding blank texts discards no token.
pub proof fn lemma_filter_token_count(ls: Seq<Seq<char>>)
    ensures
        token_count(ls.filter(|l: Seq<char>| !is_blank(l))) == token_count(ls),
    decreases ls.len(),
{
    reveal(Seq::filter);
    if ls.len() == 0 {
    } else {
        let prefix = ls.drop_last();
        lemma_filter_token_count(prefix);
        lemma_token_count_snoc(prefix, ls.last());
        assert(prefix.push(ls.last()) =~~= ls);
        if !is_blank(ls.last()) {
            lemma_token_count_snoc(prefix.filter(|l: Seq<char>| !is_blank(l)), ls.last());
        }
    }
}

pub proof fn lemma_token_count_take_le(ls: Seq<Seq<char>>, i: int)
    requires
        0 <= i <= ls.len(),
    ensures
        token_count(ls.take(i)) <= token_count(ls),
    decreases ls.len(),
{
    if i == 0 {
        assert(ls.take(0) =~~= Seq::<Seq<char>>::empty());
    } else {
        assert(ls.take(i)[0] == ls[0]);
        assert(ls.take(i).drop_first() =~~= ls.drop_first().take(i - 1));
        lemma_token_count_take_le(ls.drop_first(), i - 1);
    }
}

/// The segments of a text, with one separator between each pair, hold exactly
/// its characters.
pub proof fn lemma_split_lines_sum(s: Seq<char>)
    ensures
        sum_lens(split_lines(s)) + split_lines(s).len() == s.len() + 1,
    decreases s.len(),
{
    lemma_split_lines_len(s);
    if s.len() == 0 {
        assert(split_lines(s).drop_first() =~~= Seq::<Seq<char>>::empty());
        assert(split_lines(s)[0] == Seq::<char>::empty());
        assert(sum_lens(split_lines(s)) == 0 + sum_lens(split_lines(s).drop_first()));
    } else if s[0] == '\n' {
        lemma_split_lines_sum(s.drop_first());
        assert(split_lines(s).drop_first() =~~= split_lines(s.drop_first()));
        assert(split_lines(s)[0] == Seq::<char>::empty());
        assert(sum_lens(split_lines(s)) == 0 + sum_lens(split_lines(s.drop_first())));
    } else {
        lemma_split_lines_sum(s.drop_first());
        let rest = split_lines(s.drop_first());
        lemma_split_lines_len(s.drop_first());
        assert(split_lines(s)[0] == seq![s[0]] + rest[0]);
        assert(split_lines(s).drop_first() =~~= rest.drop_first());
        assert(sum_lens(rest) == rest[0].len() + sum_lens(rest.drop_first()));
        assert(sum_lens(split_lines(s)) == (seq![s[0]] + rest[0]).len() + sum_lens(
            rest.drop_first(),
        ));
    }
}

/// The views of the elements of a vector of character vectors.
pub open spec fn views_of(v: Seq<Vec<char>>) -> Seq<Seq<char>> {
    v.map_values(|p: Vec<char>| p@)
}

/// Splits `v` at every `'\n'` into its physical lines.
pub fn split_lines_exec(v: &Vec<char>) -> (parts: Vec<Vec<char>>)
    ensures
        views_of(parts@) == split_lines(v@),
{
    let ghost whole = v@;
    let mut parts: Vec<Vec<char>> = Vec::new();
    let mut cur: Vec<char> = Vec::new();
    let n = v.len();
    let mut i: usize = 0;
    proof {
        lemma_split_lines_len(whole);
        assert(views_of(parts@) + seq![cur@ + split_lines(whole.skip(0))[0]] + split_lines(
            whole.skip(0),
        ).drop_first() =~~= split_lines(whole)) by {
            assert(whole.skip(0) =~= whole);
        }
    }
    while i < n
        invariant
            i <= n,
            n == whole.len(),
            v@ == whole,
            split_lines(whole) == views_of(parts@) + seq![
                cur@ + split_lines(whole.skip(i as int))[0],
            ] + split_lines(whole.skip(i as int)).drop_first(),
        decreases n - i,
    {
        let ghost before = whole.skip(i as int);
        let ghost after = whole.skip(i + 1);
        proof {
            assert(before =~= seq![whole[i as int]] + after);
            lemma_split_lines_len(after);
        }
        let c = v[i];
        if c == '\n' {
            proof {
                assert(split_lines(before) == seq![Seq::<char>::empty()] + split_lines(after)) by {
                    assert(before[0] == '\n');
                    assert(before.drop_first() =~= after);
                }
            }
            let ghost old_parts = parts@;
            let ghost old_cur = cur@;
            parts.push(cur);
            cur = Vec::new();
            proof {
                assert(views_of(parts@) =~~= views_of(old_parts).push(old_cur));
                assert(split_lines(whole) =~~= views_of(parts@) + seq![
                    cur@ + split_lines(after)[0],
                ] + split_lines(after).drop_first()) by {
                    assert(split_lines(before)[0] =~= Seq::<char>::empty());
                    assert(split_lines(before).drop_first() =~~= split_lines(after));
                    assert(old_cur + split_lines(before)[0] =~= old_cur);
                }
            }
        } else {
            let ghost old_cur = cur@;
            cur.push(c);
            proof {
                assert(split_lines(before) == seq![seq![before[0]] + split_lines(after)[0]]
                    + split_lines(after).drop_first()) by {
                    assert(before[0] != '\n');
                    assert(before.drop_first() =~= after);
                }
                assert(old_cur + split_lines(before)[0] =~= cur@ + split_lines(after)[0]);
                assert(split_lines(before).drop_first() =~~= split_lines(after).drop_first());
                assert(split_lines(whole) =~~= views_of(parts@) + seq![
                    cur@ + split_lines(after)[0],
                ] + split_lines(after).drop_first());
            }
        }
        i = i + 1;
    }
    let ghost old_parts = parts@;
    let ghost old_cur = cur@;
    parts.push(cur);
    proof {
        assert(whole.skip(n as int) =~= Seq::<char>::empty());
        assert(split_lines(Seq::<char>::empty()) == seq![Seq::<char>::empty()]);
        assert(views_of(parts@) =~~= views_of(old_parts).push(old_cur));
        assert(views_of(parts@) =~~= split_lines(whole)) by {
            assert(old_cur + split_lines(Seq::<char>::empty())[0] =~= old_cur);
            assert(split_lines(Seq::<char>::empty()).drop_first() =~~= Seq::<Seq<char>>::empty());
        }
    }
    parts
}

/// The whitespace-delimited tokens of `v`, in order.
pub fn tokenize(v: &Vec<char>) -> (ts: Vec<Vec<char>>)
    ensures
        views_of(ts@) == tokens(v@),
{
    let ghost whole = v@;
    let mut ts: Vec<Vec<char>> = Vec::new();
    let mut cur: Vec<char> = Vec::new();
    let n = v.len();
    let mut i: usize = 0;
    proof {
        assert(whole.skip(0) =~= whole);
        assert(cur@ + whole.skip(0) =~= whole);
        assert(views_of(ts@) + tokens(whole) =~~= tokens(whole));
    }
    while i < n
        invariant
            i <= n,
            n == whole.len(),
            v@ == whole,
            forall|j: int| 0 <= j < cur@.len() ==> !is_space(cur@[j]),
            tokens(whole) == views_of(ts@) + tokens(cur@ + whole.skip(i as int)),
        decreases n - i,
    {
        let ghost before = whole.skip(i as int);
        let ghost after = whole.skip(i + 1);
        proof {
            assert(before =~= seq![whole[i as int]] + after);
        }
        let c = v[i];
        if is_space_char(c) {
            proof {
                assert(is_space(before[0]));
                assert(before.drop_first() =~= after);
            }
            if cur.len() > 0 {
                proof {
                    lemma_tokens_concat(cur@, before);
                    assert(tokens(cur@ + before) == seq![cur@] + tokens(before));
                    assert(tokens(before) == tokens(after));
                }
                let ghost old_ts = ts@;
                let ghost old_cur = cur@;
                ts.push(cur);
                cur = Vec::new();
                proof {
                    assert(views_of(ts@) =~~= views_of(old_ts).push(old_cur));
                    assert(cur@ + after =~= after);
                    assert(tokens(whole) =~~= views_of(ts@) + tokens(cur@ + after));
                }
            } else {
                proof {
                    assert(cur@ + before =~= before);
                    assert(cur@ + after =~= after);
                    assert(tokens(whole) =~~= views_of(ts@) + tokens(cur@ + after));
                }
            }
        } else {
            let ghost old_cur = cur@;
            cur.push(c);
            proof {
                assert(old_cur + before =~= cur@ + after);
                assert(tokens(whole) =~~= views_of(ts@) + tokens(cur@ + after));
            }
        }
        i = i + 1;
    }
    proof {
        assert(whole.skip(n as int) =~= Seq::<char>::empty());
    }
    if cur.len() > 0 {
        proof {
            assert(cur@ + whole.skip(n as int) =~= cur@);
            lemma_tokens_single(cur@);
        }
        let ghost old_ts = ts@;
        let ghost old_cur = cur@;
        ts.push(cur);
        proof {
            assert(views_of(ts@) =~~= views_of(old_ts).push(old_cur));
            assert(views_of(ts@) =~~= tokens(whole));
        }
    } else {
        proof {
            assert(cur@ + whole.skip(n as int) =~= Seq::<char>::empty());
            assert(views_of(ts@) =~~= tokens(whole));
        }
    }
    ts
}

/// The characters of `s`, in order, as a vector.
pub fn str_to_chars(s: &str) -> (r: Vec<char>)
    ensures
        r@ == s@,
{
    let n = s.unicode_len();
    let mut r: Vec<char> = Vec::new();
    let mut i: usize = 0;
    while i < n
        invariant
            i <= n,
            n == s@.len(),
            r@ == s@.take(i as int),
        decreases n - i,
    {
        r.push(s.get_char(i));
        i = i + 1;
        assert(r@ =~= s@.take(i as int));
    }
    assert(r@ =~= s@);
    r
}

/// The characters `v[from..to]`, as a vector of their own.
pub fn sub_chars(v: &Vec<char>, from: usize, to: usize) -> (r: Vec<char>)
    requires
        from <= to <= v@.len(),
    ensures
        r@ == v@.subrange(from as int, to as int),
{
    let mut r: Vec<char> = Vec::new();
    let mut i = from;
    proof {
        assert(r@ =~= v@.subrange(from as int, from as int));
    }
    while i < to
        invariant
            from <= i <= to <= v@.len(),
            r@ == v@.subrange(from as int, i as int),
        decreases to - i,
    {
        r.push(v[i]);
        i = i + 1;
        proof {
            assert(r@ =~= v@.subrange(from as int, i as int));
        }
    }
    r
}

/// Relies on `String::from_iter` over characters: the collected string holds
/// exactly the characters of the vector, in order.
#[verifier::external_body]
pub(crate) fn chars_to_string(v: &Vec<char>) -> (s: String)
    ensures
        s@ == v@,
{
    String::from_iter(v.iter().copied())
}

} // verus!
