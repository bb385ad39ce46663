//! Decimal numerals: printing a number as its canonical digit string and
//! parsing digit strings back, with the round trip proved.

use vstd::prelude::*;
use vstd::arithmetic::div_mod::lemma_fundamental_div_mod;

verus! {

/// The digit character for a value below 10.
pub open spec fn digit_char(d: nat) -> char {
    if d == 0 {
        '0'
    } else if d == 1 {
        '1'
    } else if d == 2 {
        '2'
    } else if d == 3 {
        '3'
    } else if d == 4 {
        '4'
    } else if d == 5 {
        '5'
    } else if d == 6 {
        '6'
    } else if d == 7 {
        '7'
    } else if d == 8 {
        '8'
    } else {
        '9'
    }
}

/// The value of a digit character, or 10 for any other character.
pub open spec fn digit_val(c: char) -> nat {
    if c == '0' {
        0
    } else if c == '1' {
        1
    } else if c == '2' {
        2
    } else if c == '3' {
        3
    } else if c == '4' {
        4
    } else if c == '5' {
        5
    } else if c == '6' {
        6
    } else if c == '7' {
        7
    } else if c == '8' {
        8
    } else if c == '9' {
        9
    } else {
        10
    }
}

pub open spec fn is_digit(c: char) -> bool {
    digit_val(c) < 10
}

/// A non-empty text of digit characters only.
pub open spec fn all_digits(s: Seq<char>) -> bool {
    s.len() > 0 && forall|i: int| 0 <= i < s.len() ==> is_digit(#[trigger] s[i])
}

/// The canonical decimal numeral of `n`: no leading zero except for the
/// numeral of 0 itself.
pub open spec fn dec_digits(n: nat) -> Seq<char>
    decreases n,
{
    if n < 10 {
        seq![digit_char(n)]
    } else {
        dec_digits(n / 10) + seq![digit_char(n % 10)]
    }
}

/// The value of a digit text.
pub open spec fn dec_value(s: Seq<char>) -> nat
    decreases s.len(),
{
    if s.len() == 0 {
        0
    } else {
        dec_value(s.drop_last()) * 10 + digit_val(s.last())
    }
}

/// Executable mirror of `is_digit`.
pub fn is_digit_char(c: char) -> (r: bool)
    ensures
        r == is_digit(c),
{
    c == '0' || c == '1' || c == '2' || c == '3' || c == '4' || c == '5' || c == '6' || c == '7'
        || c == '8' || c == '9'
}

/// Executable mirror of `digit_val` for digit characters.
pub fn digit_val_char(c: char) -> (d: usize)
    requires
        is_digit(c),
    ensures
        d == digit_val(c),
{
    if c == '0' {
        0
    } else if c == '1' {
        1
    } else if c == '2' {
        2
    } else if c == '3' {
        3
    } else if c == '4' {
        4
    } else if c == '5' {
        5
    } else if c == '6' {
        6
    } else if c == '7' {
        7
    } else if c == '8' {
        8
    } else {
        9
    }
}

/// Executable mirror of `digit_char`.
pub fn digit_char_of(d: usize) -> (c: char)
    requires
        d < 10,
    ensures
        c == digit_char(d as nat),
{
    if d == 0 {
        '0'
    } else if d == 1 {
        '1'
    } else if d == 2 {
        '2'
    } else if d == 3 {
        '3'
    } else if d == 4 {
        '4'
    } else if d == 5 {
        '5'
    } else if d == 6 {
        '6'
    } else if d == 7 {
        '7'
    } else if d == 8 {
        '8'
    } else {
        '9'
    }
}

/// The canonical numeral is made of digits, values back to its number, and
/// never starts with a superfluous zero.
pub proof fn lemma_dec_digits_value(n: nat)
    ensures
        all_digits(dec_digits(n)),
        dec_value(dec_digits(n)) == n,
        dec_digits(n).len() > 1 ==> dec_digits(n)[0] != '0',
        dec_digits(n).len() == 1 ==> n < 10,
    decreases n,
{
    if n < 10 {
        let s = dec_digits(n);
        assert(s == seq![digit_char(n)]);
        assert(s.drop_last() =~= Seq::<char>::empty());
        assert(dec_value(s) == dec_value(Seq::<char>::empty()) * 10 + digit_val(digit_char(n)));
    } else {
        lemma_dec_digits_value(n / 10);
        lemma_fundamental_div_mod(n as int, 10);
        let a = dec_digits(n / 10);
        let s = dec_digits(n);
        assert(s == a + seq![digit_char(n % 10)]);
        assert(s.drop_last() =~= a);
        assert(s.last() == digit_char(n % 10));
        assert(digit_val(digit_char(n % 10)) == n % 10);
        assert(dec_value(s) == dec_value(a) * 10 + n % 10);
        assert(dec_value(s) == n);
        assert(s[0] == a[0]);
        assert(n / 10 >= 1);
        if a.len() == 1 {
            assert(a[0] == digit_char(n / 10));
            assert(digit_char(n / 10) != '0');
        }
        assert(all_digits(s)) by {
            assert forall|i: int| 0 <= i < s.len() implies is_digit(#[trigger] s[i]) by {
                if i < a.len() {
                    assert(s[i] == a[i]);
                }
            }
        }
    }
}

/// A digit text without a superfluous leading zero is the canonical numeral
/// of its value.
pub proof fn lemma_canonical_digits(s: Seq<char>)
    requires
        all_digits(s),
        s.len() > 1 ==> s[0] != '0',
    ensures
        dec_digits(dec_value(s)) == s,
        s.len() > 1 ==> dec_value(s) >= 10,
    decreases s.len(),
{
    if s.len() == 1 {
        assert(s.drop_last() =~= Seq::<char>::empty());
        assert(dec_value(Seq::<char>::empty()) == 0);
        assert(dec_value(s) == dec_value(s.drop_last()) * 10 + digit_val(s.last()));
        assert(dec_value(s) == digit_val(s.last()));
        assert(digit_char(digit_val(s[0])) == s[0]);
        assert(dec_digits(dec_value(s)) =~= s);
    } else {
        let a = s.drop_last();
        let d = digit_val(s.last());
        assert(a.len() >= 1);
        assert(forall|i: int| 0 <= i < a.len() ==> a[i] == s[i]);
        assert(all_digits(a));
        lemma_canonical_digits(a);
        let va = dec_value(a);
        assert(va >= 1) by {
            if a.len() == 1 {
                assert(digit_val(a[0]) >= 1);
                assert(a.drop_last() =~= Seq::<char>::empty());
            }
        }
        let v = dec_value(s);
        assert(v == va * 10 + d);
        assert(v >= 10);
        lemma_fundamental_div_mod(v as int, 10);
        assert(v / 10 == va && v % 10 == d) by {
            vstd::arithmetic::div_mod::lemma_fundamental_div_mod_converse(
                v as int,
                10,
                va as int,
                d as int,
            );
        }
        assert(dec_digits(v) == dec_digits(va) + seq![digit_char(d)]);
        assert(digit_char(digit_val(s.last())) == s.last());
        assert(dec_digits(v) =~= s);
    }
}

/// A digit text values at least its prefixes.
pub proof fn lemma_dec_value_prefix(s: Seq<char>, j: int)
    requires
        0 <= j <= s.len(),
        forall|i: int| 0 <= i < s.len() ==> is_digit(#[trigger] s[i]),
    ensures
        dec_value(s.take(j)) <= dec_value(s),
    decreases s.len() - j,
{
    if j == s.len() {
        assert(s.take(j) =~= s);
    } else {
        lemma_dec_value_prefix(s, j + 1);
        let t = s.take(j + 1);
        assert(t.drop_last() =~= s.take(j));
        assert(dec_value(t) == dec_value(s.take(j)) * 10 + digit_val(t.last()));
        assert(dec_value(s.take(j)) * 10 >= dec_value(s.take(j)));
    }
}

/// Appends the canonical numeral of `n` to `out`.
pub fn push_decimal(n: usize, out: &mut Vec<char>)
    ensures
        final(out)@ == old(out)@ + dec_digits(n as nat),
    decreases n,
{
    if n >= 10 {
        push_decimal(n / 10, out);
        out.push(digit_char_of(n % 10));
        proof {
            assert(out@ =~= old(out)@ + dec_digits(n as nat));
        }
    } else {
        out.push(digit_char_of(n));
        proof {
            assert(out@ =~= old(out)@ + dec_digits(n as nat));
        }
    }
}

/// The end of the run of digit characters that starts at `from`.
pub fn scan_digits(v: &Vec<char>, from: usize) -> (j: usize)
    requires
        from <= v@.len(),
    ensures
        from <= j <= v@.len(),
        forall|i: int| from <= i < j ==> is_digit(#[trigger] v@[i]),
        j < v@.len() ==> !is_digit(v@[j as int]),
{
    let n = v.len();
    let mut j = from;
    while j < n
        invariant
            from <= j <= n,
            n == v@.len(),
            forall|i: int| from <= i < j ==> is_digit(#[trigger] v@[i]),
        decreases n - j,
    {
        if !is_digit_char(v[j]) {
            return j;
        }
        j = j + 1;
    }
    j
}

/// The value of the digit run `v[from..to]`, when it fits in `usize`;
/// reports `None` exactly when it does not.
pub fn parse_digits_usize(v: &Vec<char>, from: usize, to: usize) -> (r: Option<usize>)
    requires
        from <= to <= v@.len(),
        forall|i: int| from <= i < to ==> is_digit(#[trigger] v@[i]),
    ensures
        match r {
            Some(x) => x == dec_value(v@.subrange(from as int, to as int)),
            None => dec_value(v@.subrange(from as int, to as int)) > usize::MAX,
        },
{
    let ghost seg = v@.subrange(from as int, to as int);
    let mut val: usize = 0;
    let mut i = from;
    proof {
        assert(seg.take(0) =~= Seq::<char>::empty());
    }
    while i < to
        invariant
            from <= i <= to <= v@.len(),
            forall|k: int| from <= k < to ==> is_digit(#[trigger] v@[k]),
            seg == v@.subrange(from as int, to as int),
            val == dec_value(seg.take(i - from)),
        decreases to - i,
    {
        let d = digit_val_char(v[i]);
        let ghost t = seg.take(i - from + 1);
        proof {
            assert(t.drop_last() =~= seg.take(i - from));
            assert(t.last() == v@[i as int]);
            assert(dec_value(t) == val * 10 + d);
        }
        if val > (usize::MAX - d) / 10 {
            // The run does not fit: its prefix up to here already exceeds
            // the largest representable value.
            proof {
                lemma_fundamental_div_mod((usize::MAX - d) as int, 10);
                assert(val * 10 >= ((usize::MAX - d) / 10 + 1) * 10) by (nonlinear_arith)
                    requires
                        val >= (usize::MAX - d) / 10 + 1,
                ;
                assert(dec_value(t) > usize::MAX);
                assert(forall|k: int| 0 <= k < seg.len() ==> is_digit(#[trigger] seg[k]));
                lemma_dec_value_prefix(seg, i - from + 1);
            }
            return None;
        }
        proof {
            lemma_fundamental_div_mod((usize::MAX - d) as int, 10);
            assert(val * 10 <= ((usize::MAX - d) / 10) * 10) by (nonlinear_arith)
                requires
                    val <= (usize::MAX - d) / 10,
            ;
        }
        val = val * 10 + d;
        i = i + 1;
    }
    proof {
        assert(seg.take(to - from) =~= seg);
    }
    Some(val)
}

/// The value of the digit run `v[from..to]`, when it fits in `u64`;
/// reports `None` exactly when it does not.
pub fn parse_digits_u64(v: &Vec<char>, from: usize, to: usize) -> (r: Option<u64>)
    requires
        from <= to <= v@.len(),
        forall|i: int| from <= i < to ==> is_digit(#[trigger] v@[i]),
    ensures
        match r {
            Some(x) => x == dec_value(v@.subrange(from as int, to as int)),
            None => dec_value(v@.subrange(from as int, to as int)) > u64::MAX,
        },
{
    let ghost seg = v@.subrange(from as int, to as int);
    let mut val: u64 = 0;
    let mut i = from;
    proof {
        assert(seg.take(0) =~= Seq::<char>::empty());
    }
    while i < to
        invariant
            from <= i <= to <= v@.len(),
            forall|k: int| from <= k < to ==> is_digit(#[trigger] v@[k]),
            seg == v@.subrange(from as int, to as int),
            val == dec_value(seg.take(i - from)),
        decreases to - i,
    {
        let d = digit_val_char(v[i]) as u64;
        let ghost t = seg.take(i - from + 1);
        proof {
            assert(t.drop_last() =~= seg.take(i - from));
            assert(t.last() == v@[i as int]);
            assert(dec_value(t) == val * 10 + d);
        }
        if val > (u64::MAX - d) / 10 {
            // The run does not fit: its prefix up to here already exceeds
            // the largest representable value.
            proof {
                lemma_fundamental_div_mod((u64::MAX - d) as int, 10);
                assert(val * 10 >= ((u64::MAX - d) / 10 + 1) * 10) by (nonlinear_arith)
                    requires
                        val >= (u64::MAX - d) / 10 + 1,
                ;
                assert(dec_value(t) > u64::MAX);
                assert(forall|k: int| 0 <= k < seg.len() ==> is_digit(#[trigger] seg[k]));
                lemma_dec_value_prefix(seg, i - from + 1);
            }
            return None;
        }
        proof {
            lemma_fundamental_div_mod((u64::MAX - d) as int, 10);
            assert(val * 10 <= ((u64::MAX - d) / 10) * 10) by (nonlinear_arith)
                requires
                    val <= (u64::MAX - d) / 10,
            ;
        }
        val = val * 10 + d;
        i = i + 1;
    }
    proof {
        assert(seg.take(to - from) =~= seg);
    }
    Some(val)
}

} // verus!
