//! Decimal text of unsigned numbers, and small helpers for building strings.

use vstd::prelude::*;
use vstd::string::*;

verus! {

/// The character that writes the digit `d`.
pub open spec fn digit_char(d: nat) -> char {
    if d == 0 {
        '0'
    } else if d == 1 {
        '1'
    } else if d == 2 {
        '2'
    } else if d == 3 {
        '3'
    } else if d == 4 {
        '4'
    } else if d == 5 {
        '5'
    } else if d == 6 {
        '6'
    } else if d == 7 {
        '7'
    } else if d == 8 {
        '8'
    } else {
        '9'
    }
}

/// The decimal text of `n`: no sign, no leading zero except for zero itself.
pub open spec fn decimal(n: nat) -> Seq<char>
    decreases n,
{
    if n < 10 {
        seq![digit_char(n)]
    } else {
        decimal(n / 10).push(digit_char(n % 10))
    }
}

/// `count` copies of the character `c`.
pub open spec fn repeated(c: char, count: nat) -> Seq<char> {
    Seq::new(count, |i: int| c)
}

/// Appends one decimal digit to `out`.
pub fn push_digit(out: &mut String, d: usize)
    requires
        d < 10,
    ensures
        final(out)@ == old(out)@.push(digit_char(d as nat)),
{
    let ghost before = out@;
    if d == 0 {
        out.append("0");
        proof { reveal_strlit("0"); }
    } else if d == 1 {
        out.append("1");
        proof { reveal_strlit("1"); }
    } else if d == 2 {
        out.append("2");
        proof { reveal_strlit("2"); }
    } else if d == 3 {
        out.append("3");
        proof { reveal_strlit("3"); }
    } else if d == 4 {
        out.append("4");
        proof { reveal_strlit("4"); }
    } else if d == 5 {
        out.append("5");
        proof { reveal_strlit("5"); }
    } else if d == 6 {
        out.append("6");
        proof { reveal_strlit("6"); }
    } else if d == 7 {
        out.append("7");
        proof { reveal_strlit("7"); }
    } else if d == 8 {
        out.append("8");
        proof { reveal_strlit("8"); }
    } else {
        out.append("9");
        proof { reveal_strlit("9"); }
    }
    assert(out@ =~= before.push(digit_char(d as nat)));
}

/// Appends the decimal text of `n` to `out`.
pub fn push_decimal(out: &mut String, n: usize)
    ensures
        final(out)@ == old(out)@ + decimal(n as nat),
    decreases n,
{
    let ghost before = out@;
    if n >= 10 {
        push_decimal(out, n / 10);
        push_digit(out, n % 10);
    } else {
        push_digit(out, n);
    }
    assert(out@ =~= before + decimal(n as nat));
}

/// The characters of `s`, in order.
pub fn chars_of(s: &str) -> (v: Vec<char>)
    ensures
        v@ == s@,
{
    broadcast use axiom_spec_iter;

    let mut v: Vec<char> = Vec::new();
    for c in it: s.chars()
        invariant
            it.seq() == s@,
            v@ == it.seq().take(it.index() as int),
    {
        v.push(c);
        assert(v@ =~= it.seq().take(it.index() + 1));
    }
    assert(v@ =~= s@);
    v
}

/// A string of `count` zero digits.
pub fn zeros(count: usize) -> (s: String)
    ensures
        s@ == repeated('0', count as nat),
{
    let mut s = String::new();
    let mut i: usize = 0;
    assert(s@ =~= repeated('0', 0));
    while i < count
        invariant
            i <= count,
            s@ == repeated('0', i as nat),
        decreases count - i,
    {
        s.append("0");
        proof {
            reveal_strlit("0");
        }
        assert(s@ =~= repeated('0', (i + 1) as nat));
        i += 1;
    }
    s
}

/// The decimal text of `n` as a string of its own.
pub fn decimal_string(n: usize) -> (s: String)
    ensures
        s@ == decimal(n as nat),
{
    let mut s = String::new();
    push_decimal(&mut s, n);
    assert(s@ =~= decimal(n as nat));
    s
}

/// Whether `word` stands in `text` at the position `at`.
pub open spec fn occurs_at(text: Seq<char>, word: Seq<char>, at: int) -> bool {
    0 <= at && at + word.len() <= text.len() && text.subrange(at, at + word.len()) == word
}

/// Whether `word` stands somewhere in `text`.
pub open spec fn occurs(text: Seq<char>, word: Seq<char>) -> bool {
    exists|at: int| occurs_at(text, word, at)
}

/// Looks for `word` in `text`.
pub fn contains_word(text: &Vec<char>, word: &Vec<char>) -> (b: bool)
    ensures
        b == occurs(text@, word@),
{
    if word.len() == 0 {
        assert(text@.subrange(0, 0) =~= word@);
        assert(occurs_at(text@, word@, 0));
        return true;
    }
    if word.len() > text.len() {
        return false;
    }
    let last: usize = text.len() - word.len();
    let mut at: usize = 0;
    while at <= last
        invariant
            0 < word.len() <= text.len(),
            last == text.len() - word.len(),
            at <= last + 1,
            forall|k: int| 0 <= k < at ==> !occurs_at(text@, word@, k),
        decreases last + 1 - at,
    {
        let mut j: usize = 0;
        while j < word.len() && text[at + j] == word[j]
            invariant
                j <= word.len(),
                at + word.len() <= text.len(),
                forall|m: int| 0 <= m < j ==> text@[at + m] == word@[m],
            decreases word.len() - j,
        {
            j += 1;
        }
        if j == word.len() {
            assert(text@.subrange(at as int, at + word.len()) =~= word@);
            assert(occurs_at(text@, word@, at as int));
            return true;
        }
        assert(text@.subrange(at as int, at + word.len())[j as int] != word@[j as int]);
        at += 1;
    }
    false
}

} // verus!
