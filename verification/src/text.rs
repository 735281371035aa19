//! Decimal numerals and small helpers for building text.

use vstd::prelude::*;

verus! {

/// The character of one decimal digit.
pub open spec fn digit_char(d: nat) -> char
    recommends
        d < 10,
{
    if d == 0 {
        '0'
    } else if d == 1 {
        '1'
    } else if d == 2 {
        '2'
    } else if d == 3 {
        '3'
    } else if d == 4 {
        '4'
    } else if d == 5 {
        '5'
    } else if d == 6 {
        '6'
    } else if d == 7 {
        '7'
    } else if d == 8 {
        '8'
    } else {
        '9'
    }
}

/// The decimal numeral of `n`: most significant digit first, no leading zero.
pub open spec fn decimal(n: nat) -> Seq<char>
    decreases n,
{
    if n < 10 {
        seq![digit_char(n)]
    } else {
        decimal(n / 10) + seq![digit_char(n % 10)]
    }
}

/// The decimal numeral of an integer, with a leading `-` below zero.
pub open spec fn signed_decimal(i: int) -> Seq<char> {
    if i < 0 {
        seq!['-'] + decimal((-i) as nat)
    } else {
        decimal(i as nat)
    }
}

fn digit_str(d: u8) -> (s: &'static str)
    requires
        d < 10,
    ensures
        s@ == seq![digit_char(d as nat)],
{
    proof {
        reveal_strlit("0");
        reveal_strlit("1");
        reveal_strlit("2");
        reveal_strlit("3");
        reveal_strlit("4");
        reveal_strlit("5");
        reveal_strlit("6");
        reveal_strlit("7");
        reveal_strlit("8");
        reveal_strlit("9");
    }
    let s = if d == 0 {
        "0"
    } else if d == 1 {
        "1"
    } else if d == 2 {
        "2"
    } else if d == 3 {
        "3"
    } else if d == 4 {
        "4"
    } else if d == 5 {
        "5"
    } else if d == 6 {
        "6"
    } else if d == 7 {
        "7"
    } else if d == 8 {
        "8"
    } else {
        "9"
    };
    assert(s@ =~= seq![digit_char(d as nat)]);
    s
}

/// Writes `n` in decimal.
pub fn decimal_string(n: u128) -> (s: String)
    ensures
        s@ == decimal(n as nat),
    decreases n,
{
    if n < 10 {
        digit_str(n as u8).to_owned()
    } else {
        let mut s = decimal_string(n / 10);
        s.append(digit_str((n % 10) as u8));
        s
    }
}

/// Writes `i` in decimal, with a leading `-` below zero.
pub fn signed_decimal_string(i: i64) -> (s: String)
    ensures
        s@ == signed_decimal(i as int),
{
    if i < 0 {
        let magnitude: u128 = (-(i as i128)) as u128;
        let mut s = "-".to_owned();
        proof {
            reveal_strlit("-");
            assert("-"@ =~= seq!['-']);
        }
        let digits = decimal_string(magnitude);
        s.append(digits.as_str());
        s
    } else {
        decimal_string(i as u128)
    }
}

/// The characters of `s`.
pub fn to_chars(s: &str) -> (res: Vec<char>)
    ensures
        res@ == s@,
{
    let mut v: Vec<char> = Vec::new();
    for c in it: s.chars()
        invariant
            it.seq() == s@,
            v@ == it.seq().take(it.index() as int),
    {
        v.push(c);
    }
    v
}

/// The first place at or after `from` where `c` stands in `s`, or the length
/// of `s` where it stands nowhere.
pub open spec fn find(s: Seq<char>, c: char, from: int) -> int
    decreases s.len() - from,
{
    if from < 0 || from >= s.len() {
        s.len() as int
    } else if s[from] == c {
        from
    } else {
        find(s, c, from + 1)
    }
}

/// Finds the first `c` at or after `from`.
pub fn find_char(chars: &Vec<char>, c: char, from: usize) -> (res: usize)
    ensures
        res == find(chars@, c, from as int),
        from <= chars@.len() ==> from <= res <= chars@.len(),
{
    let mut i: usize = from;
    while i < chars.len()
        invariant
            from <= i,
            find(chars@, c, from as int) == find(chars@, c, i as int),
        decreases chars.len() - i,
    {
        if chars[i] == c {
            return i;
        }
        i += 1;
    }
    chars.len()
}

/// The value of a decimal digit; zero for any other character.
pub open spec fn digit_value(c: char) -> nat {
    if c == '1' {
        1
    } else if c == '2' {
        2
    } else if c == '3' {
        3
    } else if c == '4' {
        4
    } else if c == '5' {
        5
    } else if c == '6' {
        6
    } else if c == '7' {
        7
    } else if c == '8' {
        8
    } else if c == '9' {
        9
    } else {
        0
    }
}

/// Whether `c` is a decimal digit.
pub open spec fn is_digit(c: char) -> bool {
    c == '0' || c == '1' || c == '2' || c == '3' || c == '4' || c == '5' || c == '6' || c == '7'
        || c == '8' || c == '9'
}

/// The number that a decimal numeral stands for.
pub open spec fn numeral_value(s: Seq<char>) -> nat
    decreases s.len(),
{
    if s.len() == 0 {
        0
    } else {
        numeral_value(s.drop_last()) * 10 + digit_value(s.last())
    }
}

/// A numeral stands for the number it was written from.
pub proof fn lemma_decimal_value(n: nat)
    ensures
        numeral_value(decimal(n)) == n,
    decreases n,
{
    if n < 10 {
        let s = seq![digit_char(n)];
        assert(s.drop_last() =~= Seq::<char>::empty());
        assert(numeral_value(s.drop_last()) == 0);
        assert(s.last() == digit_char(n));
    } else {
        lemma_decimal_value(n / 10);
        let s = decimal(n / 10) + seq![digit_char(n % 10)];
        assert(s.drop_last() =~= decimal(n / 10));
        assert(s.last() == digit_char(n % 10));
    }
}

/// Different numbers have different numerals.
pub proof fn lemma_decimal_injective(a: nat, b: nat)
    requires
        decimal(a) == decimal(b),
    ensures
        a == b,
{
    lemma_decimal_value(a);
    lemma_decimal_value(b);
}

/// A numeral is made of digits and is not empty.
pub proof fn lemma_decimal_digits(n: nat)
    ensures
        decimal(n).len() >= 1,
        forall|i: int| 0 <= i < decimal(n).len() ==> is_digit(#[trigger] decimal(n)[i]),
    decreases n,
{
    if n >= 10 {
        lemma_decimal_digits(n / 10);
    }
}

/// Where `c` stands at `at` and nowhere between `from` and `at`, it is found
/// at `at`.
pub proof fn lemma_find_first(s: Seq<char>, c: char, from: int, at: int)
    requires
        0 <= from <= at < s.len(),
        s[at] == c,
        forall|j: int| from <= j < at ==> s[j] != c,
    ensures
        find(s, c, from) == at,
    decreases at - from,
{
    if from < at {
        lemma_find_first(s, c, from + 1, at);
    }
}

} // verus!
