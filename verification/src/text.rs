//! Decimal numerals and the identifier scheme built on them.
use vstd::prelude::*;
use vstd::string::StringExecFns;

verus! {

/// The character that stands for a single decimal digit.
pub open spec fn digit(d: nat) -> char {
    if d == 0 {
        '0'
    } else if d == 1 {
        '1'
    } else if d == 2 {
        '2'
    } else if d == 3 {
        '3'
    } else if d == 4 {
        '4'
    } else if d == 5 {
        '5'
    } else if d == 6 {
        '6'
    } else if d == 7 {
        '7'
    } else if d == 8 {
        '8'
    } else {
        '9'
    }
}

/// The decimal numeral of `n`: most significant digit first, no leading zero.
pub open spec fn decimal(n: nat) -> Seq<char>
    decreases n,
{
    if n < 10 {
        seq![digit(n)]
    } else {
        decimal(n / 10).push(digit(n % 10))
    }
}

/// The digit that a character stands for; zero for any other character.
pub open spec fn digit_value(c: char) -> nat {
    if c == '1' {
        1
    } else if c == '2' {
        2
    } else if c == '3' {
        3
    } else if c == '4' {
        4
    } else if c == '5' {
        5
    } else if c == '6' {
        6
    } else if c == '7' {
        7
    } else if c == '8' {
        8
    } else if c == '9' {
        9
    } else {
        0
    }
}

/// The number that a decimal numeral stands for.
pub open spec fn numeral_value(s: Seq<char>) -> nat
    decreases s.len(),
{
    if s.len() == 0 {
        0
    } else {
        numeral_value(s.drop_last()) * 10 + digit_value(s.last())
    }
}

/// Reading a numeral gives back the number that it was written for.
pub proof fn lemma_numeral_value_of_decimal(n: nat)
    ensures
        numeral_value(decimal(n)) == n,
    decreases n,
{
    if n < 10 {
        assert(numeral_value(decimal(n).drop_last()) == 0);
    } else {
        lemma_numeral_value_of_decimal(n / 10);
        assert(decimal(n).drop_last() =~= decimal(n / 10));
    }
}

/// The characters that numerals are made of.
pub open spec fn is_digit(c: char) -> bool {
    c == '0' || c == '1' || c == '2' || c == '3' || c == '4' || c == '5' || c == '6' || c == '7'
        || c == '8' || c == '9'
}

/// A numeral is not empty and holds nothing but digits.
pub proof fn lemma_decimal_digits(n: nat)
    ensures
        decimal(n).len() >= 1,
        forall|i: int| 0 <= i < decimal(n).len() ==> is_digit(#[trigger] decimal(n)[i]),
    decreases n,
{
    if n >= 10 {
        lemma_decimal_digits(n / 10);
    }
}

/// Different numbers have different numerals.
pub proof fn lemma_decimal_injective(a: nat, b: nat)
    requires
        decimal(a) == decimal(b),
    ensures
        a == b,
{
    lemma_numeral_value_of_decimal(a);
    lemma_numeral_value_of_decimal(b);
}

fn digit_str(d: usize) -> (s: &'static str)
    requires
        d < 10,
    ensures
        s@ == seq![digit(d as nat)],
{
    proof {
        reveal_strlit("0");
        reveal_strlit("1");
        reveal_strlit("2");
        reveal_strlit("3");
        reveal_strlit("4");
        reveal_strlit("5");
        reveal_strlit("6");
        reveal_strlit("7");
        reveal_strlit("8");
        reveal_strlit("9");
    }
    let s = if d == 0 {
        "0"
    } else if d == 1 {
        "1"
    } else if d == 2 {
        "2"
    } else if d == 3 {
        "3"
    } else if d == 4 {
        "4"
    } else if d == 5 {
        "5"
    } else if d == 6 {
        "6"
    } else if d == 7 {
        "7"
    } else if d == 8 {
        "8"
    } else {
        "9"
    };
    s
}

/// Writes `n` as a decimal numeral.
pub fn decimal_string(n: usize) -> (s: String)
    ensures
        s@ == decimal(n as nat),
    decreases n,
{
    if n < 10 {
        String::from_str(digit_str(n))
    } else {
        let mut s = decimal_string(n / 10);
        s.append(digit_str(n % 10));
        s
    }
}

/// `prefix`, then `separator`, then the numeral of `n`.
pub open spec fn numbered(prefix: Seq<char>, separator: Seq<char>, n: nat) -> Seq<char> {
    prefix + separator + decimal(n)
}

/// The number at the end of a name that was built on `prefix` and `separator`.
pub open spec fn number_of(prefix: Seq<char>, separator: Seq<char>, name: Seq<char>) -> nat {
    numeral_value(name.skip((prefix.len() + separator.len()) as int))
}

/// The number at the end of a name is the number that the name was built with.
pub proof fn lemma_number_of_numbered(prefix: Seq<char>, separator: Seq<char>, n: nat)
    ensures
        number_of(prefix, separator, numbered(prefix, separator, n)) == n,
{
    let head = prefix + separator;
    assert(decimal(n) =~= (head + decimal(n)).skip(head.len() as int));
    lemma_numeral_value_of_decimal(n);
}

/// Builds `prefix`, then `separator`, then the numeral of `n`.
pub fn numbered_string(prefix: &str, separator: &str, n: usize) -> (s: String)
    ensures
        s@ == numbered(prefix@, separator@, n as nat),
{
    let mut s = String::from_str(prefix);
    s.append(separator);
    let digits = decimal_string(n);
    s.append(digits.as_str());
    s
}

/// A numeral at the head of a text ends where the digits end: two texts
/// that agree, each a numeral followed by nothing or by something that
/// starts with no digit, agree in the number and in what follows it.
pub proof fn lemma_leading_numeral(a: nat, s: Seq<char>, b: nat, t: Seq<char>)
    requires
        decimal(a) + s == decimal(b) + t,
        s.len() == 0 || !is_digit(s[0]),
        t.len() == 0 || !is_digit(t[0]),
    ensures
        a == b,
        s == t,
{
    lemma_decimal_digits(a);
    lemma_decimal_digits(b);
    let left = decimal(a) + s;
    let right = decimal(b) + t;
    let la = decimal(a).len() as int;
    let lb = decimal(b).len() as int;
    if la < lb {
        if s.len() > 0 {
            assert(left[la] == s[0]);
        }
        assert(false);
    }
    if lb < la {
        if t.len() > 0 {
            assert(right[lb] == t[0]);
        }
        assert(false);
    }
    assert(decimal(a) =~= left.take(la));
    assert(decimal(b) =~= right.take(lb));
    assert(s =~= left.skip(la));
    assert(t =~= right.skip(lb));
    lemma_decimal_injective(a, b);
}

} // verus!
