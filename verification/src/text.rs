//! Comparing and copying names.

use vstd::prelude::*;

verus! {

/// Whether two names are the same text.
pub fn same_text(a: &String, b: &String) -> (r: bool)
    ensures
        r == (a@ == b@),
{
    *a == *b
}

/// Whether an optional name is there and is the given text.
pub fn is_text(a: &Option<String>, b: &String) -> (r: bool)
    ensures
        r == (text_view(*a) == Some(b@)),
{
    match a {
        Some(name) => same_text(name, b),
        None => false,
    }
}

/// An optional name as optional text.
pub open spec fn text_view(a: Option<String>) -> Option<Seq<char>> {
    match a {
        Some(name) => Some(name@),
        None => None,
    }
}


/// A copy of an optional name.
pub fn copy_name(a: &Option<String>) -> (r: Option<String>)
    ensures
        r == *a,
{
    match a {
        Some(name) => Some(name.clone()),
        None => None,
    }
}

/// A copy of a list of plain values.
pub fn copy_list<T: Copy>(list: &Vec<T>) -> (r: Vec<T>)
    ensures
        r@ == list@,
{
    let n: usize = list.len();
    let mut out: Vec<T> = Vec::new();
    let mut i: usize = 0;
    while i < n
        invariant
            n == list@.len(),
            0 <= i <= n,
            out@ == list@.take(i as int),
        decreases n - i,
    {
        out.push(list[i]);
        assert(out@ =~= list@.take(i + 1));
        i = i + 1;
    }
    assert(list@.take(n as int) == list@);
    out
}


/// The character of a decimal digit.
pub open spec fn digit_char(d: int) -> char {
    if d == 0 {
        '0'
    } else if d == 1 {
        '1'
    } else if d == 2 {
        '2'
    } else if d == 3 {
        '3'
    } else if d == 4 {
        '4'
    } else if d == 5 {
        '5'
    } else if d == 6 {
        '6'
    } else if d == 7 {
        '7'
    } else if d == 8 {
        '8'
    } else {
        '9'
    }
}

/// A number in decimal digits, without leading zeros.
pub open spec fn decimal_text(n: nat) -> Seq<char>
    decreases n,
{
    if n < 10 {
        seq![digit_char(n as int)]
    } else {
        decimal_text(n / 10).push(digit_char((n % 10) as int))
    }
}

/// A decimal digit as text.
fn digit_text(d: u64) -> (r: &'static str)
    requires
        d < 10,
    ensures
        r@ == seq![digit_char(d as int)],
{
    proof {
        reveal_strlit("0");
        reveal_strlit("1");
        reveal_strlit("2");
        reveal_strlit("3");
        reveal_strlit("4");
        reveal_strlit("5");
        reveal_strlit("6");
        reveal_strlit("7");
        reveal_strlit("8");
        reveal_strlit("9");
    }
    let r: &'static str = if d == 0 {
        "0"
    } else if d == 1 {
        "1"
    } else if d == 2 {
        "2"
    } else if d == 3 {
        "3"
    } else if d == 4 {
        "4"
    } else if d == 5 {
        "5"
    } else if d == 6 {
        "6"
    } else if d == 7 {
        "7"
    } else if d == 8 {
        "8"
    } else {
        "9"
    };
    assert(r@ =~= seq![digit_char(d as int)]);
    r
}

/// `prefix` followed by `n` in decimal digits.
pub fn numbered(prefix: String, n: u64) -> (r: String)
    ensures
        r@ == prefix@ + decimal_text(n as nat),
    decreases n,
{
    if n < 10 {
        prefix.concat(digit_text(n))
    } else {
        let front: String = numbered(prefix, n / 10);
        let r: String = front.concat(digit_text(n % 10));
        assert(r@ =~= prefix@ + decimal_text(n as nat));
        r
    }
}

} // verus!
