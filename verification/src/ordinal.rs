//! The ordinal formatter: renders a 1-based counter as decimal text,
//! lowercase letters, or lowercase-roman-like numerals, by nesting depth.

use vstd::prelude::*;

use crate::chars::chars_to_string;

verus! {

pub open spec fn digit_char(d: int) -> char {
    if d == 0 {
        '0'
    } else if d == 1 {
        '1'
    } else if d == 2 {
        '2'
    } else if d == 3 {
        '3'
    } else if d == 4 {
        '4'
    } else if d == 5 {
        '5'
    } else if d == 6 {
        '6'
    } else if d == 7 {
        '7'
    } else if d == 8 {
        '8'
    } else {
        '9'
    }
}

/// The decimal digits of `n`, most significant first.
pub open spec fn decimal_digits(n: int) -> Seq<char>
    decreases n,
{
    if n < 10 {
        seq![digit_char(n)]
    } else {
        decimal_digits(n / 10) + seq![digit_char(n % 10)]
    }
}

/// The rendered ordinal for count `n` at nesting depth `depth`: decimal
/// at depths 0, 3, ...; letters `a` to `d` at depths 1, 4, ...; roman
/// numerals `i` to `iv` at depths 2, 5, .... The small letter and roman
/// alphabets fall back to a `?` placeholder beyond their four entries.
pub open spec fn ordinal_text(n: int, depth: int) -> Seq<char> {
    if depth % 3 == 1 {
        if n == 1 {
            seq!['a']
        } else if n == 2 {
            seq!['b']
        } else if n == 3 {
            seq!['c']
        } else if n == 4 {
            seq!['d']
        } else {
            seq!['?']
        }
    } else if depth % 3 == 2 {
        if n == 1 {
            seq!['i']
        } else if n == 2 {
            seq!['i', 'i']
        } else if n == 3 {
            seq!['i', 'i', 'i']
        } else if n == 4 {
            seq!['i', 'v']
        } else {
            seq!['?']
        }
    } else {
        decimal_digits(n)
    }
}

fn digit_exec(d: usize) -> (c: char)
    requires
        d < 10,
    ensures
        c == digit_char(d as int),
{
    if d == 0 {
        '0'
    } else if d == 1 {
        '1'
    } else if d == 2 {
        '2'
    } else if d == 3 {
        '3'
    } else if d == 4 {
        '4'
    } else if d == 5 {
        '5'
    } else if d == 6 {
        '6'
    } else if d == 7 {
        '7'
    } else if d == 8 {
        '8'
    } else {
        '9'
    }
}

fn push_decimal(n: usize, out: &mut Vec<char>)
    ensures
        final(out)@ == old(out)@ + decimal_digits(n as int),
    decreases n,
{
    if n < 10 {
        out.push(digit_exec(n));
        assert(out@ =~= old(out)@ + decimal_digits(n as int));
    } else {
        push_decimal(n / 10, out);
        out.push(digit_exec(n % 10));
        assert(out@ =~= old(out)@ + decimal_digits(n as int));
    }
}

/// Renders the 1-based count `number` as the ordinal marker used at list
/// nesting depth `depth`. See [`ordinal_text`].
pub fn format_number(number: usize, depth: usize) -> (r: String)
    ensures
        r@ == ordinal_text(number as int, depth as int),
{
    let class = depth % 3;
    assert(class as int == depth as int % 3);
    if class == 1 {
        let mut v: Vec<char> = Vec::new();
        if number == 1 {
            v.push('a');
        } else if number == 2 {
            v.push('b');
        } else if number == 3 {
            v.push('c');
        } else if number == 4 {
            v.push('d');
        } else {
            v.push('?');
        }
        assert(v@ =~= ordinal_text(number as int, depth as int));
        chars_to_string(&v)
    } else if class == 2 {
        let mut v: Vec<char> = Vec::new();
        if number == 1 {
            v.push('i');
        } else if number == 2 {
            v.push('i');
            v.push('i');
        } else if number == 3 {
            v.push('i');
            v.push('i');
            v.push('i');
        } else if number == 4 {
            v.push('i');
            v.push('v');
        } else {
            v.push('?');
        }
        assert(v@ =~= ordinal_text(number as int, depth as int));
        chars_to_string(&v)
    } else {
        let mut v: Vec<char> = Vec::new();
        push_decimal(number, &mut v);
        assert(v@ =~= decimal_digits(number as int));
        chars_to_string(&v)
    }
}

} // verus!
