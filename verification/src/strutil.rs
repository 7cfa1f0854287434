//! Small string utilities shared across the crate.

use vstd::prelude::*;
use vstd::string::StringExecFns;

verus! {

/// Relies on `String::push` from std, which vstd leaves unspecified:
/// it appends exactly the one character to the end of the string.
pub assume_specification[ String::push ](s: &mut String, ch: char)
    ensures
        final(s)@ == old(s)@.push(ch),
;

/// Decide whether two texts hold the same characters.
pub fn str_eq(a: &str, b: &str) -> (r: bool)
    ensures
        r == (a@ == b@),
{
    let na = a.unicode_len();
    let nb = b.unicode_len();
    if na != nb {
        return false;
    }
    let mut i: usize = 0;
    while i < na
        invariant
            na == a@.len(),
            na == b@.len(),
            i <= na,
            forall|k: int| 0 <= k < i ==> a@[k] == b@[k],
        decreases na - i,
    {
        if a.get_char(i) != b.get_char(i) {
            return false;
        }
        i += 1;
    }
    proof {
        assert(a@ =~= b@);
    }
    true
}

/// The decimal digit character for a value below ten.
pub open spec fn spec_digit(d: int) -> char {
    if d == 0 {
        '0'
    } else if d == 1 {
        '1'
    } else if d == 2 {
        '2'
    } else if d == 3 {
        '3'
    } else if d == 4 {
        '4'
    } else if d == 5 {
        '5'
    } else if d == 6 {
        '6'
    } else if d == 7 {
        '7'
    } else if d == 8 {
        '8'
    } else {
        '9'
    }
}

/// The decimal notation of a natural number, most significant digit first.
pub open spec fn spec_dec_str(n: int) -> Seq<char>
    decreases n,
{
    if n < 10 {
        seq![spec_digit(if n < 0 { 0 } else { n % 10 })]
    } else {
        spec_dec_str(n / 10).push(spec_digit(n % 10))
    }
}

/// One decimal digit as a character.
fn digit_char(d: u64) -> (r: char)
    requires
        d < 10,
    ensures
        r == spec_digit(d as int),
{
    if d == 0 {
        '0'
    } else if d == 1 {
        '1'
    } else if d == 2 {
        '2'
    } else if d == 3 {
        '3'
    } else if d == 4 {
        '4'
    } else if d == 5 {
        '5'
    } else if d == 6 {
        '6'
    } else if d == 7 {
        '7'
    } else if d == 8 {
        '8'
    } else {
        '9'
    }
}

/// Write a number in decimal.
pub fn u64_to_string(n: u64) -> (r: String)
    ensures
        r@ == spec_dec_str(n as int),
{
    let mut digits: Vec<char> = Vec::new();
    let mut rest = n;
    while rest >= 10
        invariant
            spec_dec_str(n as int) == spec_dec_str(rest as int) + digits@.reverse(),
        decreases rest,
    {
        let d = digit_char(rest % 10);
        proof {
            assert(spec_dec_str(rest as int) == spec_dec_str(rest as int / 10).push(
                spec_digit(rest as int % 10),
            ));
            assert(spec_dec_str(rest as int / 10) + digits@.push(spec_digit(rest as int % 10)).reverse()
                =~= spec_dec_str(rest as int).add(digits@.reverse()));
        }
        digits.push(d);
        rest = rest / 10;
    }
    let last = digit_char(rest % 10);
    proof {
        assert(rest as int % 10 == rest as int) by {
            assert(rest < 10);
        }
        assert(spec_dec_str(rest as int) == seq![spec_digit(rest as int)]);
    }
    let mut out = String::new();
    out.push(last);
    let mut i = digits.len();
    proof {
        assert(out@ =~= spec_dec_str(rest as int));
        assert(out@ + digits@.subrange(0, i as int).reverse() =~= spec_dec_str(n as int));
    }
    while i > 0
        invariant
            i <= digits.len(),
            out@ + digits@.subrange(0, i as int).reverse() == spec_dec_str(n as int),
        decreases i,
    {
        i = i - 1;
        let c = digits[i];
        proof {
            assert(digits@.subrange(0, i as int + 1).reverse() =~= seq![digits@[i as int]]
                + digits@.subrange(0, i as int).reverse());
            assert(out@.push(digits@[i as int]) + digits@.subrange(0, i as int).reverse()
                =~= out@ + digits@.subrange(0, i as int + 1).reverse());
        }
        out.push(c);
    }
    proof {
        assert(digits@.subrange(0, 0).reverse() =~= Seq::<char>::empty());
        assert(out@ =~= spec_dec_str(n as int));
    }
    out
}

/// The decimal notation of a signed number.
pub open spec fn spec_dec_str_i64(n: int) -> Seq<char> {
    if n < 0 {
        seq!['-'] + spec_dec_str(-n)
    } else {
        spec_dec_str(n)
    }
}

/// Write a signed number in decimal.
pub fn i64_to_string(n: i64) -> (r: String)
    ensures
        r@ == spec_dec_str_i64(n as int),
{
    if n >= 0 {
        u64_to_string(n as u64)
    } else {
        let mag: u64 = (-(n as i128)) as u64;
        proof {
            reveal_strlit("-");
            assert("-"@ =~= seq!['-']);
        }
        let mut out = String::from_str("-");
        out.append(u64_to_string(mag).as_str());
        out
    }
}

} // verus!
