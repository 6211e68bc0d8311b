//! Small verified helpers on strings: content equality and rendering a
//! number in decimal, both stated against character-sequence views.

use vstd::prelude::*;
use vstd::string::StrSliceExecFns;
use vstd::string::StringExecFns;

verus! {

/// The view of an optional string: the characters, if the string is there.
pub open spec fn opt_view(o: Option<String>) -> Option<Seq<char>> {
    match o {
        Some(s) => Some(s@),
        None => None,
    }
}

/// Clones an optional string.
pub fn clone_opt(o: &Option<String>) -> (r: Option<String>)
    ensures
        opt_view(r) == opt_view(*o),
{
    match o {
        Some(s) => Some(s.clone()),
        None => None,
    }
}

/// Whether two string slices hold the same characters.
pub fn str_eq(a: &str, b: &str) -> (r: bool)
    ensures
        r == (a@ == b@),
{
    let alen = a.unicode_len();
    let blen = b.unicode_len();
    if alen != blen {
        return false;
    }
    let mut i: usize = 0;
    while i < alen
        invariant
            0 <= i <= alen,
            alen as nat == a@.len(),
            blen as nat == b@.len(),
            alen == blen,
            forall|k: int| 0 <= k < i ==> a@[k] == b@[k],
        decreases alen - i,
    {
        if a.get_char(i) != b.get_char(i) {
            return false;
        }
        i += 1;
    }
    proof {
        assert(a@ =~= b@);
    }
    true
}

/// The character for one decimal digit.
pub open spec fn digit_char(d: int) -> char {
    if d == 0 {
        '0'
    } else if d == 1 {
        '1'
    } else if d == 2 {
        '2'
    } else if d == 3 {
        '3'
    } else if d == 4 {
        '4'
    } else if d == 5 {
        '5'
    } else if d == 6 {
        '6'
    } else if d == 7 {
        '7'
    } else if d == 8 {
        '8'
    } else {
        '9'
    }
}

/// The decimal rendering of a nonnegative number, most significant digit
/// first.
pub open spec fn spec_decimal(n: int) -> Seq<char>
    decreases n,
{
    if n <= 9 {
        seq![digit_char(n)]
    } else {
        spec_decimal(n / 10).push(digit_char(n % 10))
    }
}

/// A one-character string for a single decimal digit.
fn digit_str(d: u64) -> (r: &'static str)
    requires
        d < 10,
    ensures
        r@ == seq![digit_char(d as int)],
{
    proof {
        reveal_strlit("0");
        reveal_strlit("1");
        reveal_strlit("2");
        reveal_strlit("3");
        reveal_strlit("4");
        reveal_strlit("5");
        reveal_strlit("6");
        reveal_strlit("7");
        reveal_strlit("8");
        reveal_strlit("9");
    }
    match d {
        0 => "0",
        1 => "1",
        2 => "2",
        3 => "3",
        4 => "4",
        5 => "5",
        6 => "6",
        7 => "7",
        8 => "8",
        _ => "9",
    }
}

/// Renders a number in decimal.
pub fn u64_to_string(n: u64) -> (r: String)
    ensures
        r@ == spec_decimal(n as int),
    decreases n,
{
    if n <= 9 {
        let s = String::from_str(digit_str(n));
        s
    } else {
        let prefix = u64_to_string(n / 10);
        let r = prefix.concat(digit_str(n % 10));
        proof {
            assert(r@ =~= spec_decimal(n as int));
        }
        r
    }
}

/// Renders a count in decimal.
pub fn usize_to_string(n: usize) -> (r: String)
    ensures
        r@ == spec_decimal(n as int),
{
    u64_to_string(n as u64)
}

/// A decimal rendering has at least one digit, and more than one for
/// numbers past nine.
pub proof fn lemma_spec_decimal_len(n: int)
    requires
        0 <= n,
    ensures
        spec_decimal(n).len() >= 1,
        n > 9 ==> spec_decimal(n).len() >= 2,
    decreases n,
{
    if n > 9 {
        lemma_spec_decimal_len(n / 10);
    }
}

/// Different numbers never share a decimal rendering.
pub proof fn lemma_spec_decimal_injective(a: int, b: int)
    requires
        0 <= a,
        0 <= b,
        a != b,
    ensures
        spec_decimal(a) != spec_decimal(b),
    decreases a + b,
{
    if a <= 9 && b <= 9 {
        assert(spec_decimal(a)[0] != spec_decimal(b)[0]);
    } else if a <= 9 && b > 9 {
        lemma_spec_decimal_len(b);
        assert(spec_decimal(a).len() == 1);
    } else if a > 9 && b <= 9 {
        lemma_spec_decimal_len(a);
        assert(spec_decimal(b).len() == 1);
    } else {
        if a % 10 != b % 10 {
            assert(spec_decimal(a).last() != spec_decimal(b).last());
        } else {
            lemma_spec_decimal_injective(a / 10, b / 10);
            if spec_decimal(a) == spec_decimal(b) {
                assert(spec_decimal(a).drop_last() =~= spec_decimal(a / 10));
                assert(spec_decimal(b).drop_last() =~= spec_decimal(b / 10));
                assert(false);
            }
        }
    }
}

} // verus!
