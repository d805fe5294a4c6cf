//! Small string helpers shared by the lexer and the diagnostic renderer:
//! conversions between `String` and `Vec<char>`, decimal formatting of
//! counters, and character repetition.

use vstd::prelude::*;
use vstd::std_specs::iter::IteratorSpec;

verus! {

broadcast use vstd::string::group_string_axioms;

/// The image of a sequence of strings.
pub open spec fn strs_view(ss: Seq<String>) -> Seq<Seq<char>> {
    ss.map_values(|s: String| s@)
}

/// Turns a string slice into the vector of its characters.
pub fn string_to_chars(s: &str) -> (r: Vec<char>)
    ensures
        r@ == s@,
{
    let mut it = s.chars();
    let mut r: Vec<char> = Vec::new();
    loop
        invariant
            r@ + it.remaining() == s@,
        ensures
            r@ == s@,
        decreases s@.len() - r@.len(),
    {
        match it.next() {
            Some(c) => {
                r.push(c);
                proof {
                    assert(r@ + it.remaining() =~= s@);
                }
            },
            None => {
                proof {
                    assert(it.remaining().len() == 0);
                    assert(r@ =~= s@);
                }
                break;
            },
        }
    }
    r
}

/// Relies on `String::from_iter` over `Iterator::copied`: collecting the
/// characters of a vector yields the string of exactly those characters.
#[verifier::external_body]
pub(crate) fn chars_to_string(cs: &Vec<char>) -> (r: String)
    ensures
        r@ == cs@,
{
    cs.iter().copied().collect()
}

/// The decimal digit `d` stands for, as a character.
pub open spec fn digit_to_char(d: int) -> char {
    if d == 0 {
        '0'
    } else if d == 1 {
        '1'
    } else if d == 2 {
        '2'
    } else if d == 3 {
        '3'
    } else if d == 4 {
        '4'
    } else if d == 5 {
        '5'
    } else if d == 6 {
        '6'
    } else if d == 7 {
        '7'
    } else if d == 8 {
        '8'
    } else {
        '9'
    }
}

/// The usual decimal rendering of a non-negative integer, most significant
/// digit first, with no leading zeros (except for zero itself).
pub open spec fn dec_str(n: int) -> Seq<char>
    recommends
        n >= 0,
    decreases n,
{
    if n < 10 {
        seq![digit_to_char(n)]
    } else {
        dec_str(n / 10).push(digit_to_char(n % 10))
    }
}

fn digit_char_str(d: usize) -> (r: &'static str)
    requires
        d < 10,
    ensures
        r@ == seq![digit_to_char(d as int)],
{
    proof {
        reveal_strlit("0");
        reveal_strlit("1");
        reveal_strlit("2");
        reveal_strlit("3");
        reveal_strlit("4");
        reveal_strlit("5");
        reveal_strlit("6");
        reveal_strlit("7");
        reveal_strlit("8");
        reveal_strlit("9");
    }
    let r = if d == 0 {
        "0"
    } else if d == 1 {
        "1"
    } else if d == 2 {
        "2"
    } else if d == 3 {
        "3"
    } else if d == 4 {
        "4"
    } else if d == 5 {
        "5"
    } else if d == 6 {
        "6"
    } else if d == 7 {
        "7"
    } else if d == 8 {
        "8"
    } else {
        "9"
    };
    proof {
        assert(r@ =~= seq![digit_to_char(d as int)]);
    }
    r
}

/// Renders a counter in decimal.
pub fn usize_to_string(n: usize) -> (s: String)
    ensures
        s@ == dec_str(n as int),
    decreases n,
{
    if n < 10 {
        String::from_str(digit_char_str(n))
    } else {
        let mut s = usize_to_string(n / 10);
        s.append(digit_char_str(n % 10));
        s
    }
}

/// Powers of ten.
pub open spec fn spec_pow10(k: nat) -> int
    decreases k,
{
    if k == 0 {
        1
    } else {
        10 * spec_pow10((k - 1) as nat)
    }
}

/// A number below the `k`-th power of ten has at most `k` decimal digits.
pub proof fn lemma_dec_str_len_le(n: int, k: nat)
    requires
        0 <= n,
        1 <= k,
        n < spec_pow10(k),
    ensures
        dec_str(n).len() <= k,
    decreases k,
{
    if n >= 10 {
        assert(spec_pow10(k) == 10 * spec_pow10((k - 1) as nat));
        assert(n / 10 < spec_pow10((k - 1) as nat)) by (nonlinear_arith)
            requires
                n >= 10,
                n < 10 * spec_pow10((k - 1) as nat),
        ;
        lemma_dec_str_len_le(n / 10, (k - 1) as nat);
    }
}

/// No machine-word counter has more than twenty decimal digits.
pub proof fn lemma_dec_str_len_usize(n: int)
    requires
        0 <= n <= usize::MAX,
    ensures
        1 <= dec_str(n).len() <= 20,
{
    assert(spec_pow10(0) == 1);
    assert(spec_pow10(1) == 10);
    assert(spec_pow10(2) == 100);
    assert(spec_pow10(3) == 1000);
    assert(spec_pow10(4) == 10000);
    assert(spec_pow10(5) == 100000);
    assert(spec_pow10(6) == 1000000);
    assert(spec_pow10(7) == 10000000);
    assert(spec_pow10(8) == 100000000);
    assert(spec_pow10(9) == 1000000000);
    assert(spec_pow10(10) == 10000000000);
    assert(spec_pow10(11) == 100000000000);
    assert(spec_pow10(12) == 1000000000000);
    assert(spec_pow10(13) == 10000000000000);
    assert(spec_pow10(14) == 100000000000000);
    assert(spec_pow10(15) == 1000000000000000);
    assert(spec_pow10(16) == 10000000000000000);
    assert(spec_pow10(17) == 100000000000000000);
    assert(spec_pow10(18) == 1000000000000000000);
    assert(spec_pow10(19) == 10000000000000000000);
    assert(spec_pow10(20) == 100000000000000000000);
    lemma_dec_str_len_le(n, 20);
}

/// `n` copies of the character `c`.
pub open spec fn char_repeat(c: char, n: int) -> Seq<char> {
    Seq::new(n as nat, |i: int| c)
}

/// Builds the string of `n` copies of `c`.
pub fn repeat_char(c: char, n: usize) -> (s: String)
    ensures
        s@ == char_repeat(c, n as int),
{
    let mut v: Vec<char> = Vec::new();
    let mut i: usize = 0;
    while i < n
        invariant
            0 <= i <= n,
            v@ =~= Seq::new(i as nat, |k: int| c),
        decreases n - i,
    {
        v.push(c);
        i += 1;
    }
    let s = chars_to_string(&v);
    proof {
        assert(s@ =~= char_repeat(c, n as int));
    }
    s
}

} // verus!
