//! Decimal rendering of hub identifiers.
//!
//! A hub id becomes one path segment of the resolved storage path, so the
//! crate needs an exact account of its textual form: which characters it
//! holds and that distinct ids render to distinct segments.
use vstd::prelude::*;

verus! {

use vstd::arithmetic::div_mod::lemma_fundamental_div_mod;
use vstd::string::StringExecFns;

/// The character for one decimal digit.
pub open spec fn digit_char(d: int) -> char
    recommends
        0 <= d < 10,
{
    if d == 0 {
        '0'
    } else if d == 1 {
        '1'
    } else if d == 2 {
        '2'
    } else if d == 3 {
        '3'
    } else if d == 4 {
        '4'
    } else if d == 5 {
        '5'
    } else if d == 6 {
        '6'
    } else if d == 7 {
        '7'
    } else if d == 8 {
        '8'
    } else {
        '9'
    }
}

/// The decimal digit string of a non-negative integer, most significant
/// digit first.
pub open spec fn dec_digits(n: int) -> Seq<char>
    recommends
        n >= 0,
    decreases n,
{
    if n < 10 {
        seq![digit_char(n)]
    } else {
        dec_digits(n / 10).push(digit_char(n % 10))
    }
}

/// The decimal string of an integer, with a leading minus sign when
/// negative.
pub open spec fn dec_str(v: int) -> Seq<char> {
    if v < 0 {
        seq!['-'] + dec_digits(-v)
    } else {
        dec_digits(v)
    }
}

/// Whether a character is a decimal digit.
pub open spec fn is_digit(c: char) -> bool {
    c == '0' || c == '1' || c == '2' || c == '3' || c == '4' || c == '5' || c == '6' || c == '7'
        || c == '8' || c == '9'
}

/// Digit strings are non-empty and hold digits only.
pub proof fn lemma_dec_digits_chars(n: int)
    requires
        n >= 0,
    ensures
        dec_digits(n).len() > 0,
        forall|i: int| 0 <= i < dec_digits(n).len() ==> is_digit(#[trigger] dec_digits(n)[i]),
    decreases n,
{
    if n >= 10 {
        lemma_dec_digits_chars(n / 10);
    }
}

/// Decimal strings are non-empty, never hold a separator, and start with
/// a digit or a minus sign.
pub proof fn lemma_dec_str_chars(v: int)
    ensures
        dec_str(v).len() > 0,
        forall|i: int|
            0 <= i < dec_str(v).len() ==> (is_digit(#[trigger] dec_str(v)[i]) || dec_str(v)[i]
                == '-'),
        dec_str(v).last() != '/',
        forall|i: int| 0 <= i < dec_str(v).len() ==> #[trigger] dec_str(v)[i] != '/',
{
    if v < 0 {
        lemma_dec_digits_chars(-v);
    } else {
        lemma_dec_digits_chars(v);
    }
}

/// Distinct non-negative integers have distinct digit strings.
pub proof fn lemma_dec_digits_injective(a: int, b: int)
    requires
        0 <= a,
        0 <= b,
        a != b,
    ensures
        dec_digits(a) != dec_digits(b),
    decreases a + b,
{
    if a < 10 && b < 10 {
        assert(dec_digits(a)[0] != dec_digits(b)[0]);
    } else if a < 10 && b >= 10 {
        lemma_dec_digits_chars(b / 10);
        assert(dec_digits(b).len() >= 2);
    } else if a >= 10 && b < 10 {
        lemma_dec_digits_chars(a / 10);
        assert(dec_digits(a).len() >= 2);
    } else {
        lemma_fundamental_div_mod(a, 10);
        lemma_fundamental_div_mod(b, 10);
        if a % 10 != b % 10 {
            assert(dec_digits(a).last() != dec_digits(b).last());
        } else {
            assert(a / 10 != b / 10);
            lemma_dec_digits_injective(a / 10, b / 10);
            if dec_digits(a) == dec_digits(b) {
                assert(dec_digits(a).drop_last() =~= dec_digits(a / 10));
                assert(dec_digits(b).drop_last() =~= dec_digits(b / 10));
                assert(false);
            }
        }
    }
}

/// Distinct integers have distinct decimal strings.
pub proof fn lemma_dec_str_injective(a: int, b: int)
    requires
        a != b,
    ensures
        dec_str(a) != dec_str(b),
{
    if a < 0 && b < 0 {
        lemma_dec_digits_injective(-a, -b);
        if dec_str(a) == dec_str(b) {
            assert(dec_str(a).drop_first() =~= dec_digits(-a));
            assert(dec_str(b).drop_first() =~= dec_digits(-b));
            assert(false);
        }
    } else if a < 0 && b >= 0 {
        lemma_dec_digits_chars(b);
        assert(dec_str(a)[0] == '-');
        assert(is_digit(dec_str(b)[0]));
    } else if a >= 0 && b < 0 {
        lemma_dec_digits_chars(a);
        assert(is_digit(dec_str(a)[0]));
        assert(dec_str(b)[0] == '-');
    } else {
        lemma_dec_digits_injective(a, b);
    }
}

/// The literal for one decimal digit.
fn digit_str(d: u64) -> (r: &'static str)
    requires
        d < 10,
    ensures
        r@ == seq![digit_char(d as int)],
{
    if d == 0 {
        proof {
            reveal_strlit("0");
            assert("0"@ =~= seq!['0']);
        }
        "0"
    } else if d == 1 {
        proof {
            reveal_strlit("1");
            assert("1"@ =~= seq!['1']);
        }
        "1"
    } else if d == 2 {
        proof {
            reveal_strlit("2");
            assert("2"@ =~= seq!['2']);
        }
        "2"
    } else if d == 3 {
        proof {
            reveal_strlit("3");
            assert("3"@ =~= seq!['3']);
        }
        "3"
    } else if d == 4 {
        proof {
            reveal_strlit("4");
            assert("4"@ =~= seq!['4']);
        }
        "4"
    } else if d == 5 {
        proof {
            reveal_strlit("5");
            assert("5"@ =~= seq!['5']);
        }
        "5"
    } else if d == 6 {
        proof {
            reveal_strlit("6");
            assert("6"@ =~= seq!['6']);
        }
        "6"
    } else if d == 7 {
        proof {
            reveal_strlit("7");
            assert("7"@ =~= seq!['7']);
        }
        "7"
    } else if d == 8 {
        proof {
            reveal_strlit("8");
            assert("8"@ =~= seq!['8']);
        }
        "8"
    } else {
        proof {
            reveal_strlit("9");
            assert("9"@ =~= seq!['9']);
        }
        "9"
    }
}

/// Appends the digit string of `n` to `out`.
fn push_dec_digits(n: u64, out: &mut String)
    ensures
        final(out)@ == old(out)@ + dec_digits(n as int),
    decreases n,
{
    if n >= 10 {
        push_dec_digits(n / 10, out);
        let d = digit_str(n % 10);
        out.append(d);
        proof {
            assert(out@ =~= old(out)@ + dec_digits(n as int / 10).push(digit_char(n as int % 10)));
        }
    } else {
        let d = digit_str(n);
        out.append(d);
        proof {
            assert(out@ =~= old(out)@ + seq![digit_char(n as int)]);
        }
    }
}

/// The decimal string of a hub id.
pub fn i32_dec_string(v: i32) -> (r: String)
    ensures
        r@ == dec_str(v as int),
{
    let mut out = String::new();
    if v >= 0 {
        let m: u64 = v as u64;
        push_dec_digits(m, &mut out);
        proof {
            assert(out@ =~= dec_digits(v as int));
        }
    } else {
        out.append("-");
        proof {
            reveal_strlit("-");
            assert(out@ =~= seq!['-']);
        }
        let m: u64 = (-(v as i64)) as u64;
        proof {
            assert(m as int == -(v as int));
        }
        push_dec_digits(m, &mut out);
        proof {
            assert(out@ =~= seq!['-'] + dec_digits(-(v as int)));
        }
    }
    out
}

} // verus!
