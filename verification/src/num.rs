//! Rendering of integers and selection of the shorter float form.
//!
//! Integers are rendered as exact decimal digit runs. For floats the caller
//! supplies the two candidate renderings, plain decimal and exponential;
//! the shorter wins (with one character of slack in favour of the plain
//! form), and a chosen exponential form gets an explicit `+` on an
//! unsigned exponent.

use vstd::prelude::*;
use vstd::string::StrSliceExecFns;
use vstd::string::StringExecFns;

verus! {

pub open spec fn digit_char(d: int) -> char
    recommends
        0 <= d < 10,
{
    (0x30 + d) as char
}

/// The decimal digit run of `n`, most significant digit first.
pub open spec fn dec_rep(n: nat) -> Seq<char>
    decreases n,
{
    if n < 10 {
        seq![digit_char(n as int)]
    } else {
        dec_rep(n / 10) + seq![digit_char((n % 10) as int)]
    }
}

/// The decimal form of a signed integer.
pub open spec fn int_rep(n: int) -> Seq<char> {
    if n < 0 {
        seq!['-'] + dec_rep((-n) as nat)
    } else {
        dec_rep(n as nat)
    }
}

fn digit_str(d: u64) -> (r: &'static str)
    requires
        d < 10,
    ensures
        r@ == seq![digit_char(d as int)],
{
    if d == 0 {
        proof {
            reveal_strlit("0");
            assert("0"@ =~= seq![digit_char(0)]);
        }
        "0"
    } else if d == 1 {
        proof {
            reveal_strlit("1");
            assert("1"@ =~= seq![digit_char(1)]);
        }
        "1"
    } else if d == 2 {
        proof {
            reveal_strlit("2");
            assert("2"@ =~= seq![digit_char(2)]);
        }
        "2"
    } else if d == 3 {
        proof {
            reveal_strlit("3");
            assert("3"@ =~= seq![digit_char(3)]);
        }
        "3"
    } else if d == 4 {
        proof {
            reveal_strlit("4");
            assert("4"@ =~= seq![digit_char(4)]);
        }
        "4"
    } else if d == 5 {
        proof {
            reveal_strlit("5");
            assert("5"@ =~= seq![digit_char(5)]);
        }
        "5"
    } else if d == 6 {
        proof {
            reveal_strlit("6");
            assert("6"@ =~= seq![digit_char(6)]);
        }
        "6"
    } else if d == 7 {
        proof {
            reveal_strlit("7");
            assert("7"@ =~= seq![digit_char(7)]);
        }
        "7"
    } else if d == 8 {
        proof {
            reveal_strlit("8");
            assert("8"@ =~= seq![digit_char(8)]);
        }
        "8"
    } else {
        proof {
            reveal_strlit("9");
            assert("9"@ =~= seq![digit_char(9)]);
        }
        "9"
    }
}

/// Renders an unsigned integer in decimal.
pub fn fmt_u64(value: u64) -> (r: String)
    ensures
        r@ == dec_rep(value as nat),
    decreases value,
{
    if value < 10 {
        let r = String::from_str(digit_str(value));
        r
    } else {
        let mut r = fmt_u64(value / 10);
        r.append(digit_str(value % 10));
        r
    }
}

/// Renders a signed integer in decimal with a leading `-` when negative.
pub fn fmt_i64(value: i64) -> (r: String)
    ensures
        r@ == int_rep(value as int),
{
    if value >= 0 {
        fmt_u64(value as u64)
    } else {
        let mag: u64 = if value == i64::MIN {
            9223372036854775808u64
        } else {
            (-value) as u64
        };
        proof {
            assert(mag as nat == (-(value as int)) as nat);
        }
        let mut r = String::from_str("-");
        let digits = fmt_u64(mag);
        r.append(digits.as_str());
        proof {
            reveal_strlit("-");
            assert(r@ =~= int_rep(value as int));
        }
        r
    }
}

/// The exponential rendering carries a negative exponent.
pub open spec fn contains_e_minus(s: Seq<char>) -> bool {
    exists|i: int| 0 <= i < s.len() - 1 && #[trigger] s[i] == 'e' && s[i + 1] == '-'
}

/// Every `e` rewritten to `e+`, from position `i` on.
pub open spec fn plus_exp_from(s: Seq<char>, i: int) -> Seq<char>
    decreases s.len() - i,
{
    if 0 <= i < s.len() {
        (if s[i] == 'e' {
            seq!['e', '+']
        } else {
            seq![s[i]]
        }) + plus_exp_from(s, i + 1)
    } else {
        Seq::empty()
    }
}

/// The choice the number formatter makes between the plain decimal
/// rendering `f1` and the exponential rendering `f2`.
pub open spec fn fmt_small_spec(f1: Seq<char>, f2: Seq<char>) -> Seq<char> {
    if f1.len() <= f2.len() + 1 {
        f1
    } else if contains_e_minus(f2) {
        f2
    } else {
        plus_exp_from(f2, 0)
    }
}

fn contains_e_minus_str(s: &str) -> (r: bool)
    ensures
        r == contains_e_minus(s@),
{
    let n = s.unicode_len();
    if n < 2 {
        return false;
    }
    let mut i: usize = 0;
    while i < n - 1
        invariant
            n == s@.len(),
            i <= n - 1,
            forall|j: int| 0 <= j < i ==> !(#[trigger] s@[j] == 'e' && s@[j + 1] == '-'),
        decreases n - i,
    {
        if s.get_char(i) == 'e' && s.get_char(i + 1) == '-' {
            assert(s@[i as int] == 'e' && s@[i as int + 1] == '-');
            return true;
        }
        i += 1;
    }
    false
}

fn plus_exp_str(s: &str) -> (r: String)
    ensures
        r@ == plus_exp_from(s@, 0),
{
    let n = s.unicode_len();
    let mut r = String::new();
    proof {
        assert(r@ + plus_exp_from(s@, 0) =~= plus_exp_from(s@, 0));
    }
    let mut i: usize = 0;
    while i < n
        invariant
            n == s@.len(),
            i <= n,
            r@ + plus_exp_from(s@, i as int) == plus_exp_from(s@, 0),
        decreases n - i,
    {
        let ghost r0 = r@;
        let ghost rest = plus_exp_from(s@, i as int + 1);
        let c = s.get_char(i);
        if c == 'e' {
            r.append("e+");
            proof {
                reveal_strlit("e+");
                assert("e+"@ =~= seq!['e', '+']);
                assert(plus_exp_from(s@, i as int) == seq!['e', '+'] + rest);
                assert((r0 + "e+"@) + rest =~= r0 + ("e+"@ + rest));
            }
        } else {
            let one = s.substring_char(i, i + 1);
            r.append(one);
            proof {
                assert(one@ =~= seq![s@[i as int]]);
                assert(plus_exp_from(s@, i as int) == seq![s@[i as int]] + rest);
                assert((r0 + one@) + rest =~= r0 + (one@ + rest));
            }
        }
        i += 1;
    }
    proof {
        assert(r@ + plus_exp_from(s@, i as int) =~= r@);
    }
    r
}

/// Chooses between the plain rendering `f1` and the exponential rendering
/// `f2` of the same number: the plain form wins unless it is more than one
/// character longer; a winning exponential form without a negative
/// exponent gets an explicit `+` after its `e`.
pub fn fmt_small(f1: &str, f2: &str) -> (r: String)
    ensures
        r@ == fmt_small_spec(f1@, f2@),
{
    let n1 = f1.unicode_len();
    let n2 = f2.unicode_len();
    if n1 == 0 || n1 - 1 <= n2 {
        String::from_str(f1)
    } else if contains_e_minus_str(f2) {
        String::from_str(f2)
    } else {
        plus_exp_str(f2)
    }
}

/// The plain rendering of a float value, negative zero folded to zero.
pub open spec fn canon_plain(plain: Seq<char>) -> Seq<char> {
    if plain == seq!['-', '0'] {
        seq!['0']
    } else {
        plain
    }
}

/// The exponential rendering of a float value, negative zero folded to
/// zero.
pub open spec fn canon_exp(plain: Seq<char>, exponential: Seq<char>) -> Seq<char> {
    if plain == seq!['-', '0'] {
        seq!['0', 'e', '0']
    } else {
        exponential
    }
}

/// What a finite float renders to, given its two candidate forms.
pub open spec fn float_out(plain: Seq<char>, exponential: Seq<char>) -> Seq<char> {
    fmt_small_spec(canon_plain(plain), canon_exp(plain, exponential))
}

pub fn is_minus_zero(s: &str) -> (r: bool)
    ensures
        r == (s@ == seq!['-', '0']),
{
    let n = s.unicode_len();
    if n != 2 {
        proof {
            assert(seq!['-', '0'].len() == 2);
        }
        return false;
    }
    let r = s.get_char(0) == '-' && s.get_char(1) == '0';
    proof {
        if r {
            assert(s@ =~= seq!['-', '0']);
        }
    }
    r
}

/// Renders a finite float from its two candidate forms, folding negative
/// zero to zero as the encoder does before formatting.
pub fn fmt_float(plain: &str, exponential: &str) -> (r: String)
    ensures
        r@ == float_out(plain@, exponential@),
{
    if is_minus_zero(plain) {
        let r = fmt_small("0", "0e0");
        proof {
            reveal_strlit("0");
            reveal_strlit("0e0");
            assert("0"@ =~= seq!['0']);
            assert("0e0"@ =~= seq!['0', 'e', '0']);
        }
        r
    } else {
        fmt_small(plain, exponential)
    }
}

} // verus!
