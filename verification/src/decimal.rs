//! Decimal rendering of unsigned integers, used for client identifiers,
//! balances and the pieces of a snapshot file name.

use vstd::prelude::*;

verus! {

/// The character for one decimal digit.
pub open spec fn digit_char(d: int) -> char {
    if d == 0 {
        '0'
    } else if d == 1 {
        '1'
    } else if d == 2 {
        '2'
    } else if d == 3 {
        '3'
    } else if d == 4 {
        '4'
    } else if d == 5 {
        '5'
    } else if d == 6 {
        '6'
    } else if d == 7 {
        '7'
    } else if d == 8 {
        '8'
    } else {
        '9'
    }
}

/// The decimal representation of a non-negative integer, most significant
/// digit first, with no leading zeros (and `0` rendered as "0").
pub open spec fn dec_rep(n: int) -> Seq<char>
    recommends
        n >= 0,
    decreases n,
{
    if n < 10 {
        seq![digit_char(n)]
    } else {
        dec_rep(n / 10) + seq![digit_char(n % 10)]
    }
}

/// `dec_rep(n)` left-padded with zeros to at least `width` characters.
pub open spec fn padded_dec(n: int, width: int) -> Seq<char>
    recommends
        n >= 0,
{
    if dec_rep(n).len() >= width {
        dec_rep(n)
    } else {
        Seq::new((width - dec_rep(n).len()) as nat, |i: int| '0') + dec_rep(n)
    }
}

pub proof fn lemma_dec_rep_len(n: int)
    requires
        n >= 0,
    ensures
        dec_rep(n).len() >= 1,
        n < 10 <==> dec_rep(n).len() == 1,
        n < 100 <==> dec_rep(n).len() <= 2,
        n < 1000 <==> dec_rep(n).len() <= 3,
        n < 10000 <==> dec_rep(n).len() <= 4,
    decreases n,
{
    if n >= 10 {
        lemma_dec_rep_len(n / 10);
    }
}

/// Every character of a decimal representation is a digit.
pub proof fn lemma_dec_rep_digits(n: int)
    ensures
        forall|i: int| 0 <= i < dec_rep(n).len() ==> '0' <= #[trigger] dec_rep(n)[i] <= '9',
    decreases n,
{
    if n >= 10 {
        lemma_dec_rep_digits(n / 10);
        assert(dec_rep(n) == dec_rep(n / 10) + seq![digit_char(n % 10)]);
    }
}

/// Distinct non-negative integers have distinct decimal representations.
pub proof fn lemma_dec_rep_injective(a: int, b: int)
    requires
        a >= 0,
        b >= 0,
        dec_rep(a) == dec_rep(b),
    ensures
        a == b,
    decreases a + b,
{
    if a < 10 && b < 10 {
        assert(dec_rep(a)[0] == digit_char(a));
        assert(dec_rep(b)[0] == digit_char(b));
    } else if a < 10 && b >= 10 {
        lemma_dec_rep_len(a);
        lemma_dec_rep_len(b);
    } else if a >= 10 && b < 10 {
        lemma_dec_rep_len(a);
        lemma_dec_rep_len(b);
    } else {
        assert(dec_rep(a).last() == digit_char(a % 10));
        assert(dec_rep(b).last() == digit_char(b % 10));
        assert(a % 10 == b % 10);
        assert(dec_rep(a).drop_last() =~= dec_rep(a / 10));
        assert(dec_rep(b).drop_last() =~= dec_rep(b / 10));
        lemma_dec_rep_injective(a / 10, b / 10);
        assert(a == 10 * (a / 10) + a % 10);
        assert(b == 10 * (b / 10) + b % 10);
    }
}

/// One decimal digit as a string slice.
fn digit_str(d: u64) -> (r: &'static str)
    requires
        d < 10,
    ensures
        r@ == seq![digit_char(d as int)],
{
    let r: &'static str = if d == 0 {
        "0"
    } else if d == 1 {
        "1"
    } else if d == 2 {
        "2"
    } else if d == 3 {
        "3"
    } else if d == 4 {
        "4"
    } else if d == 5 {
        "5"
    } else if d == 6 {
        "6"
    } else if d == 7 {
        "7"
    } else if d == 8 {
        "8"
    } else {
        "9"
    };
    proof {
        reveal_strlit("0");
        reveal_strlit("1");
        reveal_strlit("2");
        reveal_strlit("3");
        reveal_strlit("4");
        reveal_strlit("5");
        reveal_strlit("6");
        reveal_strlit("7");
        reveal_strlit("8");
        reveal_strlit("9");
        assert(r@ =~= seq![digit_char(d as int)]);
    }
    r
}

/// Appends the decimal representation of `n` to `s`.
pub fn push_dec(s: &mut String, n: u64)
    ensures
        final(s)@ == old(s)@ + dec_rep(n as int),
    decreases n,
{
    if n >= 10 {
        push_dec(s, n / 10);
        s.append(digit_str(n % 10));
        proof {
            assert(s@ =~= old(s)@ + dec_rep(n as int));
        }
    } else {
        s.append(digit_str(n));
        proof {
            assert(s@ =~= old(s)@ + dec_rep(n as int));
        }
    }
}

/// Appends `n` in decimal, left-padded with zeros to at least `width`
/// characters; only widths up to 4 are needed.
pub fn push_padded_dec(s: &mut String, n: u64, width: u64)
    requires
        width <= 4,
    ensures
        final(s)@ == old(s)@ + padded_dec(n as int, width as int),
{
    proof {
        lemma_dec_rep_len(n as int);
    }
    if n >= 10000 || width == 0 {
        push_dec(s, n);
        proof {
            assert(s@ =~= old(s)@ + padded_dec(n as int, width as int));
        }
    } else {
        let len: u64 = if n < 10 {
            1
        } else if n < 100 {
            2
        } else if n < 1000 {
            3
        } else {
            4
        };
        let mut k: u64 = len;
        while k < width
            invariant
                len <= k <= width || k == len,
                width <= 4,
                dec_rep(n as int).len() == len,
                s@ == old(s)@ + Seq::new((k - len) as nat, |i: int| '0'),
            decreases width - k,
        {
            s.append("0");
            proof {
                reveal_strlit("0");
                assert(s@ =~= old(s)@ + Seq::new((k + 1 - len) as nat, |i: int| '0'));
            }
            k = k + 1;
        }
        push_dec(s, n);
        proof {
            assert(s@ =~= old(s)@ + padded_dec(n as int, width as int));
        }
    }
}

} // verus!
