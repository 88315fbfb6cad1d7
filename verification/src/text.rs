//! Log lines and histogram keys: decimal numbers, and fixed-width binary
//! bitstrings for basis states.

use vstd::prelude::*;
use vstd::string::StringExecFns;

verus! {

/// The character for one decimal digit.
pub open spec fn dec_digit(d: int) -> char {
    if d == 0 {
        '0'
    } else if d == 1 {
        '1'
    } else if d == 2 {
        '2'
    } else if d == 3 {
        '3'
    } else if d == 4 {
        '4'
    } else if d == 5 {
        '5'
    } else if d == 6 {
        '6'
    } else if d == 7 {
        '7'
    } else if d == 8 {
        '8'
    } else {
        '9'
    }
}

/// Decimal representation of `n`, most significant digit first, no leading
/// zeros (a single `'0'` for zero).
pub open spec fn dec_rep(n: nat) -> Seq<char>
    decreases n,
{
    if n < 10 {
        seq![dec_digit(n as int)]
    } else {
        dec_rep(n / 10).push(dec_digit((n % 10) as int))
    }
}

/// Fixed-width binary representation of `i`, most significant bit first.
pub open spec fn bitstring(i: int, width: nat) -> Seq<char>
    decreases width,
{
    if width == 0 {
        Seq::empty()
    } else {
        bitstring(i / 2, (width - 1) as nat).push(
            if i % 2 == 1 {
                '1'
            } else {
                '0'
            },
        )
    }
}

fn push_digit(s: &mut String, d: u64)
    requires
        d < 10,
    ensures
        final(s)@ == old(s)@.push(dec_digit(d as int)),
{
    if d == 0 {
        s.append("0");
        proof {
            reveal_strlit("0");
            assert(final(s)@ =~= old(s)@.push(dec_digit(d as int)));
        }
    } else if d == 1 {
        s.append("1");
        proof {
            reveal_strlit("1");
            assert(final(s)@ =~= old(s)@.push(dec_digit(d as int)));
        }
    } else if d == 2 {
        s.append("2");
        proof {
            reveal_strlit("2");
            assert(final(s)@ =~= old(s)@.push(dec_digit(d as int)));
        }
    } else if d == 3 {
        s.append("3");
        proof {
            reveal_strlit("3");
            assert(final(s)@ =~= old(s)@.push(dec_digit(d as int)));
        }
    } else if d == 4 {
        s.append("4");
        proof {
            reveal_strlit("4");
            assert(final(s)@ =~= old(s)@.push(dec_digit(d as int)));
        }
    } else if d == 5 {
        s.append("5");
        proof {
            reveal_strlit("5");
            assert(final(s)@ =~= old(s)@.push(dec_digit(d as int)));
        }
    } else if d == 6 {
        s.append("6");
        proof {
            reveal_strlit("6");
            assert(final(s)@ =~= old(s)@.push(dec_digit(d as int)));
        }
    } else if d == 7 {
        s.append("7");
        proof {
            reveal_strlit("7");
            assert(final(s)@ =~= old(s)@.push(dec_digit(d as int)));
        }
    } else if d == 8 {
        s.append("8");
        proof {
            reveal_strlit("8");
            assert(final(s)@ =~= old(s)@.push(dec_digit(d as int)));
        }
    } else {
        s.append("9");
        proof {
            reveal_strlit("9");
            assert(final(s)@ =~= old(s)@.push(dec_digit(d as int)));
        }
    }
}

/// Append the decimal representation of `n`.
pub fn push_dec(s: &mut String, n: u64)
    ensures
        final(s)@ == old(s)@ + dec_rep(n as nat),
    decreases n,
{
    if n < 10 {
        push_digit(s, n);
        proof {
            assert(final(s)@ =~= old(s)@ + dec_rep(n as nat));
        }
    } else {
        push_dec(s, n / 10);
        push_digit(s, n % 10);
        proof {
            assert(final(s)@ =~= old(s)@ + dec_rep(n as nat));
        }
    }
}

/// Fixed-width binary rendering of basis index `i`, most significant bit
/// first.
pub fn bitstring_exec(i: u64, width: usize) -> (r: String)
    ensures
        r@ == bitstring(i as int, width as nat),
    decreases width,
{
    if width == 0 {
        let r = String::new();
        proof {
            assert(r@ =~= bitstring(i as int, 0));
        }
        r
    } else {
        let mut s = bitstring_exec(i / 2, width - 1);
        if i % 2 == 1 {
            s.append("1");
            proof {
                reveal_strlit("1");
                assert(s@ =~= bitstring(i as int, width as nat));
            }
        } else {
            s.append("0");
            proof {
                reveal_strlit("0");
                assert(s@ =~= bitstring(i as int, width as nat));
            }
        }
        s
    }
}

/// Two distinct basis indices below `2^width` render as distinct
/// bitstrings.
pub proof fn lemma_bitstring_injective(a: int, b: int, width: nat)
    requires
        0 <= a < vstd::arithmetic::power2::pow2(width),
        0 <= b < vstd::arithmetic::power2::pow2(width),
        a != b,
    ensures
        bitstring(a, width) != bitstring(b, width),
    decreases width,
{
    if width == 0 {
        vstd::arithmetic::power2::lemma2_to64();
    } else {
        vstd::arithmetic::power2::lemma_pow2_unfold(width);
        if a % 2 == b % 2 {
            assert(a / 2 != b / 2);
            assert(a / 2 < vstd::arithmetic::power2::pow2((width - 1) as nat)
                && b / 2 < vstd::arithmetic::power2::pow2((width - 1) as nat));
            lemma_bitstring_injective(a / 2, b / 2, (width - 1) as nat);
            assert(bitstring(a, width).drop_last() == bitstring(a / 2, (width - 1) as nat));
            assert(bitstring(b, width).drop_last() == bitstring(b / 2, (width - 1) as nat));
        } else {
            assert(bitstring(a, width).last() != bitstring(b, width).last());
        }
    }
}

/// The history record for a gate applied to `q`: `Gate on qubit ` followed
/// by `q` in decimal.
pub open spec fn gate_label_spec(q: nat) -> Seq<char> {
    "Gate on qubit "@ + dec_rep(q)
}

/// Render the history record for a gate application.
pub fn gate_label(q: usize) -> (r: String)
    ensures
        r@ == gate_label_spec(q as nat),
{
    let mut s = String::from_str("Gate on qubit ");
    push_dec(&mut s, q as u64);
    s
}

} // verus!
