//! Gate-application laws, proved over the spec-level transform.
//!
//! Fixed-point rescaling is a flooring division, so a general matrix
//! round-trip may lose the low bit; the identity and X gates only move or
//! keep amplitudes (their entries are exactly `0` and `1.0`), so for them
//! the laws hold exactly.

use vstd::prelude::*;
use vstd::arithmetic::div_mod::{
    lemma_fundamental_div_mod, lemma_fundamental_div_mod_converse, lemma_mod_multiples_basic,
};
use crate::complex::{CNum, cadd_model, cmul_model, cone, czero, lemma_sdiv_exact, SCALE};
use crate::gate::{
    identity_model, pauli_x_model, pair_bit, transformed, lemma_pair_up, lemma_pair_down,
};
use crate::state::norm_sq;

verus! {

/// Multiplying by the fixed-point `1.0` is exact.
pub proof fn lemma_cmul_one(a: CNum)
    ensures
        cmul_model(cone(), a) == a,
{
    lemma_sdiv_exact(a.re);
    lemma_sdiv_exact(a.im);
    assert((SCALE as int) * a.re - 0 * a.im == a.re * (SCALE as int));
    assert((SCALE as int) * a.im + 0 * a.re == a.im * (SCALE as int));
}

/// Multiplying by zero gives zero, whatever the other operand.
pub proof fn lemma_cmul_zero(a: CNum)
    ensures
        cmul_model(czero(), a) == czero(),
{
    lemma_sdiv_exact(0);
    assert(0 * a.re - 0 * a.im == 0 * (SCALE as int));
    assert(0 * a.im + 0 * a.re == 0 * (SCALE as int));
}

/// Law: applying the identity gate leaves the state unchanged — exactly, at
/// any stride (that is, on any target qubit).
pub proof fn lemma_identity_gate(s: Seq<CNum>, stride: int)
    requires
        stride >= 1,
    ensures
        transformed(identity_model(), s, stride) == s,
{
    let t = transformed(identity_model(), s, stride);
    assert forall|i: int| 0 <= i < s.len() implies t[i] == s[i] by {
        if !pair_bit(i, stride) {
            lemma_cmul_one(s[i]);
            lemma_cmul_zero(s[i + stride]);
            assert(cadd_model(s[i], czero()) == s[i]);
        } else {
            lemma_cmul_zero(s[i - stride]);
            lemma_cmul_one(s[i]);
            assert(cadd_model(czero(), s[i]) == s[i]);
        }
    }
    assert(t =~= s);
}

/// Corollary: on a normalized state the identity transform is still
/// normalized, so `apply_gate` with the identity gate always succeeds and
/// leaves the state unchanged.
pub proof fn lemma_identity_gate_accepted(s: Seq<CNum>, stride: int)
    requires
        stride >= 1,
        crate::state::norm_in_range(s),
    ensures
        crate::state::norm_in_range(transformed(identity_model(), s, stride)),
        transformed(identity_model(), s, stride) == s,
{
    lemma_identity_gate(s, stride);
}

/// The X gate swaps each amplitude with its partner.
pub proof fn lemma_x_gate_swaps(s: Seq<CNum>, stride: int, i: int)
    requires
        stride >= 1,
        0 <= i < s.len(),
    ensures
        !pair_bit(i, stride) ==> transformed(pauli_x_model(), s, stride)[i] == s[i + stride],
        pair_bit(i, stride) ==> transformed(pauli_x_model(), s, stride)[i] == s[i - stride],
{
    if !pair_bit(i, stride) {
        lemma_cmul_zero(s[i]);
        lemma_cmul_one(s[i + stride]);
        assert(cadd_model(czero(), s[i + stride]) == s[i + stride]);
    } else {
        lemma_cmul_one(s[i - stride]);
        lemma_cmul_zero(s[i]);
        assert(cadd_model(s[i - stride], czero()) == s[i - stride]);
    }
}

/// The squared norm adds over concatenation.
proof fn lemma_norm_sq_append(a: Seq<CNum>, b: Seq<CNum>)
    ensures
        norm_sq(a + b) == norm_sq(a) + norm_sq(b),
    decreases b.len(),
{
    if b.len() == 0 {
        assert(a + b =~= a);
    } else {
        assert((a + b).drop_last() =~= a + b.drop_last());
        assert((a + b).last() == b.last());
        lemma_norm_sq_append(a, b.drop_last());
    }
}

/// The X gate permutes the amplitudes (it swaps each pair), so it keeps the
/// squared norm: on a normalized state, `apply_gate` with the X gate always
/// succeeds.
pub proof fn lemma_x_gate_preserves_norm(s: Seq<CNum>, stride: int)
    requires
        stride >= 1,
        s.len() as int % (2 * stride) == 0,
    ensures
        norm_sq(transformed(pauli_x_model(), s, stride)) == norm_sq(s),
    decreases s.len(),
{
    let t = transformed(pauli_x_model(), s, stride);
    let len = s.len() as int;
    if len == 0 {
        assert(t =~= s);
    } else {
        lemma_fundamental_div_mod(len, 2 * stride);
        let q = len / (2 * stride);
        assert(len == 2 * stride * q && q >= 1) by (nonlinear_arith)
            requires
                stride >= 1,
                len == 2 * stride * (len / (2 * stride)) + len % (2 * stride),
                len % (2 * stride) == 0,
                len > 0,
                q == len / (2 * stride),
        ;
        let cut = len - 2 * stride;
        assert(cut == 2 * stride * (q - 1)) by (nonlinear_arith)
            requires
                len == 2 * stride * q,
                cut == len - 2 * stride,
        ;
        assert(cut as int % (2 * stride) == 0) by {
            lemma_mod_multiples_basic(q - 1, 2 * stride);
        }
        let p = s.subrange(0, cut);
        let lo = s.subrange(cut, cut + stride);
        let hi = s.subrange(cut + stride, len);
        let tp = transformed(pauli_x_model(), p, stride);
        // Indices of the last block have the pairing bit clear in its first
        // half and set in its second half.
        assert forall|i: int| cut <= i < len implies (i < cut + stride ==> !pair_bit(i, stride))
            && (i >= cut + stride ==> pair_bit(i, stride)) by {
            let r2 = i - cut;
            if r2 < stride {
                assert(i == stride * (2 * (q - 1)) + r2) by (nonlinear_arith)
                    requires
                        cut == 2 * stride * (q - 1),
                        i == cut + r2,
                ;
                lemma_fundamental_div_mod_converse(i, stride, 2 * (q - 1), r2);
                lemma_fundamental_div_mod_converse(2 * (q - 1), 2, q - 1, 0);
            } else {
                assert(i == stride * (2 * (q - 1) + 1) + (r2 - stride)) by (nonlinear_arith)
                    requires
                        cut == 2 * stride * (q - 1),
                        i == cut + r2,
                ;
                lemma_fundamental_div_mod_converse(i, stride, 2 * (q - 1) + 1, r2 - stride);
                lemma_fundamental_div_mod_converse(2 * (q - 1) + 1, 2, q - 1, 1);
            }
        }
        // The transform acts blockwise: on the prefix as on `p` alone, and on
        // the last block by swapping its halves.
        assert forall|i: int| 0 <= i < len implies t[i] == (tp + hi + lo)[i] by {
            lemma_x_gate_swaps(s, stride, i);
            if i < cut {
                lemma_x_gate_swaps(p, stride, i);
                if !pair_bit(i, stride) {
                    lemma_pair_up(i, stride, cut);
                } else {
                    lemma_pair_down(i, stride);
                }
            }
        }
        assert(t =~= tp + hi + lo);
        assert(s =~= p + lo + hi);
        lemma_norm_sq_append(tp + hi, lo);
        lemma_norm_sq_append(tp, hi);
        lemma_norm_sq_append(p + lo, hi);
        lemma_norm_sq_append(p, lo);
        lemma_x_gate_preserves_norm(p, stride);
    }
}

/// Law (round trip): applying the X gate twice restores the original state
/// exactly, at any stride (that is, on any target qubit).
pub proof fn lemma_x_involution(s: Seq<CNum>, stride: int)
    requires
        stride >= 1,
        s.len() as int % (2 * stride) == 0,
    ensures
        transformed(pauli_x_model(), transformed(pauli_x_model(), s, stride), stride) == s,
{
    let t1 = transformed(pauli_x_model(), s, stride);
    let t2 = transformed(pauli_x_model(), t1, stride);
    assert forall|i: int| 0 <= i < s.len() implies t2[i] == s[i] by {
        if !pair_bit(i, stride) {
            lemma_pair_up(i, stride, s.len() as int);
            lemma_x_gate_swaps(t1, stride, i);
            lemma_x_gate_swaps(s, stride, i + stride);
        } else {
            lemma_pair_down(i, stride);
            lemma_x_gate_swaps(t1, stride, i);
            lemma_x_gate_swaps(s, stride, i - stride);
        }
    }
    assert(t2 =~= s);
}

/// Corollary: on a normalized state both X applications stay normalized, so
/// the round trip of two `apply_gate` calls with the X gate succeeds and
/// restores the state.
pub proof fn lemma_x_gate_accepted(s: Seq<CNum>, stride: int)
    requires
        stride >= 1,
        s.len() as int % (2 * stride) == 0,
        crate::state::norm_in_range(s),
    ensures
        crate::state::norm_in_range(transformed(pauli_x_model(), s, stride)),
        crate::state::norm_in_range(
            transformed(pauli_x_model(), transformed(pauli_x_model(), s, stride), stride),
        ),
        transformed(pauli_x_model(), transformed(pauli_x_model(), s, stride), stride) == s,
{
    lemma_x_gate_preserves_norm(s, stride);
    lemma_x_gate_preserves_norm(transformed(pauli_x_model(), s, stride), stride);
    lemma_x_involution(s, stride);
}

} // verus!
