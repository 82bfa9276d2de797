//! Field elements as residues, and the BN254 scalar field whose arithmetic comes
//! from halo2curves.

use vstd::prelude::*;

use crate::transport::{le8, le_value, lemma_le8_round_trip, lemma_pow256_8, pow256, push_le8};

verus! {

/// A finite field's elements as the prover sees them: each stands for a residue
/// below the field's order.
pub trait Field: Sized {
    /// The number of elements of the field.
    spec fn order() -> nat;

    /// The residue, below `order()`, that the element stands for.
    spec fn residue(&self) -> nat;

    /// A field has at least two elements.
    proof fn lemma_order_above_one()
        ensures
            Self::order() > 1,
    ;

    fn one() -> (r: Self)
        ensures
            r.residue() == 1,
    ;

    fn is_zero(&self) -> (r: bool)
        ensures
            r == (self.residue() == 0),
    ;

    fn is_one(&self) -> (r: bool)
        ensures
            r == (self.residue() == 1),
    ;

    /// The multiplicative inverse; none for zero.
    fn inv(&self) -> (r: Option<Self>)
        ensures
            r is None <==> self.residue() == 0,
            r matches Some(y) ==> (self.residue() * y.residue()) % Self::order() == 1,
    ;

    /// The multiplicative inverse, answering zero and one without inverting.
    fn optimistic_inv(&self) -> (r: Option<Self>)
        ensures
            r is None <==> self.residue() == 0,
            r matches Some(y) ==> (self.residue() * y.residue()) % Self::order() == 1,
            self.residue() == 1 ==> (r matches Some(y) && y.residue() == 1),
    {
        if self.is_zero() {
            None
        } else if self.is_one() {
            proof {
                Self::lemma_order_above_one();
                assert((1nat * 1nat) % Self::order() == 1) by (nonlinear_arith)
                    requires
                        Self::order() > 1,
                ;
            }
            Some(Self::one())
        } else {
            self.inv()
        }
    }
}

/// A field whose elements the circuit compiler handles as raw values.
pub trait FieldRaw {

}

/// The order of the BN254 scalar field,
/// `0x30644e72e131a029b85045b68181585d2833e84879b9709143e1f593f0000001`, from its
/// 64-bit limbs, least significant first.
pub open spec fn bn254_modulus() -> nat {
    0x43e1f593f0000001 + 0x1_0000_0000_0000_0000 * (0x2833e84879b97091 + 0x1_0000_0000_0000_0000 * (
    0xb85045b68181585d + 0x1_0000_0000_0000_0000 * 0x30644e72e131a029))
}

/// An element of the BN254 scalar field, held as the 32 little-endian bytes of its
/// residue.
pub struct BN254Fr {
    bytes: Vec<u8>,
}

/// Relies on halo2curves' `bn256::Fr`: `from_bytes` reads the canonical
/// little-endian encoding of a residue, `ff::Field::invert` computes the inverse and
/// fails only for zero, `to_bytes` writes the canonical little-endian encoding.
#[verifier::external_body]
fn bn254_invert(x: &Vec<u8>) -> (r: Option<Vec<u8>>)
    requires
        x@.len() == 32,
        le_value(x@) < bn254_modulus(),
    ensures
        r is None <==> le_value(x@) == 0,
        r matches Some(y) ==> y@.len() == 32 && le_value(y@) < bn254_modulus() && (le_value(x@) * le_value(y@))
            % bn254_modulus() == 1,
{
    let bytes: [u8; 32] = x.as_slice().try_into().unwrap();
    let v: Option<halo2curves::bn256::Fr> = halo2curves::bn256::Fr::from_bytes(&bytes).into();
    match v {
        Some(v) => {
            let inv: Option<halo2curves::bn256::Fr> = halo2curves::ff::Field::invert(&v).into();
            match inv {
                Some(y) => Some(y.to_bytes().to_vec()),
                None => None,
            }
        },
        None => None,
    }
}

proof fn lemma_le_value_zero(b: Seq<u8>)
    ensures
        le_value(b) == 0 <==> forall|i: int| 0 <= i < b.len() ==> b[i] == 0,
    decreases b.len(),
{
    if b.len() > 0 {
        lemma_le_value_zero(b.drop_first());
        if le_value(b) == 0 {
            assert forall|i: int| 0 <= i < b.len() implies b[i] == 0 by {
                if i > 0 {
                    assert(b[i] == b.drop_first()[i - 1]);
                }
            }
        }
        if forall|i: int| 0 <= i < b.len() ==> b[i] == 0 {
            assert forall|i: int| 0 <= i < b.drop_first().len() implies b.drop_first()[i] == 0 by {
                assert(b.drop_first()[i] == b[i + 1]);
            }
        }
    }
}

proof fn lemma_le_value_concat(a: Seq<u8>, b: Seq<u8>)
    ensures
        le_value(a + b) == le_value(a) + pow256(a.len()) * le_value(b),
    decreases a.len(),
{
    if a.len() == 0 {
        assert(a + b =~= b);
        assert(pow256(0) == 1);
    } else {
        assert((a + b)[0] == a[0]);
        assert(pow256(a.len()) == 256 * pow256((a.len() - 1) as nat));
        lemma_le_value_concat(a.drop_first(), b);
        assert((a + b).drop_first() =~= a.drop_first() + b);
        let v = le_value(a.drop_first());
        let p = pow256((a.len() - 1) as nat);
        let w = le_value(b);
        assert(256 * (v + p * w) == 256 * v + (256 * p) * w) by (nonlinear_arith);
    }
}

impl BN254Fr {
    #[verifier::type_invariant]
    spec fn canonical(self) -> bool {
        self.bytes@.len() == 32 && le_value(self.bytes@) < bn254_modulus()
    }

    /// The element with residue `v`.
    pub fn from_u64(v: u64) -> (r: BN254Fr)
        ensures
            r.residue() == v,
    {
        let mut bytes: Vec<u8> = Vec::new();
        push_le8(&mut bytes, v);
        let ghost head = bytes@;
        let mut i: usize = 0;
        while i < 24
            invariant
                i <= 24,
                bytes@ == head + Seq::new(i as nat, |k: int| 0u8),
            decreases 24 - i,
        {
            bytes.push(0);
            i = i + 1;
            assert(Seq::new(i as nat, |k: int| 0u8) =~= Seq::new((i - 1) as nat, |k: int| 0u8).push(0));
        }
        proof {
            assert(head =~= Seq::<u8>::empty() + le8(v as nat));
            lemma_pow256_8();
            lemma_le8_round_trip(v as nat);
            let zeros = Seq::new(24, |k: int| 0u8);
            lemma_le_value_zero(zeros);
            lemma_le_value_concat(le8(v as nat), zeros);
            assert(bytes@ =~= le8(v as nat) + zeros);
        }
        BN254Fr { bytes }
    }

    /// The 32 little-endian bytes of the residue.
    pub fn to_bytes(&self) -> (r: Vec<u8>)
        ensures
            r@.len() == 32,
            le_value(r@) == self.residue(),
    {
        proof {
            use_type_invariant(self);
        }
        let mut r: Vec<u8> = Vec::new();
        let mut i: usize = 0;
        while i < self.bytes.len()
            invariant
                i <= self.bytes.len(),
                r@ == self.bytes@.take(i as int),
            decreases self.bytes.len() - i,
        {
            r.push(self.bytes[i]);
            i = i + 1;
            assert(self.bytes@.take(i as int) =~= self.bytes@.take(i - 1).push(self.bytes@[i - 1]));
        }
        assert(self.bytes@.take(self.bytes@.len() as int) =~= self.bytes@);
        r
    }
}

impl Field for BN254Fr {
    open spec fn order() -> nat {
        bn254_modulus()
    }

    closed spec fn residue(&self) -> nat {
        le_value(self.bytes@)
    }

    proof fn lemma_order_above_one() {
    }

    fn one() -> (r: Self) {
        BN254Fr::from_u64(1)
    }

    fn is_zero(&self) -> (r: bool) {
        proof {
            use_type_invariant(self);
            lemma_le_value_zero(self.bytes@);
        }
        let mut i: usize = 0;
        while i < self.bytes.len()
            invariant
                i <= self.bytes.len(),
                forall|k: int| 0 <= k < i ==> self.bytes@[k] == 0,
            decreases self.bytes.len() - i,
        {
            if self.bytes[i] != 0 {
                proof {
                    lemma_le_value_zero(self.bytes@);
                }
                return false;
            }
            i = i + 1;
        }
        true
    }

    fn is_one(&self) -> (r: bool) {
        proof {
            use_type_invariant(self);
            lemma_le_value_zero(self.bytes@.drop_first());
        }
        if self.bytes[0] != 1 {
            proof {
                let v = le_value(self.bytes@.drop_first());
                assert(self.bytes@[0] as nat + 256 * v != 1) by (nonlinear_arith)
                    requires
                        self.bytes@[0] != 1,
                ;
            }
            return false;
        }
        let mut i: usize = 1;
        while i < self.bytes.len()
            invariant
                1 <= i <= self.bytes.len(),
                self.bytes@.len() == 32,
                forall|k: int| 0 <= k < i - 1 ==> self.bytes@.drop_first()[k] == 0,
            decreases self.bytes.len() - i,
        {
            if self.bytes[i] != 0 {
                assert(self.bytes@.drop_first()[i - 1] != 0);
                proof {
                    lemma_le_value_zero(self.bytes@.drop_first());
                    let v = le_value(self.bytes@.drop_first());
                    assert(1 + 256 * v != 1) by (nonlinear_arith)
                        requires
                            v != 0,
                    ;
                }
                return false;
            }
            i = i + 1;
        }
        true
    }

    fn inv(&self) -> (r: Option<Self>) {
        proof {
            use_type_invariant(self);
        }
        match bn254_invert(&self.bytes) {
            Some(y) => Some(BN254Fr { bytes: y }),
            None => None,
        }
    }
}

impl FieldRaw for BN254Fr {

}

} // verus!
