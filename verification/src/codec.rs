//! The byte codec for scalar leaf values.
//!
//! A cell of the backing store holds bytes; a scalar value crosses that
//! boundary through `encode` and `decode`.  The encoding of a type is
//! injective, so decoding is exact: `decode` recovers precisely the value
//! that was encoded, and rejects byte strings that no value encodes to.

use vstd::prelude::*;

verus! {

/// A scalar value that can cross the cell boundary as bytes.
///
/// `enc` is the mathematical byte encoding; `encode` and `decode` are its
/// executable sides.  The encoding must be injective (`lemma_enc_injective`),
/// and `decode` must succeed on exactly the byte strings in the image of
/// `enc` — together these make the codec a bijection between values and
/// their encodings.
pub trait Packed: Sized {
    /// The byte encoding of a value.
    spec fn enc(self) -> Seq<u8>;

    /// Distinct values have distinct encodings.
    proof fn lemma_enc_injective(a: Self, b: Self)
        ensures
            a.enc() == b.enc() ==> a == b,
    ;

    /// Serializes the value.
    fn encode(&self) -> (r: Vec<u8>)
        ensures
            r@ == self.enc(),
    ;

    /// Deserializes a value, failing on bytes that no value encodes to.
    fn decode(b: &[u8]) -> (r: Option<Self>)
        ensures
            match r {
                Some(v) => v.enc() == b@,
                None => forall|v: Self| v.enc() != b@,
            },
    ;
}

/// The mathematical decoding: the unique value whose encoding is `b`, if
/// one exists.  Injectivity of `enc` makes the choice deterministic.
pub open spec fn dec<T: Packed>(b: Seq<u8>) -> Option<T> {
    if exists|v: T| v.enc() == b {
        Some(choose|v: T| v.enc() == b)
    } else {
        None
    }
}

/// Decoding undoes encoding: `dec` on the encoding of `v` yields `v`.
pub proof fn lemma_dec_enc<T: Packed>(v: T)
    ensures
        dec::<T>(v.enc()) == Some(v),
{
    assert(exists|w: T| w.enc() == v.enc());
    let w = choose|w: T| w.enc() == v.enc();
    T::lemma_enc_injective(v, w);
}

/// What `decode` returns is exactly the mathematical decoding.
pub proof fn lemma_decode_is_dec<T: Packed>(r: Option<T>, b: Seq<u8>)
    requires
        match r {
            Some(v) => v.enc() == b,
            None => forall|v: T| v.enc() != b,
        },
    ensures
        r == dec::<T>(b),
{
    match r {
        Some(v) => {
            lemma_dec_enc::<T>(v);
        },
        None => {},
    }
}

impl Packed for u8 {
    open spec fn enc(self) -> Seq<u8> {
        seq![self]
    }

    proof fn lemma_enc_injective(a: u8, b: u8) {
        if a.enc() == b.enc() {
            assert(a.enc()[0] == b.enc()[0]);
        }
    }

    fn encode(&self) -> (r: Vec<u8>) {
        let mut r: Vec<u8> = Vec::new();
        r.push(*self);
        proof {
            assert(r@ =~= seq![*self]);
        }
        r
    }

    fn decode(b: &[u8]) -> (r: Option<u8>) {
        if b.len() == 1 {
            let v = b[0];
            proof {
                assert(v.enc() =~= b@);
            }
            Some(v)
        } else {
            proof {
                assert forall|v: u8| v.enc() != b@ by {
                    assert(v.enc().len() == 1);
                }
            }
            None
        }
    }
}

impl Packed for u32 {
    open spec fn enc(self) -> Seq<u8> {
        vstd::bytes::spec_u32_to_le_bytes(self)
    }

    proof fn lemma_enc_injective(a: u32, b: u32) {
        vstd::bytes::lemma_auto_spec_u32_to_from_le_bytes();
        assert(vstd::bytes::spec_u32_to_le_bytes(a).len() == 4);
        assert(vstd::bytes::spec_u32_to_le_bytes(b).len() == 4);
    }

    fn encode(&self) -> (r: Vec<u8>) {
        vstd::bytes::u32_to_le_bytes(*self)
    }

    fn decode(b: &[u8]) -> (r: Option<u32>) {
        proof {
            vstd::bytes::lemma_auto_spec_u32_to_from_le_bytes();
        }
        if b.len() == 4 {
            Some(vstd::bytes::u32_from_le_bytes(b))
        } else {
            None
        }
    }
}

impl Packed for i32 {
    open spec fn enc(self) -> Seq<u8> {
        vstd::bytes::spec_u32_to_le_bytes(self as u32)
    }

    proof fn lemma_enc_injective(a: i32, b: i32) {
        vstd::bytes::lemma_auto_spec_u32_to_from_le_bytes();
        if a.enc() == b.enc() {
            let ua = a as u32;
            let ub = b as u32;
            assert(vstd::bytes::spec_u32_to_le_bytes(ua).len() == 4);
            assert(vstd::bytes::spec_u32_to_le_bytes(ub).len() == 4);
            assert(ua == ub);
            assert(a as u32 == b as u32 ==> a == b) by (bit_vector);
        }
    }

    fn encode(&self) -> (r: Vec<u8>) {
        let u: u32 = *self as u32;
        vstd::bytes::u32_to_le_bytes(u)
    }

    fn decode(b: &[u8]) -> (r: Option<i32>) {
        proof {
            vstd::bytes::lemma_auto_spec_u32_to_from_le_bytes();
        }
        if b.len() == 4 {
            let u = vstd::bytes::u32_from_le_bytes(b);
            let v = u as i32;
            proof {
                assert(v as u32 == u) by (bit_vector)
                    requires
                        v == u as i32,
                ;
            }
            Some(v)
        } else {
            None
        }
    }
}

} // verus!
