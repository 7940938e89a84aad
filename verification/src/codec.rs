//! How an element is written to the store and read back.

use vstd::bytes::{
    lemma_auto_spec_u32_to_from_le_bytes, lemma_auto_spec_u64_to_from_le_bytes,
    spec_u32_from_le_bytes, spec_u32_to_le_bytes, spec_u64_from_le_bytes, spec_u64_to_le_bytes,
};
use vstd::prelude::*;

verus! {

/// A value that can be kept in the store.
///
/// `encoding` and `decoding` say what the bytes of a value are. The one
/// law asked of them is that decoding gives back what was encoded;
/// everything the containers prove about persistence rests on it.
pub trait Storable: Sized {
    /// The bytes that stand for this value in the store.
    spec fn encoding(&self) -> Seq<u8>;

    /// The value that `bytes` stand for, if they stand for one.
    spec fn decoding(bytes: Seq<u8>) -> Option<Self>;

    /// Decoding inverts encoding.
    proof fn lemma_round_trip(&self)
        ensures
            Self::decoding(self.encoding()) == Some(*self),
    ;

    /// Encodes the value.
    fn serialize(&self) -> (bytes: Vec<u8>)
        ensures
            bytes@ == self.encoding(),
    ;

    /// Decodes a value; `None` when the bytes stand for none.
    fn deserialize(bytes: &[u8]) -> (value: Option<Self>)
        ensures
            value == Self::decoding(bytes@),
    ;
}

/// `borsh::BorshSerialize::try_to_vec` on a `u8`: the output is the byte
/// itself. Writing into a vector cannot fail.
#[verifier::external_body]
fn borsh_u8_to_vec(value: &u8) -> (bytes: Vec<u8>)
    ensures
        bytes@ == seq![*value],
{
    borsh::BorshSerialize::try_to_vec(value).unwrap_or_default()
}

/// `borsh::BorshDeserialize::try_from_slice` for `u8`: succeeds exactly on
/// an input of one byte, and gives that byte.
#[verifier::external_body]
fn borsh_u8_from_slice(bytes: &[u8]) -> (value: Option<u8>)
    ensures
        value == (if bytes@.len() == 1 {
            Some(bytes@[0])
        } else {
            None
        }),
{
    <u8 as borsh::BorshDeserialize>::try_from_slice(bytes).ok()
}

/// `borsh::BorshSerialize::try_to_vec` on a `u32`: the output is the four
/// bytes of the value, least significant first. Writing into a vector
/// cannot fail.
#[verifier::external_body]
fn borsh_u32_to_vec(value: &u32) -> (bytes: Vec<u8>)
    ensures
        bytes@ == spec_u32_to_le_bytes(*value),
{
    borsh::BorshSerialize::try_to_vec(value).unwrap_or_default()
}

/// `borsh::BorshDeserialize::try_from_slice` for `u32`: succeeds exactly
/// on an input of four bytes, read least significant first.
#[verifier::external_body]
fn borsh_u32_from_slice(bytes: &[u8]) -> (value: Option<u32>)
    ensures
        value == (if bytes@.len() == 4 {
            Some(spec_u32_from_le_bytes(bytes@))
        } else {
            None
        }),
{
    <u32 as borsh::BorshDeserialize>::try_from_slice(bytes).ok()
}

/// `borsh::BorshSerialize::try_to_vec` on a `u64`: the output is the
/// eight bytes of the value, least significant first. Writing into a
/// vector cannot fail.
#[verifier::external_body]
fn borsh_u64_to_vec(value: &u64) -> (bytes: Vec<u8>)
    ensures
        bytes@ == spec_u64_to_le_bytes(*value),
{
    borsh::BorshSerialize::try_to_vec(value).unwrap_or_default()
}

/// `borsh::BorshDeserialize::try_from_slice` for `u64`: succeeds exactly
/// on an input of eight bytes, read least significant first.
#[verifier::external_body]
fn borsh_u64_from_slice(bytes: &[u8]) -> (value: Option<u64>)
    ensures
        value == (if bytes@.len() == 8 {
            Some(spec_u64_from_le_bytes(bytes@))
        } else {
            None
        }),
{
    <u64 as borsh::BorshDeserialize>::try_from_slice(bytes).ok()
}

impl Storable for u8 {
    open spec fn encoding(&self) -> Seq<u8> {
        seq![*self]
    }

    open spec fn decoding(bytes: Seq<u8>) -> Option<u8> {
        if bytes.len() == 1 {
            Some(bytes[0])
        } else {
            None
        }
    }

    proof fn lemma_round_trip(&self) {
    }

    fn serialize(&self) -> (bytes: Vec<u8>) {
        borsh_u8_to_vec(self)
    }

    fn deserialize(bytes: &[u8]) -> (value: Option<u8>) {
        borsh_u8_from_slice(bytes)
    }
}

impl Storable for u32 {
    open spec fn encoding(&self) -> Seq<u8> {
        spec_u32_to_le_bytes(*self)
    }

    open spec fn decoding(bytes: Seq<u8>) -> Option<u32> {
        if bytes.len() == 4 {
            Some(spec_u32_from_le_bytes(bytes))
        } else {
            None
        }
    }

    proof fn lemma_round_trip(&self) {
        lemma_auto_spec_u32_to_from_le_bytes();
    }

    fn serialize(&self) -> (bytes: Vec<u8>) {
        borsh_u32_to_vec(self)
    }

    fn deserialize(bytes: &[u8]) -> (value: Option<u32>) {
        borsh_u32_from_slice(bytes)
    }
}

impl Storable for u64 {
    open spec fn encoding(&self) -> Seq<u8> {
        spec_u64_to_le_bytes(*self)
    }

    open spec fn decoding(bytes: Seq<u8>) -> Option<u64> {
        if bytes.len() == 8 {
            Some(spec_u64_from_le_bytes(bytes))
        } else {
            None
        }
    }

    proof fn lemma_round_trip(&self) {
        lemma_auto_spec_u64_to_from_le_bytes();
    }

    fn serialize(&self) -> (bytes: Vec<u8>) {
        borsh_u64_to_vec(self)
    }

    fn deserialize(bytes: &[u8]) -> (value: Option<u64>) {
        borsh_u64_from_slice(bytes)
    }
}

} // verus!
