use vstd::prelude::*;

use crate::error::AbiError;

verus! {

/// Some Ethereum types represented as an array of bytes.
pub enum EthereumTypes {
    /// U160 - unsigned 160 bit number
    Address([u8; 20]),
    /// U256 - unsigned 256 bit number
    U256([u8; 32]),
}

/// `b` left-padded with zero bytes up to width `w`; meaningful when
/// `b.len() <= w`.
pub open spec fn zero_pad_left(b: Seq<u8>, w: nat) -> Seq<u8> {
    Seq::new(w, |i: int| if i < w - b.len() { 0u8 } else { b[i - (w - b.len())] })
}

/// The fixed byte width of a variant's stored value.
pub open spec fn spec_width(v: EthereumTypes) -> nat {
    match v {
        EthereumTypes::Address(_) => 20,
        EthereumTypes::U256(_) => 32,
    }
}

/// The bytes a variant stores, as written by its constructor.
pub open spec fn spec_raw_bytes(v: EthereumTypes) -> Seq<u8> {
    match v {
        EthereumTypes::Address(a) => a@,
        EthereumTypes::U256(u) => u@,
    }
}

/// The canonical type keyword of a variant.
pub open spec fn spec_type_name(v: EthereumTypes) -> Seq<char> {
    match v {
        EthereumTypes::Address(_) => "address"@,
        EthereumTypes::U256(_) => "uint256"@,
    }
}

/// The 32-byte big-endian word that encodes a variant: an address is
/// zero-extended on the left, a 256-bit number is its stored bytes unchanged.
pub open spec fn spec_word(v: EthereumTypes) -> Seq<u8> {
    match v {
        EthereumTypes::Address(a) => zero_pad_left(a@, 32),
        EthereumTypes::U256(u) => u@,
    }
}

impl EthereumTypes {
    /// The fixed type keyword for the variant.
    pub fn name_as_str(&self) -> (r: &str)
        ensures
            r@ == spec_type_name(*self),
    {
        match self {
            Self::Address(_) => "address",
            Self::U256(_) => "uint256",
        }
    }

    /// The 32-byte big-endian encoding of the value.
    pub fn value_as_u256(&self) -> (r: [u8; 32])
        ensures
            r@ == spec_word(*self),
    {
        match self {
            Self::Address(val) => {
                let mut extended: [u8; 32] = [0u8; 32];
                // extend the 20 byte address by writing it to a 32 byte zero array
                let mut i: usize = 12;
                while i < 32
                    invariant
                        12 <= i <= 32,
                        forall|k: int| 0 <= k < 12 ==> extended@[k] == 0u8,
                        forall|k: int| 12 <= k < i ==> extended@[k] == val@[k - 12],
                        forall|k: int| i <= k < 32 ==> extended@[k] == 0u8,
                    decreases 32 - i,
                {
                    extended[i] = val[i - 12];
                    i = i + 1;
                }
                proof {
                    assert(extended@ =~= zero_pad_left(val@, 32));
                }
                extended
            }
            Self::U256(val) => *val,
        }
    }

    /// An address built from at most 20 bytes, left-padded with zero bytes;
    /// longer input is rejected.
    pub fn address_from_bytes(bytes: &[u8]) -> (r: Result<Self, AbiError>)
        ensures
            r is Ok <==> bytes@.len() <= 20,
            r matches Ok(v) ==> v matches EthereumTypes::Address(a) && a@ == zero_pad_left(
                bytes@,
                20,
            ),
            r matches Err(e) ==> e is OversizedInput,
    {
        if bytes.len() > 20 {
            return Err(AbiError::OversizedInput);
        }
        let mut val: [u8; 20] = [0u8; 20];
        let diff: usize = 20 - bytes.len();
        let mut i: usize = diff;
        while i < 20
            invariant
                bytes@.len() <= 20,
                diff == 20 - bytes@.len(),
                diff <= i <= 20,
                forall|k: int| 0 <= k < diff ==> val@[k] == 0u8,
                forall|k: int| diff <= k < i ==> val@[k] == bytes@[k - diff],
                forall|k: int| i <= k < 20 ==> val@[k] == 0u8,
            decreases 20 - i,
        {
            val[i] = bytes[i - diff];
            i = i + 1;
        }
        proof {
            assert(val@ =~= zero_pad_left(bytes@, 20));
        }
        Ok(Self::Address(val))
    }

    /// A 256-bit number built from at most 32 bytes, left-padded with zero
    /// bytes; longer input is rejected.
    pub fn u256_from_bytes(bytes: &[u8]) -> (r: Result<Self, AbiError>)
        ensures
            r is Ok <==> bytes@.len() <= 32,
            r matches Ok(v) ==> v matches EthereumTypes::U256(a) && a@ == zero_pad_left(
                bytes@,
                32,
            ),
            r matches Err(e) ==> e is OversizedInput,
    {
        if bytes.len() > 32 {
            return Err(AbiError::OversizedInput);
        }
        let mut val: [u8; 32] = [0u8; 32];
        let diff: usize = 32 - bytes.len();
        let mut i: usize = diff;
        while i < 32
            invariant
                bytes@.len() <= 32,
                diff == 32 - bytes@.len(),
                diff <= i <= 32,
                forall|k: int| 0 <= k < diff ==> val@[k] == 0u8,
                forall|k: int| diff <= k < i ==> val@[k] == bytes@[k - diff],
                forall|k: int| i <= k < 32 ==> val@[k] == 0u8,
            decreases 32 - i,
        {
            val[i] = bytes[i - diff];
            i = i + 1;
        }
        proof {
            assert(val@ =~= zero_pad_left(bytes@, 32));
        }
        Ok(Self::U256(val))
    }
}

/// Law: a value whose stored bytes are the zero-left-padded form of some
/// `b` no longer than the variant's width encodes as the 32-byte
/// zero-left-padded form of that same `b`. With the constructors' contracts
/// this says that building a value from `b` and encoding it reproduces the
/// zero-left-padded 32-byte form of `b`.
pub proof fn lemma_from_bytes_to_word(v: EthereumTypes, b: Seq<u8>)
    requires
        b.len() <= spec_width(v),
        spec_raw_bytes(v) == zero_pad_left(b, spec_width(v)),
    ensures
        spec_word(v) == zero_pad_left(b, 32),
{
    match v {
        EthereumTypes::Address(a) => {
            assert(zero_pad_left(zero_pad_left(b, 20), 32) =~= zero_pad_left(b, 32));
        }
        EthereumTypes::U256(u) => {
        }
    }
}

} // verus!
