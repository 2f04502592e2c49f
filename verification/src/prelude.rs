//! The codec traits, and the codecs of the base values: a byte and a run of
//! bytes.

use crate::error::TlvError;
use crate::wire;
use crate::wire::unread;
use crate::wire::written;
use bytes::Bytes;
use bytes::BytesMut;
use vstd::prelude::*;

verus! {

/// A value that can write itself into a byte sink.
pub trait TlvEncode {
    /// The bytes that the value puts on the wire.
    spec fn spec_encode(&self) -> Seq<u8>;

    /// Every length that is measured while the value is written fits the
    /// field it is written in.
    spec fn spec_fits(&self) -> bool;

    /// Appends the bytes of the value to `bytes` and returns their number.
    /// Where a measured length does not fit, nothing is appended.
    fn encode(&self, bytes: &mut BytesMut) -> (done: Result<usize, TlvError>)
        ensures
            match done {
                Ok(n) => self.spec_fits() && n == self.spec_encode().len() && written(
                    *final(bytes),
                ) == written(*old(bytes)) + self.spec_encode(),
                Err(e) => !self.spec_fits() && e == TlvError::LengthOverflow && written(
                    *final(bytes),
                ) == written(*old(bytes)),
            },
    ;
}

/// A value that can read itself from a byte cursor.
pub trait TlvDecode: Sized + View {
    /// What reading a value of `length` bytes from `input` gives: the model of
    /// the value and the number of bytes taken, or the error.
    spec fn spec_decode(length: nat, input: Seq<u8>) -> Result<(Self::V, nat), TlvError>;

    /// Reads a value of `length` bytes from `bytes` and moves the cursor past
    /// it. On an error the cursor stays where it was.
    fn decode(length: usize, bytes: &mut Bytes) -> (done: Result<Self, TlvError>)
        ensures
            match done {
                Ok(value) => Self::spec_decode(length as nat, unread(*old(bytes))) matches Ok(
                    (model, taken),
                ) && model == value@ && taken <= unread(*old(bytes)).len() && unread(
                    *final(bytes),
                ) == unread(*old(bytes)).skip(taken as int),
                Err(e) => Self::spec_decode(length as nat, unread(*old(bytes))) matches Err(
                    reason,
                ) && reason == e && unread(*final(bytes)) == unread(*old(bytes)),
            },
    ;
}

impl TlvEncode for u8 {
    open spec fn spec_encode(&self) -> Seq<u8> {
        seq![*self]
    }

    open spec fn spec_fits(&self) -> bool {
        true
    }

    fn encode(&self, bytes: &mut BytesMut) -> (done: Result<usize, TlvError>) {
        proof {
            reveal_with_fuel(crate::endian::be_bytes, 2);
            assert(crate::endian::be_bytes(*self as nat, 1) =~= seq![*self]);
        }
        wire::put_u8(bytes, *self);
        Ok(1usize)
    }
}

impl TlvEncode for Vec<u8> {
    open spec fn spec_encode(&self) -> Seq<u8> {
        self@
    }

    open spec fn spec_fits(&self) -> bool {
        true
    }

    fn encode(&self, bytes: &mut BytesMut) -> (done: Result<usize, TlvError>) {
        wire::put(bytes, self.as_slice());
        Ok(self.len())
    }
}

impl TlvDecode for u8 {
    /// A byte takes one byte, whatever length is declared.
    open spec fn spec_decode(length: nat, input: Seq<u8>) -> Result<(u8, nat), TlvError> {
        if input.len() >= 1 {
            Ok((input[0], 1))
        } else {
            Err(TlvError::MalformedPayload)
        }
    }

    fn decode(length: usize, bytes: &mut Bytes) -> (done: Result<Self, TlvError>) {
        if wire::remaining(bytes) < 1 {
            return Err(TlvError::MalformedPayload);
        }
        proof {
            let head = unread(*bytes).take(1);
            reveal_with_fuel(crate::endian::be_value, 2);
            assert(head.drop_last() =~= Seq::<u8>::empty());
            assert(crate::endian::be_value(head) == unread(*bytes)[0] as nat);
        }
        Ok(wire::get_u8(bytes))
    }
}

impl TlvDecode for Vec<u8> {
    /// A run of bytes takes exactly as many bytes as declared.
    open spec fn spec_decode(length: nat, input: Seq<u8>) -> Result<(Seq<u8>, nat), TlvError> {
        if input.len() >= length {
            Ok((input.take(length as int), length))
        } else {
            Err(TlvError::MalformedPayload)
        }
    }

    fn decode(length: usize, bytes: &mut Bytes) -> (done: Result<Self, TlvError>) {
        if wire::remaining(bytes) < length {
            return Err(TlvError::MalformedPayload);
        }
        let mut output: Vec<u8> = Vec::new();
        output.resize(length, 0u8);
        wire::copy_to_slice(bytes, &mut output);
        Ok(output)
    }
}

} // verus!
