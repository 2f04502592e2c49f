//! Decoding: from bytes back to a value of a schema.

use crate::config::valid_width;
use crate::config::TlvConfig;
use crate::endian::be_value;
use crate::error::TlvError;
use crate::parse::spec_length_decode;
use crate::parse::spec_tag_decode;
use crate::parse::spec_tag_span;
use crate::wire;
use crate::wire::unread;
use bytes::Bytes;
use vstd::prelude::*;

verus! {

/// Reads a big-endian number of `bytes_format` bytes.
pub fn get_get_bytes(bytes: &mut Bytes, bytes_format: u8) -> (value: u128)
    requires
        valid_width(bytes_format),
        bytes_format != 0,
        bytes_format <= unread(*old(bytes)).len(),
    ensures
        value == be_value(unread(*old(bytes)).take(bytes_format as int)),
        unread(*final(bytes)) == unread(*old(bytes)).skip(bytes_format as int),
{
    if bytes_format == 1 {
        wire::get_u8(bytes) as u128
    } else if bytes_format == 2 {
        wire::get_u16(bytes) as u128
    } else if bytes_format == 4 {
        wire::get_u32(bytes) as u128
    } else if bytes_format == 8 {
        wire::get_u64(bytes) as u128
    } else {
        wire::get_u128(bytes)
    }
}

/// Reads past the tag of a field. The tag is not compared with anything.
/// Where fewer bytes are left than the tag takes, the cursor does not move.
pub fn tag_decode(tlv_config: &TlvConfig, bytes: &mut Bytes) -> (done: Result<(), TlvError>)
    ensures
        match done {
            Ok(_) => spec_tag_decode(*tlv_config, unread(*old(bytes))) is Ok && unread(
                *final(bytes),
            ) == unread(*old(bytes)).skip(spec_tag_span(*tlv_config) as int),
            Err(e) => spec_tag_decode(*tlv_config, unread(*old(bytes))) == Err::<nat, TlvError>(e)
                && unread(*final(bytes)) == unread(*old(bytes)),
        },
{
    match tlv_config.tag {
        Some(_) => {
            let span = tlv_config.tag_bytes_format as usize;
            if wire::remaining(bytes) < span {
                return Err(TlvError::MalformedPayload);
            }
            wire::advance(bytes, span);
            Ok(())
        },
        None => {
            assert(unread(*bytes).skip(0) =~= unread(*bytes));
            Ok(())
        },
    }
}

/// Reads the length field of a field and returns the length it announces.
/// The field is refused where it is cut short, where it disagrees with the
/// declared length, and where it announces more bytes than are left; the
/// cursor then stays where it was. A field of width 0 announces 0.
pub fn length_decode(tlv_config: &TlvConfig, bytes: &mut Bytes) -> (done: Result<usize, TlvError>)
    requires
        valid_width(tlv_config.length_bytes_format),
    ensures
        match done {
            Ok(length) => spec_length_decode(*tlv_config, unread(*old(bytes))) == Ok::<
                nat,
                TlvError,
            >(length as nat) && unread(*final(bytes)) == unread(*old(bytes)).skip(
                tlv_config.length_bytes_format as int,
            ) && length <= unread(*final(bytes)).len(),
            Err(e) => spec_length_decode(*tlv_config, unread(*old(bytes))) == Err::<nat, TlvError>(
                e,
            ) && unread(*final(bytes)) == unread(*old(bytes)),
        },
{
    let width = tlv_config.length_bytes_format;
    if width == 0 {
        assert(unread(*bytes).skip(0) =~= unread(*bytes));
        return Ok(0);
    }
    if wire::remaining(bytes) < width as usize {
        return Err(TlvError::MalformedPayload);
    }
    let saved = wire::fork(bytes);
    let announced = get_get_bytes(bytes, width);
    match tlv_config.length {
        Some(literal) => {
            if literal as u128 != announced {
                *bytes = saved;
                return Err(TlvError::MalformedPayload);
            }
        },
        None => {},
    }
    let left = wire::remaining(bytes);
    if announced > left as u128 {
        *bytes = saved;
        return Err(TlvError::MalformedPayload);
    }
    Ok(announced as usize)
}

} // verus!
