//! Encoding: from a value of a schema to its bytes.

use crate::config::valid_width;
use crate::config::TlvConfig;
use crate::endian::be_bytes;
use crate::endian::lemma_be_bytes_len;
use crate::endian::lemma_pow256_values;
use crate::endian::pow256;
use crate::error::TlvError;
use crate::layout::spec_length_field;
use crate::layout::spec_length_fits;
use crate::layout::spec_tag_field;
use crate::wire;
use crate::wire::written;
use bytes::BytesMut;
use vstd::prelude::*;

verus! {

/// The largest number that a field of `bytes_format` bytes can hold, or
/// `None` where no integer type has that many bytes.
pub fn get_bytes_format(bytes_format: u8) -> (limit: Option<u128>)
    ensures
        match limit {
            Some(max) => valid_width(bytes_format) && bytes_format != 0 && max + 1 == pow256(
                bytes_format as nat,
            ),
            None => !valid_width(bytes_format) || bytes_format == 0,
        },
{
    proof {
        lemma_pow256_values();
    }
    match bytes_format {
        1 => Some(0xff),
        2 => Some(0xffff),
        4 => Some(0xffff_ffff),
        8 => Some(0xffff_ffff_ffff_ffff),
        16 => Some(0xffff_ffff_ffff_ffff_ffff_ffff_ffff_ffff),
        _ => None,
    }
}

/// Writes `value` as a big-endian number of `bytes_format` bytes.
pub fn get_put_bytes(bytes: &mut BytesMut, bytes_format: u8, value: u128)
    requires
        valid_width(bytes_format),
        bytes_format != 0,
        value < pow256(bytes_format as nat),
    ensures
        written(*final(bytes)) == written(*old(bytes)) + be_bytes(
            value as nat,
            bytes_format as nat,
        ),
{
    proof {
        lemma_pow256_values();
    }
    if bytes_format == 1 {
        wire::put_u8(bytes, value as u8);
    } else if bytes_format == 2 {
        wire::put_u16(bytes, value as u16);
    } else if bytes_format == 4 {
        wire::put_u32(bytes, value as u32);
    } else if bytes_format == 8 {
        wire::put_u64(bytes, value as u64);
    } else {
        wire::put_u128(bytes, value);
    }
}

/// Writes the tag of a field: the literal tag in the declared width, and
/// nothing where no tag is declared or the width is 0.
pub fn tag_encode(tlv_config: &TlvConfig, bytes: &mut BytesMut)
    requires
        valid_width(tlv_config.tag_bytes_format),
        tlv_config.tag matches Some(tag) ==> tlv_config.tag_bytes_format != 0 ==> tag < pow256(
            tlv_config.tag_bytes_format as nat,
        ),
    ensures
        written(*final(bytes)) == written(*old(bytes)) + spec_tag_field(*tlv_config),
{
    if tlv_config.tag_bytes_format == 0 {
        assert(written(*bytes) + spec_tag_field(*tlv_config) =~= written(*bytes));
        return ;
    }
    match tlv_config.tag {
        Some(tag) => {
            get_put_bytes(bytes, tlv_config.tag_bytes_format, tag as u128);
        },
        None => {
            assert(written(*bytes) + spec_tag_field(*tlv_config) =~= written(*bytes));
        },
    }
}

/// Writes the length field of a field: the literal length if one is
/// declared, else a placeholder of zeros that is overwritten once the
/// payload has been measured; nothing where the width is 0.
pub fn length_encode(tlv_config: &TlvConfig, bytes: &mut BytesMut)
    requires
        valid_width(tlv_config.length_bytes_format),
        tlv_config.length matches Some(length) ==> tlv_config.length_bytes_format != 0 ==> length
            < pow256(tlv_config.length_bytes_format as nat),
    ensures
        written(*final(bytes)) == written(*old(bytes)) + spec_length_field(*tlv_config, 0),
{
    if tlv_config.length_bytes_format == 0 {
        assert(written(*bytes) + spec_length_field(*tlv_config, 0) =~= written(*bytes));
        return ;
    }
    proof {
        lemma_pow256_values();
    }
    match tlv_config.length {
        Some(length) => {
            get_put_bytes(bytes, tlv_config.length_bytes_format, length as u128);
        },
        None => {
            get_put_bytes(bytes, tlv_config.length_bytes_format, 0);
        },
    }
}

/// Where the length field of a field is about to be written, if it is one
/// that has to be measured: the sink's write position.
pub fn fix_length_parameter(tlv_config: &TlvConfig, bytes: &BytesMut) -> (index: Option<usize>)
    ensures
        index == if tlv_config.length_bytes_format != 0 && tlv_config.length is None {
            Some(written(*bytes).len() as usize)
        } else {
            None
        },
        index matches Some(at) ==> at == written(*bytes).len(),
{
    if tlv_config.length_bytes_format == 0 {
        return None;
    }
    match tlv_config.length {
        Some(_) => None,
        None => Some(wire::sink_len(bytes)),
    }
}

/// Overwrites the `width` bytes at `index` with `value` as a big-endian
/// number.
fn patch_bytes(bytes: &mut BytesMut, index: usize, width: u8, value: usize)
    requires
        index + width <= written(*old(bytes)).len(),
    ensures
        written(*final(bytes)) == written(*old(bytes)).take(index as int) + be_bytes(
            value as nat,
            width as nat,
        ) + written(*old(bytes)).skip(index + width),
{
    let ghost before = written(*bytes);
    let total = wire::sink_len(bytes);
    let mut left: u8 = width;
    let mut rest: usize = value;
    while left > 0
        invariant
            left <= width,
            index + width <= before.len() == total,
            written(*bytes).len() == before.len(),
            written(*bytes).take(index as int) == before.take(index as int),
            written(*bytes).skip(index + width) == before.skip(index + width),
            be_bytes(value as nat, width as nat) == be_bytes(rest as nat, left as nat) + written(
                *bytes,
            ).subrange(index + left, index + width),
        decreases left,
    {
        let ghost prev = written(*bytes);
        left = left - 1;
        wire::set_byte(bytes, index + left as usize, (rest % 256) as u8);
        proof {
            let now = written(*bytes);
            assert(now.take(index as int) =~= prev.take(index as int));
            assert(now.skip(index + width) =~= prev.skip(index + width));
            assert(be_bytes(rest as nat, (left + 1) as nat) == be_bytes(
                (rest / 256) as nat,
                left as nat,
            ).push((rest % 256) as u8));
            assert(now.subrange(index + left, index + width) =~= seq![(rest % 256) as u8]
                + prev.subrange(index + left + 1, index + width));
            assert(be_bytes((rest / 256) as nat, left as nat).push((rest % 256) as u8)
                + prev.subrange(index + left + 1, index + width) =~= be_bytes(
                (rest / 256) as nat,
                left as nat,
            ) + now.subrange(index + left, index + width));
        }
        rest = rest / 256;
    }
    proof {
        let now = written(*bytes);
        assert(be_bytes(rest as nat, 0) =~= Seq::<u8>::empty());
        lemma_be_bytes_len(value as nat, width as nat);
        assert(now =~= before.take(index as int) + be_bytes(value as nat, width as nat)
            + before.skip(index + width));
    }
}

/// Writes the measured length of a payload over the placeholder at `index`.
/// Nothing is written where the length is declared or absent. A length that
/// does not fit the field is an error, and the sink is left as it was.
pub fn fix_length_encode(
    tlv_config: &TlvConfig,
    bytes: &mut BytesMut,
    index: usize,
    actual_length: usize,
) -> (done: Result<(), TlvError>)
    requires
        valid_width(tlv_config.length_bytes_format),
        index + tlv_config.length_bytes_format <= written(*old(bytes)).len(),
    ensures
        done is Ok <==> spec_length_fits(*tlv_config, actual_length as nat),
        done matches Err(e) ==> e == TlvError::LengthOverflow,
        written(*final(bytes)) == if done is Ok && tlv_config.length is None {
            written(*old(bytes)).take(index as int) + spec_length_field(
                *tlv_config,
                actual_length as nat,
            ) + written(*old(bytes)).skip(index + tlv_config.length_bytes_format)
        } else {
            written(*old(bytes))
        },
{
    if tlv_config.length_bytes_format == 0 {
        assert(written(*bytes).take(index as int) + spec_length_field(
            *tlv_config,
            actual_length as nat,
        ) + written(*bytes).skip(index as int) =~= written(*bytes));
        return Ok(());
    }
    match tlv_config.length {
        Some(_) => Ok(()),
        None => {
            let limit = get_bytes_format(tlv_config.length_bytes_format);
            match limit {
                Some(max) => {
                    if actual_length as u128 > max {
                        return Err(TlvError::LengthOverflow);
                    }
                },
                None => {},
            }
            patch_bytes(bytes, index, tlv_config.length_bytes_format, actual_length);
            Ok(())
        },
    }
}

} // verus!
