//! The protobuf framing of an MDD file: varints and length-delimited fields.
use vstd::prelude::*;
use vstd::slice::{slice_subrange, slice_to_vec};
use crate::error::DecodeError;

verus! {

/// Continues a varint at `pos` with the bits read so far.
pub open spec fn spec_varint_from(data: Seq<u8>, pos: int, value: u64, shift: u32) -> Result<
    (u64, int),
    DecodeError,
>
    decreases data.len() - pos,
{
    if pos < 0 || pos >= data.len() {
        Err(DecodeError::UnexpectedEndOfProtobuf)
    } else {
        let b = data[pos];
        let v = value | (((b & 0x7f) as u64) << shift);
        if b & 0x80 == 0 {
            Ok((v, pos + 1))
        } else if shift + 7 >= 64 {
            Err(DecodeError::InvalidVarint)
        } else {
            spec_varint_from(data, pos + 1, v, (shift + 7) as u32)
        }
    }
}

/// The varint at `pos`: its value and the position just after it.
pub open spec fn spec_read_varint(data: Seq<u8>, pos: int) -> Result<(u64, int), DecodeError> {
    spec_varint_from(data, pos, 0, 0)
}

proof fn lemma_varint_from_advances(data: Seq<u8>, pos: int, value: u64, shift: u32)
    ensures
        spec_varint_from(data, pos, value, shift) matches Ok((_, p)) ==> pos < p <= data.len(),
    decreases data.len() - pos,
{
    if 0 <= pos < data.len() {
        let b = data[pos];
        let v = value | (((b & 0x7f) as u64) << shift);
        if b & 0x80 != 0 && shift + 7 < 64 {
            lemma_varint_from_advances(data, pos + 1, v, (shift + 7) as u32);
        }
    }
}

pub proof fn lemma_read_varint_advances(data: Seq<u8>, pos: int)
    ensures
        spec_read_varint(data, pos) matches Ok((_, p)) ==> pos < p <= data.len(),
{
    lemma_varint_from_advances(data, pos, 0, 0);
}

/// Reads the base-128 varint that starts at `pos`.
pub fn read_varint(data: &[u8], pos: usize) -> (r: Result<(u64, usize), DecodeError>)
    ensures
        r is Ok == spec_read_varint(data@, pos as int) is Ok,
        r matches Ok((v, p)) ==> spec_read_varint(data@, pos as int) == Ok::<(u64, int), DecodeError>(
            (v, p as int),
        ) && pos < p <= data@.len(),
        r matches Err(e) ==> spec_read_varint(data@, pos as int) == Err::<(u64, int), DecodeError>(e),
{
    let mut cur = pos;
    let mut value: u64 = 0;
    let mut shift: u32 = 0;
    proof {
        lemma_read_varint_advances(data@, pos as int);
    }
    loop
        invariant
            shift < 64,
            pos <= cur,
            spec_read_varint(data@, pos as int) == spec_varint_from(data@, cur as int, value, shift),
            spec_read_varint(data@, pos as int) matches Ok((_, p)) ==> pos < p <= data@.len(),
        decreases data@.len() - cur,
    {
        if cur >= data.len() {
            return Err(DecodeError::UnexpectedEndOfProtobuf);
        }
        let b = data[cur];
        cur += 1;
        value = value | (((b & 0x7f) as u64) << shift);
        if b & 0x80 == 0 {
            return Ok((value, cur));
        }
        if shift + 7 >= 64 {
            return Err(DecodeError::InvalidVarint);
        }
        shift += 7;
    }
}

/// How much of the buffer is still ahead of `pos`.
pub open spec fn ahead(len: int, pos: int) -> nat {
    if pos < len {
        (len - pos) as nat
    } else {
        0
    }
}

/// The payload of the first length-delimited field numbered `wanted` at or
/// after `pos`, skipping every other field.
pub open spec fn spec_pb_find(data: Seq<u8>, pos: int, wanted: u32) -> Result<Seq<u8>, DecodeError>
    decreases ahead(data.len() as int, pos),
{
    if pos < 0 || pos >= data.len() {
        Err(DecodeError::ProtobufFieldNotFound(wanted))
    } else {
        proof {
            lemma_read_varint_advances(data, pos);
        }
        match spec_read_varint(data, pos) {
            Err(e) => Err(e),
            Ok((tag, p)) => {
                let field = (tag >> 3) as u32;
                let wire = (tag & 0x07) as u8;
                if wire == 0 {
                    proof {
                        lemma_read_varint_advances(data, p);
                    }
                    match spec_read_varint(data, p) {
                        Err(e) => Err(e),
                        Ok((_, p2)) => spec_pb_find(data, p2, wanted),
                    }
                } else if wire == 1 {
                    if p + 8 > usize::MAX {
                        Err(DecodeError::ProtobufOverflow)
                    } else {
                        spec_pb_find(data, p + 8, wanted)
                    }
                } else if wire == 2 {
                    proof {
                        lemma_read_varint_advances(data, p);
                    }
                    match spec_read_varint(data, p) {
                        Err(e) => Err(e),
                        Ok((len, p2)) => {
                            let end = p2 + (len as usize);
                            if end > usize::MAX {
                                Err(DecodeError::ProtobufOverflow)
                            } else if end > data.len() {
                                Err(DecodeError::InvalidProtobufLength)
                            } else if field == wanted {
                                Ok(data.subrange(p2, end))
                            } else {
                                spec_pb_find(data, end, wanted)
                            }
                        },
                    }
                } else if wire == 5 {
                    if p + 4 > usize::MAX {
                        Err(DecodeError::ProtobufOverflow)
                    } else {
                        spec_pb_find(data, p + 4, wanted)
                    }
                } else {
                    Err(DecodeError::UnsupportedWireType(wire))
                }
            },
        }
    }
}

/// The bytes of the first length-delimited field numbered `wanted` in a
/// protobuf message.
pub fn protobuf_length_field(data: &[u8], wanted: u32) -> (r: Result<Vec<u8>, DecodeError>)
    ensures
        r is Ok == spec_pb_find(data@, 0, wanted) is Ok,
        r matches Ok(v) ==> spec_pb_find(data@, 0, wanted) == Ok::<Seq<u8>, DecodeError>(v@),
        r matches Err(e) ==> spec_pb_find(data@, 0, wanted) == Err::<Seq<u8>, DecodeError>(e),
{
    let mut pos: usize = 0;
    while pos < data.len()
        invariant
            spec_pb_find(data@, pos as int, wanted) == spec_pb_find(data@, 0, wanted),
        decreases ahead(data@.len() as int, pos as int),
    {
        let (tag, p) = match read_varint(data, pos) {
            Ok(x) => x,
            Err(e) => {
                return Err(e);
            },
        };
        #[verifier::truncate]
        let field = (tag >> 3) as u32;
        #[verifier::truncate]
        let wire = (tag & 0x07) as u8;
        if wire == 0 {
            let (_, p2) = match read_varint(data, p) {
                Ok(x) => x,
                Err(e) => {
                    return Err(e);
                },
            };
            pos = p2;
        } else if wire == 1 {
            pos = match p.checked_add(8) {
                Some(n) => n,
                None => {
                    return Err(DecodeError::ProtobufOverflow);
                },
            };
        } else if wire == 2 {
            let (len, p2) = match read_varint(data, p) {
                Ok(x) => x,
                Err(e) => {
                    return Err(e);
                },
            };
            let end = match p2.checked_add(len as usize) {
                Some(e) => e,
                None => {
                    return Err(DecodeError::ProtobufOverflow);
                },
            };
            if end > data.len() {
                return Err(DecodeError::InvalidProtobufLength);
            }
            if field == wanted {
                let v = slice_to_vec(slice_subrange(data, p2, end));
                return Ok(v);
            }
            pos = end;
        } else if wire == 5 {
            pos = match p.checked_add(4) {
                Some(n) => n,
                None => {
                    return Err(DecodeError::ProtobufOverflow);
                },
            };
        } else {
            return Err(DecodeError::UnsupportedWireType(wire));
        }
    }
    Err(DecodeError::ProtobufFieldNotFound(wanted))
}

} // verus!
