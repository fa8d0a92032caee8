//! A bounds-checked reader for the FlatBuffer tables inside an MDD file.
use vstd::prelude::*;
use vstd::slice::slice_subrange;
use crate::error::DecodeError;
use crate::text::{spec_utf8_lossy, utf8_lossy};

verus! {

/// A position result carried over to machine words.
pub open spec fn opt_usize(r: Result<Option<int>, DecodeError>) -> Result<Option<usize>, DecodeError> {
    match r {
        Err(e) => Err(e),
        Ok(None) => Ok(None),
        Ok(Some(a)) => Ok(Some(a as usize)),
    }
}

pub open spec fn int_usize(r: Result<int, DecodeError>) -> Result<usize, DecodeError> {
    match r {
        Err(e) => Err(e),
        Ok(a) => Ok(a as usize),
    }
}

/// The characters of an optional string.
pub open spec fn opt_view(o: Option<String>) -> Option<Seq<char>> {
    match o {
        None => None,
        Some(s) => Some(s@),
    }
}

/// Little-endian `u16` at `pos`.
pub open spec fn spec_u16_le(data: Seq<u8>, pos: int) -> u16 {
    (data[pos] as int + 256 * data[pos + 1] as int) as u16
}

/// Little-endian `u32` at `pos`.
pub open spec fn spec_u32_le(data: Seq<u8>, pos: int) -> u32 {
    (data[pos] as int + 256 * data[pos + 1] as int + 65536 * data[pos + 2] as int
        + 16777216 * data[pos + 3] as int) as u32
}

/// Little-endian two's complement `i32` at `pos`.
pub open spec fn spec_i32_le(data: Seq<u8>, pos: int) -> i32 {
    let u = spec_u32_le(data, pos);
    if u < 0x8000_0000 {
        u as i32
    } else {
        (u - 0x1_0000_0000) as i32
    }
}

pub open spec fn spec_read_u16(data: Seq<u8>, pos: int) -> Result<u16, DecodeError> {
    if pos + 2 <= data.len() {
        Ok(spec_u16_le(data, pos))
    } else {
        Err(DecodeError::UnexpectedEndOfFlatBuffer)
    }
}

pub open spec fn spec_read_u32(data: Seq<u8>, pos: int) -> Result<u32, DecodeError> {
    if pos + 4 <= data.len() {
        Ok(spec_u32_le(data, pos))
    } else {
        Err(DecodeError::UnexpectedEndOfFlatBuffer)
    }
}

pub open spec fn spec_read_i32(data: Seq<u8>, pos: int) -> Result<i32, DecodeError> {
    if pos + 4 <= data.len() {
        Ok(spec_i32_le(data, pos))
    } else {
        Err(DecodeError::UnexpectedEndOfFlatBuffer)
    }
}

/// Reads a little-endian `u16` at `pos`.
pub fn read_u16_le(data: &[u8], pos: usize) -> (r: Result<u16, DecodeError>)
    ensures
        r == spec_read_u16(data@, pos as int),
{
    if pos > data.len() || data.len() - pos < 2 {
        return Err(DecodeError::UnexpectedEndOfFlatBuffer);
    }
    let b0 = data[pos] as u16;
    let b1 = data[pos + 1] as u16;
    Ok(b0 + 256 * b1)
}

/// Reads a little-endian `u32` at `pos`.
pub fn read_u32_le(data: &[u8], pos: usize) -> (r: Result<u32, DecodeError>)
    ensures
        r == spec_read_u32(data@, pos as int),
{
    if pos > data.len() || data.len() - pos < 4 {
        return Err(DecodeError::UnexpectedEndOfFlatBuffer);
    }
    let b0 = data[pos] as u32;
    let b1 = data[pos + 1] as u32;
    let b2 = data[pos + 2] as u32;
    let b3 = data[pos + 3] as u32;
    Ok(b0 + 256 * b1 + 65536 * b2 + 16777216 * b3)
}

/// Reads a little-endian two's complement `i32` at `pos`.
pub fn read_i32_le(data: &[u8], pos: usize) -> (r: Result<i32, DecodeError>)
    ensures
        r == spec_read_i32(data@, pos as int),
{
    let u = read_u32_le(data, pos)?;
    if u < 0x8000_0000 {
        Ok(u as i32)
    } else {
        Ok((u as i64 - 0x1_0000_0000i64) as i32)
    }
}

/// Where field `field` of the table at `table` is stored, if present.
pub open spec fn spec_fb_field_addr(data: Seq<u8>, table: int, field: int) -> Result<
    Option<int>,
    DecodeError,
> {
    match spec_read_i32(data, table) {
        Err(e) => Err(e),
        Ok(off) => {
            let vt = table - off;
            if vt > isize::MAX {
                Err(DecodeError::VtableAddressOverflow)
            } else if vt < 0 || vt >= data.len() {
                Err(DecodeError::InvalidVtableAddress { table: table as usize, offset: off })
            } else {
                match spec_read_u16(data, vt) {
                    Err(e) => Err(e),
                    Ok(vlen) => {
                        let entry = 4 + 2 * field;
                        if entry + 2 > vlen {
                            Ok(None)
                        } else {
                            match spec_read_u16(data, vt + entry) {
                                Err(e) => Err(e),
                                Ok(o) => {
                                    if o == 0 {
                                        Ok(None)
                                    } else if table + o > usize::MAX {
                                        Err(DecodeError::FieldOffsetOverflow)
                                    } else if table + o >= data.len() {
                                        Err(DecodeError::FieldAddressOutOfRange)
                                    } else {
                                        Ok(Some(table + o))
                                    }
                                },
                            }
                        }
                    },
                }
            }
        },
    }
}

/// The table-relative field lookup through the table's vtable.
pub fn fb_field_addr(data: &[u8], table: usize, field_index: usize) -> (r: Result<
    Option<usize>,
    DecodeError,
>)
    requires
        data@.len() <= isize::MAX,
        2 * field_index + 6 <= usize::MAX,
    ensures
        r == opt_usize(spec_fb_field_addr(data@, table as int, field_index as int)),
        r matches Ok(Some(a)) ==> table < a < data@.len(),
        r matches Ok(Some(a)) ==> spec_fb_field_addr(data@, table as int, field_index as int)
            == Ok::<Option<int>, DecodeError>(Some(a as int)),
{
    let off = read_i32_le(data, table)?;
    let t = table as isize;
    let vt_signed = match t.checked_sub(off as isize) {
        Some(v) => v,
        None => {
            return Err(DecodeError::VtableAddressOverflow);
        },
    };
    if vt_signed < 0 || vt_signed as usize >= data.len() {
        return Err(DecodeError::InvalidVtableAddress { table, offset: off });
    }
    let vtable = vt_signed as usize;
    let vtable_len = read_u16_le(data, vtable)? as usize;
    let entry = 4 + field_index * 2;
    if entry + 2 > vtable_len {
        return Ok(None);
    }
    let o = read_u16_le(data, vtable + entry)? as usize;
    if o == 0 {
        Ok(None)
    } else {
        let addr = match table.checked_add(o) {
            Some(a) => a,
            None => {
                return Err(DecodeError::FieldOffsetOverflow);
            },
        };
        if addr >= data.len() {
            return Err(DecodeError::FieldAddressOutOfRange);
        }
        Ok(Some(addr))
    }
}

pub open spec fn spec_fb_indirect(data: Seq<u8>, addr: int) -> Result<int, DecodeError> {
    match spec_read_u32(data, addr) {
        Err(e) => Err(e),
        Ok(rel) => {
            if addr + rel > usize::MAX {
                Err(DecodeError::IndirectOffsetOverflow)
            } else if addr + rel >= data.len() {
                Err(
                    DecodeError::IndirectTargetOutOfRange {
                        addr: addr as usize,
                        rel,
                        len: data.len() as usize,
                    },
                )
            } else {
                Ok(addr + rel)
            }
        },
    }
}

/// Follows the unsigned offset stored at `addr`.
pub fn fb_indirect(data: &[u8], addr: usize) -> (r: Result<usize, DecodeError>)
    ensures
        r == int_usize(spec_fb_indirect(data@, addr as int)),
        r matches Ok(t) ==> addr <= t < data@.len(),
        r matches Ok(t) ==> spec_fb_indirect(data@, addr as int) == Ok::<int, DecodeError>(t as int),
{
    let rel = read_u32_le(data, addr)?;
    let target = match addr.checked_add(rel as usize) {
        Some(t) => t,
        None => {
            return Err(DecodeError::IndirectOffsetOverflow);
        },
    };
    if target >= data.len() {
        return Err(DecodeError::IndirectTargetOutOfRange { addr, rel, len: data.len() });
    }
    Ok(target)
}

pub closed spec fn spec_fb_table_field(data: Seq<u8>, table: int, field: int) -> Result<
    Option<int>,
    DecodeError,
> {
    match spec_fb_field_addr(data, table, field) {
        Err(e) => Err(e),
        Ok(None) => Ok(None),
        Ok(Some(addr)) => match spec_fb_indirect(data, addr) {
            Err(e) => Err(e),
            Ok(t) => Ok(Some(t)),
        },
    }
}

/// The sub-table that field `field_index` of `table` points to, if present.
pub fn fb_table_field(data: &[u8], table: usize, field_index: usize) -> (r: Result<
    Option<usize>,
    DecodeError,
>)
    requires
        data@.len() <= isize::MAX,
        2 * field_index + 6 <= usize::MAX,
    ensures
        r == opt_usize(spec_fb_table_field(data@, table as int, field_index as int)),
        r matches Ok(Some(t)) ==> table < t < data@.len(),
        r matches Ok(Some(t)) ==> spec_fb_table_field(data@, table as int, field_index as int)
            == Ok::<Option<int>, DecodeError>(Some(t as int)),
        r matches Ok(None) ==> spec_fb_table_field(data@, table as int, field_index as int)
            == Ok::<Option<int>, DecodeError>(None),
        r matches Err(e) ==> spec_fb_table_field(data@, table as int, field_index as int)
            == Err::<Option<int>, DecodeError>(e),
{
    match fb_field_addr(data, table, field_index)? {
        Some(addr) => Ok(Some(fb_indirect(data, addr)?)),
        None => Ok(None),
    }
}

pub closed spec fn spec_fb_string_field(data: Seq<u8>, table: int, field: int) -> Result<
    Option<Seq<char>>,
    DecodeError,
> {
    match spec_fb_field_addr(data, table, field) {
        Err(e) => Err(e),
        Ok(None) => Ok(None),
        Ok(Some(addr)) => match spec_fb_indirect(data, addr) {
            Err(e) => Err(e),
            Ok(target) => match spec_read_u32(data, target) {
                Err(e) => Err(e),
                Ok(len) => {
                    if target + 4 > usize::MAX {
                        Err(DecodeError::StringOffsetOverflow)
                    } else if target + 4 + len > usize::MAX {
                        Err(DecodeError::StringLengthOverflow)
                    } else if target + 4 + len > data.len() {
                        Err(DecodeError::InvalidStringLength)
                    } else {
                        Ok(Some(spec_utf8_lossy(data.subrange(target + 4, target + 4 + len))))
                    }
                },
            },
        },
    }
}

/// The bytes of the string that field `field` of `table` points to, when
/// the field is present and the string lies inside the buffer.
pub open spec fn spec_fb_string_bytes(data: Seq<u8>, table: int, field: int) -> Option<Seq<u8>> {
    match spec_fb_field_addr(data, table, field) {
        Ok(Some(addr)) => match spec_fb_indirect(data, addr) {
            Ok(target) => match spec_read_u32(data, target) {
                Ok(len) => if target + 4 + len <= data.len() {
                    Some(data.subrange(target + 4, target + 4 + len))
                } else {
                    None
                },
                Err(_) => None,
            },
            Err(_) => None,
        },
        _ => None,
    }
}

/// The string that field `field_index` of `table` points to, if present.
pub fn fb_string_field(data: &[u8], table: usize, field_index: usize) -> (r: Result<
    Option<String>,
    DecodeError,
>)
    requires
        data@.len() <= isize::MAX,
        2 * field_index + 6 <= usize::MAX,
    ensures
        r.is_ok() == spec_fb_string_field(data@, table as int, field_index as int).is_ok(),
        r matches Err(e) ==> spec_fb_string_field(data@, table as int, field_index as int)
            == Err::<Option<Seq<char>>, DecodeError>(e),
        r matches Ok(o) ==> spec_fb_string_field(data@, table as int, field_index as int)
            == Ok::<Option<Seq<char>>, DecodeError>(opt_view(o)),
        r matches Ok(Some(t)) ==> (spec_fb_string_bytes(data@, table as int, field_index as int) matches Some(
            b,
        ) && (vstd::utf8::valid_utf8(b) ==> t@ == vstd::utf8::decode_utf8(b))),
{
    let addr = match fb_field_addr(data, table, field_index)? {
        Some(a) => a,
        None => {
            return Ok(None);
        },
    };
    let target = fb_indirect(data, addr)?;
    let len = read_u32_le(data, target)? as usize;
    let start = match target.checked_add(4) {
        Some(s) => s,
        None => {
            return Err(DecodeError::StringOffsetOverflow);
        },
    };
    let end = match start.checked_add(len) {
        Some(e) => e,
        None => {
            return Err(DecodeError::StringLengthOverflow);
        },
    };
    if end > data.len() {
        return Err(DecodeError::InvalidStringLength);
    }
    let bytes = slice_subrange(data, start, end);
    Ok(Some(utf8_lossy(bytes)))
}

pub closed spec fn spec_fb_u8_field(data: Seq<u8>, table: int, field: int, default: u8) -> Result<
    u8,
    DecodeError,
> {
    match spec_fb_field_addr(data, table, field) {
        Err(e) => Err(e),
        Ok(None) => Ok(default),
        Ok(Some(addr)) => if 0 <= addr < data.len() {
            Ok(data[addr])
        } else {
            Err(DecodeError::InvalidByteField)
        },
    }
}

/// The byte stored in field `field_index` of `table`, or `default` when absent.
pub fn fb_u8_field(data: &[u8], table: usize, field_index: usize, default: u8) -> (r: Result<
    u8,
    DecodeError,
>)
    requires
        data@.len() <= isize::MAX,
        2 * field_index + 6 <= usize::MAX,
    ensures
        r == spec_fb_u8_field(data@, table as int, field_index as int, default),
{
    match fb_field_addr(data, table, field_index)? {
        None => Ok(default),
        Some(addr) => {
            if addr < data.len() {
                Ok(data[addr])
            } else {
                Err(DecodeError::InvalidByteField)
            }
        },
    }
}

pub closed spec fn spec_fb_u32_field(data: Seq<u8>, table: int, field: int) -> Result<
    Option<u32>,
    DecodeError,
> {
    match spec_fb_field_addr(data, table, field) {
        Err(e) => Err(e),
        Ok(None) => Ok(None),
        Ok(Some(addr)) => match spec_read_u32(data, addr) {
            Err(e) => Err(e),
            Ok(v) => Ok(Some(v)),
        },
    }
}

/// The `u32` stored in field `field_index` of `table`, if present.
pub fn fb_u32_field(data: &[u8], table: usize, field_index: usize) -> (r: Result<
    Option<u32>,
    DecodeError,
>)
    requires
        data@.len() <= isize::MAX,
        2 * field_index + 6 <= usize::MAX,
    ensures
        r == spec_fb_u32_field(data@, table as int, field_index as int),
{
    match fb_field_addr(data, table, field_index)? {
        None => Ok(None),
        Some(addr) => Ok(Some(read_u32_le(data, addr)?)),
    }
}

/// The targets of the first `n` offsets of a vector whose slots start at `start`.
pub open spec fn spec_vector_slots(data: Seq<u8>, start: int, n: nat) -> Result<
    Seq<int>,
    DecodeError,
>
    decreases n,
{
    if n == 0 {
        Ok(Seq::empty())
    } else {
        match spec_vector_slots(data, start, (n - 1) as nat) {
            Err(e) => Err(e),
            Ok(s) => match spec_fb_indirect(data, start + 4 * (n - 1)) {
                Err(e) => Err(e),
                Ok(t) => Ok(s.push(t)),
            },
        }
    }
}

pub closed spec fn spec_fb_vector_tables(data: Seq<u8>, table: int, field: int) -> Result<
    Seq<int>,
    DecodeError,
> {
    match spec_fb_field_addr(data, table, field) {
        Err(e) => Err(e),
        Ok(None) => Ok(Seq::empty()),
        Ok(Some(addr)) => match spec_fb_indirect(data, addr) {
            Err(e) => Err(e),
            Ok(vector) => match spec_read_u32(data, vector) {
                Err(e) => Err(e),
                Ok(len) => {
                    if vector + 4 > usize::MAX {
                        Err(DecodeError::VectorOffsetOverflow)
                    } else {
                        let start = vector + 4;
                        let remaining = if data.len() >= start {
                            data.len() - start
                        } else {
                            0
                        };
                        let max = remaining / 4;
                        if len > max {
                            Err(DecodeError::VectorTooLong { len: len as usize, max: max as usize })
                        } else {
                            spec_vector_slots(data, start, len as nat)
                        }
                    }
                },
            },
        },
    }
}

proof fn lemma_vector_slots_above(data: Seq<u8>, start: int, n: nat)
    ensures
        spec_vector_slots(data, start, n) matches Ok(s) ==> s.len() == n && forall|i: int|
            0 <= i < n ==> start + 4 * i <= #[trigger] s[i] < data.len(),
    decreases n,
{
    if n > 0 {
        lemma_vector_slots_above(data, start, (n - 1) as nat);
    }
}

proof fn lemma_vector_slots_err(data: Seq<u8>, start: int, i: nat, n: nat)
    requires
        i < n,
        spec_vector_slots(data, start, i) is Ok,
        spec_fb_indirect(data, start + 4 * i) is Err,
    ensures
        spec_vector_slots(data, start, n) == Err::<Seq<int>, DecodeError>(
            spec_fb_indirect(data, start + 4 * i)->Err_0,
        ),
    decreases n,
{
    if n > i + 1 {
        lemma_vector_slots_err(data, start, i, (n - 1) as nat);
    }
}

/// A field's sub-table lies after the table and inside the buffer.
pub proof fn lemma_table_field_above(data: Seq<u8>, table: int, field: int)
    ensures
        spec_fb_table_field(data, table, field) matches Ok(Some(t)) ==> table < t < data.len(),
{
}

/// The sub-tables a vector field lists lie after the table and inside the buffer.
pub proof fn lemma_vector_tables_above(data: Seq<u8>, table: int, field: int)
    ensures
        spec_fb_vector_tables(data, table, field) matches Ok(s) ==> forall|i: int|
            0 <= i < s.len() ==> table < #[trigger] s[i] < data.len(),
{
    if let Ok(Some(addr)) = spec_fb_field_addr(data, table, field) {
        if let Ok(vector) = spec_fb_indirect(data, addr) {
            if let Ok(len) = spec_read_u32(data, vector) {
                lemma_vector_slots_above(data, vector + 4, len as nat);
            }
        }
    }
}

/// The sub-tables listed by the vector in field `field_index` of `table`.
pub fn fb_vector_tables(data: &[u8], table: usize, field_index: usize) -> (r: Result<
    Vec<usize>,
    DecodeError,
>)
    requires
        data@.len() <= isize::MAX,
        2 * field_index + 6 <= usize::MAX,
    ensures
        r.is_ok() == spec_fb_vector_tables(data@, table as int, field_index as int).is_ok(),
        r matches Err(e) ==> spec_fb_vector_tables(data@, table as int, field_index as int)
            == Err::<Seq<int>, DecodeError>(e),
        r matches Ok(v) ==> spec_fb_vector_tables(data@, table as int, field_index as int)
            == Ok::<Seq<int>, DecodeError>(v@.map_values(|t: usize| t as int)),
        r matches Ok(v) ==> forall|i: int| 0 <= i < v@.len() ==> table < #[trigger] v@[i] < data@.len(),
{
    let addr = match fb_field_addr(data, table, field_index)? {
        Some(a) => a,
        None => {
            let empty: Vec<usize> = Vec::new();
            assert(empty@.map_values(|t: usize| t as int) =~= Seq::<int>::empty());
            return Ok(empty);
        },
    };
    let vector = fb_indirect(data, addr)?;
    let len = read_u32_le(data, vector)? as usize;
    let start = match vector.checked_add(4) {
        Some(s) => s,
        None => {
            return Err(DecodeError::VectorOffsetOverflow);
        },
    };
    let remaining = data.len().saturating_sub(start);
    let max_elements = remaining / 4;
    if len > max_elements {
        return Err(DecodeError::VectorTooLong { len, max: max_elements });
    }
    let mut out: Vec<usize> = Vec::with_capacity(len);
    let mut i: usize = 0;
    proof {
        assert(out@.map_values(|t: usize| t as int) =~= Seq::<int>::empty());
    }
    while i < len
        invariant
            data@.len() <= isize::MAX,
            i <= len,
            len <= max_elements,
            max_elements == remaining / 4,
            remaining == (if data@.len() >= start { data@.len() - start } else { 0 }),
            start == vector + 4,
            table < addr <= vector,
            spec_fb_vector_tables(data@, table as int, field_index as int) == spec_vector_slots(
                data@,
                start as int,
                len as nat,
            ),
            spec_vector_slots(data@, start as int, i as nat) == Ok::<Seq<int>, DecodeError>(
                out@.map_values(|t: usize| t as int),
            ),
            forall|k: int| 0 <= k < out@.len() ==> table < #[trigger] out@[k] < data@.len(),
        decreases len - i,
    {
        assert(i * 4 < remaining) by (nonlinear_arith)
            requires
                i < len,
                len <= max_elements,
                max_elements == remaining / 4,
        ;
        assert(data@.len() >= start);
        assert(start + i * 4 < data@.len());
        let step: usize = i * 4;
        let slot: usize = start + step;
        let t = match fb_indirect(data, slot) {
            Ok(t) => t,
            Err(e) => {
                proof {
                    lemma_vector_slots_err(data@, start as int, i as nat, len as nat);
                }
                return Err(e);
            },
        };
        let ghost prev = out@;
        out.push(t);
        assert(out@.map_values(|t: usize| t as int) =~= prev.map_values(|t: usize| t as int).push(
            t as int,
        ));
        i += 1;
    }
    Ok(out)
}

} // verus!

verus! {

/// `spec_fb_table_field` unfolded: the field's address, followed through
/// the offset stored there.
pub proof fn lemma_fb_table_field(data: Seq<u8>, table: int, field: int)
    ensures
        spec_fb_table_field(data, table, field) == match spec_fb_field_addr(data, table, field) {
            Err(e) => Err(e),
            Ok(None) => Ok(None),
            Ok(Some(addr)) => match spec_fb_indirect(data, addr) {
                Err(e) => Err(e),
                Ok(t) => Ok(Some(t)),
            },
        },
{
}

/// `spec_fb_string_field` unfolded: the field's target holds a length and
/// then that many bytes, read as lossy UTF-8.
pub proof fn lemma_fb_string_field(data: Seq<u8>, table: int, field: int)
    ensures
        spec_fb_string_field(data, table, field) == match spec_fb_field_addr(data, table, field) {
            Err(e) => Err(e),
            Ok(None) => Ok(None),
            Ok(Some(addr)) => match spec_fb_indirect(data, addr) {
                Err(e) => Err(e),
                Ok(target) => match spec_read_u32(data, target) {
                    Err(e) => Err(e),
                    Ok(len) => {
                        if target + 4 > usize::MAX {
                            Err(DecodeError::StringOffsetOverflow)
                        } else if target + 4 + len > usize::MAX {
                            Err(DecodeError::StringLengthOverflow)
                        } else if target + 4 + len > data.len() {
                            Err(DecodeError::InvalidStringLength)
                        } else {
                            Ok(Some(spec_utf8_lossy(data.subrange(target + 4, target + 4 + len))))
                        }
                    },
                },
            },
        },
{
}

/// `spec_fb_u8_field` unfolded: the byte at the field's address, or the
/// default when the field is absent.
pub proof fn lemma_fb_u8_field(data: Seq<u8>, table: int, field: int, default: u8)
    ensures
        spec_fb_u8_field(data, table, field, default) == match spec_fb_field_addr(data, table, field) {
            Err(e) => Err(e),
            Ok(None) => Ok(default),
            Ok(Some(addr)) => if 0 <= addr < data.len() {
                Ok(data[addr])
            } else {
                Err(DecodeError::InvalidByteField)
            },
        },
{
}

/// `spec_fb_u32_field` unfolded: the little-endian `u32` at the field's
/// address, if the field is present.
pub proof fn lemma_fb_u32_field(data: Seq<u8>, table: int, field: int)
    ensures
        spec_fb_u32_field(data, table, field) == match spec_fb_field_addr(data, table, field) {
            Err(e) => Err(e),
            Ok(None) => Ok(None),
            Ok(Some(addr)) => match spec_read_u32(data, addr) {
                Err(e) => Err(e),
                Ok(v) => Ok(Some(v)),
            },
        },
{
}

/// `spec_fb_vector_tables` unfolded: the field's target holds a count and
/// then that many offsets, each followed to its table; a count that the
/// rest of the buffer cannot hold is refused before any slot is read.
pub proof fn lemma_fb_vector_tables(data: Seq<u8>, table: int, field: int)
    ensures
        spec_fb_vector_tables(data, table, field) == match spec_fb_field_addr(data, table, field) {
            Err(e) => Err(e),
            Ok(None) => Ok(Seq::empty()),
            Ok(Some(addr)) => match spec_fb_indirect(data, addr) {
                Err(e) => Err(e),
                Ok(vector) => match spec_read_u32(data, vector) {
                    Err(e) => Err(e),
                    Ok(len) => {
                        if vector + 4 > usize::MAX {
                            Err(DecodeError::VectorOffsetOverflow)
                        } else {
                            let start = vector + 4;
                            let remaining = if data.len() >= start {
                                data.len() - start
                            } else {
                                0
                            };
                            let max = remaining / 4;
                            if len > max {
                                Err(DecodeError::VectorTooLong { len: len as usize, max: max as usize })
                            } else {
                                spec_vector_slots(data, start, len as nat)
                            }
                        }
                    },
                },
            },
        },
{
}

} // verus!
