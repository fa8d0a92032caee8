use vstd::prelude::*;
use crate::text::{digits_in, i64_to_decimal, signed_decimal, u64_to_decimal};

verus! {

/// Everything that can go wrong while reading an MDD container, its protobuf
/// framing, the compressed payload and the FlatBuffer inside it.
#[derive(Debug)]
pub enum DecodeError {
    /// A fixed-width FlatBuffer read ran past the end of the buffer.
    UnexpectedEndOfFlatBuffer,
    /// Subtracting the vtable offset from the table position overflowed.
    VtableAddressOverflow,
    /// The vtable of `table` lies outside the buffer.
    InvalidVtableAddress { table: usize, offset: i32 },
    /// A field position does not fit in the address space.
    FieldOffsetOverflow,
    /// A field position lies outside the buffer.
    FieldAddressOutOfRange,
    /// Following an offset overflowed the address space.
    IndirectOffsetOverflow,
    /// Following an offset leads outside the buffer.
    IndirectTargetOutOfRange { addr: usize, rel: u32, len: usize },
    /// The start of a string does not fit in the address space.
    StringOffsetOverflow,
    /// The end of a string does not fit in the address space.
    StringLengthOverflow,
    /// A string runs past the end of the buffer.
    InvalidStringLength,
    /// A one-byte field lies outside the buffer.
    InvalidByteField,
    /// The start of a vector does not fit in the address space.
    VectorOffsetOverflow,
    /// A vector claims more elements than the rest of the buffer can hold.
    VectorTooLong { len: usize, max: usize },
    /// A protobuf varint ran past the end of the data.
    UnexpectedEndOfProtobuf,
    /// A protobuf varint is longer than 64 bits.
    InvalidVarint,
    /// A protobuf position overflowed the address space.
    ProtobufOverflow,
    /// A protobuf length-delimited field runs past the end of the data.
    InvalidProtobufLength,
    /// A protobuf wire type this reader does not handle.
    UnsupportedWireType(u8),
    /// The requested protobuf field does not occur.
    ProtobufFieldNotFound(u32),
    /// The MDD file is shorter than its header.
    MddTooSmall,
    /// The MDD header is cut short.
    InvalidMddHeader,
    /// The compressed FlatBuffer could not be decompressed within the size limit.
    DecompressionFailed(String),
    /// The FlatBuffer root offset lies outside the buffer.
    InvalidRoot,
    /// A fixed structure position overflowed.
    FixedStructureOverflow,
    /// A fixed structure is larger than the safety limit.
    FixedStructureTooLarge,
    /// The MDD decoded but holds no diagnostic service.
    NoServices,
}

} // verus!

verus! {

/// The text a user is shown for an error.
pub open spec fn spec_error_message(e: DecodeError) -> Seq<char> {
    match e {
        DecodeError::UnexpectedEndOfFlatBuffer => "Unexpected end of FlatBuffer"@,
        DecodeError::VtableAddressOverflow => "Invalid FlatBuffer vtable address"@,
        DecodeError::InvalidVtableAddress { table, offset } => "Invalid FlatBuffer vtable address (table="@
            + digits_in(table as nat, 10) + ", offset="@ + signed_decimal(offset as int) + ")"@,
        DecodeError::FieldOffsetOverflow => "FlatBuffer field offset overflow"@,
        DecodeError::FieldAddressOutOfRange => "FlatBuffer field address out of range"@,
        DecodeError::IndirectOffsetOverflow => "FlatBuffer offset overflow"@,
        DecodeError::IndirectTargetOutOfRange { addr, rel, len } =>
            "FlatBuffer indirect target out of range (addr="@ + digits_in(addr as nat, 10) + ", rel="@
            + digits_in(rel as nat, 10) + ", len="@ + digits_in(len as nat, 10) + ")"@,
        DecodeError::StringOffsetOverflow => "FlatBuffer string offset overflow"@,
        DecodeError::StringLengthOverflow => "FlatBuffer string length overflow"@,
        DecodeError::InvalidStringLength => "Invalid FlatBuffer string length"@,
        DecodeError::InvalidByteField => "Invalid FlatBuffer byte field"@,
        DecodeError::VectorOffsetOverflow => "FlatBuffer vector offset overflow"@,
        DecodeError::VectorTooLong { len, max } => "Invalid FlatBuffer vector length "@ + digits_in(
            len as nat,
            10,
        ) + "; only "@ + digits_in(max as nat, 10)
            + " table slot(s) fit in the remaining buffer"@,
        DecodeError::UnexpectedEndOfProtobuf => "Unexpected end of protobuf data"@,
        DecodeError::InvalidVarint => "Invalid protobuf varint"@,
        DecodeError::ProtobufOverflow => "protobuf overflow"@,
        DecodeError::InvalidProtobufLength => "Invalid protobuf length field"@,
        DecodeError::UnsupportedWireType(w) => "Unsupported protobuf wire type "@ + digits_in(
            w as nat,
            10,
        ),
        DecodeError::ProtobufFieldNotFound(n) => "Protobuf field "@ + digits_in(n as nat, 10)
            + " not found"@,
        DecodeError::MddTooSmall => "MDD file is too small"@,
        DecodeError::InvalidMddHeader => "Invalid MDD header"@,
        DecodeError::DecompressionFailed(t) => "Failed to decompress MDD FlatBuffer safely: "@ + t@,
        DecodeError::InvalidRoot => "Invalid FlatBuffer root"@,
        DecodeError::FixedStructureOverflow => "Fixed structure position overflow"@,
        DecodeError::FixedStructureTooLarge => "Fixed structure exceeds safe size limit (1048576 bytes)"@,
        DecodeError::NoServices => "The MDD was decoded successfully, but no diagnostic services were found in its variants."@,
    }
}

impl DecodeError {
    /// The text a user is shown for this error.
    pub fn message(&self) -> (r: String)
        ensures
            r@ == spec_error_message(*self),
    {
        match self {
            DecodeError::UnexpectedEndOfFlatBuffer => String::from_str("Unexpected end of FlatBuffer"),
            DecodeError::VtableAddressOverflow => String::from_str("Invalid FlatBuffer vtable address"),
            DecodeError::InvalidVtableAddress { table, offset } => {
                let mut m = String::from_str("Invalid FlatBuffer vtable address (table=");
                m.append(u64_to_decimal(*table as u64).as_str());
                m.append(", offset=");
                m.append(i64_to_decimal(*offset as i64).as_str());
                m.append(")");
                m
            },
            DecodeError::FieldOffsetOverflow => String::from_str("FlatBuffer field offset overflow"),
            DecodeError::FieldAddressOutOfRange => String::from_str(
                "FlatBuffer field address out of range",
            ),
            DecodeError::IndirectOffsetOverflow => String::from_str("FlatBuffer offset overflow"),
            DecodeError::IndirectTargetOutOfRange { addr, rel, len } => {
                let mut m = String::from_str("FlatBuffer indirect target out of range (addr=");
                m.append(u64_to_decimal(*addr as u64).as_str());
                m.append(", rel=");
                m.append(u64_to_decimal(*rel as u64).as_str());
                m.append(", len=");
                m.append(u64_to_decimal(*len as u64).as_str());
                m.append(")");
                m
            },
            DecodeError::StringOffsetOverflow => String::from_str("FlatBuffer string offset overflow"),
            DecodeError::StringLengthOverflow => String::from_str("FlatBuffer string length overflow"),
            DecodeError::InvalidStringLength => String::from_str("Invalid FlatBuffer string length"),
            DecodeError::InvalidByteField => String::from_str("Invalid FlatBuffer byte field"),
            DecodeError::VectorOffsetOverflow => String::from_str("FlatBuffer vector offset overflow"),
            DecodeError::VectorTooLong { len, max } => {
                let mut m = String::from_str("Invalid FlatBuffer vector length ");
                m.append(u64_to_decimal(*len as u64).as_str());
                m.append("; only ");
                m.append(u64_to_decimal(*max as u64).as_str());
                m.append(" table slot(s) fit in the remaining buffer");
                m
            },
            DecodeError::UnexpectedEndOfProtobuf => String::from_str("Unexpected end of protobuf data"),
            DecodeError::InvalidVarint => String::from_str("Invalid protobuf varint"),
            DecodeError::ProtobufOverflow => String::from_str("protobuf overflow"),
            DecodeError::InvalidProtobufLength => String::from_str("Invalid protobuf length field"),
            DecodeError::UnsupportedWireType(w) => {
                let mut m = String::from_str("Unsupported protobuf wire type ");
                m.append(u64_to_decimal(*w as u64).as_str());
                m
            },
            DecodeError::ProtobufFieldNotFound(n) => {
                let mut m = String::from_str("Protobuf field ");
                m.append(u64_to_decimal(*n as u64).as_str());
                m.append(" not found");
                m
            },
            DecodeError::MddTooSmall => String::from_str("MDD file is too small"),
            DecodeError::InvalidMddHeader => String::from_str("Invalid MDD header"),
            DecodeError::DecompressionFailed(t) => {
                let mut m = String::from_str("Failed to decompress MDD FlatBuffer safely: ");
                m.append(t.as_str());
                m
            },
            DecodeError::InvalidRoot => String::from_str("Invalid FlatBuffer root"),
            DecodeError::FixedStructureOverflow => String::from_str(
                "Fixed structure position overflow",
            ),
            DecodeError::FixedStructureTooLarge => String::from_str(
                "Fixed structure exceeds safe size limit (1048576 bytes)",
            ),
            DecodeError::NoServices => String::from_str(
                "The MDD was decoded successfully, but no diagnostic services were found in its variants.",
            ),
        }
    }
}

} // verus!
