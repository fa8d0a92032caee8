use std::io::Write;

use odx_desktop::builder::{cached_uds_services, uds_mdd_service_cache};
use odx_desktop::error::DecodeError;
use odx_desktop::flatbuf::{
    fb_field_addr, fb_indirect, fb_string_field, fb_table_field, fb_u32_field, fb_u8_field,
    fb_vector_tables, read_i32_le, read_u16_le, read_u32_le,
};
use odx_desktop::mdd::{
    dedup_service_list, extract_flatbuffer_from_mdd, parse_uds_services_from_mdd,
    services_in_flatbuffer, LimitedVecWriter,
};
use odx_desktop::protobuf::{protobuf_length_field, read_varint};
use odx_desktop::uds::UdsMddService;

/// A field of a table under construction.
enum F {
    Absent,
    U8(u8),
    U32(u32),
    Ref,
}

/// Lays out FlatBuffer tables front to back: every referenced object is
/// written after the field that refers to it, so offsets stay positive.
struct Fb {
    buf: Vec<u8>,
}

impl Fb {
    fn new() -> Fb {
        Fb { buf: vec![0, 0, 0, 0] }
    }

    fn put_u16(&mut self, v: u16) {
        self.buf.extend_from_slice(&v.to_le_bytes());
    }

    fn put_u32(&mut self, v: u32) {
        self.buf.extend_from_slice(&v.to_le_bytes());
    }

    /// Writes a vtable and its table; returns the table position and the
    /// position of each field (0 for absent ones).
    fn table(&mut self, fields: &[F]) -> (usize, Vec<usize>) {
        let vtable = self.buf.len();
        let vt_len = 4 + 2 * fields.len();
        let mut offsets = Vec::new();
        let mut at = 4usize;
        for f in fields {
            match f {
                F::Absent => offsets.push(0u16),
                F::U8(_) => {
                    offsets.push(at as u16);
                    at += 1;
                }
                F::U32(_) | F::Ref => {
                    offsets.push(at as u16);
                    at += 4;
                }
            }
        }
        self.put_u16(vt_len as u16);
        self.put_u16(at as u16);
        for o in &offsets {
            self.put_u16(*o);
        }
        let table = self.buf.len();
        self.buf.extend_from_slice(&((table - vtable) as i32).to_le_bytes());
        let mut positions = Vec::new();
        for f in fields {
            positions.push(if matches!(f, F::Absent) { 0 } else { self.buf.len() });
            match f {
                F::Absent => {}
                F::U8(v) => self.buf.push(*v),
                F::U32(v) => self.put_u32(*v),
                F::Ref => self.put_u32(0),
            }
        }
        (table, positions)
    }

    fn patch(&mut self, field: usize, target: usize) {
        let rel = (target - field) as u32;
        self.buf[field..field + 4].copy_from_slice(&rel.to_le_bytes());
    }

    fn string(&mut self, s: &str) -> usize {
        let pos = self.buf.len();
        self.put_u32(s.len() as u32);
        self.buf.extend_from_slice(s.as_bytes());
        self.buf.push(0);
        pos
    }

    /// A vector of `n` table offsets; returns its position and its slots.
    fn vector(&mut self, n: usize) -> (usize, Vec<usize>) {
        let pos = self.buf.len();
        self.put_u32(n as u32);
        let mut slots = Vec::new();
        for _ in 0..n {
            slots.push(self.buf.len());
            self.put_u32(0);
        }
        (pos, slots)
    }

    fn set_root(&mut self, root: usize) {
        let r = root as u32;
        self.buf[0..4].copy_from_slice(&r.to_le_bytes());
    }
}

/// A service table named `name`, with a fixed `SID` request parameter whose
/// coded value is the decimal text `sid` when given.
fn add_service(fb: &mut Fb, slot: usize, name: &str, sid: Option<&str>) {
    let (service, sf) = fb.table(&[F::Ref, if sid.is_some() { F::Ref } else { F::Absent }]);
    fb.patch(slot, service);
    let (comm, cf) = fb.table(&[F::Ref]);
    fb.patch(sf[0], comm);
    let s = fb.string(name);
    fb.patch(cf[0], s);
    if let Some(value) = sid {
        let (request, rf) = fb.table(&[F::Ref]);
        fb.patch(sf[1], request);
        let (vec_pos, slots) = fb.vector(1);
        fb.patch(rf[0], vec_pos);
        let (param, pf) = fb.table(&[
            F::Absent,
            F::U8(0),
            F::Ref,
            F::Absent,
            F::Absent,
            F::Absent,
            F::U32(0),
            F::Absent,
            F::U8(1),
            F::Ref,
        ]);
        fb.patch(slots[0], param);
        let n = fb.string("SID");
        fb.patch(pf[2], n);
        let (cc, ccf) = fb.table(&[F::Ref]);
        fb.patch(pf[9], cc);
        let v = fb.string(value);
        fb.patch(ccf[0], v);
    }
}

/// A layer table named `name` with the given services.
fn add_layer(fb: &mut Fb, field: usize, name: &str, services: &[(&str, Option<&str>)]) {
    let (layer, lf) = fb.table(&[F::Ref, F::Absent, F::Absent, F::Absent, F::Ref]);
    fb.patch(field, layer);
    let s = fb.string(name);
    fb.patch(lf[0], s);
    let (vec_pos, slots) = fb.vector(services.len());
    fb.patch(lf[4], vec_pos);
    for (slot, (n, sid)) in slots.iter().zip(services.iter()) {
        add_service(fb, *slot, n, *sid);
    }
}

/// A FlatBuffer with one variant `ECU_X` offering two services, one of them
/// twice, and inheriting one service from a variant parent.
fn sample_flatbuffer() -> Vec<u8> {
    let mut fb = Fb::new();
    let (root, rf) = fb.table(&[F::Absent, F::Absent, F::Absent, F::Absent, F::Absent, F::Ref]);
    fb.set_root(root);
    let (variants, vslots) = fb.vector(1);
    fb.patch(rf[5], variants);
    let (variant, vf) = fb.table(&[F::Ref, F::Absent, F::Absent, F::Ref]);
    fb.patch(vslots[0], variant);
    add_layer(
        &mut fb,
        vf[0],
        "ECU_X",
        &[("ReadVin", Some("34")), ("ReadVin", Some("34")), ("HardReset", Some("17"))],
    );
    let (parents, pslots) = fb.vector(1);
    fb.patch(vf[3], parents);
    let (parent_ref, prf) = fb.table(&[F::U8(1), F::Ref]);
    fb.patch(pslots[0], parent_ref);
    let (parent_variant, pvf) = fb.table(&[F::Ref]);
    fb.patch(prf[1], parent_variant);
    add_layer(&mut fb, pvf[0], "BASE", &[("TesterPresent", Some("62"))]);
    fb.buf
}

fn varint(mut v: usize, out: &mut Vec<u8>) {
    loop {
        let b = (v & 0x7f) as u8;
        v >>= 7;
        if v == 0 {
            out.push(b);
            return;
        }
        out.push(b | 0x80);
    }
}

fn length_field(field: u32, bytes: &[u8], out: &mut Vec<u8>) {
    varint(((field << 3) | 2) as usize, out);
    varint(bytes.len(), out);
    out.extend_from_slice(bytes);
}

/// MDD file bytes around `flatbuffer`, with the newer 20-byte header when
/// `magic` holds, else with a 4-byte prefix.
fn mdd_bytes(flatbuffer: &[u8], magic: bool) -> Vec<u8> {
    let mut compressed = Vec::new();
    lzma_rs::lzma_compress(&mut std::io::Cursor::new(flatbuffer.to_vec()), &mut compressed).unwrap();
    let mut chunk = Vec::new();
    varint((1 << 3) | 0, &mut chunk);
    varint(300, &mut chunk);
    length_field(8, &compressed, &mut chunk);
    let mut out = Vec::new();
    if magic {
        out.extend_from_slice(b"MDD version 0   ");
        out.extend_from_slice(&[0, 0, 0, 0]);
    } else {
        out.extend_from_slice(&[1, 2, 3, 4]);
    }
    length_field(2, b"ignored", &mut out);
    length_field(6, &chunk, &mut out);
    out
}

fn summary(services: &[UdsMddService]) -> Vec<(String, String, String, Option<String>, Option<String>)> {
    services
        .iter()
        .map(|s| {
            (
                s.id.clone(),
                s.name.clone(),
                s.source_layer.clone(),
                s.sid_hex.clone(),
                s.positive_sid_hex.clone(),
            )
        })
        .collect()
}

fn expected() -> Vec<(String, String, String, Option<String>, Option<String>)> {
    vec![
        (
            "variant/0/service/0".to_string(),
            "ReadVin".to_string(),
            "ECU_X".to_string(),
            Some("22".to_string()),
            Some("62".to_string()),
        ),
        (
            "variant/0/service/2".to_string(),
            "HardReset".to_string(),
            "ECU_X".to_string(),
            Some("11".to_string()),
            Some("51".to_string()),
        ),
        (
            "variant/0/parent/0/variant-parent/service/0".to_string(),
            "TesterPresent".to_string(),
            "BASE".to_string(),
            Some("3E".to_string()),
            Some("7E".to_string()),
        ),
    ]
}

#[test]
fn flatbuffer_services_are_walked_and_deduplicated() {
    let data = sample_flatbuffer();
    let services = services_in_flatbuffer(&data).unwrap();
    assert_eq!(summary(&services), expected());
    assert!(services.iter().all(|s| s.source_ecu == "ECU_X"));
    let sid = &services[0].parameters[0];
    assert_eq!(sid.name, "SID");
    assert!(sid.fixed);
    assert_eq!(sid.value_hex.as_deref(), Some("22"));
    assert_eq!(sid.param_type, "CODED_CONST");
}

#[test]
fn mdd_files_with_either_header_decode() {
    let data = sample_flatbuffer();
    for magic in [false, true] {
        let mdd = mdd_bytes(&data, magic);
        assert_eq!(extract_flatbuffer_from_mdd(&mdd).unwrap(), data);
        assert_eq!(summary(&parse_uds_services_from_mdd(&mdd).unwrap()), expected());
    }
}

#[test]
fn mdd_header_errors() {
    assert!(matches!(extract_flatbuffer_from_mdd(&[0; 7]), Err(DecodeError::MddTooSmall)));
    let mut short = b"MDD version 0   ".to_vec();
    short.extend_from_slice(&[0, 0]);
    assert!(matches!(extract_flatbuffer_from_mdd(&short), Err(DecodeError::InvalidMddHeader)));
    let mut no_chunk = vec![0, 0, 0, 0];
    length_field(2, b"xyz", &mut no_chunk);
    assert!(matches!(
        extract_flatbuffer_from_mdd(&no_chunk),
        Err(DecodeError::ProtobufFieldNotFound(6))
    ));
}

#[test]
fn mdd_with_broken_compression_fails() {
    let mut chunk = Vec::new();
    length_field(8, &[0xff; 20], &mut chunk);
    let mut mdd = vec![0, 0, 0, 0];
    length_field(6, &chunk, &mut mdd);
    let r = extract_flatbuffer_from_mdd(&mdd);
    match r {
        Err(e @ DecodeError::DecompressionFailed(_)) => {
            assert!(e.message().starts_with("Failed to decompress MDD FlatBuffer safely: "));
        }
        other => panic!("unexpected {other:?}"),
    }
}

#[test]
fn flatbuffer_without_services_is_refused() {
    let mut fb = Fb::new();
    let (root, rf) = fb.table(&[F::Absent, F::Absent, F::Absent, F::Absent, F::Absent, F::Ref]);
    fb.set_root(root);
    let (variants, _) = fb.vector(0);
    fb.patch(rf[5], variants);
    let r = services_in_flatbuffer(&fb.buf);
    assert!(matches!(r, Err(DecodeError::NoServices)));
    assert_eq!(
        r.unwrap_err().message(),
        "The MDD was decoded successfully, but no diagnostic services were found in its variants."
    );
}

#[test]
fn flatbuffer_with_bad_root_is_refused() {
    assert!(matches!(services_in_flatbuffer(&[200, 0, 0, 0, 0]), Err(DecodeError::InvalidRoot)));
    assert!(matches!(services_in_flatbuffer(&[1, 0]), Err(DecodeError::UnexpectedEndOfFlatBuffer)));
}

#[test]
fn cache_keeps_decoded_files_by_clean_path() {
    let mdd = mdd_bytes(&sample_flatbuffer(), false);
    let mut cache = uds_mdd_service_cache();
    let first = summary(cached_uds_services(&mut cache, " \"C:\\a.mdd\" ", &mdd).unwrap());
    assert_eq!(first, expected());
    // Once cached, the bytes handed in are not read again.
    let again = summary(cached_uds_services(&mut cache, "C:\\a.mdd", b"junk").unwrap());
    assert_eq!(again, expected());
    assert_eq!(summary(cache.lookup("'C:\\a.mdd'").unwrap()), expected());
    assert!(cache.lookup("C:\\b.mdd").is_none());
}

#[test]
fn dedup_service_list_drops_repeats() {
    let data = sample_flatbuffer();
    let services = services_in_flatbuffer(&data).unwrap();
    let mut doubled = services.clone();
    doubled.extend(services.iter().cloned());
    assert_eq!(summary(&dedup_service_list(doubled)), expected());
}

#[test]
fn flatbuffer_field_readers() {
    let mut fb = Fb::new();
    let (t, tf) = fb.table(&[F::U8(7), F::U32(0x01020304), F::Ref, F::Absent]);
    fb.set_root(t);
    let s = fb.string("héllo");
    fb.patch(tf[2], s);
    let data = fb.buf;
    assert_eq!(read_u32_le(&data, 0).unwrap() as usize, t);
    assert_eq!(read_u16_le(&data, 4).unwrap(), 12);
    assert_eq!(read_i32_le(&data, t).unwrap(), 12);
    assert_eq!(fb_u8_field(&data, t, 0, 9).unwrap(), 7);
    assert_eq!(fb_u8_field(&data, t, 3, 9).unwrap(), 9);
    assert_eq!(fb_u8_field(&data, t, 40, 5).unwrap(), 5);
    assert_eq!(fb_u32_field(&data, t, 1).unwrap(), Some(0x01020304));
    assert_eq!(fb_u32_field(&data, t, 3).unwrap(), None);
    assert_eq!(fb_string_field(&data, t, 2).unwrap().as_deref(), Some("héllo"));
    assert_eq!(fb_field_addr(&data, t, 2).unwrap(), Some(tf[2]));
    assert_eq!(fb_indirect(&data, tf[2]).unwrap(), s);
    assert_eq!(fb_table_field(&data, t, 2).unwrap(), Some(s));
    assert!(fb_vector_tables(&data, t, 3).unwrap().is_empty());
    assert!(matches!(read_u32_le(&data, data.len() - 2), Err(DecodeError::UnexpectedEndOfFlatBuffer)));
}

#[test]
fn flatbuffer_reader_errors() {
    let mut fb = Fb::new();
    let (t, tf) = fb.table(&[F::U32(1000), F::U32(2)]);
    fb.set_root(t);
    let data = fb.buf;
    // An offset past the end of the buffer.
    match fb_indirect(&data, tf[0]) {
        Err(e @ DecodeError::IndirectTargetOutOfRange { .. }) => {
            assert_eq!(
                e.message(),
                format!("FlatBuffer indirect target out of range (addr={}, rel=1000, len={})", tf[0], data.len())
            );
        }
        other => panic!("unexpected {other:?}"),
    }
    // A vector longer than the buffer can hold.
    let mut bad = data.clone();
    bad.extend_from_slice(&[9, 0, 0, 0]);
    let at = bad.len() - 4;
    bad[tf[1]..tf[1] + 4].copy_from_slice(&((at - tf[1]) as u32).to_le_bytes());
    match fb_vector_tables(&bad, t, 1) {
        Err(e @ DecodeError::VectorTooLong { len: 9, max: 0 }) => {
            assert_eq!(
                e.message(),
                "Invalid FlatBuffer vector length 9; only 0 table slot(s) fit in the remaining buffer"
            );
        }
        other => panic!("unexpected {other:?}"),
    }
    // A vtable before the start of the buffer.
    let mut neg = vec![8, 0, 0, 0];
    neg.extend_from_slice(&[0, 0, 0, 0]);
    neg.extend_from_slice(&100i32.to_le_bytes());
    match fb_field_addr(&neg, 8, 0) {
        Err(e @ DecodeError::InvalidVtableAddress { table: 8, offset: 100 }) => {
            assert_eq!(e.message(), "Invalid FlatBuffer vtable address (table=8, offset=100)");
        }
        other => panic!("unexpected {other:?}"),
    }
}

#[test]
fn varints_and_length_fields() {
    assert_eq!(read_varint(&[0xAC, 0x02], 0).unwrap(), (300, 2));
    assert_eq!(read_varint(&[0x00, 0x7F], 1).unwrap(), (127, 2));
    assert!(matches!(read_varint(&[0x80], 0), Err(DecodeError::UnexpectedEndOfProtobuf)));
    assert!(matches!(read_varint(&[0xFF; 11], 0), Err(DecodeError::InvalidVarint)));
    let mut msg = Vec::new();
    varint((1 << 3) | 0, &mut msg);
    varint(5, &mut msg);
    varint((2 << 3) | 1, &mut msg);
    msg.extend_from_slice(&[0; 8]);
    varint((3 << 3) | 5, &mut msg);
    msg.extend_from_slice(&[0; 4]);
    length_field(4, b"four", &mut msg);
    length_field(7, b"seven", &mut msg);
    assert_eq!(protobuf_length_field(&msg, 7).unwrap(), b"seven".to_vec());
    assert_eq!(protobuf_length_field(&msg, 4).unwrap(), b"four".to_vec());
    assert!(matches!(protobuf_length_field(&msg, 9), Err(DecodeError::ProtobufFieldNotFound(9))));
    assert!(matches!(protobuf_length_field(&[0x0B], 1), Err(DecodeError::UnsupportedWireType(3))));
    assert!(matches!(protobuf_length_field(&[0x12, 0x05, 1], 2), Err(DecodeError::InvalidProtobufLength)));
    assert_eq!(DecodeError::UnsupportedWireType(3).message(), "Unsupported protobuf wire type 3");
    assert_eq!(DecodeError::ProtobufFieldNotFound(9).message(), "Protobuf field 9 not found");
}

#[test]
fn limited_writer_refuses_output_past_its_limit() {
    let mut w = LimitedVecWriter::new(4);
    assert_eq!(w.write(&[1, 2, 3]).unwrap(), 3);
    let err = w.write(&[4, 5]).unwrap_err();
    assert_eq!(err.kind(), std::io::ErrorKind::InvalidData);
    assert_eq!(err.to_string(), "MDD decompressed FlatBuffer exceeds safety limit of 4 bytes");
    assert_eq!(w.write(&[4]).unwrap(), 1);
    w.flush().unwrap();
    assert_eq!(w.into_data(), vec![1, 2, 3, 4]);
}
