use odx_desktop::decode::{
    compu_text_choices, diag_coded_guide, dop_guide, fixed_param_bytes, fixed_structure_bytes,
    limit_value, parse_param, physical_default_hex, table_key_guide,
};
use odx_desktop::service::{
    collect_layer_services, collect_parent_services, parse_request_params, parse_response_params, parse_service,
};
use odx_desktop::uds::{
    bytes_for_bits, data_type_name, input_hint_for, join_strings, param_type_name,
    saturating_times_8, DopGuide, UdsMddChoice, UdsMddParameter,
};

/// A field of a table under construction.
enum F {
    Absent,
    U8(u8),
    U32(u32),
    Ref,
}

/// Lays out FlatBuffer tables front to back: every referenced object is
/// written after the field that refers to it, so offsets stay positive.
struct Fb {
    buf: Vec<u8>,
}

impl Fb {
    fn new() -> Fb {
        Fb { buf: vec![0, 0, 0, 0] }
    }

    fn put_u16(&mut self, v: u16) {
        self.buf.extend_from_slice(&v.to_le_bytes());
    }

    fn put_u32(&mut self, v: u32) {
        self.buf.extend_from_slice(&v.to_le_bytes());
    }

    /// Writes a vtable and its table; returns the table position and the
    /// position of each field (0 for absent ones).
    fn table(&mut self, fields: &[F]) -> (usize, Vec<usize>) {
        let vtable = self.buf.len();
        let vt_len = 4 + 2 * fields.len();
        let mut offsets = Vec::new();
        let mut at = 4usize;
        for f in fields {
            match f {
                F::Absent => offsets.push(0u16),
                F::U8(_) => {
                    offsets.push(at as u16);
                    at += 1;
                }
                F::U32(_) | F::Ref => {
                    offsets.push(at as u16);
                    at += 4;
                }
            }
        }
        self.put_u16(vt_len as u16);
        self.put_u16(at as u16);
        for o in &offsets {
            self.put_u16(*o);
        }
        let table = self.buf.len();
        self.buf.extend_from_slice(&((table - vtable) as i32).to_le_bytes());
        let mut positions = Vec::new();
        for f in fields {
            positions.push(if matches!(f, F::Absent) { 0 } else { self.buf.len() });
            match f {
                F::Absent => {}
                F::U8(v) => self.buf.push(*v),
                F::U32(v) => self.put_u32(*v),
                F::Ref => self.put_u32(0),
            }
        }
        (table, positions)
    }

    fn patch(&mut self, field: usize, target: usize) {
        let rel = (target - field) as u32;
        self.buf[field..field + 4].copy_from_slice(&rel.to_le_bytes());
    }

    fn string(&mut self, s: &str) -> usize {
        let pos = self.buf.len();
        self.put_u32(s.len() as u32);
        self.buf.extend_from_slice(s.as_bytes());
        self.buf.push(0);
        pos
    }

    /// A vector of `n` table offsets; returns its position and its slots.
    fn vector(&mut self, n: usize) -> (usize, Vec<usize>) {
        let pos = self.buf.len();
        self.put_u32(n as u32);
        let mut slots = Vec::new();
        for _ in 0..n {
            slots.push(self.buf.len());
            self.put_u32(0);
        }
        (pos, slots)
    }

    fn set_root(&mut self, root: usize) {
        let r = root as u32;
        self.buf[0..4].copy_from_slice(&r.to_le_bytes());
    }
}


/// A table holding one string in field `field` (of `width` fields).
fn string_table(fb: &mut Fb, slot: usize, field: usize, width: usize, text: &str) -> usize {
    let fields: Vec<F> = (0..width).map(|i| if i == field { F::Ref } else { F::Absent }).collect();
    let (t, tf) = fb.table(&fields);
    fb.patch(slot, t);
    let s = fb.string(text);
    fb.patch(tf[field], s);
    t
}

/// A standard-length diagnostic coded type of `bits` bits and base data type `data_type`.
fn add_dct(fb: &mut Fb, slot: usize, data_type: u8, bits: u32) -> usize {
    let (dct, df) = fb.table(&[F::U8(3), F::Absent, F::U8(data_type), F::Absent, F::U8(4), F::Ref]);
    fb.patch(slot, dct);
    let (len, _) = fb.table(&[F::U32(bits)]);
    fb.patch(df[5], len);
    dct
}

/// A coded-constant parameter named `name` at byte `pos` whose value is the decimal text `value`.
fn add_coded_const(fb: &mut Fb, slot: usize, name: &str, pos: Option<u32>, value: &str) -> usize {
    let (param, pf) = fb.table(&[
        F::Absent,
        F::U8(0),
        F::Ref,
        F::Absent,
        F::Absent,
        F::Absent,
        match pos {
            Some(p) => F::U32(p),
            None => F::Absent,
        },
        F::Absent,
        F::U8(1),
        F::Ref,
    ]);
    fb.patch(slot, param);
    let n = fb.string(name);
    fb.patch(pf[2], n);
    string_table(fb, pf[9], 0, 1, value);
    param
}

/// A scale of a text table: lower and upper limits, a text label, a short label.
fn add_scale(fb: &mut Fb, slot: usize, lower: Option<&str>, upper: Option<&str>, text: Option<&str>, short: Option<&str>) {
    let field = |b: bool| if b { F::Ref } else { F::Absent };
    let (scale, sf) = fb.table(&[
        field(short.is_some()),
        field(lower.is_some()),
        field(upper.is_some()),
        F::Absent,
        field(text.is_some()),
    ]);
    fb.patch(slot, scale);
    if let Some(v) = short {
        string_table(fb, sf[0], 0, 1, v);
    }
    if let Some(v) = lower {
        string_table(fb, sf[1], 0, 1, v);
    }
    if let Some(v) = upper {
        string_table(fb, sf[2], 0, 1, v);
    }
    if let Some(v) = text {
        string_table(fb, sf[4], 1, 2, v);
    }
}

/// A VALUE parameter `Mode` at byte 1 whose normal DOP has a text table, an
/// 8-bit unsigned coded type, an internal range 0..255 and a unit.
fn value_param_buffer() -> (Vec<u8>, usize, usize, usize) {
    let mut fb = Fb::new();
    let (param, pf) = fb.table(&[
        F::Absent,
        F::U8(11),
        F::Ref,
        F::Absent,
        F::Absent,
        F::Absent,
        F::U32(1),
        F::Absent,
        F::U8(7),
        F::Ref,
    ]);
    fb.set_root(param);
    let n = fb.string("Mode");
    fb.patch(pf[2], n);
    let (value, vf) = fb.table(&[F::Absent, F::Ref]);
    fb.patch(pf[9], value);
    let (dop, df) = fb.table(&[F::U8(0), F::Absent, F::Absent, F::U8(1), F::Ref]);
    fb.patch(vf[1], dop);
    let (normal, nf) = fb.table(&[F::Ref, F::Ref, F::Absent, F::Ref, F::Ref]);
    fb.patch(df[4], normal);
    let (compu, cf) = fb.table(&[F::U8(3), F::Ref]);
    fb.patch(nf[0], compu);
    let (i2p, if_) = fb.table(&[F::Ref]);
    fb.patch(cf[1], i2p);
    let (scales, slots) = fb.vector(4);
    fb.patch(if_[0], scales);
    add_scale(&mut fb, slots[0], Some("1"), Some("1"), Some("On"), None);
    add_scale(&mut fb, slots[1], Some("2"), None, Some("  "), Some("Off-ish"));
    add_scale(&mut fb, slots[2], Some("3"), Some("4"), Some("Range"), None);
    add_scale(&mut fb, slots[3], Some("256"), Some("256"), None, None);
    add_dct(&mut fb, nf[1], 1, 8);
    let (internal, inf) = fb.table(&[F::Ref, F::Ref]);
    fb.patch(nf[3], internal);
    string_table(&mut fb, inf[0], 0, 1, "0");
    string_table(&mut fb, inf[1], 0, 1, "255");
    string_table(&mut fb, nf[4], 1, 2, "km/h");
    (fb.buf, param, dop, compu)
}

fn choices(list: &[UdsMddChoice]) -> Vec<(String, String)> {
    list.iter().map(|c| (c.label.clone(), c.value_hex.clone())).collect()
}

fn blank_param() -> UdsMddParameter {
    UdsMddParameter {
        name: "P".to_string(),
        param_type: "VALUE".to_string(),
        byte_position: None,
        bit_position: None,
        fixed: false,
        value_hex: None,
        default_value_hex: None,
        bit_length: None,
        byte_length: None,
        data_type: None,
        min_value: None,
        max_value: None,
        unit: None,
        choices: Vec::new(),
        children: Vec::new(),
        input_hint: None,
    }
}

#[test]
fn type_names() {
    let names: Vec<&str> = (0u8..13).map(param_type_name).collect();
    assert_eq!(
        names,
        vec![
            "CODED_CONST", "DYNAMIC", "LENGTH_KEY", "MATCHING_REQUEST_PARAM", "NRC_CONST",
            "PHYS_CONST", "RESERVED", "SYSTEM", "TABLE_ENTRY", "TABLE_KEY", "TABLE_STRUCT",
            "VALUE", "UNKNOWN",
        ]
    );
    let types: Vec<&str> = (0u8..9).map(data_type_name).collect();
    assert_eq!(
        types,
        vec![
            "A_INT_32", "A_UINT_32", "A_FLOAT_32", "A_ASCIISTRING", "A_UTF_8_STRING",
            "A_UNICODE_2_STRING", "A_BYTEFIELD", "A_FLOAT_64", "UNKNOWN",
        ]
    );
    assert_eq!(param_type_name(255), "UNKNOWN");
}

#[test]
fn bit_and_byte_arithmetic() {
    assert_eq!(bytes_for_bits(0), 0);
    assert_eq!(bytes_for_bits(1), 1);
    assert_eq!(bytes_for_bits(8), 1);
    assert_eq!(bytes_for_bits(9), 2);
    assert_eq!(saturating_times_8(3), 24);
    assert_eq!(saturating_times_8(u32::MAX), u32::MAX);
    assert_eq!(join_strings(&vec!["a".to_string(), "b".to_string()], ", "), "a, b");
    assert_eq!(join_strings(&Vec::new(), ", "), "");
}

#[test]
fn input_hints() {
    let mut p = blank_param();
    assert_eq!(
        input_hint_for(&p).unwrap(),
        "Runtime value required. The MDD does not provide a fixed value or selectable table for this field; enter the ECU/test-specific value as hexadecimal bytes."
    );
    p.bit_length = Some(8);
    p.byte_length = Some(1);
    p.data_type = Some("A_UINT_32".to_string());
    p.min_value = Some("0".to_string());
    p.max_value = Some("255".to_string());
    p.unit = Some("km/h".to_string());
    assert_eq!(
        input_hint_for(&p).unwrap(),
        "Runtime value required: 1 byte (8 bits) \u{2022} A_UINT_32 \u{2022} allowed internal range 0..255 \u{2022} unit km/h. Enter the value as hexadecimal bytes. For example, hexadecimal 0x20 is entered as 20."
    );
    let mut q = blank_param();
    q.bit_length = Some(12);
    assert_eq!(
        input_hint_for(&q).unwrap(),
        "Runtime value required: 12 bits. Enter the value as hexadecimal bytes. For example, hexadecimal 0x1234 is entered as 12 34."
    );
    let mut r = blank_param();
    r.byte_length = Some(3);
    r.min_value = Some("5".to_string());
    assert_eq!(input_hint_for(&r).unwrap(), "Runtime value required: 3 bytes \u{2022} minimum 5. Enter the value as hexadecimal bytes.");
    let mut d = blank_param();
    d.default_value_hex = Some("0000".to_string());
    assert_eq!(
        input_hint_for(&d).unwrap(),
        "The MDD provides a default value. It has been pre-filled for you: 0000 (2 bytes). You may keep it or replace it with another ECU/test-specific value of the same length."
    );
    let mut c = blank_param();
    c.choices.push(UdsMddChoice { label: "On".to_string(), value_hex: "01".to_string() });
    assert_eq!(input_hint_for(&c).unwrap(), "Choose one of 1 value(s) defined by the MDD.");
    let mut s = blank_param();
    s.children.push(blank_param());
    assert_eq!(
        input_hint_for(&s).unwrap(),
        "This DataRecord is a structure. Complete only the variable fields shown below; fixed fields are inserted automatically."
    );
    let mut f = blank_param();
    f.fixed = true;
    f.choices.push(UdsMddChoice { label: "x".to_string(), value_hex: "01".to_string() });
    assert_eq!(input_hint_for(&f).unwrap(), "Value is fully defined by the MDD; no input is required.");
}

#[test]
fn value_parameter_with_text_table() {
    let (data, param, dop, compu) = value_param_buffer();
    let p = parse_param(&data, param).unwrap();
    assert_eq!(p.name, "Mode");
    assert_eq!(p.param_type, "VALUE");
    assert_eq!(p.byte_position, Some(1));
    assert_eq!(p.bit_position, None);
    assert!(!p.fixed);
    assert_eq!(p.value_hex, None);
    assert_eq!(p.default_value_hex, None);
    assert_eq!(
        choices(&p.choices),
        vec![
            ("On".to_string(), "01".to_string()),
            ("Off-ish".to_string(), "02".to_string()),
            ("0x0100".to_string(), "0100".to_string()),
        ]
    );
    assert_eq!(p.bit_length, Some(8));
    assert_eq!(p.byte_length, Some(1));
    assert_eq!(p.data_type.as_deref(), Some("A_UINT_32"));
    assert_eq!(p.min_value.as_deref(), Some("0"));
    assert_eq!(p.max_value.as_deref(), Some("255"));
    assert_eq!(p.unit.as_deref(), Some("km/h"));
    assert_eq!(p.input_hint.as_deref(), Some("Choose one of 3 value(s) defined by the MDD."));
    let g = dop_guide(&data, dop).unwrap();
    assert_eq!(choices(&g.choices).len(), 3);
    assert_eq!(g.unit.as_deref(), Some("km/h"));
    assert_eq!(choices(&compu_text_choices(&data, compu).unwrap()), choices(&p.choices));
    assert_eq!(fixed_param_bytes(&data, param).unwrap(), None);
}

#[test]
fn integer_ranges_are_inferred_from_the_width() {
    let mut fb = Fb::new();
    let (param, pf) = fb.table(&[F::Absent, F::U8(7), F::Absent, F::Absent, F::Absent, F::Absent, F::Absent, F::Absent, F::U8(11), F::Ref]);
    fb.set_root(param);
    let (system, sf) = fb.table(&[F::Ref]);
    fb.patch(pf[9], system);
    let (dop, df) = fb.table(&[F::U8(9), F::Absent, F::Absent, F::Absent, F::Ref]);
    fb.patch(sf[0], dop);
    let (dtc, dtf) = fb.table(&[F::Ref]);
    fb.patch(df[4], dtc);
    add_dct(&mut fb, dtf[0], 0, 8);
    let p = parse_param(&fb.buf, param).unwrap();
    assert_eq!(p.name, "Unnamed parameter");
    assert_eq!(p.param_type, "SYSTEM");
    assert_eq!(p.data_type.as_deref(), Some("A_INT_32"));
    assert_eq!(p.min_value.as_deref(), Some("-128"));
    assert_eq!(p.max_value.as_deref(), Some("127"));
    assert_eq!(
        p.input_hint.as_deref(),
        Some("Runtime value required: 1 byte (8 bits) \u{2022} A_INT_32 \u{2022} allowed internal range -128..127. Enter the value as hexadecimal bytes. For example, hexadecimal 0x20 is entered as 20.")
    );
}

#[test]
fn diag_coded_guide_reads_lengths() {
    let mut fb = Fb::new();
    let (holder, hf) = fb.table(&[F::Ref, F::Ref]);
    fb.set_root(holder);
    let std16 = add_dct(&mut fb, hf[0], 1, 16);
    let (minmax, mf) = fb.table(&[F::U8(1), F::Absent, F::U8(6), F::Absent, F::U8(2), F::Ref]);
    fb.patch(hf[1], minmax);
    let (len, _) = fb.table(&[F::U32(4)]);
    fb.patch(mf[5], len);
    let mut g = DopGuide::default();
    diag_coded_guide(&fb.buf, std16, &mut g).unwrap();
    assert_eq!((g.bit_length, g.byte_length, g.data_type.as_deref()), (Some(16), Some(2), Some("A_UINT_32")));
    let mut h = DopGuide::default();
    diag_coded_guide(&fb.buf, minmax, &mut h).unwrap();
    assert_eq!((h.bit_length, h.byte_length, h.data_type.as_deref()), (Some(32), Some(4), Some("A_BYTEFIELD")));
}

/// A VALUE parameter whose structure DOP holds two coded constants, written
/// out of order: 0xFF at byte 1, then 0x10 at byte 0.
fn structure_buffer() -> (Vec<u8>, usize, usize) {
    let mut fb = Fb::new();
    let (param, pf) = fb.table(&[F::Absent, F::U8(11), F::Ref, F::Absent, F::Absent, F::Absent, F::Absent, F::Absent, F::U8(7), F::Ref]);
    fb.set_root(param);
    let n = fb.string("DataRecord");
    fb.patch(pf[2], n);
    let (value, vf) = fb.table(&[F::Absent, F::Ref]);
    fb.patch(pf[9], value);
    let (dop, df) = fb.table(&[F::U8(8), F::Absent, F::Absent, F::Absent, F::Ref]);
    fb.patch(vf[1], dop);
    let (structure, stf) = fb.table(&[F::Ref]);
    fb.patch(df[4], structure);
    let (kids, slots) = fb.vector(2);
    fb.patch(stf[0], kids);
    add_coded_const(&mut fb, slots[0], "Second", Some(1), "255");
    add_coded_const(&mut fb, slots[1], "First", Some(0), "16");
    (fb.buf, param, structure)
}

#[test]
fn structure_of_constants_is_fixed() {
    let (data, param, structure) = structure_buffer();
    assert_eq!(fixed_structure_bytes(&data, structure).unwrap(), Some(vec![0x10, 0xFF]));
    assert_eq!(fixed_param_bytes(&data, param).unwrap(), Some(vec![0x10, 0xFF]));
    let p = parse_param(&data, param).unwrap();
    assert!(p.fixed);
    assert_eq!(p.value_hex.as_deref(), Some("10 FF"));
    assert_eq!(p.children.len(), 2);
    assert_eq!(p.children[0].name, "Second");
    assert_eq!(p.children[0].value_hex.as_deref(), Some("FF"));
    assert_eq!(p.byte_length, Some(2));
    assert_eq!(p.bit_length, Some(16));
    assert_eq!(p.input_hint.as_deref(), Some("Value is fully defined by the MDD; no input is required."));
}

#[test]
fn table_keys_offer_rows() {
    let mut fb = Fb::new();
    let (holder, hf) = fb.table(&[F::Ref, F::Ref]);
    fb.set_root(holder);
    let (tk, tkf) = fb.table(&[F::U8(1), F::Ref]);
    fb.patch(hf[0], tk);
    let (table, tf) = fb.table(&[F::Absent, F::Absent, F::Absent, F::Absent, F::Ref, F::Ref]);
    fb.patch(tkf[1], table);
    let (key_dop, kf) = fb.table(&[F::U8(0), F::Absent, F::Absent, F::U8(1), F::Ref]);
    fb.patch(tf[4], key_dop);
    let (normal, nf) = fb.table(&[F::Absent, F::Ref]);
    fb.patch(kf[4], normal);
    add_dct(&mut fb, nf[1], 1, 8);
    let (rows, slots) = fb.vector(3);
    fb.patch(tf[5], rows);
    let (row1, r1) = fb.table(&[F::Ref, F::Ref, F::Ref]);
    fb.patch(slots[0], row1);
    let s = fb.string("five");
    fb.patch(r1[0], s);
    string_table(&mut fb, r1[1], 0, 1, "Five");
    let k = fb.string("5");
    fb.patch(r1[2], k);
    let (row2, r2) = fb.table(&[F::Ref, F::Absent, F::Ref]);
    fb.patch(slots[1], row2);
    let s2 = fb.string("six");
    fb.patch(r2[0], s2);
    let k2 = fb.string("6");
    fb.patch(r2[2], k2);
    let (row3, r3) = fb.table(&[F::Absent, F::Absent, F::Ref]);
    fb.patch(slots[2], row3);
    let k3 = fb.string("not a number");
    fb.patch(r3[2], k3);
    let (tk2, tk2f) = fb.table(&[F::U8(2), F::Ref]);
    fb.patch(hf[1], tk2);
    let (row4, r4) = fb.table(&[F::Absent, F::Absent, F::Ref]);
    fb.patch(tk2f[1], row4);
    let k4 = fb.string("300");
    fb.patch(r4[2], k4);
    let data = fb.buf;
    let g = table_key_guide(&data, tk).unwrap();
    assert_eq!(choices(&g.choices), vec![("Five".to_string(), "05".to_string()), ("six".to_string(), "06".to_string())]);
    assert_eq!((g.bit_length, g.byte_length, g.data_type.as_deref()), (Some(8), Some(1), Some("A_UINT_32")));
    let g2 = table_key_guide(&data, tk2).unwrap();
    assert_eq!(choices(&g2.choices), vec![("0x012C".to_string(), "012C".to_string())]);
    assert!(table_key_guide(&data, data.len() + 10).is_err());
}

#[test]
fn byte_field_defaults() {
    let mut fb = Fb::new();
    let (param, pf) = fb.table(&[F::Absent, F::Absent, F::Absent, F::Absent, F::Absent, F::Ref]);
    fb.set_root(param);
    let d = fb.string("0x00a");
    fb.patch(pf[5], d);
    let data = fb.buf;
    assert_eq!(physical_default_hex(&data, param, 0, 0, None, Some("A_BYTEFIELD")).as_deref(), Some("000A"));
    assert_eq!(physical_default_hex(&data, param, 0, 0, None, Some("A_UINT_32")), None);
    assert_eq!(physical_default_hex(&data, param, 0, 0, None, None), None);
    assert_eq!(limit_value(&data, None).unwrap(), None);
    assert_eq!(limit_value(&data, Some(param)).unwrap(), None);
}

#[test]
fn service_with_request_and_responses() {
    let mut fb = Fb::new();
    let (service, sf) = fb.table(&[F::Ref, F::Ref, F::Ref]);
    fb.set_root(service);
    let (comm, cf) = fb.table(&[F::Ref, F::Ref]);
    fb.patch(sf[0], comm);
    let n = fb.string("ReadVin");
    fb.patch(cf[0], n);
    string_table(&mut fb, cf[1], 0, 1, "Read the VIN");
    let (request, rf) = fb.table(&[F::Ref]);
    fb.patch(sf[1], request);
    let (params, ps) = fb.vector(2);
    fb.patch(rf[0], params);
    add_coded_const(&mut fb, ps[0], "sid", Some(0), "34");
    // A parameter whose name cannot be read falls back to a runtime stand-in.
    let (broken, bf) = fb.table(&[F::Absent, F::U8(11), F::U32(1_000_000)]);
    fb.patch(ps[1], broken);
    let _ = bf;
    let (responses, rs) = fb.vector(1);
    fb.patch(sf[2], responses);
    let (response, resf) = fb.table(&[F::Absent, F::Ref]);
    fb.patch(rs[0], response);
    let (rparams, rps) = fb.vector(1);
    fb.patch(resf[1], rparams);
    add_coded_const(&mut fb, rps[0], "SIDPR", Some(0), "98");
    let data = fb.buf;
    assert!(parse_param(&data, broken).is_err());
    let request_params = parse_request_params(&data, request).unwrap();
    assert_eq!(request_params.len(), 2);
    assert_eq!(request_params[1].name, "Runtime parameter");
    assert_eq!(request_params[1].param_type, "VALUE");
    assert!(!request_params[1].fixed);
    assert_eq!(
        request_params[1].input_hint.as_deref(),
        Some("Runtime value required. This parameter uses an MDD construct that could not be fully decoded; consult the ECU/ODX definition for the exact value and length.")
    );
    assert_eq!(parse_response_params(&data, response).unwrap()[0].value_hex.as_deref(), Some("62"));
    let s = parse_service(&data, service, "id/0".to_string(), "Layer".to_string(), "ECU".to_string()).unwrap();
    assert_eq!(s.id, "id/0");
    assert_eq!(s.name, "ReadVin");
    assert_eq!(s.long_name.as_deref(), Some("Read the VIN"));
    assert_eq!(s.source_layer, "Layer");
    assert_eq!(s.source_ecu, "ECU");
    assert_eq!(s.sid_hex.as_deref(), Some("22"));
    assert_eq!(s.positive_sid_hex.as_deref(), Some("62"));
    assert_eq!(s.positive_parameters.len(), 1);
    assert!(s.negative_parameters.is_empty());
}

#[test]
fn undecodable_guidance_does_not_fail_a_parameter() {
    let mut fb = Fb::new();
    let (param, pf) = fb.table(&[F::Absent, F::U8(11), F::Ref, F::Absent, F::Absent, F::Absent, F::Absent, F::Absent, F::U8(7), F::Ref]);
    fb.set_root(param);
    let n = fb.string("Odd");
    fb.patch(pf[2], n);
    // The value table's DOP offset points far outside the buffer.
    let (_value, vf) = fb.table(&[F::Absent, F::U32(1_000_000)]);
    fb.patch(pf[9], _value);
    let _ = vf;
    let p = parse_param(&fb.buf, param).unwrap();
    assert_eq!(p.name, "Odd");
    assert!(!p.fixed);
    assert!(p.choices.is_empty());
    assert_eq!(p.data_type, None);
    assert_eq!(
        p.input_hint.as_deref(),
        Some("Runtime value required. The MDD does not provide a fixed value or selectable table for this field; enter the ECU/test-specific value as hexadecimal bytes.")
    );
}

/// A service table named `name` (no request).
fn named_service(fb: &mut Fb, slot: usize, name: &str) {
    let (service, sf) = fb.table(&[F::Ref]);
    fb.patch(slot, service);
    string_table(fb, sf[0], 0, 1, name);
}

#[test]
fn a_failing_service_keeps_those_parsed_before_it() {
    let mut fb = Fb::new();
    let (layer, lf) = fb.table(&[F::Ref, F::Absent, F::Absent, F::Absent, F::Ref]);
    fb.set_root(layer);
    let n = fb.string("ECU_L");
    fb.patch(lf[0], n);
    let (vec_pos, slots) = fb.vector(3);
    fb.patch(lf[4], vec_pos);
    named_service(&mut fb, slots[0], "First");
    let (broken, _) = fb.table(&[F::U32(1_000_000)]);
    fb.patch(slots[1], broken);
    named_service(&mut fb, slots[2], "Third");
    let (parent_ref, _) = fb.table(&[F::U8(1), F::U32(1_000_000)]);
    let data = fb.buf;

    let mut out = Vec::new();
    let r = collect_layer_services(&data, layer, "variant/0", "ECU_X", &mut out);
    assert!(r.is_err());
    assert_eq!(out.len(), 1);
    assert_eq!(out[0].name, "First");
    assert_eq!(out[0].id, "variant/0/service/0");
    assert_eq!(out[0].source_layer, "ECU_L");

    let r2 = collect_parent_services(&data, parent_ref, "variant/0/parent/0", "ECU_X", &mut out);
    assert!(r2.is_err());
    assert_eq!(out.len(), 1);
}
