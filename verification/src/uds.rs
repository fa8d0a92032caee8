//! The UDS service model that the builder offers: services, their request and
//! response parameters, and the guidance (lengths, ranges, choices) that the
//! MDD's data object properties give for each parameter.
use vstd::prelude::*;
use crate::flatbuf::opt_view;
use crate::text::{
    chars_to_string, decimal_string_to_hex, digits_in, signed_decimal, spec_decimal_string_to_hex,
    trim, trim_chars, str_chars, u64_to_decimal,
};

verus! {

/// One selectable value of a parameter: a label and the value's hex bytes.
#[derive(Debug)]
pub struct UdsMddChoice {
    pub label: String,
    pub value_hex: String,
}

/// A choice as text.
pub ghost struct ChoiceView {
    pub label: Seq<char>,
    pub value_hex: Seq<char>,
}

impl View for UdsMddChoice {
    type V = ChoiceView;

    open spec fn view(&self) -> ChoiceView {
        ChoiceView { label: self.label@, value_hex: self.value_hex@ }
    }
}

/// A request or response parameter of a UDS service, with the guidance the
/// builder shows for it.
#[derive(Debug)]
pub struct UdsMddParameter {
    pub name: String,
    pub param_type: String,
    pub byte_position: Option<u32>,
    pub bit_position: Option<u32>,
    pub fixed: bool,
    pub value_hex: Option<String>,
    pub default_value_hex: Option<String>,
    pub bit_length: Option<u32>,
    pub byte_length: Option<u32>,
    pub data_type: Option<String>,
    pub min_value: Option<String>,
    pub max_value: Option<String>,
    pub unit: Option<String>,
    pub choices: Vec<UdsMddChoice>,
    pub children: Vec<UdsMddParameter>,
    pub input_hint: Option<String>,
}

/// A parameter as text, its structure members included.
pub ghost struct ParamView {
    pub name: Seq<char>,
    pub param_type: Seq<char>,
    pub byte_position: Option<u32>,
    pub bit_position: Option<u32>,
    pub fixed: bool,
    pub value_hex: Option<Seq<char>>,
    pub default_value_hex: Option<Seq<char>>,
    pub bit_length: Option<u32>,
    pub byte_length: Option<u32>,
    pub data_type: Option<Seq<char>>,
    pub min_value: Option<Seq<char>>,
    pub max_value: Option<Seq<char>>,
    pub unit: Option<Seq<char>>,
    pub choices: Seq<ChoiceView>,
    pub children: Seq<ParamView>,
    pub input_hint: Option<Seq<char>>,
}

/// The characters of every choice.
pub open spec fn choices_view(v: Seq<UdsMddChoice>) -> Seq<ChoiceView> {
    v.map_values(|c: UdsMddChoice| c@)
}

/// A parameter as text.
pub open spec fn param_view(p: UdsMddParameter) -> ParamView
    decreases p,
{
    ParamView {
        name: p.name@,
        param_type: p.param_type@,
        byte_position: p.byte_position,
        bit_position: p.bit_position,
        fixed: p.fixed,
        value_hex: opt_view(p.value_hex),
        default_value_hex: opt_view(p.default_value_hex),
        bit_length: p.bit_length,
        byte_length: p.byte_length,
        data_type: opt_view(p.data_type),
        min_value: opt_view(p.min_value),
        max_value: opt_view(p.max_value),
        unit: opt_view(p.unit),
        choices: choices_view(p.choices@),
        children: Seq::new(
            p.children@.len(),
            |i: int|
                if 0 <= i < p.children@.len() {
                    param_view(p.children@[i])
                } else {
                    empty_param_view()
                },
        ),
        input_hint: opt_view(p.input_hint),
    }
}

/// A parameter with no name and nothing known of it.
pub open spec fn empty_param_view() -> ParamView {
    ParamView {
        name: Seq::empty(),
        param_type: Seq::empty(),
        byte_position: None,
        bit_position: None,
        fixed: false,
        value_hex: None,
        default_value_hex: None,
        bit_length: None,
        byte_length: None,
        data_type: None,
        min_value: None,
        max_value: None,
        unit: None,
        choices: Seq::empty(),
        children: Seq::empty(),
        input_hint: None,
    }
}

impl View for UdsMddParameter {
    type V = ParamView;

    open spec fn view(&self) -> ParamView {
        param_view(*self)
    }
}

/// The views of a sequence of parameters.
pub open spec fn params_view(v: Seq<UdsMddParameter>) -> Seq<ParamView> {
    v.map_values(|p: UdsMddParameter| p@)
}

/// The name of a parameter kind (the MDD's `ParamType`).
pub open spec fn spec_param_type_name(value: u8) -> Seq<char> {
    if value == 0 {
        "CODED_CONST"@
    } else if value == 1 {
        "DYNAMIC"@
    } else if value == 2 {
        "LENGTH_KEY"@
    } else if value == 3 {
        "MATCHING_REQUEST_PARAM"@
    } else if value == 4 {
        "NRC_CONST"@
    } else if value == 5 {
        "PHYS_CONST"@
    } else if value == 6 {
        "RESERVED"@
    } else if value == 7 {
        "SYSTEM"@
    } else if value == 8 {
        "TABLE_ENTRY"@
    } else if value == 9 {
        "TABLE_KEY"@
    } else if value == 10 {
        "TABLE_STRUCT"@
    } else if value == 11 {
        "VALUE"@
    } else {
        "UNKNOWN"@
    }
}

/// Names a parameter kind.
pub fn param_type_name(value: u8) -> (r: &'static str)
    ensures
        r@ == spec_param_type_name(value),
{
    match value {
        0 => "CODED_CONST",
        1 => "DYNAMIC",
        2 => "LENGTH_KEY",
        3 => "MATCHING_REQUEST_PARAM",
        4 => "NRC_CONST",
        5 => "PHYS_CONST",
        6 => "RESERVED",
        7 => "SYSTEM",
        8 => "TABLE_ENTRY",
        9 => "TABLE_KEY",
        10 => "TABLE_STRUCT",
        11 => "VALUE",
        _ => "UNKNOWN",
    }
}

/// The name of a coded data type (the MDD's `DataType`).
pub open spec fn spec_data_type_name(value: u8) -> Seq<char> {
    if value == 0 {
        "A_INT_32"@
    } else if value == 1 {
        "A_UINT_32"@
    } else if value == 2 {
        "A_FLOAT_32"@
    } else if value == 3 {
        "A_ASCIISTRING"@
    } else if value == 4 {
        "A_UTF_8_STRING"@
    } else if value == 5 {
        "A_UNICODE_2_STRING"@
    } else if value == 6 {
        "A_BYTEFIELD"@
    } else if value == 7 {
        "A_FLOAT_64"@
    } else {
        "UNKNOWN"@
    }
}

/// Names a coded data type.
pub fn data_type_name(value: u8) -> (r: &'static str)
    ensures
        r@ == spec_data_type_name(value),
{
    match value {
        0 => "A_INT_32",
        1 => "A_UINT_32",
        2 => "A_FLOAT_32",
        3 => "A_ASCIISTRING",
        4 => "A_UTF_8_STRING",
        5 => "A_UNICODE_2_STRING",
        6 => "A_BYTEFIELD",
        7 => "A_FLOAT_64",
        _ => "UNKNOWN",
    }
}

/// The bytes that `bits` bits occupy, computed in 32-bit arithmetic that
/// wraps around on overflow.
pub open spec fn bytes_for(bits: u32) -> u32 {
    (((bits as int + 7) % 0x1_0000_0000) / 8) as u32
}

/// `(bits + 7) / 8` in wrapping 32-bit arithmetic.
pub fn bytes_for_bits(bits: u32) -> (r: u32)
    ensures
        r == bytes_for(bits),
{
    if bits <= u32::MAX - 7 {
        (bits + 7) / 8
    } else {
        (bits - (u32::MAX - 6)) / 8
    }
}

/// `n * 8`, or `u32::MAX` when that does not fit.
pub open spec fn bits_of(n: u32) -> u32 {
    if n as int * 8 > u32::MAX {
        u32::MAX
    } else {
        (n * 8) as u32
    }
}

/// `u32::saturating_mul(n, 8)`.
pub fn saturating_times_8(n: u32) -> (r: u32)
    ensures
        r == bits_of(n),
{
    if n > u32::MAX / 8 {
        u32::MAX
    } else {
        n * 8
    }
}

/// `""` for one, `"s"` otherwise.
pub open spec fn plural(n: int) -> Seq<char> {
    if n == 1 {
        ""@
    } else {
        "s"@
    }
}

/// The pieces joined with `sep` between neighbours.
pub open spec fn join(parts: Seq<Seq<char>>, sep: Seq<char>) -> Seq<char>
    decreases parts.len(),
{
    if parts.len() == 0 {
        Seq::empty()
    } else if parts.len() == 1 {
        parts[0]
    } else {
        join(parts.drop_last(), sep) + sep + parts.last()
    }
}

/// The size part of a runtime-value hint, if the parameter has a size.
pub open spec fn size_part(p: ParamView) -> Option<Seq<char>> {
    match p.bit_length {
        Some(bits) => {
            let bytes = bytes_for(bits);
            if bits % 8 == 0 {
                Some(
                    digits_in(bytes as nat, 10) + " byte"@ + plural(bytes as int) + " ("@
                        + digits_in(bits as nat, 10) + " bits)"@,
                )
            } else {
                Some(digits_in(bits as nat, 10) + " bits"@)
            }
        },
        None => match p.byte_length {
            Some(bytes) => Some(digits_in(bytes as nat, 10) + " byte"@ + plural(bytes as int)),
            None => None,
        },
    }
}

/// The range part of a runtime-value hint, if the parameter has a bound.
pub open spec fn range_part(p: ParamView) -> Option<Seq<char>> {
    match (p.min_value, p.max_value) {
        (Some(min), Some(max)) => Some("allowed internal range "@ + min + ".."@ + max),
        (Some(min), None) => Some("minimum "@ + min),
        (None, Some(max)) => Some("maximum "@ + max),
        _ => None,
    }
}

/// The sequence holding `o`'s value, or nothing.
pub open spec fn opt_seq(o: Option<Seq<char>>) -> Seq<Seq<char>> {
    match o {
        Some(x) => seq![x],
        None => Seq::empty(),
    }
}

/// The facts a runtime-value hint lists.
pub open spec fn hint_parts(p: ParamView) -> Seq<Seq<char>> {
    opt_seq(size_part(p)) + opt_seq(p.data_type) + opt_seq(range_part(p)) + opt_seq(
        match p.unit {
            Some(u) => Some("unit "@ + u),
            None => None,
        },
    )
}

/// The example a runtime-value hint ends with, for one- and two-byte values.
pub open spec fn hint_example(p: ParamView) -> Seq<char> {
    let len = match p.byte_length {
        Some(b) => Some(b),
        None => match p.bit_length {
            Some(bits) => Some(bytes_for(bits)),
            None => None,
        },
    };
    if len == Some(1u32) {
        " For example, hexadecimal 0x20 is entered as 20."@
    } else if len == Some(2u32) {
        " For example, hexadecimal 0x1234 is entered as 12 34."@
    } else {
        ""@
    }
}

/// The guidance text shown for a parameter.
pub open spec fn spec_input_hint(p: ParamView) -> Seq<char> {
    if p.fixed {
        "Value is fully defined by the MDD; no input is required."@
    } else if p.choices.len() > 0 {
        "Choose one of "@ + digits_in(p.choices.len(), 10) + " value(s) defined by the MDD."@
    } else if p.default_value_hex is Some {
        let h = p.default_value_hex->0;
        let bytes = (vstd::utf8::encode_utf8(h).len() as usize) / 2;
        "The MDD provides a default value. It has been pre-filled for you: "@ + h + " ("@
            + digits_in(bytes as nat, 10) + " byte"@ + plural(bytes as int)
            + "). You may keep it or replace it with another ECU/test-specific value of the same length."@
    } else if p.children.len() > 0 {
        "This DataRecord is a structure. Complete only the variable fields shown below; fixed fields are inserted automatically."@
    } else if hint_parts(p).len() == 0 {
        "Runtime value required. The MDD does not provide a fixed value or selectable table for this field; enter the ECU/test-specific value as hexadecimal bytes."@
    } else {
        "Runtime value required: "@ + join(hint_parts(p), " \u{2022} "@)
            + ". Enter the value as hexadecimal bytes."@ + hint_example(p)
    }
}

/// Appends `n` in decimal to `m`.
fn append_decimal(m: &mut String, n: u64)
    ensures
        final(m)@ == old(m)@ + digits_in(n as nat, 10),
{
    let d = u64_to_decimal(n);
    m.append(d.as_str());
}

/// `""` or `"s"` after a count.
fn plural_str(n: u64) -> (r: &'static str)
    ensures
        r@ == plural(n as int),
{
    if n == 1 {
        ""
    } else {
        "s"
    }
}

/// Joins the texts with `sep` between neighbours.
pub fn join_strings(parts: &Vec<String>, sep: &str) -> (r: String)
    ensures
        r@ == join(parts@.map_values(|s: String| s@), sep@),
{
    let ghost views = parts@.map_values(|s: String| s@);
    let mut out = String::new();
    let mut i: usize = 0;
    while i < parts.len()
        invariant
            i <= parts@.len(),
            views == parts@.map_values(|s: String| s@),
            out@ == join(views.take(i as int), sep@),
        decreases parts@.len() - i,
    {
        assert(views.take(i + 1).drop_last() =~= views.take(i as int));
        if i > 0 {
            out.append(sep);
        }
        out.append(parts[i].as_str());
        i += 1;
        proof {
            if i == 1 {
                assert(out@ =~= join(views.take(1), sep@));
            }
        }
    }
    assert(views.take(parts@.len() as int) =~= views);
    out
}

/// The guidance shown next to a parameter in the builder: whether input is
/// needed, and what the MDD says of the value's size, type, range and unit.
pub fn input_hint_for(parameter: &UdsMddParameter) -> (r: Option<String>)
    ensures
        r is Some,
        r matches Some(h) ==> h@ == spec_input_hint(parameter@),
{
    let ghost p = parameter@;
    if parameter.fixed {
        return Some(String::from_str("Value is fully defined by the MDD; no input is required."));
    }
    if parameter.choices.len() > 0 {
        let mut m = String::from_str("Choose one of ");
        append_decimal(&mut m, parameter.choices.len() as u64);
        m.append(" value(s) defined by the MDD.");
        return Some(m);
    }
    if let Some(default_hex) = &parameter.default_value_hex {
        let bytes = default_hex.as_str().len() / 2;
        let mut m = String::from_str(
            "The MDD provides a default value. It has been pre-filled for you: ",
        );
        m.append(default_hex.as_str());
        m.append(" (");
        append_decimal(&mut m, bytes as u64);
        m.append(" byte");
        m.append(plural_str(bytes as u64));
        m.append(
            "). You may keep it or replace it with another ECU/test-specific value of the same length.",
        );
        return Some(m);
    }
    if parameter.children.len() > 0 {
        return Some(
            String::from_str(
                "This DataRecord is a structure. Complete only the variable fields shown below; fixed fields are inserted automatically.",
            ),
        );
    }
    let mut parts: Vec<String> = Vec::new();
    match parameter.bit_length {
        Some(bits) => {
            let bytes = bytes_for_bits(bits);
            let mut s = String::new();
            if bits % 8 == 0 {
                append_decimal(&mut s, bytes as u64);
                s.append(" byte");
                s.append(plural_str(bytes as u64));
                s.append(" (");
                append_decimal(&mut s, bits as u64);
                s.append(" bits)");
            } else {
                append_decimal(&mut s, bits as u64);
                s.append(" bits");
            }
            parts.push(s);
        },
        None => {
            if let Some(bytes) = parameter.byte_length {
                let mut s = String::new();
                append_decimal(&mut s, bytes as u64);
                s.append(" byte");
                s.append(plural_str(bytes as u64));
                parts.push(s);
            }
        },
    }
    assert(parts@.map_values(|s: String| s@) =~= opt_seq(size_part(p)));
    if let Some(data_type) = &parameter.data_type {
        parts.push(data_type.clone());
    }
    assert(parts@.map_values(|s: String| s@) =~= opt_seq(size_part(p)) + opt_seq(p.data_type));
    match (&parameter.min_value, &parameter.max_value) {
        (Some(min), Some(max)) => {
            let mut s = String::from_str("allowed internal range ");
            s.append(min.as_str());
            s.append("..");
            s.append(max.as_str());
            parts.push(s);
        },
        (Some(min), None) => {
            let mut s = String::from_str("minimum ");
            s.append(min.as_str());
            parts.push(s);
        },
        (None, Some(max)) => {
            let mut s = String::from_str("maximum ");
            s.append(max.as_str());
            parts.push(s);
        },
        _ => {},
    }
    assert(parts@.map_values(|s: String| s@) =~= opt_seq(size_part(p)) + opt_seq(p.data_type)
        + opt_seq(range_part(p)));
    if let Some(unit) = &parameter.unit {
        let mut s = String::from_str("unit ");
        s.append(unit.as_str());
        parts.push(s);
    }
    assert(parts@.map_values(|s: String| s@) =~= hint_parts(p));
    if parts.len() == 0 {
        return Some(
            String::from_str(
                "Runtime value required. The MDD does not provide a fixed value or selectable table for this field; enter the ECU/test-specific value as hexadecimal bytes.",
            ),
        );
    }
    let len = match parameter.byte_length {
        Some(b) => Some(b),
        None => match parameter.bit_length {
            Some(bits) => Some(bytes_for_bits(bits)),
            None => None,
        },
    };
    let example = match len {
        Some(1) => " For example, hexadecimal 0x20 is entered as 20.",
        Some(2) => " For example, hexadecimal 0x1234 is entered as 12 34.",
        _ => "",
    };
    let mut m = String::from_str("Runtime value required: ");
    let joined = join_strings(&parts, " \u{2022} ");
    m.append(joined.as_str());
    m.append(". Enter the value as hexadecimal bytes.");
    m.append(example);
    Some(m)
}

} // verus!

verus! {

/// What a data object property says about a parameter's value.
#[derive(Debug)]
pub struct DopGuide {
    pub bit_length: Option<u32>,
    pub byte_length: Option<u32>,
    pub data_type: Option<String>,
    pub min_value: Option<String>,
    pub max_value: Option<String>,
    pub unit: Option<String>,
    pub choices: Vec<UdsMddChoice>,
    pub children: Vec<UdsMddParameter>,
}

/// A guide as text.
pub ghost struct GuideView {
    pub bit_length: Option<u32>,
    pub byte_length: Option<u32>,
    pub data_type: Option<Seq<char>>,
    pub min_value: Option<Seq<char>>,
    pub max_value: Option<Seq<char>>,
    pub unit: Option<Seq<char>>,
    pub choices: Seq<ChoiceView>,
    pub children: Seq<ParamView>,
}

impl View for DopGuide {
    type V = GuideView;

    open spec fn view(&self) -> GuideView {
        GuideView {
            bit_length: self.bit_length,
            byte_length: self.byte_length,
            data_type: opt_view(self.data_type),
            min_value: opt_view(self.min_value),
            max_value: opt_view(self.max_value),
            unit: opt_view(self.unit),
            choices: choices_view(self.choices@),
            children: params_view(self.children@),
        }
    }
}

/// A guide that knows nothing.
pub open spec fn empty_guide() -> GuideView {
    GuideView {
        bit_length: None,
        byte_length: None,
        data_type: None,
        min_value: None,
        max_value: None,
        unit: None,
        choices: Seq::empty(),
        children: Seq::empty(),
    }
}

impl Default for DopGuide {
    fn default() -> (g: Self)
        ensures
            g@ == empty_guide(),
    {
        let g = DopGuide {
            bit_length: None,
            byte_length: None,
            data_type: None,
            min_value: None,
            max_value: None,
            unit: None,
            choices: Vec::new(),
            children: Vec::new(),
        };
        assert(g@.choices =~= Seq::<ChoiceView>::empty());
        assert(g@.children =~= Seq::<ParamView>::empty());
        g
    }
}

} // verus!

verus! {

/// A diagnostic service of an ECU variant as the builder offers it.
#[derive(Debug)]
pub struct UdsMddService {
    pub id: String,
    pub name: String,
    pub long_name: Option<String>,
    pub source_layer: String,
    pub source_ecu: String,
    pub sid_hex: Option<String>,
    pub positive_sid_hex: Option<String>,
    pub parameters: Vec<UdsMddParameter>,
    pub positive_parameters: Vec<UdsMddParameter>,
    pub negative_parameters: Vec<UdsMddParameter>,
}

/// A service as text.
pub ghost struct ServiceView {
    pub id: Seq<char>,
    pub name: Seq<char>,
    pub long_name: Option<Seq<char>>,
    pub source_layer: Seq<char>,
    pub source_ecu: Seq<char>,
    pub sid_hex: Option<Seq<char>>,
    pub positive_sid_hex: Option<Seq<char>>,
    pub parameters: Seq<ParamView>,
    pub positive_parameters: Seq<ParamView>,
    pub negative_parameters: Seq<ParamView>,
}

impl View for UdsMddService {
    type V = ServiceView;

    open spec fn view(&self) -> ServiceView {
        ServiceView {
            id: self.id@,
            name: self.name@,
            long_name: opt_view(self.long_name),
            source_layer: self.source_layer@,
            source_ecu: self.source_ecu@,
            sid_hex: opt_view(self.sid_hex),
            positive_sid_hex: opt_view(self.positive_sid_hex),
            parameters: params_view(self.parameters@),
            positive_parameters: params_view(self.positive_parameters@),
            negative_parameters: params_view(self.negative_parameters@),
        }
    }
}

/// The views of a sequence of services.
pub open spec fn services_view(v: Seq<UdsMddService>) -> Seq<ServiceView> {
    v.map_values(|s: UdsMddService| s@)
}

} // verus!

verus! {

impl Clone for UdsMddChoice {
    fn clone(&self) -> (r: Self)
        ensures
            r@ == self@,
    {
        UdsMddChoice { label: self.label.clone(), value_hex: self.value_hex.clone() }
    }
}

/// A copy of an optional text.
fn clone_opt(o: &Option<String>) -> (r: Option<String>)
    ensures
        opt_view(r) == opt_view(*o),
{
    match o {
        Some(s) => Some(s.clone()),
        None => None,
    }
}

impl Clone for UdsMddParameter {
    fn clone(&self) -> (r: Self)
        ensures
            r@ == self@,
        decreases self,
    {
        let mut choices: Vec<UdsMddChoice> = Vec::new();
        let mut i: usize = 0;
        while i < self.choices.len()
            invariant
                i <= self.choices@.len(),
                choices_view(choices@) == choices_view(self.choices@.take(i as int)),
            decreases self.choices@.len() - i,
        {
            let c = self.choices[i].clone();
            assert(c@ == self.choices@[i as int]@);
            let ghost before = choices@;
            choices.push(c);
            assert(choices_view(self.choices@.take(i + 1)) =~= choices_view(self.choices@.take(i as int)).push(self.choices@[i as int]@));
            assert(choices_view(choices@) =~= choices_view(before).push(c@));
            i += 1;
        }
        assert(self.choices@.take(self.choices@.len() as int) =~= self.choices@);
        let mut children: Vec<UdsMddParameter> = Vec::new();
        let mut k: usize = 0;
        while k < self.children.len()
            invariant
                k <= self.children@.len(),
                children@.len() == k,
                forall|j: int| 0 <= j < k ==> (#[trigger] children@[j])@ == self.children@[j]@,
            decreases self.children@.len() - k,
        {
            assert(decreases_to!(*self => self.children));
            assert(decreases_to!(self.children => self.children@));
            assert(decreases_to!(self.children@ => self.children@[k as int]));
            let c = self.children[k].clone();
            children.push(c);
            k += 1;
        }
        let r = UdsMddParameter {
            name: self.name.clone(),
            param_type: self.param_type.clone(),
            byte_position: self.byte_position,
            bit_position: self.bit_position,
            fixed: self.fixed,
            value_hex: clone_opt(&self.value_hex),
            default_value_hex: clone_opt(&self.default_value_hex),
            bit_length: self.bit_length,
            byte_length: self.byte_length,
            data_type: clone_opt(&self.data_type),
            min_value: clone_opt(&self.min_value),
            max_value: clone_opt(&self.max_value),
            unit: clone_opt(&self.unit),
            choices,
            children,
            input_hint: clone_opt(&self.input_hint),
        };
        assert(r@.children =~= self@.children);
        r
    }
}

/// Copies of the parameters.
pub fn clone_params(v: &Vec<UdsMddParameter>) -> (r: Vec<UdsMddParameter>)
    ensures
        params_view(r@) == params_view(v@),
{
    let mut out: Vec<UdsMddParameter> = Vec::new();
    let mut i: usize = 0;
    while i < v.len()
        invariant
            i <= v@.len(),
            params_view(out@) == params_view(v@.take(i as int)),
        decreases v@.len() - i,
    {
        let p = v[i].clone();
        assert(p@ == v@[i as int]@);
        let ghost before = out@;
        out.push(p);
        assert(params_view(v@.take(i + 1)) =~= params_view(v@.take(i as int)).push(v@[i as int]@));
        assert(params_view(out@) =~= params_view(before).push(p@));
        i += 1;
    }
    assert(v@.take(v@.len() as int) =~= v@);
    out
}

impl Clone for UdsMddService {
    fn clone(&self) -> (r: Self)
        ensures
            r@ == self@,
    {
        UdsMddService {
            id: self.id.clone(),
            name: self.name.clone(),
            long_name: clone_opt(&self.long_name),
            source_layer: self.source_layer.clone(),
            source_ecu: self.source_ecu.clone(),
            sid_hex: clone_opt(&self.sid_hex),
            positive_sid_hex: clone_opt(&self.positive_sid_hex),
            parameters: clone_params(&self.parameters),
            positive_parameters: clone_params(&self.positive_parameters),
            negative_parameters: clone_params(&self.negative_parameters),
        }
    }
}

} // verus!
