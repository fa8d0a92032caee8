//! Reading UDS parameters and their guidance out of the MDD FlatBuffer:
//! computation methods, coded types, data object properties, table keys,
//! fixed values and the parameters themselves.
use vstd::prelude::*;
use crate::error::DecodeError;
use crate::flatbuf::{
    lemma_table_field_above, lemma_vector_tables_above, fb_string_field, fb_table_field, fb_u32_field, fb_u8_field, fb_vector_tables, opt_view,
    spec_fb_string_field, spec_fb_table_field, spec_fb_u32_field, spec_fb_u8_field,
    spec_fb_vector_tables,
};
use crate::text::{
    bytes_to_hex, chars_eq, clean_hex_string, i64_to_decimal, u64_to_decimal, digits_in, signed_decimal, spec_bytes_to_hex, spec_clean_hex_string, decimal_string_to_hex, hex_pairs, hex_pairs_bytes, hex_pred, is_hex_char, keep_hex_digits, spec_decimal_string_to_hex, str_chars, trim,
    trim_chars,
};
use crate::uds::{
    bits_of, bytes_for, bytes_for_bits, choices_view, data_type_name, empty_guide,
    input_hint_for, param_type_name, params_view, saturating_times_8, spec_data_type_name,
    spec_input_hint, spec_param_type_name, ChoiceView, DopGuide, GuideView, ParamView,
    UdsMddChoice, UdsMddParameter,
};

verus! {

/// The value of a lookup whose failure counts as absence.
pub open spec fn ok_flatten<T>(r: Result<Option<T>, DecodeError>) -> Option<T> {
    match r {
        Ok(Some(x)) => Some(x),
        _ => None,
    }
}

/// A machine-word position as an integer.
pub open spec fn opt_int(o: Option<usize>) -> Option<int> {
    match o {
        Some(t) => Some(t as int),
        None => None,
    }
}

/// `o`'s value, or `d`.
pub open spec fn or_else<T>(o: Option<T>, d: T) -> T {
    match o {
        Some(x) => x,
        None => d,
    }
}

/// A text that is not only whitespace, or nothing.
pub open spec fn nonblank(o: Option<Seq<char>>) -> Option<Seq<char>> {
    match o {
        Some(v) => if trim(v).len() > 0 {
            Some(v)
        } else {
            None
        },
        None => None,
    }
}

/// The text bound stored in the first field of a limit table.
pub open spec fn spec_limit_value(data: Seq<u8>, table: Option<int>) -> Result<
    Option<Seq<char>>,
    DecodeError,
> {
    match table {
        None => Ok(None),
        Some(t) => spec_fb_string_field(data, t, 0),
    }
}

/// Reads a lower or upper limit: the text in field 0 of the limit table.
pub fn limit_value(data: &[u8], table: Option<usize>) -> (r: Result<Option<String>, DecodeError>)
    requires
        data@.len() <= isize::MAX,
    ensures
        r is Ok == spec_limit_value(data@, opt_int(table)) is Ok,
        r matches Ok(o) ==> spec_limit_value(data@, opt_int(table)) == Ok::<
            Option<Seq<char>>,
            DecodeError,
        >(opt_view(o)),
        r matches Err(e) ==> spec_limit_value(data@, opt_int(table)) == Err::<
            Option<Seq<char>>,
            DecodeError,
        >(e),
{
    match table {
        None => Ok(None),
        Some(t) => fb_string_field(data, t, 0),
    }
}

/// A `"0x…"` label for a value that has no name of its own.
pub open spec fn hex_label(value_hex: Seq<char>) -> Seq<char> {
    "0x"@ + value_hex
}

/// The label of a text-table scale: its constant's text when not blank,
/// else its short name, else the hexadecimal value.
pub open spec fn spec_scale_label(data: Seq<u8>, scale: int, value_hex: Seq<char>) -> Result<
    Seq<char>,
    DecodeError,
> {
    let fallback = match ok_flatten(spec_fb_table_field(data, scale, 0)) {
        Some(t) => ok_flatten(spec_fb_string_field(data, t, 0)),
        None => None,
    };
    let first = match spec_fb_table_field(data, scale, 4) {
        Err(e) => Err(e),
        Ok(Some(consts)) => match spec_fb_string_field(data, consts, 1) {
            Err(e) => Err(e),
            Ok(o) => Ok(nonblank(o)),
        },
        Ok(None) => Ok(None),
    };
    match first {
        Err(e) => Err(e),
        Ok(Some(l)) => Ok(l),
        Ok(None) => Ok(or_else(fallback, hex_label(value_hex))),
    }
}

/// The value a text-table scale maps: its limits must agree (or only the
/// lower one be given).
pub open spec fn exact_limit(lower: Option<Seq<char>>, upper: Option<Seq<char>>) -> Option<
    Seq<char>,
> {
    match (lower, upper) {
        (Some(a), Some(b)) => if a == b {
            Some(a)
        } else {
            None
        },
        (Some(a), None) => Some(a),
        _ => None,
    }
}

/// The lower and upper limit stored in fields `lo` and `hi` of a table.
pub open spec fn spec_limits_at(data: Seq<u8>, table: int, lo: int, hi: int) -> Result<
    (Option<Seq<char>>, Option<Seq<char>>),
    DecodeError,
> {
    match spec_fb_table_field(data, table, lo) {
        Err(e) => Err(e),
        Ok(lt) => match spec_limit_value(data, lt) {
            Err(e) => Err(e),
            Ok(lower) => match spec_fb_table_field(data, table, hi) {
                Err(e) => Err(e),
                Ok(ut) => match spec_limit_value(data, ut) {
                    Err(e) => Err(e),
                    Ok(upper) => Ok((lower, upper)),
                },
            },
        },
    }
}

/// The choice one scale of a text table offers, if it offers one.
#[verifier::opaque]
pub open spec fn spec_scale_choice(data: Seq<u8>, scale: int) -> Result<
    Option<ChoiceView>,
    DecodeError,
> {
    match spec_limits_at(data, scale, 1, 2) {
        Err(e) => Err(e),
        Ok((lower, upper)) => match exact_limit(lower, upper) {
            None => Ok(None),
            Some(internal) => match spec_decimal_string_to_hex(internal) {
                None => Ok(None),
                Some(vh) => match spec_scale_label(data, scale, vh) {
                    Err(e) => Err(e),
                    Ok(label) => Ok(Some(ChoiceView { label, value_hex: vh })),
                },
            },
        },
    }
}

/// The choices that `f` finds in the first `n` items, in order; the first
/// failure ends the walk.
pub open spec fn choice_fold(
    items: Seq<int>,
    n: nat,
    f: spec_fn(int) -> Result<Option<ChoiceView>, DecodeError>,
) -> Result<Seq<ChoiceView>, DecodeError>
    decreases n,
{
    if n == 0 {
        Ok(Seq::empty())
    } else {
        match choice_fold(items, (n - 1) as nat, f) {
            Err(e) => Err(e),
            Ok(prev) => match f(items[n - 1]) {
                Err(e) => Err(e),
                Ok(None) => Ok(prev),
                Ok(Some(c)) => Ok(prev.push(c)),
            },
        }
    }
}

/// The choice each scale of a text table offers.
pub open spec fn scale_choice_fn(data: Seq<u8>) -> spec_fn(int) -> Result<
    Option<ChoiceView>,
    DecodeError,
> {
    |t: int| spec_scale_choice(data, t)
}

/// The choices of a computation method: those of its text table, when its
/// category is `TEXTTABLE` (3).
pub open spec fn spec_compu_text_choices(data: Seq<u8>, compu_method: int) -> Result<
    Seq<ChoiceView>,
    DecodeError,
> {
    match spec_fb_u8_field(data, compu_method, 0, 0) {
        Err(e) => Err(e),
        Ok(category) => if category != 3 {
            Ok(Seq::empty())
        } else {
            match spec_fb_table_field(data, compu_method, 1) {
                Err(e) => Err(e),
                Ok(None) => Ok(Seq::empty()),
                Ok(Some(i2p)) => match spec_fb_vector_tables(data, i2p, 0) {
                    Err(e) => Err(e),
                    Ok(scales) => choice_fold(scales, scales.len(), scale_choice_fn(data)),
                },
            }
        },
    }
}

fn scale_label(data: &[u8], scale: usize, value_hex: &String) -> (r: Result<String, DecodeError>)
    requires
        data@.len() <= isize::MAX,
    ensures
        r is Ok == spec_scale_label(data@, scale as int, value_hex@) is Ok,
        r matches Ok(l) ==> spec_scale_label(data@, scale as int, value_hex@) == Ok::<
            Seq<char>,
            DecodeError,
        >(l@),
        r matches Err(e) ==> spec_scale_label(data@, scale as int, value_hex@) == Err::<
            Seq<char>,
            DecodeError,
        >(e),
{
    let first = match fb_table_field(data, scale, 4) {
        Err(e) => {
            return Err(e);
        },
        Ok(Some(consts)) => match fb_string_field(data, consts, 1) {
            Err(e) => {
                return Err(e);
            },
            Ok(Some(v)) => {
                let t = trim_chars(&str_chars(v.as_str()));
                if t.len() > 0 {
                    Some(v)
                } else {
                    None
                }
            },
            Ok(None) => None,
        },
        Ok(None) => None,
    };
    match first {
        Some(l) => Ok(l),
        None => {
            let fallback = match fb_table_field(data, scale, 0) {
                Ok(Some(t)) => match fb_string_field(data, t, 0) {
                    Ok(Some(s)) => Some(s),
                    _ => None,
                },
                _ => None,
            };
            match fallback {
                Some(l) => Ok(l),
                None => {
                    let mut m = String::from_str("0x");
                    m.append(value_hex.as_str());
                    Ok(m)
                },
            }
        },
    }
}

fn limits_at(data: &[u8], table: usize, lo: usize, hi: usize) -> (r: Result<
    (Option<String>, Option<String>),
    DecodeError,
>)
    requires
        data@.len() <= isize::MAX,
        lo <= 8,
        hi <= 8,
    ensures
        r is Ok == spec_limits_at(data@, table as int, lo as int, hi as int) is Ok,
        r matches Ok((l, u)) ==> spec_limits_at(data@, table as int, lo as int, hi as int) == Ok::<
            (Option<Seq<char>>, Option<Seq<char>>),
            DecodeError,
        >((opt_view(l), opt_view(u))),
        r matches Err(e) ==> spec_limits_at(data@, table as int, lo as int, hi as int) == Err::<
            (Option<Seq<char>>, Option<Seq<char>>),
            DecodeError,
        >(e),
{
    let lt = match fb_table_field(data, table, lo) {
        Ok(t) => t,
        Err(e) => {
            return Err(e);
        },
    };
    let lower = match limit_value(data, lt) {
        Ok(v) => v,
        Err(e) => {
            return Err(e);
        },
    };
    let ut = match fb_table_field(data, table, hi) {
        Ok(t) => t,
        Err(e) => {
            return Err(e);
        },
    };
    let upper = match limit_value(data, ut) {
        Ok(v) => v,
        Err(e) => {
            return Err(e);
        },
    };
    Ok((lower, upper))
}

fn scale_choice(data: &[u8], scale: usize) -> (r: Result<Option<UdsMddChoice>, DecodeError>)
    requires
        data@.len() <= isize::MAX,
    ensures
        r is Ok == spec_scale_choice(data@, scale as int) is Ok,
        r matches Ok(Some(c)) ==> spec_scale_choice(data@, scale as int) == Ok::<
            Option<ChoiceView>,
            DecodeError,
        >(Some(c@)),
        r matches Ok(None) ==> spec_scale_choice(data@, scale as int) == Ok::<
            Option<ChoiceView>,
            DecodeError,
        >(None),
        r matches Err(e) ==> spec_scale_choice(data@, scale as int) == Err::<
            Option<ChoiceView>,
            DecodeError,
        >(e),
{
    reveal(spec_scale_choice);
    let (lower, upper) = match limits_at(data, scale, 1, 2) {
        Ok(x) => x,
        Err(e) => {
            return Err(e);
        },
    };
    let exact = match (lower, upper) {
        (Some(a), Some(b)) => if a == b {
            Some(a)
        } else {
            None
        },
        (Some(a), None) => Some(a),
        _ => None,
    };
    let internal = match exact {
        Some(i) => i,
        None => {
            return Ok(None);
        },
    };
    let value_hex = match decimal_string_to_hex(internal.as_str()) {
        Some(v) => v,
        None => {
            return Ok(None);
        },
    };
    let label = match scale_label(data, scale, &value_hex) {
        Ok(l) => l,
        Err(e) => {
            return Err(e);
        },
    };
    Ok(Some(UdsMddChoice { label, value_hex }))
}

/// The choices of a text-table computation method (category 3): one per
/// scale whose limits name a single value, labelled by its text.
pub fn compu_text_choices(data: &[u8], compu_method: usize) -> (r: Result<
    Vec<UdsMddChoice>,
    DecodeError,
>)
    requires
        data@.len() <= isize::MAX,
    ensures
        r is Ok == spec_compu_text_choices(data@, compu_method as int) is Ok,
        r matches Ok(v) ==> spec_compu_text_choices(data@, compu_method as int) == Ok::<
            Seq<ChoiceView>,
            DecodeError,
        >(choices_view(v@)),
        r matches Err(e) ==> spec_compu_text_choices(data@, compu_method as int) == Err::<
            Seq<ChoiceView>,
            DecodeError,
        >(e),
{
    if fb_u8_field(data, compu_method, 0, 0)? != 3 {
        let empty: Vec<UdsMddChoice> = Vec::new();
        assert(choices_view(empty@) =~= Seq::<ChoiceView>::empty());
        return Ok(empty);
    }
    let i2p = match fb_table_field(data, compu_method, 1)? {
        Some(t) => t,
        None => {
            let empty: Vec<UdsMddChoice> = Vec::new();
            assert(choices_view(empty@) =~= Seq::<ChoiceView>::empty());
            return Ok(empty);
        },
    };
    let scales = fb_vector_tables(data, i2p, 0)?;
    let ghost sv = scales@.map_values(|t: usize| t as int);
    let mut out: Vec<UdsMddChoice> = Vec::new();
    let mut i: usize = 0;
    assert(choices_view(out@) =~= Seq::<ChoiceView>::empty());
    while i < scales.len()
        invariant
            data@.len() <= isize::MAX,
            i <= scales@.len(),
            sv == scales@.map_values(|t: usize| t as int),
            spec_compu_text_choices(data@, compu_method as int) == choice_fold(
                sv,
                sv.len(),
                scale_choice_fn(data@),
            ),
            choice_fold(sv, i as nat, scale_choice_fn(data@)) == Ok::<Seq<ChoiceView>, DecodeError>(
                choices_view(out@),
            ),
        decreases scales@.len() - i,
    {
        match scale_choice(data, scales[i]) {
            Err(e) => {
                proof {
                    lemma_choice_fold_err(sv, i as nat, sv.len(), scale_choice_fn(data@));
                }
                return Err(e);
            },
            Ok(None) => {},
            Ok(Some(c)) => {
                let ghost before = out@;
                out.push(c);
                assert(choices_view(out@) =~= choices_view(before).push(c@));
            },
        }
        i += 1;
    }
    Ok(out)
}

proof fn lemma_choice_fold_err(
    items: Seq<int>,
    i: nat,
    n: nat,
    f: spec_fn(int) -> Result<Option<ChoiceView>, DecodeError>,
)
    requires
        i < n,
        choice_fold(items, i, f) is Ok,
        f(items[i as int]) is Err,
    ensures
        choice_fold(items, n, f) == Err::<Seq<ChoiceView>, DecodeError>(f(items[i as int])->Err_0),
    decreases n,
{
    if n > i + 1 {
        lemma_choice_fold_err(items, i, (n - 1) as nat, f);
    }
}

/// The guide after a diagnostic coded type has been read into it, and
/// whether the reading failed. The data type is recorded before anything
/// else is read, so it stays even when a later read fails.
pub open spec fn spec_diag_coded(data: Seq<u8>, dct: int, g: GuideView) -> (
    GuideView,
    Result<(), DecodeError>,
) {
    match spec_fb_u8_field(data, dct, 2, 0) {
        Err(e) => (g, Err(e)),
        Ok(dt) => {
            let g1 = GuideView { data_type: Some(spec_data_type_name(dt)), ..g };
            match spec_fb_u8_field(data, dct, 0, 0) {
                Err(e) => (g1, Err(e)),
                Ok(kind) => match spec_fb_u8_field(data, dct, 4, 0) {
                    Err(e) => (g1, Err(e)),
                    Ok(_) => match spec_fb_table_field(data, dct, 5) {
                        Err(e) => (g1, Err(e)),
                        Ok(None) => (g1, Ok(())),
                        Ok(Some(t)) => if kind == 3 || kind == 0 {
                            match spec_fb_u32_field(data, t, 0) {
                                Err(e) => (g1, Err(e)),
                                Ok(b) => {
                                    let bits = or_else(b, 0u32);
                                    if bits > 0 {
                                        (
                                            GuideView {
                                                bit_length: Some(bits),
                                                byte_length: Some(bytes_for(bits)),
                                                ..g1
                                            },
                                            Ok(()),
                                        )
                                    } else {
                                        (g1, Ok(()))
                                    }
                                },
                            }
                        } else if kind == 1 {
                            match spec_fb_u32_field(data, t, 0) {
                                Err(e) => (g1, Err(e)),
                                Ok(Some(m)) => (
                                    GuideView {
                                        byte_length: Some(m),
                                        bit_length: Some(bits_of(m)),
                                        ..g1
                                    },
                                    Ok(()),
                                ),
                                Ok(None) => (g1, Ok(())),
                            }
                        } else {
                            (g1, Ok(()))
                        },
                    },
                },
            }
        },
    }
}

/// Reads a diagnostic coded type into `guide`: its data type, and the bit or
/// byte length of a standard, leading-length or min-max length type.
pub fn diag_coded_guide(data: &[u8], dct: usize, guide: &mut DopGuide) -> (r: Result<
    (),
    DecodeError,
>)
    requires
        data@.len() <= isize::MAX,
    ensures
        (final(guide)@, r) == spec_diag_coded(data@, dct as int, old(guide)@),
{
    let dt = fb_u8_field(data, dct, 2, 0)?;
    guide.data_type = Some(String::from_str(data_type_name(dt)));
    let kind = fb_u8_field(data, dct, 0, 0)?;
    let _specific_type = fb_u8_field(data, dct, 4, 0)?;
    let specific = fb_table_field(data, dct, 5)?;
    if let Some(table) = specific {
        if kind == 3 || kind == 0 {
            let bits = match fb_u32_field(data, table, 0)? {
                Some(b) => b,
                None => 0,
            };
            if bits > 0 {
                guide.bit_length = Some(bits);
                guide.byte_length = Some(bytes_for_bits(bits));
            }
        } else if kind == 1 {
            if let Some(min_len) = fb_u32_field(data, table, 0)? {
                guide.byte_length = Some(min_len);
                guide.bit_length = Some(saturating_times_8(min_len));
            }
        }
    }
    Ok(())
}

} // verus!

verus! {

/// A placed piece of a fixed structure: its byte position and its bytes.
pub open spec fn chunk_view(c: (usize, Vec<u8>)) -> (int, Seq<u8>) {
    (c.0 as int, c.1@)
}

/// `x` inserted into `sorted` after every piece whose position is not above
/// its own: one step of a stable sort by position.
pub open spec fn insert_chunk(sorted: Seq<(int, Seq<u8>)>, x: (int, Seq<u8>)) -> Seq<
    (int, Seq<u8>),
>
    decreases sorted.len(),
{
    if sorted.len() == 0 {
        seq![x]
    } else if sorted.last().0 <= x.0 {
        sorted.push(x)
    } else {
        insert_chunk(sorted.drop_last(), x).push(sorted.last())
    }
}

/// The pieces stably sorted by position.
pub open spec fn sort_chunks(s: Seq<(int, Seq<u8>)>) -> Seq<(int, Seq<u8>)>
    decreases s.len(),
{
    if s.len() == 0 {
        s
    } else {
        insert_chunk(sort_chunks(s.drop_last()), s.last())
    }
}

/// The bytes of the pieces, one after another.
pub open spec fn flatten_chunks(s: Seq<(int, Seq<u8>)>) -> Seq<u8>
    decreases s.len(),
{
    if s.len() == 0 {
        Seq::empty()
    } else {
        flatten_chunks(s.drop_last()) + s.last().1
    }
}

/// The largest size a fixed structure may take.
pub const MAX_FIXED_STRUCTURE_BYTES: usize = 1048576;

/// The fixed value of a coded constant: its value rewritten as hexadecimal
/// and read two digits at a time.
pub open spec fn spec_coded_const_bytes(hex: Seq<char>) -> Option<Seq<u8>> {
    let compact = hex.filter(hex_pred());
    if compact.len() == 0 || compact.len() % 2 != 0 {
        None
    } else {
        Some(hex_pairs(compact))
    }
}

/// The bytes of a parameter whose value the MDD fixes: a coded constant, or
/// a value whose structure consists of fixed members only.
pub open spec fn spec_fixed_param_bytes(data: Seq<u8>, param: int) -> Result<
    Option<Seq<u8>>,
    DecodeError,
>
    decreases data.len() - param, 2int, 0int,
{
    match spec_fb_u8_field(data, param, 1, 0) {
        Err(e) => Err(e),
        Ok(kind) => match spec_fb_u8_field(data, param, 8, 0) {
            Err(e) => Err(e),
            Ok(st) => if kind == 0 && st == 1 {
                match spec_fb_table_field(data, param, 9) {
                    Err(e) => Err(e),
                    Ok(None) => Ok(None),
                    Ok(Some(cc)) => match spec_fb_string_field(data, cc, 0) {
                        Err(e) => Err(e),
                        Ok(None) => Ok(None),
                        Ok(Some(v)) => match spec_decimal_string_to_hex(v) {
                            None => Ok(None),
                            Some(h) => Ok(spec_coded_const_bytes(h)),
                        },
                    },
                }
            } else if kind == 11 && st == 7 {
                match spec_fb_table_field(data, param, 9) {
                    Err(e) => Err(e),
                    Ok(None) => Ok(None),
                    Ok(Some(vt)) => match spec_fb_table_field(data, vt, 1) {
                        Err(e) => Err(e),
                        Ok(None) => Ok(None),
                        Ok(Some(dop)) => match spec_fb_u8_field(data, dop, 0, 0) {
                            Err(e) => Err(e),
                            Ok(dt) => match spec_fb_u8_field(data, dop, 3, 0) {
                                Err(e) => Err(e),
                                Ok(dst) => if dt == 8 || dst == 7 {
                                    match spec_fb_table_field(data, dop, 4) {
                                        Err(e) => Err(e),
                                        Ok(None) => Ok(None),
                                        Ok(Some(s)) => {
                                            proof {
                                                lemma_table_field_above(data, param, 9);
                                                lemma_table_field_above(data, vt, 1);
                                                lemma_table_field_above(data, dop, 4);
                                            }
                                            spec_fixed_structure_bytes(data, s)
                                        },
                                    }
                                } else {
                                    Ok(None)
                                },
                            },
                        },
                    },
                }
            } else {
                Ok(None)
            },
        },
    }
}

/// The bytes of a structure whose members are all fixed, placed by their
/// byte positions (a member without one follows the furthest end so far).
pub open spec fn spec_fixed_structure_bytes(data: Seq<u8>, structure: int) -> Result<
    Option<Seq<u8>>,
    DecodeError,
>
    decreases data.len() - structure, 1int, 0int,
{
    match spec_fb_vector_tables(data, structure, 0) {
        Err(e) => Err(e),
        Ok(nested) => if nested.len() == 0 {
            Ok(None)
        } else {
            proof {
                lemma_vector_tables_above(data, structure, 0);
            }
            match spec_fixed_chunks(data, nested, nested.len(), structure) {
                Err(e) => Err(e),
                Ok(None) => Ok(None),
                Ok(Some((chunks, _))) => Ok(Some(flatten_chunks(sort_chunks(chunks)))),
            }
        },
    }
}

/// The placed pieces of the first `n` members of a structure and the
/// furthest end among them, or `None` once a member is not fixed. The
/// members lie after the structure, as a vector's tables do.
pub open spec fn spec_fixed_chunks(data: Seq<u8>, kids: Seq<int>, n: nat, structure: int) -> Result<
    Option<(Seq<(int, Seq<u8>)>, int)>,
    DecodeError,
>
    decreases data.len() - structure, 0int, n,
{
    if n == 0 || n > kids.len() {
        Ok(Some((Seq::empty(), 0)))
    } else {
        match spec_fixed_chunks(data, kids, (n - 1) as nat, structure) {
            Err(e) => Err(e),
            Ok(None) => Ok(None),
            Ok(Some((cs, inferred))) => {
                let kid = kids[n - 1];
                if !(structure < kid < data.len()) {
                    Ok(None)
                } else {
                    match spec_fixed_param_bytes(data, kid) {
                        Err(e) => Err(e),
                        Ok(None) => Ok(None),
                        Ok(Some(bytes)) => match spec_fb_u32_field(data, kid, 6) {
                            Err(e) => Err(e),
                            Ok(po) => {
                                let position = match po {
                                    Some(v) => v as int,
                                    None => inferred,
                                };
                                let end = position + bytes.len();
                                if end > usize::MAX {
                                    Err(DecodeError::FixedStructureOverflow)
                                } else if end > MAX_FIXED_STRUCTURE_BYTES {
                                    Err(DecodeError::FixedStructureTooLarge)
                                } else {
                                    Ok(
                                        Some(
                                            (
                                                cs.push((position, bytes)),
                                                if inferred >= end {
                                                    inferred
                                                } else {
                                                    end
                                                },
                                            ),
                                        ),
                                    )
                                }
                            },
                        },
                    }
                }
            },
        }
    }
}

fn insert_sorted(sorted: &mut Vec<(usize, Vec<u8>)>, position: usize, bytes: Vec<u8>)
    ensures
        final(sorted)@.map_values(|c: (usize, Vec<u8>)| chunk_view(c)) == insert_chunk(
            old(sorted)@.map_values(|c: (usize, Vec<u8>)| chunk_view(c)),
            (position as int, bytes@),
        ),
{
    let ghost s = old(sorted)@.map_values(|c: (usize, Vec<u8>)| chunk_view(c));
    let ghost x = (position as int, bytes@);
    let mut j: usize = sorted.len();
    assert(s.take(j as int) =~= s);
    assert(s.skip(j as int) =~= Seq::<(int, Seq<u8>)>::empty());
    while j > 0 && sorted[j - 1].0 > position
        invariant
            j <= sorted@.len(),
            sorted@ == old(sorted)@,
            s == old(sorted)@.map_values(|c: (usize, Vec<u8>)| chunk_view(c)),
            x == (position as int, bytes@),
            insert_chunk(s, x) == insert_chunk(s.take(j as int), x) + s.skip(j as int),
        decreases j,
    {
        let ghost t = s.take(j as int);
        assert(t.last() == s[j - 1]);
        assert(t.drop_last() =~= s.take(j - 1));
        assert(s.skip(j - 1) =~= seq![s[j - 1]] + s.skip(j as int));
        assert(insert_chunk(t, x) == insert_chunk(s.take(j - 1), x).push(s[j - 1]));
        assert(insert_chunk(s.take(j - 1), x).push(s[j - 1]) + s.skip(j as int) =~= insert_chunk(
            s.take(j - 1),
            x,
        ) + s.skip(j - 1));
        j -= 1;
    }
    let ghost before = sorted@;
    sorted.insert(j, (position, bytes));
    proof {
        let t = s.take(j as int);
        if j > 0 {
            assert(t.last() == s[j - 1]);
            assert(insert_chunk(t, x) == t.push(x));
        } else {
            assert(insert_chunk(t, x) == seq![x]);
        }
        assert(final(sorted)@.map_values(|c: (usize, Vec<u8>)| chunk_view(c)) =~= t.push(x) + s.skip(
            j as int,
        ));
    }
}

fn flatten_sorted(chunks: &Vec<(usize, Vec<u8>)>) -> (r: Vec<u8>)
    ensures
        r@ == flatten_chunks(chunks@.map_values(|c: (usize, Vec<u8>)| chunk_view(c))),
{
    let ghost s = chunks@.map_values(|c: (usize, Vec<u8>)| chunk_view(c));
    let mut out: Vec<u8> = Vec::new();
    let mut i: usize = 0;
    while i < chunks.len()
        invariant
            i <= chunks@.len(),
            s == chunks@.map_values(|c: (usize, Vec<u8>)| chunk_view(c)),
            out@ == flatten_chunks(s.take(i as int)),
        decreases chunks@.len() - i,
    {
        assert(s.take(i + 1).drop_last() =~= s.take(i as int));
        let bytes = &chunks[i].1;
        let mut k: usize = 0;
        let ghost start = out@;
        while k < bytes.len()
            invariant
                k <= bytes@.len(),
                out@ == start + bytes@.take(k as int),
            decreases bytes@.len() - k,
        {
            out.push(bytes[k]);
            k += 1;
            assert(out@ =~= start + bytes@.take(k as int));
        }
        assert(bytes@.take(bytes@.len() as int) =~= bytes@);
        i += 1;
    }
    assert(s.take(s.len() as int) =~= s);
    out
}

} // verus!

verus! {

/// Bytes as a sequence, if present.
pub open spec fn opt_bytes(o: Option<Vec<u8>>) -> Option<Seq<u8>> {
    match o {
        Some(v) => Some(v@),
        None => None,
    }
}

proof fn lemma_fixed_chunks_stop(data: Seq<u8>, kids: Seq<int>, i: nat, n: nat, structure: int)
    requires
        i <= n <= kids.len(),
        !(spec_fixed_chunks(data, kids, i, structure) matches Ok(Some(_))),
    ensures
        spec_fixed_chunks(data, kids, n, structure) == spec_fixed_chunks(data, kids, i, structure),
    decreases n,
{
    if n > i {
        lemma_fixed_chunks_stop(data, kids, i, (n - 1) as nat, structure);
    }
}

fn coded_const_bytes(hex: &String) -> (r: Option<Vec<u8>>)
    ensures
        opt_bytes(r) == spec_coded_const_bytes(hex@),
{
    let compact = keep_hex_digits(str_chars(hex.as_str()).as_slice());
    if compact.len() == 0 || compact.len() % 2 != 0 {
        return None;
    }
    proof {
        #[allow(deprecated)]
        compact@.filter_lemma(hex_pred());
        assert forall|j: int| 0 <= j < compact@.len() implies is_hex_char(#[trigger] compact@[j]) by {
            assert(hex_pred()(compact@[j]));
        }
    }
    Some(hex_pairs_bytes(&compact))
}

/// The bytes of a parameter whose value the MDD fixes completely, or `None`
/// when the value is not fixed.
pub fn fixed_param_bytes(data: &[u8], param: usize) -> (r: Result<Option<Vec<u8>>, DecodeError>)
    requires
        data@.len() <= isize::MAX,
    ensures
        r is Ok == spec_fixed_param_bytes(data@, param as int) is Ok,
        r matches Ok(o) ==> spec_fixed_param_bytes(data@, param as int) == Ok::<
            Option<Seq<u8>>,
            DecodeError,
        >(opt_bytes(o)),
        r matches Err(e) ==> spec_fixed_param_bytes(data@, param as int) == Err::<
            Option<Seq<u8>>,
            DecodeError,
        >(e),
    decreases data@.len() - param, 2int,
{
    let kind = fb_u8_field(data, param, 1, 0)?;
    let specific_type = fb_u8_field(data, param, 8, 0)?;
    if kind == 0 && specific_type == 1 {
        let coded_const = match fb_table_field(data, param, 9)? {
            Some(t) => t,
            None => {
                return Ok(None);
            },
        };
        let value = match fb_string_field(data, coded_const, 0)? {
            Some(v) => v,
            None => {
                return Ok(None);
            },
        };
        let hex = match decimal_string_to_hex(value.as_str()) {
            Some(h) => h,
            None => {
                return Ok(None);
            },
        };
        return Ok(coded_const_bytes(&hex));
    }
    if kind == 11 && specific_type == 7 {
        let value_table = match fb_table_field(data, param, 9)? {
            Some(t) => t,
            None => {
                return Ok(None);
            },
        };
        let dop = match fb_table_field(data, value_table, 1)? {
            Some(t) => t,
            None => {
                return Ok(None);
            },
        };
        let dop_type = fb_u8_field(data, dop, 0, 0)?;
        let dop_specific_type = fb_u8_field(data, dop, 3, 0)?;
        if dop_type == 8 || dop_specific_type == 7 {
            match fb_table_field(data, dop, 4)? {
                Some(structure) => {
                    return fixed_structure_bytes(data, structure);
                },
                None => {
                    return Ok(None);
                },
            }
        }
        return Ok(None);
    }
    Ok(None)
}

/// The bytes of a structure whose members are all fixed, each placed at its
/// byte position; `None` when a member is not fixed or there is none.
pub fn fixed_structure_bytes(data: &[u8], structure: usize) -> (r: Result<
    Option<Vec<u8>>,
    DecodeError,
>)
    requires
        data@.len() <= isize::MAX,
    ensures
        r is Ok == spec_fixed_structure_bytes(data@, structure as int) is Ok,
        r matches Ok(o) ==> spec_fixed_structure_bytes(data@, structure as int) == Ok::<
            Option<Seq<u8>>,
            DecodeError,
        >(opt_bytes(o)),
        r matches Err(e) ==> spec_fixed_structure_bytes(data@, structure as int) == Err::<
            Option<Seq<u8>>,
            DecodeError,
        >(e),
    decreases data@.len() - structure, 1int,
{
    let nested = fb_vector_tables(data, structure, 0)?;
    if nested.len() == 0 {
        return Ok(None);
    }
    let ghost kids = nested@.map_values(|t: usize| t as int);
    let ghost mut chunks: Seq<(int, Seq<u8>)> = Seq::empty();
    let mut sorted: Vec<(usize, Vec<u8>)> = Vec::new();
    let mut inferred_end: usize = 0;
    let mut i: usize = 0;
    assert(sorted@.map_values(|c: (usize, Vec<u8>)| chunk_view(c)) =~= sort_chunks(chunks));
    while i < nested.len()
        invariant
            data@.len() <= isize::MAX,
            i <= nested@.len(),
            kids == nested@.map_values(|t: usize| t as int),
            kids.len() > 0,
            forall|k: int| 0 <= k < nested@.len() ==> structure < #[trigger] nested@[k] < data@.len(),
            spec_fixed_structure_bytes(data@, structure as int) == match spec_fixed_chunks(
                data@,
                kids,
                kids.len(),
                structure as int,
            ) {
                Err(e) => Err(e),
                Ok(None) => Ok(None),
                Ok(Some((cs, _))) => Ok(Some(flatten_chunks(sort_chunks(cs)))),
            },
            spec_fixed_chunks(data@, kids, i as nat, structure as int) == Ok::<
                Option<(Seq<(int, Seq<u8>)>, int)>,
                DecodeError,
            >(Some((chunks, inferred_end as int))),
            sorted@.map_values(|c: (usize, Vec<u8>)| chunk_view(c)) == sort_chunks(chunks),
        decreases nested@.len() - i,
    {
        let np = nested[i];
        assert(kids[i as int] == np as int);
        let bytes = match fixed_param_bytes(data, np) {
            Err(e) => {
                proof {
                    lemma_fixed_chunks_stop(data@, kids, (i + 1) as nat, kids.len(), structure as int);
                }
                return Err(e);
            },
            Ok(None) => {
                proof {
                    lemma_fixed_chunks_stop(data@, kids, (i + 1) as nat, kids.len(), structure as int);
                }
                return Ok(None);
            },
            Ok(Some(b)) => b,
        };
        let po = match fb_u32_field(data, np, 6) {
            Err(e) => {
                proof {
                    lemma_fixed_chunks_stop(data@, kids, (i + 1) as nat, kids.len(), structure as int);
                }
                return Err(e);
            },
            Ok(p) => p,
        };
        let position: usize = match po {
            Some(v) => v as usize,
            None => inferred_end,
        };
        let end = match position.checked_add(bytes.len()) {
            Some(e) => e,
            None => {
                proof {
                    lemma_fixed_chunks_stop(data@, kids, (i + 1) as nat, kids.len(), structure as int);
                }
                return Err(DecodeError::FixedStructureOverflow);
            },
        };
        if end > MAX_FIXED_STRUCTURE_BYTES {
            proof {
                lemma_fixed_chunks_stop(data@, kids, (i + 1) as nat, kids.len(), structure as int);
            }
            return Err(DecodeError::FixedStructureTooLarge);
        }
        if end > inferred_end {
            inferred_end = end;
        }
        let ghost prev_chunks = chunks;
        let ghost x = (position as int, bytes@);
        proof {
            chunks = chunks.push(x);
            assert(chunks.drop_last() =~= prev_chunks);
            assert(sort_chunks(chunks) == insert_chunk(sort_chunks(prev_chunks), x));
        }
        insert_sorted(&mut sorted, position, bytes);
        i += 1;
    }
    Ok(Some(flatten_sorted(&sorted)))
}

} // verus!

verus! {

/// A guide after a normal data object property has been read into it: its
/// text-table choices, coded type, internal range and unit.
pub open spec fn spec_dop_normal(data: Seq<u8>, normal: int, g: GuideView) -> Result<
    GuideView,
    DecodeError,
> {
    let r1 = match spec_fb_table_field(data, normal, 0) {
        Err(e) => Err(e),
        Ok(None) => Ok(g),
        Ok(Some(cm)) => match spec_compu_text_choices(data, cm) {
            Err(e) => Err(e),
            Ok(c) => Ok(GuideView { choices: c, ..g }),
        },
    };
    match r1 {
        Err(e) => Err(e),
        Ok(g1) => {
            let r2 = match spec_fb_table_field(data, normal, 1) {
                Err(e) => Err(e),
                Ok(None) => Ok(g1),
                Ok(Some(dct)) => {
                    let (g2, res) = spec_diag_coded(data, dct, g1);
                    match res {
                        Err(e) => Err(e),
                        Ok(_) => Ok(g2),
                    }
                },
            };
            match r2 {
                Err(e) => Err(e),
                Ok(g2) => {
                    let r3 = match spec_fb_table_field(data, normal, 3) {
                        Err(e) => Err(e),
                        Ok(None) => Ok(g2),
                        Ok(Some(internal)) => match spec_limits_at(data, internal, 0, 1) {
                            Err(e) => Err(e),
                            Ok((mn, mx)) => Ok(GuideView { min_value: mn, max_value: mx, ..g2 }),
                        },
                    };
                    match r3 {
                        Err(e) => Err(e),
                        Ok(g3) => match spec_fb_table_field(data, normal, 4) {
                            Err(e) => Err(e),
                            Ok(None) => Ok(g3),
                            Ok(Some(unit)) => match spec_fb_string_field(data, unit, 1) {
                                Err(e) => Err(e),
                                Ok(u1) => Ok(
                                    GuideView {
                                        unit: match u1 {
                                            Some(x) => Some(x),
                                            None => ok_flatten(spec_fb_string_field(data, unit, 0)),
                                        },
                                        ..g3
                                    },
                                ),
                            },
                        },
                    }
                },
            }
        },
    }
}

/// A guide after the coded type of a DTC data object property has been read.
pub open spec fn spec_dop_dtc(data: Seq<u8>, dtc: int, g: GuideView) -> Result<
    GuideView,
    DecodeError,
> {
    match spec_fb_table_field(data, dtc, 0) {
        Err(e) => Err(e),
        Ok(None) => Ok(g),
        Ok(Some(dct)) => {
            let (g2, res) = spec_diag_coded(data, dct, g);
            match res {
                Err(e) => Err(e),
                Ok(_) => Ok(g2),
            }
        },
    }
}

/// The size a structure's members reach: the largest of position plus
/// length (a missing position counts as 0, a missing length as 1 byte).
pub open spec fn inferred_len(children: Seq<ParamView>) -> u32
    decreases children.len(),
{
    if children.len() == 0 {
        0
    } else {
        let c = children.last();
        let start = or_else(c.byte_position, 0u32);
        let len = match c.byte_length {
            Some(b) => b,
            None => match c.bit_length {
                Some(b) => bytes_for(b),
                None => 1u32,
            },
        };
        let end = if start + len > u32::MAX {
            u32::MAX
        } else {
            (start + len) as u32
        };
        let prev = inferred_len(children.drop_last());
        if prev >= end {
            prev
        } else {
            end
        }
    }
}

/// A structure guide without a byte length takes it from its members.
pub open spec fn infer_length(g: GuideView) -> GuideView {
    if g.byte_length is None && inferred_len(g.children) > 0 {
        let n = inferred_len(g.children);
        GuideView { byte_length: Some(n), bit_length: Some(bits_of(n)), ..g }
    } else {
        g
    }
}

/// What the guide of a data object property says: the normal part (choices,
/// coded type, range, unit), the structure part (members, size) and the DTC
/// part (coded type), each read when the property's type or its union tag
/// names it.
pub open spec fn spec_dop_guide(data: Seq<u8>, dop: int) -> Result<GuideView, DecodeError>
    decreases data.len() - dop, 2int, 0int,
{
    match spec_fb_u8_field(data, dop, 0, 0) {
        Err(e) => Err(e),
        Ok(dt) => match spec_fb_u8_field(data, dop, 3, 0) {
            Err(e) => Err(e),
            Ok(st) => match spec_fb_table_field(data, dop, 4) {
                Err(e) => Err(e),
                Ok(specific) => {
                    proof {
                        lemma_table_field_above(data, dop, 4);
                    }
                    let r1 = match specific {
                        Some(n) => if dt == 0 || st == 1 {
                            spec_dop_normal(data, n, empty_guide())
                        } else {
                            Ok(empty_guide())
                        },
                        None => Ok(empty_guide()),
                    };
                    match r1 {
                        Err(e) => Err(e),
                        Ok(g1) => {
                            let r2 = match specific {
                                Some(sx) => if dt == 8 || st == 7 {
                                    spec_dop_structure(data, sx, g1)
                                } else {
                                    Ok(g1)
                                },
                                None => Ok(g1),
                            };
                            match r2 {
                                Err(e) => Err(e),
                                Ok(g2) => match specific {
                                    Some(d) => if dt == 9 || st == 6 {
                                        spec_dop_dtc(data, d, g2)
                                    } else {
                                        Ok(g2)
                                    },
                                    None => Ok(g2),
                                },
                            }
                        },
                    }
                },
            },
        },
    }
}

/// A guide after a structure has been read into it: its byte length (or the
/// one its members reach) and its members as parameters.
pub open spec fn spec_dop_structure(data: Seq<u8>, structure: int, g: GuideView) -> Result<
    GuideView,
    DecodeError,
>
    decreases data.len() - structure, 1int, 0int,
{
    match spec_fb_u32_field(data, structure, 1) {
        Err(e) => Err(e),
        Ok(bl) => {
            let g1 = GuideView {
                byte_length: bl,
                bit_length: match bl {
                    Some(b) => Some(bits_of(b)),
                    None => g.bit_length,
                },
                ..g
            };
            match spec_fb_vector_tables(data, structure, 0) {
                Err(e) => Err(e),
                Ok(kids) => {
                    proof {
                        lemma_vector_tables_above(data, structure, 0);
                    }
                    match spec_params(data, kids, kids.len(), structure) {
                        Err(e) => Err(e),
                        Ok(children) => Ok(
                            infer_length(GuideView { children: g1.children + children, ..g1 }),
                        ),
                    }
                },
            }
        },
    }
}

/// The first `n` members of a structure as parameters; the first failure
/// ends the walk. The members lie after the structure, as a vector's tables do.
pub open spec fn spec_params(data: Seq<u8>, kids: Seq<int>, n: nat, structure: int) -> Result<
    Seq<ParamView>,
    DecodeError,
>
    decreases data.len() - structure, 0int, n,
{
    if n == 0 || n > kids.len() {
        Ok(Seq::empty())
    } else {
        match spec_params(data, kids, (n - 1) as nat, structure) {
            Err(e) => Err(e),
            Ok(prev) => if structure < kids[n - 1] < data.len() {
                match spec_parse_param(data, kids[n - 1]) {
                    Err(e) => Err(e),
                    Ok(p) => Ok(prev.push(p)),
                }
            } else {
                Ok(prev)
            },
        }
    }
}

/// The choice a table row offers: its key as hexadecimal, labelled by its
/// long name when not blank, else its short name.
pub open spec fn spec_row_choice(data: Seq<u8>, row: int) -> Result<
    Option<ChoiceView>,
    DecodeError,
> {
    match spec_fb_string_field(data, row, 2) {
        Err(e) => Err(e),
        Ok(None) => Ok(None),
        Ok(Some(key)) => match spec_decimal_string_to_hex(key) {
            None => Ok(None),
            Some(vh) => {
                let first = match spec_fb_table_field(data, row, 1) {
                    Err(e) => Err(e),
                    Ok(Some(ln)) => match spec_fb_string_field(data, ln, 0) {
                        Err(e) => Err(e),
                        Ok(o) => Ok(nonblank(o)),
                    },
                    Ok(None) => Ok(None),
                };
                match first {
                    Err(e) => Err(e),
                    Ok(Some(l)) => Ok(Some(ChoiceView { label: l, value_hex: vh })),
                    Ok(None) => Ok(
                        Some(
                            ChoiceView {
                                label: or_else(
                                    ok_flatten(spec_fb_string_field(data, row, 0)),
                                    hex_label(vh),
                                ),
                                value_hex: vh,
                            },
                        ),
                    ),
                }
            },
        },
    }
}

/// The choice each row of a table offers.
pub open spec fn row_choice_fn(data: Seq<u8>) -> spec_fn(int) -> Result<
    Option<ChoiceView>,
    DecodeError,
> {
    |t: int| spec_row_choice(data, t)
}

/// A key guide keeps what a key's data object property says of size, type,
/// range and unit.
pub open spec fn key_part(kg: GuideView) -> GuideView {
    GuideView { choices: Seq::empty(), children: Seq::empty(), ..kg }
}

/// What a table key offers: for a table reference, its key DOP's guide and
/// one choice per row; for a row reference, that row's choice.
pub open spec fn spec_table_key_guide(data: Seq<u8>, table_key: int) -> Result<
    GuideView,
    DecodeError,
>
    decreases data.len() - table_key, 2int, 0int,
{
    match spec_fb_u8_field(data, table_key, 0, 0) {
        Err(e) => Err(e),
        Ok(rt) => match spec_fb_table_field(data, table_key, 1) {
            Err(e) => Err(e),
            Ok(None) => Ok(empty_guide()),
            Ok(Some(r)) => {
                proof {
                    lemma_table_field_above(data, table_key, 1);
                    lemma_table_field_above(data, r, 4);
                }
                if rt == 1 {
                    match spec_fb_table_field(data, r, 4) {
                        Err(e) => Err(e),
                        Ok(kdo) => {
                            let r1 = match kdo {
                                Some(kd) => match spec_dop_guide(data, kd) {
                                    Err(e) => Err(e),
                                    Ok(kg) => Ok(key_part(kg)),
                                },
                                None => Ok(empty_guide()),
                            };
                            match r1 {
                                Err(e) => Err(e),
                                Ok(g1) => match spec_fb_vector_tables(data, r, 5) {
                                    Err(e) => Err(e),
                                    Ok(rows) => match choice_fold(
                                        rows,
                                        rows.len(),
                                        row_choice_fn(data),
                                    ) {
                                        Err(e) => Err(e),
                                        Ok(cs) => Ok(GuideView { choices: g1.choices + cs, ..g1 }),
                                    },
                                },
                            }
                        },
                    }
                } else if rt == 2 {
                    match spec_fb_string_field(data, r, 2) {
                        Err(e) => Err(e),
                        Ok(None) => Ok(empty_guide()),
                        Ok(Some(key)) => match spec_decimal_string_to_hex(key) {
                            None => Ok(empty_guide()),
                            Some(vh) => match spec_fb_string_field(data, r, 0) {
                                Err(e) => Err(e),
                                Ok(lo) => Ok(
                                    GuideView {
                                        choices: seq![
                                            ChoiceView { label: or_else(lo, hex_label(vh)), value_hex: vh },
                                        ],
                                        ..empty_guide()
                                    },
                                ),
                            },
                        },
                    }
                } else {
                    Ok(empty_guide())
                }
            },
        },
    }
}

/// The guide a parameter's specific data gives, by the parameter's kind and
/// union tag; guidance that cannot be read leaves the guide empty.
pub open spec fn spec_specific_guide(data: Seq<u8>, specific: int, kind: u8, st: u8) -> GuideView
    decreases data.len() - specific, 3int, 0int,
{
    proof {
        lemma_table_field_above(data, specific, 0);
        lemma_table_field_above(data, specific, 1);
    }
    if kind == 0 && st == 1 {
        match spec_fb_table_field(data, specific, 1) {
            Ok(Some(dct)) => spec_diag_coded(data, dct, empty_guide()).0,
            _ => empty_guide(),
        }
    } else if (kind == 11 && st == 7) || (kind == 5 && st == 5) {
        match spec_fb_table_field(data, specific, 1) {
            Ok(Some(dop)) => match spec_dop_guide(data, dop) {
                Ok(g) => g,
                Err(_) => empty_guide(),
            },
            _ => empty_guide(),
        }
    } else if kind == 9 && st == 9 {
        if specific < data.len() {
            match spec_table_key_guide(data, specific) {
                Ok(g) => g,
                Err(_) => empty_guide(),
            }
        } else {
            empty_guide()
        }
    } else if kind == 6 && st == 6 {
        let bits = or_else(ok_flatten(spec_fb_u32_field(data, specific, 0)), 0u32);
        if bits > 0 {
            GuideView { bit_length: Some(bits), byte_length: Some(bytes_for(bits)), ..empty_guide() }
        } else {
            empty_guide()
        }
    } else if kind == 7 && st == 11 {
        match spec_fb_table_field(data, specific, 0) {
            Ok(Some(dop)) => match spec_dop_guide(data, dop) {
                Ok(g) => g,
                Err(_) => empty_guide(),
            },
            _ => empty_guide(),
        }
    } else {
        empty_guide()
    }
}

/// 2 to the power `n`.
pub open spec fn pow2(n: nat) -> nat
    decreases n,
{
    if n == 0 {
        1
    } else {
        2 * pow2((n - 1) as nat)
    }
}

/// A guide with a bit width, an integer type and no bounds gets the range
/// of that type at that width.
pub open spec fn with_default_range(g: GuideView) -> GuideView {
    match (g.min_value, g.max_value, g.bit_length, g.data_type) {
        (None, None, Some(bits), Some(dt)) => if 0 < bits <= 32 {
            if dt == "A_UINT_32"@ {
                GuideView {
                    min_value: Some("0"@),
                    max_value: Some(digits_in((pow2(bits as nat) - 1) as nat, 10)),
                    ..g
                }
            } else if dt == "A_INT_32"@ {
                GuideView {
                    min_value: Some(signed_decimal(-pow2((bits - 1) as nat))),
                    max_value: Some(digits_in((pow2((bits - 1) as nat) - 1) as nat, 10)),
                    ..g
                }
            } else {
                g
            }
        } else {
            g
        },
        _ => g,
    }
}

/// The default a byte-field parameter shows: its value's physical default
/// (else the parameter's own), as cleaned hexadecimal.
pub open spec fn spec_physical_default_hex(
    data: Seq<u8>,
    param: int,
    kind: u8,
    st: u8,
    specific: Option<int>,
    data_type: Option<Seq<char>>,
) -> Option<Seq<char>> {
    if data_type != Some("A_BYTEFIELD"@) {
        None
    } else {
        let own = if kind == 11 && st == 7 && specific is Some {
            ok_flatten(spec_fb_string_field(data, specific->0, 0))
        } else {
            None
        };
        let raw = match own {
            Some(x) => Some(x),
            None => ok_flatten(spec_fb_string_field(data, param, 5)),
        };
        match raw {
            None => None,
            Some(r) => spec_clean_hex_string(r),
        }
    }
}

/// The parameter at `param`: its name, kind, position, fixed value, default,
/// the guidance its specific data gives, and the hint built from all that.
pub open spec fn spec_parse_param(data: Seq<u8>, param: int) -> Result<ParamView, DecodeError>
    decreases data.len() - param, 2int, 0int,
{
    match spec_fb_u8_field(data, param, 1, 0) {
        Err(e) => Err(e),
        Ok(kind) => match spec_fb_string_field(data, param, 2) {
            Err(e) => Err(e),
            Ok(nm) => match spec_fb_u32_field(data, param, 6) {
                Err(e) => Err(e),
                Ok(bp) => match spec_fb_u32_field(data, param, 7) {
                    Err(e) => Err(e),
                    Ok(bitp) => match spec_fb_u8_field(data, param, 8, 0) {
                        Err(e) => Err(e),
                        Ok(st) => match spec_fb_table_field(data, param, 9) {
                            Err(e) => Err(e),
                            Ok(specific) => {
                                proof {
                                    lemma_table_field_above(data, param, 9);
                                }
                                let fixed_bytes = ok_flatten(spec_fixed_param_bytes(data, param));
                                let g = with_default_range(
                                    match specific {
                                        Some(x) => spec_specific_guide(data, x, kind, st),
                                        None => empty_guide(),
                                    },
                                );
                                let partial = ParamView {
                                    name: or_else(nm, "Unnamed parameter"@),
                                    param_type: spec_param_type_name(kind),
                                    byte_position: bp,
                                    bit_position: bitp,
                                    fixed: fixed_bytes is Some,
                                    value_hex: match fixed_bytes {
                                        Some(b) => Some(spec_bytes_to_hex(b)),
                                        None => None,
                                    },
                                    default_value_hex: spec_physical_default_hex(
                                        data,
                                        param,
                                        kind,
                                        st,
                                        specific,
                                        g.data_type,
                                    ),
                                    bit_length: g.bit_length,
                                    byte_length: g.byte_length,
                                    data_type: g.data_type,
                                    min_value: g.min_value,
                                    max_value: g.max_value,
                                    unit: g.unit,
                                    choices: g.choices,
                                    children: g.children,
                                    input_hint: None,
                                };
                                Ok(ParamView { input_hint: Some(spec_input_hint(partial)), ..partial })
                            },
                        },
                    },
                },
            },
        },
    }
}

} // verus!

verus! {

/// Reads a normal data object property into `guide`.
fn dop_normal(data: &[u8], normal: usize, guide: &mut DopGuide) -> (r: Result<(), DecodeError>)
    requires
        data@.len() <= isize::MAX,
    ensures
        match spec_dop_normal(data@, normal as int, old(guide)@) {
            Ok(g) => r is Ok && final(guide)@ == g,
            Err(e) => r == Err::<(), DecodeError>(e),
        },
{
    if let Some(compu_method) = fb_table_field(data, normal, 0)? {
        guide.choices = compu_text_choices(data, compu_method)?;
    }
    let ghost g1 = guide@;
    if let Some(dct) = fb_table_field(data, normal, 1)? {
        diag_coded_guide(data, dct, guide)?;
    }
    let ghost g2 = guide@;
    if let Some(internal) = fb_table_field(data, normal, 3)? {
        let (mn, mx) = limits_at(data, internal, 0, 1)?;
        guide.min_value = mn;
        guide.max_value = mx;
    }
    if let Some(unit) = fb_table_field(data, normal, 4)? {
        let first = fb_string_field(data, unit, 1)?;
        guide.unit = match first {
            Some(u) => Some(u),
            None => match fb_string_field(data, unit, 0) {
                Ok(Some(u)) => Some(u),
                _ => None,
            },
        };
    }
    Ok(())
}

/// Reads the coded type of a DTC data object property into `guide`.
fn dop_dtc(data: &[u8], dtc: usize, guide: &mut DopGuide) -> (r: Result<(), DecodeError>)
    requires
        data@.len() <= isize::MAX,
    ensures
        match spec_dop_dtc(data@, dtc as int, old(guide)@) {
            Ok(g) => r is Ok && final(guide)@ == g,
            Err(e) => r == Err::<(), DecodeError>(e),
        },
{
    if let Some(dct) = fb_table_field(data, dtc, 0)? {
        diag_coded_guide(data, dct, guide)?;
    }
    Ok(())
}

fn row_choice(data: &[u8], row: usize) -> (r: Result<Option<UdsMddChoice>, DecodeError>)
    requires
        data@.len() <= isize::MAX,
    ensures
        r is Ok == spec_row_choice(data@, row as int) is Ok,
        r matches Ok(Some(c)) ==> spec_row_choice(data@, row as int) == Ok::<
            Option<ChoiceView>,
            DecodeError,
        >(Some(c@)),
        r matches Ok(None) ==> spec_row_choice(data@, row as int) == Ok::<
            Option<ChoiceView>,
            DecodeError,
        >(None),
        r matches Err(e) ==> spec_row_choice(data@, row as int) == Err::<
            Option<ChoiceView>,
            DecodeError,
        >(e),
{
    let key = match fb_string_field(data, row, 2)? {
        Some(k) => k,
        None => {
            return Ok(None);
        },
    };
    let value_hex = match decimal_string_to_hex(key.as_str()) {
        Some(v) => v,
        None => {
            return Ok(None);
        },
    };
    let first = match fb_table_field(data, row, 1)? {
        Some(long_name) => match fb_string_field(data, long_name, 0)? {
            Some(v) => {
                let t = trim_chars(&str_chars(v.as_str()));
                if t.len() > 0 {
                    Some(v)
                } else {
                    None
                }
            },
            None => None,
        },
        None => None,
    };
    let label = match first {
        Some(l) => l,
        None => match fb_string_field(data, row, 0) {
            Ok(Some(l)) => l,
            _ => {
                let mut m = String::from_str("0x");
                m.append(value_hex.as_str());
                m
            },
        },
    };
    Ok(Some(UdsMddChoice { label, value_hex }))
}

/// An optional text as characters.
pub open spec fn opt_str_view(o: Option<&str>) -> Option<Seq<char>> {
    match o {
        Some(s) => Some(s@),
        None => None,
    }
}

/// The default value of a byte-field parameter, as cleaned hexadecimal: the
/// physical default of its value when it is a VALUE, else its own.
pub fn physical_default_hex(
    data: &[u8],
    param: usize,
    kind: u8,
    specific_type: u8,
    specific: Option<usize>,
    data_type: Option<&str>,
) -> (r: Option<String>)
    requires
        data@.len() <= isize::MAX,
    ensures
        opt_view(r) == spec_physical_default_hex(
            data@,
            param as int,
            kind,
            specific_type,
            opt_int(specific),
            opt_str_view(data_type),
        ),
{
    let mut default_value: Option<String> = None;
    if kind == 11 && specific_type == 7 {
        if let Some(value) = specific {
            default_value = match fb_string_field(data, value, 0) {
                Ok(Some(s)) => Some(s),
                _ => None,
            };
        }
    }
    if default_value.is_none() {
        default_value = match fb_string_field(data, param, 5) {
            Ok(Some(s)) => Some(s),
            _ => None,
        };
    }
    let raw = match default_value {
        Some(r) => r,
        None => {
            return None;
        },
    };
    let is_bytefield = match data_type {
        Some(dt) => chars_eq(&str_chars(dt), &str_chars("A_BYTEFIELD")),
        None => false,
    };
    if is_bytefield {
        clean_hex_string(raw.as_str())
    } else {
        None
    }
}

proof fn lemma_pow2_mono(i: nat, j: nat)
    requires
        i <= j,
    ensures
        pow2(i) <= pow2(j),
    decreases j - i,
{
    if i < j {
        lemma_pow2_mono(i, (j - 1) as nat);
    }
}

proof fn lemma_pow2_32()
    ensures
        pow2(32) == 0x1_0000_0000,
{
    reveal_with_fuel(pow2, 33);
}

/// `2^n` for `n` up to 32.
fn pow2_u64(n: u32) -> (r: u64)
    requires
        n <= 32,
    ensures
        r == pow2(n as nat),
        1 <= r <= 0x1_0000_0000,
{
    let mut v: u64 = 1;
    let mut i: u32 = 0;
    while i < n
        invariant
            i <= n <= 32,
            v == pow2(i as nat),
        decreases n - i,
    {
        proof {
            lemma_pow2_mono((i + 1) as nat, 32);
            lemma_pow2_32();
        }
        v = v * 2;
        i += 1;
    }
    proof {
        lemma_pow2_mono(n as nat, 32);
        lemma_pow2_mono(0, n as nat);
        lemma_pow2_32();
    }
    v
}

/// Gives a guide with a bit width, an integer type and no bounds the range
/// of that type at that width.
fn apply_default_range(guide: &mut DopGuide)
    ensures
        final(guide)@ == with_default_range(old(guide)@),
{
    if guide.min_value.is_some() || guide.max_value.is_some() {
        return;
    }
    let bits = match guide.bit_length {
        Some(b) => b,
        None => {
            return;
        },
    };
    let is_uint = match &guide.data_type {
        Some(dt) => chars_eq(&str_chars(dt.as_str()), &str_chars("A_UINT_32")),
        None => {
            return;
        },
    };
    let is_int = match &guide.data_type {
        Some(dt) => chars_eq(&str_chars(dt.as_str()), &str_chars("A_INT_32")),
        None => false,
    };
    if bits == 0 || bits > 32 {
        return;
    }
    if is_uint {
        let p = pow2_u64(bits);
        guide.min_value = Some(String::from_str("0"));
        guide.max_value = Some(u64_to_decimal(p - 1));
    } else if is_int {
        let p = pow2_u64(bits - 1);
        guide.max_value = Some(u64_to_decimal(p - 1));
        guide.min_value = Some(i64_to_decimal(-(p as i64)));
    }
}

} // verus!

verus! {

proof fn lemma_params_err(data: Seq<u8>, kids: Seq<int>, i: nat, n: nat, structure: int)
    requires
        i < n <= kids.len(),
        spec_params(data, kids, i, structure) is Ok,
        structure < kids[i as int] < data.len(),
        spec_parse_param(data, kids[i as int]) is Err,
    ensures
        spec_params(data, kids, n, structure) == Err::<Seq<ParamView>, DecodeError>(
            spec_parse_param(data, kids[i as int])->Err_0,
        ),
    decreases n,
{
    if n > i + 1 {
        lemma_params_err(data, kids, i, (n - 1) as nat, structure);
    }
}

/// The size the members of a structure reach.
fn members_len(children: &Vec<UdsMddParameter>) -> (r: u32)
    ensures
        r == inferred_len(params_view(children@)),
{
    let ghost pv = params_view(children@);
    let mut acc: u32 = 0;
    let mut i: usize = 0;
    while i < children.len()
        invariant
            i <= children@.len(),
            pv == params_view(children@),
            acc == inferred_len(pv.take(i as int)),
        decreases children@.len() - i,
    {
        assert(pv.take(i + 1).drop_last() =~= pv.take(i as int));
        assert(pv.take(i + 1).last() == children@[i as int]@);
        let c = &children[i];
        let start = match c.byte_position {
            Some(p) => p,
            None => 0,
        };
        let len = match c.byte_length {
            Some(b) => b,
            None => match c.bit_length {
                Some(b) => bytes_for_bits(b),
                None => 1,
            },
        };
        let end = start.saturating_add(len);
        if end > acc {
            acc = end;
        }
        i += 1;
    }
    assert(pv.take(children@.len() as int) =~= pv);
    acc
}

/// Reads a structure into `guide`: its byte length and its members.
fn dop_structure(data: &[u8], structure: usize, guide: &mut DopGuide) -> (r: Result<
    (),
    DecodeError,
>)
    requires
        data@.len() <= isize::MAX,
        structure < data@.len(),
    ensures
        match spec_dop_structure(data@, structure as int, old(guide)@) {
            Ok(g) => r is Ok && final(guide)@ == g,
            Err(e) => r == Err::<(), DecodeError>(e),
        },
    decreases data@.len() - structure, 1int,
{
    let bl = fb_u32_field(data, structure, 1)?;
    guide.byte_length = bl;
    if let Some(bytes) = bl {
        guide.bit_length = Some(saturating_times_8(bytes));
    }
    let ghost g1 = guide@;
    let kids = fb_vector_tables(data, structure, 0)?;
    let ghost kv = kids@.map_values(|t: usize| t as int);
    let ghost before = guide.children@;
    let mut i: usize = 0;
    assert(guide.children@.skip(before.len() as int) =~= Seq::<UdsMddParameter>::empty());
    assert(params_view(guide.children@.skip(before.len() as int)) =~= Seq::<ParamView>::empty());
    assert(guide.children@.take(before.len() as int) =~= before);
    while i < kids.len()
        invariant
            spec_dop_structure(data@, structure as int, old(guide)@) == (match spec_params(
                data@,
                kv,
                kv.len(),
                structure as int,
            ) {
                Err(e) => Err(e),
                Ok(children) => Ok(
                    infer_length(GuideView { children: g1.children + children, ..g1 }),
                ),
            }),
            data@.len() <= isize::MAX,
            i <= kids@.len(),
            kv == kids@.map_values(|t: usize| t as int),
            forall|k: int| 0 <= k < kids@.len() ==> structure < #[trigger] kids@[k] < data@.len(),
            guide@ == (GuideView { children: guide@.children, ..g1 }),
            g1.children == params_view(before),
            guide.children@.len() >= before.len(),
            guide.children@.take(before.len() as int) == before,
            spec_params(data@, kv, i as nat, structure as int) == Ok::<Seq<ParamView>, DecodeError>(
                params_view(guide.children@.skip(before.len() as int)),
            ),
        decreases kids@.len() - i,
    {
        assert(kv[i as int] == kids@[i as int] as int);
        let p = match parse_param(data, kids[i]) {
            Ok(p) => p,
            Err(e) => {
                proof {
                    lemma_params_err(data@, kv, i as nat, kv.len(), structure as int);
                }
                return Err(e);
            },
        };
        let ghost prev = guide.children@;
        guide.children.push(p);
        proof {
            assert(guide.children@.take(before.len() as int) =~= before);
            assert(guide.children@.skip(before.len() as int) =~= prev.skip(before.len() as int).push(p));
            assert(params_view(guide.children@.skip(before.len() as int)) =~= params_view(
                prev.skip(before.len() as int),
            ).push(p@));
            assert(params_view(guide.children@) =~= params_view(prev).push(p@));
        }
        i += 1;
    }
    proof {
        assert(guide.children@ =~= before + guide.children@.skip(before.len() as int));
        assert(params_view(guide.children@) =~= params_view(before) + params_view(
            guide.children@.skip(before.len() as int),
        ));
    }
    if guide.byte_length.is_none() {
        let inferred = members_len(&guide.children);
        if inferred > 0 {
            guide.byte_length = Some(inferred);
            guide.bit_length = Some(saturating_times_8(inferred));
        }
    }
    Ok(())
}

/// What a data object property says about a parameter's value: choices,
/// coded length and type, range and unit, or the members of a structure.
pub fn dop_guide(data: &[u8], dop: usize) -> (r: Result<DopGuide, DecodeError>)
    requires
        data@.len() <= isize::MAX,
    ensures
        r is Ok == spec_dop_guide(data@, dop as int) is Ok,
        r matches Ok(g) ==> spec_dop_guide(data@, dop as int) == Ok::<GuideView, DecodeError>(g@),
        r matches Err(e) ==> spec_dop_guide(data@, dop as int) == Err::<GuideView, DecodeError>(e),
    decreases data@.len() - dop, 2int,
{
    let dop_type = fb_u8_field(data, dop, 0, 0)?;
    let specific_type = fb_u8_field(data, dop, 3, 0)?;
    let specific = fb_table_field(data, dop, 4)?;
    let mut guide = DopGuide::default();
    if let Some(normal) = specific {
        if dop_type == 0 || specific_type == 1 {
            dop_normal(data, normal, &mut guide)?;
        }
    }
    if let Some(structure) = specific {
        if dop_type == 8 || specific_type == 7 {
            dop_structure(data, structure, &mut guide)?;
        }
    }
    if let Some(dtc) = specific {
        if dop_type == 9 || specific_type == 6 {
            dop_dtc(data, dtc, &mut guide)?;
        }
    }
    Ok(guide)
}

/// What a table key offers: the key DOP's guide and one choice per table
/// row, or the single row it references.
pub fn table_key_guide(data: &[u8], table_key: usize) -> (r: Result<DopGuide, DecodeError>)
    requires
        data@.len() <= isize::MAX,
    ensures
        r is Ok == spec_table_key_guide(data@, table_key as int) is Ok,
        r matches Ok(g) ==> spec_table_key_guide(data@, table_key as int) == Ok::<
            GuideView,
            DecodeError,
        >(g@),
        r matches Err(e) ==> spec_table_key_guide(data@, table_key as int) == Err::<
            GuideView,
            DecodeError,
        >(e),
    decreases data@.len() - table_key, 2int,
{
    let reference_type = fb_u8_field(data, table_key, 0, 0)?;
    let reference = match fb_table_field(data, table_key, 1)? {
        Some(r) => r,
        None => {
            return Ok(DopGuide::default());
        },
    };
    let mut guide = DopGuide::default();
    if reference_type == 1 {
        if let Some(key_dop) = fb_table_field(data, reference, 4)? {
            let key_guide = dop_guide(data, key_dop)?;
            guide.bit_length = key_guide.bit_length;
            guide.byte_length = key_guide.byte_length;
            guide.data_type = key_guide.data_type;
            guide.min_value = key_guide.min_value;
            guide.max_value = key_guide.max_value;
            guide.unit = key_guide.unit;
        }
        let ghost g1 = guide@;
        let rows = fb_vector_tables(data, reference, 5)?;
        let ghost rv = rows@.map_values(|t: usize| t as int);
        let mut i: usize = 0;
        while i < rows.len()
            invariant
                spec_table_key_guide(data@, table_key as int) == (match choice_fold(
                    rv,
                    rv.len(),
                    row_choice_fn(data@),
                ) {
                    Err(e) => Err(e),
                    Ok(cs) => Ok(GuideView { choices: g1.choices + cs, ..g1 }),
                }),
                data@.len() <= isize::MAX,
                i <= rows@.len(),
                rv == rows@.map_values(|t: usize| t as int),
                g1.choices.len() == 0,
                guide@ == (GuideView { choices: guide@.choices, ..g1 }),
                choice_fold(rv, i as nat, row_choice_fn(data@)) == Ok::<
                    Seq<ChoiceView>,
                    DecodeError,
                >(guide@.choices),
            decreases rows@.len() - i,
        {
            match row_choice(data, rows[i]) {
                Err(e) => {
                    proof {
                        lemma_choice_fold_err(rv, i as nat, rv.len(), row_choice_fn(data@));
                    }
                    return Err(e);
                },
                Ok(None) => {},
                Ok(Some(c)) => {
                    let ghost before = guide.choices@;
                    guide.choices.push(c);
                    assert(choices_view(guide.choices@) =~= choices_view(before).push(c@));
                },
            }
            i += 1;
        }
        assert(g1.choices + guide@.choices =~= guide@.choices);
    } else if reference_type == 2 {
        if let Some(key) = fb_string_field(data, reference, 2)? {
            if let Some(value_hex) = decimal_string_to_hex(key.as_str()) {
                let label = match fb_string_field(data, reference, 0)? {
                    Some(l) => l,
                    None => {
                        let mut m = String::from_str("0x");
                        m.append(value_hex.as_str());
                        m
                    },
                };
                guide.choices.push(UdsMddChoice { label, value_hex });
                assert(guide@.choices =~= seq![guide.choices@[0]@]);
            }
        }
    }
    Ok(guide)
}

/// The guide a parameter's specific data gives; guidance that cannot be
/// read leaves it empty.
fn specific_guide(data: &[u8], specific: usize, kind: u8, specific_type: u8) -> (g: DopGuide)
    requires
        data@.len() <= isize::MAX,
        specific < data@.len(),
    ensures
        g@ == spec_specific_guide(data@, specific as int, kind, specific_type),
    decreases data@.len() - specific, 3int,
{
    if kind == 0 && specific_type == 1 {
        let mut guide = DopGuide::default();
        if let Ok(Some(dct)) = fb_table_field(data, specific, 1) {
            let _ = diag_coded_guide(data, dct, &mut guide);
        }
        guide
    } else if (kind == 11 && specific_type == 7) || (kind == 5 && specific_type == 5) {
        if let Ok(Some(dop)) = fb_table_field(data, specific, 1) {
            if let Ok(parsed) = dop_guide(data, dop) {
                return parsed;
            }
        }
        DopGuide::default()
    } else if kind == 9 && specific_type == 9 {
        match table_key_guide(data, specific) {
            Ok(parsed) => parsed,
            Err(_) => DopGuide::default(),
        }
    } else if kind == 6 && specific_type == 6 {
        let mut guide = DopGuide::default();
        let bits = match fb_u32_field(data, specific, 0) {
            Ok(Some(b)) => b,
            _ => 0,
        };
        if bits > 0 {
            guide.bit_length = Some(bits);
            guide.byte_length = Some(bytes_for_bits(bits));
        }
        guide
    } else if kind == 7 && specific_type == 11 {
        if let Ok(Some(dop)) = fb_table_field(data, specific, 0) {
            if let Ok(parsed) = dop_guide(data, dop) {
                return parsed;
            }
        }
        DopGuide::default()
    } else {
        DopGuide::default()
    }
}

/// Decodes the parameter table at `param`: name, kind, position, fixed value
/// and default, the guidance its data object property gives, and a hint.
/// Guidance that cannot be decoded is left out rather than failing.
pub fn parse_param(data: &[u8], param: usize) -> (r: Result<UdsMddParameter, DecodeError>)
    requires
        data@.len() <= isize::MAX,
    ensures
        r is Ok == spec_parse_param(data@, param as int) is Ok,
        r matches Ok(p) ==> spec_parse_param(data@, param as int) == Ok::<ParamView, DecodeError>(
            p@,
        ),
        r matches Err(e) ==> spec_parse_param(data@, param as int) == Err::<ParamView, DecodeError>(
            e,
        ),
    decreases data@.len() - param, 2int,
{
    let kind = fb_u8_field(data, param, 1, 0)?;
    let name = match fb_string_field(data, param, 2)? {
        Some(n) => n,
        None => String::from_str("Unnamed parameter"),
    };
    let byte_position = fb_u32_field(data, param, 6)?;
    let bit_position = fb_u32_field(data, param, 7)?;
    let fixed_bytes = match fixed_param_bytes(data, param) {
        Ok(Some(b)) => Some(b),
        _ => None,
    };
    let fixed = fixed_bytes.is_some();
    let value_hex = match &fixed_bytes {
        Some(b) => Some(bytes_to_hex(b.as_slice())),
        None => None,
    };
    let specific_type = fb_u8_field(data, param, 8, 0)?;
    let specific = fb_table_field(data, param, 9)?;
    let mut guide = match specific {
        Some(x) => specific_guide(data, x, kind, specific_type),
        None => DopGuide::default(),
    };
    apply_default_range(&mut guide);
    let data_type: Option<&str> = match &guide.data_type {
        Some(s) => Some(s.as_str()),
        None => None,
    };
    let default_value_hex = physical_default_hex(
        data,
        param,
        kind,
        specific_type,
        specific,
        data_type,
    );
    let ghost g = guide@;
    let mut parameter = UdsMddParameter {
        name,
        param_type: String::from_str(param_type_name(kind)),
        byte_position,
        bit_position,
        fixed,
        value_hex,
        default_value_hex,
        bit_length: guide.bit_length,
        byte_length: guide.byte_length,
        data_type: guide.data_type,
        min_value: guide.min_value,
        max_value: guide.max_value,
        unit: guide.unit,
        choices: guide.choices,
        children: guide.children,
        input_hint: None,
    };
    proof {
        assert(parameter@.children =~= g.children);
    }
    let hint = input_hint_for(&parameter);
    let ghost partial = parameter@;
    parameter.input_hint = hint;
    proof {
        assert(parameter@.children =~= partial.children);
    }
    Ok(parameter)
}

} // verus!

verus! {

/// A parameter fails to decode only when one of its own fields (kind, name,
/// byte and bit position, specific-data type and table) cannot be read:
/// guidance, a fixed value or a default that cannot be decoded never makes
/// it fail.
pub proof fn lemma_param_fails_only_on_own_fields(data: Seq<u8>, param: int)
    ensures
        spec_parse_param(data, param) is Ok <==> {
            &&& spec_fb_u8_field(data, param, 1, 0) is Ok
            &&& spec_fb_string_field(data, param, 2) is Ok
            &&& spec_fb_u32_field(data, param, 6) is Ok
            &&& spec_fb_u32_field(data, param, 7) is Ok
            &&& spec_fb_u8_field(data, param, 8, 0) is Ok
            &&& spec_fb_table_field(data, param, 9) is Ok
        },
{
}

} // verus!

verus! {

proof fn lemma_pow2_is_power_of_two(n: nat)
    ensures
        vstd::arithmetic::power::pow(2, n) == pow2(n) as int,
        pow2(n) == vstd::arithmetic::power2::pow2(n),
        pow2(n) >= 1,
    decreases n,
{
    reveal(vstd::arithmetic::power::pow);
    if n > 0 {
        lemma_pow2_is_power_of_two((n - 1) as nat);
        assert(vstd::arithmetic::power::pow(2, n) == 2 * vstd::arithmetic::power::pow(2, (n - 1) as nat));
    }
}

/// An integer guide `n` bits wide (0 < n <= 32) that states no limits
/// allows exactly the values `n` bits hold: 0 to 2^n - 1 when unsigned,
/// -2^(n-1) to 2^(n-1) - 1 when signed, the bounds written in decimal; the
/// rest of the guide is kept.
pub proof fn lemma_default_range_fits_width(g: GuideView, n: u32)
    requires
        g.min_value is None,
        g.max_value is None,
        g.bit_length == Some(n),
        0 < n <= 32,
    ensures
        g.data_type == Some("A_UINT_32"@) ==> {
            let r = with_default_range(g);
            &&& r.min_value == Some("0"@)
            &&& r.max_value matches Some(x) && crate::text::parse_unsigned(x, 10, u64::MAX as nat) == Some(
                (vstd::arithmetic::power2::pow2(n as nat) - 1) as nat,
            )
            &&& r == (GuideView { min_value: r.min_value, max_value: r.max_value, ..g })
        },
        g.data_type == Some("A_INT_32"@) ==> {
            let r = with_default_range(g);
            &&& r.min_value matches Some(m) && m.len() > 0 && m[0] == '-' && crate::text::parse_unsigned(
                m.drop_first(),
                10,
                u64::MAX as nat,
            ) == Some(vstd::arithmetic::power2::pow2((n - 1) as nat))
            &&& r.max_value matches Some(x) && crate::text::parse_unsigned(x, 10, u64::MAX as nat) == Some(
                (vstd::arithmetic::power2::pow2((n - 1) as nat) - 1) as nat,
            )
            &&& r == (GuideView { min_value: r.min_value, max_value: r.max_value, ..g })
        },
{
    reveal_strlit("A_UINT_32");
    reveal_strlit("A_INT_32");
    assert("A_UINT_32"@ != "A_INT_32"@) by {
        assert("A_UINT_32"@.len() != "A_INT_32"@.len());
    }
    lemma_pow2_is_power_of_two(n as nat);
    lemma_pow2_is_power_of_two((n - 1) as nat);
    lemma_pow2_mono(n as nat, 32);
    lemma_pow2_mono((n - 1) as nat, 32);
    lemma_pow2_32();
    let u = (pow2(n as nat) - 1) as nat;
    let h = pow2((n - 1) as nat);
    crate::text::lemma_padded_digits_parse(u, 10, 0, u64::MAX as nat);
    crate::text::lemma_padded_digits_parse(h, 10, 0, u64::MAX as nat);
    crate::text::lemma_padded_digits_parse((h - 1) as nat, 10, 0, u64::MAX as nat);
    assert(crate::text::pad_zeros(digits_in(u, 10), 0) == digits_in(u, 10));
    assert(crate::text::pad_zeros(digits_in(h, 10), 0) == digits_in(h, 10));
    assert(crate::text::pad_zeros(digits_in((h - 1) as nat, 10), 0) == digits_in((h - 1) as nat, 10));
    let m = signed_decimal(-h);
    assert(m == seq!['-'] + digits_in(h, 10));
    assert(m.drop_first() =~= digits_in(h, 10));
}

} // verus!

verus! {

/// How many bytes the member `kid` fixes (none when it is not fixed).
pub open spec fn fixed_len(data: Seq<u8>, kid: int) -> nat {
    match spec_fixed_param_bytes(data, kid) {
        Ok(Some(b)) => b.len(),
        _ => 0,
    }
}

/// How many bytes the first `n` members fix together.
pub open spec fn fixed_members_len(data: Seq<u8>, kids: Seq<int>, n: nat) -> nat
    decreases n,
{
    if n == 0 || n > kids.len() {
        0
    } else {
        fixed_members_len(data, kids, (n - 1) as nat) + fixed_len(data, kids[n - 1])
    }
}

/// How many bytes the pieces hold together.
pub open spec fn chunks_len(cs: Seq<(int, Seq<u8>)>) -> nat
    decreases cs.len(),
{
    if cs.len() == 0 {
        0
    } else {
        chunks_len(cs.drop_last()) + cs.last().1.len()
    }
}

proof fn lemma_insert_chunk_len(sorted: Seq<(int, Seq<u8>)>, x: (int, Seq<u8>))
    ensures
        chunks_len(insert_chunk(sorted, x)) == chunks_len(sorted) + x.1.len(),
    decreases sorted.len(),
{
    if sorted.len() == 0 {
        assert(seq![x].drop_last() =~= Seq::<(int, Seq<u8>)>::empty());
        assert(chunks_len(Seq::<(int, Seq<u8>)>::empty()) == 0);
        assert(chunks_len(seq![x]) == chunks_len(seq![x].drop_last()) + x.1.len());
    } else if sorted.last().0 <= x.0 {
        assert(sorted.push(x).drop_last() =~= sorted);
    } else {
        lemma_insert_chunk_len(sorted.drop_last(), x);
        let r = insert_chunk(sorted.drop_last(), x).push(sorted.last());
        assert(r.drop_last() =~= insert_chunk(sorted.drop_last(), x));
        assert(chunks_len(r) == chunks_len(r.drop_last()) + r.last().1.len());
        assert(chunks_len(sorted) == chunks_len(sorted.drop_last()) + sorted.last().1.len());
    }
}

proof fn lemma_sort_chunks_len(s: Seq<(int, Seq<u8>)>)
    ensures
        chunks_len(sort_chunks(s)) == chunks_len(s),
    decreases s.len(),
{
    if s.len() > 0 {
        lemma_sort_chunks_len(s.drop_last());
        lemma_insert_chunk_len(sort_chunks(s.drop_last()), s.last());
    }
}

proof fn lemma_flatten_len(s: Seq<(int, Seq<u8>)>)
    ensures
        flatten_chunks(s).len() == chunks_len(s),
    decreases s.len(),
{
    if s.len() > 0 {
        lemma_flatten_len(s.drop_last());
    }
}

proof fn lemma_fixed_chunks_members(data: Seq<u8>, kids: Seq<int>, n: nat, structure: int)
    requires
        n <= kids.len(),
    ensures
        spec_fixed_chunks(data, kids, n, structure) matches Ok(Some((cs, _))) ==> (forall|k: int|
            0 <= k < n ==> spec_fixed_param_bytes(data, #[trigger] kids[k]) matches Ok(Some(_)))
            && chunks_len(cs) == fixed_members_len(data, kids, n),
    decreases n,
{
    if n > 0 {
        lemma_fixed_chunks_members(data, kids, (n - 1) as nat, structure);
        if let Ok(Some((cs, _))) = spec_fixed_chunks(data, kids, n, structure) {
            let (pcs, _) = spec_fixed_chunks(data, kids, (n - 1) as nat, structure)->Ok_0->0;
            assert(cs.drop_last() =~= pcs);
        }
    }
}

/// A structure counts as fixed only when every one of its members is fixed,
/// and its fixed bytes are then as many as its members fix together.
pub proof fn lemma_fixed_structure_needs_every_member(data: Seq<u8>, structure: int)
    ensures
        spec_fixed_structure_bytes(data, structure) matches Ok(Some(b)) ==> (spec_fb_vector_tables(
            data,
            structure,
            0,
        ) matches Ok(kids) && kids.len() > 0 && (forall|k: int|
            0 <= k < kids.len() ==> spec_fixed_param_bytes(data, #[trigger] kids[k]) matches Ok(
                Some(_),
            )) && b.len() == fixed_members_len(data, kids, kids.len())),
{
    if let Ok(kids) = spec_fb_vector_tables(data, structure, 0) {
        lemma_fixed_chunks_members(data, kids, kids.len(), structure);
        if let Ok(Some((cs, _))) = spec_fixed_chunks(data, kids, kids.len(), structure) {
            lemma_sort_chunks_len(cs);
            lemma_flatten_len(sort_chunks(cs));
        }
    }
}

} // verus!
