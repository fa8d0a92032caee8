//! Diagnostic trouble code definitions found in the JSON rendering of an
//! MDD: every object with a `trouble_code`, its names and attributes, each
//! definition once, ordered by code.
use vstd::prelude::*;
use crate::decode::or_else;
use crate::text::{
    chars_eq, chars_to_string, digits_in, digits_padded, has_hex_prefix, pad_zeros, parse_unsigned,
    parse_unsigned_chars, str_chars, trim, trim_chars,
};

verus! {

/// A JSON number, as far as the definitions need it: an integer, or some
/// other number.
#[derive(Debug)]
pub enum JsonNumber {
    /// A non-negative integer.
    PosInt(u64),
    /// A negative integer.
    NegInt(i64),
    /// A number with a fraction or an exponent.
    Float,
}

/// A JSON value; an object's members are listed in the order they are
/// iterated, each key once.
#[derive(Debug)]
pub enum JsonValue {
    Null,
    Bool(bool),
    Number(JsonNumber),
    Str(String),
    Array(Vec<JsonValue>),
    Object(Vec<(String, JsonValue)>),
}

/// The value of the first member named `key`.
pub open spec fn member(entries: Seq<(String, JsonValue)>, key: Seq<char>) -> Option<JsonValue>
    decreases entries.len(),
{
    if entries.len() == 0 {
        None
    } else if entries[0].0@ == key {
        Some(entries[0].1)
    } else {
        member(entries.drop_first(), key)
    }
}

/// The value of the first member named `key`.
pub fn get_member<'a>(entries: &'a Vec<(String, JsonValue)>, key: &str) -> (r: Option<&'a JsonValue>)
    ensures
        match member(entries@, key@) {
            Some(v) => r matches Some(x) && *x == v,
            None => r is None,
        },
{
    let mut i: usize = 0;
    assert(entries@.skip(0) =~= entries@);
    while i < entries.len()
        invariant
            i <= entries@.len(),
            member(entries@, key@) == member(entries@.skip(i as int), key@),
        decreases entries@.len() - i,
    {
        assert(entries@.skip(i as int)[0] == entries@[i as int]);
        if chars_eq(&str_chars(entries[i].0.as_str()), &str_chars(key)) {
            return Some(&entries[i].1);
        }
        assert(entries@.skip(i as int).drop_first() =~= entries@.skip(i + 1));
        i += 1;
    }
    assert(entries@.skip(entries@.len() as int) =~= Seq::<(String, JsonValue)>::empty());
    None
}

/// A JSON value read as a `u32`: a non-negative integer that fits, or a
/// string holding a decimal or `0x`-prefixed hexadecimal number that fits.
pub open spec fn spec_json_to_u32(value: JsonValue) -> Option<u32> {
    match value {
        JsonValue::Number(JsonNumber::PosInt(n)) => if n <= u32::MAX {
            Some(n as u32)
        } else {
            None
        },
        JsonValue::Str(s) => {
            let t = trim(s@);
            match if has_hex_prefix(t) {
                parse_unsigned(t.skip(2), 16, u32::MAX as nat)
            } else {
                parse_unsigned(t, 10, u32::MAX as nat)
            } {
                Some(v) => Some(v as u32),
                None => None,
            }
        },
        _ => None,
    }
}

/// Reads a JSON value as a `u32`.
pub fn json_to_u32(value: &JsonValue) -> (r: Option<u32>)
    ensures
        r == spec_json_to_u32(*value),
{
    match value {
        JsonValue::Number(JsonNumber::PosInt(n)) => {
            if *n <= 0xFFFF_FFFF {
                Some(*n as u32)
            } else {
                None
            }
        },
        JsonValue::Str(s) => {
            let t = trim_chars(&str_chars(s.as_str()));
            let parsed = if t.len() >= 2 && t[0] == '0' && (t[1] == 'x' || t[1] == 'X') {
                let rest = vstd::slice::slice_subrange(t.as_slice(), 2, t.len());
                assert(rest@ =~= t@.skip(2));
                parse_unsigned_chars(rest, 16, 0xFFFF_FFFF)
            } else {
                parse_unsigned_chars(t.as_slice(), 10, 0xFFFF_FFFF)
            };
            match parsed {
                Some(v) => Some(v as u32),
                None => None,
            }
        },
        _ => None,
    }
}

/// A member's text: the member's own string, or the `value` string of an
/// object member; trimmed, and nothing when blank.
pub open spec fn spec_object_text_value(entries: Seq<(String, JsonValue)>, key: Seq<char>) -> Option<
    Seq<char>,
> {
    match member(entries, key) {
        None => None,
        Some(JsonValue::Str(s)) => if trim(s@).len() > 0 {
            Some(trim(s@))
        } else {
            None
        },
        Some(JsonValue::Object(inner)) => match member(inner@, "value"@) {
            Some(JsonValue::Str(s)) => if trim(s@).len() > 0 {
                Some(trim(s@))
            } else {
                None
            },
            _ => None,
        },
        _ => None,
    }
}

/// The text of the member `key` of an object.
pub fn object_text_value(entries: &Vec<(String, JsonValue)>, key: &str) -> (r: Option<String>)
    ensures
        crate::flatbuf::opt_view(r) == spec_object_text_value(entries@, key@),
{
    let value = match get_member(entries, key) {
        Some(v) => v,
        None => {
            return None;
        },
    };
    match value {
        JsonValue::Str(s) => {
            let t = trim_chars(&str_chars(s.as_str()));
            if t.len() > 0 {
                Some(chars_to_string(&t))
            } else {
                None
            }
        },
        JsonValue::Object(inner) => match get_member(inner, "value") {
            Some(JsonValue::Str(s)) => {
                let t = trim_chars(&str_chars(s.as_str()));
                if t.len() > 0 {
                    Some(chars_to_string(&t))
                } else {
                    None
                }
            },
            _ => None,
        },
        _ => None,
    }
}

/// One diagnostic trouble code definition.
#[derive(Debug)]
pub struct DtcDefinition {
    pub trouble_code: u32,
    pub code_hex: String,
    pub display_trouble_code: Option<String>,
    pub short_name: Option<String>,
    pub description: Option<String>,
    pub level: Option<u32>,
    pub is_temporary: Option<bool>,
}

/// A definition as text.
pub ghost struct DtcView {
    pub trouble_code: u32,
    pub code_hex: Seq<char>,
    pub display_trouble_code: Option<Seq<char>>,
    pub short_name: Option<Seq<char>>,
    pub description: Option<Seq<char>>,
    pub level: Option<u32>,
    pub is_temporary: Option<bool>,
}

impl View for DtcDefinition {
    type V = DtcView;

    open spec fn view(&self) -> DtcView {
        DtcView {
            trouble_code: self.trouble_code,
            code_hex: self.code_hex@,
            display_trouble_code: crate::flatbuf::opt_view(self.display_trouble_code),
            short_name: crate::flatbuf::opt_view(self.short_name),
            description: crate::flatbuf::opt_view(self.description),
            level: self.level,
            is_temporary: self.is_temporary,
        }
    }
}

/// The views of the definitions.
pub open spec fn dtcs_view(v: Seq<DtcDefinition>) -> Seq<DtcView> {
    v.map_values(|d: DtcDefinition| d@)
}

/// The definition an object gives, when it has a readable `trouble_code`.
pub open spec fn spec_object_dtc(entries: Seq<(String, JsonValue)>) -> Option<DtcView> {
    match member(entries, "trouble_code"@) {
        Some(v) => match spec_json_to_u32(v) {
            Some(code) => Some(
                DtcView {
                    trouble_code: code,
                    code_hex: pad_zeros(digits_in(code as nat, 16), 6),
                    display_trouble_code: spec_object_text_value(entries, "display_trouble_code"@),
                    short_name: spec_object_text_value(entries, "short_name"@),
                    description: match spec_object_text_value(entries, "text"@) {
                        Some(t) => Some(t),
                        None => match spec_object_text_value(entries, "description"@) {
                            Some(t) => Some(t),
                            None => spec_object_text_value(entries, "long_name"@),
                        },
                    },
                    level: match member(entries, "level"@) {
                        Some(l) => spec_json_to_u32(l),
                        None => None,
                    },
                    is_temporary: match member(entries, "is_temporary"@) {
                        Some(JsonValue::Bool(b)) => Some(b),
                        _ => None,
                    },
                },
            ),
            None => None,
        },
        None => None,
    }
}

/// The definitions in a JSON value, in document order: an object's own
/// definition first, then those in its members, in order; an array's in
/// its items, in order.
pub open spec fn spec_collect_dtcs(value: JsonValue) -> Seq<DtcView>
    decreases value, 1nat,
{
    match value {
        JsonValue::Object(entries) => {
            let own = match spec_object_dtc(entries@) {
                Some(d) => seq![d],
                None => Seq::empty(),
            };
            own + spec_collect_members(entries@, entries@.len())
        },
        JsonValue::Array(items) => spec_collect_items(items@, items@.len()),
        _ => Seq::empty(),
    }
}

/// The definitions in the values of the first `n` members.
pub open spec fn spec_collect_members(entries: Seq<(String, JsonValue)>, n: nat) -> Seq<DtcView>
    decreases entries, n,
{
    if n == 0 || n > entries.len() {
        Seq::empty()
    } else {
        spec_collect_members(entries, (n - 1) as nat) + spec_collect_dtcs(entries[n - 1].1)
    }
}

/// The definitions in the first `n` items.
pub open spec fn spec_collect_items(items: Seq<JsonValue>, n: nat) -> Seq<DtcView>
    decreases items, n,
{
    if n == 0 || n > items.len() {
        Seq::empty()
    } else {
        spec_collect_items(items, (n - 1) as nat) + spec_collect_dtcs(items[n - 1])
    }
}

} // verus!

verus! {

/// The definition an object gives, if any.
fn object_dtc(entries: &Vec<(String, JsonValue)>) -> (r: Option<DtcDefinition>)
    ensures
        match spec_object_dtc(entries@) {
            Some(d) => r matches Some(x) && x@ == d,
            None => r is None,
        },
{
    let code = match get_member(entries, "trouble_code") {
        Some(v) => match json_to_u32(v) {
            Some(c) => c,
            None => {
                return None;
            },
        },
        None => {
            return None;
        },
    };
    let code_hex = chars_to_string(&digits_padded(code as u64, 16, 6));
    let description = match object_text_value(entries, "text") {
        Some(t) => Some(t),
        None => match object_text_value(entries, "description") {
            Some(t) => Some(t),
            None => object_text_value(entries, "long_name"),
        },
    };
    let level = match get_member(entries, "level") {
        Some(l) => json_to_u32(l),
        None => None,
    };
    let is_temporary = match get_member(entries, "is_temporary") {
        Some(JsonValue::Bool(b)) => Some(*b),
        _ => None,
    };
    Some(
        DtcDefinition {
            trouble_code: code,
            code_hex,
            display_trouble_code: object_text_value(entries, "display_trouble_code"),
            short_name: object_text_value(entries, "short_name"),
            description,
            level,
            is_temporary,
        },
    )
}

/// Appends the definitions found in `value` to `out`, in document order.
pub fn collect_dtc_definitions(value: &JsonValue, out: &mut Vec<DtcDefinition>)
    ensures
        dtcs_view(final(out)@) == dtcs_view(old(out)@) + spec_collect_dtcs(*value),
    decreases value,
{
    match value {
        JsonValue::Object(entries) => {
            let ghost start = dtcs_view(out@);
            match object_dtc(entries) {
                Some(d) => {
                    let ghost before = out@;
                    out.push(d);
                    assert(dtcs_view(out@) =~= dtcs_view(before).push(d@));
                },
                None => {},
            }
            let ghost own = dtcs_view(out@);
            let mut i: usize = 0;
            assert(own =~= own + spec_collect_members(entries@, 0));
            while i < entries.len()
                invariant
                    i <= entries@.len(),
                    *value == JsonValue::Object(*entries),
                    dtcs_view(out@) == own + spec_collect_members(entries@, i as nat),
                decreases entries@.len() - i,
            {
                assert(decreases_to!(*value => (*value)->Object_0));
                assert((*value)->Object_0 == *entries);
                assert(decreases_to!(*entries => entries@));
                assert(decreases_to!(entries@ => entries@[i as int]));
                assert(decreases_to!(entries@[i as int] => entries@[i as int].1));
                assert(decreases_to!(*value => entries@[i as int].1));
                collect_dtc_definitions(&entries[i].1, out);
                assert(dtcs_view(out@) =~= own + spec_collect_members(entries@, (i + 1) as nat));
                i += 1;
            }
            assert(own =~= start + match spec_object_dtc(entries@) {
                Some(d) => seq![d],
                None => Seq::<DtcView>::empty(),
            });
            assert(dtcs_view(out@) =~= start + spec_collect_dtcs(*value));
        },
        JsonValue::Array(items) => {
            let ghost start = dtcs_view(out@);
            let mut i: usize = 0;
            assert(start =~= start + spec_collect_items(items@, 0));
            while i < items.len()
                invariant
                    i <= items@.len(),
                    *value == JsonValue::Array(*items),
                    dtcs_view(out@) == start + spec_collect_items(items@, i as nat),
                decreases items@.len() - i,
            {
                assert(decreases_to!(*value => (*value)->Array_0));
                assert((*value)->Array_0 == *items);
                assert(decreases_to!(*items => items@));
                assert(decreases_to!(items@ => items@[i as int]));
                assert(decreases_to!(*value => items@[i as int]));
                collect_dtc_definitions(&items[i], out);
                assert(dtcs_view(out@) =~= start + spec_collect_items(items@, (i + 1) as nat));
                i += 1;
            }
        },
        _ => {
            assert(dtcs_view(out@) =~= dtcs_view(out@) + Seq::<DtcView>::empty());
        },
    }
}

} // verus!

verus! {

/// What makes two definitions the same: code, short name and display code.
pub open spec fn dtc_key(d: DtcView) -> (u32, Option<Seq<char>>, Option<Seq<char>>) {
    (d.trouble_code, d.short_name, d.display_trouble_code)
}

/// The definitions with every repeat of an earlier one dropped.
pub open spec fn dedup_dtcs(s: Seq<DtcView>) -> Seq<DtcView>
    decreases s.len(),
{
    if s.len() == 0 {
        s
    } else if exists|j: int| 0 <= j < s.len() - 1 && dtc_key(#[trigger] s[j]) == dtc_key(s.last()) {
        dedup_dtcs(s.drop_last())
    } else {
        dedup_dtcs(s.drop_last()).push(s.last())
    }
}

/// Some definition of `s` is the same as `x`.
pub open spec fn dtc_key_in(s: Seq<DtcView>, x: DtcView) -> bool {
    exists|k: int| 0 <= k < s.len() && dtc_key(#[trigger] s[k]) == dtc_key(x)
}

/// Every one of the first `i` definitions has its like in `kv`, and every
/// definition of `kv` comes from one of them.
pub open spec fn same_dtcs(s: Seq<DtcView>, i: int, kv: Seq<DtcView>) -> bool {
    &&& forall|j: int| 0 <= j < i ==> dtc_key_in(kv, #[trigger] s[j])
    &&& forall|k: int| 0 <= k < kv.len() ==> dtc_key_in(s.take(i), #[trigger] kv[k])
}

proof fn lemma_dedup_dtcs_step(s: Seq<DtcView>, i: int, kv: Seq<DtcView>)
    requires
        0 <= i < s.len(),
        kv == dedup_dtcs(s.take(i)),
        same_dtcs(s, i, kv),
    ensures
        dtc_key_in(kv, s[i]) ==> dedup_dtcs(s.take(i + 1)) == kv && same_dtcs(s, i + 1, kv),
        !dtc_key_in(kv, s[i]) ==> dedup_dtcs(s.take(i + 1)) == kv.push(s[i]) && same_dtcs(
            s,
            i + 1,
            kv.push(s[i]),
        ),
{
    let t = s.take(i + 1);
    assert(t.drop_last() =~= s.take(i));
    assert(t.last() == s[i]);
    assert forall|k: int| 0 <= k < kv.len() && dtc_key_in(s.take(i), kv[k]) implies dtc_key_in(t, kv[k]) by {
        let j = choose|j: int| 0 <= j < s.take(i).len() && dtc_key(#[trigger] s.take(i)[j]) == dtc_key(kv[k]);
        assert(t[j] == s.take(i)[j]);
    }
    if dtc_key_in(kv, s[i]) {
        let m = choose|m: int| 0 <= m < kv.len() && dtc_key(#[trigger] kv[m]) == dtc_key(s[i]);
        assert(dtc_key_in(s.take(i), kv[m]));
        let j = choose|j: int| 0 <= j < s.take(i).len() && dtc_key(#[trigger] s.take(i)[j]) == dtc_key(kv[m]);
        assert(t[j] == s.take(i)[j]);
        assert(0 <= j < t.len() - 1 && dtc_key(t[j]) == dtc_key(t.last()));
    } else {
        assert forall|j: int| 0 <= j < t.len() - 1 implies dtc_key(#[trigger] t[j]) != dtc_key(t.last()) by {
            assert(t[j] == s[j]);
            assert(dtc_key_in(kv, s[j]));
            if dtc_key(s[j]) == dtc_key(s[i]) {
                let m = choose|m: int| 0 <= m < kv.len() && dtc_key(#[trigger] kv[m]) == dtc_key(s[j]);
                assert(dtc_key(kv[m]) == dtc_key(s[i]));
            }
        }
        let kv2 = kv.push(s[i]);
        assert forall|j: int| 0 <= j < i + 1 implies dtc_key_in(kv2, #[trigger] s[j]) by {
            if j < i {
                assert(dtc_key_in(kv, s[j]));
                let k0 = choose|k: int| 0 <= k < kv.len() && dtc_key(#[trigger] kv[k]) == dtc_key(s[j]);
                assert(kv2[k0] == kv[k0]);
            } else {
                assert(kv2[kv.len() as int] == s[j]);
            }
        }
        assert forall|k: int| 0 <= k < kv2.len() implies dtc_key_in(t, #[trigger] kv2[k]) by {
            if k < kv.len() {
                assert(kv2[k] == kv[k]);
            } else {
                assert(t[i] == s[i]);
            }
        }
    }
}

fn same_dtc(a: &DtcDefinition, b: &DtcDefinition) -> (r: bool)
    ensures
        r == (dtc_key(a@) == dtc_key(b@)),
{
    let short_same = match (&a.short_name, &b.short_name) {
        (Some(x), Some(y)) => *x == *y,
        (None, None) => true,
        _ => false,
    };
    let display_same = match (&a.display_trouble_code, &b.display_trouble_code) {
        (Some(x), Some(y)) => *x == *y,
        (None, None) => true,
        _ => false,
    };
    a.trouble_code == b.trouble_code && short_same && display_same
}

/// Drops every definition that repeats an earlier one's code, short name
/// and display code.
pub fn dedup_dtc_list(defs: Vec<DtcDefinition>) -> (r: Vec<DtcDefinition>)
    ensures
        dtcs_view(r@) == dedup_dtcs(dtcs_view(defs@)),
{
    let ghost s = dtcs_view(defs@);
    let n = defs.len();
    let mut rest = crate::mdd::reverse_vec(defs);
    let mut kept: Vec<DtcDefinition> = Vec::new();
    let mut i: usize = 0;
    assert(s.take(0) =~= Seq::<DtcView>::empty());
    assert(dtcs_view(kept@) =~= Seq::<DtcView>::empty());
    while i < n
        invariant
            i <= n == s.len(),
            rest@.len() == n - i,
            forall|k: int| 0 <= k < rest@.len() ==> (#[trigger] rest@[k])@ == s[n - 1 - k],
            dtcs_view(kept@) == dedup_dtcs(s.take(i as int)),
            same_dtcs(s, i as int, dtcs_view(kept@)),
        decreases n - i,
    {
        let ghost kv = dtcs_view(kept@);
        let ghost last = rest@.len() - 1;
        assert(rest@[last]@ == s[i as int]);
        proof {
            lemma_dedup_dtcs_step(s, i as int, kv);
        }
        if let Some(x) = rest.pop() {
            let mut found = false;
            let mut k: usize = 0;
            while k < kept.len()
                invariant
                    k <= kept@.len(),
                    kv == dtcs_view(kept@),
                    found ==> dtc_key_in(kv, x@),
                    !found ==> forall|m: int| 0 <= m < k ==> dtc_key(#[trigger] kv[m]) != dtc_key(x@),
                decreases kept@.len() - k,
            {
                if same_dtc(&kept[k], &x) {
                    assert(kv[k as int] == kept@[k as int]@);
                    found = true;
                }
                k += 1;
            }
            if !found {
                kept.push(x);
                assert(dtcs_view(kept@) =~= kv.push(x@));
            }
        }
        i += 1;
    }
    assert(s.take(n as int) =~= s);
    kept
}

/// `x` inserted after every definition whose code is not above its own:
/// one step of a stable sort by code.
pub open spec fn insert_dtc(sorted: Seq<DtcView>, x: DtcView) -> Seq<DtcView>
    decreases sorted.len(),
{
    if sorted.len() == 0 {
        seq![x]
    } else if sorted.last().trouble_code <= x.trouble_code {
        sorted.push(x)
    } else {
        insert_dtc(sorted.drop_last(), x).push(sorted.last())
    }
}

/// The definitions stably sorted by code.
pub open spec fn sort_dtcs(s: Seq<DtcView>) -> Seq<DtcView>
    decreases s.len(),
{
    if s.len() == 0 {
        s
    } else {
        insert_dtc(sort_dtcs(s.drop_last()), s.last())
    }
}

fn insert_dtc_sorted(sorted: &mut Vec<DtcDefinition>, x: DtcDefinition)
    ensures
        dtcs_view(final(sorted)@) == insert_dtc(dtcs_view(old(sorted)@), x@),
{
    let ghost s = dtcs_view(old(sorted)@);
    let ghost xv = x@;
    let mut j: usize = sorted.len();
    assert(s.take(j as int) =~= s);
    assert(s.skip(j as int) =~= Seq::<DtcView>::empty());
    while j > 0 && sorted[j - 1].trouble_code > x.trouble_code
        invariant
            j <= sorted@.len(),
            sorted@ == old(sorted)@,
            s == dtcs_view(old(sorted)@),
            xv == x@,
            insert_dtc(s, xv) == insert_dtc(s.take(j as int), xv) + s.skip(j as int),
        decreases j,
    {
        let ghost t = s.take(j as int);
        assert(t.last() == s[j - 1]);
        assert(t.drop_last() =~= s.take(j - 1));
        assert(s.skip(j - 1) =~= seq![s[j - 1]] + s.skip(j as int));
        assert(insert_dtc(t, xv) == insert_dtc(s.take(j - 1), xv).push(s[j - 1]));
        assert(insert_dtc(s.take(j - 1), xv).push(s[j - 1]) + s.skip(j as int) =~= insert_dtc(
            s.take(j - 1),
            xv,
        ) + s.skip(j - 1));
        j -= 1;
    }
    sorted.insert(j, x);
    proof {
        let t = s.take(j as int);
        if j > 0 {
            assert(t.last() == s[j - 1]);
            assert(insert_dtc(t, xv) == t.push(xv));
        } else {
            assert(insert_dtc(t, xv) == seq![xv]);
        }
        assert(dtcs_view(final(sorted)@) =~= t.push(xv) + s.skip(j as int));
    }
}

/// Sorts definitions by code, keeping the order of equal codes.
pub fn sort_dtc_list(defs: Vec<DtcDefinition>) -> (r: Vec<DtcDefinition>)
    ensures
        dtcs_view(r@) == sort_dtcs(dtcs_view(defs@)),
{
    let ghost s = dtcs_view(defs@);
    let n = defs.len();
    let mut rest = crate::mdd::reverse_vec(defs);
    let mut sorted: Vec<DtcDefinition> = Vec::new();
    let mut i: usize = 0;
    assert(s.take(0) =~= Seq::<DtcView>::empty());
    assert(dtcs_view(sorted@) =~= Seq::<DtcView>::empty());
    while i < n
        invariant
            i <= n == s.len(),
            rest@.len() == n - i,
            forall|k: int| 0 <= k < rest@.len() ==> (#[trigger] rest@[k])@ == s[n - 1 - k],
            dtcs_view(sorted@) == sort_dtcs(s.take(i as int)),
        decreases n - i,
    {
        let ghost last = rest@.len() - 1;
        assert(rest@[last]@ == s[i as int]);
        if let Some(x) = rest.pop() {
            assert(s.take(i + 1).drop_last() =~= s.take(i as int));
            assert(s.take(i + 1).last() == x@);
            insert_dtc_sorted(&mut sorted, x);
        }
        i += 1;
    }
    assert(s.take(n as int) =~= s);
    sorted
}

/// The definitions a JSON rendering of an MDD holds: in document order, each
/// once (by code, short name and display code), then stably sorted by code.
pub fn dtc_definitions_from_json(value: &JsonValue) -> (r: Vec<DtcDefinition>)
    ensures
        dtcs_view(r@) == sort_dtcs(dedup_dtcs(spec_collect_dtcs(*value))),
{
    let mut definitions: Vec<DtcDefinition> = Vec::new();
    collect_dtc_definitions(value, &mut definitions);
    assert(dtcs_view(definitions@) =~= spec_collect_dtcs(*value));
    let unique = dedup_dtc_list(definitions);
    sort_dtc_list(unique)
}

/// Inserting into a list sorted by code keeps it sorted and keeps its
/// items, with the new one.
pub proof fn lemma_insert_dtc_sorted(sorted: Seq<DtcView>, x: DtcView)
    requires
        forall|i: int, j: int| 0 <= i < j < sorted.len() ==> (#[trigger] sorted[i]).trouble_code <= (#[trigger] sorted[j]).trouble_code,
    ensures
        forall|i: int, j: int| 0 <= i < j < insert_dtc(sorted, x).len() ==> (#[trigger] insert_dtc(sorted, x)[i]).trouble_code <= (#[trigger] insert_dtc(sorted, x)[j]).trouble_code,
        insert_dtc(sorted, x).to_multiset() == sorted.to_multiset().insert(x),
    decreases sorted.len(),
{
    broadcast use vstd::seq_lib::group_to_multiset_ensures;
    if sorted.len() == 0 {
        assert(seq![x] =~= Seq::<DtcView>::empty().push(x));
    } else if sorted.last().trouble_code <= x.trouble_code {
    } else {
        let init = sorted.drop_last();
        lemma_insert_dtc_sorted(init, x);
        let ins = insert_dtc(init, x);
        assert(sorted =~= init.push(sorted.last()));
        assert forall|i: int, j: int| 0 <= i < j < ins.push(sorted.last()).len() implies (#[trigger] ins.push(sorted.last())[i]).trouble_code <= (#[trigger] ins.push(sorted.last())[j]).trouble_code by {
            if j == ins.len() {
                let v = ins[i];
                assert(ins.to_multiset().count(v) > 0);
                assert(init.to_multiset().insert(x).count(v) > 0);
                if v != x {
                    assert(init.to_multiset().count(v) > 0);
                    assert(init.contains(v));
                    let k = choose|k: int| 0 <= k < init.len() && init[k] == v;
                    assert(sorted[k] == v);
                }
            } else {
                assert(ins.push(sorted.last())[i] == ins[i]);
                assert(ins.push(sorted.last())[j] == ins[j]);
            }
        }
    }
}

/// The definitions are listed by ascending code, and every definition is
/// kept, as often as it occurs.
pub proof fn lemma_sort_dtcs(s: Seq<DtcView>)
    ensures
        forall|i: int, j: int| 0 <= i < j < sort_dtcs(s).len() ==> (#[trigger] sort_dtcs(s)[i]).trouble_code <= (#[trigger] sort_dtcs(s)[j]).trouble_code,
        sort_dtcs(s).to_multiset() == s.to_multiset(),
    decreases s.len(),
{
    broadcast use vstd::seq_lib::group_to_multiset_ensures;
    if s.len() > 0 {
        lemma_sort_dtcs(s.drop_last());
        lemma_insert_dtc_sorted(sort_dtcs(s.drop_last()), s.last());
        assert(s =~= s.drop_last().push(s.last()));
    }
}

} // verus!
