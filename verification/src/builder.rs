//! What the UDS builder shows of the services of an MDD: the ECU variants,
//! the service families by identifier, and the selection by ECU and family.
use vstd::prelude::*;
use crate::decode::or_else;
use crate::service::extends;
use crate::text::{
    chars_eq, eq_ignore_ascii_case, eq_ignore_case, parse_unsigned, parse_unsigned_chars,
    str_chars, trim, trim_chars, chars_to_string,
};
use crate::error::DecodeError;
use crate::mdd::{parse_uds_services_from_mdd, same_error, spec_parse_uds_services_from_mdd};
use crate::uds::{services_view, ServiceView, UdsMddService};

verus! {

/// `a` comes strictly before `b` in the order of `str`: character by
/// character, by code point, a proper prefix first.
pub open spec fn lex_lt(a: Seq<char>, b: Seq<char>) -> bool
    decreases a.len(),
{
    if a.len() == 0 {
        b.len() > 0
    } else if b.len() == 0 {
        false
    } else if a[0] != b[0] {
        a[0] < b[0]
    } else {
        lex_lt(a.drop_first(), b.drop_first())
    }
}

/// No text comes before itself, and of two texts at most one comes first.
pub proof fn lemma_lex_lt_asymmetric(a: Seq<char>, b: Seq<char>)
    ensures
        lex_lt(a, b) ==> !lex_lt(b, a),
    decreases a.len(),
{
    if a.len() > 0 && b.len() > 0 && a[0] == b[0] {
        lemma_lex_lt_asymmetric(a.drop_first(), b.drop_first());
    }
}

/// Of two different texts, one comes first.
pub proof fn lemma_lex_lt_total(a: Seq<char>, b: Seq<char>)
    ensures
        a != b ==> lex_lt(a, b) || lex_lt(b, a),
    decreases a.len(),
{
    if a.len() > 0 && b.len() > 0 && a[0] == b[0] {
        lemma_lex_lt_total(a.drop_first(), b.drop_first());
        if a.drop_first() == b.drop_first() {
            assert(a =~= seq![a[0]] + a.drop_first());
            assert(b =~= seq![b[0]] + b.drop_first());
        }
    } else if a.len() == 0 && b.len() == 0 {
        assert(a =~= b);
    }
}

/// The order of texts is transitive.
pub proof fn lemma_lex_lt_transitive(a: Seq<char>, b: Seq<char>, c: Seq<char>)
    requires
        lex_lt(a, b),
        lex_lt(b, c),
    ensures
        lex_lt(a, c),
    decreases a.len(),
{
    if a.len() > 0 && b.len() > 0 && c.len() > 0 && a[0] == b[0] && b[0] == c[0] {
        lemma_lex_lt_transitive(a.drop_first(), b.drop_first(), c.drop_first());
    }
}

/// Whether `a` comes strictly before `b` in the order of `str`.
pub fn lex_less(a: &[char], b: &[char]) -> (r: bool)
    ensures
        r == lex_lt(a@, b@),
{
    let mut i: usize = 0;
    assert(a@.skip(0) =~= a@);
    assert(b@.skip(0) =~= b@);
    while i < a.len() && i < b.len() && a[i] == b[i]
        invariant
            i <= a@.len(),
            i <= b@.len(),
            lex_lt(a@, b@) == lex_lt(a@.skip(i as int), b@.skip(i as int)),
        decreases a@.len() - i,
    {
        assert(a@.skip(i as int).drop_first() =~= a@.skip(i + 1));
        assert(b@.skip(i as int).drop_first() =~= b@.skip(i + 1));
        i += 1;
    }
    if i == a.len() {
        i < b.len()
    } else if i == b.len() {
        false
    } else {
        a[i] < b[i]
    }
}

/// Each text comes strictly before every later one.
pub open spec fn strictly_sorted(s: Seq<Seq<char>>) -> bool {
    forall|i: int, j: int| 0 <= i < j < s.len() ==> lex_lt(#[trigger] s[i], #[trigger] s[j])
}

/// The characters of each text.
pub open spec fn strings_view(v: Seq<String>) -> Seq<Seq<char>> {
    v.map_values(|s: String| s@)
}

/// Adds `name` to a strictly sorted list of texts, unless it is there.
pub fn insert_sorted_unique(names: &mut Vec<String>, name: String)
    requires
        strictly_sorted(strings_view(old(names)@)),
    ensures
        strictly_sorted(strings_view(final(names)@)),
        forall|x: Seq<char>| #![trigger strings_view(final(names)@).contains(x)]
            strings_view(final(names)@).contains(x) <==> (strings_view(old(names)@).contains(x) || x
                == name@),
{
    let ghost old_v = strings_view(names@);
    let nc = str_chars(name.as_str());
    let mut p: usize = 0;
    while p < names.len() && lex_less(&str_chars(names[p].as_str()), &nc)
        invariant
            p <= names@.len(),
            names@ == old(names)@,
            old_v == strings_view(names@),
            nc@ == name@,
            forall|i: int| 0 <= i < p ==> lex_lt(#[trigger] old_v[i], name@),
        decreases names@.len() - p,
    {
        p += 1;
    }
    if p < names.len() && chars_eq(&str_chars(names[p].as_str()), &nc) {
        assert(old_v[p as int] == name@);
        return;
    }
    proof {
        if p < names@.len() {
            lemma_lex_lt_total(old_v[p as int], name@);
        }
    }
    names.insert(p, name);
    proof {
        let nv = strings_view(names@);
        assert(nv =~= old_v.insert(p as int, name@));
        assert forall|i: int, j: int| 0 <= i < j < nv.len() implies lex_lt(#[trigger] nv[i], #[trigger] nv[j]) by {
            if j < p {
            } else if j == p {
            } else if i <= p {
                assert(nv[j] == old_v[j - 1]);
                if j - 1 > p {
                    lemma_lex_lt_transitive(name@, old_v[p as int], old_v[j - 1]);
                }
                assert(lex_lt(name@, old_v[j - 1]));
                if i < p {
                    lemma_lex_lt_transitive(old_v[i], name@, old_v[j - 1]);
                }
            } else {
                assert(nv[i] == old_v[i - 1]);
                assert(nv[j] == old_v[j - 1]);
            }
        }
        assert forall|x: Seq<char>| #![trigger nv.contains(x)] nv.contains(x) <==> (old_v.contains(x) || x == name@) by {
            if nv.contains(x) {
                let k = choose|k: int| 0 <= k < nv.len() && nv[k] == x;
                if k < p {
                    assert(old_v[k] == x);
                } else if k > p {
                    assert(old_v[k - 1] == x);
                }
            }
            if old_v.contains(x) {
                let k = choose|k: int| 0 <= k < old_v.len() && old_v[k] == x;
                if k < p {
                    assert(nv[k] == x);
                } else {
                    assert(nv[k + 1] == x);
                }
            }
            if x == name@ {
                assert(nv[p as int] == x);
            }
        }
    }
}

/// Some service is attributed to the ECU variant `name` (ignoring
/// surrounding whitespace); `name` is not empty.
pub open spec fn names_ecu(services: Seq<ServiceView>, name: Seq<char>) -> bool {
    name.len() > 0 && exists|i: int| 0 <= i < services.len() && trim(#[trigger] services[i].source_ecu) == name
}

/// `names` lists the ECU variants of `services` once each, in the order of `str`.
pub open spec fn is_ecu_name_list(names: Seq<Seq<char>>, services: Seq<ServiceView>) -> bool {
    &&& strictly_sorted(names)
    &&& forall|x: Seq<char>| #![trigger names.contains(x)] names.contains(x) <==> names_ecu(services, x)
}

/// The ECU variants the services are attributed to: trimmed, non-empty,
/// each once, in the order of `str`.
pub fn uds_ecu_names_for_services(services: &[UdsMddService]) -> (r: Vec<String>)
    ensures
        is_ecu_name_list(strings_view(r@), services_view(services@)),
{
    let ghost sv = services_view(services@);
    let mut names: Vec<String> = Vec::new();
    let mut i: usize = 0;
    assert(strings_view(names@) =~= Seq::<Seq<char>>::empty());
    while i < services.len()
        invariant
            i <= services@.len(),
            sv == services_view(services@),
            strictly_sorted(strings_view(names@)),
            forall|x: Seq<char>| #![trigger strings_view(names@).contains(x)]
                strings_view(names@).contains(x) <==> names_ecu(sv.take(i as int), x),
        decreases services@.len() - i,
    {
        let t = trim_chars(&str_chars(services[i].source_ecu.as_str()));
        let ghost prev = strings_view(names@);
        assert(sv[i as int].source_ecu == services@[i as int].source_ecu@);
        if t.len() > 0 {
            insert_sorted_unique(&mut names, chars_to_string(&t));
        }
        proof {
            let now = strings_view(names@);
            assert forall|x: Seq<char>| #![trigger now.contains(x)] now.contains(x) <==> names_ecu(sv.take(i + 1), x) by {
                if names_ecu(sv.take(i as int), x) {
                    let k = choose|k: int| 0 <= k < sv.take(i as int).len() && trim(#[trigger] sv.take(i as int)[k].source_ecu) == x;
                    assert(sv.take(i + 1)[k] == sv.take(i as int)[k]);
                }
                if names_ecu(sv.take(i + 1), x) {
                    let k = choose|k: int| 0 <= k < sv.take(i + 1).len() && trim(#[trigger] sv.take(i + 1)[k].source_ecu) == x;
                    if k < i {
                        assert(sv.take(i as int)[k] == sv.take(i + 1)[k]);
                    }
                }
                if t@.len() > 0 && x == t@ {
                    assert(sv.take(i + 1)[i as int] == sv[i as int]);
                }
            }
        }
        i += 1;
    }
    assert(sv.take(services@.len() as int) =~= sv);
    names
}

/// Two lists of the ECU variants of the same services are the same list.
pub proof fn lemma_ecu_name_list_unique(a: Seq<Seq<char>>, b: Seq<Seq<char>>, services: Seq<ServiceView>)
    requires
        is_ecu_name_list(a, services),
        is_ecu_name_list(b, services),
    ensures
        a == b,
    decreases a.len() + b.len(),
{
    if a.len() == 0 || b.len() == 0 {
        if a.len() > 0 {
            assert(a.contains(a[0]));
            assert(b.contains(a[0]));
        }
        if b.len() > 0 {
            assert(b.contains(b[0]));
            assert(a.contains(b[0]));
        }
        assert(a =~= b);
    } else {
        lemma_sorted_sets_equal(a, b);
    }
}

proof fn lemma_sorted_sets_equal(a: Seq<Seq<char>>, b: Seq<Seq<char>>)
    requires
        strictly_sorted(a),
        strictly_sorted(b),
        forall|x: Seq<char>| a.contains(x) <==> b.contains(x),
    ensures
        a == b,
    decreases a.len() + b.len(),
{
    if a.len() > 0 && b.len() > 0 {
        assert(a.contains(a[0]));
        let j = choose|j: int| 0 <= j < b.len() && b[j] == a[0];
        assert(b.contains(b[0]));
        let i = choose|i: int| 0 <= i < a.len() && a[i] == b[0];
        if j > 0 {
            assert(lex_lt(b[0], b[j]));
            if i > 0 {
                assert(lex_lt(a[0], a[i]));
                lemma_lex_lt_asymmetric(a[0], b[0]);
            } else {
                lemma_lex_lt_asymmetric(b[0], b[0]);
            }
        }
        assert(a[0] == b[0]);
        let a2 = a.drop_first();
        let b2 = b.drop_first();
        assert forall|x: Seq<char>| a2.contains(x) <==> b2.contains(x) by {
            if a2.contains(x) {
                let k = choose|k: int| 0 <= k < a2.len() && a2[k] == x;
                assert(a[k + 1] == x);
                assert(lex_lt(a[0], a[k + 1]));
                lemma_lex_lt_asymmetric(a[0], x);
                assert(b.contains(x));
                let m = choose|m: int| 0 <= m < b.len() && b[m] == x;
                if m == 0 {
                    lemma_lex_lt_asymmetric(x, x);
                }
                assert(b2[m - 1] == x);
            }
            if b2.contains(x) {
                let k = choose|k: int| 0 <= k < b2.len() && b2[k] == x;
                assert(b[k + 1] == x);
                assert(lex_lt(b[0], b[k + 1]));
                assert(a.contains(x));
                let m = choose|m: int| 0 <= m < a.len() && a[m] == x;
                if m == 0 {
                    lemma_lex_lt_asymmetric(x, x);
                }
                assert(a2[m - 1] == x);
            }
        }
        lemma_sorted_sets_equal(a2, b2);
        assert(a =~= seq![a[0]] + a2);
        assert(b =~= seq![b[0]] + b2);
    } else if a.len() > 0 {
        assert(a.contains(a[0]));
    } else if b.len() > 0 {
        assert(b.contains(b[0]));
    } else {
        assert(a =~= b);
    }
}

} // verus!

verus! {

/// The name of the UDS service family with identifier `sid` (two hex digits).
pub open spec fn spec_family_name(sid: Seq<char>) -> Seq<char> {
    if sid == "10"@ {
        "DiagnosticSessionControl"@
    } else if sid == "11"@ {
        "ECUReset"@
    } else if sid == "14"@ {
        "ClearDiagnosticInformation"@
    } else if sid == "19"@ {
        "ReadDTCInformation"@
    } else if sid == "22"@ {
        "ReadDataByIdentifier"@
    } else if sid == "23"@ {
        "ReadMemoryByAddress"@
    } else if sid == "27"@ {
        "SecurityAccess"@
    } else if sid == "28"@ {
        "CommunicationControl"@
    } else if sid == "2E"@ {
        "WriteDataByIdentifier"@
    } else if sid == "2F"@ {
        "InputOutputControlByIdentifier"@
    } else if sid == "31"@ {
        "RoutineControl"@
    } else if sid == "34"@ {
        "RequestDownload"@
    } else if sid == "35"@ {
        "RequestUpload"@
    } else if sid == "36"@ {
        "TransferData"@
    } else if sid == "37"@ {
        "RequestTransferExit"@
    } else if sid == "3D"@ {
        "WriteMemoryByAddress"@
    } else if sid == "3E"@ {
        "TesterPresent"@
    } else if sid == "85"@ {
        "ControlDTCSetting"@
    } else {
        "UDS service"@
    }
}

/// Names the UDS service family of a service identifier.
pub fn uds_family_name_rust(sid: &str) -> (r: &'static str)
    ensures
        r@ == spec_family_name(sid@),
{
    let s = str_chars(sid);
    if chars_eq(&s, &str_chars("10")) {
        "DiagnosticSessionControl"
    } else if chars_eq(&s, &str_chars("11")) {
        "ECUReset"
    } else if chars_eq(&s, &str_chars("14")) {
        "ClearDiagnosticInformation"
    } else if chars_eq(&s, &str_chars("19")) {
        "ReadDTCInformation"
    } else if chars_eq(&s, &str_chars("22")) {
        "ReadDataByIdentifier"
    } else if chars_eq(&s, &str_chars("23")) {
        "ReadMemoryByAddress"
    } else if chars_eq(&s, &str_chars("27")) {
        "SecurityAccess"
    } else if chars_eq(&s, &str_chars("28")) {
        "CommunicationControl"
    } else if chars_eq(&s, &str_chars("2E")) {
        "WriteDataByIdentifier"
    } else if chars_eq(&s, &str_chars("2F")) {
        "InputOutputControlByIdentifier"
    } else if chars_eq(&s, &str_chars("31")) {
        "RoutineControl"
    } else if chars_eq(&s, &str_chars("34")) {
        "RequestDownload"
    } else if chars_eq(&s, &str_chars("35")) {
        "RequestUpload"
    } else if chars_eq(&s, &str_chars("36")) {
        "TransferData"
    } else if chars_eq(&s, &str_chars("37")) {
        "RequestTransferExit"
    } else if chars_eq(&s, &str_chars("3D")) {
        "WriteMemoryByAddress"
    } else if chars_eq(&s, &str_chars("3E")) {
        "TesterPresent"
    } else if chars_eq(&s, &str_chars("85")) {
        "ControlDTCSetting"
    } else {
        "UDS service"
    }
}

/// One family of services sharing a service identifier.
#[derive(Debug)]
pub struct UdsBuilderFamilySummary {
    pub sid_hex: String,
    pub name: String,
    pub option_count: usize,
}

/// What the builder shows of an MDD before a service is chosen.
#[derive(Debug)]
pub struct UdsBuilderMddSummary {
    pub service_count: usize,
    pub family_count: usize,
    pub families: Vec<UdsBuilderFamilySummary>,
    pub ecu_names: Vec<String>,
}

/// How many of the services have the identifier `sid`.
pub open spec fn sid_count(services: Seq<ServiceView>, sid: Seq<char>) -> nat {
    services.filter(|s: ServiceView| s.sid_hex == Some(sid)).len()
}

/// Some service has the identifier `sid`.
pub open spec fn has_sid(services: Seq<ServiceView>, sid: Seq<char>) -> bool {
    exists|i: int| 0 <= i < services.len() && (#[trigger] services[i]).sid_hex == Some(sid)
}

/// The position of a family in the summary: its identifier read as a
/// hexadecimal byte, or 0xFF when it is not one.
pub open spec fn family_key(sid: Seq<char>) -> nat {
    or_else(parse_unsigned(sid, 16, 255), 255)
}

/// `families` has one entry per service identifier in use, with its name and
/// the number of services using it, ordered by the identifier's value.
pub open spec fn is_family_list(families: Seq<UdsBuilderFamilySummary>, services: Seq<ServiceView>) -> bool {
    &&& forall|i: int| 0 <= i < families.len() ==> {
        let f = #[trigger] families[i];
        &&& has_sid(services, f.sid_hex@)
        &&& f.option_count == sid_count(services, f.sid_hex@)
        &&& f.name@ == spec_family_name(f.sid_hex@)
    }
    &&& forall|sid: Seq<char>| has_sid(services, sid) ==> exists|i: int| 0 <= i < families.len() && (#[trigger] families[i]).sid_hex@ == sid
    &&& forall|i: int, j: int| 0 <= i < j < families.len() ==> (#[trigger] families[i]).sid_hex@ != (#[trigger] families[j]).sid_hex@
    &&& forall|i: int, j: int| 0 <= i < j < families.len() ==> family_key((#[trigger] families[i]).sid_hex@) <= family_key((#[trigger] families[j]).sid_hex@)
}

/// `x` occurs in `s`.
pub open spec fn index_listed(s: Seq<usize>, x: int) -> bool {
    exists|a: int| 0 <= a < s.len() && #[trigger] s[a] == x
}

/// The value used to order a family.
fn family_order(sid: &String) -> (r: u64)
    ensures
        r == family_key(sid@),
{
    match parse_unsigned_chars(str_chars(sid.as_str()).as_slice(), 16, 255) {
        Some(v) => v,
        None => 255,
    }
}

proof fn lemma_sid_count_step(s: Seq<ServiceView>, i: int, sid: Seq<char>)
    requires
        0 <= i < s.len(),
    ensures
        sid_count(s.take(i + 1), sid) == sid_count(s.take(i), sid) + if s[i].sid_hex == Some(sid) {
            1int
        } else {
            0int
        },
{
    assert(s.take(i + 1).drop_last() =~= s.take(i));
    reveal(Seq::filter);
}

proof fn lemma_sid_count_zero(s: Seq<ServiceView>, sid: Seq<char>)
    requires
        !has_sid(s, sid),
    ensures
        sid_count(s, sid) == 0,
    decreases s.len(),
{
    reveal(Seq::filter);
    if s.len() > 0 {
        assert forall|i: int| 0 <= i < s.drop_last().len() implies (#[trigger] s.drop_last()[i]).sid_hex != Some(sid) by {
            assert(s.drop_last()[i] == s[i]);
        }
        lemma_sid_count_zero(s.drop_last(), sid);
        assert(s[s.len() - 1].sid_hex != Some(sid));
    }
}

/// The service identifiers in use, in order of first use, and how many
/// services use each.
fn count_sids(services: &[UdsMddService]) -> (r: (Vec<String>, Vec<usize>))
    ensures
        r.0@.len() == r.1@.len(),
        forall|k: int| 0 <= k < r.0@.len() ==> has_sid(services_view(services@), #[trigger] r.0@[k]@),
        forall|k: int| 0 <= k < r.0@.len() ==> #[trigger] r.1@[k] == sid_count(services_view(services@), r.0@[k]@),
        forall|sid: Seq<char>| has_sid(services_view(services@), sid) ==> exists|k: int| 0 <= k < r.0@.len() && (#[trigger] r.0@[k])@ == sid,
        forall|a: int, b: int| 0 <= a < b < r.0@.len() ==> (#[trigger] r.0@[a])@ != (#[trigger] r.0@[b])@,
{
    let ghost sv = services_view(services@);
    let mut sids: Vec<String> = Vec::new();
    let mut counts: Vec<usize> = Vec::new();
    let mut i: usize = 0;
    while i < services.len()
        invariant
            i <= services@.len(),
            sv == services_view(services@),
            sids@.len() == counts@.len(),
            forall|k: int| 0 <= k < sids@.len() ==> has_sid(sv.take(i as int), #[trigger] sids@[k]@),
            forall|k: int| 0 <= k < sids@.len() ==> #[trigger] counts@[k] == sid_count(sv.take(i as int), sids@[k]@),
            forall|k: int| 0 <= k < sids@.len() ==> #[trigger] counts@[k] <= i,
            forall|sid: Seq<char>| has_sid(sv.take(i as int), sid) ==> exists|k: int| 0 <= k < sids@.len() && (#[trigger] sids@[k])@ == sid,
            forall|a: int, b: int| 0 <= a < b < sids@.len() ==> (#[trigger] sids@[a])@ != (#[trigger] sids@[b])@,
        decreases services@.len() - i,
    {
        assert(sv[i as int] == services@[i as int]@);
        let ghost t0 = sv.take(i as int);
        let ghost t1 = sv.take(i + 1);
        proof {
            assert forall|sid: Seq<char>| #[trigger] sid_count(t1, sid) == sid_count(t0, sid) + if sv[i as int].sid_hex == Some(sid) { 1int } else { 0int } by {
                lemma_sid_count_step(sv, i as int, sid);
            }
            assert forall|sid: Seq<char>| has_sid(t0, sid) implies has_sid(t1, sid) by {
                let k = choose|k: int| 0 <= k < t0.len() && (#[trigger] t0[k]).sid_hex == Some(sid);
                assert(t1[k] == t0[k]);
            }
            assert forall|sid: Seq<char>| has_sid(t1, sid) && sv[i as int].sid_hex != Some(sid) implies has_sid(t0, sid) by {
                let k = choose|k: int| 0 <= k < t1.len() && (#[trigger] t1[k]).sid_hex == Some(sid);
                assert(k != i);
                assert(t0[k] == t1[k]);
            }
        }
        match &services[i].sid_hex {
            None => {},
            Some(sid) => {
                let mut k: usize = 0;
                while k < sids.len() && !(sids[k] == *sid)
                    invariant
                        k <= sids@.len(),
                        forall|m: int| 0 <= m < k ==> (#[trigger] sids@[m])@ != sid@,
                    decreases sids@.len() - k,
                {
                    k += 1;
                }
                assert(t1[i as int].sid_hex == Some(sid@));
                assert(has_sid(t1, sid@));
                if k < sids.len() {
                    let c = counts[k];
                    counts.set(k, c + 1);
                } else {
                    proof {
                        if has_sid(t0, sid@) {
                            let m = choose|m: int| 0 <= m < sids@.len() && (#[trigger] sids@[m])@ == sid@;
                        }
                        lemma_sid_count_zero(t0, sid@);
                    }
                    let ghost old_sids = sids@;
                    sids.push(sid.clone());
                    counts.push(1);
                    proof {
                        let last = sids@.len() - 1;
                        assert(sids@[last]@ == sid@);
                        assert forall|sid2: Seq<char>| has_sid(t1, sid2) implies exists|m: int| 0 <= m < sids@.len() && (#[trigger] sids@[m])@ == sid2 by {
                            if sid2 == sid@ {
                                assert(sids@[last]@ == sid2);
                            } else {
                                assert(has_sid(t0, sid2));
                                let m = choose|m: int| 0 <= m < old_sids.len() && (#[trigger] old_sids[m])@ == sid2;
                                assert(sids@[m] == old_sids[m]);
                            }
                        }
                    }
                }
            },
        }
        i += 1;
    }
    assert(sv.take(services@.len() as int) =~= sv);
    (sids, counts)
}

/// The positions `0..keys.len()`, ordered by their keys.
fn order_by_keys(keys: &Vec<u64>) -> (order: Vec<usize>)
    ensures
        order@.len() == keys@.len(),
        forall|a: int| 0 <= a < order@.len() ==> #[trigger] order@[a] < keys@.len(),
        forall|a: int, b: int| 0 <= a < b < order@.len() ==> #[trigger] order@[a] != #[trigger] order@[b],
        forall|x: int| 0 <= x < keys@.len() ==> #[trigger] index_listed(order@, x),
        forall|a: int, b: int| 0 <= a < b < order@.len() ==> keys@[#[trigger] order@[a] as int] <= keys@[#[trigger] order@[b] as int],
{
    let n = keys.len();
    let mut order: Vec<usize> = Vec::new();
    let mut m: usize = 0;
    while m < n
        invariant
            m <= n == keys@.len(),
            order@.len() == m,
            forall|a: int| 0 <= a < order@.len() ==> #[trigger] order@[a] < m,
            forall|a: int, b: int| 0 <= a < b < order@.len() ==> #[trigger] order@[a] != #[trigger] order@[b],
            forall|x: int| 0 <= x < m ==> #[trigger] index_listed(order@, x),
            forall|a: int, b: int| 0 <= a < b < order@.len() ==> keys@[#[trigger] order@[a] as int] <= keys@[#[trigger] order@[b] as int],
        decreases n - m,
    {
        let mut p: usize = order.len();
        while p > 0 && keys[order[p - 1]] > keys[m]
            invariant
                p <= order@.len(),
                m < n == keys@.len(),
                forall|a: int| 0 <= a < order@.len() ==> #[trigger] order@[a] < m,
                forall|a: int| p <= a < order@.len() ==> keys@[#[trigger] order@[a] as int] > keys@[m as int],
            decreases p,
        {
            p -= 1;
        }
        let ghost before = order@;
        order.insert(p, m);
        proof {
            assert forall|a: int| 0 <= a < order@.len() implies #[trigger] order@[a] < m + 1 by {
                if a < p {
                    assert(order@[a] == before[a]);
                } else if a > p {
                    assert(order@[a] == before[a - 1]);
                }
            }
            assert forall|a: int, b: int| 0 <= a < b < order@.len() implies keys@[#[trigger] order@[a] as int] <= keys@[#[trigger] order@[b] as int] by {
                if b < p {
                    assert(order@[a] == before[a]);
                    assert(order@[b] == before[b]);
                } else if b == p {
                    assert(order@[a] == before[a]);
                    if p > 0 {
                        assert(keys@[before[p - 1] as int] <= keys@[m as int]);
                        if a < p - 1 {
                            assert(keys@[before[a] as int] <= keys@[before[p - 1] as int]);
                        }
                    }
                } else if a == p {
                    assert(order@[b] == before[b - 1]);
                } else if a < p {
                    assert(order@[a] == before[a]);
                    assert(order@[b] == before[b - 1]);
                } else {
                    assert(order@[a] == before[a - 1]);
                    assert(order@[b] == before[b - 1]);
                }
            }
            assert forall|a: int, b: int| 0 <= a < b < order@.len() implies #[trigger] order@[a] != #[trigger] order@[b] by {
                if a < p && b < p {
                    assert(order@[a] == before[a]);
                    assert(order@[b] == before[b]);
                } else if a < p && b == p {
                    assert(order@[a] == before[a]);
                } else if a < p {
                    assert(order@[a] == before[a]);
                    assert(order@[b] == before[b - 1]);
                } else if a == p {
                    assert(order@[b] == before[b - 1]);
                } else {
                    assert(order@[a] == before[a - 1]);
                    assert(order@[b] == before[b - 1]);
                }
            }
            assert forall|x: int| 0 <= x < m + 1 implies #[trigger] index_listed(order@, x) by {
                if x < m {
                    assert(index_listed(before, x));
                    let a = choose|a: int| 0 <= a < before.len() && #[trigger] before[a] == x;
                    if a < p {
                        assert(order@[a] == x);
                    } else {
                        assert(order@[a + 1] == x);
                    }
                } else {
                    assert(order@[p as int] == x);
                }
            }
        }
        m += 1;
    }
    order
}

/// The families of `services`, each with its name and number of services,
/// ordered by identifier, together with the services' ECU variants.
pub fn uds_builder_summary_for_services(services: &[UdsMddService]) -> (r: UdsBuilderMddSummary)
    ensures
        r.service_count == services@.len(),
        r.family_count == r.families@.len(),
        is_family_list(r.families@, services_view(services@)),
        is_ecu_name_list(strings_view(r.ecu_names@), services_view(services@)),
{
    let ghost sv = services_view(services@);
    let (sids, counts) = count_sids(services);
    let n = sids.len();
    let mut keys: Vec<u64> = Vec::new();
    let mut j: usize = 0;
    while j < n
        invariant
            j <= n == sids@.len(),
            keys@.len() == j,
            forall|k: int| 0 <= k < j ==> #[trigger] keys@[k] == family_key(sids@[k]@),
        decreases n - j,
    {
        keys.push(family_order(&sids[j]));
        j += 1;
    }
    let order = order_by_keys(&keys);
    let mut families: Vec<UdsBuilderFamilySummary> = Vec::new();
    let mut q: usize = 0;
    while q < n
        invariant
            q <= n == sids@.len() == counts@.len() == keys@.len() == order@.len(),
            forall|a: int| 0 <= a < order@.len() ==> #[trigger] order@[a] < n,
            families@.len() == q,
            forall|a: int| 0 <= a < q ==> {
                let f = #[trigger] families@[a];
                &&& f.sid_hex@ == sids@[order@[a] as int]@
                &&& f.option_count == counts@[order@[a] as int]
                &&& f.name@ == spec_family_name(f.sid_hex@)
            },
        decreases n - q,
    {
        let idx = order[q];
        let sid = sids[idx].clone();
        let name = String::from_str(uds_family_name_rust(sid.as_str()));
        families.push(UdsBuilderFamilySummary { sid_hex: sid, name, option_count: counts[idx] });
        q += 1;
    }
    proof {
        assert forall|sid: Seq<char>| has_sid(sv, sid) implies exists|a: int| 0 <= a < families@.len() && (#[trigger] families@[a]).sid_hex@ == sid by {
            let k = choose|k: int| 0 <= k < sids@.len() && (#[trigger] sids@[k])@ == sid;
            assert(index_listed(order@, k));
            let a = choose|a: int| 0 <= a < order@.len() && #[trigger] order@[a] == k;
            assert(families@[a].sid_hex@ == sid);
        }
        assert forall|a: int, b: int| 0 <= a < b < families@.len() implies (#[trigger] families@[a]).sid_hex@ != (#[trigger] families@[b]).sid_hex@ by {
            assert(order@[a] != order@[b]);
            if order@[a] < order@[b] {
                assert(sids@[order@[a] as int]@ != sids@[order@[b] as int]@);
            } else {
                assert(sids@[order@[b] as int]@ != sids@[order@[a] as int]@);
            }
        }
        assert forall|a: int, b: int| 0 <= a < b < families@.len() implies family_key((#[trigger] families@[a]).sid_hex@) <= family_key((#[trigger] families@[b]).sid_hex@) by {
            assert(keys@[order@[a] as int] <= keys@[order@[b] as int]);
        }
    }
    let ecu_names = uds_ecu_names_for_services(services);
    UdsBuilderMddSummary {
        service_count: services.len(),
        family_count: families.len(),
        families,
        ecu_names,
    }
}

} // verus!

verus! {

/// A service is attributed to the ECU variant `ecu`, ignoring ASCII case,
/// and, when `sid` is given, has that service identifier.
pub open spec fn selected(s: ServiceView, ecu: Seq<char>, sid: Option<Seq<char>>) -> bool {
    eq_ignore_case(s.source_ecu, ecu) && match sid {
        Some(x) => s.sid_hex == Some(x),
        None => true,
    }
}

/// The predicate `selected` for one ECU variant and identifier.
pub open spec fn selected_pred(ecu: Seq<char>, sid: Option<Seq<char>>) -> spec_fn(ServiceView) -> bool {
    |s: ServiceView| selected(s, ecu, sid)
}

/// An optional text as characters.
pub open spec fn opt_chars(o: Option<&str>) -> Option<Seq<char>> {
    match o {
        Some(s) => Some(s@),
        None => None,
    }
}

/// Copies of the services of the ECU variant `ecu` (ignoring ASCII case),
/// restricted to the identifier `sid` when given, in their order.
pub fn select_services(services: &[UdsMddService], ecu: &str, sid: Option<&str>) -> (r: Vec<
    UdsMddService,
>)
    ensures
        services_view(r@) == services_view(services@).filter(selected_pred(ecu@, opt_chars(sid))),
{
    let ghost sv = services_view(services@);
    let ghost pred = selected_pred(ecu@, opt_chars(sid));
    let mut out: Vec<UdsMddService> = Vec::new();
    let mut i: usize = 0;
    while i < services.len()
        invariant
            i <= services@.len(),
            sv == services_view(services@),
            pred == selected_pred(ecu@, opt_chars(sid)),
            services_view(out@) == sv.take(i as int).filter(pred),
        decreases services@.len() - i,
    {
        assert(sv.take(i + 1).drop_last() =~= sv.take(i as int));
        assert(sv[i as int] == services@[i as int]@);
        reveal(Seq::filter);
        let s = &services[i];
        let ecu_ok = eq_ignore_ascii_case(s.source_ecu.as_str(), ecu);
        let sid_ok = match sid {
            Some(x) => match &s.sid_hex {
                Some(h) => chars_eq(&str_chars(h.as_str()), &str_chars(x)),
                None => false,
            },
            None => true,
        };
        if ecu_ok && sid_ok {
            let c = s.clone();
            let ghost before = out@;
            out.push(c);
            assert(services_view(out@) =~= services_view(before).push(c@));
        }
        i += 1;
    }
    assert(sv.take(services@.len() as int) =~= sv);
    out
}

/// What `services_for_ecu` gives: the ECU variant's services, or an error
/// when no variant is named.
pub open spec fn spec_services_for_ecu(services: Seq<ServiceView>, ecu_name: Seq<char>) -> Result<
    Seq<ServiceView>,
    Seq<char>,
> {
    let ecu = trim(ecu_name);
    if ecu.len() == 0 {
        Err("Choose an ECU first."@)
    } else {
        Ok(services.filter(selected_pred(ecu, None)))
    }
}

/// The services of the ECU variant named `ecu_name` (trimmed, any ASCII case).
pub fn services_for_ecu(services: &[UdsMddService], ecu_name: &str) -> (r: Result<
    Vec<UdsMddService>,
    String,
>)
    ensures
        match spec_services_for_ecu(services_view(services@), ecu_name@) {
            Ok(v) => r matches Ok(s) && services_view(s@) == v,
            Err(m) => r matches Err(e) && e@ == m,
        },
{
    let ecu = chars_to_string(&trim_chars(&str_chars(ecu_name)));
    if ecu.as_str().is_empty() {
        return Err(String::from_str("Choose an ECU first."));
    }
    Ok(select_services(services, ecu.as_str(), None))
}

/// `s` without every leading `0x`.
pub open spec fn strip_all_0x(s: Seq<char>) -> Seq<char>
    decreases s.len(),
{
    if s.len() >= 2 && s[0] == '0' && s[1] == 'x' {
        strip_all_0x(s.skip(2))
    } else {
        s
    }
}

/// What `str::to_uppercase` gives for `s`.
pub uninterp spec fn spec_to_uppercase(s: Seq<char>) -> Seq<char>;

/// Calls `str::to_uppercase`: every character mapped to its Unicode upper
/// case. Claimed: the result is a function of the text alone, and ASCII
/// text is uppercased letter by letter.
#[verifier::external_body]
fn to_uppercase(s: &str) -> (r: String)
    ensures
        r@ == spec_to_uppercase(s@),
        (forall|i: int| 0 <= i < s@.len() ==> (#[trigger] s@[i] as u32) < 128) ==> r@ == s@.map_values(
            |c: char| crate::text::upper_char(c),
        ),
{
    s.to_uppercase()
}

/// A service identifier as typed: trimmed, without leading `0x`, in upper case.
pub open spec fn spec_normalize_sid(sid: Seq<char>) -> Seq<char> {
    spec_to_uppercase(strip_all_0x(trim(sid)))
}

/// Normalises a service identifier as typed by the user.
pub fn normalize_sid(sid_hex: &str) -> (r: String)
    ensures
        r@ == spec_normalize_sid(sid_hex@),
{
    let t = trim_chars(&str_chars(sid_hex));
    let mut i: usize = 0;
    assert(t@.skip(0) =~= t@);
    while i < t.len() && t.len() - i >= 2 && t[i] == '0' && t[i + 1] == 'x'
        invariant
            i <= t@.len(),
            strip_all_0x(t@) == strip_all_0x(t@.skip(i as int)),
        decreases t@.len() - i,
    {
        assert(t@.skip(i as int).skip(2) =~= t@.skip(i + 2));
        i += 2;
    }
    let rest = vstd::slice::slice_subrange(t.as_slice(), i, t.len());
    assert(rest@ =~= t@.skip(i as int));
    let s = chars_to_string(rest);
    to_uppercase(s.as_str())
}

/// The services of one family of one ECU variant, as the builder offers
/// them for choice: `sid_hex` is normalised, `ecu_name` trimmed.
pub fn family_options(services: &[UdsMddService], sid_hex: &str, ecu_name: &str) -> (r: Vec<
    UdsMddService,
>)
    ensures
        services_view(r@) == services_view(services@).filter(
            selected_pred(trim(ecu_name@), Some(spec_normalize_sid(sid_hex@))),
        ),
{
    let sid = normalize_sid(sid_hex);
    let ecu = chars_to_string(&trim_chars(&str_chars(ecu_name)));
    select_services(services, ecu.as_str(), Some(sid.as_str()))
}

/// `names` lists the ECU variant fields of the services once each, in the
/// order of `str`.
pub open spec fn is_variant_list(names: Seq<Seq<char>>, services: Seq<ServiceView>) -> bool {
    &&& strictly_sorted(names)
    &&& forall|x: Seq<char>| #![trigger names.contains(x)] names.contains(x) <==> exists|i: int|
        0 <= i < services.len() && (#[trigger] services[i]).source_ecu == x
}

/// The ECU variant fields of the services, as they are, once each, sorted.
fn variant_list(services: &[UdsMddService]) -> (r: Vec<String>)
    ensures
        is_variant_list(strings_view(r@), services_view(services@)),
{
    let ghost sv = services_view(services@);
    let mut names: Vec<String> = Vec::new();
    let mut i: usize = 0;
    assert(strings_view(names@) =~= Seq::<Seq<char>>::empty());
    while i < services.len()
        invariant
            i <= services@.len(),
            sv == services_view(services@),
            is_variant_list(strings_view(names@), sv.take(i as int)),
        decreases services@.len() - i,
    {
        assert(sv[i as int] == services@[i as int]@);
        insert_sorted_unique(&mut names, services[i].source_ecu.clone());
        proof {
            let now = strings_view(names@);
            let t0 = sv.take(i as int);
            let t1 = sv.take(i + 1);
            assert forall|x: Seq<char>| #![trigger now.contains(x)] now.contains(x) <==> exists|j: int| 0 <= j < t1.len() && (#[trigger] t1[j]).source_ecu == x by {
                if exists|j: int| 0 <= j < t0.len() && (#[trigger] t0[j]).source_ecu == x {
                    let j = choose|j: int| 0 <= j < t0.len() && (#[trigger] t0[j]).source_ecu == x;
                    assert(t1[j] == t0[j]);
                }
                if exists|j: int| 0 <= j < t1.len() && (#[trigger] t1[j]).source_ecu == x {
                    let j = choose|j: int| 0 <= j < t1.len() && (#[trigger] t1[j]).source_ecu == x;
                    if j < i {
                        assert(t0[j] == t1[j]);
                    }
                }
                if x == sv[i as int].source_ecu {
                    assert(t1[i as int] == sv[i as int]);
                }
            }
        }
        i += 1;
    }
    assert(sv.take(services@.len() as int) =~= sv);
    names
}

/// What `ecu_summary` reports when the chosen ECU variant has no service.
pub open spec fn no_service_message(ecu: Seq<char>, known: Seq<Seq<char>>) -> Seq<char> {
    "No diagnostic service was found in the MDD for ECU '"@ + ecu + "'. MDD variants: "@ + if known.len()
        == 0 {
        "none"@
    } else {
        crate::uds::join(known, ", "@)
    }
}

/// The builder summary of one ECU variant's services (named by `ecu_name`,
/// trimmed, any ASCII case); an error when no variant is named or it has
/// no service, listing the variants there are.
pub fn ecu_summary(services: &[UdsMddService], ecu_name: &str) -> (r: Result<
    UdsBuilderMddSummary,
    String,
>)
    ensures
        trim(ecu_name@).len() == 0 ==> (r matches Err(m) && m@
            == "Choose an ECU before loading its diagnostic services."@),
        trim(ecu_name@).len() > 0 && services_view(services@).filter(
            selected_pred(trim(ecu_name@), None),
        ).len() == 0 ==> (r matches Err(m) && exists|known: Seq<Seq<char>>| is_variant_list(
            known,
            services_view(services@),
        ) && m@ == no_service_message(trim(ecu_name@), known)),
        r matches Ok(summary) ==> {
            let chosen = services_view(services@).filter(selected_pred(trim(ecu_name@), None));
            &&& trim(ecu_name@).len() > 0
            &&& chosen.len() > 0
            &&& summary.service_count == chosen.len()
            &&& summary.family_count == summary.families@.len()
            &&& is_family_list(summary.families@, chosen)
            &&& is_ecu_name_list(strings_view(summary.ecu_names@), chosen)
        },
        trim(ecu_name@).len() > 0 && services_view(services@).filter(
            selected_pred(trim(ecu_name@), None),
        ).len() > 0 ==> r is Ok,
{
    let ecu = chars_to_string(&trim_chars(&str_chars(ecu_name)));
    if ecu.as_str().is_empty() {
        return Err(String::from_str("Choose an ECU before loading its diagnostic services."));
    }
    let filtered = select_services(services, ecu.as_str(), None);
    if filtered.len() == 0 {
        let known = variant_list(services);
        let mut m = String::from_str("No diagnostic service was found in the MDD for ECU '");
        m.append(ecu.as_str());
        m.append("'. MDD variants: ");
        if known.len() == 0 {
            m.append("none");
        } else {
            let joined = crate::uds::join_strings(&known, ", ");
            m.append(joined.as_str());
        }
        return Err(m);
    }
    Ok(uds_builder_summary_for_services(filtered.as_slice()))
}

} // verus!

verus! {

/// The services of the MDD files decoded so far, by cleaned path.
#[derive(Debug)]
pub struct UdsServiceCache {
    entries: Vec<(String, Vec<UdsMddService>)>,
}

/// The services stored under `key`, the first such entry's.
pub open spec fn cache_find(entries: Seq<(Seq<char>, Seq<ServiceView>)>, key: Seq<char>) -> Option<
    Seq<ServiceView>,
>
    decreases entries.len(),
{
    if entries.len() == 0 {
        None
    } else if entries[0].0 == key {
        Some(entries[0].1)
    } else {
        cache_find(entries.drop_first(), key)
    }
}

impl UdsServiceCache {
    /// The stored paths and services, oldest first.
    pub closed spec fn entries_view(&self) -> Seq<(Seq<char>, Seq<ServiceView>)> {
        self.entries@.map_values(
            |e: (String, Vec<UdsMddService>)| (e.0@, services_view(e.1@)),
        )
    }

    /// The services stored for `path` once it is cleaned, if any.
    pub fn lookup(&self, path: &str) -> (r: Option<&Vec<UdsMddService>>)
        ensures
            match cache_find(self.entries_view(), crate::text::spec_clean_path(path@)) {
                Some(v) => r matches Some(s) && services_view(s@) == v,
                None => r is None,
            },
    {
        let key = crate::text::clean_path(path);
        self.find(&key)
    }

    fn find(&self, key: &String) -> (r: Option<&Vec<UdsMddService>>)
        ensures
            match cache_find(self.entries_view(), key@) {
                Some(v) => r matches Some(s) && services_view(s@) == v,
                None => r is None,
            },
    {
        let ghost ev = self.entries_view();
        let mut i: usize = 0;
        assert(ev.skip(0) =~= ev);
        while i < self.entries.len()
            invariant
                i <= self.entries@.len(),
                ev == self.entries_view(),
                cache_find(ev, key@) == cache_find(ev.skip(i as int), key@),
            decreases self.entries@.len() - i,
        {
            assert(ev.skip(i as int)[0] == ev[i as int]);
            assert(ev[i as int].0 == self.entries@[i as int].0@);
            if self.entries[i].0 == *key {
                return Some(&self.entries[i].1);
            }
            assert(ev.skip(i as int).drop_first() =~= ev.skip(i + 1));
            i += 1;
        }
        None
    }
}

/// An empty cache of decoded MDD files.
pub fn uds_mdd_service_cache() -> (c: UdsServiceCache)
    ensures
        c.entries_view() == Seq::<(Seq<char>, Seq<ServiceView>)>::empty(),
{
    let c = UdsServiceCache { entries: Vec::new() };
    assert(c.entries_view() =~= Seq::<(Seq<char>, Seq<ServiceView>)>::empty());
    c
}

/// The services of the MDD file at `path` (cleaned): those cached for it,
/// else those decoded from `mdd`, the file's bytes, which are then cached.
/// A file that does not decode is not cached.
pub fn cached_uds_services<'a>(cache: &'a mut UdsServiceCache, path: &str, mdd: &[u8]) -> (r: Result<
    &'a Vec<UdsMddService>,
    DecodeError,
>)
    ensures
        ({
            let key = crate::text::spec_clean_path(path@);
            match cache_find(old(cache).entries_view(), key) {
                Some(v) => r matches Ok(s) && services_view(s@) == v && final(cache).entries_view()
                    == old(cache).entries_view(),
                None => match spec_parse_uds_services_from_mdd(mdd@) {
                    Ok(v) => r matches Ok(s) && services_view(s@) == v && final(cache).entries_view()
                        == old(cache).entries_view().push((key, v)),
                    Err(e2) => r matches Err(e) && same_error(e, e2) && final(cache).entries_view()
                        == old(cache).entries_view(),
                },
            }
        }),
        r matches Ok(s) ==> cache_find(final(cache).entries_view(), crate::text::spec_clean_path(path@))
            == Some(services_view(s@)),
{
    let key = crate::text::clean_path(path);
    if cache.find(&key).is_some() {
        return match cache.find(&key) {
            Some(s) => Ok(s),
            None => Err(DecodeError::NoServices),
        };
    }
    let parsed = parse_uds_services_from_mdd(mdd)?;
    let ghost before = cache.entries_view();
    let ghost pv = services_view(parsed@);
    let ghost kv = key@;
    cache.entries.push((key, parsed));
    assert(cache.entries_view() =~= before.push((kv, pv)));
    proof {
        lemma_cache_remembers(before, kv, pv, kv);
    }
    let last = cache.entries.len() - 1;
    Ok(&cache.entries[last].1)
}

/// Once the services of a path are cached, looking the path up gives them;
/// the entries of other paths are unchanged.
pub proof fn lemma_cache_remembers(
    entries: Seq<(Seq<char>, Seq<ServiceView>)>,
    key: Seq<char>,
    services: Seq<ServiceView>,
    other: Seq<char>,
)
    requires
        cache_find(entries, key) is None,
    ensures
        cache_find(entries.push((key, services)), key) == Some(services),
        other != key ==> cache_find(entries.push((key, services)), other) == cache_find(entries, other),
    decreases entries.len(),
{
    if entries.len() > 0 {
        let pushed = entries.push((key, services));
        assert(pushed[0] == entries[0]);
        assert(pushed.drop_first() =~= entries.drop_first().push((key, services)));
        lemma_cache_remembers(entries.drop_first(), key, services, other);
    } else {
        let pushed = entries.push((key, services));
        assert(pushed[0] == (key, services));
        assert(pushed.drop_first() =~= Seq::<(Seq<char>, Seq<ServiceView>)>::empty());
        assert(cache_find(pushed.drop_first(), other) is None);
    }
}

} // verus!

verus! {

/// A number that tells two-character texts apart.
spec fn two_char_code(s: Seq<char>) -> int {
    s.len() * 65536 + s[0] as int * 256 + s[1] as int
}

/// The UDS service table: each standard service identifier (ISO 14229)
/// names its service, and every identifier outside the table, and only
/// those, is a plain "UDS service".
pub proof fn lemma_family_names(sid: Seq<char>)
    ensures
        spec_family_name("10"@) == "DiagnosticSessionControl"@,
        spec_family_name("11"@) == "ECUReset"@,
        spec_family_name("14"@) == "ClearDiagnosticInformation"@,
        spec_family_name("19"@) == "ReadDTCInformation"@,
        spec_family_name("22"@) == "ReadDataByIdentifier"@,
        spec_family_name("23"@) == "ReadMemoryByAddress"@,
        spec_family_name("27"@) == "SecurityAccess"@,
        spec_family_name("28"@) == "CommunicationControl"@,
        spec_family_name("2E"@) == "WriteDataByIdentifier"@,
        spec_family_name("2F"@) == "InputOutputControlByIdentifier"@,
        spec_family_name("31"@) == "RoutineControl"@,
        spec_family_name("34"@) == "RequestDownload"@,
        spec_family_name("35"@) == "RequestUpload"@,
        spec_family_name("36"@) == "TransferData"@,
        spec_family_name("37"@) == "RequestTransferExit"@,
        spec_family_name("3D"@) == "WriteMemoryByAddress"@,
        spec_family_name("3E"@) == "TesterPresent"@,
        spec_family_name("85"@) == "ControlDTCSetting"@,
        spec_family_name(sid) == "UDS service"@ <==> (sid != "10"@ && sid != "11"@ && sid != "14"@ && sid != "19"@ && sid != "22"@ && sid != "23"@ && sid != "27"@ && sid != "28"@ && sid != "2E"@ && sid != "2F"@ && sid != "31"@ && sid != "34"@ && sid != "35"@ && sid != "36"@ && sid != "37"@ && sid != "3D"@ && sid != "3E"@ && sid != "85"@),
{
    reveal_strlit("10");
    assert(two_char_code("10"@) == 143664);
    reveal_strlit("11");
    assert(two_char_code("11"@) == 143665);
    reveal_strlit("14");
    assert(two_char_code("14"@) == 143668);
    reveal_strlit("19");
    assert(two_char_code("19"@) == 143673);
    reveal_strlit("22");
    assert(two_char_code("22"@) == 143922);
    reveal_strlit("23");
    assert(two_char_code("23"@) == 143923);
    reveal_strlit("27");
    assert(two_char_code("27"@) == 143927);
    reveal_strlit("28");
    assert(two_char_code("28"@) == 143928);
    reveal_strlit("2E");
    assert(two_char_code("2E"@) == 143941);
    reveal_strlit("2F");
    assert(two_char_code("2F"@) == 143942);
    reveal_strlit("31");
    assert(two_char_code("31"@) == 144177);
    reveal_strlit("34");
    assert(two_char_code("34"@) == 144180);
    reveal_strlit("35");
    assert(two_char_code("35"@) == 144181);
    reveal_strlit("36");
    assert(two_char_code("36"@) == 144182);
    reveal_strlit("37");
    assert(two_char_code("37"@) == 144183);
    reveal_strlit("3D");
    assert(two_char_code("3D"@) == 144196);
    reveal_strlit("3E");
    assert(two_char_code("3E"@) == 144197);
    reveal_strlit("85");
    assert(two_char_code("85"@) == 145461);
    reveal_strlit("DiagnosticSessionControl");
    reveal_strlit("ECUReset");
    reveal_strlit("ClearDiagnosticInformation");
    reveal_strlit("ReadDTCInformation");
    reveal_strlit("ReadDataByIdentifier");
    reveal_strlit("ReadMemoryByAddress");
    reveal_strlit("SecurityAccess");
    reveal_strlit("CommunicationControl");
    reveal_strlit("WriteDataByIdentifier");
    reveal_strlit("InputOutputControlByIdentifier");
    reveal_strlit("RoutineControl");
    reveal_strlit("RequestDownload");
    reveal_strlit("RequestUpload");
    reveal_strlit("TransferData");
    reveal_strlit("RequestTransferExit");
    reveal_strlit("WriteMemoryByAddress");
    reveal_strlit("TesterPresent");
    reveal_strlit("ControlDTCSetting");
    reveal_strlit("UDS service");
    assert("UDS service"@.len() == 11);
    if sid == "10"@ {
        assert(spec_family_name(sid) == spec_family_name("10"@));
    }
    if sid == "11"@ {
        assert(spec_family_name(sid) == spec_family_name("11"@));
    }
    if sid == "14"@ {
        assert(spec_family_name(sid) == spec_family_name("14"@));
    }
    if sid == "19"@ {
        assert(spec_family_name(sid) == spec_family_name("19"@));
    }
    if sid == "22"@ {
        assert(spec_family_name(sid) == spec_family_name("22"@));
    }
    if sid == "23"@ {
        assert(spec_family_name(sid) == spec_family_name("23"@));
    }
    if sid == "27"@ {
        assert(spec_family_name(sid) == spec_family_name("27"@));
    }
    if sid == "28"@ {
        assert(spec_family_name(sid) == spec_family_name("28"@));
    }
    if sid == "2E"@ {
        assert(spec_family_name(sid) == spec_family_name("2E"@));
    }
    if sid == "2F"@ {
        assert(spec_family_name(sid) == spec_family_name("2F"@));
    }
    if sid == "31"@ {
        assert(spec_family_name(sid) == spec_family_name("31"@));
    }
    if sid == "34"@ {
        assert(spec_family_name(sid) == spec_family_name("34"@));
    }
    if sid == "35"@ {
        assert(spec_family_name(sid) == spec_family_name("35"@));
    }
    if sid == "36"@ {
        assert(spec_family_name(sid) == spec_family_name("36"@));
    }
    if sid == "37"@ {
        assert(spec_family_name(sid) == spec_family_name("37"@));
    }
    if sid == "3D"@ {
        assert(spec_family_name(sid) == spec_family_name("3D"@));
    }
    if sid == "3E"@ {
        assert(spec_family_name(sid) == spec_family_name("3E"@));
    }
    if sid == "85"@ {
        assert(spec_family_name(sid) == spec_family_name("85"@));
    }
}

} // verus!
