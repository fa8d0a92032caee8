//! The diagnostic source workspace: imported PDX, ODX and MDD files, the
//! ECU variants known for each, and the links from sources to the MDD files
//! generated from them. File copying, deletion and persistence are the
//! caller's; the decisions and the bookkeeping are here.
use vstd::prelude::*;
use crate::builder::{insert_sorted_unique, strictly_sorted, strings_view};
use crate::text::{
    chars_eq, chars_to_string, clean_path, digits_in, safe_folder_name, signed_decimal,
    spec_clean_path, spec_safe_folder_name, str_chars, trim, trim_chars, u64_to_decimal,
    i64_to_decimal, lemma_filter_keeps_all,
};

verus! {

/// One imported diagnostic source.
#[derive(Debug)]
pub struct DiagnosticSourceEntry {
    pub id: String,
    pub name: String,
    pub kind: String,
    pub original_path: String,
    pub stored_path: String,
    pub ecu_names: Vec<String>,
    pub generated_mdd_path: Option<String>,
    pub imported_at_ms: u64,
}

/// A source as text.
pub ghost struct EntryView {
    pub id: Seq<char>,
    pub name: Seq<char>,
    pub kind: Seq<char>,
    pub original_path: Seq<char>,
    pub stored_path: Seq<char>,
    pub ecu_names: Seq<Seq<char>>,
    pub generated_mdd_path: Option<Seq<char>>,
    pub imported_at_ms: u64,
}

impl View for DiagnosticSourceEntry {
    type V = EntryView;

    open spec fn view(&self) -> EntryView {
        EntryView {
            id: self.id@,
            name: self.name@,
            kind: self.kind@,
            original_path: self.original_path@,
            stored_path: self.stored_path@,
            ecu_names: strings_view(self.ecu_names@),
            generated_mdd_path: crate::flatbuf::opt_view(self.generated_mdd_path),
            imported_at_ms: self.imported_at_ms,
        }
    }
}

/// The views of the sources.
pub open spec fn entries_view(v: Seq<DiagnosticSourceEntry>) -> Seq<EntryView> {
    v.map_values(|e: DiagnosticSourceEntry| e@)
}

/// Copies of texts.
pub fn clone_strings(v: &Vec<String>) -> (r: Vec<String>)
    ensures
        strings_view(r@) == strings_view(v@),
{
    let mut out: Vec<String> = Vec::new();
    let mut i: usize = 0;
    while i < v.len()
        invariant
            i <= v@.len(),
            strings_view(out@) == strings_view(v@.take(i as int)),
        decreases v@.len() - i,
    {
        let s = v[i].clone();
        let ghost before = out@;
        out.push(s);
        assert(strings_view(v@.take(i + 1)) =~= strings_view(v@.take(i as int)).push(v@[i as int]@));
        assert(strings_view(out@) =~= strings_view(before).push(s@));
        i += 1;
    }
    assert(v@.take(v@.len() as int) =~= v@);
    out
}

impl Clone for DiagnosticSourceEntry {
    fn clone(&self) -> (r: Self)
        ensures
            r@ == self@,
    {
        DiagnosticSourceEntry {
            id: self.id.clone(),
            name: self.name.clone(),
            kind: self.kind.clone(),
            original_path: self.original_path.clone(),
            stored_path: self.stored_path.clone(),
            ecu_names: clone_strings(&self.ecu_names),
            generated_mdd_path: match &self.generated_mdd_path {
                Some(p) => Some(p.clone()),
                None => None,
            },
            imported_at_ms: self.imported_at_ms,
        }
    }
}

/// The imported sources and the format they are stored in.
#[derive(Debug)]
pub struct DiagnosticSourceLibrary {
    pub format_version: u16,
    pub sources: Vec<DiagnosticSourceEntry>,
}

impl Default for DiagnosticSourceLibrary {
    /// An empty library of the current format, 1.
    fn default() -> (r: Self)
        ensures
            r.format_version == 1,
            r.sources@.len() == 0,
    {
        DiagnosticSourceLibrary { format_version: 1, sources: Vec::new() }
    }
}

#[verifier::external_type_specification]
#[verifier::external_body]
pub struct ExSystemTime(std::time::SystemTime);

/// Reads the system clock with `SystemTime::now`. Nothing is claimed of the
/// reading.
#[verifier::external_body]
fn system_time_now() -> std::time::SystemTime {
    std::time::SystemTime::now()
}

/// `SystemTime::duration_since` the Unix epoch, or `None` when the time lies
/// before it. Nothing is claimed of the duration.
#[verifier::external_body]
fn duration_since_unix_epoch(t: &std::time::SystemTime) -> Option<std::time::Duration> {
    match t.duration_since(std::time::UNIX_EPOCH) {
        Ok(d) => Some(d),
        Err(_) => None,
    }
}

/// `Duration::as_millis`: the whole milliseconds of a duration. Nothing is
/// claimed of the value, since a duration is opaque here.
#[verifier::external_body]
fn duration_as_millis(d: &std::time::Duration) -> u128 {
    d.as_millis()
}

/// A clock reading in milliseconds as a `u64`: truncated to 64 bits, or 0
/// when there is none.
pub fn millis_as_u64(millis: Option<u128>) -> (r: u64)
    ensures
        r == match millis {
            Some(m) => (m % 0x1_0000_0000_0000_0000) as u64,
            None => 0u64,
        },
{
    match millis {
        Some(m) => (m % 0x1_0000_0000_0000_0000) as u64,
        None => 0,
    }
}

/// The current time in milliseconds since the Unix epoch (0 when the clock
/// is before it). The value depends on the clock and is not stated.
pub fn now_ms() -> (r: u64) {
    let millis = match duration_since_unix_epoch(&system_time_now()) {
        Some(d) => Some(duration_as_millis(&d)),
        None => None,
    };
    millis_as_u64(millis)
}

/// The kinds of source whose ECU variants can be scanned.
pub enum ScanFormat {
    Pdx,
    Odx,
}

/// The ECU variants of a source of kind `kind`: for a PDX or ODX file, what
/// `scan` finds in it (nothing when scanning fails); for any other kind,
/// nothing, without scanning.
pub fn scan_source_ecus<F: FnOnce(ScanFormat) -> Result<Vec<String>, String>>(kind: &str, scan: F) -> (r: Vec<String>)
    requires
        call_requires(scan, (ScanFormat::Pdx,)),
        call_requires(scan, (ScanFormat::Odx,)),
    ensures
        kind@ != "pdx"@ && kind@ != "odx"@ ==> r@.len() == 0,
        kind@ == "pdx"@ ==> exists|res: Result<Vec<String>, String>| call_ensures(scan, (ScanFormat::Pdx,), res) && match res {
            Ok(v) => r@ == v@,
            Err(_) => r@.len() == 0,
        },
        kind@ == "odx"@ ==> exists|res: Result<Vec<String>, String>| call_ensures(scan, (ScanFormat::Odx,), res) && match res {
            Ok(v) => r@ == v@,
            Err(_) => r@.len() == 0,
        },
{
    proof {
        reveal_strlit("pdx");
        reveal_strlit("odx");
        assert("odx"@[0] != "pdx"@[0]);
    }
    let k = str_chars(kind);
    let result = if chars_eq(&k, &str_chars("pdx")) {
        scan(ScanFormat::Pdx)
    } else if chars_eq(&k, &str_chars("odx")) {
        scan(ScanFormat::Odx)
    } else {
        Ok(Vec::new())
    };
    match result {
        Ok(v) => v,
        Err(_) => Vec::new(),
    }
}

/// Adds the trimmed, non-empty names to a sorted list of ECU names.
fn insert_trimmed(names: &mut Vec<String>, candidates: &[String])
    requires
        strictly_sorted(strings_view(old(names)@)),
    ensures
        strictly_sorted(strings_view(final(names)@)),
        forall|x: Seq<char>| #![trigger strings_view(final(names)@).contains(x)]
            strings_view(final(names)@).contains(x) <==> (strings_view(old(names)@).contains(x) || (x.len() > 0
                && exists|i: int| 0 <= i < candidates@.len() && trim(#[trigger] candidates@[i]@) == x)),
{
    let ghost start = strings_view(names@);
    let mut i: usize = 0;
    while i < candidates.len()
        invariant
            i <= candidates@.len(),
            strictly_sorted(strings_view(names@)),
            forall|x: Seq<char>| #![trigger strings_view(names@).contains(x)]
                strings_view(names@).contains(x) <==> (start.contains(x) || (x.len() > 0 && exists|j: int| 0 <= j < i && trim(#[trigger] candidates@[j]@) == x)),
        decreases candidates@.len() - i,
    {
        let t = trim_chars(&str_chars(candidates[i].as_str()));
        if t.len() > 0 {
            insert_sorted_unique(names, chars_to_string(&t));
        }
        proof {
            let now = strings_view(names@);
            assert forall|x: Seq<char>| #![trigger now.contains(x)] now.contains(x) <==> (start.contains(x) || (x.len() > 0 && exists|j: int| 0 <= j < i + 1 && trim(#[trigger] candidates@[j]@) == x)) by {
                if x.len() > 0 && exists|j: int| 0 <= j < i + 1 && trim(#[trigger] candidates@[j]@) == x {
                    let j = choose|j: int| 0 <= j < i + 1 && trim(#[trigger] candidates@[j]@) == x;
                    if j < i {
                    }
                }
            }
        }
        i += 1;
    }
}

/// The names an ODX collection contributes to a sorted set of ECU names:
/// its ECU variants and base variants (trimmed, non-empty), and, while the
/// set is still empty after those, its container's name.
pub fn collect_ecu_names(
    ecu_variant_names: &[String],
    base_variant_names: &[String],
    container_name: Option<&str>,
    names: &mut Vec<String>,
)
    requires
        strictly_sorted(strings_view(old(names)@)),
    ensures
        strictly_sorted(strings_view(final(names)@)),
        forall|x: Seq<char>| #![trigger strings_view(final(names)@).contains(x)]
            strings_view(final(names)@).contains(x) <==> (strings_view(old(names)@).contains(x) || (x.len() > 0
                && ((exists|i: int| 0 <= i < ecu_variant_names@.len() && trim(#[trigger] ecu_variant_names@[i]@) == x)
                || (exists|i: int| 0 <= i < base_variant_names@.len() && trim(#[trigger] base_variant_names@[i]@) == x)))
                || (container_name matches Some(c) && x.len() > 0 && trim(c@) == x && old(names)@.len() == 0
                && (forall|i: int| 0 <= i < ecu_variant_names@.len() ==> trim(#[trigger] ecu_variant_names@[i]@).len() == 0)
                && (forall|i: int| 0 <= i < base_variant_names@.len() ==> trim(#[trigger] base_variant_names@[i]@).len() == 0))),
{
    let ghost start = strings_view(names@);
    insert_trimmed(names, ecu_variant_names);
    let ghost mid = strings_view(names@);
    insert_trimmed(names, base_variant_names);
    let ghost after = strings_view(names@);
    if names.len() == 0 {
        proof {
            if start.len() > 0 {
                assert(start.contains(start[0]));
                assert(after.contains(start[0]));
            }
            assert forall|i: int| 0 <= i < ecu_variant_names@.len() implies trim(#[trigger] ecu_variant_names@[i]@).len() == 0 by {
                if trim(ecu_variant_names@[i]@).len() > 0 {
                    assert(after.contains(trim(ecu_variant_names@[i]@)));
                }
            }
            assert forall|i: int| 0 <= i < base_variant_names@.len() implies trim(#[trigger] base_variant_names@[i]@).len() == 0 by {
                if trim(base_variant_names@[i]@).len() > 0 {
                    assert(after.contains(trim(base_variant_names@[i]@)));
                }
            }
        }
        if let Some(container) = container_name {
            let t = trim_chars(&str_chars(container));
            if t.len() > 0 {
                insert_sorted_unique(names, chars_to_string(&t));
            }
        }
    } else {
        proof {
            assert(after.contains(after[0]));
            if start.len() == 0 {
                assert(!start.contains(after[0]));
            }
        }
    }
}

/// The sources of a loaded library whose stored copy still exists; an error
/// for a library of another format than 1.
pub fn checked_library(library: DiagnosticSourceLibrary, stored_exists: &[bool]) -> (r: Result<DiagnosticSourceLibrary, String>)
    ensures
        library.format_version != 1 ==> (r matches Err(m) && m@
            == "Unsupported diagnostic source library version: "@ + digits_in(library.format_version as nat, 10)),
        library.format_version == 1 ==> (r matches Ok(l) && l.format_version == 1
            && entries_view(l.sources@) == kept_sources(entries_view(library.sources@), stored_exists@)),
{
    if library.format_version != 1 {
        let mut m = String::from_str("Unsupported diagnostic source library version: ");
        m.append(u64_to_decimal(library.format_version as u64).as_str());
        return Err(m);
    }
    let ghost all = entries_view(library.sources@);
    let mut sources = library.sources;
    let n = sources.len();
    let mut kept: Vec<DiagnosticSourceEntry> = Vec::new();
    let mut rest: Vec<DiagnosticSourceEntry> = Vec::new();
    while sources.len() > 0
        invariant
            sources@.len() + rest@.len() == n,
            n == all.len(),
            entries_view(sources@) == all.take(sources@.len() as int),
            forall|k: int| 0 <= k < rest@.len() ==> (#[trigger] rest@[k])@ == all[n - 1 - k],
        decreases sources@.len(),
    {
        let ghost before = sources@;
        if let Some(e) = sources.pop() {
            assert(before[before.len() - 1]@ == entries_view(before)[before.len() - 1]);
            assert(e@ == all[sources@.len() as int]);
            rest.push(e);
            assert(entries_view(sources@) =~= all.take(sources@.len() as int));
        }
    }
    let mut i: usize = 0;
    assert(kept_sources(all.take(0), stored_exists@) =~= Seq::<EntryView>::empty());
    assert(entries_view(kept@) =~= Seq::<EntryView>::empty());
    while i < n
        invariant
            i <= n == all.len(),
            rest@.len() == n - i,
            forall|k: int| 0 <= k < rest@.len() ==> (#[trigger] rest@[k])@ == all[n - 1 - k],
            entries_view(kept@) == kept_sources(all.take(i as int), stored_exists@),
        decreases n - i,
    {
        let ghost last = rest@.len() - 1;
        assert(rest@[last]@ == all[i as int]);
        if let Some(e) = rest.pop() {
            assert(all.take(i + 1).drop_last() =~= all.take(i as int));
            let keep = i < stored_exists.len() && stored_exists[i];
            if keep {
                let ghost before = kept@;
                kept.push(e);
                assert(entries_view(kept@) =~= entries_view(before).push(e@));
            }
        }
        i += 1;
    }
    assert(all.take(n as int) =~= all);
    Ok(DiagnosticSourceLibrary { format_version: 1, sources: kept })
}

/// The sources whose stored copy exists, in order: the `i`-th is kept when
/// `stored_exists[i]` holds.
pub open spec fn kept_sources(sources: Seq<EntryView>, stored_exists: Seq<bool>) -> Seq<EntryView>
    decreases sources.len(),
{
    if sources.len() == 0 {
        Seq::empty()
    } else {
        let prev = kept_sources(sources.drop_last(), stored_exists);
        let i = sources.len() - 1;
        if i < stored_exists.len() && stored_exists[i] {
            prev.push(sources.last())
        } else {
            prev
        }
    }
}

} // verus!

verus! {

/// The first source with the id `id`.
pub open spec fn first_with_id(s: Seq<EntryView>, id: Seq<char>) -> Option<EntryView>
    decreases s.len(),
{
    if s.len() == 0 {
        None
    } else if s[0].id == id {
        Some(s[0])
    } else {
        first_with_id(s.drop_first(), id)
    }
}

/// A source no longer linked to the generated file `removed`, if it was.
pub open spec fn unlinked(e: EntryView, removed: Option<Seq<char>>) -> EntryView {
    match removed {
        Some(p) => if e.generated_mdd_path == Some(p) {
            EntryView { generated_mdd_path: None, ..e }
        } else {
            e
        },
        None => e,
    }
}

/// The sources after removing those with the id `id`; when there was one,
/// the links of other sources to its stored file are dropped.
pub open spec fn spec_remove_source(s: Seq<EntryView>, id: Seq<char>) -> Seq<EntryView> {
    let removed = match first_with_id(s, id) {
        Some(e) => Some(e.stored_path),
        None => None,
    };
    s.map_values(|e: EntryView| unlinked(e, removed)).filter(|e: EntryView| e.id != id)
}

/// Removes the sources with the id `source_id` from the library and drops
/// the links other sources had to the removed one's stored file. The first
/// removed source comes back, for its files to be deleted.
pub fn remove_source(library: &mut DiagnosticSourceLibrary, source_id: &str) -> (r: Option<DiagnosticSourceEntry>)
    ensures
        final(library).format_version == old(library).format_version,
        entries_view(final(library).sources@) == spec_remove_source(entries_view(old(library).sources@), source_id@),
        match first_with_id(entries_view(old(library).sources@), source_id@) {
            Some(e) => r matches Some(x) && x@ == e,
            None => r is None,
        },
{
    let ghost s = entries_view(library.sources@);
    let n = library.sources.len();
    let mut found: Option<DiagnosticSourceEntry> = None;
    let mut i: usize = 0;
    assert(s.skip(0) =~= s);
    while i < n && found.is_none()
        invariant
            i <= n == library.sources@.len(),
            s == entries_view(library.sources@),
            library.sources@ == old(library).sources@,
            found is None ==> first_with_id(s, source_id@) == first_with_id(s.skip(i as int), source_id@),
            found matches Some(f) ==> first_with_id(s, source_id@) == Some(f@),
        decreases n - i + if found is None {
            1int
        } else {
            0int
        },
    {
        assert(s.skip(i as int)[0] == s[i as int]);
        if chars_eq(&str_chars(library.sources[i].id.as_str()), &str_chars(source_id)) {
            found = Some(library.sources[i].clone());
        } else {
            assert(s.skip(i as int).drop_first() =~= s.skip(i + 1));
            i += 1;
        }
    }
    proof {
        if found is None {
            assert(s.skip(n as int) =~= Seq::<EntryView>::empty());
        }
    }
    let ghost removed = match first_with_id(s, source_id@) {
        Some(e) => Some(e.stored_path),
        None => None,
    };
    let ghost mapped = s.map_values(|e: EntryView| unlinked(e, removed));
    let mut kept: Vec<DiagnosticSourceEntry> = Vec::new();
    let mut j: usize = 0;
    assert(entries_view(kept@) =~= mapped.take(0).filter(|e: EntryView| e.id != source_id@));
    while j < n
        invariant
            j <= n == library.sources@.len(),
            s == entries_view(library.sources@),
            library.sources@ == old(library).sources@,
            mapped == s.map_values(|e: EntryView| unlinked(e, removed)),
            removed == match found {
                Some(e) => Some(e.stored_path@),
                None => None::<Seq<char>>,
            },
            entries_view(kept@) == mapped.take(j as int).filter(|e: EntryView| e.id != source_id@),
        decreases n - j,
    {
        assert(mapped.take(j + 1).drop_last() =~= mapped.take(j as int));
        reveal(Seq::filter);
        let mut e = library.sources[j].clone();
        let clear = match (&found, &e.generated_mdd_path) {
            (Some(f), Some(g)) => chars_eq(&str_chars(f.stored_path.as_str()), &str_chars(g.as_str())),
            _ => false,
        };
        if clear {
            e.generated_mdd_path = None;
        }
        assert(e@ == mapped[j as int]);
        if !chars_eq(&str_chars(e.id.as_str()), &str_chars(source_id)) {
            let ghost before = kept@;
            kept.push(e);
            assert(entries_view(kept@) =~= entries_view(before).push(mapped[j as int]));
        }
        j += 1;
    }
    assert(mapped.take(n as int) =~= mapped);
    library.sources = kept;
    found
}

/// A source's stored or generated file is the MDD at `clean_mdd`, comparing
/// cleaned paths.
pub open spec fn refers_to_mdd(e: EntryView, clean_mdd: Seq<char>) -> bool {
    spec_clean_path(e.stored_path) == clean_mdd || match e.generated_mdd_path {
        Some(g) => spec_clean_path(g) == clean_mdd,
        None => false,
    }
}

/// The sources after recording `names` as the ECU variants of the MDD at
/// `mdd_path` (on every source whose stored or generated file it is).
pub open spec fn spec_persist_names(s: Seq<EntryView>, mdd_path: Seq<char>, names: Seq<Seq<char>>) -> Seq<EntryView> {
    if names.len() == 0 {
        s
    } else {
        s.map_values(
            |e: EntryView|
                if refers_to_mdd(e, spec_clean_path(mdd_path)) {
                    EntryView { ecu_names: names, ..e }
                } else {
                    e
                },
        )
    }
}

/// Records the ECU variants found in an MDD on every source whose stored or
/// generated file it is; whether anything changed (and needs saving).
pub fn persist_mdd_ecu_names(library: &mut DiagnosticSourceLibrary, mdd_path: &str, ecu_names: &Vec<String>) -> (changed: bool)
    ensures
        final(library).format_version == old(library).format_version,
        entries_view(final(library).sources@) == spec_persist_names(
            entries_view(old(library).sources@),
            mdd_path@,
            strings_view(ecu_names@),
        ),
        changed == (entries_view(final(library).sources@) != entries_view(old(library).sources@)),
{
    let ghost s = entries_view(library.sources@);
    let ghost names = strings_view(ecu_names@);
    if ecu_names.len() == 0 {
        return false;
    }
    let clean_mdd = clean_path(mdd_path);
    let ghost target = spec_persist_names(s, mdd_path@, names);
    let mut changed = false;
    let mut i: usize = 0;
    while i < library.sources.len()
        invariant
            i <= library.sources@.len() == s.len(),
            names.len() > 0,
            names == strings_view(ecu_names@),
            clean_mdd@ == spec_clean_path(mdd_path@),
            target == spec_persist_names(s, mdd_path@, names),
            s == entries_view(old(library).sources@),
            library.format_version == old(library).format_version,
            forall|k: int| 0 <= k < i ==> (#[trigger] library.sources@[k])@ == target[k],
            forall|k: int| i <= k < s.len() ==> (#[trigger] library.sources@[k])@ == s[k],
            changed == exists|k: int| 0 <= k < i && target[k] != s[k],
        decreases s.len() - i,
    {
        let e = &library.sources[i];
        let stored_matches = chars_eq(&str_chars(clean_path(e.stored_path.as_str()).as_str()), &str_chars(clean_mdd.as_str()));
        let generated_matches = match &e.generated_mdd_path {
            Some(g) => chars_eq(&str_chars(clean_path(g.as_str()).as_str()), &str_chars(clean_mdd.as_str())),
            None => false,
        };
        let ghost before = library.sources@;
        if stored_matches || generated_matches {
            let same = names_equal(&e.ecu_names, ecu_names);
            if !same {
                let mut updated = e.clone();
                updated.ecu_names = clone_strings(ecu_names);
                library.sources.set(i, updated);
                changed = true;
                assert(target[i as int] != s[i as int]);
            } else {
                assert(target[i as int] == s[i as int]);
            }
        }
        proof {
            assert forall|k: int| 0 <= k < i + 1 implies (#[trigger] library.sources@[k])@ == target[k] by {
                if k < i {
                    assert(library.sources@[k] == before[k]);
                }
            }
            assert forall|k: int| i + 1 <= k < s.len() implies (#[trigger] library.sources@[k])@ == s[k] by {
                assert(library.sources@[k] == before[k]);
            }
        }
        i += 1;
    }
    proof {
        assert(entries_view(library.sources@) =~= target);
        if !changed {
            assert(target =~= s);
        } else {
            let k = choose|k: int| 0 <= k < s.len() && target[k] != s[k];
            assert(entries_view(library.sources@)[k] != s[k]);
        }
    }
    changed
}

/// Whether two lists of texts are equal.
fn names_equal(a: &Vec<String>, b: &Vec<String>) -> (r: bool)
    ensures
        r == (strings_view(a@) == strings_view(b@)),
{
    if a.len() != b.len() {
        assert(strings_view(a@).len() != strings_view(b@).len());
        return false;
    }
    let mut i: usize = 0;
    while i < a.len()
        invariant
            i <= a@.len() == b@.len(),
            forall|k: int| 0 <= k < i ==> a@[k]@ == b@[k]@,
        decreases a@.len() - i,
    {
        if !(a[i] == b[i]) {
            assert(strings_view(a@)[i as int] != strings_view(b@)[i as int]);
            return false;
        }
        i += 1;
    }
    assert(strings_view(a@) =~= strings_view(b@));
    true
}

} // verus!

verus! {

/// Every id names a source.
pub open spec fn all_found(s: Seq<EntryView>, ids: Seq<Seq<char>>) -> bool {
    forall|i: int| 0 <= i < ids.len() ==> first_with_id(s, #[trigger] ids[i]) is Some
}

/// The source each id names, in the order of the ids.
pub open spec fn selected_sources(s: Seq<EntryView>, ids: Seq<Seq<char>>) -> Seq<EntryView> {
    ids.map_values(|id: Seq<char>| first_with_id(s, id)->0)
}

/// All the sources are of kind `kind`.
pub open spec fn all_of_kind(sel: Seq<EntryView>, kind: Seq<char>) -> bool {
    forall|i: int| 0 <= i < sel.len() ==> (#[trigger] sel[i]).kind == kind
}

/// Which sources a conversion takes: every id must name a source, and the
/// sources must be one PDX file or ODX files only.
pub open spec fn spec_select_for_conversion(s: Seq<EntryView>, ids: Seq<Seq<char>>) -> Result<
    Seq<EntryView>,
    Seq<char>,
> {
    if ids.len() == 0 {
        Err("Select one saved PDX or one/more saved ODX files."@)
    } else if !all_found(s, ids) {
        Err("One or more selected diagnostic sources no longer exist."@)
    } else {
        let sel = selected_sources(s, ids);
        if !(all_of_kind(sel, "pdx"@) || all_of_kind(sel, "odx"@)) {
            Err("Convert either one PDX file or a group containing only ODX files."@)
        } else if all_of_kind(sel, "pdx"@) && sel.len() != 1 {
            Err("Select exactly one PDX file for conversion."@)
        } else {
            Ok(sel)
        }
    }
}

/// The first source with the id `id`, copied.
fn find_source(sources: &Vec<DiagnosticSourceEntry>, id: &str) -> (r: Option<DiagnosticSourceEntry>)
    ensures
        match first_with_id(entries_view(sources@), id@) {
            Some(e) => r matches Some(x) && x@ == e,
            None => r is None,
        },
{
    let ghost s = entries_view(sources@);
    let mut i: usize = 0;
    assert(s.skip(0) =~= s);
    while i < sources.len()
        invariant
            i <= sources@.len(),
            s == entries_view(sources@),
            first_with_id(s, id@) == first_with_id(s.skip(i as int), id@),
        decreases sources@.len() - i,
    {
        assert(s.skip(i as int)[0] == s[i as int]);
        if chars_eq(&str_chars(sources[i].id.as_str()), &str_chars(id)) {
            return Some(sources[i].clone());
        }
        assert(s.skip(i as int).drop_first() =~= s.skip(i + 1));
        i += 1;
    }
    assert(s.skip(sources@.len() as int) =~= Seq::<EntryView>::empty());
    None
}

/// The sources a conversion of the saved sources `source_ids` takes, or why
/// they cannot be converted together.
pub fn select_sources_for_conversion(library: &DiagnosticSourceLibrary, source_ids: &Vec<String>) -> (r: Result<
    Vec<DiagnosticSourceEntry>,
    String,
>)
    ensures
        match spec_select_for_conversion(entries_view(library.sources@), strings_view(source_ids@)) {
            Ok(sel) => r matches Ok(v) && entries_view(v@) == sel,
            Err(m) => r matches Err(e) && e@ == m,
        },
{
    let ghost s = entries_view(library.sources@);
    let ghost ids = strings_view(source_ids@);
    if source_ids.len() == 0 {
        return Err(String::from_str("Select one saved PDX or one/more saved ODX files."));
    }
    let mut selected: Vec<DiagnosticSourceEntry> = Vec::new();
    let mut i: usize = 0;
    assert(entries_view(selected@) =~= selected_sources(s, ids.take(0)));
    while i < source_ids.len()
        invariant
            i <= source_ids@.len(),
            ids == strings_view(source_ids@),
            s == entries_view(library.sources@),
            all_found(s, ids.take(i as int)),
            entries_view(selected@) == selected_sources(s, ids.take(i as int)),
        decreases source_ids@.len() - i,
    {
        assert(ids[i as int] == source_ids@[i as int]@);
        match find_source(&library.sources, source_ids[i].as_str()) {
            Some(e) => {
                let ghost before = selected@;
                assert(e@ == first_with_id(s, ids[i as int])->0);
                selected.push(e);
                assert(ids.take(i + 1) =~= ids.take(i as int).push(ids[i as int]));
                assert(selected_sources(s, ids.take(i + 1)) =~= selected_sources(s, ids.take(i as int)).push(first_with_id(s, ids[i as int])->0));
                assert(entries_view(selected@) =~= entries_view(before).push(e@));
                assert forall|k: int| 0 <= k < i + 1 implies first_with_id(s, #[trigger] ids.take(i + 1)[k]) is Some by {
                    if k < i {
                        assert(ids.take(i + 1)[k] == ids.take(i as int)[k]);
                    }
                }
            },
            None => {
                assert(!all_found(s, ids)) by {
                    assert(first_with_id(s, ids[i as int]) is None);
                }
                return Err(String::from_str("One or more selected diagnostic sources no longer exist."));
            },
        }
        i += 1;
    }
    assert(ids.take(ids.len() as int) =~= ids);
    let first_kind = selected[0].kind.clone();
    let mut same = true;
    let mut k: usize = 0;
    while k < selected.len()
        invariant
            k <= selected@.len(),
            selected@.len() > 0,
            first_kind@ == selected@[0]@.kind,
            same == forall|j: int| 0 <= j < k ==> (#[trigger] selected@[j]).kind@ == first_kind@,
        decreases selected@.len() - k,
    {
        if !(selected[k].kind == first_kind) {
            same = false;
        }
        k += 1;
    }
    let ghost sel = entries_view(selected@);
    proof {
        reveal_strlit("pdx");
        reveal_strlit("odx");
        assert("odx"@[0] != "pdx"@[0]);
        assert forall|j: int| 0 <= j < sel.len() implies (#[trigger] sel[j]).kind == selected@[j].kind@ by {}
    }
    let is_pdx = chars_eq(&str_chars(first_kind.as_str()), &str_chars("pdx"));
    let is_odx = chars_eq(&str_chars(first_kind.as_str()), &str_chars("odx"));
    if !same || !(is_pdx || is_odx) {
        proof {
            if same {
                if all_of_kind(sel, "pdx"@) {
                    assert(sel[0].kind == "pdx"@);
                }
                if all_of_kind(sel, "odx"@) {
                    assert(sel[0].kind == "odx"@);
                }
            } else {
                let j = choose|j: int| 0 <= j < selected@.len() && (#[trigger] selected@[j]).kind@ != first_kind@;
                if all_of_kind(sel, "pdx"@) {
                    assert(sel[j].kind == "pdx"@);
                    assert(sel[0].kind == "pdx"@);
                }
                if all_of_kind(sel, "odx"@) {
                    assert(sel[j].kind == "odx"@);
                    assert(sel[0].kind == "odx"@);
                }
            }
        }
        return Err(String::from_str("Convert either one PDX file or a group containing only ODX files."));
    }
    proof {
        if is_pdx {
            assert(all_of_kind(sel, "pdx"@));
        } else {
            assert(all_of_kind(sel, "odx"@));
            if all_of_kind(sel, "pdx"@) {
                assert(sel[0].kind == "pdx"@);
            }
        }
    }
    if is_pdx && selected.len() != 1 {
        return Err(String::from_str("Select exactly one PDX file for conversion."));
    }
    Ok(selected)
}

/// The stem of a file name, as `Path::file_stem` gives it: the name up to
/// its last dot, unless that dot is the first character or there is none;
/// nothing for `.` and `..`.
pub open spec fn spec_file_stem(name: Seq<char>) -> Seq<char> {
    if name.len() == 0 || name == seq!['.'] || name == seq!['.', '.'] {
        Seq::empty()
    } else if exists|i: int| 0 < i < name.len() && name[i] == '.' {
        let i = choose|i: int| 0 < i < name.len() && name[i] == '.' && forall|j: int| i < j < name.len() ==> name[j] != '.';
        name.take(i)
    } else {
        name
    }
}

/// The stem of a file name.
pub fn file_stem(name: &str) -> (r: String)
    ensures
        r@ == spec_file_stem(name@),
{
    let v = str_chars(name);
    let n = v.len();
    if n == 0 || (n == 1 && v[0] == '.') || (n == 2 && v[0] == '.' && v[1] == '.') {
        proof {
            if n == 1 {
                assert(v@ =~= seq!['.']);
            }
            if n == 2 {
                assert(v@ =~= seq!['.', '.']);
            }
        }
        return String::new();
    }
    proof {
        if v@ == seq!['.'] {
            assert(v@[0] == '.');
        }
        if v@ == seq!['.', '.'] {
            assert(v@[0] == '.' && v@[1] == '.');
        }
    }
    let mut i: usize = n;
    while i > 1 && v[i - 1] != '.'
        invariant
            1 <= i <= n == v@.len(),
            forall|j: int| i <= j < n ==> v@[j] != '.',
        decreases i,
    {
        i -= 1;
    }
    if i > 1 {
        let dot = i - 1;
        proof {
            assert(0 < dot < n && v@[dot as int] == '.');
            let c = choose|c: int| 0 < c < v@.len() && v@[c] == '.' && forall|j: int| c < j < v@.len() ==> v@[j] != '.';
            if c < dot {
                assert(v@[dot as int] != '.');
            }
            if c > dot {
                assert(v@[c] != '.');
            }
        }
        let stem = vstd::slice::slice_subrange(v.as_slice(), 0, dot);
        assert(stem@ =~= v@.take(dot as int));
        chars_to_string(stem)
    } else {
        chars_to_string(&v)
    }
}

/// The name of the MDD file a conversion writes: after the single source's
/// stem, or for an ODX group, with the time of the conversion.
pub open spec fn spec_conversion_output_name(selected: Seq<EntryView>, now: u64) -> Seq<char> {
    if selected.len() == 1 {
        spec_safe_folder_name(spec_file_stem(selected[0].name), "diagnostic"@) + "_"@ + digits_in(now as nat, 10)
            + ".mdd"@
    } else {
        "odx_group_"@ + digits_in(now as nat, 10) + ".mdd"@
    }
}

/// The file name of the MDD that converting `selected` at `now` produces.
pub fn conversion_output_name(selected: &Vec<DiagnosticSourceEntry>, now: u64) -> (r: String)
    ensures
        r@ == spec_conversion_output_name(entries_view(selected@), now),
{
    if selected.len() == 1 {
        let stem = file_stem(selected[0].name.as_str());
        let mut m = safe_folder_name(stem.as_str(), "diagnostic");
        m.append("_");
        m.append(u64_to_decimal(now).as_str());
        m.append(".mdd");
        m
    } else {
        let mut m = String::from_str("odx_group_");
        m.append(u64_to_decimal(now).as_str());
        m.append(".mdd");
        m
    }
}

} // verus!

verus! {

/// The sources named by `ids` linked to the generated file `output`.
pub open spec fn spec_link_sources(s: Seq<EntryView>, ids: Seq<Seq<char>>, output: Seq<char>) -> Seq<EntryView> {
    s.map_values(
        |e: EntryView|
            if ids.contains(e.id) {
                EntryView { generated_mdd_path: Some(output), ..e }
            } else {
                e
            },
    )
}

/// Whether the text is one of the texts.
fn contains_string(v: &Vec<String>, x: &String) -> (r: bool)
    ensures
        r == strings_view(v@).contains(x@),
{
    let mut i: usize = 0;
    while i < v.len()
        invariant
            i <= v@.len(),
            forall|k: int| 0 <= k < i ==> v@[k]@ != x@,
        decreases v@.len() - i,
    {
        if v[i] == *x {
            assert(strings_view(v@)[i as int] == x@);
            return true;
        }
        i += 1;
    }
    proof {
        if strings_view(v@).contains(x@) {
            let k = choose|k: int| 0 <= k < strings_view(v@).len() && strings_view(v@)[k] == x@;
            assert(v@[k]@ == x@);
        }
    }
    false
}

/// Records a finished conversion: the converted sources are linked to the
/// generated MDD, which is added as a source of its own.
pub fn record_conversion(
    library: &mut DiagnosticSourceLibrary,
    source_ids: &Vec<String>,
    mdd_entry: DiagnosticSourceEntry,
)
    ensures
        final(library).format_version == old(library).format_version,
        entries_view(final(library).sources@) == spec_link_sources(
            entries_view(old(library).sources@),
            strings_view(source_ids@),
            mdd_entry@.stored_path,
        ).push(mdd_entry@),
{
    let ghost s = entries_view(library.sources@);
    let ghost target = spec_link_sources(s, strings_view(source_ids@), mdd_entry@.stored_path);
    let mut i: usize = 0;
    while i < library.sources.len()
        invariant
            i <= library.sources@.len() == s.len(),
            s == entries_view(old(library).sources@),
            target == spec_link_sources(s, strings_view(source_ids@), mdd_entry@.stored_path),
            library.format_version == old(library).format_version,
            forall|k: int| 0 <= k < i ==> (#[trigger] library.sources@[k])@ == target[k],
            forall|k: int| i <= k < s.len() ==> (#[trigger] library.sources@[k])@ == s[k],
        decreases s.len() - i,
    {
        let ghost before = library.sources@;
        if contains_string(source_ids, &library.sources[i].id) {
            let mut updated = library.sources[i].clone();
            updated.generated_mdd_path = Some(mdd_entry.stored_path.clone());
            library.sources.set(i, updated);
        }
        proof {
            assert forall|k: int| 0 <= k < i + 1 implies (#[trigger] library.sources@[k])@ == target[k] by {
                if k < i {
                    assert(library.sources@[k] == before[k]);
                }
            }
            assert forall|k: int| i + 1 <= k < s.len() implies (#[trigger] library.sources@[k])@ == s[k] by {
                assert(library.sources@[k] == before[k]);
            }
        }
        i += 1;
    }
    let ghost linked = library.sources@;
    library.sources.push(mdd_entry);
    assert(entries_view(library.sources@) =~= entries_view(linked).push(mdd_entry@));
    assert(entries_view(linked) =~= target);
}

/// The ECU variants of a generated MDD: those of the converted sources, the
/// name the conversion reports (unless blank) and those found in the MDD,
/// each once, sorted.
pub open spec fn is_conversion_name_list(
    names: Seq<Seq<char>>,
    selected: Seq<EntryView>,
    generated: Option<Seq<char>>,
    discovered: Seq<Seq<char>>,
) -> bool {
    &&& strictly_sorted(names)
    &&& forall|x: Seq<char>| #![trigger names.contains(x)] names.contains(x) <==> (
        (exists|i: int| 0 <= i < selected.len() && (#[trigger] selected[i]).ecu_names.contains(x))
        || (generated == Some(x) && trim(x).len() > 0)
        || discovered.contains(x)
    )
}

/// Adds the texts to a sorted list of texts.
fn insert_all(names: &mut Vec<String>, more: &Vec<String>)
    requires
        strictly_sorted(strings_view(old(names)@)),
    ensures
        strictly_sorted(strings_view(final(names)@)),
        forall|x: Seq<char>| #![trigger strings_view(final(names)@).contains(x)]
            strings_view(final(names)@).contains(x) <==> (strings_view(old(names)@).contains(x)
                || strings_view(more@).contains(x)),
{
    let ghost start = strings_view(names@);
    let mut i: usize = 0;
    while i < more.len()
        invariant
            i <= more@.len(),
            strictly_sorted(strings_view(names@)),
            forall|x: Seq<char>| #![trigger strings_view(names@).contains(x)]
                strings_view(names@).contains(x) <==> (start.contains(x) || strings_view(more@.take(i as int)).contains(x)),
        decreases more@.len() - i,
    {
        insert_sorted_unique(names, more[i].clone());
        proof {
            let t0 = strings_view(more@.take(i as int));
            let t1 = strings_view(more@.take(i + 1));
            assert(t1 =~= t0.push(more@[i as int]@));
            assert forall|x: Seq<char>| t1.contains(x) <==> (t0.contains(x) || x == more@[i as int]@) by {
                if t1.contains(x) {
                    let k = choose|k: int| 0 <= k < t1.len() && t1[k] == x;
                    if k < i {
                        assert(t0[k] == x);
                    }
                }
                if t0.contains(x) {
                    let k = choose|k: int| 0 <= k < t0.len() && t0[k] == x;
                    assert(t1[k] == x);
                }
                if x == more@[i as int]@ {
                    assert(t1[i as int] == x);
                }
            }
        }
        i += 1;
    }
    assert(more@.take(more@.len() as int) =~= more@);
}

/// The ECU variants recorded for the MDD a conversion produced.
pub fn conversion_ecu_names(
    selected: &Vec<DiagnosticSourceEntry>,
    generated: Option<String>,
    discovered: &Vec<String>,
) -> (r: Vec<String>)
    ensures
        is_conversion_name_list(
            strings_view(r@),
            entries_view(selected@),
            match generated {
                Some(g) => Some(g@),
                None => None,
            },
            strings_view(discovered@),
        ),
{
    let ghost sel = entries_view(selected@);
    let mut names: Vec<String> = Vec::new();
    let mut i: usize = 0;
    assert(strings_view(names@) =~= Seq::<Seq<char>>::empty());
    while i < selected.len()
        invariant
            i <= selected@.len(),
            sel == entries_view(selected@),
            strictly_sorted(strings_view(names@)),
            forall|x: Seq<char>| #![trigger strings_view(names@).contains(x)]
                strings_view(names@).contains(x) <==> exists|j: int| 0 <= j < i && (#[trigger] sel[j]).ecu_names.contains(x),
        decreases selected@.len() - i,
    {
        insert_all(&mut names, &selected[i].ecu_names);
        proof {
            assert(sel[i as int].ecu_names == strings_view(selected@[i as int].ecu_names@));
            assert forall|x: Seq<char>| #![trigger strings_view(names@).contains(x)] strings_view(names@).contains(x) <==> exists|j: int| 0 <= j < i + 1 && (#[trigger] sel[j]).ecu_names.contains(x) by {
                if exists|j: int| 0 <= j < i + 1 && (#[trigger] sel[j]).ecu_names.contains(x) {
                    let j = choose|j: int| 0 <= j < i + 1 && (#[trigger] sel[j]).ecu_names.contains(x);
                    if j < i {
                    }
                }
            }
        }
        i += 1;
    }
    if let Some(g) = generated {
        if trim_chars(&str_chars(g.as_str())).len() > 0 {
            insert_sorted_unique(&mut names, g);
        }
    }
    insert_all(&mut names, discovered);
    names
}

/// The sources after a PDX conversion: each PDX source whose stored file is
/// the converted input (`input_matches`, source by source) is linked to the
/// generated MDD.
pub open spec fn spec_link_converted(s: Seq<EntryView>, input_matches: Seq<bool>, output: Seq<char>) -> Seq<EntryView> {
    Seq::new(
        s.len(),
        |i: int|
            if s[i].kind == "pdx"@ && i < input_matches.len() && input_matches[i] {
                EntryView { generated_mdd_path: Some(output), ..s[i] }
            } else {
                s[i]
            },
    )
}

/// Links the PDX sources whose stored file was converted to the generated MDD.
pub fn link_generated_mdd(library: &mut DiagnosticSourceLibrary, input_matches: &[bool], output: &String)
    ensures
        final(library).format_version == old(library).format_version,
        entries_view(final(library).sources@) == spec_link_converted(
            entries_view(old(library).sources@),
            input_matches@,
            output@,
        ),
{
    let ghost s = entries_view(library.sources@);
    let ghost target = spec_link_converted(s, input_matches@, output@);
    let mut i: usize = 0;
    while i < library.sources.len()
        invariant
            i <= library.sources@.len() == s.len(),
            s == entries_view(old(library).sources@),
            target == spec_link_converted(s, input_matches@, output@),
            library.format_version == old(library).format_version,
            forall|k: int| 0 <= k < i ==> (#[trigger] library.sources@[k])@ == target[k],
            forall|k: int| i <= k < s.len() ==> (#[trigger] library.sources@[k])@ == s[k],
        decreases s.len() - i,
    {
        let ghost before = library.sources@;
        let is_pdx = chars_eq(&str_chars(library.sources[i].kind.as_str()), &str_chars("pdx"));
        if is_pdx && i < input_matches.len() && input_matches[i] {
            let mut updated = library.sources[i].clone();
            updated.generated_mdd_path = Some(output.clone());
            library.sources.set(i, updated);
        }
        proof {
            assert forall|k: int| 0 <= k < i + 1 implies (#[trigger] library.sources@[k])@ == target[k] by {
                if k < i {
                    assert(library.sources@[k] == before[k]);
                }
            }
            assert forall|k: int| i + 1 <= k < s.len() implies (#[trigger] library.sources@[k])@ == s[k] by {
                assert(library.sources@[k] == before[k]);
            }
        }
        i += 1;
    }
    assert(entries_view(library.sources@) =~= target);
}

/// Whether some source's stored file is at `path` (compared as text).
pub fn has_source_stored_at(library: &DiagnosticSourceLibrary, path: &String) -> (r: bool)
    ensures
        r == exists|i: int| 0 <= i < library.sources@.len() && (#[trigger] library.sources@[i]).stored_path@ == path@,
{
    let mut i: usize = 0;
    while i < library.sources.len()
        invariant
            i <= library.sources@.len(),
            forall|k: int| 0 <= k < i ==> (#[trigger] library.sources@[k]).stored_path@ != path@,
        decreases library.sources@.len() - i,
    {
        if library.sources[i].stored_path == *path {
            return true;
        }
        i += 1;
    }
    false
}

/// The project output folder the user chose, cleaned, unless blank.
pub fn chosen_output_dir(preference: Option<&str>) -> (r: Option<String>)
    ensures
        match preference {
            Some(p) => if spec_clean_path(p@).len() > 0 {
                r matches Some(d) && d@ == spec_clean_path(p@)
            } else {
                r is None
            },
            None => r is None,
        },
{
    match preference {
        Some(raw) => {
            let clean = clean_path(raw);
            if clean.as_str().is_empty() {
                None
            } else {
                Some(clean)
            }
        },
        None => None,
    }
}

/// The exit code as `{:?}` writes an `Option<i32>`.
pub open spec fn exit_code_text(code: Option<i32>) -> Seq<char> {
    match code {
        Some(c) => "Some("@ + signed_decimal(c as int) + ")"@,
        None => "None"@,
    }
}

/// What a PDX validation run reports, from the validator's exit status and
/// output: its output (or a default text) on success; on failure its error
/// output, else its output, else the exit code.
pub open spec fn spec_validation_outcome(success: bool, stdout: Seq<char>, stderr: Seq<char>, code: Option<i32>) -> Result<
    Seq<char>,
    Seq<char>,
> {
    let out = trim(stdout);
    let err = trim(stderr);
    if success {
        if out.len() == 0 {
            Ok("PDX file is valid."@)
        } else {
            Ok(out)
        }
    } else if err.len() > 0 {
        Err(err)
    } else if out.len() > 0 {
        Err(out)
    } else {
        Err("PDX validation failed with exit code "@ + exit_code_text(code) + "."@)
    }
}

/// The result of a PDX validation run.
pub fn pdx_validation_outcome(success: bool, stdout: &str, stderr: &str, code: Option<i32>) -> (r: Result<
    String,
    String,
>)
    ensures
        match spec_validation_outcome(success, stdout@, stderr@, code) {
            Ok(m) => r matches Ok(x) && x@ == m,
            Err(m) => r matches Err(x) && x@ == m,
        },
{
    let out = trim_chars(&str_chars(stdout));
    let err = trim_chars(&str_chars(stderr));
    if success {
        if out.len() == 0 {
            Ok(String::from_str("PDX file is valid."))
        } else {
            Ok(chars_to_string(&out))
        }
    } else if err.len() > 0 {
        Err(chars_to_string(&err))
    } else if out.len() > 0 {
        Err(chars_to_string(&out))
    } else {
        let mut m = String::from_str("PDX validation failed with exit code ");
        match code {
            Some(c) => {
                m.append("Some(");
                m.append(i64_to_decimal(c as i64).as_str());
                m.append(")");
            },
            None => {
                m.append("None");
            },
        }
        m.append(".");
        Err(m)
    }
}

/// `{prefix}_{stamp}` or `{prefix}_{stamp}_{index}`: the id of a source.
pub open spec fn spec_source_id(prefix: Seq<char>, stamp: u64, index: Option<usize>) -> Seq<char> {
    prefix + "_"@ + digits_in(stamp as nat, 10) + match index {
        Some(i) => "_"@ + digits_in(i as nat, 10),
        None => Seq::empty(),
    }
}

/// The id of a source: `src_{stamp}_{index}` for an imported file,
/// `mdd_{stamp}` for a generated MDD.
pub fn source_id(prefix: &str, stamp: u64, index: Option<usize>) -> (r: String)
    ensures
        r@ == spec_source_id(prefix@, stamp, index),
{
    let mut m = String::from_str(prefix);
    m.append("_");
    m.append(u64_to_decimal(stamp).as_str());
    if let Some(i) = index {
        m.append("_");
        m.append(u64_to_decimal(i as u64).as_str());
    }
    m
}

/// The report of a successful PDX conversion.
pub open spec fn spec_conversion_report(
    output: Seq<char>,
    duration_ms: u64,
    raw_size: u64,
    uncompressed_size: u64,
    compressed_size: u64,
) -> Seq<char> {
    "Conversion succeeded.\nOutput saved in Workspace: "@ + output + "\nDuration: "@ + digits_in(
        duration_ms as nat,
        10,
    ) + " ms\nRaw ODX: "@ + digits_in(raw_size as nat, 10) + " bytes\nUncompressed diagnostic data: "@
        + digits_in(uncompressed_size as nat, 10) + " bytes\nMDD size: "@ + digits_in(
        compressed_size as nat,
        10,
    ) + " bytes"@
}

/// Reports a successful PDX conversion: where the MDD went, how long it
/// took and the sizes involved.
pub fn conversion_report(
    output: &str,
    duration_ms: u64,
    raw_size: u64,
    uncompressed_size: u64,
    compressed_size: u64,
) -> (r: String)
    ensures
        r@ == spec_conversion_report(output@, duration_ms, raw_size, uncompressed_size, compressed_size),
{
    let mut m = String::from_str("Conversion succeeded.\nOutput saved in Workspace: ");
    m.append(output);
    m.append("\nDuration: ");
    m.append(u64_to_decimal(duration_ms).as_str());
    m.append(" ms\nRaw ODX: ");
    m.append(u64_to_decimal(raw_size).as_str());
    m.append(" bytes\nUncompressed diagnostic data: ");
    m.append(u64_to_decimal(uncompressed_size).as_str());
    m.append(" bytes\nMDD size: ");
    m.append(u64_to_decimal(compressed_size).as_str());
    m.append(" bytes");
    m
}

} // verus!

verus! {

proof fn lemma_no_first_with_id(s: Seq<EntryView>, id: Seq<char>)
    requires
        forall|i: int| 0 <= i < s.len() ==> (#[trigger] s[i]).id != id,
    ensures
        first_with_id(s, id) is None,
    decreases s.len(),
{
    if s.len() > 0 {
        assert(s[0].id != id);
        assert forall|i: int| 0 <= i < s.drop_first().len() implies (#[trigger] s.drop_first()[i]).id
            != id by {
            assert(s.drop_first()[i] == s[i + 1]);
        }
        lemma_no_first_with_id(s.drop_first(), id);
    }
}

/// After a source is removed no source has its id, and removing it again
/// leaves the sources as they are.
pub proof fn lemma_remove_source_forgets(s: Seq<EntryView>, id: Seq<char>)
    ensures
        forall|i: int|
            0 <= i < spec_remove_source(s, id).len() ==> (#[trigger] spec_remove_source(s, id)[i]).id
                != id,
        first_with_id(spec_remove_source(s, id), id) is None,
        spec_remove_source(spec_remove_source(s, id), id) == spec_remove_source(s, id),
{
    broadcast use Seq::lemma_filter_pred;

    let r = spec_remove_source(s, id);
    let keep = |e: EntryView| e.id != id;
    assert forall|i: int| 0 <= i < r.len() implies (#[trigger] r[i]).id != id by {
        assert(keep(r[i]));
    }
    lemma_no_first_with_id(r, id);
    let mapped = r.map_values(|e: EntryView| unlinked(e, None));
    assert(mapped =~= r);
    lemma_filter_keeps_all(r, keep);
}

/// Recording the same ECU variants for the same MDD a second time changes
/// nothing, so `persist_mdd_ecu_names` then reports no change.
pub proof fn lemma_persist_names_idempotent(s: Seq<EntryView>, mdd_path: Seq<char>, names: Seq<Seq<char>>)
    ensures
        spec_persist_names(spec_persist_names(s, mdd_path, names), mdd_path, names) == spec_persist_names(
            s,
            mdd_path,
            names,
        ),
{
    let once = spec_persist_names(s, mdd_path, names);
    assert(spec_persist_names(once, mdd_path, names) =~= once);
}

} // verus!

verus! {

/// The source entry of an MDD file that a conversion produced: of kind
/// `mdd`, linked to no generated file of its own.
pub fn generated_mdd_entry(
    id: String,
    name: String,
    original_path: String,
    stored_path: String,
    ecu_names: Vec<String>,
    imported_at_ms: u64,
) -> (e: DiagnosticSourceEntry)
    ensures
        e@ == (EntryView {
            id: id@,
            name: name@,
            kind: "mdd"@,
            original_path: original_path@,
            stored_path: stored_path@,
            ecu_names: strings_view(ecu_names@),
            generated_mdd_path: None,
            imported_at_ms,
        }),
{
    DiagnosticSourceEntry {
        id,
        name,
        kind: String::from_str("mdd"),
        original_path,
        stored_path,
        ecu_names,
        generated_mdd_path: None,
        imported_at_ms,
    }
}

/// Adds a generated MDD as a source of its own, unless some source is
/// already stored at its path; whether it was added.
pub fn add_generated_mdd(library: &mut DiagnosticSourceLibrary, entry: DiagnosticSourceEntry) -> (added: bool)
    ensures
        added == !exists|i: int|
            0 <= i < old(library).sources@.len() && (#[trigger] old(library).sources@[i]).stored_path@
                == entry.stored_path@,
        final(library).format_version == old(library).format_version,
        added ==> entries_view(final(library).sources@) == entries_view(old(library).sources@).push(
            entry@,
        ),
        !added ==> final(library).sources@ == old(library).sources@,
{
    if has_source_stored_at(library, &entry.stored_path) {
        false
    } else {
        let ghost before = library.sources@;
        library.sources.push(entry);
        assert(entries_view(library.sources@) =~= entries_view(before).push(entry@));
        true
    }
}

/// Accepts saved sequence state of the current format, 1, only.
pub fn check_sequence_state_version(format_version: u16) -> (r: Result<(), String>)
    ensures
        format_version == 1 ==> r is Ok,
        format_version != 1 ==> (r matches Err(m) && m@ == "Unsupported sequence state version: "@
            + digits_in(format_version as nat, 10)),
{
    if format_version == 1 {
        Ok(())
    } else {
        let mut m = String::from_str("Unsupported sequence state version: ");
        m.append(u64_to_decimal(format_version as u64).as_str());
        Err(m)
    }
}

} // verus!

verus! {

/// A path typed or picked for a file of the kind `what`: cleaned, or an
/// error when nothing is left of it.
pub fn selected_path(raw: &str, what: &str) -> (r: Result<String, String>)
    ensures
        spec_clean_path(raw@).len() > 0 ==> (r matches Ok(p) && p@ == spec_clean_path(raw@)),
        spec_clean_path(raw@).len() == 0 ==> (r matches Err(m) && m@ == "No "@ + what@
            + " file was selected."@),
{
    let p = clean_path(raw);
    if p.as_str().is_empty() {
        let mut m = String::from_str("No ");
        m.append(what);
        m.append(" file was selected.");
        Err(m)
    } else {
        Ok(p)
    }
}

/// The kind a picked file is imported as: none for a name of no known kind
/// or a file that does not exist.
pub fn importable_kind(file_name: Option<&str>, exists: bool) -> (r: Option<&'static str>)
    ensures
        !exists ==> r is None,
        exists && file_name is None ==> r is None,
        exists && file_name is Some ==> match r {
            Some(k) => crate::text::spec_diagnostic_kind(file_name->0@) == Some(k@),
            None => crate::text::spec_diagnostic_kind(file_name->0@) is None,
        },
{
    match crate::text::diagnostic_kind(file_name) {
        Some(k) => if exists {
            Some(k)
        } else {
            None
        },
        None => None,
    }
}

/// The entry of the `index`-th file imported at `stamp`: id
/// `src_{stamp}_{index}`, no ECU variants yet, linked to no generated file.
pub fn imported_source_entry(
    stamp: u64,
    index: usize,
    name: String,
    kind: &str,
    original_path: String,
    stored_path: String,
    imported_at_ms: u64,
) -> (e: DiagnosticSourceEntry)
    ensures
        e@ == (EntryView {
            id: spec_source_id("src"@, stamp, Some(index)),
            name: name@,
            kind: kind@,
            original_path: original_path@,
            stored_path: stored_path@,
            ecu_names: Seq::empty(),
            generated_mdd_path: None,
            imported_at_ms,
        }),
{
    let e = DiagnosticSourceEntry {
        id: source_id("src", stamp, Some(index)),
        name,
        kind: String::from_str(kind),
        original_path,
        stored_path,
        ecu_names: Vec::new(),
        generated_mdd_path: None,
        imported_at_ms,
    };
    assert(strings_view(e.ecu_names@) =~= Seq::<Seq<char>>::empty());
    e
}

} // verus!
