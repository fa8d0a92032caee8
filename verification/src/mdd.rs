//! The MDD container: its header, the protobuf chunk holding the
//! LZMA-compressed FlatBuffer, bounded decompression, and the walk over the
//! FlatBuffer's ECU variants that yields the UDS services.
use vstd::prelude::*;
use crate::error::DecodeError;
use crate::flatbuf::{
    fb_string_field, fb_table_field, fb_vector_tables, read_u32_le, spec_fb_string_field,
    spec_fb_table_field, spec_fb_vector_tables, spec_read_u32,
};
use crate::protobuf::{protobuf_length_field, spec_pb_find};
use crate::service::{
    collect_layer_services, collect_parent_services, extends, spec_layer_services,
    spec_parent_services,
};
use crate::text::{digits_in, u64_to_decimal};
use crate::decode::or_else;
use crate::uds::{services_view, ServiceView, UdsMddService};

verus! {

#[verifier::external_type_specification]
#[verifier::external_body]
pub struct ExIoError(std::io::Error);

/// Builds an `std::io::Error` of kind `InvalidData` with `std::io::Error::new`.
/// Nothing is claimed of the error.
#[verifier::external_body]
fn invalid_data(message: String) -> std::io::Error {
    std::io::Error::new(std::io::ErrorKind::InvalidData, message)
}

/// An output sink that collects bytes up to a limit and refuses to grow past it.
pub struct LimitedVecWriter {
    data: Vec<u8>,
    max_len: usize,
}

impl LimitedVecWriter {
    /// The bytes collected so far.
    pub closed spec fn contents(&self) -> Seq<u8> {
        self.data@
    }

    /// The most bytes the sink accepts.
    pub closed spec fn limit(&self) -> usize {
        self.max_len
    }

    /// An empty sink that accepts up to `max_len` bytes.
    pub fn new(max_len: usize) -> (w: Self)
        ensures
            w.contents() == Seq::<u8>::empty(),
            w.limit() == max_len,
    {
        LimitedVecWriter { data: Vec::new(), max_len }
    }

    /// The bytes collected.
    pub fn into_data(self) -> (v: Vec<u8>)
        ensures
            v@ == self.contents(),
    {
        self.data
    }
}

impl std::io::Write for LimitedVecWriter {
    /// Accepts all of `buf` when the total stays within the limit, and
    /// nothing otherwise.
    fn write(&mut self, buf: &[u8]) -> (r: Result<usize, std::io::Error>)
        ensures
            final(self).limit() == old(self).limit(),
            r is Ok == (old(self).contents().len() + buf@.len() <= old(self).limit()),
            r matches Ok(n) ==> n == buf@.len() && final(self).contents() == old(self).contents()
                + buf@,
            r is Err ==> final(self).contents() == old(self).contents(),
            old(self).contents().len() <= old(self).limit() ==> final(self).contents().len()
                <= final(self).limit(),
    {
        let next = match self.data.len().checked_add(buf.len()) {
            Some(n) => n,
            None => {
                return Err(invalid_data(String::from_str("MDD decompressed size overflow")));
            },
        };
        if next > self.max_len {
            let mut m = String::from_str("MDD decompressed FlatBuffer exceeds safety limit of ");
            let limit = u64_to_decimal(self.max_len as u64);
            m.append(limit.as_str());
            m.append(" bytes");
            return Err(invalid_data(m));
        }
        let mut i: usize = 0;
        let ghost start = self.data@;
        while i < buf.len()
            invariant
                i <= buf@.len(),
                self.data@ == start + buf@.take(i as int),
                self.max_len == old(self).max_len,
            decreases buf@.len() - i,
        {
            self.data.push(buf[i]);
            i += 1;
            assert(self.data@ =~= start + buf@.take(i as int));
        }
        assert(buf@.take(buf@.len() as int) =~= buf@);
        Ok(buf.len())
    }

    /// Nothing is buffered, so there is nothing to flush.
    fn flush(&mut self) -> (r: Result<(), std::io::Error>)
        ensures
            *final(self) == *old(self),
            r is Ok,
    {
        Ok(())
    }
}

/// What LZMA decompression of `compressed` yields (with no limit on the
/// output), or `None` when `compressed` is not a valid LZMA stream.
pub uninterp spec fn spec_lzma_decompress(compressed: Seq<u8>) -> Option<Seq<u8>>;

/// Calls `lzma_rs::lzma_decompress`, writing into `out`; an error comes
/// back as its text. Claimed: the sink only grows and keeps its limit; on
/// success it grew by exactly the decompressed stream; a valid stream that
/// fits within the limit succeeds. What the error text says is not stated.
#[verifier::external_body]
fn lzma_decompress_into(compressed: Vec<u8>, out: &mut LimitedVecWriter) -> (r: Result<(), String>)
    ensures
        final(out).limit() == old(out).limit(),
        extends(old(out).contents(), final(out).contents()),
        old(out).contents().len() <= old(out).limit() ==> final(out).contents().len()
            <= final(out).limit(),
        r is Ok ==> spec_lzma_decompress(compressed@) == Some(
            final(out).contents().skip(old(out).contents().len() as int),
        ),
        (spec_lzma_decompress(compressed@) matches Some(b) && old(out).contents().len() + b.len()
            <= old(out).limit()) ==> r is Ok,
{
    match lzma_rs::lzma_decompress(&mut std::io::Cursor::new(compressed), out) {
        Ok(()) => Ok(()),
        Err(e) => Err(e.to_string()),
    }
}

/// The most bytes a decompressed MDD FlatBuffer may take: 512 MiB.
pub const MAX_DECOMPRESSED_MDD_BYTES: usize = 536870912;

/// The 16-byte header text that newer MDD files start with.
pub open spec fn mdd_magic() -> Seq<u8> {
    seq![77u8, 68, 68, 32, 118, 101, 114, 115, 105, 111, 110, 32, 48, 32, 32, 32]
}

/// Two errors are the same, where the text of a decompression failure,
/// which the LZMA library words, is not compared.
pub open spec fn same_error(a: DecodeError, b: DecodeError) -> bool {
    a == b || (a is DecompressionFailed && b is DecompressionFailed)
}

/// The protobuf payload after the MDD header: past the 20-byte header of
/// newer files, else past a 4-byte prefix.
pub open spec fn spec_mdd_payload(mdd: Seq<u8>) -> Result<Seq<u8>, DecodeError> {
    if mdd.len() < 8 {
        Err(DecodeError::MddTooSmall)
    } else if mdd.len() >= 16 && mdd.take(16) == mdd_magic() {
        if mdd.len() >= 20 {
            Ok(mdd.skip(20))
        } else {
            Err(DecodeError::InvalidMddHeader)
        }
    } else {
        Ok(mdd.skip(4))
    }
}

/// The FlatBuffer inside an MDD file: protobuf field 6 of the payload holds
/// a chunk whose field 8 is the LZMA-compressed FlatBuffer, which must
/// decompress to at most 512 MiB.
pub open spec fn spec_extract_flatbuffer(mdd: Seq<u8>) -> Result<Seq<u8>, DecodeError> {
    match spec_mdd_payload(mdd) {
        Err(e) => Err(e),
        Ok(payload) => match spec_pb_find(payload, 0, 6) {
            Err(e) => Err(e),
            Ok(chunk) => match spec_pb_find(chunk, 0, 8) {
                Err(e) => Err(e),
                Ok(compressed) => match spec_lzma_decompress(compressed) {
                    Some(b) => if b.len() <= MAX_DECOMPRESSED_MDD_BYTES {
                        Ok(b)
                    } else {
                        Err(DecodeError::DecompressionFailed(vstd::pervasive::arbitrary()))
                    },
                    None => Err(DecodeError::DecompressionFailed(vstd::pervasive::arbitrary())),
                },
            },
        },
    }
}

/// Takes the compressed FlatBuffer out of the bytes of an MDD file and
/// decompresses it, refusing output above 512 MiB.
pub fn extract_flatbuffer_from_mdd(mdd: &[u8]) -> (r: Result<Vec<u8>, DecodeError>)
    ensures
        r is Ok == spec_extract_flatbuffer(mdd@) is Ok,
        r matches Ok(v) ==> spec_extract_flatbuffer(mdd@) == Ok::<Seq<u8>, DecodeError>(v@),
        r matches Err(e) ==> (spec_extract_flatbuffer(mdd@) matches Err(e2) && same_error(e, e2)),
        r matches Ok(v) ==> v@.len() <= MAX_DECOMPRESSED_MDD_BYTES,
{
    if mdd.len() < 8 {
        return Err(DecodeError::MddTooSmall);
    }
    let magic: [u8; 16] = [77, 68, 68, 32, 118, 101, 114, 115, 105, 111, 110, 32, 48, 32, 32, 32];
    let mut has_magic = mdd.len() >= 16;
    let mut i: usize = 0;
    while has_magic && i < 16
        invariant
            i <= 16,
            magic@ == mdd_magic(),
            has_magic ==> mdd@.len() >= 16,
            has_magic ==> forall|k: int| 0 <= k < i ==> mdd@[k] == magic@[k],
            !has_magic ==> !(mdd@.len() >= 16 && mdd@.take(16) == mdd_magic()),
        decreases 16 - i,
    {
        if mdd[i] != magic[i] {
            assert(mdd@.take(16)[i as int] != mdd_magic()[i as int]);
            has_magic = false;
        }
        i += 1;
    }
    if has_magic {
        assert(mdd@.take(16) =~= mdd_magic());
    }
    let payload: &[u8] = if has_magic {
        if mdd.len() < 20 {
            return Err(DecodeError::InvalidMddHeader);
        }
        vstd::slice::slice_subrange(mdd, 20, mdd.len())
    } else {
        vstd::slice::slice_subrange(mdd, 4, mdd.len())
    };
    assert(payload@ =~= spec_mdd_payload(mdd@)->Ok_0);
    let chunk = protobuf_length_field(payload, 6)?;
    let compressed = protobuf_length_field(&chunk, 8)?;
    let mut output = LimitedVecWriter::new(MAX_DECOMPRESSED_MDD_BYTES);
    let ghost c = compressed@;
    match lzma_decompress_into(compressed, &mut output) {
        Ok(()) => {
            assert(output.contents().skip(0) =~= output.contents());
            Ok(output.into_data())
        },
        Err(text) => Err(DecodeError::DecompressionFailed(text)),
    }
}

} // verus!

verus! {

/// The name a variant goes by when its layer has none.
pub open spec fn variant_name(index: nat) -> Seq<char> {
    "variant/"@ + digits_in(index, 10)
}

/// The prefix of the services inherited through a variant's `pi`-th parent.
pub open spec fn parent_prefix(vi: nat, pi: nat) -> Seq<char> {
    variant_name(vi) + "/parent/"@ + digits_in(pi, 10)
}

/// The services inherited through the first `n` parents of variant `vi`.
pub open spec fn spec_parents_fold(
    data: Seq<u8>,
    parents: Seq<int>,
    n: nat,
    vi: nat,
    ecu: Seq<char>,
) -> Result<Seq<ServiceView>, DecodeError>
    decreases n,
{
    if n == 0 || n > parents.len() {
        Ok(Seq::empty())
    } else {
        match spec_parents_fold(data, parents, (n - 1) as nat, vi, ecu) {
            Err(e) => Err(e),
            Ok(prev) => match spec_parent_services(
                data,
                parents[n - 1],
                parent_prefix(vi, (n - 1) as nat),
                ecu,
            ) {
                Err(e) => Err(e),
                Ok(s) => Ok(prev + s),
            },
        }
    }
}

/// The services of the `vi`-th ECU variant: those of its own layer and those
/// inherited through its parents, all attributed to the variant.
pub open spec fn spec_variant_services(data: Seq<u8>, variant: int, vi: nat) -> Result<
    Seq<ServiceView>,
    DecodeError,
> {
    match spec_fb_table_field(data, variant, 0) {
        Err(e) => Err(e),
        Ok(lo) => {
            let r_ecu = match lo {
                Some(l) => match spec_fb_string_field(data, l, 0) {
                    Err(e) => Err(e),
                    Ok(o) => Ok(or_else(o, variant_name(vi))),
                },
                None => Ok(variant_name(vi)),
            };
            match r_ecu {
                Err(e) => Err(e),
                Ok(ecu) => {
                    let r_own = match lo {
                        Some(l) => spec_layer_services(data, l, variant_name(vi), ecu),
                        None => Ok(Seq::empty()),
                    };
                    match r_own {
                        Err(e) => Err(e),
                        Ok(own) => match spec_fb_vector_tables(data, variant, 3) {
                            Err(e) => Err(e),
                            Ok(parents) => match spec_parents_fold(
                                data,
                                parents,
                                parents.len(),
                                vi,
                                ecu,
                            ) {
                                Err(e) => Err(e),
                                Ok(inherited) => Ok(own + inherited),
                            },
                        },
                    }
                },
            }
        },
    }
}

/// The services of the first `n` variants, in order.
pub open spec fn spec_variants_fold(data: Seq<u8>, variants: Seq<int>, n: nat) -> Result<
    Seq<ServiceView>,
    DecodeError,
>
    decreases n,
{
    if n == 0 || n > variants.len() {
        Ok(Seq::empty())
    } else {
        match spec_variants_fold(data, variants, (n - 1) as nat) {
            Err(e) => Err(e),
            Ok(prev) => match spec_variant_services(data, variants[n - 1], (n - 1) as nat) {
                Err(e) => Err(e),
                Ok(s) => Ok(prev + s),
            },
        }
    }
}

/// What makes two services the same entry: ECU variant, layer, name and
/// service identifier.
pub open spec fn service_key(s: ServiceView) -> (Seq<char>, Seq<char>, Seq<char>, Option<Seq<char>>) {
    (s.source_ecu, s.source_layer, s.name, s.sid_hex)
}

/// The services with every repeat of an earlier entry dropped.
pub open spec fn dedup_services(s: Seq<ServiceView>) -> Seq<ServiceView>
    decreases s.len(),
{
    if s.len() == 0 {
        s
    } else if exists|j: int| 0 <= j < s.len() - 1 && service_key(#[trigger] s[j]) == service_key(s.last()) {
        dedup_services(s.drop_last())
    } else {
        dedup_services(s.drop_last()).push(s.last())
    }
}

/// The services a decompressed MDD FlatBuffer offers: every variant's own
/// and inherited services, without repeats; at least one.
pub open spec fn spec_services_in_flatbuffer(data: Seq<u8>) -> Result<Seq<ServiceView>, DecodeError> {
    match spec_read_u32(data, 0) {
        Err(e) => Err(e),
        Ok(root) => if root >= data.len() {
            Err(DecodeError::InvalidRoot)
        } else {
            match spec_fb_vector_tables(data, root as int, 5) {
                Err(e) => Err(e),
                Ok(variants) => match spec_variants_fold(data, variants, variants.len()) {
                    Err(e) => Err(e),
                    Ok(all) => {
                        let d = dedup_services(all);
                        if d.len() == 0 {
                            Err(DecodeError::NoServices)
                        } else {
                            Ok(d)
                        }
                    },
                },
            }
        },
    }
}

/// The services an MDD file's bytes offer.
pub open spec fn spec_parse_uds_services_from_mdd(mdd: Seq<u8>) -> Result<
    Seq<ServiceView>,
    DecodeError,
> {
    match spec_extract_flatbuffer(mdd) {
        Err(e) => Err(e),
        Ok(data) => spec_services_in_flatbuffer(data),
    }
}

} // verus!

verus! {

proof fn lemma_parents_fold_err(
    data: Seq<u8>,
    parents: Seq<int>,
    i: nat,
    n: nat,
    vi: nat,
    ecu: Seq<char>,
)
    requires
        i < n <= parents.len(),
        spec_parents_fold(data, parents, i, vi, ecu) is Ok,
        spec_parent_services(data, parents[i as int], parent_prefix(vi, i), ecu) is Err,
    ensures
        spec_parents_fold(data, parents, n, vi, ecu) == Err::<Seq<ServiceView>, DecodeError>(
            spec_parent_services(data, parents[i as int], parent_prefix(vi, i), ecu)->Err_0,
        ),
    decreases n,
{
    if n > i + 1 {
        lemma_parents_fold_err(data, parents, i, (n - 1) as nat, vi, ecu);
    }
}

proof fn lemma_variants_fold_err(data: Seq<u8>, variants: Seq<int>, i: nat, n: nat)
    requires
        i < n <= variants.len(),
        spec_variants_fold(data, variants, i) is Ok,
        spec_variant_services(data, variants[i as int], i) is Err,
    ensures
        spec_variants_fold(data, variants, n) == Err::<Seq<ServiceView>, DecodeError>(
            spec_variant_services(data, variants[i as int], i)->Err_0,
        ),
    decreases n,
{
    if n > i + 1 {
        lemma_variants_fold_err(data, variants, i, (n - 1) as nat);
    }
}

proof fn lemma_extends_trans<T>(a: Seq<T>, b: Seq<T>, c: Seq<T>)
    requires
        extends(a, b),
        extends(b, c),
    ensures
        extends(a, c),
{
    assert(c.take(a.len() as int) =~= b.take(a.len() as int));
}

/// `"variant/{index}"`.
fn variant_label(index: usize) -> (r: String)
    ensures
        r@ == variant_name(index as nat),
{
    let mut m = String::from_str("variant/");
    let d = u64_to_decimal(index as u64);
    m.append(d.as_str());
    m
}

/// Appends the services of the `vi`-th variant (its own layer's and its
/// parents') to `out`, all attributed to the variant.
#[verifier::rlimit(50)]
fn variant_services(data: &[u8], variant: usize, vi: usize, out: &mut Vec<UdsMddService>) -> (r: Result<
    (),
    DecodeError,
>)
    requires
        data@.len() <= isize::MAX,
    ensures
        extends(old(out)@, final(out)@),
        match spec_variant_services(data@, variant as int, vi as nat) {
            Ok(s) => r is Ok && services_view(final(out)@) == services_view(old(out)@) + s,
            Err(e) => r == Err::<(), DecodeError>(e),
        },
{
    let ghost start = out@;
    assert(out@.take(out@.len() as int) =~= out@);
    let vname = variant_label(vi);
    let layer = fb_table_field(data, variant, 0)?;
    let source_ecu = match layer {
        Some(l) => match fb_string_field(data, l, 0)? {
            Some(n) => n,
            None => variant_label(vi),
        },
        None => variant_label(vi),
    };
    let ghost own: Seq<ServiceView>;
    if let Some(l) = layer {
        collect_layer_services(data, l, vname.as_str(), source_ecu.as_str(), out)?;
        proof {
            own = spec_layer_services(data@, l as int, vname@, source_ecu@)->Ok_0;
        }
    } else {
        proof {
            own = Seq::empty();
            assert(services_view(out@) =~= services_view(start) + own);
        }
    }
    assert(extends(start, out@));
    let parents = match fb_vector_tables(data, variant, 3) {
        Ok(p) => p,
        Err(e) => {
            return Err(e);
        },
    };
    let ghost pv = parents@.map_values(|t: usize| t as int);
    let mut i: usize = 0;
    assert(services_view(out@) =~= services_view(start) + own + Seq::<ServiceView>::empty());
    while i < parents.len()
        invariant
            data@.len() <= isize::MAX,
            i <= parents@.len(),
            pv == parents@.map_values(|t: usize| t as int),
            spec_variant_services(data@, variant as int, vi as nat) == (match spec_parents_fold(
                data@,
                pv,
                pv.len(),
                vi as nat,
                source_ecu@,
            ) {
                Err(e) => Err(e),
                Ok(inherited) => Ok(own + inherited),
            }),
            extends(start, out@),
            start == old(out)@,
            spec_parents_fold(data@, pv, i as nat, vi as nat, source_ecu@) matches Ok(so_far)
                && services_view(out@) == services_view(start) + own + so_far,
        decreases parents@.len() - i,
    {
        let mut prefix = variant_label(vi);
        prefix.append("/parent/");
        let d = u64_to_decimal(i as u64);
        prefix.append(d.as_str());
        let ghost before = out@;
        match collect_parent_services(data, parents[i], prefix.as_str(), source_ecu.as_str(), out) {
            Ok(()) => {},
            Err(e) => {
                proof {
                    lemma_extends_trans(start, before, out@);
                    lemma_parents_fold_err(data@, pv, i as nat, pv.len(), vi as nat, source_ecu@);
                }
                return Err(e);
            },
        }
        proof {
            lemma_extends_trans(start, before, out@);
        }
        i += 1;
    }
    Ok(())
}

/// Whether two services are the same entry: same ECU variant, layer, name
/// and service identifier.
fn same_entry(a: &UdsMddService, b: &UdsMddService) -> (r: bool)
    ensures
        r == (service_key(a@) == service_key(b@)),
{
    let sid_same = match (&a.sid_hex, &b.sid_hex) {
        (Some(x), Some(y)) => *x == *y,
        (None, None) => true,
        _ => false,
    };
    a.source_ecu == b.source_ecu && a.source_layer == b.source_layer && a.name == b.name && sid_same
}

/// The items of `v` in reverse order.
pub fn reverse_vec<T>(v: Vec<T>) -> (r: Vec<T>)
    ensures
        r@.len() == v@.len(),
        forall|k: int| 0 <= k < r@.len() ==> #[trigger] r@[k] == v@[v@.len() - 1 - k],
{
    let ghost orig = v@;
    let mut v = v;
    let mut r: Vec<T> = Vec::new();
    while v.len() > 0
        invariant
            v@ == orig.take(v@.len() as int),
            r@.len() + v@.len() == orig.len(),
            forall|k: int| 0 <= k < r@.len() ==> #[trigger] r@[k] == orig[orig.len() - 1 - k],
        decreases v@.len(),
    {
        if let Some(x) = v.pop() {
            r.push(x);
            assert(v@ =~= orig.take(v@.len() as int));
        }
    }
    r
}

/// Some service of `s` is the same entry as `x`.
pub open spec fn key_in(s: Seq<ServiceView>, x: ServiceView) -> bool {
    exists|k: int| 0 <= k < s.len() && service_key(#[trigger] s[k]) == service_key(x)
}

/// Every one of the first `i` services has its entry in `kv`, and every
/// entry of `kv` comes from one of them.
pub open spec fn same_entries(s: Seq<ServiceView>, i: int, kv: Seq<ServiceView>) -> bool {
    &&& forall|j: int| 0 <= j < i ==> key_in(kv, #[trigger] s[j])
    &&& forall|k: int| 0 <= k < kv.len() ==> key_in(s.take(i), #[trigger] kv[k])
}

proof fn lemma_dedup_step(s: Seq<ServiceView>, i: int, kv: Seq<ServiceView>)
    requires
        0 <= i < s.len(),
        kv == dedup_services(s.take(i)),
        same_entries(s, i, kv),
    ensures
        key_in(kv, s[i]) ==> dedup_services(s.take(i + 1)) == kv && same_entries(s, i + 1, kv),
        !key_in(kv, s[i]) ==> dedup_services(s.take(i + 1)) == kv.push(s[i]) && same_entries(
            s,
            i + 1,
            kv.push(s[i]),
        ),
{
    let t = s.take(i + 1);
    assert(t.drop_last() =~= s.take(i));
    assert(t.last() == s[i]);
    assert forall|k: int| 0 <= k < kv.len() && key_in(s.take(i), kv[k]) implies key_in(
        t,
        kv[k],
    ) by {
        let j = choose|j: int| 0 <= j < s.take(i).len() && service_key(#[trigger] s.take(i)[j])
            == service_key(kv[k]);
        assert(t[j] == s.take(i)[j]);
    }
    if key_in(kv, s[i]) {
        let m = choose|m: int| 0 <= m < kv.len() && service_key(#[trigger] kv[m]) == service_key(s[i]);
        assert(key_in(s.take(i), kv[m]));
        let j = choose|j: int| 0 <= j < s.take(i).len() && service_key(#[trigger] s.take(i)[j])
            == service_key(kv[m]);
        assert(t[j] == s.take(i)[j]);
        assert(0 <= j < t.len() - 1 && service_key(t[j]) == service_key(t.last()));
    } else {
        assert forall|j: int| 0 <= j < t.len() - 1 implies service_key(#[trigger] t[j]) != service_key(
            t.last(),
        ) by {
            assert(t[j] == s[j]);
            assert(key_in(kv, s[j]));
            if service_key(s[j]) == service_key(s[i]) {
                let m = choose|m: int| 0 <= m < kv.len() && service_key(#[trigger] kv[m])
                    == service_key(s[j]);
                assert(service_key(kv[m]) == service_key(s[i]));
            }
        }
        let kv2 = kv.push(s[i]);
        assert forall|j: int| 0 <= j < i + 1 implies key_in(kv2, #[trigger] s[j]) by {
            if j < i {
                assert(key_in(kv, s[j]));
                let k0 = choose|k: int| 0 <= k < kv.len() && service_key(#[trigger] kv[k])
                    == service_key(s[j]);
                assert(kv2[k0] == kv[k0]);
            } else {
                assert(kv2[kv.len() as int] == s[j]);
            }
        }
        assert forall|k: int| 0 <= k < kv2.len() implies key_in(t, #[trigger] kv2[k]) by {
            if k < kv.len() {
                assert(kv2[k] == kv[k]);
            } else {
                assert(t[i] == s[i]);
            }
        }
    }
}

/// Drops every service that repeats an earlier one's ECU variant, layer,
/// name and service identifier.
pub fn dedup_service_list(services: Vec<UdsMddService>) -> (r: Vec<UdsMddService>)
    ensures
        services_view(r@) == dedup_services(services_view(services@)),
{
    let ghost s = services_view(services@);
    let n = services.len();
    let mut rest = reverse_vec(services);
    let mut kept: Vec<UdsMddService> = Vec::new();
    let mut i: usize = 0;
    assert(s.take(0) =~= Seq::<ServiceView>::empty());
    assert(services_view(kept@) =~= Seq::<ServiceView>::empty());
    while i < n
        invariant
            i <= n == s.len(),
            rest@.len() == n - i,
            forall|k: int| 0 <= k < rest@.len() ==> (#[trigger] rest@[k])@ == s[n - 1 - k],
            services_view(kept@) == dedup_services(s.take(i as int)),
            same_entries(s, i as int, services_view(kept@)),
        decreases n - i,
    {
        let ghost kv = services_view(kept@);
        let ghost last = rest@.len() - 1;
        assert(rest@[last]@ == s[i as int]);
        proof {
            lemma_dedup_step(s, i as int, kv);
        }
        if let Some(x) = rest.pop() {
            let mut found = false;
            let mut k: usize = 0;
            while k < kept.len()
                invariant
                    k <= kept@.len(),
                    kv == services_view(kept@),
                    found ==> key_in(kv, x@),
                    !found ==> forall|m: int| 0 <= m < k ==> service_key(#[trigger] kv[m]) != service_key(x@),
                decreases kept@.len() - k,
            {
                if same_entry(&kept[k], &x) {
                    assert(kv[k as int] == kept@[k as int]@);
                    found = true;
                }
                k += 1;
            }
            if !found {
                kept.push(x);
                assert(services_view(kept@) =~= kv.push(x@));
            }
        }
        i += 1;
    }
    assert(s.take(n as int) =~= s);
    kept
}

/// The services that a decompressed MDD FlatBuffer offers: every ECU
/// variant's own services and those it inherits, without repeats.
pub fn services_in_flatbuffer(data: &[u8]) -> (r: Result<Vec<UdsMddService>, DecodeError>)
    requires
        data@.len() <= isize::MAX,
    ensures
        r is Ok == spec_services_in_flatbuffer(data@) is Ok,
        r matches Ok(v) ==> spec_services_in_flatbuffer(data@) == Ok::<Seq<ServiceView>, DecodeError>(
            services_view(v@),
        ),
        r matches Err(e) ==> spec_services_in_flatbuffer(data@) == Err::<
            Seq<ServiceView>,
            DecodeError,
        >(e),
{
    let root = read_u32_le(data, 0)? as usize;
    if root >= data.len() {
        return Err(DecodeError::InvalidRoot);
    }
    let variants = fb_vector_tables(data, root, 5)?;
    let ghost vv = variants@.map_values(|t: usize| t as int);
    let mut services: Vec<UdsMddService> = Vec::new();
    let mut i: usize = 0;
    assert(services_view(services@) =~= Seq::<ServiceView>::empty());
    while i < variants.len()
        invariant
            data@.len() <= isize::MAX,
            i <= variants@.len(),
            vv == variants@.map_values(|t: usize| t as int),
            spec_services_in_flatbuffer(data@) == (match spec_variants_fold(data@, vv, vv.len()) {
                Err(e) => Err(e),
                Ok(all) => {
                    let d = dedup_services(all);
                    if d.len() == 0 {
                        Err(DecodeError::NoServices)
                    } else {
                        Ok(d)
                    }
                },
            }),
            spec_variants_fold(data@, vv, i as nat) == Ok::<Seq<ServiceView>, DecodeError>(
                services_view(services@),
            ),
        decreases variants@.len() - i,
    {
        match variant_services(data, variants[i], i, &mut services) {
            Ok(()) => {},
            Err(e) => {
                proof {
                    lemma_variants_fold_err(data@, vv, i as nat, vv.len());
                }
                return Err(e);
            },
        }
        i += 1;
    }
    let deduped = dedup_service_list(services);
    if deduped.len() == 0 {
        return Err(DecodeError::NoServices);
    }
    Ok(deduped)
}

/// The UDS services that the bytes of an MDD file offer.
pub fn parse_uds_services_from_mdd(mdd: &[u8]) -> (r: Result<Vec<UdsMddService>, DecodeError>)
    ensures
        r is Ok == spec_parse_uds_services_from_mdd(mdd@) is Ok,
        r matches Ok(v) ==> spec_parse_uds_services_from_mdd(mdd@) == Ok::<
            Seq<ServiceView>,
            DecodeError,
        >(services_view(v@)),
        r matches Err(e) ==> (spec_parse_uds_services_from_mdd(mdd@) matches Err(e2) && same_error(
            e,
            e2,
        )),
{
    let data = extract_flatbuffer_from_mdd(mdd)?;
    services_in_flatbuffer(&data)
}

} // verus!

verus! {

/// The services a deduplicated list keeps: no two share an entry's ECU
/// variant, layer, name and service identifier, every kept service is one of
/// the input, and every input service has its entry kept.
pub proof fn lemma_dedup_services_unique(s: Seq<ServiceView>)
    ensures
        forall|i: int, j: int|
            0 <= i < j < dedup_services(s).len() ==> service_key(#[trigger] dedup_services(s)[i])
                != service_key(#[trigger] dedup_services(s)[j]),
        forall|k: int|
            0 <= k < dedup_services(s).len() ==> exists|j: int|
                0 <= j < s.len() && #[trigger] s[j] == #[trigger] dedup_services(s)[k],
        forall|k: int| 0 <= k < s.len() ==> key_in(dedup_services(s), #[trigger] s[k]),
    decreases s.len(),
{
    if s.len() > 0 {
        let p = s.drop_last();
        let dp = dedup_services(p);
        let d = dedup_services(s);
        lemma_dedup_services_unique(p);
        let repeated = exists|j: int|
            0 <= j < s.len() - 1 && service_key(#[trigger] s[j]) == service_key(s.last());
        if repeated {
            assert(d == dp);
            let j0 = choose|j: int|
                0 <= j < s.len() - 1 && service_key(#[trigger] s[j]) == service_key(s.last());
            assert(p[j0] == s[j0]);
            assert(key_in(dp, p[j0]));
            assert forall|k: int| 0 <= k < d.len() implies exists|j: int|
                0 <= j < s.len() && #[trigger] s[j] == #[trigger] d[k] by {
                let j = choose|j: int| 0 <= j < p.len() && #[trigger] p[j] == #[trigger] dp[k];
                assert(s[j] == p[j]);
            }
            assert forall|k: int| 0 <= k < s.len() implies key_in(d, #[trigger] s[k]) by {
                if k < s.len() - 1 {
                    assert(p[k] == s[k]);
                    assert(key_in(dp, p[k]));
                } else {
                    let m = choose|m: int| 0 <= m < dp.len() && service_key(#[trigger] dp[m])
                        == service_key(p[j0]);
                    assert(service_key(d[m]) == service_key(s[k]));
                }
            }
        } else {
            assert(d == dp.push(s.last()));
            assert forall|k: int| 0 <= k < d.len() implies exists|j: int|
                0 <= j < s.len() && #[trigger] s[j] == #[trigger] d[k] by {
                if k < dp.len() {
                    let j = choose|j: int| 0 <= j < p.len() && #[trigger] p[j] == #[trigger] dp[k];
                    assert(s[j] == p[j]);
                    assert(d[k] == dp[k]);
                } else {
                    assert(s[s.len() - 1] == d[k]);
                }
            }
            assert forall|i: int, j: int| 0 <= i < j < d.len() implies service_key(#[trigger] d[i])
                != service_key(#[trigger] d[j]) by {
                assert(d[i] == dp[i]);
                if j < dp.len() {
                    assert(d[j] == dp[j]);
                } else {
                    let m = choose|m: int| 0 <= m < p.len() && #[trigger] p[m] == #[trigger] dp[i];
                    assert(s[m] == p[m]);
                    if service_key(d[i]) == service_key(d[j]) {
                        assert(0 <= m < s.len() - 1 && service_key(s[m]) == service_key(s.last()));
                    }
                }
            }
            assert forall|k: int| 0 <= k < s.len() implies key_in(d, #[trigger] s[k]) by {
                if k < s.len() - 1 {
                    assert(p[k] == s[k]);
                    assert(key_in(dp, p[k]));
                    let m = choose|m: int| 0 <= m < dp.len() && service_key(#[trigger] dp[m])
                        == service_key(p[k]);
                    assert(d[m] == dp[m]);
                } else {
                    assert(d[dp.len() as int] == s[k]);
                }
            }
        }
    }
}

} // verus!
