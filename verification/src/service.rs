//! Reading UDS services out of the MDD FlatBuffer: their request and
//! response parameters, service identifiers, and the services of a
//! diagnostic layer and of its parents.
use vstd::prelude::*;
use crate::decode::{ok_flatten, or_else, parse_param, spec_parse_param};
use crate::error::DecodeError;
use crate::flatbuf::{
    fb_string_field, fb_table_field, fb_u32_field, fb_u8_field, fb_vector_tables, opt_view,
    spec_fb_string_field, spec_fb_table_field, spec_fb_u32_field, spec_fb_u8_field,
    spec_fb_vector_tables,
};
use crate::text::{
    digits_in, eq_ignore_ascii_case, eq_ignore_case, hex2, hex_padded, chars_to_string,
    parse_unsigned, parse_unsigned_chars, str_chars, u64_to_decimal,
};
use crate::uds::{
    param_type_name, params_view, services_view, spec_param_type_name, ParamView, ServiceView,
    UdsMddParameter, UdsMddService,
};

verus! {

/// The hint of a request parameter that could not be decoded.
pub open spec fn request_fallback_hint() -> Seq<char> {
    "Runtime value required. This parameter uses an MDD construct that could not be fully decoded; consult the ECU/ODX definition for the exact value and length."@
}

/// The hint of a response parameter that could not be decoded.
pub open spec fn response_fallback_hint() -> Seq<char> {
    "Response parameter could not be fully decoded by the lightweight MDD reader."@
}

/// What is shown for a parameter that could not be decoded: whatever of
/// its name, kind and position can be read, and `hint`.
pub open spec fn spec_fallback_param(data: Seq<u8>, param: int, name: Seq<char>, hint: Seq<char>) -> ParamView {
    ParamView {
        name: or_else(ok_flatten(spec_fb_string_field(data, param, 2)), name),
        param_type: spec_param_type_name(
            match spec_fb_u8_field(data, param, 1, 0) {
                Ok(k) => k,
                Err(_) => 255u8,
            },
        ),
        byte_position: ok_flatten(spec_fb_u32_field(data, param, 6)),
        bit_position: ok_flatten(spec_fb_u32_field(data, param, 7)),
        fixed: false,
        value_hex: None,
        default_value_hex: None,
        bit_length: None,
        byte_length: None,
        data_type: None,
        min_value: None,
        max_value: None,
        unit: None,
        choices: Seq::empty(),
        children: Seq::empty(),
        input_hint: Some(hint),
    }
}

/// The first `n` parameters, each decoded or else shown as a fallback.
pub open spec fn spec_params_or_fallback(
    data: Seq<u8>,
    params: Seq<int>,
    n: nat,
    name: Seq<char>,
    hint: Seq<char>,
) -> Seq<ParamView>
    decreases n,
{
    if n == 0 || n > params.len() {
        Seq::empty()
    } else {
        spec_params_or_fallback(data, params, (n - 1) as nat, name, hint).push(
            match spec_parse_param(data, params[n - 1]) {
                Ok(p) => p,
                Err(_) => spec_fallback_param(data, params[n - 1], name, hint),
            },
        )
    }
}

/// The parameters of a request (vector field 0).
pub open spec fn spec_request_params(data: Seq<u8>, request: int) -> Result<
    Seq<ParamView>,
    DecodeError,
> {
    match spec_fb_vector_tables(data, request, 0) {
        Err(e) => Err(e),
        Ok(ps) => Ok(
            spec_params_or_fallback(data, ps, ps.len(), "Runtime parameter"@, request_fallback_hint()),
        ),
    }
}

/// The parameters of a response (vector field 1; field 0 is its type).
pub open spec fn spec_response_params(data: Seq<u8>, response: int) -> Result<
    Seq<ParamView>,
    DecodeError,
> {
    match spec_fb_vector_tables(data, response, 1) {
        Err(e) => Err(e),
        Ok(ps) => Ok(
            spec_params_or_fallback(
                data,
                ps,
                ps.len(),
                "Response parameter"@,
                response_fallback_hint(),
            ),
        ),
    }
}

fn fallback_param(data: &[u8], param: usize, name: &str, hint: &str) -> (r: UdsMddParameter)
    requires
        data@.len() <= isize::MAX,
    ensures
        r@ == spec_fallback_param(data@, param as int, name@, hint@),
{
    let shown = match fb_string_field(data, param, 2) {
        Ok(Some(n)) => n,
        _ => String::from_str(name),
    };
    let kind = match fb_u8_field(data, param, 1, 0) {
        Ok(k) => k,
        Err(_) => 255,
    };
    let byte_position = match fb_u32_field(data, param, 6) {
        Ok(Some(p)) => Some(p),
        _ => None,
    };
    let bit_position = match fb_u32_field(data, param, 7) {
        Ok(Some(p)) => Some(p),
        _ => None,
    };
    let r = UdsMddParameter {
        name: shown,
        param_type: String::from_str(param_type_name(kind)),
        byte_position,
        bit_position,
        fixed: false,
        value_hex: None,
        default_value_hex: None,
        bit_length: None,
        byte_length: None,
        data_type: None,
        min_value: None,
        max_value: None,
        unit: None,
        choices: Vec::new(),
        children: Vec::new(),
        input_hint: Some(String::from_str(hint)),
    };
    assert(r@.choices =~= Seq::empty());
    assert(r@.children =~= Seq::empty());
    r
}

fn params_or_fallback(data: &[u8], params: &Vec<usize>, name: &str, hint: &str) -> (r: Vec<
    UdsMddParameter,
>)
    requires
        data@.len() <= isize::MAX,
    ensures
        params_view(r@) == spec_params_or_fallback(
            data@,
            params@.map_values(|t: usize| t as int),
            params@.len(),
            name@,
            hint@,
        ),
{
    let ghost pv = params@.map_values(|t: usize| t as int);
    let mut out: Vec<UdsMddParameter> = Vec::new();
    let mut i: usize = 0;
    assert(params_view(out@) =~= Seq::<ParamView>::empty());
    while i < params.len()
        invariant
            data@.len() <= isize::MAX,
            i <= params@.len(),
            pv == params@.map_values(|t: usize| t as int),
            params_view(out@) == spec_params_or_fallback(data@, pv, i as nat, name@, hint@),
        decreases params@.len() - i,
    {
        let p = match parse_param(data, params[i]) {
            Ok(p) => p,
            Err(_) => fallback_param(data, params[i], name, hint),
        };
        let ghost before = out@;
        out.push(p);
        assert(params_view(out@) =~= params_view(before).push(p@));
        i += 1;
    }
    out
}

/// Decodes the parameters of a request; a parameter that cannot be decoded
/// is kept as a runtime parameter with what can be read of it.
pub fn parse_request_params(data: &[u8], request: usize) -> (r: Result<
    Vec<UdsMddParameter>,
    DecodeError,
>)
    requires
        data@.len() <= isize::MAX,
    ensures
        r is Ok == spec_request_params(data@, request as int) is Ok,
        r matches Ok(v) ==> spec_request_params(data@, request as int) == Ok::<
            Seq<ParamView>,
            DecodeError,
        >(params_view(v@)),
        r matches Err(e) ==> spec_request_params(data@, request as int) == Err::<
            Seq<ParamView>,
            DecodeError,
        >(e),
{
    let params = fb_vector_tables(data, request, 0)?;
    Ok(
        params_or_fallback(
            data,
            &params,
            "Runtime parameter",
            "Runtime value required. This parameter uses an MDD construct that could not be fully decoded; consult the ECU/ODX definition for the exact value and length.",
        ),
    )
}

/// Decodes the parameters of a response; a parameter that cannot be decoded
/// is kept with what can be read of it.
pub fn parse_response_params(data: &[u8], response: usize) -> (r: Result<
    Vec<UdsMddParameter>,
    DecodeError,
>)
    requires
        data@.len() <= isize::MAX,
    ensures
        r is Ok == spec_response_params(data@, response as int) is Ok,
        r matches Ok(v) ==> spec_response_params(data@, response as int) == Ok::<
            Seq<ParamView>,
            DecodeError,
        >(params_view(v@)),
        r matches Err(e) ==> spec_response_params(data@, response as int) == Err::<
            Seq<ParamView>,
            DecodeError,
        >(e),
{
    let params = fb_vector_tables(data, response, 1)?;
    Ok(
        params_or_fallback(
            data,
            &params,
            "Response parameter",
            "Response parameter could not be fully decoded by the lightweight MDD reader.",
        ),
    )
}

/// A request parameter that carries the service identifier.
pub open spec fn is_sid_param(p: ParamView) -> bool {
    eq_ignore_case(p.name, "SID"@) && p.fixed
}

/// A response parameter that carries the positive response identifier.
pub open spec fn is_positive_sid_param(p: ParamView) -> bool {
    (eq_ignore_case(p.name, "SIDPR"@) || eq_ignore_case(p.name, "SID"@)) && p.fixed
}

/// The value of the first parameter that `pred` accepts, if that one has a value.
pub open spec fn first_value(ps: Seq<ParamView>, pred: spec_fn(ParamView) -> bool) -> Option<
    Seq<char>,
>
    decreases ps.len(),
{
    if ps.len() == 0 {
        None
    } else if pred(ps[0]) {
        ps[0].value_hex
    } else {
        first_value(ps.drop_first(), pred)
    }
}

/// The positive response identifier derived from a request identifier:
/// the identifier plus 0x40 (wrapping), as two hex digits.
pub open spec fn derived_positive_sid(sid: Option<Seq<char>>) -> Option<Seq<char>> {
    match sid {
        Some(s) => match parse_unsigned(s, 16, 255) {
            Some(v) => Some(hex2(((v + 0x40) % 256) as u8)),
            None => None,
        },
        None => None,
    }
}

/// The first vector entry, if any.
pub open spec fn first_of(r: Result<Seq<int>, DecodeError>) -> Option<int> {
    match r {
        Ok(v) => if v.len() > 0 {
            Some(v[0])
        } else {
            None
        },
        Err(_) => None,
    }
}

/// The parameters of the first response of a list, or none when there is
/// none or they cannot be read.
pub open spec fn first_response_params(data: Seq<u8>, responses: Result<Seq<int>, DecodeError>) -> Seq<
    ParamView,
> {
    match first_of(responses) {
        Some(resp) => match spec_response_params(data, resp) {
            Ok(v) => v,
            Err(_) => Seq::empty(),
        },
        None => Seq::empty(),
    }
}

/// The service at `service`: the names of its diagnostic communication, its
/// request parameters, the parameters of its first positive and negative
/// responses, and its request and positive response identifiers.
pub open spec fn spec_parse_service(
    data: Seq<u8>,
    service: int,
    id: Seq<char>,
    source_layer: Seq<char>,
    source_ecu: Seq<char>,
) -> Result<ServiceView, DecodeError> {
    match spec_fb_table_field(data, service, 0) {
        Err(e) => Err(e),
        Ok(dc) => {
            let r_name = match dc {
                Some(c) => match spec_fb_string_field(data, c, 0) {
                    Err(e) => Err(e),
                    Ok(o) => Ok(or_else(o, "Unnamed service"@)),
                },
                None => Ok("Unnamed service"@),
            };
            match r_name {
                Err(e) => Err(e),
                Ok(name) => {
                    let r_long = match dc {
                        Some(c) => match spec_fb_table_field(data, c, 1) {
                            Err(e) => Err(e),
                            Ok(Some(t)) => spec_fb_string_field(data, t, 0),
                            Ok(None) => Ok(None),
                        },
                        None => Ok(None),
                    };
                    match r_long {
                        Err(e) => Err(e),
                        Ok(long_name) => match spec_fb_table_field(data, service, 1) {
                            Err(e) => Err(e),
                            Ok(req) => {
                                let r_params = match req {
                                    Some(r) => spec_request_params(data, r),
                                    None => Ok(Seq::empty()),
                                };
                                match r_params {
                                    Err(e) => Err(e),
                                    Ok(parameters) => {
                                        let sid_hex = first_value(parameters, |p: ParamView| is_sid_param(p));
                                        let positive_parameters = first_response_params(
                                            data,
                                            spec_fb_vector_tables(data, service, 2),
                                        );
                                        let negative_parameters = first_response_params(
                                            data,
                                            spec_fb_vector_tables(data, service, 3),
                                        );
                                        let positive_sid_hex = match first_value(
                                            positive_parameters,
                                            |p: ParamView| is_positive_sid_param(p),
                                        ) {
                                            Some(v) => Some(v),
                                            None => derived_positive_sid(sid_hex),
                                        };
                                        Ok(
                                            ServiceView {
                                                id,
                                                name,
                                                long_name,
                                                source_layer,
                                                source_ecu,
                                                sid_hex,
                                                positive_sid_hex,
                                                parameters,
                                                positive_parameters,
                                                negative_parameters,
                                            },
                                        )
                                    },
                                }
                            },
                        },
                    }
                },
            }
        },
    }
}

/// The value of the first parameter named like a service identifier (`SID`,
/// or `SIDPR` too when `positive`) whose value is fixed.
fn find_sid_value(params: &Vec<UdsMddParameter>, positive: bool) -> (r: Option<String>)
    ensures
        opt_view(r) == if positive {
            first_value(params_view(params@), |p: ParamView| is_positive_sid_param(p))
        } else {
            first_value(params_view(params@), |p: ParamView| is_sid_param(p))
        },
{
    let ghost pred = if positive {
        |p: ParamView| is_positive_sid_param(p)
    } else {
        |p: ParamView| is_sid_param(p)
    };
    let ghost pv = params_view(params@);
    let mut i: usize = 0;
    assert(pv.skip(0) =~= pv);
    while i < params.len()
        invariant
            i <= params@.len(),
            pv == params_view(params@),
            pred == (if positive {
                |p: ParamView| is_positive_sid_param(p)
            } else {
                |p: ParamView| is_sid_param(p)
            }),
            first_value(pv, pred) == first_value(pv.skip(i as int), pred),
        decreases params@.len() - i,
    {
        let p = &params[i];
        assert(pv.skip(i as int)[0] == p@);
        assert(pv.skip(i as int).drop_first() =~= pv.skip(i + 1));
        let named = if positive {
            eq_ignore_ascii_case(p.name.as_str(), "SIDPR") || eq_ignore_ascii_case(
                p.name.as_str(),
                "SID",
            )
        } else {
            eq_ignore_ascii_case(p.name.as_str(), "SID")
        };
        if named && p.fixed {
            return match &p.value_hex {
                Some(v) => Some(v.clone()),
                None => None,
            };
        }
        i += 1;
    }
    None
}

/// The positive response identifier that follows from a request identifier.
fn derive_positive_sid(sid: &Option<String>) -> (r: Option<String>)
    ensures
        opt_view(r) == derived_positive_sid(opt_view(*sid)),
{
    match sid {
        Some(s) => match parse_unsigned_chars(str_chars(s.as_str()).as_slice(), 16, 255) {
            Some(v) => {
                let b: u64 = (v + 0x40) % 256;
                let digits = hex_padded(b, 2);
                Some(chars_to_string(&digits))
            },
            None => None,
        },
        None => None,
    }
}

fn first_response(data: &[u8], service: usize, field: usize) -> (r: Vec<UdsMddParameter>)
    requires
        data@.len() <= isize::MAX,
        field <= 8,
    ensures
        params_view(r@) == first_response_params(
            data@,
            spec_fb_vector_tables(data@, service as int, field as int),
        ),
{
    let responses = match fb_vector_tables(data, service, field) {
        Ok(v) => v,
        Err(_) => Vec::new(),
    };
    if responses.len() > 0 {
        match parse_response_params(data, responses[0]) {
            Ok(v) => {
                return v;
            },
            Err(_) => {},
        }
    }
    let empty: Vec<UdsMddParameter> = Vec::new();
    assert(params_view(empty@) =~= Seq::<ParamView>::empty());
    empty
}

/// Decodes the service at `service`, naming it by `id` and recording the
/// layer and ECU variant it was found under.
pub fn parse_service(
    data: &[u8],
    service: usize,
    id: String,
    source_layer: String,
    source_ecu: String,
) -> (r: Result<UdsMddService, DecodeError>)
    requires
        data@.len() <= isize::MAX,
    ensures
        r is Ok == spec_parse_service(data@, service as int, id@, source_layer@, source_ecu@) is Ok,
        r matches Ok(s) ==> spec_parse_service(
            data@,
            service as int,
            id@,
            source_layer@,
            source_ecu@,
        ) == Ok::<ServiceView, DecodeError>(s@),
        r matches Err(e) ==> spec_parse_service(
            data@,
            service as int,
            id@,
            source_layer@,
            source_ecu@,
        ) == Err::<ServiceView, DecodeError>(e),
{
    let diag_comm = fb_table_field(data, service, 0)?;
    let name = match diag_comm {
        Some(comm) => match fb_string_field(data, comm, 0)? {
            Some(n) => n,
            None => String::from_str("Unnamed service"),
        },
        None => String::from_str("Unnamed service"),
    };
    let long_name = match diag_comm {
        Some(comm) => match fb_table_field(data, comm, 1)? {
            Some(long_name_table) => fb_string_field(data, long_name_table, 0)?,
            None => None,
        },
        None => None,
    };
    let parameters = match fb_table_field(data, service, 1)? {
        Some(request) => parse_request_params(data, request)?,
        None => {
            let empty: Vec<UdsMddParameter> = Vec::new();
            assert(params_view(empty@) =~= Seq::<ParamView>::empty());
            empty
        },
    };
    let sid_hex = find_sid_value(&parameters, false);
    let positive_parameters = first_response(data, service, 2);
    let negative_parameters = first_response(data, service, 3);
    let positive_sid_hex = match find_sid_value(&positive_parameters, true) {
        Some(v) => Some(v),
        None => derive_positive_sid(&sid_hex),
    };
    Ok(
        UdsMddService {
            id,
            name,
            long_name,
            source_layer,
            source_ecu,
            sid_hex,
            positive_sid_hex,
            parameters,
            positive_parameters,
            negative_parameters,
        },
    )
}

} // verus!

verus! {

/// The id of the `index`-th service under `prefix`.
pub open spec fn service_id(prefix: Seq<char>, index: nat) -> Seq<char> {
    prefix + "/service/"@ + digits_in(index, 10)
}

/// The first `n` services of a layer, in order; the first failure ends the walk.
pub open spec fn spec_services_fold(
    data: Seq<u8>,
    services: Seq<int>,
    n: nat,
    prefix: Seq<char>,
    layer_name: Seq<char>,
    source_ecu: Seq<char>,
) -> Result<Seq<ServiceView>, DecodeError>
    decreases n,
{
    if n == 0 || n > services.len() {
        Ok(Seq::empty())
    } else {
        match spec_services_fold(data, services, (n - 1) as nat, prefix, layer_name, source_ecu) {
            Err(e) => Err(e),
            Ok(prev) => match spec_parse_service(
                data,
                services[n - 1],
                service_id(prefix, (n - 1) as nat),
                layer_name,
                source_ecu,
            ) {
                Err(e) => Err(e),
                Ok(s) => Ok(prev.push(s)),
            },
        }
    }
}

/// The services a diagnostic layer defines (vector field 4), named after the
/// layer's short name and attributed to `source_ecu`.
pub open spec fn spec_layer_services(
    data: Seq<u8>,
    layer: int,
    prefix: Seq<char>,
    source_ecu: Seq<char>,
) -> Result<Seq<ServiceView>, DecodeError> {
    match spec_fb_string_field(data, layer, 0) {
        Err(e) => Err(e),
        Ok(lno) => match spec_fb_vector_tables(data, layer, 4) {
            Err(e) => Err(e),
            Ok(svcs) => spec_services_fold(
                data,
                svcs,
                svcs.len(),
                prefix,
                or_else(lno, "Unnamed layer"@),
                source_ecu,
            ),
        },
    }
}

/// The services a walk over the first `n` services of a layer has parsed
/// when it stops: all of them, or those before the first that fails.
pub open spec fn spec_services_kept(
    data: Seq<u8>,
    services: Seq<int>,
    n: nat,
    prefix: Seq<char>,
    layer_name: Seq<char>,
    source_ecu: Seq<char>,
) -> Seq<ServiceView>
    decreases n,
{
    if n == 0 || n > services.len() {
        Seq::empty()
    } else {
        let prev = spec_services_kept(data, services, (n - 1) as nat, prefix, layer_name, source_ecu);
        match spec_services_fold(data, services, (n - 1) as nat, prefix, layer_name, source_ecu) {
            Err(_) => prev,
            Ok(_) => match spec_parse_service(
                data,
                services[n - 1],
                service_id(prefix, (n - 1) as nat),
                layer_name,
                source_ecu,
            ) {
                Err(_) => prev,
                Ok(s) => prev.push(s),
            },
        }
    }
}

/// The services that collecting a layer appends, whether or not it fails:
/// none when the layer's name or service list cannot be read, else those
/// parsed before the first service that fails.
pub open spec fn spec_layer_kept(
    data: Seq<u8>,
    layer: int,
    prefix: Seq<char>,
    source_ecu: Seq<char>,
) -> Seq<ServiceView> {
    match spec_fb_string_field(data, layer, 0) {
        Err(_) => Seq::empty(),
        Ok(lno) => match spec_fb_vector_tables(data, layer, 4) {
            Err(_) => Seq::empty(),
            Ok(svcs) => spec_services_kept(
                data,
                svcs,
                svcs.len(),
                prefix,
                or_else(lno, "Unnamed layer"@),
                source_ecu,
            ),
        },
    }
}

proof fn lemma_services_kept_ok(
    data: Seq<u8>,
    services: Seq<int>,
    n: nat,
    prefix: Seq<char>,
    layer_name: Seq<char>,
    source_ecu: Seq<char>,
)
    requires
        n <= services.len(),
    ensures
        spec_services_fold(data, services, n, prefix, layer_name, source_ecu) matches Ok(v) ==> v
            == spec_services_kept(data, services, n, prefix, layer_name, source_ecu),
    decreases n,
{
    if n > 0 {
        lemma_services_kept_ok(data, services, (n - 1) as nat, prefix, layer_name, source_ecu);
    }
}

proof fn lemma_services_kept_stop(
    data: Seq<u8>,
    services: Seq<int>,
    i: nat,
    n: nat,
    prefix: Seq<char>,
    layer_name: Seq<char>,
    source_ecu: Seq<char>,
)
    requires
        i < n <= services.len(),
        spec_services_fold(data, services, i, prefix, layer_name, source_ecu) is Ok,
        spec_parse_service(data, services[i as int], service_id(prefix, i), layer_name, source_ecu) is Err,
    ensures
        spec_services_kept(data, services, n, prefix, layer_name, source_ecu)
            == spec_services_fold(data, services, i, prefix, layer_name, source_ecu)->Ok_0,
    decreases n,
{
    lemma_services_kept_ok(data, services, i, prefix, layer_name, source_ecu);
    if n > i + 1 {
        lemma_services_kept_stop(data, services, i, (n - 1) as nat, prefix, layer_name, source_ecu);
        lemma_services_fold_err(data, services, i, (n - 1) as nat, prefix, layer_name, source_ecu);
    }
}

proof fn lemma_services_fold_err(
    data: Seq<u8>,
    services: Seq<int>,
    i: nat,
    n: nat,
    prefix: Seq<char>,
    layer_name: Seq<char>,
    source_ecu: Seq<char>,
)
    requires
        i < n <= services.len(),
        spec_services_fold(data, services, i, prefix, layer_name, source_ecu) is Ok,
        spec_parse_service(data, services[i as int], service_id(prefix, i), layer_name, source_ecu) is Err,
    ensures
        spec_services_fold(data, services, n, prefix, layer_name, source_ecu) == Err::<
            Seq<ServiceView>,
            DecodeError,
        >(
            spec_parse_service(
                data,
                services[i as int],
                service_id(prefix, i),
                layer_name,
                source_ecu,
            )->Err_0,
        ),
    decreases n,
{
    if n > i + 1 {
        lemma_services_fold_err(data, services, i, (n - 1) as nat, prefix, layer_name, source_ecu);
    }
}

/// `after` begins with `before`.
pub open spec fn extends<T>(before: Seq<T>, after: Seq<T>) -> bool {
    before.len() <= after.len() && after.take(before.len() as int) == before
}

/// Appends the services of the layer at `layer` to `out`, with ids
/// `{prefix}/service/{index}`.
pub fn collect_layer_services(
    data: &[u8],
    layer: usize,
    prefix: &str,
    source_ecu: &str,
    out: &mut Vec<UdsMddService>,
) -> (r: Result<(), DecodeError>)
    requires
        data@.len() <= isize::MAX,
    ensures
        extends(old(out)@, final(out)@),
        match spec_layer_services(data@, layer as int, prefix@, source_ecu@) {
            Ok(s) => r is Ok && services_view(final(out)@) == services_view(old(out)@) + s,
            Err(e) => r == Err::<(), DecodeError>(e),
        },
        services_view(final(out)@) == services_view(old(out)@) + spec_layer_kept(
            data@,
            layer as int,
            prefix@,
            source_ecu@,
        ),
{
    proof {
        assert(services_view(out@) + Seq::<ServiceView>::empty() =~= services_view(out@));
    }
    let layer_name = match fb_string_field(data, layer, 0) {
        Ok(Some(n)) => n,
        Ok(None) => String::from_str("Unnamed layer"),
        Err(e) => {
            assert(old(out)@.take(old(out)@.len() as int) =~= old(out)@);
            return Err(e);
        },
    };
    let services = match fb_vector_tables(data, layer, 4) {
        Ok(v) => v,
        Err(e) => {
            assert(old(out)@.take(old(out)@.len() as int) =~= old(out)@);
            return Err(e);
        },
    };
    let ghost sv = services@.map_values(|t: usize| t as int);
    let ghost start = out@;
    let mut i: usize = 0;
    assert(out@.take(start.len() as int) =~= start);
    assert(services_view(out@.skip(start.len() as int)) =~= Seq::<ServiceView>::empty());
    while i < services.len()
        invariant
            data@.len() <= isize::MAX,
            i <= services@.len(),
            sv == services@.map_values(|t: usize| t as int),
            start == old(out)@,
            spec_layer_services(data@, layer as int, prefix@, source_ecu@) == spec_services_fold(
                data@,
                sv,
                sv.len(),
                prefix@,
                layer_name@,
                source_ecu@,
            ),
            extends(start, out@),
            spec_layer_kept(data@, layer as int, prefix@, source_ecu@) == spec_services_kept(
                data@,
                sv,
                sv.len(),
                prefix@,
                layer_name@,
                source_ecu@,
            ),
            spec_services_fold(data@, sv, i as nat, prefix@, layer_name@, source_ecu@) == Ok::<
                Seq<ServiceView>,
                DecodeError,
            >(services_view(out@.skip(start.len() as int))),
        decreases services@.len() - i,
    {
        let mut id = String::from_str(prefix);
        id.append("/service/");
        let index = u64_to_decimal(i as u64);
        id.append(index.as_str());
        let svc = match parse_service(
            data,
            services[i],
            id,
            layer_name.clone(),
            String::from_str(source_ecu),
        ) {
            Ok(s) => s,
            Err(e) => {
                proof {
                    lemma_services_fold_err(
                        data@,
                        sv,
                        i as nat,
                        sv.len(),
                        prefix@,
                        layer_name@,
                        source_ecu@,
                    );
                    lemma_services_kept_stop(
                        data@,
                        sv,
                        i as nat,
                        sv.len(),
                        prefix@,
                        layer_name@,
                        source_ecu@,
                    );
                    assert(out@ =~= start + out@.skip(start.len() as int));
                    assert(services_view(out@) =~= services_view(start) + services_view(
                        out@.skip(start.len() as int),
                    ));
                }
                return Err(e);
            },
        };
        let ghost before = out@;
        out.push(svc);
        proof {
            assert(out@.take(start.len() as int) =~= start);
            assert(out@.skip(start.len() as int) =~= before.skip(start.len() as int).push(svc));
            assert(services_view(out@.skip(start.len() as int)) =~= services_view(
                before.skip(start.len() as int),
            ).push(svc@));
        }
        i += 1;
    }
    proof {
        assert(out@ =~= start + out@.skip(start.len() as int));
        assert(services_view(out@) =~= services_view(start) + services_view(
            out@.skip(start.len() as int),
        ));
        lemma_services_kept_ok(data@, sv, sv.len(), prefix@, layer_name@, source_ecu@);
    }
    Ok(())
}

/// The services inherited through a parent reference: those of a variant
/// parent (union tag 1) or of shared ECU data (tag 5).
pub open spec fn spec_parent_services(
    data: Seq<u8>,
    parent_ref: int,
    prefix: Seq<char>,
    source_ecu: Seq<char>,
) -> Result<Seq<ServiceView>, DecodeError> {
    match spec_fb_u8_field(data, parent_ref, 0, 0) {
        Err(e) => Err(e),
        Ok(rt) => match spec_fb_table_field(data, parent_ref, 1) {
            Err(e) => Err(e),
            Ok(None) => Ok(Seq::empty()),
            Ok(Some(reference)) => if rt == 1 || rt == 5 {
                match spec_fb_table_field(data, reference, 0) {
                    Err(e) => Err(e),
                    Ok(None) => Ok(Seq::empty()),
                    Ok(Some(layer)) => spec_layer_services(
                        data,
                        layer,
                        prefix + if rt == 1 {
                            "/variant-parent"@
                        } else {
                            "/shared-parent"@
                        },
                        source_ecu,
                    ),
                }
            } else {
                Ok(Seq::empty())
            },
        },
    }
}

/// The services that collecting a parent reference appends, whether or not
/// it fails: none when the reference cannot be read or is of another kind,
/// else what collecting its layer appends.
pub open spec fn spec_parent_kept(
    data: Seq<u8>,
    parent_ref: int,
    prefix: Seq<char>,
    source_ecu: Seq<char>,
) -> Seq<ServiceView> {
    match spec_fb_u8_field(data, parent_ref, 0, 0) {
        Err(_) => Seq::empty(),
        Ok(rt) => match spec_fb_table_field(data, parent_ref, 1) {
            Ok(Some(reference)) => if rt == 1 || rt == 5 {
                match spec_fb_table_field(data, reference, 0) {
                    Ok(Some(layer)) => spec_layer_kept(
                        data,
                        layer,
                        prefix + if rt == 1 {
                            "/variant-parent"@
                        } else {
                            "/shared-parent"@
                        },
                        source_ecu,
                    ),
                    _ => Seq::empty(),
                }
            } else {
                Seq::empty()
            },
            _ => Seq::empty(),
        },
    }
}

/// Appends the services inherited through the parent reference at
/// `parent_ref` to `out`.
pub fn collect_parent_services(
    data: &[u8],
    parent_ref: usize,
    prefix: &str,
    source_ecu: &str,
    out: &mut Vec<UdsMddService>,
) -> (r: Result<(), DecodeError>)
    requires
        data@.len() <= isize::MAX,
    ensures
        extends(old(out)@, final(out)@),
        match spec_parent_services(data@, parent_ref as int, prefix@, source_ecu@) {
            Ok(s) => r is Ok && services_view(final(out)@) == services_view(old(out)@) + s,
            Err(e) => r == Err::<(), DecodeError>(e),
        },
        services_view(final(out)@) == services_view(old(out)@) + spec_parent_kept(
            data@,
            parent_ref as int,
            prefix@,
            source_ecu@,
        ),
        spec_parent_kept(data@, parent_ref as int, prefix@, source_ecu@).len() == 0 ==> final(out)@
            == old(out)@,
{
    proof {
        assert(out@.take(out@.len() as int) =~= out@);
        assert(services_view(out@) + Seq::<ServiceView>::empty() =~= services_view(out@));
    }
    let ref_type = fb_u8_field(data, parent_ref, 0, 0)?;
    let reference = match fb_table_field(data, parent_ref, 1)? {
        Some(r) => r,
        None => {
            return Ok(());
        },
    };
    if ref_type == 1 || ref_type == 5 {
        if let Some(layer) = fb_table_field(data, reference, 0)? {
            let mut p = String::from_str(prefix);
            if ref_type == 1 {
                p.append("/variant-parent");
            } else {
                p.append("/shared-parent");
            }
            let r = collect_layer_services(data, layer, p.as_str(), source_ecu, out);
            proof {
                if spec_parent_kept(data@, parent_ref as int, prefix@, source_ecu@).len() == 0 {
                    assert(out@.len() == old(out)@.len());
                    assert(out@ =~= old(out)@);
                }
            }
            return r;
        }
    }
    Ok(())
}

} // verus!

verus! {

proof fn lemma_params_or_fallback_len(data: Seq<u8>, params: Seq<int>, n: nat, name: Seq<char>, hint: Seq<char>)
    requires
        n <= params.len(),
    ensures
        spec_params_or_fallback(data, params, n, name, hint).len() == n,
    decreases n,
{
    if n > 0 {
        lemma_params_or_fallback_len(data, params, (n - 1) as nat, name, hint);
    }
}

/// A request's or a response's parameter list fails only when the list
/// itself cannot be read; a parameter that does not decode stays in it as a
/// stand-in, so the list has one entry per parameter.
pub proof fn lemma_params_never_dropped(data: Seq<u8>, table: int)
    ensures
        spec_request_params(data, table) is Ok <==> spec_fb_vector_tables(data, table, 0) is Ok,
        spec_request_params(data, table) matches Ok(ps) ==> ps.len() == spec_fb_vector_tables(
            data,
            table,
            0,
        )->Ok_0.len(),
        spec_response_params(data, table) is Ok <==> spec_fb_vector_tables(data, table, 1) is Ok,
        spec_response_params(data, table) matches Ok(ps) ==> ps.len() == spec_fb_vector_tables(
            data,
            table,
            1,
        )->Ok_0.len(),
{
    if let Ok(ps) = spec_fb_vector_tables(data, table, 0) {
        lemma_params_or_fallback_len(data, ps, ps.len(), "Runtime parameter"@, request_fallback_hint());
    }
    if let Ok(ps) = spec_fb_vector_tables(data, table, 1) {
        lemma_params_or_fallback_len(data, ps, ps.len(), "Response parameter"@, response_fallback_hint());
    }
}

} // verus!

verus! {

/// A parent reference of type 5 (ECU shared data) whose reference has a
/// layer contributes exactly that layer's services, under
/// `{prefix}/shared-parent`, as one of type 1 (a variant) does under
/// `{prefix}/variant-parent`; a reference of any other type contributes
/// nothing.
pub proof fn lemma_parent_reference_kinds(
    data: Seq<u8>,
    parent_ref: int,
    prefix: Seq<char>,
    source_ecu: Seq<char>,
    ref_type: u8,
    reference: int,
    layer: int,
)
    requires
        spec_fb_u8_field(data, parent_ref, 0, 0) == Ok::<u8, DecodeError>(ref_type),
        spec_fb_table_field(data, parent_ref, 1) == Ok::<Option<int>, DecodeError>(Some(reference)),
    ensures
        ref_type == 5 && spec_fb_table_field(data, reference, 0) == Ok::<Option<int>, DecodeError>(
            Some(layer),
        ) ==> spec_parent_services(data, parent_ref, prefix, source_ecu) == spec_layer_services(
            data,
            layer,
            prefix + "/shared-parent"@,
            source_ecu,
        ) && spec_parent_kept(data, parent_ref, prefix, source_ecu) == spec_layer_kept(
            data,
            layer,
            prefix + "/shared-parent"@,
            source_ecu,
        ),
        ref_type == 1 && spec_fb_table_field(data, reference, 0) == Ok::<Option<int>, DecodeError>(
            Some(layer),
        ) ==> spec_parent_services(data, parent_ref, prefix, source_ecu) == spec_layer_services(
            data,
            layer,
            prefix + "/variant-parent"@,
            source_ecu,
        ) && spec_parent_kept(data, parent_ref, prefix, source_ecu) == spec_layer_kept(
            data,
            layer,
            prefix + "/variant-parent"@,
            source_ecu,
        ),
        ref_type != 1 && ref_type != 5 ==> spec_parent_services(data, parent_ref, prefix, source_ecu)
            == Ok::<Seq<ServiceView>, DecodeError>(Seq::empty()) && spec_parent_kept(
            data,
            parent_ref,
            prefix,
            source_ecu,
        ) == Seq::<ServiceView>::empty(),
{
}

} // verus!
