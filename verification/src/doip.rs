//! Sending a UDS request over DoIP, as decisions: the request is checked and
//! prepared, then each event of the exchange (the acknowledgement, each
//! message received, a transport failure) decides whether to wait for the
//! next message or to finish with the UDS response or an error. The caller
//! performs the network work the decisions ask for.
use vstd::prelude::*;
use crate::text::{
    bytes_to_hex, chars_to_string, digits_in, digits_padded, hex_padded, pad_zeros,
    parse_hex_frame_text, parse_logical_address, spec_bytes_to_hex, spec_parse_hex_frame_text,
    spec_parse_logical_address, str_chars, trim, trim_chars, u64_to_decimal, has_hex_prefix,
    lemma_padded_digits_parse, lemma_trim_plain,
};

verus! {

/// A UDS request ready to be sent: payload, addresses, timeout and server.
#[derive(Debug)]
pub struct DoipRequest {
    pub uds: Vec<u8>,
    pub source: u16,
    pub target: u16,
    pub timeout_ms: u64,
    pub host: String,
}

/// The timeout used for every step: 3000 ms unless given, kept within
/// 100..=60000 ms.
pub open spec fn effective_timeout(timeout_ms: Option<u64>) -> u64 {
    let t = match timeout_ms {
        Some(t) => t,
        None => 3000u64,
    };
    if t < 100 {
        100
    } else if t > 60000 {
        60000
    } else {
        t
    }
}

/// Checks and prepares a request: the frame must be hexadecimal bytes, the
/// addresses valid logical addresses, the host not blank.
pub open spec fn spec_prepare_doip_request(
    frame: Seq<char>,
    host: Seq<char>,
    source_address: Seq<char>,
    target_address: Seq<char>,
    timeout_ms: Option<u64>,
) -> Result<(Seq<u8>, u16, u16, u64, Seq<char>), Seq<char>> {
    match spec_parse_hex_frame_text(frame) {
        Err(m) => Err(m),
        Ok(uds) => if uds.len() == 0 {
            Err("The generated UDS request is empty."@)
        } else {
            match spec_parse_logical_address(source_address, "tester logical address"@) {
                Err(m) => Err(m),
                Ok(source) => match spec_parse_logical_address(target_address, "ECU logical address"@) {
                    Err(m) => Err(m),
                    Ok(target) => if trim(host).len() == 0 {
                        Err("DoIP server IP/host is empty."@)
                    } else {
                        Ok((uds, source, target, effective_timeout(timeout_ms), trim(host)))
                    },
                },
            }
        },
    }
}

/// Checks a request typed by the user and prepares it for sending.
pub fn prepare_doip_request(
    frame: &str,
    host: &str,
    source_address: &str,
    target_address: &str,
    timeout_ms: Option<u64>,
) -> (r: Result<DoipRequest, String>)
    ensures
        match spec_prepare_doip_request(frame@, host@, source_address@, target_address@, timeout_ms) {
            Ok((uds, source, target, t, h)) => r matches Ok(q) && q.uds@ == uds && q.source == source
                && q.target == target && q.timeout_ms == t && q.host@ == h,
            Err(m) => r matches Err(e) && e@ == m,
        },
{
    let uds = parse_hex_frame_text(frame)?;
    if uds.len() == 0 {
        return Err(String::from_str("The generated UDS request is empty."));
    }
    let source = parse_logical_address(source_address, "tester logical address")?;
    let target = parse_logical_address(target_address, "ECU logical address")?;
    let t = match timeout_ms {
        Some(t) => t,
        None => 3000,
    };
    let timeout = if t < 100 {
        100
    } else if t > 60000 {
        60000
    } else {
        t
    };
    let h = trim_chars(&str_chars(host));
    if h.len() == 0 {
        return Err(String::from_str("DoIP server IP/host is empty."));
    }
    Ok(DoipRequest { uds, source, target, timeout_ms: timeout, host: chars_to_string(&h) })
}

/// What the server acknowledged a diagnostic message with.
pub enum AckKind {
    Positive,
    /// A negative acknowledgement, as its debug text.
    Negative(String),
    /// Any other message, as its debug text.
    Other(String),
}

/// A message received while waiting for the UDS response.
pub enum ReceivedKind {
    /// A diagnostic message with its user data: the UDS response.
    Diagnostic(Vec<u8>),
    /// A negative acknowledgement, as its debug text.
    NegativeAck(String),
    /// Any other DoIP message (an alive check, for example).
    Other,
}

/// What happened since the last decision.
pub enum DoipEvent {
    Acknowledged(AckKind),
    Received(ReceivedKind),
    /// The transport failed; the text says how.
    Failed(String),
}

/// The outcome of a successful exchange.
#[derive(Debug)]
pub struct SendUdsDoipResult {
    pub response: String,
    pub response_bytes: Vec<u8>,
    pub source_address: String,
    pub target_address: String,
    pub transport: String,
    pub acknowledgement: String,
}

/// What to do next.
#[derive(Debug)]
pub enum DoipAction {
    /// Wait for the next message.
    Receive,
    /// Stop, with the response or an error.
    Finish(Result<SendUdsDoipResult, String>),
}

/// An exchange in progress: the request, the acknowledgement once there is
/// one, and how many messages were received without the response.
pub struct DoipExchange {
    pub request: DoipRequest,
    pub acknowledgement: Option<String>,
    pub received: usize,
}

/// How many messages are awaited for the response.
pub const MAX_RESPONSE_MESSAGES: usize = 8;

/// `0x` and four uppercase hexadecimal digits.
pub open spec fn address_text(a: u16) -> Seq<char> {
    "0x"@ + pad_zeros(digits_in(a as nat, 16), 4)
}

fn address_string(a: u16) -> (r: String)
    ensures
        r@ == address_text(a),
{
    let mut m = String::from_str("0x");
    let d = chars_to_string(&hex_padded(a as u64, 4));
    m.append(d.as_str());
    m
}

/// The acknowledgement as text, empty when there was none.
pub open spec fn ack_text(a: Option<String>) -> Seq<char> {
    match a {
        Some(k) => k@,
        None => Seq::empty(),
    }
}

/// A new exchange for a prepared request, waiting for the acknowledgement.
pub fn start_doip_exchange(request: DoipRequest) -> (x: DoipExchange)
    ensures
        x.request == request,
        x.acknowledgement is None,
        x.received == 0,
{
    DoipExchange { request, acknowledgement: None, received: 0 }
}

impl DoipExchange {
    /// Decides what follows an event: after a positive (or any other
    /// non-negative) acknowledgement, wait for the response; a diagnostic
    /// message is the response; a negative acknowledgement or a transport
    /// failure ends the exchange with an error; after eight other messages
    /// the exchange gives up.
    pub fn step(&mut self, event: DoipEvent) -> (a: DoipAction)
        ensures
            final(self).request == old(self).request,
            event is Failed ==> (a matches DoipAction::Finish(Err(e)) && e@ == event->Failed_0@),
            event matches DoipEvent::Acknowledged(k) ==> match k {
                AckKind::Positive => a is Receive && (final(self).acknowledgement matches Some(t)
                    && t@ == "positive ACK"@) && final(self).received == old(self).received,
                AckKind::Negative(d) => a matches DoipAction::Finish(Err(e)) && e@
                    == "DoIP server returned a diagnostic NACK: "@ + d@,
                AckKind::Other(d) => a is Receive && (final(self).acknowledgement matches Some(t)
                    && t@ == d@) && final(self).received == old(self).received,
            },
            event matches DoipEvent::Received(m) ==> match m {
                ReceivedKind::Diagnostic(bytes) => a matches DoipAction::Finish(Ok(res))
                    && res.response_bytes@ == bytes@ && res.response@ == spec_bytes_to_hex(bytes@)
                    && res.source_address@ == address_text(old(self).request.source)
                    && res.target_address@ == address_text(old(self).request.target)
                    && res.transport@ == "doip_rw_tokio 0.1.1"@
                    && res.acknowledgement@ == ack_text(old(self).acknowledgement),
                ReceivedKind::NegativeAck(d) => a matches DoipAction::Finish(Err(e)) && e@
                    == "DoIP server returned a diagnostic NACK while waiting for the response: "@
                    + d@,
                ReceivedKind::Other => if old(self).received + 1 >= MAX_RESPONSE_MESSAGES {
                    a matches DoipAction::Finish(Err(e)) && e@
                        == "No UDS DiagnosticMessage was received from the DoIP server."@
                } else {
                    a is Receive && final(self).received == old(self).received + 1
                        && final(self).acknowledgement == old(self).acknowledgement
                },
            },
    {
        match event {
            DoipEvent::Failed(msg) => {
                let ghost text = msg@;
                let r = DoipAction::Finish(Err(msg));
                assert(r matches DoipAction::Finish(Err(e)) && e@ == text);
                r
            },
            DoipEvent::Acknowledged(AckKind::Positive) => {
                self.acknowledgement = Some(String::from_str("positive ACK"));
                DoipAction::Receive
            },
            DoipEvent::Acknowledged(AckKind::Negative(d)) => {
                let mut m = String::from_str("DoIP server returned a diagnostic NACK: ");
                m.append(d.as_str());
                DoipAction::Finish(Err(m))
            },
            DoipEvent::Acknowledged(AckKind::Other(d)) => {
                self.acknowledgement = Some(d);
                DoipAction::Receive
            },
            DoipEvent::Received(ReceivedKind::Diagnostic(bytes)) => {
                let acknowledgement = match &self.acknowledgement {
                    Some(k) => k.clone(),
                    None => String::new(),
                };
                assert(acknowledgement@ == ack_text(self.acknowledgement));
                DoipAction::Finish(
                    Ok(
                        SendUdsDoipResult {
                            response: bytes_to_hex(bytes.as_slice()),
                            response_bytes: bytes,
                            source_address: address_string(self.request.source),
                            target_address: address_string(self.request.target),
                            transport: String::from_str("doip_rw_tokio 0.1.1"),
                            acknowledgement,
                        },
                    ),
                )
            },
            DoipEvent::Received(ReceivedKind::NegativeAck(d)) => {
                let mut m = String::from_str(
                    "DoIP server returned a diagnostic NACK while waiting for the response: ",
                );
                m.append(d.as_str());
                DoipAction::Finish(Err(m))
            },
            DoipEvent::Received(ReceivedKind::Other) => {
                if self.received < MAX_RESPONSE_MESSAGES {
                    self.received = self.received + 1;
                } else {
                    self.received = MAX_RESPONSE_MESSAGES + 1;
                }
                if self.received >= MAX_RESPONSE_MESSAGES {
                    DoipAction::Finish(
                        Err(
                            String::from_str(
                                "No UDS DiagnosticMessage was received from the DoIP server.",
                            ),
                        ),
                    )
                } else {
                    DoipAction::Receive
                }
            },
        }
    }
}

/// The label a send is logged under: the caller's, unless blank.
pub open spec fn spec_log_context(log_context: Option<Seq<char>>) -> Seq<char> {
    match log_context {
        Some(c) => if trim(c).len() > 0 {
            c
        } else {
            "UDS send"@
        },
        None => "UDS send"@,
    }
}

/// The label a send is logged under.
pub fn doip_log_context(log_context: Option<String>) -> (r: String)
    ensures
        r@ == spec_log_context(match log_context {
            Some(c) => Some(c@),
            None => None,
        }),
{
    match log_context {
        Some(c) => {
            if trim_chars(&str_chars(c.as_str())).len() > 0 {
                c
            } else {
                String::from_str("UDS send")
            }
        },
        None => String::from_str("UDS send"),
    }
}

/// The log line that opens a send.
pub open spec fn spec_begin_log(
    context: Seq<char>,
    frame: Seq<char>,
    host: Seq<char>,
    port: u16,
    source_address: Seq<char>,
    target_address: Seq<char>,
) -> Seq<char> {
    "BEGIN | "@ + context + " | request="@ + trim(frame) + " | server="@ + trim(host) + ":"@
        + digits_in(port as nat, 10) + " | tester="@ + trim(source_address) + " | target="@ + trim(
        target_address,
    )
}

/// The log line that opens a send.
pub fn doip_begin_log(
    context: &str,
    frame: &str,
    host: &str,
    port: u16,
    source_address: &str,
    target_address: &str,
) -> (r: String)
    ensures
        r@ == spec_begin_log(context@, frame@, host@, port, source_address@, target_address@),
{
    let mut m = String::from_str("BEGIN | ");
    m.append(context);
    m.append(" | request=");
    m.append(chars_to_string(&trim_chars(&str_chars(frame))).as_str());
    m.append(" | server=");
    m.append(chars_to_string(&trim_chars(&str_chars(host))).as_str());
    m.append(":");
    m.append(u64_to_decimal(port as u64).as_str());
    m.append(" | tester=");
    m.append(chars_to_string(&trim_chars(&str_chars(source_address))).as_str());
    m.append(" | target=");
    m.append(chars_to_string(&trim_chars(&str_chars(target_address))).as_str());
    m
}

/// The log line that closes a send.
pub open spec fn spec_end_log(context: Seq<char>, outcome: Result<(Seq<char>, Seq<char>, Seq<char>), Seq<char>>) -> Seq<char> {
    match outcome {
        Ok((response, ack, transport)) => "END OK | "@ + context + " | response="@ + response
            + " | ack="@ + ack + " | transport="@ + transport,
        Err(e) => "END ERROR | "@ + context + " | "@ + e,
    }
}

/// The log line that closes a send, for its outcome.
pub fn doip_end_log(context: &str, outcome: &Result<SendUdsDoipResult, String>) -> (r: String)
    ensures
        r@ == spec_end_log(
            context@,
            match outcome {
                Ok(res) => Ok((res.response@, res.acknowledgement@, res.transport@)),
                Err(e) => Err(e@),
            },
        ),
{
    match outcome {
        Ok(reply) => {
            let mut m = String::from_str("END OK | ");
            m.append(context);
            m.append(" | response=");
            m.append(reply.response.as_str());
            m.append(" | ack=");
            m.append(reply.acknowledgement.as_str());
            m.append(" | transport=");
            m.append(reply.transport.as_str());
            m
        },
        Err(error) => {
            let mut m = String::from_str("END ERROR | ");
            m.append(context);
            m.append(" | ");
            m.append(error.as_str());
            m
        },
    }
}

} // verus!

verus! {

/// Every logical address reads back as itself from the `0x` and four
/// hexadecimal digits that a result shows it as, and from its decimal form.
pub proof fn lemma_address_text_round_trip(a: u16, label: Seq<char>)
    ensures
        spec_parse_logical_address(address_text(a), label) == Ok::<u16, Seq<char>>(a),
        spec_parse_logical_address(digits_in(a as nat, 10), label) == Ok::<u16, Seq<char>>(a),
{
    reveal_strlit("0x");
    let n = a as nat;
    let hex = pad_zeros(digits_in(n, 16), 4);
    let dec = digits_in(n, 10);
    lemma_padded_digits_parse(n, 16, 4, 0xFFFF);
    lemma_padded_digits_parse(n, 10, 0, 0xFFFF);
    assert(pad_zeros(dec, 0) == dec);
    let t = address_text(a);
    assert(t == "0x"@ + hex);
    assert forall|i: int| 0 <= i < t.len() implies !crate::text::is_ws(#[trigger] t[i]) by {
        if i >= 2 {
            assert(t[i] == hex[i - 2]);
        }
    }
    lemma_trim_plain(t);
    assert(has_hex_prefix(t));
    assert(t.skip(2) =~= hex);
    lemma_trim_plain(dec);
    assert(!has_hex_prefix(dec));
}

} // verus!
