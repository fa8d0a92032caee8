use odx_desktop::doip::{
    doip_begin_log, doip_end_log, doip_log_context, prepare_doip_request, start_doip_exchange,
    AckKind, DoipAction, DoipEvent, DoipRequest, ReceivedKind, SendUdsDoipResult,
    MAX_RESPONSE_MESSAGES,
};

fn request() -> DoipRequest {
    prepare_doip_request("22 F1 90", " 192.168.0.10 ", "0x0E80", "0x1001", None).unwrap()
}

fn finished_ok(a: DoipAction) -> SendUdsDoipResult {
    match a {
        DoipAction::Finish(Ok(r)) => r,
        other => panic!("unexpected {other:?}"),
    }
}

fn finished_err(a: DoipAction) -> String {
    match a {
        DoipAction::Finish(Err(e)) => e,
        other => panic!("unexpected {other:?}"),
    }
}

#[test]
fn prepare_reads_frame_addresses_and_host() {
    let q = request();
    assert_eq!(q.uds, vec![0x22, 0xF1, 0x90]);
    assert_eq!(q.source, 0x0E80);
    assert_eq!(q.target, 0x1001);
    assert_eq!(q.timeout_ms, 3000);
    assert_eq!(q.host, "192.168.0.10");
}

#[test]
fn prepare_clamps_the_timeout() {
    let t = |ms| prepare_doip_request("3E 00", "h", "1", "2", ms).unwrap().timeout_ms;
    assert_eq!(t(Some(5)), 100);
    assert_eq!(t(Some(100)), 100);
    assert_eq!(t(Some(1500)), 1500);
    assert_eq!(t(Some(70000)), 60000);
    assert_eq!(t(None), 3000);
}

#[test]
fn prepare_errors() {
    assert_eq!(
        prepare_doip_request(" ", "h", "1", "2", None).unwrap_err(),
        "A sequence contains an empty frame."
    );
    assert_eq!(
        prepare_doip_request("3E 00", "h", "x", "2", None).unwrap_err(),
        "Invalid tester logical address 'x'. Use for example 0x0E80."
    );
    assert_eq!(
        prepare_doip_request("3E 00", "h", "1", "", None).unwrap_err(),
        "ECU logical address is empty."
    );
    assert_eq!(
        prepare_doip_request("3E 00", "  ", "1", "2", None).unwrap_err(),
        "DoIP server IP/host is empty."
    );
}

#[test]
fn exchange_returns_the_diagnostic_response() {
    let mut x = start_doip_exchange(request());
    assert!(matches!(x.step(DoipEvent::Acknowledged(AckKind::Positive)), DoipAction::Receive));
    assert!(matches!(x.step(DoipEvent::Received(ReceivedKind::Other)), DoipAction::Receive));
    let r = finished_ok(x.step(DoipEvent::Received(ReceivedKind::Diagnostic(vec![0x62, 0xF1, 0x90, 0x41]))));
    assert_eq!(r.response, "62 F1 90 41");
    assert_eq!(r.response_bytes, vec![0x62, 0xF1, 0x90, 0x41]);
    assert_eq!(r.source_address, "0x0E80");
    assert_eq!(r.target_address, "0x1001");
    assert_eq!(r.transport, "doip_rw_tokio 0.1.1");
    assert_eq!(r.acknowledgement, "positive ACK");
}

#[test]
fn exchange_keeps_other_acknowledgements_as_text() {
    let mut x = start_doip_exchange(request());
    assert!(matches!(x.step(DoipEvent::Acknowledged(AckKind::Other("AliveCheck".to_string()))), DoipAction::Receive));
    let r = finished_ok(x.step(DoipEvent::Received(ReceivedKind::Diagnostic(vec![0x7E, 0x00]))));
    assert_eq!(r.acknowledgement, "AliveCheck");
    let mut y = start_doip_exchange(request());
    let r2 = finished_ok(y.step(DoipEvent::Received(ReceivedKind::Diagnostic(vec![0x50]))));
    assert_eq!(r2.acknowledgement, "");
}

#[test]
fn exchange_errors() {
    let mut x = start_doip_exchange(request());
    assert_eq!(
        finished_err(x.step(DoipEvent::Acknowledged(AckKind::Negative("InvalidSourceAddress".to_string())))),
        "DoIP server returned a diagnostic NACK: InvalidSourceAddress"
    );
    let mut y = start_doip_exchange(request());
    assert_eq!(
        finished_err(y.step(DoipEvent::Received(ReceivedKind::NegativeAck("OutOfMemory".to_string())))),
        "DoIP server returned a diagnostic NACK while waiting for the response: OutOfMemory"
    );
    let mut z = start_doip_exchange(request());
    assert_eq!(finished_err(z.step(DoipEvent::Failed("connection refused".to_string()))), "connection refused");
}

#[test]
fn exchange_gives_up_after_eight_other_messages() {
    let mut x = start_doip_exchange(request());
    for _ in 0..MAX_RESPONSE_MESSAGES - 1 {
        assert!(matches!(x.step(DoipEvent::Received(ReceivedKind::Other)), DoipAction::Receive));
    }
    assert_eq!(
        finished_err(x.step(DoipEvent::Received(ReceivedKind::Other))),
        "No UDS DiagnosticMessage was received from the DoIP server."
    );
}

#[test]
fn response_text_parses_back_to_the_response_bytes() {
    let bytes = vec![0x62, 0xF1, 0x90, 0x00, 0xFF];
    let mut x = start_doip_exchange(request());
    let r = finished_ok(x.step(DoipEvent::Received(ReceivedKind::Diagnostic(bytes.clone()))));
    assert_eq!(odx_desktop::text::parse_hex_frame_text(&r.response), Ok(bytes));
}

#[test]
fn log_lines() {
    assert_eq!(doip_log_context(Some("Read VIN".to_string())), "Read VIN");
    assert_eq!(doip_log_context(Some("  ".to_string())), "UDS send");
    assert_eq!(doip_log_context(None), "UDS send");
    assert_eq!(
        doip_begin_log("UDS send", " 22 F1 90 ", " host ", 13400, " 0x0E80", "0x1001 "),
        "BEGIN | UDS send | request=22 F1 90 | server=host:13400 | tester=0x0E80 | target=0x1001"
    );
    let mut x = start_doip_exchange(request());
    x.step(DoipEvent::Acknowledged(AckKind::Positive));
    let ok = match x.step(DoipEvent::Received(ReceivedKind::Diagnostic(vec![0x62]))) {
        DoipAction::Finish(r) => r,
        DoipAction::Receive => panic!("no response"),
    };
    assert_eq!(
        doip_end_log("ctx", &ok),
        "END OK | ctx | response=62 | ack=positive ACK | transport=doip_rw_tokio 0.1.1"
    );
    assert_eq!(doip_end_log("ctx", &Err("timeout".to_string())), "END ERROR | ctx | timeout");
}

#[test]
fn acknowledgement_does_not_use_up_the_wait() {
    let mut x = start_doip_exchange(request());
    assert!(matches!(x.step(DoipEvent::Acknowledged(AckKind::Positive)), DoipAction::Receive));
    assert_eq!(x.received, 0);
    for _ in 0..MAX_RESPONSE_MESSAGES - 1 {
        assert!(matches!(x.step(DoipEvent::Received(ReceivedKind::Other)), DoipAction::Receive));
    }
    let r = finished_ok(x.step(DoipEvent::Received(ReceivedKind::Diagnostic(vec![0x7E, 0x00]))));
    assert_eq!(r.acknowledgement, "positive ACK");
}
