use ultreth::connector::{
    classify_probe, connect, error_code, retry_decision, valid_endpoint, ConnectError, FailCause,
    ProbeClass, ProbeResult, RetryDecision, METHOD_UNSUPPORTED_CODE,
};

#[test]
fn error_code_with_comma_terminator() {
    let msg = "(code: -32046, message: \"Cannot fulfill request\")".as_bytes();
    assert_eq!(error_code(msg), Some(-32046));
}

#[test]
fn error_code_with_paren_terminator() {
    let msg = "JsonRpcError(code: -32601)".as_bytes();
    assert_eq!(error_code(msg), Some(-32601));
}

#[test]
fn error_code_prefers_comma_over_paren() {
    let msg = "(code: -7, more)".as_bytes();
    assert_eq!(error_code(msg), Some(-7));
}

#[test]
fn error_code_absent_marker() {
    assert_eq!(error_code("connection refused".as_bytes()), None);
    assert_eq!(error_code("".as_bytes()), None);
}

#[test]
fn error_code_no_terminator() {
    assert_eq!(error_code("code: -32601".as_bytes()), None);
}

#[test]
fn error_code_empty_digits() {
    assert_eq!(error_code("code: -, rest".as_bytes()), None);
}

#[test]
fn error_code_non_digit_span() {
    assert_eq!(error_code("code: -12x4, rest".as_bytes()), None);
}

#[test]
fn error_code_overflowing_value() {
    assert_eq!(error_code("code: -99999999999, rest".as_bytes()), None);
}

#[test]
fn error_code_at_i32_min() {
    assert_eq!(error_code("code: -2147483648, x".as_bytes()), Some(i32::MIN));
    assert_eq!(error_code("code: -2147483649, x".as_bytes()), None);
}

#[test]
fn endpoint_validation() {
    assert!(valid_endpoint("http://localhost:8545".as_bytes()));
    assert!(valid_endpoint("https://rpc.example.org".as_bytes()));
    assert!(!valid_endpoint("http://".as_bytes()));
    assert!(!valid_endpoint("https://".as_bytes()));
    assert!(!valid_endpoint("ftp://host".as_bytes()));
    assert!(!valid_endpoint("".as_bytes()));
    assert!(!valid_endpoint("localhost:8545".as_bytes()));
}

#[test]
fn classify_height_connects() {
    assert_eq!(classify_probe(&ProbeResult::Height(19_000_000)), ProbeClass::Connected(19_000_000));
}

#[test]
fn classify_timeout_is_transient() {
    assert_eq!(classify_probe(&ProbeResult::Timeout), ProbeClass::Transient(FailCause::Timeout));
}

#[test]
fn classify_unsupported_method_is_fatal() {
    let msg = "(code: -32601, message: \"Method not found\")".as_bytes().to_vec();
    assert_eq!(
        classify_probe(&ProbeResult::RpcError(msg)),
        ProbeClass::Fatal(METHOD_UNSUPPORTED_CODE)
    );
}

#[test]
fn classify_other_code_is_transient() {
    let msg = "(code: -32046, message: \"Cannot fulfill request\")".as_bytes().to_vec();
    assert_eq!(
        classify_probe(&ProbeResult::RpcError(msg)),
        ProbeClass::Transient(FailCause::Rpc(Some(-32046)))
    );
}

#[test]
fn classify_uncoded_error_is_transient() {
    let msg = "connection reset by peer".as_bytes().to_vec();
    assert_eq!(
        classify_probe(&ProbeResult::RpcError(msg)),
        ProbeClass::Transient(FailCause::Rpc(None))
    );
}

#[test]
fn retry_decision_paths() {
    assert_eq!(
        retry_decision(&ProbeClass::Connected(7), 1, 3),
        RetryDecision::Accept(7)
    );
    assert_eq!(
        retry_decision(&ProbeClass::Fatal(-32601), 1, 3),
        RetryDecision::Fail(ConnectError::Fatal(-32601))
    );
    assert_eq!(
        retry_decision(&ProbeClass::Transient(FailCause::Timeout), 1, 3),
        RetryDecision::RetryAfterDelay
    );
    assert_eq!(
        retry_decision(&ProbeClass::Transient(FailCause::Timeout), 3, 3),
        RetryDecision::Fail(ConnectError::ExhaustedRetries(FailCause::Timeout))
    );
}

#[test]
fn connect_succeeds_first_attempt() {
    let probes = vec![ProbeResult::Height(100)];
    let out = connect("http://node".as_bytes(), 1, &probes);
    assert_eq!(out.attempts, 1);
    assert_eq!(out.result, Ok(100));
}

#[test]
fn connect_succeeds_after_transient_failures() {
    let probes = vec![ProbeResult::Timeout, ProbeResult::Timeout, ProbeResult::Height(42)];
    let out = connect("http://node".as_bytes(), 3, &probes);
    assert_eq!(out.attempts, 3);
    assert_eq!(out.result, Ok(42));
}

#[test]
fn retry_exhaustion_makes_exactly_three_attempts() {
    let probes = vec![ProbeResult::Timeout, ProbeResult::Timeout, ProbeResult::Timeout];
    let out = connect("http://node".as_bytes(), 3, &probes);
    assert_eq!(out.attempts, 3);
    assert_eq!(
        out.result,
        Err(ConnectError::ExhaustedRetries(FailCause::Timeout))
    );
}

#[test]
fn fatal_short_circuits_regardless_of_budget() {
    let msg = "(code: -32601, message: \"Method not found\")".as_bytes().to_vec();
    let probes = vec![
        ProbeResult::RpcError(msg),
        ProbeResult::Height(1),
        ProbeResult::Height(2),
        ProbeResult::Height(3),
        ProbeResult::Height(4),
    ];
    let out = connect("http://node".as_bytes(), 5, &probes);
    assert_eq!(out.attempts, 1);
    assert_eq!(out.result, Err(ConnectError::Fatal(-32601)));
}

#[test]
fn exhaustion_reports_last_cause() {
    let coded = "(code: -32046, message: \"rate limited\")".as_bytes().to_vec();
    let probes = vec![ProbeResult::Timeout, ProbeResult::RpcError(coded)];
    let out = connect("http://node".as_bytes(), 2, &probes);
    assert_eq!(out.attempts, 2);
    assert_eq!(
        out.result,
        Err(ConnectError::ExhaustedRetries(FailCause::Rpc(Some(-32046))))
    );
}

#[test]
fn connect_rejects_malformed_endpoint_without_probing() {
    let probes = vec![ProbeResult::Height(1)];
    let out = connect("not a url".as_bytes(), 1, &probes);
    assert_eq!(out.attempts, 0);
    assert_eq!(out.result, Err(ConnectError::InvalidEndpoint));
}
