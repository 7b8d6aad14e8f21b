//! Connection establishment: endpoint validation, probe failure
//! classification, and the bounded retry protocol.
//!
//! A connection attempt is a liveness probe ("what is the current chain
//! height").  Its outcome is classified: a reported height means success; a
//! timeout or an ordinary protocol error is transient and eligible for
//! retry; a protocol error whose embedded numeric code says the method is
//! unsupported is fatal and ends the protocol at once.  Transient failures
//! are retried with a fixed delay until the retry budget is spent.
//!
//! The probes themselves are network I/O and happen outside this crate; the
//! functions here decide, from the observed outcomes alone, what the
//! protocol does, and `connect` runs the whole protocol over a sequence of
//! recorded outcomes.

use vstd::prelude::*;

verus! {

/// The numeric protocol-error code that reports an unsupported method; the
/// one code classified as fatal.
pub const METHOD_UNSUPPORTED_CODE: i32 = -32601;

// ---------------------------------------------------------------------
// Extraction of an embedded numeric error code from a diagnostic message.
//
// A protocol error carries a textual message; when it embeds a code it does
// so as "code: -<digits>" followed by a comma or a closing parenthesis.
// ---------------------------------------------------------------------

/// The bytes announcing an embedded code, sign included.
pub open spec fn code_marker() -> Seq<u8> {
    seq![99u8, 111u8, 100u8, 101u8, 58u8, 32u8, 45u8]
}

/// `pat` occurs in `s` at position `i`.
pub open spec fn matches_at(s: Seq<u8>, pat: Seq<u8>, i: int) -> bool {
    0 <= i && i + pat.len() <= s.len() && s.subrange(i, i + pat.len()) == pat
}

/// The first position at or after `i` where the non-empty `pat` occurs in
/// `s`.
pub open spec fn find_from(s: Seq<u8>, pat: Seq<u8>, i: int) -> Option<int>
    decreases s.len() - i,
{
    if pat.len() == 0 || i < 0 || i + pat.len() > s.len() {
        None
    } else if matches_at(s, pat, i) {
        Some(i)
    } else {
        find_from(s, pat, i + 1)
    }
}

pub open spec fn is_digit(b: u8) -> bool {
    48 <= b <= 57
}

/// The number written by a non-empty, all-digit byte sequence; `None` when
/// the sequence is empty or holds a non-digit.
pub open spec fn digits_val(ds: Seq<u8>) -> Option<nat>
    decreases ds.len(),
{
    if ds.len() == 0 {
        None
    } else {
        let last = ds[ds.len() - 1];
        if !is_digit(last) {
            None
        } else if ds.len() == 1 {
            Some((last - 48) as nat)
        } else {
            match digits_val(ds.drop_last()) {
                Some(v) => Some((v * 10 + (last - 48)) as nat),
                None => None,
            }
        }
    }
}

/// The negative number written by a span "-<digits>", if it fits an `i32`.
pub open spec fn parse_code_span(span: Seq<u8>) -> Option<i32> {
    if span.len() < 2 || span[0] != 45 {
        None
    } else {
        match digits_val(span.subrange(1, span.len() as int)) {
            Some(v) => if v <= 0x8000_0000 {
                Some((0 - v as int) as i32)
            } else {
                None
            },
            None => None,
        }
    }
}

/// The embedded error code of a diagnostic message: the span between the
/// first occurrence of the marker's sign and the first comma after it (or,
/// with no comma, the first closing parenthesis), read as a negative number.
pub open spec fn error_code_spec(s: Seq<u8>) -> Option<i32> {
    match find_from(s, code_marker(), 0) {
        None => None,
        Some(m) => {
            let from = m + 6;
            let to = match find_from(s, seq![44u8], from) {
                Some(j) => Some(j),
                None => find_from(s, seq![41u8], from),
            };
            match to {
                Some(j) => parse_code_span(s.subrange(from, j)),
                None => None,
            }
        },
    }
}

/// A position where a pattern was found is in range and a genuine match.
proof fn lemma_find_from_found(s: Seq<u8>, pat: Seq<u8>, i: int)
    ensures
        find_from(s, pat, i) matches Some(j) ==> i <= j && j + pat.len() <= s.len()
            && matches_at(s, pat, j),
    decreases s.len() - i,
{
    if !(pat.len() == 0 || i < 0 || i + pat.len() > s.len()) && !matches_at(s, pat, i) {
        lemma_find_from_found(s, pat, i + 1);
    }
}

/// A sequence holding a non-digit writes no number.
proof fn lemma_digits_val_nondigit(ds: Seq<u8>, idx: int)
    requires
        0 <= idx < ds.len(),
        !is_digit(ds[idx]),
    ensures
        digits_val(ds) is None,
    decreases ds.len(),
{
    if idx < ds.len() - 1 {
        lemma_digits_val_nondigit(ds.drop_last(), idx);
    }
}

/// Find the code marker at or after `from`.
fn find_marker(msg: &[u8], from: usize) -> (r: Option<usize>)
    ensures
        r matches Some(j) ==> from <= j && j + 7 <= msg@.len() && find_from(
            msg@,
            code_marker(),
            from as int,
        ) == Some(j as int),
        r is None ==> find_from(msg@, code_marker(), from as int) is None,
{
    if msg.len() < 7 || from > msg.len() - 7 {
        assert(find_from(msg@, code_marker(), from as int) is None);
        return None;
    }
    let last = msg.len() - 7;
    let mut i: usize = from;
    while i <= last
        invariant
            from <= i <= last + 1,
            last + 7 == msg@.len(),
            find_from(msg@, code_marker(), from as int) == find_from(msg@, code_marker(), i as int),
        decreases last + 1 - i,
    {
        if msg[i] == 99 && msg[i + 1] == 111 && msg[i + 2] == 100 && msg[i + 3] == 101
            && msg[i + 4] == 58 && msg[i + 5] == 32 && msg[i + 6] == 45 {
            proof {
                assert(msg@.subrange(i as int, i as int + 7) =~= code_marker());
                assert(matches_at(msg@, code_marker(), i as int));
            }
            return Some(i);
        }
        proof {
            let sub = msg@.subrange(i as int, i as int + 7);
            if matches_at(msg@, code_marker(), i as int) {
                assert(sub[0] == 99 && sub[1] == 111 && sub[2] == 100 && sub[3] == 101 && sub[4] == 58
                    && sub[5] == 32 && sub[6] == 45);
                assert(false);
            }
        }
        i += 1;
    }
    assert(find_from(msg@, code_marker(), i as int) is None);
    None
}

/// Find the byte `b` at or after `from`.
fn find_byte(msg: &[u8], from: usize, b: u8) -> (r: Option<usize>)
    ensures
        r matches Some(j) ==> from <= j && j < msg@.len() && find_from(msg@, seq![b], from as int)
            == Some(j as int),
        r is None ==> find_from(msg@, seq![b], from as int) is None,
{
    let mut i: usize = from;
    if from > msg.len() {
        assert(find_from(msg@, seq![b], from as int) is None);
        return None;
    }
    while i < msg.len()
        invariant
            from <= i <= msg@.len(),
            find_from(msg@, seq![b], from as int) == find_from(msg@, seq![b], i as int),
        decreases msg@.len() - i,
    {
        if msg[i] == b {
            proof {
                assert(msg@.subrange(i as int, i as int + 1) =~= seq![b]);
                assert(matches_at(msg@, seq![b], i as int));
            }
            return Some(i);
        }
        proof {
            let sub = msg@.subrange(i as int, i as int + 1);
            if matches_at(msg@, seq![b], i as int) {
                assert(sub[0] == b);
                assert(false);
            }
        }
        i += 1;
    }
    assert(find_from(msg@, seq![b], i as int) is None);
    None
}

/// Read the span `msg[from..to]` as "-<digits>".
fn parse_code(msg: &[u8], from: usize, to: usize) -> (r: Option<i32>)
    requires
        from <= to <= msg@.len(),
    ensures
        r == parse_code_span(msg@.subrange(from as int, to as int)),
{
    let ghost span = msg@.subrange(from as int, to as int);
    if to - from < 2 {
        return None;
    }
    if msg[from] != 45 {
        assert(span[0] != 45);
        return None;
    }
    assert(span[0] == 45);
    let ghost digits = msg@.subrange(from as int + 1, to as int);
    assert(digits =~= span.subrange(1, span.len() as int));
    let mut k: usize = from + 1;
    let mut acc: u64 = 0;
    let ghost mut v: nat = 0nat;
    let mut over = false;
    while k < to
        invariant
            from + 1 <= k <= to,
            to <= msg@.len(),
            to - from >= 2,
            msg@[from as int] == 45,
            digits == msg@.subrange(from as int + 1, to as int),
            k > from + 1 ==> digits_val(msg@.subrange(from as int + 1, k as int)) == Some(v),
            k == from + 1 ==> v == 0 && !over,
            over ==> v > 0x8000_0000,
            !over ==> acc == v && acc <= 0x8000_0000,
        decreases to - k,
    {
        let d = msg[k];
        if d < 48 || d > 57 {
            proof {
                lemma_digits_val_nondigit(digits, k - (from + 1));
                let span2 = msg@.subrange(from as int, to as int);
                assert(span2.subrange(1, span2.len() as int) =~= digits);
                assert(span2[0] == 45);
                assert(parse_code_span(span2) is None);
            }
            return None;
        }
        proof {
            let prior = msg@.subrange(from as int + 1, k as int);
            let now = msg@.subrange(from as int + 1, k as int + 1);
            assert(now[now.len() - 1] == d);
            if k == from + 1 {
                assert(now.len() == 1);
                assert(digits_val(now) == Some((d - 48) as nat));
            } else {
                assert(now.drop_last() =~= prior);
                assert(digits_val(now) == Some((v * 10 + (d - 48)) as nat));
            }
            v = (v * 10 + (d - 48)) as nat;
        }
        if !over {
            let next = acc * 10 + (d - 48) as u64;
            if next > 0x8000_0000 {
                over = true;
            } else {
                acc = next;
            }
        }
        k += 1;
    }
    assert(digits == msg@.subrange(from as int + 1, to as int));
    assert(digits_val(digits) == Some(v));
    if over {
        None
    } else {
        if acc == 0x8000_0000 {
            Some(i32::MIN)
        } else {
            Some(0 - (acc as i32))
        }
    }
}

/// The embedded error code of a diagnostic message, if any.
pub fn error_code(msg: &[u8]) -> (r: Option<i32>)
    ensures
        r == error_code_spec(msg@),
{
    match find_marker(msg, 0) {
        None => None,
        Some(m) => {
            proof {
                lemma_find_from_found(msg@, code_marker(), 0);
            }
            let n = msg.len();
            assert(m + 7 <= n);
            let from = m + 6;
            let to_opt = match find_byte(msg, from, 44) {
                Some(j) => Some(j),
                None => find_byte(msg, from, 41),
            };
            match to_opt {
                Some(j) => {
                    proof {
                        lemma_find_from_found(msg@, seq![44u8], from as int);
                        lemma_find_from_found(msg@, seq![41u8], from as int);
                    }
                    parse_code(msg, from, j)
                },
                None => None,
            }
        },
    }
}

// ---------------------------------------------------------------------
// Endpoint validation.
// ---------------------------------------------------------------------

/// The bytes of "http://".
pub open spec fn http_prefix() -> Seq<u8> {
    seq![104u8, 116u8, 116u8, 112u8, 58u8, 47u8, 47u8]
}

/// The bytes of "https://".
pub open spec fn https_prefix() -> Seq<u8> {
    seq![104u8, 116u8, 116u8, 112u8, 115u8, 58u8, 47u8, 47u8]
}

/// Syntactic endpoint validation: the endpoint names one of the two schemes
/// this monitor speaks and has a non-empty remainder.  A malformed endpoint
/// fails the protocol immediately, before any probe.
pub open spec fn valid_endpoint_spec(s: Seq<u8>) -> bool {
    ||| (s.len() > 7 && s.subrange(0, 7) == http_prefix())
    ||| (s.len() > 8 && s.subrange(0, 8) == https_prefix())
}

pub fn valid_endpoint(endpoint: &[u8]) -> (ok: bool)
    ensures
        ok == valid_endpoint_spec(endpoint@),
{
    let n = endpoint.len();
    if n > 7 && endpoint[0] == 104 && endpoint[1] == 116 && endpoint[2] == 116 && endpoint[3]
        == 112 {
        if endpoint[4] == 58 && endpoint[5] == 47 && endpoint[6] == 47 {
            proof {
                assert(endpoint@.subrange(0, 7) =~= http_prefix());
            }
            return true;
        }
        if n > 8 && endpoint[4] == 115 && endpoint[5] == 58 && endpoint[6] == 47 && endpoint[7]
            == 47 {
            proof {
                assert(endpoint@.subrange(0, 8) =~= https_prefix());
            }
            return true;
        }
        proof {
            if endpoint@.len() > 7 && endpoint@.subrange(0, 7) == http_prefix() {
                assert(endpoint@.subrange(0, 7)[4] == 58);
                assert(endpoint@.subrange(0, 7)[5] == 47);
                assert(endpoint@.subrange(0, 7)[6] == 47);
                assert(false);
            }
            if endpoint@.len() > 8 && endpoint@.subrange(0, 8) == https_prefix() {
                assert(endpoint@.subrange(0, 8)[4] == 115);
                assert(endpoint@.subrange(0, 8)[5] == 58);
                assert(endpoint@.subrange(0, 8)[6] == 47);
                assert(endpoint@.subrange(0, 8)[7] == 47);
                assert(false);
            }
        }
        return false;
    }
    proof {
        if endpoint@.len() > 7 && endpoint@.subrange(0, 7) == http_prefix() {
            assert(endpoint@.subrange(0, 7)[0] == 104);
            assert(endpoint@.subrange(0, 7)[1] == 116);
            assert(endpoint@.subrange(0, 7)[2] == 116);
            assert(endpoint@.subrange(0, 7)[3] == 112);
            assert(false);
        }
        if endpoint@.len() > 8 && endpoint@.subrange(0, 8) == https_prefix() {
            assert(endpoint@.subrange(0, 8)[0] == 104);
            assert(endpoint@.subrange(0, 8)[1] == 116);
            assert(endpoint@.subrange(0, 8)[2] == 116);
            assert(endpoint@.subrange(0, 8)[3] == 112);
            assert(false);
        }
    }
    false
}

// ---------------------------------------------------------------------
// Classification and the retry protocol.
// ---------------------------------------------------------------------

/// What a single liveness probe observably did.
#[derive(Debug)]
pub enum ProbeResult {
    /// The node answered with the current chain height.
    Height(u64),
    /// The probe did not complete within the caller's time bound.
    Timeout,
    /// The node answered with a protocol error carrying this diagnostic
    /// message.
    RpcError(Vec<u8>),
}

/// Why a probe failed, as the protocol records it.
#[derive(Clone, Copy, Debug, PartialEq, Eq)]
pub enum FailCause {
    Timeout,
    /// A protocol error, with its embedded numeric code when one was found.
    Rpc(Option<i32>),
}

/// The typed causes on which the protocol gives up.
#[derive(Clone, Copy, Debug, PartialEq, Eq)]
pub enum ConnectError {
    /// The endpoint failed syntactic validation; no probe was made.
    InvalidEndpoint,
    /// The node reported this unsupported-method class of error code; the
    /// protocol did not retry.
    Fatal(i32),
    /// The retry budget was spent; the last attempt failed for this cause.
    ExhaustedRetries(FailCause),
}

/// How a probe outcome is classified.
#[derive(Clone, Copy, Debug, PartialEq, Eq)]
pub enum ProbeClass {
    /// The probe succeeded and reported this height.
    Connected(u64),
    /// The failure is final: no retry may follow.
    Fatal(i32),
    /// The failure is transient: eligible for retry.
    Transient(FailCause),
}

pub open spec fn classify_spec(p: ProbeResult) -> ProbeClass {
    match p {
        ProbeResult::Height(h) => ProbeClass::Connected(h),
        ProbeResult::Timeout => ProbeClass::Transient(FailCause::Timeout),
        ProbeResult::RpcError(msg) => match error_code_spec(msg@) {
            Some(c) => if c == METHOD_UNSUPPORTED_CODE {
                ProbeClass::Fatal(c)
            } else {
                ProbeClass::Transient(FailCause::Rpc(Some(c)))
            },
            None => ProbeClass::Transient(FailCause::Rpc(None)),
        },
    }
}

/// Classify one probe outcome.  A reported height connects; a timeout is
/// transient; a protocol error is fatal exactly when its embedded code says
/// the method is unsupported, and transient otherwise.
pub fn classify_probe(p: &ProbeResult) -> (c: ProbeClass)
    ensures
        c == classify_spec(*p),
{
    match p {
        ProbeResult::Height(h) => ProbeClass::Connected(*h),
        ProbeResult::Timeout => ProbeClass::Transient(FailCause::Timeout),
        ProbeResult::RpcError(msg) => match error_code(msg.as_slice()) {
            Some(c) => if c == METHOD_UNSUPPORTED_CODE {
                ProbeClass::Fatal(c)
            } else {
                ProbeClass::Transient(FailCause::Rpc(Some(c)))
            },
            None => ProbeClass::Transient(FailCause::Rpc(None)),
        },
    }
}

/// What the protocol does after one classified attempt.
#[derive(Clone, Copy, Debug, PartialEq, Eq)]
pub enum RetryDecision {
    /// The probe succeeded: the connection is validated, with this height.
    Accept(u64),
    /// Give up with this error.
    Fail(ConnectError),
    /// Sleep the fixed retry delay, then probe again.
    RetryAfterDelay,
}

pub open spec fn retry_decision_spec(c: ProbeClass, attempt: u32, max_retries: u32) -> RetryDecision {
    match c {
        ProbeClass::Connected(h) => RetryDecision::Accept(h),
        ProbeClass::Fatal(code) => RetryDecision::Fail(ConnectError::Fatal(code)),
        ProbeClass::Transient(cause) => if attempt >= max_retries {
            RetryDecision::Fail(ConnectError::ExhaustedRetries(cause))
        } else {
            RetryDecision::RetryAfterDelay
        },
    }
}

/// Decide, from the classification of attempt number `attempt` (counted
/// from 1) and the retry budget, whether to accept, give up, or retry after
/// the fixed delay.  Fatal failures never retry; transient ones retry while
/// budget remains.
pub fn retry_decision(c: &ProbeClass, attempt: u32, max_retries: u32) -> (d: RetryDecision)
    requires
        1 <= attempt <= max_retries,
    ensures
        d == retry_decision_spec(*c, attempt, max_retries),
{
    match c {
        ProbeClass::Connected(h) => RetryDecision::Accept(*h),
        ProbeClass::Fatal(code) => RetryDecision::Fail(ConnectError::Fatal(*code)),
        ProbeClass::Transient(cause) => if attempt >= max_retries {
            RetryDecision::Fail(ConnectError::ExhaustedRetries(*cause))
        } else {
            RetryDecision::RetryAfterDelay
        },
    }
}

/// The protocol from attempt number `attempt` on: how many attempts are
/// made in all, and the accepted height or the typed failure, when attempt
/// number `i` observes `probes[i - 1]`.
pub open spec fn connect_from(probes: Seq<ProbeResult>, attempt: nat, max_retries: nat) -> (
    nat,
    Result<u64, ConnectError>,
)
    decreases max_retries - attempt,
{
    match classify_spec(probes[attempt as int - 1]) {
        ProbeClass::Connected(h) => (attempt, Ok(h)),
        ProbeClass::Fatal(code) => (attempt, Err(ConnectError::Fatal(code))),
        ProbeClass::Transient(cause) => if attempt >= max_retries {
            (attempt, Err(ConnectError::ExhaustedRetries(cause)))
        } else {
            connect_from(probes, attempt + 1, max_retries)
        },
    }
}

/// The whole protocol: a malformed endpoint fails at once without a probe;
/// otherwise attempts run from 1 up to the budget.
pub open spec fn connect_spec(endpoint: Seq<u8>, probes: Seq<ProbeResult>, max_retries: nat) -> (
    nat,
    Result<u64, ConnectError>,
) {
    if !valid_endpoint_spec(endpoint) {
        (0nat, Err(ConnectError::InvalidEndpoint))
    } else {
        connect_from(probes, 1, max_retries)
    }
}

/// The observable outcome of the whole protocol: how many probes it made,
/// and the validated height or the typed failure.
#[derive(Clone, Copy, Debug, PartialEq, Eq)]
pub struct ConnectOutcome {
    pub attempts: u32,
    pub result: Result<u64, ConnectError>,
}

/// Run the connection protocol over a recorded sequence of probe outcomes,
/// where attempt number `i` observes `probes[i - 1]`.  A driver that probes
/// a live node instead runs `classify_probe` and `retry_decision` around
/// each probe; this function is that loop with the I/O replaced by the
/// recorded outcomes.
pub fn connect(endpoint: &[u8], max_retries: u32, probes: &Vec<ProbeResult>) -> (out:
    ConnectOutcome)
    requires
        max_retries >= 1,
        probes@.len() >= max_retries,
    ensures
        (out.attempts as nat, out.result) == connect_spec(
            endpoint@,
            probes@,
            max_retries as nat,
        ),
{
    if !valid_endpoint(endpoint) {
        return ConnectOutcome { attempts: 0, result: Err(ConnectError::InvalidEndpoint) };
    }
    let mut attempt: u32 = 1;
    loop
        invariant
            1 <= attempt <= max_retries,
            probes@.len() >= max_retries,
            valid_endpoint_spec(endpoint@),
            connect_from(probes@, 1, max_retries as nat) == connect_from(
                probes@,
                attempt as nat,
                max_retries as nat,
            ),
        decreases max_retries - attempt,
    {
        let c = classify_probe(&probes[(attempt - 1) as usize]);
        let d = retry_decision(&c, attempt, max_retries);
        match d {
            RetryDecision::Accept(h) => {
                return ConnectOutcome { attempts: attempt, result: Ok(h) };
            },
            RetryDecision::Fail(e) => {
                return ConnectOutcome { attempts: attempt, result: Err(e) };
            },
            RetryDecision::RetryAfterDelay => {
                attempt = attempt + 1;
            },
        }
    }
}

/// The exhaustion outcome, from any attempt number on, when every probe
/// times out.
proof fn lemma_exhaustion_from(probes: Seq<ProbeResult>, attempt: nat, max_retries: nat)
    requires
        1 <= attempt <= max_retries,
        probes.len() >= max_retries,
        forall|i: int| 0 <= i < probes.len() ==> probes[i] is Timeout,
    ensures
        connect_from(probes, attempt, max_retries) == (
            max_retries,
            Err::<u64, ConnectError>(ConnectError::ExhaustedRetries(FailCause::Timeout)),
        ),
    decreases max_retries - attempt,
{
    assert(probes[attempt as int - 1] is Timeout);
    if attempt < max_retries {
        lemma_exhaustion_from(probes, attempt + 1, max_retries);
    }
}

/// Law (retry exhaustion): with a valid endpoint and every probe timing
/// out, the protocol makes exactly `max_retries` attempts and then gives up
/// with the budget spent on timeouts.
pub proof fn lemma_retry_exhaustion(endpoint: Seq<u8>, probes: Seq<ProbeResult>, max_retries: nat)
    requires
        valid_endpoint_spec(endpoint),
        max_retries >= 1,
        probes.len() >= max_retries,
        forall|i: int| 0 <= i < probes.len() ==> probes[i] is Timeout,
    ensures
        connect_spec(endpoint, probes, max_retries) == (
            max_retries,
            Err::<u64, ConnectError>(ConnectError::ExhaustedRetries(FailCause::Timeout)),
        ),
{
    lemma_exhaustion_from(probes, 1, max_retries);
}

/// Law (fatal short-circuit): a first probe whose classification is fatal
/// ends the protocol after exactly one attempt, whatever the retry budget.
pub proof fn lemma_fatal_short_circuit(
    endpoint: Seq<u8>,
    probes: Seq<ProbeResult>,
    max_retries: nat,
    code: i32,
)
    requires
        valid_endpoint_spec(endpoint),
        max_retries >= 1,
        probes.len() >= max_retries,
        classify_spec(probes[0]) == ProbeClass::Fatal(code),
    ensures
        connect_spec(endpoint, probes, max_retries) == (
            1nat,
            Err::<u64, ConnectError>(ConnectError::Fatal(code)),
        ),
{
}

} // verus!
