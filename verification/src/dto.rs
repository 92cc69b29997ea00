//! Response envelopes returned to clients: the health report, the error
//! envelope of the rejection paths, and the success envelope wrapped around
//! a forwarded upstream response.
use vstd::prelude::*;

verus! {

/// Declares serde_json's JSON document type so that it can be carried
/// opaquely inside the success envelope.
#[verifier::external_type_specification]
#[verifier::external_body]
pub struct ExValue(serde_json::Value);

/// Health of the service as reported by the health endpoint; rendered in
/// snake_case.
#[derive(Clone, Copy, Debug, PartialEq, Eq, Structural)]
pub enum HealthStatus {
    Undefined,
    Healthy,
    Failed,
}

impl HealthStatus {
    pub open spec fn spec_name(self) -> Seq<char> {
        match self {
            HealthStatus::Undefined => "undefined"@,
            HealthStatus::Healthy => "healthy"@,
            HealthStatus::Failed => "failed"@,
        }
    }

    pub fn name(&self) -> (r: String)
        ensures
            r@ == self.spec_name(),
    {
        match self {
            HealthStatus::Undefined => "undefined".to_owned(),
            HealthStatus::Healthy => "healthy".to_owned(),
            HealthStatus::Failed => "failed".to_owned(),
        }
    }
}

/// The error kinds a rejected or failed request surfaces; rendered in
/// snake_case.
#[derive(Clone, Copy, Debug, PartialEq, Eq, Structural)]
pub enum HttpError {
    Undefined,
    GlobalRateLimitExceeded,
    NoBackendAvailable,
    BackendRateLimitExceeded,
}

impl HttpError {
    pub open spec fn spec_name(self) -> Seq<char> {
        match self {
            HttpError::Undefined => "undefined"@,
            HttpError::GlobalRateLimitExceeded => "global_rate_limit_exceeded"@,
            HttpError::NoBackendAvailable => "no_backend_available"@,
            HttpError::BackendRateLimitExceeded => "backend_rate_limit_exceeded"@,
        }
    }

    pub fn name(&self) -> (r: String)
        ensures
            r@ == self.spec_name(),
    {
        match self {
            HttpError::Undefined => "undefined".to_owned(),
            HttpError::GlobalRateLimitExceeded => "global_rate_limit_exceeded".to_owned(),
            HttpError::NoBackendAvailable => "no_backend_available".to_owned(),
            HttpError::BackendRateLimitExceeded => "backend_rate_limit_exceeded".to_owned(),
        }
    }
}

/// Body of the health endpoint: service status, current fleet size, and the
/// rendered strategy name.
#[derive(Clone, Debug)]
pub struct HealthCheckResponse {
    pub status: HealthStatus,
    pub backends_count: usize,
    pub strategy: String,
}

impl HealthCheckResponse {
    pub fn new(status: HealthStatus, backends_count: usize, strategy: String) -> (r:
        HealthCheckResponse)
        ensures
            r.status == status,
            r.backends_count == backends_count,
            r.strategy == strategy,
    {
        HealthCheckResponse { status, backends_count, strategy }
    }
}

/// The error envelope of every 4xx/5xx answer from the pipeline.
#[derive(Clone, Debug)]
pub struct ErrorResponse {
    pub error: HttpError,
    pub status: u16,
    pub message: String,
}

impl ErrorResponse {
    pub fn new(error: HttpError, status_code: u16, msg: &str) -> (r: ErrorResponse)
        ensures
            r.error == error,
            r.status == status_code,
            r.message@ == msg@,
    {
        ErrorResponse { error, status: status_code, message: msg.to_owned() }
    }
}

/// What a forwarded upstream body becomes inside the success envelope: the
/// parsed document when the body is valid JSON, the raw text otherwise.
#[derive(Debug)]
pub enum ForwardData {
    Json(serde_json::Value),
    Text(String),
}

/// The success envelope of a forwarded request: the upstream status, the
/// wrapped body, and the backend URL (empty unless debug is on).
#[derive(Debug)]
pub struct SuccessResponse {
    pub status: u16,
    pub data: ForwardData,
    pub url: String,
}

impl SuccessResponse {
    pub fn new(status: u16, data: ForwardData, url: &str) -> (r: SuccessResponse)
        ensures
            r.status == status,
            r.data == data,
            r.url@ == url@,
    {
        SuccessResponse { status, data, url: url.to_owned() }
    }
}

} // verus!

verus! {

/// The decimal digit character for one digit value.
pub open spec fn spec_digit_char(d: int) -> char {
    if d == 0 {
        '0'
    } else if d == 1 {
        '1'
    } else if d == 2 {
        '2'
    } else if d == 3 {
        '3'
    } else if d == 4 {
        '4'
    } else if d == 5 {
        '5'
    } else if d == 6 {
        '6'
    } else if d == 7 {
        '7'
    } else if d == 8 {
        '8'
    } else {
        '9'
    }
}

/// The decimal rendering of a non-negative number, most significant digit
/// first.
pub open spec fn spec_digits(n: int) -> Seq<char>
    decreases n,
{
    if n < 10 {
        seq![spec_digit_char(n)]
    } else {
        spec_digits(n / 10) + seq![spec_digit_char(n % 10)]
    }
}

fn digit_str(d: u64) -> (r: &'static str)
    requires
        d < 10,
    ensures
        r@ == seq![spec_digit_char(d as int)],
{
    proof {
        reveal_strlit("0");
        reveal_strlit("1");
        reveal_strlit("2");
        reveal_strlit("3");
        reveal_strlit("4");
        reveal_strlit("5");
        reveal_strlit("6");
        reveal_strlit("7");
        reveal_strlit("8");
        reveal_strlit("9");
    }
    let r: &'static str = match d {
        0 => "0",
        1 => "1",
        2 => "2",
        3 => "3",
        4 => "4",
        5 => "5",
        6 => "6",
        7 => "7",
        8 => "8",
        _ => "9",
    };
    proof {
        assert(r@ =~= seq![spec_digit_char(d as int)]);
    }
    r
}

fn u64_to_string(n: u64) -> (r: String)
    ensures
        r@ == spec_digits(n as int),
    decreases n,
{
    if n < 10 {
        digit_str(n).to_owned()
    } else {
        let mut s = u64_to_string(n / 10);
        s.append(digit_str(n % 10));
        s
    }
}

impl HealthCheckResponse {
    /// The exact JSON rendering of the health report.
    pub open spec fn spec_json(self) -> Seq<char> {
        "{\"status\":\""@ + self.status.spec_name() + "\",\"backends_count\":"@ + spec_digits(
            self.backends_count as int,
        ) + ",\"strategy\":\""@ + self.strategy@ + "\"}"@
    }

    pub fn to_json(&self) -> (r: String)
        ensures
            r@ == self.spec_json(),
    {
        let mut out: String = "{\"status\":\"".to_owned();
        let status_name = self.status.name();
        out.append(status_name.as_str());
        out.append("\",\"backends_count\":");
        let count = u64_to_string(self.backends_count as u64);
        out.append(count.as_str());
        out.append(",\"strategy\":\"");
        out.append(self.strategy.as_str());
        out.append("\"}");
        proof {
            assert(out@ =~= self.spec_json());
        }
        out
    }
}

/// Re-parse a health report from its JSON rendering. The parse is exact
/// both ways: a parse that succeeds renders back to the very input, and a
/// parse of any string that some health report (with its quote-free
/// strategy name) renders to succeeds — so parsing inverts `to_json`.
#[verifier::rlimit(100)]
#[verifier::spinoff_prover]
pub fn parse_health_json(s: &str) -> (r: Option<HealthCheckResponse>)
    ensures
        r matches Some(h) ==> s@ == h.spec_json(),
        renders_health(s@) ==> r is Some,
{
    let n: usize = s.unicode_len();
    if n < 12 {
        proof {
            assert(!renders_health(s@)) by {
                if renders_health(s@) {
                    let h = choose|h: HealthCheckResponse|
                        s@ == h.spec_json() && quote_free(h.strategy@);
                    lemma_render_shape(h, s@);
                }
            }
        }
        return None;
    }
    // the status value sits after the opening `{"status":"`
    let mut k: usize = 11;
    while k < n && s.get_char(k) as u32 != 34
        invariant
            n == s@.len(),
            11 <= k <= n,
            forall|j: int| 11 <= j < k ==> ((#[trigger] s@[j]) as int) != 34,
        decreases n - k,
    {
        k = k + 1;
    }
    if k >= n {
        proof {
            assert(!renders_health(s@)) by {
                if renders_health(s@) {
                    let h = choose|h: HealthCheckResponse|
                        s@ == h.spec_json() && quote_free(h.strategy@);
                    lemma_render_shape(h, s@);
                    assert((s@[11 + h.status.spec_name().len() as int] as int) != 34);
                }
            }
        }
        return None;
    }
    proof {
        // on a rendered report the scan stopped exactly at the quote that
        // closes the status name
        assert forall|h: HealthCheckResponse|
            s@ == #[trigger] h.spec_json() && quote_free(h.strategy@) implies k as int == 11
            + h.status.spec_name().len() by {
            lemma_render_shape(h, s@);
            let nl = h.status.spec_name().len() as int;
            if (k as int) < 11 + nl {
                assert(s@[k as int] == h.status.spec_name()[k - 11]);
            } else if (k as int) > 11 + nl {
                assert((s@[11 + nl] as int) != 34);
            }
        }
    }
    let status_name: String = s.substring_char(11, k).to_owned();
    let status = if status_name == "healthy".to_owned() {
        HealthStatus::Healthy
    } else if status_name == "failed".to_owned() {
        HealthStatus::Failed
    } else if status_name == "undefined".to_owned() {
        HealthStatus::Undefined
    } else {
        proof {
            reveal_strlit("healthy");
            reveal_strlit("failed");
            reveal_strlit("undefined");
            assert(!renders_health(s@)) by {
                if renders_health(s@) {
                    let h = choose|h: HealthCheckResponse|
                        s@ == h.spec_json() && quote_free(h.strategy@);
                    lemma_render_shape(h, s@);
                    assert(status_name@ =~= h.status.spec_name());
                }
            }
        }
        return None;
    };
    proof {
        reveal_strlit("healthy");
        reveal_strlit("failed");
        reveal_strlit("undefined");
        assert(status == HealthStatus::Healthy ==> status_name@ == "healthy"@);
        assert(status == HealthStatus::Failed ==> status_name@ == "failed"@);
        assert(status == HealthStatus::Undefined ==> status_name@ == "undefined"@);
    }
    // the count sits after `","backends_count":`
    if n - k <= 19 {
        proof {
            assert(!renders_health(s@)) by {
                if renders_health(s@) {
                    let h = choose|h: HealthCheckResponse|
                        s@ == h.spec_json() && quote_free(h.strategy@);
                    lemma_render_shape(h, s@);
                }
            }
        }
        return None;
    }
    let mut m: usize = k + 19;
    let mut value: u64 = 0;
    let mut digits: usize = 0;
    while m < n && 48 <= s.get_char(m) as u32 && s.get_char(m) as u32 <= 57
        invariant
            n == s@.len(),
            11 <= k,
            k + 19 <= m <= n,
            digits == m - (k + 19),
            forall|j: int| k + 19 <= j < m ==> 48 <= ((#[trigger] s@[j]) as int) <= 57,
            value as int == spec_digits_value(s@.subrange(k as int + 19, m as int)),
            forall|h: HealthCheckResponse|
                s@ == #[trigger] h.spec_json() && quote_free(h.strategy@) ==> k as int == 11
                    + h.status.spec_name().len(),
        decreases n - m,
    {
        let d: u64 = (s.get_char(m) as u32 as u64) - 48;
        if value > (u64::MAX - d) / 10 {
            proof {
                assert(!renders_health(s@)) by {
                    if renders_health(s@) {
                        let h = choose|h: HealthCheckResponse|
                            s@ == h.spec_json() && quote_free(h.strategy@);
                        lemma_render_shape(h, s@);
                        let count = h.backends_count as int;
                        let digs = spec_digits(count);
                        let base = 30 + h.status.spec_name().len() as int;
                        assert(m < base + digs.len()) by {
                            if m as int >= base + digs.len() {
                                assert((s@[base + digs.len()] as int) == 44);
                                assert(48 <= (s@[base + digs.len()] as int) <= 57);
                            }
                        }
                        assert(s@.subrange(base, m as int) =~= digs.take(m - base));
                        assert(digs.take(m - base + 1) =~= digs.take(m - base).push(
                            digs[m - base],
                        ));
                        lemma_digits_value_push(digs.take(m - base), digs[m - base]);
                        lemma_digits_prefix_le(count, m - base + 1);
                        assert(s@[m as int] == digs[m - base]);
                        assert(value as int * 10 + d as int == spec_digits_value(
                            digs.take(m - base + 1),
                        ));
                        assert(value as int * 10 + d as int <= count);
                        vstd::arithmetic::div_mod::lemma_fundamental_div_mod(
                            u64::MAX - d as int,
                            10,
                        );
                        vstd::arithmetic::div_mod::lemma_mod_bound(u64::MAX - d as int, 10);
                        assert(false);
                    }
                }
            }
            return None;
        }
        value = value * 10 + d;
        digits = digits + 1;
        proof {
            assert(s@.subrange(k as int + 19, m as int + 1) =~= s@.subrange(
                k as int + 19,
                m as int,
            ).push(s@[m as int]));
            lemma_digits_value_push(s@.subrange(k as int + 19, m as int), s@[m as int]);
        }
        m = m + 1;
    }
    proof {
        // on a rendered report the scan consumed exactly the digit run and
        // read back the backend count
        assert forall|h: HealthCheckResponse|
            s@ == #[trigger] h.spec_json() && quote_free(h.strategy@) implies (m as int == 30
            + h.status.spec_name().len() + spec_digits(h.backends_count as int).len()
            && value as int == h.backends_count as int) by {
            lemma_render_shape(h, s@);
            let count = h.backends_count as int;
            let digs = spec_digits(count);
            let base = 30 + h.status.spec_name().len() as int;
            assert(m as int <= base + digs.len()) by {
                if m as int > base + digs.len() {
                    assert((s@[base + digs.len()] as int) == 44);
                    assert(48 <= (s@[base + digs.len()] as int) <= 57);
                }
            }
            assert(m as int >= base + digs.len()) by {
                if (m as int) < base + digs.len() {
                    assert(s@[m as int] == digs[m - base]);
                    assert(48 <= (s@[m as int] as int) <= 57);
                }
            }
            assert(s@.subrange(base, m as int) =~= digs);
            lemma_digits_value_inverse(count);
        }
    }
    if digits == 0 {
        proof {
            assert(!renders_health(s@)) by {
                if renders_health(s@) {
                    let h = choose|h: HealthCheckResponse|
                        s@ == h.spec_json() && quote_free(h.strategy@);
                    lemma_render_shape(h, s@);
                }
            }
        }
        return None;
    }
    if value > usize::MAX as u64 {
        proof {
            assert(!renders_health(s@)) by {
                if renders_health(s@) {
                    let h = choose|h: HealthCheckResponse|
                        s@ == h.spec_json() && quote_free(h.strategy@);
                    lemma_render_shape(h, s@);
                }
            }
        }
        return None;
    }
    let backends_count: usize = value as usize;
    // the strategy value sits after `,"strategy":"` and runs to the next
    // quote
    if n - m <= 13 {
        proof {
            assert(!renders_health(s@)) by {
                if renders_health(s@) {
                    let h = choose|h: HealthCheckResponse|
                        s@ == h.spec_json() && quote_free(h.strategy@);
                    lemma_render_shape(h, s@);
                }
            }
        }
        return None;
    }
    let start: usize = m + 13;
    let mut e: usize = start;
    while e < n && s.get_char(e) as u32 != 34
        invariant
            n == s@.len(),
            start <= e <= n,
            forall|j: int| start <= j < e ==> ((#[trigger] s@[j]) as int) != 34,
        decreases n - e,
    {
        e = e + 1;
    }
    if e >= n {
        proof {
            assert(!renders_health(s@)) by {
                if renders_health(s@) {
                    let h = choose|h: HealthCheckResponse|
                        s@ == h.spec_json() && quote_free(h.strategy@);
                    lemma_render_shape(h, s@);
                    let sb = 43 + h.status.spec_name().len() as int + spec_digits(
                        h.backends_count as int,
                    ).len() as int;
                    assert((s@[sb + h.strategy@.len()] as int) == 34);
                    assert(forall|j: int|
                        0 <= j < h.strategy@.len() ==> ((#[trigger] h.strategy@[j]) as int) != 34);
                }
            }
        }
        return None;
    }
    let strategy: String = s.substring_char(start, e).to_owned();
    let candidate = HealthCheckResponse { status, backends_count, strategy };
    // exactness: accept the candidate only if it renders back to the input
    let rendered = candidate.to_json();
    if rendered == s.to_owned() {
        Some(candidate)
    } else {
        proof {
            reveal_strlit("healthy");
            reveal_strlit("failed");
            reveal_strlit("undefined");
            assert(!renders_health(s@)) by {
                if renders_health(s@) {
                    let h = choose|h: HealthCheckResponse|
                        s@ == h.spec_json() && quote_free(h.strategy@);
                    lemma_render_shape(h, s@);
                    let nl = h.status.spec_name().len() as int;
                    let count = h.backends_count as int;
                    let digs = spec_digits(count);
                    let sb = 43 + nl + digs.len() as int;
                    let sl = h.strategy@.len() as int;
                    // the strategy scan stopped exactly at the closing quote
                    assert(e as int == sb + sl) by {
                        if (e as int) < sb + sl {
                            assert(s@[e as int] == h.strategy@[e - sb]);
                            assert(((h.strategy@[e - sb]) as int) != 34);
                        } else if (e as int) > sb + sl {
                            assert((s@[sb + sl] as int) == 34);
                        }
                    }
                    // so every field of the candidate matches the report
                    assert(candidate.strategy@ =~= h.strategy@);
                    assert(status_name@ =~= h.status.spec_name());
                    assert(candidate.status == h.status);
                    assert(candidate.backends_count == h.backends_count);
                    assert(candidate.spec_json() == h.spec_json());
                    assert(rendered@ == s@);
                }
            }
        }
        None
    }
}

} // verus!

verus! {

proof fn lemma_digits_len(n: int)
    requires
        n >= 0,
    ensures
        spec_digits(n).len() >= 1,
        n < 10 <==> spec_digits(n).len() == 1,
    decreases n,
{
    if n >= 10 {
        lemma_digits_len(n / 10);
    }
}

proof fn lemma_digits_are_digits(n: int, i: int)
    requires
        n >= 0,
        0 <= i < spec_digits(n).len(),
    ensures
        48 <= spec_digits(n)[i] as int <= 57,
    decreases n,
{
    if n >= 10 {
        if i < spec_digits(n / 10).len() {
            lemma_digits_are_digits(n / 10, i);
        }
    }
}

proof fn lemma_digit_char_code(x: int)
    requires
        0 <= x < 10,
    ensures
        spec_digit_char(x) as int == 48 + x,
{
}

proof fn lemma_digits_injective(a: int, b: int)
    requires
        a >= 0,
        b >= 0,
        spec_digits(a) == spec_digits(b),
    ensures
        a == b,
    decreases a,
{
    lemma_digits_len(a);
    lemma_digits_len(b);
    assert(spec_digits(a).len() == spec_digits(b).len());
    if a < 10 && b < 10 {
        assert(spec_digits(a) =~= seq![spec_digit_char(a)]);
        assert(spec_digits(b) =~= seq![spec_digit_char(b)]);
        assert(seq![spec_digit_char(a)][0] == spec_digit_char(a));
        assert(seq![spec_digit_char(b)][0] == spec_digit_char(b));
        assert(spec_digit_char(a) == spec_digit_char(b));
        lemma_digit_char_code(a);
        lemma_digit_char_code(b);
    } else if a >= 10 && b >= 10 {
        assert(spec_digits(a).drop_last() =~= spec_digits(a / 10));
        assert(spec_digits(b).drop_last() =~= spec_digits(b / 10));
        lemma_digits_injective(a / 10, b / 10);
        assert(spec_digits(a).last() == spec_digit_char(a % 10));
        assert(spec_digits(b).last() == spec_digit_char(b % 10));
        assert(spec_digits(a).last() == spec_digits(b).last());
        assert(spec_digit_char(a % 10) == spec_digit_char(b % 10));
        lemma_digit_char_code(a % 10);
        lemma_digit_char_code(b % 10);
        assert(a % 10 == b % 10);
        vstd::arithmetic::div_mod::lemma_fundamental_div_mod(a, 10);
        vstd::arithmetic::div_mod::lemma_fundamental_div_mod(b, 10);
    }
}

/// No character of the text is a double quote.
pub open spec fn quote_free(s: Seq<char>) -> bool {
    forall|i: int| 0 <= i < s.len() ==> ((#[trigger] s[i]) as int) != 34
}

/// Some health report whose strategy text carries no double quote renders
/// to `s`. (The strategy field only ever holds a strategy name, which is
/// quote-free.)
pub open spec fn renders_health(s: Seq<char>) -> bool {
    exists|h: HealthCheckResponse| s == h.spec_json() && quote_free(h.strategy@)
}

proof fn lemma_status_name_chars(st: HealthStatus)
    ensures
        6 <= st.spec_name().len() <= 9,
        forall|j: int|
            0 <= j < st.spec_name().len() ==> ((#[trigger] st.spec_name()[j]) as int) != 34,
{
    reveal_strlit("undefined");
    reveal_strlit("healthy");
    reveal_strlit("failed");
    assert forall|j: int|
        0 <= j < st.spec_name().len() implies ((#[trigger] st.spec_name()[j]) as int) != 34 by {
        if j == 0 {
        } else if j == 1 {
        } else if j == 2 {
        } else if j == 3 {
        } else if j == 4 {
        } else if j == 5 {
        } else if j == 6 {
        } else if j == 7 {
        } else {
        }
    }
}

/// The number a run of decimal digit characters denotes, most significant
/// digit first.
pub open spec fn spec_digits_value(s: Seq<char>) -> int
    decreases s.len(),
{
    if s.len() == 0 {
        0
    } else {
        spec_digits_value(s.drop_last()) * 10 + (s.last() as int - 48)
    }
}

proof fn lemma_digits_value_push(p: Seq<char>, c: char)
    ensures
        spec_digits_value(p.push(c)) == spec_digits_value(p) * 10 + (c as int - 48),
{
    assert(p.push(c).drop_last() =~= p);
    assert(p.push(c).last() == c);
}

/// Reading the decimal rendering of a number back gives the number.
proof fn lemma_digits_value_inverse(n: int)
    requires
        n >= 0,
    ensures
        spec_digits_value(spec_digits(n)) == n,
    decreases n,
{
    lemma_digits_len(n);
    assert(spec_digits_value(spec_digits(n)) == spec_digits_value(spec_digits(n).drop_last()) * 10
        + (spec_digits(n).last() as int - 48));
    if n < 10 {
        assert(spec_digits(n) =~= seq![spec_digit_char(n)]);
        assert(seq![spec_digit_char(n)].drop_last() =~= Seq::<char>::empty());
        assert(seq![spec_digit_char(n)].last() == spec_digit_char(n));
        assert(spec_digits_value(Seq::<char>::empty()) == 0);
        lemma_digit_char_code(n);
    } else {
        assert(spec_digits(n).drop_last() =~= spec_digits(n / 10));
        assert(spec_digits(n).last() == spec_digit_char(n % 10));
        lemma_digits_value_inverse(n / 10);
        lemma_digit_char_code(n % 10);
        vstd::arithmetic::div_mod::lemma_fundamental_div_mod(n, 10);
    }
}

proof fn lemma_digits_value_nonneg(n: int, l: int)
    requires
        n >= 0,
        0 <= l <= spec_digits(n).len(),
    ensures
        spec_digits_value(spec_digits(n).take(l)) >= 0,
    decreases l,
{
    if l > 0 {
        lemma_digits_value_nonneg(n, l - 1);
        assert(spec_digits(n).take(l) =~= spec_digits(n).take(l - 1).push(spec_digits(n)[l - 1]));
        lemma_digits_value_push(spec_digits(n).take(l - 1), spec_digits(n)[l - 1]);
        lemma_digits_are_digits(n, l - 1);
    } else {
        assert(spec_digits(n).take(0) =~= Seq::<char>::empty());
    }
}

/// Every prefix of a decimal rendering denotes at most the number itself.
proof fn lemma_digits_prefix_le(n: int, l: int)
    requires
        n >= 0,
        0 <= l <= spec_digits(n).len(),
    ensures
        spec_digits_value(spec_digits(n).take(l)) <= n,
    decreases spec_digits(n).len() - l,
{
    if l == spec_digits(n).len() {
        assert(spec_digits(n).take(l) =~= spec_digits(n));
        lemma_digits_value_inverse(n);
    } else {
        lemma_digits_prefix_le(n, l + 1);
        lemma_digits_value_nonneg(n, l);
        assert(spec_digits(n).take(l + 1) =~= spec_digits(n).take(l).push(spec_digits(n)[l]));
        lemma_digits_value_push(spec_digits(n).take(l), spec_digits(n)[l]);
        lemma_digits_are_digits(n, l);
    }
}

/// Where each piece of the health rendering stands: the status name after
/// the opening separator, the digit run after the count separator, the
/// strategy text before the closing two characters.
proof fn lemma_render_shape(h: HealthCheckResponse, s: Seq<char>)
    requires
        s == h.spec_json(),
    ensures
        s.len() == 45 + h.status.spec_name().len() + spec_digits(h.backends_count as int).len()
            + h.strategy@.len(),
        6 <= h.status.spec_name().len() <= 9,
        spec_digits(h.backends_count as int).len() >= 1,
        forall|j: int|
            0 <= j < h.status.spec_name().len() ==> s[11 + j] == (#[trigger] h.status.spec_name()[j]),
        forall|j: int|
            0 <= j < h.status.spec_name().len() ==> ((#[trigger] h.status.spec_name()[j]) as int)
                != 34,
        (s[11 + h.status.spec_name().len() as int] as int) == 34,
        forall|j: int|
            0 <= j < spec_digits(h.backends_count as int).len() ==> s[30
                + h.status.spec_name().len() + j] == (#[trigger] spec_digits(
                h.backends_count as int,
            )[j]),
        forall|j: int|
            0 <= j < spec_digits(h.backends_count as int).len() ==> 48 <= ((#[trigger] spec_digits(
                h.backends_count as int,
            )[j]) as int) <= 57,
        (s[30 + h.status.spec_name().len() as int + spec_digits(h.backends_count as int).len() as int]
            as int) == 44,
        forall|j: int|
            0 <= j < h.strategy@.len() ==> s[43 + h.status.spec_name().len() + spec_digits(
                h.backends_count as int,
            ).len() + j] == (#[trigger] h.strategy@[j]),
        (s[43 + h.status.spec_name().len() as int + spec_digits(h.backends_count as int).len() as int
            + h.strategy@.len() as int] as int) == 34,
{
    reveal_strlit("{\"status\":\"");
    reveal_strlit("\",\"backends_count\":");
    reveal_strlit(",\"strategy\":\"");
    reveal_strlit("\"}");
    lemma_status_name_chars(h.status);
    lemma_digits_len(h.backends_count as int);
    assert forall|j: int|
        0 <= j < spec_digits(h.backends_count as int).len() implies 48 <= ((#[trigger] spec_digits(
        h.backends_count as int,
    )[j]) as int) <= 57 by {
        lemma_digits_are_digits(h.backends_count as int, j);
    }
}

/// The JSON rendering of a health report pins the report down: two reports
/// with the same rendering agree on the status, the backend count, and the
/// strategy text. Together with the contract of `parse_health_json` — a
/// successful parse renders back to its input — any successful re-parse of
/// `to_json(h)` equals `h`.
pub proof fn lemma_health_json_injective(h1: HealthCheckResponse, h2: HealthCheckResponse)
    requires
        h1.spec_json() == h2.spec_json(),
    ensures
        h1.status == h2.status,
        h1.backends_count == h2.backends_count,
        h1.strategy@ == h2.strategy@,
{
    reveal_strlit("{\"status\":\"");
    reveal_strlit("\",\"backends_count\":");
    reveal_strlit(",\"strategy\":\"");
    reveal_strlit("\"}");
    reveal_strlit("undefined");
    reveal_strlit("healthy");
    reveal_strlit("failed");
    let s1 = h1.spec_json();
    let s2 = h2.spec_json();
    // the first character after the opening separator names the status
    assert(s1[11] == h1.status.spec_name()[0]);
    assert(s2[11] == h2.status.spec_name()[0]);
    assert(h1.status == h2.status);
    let name = h1.status.spec_name();
    let base = 11 + name.len() as int + 19;
    let d1 = spec_digits(h1.backends_count as int);
    let d2 = spec_digits(h2.backends_count as int);
    lemma_digits_len(h1.backends_count as int);
    lemma_digits_len(h2.backends_count as int);
    // the digit runs have the same length: the character right after each
    // run is the comma of the next separator, and no digit is a comma
    if d1.len() < d2.len() {
        assert(s1[base + d1.len()] == ",\"strategy\":\""@[0]);
        assert((",\"strategy\":\""@[0]) as int == 44);
        lemma_digits_are_digits(h2.backends_count as int, d1.len() as int);
        assert(s2[base + d1.len()] == d2[d1.len() as int]);
        assert(false);
    }
    if d2.len() < d1.len() {
        assert(s2[base + d2.len()] == ",\"strategy\":\""@[0]);
        assert((",\"strategy\":\""@[0]) as int == 44);
        lemma_digits_are_digits(h1.backends_count as int, d2.len() as int);
        assert(s1[base + d2.len()] == d1[d2.len() as int]);
        assert(false);
    }
    assert forall|j: int| 0 <= j < d1.len() implies d1[j] == d2[j] by {
        assert(s1[base + j] == d1[j]);
        assert(s2[base + j] == d2[j]);
    }
    assert(d1 =~= d2);
    lemma_digits_injective(h1.backends_count as int, h2.backends_count as int);
    // what remains after the equal prefixes is the strategy, closed by the
    // same two characters
    let sb = base + d1.len() as int + 13;
    assert(s1.len() == sb + h1.strategy@.len() + 2);
    assert(s2.len() == sb + h2.strategy@.len() + 2);
    assert forall|j: int| 0 <= j < h1.strategy@.len() implies h1.strategy@[j]
        == h2.strategy@[j] by {
        assert(s1[sb + j] == h1.strategy@[j]);
        assert(s2[sb + j] == h2.strategy@[j]);
    }
    assert(h1.strategy@ =~= h2.strategy@);
}

} // verus!
