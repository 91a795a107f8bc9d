//! The webhook side of the bridge: the payload handed to the dispatcher, and
//! the dispatcher's decisions. The dispatcher's owner performs the HTTPS
//! requests and the waits; this module decides whether a submission is
//! attempted or dropped, whether a failed attempt is retried and after how
//! long, and keeps the counters and the circuit breaker.

use vstd::prelude::*;
use vstd::arithmetic::power::lemma_pow0;
use crate::email_parser::{headers_view, opt_headers_view, opt_view, Header};
use crate::text::{chars_of, owned, same_chars};
use vstd::arithmetic::power2::{lemma_pow2, lemma_pow2_strictly_increases, lemma_pow2_unfold, pow2};

verus! {

/// The message that the webhook receives: absent optional fields are left out
/// of its JSON form.
#[derive(Debug, Clone)]
pub struct EmailPayload {
    /// The address of the MAIL FROM reverse-path.
    pub sender: String,
    /// The display name of the From header.
    pub sender_name: Option<String>,
    /// The accepted RCPT TO forward-path, as the client wrote it.
    pub recipient: String,
    /// The Subject, empty when there is none.
    pub subject: String,
    /// The text body.
    pub body: String,
    /// The HTML part, when the message has one.
    pub html_body: Option<String>,
    /// The captured headers, when any matched a configured prefix.
    pub headers: Option<Vec<(String, String)>>,
}

/// A value of the payload's JSON object: a string, or an object of strings.
#[derive(Debug, Clone, PartialEq, Eq)]
pub enum JsonValue {
    Text(String),
    Object(Vec<(String, String)>),
}

/// A JSON field: its name, its string value if it is a string, its members
/// if it is an object.
pub type FieldView = (Seq<char>, Option<Seq<char>>, Option<Seq<Header>>);

pub open spec fn field_view(f: (String, JsonValue)) -> FieldView {
    match f.1 {
        JsonValue::Text(t) => (f.0@, Some(t@), None),
        JsonValue::Object(m) => (f.0@, None, Some(headers_view(m@))),
    }
}

pub open spec fn fields_view(fs: Seq<(String, JsonValue)>) -> Seq<FieldView> {
    fs.map_values(|f: (String, JsonValue)| field_view(f))
}

pub open spec fn text_field(name: Seq<char>, t: Seq<char>) -> Seq<FieldView> {
    seq![(name, Some(t), None::<Seq<Header>>)]
}

pub open spec fn optional_text_field(name: Seq<char>, t: Option<Seq<char>>) -> Seq<FieldView> {
    match t {
        Some(v) => text_field(name, v),
        None => Seq::empty(),
    }
}

/// The fields of a payload's JSON object, in this order: `sender`,
/// `sender_name` when present, `recipient`, `subject`, `body`, `html_body`
/// when present, `headers` when present and not empty.
pub open spec fn json_fields(p: EmailPayload) -> Seq<FieldView> {
    text_field("sender"@, p.sender@) + optional_text_field("sender_name"@, opt_view(p.sender_name))
        + text_field("recipient"@, p.recipient@) + text_field("subject"@, p.subject@) + text_field(
        "body"@,
        p.body@,
    ) + optional_text_field("html_body"@, opt_view(p.html_body)) + match p.headers {
        Some(h) => if h@.len() > 0 {
            seq![("headers"@, None::<Seq<char>>, Some(headers_view(h@)))]
        } else {
            Seq::empty()
        },
        None => Seq::empty(),
    }
}

/// The string value of the first field named `name` at or after `i`.
pub open spec fn text_of_field(fs: Seq<FieldView>, name: Seq<char>, i: int) -> Option<Seq<char>>
    decreases fs.len() - i,
{
    if i < 0 || i >= fs.len() {
        None
    } else if fs[i].0 == name {
        fs[i].1
    } else {
        text_of_field(fs, name, i + 1)
    }
}

/// The object value of the first field named `name` at or after `i`.
pub open spec fn object_of_field(fs: Seq<FieldView>, name: Seq<char>, i: int) -> Option<
    Seq<Header>,
>
    decreases fs.len() - i,
{
    if i < 0 || i >= fs.len() {
        None
    } else if fs[i].0 == name {
        fs[i].2
    } else {
        object_of_field(fs, name, i + 1)
    }
}

/// The payload's fields as values: sender, sender name, recipient, subject,
/// body, HTML body, headers.
pub type PayloadView = (
    Seq<char>,
    Option<Seq<char>>,
    Seq<char>,
    Seq<char>,
    Seq<char>,
    Option<Seq<char>>,
    Option<Seq<Header>>,
);

pub open spec fn payload_view(p: EmailPayload) -> PayloadView {
    (
        p.sender@,
        opt_view(p.sender_name),
        p.recipient@,
        p.subject@,
        p.body@,
        opt_view(p.html_body),
        opt_headers_view(p.headers),
    )
}

/// The payload that a JSON object's fields describe: the four required
/// strings must be there; the optional fields are taken when present.
pub open spec fn payload_of_fields(fs: Seq<FieldView>) -> Option<PayloadView> {
    let sender = text_of_field(fs, "sender"@, 0);
    let recipient = text_of_field(fs, "recipient"@, 0);
    let subject = text_of_field(fs, "subject"@, 0);
    let body = text_of_field(fs, "body"@, 0);
    if sender is Some && recipient is Some && subject is Some && body is Some {
        Some(
            (
                sender->Some_0,
                text_of_field(fs, "sender_name"@, 0),
                recipient->Some_0,
                subject->Some_0,
                body->Some_0,
                text_of_field(fs, "html_body"@, 0),
                object_of_field(fs, "headers"@, 0),
            ),
        )
    } else {
        None
    }
}

impl EmailPayload {
    /// The fields of the payload's JSON object.
    pub fn to_json_fields(&self) -> (r: Vec<(String, JsonValue)>)
        ensures
            fields_view(r@) == json_fields(*self),
    {
        let mut r: Vec<(String, JsonValue)> = Vec::new();
        r.push((owned("sender"), JsonValue::Text(self.sender.clone())));
        match &self.sender_name {
            Some(n) => r.push((owned("sender_name"), JsonValue::Text(n.clone()))),
            None => {},
        }
        r.push((owned("recipient"), JsonValue::Text(self.recipient.clone())));
        r.push((owned("subject"), JsonValue::Text(self.subject.clone())));
        r.push((owned("body"), JsonValue::Text(self.body.clone())));
        match &self.html_body {
            Some(h) => r.push((owned("html_body"), JsonValue::Text(h.clone()))),
            None => {},
        }
        match &self.headers {
            Some(hs) => if hs.len() > 0 {
                r.push((owned("headers"), JsonValue::Object(copy_pairs(hs))));
            },
            None => {},
        }
        assert(fields_view(r@) =~= json_fields(*self));
        r
    }

    /// The payload that a JSON object's fields describe; none when one of
    /// `sender`, `recipient`, `subject` or `body` is missing or not a string.
    pub fn from_json_fields(fields: &Vec<(String, JsonValue)>) -> (r: Option<EmailPayload>)
        ensures
            match r {
                Some(p) => payload_of_fields(fields_view(fields@)) == Some(payload_view(p)),
                None => payload_of_fields(fields_view(fields@)) is None,
            },
    {
        let sender = find_text(fields, "sender");
        let recipient = find_text(fields, "recipient");
        let subject = find_text(fields, "subject");
        let body = find_text(fields, "body");
        match (sender, recipient, subject, body) {
            (Some(sender), Some(recipient), Some(subject), Some(body)) => Some(
                EmailPayload {
                    sender,
                    sender_name: find_text(fields, "sender_name"),
                    recipient,
                    subject,
                    body,
                    html_body: find_text(fields, "html_body"),
                    headers: find_object(fields, "headers"),
                },
            ),
            _ => None,
        }
    }
}

/// Reading back the JSON fields of a payload gives the same payload; an
/// empty header list is the one thing that does not come back, as it is left
/// out of the JSON like an absent one.
pub proof fn lemma_json_round_trip(p: EmailPayload)
    requires
        !(p.headers matches Some(h) && h@.len() == 0),
    ensures
        payload_of_fields(json_fields(p)) == Some(payload_view(p)),
{
    reveal_strlit("sender");
    reveal_strlit("sender_name");
    reveal_strlit("recipient");
    reveal_strlit("subject");
    reveal_strlit("body");
    reveal_strlit("html_body");
    reveal_strlit("headers");
    assert("sender"@.len() == 6 && "sender_name"@.len() == 11 && "recipient"@.len() == 9
        && "subject"@.len() == 7 && "body"@.len() == 4 && "html_body"@.len() == 9
        && "headers"@.len() == 7);
    assert("recipient"@[0] != "html_body"@[0]);
    assert("subject"@[0] != "headers"@[0]);
    assert("sender"@ != "recipient"@ && "sender"@ != "subject"@ && "sender"@ != "body"@
        && "sender"@ != "html_body"@ && "sender"@ != "headers"@);
    assert("sender_name"@ != "recipient"@ && "sender_name"@ != "subject"@ && "sender_name"@
        != "body"@ && "sender_name"@ != "html_body"@ && "sender_name"@ != "headers"@);
    assert("recipient"@ != "subject"@ && "recipient"@ != "body"@ && "recipient"@ != "html_body"@
        && "recipient"@ != "headers"@);
    assert("subject"@ != "body"@ && "subject"@ != "html_body"@ && "subject"@ != "headers"@);
    assert("body"@ != "html_body"@ && "body"@ != "headers"@);
    assert("html_body"@ != "headers"@);
    let fs = json_fields(p);
    reveal_with_fuel(text_of_field, 8);
    reveal_with_fuel(object_of_field, 8);
    assert(text_of_field(fs, "sender"@, 0) == Some(p.sender@));
    assert(text_of_field(fs, "recipient"@, 0) == Some(p.recipient@));
    assert(text_of_field(fs, "subject"@, 0) == Some(p.subject@));
    assert(text_of_field(fs, "body"@, 0) == Some(p.body@));
    assert(text_of_field(fs, "sender_name"@, 0) == opt_view(p.sender_name));
    assert(text_of_field(fs, "html_body"@, 0) == opt_view(p.html_body));
    assert(object_of_field(fs, "headers"@, 0) == opt_headers_view(p.headers));
}

/// The JSON object of a payload has exactly the fields `sender`,
/// `recipient`, `subject` and `body`, plus `sender_name` and `html_body`
/// when present and `headers` when present and not empty.
pub proof fn lemma_json_fields_present(p: EmailPayload)
    ensures
        forall|i: int|
            0 <= i < json_fields(p).len() ==> {
                let n = #[trigger] json_fields(p)[i].0;
                n == "sender"@ || n == "recipient"@ || n == "subject"@ || n == "body"@ || n
                    == "sender_name"@ || n == "html_body"@ || n == "headers"@
            },
        text_of_field(json_fields(p), "sender"@, 0) is Some,
        text_of_field(json_fields(p), "recipient"@, 0) is Some,
        text_of_field(json_fields(p), "subject"@, 0) is Some,
        text_of_field(json_fields(p), "body"@, 0) is Some,
        text_of_field(json_fields(p), "sender_name"@, 0) is Some <==> p.sender_name is Some,
        text_of_field(json_fields(p), "html_body"@, 0) is Some <==> p.html_body is Some,
        object_of_field(json_fields(p), "headers"@, 0) is Some <==> (p.headers matches Some(h)
            && h@.len() > 0),
{
    reveal_strlit("sender");
    reveal_strlit("sender_name");
    reveal_strlit("recipient");
    reveal_strlit("subject");
    reveal_strlit("body");
    reveal_strlit("html_body");
    reveal_strlit("headers");
    assert("sender"@.len() == 6 && "sender_name"@.len() == 11 && "recipient"@.len() == 9
        && "subject"@.len() == 7 && "body"@.len() == 4 && "html_body"@.len() == 9
        && "headers"@.len() == 7);
    assert("recipient"@[0] != "html_body"@[0]);
    assert("subject"@[0] != "headers"@[0]);
    let fs = json_fields(p);
    reveal_with_fuel(text_of_field, 8);
    reveal_with_fuel(object_of_field, 8);
    assert(text_of_field(fs, "sender"@, 0) == Some(p.sender@));
    assert(text_of_field(fs, "recipient"@, 0) == Some(p.recipient@));
    assert(text_of_field(fs, "subject"@, 0) == Some(p.subject@));
    assert(text_of_field(fs, "body"@, 0) == Some(p.body@));
    assert(text_of_field(fs, "sender_name"@, 0) == opt_view(p.sender_name));
    assert(text_of_field(fs, "html_body"@, 0) == opt_view(p.html_body));
    match p.headers {
        Some(h) => if h@.len() > 0 {
            assert(object_of_field(fs, "headers"@, 0) == Some(headers_view(h@)));
        } else {
            assert(object_of_field(fs, "headers"@, 0) is None);
        },
        None => {
            assert(object_of_field(fs, "headers"@, 0) is None);
        },
    }
}

fn copy_pairs(hs: &Vec<(String, String)>) -> (r: Vec<(String, String)>)
    ensures
        headers_view(r@) == headers_view(hs@),
{
    let mut r: Vec<(String, String)> = Vec::new();
    let mut i: usize = 0;
    while i < hs.len()
        invariant
            i <= hs@.len(),
            headers_view(r@) == headers_view(hs@).subrange(0, i as int),
        decreases hs@.len() - i,
    {
        let name = hs[i].0.clone();
        let value = hs[i].1.clone();
        assert(name@ == hs@[i as int].0@ && value@ == hs@[i as int].1@);
        let ghost before = headers_view(r@);
        r.push((name, value));
        assert(headers_view(r@) =~= before.push((name@, value@)));
        i += 1;
        assert(headers_view(r@) =~= headers_view(hs@).subrange(0, i as int));
    }
    assert(headers_view(hs@).subrange(0, hs@.len() as int) =~= headers_view(hs@));
    r
}

/// The string value of the first field named `name`.
fn find_text(fields: &Vec<(String, JsonValue)>, name: &str) -> (r: Option<String>)
    ensures
        opt_view(r) == text_of_field(fields_view(fields@), name@, 0),
{
    let mut i: usize = 0;
    while i < fields.len()
        invariant
            i <= fields@.len(),
            text_of_field(fields_view(fields@), name@, 0) == text_of_field(
                fields_view(fields@),
                name@,
                i as int,
            ),
        decreases fields@.len() - i,
    {
        assert(fields_view(fields@)[i as int] == field_view(fields@[i as int]));
        if same_chars(chars_of(fields[i].0.as_str()).as_slice(), chars_of(name).as_slice()) {
            return match &fields[i].1 {
                JsonValue::Text(t) => Some(t.clone()),
                JsonValue::Object(_) => None,
            };
        }
        i += 1;
    }
    None
}

/// The object value of the first field named `name`.
fn find_object(fields: &Vec<(String, JsonValue)>, name: &str) -> (r: Option<Vec<(String, String)>>)
    ensures
        opt_headers_view(r) == object_of_field(fields_view(fields@), name@, 0),
{
    let mut i: usize = 0;
    while i < fields.len()
        invariant
            i <= fields@.len(),
            object_of_field(fields_view(fields@), name@, 0) == object_of_field(
                fields_view(fields@),
                name@,
                i as int,
            ),
        decreases fields@.len() - i,
    {
        assert(fields_view(fields@)[i as int] == field_view(fields@[i as int]));
        if same_chars(chars_of(fields[i].0.as_str()).as_slice(), chars_of(name).as_slice()) {
            return match &fields[i].1 {
                JsonValue::Text(_) => None,
                JsonValue::Object(m) => Some(copy_pairs(m)),
            };
        }
        i += 1;
    }
    None
}

/// The counters and the circuit breaker of the dispatcher.
#[derive(Debug, PartialEq, Eq, Structural, Clone, Copy)]
pub struct DispatcherState {
    pub consecutive_failures: u32,
    pub circuit_open: bool,
    /// When the breaker last opened, in seconds on the owner's clock.
    pub circuit_opened_at: u64,
    pub total_forwarded: u64,
    pub total_failed: u64,
}

/// What becomes of a submission.
#[derive(Debug, PartialEq, Eq, Structural, Clone, Copy)]
pub enum Admission {
    /// Deliver it: make the first attempt.
    Attempt,
    /// The breaker is open: drop it, counted as failed, without any request.
    Drop,
}

/// What follows an attempt.
#[derive(Debug, PartialEq, Eq, Structural, Clone, Copy)]
pub enum AttemptOutcome {
    /// The webhook answered 2xx.
    Delivered,
    /// Wait this many milliseconds, then attempt again.
    RetryAfter(u64),
    /// No attempt is left: the delivery failed.
    Exhausted,
}

/// The wait before retry `n` (counting from 0): 100 ms times 2 to the `n`,
/// saturated at the largest `u64`.
pub open spec fn backoff(n: nat) -> nat {
    if 100 * pow2(n) <= u64::MAX {
        100 * pow2(n)
    } else {
        u64::MAX as nat
    }
}

/// The breaker is open and its reset period has not run out at `now`.
pub open spec fn shedding(st: DispatcherState, reset_secs: u64, now: u64) -> bool {
    st.circuit_open && (now < st.circuit_opened_at || now - st.circuit_opened_at < reset_secs)
}

/// The single owner of the delivery counters and the circuit breaker.
pub struct Dispatcher {
    max_retries: u32,
    threshold: u32,
    reset_secs: u64,
    state: DispatcherState,
    in_flight: u64,
    total_submitted: u64,
}

impl Dispatcher {
    pub closed spec fn counters(&self) -> DispatcherState {
        self.state
    }

    /// Submissions admitted whose delivery has not finished.
    pub closed spec fn pending(&self) -> nat {
        self.in_flight as nat
    }

    /// Submissions since the dispatcher was made.
    pub closed spec fn submitted(&self) -> nat {
        self.total_submitted as nat
    }

    pub closed spec fn retries(&self) -> u32 {
        self.max_retries
    }

    pub closed spec fn failure_threshold(&self) -> u32 {
        self.threshold
    }

    pub closed spec fn reset_period(&self) -> u64 {
        self.reset_secs
    }

    /// Every submission is delivered, failed, or in flight.
    pub closed spec fn wf(&self) -> bool {
        self.state.total_forwarded + self.state.total_failed + self.in_flight
            == self.total_submitted
    }

    /// A dispatcher with no submissions and a closed breaker. `max_retries`
    /// is the number of attempts after the first; the breaker opens after
    /// `threshold` consecutive failures and admits a probe `reset_secs` later.
    pub fn new(max_retries: u32, threshold: u32, reset_secs: u64) -> (r: Self)
        ensures
            r.wf(),
            r.counters() == (DispatcherState {
                consecutive_failures: 0,
                circuit_open: false,
                circuit_opened_at: 0,
                total_forwarded: 0,
                total_failed: 0,
            }),
            r.pending() == 0,
            r.submitted() == 0,
            r.retries() == max_retries,
            r.failure_threshold() == threshold,
            r.reset_period() == reset_secs,
    {
        Dispatcher {
            max_retries,
            threshold,
            reset_secs,
            state: DispatcherState {
                consecutive_failures: 0,
                circuit_open: false,
                circuit_opened_at: 0,
                total_forwarded: 0,
                total_failed: 0,
            },
            in_flight: 0,
            total_submitted: 0,
        }
    }

    pub fn state(&self) -> (r: DispatcherState)
        ensures
            r == self.counters(),
    {
        self.state
    }

    /// The number of attempts after the first that a delivery may make.
    pub fn max_retries(&self) -> (r: u32)
        ensures
            r == self.retries(),
    {
        self.max_retries
    }

    pub fn in_flight(&self) -> (r: u64)
        ensures
            r == self.pending(),
    {
        self.in_flight
    }

    pub fn total_submitted(&self) -> (r: u64)
        ensures
            r == self.submitted(),
    {
        self.total_submitted
    }

    /// No delivery is in flight: a shutdown may finish.
    pub fn is_drained(&self) -> (r: bool)
        ensures
            r == (self.pending() == 0),
    {
        self.in_flight == 0
    }

    /// A payload is submitted at `now` (seconds). While the breaker is open
    /// and its reset period runs, the payload is dropped and counted as
    /// failed. Otherwise it is admitted; the first admission after the reset
    /// period is the probe, which closes the breaker and clears the failure run.
    pub fn submit(&mut self, now: u64) -> (r: Admission)
        requires
            old(self).wf(),
            old(self).submitted() < u64::MAX,
        ensures
            final(self).wf(),
            final(self).submitted() == old(self).submitted() + 1,
            final(self).retries() == old(self).retries(),
            final(self).failure_threshold() == old(self).failure_threshold(),
            final(self).reset_period() == old(self).reset_period(),
            shedding(old(self).counters(), old(self).reset_period(), now) ==> {
                &&& r == Admission::Drop
                &&& final(self).counters() == (DispatcherState {
                    total_failed: (old(self).counters().total_failed + 1) as u64,
                    ..old(self).counters()
                })
                &&& final(self).pending() == old(self).pending()
            },
            !shedding(old(self).counters(), old(self).reset_period(), now) ==> {
                &&& r == Admission::Attempt
                &&& final(self).pending() == old(self).pending() + 1
                &&& final(self).counters() == (if old(self).counters().circuit_open {
                    DispatcherState {
                        circuit_open: false,
                        consecutive_failures: 0,
                        ..old(self).counters()
                    }
                } else {
                    old(self).counters()
                })
            },
    {
        self.total_submitted = self.total_submitted + 1;
        let st = self.state;
        if st.circuit_open && (now < st.circuit_opened_at || now - st.circuit_opened_at
            < self.reset_secs) {
            self.state.total_failed = st.total_failed + 1;
            Admission::Drop
        } else {
            if st.circuit_open {
                self.state.circuit_open = false;
                self.state.consecutive_failures = 0;
            }
            self.in_flight = self.in_flight + 1;
            Admission::Attempt
        }
    }

    /// An admitted delivery finished at `now`. A success clears the failure
    /// run; a failure lengthens it and opens the breaker when it reaches the
    /// threshold.
    pub fn finish(&mut self, success: bool, now: u64)
        requires
            old(self).wf(),
            old(self).pending() > 0,
        ensures
            final(self).wf(),
            final(self).submitted() == old(self).submitted(),
            final(self).pending() == old(self).pending() - 1,
            final(self).retries() == old(self).retries(),
            final(self).failure_threshold() == old(self).failure_threshold(),
            final(self).reset_period() == old(self).reset_period(),
            success ==> final(self).counters() == (DispatcherState {
                consecutive_failures: 0,
                total_forwarded: (old(self).counters().total_forwarded + 1) as u64,
                ..old(self).counters()
            }),
            !success ==> {
                let failures = if old(self).counters().consecutive_failures < u32::MAX {
                    (old(self).counters().consecutive_failures + 1) as u32
                } else {
                    u32::MAX
                };
                let opens = failures >= old(self).failure_threshold()
                    && !old(self).counters().circuit_open;
                final(self).counters() == (DispatcherState {
                    consecutive_failures: failures,
                    total_failed: (old(self).counters().total_failed + 1) as u64,
                    circuit_open: old(self).counters().circuit_open || opens,
                    circuit_opened_at: if opens {
                        now
                    } else {
                        old(self).counters().circuit_opened_at
                    },
                    ..old(self).counters()
                })
            },
    {
        self.in_flight = self.in_flight - 1;
        if success {
            self.state.consecutive_failures = 0;
            self.state.total_forwarded = self.state.total_forwarded + 1;
        } else {
            let failures = if self.state.consecutive_failures < u32::MAX {
                self.state.consecutive_failures + 1
            } else {
                u32::MAX
            };
            self.state.consecutive_failures = failures;
            self.state.total_failed = self.state.total_failed + 1;
            if failures >= self.threshold && !self.state.circuit_open {
                self.state.circuit_open = true;
                self.state.circuit_opened_at = now;
            }
        }
    }
}

/// What follows attempt `attempt` (counting from 0) of a delivery that may
/// be retried `max_retries` times: done on success; otherwise a retry while
/// retries are left, after the backoff of that retry; otherwise the delivery
/// has failed. A delivery thus makes at most `1 + max_retries` attempts.
pub fn after_attempt(max_retries: u32, attempt: u32, success: bool) -> (r: AttemptOutcome)
    ensures
        success ==> r == AttemptOutcome::Delivered,
        !success && attempt < max_retries ==> r == AttemptOutcome::RetryAfter(
            backoff(attempt as nat) as u64,
        ),
        !success && attempt >= max_retries ==> r == AttemptOutcome::Exhausted,
{
    if success {
        AttemptOutcome::Delivered
    } else if attempt < max_retries {
        AttemptOutcome::RetryAfter(backoff_ms(attempt))
    } else {
        AttemptOutcome::Exhausted
    }
}

/// The wait before retry `n` (counting from 0), in milliseconds.
pub fn backoff_ms(n: u32) -> (r: u64)
    ensures
        r == backoff(n as nat),
{
    let mut d: u64 = 100;
    let mut i: u32 = 0;
    proof {
        lemma_pow2(0);
        lemma_pow0(2);
    }
    while i < n && d < u64::MAX
        invariant
            i <= n,
            d == backoff(i as nat),
        decreases n - i,
    {
        proof {
            lemma_pow2_unfold((i + 1) as nat);
        }
        if d > u64::MAX / 2 {
            d = u64::MAX;
        } else {
            d = d * 2;
        }
        i = i + 1;
    }
    proof {
        if i < n {
            lemma_pow2_strictly_increases(i as nat, n as nat);
        }
    }
    d
}

/// Every submission is accounted for: those delivered and those failed make
/// up all submissions but the ones in flight, and all of them once drained.
pub proof fn lemma_submissions_accounted(d: Dispatcher)
    requires
        d.wf(),
    ensures
        d.counters().total_forwarded + d.counters().total_failed == d.submitted() - d.pending(),
        d.pending() == 0 ==> d.counters().total_forwarded + d.counters().total_failed
            == d.submitted(),
{
}

} // verus!
