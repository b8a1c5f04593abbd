//! Building and checking the semantic operation events of a suite.
use vstd::prelude::*;

use crate::error::Error;
use crate::text::{
    ascii_lower, ascii_lower_char, blank, chars_of, contains_text, contains_word, find_first, is_blank,
    is_first_occurrence, is_white_space, lemma_trim_is_inner_part, lowered, occurs_at, line_breaks_to_spaces, prefix, prefix_string,
    spaces_for_line_breaks, str_option_view, string_of, string_option_view, sub_chars, trim, trim_range, utf8_len, utf8_len_within,
};
use crate::types::{
    inserted, OperationImpact, OperationOutcome, OperationTarget, ParameterValue, Parameters,
};

verus! {

/// The request header through which the trusted proxy passes the operation
/// context.
pub const OPERATION_CONTEXT_HEADER: &'static str = "x-seclab-operation-context";

/// Longest operation context id, in UTF-8 bytes.
pub const MAX_CONTEXT_ID_BYTES: usize = 128;

/// Most characters of an event label.
pub const MAX_LABEL_CHARS: usize = 128;

/// Most parameters of an event.
pub const MAX_PARAMETERS: usize = 32;

/// Most characters kept of an error code.
pub const MAX_ERROR_CODE_CHARS: usize = 128;

/// Most characters kept of an error summary.
pub const MAX_ERROR_SUMMARY_CHARS: usize = 512;

// ---------------------------------------------------------------------------
// The UUID parser and generator of the `uuid` crate.
// ---------------------------------------------------------------------------

/// The 16 bytes of the UUID that `uuid::Uuid::parse_str` reads from `text`,
/// or nothing where it rejects `text`.
pub uninterp spec fn uuid_parse(text: Seq<char>) -> Option<Seq<u8>>;

/// The version number of a UUID given by its bytes
/// (`uuid::Uuid::get_version_num`): the high nibble of byte 6.
pub open spec fn uuid_version(bytes: Seq<u8>) -> int {
    (bytes[6] as int) / 16
}

/// The parsed bytes are those of a version 7 UUID.
pub open spec fn is_uuid_v7(parsed: Option<Seq<u8>>) -> bool {
    parsed matches Some(b) && b.len() == 16 && uuid_version(b) == 7
}

/// A lower-case hexadecimal digit.
pub open spec fn is_lower_hex(c: char) -> bool {
    ('0' <= c && c <= '9') || ('a' <= c && c <= 'f')
}

/// The hyphenated lower-case text of a UUID, as its `Display` form writes
/// it: 32 lower-case hexadecimal digits in groups of 8, 4, 4, 4 and 12,
/// separated by hyphens.
pub open spec fn is_hyphenated_uuid_text(s: Seq<char>) -> bool {
    &&& s.len() == 36
    &&& forall|i: int|
        0 <= i < 36 ==> if i == 8 || i == 13 || i == 18 || i == 23 {
            #[trigger] s[i] == '-'
        } else {
            is_lower_hex(s[i])
        }
}

/// The hyphenated text of a version 7 UUID: its version digit, the first
/// of the third group, is `7`.
pub open spec fn is_uuid_v7_text(s: Seq<char>) -> bool {
    is_hyphenated_uuid_text(s) && s[14] == '7'
}

/// The bytes held in an optional array.
pub open spec fn bytes_view(parsed: Option<[u8; 16]>) -> Option<Seq<u8>> {
    match parsed {
        Some(b) => Some(b@),
        None => None,
    }
}

/// Calls `uuid::Uuid::parse_str` and hands back the bytes of the UUID it
/// read. The contract claims only that the result is the named parse result
/// of `text`; which texts parse is left to the `uuid` crate.
#[verifier::external_body]
fn parse_uuid(text: &str) -> (r: Option<[u8; 16]>)
    ensures
        bytes_view(r) == uuid_parse(text@),
{
    match uuid::Uuid::parse_str(text) {
        Ok(id) => Some(*id.as_bytes()),
        Err(_) => None,
    }
}

/// Calls `uuid::Uuid::now_v7` and renders the UUID with `to_string`. The
/// value depends on the clock and on chance; the contract claims only what
/// holds of every outcome: `to_string` writes the hyphenated lower-case form,
/// whose version digit is the `7` that `now_v7` sets, and `parse_str` reads
/// that text back as a version 7 UUID.
#[verifier::external_body]
fn new_event_id() -> (r: String)
    ensures
        is_uuid_v7_text(r@),
        is_uuid_v7(uuid_parse(r@)),
{
    uuid::Uuid::now_v7().to_string()
}

// ---------------------------------------------------------------------------
// Operation context.
// ---------------------------------------------------------------------------

/// An acceptable operation context id: not blank, at most 128 UTF-8 bytes.
pub open spec fn is_context_id(c: Seq<char>) -> bool {
    !is_blank(c) && utf8_len(c) <= MAX_CONTEXT_ID_BYTES
}

/// The context id that a proxy header value carries: the value trimmed, where
/// that is not empty and at most 128 UTF-8 bytes long.
pub open spec fn context_from_header(value: Option<Seq<char>>) -> Option<Seq<char>> {
    match value {
        Some(v) => if trim(v).len() > 0 && utf8_len(trim(v)) <= MAX_CONTEXT_ID_BYTES {
            Some(trim(v))
        } else {
            None
        },
        None => None,
    }
}

/// Extracts the trusted operation context id from the value of the proxy
/// request header.
pub fn operation_context_from_header(value: Option<&str>) -> (r: Option<String>)
    ensures
        string_option_view(r) == context_from_header(str_option_view(value)),
        r matches Some(c) ==> value is Some && exists|x: int, y: int|
            #![trigger value.unwrap()@.subrange(x, y)]
            0 <= x < y <= value.unwrap()@.len() && c@ == value.unwrap()@.subrange(x, y) && (forall|
                k: int,
            | 0 <= k < x ==> is_white_space(#[trigger] value.unwrap()@[k])) && (forall|k: int|
                y <= k < value.unwrap()@.len() ==> is_white_space(#[trigger] value.unwrap()@[k]))
                && !is_white_space(value.unwrap()@[x]) && !is_white_space(value.unwrap()@[y - 1]),
{
    proof {
        match value {
            Some(v) => lemma_context_is_trimmed_header(v@, 0, 0),
            None => {},
        }
    }
    match value {
        None => None,
        Some(v) => {
            let chars = chars_of(v);
            let (i, j) = trim_range(&chars);
            let kept = sub_chars(&chars, i, j);
            if i < j && utf8_len_within(&kept, MAX_CONTEXT_ID_BYTES) {
                Some(string_of(&chars, i, j))
            } else {
                None
            }
        },
    }
}

// ---------------------------------------------------------------------------
// Event checks.
// ---------------------------------------------------------------------------

/// A lower snake case character: an ASCII lower-case letter, a digit or `_`.
pub open spec fn is_snake_char(c: char) -> bool {
    ('a' <= c && c <= 'z') || ('0' <= c && c <= '9') || c == '_'
}

/// A valid event code: 3 to 64 lower snake case characters, starting with a
/// letter.
pub open spec fn is_event_code(s: Seq<char>) -> bool {
    &&& 3 <= s.len() <= 64
    &&& 'a' <= s[0] && s[0] <= 'z'
    &&& forall|i: int| 0 <= i < s.len() ==> is_snake_char(#[trigger] s[i])
}

/// A valid event label: not blank, at most 128 characters.
pub open spec fn is_event_label(s: Seq<char>) -> bool {
    !is_blank(s) && s.len() <= MAX_LABEL_CHARS
}

/// A parameter key that names sensitive data: its ASCII lower-case form
/// contains one of the words below.
pub open spec fn is_sensitive_key(key: Seq<char>) -> bool {
    let k = ascii_lower(key);
    ||| contains_text(k, "password"@)
    ||| contains_text(k, "token"@)
    ||| contains_text(k, "authorization"@)
    ||| contains_text(k, "secret"@)
    ||| contains_text(k, "cookie"@)
    ||| contains_text(k, "command"@)
    ||| contains_text(k, "environment"@)
}

/// Whether a parameter key names sensitive data.
pub fn sensitive_key(key: &str) -> (r: bool)
    ensures
        r == is_sensitive_key(key@),
{
    let k = lowered(&chars_of(key));
    contains_word(&k, "password") || contains_word(&k, "token") || contains_word(
        &k,
        "authorization",
    ) || contains_word(&k, "secret") || contains_word(&k, "cookie") || contains_word(
        &k,
        "command",
    ) || contains_word(&k, "environment")
}

/// The parameters are at most 32 and none has a sensitive key.
pub open spec fn parameters_allowed(params: Seq<(String, ParameterValue)>) -> bool {
    &&& params.len() <= MAX_PARAMETERS
    &&& forall|i: int| 0 <= i < params.len() ==> !is_sensitive_key(#[trigger] params[i].0@)
}

/// The message for a rejected event id.
pub open spec fn msg_event_id() -> Seq<char> {
    "eventId must be a UUIDv7"@
}

/// The message for a rejected operation context id.
pub open spec fn msg_context_id() -> Seq<char> {
    "operationContextId must contain 1 to 128 characters"@
}

/// The message for a rejected event code.
pub open spec fn msg_event_code() -> Seq<char> {
    "eventCode must use lower snake case"@
}

/// The message for a rejected event labels.
pub open spec fn msg_event_label() -> Seq<char> {
    "event labels must contain 1 to 128 characters"@
}

/// The message for a rejected parameters.
pub open spec fn msg_parameters() -> Seq<char> {
    "operation parameters contain unsupported fields"@
}

/// The message of the first public constraint that `e` breaks, given the
/// parse result of its event id; nothing where it breaks none.
pub open spec fn event_violation(e: OperationEvent, parsed_id: Option<Seq<u8>>) -> Option<
    Seq<char>,
> {
    if !is_uuid_v7(parsed_id) {
        Some(msg_event_id())
    } else if (e.operation_context_id matches Some(c) && !is_context_id(c@)) {
        Some(msg_context_id())
    } else if !is_event_code(e.event_code@) {
        Some(msg_event_code())
    } else if !is_event_label(e.event_label.zh_cn@) || !is_event_label(e.event_label.en_us@) {
        Some(msg_event_label())
    } else if !parameters_allowed(e.parameters@) {
        Some(msg_parameters())
    } else {
        None
    }
}

/// `r` is what a check with the given outcome answers: `Ok` where nothing is
/// broken, else an invalid-event error with the message.
pub open spec fn answers_event_check(r: Result<(), Error>, violation: Option<Seq<char>>) -> bool {
    match violation {
        None => r is Ok,
        Some(m) => r matches Err(Error::InvalidEvent(s)) && s@ == m,
    }
}

/// Bilingual label of a dynamic event.
#[derive(Debug, Clone)]
pub struct OperationEventLabel {
    pub zh_cn: String,
    pub en_us: String,
}

/// An operation event that a suite submits to the Agent.
#[derive(Debug, Clone)]
pub struct OperationEvent {
    pub event_id: String,
    pub operation_context_id: Option<String>,
    pub event_code: String,
    pub event_label: OperationEventLabel,
    pub outcome: OperationOutcome,
    pub impact: OperationImpact,
    pub target: Option<OperationTarget>,
    pub task_id: Option<String>,
    pub parameters: Parameters,
    pub error_code: Option<String>,
    pub error_summary: Option<String>,
}

fn invalid_event(message: &str) -> (e: Error)
    ensures
        e matches Error::InvalidEvent(s) && s@ == message@,
{
    Error::InvalidEvent(message.to_owned())
}

fn event_code_ok(code: &str) -> (r: bool)
    ensures
        r == is_event_code(code@),
{
    let v = chars_of(code);
    if v.len() < 3 || v.len() > 64 {
        return false;
    }
    if !('a' <= v[0] && v[0] <= 'z') {
        return false;
    }
    let mut i: usize = 0;
    while i < v.len()
        invariant
            v@ == code@,
            i <= v.len(),
            forall|k: int| 0 <= k < i ==> is_snake_char(#[trigger] v@[k]),
        decreases v.len() - i,
    {
        let c = v[i];
        if !(('a' <= c && c <= 'z') || ('0' <= c && c <= '9') || c == '_') {
            return false;
        }
        i = i + 1;
    }
    true
}

fn event_label_ok(label: &str) -> (r: bool)
    ensures
        r == is_event_label(label@),
{
    let v = chars_of(label);
    !blank(label) && v.len() <= MAX_LABEL_CHARS
}

fn parameters_ok(params: &Parameters) -> (r: bool)
    ensures
        r == parameters_allowed(params@),
{
    let entries = params.entries();
    if entries.len() > MAX_PARAMETERS {
        return false;
    }
    let mut i: usize = 0;
    while i < entries.len()
        invariant
            entries@ == params@,
            i <= entries.len(),
            forall|k: int| 0 <= k < i ==> !is_sensitive_key(#[trigger] entries@[k].0@),
        decreases entries.len() - i,
    {
        if sensitive_key(entries[i].0.as_str()) {
            return false;
        }
        i = i + 1;
    }
    true
}

impl OperationEvent {
    /// Checks the public constraints of the Agent API against the event,
    /// given the bytes that `uuid::Uuid::parse_str` reads from its event id.
    pub fn validate_parsed(&self, event_id_bytes: Option<[u8; 16]>) -> (r: Result<(), Error>)
        ensures
            answers_event_check(r, event_violation(*self, bytes_view(event_id_bytes))),
            r is Ok ==> 3 <= self.event_code@.len() <= 64 && 'a' <= self.event_code@[0]
                && self.event_code@[0] <= 'z',
            r is Ok ==> forall|i: int|
                0 <= i < self.event_code@.len() ==> ('a' <= #[trigger] self.event_code@[i]
                    && self.event_code@[i] <= 'z') || ('0' <= self.event_code@[i]
                    && self.event_code@[i] <= '9') || self.event_code@[i] == '_',
    {
        match event_id_bytes {
            None => {
                return Err(invalid_event("eventId must be a UUIDv7"));
            },
            Some(b) => {
                let x: u8 = b[6];
                let version: u8 = x >> 4;
                assert(version == x / 16) by (bit_vector)
                    requires
                        version == x >> 4,
                ;
                if version != 7 {
                    return Err(invalid_event("eventId must be a UUIDv7"));
                }
            },
        }
        match &self.operation_context_id {
            Some(c) => {
                let v = chars_of(c.as_str());
                if blank(c.as_str()) || !utf8_len_within(&v, MAX_CONTEXT_ID_BYTES) {
                    return Err(invalid_event("operationContextId must contain 1 to 128 characters"));
                }
            },
            None => {},
        }
        if !event_code_ok(self.event_code.as_str()) {
            return Err(invalid_event("eventCode must use lower snake case"));
        }
        if !event_label_ok(self.event_label.zh_cn.as_str()) || !event_label_ok(
            self.event_label.en_us.as_str(),
        ) {
            return Err(invalid_event("event labels must contain 1 to 128 characters"));
        }
        if !parameters_ok(&self.parameters) {
            return Err(invalid_event("operation parameters contain unsupported fields"));
        }
        Ok(())
    }

    /// Checks the public constraints of the Agent API against the event.
    pub fn validate(&self) -> (r: Result<(), Error>)
        ensures
            answers_event_check(r, event_violation(*self, uuid_parse(self.event_id@))),
            r is Ok ==> 3 <= self.event_code@.len() <= 64 && 'a' <= self.event_code@[0]
                && self.event_code@[0] <= 'z',
            r is Ok ==> forall|i: int|
                0 <= i < self.event_code@.len() ==> ('a' <= #[trigger] self.event_code@[i]
                    && self.event_code@[i] <= 'z') || ('0' <= self.event_code@[i]
                    && self.event_code@[i] <= '9') || self.event_code@[i] == '_',
    {
        let parsed = parse_uuid(self.event_id.as_str());
        self.validate_parsed(parsed)
    }
}

// ---------------------------------------------------------------------------
// Redaction of error summaries.
// ---------------------------------------------------------------------------

/// `v` cut at the first case-insensitive occurrence of `marker`, with
/// `[REDACTED]` in place of the rest; `v` itself where `marker` does not occur.
pub open spec fn redact_marker(v: Seq<char>, marker: Seq<char>) -> Seq<char> {
    let hay = ascii_lower(v);
    let needle = ascii_lower(marker);
    if exists|i: int| is_first_occurrence(hay, needle, i) {
        v.take(choose|i: int| is_first_occurrence(hay, needle, i)) + "[REDACTED]"@
    } else {
        v
    }
}

/// The error summary that an event keeps of `s`: line breaks become spaces,
/// everything from a `Bearer `, `token=` or `password=` marker on is replaced
/// by `[REDACTED]`, and at most 512 characters remain.
pub open spec fn redacted(s: Seq<char>) -> Seq<char> {
    let flat = line_breaks_to_spaces(s);
    let v1 = redact_marker(flat, "Bearer "@);
    let v2 = redact_marker(v1, "token="@);
    let v3 = redact_marker(v2, "password="@);
    prefix(v3, MAX_ERROR_SUMMARY_CHARS as nat)
}

fn redact_marker_chars(v: Vec<char>, marker: &str) -> (r: Vec<char>)
    ensures
        r@ == redact_marker(v@, marker@),
{
    let hay = lowered(&v);
    let needle = lowered(&chars_of(marker));
    match find_first(&hay, &needle) {
        Some(i) => {
            proof {
                let c = choose|k: int| is_first_occurrence(hay@, needle@, k);
                assert(is_first_occurrence(hay@, needle@, i as int));
                assert(c == i) by {
                    if c < i {
                        assert(!occurs_at(hay@, needle@, c));
                    }
                    if c > i {
                        assert(!occurs_at(hay@, needle@, i as int));
                    }
                }
            }
            let mut r = v;
            r.truncate(i);
            let mut tail = chars_of("[REDACTED]");
            r.append(&mut tail);
            r
        },
        None => {
            assert(!exists|k: int| is_first_occurrence(hay@, needle@, k));
            v
        },
    }
}

/// The summary that an event keeps of an error message.
pub fn redact_error(value: &str) -> (r: String)
    ensures
        r@ == redacted(value@),
{
    let flat = spaces_for_line_breaks(&chars_of(value));
    let v1 = redact_marker_chars(flat, "Bearer ");
    let v2 = redact_marker_chars(v1, "token=");
    let v3 = redact_marker_chars(v2, "password=");
    prefix_string(&v3, MAX_ERROR_SUMMARY_CHARS)
}

// ---------------------------------------------------------------------------
// Builder.
// ---------------------------------------------------------------------------

/// Builds an event step by step and checks it before handing it out.
pub struct OperationEventBuilder(OperationEvent);

impl OperationEventBuilder {
    /// The event built so far.
    pub closed spec fn draft(self) -> OperationEvent {
        self.0
    }

    /// Binds the event to a trusted operation context.
    pub fn operation_context_id(self, value: &str) -> (r: Self)
        ensures
            r.draft() == (OperationEvent {
                operation_context_id: r.draft().operation_context_id,
                ..self.draft()
            }),
            r.draft().operation_context_id matches Some(c) && c@ == value@,
    {
        let mut e = self.0;
        e.operation_context_id = Some(value.to_owned());
        OperationEventBuilder(e)
    }

    /// Sets the business target.
    pub fn target(self, target: OperationTarget) -> (r: Self)
        ensures
            r.draft() == (OperationEvent { target: Some(target), ..self.draft() }),
    {
        let mut e = self.0;
        e.target = Some(target);
        OperationEventBuilder(e)
    }

    /// Sets the task id.
    pub fn task_id(self, value: &str) -> (r: Self)
        ensures
            r.draft() == (OperationEvent { task_id: r.draft().task_id, ..self.draft() }),
            r.draft().task_id matches Some(t) && t@ == value@,
    {
        let mut e = self.0;
        e.task_id = Some(value.to_owned());
        OperationEventBuilder(e)
    }

    /// Sets a parameter, replacing the value that the key had.
    pub fn parameter(self, key: &str, value: ParameterValue) -> (r: Self)
        ensures
            r.draft() == (OperationEvent { parameters: r.draft().parameters, ..self.draft() }),
            exists|k: String|
                k@ == key@ && r.draft().parameters@ == inserted(
                    self.draft().parameters@,
                    k,
                    value,
                ),
    {
        let mut e = self.0;
        let k = key.to_owned();
        e.parameters.insert(k, value);
        OperationEventBuilder(e)
    }

    /// Records the error: the code cut to 128 characters and the summary
    /// redacted.
    pub fn error(self, code: &str, summary: &str) -> (r: Self)
        ensures
            r.draft() == (OperationEvent {
                error_code: r.draft().error_code,
                error_summary: r.draft().error_summary,
                ..self.draft()
            }),
            r.draft().error_code matches Some(c) && c@ == prefix(code@, MAX_ERROR_CODE_CHARS as nat),
            r.draft().error_summary matches Some(s) && s@ == redacted(summary@),
    {
        let mut e = self.0;
        e.error_code = Some(prefix_string(&chars_of(code), MAX_ERROR_CODE_CHARS));
        e.error_summary = Some(redact_error(summary));
        OperationEventBuilder(e)
    }

    /// Checks the event and hands it out.
    pub fn build(self) -> (r: Result<OperationEvent, Error>)
        ensures
            r is Ok <==> event_violation(self.draft(), uuid_parse(self.draft().event_id@)) is None,
            r matches Ok(e) ==> e == self.draft(),
            r matches Err(err) ==> event_violation(self.draft(), uuid_parse(self.draft().event_id@))
                matches Some(m) && err matches Error::InvalidEvent(s) && s@ == m,
    {
        match self.0.validate() {
            Ok(()) => Ok(self.0),
            Err(e) => Err(e),
        }
    }
}

impl OperationEvent {
    /// A builder for an event with a fresh UUIDv7 as its idempotency key.
    pub fn builder(
        event_code: &str,
        zh_cn: &str,
        en_us: &str,
        outcome: OperationOutcome,
        impact: OperationImpact,
    ) -> (r: OperationEventBuilder)
        ensures
            is_uuid_v7_text(r.draft().event_id@),
            is_uuid_v7(uuid_parse(r.draft().event_id@)),
            r.draft().operation_context_id is None,
            r.draft().event_code@ == event_code@,
            r.draft().event_label.zh_cn@ == zh_cn@,
            r.draft().event_label.en_us@ == en_us@,
            r.draft().outcome == outcome,
            r.draft().impact == impact,
            r.draft().target is None,
            r.draft().task_id is None,
            r.draft().parameters@.len() == 0,
            r.draft().error_code is None,
            r.draft().error_summary is None,
    {
        OperationEventBuilder(
            OperationEvent {
                event_id: new_event_id(),
                operation_context_id: None,
                event_code: event_code.to_owned(),
                event_label: OperationEventLabel { zh_cn: zh_cn.to_owned(), en_us: en_us.to_owned() },
                outcome,
                impact,
                target: None,
                task_id: None,
                parameters: Parameters::new(),
                error_code: None,
                error_summary: None,
            },
        )
    }
}

// ---------------------------------------------------------------------------
// Laws.
// ---------------------------------------------------------------------------

/// A context id taken from the proxy header always meets the constraint that
/// event validation puts on `operationContextId`.
pub proof fn lemma_header_context_is_accepted(header: Seq<char>)
    ensures
        context_from_header(Some(header)) matches Some(c) ==> is_context_id(c),
{
    crate::text::lemma_trim_not_blank(header);
}

/// A freshly built event, with a lower snake case code and two labels of 1 to
/// 128 characters, passes validation; so do the context id that the proxy
/// header gives and parameters without sensitive keys.
pub proof fn lemma_well_formed_event_is_valid(e: OperationEvent)
    requires
        is_uuid_v7(uuid_parse(e.event_id@)),
        e.operation_context_id matches Some(c) ==> is_context_id(c@),
        is_event_code(e.event_code@),
        is_event_label(e.event_label.zh_cn@),
        is_event_label(e.event_label.en_us@),
        parameters_allowed(e.parameters@),
    ensures
        event_violation(e, uuid_parse(e.event_id@)) is None,
{
}

/// An event with a parameter whose key names sensitive data is rejected,
/// whatever else it holds.
pub proof fn lemma_sensitive_parameter_is_rejected(
    e: OperationEvent,
    parsed_id: Option<Seq<u8>>,
    i: int,
)
    requires
        0 <= i < e.parameters@.len(),
        is_sensitive_key(e.parameters@[i].0@),
    ensures
        event_violation(e, parsed_id) is Some,
{
    assert(!parameters_allowed(e.parameters@));
}

proof fn lemma_lower_add(a: Seq<char>, b: Seq<char>)
    ensures
        ascii_lower(a + b) == ascii_lower(a) + ascii_lower(b),
{
    assert(ascii_lower(a + b) =~= ascii_lower(a) + ascii_lower(b));
}

proof fn lemma_lower_take(a: Seq<char>, n: int)
    requires
        0 <= n <= a.len(),
    ensures
        ascii_lower(a.take(n)) == ascii_lower(a).take(n),
{
    assert(ascii_lower(a.take(n)) =~= ascii_lower(a).take(n));
}

proof fn lemma_occurs_index(hay: Seq<char>, needle: Seq<char>, i: int, k: int)
    requires
        occurs_at(hay, needle, i),
        0 <= k < needle.len(),
    ensures
        hay[i + k] == needle[k],
{
    assert(hay.subrange(i, i + needle.len())[k] == needle[k]);
}

proof fn lemma_no_occurrence_in_take(x: Seq<char>, needle: Seq<char>, n: int)
    requires
        !contains_text(x, needle),
        0 <= n <= x.len(),
    ensures
        !contains_text(x.take(n), needle),
{
    if contains_text(x.take(n), needle) {
        let i = choose|i: int| occurs_at(x.take(n), needle, i);
        assert(x.take(n).subrange(i, i + needle.len()) =~= x.subrange(i, i + needle.len()));
        assert(occurs_at(x, needle, i));
    }
}

proof fn lemma_first_occurrence_exists(hay: Seq<char>, needle: Seq<char>, i: int)
    requires
        occurs_at(hay, needle, i),
    ensures
        exists|j: int| is_first_occurrence(hay, needle, j),
    decreases i,
{
    if exists|k: int| 0 <= k < i && occurs_at(hay, needle, k) {
        let k = choose|k: int| 0 <= k < i && occurs_at(hay, needle, k);
        lemma_first_occurrence_exists(hay, needle, k);
    } else {
        assert(is_first_occurrence(hay, needle, i));
    }
}

/// The case-folded text that replaces a redacted tail.
spec fn redaction_tail() -> Seq<char> {
    ascii_lower("[REDACTED]"@)
}

/// A marker that cannot appear in a text that ends with the redaction tail
/// unless it appears in the text before the tail.
spec fn is_separable_marker(m: Seq<char>) -> bool {
    &&& m.len() > 0
    &&& forall|k: int| 0 <= k < m.len() ==> #[trigger] m[k] != '['
    &&& exists|k: int| 0 <= k < m.len() && absent_from_tail(#[trigger] m[k])
}

/// `c` does not occur in the redaction tail.
spec fn absent_from_tail(c: char) -> bool {
    forall|j: int| 0 <= j < redaction_tail().len() ==> #[trigger] redaction_tail()[j] != c
}

proof fn lemma_no_occurrence_after_tail(a: Seq<char>, m: Seq<char>)
    requires
        !contains_text(a, m),
        is_separable_marker(m),
    ensures
        !contains_text(a + redaction_tail(), m),
{
    reveal_strlit("[REDACTED]");
    let t = redaction_tail();
    assert(t[0] == '[');
    let h = a + t;
    if contains_text(h, m) {
        let i = choose|i: int| occurs_at(h, m, i);
        if i + m.len() <= a.len() {
            assert(h.subrange(i, i + m.len()) =~= a.subrange(i, i + m.len()));
            assert(occurs_at(a, m, i));
        } else if i < a.len() {
            lemma_occurs_index(h, m, i, a.len() - i);
            assert(h[a.len() as int] == t[0]);
        } else {
            let k = choose|k: int| 0 <= k < m.len() && absent_from_tail(#[trigger] m[k]);
            lemma_occurs_index(h, m, i, k);
            assert(h[i + k] == t[i + k - a.len()]);
        }
    }
}

proof fn lemma_redact_removes_marker(v: Seq<char>, marker: Seq<char>)
    requires
        is_separable_marker(ascii_lower(marker)),
    ensures
        !contains_text(ascii_lower(redact_marker(v, marker)), ascii_lower(marker)),
{
    let hay = ascii_lower(v);
    let m = ascii_lower(marker);
    if exists|i: int| is_first_occurrence(hay, m, i) {
        let i = choose|i: int| is_first_occurrence(hay, m, i);
        lemma_lower_add(v.take(i), "[REDACTED]"@);
        lemma_lower_take(v, i);
        if contains_text(hay.take(i), m) {
            let k = choose|k: int| occurs_at(hay.take(i), m, k);
            assert(hay.take(i).subrange(k, k + m.len()) =~= hay.subrange(k, k + m.len()));
            assert(occurs_at(hay, m, k));
        }
        lemma_no_occurrence_after_tail(hay.take(i), m);
    } else {
        if contains_text(hay, m) {
            let k = choose|k: int| occurs_at(hay, m, k);
            lemma_first_occurrence_exists(hay, m, k);
        }
    }
}

proof fn lemma_redact_keeps_absence(v: Seq<char>, marker: Seq<char>, m: Seq<char>)
    requires
        !contains_text(ascii_lower(v), m),
        is_separable_marker(m),
    ensures
        !contains_text(ascii_lower(redact_marker(v, marker)), m),
{
    let hay = ascii_lower(v);
    let needle = ascii_lower(marker);
    if exists|i: int| is_first_occurrence(hay, needle, i) {
        let i = choose|i: int| is_first_occurrence(hay, needle, i);
        lemma_lower_add(v.take(i), "[REDACTED]"@);
        lemma_lower_take(v, i);
        lemma_no_occurrence_in_take(hay, m, i);
        lemma_no_occurrence_after_tail(hay.take(i), m);
    }
}

proof fn lemma_markers_are_separable()
    ensures
        is_separable_marker(ascii_lower("Bearer "@)),
        is_separable_marker(ascii_lower("token="@)),
        is_separable_marker(ascii_lower("password="@)),
{
    reveal_strlit("[REDACTED]");
    reveal_strlit("Bearer ");
    reveal_strlit("token=");
    reveal_strlit("password=");
    let t = redaction_tail();
    assert forall|j: int| 0 <= j < t.len() implies #[trigger] t[j] != ' ' && t[j] != '=' by {
        assert(t[j] == ascii_lower_char("[REDACTED]"@[j]));
    }
    assert(absent_from_tail(' '));
    assert(absent_from_tail('='));
    let b = ascii_lower("Bearer "@);
    assert(b[6] == ' ');
    assert forall|k: int| 0 <= k < b.len() implies #[trigger] b[k] != '[' by {
        assert(b[k] == ascii_lower_char("Bearer "@[k]));
    }
    let tk = ascii_lower("token="@);
    assert(tk[5] == '=');
    assert forall|k: int| 0 <= k < tk.len() implies #[trigger] tk[k] != '[' by {
        assert(tk[k] == ascii_lower_char("token="@[k]));
    }
    let p = ascii_lower("password="@);
    assert(p[8] == '=');
    assert forall|k: int| 0 <= k < p.len() implies #[trigger] p[k] != '[' by {
        assert(p[k] == ascii_lower_char("password="@[k]));
    }
}

/// A redacted error summary has at most 512 characters, no line break, and
/// no `Bearer `, `token=` or `password=` marker in any letter case.
pub proof fn lemma_redacted_summary_is_safe(s: Seq<char>)
    ensures
        redacted(s).len() <= MAX_ERROR_SUMMARY_CHARS,
        forall|i: int|
            0 <= i < redacted(s).len() ==> #[trigger] redacted(s)[i] != '\r' && redacted(s)[i]
                != '\n',
        !contains_text(ascii_lower(redacted(s)), ascii_lower("Bearer "@)),
        !contains_text(ascii_lower(redacted(s)), ascii_lower("token="@)),
        !contains_text(ascii_lower(redacted(s)), ascii_lower("password="@)),
{
    lemma_markers_are_separable();
    let flat = line_breaks_to_spaces(s);
    let v1 = redact_marker(flat, "Bearer "@);
    let v2 = redact_marker(v1, "token="@);
    let v3 = redact_marker(v2, "password="@);
    let b = ascii_lower("Bearer "@);
    let tk = ascii_lower("token="@);
    let p = ascii_lower("password="@);
    lemma_redact_removes_marker(flat, "Bearer "@);
    lemma_redact_keeps_absence(v1, "token="@, b);
    lemma_redact_keeps_absence(v2, "password="@, b);
    lemma_redact_removes_marker(v1, "token="@);
    lemma_redact_keeps_absence(v2, "password="@, tk);
    lemma_redact_removes_marker(v2, "password="@);
    if v3.len() > MAX_ERROR_SUMMARY_CHARS {
        lemma_lower_take(v3, MAX_ERROR_SUMMARY_CHARS as int);
        lemma_no_occurrence_in_take(ascii_lower(v3), b, MAX_ERROR_SUMMARY_CHARS as int);
        lemma_no_occurrence_in_take(ascii_lower(v3), tk, MAX_ERROR_SUMMARY_CHARS as int);
        lemma_no_occurrence_in_take(ascii_lower(v3), p, MAX_ERROR_SUMMARY_CHARS as int);
    }
    lemma_no_line_breaks(s);
}

proof fn lemma_redact_keeps_no_line_breaks(v: Seq<char>, marker: Seq<char>)
    requires
        forall|i: int| 0 <= i < v.len() ==> #[trigger] v[i] != '\r' && v[i] != '\n',
    ensures
        forall|i: int|
            0 <= i < redact_marker(v, marker).len() ==> #[trigger] redact_marker(v, marker)[i]
                != '\r' && redact_marker(v, marker)[i] != '\n',
{
    reveal_strlit("[REDACTED]");
    let hay = ascii_lower(v);
    let needle = ascii_lower(marker);
    if exists|i: int| is_first_occurrence(hay, needle, i) {
        let n = choose|i: int| is_first_occurrence(hay, needle, i);
        let r = redact_marker(v, marker);
        assert forall|i: int| 0 <= i < r.len() implies #[trigger] r[i] != '\r' && r[i] != '\n' by {
            if i < n {
                assert(r[i] == v[i]);
            } else {
                assert(r[i] == "[REDACTED]"@[i - n]);
            }
        }
    }
}

proof fn lemma_no_line_breaks(s: Seq<char>)
    ensures
        forall|i: int|
            0 <= i < redacted(s).len() ==> #[trigger] redacted(s)[i] != '\r' && redacted(s)[i]
                != '\n',
{
    let flat = line_breaks_to_spaces(s);
    let v1 = redact_marker(flat, "Bearer "@);
    let v2 = redact_marker(v1, "token="@);
    let v3 = redact_marker(v2, "password="@);
    assert forall|i: int| 0 <= i < flat.len() implies #[trigger] flat[i] != '\r' && flat[i] != '\n' by {}
    lemma_redact_keeps_no_line_breaks(flat, "Bearer "@);
    lemma_redact_keeps_no_line_breaks(v1, "token="@);
    lemma_redact_keeps_no_line_breaks(v2, "password="@);
    let r = redacted(s);
    assert forall|i: int| 0 <= i < r.len() implies #[trigger] r[i] != '\r' && r[i] != '\n' by {
        assert(r[i] == v3[i]);
    }
}

/// The event code rule: an event whose id is a version 7 UUID and that has
/// no context id is rejected with the event-code message when its code is
/// shorter than 3 or longer than 64 characters, or holds any character other
/// than an ASCII lower-case letter, a digit or `_` (an upper-case letter
/// anywhere, for one), or does not start with a lower-case letter; a code
/// that keeps the rule passes this check.
pub proof fn lemma_event_code_rule(e: OperationEvent, parsed_id: Option<Seq<u8>>)
    requires
        is_uuid_v7(parsed_id),
        e.operation_context_id is None,
    ensures
        (exists|i: int|
            0 <= i < e.event_code@.len() && !(('a' <= #[trigger] e.event_code@[i]
                && e.event_code@[i] <= 'z') || ('0' <= e.event_code@[i] && e.event_code@[i]
                <= '9') || e.event_code@[i] == '_')) ==> event_violation(e, parsed_id) == Some(
            "eventCode must use lower snake case"@,
        ),
        (e.event_code@.len() < 3 || e.event_code@.len() > 64) ==> event_violation(e, parsed_id)
            == Some("eventCode must use lower snake case"@),
        (e.event_code@.len() >= 1 && !('a' <= e.event_code@[0] && e.event_code@[0] <= 'z'))
            ==> event_violation(e, parsed_id) == Some("eventCode must use lower snake case"@),
        (3 <= e.event_code@.len() <= 64 && 'a' <= e.event_code@[0] && e.event_code@[0] <= 'z'
            && forall|i: int|
            0 <= i < e.event_code@.len() ==> ('a' <= #[trigger] e.event_code@[i]
                && e.event_code@[i] <= 'z') || ('0' <= e.event_code@[i] && e.event_code@[i]
                <= '9') || e.event_code@[i] == '_') ==> event_violation(e, parsed_id)
            != Some("eventCode must use lower snake case"@),
{
    if exists|i: int|
        0 <= i < e.event_code@.len() && !(('a' <= #[trigger] e.event_code@[i] && e.event_code@[i]
            <= 'z') || ('0' <= e.event_code@[i] && e.event_code@[i] <= '9') || e.event_code@[i]
            == '_') {
        let i = choose|i: int|
            0 <= i < e.event_code@.len() && !(('a' <= #[trigger] e.event_code@[i]
                && e.event_code@[i] <= 'z') || ('0' <= e.event_code@[i] && e.event_code@[i]
                <= '9') || e.event_code@[i] == '_');
        assert(!is_snake_char(e.event_code@[i]));
    }
    lemma_messages_differ();
}

proof fn lemma_messages_differ()
    ensures
        msg_event_code() != msg_event_label(),
        msg_event_code() != msg_parameters(),
{
    reveal_strlit("eventCode must use lower snake case");
    reveal_strlit("event labels must contain 1 to 128 characters");
    reveal_strlit("operation parameters contain unsupported fields");
    assert(msg_event_code()[5] != msg_event_label()[5]);
    assert(msg_event_code()[0] != msg_parameters()[0]);
}

/// The context id taken from a header value is that value with its leading
/// and trailing white space removed, character for character: a contiguous
/// part `v[a..b]` of the value with only white space before and after it,
/// that starts and ends with a character that is not white space. Such a part
/// of at most 128 UTF-8 bytes is exactly what comes out, and a value without
/// such a part, or an absent value, gives none.
pub proof fn lemma_context_is_trimmed_header(v: Seq<char>, a: int, b: int)
    ensures
        context_from_header(Some(v)) matches Some(c) ==> exists|x: int, y: int|
            #![trigger v.subrange(x, y)]
            0 <= x < y <= v.len() && c == v.subrange(x, y) && (forall|k: int|
                0 <= k < x ==> is_white_space(#[trigger] v[k])) && (forall|k: int|
                y <= k < v.len() ==> is_white_space(#[trigger] v[k])) && !is_white_space(v[x])
                && !is_white_space(v[y - 1]),
        (0 <= a < b <= v.len() && (forall|k: int| 0 <= k < a ==> is_white_space(#[trigger] v[k]))
            && (forall|k: int| b <= k < v.len() ==> is_white_space(#[trigger] v[k]))
            && !is_white_space(v[a]) && !is_white_space(v[b - 1]) && utf8_len(v.subrange(a, b))
            <= 128) ==> context_from_header(Some(v)) == Some(v.subrange(a, b)),
        (forall|k: int| 0 <= k < v.len() ==> is_white_space(#[trigger] v[k])) ==> context_from_header(
            Some(v),
        ) is None,
        context_from_header(None) is None,
{
    lemma_trim_is_inner_part(v);
    let (x, y) = choose|x: int, y: int|
        #![trigger v.subrange(x, y)]
        0 <= x <= y <= v.len() && trim(v) == v.subrange(x, y) && (forall|k: int|
            0 <= k < x ==> is_white_space(#[trigger] v[k])) && (forall|k: int|
            y <= k < v.len() ==> is_white_space(#[trigger] v[k])) && (x < y ==> !is_white_space(v[x])
            && !is_white_space(v[y - 1]));
    assert(trim(v) == v.subrange(x, y));
    if x < y {
        assert(trim(v).len() > 0);
    }
    if 0 <= a < b <= v.len() && (forall|k: int| 0 <= k < a ==> is_white_space(#[trigger] v[k]))
        && (forall|k: int| b <= k < v.len() ==> is_white_space(#[trigger] v[k]))
        && !is_white_space(v[a]) && !is_white_space(v[b - 1]) {
        // The part is non-empty, so x < y; then both bounds agree.
        if x >= y {
            assert(is_white_space(v[a]));
        }
        if x < a {
            assert(is_white_space(v[x]));
        }
        if a < x {
            assert(is_white_space(v[a]));
        }
        if y < b {
            assert(is_white_space(v[b - 1]));
        }
        if b < y {
            assert(is_white_space(v[y - 1]));
        }
        assert(x == a && y == b);
    }
    if forall|k: int| 0 <= k < v.len() ==> is_white_space(#[trigger] v[k]) {
        if x < y {
            assert(is_white_space(v[x]));
        }
    }
}

/// One of the three markers, in lower case.
spec fn is_lower_marker(m: Seq<char>) -> bool {
    m == "bearer "@ || m == "token="@ || m == "password="@
}

/// The first letter of a marker (`b`, `t` or `p`) occurs in no marker after
/// its first character.
spec fn heads_only_first(m: Seq<char>) -> bool {
    &&& m.len() > 0
    &&& (m[0] == 'b' || m[0] == 't' || m[0] == 'p')
    &&& forall|t: int| 1 <= t < m.len() ==> #[trigger] m[t] != 'b' && m[t] != 't' && m[t] != 'p'
}

proof fn lemma_lower_markers()
    ensures
        ascii_lower("Bearer "@) == "bearer "@,
        ascii_lower("token="@) == "token="@,
        ascii_lower("password="@) == "password="@,
        heads_only_first("bearer "@),
        heads_only_first("token="@),
        heads_only_first("password="@),
        "bearer "@ != "token="@,
        "bearer "@ != "password="@,
        "token="@ != "password="@,
{
    reveal_strlit("Bearer ");
    reveal_strlit("bearer ");
    reveal_strlit("token=");
    reveal_strlit("password=");
    assert(ascii_lower("Bearer "@) =~= "bearer "@);
    assert(ascii_lower("token="@) =~= "token="@);
    assert(ascii_lower("password="@) =~= "password="@);
    assert("bearer "@[0] != "token="@[0]);
    assert("bearer "@[0] != "password="@[0]);
    assert("token="@[0] != "password="@[0]);
}

/// No marker starts in `hay` before position `i`.
spec fn no_marker_before(hay: Seq<char>, i: int) -> bool {
    forall|k: int|
        0 <= k < i ==> !occurs_at(hay, "bearer "@, k) && !occurs_at(hay, "token="@, k)
            && !occurs_at(hay, "password="@, k)
}

proof fn lemma_redact_unchanged_without_marker(v: Seq<char>, marker: Seq<char>)
    requires
        !contains_text(ascii_lower(v), ascii_lower(marker)),
    ensures
        redact_marker(v, marker) == v,
{
}

/// A text already cut at `i` keeps its cut through a further step.
proof fn lemma_cut_stays(f: Seq<char>, i: int, marker: Seq<char>)
    requires
        0 <= i <= f.len(),
        no_marker_before(ascii_lower(f), i),
        is_lower_marker(ascii_lower(marker)),
    ensures
        redact_marker(f.take(i) + "[REDACTED]"@, marker) == f.take(i) + "[REDACTED]"@,
{
    lemma_markers_are_separable();
    lemma_lower_markers();
    let m = ascii_lower(marker);
    let a = ascii_lower(f).take(i);
    lemma_lower_take(f, i);
    lemma_lower_add(f.take(i), "[REDACTED]"@);
    if contains_text(a, m) {
        let k = choose|k: int| occurs_at(a, m, k);
        assert(a.subrange(k, k + m.len()) =~= ascii_lower(f).subrange(k, k + m.len()));
        assert(occurs_at(ascii_lower(f), m, k));
    }
    lemma_no_occurrence_after_tail(a, m);
    lemma_redact_unchanged_without_marker(f.take(i) + "[REDACTED]"@, marker);
}

/// A step on a text that still agrees with `f` up to the end of the marker
/// `mj` at `i` either cuts at `i` or keeps that agreement; it cuts where its
/// marker is `mj`.
proof fn lemma_intact_step(f: Seq<char>, i: int, mj: Seq<char>, v: Seq<char>, marker: Seq<char>)
    requires
        is_lower_marker(mj),
        occurs_at(ascii_lower(f), mj, i),
        no_marker_before(ascii_lower(f), i),
        v.len() >= i + mj.len(),
        v.take(i + mj.len()) == f.take(i + mj.len()),
        is_lower_marker(ascii_lower(marker)),
    ensures
        redact_marker(v, marker) == f.take(i) + "[REDACTED]"@ || (redact_marker(v, marker).len()
            >= i + mj.len() && redact_marker(v, marker).take(i + mj.len()) == f.take(
            i + mj.len(),
        )),
        ascii_lower(marker) == mj ==> redact_marker(v, marker) == f.take(i) + "[REDACTED]"@,
{
    lemma_lower_markers();
    let n = i + mj.len();
    let big_f = ascii_lower(f);
    let hay = ascii_lower(v);
    let m = ascii_lower(marker);
    lemma_lower_take(f, n);
    lemma_lower_take(v, n);
    assert(hay.take(n) == big_f.take(n));
    assert(hay.subrange(i, n) =~= big_f.subrange(i, n)) by {
        assert forall|k: int| i <= k < n implies hay[k] == big_f[k] by {
            assert(hay[k] == hay.take(n)[k]);
            assert(big_f[k] == big_f.take(n)[k]);
        }
    }
    assert(occurs_at(hay, mj, i));
    assert(v.take(i) =~= f.take(i)) by {
        assert forall|k: int| 0 <= k < i implies v[k] == f[k] by {
            assert(v[k] == v.take(n)[k]);
            assert(f[k] == f.take(n)[k]);
        }
    }
    // The marker of this step does not start before i.
    assert forall|k: int| 0 <= k < i implies !occurs_at(hay, m, k) by {
        if occurs_at(hay, m, k) {
            if k + m.len() <= n {
                assert(hay.subrange(k, k + m.len()) =~= big_f.subrange(k, k + m.len())) by {
                    assert forall|q: int| k <= q < k + m.len() implies hay[q] == big_f[q] by {
                        assert(hay[q] == hay.take(n)[q]);
                        assert(big_f[q] == big_f.take(n)[q]);
                    }
                }
                assert(occurs_at(big_f, m, k));
            } else {
                lemma_occurs_index(hay, m, k, i - k);
                lemma_occurs_index(hay, mj, i, 0);
            }
        }
    }
    if exists|p: int| is_first_occurrence(hay, m, p) {
        let p = choose|p: int| is_first_occurrence(hay, m, p);
        if p < i {
        } else if p == i {
        } else if p < n {
            lemma_occurs_index(hay, m, p, 0);
            lemma_occurs_index(hay, mj, i, p - i);
        } else {
            let w = v.take(p) + "[REDACTED]"@;
            assert(w.take(n) =~= v.take(n));
        }
        if m == mj {
            assert(!(p > i)) by {
                if p > i {
                    assert(occurs_at(hay, m, i));
                }
            }
        }
    } else {
        if m == mj {
            lemma_first_occurrence_exists(hay, m, i);
        }
    }
}

/// A summary of at most 512 characters, without line breaks and without a
/// `Bearer `, `token=` or `password=` marker in any letter case, is kept as
/// it is.
pub proof fn lemma_redaction_keeps_clean_summary(s: Seq<char>)
    requires
        s.len() <= 512,
        forall|k: int| 0 <= k < s.len() ==> #[trigger] s[k] != '\r' && s[k] != '\n',
        !contains_text(ascii_lower(s), "bearer "@),
        !contains_text(ascii_lower(s), "token="@),
        !contains_text(ascii_lower(s), "password="@),
    ensures
        redacted(s) == s,
{
    lemma_lower_markers();
    let flat = line_breaks_to_spaces(s);
    assert(flat =~= s);
    lemma_redact_unchanged_without_marker(s, "Bearer "@);
    lemma_redact_unchanged_without_marker(s, "token="@);
    lemma_redact_unchanged_without_marker(s, "password="@);
}

/// Where a marker (`Bearer `, `token=` or `password=`, in any letter case)
/// occurs at position `i` of the summary with its line breaks made spaces,
/// and no marker starts before `i`, the summary keeps the text before `i`,
/// then `[REDACTED]`, cut to 512 characters.
pub proof fn lemma_redaction_cuts_at_first_marker(s: Seq<char>, i: int)
    requires
        occurs_at(ascii_lower(line_breaks_to_spaces(s)), "bearer "@, i) || occurs_at(
            ascii_lower(line_breaks_to_spaces(s)),
            "token="@,
            i,
        ) || occurs_at(ascii_lower(line_breaks_to_spaces(s)), "password="@, i),
        forall|k: int|
            0 <= k < i ==> !occurs_at(ascii_lower(line_breaks_to_spaces(s)), "bearer "@, k)
                && !occurs_at(ascii_lower(line_breaks_to_spaces(s)), "token="@, k) && !occurs_at(
                ascii_lower(line_breaks_to_spaces(s)),
                "password="@,
                k,
            ),
    ensures
        redacted(s) == prefix(
            line_breaks_to_spaces(s).take(i) + "[REDACTED]"@,
            MAX_ERROR_SUMMARY_CHARS as nat,
        ),
{
    lemma_lower_markers();
    let f = line_breaks_to_spaces(s);
    let big_f = ascii_lower(f);
    let mj = if occurs_at(big_f, "bearer "@, i) {
        "bearer "@
    } else if occurs_at(big_f, "token="@, i) {
        "token="@
    } else {
        "password="@
    };
    assert(no_marker_before(big_f, i));
    let n = i + mj.len();
    let cut = f.take(i) + "[REDACTED]"@;
    assert(big_f.len() == f.len());
    assert(0 <= i <= f.len());
    let v1 = redact_marker(f, "Bearer "@);
    lemma_intact_step(f, i, mj, f, "Bearer "@);
    let v2 = redact_marker(v1, "token="@);
    if v1 == cut {
        lemma_cut_stays(f, i, "token="@);
    } else {
        lemma_intact_step(f, i, mj, v1, "token="@);
    }
    let v3 = redact_marker(v2, "password="@);
    if v2 == cut {
        lemma_cut_stays(f, i, "password="@);
    } else {
        lemma_intact_step(f, i, mj, v2, "password="@);
    }
    assert(v3 == cut);
}

} // verus!
