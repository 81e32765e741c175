//! Engrams: tamper-evident records of one agent session. A finalized engram
//! carries a BLAKE3 digest of its canonical JSON text, which covers every
//! field but the digest itself.
use vstd::prelude::*;
use vstd::string::StringExecFns;

use crate::ids::{fresh_uuid, uuid_hyphenated, uuid_text};
use crate::text::str_eq;

verus! {

/// Identifier of an engram: a 128-bit UUID.
#[derive(Debug, Clone, Copy, PartialEq, Eq, Structural)]
pub struct EngramId(pub u128);

impl EngramId {
    /// A fresh random engram identifier.
    pub fn new() -> (r: EngramId) {
        EngramId(fresh_uuid())
    }
}

/// A decision taken during the session.
pub struct Decision {
    pub choice: String,
    pub rationale: String,
    /// The confidence in `[0, 1]`, as JSON number text.
    pub confidence: String,
    /// Nanoseconds since the Unix epoch, UTC.
    pub timestamp: i64,
}

/// An option that was considered and rejected.
pub struct Alternative {
    pub option: String,
    pub rejection_reason: String,
}

/// An action the agent performed.
pub struct Action {
    pub action_type: String,
    pub description: String,
    /// Structured parameters, as JSON text.
    pub details: String,
    pub success: bool,
    /// Nanoseconds since the Unix epoch, UTC.
    pub timestamp: i64,
}

/// The record of one agent session.
pub struct Engram {
    pub id: EngramId,
    pub tenant_id: u128,
    pub agent_id: String,
    pub intent: String,
    /// Context handed to the agent, as JSON text.
    pub context: String,
    pub decisions: Vec<Decision>,
    pub alternatives: Vec<Alternative>,
    pub actions: Vec<Action>,
    /// Nanoseconds since the Unix epoch, UTC.
    pub started_at: i64,
    pub completed_at: Option<i64>,
    /// Lower-case hex BLAKE3 digest of the canonical text; set on finalization.
    pub content_hash: Option<String>,
}

/// What `serde_json` writes for a string: the quoted, escaped text.
pub uninterp spec fn json_quoted(s: Seq<char>) -> Seq<char>;

/// RFC 3339 text of an instant in UTC, with as many fraction digits as needed
/// and a `Z` suffix.
pub uninterp spec fn rfc3339_of(nanos: i64) -> Seq<char>;

/// Lower-case hex BLAKE3 digest of the UTF-8 bytes of a text.
pub uninterp spec fn blake3_hex(text: Seq<char>) -> Seq<char>;

/// Relies on `serde_json::to_string` for a `str`: the JSON string literal,
/// quotes included. Writing a `str` into memory cannot fail.
#[verifier::external_body]
pub(crate) fn json_string(s: &str) -> (r: String)
    ensures
        r@ == json_quoted(s@),
{
    serde_json::to_string(s).unwrap_or_default()
}

/// Relies on `chrono::DateTime::to_rfc3339_opts` with `SecondsFormat::AutoSi`
/// and `Z`, the form in which chrono serializes a UTC instant.
#[verifier::external_body]
fn rfc3339_text(nanos: i64) -> (r: String)
    ensures
        r@ == rfc3339_of(nanos),
{
    chrono::DateTime::from_timestamp_nanos(nanos).to_rfc3339_opts(chrono::SecondsFormat::AutoSi, true)
}

/// Relies on `blake3::hash` and `Hash::to_hex`: the digest of the text's bytes.
#[verifier::external_body]
fn digest_hex(text: &str) -> (r: String)
    ensures
        r@ == blake3_hex(text@),
        is_hex_digest(r@),
{
    blake3::hash(text.as_bytes()).to_hex().to_string()
}

/// Relies on `chrono::Utc::now`: the current instant, when it fits in
/// nanoseconds since the epoch.
#[verifier::external_body]
fn now_nanos() -> (r: Option<i64>) {
    chrono::Utc::now().timestamp_nanos_opt()
}

/// A lower-case hexadecimal digit.
pub open spec fn is_lower_hex_char(c: char) -> bool {
    ('0' <= c && c <= '9') || ('a' <= c && c <= 'f')
}

/// 64 lower-case hexadecimal digits: the text of a 32-byte digest.
pub open spec fn is_hex_digest(s: Seq<char>) -> bool {
    s.len() == 64 && forall|i: int| 0 <= i < s.len() ==> is_lower_hex_char(#[trigger] s[i])
}

/// JSON text of a UUID.
pub open spec fn uuid_json(id: u128) -> Seq<char> {
    "\""@ + uuid_hyphenated(id) + "\""@
}

/// JSON text of an instant.
pub open spec fn instant_json(nanos: i64) -> Seq<char> {
    "\""@ + rfc3339_of(nanos) + "\""@
}

/// Items separated by commas.
pub open spec fn joined(items: Seq<Seq<char>>) -> Seq<char>
    decreases items.len(),
{
    if items.len() == 0 {
        Seq::empty()
    } else if items.len() == 1 {
        items[0]
    } else {
        joined(items.drop_last()) + ","@ + items.last()
    }
}

pub open spec fn decision_json(d: Decision) -> Seq<char> {
    "{\"choice\":"@ + json_quoted(d.choice@) + ",\"rationale\":"@ + json_quoted(d.rationale@)
        + ",\"confidence\":"@ + d.confidence@ + ",\"timestamp\":"@ + instant_json(d.timestamp)
        + "}"@
}

pub open spec fn alternative_json(a: Alternative) -> Seq<char> {
    "{\"option\":"@ + json_quoted(a.option@) + ",\"rejection_reason\":"@ + json_quoted(
        a.rejection_reason@,
    ) + "}"@
}

pub open spec fn bool_json(b: bool) -> Seq<char> {
    if b {
        "true"@
    } else {
        "false"@
    }
}

pub open spec fn action_json(a: Action) -> Seq<char> {
    "{\"action_type\":"@ + json_quoted(a.action_type@) + ",\"description\":"@ + json_quoted(
        a.description@,
    ) + ",\"details\":"@ + a.details@ + ",\"success\":"@ + bool_json(a.success)
        + ",\"timestamp\":"@ + instant_json(a.timestamp) + "}"@
}

pub open spec fn completion_json(c: Option<i64>) -> Seq<char> {
    match c {
        Some(t) => instant_json(t),
        None => "null"@,
    }
}

/// The canonical text of an engram: compact JSON of every field but the
/// digest, in declaration order.
pub open spec fn canonical(e: Engram) -> Seq<char> {
    "{\"id\":"@ + uuid_json(e.id.0) + ",\"tenant_id\":"@ + uuid_json(e.tenant_id)
        + ",\"agent_id\":"@ + json_quoted(e.agent_id@) + ",\"intent\":"@ + json_quoted(e.intent@)
        + ",\"context\":"@ + e.context@ + ",\"decisions\":["@ + joined(
        e.decisions@.map_values(|d: Decision| decision_json(d)),
    ) + "],\"alternatives\":["@ + joined(
        e.alternatives@.map_values(|a: Alternative| alternative_json(a)),
    ) + "],\"actions\":["@ + joined(e.actions@.map_values(|a: Action| action_json(a)))
        + "],\"started_at\":"@ + instant_json(e.started_at) + ",\"completed_at\":"@
        + completion_json(e.completed_at) + "}"@
}

/// The digest that a finalized engram must carry.
pub open spec fn expected_hash(e: Engram) -> Seq<char> {
    blake3_hex(canonical(e))
}

/// The stored digest matches the content.
pub open spec fn is_intact(e: Engram) -> bool {
    e.content_hash is Some && e.content_hash->Some_0@ == expected_hash(e)
}

fn push_uuid_json(s: &mut String, id: u128)
    ensures
        final(s)@ == old(s)@ + uuid_json(id),
{
    s.append("\"");
    let t = uuid_text(id);
    s.append(t.as_str());
    s.append("\"");
}

fn push_instant_json(s: &mut String, nanos: i64)
    ensures
        final(s)@ == old(s)@ + instant_json(nanos),
{
    s.append("\"");
    let t = rfc3339_text(nanos);
    s.append(t.as_str());
    s.append("\"");
}

fn push_quoted(s: &mut String, v: &str)
    ensures
        final(s)@ == old(s)@ + json_quoted(v@),
{
    let q = json_string(v);
    s.append(q.as_str());
}

fn decision_text(d: &Decision) -> (r: String)
    ensures
        r@ == decision_json(*d),
{
    let mut s = String::from_str("{\"choice\":");
    push_quoted(&mut s, d.choice.as_str());
    s.append(",\"rationale\":");
    push_quoted(&mut s, d.rationale.as_str());
    s.append(",\"confidence\":");
    s.append(d.confidence.as_str());
    s.append(",\"timestamp\":");
    push_instant_json(&mut s, d.timestamp);
    s.append("}");
    s
}

fn alternative_text(a: &Alternative) -> (r: String)
    ensures
        r@ == alternative_json(*a),
{
    let mut s = String::from_str("{\"option\":");
    push_quoted(&mut s, a.option.as_str());
    s.append(",\"rejection_reason\":");
    push_quoted(&mut s, a.rejection_reason.as_str());
    s.append("}");
    s
}

fn action_text(a: &Action) -> (r: String)
    ensures
        r@ == action_json(*a),
{
    let mut s = String::from_str("{\"action_type\":");
    push_quoted(&mut s, a.action_type.as_str());
    s.append(",\"description\":");
    push_quoted(&mut s, a.description.as_str());
    s.append(",\"details\":");
    s.append(a.details.as_str());
    s.append(",\"success\":");
    if a.success {
        s.append("true");
    } else {
        s.append("false");
    }
    s.append(",\"timestamp\":");
    push_instant_json(&mut s, a.timestamp);
    s.append("}");
    s
}

proof fn lemma_joined_step(items: Seq<Seq<char>>, i: int)
    requires
        0 <= i < items.len(),
    ensures
        joined(items.take(i + 1)) == if i == 0 {
            items[0]
        } else {
            joined(items.take(i)) + ","@ + items[i]
        },
{
    let t = items.take(i + 1);
    assert(t.drop_last() =~= items.take(i));
    assert(t.last() == items[i]);
    if i == 0 {
        assert(t.len() == 1);
    }
}

fn decisions_text(ds: &Vec<Decision>) -> (r: String)
    ensures
        r@ == joined(ds@.map_values(|d: Decision| decision_json(d))),
{
    let ghost items = ds@.map_values(|d: Decision| decision_json(d));
    let mut s = String::new();
    let mut i: usize = 0;
    while i < ds.len()
        invariant
            items == ds@.map_values(|d: Decision| decision_json(d)),
            i <= ds@.len(),
            s@ == joined(items.take(i as int)),
        decreases ds@.len() - i,
    {
        proof {
            lemma_joined_step(items, i as int);
        }
        if i > 0 {
            s.append(",");
        }
        let t = decision_text(&ds[i]);
        s.append(t.as_str());
        i += 1;
    }
    assert(items.take(ds@.len() as int) =~= items);
    s
}

fn alternatives_text(xs: &Vec<Alternative>) -> (r: String)
    ensures
        r@ == joined(xs@.map_values(|a: Alternative| alternative_json(a))),
{
    let ghost items = xs@.map_values(|a: Alternative| alternative_json(a));
    let mut s = String::new();
    let mut i: usize = 0;
    while i < xs.len()
        invariant
            items == xs@.map_values(|a: Alternative| alternative_json(a)),
            i <= xs@.len(),
            s@ == joined(items.take(i as int)),
        decreases xs@.len() - i,
    {
        proof {
            lemma_joined_step(items, i as int);
        }
        if i > 0 {
            s.append(",");
        }
        let t = alternative_text(&xs[i]);
        s.append(t.as_str());
        i += 1;
    }
    assert(items.take(xs@.len() as int) =~= items);
    s
}

fn actions_text(xs: &Vec<Action>) -> (r: String)
    ensures
        r@ == joined(xs@.map_values(|a: Action| action_json(a))),
{
    let ghost items = xs@.map_values(|a: Action| action_json(a));
    let mut s = String::new();
    let mut i: usize = 0;
    while i < xs.len()
        invariant
            items == xs@.map_values(|a: Action| action_json(a)),
            i <= xs@.len(),
            s@ == joined(items.take(i as int)),
        decreases xs@.len() - i,
    {
        proof {
            lemma_joined_step(items, i as int);
        }
        if i > 0 {
            s.append(",");
        }
        let t = action_text(&xs[i]);
        s.append(t.as_str());
        i += 1;
    }
    assert(items.take(xs@.len() as int) =~= items);
    s
}

impl Engram {
    /// The canonical text that the content digest covers.
    pub fn canonical_text(&self) -> (r: String)
        ensures
            r@ == canonical(*self),
    {
        let mut s = String::from_str("{\"id\":");
        push_uuid_json(&mut s, self.id.0);
        s.append(",\"tenant_id\":");
        push_uuid_json(&mut s, self.tenant_id);
        s.append(",\"agent_id\":");
        push_quoted(&mut s, self.agent_id.as_str());
        s.append(",\"intent\":");
        push_quoted(&mut s, self.intent.as_str());
        s.append(",\"context\":");
        s.append(self.context.as_str());
        s.append(",\"decisions\":[");
        let t = decisions_text(&self.decisions);
        s.append(t.as_str());
        s.append("],\"alternatives\":[");
        let t = alternatives_text(&self.alternatives);
        s.append(t.as_str());
        s.append("],\"actions\":[");
        let t = actions_text(&self.actions);
        s.append(t.as_str());
        s.append("],\"started_at\":");
        push_instant_json(&mut s, self.started_at);
        s.append(",\"completed_at\":");
        match self.completed_at {
            Some(t) => push_instant_json(&mut s, t),
            None => s.append("null"),
        }
        s.append("}");
        s
    }

    /// BLAKE3 digest of the canonical text, lower-case hex.
    pub fn compute_hash(&self) -> (r: String)
        ensures
            r@ == expected_hash(*self),
            is_hex_digest(r@),
    {
        let text = self.canonical_text();
        digest_hex(text.as_str())
    }

    /// Whether the stored digest matches a freshly computed one.
    pub fn verify_integrity(&self) -> (r: bool)
        ensures
            r == is_intact(*self),
    {
        match &self.content_hash {
            Some(stored) => {
                let fresh = self.compute_hash();
                str_eq(stored.as_str(), fresh.as_str())
            },
            None => false,
        }
    }
}

/// Builds an engram step by step; the id is known from the start.
pub struct EngramSession {
    engram: Engram,
}

impl EngramSession {
    /// The engram recorded so far.
    pub closed spec fn recorded(&self) -> Engram {
        self.engram
    }

    /// Opens a session with the given id and start time.
    pub fn open(id: EngramId, tenant_id: u128, agent_id: &str, intent: &str, started_at: i64) -> (r:
        EngramSession)
        ensures
            r.recorded().id == id,
            r.recorded().tenant_id == tenant_id,
            r.recorded().agent_id@ == agent_id@,
            r.recorded().intent@ == intent@,
            r.recorded().context@ == "null"@,
            r.recorded().decisions@.len() == 0,
            r.recorded().alternatives@.len() == 0,
            r.recorded().actions@.len() == 0,
            r.recorded().started_at == started_at,
            r.recorded().completed_at is None,
            r.recorded().content_hash is None,
    {
        EngramSession {
            engram: Engram {
                id,
                tenant_id,
                agent_id: String::from_str(agent_id),
                intent: String::from_str(intent),
                context: String::from_str("null"),
                decisions: Vec::new(),
                alternatives: Vec::new(),
                actions: Vec::new(),
                started_at,
                completed_at: None,
                content_hash: None,
            },
        }
    }

    /// Opens a session with a fresh random id, started now.
    pub fn new(tenant_id: u128, agent_id: &str, intent: &str) -> (r: EngramSession)
        ensures
            r.recorded().tenant_id == tenant_id,
            r.recorded().agent_id@ == agent_id@,
            r.recorded().intent@ == intent@,
            r.recorded().decisions@.len() == 0,
            r.recorded().alternatives@.len() == 0,
            r.recorded().actions@.len() == 0,
            r.recorded().completed_at is None,
            r.recorded().content_hash is None,
    {
        let id = EngramId::new();
        let started_at = match now_nanos() {
            Some(t) => t,
            None => 0,
        };
        EngramSession::open(id, tenant_id, agent_id, intent, started_at)
    }

    /// Sets the context, given as JSON text.
    pub fn set_context(&mut self, context: String)
        ensures
            final(self).recorded() == (Engram { context, ..old(self).recorded() }),
    {
        self.engram.context = context;
    }

    /// Records a decision taken at `timestamp`.
    pub fn add_decision_at(&mut self, choice: &str, rationale: &str, confidence: &str, timestamp: i64)
        ensures
            final(self).recorded().decisions@.len() == old(self).recorded().decisions@.len() + 1,
            final(self).recorded().decisions@.drop_last() == old(self).recorded().decisions@,
            final(self).recorded().decisions@.last().choice@ == choice@,
            final(self).recorded().decisions@.last().rationale@ == rationale@,
            final(self).recorded().decisions@.last().confidence@ == confidence@,
            final(self).recorded().decisions@.last().timestamp == timestamp,
            final(self).recorded() == (Engram {
                decisions: final(self).recorded().decisions,
                ..old(self).recorded()
            }),
    {
        self.engram.decisions.push(
            Decision {
                choice: String::from_str(choice),
                rationale: String::from_str(rationale),
                confidence: String::from_str(confidence),
                timestamp,
            },
        );
        assert(self.engram.decisions@.drop_last() =~= old(self).recorded().decisions@);
    }

    /// Records a decision taken now.
    pub fn add_decision(&mut self, choice: &str, rationale: &str, confidence: &str)
        ensures
            final(self).recorded().decisions@.len() == old(self).recorded().decisions@.len() + 1,
            final(self).recorded().decisions@.drop_last() == old(self).recorded().decisions@,
            final(self).recorded().decisions@.last().choice@ == choice@,
            final(self).recorded().decisions@.last().rationale@ == rationale@,
            final(self).recorded().decisions@.last().confidence@ == confidence@,
            final(self).recorded() == (Engram {
                decisions: final(self).recorded().decisions,
                ..old(self).recorded()
            }),
    {
        let now = match now_nanos() {
            Some(t) => t,
            None => 0,
        };
        self.add_decision_at(choice, rationale, confidence, now);
    }

    /// Records a rejected alternative.
    pub fn add_alternative(&mut self, option: &str, rejection_reason: &str)
        ensures
            final(self).recorded().alternatives@.len() == old(self).recorded().alternatives@.len()
                + 1,
            final(self).recorded().alternatives@.drop_last() == old(self).recorded().alternatives@,
            final(self).recorded().alternatives@.last().option@ == option@,
            final(self).recorded().alternatives@.last().rejection_reason@ == rejection_reason@,
            final(self).recorded() == (Engram {
                alternatives: final(self).recorded().alternatives,
                ..old(self).recorded()
            }),
    {
        self.engram.alternatives.push(
            Alternative {
                option: String::from_str(option),
                rejection_reason: String::from_str(rejection_reason),
            },
        );
        assert(self.engram.alternatives@.drop_last() =~= old(self).recorded().alternatives@);
    }

    /// Records an action performed at `timestamp`; `details` is JSON text.
    pub fn add_action_at(
        &mut self,
        action_type: &str,
        description: &str,
        details: String,
        success: bool,
        timestamp: i64,
    )
        ensures
            final(self).recorded().actions@.len() == old(self).recorded().actions@.len() + 1,
            final(self).recorded().actions@.drop_last() == old(self).recorded().actions@,
            final(self).recorded().actions@.last().action_type@ == action_type@,
            final(self).recorded().actions@.last().description@ == description@,
            final(self).recorded().actions@.last().details == details,
            final(self).recorded().actions@.last().success == success,
            final(self).recorded().actions@.last().timestamp == timestamp,
            final(self).recorded() == (Engram {
                actions: final(self).recorded().actions,
                ..old(self).recorded()
            }),
    {
        self.engram.actions.push(
            Action {
                action_type: String::from_str(action_type),
                description: String::from_str(description),
                details,
                success,
                timestamp,
            },
        );
        assert(self.engram.actions@.drop_last() =~= old(self).recorded().actions@);
    }

    /// Records an action performed now; `details` is JSON text.
    pub fn add_action(&mut self, action_type: &str, description: &str, details: String, success: bool)
        ensures
            final(self).recorded().actions@.len() == old(self).recorded().actions@.len() + 1,
            final(self).recorded().actions@.drop_last() == old(self).recorded().actions@,
            final(self).recorded().actions@.last().action_type@ == action_type@,
            final(self).recorded().actions@.last().description@ == description@,
            final(self).recorded().actions@.last().details == details,
            final(self).recorded().actions@.last().success == success,
            final(self).recorded() == (Engram {
                actions: final(self).recorded().actions,
                ..old(self).recorded()
            }),
    {
        let now = match now_nanos() {
            Some(t) => t,
            None => 0,
        };
        self.add_action_at(action_type, description, details, success, now);
    }

    /// The id of the engram being recorded.
    pub fn id(&self) -> (r: EngramId)
        ensures
            r == self.recorded().id,
    {
        self.engram.id
    }

    /// Closes the session at `completed_at` and seals it with its digest.
    pub fn finalize_at(self, completed_at: i64) -> (e: Engram)
        ensures
            e == (Engram {
                completed_at: Some(completed_at),
                content_hash: e.content_hash,
                ..self.recorded()
            }),
            e.content_hash is Some,
            e.content_hash->Some_0@ == expected_hash(e),
            is_hex_digest(e.content_hash->Some_0@),
            is_intact(e),
    {
        let mut e = self.engram;
        e.completed_at = Some(completed_at);
        let hash = e.compute_hash();
        let ghost sealed_before = e;
        e.content_hash = Some(hash);
        assert(canonical(e) == canonical(sealed_before));
        e
    }

    /// Closes the session now and seals it with its digest.
    pub fn finalize(self) -> (e: Engram)
        ensures
            e.id == self.recorded().id,
            e.tenant_id == self.recorded().tenant_id,
            e.agent_id == self.recorded().agent_id,
            e.intent == self.recorded().intent,
            e.context == self.recorded().context,
            e.decisions == self.recorded().decisions,
            e.alternatives == self.recorded().alternatives,
            e.actions == self.recorded().actions,
            e.started_at == self.recorded().started_at,
            e.completed_at is Some,
            e.content_hash is Some,
            is_hex_digest(e.content_hash->Some_0@),
            is_intact(e),
    {
        let now = match now_nanos() {
            Some(t) => t,
            None => 0,
        };
        self.finalize_at(now)
    }
}

/// Failures of the engram store.
#[derive(Debug)]
pub enum StoreError {
    NotFound(EngramId),
    IntegrityViolation(EngramId),
    NotFinalized,
    Io(String),
    Serialization(String),
}

/// Save admits only finalized engrams.
pub fn check_saveable(e: &Engram) -> (r: Result<(), StoreError>)
    ensures
        r is Ok <==> e.content_hash is Some,
        r is Err ==> r->Err_0 is NotFinalized,
{
    match &e.content_hash {
        Some(_) => Ok(()),
        None => Err(StoreError::NotFinalized),
    }
}

/// A retrieved engram is handed out only when its digest matches its content.
pub fn check_retrieved(e: Engram) -> (r: Result<Engram, StoreError>)
    ensures
        is_intact(e) ==> r == Ok::<Engram, StoreError>(e),
        !is_intact(e) ==> r is Err && r->Err_0 == StoreError::IntegrityViolation(e.id),
{
    if e.verify_integrity() {
        Ok(e)
    } else {
        let id = e.id;
        Err(StoreError::IntegrityViolation(id))
    }
}

/// Filters for listing engrams; an absent filter admits everything.
pub struct EngramQuery {
    pub tenant_id: Option<u128>,
    pub agent_id: Option<String>,
    pub session_id: Option<EngramId>,
    /// Earliest start, inclusive, in nanoseconds since the epoch.
    pub from: Option<i64>,
    /// Latest start, inclusive, in nanoseconds since the epoch.
    pub to: Option<i64>,
}

pub open spec fn admits(q: EngramQuery, e: Engram) -> bool {
    &&& (q.tenant_id matches Some(t) ==> e.tenant_id == t)
    &&& (q.agent_id matches Some(a) ==> e.agent_id@ == a@)
    &&& (q.session_id matches Some(s) ==> e.id == s)
    &&& (q.from matches Some(f) ==> e.started_at >= f)
    &&& (q.to matches Some(t) ==> e.started_at <= t)
}

/// Whether an engram passes every filter of the query.
pub fn matches_query(e: &Engram, q: &EngramQuery) -> (r: bool)
    ensures
        r == admits(*q, *e),
{
    if let Some(t) = q.tenant_id {
        if e.tenant_id != t {
            return false;
        }
    }
    if let Some(a) = &q.agent_id {
        if !str_eq(e.agent_id.as_str(), a.as_str()) {
            return false;
        }
    }
    if let Some(s) = q.session_id {
        if e.id.0 != s.0 {
            return false;
        }
    }
    if let Some(f) = q.from {
        if e.started_at < f {
            return false;
        }
    }
    if let Some(t) = q.to {
        if e.started_at > t {
            return false;
        }
    }
    true
}

impl Default for EngramQuery {
    fn default() -> (q: EngramQuery)
        ensures
            q.tenant_id is None,
            q.agent_id is None,
            q.session_id is None,
            q.from is None,
            q.to is None,
    {
        EngramQuery { tenant_id: None, agent_id: None, session_id: None, from: None, to: None }
    }
}

/// Engrams ordered by start, latest first.
pub open spec fn latest_first(es: Seq<Engram>) -> bool {
    forall|a: int, b: int| 0 <= a < b < es.len() ==> es[a].started_at >= es[b].started_at
}

/// The engrams that the query admits, latest start first.
pub fn select_engrams(all: Vec<Engram>, q: &EngramQuery) -> (r: Vec<Engram>)
    ensures
        r@.len() == all@.filter(|e: Engram| admits(*q, e)).len(),
        r@.to_multiset() == all@.filter(|e: Engram| admits(*q, e)).to_multiset(),
        latest_first(r@),
        forall|i: int| 0 <= i < r@.len() ==> admits(*q, #[trigger] r@[i]),
        forall|i: int| 0 <= i < r@.len() ==> all@.contains(#[trigger] r@[i]),
{
    let ghost f = |e: Engram| admits(*q, e);
    let ghost orig = all@;
    let n_all = all.len();
    let mut rest = all;
    let mut rev: Vec<Engram> = Vec::new();
    while rest.len() > 0
        invariant
            rest@.len() + rev@.len() == orig.len(),
            forall|k: int| 0 <= k < rest@.len() ==> #[trigger] rest@[k] == orig[k],
            forall|k: int| 0 <= k < rev@.len() ==> #[trigger] rev@[k] == orig[orig.len() - 1 - k],
        decreases rest@.len(),
    {
        let e = rest.pop().unwrap();
        rev.push(e);
    }
    let mut out: Vec<Engram> = Vec::new();
    let mut k: usize = 0;
    assert(orig.take(0).filter(f) =~= out@);
    while rev.len() > 0
        invariant
            f == (|e: Engram| admits(*q, e)),
            n_all == orig.len(),
            k + rev@.len() == orig.len(),
            forall|m: int| 0 <= m < rev@.len() ==> #[trigger] rev@[m] == orig[orig.len() - 1 - m],
            out@.len() == orig.take(k as int).filter(f).len(),
            out@.to_multiset() == orig.take(k as int).filter(f).to_multiset(),
            latest_first(out@),
            forall|i: int| 0 <= i < out@.len() ==> admits(*q, #[trigger] out@[i]),
            forall|i: int| 0 <= i < out@.len() ==> orig.contains(#[trigger] out@[i]),
        decreases rev@.len(),
    {
        let e = rev.pop().unwrap();
        assert(e == orig[k as int]);
        proof {
            assert(orig.take(k + 1) =~= orig.take(k as int).push(orig[k as int]));
            orig.take(k as int).lemma_filter_push(orig[k as int], f);
        }
        if matches_query(&e, q) {
            let start = e.started_at;
            let mut pos: usize = out.len();
            while pos > 0 && out[pos - 1].started_at < start
                invariant
                    pos <= out@.len(),
                    forall|i: int| pos <= i < out@.len() ==> out@[i].started_at < start,
                decreases pos,
            {
                pos -= 1;
            }
            let ghost before = out@;
            out.insert(pos, e);
            proof {
                vstd::seq_lib::to_multiset_insert(before, pos as int, e);
                vstd::seq_lib::to_multiset_build(orig.take(k as int).filter(f), e);
                assert forall|a: int, b: int|
                    #![trigger out@[a], out@[b]]
                    0 <= a < b < out@.len() implies out@[a].started_at >= out@[b].started_at by {
                    if b < pos {
                    } else if b == pos {
                        if pos > 0 {
                            assert(before[pos - 1].started_at >= start);
                            assert(before[a].started_at >= before[pos - 1].started_at);
                        }
                    } else if a < pos {
                        assert(out@[b] == before[b - 1]);
                    } else if a == pos {
                        assert(out@[b] == before[b - 1]);
                    } else {
                        assert(out@[a] == before[a - 1]);
                        assert(out@[b] == before[b - 1]);
                    }
                }
                assert forall|i: int| 0 <= i < out@.len() implies admits(*q, #[trigger] out@[i])
                    && orig.contains(out@[i]) by {
                    if i < pos {
                        assert(out@[i] == before[i]);
                    } else if i > pos {
                        assert(out@[i] == before[i - 1]);
                    }
                }
            }
        }
        k += 1;
    }
    assert(orig.take(orig.len() as int) =~= orig);
    out
}

} // verus!
