//! Desired-config polling.
//!
//! The agent periodically asks the edge what config it should be running and,
//! when the answer's version changes:
//!
//!   1. verifies the HMAC-SHA256 signature using the per-tenant key it learned
//!      at enrollment (defence-in-depth: the bearer already authenticates the
//!      channel);
//!   2. computes the effective config, the overlay that the edge serves laid
//!      over the operator's on-disk `agent.toml`;
//!   3. writes the effective TOML next to the base file and signals the main
//!      loop to rebuild the pipeline.
//!
//! Overlay semantics: recursive table merge. Nested tables merge key-by-key;
//! scalars and arrays replace wholesale. The base file is never mutated.

use base64::Engine;
use hmac::Mac;
use vstd::prelude::*;

use crate::enrollment;
use crate::enrollment::AgentCredentials;
use crate::number;
use crate::payload;
use crate::text;
use crate::tomltree;
use crate::tomltree::TomlView;

verus! {

/// How often to poll the edge for a new config, in seconds.
pub const POLL_INTERVAL_SECS: u64 = 60;

// ---------------------------------------------------------------------------
// Applied version
// ---------------------------------------------------------------------------

/// The currently-applied config version. Checkins advertise it as the
/// `configHash`, so that the portal's drift indicator clears.
#[derive(Debug, Clone, Copy, PartialEq, Eq, Structural)]
pub struct AppliedVersion {
    version: u32,
}

impl View for AppliedVersion {
    type V = u32;

    closed spec fn view(&self) -> u32 {
        self.version
    }
}

impl AppliedVersion {
    /// No version is applied yet.
    pub fn new() -> (r: Self)
        ensures
            r@ == 0,
    {
        AppliedVersion { version: 0 }
    }

    pub fn get(&self) -> (r: u32)
        ensures
            r == self@,
    {
        self.version
    }

    pub fn set(&mut self, v: u32)
        ensures
            final(self)@ == v,
    {
        self.version = v;
    }

    /// The version as checkins advertise it.
    pub fn config_hash(&self) -> (r: String)
        ensures
            r@ == number::dec(self@ as nat),
    {
        number::dec_u64(self.version as u64)
    }
}

impl Default for AppliedVersion {
    fn default() -> (r: Self)
        ensures
            r@ == 0,
    {
        AppliedVersion::new()
    }
}

// ---------------------------------------------------------------------------
// Key and request
// ---------------------------------------------------------------------------

/// What `base64`'s standard engine decodes a text to; none where it gives an
/// error.
pub uninterp spec fn base64_decode(text: Seq<char>) -> Option<Seq<u8>>;

/// `base64::engine::general_purpose::STANDARD.decode`. The result rests on the
/// text alone and goes by the name `base64_decode`.
#[verifier::external_body]
fn decode_base64(text: &str) -> (r: Option<Vec<u8>>)
    ensures
        match r {
            Some(b) => base64_decode(text@) == Some(b@),
            None => base64_decode(text@) is None,
        },
{
    base64::engine::general_purpose::STANDARD.decode(text).ok()
}

/// Whether, and with which key, the agent polls.
#[derive(Debug)]
pub enum PollingKey {
    /// There is no server or no key: the agent does not poll.
    Disabled,
    /// The key is not valid base64: the agent does not poll.
    Invalid,
    Key(Vec<u8>),
}

/// Whether, and with which key, the agent polls.
pub fn polling_key(creds: &AgentCredentials) -> (r: PollingKey)
    ensures
        match r {
            PollingKey::Disabled => creds.base_url@.len() == 0 || creds.hmac_key_b64@.len() == 0,
            PollingKey::Invalid => creds.base_url@.len() > 0 && creds.hmac_key_b64@.len() > 0
                && base64_decode(creds.hmac_key_b64@) is None,
            PollingKey::Key(k) => creds.base_url@.len() > 0 && creds.hmac_key_b64@.len() > 0
                && base64_decode(creds.hmac_key_b64@) == Some(k@),
        },
{
    if creds.base_url.as_str().is_empty() || creds.hmac_key_b64.as_str().is_empty() {
        return PollingKey::Disabled;
    }
    match decode_base64(creds.hmac_key_b64.as_str()) {
        Some(k) => PollingKey::Key(k),
        None => PollingKey::Invalid,
    }
}

/// The URL and the bearer token of the poll.
pub fn poll_request(creds: &AgentCredentials) -> (r: (String, String))
    ensures
        r.0@ == payload::url_of(creds.base_url@, "/api/agent/v1/config"@),
        r.1@ == enrollment::bearer_of(creds@),
{
    (payload::url(creds.base_url.as_str(), "/api/agent/v1/config"), enrollment::bearer(creds))
}

/// Edge response payload for /api/agent/v1/config.
#[derive(Debug)]
pub struct ConfigResponse {
    pub tenant_id: String,
    pub group_id: String,
    pub version: u32,
    pub overlay_toml: String,
    pub signature: String,
}

// ---------------------------------------------------------------------------
// Signature
// ---------------------------------------------------------------------------

/// The HMAC-SHA256 of a message under a key.
pub uninterp spec fn hmac_sha256(key: Seq<u8>, message: Seq<u8>) -> Seq<u8>;

/// `hmac::Hmac<sha2::Sha256>`: `new_from_slice`, which takes keys of any
/// length, `update` with the message, and `finalize`. The result rests on the
/// key and the message alone and goes by the name `hmac_sha256`; it is 32
/// bytes long.
#[verifier::external_body]
fn sign(key: &[u8], message: &[u8]) -> (r: Vec<u8>)
    ensures
        r@ == hmac_sha256(key@, message@),
        r@.len() == 32,
{
    let mut mac = hmac::Hmac::<sha2::Sha256>::new_from_slice(key).expect("any key length");
    mac.update(message);
    mac.finalize().into_bytes().to_vec()
}

/// The text that the edge signs.
pub open spec fn canonical(
    tenant_id: Seq<char>,
    group_id: Seq<char>,
    version: u32,
    overlay_toml: Seq<char>,
) -> Seq<char> {
    "v1|"@ + tenant_id + "|"@ + group_id + "|"@ + number::dec(version as nat) + "|"@ + overlay_toml
}

/// The upper-case hexadecimal digit of `n`.
pub open spec fn hex_digit(n: int) -> char {
    if n < 10 {
        (48 + n) as char
    } else {
        (55 + n) as char
    }
}

/// The bytes as upper-case hexadecimal digits.
pub open spec fn hex(bytes: Seq<u8>) -> Seq<char>
    decreases bytes.len(),
{
    if bytes.len() == 0 {
        Seq::empty()
    } else {
        hex(bytes.drop_last()).push(hex_digit(bytes.last() as int / 16)).push(
            hex_digit(bytes.last() as int % 16),
        )
    }
}

/// The signature of a config response under a key.
pub open spec fn signature_of(key: Seq<u8>, tenant_id: Seq<char>, p: ConfigResponse) -> Seq<char> {
    hex(
        hmac_sha256(
            key,
            vstd::utf8::encode_utf8(
                canonical(tenant_id, p.group_id@, p.version, p.overlay_toml@),
            ),
        ),
    )
}

fn digit_char(n: u8) -> (r: char)
    requires
        n < 16,
    ensures
        r == hex_digit(n as int),
{
    if n < 10 {
        (48 + n) as char
    } else {
        (55 + n) as char
    }
}

/// The bytes as upper-case hexadecimal digits.
pub fn hex_upper(bytes: &[u8]) -> (r: String)
    ensures
        r@ == hex(bytes@),
{
    let mut out = String::new();
    let mut i: usize = 0;
    while i < bytes.len()
        invariant
            i <= bytes@.len(),
            out@ == hex(bytes@.take(i as int)),
        decreases bytes@.len() - i,
    {
        assert(bytes@.take(i + 1).drop_last() =~= bytes@.take(i as int));
        out.push(digit_char(bytes[i] / 16));
        out.push(digit_char(bytes[i] % 16));
        i = i + 1;
    }
    assert(bytes@.take(i as int) =~= bytes@);
    out
}

/// Whether two rows of bytes are the same. Every byte is looked at, wherever
/// they first differ.
pub fn constant_time_eq(a: &[u8], b: &[u8]) -> (r: bool)
    ensures
        r == (a@ == b@),
{
    if a.len() != b.len() {
        return false;
    }
    let mut diff: u8 = 0;
    let mut i: usize = 0;
    while i < a.len()
        invariant
            i <= a@.len(),
            a@.len() == b@.len(),
            diff == 0 <==> (forall|j: int| 0 <= j < i ==> #[trigger] a@[j] == b@[j]),
        decreases a@.len() - i,
    {
        let x: u8 = a[i];
        let y: u8 = b[i];
        let before: u8 = diff;
        diff = before | (x ^ y);
        assert((before | (x ^ y)) == 0 <==> before == 0 && x == y) by (bit_vector);
        i = i + 1;
    }
    if diff == 0 {
        assert(a@ =~= b@);
    }
    diff == 0
}

/// Whether a config response carries the given signature.
pub fn carries_signature(p: &ConfigResponse, expected: &[u8]) -> (r: bool)
    ensures
        r == (p.signature@ == hex(expected@)),
{
    let expected_hex = hex_upper(expected);
    let same = constant_time_eq(
        expected_hex.as_str().as_bytes(),
        p.signature.as_str().as_bytes(),
    );
    proof {
        if same {
            text::lemma_utf8_is_injective(expected_hex@, p.signature@);
        }
    }
    same
}

/// Recompute the canonical bytes the edge signed and check the HMAC.
pub fn verify(key: &[u8], tenant_id: &str, p: &ConfigResponse) -> (r: Result<(), PollError>)
    ensures
        r is Ok <==> p.signature@ == signature_of(key@, tenant_id@, *p),
        r is Err ==> r->Err_0 == PollError::SignatureMismatch,
{
    let version = number::dec_u64(p.version as u64);
    let mut signed = text::cat4("v1|", tenant_id, "|", p.group_id.as_str());
    signed.append("|");
    signed.append(version.as_str());
    signed.append("|");
    signed.append(p.overlay_toml.as_str());
    assert(signed@ == canonical(tenant_id@, p.group_id@, p.version, p.overlay_toml@));
    let expected = sign(key, signed.as_str().as_bytes());
    if carries_signature(p, expected.as_slice()) {
        Ok(())
    } else {
        Err(PollError::SignatureMismatch)
    }
}

/// What the edge signs for a tenant, a group and an overlay names the version:
/// two versions are never signed as one text.
pub proof fn law_signed_text_fixes_the_version(
    tenant_id: Seq<char>,
    group_id: Seq<char>,
    overlay_toml: Seq<char>,
    a: u32,
    b: u32,
)
    requires
        canonical(tenant_id, group_id, a, overlay_toml) == canonical(
            tenant_id,
            group_id,
            b,
            overlay_toml,
        ),
    ensures
        a == b,
{
    let head = "v1|"@ + tenant_id + "|"@ + group_id + "|"@;
    let tail = "|"@ + overlay_toml;
    let x = number::dec(a as nat);
    let y = number::dec(b as nat);
    let whole = canonical(tenant_id, group_id, a, overlay_toml);
    assert(whole =~= head + x + tail);
    assert(whole =~= head + y + tail);
    assert(x.len() == y.len());
    assert(x =~= whole.subrange(head.len() as int, (head.len() + x.len()) as int));
    assert(y =~= whole.subrange(head.len() as int, (head.len() + x.len()) as int));
    number::lemma_dec_is_injective(a as nat, b as nat);
}

// ---------------------------------------------------------------------------
// Decision
// ---------------------------------------------------------------------------

/// Why a poll comes to nothing.
#[derive(Debug, Clone, Copy, PartialEq, Eq, Structural)]
pub enum PollError {
    /// Neither the response nor the credentials name the tenant.
    NoTenant,
    /// The response is not signed with the agent's key.
    SignatureMismatch,
}

impl PollError {
    /// The error in words.
    pub open spec fn words(self) -> Seq<char> {
        match self {
            PollError::NoTenant => "no tenant id available to verify config signature"@,
            PollError::SignatureMismatch => "config signature mismatch — refusing to apply"@,
        }
    }

    /// The error in words.
    pub fn message(&self) -> (r: String)
        ensures
            r@ == self.words(),
    {
        match self {
            PollError::NoTenant => "no tenant id available to verify config signature".to_owned(),
            PollError::SignatureMismatch =>
                "config signature mismatch — refusing to apply".to_owned(),
        }
    }
}

/// What is done about a config response.
#[derive(Debug, Clone, Copy, PartialEq, Eq, Structural)]
pub enum Step {
    /// Nothing: the version is applied already.
    Unchanged,
    /// The version is recorded, and the base config stays in place.
    Record,
    /// The overlay is laid over the base config, the result is written, the
    /// version is recorded and the pipeline is rebuilt.
    Apply,
}

/// What is done about a config response that is signed: an applied version is
/// left alone while its effective file is there, and on first contact an empty
/// overlay of the default group is only recorded.
pub open spec fn step_of(p: ConfigResponse, current: u32, effective_exists: bool) -> Step {
    if p.version == current && effective_exists {
        Step::Unchanged
    } else if current == 0 && text::is_blank(p.overlay_toml@) && p.group_id@ == "default"@ {
        Step::Record
    } else {
        Step::Apply
    }
}

/// What is done about a config response that is signed.
pub fn decide(p: &ConfigResponse, current: u32, effective_exists: bool) -> (r: Step)
    ensures
        r == step_of(*p, current, effective_exists),
{
    if p.version == current && effective_exists {
        Step::Unchanged
    } else if current == 0 && text::blank(p.overlay_toml.as_str()) && text::str_eq(
        p.group_id.as_str(),
        "default",
    ) {
        Step::Record
    } else {
        Step::Apply
    }
}

/// The tenant that signed a response: as the response says, or else as the
/// credentials do.
pub open spec fn tenant_of(creds: AgentCredentials, p: ConfigResponse) -> Seq<char> {
    if p.tenant_id@.len() == 0 {
        creds.tenant_id@
    } else {
        p.tenant_id@
    }
}

/// What is done about a config response: nothing at all unless it is signed
/// with the agent's key.
pub fn review(
    creds: &AgentCredentials,
    key: &[u8],
    p: &ConfigResponse,
    current: u32,
    effective_exists: bool,
) -> (r: Result<Step, PollError>)
    ensures
        match r {
            Ok(step) => tenant_of(*creds, *p).len() > 0 && p.signature@ == signature_of(
                key@,
                tenant_of(*creds, *p),
                *p,
            ) && step == step_of(*p, current, effective_exists),
            Err(PollError::NoTenant) => tenant_of(*creds, *p).len() == 0,
            Err(PollError::SignatureMismatch) => tenant_of(*creds, *p).len() > 0 && p.signature@
                != signature_of(key@, tenant_of(*creds, *p), *p),
        },
{
    let tenant_id = if p.tenant_id.as_str().is_empty() {
        creds.tenant_id.as_str()
    } else {
        p.tenant_id.as_str()
    };
    if tenant_id.is_empty() {
        return Err(PollError::NoTenant);
    }
    match verify(key, tenant_id, p) {
        Ok(_) => Ok(decide(p, current, effective_exists)),
        Err(e) => Err(e),
    }
}

/// Applying a version settles it: once it is on record and its effective file
/// is there, the same response changes nothing.
pub proof fn law_applied_config_is_left_alone(p: ConfigResponse)
    ensures
        step_of(p, p.version, true) == Step::Unchanged,
{
}

// ---------------------------------------------------------------------------
// Merge
// ---------------------------------------------------------------------------

/// Why two configs cannot be merged, with the message that says more.
#[derive(Debug)]
pub enum MergeError {
    /// The base is no TOML.
    Base(String),
    /// The overlay is no TOML.
    Overlay(String),
    /// The result cannot be written.
    Render(String),
}

impl MergeError {
    /// The error in words.
    pub open spec fn words(self) -> Seq<char> {
        match self {
            MergeError::Base(e) => "parse base config: "@ + e@,
            MergeError::Overlay(e) => "parse overlay config: "@ + e@,
            MergeError::Render(e) => "serialise merged config: "@ + e@,
        }
    }

    /// The error in words.
    pub fn message(&self) -> (r: String)
        ensures
            r@ == self.words(),
    {
        match self {
            MergeError::Base(e) => text::cat2("parse base config: ", e.as_str()),
            MergeError::Overlay(e) => text::cat2("parse overlay config: ", e.as_str()),
            MergeError::Render(e) => text::cat2("serialise merged config: ", e.as_str()),
        }
    }
}

/// What merging two config texts comes to.
pub open spec fn merge_result(
    base_toml: Seq<char>,
    overlay_toml: Seq<char>,
    r: Result<String, MergeError>,
) -> bool {
    if text::is_blank(overlay_toml) {
        r is Ok && r->Ok_0@ == base_toml
    } else {
        match (tomltree::toml_parse(base_toml), tomltree::toml_parse(overlay_toml)) {
            (Err(e), _) => r matches Err(MergeError::Base(m)) && m@ == e,
            (_, Err(e)) => r matches Err(MergeError::Overlay(m)) && m@ == e,
            (Ok(base), Ok(overlay)) => {
                match tomltree::toml_text(tomltree::merged(base, overlay)) {
                    Ok(t) => r is Ok && r->Ok_0@ == t,
                    Err(e) => r matches Err(MergeError::Render(m)) && m@ == e,
                }
            },
        }
    }
}

/// What two config texts come to can be written: they are not both read, or no
/// text of the merge holds more quotes in a row than `toml` counts.
pub open spec fn is_mergeable(base_toml: Seq<char>, overlay_toml: Seq<char>) -> bool {
    match (tomltree::toml_parse(base_toml), tomltree::toml_parse(overlay_toml)) {
        (Ok(base), Ok(overlay)) => text::is_blank(overlay_toml) || tomltree::writable(
            tomltree::merged(base, overlay),
        ),
        _ => true,
    }
}

/// Two configs of plain values can be merged, and the text reads as the one
/// laid over the other.
pub open spec fn merge_is_read_back(
    base_toml: Seq<char>,
    overlay_toml: Seq<char>,
    r: Result<String, MergeError>,
) -> bool {
    match (tomltree::toml_parse(base_toml), tomltree::toml_parse(overlay_toml)) {
        (Ok(base), Ok(overlay)) => {
            let whole = tomltree::merged(base, overlay);
            (!text::is_blank(overlay_toml) && base is Table && overlay is Table && tomltree::plain(
                base,
                tomltree::MAX_NESTING,
            ) && tomltree::plain(overlay, tomltree::MAX_NESTING)) ==> match r {
                Ok(t) => tomltree::read_back(tomltree::toml_parse(t@), whole),
                Err(_) => false,
            }
        },
        _ => true,
    }
}

/// What is read of the effective configuration is, key by key, the overlay laid
/// over the base: the value of the one that names the key, merged where both
/// name it.
pub proof fn law_effective_config_is_the_merge(
    base: Seq<(Seq<char>, TomlView)>,
    overlay: Seq<(Seq<char>, TomlView)>,
    read: Seq<(Seq<char>, TomlView)>,
    key: Seq<char>,
)
    requires
        tomltree::keyed(TomlView::Table(overlay)),
        tomltree::read_back(
            Ok(TomlView::Table(read)),
            tomltree::merged(TomlView::Table(base), TomlView::Table(overlay)),
        ),
    ensures
        match (
            tomltree::lookup(base, key),
            tomltree::lookup(overlay, key),
            tomltree::lookup(read, key),
        ) {
            (Some(b), Some(o), Some(v)) => tomltree::same(v, tomltree::merged(b, o)),
            (None, Some(o), Some(v)) => tomltree::same(v, o),
            (Some(b), None, Some(v)) => tomltree::same(v, b),
            (None, None, None) => true,
            _ => false,
        },
{
    tomltree::law_tables_merge_key_by_key(base, overlay, key);
    tomltree::law_same_tables_hold_the_same(
        read,
        tomltree::merged_pairs(base, overlay),
        key,
    );
}

/// The overlay laid over the base, recursive on tables. Returns the effective
/// TOML as a serialised string. An empty overlay returns the base unchanged.
pub fn merge(base_toml: &str, overlay_toml: &str) -> (r: Result<String, MergeError>)
    requires
        is_mergeable(base_toml@, overlay_toml@),
    ensures
        merge_result(base_toml@, overlay_toml@, r),
        merge_is_read_back(base_toml@, overlay_toml@, r),
{
    if text::blank(overlay_toml) {
        return Ok(base_toml.to_owned());
    }
    let mut base = match tomltree::parse(base_toml) {
        Ok(t) => t,
        Err(e) => {
            return Err(MergeError::Base(e));
        },
    };
    let overlay = match tomltree::parse(overlay_toml) {
        Ok(t) => t,
        Err(e) => {
            return Err(MergeError::Overlay(e));
        },
    };
    proof {
        if tomltree::plain(base@, tomltree::MAX_NESTING) && tomltree::plain(
            overlay@,
            tomltree::MAX_NESTING,
        ) {
            tomltree::law_merge_keeps_trees_plain(base@, overlay@, tomltree::MAX_NESTING);
        }
    }
    tomltree::merge_value(&mut base, overlay);
    match tomltree::render(&base) {
        Ok(t) => Ok(t),
        Err(e) => Err(MergeError::Render(e)),
    }
}

/// Whether what two config texts come to can be written.
pub fn can_merge(base_toml: &str, overlay_toml: &str) -> (r: bool)
    ensures
        r == is_mergeable(base_toml@, overlay_toml@),
{
    match (tomltree::parse(base_toml), tomltree::parse(overlay_toml)) {
        (Ok(base), Ok(overlay)) => {
            let mut whole = base;
            tomltree::merge_value(&mut whole, overlay);
            text::blank(overlay_toml) || tomltree::can_write(&whole)
        },
        _ => true,
    }
}

/// The overlay laid over the base, as by `merge`; none where the result holds
/// more quotes in a row than `toml` counts.
pub fn checked_merge(base_toml: &str, overlay_toml: &str) -> (r: Option<
    Result<String, MergeError>,
>)
    ensures
        match r {
            Some(m) => is_mergeable(base_toml@, overlay_toml@) && merge_result(
                base_toml@,
                overlay_toml@,
                m,
            ) && merge_is_read_back(base_toml@, overlay_toml@, m),
            None => !is_mergeable(base_toml@, overlay_toml@),
        },
{
    if can_merge(base_toml, overlay_toml) {
        Some(merge(base_toml, overlay_toml))
    } else {
        None
    }
}

// ---------------------------------------------------------------------------
// The effective configuration file
// ---------------------------------------------------------------------------

/// The file name of the effective configuration: that of the base
/// configuration with `.effective.toml` in place of its extension, as in
/// `agent.toml` and `agent.effective.toml`. It is made of `agent` where the
/// base path names no file.
pub open spec fn effective_name_of(stem: Option<Seq<char>>) -> Seq<char> {
    (match stem {
        Some(s) => s,
        None => "agent"@,
    }) + ".effective.toml"@
}

/// The file name of the effective configuration, which stands beside the base
/// configuration, given the stem of the base's file name if it has one.
pub fn effective_name(stem: Option<&str>) -> (r: String)
    ensures
        r@ == effective_name_of(
            match stem {
                Some(s) => Some(s@),
                None => None,
            },
        ),
{
    match stem {
        Some(s) => text::cat2(s, ".effective.toml"),
        None => text::cat2("agent", ".effective.toml"),
    }
}

// ---------------------------------------------------------------------------
// Laws
// ---------------------------------------------------------------------------

/// What the edge signs is the tenant, the group, the version and the overlay,
/// with bars between them and behind the mark of the format; nothing of the
/// overlay is left unsigned.
pub proof fn law_everything_is_signed(
    tenant_id: Seq<char>,
    group_id: Seq<char>,
    version: u32,
    overlay_toml: Seq<char>,
    other: Seq<char>,
)
    ensures
        canonical(tenant_id, group_id, version, overlay_toml) == "v1|"@ + tenant_id + "|"@
            + group_id + "|"@ + number::dec(version as nat) + "|"@ + overlay_toml,
        canonical(tenant_id, group_id, version, overlay_toml) == canonical(
            tenant_id,
            group_id,
            version,
            other,
        ) ==> overlay_toml == other,
{
    let head = "v1|"@ + tenant_id + "|"@ + group_id + "|"@ + number::dec(version as nat) + "|"@;
    let a = head + overlay_toml;
    let b = head + other;
    if a == b {
        assert(a.skip(head.len() as int) =~= overlay_toml);
        assert(b.skip(head.len() as int) =~= other);
    }
}

/// Each byte is written as two upper-case hexadecimal digits, the higher first,
/// in the order of the bytes.
pub proof fn law_bytes_are_two_digits_each(bytes: Seq<u8>)
    ensures
        hex(bytes).len() == 2 * bytes.len(),
        forall|i: int|
            #![trigger bytes[i]]
            0 <= i < bytes.len() ==> hex(bytes)[2 * i] == "0123456789ABCDEF"@[bytes[i] as int / 16]
                && hex(bytes)[2 * i + 1] == "0123456789ABCDEF"@[bytes[i] as int % 16],
    decreases bytes.len(),
{
    reveal_strlit("0123456789ABCDEF");
    if bytes.len() > 0 {
        let front = bytes.drop_last();
        law_bytes_are_two_digits_each(front);
        assert forall|i: int| #![trigger bytes[i]] 0 <= i < front.len() implies front[i]
            == bytes[i] by {}
        let last = bytes[bytes.len() - 1];
        lemma_hex_digits(last as int / 16);
        lemma_hex_digits(last as int % 16);
    }
}

proof fn lemma_hex_digits(n: int)
    requires
        0 <= n < 16,
    ensures
        hex_digit(n) == "0123456789ABCDEF"@[n],
{
    reveal_strlit("0123456789ABCDEF");
}

/// The signature of a response is the HMAC, under the agent's key, of what the
/// edge signs.
pub proof fn law_the_signature_covers_the_response(
    key: Seq<u8>,
    tenant_id: Seq<char>,
    p: ConfigResponse,
)
    ensures
        signature_of(key, tenant_id, p) == hex(
            hmac_sha256(
                key,
                vstd::utf8::encode_utf8(
                    "v1|"@ + tenant_id + "|"@ + p.group_id@ + "|"@ + number::dec(p.version as nat)
                        + "|"@ + p.overlay_toml@,
                ),
            ),
        ),
{
}

/// A new version is applied, whether it is higher or lower than the one in
/// place, and so is one whose effective file is gone. The one exception is the
/// first contact with an empty overlay of the default group, which is only
/// recorded.
pub proof fn law_new_versions_are_applied(p: ConfigResponse, current: u32, effective_exists: bool)
    ensures
        p.version == current && effective_exists ==> step_of(p, current, effective_exists)
            == Step::Unchanged,
        p.version != current || !effective_exists ==> {
            &&& current != 0 ==> step_of(p, current, effective_exists) == Step::Apply
            &&& !text::is_blank(p.overlay_toml@) ==> step_of(p, current, effective_exists)
                == Step::Apply
            &&& p.group_id@ != "default"@ ==> step_of(p, current, effective_exists) == Step::Apply
            &&& current == 0 && text::is_blank(p.overlay_toml@) && p.group_id@ == "default"@
                ==> step_of(p, current, effective_exists) == Step::Record
        },
{
}

/// The tenant is the one that the response names, or else the one that the agent
/// enrolled with.
pub proof fn law_the_response_names_the_tenant(creds: AgentCredentials, p: ConfigResponse)
    ensures
        p.tenant_id@.len() > 0 ==> tenant_of(creds, p) == p.tenant_id@,
        p.tenant_id@.len() == 0 ==> tenant_of(creds, p) == creds.tenant_id@,
{
}

/// A blank overlay leaves the base as it is, to the letter. Otherwise both have to
/// be TOML, and the result is the text of the overlay laid over the base.
pub proof fn law_merging_lays_the_overlay_over_the_base(
    base_toml: Seq<char>,
    overlay_toml: Seq<char>,
    r: Result<String, MergeError>,
)
    requires
        merge_result(base_toml, overlay_toml, r),
    ensures
        text::is_blank(overlay_toml) ==> r is Ok && r->Ok_0@ == base_toml,
        !text::is_blank(overlay_toml) ==> {
            &&& tomltree::toml_parse(base_toml) is Err ==> (r matches Err(MergeError::Base(m)) && m@
                == tomltree::toml_parse(base_toml)->Err_0)
            &&& tomltree::toml_parse(base_toml) is Ok && tomltree::toml_parse(overlay_toml) is Err
                ==> (r matches Err(MergeError::Overlay(m)) && m@ == tomltree::toml_parse(
                overlay_toml,
            )->Err_0)
            &&& tomltree::toml_parse(base_toml) is Ok && tomltree::toml_parse(overlay_toml) is Ok
                ==> {
                let t = tomltree::toml_text(
                    tomltree::merged(
                        tomltree::toml_parse(base_toml)->Ok_0,
                        tomltree::toml_parse(overlay_toml)->Ok_0,
                    ),
                );
                &&& t is Ok ==> r is Ok && r->Ok_0@ == t->Ok_0
                &&& t is Err ==> (r matches Err(MergeError::Render(m)) && m@ == t->Err_0)
            }
        },
{
}

/// Each error has its words.
pub proof fn law_poll_errors_have_their_words(e: String)
    ensures
        PollError::NoTenant.words() == "no tenant id available to verify config signature"@,
        PollError::SignatureMismatch.words() == "config signature mismatch — refusing to apply"@,
        MergeError::Base(e).words() == "parse base config: "@ + e@,
        MergeError::Overlay(e).words() == "parse overlay config: "@ + e@,
        MergeError::Render(e).words() == "serialise merged config: "@ + e@,
{
}

/// The effective file is named after the base file, and never like it.
pub proof fn law_the_base_file_is_never_overwritten(stem: Seq<char>)
    ensures
        effective_name_of(Some(stem)) == stem + ".effective.toml"@,
        effective_name_of(None) == "agent"@ + ".effective.toml"@,
        effective_name_of(Some(stem)) != stem + ".toml"@,
{
    reveal_strlit(".effective.toml");
    reveal_strlit(".toml");
    assert(effective_name_of(Some(stem)).len() != (stem + ".toml"@).len());
}

/// Only what is read on both sides and cannot be written is not mergeable.
pub proof fn law_what_is_not_read_is_not_written(base_toml: Seq<char>, overlay_toml: Seq<char>)
    ensures
        tomltree::toml_parse(base_toml) is Err ==> is_mergeable(base_toml, overlay_toml),
        tomltree::toml_parse(overlay_toml) is Err ==> is_mergeable(base_toml, overlay_toml),
        text::is_blank(overlay_toml) ==> is_mergeable(base_toml, overlay_toml),
        tomltree::toml_parse(base_toml) is Ok && tomltree::toml_parse(overlay_toml) is Ok
            && !text::is_blank(overlay_toml) ==> (is_mergeable(base_toml, overlay_toml)
            <==> tomltree::writable(
            tomltree::merged(
                tomltree::toml_parse(base_toml)->Ok_0,
                tomltree::toml_parse(overlay_toml)->Ok_0,
            ),
        )),
{
}

/// Two configs of plain values are merged to a text that reads as the one laid
/// over the other.
pub proof fn law_a_merge_of_plain_configs_is_read_back(
    base_toml: Seq<char>,
    overlay_toml: Seq<char>,
    r: Result<String, MergeError>,
    base: TomlView,
    overlay: TomlView,
)
    requires
        merge_is_read_back(base_toml, overlay_toml, r),
        tomltree::toml_parse(base_toml) == Ok::<TomlView, Seq<char>>(base),
        tomltree::toml_parse(overlay_toml) == Ok::<TomlView, Seq<char>>(overlay),
        !text::is_blank(overlay_toml),
        base is Table,
        overlay is Table,
        tomltree::plain(base, 80),
        tomltree::plain(overlay, 80),
    ensures
        r matches Ok(t) && (tomltree::toml_parse(t@) matches Ok(read) && tomltree::same(
            read,
            tomltree::merged(base, overlay),
        )),
{
}

} // verus!
