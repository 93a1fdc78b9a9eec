//! Webhook ingestion: signature check, freshness check, duplicate
//! suppression, and the mapping of a notification to an internal command.
use vstd::prelude::*;

use crate::primitives::{
    decode_hex, hex_bytes, hmac_sha256, hmac_sha256_matches, is_hex, parse_rfc3339,
    rfc3339_instant, utc_now,
};
use crate::text::str_eq;
use vstd::utf8::encode_utf8;

verus! {

/// `condition` of a subscription.
pub struct Condition {
    pub broadcaster_user_id: String,
}

/// `transport` of a subscription.
pub struct Transport {
    pub method: String,
    pub callback: String,
}

/// The subscription a webhook message belongs to.
pub struct Subscription {
    pub condition: Condition,
    pub cost: usize,
    pub created_at: String,
    pub id: String,
    /// The subscription type, e.g. `stream.online`.
    pub message_type: String,
    pub status: String,
    pub transport: Transport,
    pub version: String,
}

/// A channel-points reward.
pub struct Reward {
    pub id: String,
    pub title: String,
    pub cost: usize,
    pub prompt: String,
}

/// The event of a notification; absent fields are empty.
pub struct Event {
    pub broadcaster_user_id: String,
    pub broadcaster_user_login: String,
    pub broadcaster_user_name: String,
    pub event_type: String,
    pub id: String,
    pub redeemed_at: String,
    pub reward: Reward,
    pub started_at: String,
    pub status: String,
    pub user_id: String,
    pub user_input: String,
    pub user_login: String,
    pub user_name: String,
}

/// The body of a `notification` message.
pub struct TwitchMessage {
    pub subscription: Subscription,
    pub event: Event,
}

/// The body of a `webhook_callback_verification` message.
pub struct VerificationChallenge {
    pub challenge: String,
    pub subscription: Subscription,
}

/// The body of a `revocation` message.
pub struct RevokedSubscription {
    pub subscription: Subscription,
}

/// The internal commands that webhook notifications and the hub produce.
#[derive(Debug, PartialEq, Eq)]
pub enum TwitchCommand {
    Ded,
    EmoteOnly,
    First(String),
    FourTwenty,
    Nice,
    Privmsg { message: String },
    Pushup(u32),
    Situp(u32),
    StreamOnline,
    Timeout { timeout: u32, user: String },
    UnsupportedMessage,
}

/// The view of a [`TwitchCommand`].
pub enum TwitchCommandModel {
    Ded,
    EmoteOnly,
    First(Seq<char>),
    FourTwenty,
    Nice,
    Privmsg { message: Seq<char> },
    Pushup(u32),
    Situp(u32),
    StreamOnline,
    Timeout { timeout: u32, user: Seq<char> },
    UnsupportedMessage,
}

impl View for TwitchCommand {
    type V = TwitchCommandModel;

    open spec fn view(&self) -> TwitchCommandModel {
        match self {
            TwitchCommand::Ded => TwitchCommandModel::Ded,
            TwitchCommand::EmoteOnly => TwitchCommandModel::EmoteOnly,
            TwitchCommand::First(u) => TwitchCommandModel::First(u@),
            TwitchCommand::FourTwenty => TwitchCommandModel::FourTwenty,
            TwitchCommand::Nice => TwitchCommandModel::Nice,
            TwitchCommand::Privmsg { message } => TwitchCommandModel::Privmsg { message: message@ },
            TwitchCommand::Pushup(n) => TwitchCommandModel::Pushup(*n),
            TwitchCommand::Situp(n) => TwitchCommandModel::Situp(*n),
            TwitchCommand::StreamOnline => TwitchCommandModel::StreamOnline,
            TwitchCommand::Timeout { timeout, user } => TwitchCommandModel::Timeout {
                timeout: *timeout,
                user: user@,
            },
            TwitchCommand::UnsupportedMessage => TwitchCommandModel::UnsupportedMessage,
        }
    }
}

/// The internal command for a notification, from its subscription type, the
/// redeemed reward's title and the redeeming user.
pub open spec fn webhook_command(kind: Seq<char>, title: Seq<char>, user: Seq<char>) -> TwitchCommandModel {
    if kind == "stream.online"@ {
        TwitchCommandModel::StreamOnline
    } else if kind == "channel.channel_points_custom_reward_redemption.add"@ {
        if title == "First"@ {
            TwitchCommandModel::First(user)
        } else if title == "Timeout"@ {
            TwitchCommandModel::Timeout { timeout: 120, user }
        } else if title == "-420"@ {
            TwitchCommandModel::FourTwenty
        } else if title == "ded"@ {
            TwitchCommandModel::Ded
        } else if title == "Nice"@ {
            TwitchCommandModel::Nice
        } else if title == "+1 Pushup"@ {
            TwitchCommandModel::Pushup(1)
        } else if title == "+1 Situp"@ {
            TwitchCommandModel::Situp(1)
        } else if title == "Emote-only Chat"@ {
            TwitchCommandModel::EmoteOnly
        } else {
            TwitchCommandModel::UnsupportedMessage
        }
    } else {
        TwitchCommandModel::UnsupportedMessage
    }
}

/// Maps a notification to the internal command it asks for.
pub fn handle_webhook_message(message: TwitchMessage) -> (r: TwitchCommand)
    ensures
        r@ == webhook_command(
            message.subscription.message_type@,
            message.event.reward.title@,
            message.event.user_name@,
        ),
{
    let kind = message.subscription.message_type.as_str();
    if str_eq(kind, "stream.online") {
        TwitchCommand::StreamOnline
    } else if str_eq(kind, "channel.channel_points_custom_reward_redemption.add") {
        let title = message.event.reward.title.as_str();
        if str_eq(title, "First") {
            TwitchCommand::First(message.event.user_name)
        } else if str_eq(title, "Timeout") {
            TwitchCommand::Timeout { timeout: 120, user: message.event.user_name }
        } else if str_eq(title, "-420") {
            TwitchCommand::FourTwenty
        } else if str_eq(title, "ded") {
            TwitchCommand::Ded
        } else if str_eq(title, "Nice") {
            TwitchCommand::Nice
        } else if str_eq(title, "+1 Pushup") {
            TwitchCommand::Pushup(1)
        } else if str_eq(title, "+1 Situp") {
            TwitchCommand::Situp(1)
        } else if str_eq(title, "Emote-only Chat") {
            TwitchCommand::EmoteOnly
        } else {
            TwitchCommand::UnsupportedMessage
        }
    } else {
        TwitchCommand::UnsupportedMessage
    }
}

/// The bytes of `sha256=`, which starts every signature header.
pub open spec fn signature_prefix() -> Seq<u8> {
    seq![115u8, 104u8, 97u8, 50u8, 53u8, 54u8, 61u8]
}

/// Digits `0-9` and `a-f` only.
pub open spec fn is_lower_hex(b: Seq<u8>) -> bool {
    forall|i: int| 0 <= i < b.len() ==> (48 <= #[trigger] b[i] <= 57 || 97 <= b[i] <= 102)
}

/// A signature header is valid when it is `sha256=` followed by the
/// lower-case hex digits of the HMAC-SHA256, under the shared secret, of the
/// message id, the timestamp and the body, concatenated.
pub open spec fn signature_valid(
    secret: Seq<u8>,
    id: Seq<u8>,
    timestamp: Seq<u8>,
    signature: Seq<u8>,
    body: Seq<u8>,
) -> bool {
    let digits = signature.skip(7);
    &&& signature.len() >= 7
    &&& signature.take(7) == signature_prefix()
    &&& is_lower_hex(digits)
    &&& is_hex(digits)
    &&& hex_bytes(digits) == hmac_sha256(secret, id + timestamp + body)
}

fn append_bytes(out: &mut Vec<u8>, bytes: &[u8])
    ensures
        final(out)@ == old(out)@ + bytes@,
{
    let mut i: usize = 0;
    let ghost start = out@;
    while i < bytes.len()
        invariant
            i <= bytes.len(),
            out@ == start + bytes@.take(i as int),
        decreases bytes.len() - i,
    {
        out.push(bytes[i]);
        assert(start + bytes@.take(i + 1) =~= (start + bytes@.take(i as int)).push(bytes@[i as int]));
        i = i + 1;
    }
    assert(bytes@.take(bytes.len() as int) =~= bytes@);
}

/// Checks a webhook signature header against the shared secret, the message
/// id and timestamp headers and the raw body.
pub fn verify_twitch_message(
    secret: &str,
    message_id: &str,
    timestamp: &str,
    signature: &str,
    body: &str,
) -> (r: bool)
    ensures
        r == signature_valid(
            encode_utf8(secret@),
            encode_utf8(message_id@),
            encode_utf8(timestamp@),
            encode_utf8(signature@),
            encode_utf8(body@),
        ),
{
    let sig = signature.as_bytes();
    if sig.len() < 7 || sig[0] != 115 || sig[1] != 104 || sig[2] != 97 || sig[3] != 50 || sig[4]
        != 53 || sig[5] != 54 || sig[6] != 61 {
        proof {
            if sig@.len() >= 7 {
                assert(sig@.take(7)[0] == sig@[0]);
                assert(sig@.take(7)[1] == sig@[1]);
                assert(sig@.take(7)[2] == sig@[2]);
                assert(sig@.take(7)[3] == sig@[3]);
                assert(sig@.take(7)[4] == sig@[4]);
                assert(sig@.take(7)[5] == sig@[5]);
                assert(sig@.take(7)[6] == sig@[6]);
            }
        }
        return false;
    }
    assert(sig@.take(7) =~= signature_prefix());
    let mut digits: Vec<u8> = Vec::new();
    let mut i: usize = 7;
    while i < sig.len()
        invariant
            7 <= i <= sig.len(),
            sig@ == encode_utf8(signature@),
            digits@ == sig@.subrange(7, i as int),
            is_lower_hex(digits@),
        decreases sig.len() - i,
    {
        let b = sig[i];
        if !((48 <= b && b <= 57) || (97 <= b && b <= 102)) {
            assert(!is_lower_hex(sig@.skip(7))) by {
                assert(sig@.skip(7)[i - 7] == b);
            }
            return false;
        }
        digits.push(b);
        assert(sig@.subrange(7, i + 1) =~= sig@.subrange(7, i as int).push(sig@[i as int]));
        i = i + 1;
    }
    assert(digits@ =~= sig@.skip(7));
    match decode_hex(digits.as_slice()) {
        None => false,
        Some(tag) => {
            let mut message: Vec<u8> = Vec::new();
            append_bytes(&mut message, message_id.as_bytes());
            append_bytes(&mut message, timestamp.as_bytes());
            append_bytes(&mut message, body.as_bytes());
            assert(message@ =~= encode_utf8(message_id@) + encode_utf8(timestamp@)
                + encode_utf8(body@));
            hmac_sha256_matches(secret.as_bytes(), message.as_slice(), tag.as_slice())
        },
    }
}

/// Why a webhook timestamp was refused.
#[derive(Debug, PartialEq, Eq, Clone, Copy)]
pub enum TwitchTimestampError {
    /// The timestamp is more than ten minutes older than now.
    TooOld,
    /// The timestamp is not RFC 3339.
    NotAValidTimestamp,
}

/// How old, in seconds, a webhook message may be.
pub const MAX_MESSAGE_AGE_SECONDS: i64 = 600;

/// `sent` plus ten minutes lies before `now`; instants are seconds since the
/// Unix epoch and nanoseconds within the second.
pub open spec fn is_stale(sent: (i64, u32), now: (i64, u32)) -> bool {
    sent.0 + MAX_MESSAGE_AGE_SECONDS < now.0 || (sent.0 + MAX_MESSAGE_AGE_SECONDS == now.0
        && sent.1 < now.1)
}

/// The freshness verdict for a parsed timestamp (`None`: not RFC 3339).
pub open spec fn age_verdict(sent: Option<(i64, u32)>, now: (i64, u32)) -> Result<
    (),
    TwitchTimestampError,
> {
    match sent {
        None => Err(TwitchTimestampError::NotAValidTimestamp),
        Some(t) => if is_stale(t, now) {
            Err(TwitchTimestampError::TooOld)
        } else {
            Ok(())
        },
    }
}

/// Judges a parsed timestamp against the time now.
pub fn message_age_verdict(sent: Option<(i64, u32)>, now: (i64, u32)) -> (r: Result<
    (),
    TwitchTimestampError,
>)
    ensures
        r == age_verdict(sent, now),
{
    match sent {
        None => Err(TwitchTimestampError::NotAValidTimestamp),
        Some(t) => {
            let limit: i128 = t.0 as i128 + MAX_MESSAGE_AGE_SECONDS as i128;
            let current: i128 = now.0 as i128;
            if limit < current || (limit == current && t.1 < now.1) {
                Err(TwitchTimestampError::TooOld)
            } else {
                Ok(())
            }
        },
    }
}

/// Checks a timestamp header against a given time now.
pub fn check_message_age(timestamp: &str, now: (i64, u32)) -> (r: Result<(), TwitchTimestampError>)
    ensures
        r == age_verdict(rfc3339_instant(timestamp@), now),
{
    message_age_verdict(parse_rfc3339(timestamp), now)
}

/// Checks a timestamp header against the clock: not RFC 3339, or more than
/// ten minutes old, is refused.
pub fn verify_twitch_message_age(timestamp: &str) -> (r: Result<(), TwitchTimestampError>)
    ensures
        r == Err::<(), TwitchTimestampError>(TwitchTimestampError::NotAValidTimestamp)
            <==> rfc3339_instant(timestamp@) is None,
        r is Ok ==> rfc3339_instant(timestamp@) is Some,
{
    let now = utc_now();
    check_message_age(timestamp, now)
}

/// The ids of the webhook messages admitted so far.
pub struct SeenMessageIds {
    ids: Vec<String>,
}

impl View for SeenMessageIds {
    type V = Set<Seq<char>>;

    closed spec fn view(&self) -> Set<Seq<char>> {
        Set::new(|k: Seq<char>| exists|i: int| 0 <= i < self.ids@.len() && self.ids@[i]@ == k)
    }
}

impl SeenMessageIds {
    /// No id seen yet.
    pub fn new() -> (r: Self)
        ensures
            r@ == Set::<Seq<char>>::empty(),
    {
        let r = SeenMessageIds { ids: Vec::new() };
        assert(r@ =~= Set::<Seq<char>>::empty());
        r
    }

    /// `id` was admitted before.
    pub fn contains(&self, id: &str) -> (r: bool)
        ensures
            r == self@.contains(id@),
    {
        let mut i: usize = 0;
        while i < self.ids.len()
            invariant
                i <= self.ids.len(),
                forall|j: int| 0 <= j < i ==> self.ids@[j]@ != id@,
            decreases self.ids.len() - i,
        {
            if str_eq(self.ids[i].as_str(), id) {
                return true;
            }
            i = i + 1;
        }
        false
    }

    /// Admits `id` unless it was admitted before; says whether it was new.
    pub fn check_and_insert(&mut self, id: &str) -> (r: bool)
        ensures
            r == !old(self)@.contains(id@),
            final(self)@ == old(self)@.insert(id@),
    {
        if self.contains(id) {
            assert(self@ =~= self@.insert(id@));
            return false;
        }
        let ghost before = self@;
        let ghost old_ids = self.ids@;
        let s = id.to_owned();
        self.ids.push(s);
        assert(self@ =~= before.insert(id@)) by {
            assert(self.ids@[old_ids.len() as int]@ == id@);
            assert forall|k: Seq<char>| before.contains(k) implies self@.contains(k) by {
                let i = choose|i: int| 0 <= i < old_ids.len() && old_ids[i]@ == k;
                assert(self.ids@[i] == old_ids[i]);
            }
            assert forall|k: Seq<char>| self@.contains(k) && k != id@ implies before.contains(k) by {
                let i = choose|i: int| 0 <= i < self.ids@.len() && self.ids@[i]@ == k;
                assert(self.ids@[i] == old_ids[i]);
            }
        }
        true
    }
}

/// A webhook request, as plain header values and body.
pub struct WebhookRequest {
    pub message_id: String,
    pub message_type: String,
    pub timestamp: String,
    pub signature: String,
    pub body: String,
}

/// The outcome of the ingestion steps for one request.
#[derive(Debug, PartialEq, Eq, Clone, Copy)]
pub enum WebhookVerdict {
    /// The signature does not match: client error.
    BadSignature,
    /// The timestamp is not RFC 3339: client error.
    InvalidTimestamp,
    /// The timestamp is too old: success, nothing done.
    TooOld,
    /// The id was seen before: success, nothing done.
    Duplicate,
    /// Admitted `notification`: decode the event and dispatch it.
    Notification,
    /// Admitted `webhook_callback_verification`: answer with the challenge.
    Challenge,
    /// Admitted `revocation`.
    Revocation,
    /// Admitted, of another type: echo the body.
    Other,
}

/// The verdict for a request whose type is `kind`, once admitted.
pub open spec fn kind_verdict(kind: Seq<char>) -> WebhookVerdict {
    if kind == "notification"@ {
        WebhookVerdict::Notification
    } else if kind == "webhook_callback_verification"@ {
        WebhookVerdict::Challenge
    } else if kind == "revocation"@ {
        WebhookVerdict::Revocation
    } else {
        WebhookVerdict::Other
    }
}

/// The verdict was reached after the id was admitted.
pub open spec fn admitted(v: WebhookVerdict) -> bool {
    match v {
        WebhookVerdict::Notification | WebhookVerdict::Challenge | WebhookVerdict::Revocation
        | WebhookVerdict::Other => true,
        _ => false,
    }
}

/// The ingestion steps in order, stopping at the first that refuses: the
/// signature, the timestamp, then the set of ids seen before.
pub open spec fn webhook_verdict(
    secret: Seq<u8>,
    id: Seq<char>,
    kind: Seq<char>,
    timestamp: Seq<char>,
    signature: Seq<u8>,
    body: Seq<u8>,
    sent: Option<(i64, u32)>,
    now: (i64, u32),
    seen: Set<Seq<char>>,
) -> WebhookVerdict {
    if !signature_valid(secret, encode_utf8(id), encode_utf8(timestamp), signature, body) {
        WebhookVerdict::BadSignature
    } else if age_verdict(sent, now) == Err::<(), TwitchTimestampError>(
        TwitchTimestampError::NotAValidTimestamp,
    ) {
        WebhookVerdict::InvalidTimestamp
    } else if age_verdict(sent, now) == Err::<(), TwitchTimestampError>(
        TwitchTimestampError::TooOld,
    ) {
        WebhookVerdict::TooOld
    } else if seen.contains(id) {
        WebhookVerdict::Duplicate
    } else {
        kind_verdict(kind)
    }
}

/// Runs the ingestion steps on one request, at the time `now`; the id joins
/// `seen` exactly when the request is admitted.
pub fn ingest_webhook(
    seen: &mut SeenMessageIds,
    secret: &str,
    request: &WebhookRequest,
    now: (i64, u32),
) -> (r: WebhookVerdict)
    ensures
        r == webhook_verdict(
            encode_utf8(secret@),
            request.message_id@,
            request.message_type@,
            request.timestamp@,
            encode_utf8(request.signature@),
            encode_utf8(request.body@),
            rfc3339_instant(request.timestamp@),
            now,
            old(seen)@,
        ),
        final(seen)@ == if admitted(r) {
            old(seen)@.insert(request.message_id@)
        } else {
            old(seen)@
        },
{
    let id = request.message_id.as_str();
    let timestamp = request.timestamp.as_str();
    if !verify_twitch_message(secret, id, timestamp, request.signature.as_str(), request.body.as_str()) {
        return WebhookVerdict::BadSignature;
    }
    match check_message_age(timestamp, now) {
        Err(TwitchTimestampError::NotAValidTimestamp) => {
            return WebhookVerdict::InvalidTimestamp;
        },
        Err(TwitchTimestampError::TooOld) => {
            return WebhookVerdict::TooOld;
        },
        Ok(()) => {},
    }
    if !seen.check_and_insert(id) {
        return WebhookVerdict::Duplicate;
    }
    let kind = request.message_type.as_str();
    if str_eq(kind, "notification") {
        WebhookVerdict::Notification
    } else if str_eq(kind, "webhook_callback_verification") {
        WebhookVerdict::Challenge
    } else if str_eq(kind, "revocation") {
        WebhookVerdict::Revocation
    } else {
        WebhookVerdict::Other
    }
}

/// The status code and body to answer a request with; `reply` is the
/// challenge for `Challenge` and the raw body for `Other`.
pub fn webhook_response(verdict: WebhookVerdict, reply: &str) -> (r: (u16, String))
    ensures
        r.0 == match verdict {
            WebhookVerdict::BadSignature | WebhookVerdict::InvalidTimestamp => 400u16,
            WebhookVerdict::Notification | WebhookVerdict::Revocation => 204u16,
            _ => 200u16,
        },
        (verdict == WebhookVerdict::Challenge || verdict == WebhookVerdict::Other) ==> r.1@
            == reply@,
        verdict == WebhookVerdict::BadSignature ==> r.1@ == "BAD_REQUEST"@,
        verdict == WebhookVerdict::InvalidTimestamp ==> r.1@ == "Invalid Timestamp"@,
        verdict == WebhookVerdict::TooOld ==> r.1@ == "Message Too Old"@,
        verdict == WebhookVerdict::Duplicate ==> r.1@ == "Already received message"@,
        (verdict == WebhookVerdict::Notification || verdict == WebhookVerdict::Revocation) ==> r.1@
            == ""@,
{
    match verdict {
        WebhookVerdict::BadSignature => (400, "BAD_REQUEST".to_owned()),
        WebhookVerdict::InvalidTimestamp => (400, "Invalid Timestamp".to_owned()),
        WebhookVerdict::TooOld => (200, "Message Too Old".to_owned()),
        WebhookVerdict::Duplicate => (200, "Already received message".to_owned()),
        WebhookVerdict::Notification | WebhookVerdict::Revocation => (204, "".to_owned()),
        WebhookVerdict::Challenge | WebhookVerdict::Other => (200, reply.to_owned()),
    }
}

/// A signature built as `sha256=` followed by lower-case hex digits of the HMAC-SHA256,
/// under the secret, of id, timestamp and body is accepted.
pub proof fn lemma_signature_accepted(
    secret: Seq<u8>,
    id: Seq<u8>,
    timestamp: Seq<u8>,
    body: Seq<u8>,
    digits: Seq<u8>,
)
    requires
        is_lower_hex(digits),
        is_hex(digits),
        hex_bytes(digits) == hmac_sha256(secret, id + timestamp + body),
    ensures
        signature_valid(secret, id, timestamp, signature_prefix() + digits, body),
{
    let signature = signature_prefix() + digits;
    assert(signature.take(7) =~= signature_prefix());
    assert(signature.skip(7) =~= digits);
}

/// One signature accepted for two (id, timestamp, body) triples means their
/// HMAC-SHA256 tags coincide: a change to any byte of the body, the id or the
/// timestamp is refused unless it collides under HMAC-SHA256.
pub proof fn lemma_signature_binds_message(
    secret: Seq<u8>,
    signature: Seq<u8>,
    id1: Seq<u8>,
    timestamp1: Seq<u8>,
    body1: Seq<u8>,
    id2: Seq<u8>,
    timestamp2: Seq<u8>,
    body2: Seq<u8>,
)
    requires
        signature_valid(secret, id1, timestamp1, signature, body1),
        signature_valid(secret, id2, timestamp2, signature, body2),
    ensures
        hmac_sha256(secret, id1 + timestamp1 + body1) == hmac_sha256(
            secret,
            id2 + timestamp2 + body2,
        ),
{
}

/// A signature with an upper-case (or any other non `0-9a-f`) byte after
/// `sha256=` is refused, even when its digits decode to the right tag.
pub proof fn lemma_signature_needs_lower_hex(
    secret: Seq<u8>,
    id: Seq<u8>,
    timestamp: Seq<u8>,
    signature: Seq<u8>,
    body: Seq<u8>,
    i: int,
)
    requires
        7 <= i < signature.len(),
        !(48 <= signature[i] <= 57 || 97 <= signature[i] <= 102),
    ensures
        !signature_valid(secret, id, timestamp, signature, body),
{
    assert(signature.skip(7)[i - 7] == signature[i]);
}

/// A signature that does not start with `sha256=` is refused.
pub proof fn lemma_signature_needs_prefix(
    secret: Seq<u8>,
    id: Seq<u8>,
    timestamp: Seq<u8>,
    signature: Seq<u8>,
    body: Seq<u8>,
)
    requires
        signature.len() < 7 || signature.take(7) != signature_prefix(),
    ensures
        !signature_valid(secret, id, timestamp, signature, body),
{
}

/// An instant in nanoseconds since the Unix epoch.
pub open spec fn instant_nanos(t: (i64, u32)) -> int {
    t.0 * 1_000_000_000 + t.1
}

/// Freshness: with both instants in normal form, a timestamp more than ten
/// minutes before now is refused as stale and one at most ten minutes before
/// now is accepted; text that is not RFC 3339 is refused as unparseable, a
/// verdict distinct from stale.
pub proof fn lemma_freshness(sent: (i64, u32), now: (i64, u32))
    requires
        sent.1 < 1_000_000_000,
        now.1 < 1_000_000_000,
    ensures
        instant_nanos(now) - instant_nanos(sent) > MAX_MESSAGE_AGE_SECONDS * 1_000_000_000
            ==> age_verdict(Some(sent), now) == Err::<(), TwitchTimestampError>(
            TwitchTimestampError::TooOld,
        ),
        instant_nanos(now) - instant_nanos(sent) <= MAX_MESSAGE_AGE_SECONDS * 1_000_000_000
            ==> age_verdict(Some(sent), now) == Ok::<(), TwitchTimestampError>(()),
        age_verdict(None, now) == Err::<(), TwitchTimestampError>(
            TwitchTimestampError::NotAValidTimestamp,
        ),
        age_verdict(None, now) != age_verdict(Some(sent), now),
{
    let a = sent.0 as int + 600;
    let b = now.0 as int;
    let x = sent.1 as int;
    let y = now.1 as int;
    assert(instant_nanos(now) - instant_nanos(sent) - 600 * 1_000_000_000 == (b - a)
        * 1_000_000_000 + (y - x)) by (nonlinear_arith)
        requires
            a == sent.0 + 600,
            b == now.0,
            x == sent.1,
            y == now.1,
            instant_nanos(now) == now.0 * 1_000_000_000 + now.1,
            instant_nanos(sent) == sent.0 * 1_000_000_000 + sent.1,
    ;
    if b - a >= 1 {
        assert((b - a) * 1_000_000_000 >= 1_000_000_000) by (nonlinear_arith)
            requires
                b - a >= 1,
        ;
    } else if b - a <= -1 {
        assert((b - a) * 1_000_000_000 <= -1_000_000_000) by (nonlinear_arith)
            requires
                b - a <= -1,
        ;
    }
}

/// A message id is dispatched at most once: after a request with id `id` was
/// admitted, no later request with that id is admitted, whatever it carries.
pub proof fn lemma_admitted_once(
    secret: Seq<u8>,
    id: Seq<char>,
    kind: Seq<char>,
    timestamp: Seq<char>,
    signature: Seq<u8>,
    body: Seq<u8>,
    sent: Option<(i64, u32)>,
    now: (i64, u32),
    seen: Set<Seq<char>>,
    later_kind: Seq<char>,
    later_timestamp: Seq<char>,
    later_signature: Seq<u8>,
    later_body: Seq<u8>,
    later_sent: Option<(i64, u32)>,
    later_now: (i64, u32),
    later_seen: Set<Seq<char>>,
)
    requires
        admitted(webhook_verdict(secret, id, kind, timestamp, signature, body, sent, now, seen)),
        seen.insert(id).subset_of(later_seen),
    ensures
        !admitted(
            webhook_verdict(
                secret,
                id,
                later_kind,
                later_timestamp,
                later_signature,
                later_body,
                later_sent,
                later_now,
                later_seen,
            ),
        ),
{
    assert(later_seen.contains(id));
}

/// One delivery of a webhook request with a given id: what it carries, what
/// its timestamp parses to, and the time it is checked at.
pub struct Delivery {
    pub kind: Seq<char>,
    pub timestamp: Seq<char>,
    pub signature: Seq<u8>,
    pub body: Seq<u8>,
    pub sent: Option<(i64, u32)>,
    pub now: (i64, u32),
}

pub open spec fn delivery_verdict(
    secret: Seq<u8>,
    id: Seq<char>,
    d: Delivery,
    seen: Set<Seq<char>>,
) -> WebhookVerdict {
    webhook_verdict(secret, id, d.kind, d.timestamp, d.signature, d.body, d.sent, d.now, seen)
}

/// The set of seen ids after handling `deliveries` one after another.
pub open spec fn seen_after(
    secret: Seq<u8>,
    id: Seq<char>,
    deliveries: Seq<Delivery>,
    seen: Set<Seq<char>>,
) -> Set<Seq<char>>
    decreases deliveries.len(),
{
    if deliveries.len() == 0 {
        seen
    } else {
        let before = seen_after(secret, id, deliveries.drop_last(), seen);
        if admitted(delivery_verdict(secret, id, deliveries.last(), before)) {
            before.insert(id)
        } else {
            before
        }
    }
}

/// How many of `deliveries`, handled one after another, were admitted and so
/// dispatched.
pub open spec fn admissions(
    secret: Seq<u8>,
    id: Seq<char>,
    deliveries: Seq<Delivery>,
    seen: Set<Seq<char>>,
) -> nat
    decreases deliveries.len(),
{
    if deliveries.len() == 0 {
        0
    } else {
        let before = seen_after(secret, id, deliveries.drop_last(), seen);
        admissions(secret, id, deliveries.drop_last(), seen) + if admitted(
            delivery_verdict(secret, id, deliveries.last(), before),
        ) {
            1nat
        } else {
            0nat
        }
    }
}

/// The delivery has a valid signature and a fresh timestamp.
pub open spec fn authentic_and_fresh(secret: Seq<u8>, id: Seq<char>, d: Delivery) -> bool {
    &&& signature_valid(secret, encode_utf8(id), encode_utf8(d.timestamp), d.signature, d.body)
    &&& age_verdict(d.sent, d.now) == Ok::<(), TwitchTimestampError>(())
}

proof fn lemma_admissions_count(
    secret: Seq<u8>,
    id: Seq<char>,
    deliveries: Seq<Delivery>,
    seen: Set<Seq<char>>,
)
    ensures
        seen_after(secret, id, deliveries, seen) == seen || seen_after(
            secret,
            id,
            deliveries,
            seen,
        ) == seen.insert(id),
        admissions(secret, id, deliveries, seen) == if !seen.contains(id) && seen_after(
            secret,
            id,
            deliveries,
            seen,
        ).contains(id) {
            1nat
        } else {
            0nat
        },
    decreases deliveries.len(),
{
    if deliveries.len() > 0 {
        let d = deliveries.drop_last();
        lemma_admissions_count(secret, id, d, seen);
        let before = seen_after(secret, id, d, seen);
        if before.contains(id) {
            assert(!admitted(delivery_verdict(secret, id, deliveries.last(), before)));
        }
        if seen.contains(id) {
            assert(seen.insert(id) =~= seen);
        }
    }
}

proof fn lemma_seen_after_keeps(
    secret: Seq<u8>,
    id: Seq<char>,
    deliveries: Seq<Delivery>,
    seen: Set<Seq<char>>,
)
    requires
        deliveries.len() >= 1,
        forall|i: int| 0 <= i < deliveries.len() ==> authentic_and_fresh(
            secret,
            id,
            #[trigger] deliveries[i],
        ),
    ensures
        seen_after(secret, id, deliveries, seen).contains(id),
    decreases deliveries.len(),
{
    let d = deliveries.drop_last();
    assert(authentic_and_fresh(secret, id, deliveries[deliveries.len() - 1]));
    if d.len() >= 1 {
        assert forall|i: int| 0 <= i < d.len() implies authentic_and_fresh(
            secret,
            id,
            #[trigger] d[i],
        ) by {
            assert(d[i] == deliveries[i]);
        }
        lemma_seen_after_keeps(secret, id, d, seen);
    }
}

/// Duplicate suppression over any number of deliveries of one id, in the
/// order the lock around `ingest_webhook` puts them: at most one is admitted
/// and dispatched, and when the id is new and every delivery is authentic and
/// fresh, exactly one is.
pub proof fn lemma_dispatched_once(
    secret: Seq<u8>,
    id: Seq<char>,
    deliveries: Seq<Delivery>,
    seen: Set<Seq<char>>,
)
    ensures
        admissions(secret, id, deliveries, seen) <= 1,
        !seen.contains(id) && deliveries.len() >= 1 && (forall|i: int|
            0 <= i < deliveries.len() ==> authentic_and_fresh(secret, id, #[trigger] deliveries[i]))
            ==> admissions(secret, id, deliveries, seen) == 1,
{
    lemma_admissions_count(secret, id, deliveries, seen);
    if !seen.contains(id) && deliveries.len() >= 1 && (forall|i: int|
        0 <= i < deliveries.len() ==> authentic_and_fresh(secret, id, #[trigger] deliveries[i])) {
        lemma_seen_after_keeps(secret, id, deliveries, seen);
    }
}

} // verus!
