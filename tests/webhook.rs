use hmac::{Hmac, Mac};
use sha2::Sha256;
use twitch_hub::{
    check_message_age, handle_webhook_message, ingest_webhook, verify_twitch_message,
    verify_twitch_message_age, webhook_response, Condition, Event, Reward, SeenMessageIds,
    Subscription, Transport, TwitchCommand, TwitchMessage, TwitchTimestampError, WebhookRequest,
    WebhookVerdict,
};

const BODY: &str = r#"{"subscription":{"id":"cfe495bf-a78e-6c47-2e66-f3ff62398c31","status":"enabled","type":"channel.channel_points_custom_reward_redemption.add","version":"1","condition":{"broadcaster_user_id":"98048478"},"transport":{"method":"webhook","callback":"null"},"created_at":"2022-10-22T02:52:54.58609Z","cost":0},"event":{"id":"cfe495bf-a78e-6c47-2e66-f3ff62398c31","broadcaster_user_id":"98048478","broadcaster_user_login":"testBroadcaster","broadcaster_user_name":"testBroadcaster","user_id":"73700748","user_login":"testFromUser","user_name":"testFromUser","user_input":"Test Input From CLI","status":"unfulfilled","reward":{"id":"923154d2-65f1-cc5d-7e5f-d131036daaa7","title":"Test Reward from CLI","cost":150,"prompt":"Redeem Your Test Reward from CLI"},"redeemed_at":"2022-10-22T02:52:54.58609Z"}}"#;

fn sign(secret: &str, message_id: &str, timestamp: &str, body: &str) -> String {
    let hmac_message = format!("{}{}{}", message_id, timestamp, body);
    let mut mac = Hmac::<Sha256>::new_from_slice(secret.as_bytes()).unwrap();
    mac.update(hmac_message.as_bytes());
    format!("sha256={}", hex::encode(mac.finalize().into_bytes()))
}

fn message(kind: &str, user_name: &str, reward_title: &str) -> TwitchMessage {
    let s = |v: &str| String::from(v);
    TwitchMessage {
        subscription: Subscription {
            condition: Condition { broadcaster_user_id: s("10491327") },
            cost: 0,
            created_at: s("2022-10-22T09:29:10.228165Z"),
            id: s("1d4a106b-c0db-2b19-a24d-f69020f7e9df"),
            message_type: s(kind),
            status: s("enabled"),
            transport: Transport { method: s("webhook"), callback: s("null") },
            version: s("1"),
        },
        event: Event {
            broadcaster_user_id: s("10491327"),
            broadcaster_user_login: s("testBroadcaster"),
            broadcaster_user_name: s("testBroadcaster"),
            event_type: s(""),
            id: s("1d4a106b-c0db-2b19-a24d-f69020f7e9df"),
            redeemed_at: s("2022-10-22T09:29:10.228165Z"),
            reward: Reward {
                id: s("eceb6773-b5a3-886b-3e6e-a130b6b2c3ae"),
                title: s(reward_title),
                cost: 150,
                prompt: s("Redeem Your Test Reward from CLI"),
            },
            started_at: s(""),
            status: s("unfulfilled"),
            user_id: s("41417109"),
            user_input: s("Test Input From CLI"),
            user_login: s("testFromUser"),
            user_name: s(user_name),
        },
    }
}

const REDEMPTION: &str = "channel.channel_points_custom_reward_redemption.add";

fn now_pair() -> (i64, u32) {
    let now = chrono::Utc::now();
    (now.timestamp(), now.timestamp_subsec_nanos())
}

#[test]
fn it_should_verify_twitch_message() {
    let timestamp = chrono::Utc::now().to_rfc3339();
    let signature = sign("superdupersecret", "message-id", &timestamp, BODY);

    let result = verify_twitch_message("superdupersecret", "message-id", &timestamp, &signature, BODY);

    assert!(result);
}

#[test]
fn signature_fails_after_any_single_change() {
    let timestamp = "2022-10-22T02:52:54.58609Z";
    let signature = sign("superdupersecret", "message-id", timestamp, BODY);
    let mut body = String::from(BODY);
    body.replace_range(10..11, "X");

    assert!(!verify_twitch_message("superdupersecret", "message-id", timestamp, &signature, &body));
    assert!(!verify_twitch_message("superdupersecret", "message-ie", timestamp, &signature, BODY));
    assert!(!verify_twitch_message("superdupersecret", "message-id", "2022-10-22T02:52:54.58608Z", &signature, BODY));
    assert!(!verify_twitch_message("wrongsecret", "message-id", timestamp, &signature, BODY));
    let flipped = if signature.ends_with('0') {
        format!("{}1", &signature[..signature.len() - 1])
    } else {
        format!("{}0", &signature[..signature.len() - 1])
    };
    assert!(!verify_twitch_message("superdupersecret", "message-id", timestamp, &flipped, BODY));
    let at = signature[7..].find(|c: char| ('a'..='f').contains(&c)).unwrap() + 7;
    let mut upper = signature.clone();
    upper.replace_range(at..at + 1, &signature[at..at + 1].to_uppercase());
    assert_ne!(upper, signature);
    assert!(!verify_twitch_message("superdupersecret", "message-id", timestamp, &upper, BODY));
    let upper_all = format!("sha256={}", signature[7..].to_uppercase());
    assert!(!verify_twitch_message("superdupersecret", "message-id", timestamp, &upper_all, BODY));
    let no_prefix = signature.replacen("sha256=", "sha257=", 1);
    assert!(!verify_twitch_message("superdupersecret", "message-id", timestamp, &no_prefix, BODY));
    assert!(!verify_twitch_message("superdupersecret", "message-id", timestamp, "", BODY));
    assert!(!verify_twitch_message("superdupersecret", "message-id", timestamp, "sha256=zz", BODY));
}

#[test]
fn it_should_verify_the_age_of_the_message() {
    let now = chrono::Utc::now();
    let res = verify_twitch_message_age(&now.to_rfc3339());

    assert!(res.is_ok());
}

#[test]
fn it_should_verify_that_the_message_is_too_old() {
    let now = chrono::Utc::now();
    let new_time = now - chrono::Duration::minutes(20);
    let res = verify_twitch_message_age(&new_time.to_rfc3339());

    assert!(res.is_err());
    assert_eq!(res.unwrap_err(), TwitchTimestampError::TooOld);
}

#[test]
fn it_should_verify_that_the_timestamp_is_not_valid() {
    let res = verify_twitch_message_age("Herp derp");

    assert!(res.is_err());
    assert_eq!(res.unwrap_err(), TwitchTimestampError::NotAValidTimestamp);
}

#[test]
fn freshness_boundary_is_ten_minutes() {
    let sent = "2022-10-22T10:00:00Z";
    let base = chrono::DateTime::parse_from_rfc3339(sent).unwrap().timestamp();
    assert_eq!(check_message_age(sent, (base + 600, 0)), Ok(()));
    assert_eq!(check_message_age(sent, (base + 600, 1)), Err(TwitchTimestampError::TooOld));
    assert_eq!(check_message_age(sent, (base + 599, 999_999_999)), Ok(()));
    assert_eq!(check_message_age(sent, (base - 5, 0)), Ok(()));
    assert_eq!(check_message_age("2022-10-22 10:00", (base, 0)), Err(TwitchTimestampError::NotAValidTimestamp));
}

#[test]
fn duplicate_id_is_dispatched_once() {
    let mut seen = SeenMessageIds::new();
    let timestamp = chrono::Utc::now().to_rfc3339();
    let request = WebhookRequest {
        message_id: String::from("abc"),
        message_type: String::from("notification"),
        timestamp: timestamp.clone(),
        signature: sign("s3cret", "abc", &timestamp, BODY),
        body: String::from(BODY),
    };
    let now = now_pair();
    assert_eq!(ingest_webhook(&mut seen, "s3cret", &request, now), WebhookVerdict::Notification);
    assert_eq!(ingest_webhook(&mut seen, "s3cret", &request, now), WebhookVerdict::Duplicate);
    assert!(seen.contains("abc"));
    assert!(!seen.contains("abd"));
}

#[test]
fn ingestion_steps_stop_at_first_failure() {
    let mut seen = SeenMessageIds::new();
    let now = now_pair();
    let fresh = chrono::Utc::now().to_rfc3339();
    let old = (chrono::Utc::now() - chrono::Duration::minutes(11)).to_rfc3339();
    let request = |id: &str, kind: &str, ts: &str, body: &str, sig: Option<String>| WebhookRequest {
        message_id: String::from(id),
        message_type: String::from(kind),
        timestamp: String::from(ts),
        signature: sig.unwrap_or_else(|| sign("k", id, ts, body)),
        body: String::from(body),
    };
    let bad = request("1", "notification", &fresh, BODY, Some(String::from("sha256=00")));
    assert_eq!(ingest_webhook(&mut seen, "k", &bad, now), WebhookVerdict::BadSignature);
    assert!(!seen.contains("1"));
    let unparseable = request("2", "notification", "yesterday", BODY, None);
    assert_eq!(ingest_webhook(&mut seen, "k", &unparseable, now), WebhookVerdict::InvalidTimestamp);
    let stale = request("3", "notification", &old, BODY, None);
    assert_eq!(ingest_webhook(&mut seen, "k", &stale, now), WebhookVerdict::TooOld);
    assert!(!seen.contains("3"));
    let challenge = request("4", "webhook_callback_verification", &fresh, "{}", None);
    assert_eq!(ingest_webhook(&mut seen, "k", &challenge, now), WebhookVerdict::Challenge);
    let revoked = request("5", "revocation", &fresh, "{}", None);
    assert_eq!(ingest_webhook(&mut seen, "k", &revoked, now), WebhookVerdict::Revocation);
    let other = request("6", "something", &fresh, "{}", None);
    assert_eq!(ingest_webhook(&mut seen, "k", &other, now), WebhookVerdict::Other);
}

#[test]
fn responses_per_verdict() {
    assert_eq!(webhook_response(WebhookVerdict::BadSignature, "x"), (400, String::from("BAD_REQUEST")));
    assert_eq!(webhook_response(WebhookVerdict::InvalidTimestamp, "x"), (400, String::from("Invalid Timestamp")));
    assert_eq!(webhook_response(WebhookVerdict::TooOld, "x"), (200, String::from("Message Too Old")));
    assert_eq!(webhook_response(WebhookVerdict::Duplicate, "x"), (200, String::from("Already received message")));
    assert_eq!(webhook_response(WebhookVerdict::Notification, "x"), (204, String::new()));
    assert_eq!(webhook_response(WebhookVerdict::Revocation, "x"), (204, String::new()));
    assert_eq!(webhook_response(WebhookVerdict::Challenge, "pogchamp"), (200, String::from("pogchamp")));
    assert_eq!(webhook_response(WebhookVerdict::Other, "{}"), (200, String::from("{}")));
}

#[test]
fn it_should_return_correct_message_on_stream_online() {
    let result = handle_webhook_message(message("stream.online", "", ""));

    assert_eq!(result, TwitchCommand::StreamOnline);
}

#[test]
fn it_should_return_correct_message_on_reward_redemption_first() {
    let result = handle_webhook_message(message(REDEMPTION, "Le_Test_User", "First"));

    assert_eq!(result, TwitchCommand::First("Le_Test_User".to_string()));
}

#[test]
fn it_should_return_correct_message_on_reward_redemption_timeout() {
    let result = handle_webhook_message(message(REDEMPTION, "Le_Test_User", "Timeout"));

    assert_eq!(
        result,
        TwitchCommand::Timeout { timeout: 120, user: "Le_Test_User".to_string() }
    );
}

#[test]
fn it_should_return_correct_message_on_reward_redemption_420() {
    let result = handle_webhook_message(message(REDEMPTION, "Le_Test_User", "-420"));

    assert_eq!(result, TwitchCommand::FourTwenty);
}

#[test]
fn it_should_return_correct_message_on_reward_redemption_ded() {
    let result = handle_webhook_message(message(REDEMPTION, "Le_Test_User", "ded"));

    assert_eq!(result, TwitchCommand::Ded);
}

#[test]
fn it_should_return_correct_message_on_reward_redemption_nice() {
    let result = handle_webhook_message(message(REDEMPTION, "Le_Test_User", "Nice"));

    assert_eq!(result, TwitchCommand::Nice);
}

#[test]
fn it_should_return_correct_message_on_reward_redemption_pushup() {
    let result = handle_webhook_message(message(REDEMPTION, "Le_Test_User", "+1 Pushup"));

    assert_eq!(result, TwitchCommand::Pushup(1));
}

#[test]
fn it_should_return_correct_message_on_reward_redemption_situp() {
    let result = handle_webhook_message(message(REDEMPTION, "Le_Test_User", "+1 Situp"));

    assert_eq!(result, TwitchCommand::Situp(1));
}

#[test]
fn it_should_return_correct_message_on_reward_redemption_emote_only() {
    let result = handle_webhook_message(message(REDEMPTION, "Le_Test_User", "Emote-only Chat"));

    assert_eq!(result, TwitchCommand::EmoteOnly);
}

#[test]
fn it_should_return_correct_message_on_reward_redemption_unsupported() {
    let result = handle_webhook_message(message(
        REDEMPTION,
        "Le_Test_User",
        "This is not a supported title",
    ));

    assert_eq!(result, TwitchCommand::UnsupportedMessage);
}

#[test]
fn unknown_subscription_type_is_unsupported() {
    let result = handle_webhook_message(message("channel.follow", "Le_Test_User", "Nice"));

    assert_eq!(result, TwitchCommand::UnsupportedMessage);
}
