//! Chat protocol parsing and the event hub logic around it: webhook
//! verification, freshness and duplicate checks, and command routing.
pub mod discord;
pub mod link;
pub mod parser;
pub mod primitives;
pub mod router;
pub mod simple;
pub mod stream;
pub mod text;
pub mod types;
pub mod webhook;

pub use discord::{Discord, DiscordBuilder};
pub use parser::{
    parse_badges, parse_bot_command, parse_command, parse_emote_sets, parse_emotes,
    parse_message, parse_messages, parse_source, parse_tags,
};
pub use router::{
    actions_for, create_privmsg, create_stream_online_message, handshake_lines, outbound_line,
    replies_for_frame, reply_for_message, stream_announcement, HubAction,
};
pub use stream::{Data, Pagination, StreamData, StreamInfo};
pub use types::{
    Badge, BotCommand, Command, Emote, Parameters, ParsedTwitchMessage, Source, Tag, TagSet,
    TextPosition, UserType,
};
pub use webhook::{
    check_message_age, handle_webhook_message, ingest_webhook, verify_twitch_message,
    verify_twitch_message_age, webhook_response, Condition, Event, RevokedSubscription, Reward,
    SeenMessageIds, Subscription, Transport, TwitchCommand, TwitchMessage, TwitchTimestampError,
    VerificationChallenge, WebhookRequest, WebhookVerdict,
};
