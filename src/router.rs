//! Decisions of the hub: replies to protocol lines, the effects of internal
//! commands, and the lines the connection sends.
use vstd::prelude::*;

use crate::parser::{crlf_lines, messages_of, message_views, parse_messages};
use crate::stream::{StreamData, StreamInfo};
use crate::text::{contains, contains_str, views};
use crate::types::{Command, CommandModel, MessageModel, ParsedTwitchMessage};
use crate::webhook::{TwitchCommand, TwitchCommandModel};

verus! {

/// The text of a chat message line to `channel`.
pub open spec fn privmsg_text(channel: Seq<char>, message: Seq<char>) -> Seq<char> {
    "PRIVMSG #"@ + channel + " :"@ + message
}

/// Builds `PRIVMSG #<channel> :<message>`.
pub fn create_privmsg(channel: &str, message: &str) -> (r: String)
    ensures
        r@ == privmsg_text(channel@, message@),
{
    let mut line = "PRIVMSG #".to_owned();
    line.append(channel);
    line.append(" :");
    line.append(message);
    line
}

/// The announcement posted when the stream goes live.
pub open spec fn stream_online_text(game: Seq<char>, title: Seq<char>) -> Seq<char> {
    "Hi @everyone! I am **live**!\n> Playing: "@ + game + "\n> Title: "@ + title
        + "\nhttps://twitch.tv/joxtacy"@
}

/// Builds the live announcement for a game and a stream title.
pub fn create_stream_online_message(game: &str, title: &str) -> (r: String)
    ensures
        r@ == stream_online_text(game@, title@),
{
    let mut text = "Hi @everyone! I am **live**!\n> Playing: ".to_owned();
    text.append(game);
    text.append("\n> Title: ");
    text.append(title);
    text.append("\nhttps://twitch.tv/joxtacy");
    text
}

/// What the announcement says when the stream lookup found no stream.
pub open spec fn fallback_text() -> Seq<char> {
    "something went wrong"@
}

/// The announcement for the result of a stream lookup: the first stream's
/// game and title, or the fallback text when there is none.
pub fn stream_announcement(info: &StreamInfo) -> (r: String)
    ensures
        info.data@.len() > 0 ==> r@ == stream_online_text(
            info.data@[0].game_name@,
            info.data@[0].title@,
        ),
        info.data@.len() == 0 ==> r@ == stream_online_text(fallback_text(), fallback_text()),
{
    if info.data.len() > 0 {
        let first: &StreamData = &info.data[0];
        create_stream_online_message(first.game_name.as_str(), first.title.as_str())
    } else {
        create_stream_online_message("something went wrong", "something went wrong")
    }
}

/// The line answering a protocol message at once, if any: `PING` gets a
/// `PONG`; a chat message mentioning `catJAM` (else `widepeepoHappy`) gets
/// that emote back in its channel.
pub open spec fn reply_for(m: MessageModel) -> Option<Seq<char>> {
    match m.command {
        CommandModel::PING => Some("PONG :tmi.twitch.tv"@),
        CommandModel::PRIVMSG { channel, message, .. } => if contains(message, "catJAM"@) {
            Some(privmsg_text(channel, "catJAM"@))
        } else if contains(message, "widepeepoHappy"@) {
            Some(privmsg_text(channel, "widepeepoHappy"@))
        } else {
            None
        },
        _ => None,
    }
}

/// The immediate reply to one parsed message.
pub fn reply_for_message(message: &ParsedTwitchMessage) -> (r: Option<String>)
    ensures
        match r {
            Some(s) => reply_for(message@) == Some(s@),
            None => reply_for(message@) is None,
        },
{
    match &message.command {
        Command::PING => Some("PONG :tmi.twitch.tv".to_owned()),
        Command::PRIVMSG { channel, message, .. } => {
            if contains_str(message.as_str(), "catJAM") {
                Some(create_privmsg(channel.as_str(), "catJAM"))
            } else if contains_str(message.as_str(), "widepeepoHappy") {
                Some(create_privmsg(channel.as_str(), "widepeepoHappy"))
            } else {
                None
            }
        },
        _ => None,
    }
}

/// The replies to a sequence of messages, in order.
pub open spec fn replies_of(ms: Seq<MessageModel>) -> Seq<Seq<char>>
    decreases ms.len(),
{
    if ms.len() == 0 {
        Seq::empty()
    } else {
        let before = replies_of(ms.drop_last());
        match reply_for(ms.last()) {
            Some(r) => before.push(r),
            None => before,
        }
    }
}

/// Parses every line of an inbound frame and collects the replies to send,
/// in order.
pub fn replies_for_frame(frame: &str) -> (r: Vec<String>)
    ensures
        views(r@) == replies_of(messages_of(crlf_lines(frame@))),
{
    let messages = parse_messages(frame);
    let ghost ms = message_views(messages@);
    let mut out: Vec<String> = Vec::new();
    let mut i: usize = 0;
    assert(views(out@) =~= replies_of(ms.take(0)));
    while i < messages.len()
        invariant
            ms == message_views(messages@),
            i <= messages.len(),
            views(out@) == replies_of(ms.take(i as int)),
        decreases messages.len() - i,
    {
        assert(ms.take(i + 1).drop_last() =~= ms.take(i as int));
        match reply_for_message(&messages[i]) {
            Some(line) => {
                let ghost before = views(out@);
                let ghost lv = line@;
                out.push(line);
                assert(views(out@) =~= before.push(lv));
            },
            None => {},
        }
        i = i + 1;
    }
    assert(ms.take(messages.len() as int) =~= ms);
    out
}

/// The lines sent right after connecting, in order: credential, nickname,
/// channel join, and the two capability requests.
pub open spec fn handshake_text(token: Seq<char>, nick: Seq<char>, channel: Seq<char>) -> Seq<
    Seq<char>,
> {
    seq![
        "PASS "@ + token,
        "NICK "@ + nick,
        "JOIN #"@ + channel,
        "CAP REQ :twitch.tv/membership"@,
        "CAP REQ :twitch.tv/tags twitch.tv/commands"@,
    ]
}

/// Builds the handshake lines.
pub fn handshake_lines(token: &str, nick: &str, channel: &str) -> (r: Vec<String>)
    ensures
        views(r@) == handshake_text(token@, nick@, channel@),
{
    let mut pass = "PASS ".to_owned();
    pass.append(token);
    let mut nick_line = "NICK ".to_owned();
    nick_line.append(nick);
    let mut join = "JOIN #".to_owned();
    join.append(channel);
    let mut lines: Vec<String> = Vec::new();
    lines.push(pass);
    lines.push(nick_line);
    lines.push(join);
    lines.push("CAP REQ :twitch.tv/membership".to_owned());
    lines.push("CAP REQ :twitch.tv/tags twitch.tv/commands".to_owned());
    assert(views(lines@) =~= handshake_text(token@, nick@, channel@));
    lines
}

/// The line the connection writes for an internal command taken from its
/// queue: a `Privmsg` becomes a chat message to `channel`; others write nothing.
pub fn outbound_line(command: &TwitchCommand, channel: &str) -> (r: Option<String>)
    ensures
        match command@ {
            TwitchCommandModel::Privmsg { message } => r matches Some(s) && s@ == privmsg_text(
                channel@,
                message,
            ),
            _ => r is None,
        },
{
    match command {
        TwitchCommand::Privmsg { message } => Some(create_privmsg(channel, message.as_str())),
        _ => None,
    }
}

/// A side effect the hub performs for an internal command.
#[derive(Debug, PartialEq, Eq)]
pub enum HubAction {
    /// Publish a text event to every relay subscriber.
    Broadcast(String),
    /// Store this text as the record of who came first.
    RecordFirst(String),
    /// Look up the stream and post the live announcement.
    AnnounceStream,
    /// Queue an internal command for the connection now.
    Enqueue(TwitchCommand),
    /// Queue an internal command for the connection after `seconds`.
    EnqueueLater { seconds: u64, command: TwitchCommand },
}

/// The view of a [`HubAction`].
pub enum HubActionModel {
    Broadcast(Seq<char>),
    RecordFirst(Seq<char>),
    AnnounceStream,
    Enqueue(TwitchCommandModel),
    EnqueueLater { seconds: u64, command: TwitchCommandModel },
}

impl View for HubAction {
    type V = HubActionModel;

    open spec fn view(&self) -> HubActionModel {
        match self {
            HubAction::Broadcast(s) => HubActionModel::Broadcast(s@),
            HubAction::RecordFirst(s) => HubActionModel::RecordFirst(s@),
            HubAction::AnnounceStream => HubActionModel::AnnounceStream,
            HubAction::Enqueue(c) => HubActionModel::Enqueue(c@),
            HubAction::EnqueueLater { seconds, command } => HubActionModel::EnqueueLater {
                seconds: *seconds,
                command: command@,
            },
        }
    }
}

pub open spec fn action_views(v: Seq<HubAction>) -> Seq<HubActionModel> {
    v.map_values(|a: HubAction| a@)
}

/// How long emote-only mode lasts, in seconds.
pub const EMOTE_ONLY_SECONDS: u64 = 120;

/// The effects of an internal command, in order.
pub open spec fn actions_of(command: TwitchCommandModel) -> Seq<HubActionModel> {
    match command {
        TwitchCommandModel::Ded => seq![HubActionModel::Broadcast("Death"@)],
        TwitchCommandModel::FourTwenty => seq![HubActionModel::Broadcast("420"@)],
        TwitchCommandModel::Nice => seq![HubActionModel::Broadcast("Nice"@)],
        TwitchCommandModel::First(user) => seq![HubActionModel::RecordFirst("First: "@ + user)],
        TwitchCommandModel::StreamOnline => seq![
            HubActionModel::RecordFirst("First:"@),
            HubActionModel::AnnounceStream,
        ],
        TwitchCommandModel::EmoteOnly => seq![
            HubActionModel::Enqueue(TwitchCommandModel::Privmsg { message: "/emoteonly"@ }),
            HubActionModel::EnqueueLater {
                seconds: EMOTE_ONLY_SECONDS,
                command: TwitchCommandModel::Privmsg { message: "/emoteonlyoff"@ },
            },
        ],
        _ => Seq::empty(),
    }
}

/// Decides the effects of an internal command.
pub fn actions_for(command: &TwitchCommand) -> (r: Vec<HubAction>)
    ensures
        action_views(r@) == actions_of(command@),
{
    let mut out: Vec<HubAction> = Vec::new();
    match command {
        TwitchCommand::Ded => {
            out.push(HubAction::Broadcast("Death".to_owned()));
        },
        TwitchCommand::FourTwenty => {
            out.push(HubAction::Broadcast("420".to_owned()));
        },
        TwitchCommand::Nice => {
            out.push(HubAction::Broadcast("Nice".to_owned()));
        },
        TwitchCommand::First(user) => {
            let mut text = "First: ".to_owned();
            text.append(user.as_str());
            out.push(HubAction::RecordFirst(text));
        },
        TwitchCommand::StreamOnline => {
            out.push(HubAction::RecordFirst("First:".to_owned()));
            out.push(HubAction::AnnounceStream);
        },
        TwitchCommand::EmoteOnly => {
            out.push(HubAction::Enqueue(TwitchCommand::Privmsg { message: "/emoteonly".to_owned() }));
            out.push(
                HubAction::EnqueueLater {
                    seconds: EMOTE_ONLY_SECONDS,
                    command: TwitchCommand::Privmsg { message: "/emoteonlyoff".to_owned() },
                },
            );
        },
        _ => {},
    }
    assert(action_views(out@) =~= actions_of(command@));
    out
}

} // verus!
