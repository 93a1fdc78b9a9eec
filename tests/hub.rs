use twitch_hub::link::{link_step_for, LinkAction, LinkEvent, LinkState};
use twitch_hub::{
    actions_for, create_privmsg, create_stream_online_message, handle_webhook_message,
    handshake_lines, outbound_line, parse_message, replies_for_frame, reply_for_message,
    stream_announcement, Command, Condition, DiscordBuilder, Event, HubAction, Pagination, Reward,
    StreamData, StreamInfo, Subscription, Transport, TwitchCommand, TwitchMessage,
};

#[test]
fn test_create_privmsg() {
    let result = create_privmsg("My_Channel", "My Message");

    assert_eq!(result, "PRIVMSG #My_Channel :My Message");
}

#[test]
fn test_create_stream_online_message() {
    let result = create_stream_online_message("Rust", "Playing Game With Toxic Gamers");

    let expected = "Hi @everyone! I am **live**!\n\
                    > Playing: Rust\n\
                    > Title: Playing Game With Toxic Gamers\n\
                    https://twitch.tv/joxtacy";

    assert_eq!(result, expected);
}

#[test]
fn test_builder() {
    let discord = DiscordBuilder::new("token").build();

    assert_eq!("token", discord.token);
}

#[test]
fn ping_is_answered_with_pong() {
    let parsed = parse_message("PING :tmi.twitch.tv");
    assert_eq!(parsed.command, Command::PING);
    assert_eq!(reply_for_message(&parsed), Some(String::from("PONG :tmi.twitch.tv")));
}

#[test]
fn emote_mentions_are_echoed_once() {
    let catjam = parse_message(":a!a@a.tmi.twitch.tv PRIVMSG #chan :so catJAM and widepeepoHappy");
    assert_eq!(reply_for_message(&catjam), Some(String::from("PRIVMSG #chan :catJAM")));
    let happy = parse_message(":a!a@a.tmi.twitch.tv PRIVMSG #chan :widepeepoHappy");
    assert_eq!(reply_for_message(&happy), Some(String::from("PRIVMSG #chan :widepeepoHappy")));
    let plain = parse_message(":a!a@a.tmi.twitch.tv PRIVMSG #chan :hello");
    assert_eq!(reply_for_message(&plain), None);
    let join = parse_message(":a!a@a.tmi.twitch.tv JOIN #chan");
    assert_eq!(reply_for_message(&join), None);
}

#[test]
fn frame_replies_follow_line_order() {
    let frame = "PING :tmi.twitch.tv\r\n\r\n:a!a@a.tmi.twitch.tv PRIVMSG #c :catJAM\r\n:a!a@a.tmi.twitch.tv PRIVMSG #c :hi";
    assert_eq!(
        replies_for_frame(frame),
        vec![String::from("PONG :tmi.twitch.tv"), String::from("PRIVMSG #c :catJAM")]
    );
    assert!(replies_for_frame("").is_empty());
}

#[test]
fn handshake_is_sent_in_order() {
    assert_eq!(
        handshake_lines("oauth:abc", "joxtabot", "joxtacy"),
        vec![
            String::from("PASS oauth:abc"),
            String::from("NICK joxtabot"),
            String::from("JOIN #joxtacy"),
            String::from("CAP REQ :twitch.tv/membership"),
            String::from("CAP REQ :twitch.tv/tags twitch.tv/commands"),
        ]
    );
}

#[test]
fn queued_privmsg_becomes_a_chat_line() {
    let command = TwitchCommand::Privmsg { message: String::from("/emoteonly") };
    assert_eq!(outbound_line(&command, "joxtacy"), Some(String::from("PRIVMSG #joxtacy :/emoteonly")));
    assert_eq!(outbound_line(&TwitchCommand::Nice, "joxtacy"), None);
}

fn notification(kind: &str, title: &str) -> TwitchMessage {
    let s = |v: &str| String::from(v);
    TwitchMessage {
        subscription: Subscription {
            condition: Condition { broadcaster_user_id: s("1") },
            cost: 0,
            created_at: s(""),
            id: s("sub"),
            message_type: s(kind),
            status: s("enabled"),
            transport: Transport { method: s("webhook"), callback: s("null") },
            version: s("1"),
        },
        event: Event {
            broadcaster_user_id: s("1"),
            broadcaster_user_login: s("b"),
            broadcaster_user_name: s("b"),
            event_type: s(""),
            id: s("e"),
            redeemed_at: s(""),
            reward: Reward { id: s("r"), title: s(title), cost: 1, prompt: s("") },
            started_at: s(""),
            status: s(""),
            user_id: s("2"),
            user_input: s(""),
            user_login: s("viewer"),
            user_name: s("Viewer"),
        },
    }
}

#[test]
fn nice_redemption_is_broadcast() {
    let command = handle_webhook_message(notification(
        "channel.channel_points_custom_reward_redemption.add",
        "Nice",
    ));
    assert_eq!(command, TwitchCommand::Nice);
    assert_eq!(actions_for(&command), vec![HubAction::Broadcast(String::from("Nice"))]);
}

#[test]
fn broadcast_texts_for_ded_and_four_twenty() {
    assert_eq!(actions_for(&TwitchCommand::Ded), vec![HubAction::Broadcast(String::from("Death"))]);
    assert_eq!(actions_for(&TwitchCommand::FourTwenty), vec![HubAction::Broadcast(String::from("420"))]);
    assert_eq!(
        actions_for(&TwitchCommand::First(String::from("Viewer"))),
        vec![HubAction::RecordFirst(String::from("First: Viewer"))]
    );
    assert!(actions_for(&TwitchCommand::Pushup(1)).is_empty());
    assert!(actions_for(&TwitchCommand::UnsupportedMessage).is_empty());
}

#[test]
fn emote_only_is_switched_off_later() {
    assert_eq!(
        actions_for(&TwitchCommand::EmoteOnly),
        vec![
            HubAction::Enqueue(TwitchCommand::Privmsg { message: String::from("/emoteonly") }),
            HubAction::EnqueueLater {
                seconds: 120,
                command: TwitchCommand::Privmsg { message: String::from("/emoteonlyoff") },
            },
        ]
    );
}

fn stream(game: &str, title: &str) -> StreamData {
    let s = |v: &str| String::from(v);
    StreamData {
        id: s("1"),
        user_id: s("2"),
        user_login: s("joxtacy"),
        user_name: s("Joxtacy"),
        game_id: s("3"),
        game_name: s(game),
        stream_type: s("live"),
        title: s(title),
        tags: vec![],
        viewer_count: 7,
        started_at: s("2022-01-01T00:00:00Z"),
        language: s("en"),
        thumbnail_url: s(""),
        is_mature: false,
    }
}

#[test]
fn stream_online_announces_game_and_title() {
    let command = handle_webhook_message(notification("stream.online", ""));
    assert_eq!(command, TwitchCommand::StreamOnline);
    assert_eq!(
        actions_for(&command),
        vec![HubAction::RecordFirst(String::from("First:")), HubAction::AnnounceStream]
    );
    let info = StreamInfo {
        data: vec![stream("Rust", "Coding"), stream("Other", "Ignored")],
        pagination: Pagination { cursor: None },
    };
    assert_eq!(
        stream_announcement(&info),
        "Hi @everyone! I am **live**!\n> Playing: Rust\n> Title: Coding\nhttps://twitch.tv/joxtacy"
    );
    let empty = StreamInfo { data: vec![], pagination: Pagination { cursor: None } };
    assert_eq!(
        stream_announcement(&empty),
        "Hi @everyone! I am **live**!\n> Playing: something went wrong\n> Title: something went wrong\nhttps://twitch.tv/joxtacy"
    );
}

#[test]
fn link_handshake_then_replies() {
    let (state, actions) = link_step_for(LinkState::Connecting, &LinkEvent::Connected, "oauth:x", "joxtabot", "joxtacy");
    assert_eq!(state, LinkState::Open);
    assert_eq!(
        actions,
        vec![
            LinkAction::Send(String::from("PASS oauth:x")),
            LinkAction::Send(String::from("NICK joxtabot")),
            LinkAction::Send(String::from("JOIN #joxtacy")),
            LinkAction::Send(String::from("CAP REQ :twitch.tv/membership")),
            LinkAction::Send(String::from("CAP REQ :twitch.tv/tags twitch.tv/commands")),
            LinkAction::Send(String::from("PRIVMSG #joxtacy :I have risen!")),
        ]
    );
    let (state, actions) = link_step_for(LinkState::Open, &LinkEvent::Frame(String::from("PING :tmi.twitch.tv")), "t", "n", "c");
    assert_eq!(state, LinkState::Open);
    assert_eq!(actions, vec![LinkAction::Send(String::from("PONG :tmi.twitch.tv"))]);
}

#[test]
fn link_reconnects_and_shuts_down() {
    let (state, actions) = link_step_for(LinkState::Connecting, &LinkEvent::ConnectFailed, "t", "n", "c");
    assert_eq!((state, actions), (LinkState::Connecting, vec![LinkAction::Reconnect { delay_seconds: 5 }]));
    let (state, actions) = link_step_for(LinkState::Open, &LinkEvent::StreamEnded, "t", "n", "c");
    assert_eq!((state, actions), (LinkState::Connecting, vec![LinkAction::Reconnect { delay_seconds: 5 }]));
    let queued = LinkEvent::Queued(TwitchCommand::Privmsg { message: String::from("/emoteonly") });
    let (_, actions) = link_step_for(LinkState::Open, &queued, "t", "n", "c");
    assert_eq!(actions, vec![LinkAction::Send(String::from("PRIVMSG #c :/emoteonly"))]);
    let (state, actions) = link_step_for(LinkState::Open, &LinkEvent::Shutdown, "t", "n", "c");
    assert_eq!(state, LinkState::Closed);
    assert_eq!(
        actions,
        vec![
            LinkAction::Send(String::from("PRIVMSG #c :So long, and thanks for all the fish.")),
            LinkAction::Close,
        ]
    );
    let (state, actions) = link_step_for(LinkState::Closed, &LinkEvent::Connected, "t", "n", "c");
    assert_eq!((state, actions), (LinkState::Closed, vec![]));
}
