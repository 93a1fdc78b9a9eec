use twitch_hub::simple::{
    parse_bot_command, parse_command, parse_message, parse_parameters, parse_source, parse_tags,
    Badge, Command, Parameters, ParsedTwitchMessage, Tag,
};
use twitch_hub::{BotCommand, Emote, Source, TagSet, TextPosition, UserType};

fn create_tags() -> TagSet<Tag> {
    let mut tags = TagSet::new();
    tags.insert(
        String::from("badges"),
        Tag::Badges(vec![Badge::STAFF(1), Badge::BROADCASTER(1), Badge::TURBO(1)]),
    );
    tags.insert(String::from("color"), Tag::Color(String::from("#FF0000")));
    tags.insert(String::from("display-name"), Tag::DisplayName(String::from("PetsgomOO")));
    tags.insert(String::from("emote-only"), Tag::EmoteOnly(true));
    tags.insert(
        String::from("emotes"),
        Tag::Emotes(vec![Emote {
            id: 33,
            positions: vec![TextPosition { start_index: 0, end_index: 7 }],
        }]),
    );
    tags.insert(String::from("flags"), Tag::Unknown);
    tags.insert(String::from("id"), Tag::Id(String::from("c285c9ed-8b1b-4702-ae1c-c64d76cc74ef")));
    tags.insert(String::from("mod"), Tag::Mod(false));
    tags.insert(String::from("room-id"), Tag::RoomId(String::from("81046256")));
    tags.insert(String::from("subscriber"), Tag::Subscriber(false));
    tags.insert(String::from("turbo"), Tag::Turbo(false));
    tags.insert(String::from("tmi-sent-ts"), Tag::TmiSentTs(String::from("1550868292494")));
    tags.insert(String::from("user-id"), Tag::UserId(String::from("81046256")));
    tags.insert(String::from("user-type"), Tag::UserType(UserType::Staff));
    tags
}

#[test]
fn lib_ping_has_command_component() {
    let result = parse_message("PING :tmi.twitch.tv");

    assert_eq!(result.command, Command::PING);
}

#[test]
fn lib_test_parse_message() {
    let message = ":lovingt3s!lovingt3s@lovingt3s.tmi.twitch.tv PRIVMSG #lovingt3s :!dilly dally";

    let result = parse_message(message);

    let expected_bot_command = BotCommand {
        command: String::from("dilly"),
        parameters: vec![String::from("dally")],
    };
    let expected_parameters = Parameters {
        parameters: vec![String::from("!dilly"), String::from("dally")],
    };
    let expected_source = Source {
        nick: Some(String::from("lovingt3s")),
        host: String::from("lovingt3s@lovingt3s.tmi.twitch.tv"),
    };

    assert_eq!(result.command, Command::PRIVMSG(String::from("#lovingt3s")));

    assert!(result.bot_command.is_some());
    assert_eq!(result.bot_command.unwrap(), expected_bot_command);

    assert!(result.parameters.is_some());
    assert_eq!(result.parameters.unwrap(), expected_parameters);

    assert!(result.source.is_some());
    assert_eq!(result.source.unwrap(), expected_source);
}

#[test]
fn lib_message_with_tags() {
    let message = "@badges=staff/1,broadcaster/1,turbo/1;color=#FF0000;display-name=PetsgomOO;emote-only=1;emotes=33:0-7;flags=0-7:A.6/P.6,25-36:A.1/I.2;id=c285c9ed-8b1b-4702-ae1c-c64d76cc74ef;mod=0;room-id=81046256;subscriber=0;turbo=0;tmi-sent-ts=1550868292494;user-id=81046256;user-type=staff :petsgomoo!petsgomoo@petsgomoo.tmi.twitch.tv PRIVMSG #petsgomoo :DansGame";

    let actual = parse_message(message);

    let expected = ParsedTwitchMessage {
        tags: create_tags(),
        source: Some(Source {
            nick: Some(String::from("petsgomoo")),
            host: String::from("petsgomoo@petsgomoo.tmi.twitch.tv"),
        }),
        command: Command::PRIVMSG(String::from("#petsgomoo")),
        bot_command: None,
        parameters: Some(Parameters { parameters: vec![String::from("DansGame")] }),
    };

    assert_eq!(actual, expected);
}

#[test]
fn lib_test_parse_tags() {
    let message = "badges=staff/1,broadcaster/1,turbo/1;color=#FF0000;display-name=PetsgomOO;emote-only=1;emotes=33:0-7;flags=0-7:A.6/P.6,25-36:A.1/I.2;id=c285c9ed-8b1b-4702-ae1c-c64d76cc74ef;mod=0;room-id=81046256;subscriber=0;turbo=0;tmi-sent-ts=1550868292494;user-id=81046256;user-type=staff";

    assert_eq!(parse_tags(message), create_tags());
}

#[test]
fn lib_test_parse_source() {
    let actual_source = parse_source("petsgomoo!petsgomoo@petsgomoo.tmi.twitch.tv");

    let expected_source = Source {
        nick: Some(String::from("petsgomoo")),
        host: String::from("petsgomoo@petsgomoo.tmi.twitch.tv"),
    };

    assert_eq!(actual_source, expected_source);
}

#[test]
fn lib_test_parse_command() {
    assert_eq!(parse_command("PRIVMSG #lovingt3s"), Command::PRIVMSG(String::from("#lovingt3s")));
    assert_eq!(parse_command("PING :tmi.twitch.tv"), Command::PING);
}

#[test]
fn lib_test_parse_bot_command() {
    let result = parse_bot_command("!dilly dally wally");
    let expected_bot_command = BotCommand {
        command: String::from("dilly"),
        parameters: vec![String::from("dally"), String::from("wally")],
    };
    assert!(result.is_some());
    assert_eq!(result.unwrap(), expected_bot_command);

    assert!(parse_bot_command("").is_none());
    assert!(parse_bot_command("! not a bot command").is_none());
}

#[test]
fn test_parse_parameters() {
    assert_eq!(
        parse_parameters("!dilly dally"),
        Parameters { parameters: vec![String::from("!dilly"), String::from("dally")] }
    );
    assert_eq!(parse_parameters(""), Parameters { parameters: vec![String::from("")] });
}
