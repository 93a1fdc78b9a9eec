use twitch_hub::{parse_message, Badge, Command, ParsedTwitchMessage, Source, Tag, TagSet, UserType};

#[test]
fn message_without_tags() {
    let message = ":tmi.twitch.tv GLOBALUSERSTATE";

    let actual = parse_message(message);

    let expected = ParsedTwitchMessage {
        command: Command::GLOBALUSERSTATE { tags: None },
        source: Some(Source { host: String::from("tmi.twitch.tv"), nick: None }),
    };

    assert_eq!(actual, expected);
}

#[test]
fn globaluserstate_message_with_tags() {
    let message = "@badge-info=subscriber/8;badges=subscriber/6;color=#0D4200;display-name=dallas;emote-sets=0,33,50,237,793,2126,3517,4578,5569,9400,10337,12239;turbo=0;user-id=12345678;user-type=admin :tmi.twitch.tv GLOBALUSERSTATE";

    let actual = parse_message(message);

    let mut expected_tags: TagSet<Tag> = TagSet::new();
    expected_tags.insert(String::from("badge-info"), Tag::BadgeInfo(8));
    expected_tags.insert(String::from("badges"), Tag::Badges(vec![Badge::Subscriber(6)]));
    expected_tags.insert(String::from("color"), Tag::Color(String::from("#0D4200")));
    expected_tags.insert(String::from("display-name"), Tag::DisplayName(String::from("dallas")));
    expected_tags.insert(
        String::from("emote-sets"),
        Tag::EmoteSets(vec![0, 33, 50, 237, 793, 2126, 3517, 4578, 5569, 9400, 10337, 12239]),
    );
    expected_tags.insert(String::from("turbo"), Tag::Turbo(false));
    expected_tags.insert(String::from("user-id"), Tag::UserId(String::from("12345678")));
    expected_tags.insert(String::from("user-type"), Tag::UserType(UserType::Admin));

    let expected = ParsedTwitchMessage {
        source: Some(Source { host: String::from("tmi.twitch.tv"), nick: None }),
        command: Command::GLOBALUSERSTATE { tags: Some(expected_tags) },
    };

    assert_eq!(actual, expected);
}
