//! The chat protocol parser: a raw line becomes a [`ParsedTwitchMessage`].
//!
//! Each function is total: malformed fragments decode to a fixed default
//! (an unparseable number is 0, an unknown tag key is `Tag::Unknown`, an
//! unknown verb is `Command::UNSUPPORTED`).
use vstd::prelude::*;

use crate::text::{
    lemma_split_append, lemma_split_no_sep, chars_of, find_char, index_of, lemma_index_of_bounds, parse_u32, sub_string, lemma_split_nonempty, parse_i32, parse_signed, parse_unsigned, parse_usize, split, split_on, str_eq, trim,
    trim_str, views,
};
use crate::types::{
    Command, CommandModel, MessageModel, ParsedTwitchMessage, command_tags_wf, emote_views, bot_command_view, Badge, BotCommand, BotCommandModel, Emote, EmoteModel, Source,
    SourceModel, Tag, TagModel, TagSet, TagsModel, TextPosition, UserType, tag_models,
};

verus! {

/// A number field: its value, or 0 when it does not parse as a `usize`.
pub open spec fn usize_or_zero(s: Seq<char>) -> usize {
    match parse_unsigned(s, usize::MAX as int) {
        Some(v) => v as usize,
        None => 0,
    }
}

/// One `name/version` entry of the `badges` tag.
pub open spec fn badge_of(piece: Seq<char>) -> Badge {
    let parts = split(piece, '/');
    let name = parts[0];
    let version = if parts.len() > 1 {
        usize_or_zero(parts[1])
    } else {
        0
    };
    if name == "admin"@ {
        Badge::Admin(version)
    } else if name == "bits"@ {
        Badge::Bits(version)
    } else if name == "broadcaster"@ {
        Badge::Broadcaster(version)
    } else if name == "moderator"@ {
        Badge::Moderator(version)
    } else if name == "premium"@ {
        Badge::Premium(version)
    } else if name == "staff"@ {
        Badge::Staff(version)
    } else if name == "subscriber"@ {
        Badge::Subscriber(version)
    } else if name == "turbo"@ {
        Badge::Turbo(version)
    } else if name == "vip"@ {
        Badge::Vip(version)
    } else {
        Badge::Unknown
    }
}

/// A comma-separated badge list.
pub open spec fn badges_of(raw: Seq<char>) -> Seq<Badge> {
    if raw.len() == 0 {
        Seq::empty()
    } else {
        split(raw, ',').map_values(|p: Seq<char>| badge_of(p))
    }
}

/// A `start-end` position.
pub open spec fn position_of(piece: Seq<char>) -> TextPosition {
    let parts = split(piece, '-');
    TextPosition {
        start_index: usize_or_zero(parts[0]),
        end_index: if parts.len() > 1 {
            usize_or_zero(parts[1])
        } else {
            0
        },
    }
}

/// One `id:start-end,start-end` entry of the `emotes` tag.
pub open spec fn emote_of(piece: Seq<char>) -> EmoteModel {
    let parts = split(piece, ':');
    EmoteModel {
        id: usize_or_zero(parts[0]),
        positions: if parts.len() > 1 {
            split(parts[1], ',').map_values(|p: Seq<char>| position_of(p))
        } else {
            Seq::empty()
        },
    }
}

/// A `/`-separated emote list.
pub open spec fn emotes_of(raw: Seq<char>) -> Seq<EmoteModel> {
    if raw.len() == 0 {
        Seq::empty()
    } else {
        split(raw, '/').map_values(|p: Seq<char>| emote_of(p))
    }
}

/// A comma-separated list of emote set ids.
pub open spec fn emote_sets_of(raw: Seq<char>) -> Seq<usize> {
    if raw.len() == 0 {
        Seq::empty()
    } else {
        split(raw, ',').map_values(|p: Seq<char>| usize_or_zero(p))
    }
}

/// A source block: `nick!host` or a bare host.
pub open spec fn source_of(raw: Seq<char>) -> SourceModel {
    let parts = split(raw, '!');
    if parts.len() > 1 {
        SourceModel { nick: Some(parts[0]), host: parts[1] }
    } else {
        SourceModel { nick: None, host: parts[0] }
    }
}

/// The bot command a chat message carries: `!command param param ...`.
pub open spec fn bot_command_of(raw: Seq<char>) -> Option<BotCommandModel> {
    let t = trim(raw);
    if t.len() == 0 || t[0] != '!' {
        None
    } else {
        let body = t.skip(1);
        if body.len() == 0 || body[0] == ' ' {
            None
        } else {
            let words = split(body, ' ');
            Some(BotCommandModel { command: words[0], parameters: words.skip(1) })
        }
    }
}

fn number_or_zero(s: &str) -> (r: usize)
    ensures
        r == usize_or_zero(s@),
{
    match parse_usize(s) {
        Some(v) => v,
        None => 0,
    }
}

fn badge_from(piece: &str) -> (r: Badge)
    ensures
        r == badge_of(piece@),
{
    let parts = split_on(piece, '/');
    proof {
        lemma_split_nonempty(piece@, '/');
    }
    assert(parts@[0]@ == split(piece@, '/')[0]);
    let name = parts[0].as_str();
    let version = if parts.len() > 1 {
        assert(parts@[1]@ == split(piece@, '/')[1]);
        number_or_zero(parts[1].as_str())
    } else {
        0
    };
    if str_eq(name, "admin") {
        Badge::Admin(version)
    } else if str_eq(name, "bits") {
        Badge::Bits(version)
    } else if str_eq(name, "broadcaster") {
        Badge::Broadcaster(version)
    } else if str_eq(name, "moderator") {
        Badge::Moderator(version)
    } else if str_eq(name, "premium") {
        Badge::Premium(version)
    } else if str_eq(name, "staff") {
        Badge::Staff(version)
    } else if str_eq(name, "subscriber") {
        Badge::Subscriber(version)
    } else if str_eq(name, "turbo") {
        Badge::Turbo(version)
    } else if str_eq(name, "vip") {
        Badge::Vip(version)
    } else {
        Badge::Unknown
    }
}

/// Decodes the value of a `badges` tag, e.g. `staff/1,broadcaster/1`.
pub fn parse_badges(raw_badges: &str) -> (r: Vec<Badge>)
    ensures
        r@ == badges_of(raw_badges@),
{
    let mut badges: Vec<Badge> = Vec::new();
    if raw_badges.is_empty() {
        assert(badges@ =~= badges_of(raw_badges@));
        return badges;
    }
    let pieces = split_on(raw_badges, ',');
    let ghost ps = views(pieces@);
    let mut i: usize = 0;
    while i < pieces.len()
        invariant
            ps == views(pieces@),
            i <= pieces.len(),
            badges@ =~= ps.take(i as int).map_values(|p: Seq<char>| badge_of(p)),
        decreases pieces.len() - i,
    {
        let b = badge_from(pieces[i].as_str());
        badges.push(b);
        assert(ps.take(i + 1).map_values(|p: Seq<char>| badge_of(p)) =~= ps.take(
            i as int,
        ).map_values(|p: Seq<char>| badge_of(p)).push(b));
        i = i + 1;
    }
    assert(ps.take(pieces.len() as int) =~= ps);
    badges
}

fn position_from(piece: &str) -> (r: TextPosition)
    ensures
        r == position_of(piece@),
{
    let parts = split_on(piece, '-');
    proof {
        lemma_split_nonempty(piece@, '-');
    }
    assert(parts@[0]@ == split(piece@, '-')[0]);
    let start_index = number_or_zero(parts[0].as_str());
    let end_index = if parts.len() > 1 {
        assert(parts@[1]@ == split(piece@, '-')[1]);
        number_or_zero(parts[1].as_str())
    } else {
        0
    };
    TextPosition { start_index, end_index }
}

fn emote_from(piece: &str) -> (r: Emote)
    ensures
        r@ == emote_of(piece@),
{
    let parts = split_on(piece, ':');
    proof {
        lemma_split_nonempty(piece@, ':');
    }
    assert(parts@[0]@ == split(piece@, ':')[0]);
    let id = number_or_zero(parts[0].as_str());
    let mut positions: Vec<TextPosition> = Vec::new();
    if parts.len() > 1 {
        assert(parts@[1]@ == split(piece@, ':')[1]);
        let raw = parts[1].as_str();
        let pieces = split_on(raw, ',');
        let ghost ps = views(pieces@);
        let mut i: usize = 0;
        while i < pieces.len()
            invariant
                ps == views(pieces@),
                i <= pieces.len(),
                positions@ =~= ps.take(i as int).map_values(|p: Seq<char>| position_of(p)),
            decreases pieces.len() - i,
        {
            let t = position_from(pieces[i].as_str());
            positions.push(t);
            assert(ps.take(i + 1).map_values(|p: Seq<char>| position_of(p)) =~= ps.take(
                i as int,
            ).map_values(|p: Seq<char>| position_of(p)).push(t));
            i = i + 1;
        }
        assert(ps.take(pieces.len() as int) =~= ps);
    } else {
        assert(positions@ =~= Seq::<TextPosition>::empty());
    }
    Emote { id, positions }
}

/// Decodes the value of an `emotes` tag, e.g. `25:0-4,12-16/1902:6-10`.
pub fn parse_emotes(raw_emotes: &str) -> (r: Vec<Emote>)
    ensures
        emote_views(r@) == emotes_of(raw_emotes@),
{
    let mut emotes: Vec<Emote> = Vec::new();
    if raw_emotes.is_empty() {
        assert(emote_views(emotes@) =~= emotes_of(raw_emotes@));
        return emotes;
    }
    let pieces = split_on(raw_emotes, '/');
    let ghost ps = views(pieces@);
    let mut i: usize = 0;
    while i < pieces.len()
        invariant
            ps == views(pieces@),
            i <= pieces.len(),
            emote_views(emotes@) =~= ps.take(i as int).map_values(|p: Seq<char>| emote_of(p)),
        decreases pieces.len() - i,
    {
        let e = emote_from(pieces[i].as_str());
        let ghost ev = e@;
        emotes.push(e);
        assert(emote_views(emotes@) =~= ps.take(i as int).map_values(
            |p: Seq<char>| emote_of(p),
        ).push(ev));
        assert(ps.take(i + 1).map_values(|p: Seq<char>| emote_of(p)) =~= ps.take(
            i as int,
        ).map_values(|p: Seq<char>| emote_of(p)).push(ev));
        i = i + 1;
    }
    assert(ps.take(pieces.len() as int) =~= ps);
    emotes
}

/// Decodes the value of an `emote-sets` tag, e.g. `0,33,50`.
pub fn parse_emote_sets(raw_emote_sets: &str) -> (r: Vec<usize>)
    ensures
        r@ == emote_sets_of(raw_emote_sets@),
{
    let mut sets: Vec<usize> = Vec::new();
    if raw_emote_sets.is_empty() {
        assert(sets@ =~= emote_sets_of(raw_emote_sets@));
        return sets;
    }
    let pieces = split_on(raw_emote_sets, ',');
    let ghost ps = views(pieces@);
    let mut i: usize = 0;
    while i < pieces.len()
        invariant
            ps == views(pieces@),
            i <= pieces.len(),
            sets@ =~= ps.take(i as int).map_values(|p: Seq<char>| usize_or_zero(p)),
        decreases pieces.len() - i,
    {
        let n = number_or_zero(pieces[i].as_str());
        sets.push(n);
        assert(ps.take(i + 1).map_values(|p: Seq<char>| usize_or_zero(p)) =~= ps.take(
            i as int,
        ).map_values(|p: Seq<char>| usize_or_zero(p)).push(n));
        i = i + 1;
    }
    assert(ps.take(pieces.len() as int) =~= ps);
    sets
}

/// Decodes a source block: `nick!host`, or a bare host.
pub fn parse_source(raw_source: &str) -> (r: Source)
    ensures
        r@ == source_of(raw_source@),
{
    let mut parts = split_on(raw_source, '!');
    proof {
        lemma_split_nonempty(raw_source@, '!');
    }
    let ghost ps = views(parts@);
    assert(ps[0] == parts@[0]@);
    if parts.len() > 1 {
        assert(ps[1] == parts@[1]@);
        let host = parts.remove(1);
        let nick = parts.remove(0);
        Source { nick: Some(nick), host }
    } else {
        let host = parts.remove(0);
        Source { nick: None, host }
    }
}

/// The bot command in a chat message, if it is one: `!command param ...`.
pub fn parse_bot_command(raw_bot_command: &str) -> (r: Option<BotCommand>)
    ensures
        bot_command_view(r) == bot_command_of(raw_bot_command@),
{
    let t = trim_str(raw_bot_command);
    let cs = chars_of(t);
    if cs.len() == 0 || cs[0] != '!' {
        return None;
    }
    let body = t.substring_char(1, cs.len());
    assert(body@ == t@.skip(1));
    let bs = chars_of(body);
    if bs.len() == 0 || bs[0] == ' ' {
        return None;
    }
    let mut words = split_on(body, ' ');
    proof {
        lemma_split_nonempty(body@, ' ');
    }
    let ghost ws = views(words@);
    let command = words.remove(0);
    assert(views(words@) =~= ws.skip(1));
    Some(BotCommand { command, parameters: words })
}

/// A boolean tag: exactly `1` is true.
pub open spec fn flag_of(value: Option<Seq<char>>) -> bool {
    value == Some("1"@)
}

/// A text tag: its value, or `default` when the key has no `=`.
pub open spec fn text_of(value: Option<Seq<char>>, default: Seq<char>) -> Seq<char> {
    match value {
        Some(v) => v,
        None => default,
    }
}

/// A count tag: its value, or 0 when absent or unparseable.
pub open spec fn count_of(value: Option<Seq<char>>) -> usize {
    match value {
        Some(v) => usize_or_zero(v),
        None => 0,
    }
}

/// The `user-type` tag.
pub open spec fn user_type_of(value: Option<Seq<char>>) -> UserType {
    match value {
        Some(v) => {
            let t = trim(v);
            if t == "admin"@ {
                UserType::Admin
            } else if t == "global_mod"@ {
                UserType::GlobalMod
            } else if t == "staff"@ {
                UserType::Staff
            } else {
                UserType::Normal
            }
        },
        None => UserType::Normal,
    }
}

/// The `followers-only` tag: minutes, or -1 when absent or unparseable.
pub open spec fn followers_of(value: Option<Seq<char>>) -> i32 {
    match value {
        Some(v) => match parse_signed(v, i32::MIN as int, i32::MAX as int) {
            Some(n) => n as i32,
            None => -1i32,
        },
        None => -1i32,
    }
}

/// The `badge-info` tag: the number after the first `/`, else 0.
pub open spec fn badge_info_of(value: Option<Seq<char>>) -> usize {
    match value {
        Some(v) => {
            let parts = split(v, '/');
            if parts.len() > 1 {
                usize_or_zero(parts[1])
            } else {
                0
            }
        },
        None => 0,
    }
}

/// What a tag decodes to, given its key and its value (`None` when the
/// entry has no `=`).
pub open spec fn decode_tag(key: Seq<char>, value: Option<Seq<char>>) -> TagModel {
    let e = ""@;
    if key == "badge-info"@ {
        TagModel::BadgeInfo(badge_info_of(value))
    } else if key == "badges"@ {
        TagModel::Badges(badges_of(text_of(value, e)))
    } else if key == "ban-duration"@ {
        TagModel::BanDuration(count_of(value))
    } else if key == "color"@ {
        TagModel::Color(text_of(value, e))
    } else if key == "client-nonce"@ {
        TagModel::ClientNonce(text_of(value, e))
    } else if key == "display-name"@ {
        TagModel::DisplayName(text_of(value, e))
    } else if key == "emote-only"@ {
        TagModel::EmoteOnly(flag_of(value))
    } else if key == "emotes"@ {
        TagModel::Emotes(emotes_of(text_of(value, e)))
    } else if key == "emote-sets"@ {
        TagModel::EmoteSets(emote_sets_of(text_of(value, e)))
    } else if key == "first-msg"@ {
        TagModel::FirstMsg(flag_of(value))
    } else if key == "followers-only"@ {
        TagModel::FollowersOnly(followers_of(value))
    } else if key == "id"@ {
        TagModel::Id(text_of(value, "0"@))
    } else if key == "login"@ {
        TagModel::Login(text_of(value, e))
    } else if key == "mod"@ {
        TagModel::Mod(flag_of(value))
    } else if key == "msg-id"@ {
        TagModel::MsgId(text_of(value, e))
    } else if key == "msg-param-cumulative-months"@ {
        TagModel::MsgParamCumulativeMonths(count_of(value))
    } else if key == "msg-param-months"@ {
        TagModel::MsgParamMonths(count_of(value))
    } else if key == "msg-param-recipient-display-name"@ {
        TagModel::MsgParamRecipientDisplayName(text_of(value, e))
    } else if key == "msg-param-recipient-id"@ {
        TagModel::MsgParamRecipientId(text_of(value, e))
    } else if key == "msg-param-recipient-name"@ {
        TagModel::MsgParamRecipientName(text_of(value, e))
    } else if key == "msg-param-streak-months"@ {
        TagModel::MsgParamStreakMonths(count_of(value))
    } else if key == "msg-param-should-share-streak"@ {
        TagModel::MsgParamShouldShareStreak(flag_of(value))
    } else if key == "msg-param-sub-plan"@ {
        TagModel::MsgParamSubPlan(text_of(value, e))
    } else if key == "msg-param-sub-plan-name"@ {
        TagModel::MsgParamSubPlanName(text_of(value, e))
    } else if key == "r9k"@ {
        TagModel::R9K(flag_of(value))
    } else if key == "room-id"@ {
        TagModel::RoomId(text_of(value, "0"@))
    } else if key == "slow"@ {
        TagModel::Slow(count_of(value))
    } else if key == "subs-only"@ {
        TagModel::SubsOnly(flag_of(value))
    } else if key == "subscriber"@ {
        TagModel::Subscriber(flag_of(value))
    } else if key == "system-msg"@ {
        TagModel::SystemMsg(text_of(value, e))
    } else if key == "target-msg-id"@ {
        TagModel::TargetMsgId(text_of(value, e))
    } else if key == "target-user-id"@ {
        TagModel::TargetUserId(text_of(value, e))
    } else if key == "turbo"@ {
        TagModel::Turbo(flag_of(value))
    } else if key == "tmi-sent-ts"@ {
        TagModel::TmiSentTs(text_of(value, "0"@))
    } else if key == "user-id"@ {
        TagModel::UserId(text_of(value, "0"@))
    } else if key == "user-type"@ {
        TagModel::UserType(user_type_of(value))
    } else {
        TagModel::Unknown
    }
}

/// The key of a `key=value` entry.
pub open spec fn entry_key(piece: Seq<char>) -> Seq<char> {
    split(piece, '=')[0]
}

/// The value of a `key=value` entry: the text up to a second `=`, if any.
pub open spec fn entry_value(piece: Seq<char>) -> Option<Seq<char>> {
    let parts = split(piece, '=');
    if parts.len() > 1 {
        Some(parts[1])
    } else {
        None
    }
}

/// The tags that a list of `key=value` entries describes; for a repeated
/// key the last entry counts.
pub open spec fn entries_tags(pieces: Seq<Seq<char>>) -> TagsModel
    decreases pieces.len(),
{
    if pieces.len() == 0 {
        Map::empty()
    } else {
        let p = pieces.last();
        entries_tags(pieces.drop_last()).insert(entry_key(p), decode_tag(entry_key(p), entry_value(p)))
    }
}

/// The tags of a tag block `k1=v1;k2=v2;...` (without the leading `@`).
pub open spec fn tags_of(raw: Seq<char>) -> TagsModel {
    if raw.len() == 0 {
        Map::empty()
    } else {
        entries_tags(split(raw, ';'))
    }
}

fn text_value(value: Option<&str>, default: &str) -> (r: String)
    ensures
        r@ == text_of(
            match value {
                Some(v) => Some(v@),
                None => None,
            },
            default@,
        ),
{
    match value {
        Some(v) => v.to_owned(),
        None => default.to_owned(),
    }
}

fn flag_value(value: Option<&str>) -> (r: bool)
    ensures
        r == flag_of(
            match value {
                Some(v) => Some(v@),
                None => None,
            },
        ),
{
    match value {
        Some(v) => str_eq(v, "1"),
        None => false,
    }
}

fn count_value(value: Option<&str>) -> (r: usize)
    ensures
        r == count_of(
            match value {
                Some(v) => Some(v@),
                None => None,
            },
        ),
{
    match value {
        Some(v) => number_or_zero(v),
        None => 0,
    }
}

/// Decodes one tag from its key and value.
fn decode_tag_value(key: &str, value: Option<&str>) -> (r: Tag)
    ensures
        r@ == decode_tag(
            key@,
            match value {
                Some(v) => Some(v@),
                None => None,
            },
        ),
{
    if str_eq(key, "badge-info") {
        let n = match value {
            Some(v) => {
                let parts = split_on(v, '/');
                if parts.len() > 1 {
                    assert(parts@[1]@ == split(v@, '/')[1]);
                    number_or_zero(parts[1].as_str())
                } else {
                    0
                }
            },
            None => 0,
        };
        Tag::BadgeInfo(n)
    } else if str_eq(key, "badges") {
        let raw = text_value(value, "");
        Tag::Badges(parse_badges(raw.as_str()))
    } else if str_eq(key, "ban-duration") {
        Tag::BanDuration(count_value(value))
    } else if str_eq(key, "color") {
        Tag::Color(text_value(value, ""))
    } else if str_eq(key, "client-nonce") {
        Tag::ClientNonce(text_value(value, ""))
    } else if str_eq(key, "display-name") {
        Tag::DisplayName(text_value(value, ""))
    } else if str_eq(key, "emote-only") {
        Tag::EmoteOnly(flag_value(value))
    } else if str_eq(key, "emotes") {
        let raw = text_value(value, "");
        Tag::Emotes(parse_emotes(raw.as_str()))
    } else if str_eq(key, "emote-sets") {
        let raw = text_value(value, "");
        Tag::EmoteSets(parse_emote_sets(raw.as_str()))
    } else if str_eq(key, "first-msg") {
        Tag::FirstMsg(flag_value(value))
    } else if str_eq(key, "followers-only") {
        let n = match value {
            Some(v) => match parse_i32(v) {
                Some(n) => n,
                None => -1,
            },
            None => -1,
        };
        Tag::FollowersOnly(n)
    } else if str_eq(key, "id") {
        Tag::Id(text_value(value, "0"))
    } else if str_eq(key, "login") {
        Tag::Login(text_value(value, ""))
    } else if str_eq(key, "mod") {
        Tag::Mod(flag_value(value))
    } else if str_eq(key, "msg-id") {
        Tag::MsgId(text_value(value, ""))
    } else if str_eq(key, "msg-param-cumulative-months") {
        Tag::MsgParamCumulativeMonths(count_value(value))
    } else if str_eq(key, "msg-param-months") {
        Tag::MsgParamMonths(count_value(value))
    } else if str_eq(key, "msg-param-recipient-display-name") {
        Tag::MsgParamRecipientDisplayName(text_value(value, ""))
    } else if str_eq(key, "msg-param-recipient-id") {
        Tag::MsgParamRecipientId(text_value(value, ""))
    } else if str_eq(key, "msg-param-recipient-name") {
        Tag::MsgParamRecipientName(text_value(value, ""))
    } else if str_eq(key, "msg-param-streak-months") {
        Tag::MsgParamStreakMonths(count_value(value))
    } else if str_eq(key, "msg-param-should-share-streak") {
        Tag::MsgParamShouldShareStreak(flag_value(value))
    } else if str_eq(key, "msg-param-sub-plan") {
        Tag::MsgParamSubPlan(text_value(value, ""))
    } else if str_eq(key, "msg-param-sub-plan-name") {
        Tag::MsgParamSubPlanName(text_value(value, ""))
    } else if str_eq(key, "r9k") {
        Tag::R9K(flag_value(value))
    } else if str_eq(key, "room-id") {
        Tag::RoomId(text_value(value, "0"))
    } else if str_eq(key, "slow") {
        Tag::Slow(count_value(value))
    } else if str_eq(key, "subs-only") {
        Tag::SubsOnly(flag_value(value))
    } else if str_eq(key, "subscriber") {
        Tag::Subscriber(flag_value(value))
    } else if str_eq(key, "system-msg") {
        Tag::SystemMsg(text_value(value, ""))
    } else if str_eq(key, "target-msg-id") {
        Tag::TargetMsgId(text_value(value, ""))
    } else if str_eq(key, "target-user-id") {
        Tag::TargetUserId(text_value(value, ""))
    } else if str_eq(key, "turbo") {
        Tag::Turbo(flag_value(value))
    } else if str_eq(key, "tmi-sent-ts") {
        Tag::TmiSentTs(text_value(value, "0"))
    } else if str_eq(key, "user-id") {
        Tag::UserId(text_value(value, "0"))
    } else if str_eq(key, "user-type") {
        let u = match value {
            Some(v) => {
                let t = trim_str(v);
                if str_eq(t, "admin") {
                    UserType::Admin
                } else if str_eq(t, "global_mod") {
                    UserType::GlobalMod
                } else if str_eq(t, "staff") {
                    UserType::Staff
                } else {
                    UserType::Normal
                }
            },
            None => UserType::Normal,
        };
        Tag::UserType(u)
    } else {
        Tag::Unknown
    }
}

/// Decodes a tag block `k1=v1;k2=v2;...` (without the leading `@`).
pub fn parse_tags(raw_tags: &str) -> (r: TagSet<Tag>)
    ensures
        r.wf(),
        tag_models(r@) == tags_of(raw_tags@),
{
    let mut tags: TagSet<Tag> = TagSet::new();
    if raw_tags.is_empty() {
        assert(tag_models(tags@) =~= tags_of(raw_tags@));
        return tags;
    }
    let pieces = split_on(raw_tags, ';');
    let ghost ps = views(pieces@);
    let mut i: usize = 0;
    assert(tag_models(tags@) =~= entries_tags(ps.take(0)));
    while i < pieces.len()
        invariant
            ps == views(pieces@),
            ps == split(raw_tags@, ';'),
            i <= pieces.len(),
            tags.wf(),
            tag_models(tags@) == entries_tags(ps.take(i as int)),
        decreases pieces.len() - i,
    {
        let piece = pieces[i].as_str();
        let parts = split_on(piece, '=');
        proof {
            lemma_split_nonempty(piece@, '=');
        }
        assert(parts@[0]@ == split(piece@, '=')[0]);
        let value: Option<&str> = if parts.len() > 1 {
            assert(parts@[1]@ == split(piece@, '=')[1]);
            Some(parts[1].as_str())
        } else {
            None
        };
        let tag = decode_tag_value(parts[0].as_str(), value);
        let ghost before = tags@;
        let ghost tv = tag@;
        let key = parts[0].clone();
        tags.insert(key, tag);
        assert(ps.take(i + 1).drop_last() =~= ps.take(i as int));
        assert(tag_models(tags@) =~= tag_models(before).insert(entry_key(ps[i as int]), tv));
        i = i + 1;
    }
    assert(ps.take(pieces.len() as int) =~= ps);
    tags
}

/// The command segment of a line, split into verb, channel and trailing
/// parameter blob: the blob follows the first `:`; the channel follows a `#`
/// that comes before it.
pub open spec fn command_of(raw: Seq<char>, raw_tags: Seq<char>) -> CommandModel {
    let p = index_of(raw, ':');
    let h = index_of(raw, '#');
    let c = if h < p {
        h
    } else {
        p
    };
    let channel = if c < p {
        trim(raw.subrange(c + 1, p))
    } else {
        ""@
    };
    let params = if p < raw.len() {
        trim(raw.skip(p + 1))
    } else {
        ""@
    };
    let verb = trim(raw.take(c));
    let tags = if raw_tags.len() == 0 {
        None
    } else {
        Some(tags_of(raw_tags))
    };
    let optional_params = if params.len() == 0 {
        None
    } else {
        Some(params)
    };
    if verb == "CLEARCHAT"@ {
        CommandModel::CLEARCHAT { channel, user: optional_params, tags }
    } else if verb == "CLEARMSG"@ {
        CommandModel::CLEARMSG { channel, message: params, tags }
    } else if verb == "GLOBALUSERSTATE"@ {
        CommandModel::GLOBALUSERSTATE { tags }
    } else if verb == "HOSTTARGET"@ {
        let parts = split(params, ' ');
        CommandModel::HOSTTARGET {
            channel: parts[0],
            hosting_channel: channel,
            number_of_viewers: if parts.len() > 1 {
                usize_or_zero(parts[1])
            } else {
                0
            },
        }
    } else if verb == "JOIN"@ {
        CommandModel::JOIN(channel)
    } else if verb == "PART"@ {
        CommandModel::PART(channel)
    } else if verb == "NOTICE"@ {
        CommandModel::NOTICE { channel, message: params, tags }
    } else if verb == "PING"@ {
        CommandModel::PING
    } else if verb == "PRIVMSG"@ {
        CommandModel::PRIVMSG {
            channel,
            message: params,
            bot_command: bot_command_of(params),
            tags,
        }
    } else if verb == "RECONNECT"@ {
        CommandModel::RECONNECT
    } else if verb == "ROOMSTATE"@ {
        CommandModel::ROOMSTATE { channel, tags }
    } else if verb == "USERNOTICE"@ {
        CommandModel::USERNOTICE { channel, message: optional_params, tags }
    } else if verb == "USERSTATE"@ {
        CommandModel::USERSTATE { channel, tags }
    } else {
        match parse_unsigned(trim(split(verb, ' ')[0]), u32::MAX as int) {
            Some(n) => CommandModel::NUMBER(n as u32, Some(params)),
            None => CommandModel::UNSUPPORTED,
        }
    }
}

pub open spec fn has_tags(line: Seq<char>) -> bool {
    line.len() > 0 && line[0] == '@'
}

/// The tag block of a line: from after the leading `@` to the first space.
pub open spec fn line_tags(line: Seq<char>) -> Seq<char> {
    if has_tags(line) {
        line.subrange(1, index_of(line, ' '))
    } else {
        ""@
    }
}

/// What follows the tag block and its space.
pub open spec fn after_tags(line: Seq<char>) -> Seq<char> {
    let i = index_of(line, ' ');
    if !has_tags(line) {
        line
    } else if i < line.len() {
        line.skip(i + 1)
    } else {
        ""@
    }
}

pub open spec fn has_source(rest: Seq<char>) -> bool {
    rest.len() > 0 && rest[0] == ':'
}

/// The source of a line, once its tag block is gone.
pub open spec fn line_source(rest: Seq<char>) -> Option<SourceModel> {
    if has_source(rest) {
        Some(source_of(rest.subrange(1, index_of(rest, ' '))))
    } else {
        None
    }
}

/// What follows the source block and its space.
pub open spec fn after_source(rest: Seq<char>) -> Seq<char> {
    let i = index_of(rest, ' ');
    if !has_source(rest) {
        rest
    } else if i < rest.len() {
        rest.skip(i + 1)
    } else {
        ""@
    }
}

/// A whole line: `[@tags ][:source ]command`.
pub open spec fn message_of(line: Seq<char>) -> MessageModel {
    let rest = after_tags(line);
    MessageModel {
        source: line_source(rest),
        command: command_of(after_source(rest), line_tags(line)),
    }
}

/// Decodes a command segment; `raw_tags` is the line's tag block, empty when
/// it has none.
pub fn parse_command(raw_command: &str, raw_tags: &str) -> (r: Command)
    ensures
        r@ == command_of(raw_command@, raw_tags@),
        command_tags_wf(r),
{
    let cs = chars_of(raw_command);
    let p = find_char(&cs, ':');
    let h = find_char(&cs, '#');
    proof {
        lemma_index_of_bounds(raw_command@, ':');
        lemma_index_of_bounds(raw_command@, '#');
    }
    let c = if h < p {
        h
    } else {
        p
    };
    let channel: &str = if c < p {
        trim_str(raw_command.substring_char(c + 1, p))
    } else {
        ""
    };
    let params: &str = if p < cs.len() {
        let blob = raw_command.substring_char(p + 1, cs.len());
        assert(blob@ =~= raw_command@.skip(p + 1));
        trim_str(blob)
    } else {
        ""
    };
    let head = raw_command.substring_char(0, c);
    assert(head@ =~= raw_command@.take(c as int));
    let verb = trim_str(head);
    let tags = if raw_tags.is_empty() {
        None
    } else {
        Some(parse_tags(raw_tags))
    };
    let optional_params = if params.is_empty() {
        None
    } else {
        Some(params.to_owned())
    };
    if str_eq(verb, "CLEARCHAT") {
        Command::CLEARCHAT { channel: channel.to_owned(), user: optional_params, tags }
    } else if str_eq(verb, "CLEARMSG") {
        Command::CLEARMSG { channel: channel.to_owned(), message: params.to_owned(), tags }
    } else if str_eq(verb, "GLOBALUSERSTATE") {
        Command::GLOBALUSERSTATE { tags }
    } else if str_eq(verb, "HOSTTARGET") {
        let mut parts = split_on(params, ' ');
        proof {
            lemma_split_nonempty(params@, ' ');
        }
        let ghost ps = views(parts@);
        assert(ps[0] == parts@[0]@);
        let number_of_viewers = if parts.len() > 1 {
            assert(ps[1] == parts@[1]@);
            number_or_zero(parts[1].as_str())
        } else {
            0
        };
        let hosted = parts.remove(0);
        Command::HOSTTARGET {
            channel: hosted,
            hosting_channel: channel.to_owned(),
            number_of_viewers,
        }
    } else if str_eq(verb, "JOIN") {
        Command::JOIN(channel.to_owned())
    } else if str_eq(verb, "PART") {
        Command::PART(channel.to_owned())
    } else if str_eq(verb, "NOTICE") {
        Command::NOTICE { channel: channel.to_owned(), message: params.to_owned(), tags }
    } else if str_eq(verb, "PING") {
        Command::PING
    } else if str_eq(verb, "PRIVMSG") {
        let bot_command = parse_bot_command(params);
        Command::PRIVMSG {
            channel: channel.to_owned(),
            message: params.to_owned(),
            bot_command,
            tags,
        }
    } else if str_eq(verb, "RECONNECT") {
        Command::RECONNECT
    } else if str_eq(verb, "ROOMSTATE") {
        Command::ROOMSTATE { channel: channel.to_owned(), tags }
    } else if str_eq(verb, "USERNOTICE") {
        Command::USERNOTICE { channel: channel.to_owned(), message: optional_params, tags }
    } else if str_eq(verb, "USERSTATE") {
        Command::USERSTATE { channel: channel.to_owned(), tags }
    } else {
        let words = split_on(verb, ' ');
        proof {
            lemma_split_nonempty(verb@, ' ');
        }
        assert(views(words@)[0] == words@[0]@);
        match parse_u32(trim_str(words[0].as_str())) {
            Some(n) => Command::NUMBER(n, Some(params.to_owned())),
            None => Command::UNSUPPORTED,
        }
    }
}

/// Parses one protocol line. Total: every line gives a message.
pub fn parse_message(message: &str) -> (r: ParsedTwitchMessage)
    ensures
        r@ == message_of(message@),
        command_tags_wf(r.command),
{
    let cs = chars_of(message);
    proof {
        lemma_index_of_bounds(message@, ' ');
    }
    let (raw_tags, rest): (&str, &str) = if cs.len() > 0 && cs[0] == '@' {
        let i = find_char(&cs, ' ');
        let tags = message.substring_char(1, i);
        let rest: &str = if i < cs.len() {
            let r = message.substring_char(i + 1, cs.len());
            assert(r@ =~= message@.skip(i + 1));
            r
        } else {
            ""
        };
        (tags, rest)
    } else {
        ("", message)
    };
    let rs = chars_of(rest);
    proof {
        lemma_index_of_bounds(rest@, ' ');
    }
    let (source, raw_command): (Option<Source>, &str) = if rs.len() > 0 && rs[0] == ':' {
        let i = find_char(&rs, ' ');
        let source = parse_source(rest.substring_char(1, i));
        let command: &str = if i < rs.len() {
            let r = rest.substring_char(i + 1, rs.len());
            assert(r@ =~= rest@.skip(i + 1));
            r
        } else {
            ""
        };
        (Some(source), command)
    } else {
        (None, rest)
    };
    let command = parse_command(raw_command, raw_tags);
    ParsedTwitchMessage { source, command }
}

/// The lines of a frame: the pieces between `\r\n` separators.
pub open spec fn crlf_lines(s: Seq<char>) -> Seq<Seq<char>>
    decreases s.len(),
{
    if s.len() == 0 {
        seq![Seq::<char>::empty()]
    } else {
        let rest = crlf_lines(s.drop_last());
        let cur = rest.last();
        if s.last() == '\n' && cur.len() > 0 && cur.last() == '\r' {
            rest.update(rest.len() - 1, cur.drop_last()).push(Seq::<char>::empty())
        } else {
            rest.update(rest.len() - 1, cur.push(s.last()))
        }
    }
}

/// The messages of the non-empty lines among `lines`, in order.
pub open spec fn messages_of(lines: Seq<Seq<char>>) -> Seq<MessageModel>
    decreases lines.len(),
{
    if lines.len() == 0 {
        Seq::empty()
    } else {
        let before = messages_of(lines.drop_last());
        if lines.last().len() == 0 {
            before
        } else {
            before.push(message_of(lines.last()))
        }
    }
}

pub open spec fn message_views(v: Seq<ParsedTwitchMessage>) -> Seq<MessageModel> {
    v.map_values(|m: ParsedTwitchMessage| m@)
}

proof fn lemma_crlf_lines_nonempty(s: Seq<char>)
    ensures
        crlf_lines(s).len() >= 1,
    decreases s.len(),
{
    if s.len() > 0 {
        lemma_crlf_lines_nonempty(s.drop_last());
    }
}

/// Splits a frame at each `\r\n`, like `str::split("\r\n")`.
pub fn split_lines(s: &str) -> (r: Vec<String>)
    ensures
        views(r@) == crlf_lines(s@),
{
    let cs = chars_of(s);
    let mut pieces: Vec<String> = Vec::new();
    let mut start: usize = 0;
    let mut i: usize = 0;
    assert(s@.take(0) =~= Seq::<char>::empty());
    assert(views(pieces@).push(s@.subrange(0, 0)) =~= seq![Seq::<char>::empty()]);
    while i < cs.len()
        invariant
            cs@ == s@,
            start <= i <= cs.len(),
            crlf_lines(s@.take(i as int)) == views(pieces@).push(s@.subrange(start as int, i as int)),
        decreases cs.len() - i,
    {
        let ghost old_views = views(pieces@);
        assert(s@.take(i + 1).drop_last() =~= s@.take(i as int));
        if cs[i] == '\n' && i > start && cs[i - 1] == '\r' {
            let piece = sub_string(s, start, i - 1);
            pieces.push(piece);
            assert(s@.subrange(start as int, i as int).drop_last() =~= s@.subrange(
                start as int,
                i - 1,
            ));
            start = i + 1;
            assert(views(pieces@) =~= old_views.push(piece@));
            assert(s@.subrange(start as int, (i + 1) as int) =~= Seq::<char>::empty());
        } else {
            assert(s@.subrange(start as int, i as int).push(s@[i as int]) =~= s@.subrange(
                start as int,
                (i + 1) as int,
            ));
        }
        i = i + 1;
    }
    let last = sub_string(s, start, cs.len());
    let ghost before = views(pieces@);
    pieces.push(last);
    assert(views(pieces@) =~= before.push(last@));
    assert(s@.take(cs.len() as int) =~= s@);
    pieces
}

/// Parses every non-empty `\r\n`-separated line of a frame, in order.
pub fn parse_messages(messages: &str) -> (r: Vec<ParsedTwitchMessage>)
    ensures
        message_views(r@) == messages_of(crlf_lines(messages@)),
        forall|i: int| 0 <= i < r@.len() ==> command_tags_wf(#[trigger] r@[i].command),
{
    let lines = split_lines(messages);
    let ghost ls = views(lines@);
    let mut out: Vec<ParsedTwitchMessage> = Vec::new();
    let mut i: usize = 0;
    assert(message_views(out@) =~= messages_of(ls.take(0)));
    while i < lines.len()
        invariant
            ls == views(lines@),
            i <= lines.len(),
            message_views(out@) == messages_of(ls.take(i as int)),
            forall|j: int| 0 <= j < out@.len() ==> command_tags_wf(#[trigger] out@[j].command),
        decreases lines.len() - i,
    {
        assert(ls.take(i + 1).drop_last() =~= ls.take(i as int));
        let line = lines[i].as_str();
        if !line.is_empty() {
            let m = parse_message(line);
            let ghost before = message_views(out@);
            let ghost mv = m@;
            out.push(m);
            assert(message_views(out@) =~= before.push(mv));
        }
        i = i + 1;
    }
    assert(ls.take(lines.len() as int) =~= ls);
    out
}

/// Parsing is a function of the line: any two results for one line have the
/// same view, and `parse_message` has no precondition, so every line parses.
pub proof fn lemma_parse_deterministic(
    line: Seq<char>,
    first: ParsedTwitchMessage,
    second: ParsedTwitchMessage,
)
    requires
        first@ == message_of(line),
        second@ == message_of(line),
    ensures
        first@ == second@,
{
}

/// A tag block `k1=v1;k2=v2` decodes to exactly the keys `k1` and `k2`, each
/// by its own rule (when the keys are equal, the second entry counts).
pub proof fn lemma_two_entry_tags(k1: Seq<char>, v1: Seq<char>, k2: Seq<char>, v2: Seq<char>)
    requires
        forall|i: int| 0 <= i < k1.len() ==> k1[i] != ';' && k1[i] != '=',
        forall|i: int| 0 <= i < v1.len() ==> v1[i] != ';' && v1[i] != '=',
        forall|i: int| 0 <= i < k2.len() ==> k2[i] != ';' && k2[i] != '=',
        forall|i: int| 0 <= i < v2.len() ==> v2[i] != ';' && v2[i] != '=',
    ensures
        tags_of(k1 + seq!['='] + v1 + seq![';'] + k2 + seq!['='] + v2) == Map::<
            Seq<char>,
            TagModel,
        >::empty().insert(k1, decode_tag(k1, Some(v1))).insert(k2, decode_tag(k2, Some(v2))),
{
    let e1 = k1 + seq!['='] + v1;
    let e2 = k2 + seq!['='] + v2;
    let raw = k1 + seq!['='] + v1 + seq![';'] + k2 + seq!['='] + v2;
    assert(raw =~= e1 + seq![';'] + e2);
    assert(raw[k1.len() as int] == '=');
    lemma_split_append(e1, e2, ';');
    assert forall|i: int| 0 <= i < e1.len() implies e1[i] != ';' by {
        if i > k1.len() {
            assert(e1[i] == v1[i - k1.len() - 1]);
        }
    }
    assert forall|i: int| 0 <= i < e2.len() implies e2[i] != ';' by {
        if i > k2.len() {
            assert(e2[i] == v2[i - k2.len() - 1]);
        }
    }
    lemma_split_no_sep(e1, ';');
    lemma_split_no_sep(e2, ';');
    lemma_split_append(k1, v1, '=');
    lemma_split_append(k2, v2, '=');
    lemma_split_no_sep(k1, '=');
    lemma_split_no_sep(v1, '=');
    lemma_split_no_sep(k2, '=');
    lemma_split_no_sep(v2, '=');
    let pieces = split(raw, ';');
    assert(pieces =~= seq![e1, e2]);
    assert(pieces.drop_last() =~= seq![e1]);
    assert(seq![e1].drop_last() =~= Seq::<Seq<char>>::empty());
    assert(split(e1, '=') =~= seq![k1, v1]);
    assert(split(e2, '=') =~= seq![k2, v2]);
    assert(entry_key(e1) == k1 && entry_value(e1) == Some(v1));
    assert(entry_key(e2) == k2 && entry_value(e2) == Some(v2));
    assert(pieces.last() == e2);
    assert(seq![e1].last() == e1);
    assert(seq![e1].len() == 1);
    assert(entries_tags(seq![e1].drop_last()) == Map::<Seq<char>, TagModel>::empty());
    assert(entries_tags(seq![e1]) == Map::<Seq<char>, TagModel>::empty().insert(
        k1,
        decode_tag(k1, Some(v1)),
    ));
    assert(raw.len() > 0);
}

/// The text of one `key=value` entry.
pub open spec fn entry_text(entry: (Seq<char>, Seq<char>)) -> Seq<char> {
    entry.0 + seq!['='] + entry.1
}

/// The texts of a list of entries.
pub open spec fn entry_texts(entries: Seq<(Seq<char>, Seq<char>)>) -> Seq<Seq<char>> {
    entries.map_values(|e: (Seq<char>, Seq<char>)| entry_text(e))
}

/// The keys of a list of entries.
pub open spec fn entry_keys(entries: Seq<(Seq<char>, Seq<char>)>) -> Seq<Seq<char>> {
    entries.map_values(|e: (Seq<char>, Seq<char>)| e.0)
}

/// The tag block `k1=v1;k2=v2;...;kn=vn` for the given entries.
pub open spec fn tag_block(entries: Seq<(Seq<char>, Seq<char>)>) -> Seq<char>
    decreases entries.len(),
{
    if entries.len() <= 1 {
        if entries.len() == 1 {
            entry_text(entries[0])
        } else {
            Seq::empty()
        }
    } else {
        tag_block(entries.drop_last()) + seq![';'] + entry_text(entries.last())
    }
}

/// Neither `;` nor `=` occurs in `s`.
pub open spec fn plain_text(s: Seq<char>) -> bool {
    forall|i: int| 0 <= i < s.len() ==> s[i] != ';' && s[i] != '='
}

proof fn lemma_entry_split(entry: (Seq<char>, Seq<char>))
    requires
        plain_text(entry.0),
        plain_text(entry.1),
    ensures
        split(entry_text(entry), ';') == seq![entry_text(entry)],
        entry_key(entry_text(entry)) == entry.0,
        entry_value(entry_text(entry)) == Some(entry.1),
        entry_text(entry).len() > 0,
{
    let (k, v) = entry;
    let e = entry_text(entry);
    assert(e[k.len() as int] == '=');
    assert forall|i: int| 0 <= i < e.len() implies e[i] != ';' by {
        if i > k.len() {
            assert(e[i] == v[i - k.len() - 1]);
        }
    }
    lemma_split_no_sep(e, ';');
    lemma_split_append(k, v, '=');
    lemma_split_no_sep(k, '=');
    lemma_split_no_sep(v, '=');
    assert(split(e, '=') =~= seq![k, v]);
}

proof fn lemma_tag_block_split(entries: Seq<(Seq<char>, Seq<char>)>)
    requires
        entries.len() >= 1,
        forall|i: int| 0 <= i < entries.len() ==> plain_text(#[trigger] entries[i].0) && plain_text(
            entries[i].1,
        ),
    ensures
        split(tag_block(entries), ';') == entry_texts(entries),
    decreases entries.len(),
{
    let last = entries.last();
    assert(plain_text(entries[entries.len() - 1].0));
    lemma_entry_split(last);
    if entries.len() == 1 {
        assert(entry_texts(entries) =~= seq![
            entry_text(last),
        ]);
    } else {
        let d = entries.drop_last();
        assert forall|i: int| 0 <= i < d.len() implies plain_text(#[trigger] d[i].0) && plain_text(
            d[i].1,
        ) by {
            assert(d[i] == entries[i]);
        }
        lemma_tag_block_split(d);
        lemma_split_append(tag_block(d), entry_text(last), ';');
        assert(entry_texts(entries) =~= entry_texts(d) + seq![entry_text(last)]);
    }
}

proof fn lemma_entries_tags_of(entries: Seq<(Seq<char>, Seq<char>)>)
    requires
        forall|i: int| 0 <= i < entries.len() ==> plain_text(#[trigger] entries[i].0) && plain_text(
            entries[i].1,
        ),
        forall|i: int, j: int|
            0 <= i < entries.len() && 0 <= j < entries.len() && i != j ==> entries[i].0
                != entries[j].0,
    ensures
        forall|k: Seq<char>| #[trigger]
            entries_tags(entry_texts(entries)).contains_key(
                k,
            ) <==> exists|i: int| 0 <= i < entries.len() && entries[i].0 == k,
        forall|i: int| 0 <= i < entries.len() ==> #[trigger] entries_tags(
            entry_texts(entries),
        )[entries[i].0] == decode_tag(entries[i].0, Some(entries[i].1)),
    decreases entries.len(),
{
    let texts = entry_texts(entries);
    if entries.len() > 0 {
        let d = entries.drop_last();
        let last = entries.last();
        assert(plain_text(entries[entries.len() - 1].0));
        lemma_entry_split(last);
        assert forall|i: int| 0 <= i < d.len() implies plain_text(#[trigger] d[i].0) && plain_text(
            d[i].1,
        ) by {
            assert(d[i] == entries[i]);
        }
        lemma_entries_tags_of(d);
        let dt = entry_texts(d);
        assert(texts.drop_last() =~= dt);
        assert(texts.last() == entry_text(last));
        let m = entries_tags(texts);
        assert(m == entries_tags(dt).insert(last.0, decode_tag(last.0, Some(last.1))));
        assert forall|k: Seq<char>| #[trigger] m.contains_key(k) <==> exists|i: int|
            0 <= i < entries.len() && entries[i].0 == k by {
            if k == last.0 {
                assert(entries[entries.len() - 1].0 == k);
            } else {
                if entries_tags(dt).contains_key(k) {
                    let i = choose|i: int| 0 <= i < d.len() && d[i].0 == k;
                    assert(entries[i] == d[i]);
                }
                if exists|i: int| 0 <= i < entries.len() && entries[i].0 == k {
                    let i = choose|i: int| 0 <= i < entries.len() && entries[i].0 == k;
                    assert(i < d.len());
                    assert(d[i] == entries[i]);
                }
            }
        }
        assert forall|i: int| 0 <= i < entries.len() implies #[trigger] m[entries[i].0]
            == decode_tag(entries[i].0, Some(entries[i].1)) by {
            if i < d.len() {
                assert(d[i] == entries[i]);
                assert(entries[i].0 != entries[entries.len() - 1].0);
                assert(entries_tags(dt)[d[i].0] == decode_tag(d[i].0, Some(d[i].1)));
            }
        }
    }
}

/// A tag block `k1=v1;...;kn=vn` (n at least 1, distinct keys, no `;` or `=`
/// inside a key or value) decodes to exactly the keys `k1`..`kn`, n of them,
/// each decoded from its own value by the rule for its key.
pub proof fn lemma_tag_block_entries(entries: Seq<(Seq<char>, Seq<char>)>)
    requires
        entries.len() >= 1,
        forall|i: int| 0 <= i < entries.len() ==> plain_text(#[trigger] entries[i].0) && plain_text(
            entries[i].1,
        ),
        forall|i: int, j: int|
            0 <= i < entries.len() && 0 <= j < entries.len() && i != j ==> entries[i].0
                != entries[j].0,
    ensures
        tags_of(tag_block(entries)).dom() == entry_keys(entries).to_set(),
        tags_of(tag_block(entries)).dom().len() == entries.len(),
        forall|i: int| 0 <= i < entries.len() ==> #[trigger] tags_of(tag_block(entries))[entries[i].0]
            == decode_tag(entries[i].0, Some(entries[i].1)),
{
    lemma_tag_block_split(entries);
    lemma_entries_tags_of(entries);
    let block = tag_block(entries);
    let texts = entry_texts(entries);
    assert(split(block, ';').len() >= 1);
    assert(block.len() > 0) by {
        if block.len() == 0 {
            assert(split(block, ';') =~= seq![Seq::<char>::empty()]);
            assert(plain_text(entries[0].0));
            lemma_entry_split(entries[0]);
            assert(texts[0].len() > 0);
        }
    }
    assert(tags_of(block) == entries_tags(texts));
    let keys = entry_keys(entries);
    assert forall|k: Seq<char>| tags_of(block).dom().contains(k) <==> keys.to_set().contains(k) by {
        if keys.contains(k) {
            let i = choose|i: int| 0 <= i < keys.len() && keys[i] == k;
            assert(entries[i].0 == k);
        }
        if tags_of(block).contains_key(k) {
            let i = choose|i: int| 0 <= i < entries.len() && entries[i].0 == k;
            assert(keys[i] == k);
        }
    }
    assert(tags_of(block).dom() =~= keys.to_set());
    assert(keys.no_duplicates()) by {
        assert forall|i: int, j: int| 0 <= i < keys.len() && 0 <= j < keys.len() && i != j
            implies keys[i] != keys[j] by {}
    }
    keys.unique_seq_to_set();
}

/// The tag keys that have a rule of their own.
pub open spec fn known_tag_key(key: Seq<char>) -> bool {
    key == "badge-info"@ || key == "badges"@ || key == "ban-duration"@ || key == "color"@ || key
        == "client-nonce"@ || key == "display-name"@ || key == "emote-only"@ || key == "emotes"@
        || key == "emote-sets"@ || key == "first-msg"@ || key == "followers-only"@ || key == "id"@
        || key == "login"@ || key == "mod"@ || key == "msg-id"@ || key
        == "msg-param-cumulative-months"@ || key == "msg-param-months"@ || key
        == "msg-param-recipient-display-name"@ || key == "msg-param-recipient-id"@ || key
        == "msg-param-recipient-name"@ || key == "msg-param-streak-months"@ || key
        == "msg-param-should-share-streak"@ || key == "msg-param-sub-plan"@ || key
        == "msg-param-sub-plan-name"@ || key == "r9k"@ || key == "room-id"@ || key == "slow"@
        || key == "subs-only"@ || key == "subscriber"@ || key == "system-msg"@ || key
        == "target-msg-id"@ || key == "target-user-id"@ || key == "turbo"@ || key
        == "tmi-sent-ts"@ || key == "user-id"@ || key == "user-type"@
}

/// An entry whose key has no rule of its own is kept, as `Unknown`.
pub proof fn lemma_unknown_key_kept(key: Seq<char>, value: Seq<char>)
    requires
        !known_tag_key(key),
        plain_text(key),
        plain_text(value),
    ensures
        tags_of(entry_text((key, value))) == Map::<Seq<char>, TagModel>::empty().insert(
            key,
            TagModel::Unknown,
        ),
{
    let e = entry_text((key, value));
    lemma_entry_split((key, value));
    assert(seq![e].drop_last() =~= Seq::<Seq<char>>::empty());
    assert(seq![e].last() == e);
    assert(entries_tags(seq![e].drop_last()) == Map::<Seq<char>, TagModel>::empty());
    assert(decode_tag(key, Some(value)) == TagModel::Unknown);
}

} // verus!
