//! A smaller line parser that keeps the tag block as its own field and also
//! returns the trailing parameters split into words. It knows fewer tags and
//! only the `PING` and `PRIVMSG` verbs.
use vstd::prelude::*;

pub use crate::parser::{parse_bot_command, parse_source};

use crate::parser::{
    bot_command_of, emote_sets_of, emotes_of, entry_key, entry_value, flag_of, parse_emote_sets,
    parse_emotes, source_of, text_of, user_type_of, usize_or_zero,
};
use crate::text::{
    chars_of, find_char, index_of, lemma_index_of_bounds, lemma_split_nonempty, parse_usize,
    split, split_on, str_eq, trim_str, views,
};
use crate::types::{
    bot_command_view, emote_views, source_view, BotCommand, BotCommandModel, Emote, EmoteModel,
    Source, SourceModel, TagSet, UserType,
};

verus! {

/// A protocol verb; channels keep their leading `#`.
#[derive(PartialEq, Eq, Debug)]
pub enum Command {
    JOIN(String),
    PART(String),
    NOTICE(String),
    CLEARCHAT(String),
    HOSTTARGET(String),
    PRIVMSG(String),
    PING,
    CAP(bool),
    GLOBALUSERSTATE,
    USERSTATE(String),
    ROOMSTATE(String),
    RECONNECT,
    NUMBER(u32, Option<String>),
    UNSUPPORTED,
}

/// A badge and its version.
#[derive(Clone, Copy, PartialEq, Eq, Debug)]
pub enum Badge {
    ADMIN(usize),
    BITS(usize),
    BROADCASTER(usize),
    MODERATOR(usize),
    STAFF(usize),
    SUBSCRIBER(usize),
    TURBO(usize),
    VIP(usize),
    UNKNOWN,
}

/// One decoded tag.
#[derive(PartialEq, Eq, Debug)]
pub enum Tag {
    Badges(Vec<Badge>),
    Color(String),
    DisplayName(String),
    EmoteOnly(bool),
    FollowersOnly(bool),
    Emotes(Vec<Emote>),
    EmoteSets(Vec<usize>),
    Id(String),
    Mod(bool),
    RoomId(String),
    Subscriber(bool),
    Turbo(bool),
    TmiSentTs(String),
    UserId(String),
    UserType(UserType),
    Unknown,
}

/// The words of a trailing parameter blob.
#[derive(PartialEq, Eq, Debug)]
pub struct Parameters {
    pub parameters: Vec<String>,
}

/// One parsed line.
#[derive(PartialEq, Eq, Debug)]
pub struct ParsedTwitchMessage {
    pub tags: TagSet<Tag>,
    pub source: Option<Source>,
    pub command: Command,
    pub parameters: Option<Parameters>,
    pub bot_command: Option<BotCommand>,
}

/// The view of a [`Tag`].
pub enum TagModel {
    Badges(Seq<Badge>),
    Color(Seq<char>),
    DisplayName(Seq<char>),
    EmoteOnly(bool),
    FollowersOnly(bool),
    Emotes(Seq<EmoteModel>),
    EmoteSets(Seq<usize>),
    Id(Seq<char>),
    Mod(bool),
    RoomId(Seq<char>),
    Subscriber(bool),
    Turbo(bool),
    TmiSentTs(Seq<char>),
    UserId(Seq<char>),
    UserType(UserType),
    Unknown,
}

impl View for Tag {
    type V = TagModel;

    open spec fn view(&self) -> TagModel {
        match self {
            Tag::Badges(b) => TagModel::Badges(b@),
            Tag::Color(s) => TagModel::Color(s@),
            Tag::DisplayName(s) => TagModel::DisplayName(s@),
            Tag::EmoteOnly(b) => TagModel::EmoteOnly(*b),
            Tag::FollowersOnly(b) => TagModel::FollowersOnly(*b),
            Tag::Emotes(e) => TagModel::Emotes(emote_views(e@)),
            Tag::EmoteSets(e) => TagModel::EmoteSets(e@),
            Tag::Id(s) => TagModel::Id(s@),
            Tag::Mod(b) => TagModel::Mod(*b),
            Tag::RoomId(s) => TagModel::RoomId(s@),
            Tag::Subscriber(b) => TagModel::Subscriber(*b),
            Tag::Turbo(b) => TagModel::Turbo(*b),
            Tag::TmiSentTs(s) => TagModel::TmiSentTs(s@),
            Tag::UserId(s) => TagModel::UserId(s@),
            Tag::UserType(u) => TagModel::UserType(*u),
            Tag::Unknown => TagModel::Unknown,
        }
    }
}

/// The view of a [`Command`].
pub enum CommandModel {
    JOIN(Seq<char>),
    PART(Seq<char>),
    NOTICE(Seq<char>),
    CLEARCHAT(Seq<char>),
    HOSTTARGET(Seq<char>),
    PRIVMSG(Seq<char>),
    PING,
    CAP(bool),
    GLOBALUSERSTATE,
    USERSTATE(Seq<char>),
    ROOMSTATE(Seq<char>),
    RECONNECT,
    NUMBER(u32, Option<Seq<char>>),
    UNSUPPORTED,
}

impl View for Command {
    type V = CommandModel;

    open spec fn view(&self) -> CommandModel {
        match self {
            Command::JOIN(s) => CommandModel::JOIN(s@),
            Command::PART(s) => CommandModel::PART(s@),
            Command::NOTICE(s) => CommandModel::NOTICE(s@),
            Command::CLEARCHAT(s) => CommandModel::CLEARCHAT(s@),
            Command::HOSTTARGET(s) => CommandModel::HOSTTARGET(s@),
            Command::PRIVMSG(s) => CommandModel::PRIVMSG(s@),
            Command::PING => CommandModel::PING,
            Command::CAP(b) => CommandModel::CAP(*b),
            Command::GLOBALUSERSTATE => CommandModel::GLOBALUSERSTATE,
            Command::USERSTATE(s) => CommandModel::USERSTATE(s@),
            Command::ROOMSTATE(s) => CommandModel::ROOMSTATE(s@),
            Command::RECONNECT => CommandModel::RECONNECT,
            Command::NUMBER(n, p) => CommandModel::NUMBER(
                *n,
                match p {
                    Some(s) => Some(s@),
                    None => None,
                },
            ),
            Command::UNSUPPORTED => CommandModel::UNSUPPORTED,
        }
    }
}

pub type TagsModel = Map<Seq<char>, TagModel>;

pub open spec fn tag_models(m: Map<Seq<char>, Tag>) -> TagsModel {
    m.map_values(|t: Tag| t@)
}

/// The view of a [`ParsedTwitchMessage`].
pub struct MessageModel {
    pub tags: TagsModel,
    pub source: Option<SourceModel>,
    pub command: CommandModel,
    pub parameters: Option<Seq<Seq<char>>>,
    pub bot_command: Option<BotCommandModel>,
}

impl View for ParsedTwitchMessage {
    type V = MessageModel;

    open spec fn view(&self) -> MessageModel {
        MessageModel {
            tags: tag_models(self.tags@),
            source: source_view(self.source),
            command: self.command@,
            parameters: match self.parameters {
                Some(p) => Some(views(p.parameters@)),
                None => None,
            },
            bot_command: bot_command_view(self.bot_command),
        }
    }
}

/// One `name/version` badge entry.
pub open spec fn badge_of(piece: Seq<char>) -> Badge {
    let parts = split(piece, '/');
    let name = parts[0];
    let version = if parts.len() > 1 {
        usize_or_zero(parts[1])
    } else {
        0
    };
    if name == "admin"@ {
        Badge::ADMIN(version)
    } else if name == "bits"@ {
        Badge::BITS(version)
    } else if name == "broadcaster"@ {
        Badge::BROADCASTER(version)
    } else if name == "moderator"@ {
        Badge::MODERATOR(version)
    } else if name == "staff"@ {
        Badge::STAFF(version)
    } else if name == "subscriber"@ {
        Badge::SUBSCRIBER(version)
    } else if name == "turbo"@ {
        Badge::TURBO(version)
    } else if name == "vip"@ {
        Badge::VIP(version)
    } else {
        Badge::UNKNOWN
    }
}

/// A comma-separated badge list.
pub open spec fn badges_of(raw: Seq<char>) -> Seq<Badge> {
    if raw.len() == 0 {
        Seq::empty()
    } else {
        split(raw, ',').map_values(|p: Seq<char>| badge_of(p))
    }
}

/// What a tag decodes to.
pub open spec fn decode_tag(key: Seq<char>, value: Option<Seq<char>>) -> TagModel {
    let e = ""@;
    if key == "badges"@ || key == "badge-info"@ {
        TagModel::Badges(badges_of(text_of(value, e)))
    } else if key == "color"@ {
        TagModel::Color(text_of(value, e))
    } else if key == "display-name"@ {
        TagModel::DisplayName(text_of(value, e))
    } else if key == "emote-only"@ {
        TagModel::EmoteOnly(flag_of(value))
    } else if key == "emotes"@ {
        TagModel::Emotes(emotes_of(text_of(value, e)))
    } else if key == "emote-sets"@ {
        TagModel::EmoteSets(emote_sets_of(text_of(value, e)))
    } else if key == "id"@ {
        TagModel::Id(text_of(value, "0"@))
    } else if key == "mod"@ {
        TagModel::Mod(flag_of(value))
    } else if key == "room-id"@ {
        TagModel::RoomId(text_of(value, "0"@))
    } else if key == "subscriber"@ {
        TagModel::Subscriber(flag_of(value))
    } else if key == "turbo"@ {
        TagModel::Turbo(flag_of(value))
    } else if key == "tmi-sent-ts"@ {
        TagModel::TmiSentTs(text_of(value, "0"@))
    } else if key == "user-id"@ {
        TagModel::UserId(text_of(value, "0"@))
    } else if key == "user-type"@ {
        TagModel::UserType(user_type_of(value))
    } else {
        TagModel::Unknown
    }
}

/// The tags of a list of `key=value` entries; the last entry for a key counts.
pub open spec fn entries_tags(pieces: Seq<Seq<char>>) -> TagsModel
    decreases pieces.len(),
{
    if pieces.len() == 0 {
        Map::empty()
    } else {
        let p = pieces.last();
        entries_tags(pieces.drop_last()).insert(entry_key(p), decode_tag(entry_key(p), entry_value(p)))
    }
}

/// The tags of a tag block; every `;`-separated entry counts, even an empty one.
pub open spec fn tags_of(raw: Seq<char>) -> TagsModel {
    entries_tags(split(raw, ';'))
}

/// The verb of a command segment: its first word.
pub open spec fn command_of(raw: Seq<char>) -> CommandModel {
    let words = split(raw, ' ');
    if words[0] == "PING"@ {
        CommandModel::PING
    } else if words[0] == "PRIVMSG"@ {
        CommandModel::PRIVMSG(
            if words.len() > 1 {
                words[1]
            } else {
                ""@
            },
        )
    } else {
        CommandModel::UNSUPPORTED
    }
}

/// A whole line: `[@tags ][:source ]command[ :parameters]`.
pub open spec fn message_of(line: Seq<char>) -> MessageModel {
    let has_tags = line.len() > 0 && line[0] == '@';
    let t = index_of(line, ' ');
    let rest = if !has_tags {
        line
    } else if t < line.len() {
        line.skip(t + 1)
    } else {
        ""@
    };
    let has_source = rest.len() > 0 && rest[0] == ':';
    let s = index_of(rest, ' ');
    let body = if !has_source {
        rest
    } else if s < rest.len() {
        rest.skip(s + 1)
    } else {
        ""@
    };
    let p = index_of(body, ':');
    let params = if p < body.len() {
        Some(body.skip(p + 1))
    } else {
        None
    };
    MessageModel {
        tags: if has_tags {
            tags_of(line.subrange(1, t))
        } else {
            Map::empty()
        },
        source: if has_source {
            Some(source_of(rest.subrange(1, s)))
        } else {
            None
        },
        command: command_of(body.take(p)),
        parameters: match params {
            Some(b) => Some(split(b, ' ')),
            None => None,
        },
        bot_command: match params {
            Some(b) => bot_command_of(b),
            None => None,
        },
    }
}

fn badge_from(piece: &str) -> (r: Badge)
    ensures
        r == badge_of(piece@),
{
    let parts = split_on(piece, '/');
    proof {
        lemma_split_nonempty(piece@, '/');
    }
    assert(parts@[0]@ == split(piece@, '/')[0]);
    let name = parts[0].as_str();
    let version = if parts.len() > 1 {
        assert(parts@[1]@ == split(piece@, '/')[1]);
        match parse_usize(parts[1].as_str()) {
            Some(v) => v,
            None => 0,
        }
    } else {
        0
    };
    if str_eq(name, "admin") {
        Badge::ADMIN(version)
    } else if str_eq(name, "bits") {
        Badge::BITS(version)
    } else if str_eq(name, "broadcaster") {
        Badge::BROADCASTER(version)
    } else if str_eq(name, "moderator") {
        Badge::MODERATOR(version)
    } else if str_eq(name, "staff") {
        Badge::STAFF(version)
    } else if str_eq(name, "subscriber") {
        Badge::SUBSCRIBER(version)
    } else if str_eq(name, "turbo") {
        Badge::TURBO(version)
    } else if str_eq(name, "vip") {
        Badge::VIP(version)
    } else {
        Badge::UNKNOWN
    }
}

/// Decodes a badge list, e.g. `staff/1,broadcaster/1`.
pub fn parse_badges(raw_badges: &str) -> (r: Vec<Badge>)
    ensures
        r@ == badges_of(raw_badges@),
{
    let mut badges: Vec<Badge> = Vec::new();
    if raw_badges.is_empty() {
        assert(badges@ =~= badges_of(raw_badges@));
        return badges;
    }
    let pieces = split_on(raw_badges, ',');
    let ghost ps = views(pieces@);
    let mut i: usize = 0;
    while i < pieces.len()
        invariant
            ps == views(pieces@),
            i <= pieces.len(),
            badges@ =~= ps.take(i as int).map_values(|p: Seq<char>| badge_of(p)),
        decreases pieces.len() - i,
    {
        let b = badge_from(pieces[i].as_str());
        badges.push(b);
        assert(ps.take(i + 1).map_values(|p: Seq<char>| badge_of(p)) =~= ps.take(
            i as int,
        ).map_values(|p: Seq<char>| badge_of(p)).push(b));
        i = i + 1;
    }
    assert(ps.take(pieces.len() as int) =~= ps);
    badges
}

fn text_value(value: Option<&str>, default: &str) -> (r: String)
    ensures
        r@ == text_of(
            match value {
                Some(v) => Some(v@),
                None => None,
            },
            default@,
        ),
{
    match value {
        Some(v) => v.to_owned(),
        None => default.to_owned(),
    }
}

fn flag_value(value: Option<&str>) -> (r: bool)
    ensures
        r == flag_of(
            match value {
                Some(v) => Some(v@),
                None => None,
            },
        ),
{
    match value {
        Some(v) => str_eq(v, "1"),
        None => false,
    }
}

fn decode_tag_value(key: &str, value: Option<&str>) -> (r: Tag)
    ensures
        r@ == decode_tag(
            key@,
            match value {
                Some(v) => Some(v@),
                None => None,
            },
        ),
{
    if str_eq(key, "badges") || str_eq(key, "badge-info") {
        let raw = text_value(value, "");
        Tag::Badges(parse_badges(raw.as_str()))
    } else if str_eq(key, "color") {
        Tag::Color(text_value(value, ""))
    } else if str_eq(key, "display-name") {
        Tag::DisplayName(text_value(value, ""))
    } else if str_eq(key, "emote-only") {
        Tag::EmoteOnly(flag_value(value))
    } else if str_eq(key, "emotes") {
        let raw = text_value(value, "");
        Tag::Emotes(parse_emotes(raw.as_str()))
    } else if str_eq(key, "emote-sets") {
        let raw = text_value(value, "");
        Tag::EmoteSets(parse_emote_sets(raw.as_str()))
    } else if str_eq(key, "id") {
        Tag::Id(text_value(value, "0"))
    } else if str_eq(key, "mod") {
        Tag::Mod(flag_value(value))
    } else if str_eq(key, "room-id") {
        Tag::RoomId(text_value(value, "0"))
    } else if str_eq(key, "subscriber") {
        Tag::Subscriber(flag_value(value))
    } else if str_eq(key, "turbo") {
        Tag::Turbo(flag_value(value))
    } else if str_eq(key, "tmi-sent-ts") {
        Tag::TmiSentTs(text_value(value, "0"))
    } else if str_eq(key, "user-id") {
        Tag::UserId(text_value(value, "0"))
    } else if str_eq(key, "user-type") {
        let u = match value {
            Some(v) => {
                let t = trim_str(v);
                if str_eq(t, "admin") {
                    UserType::Admin
                } else if str_eq(t, "global_mod") {
                    UserType::GlobalMod
                } else if str_eq(t, "staff") {
                    UserType::Staff
                } else {
                    UserType::Normal
                }
            },
            None => UserType::Normal,
        };
        Tag::UserType(u)
    } else {
        Tag::Unknown
    }
}

/// Decodes a tag block `k1=v1;k2=v2;...` (without the leading `@`).
pub fn parse_tags(raw_tags: &str) -> (r: TagSet<Tag>)
    ensures
        r.wf(),
        tag_models(r@) == tags_of(raw_tags@),
{
    let mut tags: TagSet<Tag> = TagSet::new();
    let pieces = split_on(raw_tags, ';');
    let ghost ps = views(pieces@);
    let mut i: usize = 0;
    assert(tag_models(tags@) =~= entries_tags(ps.take(0)));
    while i < pieces.len()
        invariant
            ps == views(pieces@),
            ps == split(raw_tags@, ';'),
            i <= pieces.len(),
            tags.wf(),
            tag_models(tags@) == entries_tags(ps.take(i as int)),
        decreases pieces.len() - i,
    {
        let piece = pieces[i].as_str();
        let parts = split_on(piece, '=');
        proof {
            lemma_split_nonempty(piece@, '=');
        }
        assert(parts@[0]@ == split(piece@, '=')[0]);
        let value: Option<&str> = if parts.len() > 1 {
            assert(parts@[1]@ == split(piece@, '=')[1]);
            Some(parts[1].as_str())
        } else {
            None
        };
        let tag = decode_tag_value(parts[0].as_str(), value);
        let ghost before = tags@;
        let ghost tv = tag@;
        let key = parts[0].clone();
        tags.insert(key, tag);
        assert(ps.take(i + 1).drop_last() =~= ps.take(i as int));
        assert(tag_models(tags@) =~= tag_models(before).insert(entry_key(ps[i as int]), tv));
        i = i + 1;
    }
    assert(ps.take(pieces.len() as int) =~= ps);
    tags
}

/// Splits a parameter blob into its space-separated words.
pub fn parse_parameters(raw_parameters: &str) -> (r: Parameters)
    ensures
        views(r.parameters@) == split(raw_parameters@, ' '),
{
    Parameters { parameters: split_on(raw_parameters, ' ') }
}

/// Decodes the verb part of a line (before the trailing parameters).
pub fn parse_command(raw_command: &str) -> (r: Command)
    ensures
        r@ == command_of(raw_command@),
{
    let mut words = split_on(raw_command, ' ');
    proof {
        lemma_split_nonempty(raw_command@, ' ');
    }
    let ghost ws = views(words@);
    assert(ws[0] == words@[0]@);
    if str_eq(words[0].as_str(), "PING") {
        Command::PING
    } else if str_eq(words[0].as_str(), "PRIVMSG") {
        if words.len() > 1 {
            assert(ws[1] == words@[1]@);
            Command::PRIVMSG(words.remove(1))
        } else {
            Command::PRIVMSG("".to_owned())
        }
    } else {
        Command::UNSUPPORTED
    }
}

/// Parses one line. Total: every line gives a message.
pub fn parse_message(message: &str) -> (r: ParsedTwitchMessage)
    ensures
        r@ == message_of(message@),
        r.tags.wf(),
{
    let cs = chars_of(message);
    proof {
        lemma_index_of_bounds(message@, ' ');
    }
    let has_tags = cs.len() > 0 && cs[0] == '@';
    let t = find_char(&cs, ' ');
    let tags = if has_tags {
        parse_tags(message.substring_char(1, t))
    } else {
        let e = TagSet::new();
        assert(tag_models(e@) =~= Map::empty());
        e
    };
    let rest: &str = if !has_tags {
        message
    } else if t < cs.len() {
        let r = message.substring_char(t + 1, cs.len());
        assert(r@ =~= message@.skip(t + 1));
        r
    } else {
        ""
    };
    let rs = chars_of(rest);
    proof {
        lemma_index_of_bounds(rest@, ' ');
    }
    let has_source = rs.len() > 0 && rs[0] == ':';
    let s = find_char(&rs, ' ');
    let source = if has_source {
        Some(parse_source(rest.substring_char(1, s)))
    } else {
        None
    };
    let body: &str = if !has_source {
        rest
    } else if s < rs.len() {
        let r = rest.substring_char(s + 1, rs.len());
        assert(r@ =~= rest@.skip(s + 1));
        r
    } else {
        ""
    };
    let bs = chars_of(body);
    let p = find_char(&bs, ':');
    proof {
        lemma_index_of_bounds(body@, ':');
    }
    let head = body.substring_char(0, p);
    assert(head@ =~= body@.take(p as int));
    let command = parse_command(head);
    let (parameters, bot_command) = if p < bs.len() {
        let blob = body.substring_char(p + 1, bs.len());
        assert(blob@ =~= body@.skip(p + 1));
        (Some(parse_parameters(blob)), parse_bot_command(blob))
    } else {
        (None, None)
    };
    ParsedTwitchMessage { tags, source, command, parameters, bot_command }
}

} // verus!
