//! The values the chat protocol parser produces, and their mathematical views.
use vstd::prelude::*;

use crate::text::views;

verus! {

/// A badge a user can carry; the number is the badge version (for
/// `Subscriber`, the months subscribed).
#[derive(Clone, Copy, PartialEq, Eq, Debug)]
pub enum Badge {
    Admin(usize),
    Bits(usize),
    Broadcaster(usize),
    Moderator(usize),
    Premium(usize),
    Staff(usize),
    Subscriber(usize),
    Turbo(usize),
    Vip(usize),
    /// A badge whose name is not one of the above.
    Unknown,
}

/// Who sent a line: a host, and a nickname when the source has one.
#[derive(PartialEq, Eq, Debug)]
pub struct Source {
    pub nick: Option<String>,
    pub host: String,
}

/// A chat message of the form `!command param param ...`.
#[derive(PartialEq, Eq, Debug)]
pub struct BotCommand {
    pub command: String,
    pub parameters: Vec<String>,
}

/// A range of character positions in a message.
#[derive(Clone, Copy, PartialEq, Eq, Debug)]
pub struct TextPosition {
    pub start_index: usize,
    pub end_index: usize,
}

/// An emote id and the places in the message where it stands.
#[derive(PartialEq, Eq, Debug)]
pub struct Emote {
    pub id: usize,
    pub positions: Vec<TextPosition>,
}

/// The kind of account that sent a message.
#[derive(Clone, Copy, PartialEq, Eq, Debug)]
pub enum UserType {
    Normal,
    Admin,
    GlobalMod,
    Staff,
}

/// One decoded entry of a line's tag block.
#[derive(PartialEq, Eq, Debug)]
pub enum Tag {
    /// Months subscribed, from `badge-info=subscriber/<n>`.
    BadgeInfo(usize),
    Badges(Vec<Badge>),
    /// Seconds.
    BanDuration(usize),
    ClientNonce(String),
    Color(String),
    DisplayName(String),
    EmoteOnly(bool),
    FirstMsg(bool),
    /// Minutes a user must have followed; -1 when the room is open to all.
    FollowersOnly(i32),
    Emotes(Vec<Emote>),
    EmoteSets(Vec<usize>),
    Id(String),
    Login(String),
    Mod(bool),
    MsgId(String),
    MsgParamCumulativeMonths(usize),
    MsgParamMonths(usize),
    MsgParamRecipientDisplayName(String),
    MsgParamRecipientId(String),
    MsgParamRecipientName(String),
    MsgParamStreakMonths(usize),
    MsgParamShouldShareStreak(bool),
    MsgParamSubPlan(String),
    MsgParamSubPlanName(String),
    R9K(bool),
    RoomId(String),
    /// Seconds between messages.
    Slow(usize),
    Subscriber(bool),
    SubsOnly(bool),
    SystemMsg(String),
    TargetMsgId(String),
    TargetUserId(String),
    Turbo(bool),
    TmiSentTs(String),
    UserId(String),
    UserType(UserType),
    /// A key that has no rule of its own.
    Unknown,
}

/// The words of a parameter blob.
pub type Parameters = Vec<String>;

/// The view of an [`Emote`].
pub struct EmoteModel {
    pub id: usize,
    pub positions: Seq<TextPosition>,
}

/// The view of a [`Source`].
pub struct SourceModel {
    pub nick: Option<Seq<char>>,
    pub host: Seq<char>,
}

/// The view of a [`BotCommand`].
pub struct BotCommandModel {
    pub command: Seq<char>,
    pub parameters: Seq<Seq<char>>,
}

/// The view of a [`Tag`]: strings as character sequences, lists as sequences.
pub enum TagModel {
    BadgeInfo(usize),
    Badges(Seq<Badge>),
    BanDuration(usize),
    ClientNonce(Seq<char>),
    Color(Seq<char>),
    DisplayName(Seq<char>),
    EmoteOnly(bool),
    FirstMsg(bool),
    FollowersOnly(i32),
    Emotes(Seq<EmoteModel>),
    EmoteSets(Seq<usize>),
    Id(Seq<char>),
    Login(Seq<char>),
    Mod(bool),
    MsgId(Seq<char>),
    MsgParamCumulativeMonths(usize),
    MsgParamMonths(usize),
    MsgParamRecipientDisplayName(Seq<char>),
    MsgParamRecipientId(Seq<char>),
    MsgParamRecipientName(Seq<char>),
    MsgParamStreakMonths(usize),
    MsgParamShouldShareStreak(bool),
    MsgParamSubPlan(Seq<char>),
    MsgParamSubPlanName(Seq<char>),
    R9K(bool),
    RoomId(Seq<char>),
    Slow(usize),
    Subscriber(bool),
    SubsOnly(bool),
    SystemMsg(Seq<char>),
    TargetMsgId(Seq<char>),
    TargetUserId(Seq<char>),
    Turbo(bool),
    TmiSentTs(Seq<char>),
    UserId(Seq<char>),
    UserType(UserType),
    Unknown,
}

impl View for Emote {
    type V = EmoteModel;

    open spec fn view(&self) -> EmoteModel {
        EmoteModel { id: self.id, positions: self.positions@ }
    }
}

impl View for Source {
    type V = SourceModel;

    open spec fn view(&self) -> SourceModel {
        SourceModel {
            nick: match self.nick {
                Some(n) => Some(n@),
                None => None,
            },
            host: self.host@,
        }
    }
}

impl View for BotCommand {
    type V = BotCommandModel;

    open spec fn view(&self) -> BotCommandModel {
        BotCommandModel { command: self.command@, parameters: views(self.parameters@) }
    }
}

pub open spec fn emote_views(v: Seq<Emote>) -> Seq<EmoteModel> {
    v.map_values(|e: Emote| e@)
}

impl View for Tag {
    type V = TagModel;

    open spec fn view(&self) -> TagModel {
        match self {
            Tag::BadgeInfo(n) => TagModel::BadgeInfo(*n),
            Tag::Badges(b) => TagModel::Badges(b@),
            Tag::BanDuration(n) => TagModel::BanDuration(*n),
            Tag::ClientNonce(s) => TagModel::ClientNonce(s@),
            Tag::Color(s) => TagModel::Color(s@),
            Tag::DisplayName(s) => TagModel::DisplayName(s@),
            Tag::EmoteOnly(b) => TagModel::EmoteOnly(*b),
            Tag::FirstMsg(b) => TagModel::FirstMsg(*b),
            Tag::FollowersOnly(n) => TagModel::FollowersOnly(*n),
            Tag::Emotes(e) => TagModel::Emotes(emote_views(e@)),
            Tag::EmoteSets(e) => TagModel::EmoteSets(e@),
            Tag::Id(s) => TagModel::Id(s@),
            Tag::Login(s) => TagModel::Login(s@),
            Tag::Mod(b) => TagModel::Mod(*b),
            Tag::MsgId(s) => TagModel::MsgId(s@),
            Tag::MsgParamCumulativeMonths(n) => TagModel::MsgParamCumulativeMonths(*n),
            Tag::MsgParamMonths(n) => TagModel::MsgParamMonths(*n),
            Tag::MsgParamRecipientDisplayName(s) => TagModel::MsgParamRecipientDisplayName(s@),
            Tag::MsgParamRecipientId(s) => TagModel::MsgParamRecipientId(s@),
            Tag::MsgParamRecipientName(s) => TagModel::MsgParamRecipientName(s@),
            Tag::MsgParamStreakMonths(n) => TagModel::MsgParamStreakMonths(*n),
            Tag::MsgParamShouldShareStreak(b) => TagModel::MsgParamShouldShareStreak(*b),
            Tag::MsgParamSubPlan(s) => TagModel::MsgParamSubPlan(s@),
            Tag::MsgParamSubPlanName(s) => TagModel::MsgParamSubPlanName(s@),
            Tag::R9K(b) => TagModel::R9K(*b),
            Tag::RoomId(s) => TagModel::RoomId(s@),
            Tag::Slow(n) => TagModel::Slow(*n),
            Tag::Subscriber(b) => TagModel::Subscriber(*b),
            Tag::SubsOnly(b) => TagModel::SubsOnly(*b),
            Tag::SystemMsg(s) => TagModel::SystemMsg(s@),
            Tag::TargetMsgId(s) => TagModel::TargetMsgId(s@),
            Tag::TargetUserId(s) => TagModel::TargetUserId(s@),
            Tag::Turbo(b) => TagModel::Turbo(*b),
            Tag::TmiSentTs(s) => TagModel::TmiSentTs(s@),
            Tag::UserId(s) => TagModel::UserId(s@),
            Tag::UserType(u) => TagModel::UserType(*u),
            Tag::Unknown => TagModel::Unknown,
        }
    }
}

/// `a` sorts before `b`, comparing characters by code point.
pub open spec fn lex_less(a: Seq<char>, b: Seq<char>) -> bool
    decreases a.len(),
{
    if a.len() == 0 {
        b.len() > 0
    } else if b.len() == 0 {
        false
    } else if a[0] != b[0] {
        a[0] < b[0]
    } else {
        lex_less(a.drop_first(), b.drop_first())
    }
}

fn key_less(a: &String, b: &String) -> (r: bool)
    ensures
        r == lex_less(a@, b@),
{
    let x = crate::text::chars_of(a.as_str());
    let y = crate::text::chars_of(b.as_str());
    let mut i: usize = 0;
    assert(a@.skip(0) =~= a@);
    assert(b@.skip(0) =~= b@);
    while i < x.len() && i < y.len() && x[i] == y[i]
        invariant
            x@ == a@,
            y@ == b@,
            i <= x.len(),
            i <= y.len(),
            lex_less(a@, b@) == lex_less(a@.skip(i as int), b@.skip(i as int)),
        decreases x.len() - i,
    {
        assert(a@.skip(i as int).drop_first() =~= a@.skip(i + 1));
        assert(b@.skip(i as int).drop_first() =~= b@.skip(i + 1));
        i = i + 1;
    }
    if i == x.len() {
        i < y.len()
    } else if i == y.len() {
        false
    } else {
        x[i] < y[i]
    }
}


proof fn lemma_lex_irreflexive(a: Seq<char>)
    ensures
        !lex_less(a, a),
    decreases a.len(),
{
    if a.len() > 0 {
        lemma_lex_irreflexive(a.drop_first());
    }
}

proof fn lemma_lex_total(a: Seq<char>, b: Seq<char>)
    requires
        a != b,
    ensures
        lex_less(a, b) || lex_less(b, a),
    decreases a.len(),
{
    if a.len() > 0 && b.len() > 0 && a[0] == b[0] {
        if a.drop_first() == b.drop_first() {
            assert(a =~= seq![a[0]] + a.drop_first());
            assert(b =~= seq![b[0]] + b.drop_first());
        }
        lemma_lex_total(a.drop_first(), b.drop_first());
    } else if a.len() == 0 && b.len() == 0 {
        assert(a =~= b);
    }
}

proof fn lemma_lex_transitive(a: Seq<char>, b: Seq<char>, c: Seq<char>)
    requires
        lex_less(a, b),
        lex_less(b, c),
    ensures
        lex_less(a, c),
    decreases a.len(),
{
    if a.len() > 0 && b.len() > 0 && c.len() > 0 && a[0] == b[0] && b[0] == c[0] {
        lemma_lex_transitive(a.drop_first(), b.drop_first(), c.drop_first());
    }
}

/// Keys in strictly increasing order.
pub open spec fn sorted_keys<T>(e: Seq<(String, T)>) -> bool {
    forall|i: int, j: int| 0 <= i < j < e.len() ==> lex_less(e[i].0@, e[j].0@)
}

/// The map that a list of key/value entries describes; a later entry for a
/// key takes the place of an earlier one.
pub open spec fn entries_map<T>(e: Seq<(String, T)>) -> Map<Seq<char>, T>
    decreases e.len(),
{
    if e.len() == 0 {
        Map::empty()
    } else {
        entries_map(e.drop_last()).insert(e.last().0@, e.last().1)
    }
}

pub open spec fn unique_keys<T>(e: Seq<(String, T)>) -> bool {
    forall|i: int, j: int| 0 <= i < e.len() && 0 <= j < e.len() && i != j ==> e[i].0@ != e[j].0@
}

proof fn lemma_entries_map<T>(e: Seq<(String, T)>)
    requires
        unique_keys(e),
    ensures
        forall|k: Seq<char>| #[trigger]
            entries_map(e).contains_key(k) <==> exists|i: int| 0 <= i < e.len() && e[i].0@ == k,
        forall|i: int| 0 <= i < e.len() ==> #[trigger] entries_map(e)[e[i].0@] == e[i].1,
    decreases e.len(),
{
    if e.len() > 0 {
        let d = e.drop_last();
        assert(unique_keys(d));
        lemma_entries_map(d);
        assert forall|k: Seq<char>| #[trigger]
            entries_map(e).contains_key(k) <==> exists|i: int| 0 <= i < e.len() && e[i].0@ == k by {
            if k == e.last().0@ {
                assert(e[e.len() - 1].0@ == k);
            } else {
                assert(entries_map(e).contains_key(k) == entries_map(d).contains_key(k));
                if entries_map(d).contains_key(k) {
                    let i = choose|i: int| 0 <= i < d.len() && d[i].0@ == k;
                    assert(e[i] == d[i]);
                }
                if exists|i: int| 0 <= i < e.len() && e[i].0@ == k {
                    let i = choose|i: int| 0 <= i < e.len() && e[i].0@ == k;
                    assert(i < d.len());
                    assert(d[i] == e[i]);
                }
            }
        }
        assert forall|i: int| 0 <= i < e.len() implies #[trigger] entries_map(e)[e[i].0@]
            == e[i].1 by {
            if i < d.len() {
                assert(d[i] == e[i]);
                assert(e[i].0@ != e[e.len() - 1].0@);
                assert(entries_map(d)[d[i].0@] == d[i].1);
            }
        }
    }
}

/// The decoded tags of a line: each key at most once. Entries are kept in
/// key order (both are part of `wf`), so the same entries always stand in the
/// same order.
#[derive(PartialEq, Eq, Debug)]
pub struct TagSet<T> {
    entries: Vec<(String, T)>,
}

impl<T> View for TagSet<T> {
    type V = Map<Seq<char>, T>;

    closed spec fn view(&self) -> Map<Seq<char>, T> {
        entries_map(self.entries@)
    }
}

impl<T> TagSet<T> {
    /// Each key stands in one entry only, and entries are in key order.
    pub closed spec fn wf(&self) -> bool {
        unique_keys(self.entries@) && sorted_keys(self.entries@)
    }

    /// An empty set.
    pub fn new() -> (r: Self)
        ensures
            r.wf(),
            r@ == Map::<Seq<char>, T>::empty(),
    {
        TagSet { entries: Vec::new() }
    }

    /// Number of keys.
    pub fn len(&self) -> (r: usize)
        requires
            self.wf(),
        ensures
            r == self@.dom().len(),
    {
        proof {
            lemma_entries_map(self.entries@);
            let keys = self.entries@.map_values(|p: (String, T)| p.0@);
            assert forall|k: Seq<char>| self@.dom().contains(k) <==> keys.to_set().contains(k) by {
                if self@.dom().contains(k) {
                    let i = choose|i: int| 0 <= i < self.entries@.len() && self.entries@[i].0@ == k;
                    assert(keys[i] == k);
                }
                if keys.contains(k) {
                    let i = choose|i: int| 0 <= i < keys.len() && keys[i] == k;
                    assert(self.entries@[i].0@ == k);
                }
            }
            assert(self@.dom() =~= keys.to_set());
            assert(keys.no_duplicates()) by {
                assert forall|i: int, j: int| 0 <= i < keys.len() && 0 <= j < keys.len() && i
                    != j implies keys[i] != keys[j] by {}
            }
            keys.unique_seq_to_set();
        }
        self.entries.len()
    }

    /// Sets the value of `key`, replacing the one it had.
    pub fn insert(&mut self, key: String, value: T)
        requires
            old(self).wf(),
        ensures
            final(self).wf(),
            final(self)@ == old(self)@.insert(key@, value),
    {
        proof {
            lemma_entries_map(self.entries@);
        }
        let ghost old_entries = self.entries@;
        let mut i: usize = 0;
        while i < self.entries.len()
            invariant
                self.entries@ == old_entries,
                old(self).entries@ == old_entries,
                unique_keys(old_entries),
                sorted_keys(old_entries),
                i <= self.entries.len(),
                forall|j: int| 0 <= j < i ==> self.entries@[j].0@ != key@,
            decreases self.entries.len() - i,
        {
            if self.entries[i].0 == key {
                assert(old_entries[i as int].0@ == key@);
                let _ = self.entries.remove(i);
                self.entries.insert(i, (key, value));
                proof {
                    let e = self.entries@;
                    assert(e =~= old_entries.update(i as int, (key, value)));
                    assert(unique_keys(e)) by {
                        assert forall|a: int, b: int|
                            0 <= a < e.len() && 0 <= b < e.len() && a != b implies e[a].0@
                            != e[b].0@ by {
                            if a != i && b != i {
                                assert(e[a] == old_entries[a] && e[b] == old_entries[b]);
                            } else if a == i {
                                assert(e[b] == old_entries[b]);
                                assert(old_entries[b].0@ != old_entries[a].0@);
                            } else {
                                assert(e[a] == old_entries[a]);
                                assert(old_entries[a].0@ != old_entries[b].0@);
                            }
                        }
                    }
                    assert(sorted_keys(e)) by {
                        assert forall|a: int, b: int| 0 <= a < b < e.len() implies lex_less(
                            e[a].0@,
                            e[b].0@,
                        ) by {
                            assert(lex_less(old_entries[a].0@, old_entries[b].0@));
                            if a != i {
                                assert(e[a] == old_entries[a]);
                            }
                            if b != i {
                                assert(e[b] == old_entries[b]);
                            }
                        }
                    }
                    lemma_entries_map(e);
                    lemma_entries_map(old_entries);
                    assert(entries_map(e) =~= entries_map(old_entries).insert(key@, value)) by {
                        assert forall|k: Seq<char>| #[trigger]
                            entries_map(e).contains_key(k) implies entries_map(e)[k]
                            == entries_map(old_entries).insert(key@, value)[k] by {
                            let a = choose|a: int| 0 <= a < e.len() && e[a].0@ == k;
                            if a != i {
                                assert(e[a] == old_entries[a]);
                            }
                        }
                        assert forall|k: Seq<char>|
                            entries_map(old_entries).insert(key@, value).contains_key(k)
                            implies #[trigger] entries_map(e).contains_key(k) by {
                            if k != key@ {
                                let a = choose|a: int|
                                    0 <= a < old_entries.len() && old_entries[a].0@ == k;
                                assert(e[a] == old_entries[a]);
                            } else {
                                assert(e[i as int].0@ == key@);
                            }
                        }
                    }
                }
                return ;
            }
            i = i + 1;
        }
        let mut p: usize = 0;
        while p < self.entries.len() && !key_less(&key, &self.entries[p].0)
            invariant
                self.entries@ == old_entries,
                unique_keys(old_entries),
                sorted_keys(old_entries),
                forall|j: int| 0 <= j < old_entries.len() ==> old_entries[j].0@ != key@,
                forall|j: int| 0 <= j < p ==> !lex_less(key@, old_entries[j].0@),
                p <= self.entries.len(),
            decreases self.entries.len() - p,
        {
            p = p + 1;
        }
        self.entries.insert(p, (key, value));
        proof {
            let e = self.entries@;
            assert(e =~= old_entries.insert(p as int, (key, value)));
            assert(unique_keys(e)) by {
                assert forall|a: int, b: int|
                    0 <= a < e.len() && 0 <= b < e.len() && a != b implies e[a].0@ != e[b].0@ by {
                    let oa = if a < p { a } else { a - 1 };
                    let ob = if b < p { b } else { b - 1 };
                    if a != p && b != p {
                        assert(e[a] == old_entries[oa] && e[b] == old_entries[ob]);
                    } else if a == p {
                        assert(e[b] == old_entries[ob]);
                    } else {
                        assert(e[a] == old_entries[oa]);
                    }
                }
            }
            assert(sorted_keys(e)) by {
                assert forall|a: int, b: int| 0 <= a < b < e.len() implies lex_less(
                    e[a].0@,
                    e[b].0@,
                ) by {
                    if a != p && b != p {
                        let oa = if a < p { a } else { a - 1 };
                        let ob = if b < p { b } else { b - 1 };
                        assert(e[a] == old_entries[oa] && e[b] == old_entries[ob]);
                    } else if a == p {
                        let ob = b - 1;
                        assert(e[b] == old_entries[ob]);
                        assert(lex_less(key@, old_entries[p as int].0@));
                        if ob > p {
                            lemma_lex_transitive(key@, old_entries[p as int].0@, old_entries[ob].0@);
                        }
                    } else {
                        assert(e[a] == old_entries[a]);
                        lemma_lex_total(key@, old_entries[a].0@);
                    }
                }
            }
            lemma_entries_map(e);
            lemma_entries_map(old_entries);
            assert(entries_map(e) =~= entries_map(old_entries).insert(key@, value)) by {
                assert forall|k: Seq<char>| #[trigger]
                    entries_map(e).contains_key(k) implies entries_map(e)[k] == entries_map(
                    old_entries,
                ).insert(key@, value)[k] by {
                    let a = choose|a: int| 0 <= a < e.len() && e[a].0@ == k;
                    if a != p {
                        let oa = if a < p { a } else { a - 1 };
                        assert(e[a] == old_entries[oa]);
                    }
                }
                assert forall|k: Seq<char>|
                    entries_map(old_entries).insert(key@, value).contains_key(k)
                    implies #[trigger] entries_map(e).contains_key(k) by {
                    if k != key@ {
                        let a = choose|a: int| 0 <= a < old_entries.len() && old_entries[a].0@ == k;
                        let ea = if a < p { a } else { a + 1 };
                        assert(e[ea] == old_entries[a]);
                    } else {
                        assert(e[p as int].0@ == key@);
                    }
                }
            }
        }
    }

    /// The value of `key`, if the set holds it.
    pub fn get(&self, key: &str) -> (r: Option<&T>)
        requires
            self.wf(),
        ensures
            r is Some <==> self@.contains_key(key@),
            r matches Some(v) ==> *v == self@[key@],
    {
        let mut i: usize = 0;
        while i < self.entries.len()
            invariant
                self.wf(),
                i <= self.entries.len(),
                forall|j: int| 0 <= j < i ==> self.entries@[j].0@ != key@,
            decreases self.entries.len() - i,
        {
            if crate::text::str_eq(self.entries[i].0.as_str(), key) {
                proof {
                    lemma_entries_map(self.entries@);
                }
                return Some(&self.entries[i].1);
            }
            i = i + 1;
        }
        proof {
            lemma_entries_map(self.entries@);
        }
        None
    }
}

/// A protocol verb with the fields its wire format carries.
#[allow(inconsistent_fields)]
#[derive(PartialEq, Eq, Debug)]
pub enum Command {
    /// `:<user>!<user>@<user>.tmi.twitch.tv JOIN #<channel>`
    JOIN(String),
    /// `:<user>!<user>@<user>.tmi.twitch.tv PART #<channel>`
    PART(String),
    /// `:tmi.twitch.tv NOTICE #<channel> :<message>`
    NOTICE { channel: String, message: String, tags: Option<TagSet<Tag>> },
    /// `:tmi.twitch.tv CLEARCHAT #<channel> :<user>`; `user` is absent when the whole room was cleared.
    CLEARCHAT { channel: String, user: Option<String>, tags: Option<TagSet<Tag>> },
    /// `:tmi.twitch.tv CLEARMSG #<channel> :<message>`
    CLEARMSG { channel: String, message: String, tags: Option<TagSet<Tag>> },
    /// `:tmi.twitch.tv HOSTTARGET #<hosting-channel> :[-|<channel>] <number-of-viewers>`
    HOSTTARGET { channel: String, hosting_channel: String, number_of_viewers: usize },
    /// A chat message, with the bot command it carries, if any.
    PRIVMSG {
        channel: String,
        message: String,
        bot_command: Option<BotCommand>,
        tags: Option<TagSet<Tag>>,
    },
    /// A keep-alive probe that must be answered with a `PONG`.
    PING,
    /// A capability acknowledgement; the parser reports these as `UNSUPPORTED`.
    CAP(bool),
    /// `:tmi.twitch.tv GLOBALUSERSTATE`
    GLOBALUSERSTATE { tags: Option<TagSet<Tag>> },
    /// `:tmi.twitch.tv USERNOTICE #<channel> :[<message>]`
    USERNOTICE { channel: String, message: Option<String>, tags: Option<TagSet<Tag>> },
    /// `:tmi.twitch.tv USERSTATE #<channel>`
    USERSTATE { channel: String, tags: Option<TagSet<Tag>> },
    /// `:tmi.twitch.tv ROOMSTATE #<channel>`
    ROOMSTATE { channel: String, tags: Option<TagSet<Tag>> },
    /// The server is about to close the connection.
    RECONNECT,
    /// A private message to the bot; the parser reports these as `UNSUPPORTED`.
    WHISPER { from_user: String, message: String, to_user: String },
    /// A numeric reply and its parameter blob.
    NUMBER(u32, Option<String>),
    /// A verb this parser has no rule for.
    UNSUPPORTED,
}

/// One parsed protocol line.
#[derive(PartialEq, Eq, Debug)]
pub struct ParsedTwitchMessage {
    pub source: Option<Source>,
    pub command: Command,
}

pub type TagsModel = Map<Seq<char>, TagModel>;

/// A tag set a command may carry is well formed.
pub open spec fn tags_wf(t: Option<TagSet<Tag>>) -> bool {
    match t {
        Some(s) => s.wf(),
        None => true,
    }
}

/// Every tag set inside `c` is well formed.
pub open spec fn command_tags_wf(c: Command) -> bool {
    match c {
        Command::NOTICE { tags, .. } => tags_wf(tags),
        Command::CLEARCHAT { tags, .. } => tags_wf(tags),
        Command::CLEARMSG { tags, .. } => tags_wf(tags),
        Command::PRIVMSG { tags, .. } => tags_wf(tags),
        Command::GLOBALUSERSTATE { tags } => tags_wf(tags),
        Command::USERNOTICE { tags, .. } => tags_wf(tags),
        Command::USERSTATE { tags, .. } => tags_wf(tags),
        Command::ROOMSTATE { tags, .. } => tags_wf(tags),
        _ => true,
    }
}

/// The view of a [`Command`].
#[allow(inconsistent_fields)]
pub enum CommandModel {
    JOIN(Seq<char>),
    PART(Seq<char>),
    NOTICE { channel: Seq<char>, message: Seq<char>, tags: Option<TagsModel> },
    CLEARCHAT { channel: Seq<char>, user: Option<Seq<char>>, tags: Option<TagsModel> },
    CLEARMSG { channel: Seq<char>, message: Seq<char>, tags: Option<TagsModel> },
    HOSTTARGET { channel: Seq<char>, hosting_channel: Seq<char>, number_of_viewers: usize },
    PRIVMSG {
        channel: Seq<char>,
        message: Seq<char>,
        bot_command: Option<BotCommandModel>,
        tags: Option<TagsModel>,
    },
    PING,
    CAP(bool),
    GLOBALUSERSTATE { tags: Option<TagsModel> },
    USERNOTICE { channel: Seq<char>, message: Option<Seq<char>>, tags: Option<TagsModel> },
    USERSTATE { channel: Seq<char>, tags: Option<TagsModel> },
    ROOMSTATE { channel: Seq<char>, tags: Option<TagsModel> },
    RECONNECT,
    WHISPER { from_user: Seq<char>, message: Seq<char>, to_user: Seq<char> },
    NUMBER(u32, Option<Seq<char>>),
    UNSUPPORTED,
}

/// The view of a [`ParsedTwitchMessage`].
pub struct MessageModel {
    pub source: Option<SourceModel>,
    pub command: CommandModel,
}

pub open spec fn tag_models(m: Map<Seq<char>, Tag>) -> TagsModel {
    m.map_values(|t: Tag| t@)
}

pub open spec fn tags_view(t: Option<TagSet<Tag>>) -> Option<TagsModel> {
    match t {
        Some(s) => Some(tag_models(s@)),
        None => None,
    }
}

pub open spec fn text_view(t: Option<String>) -> Option<Seq<char>> {
    match t {
        Some(s) => Some(s@),
        None => None,
    }
}

pub open spec fn bot_command_view(b: Option<BotCommand>) -> Option<BotCommandModel> {
    match b {
        Some(c) => Some(c@),
        None => None,
    }
}

pub open spec fn source_view(s: Option<Source>) -> Option<SourceModel> {
    match s {
        Some(v) => Some(v@),
        None => None,
    }
}

impl View for Command {
    type V = CommandModel;

    open spec fn view(&self) -> CommandModel {
        match self {
            Command::JOIN(c) => CommandModel::JOIN(c@),
            Command::PART(c) => CommandModel::PART(c@),
            Command::NOTICE { channel, message, tags } => CommandModel::NOTICE {
                channel: channel@,
                message: message@,
                tags: tags_view(*tags),
            },
            Command::CLEARCHAT { channel, user, tags } => CommandModel::CLEARCHAT {
                channel: channel@,
                user: text_view(*user),
                tags: tags_view(*tags),
            },
            Command::CLEARMSG { channel, message, tags } => CommandModel::CLEARMSG {
                channel: channel@,
                message: message@,
                tags: tags_view(*tags),
            },
            Command::HOSTTARGET { channel, hosting_channel, number_of_viewers } =>
                CommandModel::HOSTTARGET {
                channel: channel@,
                hosting_channel: hosting_channel@,
                number_of_viewers: *number_of_viewers,
            },
            Command::PRIVMSG { channel, message, bot_command, tags } => CommandModel::PRIVMSG {
                channel: channel@,
                message: message@,
                bot_command: bot_command_view(*bot_command),
                tags: tags_view(*tags),
            },
            Command::PING => CommandModel::PING,
            Command::CAP(b) => CommandModel::CAP(*b),
            Command::GLOBALUSERSTATE { tags } => CommandModel::GLOBALUSERSTATE {
                tags: tags_view(*tags),
            },
            Command::USERNOTICE { channel, message, tags } => CommandModel::USERNOTICE {
                channel: channel@,
                message: text_view(*message),
                tags: tags_view(*tags),
            },
            Command::USERSTATE { channel, tags } => CommandModel::USERSTATE {
                channel: channel@,
                tags: tags_view(*tags),
            },
            Command::ROOMSTATE { channel, tags } => CommandModel::ROOMSTATE {
                channel: channel@,
                tags: tags_view(*tags),
            },
            Command::RECONNECT => CommandModel::RECONNECT,
            Command::WHISPER { from_user, message, to_user } => CommandModel::WHISPER {
                from_user: from_user@,
                message: message@,
                to_user: to_user@,
            },
            Command::NUMBER(n, p) => CommandModel::NUMBER(*n, text_view(*p)),
            Command::UNSUPPORTED => CommandModel::UNSUPPORTED,
        }
    }
}

impl View for ParsedTwitchMessage {
    type V = MessageModel;

    open spec fn view(&self) -> MessageModel {
        MessageModel { source: source_view(self.source), command: self.command@ }
    }
}

} // verus!
