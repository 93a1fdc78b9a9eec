//! The upstream connection as a state machine: the process feeds it what
//! happened and performs the actions it returns.
use vstd::prelude::*;

use crate::parser::{crlf_lines, messages_of};
use crate::router::{
    create_privmsg, handshake_lines, handshake_text, outbound_line, privmsg_text, replies_for_frame,
    replies_of,
};
use crate::text::views;
use crate::webhook::{TwitchCommand, TwitchCommandModel};

verus! {

/// Seconds to wait before connecting again.
pub const RECONNECT_DELAY_SECONDS: u64 = 5;

/// Where the connection stands.
#[derive(Debug, PartialEq, Eq, Clone, Copy)]
pub enum LinkState {
    /// Waiting for a connection attempt to finish.
    Connecting,
    /// Connected and handshaken.
    Open,
    /// Shut down for good.
    Closed,
}

/// Something that happened to the connection.
#[derive(Debug, PartialEq, Eq)]
pub enum LinkEvent {
    Connected,
    ConnectFailed,
    /// A text frame arrived.
    Frame(String),
    /// An internal command was taken from the outbound queue.
    Queued(TwitchCommand),
    /// The server closed the stream or reading failed for good.
    StreamEnded,
    /// The stop signal was raised.
    Shutdown,
}

/// What to do next.
#[derive(Debug, PartialEq, Eq)]
pub enum LinkAction {
    /// Write this line to the connection.
    Send(String),
    /// Wait this many seconds, then connect again.
    Reconnect { delay_seconds: u64 },
    /// Close the connection.
    Close,
}

/// The view of a [`LinkEvent`].
pub enum LinkEventModel {
    Connected,
    ConnectFailed,
    Frame(Seq<char>),
    Queued(TwitchCommandModel),
    StreamEnded,
    Shutdown,
}

/// The view of a [`LinkAction`].
pub enum LinkActionModel {
    Send(Seq<char>),
    Reconnect { delay_seconds: u64 },
    Close,
}

impl View for LinkEvent {
    type V = LinkEventModel;

    open spec fn view(&self) -> LinkEventModel {
        match self {
            LinkEvent::Connected => LinkEventModel::Connected,
            LinkEvent::ConnectFailed => LinkEventModel::ConnectFailed,
            LinkEvent::Frame(t) => LinkEventModel::Frame(t@),
            LinkEvent::Queued(c) => LinkEventModel::Queued(c@),
            LinkEvent::StreamEnded => LinkEventModel::StreamEnded,
            LinkEvent::Shutdown => LinkEventModel::Shutdown,
        }
    }
}

impl View for LinkAction {
    type V = LinkActionModel;

    open spec fn view(&self) -> LinkActionModel {
        match self {
            LinkAction::Send(t) => LinkActionModel::Send(t@),
            LinkAction::Reconnect { delay_seconds } => LinkActionModel::Reconnect {
                delay_seconds: *delay_seconds,
            },
            LinkAction::Close => LinkActionModel::Close,
        }
    }
}

pub open spec fn link_action_views(v: Seq<LinkAction>) -> Seq<LinkActionModel> {
    v.map_values(|a: LinkAction| a@)
}

pub open spec fn sends(lines: Seq<Seq<char>>) -> Seq<LinkActionModel> {
    lines.map_values(|l: Seq<char>| LinkActionModel::Send(l))
}

/// The first chat line after the handshake.
pub open spec fn greeting(channel: Seq<char>) -> Seq<char> {
    privmsg_text(channel, "I have risen!"@)
}

/// The chat line sent before closing on shutdown.
pub open spec fn farewell(channel: Seq<char>) -> Seq<char> {
    privmsg_text(channel, "So long, and thanks for all the fish."@)
}

/// The transition for `event` in `state`: the next state and the actions.
pub open spec fn link_step(
    state: LinkState,
    event: LinkEventModel,
    token: Seq<char>,
    nick: Seq<char>,
    channel: Seq<char>,
) -> (LinkState, Seq<LinkActionModel>) {
    match (state, event) {
        (LinkState::Closed, _) => (LinkState::Closed, Seq::empty()),
        (LinkState::Open, LinkEventModel::Shutdown) => (
            LinkState::Closed,
            seq![LinkActionModel::Send(farewell(channel)), LinkActionModel::Close],
        ),
        (_, LinkEventModel::Shutdown) => (LinkState::Closed, seq![LinkActionModel::Close]),
        (LinkState::Connecting, LinkEventModel::Connected) => (
            LinkState::Open,
            sends(handshake_text(token, nick, channel).push(greeting(channel))),
        ),
        (LinkState::Connecting, LinkEventModel::ConnectFailed) => (
            LinkState::Connecting,
            seq![LinkActionModel::Reconnect { delay_seconds: RECONNECT_DELAY_SECONDS }],
        ),
        (LinkState::Open, LinkEventModel::Frame(text)) => (
            LinkState::Open,
            sends(replies_of(messages_of(crlf_lines(text)))),
        ),
        (LinkState::Open, LinkEventModel::Queued(command)) => (
            LinkState::Open,
            match command {
                TwitchCommandModel::Privmsg { message } => seq![
                    LinkActionModel::Send(privmsg_text(channel, message)),
                ],
                _ => Seq::empty(),
            },
        ),
        (LinkState::Open, LinkEventModel::StreamEnded) => (
            LinkState::Connecting,
            seq![LinkActionModel::Reconnect { delay_seconds: RECONNECT_DELAY_SECONDS }],
        ),
        (s, _) => (s, Seq::empty()),
    }
}

fn push_sends(out: &mut Vec<LinkAction>, lines: Vec<String>)
    ensures
        link_action_views(final(out)@) == link_action_views(old(out)@) + sends(views(lines@)),
{
    let ghost start = link_action_views(out@);
    let mut lines = lines;
    let ghost all = views(lines@);
    let mut rest: Vec<String> = Vec::new();
    while lines.len() > 0
        invariant
            all == views(rest@) + views(lines@),
            link_action_views(out@) == start + sends(views(rest@)),
        decreases lines.len(),
    {
        let line = lines.remove(0);
        let ghost lv = line@;
        let ghost before = link_action_views(out@);
        let ghost rest_before = views(rest@);
        let copy = line.clone();
        out.push(LinkAction::Send(line));
        rest.push(copy);
        assert(link_action_views(out@) =~= before.push(LinkActionModel::Send(lv)));
        assert(views(rest@) =~= rest_before.push(lv));
        assert(sends(views(rest@)) =~= sends(rest_before).push(LinkActionModel::Send(lv)));
        assert(all =~= views(rest@) + views(lines@));
    }
    assert(views(rest@) =~= all);
}

/// Decides the next state and the actions for one event.
pub fn link_step_for(
    state: LinkState,
    event: &LinkEvent,
    token: &str,
    nick: &str,
    channel: &str,
) -> (r: (LinkState, Vec<LinkAction>))
    ensures
        (r.0, link_action_views(r.1@)) == link_step(state, event@, token@, nick@, channel@),
{
    let mut out: Vec<LinkAction> = Vec::new();
    let ghost empty = link_action_views(out@);
    assert(empty =~= Seq::<LinkActionModel>::empty());
    match (state, event) {
        (LinkState::Closed, _) => (LinkState::Closed, out),
        (LinkState::Open, LinkEvent::Shutdown) => {
            out.push(LinkAction::Send(create_privmsg(channel, "So long, and thanks for all the fish.")));
            out.push(LinkAction::Close);
            assert(link_action_views(out@) =~= seq![
                LinkActionModel::Send(farewell(channel@)),
                LinkActionModel::Close,
            ]);
            (LinkState::Closed, out)
        },
        (_, LinkEvent::Shutdown) => {
            out.push(LinkAction::Close);
            assert(link_action_views(out@) =~= seq![LinkActionModel::Close]);
            (LinkState::Closed, out)
        },
        (LinkState::Connecting, LinkEvent::Connected) => {
            let mut lines = handshake_lines(token, nick, channel);
            let ghost hs = views(lines@);
            let hello = create_privmsg(channel, "I have risen!");
            let ghost hv = hello@;
            lines.push(hello);
            assert(views(lines@) =~= hs.push(hv));
            push_sends(&mut out, lines);
            assert(link_action_views(out@) =~= sends(hs.push(hv)));
            (LinkState::Open, out)
        },
        (LinkState::Connecting, LinkEvent::ConnectFailed) => {
            out.push(LinkAction::Reconnect { delay_seconds: RECONNECT_DELAY_SECONDS });
            assert(link_action_views(out@) =~= seq![
                LinkActionModel::Reconnect { delay_seconds: RECONNECT_DELAY_SECONDS },
            ]);
            (LinkState::Connecting, out)
        },
        (LinkState::Open, LinkEvent::Frame(text)) => {
            let replies = replies_for_frame(text.as_str());
            push_sends(&mut out, replies);
            assert(link_action_views(out@) =~= sends(
                replies_of(messages_of(crlf_lines(text@))),
            ));
            (LinkState::Open, out)
        },
        (LinkState::Open, LinkEvent::Queued(command)) => {
            match outbound_line(command, channel) {
                Some(line) => {
                    out.push(LinkAction::Send(line));
                },
                None => {},
            }
            assert(link_action_views(out@) =~= link_step(
                state,
                event@,
                token@,
                nick@,
                channel@,
            ).1);
            (LinkState::Open, out)
        },
        (LinkState::Open, LinkEvent::StreamEnded) => {
            out.push(LinkAction::Reconnect { delay_seconds: RECONNECT_DELAY_SECONDS });
            assert(link_action_views(out@) =~= seq![
                LinkActionModel::Reconnect { delay_seconds: RECONNECT_DELAY_SECONDS },
            ]);
            (LinkState::Connecting, out)
        },
        (s, _) => (s, out),
    }
}

/// Once the stop signal is handled the connection stays closed and does
/// nothing more, whatever happens next.
pub proof fn lemma_shutdown_is_final(
    state: LinkState,
    event: LinkEventModel,
    later: LinkEventModel,
    token: Seq<char>,
    nick: Seq<char>,
    channel: Seq<char>,
)
    requires
        event is Shutdown,
    ensures
        link_step(state, event, token, nick, channel).0 == LinkState::Closed,
        link_step(LinkState::Closed, later, token, nick, channel) == (
            LinkState::Closed,
            Seq::<LinkActionModel>::empty(),
        ),
{
}

} // verus!
