//! The credentials of the messaging client that posts announcements.
use vstd::prelude::*;

verus! {

/// A messaging client holding its bot token.
pub struct Discord {
    pub token: String,
}

/// Builds a [`Discord`] client.
pub struct DiscordBuilder {
    token: String,
}

impl View for DiscordBuilder {
    type V = Seq<char>;

    /// The token the client will use.
    closed spec fn view(&self) -> Seq<char> {
        self.token@
    }
}

impl DiscordBuilder {
    /// A builder for a client that authenticates with `token`.
    pub fn new(token: &str) -> (r: Self)
        ensures
            r@ == token@,
    {
        DiscordBuilder { token: token.to_owned() }
    }

    /// The client, with the builder's token.
    pub fn build(&self) -> (r: Discord)
        ensures
            r.token@ == self@,
    {
        Discord { token: self.token.clone() }
    }
}

} // verus!
