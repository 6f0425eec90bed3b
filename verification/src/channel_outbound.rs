//! Sending messages over channels.

use vstd::prelude::*;
use vstd::string::*;

use crate::router::{connected_channel, is_first_carrier, no_carrier, RouteError};
use crate::types::Channel;

verus! {

#[derive(Debug)]
pub struct ChannelOutboundSender<C> {
    channels: Vec<C>,
}

impl<C> View for ChannelOutboundSender<C> {
    type V = Seq<C>;

    closed spec fn view(&self) -> Seq<C> {
        self.channels@
    }
}

impl<C: Channel> ChannelOutboundSender<C> {
    pub fn new(channels: Vec<C>) -> (sender: ChannelOutboundSender<C>)
        ensures
            sender@ == channels@,
    {
        ChannelOutboundSender { channels }
    }

    /// The channel that carries a message to a chat: the first that serves it
    /// and is up.
    pub fn channel_for(&self, jid: &str) -> (found: Result<&C, RouteError>)
        ensures
            match found {
                Ok(c) => is_first_carrier(self@, jid, *c),
                Err(e) => no_carrier(self@, jid) && (e matches RouteError::NoChannel {
                    jid: missing,
                } && missing@ == jid@),
            },
    {
        connected_channel(&self.channels, jid)
    }

    /// The channel on which typing is shown in a chat.
    pub fn typing_channel(&self, jid: &str) -> (found: Result<&C, String>)
        ensures
            match found {
                Ok(c) => is_first_carrier(self@, jid, *c),
                Err(message) => no_carrier(self@, jid) && message@
                    == "no connected channel for JID: "@ + jid@,
            },
    {
        match self.channel_for(jid) {
            Ok(channel) => Ok(channel),
            Err(_) => Err("no connected channel for JID: ".to_owned().concat(jid)),
        }
    }
}

} // verus!
