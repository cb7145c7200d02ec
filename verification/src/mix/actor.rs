//! Actors: performers or sources, each mapped to one console channel.

use vstd::prelude::*;
use vstd::string::*;

use crate::wing::channel::{WingChannelId, WingChannelInfo};
use crate::wing::color::WingColor;

verus! {

/// An opaque handle into the show's actor registry; handles grow
/// monotonically and are never reused.
#[derive(Copy, Clone, Debug, Default, PartialEq, Eq, Structural, PartialOrd, Ord, Hash)]
pub struct ActorId(pub u32);

impl ActorId {
    /// The next handle after this one.
    pub fn next(&self) -> (r: Self)
        requires
            self.0 < u32::MAX,
        ensures
            r.0 == self.0 + 1,
    {
        ActorId(self.0 + 1)
    }
}

/// A performer or source mapped to one console channel, with a display name
/// and an optional color; the fields never change once the actor is made.
pub struct Actor {
    name: String,
    channel: WingChannelId,
    color: Option<WingColor>,
}

impl Actor {
    /// The display name.
    pub closed spec fn name_spec(&self) -> Seq<char> {
        self.name@
    }

    /// The console channel the actor is mapped to.
    pub closed spec fn channel_spec(&self) -> WingChannelId {
        self.channel
    }

    /// The display color, if one was chosen.
    pub closed spec fn color_spec(&self) -> Option<WingColor> {
        self.color
    }

    /// Builds an actor from its channel, name and color.
    pub fn new(channel: WingChannelId, name: String, color: Option<WingColor>) -> (r: Self)
        ensures
            r.name_spec() == name@,
            r.channel_spec() == channel,
            r.color_spec() == color,
    {
        Actor { name, channel, color }
    }

    /// The display name.
    pub fn name(&self) -> (r: &str)
        ensures
            r@ == self.name_spec(),
    {
        self.name.as_str()
    }

    /// The console channel the actor is mapped to.
    pub fn channel(&self) -> (r: &WingChannelId)
        ensures
            *r == self.channel_spec(),
    {
        &self.channel
    }

    /// The display color, if one was chosen.
    pub fn color(&self) -> (r: Option<WingColor>)
        ensures
            r == self.color_spec(),
    {
        self.color
    }

    /// An actor taking its name and color from what a live channel reports.
    pub fn from_channel_info(channel: WingChannelId, info: WingChannelInfo) -> (r: Self)
        ensures
            r.name_spec() == info.name@,
            r.channel_spec() == channel,
            r.color_spec() == Some(info.color),
    {
        Actor { name: info.name, channel, color: Some(info.color) }
    }

    /// An actor with the same fields.
    pub fn duplicate(&self) -> (r: Self)
        ensures
            r.name_spec() == self.name_spec(),
            r.channel_spec() == self.channel_spec(),
            r.color_spec() == self.color_spec(),
    {
        Actor { name: self.name.clone(), channel: self.channel, color: self.color }
    }
}

/// A notification the surrounding shell consumes after the actor registry
/// changes.
pub enum ActorEvent {
    Added(ActorId, Actor),
    Removed(ActorId),
}

} // verus!
