//! Device writes and the operations the engines plan.
//!
//! A [`WingAction`] names one mutation of console state in the vocabulary of
//! the show (mute a channel, set a DCA's name). Encoding turns an action
//! into the wire-level write: the property path is resolved to the device's
//! numeric node address through the protocol library's lookup table, and the
//! value is rendered in the device's own encoding.

use vstd::prelude::*;
use vstd::string::*;

use crate::clamped::{ClampedValue, HALF_UNIT, UNIT};
use crate::decimal::{dec_digits, u8_to_decimal};
use crate::wing::channel::{join_comma, join_commas, WingChannelId, WingChannelTagList};
use crate::wing::color::{color_code, WingColor};
use crate::wing::dca::WingDcaId;
use crate::wing::id::WingId;

verus! {

/// The property path of one channel property: `/ch/<n>/<prop>`.
pub open spec fn channel_path(n: u8, prop: Seq<char>) -> Seq<char> {
    "/ch/"@ + dec_digits(n as nat) + "/"@ + prop
}

/// The property path of one DCA property: `/dca/<n>/<prop>`.
pub open spec fn dca_path(n: u8, prop: Seq<char>) -> Seq<char> {
    "/dca/"@ + dec_digits(n as nat) + "/"@ + prop
}

/// The numeric node address the device-protocol library's table gives a
/// property path, if the path is known to it.
pub uninterp spec fn node_id_of(name: Seq<char>) -> Option<i32>;

/// Relies on libwing's `WingConsole::name_to_id`: a lookup of a property
/// path in the crate's built-in property table (a numeric path text resolves
/// to its own number), a pure function of the path text alone.
#[verifier::external_body]
fn resolve_path(name: &str) -> (r: Option<i32>)
    ensures
        r == node_id_of(name@),
{
    libwing::WingConsole::name_to_id(name)
}

fn channel_path_str(n: u8, prop: &str) -> (r: String)
    ensures
        r@ == channel_path(n, prop@),
{
    let mut s = "/ch/".to_owned();
    s.append(u8_to_decimal(n).as_str());
    s.append("/");
    s.append(prop);
    proof {
        assert(s@ =~= channel_path(n, prop@));
    }
    s
}

fn dca_path_str(n: u8, prop: &str) -> (r: String)
    ensures
        r@ == dca_path(n, prop@),
{
    let mut s = "/dca/".to_owned();
    s.append(u8_to_decimal(n).as_str());
    s.append("/");
    s.append(prop);
    proof {
        assert(s@ =~= dca_path(n, prop@));
    }
    s
}

/// Resolves one channel property to its numeric node address.
pub fn channel_node_id(ch: WingChannelId, prop: &str) -> (r: Option<i32>)
    ensures
        r == node_id_of(channel_path(ch.id_spec(), prop@)),
{
    resolve_path(channel_path_str(ch.value(), prop).as_str())
}

/// Resolves one DCA property to its numeric node address.
pub fn dca_node_id(dca: WingDcaId, prop: &str) -> (r: Option<i32>)
    ensures
        r == node_id_of(dca_path(dca.id_spec(), prop@)),
{
    resolve_path(dca_path_str(dca.value(), prop).as_str())
}

/// A value as the device takes it on a write.
pub enum WingValue {
    Str(String),
    Int(i32),
}

/// One wire-level write: a value for a numeric node address. The protocol
/// answers no write, so issuing one is fire-and-forget.
pub struct WingWrite {
    pub node: i32,
    pub value: WingValue,
}

/// One console mutation in show vocabulary. Setting a channel's DCA
/// membership is read-modify-write on the device (the tag list must be
/// fetched first), so it stays symbolic here and is encoded against the
/// fetched tags.
pub enum WingAction {
    /// Mute a channel.
    Mute(WingChannelId),
    /// Unmute a channel.
    Unmute(WingChannelId),
    /// Make a channel's DCA membership exactly these buses.
    SetDcas(WingChannelId, Vec<WingDcaId>),
    /// Set a channel's stereo pan.
    SetPan(WingChannelId, ClampedValue),
    /// Set a DCA bus's display name.
    SetDcaName(WingDcaId, String),
    /// Set a DCA bus's display color.
    SetDcaColor(WingDcaId, WingColor),
}

/// The device's signed pan percentage for a stored unit-interval pan: the
/// unit interval maps linearly onto -100 to 100 with the center at zero,
/// truncated toward zero.
pub open spec fn pan_device_spec(v: u32) -> int {
    if v >= HALF_UNIT {
        (((v - HALF_UNIT) * 200) / (UNIT as int))
    } else {
        -(((HALF_UNIT - v) * 200) / (UNIT as int))
    }
}

/// Maps a stored pan to the device's signed percentage.
pub fn pan_to_device(pan: &ClampedValue) -> (r: i32)
    requires
        pan.wf(),
    ensures
        r as int == pan_device_spec(pan.value_spec()),
        -100 <= r <= 100,
{
    let v = pan.value();
    if v >= HALF_UNIT {
        let d: u32 = ((v - HALF_UNIT) * 200) / UNIT;
        d as i32
    } else {
        let d: u32 = ((HALF_UNIT - v) * 200) / UNIT;
        0i32 - d as i32
    }
}

/// The write that mutes a channel, if the device knows the property.
pub fn mute_write(ch: WingChannelId) -> (r: Option<WingWrite>)
    ensures
        r is Some <==> node_id_of(channel_path(ch.id_spec(), "mute"@)) is Some,
        r matches Some(w) ==> node_id_of(channel_path(ch.id_spec(), "mute"@)) == Some(w.node)
            && w.value == WingValue::Int(1),
{
    match channel_node_id(ch, "mute") {
        Some(node) => Some(WingWrite { node, value: WingValue::Int(1) }),
        None => None,
    }
}

/// The write that unmutes a channel, if the device knows the property.
pub fn unmute_write(ch: WingChannelId) -> (r: Option<WingWrite>)
    ensures
        r is Some <==> node_id_of(channel_path(ch.id_spec(), "mute"@)) is Some,
        r matches Some(w) ==> node_id_of(channel_path(ch.id_spec(), "mute"@)) == Some(w.node)
            && w.value == WingValue::Int(0),
{
    match channel_node_id(ch, "mute") {
        Some(node) => Some(WingWrite { node, value: WingValue::Int(0) }),
        None => None,
    }
}

/// The write that sets a channel's pan, if the device knows the property.
pub fn pan_write(ch: WingChannelId, pan: &ClampedValue) -> (r: Option<WingWrite>)
    requires
        pan.wf(),
    ensures
        r is Some <==> node_id_of(channel_path(ch.id_spec(), "pan"@)) is Some,
        r matches Some(w) ==> node_id_of(channel_path(ch.id_spec(), "pan"@)) == Some(w.node)
            && w.value == WingValue::Int(pan_device_spec(pan.value_spec()) as i32),
{
    match channel_node_id(ch, "pan") {
        Some(node) => Some(WingWrite { node, value: WingValue::Int(pan_to_device(pan)) }),
        None => None,
    }
}

/// The write that replaces a channel's whole tag list, if the device knows
/// the property. The tags go over the wire as one comma-joined text.
pub fn set_tags_write(ch: WingChannelId, tags: WingChannelTagList) -> (r: Option<WingWrite>)
    ensures
        r is Some <==> node_id_of(channel_path(ch.id_spec(), "tags"@)) is Some,
        r matches Some(w) ==> node_id_of(channel_path(ch.id_spec(), "tags"@)) == Some(w.node) && (
        w.value matches WingValue::Str(text) && text@ == join_comma(tags.tag_seq())),
{
    match channel_node_id(ch, "tags") {
        Some(node) => {
            let parts = tags.tags();
            let text = join_commas(&parts);
            Some(WingWrite { node, value: WingValue::Str(text) })
        },
        None => None,
    }
}

/// The write that renames a DCA bus, if the device knows the property.
pub fn dca_name_write(dca: WingDcaId, name: &str) -> (r: Option<WingWrite>)
    ensures
        r is Some <==> node_id_of(dca_path(dca.id_spec(), "name"@)) is Some,
        r matches Some(w) ==> node_id_of(dca_path(dca.id_spec(), "name"@)) == Some(w.node) && (
        w.value matches WingValue::Str(text) && text@ == name@),
{
    match dca_node_id(dca, "name") {
        Some(node) => Some(WingWrite { node, value: WingValue::Str(name.to_owned()) }),
        None => None,
    }
}

/// The write that recolors a DCA bus, if the device knows the property.
pub fn dca_color_write(dca: WingDcaId, color: WingColor) -> (r: Option<WingWrite>)
    ensures
        r is Some <==> node_id_of(dca_path(dca.id_spec(), "col"@)) is Some,
        r matches Some(w) ==> node_id_of(dca_path(dca.id_spec(), "col"@)) == Some(w.node)
            && w.value == WingValue::Int(color_code(color) as i32),
{
    match dca_node_id(dca, "col") {
        Some(node) => Some(WingWrite { node, value: WingValue::Int(color.to_u8() as i32) }),
        None => None,
    }
}

/// The node address a channel's tag list is read from.
pub fn channel_tags_node(ch: WingChannelId) -> (r: Option<i32>)
    ensures
        r == node_id_of(channel_path(ch.id_spec(), "tags"@)),
{
    channel_node_id(ch, "tags")
}

/// The node address a channel's display name is read from; a source-linked
/// channel reports its name under the linked property.
pub fn channel_name_node(ch: WingChannelId, source_linked: bool) -> (r: Option<i32>)
    ensures
        source_linked ==> r == node_id_of(channel_path(ch.id_spec(), "$name"@)),
        !source_linked ==> r == node_id_of(channel_path(ch.id_spec(), "name"@)),
{
    if source_linked {
        channel_node_id(ch, "$name")
    } else {
        channel_node_id(ch, "name")
    }
}

/// The node address a channel's color is read from; a source-linked channel
/// reports its color under the linked property.
pub fn channel_color_node(ch: WingChannelId, source_linked: bool) -> (r: Option<i32>)
    ensures
        source_linked ==> r == node_id_of(channel_path(ch.id_spec(), "$col"@)),
        !source_linked ==> r == node_id_of(channel_path(ch.id_spec(), "col"@)),
{
    if source_linked {
        channel_node_id(ch, "$col")
    } else {
        channel_node_id(ch, "col")
    }
}

/// The node address a channel's source-link flag is read from.
pub fn channel_clink_node(ch: WingChannelId) -> (r: Option<i32>)
    ensures
        r == node_id_of(channel_path(ch.id_spec(), "clink"@)),
{
    channel_node_id(ch, "clink")
}

/// Decodes the device's source-link flag: any non-zero value means linked.
pub fn linked_from_device(value: i32) -> (r: bool)
    ensures
        r == (value != 0),
{
    value != 0
}

/// Decodes a device color integer read from a channel or DCA; values
/// outside the palette yield nothing.
pub fn color_from_device(value: i32) -> (r: Option<WingColor>)
    ensures
        (1 <= value <= 12) <==> r is Some,
        r matches Some(c) ==> color_code(c) == value,
{
    if 1 <= value && value <= 12 {
        WingColor::from_u8(value as u8)
    } else {
        None
    }
}

} // verus!
