use musicalix::clamped::ClampedValue;
use musicalix::wing::action::{
    channel_clink_node, channel_color_node, channel_name_node, channel_node_id, channel_tags_node,
    color_from_device, dca_color_write, dca_name_write, dca_node_id, linked_from_device,
    mute_write, pan_write, set_tags_write, unmute_write, WingValue,
};
use musicalix::wing::channel::{WingChannelId, WingChannelTagList};
use musicalix::wing::color::WingColor;
use musicalix::wing::dca::WingDcaId;
use musicalix::wing::id::WingId;

fn channel(n: u8) -> WingChannelId {
    WingChannelId::new(n).unwrap()
}

fn dca(n: u8) -> WingDcaId {
    WingDcaId::new(n).unwrap()
}

#[test]
fn path_resolution_agrees_with_the_protocol_table() {
    let ours = channel_node_id(channel(1), "mute");
    let theirs = libwing::WingConsole::name_to_id("/ch/1/mute");
    assert!(ours.is_some());
    assert_eq!(ours, theirs);

    let ours = dca_node_id(dca(2), "name");
    let theirs = libwing::WingConsole::name_to_id("/dca/2/name");
    assert!(ours.is_some());
    assert_eq!(ours, theirs);

    let ours = channel_node_id(channel(48), "pan");
    let theirs = libwing::WingConsole::name_to_id("/ch/48/pan");
    assert_eq!(ours, theirs);
}

#[test]
fn read_nodes_follow_the_source_link() {
    assert_eq!(
        channel_tags_node(channel(3)),
        libwing::WingConsole::name_to_id("/ch/3/tags")
    );
    assert_eq!(
        channel_name_node(channel(3), false),
        libwing::WingConsole::name_to_id("/ch/3/name")
    );
    assert_eq!(
        channel_name_node(channel(3), true),
        libwing::WingConsole::name_to_id("/ch/3/$name")
    );
    assert_eq!(
        channel_color_node(channel(3), false),
        libwing::WingConsole::name_to_id("/ch/3/col")
    );
    assert_eq!(
        channel_clink_node(channel(3)),
        libwing::WingConsole::name_to_id("/ch/3/clink")
    );
}

#[test]
fn mute_writes_carry_the_flag_values() {
    let w = mute_write(channel(1)).unwrap();
    assert!(matches!(w.value, WingValue::Int(1)));
    let w = unmute_write(channel(1)).unwrap();
    assert!(matches!(w.value, WingValue::Int(0)));
}

#[test]
fn pan_writes_carry_the_signed_percentage() {
    let w = pan_write(channel(1), &ClampedValue::new(1_000_000)).unwrap();
    assert!(matches!(w.value, WingValue::Int(100)));
    let w = pan_write(channel(1), &ClampedValue::new(0)).unwrap();
    assert!(matches!(w.value, WingValue::Int(-100)));
}

#[test]
fn tag_writes_join_the_list_with_commas() {
    let tags = WingChannelTagList::new(vec!["left".to_string(), "#D2".to_string()]);
    let w = set_tags_write(channel(1), tags).unwrap();
    match w.value {
        WingValue::Str(text) => assert_eq!(text, "left,#D2"),
        _ => panic!("expected a text write"),
    }
}

#[test]
fn dca_label_writes_carry_name_and_color_code() {
    let w = dca_name_write(dca(1), "Band").unwrap();
    match w.value {
        WingValue::Str(text) => assert_eq!(text, "Band"),
        _ => panic!("expected a text write"),
    }
    let w = dca_color_write(dca(1), WingColor::Green).unwrap();
    assert!(matches!(w.value, WingValue::Int(5)));
}

#[test]
fn device_reads_decode_to_plain_values() {
    assert!(linked_from_device(1));
    assert!(linked_from_device(-3));
    assert!(!linked_from_device(0));
    assert_eq!(color_from_device(5), Some(WingColor::Green));
    assert_eq!(color_from_device(0), None);
    assert_eq!(color_from_device(13), None);
}
