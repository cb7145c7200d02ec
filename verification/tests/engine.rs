use musicalix::clamped::{ClampedValue, HALF_UNIT, UNIT};
use musicalix::cue::dca::{DcaAssignment, SingleDcaAssignment};
use musicalix::cue::position::PositionAssignment;
use musicalix::mix::actor::ActorId;
use musicalix::mix::config::MixConfig;
use musicalix::mix::position::Position;
use musicalix::wing::action::WingAction;
use musicalix::wing::channel::WingChannelId;
use musicalix::wing::color::WingColor;
use musicalix::wing::id::WingId;

fn channel(n: u8) -> WingChannelId {
    WingChannelId::new(n).unwrap()
}

fn has_mute(plan: &Vec<WingAction>, ch: WingChannelId) -> bool {
    plan.iter().any(|a| matches!(a, WingAction::Mute(c) if *c == ch))
}

fn has_unmute(plan: &Vec<WingAction>, ch: WingChannelId) -> bool {
    plan.iter().any(|a| matches!(a, WingAction::Unmute(c) if *c == ch))
}

fn last_membership(plan: &Vec<WingAction>, ch: WingChannelId) -> Option<Vec<u8>> {
    let mut found = None;
    for a in plan.iter() {
        if let WingAction::SetDcas(c, ids) = a {
            if *c == ch {
                found = Some(ids.iter().map(|d| d.to_u8()).collect());
            }
        }
    }
    found
}

fn bus_name(plan: &Vec<WingAction>, bus: u8) -> Option<String> {
    let mut found = None;
    for a in plan.iter() {
        if let WingAction::SetDcaName(d, name) = a {
            if d.to_u8() == bus {
                found = Some(name.clone());
            }
        }
    }
    found
}

fn bus_color(plan: &Vec<WingAction>, bus: u8) -> Option<WingColor> {
    let mut found = None;
    for a in plan.iter() {
        if let WingAction::SetDcaColor(d, c) = a {
            if d.to_u8() == bus {
                found = Some(*c);
            }
        }
    }
    found
}

#[test]
fn single_actor_slot_silences_the_dropped_channel_and_claims_its_own() {
    let mut config = MixConfig::new();
    let (alice, _) = config.add_actor(channel(7), "Alice".to_string(), None);
    let (_bob, _) = config.add_actor(channel(12), "Bob".to_string(), Some(WingColor::Green));

    let mut dca = DcaAssignment::new();
    dca.set_slot(0, SingleDcaAssignment::Actor(alice));
    let plan = dca.apply(&config);

    // channel 12 is controlled but unclaimed: muted with membership cleared
    assert!(has_mute(&plan, channel(12)));
    assert!(!has_unmute(&plan, channel(12)));
    assert_eq!(last_membership(&plan, channel(12)), Some(vec![]));

    // channel 7 is claimed by slot 0: unmuted on hardware bus 1
    assert!(has_unmute(&plan, channel(7)));
    assert!(!has_mute(&plan, channel(7)));
    assert_eq!(last_membership(&plan, channel(7)), Some(vec![1]));

    // bus 1 carries the actor's name; no color chosen falls back to red
    assert_eq!(bus_name(&plan, 1), Some("Alice".to_string()));
    assert_eq!(bus_color(&plan, 1), Some(WingColor::Red));

    // an empty slot still gets its default label
    assert_eq!(bus_name(&plan, 2), Some("".to_string()));
    assert_eq!(bus_color(&plan, 2), Some(WingColor::Red));
}

#[test]
fn group_slot_claims_every_member_channel_with_the_group_label() {
    let mut config = MixConfig::new();
    let (a1, _) = config.add_actor(channel(3), "One".to_string(), None);
    let (a2, _) = config.add_actor(channel(4), "Two".to_string(), None);
    let (band, _) = config.add_group(
        vec![a1, a2],
        "Band".to_string(),
        Some(WingColor::Turquoise),
    );

    let mut dca = DcaAssignment::new();
    dca.set_slot(2, SingleDcaAssignment::Group(band));
    let plan = dca.apply(&config);

    // both member channels land on hardware bus 3 (slot index 2), unmuted
    assert_eq!(last_membership(&plan, channel(3)), Some(vec![3]));
    assert_eq!(last_membership(&plan, channel(4)), Some(vec![3]));
    assert!(has_unmute(&plan, channel(3)));
    assert!(has_unmute(&plan, channel(4)));

    // the bus carries the group's name and color
    assert_eq!(bus_name(&plan, 3), Some("Band".to_string()));
    assert_eq!(bus_color(&plan, 3), Some(WingColor::Turquoise));
}

#[test]
fn shared_channel_goes_to_the_later_slot() {
    let mut config = MixConfig::new();
    let (alice, _) = config.add_actor(channel(9), "Alice".to_string(), None);

    let mut dca = DcaAssignment::new();
    dca.set_slot(0, SingleDcaAssignment::Actor(alice));
    dca.set_slot(5, SingleDcaAssignment::Actor(alice));
    let plan = dca.apply(&config);

    // the membership write of the later slot (bus 6) comes last
    assert_eq!(last_membership(&plan, channel(9)), Some(vec![6]));
}

#[test]
fn unresolvable_slot_references_control_nothing() {
    let mut config = MixConfig::new();
    let (_alice, _) = config.add_actor(channel(2), "Alice".to_string(), None);

    let mut dca = DcaAssignment::new();
    dca.set_slot(0, SingleDcaAssignment::Actor(ActorId(77)));
    let plan = dca.apply(&config);

    // the dangling slot claims nothing, so the controlled channel is silenced
    assert!(has_mute(&plan, channel(2)));
    assert_eq!(last_membership(&plan, channel(2)), Some(vec![]));
    // the slot's bus still gets its default label
    assert_eq!(bus_name(&plan, 1), Some("".to_string()));
    assert_eq!(bus_color(&plan, 1), Some(WingColor::Red));
}

#[test]
fn absent_actor_resolves_to_center_pan() {
    let config = MixConfig::new();
    let pa = PositionAssignment::new();
    let pan = pa.resolve_pan(&config, ActorId(0));
    assert_eq!(pan.value(), HALF_UNIT);
}

#[test]
fn present_mapping_yields_the_value_clamped_at_construction() {
    let mut config = MixConfig::new();
    // the raw value lay outside the unit range and was clamped when the
    // position was made, not when it is read back
    let pid = config.insert_position(Position::new(ClampedValue::new(1_500_000)));
    let (actor, _) = config.add_actor(channel(1), "A".to_string(), None);

    let mut pa = PositionAssignment::new();
    assert!(pa.assign(actor, pid));
    assert_eq!(pa.resolve_pan(&config, actor).value(), UNIT);
    assert_eq!(pa.position_for(actor), Some(pid));
}

#[test]
fn dangling_position_handles_fall_back_to_center() {
    let mut config = MixConfig::new();
    let (actor, _) = config.add_actor(channel(1), "A".to_string(), None);
    let mut pa = PositionAssignment::new();
    assert!(pa.assign(actor, musicalix::mix::position::PositionId(9)));
    assert_eq!(pa.resolve_pan(&config, actor).value(), HALF_UNIT);
}

#[test]
fn position_plan_writes_one_pan_per_actor() {
    let mut config = MixConfig::new();
    let (a1, _) = config.add_actor(channel(1), "A".to_string(), None);
    let (_a2, _) = config.add_actor(channel(2), "B".to_string(), None);
    let pid = config.insert_position(Position::new(ClampedValue::new(250_000)));

    let mut pa = PositionAssignment::new();
    assert!(pa.assign(a1, pid));
    let plan = pa.apply(&config);
    assert_eq!(plan.len(), 2);
    match &plan[0] {
        WingAction::SetPan(ch, pan) => {
            assert_eq!(*ch, channel(1));
            assert_eq!(pan.value(), 250_000);
        }
        _ => panic!("expected a pan write"),
    }
    match &plan[1] {
        WingAction::SetPan(ch, pan) => {
            assert_eq!(*ch, channel(2));
            assert_eq!(pan.value(), HALF_UNIT);
        }
        _ => panic!("expected a pan write"),
    }
}
