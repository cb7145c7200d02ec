use musicalix::cue::CueId;
use musicalix::mix::actor::{Actor, ActorId};
use musicalix::mix::error::MixError;
use musicalix::mix::group::GroupId;
use musicalix::mix::position::PositionId;
use musicalix::mix::config::MixConfig;
use musicalix::show::{add_cue, goto_cue, Show, ShowState};
use musicalix::wing::action::WingAction;
use musicalix::wing::channel::{WingChannelId, WingChannelInfo};
use musicalix::wing::color::WingColor;
use musicalix::wing::id::WingId;

#[test]
fn missing_cue_fails_without_touching_the_state() {
    let mut show = Show::new();
    let (_idx, id) = add_cue(&mut show);
    let mut state = ShowState::new();

    let missing = CueId::new(9, 9);
    assert!(goto_cue(&mut state, &show, missing).is_none());
    assert!(state.current_cue_id.is_none());

    assert!(goto_cue(&mut state, &show, id).is_some());
    assert_eq!(state.current_cue_id, Some(id));

    // a later failed activation keeps the previously active cue
    assert!(goto_cue(&mut state, &show, missing).is_none());
    assert_eq!(state.current_cue_id, Some(id));
}

#[test]
fn activation_plans_dca_writes_then_pan_writes() {
    let mut show = Show::new();
    let ch = WingChannelId::new(5).unwrap();
    let (_actor, _) = show.mix_config.add_actor(ch, "A".to_string(), None);
    let (_idx, id) = add_cue(&mut show);

    let mut state = ShowState::new();
    let plan = goto_cue(&mut state, &show, id).unwrap();

    // the empty cue silences the controlled channel, labels all sixteen
    // buses, and ends with one pan write for the actor
    assert!(plan
        .iter()
        .any(|a| matches!(a, WingAction::Mute(c) if *c == ch)));
    let labels = plan
        .iter()
        .filter(|a| matches!(a, WingAction::SetDcaName(_, _)))
        .count();
    assert_eq!(labels, 16);
    match plan.last().unwrap() {
        WingAction::SetPan(c, pan) => {
            assert_eq!(*c, ch);
            assert_eq!(pan.value(), 500_000);
        }
        _ => panic!("expected the plan to end on a pan write"),
    }
}

#[test]
fn show_state_reset_clears_the_active_cue() {
    let mut state = ShowState::new();
    state.update_current_cue(Some(CueId::new(1, 0)));
    assert!(state.current_cue_id.is_some());
    state.reset();
    assert!(state.current_cue_id.is_none());
}

#[test]
fn registry_handles_grow_from_zero_and_report_misses() {
    let mut config = MixConfig::new();
    let ch = WingChannelId::new(1).unwrap();
    let (a0, actor0) = config.add_actor(ch, "First".to_string(), None);
    let (a1, _) = config.add_actor(ch, "Second".to_string(), None);
    assert_eq!(a0, ActorId(0));
    assert_eq!(a1, ActorId(1));
    assert_eq!(actor0.name(), "First");
    assert_eq!(config.actor(a0).unwrap().name(), "First");

    match config.actor(ActorId(9)) {
        Err(MixError::ActorNotFound(id)) => assert_eq!(id, ActorId(9)),
        _ => panic!("expected a missing-actor error"),
    }
    match config.group(GroupId(0)) {
        Err(MixError::GroupNotFound(id)) => assert_eq!(id, GroupId(0)),
        _ => panic!("expected a missing-group error"),
    }
    match config.position(PositionId(0)) {
        Err(MixError::PositionNotFound(id)) => assert_eq!(id, PositionId(0)),
        _ => panic!("expected a missing-position error"),
    }

    let controlled = config.controlled_channels();
    assert_eq!(controlled, vec![ch, ch]);
}

#[test]
fn mix_errors_render_their_messages() {
    assert_eq!(
        MixError::ActorNotFound(ActorId(9)).message(),
        "Actor not found: 9"
    );
    assert_eq!(
        MixError::GroupNotFound(GroupId(2)).message(),
        "Group not found: 2"
    );
    assert_eq!(
        MixError::PositionNotFound(PositionId(0)).message(),
        "Position not found: 0"
    );
}

#[test]
fn actors_imported_from_channel_info_keep_its_fields() {
    let ch = WingChannelId::new(6).unwrap();
    let info = WingChannelInfo {
        name: "Sax".to_string(),
        color: WingColor::Yellow,
    };
    let actor = Actor::from_channel_info(ch, info);
    assert_eq!(actor.name(), "Sax");
    assert_eq!(actor.channel().value(), 6);
    assert_eq!(actor.color(), Some(WingColor::Yellow));
}

#[test]
fn groups_collapse_duplicate_members() {
    let mut config = MixConfig::new();
    let ch = WingChannelId::new(1).unwrap();
    let (a0, _) = config.add_actor(ch, "A".to_string(), None);
    let (a1, _) = config.add_actor(ch, "B".to_string(), None);
    let (_gid, group) = config.add_group(vec![a1, a0, a1], "G".to_string(), None);
    assert_eq!(group.actors().clone(), vec![ActorId(0), ActorId(1)]);
    assert_eq!(group.name(), "G");
}
