use musicalix::wing::channel::WingChannelId;
use musicalix::wing::color::WingColor;
use musicalix::wing::dca::WingDcaId;
use musicalix::wing::error::WingError;
use musicalix::wing::id::WingId;

fn expect_bounds(err: WingError, bad: u32, lo: u32, hi: u32) {
    match err {
        WingError::IdOutOfBounds { id, min, max } => {
            assert_eq!(id, bad);
            assert_eq!(min, lo);
            assert_eq!(max, hi);
        }
        _ => panic!("expected an out-of-bounds error"),
    }
}

#[test]
fn channel_ids_inside_range_succeed() {
    for raw in 1u8..=48 {
        let id = WingChannelId::new(raw).unwrap();
        assert_eq!(id.value(), raw);
    }
}

#[test]
fn channel_ids_outside_range_report_exact_bounds() {
    expect_bounds(WingChannelId::new(0).unwrap_err(), 0, 1, 48);
    expect_bounds(WingChannelId::new(49).unwrap_err(), 49, 1, 48);
    expect_bounds(WingChannelId::new(255).unwrap_err(), 255, 1, 48);
}

#[test]
fn dca_ids_inside_range_succeed() {
    for raw in 1u8..=16 {
        let id = WingDcaId::new(raw).unwrap();
        assert_eq!(id.value(), raw);
        assert_eq!(id.to_u8(), raw);
    }
}

#[test]
fn dca_ids_outside_range_report_exact_bounds() {
    expect_bounds(WingDcaId::new(0).unwrap_err(), 0, 1, 16);
    expect_bounds(WingDcaId::new(17).unwrap_err(), 17, 1, 16);
}

#[test]
fn id_bounds_are_published() {
    assert_eq!(WingChannelId::min_id(), 1);
    assert_eq!(WingChannelId::max_id(), 48);
    assert_eq!(WingDcaId::min_id(), 1);
    assert_eq!(WingDcaId::max_id(), 16);
}

#[test]
fn out_of_bounds_errors_render_their_message() {
    let err = WingChannelId::new(49).unwrap_err();
    assert_eq!(
        err.message(),
        "Wing ID 49 is out of bounds. Allowed values from 1 to 48"
    );
    let err = WingDcaId::new(0).unwrap_err();
    assert_eq!(
        err.message(),
        "Wing ID 0 is out of bounds. Allowed values from 1 to 16"
    );
    assert_eq!(
        WingError::NodeDataRequestTimeout(37).message(),
        "Node data request timed out for node ID 37"
    );
}

#[test]
fn colors_round_trip_through_device_codes() {
    for code in 1u8..=12 {
        let color = WingColor::from_u8(code).unwrap();
        assert_eq!(color.to_u8(), code);
    }
    assert!(WingColor::from_u8(0).is_none());
    assert!(WingColor::from_u8(13).is_none());
    assert_eq!(WingColor::Red.to_u8(), 9);
    assert_eq!(WingColor::GrayBlue.to_u8(), 1);
    assert_eq!(WingColor::Mauve.to_u8(), 12);
}
