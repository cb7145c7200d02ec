use musicalix::wing::channel::{split_commas, WingChannelTagList};
use musicalix::wing::dca::WingDcaId;
use musicalix::wing::id::WingId;

fn dca(n: u8) -> WingDcaId {
    WingDcaId::new(n).unwrap()
}

fn texts(list: WingChannelTagList) -> Vec<String> {
    list.tags()
}

#[test]
fn dca_tags_use_the_hash_d_convention() {
    assert_eq!(WingChannelTagList::dca_tag(dca(1)), "#D1");
    assert_eq!(WingChannelTagList::dca_tag(dca(5)), "#D5");
    assert_eq!(WingChannelTagList::dca_tag(dca(16)), "#D16");
}

#[test]
fn new_drops_duplicate_tags() {
    let list = WingChannelTagList::new(vec![
        "foo".to_string(),
        "#D3".to_string(),
        "foo".to_string(),
    ]);
    assert_eq!(texts(list), vec!["foo".to_string(), "#D3".to_string()]);
}

#[test]
fn add_and_remove_dca_edit_membership_tags() {
    let mut list = WingChannelTagList::new(vec!["foo".to_string()]);
    list.add_dca(dca(3));
    list.add_dca(dca(3));
    assert_eq!(texts(list), vec!["foo".to_string(), "#D3".to_string()]);

    let mut list = WingChannelTagList::new(vec!["foo".to_string(), "#D3".to_string()]);
    list.remove_dca(dca(3));
    assert_eq!(texts(list), vec!["foo".to_string()]);
}

#[test]
fn clear_dcas_drops_every_hash_d_tag_only() {
    let mut list = WingChannelTagList::new(vec![
        "x".to_string(),
        "#D9".to_string(),
        "#Dzz".to_string(),
        "y".to_string(),
    ]);
    list.clear_dcas();
    assert_eq!(texts(list), vec!["x".to_string(), "y".to_string()]);
}

#[test]
fn set_dcas_makes_membership_exactly_the_given_buses() {
    let mut list = WingChannelTagList::new(vec!["x".to_string(), "#D1".to_string()]);
    list.set_dcas(&vec![dca(2), dca(16)]);
    assert_eq!(
        texts(list),
        vec!["x".to_string(), "#D2".to_string(), "#D16".to_string()]
    );
}

#[test]
fn split_commas_yields_the_separated_pieces() {
    assert_eq!(
        split_commas("a,#D1,b"),
        vec!["a".to_string(), "#D1".to_string(), "b".to_string()]
    );
    assert_eq!(split_commas(""), vec!["".to_string()]);
    assert_eq!(
        split_commas("a,,b"),
        vec!["a".to_string(), "".to_string(), "b".to_string()]
    );
    assert_eq!(split_commas("solo"), vec!["solo".to_string()]);
}

#[test]
fn tag_round_trip_from_raw_text() {
    let list = WingChannelTagList::new(split_commas("left,#D4,right"));
    assert_eq!(
        texts(list),
        vec!["left".to_string(), "#D4".to_string(), "right".to_string()]
    );
}
