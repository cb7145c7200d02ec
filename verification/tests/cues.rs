use musicalix::cue::list::CueList;
use musicalix::cue::{Cue, CueId};
use musicalix::show::{add_cue, Show};

fn cue(major: u32, minor: u32, name: &str) -> Cue {
    Cue::new(CueId::new(major, minor), name.to_string())
}

fn ids(list: &CueList) -> Vec<(u32, u32)> {
    list.iter().iter().map(|c| (c.id.major, c.id.minor)).collect()
}

fn names(list: &CueList) -> Vec<String> {
    list.iter().iter().map(|c| c.name().to_string()).collect()
}

#[test]
fn next_increments_major_and_keeps_minor() {
    let id = CueId::new(3, 5).next();
    assert_eq!((id.major, id.minor), (4, 5));
}

#[test]
fn cue_ids_order_major_then_minor() {
    let a = CueId::new(1, 0);
    let b = CueId::new(1, 5);
    let c = CueId::new(2, 0);
    assert!(a.lt(&b));
    assert!(b.lt(&c));
    assert!(a.lt(&c));
    assert!(!b.lt(&a));
    assert!(!c.lt(&b));
    assert!(!a.lt(&a));
}

#[test]
fn cue_id_renders_major_dot_minor() {
    assert_eq!(CueId::new(3, 5).display_string(), "3.5");
    assert_eq!(CueId::new(10, 0).display_string(), "10.0");
}

#[test]
fn push_keeps_the_list_sorted_for_out_of_order_insertions() {
    let mut list = CueList::new();
    assert_eq!(list.push(cue(2, 0, "a")), 0);
    assert_eq!(list.push(cue(1, 0, "b")), 0);
    assert_eq!(list.push(cue(3, 0, "c")), 2);
    assert_eq!(ids(&list), vec![(1, 0), (2, 0), (3, 0)]);
}

#[test]
fn duplicate_ids_land_adjacent_in_insertion_order() {
    let mut list = CueList::new();
    list.push(cue(2, 0, "first"));
    list.push(cue(1, 0, "before"));
    list.push(cue(3, 0, "after"));
    assert_eq!(list.push(cue(2, 0, "second")), 2);
    assert_eq!(ids(&list), vec![(1, 0), (2, 0), (2, 0), (3, 0)]);
    assert_eq!(
        names(&list),
        vec![
            "before".to_string(),
            "first".to_string(),
            "second".to_string(),
            "after".to_string()
        ]
    );
}

#[test]
fn lookup_prefers_the_first_of_equal_ids() {
    let mut list = CueList::new();
    list.push(cue(2, 0, "first"));
    list.push(cue(2, 0, "second"));
    let found = list.get(&CueId::new(2, 0)).unwrap();
    assert_eq!(found.name(), "first");
    assert!(list.has(&CueId::new(2, 0)));
    assert!(!list.has(&CueId::new(4, 0)));
    assert!(list.get(&CueId::new(4, 0)).is_none());
}

#[test]
fn remove_takes_out_the_first_match_only() {
    let mut list = CueList::new();
    list.push(cue(1, 0, "x"));
    list.push(cue(2, 0, "first"));
    list.push(cue(2, 0, "second"));
    let removed = list.remove(&CueId::new(2, 0)).unwrap();
    assert_eq!(removed.name(), "first");
    assert_eq!(
        names(&list),
        vec!["x".to_string(), "second".to_string()]
    );
    assert!(list.remove(&CueId::new(9, 9)).is_none());
}

#[test]
fn replace_swaps_the_first_cue_with_the_same_id() {
    let mut list = CueList::new();
    list.push(cue(1, 0, "old"));
    assert!(list.replace(cue(1, 0, "new")));
    assert_eq!(names(&list), vec!["new".to_string()]);
    assert!(!list.replace(cue(7, 0, "nobody")));
    assert_eq!(names(&list), vec!["new".to_string()]);
}

#[test]
fn add_cue_numbers_and_names_new_cues() {
    let mut show = Show::new();
    let (idx, id) = add_cue(&mut show);
    assert_eq!(idx, 0);
    assert_eq!((id.major, id.minor), (1, 0));
    assert_eq!(show.cues.iter()[0].name(), "Cue 1.0");

    let (idx2, id2) = add_cue(&mut show);
    assert_eq!(idx2, 1);
    assert_eq!((id2.major, id2.minor), (2, 0));
    assert_eq!(show.cues.iter()[1].name(), "Cue 2.0");
}

#[test]
fn new_cues_start_inert_and_empty() {
    let c = cue(1, 2, "fresh");
    assert_eq!(c.fade_time_ms, 0);
    assert_eq!(c.snap.value(), 0);
    assert_eq!(c.name(), "fresh");
}
