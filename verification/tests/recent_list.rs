use editcfg::flags::Flags;
use editcfg::recent::Recent;

fn paths_of(recent: &Recent) -> Vec<String> {
    recent.get_inner().clone()
}

#[test]
fn add_dedups_repeated_path() {
    let flags = Flags::new(8);
    let mut recent = Recent::default();
    recent.add(&flags, String::from("/home/me/notes.txt"));
    recent.add(&flags, String::from("/home/me/notes.txt"));
    assert_eq!(paths_of(&recent), vec![String::from("/home/me/notes.txt")]);
}

#[test]
fn add_moves_existing_path_to_end() {
    let flags = Flags::new(8);
    let mut recent = Recent::default();
    recent.add(&flags, String::from("a"));
    recent.add(&flags, String::from("b"));
    recent.add(&flags, String::from("a"));
    assert_eq!(paths_of(&recent), vec![String::from("b"), String::from("a")]);
}

#[test]
fn eviction_drops_oldest_first() {
    let flags = Flags::new(2);
    let mut recent = Recent::default();
    recent.add(&flags, String::from("A"));
    recent.add(&flags, String::from("B"));
    recent.add(&flags, String::from("C"));
    assert_eq!(paths_of(&recent), vec![String::from("B"), String::from("C")]);
}

#[test]
fn bound_holds_over_any_add_sequence() {
    let flags = Flags::new(3);
    let mut recent = Recent::default();
    let adds = ["a", "b", "c", "b", "d", "e", "a", "e"];
    for p in adds.iter() {
        recent.add(&flags, String::from(*p));
        assert!(recent.get_inner().len() <= 3);
    }
    // the three most recently added distinct paths, in order of last add
    assert_eq!(
        paths_of(&recent),
        vec![String::from("d"), String::from("a"), String::from("e")]
    );
}

#[test]
fn zero_bound_leaves_list_empty() {
    let flags = Flags::new(0);
    let mut recent = Recent::default();
    recent.add(&flags, String::from("a"));
    recent.add(&flags, String::from("b"));
    assert!(recent.get_inner().is_empty());
}

#[test]
fn default_is_empty() {
    let recent = Recent::default();
    assert!(recent.get_inner().is_empty());
}

#[test]
fn into_paths_hands_the_list_over_for_display() {
    let flags = Flags::new(4);
    let mut recent = Recent::default();
    recent.add(&flags, String::from("old"));
    recent.add(&flags, String::from("new"));
    let mut shown = recent.into_paths();
    shown.reverse();
    assert_eq!(shown, vec![String::from("new"), String::from("old")]);
}
