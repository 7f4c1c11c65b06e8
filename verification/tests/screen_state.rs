use editcfg::flags::Flags;
use editcfg::recent::Recent;
use editcfg::state::{Editor, Home, Message, State, format_path};

#[test]
fn new_state_is_home() {
    assert!(matches!(State::new(), State::Home(_)));
}

#[test]
fn new_tab_never_overwrites() {
    let state = State::Home(Home::new());
    assert!(!state.can_overwrite(&Message::NewTab));
}

#[test]
fn home_is_overwritten_by_other_messages() {
    let state = State::Home(Home::new());
    assert!(state.can_overwrite(&Message::OpenHome));
    assert!(state.can_overwrite(&Message::OpenEditor(None)));
}

#[test]
fn editor_with_unsaved_changes_is_kept() {
    let mut editor = Editor::new(Some(String::from("/tmp/a.txt")));
    editor.unsaved_changes = true;
    let state = State::Editor(editor);
    assert!(!state.can_overwrite(&Message::OpenHome));
}

#[test]
fn clean_editor_is_overwritten() {
    let state = State::Editor(Editor::new(Some(String::from("/tmp/a.txt"))));
    assert!(state.can_overwrite(&Message::OpenHome));
}

#[test]
fn open_editor_records_the_file() {
    let flags = Flags::new(4);
    let mut recent = Recent::default();
    let message = Message::OpenEditor(Some(String::from("/tmp/a.txt")));
    let state = State::from_message(&flags, &mut recent, &message);
    match state {
        Some(State::Editor(e)) => {
            assert_eq!(e.path, Some(String::from("/tmp/a.txt")));
            assert!(!e.unsaved_changes);
        },
        _ => panic!("an open-editor message must yield an editor state"),
    }
    assert_eq!(recent.get_inner(), &vec![String::from("/tmp/a.txt")]);
}

#[test]
fn open_editor_without_file_records_nothing() {
    let flags = Flags::new(4);
    let mut recent = Recent::default();
    let state = State::from_message(&flags, &mut recent, &Message::OpenEditor(None));
    assert!(matches!(state, Some(State::Editor(_))));
    assert!(recent.get_inner().is_empty());
}

#[test]
fn other_messages_yield_no_state() {
    let flags = Flags::new(4);
    let mut recent = Recent::default();
    assert!(State::from_message(&flags, &mut recent, &Message::Save).is_none());
    assert!(State::from_message(&flags, &mut recent, &Message::Quit).is_none());
    assert!(matches!(
        State::from_message(&flags, &mut recent, &Message::NewTab),
        Some(State::Home(_))
    ));
}

#[test]
fn format_path_takes_the_file_name() {
    assert_eq!(format_path(&String::from("/tmp/x.txt")), "x.txt");
    assert_eq!(format_path(&String::from("x.txt")), "x.txt");
    assert_eq!(format_path(&String::from("a/b/c")), "c");
}

#[test]
fn format_path_ignores_trailing_separators() {
    assert_eq!(format_path(&String::from("/tmp/dir/")), "dir");
    assert_eq!(format_path(&String::from("a//")), "a");
}

#[test]
fn format_path_skips_trailing_dot_components() {
    assert_eq!(format_path(&String::from("foo.txt/.")), "foo.txt");
    assert_eq!(format_path(&String::from("a/./")), "a");
    assert_eq!(format_path(&String::from("a/././")), "a");
}

#[test]
fn format_path_keeps_dotted_names() {
    assert_eq!(format_path(&String::from(".hidden")), ".hidden");
    assert_eq!(format_path(&String::from("a.")), "a.");
    assert_eq!(format_path(&String::from("...")), "...");
}

#[test]
fn nameless_paths_fall_back_to_placeholder() {
    assert_eq!(format_path(&String::from("")), "Unnamed");
    assert_eq!(format_path(&String::from("/")), "Unnamed");
    assert_eq!(format_path(&String::from(".")), "Unnamed");
    assert_eq!(format_path(&String::from("./")), "Unnamed");
    assert_eq!(format_path(&String::from("..")), "Unnamed");
    assert_eq!(format_path(&String::from("a/..")), "Unnamed");
}
