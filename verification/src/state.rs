use vstd::prelude::*;

use crate::flags::Flags;
use crate::recent::Recent;
use crate::recent::add_spec;

verus! {

/// A user-interface request that the screen state reacts to.
pub enum Message {
    OpenEditor(Option<String>),
    OpenHome,
    NewTab,
    Save,
    Quit,
}

/// The home screen.
pub struct Home {}

impl Home {
    pub fn new() -> Home {
        Home {}
    }
}

/// The editor screen: the file being edited, if any, and whether it holds
/// changes that were not saved yet.
pub struct Editor {
    pub path: Option<String>,
    pub unsaved_changes: bool,
}

impl Editor {
    /// A fresh editor on the given file (or on no file): nothing unsaved yet.
    pub fn new(path: Option<String>) -> (e: Editor)
        ensures
            e.path == path,
            !e.unsaved_changes,
    {
        Editor { path, unsaved_changes: false }
    }

    /// An editor may be closed exactly when it holds no unsaved changes.
    pub fn can_close(&self) -> (r: bool)
        ensures
            r == !self.unsaved_changes,
    {
        !self.unsaved_changes
    }
}

/// The screen the application currently shows.
pub enum State {
    Editor(Editor),
    Home(Home),
}

impl State {
    pub fn new() -> (s: State)
        ensures
            s is Home,
    {
        State::Home(Home::new())
    }

    /// Whether the current state may be overwritten by a new one: never for a
    /// new-tab request, and for an editor only when it can close.
    pub fn can_overwrite(&self, message: &Message) -> (r: bool)
        ensures
            r == (!(message is NewTab) && (self matches State::Editor(e)
                ==> !e.unsaved_changes)),
    {
        if matches!(message, Message::NewTab) {
            false
        } else {
            match self {
                State::Editor(e) => e.can_close(),
                State::Home(_) => true,
            }
        }
    }

    /// The state a message asks for, if any; opening a file also records it
    /// in the recent-files list. An open-home and a new-tab request both
    /// yield the home screen: whether the result replaces the current state
    /// is decided by `can_overwrite`.
    pub fn from_message(flags: &Flags, recent: &mut Recent, message: &Message) -> (r: Option<
        State,
    >)
        ensures
            match message {
                Message::OpenEditor(path) => {
                    &&& (r matches Some(s) && s matches State::Editor(e) && e.path == *path
                        && !e.unsaved_changes)
                    &&& (match path {
                        Some(p) => final(recent)@ == add_spec(
                            old(recent)@,
                            p@,
                            flags.spec_max_recents(),
                        ),
                        None => final(recent)@ == old(recent)@,
                    })
                },
                Message::OpenHome | Message::NewTab => r matches Some(s) && s is Home
                    && final(recent)@ == old(recent)@,
                _ => r is None && final(recent)@ == old(recent)@,
            },
    {
        match message {
            Message::OpenEditor(path) => Some(Self::editor(flags, recent, path)),
            Message::OpenHome | Message::NewTab => Some(Self::home()),
            _ => None,
        }
    }

    /// The home screen state.
    fn home() -> (s: State)
        ensures
            s is Home,
    {
        State::Home(Home::new())
    }

    /// An editor state on the given file; when there is a file, it is
    /// recorded in the recent-files list.
    fn editor(flags: &Flags, recent: &mut Recent, path: &Option<String>) -> (s: State)
        ensures
            s matches State::Editor(e) && e.path == *path && !e.unsaved_changes,
            match path {
                Some(p) => final(recent)@ == add_spec(old(recent)@, p@, flags.spec_max_recents()),
                None => final(recent)@ == old(recent)@,
            },
    {
        let copy = match path {
            Some(p) => {
                recent.add(flags, p.clone());
                Some(p.clone())
            },
            None => None,
        };
        State::Editor(Editor::new(copy))
    }
}

/// The given path with trailing separators and trailing `.` components
/// removed: standard path parsing skips both when it looks for the file
/// name.
pub open spec fn trimmed(s: Seq<char>) -> Seq<char>
    decreases s.len(),
{
    if s.len() == 0 {
        s
    } else if s.last() == '/' {
        trimmed(s.drop_last())
    } else if s.last() == '.' && (s.len() == 1 || s[s.len() - 2] == '/') {
        trimmed(s.drop_last())
    } else {
        s
    }
}

/// The suffix of the given path after its last separator.
pub open spec fn after_last_sep(s: Seq<char>) -> Seq<char>
    decreases s.len(),
{
    if s.len() == 0 || s.last() == '/' {
        Seq::empty()
    } else {
        after_last_sep(s.drop_last()).push(s.last())
    }
}

/// The file name of a path: the last component once trailing separators and
/// trailing `.` components are skipped. A path with no component left, and
/// one whose last component is `..`, have no file name.
pub open spec fn file_name_of(s: Seq<char>) -> Option<Seq<char>> {
    let rest = trimmed(s);
    let name = after_last_sep(rest);
    if rest.len() == 0 || name == seq!['.', '.'] {
        None
    } else {
        Some(name)
    }
}

/// The display name of a path: its file name, or a fixed placeholder for a
/// path that has none.
pub open spec fn format_path_spec(s: Seq<char>) -> Seq<char> {
    match file_name_of(s) {
        Some(name) => name,
        None => "Unnamed"@,
    }
}

proof fn lemma_after_last_sep_suffix(t: Seq<char>, k: int)
    requires
        0 <= k <= t.len(),
        forall|j: int| k <= j < t.len() ==> t[j] != '/',
        k == 0 || t[k - 1] == '/',
    ensures
        after_last_sep(t) == t.skip(k),
    decreases t.len(),
{
    if t.len() == k {
        assert(t.skip(k) =~= Seq::empty());
    } else {
        lemma_after_last_sep_suffix(t.drop_last(), k);
        assert(after_last_sep(t) == after_last_sep(t.drop_last()).push(t.last()));
        assert(t.drop_last().skip(k).push(t.last()) =~= t.skip(k));
    }
}

/// The name a path is shown under: its last component, or a placeholder when
/// it has none.
#[verifier::loop_isolation(false)]
pub fn format_path(path: &String) -> (r: String)
    ensures
        r@ == format_path_spec(path@),
{
    let s = path.as_str();
    let n = s.unicode_len();
    let mut end = n;
    proof {
        assert(s@.take(n as int) =~= s@);
    }
    while end > 0 && (s.get_char(end - 1) == '/' || (s.get_char(end - 1) == '.' && (end == 1
        || s.get_char(end - 2) == '/')))
        invariant
            end <= n,
            trimmed(s@) == trimmed(s@.take(end as int)),
        decreases end,
    {
        proof {
            assert(s@.take(end as int).drop_last() =~= s@.take(end - 1));
        }
        end -= 1;
    }
    proof {
        assert(trimmed(s@) == s@.take(end as int));
    }
    if end == 0 {
        return "Unnamed".to_owned();
    }
    let ghost t = s@.take(end as int);
    let mut start = end;
    while start > 0 && s.get_char(start - 1) != '/'
        invariant
            start <= end,
            forall|j: int| start <= j < end ==> t[j] != '/',
        decreases start,
    {
        start -= 1;
    }
    proof {
        lemma_after_last_sep_suffix(t, start as int);
        assert(after_last_sep(t) =~= s@.subrange(start as int, end as int));
    }
    let len = end - start;
    let is_dot_dot = len == 2 && s.get_char(start) == '.' && s.get_char(start + 1) == '.';
    if is_dot_dot {
        proof {
            assert(after_last_sep(t) =~= seq!['.', '.']);
        }
        return "Unnamed".to_owned();
    }
    proof {
        if after_last_sep(t) == seq!['.', '.'] {
            assert(s@.subrange(start as int, end as int).len() == 2);
            assert(s@.subrange(start as int, end as int)[0] == seq!['.', '.'][0]);
            assert(s@.subrange(start as int, end as int)[1] == seq!['.', '.'][1]);
            assert(s@[start as int] == '.');
            assert(s@[start + 1] == '.');
            assert(false);
        }
    }
    let name = s.substring_char(start, end);
    name.to_owned()
}

} // verus!
