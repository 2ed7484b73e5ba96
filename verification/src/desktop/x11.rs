//! X11: window properties and the events of the X server.
use vstd::prelude::*;

use crate::desktop::window::{bare_window, Desktop, WindowInfo, WindowModel};
use crate::desktop::{EventModel, FocusEvent};
use crate::text::{from_chars, opt_text, split_char, split_on, texts, to_chars};

verus! {

/// The order of the bytes in a word.
#[derive(Clone, Copy, Debug, PartialEq, Eq, Structural)]
pub enum ByteOrder {
    /// The lowest byte comes first.
    Little,
    /// The highest byte comes first.
    Big,
}

/// The value of four bytes, of which the first is the lowest.
pub open spec fn word_of(b0: u8, b1: u8, b2: u8, b3: u8) -> int {
    b0 + 0x100 * b1 + 0x1_0000 * b2 + 0x100_0000 * b3
}

/// The word that starts at a position.
pub open spec fn word_at(bytes: Seq<u8>, i: int, order: ByteOrder) -> u32 {
    match order {
        ByteOrder::Little => word_of(bytes[i], bytes[i + 1], bytes[i + 2], bytes[i + 3]) as u32,
        ByteOrder::Big => word_of(bytes[i + 3], bytes[i + 2], bytes[i + 1], bytes[i]) as u32,
    }
}

/// The words of a list of bytes. What is left over at the end is dropped.
pub open spec fn words_of(bytes: Seq<u8>, order: ByteOrder) -> Seq<u32> {
    Seq::new(bytes.len() / 4, |i: int| word_at(bytes, 4 * i, order))
}

/// The first word of a list of bytes.
pub open spec fn first_word_of(bytes: Seq<u8>, order: ByteOrder) -> Option<u32> {
    if bytes.len() >= 4 {
        Some(word_at(bytes, 0, order))
    } else {
        None
    }
}

fn word(b0: u8, b1: u8, b2: u8, b3: u8) -> (r: u32)
    ensures
        r == word_of(b0, b1, b2, b3),
{
    b0 as u32 + 0x100 * (b1 as u32) + 0x1_0000 * (b2 as u32) + 0x100_0000 * (b3 as u32)
}

fn read_word(bytes: &Vec<u8>, i: usize, order: ByteOrder) -> (r: u32)
    requires
        i + 3 < bytes@.len() <= usize::MAX,
    ensures
        r == word_at(bytes@, i as int, order),
{
    match order {
        ByteOrder::Little => word(bytes[i], bytes[i + 1], bytes[i + 2], bytes[i + 3]),
        ByteOrder::Big => word(bytes[i + 3], bytes[i + 2], bytes[i + 1], bytes[i]),
    }
}

/// Reads a property that is a list of words.
pub fn parse_u32_slice(bytes: &Vec<u8>, order: ByteOrder) -> (r: Vec<u32>)
    ensures
        r@ == words_of(bytes@, order),
{
    let n: usize = bytes.len() / 4;
    let mut out: Vec<u32> = Vec::new();
    let mut i: usize = 0;
    while i < n
        invariant
            i <= n,
            n == bytes@.len() / 4,
            bytes@.len() <= usize::MAX,
            out@.len() == i,
            forall|j: int| 0 <= j < i ==> out@[j] == #[trigger] words_of(bytes@, order)[j],
        decreases n - i,
    {
        out.push(read_word(bytes, 4 * i, order));
        i = i + 1;
    }
    proof {
        assert(out@ =~= words_of(bytes@, order));
    }
    out
}

/// Reads a property that is one word.
pub fn first_word(bytes: &Vec<u8>, order: ByteOrder) -> (r: Option<u32>)
    ensures
        r == first_word_of(bytes@, order),
{
    if bytes.len() >= 4 {
        Some(read_word(bytes, 0, order))
    } else {
        None
    }
}

/// Whether a list holds a value.
pub fn holds_word(words: &Vec<u32>, value: u32) -> (r: bool)
    ensures
        r == words@.contains(value),
{
    let mut i: usize = 0;
    while i < words.len()
        invariant
            i <= words@.len(),
            forall|j: int| 0 <= j < i ==> words@[j] != value,
        decreases words@.len() - i,
    {
        if words[i] == value {
            return true;
        }
        i = i + 1;
    }
    false
}

/// The window that `_NET_ACTIVE_WINDOW` names: none where the property is unset,
/// zero or the root window.
pub open spec fn active_of(value: Seq<u8>, root: u32, order: ByteOrder) -> Option<u32> {
    match first_word_of(value, order) {
        Some(win) => if win == 0 || win == root {
            None
        } else {
            Some(win)
        },
        None => None,
    }
}

/// Reads `_NET_ACTIVE_WINDOW`.
pub fn get_active_window(value: &Vec<u8>, root: u32, order: ByteOrder) -> (r: Option<u32>)
    ensures
        r == active_of(value@, root, order),
{
    match first_word(value, order) {
        Some(win) => {
            if win == 0 || win == root {
                None
            } else {
                Some(win)
            }
        },
        None => None,
    }
}

/// The process that `_NET_WM_PID` names: none where the property is unset or
/// zero.
pub open spec fn pid_of(value: Seq<u8>, order: ByteOrder) -> Option<u32> {
    match first_word_of(value, order) {
        Some(pid) => if pid > 0 {
            Some(pid)
        } else {
            None
        },
        None => None,
    }
}

/// Reads `_NET_WM_PID`.
pub fn window_pid(value: &Vec<u8>, order: ByteOrder) -> (r: Option<u32>)
    ensures
        r == pid_of(value@, order),
{
    match first_word(value, order) {
        Some(pid) => {
            if pid > 0 {
                Some(pid)
            } else {
                None
            }
        },
        None => None,
    }
}

/// The class in `WM_CLASS`, which holds an instance and a class, each ended by
/// NUL.
pub open spec fn class_of(value: Seq<char>) -> Option<Seq<char>> {
    let parts = split_on(value, |c: char| c == '\0');
    if parts.len() >= 2 {
        Some(parts[1])
    } else {
        None
    }
}

/// Reads `WM_CLASS`.
pub fn window_class(value: &str) -> (r: Option<String>)
    ensures
        opt_text(r) == class_of(value@),
{
    let chars = to_chars(value);
    let parts = split_char(&chars, '\0');
    if parts.len() >= 2 {
        proof {
            assert(texts(parts@)[1] == parts@[1]@);
        }
        Some(from_chars(&parts[1]))
    } else {
        None
    }
}

/// The properties of a window. A property that is unset is empty.
#[derive(Debug)]
pub struct X11Properties {
    /// `_NET_WM_PID`.
    pub pid: Vec<u8>,
    /// `WM_CLASS`.
    pub class: String,
    /// `_NET_WM_NAME`.
    pub name: String,
    /// `_NET_WM_STATE`.
    pub state: Vec<u8>,
    /// `_NET_WM_DESKTOP`.
    pub desktop: Vec<u8>,
}

/// Where `_NET_WM_DESKTOP` places a window.
pub open spec fn desktop_of(value: Seq<u8>, order: ByteOrder) -> Option<Desktop> {
    match first_word_of(value, order) {
        Some(raw) => Some(
            if raw == u32::MAX {
                Desktop::All
            } else {
                Desktop::Index(raw)
            },
        ),
        None => None,
    }
}

/// What the properties say of a window, and what was read of its process.
pub open spec fn described(
    window_id: u32,
    props: X11Properties,
    exe: Option<Seq<char>>,
    cmdline: Option<Seq<char>>,
    fullscreen_atom: u32,
    order: ByteOrder,
) -> WindowModel {
    let pid = pid_of(props.pid@, order);
    WindowModel {
        pid,
        executable: if pid is Some {
            exe
        } else {
            None
        },
        cmdline: if pid is Some {
            cmdline
        } else {
            None
        },
        wm_class: class_of(props.class@),
        title: if props.name@.len() == 0 {
            None
        } else {
            Some(props.name@)
        },
        is_fullscreen: words_of(props.state@, order).contains(fullscreen_atom),
        desktop: desktop_of(props.desktop@, order),
        ..bare_window(window_id as u64)
    }
}

/// Describes a window by its properties. `exe` and `cmdline` are what was read
/// of the process that they name.
pub fn get_window_info(
    window_id: u32,
    props: &X11Properties,
    exe: Option<String>,
    cmdline: Option<String>,
    fullscreen_atom: u32,
    order: ByteOrder,
) -> (r: WindowInfo)
    ensures
        r@ == described(
            window_id,
            *props,
            opt_text(exe),
            opt_text(cmdline),
            fullscreen_atom,
            order,
        ),
{
    let mut info = WindowInfo::new(window_id as u64);
    if let Some(pid) = window_pid(&props.pid, order) {
        info.pid = Some(pid);
        info.executable = exe;
        info.cmdline = cmdline;
    }
    info.wm_class = window_class(&props.class);
    if !props.name.as_str().is_empty() {
        info.title = Some(props.name.clone());
    }
    info.is_fullscreen = check_fullscreen(&props.state, fullscreen_atom, order);
    info.desktop = match first_word(&props.desktop, order) {
        Some(raw) => Some(Desktop::from_raw(raw)),
        None => None,
    };
    info
}

/// Whether `_NET_WM_STATE` says that a window is fullscreen.
pub fn check_fullscreen(value: &Vec<u8>, fullscreen_atom: u32, order: ByteOrder) -> (r: bool)
    ensures
        r == words_of(value@, order).contains(fullscreen_atom),
{
    let atoms = parse_u32_slice(value, order);
    holds_word(&atoms, fullscreen_atom)
}

/// An event of the X server.
#[derive(Clone, Copy, Debug, PartialEq, Eq, Structural)]
pub enum X11Event {
    /// A property of the root window changed.
    PropertyChanged { atom: u32 },
    /// A window was destroyed.
    Destroyed { window: u32 },
    /// A client sent a message of a type about a window.
    ClientMessage { atom: u32, window: u32 },
    /// Anything else.
    Other,
}

/// What to do on an event.
#[derive(Debug)]
pub enum X11Action {
    /// Read the active window and report it.
    ReadActiveWindow,
    /// Read the current desktop and report it.
    ReadCurrentDesktop,
    /// Report an event.
    Report(FocusEvent),
    /// Nothing.
    Ignore,
}

/// Decides what to do on an event of the X server.
///
/// `active_window` and `current_desktop` are the atoms of `_NET_ACTIVE_WINDOW`
/// and `_NET_CURRENT_DESKTOP`. A message of the former type is a client's
/// request for focus.
pub fn react(event: X11Event, active_window: u32, current_desktop: u32) -> (r: X11Action)
    ensures
        match event {
            X11Event::PropertyChanged { atom } => if atom == active_window {
                r is ReadActiveWindow
            } else if atom == current_desktop {
                r is ReadCurrentDesktop
            } else {
                r is Ignore
            },
            X11Event::Destroyed { window } => r matches X11Action::Report(e) && e@
                == EventModel::WindowClosed(window as u64),
            X11Event::ClientMessage { atom, window } => if atom == active_window {
                r matches X11Action::Report(e) && e@ == EventModel::ActivationRequested(
                    window as u64,
                )
            } else {
                r is Ignore
            },
            X11Event::Other => r is Ignore,
        },
{
    match event {
        X11Event::PropertyChanged { atom } => {
            if atom == active_window {
                X11Action::ReadActiveWindow
            } else if atom == current_desktop {
                X11Action::ReadCurrentDesktop
            } else {
                X11Action::Ignore
            }
        },
        X11Event::Destroyed { window } => X11Action::Report(
            FocusEvent::WindowClosed { window_id: window as u64 },
        ),
        X11Event::ClientMessage { atom, window } => {
            if atom == active_window {
                X11Action::Report(FocusEvent::ActivationRequested { window_id: window as u64 })
            } else {
                X11Action::Ignore
            }
        },
        X11Event::Other => X11Action::Ignore,
    }
}

/// The event for a value of `_NET_CURRENT_DESKTOP`.
pub fn workspace_event(value: &Vec<u8>, order: ByteOrder) -> (r: Option<FocusEvent>)
    ensures
        match first_word_of(value@, order) {
            Some(desktop) => r matches Some(e) && e@ == EventModel::WorkspaceChanged(desktop),
            None => r is None,
        },
{
    match first_word(value, order) {
        Some(desktop) => Some(FocusEvent::WorkspaceChanged { desktop }),
        None => None,
    }
}

/// A word is read in the order of its bytes: the two orders read each other's bytes
/// reversed. What does not fill a word is dropped.
pub proof fn words_are_read_in_order(b0: u8, b1: u8, b2: u8, b3: u8, rest: Seq<u8>)
    ensures
        ({
            let v = b0 + 256 * b1 + 65536 * b2 + 16777216 * b3;
            &&& first_word_of(seq![b0, b1, b2, b3] + rest, ByteOrder::Little) == Some(v as u32)
            &&& first_word_of(seq![b3, b2, b1, b0] + rest, ByteOrder::Big) == Some(v as u32)
        }),
        rest.len() < 4 ==> first_word_of(rest, ByteOrder::Little) is None && first_word_of(
            rest,
            ByteOrder::Big,
        ) is None,
        words_of(seq![b0, b1, b2, b3] + rest, ByteOrder::Little) == seq![
            (b0 + 256 * b1 + 65536 * b2 + 16777216 * b3) as u32,
        ] + words_of(rest, ByteOrder::Little),
        words_of(seq![b3, b2, b1, b0] + rest, ByteOrder::Big) == seq![
            (b0 + 256 * b1 + 65536 * b2 + 16777216 * b3) as u32,
        ] + words_of(rest, ByteOrder::Big),
        rest.len() < 4 ==> words_of(rest, ByteOrder::Little).len() == 0,
{
    let little = seq![b0, b1, b2, b3] + rest;
    let big = seq![b3, b2, b1, b0] + rest;
    let v = (b0 + 256 * b1 + 65536 * b2 + 16777216 * b3) as u32;
    assert((4 + rest.len()) / 4 == 1 + rest.len() / 4);
    assert(little[0] == b0 && little[1] == b1 && little[2] == b2 && little[3] == b3);
    assert(big[0] == b3 && big[1] == b2 && big[2] == b1 && big[3] == b0);
    assert(words_of(little, ByteOrder::Little) =~= seq![v] + words_of(rest, ByteOrder::Little)) by {
        assert forall|i: int| 1 <= i < 1 + rest.len() / 4 implies #[trigger] words_of(
            little,
            ByteOrder::Little,
        )[i] == words_of(rest, ByteOrder::Little)[i - 1] by {
            let j = 4 * (i - 1);
            assert(little[4 * i] == rest[j] && little[4 * i + 1] == rest[j + 1] && little[4 * i + 2]
                == rest[j + 2] && little[4 * i + 3] == rest[j + 3]);
        }
    }
    assert(words_of(big, ByteOrder::Big) =~= seq![v] + words_of(rest, ByteOrder::Big)) by {
        assert forall|i: int| 1 <= i < 1 + rest.len() / 4 implies #[trigger] words_of(
            big,
            ByteOrder::Big,
        )[i] == words_of(rest, ByteOrder::Big)[i - 1] by {
            let j = 4 * (i - 1);
            assert(big[4 * i] == rest[j] && big[4 * i + 1] == rest[j + 1] && big[4 * i + 2]
                == rest[j + 2] && big[4 * i + 3] == rest[j + 3]);
        }
    }
}

/// The active window is the one that the property names, unless it names none or the
/// root window; a process is named unless it is zero; and the largest number places a
/// window on all workspaces.
pub proof fn properties_name_windows_and_processes(value: Seq<u8>, root: u32, order: ByteOrder)
    ensures
        first_word_of(value, order) is None ==> active_of(value, root, order) is None && pid_of(
            value,
            order,
        ) is None && desktop_of(value, order) is None,
        first_word_of(value, order) matches Some(w) ==> {
            &&& w == 0 || w == root ==> active_of(value, root, order) is None
            &&& w != 0 && w != root ==> active_of(value, root, order) == Some(w)
            &&& w == 0 ==> pid_of(value, order) is None
            &&& w != 0 ==> pid_of(value, order) == Some(w)
            &&& w == 0xffff_ffff ==> desktop_of(value, order) == Some(Desktop::All)
            &&& w != 0xffff_ffff ==> desktop_of(value, order) == Some(Desktop::Index(w))
        },
{
}

/// The class of a window is the second of its two names, behind the instance.
pub proof fn class_stands_behind_the_instance(instance: Seq<char>, class: Seq<char>)
    requires
        !instance.contains('\0'),
        !class.contains('\0'),
    ensures
        class_of(instance.push('\0') + class.push('\0')) == Some(class),
        class_of(instance.push('\0') + class) == Some(class),
        class_of(instance) is None,
{
    let sep = |c: char| c == '\0';
    assert forall|i: int| 0 <= i < instance.len() implies !sep(#[trigger] instance[i]) by {
        assert(instance.contains(instance[i]));
    }
    assert forall|i: int| 0 <= i < class.len() implies !sep(#[trigger] class[i]) by {
        assert(class.contains(class[i]));
    }
    crate::text::unsplit_text_is_one_piece(instance, sep);
    crate::text::unsplit_text_is_one_piece(class, sep);
    crate::text::separator_parts_the_text(instance, '\0', class.push('\0'), sep);
    crate::text::separator_parts_the_text(instance, '\0', class, sep);
    let blank = Seq::<char>::empty();
    crate::text::separator_parts_the_text(class, '\0', blank, sep);
    assert(class.push('\0') + blank =~= class.push('\0'));
}

/// A window is described by its properties, and by its process where it names one; a
/// title that is empty is none.
pub proof fn properties_describe_the_window(
    window_id: u32,
    props: X11Properties,
    exe: Option<Seq<char>>,
    cmdline: Option<Seq<char>>,
    fullscreen_atom: u32,
    order: ByteOrder,
)
    ensures
        ({
            let w = described(window_id, props, exe, cmdline, fullscreen_atom, order);
            &&& w.window_id == window_id
            &&& w.pid == pid_of(props.pid@, order)
            &&& w.pid is Some ==> w.executable == exe && w.cmdline == cmdline
            &&& w.pid is None ==> w.executable is None && w.cmdline is None
            &&& w.wm_class == class_of(props.class@)
            &&& w.app_id is None
            &&& props.name@.len() == 0 ==> w.title is None
            &&& props.name@.len() > 0 ==> w.title == Some(props.name@)
            &&& w.is_fullscreen <==> words_of(props.state@, order).contains(fullscreen_atom)
            &&& w.desktop == desktop_of(props.desktop@, order)
        }),
{
}

} // verus!
