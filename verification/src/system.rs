//! Process identity, protection, cgroup and power-source decisions.
use vstd::prelude::*;

use crate::text::{append, cat2, decimal, format_u64, to_chars};

pub mod apply;
pub mod cgroup;
pub mod desktop_index;
pub mod freeze;
pub mod power;
pub mod process;
pub mod protection;
pub mod throttle;

verus! {

/// A path with one more component.
pub open spec fn joined(dir: Seq<char>, name: Seq<char>) -> Seq<char> {
    if dir.len() == 0 || dir.last() == '/' {
        dir + name
    } else {
        dir.push('/') + name
    }
}

/// Appends a relative component to a path.
pub fn join_path(dir: &str, name: &str) -> (r: String)
    ensures
        r@ == joined(dir@, name@),
{
    let chars = to_chars(dir);
    let mut out = dir.to_owned();
    if chars.len() > 0 && chars[chars.len() - 1] != '/' {
        out.push('/');
    }
    append(&mut out, name);
    out
}

/// What `char::is_alphanumeric` returns: whether a character is a letter or a
/// number by Unicode.
pub uninterp spec fn alphanumeric(c: char) -> bool;

/// Whether a character is a digit or a letter of ASCII.
pub open spec fn ascii_alphanumeric(c: char) -> bool {
    ('0' <= c && c <= '9') || ('a' <= c && c <= 'z') || ('A' <= c && c <= 'Z')
}

/// `char::is_alphanumeric`. Of ASCII, exactly the digits and the letters are
/// alphanumeric; of other characters the result is named.
#[verifier::external_body]
fn is_alphanumeric(c: char) -> (r: bool)
    ensures
        r == alphanumeric(c),
        c <= '\u{7f}' ==> r == ascii_alphanumeric(c),
{
    c.is_alphanumeric()
}

/// Whether a character may stand in a unit name.
pub open spec fn unit_char(c: char) -> bool {
    alphanumeric(c) || c == '-' || c == '_'
}

/// A text as a component of a systemd unit name: what may not stand in one is
/// replaced by a dash.
pub open spec fn unit_name(name: Seq<char>) -> Seq<char> {
    name.map_values(
        |c: char|
            if unit_char(c) {
                c
            } else {
                '-'
            },
    )
}

/// A character of a unit name: itself where it is alphanumeric or one of `-`
/// and `_`, else a dash.
pub fn unit_name_char(c: char, is_alnum: bool) -> (r: char)
    ensures
        r == (if is_alnum || c == '-' || c == '_' {
            c
        } else {
            '-'
        }),
{
    if is_alnum || c == '-' || c == '_' {
        c
    } else {
        '-'
    }
}

/// Sanitize a string to be a valid systemd unit name component.
pub fn sanitize_unit_name(name: &str) -> (r: String)
    ensures
        r@ == unit_name(name@),
        forall|i: int|
            0 <= i < name@.len() && #[trigger] name@[i] <= '\u{7f}' ==> alphanumeric(name@[i])
                == ascii_alphanumeric(name@[i]),
{
    let mut out = String::new();
    for c in it: name.chars()
        invariant
            it.seq() == name@,
            forall|i: int|
                0 <= i < it.index() && #[trigger] name@[i] <= '\u{7f}' ==> alphanumeric(name@[i])
                    == ascii_alphanumeric(name@[i]),
            out@ == unit_name(name@.take(it.index() as int)),
    {
        out.push(unit_name_char(c, is_alphanumeric(c)));
        proof {
            assert(name@.take(it.index() as int + 1) =~= name@.take(it.index() as int).push(c));
            assert(out@ =~= unit_name(name@.take(it.index() as int + 1)));
        }
    }
    proof {
        assert(name@.take(name@.len() as int) =~= name@);
    }
    out
}

/// The runtime directory of a user.
pub open spec fn runtime_dir_of(xdg_runtime_dir: Option<Seq<char>>, uid: u32) -> Seq<char> {
    match xdg_runtime_dir {
        Some(dir) => dir,
        None => "/run/user/"@ + decimal(uid as nat),
    }
}

/// The runtime directory, from the environment variable `XDG_RUNTIME_DIR` or,
/// where it is not set, by convention.
pub fn runtime_dir(xdg_runtime_dir: Option<&str>, uid: u32) -> (r: String)
    ensures
        r@ == runtime_dir_of(
            match xdg_runtime_dir {
                Some(s) => Some(s@),
                None => None,
            },
            uid,
        ),
{
    match xdg_runtime_dir {
        Some(dir) => dir.to_owned(),
        None => {
            let n = format_u64(uid as u64);
            cat2("/run/user/", &n)
        },
    }
}

/// A joined path is the directory and the name, with one slash between them: none is
/// put where the directory ends in one, or is empty.
pub proof fn joined_path_holds_both(dir: Seq<char>, name: Seq<char>)
    ensures
        dir.is_prefix_of(joined(dir, name)),
        name.is_suffix_of(joined(dir, name)),
        dir.len() > 0 && dir.last() != '/' ==> joined(dir, name) == dir + seq!['/'] + name,
        dir.len() > 0 && dir.last() == '/' ==> joined(dir, name) == dir + name,
        dir.len() == 0 ==> joined(dir, name) == name,
{
    assert(dir.push('/') =~= dir + seq!['/']);
    if dir.len() == 0 {
        assert(dir + name =~= name);
    }
    let r = joined(dir, name);
    assert(r.skip(r.len() - name.len()) =~= name);
}

/// A unit name is as long as the text, keeps what may stand in one in its place, and
/// holds nothing else: neither a slash nor a dot survives.
pub proof fn unit_name_is_safe(name: Seq<char>, i: int)
    requires
        0 <= i < name.len(),
    ensures
        unit_name(name).len() == name.len(),
        alphanumeric(name[i]) || name[i] == '-' || name[i] == '_' ==> unit_name(name)[i] == name[i],
        !(alphanumeric(name[i]) || name[i] == '-' || name[i] == '_') ==> unit_name(name)[i] == '-',
{
}

/// The runtime directory is the one that the session names; without one it is the
/// user's own below `/run/user`, another for each user.
pub proof fn runtime_dir_is_the_users(dir: Option<Seq<char>>, uid: u32, other: u32)
    ensures
        dir matches Some(d) ==> runtime_dir_of(dir, uid) == d,
        runtime_dir_of(None, uid) == "/run/user/"@ + decimal(uid as nat),
        uid != other ==> runtime_dir_of(None, uid) != runtime_dir_of(None, other),
{
    crate::text::decimal_round_trip(uid as nat);
    crate::text::decimal_round_trip(other as nat);
    let prefix = "/run/user/"@;
    assert(runtime_dir_of(None, uid).skip(prefix.len() as int) =~= decimal(uid as nat));
    assert(runtime_dir_of(None, other).skip(prefix.len() as int) =~= decimal(other as nat));
}

} // verus!
