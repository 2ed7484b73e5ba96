//! Which desktop file starts an executable.
use vstd::prelude::*;

use crate::assoc::Assoc;
use crate::system::process::{exec_in_lines, parse_exec_from_desktop};
use crate::system::{join_path, joined};
use crate::text::{eq_chars, from_chars, lines_of, split_char, split_on, texts, to_chars};

verus! {

/// The directories of a colon-separated list, each with its applications.
pub open spec fn listed_dirs(list: Seq<char>) -> Seq<Seq<char>> {
    split_on(list, |c: char| c == ':').map_values(|d: Seq<char>| joined(d, "applications"@))
}

/// The directories that hold desktop files, in the order in which they are read.
pub open spec fn dirs_of(
    data_dirs: Option<Seq<char>>,
    data_home: Option<Seq<char>>,
    home: Option<Seq<char>>,
) -> Seq<Seq<char>> {
    let shared = listed_dirs(
        match data_dirs {
            Some(d) => d,
            None => "/usr/local/share:/usr/share"@,
        },
    );
    match data_home {
        Some(d) => shared.push(joined(d, "applications"@)),
        None => match home {
            Some(h) => shared.push(joined(h, ".local/share/applications"@)),
            None => shared,
        },
    }
}

/// A text that may be absent.
pub open spec fn opt_view(s: Option<&str>) -> Option<Seq<char>> {
    match s {
        Some(t) => Some(t@),
        None => None,
    }
}

/// The texts of a list.
pub open spec fn strings(v: Seq<String>) -> Seq<Seq<char>> {
    v.map_values(|s: String| s@)
}

/// The directories that hold desktop files: those of `XDG_DATA_DIRS`, then that
/// of `XDG_DATA_HOME`, or, where that is not set, of the home directory.
pub fn application_dirs(data_dirs: Option<&str>, data_home: Option<&str>, home: Option<&str>) -> (r:
    Vec<String>)
    ensures
        strings(r@) == dirs_of(opt_view(data_dirs), opt_view(data_home), opt_view(home)),
{
    let list = match data_dirs {
        Some(d) => to_chars(d),
        None => to_chars("/usr/local/share:/usr/share"),
    };
    let ghost all = listed_dirs(list@);
    let parts = split_char(&list, ':');
    let mut out: Vec<String> = Vec::new();
    let mut i: usize = 0;
    while i < parts.len()
        invariant
            i <= parts@.len(),
            out@.len() == i,
            all.len() == parts@.len(),
            all == listed_dirs(list@),
            texts(parts@) == split_on(list@, |c: char| c == ':'),
            forall|j: int| 0 <= j < i ==> (#[trigger] out@[j])@ == all[j],
        decreases parts@.len() - i,
    {
        let dir = from_chars(&parts[i]);
        proof {
            assert(texts(parts@)[i as int] == parts@[i as int]@);
        }
        out.push(join_path(&dir, "applications"));
        i = i + 1;
    }
    let ghost shared = out@;
    proof {
        assert(strings(shared) =~= all);
    }
    if let Some(d) = data_home {
        out.push(join_path(d, "applications"));
        proof {
            assert(strings(out@) =~= all.push(joined(d@, "applications"@)));
        }
    } else if let Some(h) = home {
        out.push(join_path(h, ".local/share/applications"));
        proof {
            assert(strings(out@) =~= all.push(joined(h@, ".local/share/applications"@)));
        }
    }
    out
}

/// The place of the last dot of a name.
pub open spec fn last_dot(name: Seq<char>) -> Option<int>
    decreases name.len(),
{
    if name.len() == 0 {
        None
    } else if name.last() == '.' {
        Some(name.len() - 1)
    } else {
        last_dot(name.drop_last())
    }
}

/// Whether a file name has the extension `desktop`. A dot that starts the name
/// starts no extension.
pub open spec fn is_desktop_name(name: Seq<char>) -> bool {
    match last_dot(name) {
        Some(i) => i > 0 && name.skip(i + 1) == "desktop"@,
        None => false,
    }
}

/// Whether a file is a desktop file, by its name.
pub fn is_desktop_file(name: &str) -> (r: bool)
    ensures
        r == is_desktop_name(name@),
{
    let chars = to_chars(name);
    let mut n: usize = chars.len();
    proof {
        assert(chars@.take(chars@.len() as int) =~= chars@);
    }
    while n > 0
        invariant
            n <= chars@.len(),
            chars@ == name@,
            last_dot(chars@) == last_dot(chars@.take(n as int)),
        decreases n,
    {
        proof {
            assert(chars@.take(n as int).drop_last() =~= chars@.take(n - 1));
        }
        if chars[n - 1] == '.' {
            let suffix = to_chars("desktop");
            let rest = vstd::slice::slice_subrange(chars.as_slice(), n, chars.len());
            proof {
                assert(rest@ =~= name@.skip(n as int));
            }
            return n > 1 && eq_chars(rest, &suffix);
        }
        n = n - 1;
    }
    false
}

/// A desktop file: its name, and what it holds.
#[derive(Debug)]
pub struct DesktopFile {
    pub name: String,
    pub content: String,
}

/// The index after the files were read: for each executable, the desktop file
/// that was read last. Files with another extension, or that start nothing, do
/// not count.
pub open spec fn indexed(files: Seq<DesktopFile>) -> Map<Seq<char>, Seq<char>>
    decreases files.len(),
{
    if files.len() == 0 {
        Map::empty()
    } else {
        let before = indexed(files.drop_last());
        let f = files.last();
        match exec_in_lines(lines_of(f.content@), false) {
            Some(exe) => if is_desktop_name(f.name@) {
                before.insert(exe, f.name@)
            } else {
                before
            },
            None => before,
        }
    }
}

/// Build a map of executable name to desktop file, from the files in the order
/// in which they were read.
pub fn build_desktop_index(files: &Vec<DesktopFile>) -> (r: Assoc<String>)
    ensures
        r.wf(),
        r@.map_values(|s: String| s@) == indexed(files@),
{
    let mut index: Assoc<String> = Assoc::new();
    let mut i: usize = 0;
    proof {
        assert(index@.map_values(|s: String| s@) =~= indexed(files@.take(0)));
    }
    while i < files.len()
        invariant
            i <= files@.len(),
            index.wf(),
            index@.map_values(|s: String| s@) == indexed(files@.take(i as int)),
        decreases files@.len() - i,
    {
        let ghost before = index@.map_values(|s: String| s@);
        proof {
            assert(files@.take(i + 1).drop_last() =~= files@.take(i as int));
        }
        let f = &files[i];
        if is_desktop_file(&f.name) {
            if let Some(exe) = parse_exec_from_desktop(&f.content) {
                let ghost k = exe@;
                index.insert(exe, f.name.clone());
                proof {
                    assert(index@.map_values(|s: String| s@) =~= before.insert(k, f.name@));
                }
            }
        }
        i = i + 1;
    }
    proof {
        assert(files@.take(files@.len() as int) =~= files@);
    }
    index
}

/// The last dot of a name is a dot, and none follows it; a name has none exactly where
/// it holds no dot.
pub proof fn last_dot_is_the_last(name: Seq<char>)
    ensures
        match last_dot(name) {
            Some(i) => 0 <= i < name.len() && name[i] == '.' && forall|j: int|
                i < j < name.len() ==> #[trigger] name[j] != '.',
            None => !name.contains('.'),
        },
    decreases name.len(),
{
    if name.len() > 0 && name.last() != '.' {
        let rest = name.drop_last();
        last_dot_is_the_last(rest);
        match last_dot(rest) {
            Some(i) => {
                assert(name[i] == rest[i]);
                assert forall|j: int| i < j < name.len() implies #[trigger] name[j] != '.' by {
                    if j < rest.len() {
                        assert(rest[j] == name[j]);
                    }
                }
            },
            None => {
                if name.contains('.') {
                    let j = choose|j: int| 0 <= j < name.len() && name[j] == '.';
                    assert(rest[j] == '.');
                }
            },
        }
    }
}

/// A file is a desktop file exactly where its name is something, a dot and `desktop`.
pub proof fn desktop_files_are_told_by_extension(base: Seq<char>, ext: Seq<char>)
    requires
        !ext.contains('.'),
    ensures
        base.len() > 0 ==> (is_desktop_name(base.push('.') + ext) <==> ext == "desktop"@),
        base.len() == 0 ==> !is_desktop_name(base.push('.') + ext),
        !is_desktop_name(ext),
{
    let name = base.push('.') + ext;
    last_dot_is_the_last(name);
    last_dot_is_the_last(ext);
    let k = base.len() as int;
    assert(name[k] == '.');
    assert forall|j: int| k < j < name.len() implies #[trigger] name[j] != '.' by {
        assert(ext.contains(ext[j - k - 1]));
        assert(name[j] == ext[j - k - 1]);
    }
    match last_dot(name) {
        Some(i) => {
            if i < k {
                assert(name[k] != '.');
            }
            assert(i == k);
            assert(name.skip(k + 1) =~= ext);
        },
        None => {
            assert(name.contains(name[k]));
        },
    }
    if last_dot(ext) is Some {
        assert(ext.contains(ext[last_dot(ext)->0]));
    }
}

/// A desktop file that starts something is found under what it starts, in place of any
/// that was read before; any other file changes nothing.
pub proof fn last_desktop_file_counts(
    files: Seq<DesktopFile>,
    f: DesktopFile,
    exe: Seq<char>,
    other: Seq<char>,
)
    ensures
        ({
            let before = indexed(files);
            let after = indexed(files.push(f));
            let starts = exec_in_lines(lines_of(f.content@), false);
            &&& starts == Some(exe) && is_desktop_name(f.name@) ==> after.contains_key(exe)
                && after[exe] == f.name@
            &&& starts != Some(other) ==> (after.contains_key(other) <==> before.contains_key(
                other,
            )) && after[other] == before[other]
            &&& !is_desktop_name(f.name@) || starts is None ==> after == before
        }),
        indexed(Seq::empty()) == Map::<Seq<char>, Seq<char>>::empty(),
{
    assert(files.push(f).drop_last() =~= files);
}

/// Desktop files are read from the shared directories first, in their order, and from
/// the user's own last, so that these count.
pub proof fn the_users_own_files_are_read_last(
    data_dirs: Option<Seq<char>>,
    data_home: Option<Seq<char>>,
    home: Option<Seq<char>>,
    dir: Seq<char>,
)
    ensures
        data_home matches Some(d) ==> dirs_of(data_dirs, data_home, home).last() == joined(
            d,
            "applications"@,
        ),
        data_home is None ==> (home matches Some(h) ==> dirs_of(data_dirs, data_home, home).last()
            == joined(h, ".local/share/applications"@)),
        data_dirs matches Some(d) ==> listed_dirs(d).is_prefix_of(
            dirs_of(data_dirs, data_home, home),
        ),
        data_dirs is None ==> listed_dirs("/usr/local/share:/usr/share"@).is_prefix_of(
            dirs_of(data_dirs, data_home, home),
        ),
        data_home is None && home is None && data_dirs is Some ==> dirs_of(
            data_dirs,
            data_home,
            home,
        ) == listed_dirs(data_dirs->0),
        !dir.contains(':') ==> listed_dirs(dir) == seq![joined(dir, "applications"@)],
{
    let sep = |c: char| c == ':';
    if !dir.contains(':') {
        assert forall|i: int| 0 <= i < dir.len() implies !sep(#[trigger] dir[i]) by {
            assert(dir.contains(dir[i]));
        }
        crate::text::unsplit_text_is_one_piece(dir, sep);
        assert(listed_dirs(dir) =~= seq![joined(dir, "applications"@)]);
    }
}

/// A colon parts a list of directories.
pub proof fn a_colon_parts_the_directories(a: Seq<char>, b: Seq<char>)
    ensures
        listed_dirs(a.push(':') + b) == listed_dirs(a) + listed_dirs(b),
{
    let sep = |c: char| c == ':';
    crate::text::separator_parts_the_text(a, ':', b, sep);
    assert(listed_dirs(a.push(':') + b) =~= listed_dirs(a) + listed_dirs(b));
}

} // verus!
