//! Process identity and what `/proc` says about it.
//!
//! Everything here is a function of a [`ProcessTable`]: an observation of the
//! process table, taken by the caller at one moment.
use vstd::prelude::*;
use vstd::slice::slice_subrange;

use crate::text::{
    after_last, clone_opt, decimal, eq_chars, from_chars, lines_of, parse_bounded, parse_u32,
    parse_u64, split_after_last, split_char, split_lines, split_on, split_words, starts_with, texts,
    to_chars, trim, trimmed, words, contains_char,
};

verus! {

/// Stable identity of a running process: its PID together with the boot-relative
/// start time.
///
/// A bare PID is not an identity: the kernel recycles PIDs, so a PID captured at
/// freeze time may name an unrelated process by the time it is thawed.
#[derive(Clone, Copy, Debug, PartialEq, Eq, Hash, Structural)]
pub struct ProcessHandle {
    pub pid: u32,
    pub starttime: u64,
}

/// What was observed of one process.
#[derive(Debug)]
pub struct ProcessRecord {
    pub pid: u32,
    /// Start time, where the process exists and its record could be read.
    pub starttime: Option<u64>,
    /// Whether the process belongs to the current user.
    pub owned: bool,
    /// The kernel's short name of the process.
    pub comm: Option<String>,
    /// PIDs of its children.
    pub children: Vec<u32>,
}

/// An observation of the process table.
#[derive(Debug)]
pub struct ProcessTable {
    pub records: Vec<ProcessRecord>,
}

/// Position of the first record for `pid`.
pub open spec fn record_index(records: Seq<ProcessRecord>, pid: u32) -> Option<int>
    decreases records.len(),
{
    if records.len() == 0 {
        None
    } else {
        match record_index(records.drop_last(), pid) {
            Some(i) => Some(i),
            None => if records.last().pid == pid {
                Some(records.len() - 1)
            } else {
                None
            },
        }
    }
}

proof fn lemma_record_found(records: Seq<ProcessRecord>, pid: u32, k: int)
    requires
        0 <= k < records.len(),
        records[k].pid == pid,
        forall|j: int| 0 <= j < k ==> records[j].pid != pid,
    ensures
        record_index(records, pid) == Some(k),
    decreases records.len(),
{
    if k < records.len() - 1 {
        lemma_record_found(records.drop_last(), pid, k);
    } else {
        lemma_record_absent(records.drop_last(), pid);
    }
}

proof fn lemma_record_absent(records: Seq<ProcessRecord>, pid: u32)
    requires
        forall|j: int| 0 <= j < records.len() ==> records[j].pid != pid,
    ensures
        record_index(records, pid) is None,
    decreases records.len(),
{
    if records.len() > 0 {
        lemma_record_absent(records.drop_last(), pid);
    }
}

impl ProcessTable {
    /// The record of `pid`, where there is one.
    pub open spec fn record(&self, pid: u32) -> Option<ProcessRecord> {
        match record_index(self.records@, pid) {
            Some(i) => Some(self.records@[i]),
            None => None,
        }
    }

    /// The start time of the process that carries `pid` now.
    pub open spec fn starttime_of(&self, pid: u32) -> Option<u64> {
        match self.record(pid) {
            Some(r) => r.starttime,
            None => None,
        }
    }

    /// Whether the process that carries `pid` belongs to the current user.
    pub open spec fn owns(&self, pid: u32) -> bool {
        match self.record(pid) {
            Some(r) => r.owned,
            None => false,
        }
    }

    /// The kernel's short name for `pid`.
    pub open spec fn comm_of(&self, pid: u32) -> Option<Seq<char>> {
        match self.record(pid) {
            Some(r) => match r.comm {
                Some(c) => Some(c@),
                None => None,
            },
            None => None,
        }
    }

    /// The children of `pid`.
    pub open spec fn children_of(&self, pid: u32) -> Seq<u32> {
        match self.record(pid) {
            Some(r) => r.children@,
            None => Seq::empty(),
        }
    }

    /// Whether `handle` names a live process.
    pub open spec fn alive(&self, handle: ProcessHandle) -> bool {
        self.starttime_of(handle.pid) == Some(handle.starttime)
    }

    /// The identity of the process that carries `pid` now.
    pub open spec fn handle_of(&self, pid: u32) -> Option<ProcessHandle> {
        if pid == 0 {
            None
        } else {
            match self.starttime_of(pid) {
                Some(starttime) => Some(ProcessHandle { pid, starttime }),
                None => None,
            }
        }
    }

    /// A table in which nothing was observed.
    pub fn new() -> (r: Self)
        ensures
            r.records@.len() == 0,
    {
        ProcessTable { records: Vec::new() }
    }

    /// Looks up the record of `pid`.
    pub fn find(&self, pid: u32) -> (r: Option<&ProcessRecord>)
        ensures
            match r {
                Some(x) => self.record(pid) == Some(*x),
                None => self.record(pid) is None,
            },
    {
        let mut i: usize = 0;
        while i < self.records.len()
            invariant
                i <= self.records@.len(),
                forall|j: int| 0 <= j < i ==> self.records@[j].pid != pid,
            decreases self.records@.len() - i,
        {
            if self.records[i].pid == pid {
                proof {
                    lemma_record_found(self.records@, pid, i as int);
                }
                return Some(&self.records[i]);
            }
            i = i + 1;
        }
        proof {
            lemma_record_absent(self.records@, pid);
        }
        None
    }

    /// The start time of the process that carries `pid` now.
    pub fn starttime(&self, pid: u32) -> (r: Option<u64>)
        ensures
            r == self.starttime_of(pid),
    {
        match self.find(pid) {
            Some(x) => x.starttime,
            None => None,
        }
    }

    /// The kernel's short name for `pid`: a fallback identity for a process
    /// whose executable cannot be read.
    pub fn comm(&self, pid: u32) -> (r: Option<String>)
        ensures
            match r {
                Some(c) => self.comm_of(pid) == Some(c@),
                None => self.comm_of(pid) is None,
            },
    {
        match self.find(pid) {
            Some(x) => clone_opt(&x.comm),
            None => None,
        }
    }

    /// Whether the process that carries `pid` belongs to the current user.
    pub fn is_owned_pid(&self, pid: u32) -> (r: bool)
        ensures
            r == self.owns(pid),
    {
        match self.find(pid) {
            Some(x) => x.owned,
            None => false,
        }
    }
}

impl ProcessHandle {
    /// Captures the identity of a running process.
    ///
    /// `None` for PID 0, and for a process that does not exist or whose record
    /// could not be read.
    pub fn open(pid: u32, table: &ProcessTable) -> (r: Option<Self>)
        ensures
            r == table.handle_of(pid),
    {
        if pid == 0 {
            return None;
        }
        match table.starttime(pid) {
            Some(starttime) => Some(ProcessHandle { pid, starttime }),
            None => None,
        }
    }

    /// Whether the process this handle names is still the same live process.
    ///
    /// A recycled PID has another start time and is reported as dead: acting on
    /// it would target a stranger.
    pub fn is_alive(&self, table: &ProcessTable) -> (r: bool)
        ensures
            r == table.alive(*self),
    {
        match table.starttime(self.pid) {
            Some(starttime) => starttime == self.starttime,
            None => false,
        }
    }

    /// Whether the process is owned by the current user.
    ///
    /// Identity says which process this is, ownership says whether it may be
    /// signalled.
    pub fn is_owned(&self, table: &ProcessTable) -> (r: bool)
        ensures
            r == table.owns(self.pid),
    {
        table.is_owned_pid(self.pid)
    }
}

/// A recycled PID is never taken for the process it used to name.
pub proof fn recycled_pid_is_dead(table: ProcessTable, a: ProcessHandle, b: ProcessHandle)
    requires
        a.pid == b.pid,
        a.starttime != b.starttime,
    ensures
        !(table.alive(a) && table.alive(b)),
{
}

/// A freshly captured identity names a live process.
pub proof fn opened_handle_is_alive(table: ProcessTable, pid: u32)
    ensures
        match table.handle_of(pid) {
            Some(h) => h.pid == pid && pid != 0 && table.alive(h),
            None => true,
        },
{
}

// --- Parsing /proc ---

/// Field 22 of a `/proc/<pid>/stat` record: the twentieth word after the last
/// closing parenthesis, which ends the process name.
pub open spec fn starttime_field(stat: Seq<char>) -> Option<nat> {
    match after_last(stat, ')') {
        Some(tail) => if words(tail).len() > 19 {
            parse_bounded(words(tail)[19], u64::MAX as nat)
        } else {
            None
        },
        None => None,
    }
}

/// Reads the start time from the contents of a `/proc/<pid>/stat` record.
///
/// The name of the process may itself hold spaces and parentheses, so the record
/// is split at the last `)` and not tokenised from the start.
pub fn parse_starttime(stat: &str) -> (r: Option<u64>)
    ensures
        match r {
            Some(v) => starttime_field(stat@) == Some(v as nat),
            None => starttime_field(stat@) is None,
        },
{
    let chars = to_chars(stat);
    match split_after_last(&chars, ')') {
        Some(tail) => {
            let fields = split_words(tail);
            proof {
                assert(texts(fields@).len() == fields@.len());
            }
            if fields.len() > 19 {
                proof {
                    assert(texts(fields@)[19] == fields@[19]@);
                }
                parse_u64(&fields[19])
            } else {
                None
            }
        },
        None => None,
    }
}

/// The name in a `/proc/<pid>/comm` file, without surrounding white space;
/// `None` where nothing is left.
pub fn parse_comm(raw: &str) -> (r: Option<String>)
    ensures
        match r {
            Some(c) => c@ == trimmed(raw@) && c@.len() > 0,
            None => trimmed(raw@).len() == 0,
        },
{
    let chars = to_chars(raw);
    let name = trim(&chars);
    if name.len() == 0 {
        None
    } else {
        Some(from_chars(name))
    }
}

/// The child PIDs that a sequence of words names; words that are no PID are
/// passed over.
pub open spec fn pids_in(ws: Seq<Seq<char>>) -> Seq<u32>
    decreases ws.len(),
{
    if ws.len() == 0 {
        Seq::empty()
    } else {
        let before = pids_in(ws.drop_last());
        match parse_bounded(ws.last(), u32::MAX as nat) {
            Some(v) => before.push(v as u32),
            None => before,
        }
    }
}

/// Reads a `/proc/<pid>/task/<tid>/children` file.
pub fn parse_children(raw: &str) -> (r: Vec<u32>)
    ensures
        r@ == pids_in(words(raw@)),
{
    let chars = to_chars(raw);
    let ws = split_words(&chars);
    let mut out: Vec<u32> = Vec::new();
    let mut i: usize = 0;
    let ghost all = words(raw@);
    while i < ws.len()
        invariant
            i <= ws@.len(),
            texts(ws@) == all,
            out@ == pids_in(all.take(i as int)),
        decreases ws@.len() - i,
    {
        proof {
            assert(all.take(i + 1).drop_last() =~= all.take(i as int));
            assert(all.take(i + 1).last() == texts(ws@)[i as int]);
            assert(texts(ws@)[i as int] == ws@[i as int]@);
        }
        match parse_u32(&ws[i]) {
            Some(v) => {
                out.push(v);
            },
            None => {},
        }
        i = i + 1;
    }
    proof {
        assert(all.take(all.len() as int) =~= all);
    }
    out
}

/// One character of a command line, with the argument separator shown as a
/// space.
pub open spec fn cmdline_char(c: char) -> char {
    if c == '\0' {
        ' '
    } else {
        c
    }
}

/// Renders the contents of `/proc/<pid>/cmdline`, whose arguments end in NUL,
/// as one line.
pub fn cmdline_text(raw: &str) -> (r: String)
    ensures
        r@ == trimmed(raw@.map_values(|c: char| cmdline_char(c))),
{
    let chars = to_chars(raw);
    let mut spaced: Vec<char> = Vec::new();
    let mut i: usize = 0;
    while i < chars.len()
        invariant
            i <= chars@.len(),
            spaced@.len() == i,
            forall|j: int| 0 <= j < i ==> spaced@[j] == cmdline_char(chars@[j]),
        decreases chars@.len() - i,
    {
        let c = chars[i];
        spaced.push(
            if c == '\0' {
                ' '
            } else {
                c
            },
        );
        i = i + 1;
    }
    proof {
        assert(spaced@ =~= raw@.map_values(|c: char| cmdline_char(c)));
    }
    from_chars(trim(&spaced))
}

/// The last component of a path: neither empty nor `.`, and `None` where it is
/// `..` or there is no component.
pub open spec fn file_name(path: Seq<char>) -> Option<Seq<char>> {
    let parts = split_on(path, |c: char| c == '/').filter(
        |p: Seq<char>| p.len() > 0 && p != seq!['.'],
    );
    if parts.len() == 0 || parts.last() == seq!['.', '.'] {
        None
    } else {
        Some(parts.last())
    }
}

proof fn lemma_filter_last(
    parts: Seq<Seq<char>>,
    keep: spec_fn(Seq<char>) -> bool,
    k: int,
)
    requires
        0 <= k <= parts.len(),
        forall|j: int| k <= j < parts.len() ==> !keep(#[trigger] parts[j]),
        k > 0 ==> keep(parts[k - 1]),
    ensures
        k == 0 ==> parts.filter(keep).len() == 0,
        k > 0 ==> parts.filter(keep).len() > 0 && parts.filter(keep).last() == parts[k - 1],
    decreases parts.len(),
{
    reveal(Seq::filter);
    if parts.len() > k {
        assert forall|j: int| k <= j < parts.drop_last().len() implies !keep(
            #[trigger] parts.drop_last()[j],
        ) by {
            assert(parts.drop_last()[j] == parts[j]);
        }
        assert(!keep(parts[parts.len() - 1]));
        lemma_filter_last(parts.drop_last(), keep, k);
    }
}

/// The last component of a path.
pub fn path_file_name(path: &[char]) -> (r: Option<Vec<char>>)
    ensures
        match r {
            Some(n) => file_name(path@) == Some(n@),
            None => file_name(path@) is None,
        },
{
    let parts = split_char(path, '/');
    let ghost all = split_on(path@, |c: char| c == '/');
    let ghost keep = |p: Seq<char>| p.len() > 0 && p != seq!['.'];
    let mut i: usize = parts.len();
    while i > 0
        invariant
            i <= parts@.len(),
            texts(parts@) == all,
            all == split_on(path@, |c: char| c == '/'),
            keep == (|p: Seq<char>| p.len() > 0 && p != seq!['.']),
            forall|j: int| i <= j < all.len() ==> !keep(#[trigger] all[j]),
        decreases i,
    {
        let part = &parts[i - 1];
        proof {
            assert(texts(parts@)[i - 1] == part@);
        }
        let skip = part.len() == 0 || (part.len() == 1 && part[0] == '.');
        proof {
            if part@.len() == 1 && part@[0] == '.' {
                assert(part@ =~= seq!['.']);
            }
            assert(skip == !keep(all[i - 1]));
        }
        if !skip {
            proof {
                lemma_filter_last(all, keep, i as int);
            }
            let up = part.len() == 2 && part[0] == '.' && part[1] == '.';
            proof {
                if part@.len() == 2 && part@[0] == '.' && part@[1] == '.' {
                    assert(part@ =~= seq!['.', '.']);
                }
            }
            return if up {
                None
            } else {
                Some(crate::text::copy_chars(part))
            };
        }
        i = i - 1;
    }
    proof {
        lemma_filter_last(all, keep, 0);
    }
    None
}

/// The name of an executable, from the target of its `/proc/<pid>/exe` link: the
/// last component of the path, or the whole path where it has none.
pub fn exe_basename(link: &str) -> (r: String)
    ensures
        r@ == (match file_name(link@) {
            Some(n) => n,
            None => link@,
        }),
{
    let chars = to_chars(link);
    match path_file_name(&chars) {
        Some(n) => from_chars(&n),
        None => from_chars(&chars),
    }
}

// --- Desktop files ---

/// The first of `ws` that holds no equals sign.
pub open spec fn first_plain(ws: Seq<Seq<char>>) -> Option<Seq<char>>
    decreases ws.len(),
{
    if ws.len() == 0 {
        None
    } else if !ws[0].contains('=') {
        Some(ws[0])
    } else {
        first_plain(ws.skip(1))
    }
}

/// The program that the value of an `Exec` key starts: its first word, or behind
/// `env` the first word that is no assignment.
pub open spec fn exec_command(value: Seq<char>) -> Option<Seq<char>> {
    let ws = words(value);
    if ws.len() == 0 {
        None
    } else if ws[0] == "env"@ {
        first_plain(ws.skip(1))
    } else {
        Some(ws[0])
    }
}

/// The executable that the lines of a desktop file name: of the first `Exec` key
/// in a `[Desktop Entry]` group. `in_entry` says whether the lines start in one.
pub open spec fn exec_in_lines(lines: Seq<Seq<char>>, in_entry: bool) -> Option<Seq<char>>
    decreases lines.len(),
{
    if lines.len() == 0 {
        None
    } else {
        let line = trimmed(lines[0]);
        if line.len() > 0 && line[0] == '[' {
            exec_in_lines(lines.skip(1), line == "[Desktop Entry]"@)
        } else if in_entry && "Exec="@.is_prefix_of(line) {
            match exec_command(line.skip("Exec="@.len() as int)) {
                Some(command) => file_name(command),
                None => None,
            }
        } else {
            exec_in_lines(lines.skip(1), in_entry)
        }
    }
}

fn find_plain(ws: &Vec<Vec<char>>) -> (r: Option<usize>)
    requires
        ws@.len() > 0,
    ensures
        match r {
            Some(i) => i < ws@.len() && first_plain(texts(ws@).skip(1)) == Some(ws@[i as int]@),
            None => first_plain(texts(ws@).skip(1)) is None,
        },
{
    let ghost all = texts(ws@);
    let mut i: usize = 1;
    while i < ws.len()
        invariant
            1 <= i <= ws@.len(),
            all == texts(ws@),
            first_plain(all.skip(1)) == first_plain(all.skip(i as int)),
        decreases ws@.len() - i,
    {
        proof {
            assert(all[i as int] == ws@[i as int]@);
            assert(all.skip(i as int)[0] == all[i as int]);
            assert(all.skip(i as int).skip(1) =~= all.skip(i + 1));
        }
        if !contains_char(&ws[i], '=') {
            return Some(i);
        }
        i = i + 1;
    }
    None
}

fn exec_value_name(value: &[char]) -> (r: Option<String>)
    ensures
        crate::text::opt_text(r) == (match exec_command(value@) {
            Some(command) => file_name(command),
            None => None,
        }),
{
    let ws = split_words(value);
    proof {
        assert(texts(ws@).len() == ws@.len());
    }
    if ws.len() == 0 {
        return None;
    }
    proof {
        assert(texts(ws@)[0] == ws@[0]@);
    }
    let env = to_chars("env");
    let index: usize = if eq_chars(&ws[0], &env) {
        match find_plain(&ws) {
            Some(i) => i,
            None => {
                return None;
            },
        }
    } else {
        0
    };
    match path_file_name(&ws[index]) {
        Some(n) => Some(from_chars(&n)),
        None => None,
    }
}

/// Extracts the executable name from the `Exec` key of a desktop file.
pub fn parse_exec_from_desktop(content: &str) -> (r: Option<String>)
    ensures
        crate::text::opt_text(r) == exec_in_lines(lines_of(content@), false),
{
    let chars = to_chars(content);
    let lines = split_lines(&chars);
    let group = to_chars("[Desktop Entry]");
    let key = to_chars("Exec=");
    let ghost all = lines_of(content@);
    let mut in_entry = false;
    let mut i: usize = 0;
    proof {
        assert(all.skip(0) =~= all);
    }
    while i < lines.len()
        invariant
            i <= lines@.len(),
            texts(lines@) == all,
            all == lines_of(content@),
            group@ == "[Desktop Entry]"@,
            key@ == "Exec="@,
            exec_in_lines(all, false) == exec_in_lines(all.skip(i as int), in_entry),
        decreases lines@.len() - i,
    {
        proof {
            assert(all[i as int] == lines@[i as int]@);
            assert(all.skip(i as int)[0] == all[i as int]);
            assert(all.skip(i as int).skip(1) =~= all.skip(i + 1));
        }
        let line = trim(&lines[i]);
        if line.len() > 0 && line[0] == '[' {
            in_entry = eq_chars(line, &group);
        } else if in_entry && starts_with(line, &key) {
            let value = slice_subrange(line, key.len(), line.len());
            proof {
                assert(value@ =~= line@.skip(key@.len() as int));
            }
            return exec_value_name(value);
        }
        i = i + 1;
    }
    None
}

// --- Process trees ---

/// Whether each element of `path` is a child of the one before it.
pub open spec fn is_path(table: ProcessTable, path: Seq<u32>) -> bool {
    &&& path.len() > 0
    &&& forall|i: int, j: int|
        0 <= i && j == i + 1 && j < path.len() ==> table.children_of(#[trigger] path[i]).contains(
            #[trigger] path[j],
        )
}

/// Whether `to` is `from` itself or one of its descendants.
pub open spec fn reaches(table: ProcessTable, from: u32, to: u32) -> bool {
    exists|path: Seq<u32>|
        #[trigger] is_path(table, path) && path[0] == from && path.last() == to
}

/// Whether `pid` is one of `roots` or a descendant of one.
pub open spec fn in_tree(table: ProcessTable, roots: Seq<u32>, pid: u32) -> bool {
    exists|i: int| 0 <= i < roots.len() && reaches(table, #[trigger] roots[i], pid)
}

/// There are no more distinct PIDs than the type has values.
pub proof fn lemma_distinct_bound(s: Seq<u32>)
    requires
        s.no_duplicates(),
    ensures
        s.len() <= 0x1_0000_0000,
{
    let t = s.map_values(|x: u32| x as int);
    assert(t.no_duplicates());
    let range = vstd::set_lib::set_int_range(0, 0x1_0000_0000);
    vstd::set_lib::lemma_int_range(0, 0x1_0000_0000);
    t.unique_seq_to_set();
    assert(t.to_set().subset_of(range)) by {
        assert forall|x: int| t.to_set().contains(x) implies range.contains(x) by {
            let i = choose|i: int| 0 <= i < t.len() && t[i] == x;
            assert(t[i] == s[i] as int);
        }
    }
    vstd::set_lib::lemma_len_subset(t.to_set(), range);
}

proof fn lemma_reaches_self(table: ProcessTable, pid: u32)
    ensures
        reaches(table, pid, pid),
{
    let path = seq![pid];
    assert(is_path(table, path));
}

proof fn lemma_reaches_child(table: ProcessTable, from: u32, mid: u32, to: u32)
    requires
        reaches(table, from, mid),
        table.children_of(mid).contains(to),
    ensures
        reaches(table, from, to),
{
    let path = choose|path: Seq<u32>|
        #[trigger] is_path(table, path) && path[0] == from && path.last() == mid;
    let longer = path.push(to);
    assert forall|i: int, j: int|
        0 <= i && j == i + 1 && j < longer.len() implies table.children_of(
        #[trigger] longer[i],
    ).contains(#[trigger] longer[j]) by {
        if j < path.len() {
            assert(longer[i] == path[i] && longer[j] == path[j]);
        } else {
            assert(longer[i] == path.last());
        }
    }
    assert(is_path(table, longer));
    assert(longer[0] == from && longer.last() == to);
}

proof fn lemma_closed_path(table: ProcessTable, out: Seq<u32>, path: Seq<u32>)
    requires
        is_path(table, path),
        out.contains(path[0]),
        forall|k: int, c: u32|
            0 <= k < out.len() && #[trigger] table.children_of(out[k]).contains(c)
                ==> out.contains(c),
    ensures
        out.contains(path.last()),
    decreases path.len(),
{
    if path.len() > 1 {
        let shorter = path.drop_last();
        assert forall|i: int, j: int|
            0 <= i && j == i + 1 && j < shorter.len() implies table.children_of(
            #[trigger] shorter[i],
        ).contains(#[trigger] shorter[j]) by {
            assert(shorter[i] == path[i] && shorter[j] == path[j]);
        }
        lemma_closed_path(table, out, shorter);
        let n = path.len() - 1;
        assert(shorter.last() == path[n - 1]);
        let k = choose|k: int| 0 <= k < out.len() && out[k] == path[n - 1];
        assert(table.children_of(path[n - 1]).contains(path[n]));
        assert(table.children_of(out[k]).contains(path[n]));
    }
}

fn contains_pid(pids: &Vec<u32>, pid: u32) -> (r: bool)
    ensures
        r == pids@.contains(pid),
{
    let mut i: usize = 0;
    while i < pids.len()
        invariant
            i <= pids@.len(),
            forall|j: int| 0 <= j < i ==> pids@[j] != pid,
        decreases pids@.len() - i,
    {
        if pids[i] == pid {
            return true;
        }
        i = i + 1;
    }
    false
}

/// Those of `pids` that `out` does not hold, each once, in order.
pub open spec fn fresh_pids(out: Seq<u32>, pids: Seq<u32>) -> Seq<u32>
    decreases pids.len(),
{
    if pids.len() == 0 {
        Seq::empty()
    } else {
        let before = fresh_pids(out, pids.drop_last());
        if out.contains(pids.last()) || before.contains(pids.last()) {
            before
        } else {
            before.push(pids.last())
        }
    }
}

/// Fresh PIDs are distinct, and are those that are not there yet.
pub proof fn lemma_fresh_pids(out: Seq<u32>, pids: Seq<u32>)
    ensures
        fresh_pids(out, pids).no_duplicates(),
        forall|p: u32| #[trigger]
            fresh_pids(out, pids).contains(p) <==> pids.contains(p) && !out.contains(p),
        out.no_duplicates() ==> (out + fresh_pids(out, pids)).no_duplicates(),
    decreases pids.len(),
{
    if pids.len() > 0 {
        let before = pids.drop_last();
        let last = pids.last();
        let f = fresh_pids(out, before);
        lemma_fresh_pids(out, before);
        assert(pids =~= before.push(last));
        assert forall|p: u32| #[trigger] fresh_pids(out, pids).contains(p) <==> pids.contains(p)
            && !out.contains(p) by {
            vstd::seq_lib::lemma_seq_contains_after_push(before, last, p);
            vstd::seq_lib::lemma_seq_contains_after_push(f, last, p);
            assert(f.contains(p) <==> before.contains(p) && !out.contains(p));
            assert(f.contains(last) <==> before.contains(last) && !out.contains(last));
        }
    }
    let f = fresh_pids(out, pids);
    if out.no_duplicates() {
        let all = out + f;
        assert forall|a: int, b: int|
            0 <= a < all.len() && 0 <= b < all.len() && a != b implies all[a] != all[b] by {
            if a < out.len() && b >= out.len() {
                assert(f[b - out.len()] == all[b]);
                assert(f.contains(all[b]));
                assert(out[a] == all[a]);
                assert(out.contains(all[a]));
            } else if b < out.len() && a >= out.len() {
                assert(f[a - out.len()] == all[a]);
                assert(f.contains(all[a]));
                assert(out[b] == all[b]);
                assert(out.contains(all[b]));
            }
        }
    }
}

/// A walk of a process tree: `out` holds what was found, and `stack` that of it
/// whose children are still to be looked up. They are looked up from the top of
/// the stack, and those that are new are found and put on it, in order.
pub open spec fn walked(table: ProcessTable, out: Seq<u32>, stack: Seq<u32>) -> Seq<u32>
    decreases 0x1_0000_0000 - out.len(), stack.len(),
    when out.no_duplicates()
{
    if stack.len() == 0 {
        out
    } else {
        let found = fresh_pids(out, table.children_of(stack.last()));
        proof {
            lemma_fresh_pids(out, table.children_of(stack.last()));
            lemma_distinct_bound(out + found);
            assert(found.len() == 0 ==> stack.drop_last() + found =~= stack.drop_last());
        }
        walked(table, out + found, stack.drop_last() + found)
    }
}

/// The descendants of a process, in the order in which a walk finds them.
pub open spec fn descendant_order(table: ProcessTable, pid: u32) -> Seq<u32> {
    walked(table, seq![pid], seq![pid]).skip(1)
}

/// The given PIDs, each followed by its descendants. What occurred before is left
/// out.
pub open spec fn tree_order(table: ProcessTable, roots: Seq<u32>) -> Seq<u32>
    decreases roots.len(),
{
    if roots.len() == 0 {
        Seq::empty()
    } else {
        let before = tree_order(table, roots.drop_last());
        before + fresh_pids(before, seq![roots.last()] + descendant_order(table, roots.last()))
    }
}

/// The identities of those of `pids` that run, in order.
pub open spec fn opened(table: ProcessTable, pids: Seq<u32>) -> Seq<ProcessHandle>
    decreases pids.len(),
{
    if pids.len() == 0 {
        Seq::empty()
    } else {
        let before = opened(table, pids.drop_last());
        match table.handle_of(pids.last()) {
            Some(h) => before.push(h),
            None => before,
        }
    }
}

/// Whether the children of every process in `out` that is not on `stack` are in
/// `out`.
spec fn looked_up(table: ProcessTable, out: Seq<u32>, stack: Seq<u32>) -> bool {
    forall|k: int, c: u32|
        0 <= k < out.len() && !stack.contains(out[k]) && #[trigger] table.children_of(
            out[k],
        ).contains(c) ==> out.contains(c)
}

proof fn lemma_walked(table: ProcessTable, out: Seq<u32>, stack: Seq<u32>, root: u32)
    requires
        out.no_duplicates(),
        out.len() > 0,
        out[0] == root,
        forall|k: int| 0 <= k < out.len() ==> reaches(table, root, #[trigger] out[k]),
        forall|k: int| 0 <= k < stack.len() ==> out.contains(#[trigger] stack[k]),
        looked_up(table, out, stack),
    ensures
        walked(table, out, stack).no_duplicates(),
        walked(table, out, stack).len() > 0,
        walked(table, out, stack)[0] == root,
        forall|p: u32| #[trigger] walked(table, out, stack).contains(p) <==> reaches(table, root, p),
    decreases 0x1_0000_0000 - out.len(), stack.len(),
{
    if stack.len() == 0 {
        assert forall|p: u32| #[trigger] out.contains(p) <==> reaches(table, root, p) by {
            if reaches(table, root, p) {
                let path = choose|path: Seq<u32>|
                    #[trigger] is_path(table, path) && path[0] == root && path.last() == p;
                assert(out.contains(path[0])) by {
                    assert(out[0] == root);
                }
                lemma_closed_path(table, out, path);
            }
        }
    } else {
        let top = stack.last();
        let children = table.children_of(top);
        let found = fresh_pids(out, children);
        let out2 = out + found;
        let stack2 = stack.drop_last() + found;
        lemma_fresh_pids(out, children);
        lemma_distinct_bound(out2);
        if found.len() == 0 {
            assert(stack2 =~= stack.drop_last());
        }
        assert(out.contains(stack[stack.len() - 1]));
        assert(reaches(table, root, top)) by {
            let k = choose|k: int| 0 <= k < out.len() && out[k] == top;
            assert(reaches(table, root, out[k]));
        }
        assert forall|p: u32| #[trigger] out2.contains(p) <==> out.contains(p) || children.contains(
            p,
        ) by {
            lemma_concat_contains(out, found, p);
            assert(found.contains(p) <==> children.contains(p) && !out.contains(p));
        }
        assert forall|k: int| 0 <= k < out2.len() implies reaches(table, root, #[trigger] out2[k]) by {
            if k < out.len() {
                assert(out2[k] == out[k]);
            } else {
                assert(found[k - out.len()] == out2[k]);
                assert(found.contains(out2[k]));
                lemma_reaches_child(table, root, top, out2[k]);
            }
        }
        assert forall|k: int| 0 <= k < stack2.len() implies out2.contains(#[trigger] stack2[k]) by {
            if k < stack.len() - 1 {
                assert(stack2[k] == stack[k]);
                assert(out.contains(stack[k]));
            } else {
                assert(found[k - (stack.len() - 1)] == stack2[k]);
                assert(found.contains(stack2[k]));
            }
        }
        assert forall|k: int, c: u32|
            0 <= k < out2.len() && !stack2.contains(out2[k]) && #[trigger] table.children_of(
                out2[k],
            ).contains(c) implies out2.contains(c) by {
            let p = out2[k];
            lemma_concat_contains(stack.drop_last(), found, p);
            if k < out.len() {
                assert(out[k] == p);
                if p != top {
                    assert(!stack.contains(p)) by {
                        if stack.contains(p) {
                            let m = choose|m: int| 0 <= m < stack.len() && stack[m] == p;
                            assert(m < stack.len() - 1);
                            assert(stack.drop_last()[m] == p);
                        }
                    }
                    assert(out.contains(c));
                }
            } else {
                assert(found[k - out.len()] == p);
                assert(found.contains(p));
            }
        }
        lemma_walked(table, out2, stack2, root);
    }
}

proof fn lemma_concat_contains(a: Seq<u32>, b: Seq<u32>, p: u32)
    ensures
        (a + b).contains(p) <==> a.contains(p) || b.contains(p),
{
    let all = a + b;
    if a.contains(p) {
        let i = choose|i: int| 0 <= i < a.len() && a[i] == p;
        assert(all[i] == p);
    }
    if b.contains(p) {
        let i = choose|i: int| 0 <= i < b.len() && b[i] == p;
        assert(all[a.len() + i] == p);
    }
    if all.contains(p) {
        let i = choose|i: int| 0 <= i < all.len() && all[i] == p;
        if i < a.len() {
            assert(a[i] == p);
        } else {
            assert(b[i - a.len()] == p);
        }
    }
}

proof fn lemma_walk_from(table: ProcessTable, pid: u32)
    ensures
        walked(table, seq![pid], seq![pid]).no_duplicates(),
        walked(table, seq![pid], seq![pid]).len() > 0,
        walked(table, seq![pid], seq![pid])[0] == pid,
        forall|p: u32| #[trigger]
            walked(table, seq![pid], seq![pid]).contains(p) <==> reaches(table, pid, p),
{
    lemma_reaches_self(table, pid);
    let s = seq![pid];
    assert(s[0] == pid);
    assert(s.contains(pid));
    assert(looked_up(table, s, s)) by {
        assert forall|k: int, c: u32|
            0 <= k < s.len() && !s.contains(s[k]) && #[trigger] table.children_of(s[k]).contains(
                c,
            ) implies s.contains(c) by {}
    }
    lemma_walked(table, s, s, pid);
}

/// The descendants of a process are those that it reaches, other than itself, each
/// once.
proof fn lemma_descendant_order(table: ProcessTable, pid: u32)
    ensures
        descendant_order(table, pid).no_duplicates(),
        forall|q: u32| #[trigger]
            descendant_order(table, pid).contains(q) <==> q != pid && reaches(table, pid, q),
        walked(table, seq![pid], seq![pid]) == seq![pid] + descendant_order(table, pid),
{
    lemma_walk_from(table, pid);
    let w = walked(table, seq![pid], seq![pid]);
    let d = descendant_order(table, pid);
    assert(w =~= seq![pid] + d);
    assert forall|q: u32| #[trigger] d.contains(q) <==> q != pid && reaches(table, pid, q) by {
        lemma_concat_contains(seq![pid], d, q);
        assert(w.contains(q) <==> reaches(table, pid, q));
        assert(seq![pid].contains(q) <==> q == pid) by {
            assert(seq![pid][0] == pid);
        }
        if d.contains(q) && q == pid {
            let i = choose|i: int| 0 <= i < d.len() && d[i] == q;
            assert(w[i + 1] == w[0]);
        }
    }
    assert forall|a: int, b: int| 0 <= a < d.len() && 0 <= b < d.len() && a != b implies d[a]
        != d[b] by {
        assert(w[a + 1] != w[b + 1]);
    }
}

/// An expanded tree holds the roots and their descendants, and nothing else, each
/// once.
pub proof fn expanded_tree_is_complete(table: ProcessTable, roots: Seq<u32>)
    ensures
        tree_order(table, roots).no_duplicates(),
        forall|pid: u32| #[trigger]
            tree_order(table, roots).contains(pid) <==> in_tree(table, roots, pid),
    decreases roots.len(),
{
    if roots.len() > 0 {
        let before = roots.drop_last();
        let root = roots.last();
        let t = tree_order(table, before);
        let more = seq![root] + descendant_order(table, root);
        expanded_tree_is_complete(table, before);
        lemma_descendant_order(table, root);
        lemma_walk_from(table, root);
        lemma_fresh_pids(t, more);
        assert forall|pid: u32| #[trigger]
            tree_order(table, roots).contains(pid) <==> in_tree(table, roots, pid) by {
            lemma_concat_contains(t, fresh_pids(t, more), pid);
            assert(fresh_pids(t, more).contains(pid) <==> more.contains(pid) && !t.contains(pid));
            assert(more.contains(pid) <==> reaches(table, root, pid));
            if in_tree(table, before, pid) {
                let i = choose|i: int|
                    0 <= i < before.len() && reaches(table, #[trigger] before[i], pid);
                assert(roots[i] == before[i]);
            }
            if reaches(table, root, pid) {
                assert(reaches(table, roots[roots.len() - 1], pid));
            }
            if in_tree(table, roots, pid) {
                let i = choose|i: int|
                    0 <= i < roots.len() && reaches(table, #[trigger] roots[i], pid);
                if i < before.len() {
                    assert(before[i] == roots[i]);
                }
            }
        }
    }
}

/// Appends those of `pids` that `out` does not hold.
fn push_fresh(out: &mut Vec<u32>, pids: &[u32])
    ensures
        final(out)@ == old(out)@ + fresh_pids(old(out)@, pids@),
{
    let ghost start = out@;
    let mut i: usize = 0;
    proof {
        assert(start + fresh_pids(start, pids@.take(0)) =~= start);
    }
    while i < pids.len()
        invariant
            i <= pids@.len(),
            out@ == start + fresh_pids(start, pids@.take(i as int)),
        decreases pids@.len() - i,
    {
        let pid = pids[i];
        let ghost f = fresh_pids(start, pids@.take(i as int));
        proof {
            assert(pids@.take(i + 1).drop_last() =~= pids@.take(i as int));
            lemma_concat_contains(start, f, pid);
        }
        if !contains_pid(out, pid) {
            out.push(pid);
            proof {
                assert(out@ =~= start + f.push(pid));
            }
        }
        i = i + 1;
    }
    proof {
        assert(pids@.take(pids@.len() as int) =~= pids@);
    }
}

/// The given PIDs and all their descendants, each once.
pub fn tree_pids(roots: &[u32], table: &ProcessTable) -> (r: Vec<u32>)
    ensures
        r@ == tree_order(*table, roots@),
        r@.no_duplicates(),
        forall|pid: u32| #[trigger] r@.contains(pid) <==> in_tree(*table, roots@, pid),
{
    let mut out: Vec<u32> = Vec::new();
    let mut n: usize = 0;
    proof {
        assert(roots@.take(0) =~= Seq::empty());
    }
    while n < roots.len()
        invariant
            n <= roots@.len(),
            out@ == tree_order(*table, roots@.take(n as int)),
        decreases roots@.len() - n,
    {
        let walk = walk_from(roots[n], table);
        proof {
            assert(roots@.take(n + 1).drop_last() =~= roots@.take(n as int));
        }
        push_fresh(&mut out, &walk);
        n = n + 1;
    }
    proof {
        assert(roots@.take(roots@.len() as int) =~= roots@);
        expanded_tree_is_complete(*table, roots@);
    }
    out
}

/// A process and its descendants.
fn walk_from(pid: u32, table: &ProcessTable) -> (r: Vec<u32>)
    ensures
        r@ == seq![pid] + descendant_order(*table, pid),
{
    let mut out: Vec<u32> = vec![pid];
    let mut stack: Vec<u32> = vec![pid];
    let ghost whole = walked(*table, seq![pid], seq![pid]);
    proof {
        assert(out@ =~= seq![pid]);
        assert(stack@ =~= seq![pid]);
    }
    while stack.len() > 0
        invariant
            out@.no_duplicates(),
            walked(*table, out@, stack@) == whole,
        decreases 0x1_0000_0000 - out@.len(), stack@.len(),
    {
        let ghost out0 = out@;
        let ghost stack0 = stack@;
        let start: usize = out.len();
        if let Some(top) = stack.pop() {
            let ghost found = fresh_pids(out0, table.children_of(top));
            proof {
                lemma_fresh_pids(out0, table.children_of(top));
                lemma_distinct_bound(out0 + found);
            }
            match table.find(top) {
                Some(record) => {
                    push_fresh(&mut out, &record.children);
                },
                None => {
                    proof {
                        assert(table.children_of(top) =~= Seq::empty());
                        assert(out@ =~= out0 + found);
                    }
                },
            }
            let mut i: usize = start;
            proof {
                assert(stack@ =~= stack0.drop_last() + found.take(0));
            }
            while i < out.len()
                invariant
                    start <= i <= out@.len(),
                    start == out0.len(),
                    out@ == out0 + found,
                    stack@ == stack0.drop_last() + found.take(i - start),
                decreases out@.len() - i,
            {
                stack.push(out[i]);
                proof {
                    assert(stack@ =~= stack0.drop_last() + found.take(i + 1 - start));
                }
                i = i + 1;
            }
            proof {
                assert(found.take(found.len() as int) =~= found);
                assert(stack0.last() == top);
                if found.len() == 0 {
                    assert(stack@ =~= stack0.drop_last());
                }
            }
        }
    }
    proof {
        lemma_descendant_order(*table, pid);
    }
    out
}

/// The descendants of a process, each once.
pub fn descendant_pids(pid: u32, table: &ProcessTable) -> (r: Vec<u32>)
    ensures
        r@ == descendant_order(*table, pid),
        r@.no_duplicates(),
        forall|q: u32| #[trigger]
            r@.contains(q) <==> q != pid && reaches(*table, pid, q),
{
    let mut out = walk_from(pid, table);
    let _ = out.remove(0);
    proof {
        assert(out@ =~= descendant_order(*table, pid));
        lemma_descendant_order(*table, pid);
    }
    out
}

/// The given PIDs and all their descendants, as identities of running
/// processes.
pub fn expand_tree(roots: &[u32], table: &ProcessTable) -> (r: Vec<ProcessHandle>)
    ensures
        r@ == opened(*table, tree_order(*table, roots@)),
        forall|i: int, j: int|
            0 <= i < j < r@.len() ==> (#[trigger] r@[i]).pid != (#[trigger] r@[j]).pid,
        forall|h: ProcessHandle| #[trigger]
            r@.contains(h) <==> in_tree(*table, roots@, h.pid) && table.handle_of(h.pid) == Some(h),
{
    let pids = tree_pids(roots, table);
    let mut out: Vec<ProcessHandle> = Vec::new();
    let mut i: usize = 0;
    while i < pids.len()
        invariant
            i <= pids@.len(),
            pids@.no_duplicates(),
            out@ == opened(*table, pids@.take(i as int)),
            forall|k: int|
                0 <= k < out@.len() ==> pids@.take(i as int).contains((#[trigger] out@[k]).pid)
                    && table.handle_of(out@[k].pid) == Some(out@[k]),
            forall|k: int, l: int|
                0 <= k < l < out@.len() ==> (#[trigger] out@[k]).pid != (#[trigger] out@[l]).pid,
            forall|k: int|
                0 <= k < i ==> (match table.handle_of(#[trigger] pids@[k]) {
                    Some(h) => out@.contains(h),
                    None => true,
                }),
        decreases pids@.len() - i,
    {
        let ghost before = out@;
        let ghost pid = pids@[i as int];
        proof {
            assert(pids@.take(i + 1) =~= pids@.take(i as int).push(pid));
            assert(pids@.take(i + 1).drop_last() =~= pids@.take(i as int));
            assert forall|q: u32| pids@.take(i as int).contains(q) implies #[trigger] pids@.take(
                i + 1,
            ).contains(q) by {
                let m = choose|m: int| 0 <= m < i && pids@.take(i as int)[m] == q;
                assert(pids@.take(i + 1)[m] == q);
            }
            assert(!pids@.take(i as int).contains(pid)) by {
                if pids@.take(i as int).contains(pid) {
                    let m = choose|m: int| 0 <= m < i && pids@.take(i as int)[m] == pid;
                    assert(pids@[m] == pids@[i as int]);
                }
            }
            assert(pids@.take(i + 1)[i as int] == pid);
            assert(pids@.take(i + 1).contains(pid));
        }
        match ProcessHandle::open(pids[i], table) {
            Some(handle) => {
                out.push(handle);
                proof {
                    assert forall|h: ProcessHandle| before.contains(h) implies #[trigger] out@.contains(
                        h,
                    ) by {
                        let m = choose|m: int| 0 <= m < before.len() && before[m] == h;
                        assert(out@[m] == h);
                    }
                    assert(out@[before.len() as int] == handle);
                }
            },
            None => {},
        }
        i = i + 1;
    }
    proof {
        assert(pids@.take(pids@.len() as int) =~= pids@);
        assert forall|h: ProcessHandle| #[trigger] out@.contains(h) <==> in_tree(
            *table,
            roots@,
            h.pid,
        ) && table.handle_of(h.pid) == Some(h) by {
            if out@.contains(h) {
                let k = choose|k: int| 0 <= k < out@.len() && out@[k] == h;
                assert(pids@.contains(out@[k].pid));
            }
            if in_tree(*table, roots@, h.pid) && table.handle_of(h.pid) == Some(h) {
                assert(pids@.contains(h.pid));
                let k = choose|k: int| 0 <= k < pids@.len() && pids@[k] == h.pid;
                assert(table.handle_of(pids@[k]) == Some(h));
            }
        }
    }
    out
}

// --- What a table tells ---

/// What a table says of a PID is what its first record for it says, in every respect;
/// of a PID without a record it says nothing.
pub proof fn table_tells_the_first_record(table: ProcessTable, pid: u32, k: int)
    ensures
        0 <= k < table.records@.len() && table.records@[k].pid == pid && (forall|j: int|
            0 <= j < k ==> (#[trigger] table.records@[j]).pid != pid) ==> {
            let r = table.records@[k];
            &&& table.starttime_of(pid) == r.starttime
            &&& table.owns(pid) == r.owned
            &&& table.children_of(pid) == r.children@
            &&& r.comm matches Some(c) ==> table.comm_of(pid) == Some(c@)
            &&& r.comm is None ==> table.comm_of(pid) is None
        },
        (forall|j: int| 0 <= j < table.records@.len() ==> (#[trigger] table.records@[j]).pid != pid)
            ==> {
            &&& table.starttime_of(pid) is None
            &&& !table.owns(pid)
            &&& table.children_of(pid).len() == 0
            &&& table.comm_of(pid) is None
        },
{
    if 0 <= k < table.records@.len() && table.records@[k].pid == pid && (forall|j: int|
        0 <= j < k ==> (#[trigger] table.records@[j]).pid != pid) {
        assert forall|j: int| 0 <= j < k implies table.records@[j].pid != pid by {}
        lemma_record_found(table.records@, pid, k);
    }
    if forall|j: int| 0 <= j < table.records@.len() ==> (#[trigger] table.records@[j]).pid != pid {
        assert forall|j: int| 0 <= j < table.records@.len() implies table.records@[j].pid
            != pid by {}
        lemma_record_absent(table.records@, pid);
    }
}

/// A process is alive exactly where its PID is still carried by a process that started
/// when it did. The process that carries a PID now is identified by both; PID 0 names
/// none.
pub proof fn identity_is_pid_and_start(table: ProcessTable, h: ProcessHandle, pid: u32)
    ensures
        table.alive(h) <==> table.starttime_of(h.pid) == Some(h.starttime),
        table.handle_of(pid) == Some(h) <==> pid != 0 && h.pid == pid && table.alive(h),
        table.handle_of(0) is None,
{
}

/// The start time is read as the twentieth word behind the parenthesis that ends the
/// process name, whatever the name holds.
pub proof fn start_time_is_read_behind_the_name(head: Seq<char>, tail: Seq<char>, n: u64)
    requires
        !tail.contains(')'),
    ensures
        words(tail).len() > 19 && words(tail)[19] == decimal(n as nat) ==> starttime_field(
            head.push(')') + tail,
        ) == Some(n as nat),
        words(tail).len() <= 19 ==> starttime_field(head.push(')') + tail) is None,
        starttime_field(tail) is None,
{
    crate::text::after_last_is_the_tail(head, ')', tail);
    crate::text::numbers_are_read_as_written(Seq::empty(), n as nat, u64::MAX as nat);
}

/// The children are the PIDs that are listed, all of them and in their order; what is
/// no PID is passed over.
pub proof fn listed_children_are_read(ws: Seq<Seq<char>>, pid: u32, junk: Seq<char>)
    ensures
        pids_in(ws.push(decimal(pid as nat))) == pids_in(ws).push(pid),
        parse_bounded(junk, u32::MAX as nat) is None ==> pids_in(ws.push(junk)) == pids_in(ws),
        pids_in(Seq::empty()).len() == 0,
{
    crate::text::numbers_are_read_as_written(Seq::empty(), pid as nat, u32::MAX as nat);
    assert(ws.push(decimal(pid as nat)).drop_last() =~= ws);
    assert(ws.push(junk).drop_last() =~= ws);
}

/// A command line is shown with spaces between its arguments, and otherwise as it is.
pub proof fn arguments_are_parted_by_spaces(c: char)
    ensures
        cmdline_char('\0') == ' ',
        c != '\0' ==> cmdline_char(c) == c,
{
}

/// The file name of a path is what stands behind its last slash.
pub proof fn file_name_stands_behind_the_slash(dir: Seq<char>, name: Seq<char>)
    requires
        name.len() > 0,
        !name.contains('/'),
        name != seq!['.'],
    ensures
        name != seq!['.', '.'] ==> file_name(dir.push('/') + name) == Some(name),
        name != seq!['.', '.'] ==> file_name(name) == Some(name),
        name == seq!['.', '.'] ==> file_name(dir.push('/') + name) is None,
        file_name(Seq::empty()) is None,
{
    let sep = |c: char| c == '/';
    let keep = |p: Seq<char>| p.len() > 0 && p != seq!['.'];
    assert forall|i: int| 0 <= i < name.len() implies !sep(#[trigger] name[i]) by {
        assert(name.contains(name[i]));
    }
    crate::text::unsplit_text_is_one_piece(name, sep);
    crate::text::separator_parts_the_text(dir, '/', name, sep);
    let left = split_on(dir, sep);
    Seq::filter_distributes_over_add(left, seq![name], keep);
    let none = Seq::<Seq<char>>::empty();
    assert(seq![name].filter(keep) =~= seq![name]) by {
        reveal(Seq::filter);
        assert(seq![name].drop_last() =~= none);
        assert(none.filter(keep) =~= none);
    }
    assert((left.filter(keep) + seq![name]).last() == name);
    let blank = Seq::<char>::empty();
    assert(split_on(blank, sep) =~= seq![blank]);
    assert(seq![blank].filter(keep) =~= none) by {
        reveal(Seq::filter);
        assert(seq![blank].drop_last() =~= none);
        assert(none.filter(keep) =~= none);
    }
}

/// Slashes at the end of a path are passed over.
pub proof fn a_slash_at_the_end_does_not_count(path: Seq<char>)
    ensures
        file_name(path.push('/')) == file_name(path),
{
    let sep = |c: char| c == '/';
    let keep = |p: Seq<char>| p.len() > 0 && p != seq!['.'];
    let blank = Seq::<char>::empty();
    let none = Seq::<Seq<char>>::empty();
    crate::text::separator_parts_the_text(path, '/', blank, sep);
    assert(path.push('/') + blank =~= path.push('/'));
    assert(split_on(blank, sep) =~= seq![blank]);
    Seq::filter_distributes_over_add(split_on(path, sep), seq![blank], keep);
    assert(seq![blank].filter(keep) =~= none) by {
        reveal(Seq::filter);
        assert(seq![blank].drop_last() =~= none);
        assert(none.filter(keep) =~= none);
    }
    assert(split_on(path, sep).filter(keep) + none =~= split_on(path, sep).filter(keep));
}

/// The first plain word is one without an equals sign, and every word before it has
/// one; there is none exactly where all have.
pub proof fn first_plain_is_the_first(ws: Seq<Seq<char>>)
    ensures
        match first_plain(ws) {
            Some(w) => exists|i: int|
                0 <= i < ws.len() && #[trigger] ws[i] == w && !w.contains('=') && forall|j: int|
                    0 <= j < i ==> (#[trigger] ws[j]).contains('='),
            None => forall|i: int| 0 <= i < ws.len() ==> (#[trigger] ws[i]).contains('='),
        },
    decreases ws.len(),
{
    if ws.len() > 0 {
        if !ws[0].contains('=') {
            assert(ws[0] == first_plain(ws)->0);
        } else {
            let rest = ws.skip(1);
            first_plain_is_the_first(rest);
            match first_plain(rest) {
                Some(w) => {
                    let i = choose|i: int|
                        0 <= i < rest.len() && #[trigger] rest[i] == w && !w.contains('=')
                            && forall|j: int| 0 <= j < i ==> (#[trigger] rest[j]).contains('=');
                    assert(ws[i + 1] == w);
                    assert forall|j: int| 0 <= j < i + 1 implies (#[trigger] ws[j]).contains('=') by {
                        if j > 0 {
                            assert(rest[j - 1] == ws[j]);
                        }
                    }
                },
                None => {
                    assert forall|i: int| 0 <= i < ws.len() implies (#[trigger] ws[i]).contains(
                        '=',
                    ) by {
                        if i > 0 {
                            assert(rest[i - 1] == ws[i]);
                        }
                    }
                },
            }
        }
    }
}

/// A desktop file starts its first word; behind `env`, the first that assigns nothing.
pub proof fn exec_starts_its_first_word(value: Seq<char>)
    ensures
        words(value).len() == 0 ==> exec_command(value) is None,
        words(value).len() > 0 && words(value)[0] != "env"@ ==> exec_command(value) == Some(
            words(value)[0],
        ),
        words(value).len() > 1 && words(value)[0] == "env"@ && !words(value)[1].contains('=')
            ==> exec_command(value) == Some(words(value)[1]),
        words(value).len() > 2 && words(value)[0] == "env"@ && words(value)[1].contains('=')
            && !words(value)[2].contains('=') ==> exec_command(value) == Some(words(value)[2]),
{
    let ws = words(value);
    if ws.len() > 1 {
        assert(ws.skip(1)[0] == ws[1]);
    }
    if ws.len() > 2 {
        assert(ws.skip(1).skip(1)[0] == ws[2]);
        reveal_with_fuel(first_plain, 3);
    }
}

/// A line of a desktop file counts by what it is: a group header opens its group, the
/// first `Exec` key of the entry group decides, and anything else is passed over.
pub proof fn lines_of_a_desktop_file(line: Seq<char>, rest: Seq<Seq<char>>, in_entry: bool)
    ensures
        ({
            let t = trimmed(line);
            let got = exec_in_lines(seq![line] + rest, in_entry);
            let header = t.len() > 0 && t[0] == '[';
            let exec = "Exec="@.is_prefix_of(t);
            &&& t == "[Desktop Entry]"@ && header ==> got == exec_in_lines(rest, true)
            &&& header && t != "[Desktop Entry]"@ ==> got == exec_in_lines(rest, false)
            &&& !header && !in_entry ==> got == exec_in_lines(rest, false)
            &&& !header && in_entry && !exec ==> got == exec_in_lines(rest, true)
            &&& !header && in_entry && exec ==> got == (match exec_command(
                t.skip("Exec="@.len() as int),
            ) {
                Some(c) => file_name(c),
                None => None,
            })
        }),
        exec_in_lines(Seq::empty(), in_entry) is None,
{
    assert((seq![line] + rest).skip(1) =~= rest);
    assert((seq![line] + rest)[0] == line);
}

/// The processes that run are identified, each by the PID it was asked for, in their
/// order; the others are left out.
pub proof fn running_processes_are_opened(table: ProcessTable, pids: Seq<u32>, h: ProcessHandle)
    ensures
        opened(table, pids).contains(h) <==> pids.contains(h.pid) && h.pid != 0 && table.alive(h),
        opened(table, pids).len() <= pids.len(),
    decreases pids.len(),
{
    if pids.len() > 0 {
        let before = pids.drop_last();
        running_processes_are_opened(table, before, h);
        assert(pids =~= before.push(pids.last()));
        vstd::seq_lib::lemma_seq_contains_after_push(before, pids.last(), h.pid);
        if table.handle_of(pids.last()) is Some {
            vstd::seq_lib::lemma_seq_contains_after_push(
                opened(table, before),
                table.handle_of(pids.last())->0,
                h,
            );
        }
    }
}

/// A tree holds its roots, and with a process every child of it.
pub proof fn a_tree_is_closed_under_children(
    table: ProcessTable,
    roots: Seq<u32>,
    pid: u32,
    child: u32,
)
    ensures
        roots.contains(pid) ==> tree_order(table, roots).contains(pid),
        tree_order(table, roots).contains(pid) && table.children_of(pid).contains(child)
            ==> tree_order(table, roots).contains(child),
        roots.len() > 0 ==> tree_order(table, roots).len() > 0,
{
    expanded_tree_is_complete(table, roots);
    if roots.contains(pid) {
        let i = choose|i: int| 0 <= i < roots.len() && roots[i] == pid;
        let path = seq![pid];
        assert(is_path(table, path));
        assert(path[0] == pid && path.last() == pid);
        assert(reaches(table, roots[i], pid));
    }
    if in_tree(table, roots, pid) && table.children_of(pid).contains(child) {
        let i = choose|i: int| 0 <= i < roots.len() && reaches(table, #[trigger] roots[i], pid);
        let path = choose|path: Seq<u32>|
            #[trigger] is_path(table, path) && path[0] == roots[i] && path.last() == pid;
        let longer = path.push(child);
        assert forall|a: int, b: int| 0 <= a && b == a + 1 && b < longer.len() implies table.children_of(
            #[trigger] longer[a],
        ).contains(#[trigger] longer[b]) by {
            if b < path.len() {
                assert(longer[a] == path[a] && longer[b] == path[b]);
            } else {
                assert(longer[a] == pid);
            }
        }
        assert(is_path(table, longer));
        assert(longer[0] == roots[i] && longer.last() == child);
        assert(reaches(table, roots[i], child));
    }
    if roots.len() > 0 {
        let first = roots[0];
        assert(roots.contains(first));
        let path = seq![first];
        assert(is_path(table, path));
        assert(path[0] == first && path.last() == first);
        assert(reaches(table, roots[0], first));
        assert(tree_order(table, roots).contains(first));
    }
}

proof fn lemma_walk_keeps_the_found(table: ProcessTable, out: Seq<u32>, stack: Seq<u32>)
    requires
        out.no_duplicates(),
    ensures
        out.is_prefix_of(walked(table, out, stack)),
    decreases 0x1_0000_0000 - out.len(), stack.len(),
{
    if stack.len() > 0 {
        let found = fresh_pids(out, table.children_of(stack.last()));
        lemma_fresh_pids(out, table.children_of(stack.last()));
        lemma_distinct_bound(out + found);
        assert(found.len() == 0 ==> stack.drop_last() + found =~= stack.drop_last());
        lemma_walk_keeps_the_found(table, out + found, stack.drop_last() + found);
    }
}

/// What is new of a list is found in its order: all of it, where nothing of it was
/// found before and nothing occurs twice.
pub proof fn new_processes_are_found_in_order(out: Seq<u32>, pids: Seq<u32>)
    requires
        pids.no_duplicates(),
        forall|i: int| 0 <= i < pids.len() ==> !out.contains(#[trigger] pids[i]),
    ensures
        fresh_pids(out, pids) == pids,
    decreases pids.len(),
{
    if pids.len() > 0 {
        let before = pids.drop_last();
        assert(before.no_duplicates());
        assert forall|i: int| 0 <= i < before.len() implies !out.contains(
            #[trigger] before[i],
        ) by {
            assert(before[i] == pids[i]);
        }
        new_processes_are_found_in_order(out, before);
        let n = before.len() as int;
        assert(pids[n] == pids.last());
        if before.contains(pids.last()) {
            let j = choose|j: int| 0 <= j < before.len() && before[j] == pids.last();
            assert(pids[j] == pids[n]);
        }
        assert(pids =~= before.push(pids.last()));
    }
}

/// A tree is listed from its first root on, and the children of that root stand right
/// behind it, in their order.
pub proof fn children_stand_behind_their_parent(table: ProcessTable, root: u32)
    requires
        table.children_of(root).no_duplicates(),
        !table.children_of(root).contains(root),
    ensures
        (seq![root] + table.children_of(root)).is_prefix_of(tree_order(table, seq![root])),
{
    let children = table.children_of(root);
    let out = seq![root];
    assert(out.no_duplicates());
    assert forall|i: int| 0 <= i < children.len() implies !out.contains(
        #[trigger] children[i],
    ) by {
        assert(children.contains(children[i]));
    }
    new_processes_are_found_in_order(out, children);
    lemma_fresh_pids(out, children);
    let w = walked(table, out, out);
    assert(out.last() == root);
    assert(out.drop_last() + children =~= children);
    assert(w == walked(table, out + children, children));
    lemma_walk_keeps_the_found(table, out + children, children);
    lemma_descendant_order(table, root);
    lemma_walk_from(table, root);
    let roots = seq![root];
    let none = Seq::<u32>::empty();
    assert(roots.drop_last() =~= none);
    assert(tree_order(table, none) =~= none);
    let more = seq![root] + descendant_order(table, root);
    assert(more == w);
    assert forall|i: int| 0 <= i < more.len() implies !none.contains(#[trigger] more[i]) by {}
    new_processes_are_found_in_order(none, more);
    assert(none + more =~= more);
    assert(tree_order(table, roots) == more);
}

/// The trees of several roots are listed one after the other: what is listed for the
/// first ones stays where it is.
pub proof fn trees_are_listed_one_after_the_other(table: ProcessTable, roots: Seq<u32>, root: u32)
    ensures
        tree_order(table, roots).is_prefix_of(tree_order(table, roots.push(root))),
        roots.contains(root) ==> tree_order(table, roots.push(root)).len() == tree_order(
            table,
            roots,
        ).len(),
{
    assert(roots.push(root).drop_last() =~= roots);
    let before = tree_order(table, roots);
    let more = seq![root] + descendant_order(table, root);
    lemma_fresh_pids(before, more);
    if roots.contains(root) {
        expanded_tree_is_complete(table, roots);
        lemma_descendant_order(table, root);
        let f = fresh_pids(before, more);
        if f.len() > 0 {
            let p = f[0];
            assert(f.contains(p));
            assert(more.contains(p) && !before.contains(p));
            lemma_walk_from(table, root);
            assert(walked(table, seq![root], seq![root]).contains(p));
            assert(reaches(table, root, p));
            let i = choose|i: int| 0 <= i < roots.len() && roots[i] == root;
            assert(reaches(table, roots[i], p));
            assert(in_tree(table, roots, p));
        }
    }
}

} // verus!
