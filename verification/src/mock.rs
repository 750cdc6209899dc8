//! The decisions of the mock multipathd used in testing: which test file answers
//! which command, cycling round-robin through several files.
use vstd::prelude::*;
use crate::pve::{pair_get, pair_has, pair_index, pairs_view, strings_view};
use crate::text::{chars_of, split_chars, split_on, split_once, split_once_exec, str_eq, string_of, trim, trim_chars, lemma_split_on_nonempty};

verus! {

/// The per-command position of the next file to answer with.
pub struct FileCounters {
    indices: Vec<(String, usize)>,
}

/// The model of the counters: command and position, distinct commands.
pub type CounterEntries = Seq<(Seq<char>, usize)>;

pub open spec fn counter_keys_unique(e: CounterEntries) -> bool {
    forall|i: int, j: int| 0 <= i < e.len() && 0 <= j < e.len() && i != j ==> e[i].0 != e[j].0
}

/// The position recorded for a command (0 when it has none yet).
pub open spec fn counter_of(e: CounterEntries, command: Seq<char>) -> usize {
    if exists|i: int| 0 <= i < e.len() && e[i].0 == command {
        e[choose|i: int| 0 <= i < e.len() && e[i].0 == command].1
    } else {
        0
    }
}

impl FileCounters {
    pub closed spec fn entries(&self) -> CounterEntries {
        self.indices@.map_values(|p: (String, usize)| (p.0@, p.1))
    }

    pub open spec fn wf(&self) -> bool {
        counter_keys_unique(self.entries()) && forall|i: int|
            0 <= i < self.entries().len() ==> #[trigger] self.entries()[i].1 < usize::MAX
    }

    /// No command has a position yet.
    pub fn new() -> (r: Self)
        ensures
            r.wf(),
            forall|c: Seq<char>| counter_of(r.entries(), c) == 0,
    {
        let r = FileCounters { indices: Vec::new() };
        assert(r.entries() =~= CounterEntries::empty());
        r
    }

    fn find(&self, command: &str) -> (r: Option<usize>)
        requires
            self.wf(),
        ensures
            match r {
                Some(i) => i < self.entries().len() && self.entries()[i as int].0 == command@,
                None => forall|i: int| 0 <= i < self.entries().len() ==> self.entries()[i].0 != command@,
            },
    {
        let mut i: usize = 0;
        while i < self.indices.len()
            invariant
                i <= self.indices.len(),
                forall|k: int| 0 <= k < i ==> self.entries()[k].0 != command@,
            decreases self.indices.len() - i,
        {
            if str_eq(self.indices[i].0.as_str(), command) {
                return Some(i);
            }
            i = i + 1;
        }
        None
    }

    /// Returns the command's current position and moves it on by one, wrapping
    /// around at `max`; other commands keep theirs.
    pub fn next_index(&mut self, command: &str, max: usize) -> (r: usize)
        requires
            old(self).wf(),
            max > 0,
        ensures
            final(self).wf(),
            r == counter_of(old(self).entries(), command@),
            counter_of(final(self).entries(), command@) == (r + 1) % (max as int),
            forall|c: Seq<char>| c != command@ ==> counter_of(final(self).entries(), c) == counter_of(old(self).entries(), c),
    {
        let ghost e = self.entries();
        match self.find(command) {
            Some(i) => {
                let current = self.indices[i].1;
                proof {
                    assert(e[i as int].1 == current);
                    assert(e[i as int].0 == command@);
                    let c = choose|k: int| 0 <= k < e.len() && e[k].0 == command@;
                    if c != i {
                        assert(e[c].0 != e[i as int].0);
                    }
                    assert(current < usize::MAX);
                }
                let next = (current + 1) % max;
                let name = self.indices[i].0.clone();
                self.indices.set(i, (name, next));
                proof {
                    let ne = self.entries();
                    assert(ne =~= e.update(i as int, (command@, next)));
                    assert forall|a: int, b: int| 0 <= a < ne.len() && 0 <= b < ne.len() && a != b implies ne[a].0 != ne[b].0 by {
                        assert(ne[a].0 == e[a].0 && ne[b].0 == e[b].0);
                    }
                    assert forall|a: int| 0 <= a < ne.len() implies #[trigger] ne[a].1 < usize::MAX by {
                        if a != i {
                            assert(ne[a] == e[a]);
                        }
                    }
                    assert(ne[i as int].0 == command@);
                    let c2 = choose|k: int| 0 <= k < ne.len() && ne[k].0 == command@;
                    if c2 != i {
                        assert(ne[c2].0 != ne[i as int].0);
                    }
                    assert forall|c: Seq<char>| c != command@ implies counter_of(ne, c) == counter_of(e, c) by {
                        if exists|k: int| 0 <= k < e.len() && e[k].0 == c {
                            let k1 = choose|k: int| 0 <= k < e.len() && e[k].0 == c;
                            assert(ne[k1] == e[k1]);
                            let k2 = choose|k: int| 0 <= k < ne.len() && ne[k].0 == c;
                            if k1 != k2 {
                                assert(ne[k1].0 != ne[k2].0);
                            }
                        } else {
                            assert forall|k: int| 0 <= k < ne.len() implies ne[k].0 != c by {
                                if k != i {
                                    assert(ne[k] == e[k]);
                                }
                            }
                        }
                    }
                }
                current
            },
            None => {
                let next = 1 % max;
                self.indices.push((command.to_string(), next));
                proof {
                    let ne = self.entries();
                    assert(ne =~= e.push((command@, next)));
                    assert forall|a: int, b: int| 0 <= a < ne.len() && 0 <= b < ne.len() && a != b implies ne[a].0 != ne[b].0 by {
                        if a < e.len() && b < e.len() {
                            assert(ne[a].0 == e[a].0 && ne[b].0 == e[b].0);
                        }
                    }
                    assert forall|a: int| 0 <= a < ne.len() implies #[trigger] ne[a].1 < usize::MAX by {
                        if a < e.len() {
                            assert(ne[a] == e[a]);
                        }
                    }
                    assert(ne[e.len() as int].0 == command@);
                    let c2 = choose|k: int| 0 <= k < ne.len() && ne[k].0 == command@;
                    if c2 != e.len() {
                        assert(ne[c2].0 != ne[e.len() as int].0);
                    }
                    assert forall|c: Seq<char>| c != command@ implies counter_of(ne, c) == counter_of(e, c) by {
                        if exists|k: int| 0 <= k < e.len() && e[k].0 == c {
                            let k1 = choose|k: int| 0 <= k < e.len() && e[k].0 == c;
                            assert(ne[k1] == e[k1]);
                            let k2 = choose|k: int| 0 <= k < ne.len() && ne[k].0 == c;
                            if k1 != k2 {
                                assert(ne[k1].0 != ne[k2].0);
                            }
                        } else {
                            assert forall|k: int| 0 <= k < ne.len() implies ne[k].0 != c by {
                                if k < e.len() {
                                    assert(ne[k] == e[k]);
                                }
                            }
                        }
                    }
                }
                0
            },
        }
    }
}

/// The position after `n` answers from position `start`, cycling through `max` files.
pub open spec fn position_after(start: nat, n: nat, max: nat) -> nat
    decreases n,
{
    if n == 0 {
        start
    } else {
        (position_after(start, (n - 1) as nat, max) + 1) % max
    }
}

/// Round robin: from position 0, the `n`-th answer (counting from 0) uses file
/// `n mod max`, so every file answers in turn.
pub proof fn lemma_round_robin(n: nat, max: nat)
    requires
        max > 0,
    ensures
        position_after(0, n, max) == n % max,
    decreases n,
{
    if n > 0 {
        lemma_round_robin((n - 1) as nat, max);
        let m = max as int;
        let k = n as int;
        vstd::arithmetic::div_mod::lemma_add_mod_noop_right(1, k - 1, m);
        assert((1 + (k - 1) % m) % m == k % m);
        let p = position_after(0, (n - 1) as nat, max);
        assert(p as int == (k - 1) % m);
        assert(position_after(0, n, max) == (p + 1) % max);
        assert((p + 1) % max == (1 + (k - 1) % m) % m);
        assert((n % max) as int == k % m);
    } else {
        vstd::arithmetic::div_mod::lemma_small_mod(0, max);
    }
}

/// How many of the calls were for `command`.
pub open spec fn calls_for(cmds: Seq<Seq<char>>, command: Seq<char>) -> nat
    decreases cmds.len(),
{
    if cmds.len() == 0 {
        0
    } else {
        calls_for(cmds.drop_last(), command) + (if cmds.last() == command {
            1nat
        } else {
            0nat
        })
    }
}

/// One call of `next_index` for `called` with that `max`, as its contract states
/// it: the answer is the command's position, which moves on by one and wraps at
/// `max`; other commands keep theirs.
pub open spec fn next_index_step(before: FileCounters, after: FileCounters, called: Seq<char>, max: nat, r: usize) -> bool {
    &&& r == counter_of(before.entries(), called)
    &&& counter_of(after.entries(), called) == (r + 1) % (max as int)
    &&& forall|c: Seq<char>| c != called ==> counter_of(after.entries(), c) == counter_of(before.entries(), c)
}

proof fn lemma_counter_tracks_calls(
    fs: Seq<FileCounters>,
    cmds: Seq<Seq<char>>,
    maxes: Seq<nat>,
    rs: Seq<usize>,
    command: Seq<char>,
    max: nat,
    n: int,
)
    requires
        max > 0,
        fs.len() == cmds.len() + 1,
        maxes.len() == cmds.len(),
        rs.len() == cmds.len(),
        0 <= n <= cmds.len(),
        forall|c: Seq<char>| counter_of(fs[0].entries(), c) == 0,
        forall|i: int| 0 <= i < cmds.len() ==> next_index_step(#[trigger] fs[i], fs[i + 1], cmds[i], maxes[i], rs[i]),
        forall|i: int| 0 <= i < cmds.len() && #[trigger] cmds[i] == command ==> maxes[i] == max,
    ensures
        counter_of(fs[n].entries(), command) == calls_for(cmds.take(n), command) % max,
    decreases n,
{
    if n == 0 {
        assert(cmds.take(0) =~= Seq::<Seq<char>>::empty());
        assert(counter_of(fs[0].entries(), command) == 0);
    } else {
        let i = n - 1;
        lemma_counter_tracks_calls(fs, cmds, maxes, rs, command, max, i);
        assert(cmds.take(n).drop_last() =~= cmds.take(i));
        assert(cmds.take(n).last() == cmds[i]);
        assert(next_index_step(fs[i], fs[i + 1], cmds[i], maxes[i], rs[i]));
        let c = calls_for(cmds.take(i), command) as int;
        if cmds[i] == command {
            assert(maxes[i] == max);
            assert(calls_for(cmds.take(n), command) == c + 1);
            vstd::arithmetic::div_mod::lemma_add_mod_noop_right(1, c, max as int);
        } else {
            assert(calls_for(cmds.take(n), command) == c);
        }
    }
}

/// Round robin over successive calls: starting from counters where no command
/// has a position (as `new` makes them), the k-th call of `next_index` for a
/// command (k = 0, 1, ...) answers k mod max, whatever calls for other commands
/// come in between.
pub proof fn lemma_next_index_round_robin(
    fs: Seq<FileCounters>,
    cmds: Seq<Seq<char>>,
    maxes: Seq<nat>,
    rs: Seq<usize>,
    command: Seq<char>,
    max: nat,
)
    requires
        max > 0,
        fs.len() == cmds.len() + 1,
        maxes.len() == cmds.len(),
        rs.len() == cmds.len(),
        forall|c: Seq<char>| counter_of(fs[0].entries(), c) == 0,
        forall|i: int| 0 <= i < cmds.len() ==> next_index_step(#[trigger] fs[i], fs[i + 1], cmds[i], maxes[i], rs[i]),
        forall|i: int| 0 <= i < cmds.len() && #[trigger] cmds[i] == command ==> maxes[i] == max,
    ensures
        forall|i: int|
            0 <= i < cmds.len() && #[trigger] cmds[i] == command ==> rs[i] == calls_for(cmds.take(i), command) % max,
{
    assert forall|i: int| 0 <= i < cmds.len() && #[trigger] cmds[i] == command implies rs[i] == calls_for(
        cmds.take(i),
        command,
    ) % max by {
        lemma_counter_tracks_calls(fs, cmds, maxes, rs, command, max, i);
        assert(next_index_step(fs[i], fs[i + 1], cmds[i], maxes[i], rs[i]));
    }
}

proof fn lemma_calls_all_same(cmds: Seq<Seq<char>>, command: Seq<char>)
    requires
        forall|i: int| 0 <= i < cmds.len() ==> cmds[i] == command,
    ensures
        calls_for(cmds, command) == cmds.len(),
    decreases cmds.len(),
{
    if cmds.len() > 0 {
        lemma_calls_all_same(cmds.drop_last(), command);
    }
}

/// Round robin for one command: after `FileCounters::new`, successive calls of
/// `next_index(command, max)` answer 0, 1, ..., max - 1, 0, ...: the k-th call
/// (k = 0, 1, ...) answers k mod max. `fs[k]` are the counters before the k-th
/// call, `rs[k]` its answer; each call meets `next_index`'s contract.
pub proof fn lemma_next_index_cycles(fs: Seq<FileCounters>, rs: Seq<usize>, command: Seq<char>, max: nat)
    requires
        max > 0,
        fs.len() == rs.len() + 1,
        forall|c: Seq<char>| counter_of(fs[0].entries(), c) == 0,
        forall|k: int| 0 <= k < rs.len() ==> next_index_step(#[trigger] fs[k], fs[k + 1], command, max, rs[k]),
    ensures
        forall|k: int| 0 <= k < rs.len() ==> #[trigger] rs[k] == k % (max as int),
{
    let cmds = Seq::new(rs.len(), |i: int| command);
    let maxes = Seq::new(rs.len(), |i: int| max);
    assert forall|i: int| 0 <= i < cmds.len() implies next_index_step(#[trigger] fs[i], fs[i + 1], cmds[i], maxes[i], rs[i]) by {
        assert(next_index_step(fs[i], fs[i + 1], command, max, rs[i]));
    }
    lemma_next_index_round_robin(fs, cmds, maxes, rs, command, max);
    assert forall|k: int| 0 <= k < rs.len() implies #[trigger] rs[k] == k % (max as int) by {
        assert(cmds[k] == command);
        lemma_calls_all_same(cmds.take(k), command);
        assert(cmds.take(k).len() == k);
    }
}

/// The test-data subdirectory of a known command (empty for others).
pub open spec fn subdir_of(command: Seq<char>) -> Seq<char> {
    if command == "show maps json"@ {
        "show_maps_json"@
    } else if command == "show topology"@ {
        "show_topology"@
    } else if command == "list maps"@ {
        "list_maps"@
    } else if command == "show status"@ {
        "show_status"@
    } else if command == "show config"@ {
        "show_config"@
    } else {
        Seq::empty()
    }
}

/// Maps command names to their default subdirectories.
pub fn command_to_subdir(command: &str) -> (r: &'static str)
    ensures
        r@ == subdir_of(command@),
{
    if str_eq(command, "show maps json") {
        "show_maps_json"
    } else if str_eq(command, "show topology") {
        "show_topology"
    } else if str_eq(command, "list maps") {
        "list_maps"
    } else if str_eq(command, "show status") {
        "show_status"
    } else if str_eq(command, "show config") {
        "show_config"
    } else {
        proof {
            reveal_strlit("");
        }
        ""
    }
}

/// The default test file of a known command (empty for others).
pub open spec fn default_file_of(command: Seq<char>) -> Seq<char> {
    if command == "show maps json"@ {
        "all_active_running.json"@
    } else if command == "show topology"@ {
        "show_topology.txt"@
    } else if command == "list maps"@ {
        "list_maps.txt"@
    } else if command == "show status"@ {
        "show_status.txt"@
    } else if command == "show config"@ {
        "show_config.txt"@
    } else {
        Seq::empty()
    }
}

/// Returns the default filename for a command.
pub fn default_filename_for_command(command: &str) -> (r: &'static str)
    ensures
        r@ == default_file_of(command@),
{
    if str_eq(command, "show maps json") {
        "all_active_running.json"
    } else if str_eq(command, "show topology") {
        "show_topology.txt"
    } else if str_eq(command, "list maps") {
        "list_maps.txt"
    } else if str_eq(command, "show status") {
        "show_status.txt"
    } else if str_eq(command, "show config") {
        "show_config.txt"
    } else {
        proof {
            reveal_strlit("");
        }
        ""
    }
}

/// A file mapping `command=file1,file2`: the trimmed command and the trimmed
/// file names; none without '='.
pub open spec fn file_mapping(m: Seq<char>) -> Option<(Seq<char>, Seq<Seq<char>>)> {
    match split_once(m, '=') {
        Some((c, files)) => Some((trim(c), split_on(files, ',').map_values(|f: Seq<char>| trim(f)))),
        None => None,
    }
}

/// Reads a file mapping argument (see `file_mapping`).
pub fn parse_file_mapping(mapping: &str) -> (r: Option<(String, Vec<String>)>)
    ensures
        match r {
            Some(p) => file_mapping(mapping@) == Some((p.0@, strings_view(p.1@))),
            None => file_mapping(mapping@) is None,
        },
{
    let cs = chars_of(mapping);
    match split_once_exec(cs.as_slice(), '=') {
        Some((c, files)) => {
            let command = string_of(trim_chars(c.as_slice()).as_slice());
            let parts = split_chars(files.as_slice(), ',');
            let ghost pv = parts@.map_values(|p: Vec<char>| p@);
            let mut out: Vec<String> = Vec::new();
            let mut i: usize = 0;
            while i < parts.len()
                invariant
                    i <= parts.len(),
                    pv == parts@.map_values(|p: Vec<char>| p@),
                    strings_view(out@) == pv.take(i as int).map_values(|f: Seq<char>| trim(f)),
                decreases parts.len() - i,
            {
                let f = string_of(trim_chars(parts[i].as_slice()).as_slice());
                let ghost before = strings_view(out@);
                out.push(f);
                assert(strings_view(out@) =~= before.push(trim(pv[i as int])));
                assert(pv.take(i + 1).map_values(|f: Seq<char>| trim(f)) =~= pv.take(i as int).map_values(
                    |f: Seq<char>| trim(f),
                ).push(trim(pv[i as int])));
                i = i + 1;
            }
            assert(pv.take(parts.len() as int) =~= pv);
            Some((command, out))
        },
        None => None,
    }
}

/// Whether a socket path names the real multipathd socket (with or without the
/// leading '@' and '/'), which the mock must not take over.
pub open spec fn is_real_socket(path: Seq<char>) -> bool {
    let n = if path.len() > 0 && path[0] == '@' {
        path.drop_first()
    } else {
        path
    };
    n == "org/kernel/linux/storage/multipathd"@ || n == "/org/kernel/linux/storage/multipathd"@
}

/// Checks whether a socket path names the real multipathd socket.
pub fn is_real_multipathd_socket(path: &str) -> (r: bool)
    ensures
        r == is_real_socket(path@),
{
    let cs = chars_of(path);
    let start: usize = if cs.len() > 0 && cs[0] == '@' {
        1
    } else {
        0
    };
    let mut n: Vec<char> = Vec::new();
    let mut k: usize = start;
    while k < cs.len()
        invariant
            start <= k <= cs.len(),
            n@ == cs@.subrange(start as int, k as int),
        decreases cs.len() - k,
    {
        n.push(cs[k]);
        k = k + 1;
        assert(n@ =~= cs@.subrange(start as int, k as int));
    }
    assert(n@ =~= if path@.len() > 0 && path@[0] == '@' {
        path@.drop_first()
    } else {
        path@
    });
    let a = chars_of("org/kernel/linux/storage/multipathd");
    let b = chars_of("/org/kernel/linux/storage/multipathd");
    crate::text::chars_eq(n.as_slice(), a.as_slice()) || crate::text::chars_eq(n.as_slice(), b.as_slice())
}

/// The longest command the mock reads: 1 MiB.
pub open spec fn max_command_len() -> nat {
    1048576
}

/// The answer the mock gives when no file answers a command.
pub open spec fn unknown_command_reply() -> Seq<char> {
    "{\"error\": \"unknown command\"}"@
}

/// The files that answer each command (distinct commands, in a list).
pub open spec fn responses_view(v: Seq<(String, Vec<String>)>) -> Seq<(Seq<char>, Seq<Seq<char>>)> {
    v.map_values(|e: (String, Vec<String>)| (e.0@, strings_view(e.1@)))
}

pub open spec fn response_keys_unique(e: Seq<(Seq<char>, Seq<Seq<char>>)>) -> bool {
    forall|i: int, j: int| 0 <= i < e.len() && 0 <= j < e.len() && i != j ==> e[i].0 != e[j].0
}

pub open spec fn files_for(e: Seq<(Seq<char>, Seq<Seq<char>>)>, command: Seq<char>) -> Option<Seq<Seq<char>>> {
    if exists|i: int| 0 <= i < e.len() && e[i].0 == command {
        Some(e[choose|i: int| 0 <= i < e.len() && e[i].0 == command].1)
    } else {
        None
    }
}

fn find_files<'a>(responses: &'a Vec<(String, Vec<String>)>, command: &str) -> (r: Option<&'a Vec<String>>)
    requires
        response_keys_unique(responses_view(responses@)),
    ensures
        match r {
            Some(l) => files_for(responses_view(responses@), command@) == Some(strings_view(l@)),
            None => files_for(responses_view(responses@), command@) is None,
        },
{
    let ghost e = responses_view(responses@);
    let mut i: usize = 0;
    while i < responses.len()
        invariant
            i <= responses.len(),
            e == responses_view(responses@),
            response_keys_unique(e),
            forall|k: int| 0 <= k < i ==> e[k].0 != command@,
        decreases responses.len() - i,
    {
        if str_eq(responses[i].0.as_str(), command) {
            proof {
                assert(e[i as int].0 == command@);
                let c = choose|k: int| 0 <= k < e.len() && e[k].0 == command@;
                if c != i {
                    assert(e[c].0 != e[i as int].0);
                }
            }
            return Some(&responses[i].1);
        }
        i = i + 1;
    }
    None
}

/// The file of a list that answers now: the only one, or the next in turn.
fn pick_file(files: &Vec<String>, counters: &mut FileCounters, key: &str) -> (r: String)
    requires
        old(counters).wf(),
        files.len() > 0,
        counter_of(old(counters).entries(), key@) < files.len(),
    ensures
        final(counters).wf(),
        files.len() == 1 ==> r@ == files@[0]@ && final(counters).entries() == old(counters).entries(),
        files.len() > 1 ==> ({
            let i = counter_of(old(counters).entries(), key@);
            &&& r@ == files@[i as int]@
            &&& counter_of(final(counters).entries(), key@) == (i + 1) % (files.len() as int)
            &&& forall|c: Seq<char>| c != key@ ==> counter_of(final(counters).entries(), c) == counter_of(
                old(counters).entries(),
                c,
            )
        }),
{
    if files.len() == 1 {
        files[0].clone()
    } else {
        let index = counters.next_index(key, files.len());
        files[index].clone()
    }
}

/// The files that answer a command: its own, else those of `show maps json`.
pub open spec fn answering_files(e: Seq<(Seq<char>, Seq<Seq<char>>)>, command: Seq<char>) -> Option<(Seq<char>, Seq<Seq<char>>)> {
    match files_for(e, command) {
        Some(l) => Some((command, l)),
        None => match files_for(e, "show maps json"@) {
            Some(l) => Some(("show maps json"@, l)),
            None => None,
        },
    }
}

/// Every command has at least one file, and every position is within its list.
pub open spec fn responses_fit(e: Seq<(Seq<char>, Seq<Seq<char>>)>, counters: CounterEntries) -> bool {
    &&& response_keys_unique(e)
    &&& forall|i: int| 0 <= i < e.len() ==> (#[trigger] e[i]).1.len() > 0
    &&& forall|c: Seq<char>|
        counter_of(counters, c) == 0 || (files_for(e, c) matches Some(l) && #[trigger] counter_of(counters, c) < l.len())
}

/// The reply to a command: the file of its list (or of the `show maps json` list)
/// at its position, the position moving on round-robin when the list has more
/// than one file; the unknown-command reply when neither list exists.
pub fn pick_response(
    responses: &Vec<(String, Vec<String>)>,
    counters: &mut FileCounters,
    command: &str,
) -> (r: String)
    requires
        old(counters).wf(),
        responses_fit(responses_view(responses@), old(counters).entries()),
    ensures
        final(counters).wf(),
        responses_fit(responses_view(responses@), final(counters).entries()),
        match answering_files(responses_view(responses@), command@) {
            None => r@ == unknown_command_reply() && final(counters).entries() == old(counters).entries(),
            Some((key, files)) => if files.len() == 1 {
                r@ == files[0] && final(counters).entries() == old(counters).entries()
            } else {
                let i = counter_of(old(counters).entries(), key);
                &&& r@ == files[i as int]
                &&& counter_of(final(counters).entries(), key) == (i + 1) % (files.len() as int)
                &&& forall|c: Seq<char>| c != key ==> counter_of(final(counters).entries(), c) == counter_of(
                    old(counters).entries(),
                    c,
                )
            },
        },
{
    let ghost e = responses_view(responses@);
    let key: &str;
    let files: &Vec<String>;
    match find_files(responses, command) {
        Some(l) => {
            key = command;
            files = l;
        },
        None => {
            match find_files(responses, "show maps json") {
                Some(l) => {
                    key = "show maps json";
                    files = l;
                },
                None => {
                    proof {
                        reveal_strlit("{\"error\": \"unknown command\"}");
                    }
                    return "{\"error\": \"unknown command\"}".to_string();
                },
            }
        },
    }
    proof {
        let c = choose|k: int| 0 <= k < e.len() && e[k].0 == key@;
        assert(e[c].1.len() > 0);
        assert(files@.len() == strings_view(files@).len());
        if counter_of(old(counters).entries(), key@) != 0 {
            assert(files_for(e, key@) matches Some(l) && counter_of(old(counters).entries(), key@) < l.len());
        }
    }
    let r = pick_file(files, counters, key);
    proof {
        assert forall|c: Seq<char>|
            counter_of(counters.entries(), c) == 0 || (files_for(e, c) matches Some(l) && #[trigger] counter_of(
                counters.entries(),
                c,
            ) < l.len()) by {
            if c != key@ {
                if counter_of(old(counters).entries(), c) != 0 {
                    assert(files_for(e, c) matches Some(l) && counter_of(old(counters).entries(), c) < l.len());
                }
            } else if files@.len() > 1 {
                assert(counter_of(counters.entries(), c) < files@.len());
            }
        }
    }
    r
}

/// What `String::from_utf8_lossy` makes of bytes (invalid sequences become U+FFFD).
pub uninterp spec fn spec_utf8_lossy(bytes: Seq<u8>) -> Seq<char>;

/// Decodes bytes with `String::from_utf8_lossy`.
#[verifier::external_body]
fn utf8_lossy(bytes: &[u8]) -> (r: String)
    ensures
        r@ == spec_utf8_lossy(bytes@),
{
    String::from_utf8_lossy(bytes).into_owned()
}

/// The command bytes up to the first NUL (all of them when there is none).
pub open spec fn command_bytes(buf: Seq<u8>) -> Seq<u8> {
    match crate::protocol::first_nul(buf) {
        Some(i) => buf.take(i),
        None => buf,
    }
}

/// The command a client sent: its bytes up to the first NUL, decoded leniently.
pub fn decode_command(buf: &[u8]) -> (r: String)
    ensures
        r@ == spec_utf8_lossy(command_bytes(buf@)),
{
    let mut i: usize = 0;
    while i < buf.len()
        invariant
            i <= buf.len(),
            forall|j: int| 0 <= j < i ==> buf@[j] != 0,
        decreases buf.len() - i,
    {
        if buf[i] == 0 {
            proof {
                crate::protocol::lemma_first_nul(buf@, i as int);
            }
            let mut head: Vec<u8> = Vec::new();
            let mut k: usize = 0;
            while k < i
                invariant
                    k <= i < buf.len(),
                    head@ == buf@.take(k as int),
                decreases i - k,
            {
                head.push(buf[k]);
                k = k + 1;
                assert(head@ =~= buf@.take(k as int));
            }
            return utf8_lossy(head.as_slice());
        }
        i = i + 1;
    }
    proof {
        crate::protocol::lemma_no_nul(buf@);
    }
    utf8_lossy(buf)
}

/// Whether a command of that announced length is read (at most 1 MiB).
pub fn command_length_ok(len: usize) -> (r: bool)
    ensures
        r == (len <= max_command_len()),
{
    len <= 1048576
}

} // verus!
