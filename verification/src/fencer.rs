//! The fencing decision: which maps are watched, when a cycle counts as a
//! storage failure, and when enough consecutive failures demand a reboot.
use vstd::prelude::*;
use crate::reply::{parse_multipathd_response, response_maps};
use crate::multipath::{
    MapModel, MultipathMap, maps_view, map_dead, map_reports_missing, map_state, is_map_dead,
};
use crate::status::{
    IssueEntries, StatusLevel, StatusTracker, with_issue, without_issue, without_prefix,
};
use crate::text::{
    chars_of, chars_eq, concat, contains_char, debug_list, debug_strings, decimal, parts_contain,
    split_chars, split_on, str_eq, strings_contain, u64_to_decimal,
};

verus! {

/// The views of a list of strings.
pub open spec fn views(v: Seq<String>) -> Seq<Seq<char>> {
    v.map_values(|s: String| s@)
}

/// Whether an in-use LUN entry names the map. An entry with '+' names the members
/// of a volume group spanned over several maps.
pub open spec fn lun_covers(lun: Seq<char>, m: MapModel) -> bool {
    if lun.contains('+') {
        split_on(lun, '+').contains(m.name) || split_on(lun, '+').contains(m.uuid)
    } else {
        lun == m.name || lun == m.uuid
    }
}

pub open spec fn map_in_use(luns: Seq<Seq<char>>, m: MapModel) -> bool {
    exists|i: int| 0 <= i < luns.len() && lun_covers(#[trigger] luns[i], m)
}

/// With no target WWIDs every map is targeted; otherwise its uuid or name must be listed.
pub open spec fn map_targeted(targets: Seq<Seq<char>>, m: MapModel) -> bool {
    targets.len() == 0 || targets.contains(m.uuid) || targets.contains(m.name)
}

pub open spec fn watch_pred(luns: Seq<Seq<char>>, targets: Seq<Seq<char>>) -> spec_fn(MapModel) -> bool {
    |m: MapModel| map_in_use(luns, m) && map_targeted(targets, m)
}

/// The maps that are monitored: in use by a running VM and targeted, in report order.
pub open spec fn monitored(
    maps: Seq<MapModel>,
    luns: Seq<Seq<char>>,
    targets: Seq<Seq<char>>,
) -> Seq<MapModel> {
    maps.filter(watch_pred(luns, targets))
}

pub open spec fn matches_part(m: MapModel, part: Seq<char>) -> bool {
    m.name == part || m.uuid == part
}

/// The first monitored map named by `part` exists and is dead.
pub open spec fn part_failed(mon: Seq<MapModel>, part: Seq<char>) -> bool {
    exists|i: int|
        0 <= i < mon.len() && matches_part(#[trigger] mon[i], part) && (forall|j: int|
            0 <= j < i ==> !matches_part(#[trigger] mon[j], part)) && map_dead(mon[i])
}

/// An in-use entry has failed when (one of) the map(s) it names is dead.
pub open spec fn group_failed(mon: Seq<MapModel>, lun: Seq<char>) -> bool {
    if lun.contains('+') {
        exists|k: int|
            0 <= k < split_on(lun, '+').len() && part_failed(mon, #[trigger] split_on(lun, '+')[k])
    } else {
        part_failed(mon, lun)
    }
}

/// A cycle is a storage failure when a spanned group has failed, or when every
/// in-use entry has failed.
pub open spec fn fencing_condition(mon: Seq<MapModel>, luns: Seq<Seq<char>>) -> bool {
    ||| exists|i: int| 0 <= i < luns.len() && luns[i].contains('+') && group_failed(mon, #[trigger] luns[i])
    ||| forall|i: int| 0 <= i < luns.len() ==> group_failed(mon, #[trigger] luns[i])
}

/// `n + 1`, saturating at `u64::MAX`.
pub open spec fn sat_inc(n: u64) -> u64 {
    if n == u64::MAX {
        n
    } else {
        (n + 1) as u64
    }
}

pub type StateEntries = Seq<(Seq<char>, bool)>;

pub open spec fn state_keys_unique(e: StateEntries) -> bool {
    forall|i: int, j: int| 0 <= i < e.len() && 0 <= j < e.len() && i != j ==> e[i].0 != e[j].0
}

pub open spec fn state_has(e: StateEntries, k: Seq<char>) -> bool {
    exists|i: int| 0 <= i < e.len() && e[i].0 == k
}

pub open spec fn state_index(e: StateEntries, k: Seq<char>) -> int {
    choose|i: int| 0 <= i < e.len() && e[i].0 == k
}

/// Records the state of a map by name, replacing an earlier record of that name.
pub open spec fn upsert_state(e: StateEntries, k: Seq<char>, b: bool) -> StateEntries {
    if state_has(e, k) {
        e.update(state_index(e, k), (k, b))
    } else {
        e.push((k, b))
    }
}

/// The remembered map states after a cycle: one per monitored map name (the last
/// map of that name wins), in order of first appearance; nothing else is kept.
pub open spec fn states_after(mon: Seq<MapModel>) -> StateEntries
    decreases mon.len(),
{
    if mon.len() == 0 {
        StateEntries::empty()
    } else {
        upsert_state(states_after(mon.drop_last()), mon.last().name, map_dead(mon.last()))
    }
}

pub open spec fn missing_key(name: Seq<char>) -> Seq<char> {
    "missing_dm_st_"@ + name
}

pub open spec fn missing_message(name: Seq<char>) -> Seq<char> {
    "dm_st is missing for map '"@ + name + "'"@
}

/// The issues after the monitored maps are judged: a warning for each map whose
/// judgement met a missing `dm_st`.
pub open spec fn record_missing(e: IssueEntries, mon: Seq<MapModel>) -> IssueEntries
    decreases mon.len(),
{
    if mon.len() == 0 {
        e
    } else {
        let e1 = record_missing(e, mon.drop_last());
        let m = mon.last();
        if map_reports_missing(m) {
            with_issue(e1, missing_key(m.name), StatusLevel::Warning, missing_message(m.name))
        } else {
            e1
        }
    }
}

/// "name (uuid)" of each dead monitored map.
pub open spec fn dead_labels(mon: Seq<MapModel>) -> Seq<Seq<char>> {
    mon.filter(|m: MapModel| map_dead(m)).map_values(
        |m: MapModel| m.name + " ("@ + m.uuid + ")"@,
    )
}

pub open spec fn decision_message(
    mon: Seq<MapModel>,
    luns: Seq<Seq<char>>,
    targets: Seq<Seq<char>>,
) -> Seq<char> {
    "DECISION: Rebooting node because monitored multipath maps in use by running VMs have failed. Failed monitored maps: "@
        + debug_list(dead_labels(mon), "["@, "]"@) + ". Active LUNs: "@ + debug_list(luns, "{"@, "}"@)
        + ". Target WWIDs: "@ + debug_list(targets, "{"@, "}"@) + "."@
}

pub open spec fn failure_message(cf: u64, mf: u64) -> Seq<char> {
    "Consecutive storage failure: "@ + decimal(cf as nat) + "/"@ + decimal(mf as nat)
}

/// The "fencing" issue after a cycle with monitored maps.
pub open spec fn fencing_entries(
    e: IssueEntries,
    mon: Seq<MapModel>,
    luns: Seq<Seq<char>>,
    targets: Seq<Seq<char>>,
    cf: u64,
    mf: u64,
    failed: bool,
) -> IssueEntries {
    if mon.len() == 0 {
        e
    } else if failed {
        if cf >= mf {
            with_issue(
                e,
                "fencing"@,
                StatusLevel::Critical,
                "Fencing decision reached: "@ + decision_message(mon, luns, targets),
            )
        } else {
            with_issue(e, "fencing"@, StatusLevel::Warning, failure_message(cf, mf))
        }
    } else {
        without_issue(e, "fencing"@)
    }
}

} // verus!

verus! {

/// An in-use entry, split up once for the whole cycle.
struct LunInfo {
    chars: Vec<char>,
    spanned: bool,
    parts: Vec<Vec<char>>,
}

spec fn lun_info_ok(li: LunInfo, lun: Seq<char>) -> bool {
    &&& li.chars@ == lun
    &&& li.spanned == lun.contains('+')
    &&& li.parts@.map_values(|p: Vec<char>| p@) == split_on(lun, '+')
}

fn lun_infos(active: &[String]) -> (r: Vec<LunInfo>)
    ensures
        r.len() == active.len(),
        forall|i: int| 0 <= i < r.len() ==> lun_info_ok(#[trigger] r@[i], active@[i]@),
{
    let mut r: Vec<LunInfo> = Vec::new();
    let mut i: usize = 0;
    while i < active.len()
        invariant
            i <= active.len(),
            r.len() == i,
            forall|k: int| 0 <= k < i ==> lun_info_ok(#[trigger] r@[k], active@[k]@),
        decreases active.len() - i,
    {
        let chars = chars_of(active[i].as_str());
        let spanned = contains_char(chars.as_slice(), '+');
        let parts = split_chars(chars.as_slice(), '+');
        r.push(LunInfo { chars, spanned, parts });
        i = i + 1;
    }
    r
}

fn covers(li: &LunInfo, m: &MultipathMap, name: &[char], uuid: &[char]) -> (r: bool)
    requires
        name@ == m.name@,
        uuid@ == m.uuid@,
        lun_info_ok(*li, li.chars@),
    ensures
        r == lun_covers(li.chars@, m@),
{
    if li.spanned {
        parts_contain(&li.parts, name) || parts_contain(&li.parts, uuid)
    } else {
        chars_eq(li.chars.as_slice(), name) || chars_eq(li.chars.as_slice(), uuid)
    }
}

fn in_use(infos: &Vec<LunInfo>, active: &[String], m: &MultipathMap, name: &[char], uuid: &[char]) -> (r: bool)
    requires
        name@ == m.name@,
        uuid@ == m.uuid@,
        infos.len() == active.len(),
        forall|i: int| 0 <= i < infos.len() ==> lun_info_ok(#[trigger] infos@[i], active@[i]@),
    ensures
        r == map_in_use(views(active@), m@),
{
    let ghost luns = views(active@);
    let mut i: usize = 0;
    while i < infos.len()
        invariant
            i <= infos.len(),
            name@ == m.name@,
            uuid@ == m.uuid@,
            infos.len() == active.len(),
            luns == views(active@),
            forall|k: int| 0 <= k < infos.len() ==> lun_info_ok(#[trigger] infos@[k], active@[k]@),
            forall|k: int| 0 <= k < i ==> !lun_covers(#[trigger] luns[k], m@),
        decreases infos.len() - i,
    {
        assert(lun_info_ok(infos@[i as int], active@[i as int]@));
        if covers(&infos[i], m, name, uuid) {
            assert(lun_covers(luns[i as int], m@));
            return true;
        }
        i = i + 1;
    }
    false
}

fn targeted(targets: &[String], m: &MultipathMap) -> (r: bool)
    ensures
        r == map_targeted(views(targets@), m@),
{
    targets.len() == 0 || strings_contain(targets, m.uuid.as_str()) || strings_contain(
        targets,
        m.name.as_str(),
    )
}

/// The monitored maps, as indices into `maps`.
pub(crate) fn monitored_indices(maps: &[MultipathMap], active: &[String], targets: &[String]) -> (r: Vec<usize>)
    ensures
        forall|k: int| 0 <= k < r.len() ==> r@[k] < maps.len(),
        r@.map_values(|i: usize| maps@[i as int]@) == monitored(maps_view(maps@), views(active@), views(targets@)),
{
    let infos = lun_infos(active);
    let ghost pred = watch_pred(views(active@), views(targets@));
    let mut r: Vec<usize> = Vec::new();
    let mut i: usize = 0;
    while i < maps.len()
        invariant
            i <= maps.len(),
            infos.len() == active.len(),
            forall|k: int| 0 <= k < infos.len() ==> lun_info_ok(#[trigger] infos@[k], active@[k]@),
            pred == watch_pred(views(active@), views(targets@)),
            forall|k: int| 0 <= k < r.len() ==> r@[k] < maps.len(),
            r@.map_values(|j: usize| maps@[j as int]@) == maps_view(maps@).take(i as int).filter(pred),
        decreases maps.len() - i,
    {
        proof {
            let mv = maps_view(maps@);
            assert(mv.take(i + 1) =~= mv.take(i as int).push(maps@[i as int]@));
            mv.take(i as int).lemma_filter_push(maps@[i as int]@, pred);
        }
        let m = &maps[i];
        let name = chars_of(m.name.as_str());
        let uuid = chars_of(m.uuid.as_str());
        let used = in_use(&infos, active, m, name.as_slice(), uuid.as_slice());
        let tgt = targeted(targets, m);
        let ghost before = r@;
        if used && tgt {
            r.push(i);
            assert(r@.map_values(|j: usize| maps@[j as int]@) =~= before.map_values(
                |j: usize| maps@[j as int]@,
            ).push(maps@[i as int]@));
        }
        i = i + 1;
    }
    assert(maps_view(maps@).take(maps.len() as int) =~= maps_view(maps@));
    r
}

pub(crate) open spec fn mon_of(maps: Seq<MultipathMap>, idx: Seq<usize>) -> Seq<MapModel> {
    idx.map_values(|i: usize| maps[i as int]@)
}

fn part_failed_exec(maps: &[MultipathMap], idx: &Vec<usize>, part: &[char]) -> (r: bool)
    requires
        forall|k: int| 0 <= k < idx.len() ==> idx@[k] < maps.len(),
    ensures
        r == part_failed(mon_of(maps@, idx@), part@),
{
    let ghost mon = mon_of(maps@, idx@);
    let mut j: usize = 0;
    while j < idx.len()
        invariant
            j <= idx.len(),
            mon == mon_of(maps@, idx@),
            forall|k: int| 0 <= k < idx.len() ==> idx@[k] < maps.len(),
            forall|k: int| 0 <= k < j ==> !matches_part(#[trigger] mon[k], part@),
        decreases idx.len() - j,
    {
        let m = &maps[idx[j]];
        assert(mon[j as int] == m@);
        let name = chars_of(m.name.as_str());
        let uuid = chars_of(m.uuid.as_str());
        if chars_eq(name.as_slice(), part) || chars_eq(uuid.as_slice(), part) {
            let d = is_map_dead(m);
            proof {
                assert(matches_part(mon[j as int], part@));
                if !d {
                    assert forall|i: int|
                        0 <= i < mon.len() && matches_part(#[trigger] mon[i], part@) && (forall|l: int|
                            0 <= l < i ==> !matches_part(#[trigger] mon[l], part@)) implies !map_dead(mon[i]) by {
                        if i < j {
                        } else if i > j {
                            assert(matches_part(mon[j as int], part@));
                        }
                    }
                }
            }
            return d;
        }
        j = j + 1;
    }
    false
}

fn group_failed_exec(maps: &[MultipathMap], idx: &Vec<usize>, li: &LunInfo) -> (r: bool)
    requires
        forall|k: int| 0 <= k < idx.len() ==> idx@[k] < maps.len(),
        lun_info_ok(*li, li.chars@),
    ensures
        r == group_failed(mon_of(maps@, idx@), li.chars@),
{
    if li.spanned {
        let ghost parts = split_on(li.chars@, '+');
        let mut k: usize = 0;
        while k < li.parts.len()
            invariant
                k <= li.parts.len(),
                forall|q: int| 0 <= q < idx.len() ==> idx@[q] < maps.len(),
                parts == li.parts@.map_values(|p: Vec<char>| p@),
                parts == split_on(li.chars@, '+'),
                lun_info_ok(*li, li.chars@),
                li.spanned,
                forall|q: int| 0 <= q < k ==> !part_failed(mon_of(maps@, idx@), #[trigger] parts[q]),
            decreases li.parts.len() - k,
        {
            if part_failed_exec(maps, idx, li.parts[k].as_slice()) {
                assert(part_failed(mon_of(maps@, idx@), parts[k as int]));
                return true;
            }
            k = k + 1;
        }
        false
    } else {
        part_failed_exec(maps, idx, li.chars.as_slice())
    }
}

/// Stateful fencer to evaluate storage path states across cycles
pub struct Fencer {
    /// Consecutive cycles that met the fencing condition.
    pub consecutive_failures: u64,
    max_failures: u64,
    target_wwids: Vec<String>,
    previous_map_states: Vec<(String, bool)>,
}

/// What one cycle over `maps` does to a fencer: the remembered states become those
/// of the monitored maps; the failure count resets when nothing is monitored or the
/// fencing condition does not hold, and otherwise grows by one (saturating); fencing
/// is decided exactly when the grown count reaches the maximum.
pub open spec fn cycle_outcome(
    before: Fencer,
    after: Fencer,
    maps: Seq<MapModel>,
    luns: Seq<Seq<char>>,
    r: bool,
) -> bool {
    let mon = monitored(maps, luns, before.targets());
    let failed = fencing_condition(mon, luns);
    &&& after.wf()
    &&& after.max() == before.max()
    &&& after.targets() == before.targets()
    &&& after.states() == states_after(mon)
    &&& if mon.len() == 0 {
        after.failures() == 0 && !r
    } else if failed {
        after.failures() == sat_inc(before.failures()) && r == (sat_inc(before.failures()) >= before.max())
    } else {
        after.failures() == 0 && !r
    }
}

impl Fencer {
    /// The current count of consecutive failed cycles.
    pub closed spec fn failures(&self) -> u64 {
        self.consecutive_failures
    }

    /// The failure count at which fencing is decided.
    pub closed spec fn max(&self) -> u64 {
        self.max_failures
    }

    /// The targeted WWIDs (empty: all maps in use are targeted).
    pub closed spec fn targets(&self) -> Seq<Seq<char>> {
        views(self.target_wwids@)
    }

    /// The remembered state (dead or not) of each monitored map, by name.
    pub closed spec fn states(&self) -> StateEntries {
        self.previous_map_states@.map_values(|p: (String, bool)| (p.0@, p.1))
    }

    pub open spec fn wf(&self) -> bool {
        state_keys_unique(self.states())
    }

    /// Creates a new Fencer
    pub fn new(max_failures: u64, target_wwids: Vec<String>) -> (r: Self)
        ensures
            r.wf(),
            r.failures() == 0,
            r.max() == max_failures,
            r.targets() == views(target_wwids@),
            r.states() == StateEntries::empty(),
    {
        let r = Fencer {
            consecutive_failures: 0,
            max_failures,
            target_wwids,
            previous_map_states: Vec::new(),
        };
        assert(r.states() =~= StateEntries::empty());
        r
    }

    /// Returns the number of consecutive failures.
    pub fn consecutive_failures(&self) -> (r: u64)
        ensures
            r == self.failures(),
    {
        self.consecutive_failures
    }

    /// Returns the maximum allowed consecutive failures.
    pub fn max_failures(&self) -> (r: u64)
        ensures
            r == self.max(),
    {
        self.max_failures
    }

    /// The remembered state of the map of that name (true: all paths dead).
    pub fn previous_map_state(&self, name: &str) -> (r: Option<bool>)
        requires
            self.wf(),
        ensures
            r == (if state_has(self.states(), name@) {
                Some(self.states()[state_index(self.states(), name@)].1)
            } else {
                None
            }),
    {
        match find_state(&self.previous_map_states, name) {
            Some(i) => Some(self.previous_map_states[i].1),
            None => None,
        }
    }
}

fn find_state(v: &Vec<(String, bool)>, name: &str) -> (r: Option<usize>)
    requires
        state_keys_unique(v@.map_values(|p: (String, bool)| (p.0@, p.1))),
    ensures
        ({
            let e = v@.map_values(|p: (String, bool)| (p.0@, p.1));
            match r {
                Some(i) => i < e.len() && state_has(e, name@) && state_index(e, name@) == i,
                None => !state_has(e, name@),
            }
        }),
{
    let ghost e = v@.map_values(|p: (String, bool)| (p.0@, p.1));
    let mut i: usize = 0;
    while i < v.len()
        invariant
            i <= v.len(),
            e == v@.map_values(|p: (String, bool)| (p.0@, p.1)),
            state_keys_unique(e),
            forall|k: int| 0 <= k < i ==> e[k].0 != name@,
        decreases v.len() - i,
    {
        if str_eq(v[i].0.as_str(), name) {
            proof {
                assert(e[i as int].0 == name@);
                assert(state_has(e, name@));
                let j = state_index(e, name@);
                if j != i {
                    assert(e[j].0 != e[i as int].0);
                }
            }
            return Some(i);
        }
        i = i + 1;
    }
    None
}


fn upsert(v: &mut Vec<(String, bool)>, name: String, dead: bool)
    requires
        state_keys_unique(old(v)@.map_values(|p: (String, bool)| (p.0@, p.1))),
    ensures
        state_keys_unique(final(v)@.map_values(|p: (String, bool)| (p.0@, p.1))),
        final(v)@.map_values(|p: (String, bool)| (p.0@, p.1)) == upsert_state(
            old(v)@.map_values(|p: (String, bool)| (p.0@, p.1)),
            name@,
            dead,
        ),
{
    let ghost e = v@.map_values(|p: (String, bool)| (p.0@, p.1));
    match find_state(v, name.as_str()) {
        Some(i) => {
            let ghost nm = name@;
            v.set(i, (name, dead));
            assert(v@.map_values(|p: (String, bool)| (p.0@, p.1)) =~= e.update(i as int, (nm, dead)));
        },
        None => {
            let ghost nm = name@;
            v.push((name, dead));
            assert(v@.map_values(|p: (String, bool)| (p.0@, p.1)) =~= e.push((nm, dead)));
        },
    }
}

fn dead_labels_exec(maps: &[MultipathMap], idx: &Vec<usize>) -> (r: Vec<String>)
    requires
        forall|k: int| 0 <= k < idx.len() ==> idx@[k] < maps.len(),
    ensures
        views(r@) == dead_labels(mon_of(maps@, idx@)),
{
    let ghost mon = mon_of(maps@, idx@);
    let ghost pred = |m: MapModel| map_dead(m);
    let ghost lab = |m: MapModel| m.name + " ("@ + m.uuid + ")"@;
    let mut r: Vec<String> = Vec::new();
    let mut j: usize = 0;
    while j < idx.len()
        invariant
            j <= idx.len(),
            mon == mon_of(maps@, idx@),
            forall|k: int| 0 <= k < idx.len() ==> idx@[k] < maps.len(),
            pred == (|m: MapModel| map_dead(m)),
            lab == (|m: MapModel| m.name + " ("@ + m.uuid + ")"@),
            views(r@) == mon.take(j as int).filter(pred).map_values(lab),
        decreases idx.len() - j,
    {
        proof {
            assert(mon.take(j + 1) =~= mon.take(j as int).push(mon[j as int]));
            mon.take(j as int).lemma_filter_push(mon[j as int], pred);
        }
        let m = &maps[idx[j]];
        assert(mon[j as int] == m@);
        if is_map_dead(m) {
            let a = concat(m.name.as_str(), " (");
            let b = concat(a.as_str(), m.uuid.as_str());
            let c = concat(b.as_str(), ")");
            let ghost before = r@;
            r.push(c);
            assert(views(r@) =~= views(before).push(c@));
        }
        j = j + 1;
    }
    assert(mon.take(idx.len() as int) =~= mon);
    r
}

impl Fencer {
    /// Evaluates the current state of multipath maps against the in-use LUN entries,
    /// recording on the status tracker what the cycle found. Returns true if fencing
    /// should be triggered.
    pub fn update_with_maps_tracked(
        &mut self,
        maps: &[MultipathMap],
        active_luns: &[String],
        status: &mut StatusTracker,
    ) -> (r: bool)
        requires
            old(status).wf(),
        ensures
            cycle_outcome(*old(self), *final(self), maps_view(maps@), views(active_luns@), r),
            ({
                let mon = monitored(maps_view(maps@), views(active_luns@), old(self).targets());
                let failed = fencing_condition(mon, views(active_luns@));
                &&& final(status).wf()
                &&& final(status).file() == old(status).file()
                &&& final(status).entries() == fencing_entries(
                    record_missing(without_prefix(old(status).entries(), "missing_dm_st_"@), mon),
                    mon,
                    views(active_luns@),
                    old(self).targets(),
                    final(self).failures(),
                    old(self).max(),
                    failed,
                )
            }),
    {
        let ghost e0 = without_prefix(old(status).entries(), "missing_dm_st_"@);
        status.clear_issues_with_prefix("missing_dm_st_");
        let idx = monitored_indices(maps, active_luns, self.target_wwids.as_slice());
        let ghost mon = mon_of(maps@, idx@);
        let ghost luns = views(active_luns@);
        let mut states: Vec<(String, bool)> = Vec::new();
        let mut j: usize = 0;
        assert(mon.take(0) =~= Seq::<MapModel>::empty());
        assert(states@.map_values(|p: (String, bool)| (p.0@, p.1)) =~= StateEntries::empty());
        while j < idx.len()
            invariant
                j <= idx.len(),
                mon == mon_of(maps@, idx@),
                forall|k: int| 0 <= k < idx.len() ==> idx@[k] < maps.len(),
                status.wf(),
                status.file() == old(status).file(),
                status.entries() == record_missing(e0, mon.take(j as int)),
                state_keys_unique(states@.map_values(|p: (String, bool)| (p.0@, p.1))),
                states@.map_values(|p: (String, bool)| (p.0@, p.1)) == states_after(mon.take(j as int)),
            decreases idx.len() - j,
        {
            let m = &maps[idx[j]];
            assert(mon[j as int] == m@);
            assert(mon.take(j + 1).drop_last() =~= mon.take(j as int));
            assert(mon.take(j + 1).last() == m@);
            let (dead, missing) = map_state(m);
            if missing {
                let key = concat("missing_dm_st_", m.name.as_str());
                let a = concat("dm_st is missing for map '", m.name.as_str());
                let msg = concat(a.as_str(), "'");
                status.set_issue(key.as_str(), StatusLevel::Warning, msg);
            }
            upsert(&mut states, m.name.clone(), dead);
            j = j + 1;
        }
        assert(mon.take(idx.len() as int) =~= mon);
        self.previous_map_states = states;
        if idx.len() == 0 {
            self.consecutive_failures = 0;
            return false;
        }
        let infos = lun_infos(active_luns);
        let mut spanned_failed = false;
        let mut all_failed = true;
        let mut i: usize = 0;
        while i < infos.len()
            invariant
                i <= infos.len(),
                infos.len() == active_luns.len(),
                luns == views(active_luns@),
                mon == mon_of(maps@, idx@),
                forall|k: int| 0 <= k < idx.len() ==> idx@[k] < maps.len(),
                forall|k: int| 0 <= k < infos.len() ==> lun_info_ok(#[trigger] infos@[k], active_luns@[k]@),
                spanned_failed == exists|k: int|
                    0 <= k < i && luns[k].contains('+') && group_failed(mon, #[trigger] luns[k]),
                all_failed == forall|k: int| 0 <= k < i ==> group_failed(mon, #[trigger] luns[k]),
            decreases infos.len() - i,
        {
            assert(lun_info_ok(infos@[i as int], active_luns@[i as int]@));
            assert(infos@[i as int].chars@ == luns[i as int]);
            let g = group_failed_exec(maps, &idx, &infos[i]);
            if infos[i].spanned && g {
                spanned_failed = true;
            }
            if !g {
                all_failed = false;
            }
            i = i + 1;
        }
        let failed = spanned_failed || all_failed;
        assert(failed == fencing_condition(mon, luns));
        if failed {
            if self.consecutive_failures < u64::MAX {
                self.consecutive_failures = self.consecutive_failures + 1;
            }
            if self.consecutive_failures >= self.max_failures {
                let labels = dead_labels_exec(maps, &idx);
                let d1 = debug_strings(labels.as_slice(), "[", "]");
                let d2 = debug_strings(active_luns, "{", "}");
                let d3 = debug_strings(self.target_wwids.as_slice(), "{", "}");
                let s1 = concat(
                    "DECISION: Rebooting node because monitored multipath maps in use by running VMs have failed. Failed monitored maps: ",
                    d1.as_str(),
                );
                let s2 = concat(s1.as_str(), ". Active LUNs: ");
                let s3 = concat(s2.as_str(), d2.as_str());
                let s4 = concat(s3.as_str(), ". Target WWIDs: ");
                let s5 = concat(s4.as_str(), d3.as_str());
                let s6 = concat(s5.as_str(), ".");
                let msg = concat("Fencing decision reached: ", s6.as_str());
                status.set_issue("fencing", StatusLevel::Critical, msg);
                return true;
            } else {
                let c = u64_to_decimal(self.consecutive_failures);
                let mx = u64_to_decimal(self.max_failures);
                let a = concat("Consecutive storage failure: ", c.as_str());
                let b = concat(a.as_str(), "/");
                let msg = concat(b.as_str(), mx.as_str());
                status.set_issue("fencing", StatusLevel::Warning, msg);
            }
        } else {
            self.consecutive_failures = 0;
            status.clear_issue("fencing");
        }
        false
    }

    /// Evaluates the current state of multipath maps against the active LUN set.
    /// Returns true if fencing should be triggered.
    pub fn update_with_maps(&mut self, maps: &[MultipathMap], active_luns: &[String]) -> (r: bool)
        ensures
            cycle_outcome(*old(self), *final(self), maps_view(maps@), views(active_luns@), r),
    {
        let mut status = StatusTracker::new();
        self.update_with_maps_tracked(maps, active_luns, &mut status)
    }

    /// Parses a `show maps json` reply and evaluates it as `update_with_maps` does,
    /// recording on the status tracker what the cycle found. A reply that cannot be
    /// read leaves the fencer and the tracker as they were and returns false.
    pub fn update_tracked(
        &mut self,
        response_json: &str,
        active_luns: &[String],
        status: &mut StatusTracker,
    ) -> (r: bool)
        requires
            old(status).wf(),
        ensures
            final(status).wf(),
            final(status).file() == old(status).file(),
            match response_maps(response_json) {
                None => !r && *final(self) == *old(self) && final(status).entries() == old(status).entries(),
                Some(ms) => cycle_outcome(*old(self), *final(self), ms, views(active_luns@), r),
            },
    {
        match parse_multipathd_response(response_json) {
            Some(maps) => self.update_with_maps_tracked(maps.as_slice(), active_luns, status),
            None => false,
        }
    }

    /// Evaluates the current state of multipath maps against the active LUN set by
    /// parsing a JSON response. Returns true if fencing should be triggered; a reply
    /// that cannot be read changes nothing and returns false.
    pub fn update(&mut self, response_json: &str, active_luns: &[String]) -> (r: bool)
        ensures
            match response_maps(response_json) {
                None => !r && *final(self) == *old(self),
                Some(ms) => cycle_outcome(*old(self), *final(self), ms, views(active_luns@), r),
            },
    {
        let mut status = StatusTracker::new();
        self.update_tracked(response_json, active_luns, &mut status)
    }
}

} // verus!

verus! {

/// Whether a cycle over those maps counts as a storage failure for the fencer:
/// some map is monitored and the fencing condition holds.
pub open spec fn cycle_fails(f: Fencer, maps: Seq<MapModel>, luns: Seq<Seq<char>>) -> bool {
    let mon = monitored(maps, luns, f.targets());
    mon.len() > 0 && fencing_condition(mon, luns)
}

/// Consecutive failing cycles: starting from no failures, after `i` failing cycles
/// the count is `i`, and the `i`-th cycle decides to fence exactly when `i` has
/// reached the maximum.
pub proof fn lemma_consecutive_failures(
    fs: Seq<Fencer>,
    maps: Seq<Seq<MapModel>>,
    luns: Seq<Seq<Seq<char>>>,
    rs: Seq<bool>,
)
    requires
        fs.len() == maps.len() + 1,
        luns.len() == maps.len(),
        rs.len() == maps.len(),
        maps.len() <= u64::MAX,
        fs[0].failures() == 0,
        forall|i: int| 0 <= i < maps.len() ==> cycle_outcome(#[trigger] fs[i], fs[i + 1], maps[i], luns[i], rs[i]),
        forall|i: int| 0 <= i < maps.len() ==> cycle_fails(#[trigger] fs[i], maps[i], luns[i]),
    ensures
        forall|i: int| 0 <= i <= maps.len() ==> (#[trigger] fs[i]).failures() == i && fs[i].max() == fs[0].max(),
        forall|i: int| 0 <= i < maps.len() ==> #[trigger] rs[i] == (i + 1 >= fs[0].max()),
    decreases maps.len(),
{
    let n = maps.len();
    if n > 0 {
        let k = (n - 1) as int;
        lemma_consecutive_failures(fs.take(n as int), maps.take(k), luns.take(k), rs.take(k));
        assert(fs.take(n as int)[k] == fs[k]);
        assert(fs[k].failures() == k);
        assert(cycle_outcome(fs[k], fs[k + 1], maps[k], luns[k], rs[k]));
        assert(cycle_fails(fs[k], maps[k], luns[k]));
        assert forall|i: int| 0 <= i <= maps.len() implies (#[trigger] fs[i]).failures() == i && fs[i].max() == fs[0].max() by {
            if i < n {
                assert(fs.take(n as int)[i] == fs[i]);
            }
        }
        assert forall|i: int| 0 <= i < maps.len() implies #[trigger] rs[i] == (i + 1 >= fs[0].max()) by {
            if i < k {
                assert(rs.take(k)[i] == rs[i]);
            }
        }
    }
}

/// A cycle that is not a failure resets the count and never fences.
pub proof fn lemma_healthy_cycle_resets(f0: Fencer, f1: Fencer, maps: Seq<MapModel>, luns: Seq<Seq<char>>, r: bool)
    requires
        cycle_outcome(f0, f1, maps, luns, r),
        !cycle_fails(f0, maps, luns),
    ensures
        f1.failures() == 0,
        !r,
{
}

/// Maps that are not watched do not count: adding to a report a map that no
/// running VM uses (or that is not targeted) changes neither the fencing
/// decision, nor the failure count, nor the remembered map states.
pub proof fn lemma_unwatched_map_ignored(
    f0: Fencer,
    f1: Fencer,
    g1: Fencer,
    before: Seq<MapModel>,
    m: MapModel,
    after: Seq<MapModel>,
    luns: Seq<Seq<char>>,
    r1: bool,
    r2: bool,
)
    requires
        !map_in_use(luns, m) || !map_targeted(f0.targets(), m),
        cycle_outcome(f0, f1, before + after, luns, r1),
        cycle_outcome(f0, g1, before + seq![m] + after, luns, r2),
    ensures
        r1 == r2,
        f1.failures() == g1.failures(),
        f1.states() == g1.states(),
{
    let pred = watch_pred(luns, f0.targets());
    Seq::filter_distributes_over_add(before + seq![m], after, pred);
    Seq::filter_distributes_over_add(before, seq![m], pred);
    Seq::filter_distributes_over_add(before, after, pred);
    Seq::<MapModel>::empty().lemma_filter_push(m, pred);
    assert(Seq::<MapModel>::empty().push(m) =~= seq![m]);
    assert(Seq::<MapModel>::empty().filter(pred) =~= Seq::<MapModel>::empty());
    assert(monitored(before + seq![m] + after, luns, f0.targets()) =~= monitored(before + after, luns, f0.targets()));
}

} // verus!
