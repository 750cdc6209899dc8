//! Multipath maps as multipathd reports them, and the judgement of whether a map
//! has lost all of its paths.
use vstd::prelude::*;
use crate::text::{chars_of, str_eq, concat};

verus! {

/// One path of a path group.
#[derive(Debug, Clone)]
pub struct MpathPath {
    /// The device-mapper state of the path (e.g. "active", "failed").
    pub dm_st: Option<String>,
}

/// A path group of a multipath map.
#[derive(Debug, Clone)]
pub struct PathGroup {
    /// The device-mapper state of the group (e.g. "active", "enabled", "offline").
    pub dm_st: Option<String>,
    /// The paths of the group.
    pub paths: Option<Vec<MpathPath>>,
}

/// A multipath map as listed by `show maps json`.
#[derive(Debug, Clone)]
pub struct MultipathMap {
    pub name: String,
    pub uuid: String,
    pub path_groups: Option<Vec<PathGroup>>,
    pub vend: Option<String>,
    pub prod: Option<String>,
}

/// The top-level object of multipathd's `show maps json` reply.
#[derive(Debug, Clone)]
pub struct MultipathOutput {
    pub major_version: Option<u32>,
    pub minor_version: Option<u32>,
    pub maps: Option<Vec<MultipathMap>>,
}

/// The model of a path: its state.
pub struct PathModel {
    pub dm_st: Option<Seq<char>>,
}

/// The model of a path group.
pub struct GroupModel {
    pub dm_st: Option<Seq<char>>,
    pub paths: Option<Seq<PathModel>>,
}

/// The model of a multipath map.
pub struct MapModel {
    pub name: Seq<char>,
    pub uuid: Seq<char>,
    pub path_groups: Option<Seq<GroupModel>>,
    pub vend: Option<Seq<char>>,
    pub prod: Option<Seq<char>>,
}

/// The model of a `show maps json` reply.
pub struct OutputModel {
    pub major_version: Option<u32>,
    pub minor_version: Option<u32>,
    pub maps: Option<Seq<MapModel>>,
}

pub open spec fn opt_str_view(o: Option<String>) -> Option<Seq<char>> {
    match o {
        Some(s) => Some(s@),
        None => None,
    }
}

/// The models of a list of paths.
pub open spec fn paths_view(ps: Seq<MpathPath>) -> Seq<PathModel> {
    ps.map_values(|p: MpathPath| p@)
}

/// The models of a list of path groups.
pub open spec fn groups_view(gs: Seq<PathGroup>) -> Seq<GroupModel> {
    gs.map_values(|g: PathGroup| g@)
}

impl View for MpathPath {
    type V = PathModel;

    open spec fn view(&self) -> PathModel {
        PathModel { dm_st: opt_str_view(self.dm_st) }
    }
}

impl View for PathGroup {
    type V = GroupModel;

    open spec fn view(&self) -> GroupModel {
        GroupModel {
            dm_st: opt_str_view(self.dm_st),
            paths: match self.paths {
                Some(ps) => Some(paths_view(ps@)),
                None => None,
            },
        }
    }
}

impl View for MultipathMap {
    type V = MapModel;

    open spec fn view(&self) -> MapModel {
        MapModel {
            name: self.name@,
            uuid: self.uuid@,
            path_groups: match self.path_groups {
                Some(gs) => Some(groups_view(gs@)),
                None => None,
            },
            vend: opt_str_view(self.vend),
            prod: opt_str_view(self.prod),
        }
    }
}

/// The models of a list of maps.
pub open spec fn maps_view(maps: Seq<MultipathMap>) -> Seq<MapModel> {
    maps.map_values(|m: MultipathMap| m@)
}

/// A path counts as active unless its state is "failed", "faulty", "offline" or
/// "ghost"; a path without a state counts as active (fencing on missing data is
/// unsafe).
pub open spec fn path_is_active(p: PathModel) -> bool {
    match p.dm_st {
        Some(s) => s != "failed"@ && s != "faulty"@ && s != "offline"@ && s != "ghost"@,
        None => true,
    }
}

/// A path group is usable unless its state is "offline" or "failed"; a group
/// without a state counts as usable.
pub open spec fn group_usable(g: GroupModel) -> bool {
    match g.dm_st {
        Some(s) => s != "offline"@ && s != "failed"@,
        None => true,
    }
}

pub open spec fn group_has_active_path(g: GroupModel) -> bool {
    group_usable(g) && match g.paths {
        Some(ps) => exists|i: int| 0 <= i < ps.len() && path_is_active(#[trigger] ps[i]),
        None => false,
    }
}

/// A map is dead when no usable path group has an active path.
pub open spec fn map_dead(m: MapModel) -> bool {
    match m.path_groups {
        None => true,
        Some(gs) => forall|i: int| 0 <= i < gs.len() ==> !group_has_active_path(#[trigger] gs[i]),
    }
}

/// Scanning the paths in order stops at the first one that is active or has no
/// state; this says that it stopped at one without a state.
pub open spec fn paths_stop_at_missing(ps: Seq<PathModel>) -> bool {
    exists|k: int|
        0 <= k < ps.len() && (#[trigger] ps[k]).dm_st is None && forall|j: int|
            0 <= j < k ==> !path_is_active(#[trigger] ps[j])
}

/// Whether the inspection of a group meets a missing state.
pub open spec fn group_reports_missing(g: GroupModel) -> bool {
    ||| g.dm_st is None
    ||| (group_usable(g) && match g.paths {
        Some(ps) => paths_stop_at_missing(ps),
        None => false,
    })
}

/// Whether judging the map meets a missing `dm_st`: the groups are inspected in
/// order until one with an active path is found.
pub open spec fn map_reports_missing(m: MapModel) -> bool {
    match m.path_groups {
        None => false,
        Some(gs) => exists|i: int|
            0 <= i < gs.len() && group_reports_missing(#[trigger] gs[i]) && forall|j: int|
                0 <= j < i ==> !group_has_active_path(#[trigger] gs[j]),
    }
}

fn path_active(p: &MpathPath) -> (r: bool)
    ensures
        r == path_is_active(p@),
{
    match &p.dm_st {
        Some(s) => !str_eq(s.as_str(), "failed") && !str_eq(s.as_str(), "faulty") && !str_eq(
            s.as_str(),
            "offline",
        ) && !str_eq(s.as_str(), "ghost"),
        None => true,
    }
}

/// Judges one group: whether it has an active path, and whether a missing state was met.
fn group_state(g: &PathGroup) -> (r: (bool, bool))
    ensures
        r.0 == group_has_active_path(g@),
        r.1 == group_reports_missing(g@),
{
    let ghost gg = g@;
    let usable = match &g.dm_st {
        Some(s) => !str_eq(s.as_str(), "offline") && !str_eq(s.as_str(), "failed"),
        None => true,
    };
    let missing = g.dm_st.is_none();
    assert(usable == group_usable(gg));
    assert(missing == (gg.dm_st is None));
    if !usable {
        return (false, missing);
    }
    match &g.paths {
        None => (false, missing),
        Some(ps) => {
            let ghost pm = paths_view(ps@);
            assert(gg.paths == Some(pm));
            let mut k: usize = 0;
            while k < ps.len()
                invariant
                    k <= ps@.len(),
                    pm == paths_view(ps@),
                    gg == g@,
                    gg.paths == Some(pm),
                    group_usable(gg),
                    missing == (gg.dm_st is None),
                    forall|j: int| 0 <= j < k ==> !path_is_active(#[trigger] pm[j]),
                decreases ps.len() - k,
            {
                assert(pm[k as int] == ps@[k as int]@);
                if path_active(&ps[k]) {
                    let stop_missing = ps[k].dm_st.is_none();
                    proof {
                        assert(path_is_active(pm[k as int]));
                        assert(gg.paths matches Some(x) && x == pm);
                        assert(group_has_active_path(gg));
                        if stop_missing {
                            assert(pm[k as int].dm_st is None);
                            assert(paths_stop_at_missing(pm));
                        } else {
                            assert forall|k2: int|
                                0 <= k2 < pm.len() && (#[trigger] pm[k2]).dm_st is None implies exists|j: int|
                                    0 <= j < k2 && path_is_active(#[trigger] pm[j]) by {
                                if k2 < k {
                                    assert(!path_is_active(pm[k2]));
                                } else {
                                    assert(k2 != k);
                                }
                            }
                        }
                    }
                    return (true, missing || stop_missing);
                }
                k = k + 1;
            }
            proof {
                assert forall|k2: int| 0 <= k2 < pm.len() implies (#[trigger] pm[k2]).dm_st is Some by {
                    assert(!path_is_active(pm[k2]));
                }
            }
            (false, missing)
        },
    }
}

/// Judges a map: whether it is dead, and whether a missing `dm_st` was met on the way.
pub fn map_state(map: &MultipathMap) -> (r: (bool, bool))
    ensures
        r.0 == map_dead(map@),
        r.1 == map_reports_missing(map@),
{
    let ghost mm = map@;
    match &map.path_groups {
        None => (true, false),
        Some(gs) => {
            let ghost gm = groups_view(gs@);
            assert(mm.path_groups == Some(gm));
            let mut missing = false;
            let mut i: usize = 0;
            while i < gs.len()
                invariant
                    i <= gs@.len(),
                    gm == groups_view(gs@),
                    mm == map@,
                    mm.path_groups == Some(gm),
                    forall|j: int| 0 <= j < i ==> !group_has_active_path(#[trigger] gm[j]),
                    missing == exists|j: int|
                        0 <= j < i && group_reports_missing(#[trigger] gm[j]) && forall|l: int|
                            0 <= l < j ==> !group_has_active_path(#[trigger] gm[l]),
                decreases gs.len() - i,
            {
                assert(gm[i as int] == gs@[i as int]@);
                let (alive, m) = group_state(&gs[i]);
                let ghost was_missing = missing;
                if m {
                    missing = true;
                }
                if alive {
                    proof {
                        assert(group_has_active_path(gm[i as int]));
                        assert(mm.path_groups matches Some(x) && x == gm);
                        assert(!map_dead(mm));
                        assert forall|j: int|
                            0 <= j < gm.len() && group_reports_missing(#[trigger] gm[j]) && (forall|l: int|
                                0 <= l < j ==> !group_has_active_path(#[trigger] gm[l])) implies j <= i by {
                            if j > i {
                                assert(!group_has_active_path(gm[i as int]));
                            }
                        }
                    }
                    return (false, missing);
                }
                i = i + 1;
            }
            assert(mm.path_groups matches Some(x) && x == gm);
            (true, missing)
        },
    }
}

/// Evaluates if a multipath map has lost all paths.
pub fn is_map_dead(map: &MultipathMap) -> (r: bool)
    ensures
        r == map_dead(map@),
{
    map_state(map).0
}

} // verus!
