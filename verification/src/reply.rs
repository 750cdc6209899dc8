//! Reading multipathd's `show maps json` reply into multipath maps, field by field
//! as the maps' declared shape asks (absent or null optional fields are `None`,
//! unknown fields are ignored, a struct may also be written as an array of its fields).
use vstd::prelude::*;
use crate::text::{chars_of, parse_u64, spec_parse_u64, trim, trim_chars};
use crate::json::{JsonValue, get_member, member, number_to_u32, number_u32, parse_json, spec_parse_json};
use crate::multipath::{
    GroupModel, MapModel, MpathPath, MultipathMap, MultipathOutput, OutputModel, PathGroup, PathModel,
    groups_view, maps_view, paths_view,
};

verus! {

/// An optional string field: absent or null is `None`; a string is `Some`; anything
/// else makes the document invalid (outer `None`).
pub open spec fn dec_opt_str(f: Option<JsonValue>) -> Option<Option<Seq<char>>> {
    match f {
        None => Some(None),
        Some(JsonValue::Null) => Some(None),
        Some(JsonValue::Str(s)) => Some(Some(s@)),
        Some(_) => None,
    }
}

/// A required string field.
pub open spec fn dec_str(f: Option<JsonValue>) -> Option<Seq<char>> {
    match f {
        Some(JsonValue::Str(s)) => Some(s@),
        _ => None,
    }
}

/// An optional `u32` field.
pub open spec fn dec_opt_u32(f: Option<JsonValue>) -> Option<Option<u32>> {
    match f {
        None => Some(None),
        Some(JsonValue::Null) => Some(None),
        Some(JsonValue::Number(t)) => match number_u32(t@) {
            Some(n) => Some(Some(n)),
            None => None,
        },
        Some(_) => None,
    }
}

/// A struct's fields: the members of an object by name, or the items of an array
/// of exactly `names.len()` items by position.
pub open spec fn fields_of(v: JsonValue, names: Seq<Seq<char>>) -> Option<Seq<Option<JsonValue>>> {
    match v {
        JsonValue::Object(ms, _) => Some(names.map_values(|n: Seq<char>| member(ms@, n))),
        JsonValue::Array(items, _) => if items@.len() == names.len() {
            Some(items@.map_values(|x: JsonValue| Some(x)))
        } else {
            None
        },
        _ => None,
    }
}

pub open spec fn path_fields() -> Seq<Seq<char>> {
    seq!["dm_st"@]
}

pub open spec fn group_fields() -> Seq<Seq<char>> {
    seq!["dm_st"@, "paths"@]
}

pub open spec fn map_fields() -> Seq<Seq<char>> {
    seq!["name"@, "uuid"@, "path_groups"@, "vend"@, "prod"@]
}

pub open spec fn output_fields() -> Seq<Seq<char>> {
    seq!["major_version"@, "minor_version"@, "maps"@]
}

pub open spec fn dec_path(v: JsonValue) -> Option<PathModel> {
    match fields_of(v, path_fields()) {
        Some(f) => match dec_opt_str(f[0]) {
            Some(d) => Some(PathModel { dm_st: d }),
            None => None,
        },
        None => None,
    }
}

pub open spec fn dec_paths(items: Seq<JsonValue>) -> Option<Seq<PathModel>>
    decreases items.len(),
{
    if items.len() == 0 {
        Some(Seq::empty())
    } else {
        match (dec_paths(items.drop_last()), dec_path(items.last())) {
            (Some(a), Some(p)) => Some(a.push(p)),
            _ => None,
        }
    }
}

pub open spec fn dec_opt_paths(f: Option<JsonValue>) -> Option<Option<Seq<PathModel>>> {
    match f {
        None => Some(None),
        Some(JsonValue::Null) => Some(None),
        Some(JsonValue::Array(items, _)) => match dec_paths(items@) {
            Some(ps) => Some(Some(ps)),
            None => None,
        },
        Some(_) => None,
    }
}

pub open spec fn dec_group(v: JsonValue) -> Option<GroupModel> {
    match fields_of(v, group_fields()) {
        Some(f) => match (dec_opt_str(f[0]), dec_opt_paths(f[1])) {
            (Some(d), Some(p)) => Some(GroupModel { dm_st: d, paths: p }),
            _ => None,
        },
        None => None,
    }
}

pub open spec fn dec_groups(items: Seq<JsonValue>) -> Option<Seq<GroupModel>>
    decreases items.len(),
{
    if items.len() == 0 {
        Some(Seq::empty())
    } else {
        match (dec_groups(items.drop_last()), dec_group(items.last())) {
            (Some(a), Some(g)) => Some(a.push(g)),
            _ => None,
        }
    }
}

pub open spec fn dec_opt_groups(f: Option<JsonValue>) -> Option<Option<Seq<GroupModel>>> {
    match f {
        None => Some(None),
        Some(JsonValue::Null) => Some(None),
        Some(JsonValue::Array(items, _)) => match dec_groups(items@) {
            Some(gs) => Some(Some(gs)),
            None => None,
        },
        Some(_) => None,
    }
}

pub open spec fn dec_map(v: JsonValue) -> Option<MapModel> {
    match fields_of(v, map_fields()) {
        Some(f) => match (dec_str(f[0]), dec_str(f[1]), dec_opt_groups(f[2]), dec_opt_str(f[3]), dec_opt_str(f[4])) {
            (Some(n), Some(u), Some(g), Some(vd), Some(pd)) => Some(
                MapModel { name: n, uuid: u, path_groups: g, vend: vd, prod: pd },
            ),
            _ => None,
        },
        None => None,
    }
}

pub open spec fn dec_maps(items: Seq<JsonValue>) -> Option<Seq<MapModel>>
    decreases items.len(),
{
    if items.len() == 0 {
        Some(Seq::empty())
    } else {
        match (dec_maps(items.drop_last()), dec_map(items.last())) {
            (Some(a), Some(m)) => Some(a.push(m)),
            _ => None,
        }
    }
}

pub open spec fn dec_opt_maps(f: Option<JsonValue>) -> Option<Option<Seq<MapModel>>> {
    match f {
        None => Some(None),
        Some(JsonValue::Null) => Some(None),
        Some(JsonValue::Array(items, _)) => match dec_maps(items@) {
            Some(ms) => Some(Some(ms)),
            None => None,
        },
        Some(_) => None,
    }
}

/// The reply object, when the value has its shape.
pub open spec fn dec_output(v: JsonValue) -> Option<OutputModel> {
    match fields_of(v, output_fields()) {
        Some(f) => match (dec_opt_u32(f[0]), dec_opt_u32(f[1]), dec_opt_maps(f[2])) {
            (Some(a), Some(b), Some(m)) => Some(
                OutputModel { major_version: a, minor_version: b, maps: m },
            ),
            _ => None,
        },
        None => None,
    }
}

/// The largest reply the daemon accepts by default, in bytes (100 MB).
pub const DEFAULT_MAX_RESPONSE_SIZE: usize = 104857600;

/// The reply size limit a setting (`PVE_SAN_MAX_RESPONSE_SIZE`) gives: its trimmed
/// text read as a number of bytes that fits in a `usize`, else the default.
pub open spec fn response_size_limit(setting: Option<Seq<char>>) -> usize {
    match setting {
        Some(t) => match spec_parse_u64(trim(t)) {
            Some(n) => if n <= usize::MAX {
                n as usize
            } else {
                DEFAULT_MAX_RESPONSE_SIZE
            },
            None => DEFAULT_MAX_RESPONSE_SIZE,
        },
        None => DEFAULT_MAX_RESPONSE_SIZE,
    }
}

/// Reads the reply size limit from its setting (see `response_size_limit`).
pub fn max_response_size(setting: Option<&str>) -> (r: usize)
    ensures
        r == response_size_limit(match setting {
            Some(t) => Some(t@),
            None => None,
        }),
{
    match setting {
        Some(t) => {
            let cs = chars_of(t);
            let trimmed = trim_chars(cs.as_slice());
            match parse_u64(trimmed.as_slice()) {
                Some(n) => if n <= usize::MAX as u64 {
                    n as usize
                } else {
                    DEFAULT_MAX_RESPONSE_SIZE
                },
                None => DEFAULT_MAX_RESPONSE_SIZE,
            }
        },
        None => DEFAULT_MAX_RESPONSE_SIZE,
    }
}

/// The maps of a reply of at most `max_len` bytes: none when it is larger, is no
/// JSON, or lacks the reply's shape; an absent or null `maps` member gives an
/// empty list.
pub open spec fn response_maps_within(text: &str, max_len: usize) -> Option<Seq<MapModel>> {
    if text.len() > max_len {
        None
    } else {
        match spec_parse_json(text@) {
            None => None,
            Some(v) => match dec_output(v) {
                None => None,
                Some(o) => Some(
                    match o.maps {
                        Some(ms) => ms,
                        None => Seq::empty(),
                    },
                ),
            },
        }
    }
}

/// The maps of a reply under the default limit (see `response_maps_within`).
pub open spec fn response_maps(text: &str) -> Option<Seq<MapModel>> {
    response_maps_within(text, DEFAULT_MAX_RESPONSE_SIZE)
}

pub open spec fn opt_deref(o: Option<&JsonValue>) -> Option<JsonValue> {
    match o {
        Some(x) => Some(*x),
        None => None,
    }
}

fn opt_str(f: Option<&JsonValue>) -> (r: Option<Option<String>>)
    ensures
        match r {
            Some(o) => dec_opt_str(opt_deref(f)) == Some(crate::multipath::opt_str_view(o)),
            None => dec_opt_str(opt_deref(f)) is None,
        },
{
    match f {
        None => Some(None),
        Some(JsonValue::Null) => Some(None),
        Some(JsonValue::Str(s)) => Some(Some(s.clone())),
        Some(_) => None,
    }
}

fn req_str(f: Option<&JsonValue>) -> (r: Option<String>)
    ensures
        match r {
            Some(s) => dec_str(opt_deref(f)) == Some(s@),
            None => dec_str(opt_deref(f)) is None,
        },
{
    match f {
        Some(JsonValue::Str(s)) => Some(s.clone()),
        _ => None,
    }
}

fn opt_u32(f: Option<&JsonValue>) -> (r: Option<Option<u32>>)
    ensures
        r == dec_opt_u32(opt_deref(f)),
{
    match f {
        None => Some(None),
        Some(JsonValue::Null) => Some(None),
        Some(JsonValue::Number(t)) => match number_to_u32(t.as_str()) {
            Some(n) => Some(Some(n)),
            None => None,
        },
        Some(_) => None,
    }
}

/// The fields of a struct written as an object or as an array of `n` items.
fn fields<'a>(v: &'a JsonValue, names: &[&str]) -> (r: Option<Vec<Option<&'a JsonValue>>>)
    ensures
        match r {
            Some(f) => fields_of(*v, names@.map_values(|n: &str| n@)) matches Some(g) && g.len()
                == f.len() && forall|i: int| 0 <= i < f.len() ==> opt_deref(#[trigger] f@[i]) == g[i],
            None => fields_of(*v, names@.map_values(|n: &str| n@)) is None,
        },
{
    let ghost nv = names@.map_values(|n: &str| n@);
    match v {
        JsonValue::Object(ms, _) => {
            let mut r: Vec<Option<&'a JsonValue>> = Vec::new();
            let mut i: usize = 0;
            while i < names.len()
                invariant
                    i <= names.len(),
                    r.len() == i,
                    nv == names@.map_values(|n: &str| n@),
                    forall|k: int| 0 <= k < i ==> opt_deref(#[trigger] r@[k]) == member(ms@, nv[k]),
                decreases names.len() - i,
            {
                r.push(get_member(ms, names[i]));
                i = i + 1;
            }
            Some(r)
        },
        JsonValue::Array(items, _) => {
            if items.len() != names.len() {
                return None;
            }
            let mut r: Vec<Option<&'a JsonValue>> = Vec::new();
            let mut i: usize = 0;
            while i < items.len()
                invariant
                    i <= items.len(),
                    r.len() == i,
                    forall|k: int| 0 <= k < i ==> opt_deref(#[trigger] r@[k]) == Some(items@[k]),
                decreases items.len() - i,
            {
                r.push(Some(&items[i]));
                i = i + 1;
            }
            Some(r)
        },
        _ => None,
    }
}

fn decode_path(v: &JsonValue) -> (r: Option<MpathPath>)
    ensures
        match r {
            Some(p) => dec_path(*v) == Some(p@),
            None => dec_path(*v) is None,
        },
{
    let names = ["dm_st"];
    assert(names@.map_values(|n: &str| n@) =~= path_fields());
    let f = match fields(v, &names) {
        Some(f) => f,
        None => return None,
    };
    match opt_str(f[0]) {
        Some(d) => Some(MpathPath { dm_st: d }),
        None => None,
    }
}

fn decode_paths(items: &Vec<JsonValue>) -> (r: Option<Vec<MpathPath>>)
    ensures
        match r {
            Some(ps) => dec_paths(items@) == Some(paths_view(ps@)),
            None => dec_paths(items@) is None,
        },
{
    let mut out: Vec<MpathPath> = Vec::new();
    let mut i: usize = 0;
    assert(items@.take(0) =~= Seq::<JsonValue>::empty());
    assert(paths_view(out@) =~= Seq::<PathModel>::empty());
    while i < items.len()
        invariant
            i <= items.len(),
            dec_paths(items@.take(i as int)) == Some(paths_view(out@)),
        decreases items.len() - i,
    {
        assert(items@.take(i + 1).drop_last() =~= items@.take(i as int));
        assert(items@.take(i + 1).last() == items@[i as int]);
        match decode_path(&items[i]) {
            Some(p) => {
                let ghost before = out@;
                out.push(p);
                assert(paths_view(out@) =~= paths_view(before).push(p@));
            },
            None => {
                proof {
                    lemma_dec_paths_prefix(items@, i + 1);
                }
                return None;
            },
        }
        i = i + 1;
    }
    assert(items@.take(items.len() as int) =~= items@);
    Some(out)
}

proof fn lemma_dec_paths_prefix(items: Seq<JsonValue>, k: int)
    requires
        0 <= k <= items.len(),
        dec_paths(items.take(k)) is None,
    ensures
        dec_paths(items) is None,
    decreases items.len() - k,
{
    if k < items.len() {
        assert(items.take(k + 1).drop_last() =~= items.take(k));
        lemma_dec_paths_prefix(items, k + 1);
    } else {
        assert(items.take(k) =~= items);
    }
}

fn opt_paths(f: Option<&JsonValue>) -> (r: Option<Option<Vec<MpathPath>>>)
    ensures
        match r {
            Some(Some(ps)) => dec_opt_paths(opt_deref(f)) == Some(Some(paths_view(ps@))),
            Some(None) => dec_opt_paths(opt_deref(f)) == Some(None::<Seq<PathModel>>),
            None => dec_opt_paths(opt_deref(f)) is None,
        },
{
    match f {
        None => Some(None),
        Some(JsonValue::Null) => Some(None),
        Some(JsonValue::Array(items, _)) => match decode_paths(items) {
            Some(ps) => Some(Some(ps)),
            None => None,
        },
        Some(_) => None,
    }
}

fn decode_group(v: &JsonValue) -> (r: Option<PathGroup>)
    ensures
        match r {
            Some(g) => dec_group(*v) == Some(g@),
            None => dec_group(*v) is None,
        },
{
    let names = ["dm_st", "paths"];
    assert(names@.map_values(|n: &str| n@) =~= group_fields());
    let f = match fields(v, &names) {
        Some(f) => f,
        None => return None,
    };
    let d = match opt_str(f[0]) {
        Some(d) => d,
        None => return None,
    };
    match opt_paths(f[1]) {
        Some(p) => Some(PathGroup { dm_st: d, paths: p }),
        None => None,
    }
}

fn decode_groups(items: &Vec<JsonValue>) -> (r: Option<Vec<PathGroup>>)
    ensures
        match r {
            Some(gs) => dec_groups(items@) == Some(groups_view(gs@)),
            None => dec_groups(items@) is None,
        },
{
    let mut out: Vec<PathGroup> = Vec::new();
    let mut i: usize = 0;
    assert(items@.take(0) =~= Seq::<JsonValue>::empty());
    assert(groups_view(out@) =~= Seq::<GroupModel>::empty());
    while i < items.len()
        invariant
            i <= items.len(),
            dec_groups(items@.take(i as int)) == Some(groups_view(out@)),
        decreases items.len() - i,
    {
        assert(items@.take(i + 1).drop_last() =~= items@.take(i as int));
        assert(items@.take(i + 1).last() == items@[i as int]);
        match decode_group(&items[i]) {
            Some(g) => {
                let ghost before = out@;
                out.push(g);
                assert(groups_view(out@) =~= groups_view(before).push(g@));
            },
            None => {
                proof {
                    lemma_dec_groups_prefix(items@, i + 1);
                }
                return None;
            },
        }
        i = i + 1;
    }
    assert(items@.take(items.len() as int) =~= items@);
    Some(out)
}

proof fn lemma_dec_groups_prefix(items: Seq<JsonValue>, k: int)
    requires
        0 <= k <= items.len(),
        dec_groups(items.take(k)) is None,
    ensures
        dec_groups(items) is None,
    decreases items.len() - k,
{
    if k < items.len() {
        assert(items.take(k + 1).drop_last() =~= items.take(k));
        lemma_dec_groups_prefix(items, k + 1);
    } else {
        assert(items.take(k) =~= items);
    }
}

fn opt_groups(f: Option<&JsonValue>) -> (r: Option<Option<Vec<PathGroup>>>)
    ensures
        match r {
            Some(Some(gs)) => dec_opt_groups(opt_deref(f)) == Some(Some(groups_view(gs@))),
            Some(None) => dec_opt_groups(opt_deref(f)) == Some(None::<Seq<GroupModel>>),
            None => dec_opt_groups(opt_deref(f)) is None,
        },
{
    match f {
        None => Some(None),
        Some(JsonValue::Null) => Some(None),
        Some(JsonValue::Array(items, _)) => match decode_groups(items) {
            Some(gs) => Some(Some(gs)),
            None => None,
        },
        Some(_) => None,
    }
}

fn decode_map(v: &JsonValue) -> (r: Option<MultipathMap>)
    ensures
        match r {
            Some(m) => dec_map(*v) == Some(m@),
            None => dec_map(*v) is None,
        },
{
    let names = ["name", "uuid", "path_groups", "vend", "prod"];
    assert(names@.map_values(|n: &str| n@) =~= map_fields());
    let f = match fields(v, &names) {
        Some(f) => f,
        None => return None,
    };
    let name = match req_str(f[0]) {
        Some(x) => x,
        None => return None,
    };
    let uuid = match req_str(f[1]) {
        Some(x) => x,
        None => return None,
    };
    let path_groups = match opt_groups(f[2]) {
        Some(x) => x,
        None => return None,
    };
    let vend = match opt_str(f[3]) {
        Some(x) => x,
        None => return None,
    };
    let prod = match opt_str(f[4]) {
        Some(x) => x,
        None => return None,
    };
    Some(MultipathMap { name, uuid, path_groups, vend, prod })
}

fn decode_maps(items: &Vec<JsonValue>) -> (r: Option<Vec<MultipathMap>>)
    ensures
        match r {
            Some(ms) => dec_maps(items@) == Some(maps_view(ms@)),
            None => dec_maps(items@) is None,
        },
{
    let mut out: Vec<MultipathMap> = Vec::new();
    let mut i: usize = 0;
    assert(items@.take(0) =~= Seq::<JsonValue>::empty());
    assert(maps_view(out@) =~= Seq::<MapModel>::empty());
    while i < items.len()
        invariant
            i <= items.len(),
            dec_maps(items@.take(i as int)) == Some(maps_view(out@)),
        decreases items.len() - i,
    {
        assert(items@.take(i + 1).drop_last() =~= items@.take(i as int));
        assert(items@.take(i + 1).last() == items@[i as int]);
        match decode_map(&items[i]) {
            Some(m) => {
                let ghost before = out@;
                out.push(m);
                assert(maps_view(out@) =~= maps_view(before).push(m@));
            },
            None => {
                proof {
                    lemma_dec_maps_prefix(items@, i + 1);
                }
                return None;
            },
        }
        i = i + 1;
    }
    assert(items@.take(items.len() as int) =~= items@);
    Some(out)
}

proof fn lemma_dec_maps_prefix(items: Seq<JsonValue>, k: int)
    requires
        0 <= k <= items.len(),
        dec_maps(items.take(k)) is None,
    ensures
        dec_maps(items) is None,
    decreases items.len() - k,
{
    if k < items.len() {
        assert(items.take(k + 1).drop_last() =~= items.take(k));
        lemma_dec_maps_prefix(items, k + 1);
    } else {
        assert(items.take(k) =~= items);
    }
}

impl View for MultipathOutput {
    type V = OutputModel;

    open spec fn view(&self) -> OutputModel {
        OutputModel {
            major_version: self.major_version,
            minor_version: self.minor_version,
            maps: match self.maps {
                Some(ms) => Some(maps_view(ms@)),
                None => None,
            },
        }
    }
}

/// Reads the reply object of `show maps json` from a JSON value.
pub fn decode_output(v: &JsonValue) -> (r: Option<MultipathOutput>)
    ensures
        match r {
            Some(o) => dec_output(*v) == Some(o@),
            None => dec_output(*v) is None,
        },
{
    let names = ["major_version", "minor_version", "maps"];
    assert(names@.map_values(|n: &str| n@) =~= output_fields());
    let f = match fields(v, &names) {
        Some(f) => f,
        None => return None,
    };
    let major_version = match opt_u32(f[0]) {
        Some(x) => x,
        None => return None,
    };
    let minor_version = match opt_u32(f[1]) {
        Some(x) => x,
        None => return None,
    };
    let maps = match f[2] {
        None => None,
        Some(JsonValue::Null) => None,
        Some(JsonValue::Array(items, _)) => match decode_maps(items) {
            Some(ms) => Some(ms),
            None => return None,
        },
        Some(_) => return None,
    };
    Some(MultipathOutput { major_version, minor_version, maps })
}

/// The maps of a parsed reply: those of its `maps` member, an empty list when that
/// member is absent or null, none when the value lacks the reply's shape.
pub fn maps_from_json(v: &JsonValue) -> (r: Option<Vec<MultipathMap>>)
    ensures
        match r {
            Some(ms) => dec_output(*v) matches Some(o) && maps_view(ms@) == (match o.maps {
                Some(m) => m,
                None => Seq::<MapModel>::empty(),
            }),
            None => dec_output(*v) is None,
        },
{
    match decode_output(v) {
        Some(o) => match o.maps {
            Some(ms) => Some(ms),
            None => {
                let e: Vec<MultipathMap> = Vec::new();
                assert(maps_view(e@) =~= Seq::<MapModel>::empty());
                Some(e)
            },
        },
        None => None,
    }
}

/// Parses a `show maps json` reply into its maps, rejecting replies over
/// `max_len` bytes.
pub fn parse_multipathd_response_within(response_json: &str, max_len: usize) -> (r: Option<Vec<MultipathMap>>)
    ensures
        match r {
            Some(ms) => response_maps_within(response_json, max_len) == Some(maps_view(ms@)),
            None => response_maps_within(response_json, max_len) is None,
        },
{
    if response_json.len() > max_len {
        return None;
    }
    match parse_json(response_json) {
        Some(v) => maps_from_json(&v),
        None => None,
    }
}

/// Parses a `show maps json` reply into its maps, rejecting replies over the
/// default limit of 100 MB.
pub fn parse_multipathd_response(response_json: &str) -> (r: Option<Vec<MultipathMap>>)
    ensures
        match r {
            Some(ms) => response_maps(response_json) == Some(maps_view(ms@)),
            None => response_maps(response_json) is None,
        },
{
    parse_multipathd_response_within(response_json, DEFAULT_MAX_RESPONSE_SIZE)
}

/// Decoding a list of maps keeps every map in order: it succeeds exactly when
/// every item decodes, and then the i-th map is the decoding of the i-th item.
pub proof fn lemma_dec_maps_keeps_every_item(items: Seq<JsonValue>)
    ensures
        dec_maps(items) is Some <==> (forall|i: int| 0 <= i < items.len() ==> #[trigger] dec_map(items[i]) is Some),
        dec_maps(items) matches Some(ms) ==> ms.len() == items.len() && forall|i: int|
            0 <= i < items.len() ==> dec_map(items[i]) == Some(#[trigger] ms[i]),
    decreases items.len(),
{
    if items.len() > 0 {
        let init = items.drop_last();
        lemma_dec_maps_keeps_every_item(init);
        assert forall|i: int| 0 <= i < init.len() implies init[i] == items[i] by {}
        if dec_maps(items) is Some {
            let ms = dec_maps(items).unwrap();
            let a = dec_maps(init).unwrap();
            assert(ms == a.push(dec_map(items.last()).unwrap()));
            assert forall|i: int| 0 <= i < items.len() implies dec_map(items[i]) == Some(#[trigger] ms[i]) by {
                if i < init.len() {
                    assert(init[i] == items[i]);
                    assert(dec_map(init[i]) == Some(a[i]));
                }
            }
        } else {
            if forall|i: int| 0 <= i < items.len() ==> #[trigger] dec_map(items[i]) is Some {
                assert forall|i: int| 0 <= i < init.len() implies #[trigger] dec_map(init[i]) is Some by {
                    assert(init[i] == items[i]);
                    assert(dec_map(items[i]) is Some);
                }
                assert(dec_map(items[items.len() - 1]) is Some);
            }
        }
    }
}

} // verus!
