//! What the daemon learns from a Proxmox VE host: the running VMs, their disks,
//! and the multipath devices that back those disks.
use vstd::prelude::*;
use crate::json::{
    JsonValue, get_member, json_text, json_to_text, member, number_to_u64, number_u64, parse_json, parse_json_list,
    spec_parse_json, spec_parse_json_list,
};
use crate::multipath::opt_str_view;
use crate::order::{
    lemma_lex_antisym, lemma_lex_refl, lemma_lex_total, lemma_lex_trans, lemma_multiset_insert_at, lex_le, lex_le_exec, lex_order,
};
use vstd::relations::sorted_by;
use crate::text::{
    chars_of, concat, find_char, has_suffix, is_whitespace, is_ws, parse_u64, spec_parse_u64, split_chars,
    split_on, split_once, split_once_exec, string_of, trim, trim_chars, u64_to_decimal, decimal,
    ends_with_chars, str_eq, lemma_split_on_nonempty, starts_with_chars, join, join_strings,
};

verus! {

/// What can go wrong while gathering the storage information.
#[derive(Debug)]
pub enum PveSanError {
    PveshError(String),
    ListVmError(String),
    VmConfigError(u64, String),
    ConfigParseError(String),
    JsonParseError(String),
    LsblkError(String),
    NoNodeError,
    RuntimeError(String),
    PveshNotFound,
}

impl PveSanError {
    /// The message of an error, as the daemon reports it.
    pub open spec fn spec_message(&self) -> Seq<char> {
        match self {
            PveSanError::PveshError(s) => "pvesh command failed: "@ + s@,
            PveSanError::ListVmError(s) => "Failed to list VMs: "@ + s@,
            PveSanError::VmConfigError(id, s) => "Failed to get VM config for VMID "@ + decimal(*id as nat) + ": "@ + s@,
            PveSanError::ConfigParseError(s) => "Failed to parse VM config: "@ + s@,
            PveSanError::JsonParseError(s) => "Failed to parse pvesh JSON output: "@ + s@,
            PveSanError::LsblkError(s) => "Failed to list block devices: "@ + s@,
            PveSanError::NoNodeError => "No node name specified"@,
            PveSanError::RuntimeError(s) => "Runtime error: "@ + s@,
            PveSanError::PveshNotFound => "pvesh command not found"@,
        }
    }

    /// The message of an error (what `to_string` gives for it).
    pub fn message(&self) -> (r: String)
        ensures
            r@ == self.spec_message(),
    {
        match self {
            PveSanError::PveshError(s) => concat("pvesh command failed: ", s.as_str()),
            PveSanError::ListVmError(s) => concat("Failed to list VMs: ", s.as_str()),
            PveSanError::VmConfigError(id, s) => {
                let a = concat("Failed to get VM config for VMID ", u64_to_decimal(*id).as_str());
                let b = concat(a.as_str(), ": ");
                concat(b.as_str(), s.as_str())
            },
            PveSanError::ConfigParseError(s) => concat("Failed to parse VM config: ", s.as_str()),
            PveSanError::JsonParseError(s) => concat("Failed to parse pvesh JSON output: ", s.as_str()),
            PveSanError::LsblkError(s) => concat("Failed to list block devices: ", s.as_str()),
            PveSanError::NoNodeError => "No node name specified".to_string(),
            PveSanError::RuntimeError(s) => concat("Runtime error: ", s.as_str()),
            PveSanError::PveshNotFound => "pvesh command not found".to_string(),
        }
    }
}

/// Key/value pairs with distinct keys, in order of first insertion.
pub type Pairs = Seq<(Seq<char>, Seq<char>)>;

pub open spec fn pairs_view(v: Seq<(String, String)>) -> Pairs {
    v.map_values(|p: (String, String)| (p.0@, p.1@))
}

pub open spec fn pair_keys_unique(e: Pairs) -> bool {
    forall|i: int, j: int| 0 <= i < e.len() && 0 <= j < e.len() && i != j ==> e[i].0 != e[j].0
}

pub open spec fn pair_has(e: Pairs, k: Seq<char>) -> bool {
    exists|i: int| 0 <= i < e.len() && e[i].0 == k
}

pub open spec fn pair_index(e: Pairs, k: Seq<char>) -> int {
    choose|i: int| 0 <= i < e.len() && e[i].0 == k
}

/// The value stored under a key.
pub open spec fn pair_get(e: Pairs, k: Seq<char>) -> Option<Seq<char>> {
    if pair_has(e, k) {
        Some(e[pair_index(e, k)].1)
    } else {
        None
    }
}

/// Stores a value under a key, replacing the value of an existing key in place
/// (as `HashMap::insert` replaces it).
pub open spec fn pair_insert(e: Pairs, k: Seq<char>, v: Seq<char>) -> Pairs {
    if pair_has(e, k) {
        e.update(pair_index(e, k), (k, v))
    } else {
        e.push((k, v))
    }
}

fn find_pair(v: &Vec<(String, String)>, key: &str) -> (r: Option<usize>)
    requires
        pair_keys_unique(pairs_view(v@)),
    ensures
        match r {
            Some(i) => i < v.len() && pair_has(pairs_view(v@), key@) && pair_index(pairs_view(v@), key@) == i,
            None => !pair_has(pairs_view(v@), key@),
        },
{
    let ghost e = pairs_view(v@);
    let mut i: usize = 0;
    while i < v.len()
        invariant
            i <= v.len(),
            e == pairs_view(v@),
            pair_keys_unique(e),
            forall|k: int| 0 <= k < i ==> e[k].0 != key@,
        decreases v.len() - i,
    {
        if str_eq(v[i].0.as_str(), key) {
            proof {
                assert(e[i as int].0 == key@);
                let j = pair_index(e, key@);
                if j != i {
                    assert(e[j].0 != e[i as int].0);
                }
            }
            return Some(i);
        }
        i = i + 1;
    }
    None
}

/// Stores a value under a key in a list of pairs with distinct keys.
pub fn insert_pair(v: &mut Vec<(String, String)>, key: String, value: String)
    requires
        pair_keys_unique(pairs_view(old(v)@)),
    ensures
        pair_keys_unique(pairs_view(final(v)@)),
        pairs_view(final(v)@) == pair_insert(pairs_view(old(v)@), key@, value@),
{
    let ghost e = pairs_view(v@);
    let ghost k = key@;
    let ghost x = value@;
    match find_pair(v, key.as_str()) {
        Some(i) => {
            v.set(i, (key, value));
            assert(pairs_view(v@) =~= e.update(i as int, (k, x)));
        },
        None => {
            v.push((key, value));
            assert(pairs_view(v@) =~= e.push((k, x)));
        },
    }
}

/// Looks up the value stored under a key.
pub fn get_pair<'a>(v: &'a Vec<(String, String)>, key: &str) -> (r: Option<&'a String>)
    requires
        pair_keys_unique(pairs_view(v@)),
    ensures
        opt_str_view(
            match r {
                Some(s) => Some(*s),
                None => None,
            },
        ) == pair_get(pairs_view(v@), key@),
{
    match find_pair(v, key) {
        Some(i) => Some(&v[i].1),
        None => None,
    }
}

/// Information about a VM's disk.
#[derive(Debug, Clone, PartialEq)]
pub struct VmDisk {
    /// The disk identifier (e.g., "scsi0", "virtio0")
    pub device_id: String,
    /// The backing storage (e.g., "local-lvm:vm-100-disk-0")
    pub storage: String,
    /// The underlying device path if discovered (e.g., "/dev/mapper/mpatha")
    pub device_path: Option<String>,
    /// The device mapper name if applicable
    pub device_mapper_name: Option<String>,
    /// The size of the disk in bytes
    pub size_bytes: Option<u64>,
    /// Additional metadata from the config (distinct keys)
    pub metadata: Option<Vec<(String, String)>>,
}

pub struct DiskModel {
    pub device_id: Seq<char>,
    pub storage: Seq<char>,
    pub device_path: Option<Seq<char>>,
    pub device_mapper_name: Option<Seq<char>>,
    pub size_bytes: Option<u64>,
    pub metadata: Option<Pairs>,
}

impl View for VmDisk {
    type V = DiskModel;

    open spec fn view(&self) -> DiskModel {
        DiskModel {
            device_id: self.device_id@,
            storage: self.storage@,
            device_path: opt_str_view(self.device_path),
            device_mapper_name: opt_str_view(self.device_mapper_name),
            size_bytes: self.size_bytes,
            metadata: match self.metadata {
                Some(m) => Some(pairs_view(m@)),
                None => None,
            },
        }
    }
}

/// Information about a VM.
#[derive(Debug, Clone)]
pub struct VmInfo {
    pub vmid: u64,
    pub name: String,
    pub status: String,
    pub disks: Vec<VmDisk>,
}

/// Simplified block device information.
#[derive(Debug, Clone)]
pub struct BlockDeviceInfo {
    /// Device name (e.g., "sda", "dm-0")
    pub name: String,
    /// Full device path (e.g., "/dev/sda", "/dev/dm-0")
    pub path: String,
    /// Device type (e.g., "disk", "part", "mpath")
    pub device_type: String,
    /// Size in bytes
    pub size: u64,
    /// Device mapper name if applicable
    pub dm_name: Option<String>,
    /// Parent device name
    pub parent: Option<String>,
    /// Children device names
    pub children: Vec<String>,
    /// UUID if available
    pub uuid: Option<String>,
    /// Model information
    pub model: Option<String>,
    /// Serial number
    pub serial: Option<String>,
    /// Mount point
    pub mount_point: Option<String>,
}

/// Complete SAN storage information for a host.
#[derive(Debug, Clone)]
pub struct SanStorageInfo {
    pub node: String,
    /// The running VMs with their disk information
    pub vms: Vec<VmInfo>,
    /// The block devices (from lsblk)
    pub block_devices: Option<Vec<BlockDeviceInfo>>,
    /// The multipath devices of each VM (by VMID), sorted
    pub multipath_devices: Option<Vec<(String, Vec<String>)>>,
}

/// Query mode for the PVE SAN client.
#[derive(Debug, Clone, Copy, PartialEq, Eq, Structural)]
pub enum PveMode {
    /// Query using the pvesh command
    Pvesh,
    /// Query local configuration files only (default)
    LocalFiles,
}

impl Default for PveMode {
    fn default() -> (r: Self)
        ensures
            r == PveMode::LocalFiles,
    {
        PveMode::LocalFiles
    }
}

/// Whether a character may stand in a pvesh command path.
pub open spec fn command_char_ok(c: char) -> bool {
    ||| ('a' <= c && c <= 'z')
    ||| ('A' <= c && c <= 'Z')
    ||| ('0' <= c && c <= '9')
    ||| c == '/'
    ||| c == '-'
    ||| c == '_'
}

/// A pvesh command path is accepted when it is not empty and has only ASCII
/// letters, digits, '/', '-' and '_'.
pub open spec fn command_ok(cmd: Seq<char>) -> bool {
    cmd.len() > 0 && forall|i: int| 0 <= i < cmd.len() ==> command_char_ok(#[trigger] cmd[i])
}

fn command_ok_exec(cmd: &str) -> (r: bool)
    ensures
        r == command_ok(cmd@),
{
    let cs = chars_of(cmd);
    if cs.len() == 0 {
        return false;
    }
    let mut i: usize = 0;
    while i < cs.len()
        invariant
            i <= cs.len(),
            cs@ == cmd@,
            forall|k: int| 0 <= k < i ==> command_char_ok(#[trigger] cs@[k]),
        decreases cs.len() - i,
    {
        let c = cs[i];
        if !(('a' <= c && c <= 'z') || ('A' <= c && c <= 'Z') || ('0' <= c && c <= '9') || c == '/'
            || c == '-' || c == '_') {
            assert(!command_char_ok(cmd@[i as int]));
            return false;
        }
        i = i + 1;
    }
    true
}

/// Configuration for the PVE SAN client.
#[derive(Debug, Clone)]
pub struct PveSanConfig {
    node: String,
    pvesh_command: String,
    mode: PveMode,
}

impl PveSanConfig {
    pub closed spec fn node_name(&self) -> Seq<char> {
        self.node@
    }

    pub closed spec fn command(&self) -> Seq<char> {
        self.pvesh_command@
    }

    pub closed spec fn query_mode(&self) -> PveMode {
        self.mode
    }

    /// Creates a configuration for a node, with a pvesh command (default "pvesh").
    /// Fails with `NoNodeError` when the node name is empty, and with a
    /// `PveshError` when the command path is empty or holds other characters than
    /// ASCII letters, digits, '/', '-' and '_'. The mode is `LocalFiles`.
    pub fn new(node: &str, pvesh_command: Option<&str>) -> (r: Result<Self, PveSanError>)
        ensures
            ({
                let cmd = match pvesh_command {
                    Some(c) => c@,
                    None => "pvesh"@,
                };
                if node@.len() == 0 {
                    r matches Err(PveSanError::NoNodeError)
                } else if !command_ok(cmd) {
                    r matches Err(PveSanError::PveshError(m)) && m@ == "Invalid pvesh command path: "@ + cmd
                } else {
                    r matches Ok(c) && c.node_name() == node@ && c.command() == cmd && c.query_mode()
                        == PveMode::LocalFiles
                }
            }),
    {
        if chars_of(node).len() == 0 {
            return Err(PveSanError::NoNodeError);
        }
        let cmd: &str = match pvesh_command {
            Some(c) => c,
            None => "pvesh",
        };
        if !command_ok_exec(cmd) {
            return Err(PveSanError::PveshError(concat("Invalid pvesh command path: ", cmd)));
        }
        Ok(PveSanConfig { node: node.to_string(), pvesh_command: cmd.to_string(), mode: PveMode::LocalFiles })
    }
}

impl PveSanConfig {
    /// Creates a configuration for a node with the default pvesh command.
    pub fn with_node(node: &str) -> (r: Result<Self, PveSanError>)
        ensures
            if node@.len() == 0 {
                r matches Err(PveSanError::NoNodeError)
            } else {
                r matches Ok(c) && c.node_name() == node@ && c.command() == "pvesh"@ && c.query_mode()
                    == PveMode::LocalFiles
            },
    {
        let r = Self::new(node, None);
        proof {
            reveal_strlit("pvesh");
        }
        r
    }

    /// Returns the node name.
    pub fn node(&self) -> (r: &str)
        ensures
            r@ == self.node_name(),
    {
        self.node.as_str()
    }

    /// Returns the pvesh command.
    pub fn pvesh_command(&self) -> (r: &str)
        ensures
            r@ == self.command(),
    {
        self.pvesh_command.as_str()
    }

    /// Sets the query mode.
    pub fn with_mode(self, mode: PveMode) -> (r: Self)
        ensures
            r.node_name() == self.node_name(),
            r.command() == self.command(),
            r.query_mode() == mode,
    {
        let mut c = self;
        c.mode = mode;
        c
    }

    /// Returns the query mode.
    pub fn mode(&self) -> (r: PveMode)
        ensures
            r == self.query_mode(),
    {
        self.mode
    }
}

/// Main client for retrieving SAN information.
pub struct PveSanClient {
    config: PveSanConfig,
}

impl PveSanClient {
    pub closed spec fn settings(&self) -> PveSanConfig {
        self.config
    }

    /// Creates a client with the given configuration.
    pub fn new(config: PveSanConfig) -> (r: Self)
        ensures
            r.settings() == config,
    {
        PveSanClient { config }
    }

    /// The client's configuration.
    pub fn config(&self) -> (r: &PveSanConfig)
        ensures
            *r == self.settings(),
    {
        &self.config
    }

    /// Creates a client for a node with the default pvesh command.
    pub fn with_node(node: &str) -> (r: Result<Self, PveSanError>)
        ensures
            if node@.len() == 0 {
                r matches Err(PveSanError::NoNodeError)
            } else {
                r matches Ok(c) && c.settings().node_name() == node@ && c.settings().command() == "pvesh"@
                    && c.settings().query_mode() == PveMode::LocalFiles
            },
    {
        match PveSanConfig::with_node(node) {
            Ok(config) => Ok(PveSanClient { config }),
            Err(e) => Err(e),
        }
    }

    /// Creates a client for a node with a custom pvesh command (validated as in
    /// `PveSanConfig::new`).
    pub fn with_node_and_pvesh(node: &str, pvesh_command: &str) -> (r: Result<Self, PveSanError>)
        ensures
            if node@.len() == 0 {
                r matches Err(PveSanError::NoNodeError)
            } else if !command_ok(pvesh_command@) {
                r matches Err(PveSanError::PveshError(m)) && m@ == "Invalid pvesh command path: "@ + pvesh_command@
            } else {
                r matches Ok(c) && c.settings().node_name() == node@ && c.settings().command()
                    == pvesh_command@ && c.settings().query_mode() == PveMode::LocalFiles
            },
    {
        match PveSanConfig::new(node, Some(pvesh_command)) {
            Ok(config) => Ok(PveSanClient { config }),
            Err(e) => Err(e),
        }
    }
}

// ---------------------------------------------------------------------------
// Device-mapper names of storage volumes.
// ---------------------------------------------------------------------------

/// `s` with every '-' doubled, as device-mapper escapes LVM names.
pub open spec fn double_dashes(s: Seq<char>) -> Seq<char>
    decreases s.len(),
{
    if s.len() == 0 {
        s
    } else {
        double_dashes(s.drop_last()) + if s.last() == '-' {
            seq!['-', '-']
        } else {
            seq![s.last()]
        }
    }
}

/// The device-mapper name of an LVM volume `vg:lv`: both parts escaped and joined
/// by '-'; a storage name without ':' is kept as it is.
pub open spec fn dm_name_of(storage: Seq<char>) -> Seq<char> {
    match split_once(storage, ':') {
        Some((vg, lv)) => double_dashes(vg) + "-"@ + double_dashes(lv),
        None => storage,
    }
}

/// The older form of the device-mapper name, with only the volume part escaped.
pub open spec fn dm_name_legacy_of(storage: Seq<char>) -> Seq<char> {
    match split_once(storage, ':') {
        Some((vg, lv)) => vg + "-"@ + double_dashes(lv),
        None => storage,
    }
}

fn double_dashes_exec(s: &[char]) -> (r: Vec<char>)
    ensures
        r@ == double_dashes(s@),
{
    let mut r: Vec<char> = Vec::new();
    let mut i: usize = 0;
    while i < s.len()
        invariant
            i <= s.len(),
            r@ == double_dashes(s@.take(i as int)),
        decreases s.len() - i,
    {
        assert(s@.take(i + 1).drop_last() =~= s@.take(i as int));
        assert(s@.take(i + 1).last() == s@[i as int]);
        let ghost before = r@;
        if s[i] == '-' {
            r.push('-');
            r.push('-');
            assert(r@ =~= before + seq!['-', '-']);
        } else {
            r.push(s[i]);
            assert(r@ =~= before + seq![s@[i as int]]);
        }
        i = i + 1;
    }
    assert(s@.take(s.len() as int) =~= s@);
    r
}

fn dm_name_with(storage: &str, escape_group: bool) -> (r: String)
    ensures
        r@ == if escape_group {
            dm_name_of(storage@)
        } else {
            dm_name_legacy_of(storage@)
        },
{
    let cs = chars_of(storage);
    match split_once_exec(cs.as_slice(), ':') {
        Some((vg, lv)) => {
            let mut out = if escape_group {
                double_dashes_exec(vg.as_slice())
            } else {
                vg
            };
            let ghost first = out@;
            out.push('-');
            let mut tail = double_dashes_exec(lv.as_slice());
            let ghost t = tail@;
            out.append(&mut tail);
            assert(out@ =~= first + "-"@ + t) by {
                reveal_strlit("-");
            };
            string_of(out.as_slice())
        },
        None => storage.to_string(),
    }
}

impl PveSanClient {
    /// The device-mapper name of a storage volume `vg:lv` (both parts with '-'
    /// doubled, joined by '-'); other storage names are kept.
    pub fn storage_to_dm_name(&self, storage: &str) -> (r: String)
        ensures
            r@ == dm_name_of(storage@),
    {
        dm_name_with(storage, true)
    }

    /// The older device-mapper name of a storage volume (only the volume part escaped).
    pub fn storage_to_dm_name_legacy(&self, storage: &str) -> (r: String)
        ensures
            r@ == dm_name_legacy_of(storage@),
    {
        dm_name_with(storage, false)
    }
}

// ---------------------------------------------------------------------------
// Disk values and sizes.
// ---------------------------------------------------------------------------

/// The metadata of a disk value: the `key=value` parts, later ones replacing
/// earlier ones of the same key; parts without '=' are ignored.
pub open spec fn meta_from(parts: Seq<Seq<char>>) -> Pairs
    decreases parts.len(),
{
    if parts.len() == 0 {
        Seq::empty()
    } else {
        let prev = meta_from(parts.drop_last());
        match split_once(parts.last(), '=') {
            Some((k, v)) => pair_insert(prev, k, v),
            None => prev,
        }
    }
}

/// The storage of a disk value: the text before the first ','.
pub open spec fn disk_storage(value: Seq<char>) -> Seq<char> {
    split_on(value, ',')[0]
}

/// The metadata of a disk value: the `key=value` parts after the first ','.
pub open spec fn disk_metadata(value: Seq<char>) -> Pairs {
    meta_from(split_on(value, ',').drop_first())
}

/// The storage and the metadata of a disk value.
fn split_disk_value(value: &str) -> (r: (String, Vec<(String, String)>))
    ensures
        r.0@ == disk_storage(value@),
        pairs_view(r.1@) == disk_metadata(value@),
        pair_keys_unique(pairs_view(r.1@)),
{
    let cs = chars_of(value);
    let parts = split_chars(cs.as_slice(), ',');
    let ghost pv = parts@.map_values(|p: Vec<char>| p@);
    proof {
        lemma_split_on_nonempty(value@, ',');
    }
    assert(pv.len() >= 1);
    let storage = string_of(parts[0].as_slice());
    let mut metadata: Vec<(String, String)> = Vec::new();
    let mut i: usize = 1;
    assert(pv.drop_first().take(0) =~= Seq::<Seq<char>>::empty());
    assert(pairs_view(metadata@) =~= Pairs::empty());
    while i < parts.len()
        invariant
            1 <= i <= parts.len(),
            pv == parts@.map_values(|p: Vec<char>| p@),
            pv == split_on(value@, ','),
            pair_keys_unique(pairs_view(metadata@)),
            pairs_view(metadata@) == meta_from(pv.drop_first().take(i - 1)),
        decreases parts.len() - i,
    {
        assert(pv.drop_first().take(i as int).drop_last() =~= pv.drop_first().take(i - 1));
        assert(pv.drop_first().take(i as int).last() == parts@[i as int]@);
        match split_once_exec(parts[i].as_slice(), '=') {
            Some((k, v)) => {
                insert_pair(&mut metadata, string_of(k.as_slice()), string_of(v.as_slice()));
            },
            None => {},
        }
        i = i + 1;
    }
    assert(pv.drop_first().take(parts.len() - 1) =~= pv.drop_first());
    (storage, metadata)
}

impl PveSanClient {
    /// Splits a disk value such as `local-lvm:vm-100-disk-0,size=10G,backup=0`
    /// into its storage and its metadata. It never fails.
    pub fn parse_disk_value(&self, value: &str) -> (r: Result<(String, Vec<(String, String)>), PveSanError>)
        ensures
            r matches Ok(p) && p.0@ == disk_storage(value@) && pairs_view(p.1@) == disk_metadata(value@)
                && pair_keys_unique(pairs_view(p.1@)),
    {
        Ok(split_disk_value(value))
    }
}

/// What the size parser makes of a size text before any fraction is evaluated:
/// a final answer, or a number with a fraction (or exponent) and its unit in bytes.
pub enum SizeRequest {
    Known(Option<u64>),
    Fraction(String, u64),
}

pub enum SizeReq {
    Known(Option<u64>),
    Fraction(Seq<char>, u64),
}

impl View for SizeRequest {
    type V = SizeReq;

    open spec fn view(&self) -> SizeReq {
        match self {
            SizeRequest::Known(r) => SizeReq::Known(*r),
            SizeRequest::Fraction(s, m) => SizeReq::Fraction(s@, *m),
        }
    }
}

/// The largest size accepted: 100 PiB.
pub open spec fn max_size_bytes() -> u64 {
    112589990684262400
}

/// `n * m`, saturating at `u64::MAX`.
pub open spec fn sat_mul(n: u64, m: u64) -> u64 {
    if n * m > u64::MAX {
        u64::MAX
    } else {
        (n * m) as u64
    }
}

/// `s` without trailing characters `a` or `b` (as `trim_end_matches([a, b])`).
pub open spec fn trim_end_pair(s: Seq<char>, a: char, b: char) -> Seq<char>
    decreases s.len(),
{
    if s.len() > 0 && (s.last() == a || s.last() == b) {
        trim_end_pair(s.drop_last(), a, b)
    } else {
        s
    }
}

/// The unit letter and its size in bytes, when the text ends with a unit
/// (`K`, `M`, `G`, `T`, each with an optional `B`).
pub open spec fn size_unit(s: Seq<char>) -> Option<(char, u64)> {
    if has_suffix(s, "K"@) || has_suffix(s, "KB"@) {
        Some(('K', 1024))
    } else if has_suffix(s, "M"@) || has_suffix(s, "MB"@) {
        Some(('M', 1048576))
    } else if has_suffix(s, "G"@) || has_suffix(s, "GB"@) {
        Some(('G', 1073741824))
    } else if has_suffix(s, "T"@) || has_suffix(s, "TB"@) {
        Some(('T', 1099511627776))
    } else {
        None
    }
}

/// A number of units: a whole number is multiplied (saturating) and must not
/// exceed 100 PiB; anything else is left to the fraction parser.
pub open spec fn convert_req(num: Seq<char>, mult: u64) -> SizeReq {
    match spec_parse_u64(num) {
        Some(n) => SizeReq::Known(
            if sat_mul(n, mult) > max_size_bytes() {
                None
            } else {
                Some(sat_mul(n, mult))
            },
        ),
        None => SizeReq::Fraction(num, mult),
    }
}

/// The size request of an upper-cased, trimmed size text.
pub open spec fn size_req(upper: Seq<char>) -> SizeReq {
    match size_unit(upper) {
        Some((c, mult)) => convert_req(trim_end_pair(upper, c, 'B'), mult),
        None => match spec_parse_u64(upper) {
            Some(n) => SizeReq::Known(
                if n > max_size_bytes() {
                    None
                } else {
                    Some(n)
                },
            ),
            None => SizeReq::Fraction(upper, 1),
        },
    }
}

/// What `str::to_uppercase` makes of a text (Unicode upper case).
pub uninterp spec fn spec_uppercase(s: Seq<char>) -> Seq<char>;

/// Upper-cases a text with `str::to_uppercase`.
#[verifier::external_body]
fn to_uppercase(s: &str) -> (r: String)
    ensures
        r@ == spec_uppercase(s@),
{
    s.to_uppercase()
}

fn trim_end_pair_exec(s: &[char], a: char, b: char) -> (r: Vec<char>)
    ensures
        r@ == trim_end_pair(s@, a, b),
{
    let mut end: usize = s.len();
    assert(s@.take(end as int) =~= s@);
    while end > 0 && (s[end - 1] == a || s[end - 1] == b)
        invariant
            end <= s.len(),
            trim_end_pair(s@, a, b) == trim_end_pair(s@.take(end as int), a, b),
        decreases end,
    {
        assert(s@.take(end as int).drop_last() =~= s@.take(end - 1));
        end = end - 1;
    }
    let mut r: Vec<char> = Vec::new();
    let mut k: usize = 0;
    while k < end
        invariant
            k <= end <= s.len(),
            r@ == s@.take(k as int),
        decreases end - k,
    {
        r.push(s[k]);
        k = k + 1;
        assert(r@ =~= s@.take(k as int));
    }
    r
}

fn convert_req_exec(num: Vec<char>, mult: u64) -> (r: SizeRequest)
    ensures
        r@ == convert_req(num@, mult),
{
    match parse_u64(num.as_slice()) {
        Some(n) => {
            let bytes = match n.checked_mul(mult) {
                Some(b) => b,
                None => u64::MAX,
            };
            if bytes > 112589990684262400 {
                SizeRequest::Known(None)
            } else {
                SizeRequest::Known(Some(bytes))
            }
        },
        None => SizeRequest::Fraction(string_of(num.as_slice()), mult),
    }
}

impl PveSanClient {
    /// Reads an upper-cased, trimmed size text: a whole number of bytes or of
    /// K, M, G, T units (optionally followed by B), at most 100 PiB. A number that
    /// is not whole is handed back with its unit for the fraction parser.
    pub fn size_request_upper(upper: &str) -> (r: SizeRequest)
        ensures
            r@ == size_req(upper@),
    {
        let cs = chars_of(upper);
        let k = ['K'];
        let kb = ['K', 'B'];
        let m = ['M'];
        let mb = ['M', 'B'];
        let g = ['G'];
        let gb = ['G', 'B'];
        let t = ['T'];
        let tb = ['T', 'B'];
        proof {
            reveal_strlit("K");
            reveal_strlit("KB");
            reveal_strlit("M");
            reveal_strlit("MB");
            reveal_strlit("G");
            reveal_strlit("GB");
            reveal_strlit("T");
            reveal_strlit("TB");
            assert(k@ =~= "K"@);
            assert(kb@ =~= "KB"@);
            assert(m@ =~= "M"@);
            assert(mb@ =~= "MB"@);
            assert(g@ =~= "G"@);
            assert(gb@ =~= "GB"@);
            assert(t@ =~= "T"@);
            assert(tb@ =~= "TB"@);
        }
        let s = cs.as_slice();
        if ends_with_chars(s, &k) || ends_with_chars(s, &kb) {
            convert_req_exec(trim_end_pair_exec(s, 'K', 'B'), 1024)
        } else if ends_with_chars(s, &m) || ends_with_chars(s, &mb) {
            convert_req_exec(trim_end_pair_exec(s, 'M', 'B'), 1048576)
        } else if ends_with_chars(s, &g) || ends_with_chars(s, &gb) {
            convert_req_exec(trim_end_pair_exec(s, 'G', 'B'), 1073741824)
        } else if ends_with_chars(s, &t) || ends_with_chars(s, &tb) {
            convert_req_exec(trim_end_pair_exec(s, 'T', 'B'), 1099511627776)
        } else {
            match parse_u64(s) {
                Some(n) => if n > 112589990684262400 {
                    SizeRequest::Known(None)
                } else {
                    SizeRequest::Known(Some(n))
                },
                None => SizeRequest::Fraction(upper.to_string(), 1),
            }
        }
    }

    /// Reads a size text such as `10G` or `1024KB`: trimmed and upper-cased, then
    /// read as `size_request_upper` reads it.
    pub fn size_request(size_str: &str) -> (r: SizeRequest)
        ensures
            r@ == size_req(spec_uppercase(trim(size_str@))),
    {
        let cs = chars_of(size_str);
        let trimmed = string_of(trim_chars(cs.as_slice()).as_slice());
        let upper = to_uppercase(trimmed.as_str());
        Self::size_request_upper(upper.as_str())
    }
}

/// The size a disk's metadata gives when it is a whole number of bytes or units
/// (a size with a fraction is not decided here).
pub open spec fn known_size(meta: Pairs) -> Option<u64> {
    match pair_get(meta, "size"@) {
        Some(t) => match size_req(spec_uppercase(trim(t))) {
            SizeReq::Known(r) => r,
            SizeReq::Fraction(_, _) => None,
        },
        None => None,
    }
}

// ---------------------------------------------------------------------------
// Disks of a VM configuration.
// ---------------------------------------------------------------------------

pub open spec fn disks_view(v: Seq<VmDisk>) -> Seq<DiskModel> {
    v.map_values(|d: VmDisk| d@)
}

pub open spec fn disk_ids(v: Seq<DiskModel>) -> Seq<Seq<char>> {
    v.map_values(|d: DiskModel| d.device_id)
}

/// The configuration keys that name disks: a prefix followed by an index.
pub open spec fn disk_prefixes() -> Seq<Seq<char>> {
    seq!["scsi"@, "virtio"@, "sata"@, "ide"@, "efidisk"@]
}

/// The disk a configuration entry describes under a prefix, if its key is the
/// prefix followed by an index of at most 99 (read as `str::parse::<u32>` reads it).
pub open spec fn entry_disk(key: Seq<char>, value: Seq<char>, prefix: Seq<char>) -> Option<DiskModel> {
    if prefix.is_prefix_of(key) {
        match spec_parse_u64(key.skip(prefix.len() as int)) {
            Some(n) => if n <= 99 {
                Some(
                    DiskModel {
                        device_id: prefix + decimal(n as nat),
                        storage: disk_storage(value),
                        device_path: None,
                        device_mapper_name: None,
                        size_bytes: known_size(disk_metadata(value)),
                        metadata: Some(disk_metadata(value)),
                    },
                )
            } else {
                None
            },
            None => None,
        }
    } else {
        None
    }
}

/// The disks of one entry, one for each prefix it matches, in prefix order.
pub open spec fn entry_disks(key: Seq<char>, value: Seq<char>, prefixes: Seq<Seq<char>>) -> Seq<DiskModel>
    decreases prefixes.len(),
{
    if prefixes.len() == 0 {
        Seq::empty()
    } else {
        let prev = entry_disks(key, value, prefixes.drop_last());
        match entry_disk(key, value, prefixes.last()) {
            Some(d) => prev.push(d),
            None => prev,
        }
    }
}

/// The disks of a configuration, entry by entry.
pub open spec fn config_disks(entries: Pairs) -> Seq<DiskModel>
    decreases entries.len(),
{
    if entries.len() == 0 {
        Seq::empty()
    } else {
        config_disks(entries.drop_last()) + entry_disks(entries.last().0, entries.last().1, disk_prefixes())
    }
}

/// Sorts disks by their identifier (lexicographic), keeping every disk.
pub fn sort_disks(v: Vec<VmDisk>) -> (r: Vec<VmDisk>)
    ensures
        disks_view(r@).to_multiset() == disks_view(v@).to_multiset(),
        sorted_by(disk_ids(disks_view(r@)), lex_order()),
{
    let ghost orig = disks_view(v@);
    let mut rem = v;
    let mut res: Vec<VmDisk> = Vec::new();
    proof {
        broadcast use vstd::seq_lib::group_to_multiset_ensures;
        assert(disks_view(res@) =~= Seq::<DiskModel>::empty());
        assert(disks_view(res@).to_multiset().add(disks_view(rem@).to_multiset()) =~= orig.to_multiset());
    }
    while rem.len() > 0
        invariant
            disks_view(res@).to_multiset().add(disks_view(rem@).to_multiset()) == orig.to_multiset(),
            sorted_by(disk_ids(disks_view(res@)), lex_order()),
        decreases rem.len(),
    {
        let ghost old_rem = rem@;
        let x = rem.pop().unwrap();
        let mut j: usize = 0;
        while j < res.len() && lex_le_exec(res[j].device_id.as_str(), x.device_id.as_str())
            invariant
                j <= res.len(),
                forall|k: int| 0 <= k < j ==> lex_le(#[trigger] res@[k].device_id@, x.device_id@),
            decreases res.len() - j,
        {
            j = j + 1;
        }
        let ghost old_res = res@;
        proof {
            broadcast use vstd::seq_lib::group_to_multiset_ensures;
            let f = |d: VmDisk| d@;
            lemma_multiset_insert_at(old_res.map_values(f), j as int, x@);
            assert(old_res.insert(j as int, x).map_values(f) =~= old_res.map_values(f).insert(j as int, x@));
            assert(old_rem =~= rem@.push(x));
            assert(old_rem.map_values(f) =~= rem@.map_values(f).push(x@));
        }
        res.insert(j, x);
        proof {
            broadcast use vstd::seq_lib::group_to_multiset_ensures;
            broadcast use vstd::multiset::group_multiset_axioms;
            let m = disk_ids(disks_view(res@));
            let om = disk_ids(disks_view(old_res));
            let xid = x.device_id@;
            assert(disks_view(res@).to_multiset().add(disks_view(rem@).to_multiset()) =~= orig.to_multiset());
            assert forall|a: int, b: int| 0 <= a < b < m.len() implies #[trigger] lex_order()(m[a], m[b]) by {
                if j < old_res.len() {
                    assert(!lex_le(om[j as int], xid));
                    lemma_lex_total(om[j as int], xid);
                }
                if a < j && b < j {
                    assert(m[a] == om[a] && m[b] == om[b]);
                } else if a < j && b == j {
                    assert(m[a] == old_res[a].device_id@);
                } else if a < j && b > j {
                    assert(m[a] == om[a] && m[b] == om[b - 1]);
                    if a < b - 1 {
                        assert(lex_order()(om[a], om[b - 1]));
                    }
                } else if a == j {
                    assert(m[b] == om[b - 1]);
                    if j < b - 1 {
                        assert(lex_order()(om[j as int], om[b - 1]));
                        lemma_lex_trans(xid, om[j as int], om[b - 1]);
                    }
                } else {
                    assert(m[a] == om[a - 1] && m[b] == om[b - 1]);
                    assert(lex_order()(om[a - 1], om[b - 1]));
                }
            }
        }
    }
    proof {
        broadcast use vstd::seq_lib::group_to_multiset_ensures;
        assert(disks_view(rem@) =~= Seq::<DiskModel>::empty());
        assert(disks_view(res@).to_multiset().add(disks_view(rem@).to_multiset()) =~= disks_view(res@).to_multiset());
    }
    res
}

fn disk_for(device_id: String, value: &str) -> (r: VmDisk)
    ensures
        r@ == (DiskModel {
            device_id: device_id@,
            storage: disk_storage(value@),
            device_path: None,
            device_mapper_name: None,
            size_bytes: known_size(disk_metadata(value@)),
            metadata: Some(disk_metadata(value@)),
        }),
{
    let (storage, metadata) = split_disk_value(value);
    let size_bytes = match get_pair(&metadata, "size") {
        Some(t) => match PveSanClient::size_request(t.as_str()) {
            SizeRequest::Known(r) => r,
            SizeRequest::Fraction(_, _) => None,
        },
        None => None,
    };
    VmDisk {
        device_id,
        storage,
        device_path: None,
        device_mapper_name: None,
        size_bytes,
        metadata: Some(metadata),
    }
}

impl PveSanClient {
    /// The disks of a VM configuration (its key/value entries): each entry whose
    /// key is `scsi`, `virtio`, `sata`, `ide` or `efidisk` followed by an index of
    /// at most 99 gives a disk named by prefix and index, with its storage,
    /// metadata and size; the disks come sorted by name. It never fails.
    /// Sizes with a fraction are not evaluated here (`size_bytes` is `None`).
    pub fn extract_disks(&self, config_map: &Vec<(String, String)>) -> (r: Result<Vec<VmDisk>, PveSanError>)
        ensures
            r matches Ok(ds) && disks_view(ds@).to_multiset() == config_disks(pairs_view(config_map@)).to_multiset()
                && sorted_by(disk_ids(disks_view(ds@)), lex_order()),
    {
        let prefixes = ["scsi", "virtio", "sata", "ide", "efidisk"];
        let ghost pfx = prefixes@.map_values(|p: &str| p@);
        assert(pfx =~= disk_prefixes());
        let mut disks: Vec<VmDisk> = Vec::new();
        let mut i: usize = 0;
        let ghost entries = pairs_view(config_map@);
        assert(entries.take(0) =~= Pairs::empty());
        assert(disks_view(disks@) =~= Seq::<DiskModel>::empty());
        while i < config_map.len()
            invariant
                i <= config_map.len(),
                entries == pairs_view(config_map@),
                pfx == prefixes@.map_values(|p: &str| p@),
                pfx == disk_prefixes(),
                disks_view(disks@) == config_disks(entries.take(i as int)),
            decreases config_map.len() - i,
        {
            let key = &config_map[i].0;
            let value = &config_map[i].1;
            assert(entries.take(i + 1).drop_last() =~= entries.take(i as int));
            assert(entries.take(i + 1).last() == (key@, value@));
            let kc = chars_of(key.as_str());
            let ghost base = disks_view(disks@);
            let mut j: usize = 0;
            assert(pfx.take(0) =~= Seq::<Seq<char>>::empty());
            assert(disks_view(disks@) =~= base + entry_disks(key@, value@, pfx.take(0)));
            while j < prefixes.len()
                invariant
                    j <= prefixes.len(),
                    kc@ == key@,
                    pfx == prefixes@.map_values(|p: &str| p@),
                    disks_view(disks@) == base + entry_disks(key@, value@, pfx.take(j as int)),
                decreases prefixes.len() - j,
            {
                assert(pfx.take(j + 1).drop_last() =~= pfx.take(j as int));
                assert(pfx.take(j + 1).last() == prefixes[j as int]@);
                let pc = chars_of(prefixes[j]);
                let ghost before = disks_view(disks@);
                if starts_with_chars(kc.as_slice(), pc.as_slice()) {
                    let mut idx: Vec<char> = Vec::new();
                    let mut k: usize = pc.len();
                    while k < kc.len()
                        invariant
                            pc.len() <= k <= kc.len(),
                            idx@ == kc@.subrange(pc.len() as int, k as int),
                        decreases kc.len() - k,
                    {
                        idx.push(kc[k]);
                        k = k + 1;
                        assert(idx@ =~= kc@.subrange(pc.len() as int, k as int));
                    }
                    assert(idx@ =~= key@.skip(pc.len() as int));
                    match parse_u64(idx.as_slice()) {
                        Some(n) => {
                            if n <= 99 {
                                let id = concat(prefixes[j], u64_to_decimal(n).as_str());
                                let d = disk_for(id, value.as_str());
                                disks.push(d);
                                assert(disks_view(disks@) =~= before.push(d@));
                            }
                        },
                        None => {},
                    }
                }
                j = j + 1;
                assert(disks_view(disks@) =~= base + entry_disks(key@, value@, pfx.take(j as int)));
            }
            assert(pfx.take(5) =~= pfx);
            i = i + 1;
        }
        assert(entries.take(config_map.len() as int) =~= entries);
        Ok(sort_disks(disks))
    }
}

// ---------------------------------------------------------------------------
// VM configurations and VM lists.
// ---------------------------------------------------------------------------

/// The entries of a JSON object, as configuration values.
pub open spec fn json_pairs(ms: Seq<(String, JsonValue)>) -> Pairs
    decreases ms.len(),
{
    if ms.len() == 0 {
        Seq::empty()
    } else {
        pair_insert(json_pairs(ms.drop_last()), ms.last().0@, json_text(ms.last().1))
    }
}

/// The entries of `key: value` lines (each trimmed): empty lines and `#` comments
/// are skipped, lines without ':' are ignored, and a line starting with '['
/// (a pending or snapshot section) ends the configuration.
pub open spec fn conf_pairs(lines: Seq<Seq<char>>, acc: Pairs) -> Pairs
    decreases lines.len(),
{
    if lines.len() == 0 {
        acc
    } else {
        let l = trim(lines[0]);
        if l.len() == 0 || l[0] == '#' {
            conf_pairs(lines.drop_first(), acc)
        } else if l[0] == '[' {
            acc
        } else {
            match split_once(l, ':') {
                Some((k, v)) => conf_pairs(lines.drop_first(), pair_insert(acc, trim(k), trim(v))),
                None => conf_pairs(lines.drop_first(), acc),
            }
        }
    }
}

/// The entries of a VM configuration text: the members of a JSON object, or else
/// its `key: value` lines.
pub open spec fn vm_config_pairs(text: Seq<char>) -> Pairs {
    match spec_parse_json(text) {
        Some(JsonValue::Object(ms, _)) => json_pairs(ms@),
        _ => conf_pairs(split_on(text, '\n'), Seq::empty()),
    }
}

impl PveSanClient {
    /// Reads a VM configuration, given as a JSON object or as `key: value` lines.
    /// It never fails.
    pub fn parse_vm_config(&self, config_text: &str) -> (r: Result<Vec<(String, String)>, PveSanError>)
        ensures
            r matches Ok(m) && pairs_view(m@) == vm_config_pairs(config_text@) && pair_keys_unique(pairs_view(m@)),
    {
        let mut config_map: Vec<(String, String)> = Vec::new();
        assert(pairs_view(config_map@) =~= Pairs::empty());
        let parsed = parse_json(config_text);
        match &parsed {
            Some(JsonValue::Object(ms, _)) => {
                assert(vm_config_pairs(config_text@) == json_pairs(ms@));
                let mut i: usize = 0;
                assert(ms@.take(0) =~= Seq::<(String, JsonValue)>::empty());
                while i < ms.len()
                    invariant
                        i <= ms.len(),
                        vm_config_pairs(config_text@) == json_pairs(ms@),
                        pair_keys_unique(pairs_view(config_map@)),
                        pairs_view(config_map@) == json_pairs(ms@.take(i as int)),
                    decreases ms.len() - i,
                {
                    assert(ms@.take(i + 1).drop_last() =~= ms@.take(i as int));
                    assert(ms@.take(i + 1).last() == ms@[i as int]);
                    let key = ms[i].0.clone();
                    let value = json_to_text(&ms[i].1);
                    insert_pair(&mut config_map, key, value);
                    i = i + 1;
                }
                assert(ms@.take(ms.len() as int) =~= ms@);
                return Ok(config_map);
            },
            _ => {
                assert(vm_config_pairs(config_text@) == conf_pairs(split_on(config_text@, '\n'), Seq::empty()));
            },
        }
        let cs = chars_of(config_text);
        let lines = split_chars(cs.as_slice(), '\n');
        let ghost lv = lines@.map_values(|l: Vec<char>| l@);
        let mut i: usize = 0;
        assert(lv.skip(0) =~= lv);
        while i < lines.len()
            invariant
                i <= lines.len(),
                lv == lines@.map_values(|l: Vec<char>| l@),
                lv == split_on(config_text@, '\n'),
                vm_config_pairs(config_text@) == conf_pairs(lv, Seq::empty()),
                pair_keys_unique(pairs_view(config_map@)),
                conf_pairs(lv, Seq::empty()) == conf_pairs(lv.skip(i as int), pairs_view(config_map@)),
            decreases lines.len() - i,
        {
            assert(lv.skip(i as int)[0] == lines@[i as int]@);
            assert(lv.skip(i as int).drop_first() =~= lv.skip(i + 1));
            let line = trim_chars(lines[i].as_slice());
            if line.len() == 0 || line[0] == '#' {
                i = i + 1;
            } else if line[0] == '[' {
                assert(trim(lv.skip(i as int)[0]) == line@);
                assert(conf_pairs(lv.skip(i as int), pairs_view(config_map@)) == pairs_view(config_map@));
                return Ok(config_map);
            } else {
                match split_once_exec(line.as_slice(), ':') {
                    Some((k, v)) => {
                        let key = string_of(trim_chars(k.as_slice()).as_slice());
                        let value = string_of(trim_chars(v.as_slice()).as_slice());
                        insert_pair(&mut config_map, key, value);
                    },
                    None => {},
                }
                i = i + 1;
            }
        }
        assert(lv.skip(i as int) =~= Seq::<Seq<char>>::empty());
        Ok(config_map)
    }
}

/// A member of a JSON object (a missing member, or a non-object, gives none).
pub open spec fn item_field(item: JsonValue, key: Seq<char>) -> Option<JsonValue> {
    match item {
        JsonValue::Object(ms, _) => member(ms@, key),
        _ => None,
    }
}

/// A field read as a number: a non-negative integer, or a string holding one.
pub open spec fn field_u64(f: Option<JsonValue>) -> Option<u64> {
    match f {
        Some(JsonValue::Number(t)) => number_u64(t@),
        Some(JsonValue::Str(s)) => spec_parse_u64(s@),
        _ => None,
    }
}

/// The VMID of a listed VM: its `vmid` field, else its `subdir` field.
pub open spec fn item_vmid(item: JsonValue) -> Option<u64> {
    match field_u64(item_field(item, "vmid"@)) {
        Some(n) => Some(n),
        None => field_u64(item_field(item, "subdir"@)),
    }
}

/// The status of a listed VM (`unknown` when it has none as a string).
pub open spec fn item_status(item: JsonValue) -> Seq<char> {
    match item_field(item, "status"@) {
        Some(JsonValue::Str(s)) => s@,
        _ => "unknown"@,
    }
}

/// The running VMs of a VM list, in list order; none when an item has no VMID.
pub open spec fn running_vms(items: Seq<JsonValue>) -> Option<Seq<(u64, Seq<char>)>>
    decreases items.len(),
{
    if items.len() == 0 {
        Some(Seq::empty())
    } else {
        match running_vms(items.drop_last()) {
            None => None,
            Some(prev) => match item_vmid(items.last()) {
                None => None,
                Some(id) => if item_status(items.last()) == "running"@ {
                    Some(prev.push((id, item_status(items.last()))))
                } else {
                    Some(prev)
                },
            },
        }
    }
}

pub open spec fn vms_view(v: Seq<(u64, String)>) -> Seq<(u64, Seq<char>)> {
    v.map_values(|p: (u64, String)| (p.0, p.1@))
}

fn get_field<'a>(item: &'a JsonValue, key: &str) -> (r: Option<&'a JsonValue>)
    ensures
        match r {
            Some(v) => item_field(*item, key@) == Some(*v),
            None => item_field(*item, key@) is None,
        },
{
    match item {
        JsonValue::Object(ms, _) => get_member(ms, key),
        _ => None,
    }
}

fn field_to_u64(f: Option<&JsonValue>) -> (r: Option<u64>)
    ensures
        r == field_u64(
            match f {
                Some(v) => Some(*v),
                None => None,
            },
        ),
{
    match f {
        Some(JsonValue::Number(t)) => number_to_u64(t.as_str()),
        Some(JsonValue::Str(s)) => {
            let cs = chars_of(s.as_str());
            parse_u64(cs.as_slice())
        },
        _ => None,
    }
}

impl PveSanClient {
    /// Reads the running VMs from pvesh's JSON listing of a node's VMs: each item's
    /// VMID (`vmid`, else `subdir`, as a number or a numeric string) and status;
    /// only VMs whose status is `running` are kept, in list order. Fails with a
    /// `JsonParseError` (the parser's message) when the text is not a JSON array,
    /// and with a `ListVmError` when an item has no VMID.
    pub fn running_vms_from_json(&self, json_output: &str) -> (r: Result<Vec<(u64, String)>, PveSanError>)
        ensures
            match spec_parse_json_list(json_output@) {
                Err(e) => r matches Err(PveSanError::JsonParseError(m)) && m@ == e,
                Ok(items) => match running_vms(items) {
                    None => r matches Err(PveSanError::ListVmError(m)) && m@ == "VMID is missing or not a number"@,
                    Some(vs) => r matches Ok(v) && vms_view(v@) == vs,
                },
            },
    {
        let items = match parse_json_list(json_output) {
            Ok(items) => items,
            Err(e) => return Err(PveSanError::JsonParseError(e)),
        };
        assert(spec_parse_json_list(json_output@) == Ok::<Seq<JsonValue>, Seq<char>>(items@));
        let mut vms: Vec<(u64, String)> = Vec::new();
        let mut i: usize = 0;
        assert(items@.take(0) =~= Seq::<JsonValue>::empty());
        assert(vms_view(vms@) =~= Seq::<(u64, Seq<char>)>::empty());
        while i < items.len()
            invariant
                i <= items.len(),
                spec_parse_json_list(json_output@) == Ok::<Seq<JsonValue>, Seq<char>>(items@),
                running_vms(items@.take(i as int)) == Some(vms_view(vms@)),
            decreases items.len() - i,
        {
            let item = &items[i];
            assert(items@.take(i + 1).drop_last() =~= items@.take(i as int));
            assert(items@.take(i + 1).last() == *item);
            let vmid = match field_to_u64(get_field(item, "vmid")) {
                Some(n) => Some(n),
                None => field_to_u64(get_field(item, "subdir")),
            };
            let vmid = match vmid {
                Some(n) => n,
                None => {
                    proof {
                        assert(item_vmid(items@[i as int]) is None);
                        assert(running_vms(items@.take(i + 1)) is None);
                        lemma_running_vms_prefix_none(items@, i + 1);
                    }
                    return Err(PveSanError::ListVmError("VMID is missing or not a number".to_string()));
                },
            };
            let status: String = match get_field(item, "status") {
                Some(JsonValue::Str(s)) => s.clone(),
                _ => "unknown".to_string(),
            };
            if str_eq(status.as_str(), "running") {
                let ghost before = vms_view(vms@);
                let ghost st = status@;
                vms.push((vmid, status));
                assert(vms_view(vms@) =~= before.push((vmid, st)));
            }
            i = i + 1;
        }
        assert(items@.take(items.len() as int) =~= items@);
        Ok(vms)
    }
}

proof fn lemma_running_vms_prefix_none(items: Seq<JsonValue>, k: int)
    requires
        0 <= k <= items.len(),
        running_vms(items.take(k)) is None,
    ensures
        running_vms(items) is None,
    decreases items.len() - k,
{
    if k < items.len() {
        assert(items.take(k + 1).drop_last() =~= items.take(k));
        lemma_running_vms_prefix_none(items, k + 1);
    } else {
        assert(items.take(k) =~= items);
    }
}

/// The VMID that a configuration file name gives: `<vmid>.conf`, the VMID read as
/// `str::parse::<u64>` reads it.
pub open spec fn conf_file_vmid(name: Seq<char>) -> Option<u64> {
    if has_suffix(name, ".conf"@) {
        spec_parse_u64(name.take(name.len() - 5))
    } else {
        None
    }
}

/// The VMs that a directory of configuration files lists, in directory order.
pub open spec fn conf_file_vms(names: Seq<Seq<char>>) -> Seq<u64>
    decreases names.len(),
{
    if names.len() == 0 {
        Seq::empty()
    } else {
        match conf_file_vmid(names.last()) {
            Some(id) => conf_file_vms(names.drop_last()).push(id),
            None => conf_file_vms(names.drop_last()),
        }
    }
}

pub open spec fn ids_sorted(v: Seq<(u64, Seq<char>)>) -> bool {
    forall|a: int, b: int| 0 <= a < b < v.len() ==> v[a].0 <= v[b].0
}

impl PveSanClient {
    /// The VMs of the local configuration files, given the names of the regular
    /// files in the configuration directory: each `<vmid>.conf` gives a VM with
    /// status `running`; the list comes sorted by VMID (files of one VMID in
    /// directory order).
    pub fn vms_from_config_files(&self, file_names: &Vec<String>) -> (r: Vec<(u64, String)>)
        ensures
            vms_view(r@).map_values(|p: (u64, Seq<char>)| p.0).to_multiset() == conf_file_vms(
                file_names@.map_values(|s: String| s@),
            ).to_multiset(),
            forall|i: int| 0 <= i < r.len() ==> r@[i].1@ == "running"@,
            ids_sorted(vms_view(r@)),
    {
        let ghost names = file_names@.map_values(|s: String| s@);
        let suffix = ['.', 'c', 'o', 'n', 'f'];
        assert(suffix@ =~= ".conf"@) by {
            reveal_strlit(".conf");
        };
        let mut r: Vec<(u64, String)> = Vec::new();
        let mut i: usize = 0;
        proof {
            broadcast use vstd::seq_lib::group_to_multiset_ensures;
            assert(names.take(0) =~= Seq::<Seq<char>>::empty());
            assert(vms_view(r@).map_values(|p: (u64, Seq<char>)| p.0) =~= Seq::<u64>::empty());
        }
        while i < file_names.len()
            invariant
                i <= file_names.len(),
                names == file_names@.map_values(|s: String| s@),
                suffix@ == ".conf"@,
                vms_view(r@).map_values(|p: (u64, Seq<char>)| p.0).to_multiset() == conf_file_vms(
                    names.take(i as int),
                ).to_multiset(),
                forall|k: int| 0 <= k < r.len() ==> r@[k].1@ == "running"@,
                ids_sorted(vms_view(r@)),
            decreases file_names.len() - i,
        {
            assert(names.take(i + 1).drop_last() =~= names.take(i as int));
            assert(names.take(i + 1).last() == file_names@[i as int]@);
            let cs = chars_of(file_names[i].as_str());
            if ends_with_chars(cs.as_slice(), &suffix) {
                let stem_len = cs.len() - 5;
                let mut stem: Vec<char> = Vec::new();
                let mut k: usize = 0;
                while k < stem_len
                    invariant
                        k <= stem_len < cs.len(),
                        stem@ == cs@.take(k as int),
                    decreases stem_len - k,
                {
                    stem.push(cs[k]);
                    k = k + 1;
                    assert(stem@ =~= cs@.take(k as int));
                }
                match parse_u64(stem.as_slice()) {
                    Some(vmid) => {
                        let mut j: usize = r.len();
                        while j > 0 && r[j - 1].0 > vmid
                            invariant
                                j <= r.len(),
                                forall|q: int| j <= q < r.len() ==> r@[q].0 > vmid,
                            decreases j,
                        {
                            j = j - 1;
                        }
                        let ghost old_r = r@;
                        let entry = (vmid, "running".to_string());
                        proof {
                            broadcast use vstd::seq_lib::group_to_multiset_ensures;
                            let f = |p: (u64, Seq<char>)| p.0;
                            lemma_multiset_insert_at(vms_view(old_r).map_values(f), j as int, vmid);
                            assert(vms_view(old_r.insert(j as int, entry)).map_values(f)
                                =~= vms_view(old_r).map_values(f).insert(j as int, vmid));
                        }
                        r.insert(j, entry);
                        proof {
                            assert(vms_view(r@).map_values(|p: (u64, Seq<char>)| p.0) =~= vms_view(old_r).map_values(
                                |p: (u64, Seq<char>)| p.0,
                            ).insert(j as int, vmid));
                            assert(j == 0 || old_r[j - 1].0 <= vmid);
                            assert(r@ == old_r.insert(j as int, entry));
                            old_r.insert_ensures(j as int, entry);
                            assert forall|a: int, b: int| 0 <= a < b < r.len() implies vms_view(r@)[a].0 <= vms_view(r@)[b].0 by {
                                if j > 0 {
                                    assert(vms_view(old_r)[j - 1].0 == old_r[j - 1].0);
                                }
                                if a < j {
                                    assert(r@[a] == old_r[a]);
                                    if a < j - 1 {
                                        assert(vms_view(old_r)[a].0 <= vms_view(old_r)[j - 1].0);
                                    }
                                    assert(r@[a].0 <= vmid);
                                    if b < j {
                                        assert(r@[b] == old_r[b]);
                                        assert(vms_view(old_r)[a].0 <= vms_view(old_r)[b].0);
                                    } else if b > j {
                                        assert(r@[b] == old_r[b - 1]);
                                    }
                                } else if a == j {
                                    assert(r@[b] == old_r[b - 1]);
                                } else {
                                    assert(r@[a] == old_r[a - 1]);
                                    assert(r@[b] == old_r[b - 1]);
                                    assert(vms_view(old_r)[a - 1].0 <= vms_view(old_r)[b - 1].0);
                                }
                            }
                        }
                    },
                    None => {},
                }
            }
            i = i + 1;
        }
        assert(names.take(file_names.len() as int) =~= names);
        r
    }
}

// ---------------------------------------------------------------------------
// Which multipath devices back which block devices.
// ---------------------------------------------------------------------------

/// A block device of lsblk's tree.
#[derive(Debug)]
pub struct LsblkDevice {
    pub name: String,
    pub device_type: String,
    pub children: Option<Vec<LsblkDevice>>,
}

/// lsblk's JSON output.
#[derive(Debug)]
pub struct LsblkOutput {
    pub blockdevices: Option<Vec<LsblkDevice>>,
}

/// Strictly increasing in lexicographic order (hence without repeats).
pub open spec fn strictly_sorted(l: Seq<Seq<char>>) -> bool {
    forall|a: int, b: int| #![trigger l[a], l[b]] 0 <= a < b < l.len() ==> lex_le(l[a], l[b]) && l[a] != l[b]
}

pub open spec fn strings_view(v: Seq<String>) -> Seq<Seq<char>> {
    v.map_values(|s: String| s@)
}

/// The model of a map from device names to the multipath devices above them.
pub open spec fn mpath_map_view(m: Seq<(String, Vec<String>)>) -> Seq<(Seq<char>, Seq<Seq<char>>)> {
    m.map_values(|e: (String, Vec<String>)| (e.0@, strings_view(e.1@)))
}

/// Distinct keys, each with a non-empty, strictly sorted list of multipath devices.
pub open spec fn mpath_map_wf(m: Seq<(Seq<char>, Seq<Seq<char>>)>) -> bool {
    &&& forall|i: int, j: int| 0 <= i < m.len() && 0 <= j < m.len() && i != j ==> m[i].0 != m[j].0
    &&& forall|i: int| 0 <= i < m.len() ==> strictly_sorted(#[trigger] m[i].1) && m[i].1.len() > 0
}

/// The (device, multipath device) links a map records.
pub open spec fn map_links(m: Seq<(Seq<char>, Seq<Seq<char>>)>) -> Set<(Seq<char>, Seq<char>)> {
    Set::new(
        |p: (Seq<char>, Seq<char>)|
            exists|i: int| 0 <= i < m.len() && m[i].0 == p.0 && #[trigger] m[i].1.contains(p.1),
    )
}

/// The links a (sub)tree of block devices gives, below multipath device `cur` (if
/// any), at nesting depth `depth`: each device at or below a multipath device is
/// linked to the nearest one at or above it. Levels deeper than 32 are not read.
pub open spec fn mpath_links(devs: Seq<LsblkDevice>, cur: Option<Seq<char>>, depth: nat) -> Set<(Seq<char>, Seq<char>)>
    decreases 33 - depth, devs.len(),
{
    if depth > 32 || devs.len() == 0 {
        Set::empty()
    } else {
        let d = devs.last();
        let next = if d.device_type@ == "mpath"@ {
            Some(d.name@)
        } else {
            cur
        };
        let own = match next {
            Some(m) => set![(d.name@, m)],
            None => Set::empty(),
        };
        let kids = match d.children {
            Some(c) => mpath_links(c@, next, depth + 1),
            None => Set::empty(),
        };
        mpath_links(devs.drop_last(), cur, depth).union(own).union(kids)
    }
}

proof fn lemma_insert_keeps_sorted(old_v: Seq<Seq<char>>, j: int, x: Seq<char>)
    requires
        strictly_sorted(old_v),
        0 <= j <= old_v.len(),
        forall|k: int| 0 <= k < j ==> lex_le(#[trigger] old_v[k], x) && old_v[k] != x,
        j < old_v.len() ==> lex_le(x, old_v[j]) && x != old_v[j],
    ensures
        strictly_sorted(old_v.insert(j, x)),
{
    let nv = old_v.insert(j, x);
    old_v.insert_ensures(j, x);
    assert forall|a: int, b: int| #![trigger nv[a], nv[b]] 0 <= a < b < nv.len() implies lex_le(nv[a], nv[b]) && nv[a] != nv[b] by {
        if a < j && b < j {
            assert(nv[a] == old_v[a] && nv[b] == old_v[b]);
            assert(lex_le(old_v[a], old_v[b]) && old_v[a] != old_v[b]);
        } else if a < j && b == j {
            assert(nv[a] == old_v[a] && nv[b] == x);
            assert(lex_le(old_v[a], x) && old_v[a] != x);
        } else if a < j {
            assert(nv[a] == old_v[a] && nv[b] == old_v[b - 1]);
            assert(lex_le(old_v[a], old_v[b - 1]) && old_v[a] != old_v[b - 1]);
        } else if a == j {
            assert(nv[a] == x && nv[b] == old_v[b - 1]);
            if j < b - 1 {
                assert(lex_le(old_v[j], old_v[b - 1]) && old_v[j] != old_v[b - 1]);
                lemma_lex_trans(x, old_v[j], old_v[b - 1]);
                if x == old_v[b - 1] {
                    lemma_lex_antisym(x, old_v[j]);
                }
            }
        } else {
            assert(nv[a] == old_v[a - 1] && nv[b] == old_v[b - 1]);
            assert(lex_le(old_v[a - 1], old_v[b - 1]) && old_v[a - 1] != old_v[b - 1]);
        }
    }
}

/// Adds a name to a strictly sorted list of names, if it is not there yet.
#[verifier::rlimit(40)]
pub fn insert_sorted(list: &mut Vec<String>, x: &str)
    requires
        strictly_sorted(strings_view(old(list)@)),
    ensures
        strictly_sorted(strings_view(final(list)@)),
        strings_view(final(list)@).to_set() == strings_view(old(list)@).to_set().insert(x@),
        strings_view(final(list)@).len() > 0,
{
    let ghost old_v = strings_view(list@);
    let mut j: usize = 0;
    while j < list.len() && lex_le_exec(list[j].as_str(), x) && !str_eq(list[j].as_str(), x)
        invariant
            j <= list.len(),
            list@ == old(list)@,
            old_v == strings_view(list@),
            forall|k: int| 0 <= k < j ==> lex_le(#[trigger] old_v[k], x@) && old_v[k] != x@,
        decreases list.len() - j,
    {
        j = j + 1;
    }
    if j < list.len() && str_eq(list[j].as_str(), x) {
        assert(old_v[j as int] == x@);
        assert(old_v.to_set().insert(x@) =~= old_v.to_set());
        return;
    }
    proof {
        if j < list.len() {
            assert(!lex_le(old_v[j as int], x@));
            lemma_lex_total(old_v[j as int], x@);
        }
    }
    let xs = x.to_string();
    list.insert(j, xs);
    proof {
        let nv = strings_view(list@);
        assert(nv =~= old_v.insert(j as int, x@));
        old_v.insert_ensures(j as int, x@);
        if j < old_v.len() {
            if x@ == old_v[j as int] {
                lemma_lex_refl(x@);
            }
        }
        lemma_insert_keeps_sorted(old_v, j as int, x@);
        assert forall|y: Seq<char>| nv.to_set().contains(y) <==> old_v.to_set().insert(x@).contains(y) by {
            if nv.to_set().contains(y) {
                let k = choose|k: int| 0 <= k < nv.len() && nv[k] == y;
                if k < j {
                    assert(old_v[k] == y);
                } else if k > j {
                    assert(old_v[k - 1] == y);
                }
            }
            if old_v.to_set().contains(y) {
                let k = choose|k: int| 0 <= k < old_v.len() && old_v[k] == y;
                if k < j {
                    assert(nv[k] == y);
                } else {
                    assert(nv[k + 1] == y);
                }
            }
            if y == x@ {
                assert(nv[j as int] == y);
            }
        }
        assert(nv.to_set() =~= old_v.to_set().insert(x@));
    }
}

fn find_key(m: &Vec<(String, Vec<String>)>, key: &str) -> (r: Option<usize>)
    requires
        mpath_map_wf(mpath_map_view(m@)),
    ensures
        match r {
            Some(i) => i < m.len() && m@[i as int].0@ == key@,
            None => forall|i: int| 0 <= i < m.len() ==> m@[i].0@ != key@,
        },
{
    let mut i: usize = 0;
    while i < m.len()
        invariant
            i <= m.len(),
            forall|k: int| 0 <= k < i ==> m@[k].0@ != key@,
        decreases m.len() - i,
    {
        if str_eq(m[i].0.as_str(), key) {
            return Some(i);
        }
        i = i + 1;
    }
    None
}

/// Records that a device lies below a multipath device.
#[verifier::spinoff_prover]
pub fn add_link(m: &mut Vec<(String, Vec<String>)>, dev: &str, mpath: &str)
    requires
        mpath_map_wf(mpath_map_view(old(m)@)),
    ensures
        mpath_map_wf(mpath_map_view(final(m)@)),
        map_links(mpath_map_view(final(m)@)) == map_links(mpath_map_view(old(m)@)).insert((dev@, mpath@)),
{
    let ghost ov = mpath_map_view(m@);
    match find_key(m, dev) {
        Some(i) => {
            let mut entry = m.remove(i);
            let ghost before = strings_view(entry.1@);
            assert(ov[i as int].1 == before);
            insert_sorted(&mut entry.1, mpath);
            m.insert(i, entry);
            proof {
                let nv = mpath_map_view(m@);
                assert(nv =~= ov.update(i as int, (dev@, strings_view(entry.1@))));
                assert(mpath_map_wf(nv)) by {
                    assert forall|a: int, b: int| 0 <= a < nv.len() && 0 <= b < nv.len() && a != b implies nv[a].0 != nv[b].0 by {
                        assert(nv[a].0 == ov[a].0 && nv[b].0 == ov[b].0);
                    }
                    assert forall|a: int| 0 <= a < nv.len() implies strictly_sorted(#[trigger] nv[a].1) && nv[a].1.len() > 0 by {
                        if a != i {
                            assert(nv[a] == ov[a]);
                        }
                    }
                };
                assert forall|p: (Seq<char>, Seq<char>)| map_links(nv).contains(p) <==> map_links(ov).insert((dev@, mpath@)).contains(p) by {
                    if map_links(nv).contains(p) {
                        let k = choose|k: int| 0 <= k < nv.len() && nv[k].0 == p.0 && #[trigger] nv[k].1.contains(p.1);
                        if k == i {
                            assert(strings_view(entry.1@).to_set().contains(p.1));
                            if p.1 != mpath@ {
                                assert(before.to_set().contains(p.1));
                                assert(ov[k].1.contains(p.1));
                            }
                        } else {
                            assert(nv[k] == ov[k]);
                        }
                    }
                    if map_links(ov).contains(p) {
                        let k = choose|k: int| 0 <= k < ov.len() && ov[k].0 == p.0 && #[trigger] ov[k].1.contains(p.1);
                        if k == i {
                            assert(before.to_set().contains(p.1));
                            assert(strings_view(entry.1@).to_set().contains(p.1));
                            assert(nv[k].1.contains(p.1));
                        } else {
                            assert(nv[k] == ov[k]);
                        }
                    }
                    if p == (dev@, mpath@) {
                        assert(strings_view(entry.1@).to_set().contains(mpath@));
                        assert(nv[i as int].1.contains(mpath@));
                    }
                }
                assert(map_links(nv) =~= map_links(ov).insert((dev@, mpath@)));
            }
        },
        None => {
            let mut list: Vec<String> = Vec::new();
            list.push(mpath.to_string());
            let d = dev.to_string();
            let ghost lv = strings_view(list@);
            m.push((d, list));
            proof {
                let nv = mpath_map_view(m@);
                assert(nv =~= ov.push((dev@, lv)));
                assert(lv =~= seq![mpath@]);
                assert(lv.contains(mpath@)) by {
                    assert(lv[0] == mpath@);
                };
                assert(mpath_map_wf(nv)) by {
                    assert forall|a: int, b: int| 0 <= a < nv.len() && 0 <= b < nv.len() && a != b implies nv[a].0 != nv[b].0 by {
                        if a < ov.len() && b < ov.len() {
                            assert(nv[a].0 == ov[a].0 && nv[b].0 == ov[b].0);
                        } else if a < ov.len() {
                            assert(nv[a].0 == m@[a].0@);
                        } else {
                            assert(nv[b].0 == m@[b].0@);
                        }
                    }
                    assert forall|a: int| 0 <= a < nv.len() implies strictly_sorted(#[trigger] nv[a].1) && nv[a].1.len() > 0 by {
                        if a < ov.len() {
                            assert(nv[a] == ov[a]);
                        }
                    }
                };
                assert forall|p: (Seq<char>, Seq<char>)| #[trigger] map_links(nv).contains(p) implies map_links(ov).insert(
                    (dev@, mpath@),
                ).contains(p) by {
                    let k = choose|k: int| 0 <= k < nv.len() && nv[k].0 == p.0 && #[trigger] nv[k].1.contains(p.1);
                    if k < ov.len() {
                        assert(nv[k] == ov[k]);
                        assert(ov[k].0 == p.0 && ov[k].1.contains(p.1));
                        assert(map_links(ov).contains(p));
                    } else {
                        assert(nv[k] == (dev@, lv));
                        let q = choose|q: int| 0 <= q < lv.len() && lv[q] == p.1;
                        assert(q == 0);
                        assert(p == (dev@, mpath@));
                    }
                }
                assert forall|p: (Seq<char>, Seq<char>)| #[trigger] map_links(ov).insert((dev@, mpath@)).contains(p) implies map_links(
                    nv,
                ).contains(p) by {
                    if p == (dev@, mpath@) {
                        let k = ov.len() as int;
                        assert(nv[k] == (dev@, lv));
                        assert(nv[k].0 == p.0 && nv[k].1.contains(p.1));
                    } else {
                        assert(map_links(ov).contains(p));
                        let k = choose|k: int| 0 <= k < ov.len() && ov[k].0 == p.0 && #[trigger] ov[k].1.contains(p.1);
                        assert(nv[k] == ov[k]);
                        assert(nv[k].0 == p.0 && nv[k].1.contains(p.1));
                    }
                }
                assert(map_links(nv) =~= map_links(ov).insert((dev@, mpath@)));
            }
        },
    }
}

pub open spec fn opt_view(o: Option<&str>) -> Option<Seq<char>> {
    match o {
        Some(s) => Some(s@),
        None => None,
    }
}

impl PveSanClient {
    /// Walks lsblk's device tree (at most 32 levels deep) and records, for each
    /// device at or below a multipath device, the nearest multipath device at or
    /// above it (a multipath device is linked to itself).
    pub fn build_mpath_map(
        &self,
        devices: &[LsblkDevice],
        current_mpath: Option<&str>,
        depth: u32,
        map: &mut Vec<(String, Vec<String>)>,
    )
        requires
            mpath_map_wf(mpath_map_view(old(map)@)),
        ensures
            mpath_map_wf(mpath_map_view(final(map)@)),
            map_links(mpath_map_view(final(map)@)) == map_links(mpath_map_view(old(map)@)).union(
                mpath_links(devices@, opt_view(current_mpath), depth as nat),
            ),
        decreases 33 - depth,
    {
        let ghost start = map_links(mpath_map_view(map@));
        let ghost cur = opt_view(current_mpath);
        if depth > 32 {
            assert(mpath_links(devices@, cur, depth as nat) =~= Set::empty());
            assert(start.union(Set::empty()) =~= start);
            return;
        }
        let mut i: usize = 0;
        assert(devices@.take(0) =~= Seq::<LsblkDevice>::empty());
        assert(start.union(mpath_links(devices@.take(0), cur, depth as nat)) =~= start);
        while i < devices.len()
            invariant
                i <= devices.len(),
                depth <= 32,
                cur == opt_view(current_mpath),
                mpath_map_wf(mpath_map_view(map@)),
                map_links(mpath_map_view(map@)) == start.union(mpath_links(devices@.take(i as int), cur, depth as nat)),
            decreases devices.len() - i,
        {
            let dev = &devices[i];
            assert(devices@.take(i + 1).drop_last() =~= devices@.take(i as int));
            assert(devices@.take(i + 1).last() == *dev);
            let is_mpath = str_eq(dev.device_type.as_str(), "mpath");
            let next_mpath: Option<&str> = if is_mpath {
                Some(dev.name.as_str())
            } else {
                current_mpath
            };
            let ghost nx = opt_view(next_mpath);
            let ghost before = map_links(mpath_map_view(map@));
            match next_mpath {
                Some(mp) => add_link(map, dev.name.as_str(), mp),
                None => {},
            }
            let ghost own: Set<(Seq<char>, Seq<char>)> = match nx {
                Some(m) => set![(dev.name@, m)],
                None => Set::empty(),
            };
            assert(map_links(mpath_map_view(map@)) =~= before.union(own));
            let ghost mid = map_links(mpath_map_view(map@));
            match &dev.children {
                Some(children) => {
                    self.build_mpath_map(children.as_slice(), next_mpath, depth + 1, map);
                },
                None => {},
            }
            let ghost kids: Set<(Seq<char>, Seq<char>)> = match &dev.children {
                Some(c) => mpath_links(c@, nx, (depth + 1) as nat),
                None => Set::empty(),
            };
            assert(map_links(mpath_map_view(map@)) =~= mid.union(kids));
            assert(mpath_links(devices@.take(i + 1), cur, depth as nat) == mpath_links(devices@.take(i as int), cur, depth as nat).union(own).union(kids));
            assert(map_links(mpath_map_view(map@)) =~= start.union(mpath_links(devices@.take(i + 1), cur, depth as nat)));
            i = i + 1;
        }
        assert(devices@.take(devices.len() as int) =~= devices@);
    }
}

// ---------------------------------------------------------------------------
// Putting a VM's information together.
// ---------------------------------------------------------------------------

/// The multipath devices recorded under a name, if the map has it.
pub open spec fn map_lookup(m: Seq<(Seq<char>, Seq<Seq<char>>)>, k: Seq<char>) -> Option<Seq<Seq<char>>> {
    if exists|i: int| 0 <= i < m.len() && m[i].0 == k {
        Some(m[choose|i: int| 0 <= i < m.len() && m[i].0 == k].1)
    } else {
        None
    }
}

/// A name with its `/dev/mapper/` prefix removed, if it has one.
pub open spec fn strip_mapper(s: Seq<char>) -> Option<Seq<char>> {
    if "/dev/mapper/"@.is_prefix_of(s) {
        Some(s.skip(12))
    } else {
        None
    }
}

pub open spec fn lookup_stripped(m: Seq<(Seq<char>, Seq<Seq<char>>)>, s: Seq<char>) -> Option<Seq<Seq<char>>> {
    match strip_mapper(s) {
        Some(t) => map_lookup(m, t),
        None => None,
    }
}

/// The multipath devices under a disk's storage: looked up by its device-mapper
/// name, its older device-mapper name, the storage name itself, and the two
/// device-mapper names without a `/dev/mapper/` prefix; the first hit counts.
pub open spec fn disk_mpaths(m: Seq<(Seq<char>, Seq<Seq<char>>)>, storage: Seq<char>) -> Option<Seq<Seq<char>>> {
    let dm = dm_name_of(storage);
    let lg = dm_name_legacy_of(storage);
    if map_lookup(m, dm) is Some {
        map_lookup(m, dm)
    } else if map_lookup(m, lg) is Some {
        map_lookup(m, lg)
    } else if map_lookup(m, storage) is Some {
        map_lookup(m, storage)
    } else if lookup_stripped(m, dm) is Some {
        lookup_stripped(m, dm)
    } else {
        lookup_stripped(m, lg)
    }
}

pub open spec fn mapper_paths(l: Seq<Seq<char>>) -> Seq<Seq<char>> {
    l.map_values(|n: Seq<char>| "/dev/mapper/"@ + n)
}

/// A disk with the multipath devices under it: their names joined by " / " as
/// the device-mapper name, and their `/dev/mapper/` paths joined likewise as the
/// device path; a disk with none is unchanged.
pub open spec fn annotate(d: DiskModel, m: Seq<(Seq<char>, Seq<Seq<char>>)>) -> DiskModel {
    match disk_mpaths(m, d.storage) {
        Some(l) => DiskModel {
            device_mapper_name: Some(join(l, " / "@)),
            device_path: Some(join(mapper_paths(l), " / "@)),
            ..d
        },
        None => d,
    }
}

/// The multipath devices under any of the disks.
pub open spec fn disks_mpath_set(ds: Seq<DiskModel>, m: Seq<(Seq<char>, Seq<Seq<char>>)>) -> Set<Seq<char>>
    decreases ds.len(),
{
    if ds.len() == 0 {
        Set::empty()
    } else {
        disks_mpath_set(ds.drop_last(), m).union(
            match disk_mpaths(m, ds.last().storage) {
                Some(l) => l.to_set(),
                None => Set::empty(),
            },
        )
    }
}

fn lookup_exec<'a>(m: &'a Vec<(String, Vec<String>)>, key: &str) -> (r: Option<&'a Vec<String>>)
    requires
        mpath_map_wf(mpath_map_view(m@)),
    ensures
        match r {
            Some(l) => map_lookup(mpath_map_view(m@), key@) == Some(strings_view(l@)),
            None => map_lookup(mpath_map_view(m@), key@) is None,
        },
{
    let ghost mv = mpath_map_view(m@);
    match find_key(m, key) {
        Some(i) => {
            proof {
                assert(mv[i as int].0 == key@);
                let c = choose|k: int| 0 <= k < mv.len() && mv[k].0 == key@;
                if c != i {
                    assert(mv[c].0 != mv[i as int].0);
                }
            }
            Some(&m[i].1)
        },
        None => {
            proof {
                assert forall|k: int| 0 <= k < mv.len() implies mv[k].0 != key@ by {
                    assert(mv[k].0 == m@[k].0@);
                }
            }
            None
        },
    }
}

fn lookup_stripped_exec<'a>(m: &'a Vec<(String, Vec<String>)>, s: &str) -> (r: Option<&'a Vec<String>>)
    requires
        mpath_map_wf(mpath_map_view(m@)),
    ensures
        match r {
            Some(l) => lookup_stripped(mpath_map_view(m@), s@) == Some(strings_view(l@)),
            None => lookup_stripped(mpath_map_view(m@), s@) is None,
        },
{
    let cs = chars_of(s);
    let p = chars_of("/dev/mapper/");
    proof {
        reveal_strlit("/dev/mapper/");
    }
    if starts_with_chars(cs.as_slice(), p.as_slice()) {
        let mut rest: Vec<char> = Vec::new();
        let mut k: usize = p.len();
        while k < cs.len()
            invariant
                p.len() <= k <= cs.len(),
                p.len() == 12,
                rest@ == cs@.subrange(12, k as int),
            decreases cs.len() - k,
        {
            rest.push(cs[k]);
            k = k + 1;
            assert(rest@ =~= cs@.subrange(12, k as int));
        }
        assert(rest@ =~= s@.skip(12));
        let t = string_of(rest.as_slice());
        lookup_exec(m, t.as_str())
    } else {
        None
    }
}

fn mapper_path_list(l: &Vec<String>) -> (r: Vec<String>)
    ensures
        strings_view(r@) == mapper_paths(strings_view(l@)),
{
    let mut r: Vec<String> = Vec::new();
    let mut i: usize = 0;
    while i < l.len()
        invariant
            i <= l.len(),
            strings_view(r@) == mapper_paths(strings_view(l@)).take(i as int),
        decreases l.len() - i,
    {
        let p = concat("/dev/mapper/", l[i].as_str());
        let ghost before = strings_view(r@);
        r.push(p);
        assert(strings_view(r@) =~= before.push(p@));
        assert(mapper_paths(strings_view(l@)).take(i + 1) =~= mapper_paths(strings_view(l@)).take(i as int).push(
            "/dev/mapper/"@ + l@[i as int]@,
        ));
        i = i + 1;
    }
    assert(mapper_paths(strings_view(l@)).take(l.len() as int) =~= mapper_paths(strings_view(l@)));
    r
}

impl PveSanClient {
    /// The multipath devices under a disk's storage (see `disk_mpaths`).
    pub fn find_disk_mpaths<'a>(&self, storage: &str, mpath_map: &'a Vec<(String, Vec<String>)>) -> (r: Option<
        &'a Vec<String>,
    >)
        requires
            mpath_map_wf(mpath_map_view(mpath_map@)),
        ensures
            match r {
                Some(l) => disk_mpaths(mpath_map_view(mpath_map@), storage@) == Some(strings_view(l@)),
                None => disk_mpaths(mpath_map_view(mpath_map@), storage@) is None,
            },
    {
        let dm = self.storage_to_dm_name(storage);
        let lg = self.storage_to_dm_name_legacy(storage);
        if let Some(l) = lookup_exec(mpath_map, dm.as_str()) {
            return Some(l);
        }
        if let Some(l) = lookup_exec(mpath_map, lg.as_str()) {
            return Some(l);
        }
        if let Some(l) = lookup_exec(mpath_map, storage) {
            return Some(l);
        }
        if let Some(l) = lookup_stripped_exec(mpath_map, dm.as_str()) {
            return Some(l);
        }
        lookup_stripped_exec(mpath_map, lg.as_str())
    }

    /// Records on each disk the multipath devices under it (see `annotate`), and
    /// returns all of them, strictly sorted.
    pub fn annotate_disks(&self, disks: &mut Vec<VmDisk>, mpath_map: &Vec<(String, Vec<String>)>) -> (r: Vec<String>)
        requires
            mpath_map_wf(mpath_map_view(mpath_map@)),
        ensures
            disks_view(final(disks)@) == disks_view(old(disks)@).map_values(
                |d: DiskModel| annotate(d, mpath_map_view(mpath_map@)),
            ),
            strictly_sorted(strings_view(r@)),
            strings_view(r@).to_set() == disks_mpath_set(disks_view(old(disks)@), mpath_map_view(mpath_map@)),
    {
        let ghost m = mpath_map_view(mpath_map@);
        let ghost orig = disks_view(disks@);
        let mut all: Vec<String> = Vec::new();
        let mut i: usize = 0;
        assert(strings_view(all@).to_set() =~= Set::<Seq<char>>::empty());
        assert(orig.take(0) =~= Seq::<DiskModel>::empty());
        while i < disks.len()
            invariant
                i <= disks.len(),
                disks.len() == orig.len(),
                m == mpath_map_view(mpath_map@),
                mpath_map_wf(m),
                forall|k: int| 0 <= k < i ==> (#[trigger] disks@[k])@ == annotate(orig[k], m),
                forall|k: int| i <= k < disks.len() ==> (#[trigger] disks@[k])@ == orig[k],
                strictly_sorted(strings_view(all@)),
                strings_view(all@).to_set() == disks_mpath_set(orig.take(i as int), m),
            decreases disks.len() - i,
        {
            assert(orig.take(i + 1).drop_last() =~= orig.take(i as int));
            assert(orig.take(i + 1).last() == orig[i as int]);
            assert(disks@[i as int]@ == orig[i as int]);
            let found = self.find_disk_mpaths(disks[i].storage.as_str(), mpath_map);
            match found {
                Some(l) => {
                    let ghost before = strings_view(all@).to_set();
                    let mut j: usize = 0;
                    while j < l.len()
                        invariant
                            j <= l.len(),
                            strictly_sorted(strings_view(all@)),
                            strings_view(all@).to_set() == before.union(strings_view(l@).take(j as int).to_set()),
                        decreases l.len() - j,
                    {
                        let ghost b2 = strings_view(all@).to_set();
                        insert_sorted(&mut all, l[j].as_str());
                        assert(strings_view(l@).take(j + 1) =~= strings_view(l@).take(j as int).push(l@[j as int]@));
                        assert(strings_view(l@).take(j + 1).to_set() =~= strings_view(l@).take(j as int).to_set().insert(l@[j as int]@)) by {
                            broadcast use vstd::seq_lib::group_seq_properties;
                        };
                        assert(strings_view(all@).to_set() =~= before.union(strings_view(l@).take(j + 1).to_set()));
                        j = j + 1;
                    }
                    assert(strings_view(l@).take(l.len() as int) =~= strings_view(l@));
                    let name = join_strings(l, " / ");
                    let paths = mapper_path_list(l);
                    let path = join_strings(&paths, " / ");
                    let mut d = disks.remove(i);
                    d.device_mapper_name = Some(name);
                    d.device_path = Some(path);
                    disks.insert(i, d);
                },
                None => {},
            }
            assert(strings_view(all@).to_set() =~= disks_mpath_set(orig.take(i + 1), m));
            i = i + 1;
        }
        assert(orig.take(disks.len() as int) =~= orig);
        assert(disks_view(disks@) =~= orig.map_values(|d: DiskModel| annotate(d, m)));
        all
    }
}

/// A VM's name: its configuration's `name`, else `vm-<vmid>`.
pub open spec fn vm_name_of(config: Pairs, vmid: u64) -> Seq<char> {
    match pair_get(config, "name"@) {
        Some(n) => n,
        None => "vm-"@ + decimal(vmid as nat),
    }
}

pub struct VmModel {
    pub vmid: u64,
    pub name: Seq<char>,
    pub status: Seq<char>,
    pub disks: Seq<DiskModel>,
}

impl View for VmInfo {
    type V = VmModel;

    open spec fn view(&self) -> VmModel {
        VmModel { vmid: self.vmid, name: self.name@, status: self.status@, disks: disks_view(self.disks@) }
    }
}

impl PveSanClient {
    /// The information about one VM from its configuration entries: name, status,
    /// and disks (sorted by name) annotated with the multipath devices under them;
    /// also the VM's multipath devices, strictly sorted.
    pub fn vm_info_from_config(
        &self,
        vmid: u64,
        status: String,
        config_map: &Vec<(String, String)>,
        mpath_map: &Vec<(String, Vec<String>)>,
    ) -> (r: (VmInfo, Vec<String>))
        requires
            pair_keys_unique(pairs_view(config_map@)),
            mpath_map_wf(mpath_map_view(mpath_map@)),
        ensures
            r.0.vmid == vmid,
            r.0.status@ == status@,
            r.0.name@ == vm_name_of(pairs_view(config_map@), vmid),
            exists|ds: Seq<DiskModel>|
                ds.to_multiset() == config_disks(pairs_view(config_map@)).to_multiset() && sorted_by(
                    disk_ids(ds),
                    lex_order(),
                ) && disks_view(r.0.disks@) == ds.map_values(|d: DiskModel| annotate(d, mpath_map_view(mpath_map@)))
                    && strings_view(r.1@).to_set() == disks_mpath_set(ds, mpath_map_view(mpath_map@)),
            strictly_sorted(strings_view(r.1@)),
    {
        let name = match get_pair(config_map, "name") {
            Some(n) => n.clone(),
            None => concat("vm-", u64_to_decimal(vmid).as_str()),
        };
        let mut disks = match self.extract_disks(config_map) {
            Ok(d) => d,
            Err(_) => Vec::new(),
        };
        let ghost ds = disks_view(disks@);
        let mpaths = self.annotate_disks(&mut disks, mpath_map);
        (VmInfo { vmid, name, status, disks }, mpaths)
    }
}

/// What the daemon reads of a block device that lsblk lists.
pub struct BlockDeviceFacts {
    pub name: String,
    /// The device's full path (`/dev/<name>`), as text.
    pub path: String,
    pub uuid: Option<String>,
    pub partuuid: Option<String>,
    pub partlabel: Option<String>,
    pub id: Option<String>,
    /// The capacity in 512-byte sectors, when it could be read.
    pub capacity_sectors: Option<u64>,
}

/// The device type a block device gets: `part` when it has a partition UUID or
/// label, else `mpath` for device-mapper devices (`dm-*`), else `disk` when it has
/// a UUID, else `unknown`.
pub open spec fn device_type_of(f: BlockDeviceFacts) -> Seq<char> {
    if f.partuuid is Some || f.partlabel is Some {
        "part"@
    } else if "dm-"@.is_prefix_of(f.name@) {
        "mpath"@
    } else if f.uuid is Some {
        "disk"@
    } else {
        "unknown"@
    }
}

impl PveSanClient {
    /// The block device information for a device lsblk lists: its type (see
    /// `device_type_of`), its device-mapper name (its own name for `dm-*`
    /// devices), its size in bytes (sectors times 512, 0 when unknown), its UUID,
    /// and its id as serial number.
    pub fn convert_block_device(&self, device: &BlockDeviceFacts) -> (r: BlockDeviceInfo)
        requires
            device.capacity_sectors matches Some(c) ==> c * 512 <= u64::MAX,
        ensures
            r.name@ == device.name@,
            r.path@ == device.path@,
            r.device_type@ == device_type_of(*device),
            opt_str_view(r.dm_name) == (if "dm-"@.is_prefix_of(device.name@) {
                Some(device.name@)
            } else {
                None
            }),
            r.size == (match device.capacity_sectors {
                Some(c) => c * 512,
                None => 0,
            }),
            r.parent is None,
            r.children@.len() == 0,
            opt_str_view(r.uuid) == opt_str_view(device.uuid),
            r.model is None,
            opt_str_view(r.serial) == opt_str_view(device.id),
            r.mount_point is None,
    {
        let cs = chars_of(device.name.as_str());
        let dm = chars_of("dm-");
        proof {
            reveal_strlit("dm-");
        }
        let is_dm = starts_with_chars(cs.as_slice(), dm.as_slice());
        let device_type = if device.partuuid.is_some() || device.partlabel.is_some() {
            "part".to_string()
        } else if is_dm {
            "mpath".to_string()
        } else if device.uuid.is_some() {
            "disk".to_string()
        } else {
            "unknown".to_string()
        };
        let dm_name = if is_dm {
            Some(device.name.clone())
        } else {
            None
        };
        let size = match device.capacity_sectors {
            Some(c) => c * 512,
            None => 0,
        };
        let uuid = match &device.uuid {
            Some(u) => Some(u.clone()),
            None => None,
        };
        let serial = match &device.id {
            Some(u) => Some(u.clone()),
            None => None,
        };
        BlockDeviceInfo {
            name: device.name.clone(),
            path: device.path.clone(),
            device_type,
            size,
            dm_name,
            parent: None,
            children: Vec::new(),
            uuid,
            model: None,
            serial,
            mount_point: None,
        }
    }
}

// ---------------------------------------------------------------------------
// Laws of device-mapper names, disk lookup and VM names.
// ---------------------------------------------------------------------------

/// Escaping works character by character: the escape of a concatenation is the
/// concatenation of the escapes; '-' becomes "--" and every other character stays.
pub proof fn lemma_double_dashes_by_char(a: Seq<char>, b: Seq<char>, c: char)
    ensures
        double_dashes(a + b) == double_dashes(a) + double_dashes(b),
        double_dashes(seq!['-']) == seq!['-', '-'],
        c != '-' ==> double_dashes(seq![c]) == seq![c],
    decreases b.len(),
{
    assert(seq!['-'].drop_last() =~= Seq::<char>::empty());
    assert(seq![c].drop_last() =~= Seq::<char>::empty());
    assert(double_dashes(Seq::<char>::empty()) =~= Seq::<char>::empty());
    assert(double_dashes(seq!['-']) =~= seq!['-', '-']);
    assert(c != '-' ==> double_dashes(seq![c]) =~= seq![c]);
    if b.len() == 0 {
        assert(a + b =~= a);
        assert(double_dashes(a) + double_dashes(b) =~= double_dashes(a));
    } else {
        lemma_double_dashes_by_char(a, b.drop_last(), c);
        assert((a + b).drop_last() =~= a + b.drop_last());
        assert((a + b).last() == b.last());
    }
}

proof fn lemma_split_once_at(vg: Seq<char>, lv: Seq<char>)
    requires
        !vg.contains(':'),
    ensures
        split_once(vg + seq![':'] + lv, ':') == Some((vg, lv)),
{
    let s = vg + seq![':'] + lv;
    crate::text::lemma_find_char(s, ':');
    let i = find_char(s, ':');
    assert(s[vg.len() as int] == ':');
    assert(i >= 0 && i <= vg.len());
    if i < vg.len() {
        assert(s[i] == vg[i]);
        assert(vg.contains(':'));
    }
    assert(s.take(i) =~= vg);
    assert(s.skip(i + 1) =~= lv);
}

/// The device-mapper name of an LVM volume `vg:lv` is the escaped group, '-',
/// and the escaped volume (as `san-lvm:vm-100-disk-0` gives
/// `san--lvm-vm--100--disk--0`).
pub proof fn lemma_dm_name_of_volume(vg: Seq<char>, lv: Seq<char>)
    requires
        !vg.contains(':'),
    ensures
        dm_name_of(vg + ":"@ + lv) == double_dashes(vg) + seq!['-'] + double_dashes(lv),
        dm_name_legacy_of(vg + ":"@ + lv) == vg + seq!['-'] + double_dashes(lv),
{
    reveal_strlit(":");
    reveal_strlit("-");
    assert(":"@ =~= seq![':']);
    assert("-"@ =~= seq!['-']);
    lemma_split_once_at(vg, lv);
}

proof fn lemma_map_lookup_at(m: Seq<(Seq<char>, Seq<Seq<char>>)>, i: int)
    requires
        mpath_map_wf(m),
        0 <= i < m.len(),
    ensures
        map_lookup(m, m[i].0) == Some(m[i].1),
{
    let k = m[i].0;
    assert(exists|j: int| 0 <= j < m.len() && m[j].0 == k);
    let j = choose|j: int| 0 <= j < m.len() && m[j].0 == k;
    if j != i {
        assert(m[j].0 != m[i].0);
    }
}

/// A disk on an LVM volume is found under the volume's device-mapper name: when
/// the map has an entry under that name, the disk's multipath devices are exactly
/// that entry's.
pub proof fn lemma_disk_found_by_dm_name(m: Seq<(Seq<char>, Seq<Seq<char>>)>, vg: Seq<char>, lv: Seq<char>, i: int)
    requires
        mpath_map_wf(m),
        !vg.contains(':'),
        0 <= i < m.len(),
        m[i].0 == double_dashes(vg) + seq!['-'] + double_dashes(lv),
    ensures
        disk_mpaths(m, vg + ":"@ + lv) == Some(m[i].1),
{
    lemma_dm_name_of_volume(vg, lv);
    lemma_map_lookup_at(m, i);
}

/// A VM's name is the value of its configuration's `name` entry when there is
/// one.
pub proof fn lemma_vm_name(config: Pairs, vmid: u64, i: int)
    requires
        pair_keys_unique(config),
        0 <= i < config.len(),
        config[i].0 == "name"@,
    ensures
        vm_name_of(config, vmid) == config[i].1,
{
    assert(pair_has(config, "name"@));
    let j = pair_index(config, "name"@);
    if j != i {
        assert(config[j].0 != config[i].0);
    }
}

/// Only a configuration without a `name` entry gives the name `vm-<vmid>`.
pub proof fn lemma_vm_name_default(config: Pairs, vmid: u64)
    requires
        forall|j: int| 0 <= j < config.len() ==> config[j].0 != "name"@,
    ensures
        vm_name_of(config, vmid) == "vm-"@ + decimal(vmid as nat),
{
}

} // verus!
