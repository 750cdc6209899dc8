//! Which multipath devices the running VMs use, as the in-use entries that the
//! fencer watches.
use vstd::prelude::*;
use vstd::relations::sorted_by;
use crate::order::{lemma_lex_total_ordering, lex_order, sort_strings};
use crate::pve::{SanStorageInfo, VmDisk, VmInfo, strings_view};
use crate::text::{join, join_strings, split_by_str, split_str, str_eq, strings_contain, lemma_split_str_nonempty};

verus! {

/// The in-use entry for a disk's device-mapper name (multipath devices joined by
/// " / "): the one device, or, for a disk spanning several, their names sorted
/// and joined by '+'.
pub open spec fn lun_entry(dm: Seq<char>) -> Seq<char> {
    let parts = split_str(dm, " / "@);
    if parts.len() > 1 {
        join(parts.sort_by(lex_order()), "+"@)
    } else {
        parts[0]
    }
}

/// Whether a disk's device-mapper name gives the entry.
pub open spec fn disk_gives(d: VmDisk, e: Seq<char>) -> bool {
    match d.device_mapper_name {
        Some(dm) => lun_entry(dm@) == e,
        None => false,
    }
}

/// Whether the entry of a disk (if it has one) is among `out`.
pub open spec fn disk_recorded(d: VmDisk, out: Seq<Seq<char>>) -> bool {
    match d.device_mapper_name {
        Some(dm) => out.contains(lun_entry(dm@)),
        None => true,
    }
}

/// Whether an entry is in use: some running VM has a disk whose device-mapper
/// name gives that entry.
pub open spec fn entry_in_use(vms: Seq<VmInfo>, e: Seq<char>) -> bool {
    exists|i: int, j: int|
        0 <= i < vms.len() && vms[i].status@ == "running"@ && 0 <= j < vms[i].disks@.len() && disk_gives(
            #[trigger] vms[i].disks@[j],
            e,
        )
}

/// Computes the in-use entry for a device-mapper name.
pub fn lun_entry_exec(dm: &str) -> (r: String)
    ensures
        r@ == lun_entry(dm@),
{
    let sep = " / ";
    proof {
        reveal_strlit(" / ");
        lemma_split_str_nonempty(dm@, " / "@);
    }
    let parts = split_by_str(dm, sep);
    if parts.len() > 1 {
        let sorted = sort_strings(parts);
        proof {
            let pv = split_str(dm@, " / "@);
            lemma_lex_total_ordering();
            pv.lemma_sort_by_ensures(lex_order());
            vstd::seq_lib::lemma_sorted_unique(strings_view(sorted@), pv.sort_by(lex_order()), lex_order());
            assert(strings_view(sorted@) == sorted@.map_values(|s: String| s@));
        }
        join_strings(&sorted, "+")
    } else {
        parts[0].clone()
    }
}

/// The in-use entries of a host's storage information: one for each disk of a
/// running VM that has a device-mapper name; no entry occurs twice.
pub fn active_luns(info: &SanStorageInfo) -> (r: Vec<String>)
    ensures
        strings_view(r@).no_duplicates(),
        forall|e: Seq<char>| #[trigger] strings_view(r@).contains(e) <==> entry_in_use(info.vms@, e),
{
    let vms = &info.vms;
    let mut out: Vec<String> = Vec::new();
    let mut i: usize = 0;
    while i < vms.len()
        invariant
            i <= vms.len(),
            strings_view(out@).no_duplicates(),
            forall|e: Seq<char>| #[trigger] strings_view(out@).contains(e) ==> entry_in_use(vms@, e),
            forall|a: int, b: int|
                0 <= a < i && vms@[a].status@ == "running"@ && 0 <= b < vms@[a].disks@.len() ==> disk_recorded(
                    #[trigger] vms@[a].disks@[b],
                    strings_view(out@),
                ),
        decreases vms.len() - i,
    {
        let vm = &vms[i];
        if str_eq(vm.status.as_str(), "running") {
            let mut j: usize = 0;
            while j < vm.disks.len()
                invariant
                    i < vms.len(),
                    vm == &vms@[i as int],
                    vm.status@ == "running"@,
                    j <= vm.disks.len(),
                    strings_view(out@).no_duplicates(),
                    forall|e: Seq<char>| #[trigger] strings_view(out@).contains(e) ==> entry_in_use(vms@, e),
                    forall|a: int, b: int|
                        0 <= a < i && vms@[a].status@ == "running"@ && 0 <= b < vms@[a].disks@.len() ==> disk_recorded(
                            #[trigger] vms@[a].disks@[b],
                            strings_view(out@),
                        ),
                    forall|b: int| 0 <= b < j ==> disk_recorded(#[trigger] vm.disks@[b], strings_view(out@)),
                decreases vm.disks.len() - j,
            {
                match &vm.disks[j].device_mapper_name {
                    Some(dm) => {
                        let e = lun_entry_exec(dm.as_str());
                        assert(entry_in_use(vms@, e@)) by {
                            assert(disk_gives(vms@[i as int].disks@[j as int], e@));
                        };
                        let ghost ev = e@;
                        if !strings_contain(out.as_slice(), e.as_str()) {
                            let ghost before = strings_view(out@);
                            out.push(e);
                            assert(strings_view(out@)[before.len() as int] == ev);
                            assert(strings_view(out@) =~= before.push(ev));
                            assert forall|x: Seq<char>| before.contains(x) implies #[trigger] strings_view(out@).contains(x) by {
                                let k = choose|k: int| 0 <= k < before.len() && before[k] == x;
                                assert(strings_view(out@)[k] == x);
                            }
                            assert forall|x: Seq<char>| #[trigger] strings_view(out@).contains(x) implies entry_in_use(vms@, x) by {
                                let k = choose|k: int| 0 <= k < strings_view(out@).len() && strings_view(out@)[k] == x;
                                if k < before.len() {
                                    assert(before.contains(x));
                                }
                            }
                        }
                        assert(strings_view(out@).contains(ev));
                        assert(disk_recorded(vm.disks@[j as int], strings_view(out@)));
                    },
                    None => {},
                }
                j = j + 1;
            }
        }
        i = i + 1;
    }
    out
}

} // verus!
