//! Per-process records assembled from the snapshot listings.

use vstd::prelude::*;
use crate::hierarchy::ParentMap;
use crate::snapshot::{NameRecord, name_of};
use crate::strutil::{spec_decimal, u32_to_decimal};

verus! {

/// Everything one query reports about a process.  Records are built
/// fresh from one snapshot per call and never mutated; a caller that
/// suspects staleness queries again.
#[derive(Debug, Clone)]
pub struct ProcessInfo {
    /// The process identifier; unique only while the process is alive.
    pub pid: u32,
    /// The executable image name, extension included.
    pub name: String,
    /// The reported parent, or `None` for an orphan or a process whose
    /// parent is absent from the snapshot.
    pub parent_pid: Option<u32>,
    /// Whether the process runs with administrator-equivalent privilege.
    pub is_elevated: bool,
}

impl PartialEq for ProcessInfo {
    fn eq(&self, other: &ProcessInfo) -> (r: bool) {
        self.pid == other.pid && self.name == other.name && self.parent_pid == other.parent_pid
            && self.is_elevated == other.is_elevated
    }
}

impl Eq for ProcessInfo {

}

impl vstd::std_specs::cmp::PartialEqSpecImpl for ProcessInfo {
    open spec fn obeys_eq_spec() -> bool {
        true
    }

    open spec fn eq_spec(&self, other: &ProcessInfo) -> bool {
        self.pid == other.pid && self.name@ == other.name@ && self.parent_pid == other.parent_pid
            && self.is_elevated == other.is_elevated
    }
}

/// The name a process record carries: the reported image name, or a
/// `PID-` placeholder built from the pid when the listing had none.
pub open spec fn info_name(rs: Seq<(u32, Seq<char>)>, pid: u32) -> Seq<char> {
    match name_of(rs, pid) {
        Some(n) => n,
        None => seq!['P', 'I', 'D', '-'] + spec_decimal(pid as int),
    }
}

/// Assemble the record of each requested pid from one snapshot: the name
/// from the name listing, the parent from the parent map, and the
/// elevation answer the oracle gave for that pid, in the order asked.
pub fn build_process_info(
    pids: &Vec<u32>,
    records: &Vec<NameRecord>,
    map: &ParentMap,
    elevated: &Vec<bool>,
) -> (r: Vec<ProcessInfo>)
    requires
        map.wf(),
        elevated@.len() == pids@.len(),
    ensures
        r@.len() == pids@.len(),
        forall|i: int|
            0 <= i < r@.len() ==> {
                &&& (#[trigger] r@[i]).pid == pids@[i]
                &&& r@[i].name@ == info_name(records.deep_view(), pids@[i])
                &&& r@[i].parent_pid == (if map@.dom().contains(pids@[i]) {
                    Some(map@[pids@[i]])
                } else {
                    None::<u32>
                })
                &&& r@[i].is_elevated == elevated@[i]
            },
{
    let n = pids.len();
    let mut out: Vec<ProcessInfo> = Vec::new();
    let mut i: usize = 0;
    while i < n
        invariant
            map.wf(),
            n == pids@.len(),
            elevated@.len() == n,
            i <= n,
            out@.len() == i,
            forall|j: int|
                0 <= j < i ==> {
                    &&& (#[trigger] out@[j]).pid == pids@[j]
                    &&& out@[j].name@ == info_name(records.deep_view(), pids@[j])
                    &&& out@[j].parent_pid == (if map@.dom().contains(pids@[j]) {
                        Some(map@[pids@[j]])
                    } else {
                        None::<u32>
                    })
                    &&& out@[j].is_elevated == elevated@[j]
                },
        decreases n - i,
    {
        let pid = pids[i];
        let name = match crate::snapshot::lookup_name(records, pid) {
            Some(n) => n,
            None => {
                let mut placeholder = String::new();
                placeholder.append("PID-");
                let digits = u32_to_decimal(pid);
                placeholder.append(digits.as_str());
                proof {
                    reveal_strlit("PID-");
                    assert(placeholder@ =~= seq!['P', 'I', 'D', '-'] + spec_decimal(pid as int));
                }
                placeholder
            },
        };
        let parent_pid = map.parent_of(pid);
        let is_elevated = elevated[i];
        out.push(ProcessInfo { pid, name, parent_pid, is_elevated });
        i = i + 1;
    }
    out
}

} // verus!
