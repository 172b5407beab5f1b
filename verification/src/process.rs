//! Attribution of GPU-using processes to their owning user and container.
//!
//! The host process table is read once per refresh into a [`ProcTable`]:
//! each PID maps to its owner ids and parent link. For every process a
//! device reports, the resolver walks the ancestry toward the root,
//! adopting the most recently seen non-zero owner and stopping at the first
//! ancestor whose PID keys the container index. The walk is capped
//! defensively, tolerates records that vanish mid-walk, and an unresolvable
//! starting PID yields `(0, 0, none)` rather than failing the refresh.

use std::collections::HashMap;

use vstd::prelude::*;

use crate::docker::container::Container;
use crate::nv_gpu::{GPUInfo, ProcessInfo, Value, GPU};

verus! {

broadcast use vstd::std_specs::hash::group_hash_axioms;

/// The defensive cap on ancestry hops, guarding against a cycle in a
/// corrupt process table.
pub const MAX_HOPS: u32 = 64;

/// One host process record: owner ids and the parent link.
#[derive(Debug, Clone, Copy, PartialEq, Eq, Structural)]
pub struct ProcEntry {
    pub uid: u32,
    pub gid: u32,
    pub parent: Option<u32>,
}

/// The host process table as sampled for one refresh.
#[derive(Debug)]
pub struct ProcTable {
    table: HashMap<u32, ProcEntry>,
}

impl View for ProcTable {
    type V = Map<u32, ProcEntry>;

    closed spec fn view(&self) -> Map<u32, ProcEntry> {
        self.table@
    }
}

impl ProcTable {
    pub fn new() -> (r: Self)
        ensures
            r@ == Map::<u32, ProcEntry>::empty(),
    {
        ProcTable { table: HashMap::new() }
    }

    pub fn insert(&mut self, pid: u32, entry: ProcEntry)
        ensures
            final(self)@ == old(self)@.insert(pid, entry),
    {
        self.table.insert(pid, entry);
    }

    pub fn lookup(&self, pid: u32) -> (r: Option<ProcEntry>)
        ensures
            match r {
                Some(e) => self@.contains_key(pid) && e == self@[pid],
                None => !self@.contains_key(pid),
            },
    {
        match self.table.get(&pid) {
            Some(e) => Some(*e),
            None => None,
        }
    }
}

/// One step per visited process: a non-zero uid adopts that process' uid
/// and gid; the first PID present in the container index ends the walk with
/// that container; the walk otherwise follows the parent link until the
/// root, a vanished record, or the hop cap.
pub open spec fn spec_resolve(
    tbl: Map<u32, ProcEntry>,
    ctr: Option<Set<u32>>,
    pid: u32,
    uid: u32,
    gid: u32,
    fuel: nat,
) -> (u32, u32, Option<u32>)
    decreases fuel,
{
    if !tbl.contains_key(pid) {
        (uid, gid, None)
    } else {
        let e = tbl[pid];
        let uid2 = if e.uid != 0 {
            e.uid
        } else {
            uid
        };
        let gid2 = if e.uid != 0 {
            e.gid
        } else {
            gid
        };
        if ctr matches Some(keys) && keys.contains(pid) {
            (uid2, gid2, Some(pid))
        } else {
            match e.parent {
                Some(pp) => if fuel == 0 {
                    (uid2, gid2, None)
                } else {
                    spec_resolve(tbl, ctr, pp, uid2, gid2, (fuel - 1) as nat)
                },
                None => (uid2, gid2, None),
            }
        }
    }
}

/// The attribution of one reported PID: the whole walk from `pid` with
/// empty accumulators and the full hop budget.
pub open spec fn resolve_from(tbl: Map<u32, ProcEntry>, ctr: Option<Set<u32>>, pid: u32) -> (
    u32,
    u32,
    Option<u32>,
) {
    spec_resolve(tbl, ctr, pid, 0, 0, MAX_HOPS as nat)
}

/// When no container index is present, no walk ever attributes a
/// container, whatever the ancestry looks like.
pub proof fn lemma_absent_index_no_container(
    tbl: Map<u32, ProcEntry>,
    pid: u32,
    uid: u32,
    gid: u32,
    fuel: nat,
)
    ensures
        spec_resolve(tbl, None, pid, uid, gid, fuel).2 is None,
    decreases fuel,
{
    if tbl.contains_key(pid) {
        let e = tbl[pid];
        match e.parent {
            Some(pp) => {
                if fuel > 0 {
                    let uid2 = if e.uid != 0 {
                        e.uid
                    } else {
                        uid
                    };
                    let gid2 = if e.uid != 0 {
                        e.gid
                    } else {
                        gid
                    };
                    lemma_absent_index_no_container(tbl, pp, uid2, gid2, (fuel - 1) as nat);
                }
            },
            None => {},
        }
    }
}

/// The spec-level key set of an optional container index.
pub open spec fn spec_index_keys(idx: Option<Map<u32, Container>>) -> Option<Set<u32>> {
    match idx {
        Some(m) => Some(m.dom()),
        None => None,
    }
}

/// Walks the ancestry of `pid` against the sampled table and the container
/// index; returns the accumulated `(uid, gid, container init PID)`.
pub fn get_process(table: &ProcTable, pid: u32, ctr_map: &Option<HashMap<u32, Container>>) -> (r:
    (u32, u32, Option<u32>))
    ensures
        r == resolve_from(
            table@,
            spec_index_keys(
                match ctr_map {
                    Some(m) => Some(m@),
                    None => None,
                },
            ),
            pid,
        ),
{
    let ghost keys = spec_index_keys(
        match ctr_map {
            Some(m) => Some(m@),
            None => None,
        },
    );
    let mut uid: u32 = 0;
    let mut gid: u32 = 0;
    let mut cur: u32 = pid;
    let mut hops: u32 = MAX_HOPS;
    loop
        invariant
            keys == spec_index_keys(
                match ctr_map {
                    Some(m) => Some(m@),
                    None => None,
                },
            ),
            resolve_from(table@, keys, pid) == spec_resolve(
                table@,
                keys,
                cur,
                uid,
                gid,
                hops as nat,
            ),
        decreases hops,
    {
        match table.lookup(cur) {
            None => {
                return (uid, gid, None);
            },
            Some(e) => {
                if e.uid != 0 {
                    uid = e.uid;
                    gid = e.gid;
                }
                let in_index = match ctr_map {
                    Some(m) => m.contains_key(&cur),
                    None => false,
                };
                if in_index {
                    return (uid, gid, Some(cur));
                }
                match e.parent {
                    Some(pp) => {
                        if hops == 0 {
                            return (uid, gid, None);
                        }
                        hops = hops - 1;
                        cur = pp;
                    },
                    None => {
                        return (uid, gid, None);
                    },
                }
            },
        }
    }
}

/// One attributed process: a device's usage record joined with the owner
/// and container the resolver found. An independent value, copied data,
/// valid beyond the snapshot it came from.
#[derive(Debug, Clone, PartialEq, Eq)]
pub struct GProcess {
    pub gpu_id: u8,
    pub pid: u32,
    pub uid: u32,
    pub gid: u32,
    pub ctr_pid: Option<u32>,
    pub gpu_info: ProcessInfo,
}

/// The per-refresh world view: every attributed process, the container
/// index used, and the device report it was built from.
#[derive(Debug)]
pub struct ProcessData {
    pub gpu_procs: Vec<GProcess>,
    pub ctr_map: Option<HashMap<u32, Container>>,
    pub gpu_info: GPUInfo,
}

/// The container index a sequence of records builds: keyed by init PID,
/// a later record with the same init PID replacing an earlier one.
pub open spec fn ctrs_to_map(s: Seq<Container>) -> Map<u32, Container>
    decreases s.len(),
{
    if s.len() == 0 {
        Map::empty()
    } else {
        ctrs_to_map(s.drop_last()).insert(s.last().state.pid, s.last())
    }
}

/// The flattened `(device index, usage record)` list of a device report,
/// in device order.
pub open spec fn gpu_entries(idx: int, g: GPU) -> Seq<(int, ProcessInfo)> {
    match g.processes.items {
        Some(v) => v@.map_values(|p: ProcessInfo| (idx, p)),
        None => Seq::empty(),
    }
}

pub open spec fn spec_proc_entries(gpus: Seq<GPU>) -> Seq<(int, ProcessInfo)>
    decreases gpus.len(),
{
    if gpus.len() == 0 {
        Seq::empty()
    } else {
        spec_proc_entries(gpus.drop_last()) + gpu_entries(gpus.len() - 1, gpus.last())
    }
}

proof fn lemma_proc_entries_step(gpus: Seq<GPU>, gi: int)
    requires
        0 <= gi < gpus.len(),
    ensures
        spec_proc_entries(gpus.take(gi + 1)) == spec_proc_entries(gpus.take(gi)) + gpu_entries(
            gi,
            gpus[gi],
        ),
{
    assert(gpus.take(gi + 1).drop_last() =~= gpus.take(gi));
    assert(gpus.take(gi + 1).last() == gpus[gi]);
}

/// One attributed process agrees with its flattened entry: same device,
/// the same usage record, and exactly what the resolver returns for its
/// PID.
pub open spec fn proc_matches(
    p: GProcess,
    e: (int, ProcessInfo),
    tbl: Map<u32, ProcEntry>,
    keys: Option<Set<u32>>,
) -> bool {
    &&& p.gpu_id as int == e.0
    &&& p.gpu_info == e.1
    &&& p.pid == e.1.pid
    &&& (p.uid, p.gid, p.ctr_pid) == resolve_from(tbl, keys, e.1.pid)
}

impl Value {
    /// A field-for-field copy.
    pub fn duplicate(&self) -> (r: Value)
        ensures
            r == *self,
    {
        Value {
            val: self.val,
            unit: match &self.unit {
                Some(u) => Some(u.clone()),
                None => None,
            },
        }
    }
}

impl ProcessInfo {
    /// A field-for-field copy.
    pub fn duplicate(&self) -> (r: ProcessInfo)
        ensures
            r == *self,
    {
        ProcessInfo {
            gpu_instance_id: self.gpu_instance_id.clone(),
            compute_instance_id: self.compute_instance_id.clone(),
            pid: self.pid,
            p_type: self.p_type.clone(),
            name: self.name.clone(),
            used_memory: self.used_memory.duplicate(),
        }
    }
}

/// Builds the container index from the runtime's records, keyed by init
/// PID.
fn build_ctr_map(cs: Vec<Container>) -> (m: HashMap<u32, Container>)
    ensures
        m@ == ctrs_to_map(cs@),
{
    let ghost full = cs@;
    let mut m: HashMap<u32, Container> = HashMap::new();
    let mut v = cs;
    while v.len() > 0
        invariant
            v@.len() <= full.len(),
            v@ == full.take(v@.len() as int),
            forall|k: u32|
                #[trigger] ctrs_to_map(full).contains_key(k) <==> (ctrs_to_map(
                    v@,
                ).contains_key(k) || m@.contains_key(k)),
            forall|k: u32| #[trigger]
                m@.contains_key(k) ==> ctrs_to_map(full).contains_key(k) && ctrs_to_map(full)[k]
                    == m@[k],
            forall|k: u32|
                !m@.contains_key(k) && #[trigger] ctrs_to_map(v@).contains_key(k) ==> ctrs_to_map(
                    full,
                )[k] == ctrs_to_map(v@)[k],
        decreases v@.len(),
    {
        let ghost before = v@;
        let ghost m_old = m@;
        let c = match v.pop() {
            Some(c) => c,
            None => {
                proof {
                    assert(false);
                }
                continue
            },
        };
        proof {
            assert(before.drop_last() =~= v@);
            assert(before.last() == c);
            assert(ctrs_to_map(before) == ctrs_to_map(v@).insert(c.state.pid, c));
            assert(forall|i: int| 0 <= i < v@.len() ==> v@[i] == before[i]);
            assert(before == full.take(before.len() as int));
            assert forall|i: int| 0 <= i < v@.len() implies v@[i] == full[i] by {
                assert(before[i] == full.take(before.len() as int)[i]);
                assert(full.take(before.len() as int)[i] == full[i]);
            }
            assert(v@ =~= full.take(v@.len() as int));
        }
        let ghost cpid = c.state.pid;
        let ghost cval = c;
        if !m.contains_key(&c.state.pid) {
            m.insert(c.state.pid, c);
        }
        proof {
            assert(m@.contains_key(cpid));
            assert(forall|k: u32| k != cpid ==> (m@.contains_key(k) <==> m_old.contains_key(k)));
            assert(forall|k: u32| k != cpid && m@.contains_key(k) ==> m@[k] == m_old[k]);
            assert(ctrs_to_map(before)[cpid] == cval);
            assert forall|k: u32| #[trigger]
                ctrs_to_map(full).contains_key(k) <==> (ctrs_to_map(v@).contains_key(k)
                || m@.contains_key(k)) by {
                assert(ctrs_to_map(before).contains_key(k) <==> (k == cpid || ctrs_to_map(
                    v@,
                ).contains_key(k)));
            }
            assert forall|k: u32| #[trigger] m@.contains_key(k) implies ctrs_to_map(
                full,
            ).contains_key(k) && ctrs_to_map(full)[k] == m@[k] by {
                if k == cpid {
                    if m_old.contains_key(cpid) {
                        assert(m@[k] == m_old[k]);
                    } else {
                        assert(ctrs_to_map(before).contains_key(cpid));
                        assert(ctrs_to_map(full)[cpid] == ctrs_to_map(before)[cpid]);
                        assert(m@[cpid] == cval);
                    }
                }
            }
            assert forall|k: u32|
                !m@.contains_key(k) && #[trigger] ctrs_to_map(v@).contains_key(
                    k,
                ) implies ctrs_to_map(full)[k] == ctrs_to_map(v@)[k] by {
                assert(k != cpid);
                assert(ctrs_to_map(before).contains_key(k));
                assert(ctrs_to_map(before)[k] == ctrs_to_map(v@)[k]);
                assert(!m_old.contains_key(k));
            }
        }
    }
    proof {
        assert(v@.len() == 0);
        assert(ctrs_to_map(v@).dom() =~= Set::<u32>::empty());
        assert(m@ =~= ctrs_to_map(full));
    }
    m
}

impl ProcessData {
    /// The container index of this refresh, when container support was on
    /// and the runtime answered.
    pub open spec fn ctr_index(&self) -> Option<Map<u32, Container>> {
        match self.ctr_map {
            Some(m) => Some(m@),
            None => None,
        }
    }

    /// Assembles one refresh: for every usage record of every device, one
    /// attributed process. Resolution is memoized per PID within the
    /// refresh, so records sharing a PID — multi-device jobs — get the
    /// identical attribution from one walk; and with no container index
    /// every record has no container.
    pub fn load(gpu_info: GPUInfo, table: &ProcTable, containers: Option<Vec<Container>>) -> (r:
        ProcessData)
        requires
            gpu_info.gpus@.len() <= 256,
        ensures
            r.gpu_info == gpu_info,
            match containers {
                Some(cs) => r.ctr_index() == Some(ctrs_to_map(cs@)),
                None => r.ctr_index() is None,
            },
            r.gpu_procs@.len() == spec_proc_entries(gpu_info.gpus@).len(),
            forall|i: int|
                0 <= i < r.gpu_procs@.len() ==> proc_matches(
                    #[trigger] r.gpu_procs@[i],
                    spec_proc_entries(gpu_info.gpus@)[i],
                    table@,
                    spec_index_keys(r.ctr_index()),
                ),
            forall|i: int, j: int|
                0 <= i < r.gpu_procs@.len() && 0 <= j < r.gpu_procs@.len()
                    && (#[trigger] r.gpu_procs@[i]).pid == (#[trigger] r.gpu_procs@[j]).pid ==> {
                    &&& r.gpu_procs@[i].uid == r.gpu_procs@[j].uid
                    &&& r.gpu_procs@[i].gid == r.gpu_procs@[j].gid
                    &&& r.gpu_procs@[i].ctr_pid == r.gpu_procs@[j].ctr_pid
                },
            containers is None ==> forall|i: int|
                0 <= i < r.gpu_procs@.len() ==> (#[trigger] r.gpu_procs@[i]).ctr_pid is None,
    {
        let ctr_map: Option<HashMap<u32, Container>> = match containers {
            Some(cs) => Some(build_ctr_map(cs)),
            None => None,
        };
        let ghost keys = spec_index_keys(
            match ctr_map {
                Some(ref m) => Some(m@),
                None => None,
            },
        );
        let mut procs: Vec<GProcess> = Vec::new();
        let mut memo: HashMap<u32, (u32, u32, Option<u32>)> = HashMap::new();
        let mut gi: usize = 0;
        let ghost gpus = gpu_info.gpus@;
        while gi < gpu_info.gpus.len()
            invariant
                gi <= gpus.len() <= 256,
                gpus == gpu_info.gpus@,
                keys == spec_index_keys(
                    match ctr_map {
                        Some(m) => Some(m@),
                        None => None,
                    },
                ),
                procs@.len() == spec_proc_entries(gpus.take(gi as int)).len(),
                forall|i: int|
                    0 <= i < procs@.len() ==> proc_matches(
                        #[trigger] procs@[i],
                        spec_proc_entries(gpus.take(gi as int))[i],
                        table@,
                        keys,
                    ),
                forall|k: u32| #[trigger]
                    memo@.contains_key(k) ==> memo@[k] == resolve_from(table@, keys, k),
            decreases gpus.len() - gi,
        {
            let gpu = &gpu_info.gpus[gi];
            let ghost base = spec_proc_entries(gpus.take(gi as int));
            match &gpu.processes.items {
                Some(items) => {
                    let mut k: usize = 0;
                    while k < items.len()
                        invariant
                            gi < gpus.len() <= 256,
                            gpus == gpu_info.gpus@,
                            gpu == gpu_info.gpus@[gi as int],
                            keys == spec_index_keys(
                                match ctr_map {
                                    Some(m) => Some(m@),
                                    None => None,
                                },
                            ),
                            k <= items@.len(),
                            gpu.processes.items matches Some(v) && v@ == items@,
                            base == spec_proc_entries(gpus.take(gi as int)),
                            procs@.len() == base.len() + k,
                            forall|i: int|
                                0 <= i < base.len() ==> proc_matches(
                                    #[trigger] procs@[i],
                                    base[i],
                                    table@,
                                    keys,
                                ),
                            forall|i: int|
                                base.len() <= i < procs@.len() ==> proc_matches(
                                    #[trigger] procs@[i],
                                    (gi as int, items@[i - base.len()]),
                                    table@,
                                    keys,
                                ),
                            forall|k2: u32| #[trigger]
                                memo@.contains_key(k2) ==> memo@[k2] == resolve_from(
                                    table@,
                                    keys,
                                    k2,
                                ),
                        decreases items@.len() - k,
                    {
                        let item = &items[k];
                        let pid = item.pid;
                        let trip: (u32, u32, Option<u32>) = match memo.get(&pid) {
                            Some(t) => *t,
                            None => {
                                let t = get_process(table, pid, &ctr_map);
                                memo.insert(pid, t);
                                t
                            },
                        };
                        procs.push(
                            GProcess {
                                gpu_id: gi as u8,
                                pid,
                                uid: trip.0,
                                gid: trip.1,
                                ctr_pid: trip.2,
                                gpu_info: item.duplicate(),
                            },
                        );
                        k = k + 1;
                    }
                },
                None => {
                },
            }
            proof {
                lemma_proc_entries_step(gpus, gi as int);
            }
            gi = gi + 1;
        }
        proof {
            assert(gpus.take(gpus.len() as int) =~= gpus);
            if ctr_map is None {
                assert forall|i: int|
                    0 <= i < procs@.len() implies (#[trigger] procs@[i]).ctr_pid is None by {
                    lemma_absent_index_no_container(
                        table@,
                        spec_proc_entries(gpus)[i].1.pid,
                        0,
                        0,
                        MAX_HOPS as nat,
                    );
                }
            }
        }
        ProcessData { gpu_procs: procs, ctr_map, gpu_info }
    }

    pub fn items(&self) -> (r: &Vec<GProcess>)
        ensures
            r == &self.gpu_procs,
    {
        &self.gpu_procs
    }
}

impl GProcess {
    /// The container this process was attributed to, looked up in the
    /// refresh's index; nothing when the index is absent or the walk found
    /// no container.
    pub fn container<'a>(&self, pd: &'a ProcessData) -> (r: Option<&'a Container>)
        ensures
            match (pd.ctr_index(), self.ctr_pid) {
                (Some(m), Some(cp)) => match r {
                    Some(c) => m.contains_key(cp) && *c == m[cp],
                    None => !m.contains_key(cp),
                },
                _ => r is None,
            },
    {
        match (&pd.ctr_map, self.ctr_pid) {
            (Some(map), Some(cp)) => map.get(&cp),
            _ => None,
        }
    }

    /// The backend's usage record for this process.
    pub fn gpu_usage(&self) -> (r: &ProcessInfo)
        ensures
            r == &self.gpu_info,
    {
        &self.gpu_info
    }
}

} // verus!
