//! Comparison logging: the operand pairs that the target's compare
//! instructions saw, and their reduction to a list of constants worth
//! feeding back into mutation.
use vstd::prelude::*;

use crate::metadata::MetadataMap;

verus! {

/// The operands of one logged comparison.
#[derive(Debug)]
pub enum CmpValues {
    U8((u8, u8)),
    U16((u16, u16)),
    U32((u32, u32)),
    U64((u64, u64)),
    Bytes((Vec<u8>, Vec<u8>)),
}

/// What a logged comparison holds, with byte operands as sequences.
pub enum CmpValuesView {
    U8(u8, u8),
    U16(u16, u16),
    U32(u32, u32),
    U64(u64, u64),
    Bytes(Seq<u8>, Seq<u8>),
}

impl View for CmpValues {
    type V = CmpValuesView;

    open spec fn view(&self) -> CmpValuesView {
        match self {
            CmpValues::U8(t) => CmpValuesView::U8(t.0, t.1),
            CmpValues::U16(t) => CmpValuesView::U16(t.0, t.1),
            CmpValues::U32(t) => CmpValuesView::U32(t.0, t.1),
            CmpValues::U64(t) => CmpValuesView::U64(t.0, t.1),
            CmpValues::Bytes(t) => CmpValuesView::Bytes(t.0@, t.1@),
        }
    }
}

/// The operands zero-extended to 64 bits; `None` for byte operands.
pub open spec fn numeric_pair(v: CmpValuesView) -> Option<(u64, u64)> {
    match v {
        CmpValuesView::U8(a, b) => Some((a as u64, b as u64)),
        CmpValuesView::U16(a, b) => Some((a as u64, b as u64)),
        CmpValuesView::U32(a, b) => Some((a as u64, b as u64)),
        CmpValuesView::U64(a, b) => Some((a, b)),
        CmpValuesView::Bytes(_, _) => None,
    }
}

impl CmpValues {
    /// Whether the operands are integers.
    pub fn is_numeric(&self) -> (r: bool)
        ensures
            r == numeric_pair(self@).is_some(),
            r == !(self is Bytes),
    {
        match self {
            CmpValues::U8(_) | CmpValues::U16(_) | CmpValues::U32(_) | CmpValues::U64(_) => true,
            CmpValues::Bytes(_) => false,
        }
    }

    /// The operands zero-extended to 64 bits, or `None` for byte operands.
    pub fn to_u64_tuple(&self) -> (r: Option<(u64, u64)>)
        ensures
            r == numeric_pair(self@),
    {
        match self {
            CmpValues::U8(t) => Some((t.0 as u64, t.1 as u64)),
            CmpValues::U16(t) => Some((t.0 as u64, t.1 as u64)),
            CmpValues::U32(t) => Some((t.0 as u64, t.1 as u64)),
            CmpValues::U64(t) => Some((t.0, t.1)),
            CmpValues::Bytes(_) => None,
        }
    }

    /// A copy of the logged operands.
    pub fn duplicate(&self) -> (r: CmpValues)
        ensures
            r@ == self@,
    {
        match self {
            CmpValues::U8(t) => CmpValues::U8((t.0, t.1)),
            CmpValues::U16(t) => CmpValues::U16((t.0, t.1)),
            CmpValues::U32(t) => CmpValues::U32((t.0, t.1)),
            CmpValues::U64(t) => CmpValues::U64((t.0, t.1)),
            CmpValues::Bytes(t) => CmpValues::Bytes((t.0.clone(), t.1.clone())),
        }
    }
}

/// The views of a list of logged comparisons.
pub open spec fn cmp_views(s: Seq<CmpValues>) -> Seq<CmpValuesView> {
    s.map_values(|v: CmpValues| v@)
}

/// A state metadata holding a list of values logged from comparisons.
#[derive(Debug)]
pub struct CmpValuesMetadata {
    /// The values, in the order in which they were collected.
    pub list: Vec<CmpValues>,
}

impl CmpValuesMetadata {
    /// An empty list.
    pub fn new() -> (r: Self)
        ensures
            r.list@.len() == 0,
    {
        CmpValuesMetadata { list: Vec::new() }
    }

    /// The values as a slice.
    pub fn as_slice(&self) -> (r: &[CmpValues])
        ensures
            r@ == self.list@,
    {
        self.list.as_slice()
    }
}

/// The log of one compare site: how often it ran, and the operands of the
/// most recent runs in a circular buffer.
#[derive(Debug)]
pub struct CmpSite {
    executions: usize,
    log: Vec<CmpValues>,
}

/// A bounded table of comparison logs, addressed by compare-site index.
#[derive(Debug)]
pub struct CmpMap {
    sites: Vec<CmpSite>,
    capacity: usize,
}

impl CmpMap {
    /// Each site's buffer holds at most `capacity` entries, and `capacity`
    /// is positive.
    pub closed spec fn wf(&self) -> bool {
        &&& self.capacity > 0
        &&& forall|i: int| 0 <= i < self.sites@.len() ==> #[trigger] self.sites@[i].log@.len() <= self.capacity
    }

    pub closed spec fn spec_len(&self) -> nat {
        self.sites@.len()
    }

    pub closed spec fn spec_capacity(&self) -> nat {
        self.capacity as nat
    }

    pub closed spec fn spec_executions_for(&self, i: int) -> nat {
        self.sites@[i].executions as nat
    }

    /// The buffer of site `i`, in buffer order.
    pub closed spec fn spec_log(&self, i: int) -> Seq<CmpValuesView> {
        cmp_views(self.sites@[i].log@)
    }

    pub closed spec fn spec_usable_executions_for(&self, i: int) -> nat {
        let e = self.sites@[i].executions as nat;
        let l = self.sites@[i].log@.len();
        if e < l { e } else { l }
    }

    /// The usable entries of a site are as many as its runs, but no more
    /// than its buffer holds.
    pub proof fn lemma_usable_executions(&self, i: int)
        requires
            0 <= i < self.spec_len(),
        ensures
            self.spec_usable_executions_for(i) == if self.spec_executions_for(i) < self.spec_log(i).len() {
                self.spec_executions_for(i)
            } else {
                self.spec_log(i).len()
            },
    {
    }

    /// The usable entries of site `i`, in buffer order.
    pub open spec fn usable_values(&self, i: int) -> Seq<CmpValuesView> {
        self.spec_log(i).take(self.spec_usable_executions_for(i) as int)
    }

    /// A table of `len` sites, none of them run yet, each keeping the
    /// operands of its last `capacity` runs.
    pub fn new(len: usize, capacity: usize) -> (r: Self)
        requires
            capacity > 0,
        ensures
            r.wf(),
            r.spec_len() == len,
            r.spec_capacity() == capacity,
            forall|i: int| 0 <= i < len ==> #[trigger] r.spec_executions_for(i) == 0 && r.spec_log(i).len() == 0,
    {
        let mut sites: Vec<CmpSite> = Vec::new();
        let mut k: usize = 0;
        while k < len
            invariant
                k <= len,
                sites@.len() == k,
                forall|i: int| 0 <= i < k ==> (#[trigger] sites@[i]).executions == 0 && sites@[i].log@.len() == 0,
            decreases len - k,
        {
            let site = CmpSite { executions: 0, log: Vec::new() };
            assert(site.log@.len() == 0);
            sites.push(site);
            k = k + 1;
        }
        assert forall|i: int| 0 <= i < sites@.len() implies #[trigger] sites@[i].log@.len() <= capacity
            && sites@[i].executions == 0 && sites@[i].log@.len() == 0 by {
            assert(sites@[i].executions == 0 && sites@[i].log@.len() == 0);
        }
        CmpMap { sites, capacity }
    }

    /// The number of compare sites.
    pub fn len(&self) -> (r: usize)
        ensures
            r == self.spec_len(),
    {
        self.sites.len()
    }

    /// Whether the table has no sites.
    pub fn is_empty(&self) -> (r: bool)
        ensures
            r == (self.spec_len() == 0),
    {
        self.sites.len() == 0
    }

    /// How many entries each site keeps.
    pub fn capacity(&self) -> (r: usize)
        ensures
            r == self.spec_capacity(),
    {
        self.capacity
    }

    /// How often site `i` ran since the last reset (wrapping).
    pub fn executions_for(&self, i: usize) -> (r: usize)
        requires
            i < self.spec_len(),
        ensures
            r == self.spec_executions_for(i as int),
    {
        self.sites[i].executions
    }

    /// How many logged entries of site `i` can be read.
    pub fn usable_executions_for(&self, i: usize) -> (r: usize)
        requires
            i < self.spec_len(),
        ensures
            r == self.spec_usable_executions_for(i as int),
    {
        let e = self.sites[i].executions;
        let l = self.sites[i].log.len();
        if e < l { e } else { l }
    }

    /// The `j`-th logged entry of site `i`.
    pub fn values_of(&self, i: usize, j: usize) -> (r: &CmpValues)
        requires
            i < self.spec_len(),
            j < self.spec_log(i as int).len(),
        ensures
            r@ == self.spec_log(i as int)[j as int],
    {
        &self.sites[i].log[j]
    }

    /// Logs one run of site `i`: its counter goes up by one (wrapping) and
    /// the operands are appended, or overwrite the oldest slot of a full
    /// buffer.
    pub fn record(&mut self, i: usize, v: CmpValues)
        requires
            old(self).wf(),
            i < old(self).spec_len(),
        ensures
            final(self).wf(),
            final(self).spec_len() == old(self).spec_len(),
            final(self).spec_capacity() == old(self).spec_capacity(),
            final(self).spec_executions_for(i as int)
                == if old(self).spec_executions_for(i as int) == usize::MAX { 0 } else { old(self).spec_executions_for(i as int) + 1 },
            ({
                let e = old(self).spec_executions_for(i as int);
                let lg = old(self).spec_log(i as int);
                if lg.len() < old(self).spec_capacity() {
                    final(self).spec_log(i as int) == lg.push(v@)
                } else {
                    final(self).spec_log(i as int) == lg.update((e % old(self).spec_capacity()) as int, v@)
                }
            }),
            forall|k: int| 0 <= k < old(self).spec_len() && k != i ==> #[trigger] final(self).spec_executions_for(k) == old(self).spec_executions_for(k) && final(self).spec_log(k) == old(self).spec_log(k),
    {
        let cap = self.capacity;
        let mut site = CmpSite { executions: 0, log: Vec::new() };
        std::mem::swap(&mut site, &mut self.sites[i]);
        let e = site.executions;
        site.executions = e.wrapping_add(1);
        if site.log.len() < cap {
            site.log.push(v);
            proof {
                assert(cmp_views(site.log@) =~= cmp_views(old(self).sites@[i as int].log@).push(v@));
            }
        } else {
            site.log.set(e % cap, v);
            proof {
                assert(cmp_views(site.log@) =~= cmp_views(old(self).sites@[i as int].log@).update((e % cap) as int, v@));
            }
        }
        self.sites.set(i, site);
    }

    /// Whether the usable entries of site `i` step like a loop counter.
    pub fn looks_like_loop(&self, i: usize, execs: usize) -> (r: bool)
        requires
            self.wf(),
            i < self.spec_len(),
            execs == self.spec_usable_executions_for(i as int),
            execs > 4,
        ensures
            r == is_loop_counter(self.usable_values(i as int)),
    {
        let ghost vals = self.usable_values(i as int);
        let mut increasing_v0: usize = 0;
        let mut increasing_v1: usize = 0;
        let mut decreasing_v0: usize = 0;
        let mut decreasing_v1: usize = 0;
        let mut j: usize = 1;
        while j < execs
            invariant
                1 <= j <= execs,
                execs == vals.len(),
                vals == self.usable_values(i as int),
                execs <= self.spec_log(i as int).len(),
                i < self.spec_len(),
                increasing_v0 == step_count(vals, 0, j as int),
                increasing_v1 == step_count(vals, 1, j as int),
                decreasing_v0 == step_count(vals, 2, j as int),
                decreasing_v1 == step_count(vals, 3, j as int),
                increasing_v0 < j && increasing_v1 < j && decreasing_v0 < j && decreasing_v1 < j,
            decreases execs - j,
        {
            let last = self.values_of(i, j - 1).to_u64_tuple();
            let val = self.values_of(i, j).to_u64_tuple();
            if let Some(l) = last {
                if let Some(v) = val {
                    if l.0.wrapping_add(1) == v.0 {
                        increasing_v0 = increasing_v0 + 1;
                    }
                    if l.1.wrapping_add(1) == v.1 {
                        increasing_v1 = increasing_v1 + 1;
                    }
                    if l.0.wrapping_sub(1) == v.0 {
                        decreasing_v0 = decreasing_v0 + 1;
                    }
                    if l.1.wrapping_sub(1) == v.1 {
                        decreasing_v1 = decreasing_v1 + 1;
                    }
                }
            }
            j = j + 1;
        }
        let r = increasing_v0 >= execs - 2 || increasing_v1 >= execs - 2 || decreasing_v0 >= execs - 2
            || decreasing_v1 >= execs - 2;
        proof {
            let e = execs as int;
            if r {
                if increasing_v0 >= execs - 2 {
                    assert(step_count(vals, 0, e) >= e - 2);
                } else if increasing_v1 >= execs - 2 {
                    assert(step_count(vals, 1, e) >= e - 2);
                } else if decreasing_v0 >= execs - 2 {
                    assert(step_count(vals, 2, e) >= e - 2);
                } else {
                    assert(step_count(vals, 3, e) >= e - 2);
                }
            } else {
                assert forall|dir: int| 0 <= dir < 4 implies #[trigger] step_count(vals, dir, e) < e - 2 by {
                    if dir == 0 {} else if dir == 1 {} else if dir == 2 {} else {}
                }
            }
        }
        r
    }

    /// Forgets every logged run.
    pub fn reset(&mut self)
        requires
            old(self).wf(),
        ensures
            final(self).wf(),
            final(self).spec_len() == old(self).spec_len(),
            final(self).spec_capacity() == old(self).spec_capacity(),
            forall|i: int| 0 <= i < final(self).spec_len() ==> #[trigger] final(self).spec_executions_for(i) == 0 && final(self).spec_log(i).len() == 0,
    {
        let len = self.sites.len();
        let mut k: usize = 0;
        while k < len
            invariant
                k <= len,
                len == self.sites@.len(),
                len == old(self).sites@.len(),
                self.capacity == old(self).capacity,
                self.wf(),
                forall|i: int| 0 <= i < k ==> (#[trigger] self.sites@[i]).executions == 0 && self.sites@[i].log@.len() == 0,
            decreases len - k,
        {
            let fresh = CmpSite { executions: 0, log: Vec::new() };
            assert(fresh.log@.len() == 0);
            self.sites.set(k, fresh);
            k = k + 1;
        }
        assert forall|i: int| 0 <= i < self.spec_len() implies #[trigger] self.spec_executions_for(i) == 0 && self.spec_log(i).len() == 0 by {
            let site = self.sites@[i];
            assert(site.executions == 0 && site.log@.len() == 0);
        }
    }
}

/// Whether `b` follows `a` by one of the four monotone steps: the first
/// (`dir == 0`) or second (`dir == 1`) operand up by one, or the first
/// (`dir == 2`) or second (`dir == 3`) operand down by one, all wrapping.
pub open spec fn monotone_step(a: CmpValuesView, b: CmpValuesView, dir: int) -> bool {
    match (numeric_pair(a), numeric_pair(b)) {
        (Some(l), Some(v)) => if dir == 0 {
            l.0.wrapping_add(1) == v.0
        } else if dir == 1 {
            l.1.wrapping_add(1) == v.1
        } else if dir == 2 {
            l.0.wrapping_sub(1) == v.0
        } else {
            l.1.wrapping_sub(1) == v.1
        },
        _ => false,
    }
}

/// Among the first `n` entries of `vals`, how many adjacent pairs take the
/// step `dir`.
pub open spec fn step_count(vals: Seq<CmpValuesView>, dir: int, n: int) -> nat
    decreases n,
{
    if n <= 1 {
        0
    } else {
        step_count(vals, dir, n - 1) + if monotone_step(vals[n - 2], vals[n - 1], dir) { 1nat } else { 0nat }
    }
}

/// A site whose log looks like a loop counter: more than four entries, and
/// all but at most two adjacent pairs step the same way (the slack absorbs
/// one wrap of the circular buffer).
pub open spec fn is_loop_counter(vals: Seq<CmpValuesView>) -> bool {
    let e = vals.len() as int;
    e > 4 && exists|dir: int| 0 <= dir < 4 && #[trigger] step_count(vals, dir, e) >= e - 2
}

/// What a site contributes to the metadata: its usable entries, unless
/// there are none or they look like a loop counter.
pub open spec fn site_contribution(vals: Seq<CmpValuesView>) -> Seq<CmpValuesView> {
    if vals.len() == 0 || is_loop_counter(vals) { Seq::empty() } else { vals }
}

/// The metadata list for the first `n` sites of `map`, in site order.
pub open spec fn cmp_meta_list(map: CmpMap, n: int) -> Seq<CmpValuesView>
    decreases n,
{
    if n <= 0 {
        Seq::empty()
    } else {
        cmp_meta_list(map, n - 1) + site_contribution(map.usable_values(n - 1))
    }
}

/// A comparison observer: a named table of comparison logs, of which the
/// first `usable_count` sites are read.
pub struct StdCmpObserver {
    map: CmpMap,
    size: Option<usize>,
    name: String,
}

/// Observers that log comparisons in a `CmpMap`.
pub trait CmpObserver {
    spec fn spec_usable_count(&self) -> nat;

    spec fn spec_map(&self) -> CmpMap;

    /// The number of sites to read.
    fn usable_count(&self) -> (r: usize)
        ensures
            r == self.spec_usable_count();

    /// The comparison table.
    fn map(&self) -> (r: &CmpMap)
        ensures
            *r == self.spec_map();

    /// Rewrites the state's comparison metadata from the logged runs: for
    /// each usable site in order, its usable entries, unless it has none or
    /// they step like a loop counter.
    fn add_cmpvalues_meta(&self, metadata: &mut MetadataMap)
        requires
            self.spec_map().wf(),
            self.spec_usable_count() <= self.spec_map().spec_len(),
        ensures
            final(metadata).cmp_values_view() == Some(cmp_meta_list(self.spec_map(), self.spec_usable_count() as int)),
    {
        let mut list: Vec<CmpValues> = Vec::new();
        let count = self.usable_count();
        let map = self.map();
        let mut i: usize = 0;
        while i < count
            invariant
                map.wf(),
                *map == self.spec_map(),
                count <= map.spec_len(),
                count == self.spec_usable_count(),
                i <= count,
                cmp_views(list@) == cmp_meta_list(*map, i as int),
            decreases count - i,
        {
            let execs = map.usable_executions_for(i);
            let ghost vals = map.usable_values(i as int);
            let ghost before = list@;
            if execs > 0 {
                let skip = execs > 4 && map.looks_like_loop(i, execs);
                if !skip {
                    let mut j: usize = 0;
                    while j < execs
                        invariant
                            j <= execs,
                            execs == vals.len(),
                            vals == map.usable_values(i as int),
                            execs <= map.spec_log(i as int).len(),
                            i < map.spec_len(),
                            cmp_views(list@) == cmp_views(before) + vals.take(j as int),
                        decreases execs - j,
                    {
                        let ghost prev = list@;
                        let x = map.values_of(i, j).duplicate();
                        list.push(x);
                        proof {
                            assert(cmp_views(list@) =~= cmp_views(prev).push(x@));
                            assert(vals.take(j + 1) =~= vals.take(j as int).push(vals[j as int]));
                            assert(cmp_views(list@) =~= cmp_views(before) + vals.take(j + 1));
                        }
                        j = j + 1;
                    }
                    assert(vals.take(execs as int) =~= vals);
                    assert(!is_loop_counter(vals));
                } else {
                    assert(is_loop_counter(vals));
                }
            }
            proof {
                assert(cmp_views(list@) =~= cmp_meta_list(*map, i as int) + site_contribution(vals));
            }
            i = i + 1;
        }
        metadata.set_cmp_values(CmpValuesMetadata { list });
    }
}

impl CmpObserver for StdCmpObserver {
    closed spec fn spec_usable_count(&self) -> nat {
        match self.size {
            Some(s) => s as nat,
            None => self.map.spec_len(),
        }
    }

    closed spec fn spec_map(&self) -> CmpMap {
        self.map
    }

    fn usable_count(&self) -> (r: usize) {
        match self.size {
            Some(s) => s,
            None => self.map.len(),
        }
    }

    fn map(&self) -> (r: &CmpMap) {
        &self.map
    }
}

impl StdCmpObserver {
    /// The map is well formed and the usable count within it.
    pub closed spec fn wf(&self) -> bool {
        &&& self.map.wf()
        &&& self.spec_usable_count() <= self.map.spec_len()
    }

    pub closed spec fn spec_name(&self) -> Seq<char> {
        self.name@
    }

    /// An observer named `name` that reads every site of `map`.
    pub fn new(name: &str, map: CmpMap) -> (r: Self)
        requires
            map.wf(),
        ensures
            r.wf(),
            r.spec_name() == name@,
            r.spec_map() == map,
            r.spec_usable_count() == map.spec_len(),
    {
        StdCmpObserver { map, size: None, name: String::from_str(name) }
    }

    /// An observer named `name` that reads the first `size` sites of `map`.
    pub fn with_size(name: &str, map: CmpMap, size: usize) -> (r: Self)
        requires
            map.wf(),
            size <= map.spec_len(),
        ensures
            r.wf(),
            r.spec_name() == name@,
            r.spec_map() == map,
            r.spec_usable_count() == size,
    {
        StdCmpObserver { map, size: Some(size), name: String::from_str(name) }
    }

    /// The observer's name.
    pub fn name(&self) -> (r: &str)
        ensures
            r@ == self.spec_name(),
    {
        self.name.as_str()
    }

    /// Logs one run of site `i` into the observer's table.
    pub fn record(&mut self, i: usize, v: CmpValues)
        requires
            old(self).wf(),
            i < old(self).spec_map().spec_len(),
        ensures
            final(self).wf(),
            final(self).spec_name() == old(self).spec_name(),
            final(self).spec_usable_count() == old(self).spec_usable_count(),
            final(self).spec_map().spec_len() == old(self).spec_map().spec_len(),
            final(self).spec_map().spec_capacity() == old(self).spec_map().spec_capacity(),
            final(self).spec_map().spec_executions_for(i as int)
                == if old(self).spec_map().spec_executions_for(i as int) == usize::MAX { 0 } else { old(self).spec_map().spec_executions_for(i as int) + 1 },
            ({
                let e = old(self).spec_map().spec_executions_for(i as int);
                let lg = old(self).spec_map().spec_log(i as int);
                if lg.len() < old(self).spec_map().spec_capacity() {
                    final(self).spec_map().spec_log(i as int) == lg.push(v@)
                } else {
                    final(self).spec_map().spec_log(i as int) == lg.update((e % old(self).spec_map().spec_capacity()) as int, v@)
                }
            }),
            forall|k: int| 0 <= k < old(self).spec_map().spec_len() && k != i ==> #[trigger] final(self).spec_map().spec_executions_for(k) == old(self).spec_map().spec_executions_for(k) && final(self).spec_map().spec_log(k) == old(self).spec_map().spec_log(k),
    {
        self.map.record(i, v);
        assert forall|k: int| 0 <= k < old(self).spec_map().spec_len() && k != i implies #[trigger] final(self).spec_map().spec_executions_for(k) == old(self).spec_map().spec_executions_for(k) && final(self).spec_map().spec_log(k) == old(self).spec_map().spec_log(k) by {
            assert(self.map.spec_executions_for(k) == old(self).map.spec_executions_for(k));
        }
    }

    /// Before a run: forget every logged comparison.
    pub fn pre_exec(&mut self)
        requires
            old(self).wf(),
        ensures
            final(self).wf(),
            final(self).spec_name() == old(self).spec_name(),
            final(self).spec_usable_count() == old(self).spec_usable_count(),
            final(self).spec_map().spec_len() == old(self).spec_map().spec_len(),
            final(self).spec_map().spec_capacity() == old(self).spec_map().spec_capacity(),
            forall|i: int| 0 <= i < final(self).spec_map().spec_len() ==> #[trigger] final(self).spec_map().spec_executions_for(i) == 0 && final(self).spec_map().spec_log(i).len() == 0,
    {
        self.map.reset();
    }
}

/// Whether the `j`-th adjacent pair of `vals` takes the step `dir`.
pub open spec fn pair_steps(vals: Seq<CmpValuesView>, dir: int, j: int) -> bool {
    monotone_step(vals[j - 1], vals[j], dir)
}

/// At two adjacent pairs or more, `vals` fails to take the step `dir`.
pub open spec fn broken_twice(vals: Seq<CmpValuesView>, dir: int) -> bool {
    exists|j1: int, j2: int| #![trigger pair_steps(vals, dir, j1), pair_steps(vals, dir, j2)]
        1 <= j1 < j2 < vals.len() && !pair_steps(vals, dir, j1) && !pair_steps(vals, dir, j2)
}

proof fn lemma_step_count_all(vals: Seq<CmpValuesView>, dir: int, n: int)
    requires
        1 <= n <= vals.len(),
        forall|j: int| 1 <= j < vals.len() ==> #[trigger] pair_steps(vals, dir, j),
    ensures
        step_count(vals, dir, n) == n - 1,
    decreases n,
{
    if n > 1 {
        lemma_step_count_all(vals, dir, n - 1);
        assert(pair_steps(vals, dir, n - 1));
    }
}

proof fn lemma_step_count_bound(vals: Seq<CmpValuesView>, dir: int, n: int)
    requires
        1 <= n,
    ensures
        step_count(vals, dir, n) <= n - 1,
    decreases n,
{
    if n > 1 {
        lemma_step_count_bound(vals, dir, n - 1);
    }
}

proof fn lemma_step_count_one_break(vals: Seq<CmpValuesView>, dir: int, n: int, j1: int)
    requires
        1 <= j1 < n,
        !pair_steps(vals, dir, j1),
    ensures
        step_count(vals, dir, n) <= n - 2,
    decreases n,
{
    if n - 1 == j1 {
        lemma_step_count_bound(vals, dir, n - 1);
    } else {
        lemma_step_count_one_break(vals, dir, n - 1, j1);
    }
}

proof fn lemma_step_count_two_breaks(vals: Seq<CmpValuesView>, dir: int, n: int, j1: int, j2: int)
    requires
        1 <= j1 < j2 < n,
        !pair_steps(vals, dir, j1),
        !pair_steps(vals, dir, j2),
    ensures
        step_count(vals, dir, n) <= n - 3,
    decreases n,
{
    if n - 1 == j2 {
        lemma_step_count_one_break(vals, dir, n - 1, j1);
    } else {
        lemma_step_count_two_breaks(vals, dir, n - 1, j1, j2);
    }
}

/// A site of more than four entries in which every adjacent pair takes
/// the same monotone step (an operand counting up or down by one) is
/// treated as a loop counter and contributes nothing.
pub proof fn lemma_monotone_site_is_skipped(vals: Seq<CmpValuesView>, dir: int)
    requires
        vals.len() > 4,
        0 <= dir < 4,
        forall|j: int| 1 <= j < vals.len() ==> #[trigger] pair_steps(vals, dir, j),
    ensures
        is_loop_counter(vals),
        site_contribution(vals) == Seq::<CmpValuesView>::empty(),
{
    lemma_step_count_all(vals, dir, vals.len() as int);
}

/// A site whose entries fail, in each of the four directions, to step at
/// two adjacent pairs or more is no loop counter: all its entries are kept.
pub proof fn lemma_twice_broken_site_is_kept(vals: Seq<CmpValuesView>)
    requires
        vals.len() > 0,
        forall|dir: int| 0 <= dir < 4 ==> #[trigger] broken_twice(vals, dir),
    ensures
        !is_loop_counter(vals),
        site_contribution(vals) == vals,
{
    let e = vals.len() as int;
    assert forall|dir: int| 0 <= dir < 4 implies !(#[trigger] step_count(vals, dir, e) >= e - 2) by {
        assert(broken_twice(vals, dir));
        let (j1, j2) = choose|j1: int, j2: int| #![trigger pair_steps(vals, dir, j1), pair_steps(vals, dir, j2)]
            1 <= j1 < j2 < vals.len() && !pair_steps(vals, dir, j1) && !pair_steps(vals, dir, j2);
        lemma_step_count_two_breaks(vals, dir, e, j1, j2);
    }
}

/// The entries `(k + j, k + j)` for `j` in `0..e`, with the entry at an
/// inner position `p` replaced by `(a, b)`, off the count in both
/// operands: such a site is kept whole. (A replacement at either end
/// breaks a single step, which the slack of two absorbs.)
pub proof fn lemma_broken_counter_is_kept(vals: Seq<CmpValuesView>, k: u64, p: int, a: u64, b: u64)
    requires
        vals.len() > 4,
        k + vals.len() <= u64::MAX,
        0 < p < vals.len() - 1,
        a != k + p,
        b != k + p,
        vals[p] == CmpValuesView::U64(a, b),
        forall|j: int| 0 <= j < vals.len() && j != p ==> #[trigger] vals[j] == CmpValuesView::U64((k + j) as u64, (k + j) as u64),
    ensures
        site_contribution(vals) == vals,
{
    let e = vals.len() as int;
    assert forall|dir: int| 0 <= dir < 4 implies #[trigger] broken_twice(vals, dir) by {
        if dir < 2 {
            assert(vals[p - 1] == CmpValuesView::U64((k + p - 1) as u64, (k + p - 1) as u64));
            assert(vals[p + 1] == CmpValuesView::U64((k + p + 1) as u64, (k + p + 1) as u64));
            assert(!pair_steps(vals, dir, p));
            assert(!pair_steps(vals, dir, p + 1));
        } else {
            let (j1, j2) = if p >= 3 { (1int, 2int) } else if p == 2 { (1int, 4int) } else { (3int, 4int) };
            assert(vals[j1 - 1] == CmpValuesView::U64((k + j1 - 1) as u64, (k + j1 - 1) as u64));
            assert(vals[j1] == CmpValuesView::U64((k + j1) as u64, (k + j1) as u64));
            assert(vals[j2 - 1] == CmpValuesView::U64((k + j2 - 1) as u64, (k + j2 - 1) as u64));
            assert(vals[j2] == CmpValuesView::U64((k + j2) as u64, (k + j2) as u64));
            assert(!pair_steps(vals, dir, j1));
            assert(!pair_steps(vals, dir, j2));
        }
    }
    lemma_twice_broken_site_is_kept(vals);
}

} // verus!
