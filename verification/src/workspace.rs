//! The patch of the XR workspace: which module panels are placed, which
//! cables join them, and the counters that hand out cable colours and
//! dmatex ids. The scene graph and the engine calls stay with the caller,
//! which performs what these operations report.

use vstd::prelude::*;

use crate::cable::{Cable, CABLE_COLOR_COUNT};
use crate::engine::{CableId, CatalogEntry, ModuleId};

verus! {

/// `s` with the entries of module `id` left out, in order.
pub open spec fn modules_without<P>(s: Seq<(ModuleId, P)>, id: ModuleId) -> Seq<(ModuleId, P)>
    decreases s.len(),
{
    if s.len() == 0 {
        Seq::empty()
    } else if s.last().0 == id {
        modules_without(s.drop_last(), id)
    } else {
        modules_without(s.drop_last(), id).push(s.last())
    }
}

/// The cables of `s` that have no end on `module`, in order.
pub open spec fn cables_detached(s: Seq<Cable>, module: ModuleId) -> Seq<Cable>
    decreases s.len(),
{
    if s.len() == 0 {
        Seq::empty()
    } else if s.last().touches(module) {
        cables_detached(s.drop_last(), module)
    } else {
        cables_detached(s.drop_last(), module).push(s.last())
    }
}

/// The ids of the cables of `s` that have an end on `module`, in order.
pub open spec fn cables_touching(s: Seq<Cable>, module: ModuleId) -> Seq<CableId>
    decreases s.len(),
{
    if s.len() == 0 {
        Seq::empty()
    } else if s.last().touches(module) {
        cables_touching(s.drop_last(), module).push(s.last().id)
    } else {
        cables_touching(s.drop_last(), module)
    }
}

/// The cables of `s` other than cable `id`, in order.
pub open spec fn cables_without(s: Seq<Cable>, id: CableId) -> Seq<Cable>
    decreases s.len(),
{
    if s.len() == 0 {
        Seq::empty()
    } else if s.last().id == id {
        cables_without(s.drop_last(), id)
    } else {
        cables_without(s.drop_last(), id).push(s.last())
    }
}

/// No two entries share a module id.
pub open spec fn unique_modules<P>(s: Seq<(ModuleId, P)>) -> bool {
    forall|i: int, j: int| 0 <= i < j < s.len() ==> (#[trigger] s[i]).0 != (#[trigger] s[j]).0
}

/// No two cables share an id.
pub open spec fn unique_cables(s: Seq<Cable>) -> bool {
    forall|i: int, j: int| 0 <= i < j < s.len() ==> (#[trigger] s[i]).id != (#[trigger] s[j]).id
}

/// Some entry of `s` is module `id`.
pub open spec fn has_module<P>(s: Seq<(ModuleId, P)>, id: ModuleId) -> bool {
    exists|i: int| 0 <= i < s.len() && (#[trigger] s[i]).0 == id
}

/// Some cable of `s` has id `id`.
pub open spec fn has_cable(s: Seq<Cable>, id: CableId) -> bool {
    exists|i: int| 0 <= i < s.len() && (#[trigger] s[i]).id == id
}

/// The workspace patch, holding a panel of type `P` for every placed module.
pub struct Workspace<P> {
    pub modules: Vec<(ModuleId, P)>,
    pub cables: Vec<Cable>,
    pub catalog: Vec<CatalogEntry>,
    /// The colour index the next cable gets.
    pub next_cable_color_idx: usize,
    /// The first dmatex id not handed out yet.
    pub next_dmatex_id: u64,
}

impl<P> Workspace<P> {
    /// Module and cable ids are unique and the next colour is a palette slot.
    pub open spec fn well_formed(&self) -> bool {
        &&& unique_modules(self.modules@)
        &&& unique_cables(self.cables@)
        &&& self.next_cable_color_idx < CABLE_COLOR_COUNT
    }

    /// The colour index the next cable gets.
    pub open spec fn next_color(&self) -> usize {
        self.next_cable_color_idx
    }

    /// The first dmatex id not handed out yet.
    pub open spec fn next_dmatex(&self) -> u64 {
        self.next_dmatex_id
    }

    /// An empty workspace offering `catalog`; dmatex ids start at 1.
    pub fn new(catalog: Vec<CatalogEntry>) -> (ws: Self)
        ensures
            ws.well_formed(),
            ws.modules@.len() == 0,
            ws.cables@.len() == 0,
            ws.catalog == catalog,
            ws.next_color() == 0,
            ws.next_dmatex() == 1,
    {
        Workspace {
            modules: Vec::new(),
            cables: Vec::new(),
            catalog,
            next_cable_color_idx: 0,
            next_dmatex_id: 1,
        }
    }

    /// The colour index the next cable gets.
    pub fn next_cable_color_idx(&self) -> (c: usize)
        ensures
            c == self.next_color(),
    {
        self.next_cable_color_idx
    }

    /// The first dmatex id not handed out yet.
    pub fn next_dmatex_id(&self) -> (d: u64)
        ensures
            d == self.next_dmatex(),
    {
        self.next_dmatex_id
    }

    /// The position of module `id` in `modules`, if it is placed.
    pub fn module_index(&self, id: ModuleId) -> (found: Option<usize>)
        ensures
            match found {
                Some(i) => i < self.modules@.len() && self.modules@[i as int].0 == id,
                None => !has_module(self.modules@, id),
            },
    {
        let mut i: usize = 0;
        while i < self.modules.len()
            invariant
                i <= self.modules@.len(),
                forall|k: int| 0 <= k < i ==> (#[trigger] self.modules@[k]).0 != id,
            decreases self.modules@.len() - i,
        {
            if self.modules[i].0 == id {
                return Some(i);
            }
            i = i + 1;
        }
        None
    }

    /// Hand out the two dmatex ids of a new double-buffered module texture.
    pub fn allocate_dmatex_ids(&mut self) -> (ids: [u64; 2])
        requires
            old(self).next_dmatex() <= u64::MAX - 2,
        ensures
            ids@ == seq![old(self).next_dmatex(), (old(self).next_dmatex() + 1) as u64],
            final(self).next_dmatex() == old(self).next_dmatex() + 2,
            final(self).modules == old(self).modules,
            final(self).cables == old(self).cables,
            final(self).catalog == old(self).catalog,
            final(self).next_color() == old(self).next_color(),
    {
        let first = self.next_dmatex_id;
        let second = self.next_dmatex_id + 1;
        self.next_dmatex_id = self.next_dmatex_id + 2;
        let ids = [first, second];
        assert(ids@ =~= seq![first, second]);
        ids
    }

    /// Place a module panel, replacing the panel of a module with the same id.
    pub fn insert_module(&mut self, id: ModuleId, panel: P)
        requires
            old(self).well_formed(),
        ensures
            final(self).well_formed(),
            final(self).modules@ == modules_without(old(self).modules@, id).push((id, panel)),
            final(self).modules@ == old(self).modules@.filter(|e: (ModuleId, P)| e.0 != id).push((id, panel)),
            final(self).cables == old(self).cables,
            final(self).catalog == old(self).catalog,
            final(self).next_color() == old(self).next_color(),
            final(self).next_dmatex() == old(self).next_dmatex(),
    {
        let ghost initial = self.modules@;
        self.remove_module_entry(id);
        let ghost before = self.modules@;
        self.modules.push((id, panel));
        proof {
            lemma_modules_without_keeps_others(initial, id);
            lemma_modules_without_lacks(initial, id);
            assert forall|i: int, j: int| 0 <= i < j < self.modules@.len() implies (#[trigger] self.modules@[i]).0 != (#[trigger] self.modules@[j]).0 by {
                if j == before.len() {
                    assert(before[i].0 != id);
                } else {
                    assert(self.modules@[i] == before[i] && self.modules@[j] == before[j]);
                }
            }
        }
    }

    /// Take the panel of module `id` out of `modules`.
    fn remove_module_entry(&mut self, id: ModuleId)
        requires
            old(self).well_formed(),
        ensures
            final(self).well_formed(),
            final(self).modules@ == modules_without(old(self).modules@, id),
            final(self).cables == old(self).cables,
            final(self).catalog == old(self).catalog,
            final(self).next_color() == old(self).next_color(),
            final(self).next_dmatex() == old(self).next_dmatex(),
    {
        let mut rest: Vec<(ModuleId, P)> = Vec::new();
        std::mem::swap(&mut rest, &mut self.modules);
        let ghost all = rest@;
        let mut reversed = reverse_vec(rest);
        let mut kept: Vec<(ModuleId, P)> = Vec::new();
        let ghost mut done: int = 0;
        while reversed.len() > 0
            invariant
                0 <= done <= all.len(),
                all.len() == done + reversed@.len(),
                reversed@.reverse() == all.subrange(done, all.len() as int),
                kept@ == modules_without(all.subrange(0, done), id),
            decreases reversed@.len(),
        {
            let ghost before_rev = reversed@;
            let entry = reversed.pop().unwrap();
            proof {
                assert(before_rev =~= reversed@.push(entry));
                assert(before_rev.reverse() =~= seq![entry] + reversed@.reverse());
                let tail = reversed@.reverse();
                let whole = before_rev.reverse();
                assert(tail =~= whole.subrange(1, whole.len() as int));
                assert(whole.subrange(1, whole.len() as int) =~= all.subrange(done + 1, all.len() as int));
                assert(all[done] == entry) by {
                    assert(all.subrange(done, all.len() as int)[0] == all[done]);
                }
                assert(all.subrange(0, done + 1).drop_last() =~= all.subrange(0, done));
                assert(all.subrange(0, done + 1).last() == entry);
            }
            if entry.0 != id {
                kept.push(entry);
            }
            proof {
                done = done + 1;
            }
        }
        proof {
            assert(all.subrange(0, done) =~= all);
            lemma_modules_without_unique(all, id);
        }
        self.modules = kept;
    }

    /// Remove module `id` and every cable with an end on it. Returns the ids
    /// of the removed cables, in patch order, for the caller to destroy in
    /// the engine.
    pub fn destroy_module(&mut self, id: ModuleId) -> (removed: Vec<CableId>)
        requires
            old(self).well_formed(),
        ensures
            final(self).well_formed(),
            removed@ == cables_touching(old(self).cables@, id),
            final(self).cables@ == cables_detached(old(self).cables@, id),
            final(self).modules@ == modules_without(old(self).modules@, id),
            final(self).modules@ == old(self).modules@.filter(|e: (ModuleId, P)| e.0 != id),
            final(self).cables@ == old(self).cables@.filter(
                |c: Cable| c.out_module != id && c.in_module != id,
            ),
            removed@ == old(self).cables@.filter(|c: Cable| c.out_module == id || c.in_module == id).map_values(
                |c: Cable| c.id,
            ),
            forall|k: int|
                0 <= k < final(self).cables@.len() ==> (#[trigger] final(self).cables@[k]).out_module != id
                    && final(self).cables@[k].in_module != id,
            forall|c: CableId|
                #[trigger] removed@.contains(c) ==> exists|j: int|
                    0 <= j < old(self).cables@.len() && old(self).cables@[j].id == c && (
                    old(self).cables@[j].out_module == id || old(self).cables@[j].in_module == id),
            forall|j: int|
                0 <= j < old(self).cables@.len() && ((#[trigger] old(self).cables@[j]).out_module == id
                    || old(self).cables@[j].in_module == id) ==> removed@.contains(old(self).cables@[j].id),
            final(self).catalog == old(self).catalog,
            final(self).next_color() == old(self).next_color(),
            final(self).next_dmatex() == old(self).next_dmatex(),
    {
        let ghost all = self.cables@;
        let removed = detach_module(&mut self.cables, id);
        proof {
            lemma_detach_by_ends(all, id);
            lemma_detach_fields(all, id);
            lemma_modules_without_keeps_others(self.modules@, id);
            lemma_cables_detached_unique(all, id);
        }
        self.remove_module_entry(id);
        removed
    }

    /// Record cable `id`, just made in the engine, with the next palette
    /// colour; the colour index then moves on to the following slot.
    /// A recorded cable with the same id is replaced.
    pub fn create_cable(
        &mut self,
        id: CableId,
        out_mod: ModuleId,
        out_port: i32,
        in_mod: ModuleId,
        in_port: i32,
    ) -> (made: Cable)
        requires
            old(self).well_formed(),
        ensures
            final(self).well_formed(),
            made == (Cable {
                id,
                out_module: out_mod,
                out_port,
                in_module: in_mod,
                in_port,
                color_idx: old(self).next_color(),
            }),
            final(self).cables@ == cables_without(old(self).cables@, id).push(made),
            final(self).cables@ == old(self).cables@.filter(|c: Cable| c.id != id).push(made),
            final(self).next_color() == (old(self).next_color() + 1) % (CABLE_COLOR_COUNT as int),
            final(self).modules == old(self).modules,
            final(self).catalog == old(self).catalog,
            final(self).next_dmatex() == old(self).next_dmatex(),
    {
        let color_idx = self.next_cable_color_idx;
        self.next_cable_color_idx = (self.next_cable_color_idx + 1) % CABLE_COLOR_COUNT;
        let cable = Cable::new(id, out_mod, out_port, in_mod, in_port, color_idx);
        let ghost initial = self.cables@;
        self.destroy_cable(id);
        let ghost before = self.cables@;
        self.cables.push(cable);
        proof {
            lemma_cables_without_keeps_others(initial, id);
            lemma_cables_without_lacks(initial, id);
            assert forall|i: int, j: int| 0 <= i < j < self.cables@.len() implies (#[trigger] self.cables@[i]).id != (#[trigger] self.cables@[j]).id by {
                if j == before.len() {
                    assert(before[i].id != id);
                } else {
                    assert(self.cables@[i] == before[i] && self.cables@[j] == before[j]);
                }
            }
        }
        cable
    }

    /// Forget cable `id`. Returns the cable if it was recorded.
    pub fn destroy_cable(&mut self, id: CableId) -> (gone: Option<Cable>)
        requires
            old(self).well_formed(),
        ensures
            final(self).well_formed(),
            final(self).cables@ == cables_without(old(self).cables@, id),
            final(self).cables@ == old(self).cables@.filter(|c: Cable| c.id != id),
            forall|k: int|
                0 <= k < old(self).cables@.len() && (#[trigger] old(self).cables@[k]).id != id
                    ==> final(self).cables@.contains(old(self).cables@[k]),
            forall|k: int| 0 <= k < final(self).cables@.len() ==> (#[trigger] final(self).cables@[k]).id != id,
            forall|c: Cable| #[trigger] final(self).cables@.contains(c) ==> old(self).cables@.contains(c),
            match gone {
                Some(c) => c.id == id && old(self).cables@.contains(c),
                None => !has_cable(old(self).cables@, id),
            },
            final(self).modules == old(self).modules,
            final(self).catalog == old(self).catalog,
            final(self).next_color() == old(self).next_color(),
            final(self).next_dmatex() == old(self).next_dmatex(),
    {
        let ghost all = self.cables@;
        let mut kept: Vec<Cable> = Vec::new();
        let mut gone: Option<Cable> = None;
        let mut i: usize = 0;
        while i < self.cables.len()
            invariant
                i <= self.cables@.len(),
                all == self.cables@,
                kept@ == cables_without(all.subrange(0, i as int), id),
                match gone {
                    Some(c) => c.id == id && all.contains(c),
                    None => forall|k: int| 0 <= k < i ==> (#[trigger] all[k]).id != id,
                },
            decreases self.cables@.len() - i,
        {
            let c = self.cables[i];
            proof {
                assert(all.subrange(0, i + 1).drop_last() =~= all.subrange(0, i as int));
                assert(all.subrange(0, i + 1).last() == c);
            }
            if c.id == id {
                gone = Some(c);
            } else {
                kept.push(c);
            }
            i = i + 1;
        }
        proof {
            assert(all.subrange(0, all.len() as int) =~= all);
            lemma_cables_without_unique(all, id);
            lemma_cables_without_keeps_others(all, id);
        }
        self.cables = kept;
        gone
    }
}

/// Take out of `cables` every cable with an end on `module`; return their
/// ids in order.
pub fn detach_module(cables: &mut Vec<Cable>, module: ModuleId) -> (removed: Vec<CableId>)
    ensures
        final(cables)@ == cables_detached(old(cables)@, module),
        removed@ == cables_touching(old(cables)@, module),
        final(cables)@ == old(cables)@.filter(|c: Cable| c.out_module != module && c.in_module != module),
        removed@ == old(cables)@.filter(|c: Cable| c.out_module == module || c.in_module == module).map_values(
            |c: Cable| c.id,
        ),
        forall|k: int|
            0 <= k < final(cables)@.len() ==> (#[trigger] final(cables)@[k]).out_module != module
                && final(cables)@[k].in_module != module,
        forall|c: CableId|
            #[trigger] removed@.contains(c) ==> exists|j: int|
                0 <= j < old(cables)@.len() && old(cables)@[j].id == c && (old(cables)@[j].out_module
                    == module || old(cables)@[j].in_module == module),
        forall|j: int|
            0 <= j < old(cables)@.len() && ((#[trigger] old(cables)@[j]).out_module == module
                || old(cables)@[j].in_module == module) ==> removed@.contains(old(cables)@[j].id),
        forall|j: int|
            0 <= j < old(cables)@.len() && (#[trigger] old(cables)@[j]).out_module != module
                && old(cables)@[j].in_module != module ==> final(cables)@.contains(old(cables)@[j]),
{
    let ghost all = cables@;
    let mut kept: Vec<Cable> = Vec::new();
    let mut removed: Vec<CableId> = Vec::new();
    let mut i: usize = 0;
    while i < cables.len()
        invariant
            i <= cables@.len(),
            all == cables@,
            kept@ == cables_detached(all.subrange(0, i as int), module),
            removed@ == cables_touching(all.subrange(0, i as int), module),
        decreases cables@.len() - i,
    {
        let c = cables[i];
        proof {
            assert(all.subrange(0, i + 1).drop_last() =~= all.subrange(0, i as int));
            assert(all.subrange(0, i + 1).last() == c);
        }
        if c.is_connected_to(module) {
            removed.push(c.id);
        } else {
            kept.push(c);
        }
        i = i + 1;
    }
    assert(all.subrange(0, all.len() as int) =~= all);
    proof {
        lemma_detach_by_ends(all, module);
        lemma_detach_fields(all, module);
    }
    *cables = kept;
    removed
}

/// The elements of `v` in reverse order.
pub fn reverse_vec<T>(v: Vec<T>) -> (r: Vec<T>)
    ensures
        r@ == v@.reverse(),
{
    let mut rest = v;
    let ghost all = rest@;
    let mut r: Vec<T> = Vec::new();
    while rest.len() > 0
        invariant
            all == rest@ + r@.reverse(),
        decreases rest@.len(),
    {
        let ghost before_rest = rest@;
        let ghost before_r = r@;
        let x = rest.pop().unwrap();
        assert(before_rest == rest@.push(x));
        r.push(x);
        assert(r@ == before_r.push(x));
        assert(r@.reverse() =~= seq![x] + before_r.reverse());
        assert(rest@.push(x) + before_r.reverse() =~= rest@ + (seq![x] + before_r.reverse()));
    }
    assert(rest@ + r@.reverse() =~= r@.reverse());
    assert(r@.reverse().reverse() =~= r@);
    assert(all.reverse() =~= r@);
    r
}

/// No entry of module `id` is left once it is taken out.
pub proof fn lemma_modules_without_lacks<P>(s: Seq<(ModuleId, P)>, id: ModuleId)
    ensures
        forall|k: int| 0 <= k < modules_without(s, id).len() ==> (#[trigger] modules_without(s, id)[k]).0 != id,
    decreases s.len(),
{
    if s.len() > 0 {
        lemma_modules_without_lacks(s.drop_last(), id);
        let w = modules_without(s.drop_last(), id);
        if s.last().0 != id {
            let out = w.push(s.last());
            assert forall|k: int| 0 <= k < out.len() implies (#[trigger] out[k]).0 != id by {
                if k < w.len() {
                    assert(out[k] == w[k]);
                }
            }
        }
    }
}

proof fn lemma_modules_without_unique<P>(s: Seq<(ModuleId, P)>, id: ModuleId)
    requires
        unique_modules(s),
    ensures
        unique_modules(modules_without(s, id)),
        forall|k: int| 0 <= k < modules_without(s, id).len() ==> has_module(s, #[trigger] modules_without(s, id)[k].0),
    decreases s.len(),
{
    if s.len() > 0 {
        let rest = s.drop_last();
        assert(unique_modules(rest)) by {
            assert forall|i: int, j: int| 0 <= i < j < rest.len() implies (#[trigger] rest[i]).0 != (#[trigger] rest[j]).0 by {
                assert(rest[i] == s[i] && rest[j] == s[j]);
            }
        }
        lemma_modules_without_unique(rest, id);
        let w = modules_without(rest, id);
        assert forall|k: int| 0 <= k < w.len() implies has_module(s, #[trigger] w[k].0) by {
            let i = choose|i: int| 0 <= i < rest.len() && (#[trigger] rest[i]).0 == w[k].0;
            assert(s[i] == rest[i]);
        }
        if s.last().0 != id {
            let out = w.push(s.last());
            assert forall|i: int, j: int| 0 <= i < j < out.len() implies (#[trigger] out[i]).0 != (#[trigger] out[j]).0 by {
                if j == w.len() {
                    let m = choose|m: int| 0 <= m < rest.len() && (#[trigger] rest[m]).0 == w[i].0;
                    assert(s[m] == rest[m]);
                    assert(s[s.len() - 1] == s.last());
                }
            }
            assert forall|k: int| 0 <= k < out.len() implies has_module(s, #[trigger] out[k].0) by {
                if k == w.len() {
                    assert(s[s.len() - 1] == s.last());
                }
            }
        }
    }
}

/// No cable `id` is left once it is taken out.
pub proof fn lemma_cables_without_lacks(s: Seq<Cable>, id: CableId)
    ensures
        forall|k: int| 0 <= k < cables_without(s, id).len() ==> (#[trigger] cables_without(s, id)[k]).id != id,
    decreases s.len(),
{
    if s.len() > 0 {
        lemma_cables_without_lacks(s.drop_last(), id);
        let w = cables_without(s.drop_last(), id);
        if s.last().id != id {
            let out = w.push(s.last());
            assert forall|k: int| 0 <= k < out.len() implies (#[trigger] out[k]).id != id by {
                if k < w.len() {
                    assert(out[k] == w[k]);
                }
            }
        }
    }
}

proof fn lemma_cables_without_unique(s: Seq<Cable>, id: CableId)
    requires
        unique_cables(s),
    ensures
        unique_cables(cables_without(s, id)),
        forall|k: int| 0 <= k < cables_without(s, id).len() ==> s.contains(#[trigger] cables_without(s, id)[k]),
    decreases s.len(),
{
    if s.len() > 0 {
        let rest = s.drop_last();
        assert(unique_cables(rest)) by {
            assert forall|i: int, j: int| 0 <= i < j < rest.len() implies (#[trigger] rest[i]).id != (#[trigger] rest[j]).id by {
                assert(rest[i] == s[i] && rest[j] == s[j]);
            }
        }
        lemma_cables_without_unique(rest, id);
        let w = cables_without(rest, id);
        assert forall|k: int| 0 <= k < w.len() implies s.contains(#[trigger] w[k]) by {
            let i = choose|i: int| 0 <= i < rest.len() && rest[i] == w[k];
            assert(s[i] == rest[i]);
        }
        if s.last().id != id {
            let out = w.push(s.last());
            assert forall|i: int, j: int| 0 <= i < j < out.len() implies (#[trigger] out[i]).id != (#[trigger] out[j]).id by {
                if j == w.len() {
                    let m = choose|m: int| 0 <= m < rest.len() && rest[m] == w[i];
                    assert(s[m] == rest[m]);
                    assert(s[s.len() - 1] == s.last());
                }
            }
            assert forall|k: int| 0 <= k < out.len() implies s.contains(#[trigger] out[k]) by {
                if k == w.len() {
                    assert(s[s.len() - 1] == s.last());
                }
            }
        }
    }
}

proof fn lemma_cables_detached_unique(s: Seq<Cable>, module: ModuleId)
    requires
        unique_cables(s),
    ensures
        unique_cables(cables_detached(s, module)),
        forall|k: int| 0 <= k < cables_detached(s, module).len() ==> s.contains(#[trigger] cables_detached(s, module)[k]),
    decreases s.len(),
{
    if s.len() > 0 {
        let rest = s.drop_last();
        assert(unique_cables(rest)) by {
            assert forall|i: int, j: int| 0 <= i < j < rest.len() implies (#[trigger] rest[i]).id != (#[trigger] rest[j]).id by {
                assert(rest[i] == s[i] && rest[j] == s[j]);
            }
        }
        lemma_cables_detached_unique(rest, module);
        let w = cables_detached(rest, module);
        assert forall|k: int| 0 <= k < w.len() implies s.contains(#[trigger] w[k]) by {
            let i = choose|i: int| 0 <= i < rest.len() && rest[i] == w[k];
            assert(s[i] == rest[i]);
        }
        if !s.last().touches(module) {
            let out = w.push(s.last());
            assert forall|i: int, j: int| 0 <= i < j < out.len() implies (#[trigger] out[i]).id != (#[trigger] out[j]).id by {
                if j == w.len() {
                    let m = choose|m: int| 0 <= m < rest.len() && rest[m] == w[i];
                    assert(s[m] == rest[m]);
                    assert(s[s.len() - 1] == s.last());
                }
            }
            assert forall|k: int| 0 <= k < out.len() implies s.contains(#[trigger] out[k]) by {
                if k == w.len() {
                    assert(s[s.len() - 1] == s.last());
                }
            }
        }
    }
}

/// Removing a module's cables splits the patch in two: the cables kept have
/// no end on the module, every cable with an end on it is reported, every
/// other cable is kept, and nothing else is lost or added.
pub proof fn lemma_detach_partitions(s: Seq<Cable>, module: ModuleId)
    ensures
        forall|k: int|
            0 <= k < cables_detached(s, module).len() ==> !(#[trigger] cables_detached(s, module)[k]).touches(module),
        forall|k: int| 0 <= k < s.len() && (#[trigger] s[k]).touches(module) ==> cables_touching(s, module).contains(s[k].id),
        forall|k: int| 0 <= k < s.len() && !(#[trigger] s[k]).touches(module) ==> cables_detached(s, module).contains(s[k]),
        cables_detached(s, module).len() + cables_touching(s, module).len() == s.len(),
    decreases s.len(),
{
    if s.len() > 0 {
        let rest = s.drop_last();
        lemma_detach_partitions(rest, module);
        let d = cables_detached(rest, module);
        let t = cables_touching(rest, module);
        let last = s.last();
        assert forall|k: int| 0 <= k < s.len() && (#[trigger] s[k]).touches(module) implies cables_touching(s, module).contains(s[k].id) by {
            if k < rest.len() {
                assert(rest[k] == s[k]);
                let m = choose|m: int| 0 <= m < t.len() && t[m] == s[k].id;
                if last.touches(module) {
                    assert(t.push(last.id)[m] == s[k].id);
                }
            } else {
                assert(t.push(last.id)[t.len() as int] == last.id);
            }
        }
        assert forall|k: int| 0 <= k < s.len() && !(#[trigger] s[k]).touches(module) implies cables_detached(s, module).contains(s[k]) by {
            if k < rest.len() {
                assert(rest[k] == s[k]);
                let m = choose|m: int| 0 <= m < d.len() && d[m] == s[k];
                if !last.touches(module) {
                    assert(d.push(last)[m] == s[k]);
                }
            } else {
                assert(d.push(last)[d.len() as int] == last);
            }
        }
        if !last.touches(module) {
            assert forall|k: int| 0 <= k < d.push(last).len() implies !(#[trigger] d.push(last)[k]).touches(module) by {
                if k < d.len() {
                    assert(d.push(last)[k] == d[k]);
                }
            }
        }
    }
}

/// Forgetting cable `id` keeps exactly the other cables, in their order.
pub proof fn lemma_cables_without_keeps_others(s: Seq<Cable>, id: CableId)
    ensures
        cables_without(s, id) == s.filter(|c: Cable| c.id != id),
        forall|k: int| 0 <= k < s.len() && (#[trigger] s[k]).id != id ==> cables_without(s, id).contains(s[k]),
        forall|k: int| 0 <= k < cables_without(s, id).len() ==> (#[trigger] cables_without(s, id)[k]).id != id,
        forall|c: Cable| #[trigger] cables_without(s, id).contains(c) ==> s.contains(c),
    decreases s.len(),
{
    reveal(Seq::filter);
    if s.len() > 0 {
        lemma_cables_without_keeps_others(s.drop_last(), id);
    }
    let f = s.filter(|c: Cable| c.id != id);
    assert forall|k: int| 0 <= k < s.len() && (#[trigger] s[k]).id != id implies f.contains(s[k]) by {
        s.lemma_filter_contains(|c: Cable| c.id != id, k);
    }
    assert forall|k: int| 0 <= k < f.len() implies (#[trigger] f[k]).id != id by {
        s.lemma_filter_pred(|c: Cable| c.id != id, k);
    }
    assert forall|c: Cable| #[trigger] f.contains(c) implies s.contains(c) by {
        s.lemma_filter_contains_rev(|c: Cable| c.id != id, c);

    }
}

/// Removing module `id` keeps exactly the entries of other modules, in order.
pub proof fn lemma_modules_without_keeps_others<P>(s: Seq<(ModuleId, P)>, id: ModuleId)
    ensures
        modules_without(s, id) == s.filter(|e: (ModuleId, P)| e.0 != id),
    decreases s.len(),
{
    reveal(Seq::filter);
    if s.len() > 0 {
        lemma_modules_without_keeps_others(s.drop_last(), id);
    }
}

/// Detaching a module keeps exactly the cables with neither end on it and
/// reports the ids of exactly those with an end on it, both in order.
pub proof fn lemma_detach_by_ends(s: Seq<Cable>, module: ModuleId)
    ensures
        cables_detached(s, module) == s.filter(|c: Cable| c.out_module != module && c.in_module != module),
        cables_touching(s, module) == s.filter(|c: Cable| c.out_module == module || c.in_module == module).map_values(
            |c: Cable| c.id,
        ),
    decreases s.len(),
{
    reveal(Seq::filter);
    if s.len() > 0 {
        lemma_detach_by_ends(s.drop_last(), module);
        let t = s.drop_last().filter(|c: Cable| c.out_module == module || c.in_module == module);
        assert(t.push(s.last()).map_values(|c: Cable| c.id) =~= t.map_values(|c: Cable| c.id).push(s.last().id));
    }
}

proof fn lemma_touching_witness(s: Seq<Cable>, module: ModuleId, k: int)
    requires
        0 <= k < cables_touching(s, module).len(),
    ensures
        exists|j: int|
            0 <= j < s.len() && s[j].id == cables_touching(s, module)[k] && (s[j].out_module == module
                || s[j].in_module == module),
{
    lemma_detach_by_ends(s, module);
    let pt = |c: Cable| c.out_module == module || c.in_module == module;
    let t = s.filter(pt);
    assert(cables_touching(s, module) == t.map_values(|c: Cable| c.id));
    assert(t.contains(t[k]));
    s.lemma_filter_contains_rev(pt, t[k]);
    s.lemma_filter_pred(pt, k);
    let j = choose|j: int| 0 <= j < s.len() && s[j] == t[k];
    assert(s[j].id == cables_touching(s, module)[k]);
}

/// Every cable left after detaching has neither end on the module, every
/// reported id is that of a cable with an end on it, and every cable of the
/// patch is either left or reported.
pub proof fn lemma_detach_fields(s: Seq<Cable>, module: ModuleId)
    ensures
        forall|k: int|
            0 <= k < cables_detached(s, module).len() ==> (#[trigger] cables_detached(s, module)[k]).out_module != module
                && cables_detached(s, module)[k].in_module != module,
        forall|id: CableId|
            #[trigger] cables_touching(s, module).contains(id) ==> exists|j: int|
                0 <= j < s.len() && s[j].id == id && (s[j].out_module == module || s[j].in_module == module),
        forall|j: int|
            0 <= j < s.len() && ((#[trigger] s[j]).out_module == module || s[j].in_module == module)
                ==> cables_touching(s, module).contains(s[j].id),
        forall|j: int|
            0 <= j < s.len() && (#[trigger] s[j]).out_module != module && s[j].in_module != module
                ==> cables_detached(s, module).contains(s[j]),
{
    lemma_detach_by_ends(s, module);
    let pd = |c: Cable| c.out_module != module && c.in_module != module;
    let pt = |c: Cable| c.out_module == module || c.in_module == module;
    let d = s.filter(pd);
    let t = s.filter(pt);
    assert forall|k: int| 0 <= k < d.len() implies (#[trigger] d[k]).out_module != module && d[k].in_module != module by {
        s.lemma_filter_pred(pd, k);
    }
    assert forall|id: CableId| #[trigger] cables_touching(s, module).contains(id) implies exists|j: int|
        0 <= j < s.len() && s[j].id == id && (s[j].out_module == module || s[j].in_module == module) by {
        let k = choose|k: int| 0 <= k < cables_touching(s, module).len() && cables_touching(s, module)[k] == id;
        lemma_touching_witness(s, module, k);
    }
    assert forall|j: int|
        0 <= j < s.len() && ((#[trigger] s[j]).out_module == module || s[j].in_module == module) implies t.map_values(
        |c: Cable| c.id,
    ).contains(s[j].id) by {
        s.lemma_filter_contains(pt, j);
        let k = choose|k: int| 0 <= k < t.len() && t[k] == s[j];
        assert(t.map_values(|c: Cable| c.id)[k] == s[j].id);
    }
    assert forall|j: int|
        0 <= j < s.len() && (#[trigger] s[j]).out_module != module && s[j].in_module != module implies d.contains(s[j]) by {
        s.lemma_filter_contains(pd, j);
    }
}

} // verus!
