//! Staging mutations on the world: labels, removal marks, and the discard
//! of everything staged.

use vstd::prelude::*;
use crate::entity::DeviceEntity;
use crate::flags::{EntityFlags, ManagerFlags};
use crate::world::{DiskManager, DiskComponents, DeviceComponents, VgComponents, QueuedChanges};

verus! {

broadcast use vstd::set::group_set_axioms, vstd::seq_lib::group_filter_ensures, Seq::lemma_filter_push;

/// Keeping every entity but the one with the given identifier.
pub open spec fn not_id(id: u64) -> spec_fn(DeviceEntity) -> bool {
    |d: DeviceEntity| d.id != id
}

/// The set of values a sequence holds.
pub open spec fn seq_set(s: Seq<u64>) -> Set<u64> {
    Set::new(|x: u64| s.contains(x))
}

/// The children relation of a world, as plain identifiers.
pub open spec fn children_ids(w: DiskManager) -> Map<u64, Seq<u64>> {
    Map::new(
        |k: u64| w.components.devices.children@.contains_key(k),
        |k: u64| w.components.devices.children@[k]@.map_values(|d: DeviceEntity| d.id),
    )
}

/// One step of the children relation: everything in `m`, and every child
/// of a member of `m`.
pub open spec fn marked_step(ch: Map<u64, Seq<u64>>, m: Set<u64>) -> Set<u64> {
    m.union(
        Set::new(
            |c: u64|
                exists|p: u64| m.contains(p) && ch.contains_key(p) && (#[trigger] ch[p]).contains(
                    c,
                ),
        ),
    )
}

/// `n` steps of the children relation from `m`.
pub open spec fn marked_n(ch: Map<u64, Seq<u64>>, m: Set<u64>, n: nat) -> Set<u64>
    decreases n,
{
    if n == 0 {
        m
    } else {
        marked_step(ch, marked_n(ch, m, (n - 1) as nat))
    }
}

/// The entity and its transitive children: as many steps as there are
/// entities, so every chain of the relation is saturated.
pub open spec fn spec_descendants(w: DiskManager, e: DeviceEntity) -> Set<u64> {
    marked_n(children_ids(w), Set::empty().insert(e.id), w.entities.devices.keys_seq().len())
}

impl DiskManager {
    /// Sets the label of a partition: the change is staged, and the label
    /// system is scheduled.
    pub fn label(&mut self, entity: DeviceEntity, label: String)
        requires
            old(self).wf(),
            old(self).dev_alive(entity.id),
        ensures
            final(self).wf(),
            final(self).components.queued_changes.labels@ == old(
                self,
            ).components.queued_changes.labels@.insert(entity.id, label),
            final(self).components.queued_changes.devices == old(
                self,
            ).components.queued_changes.devices,
            final(self).components.queued_changes.partitions == old(
                self,
            ).components.queued_changes.partitions,
            final(self).components.queued_changes.parents == old(
                self,
            ).components.queued_changes.parents,
            final(self).components.queued_changes.formats == old(
                self,
            ).components.queued_changes.formats,
            final(self).components.queued_changes.tables == old(
                self,
            ).components.queued_changes.tables,
            final(self).components.devices == old(self).components.devices,
            final(self).components.vgs == old(self).components.vgs,
            final(self).entities == old(self).entities,
            final(self).flags == (ManagerFlags { label: true, ..old(self).flags }),
    {
        self.components.queued_changes.labels.insert(entity.id, label);
        self.flags = ManagerFlags { label: true, ..self.flags };
    }

    /// Marks the entity for removal, along with all of its children, and
    /// their children in turn.
    pub fn remove(&mut self, entity: DeviceEntity)
        requires
            old(self).wf(),
            old(self).dev_alive(entity.id),
        ensures
            final(self).wf(),
            final(self).components == old(self).components,
            final(self).entities.next_device == old(self).entities.next_device,
            final(self).entities.next_vg == old(self).entities.next_vg,
            final(self).entities.vgs == old(self).entities.vgs,
            final(self).entities.devices.keys_seq() == old(self).entities.devices.keys_seq(),
            forall|k: u64|
                final(self).dev_alive(k) <==> old(self).dev_alive(k),
            forall|k: u64|
                old(self).dev_alive(k) ==> final(self).dev_flags(k) == (EntityFlags {
                    remove: old(self).dev_flags(k).remove || spec_descendants(
                        *old(self),
                        entity,
                    ).contains(k),
                    ..old(self).dev_flags(k)
                }),
            final(self).flags == (ManagerFlags { remove: true, ..old(self).flags }),
            spec_descendants(*old(self), entity).contains(entity.id),
    {
        let ghost w0 = *self;
        let ghost ch = children_ids(w0);
        let rounds = self.entities.devices.len();

        // The closure of the children relation from `entity`, one step a
        // round; the list never holds an identifier twice.
        let mut marked: Vec<u64> = Vec::new();
        marked.push(entity.id);
        proof {
            assert(marked@.len() == 1 && marked@[0] == entity.id);
            assert forall|x: u64| seq_set(marked@).contains(x) implies Set::empty().insert(
                entity.id,
            ).contains(x) by {
                let w = choose|w: int| 0 <= w < marked@.len() && marked@[w] == x;
            }
            assert(marked@.contains(entity.id));
            assert(seq_set(marked@) =~= marked_n(ch, Set::empty().insert(entity.id), 0));
        }
        let mut round: usize = 0;
        while round < rounds
            invariant
                *self == w0,
                w0.wf(),
                w0.dev_alive(entity.id),
                rounds == w0.entities.devices.keys_seq().len(),
                round <= rounds,
                seq_set(marked@) == marked_n(ch, Set::empty().insert(entity.id), round as nat),
                ch == children_ids(w0),
                forall|a: int, b: int|
                    0 <= a < b < marked@.len() ==> marked@[a] != marked@[b],
                forall|j: int| 0 <= j < marked@.len() ==> w0.dev_alive(#[trigger] marked@[j]),
            decreases rounds - round,
        {
            let ghost m_r = seq_set(marked@);
            let len_r = marked.len();
            proof {
                assert(marked@.subrange(0, len_r as int) =~= marked@);
            }
            let mut i: usize = 0;
            while i < len_r
                invariant
                    *self == w0,
                    w0.wf(),
                    ch == children_ids(w0),
                    len_r <= marked@.len(),
                    i <= len_r,
                    m_r == seq_set(marked@.subrange(0, len_r as int)),
                    forall|a: int, b: int|
                        0 <= a < b < marked@.len() ==> marked@[a] != marked@[b],
                    forall|j: int| 0 <= j < marked@.len() ==> w0.dev_alive(#[trigger] marked@[j]),
                    // what is in the list: the round set plus children seen so far
                    forall|x: u64|
                        seq_set(marked@).contains(x) ==> m_r.contains(x) || exists|j: int|
                            #![trigger marked@.subrange(0, len_r as int)[j]]
                            0 <= j < i && {
                                let p = marked@.subrange(0, len_r as int)[j];
                                &&& ch.contains_key(p)
                                &&& ch[p].contains(x)
                            },
                    // everything owed so far is in the list
                    forall|j: int, x: u64|
                        0 <= j < i && ch.contains_key(marked@.subrange(0, len_r as int)[j])
                            && #[trigger] ch[marked@.subrange(0, len_r as int)[j]].contains(x)
                            ==> seq_set(marked@).contains(x),
                decreases len_r - i,
            {
                let p = marked[i];
                proof {
                    assert(marked@.subrange(0, len_r as int)[i as int] == p);
                    assert(m_r.contains(p)) by {
                        assert(seq_set(marked@.subrange(0, len_r as int)).contains(p));
                    }
                }
                if let Some(list) = self.components.devices.children.get(p) {
                    let nl = list.len();
                    let mut j: usize = 0;
                    while j < nl
                        invariant
                            *self == w0,
                            w0.wf(),
                            ch == children_ids(w0),
                            w0.components.devices.children@.contains_key(p),
                            *list == w0.components.devices.children@[p],
                            nl == list@.len(),
                            j <= nl,
                            len_r <= marked@.len(),
                            i < len_r,
                            m_r == seq_set(marked@.subrange(0, len_r as int)),
                            marked@.subrange(0, len_r as int)[i as int] == p,
                            forall|a: int, b: int|
                                0 <= a < b < marked@.len() ==> marked@[a] != marked@[b],
                            forall|jj: int|
                                0 <= jj < marked@.len() ==> w0.dev_alive(#[trigger] marked@[jj]),
                            forall|x: u64|
                                seq_set(marked@).contains(x) ==> m_r.contains(x) || (exists|
                                    jj: int,
                                |
                                    #![trigger marked@.subrange(0, len_r as int)[jj]]
                                    0 <= jj < i && {
                                        let q = marked@.subrange(0, len_r as int)[jj];
                                        &&& ch.contains_key(q)
                                        &&& ch[q].contains(x)
                                    }) || (ch.contains_key(p) && ch[p].contains(x)),
                            forall|jj: int, x: u64|
                                0 <= jj < i && ch.contains_key(
                                    marked@.subrange(0, len_r as int)[jj],
                                ) && #[trigger] ch[marked@.subrange(0, len_r as int)[jj]].contains(
                                    x,
                                ) ==> seq_set(marked@).contains(x),
                            forall|jj: int|
                                0 <= jj < j ==> seq_set(marked@).contains(
                                    #[trigger] ch[p][jj],
                                ),
                        decreases nl - j,
                    {
                        let c = list[j];
                        proof {
                            assert(ch[p][j as int] == c.id);
                            assert(w0.dev_alive(c.id));
                        }
                        let ghost mb = marked@;
                        if !crate::common::vec_contains_u64(&marked, c.id) {
                            marked.push(c.id);
                            proof {
                                assert(marked@.subrange(0, len_r as int) =~= mb.subrange(
                                    0,
                                    len_r as int,
                                ));
                                assert(marked@[marked@.len() - 1] == c.id);
                                lemma_seq_set_push(mb, c.id);
                            }
                        }
                        proof {
                            assert(seq_set(marked@).contains(c.id));
                        }
                        j = j + 1;
                    }
                    proof {
                        assert forall|x: u64|
                            ch.contains_key(p) && ch[p].contains(x) implies seq_set(marked@)
                            .contains(x) by {
                            let jj = choose|jj: int| 0 <= jj < ch[p].len() && ch[p][jj] == x;
                        }
                    }
                }
                i = i + 1;
            }
            proof {
                let next = marked_step(ch, m_r);
                assert forall|x: u64| seq_set(marked@).contains(x) implies next.contains(x) by {}
                assert forall|x: u64| next.contains(x) implies seq_set(marked@).contains(x) by {
                    if m_r.contains(x) {
                        let idx = choose|idx: int|
                            0 <= idx < len_r && marked@.subrange(0, len_r as int)[idx] == x;
                        assert(marked@[idx] == x);
                    } else {
                        let p = choose|p: u64|
                            m_r.contains(p) && ch.contains_key(p) && (#[trigger] ch[p]).contains(
                                x,
                            );
                        let idx = choose|idx: int|
                            0 <= idx < len_r && marked@.subrange(0, len_r as int)[idx] == p;
                    }
                }
                assert(seq_set(marked@) =~= next);
            }
            round = round + 1;
        }

        // Mark everything collected.
        let ghost closure = spec_descendants(w0, entity);
        proof {
            assert(closure == seq_set(marked@));
        }
        let n = marked.len();
        let mut i: usize = 0;
        while i < n
            invariant
                n == marked@.len(),
                i <= n,
                w0.wf(),
                forall|a: int, b: int|
                    0 <= a < b < marked@.len() ==> marked@[a] != marked@[b],
                forall|j: int| 0 <= j < marked@.len() ==> w0.dev_alive(#[trigger] marked@[j]),
                closure == seq_set(marked@),
                self.components == w0.components,
                self.entities.next_device == w0.entities.next_device,
                self.entities.next_vg == w0.entities.next_vg,
                self.entities.vgs == w0.entities.vgs,
                self.entities.devices.keys_seq() == w0.entities.devices.keys_seq(),
                self.entities.devices.wf(),
                self.flags == w0.flags,
                forall|k: u64| self.dev_alive(k) <==> w0.dev_alive(k),
                forall|k: u64|
                    w0.dev_alive(k) ==> self.dev_flags(k) == (EntityFlags {
                        remove: w0.dev_flags(k).remove || seq_set(marked@.subrange(0, i as int))
                            .contains(k),
                        ..w0.dev_flags(k)
                    }),
            decreases n - i,
        {
            let k = marked[i];
            let flags = *self.entities.devices.get(k).unwrap();
            self.entities.devices.insert(k, EntityFlags { remove: true, ..flags });
            proof {
                assert(marked@.subrange(0, i as int + 1) =~= marked@.subrange(0, i as int).push(
                    k,
                ));
                lemma_seq_set_push(marked@.subrange(0, i as int), k);
                assert(seq_set(marked@.subrange(0, i as int + 1)) =~= seq_set(marked@.subrange(0, i as int)).insert(k));
                assert(seq_set(marked@.subrange(0, i as int)).contains(k) == false) by {
                    if seq_set(marked@.subrange(0, i as int)).contains(k) {
                        let a = choose|a: int|
                            0 <= a < i && marked@.subrange(0, i as int)[a] == k;
                        assert(marked@[a] == marked@[i as int]);
                    }
                }
            }
            i = i + 1;
        }
        proof {
            assert(marked@.subrange(0, n as int) =~= marked@);
        }
        self.flags = ManagerFlags { remove: true, ..self.flags };
        proof {
            assert(closure.contains(entity.id)) by {
                lemma_marked_n_grows(children_ids(w0), Set::empty().insert(entity.id), w0.entities.devices.keys_seq().len());
            }
            assert forall|k: u64|
                self.dev_alive(k) && #[trigger] self.dev_flags(k).create implies w0.dev_alive(k)
                && w0.dev_flags(k).create by {
                assert(w0.dev_alive(k));
                assert(self.dev_flags(k).create == w0.dev_flags(k).create);
            }
            assert(self.wf());
        }
    }
}

impl DiskManager {
    /// Collects the entity and all of its transitive children, each once.
    pub fn descendants_list(&self, entity: DeviceEntity) -> (r: Vec<u64>)
        requires
            self.wf(),
            self.dev_alive(entity.id),
        ensures
            seq_set(r@) == spec_descendants(*self, entity),
            forall|a: int, b: int| 0 <= a < b < r@.len() ==> r@[a] != r@[b],
            forall|j: int| 0 <= j < r@.len() ==> self.dev_alive(#[trigger] r@[j]),
            r@.contains(entity.id),
    {
        let ghost w0 = *self;
        let ghost ch = children_ids(w0);
        let rounds = self.entities.devices.len();
        let mut marked: Vec<u64> = Vec::new();
        marked.push(entity.id);
        proof {
            assert(marked@.len() == 1 && marked@[0] == entity.id);
            assert forall|x: u64| seq_set(marked@).contains(x) implies Set::empty().insert(
                entity.id,
            ).contains(x) by {
                let w = choose|w: int| 0 <= w < marked@.len() && marked@[w] == x;
            }
            assert(marked@.contains(entity.id));
            assert(seq_set(marked@) =~= marked_n(ch, Set::empty().insert(entity.id), 0));
        }
        let mut round: usize = 0;
        while round < rounds
            invariant
                *self == w0,
                w0.wf(),
                w0.dev_alive(entity.id),
                rounds == w0.entities.devices.keys_seq().len(),
                round <= rounds,
                seq_set(marked@) == marked_n(ch, Set::empty().insert(entity.id), round as nat),
                ch == children_ids(w0),
                marked@.contains(entity.id),
                forall|a: int, b: int|
                    0 <= a < b < marked@.len() ==> marked@[a] != marked@[b],
                forall|j: int| 0 <= j < marked@.len() ==> w0.dev_alive(#[trigger] marked@[j]),
            decreases rounds - round,
        {
            let ghost m_r = seq_set(marked@);
            let len_r = marked.len();
            proof {
                assert(marked@.subrange(0, len_r as int) =~= marked@);
            }
            let mut i: usize = 0;
            while i < len_r
                invariant
                    *self == w0,
                    w0.wf(),
                    ch == children_ids(w0),
                    len_r <= marked@.len(),
                    i <= len_r,
                    m_r == seq_set(marked@.subrange(0, len_r as int)),
                    marked@.contains(entity.id),
                    forall|a: int, b: int|
                        0 <= a < b < marked@.len() ==> marked@[a] != marked@[b],
                    forall|j: int| 0 <= j < marked@.len() ==> w0.dev_alive(#[trigger] marked@[j]),
                    forall|x: u64|
                        seq_set(marked@).contains(x) ==> m_r.contains(x) || exists|j: int|
                            #![trigger marked@.subrange(0, len_r as int)[j]]
                            0 <= j < i && {
                                let p = marked@.subrange(0, len_r as int)[j];
                                &&& ch.contains_key(p)
                                &&& ch[p].contains(x)
                            },
                    forall|j: int, x: u64|
                        0 <= j < i && ch.contains_key(marked@.subrange(0, len_r as int)[j])
                            && #[trigger] ch[marked@.subrange(0, len_r as int)[j]].contains(x)
                            ==> seq_set(marked@).contains(x),
                decreases len_r - i,
            {
                let p = marked[i];
                proof {
                    assert(marked@.subrange(0, len_r as int)[i as int] == p);
                    assert(m_r.contains(p)) by {
                        assert(seq_set(marked@.subrange(0, len_r as int)).contains(p));
                    }
                }
                if let Some(list) = self.components.devices.children.get(p) {
                    let nl = list.len();
                    let mut j: usize = 0;
                    while j < nl
                        invariant
                            *self == w0,
                            w0.wf(),
                            ch == children_ids(w0),
                            w0.components.devices.children@.contains_key(p),
                            *list == w0.components.devices.children@[p],
                            nl == list@.len(),
                            j <= nl,
                            len_r <= marked@.len(),
                            i < len_r,
                            m_r == seq_set(marked@.subrange(0, len_r as int)),
                            marked@.subrange(0, len_r as int)[i as int] == p,
                            marked@.contains(entity.id),
                            forall|a: int, b: int|
                                0 <= a < b < marked@.len() ==> marked@[a] != marked@[b],
                            forall|jj: int|
                                0 <= jj < marked@.len() ==> w0.dev_alive(#[trigger] marked@[jj]),
                            forall|x: u64|
                                seq_set(marked@).contains(x) ==> m_r.contains(x) || (exists|
                                    jj: int,
                                |
                                    #![trigger marked@.subrange(0, len_r as int)[jj]]
                                    0 <= jj < i && {
                                        let q = marked@.subrange(0, len_r as int)[jj];
                                        &&& ch.contains_key(q)
                                        &&& ch[q].contains(x)
                                    }) || (ch.contains_key(p) && ch[p].contains(x)),
                            forall|jj: int, x: u64|
                                0 <= jj < i && ch.contains_key(
                                    marked@.subrange(0, len_r as int)[jj],
                                ) && #[trigger] ch[marked@.subrange(0, len_r as int)[jj]].contains(
                                    x,
                                ) ==> seq_set(marked@).contains(x),
                            forall|jj: int|
                                0 <= jj < j ==> seq_set(marked@).contains(#[trigger] ch[p][jj]),
                        decreases nl - j,
                    {
                        let c = list[j];
                        proof {
                            assert(ch[p][j as int] == c.id);
                            assert(w0.dev_alive(c.id));
                        }
                        let ghost mb = marked@;
                        if !crate::common::vec_contains_u64(&marked, c.id) {
                            marked.push(c.id);
                            proof {
                                assert(marked@.subrange(0, len_r as int) =~= mb.subrange(
                                    0,
                                    len_r as int,
                                ));
                                assert(marked@[marked@.len() - 1] == c.id);
                                lemma_seq_set_push(mb, c.id);
                                let w = choose|w: int| 0 <= w < mb.len() && mb[w] == entity.id;
                                assert(marked@[w] == entity.id);
                            }
                        }
                        proof {
                            assert(seq_set(marked@).contains(c.id));
                        }
                        j = j + 1;
                    }
                    proof {
                        assert forall|x: u64|
                            ch.contains_key(p) && ch[p].contains(x) implies seq_set(
                            marked@,
                        ).contains(x) by {
                            let jj = choose|jj: int| 0 <= jj < ch[p].len() && ch[p][jj] == x;
                        }
                    }
                }
                i = i + 1;
            }
            proof {
                let next = marked_step(ch, m_r);
                assert forall|x: u64| seq_set(marked@).contains(x) implies next.contains(x) by {}
                assert forall|x: u64| next.contains(x) implies seq_set(marked@).contains(x) by {
                    if m_r.contains(x) {
                        let idx = choose|idx: int|
                            0 <= idx < len_r && marked@.subrange(0, len_r as int)[idx] == x;
                        assert(marked@[idx] == x);
                    } else {
                        let p = choose|p: u64|
                            m_r.contains(p) && ch.contains_key(p) && (#[trigger] ch[p]).contains(
                                x,
                            );
                        let idx = choose|idx: int|
                            0 <= idx < len_r && marked@.subrange(0, len_r as int)[idx] == p;
                    }
                }
                assert(seq_set(marked@) =~= next);
            }
            round = round + 1;
        }
        marked
    }

    /// Unsets any operations that have been queued: every staged change is
    /// dropped, every entity that existed only as a staged creation is
    /// removed from the registry, and every staging mark is cleared — an
    /// entity keeps only what it is (its table support, its standing as a
    /// container's plaintext child). Afterwards no entity carries the
    /// creation mark and every queued-change map is empty.
    pub fn unset(&mut self)
        requires
            old(self).wf(),
        ensures
            final(self).wf(),
            crate::laws::unset_shape(*old(self), *final(self)),
            final(self).components.queued_changes.is_empty(),
            final(self).flags == ManagerFlags::spec_empty(),
            final(self).components.devices == old(self).components.devices,
            final(self).components.vgs == old(self).components.vgs,
            final(self).entities.next_device == old(self).entities.next_device,
            final(self).entities.next_vg == old(self).entities.next_vg,
            forall|k: u64|
                final(self).dev_alive(k) <==> old(self).dev_alive(k)
                    && !old(self).dev_staged_only(k),
            forall|k: u64|
                #[trigger] final(self).dev_alive(k) ==> final(self).dev_flags(k) == old(
                    self,
                ).dev_flags(k).spec_cleared(),
            forall|k: u64|
                final(self).vg_alive(k) <==> old(self).vg_alive(k)
                    && !old(self).vg_staged_only(k),
            forall|k: u64|
                #[trigger] final(self).vg_alive(k) ==> final(self).entities.vgs@[k]
                    == EntityFlags::spec_empty(),
    {
        let ghost w0 = *self;
        self.components.queued_changes.clear();

        let keys = self.entities.devices.keys_vec();
        let mut fresh: crate::store::Store<EntityFlags> = crate::store::Store::new();
        let n = keys.len();
        let mut i: usize = 0;
        while i < n
            invariant
                w0.wf(),
                n == keys@.len(),
                i <= n,
                keys@ == w0.entities.devices.keys_seq(),
                self.entities == w0.entities,
                self.components.devices == w0.components.devices,
                self.components.vgs == w0.components.vgs,
                self.components.queued_changes.is_empty(),
                self.components.queued_changes.wf(),
                fresh.wf(),
                forall|k: u64|
                    #[trigger] fresh@.contains_key(k) <==> keys@.subrange(0, i as int).contains(
                        k,
                    ) && !w0.dev_staged_only(k),
                forall|k: u64|
                    #[trigger] fresh@.contains_key(k) ==> fresh@[k] == w0.dev_flags(
                        k,
                    ).spec_cleared(),
                forall|k: u64| #[trigger] fresh@.contains_key(k) ==> k < w0.entities.next_device,
            decreases n - i,
        {
            let k = keys[i];
            proof {
                assert(w0.entities.devices.keys_seq().contains(k));
                assert(w0.dev_alive(k));
            }
            let ghost fb = fresh@;
            let flags = *self.entities.devices.get(k).unwrap();
            let staged = flags.create && !self.components.devices.devices.contains_key(k);
            proof {
                assert(staged == w0.dev_staged_only(k));
            }
            if !staged {
                fresh.insert(k, flags.cleared());
            }
            proof {
                assert forall|k2: u64| fresh@.contains_key(k2) implies keys@.subrange(
                    0,
                    i as int + 1,
                ).contains(k2) && !w0.dev_staged_only(k2) by {
                    if k2 != k {
                        assert(fb.contains_key(k2));
                        assert(keys@.subrange(0, i as int).contains(k2));
                        let w = choose|w: int|
                            0 <= w < i && #[trigger] keys@.subrange(0, i as int)[w] == k2;
                        assert(keys@.subrange(0, i as int + 1)[w] == k2);
                    } else {
                        assert(keys@.subrange(0, i as int + 1)[i as int] == k);
                    }
                }
                assert forall|k2: u64|
                    keys@.subrange(0, i as int + 1).contains(k2) && !w0.dev_staged_only(
                        k2,
                    ) implies fresh@.contains_key(k2) by {
                    let w = choose|w: int|
                        0 <= w < i + 1 && #[trigger] keys@.subrange(0, i as int + 1)[w] == k2;
                    if w < i {
                        assert(keys@.subrange(0, i as int)[w] == k2);
                        assert(fb.contains_key(k2));
                    }
                }
            }
            i = i + 1;
        }
        proof {
            assert(keys@.subrange(0, n as int) =~= keys@);
        }
        self.entities.devices = fresh;

        let vg_keys = self.entities.vgs.keys_vec();
        let mut vg_fresh: crate::store::Store<EntityFlags> = crate::store::Store::new();
        let vn = vg_keys.len();
        let mut j: usize = 0;
        while j < vn
            invariant
                w0.wf(),
                vn == vg_keys@.len(),
                j <= vn,
                vg_keys@ == w0.entities.vgs.keys_seq(),
                self.entities.vgs == w0.entities.vgs,
                self.components.devices == w0.components.devices,
                self.components.vgs == w0.components.vgs,
                self.components.queued_changes.is_empty(),
                self.components.queued_changes.wf(),
                vg_fresh.wf(),
                forall|k: u64|
                    #[trigger] vg_fresh@.contains_key(k) <==> vg_keys@.subrange(
                        0,
                        j as int,
                    ).contains(k) && !w0.vg_staged_only(k),
                forall|k: u64|
                    #[trigger] vg_fresh@.contains_key(k) ==> vg_fresh@[k]
                        == EntityFlags::spec_empty(),
                forall|k: u64| #[trigger] vg_fresh@.contains_key(k) ==> k < w0.entities.next_vg,
            decreases vn - j,
        {
            let k = vg_keys[j];
            proof {
                assert(w0.entities.vgs.keys_seq().contains(k));
                assert(w0.vg_alive(k));
            }
            let ghost fb = vg_fresh@;
            let flags = *self.entities.vgs.get(k).unwrap();
            let staged = flags.create && !self.components.vgs.volume_groups.contains_key(k);
            proof {
                assert(staged == w0.vg_staged_only(k));
            }
            if !staged {
                vg_fresh.insert(k, EntityFlags::empty());
            }
            proof {
                assert forall|k2: u64| vg_fresh@.contains_key(k2) implies vg_keys@.subrange(
                    0,
                    j as int + 1,
                ).contains(k2) && !w0.vg_staged_only(k2) by {
                    if k2 != k {
                        assert(fb.contains_key(k2));
                        assert(vg_keys@.subrange(0, j as int).contains(k2));
                        let w = choose|w: int|
                            0 <= w < j && #[trigger] vg_keys@.subrange(0, j as int)[w] == k2;
                        assert(vg_keys@.subrange(0, j as int + 1)[w] == k2);
                    } else {
                        assert(vg_keys@.subrange(0, j as int + 1)[j as int] == k);
                    }
                }
                assert forall|k2: u64|
                    vg_keys@.subrange(0, j as int + 1).contains(k2) && !w0.vg_staged_only(
                        k2,
                    ) implies vg_fresh@.contains_key(k2) by {
                    let w = choose|w: int|
                        0 <= w < j + 1 && #[trigger] vg_keys@.subrange(0, j as int + 1)[w] == k2;
                    if w < j {
                        assert(vg_keys@.subrange(0, j as int)[w] == k2);
                        assert(fb.contains_key(k2));
                    }
                }
            }
            j = j + 1;
        }
        proof {
            assert(vg_keys@.subrange(0, vn as int) =~= vg_keys@);
        }
        self.entities.vgs = vg_fresh;
        self.flags = ManagerFlags::empty();

        proof {
            let c = self.components.devices;
            assert forall|k: u64|
                #[trigger] w0.dev_alive(k) && !w0.dev_staged_only(k) implies self.dev_alive(
                k,
            ) by {}
            assert(c.devices@ == w0.components.devices.devices@);
            assert forall|k: u64| #[trigger] c.devices@.contains_key(k) implies self.dev_alive(
                k,
            ) by {
                assert(!w0.dev_staged_only(k));
            }
            assert forall|k: u64| #[trigger] c.children@.contains_key(k) implies self.dev_alive(
                k,
            ) by {
                assert(w0.dev_alive(k));
                assert(!w0.dev_staged_only(k));
            }
            assert forall|k: u64| #[trigger] c.disks@.contains_key(k) implies self.dev_alive(
                k,
            ) by {
                assert(!w0.dev_staged_only(k));
            }
            assert forall|k: u64|
                #[trigger] c.device_maps@.contains_key(k) implies self.dev_alive(k) by {
                assert(!w0.dev_staged_only(k));
            }
            assert forall|k: u64| #[trigger] c.loopbacks@.contains_key(k) implies self.dev_alive(
                k,
            ) by {
                assert(!w0.dev_staged_only(k));
            }
            assert forall|k: u64| #[trigger] c.luks@.contains_key(k) implies self.dev_alive(
                k,
            ) by {
                assert(!w0.dev_staged_only(k));
            }
            assert forall|k: u64| #[trigger] c.lvs@.contains_key(k) implies self.dev_alive(
                k,
            ) by {
                assert(!w0.dev_staged_only(k));
            }
            assert forall|k: u64| #[trigger] c.partitions@.contains_key(k) implies self.dev_alive(
                k,
            ) by {
                assert(!w0.dev_staged_only(k));
            }
            assert forall|k: u64| #[trigger] c.pvs@.contains_key(k) implies self.dev_alive(
                k,
            ) by {
                assert(!w0.dev_staged_only(k));
            }
            assert forall|k: u64| #[trigger] c.tables@.contains_key(k) implies self.dev_alive(
                k,
            ) by {
                assert(!w0.dev_staged_only(k));
            }
            assert forall|k: u64|
                #[trigger] self.components.vgs.children@.contains_key(k) implies self.vg_alive(
                k,
            ) by {
                assert(w0.vg_alive(k));
                assert(!w0.vg_staged_only(k));
            }
            assert forall|k: u64|
                #[trigger] self.components.vgs.volume_groups@.contains_key(k) implies self
                .vg_alive(k) by {
                assert(!w0.vg_staged_only(k));
            }
            assert forall|k: u64, i2: int|
                c.children@.contains_key(k) && 0 <= i2 < c.children@[k]@.len() implies self
                .dev_alive((#[trigger] c.children@[k]@[i2]).id) by {
                let cid = c.children@[k]@[i2].id;
                assert(w0.dev_alive(cid));
                assert(!w0.dev_staged_only(cid));
            }
            assert forall|k: u64, i2: int|
                self.components.vgs.children@.contains_key(k) && 0 <= i2
                    < self.components.vgs.children@[k]@.len() implies self.dev_alive(
                (#[trigger] self.components.vgs.children@[k]@[i2]).id) by {
                let cid = self.components.vgs.children@[k]@[i2].id;
                assert(w0.dev_alive(cid));
                assert(!w0.dev_staged_only(cid));
            }
            assert forall|k: u64|
                #[trigger] c.lvs@.contains_key(k) implies self.vg_alive(c.lvs@[k].1.id) by {
                assert(w0.vg_alive(c.lvs@[k].1.id));
                assert(!w0.vg_staged_only(c.lvs@[k].1.id));
            }
            assert forall|k: u64|
                c.pvs@.contains_key(k) && (#[trigger] c.pvs@[k]).1 is Some implies self.vg_alive(
                c.pvs@[k].1->Some_0.id) by {
                assert(w0.vg_alive(c.pvs@[k].1->Some_0.id));
                assert(!w0.vg_staged_only(c.pvs@[k].1->Some_0.id));
            }
            assert(self.wf());
        }
    }

    /// Clears all remembered LUKS encryption passphrases; the LUKS
    /// components themselves stay.
    pub fn forget_encryption_keys(&mut self)
        requires
            old(self).wf(),
        ensures
            final(self).wf(),
            forall|k: u64|
                final(self).components.devices.luks@.contains_key(k) <==> old(
                    self,
                ).components.devices.luks@.contains_key(k),
            forall|k: u64|
                #[trigger] final(self).components.devices.luks@.contains_key(k)
                    ==> final(self).components.devices.luks@[k] is None,
            final(self).components.devices.children == old(self).components.devices.children,
            final(self).components.devices.devices == old(self).components.devices.devices,
            final(self).components.devices.disks == old(self).components.devices.disks,
            final(self).components.devices.device_maps == old(
                self,
            ).components.devices.device_maps,
            final(self).components.devices.loopbacks == old(self).components.devices.loopbacks,
            final(self).components.devices.lvs == old(self).components.devices.lvs,
            final(self).components.devices.partitions == old(self).components.devices.partitions,
            final(self).components.devices.pvs == old(self).components.devices.pvs,
            final(self).components.devices.tables == old(self).components.devices.tables,
            final(self).components.vgs == old(self).components.vgs,
            final(self).components.queued_changes == old(self).components.queued_changes,
            final(self).entities == old(self).entities,
            final(self).flags == old(self).flags,
    {
        let ghost w0 = *self;
        let keys = self.components.devices.luks.keys_vec();
        proof {
            self.components.devices.luks.lemma_keys_distinct();
        }
        let n = keys.len();
        let mut i: usize = 0;
        while i < n
            invariant
                w0.wf(),
                n == keys@.len(),
                i <= n,
                keys@ == w0.components.devices.luks.keys_seq(),
                forall|a: int, b: int| 0 <= a < b < keys@.len() ==> keys@[a] != keys@[b],
                self.entities == w0.entities,
                self.flags == w0.flags,
                self.components.vgs == w0.components.vgs,
                self.components.queued_changes == w0.components.queued_changes,
                self.components.devices.children == w0.components.devices.children,
                self.components.devices.devices == w0.components.devices.devices,
                self.components.devices.disks == w0.components.devices.disks,
                self.components.devices.device_maps == w0.components.devices.device_maps,
                self.components.devices.loopbacks == w0.components.devices.loopbacks,
                self.components.devices.lvs == w0.components.devices.lvs,
                self.components.devices.partitions == w0.components.devices.partitions,
                self.components.devices.pvs == w0.components.devices.pvs,
                self.components.devices.tables == w0.components.devices.tables,
                self.components.devices.luks.wf(),
                forall|k: u64|
                    self.components.devices.luks@.contains_key(k)
                        <==> w0.components.devices.luks@.contains_key(k),
                forall|j: int|
                    0 <= j < i ==> self.components.devices.luks@[#[trigger] keys@[j]] is None,
            decreases n - i,
        {
            let k = keys[i];
            proof {
                assert(w0.components.devices.luks.keys_seq().contains(k));
            }
            self.components.devices.luks.insert(k, None);
            proof {
                assert forall|j2: int|
                    0 <= j2 < i + 1 implies self.components.devices.luks@[
                    #[trigger] keys@[j2]] is None by {
                    if j2 < i {
                        assert(keys@[j2] != keys@[i as int]);
                    }
                }
            }
            i = i + 1;
        }
        proof {
            assert forall|k: u64|
                #[trigger] self.components.devices.luks@.contains_key(k) implies self
                .components.devices.luks@[k] is None by {
                assert(w0.components.devices.luks@.contains_key(k));
                assert(w0.components.devices.luks@.dom().contains(k));
                assert(w0.components.devices.luks.keys_seq().contains(k));
                let j = choose|j: int| 0 <= j < keys@.len() && #[trigger] keys@[j] == k;
            }
            assert forall|k: u64|
                #[trigger] self.components.devices.luks@.contains_key(k) implies self.dev_alive(
                k,
            ) && (self.dev_flags(k).create
                ==> self.components.devices.devices@.contains_key(k)) by {
                assert(w0.components.devices.luks@.contains_key(k));
            }
            assert(self.wf());
        }
    }
}

/// `list` without any occurrence of the identifier `id`.
pub fn filter_entity(list: &Vec<DeviceEntity>, id: u64) -> (r: Vec<DeviceEntity>)
    ensures
        r@ == list@.filter(not_id(id)),
{
    let n = list.len();
    let mut out: Vec<DeviceEntity> = Vec::new();
    proof {
        reveal(Seq::filter);
    }
    let mut i: usize = 0;
    while i < n
        invariant
            n == list@.len(),
            i <= n,
            out@ == list@.subrange(0, i as int).filter(not_id(id)),
        decreases n - i,
    {
        proof {
            assert(list@.subrange(0, i as int + 1) =~= list@.subrange(0, i as int).push(
                list@[i as int],
            ));
        }
        let d = list[i];
        if d.id != id {
            out.push(d);
        }
        i = i + 1;
    }
    proof {
        assert(list@.subrange(0, n as int) =~= list@);
    }
    out
}

impl DiskManager {
    /// Removes one entity outright: it leaves the registry, every
    /// component store forgets it, every children list drops it, and
    /// staged links that pointed at it are dropped with it.
    pub fn purge_entity(&mut self, id: u64)
        requires
            old(self).wf(),
        ensures
            final(self).wf(),
            !final(self).dev_alive(id),
            forall|k: u64| #[trigger] final(self).dev_alive(k) <==> old(self).dev_alive(k) && k != id,
            forall|k: u64|
                final(self).dev_alive(k) ==> final(self).dev_flags(k) == old(self).dev_flags(k),
            final(self).entities.vgs == old(self).entities.vgs,
            final(self).entities.next_device == old(self).entities.next_device,
            final(self).entities.next_vg == old(self).entities.next_vg,
            final(self).flags == old(self).flags,
            final(self).components.devices.devices@ == old(self).components.devices.devices@.remove(id),
            final(self).components.devices.partitions@ == old(self).components.devices.partitions@.remove(id),
            final(self).components.devices.tables@ == old(self).components.devices.tables@.remove(id),
            final(self).components.devices.disks@ == old(self).components.devices.disks@.remove(id),
            final(self).components.devices.luks@ == old(self).components.devices.luks@.remove(id),
            final(self).components.devices.device_maps@ == old(self).components.devices.device_maps@.remove(id),
            final(self).components.devices.loopbacks@ == old(self).components.devices.loopbacks@.remove(id),
            final(self).components.devices.lvs@ == old(self).components.devices.lvs@.remove(id),
            final(self).components.devices.pvs@ == old(self).components.devices.pvs@.remove(id),
            final(self).components.devices.children@.dom() == old(self).components.devices.children@.dom().remove(id),
            forall|k: u64|
                #[trigger] final(self).components.devices.children@.contains_key(k)
                    ==> final(self).components.devices.children@[k]@
                    == old(self).components.devices.children@[k]@.filter(not_id(id)),
            final(self).components.vgs.volume_groups == old(self).components.vgs.volume_groups,
    {
        let ghost w0 = *self;
        self.entities.devices.remove(id);
        let c = &mut self.components.devices;
        c.devices.remove(id);
        c.disks.remove(id);
        c.device_maps.remove(id);
        c.loopbacks.remove(id);
        c.luks.remove(id);
        c.lvs.remove(id);
        c.partitions.remove(id);
        c.pvs.remove(id);
        c.tables.remove(id);
        c.children.remove(id);
        let q = &mut self.components.queued_changes;
        q.devices.remove(id);
        q.device_maps.remove(id);
        q.formats.remove(id);
        q.labels.remove(id);
        q.luks.remove(id);
        q.lvs.remove(id);
        q.parents.remove(id);
        q.partitions.remove(id);
        q.pv_parents.remove(id);
        q.pvs.remove(id);
        q.vg_parents.remove(id);
        q.resize.remove(id);
        q.tables.remove(id);

        // Staged links whose target is the purged entity go with it.
        let pkeys = self.components.queued_changes.parents.keys_vec();
        let ghost wp = *self;
        let pn = pkeys.len();
        let mut i: usize = 0;
        while i < pn
            invariant
                pn == pkeys@.len(),
                i <= pn,
                pkeys@ == wp.components.queued_changes.parents.keys_seq(),
                *self == (DiskManager {
                    components: DiskComponents {
                        queued_changes: QueuedChanges {
                            parents: self.components.queued_changes.parents,
                            ..wp.components.queued_changes
                        },
                        ..wp.components
                    },
                    ..wp
                }),
                self.components.queued_changes.parents.wf(),
                forall|k: u64|
                    #[trigger] self.components.queued_changes.parents@.contains_key(k) ==> wp
                        .components.queued_changes.parents@.contains_key(k)
                        && self.components.queued_changes.parents@[k]
                        == wp.components.queued_changes.parents@[k],
                forall|j: int|
                    0 <= j < i ==> !(
                    #[trigger] self.components.queued_changes.parents@.contains_key(pkeys@[j])
                        && self.components.queued_changes.parents@[pkeys@[j]].id == id),
            decreases pn - i,
        {
            let k = pkeys[i];
            let drop_it = match self.components.queued_changes.parents.get(k) {
                Some(p) => p.id == id,
                None => false,
            };
            if drop_it {
                self.components.queued_changes.parents.remove(k);
            }
            i = i + 1;
        }

        let lkeys = self.components.queued_changes.luks.keys_vec();
        let ghost wl = *self;
        let ln = lkeys.len();
        let mut i: usize = 0;
        while i < ln
            invariant
                ln == lkeys@.len(),
                i <= ln,
                lkeys@ == wl.components.queued_changes.luks.keys_seq(),
                *self == (DiskManager {
                    components: DiskComponents {
                        queued_changes: QueuedChanges {
                            luks: self.components.queued_changes.luks,
                            ..wl.components.queued_changes
                        },
                        ..wl.components
                    },
                    ..wl
                }),
                self.components.queued_changes.luks.wf(),
                forall|k: u64|
                    #[trigger] self.components.queued_changes.luks@.contains_key(k) ==> wl
                        .components.queued_changes.luks@.contains_key(k)
                        && self.components.queued_changes.luks@[k]
                        == wl.components.queued_changes.luks@[k],
                forall|j: int|
                    0 <= j < i ==> !(
                    #[trigger] self.components.queued_changes.luks@.contains_key(lkeys@[j])
                        && self.components.queued_changes.luks@[lkeys@[j]].0.id == id),
            decreases ln - i,
        {
            let k = lkeys[i];
            let drop_it = match self.components.queued_changes.luks.get(k) {
                Some(v) => v.0.id == id,
                None => false,
            };
            if drop_it {
                self.components.queued_changes.luks.remove(k);
            }
            i = i + 1;
        }

        // Children lists of the other devices drop the purged identifier.
        let keys = self.components.devices.children.keys_vec();
        proof {
            self.components.devices.children.lemma_keys_distinct();
        }
        let ghost w_mid = *self;
        let n = keys.len();
        let mut i: usize = 0;
        while i < n
            invariant
                n == keys@.len(),
                i <= n,
                keys@ == w_mid.components.devices.children.keys_seq(),
                forall|a: int, b: int| 0 <= a < b < n ==> keys@[a] != keys@[b],
                *self == (DiskManager {
                    components: DiskComponents {
                        devices: DeviceComponents {
                            children: self.components.devices.children,
                            ..w_mid.components.devices
                        },
                        ..w_mid.components
                    },
                    ..w_mid
                }),
                self.components.devices.children.wf(),
                self.components.devices.children@.dom()
                    == w_mid.components.devices.children@.dom(),
                forall|j: int|
                    0 <= j < i ==> self.components.devices.children@[#[trigger] keys@[j]]@
                        == w_mid.components.devices.children@[keys@[j]]@.filter(not_id(id)),
                forall|k: u64|
                    #[trigger] self.components.devices.children@.contains_key(k) && !keys@.subrange(
                        0,
                        i as int,
                    ).contains(k) ==> self.components.devices.children@[k]
                        == w_mid.components.devices.children@[k],
            decreases n - i,
        {
            let k = keys[i];
            proof {
                assert(w_mid.components.devices.children.keys_seq().contains(k));
                assert(!keys@.subrange(0, i as int).contains(k)) by {
                    if keys@.subrange(0, i as int).contains(k) {
                        let a = choose|a: int|
                            0 <= a < i && keys@.subrange(0, i as int)[a] == k;
                        assert(keys@[a] == keys@[i as int]);
                    }
                }
            }
            let filtered = filter_entity(self.components.devices.children.get(k).unwrap(), id);
            self.components.devices.children.insert(k, filtered);
            proof {
                assert forall|k2: u64|
                    #[trigger] self.components.devices.children@.contains_key(k2)
                        && !keys@.subrange(0, i as int + 1).contains(k2) implies self
                    .components.devices.children@[k2] == w_mid.components.devices.children@[k2] by {
                    assert(!keys@.subrange(0, i as int).contains(k2)) by {
                        if keys@.subrange(0, i as int).contains(k2) {
                            let a = choose|a: int|
                                0 <= a < i && keys@.subrange(0, i as int)[a] == k2;
                            assert(keys@.subrange(0, i as int + 1)[a] == k2);
                        }
                    }
                    assert(k2 != k) by {
                        assert(keys@.subrange(0, i as int + 1)[i as int] == k);
                    }
                }
            }
            i = i + 1;
        }
        proof {
            assert(keys@.subrange(0, n as int) =~= keys@);
        }

        // Children lists of the volume groups drop it too.
        let vkeys = self.components.vgs.children.keys_vec();
        proof {
            self.components.vgs.children.lemma_keys_distinct();
        }
        let ghost w_v = *self;
        let vn = vkeys.len();
        let mut i: usize = 0;
        while i < vn
            invariant
                vn == vkeys@.len(),
                i <= vn,
                vkeys@ == w_v.components.vgs.children.keys_seq(),
                forall|a: int, b: int| 0 <= a < b < vn ==> vkeys@[a] != vkeys@[b],
                *self == (DiskManager {
                    components: DiskComponents {
                        vgs: VgComponents {
                            children: self.components.vgs.children,
                            ..w_v.components.vgs
                        },
                        ..w_v.components
                    },
                    ..w_v
                }),
                self.components.vgs.children.wf(),
                self.components.vgs.children@.dom() == w_v.components.vgs.children@.dom(),
                forall|j: int|
                    0 <= j < i ==> self.components.vgs.children@[#[trigger] vkeys@[j]]@
                        == w_v.components.vgs.children@[vkeys@[j]]@.filter(not_id(id)),
                forall|k: u64|
                    #[trigger] self.components.vgs.children@.contains_key(k) && !vkeys@.subrange(
                        0,
                        i as int,
                    ).contains(k) ==> self.components.vgs.children@[k]
                        == w_v.components.vgs.children@[k],
            decreases vn - i,
        {
            let k = vkeys[i];
            proof {
                assert(w_v.components.vgs.children.keys_seq().contains(k));
                assert(!vkeys@.subrange(0, i as int).contains(k)) by {
                    if vkeys@.subrange(0, i as int).contains(k) {
                        let a = choose|a: int|
                            0 <= a < i && vkeys@.subrange(0, i as int)[a] == k;
                        assert(vkeys@[a] == vkeys@[i as int]);
                    }
                }
            }
            let filtered = filter_entity(self.components.vgs.children.get(k).unwrap(), id);
            self.components.vgs.children.insert(k, filtered);
            proof {
                assert forall|k2: u64|
                    #[trigger] self.components.vgs.children@.contains_key(k2) && !vkeys@.subrange(
                        0,
                        i as int + 1,
                    ).contains(k2) implies self.components.vgs.children@[k2]
                    == w_v.components.vgs.children@[k2] by {
                    assert(!vkeys@.subrange(0, i as int).contains(k2)) by {
                        if vkeys@.subrange(0, i as int).contains(k2) {
                            let a = choose|a: int|
                                0 <= a < i && vkeys@.subrange(0, i as int)[a] == k2;
                            assert(vkeys@.subrange(0, i as int + 1)[a] == k2);
                        }
                    }
                    assert(k2 != k) by {
                        assert(vkeys@.subrange(0, i as int + 1)[i as int] == k);
                    }
                }
            }
            i = i + 1;
        }
        proof {
            broadcast use vstd::seq_lib::group_filter_ensures;

            assert(vkeys@.subrange(0, vn as int) =~= vkeys@);
            assert forall|k: u64|
                #[trigger] self.components.devices.children@.contains_key(k) implies self
                .components.devices.children@[k]@ == w0.components.devices.children@[k]@.filter(not_id(id)) && w0.components.devices.children@.contains_key(k) by {
                assert(w_mid.components.devices.children.keys_seq().contains(k));
                let j = choose|j: int| 0 <= j < n && #[trigger] keys@[j] == k;
            }
            assert forall|k: u64|
                #[trigger] self.components.vgs.children@.contains_key(k) implies self
                .components.vgs.children@[k]@ == w0.components.vgs.children@[k]@.filter(not_id(id)) && w0.components.vgs.children@.contains_key(k) by {
                assert(w_v.components.vgs.children.keys_seq().contains(k));
                let j = choose|j: int| 0 <= j < vn && #[trigger] vkeys@[j] == k;
            }
            assert forall|k: u64, j: int|
                self.components.devices.children@.contains_key(k) && 0 <= j
                    < self.components.devices.children@[k]@.len() implies {
                let d = #[trigger] self.components.devices.children@[k]@[j];
                &&& d.id != id
                &&& w0.components.devices.children@[k]@.contains(d)
            } by {
                let fl = w0.components.devices.children@[k]@.filter(not_id(id));
                w0.components.devices.children@[k]@.filter_lemma(not_id(id));
                assert(fl.contains(fl[j]));
                w0.components.devices.children@[k]@.lemma_filter_contains_rev(
                    not_id(id),
                    fl[j],
                );
            }
            assert forall|k: u64, j: int|
                self.components.vgs.children@.contains_key(k) && 0 <= j
                    < self.components.vgs.children@[k]@.len() implies {
                let d = #[trigger] self.components.vgs.children@[k]@[j];
                &&& d.id != id
                &&& w0.components.vgs.children@[k]@.contains(d)
            } by {
                let fl = w0.components.vgs.children@[k]@.filter(not_id(id));
                w0.components.vgs.children@[k]@.filter_lemma(not_id(id));
                assert(fl.contains(fl[j]));
                w0.components.vgs.children@[k]@.lemma_filter_contains_rev(not_id(id), fl[j]);
            }
            assert forall|k: u64, j: int|
                self.components.devices.children@.contains_key(k) && 0 <= j
                    < self.components.devices.children@[k]@.len() implies self.dev_alive(
                (#[trigger] self.components.devices.children@[k]@[j]).id) && (self.dev_flags(
                self.components.devices.children@[k]@[j].id).create
                ==> self.components.devices.devices@.contains_key(
                self.components.devices.children@[k]@[j].id)) by {
                let d = self.components.devices.children@[k]@[j];
                let ol = w0.components.devices.children@[k]@;
                let w = choose|w: int| 0 <= w < ol.len() && ol[w] == d;
                assert(w0.dev_alive(d.id));
            }
            assert forall|k: u64, j: int|
                self.components.vgs.children@.contains_key(k) && 0 <= j
                    < self.components.vgs.children@[k]@.len() implies self.dev_alive(
                (#[trigger] self.components.vgs.children@[k]@[j]).id) && (self.dev_flags(
                self.components.vgs.children@[k]@[j].id).create
                ==> self.components.devices.devices@.contains_key(
                self.components.vgs.children@[k]@[j].id)) by {
                let d = self.components.vgs.children@[k]@[j];
                let ol = w0.components.vgs.children@[k]@;
                let w = choose|w: int| 0 <= w < ol.len() && ol[w] == d;
                assert(w0.dev_alive(d.id));
            }
            assert(self.wf());
        }
    }
}

/// Pushing onto a sequence inserts into the set it holds.
pub proof fn lemma_seq_set_push(s: Seq<u64>, x: u64)
    ensures
        seq_set(s.push(x)) == seq_set(s).insert(x),
{
    assert forall|y: u64| seq_set(s.push(x)).contains(y) implies seq_set(s).insert(x).contains(
        y,
    ) by {
        let i = choose|i: int| 0 <= i < s.push(x).len() && s.push(x)[i] == y;
        if i < s.len() {
            assert(s[i] == y);
        }
    }
    assert forall|y: u64| seq_set(s).insert(x).contains(y) implies seq_set(s.push(x)).contains(
        y,
    ) by {
        if y == x {
            assert(s.push(x)[s.len() as int] == y);
        } else {
            let i = choose|i: int| 0 <= i < s.len() && s[i] == y;
            assert(s.push(x)[i] == y);
        }
    }
    assert(seq_set(s.push(x)) =~= seq_set(s).insert(x));
}

/// The starting set stays inside every round of the closure.
pub proof fn lemma_marked_n_grows(ch: Map<u64, Seq<u64>>, m: Set<u64>, n: nat)
    ensures
        m.subset_of(marked_n(ch, m, n)),
    decreases n,
{
    if n > 0 {
        lemma_marked_n_grows(ch, m, (n - 1) as nat);
    }
}

} // verus!
