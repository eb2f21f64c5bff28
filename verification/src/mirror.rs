//! The control thread's own copy of the session: chain order, parameter
//! values and master volume, kept consistent with the audio thread's
//! chain solely by recording the same commands in the same order.
//!
//! Every mutation takes the outcome of the command send: the channel is
//! driven by the host glue, which first offers the command to the command
//! channel and then records it here with `sent` saying whether the
//! channel took it. A command the channel refused is lost, so the mirror
//! must not change either; every `record` function leaves the mirror
//! untouched when `sent` is false.

use vstd::prelude::*;

use crate::chain::{
    distinct_ids, first_index_of, has_id, last_index_of, lemma_distinct_push,
    lemma_distinct_remove, lemma_distinct_swap, lemma_first_index_of, lemma_last_index_of,
};
use crate::command::PluginId;
use crate::ident::fresh_id;
use crate::processor::UNITY_VOLUME_BITS;

verus! {

/// One parameter as the control surface shows it: its display name and
/// its current value (single-precision bits).
pub struct MirrorParam {
    pub name: String,
    pub value_bits: u32,
}

/// The mirror's copy of one loaded plugin: the id it shares with the
/// engine's chain entry, the plugin's display name, and its parameters.
pub struct MirrorEntry {
    pub id: PluginId,
    pub name: String,
    pub params: Vec<MirrorParam>,
}

/// The ids of the mirrored entries, in mirrored chain order.
pub open spec fn mirror_ids(entries: Seq<MirrorEntry>) -> Seq<PluginId> {
    Seq::new(entries.len(), |i: int| entries[i].id)
}

/// The control-side session mirror: entry order and parameter values for
/// rendering, plus the UI-facing volume.
pub struct Mirror {
    pub entries: Vec<MirrorEntry>,
    pub volume_bits: u32,
}

impl Mirror {
    /// The ids of the mirrored entries, in order.
    pub open spec fn ids(self) -> Seq<PluginId> {
        mirror_ids(self.entries@)
    }

    /// The mirror invariant: ids are pairwise distinct, as in the chain.
    pub open spec fn wf(self) -> bool {
        distinct_ids(self.ids())
    }

    /// An empty session: no entries, unity volume.
    pub fn new() -> (r: Mirror)
        ensures
            r.entries@.len() == 0,
            r.volume_bits == UNITY_VOLUME_BITS,
            r.wf(),
    {
        Mirror { entries: Vec::new(), volume_bits: UNITY_VOLUME_BITS }
    }

    /// Whether the mirror already holds an entry under `id`.
    pub fn contains_id(&self, id: PluginId) -> (r: bool)
        ensures
            r == has_id(self.ids(), id),
    {
        let mut i: usize = 0;
        while i < self.entries.len()
            invariant
                i <= self.entries@.len(),
                forall|k: int| 0 <= k < i ==> self.entries@[k].id != id,
            decreases self.entries@.len() - i,
        {
            if self.entries[i].id == id {
                assert(self.ids()[i as int] == id);
                return true;
            }
            i += 1;
        }
        assert(forall|k: int|
            0 <= k < self.ids().len() ==> self.ids()[k] == self.entries@[k].id && self.ids()[k]
                != id);
        false
    }

    /// The accept-or-refuse decision on a drawn id: exactly the ids the
    /// mirror does not hold are accepted, so that a load under an
    /// accepted id keeps ids distinct on both sides.
    pub fn accept_load_id(&self, id: PluginId) -> (r: Option<PluginId>)
        ensures
            r == (if has_id(self.ids(), id) {
                Option::<PluginId>::None
            } else {
                Option::Some(id)
            }),
    {
        if self.contains_id(id) {
            Option::None
        } else {
            Option::Some(id)
        }
    }

    /// Draw an id for the next load: a fresh UUID value, put through
    /// [`Mirror::accept_load_id`]. Nothing is promised of the draw
    /// itself, so a refusal is possible whenever the mirror holds ids;
    /// an empty mirror holds none, and is always answered.
    pub fn allocate_load_id(&self) -> (r: Option<PluginId>)
        ensures
            r matches Option::Some(id) ==> !has_id(self.ids(), id),
            self.entries@.len() == 0 ==> r is Some,
    {
        self.accept_load_id(fresh_id())
    }

    /// Record a load: when the command was sent and the id is new, append
    /// the entry the control surface built; otherwise change nothing. The
    /// answer says whether the entry was appended.
    pub fn record_load(&mut self, sent: bool, id: PluginId, name: String, params: Vec<MirrorParam>)
        -> (added: bool)
        ensures
            added == (sent && !has_id(old(self).ids(), id)),
            added ==> final(self).entries@ == old(self).entries@.push(
                (MirrorEntry { id, name, params }),
            ),
            !added ==> *final(self) == *old(self),
            final(self).volume_bits == old(self).volume_bits,
            old(self).wf() ==> final(self).wf(),
    {
        if !sent {
            return false;
        }
        if self.contains_id(id) {
            return false;
        }
        let ghost pre = *old(self);
        self.entries.push(MirrorEntry { id, name, params });
        proof {
            assert(self.ids() =~= pre.ids().push(id));
            if pre.wf() {
                lemma_distinct_push(pre.ids(), id);
            }
        }
        true
    }

    /// Record a delete: when sent, remove the last entry matching `id`
    /// (as the engine does); a miss or an unsent command changes nothing.
    pub fn record_delete(&mut self, sent: bool, id: PluginId)
        ensures
            ({
                let j = last_index_of(old(self).ids(), id);
                if sent && j >= 0 {
                    final(self).entries@ == old(self).entries@.remove(j)
                } else {
                    *final(self) == *old(self)
                }
            }),
            final(self).volume_bits == old(self).volume_bits,
            old(self).wf() ==> final(self).wf(),
    {
        let ghost pre = *old(self);
        proof {
            lemma_last_index_of(pre.ids(), id);
        }
        if !sent {
            return ;
        }
        match rposition_of_entry(&self.entries, id) {
            Option::Some(j) => {
                self.entries.remove(j);
                proof {
                    if pre.wf() {
                        assert(self.ids() =~= pre.ids().remove(j as int));
                        lemma_distinct_remove(pre.ids(), j as int);
                    }
                }
            },
            Option::None => {},
        }
    }

    /// Record a move up: when sent and the first entry matching `id` has
    /// a predecessor, swap the two; a boundary, a miss or an unsent
    /// command changes nothing.
    pub fn record_move_up(&mut self, sent: bool, id: PluginId)
        ensures
            ({
                let j = first_index_of(old(self).ids(), id);
                if sent && j > 0 {
                    final(self).entries@ == old(self).entries@.update(
                        j - 1,
                        old(self).entries@[j],
                    ).update(j, old(self).entries@[j - 1])
                } else {
                    *final(self) == *old(self)
                }
            }),
            final(self).volume_bits == old(self).volume_bits,
            old(self).wf() ==> final(self).wf(),
    {
        let ghost pre = *old(self);
        proof {
            lemma_first_index_of(pre.ids(), id);
        }
        if !sent {
            return ;
        }
        match position_of_entry(&self.entries, id) {
            Option::Some(j) => {
                if j > 0 {
                    let entry = self.entries.remove(j);
                    self.entries.insert(j - 1, entry);
                    proof {
                        assert(self.entries@ =~= pre.entries@.update(
                            j - 1,
                            pre.entries@[j as int],
                        ).update(j as int, pre.entries@[j - 1]));
                        if pre.wf() {
                            assert(self.ids() =~= pre.ids().update(
                                j - 1,
                                pre.ids()[j as int],
                            ).update(j as int, pre.ids()[j - 1]));
                            lemma_distinct_swap(pre.ids(), j - 1, j as int);
                        }
                    }
                }
            },
            Option::None => {},
        }
    }

    /// Record a move down: when sent and the last entry matching `id` has
    /// a successor, swap the two; a boundary, a miss or an unsent command
    /// changes nothing.
    pub fn record_move_down(&mut self, sent: bool, id: PluginId)
        ensures
            ({
                let j = last_index_of(old(self).ids(), id);
                if sent && j >= 0 && j + 1 < old(self).entries@.len() {
                    final(self).entries@ == old(self).entries@.update(
                        j,
                        old(self).entries@[j + 1],
                    ).update(j + 1, old(self).entries@[j])
                } else {
                    *final(self) == *old(self)
                }
            }),
            final(self).volume_bits == old(self).volume_bits,
            old(self).wf() ==> final(self).wf(),
    {
        let ghost pre = *old(self);
        proof {
            lemma_last_index_of(pre.ids(), id);
        }
        if !sent {
            return ;
        }
        match rposition_of_entry(&self.entries, id) {
            Option::Some(j) => {
                let n = self.entries.len();
                if j < n - 1 {
                    let entry = self.entries.remove(j);
                    self.entries.insert(j + 1, entry);
                    proof {
                        assert(self.entries@ =~= pre.entries@.update(
                            j as int,
                            pre.entries@[j + 1],
                        ).update(j + 1, pre.entries@[j as int]));
                        if pre.wf() {
                            assert(self.ids() =~= pre.ids().update(
                                j as int,
                                pre.ids()[j + 1],
                            ).update(j + 1, pre.ids()[j as int]));
                            lemma_distinct_swap(pre.ids(), j as int, j + 1);
                        }
                    }
                }
            },
            Option::None => {},
        }
    }

    /// Record a parameter change: when sent, set the value bits of the
    /// named parameter on the first entry matching `id`, leaving name,
    /// order and every other entry alone. The answer says whether a value
    /// was set; a miss, an out-of-range index or an unsent command
    /// changes nothing.
    pub fn record_param(&mut self, sent: bool, id: PluginId, param_index: usize, value_bits: u32)
        -> (changed: bool)
        ensures
            ({
                let j = first_index_of(old(self).ids(), id);
                &&& changed == (sent && j >= 0 && param_index < old(
                    self,
                ).entries@[j].params@.len())
                &&& changed ==> {
                    &&& final(self).entries@.len() == old(self).entries@.len()
                    &&& final(self).entries@[j].id == old(self).entries@[j].id
                    &&& final(self).entries@[j].name == old(self).entries@[j].name
                    &&& final(self).entries@[j].params@ == old(self).entries@[j].params@.update(
                        param_index as int,
                        (MirrorParam {
                            name: old(self).entries@[j].params@[param_index as int].name,
                            value_bits,
                        }),
                    )
                    &&& forall|k: int|
                        0 <= k < old(self).entries@.len() && k != j ==> final(self).entries@[k]
                            == old(self).entries@[k]
                }
                &&& !changed ==> final(self).entries@ == old(self).entries@
            }),
            final(self).volume_bits == old(self).volume_bits,
            final(self).ids() == old(self).ids(),
            old(self).wf() ==> final(self).wf(),
    {
        let ghost pre = *old(self);
        proof {
            lemma_first_index_of(pre.ids(), id);
        }
        if !sent {
            return false;
        }
        match position_of_entry(&self.entries, id) {
            Option::Some(j) => {
                let entry = &mut self.entries[j];
                if param_index < entry.params.len() {
                    let param = &mut entry.params[param_index];
                    param.value_bits = value_bits;
                    proof {
                        assert(self.ids() =~= pre.ids());
                    }
                    true
                } else {
                    proof {
                        assert(self.entries@ =~= pre.entries@);
                        assert(self.ids() =~= pre.ids());
                    }
                    false
                }
            },
            Option::None => {
                proof {
                    assert(self.ids() =~= pre.ids());
                }
                false
            },
        }
    }

    /// Record a volume change: when sent, replace the UI-facing volume
    /// bits; entries are never touched.
    pub fn record_volume(&mut self, sent: bool, value_bits: u32)
        ensures
            sent ==> final(self).volume_bits == value_bits,
            !sent ==> final(self).volume_bits == old(self).volume_bits,
            final(self).entries == old(self).entries,
            old(self).wf() ==> final(self).wf(),
    {
        if sent {
            self.volume_bits = value_bits;
        }
    }

    /// Record a session clear: when sent, forget every entry.
    pub fn record_clear(&mut self, sent: bool)
        ensures
            sent ==> final(self).entries@ == Seq::<MirrorEntry>::empty(),
            !sent ==> *final(self) == *old(self),
            final(self).volume_bits == old(self).volume_bits,
            sent ==> final(self).wf(),
            old(self).wf() ==> final(self).wf(),
    {
        if sent {
            self.entries.clear();
        }
    }
}

/// The first mirror position holding `id`.
fn position_of_entry(entries: &Vec<MirrorEntry>, id: PluginId) -> (r: Option<usize>)
    ensures
        match r {
            Option::Some(j) => j == first_index_of(mirror_ids(entries@), id) && j < entries@.len(),
            Option::None => !has_id(mirror_ids(entries@), id),
        },
{
    let ghost ids = mirror_ids(entries@);
    let mut i: usize = 0;
    while i < entries.len()
        invariant
            i <= entries@.len(),
            ids == mirror_ids(entries@),
            forall|k: int| 0 <= k < i ==> entries@[k].id != id,
        decreases entries@.len() - i,
    {
        if entries[i].id == id {
            proof {
                assert(ids[i as int] == id);
                lemma_first_index_of(ids, id);
                let f = first_index_of(ids, id);
                assert(f == i) by {
                    if f < i {
                        assert(entries@[f].id != id);
                        assert(ids[f] == entries@[f].id);
                    }
                }
            }
            return Option::Some(i);
        }
        i += 1;
    }
    proof {
        assert(forall|k: int| 0 <= k < ids.len() ==> ids[k] == entries@[k].id && ids[k] != id);
    }
    Option::None
}

/// The last mirror position holding `id`.
fn rposition_of_entry(entries: &Vec<MirrorEntry>, id: PluginId) -> (r: Option<usize>)
    ensures
        match r {
            Option::Some(j) => j == last_index_of(mirror_ids(entries@), id) && j < entries@.len(),
            Option::None => !has_id(mirror_ids(entries@), id),
        },
{
    let ghost ids = mirror_ids(entries@);
    let mut i: usize = entries.len();
    while i > 0
        invariant
            i <= entries@.len(),
            ids == mirror_ids(entries@),
            forall|k: int| i <= k < entries@.len() ==> entries@[k].id != id,
        decreases i,
    {
        i -= 1;
        if entries[i].id == id {
            proof {
                assert(ids[i as int] == id);
                lemma_last_index_of(ids, id);
                let l = last_index_of(ids, id);
                assert(l == i) by {
                    if l > i {
                        assert(entries@[l].id != id);
                        assert(ids[l] == entries@[l].id);
                    }
                }
            }
            return Option::Some(i);
        }
    }
    proof {
        assert(forall|k: int| 0 <= k < ids.len() ==> ids[k] == entries@[k].id && ids[k] != id);
    }
    Option::None
}

} // verus!
