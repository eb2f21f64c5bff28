//! The plugin chain and its mathematical model.
//!
//! A chain is an ordered sequence of entries, each an opaque instance
//! paired with the id under which the control thread addresses it. The
//! spec functions here say how each command transforms a chain, which
//! entries it removes, and where an id sits; the processor's executable
//! code is proved against them and the laws in `laws` are proved about
//! them.

use vstd::prelude::*;

use crate::command::{Command, PluginId};

verus! {

/// One link of the chain: an opaque plugin instance together with the id
/// the control thread assigned to it at load time.
pub struct ChainEntry<P> {
    pub plugin: P,
    pub id: PluginId,
}

/// The ids of a chain, in chain order.
pub open spec fn entry_ids<P>(chain: Seq<ChainEntry<P>>) -> Seq<PluginId> {
    Seq::new(chain.len(), |i: int| chain[i].id)
}

/// Whether some position of `ids` holds `id`.
pub open spec fn has_id(ids: Seq<PluginId>, id: PluginId) -> bool {
    exists|k: int| 0 <= k < ids.len() && ids[k] == id
}

/// The first position of `ids` holding `id`, or -1 when none does.
pub open spec fn first_index_of(ids: Seq<PluginId>, id: PluginId) -> int
    decreases ids.len(),
{
    if ids.len() == 0 {
        -1
    } else if ids[0] == id {
        0
    } else {
        let rest = first_index_of(ids.drop_first(), id);
        if rest < 0 {
            -1
        } else {
            rest + 1
        }
    }
}

/// The last position of `ids` holding `id`, or -1 when none does. Matching
/// from the end is the engine's tie-break policy for deletion; with the
/// chain invariant below it coincides with the first position.
pub open spec fn last_index_of(ids: Seq<PluginId>, id: PluginId) -> int
    decreases ids.len(),
{
    if ids.len() == 0 {
        -1
    } else if ids[ids.len() - 1] == id {
        ids.len() - 1
    } else {
        last_index_of(ids.drop_last(), id)
    }
}

/// Pairwise distinct ids: the invariant of the chain and of the mirror.
pub open spec fn distinct_ids(ids: Seq<PluginId>) -> bool {
    forall|j: int, k: int| 0 <= j < k < ids.len() ==> ids[j] != ids[k]
}

/// The chain after one command is applied, exactly as the audio thread
/// applies it: loads append, deletes remove the last match, moves swap
/// with a neighbour and are no-ops at a boundary or for an absent id,
/// clearing empties the chain, and the remaining commands leave it alone.
pub open spec fn chain_step<P>(chain: Seq<ChainEntry<P>>, cmd: Command<P>) -> Seq<ChainEntry<P>> {
    match cmd {
        Command::LoadPlugin(plugin, id) => chain.push(ChainEntry { plugin, id }),
        Command::DeletePlugin(id) => {
            let j = last_index_of(entry_ids(chain), id);
            if j < 0 {
                chain
            } else {
                chain.remove(j)
            }
        },
        Command::MovePluginUp(id) => {
            let j = first_index_of(entry_ids(chain), id);
            if j <= 0 {
                chain
            } else {
                chain.update(j - 1, chain[j]).update(j, chain[j - 1])
            }
        },
        Command::MovePluginDown(id) => {
            let j = last_index_of(entry_ids(chain), id);
            if j < 0 || j + 1 >= chain.len() {
                chain
            } else {
                chain.update(j, chain[j + 1]).update(j + 1, chain[j])
            }
        },
        Command::ParamChange(_, _, _) => chain,
        Command::ClearSession => Seq::empty(),
        Command::VolumeChange(_) => chain,
        Command::Exit => chain,
    }
}

/// The entries one command hands over for reclamation: the matched entry
/// for a delete, the whole chain in reverse order for a clear (the audio
/// thread empties the chain from its end), nothing otherwise.
pub open spec fn removed_step<P>(chain: Seq<ChainEntry<P>>, cmd: Command<P>) -> Seq<ChainEntry<P>> {
    match cmd {
        Command::DeletePlugin(id) => {
            let j = last_index_of(entry_ids(chain), id);
            if j < 0 {
                Seq::empty()
            } else {
                seq![chain[j]]
            }
        },
        Command::ClearSession => chain.reverse(),
        _ => Seq::empty(),
    }
}

/// Whether a command keeps the chain invariant: only a load can introduce
/// an id, so only a load with a stale id is excluded.
pub open spec fn keeps_ids_fresh<P>(chain: Seq<ChainEntry<P>>, cmd: Command<P>) -> bool {
    cmd matches Command::LoadPlugin(_, id) ==> !has_id(entry_ids(chain), id)
}

/// What `first_index_of` answers: -1 exactly for an absent id, otherwise
/// the position of the earliest match.
pub proof fn lemma_first_index_of(ids: Seq<PluginId>, id: PluginId)
    ensures
        has_id(ids, id) <==> first_index_of(ids, id) >= 0,
        first_index_of(ids, id) >= 0 ==> {
            let j = first_index_of(ids, id);
            &&& j < ids.len()
            &&& ids[j] == id
            &&& forall|k: int| 0 <= k < j ==> ids[k] != id
        },
    decreases ids.len(),
{
    if ids.len() == 0 {
    } else if ids[0] == id {
        assert(has_id(ids, id));
    } else {
        let rest = ids.drop_first();
        lemma_first_index_of(rest, id);
        assert(forall|k: int| 0 <= k < rest.len() ==> rest[k] == ids[k + 1]);
        let rj = first_index_of(rest, id);
        if rj >= 0 {
            assert(ids[rj + 1] == rest[rj]);
            assert forall|k: int| 0 <= k < rj + 1 implies ids[k] != id by {
                if k > 0 {
                    assert(ids[k] == rest[k - 1]);
                }
            }
        }
        if has_id(ids, id) {
            let w = choose|k: int| 0 <= k < ids.len() && ids[k] == id;
            assert(rest[w - 1] == id);
            assert(has_id(rest, id));
        }
        if has_id(rest, id) {
            let w = choose|k: int| 0 <= k < rest.len() && rest[k] == id;
            assert(ids[w + 1] == id);
            assert(has_id(ids, id));
        }
    }
}

/// What `last_index_of` answers: -1 exactly for an absent id, otherwise
/// the position of the latest match.
pub proof fn lemma_last_index_of(ids: Seq<PluginId>, id: PluginId)
    ensures
        has_id(ids, id) <==> last_index_of(ids, id) >= 0,
        last_index_of(ids, id) >= 0 ==> {
            let j = last_index_of(ids, id);
            &&& j < ids.len()
            &&& ids[j] == id
            &&& forall|k: int| j < k < ids.len() ==> ids[k] != id
        },
    decreases ids.len(),
{
    if ids.len() == 0 {
    } else if ids[ids.len() - 1] == id {
        assert(has_id(ids, id));
    } else {
        let rest = ids.drop_last();
        lemma_last_index_of(rest, id);
        assert(forall|k: int| 0 <= k < rest.len() ==> rest[k] == ids[k]);
        if has_id(ids, id) {
            let w = choose|k: int| 0 <= k < ids.len() && ids[k] == id;
            assert(rest[w] == id);
            assert(has_id(rest, id));
        }
        if has_id(rest, id) {
            let w = choose|k: int| 0 <= k < rest.len() && rest[k] == id;
            assert(ids[w] == id);
            assert(has_id(ids, id));
        }
    }
}

/// Under distinct ids, any position holding `id` is both the first and
/// the last match.
pub proof fn lemma_distinct_index_unique(ids: Seq<PluginId>, id: PluginId, k: int)
    requires
        distinct_ids(ids),
        0 <= k < ids.len(),
        ids[k] == id,
    ensures
        first_index_of(ids, id) == k,
        last_index_of(ids, id) == k,
{
    assert(has_id(ids, id));
    lemma_first_index_of(ids, id);
    lemma_last_index_of(ids, id);
    let f = first_index_of(ids, id);
    let l = last_index_of(ids, id);
    assert(f == k) by {
        if f < k {
            assert(ids[f] == ids[k]);
        } else if f > k {
            assert(ids[k] != id);
        }
    }
    assert(l == k) by {
        if l > k {
            assert(ids[l] == ids[k]);
        } else if l < k {
            assert(ids[k] != id);
        }
    }
}

/// Appending an entry appends its id.
pub proof fn lemma_entry_ids_push<P>(chain: Seq<ChainEntry<P>>, e: ChainEntry<P>)
    ensures
        entry_ids(chain.push(e)) == entry_ids(chain).push(e.id),
{
    assert(entry_ids(chain.push(e)) =~= entry_ids(chain).push(e.id));
}

/// Removing an entry removes its id.
pub proof fn lemma_entry_ids_remove<P>(chain: Seq<ChainEntry<P>>, j: int)
    requires
        0 <= j < chain.len(),
    ensures
        entry_ids(chain.remove(j)) == entry_ids(chain).remove(j),
{
    assert(entry_ids(chain.remove(j)) =~= entry_ids(chain).remove(j));
}

/// Replacing an entry replaces its id.
pub proof fn lemma_entry_ids_update<P>(chain: Seq<ChainEntry<P>>, j: int, e: ChainEntry<P>)
    requires
        0 <= j < chain.len(),
    ensures
        entry_ids(chain.update(j, e)) == entry_ids(chain).update(j, e.id),
{
    assert(entry_ids(chain.update(j, e)) =~= entry_ids(chain).update(j, e.id));
}

/// Distinctness survives a push of a fresh id.
pub proof fn lemma_distinct_push(ids: Seq<PluginId>, id: PluginId)
    requires
        distinct_ids(ids),
        !has_id(ids, id),
    ensures
        distinct_ids(ids.push(id)),
{
    assert forall|j: int, k: int| 0 <= j < k < ids.push(id).len() implies ids.push(id)[j]
        != ids.push(id)[k] by {
        if k == ids.len() {
            assert(ids.push(id)[k] == id);
            assert(!(ids[j] == id));
        }
    }
}

/// Distinctness survives removal.
pub proof fn lemma_distinct_remove(ids: Seq<PluginId>, j: int)
    requires
        distinct_ids(ids),
        0 <= j < ids.len(),
    ensures
        distinct_ids(ids.remove(j)),
{
    let r = ids.remove(j);
    assert forall|a: int, b: int| 0 <= a < b < r.len() implies r[a] != r[b] by {
        let a0: int = if a < j {
            a
        } else {
            a + 1
        };
        let b0: int = if b < j {
            b
        } else {
            b + 1
        };
        assert(r[a] == ids[a0]);
        assert(r[b] == ids[b0]);
    }
}

/// Distinctness survives swapping two positions.
pub proof fn lemma_distinct_swap(ids: Seq<PluginId>, a: int, b: int)
    requires
        distinct_ids(ids),
        0 <= a < ids.len(),
        0 <= b < ids.len(),
    ensures
        distinct_ids(ids.update(a, ids[b]).update(b, ids[a])),
{
    let r = ids.update(a, ids[b]).update(b, ids[a]);
    assert forall|j: int, k: int| 0 <= j < k < r.len() implies r[j] != r[k] by {
        let j0: int = if j == a {
            b
        } else if j == b {
            a
        } else {
            j
        };
        let k0: int = if k == a {
            b
        } else if k == b {
            a
        } else {
            k
        };
        assert(r[j] == ids[j0]);
        assert(r[k] == ids[k0]);
    }
}

/// The chain invariant is preserved by every command whose load id is
/// fresh; no other command can introduce an id.
pub proof fn lemma_chain_step_preserves_distinct<P>(chain: Seq<ChainEntry<P>>, cmd: Command<P>)
    requires
        distinct_ids(entry_ids(chain)),
        keeps_ids_fresh(chain, cmd),
    ensures
        distinct_ids(entry_ids(chain_step(chain, cmd))),
{
    let ids = entry_ids(chain);
    match cmd {
        Command::LoadPlugin(plugin, id) => {
            lemma_entry_ids_push(chain, ChainEntry { plugin, id });
            lemma_distinct_push(ids, id);
        },
        Command::DeletePlugin(id) => {
            let j = last_index_of(ids, id);
            if j >= 0 {
                lemma_last_index_of(ids, id);
                lemma_entry_ids_remove(chain, j);
                lemma_distinct_remove(ids, j);
            }
        },
        Command::MovePluginUp(id) => {
            let j = first_index_of(ids, id);
            if j > 0 {
                lemma_first_index_of(ids, id);
                lemma_entry_ids_update(chain, j - 1, chain[j]);
                lemma_entry_ids_update(chain.update(j - 1, chain[j]), j, chain[j - 1]);
                lemma_distinct_swap(ids, j - 1, j);
                assert(entry_ids(chain_step(chain, cmd)) =~= ids.update(j - 1, ids[j]).update(
                    j,
                    ids[j - 1],
                ));
            }
        },
        Command::MovePluginDown(id) => {
            let j = last_index_of(ids, id);
            if j >= 0 && j + 1 < chain.len() {
                lemma_last_index_of(ids, id);
                lemma_entry_ids_update(chain, j, chain[j + 1]);
                lemma_entry_ids_update(chain.update(j, chain[j + 1]), j + 1, chain[j]);
                lemma_distinct_swap(ids, j, j + 1);
                assert(entry_ids(chain_step(chain, cmd)) =~= ids.update(j, ids[j + 1]).update(
                    j + 1,
                    ids[j],
                ));
            }
        },
        Command::ClearSession => {
            assert(entry_ids(chain_step(chain, cmd)) =~= Seq::<PluginId>::empty());
        },
        _ => {
            assert(entry_ids(chain_step(chain, cmd)) =~= ids);
        },
    }
}

} // verus!
