//! Laws of the command protocol, proved about the same model functions
//! the processor's contracts are stated over: what a run of loads builds,
//! what a delete removes, that the two moves undo one another, and what a
//! clear hands over for reclamation.

use vstd::prelude::*;

use crate::chain::{
    chain_step, distinct_ids, entry_ids, first_index_of, has_id, last_index_of,
    lemma_distinct_index_unique, lemma_distinct_swap, lemma_entry_ids_push,
    lemma_entry_ids_remove, lemma_entry_ids_update, lemma_first_index_of, lemma_last_index_of,
    removed_step, ChainEntry,
};
use crate::command::{Command, PluginId};
use crate::mirror::{mirror_ids, MirrorEntry};

verus! {

/// The chain after a whole sequence of commands is applied, first to
/// last, one per cycle.
pub open spec fn run_chain<P>(chain: Seq<ChainEntry<P>>, cmds: Seq<Command<P>>) -> Seq<
    ChainEntry<P>,
>
    decreases cmds.len(),
{
    if cmds.len() == 0 {
        chain
    } else {
        run_chain(chain_step(chain, cmds[0]), cmds.drop_first())
    }
}

/// The ids a sequence of commands loads, in issuance order.
pub open spec fn load_ids<P>(cmds: Seq<Command<P>>) -> Seq<PluginId>
    decreases cmds.len(),
{
    if cmds.len() == 0 {
        Seq::empty()
    } else {
        match cmds[0] {
            Command::LoadPlugin(_, id) => seq![id] + load_ids(cmds.drop_first()),
            _ => load_ids(cmds.drop_first()),
        }
    }
}

/// A run of load commands appends entries in issuance order: afterwards
/// the chain's ids are the old ids followed by the loaded ids, first
/// issued first.
pub proof fn lemma_loads_append_in_order<P>(chain: Seq<ChainEntry<P>>, cmds: Seq<Command<P>>)
    requires
        forall|k: int| 0 <= k < cmds.len() ==> cmds[k] is LoadPlugin,
    ensures
        entry_ids(run_chain(chain, cmds)) == entry_ids(chain) + load_ids(cmds),
    decreases cmds.len(),
{
    if cmds.len() == 0 {
        assert(entry_ids(chain) + load_ids(cmds) =~= entry_ids(chain));
    } else {
        assert(cmds[0] is LoadPlugin);
        match cmds[0] {
            Command::LoadPlugin(plugin, id) => {
                let chain1 = chain_step(chain, cmds[0]);
                lemma_entry_ids_push(chain, ChainEntry { plugin, id });
                assert(forall|k: int|
                    0 <= k < cmds.drop_first().len() ==> cmds.drop_first()[k] == cmds[k + 1]);
                lemma_loads_append_in_order(chain1, cmds.drop_first());
                assert(entry_ids(run_chain(chain, cmds)) =~= entry_ids(chain) + load_ids(cmds));
            },
            _ => {},
        }
    }
}

/// Deleting a present id shortens the chain by one, leaves no entry with
/// that id behind, and hands over exactly the matching entry for
/// reclamation.
pub proof fn lemma_delete_removes_entry<P>(chain: Seq<ChainEntry<P>>, id: PluginId)
    requires
        distinct_ids(entry_ids(chain)),
        chain.len() >= 2,
        has_id(entry_ids(chain), id),
    ensures
        chain_step(chain, Command::<P>::DeletePlugin(id)).len() == chain.len() - 1,
        !has_id(entry_ids(chain_step(chain, Command::<P>::DeletePlugin(id))), id),
        removed_step(chain, Command::<P>::DeletePlugin(id)).len() == 1,
        removed_step(chain, Command::<P>::DeletePlugin(id))[0].id == id,
        removed_step(chain, Command::<P>::DeletePlugin(id))[0] == chain[last_index_of(
            entry_ids(chain),
            id,
        )],
{
    let ids = entry_ids(chain);
    lemma_last_index_of(ids, id);
    let j = last_index_of(ids, id);
    lemma_entry_ids_remove(chain, j);
    let rest = ids.remove(j);
    assert forall|k: int| 0 <= k < rest.len() implies rest[k] != id by {
        let k0: int = if k < j {
            k
        } else {
            k + 1
        };
        assert(rest[k] == ids[k0]);
        assert(ids[k0] != ids[j]);
    }
}

/// Moving a non-first entry up and then down restores the original chain:
/// the two moves are a self-inverse pair.
pub proof fn lemma_move_up_then_down<P>(chain: Seq<ChainEntry<P>>, id: PluginId)
    requires
        distinct_ids(entry_ids(chain)),
        first_index_of(entry_ids(chain), id) > 0,
    ensures
        chain_step(chain_step(chain, Command::<P>::MovePluginUp(id)), Command::<P>::MovePluginDown(id))
            == chain,
{
    let ids = entry_ids(chain);
    lemma_first_index_of(ids, id);
    let j = first_index_of(ids, id);
    let chain1 = chain_step(chain, Command::<P>::MovePluginUp(id));
    lemma_entry_ids_update(chain, j - 1, chain[j]);
    lemma_entry_ids_update(chain.update(j - 1, chain[j]), j, chain[j - 1]);
    let ids1 = entry_ids(chain1);
    assert(ids1 == ids.update(j - 1, ids[j]).update(j, ids[j - 1])) by {
        assert(entry_ids(chain.update(j - 1, chain[j])).update(j, chain[j - 1].id) =~= ids.update(
            j - 1,
            ids[j],
        ).update(j, ids[j - 1]));
    }
    lemma_distinct_swap(ids, j - 1, j);
    assert(ids1[j - 1] == id);
    lemma_distinct_index_unique(ids1, id, j - 1);
    assert(last_index_of(ids1, id) == j - 1);
    assert(chain_step(chain1, Command::<P>::MovePluginDown(id)) =~= chain);
}

/// Moving a non-last entry down and then up restores the original chain:
/// the inverse pairing holds in the other order too.
pub proof fn lemma_move_down_then_up<P>(chain: Seq<ChainEntry<P>>, id: PluginId)
    requires
        distinct_ids(entry_ids(chain)),
        has_id(entry_ids(chain), id),
        last_index_of(entry_ids(chain), id) + 1 < chain.len(),
    ensures
        chain_step(chain_step(chain, Command::<P>::MovePluginDown(id)), Command::<P>::MovePluginUp(id))
            == chain,
{
    let ids = entry_ids(chain);
    lemma_last_index_of(ids, id);
    let j = last_index_of(ids, id);
    let chain1 = chain_step(chain, Command::<P>::MovePluginDown(id));
    lemma_entry_ids_update(chain, j, chain[j + 1]);
    lemma_entry_ids_update(chain.update(j, chain[j + 1]), j + 1, chain[j]);
    let ids1 = entry_ids(chain1);
    assert(ids1 == ids.update(j, ids[j + 1]).update(j + 1, ids[j])) by {
        assert(entry_ids(chain.update(j, chain[j + 1])).update(j + 1, chain[j].id) =~= ids.update(
            j,
            ids[j + 1],
        ).update(j + 1, ids[j]));
    }
    lemma_distinct_swap(ids, j, j + 1);
    assert(ids1[j + 1] == id);
    lemma_distinct_index_unique(ids1, id, j + 1);
    assert(first_index_of(ids1, id) == j + 1);
    assert(chain_step(chain1, Command::<P>::MovePluginUp(id)) =~= chain);
}

/// Clearing a session empties the chain and hands over every entry, in
/// reverse chain order, each keeping its id; under the chain invariant
/// the handed-over ids are distinct and are exactly the pre-clear ids.
pub proof fn lemma_clear_reclaims_all<P>(chain: Seq<ChainEntry<P>>)
    requires
        distinct_ids(entry_ids(chain)),
    ensures
        chain_step(chain, Command::<P>::ClearSession).len() == 0,
        removed_step(chain, Command::<P>::ClearSession).len() == chain.len(),
        forall|k: int|
            0 <= k < chain.len() ==> removed_step(chain, Command::<P>::ClearSession)[k]
                == chain[chain.len() - 1 - k],
        distinct_ids(entry_ids(removed_step(chain, Command::<P>::ClearSession))),
        forall|x: PluginId|
            has_id(entry_ids(removed_step(chain, Command::<P>::ClearSession)), x) <==> has_id(
                entry_ids(chain),
                x,
            ),
{
    let removed = removed_step(chain, Command::<P>::ClearSession);
    assert(removed == chain.reverse());
    assert(removed.len() == chain.len());
    let ids = entry_ids(chain);
    let rids = entry_ids(removed);
    assert forall|j: int, k: int| 0 <= j < k < rids.len() implies rids[j] != rids[k] by {
        assert(rids[j] == ids[ids.len() - 1 - j]);
        assert(rids[k] == ids[ids.len() - 1 - k]);
    }
    assert forall|x: PluginId| has_id(rids, x) <==> has_id(ids, x) by {
        if has_id(rids, x) {
            let w = choose|k: int| 0 <= k < rids.len() && rids[k] == x;
            assert(ids[ids.len() - 1 - w] == x);
        }
        if has_id(ids, x) {
            let w = choose|k: int| 0 <= k < ids.len() && ids[k] == x;
            assert(rids[ids.len() - 1 - w] == x);
        }
    }
}

// The mirror stays consistent with the chain solely by recording the
// same accepted commands in the same order. The lemmas below say so for
// each command that touches the order: when the two sides hold the same
// ids, one command moves the chain's ids exactly as the corresponding
// record moves the mirror's, in the very shapes the ensures of
// `Processor::apply_command` and of the `Mirror::record` functions
// produce. A parameter or volume change leaves both id sequences
// untouched by those same contracts, so agreement needs no lemma there.

/// An accepted load appends the same id on both sides.
pub proof fn lemma_load_keeps_agreement<P>(
    chain: Seq<ChainEntry<P>>,
    entries: Seq<MirrorEntry>,
    plugin: P,
    entry: MirrorEntry,
)
    requires
        entry_ids(chain) == mirror_ids(entries),
    ensures
        entry_ids(chain_step(chain, Command::LoadPlugin(plugin, entry.id))) == mirror_ids(
            entries.push(entry),
        ),
{
    lemma_entry_ids_push(chain, ChainEntry { plugin, id: entry.id });
    assert(mirror_ids(entries.push(entry)) =~= mirror_ids(entries).push(entry.id));
}

/// An accepted delete removes the entry at the same position on both
/// sides, or is a no-op on both.
pub proof fn lemma_delete_keeps_agreement<P>(
    chain: Seq<ChainEntry<P>>,
    entries: Seq<MirrorEntry>,
    id: PluginId,
)
    requires
        entry_ids(chain) == mirror_ids(entries),
    ensures
        ({
            let j = last_index_of(mirror_ids(entries), id);
            entry_ids(chain_step(chain, Command::<P>::DeletePlugin(id))) == if j >= 0 {
                mirror_ids(entries.remove(j))
            } else {
                mirror_ids(entries)
            }
        }),
{
    let ids = entry_ids(chain);
    lemma_last_index_of(ids, id);
    let j = last_index_of(ids, id);
    if j >= 0 {
        lemma_entry_ids_remove(chain, j);
        assert(mirror_ids(entries.remove(j)) =~= mirror_ids(entries).remove(j));
    }
}

/// An accepted move up swaps the same neighbours on both sides, or is a
/// no-op on both.
pub proof fn lemma_move_up_keeps_agreement<P>(
    chain: Seq<ChainEntry<P>>,
    entries: Seq<MirrorEntry>,
    id: PluginId,
)
    requires
        entry_ids(chain) == mirror_ids(entries),
    ensures
        ({
            let j = first_index_of(mirror_ids(entries), id);
            entry_ids(chain_step(chain, Command::<P>::MovePluginUp(id))) == if j > 0 {
                mirror_ids(entries.update(j - 1, entries[j]).update(j, entries[j - 1]))
            } else {
                mirror_ids(entries)
            }
        }),
{
    let ids = entry_ids(chain);
    lemma_first_index_of(ids, id);
    let j = first_index_of(ids, id);
    if j > 0 {
        lemma_entry_ids_update(chain, j - 1, chain[j]);
        lemma_entry_ids_update(chain.update(j - 1, chain[j]), j, chain[j - 1]);
        assert(entry_ids(chain_step(chain, Command::<P>::MovePluginUp(id))) =~= ids.update(
            j - 1,
            ids[j],
        ).update(j, ids[j - 1]));
        assert(mirror_ids(entries.update(j - 1, entries[j]).update(j, entries[j - 1]))
            =~= ids.update(j - 1, ids[j]).update(j, ids[j - 1]));
    }
}

/// An accepted move down swaps the same neighbours on both sides, or is
/// a no-op on both.
pub proof fn lemma_move_down_keeps_agreement<P>(
    chain: Seq<ChainEntry<P>>,
    entries: Seq<MirrorEntry>,
    id: PluginId,
)
    requires
        entry_ids(chain) == mirror_ids(entries),
    ensures
        ({
            let j = last_index_of(mirror_ids(entries), id);
            entry_ids(chain_step(chain, Command::<P>::MovePluginDown(id))) == if j >= 0 && j + 1
                < entries.len() {
                mirror_ids(entries.update(j, entries[j + 1]).update(j + 1, entries[j]))
            } else {
                mirror_ids(entries)
            }
        }),
{
    let ids = entry_ids(chain);
    lemma_last_index_of(ids, id);
    let j = last_index_of(ids, id);
    if j >= 0 && j + 1 < entries.len() {
        lemma_entry_ids_update(chain, j, chain[j + 1]);
        lemma_entry_ids_update(chain.update(j, chain[j + 1]), j + 1, chain[j]);
        assert(entry_ids(chain_step(chain, Command::<P>::MovePluginDown(id))) =~= ids.update(
            j,
            ids[j + 1],
        ).update(j + 1, ids[j]));
        assert(mirror_ids(entries.update(j, entries[j + 1]).update(j + 1, entries[j]))
            =~= ids.update(j, ids[j + 1]).update(j + 1, ids[j]));
    }
}

/// An accepted clear leaves both sides empty.
pub proof fn lemma_clear_keeps_agreement<P>(chain: Seq<ChainEntry<P>>, entries: Seq<MirrorEntry>)
    requires
        entry_ids(chain) == mirror_ids(entries),
    ensures
        entry_ids(chain_step(chain, Command::<P>::ClearSession)) == mirror_ids(
            Seq::<MirrorEntry>::empty(),
        ),
{
    assert(entry_ids(chain_step(chain, Command::<P>::ClearSession)) =~= mirror_ids(
        Seq::<MirrorEntry>::empty(),
    ));
}

} // verus!
