//! The audio-thread side of the engine: the processor owns the plugin
//! chain and applies at most one command per audio cycle.
//!
//! The host glue around the callback drives it in this order, every
//! cycle: pop at most one command from the command channel and hand it to
//! [`Processor::begin_cycle`]; act on the returned [`CycleAction`]; run
//! the chain over the cycle's buffers; then drain
//! [`Processor::take_pending`] into the reclamation channel, handing any
//! entry the channel refused back to [`Processor::retain_unreclaimed`].
//! Everything the callback decides is here and verified; the per-sample
//! arithmetic and the channel endpoints stay with the host glue.

use vstd::prelude::*;

use crate::chain::{
    chain_step, distinct_ids, entry_ids, first_index_of, has_id, keeps_ids_fresh,
    lemma_chain_step_preserves_distinct, lemma_first_index_of, lemma_last_index_of, last_index_of,
    removed_step, ChainEntry,
};
use crate::command::{Command, PluginId};

verus! {

/// Bit pattern of the single-precision value one: the unity master volume
/// the engine starts with, a pass-through gain.
pub const UNITY_VOLUME_BITS: u32 = 0x3F80_0000;

/// What the audio callback must do after one command was applied.
#[derive(Clone, Copy, PartialEq, Eq, Structural, Debug)]
pub enum CycleAction {
    /// Nothing beyond the cycle's ordinary work.
    Proceed,
    /// Call set-parameter on the instance at `chain_index` with
    /// `param_index` and the value whose bits are `value_bits`.
    SetParameter { chain_index: usize, param_index: usize, value_bits: u32 },
    /// The executor is stopping: signal the host to cease invoking the
    /// callback, now and for every later cycle.
    Stop,
}

/// The action one command asks of the caller: a parameter change names
/// the first entry matching its id, an exit stops the executor, and every
/// other command is handled entirely inside the processor.
pub open spec fn action_step<P>(chain: Seq<ChainEntry<P>>, cmd: Command<P>) -> CycleAction {
    match cmd {
        Command::ParamChange(id, param_index, value_bits) => {
            let j = first_index_of(entry_ids(chain), id);
            if j < 0 {
                CycleAction::Proceed
            } else {
                CycleAction::SetParameter { chain_index: j as usize, param_index, value_bits }
            }
        },
        Command::Exit => CycleAction::Stop,
        _ => CycleAction::Proceed,
    }
}

/// The master volume after one command: only a volume change replaces it.
pub open spec fn volume_step<P>(volume_bits: u32, cmd: Command<P>) -> u32 {
    match cmd {
        Command::VolumeChange(v) => v,
        _ => volume_bits,
    }
}

/// The stopping flag after one command: an exit raises it, nothing
/// lowers it.
pub open spec fn stopping_step<P>(stopping: bool, cmd: Command<P>) -> bool {
    stopping || cmd is Exit
}

/// The audio thread's state: the ordered plugin chain, the entries
/// removed from it but not yet handed to the reclamation channel, the
/// master volume (single-precision bits), and whether an exit command has
/// been seen.
///
/// The chain is mutated only through [`Processor::begin_cycle`] and
/// [`Processor::apply_command`]; the host glue reads it to run each
/// instance over the cycle's buffers, and reaches the instance a
/// [`CycleAction::SetParameter`] names.
pub struct Processor<P> {
    pub chain: Vec<ChainEntry<P>>,
    pub pending_reclaim: Vec<ChainEntry<P>>,
    pub volume_bits: u32,
    pub stopping: bool,
}

impl<P> Processor<P> {
    /// The chain invariant: ids are pairwise distinct, so an id addresses
    /// at most one entry.
    pub open spec fn wf(self) -> bool {
        distinct_ids(entry_ids(self.chain@))
    }

    /// A processor as bootstrap builds it: empty chain, nothing pending,
    /// unity volume, running.
    pub fn new() -> (r: Processor<P>)
        ensures
            r.chain@.len() == 0,
            r.pending_reclaim@.len() == 0,
            r.volume_bits == UNITY_VOLUME_BITS,
            !r.stopping,
            r.wf(),
    {
        Processor {
            chain: Vec::new(),
            pending_reclaim: Vec::new(),
            volume_bits: UNITY_VOLUME_BITS,
            stopping: false,
        }
    }

    /// The one per-cycle command drain. While running, applies the popped
    /// command, if any; once stopping, applies nothing and keeps
    /// answering [`CycleAction::Stop`].
    pub fn begin_cycle(&mut self, cmd: Option<Command<P>>) -> (action: CycleAction)
        ensures
            old(self).stopping ==> *final(self) == *old(self) && action == CycleAction::Stop,
            !old(self).stopping ==> match cmd {
                Option::Some(c) => {
                    &&& final(self).chain@ == chain_step(old(self).chain@, c)
                    &&& final(self).pending_reclaim@ == old(self).pending_reclaim@ + removed_step(
                        old(self).chain@,
                        c,
                    )
                    &&& final(self).volume_bits == volume_step(old(self).volume_bits, c)
                    &&& final(self).stopping == stopping_step(old(self).stopping, c)
                    &&& action == action_step(old(self).chain@, c)
                    &&& old(self).wf() && keeps_ids_fresh(old(self).chain@, c) ==> final(self).wf()
                },
                Option::None => *final(self) == *old(self) && action == CycleAction::Proceed,
            },
    {
        if self.stopping {
            return CycleAction::Stop;
        }
        match cmd {
            Option::Some(c) => self.apply_command(c),
            Option::None => CycleAction::Proceed,
        }
    }

    /// Apply one command to the chain, exactly as the model functions
    /// say: the new chain is `chain_step`, the entries newly awaiting
    /// reclamation are `removed_step`, volume and stopping follow their
    /// step functions, and the returned action is `action_step`.
    pub fn apply_command(&mut self, cmd: Command<P>) -> (action: CycleAction)
        ensures
            final(self).chain@ == chain_step(old(self).chain@, cmd),
            final(self).pending_reclaim@ == old(self).pending_reclaim@ + removed_step(
                old(self).chain@,
                cmd,
            ),
            final(self).volume_bits == volume_step(old(self).volume_bits, cmd),
            final(self).stopping == stopping_step(old(self).stopping, cmd),
            action == action_step(old(self).chain@, cmd),
            old(self).wf() && keeps_ids_fresh(old(self).chain@, cmd) ==> final(self).wf(),
    {
        let ghost pre = *old(self);
        proof {
            if pre.wf() && keeps_ids_fresh(pre.chain@, cmd) {
                lemma_chain_step_preserves_distinct(pre.chain@, cmd);
            }
        }
        let action = match cmd {
            Command::LoadPlugin(plugin, id) => {
                self.chain.push(ChainEntry { plugin, id });
                proof {
                    assert(pre.pending_reclaim@ + removed_step(pre.chain@, cmd)
                        =~= pre.pending_reclaim@);
                }
                CycleAction::Proceed
            },
            Command::DeletePlugin(id) => {
                proof {
                    lemma_last_index_of(entry_ids(self.chain@), id);
                }
                match rposition_of_id(&self.chain, id) {
                    Option::Some(j) => {
                        let entry = self.chain.remove(j);
                        self.pending_reclaim.push(entry);
                        proof {
                            assert(pre.pending_reclaim@.push(entry) =~= pre.pending_reclaim@
                                + removed_step(pre.chain@, cmd));
                        }
                    },
                    Option::None => {
                        proof {
                            assert(pre.pending_reclaim@ + removed_step(pre.chain@, cmd)
                                =~= pre.pending_reclaim@);
                        }
                    },
                }
                CycleAction::Proceed
            },
            Command::MovePluginUp(id) => {
                proof {
                    lemma_first_index_of(entry_ids(self.chain@), id);
                }
                match position_of_id(&self.chain, id) {
                    Option::Some(j) => {
                        if j > 0 {
                            let entry = self.chain.remove(j);
                            self.chain.insert(j - 1, entry);
                            proof {
                                assert(self.chain@ =~= chain_step(pre.chain@, cmd));
                            }
                        }
                    },
                    Option::None => {},
                }
                proof {
                    assert(pre.pending_reclaim@ + removed_step(pre.chain@, cmd)
                        =~= pre.pending_reclaim@);
                }
                CycleAction::Proceed
            },
            Command::MovePluginDown(id) => {
                proof {
                    lemma_last_index_of(entry_ids(self.chain@), id);
                }
                match rposition_of_id(&self.chain, id) {
                    Option::Some(j) => {
                        let n = self.chain.len();
                        if j < n - 1 {
                            let entry = self.chain.remove(j);
                            self.chain.insert(j + 1, entry);
                            proof {
                                assert(self.chain@ =~= chain_step(pre.chain@, cmd));
                            }
                        }
                    },
                    Option::None => {},
                }
                proof {
                    assert(pre.pending_reclaim@ + removed_step(pre.chain@, cmd)
                        =~= pre.pending_reclaim@);
                }
                CycleAction::Proceed
            },
            Command::ParamChange(id, param_index, value_bits) => {
                proof {
                    lemma_first_index_of(entry_ids(self.chain@), id);
                    assert(pre.pending_reclaim@ + removed_step(pre.chain@, cmd)
                        =~= pre.pending_reclaim@);
                }
                match position_of_id(&self.chain, id) {
                    Option::Some(j) => CycleAction::SetParameter {
                        chain_index: j,
                        param_index,
                        value_bits,
                    },
                    Option::None => CycleAction::Proceed,
                }
            },
            Command::ClearSession => {
                self.clear_chain();
                CycleAction::Proceed
            },
            Command::VolumeChange(v) => {
                self.volume_bits = v;
                proof {
                    assert(pre.pending_reclaim@ + removed_step(pre.chain@, cmd)
                        =~= pre.pending_reclaim@);
                }
                CycleAction::Proceed
            },
            Command::Exit => {
                self.stopping = true;
                proof {
                    assert(pre.pending_reclaim@ + removed_step(pre.chain@, cmd)
                        =~= pre.pending_reclaim@);
                }
                CycleAction::Stop
            },
        };
        action
    }

    /// Empty the chain from its end, handing every entry over for
    /// reclamation in reverse chain order.
    fn clear_chain(&mut self)
        ensures
            final(self).chain@ == Seq::<ChainEntry<P>>::empty(),
            final(self).pending_reclaim@ == old(self).pending_reclaim@ + old(
                self,
            ).chain@.reverse(),
            final(self).volume_bits == old(self).volume_bits,
            final(self).stopping == old(self).stopping,
    {
        let ghost pre_chain = self.chain@;
        let ghost pre_pending = self.pending_reclaim@;
        let ghost pre_volume = self.volume_bits;
        let ghost pre_stopping = self.stopping;
        proof {
            assert(pre_chain.take(pre_chain.len() as int) =~= pre_chain);
        }
        while self.chain.len() > 0
            invariant
                self.chain@.len() <= pre_chain.len(),
                self.chain@ == pre_chain.take(self.chain@.len() as int),
                self.pending_reclaim@.len() == pre_pending.len() + pre_chain.len()
                    - self.chain@.len(),
                forall|k: int|
                    0 <= k < pre_pending.len() ==> self.pending_reclaim@[k] == pre_pending[k],
                forall|k: int|
                    pre_pending.len() <= k < self.pending_reclaim@.len()
                        ==> self.pending_reclaim@[k] == pre_chain[pre_chain.len()
                        + pre_pending.len() - 1 - k],
                self.volume_bits == pre_volume,
                self.stopping == pre_stopping,
            decreases self.chain@.len(),
        {
            let ghost n = self.chain@.len() as int;
            match self.chain.pop() {
                Option::Some(entry) => {
                    proof {
                        assert(entry == pre_chain.take(n)[n - 1]);
                        assert(self.chain@ =~= pre_chain.take(n - 1));
                    }
                    self.pending_reclaim.push(entry);
                },
                Option::None => {
                    proof {
                        assert(false);
                    }
                },
            }
        }
        proof {
            assert(self.pending_reclaim@ =~= pre_pending + pre_chain.reverse());
        }
    }

    /// Take every entry awaiting reclamation, in the order it was
    /// removed, leaving nothing pending. The caller offers each to the
    /// reclamation channel and hands refusals back through
    /// [`Processor::retain_unreclaimed`].
    pub fn take_pending(&mut self) -> (r: Vec<ChainEntry<P>>)
        ensures
            r@ == old(self).pending_reclaim@,
            final(self).pending_reclaim@ == Seq::<ChainEntry<P>>::empty(),
            final(self).chain == old(self).chain,
            final(self).volume_bits == old(self).volume_bits,
            final(self).stopping == old(self).stopping,
    {
        let mut r: Vec<ChainEntry<P>> = Vec::new();
        core::mem::swap(&mut r, &mut self.pending_reclaim);
        r
    }

    /// Keep an entry the reclamation channel had no room for; it will be
    /// offered again on a later cycle rather than dropped on the
    /// real-time path.
    pub fn retain_unreclaimed(&mut self, entry: ChainEntry<P>)
        ensures
            final(self).pending_reclaim@ == old(self).pending_reclaim@.push(entry),
            final(self).chain == old(self).chain,
            final(self).volume_bits == old(self).volume_bits,
            final(self).stopping == old(self).stopping,
    {
        self.pending_reclaim.push(entry);
    }
}

/// The first chain position holding `id`, as the engine searches for a
/// move-up or a parameter change.
fn position_of_id<P>(chain: &Vec<ChainEntry<P>>, id: PluginId) -> (r: Option<usize>)
    ensures
        match r {
            Option::Some(j) => j == first_index_of(entry_ids(chain@), id) && j < chain@.len(),
            Option::None => !has_id(entry_ids(chain@), id),
        },
{
    let ghost ids = entry_ids(chain@);
    let mut i: usize = 0;
    while i < chain.len()
        invariant
            i <= chain@.len(),
            ids == entry_ids(chain@),
            forall|k: int| 0 <= k < i ==> chain@[k].id != id,
        decreases chain@.len() - i,
    {
        if chain[i].id == id {
            proof {
                assert(ids[i as int] == id);
                lemma_first_index_of(ids, id);
                let f = first_index_of(ids, id);
                assert(f == i) by {
                    if f < i {
                        assert(chain@[f].id != id);
                        assert(ids[f] == chain@[f].id);
                    }
                }
            }
            return Option::Some(i);
        }
        i += 1;
    }
    proof {
        assert(forall|k: int| 0 <= k < ids.len() ==> ids[k] == chain@[k].id && ids[k] != id);
    }
    Option::None
}

/// The last chain position holding `id`, as the engine searches for a
/// delete or a move-down: matching from the end is the tie-break policy
/// should ids ever repeat.
fn rposition_of_id<P>(chain: &Vec<ChainEntry<P>>, id: PluginId) -> (r: Option<usize>)
    ensures
        match r {
            Option::Some(j) => j == last_index_of(entry_ids(chain@), id) && j < chain@.len(),
            Option::None => !has_id(entry_ids(chain@), id),
        },
{
    let ghost ids = entry_ids(chain@);
    let mut i: usize = chain.len();
    while i > 0
        invariant
            i <= chain@.len(),
            ids == entry_ids(chain@),
            forall|k: int| i <= k < chain@.len() ==> chain@[k].id != id,
        decreases i,
    {
        i -= 1;
        if chain[i].id == id {
            proof {
                assert(ids[i as int] == id);
                lemma_last_index_of(ids, id);
                let l = last_index_of(ids, id);
                assert(l == i) by {
                    if l > i {
                        assert(chain@[l].id != id);
                        assert(ids[l] == chain@[l].id);
                    }
                }
            }
            return Option::Some(i);
        }
    }
    proof {
        assert(forall|k: int| 0 <= k < ids.len() ==> ids[k] == chain@[k].id && ids[k] != id);
    }
    Option::None
}

} // verus!
