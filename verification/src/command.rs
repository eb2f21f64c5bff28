use vstd::prelude::*;

verus! {

/// Identifier the control thread assigns when a plugin is loaded: the
/// 128-bit value of a freshly drawn UUID. It is the sole handle by which
/// later commands address a chain entry, compared by value across threads.
pub type PluginId = u128;

/// A request sent from the control thread to the audio thread, consumed
/// exactly once, at most one per audio cycle.
///
/// The instance type `P` is opaque to the engine: a `LoadPlugin` carries
/// an instance into the chain, and the engine only ever moves such values,
/// never looks inside them. Parameter and volume values travel as the raw
/// bit pattern of the single-precision number the control surface chose;
/// the engine stores and forwards those bits unchanged.
pub enum Command<P> {
    /// Append an instance to the end of the chain under the given id.
    LoadPlugin(P, PluginId),
    /// Remove the entry with the given id and hand its instance over for
    /// reclamation outside the real-time path.
    DeletePlugin(PluginId),
    /// Swap the addressed entry with its immediate predecessor.
    MovePluginUp(PluginId),
    /// Swap the addressed entry with its immediate successor.
    MovePluginDown(PluginId),
    /// Set one parameter of the addressed instance: id, parameter index,
    /// value bits.
    ParamChange(PluginId, usize, u32),
    /// Empty the chain, reclaiming every entry.
    ClearSession,
    /// Replace the master volume scalar (bit pattern).
    VolumeChange(u32),
    /// Stop the audio-cycle executor after this cycle.
    Exit,
}

} // verus!
