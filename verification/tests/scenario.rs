//! End-to-end scenarios: the engine driven through real single-producer
//! single-consumer ring buffers, one command per cycle, with a stand-in
//! plugin and the per-sample arithmetic done the way the host glue does
//! it (copy input to output and scratch, run the chain, square the
//! master volume).

use rake::command::Command;
use rake::mirror::{Mirror, MirrorParam};
use rake::processor::{CycleAction, Processor};
use ringbuf::traits::{Consumer, Producer, Split};
use ringbuf::HeapRb;

/// A stand-in instance: one parameter, and a gain applied by `process`.
#[derive(Debug, Clone, PartialEq)]
struct Fx {
    params: Vec<f32>,
    gain: f32,
}

impl Fx {
    fn pass_through(param_count: usize) -> Fx {
        Fx { params: vec![0.0; param_count], gain: 1.0 }
    }
}

/// One audio cycle as the host glue performs it: drain at most one
/// command, act on the returned action, run the chain over the buffer,
/// apply the squared master volume, and offer removed entries to the
/// reclamation channel.
fn run_cycle(
    proc: &mut Processor<Fx>,
    commands: &mut ringbuf::HeapCons<Command<Fx>>,
    reclaim: &mut ringbuf::HeapProd<(Fx, u128)>,
    input: &[f32],
    output: &mut [f32],
) -> bool {
    match proc.begin_cycle(commands.try_pop()) {
        CycleAction::Stop => return false,
        CycleAction::SetParameter { chain_index, param_index, value_bits } => {
            let fx = &mut proc.chain[chain_index].plugin;
            if param_index < fx.params.len() {
                fx.params[param_index] = f32::from_bits(value_bits);
            }
        }
        CycleAction::Proceed => {}
    }

    output.copy_from_slice(input);
    let mut scratch: Vec<f32> = input.to_vec();
    for entry in proc.chain.iter_mut() {
        for (o, s) in output.iter_mut().zip(scratch.iter()) {
            *o = *s * entry.plugin.gain;
        }
        scratch.copy_from_slice(output);
    }

    let volume = f32::from_bits(proc.volume_bits);
    for sample in output.iter_mut() {
        *sample = *sample * volume * volume;
    }

    for entry in proc.take_pending() {
        if let Err(refused) = reclaim.try_push((entry.plugin, entry.id)) {
            proc.retain_unreclaimed(rake::chain::ChainEntry { plugin: refused.0, id: refused.1 });
        }
    }
    true
}

#[test]
fn param_delete_volume_scenario() {
    let (mut tx, mut rx) = HeapRb::<Command<Fx>>::new(512).split();
    let (mut reclaim_tx, mut reclaim_rx) = HeapRb::<(Fx, u128)>::new(128).split();
    let mut proc = Processor::new();
    let mut mirror = Mirror::new();

    let a1 = mirror.allocate_load_id().unwrap();
    let sent = tx.try_push(Command::LoadPlugin(Fx::pass_through(1), a1)).is_ok();
    assert!(mirror.record_load(
        sent,
        a1,
        String::from("A"),
        vec![MirrorParam { name: String::from("p0"), value_bits: 0.0f32.to_bits() }],
    ));
    let a2 = mirror.allocate_load_id().unwrap();
    let sent = tx.try_push(Command::LoadPlugin(Fx::pass_through(1), a2)).is_ok();
    assert!(mirror.record_load(
        sent,
        a2,
        String::from("B"),
        vec![MirrorParam { name: String::from("p0"), value_bits: 0.0f32.to_bits() }],
    ));

    let input = [1.0f32; 8];
    let mut output = [0.0f32; 8];
    // one command is drained per cycle: two cycles bring both loads in
    run_cycle(&mut proc, &mut rx, &mut reclaim_tx, &input, &mut output);
    run_cycle(&mut proc, &mut rx, &mut reclaim_tx, &input, &mut output);
    let chain_ids: Vec<u128> = proc.chain.iter().map(|e| e.id).collect();
    assert_eq!(chain_ids, vec![a1, a2]);

    // a parameter change reaches A on the next cycle; order is unchanged
    let bits = 0.75f32.to_bits();
    let sent = tx.try_push(Command::ParamChange(a1, 0, bits)).is_ok();
    mirror.record_param(sent, a1, 0, bits);
    run_cycle(&mut proc, &mut rx, &mut reclaim_tx, &input, &mut output);
    assert_eq!(proc.chain[0].plugin.params[0], 0.75f32);
    let chain_ids: Vec<u128> = proc.chain.iter().map(|e| e.id).collect();
    assert_eq!(chain_ids, vec![a1, a2]);

    // deleting A leaves [B] and surfaces (A, a1) on the reclamation channel
    let sent = tx.try_push(Command::DeletePlugin(a1)).is_ok();
    mirror.record_delete(sent, a1);
    run_cycle(&mut proc, &mut rx, &mut reclaim_tx, &input, &mut output);
    let chain_ids: Vec<u128> = proc.chain.iter().map(|e| e.id).collect();
    assert_eq!(chain_ids, vec![a2]);
    let (reclaimed_fx, reclaimed_id) = reclaim_rx.try_pop().expect("removed entry is observable");
    assert_eq!(reclaimed_id, a1);
    assert_eq!(reclaimed_fx.params[0], 0.75f32);

    // with volume 0.5 and B a pass-through, constant input 1.0 comes out
    // as 1.0 * 0.5 * 0.5 = 0.25 per sample
    let sent = tx.try_push(Command::VolumeChange(0.5f32.to_bits())).is_ok();
    mirror.record_volume(sent, 0.5f32.to_bits());
    run_cycle(&mut proc, &mut rx, &mut reclaim_tx, &input, &mut output);
    for sample in output {
        assert_eq!(sample, 0.25f32);
    }

    // mirror and chain saw the same accepted commands in the same order
    let mirror_ids: Vec<u128> = mirror.entries.iter().map(|e| e.id).collect();
    assert_eq!(mirror_ids, vec![a2]);
    assert_eq!(f32::from_bits(mirror.volume_bits), 0.5f32);
}

#[test]
fn command_channel_full_keeps_mirror_unchanged() {
    // capacity 2: the third send is refused and the mirror must not
    // append a third entry
    let (mut tx, _rx) = HeapRb::<Command<Fx>>::new(2).split();
    let mut mirror = Mirror::new();
    for id in [1u128, 2, 3] {
        let sent = tx.try_push(Command::LoadPlugin(Fx::pass_through(0), id)).is_ok();
        assert_eq!(sent, id != 3);
        mirror.record_load(sent, id, format!("fx{}", id), Vec::new());
    }
    let mirror_ids: Vec<u128> = mirror.entries.iter().map(|e| e.id).collect();
    assert_eq!(mirror_ids, vec![1, 2]);
}

#[test]
fn empty_chain_applies_squared_volume() {
    let (mut tx, mut rx) = HeapRb::<Command<Fx>>::new(8).split();
    let (mut reclaim_tx, _reclaim_rx) = HeapRb::<(Fx, u128)>::new(8).split();
    let mut proc = Processor::new();

    let input = [1.0f32; 4];
    let mut output = [0.0f32; 4];

    // unity volume passes through unchanged
    run_cycle(&mut proc, &mut rx, &mut reclaim_tx, &input, &mut output);
    assert_eq!(output, [1.0f32; 4]);

    // volume 2.0 scales by 4.0
    assert!(tx.try_push(Command::VolumeChange(2.0f32.to_bits())).is_ok());
    run_cycle(&mut proc, &mut rx, &mut reclaim_tx, &input, &mut output);
    assert_eq!(output, [4.0f32; 4]);

    // volume 0 mutes
    assert!(tx.try_push(Command::VolumeChange(0.0f32.to_bits())).is_ok());
    run_cycle(&mut proc, &mut rx, &mut reclaim_tx, &input, &mut output);
    assert_eq!(output, [0.0f32; 4]);
}

#[test]
fn exit_command_stops_the_cycle() {
    let (mut tx, mut rx) = HeapRb::<Command<Fx>>::new(8).split();
    let (mut reclaim_tx, _reclaim_rx) = HeapRb::<(Fx, u128)>::new(8).split();
    let mut proc = Processor::new();
    let input = [0.5f32; 4];
    let mut output = [0.0f32; 4];

    assert!(tx.try_push(Command::Exit).is_ok());
    assert!(!run_cycle(&mut proc, &mut rx, &mut reclaim_tx, &input, &mut output));
    // and it stays stopped on every later invocation
    assert!(!run_cycle(&mut proc, &mut rx, &mut reclaim_tx, &input, &mut output));
}
