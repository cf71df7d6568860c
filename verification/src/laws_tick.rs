//! What a tick does to every world: it leaves the world in order, and
//! where no behavior kills or dies and the border takes no ant, it never
//! makes the population smaller.

use vstd::prelude::*;
use crate::ant::Ant;
use crate::ant::BorderMode;
use crate::config::properties_wf;
use crate::config::WorldPropertiesView;
use crate::peripherals::ordinal_of;
use crate::peripherals::peripheral_at;
use crate::peripherals::OutputValue;
use crate::peripherals::Peripheral;
use crate::peripherals::PeripheralBit;
use crate::world::ant_step;
use crate::world::apply_output;
use crate::world::apply_outputs;
use crate::world::begin_tick;
use crate::world::collect_from;
use crate::world::dispatch_from;
use crate::world::empty_slots;
use crate::world::grown;
use crate::world::input_word;
use crate::world::bytes_at;
use crate::world::live;
use crate::world::move_step;
use crate::world::output_values;
use crate::world::survivors_from;
use crate::world::tick_spec;
use crate::world::ticks_spec;
use crate::world::settled;
use crate::world::turns_from;
use crate::world::world_ok;
use crate::world::WorldView;

verus! {

/// Whether every value for the color of a cell is a color: below 16.
pub open spec fn colors_fit(outs: Seq<OutputValue>) -> bool {
    forall|j: int| 0 <= j < outs.len() ==> ((#[trigger] outs[j]).output == Peripheral::Cell ==> outs[j].value < 16)
}

proof fn lemma_dispatch_color(outputs: Seq<PeripheralBit>, k: int, word: u32, slots: Seq<Option<u8>>)
    requires
        slots.len() == 13,
        slots[1] matches Some(v) ==> v < 16,
        0 <= k <= outputs.len(),
        forall|j: int|
            0 <= j < outputs.len() ==> crate::peripherals::bit_valid(
                #[trigger] outputs[j],
                crate::peripherals::IoType::Output,
            ) is Ok,
    ensures
        dispatch_from(outputs, k, word, slots).len() == 13,
        dispatch_from(outputs, k, word, slots)[1] matches Some(v) ==> v < 16,
    decreases k,
{
    if k > 0 {
        let out = outputs[k - 1];
        let at = ordinal_of(out.peripheral) as int;
        let add: u8 = if word % 2 == 1 {
            crate::world::bit_value(out.bit)
        } else {
            0
        };
        let before: u8 = match slots[at] {
            Some(v) => v,
            None => 0,
        };
        assert(crate::peripherals::bit_valid(out, crate::peripherals::IoType::Output) is Ok);
        if at == 1 {
            assert(out.peripheral == Peripheral::Cell);
            assert(out.bit < 4);
            crate::world::lemma_or_bit_cell(before, add);
        }
        lemma_dispatch_color(outputs, k - 1, word / 2, slots.update(at, Some(before | add)));
    }
}

proof fn lemma_collect_color(slots: Seq<Option<u8>>, place: int, outs: Seq<OutputValue>)
    requires
        slots.len() == 13,
        slots[1] matches Some(v) ==> v < 16,
        0 <= place <= 13,
        colors_fit(outs),
    ensures
        colors_fit(collect_from(slots, place, outs)),
    decreases 13 - place,
{
    if place < 13 {
        match slots[place] {
            Some(v) => {
                let next = outs.push(OutputValue { output: peripheral_at(place), value: v });
                assert forall|j: int| 0 <= j < next.len() implies ((#[trigger] next[j]).output
                    == Peripheral::Cell ==> next[j].value < 16) by {
                    if j < outs.len() {
                        assert(next[j] == outs[j]);
                    }
                }
                lemma_collect_color(slots, place + 1, next);
            },
            None => {
                lemma_collect_color(slots, place + 1, outs);
            },
        }
    }
}

/// The output bits of a behavior give the cell a color below 16,
/// whatever the output word.
pub proof fn lemma_outputs_color(outputs: Seq<PeripheralBit>, word: u32)
    requires
        crate::ant::periphs_valid(outputs, crate::peripherals::IoType::Output) is Ok,
    ensures
        colors_fit(output_values(outputs, word)),
{
    crate::ant::lemma_first_invalid(outputs, crate::peripherals::IoType::Output, 0);
    let n = outputs.len() as int;
    lemma_dispatch_color(outputs, n, word, empty_slots());
    lemma_collect_color(dispatch_from(outputs, n, word, empty_slots()), 0, Seq::empty());
}

/// The turn of an ant leaves the world in order, and no ant leaves the
/// list in it.
pub proof fn lemma_turn_in_order(p: WorldPropertiesView, s: WorldView, k: int, word: u8)
    requires
        world_ok(p, s),
        0 <= k < s.ants.len(),
    ensures
        world_ok(p, ant_step(p, s, k, word)),
        ant_step(p, s, k, word).ants.len() >= s.ants.len(),
{
    let slot = s.ants[k].behavior as int;
    assert(crate::world::ant_ok(p, s, s.ants[k]));
    let b = p.behaviors[slot]->0;
    assert(crate::ant::behavior_wf(b));
    let out_word = if (word as int) < b.logic.entries.len() {
        b.logic.entries[word as int]
    } else {
        0u32
    };
    lemma_outputs_color(b.outputs, out_word);
    let outs = output_values(b.outputs, out_word);
    crate::world::lemma_apply_outputs_ok(p, s, k, outs, 0);
    crate::world::lemma_move_step_ok(p, apply_outputs(p, s, k, outs, 0), k);
}

proof fn lemma_turns_in_order(p: WorldPropertiesView, s: WorldView, i: int, n: int, randoms: Seq<Seq<u8>>)
    requires
        world_ok(p, s),
        0 <= i,
    ensures
        world_ok(p, turns_from(p, s, i, n, randoms)),
    decreases n - i,
{
    if i < n {
        if i < s.ants.len() && s.ants[i].status == crate::ant::AntStatus::Alive {
            let word = input_word(p, s, i, bytes_at(randoms, i));
            lemma_turn_in_order(p, s, i, word);
            lemma_turns_in_order(p, ant_step(p, s, i, word), i + 1, n, randoms);
        } else {
            lemma_turns_in_order(p, s, i + 1, n, randoms);
        }
    }
}

/// Every tick leaves the world in order, whatever bytes the generator
/// gave: after it the cache is set exactly on the cells on which an ant
/// stands, there are at most 256 ants, no two of them on one cell, each
/// faces one of the eight directions, every cell holds a color of the
/// color mode, and every ant is alive.
pub proof fn lemma_tick_in_order(p: WorldPropertiesView, s: WorldView, randoms: Seq<Seq<u8>>)
    requires
        world_ok(p, s),
    ensures
        world_ok(p, tick_spec(p, s, randoms)),
        settled(tick_spec(p, s, randoms)),
{
    crate::world::lemma_begin_tick_ok(p, s);
    lemma_turns_in_order(p, begin_tick(s), 0, s.ants.len() as int, randoms);
    crate::world::lemma_finish_tick_ok(p, turns_from(p, begin_tick(s), 0, s.ants.len() as int, randoms), 0);
}

/// Any number of ticks leaves the world in order.
pub proof fn lemma_ticks_in_order(p: WorldPropertiesView, s: WorldView, rounds: Seq<Seq<Seq<u8>>>, i: int)
    requires
        world_ok(p, s),
        0 <= i,
    ensures
        world_ok(p, ticks_spec(p, s, rounds, i)),
    decreases rounds.len() - i,
{
    if i < rounds.len() {
        lemma_tick_in_order(p, s, rounds[i]);
        lemma_ticks_in_order(p, tick_spec(p, s, rounds[i]), rounds, i + 1);
    }
}

/// Whether a peripheral ends no ant: it is neither kill nor die.
pub open spec fn mild(peripheral: Peripheral) -> bool {
    peripheral != Peripheral::Kill && peripheral != Peripheral::Die
}

/// Whether nothing in the world ends an ant: no behavior has an output
/// bit of kill or die, and ants do not despawn at the border.
pub open spec fn peaceful(p: WorldPropertiesView) -> bool {
    &&& p.config.border_mode != BorderMode::Despawn
    &&& forall|i: int, j: int|
        0 <= i < p.behaviors.len() && p.behaviors[i] is Some && 0 <= j < p.behaviors[i]->0.outputs.len() ==> mild(
            (#[trigger] p.behaviors[i]->0.outputs[j]).peripheral,
        )
}

/// Whether every ant of the world lives and is bound to a behavior.
pub open spec fn thriving(p: WorldPropertiesView, s: WorldView) -> bool {
    forall|k: int|
        0 <= k < s.ants.len() ==> live(#[trigger] s.ants[k]) && p.behaviors[s.ants[k].behavior as int] is Some
}

/// A world in order in which no ant is dead is thriving.
pub proof fn lemma_in_order_thrives(p: WorldPropertiesView, s: WorldView)
    requires
        world_ok(p, s),
        forall|k: int| 0 <= k < s.ants.len() ==> live(#[trigger] s.ants[k]),
    ensures
        thriving(p, s),
{
    assert forall|k: int| 0 <= k < s.ants.len() implies live(#[trigger] s.ants[k]) && p.behaviors[s.ants[k].behavior as int] is Some by {
        assert(crate::world::ant_ok(p, s, s.ants[k]));
    }
}

/// Whether none of the output values is for kill or die.
pub open spec fn all_mild(outs: Seq<OutputValue>) -> bool {
    forall|i: int| 0 <= i < outs.len() ==> mild((#[trigger] outs[i]).output)
}

proof fn lemma_dispatch_keeps_empty(
    outputs: Seq<PeripheralBit>,
    k: int,
    word: u32,
    slots: Seq<Option<u8>>,
    place: int,
)
    requires
        slots.len() == 13,
        0 <= place < 13,
        slots[place] is None,
        0 <= k <= outputs.len(),
        forall|j: int| 0 <= j < k ==> ordinal_of((#[trigger] outputs[j]).peripheral) != place,
    ensures
        dispatch_from(outputs, k, word, slots).len() == 13,
        dispatch_from(outputs, k, word, slots)[place] is None,
    decreases k,
{
    if k > 0 {
        let out = outputs[k - 1];
        let at = ordinal_of(out.peripheral) as int;
        let add: u8 = if word % 2 == 1 {
            crate::world::bit_value(out.bit)
        } else {
            0
        };
        let before: u8 = match slots[at] {
            Some(v) => v,
            None => 0,
        };
        lemma_dispatch_keeps_empty(outputs, k - 1, word / 2, slots.update(at, Some(before | add)), place);
    }
}

proof fn lemma_collect_mild(slots: Seq<Option<u8>>, place: int, outs: Seq<OutputValue>)
    requires
        slots.len() == 13,
        slots[8] is None,
        slots[12] is None,
        0 <= place <= 13,
        all_mild(outs),
    ensures
        all_mild(collect_from(slots, place, outs)),
    decreases 13 - place,
{
    if place < 13 {
        match slots[place] {
            Some(v) => {
                let next = outs.push(OutputValue { output: peripheral_at(place), value: v });
                assert(mild(peripheral_at(place)));
                assert forall|i: int| 0 <= i < next.len() implies mild((#[trigger] next[i]).output) by {
                    if i < outs.len() {
                        assert(next[i] == outs[i]);
                    }
                }
                lemma_collect_mild(slots, place + 1, next);
            },
            None => {
                lemma_collect_mild(slots, place + 1, outs);
            },
        }
    }
}

/// A behavior without an output bit of kill or die hands out no value
/// for either, whatever the output word.
pub proof fn lemma_outputs_mild(outputs: Seq<PeripheralBit>, word: u32)
    requires
        forall|j: int| 0 <= j < outputs.len() ==> mild((#[trigger] outputs[j]).peripheral),
    ensures
        all_mild(output_values(outputs, word)),
{
    let n = outputs.len() as int;
    assert forall|j: int| 0 <= j < n implies ordinal_of((#[trigger] outputs[j]).peripheral) != 8 && ordinal_of(
        outputs[j].peripheral,
    ) != 12 by {
        assert(mild(outputs[j].peripheral));
    }
    lemma_dispatch_keeps_empty(outputs, n, word, empty_slots(), 8);
    lemma_dispatch_keeps_empty(outputs, n, word, empty_slots(), 12);
    lemma_collect_mild(dispatch_from(outputs, n, word, empty_slots()), 0, Seq::empty());
}

proof fn lemma_output_keeps(p: WorldPropertiesView, s: WorldView, k: int, out: OutputValue)
    requires
        thriving(p, s),
        0 <= k < s.ants.len(),
        mild(out.output),
    ensures
        thriving(p, apply_output(p, s, k, out)),
        apply_output(p, s, k, out).ants.len() >= s.ants.len(),
{
    let t = apply_output(p, s, k, out);
    assert forall|j: int| 0 <= j < t.ants.len() implies live(#[trigger] t.ants[j]) && p.behaviors[t.ants[j].behavior as int] is Some by {
        if j < s.ants.len() {
            assert(live(s.ants[j]) && p.behaviors[s.ants[j].behavior as int] is Some);
        }
    }
}

proof fn lemma_outputs_keep(p: WorldPropertiesView, s: WorldView, k: int, outs: Seq<OutputValue>, i: int)
    requires
        thriving(p, s),
        0 <= k < s.ants.len(),
        all_mild(outs),
        0 <= i <= outs.len(),
    ensures
        thriving(p, apply_outputs(p, s, k, outs, i)),
        apply_outputs(p, s, k, outs, i).ants.len() >= s.ants.len(),
    decreases outs.len() - i,
{
    if i < outs.len() {
        assert(mild(outs[i].output));
        lemma_output_keeps(p, s, k, outs[i]);
        lemma_outputs_keep(p, apply_output(p, s, k, outs[i]), k, outs, i + 1);
    }
}

proof fn lemma_move_keeps(p: WorldPropertiesView, s: WorldView, k: int)
    requires
        thriving(p, s),
        0 <= k < s.ants.len(),
        p.config.border_mode != BorderMode::Despawn,
    ensures
        thriving(p, move_step(p, s, k)),
        move_step(p, s, k).ants.len() == s.ants.len(),
{
    let t = move_step(p, s, k);
    assert forall|j: int| 0 <= j < t.ants.len() implies live(#[trigger] t.ants[j]) && p.behaviors[t.ants[j].behavior as int] is Some by {
        assert(live(s.ants[j]) && p.behaviors[s.ants[j].behavior as int] is Some);
    }
}

/// In a peaceful world the turn of an ant ends no ant.
pub proof fn lemma_turn_keeps(p: WorldPropertiesView, s: WorldView, k: int, word: u8)
    requires
        properties_wf(p),
        peaceful(p),
        thriving(p, s),
        0 <= k < s.ants.len(),
    ensures
        thriving(p, ant_step(p, s, k, word)),
        ant_step(p, s, k, word).ants.len() >= s.ants.len(),
{
    let slot = s.ants[k].behavior as int;
    assert(live(s.ants[k]) && p.behaviors[slot] is Some);
    let b = p.behaviors[slot]->0;
    let out_word = if (word as int) < b.logic.entries.len() {
        b.logic.entries[word as int]
    } else {
        0u32
    };
    assert forall|j: int| 0 <= j < b.outputs.len() implies mild((#[trigger] b.outputs[j]).peripheral) by {
        assert(mild(p.behaviors[slot]->0.outputs[j].peripheral));
    }
    lemma_outputs_mild(b.outputs, out_word);
    let outs = output_values(b.outputs, out_word);
    lemma_outputs_keep(p, s, k, outs, 0);
    lemma_move_keeps(p, apply_outputs(p, s, k, outs, 0), k);
}

proof fn lemma_turns_keep(p: WorldPropertiesView, s: WorldView, i: int, n: int, randoms: Seq<Seq<u8>>)
    requires
        properties_wf(p),
        peaceful(p),
        thriving(p, s),
        0 <= i,
    ensures
        thriving(p, turns_from(p, s, i, n, randoms)),
        turns_from(p, s, i, n, randoms).ants.len() >= s.ants.len(),
    decreases n - i,
{
    if i < n {
        if i < s.ants.len() && s.ants[i].status == crate::ant::AntStatus::Alive {
            let word = input_word(p, s, i, bytes_at(randoms, i));
            lemma_turn_keeps(p, s, i, word);
            lemma_turns_keep(p, ant_step(p, s, i, word), i + 1, n, randoms);
        } else {
            lemma_turns_keep(p, s, i + 1, n, randoms);
        }
    }
}

proof fn lemma_all_survive(p: WorldPropertiesView, ants: Seq<Ant>, i: int, kept: Seq<Ant>)
    requires
        0 <= i <= ants.len(),
        forall|k: int|
            0 <= k < ants.len() ==> live(#[trigger] ants[k]) && p.behaviors[ants[k].behavior as int] is Some,
        forall|k: int|
            0 <= k < kept.len() ==> live(#[trigger] kept[k]) && p.behaviors[kept[k].behavior as int] is Some,
    ensures
        survivors_from(ants, i, kept).len() == kept.len() + ants.len() - i,
        forall|k: int|
            0 <= k < survivors_from(ants, i, kept).len() ==> live(#[trigger] survivors_from(ants, i, kept)[k])
                && p.behaviors[survivors_from(ants, i, kept)[k].behavior as int] is Some,
    decreases ants.len() - i,
{
    if i < ants.len() {
        assert(live(ants[i]) && p.behaviors[ants[i].behavior as int] is Some);
        let next = kept.push(grown(ants[i]));
        assert forall|k: int| 0 <= k < next.len() implies live(#[trigger] next[k]) && p.behaviors[next[k].behavior as int] is Some by {
            if k < kept.len() {
                assert(next[k] == kept[k]);
            }
        }
        lemma_all_survive(p, ants, i + 1, next);
    }
}

/// The population of a peaceful world never shrinks: where every ant
/// lives and is bound to a behavior, a tick leaves at least as many ants
/// as it found, whatever bytes the generator gave, and again each of them
/// lives and is bound.
pub proof fn lemma_population_stays(p: WorldPropertiesView, s: WorldView, randoms: Seq<Seq<u8>>)
    requires
        properties_wf(p),
        peaceful(p),
        thriving(p, s),
    ensures
        thriving(p, tick_spec(p, s, randoms)),
        tick_spec(p, s, randoms).ants.len() >= s.ants.len(),
{
    let started = begin_tick(s);
    assert(thriving(p, started)) by {
        assert forall|k: int| 0 <= k < started.ants.len() implies live(#[trigger] started.ants[k])
            && p.behaviors[started.ants[k].behavior as int] is Some by {
            assert(live(s.ants[k]) && p.behaviors[s.ants[k].behavior as int] is Some);
        }
    }
    lemma_turns_keep(p, started, 0, s.ants.len() as int, randoms);
    let turned = turns_from(p, started, 0, s.ants.len() as int, randoms);
    assert forall|k: int| 0 <= k < turned.ants.len() implies live(#[trigger] turned.ants[k])
        && p.behaviors[turned.ants[k].behavior as int] is Some by {}
    lemma_all_survive(p, turned.ants, 0, Seq::empty());
}

/// Over any number of ticks the population of a peaceful world never
/// shrinks.
pub proof fn lemma_population_over_ticks(
    p: WorldPropertiesView,
    s: WorldView,
    rounds: Seq<Seq<Seq<u8>>>,
    i: int,
)
    requires
        properties_wf(p),
        peaceful(p),
        thriving(p, s),
        0 <= i,
    ensures
        thriving(p, ticks_spec(p, s, rounds, i)),
        ticks_spec(p, s, rounds, i).ants.len() >= s.ants.len(),
    decreases rounds.len() - i,
{
    if i < rounds.len() {
        lemma_population_stays(p, s, rounds[i]);
        lemma_population_over_ticks(p, tick_spec(p, s, rounds[i]), rounds, i + 1);
    }
}

} // verus!
