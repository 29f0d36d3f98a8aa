//! What holds of the machine whatever the programs and the unit do.

use crate::building::Building;
use crate::catalog::{Catalog, LookupKind};
use crate::{color, grid, number, text};
use crate::decoder::{name_var, Draft};
use crate::instruction::{BinaryOp, Condition, Flow, Instruction, LVar};
use crate::layout::places;
use crate::measure::scaled;
use crate::model::{rate_of, Core, MAX_IPT, State};
use crate::names::position;
use crate::near::MIDPOINT;
use crate::point::{tile_key, Point2};
use crate::processor::Processor;
use crate::unit::{Answer, FloatUnit};
use crate::value::LValue;
use crate::variables::Globals;
use crate::vm::{advanced, LogicVM};
use crate::world::{Tile, World};
use vstd::arithmetic::div_mod::lemma_div_pos_is_pos;
use vstd::arithmetic::power2::{lemma_pow2_pos, pow2};
use vstd::prelude::*;

verus! {

/// The time after ticks with the given deltas, one after the other.
pub open spec fn after_ticks(time: u64, deltas: Seq<i64>) -> u64
    decreases deltas.len(),
{
    if deltas.len() == 0 {
        time
    } else {
        advanced(after_ticks(time, deltas.drop_last()), deltas.last())
    }
}

/// A tick never moves the time back, and a tick with a negative delta
/// leaves the time as it is.
pub proof fn law_tick_moves_time_on(time: u64, delta: i64)
    ensures
        advanced(time, delta) >= time,
        delta <= 0 ==> advanced(time, delta) == time,
{
}

/// Whatever the deltas of a sequence of ticks, the time after them is not
/// before the time after any number of the first of them.
pub proof fn law_time_never_goes_back(time: u64, deltas: Seq<i64>, k: int)
    requires
        0 <= k <= deltas.len(),
    ensures
        after_ticks(time, deltas.subrange(0, k)) <= after_ticks(time, deltas),
    decreases deltas.len(),
{
    if k == deltas.len() {
        assert(deltas.subrange(0, k) =~= deltas);
    } else {
        law_time_never_goes_back(time, deltas.drop_last(), k);
        assert(deltas.drop_last().subrange(0, k) =~= deltas.subrange(0, k));
    }
}

/// A processor runs at most as many instructions in a tick as its budget
/// was when the tick began.
pub proof fn law_budget_bounds_tick(before: Processor, after: Processor, world: &World, steps: nat)
    requires
        after.ran(&before, world, steps),
    ensures
        steps <= before.state.ipt,
{
}

/// Whether an instruction can move the counter elsewhere than to the
/// instruction after it: a jump, a stop, an end, or an assignment to the
/// counter.
pub open spec fn moves_counter(instruction: Instruction) -> bool {
    match instruction {
        Instruction::Jump { .. } | Instruction::Stop | Instruction::End => true,
        Instruction::Assign { dest, .. } => dest == LVar::Counter,
        Instruction::Unary { dest, .. } => dest == LVar::Counter,
        Instruction::Binary { dest, .. } => dest == LVar::Counter,
        Instruction::Select { dest, .. } => dest == LVar::Counter,
        Instruction::PackColor { dest, .. } => dest == LVar::Counter,
        Instruction::Lookup { dest, .. } => dest == LVar::Counter,
        Instruction::UnpackColor { r, g, b, a, .. } => r == LVar::Counter || g == LVar::Counter
            || b == LVar::Counter || a == LVar::Counter,
        _ => false,
    }
}

/// After the last instruction of a program the counter is 0, unless the
/// instruction moves the counter itself. After `end` it is 0 wherever
/// `end` stands.
pub proof fn law_counter_wraps(core: Core, s: State, world: &World, answers: Seq<Answer>)
    requires
        core.program.instructions@.len() > 0,
        s.counter < core.program.instructions@.len(),
    ensures
        s.counter == core.program.instructions@.len() - 1 && !moves_counter(
            core.program.instructions@[s.counter as int],
        ) ==> core.stepped(s, world, answers).0.counter == 0,
        core.program.instructions@[s.counter as int] == Instruction::End ==> core.stepped(
            s,
            world,
            answers,
        ).0.counter == 0,
{
    reveal(Core::effect);
}

/// A step never moves the counter out of the program.
pub proof fn law_counter_stays_in_program(
    core: Core,
    s: State,
    world: &World,
    answers: Seq<Answer>,
)
    requires
        core.program.wf(),
        core.program.instructions@.len() > 0,
        s.counter < core.program.instructions@.len(),
    ensures
        core.stepped(s, world, answers).0.counter < core.program.instructions@.len(),
{
    reveal(Core::effect);
    let instruction = core.program.instructions@[s.counter as int];
    assert(core.program.valid_instruction(instruction));
}

/// Assigning to a constant changes nothing.
pub proof fn law_constants_are_immutable(core: Core, s: State, constant: LValue, v: LValue)
    ensures
        core.assigned(s, LVar::Constant(constant), v) == s,
{
}

/// A name of the globals that a program mentions gets no slot and no
/// entry among the names of the program.
pub proof fn law_globals_leave_no_trace(globals: &Globals, d: Draft, name: Seq<char>)
    requires
        position(d.names, name) is None,
        globals.lookup(name) is Some,
    ensures
        name_var(globals, d, name).1 == d,
        name_var(globals, d, name).0 == globals.lookup(name)->0,
{
}

/// Assigning leaves the print buffer as it is, and stops nothing.
pub proof fn law_assigning_keeps_text(core: Core, s: State, dest: LVar, v: LValue)
    ensures
        core.assigned(s, dest, v).printbuffer == s.printbuffer,
        core.assigned(s, dest, v).stopped == s.stopped,
{
}

/// No instruction makes the print buffer longer than its capacity.
pub proof fn law_print_buffer_is_bounded(
    core: Core,
    s: State,
    pc: usize,
    instruction: Instruction,
    world: &World,
    answers: Seq<Answer>,
)
    requires
        s.printbuffer.len() <= text::PRINT_CAPACITY,
    ensures
        core.effect(s, pc, instruction, world, answers).0.printbuffer.len()
            <= text::PRINT_CAPACITY,
{
    lemma_effect_frame(core, s, pc, instruction, world, answers);
}

/// What no instruction does: none makes a print buffer within its
/// capacity longer than the capacity, and none but `stop` stops or starts
/// a processor.
proof fn lemma_effect_frame(
    core: Core,
    s: State,
    pc: usize,
    instruction: Instruction,
    world: &World,
    answers: Seq<Answer>,
)
    ensures
        s.printbuffer.len() <= text::PRINT_CAPACITY ==> core.effect(
            s,
            pc,
            instruction,
            world,
            answers,
        ).0.printbuffer.len() <= text::PRINT_CAPACITY,
        instruction != Instruction::Stop ==> core.effect(s, pc, instruction, world, answers).0.stopped
            == s.stopped,
        instruction == Instruction::Stop ==> core.effect(s, pc, instruction, world, answers)
            == (State { stopped: true, counter: pc, ..s }, Flow::Yield),
{
    reveal(Core::effect);
    match instruction {
        Instruction::Assign { dest, value } => {
            law_assigning_keeps_text(core, s, dest, core.value_of(s, value, world));
        },
        Instruction::Unary { op, dest, x } => {
            law_assigning_keeps_text(
                core,
                s,
                dest,
                core.unary_value(op, core.number_at(s, x, world), answers),
            );
        },
        Instruction::Binary { op, dest, x, y } => {
            law_assigning_keeps_text(
                core,
                s,
                dest,
                core.binary_value(
                    op,
                    core.value_of(s, x, world),
                    core.value_of(s, y, world),
                    world,
                    answers,
                ),
            );
        },
        Instruction::Select { dest, condition, x, y, if_true, if_false } => {
            law_assigning_keeps_text(core, s, dest, core.value_of(s, if_true, world));
            law_assigning_keeps_text(core, s, dest, core.value_of(s, if_false, world));
        },
        Instruction::PackColor { dest, r, g, b, a } => {
            law_assigning_keeps_text(
                core,
                s,
                dest,
                LValue::Number(
                    color::packing(
                        core.channel_at(s, r, world),
                        core.channel_at(s, g, world),
                        core.channel_at(s, b, world),
                        core.channel_at(s, a, world),
                    ),
                ),
            );
        },
        Instruction::UnpackColor { r, g, b, a, packed } => {
            let c = color::channels(core.number_at(s, packed, world));
            let s1 = core.assigned(s, r, LValue::Number(color::share(c.0)));
            let s2 = core.assigned(s1, g, LValue::Number(color::share(c.1)));
            let s3 = core.assigned(s2, b, LValue::Number(color::share(c.2)));
            law_assigning_keeps_text(core, s, r, LValue::Number(color::share(c.0)));
            law_assigning_keeps_text(core, s1, g, LValue::Number(color::share(c.1)));
            law_assigning_keeps_text(core, s2, b, LValue::Number(color::share(c.2)));
            law_assigning_keeps_text(core, s3, a, LValue::Number(color::share(c.3)));
        },
        Instruction::Lookup { kind, dest, index } => {
            law_assigning_keeps_text(
                core,
                s,
                dest,
                world.catalog.entry(kind, number::truncation(core.number_at(s, index, world))),
            );
        },
        _ => {},
    }
}

/// Unpacking a packed color gives back each channel.
pub proof fn law_color_round_trip(r: u8, g: u8, b: u8, a: u8)
    ensures
        color::channels(color::packing(r, g, b, a)) == (r, g, b, a),
{
}

/// `unpackcolor` assigns to its four operands, in their order, each
/// channel of a packed color as the double nearest to the channel over
/// 255.
pub proof fn law_unpacking_gives_shares(
    core: Core,
    s: State,
    pc: usize,
    to: (LVar, LVar, LVar, LVar),
    packed: LVar,
    world: &World,
    answers: Seq<Answer>,
)
    ensures
        core.effect(
            s,
            pc,
            Instruction::UnpackColor { r: to.0, g: to.1, b: to.2, a: to.3, packed },
            world,
            answers,
        ) == ({
            let p = color::channels(core.number_at(s, packed, world));
            let s1 = core.assigned(s, to.0, LValue::Number(color::share(p.0)));
            let s2 = core.assigned(s1, to.1, LValue::Number(color::share(p.1)));
            let s3 = core.assigned(s2, to.2, LValue::Number(color::share(p.2)));
            (core.assigned(s3, to.3, LValue::Number(color::share(p.3))), Flow::Continue)
        }),
{
    reveal(Core::effect);
}

/// Where the operands of `packcolor` hold channels as numbers, it stores
/// the color packed from the channels.
pub proof fn law_packing_shares(
    core: Core,
    s: State,
    pc: usize,
    dest: LVar,
    from: (LVar, LVar, LVar, LVar),
    world: &World,
    answers: Seq<Answer>,
    c: (u8, u8, u8, u8),
)
    requires
        core.number_at(s, from.0, world) == color::share(c.0),
        core.number_at(s, from.1, world) == color::share(c.1),
        core.number_at(s, from.2, world) == color::share(c.2),
        core.number_at(s, from.3, world) == color::share(c.3),
    ensures
        core.effect(
            s,
            pc,
            Instruction::PackColor { dest, r: from.0, g: from.1, b: from.2, a: from.3 },
            world,
            answers,
        ) == (
            core.assigned(s, dest, LValue::Number(color::packing(c.0, c.1, c.2, c.3))),
            Flow::Continue,
        ),
{
    reveal(Core::effect);
    color::law_share_names_its_channel(c.0);
    color::law_share_names_its_channel(c.1);
    color::law_share_names_its_channel(c.2);
    color::law_share_names_its_channel(c.3);
}

/// A color that a program packs into a variable from channels as numbers,
/// and then unpacks, gives those numbers back: `packcolor` stores the
/// color packed from the channels, and `unpackcolor`, as the next
/// instruction, assigns to its four operands, in their order, each
/// channel as the number that it was.
pub proof fn law_colors_round_trip_in_programs(
    core: Core,
    s: State,
    pc: usize,
    p: usize,
    from: (LVar, LVar, LVar, LVar),
    to: (LVar, LVar, LVar, LVar),
    world: &World,
    answers: Seq<Answer>,
    c: (u8, u8, u8, u8),
)
    requires
        p < s.slots.len(),
        core.number_at(s, from.0, world) == color::share(c.0),
        core.number_at(s, from.1, world) == color::share(c.1),
        core.number_at(s, from.2, world) == color::share(c.2),
        core.number_at(s, from.3, world) == color::share(c.3),
    ensures
        ({
            let pack = Instruction::PackColor {
                dest: LVar::Slot(p),
                r: from.0,
                g: from.1,
                b: from.2,
                a: from.3,
            };
            let unpack = Instruction::UnpackColor {
                r: to.0,
                g: to.1,
                b: to.2,
                a: to.3,
                packed: LVar::Slot(p),
            };
            let packed = core.effect(s, pc, pack, world, answers).0;
            let next = core.fetched(packed);
            let s1 = core.assigned(next, to.0, LValue::Number(color::share(c.0)));
            let s2 = core.assigned(s1, to.1, LValue::Number(color::share(c.1)));
            let s3 = core.assigned(s2, to.2, LValue::Number(color::share(c.2)));
            let s4 = core.assigned(s3, to.3, LValue::Number(color::share(c.3)));
            &&& packed == State {
                slots: s.slots.update(
                    p as int,
                    LValue::Number(color::packing(c.0, c.1, c.2, c.3)),
                ),
                ..s
            }
            &&& core.effect(next, packed.counter, unpack, world, answers) == (s4, Flow::Continue)
        }),
{
    let pack = Instruction::PackColor {
        dest: LVar::Slot(p),
        r: from.0,
        g: from.1,
        b: from.2,
        a: from.3,
    };
    law_packing_shares(core, s, pc, LVar::Slot(p), from, world, answers, c);
    law_color_round_trip(c.0, c.1, c.2, c.3);
    let packed = core.effect(s, pc, pack, world, answers).0;
    let next = core.fetched(packed);
    assert(core.number_at(next, LVar::Slot(p), world) == color::packing(c.0, c.1, c.2, c.3));
    law_unpacking_gives_shares(core, next, packed.counter, to, LVar::Slot(p), world, answers);
}

/// `equal` holds of two numbers exactly where they are a millionth apart
/// at most, by their values in units of `2^-1074`, and `notEqual` where
/// `equal` does not; `op` stores 1 where the test holds and 0 where it
/// does not.
pub proof fn law_equal_is_by_distance(
    core: Core,
    a: u64,
    b: u64,
    world: &World,
    answers: Seq<Answer>,
)
    ensures
        core.passes(Condition::Equal, LValue::Number(a), LValue::Number(b), world) <==> -(MIDPOINT
            * pow2(1001)) <= scaled(a) - scaled(b) <= MIDPOINT * pow2(1001),
        core.passes(Condition::NotEqual, LValue::Number(a), LValue::Number(b), world)
            != core.passes(Condition::Equal, LValue::Number(a), LValue::Number(b), world),
        core.binary_value(
            BinaryOp::Test(Condition::Equal),
            LValue::Number(a),
            LValue::Number(b),
            world,
            answers,
        ) == LValue::Number(
            if core.passes(Condition::Equal, LValue::Number(a), LValue::Number(b), world) {
                number::ONE
            } else {
                0
            },
        ),
        core.binary_value(
            BinaryOp::Test(Condition::NotEqual),
            LValue::Number(a),
            LValue::Number(b),
            world,
            answers,
        ) == LValue::Number(
            if core.passes(Condition::Equal, LValue::Number(a), LValue::Number(b), world) {
                0
            } else {
                number::ONE
            },
        ),
{
}

/// A lookup gives null exactly where the index is outside the catalog.
pub proof fn law_lookup_bounds(catalog: &Catalog, kind: LookupKind, index: int)
    ensures
        catalog.entry(kind, index) != LValue::Null <==> 0 <= index < catalog.size(kind),
{
}

/// `stop` stops the processor, leaves the counter on itself and yields;
/// nothing else stops a processor.
pub proof fn law_only_stop_stops(
    core: Core,
    s: State,
    pc: usize,
    instruction: Instruction,
    world: &World,
    answers: Seq<Answer>,
)
    requires
        !s.stopped,
    ensures
        core.effect(s, pc, instruction, world, answers).0.stopped <==> instruction
            == Instruction::Stop,
        instruction == Instruction::Stop ==> core.effect(s, pc, instruction, world, answers)
            == (State { stopped: true, counter: pc, ..s }, Flow::Yield),
{
    lemma_effect_frame(core, s, pc, instruction, world, answers);
}


/// The index, among all buildings of a machine, of the building that a
/// tile names.
pub open spec fn index_of<U: FloatUnit>(vm: &LogicVM<'_, U>, t: Tile) -> int {
    if t.processor {
        t.slot as int
    } else {
        vm.processors@.len() + t.slot
    }
}

/// The processors are exactly the first buildings.
pub proof fn law_processors_come_first<U: FloatUnit>(vm: &LogicVM<'_, U>, i: int)
    requires
        vm.wf(),
        0 <= i < vm.buildings().len(),
    ensures
        vm.buildings()[i].is_processor() <==> i < vm.total_processors(),
{
    if i < vm.processors@.len() {
        assert(vm.processors@[i].is_processor());
    } else {
        assert(!vm.others@[i - vm.processors@.len()].is_processor());
    }
}

/// Every tile that a building covers names the building.
pub proof fn law_tiles_name_their_building<U: FloatUnit>(
    vm: &LogicVM<'_, U>,
    i: int,
    x: int,
    y: int,
)
    requires
        vm.wf(),
        0 <= i < vm.buildings().len(),
        vm.buildings()[i].place().covers(&vm.world.catalog, x, y),
    ensures
        vm.world.tiles@.contains_key(tile_key(x, y)),
        index_of(vm, vm.world.tiles@[tile_key(x, y)]) == i,
        vm.world.tiles@[tile_key(x, y)].block == vm.buildings()[i].block,
{
    assert(vm.processors.len() == vm.processors@.len());
    assert(vm.others.len() == vm.others@.len());
    if i < vm.processors@.len() {
        assert(places(vm.processors@)[i].covers(&vm.world.catalog, x, y));
    } else {
        assert(places(vm.others@)[i - vm.processors@.len()].covers(&vm.world.catalog, x, y));
    }
}

/// A building of edge `s` that is placed takes the `s * s` tiles of its
/// square, each of which then names it, and no other tile changes.
pub proof fn law_placing_takes_a_square<U: FloatUnit>(
    before: &LogicVM<'_, U>,
    after: &LogicVM<'_, U>,
    building: Building,
)
    requires
        before.wf(),
        building.wf(&before.world.catalog),
        before.free_for(building),
        before.with_building(after, building),
    ensures
        ({
            let s = before.world.catalog.blocks@[building.block as int].size as int;
            &&& s >= 1
            &&& after.world.tiles@.dom().len() == before.world.tiles@.dom().len() + s * s
            &&& forall|x: int, y: int|
                building.place().covers(&before.world.catalog, x, y)
                    ==> after.world.tiles@.contains_key(#[trigger] tile_key(x, y))
                    && after.world.tiles@[tile_key(x, y)] == before.tile_for(building)
            &&& forall|k: u64| #[trigger]
                before.world.tiles@.contains_key(k) ==> after.world.tiles@.contains_key(k)
                    && after.world.tiles@[k] == before.world.tiles@[k]
            &&& forall|k: u64| #[trigger]
                after.world.tiles@.contains_key(k) ==> before.world.tiles@.contains_key(k)
                    || building.place().covers(&before.world.catalog, grid::key_x(k), grid::key_y(k))
        }),
{
    broadcast use vstd::std_specs::hash::group_hash_axioms;

    let catalog = &before.world.catalog;
    let s = catalog.blocks@[building.block as int].size as int;
    let x0 = building.position.x as int;
    let y0 = building.position.y as int;
    let tile = before.tile_for(building);
    let added = grid::square(x0, y0, s, tile);
    let old_keys = before.world.tiles@.dom();
    grid::law_square_counts(x0, y0, s, tile);
    assert forall|k: u64| #![auto] tile_key(grid::key_x(k), grid::key_y(k)) == k by {
        grid::lemma_key_of_named(k);
    }
    assert forall|x: int, y: int|
        building.place().covers(
            catalog,
            x,
            y,
        ) implies after.world.tiles@.contains_key(#[trigger] tile_key(x, y))
        && after.world.tiles@[tile_key(x, y)] == tile by {
        grid::lemma_key_inverse(x, y);
    }
    assert(old_keys.disjoint(added.dom())) by {
        assert forall|k: u64| !(old_keys.contains(k) && added.dom().contains(k)) by {
            if added.dom().contains(k) {
                assert(building.place().covers(catalog, grid::key_x(k), grid::key_y(k)));
            }
        }
    }
    assert(after.world.tiles@.dom() =~= old_keys + added.dom());
    vstd::set_lib::lemma_set_disjoint_lens(old_keys, added.dom());
}

/// Every tile names a building that covers it.
pub proof fn law_tiles_are_covered<U: FloatUnit>(vm: &LogicVM<'_, U>, k: u64)
    requires
        vm.wf(),
        vm.world.tiles@.contains_key(k),
    ensures
        0 <= index_of(vm, vm.world.tiles@[k]) < vm.buildings().len(),
        vm.buildings()[index_of(vm, vm.world.tiles@[k])].place().covers(
            &vm.world.catalog,
            grid::key_x(k),
            grid::key_y(k),
        ),
{
    let t = vm.world.tiles@[k];
    if t.processor {
        assert(places(vm.processors@)[t.slot as int] == vm.processors@[t.slot as int].place());
    } else {
        assert(places(vm.others@)[t.slot as int] == vm.others@[t.slot as int].place());
    }
}

/// No tile is covered by two buildings.
pub proof fn law_buildings_do_not_overlap<U: FloatUnit>(
    vm: &LogicVM<'_, U>,
    i: int,
    j: int,
    x: int,
    y: int,
)
    requires
        vm.wf(),
        0 <= i < vm.buildings().len(),
        0 <= j < vm.buildings().len(),
        vm.buildings()[i].place().covers(&vm.world.catalog, x, y),
        vm.buildings()[j].place().covers(&vm.world.catalog, x, y),
    ensures
        i == j,
{
    law_tiles_name_their_building(vm, i, x, y);
    law_tiles_name_their_building(vm, j, x, y);
}

/// A tile is occupied exactly where a building covers it.
pub proof fn law_occupied_is_covered<U: FloatUnit>(vm: &LogicVM<'_, U>, p: Point2)
    requires
        vm.wf(),
    ensures
        vm.world.occupied(p) <==> vm.covered(p),
{
    grid::lemma_key_inverse(p.x as int, p.y as int);
    if vm.world.occupied(p) {
        law_tiles_are_covered(vm, p.key());
        let i = index_of(vm, vm.world.tiles@[p.key()]);
        assert(vm.buildings()[i].place().covers(&vm.world.catalog, p.x as int, p.y as int));
    }
    if vm.covered(p) {
        let i = choose|i: int|
            0 <= i < vm.buildings().len() && (#[trigger] vm.buildings()[i]).place().covers(
                &vm.world.catalog,
                p.x as int,
                p.y as int,
            );
        law_tiles_name_their_building(vm, i, p.x as int, p.y as int);
    }
}

/// The budget that a number asks for is its floor, held to the range of
/// budgets.
pub proof fn law_rate_is_the_floor(bits: u64)
    requires
        number::finite(bits),
        !number::settled(bits),
    ensures
        rate_of(bits) == if number::floor_int(bits) < 1 {
            1
        } else if number::floor_int(bits) > MAX_IPT {
            MAX_IPT
        } else {
            number::floor_int(bits) as usize
        },
{
    let s = (-number::scale(bits)) as nat;
    lemma_pow2_pos(s);
    if number::significand(bits) > 0 {
        lemma_div_pos_is_pos(number::significand(bits), pow2(s) as int);
    }
    assert(number::whole(bits) >= 0);
}

} // verus!
