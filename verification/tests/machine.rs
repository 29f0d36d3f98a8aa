use std::borrow::Cow;
use std::time::Duration;

use logic_vm::building::{
    Building, BuildingData, ConfigShape, ProcessorConfig, ProcessorLink, Schematic, SchematicTile,
    TileConfig,
};
use logic_vm::catalog::{
    Block, BlockKind, Catalog, LookupKind, NamedColor, ProcessorKind, HYPER_PROCESSOR,
    LOGIC_PROCESSOR, MICRO_PROCESSOR, WORLD_PROCESSOR,
};
use logic_vm::clock::{bounded, nanos_since};
use logic_vm::color;
use logic_vm::error::{DecodeFault, VMLoadError};
use logic_vm::instruction::{Flow, Instruction, LVar};
use logic_vm::number;
use logic_vm::point::{PackedPoint2, Point2};
use logic_vm::processor::Processor;
use logic_vm::unit::{ask, Answer, Arg, BinaryFn, FloatUnit, Request, UnaryFn};
use logic_vm::value::{Content, ContentKind, LValue, Team};
use logic_vm::variables;
use logic_vm::vm::LogicVM;
use logic_vm::world::{Clock, Tile};
use noise::{NoiseFn, Simplex};

#[derive(Default)]
struct Native;

impl FloatUnit for Native {
    fn unary(&self, f: UnaryFn, x: u64) -> u64 {
        let x = f64::from_bits(x);
        let r = match f {
            UnaryFn::Ln => x.ln(),
            UnaryFn::Log10 => x.log10(),
            UnaryFn::Sqrt => x.sqrt(),
            UnaryFn::Sin => x.sin(),
            UnaryFn::Cos => x.cos(),
            UnaryFn::Tan => x.tan(),
            UnaryFn::Asin => x.asin(),
            UnaryFn::Acos => x.acos(),
            UnaryFn::Atan => x.atan(),
        };
        r.to_bits()
    }

    fn binary(&self, f: BinaryFn, x: u64, y: u64) -> u64 {
        let x = f64::from_bits(x);
        let y = f64::from_bits(y);
        let r = match f {
            BinaryFn::Add => x + y,
            BinaryFn::Sub => x - y,
            BinaryFn::Mul => x * y,
            BinaryFn::Div => x / y,
            BinaryFn::Rem => x % y,
            BinaryFn::RemEuclid => x.rem_euclid(y),
            BinaryFn::Pow => x.powf(y),
            BinaryFn::Atan2 => x.atan2(y),
            BinaryFn::Hypot => x.hypot(y),
            BinaryFn::Noise => Simplex::new(0).get([x, y]),
        };
        r.to_bits()
    }

    fn parse(&self, literal: &str) -> Option<u64> {
        literal.parse::<f64>().ok().map(f64::to_bits)
    }

    fn format(&self, x: u64) -> String {
        format!("{}", f64::from_bits(x))
    }
}

fn names(first: &str, last: &str, prefix: &str, n: usize) -> Vec<String> {
    (0..n)
        .map(|i| {
            if i == 0 {
                first.to_string()
            } else if i == n - 1 {
                last.to_string()
            } else {
                format!("{prefix}-{i}")
            }
        })
        .collect()
}

fn catalog() -> Catalog {
    let mut blocks: Vec<Block> = names("graphite-press", "tile-logic-display", "block", 260)
        .into_iter()
        .map(|name| Block { name, size: 1, kind: BlockKind::Plain })
        .collect();
    blocks[0].size = 2;
    blocks[100] = Block {
        name: MICRO_PROCESSOR.to_string(),
        size: 1,
        kind: BlockKind::Processor(ProcessorKind::Micro),
    };
    blocks[101] = Block {
        name: "logic-processor".to_string(),
        size: 2,
        kind: BlockKind::Processor(ProcessorKind::Logic),
    };
    blocks[102] = Block {
        name: HYPER_PROCESSOR.to_string(),
        size: 3,
        kind: BlockKind::Processor(ProcessorKind::Hyper),
    };
    blocks[103] = Block {
        name: WORLD_PROCESSOR.to_string(),
        size: 1,
        kind: BlockKind::Processor(ProcessorKind::World),
    };
    let items = [
        "copper",
        "lead",
        "metaglass",
        "graphite",
        "sand",
        "coal",
        "titanium",
        "thorium",
        "scrap",
        "silicon",
        "plastanium",
        "phase-fabric",
        "surge-alloy",
        "spore-pod",
        "blast-compound",
        "pyratite",
        "beryllium",
        "tungsten",
        "oxide",
        "carbide",
    ];
    Catalog {
        blocks,
        items: items.iter().map(|s| s.to_string()).collect(),
        liquids: names("water", "arkycite", "liquid", 11),
        units: names("dagger", "emanate", "unit", 56),
        colors: vec![
            NamedColor { name: "white".to_string(), rgba: 0xffffffff },
            NamedColor { name: "royal".to_string(), rgba: 0x4169e1ff },
            NamedColor { name: "clear".to_string(), rgba: 0 },
        ],
    }
}

fn nanos(d: Duration) -> i64 {
    d.as_nanos() as i64
}

fn number(x: f64) -> LValue {
    LValue::Number(x.to_bits())
}

fn num(v: LValue) -> f64 {
    match v {
        LValue::Number(bits) => f64::from_bits(bits),
        LValue::Null => 0.0,
        _ => 1.0,
    }
}

/// Equality of values as the doubles compare: the two zeros are one number.
fn same(got: LValue, want: LValue) -> bool {
    match (got, want) {
        (LValue::Number(a), LValue::Number(b)) => f64::from_bits(a) == f64::from_bits(b),
        _ => got == want,
    }
}

fn single_processor_vm(name: &str, code: &str) -> LogicVM<'static, Native> {
    let mut vm = LogicVM::new(catalog(), Native);
    let building = Building::from_processor_config(
        name,
        Point2::new(0, 0),
        &ProcessorConfig::from_code(code),
        &vm,
    )
    .unwrap();
    vm.add_building(building).unwrap();
    vm
}

fn single_processor_vm_with_globals<'a>(
    name: &str,
    code: &str,
    globals: &'a variables::Globals,
) -> LogicVM<'a, Native> {
    let mut vm = LogicVM::new_with_globals(Cow::Borrowed(globals), catalog(), Native);
    let building = Building::from_processor_config(
        name,
        Point2::new(0, 0),
        &ProcessorConfig::from_code(code),
        &vm,
    )
    .unwrap();
    vm.add_building(building).unwrap();
    vm
}

fn run(vm: &mut LogicVM<'_, Native>, max_ticks: usize, want: bool) {
    assert_eq!(
        vm.run(Some(max_ticks)),
        want,
        "VM took {cmp}{max_ticks} tick{s} to finish",
        cmp = if want { ">=" } else { "<" },
        s = if max_ticks == 1 { "" } else { "s" },
    );
}

fn take_processor(vm: &mut LogicVM<'_, Native>, idx: usize) -> Processor {
    vm.processor(idx).clone()
}

fn variable(p: &Processor, name: &str) -> LValue {
    p.variable(name).unwrap()
}

fn decode_printbuffer(p: &Processor) -> String {
    String::from_utf16_lossy(&p.state.printbuffer)
}


fn buffer(vm: &LogicVM<'_, Native>, idx: usize) -> String {
    decode_printbuffer(vm.processor(idx))
}

fn load_error(name: &str, code: &str) -> VMLoadError {
    let vm = LogicVM::new(catalog(), Native);
    match Building::from_processor_config(
        name,
        Point2::new(0, 0),
        &ProcessorConfig::from_code(code),
        &vm,
    ) {
        Ok(_) => panic!("{code:?} was loaded"),
        Err(e) => e,
    }
}

fn fault(code: &str) -> (DecodeFault, usize) {
    let catalog = catalog();
    let globals = variables::Globals::create(&catalog);
    let base = logic_vm::decoder::linked(Point2::new(0, 0), &Vec::new());
    match logic_vm::decoder::decode(code, base, &globals, &catalog, &Native) {
        Ok(_) => panic!("{code:?} was decoded"),
        Err(e) => e,
    }
}

#[test]
fn time_never_goes_back() {
    let mut vm = single_processor_vm(MICRO_PROCESSOR, "noop");
    let mut last = vm.world.time;
    for delta in [0, 5, -3, i64::MIN, 1_000_000, -1, 0, i64::MAX, i64::MAX, i64::MAX, -7, 1] {
        vm.do_tick(delta);
        assert!(vm.world.time >= last);
        if delta <= 0 {
            assert_eq!(vm.world.time, last);
        }
        last = vm.world.time;
    }
    assert_eq!(last, u64::MAX);
}

#[test]
fn time_adds_up_the_deltas() {
    let mut vm = single_processor_vm(MICRO_PROCESSOR, "noop");
    vm.do_tick(500_000_000);
    vm.do_tick(-1);
    vm.do_tick(250_000_000);
    assert_eq!(vm.world.time, 750_000_000);
    assert_eq!(vm.world.clock.time, number(750.));
    assert_eq!(vm.world.clock.second, number(0.75));
    assert_eq!(vm.world.clock.tick, number(45.));
}

#[test]
fn clock_is_read_by_programs() {
    let mut vm = single_processor_vm(
        HYPER_PROCESSOR,
        "set t @time; set s @second; set k @tick; stop",
    );
    vm.do_tick(2_000_000_000);
    let p = vm.processor(0);
    assert_eq!(variable(p, "t"), number(2000.));
    assert_eq!(variable(p, "s"), number(2.));
    assert_eq!(variable(p, "k"), number(120.));
}

#[test]
fn a_tick_runs_at_most_the_budget() {
    for (name, ipt) in [
        (MICRO_PROCESSOR, 2),
        (LOGIC_PROCESSOR, 8),
        (HYPER_PROCESSOR, 25),
        (WORLD_PROCESSOR, 1000),
    ] {
        let vm = single_processor_vm(name, "op add n n 1");
        let mut p = vm.processor(0).clone();
        assert_eq!(p.state.ipt, ipt);
        let steps = p.do_tick(&vm.world, &vm.unit);
        assert_eq!(steps, ipt);
        assert_eq!(variable(&p, "n"), number(ipt as f64));
        let steps = p.do_tick(&vm.world, &vm.unit);
        assert_eq!(steps, ipt);
        assert_eq!(variable(&p, "n"), number(2. * ipt as f64));
    }
}

#[test]
fn a_tick_ends_early_where_an_instruction_yields() {
    let vm = single_processor_vm(HYPER_PROCESSOR, "op add n n 1; op add n n 1; end");
    let mut p = vm.processor(0).clone();
    assert_eq!(p.do_tick(&vm.world, &vm.unit), 3);
    assert_eq!(variable(&p, "n"), number(2.));

    let vm = single_processor_vm(HYPER_PROCESSOR, "op add n n 1; stop; op add n n 1");
    let mut p = vm.processor(0).clone();
    assert_eq!(p.do_tick(&vm.world, &vm.unit), 2);
    assert_eq!(p.do_tick(&vm.world, &vm.unit), 0);
    assert_eq!(variable(&p, "n"), number(1.));

    let vm = single_processor_vm(HYPER_PROCESSOR, "op add n n 1; wait 1; op add n n 1");
    let mut p = vm.processor(0).clone();
    assert_eq!(p.do_tick(&vm.world, &vm.unit), 2);
    assert_eq!(p.do_tick(&vm.world, &vm.unit), 0);
    assert_eq!(variable(&p, "n"), number(1.));
}

#[test]
fn budget_of_the_tick_is_the_budget_at_its_start() {
    let mut vm = single_processor_vm(WORLD_PROCESSOR, "setrate 2; op add n n 1");
    vm.do_tick(0);
    assert_eq!(vm.processor(0).state.ipt, 2);
    assert_eq!(variable(vm.processor(0), "n"), number(500.));
    vm.do_tick(0);
    assert_eq!(variable(vm.processor(0), "n"), number(501.));
}

#[test]
fn counter_wraps_after_the_last_instruction() {
    let mut vm = single_processor_vm(MICRO_PROCESSOR, "noop\nnoop");
    vm.do_tick(0);
    assert_eq!(vm.processor(0).state.counter, 0);

    let mut vm = single_processor_vm(MICRO_PROCESSOR, "noop\nprint 1\nnoop");
    vm.do_tick(0);
    assert_eq!(vm.processor(0).state.counter, 2);
    vm.do_tick(0);
    assert_eq!(vm.processor(0).state.counter, 1);
    assert_eq!(buffer(&vm, 0), "1");
    vm.do_tick(0);
    assert_eq!(vm.processor(0).state.counter, 0);
    assert_eq!(buffer(&vm, 0), "11");
}

#[test]
fn colors_round_trip() {
    for k in 0..=255u8 {
        let bits = color::pack(k, 255 - k, k ^ 0x5a, k.wrapping_mul(7));
        assert_eq!(color::unpack(bits), (k, 255 - k, k ^ 0x5a, k.wrapping_mul(7)));
        let channel = color::to_share(k);
        assert_eq!(f64::from_bits(channel), k as f64 / 255.);
        assert_eq!(color::to_byte(color::clamp_unit(channel)), k);
    }
    assert_eq!(color::pack(0x41, 0x69, 0xe1, 0xff), 0x4169e1ff);
    assert_eq!(color::unpack(0x4169e1ff), (0x41, 0x69, 0xe1, 0xff));
    assert_eq!(color::unpack(0xffff_ffff_0102_0304), (1, 2, 3, 4));
}

#[test]
fn colors_round_trip_through_programs() {
    for k in 0u32..=255 {
        let mut vm = single_processor_vm(
            HYPER_PROCESSOR,
            &format!(
                "op div c {k} 255
                packcolor p c c c c
                unpackcolor r g b a p
                stop"
            ),
        );
        run(&mut vm, 1, true);
        let p = vm.processor(0);
        let want = number(k as f64 / 255.);
        assert_eq!(variable(p, "p"), LValue::Number((k * 0x01010101) as u64));
        assert_eq!(variable(p, "r"), want);
        assert_eq!(variable(p, "g"), want);
        assert_eq!(variable(p, "b"), want);
        assert_eq!(variable(p, "a"), want);
    }
}

#[test]
fn channels_are_held_to_their_range() {
    let mut vm = single_processor_vm(HYPER_PROCESSOR, "packcolor p -1 2 0.999 1e300; stop");
    run(&mut vm, 1, true);
    assert_eq!(variable(vm.processor(0), "p"), LValue::Number(0x00fffeff));
    assert_eq!(color::clamp_unit((-0.5f64).to_bits()), 0);
    assert_eq!(color::clamp_unit(1.5f64.to_bits()), number::ONE);
    assert_eq!(color::clamp_unit(0.25f64.to_bits()), 0.25f64.to_bits());
    assert_eq!(color::to_byte(1f64.to_bits()), 255);
    assert_eq!(color::to_byte(2f64.to_bits()), 255);
    assert_eq!(color::to_byte(1e300f64.to_bits()), 255);
    assert_eq!(color::to_byte(f64::INFINITY.to_bits()), 255);
    assert_eq!(color::to_byte(0), 0);
    assert_eq!(color::to_byte((-0f64).to_bits()), 0);
    assert_eq!(color::to_byte(5e-324f64.to_bits()), 0);
    assert_eq!(color::to_byte(1e-300f64.to_bits()), 0);
}

#[test]
fn a_channel_is_the_whole_part_of_the_product() {
    let channel = |x: f64| (x * 255.0) as u8;
    for x in [
        0.0,
        0.5,
        0.75,
        0.999,
        0.9999999999999999,
        1.0,
        1.0 / 255.0,
        0.00392156862745098,
        0.003921568627450981,
        0.0039215686274509795,
        0.49803921568627446,
        0.4980392156862745,
        0.49803921568627457,
        0.99607843137254892,
        0.996078431372549,
        0.9960784313725491,
        f64::MIN_POSITIVE,
        1e-10,
    ] {
        assert_eq!(color::to_byte(x.to_bits()), channel(x), "{x}");
    }
    let mut seed: u64 = 0x9e37_79b9_7f4a_7c15;
    for _ in 0..200_000 {
        seed ^= seed << 13;
        seed ^= seed >> 7;
        seed ^= seed << 17;
        let x = (seed >> 11) as f64 / (1u64 << 53) as f64;
        assert_eq!(color::to_byte(x.to_bits()), channel(x), "{x}");
        let k = (seed % 256) as f64;
        for near in [k / 255.0, (k + 1.0) / 255.0 - 2e-17, k / 255.0 + 1e-17] {
            let y = near.clamp(0.0, 1.0);
            assert_eq!(color::to_byte(y.to_bits()), channel(y), "{y}");
        }
        let neighbour = f64::from_bits((k / 255.0).to_bits().wrapping_add(seed >> 62));
        if (0.0..=1.0).contains(&neighbour) {
            assert_eq!(color::to_byte(neighbour.to_bits()), channel(neighbour), "{neighbour}");
        }
        let below = f64::from_bits((k / 255.0).to_bits().saturating_sub(seed >> 61));
        assert_eq!(color::to_byte(below.to_bits()), channel(below), "{below}");
    }
}

#[test]
fn equal_compares_with_a_margin() {
    for (x, y, want) in [
        ("0", "0.0000009", true),
        ("0", "0.000001", false),
        ("0", "-0.0000009", true),
        ("0", "-0.000001", false),
        ("1000", "1000.0000009", true),
        ("1000", "1000.000002", false),
        ("-5", "-5.0000005", true),
        ("1e308", "-1e308", false),
        ("1e308", "1e308", true),
        ("null", "0.0000001", true),
        ("3", "\"\"", true),
        ("\"x\"", "0", true),
        ("null", "\"x\"", false),
        ("@copper", "@copper", true),
        ("@copper", "@lead", false),
        ("@copper", "1", false),
    ] {
        let mut vm = single_processor_vm(
            HYPER_PROCESSOR,
            &format!("op equal a {x} {y}; op notEqual b {x} {y}; stop"),
        );
        run(&mut vm, 1, true);
        let p = vm.processor(0);
        assert_eq!(variable(p, "a"), number(if want { 1. } else { 0. }), "equal {x} {y}");
        assert_eq!(variable(p, "b"), number(if want { 0. } else { 1. }), "notEqual {x} {y}");
    }
}

#[test]
fn lookup_is_null_outside_the_catalog() {
    let catalog = catalog();
    for (kind, size) in [
        (LookupKind::Block, 260),
        (LookupKind::Item, 20),
        (LookupKind::Liquid, 11),
        (LookupKind::Unit, 56),
        (LookupKind::Team, 256),
    ] {
        assert_eq!(catalog.count(kind), size);
        for i in -3..(size as i64 + 3) {
            let v = catalog.lookup(kind, i);
            assert_eq!(v != LValue::Null, 0 <= i && i < size as i64, "{kind:?} {i}");
        }
        assert_eq!(catalog.lookup(kind, i64::MIN), LValue::Null);
        assert_eq!(catalog.lookup(kind, i64::MAX), LValue::Null);
    }
    assert_eq!(
        catalog.lookup(LookupKind::Item, 3),
        LValue::Content(Content { kind: ContentKind::Item, id: 3 })
    );
    assert_eq!(catalog.lookup(LookupKind::Team, 1), LValue::Team(Team::Sharded));
    assert_eq!(catalog.lookup(LookupKind::Team, 5), LValue::Team(Team::Blue));
    assert_eq!(catalog.lookup(LookupKind::Team, 6), LValue::Team(Team::Unknown(6)));
}

#[test]
fn lookup_truncates_its_index() {
    let mut vm = single_processor_vm(
        HYPER_PROCESSOR,
        "lookup item a 19.9; lookup item b -0.5; lookup item c 20.0; lookup item d \"x\"; stop",
    );
    run(&mut vm, 1, true);
    let p = vm.processor(0);
    assert_eq!(variable(p, "a"), LValue::Content(Content { kind: ContentKind::Item, id: 19 }));
    assert_eq!(variable(p, "b"), LValue::Content(Content { kind: ContentKind::Item, id: 0 }));
    assert_eq!(variable(p, "c"), LValue::Null);
    assert_eq!(variable(p, "d"), LValue::Content(Content { kind: ContentKind::Item, id: 1 }));
}

#[test]
fn constants_are_immutable() {
    let mut vm = single_processor_vm(
        HYPER_PROCESSOR,
        "set true 0
        set false 1
        set @pi 3
        set null 5
        set 7 8
        set \"text\" 9
        op add @e 1 1
        set @time 3
        set @this 4
        set @itemCount 0
        set a true
        set b false
        set c @pi
        set d null
        set e @e
        set f 7
        set g @itemCount
        stop",
    );
    let before = vm.processor(0).state.slots.len();
    run(&mut vm, 1, true);
    let p = vm.processor(0);
    assert_eq!(p.state.slots.len(), before);
    assert_eq!(before, 7);
    for name in ["true", "false", "@pi", "null", "@e", "@time", "@this", "@itemCount", "7"] {
        assert_eq!(p.core.program.lookup(name), None, "{name}");
    }
    assert_eq!(variable(p, "a"), number(1.));
    assert_eq!(variable(p, "b"), number(0.));
    assert_eq!(variable(p, "c"), number(std::f32::consts::PI.into()));
    assert_eq!(variable(p, "d"), LValue::Null);
    assert_eq!(variable(p, "e"), number(std::f32::consts::E.into()));
    assert_eq!(variable(p, "f"), number(7.));
    assert_eq!(variable(p, "g"), number(20.));
}

#[test]
fn print_buffer_holds_at_most_its_capacity() {
    let mut vm = single_processor_vm(
        WORLD_PROCESSOR,
        "print \"0123456789abcdefghijklmnopqrstuvwxyz\"
        printchar 65
        print 123456789
        format \"0123456789abcdefghijklmnopqrstuvwxyz\"
        print \"{3} {1}\"",
    );
    for _ in 0..4 {
        vm.do_tick(0);
        assert!(vm.processor(0).state.printbuffer.len() <= 400);
    }
    assert_eq!(vm.processor(0).state.printbuffer.len(), 400);

    let mut vm = single_processor_vm(HYPER_PROCESSOR, "print \"{0}\"; format \"xyz\"; stop");
    for _ in 0..150 {
        vm.set_stopped(0, false);
        vm.set_counter(0, 0);
        vm.do_tick(0);
    }
    assert_eq!(buffer(&vm, 0).len(), 400);
    assert!(buffer(&vm, 0).starts_with("xyzxyzxyz"));
    assert!(buffer(&vm, 0).ends_with("xyzxyz{"));
}

#[test]
fn format_cuts_what_does_not_fit() {
    let filler = "x".repeat(395);
    let mut vm = single_processor_vm(
        HYPER_PROCESSOR,
        &format!("print \"{{0}}{filler}\"; format \"123456789\"; stop"),
    );
    run(&mut vm, 1, true);
    let text = buffer(&vm, 0);
    assert_eq!(text.len(), 400);
    assert!(text.starts_with("123456789xxx"));
}

#[test]
fn scenario_stop_after_two_ticks() {
    let mut vm = single_processor_vm(MICRO_PROCESSOR, "noop\nnoop\nstop");
    assert_eq!(vm.processor(0).state.ipt, 2);
    vm.do_tick(0);
    assert_eq!(vm.processor(0).state.counter, 2);
    assert!(!vm.processor(0).stopped());
    assert_eq!(vm.running_processors, 1);
    assert!(vm.run(Some(1)));
    assert_eq!(vm.processor(0).state.counter, 2);
    assert!(vm.processor(0).stopped());
    assert_eq!(vm.running_processors, 0);
}

#[test]
fn scenario_end_restarts_at_the_top() {
    let mut vm = single_processor_vm(MICRO_PROCESSOR, "print 1\nend\nprint 2");
    vm.do_tick(0);
    assert_eq!(buffer(&vm, 0), "1");
    vm.do_tick(0);
    assert_eq!(buffer(&vm, 0), "11");
    assert_eq!(vm.processor(0).state.counter, 0);
}

#[test]
fn scenario_wait_then_print() {
    let mut vm = single_processor_vm(HYPER_PROCESSOR, "wait 1\nprint \"x\"\nstop");
    vm.do_tick(0);
    assert_eq!(buffer(&vm, 0), "");
    assert_eq!(vm.processor(0).state.wait_until, Some(1_000_000_000));
    vm.do_tick(nanos(Duration::from_millis(500)));
    assert_eq!(buffer(&vm, 0), "");
    vm.do_tick(nanos(Duration::from_millis(500)));
    assert_eq!(buffer(&vm, 0), "x");
    assert!(vm.processor(0).stopped());
    assert_eq!(vm.processor(0).state.wait_until, None);
}

#[test]
fn wait_counts_from_the_tick_that_runs_it() {
    let mut vm = single_processor_vm(HYPER_PROCESSOR, "wait 1\nprint \"x\"\nstop");
    vm.do_tick(nanos(Duration::from_millis(500)));
    assert_eq!(vm.processor(0).state.wait_until, Some(1_500_000_000));
    vm.do_tick(nanos(Duration::from_millis(500)));
    assert_eq!(buffer(&vm, 0), "");
    vm.do_tick(0);
    assert_eq!(buffer(&vm, 0), "");
    vm.do_tick(nanos(Duration::from_millis(499)));
    assert_eq!(buffer(&vm, 0), "");
    vm.do_tick(nanos(Duration::from_millis(1)));
    assert_eq!(buffer(&vm, 0), "x");
}

#[test]
fn wait_without_end() {
    let mut vm = single_processor_vm(HYPER_PROCESSOR, "wait 1e300\nprint \"x\"");
    vm.do_tick(5);
    assert_eq!(vm.processor(0).state.wait_until, Some(u64::MAX));
    vm.do_tick(i64::MAX);
    assert_eq!(buffer(&vm, 0), "");
    vm.do_tick(i64::MAX);
    vm.do_tick(i64::MAX);
    assert_eq!(vm.world.time, u64::MAX);
    assert!(buffer(&vm, 0).starts_with('x'));
}

#[test]
fn scenario_pack_and_unpack() {
    let mut vm = single_processor_vm(
        HYPER_PROCESSOR,
        "packcolor p 0 0.5 0.75 1; unpackcolor r g b a p; stop",
    );
    run(&mut vm, 1, true);
    let p = vm.processor(0);
    assert_eq!(variable(p, "r"), number(0.));
    assert_eq!(variable(p, "g"), number(127. / 255.));
    assert_eq!(variable(p, "b"), number(191. / 255.));
    assert_eq!(variable(p, "a"), number(1.));
    match variable(p, "p") {
        LValue::Number(bits) => assert_eq!(bits & 0xffff_ffff, 0x007fbfff),
        other => panic!("{other:?}"),
    }
}

#[test]
fn scenario_shifts() {
    let mut vm = single_processor_vm(HYPER_PROCESSOR, "op shl a -2 1; op ushr b -2 1; stop");
    run(&mut vm, 1, true);
    let p = vm.processor(0);
    assert_eq!(variable(p, "a"), number(-4.));
    assert_eq!(variable(p, "b"), number(9223372036854775807i64 as f64));
}

#[test]
fn scenario_setrate() {
    let mut vm = single_processor_vm(WORLD_PROCESSOR, "setrate 5.5; stop");
    run(&mut vm, 1, true);
    assert_eq!(vm.processor(0).state.ipt, 5);

    let mut vm = single_processor_vm(MICRO_PROCESSOR, "setrate 10; stop");
    run(&mut vm, 1, true);
    assert_eq!(vm.processor(0).state.ipt, 2);
}

#[test]
fn setrate_is_held_to_its_range() {
    for (n, want) in [
        ("0", 1),
        ("-5", 1),
        ("1", 1),
        ("1.9", 1),
        ("2", 2),
        ("999.99", 999),
        ("1000", 1000),
        ("1001", 1000),
        ("1e300", 1000),
        ("null", 1),
        ("\"x\"", 1),
    ] {
        let mut vm = single_processor_vm(WORLD_PROCESSOR, &format!("setrate {n}; stop"));
        run(&mut vm, 1, true);
        assert_eq!(vm.processor(0).state.ipt, want, "setrate {n}");
    }
}

#[test]
fn budget_is_assigned_on_privileged_processors_only() {
    let mut vm = single_processor_vm(
        WORLD_PROCESSOR,
        "set @ipt 7; set n @ipt; set @ipt \"x\"; stop",
    );
    run(&mut vm, 1, true);
    assert_eq!(vm.processor(0).state.ipt, 7);
    assert_eq!(variable(vm.processor(0), "n"), number(7.));

    let mut vm = single_processor_vm(HYPER_PROCESSOR, "set @ipt 7; set n @ipt; stop");
    run(&mut vm, 1, true);
    assert_eq!(vm.processor(0).state.ipt, 25);
    assert_eq!(variable(vm.processor(0), "n"), number(25.));
}

#[test]
fn counter_is_assigned_modulo_the_program() {
    for (n, want) in [
        ("0", 0),
        ("2", 2),
        ("3", 3),
        ("4", 0),
        ("9", 1),
        ("-1", 0),
        ("2.9", 2),
        ("1e30", 3),
    ] {
        let mut vm = single_processor_vm(
            MICRO_PROCESSOR,
            &format!("set @counter {n}\nnoop\nnoop\nnoop"),
        );
        let mut p = vm.processor(0).clone();
        let (pc, instruction) = p.fetch();
        assert_eq!(pc, 0);
        let requests = p.requests_for(instruction, &vm.world);
        assert!(requests.is_empty());
        assert_eq!(p.perform(pc, instruction, &vm.world, &Vec::new()), Flow::Continue);
        let want = if n == "1e30" { (i64::MAX % 4) as usize } else { want };
        assert_eq!(p.state.counter, want, "set @counter {n}");
        vm.do_tick(0);
    }
    let mut vm = single_processor_vm(MICRO_PROCESSOR, "set x @counter\nset y @counter");
    vm.do_tick(0);
    assert_eq!(variable(vm.processor(0), "x"), number(1.));
    assert_eq!(variable(vm.processor(0), "y"), number(0.));
}

#[test]
fn jumps_go_to_labels_and_indices() {
    let mut vm = single_processor_vm(
        HYPER_PROCESSOR,
        "jump skip always
        print \"a\"
        skip:
        print \"b\"
        jump 5 lessThan 1 2
        print \"c\"
        print \"d\"
        jump last greaterThan 1 2
        print \"e\"
        stop
        last:",
    );
    run(&mut vm, 1, true);
    assert_eq!(buffer(&vm, 0), "bde");

    let mut vm = single_processor_vm(MICRO_PROCESSOR, "print 1\njump tail always\ntail:");
    vm.do_tick(0);
    vm.do_tick(0);
    assert_eq!(buffer(&vm, 0), "11");
}

#[test]
fn values_print_as_text() {
    let mut vm = LogicVM::new(catalog(), Native);
    vm.add_building(Building::unknown(Point2::new(5, 5), 0, ConfigShape::Empty)).unwrap();
    let config = ProcessorConfig {
        code: "print 1; print \" \"; print -20; print \" \"; print 0.25; print \" \"
            print 1e20; print \" \"; print -0; print \" \"; print 9007199254740993; print \" \"
            print @copper; print \" \"; print @dagger; print \" \"
            print @graphite-press; print \" \"
            lookup team t 0; print t; print \" \"; lookup team t 3; print t; print \" \"
            lookup team t 77; print t; print \" \"; print @this; print \" \"
            print press; print \" \"; print nothing; print \" \"; print @counter; print \" \"
            print 1e300; stop"
            .to_string(),
        links: vec![
            ProcessorLink { name: "press".to_string(), x: 5, y: 5 },
            ProcessorLink { name: "nothing".to_string(), x: 9, y: 9 },
        ],
    };
    let b = Building::from_processor_config(
        WORLD_PROCESSOR,
        Point2::new(0, 0),
        &config,
        &vm,
    ).unwrap();
    vm.add_building(b).unwrap();
    run(&mut vm, 1, true);
    let mut want = format!(
        "1 -20 0.25 100000000000000000000 0 9007199254740992 copper dagger graphite-press \
         derelict malis team#77 world-processor graphite-press null 34 {}",
        1e300
    );
    want.truncate(400);
    assert_eq!(buffer(&vm, 0), want);
}

#[test]
fn text_is_utf16() {
    let mut vm = single_processor_vm(HYPER_PROCESSOR, "print \"a♥𝄞\\\"\\\\\\n\"; stop");
    run(&mut vm, 1, true);
    assert_eq!(
        vm.processor(0).state.printbuffer,
        vec![0x61, 0x2665, 0xd834, 0xdd1e, 0x22, 0x5c, 0x0a]
    );
}

#[test]
fn links_are_constants() {
    let mut vm = LogicVM::new(catalog(), Native);
    vm.add_building(Building::unknown(Point2::new(-3, 2), 5, ConfigShape::Other)).unwrap();
    let config = ProcessorConfig {
        code: "set here there; set there 5; op add one there 0; op add none far 0
            op strictEqual same there here; set me @this; op equal self me @this; stop"
            .to_string(),
        links: vec![
            ProcessorLink { name: "there".to_string(), x: -4, y: 1 },
            ProcessorLink { name: "far".to_string(), x: 100, y: 100 },
        ],
    };
    let b = Building::from_processor_config(
        HYPER_PROCESSOR,
        Point2::new(1, 1),
        &config,
        &vm,
    ).unwrap();
    vm.add_building(b).unwrap();
    run(&mut vm, 1, true);
    let p = vm.processor(0);
    assert_eq!(variable(p, "there"), LValue::Building(Point2::new(-3, 2)));
    assert_eq!(variable(p, "here"), LValue::Building(Point2::new(-3, 2)));
    assert_eq!(variable(p, "far"), LValue::Building(Point2::new(101, 101)));
    assert_eq!(variable(p, "one"), number(1.));
    assert_eq!(variable(p, "none"), number(0.));
    assert_eq!(variable(p, "same"), number(1.));
    assert_eq!(variable(p, "me"), LValue::Building(Point2::new(1, 1)));
    assert_eq!(variable(p, "self"), number(1.));
    assert_eq!(
        p.core.program.lookup("there"),
        Some(LVar::Constant(LValue::Building(Point2::new(-3, 2)))),
    );
}

#[test]
fn buildings_stand_on_the_grid() {
    let mut vm = LogicVM::new(catalog(), Native);
    let micro = |vm: &LogicVM<'_, Native>, x, y| {
        Building::from_processor_config(
            MICRO_PROCESSOR,
            Point2::new(x, y),
            &ProcessorConfig::from_code("stop"),
            vm,
        ).unwrap()
    };
    vm.add_building(Building::unknown(Point2::new(0, 0), 0, ConfigShape::Empty)).unwrap();
    let b = micro(&vm, 2, 0);
    vm.add_building(b).unwrap();
    vm.add_building(Building::unknown(Point2::new(-1, -1), 7, ConfigShape::Other)).unwrap();
    let b = Building::from_processor_config(
        HYPER_PROCESSOR,
        Point2::new(3, 3),
        &ProcessorConfig::from_code("noop"),
        &vm,
    ).unwrap();
    vm.add_building(b).unwrap();

    assert_eq!(vm.processors.len(), 2);
    assert_eq!(vm.others.len(), 2);
    assert_eq!(vm.running_processors, 2);
    assert_eq!(vm.processors[0].position, Point2::new(2, 0));
    assert_eq!(vm.processors[1].position, Point2::new(3, 3));
    assert_eq!(vm.others[0].position, Point2::new(0, 0));
    assert_eq!(vm.others[1].position, Point2::new(-1, -1));
    assert_eq!(vm.world.tiles.len(), 4 + 1 + 1 + 9);

    for (x, y, want) in [
        (0, 0, Some(Point2::new(0, 0))),
        (1, 0, Some(Point2::new(0, 0))),
        (0, 1, Some(Point2::new(0, 0))),
        (1, 1, Some(Point2::new(0, 0))),
        (2, 1, None),
        (2, 0, Some(Point2::new(2, 0))),
        (3, 0, None),
        (-1, -1, Some(Point2::new(-1, -1))),
        (-1, 0, None),
        (0, -1, None),
        (3, 3, Some(Point2::new(3, 3))),
        (5, 5, Some(Point2::new(3, 3))),
        (5, 3, Some(Point2::new(3, 3))),
        (6, 3, None),
        (3, 6, None),
        (2, 2, None),
        (i32::MAX, i32::MAX, None),
        (i32::MIN, i32::MIN, None),
    ] {
        assert_eq!(vm.building(Point2::new(x, y)).map(|b| b.position), want, "({x}, {y})");
    }
    assert_eq!(
        vm.world.tile(Point2::new(4, 4)),
        Some(Tile { processor: true, slot: 1, block: 102 })
    );
    assert_eq!(
        vm.world.tile(Point2::new(1, 1)),
        Some(Tile { processor: false, slot: 0, block: 0 })
    );
    assert!(matches!(vm.building(Point2::new(4, 5)).unwrap().data, BuildingData::Processor(_)));
    assert!(matches!(
        vm.building(Point2::new(-1, -1)).unwrap().data,
        BuildingData::Unknown { config: ConfigShape::Other }
    ));
}

#[test]
fn overlapping_buildings_are_refused() {
    let mut vm = LogicVM::new(catalog(), Native);
    vm.add_building(Building::unknown(Point2::new(2, 2), 1, ConfigShape::Empty)).unwrap();
    let hyper = |vm: &LogicVM<'_, Native>, x, y| {
        Building::from_processor_config(
            HYPER_PROCESSOR,
            Point2::new(x, y),
            &ProcessorConfig::from_code("noop"),
            vm,
        ).unwrap()
    };
    for (x, y) in [(0, 0), (2, 2), (1, 2), (2, 0), (0, 2), (2, 1)] {
        let b = hyper(&vm, x, y);
        match vm.add_building(b) {
            Err(VMLoadError::Overlap(p)) => assert_eq!(p, Point2::new(2, 2)),
            other => panic!("{other:?}"),
        }
        assert_eq!(vm.processors.len(), 0);
        assert_eq!(vm.others.len(), 1);
        assert_eq!(vm.world.tiles.len(), 1);
        assert_eq!(vm.running_processors, 0);
    }
    let b = hyper(&vm, 3, 0);
    vm.add_building(b).unwrap();
    let b = hyper(&vm, 1, 1);
    match vm.add_building(b) {
        Err(VMLoadError::Overlap(p)) => assert_eq!(p, Point2::new(2, 2)),
        other => panic!("{other:?}"),
    }
    let b = hyper(&vm, 1, -2);
    match vm.add_building(b) {
        Err(VMLoadError::Overlap(p)) => assert_eq!(p, Point2::new(3, 0)),
        other => panic!("{other:?}"),
    }
    let b = hyper(&vm, -1, 3);
    vm.add_building(b).unwrap();
    assert_eq!(vm.processors.len(), 2);
    assert_eq!(vm.world.tiles.len(), 19);
}

#[test]
fn add_buildings_stops_at_the_first_overlap() {
    let mut vm = LogicVM::new(catalog(), Native);
    let r = vm.add_buildings(vec![
        Building::unknown(Point2::new(0, 0), 1, ConfigShape::Empty),
        Building::unknown(Point2::new(1, 0), 1, ConfigShape::Empty),
        Building::unknown(Point2::new(0, 0), 2, ConfigShape::Empty),
        Building::unknown(Point2::new(2, 0), 1, ConfigShape::Empty),
    ]);
    assert!(matches!(r, Err(VMLoadError::Overlap(Point2 { x: 0, y: 0 }))));
    assert_eq!(vm.others.len(), 2);
    let r = vm.add_buildings(vec![
        Building::unknown(Point2::new(2, 0), 1, ConfigShape::Empty),
        Building::unknown(Point2::new(3, 0), 1, ConfigShape::Empty),
    ]);
    assert!(r.is_ok());
    assert_eq!(vm.others.len(), 4);
}

#[test]
fn schematics_are_loaded() {
    let tile = |block: &str, x, y, config| SchematicTile {
        block: block.to_string(),
        position: PackedPoint2 { x, y },
        config,
        rotation: 0,
    };
    let schematic = Schematic {
        tiles: vec![
            tile("graphite-press", 0, 0, TileConfig::Empty),
            tile(
                MICRO_PROCESSOR,
                5,
                5,
                TileConfig::Processor(ProcessorConfig::from_code("print 1; stop")),
            ),
            tile("block-7", -2, 4, TileConfig::Other),
            tile(LOGIC_PROCESSOR, 7, 7, TileConfig::Empty),
            tile(WORLD_PROCESSOR, 2, 0, TileConfig::Other),
            tile(
                "block-8",
                3,
                0,
                TileConfig::Processor(ProcessorConfig::from_code("not code at all")),
            ),
        ],
    };
    let mut vm = LogicVM::from_schematic(&schematic, catalog(), Native).unwrap();
    assert_eq!(schematic.tiles().len(), 6);
    assert_eq!(vm.processors.len(), 3);
    assert_eq!(vm.others.len(), 3);
    assert_eq!(vm.running_processors, 3);
    assert_eq!(vm.processor(0).state.ipt, 2);
    assert_eq!(vm.processor(1).state.ipt, 8);
    assert_eq!(vm.processor(2).state.ipt, 1000);
    assert_eq!(vm.processor(1).program_len(), 0);
    assert!(matches!(vm.others[2].data, BuildingData::Unknown { config: ConfigShape::Processor }));
    assert!(!vm.run(Some(3)));
    assert_eq!(vm.running_processors, 2);
    assert_eq!(buffer(&vm, 0), "1");
    assert_eq!(vm.building(Point2::new(8, 8)).unwrap().block, 101);

    let r = LogicVM::from_schematic_tiles(
        &[
            tile("graphite-press", 0, 0, TileConfig::Empty),
            tile("block-9", 1, 1, TileConfig::Empty),
        ],
        catalog(),
        Native,
    );
    assert!(matches!(r, Err(VMLoadError::Overlap(Point2 { x: 1, y: 1 }))));
    let r = LogicVM::from_schematic_tiles(
        &[tile("router", 1, 1, TileConfig::Empty)],
        catalog(),
        Native,
    );
    match r {
        Err(VMLoadError::UnknownBlockType(name)) => assert_eq!(name, "router"),
        _ => panic!(),
    }
    let r = LogicVM::from_schematic_tiles(
        &[tile(MICRO_PROCESSOR, 1, 1, TileConfig::Processor(ProcessorConfig::from_code("fly")))],
        catalog(),
        Native,
    );
    match r {
        Err(VMLoadError::BadProcessorCode(message)) => {
            assert_eq!(message, "unknown instruction in line 1")
        }
        _ => panic!(),
    }
}

#[test]
fn load_errors() {
    match load_error("router", "stop") {
        VMLoadError::UnknownBlockType(name) => assert_eq!(name, "router"),
        other => panic!("{other:?}"),
    }
    match load_error("graphite-press", "stop") {
        VMLoadError::BadBlockType { want, got } => {
            assert_eq!(want, "processor");
            assert_eq!(got, "graphite-press");
        }
        other => panic!("{other:?}"),
    }
    let e = VMLoadError::from(binrw::Error::AssertFail { pos: 3, message: "bad".to_string() });
    match e {
        VMLoadError::BadProcessorConfig(binrw::Error::AssertFail { pos, message }) => {
            assert_eq!(pos, 3);
            assert_eq!(message, "bad");
        }
        other => panic!("{other:?}"),
    }
}

#[test]
fn decode_faults() {
    for (code, want) in [
        ("fly", (DecodeFault::UnknownInstruction, 0)),
        ("noop\n\"print\" 1", (DecodeFault::UnknownInstruction, 1)),
        ("noop; noop; Stop", (DecodeFault::UnknownInstruction, 2)),
        ("# nothing\nset a", (DecodeFault::MissingOperand, 1)),
        ("set", (DecodeFault::MissingOperand, 0)),
        ("op", (DecodeFault::MissingOperand, 0)),
        ("op add a 1", (DecodeFault::MissingOperand, 0)),
        ("op not a", (DecodeFault::MissingOperand, 0)),
        ("jump", (DecodeFault::MissingOperand, 0)),
        ("jump 0", (DecodeFault::MissingOperand, 0)),
        ("lookup", (DecodeFault::MissingOperand, 0)),
        ("lookup item a", (DecodeFault::MissingOperand, 0)),
        ("select a", (DecodeFault::MissingOperand, 0)),
        ("select a equal 1 2 3", (DecodeFault::MissingOperand, 0)),
        ("packcolor p 1 2 3", (DecodeFault::MissingOperand, 0)),
        ("wait", (DecodeFault::MissingOperand, 0)),
        ("noop 1", (DecodeFault::ExtraOperand, 0)),
        ("stop now", (DecodeFault::ExtraOperand, 0)),
        ("end 0", (DecodeFault::ExtraOperand, 0)),
        ("set a 1 2", (DecodeFault::ExtraOperand, 0)),
        ("op add a 1 2 3", (DecodeFault::ExtraOperand, 0)),
        ("op not a 1 2 3", (DecodeFault::ExtraOperand, 0)),
        ("jump 0 always 1 2 3", (DecodeFault::ExtraOperand, 0)),
        ("print 1 2", (DecodeFault::ExtraOperand, 0)),
        ("unpackcolor r g b a p q", (DecodeFault::ExtraOperand, 0)),
        ("select a equal 1 2 3 4 5", (DecodeFault::ExtraOperand, 0)),
        ("set a 1x", (DecodeFault::BadNumber, 0)),
        ("set a 0x", (DecodeFault::BadNumber, 0)),
        ("set a 0b2", (DecodeFault::BadNumber, 0)),
        ("set a 0xg", (DecodeFault::BadNumber, 0)),
        ("set a -.", (DecodeFault::BadNumber, 0)),
        ("set a ..", (DecodeFault::BadNumber, 0)),
        ("set a 1e", (DecodeFault::BadNumber, 0)),
        ("\n\nprint 1.2.3", (DecodeFault::BadNumber, 2)),
        ("print \"open", (DecodeFault::BadString, 0)),
        ("noop\nprint \"open\nnoop", (DecodeFault::BadString, 1)),
        ("print \"a\\qb\"", (DecodeFault::BadString, 0)),
        ("noop;noop;print \"\\", (DecodeFault::BadString, 2)),
        ("set c %[nosuch]", (DecodeFault::UnknownColor, 0)),
        ("set c %royal", (DecodeFault::UnknownColor, 0)),
        ("set c %[royal", (DecodeFault::UnknownColor, 0)),
        ("set c %", (DecodeFault::UnknownColor, 0)),
        ("op plus a 1 2", (DecodeFault::UnknownName, 0)),
        ("op always a 1 2", (DecodeFault::UnknownName, 0)),
        ("op \"add\" a 1 2", (DecodeFault::UnknownName, 0)),
        ("jump 0 maybe", (DecodeFault::UnknownName, 0)),
        ("jump 0 add 1 2", (DecodeFault::UnknownName, 0)),
        ("lookup building a 0", (DecodeFault::UnknownName, 0)),
        ("select a sometimes 1 2 3 4", (DecodeFault::UnknownName, 0)),
        ("jump nowhere always", (DecodeFault::UnknownLabel, 0)),
        ("noop\njump 2 always", (DecodeFault::UnknownLabel, 1)),
        ("jump -1 always", (DecodeFault::UnknownLabel, 0)),
        ("jump \"a\" always\na:", (DecodeFault::UnknownLabel, 0)),
        ("jump a always 1x\nb:", (DecodeFault::UnknownLabel, 0)),
        ("jump a always 1x\na:", (DecodeFault::BadNumber, 0)),
        ("jump a sometimes\nb:", (DecodeFault::UnknownName, 0)),
    ] {
        assert_eq!(fault(code), want, "{code:?}");
    }
}

#[test]
fn sources_are_decoded() {
    let vm = LogicVM::new(catalog(), Native);
    let program = |code: &str| {
        match Building::from_processor_config(
            MICRO_PROCESSOR,
            Point2::new(0, 0),
            &ProcessorConfig::from_code(code),
            &vm,
        ).unwrap().data {
            BuildingData::Processor(p) => p.core.program,
            _ => panic!(),
        }
    };
    let n = |x: f64| LVar::Constant(number(x));

    let p = program("");
    assert!(p.instructions.is_empty());
    assert_eq!(p.slots, 0);

    let p = program("  \n # only a comment ; noop \n;;\r\n\t  ");
    assert!(p.instructions.is_empty());

    let p = program("set a 1;set b a # set c 3\nnoop;stop#\nend");
    assert_eq!(
        p.instructions,
        vec![
            Instruction::Assign { dest: LVar::Slot(0), value: n(1.) },
            Instruction::Assign { dest: LVar::Slot(1), value: LVar::Slot(0) },
            Instruction::Noop,
            Instruction::Stop,
            Instruction::End,
        ]
    );
    assert_eq!(p.slots, 2);
    assert_eq!(p.lookup("a"), Some(LVar::Slot(0)));
    assert_eq!(p.lookup("b"), Some(LVar::Slot(1)));
    assert_eq!(p.lookup("c"), None);

    let p = program("set a 0x10; set a -0x10; set a 0b101; set a +7; set a 007; \
        set a 1e3; set a .5; set a -.5e1; set a 18446744073709551615; set a 18446744073709551616; \
        set a 0XfF; set a 0B11");
    let values: Vec<LVar> = p
        .instructions
        .iter()
        .map(|i| match i {
            Instruction::Assign { value, .. } => *value,
            _ => panic!(),
        })
        .collect();
    assert_eq!(
        values,
        vec![
            n(16.),
            n(-16.),
            n(5.),
            n(7.),
            n(7.),
            n(1000.),
            n(0.5),
            n(-5.),
            n(18446744073709551615.),
            n(18446744073709551616.),
            n(255.),
            n(3.),
        ]
    );

    let p = program("set a 1e400; set b -1e400; set c \"s\"; set d \"\"; set e \"s\"");
    assert_eq!(p.strings, vec![vec![0x73], vec![], vec![0x73]]);
    assert_eq!(
        p.instructions,
        vec![
            Instruction::Assign { dest: LVar::Slot(0), value: LVar::Constant(LValue::Null) },
            Instruction::Assign { dest: LVar::Slot(1), value: LVar::Constant(LValue::Null) },
            Instruction::Assign { dest: LVar::Slot(2), value: LVar::Constant(LValue::String(0)) },
            Instruction::Assign { dest: LVar::Slot(3), value: LVar::Constant(LValue::String(1)) },
            Instruction::Assign { dest: LVar::Slot(4), value: LVar::Constant(LValue::String(2)) },
        ]
    );

    let p = program("print \"a;b#c d\";print\"x\"#\"");
    assert_eq!(p.strings[0], "a;b#c d".encode_utf16().collect::<Vec<u16>>());
    assert_eq!(p.strings[1], vec![0x78]);
    assert_eq!(p.instructions.len(), 2);

    let p = program("a:\njump a always\nb:\nc:\njump c equal x\njump b notEqual x y\n\
        jump d always\njump 3 always\nd:");
    let null = LVar::Constant(LValue::Null);
    assert_eq!(
        p.instructions,
        vec![
            Instruction::Jump {
                target: 0,
                condition: logic_vm::instruction::Condition::Always,
                x: null,
                y: null,
            },
            Instruction::Jump {
                target: 1,
                condition: logic_vm::instruction::Condition::Equal,
                x: LVar::Slot(0),
                y: null,
            },
            Instruction::Jump {
                target: 1,
                condition: logic_vm::instruction::Condition::NotEqual,
                x: LVar::Slot(0),
                y: LVar::Slot(1),
            },
            Instruction::Jump {
                target: 0,
                condition: logic_vm::instruction::Condition::Always,
                x: null,
                y: null,
            },
            Instruction::Jump {
                target: 3,
                condition: logic_vm::instruction::Condition::Always,
                x: null,
                y: null,
            },
        ]
    );

    let p = program("set @counter @ipt; set @time @tick; set @second @this; \
        set @blockCount @unitCount; set @liquidCount @itemCount; set π @copper; \
        set @unknown @lead");
    assert_eq!(
        p.instructions,
        vec![
            Instruction::Assign { dest: LVar::Counter, value: LVar::Ipt },
            Instruction::Assign { dest: LVar::Time, value: LVar::Tick },
            Instruction::Assign { dest: LVar::Second, value: LVar::This },
            Instruction::Assign { dest: LVar::BlockCount, value: LVar::UnitCount },
            Instruction::Assign { dest: LVar::LiquidCount, value: LVar::ItemCount },
            Instruction::Assign {
                dest: n(std::f32::consts::PI.into()),
                value: LVar::Constant(LValue::Content(Content { kind: ContentKind::Item, id: 0 })),
            },
            Instruction::Assign {
                dest: LVar::Slot(0),
                value: LVar::Constant(LValue::Content(Content { kind: ContentKind::Item, id: 1 })),
            },
        ]
    );
    assert_eq!(p.lookup("@unknown"), Some(LVar::Slot(0)));

    let p = program("set a %[royal]; set b %[clear]; set c %[white]");
    assert_eq!(
        p.instructions,
        vec![
            Instruction::Assign {
                dest: LVar::Slot(0),
                value: LVar::Constant(LValue::Number(0x4169e1ff)),
            },
            Instruction::Assign { dest: LVar::Slot(1), value: LVar::Constant(LValue::Number(0)) },
            Instruction::Assign {
                dest: LVar::Slot(2),
                value: LVar::Constant(LValue::Number(0xffffffff)),
            },
        ]
    );

    let p = program("op not a b c\nop floor x y");
    assert_eq!(
        p.instructions,
        vec![
            Instruction::Unary {
                op: logic_vm::instruction::UnaryOp::Not,
                dest: LVar::Slot(0),
                x: LVar::Slot(1),
            },
            Instruction::Unary {
                op: logic_vm::instruction::UnaryOp::Floor,
                dest: LVar::Slot(3),
                x: LVar::Slot(4),
            },
        ]
    );
    assert_eq!(p.slots, 5);
}

#[test]
fn globals_of_a_catalog() {
    let g = variables::Globals::create(&catalog());
    assert_eq!(g.entries.len(), 17 + 20 + 11 + 56 + 260);
    for (name, want) in [
        ("false", LVar::Constant(number(0.))),
        ("true", LVar::Constant(number(1.))),
        ("null", LVar::Constant(LValue::Null)),
        ("@pi", LVar::Constant(number(std::f32::consts::PI.into()))),
        ("@e", LVar::Constant(number(std::f32::consts::E.into()))),
        ("@degToRad", LVar::Constant(number((std::f32::consts::PI / 180.).into()))),
        ("@radToDeg", LVar::Constant(number((180. / std::f32::consts::PI).into()))),
        ("@counter", LVar::Counter),
        ("@ipt", LVar::Ipt),
        ("@time", LVar::Time),
        ("@tick", LVar::Tick),
        ("@second", LVar::Second),
        ("@this", LVar::This),
        ("@blockCount", LVar::BlockCount),
        ("@itemCount", LVar::ItemCount),
        ("@liquidCount", LVar::LiquidCount),
        ("@unitCount", LVar::UnitCount),
        ("@copper", LVar::Constant(LValue::Content(Content { kind: ContentKind::Item, id: 0 }))),
        ("@carbide", LVar::Constant(LValue::Content(Content { kind: ContentKind::Item, id: 19 }))),
        ("@water", LVar::Constant(LValue::Content(Content { kind: ContentKind::Liquid, id: 0 }))),
        ("@emanate", LVar::Constant(LValue::Content(Content { kind: ContentKind::Unit, id: 55 }))),
        (
            "@micro-processor",
            LVar::Constant(LValue::Content(Content { kind: ContentKind::Block, id: 100 })),
        ),
    ] {
        assert_eq!(g.find(name), Some(want), "{name}");
    }
    assert_eq!(g.find("copper"), None);
    assert_eq!(g.find("@"), None);
    assert_eq!(g.find(""), None);
    assert_eq!(g.find("π"), None);
}

#[test]
fn stepping_by_hand() {
    let vm = single_processor_vm(HYPER_PROCESSOR, "op add a 1.5 2\nprint a\nop sqrt b 2\nstop");
    let mut p = vm.processor(0).clone();

    let (pc, instruction) = p.fetch();
    assert_eq!((pc, p.state.counter), (0, 1));
    let requests = p.requests_for(instruction, &vm.world);
    assert_eq!(
        requests,
        vec![Request::Binary(BinaryFn::Add, Arg::Bits(1.5f64.to_bits()), Arg::Bits(2f64.to_bits()))]
    );
    let answers = vec![Answer { bits: 10.25f64.to_bits(), text: Vec::new() }];
    assert_eq!(p.perform(pc, instruction, &vm.world, &answers), Flow::Continue);
    assert_eq!(variable(&p, "a"), number(10.25));

    let (pc, instruction) = p.fetch();
    let requests = p.requests_for(instruction, &vm.world);
    assert_eq!(requests, vec![Request::Format(10.25f64.to_bits())]);
    let answers = vec![Answer { bits: 0, text: "ten".encode_utf16().collect() }];
    assert_eq!(p.perform(pc, instruction, &vm.world, &answers), Flow::Continue);
    assert_eq!(decode_printbuffer(&p), "ten");

    let (pc, instruction) = p.fetch();
    let requests = p.requests_for(instruction, &vm.world);
    assert_eq!(requests, vec![Request::Unary(UnaryFn::Sqrt, Arg::Bits(2f64.to_bits()))]);
    let answers = vec![Answer { bits: f64::INFINITY.to_bits(), text: Vec::new() }];
    assert_eq!(p.perform(pc, instruction, &vm.world, &answers), Flow::Continue);
    assert_eq!(variable(&p, "b"), LValue::Null);

    let (pc, instruction) = p.fetch();
    assert_eq!((pc, p.state.counter), (3, 0));
    assert!(p.requests_for(instruction, &vm.world).is_empty());
    assert_eq!(p.perform(pc, instruction, &vm.world, &Vec::new()), Flow::Yield);
    assert_eq!(p.state.counter, 3);
    assert!(p.stopped());
}

#[test]
fn stopped_processors_run_again_when_enabled() {
    let mut vm = single_processor_vm(MICRO_PROCESSOR, "print 1\nstop");
    assert!(vm.run(Some(5)));
    assert_eq!(vm.running_processors, 0);
    vm.do_tick(0);
    assert_eq!(buffer(&vm, 0), "1");
    vm.set_stopped(0, false);
    vm.set_stopped(0, false);
    assert_eq!(vm.running_processors, 1);
    vm.set_counter(0, 6);
    assert_eq!(vm.processor(0).state.counter, 0);
    assert!(vm.run(Some(5)));
    assert_eq!(buffer(&vm, 0), "11");
    vm.set_stopped(0, true);
    assert_eq!(vm.running_processors, 0);
}

#[test]
fn run_stops_at_its_limit() {
    let mut vm = single_processor_vm(MICRO_PROCESSOR, "op add n n 1");
    assert!(!vm.run(Some(0)));
    assert_eq!(variable(vm.processor(0), "n"), number(2.));
    assert!(!vm.run(Some(3)));
    assert_eq!(variable(vm.processor(0), "n"), number(8.));
    let mut vm = LogicVM::new(catalog(), Native);
    assert!(vm.run(None));
    assert!(vm.run(Some(0)));
}

#[test]
fn questions_are_answered_in_their_order() {
    let requests = vec![
        Request::Binary(BinaryFn::Add, Arg::Bits(1f64.to_bits()), Arg::Bits(2f64.to_bits())),
        Request::Binary(BinaryFn::Mul, Arg::Answer(0), Arg::Answer(0)),
        Request::Unary(UnaryFn::Sqrt, Arg::Answer(1)),
        Request::Binary(BinaryFn::Sub, Arg::Answer(2), Arg::Answer(7)),
        Request::Format(0.5f64.to_bits()),
        Request::Binary(BinaryFn::Add, Arg::Answer(4), Arg::Answer(5)),
    ];
    let answers = ask(&Native, &requests);
    let bits: Vec<f64> = answers.iter().map(|a| f64::from_bits(a.bits)).collect();
    assert_eq!(bits, vec![3., 9., 3., 3., 0., 0.]);
    assert_eq!(answers[4].text, "0.5".encode_utf16().collect::<Vec<u16>>());
    assert!(answers[0].text.is_empty());
}

#[test]
fn operations_are_made_of_elementary_functions() {
    let vm = single_processor_vm(
        HYPER_PROCESSOR,
        "op sin a 30\nop asin b 0.5\nop emod c -5 2\nop idiv d -5 2\nop logn e 8 2\n\
            op len f 3 4\nop angle g 0 -1\nop angleDiff h 350 10",
    );
    let mut p = vm.processor(0).clone();
    let mut counts = Vec::new();
    for _ in 0..8 {
        let (pc, instruction) = p.fetch();
        let requests = p.requests_for(instruction, &vm.world);
        counts.push(requests.len());
        let answers = ask(&vm.unit, &requests);
        p.perform(pc, instruction, &vm.world, &answers);
    }
    assert_eq!(counts, vec![2, 2, 3, 1, 3, 1, 3, 6]);
    assert_eq!(num(variable(&p, "a")), 30f64.to_radians().sin());
    assert_eq!(num(variable(&p, "b")), 0.5f64.asin().to_degrees());
    assert_eq!(variable(&p, "c"), number(1.));
    assert_eq!(variable(&p, "d"), number(-3.));
    assert_eq!(variable(&p, "e"), number(3.));
    assert_eq!(variable(&p, "f"), number(5.));
    assert_eq!(variable(&p, "g"), number(270.));
    assert_eq!(variable(&p, "h"), number(20.));
    assert_eq!(logic_vm::arith::RADS_PER_DEG, 1f64.to_radians().to_bits());
    assert_eq!(logic_vm::arith::DEGS_PER_RAD, 1f64.to_degrees().to_bits());
    assert_eq!(logic_vm::arith::FULL_TURN, 360f64.to_bits());
}

#[test]
fn default_machine_is_empty() {
    let mut vm: LogicVM<'static, Native> = LogicVM::default();
    assert!(vm.processors.is_empty());
    assert!(vm.others.is_empty());
    assert!(vm.world.tiles.is_empty());
    assert_eq!(vm.world.time, 0);
    assert_eq!(vm.running_processors, 0);
    assert_eq!(vm.globals.entries.len(), 17);
    assert!(vm.run(Some(3)));
    assert!(vm.building(Point2::new(0, 0)).is_none());
}

#[test]
fn validators_tell_what_is_well_formed() {
    let mut catalog = catalog();
    assert!(catalog.check());
    catalog.blocks[5].size = 0;
    assert!(!catalog.check());
    catalog.blocks[5].size = -1;
    assert!(!catalog.check());
    catalog.blocks[5].size = 17;
    assert!(catalog.check());
    catalog.blocks[5].size = i32::MAX - i16::MAX as i32;
    assert!(catalog.check());
    catalog.blocks[5].size = i32::MAX - i16::MAX as i32 + 1;
    assert!(!catalog.check());
    catalog.blocks[5].size = 1;
    assert!(catalog.check());

    let mut globals = variables::Globals::create(&catalog);
    assert!(globals.check());
    globals.entries[3].var = LVar::Slot(0);
    assert!(!globals.check());
    globals.entries[3].var = LVar::Constant(LValue::Number(f64::NAN.to_bits()));
    assert!(!globals.check());
    globals.entries[3].var = LVar::Constant(LValue::String(0));
    assert!(!globals.check());
    globals.entries[3].var = LVar::Constant(LValue::Team(Team::Crux));
    assert!(globals.check());

    let vm = single_processor_vm(MICRO_PROCESSOR, "set a \"s\"\njump 1 equal a b\nprint a");
    let catalog = &vm.world.catalog;
    let good = vm.processors[0].clone();
    assert!(good.check(catalog));
    let processor = |b: &mut Building| match &mut b.data {
        BuildingData::Processor(p) => p.clone(),
        _ => panic!(),
    };
    let with = |f: &dyn Fn(&mut Processor)| {
        let mut b = good.clone();
        let mut p = processor(&mut b);
        f(&mut p);
        b.data = BuildingData::Processor(p);
        b.check(catalog)
    };
    assert!(with(&|_| {}));
    assert!(!with(&|p| p.state.counter = 3));
    assert!(with(&|p| p.state.counter = 2));
    assert!(!with(&|p| p.state.ipt = 0));
    assert!(!with(&|p| p.state.ipt = 1001));
    assert!(!with(&|p| p.state.printbuffer = vec![0; 401]));
    assert!(with(&|p| p.state.printbuffer = vec![0; 400]));
    assert!(!with(&|p| p.state.slots.push(LValue::Null)));
    assert!(!with(&|p| p.state.slots[0] = LValue::Number(f64::INFINITY.to_bits())));
    assert!(!with(&|p| p.state.slots[0] = LValue::String(1)));
    assert!(with(&|p| p.state.slots[0] = LValue::String(0)));
    assert!(!with(&|p| p.core.position = Point2::new(1, 0)));
    assert!(!with(&|p| p.core.program.instructions[1] = Instruction::Jump {
        target: 3,
        condition: logic_vm::instruction::Condition::Always,
        x: LVar::Slot(0),
        y: LVar::Slot(1),
    }));
    assert!(!with(&|p| p.core.program.instructions[0] =
        Instruction::Print { value: LVar::Slot(2) }));
    assert!(!with(&|p| p.core.program.variables[0].var = LVar::Slot(9)));
    let mut far = good.clone();
    far.position = Point2::new(i32::MAX, 0);
    assert!(!far.check(catalog));
    let mut odd = good.clone();
    odd.block = 260;
    assert!(!odd.check(catalog));
    let wide = Building::unknown(Point2::new(i32::MAX - 1, i32::MAX - 1), 0, ConfigShape::Empty);
    assert!(wide.check(catalog));
    let wider = Building::unknown(Point2::new(i32::MAX, i32::MAX - 1), 0, ConfigShape::Empty);
    assert!(!wider.check(catalog));
}

#[test]
fn buildings_at_the_end_of_the_grid() {
    let mut vm = LogicVM::new(catalog(), Native);
    vm.add_building(
        Building::unknown(Point2::new(i32::MAX - 1, i32::MAX - 1), 0, ConfigShape::Empty),
    )
        .unwrap();
    vm.add_building(Building::unknown(Point2::new(i32::MIN, i32::MIN), 0, ConfigShape::Empty))
        .unwrap();
    assert!(vm.building(Point2::new(i32::MAX, i32::MAX)).is_some());
    assert!(vm.building(Point2::new(i32::MAX - 2, i32::MAX)).is_none());
    assert!(vm.building(Point2::new(i32::MIN + 1, i32::MIN)).is_some());
    assert!(vm.building(Point2::new(i32::MIN + 2, i32::MIN)).is_none());
    assert_eq!(Point2::new(i32::MAX, -1).key(), 0xffff_ffff_7fff_ffff);
    assert_eq!(Point2::new(i32::MIN, 0).key(), 0x0000_0000_8000_0000);
    assert_eq!(Point2::new(i32::MAX, 0).offset(1, 0), None);
    assert_eq!(Point2::new(i32::MAX, 0).offset(-1, 5), Some(Point2::new(i32::MAX - 1, 5)));
    assert_eq!(Point2::unpack(PackedPoint2 { x: -7, y: 9 }), Point2::new(-7, 9));
}

#[test]
fn machines_share_globals() {
    let mut globals = variables::Globals::create(&catalog());
    globals.entries.insert(
        0,
        variables::Global { name: "answer".to_string(), var: LVar::Constant(number(42.)) },
    );
    assert!(globals.check());
    let mut first = single_processor_vm_with_globals(
        MICRO_PROCESSOR,
        "set a answer; stop",
        &globals,
    );
    let mut second = single_processor_vm_with_globals(
        MICRO_PROCESSOR,
        "set answer 1; set b answer",
        &globals,
    );
    let mut own = LogicVM::new_with_globals(Cow::Owned(globals.clone()), catalog(), Native);
    own.add_building(
        Building::from_processor_config(
            MICRO_PROCESSOR,
            Point2::new(0, 0),
            &ProcessorConfig::from_code("set c answer; stop"),
            &own,
        )
        .unwrap(),
    )
    .unwrap();
    first.do_tick(0);
    second.do_tick(0);
    own.do_tick(0);
    assert_eq!(variable(first.processor(0), "a"), number(42.));
    assert_eq!(variable(second.processor(0), "b"), number(42.));
    assert_eq!(variable(own.processor(0), "c"), number(42.));
    assert_eq!(first.globals().find("answer"), Some(LVar::Constant(number(42.))));
    assert_eq!(second.processor(0).core.program.lookup("answer"), None);
    let plain = single_processor_vm(MICRO_PROCESSOR, "set a answer; stop");
    assert_eq!(plain.processor(0).core.program.lookup("answer"), Some(LVar::Slot(1)));
}

#[test]
fn faults_have_messages() {
    for (code, want) in [
        ("fly", "unknown instruction in line 1"),
        ("noop\nset a", "missing operand in line 2"),
        ("noop;noop;stop now", "too many operands in line 3"),
        ("\n\n\n\n\n\n\n\n\nset a 1x", "bad number in line 10"),
        ("print \"open", "bad string in line 1"),
        ("set c %[nosuch]", "unknown color in line 1"),
        ("op plus a 1 2", "unknown name in line 1"),
        ("jump nowhere always", "unknown label in line 1"),
    ] {
        match load_error(MICRO_PROCESSOR, code) {
            VMLoadError::BadProcessorCode(message) => assert_eq!(message, want, "{code:?}"),
            other => panic!("{other:?}"),
        }
    }
    let code = format!("{}fly", "\n".repeat(1234567));
    match load_error(MICRO_PROCESSOR, &code) {
        VMLoadError::BadProcessorCode(message) => {
            assert_eq!(message, "unknown instruction in line 1234568")
        }
        other => panic!("{other:?}"),
    }
    for n in [0u128, 1, 9, 10, 11, 99, 100, 12345678901234567890, u128::MAX] {
        assert_eq!(logic_vm::error::numeral(n), n.to_string());
    }
    assert_eq!(
        logic_vm::error::message(DecodeFault::BadNumber, usize::MAX),
        format!("bad number in line {}", usize::MAX as u128 + 1)
    );
}

#[test]
fn elapsed_time_is_held_to_the_range_of_a_delta() {
    assert_eq!(bounded(0), 0);
    assert_eq!(bounded(1), 1);
    assert_eq!(bounded(16_666_667), 16_666_667);
    assert_eq!(bounded(i64::MAX as u128 - 1), i64::MAX - 1);
    assert_eq!(bounded(i64::MAX as u128), i64::MAX);
    assert_eq!(bounded(i64::MAX as u128 + 1), i64::MAX);
    assert_eq!(bounded(u128::MAX), i64::MAX);
    let start = std::time::Instant::now();
    let first = nanos_since(&start);
    let mut spin = 0u64;
    while start.elapsed().as_nanos() < 2_000_000 {
        spin += 1;
    }
    let second = nanos_since(&start);
    assert!(spin > 0);
    assert!(first >= 0);
    assert!(second >= 2_000_000);
    assert!(second >= first);
    assert!(second < 10_000_000_000);
}

#[test]
fn blocks_of_any_edge_are_placed() {
    let mut catalog = catalog();
    catalog.blocks[7].size = 17;
    catalog.blocks[8].size = 40;
    catalog.blocks[102].size = 21;
    assert!(catalog.check());
    let mut vm = LogicVM::new(catalog, Native);
    vm.add_building(Building::unknown(Point2::new(-5, 3), 7, ConfigShape::Empty)).unwrap();
    assert_eq!(vm.world.tiles.len(), 17 * 17);
    for x in -7..14 {
        for y in 1..22 {
            let inside = (-5..12).contains(&x) && (3..20).contains(&y);
            let found = vm.building(Point2::new(x, y)).map(|b| b.position);
            assert_eq!(found, if inside { Some(Point2::new(-5, 3)) } else { None }, "({x}, {y})");
        }
    }
    vm.add_building(Building::unknown(Point2::new(12, -10), 8, ConfigShape::Empty)).unwrap();
    assert_eq!(vm.world.tiles.len(), 17 * 17 + 40 * 40);
    assert_eq!(vm.building(Point2::new(11, 19)).unwrap().block, 7);
    assert_eq!(vm.building(Point2::new(12, 19)).unwrap().block, 8);
    assert_eq!(vm.building(Point2::new(51, 29)).unwrap().block, 8);
    assert!(vm.building(Point2::new(52, 29)).is_none());
    assert!(vm.building(Point2::new(51, 30)).is_none());
    let b = Building::from_processor_config(
        HYPER_PROCESSOR,
        Point2::new(-9, 0),
        &ProcessorConfig::from_code("print @this; stop"),
        &vm,
    )
    .unwrap();
    match vm.add_building(b) {
        Err(VMLoadError::Overlap(p)) => assert_eq!(p, Point2::new(-5, 3)),
        other => panic!("{other:?}"),
    }
    let b = Building::from_processor_config(
        HYPER_PROCESSOR,
        Point2::new(i32::MAX - 20, i32::MAX - 20),
        &ProcessorConfig::from_code("print @this; stop"),
        &vm,
    )
    .unwrap();
    vm.add_building(b).unwrap();
    assert_eq!(vm.world.tiles.len(), 17 * 17 + 40 * 40 + 21 * 21);
    assert!(vm.building(Point2::new(i32::MAX, i32::MAX)).is_some());
    assert!(vm.run(Some(1)));
    assert_eq!(buffer(&vm, 0), "hyper-processor");
    let tile = SchematicTile {
        block: "block-8".to_string(),
        position: PackedPoint2 { x: i16::MAX, y: i16::MAX },
        config: TileConfig::Empty,
        rotation: 0,
    };
    vm.add_schematic_tile(&tile).unwrap();
    assert!(vm.building(Point2::new(i16::MAX as i32 + 39, i16::MAX as i32 + 39)).is_some());
    assert!(vm.building(Point2::new(i16::MAX as i32 + 40, i16::MAX as i32 + 39)).is_none());
}

#[test]
fn a_machine_tells_whether_it_is_well_formed() {
    let mut vm = LogicVM::new(catalog(), Native);
    assert!(vm.check());
    let b = Building::from_processor_config(
        MICRO_PROCESSOR,
        Point2::new(0, 0),
        &ProcessorConfig::from_code("print 1; stop"),
        &vm,
    )
    .unwrap();
    vm.add_building(b).unwrap();
    vm.add_building(Building::unknown(Point2::new(3, 3), 0, ConfigShape::Empty)).unwrap();
    assert!(vm.check());
    assert!(vm.run(Some(3)));
    assert!(vm.check());

    vm.running_processors = 1;
    assert!(!vm.check());
    vm.running_processors = 0;
    assert!(vm.check());

    let key = Point2::new(4, 4).key();
    let tile = vm.world.tiles.remove(&key).unwrap();
    assert!(!vm.check());
    vm.world.tiles.insert(key, Tile { slot: 1, ..tile });
    assert!(!vm.check());
    vm.world.tiles.insert(key, Tile { processor: true, ..tile });
    assert!(!vm.check());
    vm.world.tiles.insert(key, Tile { block: 1, ..tile });
    assert!(!vm.check());
    vm.world.tiles.insert(key, tile);
    assert!(vm.check());

    let stray = Point2::new(5, 3).key();
    vm.world.tiles.insert(stray, tile);
    assert!(!vm.check());
    vm.world.tiles.remove(&stray);
    assert!(vm.check());

    vm.others[0].block = 1000;
    assert!(!vm.check());
    vm.others[0].block = 0;
    vm.others[0].position = Point2::new(i32::MAX, 3);
    assert!(!vm.check());
    vm.others[0].position = Point2::new(3, 3);
    assert!(vm.check());

    vm.world.clock.time = LValue::String(0);
    assert!(!vm.check());
    vm.world.clock.time = LValue::Number(f64::INFINITY.to_bits());
    assert!(!vm.check());
    vm.world.clock.time = LValue::Null;
    assert!(!vm.check());
    vm.world.clock.time = LValue::Number(1f64.to_bits());
    assert!(!vm.check());
    vm.world.clock = Clock::read(vm.world.time);
    assert!(vm.check());
    vm.world.time += 1;
    assert!(!vm.check());
    vm.world.time -= 1;
    assert!(vm.check());

    vm.world.catalog.blocks[9].size = 0;
    assert!(!vm.check());
    vm.world.catalog.blocks[9].size = 1;
    assert!(vm.check());

    let first = vm.processors.remove(0);
    assert!(!vm.check());
    vm.others.push(first);
    assert!(!vm.check());
}

#[test]
fn equal_is_decided_by_the_distance() {
    for (x, y, want) in [
        ("1", "1.0000009", 1.0),
        ("1", "1.0000011", 0.0),
        ("0", "0.00000099", 1.0),
        ("0", "0.000001", 0.0),
        ("-0.0000005", "0.0000004", 1.0),
        ("-0.0000005", "0.0000006", 0.0),
        ("1e300", "1e300", 1.0),
        ("1e300", "-1e300", 0.0),
        ("null", "0.0000001", 1.0),
    ] {
        let mut vm = single_processor_vm(
            HYPER_PROCESSOR,
            &format!(
                "set x {x}
                set y {y}
                op equal same x y
                op notEqual other x y
                set taken 0
                jump 7 notEqual x y
                set taken 1
                stop"
            ),
        );
        run(&mut vm, 1, true);
        let p = vm.processor(0);
        assert_eq!(variable(p, "same"), number(want), "{x} {y}");
        assert_eq!(variable(p, "other"), number(1.0 - want), "{x} {y}");
        assert_eq!(variable(p, "taken"), number(want), "{x} {y}");
    }
}
