use hgl_sim::bit::Bit;
use hgl_sim::bv::Bv;
use hgl_sim::edge_mask::SimEdgeMask;
use hgl_sim::models::alu::alu;
use hgl_sim::models::apb_target_gpio::apb_target_gpio;
use hgl_sim::models::counter::Counter;
use hgl_sim::models::memories::Memory;
use hgl_sim::models::nested_structures::nested_structures;
use hgl_sim::models::register::Register;
use hgl_sim::models::threaded::{
    admits, clock_action, handle_state_change, Action, ModelCall, ModelControl, State,
};

fn posedge() -> SimEdgeMask {
    SimEdgeMask::none().add_posedge(0)
}

fn alu_result(op: u64, a: u64, b: u64) -> (u64, u64) {
    let mut m = alu::new();
    m.inputs.op = Bv::of_u64(op);
    m.inputs.a = Bv::of_u64(a);
    m.inputs.b = Bv::of_u64(b);
    m.propagate_to_all_locals();
    (
        m.outputs.r.try_as_u64().unwrap(),
        m.locals.x.try_as_u64().unwrap(),
    )
}

#[test]
fn alu_operations() {
    assert_eq!(alu_result(0, 100, 30), (130, 0));
    assert_eq!(alu_result(1, 100, 30), (70, 70));
    assert_eq!(alu_result(2, 100, 30), (126, 126));
    assert_eq!(alu_result(3, 100, 2), (25, 25));
    assert_eq!(alu_result(0, 0xffff, 2), (1, 0));
    assert_eq!(alu_result(1, 5, 7), (0xfffe, 0xfffe));
    assert_eq!(alu_result(3, 0x8000, 15), (1, 1));
    assert_eq!(alu_result(3, 0x8000, 16), (0, 0));
}

#[test]
fn counter_counts_down_then_up() {
    let mut c = Counter::<31>::new(None);
    c.configure(Some(Bv::of_u64(32)));
    assert_eq!(c.outputs.data.try_as_u64(), Some(32));
    c.inputs.reset_n = Bit::T;
    c.inputs.decrement = Bit::T;
    for _ in 0..10_000 {
        c.clock(posedge());
    }
    c.inputs.decrement = Bit::F;
    c.inputs.increment = Bit::T;
    for _ in 0..1_000 {
        c.clock(posedge());
    }
    let exp: u64 = (1 << 31) + 32 - 9000;
    assert_eq!(c.outputs.data.try_as_u64(), Some(exp));
    c.clock(SimEdgeMask::none());
    assert_eq!(c.outputs.data.try_as_u64(), Some(exp));
}

#[test]
fn counter_load_reset_and_priority() {
    let mut c = Counter::<8>::new(Some(Bv::of_u64(7)));
    c.inputs.reset_n = Bit::T;
    c.inputs.load = Bit::T;
    c.inputs.data = Bv::of_u64(200);
    c.clock(posedge());
    assert_eq!(c.outputs.data.try_as_u64(), Some(200));
    c.inputs.increment = Bit::T;
    c.clock(posedge());
    assert_eq!(c.outputs.data.try_as_u64(), Some(201));
    c.inputs.reset_n = Bit::F;
    c.clock(posedge());
    assert_eq!(c.outputs.data.try_as_u64(), Some(7));
    let mut z = Counter::<8>::new(None);
    z.inputs.reset_n = Bit::T;
    z.inputs.decrement = Bit::T;
    z.clock(posedge());
    assert_eq!(z.outputs.data.try_as_u64(), Some(255));
}

#[test]
fn register_reset_and_enable() {
    let mut r = Register::<31>::new(Some(Bv::of_u64(32)));
    r.inputs.reset_n = Bit::F;
    r.clock(posedge());
    assert_eq!(r.outputs.data.try_as_u64(), Some(32));
    r.inputs.reset_n = Bit::T;
    r.inputs.data = Bv::of_u64(99);
    r.clock(posedge());
    assert_eq!(r.outputs.data.try_as_u64(), Some(32));
    r.inputs.enable = Bit::T;
    r.clock(SimEdgeMask::none());
    assert_eq!(r.outputs.data.try_as_u64(), Some(32));
    r.clock(posedge());
    assert_eq!(r.outputs.data.try_as_u64(), Some(99));
    r.reset();
    assert_eq!(r.outputs.data.try_as_u64(), Some(32));
}

#[test]
fn memory_reads_back_what_was_written() {
    let mut m = Memory::<31, 5>::new(32);
    let clk = posedge();
    assert!(m.clock(clk));
    assert!(m.outputs.read_valid.is_false());
    m.inputs.write_enable = Bit::T;
    m.inputs.address = Bv::of_u64(3);
    m.inputs.write_data = Bv::of_u64(724);
    assert!(m.clock(clk));
    assert!(m.outputs.read_valid.is_false());
    assert_eq!(m.data.len(), 4);
    m.inputs.read_enable = Bit::T;
    m.inputs.write_enable = Bit::F;
    assert!(m.clock(clk));
    assert!(m.outputs.read_valid.is_true());
    assert_eq!(m.outputs.read_data.try_as_u64(), Some(724));
    m.inputs.address = Bv::of_u64(10);
    assert!(m.clock(clk));
    assert_eq!(m.outputs.read_data.try_as_u64(), Some(0));
    assert_eq!(m.data.len(), 11);
}

#[test]
fn memory_refuses_addresses_beyond_its_size() {
    let mut m = Memory::<8, 5>::new(4);
    m.inputs.write_enable = Bit::T;
    m.inputs.address = Bv::of_u64(4);
    m.inputs.write_data = Bv::of_u64(9);
    assert!(m.clock(posedge()));
    assert_eq!(m.data.len(), 5);
    m.inputs.address = Bv::of_u64(5);
    assert!(!m.clock(posedge()));
    assert_eq!(m.data.len(), 5);
}

#[test]
fn nested_structures_next_state() {
    let mut n = nested_structures::new();
    n.inputs.vector_input_0 = Bv::of_u64(0b0011_0111);
    n.inputs.vector_input_1 = Bv::of_u64(0xa5);
    n.eval_next_state_io_clock();
    let next = n.next_state_io_clock;
    assert_eq!(next.cline.c.r.try_as_u64(), Some(5));
    assert_eq!(next.cline.c.g.try_as_u64(), Some(5));
    assert_eq!(next.cline.c.b.try_as_u64(), Some(5));
    assert_eq!(next.cline.p_a.x.try_as_u64(), Some(5));
    assert_eq!(next.cline.p_a.y.try_as_u64(), Some(0xa));
    assert_eq!(next.cline.p_b.x.try_as_u64(), Some(5));
    assert_eq!(next.cline.p_b.y.try_as_u64(), Some(0xa));
    n.state_io_clock = next;
    n.inputs.vector_input_0 = Bv::of_u64(0);
    n.outputs.vector_output_1 = Bv::of_u64(0x80);
    n.eval_next_state_io_clock();
    let next = n.next_state_io_clock;
    assert_eq!(next.cline.c.r.try_as_u64(), Some(1));
    assert_eq!(next.cline.p_a.y.try_as_u64(), Some(0));
    assert_eq!(next.cline_2.p_a.y.try_as_u64(), Some(0xa));
    assert!(n.propagate_to_all_locals().is_none());
}

fn apb_cycle(m: &mut apb_target_gpio, addr: u64, write: bool, data: u64) {
    m.inputs.apb_request.psel = Bit::T;
    m.inputs.apb_request.penable = Bit::F;
    m.inputs.apb_request.pwrite = Bit::of_bool(write);
    m.inputs.apb_request.paddr = Bv::of_u64(addr);
    m.inputs.apb_request.pwdata = Bv::of_u64(data);
    assert!(m.clock(posedge()));
    m.inputs.apb_request.penable = Bit::T;
    assert!(m.clock(posedge()));
    m.inputs.apb_request.psel = Bit::F;
    m.inputs.apb_request.penable = Bit::F;
}

#[test]
fn apb_gpio_writes_and_reads_outputs() {
    let mut m = apb_target_gpio::new();
    m.inputs.reset_n = Bit::T;
    // output 0: value 1, enable 1; output 1: enable only
    apb_cycle(&mut m, 0, true, 0b1011);
    assert!(m.clock(posedge()));
    assert_eq!(m.outputs.gpio_output.try_as_u64(), Some(1));
    assert_eq!(m.outputs.gpio_output_enable.try_as_u64(), Some(3));
    // read back the outputs
    apb_cycle(&mut m, 0, false, 0);
    assert_eq!(m.outputs.apb_response.prdata.try_as_u64(), Some(0b1011));
    assert!(m.outputs.apb_response.pready.is_true());
    assert!(m.outputs.apb_response.perr.is_false());
}

#[test]
fn apb_gpio_inputs_and_events() {
    let mut m = apb_target_gpio::new();
    m.inputs.reset_n = Bit::T;
    // input 2: events of type 4, when the value is low and the newer
    // sample high
    apb_cycle(&mut m, 2, true, (4 << 12) | (1 << 8) | 2);
    assert_eq!(m.state_clk.inputs[2].input_type.try_as_u64(), Some(4));
    m.inputs.gpio_input = Bv::of_u64(4);
    for _ in 0..4 {
        assert!(m.clock(posedge()));
    }
    assert!(m.state_clk.inputs[2].value.is_true());
    assert!(m.state_clk.inputs[2].event.is_true());
    assert!(m.clock(posedge()));
    assert!(m.outputs.gpio_input_event.is_true());
    // read the inputs: value and event of input 2
    apb_cycle(&mut m, 1, false, 0);
    assert_eq!(
        m.outputs.apb_response.prdata.try_as_u64(),
        Some((1 << 18) | (1 << 2))
    );
    // clear the event
    apb_cycle(&mut m, 2, true, (1 << 9) | 2);
    assert!(m.state_clk.inputs[2].event.is_false());
    // a read of the types does not complete
    m.inputs.apb_request.psel = Bit::T;
    m.inputs.apb_request.pwrite = Bit::F;
    m.inputs.apb_request.paddr = Bv::of_u64(2);
    assert!(m.clock(posedge()));
    assert!(!m.clock(posedge()));
}

#[test]
fn threaded_state_changes() {
    assert_eq!(
        handle_state_change(State::Running, Action::Stop),
        (State::Stopped, vec![ModelCall::Pause, ModelCall::Stop])
    );
    assert_eq!(
        handle_state_change(State::Running, Action::Pause),
        (State::Paused, vec![ModelCall::Pause])
    );
    assert_eq!(
        handle_state_change(State::Paused, Action::Resume),
        (State::Running, vec![ModelCall::Resume])
    );
    assert_eq!(
        handle_state_change(State::Paused, Action::Stop),
        (State::Stopped, vec![ModelCall::Stop])
    );
    assert!(admits(State::Running, Action::Pause));
    assert!(!admits(State::Paused, Action::Pause));
    assert!(!admits(State::Running, Action::Resume));
    assert!(!admits(State::Stopped, Action::Resume));
    assert!(!admits(State::Idle, Action::Resume));
    assert!(!admits(State::Running, Action::Idle));
}

#[test]
fn threaded_control_flow() {
    let c = ModelControl::new();
    let c = c.start().unwrap();
    assert_eq!(c.state, State::Paused);
    assert!(c.start().is_none());
    let c = c.update_state(Action::Resume).unwrap();
    assert!(c.update_state(Action::Pause).is_none());
    let (c2, calls, done) = c.wait_step(true);
    assert_eq!((c2, calls.len(), done), (c, 0, false));
    let (c, calls, done) = c.wait_step(false);
    assert_eq!((c.state, c.action, calls, done), (State::Running, Action::Idle, vec![ModelCall::Resume], true));
    let c = c.update_state(Action::Stop).unwrap();
    let (c, _, _) = c.wait_step(false);
    assert_eq!(c.state, State::Stopped);
    assert_eq!(c.update_state(Action::Resume), Some(c));
    assert_eq!(clock_action(true, true, true), Some(Action::Resume));
    assert_eq!(clock_action(true, false, true), Some(Action::Pause));
    assert_eq!(clock_action(false, true, false), None);
    assert_eq!(clock_action(true, false, false), None);
}

#[test]
fn counter_increment_then_decrement_gives_back_the_count() {
    let mut c = Counter::<4>::new(Some(Bv::of_u64(15)));
    c.reset();
    c.inputs.reset_n = Bit::T;
    c.inputs.increment = Bit::T;
    c.clock(posedge());
    assert_eq!(c.outputs.data.try_as_u64(), Some(0));
    c.inputs.increment = Bit::F;
    c.inputs.decrement = Bit::T;
    c.clock(posedge());
    assert_eq!(c.outputs.data.try_as_u64(), Some(15));
}

#[test]
fn edge_mask_none_and_contains_all() {
    assert!(SimEdgeMask::none().is_none());
    assert!(!SimEdgeMask::none().add_negedge(2).is_none());
    assert!(!SimEdgeMask::none().add_posedge(0).is_none());
    let m = SimEdgeMask::none().add_posedge(3).add_negedge(5);
    assert!(m.contains_all(&m));
    assert!(m.contains_all(&SimEdgeMask::none()));
    assert!(m.contains_all(&SimEdgeMask::none().add_negedge(5)));
    assert!(!m.contains_all(&SimEdgeMask::none().add_posedge(5)));
}

#[test]
fn nested_structures_clock_resets_then_loads() {
    let mut n = nested_structures::new();
    n.inputs.vector_input_0 = Bv::of_u64(0b0001_0000);
    n.inputs.vector_input_1 = Bv::of_u64(0x3c);
    n.clock(true);
    assert_eq!(n.state_io_clock.cline.p_a.x.try_as_u64(), Some(0xc));
    assert_eq!(n.state_io_clock.cline.p_a.y.try_as_u64(), Some(0x3));
    n.inputs.io_reset = Bit::T;
    n.clock(false);
    assert_eq!(n.state_io_clock.cline.p_a.x.try_as_u64(), Some(0));
    n.inputs.io_reset = Bit::F;
    n.clock(true);
    assert_eq!(n.state_io_clock.cline_2.p_a.x.try_as_u64(), Some(0));
    assert_eq!(n.state_io_clock.cline.p_a.x.try_as_u64(), Some(0xc));
}
