use hgl_sim::clock::{Clock, Schedule};
use hgl_sim::clock_array::{ClockArray, ClockIndex, InstanceHandle};
use hgl_sim::names::SimNsName;
use hgl_sim::simulation::{RunState, SimulationContents};

#[test]
fn sim_clocks() -> Result<(), String> {
    let mut sim = SimulationContents::new();
    assert_eq!(sim.add_clock("clk21", 0, 21, 0)?, 0.into());
    assert_eq!(sim.add_clock("clk5", 17, 5, 3)?, 1.into());
    assert_eq!(sim.add_clock("clk14", 3, 14, 0)?, 2.into());
    sim.prepare_simulation();

    for _ in 0..100 {
        let edges = sim.next_edges();
        println!("{}: Edges {:?}", sim.time(), edges);
    }
    Ok(())
}

/// Every clock edge in the first 200 time units, computed directly
fn expected_edges(clocks: &[(usize, usize, usize)], until: usize) -> Vec<(usize, usize, usize)> {
    let mut r = vec![];
    for t in 0..until {
        let mut pos = 0;
        let mut neg = 0;
        for (i, (delay, period, neg_off)) in clocks.iter().enumerate() {
            if t >= *delay && (t - delay) % period == 0 {
                pos |= 1 << i;
            }
            if *neg_off > 0 && t >= delay + neg_off && (t - delay - neg_off) % period == 0 {
                neg |= 1 << i;
            }
        }
        if pos != 0 || neg != 0 {
            r.push((t, pos, neg));
        }
    }
    r
}

#[test]
fn sim_clocks_edges_in_order() -> Result<(), String> {
    let clocks = [(0, 21, 0), (17, 5, 3), (3, 14, 0)];
    let mut sim = SimulationContents::new();
    sim.add_clock("clk21", 0, 21, 0)?;
    sim.add_clock("clk5", 17, 5, 3)?;
    sim.add_clock("clk14", 3, 14, 0)?;
    sim.prepare_simulation();
    let expected = expected_edges(&clocks, 200);
    for (t, pos, neg) in expected {
        let (p, n) = sim.next_edges();
        assert_eq!((sim.time(), p, n), (t, pos, neg));
    }
    Ok(())
}

#[test]
fn sim_duplicate_clock_name() {
    let mut sim = SimulationContents::new();
    assert_eq!(sim.add_clock("clk", 0, 10, 0), Ok(ClockIndex(0)));
    assert_eq!(
        sim.add_clock("clk", 0, 10, 0),
        Err("Duplicate name clk when trying to create clock".to_string())
    );
    assert_eq!(sim.add_clock("clk2", 0, 10, 0), Ok(ClockIndex(1)));
    assert_eq!(sim.find_clock(SimNsName(0)), None);
    assert_eq!(sim.find_name("clk2").map(|n| n.0), Some(2));
    assert_eq!(sim.find_name("nothing"), None);
}

#[test]
fn sim_run_states() {
    let mut sim = SimulationContents::new();
    assert_eq!(sim.run_state(), RunState::Idle);
    assert_eq!(
        sim.pause(),
        Err("Could not pause; it was already in state Idle".to_string())
    );
    assert_eq!(
        sim.resume(),
        Err("Could not resume; it was already in state Idle".to_string())
    );
    assert_eq!(
        sim.stop(),
        Err("Could not stop; it was already in state Idle".to_string())
    );
    assert_eq!(sim.start(false), Ok(()));
    assert_eq!(sim.run_state(), RunState::Paused);
    assert_eq!(
        sim.start(true),
        Err("Could not start; it was already in state Paused".to_string())
    );
    assert_eq!(sim.pause(), Ok(()));
    assert_eq!(sim.resume(), Ok(()));
    assert_eq!(sim.run_state(), RunState::Running);
    assert_eq!(sim.resume(), Ok(()));
    assert_eq!(sim.pause(), Ok(()));
    assert_eq!(sim.stop(), Ok(()));
    assert_eq!(sim.run_state(), RunState::Stopped);
    assert_eq!(
        sim.stop(),
        Err("Could not stop; it was already in state Stopped".to_string())
    );
}

#[test]
fn clock_array_instance_edges() {
    let mut clocks = ClockArray::new();
    let c0 = clocks.add_clock(SimNsName(0), 0, 4, 2).unwrap();
    let c1 = clocks.add_clock(SimNsName(1), 1, 4, 0).unwrap();
    assert_eq!(
        clocks.add_clock(SimNsName(1), 1, 4, 0),
        Err("Clock already exists".to_string())
    );
    assert_eq!(clocks.find_clock(SimNsName(1)), Some(c1));
    clocks.edge_used_by(c0, InstanceHandle(7), 0, true);
    clocks.edge_used_by(c0, InstanceHandle(7), 1, false);
    clocks.edge_used_by(c1, InstanceHandle(3), 2, true);
    clocks.derive_schedule();
    // time 0: posedge of clock 0
    let e = clocks.next_edges();
    assert_eq!((clocks.time(), e), (0, (1, 0)));
    let ie = clocks.instance_edges(&e);
    assert_eq!(ie.len(), 1);
    assert_eq!(ie[0].0, InstanceHandle(7));
    assert!(ie[0].1.is_posedge(0));
    assert!(!ie[0].1.is_negedge(1));
    // time 1: posedge of clock 1
    let e = clocks.next_edges();
    assert_eq!((clocks.time(), e), (1, (2, 0)));
    let ie = clocks.instance_edges(&e);
    assert_eq!(ie.len(), 1);
    assert_eq!(ie[0].0, InstanceHandle(3));
    assert!(ie[0].1.is_posedge(2));
    // time 2: negedge of clock 0
    let e = clocks.next_edges();
    assert_eq!((clocks.time(), e), (2, (0, 1)));
    let ie = clocks.instance_edges(&e);
    assert_eq!(ie.len(), 1);
    assert!(ie[0].1.is_negedge(1));
    assert!(!ie[0].1.is_posedge(0));
    // no instance edges for masks that never fired
    assert_eq!(clocks.instance_edges(&(3, 3)).len(), 0);
}

#[test]
fn schedule_direct() {
    let clocks = vec![Clock::new(SimNsName(0), 2, 3, 1)];
    let mut s = Schedule::new(&clocks);
    assert_eq!(s.next_edges(&clocks), (1, 0));
    assert_eq!(s.time(), 2);
    assert_eq!(s.next_edges(&clocks), (0, 1));
    assert_eq!(s.time(), 3);
    assert_eq!(s.next_edges(&clocks), (1, 0));
    assert_eq!(s.time(), 5);
}

#[test]
fn connect_clock_uses_registered_edges() {
    let mut sim = SimulationContents::new();
    let clk = sim.add_clock("clk", 0, 4, 2).unwrap();
    sim.register_input_edge(InstanceHandle(0), 0, true, false);
    sim.register_input_edge(InstanceHandle(1), 1, true, true);
    sim.connect_clock(clk, InstanceHandle(0), 0);
    sim.connect_clock(clk, InstanceHandle(1), 1);
    // an input that registered nothing is not driven
    sim.connect_clock(clk, InstanceHandle(2), 0);
    sim.prepare_simulation();
    let e = sim.next_edges();
    assert_eq!((sim.time(), e), (0, (1, 0)));
    let ie = sim.clocks().instance_edges(&e);
    assert_eq!(ie.len(), 2);
    let e = sim.next_edges();
    assert_eq!((sim.time(), e), (2, (0, 1)));
    let ie = sim.clocks().instance_edges(&e);
    assert_eq!(ie.len(), 1);
    assert_eq!(ie[0].0, InstanceHandle(1));
    assert!(ie[0].1.is_negedge(1));
}
