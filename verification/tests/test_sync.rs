use hgl_sim::edge_mask::SimEdgeMask;
use hgl_sim::port::{Port, PortInfo, StateType};
use hgl_sim::sync::{
    select_workers, BarrierWaitResult, BitSet, SimBlah, SimWaitResult, TockBarrierState,
    WorkerBarrierState,
};

#[test]
fn bit_set() {
    let mut b = BitSet::<2>::new();
    assert!(!b.is_set(3));
    b.set(3, true);
    b.set(9, true);
    assert!(b.is_set(3));
    assert!(b.is_set(9));
    assert!(!b.is_set(8));
    assert_eq!(b.as_u8s(), &[8, 2]);
    b.set(3, false);
    assert!(!b.is_set(3));
    b.as_u8s_mut()[0] = 1;
    assert!(b.is_set(0));
}

#[test]
fn select_released_workers() {
    let polls = vec![(true, false), (false, false), (true, true), (false, true), (true, false)];
    let (bits, n) = select_workers::<1>(&polls, false);
    assert_eq!(n, 2);
    assert!(bits.is_set(0) && !bits.is_set(1) && !bits.is_set(2) && bits.is_set(4));
    let (bits, n) = select_workers::<1>(&polls, true);
    assert_eq!(n, 3);
    assert!(bits.is_set(0) && bits.is_set(1) && !bits.is_set(2) && !bits.is_set(3));
}

#[test]
fn tock_barrier_state() {
    let mut t = TockBarrierState::new(2);
    assert!(t.can_add_worker());
    assert_eq!(t.add_worker(), 0);
    assert_eq!(t.add_worker(), 1);
    assert!(!t.can_add_worker());
    assert_eq!(t.num_running(), 2);
    assert!(t.must_wait());
    t.worker_waiting();
    assert!(t.must_wait());
    t.worker_completed(false);
    assert!(t.must_wait());
    t.worker_completed(true);
    assert!(!t.must_wait());
    t.set_workers_running(1);
    assert!(t.must_wait());
    assert!(!t.finish());
    t.set_finish();
    assert!(t.finish());
    assert_eq!(t.added_workers(), 2);
}

#[test]
fn worker_barrier_state() {
    let mut w = WorkerBarrierState::new();
    assert!(!w.needs_poll());
    assert_eq!(w.poll_result(true), (false, true));
    w.set_added();
    assert!(w.needs_poll());
    assert_eq!(w.poll_result(true), (true, false));
    w.begin_wait();
    assert!(w.must_sleep());
    w.set_run();
    assert!(!w.must_sleep());
    assert_eq!(w.wait_result(), BarrierWaitResult::Stuff);
    w.set_finish();
    assert_eq!(w.wait_result(), BarrierWaitResult::Finish);
    assert!(w.complete());
    assert_eq!(w.poll_result(true), (false, true));
}

#[test]
fn default_poll_is_ready() {
    let mut p = ();
    assert_eq!(p.poll(&SimEdgeMask::none()), SimWaitResult::Ready);
}

#[test]
fn ports() {
    let i = PortInfo::input("data", 3);
    assert_eq!(i.name(), "data");
    assert_eq!(i.kind_index(), 3);
    assert_eq!(i.state_type(), StateType::Input);
    assert_eq!(PortInfo::clk("clk", 0).state_type(), StateType::ClockInput);
    assert_eq!(PortInfo::output("o", 1).state_type(), StateType::Output);
    assert_eq!(PortInfo::internal("s", 2).state_type(), StateType::Internal);
    let _p = Port::new(5, &i, None);
    let _q = Port::new(6, &i, Some(std::any::TypeId::of::<u8>()));
}
