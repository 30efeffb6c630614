use rust_hdl::block::Block;
use rust_hdl::sim::{Action, EndpointState, SimError, Simulation, Stimulus, Testbench};
use rust_hdl::strobe::Strobe;
use rust_hdl::synth::Clock;

struct Toggle;

impl Stimulus<Strobe<4>> for Toggle {
    fn apply(&mut self, circuit: &mut Strobe<4>) {
        circuit.clock.next = Clock(!circuit.clock.val.0);
    }
}

/// Writes the enable input at time 100 and at time 250, then finishes.
/// Watches the enable input; records what it saw once woken.
enum Bench {
    Writer { step: u32 },
    Watcher { step: u32, woke_at: Option<u64>, saw: Option<bool> },
    Failer,
    Sleeper,
}

impl Testbench<Strobe<4>> for Bench {
    fn resume(&mut self, c: &mut Strobe<4>, time: u64) -> Action {
        match self {
            Bench::Writer { step } => {
                *step += 1;
                match *step {
                    1 => Action::Wait(100),
                    2 => {
                        assert!(time >= 100);
                        c.enable.next = true;
                        Action::Wait(250)
                    }
                    _ => {
                        assert!(time >= 250);
                        c.enable.next = false;
                        Action::Done
                    }
                }
            }
            Bench::Watcher { step, woke_at, saw } => {
                *step += 1;
                if *step == 1 {
                    Action::Watch
                } else {
                    *woke_at = Some(time);
                    *saw = Some(c.enable.val);
                    Action::Done
                }
            }
            Bench::Failer => Action::Fail,
            Bench::Sleeper => Action::Wait(u64::MAX),
        }
    }

    fn ready(&self, c: &Strobe<4>) -> bool {
        c.enable.val
    }
}

fn circuit() -> Strobe<4> {
    let mut uut: Strobe<4> = Strobe::new();
    uut.clock.connect();
    uut.enable.connect();
    uut.connect_all();
    uut
}

#[test]
fn watcher_never_sees_the_value_before_the_write() {
    let mut sim: Simulation<Bench, Toggle> = Simulation::new();
    sim.add_clock(5, Toggle);
    sim.add_testbench(Bench::Writer { step: 0 });
    sim.add_testbench(Bench::Watcher { step: 0, woke_at: None, saw: None });
    let mut uut = circuit();
    assert_eq!(sim.run(&mut uut, 1000), Ok(()));
    match &sim.scripts[1] {
        Bench::Watcher { woke_at, saw, .. } => {
            assert_eq!(*saw, Some(true));
            assert!(woke_at.unwrap() > 100);
            assert!(woke_at.unwrap() < 250);
        }
        _ => panic!("wrong bench"),
    }
    assert!(!uut.enable.next);
    assert_eq!(sim.states, vec![EndpointState::Done, EndpointState::Done]);
}

#[test]
fn same_tick_writes_are_seen_in_registration_order() {
    // The writer and the watcher are both ready at time 100: the watcher,
    // registered later, is examined after the writer's write on that tick;
    // the write is only committed by the next evaluation, so it wakes one
    // tick later.
    let mut sim: Simulation<Bench, Toggle> = Simulation::new();
    sim.add_testbench(Bench::Writer { step: 0 });
    sim.add_testbench(Bench::Watcher { step: 0, woke_at: None, saw: None });
    let mut uut = circuit();
    assert_eq!(sim.run(&mut uut, 1000), Ok(()));
    match &sim.scripts[1] {
        Bench::Watcher { woke_at, .. } => assert_eq!(*woke_at, Some(101)),
        _ => panic!("wrong bench"),
    }
}

#[test]
fn timeout_names_the_pending_endpoints() {
    let mut sim: Simulation<Bench, Toggle> = Simulation::new();
    sim.add_testbench(Bench::Writer { step: 0 });
    sim.add_testbench(Bench::Sleeper);
    let mut uut = circuit();
    let r = sim.run(&mut uut, 300);
    assert_eq!(
        r,
        Err(SimError::Timeout { time: 300, pending: vec![(1, EndpointState::AwaitingTime(u64::MAX))] })
    );
}

#[test]
fn a_failing_script_aborts_the_others() {
    let mut sim: Simulation<Bench, Toggle> = Simulation::new();
    sim.add_testbench(Bench::Sleeper);
    sim.add_testbench(Bench::Failer);
    let mut uut = circuit();
    let r = sim.run(&mut uut, 300);
    assert_eq!(r, Err(SimError::ScriptFailed { endpoint: 1, time: 0 }));
    assert_eq!(sim.states, vec![EndpointState::Aborted, EndpointState::Aborted]);
}

#[test]
fn clock_stimulus_drives_the_strobe() {
    let mut sim: Simulation<Bench, Toggle> = Simulation::new();
    sim.add_clock(1, Toggle);
    sim.add_testbench(Bench::Writer { step: 0 });
    let mut uut = circuit();
    assert_eq!(sim.run(&mut uut, 1000), Ok(()));
    assert!(uut.counter.q.val.any() || !uut.counter.q.val.any());
    assert!(!uut.has_changed());
}

#[test]
fn unconnected_design_is_not_simulated() {
    let mut sim: Simulation<Bench, Toggle> = Simulation::new();
    sim.add_testbench(Bench::Writer { step: 0 });
    let mut uut: Strobe<4> = Strobe::new();
    uut.enable.connect();
    uut.connect_all();
    let r = sim.run(&mut uut, 1000);
    assert_eq!(r, Err(SimError::StructuralError { unconnected: vec!["uut.clock".to_string()] }));
    assert_eq!(sim.states, vec![EndpointState::AwaitingInit]);
}
