use rust_hdl::bits::Bits;
use rust_hdl::block::{check_connected, simulate, AtomIds, AtomKind, AtomList, Block};
use rust_hdl::dff::DFF;
use rust_hdl::constant::Constant;
use rust_hdl::struct_valued::CmdType;
use rust_hdl::signal::{In, Signal};
use rust_hdl::strobe::Strobe;
use rust_hdl::synth::Clock;

#[test]
fn test_visit_version() {
    let mut uut: Strobe<4> = Strobe::new();
    // Simulate 100 clock cycles
    uut.enable.next = true;
    println!("Starting");
    uut.clock.connect();
    uut.enable.connect();
    uut.connect_all();
    assert!(check_connected(&uut).is_empty());
    let mut strobe_count = 0;
    for clock in 0..100_000_000 {
        uut.clock.next = Clock(clock % 2 == 0);
        if !simulate(&mut uut, 10) {
            panic!("Logic did not converge");
        }
        if uut.strobe.val {
            strobe_count += 1;
        }
    }
    assert_eq!(strobe_count, 6_250_000);
}

#[test]
fn second_commit_changes_nothing() {
    let mut s: Signal<In, bool> = Signal::new();
    s.next = true;
    s.update_all();
    assert!(s.changed);
    assert!(s.val);
    assert!(!s.prev);
    s.update_all();
    assert!(!s.changed);
    assert!(s.val);
    assert!(!s.prev);
}

#[test]
fn clock_edges_follow_commits() {
    let mut c: Signal<In, Clock> = Signal::new();
    c.next = Clock(true);
    c.update_all();
    assert!(c.pos_edge());
    assert!(!c.neg_edge());
    c.update_all();
    assert!(!c.pos_edge());
    c.next = Clock(false);
    c.update_all();
    assert!(c.neg_edge());
}

fn run_strobe(max_iters: usize, steps: usize) -> (u64, bool, bool) {
    let mut uut: Strobe<3> = Strobe::new();
    uut.enable.next = true;
    uut.clock.connect();
    uut.enable.connect();
    uut.connect_all();
    for clock in 0..steps {
        uut.clock.next = Clock(clock % 2 == 0);
        assert!(simulate(&mut uut, max_iters));
    }
    (uut.counter.q.val.to_u64(), uut.strobe.val, uut.clock.val.0)
}

#[test]
fn larger_ceiling_gives_same_state() {
    for steps in [1, 2, 7, 16, 33] {
        assert_eq!(run_strobe(100, steps), run_strobe(1000, steps));
    }
    assert_eq!(run_strobe(100, 16).0, 0);
}

#[test]
fn tiny_ceiling_reports_no_convergence() {
    let mut uut: Strobe<3> = Strobe::new();
    uut.enable.next = true;
    uut.clock.next = Clock(true);
    assert!(!simulate(&mut uut, 1));
}

#[test]
fn checker_lists_every_unconnected_atom() {
    let uut: Strobe<4> = Strobe::new();
    let missing = check_connected(&uut);
    assert_eq!(
        missing,
        vec![
            "uut.enable".to_string(),
            "uut.strobe".to_string(),
            "uut.clock".to_string(),
            "uut.counter.clk".to_string(),
            "uut.counter.d".to_string(),
            "uut.counter.q".to_string(),
        ]
    );
}

#[test]
fn checker_reports_only_what_is_left() {
    let mut uut: Strobe<4> = Strobe::new();
    uut.enable.connect();
    uut.connect_all();
    assert_eq!(check_connected(&uut), vec!["uut.clock".to_string()]);
    uut.clock.connect();
    assert!(check_connected(&uut).is_empty());
}

#[test]
fn constants_never_change() {
    let mut ids = AtomIds::new();
    let mut k: Constant<Bits<6>> = Constant::new(Bits::from_u64(32), &mut ids);
    let k2: Constant<Bits<6>> = Constant::new(Bits::from_u64(32), &mut ids);
    assert_ne!(k.id(), k2.id());
    assert_eq!(k.val().to_u64(), 32);
    k.connect_all();
    assert_eq!(k.val().to_u64(), 32);
    k.update_all();
    assert!(!k.has_changed());
    assert!(k.connected());
    assert!(check_connected(&k).is_empty());
}

#[test]
fn signal_names_come_from_the_carried_type() {
    let s: Signal<In, CmdType> = Signal::new();
    assert!(s.is_enum());
    assert_eq!(s.name(1), "Read");
    assert_eq!(s.name(7), "");
    assert_eq!(s.type_label(), "CmdType");
    assert_eq!(s.bits(), 2);
}

#[test]
fn walk_reports_paths_kinds_and_values() {
    let mut uut: Strobe<4> = Strobe::new();
    uut.enable.next = true;
    uut.clock.next = Clock(true);
    assert!(simulate(&mut uut, 10));
    let mut probe = AtomList::new();
    uut.accept(&"top".to_string(), &mut probe);
    assert_eq!(probe.items.len(), 6);
    assert_eq!(probe.items[0].path, "top.enable");
    assert_eq!(probe.items[0].kind, AtomKind::Input);
    assert_eq!(probe.items[0].value, 1);
    assert_eq!(probe.items[5].path, "top.counter.q");
    assert_eq!(probe.items[5].kind, AtomKind::Output);
    assert_eq!(probe.items[5].bits, 4);
    assert_eq!(probe.items[5].value, 1);
}

#[test]
fn test_enum_state() {
    let mut uut: DFF<CmdType> = DFF::new(CmdType::Noop);
    println!("Starting");
    uut.clk.connect();
    uut.d.connect();
    uut.connect_all();
    assert!(check_connected(&uut).is_empty());
    for clock in 0..10 {
        uut.clk.next = Clock(clock % 2 == 0);
        uut.d.next = match uut.q.val {
            CmdType::Noop => CmdType::Read,
            CmdType::Read => CmdType::Write,
            CmdType::Write => CmdType::Noop,
        };
        if !simulate(&mut uut, 10) {
            panic!("Logic did not converge");
        }
        println!("State {:?}", uut.q.val);
    }
    assert_eq!(uut.q.val, CmdType::Write);
}

#[test]
fn test_async() {
    let mut count: DFF<Bits<4>> = DFF::new(Bits::zero());
    assert_eq!(check_connected(&count).len(), 3);
    count.clk.connect();
    count.d.connect();
    count.connect_all();
    assert!(check_connected(&count).is_empty());
}
