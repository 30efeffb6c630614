use rust_hdl::block::{check_connected, simulate, Block};
use rust_hdl::lfsr::LFSRSimple;
use rust_hdl::synth::Clock;

#[test]
fn test_lfsr_simple_synthesizes() {
    let mut uut = LFSRSimple::new();
    uut.clock.connect();
    uut.strobe.connect();
    uut.connect_all();
    assert!(check_connected(&uut).is_empty());
}

fn reference(steps: usize) -> u32 {
    let (mut x, mut y, mut z, mut w): (u32, u32, u32, u32) = (0x62592c62, 0x423b6225, 0x3a613966, 0x84323352);
    for _ in 0..steps {
        let t = x ^ (x << 11);
        let nw = w ^ (w >> 19) ^ t ^ (t >> 8);
        x = y;
        y = z;
        z = w;
        w = nw;
    }
    w
}

#[test]
fn lfsr_follows_xorshift() {
    let mut uut = LFSRSimple::new();
    uut.clock.connect();
    uut.strobe.connect();
    uut.connect_all();
    uut.strobe.next = true;
    for cycle in 0..5usize {
        uut.clock.next = Clock(true);
        assert!(simulate(&mut uut, 20));
        assert_eq!(uut.num.val.to_u64() as u32, reference(cycle + 1));
        uut.clock.next = Clock(false);
        assert!(simulate(&mut uut, 20));
    }
}

#[test]
fn lfsr_holds_without_strobe() {
    let mut uut = LFSRSimple::new();
    uut.strobe.next = false;
    for _ in 0..4 {
        uut.clock.next = Clock(true);
        assert!(simulate(&mut uut, 20));
        uut.clock.next = Clock(false);
        assert!(simulate(&mut uut, 20));
    }
    assert_eq!(uut.num.val.to_u64() as u32, reference(0));
}
