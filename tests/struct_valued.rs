use rust_hdl::bits::Bits;
use rust_hdl::struct_valued::{raw_cast, CmdType, IllegalEncoding, MIGCmd};
use rust_hdl::synth::Synth;

#[test]
fn test_struct_value() {
    let states = [CmdType::Noop, CmdType::Read, CmdType::Write];
    for state in states {
        let b: Bits<2> = state.into();
        let c: CmdType = b.into();
        assert_eq!(c, state);
    }

    for state in states {
        let b = raw_cast::<CmdType, Bits<2>>(state);
        let c = raw_cast::<Bits<2>, CmdType>(b);
        assert_eq!(c, state);
    }
}

#[test]
fn test_composite() {
    assert_eq!(<MIGCmd as Synth>::bits(), 9);
    let x = MIGCmd {
        cmd: CmdType::Read,
        active: true,
        len: 35_usize.into(),
    };

    let y: Bits<9> = x.into();
    assert_eq!(y.get_bits::<2>(0), 1u32.into());
    assert_eq!(y.get_bits::<1>(2), true.into());
    assert_eq!(y.get_bits::<6>(3), 35_u32.into());

    let z0: Bits<9> = 2_usize.into();
    let z1: Bits<9> = 0_usize.into();
    let z2: Bits<9> = 42_usize.into();
    let z = z0.or(&z1.shl(2)).or(&z2.shl(3));
    let x: MIGCmd = z.into();
    assert_eq!(x.active, false);
    assert_eq!(x.cmd, CmdType::Write);
    assert_eq!(x.len, 42_usize.into());
}

#[test]
fn cmd_encoding_round_trips_through_bits() {
    let b: Bits<2> = CmdType::Write.into();
    assert_eq!(b.to_u64(), 2);
    let unused: CmdType = Bits::<2>::from_u64(3).into();
    assert_eq!(unused, CmdType::Noop);
}

#[test]
fn mig_record_packs_fields_by_position() {
    let x = MIGCmd {
        cmd: CmdType::Write,
        active: false,
        len: Bits::from_u64(63),
    };
    let y: Bits<9> = x.into();
    assert_eq!(y.to_u64(), 2 + 8 * 63);
    let back: MIGCmd = y.into();
    assert_eq!(back.cmd, CmdType::Write);
    assert!(!back.active);
    assert_eq!(back.len.to_u64(), 63);
}

#[test]
fn checked_decode_refuses_the_unused_encoding() {
    assert_eq!(CmdType::decode(&Bits::<2>::from_u64(2)), Ok(CmdType::Write));
    assert_eq!(CmdType::decode(&Bits::<2>::from_u64(3)), Err(IllegalEncoding { code: 3 }));
    assert!(MIGCmd::decode(Bits::<9>::from_u64(3)).is_err());
    let m = MIGCmd::decode(Bits::<9>::from_u64(1 + 4 + 8 * 5)).ok().unwrap();
    assert_eq!(m.cmd, CmdType::Read);
    assert!(m.active);
    assert_eq!(m.len.to_u64(), 5);
}
