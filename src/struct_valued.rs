//! Enumerations and records carried on wires through their bit encodings.

use crate::bits::Bits;
use crate::synth::{bool_enc, Synth};
use vstd::arithmetic::power2::{lemma2_to64, pow2};
use vstd::prelude::*;

verus! {

/// A memory command.
#[derive(Clone, Copy, Debug, PartialEq, Eq, Structural)]
pub enum CmdType {
    Noop,
    Read,
    Write,
}

pub open spec fn cmd_code(c: CmdType) -> nat {
    match c {
        CmdType::Noop => 0,
        CmdType::Read => 1,
        CmdType::Write => 2,
    }
}

/// The command of an encoding; the unused encoding reads as `Noop`.
pub open spec fn cmd_of_code(c: nat) -> CmdType {
    if c == 1 {
        CmdType::Read
    } else if c == 2 {
        CmdType::Write
    } else {
        CmdType::Noop
    }
}

impl CmdType {
    fn code(&self) -> (r: u64)
        ensures
            r as nat == cmd_code(*self),
    {
        match self {
            CmdType::Noop => 0,
            CmdType::Read => 1,
            CmdType::Write => 2,
        }
    }

    fn of_code(c: u64) -> (r: CmdType)
        ensures
            r == cmd_of_code(c as nat),
    {
        if c == 1 {
            CmdType::Read
        } else if c == 2 {
            CmdType::Write
        } else {
            CmdType::Noop
        }
    }
}

impl Default for CmdType {
    fn default() -> (r: CmdType)
        ensures
            r == CmdType::Noop,
    {
        CmdType::Noop
    }
}

impl Synth for CmdType {
    open spec fn enc(&self) -> nat {
        cmd_code(*self)
    }

    open spec fn width() -> nat {
        2
    }

    fn bits() -> (r: usize) {
        2
    }

    fn initial() -> (r: CmdType) {
        CmdType::Noop
    }

    fn dup(&self) -> (r: CmdType)
        ensures
            r == *self,
    {
        *self
    }

    fn word(&self) -> (r: u64) {
        proof {
            vstd::arithmetic::power2::lemma2_to64_rest();
            vstd::arithmetic::div_mod::lemma_small_mod(cmd_code(*self), pow2(64));
        }
        self.code()
    }

    fn same(&self, o: &CmdType) -> (r: bool) {
        self.code() == o.code()
    }

    open spec fn enum_type() -> bool {
        true
    }

    open spec fn label() -> Seq<char> {
        "CmdType"@
    }

    open spec fn name_of(ndx: nat) -> Seq<char> {
        if ndx == 0 {
            "Noop"@
        } else if ndx == 1 {
            "Read"@
        } else if ndx == 2 {
            "Write"@
        } else {
            ""@
        }
    }

    open spec fn signed_type() -> bool {
        false
    }

    fn signed() -> (r: bool) {
        false
    }

    fn is_enum() -> (r: bool) {
        true
    }

    fn type_label() -> (r: &'static str) {
        "CmdType"
    }

    fn name(ndx: usize) -> (r: &'static str) {
        if ndx == 0 {
            "Noop"
        } else if ndx == 1 {
            "Read"
        } else if ndx == 2 {
            "Write"
        } else {
            ""
        }
    }
}

impl From<CmdType> for Bits<2> {
    fn from(x: CmdType) -> (r: Bits<2>)
        ensures
            r@ == cmd_code(x),
    {
        proof { lemma2_to64(); }
        Bits::from_u64(x.code())
    }
}

impl vstd::std_specs::convert::FromSpecImpl<CmdType> for Bits<2> {
    open spec fn obeys_from_spec() -> bool {
        false
    }

    open spec fn from_spec(v: CmdType) -> Bits<2> {
        arbitrary()
    }
}

impl From<Bits<2>> for CmdType {
    /// Reads an encoding as a command. The unused encoding 3 reads as
    /// `Noop`; `CmdType::decode` refuses it instead.
    fn from(x: Bits<2>) -> (r: CmdType)
        ensures
            x@ == 0 ==> r == CmdType::Noop,
            x@ == 1 ==> r == CmdType::Read,
            x@ == 2 ==> r == CmdType::Write,
            x@ == 3 ==> r == CmdType::Noop,
    {
        proof { vstd::arithmetic::power2::lemma2_to64_rest(); }
        let b = x.dup();
        proof {
            lemma2_to64();
            vstd::arithmetic::div_mod::lemma_small_mod(b@, pow2(64));
        }
        CmdType::of_code(x.to_u64())
    }
}

/// An encoding that names no variant.
#[derive(Clone, Copy, Debug, PartialEq, Eq, Structural)]
pub struct IllegalEncoding {
    pub code: u64,
}

impl CmdType {
    /// Reads an encoding as a command; the unused encoding 3 is an error.
    pub fn decode(x: &Bits<2>) -> (r: Result<CmdType, IllegalEncoding>)
        ensures
            x@ < 3 ==> r == Ok::<CmdType, IllegalEncoding>(cmd_of_code(x@)),
            x@ >= 3 ==> r == Err::<CmdType, IllegalEncoding>(IllegalEncoding { code: 3 }),
    {
        proof { vstd::arithmetic::power2::lemma2_to64_rest(); }
        let b = x.dup();
        proof {
            lemma2_to64();
            vstd::arithmetic::div_mod::lemma_small_mod(b@, pow2(64));
        }
        let c = x.to_u64();
        if c < 3 {
            Ok(CmdType::of_code(c))
        } else {
            Err(IllegalEncoding { code: c })
        }
    }
}

impl vstd::std_specs::convert::FromSpecImpl<Bits<2>> for CmdType {
    open spec fn obeys_from_spec() -> bool {
        true
    }

    open spec fn from_spec(v: Bits<2>) -> CmdType {
        cmd_of_code(v@ % pow2(64))
    }
}

/// Converts between two carried types through `From`.
pub fn raw_cast<S: Synth, T: Synth + From<S>>(x: S) -> (r: T)
    ensures
        call_ensures(T::from, (x,), r),
{
    T::from(x)
}

/// A memory command record: the command in bits 0 and 1, the active flag in
/// bit 2 and the burst length in bits 3 to 8.
pub struct MIGCmd {
    pub cmd: CmdType,
    pub active: bool,
    pub len: Bits<6>,
}

pub open spec fn mig_enc(cmd: CmdType, active: bool, len: nat) -> nat {
    cmd_code(cmd) + 4 * bool_enc(active) + 8 * len
}

impl Synth for MIGCmd {
    open spec fn enc(&self) -> nat {
        mig_enc(self.cmd, self.active, self.len@)
    }

    open spec fn width() -> nat {
        9
    }

    fn bits() -> (r: usize) {
        9
    }

    fn initial() -> (r: MIGCmd) {
        MIGCmd { cmd: CmdType::Noop, active: false, len: Bits::zero() }
    }

    fn dup(&self) -> (r: MIGCmd) {
        MIGCmd { cmd: self.cmd, active: self.active, len: self.len.dup() }
    }

    fn word(&self) -> (r: u64) {
        let bounded = self.len.dup();
        let len = self.len.to_u64();
        proof {
            lemma2_to64();
            vstd::arithmetic::power2::lemma2_to64_rest();
            vstd::arithmetic::div_mod::lemma_small_mod(bounded@, pow2(64));
            vstd::arithmetic::div_mod::lemma_small_mod(self.enc(), pow2(64));
        }
        let a: u64 = if self.active { 4 } else { 0 };
        self.cmd.code() + a + 8 * len
    }

    fn same(&self, o: &MIGCmd) -> (r: bool) {
        let l = self.len.equals(&o.len);
        let c = self.cmd.code() == o.cmd.code();
        proof { lemma2_to64(); }
        c && self.active == o.active && l
    }

    open spec fn enum_type() -> bool {
        false
    }

    open spec fn label() -> Seq<char> {
        "MIGCmd"@
    }

    open spec fn name_of(ndx: nat) -> Seq<char> {
        ""@
    }

    open spec fn signed_type() -> bool {
        false
    }

    fn signed() -> (r: bool) {
        false
    }

    fn is_enum() -> (r: bool) {
        false
    }

    fn type_label() -> (r: &'static str) {
        "MIGCmd"
    }

    fn name(ndx: usize) -> (r: &'static str) {
        ""
    }
}

impl From<MIGCmd> for Bits<9> {
    fn from(x: MIGCmd) -> (r: Bits<9>)
        ensures
            r@ == x.enc(),
    {
        let bounded = x.len.dup();
        let len = x.len.to_u64();
        proof {
            lemma2_to64();
            vstd::arithmetic::power2::lemma2_to64_rest();
            vstd::arithmetic::div_mod::lemma_small_mod(bounded@, pow2(64));
        }
        let a: u64 = if x.active { 4 } else { 0 };
        Bits::from_u64(x.cmd.code() + a + 8 * len)
    }
}

impl vstd::std_specs::convert::FromSpecImpl<MIGCmd> for Bits<9> {
    open spec fn obeys_from_spec() -> bool {
        false
    }

    open spec fn from_spec(v: MIGCmd) -> Bits<9> {
        arbitrary()
    }
}

impl From<Bits<9>> for MIGCmd {
    fn from(x: Bits<9>) -> (r: MIGCmd)
        ensures
            r.cmd == cmd_of_code(x@ % 4),
            r.active == ((x@ / 4) % 2 == 1),
            r.len@ == x@ / 8,
            x@ % 4 != 3 ==> r.enc() == x@,
            x@ % 4 == 3 ==> r.cmd == CmdType::Noop,
    {
        let bounded = x.dup();
        let v = x.to_u64();
        proof {
            lemma2_to64();
            vstd::arithmetic::power2::lemma2_to64_rest();
            vstd::arithmetic::div_mod::lemma_small_mod(bounded@, pow2(64));
        }
        let cmd = CmdType::of_code(v % 4);
        let active = (v / 4) % 2 == 1;
        let len = Bits::<6>::from_u64(v / 8);
        MIGCmd { cmd, active, len }
    }
}

impl MIGCmd {
    /// Reads a record; a command field holding the unused encoding 3 is an error.
    pub fn decode(x: Bits<9>) -> (r: Result<MIGCmd, IllegalEncoding>)
        ensures
            x@ % 4 != 3 <==> r is Ok,
            r matches Ok(m) ==> m.enc() == x@ && m.cmd == cmd_of_code(x@ % 4) && m.active == ((x@ / 4) % 2 == 1) && m.len@ == x@ / 8,
            r matches Err(e) ==> e.code == 3,
    {
        let b = x.dup();
        proof {
            lemma2_to64();
            vstd::arithmetic::power2::lemma2_to64_rest();
            vstd::arithmetic::div_mod::lemma_small_mod(b@, pow2(64));
        }
        if x.to_u64() % 4 == 3 {
            Err(IllegalEncoding { code: 3 })
        } else {
            Ok(MIGCmd::from(x))
        }
    }
}

impl vstd::std_specs::convert::FromSpecImpl<Bits<9>> for MIGCmd {
    open spec fn obeys_from_spec() -> bool {
        false
    }

    open spec fn from_spec(v: Bits<9>) -> MIGCmd {
        arbitrary()
    }
}

} // verus!
