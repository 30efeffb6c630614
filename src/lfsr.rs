//! A pseudo-random number generator built from four shift registers
//! (xorshift), advancing one step on each clock edge while strobed.

use crate::bits::{shl_spec, shr_spec, xor_spec, Bits};
use crate::block::{child_path, join_path, AtomList, AtomView, Block, Logic};
use crate::dff::{dff_connected, dff_initial, dff_step, DffModel, DFF};
use crate::signal::{claim, commit, fresh, In, Local, Out, Signal, SignalModel};
use crate::synth::{Clock, Synth};
use vstd::prelude::*;

verus! {

/// The four 32-bit words of the fixed seed, least significant first.
pub const SEED: u128 = 0x843233523a613966423b622562592c62;

/// The state of the generator.
pub struct LfsrModel {
    pub clock: SignalModel,
    pub strobe: SignalModel,
    pub num: SignalModel,
    pub x: DffModel,
    pub y: DffModel,
    pub z: DffModel,
    pub w: DffModel,
    pub t: SignalModel,
}

/// The generator at its seed: each register is a fresh register holding one
/// 32-bit word of `SEED`, least significant first; every other signal is fresh.
pub open spec fn lfsr_initial() -> LfsrModel {
    LfsrModel {
        clock: fresh(),
        strobe: fresh(),
        num: fresh(),
        x: dff_initial(0x62592c62),
        y: dff_initial(0x423b6225),
        z: dff_initial(0x3a613966),
        w: dff_initial(0x84323352),
        t: fresh(),
    }
}

/// A register whose clock and data inputs are marked connected.
pub open spec fn inputs_claimed(r: DffModel) -> DffModel {
    DffModel { clk: claim(r.clk), d: claim(r.d), ..r }
}

/// What the generator's rule drives: every register's clock and data, `num` and `t`.
pub open spec fn lfsr_claimed(m: LfsrModel) -> LfsrModel {
    LfsrModel {
        num: claim(m.num),
        t: claim(m.t),
        x: inputs_claimed(m.x),
        y: inputs_claimed(m.y),
        z: inputs_claimed(m.z),
        w: inputs_claimed(m.w),
        ..m
    }
}

/// The generator after its connect pass: what the rule drives and every
/// register's output; `clock` and `strobe` are left to the user.
pub open spec fn lfsr_connected(m: LfsrModel) -> LfsrModel {
    let c = lfsr_claimed(m);
    LfsrModel { x: dff_connected(c.x), y: dff_connected(c.y), z: dff_connected(c.z), w: dff_connected(c.w), ..c }
}

pub open spec fn with_clock_and_d(r: DffModel, clk: nat, d: nat) -> DffModel {
    DffModel { clk: SignalModel { next: clk, ..r.clk }, d: SignalModel { next: d, ..r.d }, ..r }
}

/// The next value of the last register when strobed.
pub open spec fn mix(w: nat, t: nat) -> nat {
    xor_spec(xor_spec(xor_spec(w, shr_spec(w, 19, 32), 32), t, 32), shr_spec(t, 8, 32), 32)
}

pub open spec fn lfsr_logic(m: LfsrModel) -> LfsrModel {
    let c = m.clock.val;
    let xq = m.x.q.val;
    let yq = m.y.q.val;
    let zq = m.z.q.val;
    let wq = m.w.q.val;
    let s = m.strobe.val == 1;
    LfsrModel {
        num: SignalModel { next: wq, ..m.num },
        t: SignalModel { next: xor_spec(xq, shl_spec(xq, 11, 32), 32), ..m.t },
        x: with_clock_and_d(m.x, c, if s { yq } else { xq }),
        y: with_clock_and_d(m.y, c, if s { zq } else { yq }),
        z: with_clock_and_d(m.z, c, if s { wq } else { zq }),
        w: with_clock_and_d(m.w, c, if s { mix(wq, m.t.val) } else { wq }),
        ..m
    }
}

pub open spec fn lfsr_step(m: LfsrModel) -> LfsrModel {
    let l = lfsr_logic(m);
    LfsrModel {
        clock: commit(l.clock),
        strobe: commit(l.strobe),
        num: commit(l.num),
        x: dff_step(l.x),
        y: dff_step(l.y),
        z: dff_step(l.z),
        w: dff_step(l.w),
        t: commit(l.t),
    }
}

/// A fixed-sequence generator: `num` shows a new 32-bit value after each
/// rising clock edge at which `strobe` is high.
pub struct LFSRSimple {
    pub clock: Signal<In, Clock>,
    pub strobe: Signal<In, bool>,
    pub num: Signal<Out, Bits<32>>,
    pub x: DFF<Bits<32>>,
    pub y: DFF<Bits<32>>,
    pub z: DFF<Bits<32>>,
    pub w: DFF<Bits<32>>,
    pub t: Signal<Local, Bits<32>>,
}

impl LFSRSimple {
    /// The generator with its registers at the four words of `SEED`.
    pub fn new() -> (r: LFSRSimple)
        ensures
            r.model() == lfsr_initial(),
    {
        proof {
            vstd::arithmetic::power2::lemma2_to64();
            let s = SEED;
            assert(s & 0xFFFF_FFFF == 0x62592c62 && (s >> 32u128) & 0xFFFF_FFFF == 0x423b6225
                && (s >> 64u128) & 0xFFFF_FFFF == 0x3a613966 && (s >> 96u128) & 0xFFFF_FFFF == 0x84323352) by (bit_vector)
                requires s == 0x843233523a613966423b622562592c62u128;
        }
        LFSRSimple {
            clock: Signal::new(),
            strobe: Signal::new(),
            num: Signal::new(),
            x: DFF::new(Bits::from_u64((SEED & 0xFFFF_FFFF) as u64)),
            y: DFF::new(Bits::from_u64(((SEED >> 32) & 0xFFFF_FFFF) as u64)),
            z: DFF::new(Bits::from_u64(((SEED >> 64) & 0xFFFF_FFFF) as u64)),
            w: DFF::new(Bits::from_u64(((SEED >> 96) & 0xFFFF_FFFF) as u64)),
            t: Signal::new(),
        }
    }
}

/// A register whose inputs are driven with the same values on two passes,
/// the first of which changed nothing, is left as it was by the second.
proof fn lemma_register_quiet(r: DffModel, c: nat, d: nat)
    requires
        !DFF::<Bits<32>>::changed(dff_step(with_clock_and_d(r, c, d))),
    ensures
        ({
            let s = dff_step(with_clock_and_d(r, c, d));
            dff_step(with_clock_and_d(s, c, d)) == s
        }),
{
}

impl Default for LFSRSimple {
    fn default() -> (r: LFSRSimple)
        ensures
            r.model() == lfsr_initial(),
    {
        LFSRSimple::new()
    }
}

impl Block for LFSRSimple {
    type Model = LfsrModel;

    open spec fn model(&self) -> LfsrModel {
        LfsrModel {
            clock: self.clock.model(),
            strobe: self.strobe.model(),
            num: self.num.model(),
            x: self.x.model(),
            y: self.y.model(),
            z: self.z.model(),
            w: self.w.model(),
            t: self.t.model(),
        }
    }

    open spec fn step(m: LfsrModel) -> LfsrModel {
        lfsr_step(m)
    }

    open spec fn changed(m: LfsrModel) -> bool {
        m.clock.changed || m.strobe.changed || m.num.changed || DFF::<Bits<32>>::changed(m.x)
            || DFF::<Bits<32>>::changed(m.y) || DFF::<Bits<32>>::changed(m.z) || DFF::<Bits<32>>::changed(m.w)
            || m.t.changed
    }

    open spec fn atoms(&self, path: Seq<char>) -> Seq<AtomView> {
        self.clock.atoms(join_path(path, "clock"@)) + self.strobe.atoms(join_path(path, "strobe"@))
            + self.num.atoms(join_path(path, "num"@)) + self.x.atoms(join_path(path, "x"@))
            + self.y.atoms(join_path(path, "y"@)) + self.z.atoms(join_path(path, "z"@))
            + self.w.atoms(join_path(path, "w"@)) + self.t.atoms(join_path(path, "t"@))
    }

    proof fn lemma_quiet_pass_is_fixed(m: LfsrModel) {
        let s = lfsr_step(m);
        let l = lfsr_logic(m);
        let l2 = lfsr_logic(s);
        assert(s.clock.val == m.clock.val && s.strobe.val == m.strobe.val && s.t.val == m.t.val);
        assert(s.x.q.val == m.x.q.val && s.y.q.val == m.y.q.val && s.z.q.val == m.z.q.val && s.w.q.val == m.w.q.val);
        lemma_register_quiet(m.x, l.x.clk.next, l.x.d.next);
        lemma_register_quiet(m.y, l.y.clk.next, l.y.d.next);
        lemma_register_quiet(m.z, l.z.clk.next, l.z.d.next);
        lemma_register_quiet(m.w, l.w.clk.next, l.w.d.next);
        assert(l2.x == with_clock_and_d(s.x, l.x.clk.next, l.x.d.next));
        assert(l2.y == with_clock_and_d(s.y, l.y.clk.next, l.y.d.next));
        assert(l2.z == with_clock_and_d(s.z, l.z.clk.next, l.z.d.next));
        assert(l2.w == with_clock_and_d(s.w, l.w.clk.next, l.w.d.next));
    }

    fn update_all(&mut self) {
        self.update();
        self.clock.update_all();
        self.strobe.update_all();
        self.num.update_all();
        self.x.update_all();
        self.y.update_all();
        self.z.update_all();
        self.w.update_all();
        self.t.update_all();
    }

    fn has_changed(&self) -> (r: bool) {
        self.clock.has_changed() || self.strobe.has_changed() || self.num.has_changed() || self.x.has_changed()
            || self.y.has_changed() || self.z.has_changed() || self.w.has_changed() || self.t.has_changed()
    }

    fn connect_all(&mut self)
        ensures
            final(self).model() == lfsr_connected(old(self).model()),
    {
        self.connect();
        self.x.connect_all();
        self.y.connect_all();
        self.z.connect_all();
        self.w.connect_all();
    }

    fn accept(&self, path: &String, probe: &mut AtomList) {
        self.clock.accept(&child_path(path, "clock"), probe);
        self.strobe.accept(&child_path(path, "strobe"), probe);
        self.num.accept(&child_path(path, "num"), probe);
        self.x.accept(&child_path(path, "x"), probe);
        self.y.accept(&child_path(path, "y"), probe);
        self.z.accept(&child_path(path, "z"), probe);
        self.w.accept(&child_path(path, "w"), probe);
        self.t.accept(&child_path(path, "t"), probe);
        proof { assert(final(probe)@ =~= old(probe)@ + self.atoms(path@)); }
    }
}

fn mix_words(w: &Bits<32>, t: &Bits<32>) -> (r: Bits<32>)
    ensures
        r@ == mix(w@, t@),
{
    let w1 = w.xor(&w.shr(19));
    let w2 = w1.xor(t);
    w2.xor(&t.shr(8))
}

fn tap(x: &Bits<32>) -> (r: Bits<32>)
    ensures
        r@ == xor_spec(x@, shl_spec(x@, 11, 32), 32),
{
    x.xor(&x.shl(11))
}

/// Drives a register's clock and data inputs.
fn drive(r: &mut DFF<Bits<32>>, c: Clock, d: Bits<32>)
    ensures
        final(r).model() == with_clock_and_d(old(r).model(), c.enc(), d@),
{
    r.clk.next = c;
    r.d.next = d;
}

impl Logic for LFSRSimple {
    open spec fn logic(m: LfsrModel) -> LfsrModel {
        lfsr_logic(m)
    }

    fn update(&mut self) {
        let ghost m0 = self.model();
        let c = self.clock.val;
        let num = self.w.q.val.dup();
        let t = tap(&self.x.q.val);
        let strobed = self.strobe.val;
        let (xd, yd, zd, wd) = if strobed {
            (self.y.q.val.dup(), self.z.q.val.dup(), self.w.q.val.dup(), mix_words(&self.w.q.val, &self.t.val))
        } else {
            (self.x.q.val.dup(), self.y.q.val.dup(), self.z.q.val.dup(), self.w.q.val.dup())
        };
        drive(&mut self.x, c, xd);
        drive(&mut self.y, c, yd);
        drive(&mut self.z, c, zd);
        drive(&mut self.w, c, wd);
        self.num.next = num;
        self.t.next = t;
        proof {
            let l = lfsr_logic(m0);
            assert(self.model().x == l.x);
            assert(self.model().y == l.y);
            assert(self.model().z == l.z);
            assert(self.model().w == l.w);
            assert(self.model().num == l.num);
            assert(self.model().t == l.t);
        }
    }

    fn connect(&mut self)
        ensures
            final(self).model() == lfsr_claimed(old(self).model()),
    {
        claim_inputs(&mut self.x);
        claim_inputs(&mut self.y);
        claim_inputs(&mut self.z);
        claim_inputs(&mut self.w);
        self.num.mark_connected();
        self.t.mark_connected();
    }
}

/// Marks a register's clock and data inputs as connected.
fn claim_inputs(r: &mut DFF<Bits<32>>)
    ensures
        final(r).model() == inputs_claimed(old(r).model()),
{
    r.clk.mark_connected();
    r.d.mark_connected();
}

} // verus!
