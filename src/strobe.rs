//! A strobe: a one-cycle pulse every `2^N` clock cycles while enabled.

use crate::bits::Bits;
use crate::block::{child_path, join_path, AtomList, AtomView, Block, Logic};
use crate::dff::{dff_connected, dff_initial, dff_step, DffModel, DFF};
use crate::signal::{claim, commit, fresh, In, Out, Signal, SignalModel};
use crate::synth::{bool_enc, Clock, Synth};
use vstd::arithmetic::div_mod::lemma_add_mod_noop_right;
use vstd::arithmetic::power2::{lemma_pow2_pos, pow2};
use vstd::prelude::*;

verus! {

/// The state of a strobe.
pub struct StrobeModel {
    pub enable: SignalModel,
    pub strobe: SignalModel,
    pub clock: SignalModel,
    pub counter: DffModel,
}

/// The strobe's rule: the counter follows the clock and counts while
/// enabled; the strobe is high while enabled and the counter reads zero.
pub open spec fn strobe_logic(m: StrobeModel, n: nat) -> StrobeModel {
    let c = m.counter;
    let d = if m.enable.val == 1 {
        SignalModel { next: (c.q.val + 1) % pow2(n), ..c.d }
    } else {
        c.d
    };
    StrobeModel {
        strobe: SignalModel { next: bool_enc(m.enable.val == 1 && c.q.val == 0), ..m.strobe },
        counter: DffModel { clk: SignalModel { next: m.clock.val, ..c.clk }, d, ..c },
        ..m
    }
}

pub open spec fn strobe_step(m: StrobeModel, n: nat) -> StrobeModel {
    let l = strobe_logic(m, n);
    StrobeModel {
        enable: commit(l.enable),
        strobe: commit(l.strobe),
        clock: commit(l.clock),
        counter: dff_step(l.counter),
    }
}

/// A strobe with fresh signals and its counter at zero.
pub open spec fn strobe_initial() -> StrobeModel {
    StrobeModel { enable: fresh(), strobe: fresh(), clock: fresh(), counter: dff_initial(0) }
}

/// What the strobe's rule drives: the counter's clock and data, and `strobe`.
pub open spec fn strobe_claimed(m: StrobeModel) -> StrobeModel {
    StrobeModel {
        strobe: claim(m.strobe),
        counter: DffModel { clk: claim(m.counter.clk), d: claim(m.counter.d), ..m.counter },
        ..m
    }
}

/// The strobe after its connect pass: what the rule drives, and the
/// counter's output.
pub open spec fn strobe_connected(m: StrobeModel) -> StrobeModel {
    let c = strobe_claimed(m);
    StrobeModel { counter: dff_connected(c.counter), ..c }
}

/// Pulses `strobe` for one clock cycle out of every `2^N` while `enable` is high.
pub struct Strobe<const N: usize> {
    pub enable: Signal<In, bool>,
    pub strobe: Signal<Out, bool>,
    pub clock: Signal<In, Clock>,
    pub counter: DFF<Bits<N>>,
}

impl<const N: usize> Strobe<N> {
    /// A strobe with its counter at zero and nothing connected.
    pub fn new() -> (r: Strobe<N>)
        ensures
            r.model() == strobe_initial(),
    {
        Strobe { enable: Signal::new(), strobe: Signal::new(), clock: Signal::new(), counter: DFF::new(Bits::zero()) }
    }
}

impl<const N: usize> Default for Strobe<N> {
    fn default() -> (r: Strobe<N>)
        ensures
            r.model() == strobe_initial(),
    {
        Strobe::new()
    }
}

impl<const N: usize> Block for Strobe<N> {
    type Model = StrobeModel;

    open spec fn model(&self) -> StrobeModel {
        StrobeModel {
            enable: self.enable.model(),
            strobe: self.strobe.model(),
            clock: self.clock.model(),
            counter: self.counter.model(),
        }
    }

    open spec fn step(m: StrobeModel) -> StrobeModel {
        strobe_step(m, N as nat)
    }

    open spec fn changed(m: StrobeModel) -> bool {
        m.enable.changed || m.strobe.changed || m.clock.changed || DFF::<Bits<N>>::changed(m.counter)
    }

    open spec fn atoms(&self, path: Seq<char>) -> Seq<AtomView> {
        self.enable.atoms(join_path(path, "enable"@)) + self.strobe.atoms(join_path(path, "strobe"@))
            + self.clock.atoms(join_path(path, "clock"@)) + self.counter.atoms(join_path(path, "counter"@))
    }

    proof fn lemma_quiet_pass_is_fixed(m: StrobeModel) {
    }

    fn update_all(&mut self) {
        self.update();
        self.enable.update_all();
        self.strobe.update_all();
        self.clock.update_all();
        self.counter.update_all();
    }

    fn has_changed(&self) -> (r: bool) {
        self.enable.has_changed() || self.strobe.has_changed() || self.clock.has_changed() || self.counter.has_changed()
    }

    /// Marks what the rule drives and the counter's output; the inputs
    /// `enable` and `clock` are left to the user.
    fn connect_all(&mut self)
        ensures
            final(self).model() == strobe_connected(old(self).model()),
    {
        self.connect();
        self.counter.connect_all();
    }

    fn accept(&self, path: &String, probe: &mut AtomList) {
        self.enable.accept(&child_path(path, "enable"), probe);
        self.strobe.accept(&child_path(path, "strobe"), probe);
        self.clock.accept(&child_path(path, "clock"), probe);
        self.counter.accept(&child_path(path, "counter"), probe);
        proof { assert(final(probe)@ =~= old(probe)@ + self.atoms(path@)); }
    }
}

impl<const N: usize> Logic for Strobe<N> {
    open spec fn logic(m: StrobeModel) -> StrobeModel {
        strobe_logic(m, N as nat)
    }

    fn update(&mut self) {
        self.counter.clk.next = self.clock.val;
        if self.enable.val {
            let one = Bits::<N>::from_u64(1);
            self.counter.d.next = self.counter.q.val.add(&one);
            proof {
                lemma_pow2_pos(N as nat);
                lemma_add_mod_noop_right(self.counter.q.val@ as int, 1, pow2(N as nat) as int);
            }
        }
        self.strobe.next = self.enable.val && !self.counter.q.val.any();
    }

    fn connect(&mut self)
        ensures
            final(self).model() == strobe_claimed(old(self).model()),
    {
        if !self.counter.clk.connected() {
            self.counter.clk.connect();
        }
        if !self.counter.d.connected() {
            self.counter.d.connect();
        }
        if !self.strobe.connected() {
            self.strobe.connect();
        }
    }
}

} // verus!
