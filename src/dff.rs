//! The D flip-flop: loads `d` into `q` on each rising clock edge.

use crate::block::{child_path, join_path, AtomList, AtomView, Block, Logic};
use crate::signal::{claim, commit, fresh, started_at, In, Out, Signal, SignalModel};
use crate::synth::{Clock, Synth};
use vstd::prelude::*;

verus! {

/// The state of a flip-flop.
pub struct DffModel {
    pub clk: SignalModel,
    pub d: SignalModel,
    pub q: SignalModel,
}

/// A register whose output starts at `init`, with fresh clock and data inputs.
pub open spec fn dff_initial(init: nat) -> DffModel {
    DffModel { clk: fresh(), d: fresh(), q: started_at(init) }
}

/// The register after its connect pass: it drives `q`.
pub open spec fn dff_connected(m: DffModel) -> DffModel {
    DffModel { q: claim(m.q), ..m }
}

/// A rising edge of a clock signal: its last commit took it from low to high.
pub open spec fn rising(m: SignalModel) -> bool {
    m.changed && m.val == 1 && m.prev == 0
}

/// The register's rule: `q` takes `d` on a rising edge and holds otherwise.
pub open spec fn dff_logic(m: DffModel) -> DffModel {
    DffModel { q: SignalModel { next: if rising(m.clk) { m.d.val } else { m.q.val }, ..m.q }, ..m }
}

pub open spec fn dff_step(m: DffModel) -> DffModel {
    let l = dff_logic(m);
    DffModel { clk: commit(l.clk), d: commit(l.d), q: commit(l.q) }
}

/// A register of values of type `T`.
pub struct DFF<T: Synth> {
    pub clk: Signal<In, Clock>,
    pub d: Signal<In, T>,
    pub q: Signal<Out, T>,
}

impl<T: Synth> DFF<T> {
    /// A register whose output starts at `init`.
    pub fn new(init: T) -> (r: DFF<T>)
        ensures
            r.model() == dff_initial(init.enc()),
    {
        DFF { clk: Signal::new(), d: Signal::new(), q: Signal::new_with_default(init) }
    }
}

impl<T: Synth> Block for DFF<T> {
    type Model = DffModel;

    open spec fn model(&self) -> DffModel {
        DffModel { clk: self.clk.model(), d: self.d.model(), q: self.q.model() }
    }

    open spec fn step(m: DffModel) -> DffModel {
        dff_step(m)
    }

    open spec fn changed(m: DffModel) -> bool {
        m.clk.changed || m.d.changed || m.q.changed
    }

    open spec fn atoms(&self, path: Seq<char>) -> Seq<AtomView> {
        self.clk.atoms(join_path(path, "clk"@)) + self.d.atoms(join_path(path, "d"@)) + self.q.atoms(join_path(path, "q"@))
    }

    proof fn lemma_quiet_pass_is_fixed(m: DffModel) {
    }

    fn update_all(&mut self) {
        self.update();
        self.clk.update_all();
        self.d.update_all();
        self.q.update_all();
    }

    fn has_changed(&self) -> (r: bool) {
        self.clk.has_changed() || self.d.has_changed() || self.q.has_changed()
    }

    fn connect_all(&mut self)
        ensures
            final(self).model() == dff_connected(old(self).model()),
    {
        self.connect();
    }

    fn accept(&self, path: &String, probe: &mut AtomList) {
        self.clk.accept(&child_path(path, "clk"), probe);
        self.d.accept(&child_path(path, "d"), probe);
        self.q.accept(&child_path(path, "q"), probe);
        proof { assert(final(probe)@ =~= old(probe)@ + self.atoms(path@)); }
    }
}

impl<T: Synth> Logic for DFF<T> {
    open spec fn logic(m: DffModel) -> DffModel {
        dff_logic(m)
    }

    fn update(&mut self) {
        if self.clk.pos_edge() {
            self.q.next = self.d.val.dup();
        } else {
            self.q.next = self.q.val.dup();
        }
    }

    fn connect(&mut self)
        ensures
            final(self).model() == dff_connected(old(self).model()),
    {
        if !self.q.connected() {
            self.q.connect();
        }
    }
}

} // verus!
