//! Composable circuit nodes, the walk over their atoms, the convergence
//! engine and the connectivity checker.

use vstd::prelude::*;
use vstd::string::*;

verus! {

/// The role of an atom in its circuit.
#[derive(Clone, Copy, Debug, PartialEq, Eq, Structural)]
pub enum AtomKind {
    Input,
    Output,
    Local,
    InOut,
    Constant,
}

/// What the walk reports of one atom.
pub struct AtomView {
    pub path: Seq<char>,
    pub bits: nat,
    pub kind: AtomKind,
    pub connected: bool,
    pub changed: bool,
    /// The low 64 bits of the committed value.
    pub value: nat,
    /// Whether the value is read as a signed number.
    pub signed: bool,
}

/// One atom reached by the walk over a block, with its dotted path.
pub struct AtomInfo {
    pub path: String,
    pub bits: usize,
    pub kind: AtomKind,
    pub connected: bool,
    pub changed: bool,
    /// The low 64 bits of the committed value.
    pub value: u64,
    /// Whether the value is read as a signed number.
    pub signed: bool,
}

impl View for AtomInfo {
    type V = AtomView;

    open spec fn view(&self) -> AtomView {
        AtomView {
            path: self.path@,
            bits: self.bits as nat,
            kind: self.kind,
            connected: self.connected,
            changed: self.changed,
            value: self.value as nat,
            signed: self.signed,
        }
    }
}

/// Issues atom identities: each one once, in increasing order, so the
/// atoms built from one source have distinct ids.
pub struct AtomIds {
    next: usize,
}

impl AtomIds {
    /// How many ids were issued; the next id issued is this number.
    pub closed spec fn issued(&self) -> nat {
        self.next as nat
    }

    pub fn new() -> (r: AtomIds)
        ensures
            r.issued() == 0,
    {
        AtomIds { next: 0 }
    }

    /// A fresh id, above every id issued before.
    pub fn issue(&mut self) -> (r: usize)
        requires
            old(self).issued() < usize::MAX,
        ensures
            r == old(self).issued(),
            final(self).issued() == old(self).issued() + 1,
    {
        let r = self.next;
        self.next = self.next + 1;
        r
    }
}

/// The atoms met by a walk, in the order met.
pub struct AtomList {
    pub items: Vec<AtomInfo>,
}

impl View for AtomList {
    type V = Seq<AtomView>;

    open spec fn view(&self) -> Seq<AtomView> {
        self.items@.map_values(|a: AtomInfo| a@)
    }
}

impl AtomList {
    pub fn new() -> (r: AtomList)
        ensures
            r@ == Seq::<AtomView>::empty(),
    {
        let r = AtomList { items: Vec::new() };
        proof { assert(r@ =~= Seq::<AtomView>::empty()); }
        r
    }

    /// Records one atom.
    pub fn visit_atom(&mut self, a: AtomInfo)
        ensures
            final(self)@ == old(self)@.push(a@),
    {
        let ghost v = a@;
        self.items.push(a);
        proof { assert(self@ =~= old(self)@.push(v)); }
    }
}

/// The path of a child named `name` under `path`.
pub open spec fn join_path(path: Seq<char>, name: Seq<char>) -> Seq<char> {
    path + seq!['.'] + name
}

/// Builds the path of a child named `name` under `path`.
pub fn child_path(path: &String, name: &str) -> (r: String)
    ensures
        r@ == join_path(path@, name@),
{
    proof { reveal_strlit("."); }
    path.clone().concat(".").concat(name)
}

/// A node of the circuit tree: a signal, a constant, or a composite of
/// other blocks. Its state is described by a mathematical model.
pub trait Block: Sized {
    type Model;

    /// The state of the block.
    spec fn model(&self) -> Self::Model;

    /// One evaluation pass: the block's own update rule, then the pass of
    /// each child in turn; a signal's pass is its commit.
    spec fn step(m: Self::Model) -> Self::Model;

    /// Whether the last commit changed any signal of the tree.
    spec fn changed(m: Self::Model) -> bool;

    /// Every atom of the tree, named by its dotted path under `path`.
    spec fn atoms(&self, path: Seq<char>) -> Seq<AtomView>;

    /// A pass that changes nothing leaves the tree at a fixed point: the next
    /// pass proposes the same values again and changes nothing either.
    proof fn lemma_quiet_pass_is_fixed(m: Self::Model)
        requires
            !Self::changed(Self::step(m)),
        ensures
            Self::step(Self::step(m)) == Self::step(m),
    ;

    /// Runs one evaluation pass over the whole tree.
    fn update_all(&mut self)
        ensures
            final(self).model() == Self::step(old(self).model()),
    ;

    /// Whether the last commit changed any signal of the tree.
    fn has_changed(&self) -> (r: bool)
        ensures
            r == Self::changed(self.model()),
    ;

    /// Marks as connected the atoms that the tree's own rules drive.
    fn connect_all(&mut self);

    /// Hands every atom of the tree, with its dotted path, to `probe`.
    fn accept(&self, path: &String, probe: &mut AtomList)
        ensures
            final(probe)@ == old(probe)@ + self.atoms(path@),
    ;
}

/// The update rule of a composite block.
pub trait Logic: Block {
    /// The proposed values that the rule writes, as a function of the state.
    spec fn logic(m: Self::Model) -> Self::Model;

    /// Writes the proposed values of the atoms that the rule drives.
    fn update(&mut self)
        ensures
            final(self).model() == Self::logic(old(self).model()),
    ;

    /// Marks as connected the atoms that the rule drives.
    fn connect(&mut self);
}

/// Repeats evaluation passes from `m` until one changes nothing, for at most
/// `fuel` passes. The flag tells whether such a pass was reached.
pub open spec fn converge<B: Block>(m: B::Model, fuel: nat) -> (B::Model, bool)
    decreases fuel,
{
    if fuel == 0 {
        (m, false)
    } else {
        let n = B::step(m);
        if !B::changed(n) {
            (n, true)
        } else {
            converge::<B>(n, (fuel - 1) as nat)
        }
    }
}

/// Drives evaluation passes until the circuit settles. Returns false when
/// `max_iters` passes did not reach a pass that changes nothing.
pub fn simulate<B: Block>(uut: &mut B, max_iters: usize) -> (r: bool)
    ensures
        (final(uut).model(), r) == converge::<B>(old(uut).model(), max_iters as nat),
{
    let mut i: usize = 0;
    while i < max_iters
        invariant
            i <= max_iters,
            converge::<B>(uut.model(), (max_iters - i) as nat) == converge::<B>(old(uut).model(), max_iters as nat),
        decreases max_iters - i,
    {
        uut.update_all();
        if !uut.has_changed() {
            return true;
        }
        i = i + 1;
    }
    false
}

/// Once the engine has settled within `n` passes, a larger ceiling gives the
/// same final state: the extra passes are never run.
pub proof fn law_larger_ceiling_same_state<B: Block>(m: B::Model, n: nat, k: nat)
    requires
        converge::<B>(m, n).1,
        n <= k,
    ensures
        converge::<B>(m, k) == converge::<B>(m, n),
    decreases n,
{
    if n > 0 {
        let s = B::step(m);
        if B::changed(s) {
            law_larger_ceiling_same_state::<B>(s, (n - 1) as nat, (k - 1) as nat);
        }
    }
}

/// `k` evaluation passes from `m`.
pub open spec fn passes<B: Block>(m: B::Model, k: nat) -> B::Model
    decreases k,
{
    if k == 0 {
        m
    } else {
        passes::<B>(B::step(m), (k - 1) as nat)
    }
}

/// Once a pass has changed nothing, a second pass changes nothing either and
/// leaves every value where it was.
pub proof fn law_second_pass_changes_nothing<B: Block>(m: B::Model)
    requires
        !B::changed(B::step(m)),
    ensures
        B::step(B::step(m)) == B::step(m),
        !B::changed(B::step(B::step(m))),
{
    B::lemma_quiet_pass_is_fixed(m);
}

/// The state that the engine settles on is a fixed point of a pass.
pub proof fn lemma_converged_is_fixed<B: Block>(m: B::Model, n: nat)
    requires
        converge::<B>(m, n).1,
    ensures
        B::step(converge::<B>(m, n).0) == converge::<B>(m, n).0,
        !B::changed(converge::<B>(m, n).0),
    decreases n,
{
    let s = B::step(m);
    if !B::changed(s) {
        B::lemma_quiet_pass_is_fixed(m);
    } else {
        lemma_converged_is_fixed::<B>(s, (n - 1) as nat);
    }
}

/// Extra passes after the engine has settled leave the committed state as
/// it was, however many are run.
pub proof fn law_extra_passes_keep_state<B: Block>(m: B::Model, n: nat, k: nat)
    requires
        converge::<B>(m, n).1,
    ensures
        passes::<B>(converge::<B>(m, n).0, k) == converge::<B>(m, n).0,
    decreases k,
{
    lemma_converged_is_fixed::<B>(m, n);
    if k > 0 {
        law_extra_passes_keep_state::<B>(m, n, (k - 1) as nat);
    }
}

/// The paths of the atoms that are not connected, in the order met.
pub open spec fn unconnected_paths(atoms: Seq<AtomView>) -> Seq<Seq<char>>
    decreases atoms.len(),
{
    if atoms.len() == 0 {
        Seq::empty()
    } else {
        let rest = unconnected_paths(atoms.drop_last());
        if atoms.last().connected {
            rest
        } else {
            rest.push(atoms.last().path)
        }
    }
}

/// Walks the whole tree under the root name `uut` and lists the path of
/// every atom that is not connected. An empty list means the design may be
/// simulated or synthesized.
pub fn check_connected<B: Block>(uut: &B) -> (r: Vec<String>)
    ensures
        r@.map_values(|s: String| s@) == unconnected_paths(uut.atoms("uut"@)),
{
    let root = String::from_str("uut");
    let mut probe = AtomList::new();
    uut.accept(&root, &mut probe);
    let ghost all = probe@;
    proof { assert(all =~= uut.atoms("uut"@)); }
    let mut out: Vec<String> = Vec::new();
    let mut i: usize = 0;
    while i < probe.items.len()
        invariant
            i <= probe.items@.len(),
            all == probe@,
            out@.map_values(|s: String| s@) == unconnected_paths(all.take(i as int)),
        decreases probe.items@.len() - i,
    {
        let a = &probe.items[i];
        proof {
            assert(all.take(i + 1).drop_last() =~= all.take(i as int));
            assert(all.take(i + 1).last() == a@);
        }
        if !a.connected {
            let ghost before = out@;
            out.push(a.path.clone());
            proof {
                assert(out@.map_values(|s: String| s@) =~= before.map_values(|s: String| s@).push(a.path@));
            }
        }
        i = i + 1;
    }
    proof { assert(all.take(i as int) =~= all); }
    out
}

} // verus!
