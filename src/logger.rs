//! Logging of tagged values from synchronous circuits. A builder collects
//! scopes and tags, then is consumed to produce the logger.

use crate::bits::Bits;
use vstd::arithmetic::power2::pow2;
use vstd::prelude::*;
use vstd::string::*;

verus! {

/// The handle of a tag: its scope and its index in that scope.
#[derive(Clone, Copy, Debug, PartialEq, Eq, Structural)]
pub struct TagID {
    pub context: usize,
    pub id: usize,
}

/// One logged signal of a tag, named by the namespace path it was made under.
pub struct LogSignal {
    pub name: String,
    pub width: usize,
}

/// A tag with its signals, the last value logged under it and how many
/// values were logged.
pub struct TaggedSignal {
    pub tag: String,
    pub data: Vec<LogSignal>,
    pub last: u64,
    pub count: u64,
}

/// A named scope and its tags.
pub struct ScopeRecord {
    pub name: String,
    pub tags: Vec<TaggedSignal>,
}

/// A clock of the logged design.
pub struct ClockDetails {
    pub name: String,
    pub period_in_fs: u64,
    pub offset_in_fs: u64,
    pub initial_state: bool,
}

/// A value that can be logged: its width and its bits as a word.
pub trait Loggable {
    fn width() -> (r: usize)
        ensures
            r == Self::width_of(),
    ;

    fn to_word(&self) -> (r: u64)
        ensures
            r as nat == self.word_of(),
    ;

    /// The width in bits.
    spec fn width_of() -> nat;

    /// The word that is logged for the value.
    spec fn word_of(&self) -> nat;
}

impl Loggable for bool {
    open spec fn width_of() -> nat {
        1
    }

    open spec fn word_of(&self) -> nat {
        if *self {
            1
        } else {
            0
        }
    }

    fn width() -> (r: usize) {
        1
    }

    fn to_word(&self) -> (r: u64) {
        if *self {
            1
        } else {
            0
        }
    }
}

impl<const N: usize> Loggable for Bits<N> {
    open spec fn width_of() -> nat {
        N as nat
    }

    /// The low 64 bits of the value.
    open spec fn word_of(&self) -> nat {
        self@ % pow2(64)
    }

    fn width() -> (r: usize) {
        N
    }

    fn to_word(&self) -> (r: u64) {
        self.to_u64()
    }
}

/// Collects scopes, tags and clocks; `build` turns it into a logger.
pub struct BasicLoggerBuilder {
    pub scopes: Vec<ScopeRecord>,
    pub clocks: Vec<ClockDetails>,
    pub path: Vec<String>,
}

/// The names of a namespace path joined by `::`.
pub open spec fn joined(path: Seq<Seq<char>>) -> Seq<char>
    decreases path.len(),
{
    if path.len() == 0 {
        Seq::empty()
    } else if path.len() == 1 {
        path[0]
    } else {
        joined(path.drop_last()) + seq![':', ':'] + path.last()
    }
}

/// Each name followed by a line break.
pub open spec fn describe_scopes(names: Seq<Seq<char>>) -> Seq<char>
    decreases names.len(),
{
    if names.len() == 0 {
        Seq::empty()
    } else {
        describe_scopes(names.drop_last()) + names.last() + seq!['\n']
    }
}

/// The record of tag `t`.
pub open spec fn tag_rec(scopes: Seq<ScopeRecord>, t: TagID) -> TaggedSignal {
    scopes[t.context as int].tags@[t.id as int]
}

/// A count one higher, stopping at the largest word.
pub open spec fn bumped(c: u64) -> u64 {
    if c < u64::MAX {
        (c + 1) as u64
    } else {
        c
    }
}

/// `after` differs from `before` at most in the record of tag `t`.
pub open spec fn same_but(before: Seq<ScopeRecord>, after: Seq<ScopeRecord>, t: TagID) -> bool {
    &&& after.len() == before.len()
    &&& forall|i: int| 0 <= i < before.len() && i != t.context ==> #[trigger] after[i] == before[i]
    &&& after[t.context as int].name == before[t.context as int].name
    &&& after[t.context as int].tags@.len() == before[t.context as int].tags@.len()
    &&& forall|j: int| 0 <= j < before[t.context as int].tags@.len() && j != t.id
        ==> #[trigger] after[t.context as int].tags@[j] == before[t.context as int].tags@[j]
}

/// `after` is `before` with the word `w` logged under tag `t`.
pub open spec fn logged(before: Seq<ScopeRecord>, after: Seq<ScopeRecord>, t: TagID, w: nat) -> bool {
    &&& same_but(before, after, t)
    &&& tag_rec(after, t).tag == tag_rec(before, t).tag
    &&& tag_rec(after, t).data == tag_rec(before, t).data
    &&& tag_rec(after, t).last as nat == w
    &&& tag_rec(after, t).count == bumped(tag_rec(before, t).count)
}

/// A tag names an existing scope and tag.
pub open spec fn tag_valid(scopes: Seq<ScopeRecord>, t: TagID) -> bool {
    t.context < scopes.len() && t.id < scopes[t.context as int].tags@.len()
}

impl BasicLoggerBuilder {
    pub open spec fn wf(&self) -> bool {
        self.scopes@.len() >= 1
    }

    /// A builder with the single scope `root`.
    pub fn new() -> (r: Self)
        ensures
            r.wf(),
            r.scopes@.len() == 1,
            r.scopes@[0].name@ == "root"@,
            r.scopes@[0].tags@.len() == 0,
            r.clocks@.len() == 0,
            r.path@.len() == 0,
    {
        let mut scopes: Vec<ScopeRecord> = Vec::new();
        scopes.push(ScopeRecord { name: String::from_str("root"), tags: Vec::new() });
        BasicLoggerBuilder { scopes, clocks: Vec::new(), path: Vec::new() }
    }

    /// Opens a scope named after the latest one and `name`; new tags go
    /// there, under an empty namespace path.
    pub fn scope(&mut self, name: &str)
        requires
            old(self).wf(),
        ensures
            final(self).wf(),
            final(self).scopes@.len() == old(self).scopes@.len() + 1,
            final(self).scopes@.last().name@ == old(self).scopes@.last().name@ + "::"@ + name@,
            final(self).scopes@.last().tags@.len() == 0,
            forall|i: int| 0 <= i < old(self).scopes@.len() ==> #[trigger] final(self).scopes@[i] == old(self).scopes@[i],
            final(self).path@.len() == 0,
            final(self).clocks == old(self).clocks,
    {
        let last = self.scopes.len() - 1;
        let full = self.scopes[last].name.clone().concat("::").concat(name);
        self.scopes.push(ScopeRecord { name: full, tags: Vec::new() });
        self.path = Vec::new();
    }

    /// The namespace path joined by `::`.
    fn path_name(&self) -> (r: String)
        ensures
            r@ == joined(self.path@.map_values(|s: String| s@)),
    {
        let ghost names = self.path@.map_values(|s: String| s@);
        let mut r = String::new();
        let mut i: usize = 0;
        while i < self.path.len()
            invariant
                i <= self.path@.len(),
                names == self.path@.map_values(|s: String| s@),
                r@ == joined(names.take(i as int)),
            decreases self.path@.len() - i,
        {
            proof {
                reveal_strlit("::");
                assert(names.take(i + 1).drop_last() =~= names.take(i as int));
                assert(names.take(i + 1).last() == self.path@[i as int]@);
            }
            if i == 0 {
                r = self.path[0].clone();
            } else {
                r = r.concat("::").concat(self.path[i].as_str());
            }
            i = i + 1;
        }
        proof { assert(names.take(i as int) =~= names); }
        r
    }

    /// Adds a tag named `name` to the latest scope and allocates one signal
    /// of the tagged type's width under the current namespace.
    pub fn tag<L: Loggable>(&mut self, name: &str) -> (r: TagID)
        requires
            old(self).wf(),
        ensures
            final(self).wf(),
            final(self).scopes@.len() == old(self).scopes@.len(),
            r.context == old(self).scopes@.len() - 1,
            r.id == old(self).scopes@.last().tags@.len(),
            tag_valid(final(self).scopes@, r),
            forall|i: int| 0 <= i < old(self).scopes@.len() - 1 ==> #[trigger] final(self).scopes@[i] == old(self).scopes@[i],
            final(self).scopes@.last().name == old(self).scopes@.last().name,
            final(self).scopes@.last().tags@.len() == old(self).scopes@.last().tags@.len() + 1,
            forall|j: int| 0 <= j < old(self).scopes@.last().tags@.len() ==> #[trigger] final(self).scopes@.last().tags@[j] == old(self).scopes@.last().tags@[j],
            ({
                let t = tag_rec(final(self).scopes@, r);
                &&& t.tag@ == name@
                &&& t.last == 0
                &&& t.count == 0
                &&& t.data@.len() == 1
                &&& t.data@[0].width == L::width_of()
                &&& t.data@[0].name@ == joined(old(self).path@.map_values(|s: String| s@))
            }),
            final(self).path == old(self).path,
            final(self).clocks == old(self).clocks,
    {
        let context = self.scopes.len() - 1;
        let id = self.scopes[context].tags.len();
        self.scopes[context].tags.push(TaggedSignal { tag: String::from_str(name), data: Vec::new(), last: 0, count: 0 });
        let t = TagID { context, id };
        let ghost mid = self.scopes@;
        self.allocate(t, L::width());
        proof {
            assert forall|j: int| 0 <= j < old(self).scopes@.last().tags@.len() implies #[trigger] self.scopes@.last().tags@[j] == old(self).scopes@.last().tags@[j] by {
                assert(mid[context as int].tags@[j] == old(self).scopes@.last().tags@[j]);
            }
            assert(tag_rec(mid, t).data@.len() == 0);
            assert(tag_rec(self.scopes@, t).data@.drop_last() =~= Seq::<LogSignal>::empty());
        }
        t
    }

    /// Adds a signal of `width` bits, named by the namespace path, to a tag.
    pub fn allocate(&mut self, tag: TagID, width: usize)
        requires
            old(self).wf(),
            tag_valid(old(self).scopes@, tag),
        ensures
            final(self).wf(),
            final(self).scopes@.len() == old(self).scopes@.len(),
            final(self).path == old(self).path,
            forall|i: int| 0 <= i < old(self).scopes@.len() && i != tag.context ==> #[trigger] final(self).scopes@[i] == old(self).scopes@[i],
            final(self).scopes@[tag.context as int].name == old(self).scopes@[tag.context as int].name,
            final(self).scopes@[tag.context as int].tags@.len() == old(self).scopes@[tag.context as int].tags@.len(),
            same_but(old(self).scopes@, final(self).scopes@, tag),
            ({
                let t0 = tag_rec(old(self).scopes@, tag);
                let t1 = tag_rec(final(self).scopes@, tag);
                &&& t1.tag == t0.tag
                &&& t1.last == t0.last
                &&& t1.count == t0.count
                &&& t1.data@.drop_last() == t0.data@
                &&& t1.data@.len() == t0.data@.len() + 1
                &&& t1.data@.last().width == width
                &&& t1.data@.last().name@ == joined(old(self).path@.map_values(|s: String| s@))
            }),
            final(self).clocks == old(self).clocks,
    {
        let name = self.path_name();
        self.scopes[tag.context].tags[tag.id].data.push(LogSignal { name, width });
        proof {
            let t1 = tag_rec(self.scopes@, tag);
            assert(t1.data@.drop_last() =~= tag_rec(old(self).scopes@, tag).data@);
        }
    }

    /// Enters a namespace: signals allocated from now on are named under it.
    pub fn namespace(&mut self, name: &str)
        ensures
            final(self).path@.len() == old(self).path@.len() + 1,
            final(self).path@.last()@ == name@,
            final(self).path@.drop_last() == old(self).path@,
            final(self).scopes == old(self).scopes,
            final(self).clocks == old(self).clocks,
    {
        self.path.push(String::from_str(name));
        proof { assert(self.path@.drop_last() =~= old(self).path@); }
    }

    /// Leaves the innermost namespace, if any.
    pub fn leave_namespace(&mut self)
        ensures
            final(self).path@ == if old(self).path@.len() == 0 { old(self).path@ } else { old(self).path@.drop_last() },
            final(self).scopes == old(self).scopes,
            final(self).clocks == old(self).clocks,
    {
        if self.path.len() > 0 {
            self.path.pop();
        }
    }

    /// Records a clock of the design.
    pub fn add_clock(&mut self, clock: ClockDetails)
        ensures
            final(self).clocks@ == old(self).clocks@.push(clock),
            final(self).scopes == old(self).scopes,
            final(self).path == old(self).path,
    {
        self.clocks.push(clock);
    }

    /// The scope names, one per line.
    pub fn describe(&self) -> (r: String)
        ensures
            r@ == describe_scopes(self.scopes@.map_values(|s: ScopeRecord| s.name@)),
    {
        let ghost names = self.scopes@.map_values(|s: ScopeRecord| s.name@);
        let mut r = String::new();
        let mut i: usize = 0;
        while i < self.scopes.len()
            invariant
                i <= self.scopes@.len(),
                names == self.scopes@.map_values(|s: ScopeRecord| s.name@),
                r@ == describe_scopes(names.take(i as int)),
            decreases self.scopes@.len() - i,
        {
            proof {
                reveal_strlit("\n");
                assert(names.take(i + 1).drop_last() =~= names.take(i as int));
            }
            r = r.concat(self.scopes[i].name.as_str()).concat("\n");
            i = i + 1;
        }
        proof { assert(names.take(i as int) =~= names); }
        r
    }

    /// Consumes the builder and produces the logger, at time zero.
    pub fn build(self) -> (r: BasicLogger)
        ensures
            r.scopes == self.scopes,
            r.clocks == self.clocks,
            r.field_index == 0,
            r.time_in_fs == 0,
    {
        BasicLogger { scopes: self.scopes, clocks: self.clocks, field_index: 0, time_in_fs: 0 }
    }
}

impl Default for BasicLoggerBuilder {
    fn default() -> (r: Self)
        ensures
            r.wf(),
            r.scopes@.len() == 1,
            r.scopes@[0].name@ == "root"@,
            r.scopes@[0].tags@.len() == 0,
            r.clocks@.len() == 0,
            r.path@.len() == 0,
    {
        BasicLoggerBuilder::new()
    }
}

/// Keeps, for each tag, the last value logged and the number logged.
pub struct BasicLogger {
    pub scopes: Vec<ScopeRecord>,
    pub clocks: Vec<ClockDetails>,
    pub field_index: usize,
    pub time_in_fs: u64,
}

impl BasicLogger {
    /// Logs `value` under `tag`. Returns false, logging nothing, when the
    /// tag names no tag of this logger.
    pub fn log<L: Loggable>(&mut self, tag: TagID, value: &L) -> (r: bool)
        ensures
            r == tag_valid(old(self).scopes@, tag),
            !r ==> final(self).scopes == old(self).scopes,
            r ==> logged(old(self).scopes@, final(self).scopes@, tag, value.word_of()),
            final(self).clocks == old(self).clocks,
            final(self).field_index == old(self).field_index,
            final(self).time_in_fs == old(self).time_in_fs,
    {
        if tag.context >= self.scopes.len() || tag.id >= self.scopes[tag.context].tags.len() {
            return false;
        }
        let w = value.to_word();
        let t = &mut self.scopes[tag.context].tags[tag.id];
        t.last = w;
        if t.count < u64::MAX {
            t.count = t.count + 1;
        }
        true
    }
}

/// A synchronous counter of the cycles whose input is high, modulo `2^N`.
pub struct BitCounter<const N: usize> {
    pub tag_input: TagID,
    pub tag_output: TagID,
}

impl<const N: usize> BitCounter<N> {
    /// A counter whose input and output are the next two tags of the
    /// builder's latest scope, named `input` and `output`.
    pub fn new(builder: &mut BasicLoggerBuilder) -> (r: Self)
        requires
            old(builder).wf(),
        ensures
            final(builder).wf(),
            r.tag_input == (TagID { context: (old(builder).scopes@.len() - 1) as usize, id: old(builder).scopes@.last().tags@.len() as usize }),
            r.tag_output == (TagID { context: (old(builder).scopes@.len() - 1) as usize, id: (old(builder).scopes@.last().tags@.len() + 1) as usize }),
            tag_valid(final(builder).scopes@, r.tag_input),
            tag_valid(final(builder).scopes@, r.tag_output),
            tag_rec(final(builder).scopes@, r.tag_input).tag@ == "input"@,
            tag_rec(final(builder).scopes@, r.tag_output).tag@ == "output"@,
            final(builder).scopes@.len() == old(builder).scopes@.len(),
            final(builder).scopes@.last().tags@.len() == old(builder).scopes@.last().tags@.len() + 2,
    {
        let ghost c = (builder.scopes@.len() - 1) as int;
        let tag_input = builder.tag::<bool>("input");
        let ghost mid = builder.scopes@;
        let tag_output = builder.tag::<Bits<N>>("output");
        proof {
            assert(builder.scopes@[c].tags@[tag_input.id as int] == mid[c].tags@[tag_input.id as int]);
        }
        BitCounter { tag_input, tag_output }
    }

    /// One cycle: the state counts up when `input` is high. Returns the
    /// output, which is the new state, and the new state. Logs `input` under
    /// the input tag, then the output under the output tag.
    pub fn compute(&self, logger: &mut BasicLogger, input: bool, state: Bits<N>) -> (r: (Bits<N>, Bits<N>))
        ensures
            r.1@ == if input { (state@ + 1) % pow2(N as nat) } else { state@ },
            r.0@ == r.1@,
            tag_valid(old(logger).scopes@, self.tag_input) && tag_valid(old(logger).scopes@, self.tag_output)
                ==> exists|mid: Seq<ScopeRecord>|
                    logged(old(logger).scopes@, mid, self.tag_input, input.word_of())
                    && #[trigger] logged(mid, final(logger).scopes@, self.tag_output, r.0.word_of()),
            final(logger).clocks == old(logger).clocks,
    {
        logger.log(self.tag_input, &input);
        let ghost mid = logger.scopes@;
        let new_state = if input {
            let one = Bits::<N>::from_u64(1);
            proof {
                vstd::arithmetic::power2::lemma_pow2_pos(N as nat);
                vstd::arithmetic::div_mod::lemma_add_mod_noop_right(state@ as int, 1, pow2(N as nat) as int);
            }
            state.add(&one)
        } else {
            state
        };
        let output = new_state.dup();
        let ok = logger.log(self.tag_output, &output);
        proof {
            if tag_valid(old(logger).scopes@, self.tag_input) && tag_valid(old(logger).scopes@, self.tag_output) {
                assert(logged(old(logger).scopes@, mid, self.tag_input, input.word_of()));
                assert(tag_valid(mid, self.tag_output));
                assert(ok);
                assert(logged(mid, logger.scopes@, self.tag_output, output.word_of()));
                assert(exists|m: Seq<ScopeRecord>|
                    logged(old(logger).scopes@, m, self.tag_input, input.word_of())
                    && #[trigger] logged(m, logger.scopes@, self.tag_output, output.word_of()));
            }
        }
        let r = (output, new_state);
        proof { assert(r.0.word_of() == output.word_of()); }
        r
    }
}

} // verus!
