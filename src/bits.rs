//! Fixed-width bit vectors with wraparound arithmetic.

use vstd::arithmetic::div_mod::*;
use vstd::arithmetic::mul::*;
use vstd::arithmetic::power2::*;
use vstd::bits::*;
use vstd::prelude::*;

verus! {

/// Bit `i` of the natural number `x`.
pub open spec fn bit_of(x: nat, i: nat) -> bool {
    (x / pow2(i)) % 2 == 1
}

/// The unsigned value of little-endian 64-bit words.
pub open spec fn words_value(ws: Seq<u64>) -> nat
    decreases ws.len(),
{
    if ws.len() == 0 {
        0
    } else {
        words_value(ws.drop_last()) + pow2((64 * (ws.len() - 1)) as nat) * (ws.last() as nat)
    }
}

/// Number of 64-bit words that hold `n` bits.
pub open spec fn word_count(n: nat) -> nat {
    ((n + 63) / 64) as nat
}

/// Bits of the top word that belong to a width of `n` bits, `n > 0`.
pub open spec fn top_bits(n: nat) -> nat {
    (n - 64 * (word_count(n) - 1)) as nat
}

proof fn lemma_bit_of_u64(w: u64, i: nat)
    requires
        i < 64,
    ensures
        bit_of(w as nat, i) == ((w >> (i as u64)) & 1 == 1),
{
    lemma_u64_shr_is_div(w, i as u64);
    let q = w >> (i as u64);
    assert(q & 1 == q % 2) by (bit_vector);
}

proof fn lemma_words_value_bound(ws: Seq<u64>)
    ensures
        words_value(ws) < pow2((64 * ws.len()) as nat),
    decreases ws.len(),
{
    if ws.len() == 0 {
        lemma2_to64();
    } else {
        let l = (64 * (ws.len() - 1)) as nat;
        lemma_words_value_bound(ws.drop_last());
        lemma_pow2_adds(l, 64);
        lemma2_to64_rest();
        let p = pow2(l);
        let t = ws.last() as int;
        assert(p * t + p <= p * pow2(64)) by (nonlinear_arith)
            requires t + 1 <= pow2(64), p > 0;
    }
}

/// The bits of `lo + 2^l * hi` are those of `lo` below `l` and those of `hi` above.
proof fn lemma_bit_of_split(lo: nat, hi: nat, l: nat, i: nat)
    requires
        lo < pow2(l),
    ensures
        bit_of(lo + pow2(l) * hi, i) == if i < l {
            bit_of(lo, i)
        } else {
            bit_of(hi, (i - l) as nat)
        },
{
    let x = lo + pow2(l) * hi;
    lemma_pow2_pos(l);
    lemma_pow2_pos(i);
    if i < l {
        let d = (l - i) as nat;
        lemma_pow2_adds(i, d);
        lemma_pow2_pos(d);
        // x / 2^i == lo / 2^i + 2^d * hi
        assert(pow2(l) * hi == pow2(i) * (pow2(d) * hi)) by {
            lemma_mul_is_associative(pow2(i) as int, pow2(d) as int, hi as int);
        }
        let pi = pow2(i) as int;
        let q = lo as int / pi;
        let r = lo as int % pi;
        let m = (pow2(d) * hi) as int;
        lemma_fundamental_div_mod(lo as int, pi);
        lemma_mod_bound(lo as int, pi);
        assert(x as int == (q + m) * pi + r) by (nonlinear_arith)
            requires
                lo as int == pi * q + r,
                pow2(l) * hi == pi * m,
                x == lo + pow2(l) * hi,
        ;
        lemma_fundamental_div_mod_converse_div(x as int, pi, q + m, r);
        lemma_pow2_unfold(d);
        assert(pow2(d) * hi == 2 * (pow2((d - 1) as nat) * hi)) by {
            lemma_mul_is_associative(2, pow2((d - 1) as nat) as int, hi as int);
        }
        lemma_mod_multiples_vanish((pow2((d - 1) as nat) * hi) as int, q, 2);
    } else {
        let d = (i - l) as nat;
        lemma_pow2_adds(l, d);
        lemma_pow2_pos(d);
        assert(x / pow2(l) == hi) by {
            lemma_mul_is_commutative(pow2(l) as int, hi as int);
            lemma_fundamental_div_mod_converse_div(x as int, pow2(l) as int, hi as int, lo as int);
        }
        lemma_div_denominator(x as int, pow2(l) as int, pow2(d) as int);
    }
}

/// The bits of a word sequence are the bits of its words, word by word.
proof fn lemma_bit_of_words(ws: Seq<u64>, i: nat)
    requires
        i < 64 * ws.len(),
    ensures
        bit_of(words_value(ws), i) == bit_of(ws[(i / 64) as int] as nat, i % 64),
    decreases ws.len(),
{
    let init = ws.drop_last();
    let l = (64 * (ws.len() - 1)) as nat;
    lemma_words_value_bound(init);
    lemma_bit_of_split(words_value(init), ws.last() as nat, l, i);
    if i < l {
        lemma_bit_of_words(init, i);
    }
}

/// Bit `b` of `w` set to `v`, the other bits unchanged.
proof fn lemma_word_with_bit(w: u64, b: u64, v: bool, r: u64)
    requires
        b < 64,
        r == if v { w | (1u64 << b) } else { w & !(1u64 << b) },
    ensures
        forall|c: nat| c < 64 ==> #[trigger] bit_of(r as nat, c) == if c == b { v } else { bit_of(w as nat, c) },
{
    assert forall|c: nat| c < 64 implies #[trigger] bit_of(r as nat, c) == if c == b { v } else { bit_of(w as nat, c) } by {
        lemma_bit_of_u64(r, c);
        lemma_bit_of_u64(w, c);
        let cc = c as u64;
        if v {
            assert(((w | (1u64 << b)) >> cc) & 1 == if cc == b { 1u64 } else { (w >> cc) & 1 }) by (bit_vector)
                requires b < 64, cc < 64;
        } else {
            assert(((w & !(1u64 << b)) >> cc) & 1 == if cc == b { 0u64 } else { (w >> cc) & 1 }) by (bit_vector)
                requires b < 64, cc < 64;
        }
    }
}

/// Setting or clearing a bit below `t` keeps a word below `2^t`.
proof fn lemma_word_with_bit_bound(w: u64, b: u64, v: bool, r: u64, t: nat)
    requires
        b < t <= 64,
        (w as nat) < pow2(t),
        r == if v { w | (1u64 << b) } else { w & !(1u64 << b) },
    ensures
        (r as nat) < pow2(t),
{
    if t == 64 {
        lemma2_to64_rest();
    } else {
        let tt = t as u64;
        lemma_u64_pow2_no_overflow(t);
        lemma_u64_shl_is_mul(1, tt);
        assert(r < (1u64 << tt)) by (bit_vector)
            requires
                b < tt, tt < 64, w < (1u64 << tt),
                r == if v { w | (1u64 << b) } else { w & !(1u64 << b) };
    }
}

/// `1 << n` as a word, for `n < 64`.
fn pow2_word(n: usize) -> (r: u64)
    requires
        n < 64,
    ensures
        r as nat == pow2(n as nat),
        r > 0,
{
    proof {
        lemma_pow2_pos(n as nat);
        lemma_u64_pow2_no_overflow(n as nat);
        lemma_u64_shl_is_mul(1, n as u64);
    }
    1u64 << (n as u64)
}

/// A word sequence splits at any word boundary.
proof fn lemma_words_split(s: Seq<u64>, i: nat)
    requires
        i <= s.len(),
    ensures
        words_value(s) == words_value(s.take(i as int)) + pow2(64 * i) * words_value(s.skip(i as int)),
    decreases s.len(),
{
    if s.len() == i {
        assert(s.take(i as int) =~= s);
        assert(s.skip(i as int) =~= Seq::<u64>::empty());
    } else {
        let init = s.drop_last();
        let n = s.len();
        lemma_words_split(init, i);
        assert(init.take(i as int) =~= s.take(i as int));
        let tail = s.skip(i as int);
        assert(tail.drop_last() =~= init.skip(i as int));
        assert(tail.last() == s.last());
        let pi = pow2(64 * i);
        let pr = pow2((64 * (tail.len() - 1)) as nat);
        lemma_pow2_adds(64 * i, (64 * (tail.len() - 1)) as nat);
        assert(pow2((64 * (n - 1)) as nat) == pi * pr);
        let a = words_value(init.skip(i as int));
        let t = s.last() as int;
        assert(pi * (a + pr * t) == pi * a + (pi * pr) * t) by (nonlinear_arith);
    }
}

proof fn lemma_words_single(ws: Seq<u64>)
    requires
        ws.len() >= 1,
        forall|j: int| 1 <= j < ws.len() ==> ws[j] == 0,
    ensures
        words_value(ws) == ws[0],
{
    lemma_words_split(ws, 1);
    let rest = ws.skip(1);
    assert forall|j: int| 0 <= j < rest.len() implies rest[j] == 0 by {
        assert(rest[j] == ws[j + 1]);
    }
    lemma_words_zero(rest);
    lemma_words_first(ws);
}

proof fn lemma_words_first(ws: Seq<u64>)
    requires
        ws.len() >= 1,
    ensures
        words_value(ws.take(1)) == ws[0],
{
    let t = ws.take(1);
    assert(t.drop_last() =~= Seq::<u64>::empty());
    assert(words_value(Seq::<u64>::empty()) == 0);
    assert(t.last() == ws[0]);
    lemma2_to64();
    assert(words_value(t) == words_value(t.drop_last()) + pow2(0) * (t.last() as nat));
}

/// Words of equal length compare as their values, from the most significant word down.
proof fn lemma_words_order(a: Seq<u64>, b: Seq<u64>, k: nat)
    requires
        a.len() == b.len(),
        k < a.len(),
        a.skip((k + 1) as int) == b.skip((k + 1) as int),
    ensures
        a[k as int] < b[k as int] ==> words_value(a) < words_value(b),
        a[k as int] == b[k as int] ==> a.skip(k as int) == b.skip(k as int),
{
    lemma_words_split(a, k);
    lemma_words_split(b, k);
    let sa = a.skip(k as int);
    let sb = b.skip(k as int);
    lemma_words_split(sa, 1);
    lemma_words_split(sb, 1);
    assert(sa.skip(1) =~= a.skip((k + 1) as int));
    assert(sb.skip(1) =~= b.skip((k + 1) as int));
    lemma_words_first(sa);
    lemma_words_first(sb);
    assert(64 * 1nat == 64);
    lemma_words_value_bound(a.take(k as int));
    lemma_words_value_bound(b.take(k as int));
    let p = pow2(64 * k);
    let h = words_value(a.skip((k + 1) as int));
    let q = pow2(64);
    let la = words_value(a.take(k as int));
    let lb = words_value(b.take(k as int));
    let x = a[k as int] as int;
    let y = b[k as int] as int;
    if x < y {
        assert(la + p * (x + q * h) < lb + p * (y + q * h)) by (nonlinear_arith)
            requires la < p, lb >= 0, x + 1 <= y, p > 0, h >= 0;
        assert(words_value(a) == la + p * (x + q * h));
        assert(words_value(b) == lb + p * (y + q * h));
    }
    if x == y {
        assert(sa =~= sb) by {
            assert forall|j: int| 0 <= j < sa.len() implies sa[j] == sb[j] by {
                if j > 0 {
                    assert(sa[j] == a.skip((k + 1) as int)[j - 1]);
                    assert(sb[j] == b.skip((k + 1) as int)[j - 1]);
                }
            }
        }
    }
}

/// Cutting the top word of `lo + 2^l * top` to `t` bits takes the value modulo `2^(l+t)`.
proof fn lemma_mask_top(ws: Seq<u64>, t: nat, w: u64)
    requires
        ws.len() >= 1,
        w as nat == (ws.last() as nat) % pow2(t),
    ensures
        words_value(ws.update(ws.len() - 1, w)) == words_value(ws) % pow2((64 * (ws.len() - 1) + t) as nat),
{
    let l = (64 * (ws.len() - 1)) as nat;
    let init = ws.drop_last();
    let ws2 = ws.update(ws.len() - 1, w);
    assert(ws2.drop_last() =~= init);
    let lo = words_value(init) as int;
    let p = pow2(l) as int;
    let x = words_value(ws) as int;
    lemma_words_value_bound(init);
    lemma_pow2_pos(l);
    lemma_pow2_pos(t);
    lemma_pow2_adds(l, t);
    lemma_breakdown(x, p, pow2(t) as int);
    lemma_mul_is_commutative(p, ws.last() as int);
    lemma_fundamental_div_mod_converse_div(x, p, ws.last() as int, lo);
    lemma_fundamental_div_mod_converse_mod(x, p, ws.last() as int, lo);
}

/// Sum of two word sequences modulo `2^(64 n)`, with the carry chain.
fn add_words(a: &Vec<u64>, b: &Vec<u64>) -> (r: Vec<u64>)
    requires
        a@.len() == b@.len(),
    ensures
        r@.len() == a@.len(),
        words_value(r@) == (words_value(a@) + words_value(b@)) % pow2(64 * a@.len()),
{
    let mut r: Vec<u64> = Vec::new();
    let mut carry: u64 = 0;
    let mut i: usize = 0;
    proof {
        lemma2_to64_rest();
        assert(a@.take(0) =~= Seq::<u64>::empty());
        assert(b@.take(0) =~= Seq::<u64>::empty());
    }
    while i < a.len()
        invariant
            a@.len() == b@.len(),
            i <= a@.len(),
            r@.len() == i,
            carry <= 1,
            pow2(64) == 0x1_0000_0000_0000_0000,
            words_value(r@) + carry * pow2(64 * i as nat) == words_value(a@.take(i as int)) + words_value(b@.take(i as int)),
        decreases a@.len() - i,
    {
        let s: u128 = a[i] as u128 + b[i] as u128 + carry as u128;
        let w = (s % 0x1_0000_0000_0000_0000u128) as u64;
        let c = (s / 0x1_0000_0000_0000_0000u128) as u64;
        let ghost r0 = r@;
        r.push(w);
        proof {
            assert(r@.drop_last() =~= r0);
            assert(a@.take(i + 1).drop_last() =~= a@.take(i as int));
            assert(b@.take(i + 1).drop_last() =~= b@.take(i as int));
            let p = pow2(64 * i as nat);
            lemma_pow2_adds(64 * i as nat, 64);
            assert(64 * (i + 1) == 64 * i + 64);
            let q = pow2(64);
            assert(w + c * q == s);
            let vr = words_value(r0);
            assert(vr + p * w + c * (p * q) == vr + carry * p + p * a@[i as int] + p * b@[i as int]) by (nonlinear_arith)
                requires w + c * q == a@[i as int] + b@[i as int] + carry;
        }
        carry = c;
        i = i + 1;
    }
    proof {
        assert(a@.take(i as int) =~= a@);
        assert(b@.take(i as int) =~= b@);
        lemma_words_value_bound(r@);
        lemma_fundamental_div_mod_converse_mod(
            (words_value(a@) + words_value(b@)) as int,
            pow2(64 * a@.len()) as int,
            carry as int,
            words_value(r@) as int,
        );
    }
    r
}

/// Difference of two word sequences modulo `2^(64 n)`, with the borrow chain.
fn sub_words(a: &Vec<u64>, b: &Vec<u64>) -> (r: Vec<u64>)
    requires
        a@.len() == b@.len(),
    ensures
        r@.len() == a@.len(),
        words_value(r@) == (words_value(a@) - words_value(b@)) % (pow2(64 * a@.len()) as int),
{
    let mut r: Vec<u64> = Vec::new();
    let mut borrow: u64 = 0;
    let mut i: usize = 0;
    proof {
        lemma2_to64_rest();
        assert(a@.take(0) =~= Seq::<u64>::empty());
        assert(b@.take(0) =~= Seq::<u64>::empty());
    }
    while i < a.len()
        invariant
            a@.len() == b@.len(),
            i <= a@.len(),
            r@.len() == i,
            borrow <= 1,
            pow2(64) == 0x1_0000_0000_0000_0000,
            words_value(r@) - borrow * pow2(64 * i as nat) == words_value(a@.take(i as int)) - words_value(b@.take(i as int)),
        decreases a@.len() - i,
    {
        let d: u128 = a[i] as u128 + 0x1_0000_0000_0000_0000u128 - b[i] as u128 - borrow as u128;
        let w = (d % 0x1_0000_0000_0000_0000u128) as u64;
        let c: u64 = 1 - (d / 0x1_0000_0000_0000_0000u128) as u64;
        let ghost r0 = r@;
        r.push(w);
        proof {
            assert(r@.drop_last() =~= r0);
            assert(a@.take(i + 1).drop_last() =~= a@.take(i as int));
            assert(b@.take(i + 1).drop_last() =~= b@.take(i as int));
            let p = pow2(64 * i as nat);
            lemma_pow2_adds(64 * i as nat, 64);
            assert(64 * (i + 1) == 64 * i + 64);
            let q = pow2(64);
            assert(w - c * q == a@[i as int] - b@[i as int] - borrow);
            let vr = words_value(r0);
            assert(vr + p * w - c * (p * q) == vr - borrow * p + p * a@[i as int] - p * b@[i as int]) by (nonlinear_arith)
                requires w - c * q == a@[i as int] - b@[i as int] - borrow;
        }
        borrow = c;
        i = i + 1;
    }
    proof {
        assert(a@.take(i as int) =~= a@);
        assert(b@.take(i as int) =~= b@);
        lemma_words_value_bound(r@);
        let pn = pow2(64 * a@.len()) as int;
        assert((-(borrow as int)) * pn == -(borrow * pn)) by (nonlinear_arith);
        assert(words_value(a@) - words_value(b@) == (-(borrow as int)) * pn + words_value(r@));
        lemma_fundamental_div_mod_converse_mod(
            words_value(a@) - words_value(b@),
            pow2(64 * a@.len()) as int,
            -(borrow as int),
            words_value(r@) as int,
        );
    }
    r
}

/// -1, 0 or 1 as `a` is below, equal to or above `b`.
fn cmp_words(a: &Vec<u64>, b: &Vec<u64>) -> (r: i8)
    requires
        a@.len() == b@.len(),
    ensures
        r == 0 <==> words_value(a@) == words_value(b@),
        r < 0 <==> words_value(a@) < words_value(b@),
{
    let mut i: usize = a.len();
    proof {
        assert(a@.skip(i as int) =~= b@.skip(i as int));
    }
    while i > 0
        invariant
            a@.len() == b@.len(),
            i <= a@.len(),
            a@.skip(i as int) == b@.skip(i as int),
        decreases i,
    {
        let k = i - 1;
        proof {
            lemma_words_order(a@, b@, k as nat);
            lemma_words_order(b@, a@, k as nat);
        }
        if a[k] < b[k] {
            return -1;
        } else if a[k] > b[k] {
            return 1;
        }
        i = k;
    }
    proof {
        assert(a@.skip(0) =~= a@);
        assert(b@.skip(0) =~= b@);
    }
    0
}

/// Number of 64-bit words that hold `n` bits.
fn words_for(n: usize) -> (r: usize)
    ensures
        r == word_count(n as nat),
{
    n / 64 + if n % 64 == 0 { 0 } else { 1 }
}

#[derive(Debug)]
enum Repr {
    Short(u64),
    Long(Vec<u64>),
}

/// An `N`-bit unsigned value. Up to 64 bits it is one machine word; above,
/// a sequence of 64-bit words, least significant first.
#[derive(Debug)]
pub struct Bits<const N: usize> {
    repr: Repr,
}

impl<const N: usize> View for Bits<N> {
    type V = nat;

    closed spec fn view(&self) -> nat {
        match self.repr {
            Repr::Short(w) => w as nat,
            Repr::Long(ws) => words_value(ws@),
        }
    }
}

impl<const N: usize> Bits<N> {
    #[verifier::type_invariant]
    closed spec fn inv(self) -> bool {
        match self.repr {
            Repr::Short(w) => N <= 64 && (w as nat) < pow2(N as nat),
            Repr::Long(ws) => {
                &&& N > 64
                &&& ws@.len() == word_count(N as nat)
                &&& (ws@.last() as nat) < pow2(top_bits(N as nat))
            },
        }
    }

    proof fn lemma_inv_bound(self)
        requires
            self.inv(),
        ensures
            self@ < pow2(N as nat),
    {
        match self.repr {
            Repr::Short(w) => {},
            Repr::Long(ws) => {
                let s = ws@;
                let l = (64 * (s.len() - 1)) as nat;
                let t = top_bits(N as nat);
                lemma_words_value_bound(s.drop_last());
                lemma_pow2_adds(l, t);
                let p = pow2(l);
                let lo = words_value(s.drop_last());
                let hi = s.last() as int;
                assert(lo + p * hi < p * pow2(t)) by (nonlinear_arith)
                    requires lo < p, hi + 1 <= pow2(t), p > 0;
            },
        }
    }

    /// The width in bits.
    pub fn width(&self) -> (r: usize)
        ensures
            r == N,
    {
        N
    }

    /// The all-zero value.
    pub fn zero() -> (r: Self)
        ensures
            r@ == 0,
    {
        if N <= 64 {
            proof { lemma_pow2_pos(N as nat); }
            Bits { repr: Repr::Short(0) }
        } else {
            let n = words_for(N);
            let mut ws: Vec<u64> = Vec::new();
            while ws.len() < n
                invariant
                    n == word_count(N as nat),
                    ws@.len() <= n,
                    forall|j: int| 0 <= j < ws@.len() ==> ws@[j] == 0,
                decreases n - ws.len(),
            {
                ws.push(0);
            }
            proof {
                lemma_words_zero(ws@);
                lemma_pow2_pos(top_bits(N as nat));
            }
            Bits { repr: Repr::Long(ws) }
        }
    }

    /// Bit `i`.
    pub fn get_bit(&self, i: usize) -> (r: bool)
        requires
            i < N,
        ensures
            r == bit_of(self@, i as nat),
    {
        proof { use_type_invariant(self); }
        match &self.repr {
            Repr::Short(w) => {
                proof { lemma_bit_of_u64(*w, i as nat); }
                (*w >> (i as u64)) & 1 == 1
            },
            Repr::Long(ws) => {
                proof {
                    lemma_bit_of_words(ws@, i as nat);
                    lemma_bit_of_u64(ws@[(i / 64) as int], (i % 64) as nat);
                }
                (ws[i / 64] >> ((i % 64) as u64)) & 1 == 1
            },
        }
    }

    /// This value with bit `i` set to `v`, the other bits unchanged.
    pub fn with_bit(self, i: usize, v: bool) -> (r: Self)
        requires
            i < N,
        ensures
            r@ < pow2(N as nat),
            forall|j: nat| j < N ==> #[trigger] bit_of(r@, j) == if j == i { v } else { bit_of(self@, j) },
    {
        proof { use_type_invariant(&self); }
        let ghost before = self@;
        let Bits { repr } = self;
        let out = match repr {
            Repr::Short(x) => {
                let b = i as u64;
                let r = if v { x | (1u64 << b) } else { x & !(1u64 << b) };
                proof {
                    lemma_word_with_bit(x, b, v, r);
                    lemma_word_with_bit_bound(x, b, v, r, N as nat);
                }
                Bits { repr: Repr::Short(r) }
            },
            Repr::Long(mut ws) => {
                let k = i / 64;
                let b = (i % 64) as u64;
                let x = ws[k];
                let r = if v { x | (1u64 << b) } else { x & !(1u64 << b) };
                let ghost s0 = ws@;
                ws.set(k, r);
                proof {
                    let s1 = ws@;
                    lemma_word_with_bit(x, b, v, r);
                    if k == s0.len() - 1 {
                        lemma_word_with_bit_bound(x, b, v, r, top_bits(N as nat));
                    }
                    assert forall|j: nat| j < N implies #[trigger] bit_of(words_value(s1), j) == if j == i { v } else { bit_of(before, j) } by {
                        lemma_bit_of_words(s1, j);
                        lemma_bit_of_words(s0, j);
                    }
                }
                Bits { repr: Repr::Long(ws) }
            },
        };
        proof {
            out.lemma_inv_bound();
        }
        out
    }
}

impl<const N: usize> Bits<N> {
    /// Keeps the low `N` bits of a full set of words.
    fn from_long_words(ws: Vec<u64>) -> (r: Self)
        requires
            64 < N,
            ws@.len() == word_count(N as nat),
        ensures
            r@ == words_value(ws@) % pow2(N as nat),
    {
        let mut ws = ws;
        let n = ws.len();
        let t = N - 64 * (n - 1);
        let last = ws[n - 1];
        let w = if t < 64 {
            last % pow2_word(t)
        } else {
            proof {
                lemma2_to64_rest();
                lemma_small_mod(last as nat, pow2(64));
            }
            last
        };
        let ghost s0 = ws@;
        ws.set(n - 1, w);
        proof {
            assert(t == top_bits(N as nat));
            lemma_pow2_pos(t as nat);
            lemma_mask_top(s0, t as nat, w);
            assert(ws@ == s0.update(s0.len() - 1, w));
            assert((64 * (s0.len() - 1) + t) as nat == N as nat);
        }
        Bits { repr: Repr::Long(ws) }
    }

    /// The low `N` bits of `x`; higher bits are dropped.
    pub fn from_u64(x: u64) -> (r: Self)
        ensures
            r@ == (x as nat) % pow2(N as nat),
    {
        if N < 64 {
            let m = pow2_word(N);
            Bits { repr: Repr::Short(x % m) }
        } else if N == 64 {
            proof {
                lemma2_to64_rest();
                lemma_small_mod(x as nat, pow2(64));
            }
            Bits { repr: Repr::Short(x) }
        } else {
            let n = words_for(N);
            let mut ws: Vec<u64> = Vec::new();
            ws.push(x);
            while ws.len() < n
                invariant
                    n == word_count(N as nat),
                    1 <= ws@.len() <= n,
                    ws@[0] == x,
                    forall|j: int| 1 <= j < ws@.len() ==> ws@[j] == 0,
                decreases n - ws.len(),
            {
                ws.push(0);
            }
            proof {
                lemma_words_single(ws@);
                lemma_pow2_strictly_increases(64, N as nat);
                lemma2_to64_rest();
                lemma_small_mod(x as nat, pow2(N as nat));
                lemma_pow2_pos(top_bits(N as nat));
            }
            Bits { repr: Repr::Long(ws) }
        }
    }

    /// The low 64 bits of the value.
    pub fn to_u64(&self) -> (r: u64)
        ensures
            r as nat == self@ % pow2(64),
    {
        proof {
            use_type_invariant(self);
            lemma2_to64_rest();
        }
        match &self.repr {
            Repr::Short(w) => {
                proof { lemma_small_mod(*w as nat, pow2(64)); }
                *w
            },
            Repr::Long(ws) => {
                proof {
                    let s = ws@;
                    lemma_words_split(s, 1);
                    lemma_words_first(s);
                    assert(64 * 1nat == 64);
                    lemma_mod_multiples_vanish(words_value(s.skip(1)) as int, s[0] as int, pow2(64) as int);
                    lemma_small_mod(s[0] as nat, pow2(64));
                }
                ws[0]
            },
        }
    }

    /// A copy of this value.
    pub fn dup(&self) -> (r: Self)
        ensures
            r@ == self@,
            r@ < pow2(N as nat),
    {
        proof {
            use_type_invariant(self);
            self.lemma_inv_bound();
        }
        match &self.repr {
            Repr::Short(w) => Bits { repr: Repr::Short(*w) },
            Repr::Long(ws) => {
                let mut c: Vec<u64> = Vec::new();
                let mut i: usize = 0;
                while i < ws.len()
                    invariant
                        i <= ws@.len(),
                        c@ == ws@.take(i as int),
                    decreases ws@.len() - i,
                {
                    c.push(ws[i]);
                    i = i + 1;
                    proof { assert(c@ =~= ws@.take(i as int)); }
                }
                proof { assert(c@ =~= ws@); }
                Bits { repr: Repr::Long(c) }
            },
        }
    }

    /// Whether the two values are equal.
    pub fn equals(&self, o: &Self) -> (r: bool)
        ensures
            r == (self@ == o@),
            self@ < pow2(N as nat),
            o@ < pow2(N as nat),
    {
        proof {
            use_type_invariant(self);
            use_type_invariant(o);
            self.lemma_inv_bound();
            o.lemma_inv_bound();
        }
        match (&self.repr, &o.repr) {
            (Repr::Short(a), Repr::Short(b)) => *a == *b,
            (Repr::Long(a), Repr::Long(b)) => cmp_words(a, b) == 0,
            _ => false,
        }
    }

    /// Whether this value is below `o`, as unsigned numbers.
    pub fn less_than(&self, o: &Self) -> (r: bool)
        ensures
            r == (self@ < o@),
    {
        proof {
            use_type_invariant(self);
            use_type_invariant(o);
        }
        match (&self.repr, &o.repr) {
            (Repr::Short(a), Repr::Short(b)) => *a < *b,
            (Repr::Long(a), Repr::Long(b)) => cmp_words(a, b) < 0,
            _ => false,
        }
    }

    /// The sum modulo `2^N`.
    pub fn add(&self, o: &Self) -> (r: Self)
        ensures
            r@ == (self@ + o@) % pow2(N as nat),
    {
        proof {
            use_type_invariant(self);
            use_type_invariant(o);
        }
        match (&self.repr, &o.repr) {
            (Repr::Short(a), Repr::Short(b)) => {
                let m = pow2_wide(N);
                let s = ((*a as u128 + *b as u128) % m) as u64;
                Bits { repr: Repr::Short(s) }
            },
            (Repr::Long(a), Repr::Long(b)) => {
                let ws = add_words(a, b);
                proof { lemma_mod_pow2_narrow((self@ + o@) as int, N as nat, 64 * a@.len()); }
                Self::from_long_words(ws)
            },
            _ => Self::zero(),
        }
    }

    /// The difference modulo `2^N`.
    pub fn sub(&self, o: &Self) -> (r: Self)
        ensures
            r@ == (self@ - o@) % (pow2(N as nat) as int),
    {
        proof {
            use_type_invariant(self);
            use_type_invariant(o);
        }
        match (&self.repr, &o.repr) {
            (Repr::Short(a), Repr::Short(b)) => {
                let m = pow2_wide(N);
                let s = ((*a as u128 + (m - *b as u128)) % m) as u64;
                proof {
                    lemma_mod_add_multiples_vanish(*a as int - *b as int, m as int);
                }
                Bits { repr: Repr::Short(s) }
            },
            (Repr::Long(a), Repr::Long(b)) => {
                let ws = sub_words(a, b);
                proof { lemma_mod_pow2_narrow(self@ - o@, N as nat, 64 * a@.len()); }
                Self::from_long_words(ws)
            },
            _ => Self::zero(),
        }
    }
}

/// A two-input bitwise operation.
#[derive(Clone, Copy)]
enum BitOp {
    And,
    Or,
    Xor,
}

spec fn apply_op(op: BitOp, x: bool, y: bool) -> bool {
    match op {
        BitOp::And => x && y,
        BitOp::Or => x || y,
        BitOp::Xor => x != y,
    }
}

fn word_op(op: BitOp, a: u64, b: u64) -> (r: u64)
    ensures
        forall|j: nat| j < 64 ==> #[trigger] bit_of(r as nat, j) == apply_op(op, bit_of(a as nat, j), bit_of(b as nat, j)),
        forall|t: nat| t <= 64 && (a as nat) < pow2(t) && (b as nat) < pow2(t) ==> #[trigger] pow2(t) > r as nat,
{
    let r = match op {
        BitOp::And => a & b,
        BitOp::Or => a | b,
        BitOp::Xor => a ^ b,
    };
    proof {
        assert forall|j: nat| j < 64 implies #[trigger] bit_of(r as nat, j) == apply_op(op, bit_of(a as nat, j), bit_of(b as nat, j)) by {
            lemma_bit_of_u64(r, j);
            lemma_bit_of_u64(a, j);
            lemma_bit_of_u64(b, j);
            let c = j as u64;
            assert(((a & b) >> c) & 1 == 1 <==> ((a >> c) & 1 == 1 && (b >> c) & 1 == 1)) by (bit_vector);
            assert(((a | b) >> c) & 1 == 1 <==> ((a >> c) & 1 == 1 || (b >> c) & 1 == 1)) by (bit_vector);
            assert(((a ^ b) >> c) & 1 == 1 <==> ((a >> c) & 1 == 1) != ((b >> c) & 1 == 1)) by (bit_vector);
        }
        assert forall|t: nat| t <= 64 && (a as nat) < pow2(t) && (b as nat) < pow2(t) implies #[trigger] pow2(t) > r as nat by {
            if t == 64 {
                lemma2_to64_rest();
            } else {
                let tt = t as u64;
                lemma_u64_pow2_no_overflow(t);
                lemma_u64_shl_is_mul(1, tt);
                assert((a & b) < (1u64 << tt) && (a | b) < (1u64 << tt) && (a ^ b) < (1u64 << tt)) by (bit_vector)
                    requires tt < 64, a < (1u64 << tt), b < (1u64 << tt);
            }
        }
    }
    r
}

/// A value below `2^n` whose bits below `n` are all clear is zero.
proof fn lemma_zero_from_bits(x: nat, n: nat)
    requires
        x < pow2(n),
        forall|j: nat| j < n ==> !#[trigger] bit_of(x, j),
    ensures
        x == 0,
    decreases n,
{
    lemma2_to64();
    if n > 0 {
        assert(!bit_of(x, 0));
        let h = x / 2;
        lemma_pow2_unfold(n);
        assert forall|j: nat| j < (n - 1) as nat implies !#[trigger] bit_of(h, j) by {
            lemma_pow2_pos(j);
            lemma_div_denominator(x as int, 2, pow2(j) as int);
            lemma_pow2_unfold(j + 1);
            assert(!bit_of(x, j + 1));
        }
        lemma_zero_from_bits(h, (n - 1) as nat);
    }
}

/// Two values below `2^n` with the same bits below `n` are equal.
proof fn lemma_bits_ext(x: nat, y: nat, n: nat)
    requires
        x < pow2(n),
        y < pow2(n),
        forall|j: nat| j < n ==> #[trigger] bit_of(x, j) == bit_of(y, j),
    ensures
        x == y,
    decreases n,
{
    lemma2_to64();
    if n > 0 {
        assert(bit_of(x, 0) == bit_of(y, 0));
        lemma_pow2_unfold(n);
        assert forall|j: nat| j < (n - 1) as nat implies #[trigger] bit_of(x / 2, j) == bit_of(y / 2, j) by {
            lemma_pow2_pos(j);
            lemma_div_denominator(x as int, 2, pow2(j) as int);
            lemma_div_denominator(y as int, 2, pow2(j) as int);
            lemma_pow2_unfold(j + 1);
            assert(bit_of(x, j + 1) == bit_of(y, j + 1));
        }
        lemma_bits_ext(x / 2, y / 2, (n - 1) as nat);
    }
}

/// `r` is the `n`-bit exclusive OR of `a` and `b`.
pub open spec fn is_xor(r: nat, a: nat, b: nat, n: nat) -> bool {
    r < pow2(n) && forall|j: nat| j < n ==> #[trigger] bit_of(r, j) == (bit_of(a, j) != bit_of(b, j))
}

/// `r` is `a` shifted up by `k` within `n` bits.
pub open spec fn is_shl(r: nat, a: nat, k: nat, n: nat) -> bool {
    r < pow2(n) && forall|j: nat| j < n ==> #[trigger] bit_of(r, j) == (j >= k && bit_of(a, (j - k) as nat))
}

/// `r` is `a` shifted down by `k` within `n` bits.
pub open spec fn is_shr(r: nat, a: nat, k: nat, n: nat) -> bool {
    r < pow2(n) && forall|j: nat| j < n ==> #[trigger] bit_of(r, j) == (j + k < n && bit_of(a, (j + k) as nat))
}

/// The `n`-bit exclusive OR of `a` and `b`.
pub open spec fn xor_spec(a: nat, b: nat, n: nat) -> nat {
    choose|r: nat| #[trigger] is_xor(r, a, b, n)
}

/// `a` shifted up by `k` within `n` bits.
pub open spec fn shl_spec(a: nat, k: nat, n: nat) -> nat {
    choose|r: nat| #[trigger] is_shl(r, a, k, n)
}

/// `a` shifted down by `k` within `n` bits.
pub open spec fn shr_spec(a: nat, k: nat, n: nat) -> nat {
    choose|r: nat| #[trigger] is_shr(r, a, k, n)
}

proof fn lemma_bits_of_zero()
    ensures
        forall|j: nat| !#[trigger] bit_of(0, j),
{
    assert forall|j: nat| !#[trigger] bit_of(0, j) by {
        lemma_pow2_pos(j);
        lemma_div_of0(pow2(j) as int);
    }
}

impl<const N: usize> Bits<N> {
    fn combine(&self, o: &Self, op: BitOp) -> (r: Self)
        ensures
            r@ < pow2(N as nat),
            forall|j: nat| j < N ==> #[trigger] bit_of(r@, j) == apply_op(op, bit_of(self@, j), bit_of(o@, j)),
    {
        proof {
            use_type_invariant(self);
            use_type_invariant(o);
        }
        if let (Repr::Short(a), Repr::Short(b)) = (&self.repr, &o.repr) {
            let w = word_op(op, *a, *b);
            proof { assert(pow2(N as nat) > w as nat); }
            return Bits { repr: Repr::Short(w) };
        }
        let mut r = Self::zero();
        let mut i: usize = 0;
        proof {
            lemma_bits_of_zero();
            lemma_pow2_pos(N as nat);
        }
        while i < N
            invariant
                i <= N,
                r@ < pow2(N as nat),
                forall|j: nat| j < i ==> #[trigger] bit_of(r@, j) == apply_op(op, bit_of(self@, j), bit_of(o@, j)),
                forall|j: nat| i <= j < N ==> !#[trigger] bit_of(r@, j),
            decreases N - i,
        {
            let x = self.get_bit(i);
            let y = o.get_bit(i);
            let v = match op {
                BitOp::And => x && y,
                BitOp::Or => x || y,
                BitOp::Xor => x != y,
            };
            r = r.with_bit(i, v);
            i = i + 1;
        }
        r
    }

    /// Bitwise AND.
    pub fn and(&self, o: &Self) -> (r: Self)
        ensures
            r@ < pow2(N as nat),
            forall|j: nat| j < N ==> #[trigger] bit_of(r@, j) == (bit_of(self@, j) && bit_of(o@, j)),
    {
        self.combine(o, BitOp::And)
    }

    /// Bitwise OR.
    pub fn or(&self, o: &Self) -> (r: Self)
        ensures
            r@ < pow2(N as nat),
            forall|j: nat| j < N ==> #[trigger] bit_of(r@, j) == (bit_of(self@, j) || bit_of(o@, j)),
    {
        self.combine(o, BitOp::Or)
    }

    /// Bitwise exclusive OR.
    pub fn xor(&self, o: &Self) -> (r: Self)
        ensures
            r@ < pow2(N as nat),
            forall|j: nat| j < N ==> #[trigger] bit_of(r@, j) == (bit_of(self@, j) != bit_of(o@, j)),
            r@ == xor_spec(self@, o@, N as nat),
    {
        let r = self.combine(o, BitOp::Xor);
        proof {
            let c = xor_spec(self@, o@, N as nat);
            assert(is_xor(r@, self@, o@, N as nat));
            lemma_bits_ext(c, r@, N as nat);
        }
        r
    }

    /// Bitwise NOT of the `N` bits.
    pub fn not(&self) -> (r: Self)
        ensures
            r@ < pow2(N as nat),
            forall|j: nat| j < N ==> #[trigger] bit_of(r@, j) == !bit_of(self@, j),
    {
        proof { use_type_invariant(self); }
        let mut r = Self::zero();
        let mut i: usize = 0;
        proof {
            lemma_bits_of_zero();
            lemma_pow2_pos(N as nat);
        }
        while i < N
            invariant
                i <= N,
                r@ < pow2(N as nat),
                forall|j: nat| j < i ==> #[trigger] bit_of(r@, j) == !bit_of(self@, j),
                forall|j: nat| i <= j < N ==> !#[trigger] bit_of(r@, j),
            decreases N - i,
        {
            let v = !self.get_bit(i);
            r = r.with_bit(i, v);
            i = i + 1;
        }
        r
    }

    /// Shift towards the most significant bit by `k`; vacated bits are zero
    /// and bits moved past the top are dropped.
    pub fn shl(&self, k: usize) -> (r: Self)
        ensures
            r@ < pow2(N as nat),
            forall|j: nat| j < N ==> #[trigger] bit_of(r@, j) == (j >= k && bit_of(self@, (j - k) as nat)),
            k >= N ==> r@ == 0,
            r@ == shl_spec(self@, k as nat, N as nat),
    {
        proof { use_type_invariant(self); }
        let mut r = Self::zero();
        let mut i: usize = 0;
        proof {
            lemma_bits_of_zero();
            lemma_pow2_pos(N as nat);
        }
        while i < N
            invariant
                i <= N,
                r@ < pow2(N as nat),
                forall|j: nat| j < i ==> #[trigger] bit_of(r@, j) == (j >= k && bit_of(self@, (j - k) as nat)),
                forall|j: nat| i <= j < N ==> !#[trigger] bit_of(r@, j),
            decreases N - i,
        {
            let v = i >= k && self.get_bit(i - k);
            r = r.with_bit(i, v);
            i = i + 1;
        }
        proof {
            if k >= N {
                lemma_zero_from_bits(r@, N as nat);
            }
            let c = shl_spec(self@, k as nat, N as nat);
            assert(is_shl(r@, self@, k as nat, N as nat));
            lemma_bits_ext(c, r@, N as nat);
        }
        r
    }

    /// Shift towards the least significant bit by `k`; vacated bits are zero.
    pub fn shr(&self, k: usize) -> (r: Self)
        ensures
            r@ < pow2(N as nat),
            forall|j: nat| j < N ==> #[trigger] bit_of(r@, j) == (j + k < N && bit_of(self@, (j + k) as nat)),
            k >= N ==> r@ == 0,
            r@ == shr_spec(self@, k as nat, N as nat),
    {
        proof { use_type_invariant(self); }
        let r = self.get_bits::<N>(k);
        proof {
            let c = shr_spec(self@, k as nat, N as nat);
            assert(is_shr(r@, self@, k as nat, N as nat));
            lemma_bits_ext(c, r@, N as nat);
        }
        r
    }

    /// The `M` bits starting at bit `offset`. Bits beyond the width read as zero.
    pub fn get_bits<const M: usize>(&self, offset: usize) -> (r: Bits<M>)
        ensures
            r@ < pow2(M as nat),
            forall|j: nat| j < M ==> #[trigger] bit_of(r@, j) == (j + offset < N && bit_of(self@, (j + offset) as nat)),
            offset >= N ==> r@ == 0,
    {
        proof { use_type_invariant(self); }
        let mut r = Bits::<M>::zero();
        let mut i: usize = 0;
        proof {
            lemma_bits_of_zero();
            lemma_pow2_pos(M as nat);
        }
        while i < M
            invariant
                i <= M,
                r@ < pow2(M as nat),
                forall|j: nat| j < i ==> #[trigger] bit_of(r@, j) == (j + offset < N && bit_of(self@, (j + offset) as nat)),
                forall|j: nat| i <= j < M ==> !#[trigger] bit_of(r@, j),
            decreases M - i,
        {
            let v = offset < N && i < N - offset && self.get_bit(i + offset);
            r = r.with_bit(i, v);
            i = i + 1;
        }
        proof {
            if offset >= N {
                lemma_zero_from_bits(r@, M as nat);
            }
        }
        r
    }

    /// Whether any bit is set.
    pub fn any(&self) -> (r: bool)
        ensures
            r == (self@ != 0),
    {
        proof { use_type_invariant(self); }
        !self.equals(&Self::zero())
    }

    /// Whether every one of the `N` bits is set.
    pub fn all(&self) -> (r: bool)
        ensures
            r == (forall|j: nat| j < N ==> #[trigger] bit_of(self@, j)),
    {
        proof { use_type_invariant(self); }
        let mut i: usize = 0;
        while i < N
            invariant
                i <= N,
                forall|j: nat| j < i ==> #[trigger] bit_of(self@, j),
            decreases N - i,
        {
            if !self.get_bit(i) {
                return false;
            }
            i = i + 1;
        }
        true
    }
}

impl<const N: usize> PartialEq for Bits<N> {
    fn eq(&self, o: &Self) -> (r: bool) {
        self.equals(o)
    }
}

impl<const N: usize> vstd::std_specs::cmp::PartialEqSpecImpl for Bits<N> {
    open spec fn obeys_eq_spec() -> bool {
        true
    }

    open spec fn eq_spec(&self, o: &Self) -> bool {
        self@ == o@
    }
}

impl<const N: usize> PartialOrd for Bits<N> {
    fn partial_cmp(&self, o: &Self) -> (r: Option<core::cmp::Ordering>) {
        if self.less_than(o) {
            Some(core::cmp::Ordering::Less)
        } else if self.equals(o) {
            Some(core::cmp::Ordering::Equal)
        } else {
            Some(core::cmp::Ordering::Greater)
        }
    }
}

impl<const N: usize> vstd::std_specs::cmp::PartialOrdSpecImpl for Bits<N> {
    open spec fn obeys_partial_cmp_spec() -> bool {
        true
    }

    open spec fn partial_cmp_spec(&self, o: &Self) -> Option<core::cmp::Ordering> {
        if self@ < o@ {
            Some(core::cmp::Ordering::Less)
        } else if self@ == o@ {
            Some(core::cmp::Ordering::Equal)
        } else {
            Some(core::cmp::Ordering::Greater)
        }
    }
}

impl<const N: usize> Default for Bits<N> {
    fn default() -> (r: Self)
        ensures
            r@ == 0,
    {
        Bits::zero()
    }
}

impl<const N: usize> From<u64> for Bits<N> {
    fn from(x: u64) -> (r: Self)
        ensures
            r@ == (x as nat) % pow2(N as nat),
    {
        Bits::from_u64(x)
    }
}

impl<const N: usize> vstd::std_specs::convert::FromSpecImpl<u64> for Bits<N> {
    open spec fn obeys_from_spec() -> bool {
        false
    }

    open spec fn from_spec(v: u64) -> Self {
        arbitrary()
    }
}

impl<const N: usize> From<u32> for Bits<N> {
    fn from(x: u32) -> (r: Self)
        ensures
            r@ == (x as nat) % pow2(N as nat),
    {
        Bits::from_u64(x as u64)
    }
}

impl<const N: usize> vstd::std_specs::convert::FromSpecImpl<u32> for Bits<N> {
    open spec fn obeys_from_spec() -> bool {
        false
    }

    open spec fn from_spec(v: u32) -> Self {
        arbitrary()
    }
}

impl<const N: usize> From<usize> for Bits<N> {
    fn from(x: usize) -> (r: Self)
        ensures
            r@ == (x as nat) % pow2(N as nat),
    {
        Bits::from_u64(x as u64)
    }
}

impl<const N: usize> vstd::std_specs::convert::FromSpecImpl<usize> for Bits<N> {
    open spec fn obeys_from_spec() -> bool {
        false
    }

    open spec fn from_spec(v: usize) -> Self {
        arbitrary()
    }
}

impl<const N: usize> From<bool> for Bits<N> {
    /// One for true and zero for false, in the lowest bit.
    fn from(b: bool) -> (r: Self)
        ensures
            N >= 1 ==> r@ == if b { 1nat } else { 0nat },
    {
        proof {
            lemma2_to64();
            if N >= 1 {
                lemma_pow2_strictly_increases(0, N as nat);
                lemma_small_mod(1, pow2(N as nat));
                lemma_small_mod(0, pow2(N as nat));
            }
        }
        Bits::from_u64(if b { 1 } else { 0 })
    }
}

impl<const N: usize> vstd::std_specs::convert::FromSpecImpl<bool> for Bits<N> {
    open spec fn obeys_from_spec() -> bool {
        false
    }

    open spec fn from_spec(v: bool) -> Self {
        arbitrary()
    }
}

impl<const N: usize> Bits<N> {
    /// Whether the lowest bit is set: the boolean a one-bit value stands for.
    pub fn to_bool(&self) -> (r: bool)
        requires
            N >= 1,
        ensures
            r == bit_of(self@, 0),
    {
        self.get_bit(0)
    }
}

/// Wraparound addition agrees with integer addition: for machine integers
/// `x` and `y`, adding `from_u64(x)` and `from_u64(y)` in `n` bits gives the
/// value that `from_u64` gives for `x + y`, which is `x + y` modulo `2^n`.
/// This holds in one word and in word arrays alike, as `add` and `from_u64`
/// are stated over the value.
pub proof fn law_add_matches_integer_add(x: nat, y: nat, n: nat)
    ensures
        ((x % pow2(n)) + (y % pow2(n))) % pow2(n) == (x + y) % pow2(n),
{
    lemma_pow2_pos(n);
    lemma_add_mod_noop(x as int, y as int, pow2(n) as int);
}

/// `2^n` as a wide word, for `n <= 64`.
fn pow2_wide(n: usize) -> (r: u128)
    requires
        n <= 64,
    ensures
        r as nat == pow2(n as nat),
        0 < r <= 0x1_0000_0000_0000_0000,
{
    if n == 64 {
        proof { lemma2_to64_rest(); }
        0x1_0000_0000_0000_0000u128
    } else {
        proof { lemma_pow2_pos(n as nat); }
        pow2_word(n) as u128
    }
}

/// Reducing modulo `2^m` and then modulo `2^n <= 2^m` is reducing modulo `2^n`.
proof fn lemma_mod_pow2_narrow(x: int, n: nat, m: nat)
    requires
        n <= m,
    ensures
        (x % (pow2(m) as int)) % (pow2(n) as int) == x % (pow2(n) as int),
{
    lemma_pow2_adds(n, (m - n) as nat);
    lemma_pow2_pos(n);
    lemma_pow2_pos((m - n) as nat);
    lemma_mod_mod(x, pow2(n) as int, pow2((m - n) as nat) as int);
}

proof fn lemma_words_zero(ws: Seq<u64>)
    requires
        forall|j: int| 0 <= j < ws.len() ==> ws[j] == 0,
    ensures
        words_value(ws) == 0,
    decreases ws.len(),
{
    if ws.len() > 0 {
        lemma_words_zero(ws.drop_last());
    }
}

} // verus!
