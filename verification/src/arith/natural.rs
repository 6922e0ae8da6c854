//! Arbitrary-precision natural numbers.
//!
//! A natural is a little-endian vector of base-2^32 limbs, each stored in
//! a `u64` so that sums and products of limbs never overflow the word.
//! The representation is canonical: no trailing zero limb, so zero is the
//! empty vector.

use vstd::prelude::*;
use vstd::arithmetic::power::pow;
use vstd::arithmetic::power::lemma_pow_positive;
use vstd::arithmetic::power::lemma_pow_adds;

verus! {

broadcast use vstd::arithmetic::mul::group_mul_basics;

/// Base of the limb representation.
pub const BASE: u64 = 0x1_0000_0000;

/// `BASE` raised to the power `k`, as a mathematical integer.
pub open spec fn bpow(k: nat) -> int {
    pow(BASE as int, k)
}

/// The limb at position `i`, reading positions past the end as zero.
pub open spec fn limb_at(s: Seq<u64>, i: int) -> u64 {
    if 0 <= i < s.len() {
        s[i]
    } else {
        0u64
    }
}

/// Every limb is below the base.
pub open spec fn limbs_ok(s: Seq<u64>) -> bool {
    forall|i: int| 0 <= i < s.len() ==> #[trigger] s[i] < BASE
}

/// Limbs below the base and no trailing zero limb.
pub open spec fn canonical(s: Seq<u64>) -> bool {
    limbs_ok(s) && (s.len() > 0 ==> s[s.len() - 1] != 0)
}

/// Value of the first `i` limbs (zero-extended past the end).
pub open spec fn val_prefix(s: Seq<u64>, i: int) -> int
    decreases i,
{
    if i <= 0 {
        0
    } else {
        val_prefix(s, i - 1) + limb_at(s, i - 1) * bpow((i - 1) as nat)
    }
}

/// Value of a whole limb sequence.
pub open spec fn val_of(s: Seq<u64>) -> int {
    val_prefix(s, s.len() as int)
}

pub proof fn lemma_bpow_pos(k: nat)
    ensures
        bpow(k) >= 1,
{
    lemma_pow_positive(BASE as int, k);
}

pub proof fn lemma_bpow_step(k: nat)
    ensures
        bpow(k + 1) == bpow(k) * (BASE as int),
{
    lemma_pow_adds(BASE as int, k, 1);
    vstd::arithmetic::power::lemma_pow1(BASE as int);
}

pub proof fn lemma_val_prefix_nonneg(s: Seq<u64>, i: int)
    ensures
        val_prefix(s, i) >= 0,
    decreases i,
{
    if i > 0 {
        lemma_val_prefix_nonneg(s, i - 1);
        lemma_bpow_pos((i - 1) as nat);
        assert(limb_at(s, i - 1) * bpow((i - 1) as nat) >= 0) by (nonlinear_arith)
            requires
                limb_at(s, i - 1) >= 0,
                bpow((i - 1) as nat) >= 1,
        ;
    }
}

/// `val_prefix` only reads limbs below `i`, so sequences that agree there
/// have the same prefix value.
pub proof fn lemma_val_prefix_congruent(s: Seq<u64>, t: Seq<u64>, i: int)
    requires
        forall|j: int| 0 <= j < i ==> limb_at(s, j) == limb_at(t, j),
    ensures
        val_prefix(s, i) == val_prefix(t, i),
    decreases i,
{
    if i > 0 {
        lemma_val_prefix_congruent(s, t, i - 1);
    }
}

/// Extending the prefix past the end of the sequence adds nothing.
pub proof fn lemma_val_prefix_ext(s: Seq<u64>, i: int)
    requires
        i >= s.len(),
    ensures
        val_prefix(s, i) == val_of(s),
    decreases i,
{
    if i > s.len() {
        lemma_val_prefix_ext(s, i - 1);
    }
}

/// Prefix values are bounded by the corresponding power of the base.
pub proof fn lemma_val_prefix_upper(s: Seq<u64>, i: int)
    requires
        limbs_ok(s),
        i >= 0,
    ensures
        val_prefix(s, i) < bpow(i as nat),
    decreases i,
{
    if i == 0 {
        lemma_bpow_pos(0);
    } else {
        lemma_val_prefix_upper(s, i - 1);
        lemma_bpow_step((i - 1) as nat);
        lemma_bpow_pos((i - 1) as nat);
        assert(val_prefix(s, i - 1) + limb_at(s, i - 1) * bpow((i - 1) as nat) < bpow(
            (i - 1) as nat,
        ) * (BASE as int)) by (nonlinear_arith)
            requires
                val_prefix(s, i - 1) < bpow((i - 1) as nat),
                limb_at(s, i - 1) < BASE,
                limb_at(s, i - 1) >= 0,
                bpow((i - 1) as nat) >= 1,
        ;
    }
}

/// A canonical non-empty sequence has value at least `bpow(len - 1)`.
pub proof fn lemma_val_lower(s: Seq<u64>)
    requires
        s.len() > 0,
        s[s.len() - 1] != 0,
    ensures
        val_of(s) >= bpow((s.len() - 1) as nat),
{
    let n = s.len() as int;
    lemma_val_prefix_nonneg(s, n - 1);
    lemma_bpow_pos((n - 1) as nat);
    assert(limb_at(s, n - 1) * bpow((n - 1) as nat) >= bpow((n - 1) as nat))
        by (nonlinear_arith)
        requires
            limb_at(s, n - 1) >= 1,
            bpow((n - 1) as nat) >= 1,
    ;
}

/// Sequences that agree at and above `i` differ only in their prefixes.
pub proof fn lemma_val_prefix_diff(s: Seq<u64>, t: Seq<u64>, i: int, n: int)
    requires
        0 <= i <= n,
        forall|j: int| i <= j < n ==> limb_at(s, j) == limb_at(t, j),
    ensures
        val_prefix(s, n) - val_prefix(t, n) == val_prefix(s, i) - val_prefix(t, i),
    decreases n - i,
{
    if n > i {
        lemma_val_prefix_diff(s, t, i, n - 1);
    }
}

/// The first position where two limb sequences differ decides their order.
proof fn lemma_val_prefix_lt(a: Seq<u64>, b: Seq<u64>, i: int, n: int)
    requires
        0 <= i < n,
        limbs_ok(a),
        limb_at(a, i) < limb_at(b, i),
        forall|j: int| i < j < n ==> limb_at(a, j) == limb_at(b, j),
    ensures
        val_prefix(a, n) < val_prefix(b, n),
{
    lemma_val_prefix_diff(a, b, i + 1, n);
    lemma_val_prefix_upper(a, i);
    lemma_val_prefix_nonneg(b, i);
    lemma_bpow_pos(i as nat);
    assert(val_prefix(a, i) + limb_at(a, i) * bpow(i as nat) < val_prefix(b, i) + limb_at(b, i)
        * bpow(i as nat)) by (nonlinear_arith)
        requires
            val_prefix(a, i) < bpow(i as nat),
            val_prefix(b, i) >= 0,
            limb_at(a, i) < limb_at(b, i),
            bpow(i as nat) >= 1,
    ;
}

/// Three-way comparison result.
#[derive(Clone, Copy, PartialEq, Eq, Structural, Debug)]
pub enum Ord3 {
    Less,
    Equal,
    Greater,
}

/// An arbitrary-precision natural number.
pub struct Natural {
    pub limbs: Vec<u64>,
}

impl Clone for Natural {
    fn clone(&self) -> (r: Self)
        ensures
            r.limbs@ == self.limbs@,
            r.wf() == self.wf(),
            r.val() == self.val(),
    {
        Natural { limbs: self.limbs.clone() }
    }
}

impl Natural {
    /// The representation invariant: canonical base-2^32 limbs.
    pub open spec fn wf(&self) -> bool {
        canonical(self.limbs@)
    }

    /// The mathematical value.
    pub open spec fn val(&self) -> int {
        val_of(self.limbs@)
    }

    pub proof fn lemma_val_nonneg(&self)
        ensures
            self.val() >= 0,
    {
        lemma_val_prefix_nonneg(self.limbs@, self.limbs@.len() as int);
    }

    /// Zero, as the empty limb vector.
    pub fn zero() -> (r: Natural)
        ensures
            r.wf(),
            r.val() == 0,
    {
        Natural { limbs: Vec::new() }
    }

    /// A natural from a machine word.
    pub fn from_u64(x: u64) -> (r: Natural)
        ensures
            r.wf(),
            r.val() == x,
    {
        let mut limbs: Vec<u64> = Vec::new();
        let lo = x % BASE;
        let hi = x / BASE;
        limbs.push(lo);
        limbs.push(hi);
        proof {
            assert(bpow(0) == 1) by {
                vstd::arithmetic::power::lemma_pow0(BASE as int);
            }
            assert(bpow(1) == BASE as int) by {
                vstd::arithmetic::power::lemma_pow1(BASE as int);
            }
            assert(val_prefix(limbs@, 0) == 0);
            assert(val_prefix(limbs@, 1) == val_prefix(limbs@, 0) + limb_at(limbs@, 0) * bpow(0));
            assert(val_prefix(limbs@, 2) == val_prefix(limbs@, 1) + limb_at(limbs@, 1) * bpow(1));
            assert(val_prefix(limbs@, 2) == lo + hi * (BASE as int));
            assert(lo + hi * (BASE as int) == x) by (nonlinear_arith)
                requires
                    lo == x % BASE,
                    hi == x / BASE,
                    BASE > 0,
            ;
        }
        let r = Natural { limbs };
        r.into_trimmed()
    }

    /// Drop trailing zero limbs to restore the canonical form.
    fn into_trimmed(self) -> (r: Natural)
        requires
            limbs_ok(self.limbs@),
        ensures
            r.wf(),
            r.val() == self.val(),
    {
        let mut limbs = self.limbs;
        while limbs.len() > 0 && limbs[limbs.len() - 1] == 0
            invariant
                limbs_ok(limbs@),
                val_of(limbs@) == val_of(self.limbs@),
            decreases limbs@.len(),
        {
            proof {
                let before = limbs@;
                let after = limbs@.drop_last();
                assert(forall|j: int| 0 <= j < after.len() ==> limb_at(before, j) == limb_at(
                    after,
                    j,
                ));
                lemma_val_prefix_congruent(before, after, after.len() as int);
                assert(val_prefix(before, before.len() as int) == val_prefix(
                    before,
                    before.len() as int - 1,
                ) + limb_at(before, before.len() as int - 1) * bpow((before.len() - 1) as nat));
                assert(limb_at(before, before.len() as int - 1) == 0);
            }
            limbs.pop();
        }
        Natural { limbs }
    }

    /// Whether this natural is zero.
    pub fn is_zero(&self) -> (r: bool)
        requires
            self.wf(),
        ensures
            r <==> self.val() == 0,
    {
        proof {
            if self.limbs@.len() > 0 {
                lemma_val_lower(self.limbs@);
                lemma_bpow_pos((self.limbs@.len() - 1) as nat);
            }
        }
        self.limbs.len() == 0
    }

    /// Addition.
    pub fn add(&self, other: &Natural) -> (r: Natural)
        requires
            self.wf(),
            other.wf(),
        ensures
            r.wf(),
            r.val() == self.val() + other.val(),
    {
        let a = &self.limbs;
        let b = &other.limbs;
        let n = if a.len() >= b.len() {
            a.len()
        } else {
            b.len()
        };
        let mut out: Vec<u64> = Vec::new();
        let mut carry: u64 = 0;
        let mut i: usize = 0;
        while i < n
            invariant
                i <= n,
                n >= a@.len(),
                n >= b@.len(),
                n == a@.len() || n == b@.len(),
                limbs_ok(a@),
                limbs_ok(b@),
                out@.len() == i,
                limbs_ok(out@),
                carry <= 1,
                val_prefix(out@, i as int) + carry * bpow(i as nat) == val_prefix(a@, i as int)
                    + val_prefix(b@, i as int),
            decreases n - i,
        {
            let ai = if i < a.len() {
                a[i]
            } else {
                0
            };
            let bi = if i < b.len() {
                b[i]
            } else {
                0
            };
            let t = ai + bi + carry;
            let limb = t % BASE;
            let new_carry = t / BASE;
            proof {
                let gi = i as int;
                assert(limb + new_carry * (BASE as int) == t) by (nonlinear_arith)
                    requires
                        limb == t % BASE,
                        new_carry == t / BASE,
                        BASE > 0,
                ;
                assert(new_carry <= 1) by (nonlinear_arith)
                    requires
                        t < 2 * BASE,
                        new_carry == t / BASE,
                        BASE > 0,
                ;
                lemma_bpow_step(i as nat);
                let old_out = out@;
                let new_out = out@.push(limb);
                lemma_val_prefix_congruent(old_out, new_out, gi);
                assert(val_prefix(new_out, gi + 1) == val_prefix(old_out, gi) + limb * bpow(
                    i as nat,
                ));
                assert(val_prefix(a@, gi + 1) == val_prefix(a@, gi) + ai * bpow(i as nat));
                assert(val_prefix(b@, gi + 1) == val_prefix(b@, gi) + bi * bpow(i as nat));
                assert(val_prefix(old_out, gi) + limb * bpow(i as nat) + new_carry * (bpow(
                    i as nat,
                ) * (BASE as int)) == val_prefix(old_out, gi) + carry * bpow(i as nat) + ai * bpow(
                    i as nat,
                ) + bi * bpow(i as nat)) by (nonlinear_arith)
                    requires
                        limb + new_carry * (BASE as int) == t,
                        t == ai + bi + carry,
                ;
            }
            out.push(limb);
            carry = new_carry;
            i = i + 1;
        }
        proof {
            lemma_val_prefix_ext(a@, n as int);
            lemma_val_prefix_ext(b@, n as int);
        }
        if carry > 0 {
            proof {
                let gi = n as int;
                let old_out = out@;
                let new_out = out@.push(carry);
                lemma_val_prefix_congruent(old_out, new_out, gi);
                assert(val_prefix(new_out, gi + 1) == val_prefix(old_out, gi) + carry * bpow(
                    n as nat,
                ));
            }
            out.push(carry);
        }
        let r = Natural { limbs: out };
        r.into_trimmed()
    }

    /// Three-way comparison.
    pub fn cmp(&self, other: &Natural) -> (r: Ord3)
        requires
            self.wf(),
            other.wf(),
        ensures
            r == Ord3::Less <==> self.val() < other.val(),
            r == Ord3::Equal <==> self.val() == other.val(),
            r == Ord3::Greater <==> self.val() > other.val(),
    {
        let a = &self.limbs;
        let b = &other.limbs;
        if a.len() < b.len() {
            proof {
                lemma_val_prefix_lt(a@, b@, b@.len() as int - 1, b@.len() as int);
                lemma_val_prefix_ext(a@, b@.len() as int);
            }
            return Ord3::Less;
        }
        if a.len() > b.len() {
            proof {
                lemma_val_prefix_lt(b@, a@, a@.len() as int - 1, a@.len() as int);
                lemma_val_prefix_ext(b@, a@.len() as int);
            }
            return Ord3::Greater;
        }
        let n = a.len();
        let mut i: usize = n;
        while i > 0
            invariant
                i <= n,
                n == a@.len(),
                n == b@.len(),
                a@ == self.limbs@,
                b@ == other.limbs@,
                limbs_ok(a@),
                limbs_ok(b@),
                forall|j: int| i <= j < n ==> limb_at(a@, j) == limb_at(b@, j),
            decreases i,
        {
            i = i - 1;
            if a[i] < b[i] {
                proof {
                    lemma_val_prefix_lt(a@, b@, i as int, n as int);
                }
                return Ord3::Less;
            }
            if a[i] > b[i] {
                proof {
                    lemma_val_prefix_lt(b@, a@, i as int, n as int);
                }
                return Ord3::Greater;
            }
        }
        proof {
            lemma_val_prefix_congruent(a@, b@, n as int);
        }
        Ord3::Equal
    }

    /// Subtraction; the subtrahend must not exceed the minuend.
    pub fn sub(&self, other: &Natural) -> (r: Natural)
        requires
            self.wf(),
            other.wf(),
            other.val() <= self.val(),
        ensures
            r.wf(),
            r.val() == self.val() - other.val(),
    {
        let a = &self.limbs;
        let b = &other.limbs;
        proof {
            if b@.len() > a@.len() {
                lemma_val_prefix_lt(a@, b@, b@.len() as int - 1, b@.len() as int);
                lemma_val_prefix_ext(a@, b@.len() as int);
            }
        }
        let n = a.len();
        let mut out: Vec<u64> = Vec::new();
        let mut borrow: u64 = 0;
        let mut i: usize = 0;
        while i < n
            invariant
                i <= n,
                n == a@.len(),
                b@.len() <= n,
                limbs_ok(a@),
                limbs_ok(b@),
                out@.len() == i,
                limbs_ok(out@),
                borrow <= 1,
                val_prefix(a@, i as int) - val_prefix(b@, i as int) == val_prefix(out@, i as int)
                    - borrow * bpow(i as nat),
            decreases n - i,
        {
            let ai = a[i];
            let bi = if i < b.len() {
                b[i]
            } else {
                0
            };
            let limb: u64;
            let new_borrow: u64;
            if ai >= bi + borrow {
                limb = ai - bi - borrow;
                new_borrow = 0;
            } else {
                limb = ai + BASE - bi - borrow;
                new_borrow = 1;
            }
            proof {
                let gi = i as int;
                lemma_bpow_step(i as nat);
                let old_out = out@;
                let new_out = out@.push(limb);
                lemma_val_prefix_congruent(old_out, new_out, gi);
                assert(val_prefix(new_out, gi + 1) == val_prefix(old_out, gi) + limb * bpow(
                    i as nat,
                ));
                assert(val_prefix(a@, gi + 1) == val_prefix(a@, gi) + ai * bpow(i as nat));
                assert(val_prefix(b@, gi + 1) == val_prefix(b@, gi) + bi * bpow(i as nat));
                assert(val_prefix(old_out, gi) + limb * bpow(i as nat) - new_borrow * (bpow(
                    i as nat,
                ) * (BASE as int)) == val_prefix(old_out, gi) - borrow * bpow(i as nat) + ai * bpow(
                    i as nat,
                ) - bi * bpow(i as nat)) by (nonlinear_arith)
                    requires
                        limb == ai + new_borrow * (BASE as int) - bi - borrow,
                ;
            }
            out.push(limb);
            borrow = new_borrow;
            i = i + 1;
        }
        proof {
            lemma_val_prefix_ext(b@, n as int);
            if borrow == 1 {
                lemma_val_prefix_upper(out@, n as int);
                lemma_bpow_pos(n as nat);
            }
        }
        let r = Natural { limbs: out };
        r.into_trimmed()
    }

    /// Multiplication by a single limb.
    fn mul_limb(&self, d: u64) -> (r: Natural)
        requires
            self.wf(),
            d < BASE,
        ensures
            r.wf(),
            r.val() == self.val() * d,
    {
        let a = &self.limbs;
        let n = a.len();
        let mut out: Vec<u64> = Vec::new();
        let mut carry: u64 = 0;
        let mut i: usize = 0;
        while i < n
            invariant
                i <= n,
                n == a@.len(),
                limbs_ok(a@),
                d < BASE,
                out@.len() == i,
                limbs_ok(out@),
                carry < BASE,
                val_prefix(out@, i as int) + carry * bpow(i as nat) == val_prefix(a@, i as int)
                    * d,
            decreases n - i,
        {
            let ai = a[i];
            proof {
                assert(ai * d + carry < BASE * BASE && BASE * BASE == 0x1_0000_0000_0000_0000)
                    by (nonlinear_arith)
                    requires
                        ai < BASE,
                        d < BASE,
                        carry < BASE,
                        ai >= 0,
                        d >= 0,
                        carry >= 0,
                        BASE == 0x1_0000_0000,
                ;
            }
            let t = ai * d + carry;
            let limb = t % BASE;
            let new_carry = t / BASE;
            proof {
                let gi = i as int;
                assert(limb + new_carry * (BASE as int) == t && new_carry < BASE)
                    by (nonlinear_arith)
                    requires
                        limb == t % BASE,
                        new_carry == t / BASE,
                        t < BASE * BASE,
                        BASE > 0,
                ;
                lemma_bpow_step(i as nat);
                let old_out = out@;
                let new_out = out@.push(limb);
                lemma_val_prefix_congruent(old_out, new_out, gi);
                assert(val_prefix(new_out, gi + 1) == val_prefix(old_out, gi) + limb * bpow(
                    i as nat,
                ));
                assert(val_prefix(a@, gi + 1) == val_prefix(a@, gi) + ai * bpow(i as nat));
                assert(val_prefix(old_out, gi) + limb * bpow(i as nat) + new_carry * (bpow(
                    i as nat,
                ) * (BASE as int)) == val_prefix(a@, gi) * d + (ai * bpow(i as nat)) * d)
                    by (nonlinear_arith)
                    requires
                        limb + new_carry * (BASE as int) == ai * d + carry,
                        val_prefix(old_out, gi) + carry * bpow(i as nat) == val_prefix(a@, gi) * d,
                ;
                assert(val_prefix(a@, gi + 1) * d == val_prefix(a@, gi) * d + (ai * bpow(i as nat))
                    * d) by (nonlinear_arith)
                    requires
                        val_prefix(a@, gi + 1) == val_prefix(a@, gi) + ai * bpow(i as nat),
                ;
            }
            out.push(limb);
            carry = new_carry;
            i = i + 1;
        }
        proof {
            let gi = n as int;
            let old_out = out@;
            let new_out = out@.push(carry);
            lemma_val_prefix_congruent(old_out, new_out, gi);
            assert(val_prefix(new_out, gi + 1) == val_prefix(old_out, gi) + carry * bpow(n as nat));
        }
        out.push(carry);
        let r = Natural { limbs: out };
        r.into_trimmed()
    }

    /// Shift left by whole limbs: multiply by `BASE^k`.
    fn shift_limbs(&self, k: usize) -> (r: Natural)
        requires
            self.wf(),
        ensures
            r.wf(),
            r.val() == self.val() * bpow(k as nat),
    {
        let a = &self.limbs;
        let n = a.len();
        let mut out: Vec<u64> = Vec::new();
        let mut i: usize = 0;
        while i < k
            invariant
                i <= k,
                out@.len() == i,
                limbs_ok(out@),
                val_prefix(out@, i as int) == 0,
            decreases k - i,
        {
            proof {
                let gi = i as int;
                let old_out = out@;
                let new_out = out@.push(0u64);
                lemma_val_prefix_congruent(old_out, new_out, gi);
            }
            out.push(0);
            i = i + 1;
        }
        let mut j: usize = 0;
        while j < n
            invariant
                j <= n,
                n == a@.len(),
                limbs_ok(a@),
                out@.len() == k + j,
                limbs_ok(out@),
                val_prefix(out@, (k + j) as int) == val_prefix(a@, j as int) * bpow(k as nat),
            decreases n - j,
        {
            let aj = a[j];
            proof {
                let gi = (k + j) as int;
                lemma_pow_adds(BASE as int, k as nat, j as nat);
                let old_out = out@;
                let new_out = out@.push(aj);
                lemma_val_prefix_congruent(old_out, new_out, gi);
                assert(val_prefix(new_out, gi + 1) == val_prefix(old_out, gi) + aj * bpow(
                    (k + j) as nat,
                ));
                assert(val_prefix(a@, j as int + 1) == val_prefix(a@, j as int) + aj * bpow(
                    j as nat,
                ));
                assert((k + j) as nat == k as nat + j as nat);
                assert(val_prefix(old_out, gi) + aj * (bpow(k as nat) * bpow(j as nat)) == (
                val_prefix(a@, j as int) + aj * bpow(j as nat)) * bpow(k as nat))
                    by (nonlinear_arith)
                    requires
                        val_prefix(old_out, gi) == val_prefix(a@, j as int) * bpow(k as nat),
                ;
            }
            out.push(aj);
            j = j + 1;
        }
        let r = Natural { limbs: out };
        r.into_trimmed()
    }

    /// Multiplication.
    pub fn mul(&self, other: &Natural) -> (r: Natural)
        requires
            self.wf(),
            other.wf(),
        ensures
            r.wf(),
            r.val() == self.val() * other.val(),
    {
        let b = &other.limbs;
        let n = b.len();
        let mut acc = Natural::zero();
        let mut i: usize = 0;
        while i < n
            invariant
                i <= n,
                n == b@.len(),
                self.wf(),
                limbs_ok(b@),
                acc.wf(),
                acc.val() == self.val() * val_prefix(b@, i as int),
            decreases n - i,
        {
            let bi = b[i];
            let part = self.mul_limb(bi).shift_limbs(i);
            proof {
                assert((self.val() * bi) * bpow(i as nat) + self.val() * val_prefix(b@, i as int)
                    == self.val() * (val_prefix(b@, i as int) + bi * bpow(i as nat)))
                    by (nonlinear_arith);
            }
            acc = acc.add(&part);
            i = i + 1;
        }
        acc
    }

    /// Halving: floor division by two.
    pub fn half(&self) -> (r: Natural)
        requires
            self.wf(),
        ensures
            r.wf(),
            r.val() == self.val() / 2,
    {
        let a = &self.limbs;
        let n = a.len();
        let mut out: Vec<u64> = Vec::new();
        let mut i: usize = 0;
        proof {
            vstd::arithmetic::power::lemma_pow0(BASE as int);
        }
        while i < n
            invariant
                i <= n,
                n == a@.len(),
                a@ == self.limbs@,
                limbs_ok(a@),
                out@.len() == i,
                limbs_ok(out@),
                2 * val_prefix(out@, i as int) == val_prefix(a@, i as int) - limb_at(a@, 0) % 2 + (
                limb_at(a@, i as int) % 2) * bpow(i as nat),
            decreases n - i,
        {
            let ai = a[i];
            let next = if i + 1 < n {
                a[i + 1]
            } else {
                0
            };
            let limb = ai / 2 + (next % 2) * (BASE / 2);
            proof {
                let gi = i as int;
                assert(limb < BASE && limb >= 0) by (nonlinear_arith)
                    requires
                        limb == ai / 2 + (next % 2) * (BASE / 2),
                        ai < BASE,
                        ai >= 0,
                        next >= 0,
                ;
                lemma_bpow_step(i as nat);
                let old_out = out@;
                let new_out = out@.push(limb);
                lemma_val_prefix_congruent(old_out, new_out, gi);
                assert(val_prefix(new_out, gi + 1) == val_prefix(old_out, gi) + limb * bpow(
                    i as nat,
                ));
                assert(val_prefix(a@, gi + 1) == val_prefix(a@, gi) + ai * bpow(i as nat));
                assert(2 * (limb * bpow(i as nat)) == (ai - ai % 2) * bpow(i as nat) + (next % 2) * (
                bpow(i as nat) * (BASE as int))) by (nonlinear_arith)
                    requires
                        limb == ai / 2 + (next % 2) * (BASE / 2),
                        BASE % 2 == 0,
                        BASE > 0,
                        ai >= 0,
                        next >= 0,
                ;
                assert((ai % 2) * bpow(i as nat) + (ai - ai % 2) * bpow(i as nat) == ai * bpow(
                    i as nat,
                )) by (nonlinear_arith);
                assert(limb_at(a@, gi + 1) == next);
            }
            out.push(limb);
            i = i + 1;
        }
        proof {
            let r0 = limb_at(a@, 0) % 2;
            assert(limb_at(a@, n as int) == 0);
            assert(2 * val_prefix(out@, n as int) == val_prefix(a@, n as int) - r0);
            assert(val_prefix(out@, n as int) == val_prefix(a@, n as int) / 2) by (nonlinear_arith)
                requires
                    2 * val_prefix(out@, n as int) == val_prefix(a@, n as int) - r0,
                    0 <= r0 < 2,
            ;
        }
        let r = Natural { limbs: out };
        r.into_trimmed()
    }

    /// Integer square root: the greatest `r` with `r * r <= self`.
    pub fn isqrt(&self) -> (r: Natural)
        requires
            self.wf(),
        ensures
            r.wf(),
            r.val() * r.val() <= self.val(),
            (r.val() + 1) * (r.val() + 1) > self.val(),
    {
        let one = Natural::from_u64(1);
        let mut lo = Natural::zero();
        let mut hi = self.add(&one);
        proof {
            self.lemma_val_nonneg();
            assert((self.val() + 1) * (self.val() + 1) > self.val()) by (nonlinear_arith)
                requires
                    self.val() >= 0,
            ;
        }
        loop
            invariant
                one.wf(),
                one.val() == 1,
                self.wf(),
                lo.wf(),
                hi.wf(),
                lo.val() >= 0,
                lo.val() < hi.val(),
                lo.val() * lo.val() <= self.val(),
                hi.val() * hi.val() > self.val(),
            ensures
                lo.wf(),
                lo.val() * lo.val() <= self.val(),
                (lo.val() + 1) * (lo.val() + 1) > self.val(),
            decreases hi.val() - lo.val(),
        {
            let next = lo.add(&one);
            match next.cmp(&hi) {
                Ord3::Less => {},
                _ => {
                    proof {
                        assert(hi.val() <= lo.val() + 1);
                        assert((lo.val() + 1) * (lo.val() + 1) >= hi.val() * hi.val())
                            by (nonlinear_arith)
                            requires
                                hi.val() <= lo.val() + 1,
                                hi.val() > lo.val() >= 0,
                        ;
                    }
                    break ;
                },
            }
            let mid = lo.add(&hi).half();
            proof {
                let s = lo.val() + hi.val();
                assert(lo.val() < s / 2 && s / 2 < hi.val()) by (nonlinear_arith)
                    requires
                        s == lo.val() + hi.val(),
                        lo.val() + 1 < hi.val(),
                        lo.val() >= 0,
                ;
            }
            let m2 = mid.mul(&mid);
            match m2.cmp(self) {
                Ord3::Greater => {
                    hi = mid;
                },
                _ => {
                    lo = mid;
                },
            }
        }
        lo
    }

    /// A power of ten.
    pub fn pow10(k: usize) -> (r: Natural)
        ensures
            r.wf(),
            r.val() == pow(10, k as nat),
    {
        let mut acc = Natural::from_u64(1);
        let mut i: usize = 0;
        proof {
            vstd::arithmetic::power::lemma_pow0(10);
        }
        while i < k
            invariant
                i <= k,
                acc.wf(),
                acc.val() == pow(10, i as nat),
            decreases k - i,
        {
            proof {
                lemma_pow_adds(10, i as nat, 1);
                vstd::arithmetic::power::lemma_pow1(10);
            }
            acc = acc.mul_limb(10);
            i = i + 1;
        }
        acc
    }
}

} // verus!
