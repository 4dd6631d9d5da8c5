//! Natural numbers of any size as little-endian vectors of 32-bit limbs:
//! enough of them (sums, products, comparison) to compare sums of fractions
//! exactly.

use vstd::prelude::*;

verus! {

/// The limb base, `2^32`.
pub open spec fn base() -> nat {
    0x1_0000_0000
}

/// `base()` to the power `n`.
pub open spec fn bpow(n: nat) -> nat
    decreases n,
{
    if n == 0 {
        1
    } else {
        bpow((n - 1) as nat) * base()
    }
}

/// The number the limbs stand for, least significant first.
pub open spec fn val(s: Seq<u32>) -> nat
    decreases s.len(),
{
    if s.len() == 0 {
        0
    } else {
        val(s.drop_last()) + (s.last() as nat) * bpow((s.len() - 1) as nat)
    }
}

pub proof fn lemma_bpow_pos(n: nat)
    ensures
        bpow(n) > 0,
    decreases n,
{
    if n > 0 {
        lemma_bpow_pos((n - 1) as nat);
        assert(bpow((n - 1) as nat) * base() > 0) by (nonlinear_arith)
            requires
                bpow((n - 1) as nat) > 0,
        ;
    }
}

pub proof fn lemma_bpow_add(a: nat, b: nat)
    ensures
        bpow(a + b) == bpow(a) * bpow(b),
    decreases b,
{
    if b > 0 {
        let b1 = (b - 1) as nat;
        lemma_bpow_add(a, b1);
        let x = bpow(a);
        let y = bpow(b1);
        assert(a + b1 + 1 == a + b);
        assert(bpow(a + b) == bpow(a + b1) * base());
        assert(bpow(a + b1) == x * y);
        assert(bpow(b) == y * base());
        assert((x * y) * base() == x * (y * base())) by (nonlinear_arith);
        assert(bpow(a + b) == x * bpow(b));
    } else {
        assert(a + b == a);
        assert(bpow(b) == 1);
        assert(bpow(a) * 1 == bpow(a));
    }
}

pub proof fn lemma_val_bound(s: Seq<u32>)
    ensures
        val(s) < bpow(s.len()),
    decreases s.len(),
{
    if s.len() > 0 {
        let d = s.drop_last();
        lemma_val_bound(d);
        let p = bpow(d.len());
        let l = s.last() as nat;
        assert(val(d) + l * p < p * base()) by (nonlinear_arith)
            requires
                val(d) < p,
                l < base(),
        {
            assert(l * p <= (base() - 1) * p);
        }
    }
}

proof fn lemma_val_take(s: Seq<u32>, i: int)
    requires
        0 <= i < s.len(),
    ensures
        val(s.take(i + 1)) == val(s.take(i)) + (s[i] as nat) * bpow(i as nat),
{
    assert(s.take(i + 1).drop_last() == s.take(i));
}

proof fn lemma_val_zeros(z: Seq<u32>)
    requires
        forall|i: int| 0 <= i < z.len() ==> z[i] == 0,
    ensures
        val(z) == 0,
    decreases z.len(),
{
    if z.len() > 0 {
        lemma_val_zeros(z.drop_last());
    }
}

proof fn lemma_val_one(d: u32)
    ensures
        val(seq![d]) == d as nat,
{
    let one = seq![d];
    assert(one.len() == 1);
    assert(one.last() == d);
    assert(one.drop_last() =~= Seq::<u32>::empty());
    assert(val(one.drop_last()) == 0);
    assert(bpow(0) == 1);
    assert(val(one) == 0 + (d as nat) * bpow(0));
}

/// Zero limbs at the top change nothing.
proof fn lemma_val_pad(s: Seq<u32>, z: Seq<u32>)
    requires
        forall|i: int| 0 <= i < z.len() ==> z[i] == 0,
    ensures
        val(s + z) == val(s),
    decreases z.len(),
{
    if z.len() > 0 {
        lemma_val_pad(s, z.drop_last());
        assert((s + z).drop_last() == s + z.drop_last());
        assert((s + z).last() == 0);
        assert(val(s + z) == val(s + z.drop_last()) + 0 * bpow(((s + z).len() - 1) as nat));
    } else {
        assert(s + z == s);
    }
}

/// Zero limbs at the bottom multiply by a power of the base.
proof fn lemma_val_shift(z: Seq<u32>, s: Seq<u32>)
    requires
        forall|i: int| 0 <= i < z.len() ==> z[i] == 0,
    ensures
        val(z + s) == val(s) * bpow(z.len()),
    decreases s.len(),
{
    if s.len() == 0 {
        assert(z + s == z);
        lemma_val_zeros(z);
        assert(val(s) == 0);
        assert(val(s) * bpow(z.len()) == 0);
    } else {
        let n = s.len();
        let d = s.drop_last();
        lemma_val_shift(z, d);
        let zs = z + s;
        assert(zs.drop_last() == z + d);
        assert(zs.last() == s.last());
        assert(zs.len() - 1 == z.len() + (n - 1));
        lemma_bpow_add(z.len(), (n - 1) as nat);
        let a = val(d);
        let l = s.last() as nat;
        let p = bpow((n - 1) as nat);
        let q = bpow(z.len());
        assert(val(zs) == val(z + d) + l * bpow((zs.len() - 1) as nat));
        assert(bpow((zs.len() - 1) as nat) == q * p);
        assert(val(z + d) == a * q);
        assert(val(s) == a + l * p);
        assert(a * q + l * (q * p) == (a + l * p) * q) by (nonlinear_arith);
        assert(val(zs) == val(s) * q);
    }
}

/// The limbs below `k` and those from `k` on.
proof fn lemma_val_split(s: Seq<u32>, k: int)
    requires
        0 <= k <= s.len(),
    ensures
        val(s) == val(s.take(k)) + val(s.skip(k)) * bpow(k as nat),
    decreases s.len(),
{
    if k == s.len() {
        assert(s.take(k) == s);
        assert(s.skip(k).len() == 0);
        assert(val(s.skip(k)) == 0);
        assert(val(s.skip(k)) * bpow(k as nat) == 0) by (nonlinear_arith)
            requires
                val(s.skip(k)) == 0,
        ;
    } else {
        let n = s.len();
        let d = s.drop_last();
        lemma_val_split(d, k);
        let t = s.skip(k);
        assert(d.take(k) == s.take(k));
        assert(t.drop_last() == d.skip(k));
        assert(t.last() == s.last());
        assert(t.len() - 1 == n - 1 - k);
        lemma_bpow_add(k as nat, (n - 1 - k) as nat);
        let a = val(d.skip(k));
        let l = s.last() as nat;
        let p = bpow((n - 1 - k) as nat);
        let q = bpow(k as nat);
        assert(k + (n - 1 - k) == n - 1);
        assert(bpow((n - 1) as nat) == q * p);
        assert(val(s) == val(d) + l * bpow((n - 1) as nat));
        assert(val(d) == val(s.take(k)) + a * q);
        assert(val(t) == a + l * p);
        assert(a * q + l * (q * p) == (a + l * p) * q) by (nonlinear_arith);
        assert(val(s) == val(s.take(k)) + val(t) * q);
    }
}

/// The number `x`.
pub(crate) fn from_u128(x: u128) -> (r: Vec<u32>)
    ensures
        val(r@) == x,
{
    let mut r: Vec<u32> = Vec::new();
    let mut y: u128 = x;
    let mut k: usize = 0;
    proof {
        assert(bpow(0) == 1);
        assert(val(r@) == 0);
    }
    while k < 4
        invariant
            k <= 4,
            r@.len() == k,
            val(r@) + y * bpow(k as nat) == x,
        decreases 4 - k,
    {
        let limb = (y % 0x1_0000_0000) as u32;
        let ghost y0 = y;
        let ghost r0 = r@;
        r.push(limb);
        y = y / 0x1_0000_0000;
        proof {
            assert(r@.drop_last() == r0);
            assert(bpow((k + 1) as nat) == bpow(k as nat) * base());
            let p = bpow(k as nat);
            let yv = y0 as nat;
            assert((yv % base()) * p + (yv / base()) * (p * base()) == yv * p) by (nonlinear_arith)
                requires
                    base() > 0,
            {
                assert(yv == (yv / base()) * base() + yv % base());
            }
        }
        k = k + 1;
    }
    proof {
        reveal_with_fuel(bpow, 5);
        assert(bpow(4) == 0x1_0000_0000_0000_0000_0000_0000_0000_0000);
        assert(y == 0) by (nonlinear_arith)
            requires
                val(r@) + y * bpow(4) == x,
                x < 0x1_0000_0000_0000_0000_0000_0000_0000_0000,
                bpow(4) == 0x1_0000_0000_0000_0000_0000_0000_0000_0000,
        ;
    }
    r
}

/// `a` times the limb `m`.
pub(crate) fn mul_limb(a: &Vec<u32>, m: u32) -> (r: Vec<u32>)
    ensures
        val(r@) == val(a@) * m,
{
    let mut r: Vec<u32> = Vec::new();
    let mut c: u64 = 0;
    let mut i: usize = 0;
    proof {
        assert(a@.take(0) =~= Seq::<u32>::empty());
        assert(val(a@.take(0)) == 0);
        assert(bpow(0) == 1);
        assert(val(r@) == 0);
    }
    while i < a.len()
        invariant
            i <= a@.len(),
            r@.len() == i,
            c < base(),
            val(r@) + c * bpow(i as nat) == val(a@.take(i as int)) * m,
        decreases a.len() - i,
    {
        let x = a[i];
        assert((x as u64) * (m as u64) + c < 0x1_0000_0000_0000_0000) by (nonlinear_arith)
            requires
                x < base(),
                m < base(),
                c < base(),
        ;
        let t: u64 = (x as u64) * (m as u64) + c;
        let ghost r0 = r@;
        let ghost c0 = c;
        r.push((t % 0x1_0000_0000) as u32);
        c = t / 0x1_0000_0000;
        proof {
            lemma_val_take(a@, i as int);
            assert(r@.drop_last() == r0);
            let p = bpow(i as nat);
            assert(bpow((i + 1) as nat) == p * base());
            let va = val(a@.take(i as int));
            let tv = t as nat;
            assert((tv % base()) * p + (tv / base()) * (p * base()) == tv * p) by (nonlinear_arith)
                requires
                    base() > 0,
            {
                assert(tv == (tv / base()) * base() + tv % base());
            }
            assert(val(r0) + c0 * p == va * m);
            assert(t == x * m + c0);
            assert(t * p == x * m * p + c0 * p) by (nonlinear_arith)
                requires
                    t == x * m + c0,
            ;
            assert((va + x * p) * m == va * m + x * m * p) by (nonlinear_arith);
        }
        i = i + 1;
    }
    proof {
        assert(a@.take(a@.len() as int) == a@);
    }
    let ghost r0 = r@;
    r.push(c as u32);
    proof {
        assert(r@.drop_last() == r0);
    }
    r
}

/// The limb of `s` at `i`, zero above its top.
pub open spec fn digit(s: Seq<u32>, i: int) -> nat {
    if 0 <= i < s.len() {
        s[i] as nat
    } else {
        0
    }
}

proof fn lemma_val_take_digit(s: Seq<u32>, i: int)
    requires
        0 <= i,
    ensures
        val(s.take(if i + 1 <= s.len() { i + 1 } else { s.len() as int })) == val(
            s.take(if i <= s.len() { i } else { s.len() as int }),
        ) + digit(s, i) * bpow(i as nat),
{
    if i < s.len() {
        lemma_val_take(s, i);
    }
}

/// `a + b`.
pub(crate) fn big_add(a: &Vec<u32>, b: &Vec<u32>) -> (r: Vec<u32>)
    ensures
        val(r@) == val(a@) + val(b@),
{
    let n = if a.len() >= b.len() { a.len() } else { b.len() };
    let mut r: Vec<u32> = Vec::new();
    let mut c: u64 = 0;
    let mut i: usize = 0;
    while i < n
        invariant
            i <= n,
            n == (if a@.len() >= b@.len() { a@.len() } else { b@.len() }),
            r@.len() == i,
            c <= 1,
            val(r@) + c * bpow(i as nat) == val(a@.take(if i <= a@.len() { i as int } else { a@.len() as int }))
                + val(b@.take(if i <= b@.len() { i as int } else { b@.len() as int })),
        decreases n - i,
    {
        let x: u64 = if i < a.len() { a[i] as u64 } else { 0 };
        let y: u64 = if i < b.len() { b[i] as u64 } else { 0 };
        let t: u64 = x + y + c;
        let ghost r0 = r@;
        let ghost c0 = c;
        r.push((t % 0x1_0000_0000) as u32);
        c = t / 0x1_0000_0000;
        proof {
            lemma_val_take_digit(a@, i as int);
            lemma_val_take_digit(b@, i as int);
            assert(x == digit(a@, i as int) && y == digit(b@, i as int));
            assert(r@.drop_last() == r0);
            let p = bpow(i as nat);
            assert(bpow((i + 1) as nat) == p * base());
            let tv = t as nat;
            assert((tv % base()) * p + (tv / base()) * (p * base()) == tv * p) by (nonlinear_arith)
                requires
                    base() > 0,
            {
                assert(tv == (tv / base()) * base() + tv % base());
            }
            assert(t * p == x * p + y * p + c0 * p) by (nonlinear_arith)
                requires
                    t == x + y + c0,
            ;
        }
        i = i + 1;
    }
    proof {
        assert(a@.take(a@.len() as int) == a@);
        assert(b@.take(b@.len() as int) == b@);
    }
    let ghost r0 = r@;
    r.push(c as u32);
    proof {
        assert(r@.drop_last() == r0);
    }
    r
}

/// `a` times `base()^k`.
fn shift(a: &Vec<u32>, k: usize) -> (r: Vec<u32>)
    ensures
        val(r@) == val(a@) * bpow(k as nat),
{
    let mut r: Vec<u32> = Vec::new();
    let mut j: usize = 0;
    while j < k
        invariant
            j <= k,
            r@.len() == j,
            forall|t: int| 0 <= t < j ==> r@[t] == 0,
        decreases k - j,
    {
        r.push(0);
        j = j + 1;
    }
    let ghost z = r@;
    let mut i: usize = 0;
    while i < a.len()
        invariant
            i <= a@.len(),
            z.len() == k,
            r@ == z + a@.take(i as int),
        decreases a.len() - i,
    {
        r.push(a[i]);
        proof {
            assert(a@.take(i + 1) == a@.take(i as int).push(a@[i as int]));
        }
        i = i + 1;
    }
    proof {
        assert(a@.take(a@.len() as int) == a@);
        lemma_val_shift(z, a@);
    }
    r
}

/// `a * b`.
pub(crate) fn big_mul(a: &Vec<u32>, b: &Vec<u32>) -> (r: Vec<u32>)
    ensures
        val(r@) == val(a@) * val(b@),
{
    let mut acc: Vec<u32> = Vec::new();
    let mut i: usize = 0;
    proof {
        assert(b@.take(0) =~= Seq::<u32>::empty());
        assert(val(acc@) == 0);
        assert(val(a@) * 0 == 0);
    }
    while i < b.len()
        invariant
            i <= b@.len(),
            val(acc@) == val(a@) * val(b@.take(i as int)),
        decreases b.len() - i,
    {
        let part = mul_limb(a, b[i]);
        let moved = shift(&part, i);
        acc = big_add(&acc, &moved);
        proof {
            lemma_val_take(b@, i as int);
            let va = val(a@);
            assert(va * (val(b@.take(i as int)) + (b@[i as int] as nat) * bpow(i as nat)) == va * val(
                b@.take(i as int),
            ) + va * (b@[i as int] as nat) * bpow(i as nat)) by (nonlinear_arith);
        }
        i = i + 1;
    }
    proof {
        assert(b@.take(b@.len() as int) == b@);
    }
    acc
}

/// `s` with zero limbs added on top up to `n` limbs.
fn pad(s: &Vec<u32>, n: usize) -> (r: Vec<u32>)
    requires
        s@.len() <= n,
    ensures
        r@.len() == n,
        val(r@) == val(s@),
{
    let mut r: Vec<u32> = Vec::new();
    let mut i: usize = 0;
    while i < s.len()
        invariant
            i <= s@.len(),
            r@ == s@.take(i as int),
        decreases s.len() - i,
    {
        r.push(s[i]);
        proof {
            assert(s@.take(i + 1) == s@.take(i as int).push(s@[i as int]));
        }
        i = i + 1;
    }
    proof {
        assert(s@.take(s@.len() as int) == s@);
    }
    let ghost s0 = r@;
    while r.len() < n
        invariant
            s0.len() <= r@.len() <= n,
            r@.take(s0.len() as int) == s0,
            forall|t: int| s0.len() <= t < r@.len() ==> r@[t] == 0,
        decreases n - r.len(),
    {
        r.push(0);
    }
    proof {
        let z = r@.skip(s0.len() as int);
        assert(r@ == s0 + z);
        lemma_val_pad(s0, z);
    }
    r
}

/// Which of `a` and `b` is larger: `-1` when `a < b`, `0` when they are
/// equal, `1` when `a > b`.
pub(crate) fn compare(a: &Vec<u32>, b: &Vec<u32>) -> (r: i8)
    ensures
        r == -1 <==> val(a@) < val(b@),
        r == 0 <==> val(a@) == val(b@),
        r == 1 <==> val(a@) > val(b@),
{
    let n = if a.len() >= b.len() { a.len() } else { b.len() };
    let x = pad(a, n);
    let y = pad(b, n);
    let mut i: usize = n;
    while i > 0
        invariant
            i <= n,
            x@.len() == n,
            y@.len() == n,
            x@.skip(i as int) == y@.skip(i as int),
            val(x@) == val(a@),
            val(y@) == val(b@),
        decreases i,
    {
        let j = i - 1;
        if x[j] != y[j] {
            proof {
                lemma_val_split(x@, j as int);
                lemma_val_split(y@, j as int);
                lemma_val_split(x@.skip(j as int), 1);
                lemma_val_split(y@.skip(j as int), 1);
                assert(x@.skip(j as int).skip(1) == x@.skip(i as int));
                assert(y@.skip(j as int).skip(1) == y@.skip(i as int));
                assert(x@.skip(j as int).take(1) == seq![x@[j as int]]);
                assert(y@.skip(j as int).take(1) == seq![y@[j as int]]);
                assert(seq![x@[j as int]].drop_last() == Seq::<u32>::empty());
                assert(seq![y@[j as int]].drop_last() == Seq::<u32>::empty());
                lemma_val_bound(x@.take(j as int));
                lemma_val_bound(y@.take(j as int));
                assert(bpow(1) == base());
                lemma_val_one(x@[j as int]);
                lemma_val_one(y@[j as int]);
                let h = val(x@.skip(i as int));
                let p = bpow(j as nat);
                let lx = val(x@.take(j as int));
                let ly = val(y@.take(j as int));
                let dx = x@[j as int] as nat;
                let dy = y@[j as int] as nat;
                assert(val(x@) == lx + (dx + h * base()) * p);
                assert(val(y@) == ly + (dy + h * base()) * p);
                assert(lx < p && ly < p);
                assert(dx < dy ==> lx + (dx + h * base()) * p < ly + (dy + h * base()) * p) by (nonlinear_arith)
                    requires
                        lx < p,
                        0 <= ly,
                ;
                assert(dy < dx ==> ly + (dy + h * base()) * p < lx + (dx + h * base()) * p) by (nonlinear_arith)
                    requires
                        ly < p,
                        0 <= lx,
                ;
                assert(val(x@) == val(a@) && val(y@) == val(b@));
                if dx < dy {
                    assert(val(a@) < val(b@));
                } else {
                    assert(val(a@) > val(b@));
                }
            }
            if x[j] < y[j] {
                return -1;
            } else {
                return 1;
            }
        }
        proof {
            assert(x@.skip(j as int) == seq![x@[j as int]] + x@.skip(i as int));
            assert(y@.skip(j as int) == seq![y@[j as int]] + y@.skip(i as int));
        }
        i = j;
    }
    proof {
        assert(x@ == x@.skip(0));
        assert(y@ == y@.skip(0));
    }
    0
}

} // verus!
