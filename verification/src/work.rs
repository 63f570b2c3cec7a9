//! Proof-of-work arithmetic on 256-bit big-endian numbers.
//!
//! Cumulative work and difficulty targets are 32-byte big-endian values. This
//! module gives them their numeric meaning and implements the comparison,
//! the addition and the target-to-work division on the bytes.
use crate::hash::Hash256;
use vstd::arithmetic::power2::{lemma2_to64, lemma_pow2_unfold, pow2};
use vstd::prelude::*;

verus! {

/// The number that a big-endian byte string denotes.
pub open spec fn be_nat(s: Seq<u8>) -> nat
    decreases s.len(),
{
    if s.len() == 0 {
        0
    } else {
        be_nat(s.drop_last()) * 256 + s.last() as nat
    }
}

/// 256 to the power `n`: one more than the largest number of `n` bytes.
pub open spec fn pow256(n: nat) -> nat
    decreases n,
{
    if n == 0 {
        1
    } else {
        256 * pow256((n - 1) as nat)
    }
}

/// The largest 256-bit number.
pub open spec fn max_work() -> nat {
    (pow256(32) - 1) as nat
}

/// The sum of two amounts of work, capped at the largest 256-bit number.
pub open spec fn work_sum(a: nat, b: nat) -> nat {
    if a + b <= max_work() {
        a + b
    } else {
        max_work()
    }
}

/// The expected number of hash evaluations to meet a target: the share of the
/// 256-bit range that lies at or below it, inverted. A zero target would take
/// 2^256 evaluations, which is capped at the largest 256-bit number.
pub open spec fn target_work(target: nat) -> nat {
    if target == 0 {
        max_work()
    } else {
        pow256(32) / ((target + 1) as nat)
    }
}

pub proof fn lemma_pow256_pos(n: nat)
    ensures
        pow256(n) > 0,
    decreases n,
{
    if n > 0 {
        lemma_pow256_pos((n - 1) as nat);
    }
}

/// A byte string of length `n` denotes a number below `256^n`.
pub proof fn lemma_be_nat_bound(s: Seq<u8>)
    ensures
        be_nat(s) < pow256(s.len()),
    decreases s.len(),
{
    if s.len() > 0 {
        lemma_be_nat_bound(s.drop_last());
    }
}

/// The head of a byte string carries the most weight.
proof fn lemma_be_nat_head(s: Seq<u8>)
    requires
        s.len() > 0,
    ensures
        be_nat(s) == s[0] as nat * pow256((s.len() - 1) as nat) + be_nat(s.skip(1)),
    decreases s.len(),
{
    if s.len() == 1 {
        assert(s.drop_last() =~= Seq::<u8>::empty());
        assert(s.skip(1) =~= Seq::<u8>::empty());
        assert(pow256(0) == 1);
        assert(be_nat(s.drop_last()) == 0);
        assert(be_nat(s) == s[0] as nat);
    } else {
        let p = s.drop_last();
        lemma_be_nat_head(p);
        assert(s.skip(1).drop_last() =~= p.skip(1));
        assert(s.skip(1).last() == s.last());
        let h = s[0] as nat;
        let k = pow256((s.len() - 2) as nat);
        let r = be_nat(p.skip(1));
        assert(pow256((s.len() - 1) as nat) == 256 * k);
        assert((h * k + r) * 256 == h * (256 * k) + r * 256) by (nonlinear_arith);
    }
}

/// Strings that agree before position `i` are ordered by what stands there.
proof fn lemma_be_nat_less(s: Seq<u8>, t: Seq<u8>, i: int)
    requires
        s.len() == t.len(),
        0 <= i < s.len(),
        forall|j: int| 0 <= j < i ==> s[j] == t[j],
        s[i] < t[i],
    ensures
        be_nat(s) < be_nat(t),
    decreases s.len(),
{
    if i == s.len() - 1 {
        assert(s.drop_last() =~= t.drop_last());
    } else {
        lemma_be_nat_less(s.drop_last(), t.drop_last(), i);
    }
}

/// Byte strings of one length that denote the same number are the same.
pub proof fn lemma_be_nat_injective(s: Seq<u8>, t: Seq<u8>)
    requires
        s.len() == t.len(),
        be_nat(s) == be_nat(t),
    ensures
        s == t,
    decreases s.len(),
{
    if s.len() > 0 {
        lemma_be_nat_injective(s.drop_last(), t.drop_last());
        assert(s =~= s.drop_last().push(s.last()));
        assert(t =~= t.drop_last().push(t.last()));
    } else {
        assert(s =~= t);
    }
}

/// Whether `a` denotes a smaller number than `b`: byte order is number order.
pub fn bytes_less(a: &[u8], b: &[u8]) -> (r: bool)
    requires
        a@.len() == b@.len(),
    ensures
        r == (be_nat(a@) < be_nat(b@)),
{
    let mut i: usize = 0;
    while i < a.len()
        invariant
            i <= a@.len(),
            a@.len() == b@.len(),
            forall|j: int| 0 <= j < i ==> a@[j] == b@[j],
        decreases a@.len() - i,
    {
        if a[i] < b[i] {
            proof {
                lemma_be_nat_less(a@, b@, i as int);
            }
            return true;
        }
        if a[i] > b[i] {
            proof {
                lemma_be_nat_less(b@, a@, i as int);
            }
            return false;
        }
        i = i + 1;
    }
    assert(a@ =~= b@);
    false
}

/// Whether one amount of cumulative work is less than another.
pub fn work_less(a: &[u8; 32], b: &[u8; 32]) -> (r: bool)
    ensures
        r == (be_nat(a@) < be_nat(b@)),
{
    bytes_less(a.as_slice(), b.as_slice())
}

/// Adds two amounts of cumulative work, capping at the largest 256-bit number.
pub fn add_work(a: &[u8; 32], b: &[u8; 32]) -> (r: [u8; 32])
    ensures
        be_nat(r@) == work_sum(be_nat(a@), be_nat(b@)),
{
    let mut out: [u8; 32] = [0u8; 32];
    let mut carry: u16 = 0;
    let mut k: usize = 32;
    proof {
        assert(out@.skip(32) =~= Seq::<u8>::empty());
        assert(a@.skip(32) =~= Seq::<u8>::empty());
        assert(b@.skip(32) =~= Seq::<u8>::empty());
        assert(pow256(0) == 1);
    }
    while k > 0
        invariant
            k <= 32,
            carry <= 1,
            a@.len() == 32,
            b@.len() == 32,
            out@.len() == 32,
            be_nat(out@.skip(k as int)) + carry as nat * pow256((32 - k) as nat)
                == be_nat(a@.skip(k as int)) + be_nat(b@.skip(k as int)),
        decreases k,
    {
        let ghost before = out@;
        let i: usize = k - 1;
        let sum: u16 = a[i] as u16 + b[i] as u16 + carry;
        let digit: u8 = (sum % 256) as u8;
        let next: u16 = sum / 256;
        out[i] = digit;
        proof {
            let w = pow256((32 - k) as nat);
            lemma_be_nat_head(a@.skip(i as int));
            lemma_be_nat_head(b@.skip(i as int));
            lemma_be_nat_head(out@.skip(i as int));
            assert(a@.skip(i as int).skip(1) =~= a@.skip(k as int));
            assert(b@.skip(i as int).skip(1) =~= b@.skip(k as int));
            assert(out@.skip(i as int).skip(1) =~= before.skip(k as int));
            let (x, y, c, d, n) = (a@[i as int] as nat, b@[i as int] as nat, carry as nat, digit as nat, next as nat);
            assert(x + y + c == d + 256 * n);
            assert(x * w + y * w + c * w == d * w + n * (256 * w)) by (nonlinear_arith)
                requires
                    x + y + c == d + 256 * n,
            ;
        }
        carry = next;
        k = i;
    }
    proof {
        assert(out@.skip(0) =~= out@);
        assert(a@.skip(0) =~= a@);
        assert(b@.skip(0) =~= b@);
        lemma_be_nat_bound(out@);
        assert(1 * pow256(32) == pow256(32)) by (nonlinear_arith);
        assert(0 * pow256(32) == 0) by (nonlinear_arith);
    }
    if carry > 0 {
        let top: [u8; 32] = [255u8; 32];
        proof {
            lemma_all_ones(top@);
        }
        return top;
    }
    out
}

/// A string of all-ones bytes denotes the largest number of its length.
proof fn lemma_all_ones(s: Seq<u8>)
    requires
        forall|i: int| 0 <= i < s.len() ==> s[i] == 255,
    ensures
        be_nat(s) == pow256(s.len()) - 1,
    decreases s.len(),
{
    if s.len() > 0 {
        lemma_all_ones(s.drop_last());
    }
}

/// Doubles a number in place.
fn double_in_place(v: &mut Vec<u8>)
    requires
        2 * be_nat(old(v)@) < pow256(old(v)@.len()),
    ensures
        final(v)@.len() == old(v)@.len(),
        be_nat(final(v)@) == 2 * be_nat(old(v)@),
{
    let ghost orig = v@;
    let n: usize = v.len();
    let mut carry: u16 = 0;
    let mut k: usize = n;
    proof {
        assert(v@.skip(n as int) =~= Seq::<u8>::empty());
        assert(pow256(0) == 1);
    }
    while k > 0
        invariant
            k <= n,
            n == v@.len(),
            orig.len() == n,
            carry <= 1,
            forall|j: int| 0 <= j < k ==> v@[j] == orig[j],
            be_nat(v@.skip(k as int)) + carry as nat * pow256((n - k) as nat) == 2 * be_nat(
                orig.skip(k as int),
            ),
        decreases k,
    {
        let ghost before = v@;
        let i: usize = k - 1;
        let sum: u16 = 2 * (v[i] as u16) + carry;
        let digit: u8 = (sum % 256) as u8;
        let next: u16 = sum / 256;
        v.set(i, digit);
        proof {
            let w = pow256((n - k) as nat);
            lemma_be_nat_head(orig.skip(i as int));
            lemma_be_nat_head(v@.skip(i as int));
            assert(orig.skip(i as int).skip(1) =~= orig.skip(k as int));
            assert(v@.skip(i as int).skip(1) =~= before.skip(k as int));
            let (x, c, d, m) = (orig[i as int] as nat, carry as nat, digit as nat, next as nat);
            assert(2 * (x * w) + c * w == d * w + m * (256 * w)) by (nonlinear_arith)
                requires
                    2 * x + c == d + 256 * m,
            ;
        }
        carry = next;
        k = i;
    }
    proof {
        assert(v@.skip(0) =~= v@);
        assert(orig.skip(0) =~= orig);
        assert(1 * pow256(n as nat) == pow256(n as nat)) by (nonlinear_arith);
        assert(0 * pow256(n as nat) == 0) by (nonlinear_arith);
        if carry == 1 {
            assert(be_nat(v@) + pow256(n as nat) == 2 * be_nat(orig));
        }
    }
}

/// Subtracts `w` from `v` in place.
fn subtract_in_place(v: &mut Vec<u8>, w: &Vec<u8>)
    requires
        old(v)@.len() == w@.len(),
        be_nat(w@) <= be_nat(old(v)@),
    ensures
        final(v)@.len() == old(v)@.len(),
        be_nat(final(v)@) == be_nat(old(v)@) - be_nat(w@),
{
    let ghost orig = v@;
    let n: usize = v.len();
    let mut borrow: u16 = 0;
    let mut k: usize = n;
    proof {
        assert(v@.skip(n as int) =~= Seq::<u8>::empty());
        assert(w@.skip(n as int) =~= Seq::<u8>::empty());
        assert(pow256(0) == 1);
    }
    while k > 0
        invariant
            k <= n,
            n == v@.len(),
            n == w@.len(),
            orig.len() == n,
            borrow <= 1,
            forall|j: int| 0 <= j < k ==> v@[j] == orig[j],
            be_nat(v@.skip(k as int)) + be_nat(w@.skip(k as int)) == be_nat(orig.skip(k as int))
                + borrow as nat * pow256((n - k) as nat),
        decreases k,
    {
        let ghost before = v@;
        let i: usize = k - 1;
        let take: u16 = w[i] as u16 + borrow;
        let have: u16 = v[i] as u16;
        let next: u16 = if have < take { 1 } else { 0 };
        let diff: u16 = have + 256 * next - take;
        let digit: u8 = diff as u8;
        v.set(i, digit);
        proof {
            let p = pow256((n - k) as nat);
            lemma_be_nat_head(orig.skip(i as int));
            lemma_be_nat_head(w@.skip(i as int));
            lemma_be_nat_head(v@.skip(i as int));
            assert(orig.skip(i as int).skip(1) =~= orig.skip(k as int));
            assert(w@.skip(i as int).skip(1) =~= w@.skip(k as int));
            assert(v@.skip(i as int).skip(1) =~= before.skip(k as int));
            let (x, y, b, d, m) = (orig[i as int] as nat, w@[i as int] as nat, borrow as nat, digit as nat, next as nat);
            assert(d * p + y * p + b * p == x * p + m * (256 * p)) by (nonlinear_arith)
                requires
                    d + y + b == x + 256 * m,
            ;
        }
        borrow = next;
        k = i;
    }
    proof {
        assert(v@.skip(0) =~= v@);
        assert(w@.skip(0) =~= w@);
        assert(orig.skip(0) =~= orig);
        assert(1 * pow256(n as nat) == pow256(n as nat)) by (nonlinear_arith);
        assert(0 * pow256(n as nat) == 0) by (nonlinear_arith);
        lemma_be_nat_bound(v@);
    }
}

/// Adds one in place.
fn increment_in_place(v: &mut Vec<u8>)
    requires
        be_nat(old(v)@) + 1 < pow256(old(v)@.len()),
    ensures
        final(v)@.len() == old(v)@.len(),
        be_nat(final(v)@) == be_nat(old(v)@) + 1,
{
    let ghost orig = v@;
    let n: usize = v.len();
    let mut carry: u16 = 1;
    let mut k: usize = n;
    proof {
        assert(v@.skip(n as int) =~= Seq::<u8>::empty());
        assert(pow256(0) == 1);
    }
    while k > 0
        invariant
            k <= n,
            n == v@.len(),
            orig.len() == n,
            carry <= 1,
            forall|j: int| 0 <= j < k ==> v@[j] == orig[j],
            be_nat(v@.skip(k as int)) + carry as nat * pow256((n - k) as nat) == be_nat(
                orig.skip(k as int),
            ) + 1,
        decreases k,
    {
        let ghost before = v@;
        let i: usize = k - 1;
        let sum: u16 = v[i] as u16 + carry;
        let digit: u8 = (sum % 256) as u8;
        let next: u16 = sum / 256;
        v.set(i, digit);
        proof {
            let w = pow256((n - k) as nat);
            lemma_be_nat_head(orig.skip(i as int));
            lemma_be_nat_head(v@.skip(i as int));
            assert(orig.skip(i as int).skip(1) =~= orig.skip(k as int));
            assert(v@.skip(i as int).skip(1) =~= before.skip(k as int));
            let (x, c, d, m) = (orig[i as int] as nat, carry as nat, digit as nat, next as nat);
            assert(x * w + c * w == d * w + m * (256 * w)) by (nonlinear_arith)
                requires
                    x + c == d + 256 * m,
            ;
        }
        carry = next;
        k = i;
    }
    proof {
        assert(v@.skip(0) =~= v@);
        assert(orig.skip(0) =~= orig);
        assert(1 * pow256(n as nat) == pow256(n as nat)) by (nonlinear_arith);
        assert(0 * pow256(n as nat) == 0) by (nonlinear_arith);
    }
}

/// A leading zero byte does not change the number.
proof fn lemma_leading_zero(s: Seq<u8>)
    requires
        s.len() > 0,
        s[0] == 0,
    ensures
        be_nat(s) == be_nat(s.skip(1)),
{
    lemma_be_nat_head(s);
    assert(0 * pow256((s.len() - 1) as nat) == 0) by (nonlinear_arith);
}

/// 256^32 is 2^256.
proof fn lemma_pow256_is_pow2(n: nat)
    ensures
        pow256(n) == pow2(8 * n),
    decreases n,
{
    if n == 0 {
        lemma2_to64();
    } else {
        lemma_pow256_is_pow2((n - 1) as nat);
        lemma2_to64();
        vstd::arithmetic::power2::lemma_pow2_adds(8, (8 * (n - 1)) as nat);
    }
}

/// A zero byte string denotes zero.
proof fn lemma_all_zeros(s: Seq<u8>)
    requires
        forall|i: int| 0 <= i < s.len() ==> s[i] == 0,
    ensures
        be_nat(s) == 0,
    decreases s.len(),
{
    if s.len() > 0 {
        lemma_all_zeros(s.drop_last());
    }
}

/// The work that a block with this difficulty target stands for.
///
/// Restoring division: after `i` rounds the dividend 2^i is split into
/// `quotient * divisor + remainder`.
pub fn work_from_target(target: &Hash256) -> (r: [u8; 32])
    ensures
        be_nat(r@) == target_work(be_nat(target.0@)),
{
    let mut divisor: Vec<u8> = Vec::new();
    divisor.push(0);
    let mut i: usize = 0;
    let mut zero: bool = true;
    while i < 32
        invariant
            i <= 32,
            divisor@.len() == i + 1,
            divisor@[0] == 0,
            forall|j: int| 0 <= j < i ==> divisor@[j + 1] == target.0@[j],
            zero == (forall|j: int| 0 <= j < i ==> target.0@[j] == 0),
        decreases 32 - i,
    {
        divisor.push(target.0[i]);
        if target.0[i] != 0 {
            zero = false;
        }
        i = i + 1;
    }
    if zero {
        let top: [u8; 32] = [255u8; 32];
        proof {
            lemma_all_zeros(target.0@);
            lemma_all_ones(top@);
        }
        return top;
    }
    let ghost t = be_nat(target.0@);
    proof {
        assert(divisor@.skip(1) =~= target.0@);
        lemma_leading_zero(divisor@);
        lemma_be_nat_bound(target.0@);
        assert(pow256(33) == 256 * pow256(32));
        if t == 0 {
            assert(Seq::new(32, |j: int| 0u8).len() == 32);
            lemma_all_zeros(Seq::new(32, |j: int| 0u8));
            lemma_be_nat_injective(target.0@, Seq::new(32, |j: int| 0u8));
            assert(false);
        }
    }
    increment_in_place(&mut divisor);
    let ghost d = be_nat(divisor@);
    assert(d == t + 1);
    let mut remainder: Vec<u8> = Vec::new();
    let mut quotient: Vec<u8> = Vec::new();
    let mut n: usize = 0;
    while n < 33
        invariant
            n <= 33,
            remainder@.len() == n,
            quotient@.len() == n,
            forall|j: int| 0 <= j < n ==> remainder@[j] == (if j == 32 { 1u8 } else { 0u8 }),
            forall|j: int| 0 <= j < n ==> quotient@[j] == 0,
        decreases 33 - n,
    {
        remainder.push(if n == 32 { 1 } else { 0 });
        quotient.push(0);
        n = n + 1;
    }
    proof {
        lemma_all_zeros(quotient@);
        lemma_all_zeros(remainder@.drop_last());
        assert(be_nat(remainder@) == 1);
        lemma2_to64();
        vstd::arithmetic::power2::lemma_pow2_strictly_increases(0, 256);
    }
    let mut step: usize = 0;
    while step < 256
        invariant
            step <= 256,
            remainder@.len() == 33,
            quotient@.len() == 33,
            divisor@.len() == 33,
            d == be_nat(divisor@),
            2 <= d <= pow256(32),
            pow256(33) == 256 * pow256(32),
            be_nat(remainder@) < d,
            be_nat(quotient@) * d + be_nat(remainder@) == pow2(step as nat),
            pow2(step as nat) <= pow2(256),
        decreases 256 - step,
    {
        let ghost q0 = be_nat(quotient@);
        let ghost r0 = be_nat(remainder@);
        proof {
            lemma_pow2_unfold((step + 1) as nat);
            if step + 1 < 256 {
                vstd::arithmetic::power2::lemma_pow2_strictly_increases((step + 1) as nat, 256);
            }
            lemma_pow256_is_pow2(32);
            assert(2 * q0 <= q0 * d) by (nonlinear_arith)
                requires
                    d >= 2,
            ;
        }
        double_in_place(&mut remainder);
        double_in_place(&mut quotient);
        if !bytes_less(remainder.as_slice(), divisor.as_slice()) {
            subtract_in_place(&mut remainder, &divisor);
            increment_in_place(&mut quotient);
        }
        proof {
            let q1 = be_nat(quotient@);
            let r1 = be_nat(remainder@);
            assert(q1 * d + r1 == 2 * (q0 * d + r0)) by (nonlinear_arith)
                requires
                    (q1 == 2 * q0 && r1 == 2 * r0) || (q1 == 2 * q0 + 1 && r1 + d == 2 * r0),
            ;
        }
        step = step + 1;
    }
    let mut out: [u8; 32] = [0u8; 32];
    let mut c: usize = 0;
    while c < 32
        invariant
            c <= 32,
            quotient@.len() == 33,
            forall|j: int| 0 <= j < c ==> out@[j] == quotient@[j + 1],
        decreases 32 - c,
    {
        out[c] = quotient[c + 1];
        c = c + 1;
    }
    proof {
        let q = be_nat(quotient@);
        let r = be_nat(remainder@);
        lemma_pow256_is_pow2(32);
        vstd::arithmetic::div_mod::lemma_fundamental_div_mod_converse(
            pow256(32) as int,
            d as int,
            q as int,
            r as int,
        );
        assert(2 * q <= q * d) by (nonlinear_arith)
            requires
                d >= 2,
        ;
        assert(out@ =~= quotient@.skip(1));
        lemma_be_nat_head(quotient@);
        let h = quotient@[0] as nat;
        if h > 0 {
            assert(h * pow256(32) >= pow256(32)) by (nonlinear_arith)
                requires
                    h >= 1,
            ;
            lemma_pow256_pos(32);
        }
        assert(0 * pow256(32) == 0) by (nonlinear_arith);
    }
    out
}

} // verus!
