//! Natural numbers of any size, as little-endian 64-bit limbs: enough to
//! multiply by machine words, add and compare exactly.
use vstd::prelude::*;

verus! {

/// The base of a limb.
pub open spec fn limb_base() -> nat {
    0x1_0000_0000_0000_0000nat
}

/// The weight of limb `k`: the base to the `k`-th power.
pub open spec fn place(k: nat) -> nat
    decreases k,
{
    if k == 0 {
        1
    } else {
        place((k - 1) as nat) * limb_base()
    }
}

/// The number the limbs stand for.
pub open spec fn value(s: Seq<u64>) -> nat
    decreases s.len(),
{
    if s.len() == 0 {
        0
    } else {
        value(s.drop_last()) + s.last() as nat * place((s.len() - 1) as nat)
    }
}

proof fn lemma_place_positive(k: nat)
    ensures
        place(k) > 0,
    decreases k,
{
    if k > 0 {
        lemma_place_positive((k - 1) as nat);
        assert(place(k) == place((k - 1) as nat) * limb_base());
        assert(place((k - 1) as nat) * limb_base() > 0) by (nonlinear_arith)
            requires
                place((k - 1) as nat) > 0,
        ;
    }
}

/// The limbs of a number are below the weight of the next limb.
proof fn lemma_value_bound(s: Seq<u64>)
    ensures
        value(s) < place(s.len()),
    decreases s.len(),
{
    if s.len() > 0 {
        let n = (s.len() - 1) as nat;
        lemma_value_bound(s.drop_last());
        lemma_place_positive(n);
        let p = place(n);
        let v = value(s.drop_last());
        let l = s.last() as nat;
        assert(v + l * p < p * limb_base()) by (nonlinear_arith)
            requires
                v < p,
                l < limb_base(),
        ;
    }
}

/// Appending a zero limb keeps the number.
proof fn lemma_value_push_zero(s: Seq<u64>)
    ensures
        value(s.push(0)) == value(s),
{
    assert(s.push(0).drop_last() =~= s);
    assert(s.push(0).last() == 0);
    assert(0nat * place(s.len()) == 0);
}

proof fn lemma_mul_step(v: int, c: int, p: int, a: int, k: int, lo: int, hi: int, va: int) by (nonlinear_arith)
    requires
        v + c * p == va * k,
        lo + hi * 0x1_0000_0000_0000_0000 == a * k + c,
    ensures
        v + lo * p + hi * (p * 0x1_0000_0000_0000_0000) == (va + a * p) * k,
{
}

proof fn lemma_word_product(a: u64, k: u64, c: u64) by (nonlinear_arith)
    ensures
        (a as int) * (k as int) + (c as int) < 0x1_0000_0000_0000_0000_0000_0000_0000_0000,
{
}

/// The number times a machine word.
pub fn mul_word(a: &Vec<u64>, k: u64) -> (r: Vec<u64>)
    ensures
        value(r@) == value(a@) * k,
        r@.len() == a@.len() + 1,
{
    let mut r: Vec<u64> = Vec::new();
    let mut carry: u64 = 0;
    let mut i: usize = 0;
    proof {
        assert(a@.take(0) =~= Seq::<u64>::empty());
        assert(value(r@) == 0);
        assert(value(a@.take(0)) == 0);
    }
    while i < a.len()
        invariant
            i <= a@.len(),
            r@.len() == i,
            value(r@) + carry * place(i as nat) == value(a@.take(i as int)) * k,
        decreases a@.len() - i,
    {
        proof {
            lemma_word_product(a[i as int], k, carry);
        }
        let t: u128 = (a[i] as u128) * (k as u128) + (carry as u128);
        let lo = (t % 0x1_0000_0000_0000_0000u128) as u64;
        let hi = (t / 0x1_0000_0000_0000_0000u128) as u64;
        let ghost before = r@;
        r.push(lo);
        proof {
            assert(r@.drop_last() =~= before);
            assert(a@.take(i + 1).drop_last() =~= a@.take(i as int));
            assert(place((i + 1) as nat) == place(i as nat) * limb_base());
            lemma_mul_step(
                value(before) as int,
                carry as int,
                place(i as nat) as int,
                a[i as int] as int,
                k as int,
                lo as int,
                hi as int,
                value(a@.take(i as int)) as int,
            );
        }
        carry = hi;
        i = i + 1;
    }
    let ghost before = r@;
    r.push(carry);
    proof {
        assert(r@.drop_last() =~= before);
        assert(a@.take(a@.len() as int) =~= a@);
    }
    r
}

/// The number, as limbs, of a machine word.
pub fn from_word(w: u64) -> (r: Vec<u64>)
    ensures
        value(r@) == w,
        r@.len() == 1,
{
    let r: Vec<u64> = vec![w];
    proof {
        assert(r@.len() == 1);
        assert(r@.drop_last() =~= Seq::<u64>::empty());
        assert(value(Seq::<u64>::empty()) == 0);
        assert(value(r@) == value(r@.drop_last()) + (r@.last() as nat) * place(0));
        assert(place(0) == 1);
        assert(r@.last() == w);
        assert((w as nat) * place(0) == w);
        assert(value(r@) == w);
    }
    r
}

/// The product of a machine word and other machine words.
pub fn product(first: u64, rest: &Vec<u64>) -> (r: Vec<u64>)
    ensures
        value(r@) == first * word_product(rest@),
{
    let mut r = from_word(first);
    let mut i: usize = 0;
    while i < rest.len()
        invariant
            i <= rest@.len(),
            value(r@) == first * word_product(rest@.take(i as int)),
        decreases rest@.len() - i,
    {
        let ghost before = value(r@);
        r = mul_word(&r, rest[i]);
        proof {
            assert(rest@.take(i + 1).drop_last() =~= rest@.take(i as int));
            assert(first * word_product(rest@.take(i as int)) * rest[i as int] == first * (word_product(
                rest@.take(i as int),
            ) * rest[i as int])) by (nonlinear_arith);
        }
        i = i + 1;
    }
    proof {
        assert(rest@.take(rest@.len() as int) =~= rest@);
    }
    r
}

/// The product of machine words.
pub open spec fn word_product(ws: Seq<u64>) -> int
    decreases ws.len(),
{
    if ws.len() == 0 {
        1
    } else {
        word_product(ws.drop_last()) * ws.last()
    }
}

/// The limbs with zero limbs appended up to length `n`.
fn pad(a: Vec<u64>, n: usize) -> (r: Vec<u64>)
    ensures
        value(r@) == value(a@),
        r@.len() == if a@.len() < n { n as nat } else { a@.len() },
{
    let mut r = a;
    while r.len() < n
        invariant
            value(r@) == value(a@),
            r@.len() >= a@.len(),
            r@.len() <= if a@.len() < n { n as nat } else { a@.len() },
        decreases n - r@.len(),
    {
        proof {
            lemma_value_push_zero(r@);
        }
        r.push(0);
    }
    r
}

proof fn lemma_add_step(v: int, c: int, p: int, a: int, b: int, lo: int, hi: int, va: int, vb: int) by (nonlinear_arith)
    requires
        v + c * p == va + vb,
        lo + hi * 0x1_0000_0000_0000_0000 == a + b + c,
    ensures
        v + lo * p + hi * (p * 0x1_0000_0000_0000_0000) == (va + a * p) + (vb + b * p),
{
}

/// The sum of two numbers.
pub fn sum(a: Vec<u64>, b: Vec<u64>) -> (r: Vec<u64>)
    ensures
        value(r@) == value(a@) + value(b@),
{
    let n = if a.len() < b.len() { b.len() } else { a.len() };
    let a = pad(a, n);
    let b = pad(b, n);
    let mut r: Vec<u64> = Vec::new();
    let mut carry: u64 = 0;
    let mut i: usize = 0;
    while i < n
        invariant
            a@.len() == n,
            b@.len() == n,
            i <= n,
            r@.len() == i,
            carry <= 1,
            value(r@) + carry * place(i as nat) == value(a@.take(i as int)) + value(b@.take(i as int)),
        decreases n - i,
    {
        let t: u128 = (a[i] as u128) + (b[i] as u128) + (carry as u128);
        let lo = (t % 0x1_0000_0000_0000_0000u128) as u64;
        let hi = (t / 0x1_0000_0000_0000_0000u128) as u64;
        let ghost before = r@;
        r.push(lo);
        proof {
            assert(r@.drop_last() =~= before);
            assert(a@.take(i + 1).drop_last() =~= a@.take(i as int));
            assert(b@.take(i + 1).drop_last() =~= b@.take(i as int));
            assert(place((i + 1) as nat) == place(i as nat) * limb_base());
            lemma_add_step(
                value(before) as int,
                carry as int,
                place(i as nat) as int,
                a[i as int] as int,
                b[i as int] as int,
                lo as int,
                hi as int,
                value(a@.take(i as int)) as int,
                value(b@.take(i as int)) as int,
            );
        }
        carry = hi;
        i = i + 1;
    }
    let ghost before = r@;
    r.push(carry);
    proof {
        assert(r@.drop_last() =~= before);
        assert(a@.take(n as int) =~= a@);
        assert(b@.take(n as int) =~= b@);
    }
    r
}

/// Limbs that agree from position `m` on compare as their first `m` limbs.
proof fn lemma_compare_low(a: Seq<u64>, b: Seq<u64>, m: int)
    requires
        a.len() == b.len(),
        0 <= m <= a.len(),
        forall|j: int| m <= j < a.len() ==> a[j] == b[j],
    ensures
        value(a) - value(b) == value(a.take(m)) - value(b.take(m)),
    decreases a.len() - m,
{
    if m < a.len() {
        let n = a.len() - 1;
        assert(a.last() == b.last());
        lemma_compare_low(a.drop_last(), b.drop_last(), m);
        assert(a.drop_last().take(m) =~= a.take(m));
        assert(b.drop_last().take(m) =~= b.take(m));
    } else {
        assert(a.take(m) =~= a);
        assert(b.take(m) =~= b);
    }
}

proof fn lemma_top_limb(va: int, vb: int, x: int, y: int, p: int) by (nonlinear_arith)
    requires
        0 <= va < p,
        0 <= vb < p,
        x < y,
    ensures
        va + x * p < vb + y * p,
{
}

/// Whether the first number is below the second.
pub fn less(x: Vec<u64>, y: Vec<u64>) -> (r: bool)
    ensures
        r == (value(x@) < value(y@)),
{
    let n = if x.len() < y.len() { y.len() } else { x.len() };
    let a = pad(x, n);
    let b = pad(y, n);
    let mut i: usize = n;
    while i > 0
        invariant
            a@.len() == n,
            b@.len() == n,
            value(a@) == value(x@),
            value(b@) == value(y@),
            i <= n,
            forall|j: int| i <= j < n ==> a@[j] == b@[j],
        decreases i,
    {
        if a[i - 1] != b[i - 1] {
            proof {
                lemma_compare_low(a@, b@, i as int);
                let ta = a@.take(i as int);
                let tb = b@.take(i as int);
                assert(ta.drop_last() =~= a@.take(i - 1));
                assert(tb.drop_last() =~= b@.take(i - 1));
                lemma_value_bound(a@.take(i - 1));
                lemma_value_bound(b@.take(i - 1));
                let p = place((i - 1) as nat) as int;
                assert(ta.last() == a@[i - 1]);
                assert(tb.last() == b@[i - 1]);
                assert(value(ta) == value(a@.take(i - 1)) + a@[i - 1] as nat * place((i - 1) as nat));
                assert(value(tb) == value(b@.take(i - 1)) + b@[i - 1] as nat * place((i - 1) as nat));
                if a[i - 1] < b[i - 1] {
                    lemma_top_limb(value(a@.take(i - 1)) as int, value(b@.take(i - 1)) as int, a[i - 1] as int, b[i
                        - 1] as int, p);
                    assert(value(ta) < value(tb));
                    assert(value(a@) < value(b@));
                } else {
                    lemma_top_limb(value(b@.take(i - 1)) as int, value(a@.take(i - 1)) as int, b[i - 1] as int, a[i
                        - 1] as int, p);
                    assert(value(tb) < value(ta));
                    assert(!(value(a@) < value(b@)));
                }
            }
            return a[i - 1] < b[i - 1];
        }
        i = i - 1;
    }
    proof {
        lemma_compare_low(a@, b@, 0);
        assert(a@.take(0) =~= Seq::<u64>::empty());
        assert(b@.take(0) =~= Seq::<u64>::empty());
    }
    false
}

} // verus!
