use vstd::prelude::*;
use crate::field::{
    lemma_add_congruent, lemma_mod_mod, lemma_mod_small, lemma_mul_congruent, modulus,
    FieldElement,
};

verus! {

/// The values of a sequence of field elements.
pub open spec fn values(v: Seq<FieldElement>) -> Seq<int> {
    v.map_values(|c: FieldElement| c.value())
}

/// The polynomial with coefficients `s` (index i for x^i) at `x`, over the
/// integers, in Horner form: `s[0] + x * (s[1] + x * (s[2] + ...))`.
pub open spec fn eval(s: Seq<int>, x: int) -> int
    decreases s.len(),
{
    if s.len() == 0 {
        0
    } else {
        s[0] + x * eval(s.drop_first(), x)
    }
}

/// The coefficient of x^i (zero past the stored coefficients).
pub open spec fn coeff(s: Seq<int>, i: int) -> int {
    if 0 <= i < s.len() {
        s[i]
    } else {
        0
    }
}

/// No coefficient above index `d` is nonzero: the degree is at most `d`.
pub open spec fn degree_at_most(s: Seq<int>, d: int) -> bool {
    forall|i: int| d < i < s.len() ==> #[trigger] s[i] == 0
}

/// The larger of two lengths.
pub open spec fn max_len(a: Seq<int>, b: Seq<int>) -> nat {
    if a.len() >= b.len() {
        a.len()
    } else {
        b.len()
    }
}

/// The first `n` terms of coefficient `k` of a product:
/// the sum of `a[i] * b[k - i]` for `i < n`.
pub open spec fn convolution(a: Seq<int>, b: Seq<int>, k: int, n: nat) -> int
    decreases n,
{
    if n == 0 {
        0
    } else {
        convolution(a, b, k, (n - 1) as nat) + coeff(a, n - 1) * coeff(b, k - (n - 1))
    }
}

/// Coefficient `k` of the product of two polynomials: the sum of
/// `a[i] * b[k - i]` over `0 <= i <= k`.
pub open spec fn product_coeff(a: Seq<int>, b: Seq<int>, k: int) -> int {
    convolution(a, b, k, (k + 1) as nat)
}

/// The number of coefficients of a product: `len(a) + len(b) - 1`, or none
/// when a factor has none.
pub open spec fn product_len(a: Seq<int>, b: Seq<int>) -> nat {
    if a.len() == 0 || b.len() == 0 {
        0
    } else {
        (a.len() + b.len() - 1) as nat
    }
}

/// The coefficients of the witness polynomial `(p(x) - p(z)) / (x - z)`:
/// the k-th is `s[k+1] + z s[k+2] + z^2 s[k+3] + ...`.
pub open spec fn witness(s: Seq<int>, z: int) -> Seq<int> {
    Seq::new(
        (if s.len() == 0 { 0 } else { s.len() - 1 }) as nat,
        |k: int| eval(s.subrange(k + 1, s.len() as int), z),
    )
}

/// Splitting off the lowest coefficient of a window of a coefficient sequence.
pub proof fn lemma_eval_unfold(s: Seq<int>, i: int, n: int, x: int)
    requires
        0 <= i < n <= s.len(),
    ensures
        eval(s.subrange(i, n), x) == s[i] + x * eval(s.subrange(i + 1, n), x),
{
    assert(s.subrange(i, n).drop_first() =~= s.subrange(i + 1, n));
}

/// One Horner step taken on reduced values agrees, modulo r, with the step on integers.
proof fn lemma_horner_step(acc: int, e: int, x: int, c: int)
    requires
        acc == e % modulus(),
    ensures
        (((acc * x) % modulus()) + c) % modulus() == (c + x * e) % modulus(),
{
    lemma_mod_mod(e);
    lemma_mul_congruent(acc, e, x, x);
    assert(e * x == x * e) by (nonlinear_arith);
    lemma_mod_mod(acc * x);
    lemma_add_congruent((acc * x) % modulus(), x * e, c, c);
}

/// Dividing by `x - z` leaves the value at `z`: for every `x`,
/// `p(x) - p(z) == (x - z) * w(x)` where `w` is the witness polynomial.
pub proof fn lemma_division_identity(s: Seq<int>, z: int, x: int)
    ensures
        eval(s, x) - eval(s, z) == (x - z) * eval(witness(s, z), x),
    decreases s.len(),
{
    if s.len() <= 1 {
        if s.len() == 1 {
            assert(s.drop_first().len() == 0);
            assert(eval(s.drop_first(), x) == 0);
            assert(eval(s.drop_first(), z) == 0);
        }
        assert(witness(s, z).len() == 0);
        assert(eval(witness(s, z), x) == 0);
    } else {
        let t = s.drop_first();
        lemma_division_identity(t, z, x);
        let w = witness(s, z);
        assert(t.subrange(0, t.len() as int) =~= t);
        assert(w[0] == eval(t, z));
        assert(w.drop_first() =~= witness(t, z)) by {
            assert forall|k: int| 0 <= k < witness(t, z).len() implies w.drop_first()[k]
                == witness(t, z)[k] by {
                assert(s.subrange(k + 2, s.len() as int) =~= t.subrange(k + 1, t.len() as int));
            }
        }
        let et_x = eval(t, x);
        let et_z = eval(t, z);
        let ew = eval(witness(t, z), x);
        assert(eval(w, x) == et_z + x * ew);
        assert(eval(s, x) - eval(s, z) == x * et_x - z * et_z);
        assert(x * et_x - z * et_z == (x - z) * (et_z + x * ew)) by (nonlinear_arith)
            requires
                et_x - et_z == (x - z) * ew,
        ;
    }
}

/// Coefficients that agree modulo r give values that agree modulo r.
pub proof fn lemma_eval_congruent(s1: Seq<int>, s2: Seq<int>, x: int)
    requires
        s1.len() == s2.len(),
        forall|i: int| 0 <= i < s1.len() ==> s1[i] % modulus() == s2[i] % modulus(),
    ensures
        eval(s1, x) % modulus() == eval(s2, x) % modulus(),
    decreases s1.len(),
{
    if s1.len() > 0 {
        lemma_eval_congruent(s1.drop_first(), s2.drop_first(), x);
        lemma_mul_congruent(x, x, eval(s1.drop_first(), x), eval(s2.drop_first(), x));
        lemma_add_congruent(s1[0], s2[0], x * eval(s1.drop_first(), x), x * eval(s2.drop_first(), x));
    }
}

/// Zero coefficients past index `m` do not change the value.
pub proof fn lemma_eval_zero_tail(s: Seq<int>, m: int, x: int)
    requires
        0 <= m <= s.len(),
        forall|k: int| m <= k < s.len() ==> #[trigger] s[k] == 0,
    ensures
        eval(s, x) == eval(s.subrange(0, m), x),
    decreases s.len(),
{
    if m == s.len() {
        assert(s.subrange(0, m) =~= s);
    } else if m == 0 {
        let t = s.drop_first();
        lemma_eval_zero_tail(t, 0, x);
        assert(t.subrange(0, 0).len() == 0);
        assert(s.subrange(0, 0).len() == 0);
    } else {
        let t = s.drop_first();
        lemma_eval_zero_tail(t, m - 1, x);
        assert(t.subrange(0, m - 1) =~= s.subrange(0, m).drop_first());
    }
}

/// The value of a coefficient-wise sum is the sum of the values, modulo r.
pub proof fn lemma_eval_add(a: Seq<int>, b: Seq<int>, r: Seq<int>, x: int)
    requires
        r.len() == max_len(a, b),
        forall|i: int|
            0 <= i < r.len() ==> #[trigger] r[i] % modulus() == (coeff(a, i) + coeff(b, i))
                % modulus(),
    ensures
        eval(r, x) % modulus() == (eval(a, x) + eval(b, x)) % modulus(),
    decreases r.len(),
{
    if r.len() == 0 {
        assert(eval(a, x) == 0);
        assert(eval(b, x) == 0);
        lemma_mod_small(0);
    } else {
        let ta = if a.len() == 0 { a } else { a.drop_first() };
        let tb = if b.len() == 0 { b } else { b.drop_first() };
        let tr = r.drop_first();
        assert forall|i: int| 0 <= i < tr.len() implies #[trigger] tr[i] % modulus() == (coeff(
            ta,
            i,
        ) + coeff(tb, i)) % modulus() by {
            assert(r[i + 1] % modulus() == (coeff(a, i + 1) + coeff(b, i + 1)) % modulus());
        }
        lemma_eval_add(ta, tb, tr, x);
        assert(eval(a, x) == coeff(a, 0) + x * eval(ta, x));
        assert(eval(b, x) == coeff(b, 0) + x * eval(tb, x));
        let ea = eval(ta, x);
        let eb = eval(tb, x);
        lemma_mul_congruent(x, x, eval(tr, x), ea + eb);
        lemma_add_congruent(r[0], coeff(a, 0) + coeff(b, 0), x * eval(tr, x), x * (ea + eb));
        assert(coeff(a, 0) + coeff(b, 0) + x * (ea + eb) == (coeff(a, 0) + x * ea) + (coeff(b, 0)
            + x * eb)) by (nonlinear_arith);
    }
}

/// The value of a coefficient-wise difference is the difference of the values, modulo r.
pub proof fn lemma_eval_sub(a: Seq<int>, b: Seq<int>, r: Seq<int>, x: int)
    requires
        r.len() == max_len(a, b),
        forall|i: int|
            0 <= i < r.len() ==> #[trigger] r[i] % modulus() == (coeff(a, i) - coeff(b, i))
                % modulus(),
    ensures
        eval(r, x) % modulus() == (eval(a, x) - eval(b, x)) % modulus(),
    decreases r.len(),
{
    if r.len() == 0 {
        assert(eval(a, x) == 0);
        assert(eval(b, x) == 0);
        lemma_mod_small(0);
    } else {
        let ta = if a.len() == 0 { a } else { a.drop_first() };
        let tb = if b.len() == 0 { b } else { b.drop_first() };
        let tr = r.drop_first();
        assert forall|i: int| 0 <= i < tr.len() implies #[trigger] tr[i] % modulus() == (coeff(
            ta,
            i,
        ) - coeff(tb, i)) % modulus() by {
            assert(r[i + 1] % modulus() == (coeff(a, i + 1) - coeff(b, i + 1)) % modulus());
        }
        lemma_eval_sub(ta, tb, tr, x);
        assert(eval(a, x) == coeff(a, 0) + x * eval(ta, x));
        assert(eval(b, x) == coeff(b, 0) + x * eval(tb, x));
        let ea = eval(ta, x);
        let eb = eval(tb, x);
        lemma_mul_congruent(x, x, eval(tr, x), ea - eb);
        lemma_add_congruent(r[0], coeff(a, 0) - coeff(b, 0), x * eval(tr, x), x * (ea - eb));
        assert(coeff(a, 0) - coeff(b, 0) + x * (ea - eb) == (coeff(a, 0) + x * ea) - (coeff(b, 0)
            + x * eb)) by (nonlinear_arith);
    }
}

/// Splitting the lowest coefficient of `a` off a convolution sum.
proof fn lemma_convolution_split(a: Seq<int>, b: Seq<int>, k: int, n: nat)
    requires
        a.len() > 0,
    ensures
        convolution(a, b, k, n + 1) == a[0] * coeff(b, k) + convolution(a.drop_first(), b, k - 1, n),
    decreases n,
{
    let t = a.drop_first();
    if n > 0 {
        lemma_convolution_split(a, b, k, (n - 1) as nat);
        assert(coeff(a, n as int) == coeff(t, n - 1));
        assert(convolution(a, b, k, n + 1) == convolution(a, b, k, n) + coeff(a, n as int) * coeff(
            b,
            k - n,
        ));
        assert(convolution(t, b, k - 1, n) == convolution(t, b, k - 1, (n - 1) as nat) + coeff(
            t,
            n - 1,
        ) * coeff(b, (k - 1) - (n - 1)));
    } else {
        assert(convolution(a, b, k, 1) == convolution(a, b, k, 0) + coeff(a, 0) * coeff(b, k));
    }
}

/// Scaling every coefficient scales the value.
proof fn lemma_eval_scale(b: Seq<int>, c: int, u: Seq<int>, x: int)
    requires
        u.len() == b.len(),
        forall|k: int| 0 <= k < u.len() ==> #[trigger] u[k] == c * b[k],
    ensures
        eval(u, x) == c * eval(b, x),
    decreases b.len(),
{
    if b.len() > 0 {
        lemma_eval_scale(b.drop_first(), c, u.drop_first(), x);
        let e = eval(b.drop_first(), x);
        assert(c * b[0] + x * (c * e) == c * (b[0] + x * e)) by (nonlinear_arith);
    }
}

/// The value of a product is the product of the values, modulo r.
pub proof fn lemma_eval_mul(a: Seq<int>, b: Seq<int>, p: Seq<int>, x: int)
    requires
        p.len() == product_len(a, b),
        forall|k: int|
            0 <= k < p.len() ==> #[trigger] p[k] % modulus() == product_coeff(a, b, k) % modulus(),
    ensures
        eval(p, x) % modulus() == (eval(a, x) * eval(b, x)) % modulus(),
    decreases a.len(),
{
    if a.len() == 0 || b.len() == 0 {
        assert(eval(p, x) == 0);
        if a.len() == 0 {
            assert(eval(a, x) == 0);
        } else {
            assert(eval(b, x) == 0);
        }
        assert(eval(a, x) * eval(b, x) == 0) by (nonlinear_arith)
            requires
                eval(a, x) == 0 || eval(b, x) == 0,
        ;
    } else {
        let t = a.drop_first();
        let a0 = a[0];
        let q = Seq::new(product_len(t, b), |k: int| product_coeff(t, b, k));
        let u = Seq::new(b.len(), |k: int| a0 * b[k]);
        let v = seq![0int] + q;
        lemma_eval_mul(t, b, q, x);
        lemma_eval_scale(b, a0, u, x);
        assert(v.drop_first() =~= q);
        assert(eval(v, x) == x * eval(q, x));
        assert(p.len() == max_len(u, v));
        assert forall|k: int| 0 <= k < p.len() implies #[trigger] p[k] % modulus() == (coeff(u, k)
            + coeff(v, k)) % modulus() by {
            lemma_convolution_split(a, b, k, k as nat);
            if k >= 1 && k - 1 >= q.len() {
                assert(convolution(t, b, k - 1, k as nat) == 0) by {
                    lemma_convolution_zero(t, b, k - 1, k as nat);
                }
            }
        }
        lemma_eval_add(u, v, p, x);
        let et = eval(t, x);
        let eb = eval(b, x);
        lemma_mul_congruent(x, x, eval(q, x), et * eb);
        lemma_add_congruent(a0 * eb, a0 * eb, x * eval(q, x), x * (et * eb));
        assert(a0 * eb + x * (et * eb) == (a0 + x * et) * eb) by (nonlinear_arith);
    }
}

/// Past the last coefficient of a product every convolution sum vanishes.
proof fn lemma_convolution_zero(a: Seq<int>, b: Seq<int>, k: int, n: nat)
    requires
        a.len() == 0 || k >= a.len() + b.len() - 1,
    ensures
        convolution(a, b, k, n) == 0,
    decreases n,
{
    if n > 0 {
        lemma_convolution_zero(a, b, k, (n - 1) as nat);
        let i = n - 1;
        assert(coeff(a, i) == 0 || coeff(b, k - i) == 0);
        assert(coeff(a, i) * coeff(b, k - i) == 0) by (nonlinear_arith)
            requires
                coeff(a, i) == 0 || coeff(b, k - i) == 0,
        ;
    }
}

/// A polynomial over the scalar field, as a dense vector of coefficients:
/// index i holds the coefficient of x^i. Trailing zero coefficients are
/// allowed and do not count towards the degree.
pub struct Polynomial {
    coeffs: Vec<FieldElement>,
}

impl View for Polynomial {
    type V = Seq<int>;

    closed spec fn view(&self) -> Seq<int> {
        values(self.coeffs@)
    }
}

impl Polynomial {
    /// The polynomial with the given coefficients, lowest power first.
    pub fn new(coeffs: Vec<FieldElement>) -> (r: Polynomial)
        ensures
            r@ == values(coeffs@),
    {
        Polynomial { coeffs }
    }

    /// The coefficients, lowest power first.
    pub fn coeffs(&self) -> (r: &Vec<FieldElement>)
        ensures
            values(r@) == self@,
    {
        &self.coeffs
    }

    /// The number of stored coefficients.
    pub fn num_terms(&self) -> (r: usize)
        ensures
            r == self@.len(),
    {
        self.coeffs.len()
    }

    /// The value of the polynomial at `x`, by Horner's rule.
    pub fn evaluate(&self, x: &FieldElement) -> (r: FieldElement)
        ensures
            r.value() == eval(self@, x.value()) % modulus(),
    {
        let n = self.coeffs.len();
        let mut acc = FieldElement::zero();
        let mut i = n;
        proof {
            lemma_mod_small(0);
            assert(eval(self@.subrange(n as int, n as int), x.value()) == 0);
        }
        while i > 0
            invariant
                i <= n,
                n == self@.len(),
                self@ == values(self.coeffs@),
                acc.value() == eval(self@.subrange(i as int, n as int), x.value()) % modulus(),
            decreases i,
        {
            i = i - 1;
            let ghost a0 = acc.value();
            let t = acc.mul(x);
            acc = t.add(&self.coeffs[i]);
            proof {
                lemma_eval_unfold(self@, i as int, n as int, x.value());
                lemma_horner_step(
                    a0,
                    eval(self@.subrange(i + 1, n as int), x.value()),
                    x.value(),
                    self@[i as int],
                );
            }
        }
        proof {
            assert(self@.subrange(0, n as int) =~= self@);
        }
        acc
    }

    /// The degree: the highest index with a nonzero coefficient, and 0 when
    /// there is none.
    pub fn degree(&self) -> (r: usize)
        ensures
            degree_at_most(self@, r as int),
            r > 0 ==> r < self@.len() && self@[r as int] != 0,
    {
        let n = self.coeffs.len();
        let mut i = n;
        while i > 1 && self.coeffs[i - 1].is_zero()
            invariant
                i <= n,
                n == self@.len(),
                self@ == values(self.coeffs@),
                forall|k: int| i <= k < n ==> #[trigger] self@[k] == 0,
            decreases i,
        {
            i = i - 1;
        }
        if i == 0 {
            0
        } else {
            i - 1
        }
    }

    /// The coefficient-wise sum; its length is the larger of the two lengths.
    pub fn add(&self, other: &Polynomial) -> (r: Polynomial)
        ensures
            r@.len() == max_len(self@, other@),
            forall|i: int|
                0 <= i < r@.len() ==> #[trigger] r@[i] == (coeff(self@, i) + coeff(other@, i))
                    % modulus(),
    {
        let n = if self.coeffs.len() >= other.coeffs.len() {
            self.coeffs.len()
        } else {
            other.coeffs.len()
        };
        let mut out: Vec<FieldElement> = Vec::new();
        let mut i: usize = 0;
        while i < n
            invariant
                i <= n,
                n == max_len(self@, other@),
                self@ == values(self.coeffs@),
                other@ == values(other.coeffs@),
                out@.len() == i,
                forall|k: int|
                    0 <= k < i ==> #[trigger] out@[k].value() == (coeff(self@, k) + coeff(
                        other@,
                        k,
                    )) % modulus(),
            decreases n - i,
        {
            let a = if i < self.coeffs.len() {
                self.coeffs[i]
            } else {
                FieldElement::zero()
            };
            let b = if i < other.coeffs.len() {
                other.coeffs[i]
            } else {
                FieldElement::zero()
            };
            out.push(a.add(&b));
            i = i + 1;
        }
        Polynomial::new(out)
    }

    /// The coefficient-wise difference; its length is the larger of the two lengths.
    pub fn sub(&self, other: &Polynomial) -> (r: Polynomial)
        ensures
            r@.len() == max_len(self@, other@),
            forall|i: int|
                0 <= i < r@.len() ==> #[trigger] r@[i] == (coeff(self@, i) - coeff(other@, i))
                    % modulus(),
    {
        let n = if self.coeffs.len() >= other.coeffs.len() {
            self.coeffs.len()
        } else {
            other.coeffs.len()
        };
        let mut out: Vec<FieldElement> = Vec::new();
        let mut i: usize = 0;
        while i < n
            invariant
                i <= n,
                n == max_len(self@, other@),
                self@ == values(self.coeffs@),
                other@ == values(other.coeffs@),
                out@.len() == i,
                forall|k: int|
                    0 <= k < i ==> #[trigger] out@[k].value() == (coeff(self@, k) - coeff(
                        other@,
                        k,
                    )) % modulus(),
            decreases n - i,
        {
            let a = if i < self.coeffs.len() {
                self.coeffs[i]
            } else {
                FieldElement::zero()
            };
            let b = if i < other.coeffs.len() {
                other.coeffs[i]
            } else {
                FieldElement::zero()
            };
            out.push(a.sub(&b));
            i = i + 1;
        }
        Polynomial::new(out)
    }

    /// The product, by convolution of the coefficients.
    pub fn mul(&self, other: &Polynomial) -> (r: Polynomial)
        requires
            self@.len() + other@.len() <= usize::MAX,
        ensures
            r@.len() == product_len(self@, other@),
            forall|k: int|
                0 <= k < r@.len() ==> #[trigger] r@[k] == product_coeff(self@, other@, k)
                    % modulus(),
    {
        let n = self.coeffs.len();
        let m = other.coeffs.len();
        if n == 0 || m == 0 {
            return Polynomial::new(Vec::new());
        }
        let len = n + m - 1;
        let mut out: Vec<FieldElement> = Vec::new();
        let mut k: usize = 0;
        proof {
            lemma_mod_small(0);
        }
        while k < len
            invariant
                k <= len,
                len == n + m - 1,
                n == self@.len(),
                m == other@.len(),
                self@ == values(self.coeffs@),
                other@ == values(other.coeffs@),
                out@.len() == k,
                forall|j: int|
                    0 <= j < k ==> #[trigger] out@[j].value() == product_coeff(self@, other@, j)
                        % modulus(),
            decreases len - k,
        {
            let mut acc = FieldElement::zero();
            let mut i: usize = 0;
            proof {
                lemma_mod_small(0);
            }
            while i <= k
                invariant
                    i <= k + 1,
                    k < len,
                    n == self@.len(),
                    m == other@.len(),
                    self@ == values(self.coeffs@),
                    other@ == values(other.coeffs@),
                    acc.value() == convolution(self@, other@, k as int, i as nat) % modulus(),
                decreases k + 1 - i,
            {
                let ghost a0 = acc.value();
                let ghost c = convolution(self@, other@, k as int, i as nat);
                if i < n && k - i < m {
                    let t = self.coeffs[i].mul(&other.coeffs[k - i]);
                    acc = acc.add(&t);
                    proof {
                        let x = self@[i as int] * other@[k - i];
                        lemma_mod_mod(c);
                        lemma_mod_mod(x);
                        lemma_add_congruent(a0, c, t.value(), x);
                    }
                } else {
                    proof {
                        assert(coeff(self@, i as int) * coeff(other@, k - i) == 0);
                    }
                }
                i = i + 1;
            }
            out.push(acc);
            k = k + 1;
        }
        Polynomial::new(out)
    }

    /// Synthetic division by `x - z`. The quotient is the witness polynomial
    /// `(p(x) - p(z)) / (x - z)`, one coefficient shorter than `self`, and the
    /// remainder is the value at `z`.
    pub fn divide_by_linear(&self, z: &FieldElement) -> (r: (Polynomial, FieldElement))
        ensures
            r.0@.len() == witness(self@, z.value()).len(),
            forall|k: int|
                0 <= k < r.0@.len() ==> #[trigger] r.0@[k] == witness(self@, z.value())[k]
                    % modulus(),
            r.1.value() == eval(self@, z.value()) % modulus(),
    {
        let n = self.coeffs.len();
        proof {
            lemma_mod_small(0);
        }
        if n == 0 {
            return (Polynomial::new(Vec::new()), FieldElement::zero());
        }
        let mut q: Vec<FieldElement> = Vec::new();
        let mut j: usize = 0;
        while j < n - 1
            invariant
                j <= n - 1,
                q@.len() == j,
            decreases n - 1 - j,
        {
            q.push(FieldElement::zero());
            j = j + 1;
        }
        let mut acc = FieldElement::zero();
        let mut i = n;
        proof {
            assert(eval(self@.subrange(n as int, n as int), z.value()) == 0);
        }
        while i > 0
            invariant
                i <= n,
                n >= 1,
                n == self@.len(),
                self@ == values(self.coeffs@),
                q@.len() == n - 1,
                acc.value() == eval(self@.subrange(i as int, n as int), z.value()) % modulus(),
                forall|k: int|
                    0 <= k && i <= k + 1 < n ==> #[trigger] q@[k].value() == eval(
                        self@.subrange(k + 1, n as int),
                        z.value(),
                    ) % modulus(),
            decreases i,
        {
            i = i - 1;
            let ghost a0 = acc.value();
            let t = acc.mul(z);
            acc = t.add(&self.coeffs[i]);
            proof {
                lemma_eval_unfold(self@, i as int, n as int, z.value());
                lemma_horner_step(
                    a0,
                    eval(self@.subrange(i + 1, n as int), z.value()),
                    z.value(),
                    self@[i as int],
                );
            }
            if i > 0 {
                q.set(i - 1, acc);
            }
        }
        proof {
            assert(self@.subrange(0, n as int) =~= self@);
        }
        (Polynomial::new(q), acc)
    }
}

} // verus!
