use vstd::prelude::*;
use crate::field::{
    lemma_add_congruent, lemma_mod_mod, lemma_mod_small, lemma_modulus_bounds,
    lemma_mul_congruent, lemma_sub_congruent, modulus, power, FieldElement,
};
use crate::group::{G2Point, Point, TargetElement};
use crate::polynomial::{
    coeff, degree_at_most, eval, lemma_division_identity, lemma_eval_add, lemma_eval_congruent,
    lemma_eval_sub, max_len,
    lemma_eval_unfold, lemma_eval_zero_tail, values, witness, Polynomial,
};

verus! {

/// Why a protocol step was refused.
#[derive(Clone, Copy, Debug, PartialEq, Eq, Structural)]
pub enum KzgError {
    /// The polynomial's degree exceeds the maximum degree of the setup.
    PolynomialTooLarge,
    /// The maximum degree asked of the setup is not positive.
    InvalidMaxDegree,
}

/// The structured reference string: `[g1, t g1, t^2 g1, ..., t^d g1]` in G1,
/// the generator `g2` of G2 and `t g2`, for a secret `t` and maximum degree `d`.
///
/// The secret itself is not stored; proofs speak of it as the logarithm of
/// `t g2`, which no executable code can read.
pub struct KZGParams {
    powers_of_g: Vec<Point>,
    g2: G2Point,
    beta_g2: G2Point,
}

impl KZGParams {
    /// The secret the string was made from.
    pub closed spec fn tau(&self) -> int {
        self.beta_g2.log()
    }

    /// The largest degree of a polynomial that can be committed to.
    pub closed spec fn degree_bound(&self) -> int {
        self.powers_of_g@.len() - 1
    }

    /// The i-th element of the G1 sequence is `tau^i` times the generator,
    /// and `g2` is the generator of G2.
    pub closed spec fn wf(&self) -> bool {
        &&& self.powers_of_g@.len() >= 2
        &&& forall|i: int|
            0 <= i < self.powers_of_g@.len() ==> #[trigger] self.powers_of_g@[i].log() % modulus()
                == power(self.tau(), i as nat) % modulus()
        &&& self.g2.log() == 1
    }

    /// Whether `verify` accepts a commitment `c`, point `z`, value `y` and
    /// proof `w` (given by their logarithms): exactly when
    /// `c - y == w * (tau - z)` modulo r, the pairing equation in the exponent.
    pub open spec fn accepts(&self, c: int, z: int, y: int, w: int) -> bool {
        (c - y) % modulus() == (w * (self.tau() - z)) % modulus()
    }

    /// The maximum degree the string was set up for.
    pub fn max_degree(&self) -> (r: usize)
        requires
            self.wf(),
        ensures
            r == self.degree_bound(),
    {
        self.powers_of_g.len() - 1
    }
}

/// The KZG polynomial commitment scheme over BLS12-381.
pub struct KZG10;

impl KZG10 {
    /// The setup for polynomials of degree at most `max_degree`, made from
    /// the given secret. Whoever knows the secret can forge openings; it is
    /// only borrowed here and nothing derived from it but group elements is kept.
    pub fn setup_with_secret(max_degree: usize, secret: &FieldElement) -> (r: Result<
        KZGParams,
        KzgError,
    >)
        requires
            max_degree < usize::MAX,
        ensures
            r is Err <==> max_degree == 0,
            r matches Err(e) ==> e == KzgError::InvalidMaxDegree,
            r matches Ok(p) ==> p.wf() && p.degree_bound() == max_degree && p.tau()
                == secret.value(),
    {
        if max_degree == 0 {
            return Err(KzgError::InvalidMaxDegree);
        }
        let g1 = Point::generator();
        let g2 = G2Point::generator();
        let beta_g2 = g2.scale(secret);
        let ghost tau = secret.value();
        let mut powers_of_g: Vec<Point> = Vec::new();
        let mut current = FieldElement::one();
        let mut i: usize = 0;
        proof {
            lemma_mod_small(1);
        }
        while i <= max_degree
            invariant
                i <= max_degree + 1,
                max_degree < usize::MAX,
                tau == secret.value(),
                g1.log() == 1,
                powers_of_g@.len() == i,
                current.value() == power(tau, i as nat) % modulus(),
                forall|k: int|
                    0 <= k < i ==> #[trigger] powers_of_g@[k].log() % modulus() == power(
                        tau,
                        k as nat,
                    ) % modulus(),
            decreases max_degree + 1 - i,
        {
            let p = g1.scale(&current);
            proof {
                lemma_mod_mod(power(tau, i as nat));
            }
            powers_of_g.push(p);
            let ghost c0 = current.value();
            current = current.mul(secret);
            proof {
                lemma_mul_congruent(c0, power(tau, i as nat), tau, tau);
                assert(power(tau, (i + 1) as nat) == tau * power(tau, i as nat));
                assert(power(tau, i as nat) * tau == tau * power(tau, i as nat)) by (nonlinear_arith);
            }
            i = i + 1;
        }
        Ok(KZGParams { powers_of_g, g2, beta_g2 })
    }

    /// The setup for polynomials of degree at most `max_degree`, made from a
    /// secret drawn at random and dropped before returning.
    pub fn setup(max_degree: usize) -> (r: Result<KZGParams, KzgError>)
        requires
            max_degree < usize::MAX,
        ensures
            r is Err <==> max_degree == 0,
            r matches Err(e) ==> e == KzgError::InvalidMaxDegree,
            r matches Ok(p) ==> p.wf() && p.degree_bound() == max_degree,
    {
        let secret = FieldElement::random();
        KZG10::setup_with_secret(max_degree, &secret)
    }

    /// The commitment to `poly`: the sum of its coefficients times the
    /// corresponding elements of the reference string, that is `poly(tau)`
    /// times the generator of G1.
    pub fn commit(params: &KZGParams, poly: &Polynomial) -> (r: Result<Point, KzgError>)
        requires
            params.wf(),
        ensures
            r is Ok <==> degree_at_most(poly@, params.degree_bound()),
            r matches Err(e) ==> e == KzgError::PolynomialTooLarge,
            r matches Ok(c) ==> c.log() % modulus() == eval(poly@, params.tau()) % modulus(),
    {
        let coeffs = poly.coeffs();
        let n = coeffs.len();
        let bound = params.powers_of_g.len();
        let ghost s = poly@;
        let ghost tau = params.tau();
        let mut i = bound;
        while i < n
            invariant
                bound <= i <= n || (n < bound && i == bound),
                n == s.len(),
                s == poly@,
                bound == params.degree_bound() + 1,
                values(coeffs@) == s,
                forall|k: int| bound <= k < i ==> #[trigger] s[k] == 0,
            decreases n - i,
        {
            if !coeffs[i].is_zero() {
                proof {
                    assert(s[i as int] != 0);
                    assert(!degree_at_most(s, params.degree_bound()));
                }
                return Err(KzgError::PolynomialTooLarge);
            }
            i = i + 1;
        }
        let m = if n < bound {
            n
        } else {
            bound
        };
        let mut acc = Point::identity();
        let mut j = m;
        proof {
            lemma_mod_small(0);
            assert(eval(s.subrange(m as int, m as int), tau) == 0);
            assert(power(tau, m as nat) * 0 == 0);
        }
        while j > 0
            invariant
                j <= m,
                m <= n,
                m <= bound,
                n == s.len(),
                s == poly@,
                bound == params.powers_of_g@.len(),
                params.wf(),
                tau == params.tau(),
                values(coeffs@) == s,
                acc.log() % modulus() == (power(tau, j as nat) * eval(
                    s.subrange(j as int, m as int),
                    tau,
                )) % modulus(),
            decreases j,
        {
            j = j - 1;
            let term = params.powers_of_g[j].scale(&coeffs[j]);
            let ghost a0 = acc.log();
            acc = acc.add(&term);
            proof {
                let pj = power(tau, j as nat);
                let e = eval(s.subrange(j + 1, m as int), tau);
                let c = s[j as int];
                lemma_eval_unfold(s, j as int, m as int, tau);
                assert(power(tau, (j + 1) as nat) == tau * pj);
                lemma_mul_congruent(params.powers_of_g@[j as int].log(), pj, c, c);
                lemma_add_congruent(a0, (tau * pj) * e, term.log(), pj * c);
                assert((tau * pj) * e + pj * c == pj * (c + tau * e)) by (nonlinear_arith);
            }
        }
        proof {
            lemma_eval_zero_tail(s, m as int, tau);
        }
        Ok(acc)
    }

    /// An opening of `poly` at `z`: the value `y = poly(z)` and the proof,
    /// which is the commitment to the witness polynomial `(poly(x) - y) / (x - z)`.
    pub fn open(params: &KZGParams, poly: &Polynomial, z: &FieldElement) -> (r: Result<
        (FieldElement, Point),
        KzgError,
    >)
        requires
            params.wf(),
        ensures
            r is Ok <==> degree_at_most(poly@, params.degree_bound()),
            r matches Err(e) ==> e == KzgError::PolynomialTooLarge,
            r matches Ok(o) ==> o.0.value() == eval(poly@, z.value()) % modulus() && o.1.log()
                % modulus() == eval(witness(poly@, z.value()), params.tau()) % modulus(),
    {
        let ghost s = poly@;
        let ghost zv = z.value();
        let ghost tau = params.tau();
        let ghost d = params.degree_bound();
        let bound = params.max_degree();
        let deg = poly.degree();
        if deg > bound {
            proof {
                assert(s[deg as int] != 0);
            }
            return Err(KzgError::PolynomialTooLarge);
        }
        let y = poly.evaluate(z);
        let constant = Polynomial::new(vec![y]);
        let numerator = poly.sub(&constant);
        let (quotient, remainder) = numerator.divide_by_linear(z);
        proof {
            let num = numerator@;
            let n = num.len() as int;
            let e = eval(s, zv);
            // The remainder vanishes: the numerator has a root at z.
            assert(constant@ =~= seq![y.value()]);
            assert(eval(constant@, zv) == y.value() + zv * eval(constant@.drop_first(), zv));
            assert(eval(constant@.drop_first(), zv) == 0);
            assert forall|i: int| 0 <= i < n implies #[trigger] num[i] % modulus() == (coeff(s, i)
                - coeff(constant@, i)) % modulus() by {
                lemma_mod_mod(coeff(s, i) - coeff(constant@, i));
            }
            lemma_eval_sub(s, constant@, num, zv);
            lemma_mod_mod(e);
            lemma_sub_congruent(e, e, e % modulus(), e);
            lemma_mod_small(0);
            assert(remainder.value() == 0);
            // Above the constant term the numerator is the polynomial itself.
            assert forall|i: int| 1 <= i < n implies #[trigger] num[i] % modulus() == s[i]
                % modulus() && (i > d ==> num[i] == 0) by {
                lemma_mod_mod(s[i]);
                if i > d {
                    assert(s[i] == 0);
                }
            }
            // The quotient is the witness of the polynomial, coefficient by coefficient.
            let wq = witness(s, zv);
            assert(quotient@.len() == wq.len());
            assert forall|k: int| 0 <= k < quotient@.len() implies #[trigger] quotient@[k]
                % modulus() == wq[k] % modulus() && (k > d ==> quotient@[k] == 0) by {
                let tn = num.subrange(k + 1, n);
                let ts = s.subrange(k + 1, n);
                lemma_eval_congruent(tn, ts, zv);
                lemma_mod_mod(eval(tn, zv));
                if k > d {
                    lemma_eval_zero_tail(tn, 0, zv);
                    assert(tn.subrange(0, 0).len() == 0);
                }
            }
            lemma_eval_congruent(quotient@, wq, tau);
            assert(degree_at_most(quotient@, d));
        }
        match KZG10::commit(params, &quotient) {
            Ok(w) => Ok((y, w)),
            Err(e) => Err(e),
        }
    }

    /// Whether `proof` shows that the polynomial committed to by `commitment`
    /// takes the value `y` at `z`: the pairing check
    /// `e(commitment - y g1, g2) == e(proof, t g2 - z g2)`.
    pub fn verify(
        params: &KZGParams,
        commitment: &Point,
        z: &FieldElement,
        y: &FieldElement,
        proof: &Point,
    ) -> (r: bool)
        requires
            params.wf(),
        ensures
            r == params.accepts(commitment.log(), z.value(), y.value(), proof.log()),
    {
        let neg_y = FieldElement::zero().sub(y);
        let y_part = params.powers_of_g[0].scale(&neg_y);
        let lhs_g1 = commitment.add(&y_part);
        let neg_z = FieldElement::zero().sub(z);
        let z_part = params.g2.scale(&neg_z);
        let rhs_g2 = params.beta_g2.add(&z_part);
        let lhs = TargetElement::pairing(&lhs_g1, &params.g2);
        let rhs = TargetElement::pairing(proof, &rhs_g2);
        let r = lhs.equal(&rhs);
        proof {
            let g = params.powers_of_g@[0].log();
            let c = commitment.log();
            let w = proof.log();
            let tau = params.tau();
            lemma_mod_small(1);
            assert(power(tau, 0) == 1);
            lemma_mod_mod(0 - y.value());
            lemma_mod_mod(0 - z.value());
            lemma_mul_congruent(g, 1, neg_y.value(), 0 - y.value());
            lemma_add_congruent(c, c, g * neg_y.value(), 0 - y.value());
            lemma_add_congruent(tau, tau, neg_z.value(), 0 - z.value());
            lemma_mul_congruent(w, w, tau + neg_z.value(), tau - z.value());
        }
        r
    }
}

/// Completeness: for every polynomial within the degree bound and every
/// point, `verify` accepts the commitment that `commit` makes together with
/// the value and proof that `open` makes.
pub proof fn lemma_completeness(params: &KZGParams, p: Seq<int>, z: int, c: &Point, y: int, w: &Point)
    requires
        params.wf(),
        degree_at_most(p, params.degree_bound()),
        c.log() % modulus() == eval(p, params.tau()) % modulus(),
        y == eval(p, z) % modulus(),
        w.log() % modulus() == eval(witness(p, z), params.tau()) % modulus(),
    ensures
        params.accepts(c.log(), z, y, w.log()),
{
    let t = params.tau();
    let ew = eval(witness(p, z), t);
    lemma_division_identity(p, z, t);
    lemma_mod_mod(eval(p, z));
    lemma_sub_congruent(c.log(), eval(p, t), y, eval(p, z));
    lemma_mul_congruent(w.log(), ew, t - z, t - z);
    assert(ew * (t - z) == (t - z) * ew) by (nonlinear_arith);
}

/// For a fixed commitment, point and proof, `verify` accepts at most one
/// value modulo r.
pub proof fn lemma_value_unique(params: &KZGParams, c: int, z: int, y1: int, y2: int, w: int)
    requires
        params.accepts(c, z, y1, w),
        params.accepts(c, z, y2, w),
    ensures
        y1 % modulus() == y2 % modulus(),
{
    lemma_sub_congruent(c, c, c - y1, c - y2);
    assert(c - (c - y1) == y1);
    assert(c - (c - y2) == y2);
}

/// Soundness against a changed value: once `verify` accepts a value, it
/// rejects that value plus one, for the same commitment, point and proof.
pub proof fn lemma_shifted_value_rejected(params: &KZGParams, c: int, z: int, y: int, w: int)
    requires
        params.accepts(c, z, y, w),
    ensures
        !params.accepts(c, z, (y + 1) % modulus(), w),
{
    let m = modulus();
    lemma_modulus_bounds();
    if params.accepts(c, z, (y + 1) % m, w) {
        lemma_value_unique(params, c, z, y, (y + 1) % m, w);
        lemma_mod_mod(y + 1);
        lemma_mod_mod(y);
        lemma_mod_small(1);
        vstd::arithmetic::div_mod::lemma_add_mod_noop(y, 1, m);
        let r = y % m;
        if r + 1 < m {
            lemma_mod_small(r + 1);
        } else {
            vstd::arithmetic::div_mod::lemma_mod_self_0(m);
        }
    }
}

/// Determinism: two commitments to the same polynomial under the same
/// string are the same group element.
pub proof fn lemma_commit_deterministic(params: &KZGParams, p: Seq<int>, c1: &Point, c2: &Point)
    requires
        c1.log() % modulus() == eval(p, params.tau()) % modulus(),
        c2.log() % modulus() == eval(p, params.tau()) % modulus(),
    ensures
        c1.same(c2),
{
}

/// Additive homomorphism: for polynomials within the degree bound, their
/// sum is within it too, and the commitment to the sum is the group sum of
/// the two commitments.
pub proof fn lemma_commit_additive(
    params: &KZGParams,
    first: Seq<int>,
    second: Seq<int>,
    s: Seq<int>,
    c1: &Point,
    c2: &Point,
    c3: &Point,
)
    requires
        params.wf(),
        degree_at_most(first, params.degree_bound()),
        degree_at_most(second, params.degree_bound()),
        s.len() == max_len(first, second),
        forall|i: int|
            0 <= i < s.len() ==> #[trigger] s[i] == (coeff(first, i) + coeff(second, i)) % modulus(),
        c1.log() % modulus() == eval(first, params.tau()) % modulus(),
        c2.log() % modulus() == eval(second, params.tau()) % modulus(),
        c3.log() % modulus() == eval(s, params.tau()) % modulus(),
    ensures
        degree_at_most(s, params.degree_bound()),
        c3.log() % modulus() == (c1.log() + c2.log()) % modulus(),
{
    let t = params.tau();
    assert forall|i: int| 0 <= i < s.len() implies #[trigger] s[i] % modulus() == (coeff(first, i)
        + coeff(second, i)) % modulus() && (i > params.degree_bound() ==> s[i] == 0) by {
        lemma_mod_mod(coeff(first, i) + coeff(second, i));
        if i > params.degree_bound() {
            lemma_mod_small(0);
        }
    }
    lemma_eval_add(first, second, s, t);
    lemma_add_congruent(c1.log(), eval(first, t), c2.log(), eval(second, t));
}

/// The zero polynomial: its commitment is the identity element and, at
/// every point, its opening has value zero and the identity as proof, and
/// `verify` accepts them.
pub proof fn lemma_zero_polynomial(params: &KZGParams, p: Seq<int>, z: int, c: &Point, y: int, w: &Point)
    requires
        params.wf(),
        forall|i: int| 0 <= i < p.len() ==> #[trigger] p[i] == 0,
        c.log() % modulus() == eval(p, params.tau()) % modulus(),
        y == eval(p, z) % modulus(),
        w.log() % modulus() == eval(witness(p, z), params.tau()) % modulus(),
    ensures
        c.log() % modulus() == 0,
        y == 0,
        w.log() % modulus() == 0,
        params.accepts(c.log(), z, y, w.log()),
{
    let t = params.tau();
    let wz = witness(p, z);
    lemma_mod_small(0);
    lemma_eval_zero_tail(p, 0, t);
    lemma_eval_zero_tail(p, 0, z);
    assert(p.subrange(0, 0).len() == 0);
    assert forall|k: int| 0 <= k < wz.len() implies #[trigger] wz[k] == 0 by {
        let tail = p.subrange(k + 1, p.len() as int);
        lemma_eval_zero_tail(tail, 0, z);
        assert(tail.subrange(0, 0).len() == 0);
    }
    lemma_eval_zero_tail(wz, 0, t);
    assert(wz.subrange(0, 0).len() == 0);
    lemma_completeness(params, p, z, c, y, w);
}

} // verus!
