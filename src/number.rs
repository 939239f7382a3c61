use vstd::prelude::*;

verus! {

/// Largest magnitude a stored numerator or denominator may have.
pub const BOUND: i128 = 0x7fff_ffff_ffff_ffff;

/// A rational number `num / den`.
#[derive(Clone, Copy, Debug, PartialEq, Eq, Structural)]
pub struct Ratio {
    pub num: i128,
    pub den: i128,
}

/// A complex number with rational parts.
#[derive(Clone, Copy, Debug, PartialEq, Eq, Structural)]
pub struct Cplx {
    pub re: Ratio,
    pub im: Ratio,
}

impl Ratio {
    /// Well formed: a positive denominator, and both parts within `BOUND`.
    pub open spec fn wf(self) -> bool {
        &&& 0 < self.den <= BOUND
        &&& -BOUND <= self.num <= BOUND
    }
}

impl Cplx {
    pub open spec fn wf(self) -> bool {
        self.re.wf() && self.im.wf()
    }
}

/// Greatest common divisor, by Euclid's algorithm.
pub open spec fn gcd(a: nat, b: nat) -> nat
    decreases b,
{
    if b == 0 {
        a
    } else {
        gcd(b, a % b)
    }
}

proof fn lemma_gcd_bounds(a: nat, b: nat)
    ensures
        a > 0 || b > 0 ==> gcd(a, b) > 0,
        b > 0 ==> gcd(a, b) <= b,
    decreases b,
{
    if b > 0 {
        lemma_gcd_bounds(b, a % b);
    }
}

/// `n / d` in lowest terms, when both parts of that fit within `BOUND`.
pub open spec fn reduced(n: int, d: int) -> Option<Ratio> {
    let mag = (if n < 0 { -n } else { n }) as nat;
    let g = gcd(mag, d as nat) as int;
    let m = mag as int / g;
    let e = d / g;
    if m <= BOUND && e <= BOUND {
        Some(Ratio { num: (if n < 0 { -m } else { m }) as i128, den: e as i128 })
    } else {
        None
    }
}

impl Ratio {
    /// The sum, reduced; `None` when it does not fit.
    pub open spec fn add_spec(self, o: Ratio) -> Option<Ratio> {
        reduced(self.num * o.den + o.num * self.den, self.den * o.den)
    }

    /// The product, reduced; `None` when it does not fit.
    pub open spec fn mul_spec(self, o: Ratio) -> Option<Ratio> {
        reduced(self.num * o.num, self.den * o.den)
    }

    pub open spec fn neg_spec(self) -> Ratio {
        Ratio { num: (-self.num) as i128, den: self.den }
    }

    /// The reciprocal of a nonzero number.
    pub open spec fn inv_spec(self) -> Ratio {
        if self.num > 0 {
            Ratio { num: self.den, den: self.num }
        } else {
            Ratio { num: (-self.den) as i128, den: (-self.num) as i128 }
        }
    }

    /// `num / den` in lowest terms, when `den` is positive and both parts of
    /// the result fit within `BOUND`.
    pub fn new(num: i64, den: i64) -> (r: Option<Ratio>)
        ensures
            den <= 0 ==> r is None,
            den > 0 ==> r == reduced(num as int, den as int),
            r matches Some(x) ==> x.wf(),
    {
        if den <= 0 {
            return None;
        }
        reduce(num as i128, den as i128)
    }

    pub fn is_zero(&self) -> (r: bool)
        ensures
            r == (self.num == 0),
    {
        self.num == 0
    }

    pub fn add(&self, o: &Ratio) -> (r: Option<Ratio>)
        requires
            self.wf(),
            o.wf(),
        ensures
            r == self.add_spec(*o),
            r matches Some(x) ==> x.wf(),
    {
        proof {
            lemma_product_bound(self.num as int, o.den as int);
            lemma_product_bound(o.num as int, self.den as int);
            lemma_product_bound(self.den as int, o.den as int);
        }
        reduce(self.num * o.den + o.num * self.den, self.den * o.den)
    }

    pub fn mul(&self, o: &Ratio) -> (r: Option<Ratio>)
        requires
            self.wf(),
            o.wf(),
        ensures
            r == self.mul_spec(*o),
            r matches Some(x) ==> x.wf(),
    {
        proof {
            lemma_product_bound(self.num as int, o.num as int);
            lemma_product_bound(self.den as int, o.den as int);
        }
        reduce(self.num * o.num, self.den * o.den)
    }

    pub fn neg(&self) -> (r: Ratio)
        requires
            self.wf(),
        ensures
            r == self.neg_spec(),
            r.wf(),
    {
        Ratio { num: -self.num, den: self.den }
    }

    pub fn inv(&self) -> (r: Ratio)
        requires
            self.wf(),
            self.num != 0,
        ensures
            r == self.inv_spec(),
            r.wf(),
    {
        if self.num > 0 {
            Ratio { num: self.den, den: self.num }
        } else {
            Ratio { num: -self.den, den: -self.num }
        }
    }
}

proof fn lemma_product_bound(a: int, b: int)
    requires
        -BOUND <= a <= BOUND,
        -BOUND <= b <= BOUND,
    ensures
        -(BOUND * BOUND) <= a * b <= BOUND * BOUND,
        a > 0 && b > 0 ==> a * b > 0,
{
    assert(-(BOUND * BOUND) <= a * b <= BOUND * BOUND) by (nonlinear_arith)
        requires
            -BOUND <= a <= BOUND,
            -BOUND <= b <= BOUND,
    ;
    assert(a > 0 && b > 0 ==> a * b > 0) by (nonlinear_arith);
}

fn gcd_u128(a: u128, b: u128) -> (r: u128)
    ensures
        r == gcd(a as nat, b as nat),
{
    let mut x = a;
    let mut y = b;
    while y != 0
        invariant
            gcd(x as nat, y as nat) == gcd(a as nat, b as nat),
        decreases y,
    {
        let t = x % y;
        x = y;
        y = t;
    }
    x
}

/// `n / d` in lowest terms, or `None` when that does not fit.
fn reduce(n: i128, d: i128) -> (r: Option<Ratio>)
    requires
        0 < d,
        n > i128::MIN,
    ensures
        r == reduced(n as int, d as int),
        r matches Some(x) ==> x.wf(),
{
    let mag: u128 = if n < 0 {
        (-n) as u128
    } else {
        n as u128
    };
    let g = gcd_u128(mag, d as u128);
    proof {
        lemma_gcd_bounds(mag as nat, d as nat);
    }
    let m = mag / g;
    let e = (d as u128) / g;
    proof {
        assert(e >= 1) by (nonlinear_arith)
            requires
                e == (d as u128) / g,
                0 < g <= d,
        ;
    }
    if m > BOUND as u128 || e > BOUND as u128 {
        return None;
    }
    let num: i128 = if n < 0 {
        -(m as i128)
    } else {
        m as i128
    };
    Some(Ratio { num, den: e as i128 })
}

proof fn lemma_gcd_at_most_first(a: nat, b: nat)
    requires
        a > 0,
    ensures
        gcd(a, b) <= a,
{
    if b > 0 {
        if a < b {
            vstd::arithmetic::div_mod::lemma_small_mod(a, b);
            lemma_gcd_bounds(b, a);
        } else {
            lemma_gcd_bounds(a, b);
        }
    }
}

/// Reducing keeps the sign of the numerator.
proof fn lemma_reduced_sign(n: int, d: int)
    requires
        d > 0,
        reduced(n, d) is Some,
    ensures
        (reduced(n, d)->0.num > 0) == (n > 0),
        (reduced(n, d)->0.num == 0) == (n == 0),
{
    let mag = (if n < 0 { -n } else { n }) as nat;
    lemma_gcd_bounds(mag, d as nat);
    let g = gcd(mag, d as nat) as int;
    if n != 0 {
        lemma_gcd_at_most_first(mag, d as nat);
        assert(mag as int / g >= 1) by (nonlinear_arith)
            requires
                0 < g <= mag,
        ;
    }
}

impl Cplx {
    pub open spec fn zero() -> Cplx {
        Cplx { re: Ratio { num: 0, den: 1 }, im: Ratio { num: 0, den: 1 } }
    }

    pub open spec fn is_zero_spec(self) -> bool {
        self.re.num == 0 && self.im.num == 0
    }

    /// The sum; `None` when a part does not fit.
    pub open spec fn add_spec(self, o: Cplx) -> Option<Cplx> {
        match (self.re.add_spec(o.re), self.im.add_spec(o.im)) {
            (Some(re), Some(im)) => Some(Cplx { re, im }),
            _ => None,
        }
    }

    /// The product `(a.re·b.re - a.im·b.im) + j·(a.re·b.im + a.im·b.re)`;
    /// `None` when a part does not fit.
    pub open spec fn mul_spec(self, o: Cplx) -> Option<Cplx> {
        match (
            self.re.mul_spec(o.re),
            self.im.mul_spec(o.im),
            self.re.mul_spec(o.im),
            self.im.mul_spec(o.re),
        ) {
            (Some(a), Some(b), Some(c), Some(d)) => match (a.add_spec(b.neg_spec()), c.add_spec(d)) {
                (Some(re), Some(im)) => Some(Cplx { re, im }),
                _ => None,
            },
            _ => None,
        }
    }

    /// `re² + im²`; `None` when it does not fit.
    pub open spec fn norm_sq_spec(self) -> Option<Ratio> {
        match (self.re.mul_spec(self.re), self.im.mul_spec(self.im)) {
            (Some(a), Some(b)) => a.add_spec(b),
            _ => None,
        }
    }

    /// The reciprocal `(re - j·im) / (re² + im²)` of a nonzero number; `None`
    /// when a part does not fit.
    pub open spec fn recip_spec(self) -> Option<Cplx> {
        match self.norm_sq_spec() {
            Some(m) => match (self.re.mul_spec(m.inv_spec()), self.im.mul_spec(m.inv_spec())) {
                (Some(re), Some(im)) => Some(Cplx { re, im: im.neg_spec() }),
                _ => None,
            },
            None => None,
        }
    }

    pub fn new(re: Ratio, im: Ratio) -> (r: Cplx)
        ensures
            r == (Cplx { re, im }),
    {
        Cplx { re, im }
    }

    pub fn zero_value() -> (r: Cplx)
        ensures
            r == Cplx::zero(),
            r.wf(),
    {
        Cplx { re: Ratio { num: 0, den: 1 }, im: Ratio { num: 0, den: 1 } }
    }

    pub fn is_zero(&self) -> (r: bool)
        ensures
            r == self.is_zero_spec(),
    {
        self.re.num == 0 && self.im.num == 0
    }

    pub fn add(&self, o: &Cplx) -> (r: Option<Cplx>)
        requires
            self.wf(),
            o.wf(),
        ensures
            r == self.add_spec(*o),
            r matches Some(x) ==> x.wf(),
    {
        let re = self.re.add(&o.re);
        let im = self.im.add(&o.im);
        match (re, im) {
            (Some(re), Some(im)) => Some(Cplx { re, im }),
            _ => None,
        }
    }

    pub fn mul(&self, o: &Cplx) -> (r: Option<Cplx>)
        requires
            self.wf(),
            o.wf(),
        ensures
            r == self.mul_spec(*o),
            r matches Some(x) ==> x.wf(),
    {
        let a = self.re.mul(&o.re);
        let b = self.im.mul(&o.im);
        let c = self.re.mul(&o.im);
        let d = self.im.mul(&o.re);
        match (a, b, c, d) {
            (Some(a), Some(b), Some(c), Some(d)) => match (a.add(&b.neg()), c.add(&d)) {
                (Some(re), Some(im)) => Some(Cplx { re, im }),
                _ => None,
            },
            _ => None,
        }
    }

    pub fn recip(&self) -> (r: Option<Cplx>)
        requires
            self.wf(),
            !self.is_zero_spec(),
        ensures
            r == self.recip_spec(),
            r matches Some(x) ==> x.wf(),
    {
        let a = match self.re.mul(&self.re) {
            Some(a) => a,
            None => return None,
        };
        let b = match self.im.mul(&self.im) {
            Some(b) => b,
            None => return None,
        };
        let m = match a.add(&b) {
            Some(m) => m,
            None => return None,
        };
        proof {
            assert(self.re.num * self.re.num >= 0) by (nonlinear_arith);
            assert(self.im.num * self.im.num >= 0) by (nonlinear_arith);
            assert(self.re.num != 0 ==> self.re.num * self.re.num > 0) by (nonlinear_arith);
            assert(self.im.num != 0 ==> self.im.num * self.im.num > 0) by (nonlinear_arith);
            lemma_product_bound(self.re.den as int, self.re.den as int);
            lemma_product_bound(self.im.den as int, self.im.den as int);
            lemma_reduced_sign(self.re.num * self.re.num, self.re.den * self.re.den);
            lemma_reduced_sign(self.im.num * self.im.num, self.im.den * self.im.den);
            assert(a.num * b.den >= 0 && b.num * a.den >= 0 && (a.num * b.den > 0 || b.num * a.den
                > 0)) by (nonlinear_arith)
                requires
                    a.num >= 0,
                    b.num >= 0,
                    a.num > 0 || b.num > 0,
                    a.den > 0,
                    b.den > 0,
            ;
            lemma_product_bound(a.den as int, b.den as int);
            lemma_reduced_sign(a.num * b.den + b.num * a.den, a.den * b.den);
        }
        let k = m.inv();
        let re = self.re.mul(&k);
        let im = self.im.mul(&k);
        match (re, im) {
            (Some(re), Some(im)) => Some(Cplx { re, im: im.neg() }),
            _ => None,
        }
    }
}

} // verus!
