use vstd::prelude::*;
use crate::error::PricingError;
use crate::fixed::{lift_product, lift_sum, product_of, root_of, share_of, Fixed};
use crate::processes::Simulate;

verus! {

/// Geometric Brownian motion: constant drift and volatility.
pub struct BlackScholesProcess {
    /// Initial asset price.
    pub s0: Fixed,
    /// Risk-free rate.
    pub r: Fixed,
    /// Volatility of the asset.
    pub sigma: Fixed,
    /// Time to maturity.
    pub t: Fixed,
}

impl BlackScholesProcess {
    /// A process with the given parameters.
    pub fn new(s0: Fixed, r: Fixed, sigma: Fixed, t: Fixed) -> (p: BlackScholesProcess)
        ensures
            p.s0 == s0,
            p.r == r,
            p.sigma == sigma,
            p.t == t,
    {
        BlackScholesProcess { s0, r, sigma, t }
    }

    /// One Euler-Maruyama step of length `dt` from price `s`, driven by the
    /// standard-normal draw `z`: `s + r s dt + sigma s z sqrt(dt)`.
    pub open spec fn step(&self, dt: Fixed, sqrt_dt: Fixed, s: Fixed, z: Fixed) -> Result<
        Fixed,
        PricingError,
    > {
        let dw = product_of(z, sqrt_dt);
        let drift = lift_product(product_of(self.r, s), Ok(dt));
        let diffusion = lift_product(product_of(self.sigma, s), dw);
        lift_sum(Ok(s), lift_sum(drift, diffusion))
    }

    /// The price after the first `k` steps.
    pub open spec fn price_after(&self, dt: Fixed, sqrt_dt: Fixed, normals: Seq<Fixed>, k: nat) -> Result<
        Fixed,
        PricingError,
    >
        decreases k,
    {
        if k == 0 {
            Ok(self.s0)
        } else {
            match self.price_after(dt, sqrt_dt, normals, (k - 1) as nat) {
                Err(e) => Err(e),
                Ok(s) => self.step(dt, sqrt_dt, s, normals[k - 1]),
            }
        }
    }

    /// Once a step has failed, every later price fails in the same way.
    pub proof fn lemma_failure_persists(
        &self,
        dt: Fixed,
        sqrt_dt: Fixed,
        normals: Seq<Fixed>,
        k: nat,
        n: nat,
    )
        requires
            k <= n,
            self.price_after(dt, sqrt_dt, normals, k) is Err,
        ensures
            self.price_after(dt, sqrt_dt, normals, n) == self.price_after(dt, sqrt_dt, normals, k),
        decreases n,
    {
        if k < n {
            self.lemma_failure_persists(dt, sqrt_dt, normals, k, (n - 1) as nat);
        }
    }

    /// One Euler-Maruyama step of length `dt` from price `s`.
    fn advance(&self, dt: Fixed, sqrt_dt: Fixed, s: Fixed, z: Fixed) -> (r: Result<
        Fixed,
        PricingError,
    >)
        ensures
            r == self.step(dt, sqrt_dt, s, z),
    {
        let dw: Fixed = z.mul(sqrt_dt)?;
        let drift: Fixed = self.r.mul(s)?.mul(dt)?;
        let diffusion: Fixed = self.sigma.mul(s)?.mul(dw)?;
        let change: Fixed = drift.add(diffusion)?;
        s.add(change)
    }
}

impl Simulate for BlackScholesProcess {
    open spec fn draws_per_step(&self) -> nat {
        1
    }

    /// `DrawCount` unless there is one draw for each step; an empty path for
    /// no steps; else the time step is the horizon divided by the number of
    /// steps, and the path holds the price after each step.
    open spec fn path(&self, number_of_steps: nat, normals: Seq<Fixed>) -> Result<
        Seq<Fixed>,
        PricingError,
    > {
        if normals.len() != number_of_steps {
            Err(PricingError::DrawCount)
        } else if number_of_steps == 0 {
            Ok(Seq::empty())
        } else {
            match share_of(self.t, number_of_steps) {
                Err(e) => Err(e),
                Ok(dt) => match root_of(dt) {
                    Err(e) => Err(e),
                    Ok(sqrt_dt) => match self.price_after(dt, sqrt_dt, normals, number_of_steps) {
                        Err(e) => Err(e),
                        Ok(_) => Ok(
                            Seq::new(
                                number_of_steps,
                                |i: int|
                                    self.price_after(
                                        dt,
                                        sqrt_dt,
                                        normals,
                                        (i + 1) as nat,
                                    ).unwrap(),
                            ),
                        ),
                    },
                },
            }
        }
    }

    fn normals_per_step(&self) -> (r: usize) {
        1
    }

    fn generate_price_path(&self, number_of_steps: usize, normals: &Vec<Fixed>) -> (r: Result<
        Vec<Fixed>,
        PricingError,
    >) {
        assert(number_of_steps * self.draws_per_step() == number_of_steps) by (nonlinear_arith)
            requires
                self.draws_per_step() == 1,
        ;
        if normals.len() != number_of_steps {
            return Err(PricingError::DrawCount);
        }
        let mut s_path: Vec<Fixed> = Vec::new();
        if number_of_steps == 0 {
            assert(s_path@ =~= Seq::<Fixed>::empty());
            return Ok(s_path);
        }
        let dt: Fixed = self.t.div_count(number_of_steps)?;
        let sqrt_dt: Fixed = dt.sqrt()?;
        let mut s: Fixed = self.s0;
        let mut i: usize = 0;
        while i < number_of_steps
            invariant
                i <= number_of_steps,
                normals@.len() == number_of_steps,
                normals@.len() == number_of_steps * self.draws_per_step(),
                s_path@.len() == i,
                share_of(self.t, number_of_steps as nat) == Ok::<Fixed, PricingError>(dt),
                root_of(dt) == Ok::<Fixed, PricingError>(sqrt_dt),
                self.price_after(dt, sqrt_dt, normals@, i as nat) == Ok::<Fixed, PricingError>(s),
                forall|j: int|
                    0 <= j < i ==> self.price_after(dt, sqrt_dt, normals@, (j + 1) as nat) == Ok::<
                        Fixed,
                        PricingError,
                    >(#[trigger] s_path@[j]),
            decreases number_of_steps - i,
        {
            match self.advance(dt, sqrt_dt, s, normals[i]) {
                Ok(next) => {
                    s = next;
                    s_path.push(s);
                    i = i + 1;
                },
                Err(e) => {
                    proof {
                        self.lemma_failure_persists(
                            dt,
                            sqrt_dt,
                            normals@,
                            (i + 1) as nat,
                            number_of_steps as nat,
                        );
                    }
                    return Err(e);
                },
            }
        }
        proof {
            let expected = Seq::new(
                number_of_steps as nat,
                |i: int| self.price_after(dt, sqrt_dt, normals@, (i + 1) as nat).unwrap(),
            );
            assert(s_path@ =~= expected);
        }
        Ok(s_path)
    }
}

} // verus!
