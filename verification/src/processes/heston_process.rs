use vstd::prelude::*;
use crate::error::PricingError;
use crate::fixed::{
    difference_of,
    lift_difference,
    lift_product,
    lift_root,
    lift_sum,
    product_of,
    root_of,
    share_of,
    Fixed,
    SCALE,
};
use crate::processes::Simulate;

verus! {

/// The Heston model: the variance of the price follows a mean-reverting
/// square-root process of its own, correlated with the price.
pub struct HestonProcess {
    /// Initial asset price.
    pub s0: Fixed,
    /// Initial variance.
    pub v0: Fixed,
    /// Risk-free rate.
    pub r: Fixed,
    /// Rate of mean reversion.
    pub kappa: Fixed,
    /// Long-term variance mean.
    pub theta: Fixed,
    /// Volatility of volatility.
    pub sigma: Fixed,
    /// Correlation between the two Brownian motions.
    pub rho: Fixed,
    /// Time to maturity.
    pub t: Fixed,
}

/// Where a simulation stands after some steps.
pub struct HestonState {
    /// The asset price.
    pub price: Fixed,
    /// The instantaneous variance, never negative after a step.
    pub variance: Fixed,
    /// How many steps so far had their variance raised to zero.
    pub floored: usize,
}

/// A simulated path and how often its variance had to be raised to zero.
pub struct HestonPath {
    /// The price after each step.
    pub prices: Vec<Fixed>,
    /// How many steps had their variance raised to zero.
    pub floored: usize,
}

/// What stays the same over all steps of one simulation.
pub struct HestonGrid {
    /// Length of a step.
    pub dt: Fixed,
    /// Square root of the length of a step.
    pub sqrt_dt: Fixed,
    /// `sqrt(1 - rho^2)`: the weight of the second draw in the variance's
    /// driver.
    pub mix: Fixed,
}

impl HestonProcess {
    /// A process with the given parameters.
    pub fn new(
        s0: Fixed,
        v0: Fixed,
        r: Fixed,
        kappa: Fixed,
        theta: Fixed,
        sigma: Fixed,
        rho: Fixed,
        t: Fixed,
    ) -> (p: HestonProcess)
        ensures
            p.s0 == s0,
            p.v0 == v0,
            p.r == r,
            p.kappa == kappa,
            p.theta == theta,
            p.sigma == sigma,
            p.rho == rho,
            p.t == t,
    {
        HestonProcess { s0, v0, r, kappa, theta, sigma, rho, t }
    }

    /// The grid for `number_of_steps` steps over the horizon: the step is the
    /// horizon divided by the number of steps.
    pub open spec fn grid(&self, number_of_steps: nat) -> Result<HestonGrid, PricingError> {
        match share_of(self.t, number_of_steps) {
            Err(e) => Err(e),
            Ok(dt) => match root_of(dt) {
                Err(e) => Err(e),
                Ok(sqrt_dt) => match lift_root(
                    lift_difference(Ok(Fixed { raw: SCALE }), product_of(self.rho, self.rho)),
                ) {
                    Err(e) => Err(e),
                    Ok(mix) => Ok(HestonGrid { dt, sqrt_dt, mix }),
                },
            },
        }
    }

    /// The price one step on: `s + r s dt + s sqrt(v) z1 sqrt(dt)`, where
    /// `root_v` is `sqrt(v)` and `v` the variance that the step has arrived
    /// at.
    pub open spec fn next_price(&self, g: HestonGrid, s: Fixed, root_v: Fixed, z1: Fixed) -> Result<
        Fixed,
        PricingError,
    > {
        let dw_s = product_of(z1, g.sqrt_dt);
        let drift = lift_product(product_of(self.r, s), Ok(g.dt));
        let diffusion = lift_product(product_of(s, root_v), dw_s);
        lift_sum(Ok(s), lift_sum(drift, diffusion))
    }

    /// The variance one step on, before it is kept from falling below zero:
    /// `v + kappa (theta - v) dt + sigma sqrt(v) (rho z1 + mix z2) sqrt(dt)`,
    /// where `root_v` is `sqrt(v)` and `v` the variance that the step starts
    /// from.
    pub open spec fn next_variance(
        &self,
        g: HestonGrid,
        v: Fixed,
        root_v: Fixed,
        z1: Fixed,
        z2: Fixed,
    ) -> Result<Fixed, PricingError> {
        let dw_v = lift_product(
            lift_sum(product_of(self.rho, z1), product_of(g.mix, z2)),
            Ok(g.sqrt_dt),
        );
        let reversion = lift_product(
            lift_product(Ok(self.kappa), difference_of(self.theta, v)),
            Ok(g.dt),
        );
        let diffusion = lift_product(product_of(self.sigma, root_v), dw_v);
        lift_sum(Ok(v), lift_sum(reversion, diffusion))
    }

    /// The variance kept from falling below zero.
    pub open spec fn floor_at_zero(v: Fixed) -> Fixed {
        if v.raw < 0 {
            Fixed { raw: 0 }
        } else {
            v
        }
    }

    /// One step: the variance moves first and is raised to zero where it fell
    /// below; the price then moves with the variance so obtained. A negative
    /// variance to start from has no square root: `NegativeRoot`.
    pub open spec fn step(&self, g: HestonGrid, state: HestonState, z1: Fixed, z2: Fixed) -> Result<
        HestonState,
        PricingError,
    > {
        match root_of(state.variance) {
            Err(e) => Err(e),
            Ok(root_before) => match self.next_variance(g, state.variance, root_before, z1, z2) {
                Err(e) => Err(e),
                Ok(moved) => match root_of(Self::floor_at_zero(moved)) {
                    Err(e) => Err(e),
                    Ok(root_v) => match self.next_price(g, state.price, root_v, z1) {
                        Err(e) => Err(e),
                        Ok(price) => Ok(
                            HestonState {
                                price,
                                variance: Self::floor_at_zero(moved),
                                floored: if moved.raw < 0 {
                                    (state.floored + 1) as usize
                                } else {
                                    state.floored
                                },
                            },
                        ),
                    },
                },
            },
        }
    }

    /// The state after the first `k` steps; step `k` (counted from one) is
    /// driven by the draws at `2k - 2` and `2k - 1`.
    pub open spec fn state_after(&self, g: HestonGrid, normals: Seq<Fixed>, k: nat) -> Result<
        HestonState,
        PricingError,
    >
        decreases k,
    {
        if k == 0 {
            Ok(HestonState { price: self.s0, variance: self.v0, floored: 0 })
        } else {
            match self.state_after(g, normals, (k - 1) as nat) {
                Err(e) => Err(e),
                Ok(state) => self.step(g, state, normals[2 * k - 2], normals[2 * k - 1]),
            }
        }
    }

    /// The prices of a simulation and how often the variance was raised to
    /// zero: `DrawCount` unless there are two draws for each step; an empty
    /// path for no steps.
    pub open spec fn trajectory(&self, number_of_steps: nat, normals: Seq<Fixed>) -> Result<
        (Seq<Fixed>, nat),
        PricingError,
    > {
        if normals.len() != 2 * number_of_steps {
            Err(PricingError::DrawCount)
        } else if number_of_steps == 0 {
            Ok((Seq::empty(), 0))
        } else {
            match self.grid(number_of_steps) {
                Err(e) => Err(e),
                Ok(g) => match self.state_after(g, normals, number_of_steps) {
                    Err(e) => Err(e),
                    Ok(last) => Ok(
                        (
                            Seq::new(
                                number_of_steps,
                                |i: int| self.state_after(g, normals, (i + 1) as nat).unwrap().price,
                            ),
                            last.floored as nat,
                        ),
                    ),
                },
            }
        }
    }

    /// Once a step has failed, every later state fails in the same way.
    pub proof fn lemma_failure_persists(&self, g: HestonGrid, normals: Seq<Fixed>, k: nat, n: nat)
        requires
            k <= n,
            self.state_after(g, normals, k) is Err,
        ensures
            self.state_after(g, normals, n) == self.state_after(g, normals, k),
        decreases n,
    {
        if k < n {
            self.lemma_failure_persists(g, normals, k, (n - 1) as nat);
        }
    }

    /// The variance never goes negative: in every simulation that yields a
    /// path, the variance before the first step and after each step, which
    /// are the variances that the steps take the square root of, is zero or
    /// more.
    pub proof fn lemma_variance_never_negative(
        &self,
        number_of_steps: nat,
        normals: Seq<Fixed>,
        k: nat,
    )
        requires
            0 < number_of_steps,
            k <= number_of_steps,
            self.trajectory(number_of_steps, normals) is Ok,
        ensures
            self.grid(number_of_steps) is Ok,
            self.state_after(self.grid(number_of_steps).unwrap(), normals, k) is Ok,
            self.state_after(
                self.grid(number_of_steps).unwrap(),
                normals,
                k,
            ).unwrap().variance.raw >= 0,
    {
        let g = self.grid(number_of_steps).unwrap();
        if k < number_of_steps {
            if self.state_after(g, normals, k + 1) is Err {
                self.lemma_failure_persists(g, normals, k + 1, number_of_steps);
            }
        }
    }

    /// The constants of a simulation in `number_of_steps` steps.
    fn make_grid(&self, number_of_steps: usize) -> (r: Result<HestonGrid, PricingError>)
        ensures
            r == self.grid(number_of_steps as nat),
    {
        let dt: Fixed = self.t.div_count(number_of_steps)?;
        let sqrt_dt: Fixed = dt.sqrt()?;
        let rho_squared: Fixed = self.rho.mul(self.rho)?;
        let mix: Fixed = Fixed::one().sub(rho_squared)?.sqrt()?;
        Ok(HestonGrid { dt, sqrt_dt, mix })
    }

    /// One step of the simulation.
    fn advance(&self, g: &HestonGrid, state: &HestonState, z1: Fixed, z2: Fixed) -> (r: Result<
        HestonState,
        PricingError,
    >)
        requires
            state.floored < usize::MAX,
        ensures
            r == self.step(*g, *state, z1, z2),
    {
        let s: Fixed = state.price;
        let v: Fixed = state.variance;
        let root_before: Fixed = v.sqrt()?;

        let dw_v: Fixed = self.rho.mul(z1)?.add(g.mix.mul(z2)?)?.mul(g.sqrt_dt)?;
        let reversion: Fixed = self.kappa.mul(self.theta.sub(v)?)?.mul(g.dt)?;
        let spread: Fixed = self.sigma.mul(root_before)?.mul(dw_v)?;
        let moved: Fixed = v.add(reversion.add(spread)?)?;
        let fell: bool = moved.raw < 0;
        let variance: Fixed = if fell {
            Fixed::zero()
        } else {
            moved
        };
        let root_v: Fixed = variance.sqrt()?;

        let dw_s: Fixed = z1.mul(g.sqrt_dt)?;
        let drift: Fixed = self.r.mul(s)?.mul(g.dt)?;
        let diffusion: Fixed = s.mul(root_v)?.mul(dw_s)?;
        let price: Fixed = s.add(drift.add(diffusion)?)?;

        let floored: usize = if fell {
            state.floored + 1
        } else {
            state.floored
        };
        Ok(HestonState { price, variance, floored })
    }

    /// Walks the price `number_of_steps` steps forward, driven by `normals`,
    /// two for each step, and counts the steps whose variance had to be raised
    /// to zero.
    pub fn simulate(&self, number_of_steps: usize, normals: &Vec<Fixed>) -> (r: Result<
        HestonPath,
        PricingError,
    >)
        ensures
            match r {
                Ok(p) => self.trajectory(number_of_steps as nat, normals@) == Ok::<
                    (Seq<Fixed>, nat),
                    PricingError,
                >((p.prices@, p.floored as nat)) && p.prices@.len() == number_of_steps,
                Err(e) => self.trajectory(number_of_steps as nat, normals@) == Err::<
                    (Seq<Fixed>, nat),
                    PricingError,
                >(e),
            },
    {
        let count: usize = normals.len();
        if number_of_steps > usize::MAX / 2 || count != 2 * number_of_steps {
            return Err(PricingError::DrawCount);
        }
        let mut s_path: Vec<Fixed> = Vec::new();
        if number_of_steps == 0 {
            assert(s_path@ =~= Seq::<Fixed>::empty());
            return Ok(HestonPath { prices: s_path, floored: 0 });
        }
        let g: HestonGrid = self.make_grid(number_of_steps)?;
        let mut state: HestonState = HestonState { price: self.s0, variance: self.v0, floored: 0 };
        let mut i: usize = 0;
        while i < number_of_steps
            invariant
                i <= number_of_steps,
                number_of_steps <= usize::MAX / 2,
                state.floored <= i,
                normals@.len() == 2 * number_of_steps,
                s_path@.len() == i,
                self.grid(number_of_steps as nat) == Ok::<HestonGrid, PricingError>(g),
                self.state_after(g, normals@, i as nat) == Ok::<HestonState, PricingError>(state),
                forall|j: int|
                    0 <= j < i ==> (#[trigger] self.state_after(g, normals@, (j + 1) as nat))
                        is Ok && self.state_after(g, normals@, (j + 1) as nat).unwrap().price
                        == s_path@[j],
            decreases number_of_steps - i,
        {
            let z1: Fixed = normals[2 * i];
            let z2: Fixed = normals[2 * i + 1];
            let advanced: Result<HestonState, PricingError> = self.advance(&g, &state, z1, z2);
            assert(self.state_after(g, normals@, (i + 1) as nat) == advanced);
            match advanced {
                Ok(next) => {
                    state = next;
                    s_path.push(state.price);
                    i = i + 1;
                },
                Err(e) => {
                    proof {
                        self.lemma_failure_persists(
                            g,
                            normals@,
                            (i + 1) as nat,
                            number_of_steps as nat,
                        );
                    }
                    return Err(e);
                },
            }
        }
        proof {
            let expected = Seq::new(
                number_of_steps as nat,
                |i: int| self.state_after(g, normals@, (i + 1) as nat).unwrap().price,
            );
            assert(s_path@ =~= expected);
        }
        Ok(HestonPath { prices: s_path, floored: state.floored })
    }
}

impl Simulate for HestonProcess {
    open spec fn draws_per_step(&self) -> nat {
        2
    }

    /// The prices of the simulation.
    open spec fn path(&self, number_of_steps: nat, normals: Seq<Fixed>) -> Result<
        Seq<Fixed>,
        PricingError,
    > {
        match self.trajectory(number_of_steps, normals) {
            Err(e) => Err(e),
            Ok(t) => Ok(t.0),
        }
    }

    fn normals_per_step(&self) -> (r: usize) {
        2
    }

    fn generate_price_path(&self, number_of_steps: usize, normals: &Vec<Fixed>) -> (r: Result<
        Vec<Fixed>,
        PricingError,
    >) {
        assert(number_of_steps * self.draws_per_step() == 2 * number_of_steps) by (nonlinear_arith)
            requires
                self.draws_per_step() == 2,
        ;
        let path: HestonPath = self.simulate(number_of_steps, normals)?;
        Ok(path.prices)
    }
}

} // verus!
