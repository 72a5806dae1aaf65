use vstd::prelude::*;
use crate::fixed::Fixed;

verus! {

/// The parameters of the Heston stochastic-volatility model.
pub struct HestonModel {
    /// Initial asset price.
    pub s0: Fixed,
    /// Initial variance.
    pub v0: Fixed,
    /// Risk-free rate.
    pub r: Fixed,
    /// Rate of mean reversion.
    pub kappa: Fixed,
    /// Long-term variance mean.
    pub theta: Fixed,
    /// Volatility of volatility.
    pub sigma: Fixed,
    /// Correlation between the two Brownian motions.
    pub rho: Fixed,
    /// Time to maturity.
    pub t: Fixed,
}

impl HestonModel {
    /// A model with the given parameters.
    pub fn new(
        s0: Fixed,
        v0: Fixed,
        r: Fixed,
        kappa: Fixed,
        theta: Fixed,
        sigma: Fixed,
        rho: Fixed,
        t: Fixed,
    ) -> (m: HestonModel)
        ensures
            m.s0 == s0,
            m.v0 == v0,
            m.r == r,
            m.kappa == kappa,
            m.theta == theta,
            m.sigma == sigma,
            m.rho == rho,
            m.t == t,
    {
        HestonModel { s0, v0, r, kappa, theta, sigma, rho, t }
    }
}

} // verus!
