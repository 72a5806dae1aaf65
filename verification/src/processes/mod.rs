use vstd::prelude::*;
use crate::error::PricingError;
use crate::fixed::Fixed;

pub mod black_scholes_process;
pub mod heston_process;

verus! {

/// A model of an asset price that can be walked forward in equal steps, each
/// driven by standard-normal draws that the caller supplies.
pub trait Simulate {
    /// How many standard-normal draws one step consumes.
    spec fn draws_per_step(&self) -> nat;

    /// The path that `number_of_steps` steps over the horizon give when driven
    /// by `normals`: the price after each step, the initial price left out.
    spec fn path(&self, number_of_steps: nat, normals: Seq<Fixed>) -> Result<
        Seq<Fixed>,
        PricingError,
    >;

    /// How many standard-normal draws one step consumes.
    fn normals_per_step(&self) -> (r: usize)
        ensures
            r == self.draws_per_step(),
    ;

    /// Walks the price `number_of_steps` steps forward, driven by `normals`,
    /// of which there must be as many as the steps consume: `DrawCount`
    /// otherwise.
    fn generate_price_path(&self, number_of_steps: usize, normals: &Vec<Fixed>) -> (r: Result<
        Vec<Fixed>,
        PricingError,
    >)
        ensures
            match r {
                Ok(prices) => self.path(number_of_steps as nat, normals@) == Ok::<
                    Seq<Fixed>,
                    PricingError,
                >(prices@) && prices@.len() == number_of_steps,
                Err(e) => self.path(number_of_steps as nat, normals@) == Err::<
                    Seq<Fixed>,
                    PricingError,
                >(e),
            },
            normals@.len() != number_of_steps * self.draws_per_step() ==> r == Err::<
                Vec<Fixed>,
                PricingError,
            >(PricingError::DrawCount),
    ;
}

} // verus!
