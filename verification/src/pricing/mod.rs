pub mod monte_carlo;
