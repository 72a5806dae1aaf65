pub mod heston_model;
