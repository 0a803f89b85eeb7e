pub mod rng;
pub mod hmac_cap;
pub mod signing;
