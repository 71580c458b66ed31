//! Sequence algorithms kept with the two-pointer driver.
pub mod lis;
pub mod shakutori;
