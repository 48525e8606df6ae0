//! A search for Mersenne primes: candidate exponents, the Lucas–Lehmer test,
//! the partition of the work among workers, the bookkeeping they share, and
//! the live status report.
pub mod aggregate;
pub mod args;
pub mod bignum;
pub mod decimal;
pub mod distributor;
pub mod prime_generator;
pub mod primes;
pub mod server;
pub mod time;
