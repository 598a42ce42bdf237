//! ML-DSA (FIPS 204) lattice signatures, with the arithmetic, rounding,
//! hint, encoding and parsing logic proved with Verus.

pub mod params;
pub mod constant_time;
pub mod errors;
pub mod consts;
pub mod reduce;
pub mod poly;
pub mod modq;
pub mod twiddles;
pub mod roots;
pub mod ntt;
pub mod ntt_eval;
pub mod rounding;
pub mod symmetric;
pub mod rng;
pub mod sampling;
pub mod packing;
pub mod serialize;
pub mod keygen;
pub mod hints;
pub mod batch;
pub mod sign;
pub mod verify;
pub mod context;
pub mod kat;
pub mod correctness;

pub use params::{DsaParams, MlDsa44, MlDsa65, MlDsa87, N, Q};
pub use batch::{sign_batch, verify_batch};
