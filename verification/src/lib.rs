//! Navigation layer over answer-set solving: sessions over a ground program,
//! route resolution into engine literals, consequence and facet computation,
//! diversified sampling, and route weighting.

pub mod atoms;
pub mod consequence;
pub mod enumerate;
pub mod errors;
pub mod outf2;
pub mod session;
pub mod sieve;
pub mod targets;
pub mod text;
pub mod utils;
pub mod weights;
