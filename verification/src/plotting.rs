pub mod dither;
pub mod flux;
pub mod gilbert;
pub mod gilbert_laws;
pub mod luma;

pub use dither::{dither, try_dither, DitherAlgorithm};
pub use gilbert::gilbert_d2xy;
pub use luma::Luma16Image;
