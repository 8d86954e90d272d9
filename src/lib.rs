//! A growable sequence stored as a list of equal-sized chunks plus a
//! staging buffer for the newest elements.

pub mod buffered_vec;
pub mod bunch;
pub mod bunch_errors;
pub mod order;

pub use buffered_vec::BufferedVec;
pub use bunch::Bunch;
