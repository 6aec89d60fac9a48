//! What each command decides, apart from the reading and the writing.

pub mod convert;
pub mod create;
pub mod doctor;
pub mod retype;
pub mod verify;
