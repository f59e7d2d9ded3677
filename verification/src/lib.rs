//! Device verification service: the configuration readers, the encrypted
//! data file, the activity log and the decisions of the verification flow.

use vstd::prelude::*;

pub mod aes_utils;
pub mod check;
pub mod file_utils;
pub mod flags;
pub mod log;
pub mod panel;
pub mod system_utils;
pub mod text;

verus! {

} // verus!
