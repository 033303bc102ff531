//! The strike pipeline of a dot-matrix file printer: the byte gate, the hex
//! dump shown before and after a strike, the texts handed to the Forth
//! kernel, and the run of steps that a strike takes.

pub mod constraints;
pub mod error;
pub mod hexdump;
pub mod pipeline;
pub mod protocol;
pub mod strike;
pub mod text;
pub mod validate;

pub use error::StrikeError;
pub use hexdump::bytes_to_hexdump;
pub use pipeline::{
    check_gforth, preview_forth_strike, read_substrate_hex, verify_substrate, PreviewResult,
    ProcessOutcome, StrikePayload, VerifyResult,
};
pub use strike::{execute_forth_strike, StrikeAction, StrikeEvent, StrikeRun};
pub use validate::{find_contaminants, validate_byte, validate_strict, Contaminant};
