//! The notch at the centre of a direct-conversion receiver.

use vstd::prelude::*;

verus! {

/// Default notch width in hertz. Wide enough to follow offset drift with
/// temperature, far narrower than the narrowest channel that is demodulated.
pub const DEFAULT_CUTOFF_HZ: u32 = 1_000;

} // verus!
