//! The documented error-mode flags.

use vstd::prelude::*;

verus! {

/// `SEM_FAILCRITICALERRORS`.
pub const FAIL_CRITICAL_ERRORS: u32 = 0x0001;

/// `SEM_NOGPFAULTERRORBOX`.
pub const NO_GP_FAULT_ERROR_BOX: u32 = 0x0002;

/// `SEM_NOALIGNMENTFAULTEXCEPT`, which the thread-scoped call refuses.
pub const NO_ALIGNMENT_FAULT_EXCEPT: u32 = 0x0004;

/// `SEM_NOOPENFILEERRORBOX`.
pub const NO_OPEN_FILE_ERROR_BOX: u32 = 0x8000;

} // verus!
