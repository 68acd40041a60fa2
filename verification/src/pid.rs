//! Process identifiers.

use vstd::prelude::*;

verus! {

/// A process identifier.  Ids are handed out monotonically by the process
/// manager, so an id is unique among all processes ever registered; the id
/// `1` is reserved for the kernel's own bootstrap process.
#[derive(Clone, Copy, PartialEq, Eq, Structural, Debug)]
pub struct ProcessId(pub u16);

/// The kernel bootstrap process always carries this id.
pub const KERNEL_PID: u16 = 1;

} // verus!
