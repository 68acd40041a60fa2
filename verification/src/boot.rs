//! What the bootloader hands the kernel, as plain values: the kernel's
//! own code page ranges and the list of pre-loaded applications.

use vstd::prelude::*;
use crate::memory::PageRange;

verus! {

/// One pre-loaded application: its name and where its code goes.  The
/// loader has already parsed the image; the kernel only needs the entry
/// point and the pages to commit.
pub struct AppInfo {
    /// The application's name, as the shell spells it.
    pub name: String,
    /// The entry point of the program.
    pub entry: u64,
    /// First page of the code to commit.
    pub code_start_page: u64,
    /// How many pages of code to commit.
    pub code_pages: u64,
}

impl AppInfo {
    /// The description stays inside the address space, is of sensible
    /// size, and loads below the heap window.
    pub open spec fn wf(self) -> bool {
        &&& self.code_pages >= 1
        &&& self.code_pages <= 0x100000
        &&& self.code_start_page + self.code_pages <= crate::heap::HEAP_START_PAGE
    }
}

/// What the bootloader hands over: the kernel's code pages and the
/// pre-loaded applications.
pub struct BootInfo {
    /// Page ranges holding the kernel's own code.
    pub kernel_pages: Vec<PageRange>,
    /// The pre-loaded applications, if an app list was found.
    pub loaded_apps: Option<Vec<AppInfo>>,
    /// First usable physical frame.
    pub first_frame: u64,
    /// How many usable physical frames the memory map announced.
    pub frame_count: u64,
}

} // verus!
