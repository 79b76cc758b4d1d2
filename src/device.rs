//! The operating system and processor architecture a manifest entry targets.

use vstd::prelude::*;

verus! {

/// Operating systems a manifest can target.
#[derive(Clone, Copy, Debug, PartialEq, Eq, Structural)]
pub enum OS {
    Windows,
    Linux,
    Macos,
}

/// Processor architectures a manifest can target.
#[derive(Clone, Copy, Debug, PartialEq, Eq, Structural)]
pub enum Arch {
    X86_64,
    X86,
}

/// The (operating system, architecture) pair that selects a manifest entry.
#[derive(Clone, Copy, Debug, PartialEq, Eq, Structural)]
pub struct Device {
    pub os: OS,
    pub arch: Arch,
}

/// The operating system named by `name`, in the spelling of `std::env::consts::OS`.
pub open spec fn os_named(name: Seq<char>) -> Option<OS> {
    if name == "windows"@ {
        Some(OS::Windows)
    } else if name == "linux"@ {
        Some(OS::Linux)
    } else if name == "macos"@ {
        Some(OS::Macos)
    } else {
        None
    }
}

/// The architecture named by `name`, in the spelling of `std::env::consts::ARCH`.
pub open spec fn arch_named(name: Seq<char>) -> Option<Arch> {
    if name == "x86_64"@ {
        Some(Arch::X86_64)
    } else if name == "x86"@ {
        Some(Arch::X86)
    } else {
        None
    }
}

/// Whether two strings hold the same characters.
pub fn same_text(a: &str, b: &str) -> (r: bool)
    ensures
        r == (a@ == b@),
{
    let n = a.unicode_len();
    if n != b.unicode_len() {
        return false;
    }
    let mut i: usize = 0;
    while i < n
        invariant
            n == a@.len(),
            n == b@.len(),
            i <= n,
            forall|j: int| 0 <= j < i ==> a@[j] == b@[j],
        decreases n - i,
    {
        if a.get_char(i) != b.get_char(i) {
            return false;
        }
        i = i + 1;
    }
    assert(a@ =~= b@);
    true
}

impl Device {
    /// The device described by a target's operating system and architecture
    /// names (the values of `std::env::consts::OS` and `ARCH`), or `None` for a
    /// target that no manifest can describe.
    pub fn get_specific(os: &str, arch: &str) -> (r: Option<Device>)
        ensures
            r is Some <==> (os_named(os@) is Some && arch_named(arch@) is Some),
            r is Some ==> r->0 == (Device { os: os_named(os@)->0, arch: arch_named(arch@)->0 }),
    {
        let os_kind = if same_text(os, "windows") {
            OS::Windows
        } else if same_text(os, "linux") {
            OS::Linux
        } else if same_text(os, "macos") {
            OS::Macos
        } else {
            return None;
        };
        let arch_kind = if same_text(arch, "x86_64") {
            Arch::X86_64
        } else if same_text(arch, "x86") {
            Arch::X86
        } else {
            return None;
        };
        Some(Device { os: os_kind, arch: arch_kind })
    }
}

} // verus!
