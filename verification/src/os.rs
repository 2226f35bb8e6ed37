//! The operating systems the interception layer knows how to hook.

use vstd::prelude::*;
use crate::text::{chars_of, same_text};

verus! {

/// The family of operating system a process runs on.
#[derive(Debug, Clone, Copy, PartialEq, Eq, Structural)]
pub enum OsType {
    MacOS,
    Linux,
    Windows,
}

/// The operating system family that the name `os` stands for, if it is one of
/// the supported ones.
pub open spec fn os_of_name(os: Seq<char>) -> Option<OsType> {
    if os == "macos"@ {
        Some(OsType::MacOS)
    } else if os == "linux"@ || os == "freebsd"@ {
        Some(OsType::Linux)
    } else if os == "windows"@ {
        Some(OsType::Windows)
    } else {
        None
    }
}

/// Maps the name of an operating system, as the platform reports it, to its
/// family. Names outside the supported set give `None`.
pub fn get_os(os: &str) -> (r: Option<OsType>)
    ensures
        r == os_of_name(os@),
{
    let name = chars_of(os);
    if same_text(name.as_slice(), chars_of("macos").as_slice()) {
        Some(OsType::MacOS)
    } else if same_text(name.as_slice(), chars_of("linux").as_slice()) || same_text(
        name.as_slice(),
        chars_of("freebsd").as_slice(),
    ) {
        Some(OsType::Linux)
    } else if same_text(name.as_slice(), chars_of("windows").as_slice()) {
        Some(OsType::Windows)
    } else {
        None
    }
}

} // verus!
