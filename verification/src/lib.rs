//! Project-local host name overrides: the lookup rules, the model of the
//! native resolver results, and the decisions of the interception layer.
//!
//! A process that is hooked answers a name lookup from a `hosts` file found
//! on the way from its working directory up to the root, before it asks the
//! system resolver. This crate holds everything of that which can be
//! computed on plain values:
//!
//! - [`address`]: addresses and their textual form;
//! - [`hosts_file`]: the records of an override file and the lookup in them;
//! - [`path`]: paths as lists of components;
//! - [`resolve`]: what a lookup answers for a given disk, and which override wins;
//! - [`finder`]: the walk up the directories, one probe at a time;
//! - [`native`]: the native result structures, field by field;
//! - [`hook`]: what an intercepted call returns;
//! - [`os`]: the operating systems that can be hooked;
//! - [`text`]: helpers on sequences of characters.
//!
//! Reading files, allocating C structures and calling the system resolver are
//! left to the caller.

pub mod address;
pub mod finder;
pub mod hook;
pub mod hosts_file;
pub mod native;
pub mod os;
pub mod path;
pub mod resolve;
pub mod text;

pub use address::Address;
pub use finder::{find_by_hostname, HostsFile, HostsUpwardFinder, Search};
pub use hook::{hook_getaddrinfo, hook_gethostbyname, hook_gethostbyname2};
pub use hosts_file::find;
pub use native::{build_address_info, build_host_record, AddressInfo, HostRecord};
pub use os::{get_os, OsType};
pub use path::{normalize_path, PathComponent};
