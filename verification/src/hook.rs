//! The decisions of the interception layer.
//!
//! Each intercepted call first tries to answer from an override and falls
//! through to the genuine resolver on a miss. Here are the parts of that
//! which decide something: what an entry point answers from an override, how
//! the binding to the genuine resolver comes about, and what a call returns.
//! Looking up symbols, allocating and calling the genuine resolver are left
//! to the caller.

use vstd::prelude::*;
use crate::address::Address;
use crate::native::{build_address_info, build_host_record, AddressInfo, HostRecord};
use crate::path::Component;
use crate::resolve::{resolve, Disk};

verus! {

/// The three resolver entry points that are intercepted.
#[derive(Debug, Clone, Copy, PartialEq, Eq, Structural)]
pub enum EntryPoint {
    /// The legacy lookup by name.
    GetHostByName,
    /// The legacy lookup by name and address family.
    GetHostByName2,
    /// The modern lookup by name and service.
    GetAddrInfo,
}

/// How calls of the entry points are redirected.
#[derive(Debug, Clone, Copy, PartialEq, Eq, Structural)]
pub enum Mechanism {
    /// The genuine implementations are looked up in the symbol chain on the
    /// first call and remembered.
    DeferredBinding,
    /// The dynamic linker substitutes the entry points at load time; the
    /// genuine implementations stay callable by name.
    LinkTimeSubstitution,
}

/// Which of the genuine implementations can be called.
#[derive(Debug, Clone, Copy, PartialEq, Eq, Structural)]
pub struct GenuineResolver {
    pub gethostbyname: bool,
    pub gethostbyname2: bool,
    pub getaddrinfo: bool,
}

impl GenuineResolver {
    /// Whether the genuine implementation of `entry` can be called.
    pub open spec fn has(self, entry: EntryPoint) -> bool {
        match entry {
            EntryPoint::GetHostByName => self.gethostbyname,
            EntryPoint::GetHostByName2 => self.gethostbyname2,
            EntryPoint::GetAddrInfo => self.getaddrinfo,
        }
    }

    /// All three genuine implementations.
    pub open spec fn all() -> GenuineResolver {
        GenuineResolver { gethostbyname: true, gethostbyname2: true, getaddrinfo: true }
    }
}

/// The binding of the layer to the genuine resolver.
#[derive(Debug, Clone, Copy, PartialEq, Eq, Structural)]
pub enum Binding {
    /// No call has come in yet, and nothing was looked up.
    Uninitialized,
    /// The genuine implementations were looked up; these were found.
    Ready(GenuineResolver),
}

/// What an intercepted call returns.
#[derive(Debug, PartialEq, Eq)]
pub enum Verdict<T> {
    /// The result that was made from an override.
    Synthesized(T),
    /// Whatever the genuine implementation of the entry point returns.
    CallGenuine(EntryPoint),
    /// The failure value of the entry point: there is no override and no
    /// genuine implementation to call.
    Fail,
}

/// The status that the modern lookup returns on success.
pub const STATUS_SUCCESS: i32 = 0;

/// The status that the modern lookup returns where it has nothing to call.
pub const STATUS_FAILURE: i32 = -1;

impl Binding {
    /// The binding a process starts with.
    pub open spec fn initial(mechanism: Mechanism) -> Binding {
        match mechanism {
            Mechanism::DeferredBinding => Binding::Uninitialized,
            Mechanism::LinkTimeSubstitution => Binding::Ready(GenuineResolver::all()),
        }
    }

    /// The binding after the symbols that `found` tells of were looked up:
    /// the first lookup is remembered, a later one changes nothing.
    pub open spec fn bound(self, found: GenuineResolver) -> Binding {
        match self {
            Binding::Uninitialized => Binding::Ready(found),
            Binding::Ready(_) => self,
        }
    }

    /// Whether the genuine implementation of `entry` can be called.
    pub open spec fn reaches(self, entry: EntryPoint) -> bool {
        match self {
            Binding::Uninitialized => false,
            Binding::Ready(genuine) => genuine.has(entry),
        }
    }

    /// What a call of `entry` returns: the synthesized result where there is
    /// one, else what the genuine implementation returns, else the failure
    /// value.
    pub open spec fn verdict<T>(self, entry: EntryPoint, synthesized: Option<T>) -> Verdict<T> {
        match synthesized {
            Some(result) => Verdict::Synthesized(result),
            None => if self.reaches(entry) {
                Verdict::CallGenuine(entry)
            } else {
                Verdict::Fail
            },
        }
    }

    /// The binding a process starts with: under deferred binding nothing is
    /// bound, under link-time substitution everything is.
    pub fn new(mechanism: Mechanism) -> (r: Binding)
        ensures
            r == Binding::initial(mechanism),
    {
        match mechanism {
            Mechanism::DeferredBinding => Binding::Uninitialized,
            Mechanism::LinkTimeSubstitution => Binding::Ready(
                GenuineResolver { gethostbyname: true, gethostbyname2: true, getaddrinfo: true },
            ),
        }
    }

    /// Whether the genuine implementations have yet to be looked up.
    pub fn needs_lookup(&self) -> (r: bool)
        ensures
            r == (*self is Uninitialized),
    {
        match self {
            Binding::Uninitialized => true,
            Binding::Ready(_) => false,
        }
    }

    /// Records the outcome of the symbol lookup. Only the first lookup
    /// counts: a binding that is ready stays as it is.
    pub fn bind(&mut self, found: GenuineResolver)
        ensures
            *final(self) == old(self).bound(found),
            *final(self) is Ready,
    {
        match self {
            Binding::Uninitialized => {
                *self = Binding::Ready(found);
            },
            Binding::Ready(_) => {},
        }
    }

    /// Decides what a call of `entry` returns, given the result that was
    /// synthesized from an override, if any.
    pub fn dispatch<T>(&self, entry: EntryPoint, synthesized: Option<T>) -> (r: Verdict<T>)
        ensures
            r == self.verdict(entry, synthesized),
    {
        match synthesized {
            Some(result) => Verdict::Synthesized(result),
            None => {
                let reaches = match self {
                    Binding::Uninitialized => false,
                    Binding::Ready(genuine) => match entry {
                        EntryPoint::GetHostByName => genuine.gethostbyname,
                        EntryPoint::GetHostByName2 => genuine.gethostbyname2,
                        EntryPoint::GetAddrInfo => genuine.getaddrinfo,
                    },
                };
                if reaches {
                    Verdict::CallGenuine(entry)
                } else {
                    Verdict::Fail
                }
            },
        }
    }
}

impl<T> Verdict<T> {
    /// The status of the modern lookup that the verdict fixes: success for a
    /// synthesized result, failure where nothing can be called, and none
    /// where the genuine implementation decides.
    pub open spec fn status(self) -> Option<i32> {
        match self {
            Verdict::Synthesized(_) => Some(STATUS_SUCCESS),
            Verdict::CallGenuine(_) => None,
            Verdict::Fail => Some(STATUS_FAILURE),
        }
    }

    /// The status of the modern lookup that the verdict fixes.
    pub fn addrinfo_status(&self) -> (r: Option<i32>)
        ensures
            r == self.status(),
    {
        match self {
            Verdict::Synthesized(_) => Some(STATUS_SUCCESS),
            Verdict::CallGenuine(_) => None,
            Verdict::Fail => Some(STATUS_FAILURE),
        }
    }
}

/// The answer of the legacy lookup by name from an override: the host record
/// for `name` and the address that the override files gave it. A call without
/// a name, or with a name that the files give no address, has none.
pub fn hook_gethostbyname(name: Option<&str>, resolved: Option<Address>) -> (r: Option<HostRecord>)
    ensures
        match (name, resolved) {
            (Some(hostname), Some(addr)) => r matches Some(record) && record.answers(
                hostname@,
                addr,
            ) && record.wf(),
            _ => r is None,
        },
{
    match (name, resolved) {
        (Some(hostname), Some(addr)) => Some(build_host_record(hostname, addr)),
        _ => None,
    }
}

/// The answer of the legacy lookup by name and address family from an
/// override. The family that the caller asked for plays no part: the record
/// has the family of the address that the override files gave.
pub fn hook_gethostbyname2(name: Option<&str>, family: i32, resolved: Option<Address>) -> (r:
    Option<HostRecord>)
    ensures
        match (name, resolved) {
            (Some(hostname), Some(addr)) => r matches Some(record) && record.answers(
                hostname@,
                addr,
            ) && record.wf(),
            _ => r is None,
        },
{
    hook_gethostbyname(name, resolved)
}

/// The answer of the modern lookup from an override: the address-info node
/// for `node` and the address that the override files gave it. A call without
/// a node name, or with a name that the files give no address, has none.
pub fn hook_getaddrinfo(node: Option<&str>, resolved: Option<Address>) -> (r: Option<AddressInfo>)
    ensures
        match (node, resolved) {
            (Some(name), Some(addr)) => r matches Some(info) && info.answers(name@, addr)
                && info.wf(),
            _ => r is None,
        },
{
    match (node, resolved) {
        (Some(name), Some(addr)) => Some(build_address_info(name, addr)),
        _ => None,
    }
}

/// Without an override a call is passed through. Where the override files
/// on the way from `cwd` up to the root give `hostname` no address, and a
/// result is synthesized from such an address only, a call of an entry point
/// that reaches its genuine implementation returns what that implementation
/// returns.
pub proof fn lemma_pass_through<T>(
    binding: Binding,
    entry: EntryPoint,
    disk: Disk,
    cwd: Seq<Component>,
    hostname: Seq<char>,
    env: Option<Seq<char>>,
    synthesized: Option<T>,
)
    requires
        binding.reaches(entry),
        resolve(disk, cwd, hostname, env) is None,
        synthesized is Some ==> resolve(disk, cwd, hostname, env) is Some,
    ensures
        binding.verdict(entry, synthesized) == Verdict::<T>::CallGenuine(entry),
{
}

/// Under link-time substitution every entry point reaches its genuine
/// implementation from the start.
pub proof fn lemma_substitution_is_ready(entry: EntryPoint)
    ensures
        Binding::initial(Mechanism::LinkTimeSubstitution).reaches(entry),
{
}

/// The genuine implementations are bound at most once: after the first
/// lookup, a further one changes nothing.
pub proof fn lemma_bound_once(binding: Binding, first: GenuineResolver, second: GenuineResolver)
    ensures
        binding.bound(first).bound(second) == binding.bound(first),
        binding.bound(first) is Ready,
{
}

} // verus!
