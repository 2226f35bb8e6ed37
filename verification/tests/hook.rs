use hosts_hook::address::Address;
use hosts_hook::hook::{
    hook_getaddrinfo, hook_gethostbyname, hook_gethostbyname2, Binding, EntryPoint,
    GenuineResolver, Mechanism, Verdict, STATUS_FAILURE, STATUS_SUCCESS,
};
use hosts_hook::native::AddressFamily;
use hosts_hook::{get_os, OsType};

const ALL: GenuineResolver =
    GenuineResolver { gethostbyname: true, gethostbyname2: true, getaddrinfo: true };
const ENTRIES: [EntryPoint; 3] =
    [EntryPoint::GetHostByName, EntryPoint::GetHostByName2, EntryPoint::GetAddrInfo];

#[test]
fn deferred_binding_starts_uninitialized() {
    let b = Binding::new(Mechanism::DeferredBinding);
    assert_eq!(b, Binding::Uninitialized);
    assert!(b.needs_lookup());
}

#[test]
fn link_time_substitution_is_ready_from_load() {
    let b = Binding::new(Mechanism::LinkTimeSubstitution);
    assert_eq!(b, Binding::Ready(ALL));
    assert!(!b.needs_lookup());
    for e in ENTRIES {
        assert_eq!(b.dispatch::<u8>(e, None), Verdict::CallGenuine(e));
    }
}

#[test]
fn symbols_are_bound_once() {
    let mut b = Binding::new(Mechanism::DeferredBinding);
    let first = GenuineResolver { gethostbyname: true, gethostbyname2: false, getaddrinfo: true };
    b.bind(first);
    assert_eq!(b, Binding::Ready(first));
    assert!(!b.needs_lookup());
    b.bind(ALL);
    assert_eq!(b, Binding::Ready(first));
}

#[test]
fn a_miss_passes_the_call_through() {
    let mut b = Binding::new(Mechanism::DeferredBinding);
    b.bind(ALL);
    for e in ENTRIES {
        assert_eq!(b.dispatch::<&str>(e, None), Verdict::CallGenuine(e));
    }
}

#[test]
fn a_hit_never_calls_the_genuine_resolver() {
    let mut b = Binding::new(Mechanism::DeferredBinding);
    b.bind(ALL);
    for e in ENTRIES {
        assert_eq!(b.dispatch(e, Some(7)), Verdict::Synthesized(7));
    }
    let unbound = Binding::new(Mechanism::DeferredBinding);
    assert_eq!(unbound.dispatch(EntryPoint::GetAddrInfo, Some(7)), Verdict::Synthesized(7));
}

#[test]
fn a_missing_symbol_fails_the_call() {
    let mut b = Binding::new(Mechanism::DeferredBinding);
    b.bind(GenuineResolver { gethostbyname: false, gethostbyname2: true, getaddrinfo: false });
    assert_eq!(b.dispatch::<u8>(EntryPoint::GetHostByName, None), Verdict::Fail);
    assert_eq!(
        b.dispatch::<u8>(EntryPoint::GetHostByName2, None),
        Verdict::CallGenuine(EntryPoint::GetHostByName2)
    );
    assert_eq!(b.dispatch::<u8>(EntryPoint::GetAddrInfo, None), Verdict::Fail);
    let unbound = Binding::new(Mechanism::DeferredBinding);
    assert_eq!(unbound.dispatch::<u8>(EntryPoint::GetHostByName, None), Verdict::Fail);
}

#[test]
fn status_of_the_modern_lookup() {
    assert_eq!(STATUS_SUCCESS, 0);
    assert_eq!(STATUS_FAILURE, -1);
    assert_eq!(Verdict::Synthesized(1).addrinfo_status(), Some(0));
    assert_eq!(Verdict::<u8>::Fail.addrinfo_status(), Some(-1));
    assert_eq!(Verdict::<u8>::CallGenuine(EntryPoint::GetAddrInfo).addrinfo_status(), None);
}

#[test]
fn legacy_hooks_build_a_record_on_a_hit() {
    let addr = Address::V4([10, 0, 0, 5]);
    let hit = hook_gethostbyname(Some("svc.local"), Some(addr)).unwrap();
    assert_eq!(hit.name, "svc.local");
    assert_eq!(hit.addresses, vec![vec![10u8, 0, 0, 5]]);
    assert_eq!(hook_gethostbyname(Some("svc.local"), None), None);
    assert_eq!(hook_gethostbyname(None, Some(addr)), None);
    assert_eq!(hook_gethostbyname(None, None), None);
    let mut v6 = [0u8; 16];
    v6[15] = 1;
    let hit2 = hook_gethostbyname2(Some("svc.local"), 2, Some(Address::V6(v6))).unwrap();
    assert_eq!(hit2.family, AddressFamily::Inet6);
    assert_eq!(hit2.length, 16);
    assert_eq!(hit2, hook_gethostbyname2(Some("svc.local"), 10, Some(Address::V6(v6))).unwrap());
    assert_eq!(hook_gethostbyname2(Some("svc.local"), 2, None), None);
    assert_eq!(hook_gethostbyname2(None, 2, Some(addr)), None);
}

#[test]
fn modern_hook_needs_a_name_and_an_address() {
    let hit = hook_getaddrinfo(Some("svc.local"), Some(Address::V4([10, 0, 0, 5]))).unwrap();
    assert_eq!(hit.canonical_name, "svc.local");
    assert!(hit.next.is_none());
    assert_eq!(hook_getaddrinfo(Some("svc.local"), None), None);
    assert_eq!(hook_getaddrinfo(None, Some(Address::V4([10, 0, 0, 5]))), None);
    assert_eq!(hook_getaddrinfo(None, None), None);
}

#[test]
fn operating_system_names() {
    assert_eq!(get_os("macos"), Some(OsType::MacOS));
    assert_eq!(get_os("linux"), Some(OsType::Linux));
    assert_eq!(get_os("freebsd"), Some(OsType::Linux));
    assert_eq!(get_os("windows"), Some(OsType::Windows));
    assert_eq!(get_os("android"), None);
    assert_eq!(get_os("Linux"), None);
    assert_eq!(get_os(""), None);
}
