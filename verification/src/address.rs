//! Internet addresses and their textual form.

use vstd::prelude::*;
use vstd::slice::slice_subrange;
use crate::text::{chars_of, fields, lemma_fields_chars, split, texts};

verus! {

/// An IPv4 or IPv6 address, held as its octets in network order.
#[derive(Debug, Clone, Copy, PartialEq, Eq)]
pub enum Address {
    V4([u8; 4]),
    V6([u8; 16]),
}

impl Address {
    /// The octets of the address in network order: 4 for IPv4, 16 for IPv6.
    pub open spec fn octets(self) -> Seq<u8> {
        match self {
            Address::V4(a) => a@,
            Address::V6(a) => a@,
        }
    }

    /// The octets of the address in network order.
    pub fn to_octets(&self) -> (r: Vec<u8>)
        ensures
            r@ == self.octets(),
            self is V4 ==> r@.len() == 4,
            self is V6 ==> r@.len() == 16,
    {
        let mut r: Vec<u8> = Vec::new();
        match self {
            Address::V4(a) => {
                let mut i: usize = 0;
                while i < 4
                    invariant
                        i <= 4,
                        r@ == a@.take(i as int),
                    decreases 4 - i,
                {
                    r.push(a[i]);
                    i += 1;
                }
                assert(a@.take(4) == a@);
            },
            Address::V6(a) => {
                let mut i: usize = 0;
                while i < 16
                    invariant
                        i <= 16,
                        r@ == a@.take(i as int),
                    decreases 16 - i,
                {
                    r.push(a[i]);
                    i += 1;
                }
                assert(a@.take(16) == a@);
            },
        }
        r
    }
}

/// The value of `c` as a digit in the given radix, for the ten decimal digits
/// and the letters `a` to `f` in either case.
pub open spec fn digit_value(c: char, radix: nat) -> Option<nat> {
    let n = c as nat;
    let v: int = if 0x30 <= n <= 0x39 {
        n - 0x30
    } else if 0x61 <= n <= 0x66 {
        n - 0x61 + 10
    } else if 0x41 <= n <= 0x46 {
        n - 0x41 + 10
    } else {
        radix as int
    };
    if v < radix {
        Some(v as nat)
    } else {
        None
    }
}

/// Every character of `t` is a digit in the given radix.
pub open spec fn all_digits(t: Seq<char>, radix: nat) -> bool {
    forall|i: int| 0 <= i < t.len() ==> (#[trigger] digit_value(t[i], radix)) is Some
}

/// The number that the digits of `t` write in the given radix, most
/// significant digit first.
pub open spec fn number(t: Seq<char>, radix: nat) -> nat
    decreases t.len(),
{
    if t.len() == 0 {
        0
    } else {
        number(t.drop_last(), radix) * radix + digit_value(t.last(), radix).unwrap()
    }
}

/// The octet that `t` writes in decimal: one to three digits, no leading zero
/// before another digit, and a value of at most 255.
pub open spec fn octet_of(t: Seq<char>) -> Option<u8> {
    if 1 <= t.len() <= 3 && all_digits(t, 10) && (t.len() == 1 || t[0] != '0') && number(t, 10)
        <= 255 {
        Some(number(t, 10) as u8)
    } else {
        None
    }
}

/// The 16-bit group that `t` writes in hexadecimal: one to four digits.
pub open spec fn group_of(t: Seq<char>) -> Option<u16> {
    if 1 <= t.len() <= 4 && all_digits(t, 16) {
        Some(number(t, 16) as u16)
    } else {
        None
    }
}

/// The IPv4 address that `s` writes: four decimal octets with a dot between
/// them.
pub open spec fn ipv4_of(s: Seq<char>) -> Option<[u8; 4]> {
    let f = fields(s, '.');
    if f.len() == 4 && octet_of(f[0]) is Some && octet_of(f[1]) is Some && octet_of(f[2]) is Some
        && octet_of(f[3]) is Some {
        Some([octet_of(f[0])->0, octet_of(f[1])->0, octet_of(f[2])->0, octet_of(f[3])->0])
    } else {
        None
    }
}

/// The value of `c` as a digit in the given radix.
fn digit(c: char, radix: u32) -> (r: Option<u32>)
    requires
        radix <= 16,
    ensures
        r is Some <==> digit_value(c, radix as nat) is Some,
        r matches Some(v) ==> v == digit_value(c, radix as nat)->0 && v < radix,
{
    let n: u32 = c as u32;
    let v: u32 = if 0x30 <= n && n <= 0x39 {
        n - 0x30
    } else if 0x61 <= n && n <= 0x66 {
        n - 0x61 + 10
    } else if 0x41 <= n && n <= 0x46 {
        n - 0x41 + 10
    } else {
        radix
    };
    if v < radix {
        Some(v)
    } else {
        None
    }
}

/// Reads `t` as a number of one to `max_digits` digits in the given radix.
fn parse_number(t: &[char], radix: u32, max_digits: usize) -> (r: Option<u32>)
    requires
        radix <= 16,
        max_digits <= 4,
    ensures
        r is Some <==> 1 <= t@.len() <= max_digits && all_digits(t@, radix as nat),
        r matches Some(v) ==> v == number(t@, radix as nat) && v <= 0xFFFF,
{
    if t.len() < 1 || t.len() > max_digits {
        return None;
    }
    let mut v: u32 = 0;
    let mut i: usize = 0;
    while i < t.len()
        invariant
            radix <= 16,
            i <= t.len() <= 4,
            all_digits(t@.take(i as int), radix as nat),
            v == number(t@.take(i as int), radix as nat),
            i == 0 ==> v == 0,
            i == 1 ==> v < 0x10,
            i == 2 ==> v < 0x100,
            i == 3 ==> v < 0x1000,
            i == 4 ==> v < 0x10000,
        decreases t.len() - i,
    {
        match digit(t[i], radix) {
            None => {
                assert(digit_value(t@[i as int], radix as nat) is None);
                return None;
            },
            Some(d) => {
                assert(t@.take(i + 1).drop_last() == t@.take(i as int));
                assert(t@.take(i + 1).last() == t@[i as int]);
                assert(v * radix + d < 0x10000) by (nonlinear_arith)
                    requires
                        radix <= 16,
                        d < radix,
                        i < 4,
                        i == 0 ==> v == 0,
                        i == 1 ==> v < 0x10,
                        i == 2 ==> v < 0x100,
                        i == 3 ==> v < 0x1000,
                {
                    assert(v * radix <= v * 16);
                }
                assert((i + 1 == 1 ==> v * radix + d < 0x10) && (i + 1 == 2 ==> v * radix + d
                    < 0x100) && (i + 1 == 3 ==> v * radix + d < 0x1000)) by (nonlinear_arith)
                    requires
                        radix <= 16,
                        d < radix,
                        i == 0 ==> v == 0,
                        i == 1 ==> v < 0x10,
                        i == 2 ==> v < 0x100,
                        i == 3 ==> v < 0x1000,
                {
                    assert(v * radix <= v * 16);
                }
                assert forall|j: int| 0 <= j < i + 1 implies (#[trigger] digit_value(
                    t@.take(i + 1)[j],
                    radix as nat,
                )) is Some by {
                    if j < i {
                        assert(t@.take(i + 1)[j] == t@.take(i as int)[j]);
                    }
                }
                v = v * radix + d;
                i += 1;
            },
        }
    }
    assert(t@.take(i as int) == t@);
    Some(v)
}

/// Reads `t` as a decimal octet.
fn parse_octet(t: &[char]) -> (r: Option<u8>)
    ensures
        r == octet_of(t@),
{
    match parse_number(t, 10, 3) {
        None => None,
        Some(v) => {
            if (t.len() > 1 && t[0] == '0') || v > 255 {
                None
            } else {
                Some(v as u8)
            }
        },
    }
}

/// Reads `t` as a hexadecimal group of 16 bits.
fn parse_group(t: &[char]) -> (r: Option<u16>)
    ensures
        r == group_of(t@),
{
    match parse_number(t, 16, 4) {
        None => None,
        Some(v) => Some(v as u16),
    }
}

/// Reads `s` as an IPv4 address in dotted decimal form.
pub fn parse_ipv4(s: &[char]) -> (r: Option<[u8; 4]>)
    ensures
        r == ipv4_of(s@),
{
    let f = split(s, '.');
    if f.len() != 4 {
        return None;
    }
    assert(texts(f@)[0] == f@[0]@ && texts(f@)[1] == f@[1]@ && texts(f@)[2] == f@[2]@ && texts(
        f@,
    )[3] == f@[3]@);
    let a = match parse_octet(f[0]) {
        Some(a) => a,
        None => { return None; },
    };
    let b = match parse_octet(f[1]) {
        Some(b) => b,
        None => { return None; },
    };
    let c = match parse_octet(f[2]) {
        Some(c) => c,
        None => { return None; },
    };
    let d = match parse_octet(f[3]) {
        Some(d) => d,
        None => { return None; },
    };
    let r = [a, b, c, d];
    assert(r =~= ipv4_of(s@)->0);
    Some(r)
}

/// Whether `::` stands at position `j` of `s`.
pub open spec fn gap_at(s: Seq<char>, j: int) -> bool {
    0 <= j && j + 1 < s.len() && s[j] == ':' && s[j + 1] == ':'
}

/// The index of the first `::` in `s`, or the length of `s` where it holds
/// none.
pub open spec fn gap_index(s: Seq<char>) -> int
    decreases s.len(),
{
    if s.len() < 2 {
        s.len() as int
    } else if s[0] == ':' && s[1] == ':' {
        0
    } else {
        1 + gap_index(s.drop_first())
    }
}

/// `gap_index` is the only position that is either the first `::` or, with no
/// `::` anywhere, the end.
pub proof fn lemma_gap_index(s: Seq<char>, k: int)
    requires
        0 <= k <= s.len(),
        forall|j: int| 0 <= j < k ==> !gap_at(s, j),
        k < s.len() ==> gap_at(s, k),
    ensures
        gap_index(s) == k,
    decreases s.len(),
{
    if s.len() < 2 {
        assert(k < s.len() ==> gap_at(s, k));
    } else if s[0] == ':' && s[1] == ':' {
        assert(gap_at(s, 0));
    } else {
        let t = s.drop_first();
        assert(!gap_at(s, 0));
        if k - 1 < t.len() {
            assert(gap_at(s, k));
            assert(t[k - 1] == s[k] && t[k] == s[k + 1]);
            assert(gap_at(t, k - 1));
        }
        assert forall|j: int| 0 <= j < k - 1 implies !gap_at(t, j) by {
            assert(!gap_at(s, j + 1));
            if j + 1 < t.len() {
                assert(t[j] == s[j + 1] && t[j + 1] == s[j + 2]);
            }
        }
        lemma_gap_index(t, k - 1);
    }
}

/// The octets of an optional list with `head` put in front of it.
pub open spec fn prefixed(head: Seq<u8>, rest: Option<Seq<u8>>) -> Option<Seq<u8>> {
    match rest {
        Some(r) => Some(head + r),
        None => None,
    }
}

/// The two octets of a 16-bit group, high octet first.
pub open spec fn group_octets(g: u16) -> Seq<u8> {
    seq![(g / 256) as u8, (g % 256) as u8]
}

/// The octets that a list of fields writes: each field a hexadecimal group of
/// two octets, except that, where `embedded` allows it, the last field may be
/// an IPv4 address of four octets.
pub open spec fn groups(f: Seq<Seq<char>>, embedded: bool) -> Option<Seq<u8>>
    decreases f.len(),
{
    if f.len() == 0 {
        Some(Seq::empty())
    } else if f.len() == 1 && embedded && ipv4_of(f[0]) is Some {
        Some(ipv4_of(f[0])->0@)
    } else {
        match group_of(f[0]) {
            Some(g) => prefixed(group_octets(g), groups(f.drop_first(), embedded)),
            None => None,
        }
    }
}

/// The octets that `t` writes as a list of groups with a colon between them.
/// The empty text is the empty list.
pub open spec fn group_list(t: Seq<char>, embedded: bool) -> Option<Seq<u8>> {
    if t.len() == 0 {
        Some(Seq::empty())
    } else {
        groups(fields(t, ':'), embedded)
    }
}

/// The 16 octets that `s` writes as an IPv6 address. Without `::` the text is
/// a list of groups worth 16 octets, which may end in an embedded IPv4
/// address. With `::` the lists before and after its first occurrence are at
/// most 14 octets together, only the second may end in an embedded IPv4
/// address, and zeros fill the gap.
pub open spec fn ipv6_octets(s: Seq<char>) -> Option<Seq<u8>> {
    let k = gap_index(s);
    if 0 <= k < s.len() {
        match (group_list(s.take(k), false), group_list(s.skip(k + 2), true)) {
            (Some(head), Some(tail)) => {
                if head.len() + tail.len() <= 14 {
                    Some(head + Seq::new((16 - head.len() - tail.len()) as nat, |i: int| 0u8) + tail)
                } else {
                    None
                }
            },
            _ => None,
        }
    } else {
        match group_list(s, true) {
            Some(all) => if all.len() == 16 {
                Some(all)
            } else {
                None
            },
            None => None,
        }
    }
}

/// The IPv6 address that `s` writes.
pub open spec fn ipv6_of(s: Seq<char>) -> Option<[u8; 16]> {
    match ipv6_octets(s) {
        Some(o) => Some(
            [
                o[0],
                o[1],
                o[2],
                o[3],
                o[4],
                o[5],
                o[6],
                o[7],
                o[8],
                o[9],
                o[10],
                o[11],
                o[12],
                o[13],
                o[14],
                o[15],
            ],
        ),
        None => None,
    }
}

/// The address that `s` writes: an IPv4 address in dotted decimal form, or
/// else an IPv6 address.
pub open spec fn address_of(s: Seq<char>) -> Option<Address> {
    match ipv4_of(s) {
        Some(a) => Some(Address::V4(a)),
        None => match ipv6_of(s) {
            Some(a) => Some(Address::V6(a)),
            None => None,
        },
    }
}

/// The position of the first `::` in `s`, or the length of `s`.
fn find_gap(s: &[char]) -> (r: usize)
    ensures
        r == gap_index(s@),
        r <= s.len(),
        r < s.len() ==> r + 2 <= s.len(),
{
    let mut i: usize = 0;
    while i < s.len()
        invariant
            i <= s.len(),
            forall|j: int| 0 <= j < i ==> !gap_at(s@, j),
        decreases s.len() - i,
    {
        if s[i] == ':' && i + 1 < s.len() && s[i + 1] == ':' {
            proof {
                lemma_gap_index(s@, i as int);
            }
            return i;
        }
        i += 1;
    }
    proof {
        lemma_gap_index(s@, i as int);
    }
    i
}

/// Reads `t` as a list of groups with a colon between them.
fn parse_groups(t: &[char], embedded: bool) -> (r: Option<Vec<u8>>)
    ensures
        r is Some <==> group_list(t@, embedded) is Some,
        r matches Some(v) ==> v@ == group_list(t@, embedded)->0,
{
    let mut acc: Vec<u8> = Vec::new();
    if t.len() == 0 {
        return Some(acc);
    }
    let f = split(t, ':');
    let ghost all = fields(t@, ':');
    let mut i: usize = 0;
    proof {
        assert(all.skip(0) == all);
        assert(prefixed(acc@, groups(all, embedded)) == groups(all, embedded)) by {
            if groups(all, embedded) is Some {
                assert(acc@ + groups(all, embedded)->0 == groups(all, embedded)->0);
            }
        }
    }
    while i < f.len()
        invariant
            i <= f.len(),
            t@.len() > 0,
            all == fields(t@, ':'),
            texts(f@) == all,
            groups(all, embedded) == prefixed(acc@, groups(all.skip(i as int), embedded)),
        decreases f.len() - i,
    {
        let ghost rest = all.skip(i as int);
        let ghost before = acc@;
        proof {
            assert(rest[0] == f@[i as int]@) by {
                assert(texts(f@)[i as int] == f@[i as int]@);
            }
            assert(rest.drop_first() == all.skip(i + 1));
            assert(rest.len() == f.len() - i);
        }
        if embedded && i + 1 == f.len() {
            match parse_ipv4(f[i]) {
                Some(a) => {
                    acc.push(a[0]);
                    acc.push(a[1]);
                    acc.push(a[2]);
                    acc.push(a[3]);
                    proof {
                        assert(groups(rest, embedded) == Some(a@));
                        assert(acc@ == before + a@);
                    }
                    return Some(acc);
                },
                None => {},
            }
        }
        match parse_group(f[i]) {
            None => {
                return None;
            },
            Some(g) => {
                acc.push((g / 256) as u8);
                acc.push((g % 256) as u8);
                proof {
                    assert(acc@ == before + group_octets(g));
                    let tail = groups(all.skip(i + 1), embedded);
                    assert(groups(rest, embedded) == prefixed(group_octets(g), tail));
                    if tail is Some {
                        assert(before + (group_octets(g) + tail->0) == (before + group_octets(g))
                            + tail->0);
                    }
                }
            },
        }
        i += 1;
    }
    proof {
        assert(all.skip(i as int).len() == 0);
        assert(acc@ + Seq::<u8>::empty() == acc@);
    }
    Some(acc)
}

/// Reads `s` as an IPv6 address.
pub fn parse_ipv6(s: &[char]) -> (r: Option<[u8; 16]>)
    ensures
        r == ipv6_of(s@),
{
    let k = find_gap(s);
    let octets = if k < s.len() {
        let head = match parse_groups(slice_subrange(s, 0, k), false) {
            Some(head) => head,
            None => { return None; },
        };
        let tail = match parse_groups(slice_subrange(s, k + 2, s.len()), true) {
            Some(tail) => tail,
            None => { return None; },
        };
        if head.len() > 14 || tail.len() > 14 - head.len() {
            return None;
        }
        let mut octets = head;
        let ghost front = octets@;
        let fill = 16 - octets.len() - tail.len();
        let mut i: usize = 0;
        while i < fill
            invariant
                i <= fill,
                octets@ == front + Seq::new(i as nat, |j: int| 0u8),
            decreases fill - i,
        {
            octets.push(0u8);
            i += 1;
        }
        let ghost filled = octets@;
        let mut j: usize = 0;
        while j < tail.len()
            invariant
                j <= tail.len(),
                octets@ == filled + tail@.take(j as int),
            decreases tail.len() - j,
        {
            octets.push(tail[j]);
            j += 1;
        }
        proof {
            assert(tail@.take(tail.len() as int) == tail@);
        }
        octets
    } else {
        match parse_groups(s, true) {
            Some(all) => {
                if all.len() != 16 {
                    return None;
                }
                all
            },
            None => { return None; },
        }
    };
    assert(octets@ == ipv6_octets(s@)->0);
    let r = [
        octets[0],
        octets[1],
        octets[2],
        octets[3],
        octets[4],
        octets[5],
        octets[6],
        octets[7],
        octets[8],
        octets[9],
        octets[10],
        octets[11],
        octets[12],
        octets[13],
        octets[14],
        octets[15],
    ];
    assert(r =~= ipv6_of(s@)->0);
    Some(r)
}

/// Reads `s` as an address.
pub fn parse_address(s: &[char]) -> (r: Option<Address>)
    ensures
        r == address_of(s@),
{
    match parse_ipv4(s) {
        Some(a) => Some(Address::V4(a)),
        None => match parse_ipv6(s) {
            Some(a) => Some(Address::V6(a)),
            None => None,
        },
    }
}

impl Address {
    /// Reads `text` as an IPv4 address in dotted decimal form or as an IPv6
    /// address. Text that writes neither gives `None`.
    pub fn parse(text: &str) -> (r: Option<Address>)
        ensures
            r == address_of(text@),
    {
        let s = chars_of(text);
        parse_address(s.as_slice())
    }
}

/// The characters that the text of an address is made of: hexadecimal
/// digits, the dot and the colon.
pub open spec fn is_address_char(c: char) -> bool {
    digit_value(c, 16) is Some || c == '.' || c == ':'
}

/// `gap_index` finds a `::` unless it finds the end.
pub proof fn lemma_gap_index_found(s: Seq<char>)
    ensures
        0 <= gap_index(s) <= s.len(),
        gap_index(s) < s.len() ==> gap_at(s, gap_index(s)),
    decreases s.len(),
{
    if s.len() < 2 {
    } else if s[0] == ':' && s[1] == ':' {
    } else {
        let t = s.drop_first();
        lemma_gap_index_found(t);
        let k = gap_index(t);
        if k < t.len() {
            assert(t[k] == s[k + 1] && t[k + 1] == s[k + 2]);
        }
    }
}

/// The text of an IPv4 address is not empty and made of address characters.
pub proof fn lemma_ipv4_text(s: Seq<char>)
    requires
        ipv4_of(s) is Some,
    ensures
        s.len() > 0,
        forall|i: int| 0 <= i < s.len() ==> is_address_char(#[trigger] s[i]),
{
    let f = fields(s, '.');
    let p = |c: char| is_address_char(c);
    assert forall|j: int, k: int| 0 <= j < f.len() && 0 <= k < f[j].len() implies p(
        #[trigger] f[j][k],
    ) by {
        assert(octet_of(f[j]) is Some);
        assert(digit_value(f[j][k], 10) is Some);
    }
    lemma_fields_chars(s, '.', p);
    assert forall|i: int| 0 <= i < s.len() implies is_address_char(#[trigger] s[i]) by {
        assert(p(s[i]));
    }
}

/// The fields of a list of groups are made of address characters.
proof fn lemma_groups_text(f: Seq<Seq<char>>, embedded: bool)
    requires
        groups(f, embedded) is Some,
    ensures
        forall|j: int, k: int|
            0 <= j < f.len() && 0 <= k < f[j].len() ==> is_address_char(#[trigger] f[j][k]),
    decreases f.len(),
{
    if f.len() == 0 {
    } else if f.len() == 1 && embedded && ipv4_of(f[0]) is Some {
        lemma_ipv4_text(f[0]);
    } else {
        let rest = f.drop_first();
        lemma_groups_text(rest, embedded);
        assert forall|j: int, k: int| 0 <= j < f.len() && 0 <= k < f[j].len() implies is_address_char(
            #[trigger] f[j][k],
        ) by {
            if j == 0 {
                assert(digit_value(f[0][k], 16) is Some);
            } else {
                assert(rest[j - 1] == f[j]);
                assert(is_address_char(rest[j - 1][k]));
            }
        }
    }
}

/// The text of a list of groups is made of address characters.
proof fn lemma_group_list_text(t: Seq<char>, embedded: bool)
    requires
        group_list(t, embedded) is Some,
    ensures
        forall|i: int| 0 <= i < t.len() ==> is_address_char(#[trigger] t[i]),
{
    if t.len() > 0 {
        let f = fields(t, ':');
        let p = |c: char| is_address_char(c);
        lemma_groups_text(f, embedded);
        assert forall|j: int, k: int| 0 <= j < f.len() && 0 <= k < f[j].len() implies p(
            #[trigger] f[j][k],
        ) by {
            assert(is_address_char(f[j][k]));
        }
        lemma_fields_chars(t, ':', p);
        assert forall|i: int| 0 <= i < t.len() implies is_address_char(#[trigger] t[i]) by {
            assert(p(t[i]));
        }
    }
}

/// The text of an address is not empty and made of address characters.
pub proof fn lemma_address_text(s: Seq<char>)
    requires
        address_of(s) is Some,
    ensures
        s.len() > 0,
        forall|i: int| 0 <= i < s.len() ==> is_address_char(#[trigger] s[i]),
{
    if ipv4_of(s) is Some {
        lemma_ipv4_text(s);
    } else {
        assert(ipv6_octets(s) is Some);
        let k = gap_index(s);
        lemma_gap_index_found(s);
        if 0 <= k < s.len() {
            let head = s.take(k);
            let tail = s.skip(k + 2);
            lemma_group_list_text(head, false);
            lemma_group_list_text(tail, true);
            assert forall|i: int| 0 <= i < s.len() implies is_address_char(#[trigger] s[i]) by {
                if i < k {
                    assert(head[i] == s[i]);
                } else if i >= k + 2 {
                    assert(tail[i - k - 2] == s[i]);
                }
            }
        } else {
            lemma_group_list_text(s, true);
        }
    }
}

} // verus!
