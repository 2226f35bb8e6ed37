//! The override file: one record per line, an address followed by host names.
//!
//! A record line is `<address> <hostname> [<more names>]`. The address ends at
//! the first space of the line; the host name is the first word after it.
//! Empty lines, lines that start with `#`, and lines whose address cannot be
//! read are no records.

use vstd::prelude::*;
use vstd::slice::slice_subrange;
use crate::address::{address_of, is_address_char, lemma_address_text, parse_address, Address};
use crate::text::{
    chars_of, find_char, first_index, is_whitespace, lemma_first_index, same_text, string_texts,
    whitespace,
};

verus! {

/// The length of the run at the start of `t`: of the word separators there
/// where `separators` is true, of the other characters where it is false.
pub open spec fn run_len(t: Seq<char>, separators: bool) -> int
    decreases t.len(),
{
    if t.len() == 0 || is_whitespace(t[0]) != separators {
        0
    } else {
        1 + run_len(t.drop_first(), separators)
    }
}

/// `run_len` is the only length of a run that the end of the text or a
/// character of the other kind stops.
pub proof fn lemma_run_len(t: Seq<char>, separators: bool, k: int)
    requires
        0 <= k <= t.len(),
        forall|j: int| 0 <= j < k ==> is_whitespace(#[trigger] t[j]) == separators,
        k < t.len() ==> is_whitespace(t[k]) != separators,
    ensures
        run_len(t, separators) == k,
    decreases t.len(),
{
    if t.len() == 0 || is_whitespace(t[0]) != separators {
        if k > 0 {
            assert(is_whitespace(t[0]) == separators);
        }
    } else {
        let u = t.drop_first();
        assert forall|j: int| 0 <= j < k - 1 implies is_whitespace(#[trigger] u[j])
            == separators by {
            assert(u[j] == t[j + 1]);
        }
        if k - 1 < u.len() {
            assert(u[k - 1] == t[k]);
        }
        lemma_run_len(u, separators, k - 1);
    }
}

/// The first word of `t`: what stands between the word separators at its
/// start and the next word separator or the end. A text of word separators
/// alone has no word.
pub open spec fn first_word(t: Seq<char>) -> Option<Seq<char>> {
    let u = t.skip(run_len(t, true));
    if u.len() == 0 {
        None
    } else {
        Some(u.take(run_len(u, false)))
    }
}

/// The record that `line` holds: its address and the first host name after
/// it.
pub open spec fn entry_of(line: Seq<char>) -> Option<(Address, Seq<char>)> {
    let k = first_index(line, ' ');
    if line.len() == 0 || line[0] == '#' || !(0 <= k < line.len()) {
        None
    } else {
        match (address_of(line.take(k)), first_word(line.skip(k + 1))) {
            (Some(addr), Some(name)) => Some((addr, name)),
            _ => None,
        }
    }
}

/// The address that `line` gives to `hostname`: that of its record, where the
/// record's host name is exactly `hostname`.
pub open spec fn line_answer(line: Seq<char>, hostname: Seq<char>) -> Option<Address> {
    match entry_of(line) {
        Some((addr, name)) => if name == hostname {
            Some(addr)
        } else {
            None
        },
        None => None,
    }
}

/// The address that the lines of a file give to `hostname`: the answer of the
/// first line that has one.
pub open spec fn lookup(lines: Seq<Seq<char>>, hostname: Seq<char>) -> Option<Address>
    decreases lines.len(),
{
    if lines.len() == 0 {
        None
    } else {
        match line_answer(lines[0], hostname) {
            Some(addr) => Some(addr),
            None => lookup(lines.drop_first(), hostname),
        }
    }
}

/// The end of the run that starts at `from`: of word separators where
/// `separators` is true, of other characters where it is false.
fn run_end(t: &[char], from: usize, separators: bool) -> (r: usize)
    requires
        from <= t.len(),
    ensures
        from <= r <= t.len(),
        r - from == run_len(t@.skip(from as int), separators),
{
    let mut i: usize = from;
    while i < t.len() && whitespace(t[i]) == separators
        invariant
            from <= i <= t.len(),
            forall|j: int| from <= j < i ==> is_whitespace(#[trigger] t@[j]) == separators,
        decreases t.len() - i,
    {
        i += 1;
    }
    proof {
        let u = t@.skip(from as int);
        assert forall|j: int| 0 <= j < i - from implies is_whitespace(#[trigger] u[j])
            == separators by {
            assert(u[j] == t@[from + j]);
        }
        lemma_run_len(u, separators, i - from);
    }
    i
}

/// The address that `line` gives to `hostname`.
pub fn answer_of_line(line: &[char], hostname: &[char]) -> (r: Option<Address>)
    ensures
        r == line_answer(line@, hostname@),
{
    if line.len() == 0 || line[0] == '#' {
        return None;
    }
    let k = find_char(line, 0, ' ');
    assert(line@.skip(0) == line@);
    if k >= line.len() {
        return None;
    }
    let addr = match parse_address(slice_subrange(line, 0, k)) {
        Some(addr) => addr,
        None => { return None; },
    };
    let start = run_end(line, k + 1, true);
    if start >= line.len() {
        return None;
    }
    let end = run_end(line, start, false);
    let name = slice_subrange(line, start, end);
    proof {
        let rest = line@.skip(k + 1);
        let u = rest.skip(run_len(rest, true));
        assert(u == line@.skip(start as int));
        assert(u.take(run_len(u, false)) == line@.subrange(start as int, end as int));
        assert(first_word(rest) == Some(name@));
    }
    if same_text(name, hostname) {
        Some(addr)
    } else {
        None
    }
}

/// Looks `hostname` up in the lines of an override file, in order, and gives
/// the address of the first record whose host name is exactly `hostname`.
pub fn find(lines: &[String], hostname: &str) -> (r: Option<Address>)
    ensures
        r == lookup(string_texts(lines@), hostname@),
{
    let name = chars_of(hostname);
    let ghost all = string_texts(lines@);
    let mut i: usize = 0;
    assert(all.skip(0) == all);
    while i < lines.len()
        invariant
            i <= lines.len(),
            all == string_texts(lines@),
            name@ == hostname@,
            lookup(all, hostname@) == lookup(all.skip(i as int), hostname@),
        decreases lines.len() - i,
    {
        let line = chars_of(lines[i].as_str());
        proof {
            assert(all.skip(i as int)[0] == line@);
            assert(all.skip(i as int).drop_first() == all.skip(i + 1));
        }
        match answer_of_line(line.as_slice(), name.as_slice()) {
            Some(addr) => {
                return Some(addr);
            },
            None => {},
        }
        i += 1;
    }
    None
}

/// The first line that answers decides: where line `i` gives `hostname` an
/// address and no line before it does, the lookup gives that address.
pub proof fn lemma_lookup_first_answer(lines: Seq<Seq<char>>, hostname: Seq<char>, i: int)
    requires
        0 <= i < lines.len(),
        line_answer(lines[i], hostname) is Some,
        forall|j: int| 0 <= j < i ==> line_answer(#[trigger] lines[j], hostname) is None,
    ensures
        lookup(lines, hostname) == line_answer(lines[i], hostname),
    decreases i,
{
    if i > 0 {
        let rest = lines.drop_first();
        assert(line_answer(lines[0], hostname) is None);
        assert forall|j: int| 0 <= j < i - 1 implies line_answer(
            #[trigger] rest[j],
            hostname,
        ) is None by {
            assert(rest[j] == lines[j + 1]);
        }
        assert(rest[i - 1] == lines[i]);
        lemma_lookup_first_answer(rest, hostname, i - 1);
    }
}

/// The index of the first line that gives `hostname` an address, or the
/// number of lines where none does.
pub open spec fn first_answer(lines: Seq<Seq<char>>, hostname: Seq<char>) -> int
    decreases lines.len(),
{
    if lines.len() == 0 || line_answer(lines[0], hostname) is Some {
        0
    } else {
        1 + first_answer(lines.drop_first(), hostname)
    }
}

/// The lookup answers what the first answering line answers, and nothing
/// where no line answers.
pub proof fn lemma_lookup_source(lines: Seq<Seq<char>>, hostname: Seq<char>)
    ensures
        0 <= first_answer(lines, hostname) <= lines.len(),
        forall|j: int|
            0 <= j < first_answer(lines, hostname) ==> line_answer(
                #[trigger] lines[j],
                hostname,
            ) is None,
        first_answer(lines, hostname) < lines.len() ==> lookup(lines, hostname) is Some && lookup(
            lines,
            hostname,
        ) == line_answer(lines[first_answer(lines, hostname)], hostname),
        first_answer(lines, hostname) == lines.len() ==> lookup(lines, hostname) is None,
    decreases lines.len(),
{
    if lines.len() == 0 || line_answer(lines[0], hostname) is Some {
    } else {
        let rest = lines.drop_first();
        lemma_lookup_source(rest, hostname);
        let k = first_answer(rest, hostname);
        assert forall|j: int| 0 <= j < k + 1 implies line_answer(
            #[trigger] lines[j],
            hostname,
        ) is None by {
            if j > 0 {
                assert(lines[j] == rest[j - 1]);
            }
        }
        if k < rest.len() {
            assert(lines[k + 1] == rest[k]);
        }
    }
}

/// Lines that are empty or start with `#` hold no record, so a file of such
/// lines alone answers nothing.
pub proof fn lemma_lookup_without_records(lines: Seq<Seq<char>>, hostname: Seq<char>)
    requires
        forall|i: int|
            0 <= i < lines.len() ==> (#[trigger] lines[i]).len() == 0 || lines[i][0] == '#',
    ensures
        lookup(lines, hostname) is None,
    decreases lines.len(),
{
    if lines.len() > 0 {
        let rest = lines.drop_first();
        assert(lines[0].len() == 0 || lines[0][0] == '#');
        assert forall|i: int| 0 <= i < rest.len() implies (#[trigger] rest[i]).len() == 0
            || rest[i][0] == '#' by {
            assert(rest[i] == lines[i + 1]);
        }
        lemma_lookup_without_records(rest, hostname);
    }
}

/// Only the first host name of a record counts: a line answers no host name
/// but the first one after its address, whatever other names follow.
pub proof fn lemma_first_name_only(line: Seq<char>, hostname: Seq<char>)
    ensures
        line_answer(line, hostname) is Some ==> first_word(
            line.skip(first_index(line, ' ') + 1),
        ) == Some(hostname),
        entry_of(line) matches Some((addr, name)) ==> (line_answer(line, hostname) is Some
            <==> hostname == name),
{
}

/// A host name as a record can hold it: not empty, and without a word
/// separator in it.
pub open spec fn is_name(name: Seq<char>) -> bool {
    name.len() > 0 && forall|i: int| 0 <= i < name.len() ==> !is_whitespace(#[trigger] name[i])
}

/// The line `<address> <hostname>`, with or without further words after a
/// word separator, is the record of that address and that host name.
pub proof fn lemma_record_line(text: Seq<char>, name: Seq<char>, more: Seq<char>)
    requires
        address_of(text) is Some,
        is_name(name),
        more.len() == 0 || is_whitespace(more[0]),
    ensures
        entry_of(text + seq![' '] + name + more) == Some((address_of(text)->0, name)),
        line_answer(text + seq![' '] + name + more, name) == address_of(text),
{
    let line = text + seq![' '] + name + more;
    let k = text.len() as int;
    lemma_address_text(text);
    assert forall|j: int| 0 <= j < k implies line[j] != ' ' by {
        assert(line[j] == text[j]);
        assert(is_address_char(text[j]));
    }
    assert(line[k] == ' ');
    lemma_first_index(line, ' ', k);
    assert(line[0] == text[0]);
    assert(is_address_char(text[0]));
    assert(line.take(k) == text);
    let rest = line.skip(k + 1);
    assert(rest == name + more);
    assert(!is_whitespace(name[0]));
    assert(rest[0] == name[0]);
    lemma_run_len(rest, true, 0);
    assert(rest.skip(0) == rest);
    assert forall|j: int| 0 <= j < name.len() implies is_whitespace(#[trigger] rest[j])
        == false by {
        assert(rest[j] == name[j]);
    }
    if name.len() < rest.len() {
        assert(rest[name.len() as int] == more[0]);
    }
    lemma_run_len(rest, false, name.len() as int);
    assert(rest.take(name.len() as int) == name);
}

} // verus!
