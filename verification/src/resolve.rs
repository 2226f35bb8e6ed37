//! What a lookup answers, as a function of what is on disk.
//!
//! The disk is a map from a directory and a file name to the lines of the
//! file that can be read there. A lookup walks from a directory up to the
//! root; in each directory it tries a fixed list of candidate files in order;
//! in each file the first record that names the host decides. The laws at the
//! end say which override wins.

use vstd::prelude::*;
use crate::address::{address_of, Address};
use crate::hosts_file::{
    is_name, lemma_lookup_first_answer, lemma_lookup_without_records, lemma_record_line,
    line_answer, lookup,
};
use crate::path::{parent, Component};
use crate::text::is_whitespace;

verus! {

/// The names of the candidate files of one directory, in the order in which
/// they are probed: the two names that carry the environment tag, where there
/// is one, before the two plain names.
pub open spec fn candidates(env: Option<Seq<char>>) -> Seq<Seq<char>> {
    match env {
        Some(tag) => seq!["hosts."@ + tag, ".hosts."@ + tag, "hosts"@, ".hosts"@],
        None => seq!["hosts"@, ".hosts"@],
    }
}

/// What is on disk, as far as the search can see it: the lines of each file
/// that can be read, by its directory and its name.
pub type Disk = Map<(Seq<Component>, Seq<char>), Seq<Seq<char>>>;

/// The address that the file `name` in `dir` gives to `hostname`. A file that
/// is not there or cannot be read gives none.
pub open spec fn probe(disk: Disk, dir: Seq<Component>, name: Seq<char>, hostname: Seq<char>)
    -> Option<Address> {
    if disk.dom().contains((dir, name)) {
        lookup(disk[(dir, name)], hostname)
    } else {
        None
    }
}

/// The address that the directory `dir` gives to `hostname`: the answer of the
/// first of the files `names`, in order, that has one.
pub open spec fn search_dir(
    disk: Disk,
    dir: Seq<Component>,
    names: Seq<Seq<char>>,
    hostname: Seq<char>,
) -> Option<Address>
    decreases names.len(),
{
    if names.len() == 0 {
        None
    } else {
        match probe(disk, dir, names[0], hostname) {
            Some(addr) => Some(addr),
            None => search_dir(disk, dir, names.drop_first(), hostname),
        }
    }
}

/// How many directories the walk from `dir` upward visits.
pub open spec fn depth(dir: Option<Seq<Component>>) -> nat {
    match dir {
        Some(d) => d.len() + 1,
        None => 0,
    }
}

/// The address that the walk from `dir` upward gives to `hostname`: the answer
/// of the nearest directory that has one.
pub open spec fn search_up(
    disk: Disk,
    dir: Option<Seq<Component>>,
    names: Seq<Seq<char>>,
    hostname: Seq<char>,
) -> Option<Address>
    decreases depth(dir),
{
    match dir {
        None => None,
        Some(d) => match search_dir(disk, d, names, hostname) {
            Some(addr) => Some(addr),
            None => search_up(disk, parent(d), names, hostname),
        },
    }
}

/// Where the walk from `dir` upward leaves off: at the parent of the nearest
/// directory that has an answer, or nowhere once it ran out of directories.
pub open spec fn walk_end(
    disk: Disk,
    dir: Option<Seq<Component>>,
    names: Seq<Seq<char>>,
    hostname: Seq<char>,
) -> Option<Seq<Component>>
    decreases depth(dir),
{
    match dir {
        None => None,
        Some(d) => match search_dir(disk, d, names, hostname) {
            Some(_) => parent(d),
            None => walk_end(disk, parent(d), names, hostname),
        },
    }
}

/// The override for `hostname` as seen from the directory `cwd` with the
/// environment tag `env`.
pub open spec fn resolve(
    disk: Disk,
    cwd: Seq<Component>,
    hostname: Seq<char>,
    env: Option<Seq<char>>,
) -> Option<Address> {
    search_up(disk, Some(cwd), candidates(env), hostname)
}

/// The directory `levels` levels above `dir`, where the walk gets that far.
pub open spec fn ancestor(dir: Seq<Component>, levels: nat) -> Option<Seq<Component>>
    decreases levels,
{
    if levels == 0 {
        Some(dir)
    } else {
        match parent(dir) {
            Some(p) => ancestor(p, (levels - 1) as nat),
            None => None,
        }
    }
}

/// The directory `levels` levels above `dir` is there and has no answer for
/// `hostname`.
pub open spec fn silent_above(
    disk: Disk,
    dir: Seq<Component>,
    names: Seq<Seq<char>>,
    hostname: Seq<char>,
    levels: nat,
) -> bool {
    match ancestor(dir, levels) {
        Some(d) => search_dir(disk, d, names, hostname) is None,
        None => false,
    }
}

/// An override is found from its own directory and from every directory
/// below it, as long as no directory on the way up has an answer of its own.
pub proof fn lemma_nearest_override(
    disk: Disk,
    cwd: Seq<Component>,
    names: Seq<Seq<char>>,
    hostname: Seq<char>,
    levels: nat,
    addr: Address,
)
    requires
        ancestor(cwd, levels) is Some,
        search_dir(disk, ancestor(cwd, levels)->0, names, hostname) == Some(addr),
        forall|nearer: nat|
            nearer < levels ==> #[trigger] silent_above(disk, cwd, names, hostname, nearer),
    ensures
        search_up(disk, Some(cwd), names, hostname) == Some(addr),
    decreases levels,
{
    if levels > 0 {
        assert(silent_above(disk, cwd, names, hostname, 0));
        assert(ancestor(cwd, 0) == Some(cwd));
        let p = parent(cwd)->0;
        assert forall|nearer: nat| nearer < levels - 1 implies #[trigger] silent_above(
            disk,
            p,
            names,
            hostname,
            nearer,
        ) by {
            assert(silent_above(disk, cwd, names, hostname, nearer + 1));
            assert(ancestor(cwd, nearer + 1) == ancestor(p, nearer));
        }
        lemma_nearest_override(disk, p, names, hostname, (levels - 1) as nat, addr);
    }
}

/// Two disks agree on the file `name` in `dir`: both lack it, or both hold it
/// with the same lines.
pub open spec fn same_file(disk: Disk, other: Disk, dir: Seq<Component>, name: Seq<char>) -> bool {
    &&& other.dom().contains((dir, name)) == disk.dom().contains((dir, name))
    &&& disk.dom().contains((dir, name)) ==> other[(dir, name)] == disk[(dir, name)]
}

/// The nearer directory wins: an answer of the directory where the walk
/// starts is the answer of the walk, whatever lies in the directories above.
pub proof fn lemma_nearer_directory_wins(
    disk: Disk,
    other: Disk,
    cwd: Seq<Component>,
    names: Seq<Seq<char>>,
    hostname: Seq<char>,
)
    requires
        search_dir(disk, cwd, names, hostname) is Some,
        forall|name: Seq<char>| #[trigger] same_file(disk, other, cwd, name),
    ensures
        search_up(disk, Some(cwd), names, hostname) == search_dir(disk, cwd, names, hostname),
        search_up(other, Some(cwd), names, hostname) == search_dir(disk, cwd, names, hostname),
{
    lemma_search_dir_local(disk, other, cwd, names, hostname);
}

/// What a directory answers depends on the files of that directory alone.
pub proof fn lemma_search_dir_local(
    disk: Disk,
    other: Disk,
    dir: Seq<Component>,
    names: Seq<Seq<char>>,
    hostname: Seq<char>,
)
    requires
        forall|name: Seq<char>| #[trigger] same_file(disk, other, dir, name),
    ensures
        search_dir(other, dir, names, hostname) == search_dir(disk, dir, names, hostname),
    decreases names.len(),
{
    if names.len() > 0 {
        assert(same_file(disk, other, dir, names[0]));
        lemma_search_dir_local(disk, other, dir, names.drop_first(), hostname);
    }
}

/// Within one directory the file that carries the environment tag wins: an
/// answer of `hosts.<tag>` is the answer of the directory, whatever `hosts`
/// holds.
pub proof fn lemma_tagged_file_wins(
    disk: Disk,
    dir: Seq<Component>,
    tag: Seq<char>,
    hostname: Seq<char>,
)
    requires
        probe(disk, dir, "hosts."@ + tag, hostname) is Some,
    ensures
        search_dir(disk, dir, candidates(Some(tag)), hostname) == probe(
            disk,
            dir,
            "hosts."@ + tag,
            hostname,
        ),
{
}

/// Two disks on which every file gives `hostname` the same answer give the
/// same answer to the walk.
pub proof fn lemma_search_congruence(
    disk: Disk,
    other: Disk,
    dir: Option<Seq<Component>>,
    names: Seq<Seq<char>>,
    hostname: Seq<char>,
)
    requires
        forall|d: Seq<Component>, name: Seq<char>| #[trigger]
            probe(other, d, name, hostname) == probe(disk, d, name, hostname),
    ensures
        search_up(other, dir, names, hostname) == search_up(disk, dir, names, hostname),
    decreases depth(dir), names.len(),
{
    match dir {
        None => {},
        Some(d) => {
            lemma_search_dir_congruence(disk, other, d, names, hostname);
            lemma_search_congruence(disk, other, parent(d), names, hostname);
        },
    }
}

/// Two disks on which every file gives `hostname` the same answer give the
/// same answer in each directory.
pub proof fn lemma_search_dir_congruence(
    disk: Disk,
    other: Disk,
    dir: Seq<Component>,
    names: Seq<Seq<char>>,
    hostname: Seq<char>,
)
    requires
        forall|d: Seq<Component>, name: Seq<char>| #[trigger]
            probe(other, d, name, hostname) == probe(disk, d, name, hostname),
    ensures
        search_dir(other, dir, names, hostname) == search_dir(disk, dir, names, hostname),
    decreases names.len(),
{
    if names.len() > 0 {
        assert(probe(other, dir, names[0], hostname) == probe(disk, dir, names[0], hostname));
        lemma_search_dir_congruence(disk, other, dir, names.drop_first(), hostname);
    }
}

/// A file that holds nothing but empty lines and comments behaves as if it
/// were absent: with it or without it, the walk gives the same answer.
pub proof fn lemma_comment_file_as_absent(
    disk: Disk,
    key: (Seq<Component>, Seq<char>),
    cwd: Seq<Component>,
    names: Seq<Seq<char>>,
    hostname: Seq<char>,
)
    requires
        disk.dom().contains(key),
        forall|i: int|
            0 <= i < disk[key].len() ==> (#[trigger] disk[key][i]).len() == 0 || disk[key][i][0]
                == '#',
    ensures
        search_up(disk, Some(cwd), names, hostname) == search_up(
            disk.remove(key),
            Some(cwd),
            names,
            hostname,
        ),
{
    lemma_lookup_without_records(disk[key], hostname);
    assert forall|d: Seq<Component>, name: Seq<char>| #[trigger]
        probe(disk.remove(key), d, name, hostname) == probe(disk, d, name, hostname) by {
        if (d, name) == key {
        } else {
            assert(disk.remove(key).dom().contains((d, name)) == disk.dom().contains((d, name)));
        }
    }
    lemma_search_congruence(disk, disk.remove(key), Some(cwd), names, hostname);
}

/// The first file that answers decides: where the file `names[i]` of a
/// directory gives `hostname` an address and no file before it does, the
/// directory gives that address.
pub proof fn lemma_search_dir_first_answer(
    disk: Disk,
    dir: Seq<Component>,
    names: Seq<Seq<char>>,
    hostname: Seq<char>,
    i: int,
)
    requires
        0 <= i < names.len(),
        probe(disk, dir, names[i], hostname) is Some,
        forall|j: int| 0 <= j < i ==> probe(disk, dir, #[trigger] names[j], hostname) is None,
    ensures
        search_dir(disk, dir, names, hostname) == probe(disk, dir, names[i], hostname),
    decreases i,
{
    if i > 0 {
        let rest = names.drop_first();
        assert(probe(disk, dir, names[0], hostname) is None);
        assert forall|j: int| 0 <= j < i - 1 implies probe(
            disk,
            dir,
            #[trigger] rest[j],
            hostname,
        ) is None by {
            assert(rest[j] == names[j + 1]);
        }
        assert(rest[i - 1] == names[i]);
        lemma_search_dir_first_answer(disk, dir, rest, hostname, i - 1);
    }
}

/// A line `<address> <hostname>` of an override file is what a query for
/// `<hostname>` returns, from the directory of the file and from every
/// directory below it, unless something nearer answers first: an earlier line
/// of the same file, an earlier candidate file of the same directory, or a
/// directory on the way up to it.
pub proof fn lemma_override_line_is_returned(
    disk: Disk,
    cwd: Seq<Component>,
    env: Option<Seq<char>>,
    levels: nat,
    file: int,
    line: int,
    text: Seq<char>,
    hostname: Seq<char>,
    more: Seq<char>,
)
    requires
        address_of(text) is Some,
        is_name(hostname),
        more.len() == 0 || is_whitespace(more[0]),
        ancestor(cwd, levels) is Some,
        0 <= file < candidates(env).len(),
        disk.dom().contains((ancestor(cwd, levels)->0, candidates(env)[file])),
        0 <= line < disk[(ancestor(cwd, levels)->0, candidates(env)[file])].len(),
        disk[(ancestor(cwd, levels)->0, candidates(env)[file])][line] == text + seq![' ']
            + hostname + more,
        forall|j: int|
            0 <= j < line ==> line_answer(
                #[trigger] disk[(ancestor(cwd, levels)->0, candidates(env)[file])][j],
                hostname,
            ) is None,
        forall|j: int|
            0 <= j < file ==> probe(
                disk,
                ancestor(cwd, levels)->0,
                #[trigger] candidates(env)[j],
                hostname,
            ) is None,
        forall|nearer: nat|
            nearer < levels ==> #[trigger] silent_above(
                disk,
                cwd,
                candidates(env),
                hostname,
                nearer,
            ),
    ensures
        resolve(disk, cwd, hostname, env) == address_of(text),
{
    let dir = ancestor(cwd, levels)->0;
    let names = candidates(env);
    let lines = disk[(dir, names[file])];
    lemma_record_line(text, hostname, more);
    lemma_lookup_first_answer(lines, hostname, line);
    assert(probe(disk, dir, names[file], hostname) == address_of(text));
    lemma_search_dir_first_answer(disk, dir, names, hostname, file);
    lemma_nearest_override(disk, cwd, names, hostname, levels, address_of(text)->0);
}

} // verus!
