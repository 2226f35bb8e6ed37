//! The walk from a directory up to the root in search of an override.
//!
//! [`HostsUpwardFinder`] yields the directories of the walk. [`Search`] makes
//! the walk one probe at a time: it names a candidate file, and whoever drives
//! it does the reading. [`HostsUpwardFinder::find`] makes the whole walk over
//! a listing of files held in memory.

use vstd::prelude::*;
use vstd::slice::slice_subrange;
use vstd::string::StringExecFns;
use crate::address::Address;
use crate::hosts_file::{find, lookup};
use crate::path::{parent, path_view, same_path, Component, PathComponent};
use crate::resolve::{candidates, depth, probe, resolve, search_dir, search_up, walk_end, Disk};
use crate::text::{same_string, string_texts};

verus! {

/// Yields a directory and then each of its ancestors, nearest first.
pub struct HostsUpwardFinder<'a> {
    path: Option<&'a [PathComponent]>,
}

impl<'a> View for HostsUpwardFinder<'a> {
    type V = Option<Seq<Component>>;

    /// The directory that comes next, if any is left.
    closed spec fn view(&self) -> Option<Seq<Component>> {
        match self.path {
            Some(p) => Some(path_view(p@)),
            None => None,
        }
    }
}

/// The text of an optional string.
pub open spec fn tag_text(env: Option<&str>) -> Option<Seq<char>> {
    match env {
        Some(tag) => Some(tag@),
        None => None,
    }
}

/// The names of the candidate files of one directory, in the order in which
/// they are probed.
pub fn candidate_filenames(env: Option<&str>) -> (r: Vec<String>)
    ensures
        string_texts(r@) == candidates(tag_text(env)),
{
    let mut names: Vec<String> = Vec::new();
    match env {
        Some(tag) => {
            names.push(String::from_str("hosts.").concat(tag));
            names.push(String::from_str(".hosts.").concat(tag));
        },
        None => {},
    }
    names.push(String::from_str("hosts"));
    names.push(String::from_str(".hosts"));
    assert(string_texts(names@) =~= candidates(tag_text(env)));
    names
}

impl<'a> HostsUpwardFinder<'a> {
    /// A finder that starts at `curr_dir`.
    pub fn new(curr_dir: &'a [PathComponent]) -> (r: Self)
        ensures
            r@ == Some(path_view(curr_dir@)),
    {
        HostsUpwardFinder { path: Some(curr_dir) }
    }

    /// Yields the next directory and moves on to its parent. Once a directory
    /// without a parent was yielded, nothing is left.
    pub fn next(&mut self) -> (r: Option<&'a [PathComponent]>)
        ensures
            match old(self)@ {
                Some(dir) => r matches Some(d) && path_view(d@) == dir && final(self)@ == parent(dir),
                None => r is None && final(self)@ is None,
            },
    {
        let path = match self.path {
            Some(path) => path,
            None => { return None; },
        };
        let n = path.len();
        let has_parent = n > 0 && match &path[n - 1] {
            PathComponent::RootDir => false,
            PathComponent::Prefix(_) => false,
            _ => true,
        };
        if has_parent {
            let up = slice_subrange(path, 0, n - 1);
            assert(path_view(up@) == path_view(path@).drop_last());
            self.path = Some(up);
        } else {
            self.path = None;
        }
        Some(path)
    }
}

/// The parent of an optional directory.
pub open spec fn up(dir: Option<Seq<Component>>) -> Option<Seq<Component>> {
    match dir {
        Some(d) => parent(d),
        None => None,
    }
}

/// The mathematical value of a [`Search`].
pub struct SearchState {
    /// The directory under probe, if the walk has not run out of them.
    pub dir: Option<Seq<Component>>,
    /// The directory that the walk turns to after `dir`.
    pub above: Option<Seq<Component>>,
    /// The candidate file names of each directory.
    pub names: Seq<Seq<char>>,
    /// Which of `names` is probed next in `dir`.
    pub index: int,
    /// The host name that is looked up.
    pub hostname: Seq<char>,
    /// The override, once a file gave one.
    pub found: Option<Address>,
}

impl SearchState {
    /// The state in which a search over the directories from `from` upward
    /// starts.
    pub open spec fn start(
        from: Option<Seq<Component>>,
        hostname: Seq<char>,
        names: Seq<Seq<char>>,
    ) -> SearchState {
        SearchState { dir: from, above: up(from), names, index: 0, hostname, found: None }
    }

    /// The file to probe next: none once an override was found or the
    /// directories have run out.
    pub open spec fn candidate(self) -> Option<(Seq<Component>, Seq<char>)> {
        if self.found is None && self.dir is Some && 0 <= self.index < self.names.len() {
            Some((self.dir->0, self.names[self.index]))
        } else {
            None
        }
    }

    /// The state after the probe of the candidate: `contents` holds the lines
    /// of the file where it could be read. A file that answers ends the
    /// search. Otherwise the next name of the directory is due, and after
    /// the last name the first name of the directory above.
    pub open spec fn step(self, contents: Option<Seq<Seq<char>>>) -> SearchState {
        let hit = match contents {
            Some(lines) => lookup(lines, self.hostname),
            None => None,
        };
        if self.candidate() is None {
            self
        } else if hit is Some {
            SearchState { found: hit, ..self }
        } else if self.index + 1 < self.names.len() {
            SearchState { index: self.index + 1, ..self }
        } else {
            SearchState { dir: self.above, above: up(self.above), index: 0, ..self }
        }
    }

    /// What the search answers in the end where every probe still to come
    /// sees what `disk` holds.
    pub open spec fn outcome(self, disk: Disk) -> Option<Address> {
        if self.found is Some {
            self.found
        } else if self.dir is None {
            None
        } else {
            match search_dir(disk, self.dir->0, self.names.skip(self.index), self.hostname) {
                Some(addr) => Some(addr),
                None => search_up(disk, self.above, self.names, self.hostname),
            }
        }
    }

    /// The directory that is due after the walk, where every probe still to
    /// come sees what `disk` holds.
    pub open spec fn leaves_off(self, disk: Disk) -> Option<Seq<Component>> {
        if self.found is Some || self.dir is None {
            self.above
        } else {
            match search_dir(disk, self.dir->0, self.names.skip(self.index), self.hostname) {
                Some(_) => self.above,
                None => walk_end(disk, self.above, self.names, self.hostname),
            }
        }
    }

    /// A bound on the number of probes that the search still makes: the
    /// names left in the directory under probe, and every name in each
    /// directory above it.
    pub open spec fn probes_left(self) -> nat {
        if self.candidate() is None {
            0
        } else {
            (depth(self.above) * self.names.len() + (self.names.len() - self.index)) as nat
        }
    }

    /// The index points at one of the names.
    pub open spec fn wf(self) -> bool {
        0 <= self.index < self.names.len()
    }

    /// What a probe of the candidate sees on `disk`.
    pub open spec fn seen(self, disk: Disk) -> Option<Seq<Seq<char>>> {
        match self.candidate() {
            Some(key) => if disk.dom().contains(key) {
                Some(disk[key])
            } else {
                None
            },
            None => None,
        }
    }
}

/// A search starts out with the answer of the walk from its first directory
/// upward.
pub proof fn lemma_search_start(
    disk: Disk,
    from: Option<Seq<Component>>,
    hostname: Seq<char>,
    names: Seq<Seq<char>>,
)
    ensures
        SearchState::start(from, hostname, names).outcome(disk) == search_up(
            disk,
            from,
            names,
            hostname,
        ),
        SearchState::start(from, hostname, names).leaves_off(disk) == walk_end(
            disk,
            from,
            names,
            hostname,
        ),
{
    assert(names.skip(0) == names);
}

/// A probe that sees what the disk holds leaves the answer of the search as
/// it was.
pub proof fn lemma_search_step(state: SearchState, disk: Disk)
    ensures
        state.step(state.seen(disk)).outcome(disk) == state.outcome(disk),
        state.step(state.seen(disk)).leaves_off(disk) == state.leaves_off(disk),
        state.wf() ==> state.step(state.seen(disk)).wf(),
{
    if state.candidate() is Some {
        let d = state.dir->0;
        let rest = state.names.skip(state.index);
        let after = state.names.skip(state.index + 1);
        let next = state.step(state.seen(disk));
        assert(rest[0] == state.names[state.index]);
        assert(rest.drop_first() == after);
        let hit = probe(disk, d, rest[0], state.hostname);
        assert(search_dir(disk, d, rest, state.hostname) == match hit {
            Some(addr) => Some(addr),
            None => search_dir(disk, d, after, state.hostname),
        });
        if hit is Some {
            assert(next.found == hit);
        } else if state.index + 1 < state.names.len() {
            assert(next.index == state.index + 1 && next.dir == state.dir);
        } else {
            assert(after.len() == 0);
            assert(search_dir(disk, d, after, state.hostname) is None);
            assert(state.names.skip(0) == state.names);
            assert(next.dir == state.above && next.index == 0 && next.above == up(state.above));
            if state.above is Some {
                let a = state.above->0;
                assert(search_up(disk, state.above, state.names, state.hostname) == match search_dir(
                    disk,
                    a,
                    state.names,
                    state.hostname,
                ) {
                    Some(addr) => Some(addr),
                    None => search_up(disk, parent(a), state.names, state.hostname),
                });
                assert(walk_end(disk, state.above, state.names, state.hostname) == match search_dir(
                    disk,
                    a,
                    state.names,
                    state.hostname,
                ) {
                    Some(_) => parent(a),
                    None => walk_end(disk, parent(a), state.names, state.hostname),
                });
            }
        }
    }
}

/// Every probe brings the search nearer to its end: whatever the probe saw,
/// fewer probes are left after it.
pub proof fn lemma_search_progress(state: SearchState, contents: Option<Seq<Seq<char>>>)
    requires
        state.wf(),
        state.candidate() is Some,
    ensures
        state.step(contents).probes_left() < state.probes_left(),
{
    let next = state.step(contents);
    let count = state.names.len() as int;
    if next.candidate() is Some {
        if next.dir == state.dir && next.index == state.index + 1 {
        } else {
            assert(next.dir == state.above && next.index == 0 && next.above == up(state.above));
            assert(state.index + 1 == count);
            assert(depth(next.above) + 1 <= depth(state.above));
            assert(depth(next.above) * count + count <= depth(state.above) * count)
                by (nonlinear_arith)
                requires
                    depth(next.above) + 1 <= depth(state.above),
                    count >= 0,
            ;
        }
    }
}

/// A search that has no candidate left answers what it found, whatever the
/// disk holds.
pub proof fn lemma_search_end(state: SearchState, disk: Disk)
    requires
        state.wf(),
        state.candidate() is None,
    ensures
        state.outcome(disk) == state.found,
        state.leaves_off(disk) == state.above,
{
}

/// The search for the override of one host name, one probe at a time.
///
/// The search names a candidate file; its driver tries to read that file and
/// reports what it got; the search then names the next candidate, until it
/// has none left and holds the result.
pub struct Search<'a> {
    finder: HostsUpwardFinder<'a>,
    dir: Option<&'a [PathComponent]>,
    filenames: Vec<String>,
    index: usize,
    hostname: String,
    found: Option<Address>,
}

impl<'a> View for Search<'a> {
    type V = SearchState;

    closed spec fn view(&self) -> SearchState {
        SearchState {
            dir: match self.dir {
                Some(d) => Some(path_view(d@)),
                None => None,
            },
            above: self.finder@,
            names: string_texts(self.filenames@),
            index: self.index as int,
            hostname: self.hostname@,
            found: self.found,
        }
    }
}

/// The texts of an optional list of lines.
pub open spec fn contents_text(contents: Option<&[String]>) -> Option<Seq<Seq<char>>> {
    match contents {
        Some(lines) => Some(string_texts(lines@)),
        None => None,
    }
}

impl<'a> Search<'a> {
    #[verifier::type_invariant]
    spec fn inv(self) -> bool {
        self.index < self.filenames@.len()
    }

    /// Starts the search for `hostname` with the environment tag `env`, over
    /// the directories that `finder` yields.
    pub fn new(finder: HostsUpwardFinder<'a>, hostname: &str, env: Option<&str>) -> (r: Self)
        ensures
            r@ == SearchState::start(finder@, hostname@, candidates(tag_text(env))),
    {
        let mut finder = finder;
        let dir = finder.next();
        let filenames = candidate_filenames(env);
        assert(string_texts(filenames@).len() == candidates(tag_text(env)).len());
        Search { finder, dir, filenames, index: 0, hostname: String::from_str(hostname), found: None }
    }

    /// The directory and the name of the file to probe next, or `None` once
    /// the search is over.
    pub fn candidate(&self) -> (r: Option<(&'a [PathComponent], &str)>)
        ensures
            match self@.candidate() {
                Some((dir, name)) => r matches Some((d, n)) && path_view(d@) == dir && n@ == name,
                None => r is None,
            },
    {
        proof {
            use_type_invariant(self);
        }
        if self.found.is_some() {
            return None;
        }
        match self.dir {
            Some(dir) => Some((dir, self.filenames[self.index].as_str())),
            None => None,
        }
    }

    /// Takes the outcome of the probe of the candidate: the lines of the file,
    /// or `None` where it could not be opened. Without a candidate nothing
    /// changes.
    pub fn advance(&mut self, contents: Option<&[String]>)
        ensures
            final(self)@ == old(self)@.step(contents_text(contents)),
    {
        proof {
            use_type_invariant(&*self);
        }
        let count = self.filenames.len();
        if self.found.is_some() || self.dir.is_none() {
            return ;
        }
        let hit = match contents {
            Some(lines) => find(lines, self.hostname.as_str()),
            None => None,
        };
        if hit.is_some() {
            self.found = hit;
        } else if self.index + 1 < count {
            self.index = self.index + 1;
        } else {
            let mut finder = HostsUpwardFinder { path: self.finder.path };
            let dir = finder.next();
            self.index = 0;
            self.finder = finder;
            self.dir = dir;
        }
    }

    /// The override that the search found. `None` while the search is under
    /// way, and at its end where no file gave one.
    pub fn result(&self) -> (r: Option<Address>)
        ensures
            r == self@.found,
    {
        self.found
    }
}

/// One override file of a listing held in memory: where it lies, its name,
/// and its lines.
#[derive(Debug, Clone, PartialEq, Eq)]
pub struct HostsFile {
    pub dir: Vec<PathComponent>,
    pub name: String,
    pub lines: Vec<String>,
}

/// The lines of the first file of the listing that lies at `key`.
pub open spec fn file_at(files: Seq<HostsFile>, key: (Seq<Component>, Seq<char>)) -> Option<
    Seq<Seq<char>>,
>
    decreases files.len(),
{
    if files.len() == 0 {
        None
    } else if (path_view(files[0].dir@), files[0].name@) == key {
        Some(string_texts(files[0].lines@))
    } else {
        file_at(files.drop_first(), key)
    }
}

/// The disk that holds the files of the listing and no others. Where two
/// entries lie at the same place, the first one counts.
pub open spec fn disk_of(files: Seq<HostsFile>) -> Disk {
    Map::new(
        |key: (Seq<Component>, Seq<char>)| file_at(files, key) is Some,
        |key: (Seq<Component>, Seq<char>)| file_at(files, key)->0,
    )
}

/// The lines of the file `name` in `dir`, where the listing holds it.
pub fn read_file<'f>(files: &'f [HostsFile], dir: &[PathComponent], name: &str) -> (r: Option<
    &'f [String],
>)
    ensures
        contents_text(r) == file_at(files@, (path_view(dir@), name@)),
{
    let ghost key = (path_view(dir@), name@);
    let mut i: usize = 0;
    assert(files@.skip(0) == files@);
    while i < files.len()
        invariant
            i <= files.len(),
            key == (path_view(dir@), name@),
            file_at(files@, key) == file_at(files@.skip(i as int), key),
        decreases files.len() - i,
    {
        proof {
            assert(files@.skip(i as int)[0] == files@[i as int]);
            assert(files@.skip(i as int).drop_first() == files@.skip(i + 1));
        }
        if same_path(files[i].dir.as_slice(), dir) && same_string(files[i].name.as_str(), name) {
            return Some(files[i].lines.as_slice());
        }
        i += 1;
    }
    None
}

impl<'a> HostsUpwardFinder<'a> {
    /// Looks for the override of `hostname` in the directories that are left,
    /// nearest first, where `files` lists the override files that can be
    /// read. In each directory the candidate files of `env` are tried in
    /// order; the first record that names `hostname` decides. The finder is
    /// left at the parent of the directory that decided, or with nothing
    /// left where none did.
    pub fn find(&mut self, hostname: &str, env: Option<&str>, files: &[HostsFile]) -> (r: Option<
        Address,
    >)
        ensures
            r == search_up(disk_of(files@), old(self)@, candidates(tag_text(env)), hostname@),
            final(self)@ == walk_end(
                disk_of(files@),
                old(self)@,
                candidates(tag_text(env)),
                hostname@,
            ),
    {
        let ghost disk = disk_of(files@);
        let ghost names = candidates(tag_text(env));
        let ghost from = self@;
        let mut search = Search::new(HostsUpwardFinder { path: self.path }, hostname, env);
        proof {
            lemma_search_start(disk, from, hostname@, names);
        }
        loop
            invariant
                disk == disk_of(files@),
                search@.wf(),
                search@.outcome(disk) == search_up(disk, from, names, hostname@),
                search@.leaves_off(disk) == walk_end(disk, from, names, hostname@),
            ensures
                search@.candidate() is None,
            decreases search@.probes_left(),
        {
            match search.candidate() {
                None => {
                    break ;
                },
                Some((dir, name)) => {
                    let contents = read_file(files, dir, name);
                    proof {
                        lemma_search_step(search@, disk);
                        lemma_search_progress(search@, contents_text(contents));
                        assert(contents_text(contents) == search@.seen(disk));
                    }
                    search.advance(contents);
                },
            }
        }
        proof {
            lemma_search_end(search@, disk);
        }
        self.path = search.finder.path;
        search.result()
    }
}

/// Starts the search for the override of `hostname` from the directory
/// `curr_dir`, with the environment tag `env`.
pub fn find_by_hostname<'a>(curr_dir: &'a [PathComponent], hostname: &str, env: Option<&str>) -> (r:
    Search<'a>)
    ensures
        r@ == SearchState::start(Some(path_view(curr_dir@)), hostname@, candidates(tag_text(env))),
        forall|disk: Disk|
            #[trigger] r@.outcome(disk) == resolve(
                disk,
                path_view(curr_dir@),
                hostname@,
                tag_text(env),
            ),
{
    let search = Search::new(HostsUpwardFinder::new(curr_dir), hostname, env);
    proof {
        assert forall|disk: Disk|
            #[trigger] search@.outcome(disk) == resolve(
                disk,
                path_view(curr_dir@),
                hostname@,
                tag_text(env),
            ) by {
            lemma_search_start(
                disk,
                Some(path_view(curr_dir@)),
                hostname@,
                candidates(tag_text(env)),
            );
        }
    }
    search
}

/// Repeated queries agree: two answers to the same query over the same disk
/// are the same answer.
pub proof fn lemma_repeated_queries_agree(
    disk: Disk,
    cwd: Seq<Component>,
    hostname: Seq<char>,
    env: Option<Seq<char>>,
    first: SearchState,
    second: SearchState,
)
    requires
        first.wf() && first.candidate() is None,
        second.wf() && second.candidate() is None,
        first.outcome(disk) == resolve(disk, cwd, hostname, env),
        second.outcome(disk) == resolve(disk, cwd, hostname, env),
    ensures
        first.found == second.found,
{
    lemma_search_end(first, disk);
    lemma_search_end(second, disk);
}

} // verus!
