//! Paths as lists of components.
//!
//! A path is held as the components that a walk over it meets, from the root
//! end to the leaf: an optional prefix, an optional root, and then names, `.`
//! and `..` entries. Nothing here touches the file system.

use vstd::prelude::*;
use crate::text::same_string;

verus! {

/// One component of a path.
#[derive(Debug, Clone, PartialEq, Eq)]
pub enum PathComponent {
    /// A volume or drive prefix, such as `C:`.
    Prefix(String),
    /// The root directory.
    RootDir,
    /// The current directory, `.`.
    CurDir,
    /// The parent directory, `..`.
    ParentDir,
    /// A plain name.
    Normal(String),
}

/// The mathematical value of a [`PathComponent`].
pub enum Component {
    Prefix(Seq<char>),
    RootDir,
    CurDir,
    ParentDir,
    Normal(Seq<char>),
}

impl View for PathComponent {
    type V = Component;

    open spec fn view(&self) -> Component {
        match self {
            PathComponent::Prefix(p) => Component::Prefix(p@),
            PathComponent::RootDir => Component::RootDir,
            PathComponent::CurDir => Component::CurDir,
            PathComponent::ParentDir => Component::ParentDir,
            PathComponent::Normal(n) => Component::Normal(n@),
        }
    }
}

impl PathComponent {
    /// A copy of the component.
    pub fn duplicate(&self) -> (r: PathComponent)
        ensures
            r@ == self@,
    {
        match self {
            PathComponent::Prefix(p) => PathComponent::Prefix(p.clone()),
            PathComponent::RootDir => PathComponent::RootDir,
            PathComponent::CurDir => PathComponent::CurDir,
            PathComponent::ParentDir => PathComponent::ParentDir,
            PathComponent::Normal(n) => PathComponent::Normal(n.clone()),
        }
    }
}

/// The mathematical value of a path: the values of its components.
pub open spec fn path_view(path: Seq<PathComponent>) -> Seq<Component> {
    Seq::new(path.len(), |i: int| path[i]@)
}

/// Whether two components have the same value.
pub fn same_component(a: &PathComponent, b: &PathComponent) -> (r: bool)
    ensures
        r == (a@ == b@),
{
    match (a, b) {
        (PathComponent::Prefix(x), PathComponent::Prefix(y)) => same_string(x.as_str(), y.as_str()),
        (PathComponent::RootDir, PathComponent::RootDir) => true,
        (PathComponent::CurDir, PathComponent::CurDir) => true,
        (PathComponent::ParentDir, PathComponent::ParentDir) => true,
        (PathComponent::Normal(x), PathComponent::Normal(y)) => same_string(x.as_str(), y.as_str()),
        _ => false,
    }
}

/// Whether two paths have the same components.
pub fn same_path(a: &[PathComponent], b: &[PathComponent]) -> (r: bool)
    ensures
        r == (path_view(a@) == path_view(b@)),
{
    if a.len() != b.len() {
        assert(path_view(a@).len() != path_view(b@).len());
        return false;
    }
    let mut i: usize = 0;
    while i < a.len()
        invariant
            a.len() == b.len(),
            i <= a.len(),
            forall|j: int| 0 <= j < i ==> (#[trigger] a@[j])@ == b@[j]@,
        decreases a.len() - i,
    {
        if !same_component(&a[i], &b[i]) {
            assert(path_view(a@)[i as int] != path_view(b@)[i as int]);
            return false;
        }
        i += 1;
    }
    assert(path_view(a@) =~= path_view(b@));
    true
}

/// A list of components is a path where a prefix stands first if at all, and a
/// root stands first or right after the prefix.
pub open spec fn is_path(path: Seq<Component>) -> bool {
    forall|i: int|
        0 <= i < path.len() ==> {
            &&& (#[trigger] path[i]) is Prefix ==> i == 0
            &&& path[i] is RootDir ==> i == 0 || (i == 1 && path[0] is Prefix)
        }
}

/// The path one level up: `path` without its last component where that is a
/// name, `.` or `..`. The empty path, a root and a bare prefix have no parent.
pub open spec fn parent(path: Seq<Component>) -> Option<Seq<Component>> {
    if path.len() == 0 || path.last() is RootDir || path.last() is Prefix {
        None
    } else {
        Some(path.drop_last())
    }
}

/// The effect of one more component `c` on an already normalized path: `.`
/// changes nothing, `..` removes a trailing name, anything else is appended.
pub open spec fn normalize_step(done: Seq<Component>, c: Component) -> Seq<Component> {
    match c {
        Component::CurDir => done,
        Component::ParentDir => if done.len() > 0 && done.last() is Normal {
            done.drop_last()
        } else {
            done
        },
        _ => done.push(c),
    }
}

/// The normal form of `path`: its components taken in order, each `.` dropped
/// and each `..` resolved against the name before it, without looking at the
/// file system. A `..` with no name before it is dropped.
pub open spec fn normalize(path: Seq<Component>) -> Seq<Component>
    decreases path.len(),
{
    if path.len() == 0 {
        Seq::empty()
    } else {
        normalize_step(normalize(path.drop_last()), path.last())
    }
}

/// A normal form holds no `.` and no `..`, and is no longer than the path.
pub proof fn lemma_normalize_shape(path: Seq<Component>)
    ensures
        normalize(path).len() <= path.len(),
        forall|i: int|
            0 <= i < normalize(path).len() ==> !((#[trigger] normalize(path)[i]) is CurDir)
                && !(normalize(path)[i] is ParentDir),
    decreases path.len(),
{
    if path.len() > 0 {
        lemma_normalize_shape(path.drop_last());
        let done = normalize(path.drop_last());
        let n = normalize(path);
        assert forall|i: int| 0 <= i < n.len() implies !((#[trigger] n[i]) is CurDir) && !(n[i]
            is ParentDir) by {
            if i < done.len() {
                assert(n[i] == done[i]);
            }
        }
    }
}

/// The normal form of a path is a path again, with the same prefix.
pub proof fn lemma_normalize_keeps_path(path: Seq<Component>)
    requires
        is_path(path),
    ensures
        is_path(normalize(path)),
        path.len() > 0 && path[0] is Prefix ==> normalize(path).len() > 0 && normalize(path)[0]
            == path[0],
    decreases path.len(),
{
    if path.len() > 0 {
        let front = path.drop_last();
        assert forall|i: int| 0 <= i < front.len() implies {
            &&& (#[trigger] front[i]) is Prefix ==> i == 0
            &&& front[i] is RootDir ==> i == 0 || (i == 1 && front[0] is Prefix)
        } by {
            assert(front[i] == path[i]);
        }
        lemma_normalize_keeps_path(front);
        lemma_normalize_shape(front);
        let done = normalize(front);
        let c = path.last();
        let n = normalize(path);
        assert(n == normalize_step(done, c));
        if c is Prefix {
            assert(path.len() == 1);
            assert(front.len() == 0);
        } else if c is RootDir {
            if path.len() == 1 {
                assert(front.len() == 0);
            } else {
                assert(path.len() == 2 && path[0] is Prefix);
                assert(front.len() == 1 && front[0] == path[0]);
                assert(done.len() == 1);
            }
        } else if c is Normal {
            assert forall|i: int| 0 <= i < n.len() implies {
                &&& (#[trigger] n[i]) is Prefix ==> i == 0
                &&& n[i] is RootDir ==> i == 0 || (i == 1 && n[0] is Prefix)
            } by {
                if i < done.len() {
                    assert(n[i] == done[i]);
                }
            }
        } else if c is ParentDir {
            if done.len() > 0 && done.last() is Normal {
                assert forall|i: int| 0 <= i < n.len() implies {
                    &&& (#[trigger] n[i]) is Prefix ==> i == 0
                    &&& n[i] is RootDir ==> i == 0 || (i == 1 && n[0] is Prefix)
                } by {
                    assert(n[i] == done[i]);
                }
                if path[0] is Prefix {
                    assert(front[0] == path[0]);
                    assert(done[0] == path[0]);
                    assert(done.len() > 1);
                }
            }
        }
        if path[0] is Prefix && path.len() > 1 {
            assert(front[0] == path[0]);
        }
    }
}

/// Normalizing a normal form changes nothing.
pub proof fn lemma_normalize_idempotent(path: Seq<Component>)
    ensures
        normalize(normalize(path)) == normalize(path),
{
    lemma_normalize_shape(path);
    lemma_normalize_plain(normalize(path));
}

/// A path without `.` and `..` is its own normal form.
pub proof fn lemma_normalize_plain(path: Seq<Component>)
    requires
        forall|i: int|
            0 <= i < path.len() ==> !((#[trigger] path[i]) is CurDir) && !(path[i] is ParentDir),
    ensures
        normalize(path) == path,
    decreases path.len(),
{
    if path.len() > 0 {
        let front = path.drop_last();
        assert forall|i: int| 0 <= i < front.len() implies !((#[trigger] front[i]) is CurDir)
            && !(front[i] is ParentDir) by {
            assert(front[i] == path[i]);
        }
        lemma_normalize_plain(front);
        assert(front.push(path.last()) == path);
    }
}

/// Normalizes a path without looking at the file system: drops each `.`, and
/// resolves each `..` against the name before it.
pub fn normalize_path(path: &[PathComponent]) -> (r: Vec<PathComponent>)
    ensures
        path_view(r@) == normalize(path_view(path@)),
{
    let mut ret: Vec<PathComponent> = Vec::new();
    let ghost all = path_view(path@);
    let mut i: usize = 0;
    assert(all.take(0) == Seq::<Component>::empty());
    while i < path.len()
        invariant
            i <= path.len(),
            all == path_view(path@),
            path_view(ret@) == normalize(all.take(i as int)),
        decreases path.len() - i,
    {
        let ghost done = path_view(ret@);
        proof {
            assert(all.take(i + 1).drop_last() == all.take(i as int));
            assert(all.take(i + 1).last() == path@[i as int]@);
        }
        match &path[i] {
            PathComponent::CurDir => {},
            PathComponent::ParentDir => {
                let n = ret.len();
                let ends_in_name = n > 0 && match &ret[n - 1] {
                    PathComponent::Normal(_) => true,
                    _ => false,
                };
                if ends_in_name {
                    ret.pop();
                    assert(path_view(ret@) == done.drop_last());
                }
            },
            component => {
                ret.push(component.duplicate());
                assert(path_view(ret@) == done.push(path@[i as int]@));
            },
        }
        i += 1;
    }
    assert(all.take(i as int) == all);
    ret
}

} // verus!
