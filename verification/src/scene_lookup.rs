//! Finding the objects of a scene by their place in the hierarchy.

use crate::error::RepackError;
use crate::pptr::PathId;
use crate::text::str_eq;
use crate::unity_types::SceneObjects;
use vstd::prelude::*;
use vstd::string::StrSliceExecFns;

verus! {

/// The pieces of `s` between the separators, scanned from `i` on, where the
/// piece being read began at `start`.
pub open spec fn split_scan(s: Seq<char>, sep: char, start: int, i: int) -> Seq<Seq<char>>
    decreases s.len() - i,
{
    if i < 0 || i >= s.len() {
        seq![s.subrange(start, s.len() as int)]
    } else if s[i] == sep {
        seq![s.subrange(start, i)] + split_scan(s, sep, i + 1, i + 1)
    } else {
        split_scan(s, sep, start, i + 1)
    }
}

/// The segments of a hierarchy path: the pieces between the slashes. A path
/// without a slash is one segment, also where it is empty.
pub open spec fn path_segments(path: Seq<char>) -> Seq<Seq<char>> {
    split_scan(path, '/', 0, 0)
}

/// Whether the strings are the given segments, one for one.
pub open spec fn spell(parts: Seq<&str>, segments: Seq<Seq<char>>) -> bool {
    &&& parts.len() == segments.len()
    &&& forall|i: int| 0 <= i < parts.len() ==> (#[trigger] parts[i])@ == segments[i]
}

/// Splits a hierarchy path at its slashes.
pub fn split_path<'a>(path: &'a str) -> (parts: Vec<&'a str>)
    ensures
        spell(parts@, path_segments(path@)),
        parts@.len() >= 1,
{
    let len: usize = path.unicode_len();
    let mut parts: Vec<&'a str> = Vec::new();
    let ghost mut done: Seq<Seq<char>> = Seq::empty();
    let mut start: usize = 0;
    let mut i: usize = 0;
    while i < len
        invariant
            len == path@.len(),
            start <= i <= len,
            spell(parts@, done),
            path_segments(path@) == done + split_scan(path@, '/', start as int, i as int),
        decreases len - i,
    {
        let c = path.get_char(i);
        if c == '/' {
            let part = path.substring_char(start, i);
            parts.push(part);
            proof {
                let next = done.push(path@.subrange(start as int, i as int));
                assert(done + (seq![path@.subrange(start as int, i as int)] + split_scan(
                    path@,
                    '/',
                    i + 1,
                    i + 1,
                )) =~= next + split_scan(path@, '/', i + 1, i + 1));
                done = next;
            }
            start = i + 1;
        }
        i += 1;
    }
    let part = path.substring_char(start, len);
    parts.push(part);
    proof {
        assert(done + seq![path@.subrange(start as int, len as int)] =~= done.push(
            path@.subrange(start as int, len as int),
        ));
    }
    parts
}

/// A root of a scene: where its transform and its game object stand in the
/// scene's lists.
#[derive(Clone, Copy, Debug)]
pub struct Root {
    pub transform: usize,
    pub game_object: usize,
}

/// Whether one of the roots bears the name.
pub open spec fn has_root_named(scene: &SceneObjects, roots: Seq<Root>, name: Seq<char>) -> bool {
    exists|i: int|
        0 <= i < roots.len() && scene.game_objects@[(#[trigger] roots[i]).game_object as int].1.name@
            == name
}

/// Whether every root stands inside the scene's lists.
pub open spec fn roots_in_range(scene: &SceneObjects, roots: Seq<Root>) -> bool {
    forall|i: int|
        0 <= i < roots.len() ==> (#[trigger] roots[i]).transform < scene.transforms@.len()
            && roots[i].game_object < scene.game_objects@.len()
}

/// The roots among the first `n` transforms: those without a father, each
/// under the name of its game object. Of several with one name the first
/// stays. A root whose game object is absent is a failure.
pub open spec fn roots_upto(scene: &SceneObjects, n: int) -> Result<Seq<Root>, RepackError>
    decreases n,
{
    if n <= 0 {
        Ok(Seq::empty())
    } else {
        match roots_upto(scene, n - 1) {
            Err(e) => Err(e),
            Ok(before) => {
                let t = scene.transforms@[n - 1].1;
                if !t.father.spec_is_null() {
                    Ok(before)
                } else {
                    match scene.game_object_at(t.game_object.path_id) {
                        None => Err(RepackError::MissingObject(t.game_object.path_id)),
                        Some(g) => if has_root_named(scene, before, scene.game_objects@[g].1.name@) {
                            Ok(before)
                        } else {
                            Ok(before.push(Root { transform: (n - 1) as usize, game_object: g as usize }))
                        },
                    }
                }
            },
        }
    }
}

/// The position among the roots, at or behind `from`, of the first that
/// bears the name.
pub open spec fn root_named(scene: &SceneObjects, roots: Seq<Root>, name: Seq<char>, from: int)
    -> Option<int>
    decreases roots.len() - from,
{
    if from < 0 || from >= roots.len() {
        None
    } else if scene.game_objects@[roots[from].game_object as int].1.name@ == name {
        Some(from)
    } else {
        root_named(scene, roots, name, from + 1)
    }
}

/// A transform that a path leads to: its path id and where it stands.
#[derive(Clone, Copy, Debug)]
pub struct Found {
    pub path_id: PathId,
    pub transform: usize,
}

/// Those of the first `n` children of the transform at `t` whose game
/// object bears the name, in their order. A child or a game object that is
/// absent is a failure.
pub open spec fn named_children(scene: &SceneObjects, t: int, n: int, name: Seq<char>) -> Result<
    Seq<Found>,
    RepackError,
>
    decreases n,
{
    if n <= 0 {
        Ok(Seq::empty())
    } else {
        match named_children(scene, t, n - 1, name) {
            Err(e) => Err(e),
            Ok(before) => {
                let child = scene.transforms@[t].1.children@[n - 1];
                match scene.transform_at(child.path_id) {
                    None => Err(RepackError::MissingObject(child.path_id)),
                    Some(c) => {
                        let go = scene.transforms@[c].1.game_object;
                        match scene.game_object_at(go.path_id) {
                            None => Err(RepackError::MissingObject(go.path_id)),
                            Some(g) => if scene.game_objects@[g].1.name@ == name {
                                Ok(before.push(Found { path_id: child.path_id, transform: c as usize }))
                            } else {
                                Ok(before)
                            },
                        }
                    },
                }
            },
        }
    }
}

/// The children of the first `m` transforms of `current` that bear the name.
pub open spec fn descend(scene: &SceneObjects, current: Seq<Found>, m: int, name: Seq<char>)
    -> Result<Seq<Found>, RepackError>
    decreases m,
{
    if m <= 0 {
        Ok(Seq::empty())
    } else {
        match descend(scene, current, m - 1, name) {
            Err(e) => Err(e),
            Ok(before) => {
                let t = current[m - 1].transform as int;
                match named_children(
                    scene,
                    t,
                    scene.transforms@[t].1.children@.len() as int,
                    name,
                ) {
                    Err(e) => Err(e),
                    Ok(found) => Ok(before + found),
                }
            },
        }
    }
}

/// The transforms that the first `k` segments of a path lead to. The first
/// segment names a root, every further one a child of what the segments
/// before it led to. Where nothing is found, nothing is searched further.
pub open spec fn resolve(
    scene: &SceneObjects,
    roots: Seq<Root>,
    segments: Seq<Seq<char>>,
    k: int,
) -> Result<Seq<Found>, RepackError>
    decreases k,
{
    if k <= 1 {
        match root_named(scene, roots, segments[0], 0) {
            None => Ok(Seq::empty()),
            Some(r) => Ok(
                seq![
                    Found {
                        path_id: scene.transforms@[roots[r].transform as int].0,
                        transform: roots[r].transform,
                    },
                ],
            ),
        }
    } else {
        match resolve(scene, roots, segments, k - 1) {
            Err(e) => Err(e),
            Ok(current) => if current.len() == 0 {
                Ok(Seq::empty())
            } else {
                descend(scene, current, current.len() as int, segments[k - 1])
            },
        }
    }
}

/// Whether every transform found stands inside the scene's list.
pub open spec fn found_in_range(scene: &SceneObjects, found: Seq<Found>) -> bool {
    forall|i: int| 0 <= i < found.len() ==> (#[trigger] found[i]).transform < scene.transforms@.len()
}

/// Answers which transform a hierarchy path leads to.
pub struct SceneLookup<'a> {
    pub roots: Vec<Root>,
    pub scene: &'a SceneObjects,
}

impl<'a> SceneLookup<'a> {
    /// Whether the roots are those of the scene.
    pub open spec fn well_formed(&self) -> bool {
        &&& roots_upto(self.scene, self.scene.transforms@.len() as int) == Ok::<
            Seq<Root>,
            RepackError,
        >(self.roots@)
        &&& roots_in_range(self.scene, self.roots@)
    }

    /// What a path leads to: all transforms that match it.
    pub open spec fn candidates(&self, path: Seq<char>) -> Result<Seq<Found>, RepackError> {
        let segments = path_segments(path);
        resolve(self.scene, self.roots@, segments, segments.len() as int)
    }

    /// Collects the roots of the scene.
    pub fn new(scene: &'a SceneObjects) -> (r: Result<SceneLookup<'a>, RepackError>)
        ensures
            match r {
                Ok(lookup) => lookup.scene == scene && lookup.well_formed(),
                Err(e) => roots_upto(scene, scene.transforms@.len() as int) == Err::<
                    Seq<Root>,
                    RepackError,
                >(e),
            },
    {
        let mut roots: Vec<Root> = Vec::new();
        let mut i: usize = 0;
        while i < scene.transforms.len()
            invariant
                i <= scene.transforms.len(),
                roots_upto(scene, i as int) == Ok::<Seq<Root>, RepackError>(roots@),
                roots_in_range(scene, roots@),
            decreases scene.transforms.len() - i,
        {
            let transform = &scene.transforms[i].1;
            if transform.father.is_null() {
                match scene.find_game_object(transform.game_object.path_id) {
                    None => {
                        proof {
                            lemma_roots_failure_stays(
                                scene,
                                i + 1,
                                scene.transforms@.len() as int,
                            );
                        }
                        return Err(RepackError::MissingObject(transform.game_object.path_id));
                    },
                    Some(g) => {
                        let name = scene.game_objects[g].1.name.as_str();
                        if find_root(scene, &roots, name).is_none() {
                            roots.push(Root { transform: i, game_object: g });
                        }
                    },
                }
            }
            i += 1;
        }
        Ok(SceneLookup { roots, scene })
    }

    /// Finds all transforms that a hierarchy path leads to.
    ///
    /// The path is split at its slashes. The first segment names a root by
    /// the name of its game object, every further segment a child of the
    /// transforms found so far. The result lists the matches in the order
    /// in which they are met; it is empty where a segment matches nothing.
    pub fn lookup_candidates(&self, path: &str) -> (r: Result<Vec<Found>, RepackError>)
        requires
            self.well_formed(),
        ensures
            match r {
                Ok(found) => self.candidates(path@) == Ok::<Seq<Found>, RepackError>(found@)
                    && found_in_range(self.scene, found@),
                Err(e) => self.candidates(path@) == Err::<Seq<Found>, RepackError>(e),
            },
    {
        let segments = split_path(path);
        let ghost wanted = path_segments(path@);
        let mut current: Vec<Found> = Vec::new();
        match find_root(self.scene, &self.roots, segments[0]) {
            None => {},
            Some(r) => {
                let t = self.roots[r].transform;
                current.push(Found { path_id: self.scene.transforms[t].0, transform: t });
            },
        }
        assert(resolve(self.scene, self.roots@, wanted, 1) == Ok::<Seq<Found>, RepackError>(
            current@,
        ));
        let mut k: usize = 1;
        while k < segments.len()
            invariant
                1 <= k <= segments.len(),
                wanted == path_segments(path@),
                spell(segments@, wanted),
                self.well_formed(),
                found_in_range(self.scene, current@),
                resolve(self.scene, self.roots@, wanted, k as int) == Ok::<
                    Seq<Found>,
                    RepackError,
                >(current@),
            decreases segments.len() - k,
        {
            assert(segments@[k as int]@ == wanted[k as int]);
            if current.len() == 0 {
                proof {
                    assert(current@ =~= Seq::empty());
                    lemma_resolve_nothing_stays(
                        self.scene,
                        self.roots@,
                        wanted,
                        k as int,
                        wanted.len() as int,
                    );
                }
                assert(current@ =~= Seq::empty());
                return Ok(current);
            }
            match find_below(self.scene, &current, segments[k]) {
                Err(e) => {
                    proof {
                        lemma_resolve_failure_stays(
                            self.scene,
                            self.roots@,
                            wanted,
                            k + 1,
                            wanted.len() as int,
                        );
                    }
                    return Err(e);
                },
                Ok(found) => {
                    current = found;
                },
            }
            k += 1;
        }
        Ok(current)
    }

    /// Finds the transform that a hierarchy path leads to: the last of the
    /// transforms that match it, if any does.
    pub fn lookup_path(&self, path: &str) -> (r: Result<Option<Found>, RepackError>)
        requires
            self.well_formed(),
        ensures
            match r {
                Ok(Some(found)) => self.candidates(path@) is Ok && self.candidates(path@)->Ok_0.len()
                    > 0 && found == self.candidates(path@)->Ok_0.last() && found.transform
                    < self.scene.transforms@.len(),
                Ok(None) => self.candidates(path@) is Ok && self.candidates(path@)->Ok_0.len() == 0,
                Err(e) => self.candidates(path@) == Err::<Seq<Found>, RepackError>(e),
            },
    {
        match self.lookup_candidates(path) {
            Err(e) => Err(e),
            Ok(found) => {
                if found.len() == 0 {
                    Ok(None)
                } else {
                    Ok(Some(found[found.len() - 1]))
                }
            },
        }
    }
}

/// Finds the root that bears the name.
fn find_root(scene: &SceneObjects, roots: &Vec<Root>, name: &str) -> (r: Option<usize>)
    requires
        roots_in_range(scene, roots@),
    ensures
        match r {
            Some(i) => root_named(scene, roots@, name@, 0) == Some(i as int) && i < roots@.len()
                && has_root_named(scene, roots@, name@),
            None => root_named(scene, roots@, name@, 0) is None && !has_root_named(
                scene,
                roots@,
                name@,
            ),
        },
{
    let mut i: usize = 0;
    while i < roots.len()
        invariant
            i <= roots.len(),
            roots_in_range(scene, roots@),
            root_named(scene, roots@, name@, 0) == root_named(scene, roots@, name@, i as int),
            forall|k: int|
                0 <= k < i ==> scene.game_objects@[(#[trigger] roots@[k]).game_object as int].1.name@
                    != name@,
        decreases roots.len() - i,
    {
        let g = roots[i].game_object;
        if str_eq(scene.game_objects[g].1.name.as_str(), name) {
            assert(scene.game_objects@[roots@[i as int].game_object as int].1.name@ == name@);
            return Some(i);
        }
        i += 1;
    }
    None
}

/// Finds the children of one transform that bear the name.
fn find_children(scene: &SceneObjects, t: usize, name: &str, out: &mut Vec<Found>) -> (r: Result<
    (),
    RepackError,
>)
    requires
        t < scene.transforms@.len(),
        found_in_range(scene, old(out)@),
    ensures
        match r {
            Ok(()) => {
                &&& named_children(
                    scene,
                    t as int,
                    scene.transforms@[t as int].1.children@.len() as int,
                    name@,
                ) is Ok
                &&& final(out)@ == old(out)@ + named_children(
                    scene,
                    t as int,
                    scene.transforms@[t as int].1.children@.len() as int,
                    name@,
                )->Ok_0
                &&& found_in_range(scene, final(out)@)
            },
            Err(e) => named_children(
                scene,
                t as int,
                scene.transforms@[t as int].1.children@.len() as int,
                name@,
            ) == Err::<Seq<Found>, RepackError>(e),
        },
{
    let transform = &scene.transforms[t].1;
    let mut n: usize = 0;
    assert(old(out)@ + Seq::<Found>::empty() =~= old(out)@);
    while n < transform.children.len()
        invariant
            n <= transform.children.len(),
            t < scene.transforms@.len(),
            *transform == scene.transforms@[t as int].1,
            found_in_range(scene, out@),
            named_children(scene, t as int, n as int, name@) is Ok,
            out@ == old(out)@ + named_children(scene, t as int, n as int, name@)->Ok_0,
        decreases transform.children.len() - n,
    {
        let child = transform.children[n];
        let ghost before = named_children(scene, t as int, n as int, name@)->Ok_0;
        match scene.find_transform(child.path_id) {
            None => {
                proof {
                    lemma_children_failure_stays(
                        scene,
                        t as int,
                        n + 1,
                        transform.children@.len() as int,
                        name@,
                    );
                }
                return Err(RepackError::MissingObject(child.path_id));
            },
            Some(c) => {
                let go = scene.transforms[c].1.game_object;
                match scene.find_game_object(go.path_id) {
                    None => {
                        proof {
                            lemma_children_failure_stays(
                                scene,
                                t as int,
                                n + 1,
                                transform.children@.len() as int,
                                name@,
                            );
                        }
                        return Err(RepackError::MissingObject(go.path_id));
                    },
                    Some(g) => {
                        if str_eq(scene.game_objects[g].1.name.as_str(), name) {
                            out.push(Found { path_id: child.path_id, transform: c });
                            assert(out@ =~= old(out)@ + before.push(
                                Found { path_id: child.path_id, transform: c },
                            ));
                        }
                    },
                }
            },
        }
        n += 1;
    }
    Ok(())
}

/// Finds the children of the transforms in `current` that bear the name.
fn find_below(scene: &SceneObjects, current: &Vec<Found>, name: &str) -> (r: Result<
    Vec<Found>,
    RepackError,
>)
    requires
        found_in_range(scene, current@),
    ensures
        match r {
            Ok(found) => descend(scene, current@, current@.len() as int, name@) == Ok::<
                Seq<Found>,
                RepackError,
            >(found@) && found_in_range(scene, found@),
            Err(e) => descend(scene, current@, current@.len() as int, name@) == Err::<
                Seq<Found>,
                RepackError,
            >(e),
        },
{
    let mut found: Vec<Found> = Vec::new();
    let mut m: usize = 0;
    while m < current.len()
        invariant
            m <= current.len(),
            found_in_range(scene, current@),
            found_in_range(scene, found@),
            descend(scene, current@, m as int, name@) == Ok::<Seq<Found>, RepackError>(found@),
        decreases current.len() - m,
    {
        match find_children(scene, current[m].transform, name, &mut found) {
            Err(e) => {
                proof {
                    lemma_descend_failure_stays(
                        scene,
                        current@,
                        m + 1,
                        current@.len() as int,
                        name@,
                    );
                }
                return Err(e);
            },
            Ok(()) => {},
        }
        m += 1;
    }
    Ok(found)
}

pub proof fn lemma_roots_failure_stays(scene: &SceneObjects, n: int, m: int)
    requires
        n <= m,
        roots_upto(scene, n) is Err,
    ensures
        roots_upto(scene, m) == roots_upto(scene, n),
    decreases m - n,
{
    if n < m {
        lemma_roots_failure_stays(scene, n, m - 1);
    }
}

pub proof fn lemma_children_failure_stays(
    scene: &SceneObjects,
    t: int,
    n: int,
    m: int,
    name: Seq<char>,
)
    requires
        n <= m,
        named_children(scene, t, n, name) is Err,
    ensures
        named_children(scene, t, m, name) == named_children(scene, t, n, name),
    decreases m - n,
{
    if n < m {
        lemma_children_failure_stays(scene, t, n, m - 1, name);
    }
}

pub proof fn lemma_descend_failure_stays(
    scene: &SceneObjects,
    current: Seq<Found>,
    n: int,
    m: int,
    name: Seq<char>,
)
    requires
        n <= m,
        descend(scene, current, n, name) is Err,
    ensures
        descend(scene, current, m, name) == descend(scene, current, n, name),
    decreases m - n,
{
    if n < m {
        lemma_descend_failure_stays(scene, current, n, m - 1, name);
    }
}

pub proof fn lemma_resolve_failure_stays(
    scene: &SceneObjects,
    roots: Seq<Root>,
    segments: Seq<Seq<char>>,
    n: int,
    m: int,
)
    requires
        1 <= n <= m,
        resolve(scene, roots, segments, n) is Err,
    ensures
        resolve(scene, roots, segments, m) == resolve(scene, roots, segments, n),
    decreases m - n,
{
    if n < m {
        lemma_resolve_failure_stays(scene, roots, segments, n, m - 1);
    }
}

pub proof fn lemma_resolve_nothing_stays(
    scene: &SceneObjects,
    roots: Seq<Root>,
    segments: Seq<Seq<char>>,
    n: int,
    m: int,
)
    requires
        1 <= n <= m,
        resolve(scene, roots, segments, n) == Ok::<Seq<Found>, RepackError>(Seq::empty()),
    ensures
        resolve(scene, roots, segments, m) == Ok::<Seq<Found>, RepackError>(Seq::empty()),
    decreases m - n,
{
    if n < m {
        lemma_resolve_nothing_stays(scene, roots, segments, n, m - 1);
    }
}

} // verus!
