use crate::trusted::path_starts_with;
use crate::trusted::starts_with;
use vstd::prelude::*;

verus! {

/// The paths held in a list of strings, each as its characters.
pub open spec fn texts(list: Seq<String>) -> Seq<Seq<char>> {
    list.map_values(|s: String| s@)
}

/// Whether `path` lies under one of `roots`.
pub open spec fn covered(roots: Seq<Seq<char>>, path: Seq<char>) -> bool {
    exists|i: int| 0 <= i < roots.len() && path_starts_with(path, #[trigger] roots[i])
}

/// Whether `i` is the first place in `list` that holds `path`.
pub open spec fn is_first(list: Seq<Seq<char>>, path: Seq<char>, i: int) -> bool {
    &&& 0 <= i < list.len()
    &&& list[i] == path
    &&& forall|j: int| 0 <= j < i ==> list[j] != path
}

/// Moving `path` from one list to the end of another: its first occurrence
/// leaves `from` and joins `to`; where `from` does not hold it, both lists
/// stay as they are.
pub open spec fn moved(from: Seq<Seq<char>>, to: Seq<Seq<char>>, path: Seq<char>) -> (
    Seq<Seq<char>>,
    Seq<Seq<char>>,
) {
    if from.contains(path) {
        let i = choose|i: int| is_first(from, path, i);
        (from.remove(i), to.push(path))
    } else {
        (from, to)
    }
}

/// One requested change of the root set: whether `path` is to be enabled.
#[derive(Debug)]
pub struct RootChange {
    pub path: String,
    pub enabled: bool,
}

/// The state of the root set, as its two lists.
pub struct Roots {
    pub enabled: Seq<Seq<char>>,
    pub disabled: Seq<Seq<char>>,
}

/// The root set after one change.
pub open spec fn changed(roots: Roots, path: Seq<char>, enabled: bool) -> Roots {
    if enabled {
        let (disabled, enabled) = moved(roots.disabled, roots.enabled, path);
        Roots { enabled, disabled }
    } else {
        let (enabled, disabled) = moved(roots.enabled, roots.disabled, path);
        Roots { enabled, disabled }
    }
}

/// The root set after a list of changes, applied in order.
pub open spec fn patched(roots: Roots, changes: Seq<RootChange>) -> Roots
    decreases changes.len(),
{
    if changes.len() == 0 {
        roots
    } else {
        changed(patched(roots, changes.drop_last()), changes.last().path@, changes.last().enabled)
    }
}

proof fn lemma_texts_remove(list: Seq<String>, i: int)
    requires
        0 <= i < list.len(),
    ensures
        texts(list.remove(i)) == texts(list).remove(i),
{
    assert(texts(list.remove(i)) =~= texts(list).remove(i));
}

proof fn lemma_texts_push(list: Seq<String>, s: String)
    ensures
        texts(list.push(s)) == texts(list).push(s@),
{
    assert(texts(list.push(s)) =~= texts(list).push(s@));
}

proof fn lemma_first_is_unique(list: Seq<Seq<char>>, path: Seq<char>, i: int)
    requires
        is_first(list, path, i),
    ensures
        list.contains(path),
        (choose|k: int| is_first(list, path, k)) == i,
{
    let k = choose|k: int| is_first(list, path, k);
    assert(is_first(list, path, k));
    if k < i {
        assert(list[k] != path);
    } else if i < k {
        assert(list[i] != path);
    }
}

/// The first place in `list` that holds `path`, if any does.
fn position(list: &Vec<String>, path: &str) -> (r: Option<usize>)
    ensures
        match r {
            Some(i) => is_first(texts(list@), path@, i as int),
            None => !texts(list@).contains(path@),
        },
{
    let mut i: usize = 0;
    while i < list.len()
        invariant
            i <= list.len(),
            forall|j: int| 0 <= j < i ==> texts(list@)[j] != path@,
        decreases list.len() - i,
    {
        if list[i].as_str().eq(path) {
            return Some(i);
        }
        i += 1;
    }
    None
}

/// Moves `path` from `from` to the end of `to`, if `from` holds it.
fn move_root(from: &mut Vec<String>, to: &mut Vec<String>, path: &str)
    ensures
        (texts(final(from)@), texts(final(to)@)) == moved(
            texts(old(from)@),
            texts(old(to)@),
            path@,
        ),
{
    match position(from, path) {
        Some(i) => {
            proof {
                lemma_first_is_unique(texts(from@), path@, i as int);
                lemma_texts_remove(from@, i as int);
            }
            let root = from.remove(i);
            proof {
                lemma_texts_push(to@, root);
            }
            to.push(root);
        },
        None => {},
    }
}

/// The directories and files to draw from, split into those in use and
/// those set aside. Both lists keep the order in which their paths arrived.
#[derive(Debug)]
pub struct RootSet {
    enabled_roots: Vec<String>,
    disabled_roots: Vec<String>,
}

impl RootSet {
    /// The roots in use, in order.
    pub closed spec fn enabled(&self) -> Seq<Seq<char>> {
        texts(self.enabled_roots@)
    }

    /// The roots set aside, in order.
    pub closed spec fn disabled(&self) -> Seq<Seq<char>> {
        texts(self.disabled_roots@)
    }

    /// Both lists together.
    pub open spec fn view(&self) -> Roots {
        Roots { enabled: self.enabled(), disabled: self.disabled() }
    }

    /// A root set with every given root in use.
    pub fn new(roots: Vec<String>) -> (set: RootSet)
        ensures
            set.enabled() == texts(roots@),
            set.disabled() == Seq::<Seq<char>>::empty(),
    {
        let set = RootSet { enabled_roots: roots, disabled_roots: Vec::new() };
        assert(set.disabled() =~= Seq::<Seq<char>>::empty());
        set
    }

    /// The number of roots in use.
    pub fn enabled_len(&self) -> (n: usize)
        ensures
            n == self.enabled().len(),
    {
        self.enabled_roots.len()
    }

    /// The roots in use.
    pub fn enabled_roots(&self) -> (roots: &Vec<String>)
        ensures
            texts(roots@) == self.enabled(),
    {
        &self.enabled_roots
    }

    /// The roots set aside.
    pub fn disabled_roots(&self) -> (roots: &Vec<String>)
        ensures
            texts(roots@) == self.disabled(),
    {
        &self.disabled_roots
    }

    /// Whether `path` lies under a root in use.
    pub fn covers(&self, path: &str) -> (r: bool)
        ensures
            r == covered(self.enabled(), path@),
    {
        let mut i: usize = 0;
        while i < self.enabled_roots.len()
            invariant
                i <= self.enabled_roots.len(),
                forall|j: int| 0 <= j < i ==> !path_starts_with(path@, #[trigger] self.enabled()[j]),
            decreases self.enabled_roots.len() - i,
        {
            if starts_with(path, self.enabled_roots[i].as_str()) {
                assert(path_starts_with(path@, self.enabled()[i as int]));
                return true;
            }
            i += 1;
        }
        false
    }

    /// Enables or disables one root: a root found in the other list moves to
    /// the end of the list asked for; a path that the other list does not
    /// hold changes nothing.
    pub fn set_enabled(&mut self, path: &str, enabled: bool)
        ensures
            final(self)@ == changed(old(self)@, path@, enabled),
    {
        if enabled {
            move_root(&mut self.disabled_roots, &mut self.enabled_roots, path);
        } else {
            move_root(&mut self.enabled_roots, &mut self.disabled_roots, path);
        }
    }

    /// Applies a list of changes in order.
    pub fn patch(&mut self, changes: &Vec<RootChange>)
        ensures
            final(self)@ == patched(old(self)@, changes@),
    {
        let mut i: usize = 0;
        while i < changes.len()
            invariant
                i <= changes.len(),
                self@ == patched(old(self)@, changes@.take(i as int)),
            decreases changes.len() - i,
        {
            proof {
                let next = changes@.take(i + 1);
                assert(next.drop_last() =~= changes@.take(i as int));
                assert(next.last() == changes@[i as int]);
            }
            self.set_enabled(changes[i].path.as_str(), changes[i].enabled);
            i += 1;
        }
        assert(changes@.take(changes.len() as int) =~= changes@);
    }

    /// Every root with its state: those in use first, then those set
    /// aside, each list in its order.
    pub fn entries(&self) -> (list: Vec<RootChange>)
        ensures
            list@.len() == self.enabled().len() + self.disabled().len(),
            forall|i: int|
                0 <= i < self.enabled().len() ==> (#[trigger] list@[i]).path@ == self.enabled()[i]
                    && list@[i].enabled,
            forall|i: int|
                0 <= i < self.disabled().len() ==> (#[trigger] list@[self.enabled().len()
                    + i]).path@ == self.disabled()[i] && !list@[self.enabled().len() + i].enabled,
    {
        let mut list: Vec<RootChange> = Vec::new();
        let mut i: usize = 0;
        while i < self.enabled_roots.len()
            invariant
                i <= self.enabled_roots.len(),
                list@.len() == i,
                forall|k: int|
                    0 <= k < i ==> (#[trigger] list@[k]).path@ == self.enabled()[k]
                        && list@[k].enabled,
            decreases self.enabled_roots.len() - i,
        {
            list.push(RootChange { path: self.enabled_roots[i].clone(), enabled: true });
            i += 1;
        }
        let count = self.enabled_roots.len();
        let mut j: usize = 0;
        while j < self.disabled_roots.len()
            invariant
                j <= self.disabled_roots.len(),
                count == self.enabled().len(),
                list@.len() == count + j,
                forall|k: int|
                    0 <= k < count ==> (#[trigger] list@[k]).path@ == self.enabled()[k]
                        && list@[k].enabled,
                forall|k: int|
                    0 <= k < j ==> (#[trigger] list@[count + k]).path@ == self.disabled()[k]
                        && !list@[count + k].enabled,
            decreases self.disabled_roots.len() - j,
        {
            list.push(RootChange { path: self.disabled_roots[j].clone(), enabled: false });
            j += 1;
        }
        list
    }

    /// Adds a root in use unless the root set holds it in use already; says
    /// whether it was added.
    pub fn add(&mut self, path: String) -> (added: bool)
        ensures
            added == !old(self).enabled().contains(path@),
            final(self).disabled() == old(self).disabled(),
            final(self).enabled() == if added {
                old(self).enabled().push(path@)
            } else {
                old(self).enabled()
            },
    {
        match position(&self.enabled_roots, path.as_str()) {
            Some(_) => false,
            None => {
                proof {
                    lemma_texts_push(self.enabled_roots@, path);
                }
                self.enabled_roots.push(path);
                true
            },
        }
    }

    /// Takes the root at `index` out of the roots in use; an index past the
    /// end changes nothing.
    pub fn remove(&mut self, index: usize) -> (removed: Option<String>)
        ensures
            final(self).disabled() == old(self).disabled(),
            index < old(self).enabled().len() ==> removed.is_some() && removed.unwrap()@ == old(self).enabled()[index as int] && final(self).enabled() == old(self).enabled().remove(
                index as int,
            ),
            index >= old(self).enabled().len() ==> removed.is_none() && final(self).enabled()
                == old(self).enabled(),
    {
        if index < self.enabled_roots.len() {
            proof {
                lemma_texts_remove(self.enabled_roots@, index as int);
            }
            Some(self.enabled_roots.remove(index))
        } else {
            None
        }
    }
}

} // verus!
