//! The directory walker's policy: which directories are descended into and
//! which files are examined, under an ignore set, a depth limit and the
//! active language's file extension.
//!
//! An entry is named by the components of its path relative to the root;
//! the root itself is at depth 0, and a file directly in it has one component.

use vstd::prelude::*;
use crate::model::strings_view;
use crate::text::str_eq;
use vstd::string::*;

verus! {

/// The policy of one walk; it does not change during the walk.
#[derive(Clone, Debug)]
pub struct TraversalConfig {
    /// Directory names whose whole subtree is skipped.
    pub ignore_dirs: Vec<String>,
    /// The deepest directory whose files are examined; 0 is the root.
    pub max_depth: usize,
    /// The extension, without the dot, of the files to examine.
    pub extension: String,
}

/// The extension of a file name: what follows its last dot, unless the name
/// has no dot or its only dot is its first character.
pub open spec fn extension_of(name: Seq<char>) -> Option<Seq<char>> {
    if exists|k: int| 0 < k < name.len() && name[k] == '.' {
        let k = choose|k: int| 0 < k < name.len() && name[k] == '.'
            && forall|j: int| k < j < name.len() ==> name[j] != '.';
        Some(name.subrange(k + 1, name.len() as int))
    } else {
        None
    }
}

impl TraversalConfig {
    /// Whether `name` is one of the ignored directory names.
    pub open spec fn spec_is_ignored(&self, name: Seq<char>) -> bool {
        strings_view(self.ignore_dirs@).contains(name)
    }

    /// No directory among the given components is ignored.
    pub open spec fn none_ignored(&self, components: Seq<Seq<char>>) -> bool {
        forall|p: int| 0 <= p < components.len() ==> !self.spec_is_ignored(#[trigger] components[p])
    }

    /// Whether the walk descends into the directory with these components.
    pub open spec fn spec_admits_dir(&self, components: Seq<Seq<char>>) -> bool {
        components.len() <= self.max_depth && self.none_ignored(components)
    }

    /// Whether the regular file with these components is examined: it lies in
    /// a directory the walk descends into, and has the language's extension.
    pub open spec fn spec_admits_file(&self, components: Seq<Seq<char>>) -> bool {
        &&& components.len() >= 1
        &&& components.len() - 1 <= self.max_depth
        &&& self.none_ignored(components.drop_last())
        &&& extension_of(components.last()) == Some(self.extension@)
    }

    pub fn is_ignored(&self, name: &str) -> (r: bool)
        ensures
            r == self.spec_is_ignored(name@),
    {
        let mut i: usize = 0;
        while i < self.ignore_dirs.len()
            invariant
                i <= self.ignore_dirs@.len(),
                forall|k: int| 0 <= k < i ==> self.ignore_dirs@[k]@ != name@,
            decreases self.ignore_dirs@.len() - i,
        {
            if str_eq(self.ignore_dirs[i].as_str(), name) {
                assert(strings_view(self.ignore_dirs@)[i as int] == name@);
                return true;
            }
            i = i + 1;
        }
        proof {
            if strings_view(self.ignore_dirs@).contains(name@) {
                let k = choose|k: int| 0 <= k < self.ignore_dirs@.len()
                    && strings_view(self.ignore_dirs@)[k] == name@;
                assert(self.ignore_dirs@[k]@ == name@);
            }
        }
        false
    }

    /// Whether none of the first `n` components is an ignored name.
    fn prefix_none_ignored(&self, components: &Vec<String>, n: usize) -> (r: bool)
        requires
            n <= components@.len(),
        ensures
            r == self.none_ignored(strings_view(components@).take(n as int)),
    {
        let ghost cs = strings_view(components@).take(n as int);
        let mut p: usize = 0;
        while p < n
            invariant
                n <= components@.len(),
                cs == strings_view(components@).take(n as int),
                p <= n,
                forall|q: int| 0 <= q < p ==> !self.spec_is_ignored(cs[q]),
            decreases n - p,
        {
            if self.is_ignored(components[p].as_str()) {
                assert(cs[p as int] == components@[p as int]@);
                return false;
            }
            assert(cs[p as int] == components@[p as int]@);
            p = p + 1;
        }
        true
    }

    /// Whether the walk descends into the directory with these components.
    pub fn admits_dir(&self, components: &Vec<String>) -> (r: bool)
        ensures
            r == self.spec_admits_dir(strings_view(components@)),
    {
        if components.len() > self.max_depth {
            return false;
        }
        let r = self.prefix_none_ignored(components, components.len());
        assert(strings_view(components@).take(components@.len() as int) =~= strings_view(components@));
        r
    }

    /// Whether the regular file with these components is examined.
    pub fn admits_file(&self, components: &Vec<String>) -> (r: bool)
        ensures
            r == self.spec_admits_file(strings_view(components@)),
    {
        let n = components.len();
        if n == 0 || n - 1 > self.max_depth {
            return false;
        }
        let in_walk = self.prefix_none_ignored(components, n - 1);
        assert(strings_view(components@).take(n - 1) =~= strings_view(components@).drop_last());
        if !in_walk {
            return false;
        }
        assert(strings_view(components@).last() == components@[n - 1]@);
        has_extension(components[n - 1].as_str(), self.extension.as_str())
    }

    /// The indices, in order, of the files among `files` that are examined.
    pub open spec fn selected(&self, files: Seq<Seq<Seq<char>>>) -> Seq<usize>
        decreases files.len(),
    {
        if files.len() == 0 {
            Seq::empty()
        } else {
            let prev = self.selected(files.drop_last());
            if self.spec_admits_file(files.last()) {
                prev.push((files.len() - 1) as usize)
            } else {
                prev
            }
        }
    }

    /// The indices, in order, of the files among `files` that are examined.
    pub fn select_files(&self, files: &Vec<Vec<String>>) -> (r: Vec<usize>)
        ensures
            r@ == self.selected(paths_view(files@)),
    {
        let mut r: Vec<usize> = Vec::new();
        let mut k: usize = 0;
        while k < files.len()
            invariant
                k <= files@.len(),
                r@ == self.selected(paths_view(files@).take(k as int)),
            decreases files@.len() - k,
        {
            proof {
                assert(paths_view(files@).take(k as int + 1).drop_last() =~= paths_view(files@).take(k as int));
                assert(paths_view(files@).take(k as int + 1).last() == strings_view(files@[k as int]@));
            }
            if self.admits_file(&files[k]) {
                r.push(k);
            }
            k = k + 1;
        }
        assert(paths_view(files@).take(files@.len() as int) =~= paths_view(files@));
        r
    }
}

/// The components of each of a list of paths.
pub open spec fn paths_view(files: Seq<Vec<String>>) -> Seq<Seq<Seq<char>>> {
    files.map_values(|f: Vec<String>| strings_view(f@))
}

/// Whether `name` has extension `ext`.
pub fn has_extension(name: &str, ext: &str) -> (r: bool)
    ensures
        r == (extension_of(name@) == Some(ext@)),
{
    let n = name.unicode_len();
    let mut k: usize = n;
    while k > 0 && name.get_char(k - 1) != '.'
        invariant
            n == name@.len(),
            k <= n,
            forall|j: int| k <= j < n ==> name@[j] != '.',
        decreases k,
    {
        k = k - 1;
    }
    if k <= 1 {
        proof {
            assert(!exists|j: int| 0 < j < name@.len() && name@[j] == '.');
        }
        return false;
    }
    let dot = k - 1;
    proof {
        assert(name@[dot as int] == '.');
        let c = choose|j: int| 0 < j < name@.len() && name@[j] == '.'
            && forall|i: int| j < i < name@.len() ==> name@[i] != '.';
        if c < dot {
            assert(name@[dot as int] != '.');
        }
        if c > dot {
            assert(name@[c] != '.');
        }
    }
    str_eq(name.substring_char(k, n), ext)
}

/// Every selected index names a file of the list that the policy admits.
proof fn lemma_selected_admitted(cfg: &TraversalConfig, files: Seq<Seq<Seq<char>>>)
    requires
        files.len() <= usize::MAX,
    ensures
        forall|i: int| 0 <= i < cfg.selected(files).len() ==> {
            &&& (#[trigger] cfg.selected(files)[i]) < files.len()
            &&& cfg.spec_admits_file(files[cfg.selected(files)[i] as int])
        },
    decreases files.len(),
{
    if files.len() > 0 {
        let prev = files.drop_last();
        lemma_selected_admitted(cfg, prev);
        assert forall|i: int| 0 <= i < cfg.selected(files).len() implies {
            &&& (#[trigger] cfg.selected(files)[i]) < files.len()
            &&& cfg.spec_admits_file(files[cfg.selected(files)[i] as int])
        } by {
            if i < cfg.selected(prev).len() {
                assert(cfg.selected(files)[i] == cfg.selected(prev)[i]);
                assert(files[cfg.selected(files)[i] as int] == prev[cfg.selected(prev)[i] as int]);
            } else {
                assert(files[files.len() - 1] == files.last());
            }
        }
    }
}

/// No file under a directory whose name is ignored is ever selected, at any
/// depth: every directory on the path of a selected file has a name outside
/// the ignore set.
pub proof fn law_ignored_directories_pruned(cfg: &TraversalConfig, files: Seq<Seq<Seq<char>>>, i: int, p: int)
    requires
        files.len() <= usize::MAX,
        0 <= i < cfg.selected(files).len(),
        0 <= p < files[cfg.selected(files)[i] as int].len() - 1,
    ensures
        !cfg.spec_is_ignored(files[cfg.selected(files)[i] as int][p]),
{
    lemma_selected_admitted(cfg, files);
    let f = files[cfg.selected(files)[i] as int];
    assert(f.drop_last()[p] == f[p]);
}

/// With a depth limit of 0 only files directly in the root are selected.
pub proof fn law_depth_zero_selects_root_files_only(cfg: &TraversalConfig, files: Seq<Seq<Seq<char>>>, i: int)
    requires
        cfg.max_depth == 0,
        files.len() <= usize::MAX,
        0 <= i < cfg.selected(files).len(),
    ensures
        files[cfg.selected(files)[i] as int].len() == 1,
{
    lemma_selected_admitted(cfg, files);
}

proof fn lemma_push_contains(s: Seq<usize>, x: usize, y: usize)
    ensures
        s.push(x).contains(y) <==> (s.contains(y) || x == y),
{
    if s.push(x).contains(y) {
        let i = choose|i: int| 0 <= i < s.push(x).len() && s.push(x)[i] == y;
        if i < s.len() {
            assert(s[i] == y);
        }
    }
    if s.contains(y) {
        let i = choose|i: int| 0 <= i < s.len() && s[i] == y;
        assert(s.push(x)[i] == y);
    }
    if x == y {
        assert(s.push(x)[s.len() as int] == y);
    }
}

/// The selection is strictly increasing and within the list.
proof fn lemma_selected_increasing(cfg: &TraversalConfig, files: Seq<Seq<Seq<char>>>)
    requires
        files.len() <= usize::MAX,
    ensures
        forall|i: int| 0 <= i < cfg.selected(files).len() ==> (#[trigger] cfg.selected(files)[i]) < files.len(),
        forall|i: int, j: int| 0 <= i < j < cfg.selected(files).len()
            ==> cfg.selected(files)[i] < cfg.selected(files)[j],
    decreases files.len(),
{
    if files.len() > 0 {
        let prev = files.drop_last();
        lemma_selected_increasing(cfg, prev);
        if cfg.spec_admits_file(files.last()) {
            let sel = cfg.selected(files);
            assert(sel == cfg.selected(prev).push((files.len() - 1) as usize));
            assert forall|i: int, j: int| 0 <= i < j < sel.len() implies sel[i] < sel[j] by {
                if j < sel.len() - 1 {
                    assert(sel[i] == cfg.selected(prev)[i]);
                    assert(sel[j] == cfg.selected(prev)[j]);
                } else {
                    assert(sel[i] == cfg.selected(prev)[i]);
                }
            }
            assert forall|i: int| 0 <= i < sel.len() implies (#[trigger] sel[i]) < files.len() by {
                if i < sel.len() - 1 {
                    assert(sel[i] == cfg.selected(prev)[i]);
                }
            }
        }
    }
}

/// A file is selected exactly when the policy admits it, and the selection
/// keeps the order of the list.
pub proof fn law_selection_is_admission_in_order(cfg: &TraversalConfig, files: Seq<Seq<Seq<char>>>, k: int)
    requires
        files.len() <= usize::MAX,
        0 <= k < files.len(),
    ensures
        cfg.selected(files).contains(k as usize) <==> cfg.spec_admits_file(files[k]),
        forall|i: int, j: int| 0 <= i < j < cfg.selected(files).len()
            ==> cfg.selected(files)[i] < cfg.selected(files)[j],
    decreases files.len(),
{
    lemma_selected_increasing(cfg, files);
    let prev = files.drop_last();
    lemma_selected_increasing(cfg, prev);
    let x = (files.len() - 1) as usize;
    if cfg.spec_admits_file(files.last()) {
        lemma_push_contains(cfg.selected(prev), x, k as usize);
    }
    if k < files.len() - 1 {
        law_selection_is_admission_in_order(cfg, prev, k);
        assert(prev[k] == files[k]);
    } else {
        assert(files[k] == files.last());
        if cfg.selected(prev).contains(k as usize) {
            let i = choose|i: int| 0 <= i < cfg.selected(prev).len() && cfg.selected(prev)[i] == k as usize;
            assert(cfg.selected(prev)[i] < prev.len());
        }
    }
}

} // verus!
