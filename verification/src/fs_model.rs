//! A model filesystem: the tree the bootstrap plans act on.
//!
//! A tree is a flat list of entries, each a path with either directory
//! marking or file content. The operations mirror the primitives the
//! bootstrap relies on: recursive remove-if-exists, idempotent directory
//! creation, one-way additive sync, and suffix-matched file deletion.
//! Symbol stripping rewrites file bytes in place and never adds or
//! removes an entry, so the model leaves the tree unchanged for it.

use vstd::prelude::*;

use crate::path::{at_or_under, basename_of, path_at_or_under, path_ends_with, spec_ends_with,
    spec_join};

verus! {

/// What a tree holds at one path: a directory, or a file with content.
pub enum FsNode {
    /// A directory entry.
    Directory,
    /// A file entry and its content.
    File {
        /// The file's content.
        data: String,
    },
}

/// One path of the tree with what stands at it.
pub struct FsEntry {
    /// The absolute path of the entry.
    pub path: String,
    /// What stands at the path.
    pub node: FsNode,
}

/// A model filesystem tree.
pub struct FsTree {
    /// The entries of the tree, oldest first.
    pub entries: Vec<FsEntry>,
}

/// The mathematical shadow of a tree: each entry as its path and, for a
/// file, its content (`None` marks a directory).
pub type TreeView = Seq<(Seq<char>, Option<Seq<char>>)>;

/// A directory carries no content; a file carries its content.
pub open spec fn node_view(n: FsNode) -> Option<Seq<char>> {
    match n {
        FsNode::Directory => None,
        FsNode::File { data } => Some(data@),
    }
}

/// The shadow of one entry.
pub open spec fn entry_view(e: FsEntry) -> (Seq<char>, Option<Seq<char>>) {
    (e.path@, node_view(e.node))
}

/// The shadow of a list of entries.
pub open spec fn entries_view(s: Seq<FsEntry>) -> TreeView {
    s.map_values(|e: FsEntry| entry_view(e))
}

impl View for FsTree {
    type V = TreeView;

    open spec fn view(&self) -> TreeView {
        entries_view(self.entries@)
    }
}

/// Some entry stands exactly at `p`.
pub open spec fn view_has_at(t: TreeView, p: Seq<char>) -> bool {
    exists|i: int| 0 <= i < t.len() && (#[trigger] t[i]).0 == p
}

/// No entry stands at `p` nor below it.
pub open spec fn none_at_or_under(t: TreeView, p: Seq<char>) -> bool {
    forall|i: int| 0 <= i < t.len() ==> !at_or_under((#[trigger] t[i]).0, p)
}

/// No file under `root` has a path ending with `suffix`.
pub open spec fn clean_of_suffix(t: TreeView, root: Seq<char>, suffix: Seq<char>) -> bool {
    forall|i: int|
        0 <= i < t.len() ==> !(at_or_under((#[trigger] t[i]).0, root) && spec_ends_with(
            t[i].0,
            suffix,
        ) && t[i].1 is Some)
}

/// Every entry of `t2` is an entry of `t1`.
pub open spec fn entries_subset(t2: TreeView, t1: TreeView) -> bool {
    forall|i: int| 0 <= i < t2.len() ==> t1.contains(#[trigger] t2[i])
}

/// Recursive removal of everything at or under `p`, keeping the rest in
/// order.
pub open spec fn remove_at_or_under(t: TreeView, p: Seq<char>) -> TreeView
    decreases t.len(),
{
    if t.len() == 0 {
        t
    } else if at_or_under(t.last().0, p) {
        remove_at_or_under(t.drop_last(), p)
    } else {
        remove_at_or_under(t.drop_last(), p).push(t.last())
    }
}

/// Removal of the entries standing exactly at `p`.
pub open spec fn remove_exact(t: TreeView, p: Seq<char>) -> TreeView
    decreases t.len(),
{
    if t.len() == 0 {
        t
    } else if t.last().0 == p {
        remove_exact(t.drop_last(), p)
    } else {
        remove_exact(t.drop_last(), p).push(t.last())
    }
}

/// Idempotent directory creation: a new entry only where none stands.
pub open spec fn create_dir(t: TreeView, p: Seq<char>) -> TreeView {
    if view_has_at(t, p) {
        t
    } else {
        t.push((p, None))
    }
}

/// Latest-wins placement of one entry.
pub open spec fn upsert(t: TreeView, p: Seq<char>, d: Option<Seq<char>>) -> TreeView {
    remove_exact(t, p).push((p, d))
}

/// Deletion of every file at or under `root` whose path ends with
/// `suffix`; directories and other files stay.
pub open spec fn delete_suffix(t: TreeView, root: Seq<char>, suffix: Seq<char>) -> TreeView
    decreases t.len(),
{
    if t.len() == 0 {
        t
    } else if at_or_under(t.last().0, root) && spec_ends_with(t.last().0, suffix)
        && t.last().1 is Some {
        delete_suffix(t.drop_last(), root, suffix)
    } else {
        delete_suffix(t.drop_last(), root, suffix).push(t.last())
    }
}

/// Where a path at or under `source` lands when `source` is mirrored
/// into `dest_root`: the destination gains a subtree named after the
/// last component of the source.
pub open spec fn retarget(q: Seq<char>, source: Seq<char>, dest_root: Seq<char>) -> Seq<char> {
    spec_join(dest_root, basename_of(source)) + q.skip(source.len() as int)
}

/// The entries at or under `source`, each moved to its destination.
pub open spec fn retarget_all(t: TreeView, source: Seq<char>, dest_root: Seq<char>) -> TreeView
    decreases t.len(),
{
    if t.len() == 0 {
        t
    } else if at_or_under(t.last().0, source) {
        retarget_all(t.drop_last(), source, dest_root).push(
            (retarget(t.last().0, source, dest_root), t.last().1),
        )
    } else {
        retarget_all(t.drop_last(), source, dest_root)
    }
}

/// Latest-wins placement of a list of entries, first to last.
pub open spec fn upsert_all(t: TreeView, items: TreeView) -> TreeView
    decreases items.len(),
{
    if items.len() == 0 {
        t
    } else {
        upsert(upsert_all(t, items.drop_last()), items.last().0, items.last().1)
    }
}

/// One-way additive mirror of the subtree at `source` into `dest_root`:
/// copied entries overwrite what stands at their destination and nothing
/// else is touched.
pub open spec fn sync_into(t: TreeView, source: Seq<char>, dest_root: Seq<char>) -> TreeView {
    upsert_all(t, retarget_all(t, source, dest_root))
}

/// What the latest entry at `p` holds: file content, or `None` for a
/// directory or an absent path.
pub open spec fn file_at(t: TreeView, p: Seq<char>) -> Option<Seq<char>>
    decreases t.len(),
{
    if t.len() == 0 {
        None
    } else if t.last().0 == p {
        t.last().1
    } else {
        file_at(t.drop_last(), p)
    }
}

/// Duplicates a node, content and all.
fn clone_node(n: &FsNode) -> (r: FsNode)
    ensures
        r == *n,
{
    match n {
        FsNode::Directory => FsNode::Directory,
        FsNode::File { data } => FsNode::File { data: data.clone() },
    }
}

/// Duplicates an entry, content and all.
fn clone_entry(e: &FsEntry) -> (r: FsEntry)
    ensures
        r == *e,
{
    FsEntry { path: e.path.clone(), node: clone_node(&e.node) }
}

/// Decides character-wise equality of two strings.
fn string_equal(a: &String, b: &String) -> (r: bool)
    ensures
        r == (a@ == b@),
{
    let under = path_at_or_under(a.as_str(), b.as_str());
    let same_len = a.as_str().unicode_len() == b.as_str().unicode_len();
    under && same_len
}

impl FsTree {
    /// An empty tree.
    pub fn new() -> (t: Self)
        ensures
            t@ == Seq::<(Seq<char>, Option<Seq<char>>)>::empty(),
    {
        let t = FsTree { entries: Vec::new() };
        proof {
            assert(t@ =~= Seq::<(Seq<char>, Option<Seq<char>>)>::empty());
        }
        t
    }

    /// Whether an entry stands exactly at `p`.
    pub fn contains_path(&self, p: &String) -> (r: bool)
        ensures
            r == view_has_at(self@, p@),
    {
        let mut i: usize = 0;
        while i < self.entries.len()
            invariant
                i <= self.entries.len(),
                forall|k: int| 0 <= k < i ==> (#[trigger] self@[k]).0 != p@,
            decreases self.entries.len() - i,
        {
            if string_equal(&self.entries[i].path, p) {
                proof {
                    assert(self@[i as int].0 == p@);
                }
                return true;
            }
            i = i + 1;
        }
        false
    }

    /// Recursively removes whatever stands at or under `p`; an absent
    /// path is no error and leaves the tree unchanged.
    pub fn force_remove(&mut self, p: &String)
        ensures
            final(self)@ == remove_at_or_under(old(self)@, p@),
            none_at_or_under(final(self)@, p@),
    {
        let mut kept: Vec<FsEntry> = Vec::new();
        let mut i: usize = 0;
        proof {
            assert(self.entries@.take(0) =~= Seq::<FsEntry>::empty());
            assert(entries_view(kept@) =~= Seq::<(Seq<char>, Option<Seq<char>>)>::empty());
        }
        while i < self.entries.len()
            invariant
                i <= self.entries.len(),
                self.entries@ == old(self).entries@,
                entries_view(kept@) == remove_at_or_under(
                    entries_view(self.entries@.take(i as int)),
                    p@,
                ),
            decreases self.entries.len() - i,
        {
            proof {
                let prev = entries_view(self.entries@.take(i as int));
                let el = entry_view(self.entries@[i as int]);
                assert(entries_view(self.entries@.take(i as int + 1)) =~= prev.push(el));
                assert(prev.push(el).drop_last() =~= prev);
            }
            let keep = !path_at_or_under(self.entries[i].path.as_str(), p.as_str());
            if keep {
                let ghost kv = entries_view(kept@);
                let e = clone_entry(&self.entries[i]);
                kept.push(e);
                proof {
                    assert(entries_view(kept@) =~= kv.push(entry_view(e)));
                }
            }
            i = i + 1;
        }
        proof {
            assert(self.entries@.take(self.entries@.len() as int) =~= self.entries@);
            lemma_force_remove_absent(old(self)@, p@);
        }
        self.entries = kept;
    }

    /// Ensures a directory entry at `p`: creating an existing directory
    /// is not an error and changes nothing.
    pub fn create_dir_all(&mut self, p: &String)
        ensures
            final(self)@ == create_dir(old(self)@, p@),
    {
        if !self.contains_path(p) {
            let ghost before = self@;
            self.entries.push(FsEntry { path: p.clone(), node: FsNode::Directory });
            proof {
                assert(self@ =~= before.push((p@, None)));
            }
        }
    }

    /// Places one entry, overwriting whatever stood exactly at its path.
    pub fn upsert_entry(&mut self, e: FsEntry)
        ensures
            final(self)@ == upsert(old(self)@, e.path@, node_view(e.node)),
    {
        let mut kept: Vec<FsEntry> = Vec::new();
        let mut i: usize = 0;
        proof {
            assert(self.entries@.take(0) =~= Seq::<FsEntry>::empty());
            assert(entries_view(kept@) =~= Seq::<(Seq<char>, Option<Seq<char>>)>::empty());
        }
        while i < self.entries.len()
            invariant
                i <= self.entries.len(),
                self.entries@ == old(self).entries@,
                entries_view(kept@) == remove_exact(
                    entries_view(self.entries@.take(i as int)),
                    e.path@,
                ),
            decreases self.entries.len() - i,
        {
            proof {
                let prev = entries_view(self.entries@.take(i as int));
                let el = entry_view(self.entries@[i as int]);
                assert(entries_view(self.entries@.take(i as int + 1)) =~= prev.push(el));
                assert(prev.push(el).drop_last() =~= prev);
            }
            let keep = !string_equal(&self.entries[i].path, &e.path);
            if keep {
                let ghost kv = entries_view(kept@);
                let kept_entry = clone_entry(&self.entries[i]);
                kept.push(kept_entry);
                proof {
                    assert(entries_view(kept@) =~= kv.push(entry_view(kept_entry)));
                }
            }
            i = i + 1;
        }
        proof {
            assert(self.entries@.take(self.entries@.len() as int) =~= self.entries@);
        }
        let ghost kv = entries_view(kept@);
        kept.push(e);
        proof {
            assert(entries_view(kept@) =~= kv.push((e.path@, node_view(e.node))));
        }
        self.entries = kept;
    }

    /// Places a file with the given content, overwriting whatever stood
    /// at the path.
    pub fn insert_file(&mut self, path: &String, data: &String)
        ensures
            final(self)@ == upsert(old(self)@, path@, Some(data@)),
    {
        self.upsert_entry(FsEntry { path: path.clone(), node: FsNode::File { data: data.clone() } });
    }

    /// Deletes every file at or under `root` whose path ends with
    /// `suffix`.
    pub fn delete_files_with_suffix(&mut self, root: &String, suffix: &String)
        ensures
            final(self)@ == delete_suffix(old(self)@, root@, suffix@),
    {
        let mut kept: Vec<FsEntry> = Vec::new();
        let mut i: usize = 0;
        proof {
            assert(self.entries@.take(0) =~= Seq::<FsEntry>::empty());
            assert(entries_view(kept@) =~= Seq::<(Seq<char>, Option<Seq<char>>)>::empty());
        }
        while i < self.entries.len()
            invariant
                i <= self.entries.len(),
                self.entries@ == old(self).entries@,
                entries_view(kept@) == delete_suffix(
                    entries_view(self.entries@.take(i as int)),
                    root@,
                    suffix@,
                ),
            decreases self.entries.len() - i,
        {
            proof {
                let prev = entries_view(self.entries@.take(i as int));
                let el = entry_view(self.entries@[i as int]);
                assert(entries_view(self.entries@.take(i as int + 1)) =~= prev.push(el));
                assert(prev.push(el).drop_last() =~= prev);
            }
            let under = path_at_or_under(self.entries[i].path.as_str(), root.as_str());
            let ends = path_ends_with(self.entries[i].path.as_str(), suffix.as_str());
            let is_file = match &self.entries[i].node {
                FsNode::File { .. } => true,
                FsNode::Directory => false,
            };
            if !(under && ends && is_file) {
                let ghost kv = entries_view(kept@);
                let e = clone_entry(&self.entries[i]);
                kept.push(e);
                proof {
                    assert(entries_view(kept@) =~= kv.push(entry_view(e)));
                }
            }
            i = i + 1;
        }
        proof {
            assert(self.entries@.take(self.entries@.len() as int) =~= self.entries@);
        }
        self.entries = kept;
    }

    /// One-way additive mirror of the subtree at `source` into
    /// `destination`: relative structure is kept under a subtree named
    /// after the source's last component, copied entries overwrite what
    /// stood at their destination, and extraneous destination entries
    /// stay.
    pub fn sync(&mut self, source: &String, destination: &String)
        ensures
            final(self)@ == sync_into(old(self)@, source@, destination@),
    {
        let base = crate::path::basename(source.as_str());
        let prefix = crate::path::path_join(destination.as_str(), base.as_str());
        let slen = source.as_str().unicode_len();
        let mut items: Vec<FsEntry> = Vec::new();
        let mut i: usize = 0;
        proof {
            assert(self.entries@.take(0) =~= Seq::<FsEntry>::empty());
            assert(entries_view(items@) =~= Seq::<(Seq<char>, Option<Seq<char>>)>::empty());
        }
        while i < self.entries.len()
            invariant
                i <= self.entries.len(),
                self.entries@ == old(self).entries@,
                slen == source@.len(),
                prefix@ == spec_join(destination@, basename_of(source@)),
                entries_view(items@) == retarget_all(
                    entries_view(self.entries@.take(i as int)),
                    source@,
                    destination@,
                ),
            decreases self.entries.len() - i,
        {
            proof {
                let prev = entries_view(self.entries@.take(i as int));
                let el = entry_view(self.entries@[i as int]);
                assert(entries_view(self.entries@.take(i as int + 1)) =~= prev.push(el));
                assert(prev.push(el).drop_last() =~= prev);
            }
            if path_at_or_under(self.entries[i].path.as_str(), source.as_str()) {
                let el = self.entries[i].path.as_str().unicode_len();
                let rel = self.entries[i].path.as_str().substring_char(slen, el);
                let new_path = prefix.clone().concat(rel);
                let ghost kv = entries_view(items@);
                let moved = FsEntry { path: new_path, node: clone_node(&self.entries[i].node) };
                items.push(moved);
                proof {
                    assert(self.entries@[i as int].path@.subrange(slen as int, el as int)
                        =~= self.entries@[i as int].path@.skip(slen as int));
                    assert(entry_view(moved).0 == retarget(
                        self.entries@[i as int].path@,
                        source@,
                        destination@,
                    ));
                    assert(entries_view(items@) =~= kv.push(entry_view(moved)));
                }
            }
            i = i + 1;
        }
        proof {
            assert(self.entries@.take(self.entries@.len() as int) =~= self.entries@);
        }
        let ghost t_start = self@;
        let mut j: usize = 0;
        proof {
            assert(items@.take(0) =~= Seq::<FsEntry>::empty());
            assert(entries_view(items@.take(0)) =~= Seq::<(Seq<char>, Option<Seq<char>>)>::empty());
        }
        while j < items.len()
            invariant
                j <= items.len(),
                t_start == old(self)@,
                entries_view(items@) == retarget_all(old(self)@, source@, destination@),
                self@ == upsert_all(t_start, entries_view(items@.take(j as int))),
            decreases items.len() - j,
        {
            proof {
                let prev = entries_view(items@.take(j as int));
                let el = entry_view(items@[j as int]);
                assert(entries_view(items@.take(j as int + 1)) =~= prev.push(el));
                assert(prev.push(el).drop_last() =~= prev);
            }
            let e = clone_entry(&items[j]);
            self.upsert_entry(e);
            j = j + 1;
        }
        proof {
            assert(items@.take(items@.len() as int) =~= items@);
        }
    }

    /// The content of the file standing at `p`, or nothing for a
    /// directory or an absent path.
    pub fn file_data(&self, p: &String) -> (r: Option<String>)
        ensures
            match r {
                Some(d) => file_at(self@, p@) == Some(d@),
                None => file_at(self@, p@) is None,
            },
    {
        let mut i: usize = self.entries.len();
        proof {
            assert(self.entries@.take(self.entries@.len() as int) =~= self.entries@);
        }
        while i > 0
            invariant
                i <= self.entries.len(),
                file_at(self@, p@) == file_at(entries_view(self.entries@.take(i as int)), p@),
            decreases i,
        {
            proof {
                let prev = entries_view(self.entries@.take(i as int));
                assert(prev.drop_last() =~= entries_view(self.entries@.take(i as int - 1)));
            }
            if string_equal(&self.entries[i - 1].path, p) {
                match &self.entries[i - 1].node {
                    FsNode::File { data } => {
                        return Some(data.clone());
                    },
                    FsNode::Directory => {
                        return None;
                    },
                }
            }
            i = i - 1;
        }
        proof {
            assert(entries_view(self.entries@.take(0)) =~= Seq::<(
                Seq<char>,
                Option<Seq<char>>,
            )>::empty());
        }
        None
    }
}

/// Forcible removal behaves as the bootstrap relies on it: removing an
/// absent path changes nothing (and so cannot fail), and after the
/// removal nothing stands at or under the path.
pub proof fn lemma_force_remove_absent(t: TreeView, p: Seq<char>)
    ensures
        none_at_or_under(t, p) ==> remove_at_or_under(t, p) == t,
        none_at_or_under(remove_at_or_under(t, p), p),
    decreases t.len(),
{
    if t.len() == 0 {
    } else {
        let td = t.drop_last();
        lemma_force_remove_absent(td, p);
        if none_at_or_under(t, p) {
            assert forall|i: int| 0 <= i < td.len() implies !at_or_under(
                (#[trigger] td[i]).0,
                p,
            ) by {
                assert(td[i] == t[i]);
            }
            assert(!at_or_under(t[t.len() - 1].0, p));
            assert(remove_at_or_under(td, p).push(t.last()) =~= t);
        }
        if !at_or_under(t.last().0, p) {
            let r = remove_at_or_under(td, p).push(t.last());
            assert forall|i: int| 0 <= i < r.len() implies !at_or_under((#[trigger] r[i]).0, p) by {
                if i < r.len() - 1 {
                    assert(r[i] == remove_at_or_under(td, p)[i]);
                }
            }
        }
    }
}

/// Recursive removal only removes: every surviving entry already stood
/// in the tree.
pub proof fn lemma_remove_at_or_under_subset(t: TreeView, p: Seq<char>)
    ensures
        entries_subset(remove_at_or_under(t, p), t),
    decreases t.len(),
{
    if t.len() == 0 {
    } else {
        let td = t.drop_last();
        lemma_remove_at_or_under_subset(td, p);
        let rd = remove_at_or_under(td, p);
        assert forall|i: int|
            0 <= i < remove_at_or_under(t, p).len() implies t.contains(
            #[trigger] remove_at_or_under(t, p)[i],
        ) by {
            let r = remove_at_or_under(t, p);
            if at_or_under(t.last().0, p) || i < r.len() - 1 {
                assert(td.contains(r[i]));
                let j = choose|j: int| 0 <= j < td.len() && td[j] == r[i];
                assert(t[j] == r[i]);
            } else {
                assert(r[i] == t[t.len() - 1]);
            }
        }
    }
}

/// Suffix deletion only removes: every surviving entry already stood in
/// the tree.
pub proof fn lemma_delete_suffix_subset(t: TreeView, root: Seq<char>, suffix: Seq<char>)
    ensures
        entries_subset(delete_suffix(t, root, suffix), t),
    decreases t.len(),
{
    if t.len() == 0 {
    } else {
        let td = t.drop_last();
        lemma_delete_suffix_subset(td, root, suffix);
        let dropped = at_or_under(t.last().0, root) && spec_ends_with(t.last().0, suffix)
            && t.last().1 is Some;
        assert forall|i: int|
            0 <= i < delete_suffix(t, root, suffix).len() implies t.contains(
            #[trigger] delete_suffix(t, root, suffix)[i],
        ) by {
            let r = delete_suffix(t, root, suffix);
            if dropped || i < r.len() - 1 {
                assert(td.contains(r[i]));
                let j = choose|j: int| 0 <= j < td.len() && td[j] == r[i];
                assert(t[j] == r[i]);
            } else {
                assert(r[i] == t[t.len() - 1]);
            }
        }
    }
}

/// After suffix deletion, no file under the root carries the suffix.
pub proof fn lemma_delete_suffix_cleans(t: TreeView, root: Seq<char>, suffix: Seq<char>)
    ensures
        clean_of_suffix(delete_suffix(t, root, suffix), root, suffix),
    decreases t.len(),
{
    if t.len() == 0 {
    } else {
        let td = t.drop_last();
        lemma_delete_suffix_cleans(td, root, suffix);
        let r = delete_suffix(t, root, suffix);
        let rd = delete_suffix(td, root, suffix);
        assert forall|i: int|
            0 <= i < r.len() implies !(at_or_under((#[trigger] r[i]).0, root) && spec_ends_with(
            r[i].0,
            suffix,
        ) && r[i].1 is Some) by {
            if at_or_under(t.last().0, root) && spec_ends_with(t.last().0, suffix) && t.last().1
                is Some {
                assert(r[i] == rd[i]);
            } else {
                if i < r.len() - 1 {
                    assert(r[i] == rd[i]);
                } else {
                    assert(r[i] == t.last());
                }
            }
        }
    }
}

/// An entry-wise subset keeps a path absent.
pub proof fn lemma_subset_none_at_or_under(t2: TreeView, t1: TreeView, p: Seq<char>)
    requires
        entries_subset(t2, t1),
        none_at_or_under(t1, p),
    ensures
        none_at_or_under(t2, p),
{
    assert forall|i: int| 0 <= i < t2.len() implies !at_or_under((#[trigger] t2[i]).0, p) by {
        let j = choose|j: int| 0 <= j < t1.len() && t1[j] == t2[i];
        assert(!at_or_under(t1[j].0, p));
    }
}

/// An entry-wise subset keeps a tree clean of a suffix.
pub proof fn lemma_subset_clean_of_suffix(
    t2: TreeView,
    t1: TreeView,
    root: Seq<char>,
    suffix: Seq<char>,
)
    requires
        entries_subset(t2, t1),
        clean_of_suffix(t1, root, suffix),
    ensures
        clean_of_suffix(t2, root, suffix),
{
    assert forall|i: int|
        0 <= i < t2.len() implies !(at_or_under((#[trigger] t2[i]).0, root) && spec_ends_with(
        t2[i].0,
        suffix,
    ) && t2[i].1 is Some) by {
        let j = choose|j: int| 0 <= j < t1.len() && t1[j] == t2[i];
        assert(!(at_or_under(t1[j].0, root) && spec_ends_with(t1[j].0, suffix) && t1[j].1
            is Some));
    }
}

/// Directory creation leaves the path present, is a no-op when the path
/// already stands, and never loses another path.
pub proof fn lemma_create_dir_properties(t: TreeView, p: Seq<char>, q: Seq<char>)
    ensures
        view_has_at(create_dir(t, p), p),
        view_has_at(t, p) ==> create_dir(t, p) == t,
        view_has_at(t, q) ==> view_has_at(create_dir(t, p), q),
{
    if !view_has_at(t, p) {
        assert(create_dir(t, p)[t.len() as int].0 == p);
    }
    if view_has_at(t, q) && !view_has_at(t, p) {
        let j = choose|j: int| 0 <= j < t.len() && (#[trigger] t[j]).0 == q;
        assert(create_dir(t, p)[j].0 == q);
    }
}

} // verus!
