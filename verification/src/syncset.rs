//! The sync set: the relative paths that a push considers.
//!
//! The set is resolved from what was found in the working directory: the
//! paths that version control lists, its metadata files, the files below its
//! metadata directory, and the paths added by hand, where a directory stands
//! for every file below it. The result is flat, keeps the order in which paths
//! were first met, and holds no path twice.

use vstd::prelude::*;
use crate::text::strs;

verus! {

/// What stands at a path: a file, or a directory with its entries by name, in
/// the order in which they were listed.
pub enum FsTree {
    File,
    Dir(Vec<(String, FsTree)>),
}

/// A path that was added by hand, with the directory found there, if it is one.
pub struct AddedPath {
    pub path: String,
    pub dir: Option<FsTree>,
}

/// What was found in the working directory.
pub struct Worktree {
    /// The paths that version control lists: those it follows, and those it does
    /// not follow but does not ignore either.
    pub listed: Vec<String>,
    /// Whether `.gitignore` exists at the root.
    pub has_gitignore: bool,
    /// Whether `.gitattributes` exists at the root.
    pub has_gitattributes: bool,
    /// The metadata directory `.git`, if it exists and is a directory.
    pub git_dir: Option<FsTree>,
    /// The paths added by hand, in the order of the descriptor.
    pub added: Vec<AddedPath>,
}

/// The path of the entry `name` in the directory `dir`; the empty path stands
/// for the root itself.
pub open spec fn join_path(dir: Seq<char>, name: Seq<char>) -> Seq<char> {
    if dir.len() == 0 {
        name
    } else {
        dir.push('/') + name
    }
}

/// The files below the first `n` entries of a directory at `root`, depth first.
pub open spec fn walk_entries(root: Seq<char>, entries: Seq<(String, FsTree)>, n: nat) -> Seq<
    Seq<char>,
>
    decreases entries, n,
{
    if n == 0 || n > entries.len() {
        Seq::empty()
    } else {
        walk_entries(root, entries, (n - 1) as nat) + walk(
            join_path(root, entries[n - 1].0@),
            entries[n - 1].1,
        )
    }
}

/// The files at and below `root`, depth first, each directory in the order of
/// its entries. A file is its own listing.
pub open spec fn walk(root: Seq<char>, tree: FsTree) -> Seq<Seq<char>>
    decreases tree, 0nat,
{
    match tree {
        FsTree::File => seq![root],
        FsTree::Dir(entries) => walk_entries(root, entries@, entries.len() as nat),
    }
}

/// `seen` followed by `path`, unless it is there already.
pub open spec fn with_path(seen: Seq<Seq<char>>, path: Seq<char>) -> Seq<Seq<char>> {
    if seen.contains(path) {
        seen
    } else {
        seen.push(path)
    }
}

/// `seen` followed by those of `paths` that are new, each once, in order.
pub open spec fn with_paths(seen: Seq<Seq<char>>, paths: Seq<Seq<char>>) -> Seq<Seq<char>>
    decreases paths.len(),
{
    if paths.len() == 0 {
        seen
    } else {
        with_path(with_paths(seen, paths.drop_last()), paths.last())
    }
}

/// What one added path stands for: the files below it if it is a directory,
/// else the path itself, whether or not anything exists there.
pub open spec fn expansion(added: AddedPath) -> Seq<Seq<char>> {
    match added.dir {
        Some(tree) => walk(added.path@, tree),
        None => seq![added.path@],
    }
}

/// What the first `n` added paths stand for.
pub open spec fn expansions(added: Seq<AddedPath>, n: nat) -> Seq<Seq<char>>
    decreases n,
{
    if n == 0 || n > added.len() {
        Seq::empty()
    } else {
        expansions(added, (n - 1) as nat) + expansion(added[n - 1])
    }
}

/// The metadata files of version control that exist.
pub open spec fn metadata_files(w: Worktree) -> Seq<Seq<char>> {
    (if w.has_gitignore {
        seq![".gitignore"@]
    } else {
        Seq::empty()
    }) + (if w.has_gitattributes {
        seq![".gitattributes"@]
    } else {
        Seq::empty()
    })
}

/// The files below the metadata directory, if there is one.
pub open spec fn metadata_dir_files(w: Worktree) -> Seq<Seq<char>> {
    match w.git_dir {
        Some(tree) => walk(".git"@, tree),
        None => Seq::empty(),
    }
}

/// Every path that the worktree offers, with repetitions, in order of
/// resolution.
pub open spec fn candidates(w: Worktree) -> Seq<Seq<char>> {
    strs(w.listed@) + metadata_files(w) + metadata_dir_files(w) + expansions(
        w.added@,
        w.added.len() as nat,
    )
}

/// The sync set of a worktree.
pub open spec fn sync_set(w: Worktree) -> Seq<Seq<char>> {
    with_paths(Seq::empty(), candidates(w))
}

/// Taking paths in two rounds is taking them in one.
pub proof fn lemma_with_paths_concat(seen: Seq<Seq<char>>, a: Seq<Seq<char>>, b: Seq<Seq<char>>)
    ensures
        with_paths(seen, a + b) == with_paths(with_paths(seen, a), b),
    decreases b.len(),
{
    if b.len() == 0 {
        assert(a + b =~= a);
    } else {
        lemma_with_paths_concat(seen, a, b.drop_last());
        assert((a + b).drop_last() =~= a + b.drop_last());
    }
}

/// Taking one more path of a list.
pub proof fn lemma_with_paths_step(seen: Seq<Seq<char>>, paths: Seq<Seq<char>>, i: int)
    requires
        0 <= i < paths.len(),
    ensures
        with_paths(seen, paths.take(i + 1)) == with_path(
            with_paths(seen, paths.take(i)),
            paths[i],
        ),
{
    assert(paths.take(i + 1).drop_last() =~= paths.take(i));
}

/// What `with_paths` returns: whatever was seen or offered, and nothing twice
/// if nothing was seen twice.
pub proof fn lemma_with_paths_holds(seen: Seq<Seq<char>>, paths: Seq<Seq<char>>)
    ensures
        forall|p: Seq<char>| #[trigger]
            with_paths(seen, paths).contains(p) <==> seen.contains(p) || paths.contains(p),
        seen.no_duplicates() ==> with_paths(seen, paths).no_duplicates(),
    decreases paths.len(),
{
    if paths.len() == 0 {
        assert forall|p: Seq<char>| !paths.contains(p) by {}
    } else {
        let front = paths.drop_last();
        let last = paths.last();
        let before = with_paths(seen, front);
        let after = with_paths(seen, paths);
        lemma_with_paths_holds(seen, front);
        assert forall|p: Seq<char>| paths.contains(p) <==> (front.contains(p) || p == last) by {
            if paths.contains(p) {
                let i = paths.index_of(p);
                if i < front.len() {
                    assert(front[i] == p);
                }
            }
            if front.contains(p) {
                let i = front.index_of(p);
                assert(paths[i] == p);
            }
            if p == last {
                assert(paths[paths.len() - 1] == p);
            }
        }
        if !before.contains(last) {
            assert forall|p: Seq<char>| after.contains(p) <==> (before.contains(p) || p == last) by {
                if after.contains(p) {
                    let i = after.index_of(p);
                    if i < before.len() {
                        assert(before[i] == p);
                    }
                }
                if before.contains(p) {
                    let i = before.index_of(p);
                    assert(after[i] == p);
                }
                if p == last {
                    assert(after[before.len() as int] == p);
                }
            }
            if seen.no_duplicates() {
                assert forall|i: int, j: int|
                    0 <= i < after.len() && 0 <= j < after.len() && i != j implies after[i]
                    != after[j] by {
                    if i < before.len() {
                        assert(before.contains(before[i]));
                    }
                    if j < before.len() {
                        assert(before.contains(before[j]));
                    }
                }
            }
        }
    }
}

/// The sync set holds no path twice, and holds exactly the paths that the
/// worktree offers.
pub proof fn lemma_sync_set_unique(w: Worktree)
    ensures
        sync_set(w).no_duplicates(),
        forall|p: Seq<char>| #[trigger] sync_set(w).contains(p) <==> candidates(w).contains(p),
{
    lemma_with_paths_holds(Seq::empty(), candidates(w));
}

/// The path of the entry `name` in the directory `dir`.
pub fn join(dir: &String, name: &String) -> (path: String)
    ensures
        path@ == join_path(dir@, name@),
{
    if dir.as_str().is_empty() {
        name.clone()
    } else {
        let mut path = dir.clone();
        path.push('/');
        path.append(name.as_str());
        path
    }
}

/// Appends to `files` the files at and below `root`.
pub fn walkdir_recursive(root: &String, tree: &FsTree, files: &mut Vec<String>)
    ensures
        strs(final(files)@) == strs(old(files)@) + walk(root@, *tree),
    decreases tree,
{
    match tree {
        FsTree::File => {
            proof {
                crate::text::lemma_strs_push(files@, *root);
                assert(strs(files@).push(root@) =~= strs(files@) + seq![root@]);
            }
            files.push(root.clone());
        },
        FsTree::Dir(entries) => {
            let mut i: usize = 0;
            proof {
                assert(strs(files@) + Seq::<Seq<char>>::empty() =~= strs(files@));
            }
            while i < entries.len()
                invariant
                    i <= entries.len(),
                    *tree == FsTree::Dir(*entries),
                    strs(files@) == strs(old(files)@) + walk_entries(root@, entries@, i as nat),
                decreases entries.len() - i,
            {
                let child = join(root, &entries[i].0);
                let ghost before = strs(files@);
                proof {
                    assert(tree->Dir_0 == *entries);
                    assert(decreases_to!(*tree => tree->Dir_0));
                    assert(decreases_to!(*entries => entries@));
                    assert(decreases_to!(entries@ => entries@[i as int]));
                    assert(decreases_to!(entries@[i as int] => entries@[i as int].1));
                }
                walkdir_recursive(&child, &entries[i].1, files);
                proof {
                    let below = walk(child@, entries@[i as int].1);
                    assert(walk_entries(root@, entries@, (i + 1) as nat) == walk_entries(
                        root@,
                        entries@,
                        i as nat,
                    ) + below);
                    assert(before + below =~= strs(old(files)@) + walk_entries(
                        root@,
                        entries@,
                        (i + 1) as nat,
                    ));
                }
                i += 1;
            }
        },
    }
}

/// The files at and below `root`, where `tree` was found, depth first. The
/// paths are made of `root` and the names on the way down, joined by `/`.
pub fn walkdir(root: &String, tree: &FsTree) -> (files: Vec<String>)
    ensures
        strs(files@) == walk(root@, *tree),
{
    let mut files: Vec<String> = Vec::new();
    proof {
        assert(strs(files@) + walk(root@, *tree) =~= walk(root@, *tree));
    }
    walkdir_recursive(root, tree, &mut files);
    files
}

/// Taking a single path.
pub proof fn lemma_with_paths_one(seen: Seq<Seq<char>>, path: Seq<char>)
    ensures
        with_paths(seen, seq![path]) == with_path(seen, path),
        with_paths(seen, Seq::empty()) == seen,
{
    assert(seq![path].drop_last() =~= Seq::<Seq<char>>::empty());
    assert(with_paths(seen, seq![path]) == with_path(
        with_paths(seen, seq![path].drop_last()),
        path,
    ));
}

/// Appends `path` to `files` unless it is there already.
fn push_unique(files: &mut Vec<String>, path: String)
    ensures
        strs(final(files)@) == with_path(strs(old(files)@), path@),
{
    if !crate::seqs::contains_str(files, &path) {
        proof {
            crate::text::lemma_strs_push(files@, path);
        }
        files.push(path);
    }
}

/// Appends to `files` those of `paths` that are new, each once.
fn extend_unique(files: &mut Vec<String>, paths: &Vec<String>)
    ensures
        strs(final(files)@) == with_paths(strs(old(files)@), strs(paths@)),
{
    let ghost seen = strs(files@);
    let ghost offered = strs(paths@);
    let mut i: usize = 0;
    proof {
        assert(offered.take(0) =~= Seq::<Seq<char>>::empty());
    }
    while i < paths.len()
        invariant
            i <= paths.len(),
            offered == strs(paths@),
            strs(files@) == with_paths(seen, offered.take(i as int)),
        decreases paths.len() - i,
    {
        proof {
            lemma_with_paths_step(seen, offered, i as int);
        }
        push_unique(files, paths[i].clone());
        i += 1;
    }
    proof {
        assert(offered.take(paths.len() as int) =~= offered);
    }
}

/// Resolves the sync set from what was found in the working directory: the
/// listed paths, then the metadata files that exist, then the files below the
/// metadata directory, then what the added paths stand for. A path that was
/// met before is not taken again.
pub fn get_sync_files(found: &Worktree) -> (files: Vec<String>)
    ensures
        strs(files@) == sync_set(*found),
        strs(files@).no_duplicates(),
{
    let ghost none = Seq::<Seq<char>>::empty();
    let mut files: Vec<String> = Vec::new();
    proof {
        assert(strs(files@) =~= none);
    }
    extend_unique(&mut files, &found.listed);
    let ghost listed = strs(found.listed@);
    let ghost first = strs(files@);
    if found.has_gitignore {
        push_unique(&mut files, ".gitignore".to_owned());
    }
    let ghost second = strs(files@);
    if found.has_gitattributes {
        push_unique(&mut files, ".gitattributes".to_owned());
    }
    proof {
        let ignore = if found.has_gitignore {
            seq![".gitignore"@]
        } else {
            none
        };
        let attributes = if found.has_gitattributes {
            seq![".gitattributes"@]
        } else {
            none
        };
        lemma_with_paths_one(first, ".gitignore"@);
        lemma_with_paths_one(second, ".gitattributes"@);
        assert(second == with_paths(first, ignore));
        assert(strs(files@) == with_paths(second, attributes));
        lemma_with_paths_concat(first, ignore, attributes);
        lemma_with_paths_concat(none, listed, metadata_files(*found));
    }
    match &found.git_dir {
        Some(tree) => {
            let below = walkdir(&".git".to_owned(), tree);
            extend_unique(&mut files, &below);
        },
        None => {
            proof {
                lemma_with_paths_one(strs(files@), ".git"@);
            }
        },
    }
    let ghost base = listed + metadata_files(*found) + metadata_dir_files(*found);
    proof {
        lemma_with_paths_concat(none, listed + metadata_files(*found), metadata_dir_files(*found));
        assert(base + none =~= base);
    }
    let mut i: usize = 0;
    while i < found.added.len()
        invariant
            i <= found.added.len(),
            strs(files@) == with_paths(none, base + expansions(found.added@, i as nat)),
        decreases found.added.len() - i,
    {
        let added = &found.added[i];
        let ghost so_far = base + expansions(found.added@, i as nat);
        proof {
            lemma_with_paths_concat(none, so_far, expansion(*added));
            assert(so_far + expansion(*added) =~= base + expansions(
                found.added@,
                (i + 1) as nat,
            ));
        }
        match &added.dir {
            Some(tree) => {
                let below = walkdir(&added.path, tree);
                extend_unique(&mut files, &below);
            },
            None => {
                proof {
                    lemma_with_paths_one(strs(files@), added.path@);
                }
                push_unique(&mut files, added.path.clone());
            },
        }
        i += 1;
    }
    proof {
        lemma_sync_set_unique(*found);
    }
    files
}

} // verus!
