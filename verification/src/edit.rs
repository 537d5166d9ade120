//! Maintenance of the project descriptor: creating it, adding an entry,
//! removing one.
//!
//! Each operation takes what was found on disk as plain values and returns the
//! new text of the descriptor, or the reason why nothing is to be written.

use vstd::prelude::*;
use crate::config::{
    entry_line, join_lines, lists_path, stays, text_view, with_entry, without_entry, PathKind,
};
use crate::error::SyncError;
use crate::seqs::{contains_str, lemma_filter_ends, lemma_filter_step};
use crate::text::{
    append_chars, chars_eq, from_chars, lines, rows, split_lines, strs, to_chars, trim,
    trim_chars, trim_end_chars,
};

verus! {

/// What initializing gives: the first descriptor, which holds the remote root
/// on a line of its own, unless a descriptor is already there.
pub open spec fn init_outcome(remote_root: Seq<char>, descriptor_exists: bool) -> Result<
    Seq<char>,
    SyncError,
> {
    if descriptor_exists {
        Err(SyncError::AlreadyInitialized)
    } else {
        Ok(remote_root.push('\n'))
    }
}

/// What adding `path` gives, in the order in which the reasons are checked:
/// the descriptor must exist, something must stand at the path, a file must
/// not be listed by version control, the descriptor must have a first line,
/// and the path must not be among its entries. Then the new text is the old
/// one, without trailing white space, followed by the entry.
pub open spec fn add_outcome(
    descriptor: Option<Seq<char>>,
    path: Seq<char>,
    kind: PathKind,
    listed: Seq<Seq<char>>,
) -> Result<Seq<char>, SyncError> {
    match descriptor {
        None => Err(SyncError::ConfigMissing),
        Some(text) => if kind is Missing {
            Err(SyncError::PathNotFound)
        } else if kind is File && listed.contains(path) {
            Err(SyncError::AlreadyTracked)
        } else if lines(text).len() == 0 {
            Err(SyncError::ConfigMalformed)
        } else if lists_path(lines(text), path) {
            Err(SyncError::AlreadyTracked)
        } else {
            Ok(with_entry(text, path))
        },
    }
}

/// What removing `path` gives: the descriptor must exist, the path must not be
/// listed by version control, and some line must be its entry. Then the new
/// text holds the other lines, each ended by a line feed.
pub open spec fn remove_outcome(
    descriptor: Option<Seq<char>>,
    path: Seq<char>,
    listed: Seq<Seq<char>>,
) -> Result<Seq<char>, SyncError> {
    match descriptor {
        None => Err(SyncError::ConfigMissing),
        Some(text) => if listed.contains(path) {
            Err(SyncError::NotTracked)
        } else if forall|i: int|
            0 <= i < lines(text).len() ==> trim(#[trigger] lines(text)[i]) != entry_line(path) {
            Err(SyncError::NotTracked)
        } else {
            Ok(without_entry(text, path))
        },
    }
}

/// Whether an operation returned the text, or the error, that `outcome` names.
pub open spec fn text_matches(
    returned: Result<String, SyncError>,
    outcome: Result<Seq<char>, SyncError>,
) -> bool {
    match (returned, outcome) {
        (Ok(text), Ok(expected)) => text@ == expected,
        (Err(e), Err(expected)) => e == expected,
        _ => false,
    }
}

/// The text of the descriptor that initialization writes.
pub fn init_descriptor(remote_root: &str, descriptor_exists: bool) -> (written: Result<
    String,
    SyncError,
>)
    ensures
        text_matches(written, init_outcome(remote_root@, descriptor_exists)),
{
    if descriptor_exists {
        return Err(SyncError::AlreadyInitialized);
    }
    let mut text = remote_root.to_owned();
    text.push('\n');
    Ok(text)
}

/// The text of the descriptor after `path` was added.
///
/// `descriptor` is the present text, `None` without a descriptor; `kind` says
/// what stands at the path; `listed` are the paths that version control lists.
pub fn add_path(descriptor: Option<&str>, path: &String, kind: PathKind, listed: &Vec<String>) -> (written:
    Result<String, SyncError>)
    ensures
        text_matches(written, add_outcome(text_view(descriptor), path@, kind, strs(listed@))),
{
    let text = match descriptor {
        Some(text) => text,
        None => {
            return Err(SyncError::ConfigMissing);
        },
    };
    match kind {
        PathKind::Missing => {
            return Err(SyncError::PathNotFound);
        },
        PathKind::File => {
            if contains_str(listed, path) {
                return Err(SyncError::AlreadyTracked);
            }
        },
        _ => {},
    }
    let chars = to_chars(text);
    let ls = split_lines(&chars);
    if ls.len() == 0 {
        return Err(SyncError::ConfigMalformed);
    }
    let mut target: Vec<char> = Vec::new();
    target.push('+');
    append_chars(&mut target, &to_chars(path.as_str()));
    assert(target@ =~= entry_line(path@));
    let mut i: usize = 1;
    while i < ls.len()
        invariant
            1 <= i <= ls.len(),
            rows(ls@) == lines(text@),
            target@ == entry_line(path@),
            text_view(descriptor) == Some(text@),
            !(kind is Missing),
            !(kind is File && strs(listed@).contains(path@)),
            forall|j: int| 1 <= j < i ==> trim(#[trigger] lines(text@)[j]) != entry_line(path@),
        decreases ls.len() - i,
    {
        let line = trim_chars(&ls[i]);
        proof {
            assert(rows(ls@)[i as int] == ls@[i as int]@);
        }
        if chars_eq(&line, &target) {
            assert(trim(lines(text@)[i as int]) == entry_line(path@));
            return Err(SyncError::AlreadyTracked);
        }
        i += 1;
    }
    let mut out = trim_end_chars(&chars);
    out.push('\n');
    append_chars(&mut out, &target);
    out.push('\n');
    proof {
        assert(out@ =~= with_entry(text@, path@));
    }
    Ok(from_chars(&out))
}

/// Joining one more line.
proof fn lemma_join_push(ls: Seq<Seq<char>>, line: Seq<char>)
    ensures
        join_lines(ls.push(line)) == if ls.len() == 0 {
            line
        } else {
            join_lines(ls).push('\n') + line
        },
{
    assert(ls.push(line).drop_last() =~= ls);
}

/// The text of the descriptor after the entry of `path` was removed.
///
/// `descriptor` is the present text, `None` without a descriptor; `listed` are
/// the paths that version control lists.
pub fn remove_path(descriptor: Option<&str>, path: &String, listed: &Vec<String>) -> (written: Result<
    String,
    SyncError,
>)
    ensures
        text_matches(written, remove_outcome(text_view(descriptor), path@, strs(listed@))),
{
    let text = match descriptor {
        Some(text) => text,
        None => {
            return Err(SyncError::ConfigMissing);
        },
    };
    if contains_str(listed, path) {
        return Err(SyncError::NotTracked);
    }
    let chars = to_chars(text);
    let ls = split_lines(&chars);
    let ghost all = lines(text@);
    let ghost keep = stays(path@);
    let mut target: Vec<char> = Vec::new();
    target.push('+');
    append_chars(&mut target, &to_chars(path.as_str()));
    assert(target@ =~= entry_line(path@));
    let mut out: Vec<char> = Vec::new();
    let mut kept: usize = 0;
    let mut found = false;
    proof {
        lemma_filter_ends(all, keep);
    }
    let mut i: usize = 0;
    while i < ls.len()
        invariant
            i <= ls.len(),
            rows(ls@) == all,
            all == lines(text@),
            keep == stays(path@),
            target@ == entry_line(path@),
            kept == all.take(i as int).filter(keep).len(),
            kept <= i,
            out@ == join_lines(all.take(i as int).filter(keep)),
            !found ==> forall|j: int| 0 <= j < i ==> trim(#[trigger] all[j]) != entry_line(path@),
            found ==> exists|j: int| 0 <= j < i && trim(#[trigger] all[j]) == entry_line(path@),
        decreases ls.len() - i,
    {
        let line = trim_chars(&ls[i]);
        proof {
            assert(rows(ls@)[i as int] == ls@[i as int]@);
            lemma_filter_step(all, keep, i as int);
            lemma_join_push(all.take(i as int).filter(keep), all[i as int]);
        }
        if chars_eq(&line, &target) {
            found = true;
        } else {
            if kept > 0 {
                out.push('\n');
            }
            append_chars(&mut out, &ls[i]);
            kept += 1;
        }
        i += 1;
    }
    if !found {
        return Err(SyncError::NotTracked);
    }
    proof {
        assert(all.take(ls.len() as int) =~= all);
    }
    out.push('\n');
    Ok(from_chars(&out))
}

} // verus!
