//! The project descriptor and the configuration read from it.
//!
//! The descriptor is a small text file at the root of the working directory.
//! Its first line names the remote root. Each later line that begins with `+`
//! names one more path to synchronize; other lines are ignored. Lines are read
//! without the white space around them.

use vstd::prelude::*;
use crate::error::SyncError;
use crate::text::{
    from_chars, lemma_strs_push, lines, rows, split_lines, strs, sub_chars, to_chars, trim,
    trim_chars, trim_end,
};

verus! {

/// The name of the descriptor file below the root of the working directory.
pub const DESCRIPTOR_FILE: &'static str = ".local-sync";

/// Where the two sides are, and which paths were added by hand.
pub struct Config {
    /// The root of the working directory.
    pub root: String,
    /// The root of the remote mirror.
    pub remote_root: String,
    /// The paths that the descriptor adds to those under version control.
    pub additional_paths: Vec<String>,
}

/// A directory in which the descriptor was looked for, with its text where it
/// was found.
pub struct RootProbe {
    pub dir: String,
    pub descriptor: Option<String>,
}

/// What stands at a path in the working directory.
#[derive(Clone, Copy, Debug, PartialEq, Eq, Structural)]
pub enum PathKind {
    /// Nothing.
    Missing,
    /// A regular file.
    File,
    /// A directory.
    Directory,
    /// Something else.
    Other,
}

/// Whether a trimmed line adds a path.
pub open spec fn adds_path(line: Seq<char>) -> bool {
    line.len() > 0 && line[0] == '+'
}

/// The paths that lines 1 up to, not including, `n` add.
pub open spec fn added_in(ls: Seq<Seq<char>>, n: nat) -> Seq<Seq<char>>
    decreases n,
{
    if n <= 1 || n > ls.len() {
        Seq::empty()
    } else {
        let front = added_in(ls, (n - 1) as nat);
        let line = trim(ls[n - 1]);
        if adds_path(line) {
            front.push(line.skip(1))
        } else {
            front
        }
    }
}

/// The remote root and the added paths that a descriptor holds, or `None`
/// where it has no first line or only white space on it.
pub open spec fn parse_descriptor(text: Seq<char>) -> Option<(Seq<char>, Seq<Seq<char>>)> {
    let ls = lines(text);
    if ls.len() == 0 || trim(ls[0]).len() == 0 {
        None
    } else {
        Some((trim(ls[0]), added_in(ls, ls.len())))
    }
}

/// The line that adds `path`.
pub open spec fn entry_line(path: Seq<char>) -> Seq<char> {
    seq!['+'] + path
}

/// Whether one of the lines after the first is the entry of `path`.
pub open spec fn lists_path(ls: Seq<Seq<char>>, path: Seq<char>) -> bool {
    exists|i: int| 1 <= i < ls.len() && trim(#[trigger] ls[i]) == entry_line(path)
}

/// The descriptor `text` with an entry for `path` at its end.
pub open spec fn with_entry(text: Seq<char>, path: Seq<char>) -> Seq<char> {
    (trim_end(text) + seq!['\n', '+'] + path).push('\n')
}

/// The lines joined by line feeds.
pub open spec fn join_lines(ls: Seq<Seq<char>>) -> Seq<char>
    decreases ls.len(),
{
    if ls.len() == 0 {
        Seq::empty()
    } else if ls.len() == 1 {
        ls[0]
    } else {
        join_lines(ls.drop_last()).push('\n') + ls.last()
    }
}

/// The lines that stay when the entry of `path` is removed.
pub open spec fn stays(path: Seq<char>) -> spec_fn(Seq<char>) -> bool {
    |line: Seq<char>| trim(line) != entry_line(path)
}

/// The descriptor `text` without the lines that are the entry of `path`.
pub open spec fn without_entry(text: Seq<char>, path: Seq<char>) -> Seq<char> {
    join_lines(lines(text).filter(stays(path))).push('\n')
}

/// The view of an optional text.
pub open spec fn text_view(text: Option<&str>) -> Option<Seq<char>> {
    match text {
        Some(t) => Some(t@),
        None => None,
    }
}

/// What loading a configuration gives: the configuration that the descriptor
/// holds, `ConfigMissing` without a descriptor, `ConfigMalformed` where it
/// names no remote root.
pub open spec fn load_outcome(descriptor: Option<Seq<char>>) -> Result<
    (Seq<char>, Seq<Seq<char>>),
    SyncError,
> {
    match descriptor {
        None => Err(SyncError::ConfigMissing),
        Some(text) => match parse_descriptor(text) {
            Some(parsed) => Ok(parsed),
            None => Err(SyncError::ConfigMalformed),
        },
    }
}

/// Whether `config` is what `outcome` says.
pub open spec fn config_matches(
    loaded: Result<Config, SyncError>,
    root: Seq<char>,
    outcome: Result<(Seq<char>, Seq<Seq<char>>), SyncError>,
) -> bool {
    match (loaded, outcome) {
        (Ok(config), Ok(parsed)) => {
            &&& config.root@ == root
            &&& config.remote_root@ == parsed.0
            &&& strs(config.additional_paths@) == parsed.1
        },
        (Err(e), Err(expected)) => e == expected,
        _ => false,
    }
}

/// Reads the configuration of the working directory at `root` from the text of
/// its descriptor; `None` says that there is no descriptor.
pub fn load_config_from_root(root: String, descriptor: Option<&str>) -> (loaded: Result<
    Config,
    SyncError,
>)
    ensures
        config_matches(loaded, root@, load_outcome(text_view(descriptor))),
{
    let text = match descriptor {
        Some(text) => text,
        None => {
            return Err(SyncError::ConfigMissing);
        },
    };
    let chars = to_chars(text);
    let ls = split_lines(&chars);
    if ls.len() == 0 {
        return Err(SyncError::ConfigMalformed);
    }
    let first = trim_chars(&ls[0]);
    if first.len() == 0 {
        return Err(SyncError::ConfigMalformed);
    }
    let mut additional_paths: Vec<String> = Vec::new();
    let mut i: usize = 1;
    proof {
        assert(strs(additional_paths@) =~= Seq::<Seq<char>>::empty());
    }
    while i < ls.len()
        invariant
            1 <= i <= ls.len(),
            rows(ls@) == lines(text@),
            strs(additional_paths@) == added_in(lines(text@), i as nat),
        decreases ls.len() - i,
    {
        let line = trim_chars(&ls[i]);
        proof {
            assert(rows(ls@)[i as int] == ls@[i as int]@);
        }
        if line.len() > 0 && line[0] == '+' {
            let path = from_chars(&sub_chars(&line, 1, line.len()));
            proof {
                lemma_strs_push(additional_paths@, path);
                assert(line@.subrange(1, line@.len() as int) =~= line@.skip(1));
            }
            additional_paths.push(path);
        }
        i += 1;
    }
    proof {
        assert(rows(ls@)[0] == ls@[0]@);
    }
    Ok(Config { root, remote_root: from_chars(&first), additional_paths })
}

/// The configuration for a push or a status report: that of the working
/// directory at `git_root`, the root that version control names.
pub fn get_config(git_root: String, descriptor: Option<&str>) -> (loaded: Result<Config, SyncError>)
    ensures
        config_matches(loaded, git_root@, load_outcome(text_view(descriptor))),
{
    load_config_from_root(git_root, descriptor)
}

/// The place of the first directory, from `from` on, that holds a descriptor.
pub open spec fn first_descriptor(probes: Seq<RootProbe>, from: int) -> Option<int>
    decreases probes.len() - from,
{
    if from < 0 || from >= probes.len() {
        None
    } else if probes[from].descriptor is Some {
        Some(from)
    } else {
        first_descriptor(probes, from + 1)
    }
}

/// What loading the configuration for a pull gives: that of the nearest
/// directory with a descriptor, or `ConfigMissing` where no directory has one.
pub open spec fn pull_config_matches(loaded: Result<Config, SyncError>, probes: Seq<RootProbe>)
    -> bool {
    match first_descriptor(probes, 0) {
        None => config_matches(loaded, Seq::empty(), load_outcome(None)),
        Some(i) => config_matches(
            loaded,
            probes[i].dir@,
            load_outcome(Some(probes[i].descriptor->0@)),
        ),
    }
}

/// The project root among the directories from the current one upwards: the
/// first that holds a descriptor.
pub fn find_project_root(probes: &Vec<RootProbe>) -> (found: Option<usize>)
    ensures
        match found {
            Some(i) => {
                &&& i < probes.len()
                &&& probes[i as int].descriptor is Some
                &&& first_descriptor(probes@, 0) == Some(i as int)
            },
            None => first_descriptor(probes@, 0) is None,
        },
{
    let mut i: usize = 0;
    while i < probes.len()
        invariant
            i <= probes.len(),
            first_descriptor(probes@, 0) == first_descriptor(probes@, i as int),
        decreases probes.len() - i,
    {
        if probes[i].descriptor.is_some() {
            return Some(i);
        }
        i += 1;
    }
    None
}

/// The configuration for a pull. `probes` are the current directory and its
/// ancestors, nearest first; the first that holds a descriptor is the project
/// root. Without any, the configuration is missing.
pub fn get_config_for_pull(probes: &Vec<RootProbe>) -> (loaded: Result<Config, SyncError>)
    ensures
        pull_config_matches(loaded, probes@),
{
    match find_project_root(probes) {
        None => Err(SyncError::ConfigMissing),
        Some(i) => {
            let probe = &probes[i];
            match &probe.descriptor {
                Some(text) => load_config_from_root(probe.dir.clone(), Some(text.as_str())),
                None => Err(SyncError::ConfigMissing),
            }
        },
    }
}

} // verus!
