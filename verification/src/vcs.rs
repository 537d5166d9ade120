//! Reading what version control printed.
//!
//! The synchronizer asks version control two things: where the root of the
//! repository is, and which files it lists. The answers arrive as text.

use vstd::prelude::*;
use crate::seqs::{lemma_filter_ends, lemma_filter_step};
use crate::text::{from_chars, lemma_strs_push, lines, rows, split_lines, strs, to_chars, trim, trim_chars};

verus! {

/// The lines that name a file: those that are not empty.
pub open spec fn names_file() -> spec_fn(Seq<char>) -> bool {
    |line: Seq<char>| line.len() > 0
}

/// The root of the repository, as printed: the output without the white space
/// around it.
pub fn parse_root(output: &str) -> (root: String)
    ensures
        root@ == trim(output@),
{
    from_chars(&trim_chars(&to_chars(output)))
}

/// The listed files, one to the line; empty lines name nothing.
pub fn parse_listing(output: &str) -> (files: Vec<String>)
    ensures
        strs(files@) == lines(output@).filter(names_file()),
{
    let chars = to_chars(output);
    let ls = split_lines(&chars);
    let ghost all = lines(output@);
    let mut files: Vec<String> = Vec::new();
    proof {
        lemma_filter_ends(all, names_file());
        assert(strs(files@) =~= Seq::<Seq<char>>::empty());
    }
    let mut i: usize = 0;
    while i < ls.len()
        invariant
            i <= ls.len(),
            rows(ls@) == all,
            strs(files@) == all.take(i as int).filter(names_file()),
        decreases ls.len() - i,
    {
        proof {
            assert(rows(ls@)[i as int] == ls@[i as int]@);
            lemma_filter_step(all, names_file(), i as int);
        }
        if ls[i].len() > 0 {
            let name = from_chars(&ls[i]);
            proof {
                lemma_strs_push(files@, name);
            }
            files.push(name);
        }
        i += 1;
    }
    proof {
        assert(all.take(ls.len() as int) =~= all);
    }
    files
}

} // verus!
