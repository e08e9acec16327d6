//! The header of a documented operation: an HTTP verb and a path template.

use crate::text::{
    char_views, count, decimal, from_chars, is_text, push_chars, push_decimal, split, split_on,
    split_whitespace, to_chars, words,
};
use vstd::prelude::*;
use vstd::string::StringExecFns;

verus! {

/// The placeholder that takes the place of the `n`-th repeated `{id}`.
pub open spec fn id_placeholder(n: nat) -> Seq<char> {
    "{id"@ + decimal(n) + "}"@
}

/// The pieces put together again with numbered placeholders between them:
/// `{id1}` after the first piece, `{id2}` after the second, and so on.
pub open spec fn numbered(pieces: Seq<Seq<char>>) -> Seq<char>
    decreases pieces.len(),
{
    if pieces.len() == 0 {
        Seq::empty()
    } else if pieces.len() == 1 {
        pieces[0]
    } else {
        numbered(pieces.drop_last()) + id_placeholder((pieces.len() - 1) as nat) + pieces.last()
    }
}

/// The canonical form of a path template: where `{id}` occurs more than
/// once, its occurrences become `{id1}`, `{id2}`, ... from left to right;
/// any other path is its own canonical form.
pub open spec fn canonical_path(raw: Seq<char>) -> Seq<char> {
    if count(raw, "{id}"@) > 1 {
        numbered(split(raw, "{id}"@))
    } else {
        raw
    }
}

/// The path that stands for a catch-all entry, for which no operation can be
/// written.
pub open spec fn wildcard_path() -> Seq<char> {
    "/{any}"@
}

/// The verb and the path of a header line: its first two words, where it
/// has two.
pub open spec fn header_of(line: Seq<char>) -> Option<(Seq<char>, Seq<char>)> {
    if words(line).len() >= 2 {
        Some((words(line)[0], words(line)[1]))
    } else {
        None
    }
}

/// A numbered placeholder has five characters at least.
pub proof fn lemma_id_placeholder_len(n: nat)
    ensures
        id_placeholder(n).len() >= 5,
{
    reveal_strlit("{id");
    reveal_strlit("}");
    assert(decimal(n).len() >= 1);
}

/// The pieces put together have five characters at least for every
/// placeholder between them.
pub proof fn lemma_numbered_len(pieces: Seq<Seq<char>>)
    requires
        pieces.len() >= 1,
    ensures
        numbered(pieces).len() >= 5 * (pieces.len() - 1),
    decreases pieces.len(),
{
    if pieces.len() > 1 {
        lemma_numbered_len(pieces.drop_last());
        lemma_id_placeholder_len((pieces.len() - 1) as nat);
    }
}

/// The canonical form of a path that is not the wildcard path is not the
/// wildcard path either.
pub proof fn lemma_canonical_not_wildcard(raw: Seq<char>)
    requires
        raw != wildcard_path(),
    ensures
        canonical_path(raw) != wildcard_path(),
{
    if count(raw, "{id}"@) > 1 {
        lemma_numbered_len(split(raw, "{id}"@));
        reveal_strlit("/{any}");
    }
}

/// An HTTP verb and the path template it applies to, as documented.
#[derive(Debug, PartialEq, Eq)]
pub struct VerbPath {
    pub verb: String,
    path: String,
}

impl VerbPath {
    /// The verb, as text.
    pub closed spec fn verb_text(&self) -> Seq<char> {
        self.verb@
    }

    /// The path template as it was documented.
    pub closed spec fn raw_path(&self) -> Seq<char> {
        self.path@
    }

    /// A verb and a path template.
    pub fn new(verb: String, path: String) -> (r: VerbPath)
        ensures
            r.verb_text() == verb@,
            r.raw_path() == path@,
    {
        VerbPath { verb, path }
    }

    /// Reads a header line: its first word is the verb and its second the
    /// path. A line of fewer than two words is no header.
    pub fn parse(line: &str) -> (r: Option<VerbPath>)
        ensures
            match header_of(line@) {
                Some((verb, path)) => r matches Some(v) && v.verb_text() == verb && v.raw_path()
                    == path,
                None => r is None,
            },
    {
        let chars = to_chars(line);
        let found = split_whitespace(chars.as_slice());
        if found.len() >= 2 {
            Some(
                VerbPath {
                    verb: from_chars(found[0].as_slice()),
                    path: from_chars(found[1].as_slice()),
                },
            )
        } else {
            None
        }
    }

    /// The verb.
    pub fn verb(&self) -> (r: &str)
        ensures
            r@ == self.verb_text(),
    {
        self.verb.as_str()
    }

    /// The path template as it was documented.
    pub fn raw(&self) -> (r: String)
        ensures
            r@ == self.raw_path(),
    {
        self.path.clone()
    }

    /// A copy of the header.
    pub fn duplicate(&self) -> (r: VerbPath)
        ensures
            r.verb_text() == self.verb_text(),
            r.raw_path() == self.raw_path(),
    {
        VerbPath { verb: self.verb.clone(), path: self.path.clone() }
    }

    /// Whether the path is the wildcard path, which is to be skipped.
    pub fn unrepresentable(&self) -> (r: bool)
        ensures
            r == (self.raw_path() == wildcard_path()),
    {
        let chars = to_chars(self.path.as_str());
        is_text(chars.as_slice(), "/{any}")
    }

    /// How often `{id}` occurs in the path, where that is more than once.
    pub fn repeating_ids(&self) -> (r: Option<usize>)
        ensures
            r is Some <==> count(self.raw_path(), "{id}"@) > 1,
            r matches Some(c) ==> c == count(self.raw_path(), "{id}"@),
    {
        let chars = to_chars(self.path.as_str());
        let pattern = to_chars("{id}");
        proof {
            reveal_strlit("{id}");
        }
        let pieces = split_on(chars.as_slice(), pattern.as_slice());
        let c = pieces.len() - 1;
        if c > 1 {
            Some(c)
        } else {
            None
        }
    }

    /// The canonical path, which keys the operation.
    pub fn path(&self) -> (r: String)
        ensures
            r@ == canonical_path(self.raw_path()),
    {
        let chars = to_chars(self.path.as_str());
        let pattern = to_chars("{id}");
        proof {
            reveal_strlit("{id}");
        }
        let pieces = split_on(chars.as_slice(), pattern.as_slice());
        if pieces.len() <= 2 {
            return self.path.clone();
        }
        let ghost all = char_views(pieces@);
        let mut out = from_chars(pieces[0].as_slice());
        assert(all.take(1) == seq![all[0]]);
        let mut i: usize = 1;
        while i < pieces.len()
            invariant
                1 <= i <= pieces.len(),
                all == char_views(pieces@),
                out@ == numbered(all.take(i as int)),
            decreases pieces.len() - i,
        {
            let ghost before = out@;
            out.append("{id");
            push_decimal(&mut out, i);
            out.append("}");
            push_chars(&mut out, pieces[i].as_slice());
            proof {
                let next = all.take(i + 1);
                assert(next.drop_last() == all.take(i as int));
                assert(next.last() == pieces@[i as int]@);
                assert(out@ == before + id_placeholder(i as nat) + pieces@[i as int]@);
            }
            i += 1;
        }
        assert(all.take(pieces.len() as int) == all);
        out
    }
}

impl std::str::FromStr for VerbPath {
    type Err = ();

    /// Reads a header line as `VerbPath::parse` does; a line of fewer than
    /// two words is an error.
    fn from_str(s: &str) -> (r: Result<VerbPath, ()>)
        ensures
            match header_of(s@) {
                Some((verb, path)) => r matches Ok(v) && v.verb_text() == verb && v.raw_path()
                    == path,
                None => r is Err,
            },
    {
        match VerbPath::parse(s) {
            Some(v) => Ok(v),
            None => Err(()),
        }
    }
}

} // verus!
