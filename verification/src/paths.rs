//! Operations: their canonical paths, their parameters and their identifiers.

use crate::text::{
    char_views, extend_chars, from_chars, is_text, join, join_chars, join_terminated, split,
    split_on, text_le, text_lt, to_chars, trim_end_matches, trim_matches, trim_start_matches,
    views,
};
use crate::info::TransformError;
use crate::paths::parameters::{
    first_unmatched, models, parse_path, placeholders, resolved_parameters, ParameterModel,
    ParameterRow, ParameterSpec,
};
use crate::paths::parameters::resolution;
use crate::paths::verb_path::{
    canonical_path, lemma_canonical_not_wildcard, wildcard_path, VerbPath,
};
use crate::index::{
    has_value, index_get, index_insert, index_map_entries, index_new, index_sort_keys,
    index_values, lemma_rearranged,
};
use vstd::prelude::*;
use vstd::slice::slice_subrange;
use vstd::string::StringExecFns;

pub mod operation;
pub mod parameters;
pub mod request_body;
pub mod response;
pub mod verb_path;

verus! {

/// The segments of a path: what stands between its slashes, the slashes at
/// its ends left aside.
pub open spec fn segments(path: Seq<char>) -> Seq<Seq<char>> {
    split(trim_matches(path, '/'), seq!['/'])
}

/// A segment that is a placeholder, `{name}`.
pub open spec fn is_parameter_segment(seg: Seq<char>) -> bool {
    seg.len() >= 2 && seg.first() == '{' && seg.last() == '}'
}

/// The name inside a placeholder segment.
pub open spec fn parameter_name(seg: Seq<char>) -> Seq<char> {
    seg.subrange(1, seg.len() - 1)
}

/// The singular of a collection name, by the rule of thumb that strips one
/// final `s`.
pub open spec fn singular(seg: Seq<char>) -> Seq<char> {
    if seg.len() > 0 && seg.last() == 's' {
        seg.drop_last()
    } else {
        seg
    }
}

/// The words that the first `n` segments contribute to an identifier: the
/// segments that are no placeholders, in order, each in the singular where a
/// placeholder follows it directly.
pub open spec fn name_parts(segs: Seq<Seq<char>>, n: int) -> Seq<Seq<char>>
    decreases n,
{
    if n <= 0 {
        Seq::empty()
    } else if is_parameter_segment(segs[n - 1]) {
        name_parts(segs, n - 1)
    } else if n < segs.len() && is_parameter_segment(segs[n]) {
        name_parts(segs, n - 1).push(singular(segs[n - 1]))
    } else {
        name_parts(segs, n - 1).push(segs[n - 1])
    }
}

/// The names of the placeholders among the first `n` segments, in order.
pub open spec fn parameter_names(segs: Seq<Seq<char>>, n: int) -> Seq<Seq<char>>
    decreases n,
{
    if n <= 0 {
        Seq::empty()
    } else if is_parameter_segment(segs[n - 1]) {
        parameter_names(segs, n - 1).push(parameter_name(segs[n - 1]))
    } else {
        parameter_names(segs, n - 1)
    }
}

/// The text from which the candidate made of the last `k` words is formed:
/// the verb and those words, each followed by an underscore.
pub open spec fn id_source(verb: Seq<char>, parts: Seq<Seq<char>>, k: int) -> Seq<char> {
    verb + seq!['_'] + join_terminated(parts.skip(parts.len() - k), seq!['_'])
}

/// The text from which the last candidate is formed: the verb, all words,
/// and the names of all placeholders, each introduced by `by`.
pub open spec fn fallback_source(
    verb: Seq<char>,
    parts: Seq<Seq<char>>,
    params: Seq<Seq<char>>,
) -> Seq<char> {
    verb + seq!['_'] + join_terminated(parts, seq!['_']) + "_by_"@ + join(params, "_by_"@)
}

/// The texts from which the candidate identifiers of an operation are
/// formed, the least qualified first: one for each number of trailing words,
/// from the last word alone to all words, and then the fallback that names
/// every placeholder.
pub open spec fn id_sources(verb: Seq<char>, path: Seq<char>) -> Seq<Seq<char>> {
    let segs = segments(path);
    let parts = name_parts(segs, segs.len() as int);
    let params = parameter_names(segs, segs.len() as int);
    Seq::new(parts.len(), |j: int| id_source(verb, parts, j + 1)).push(
        fallback_source(verb, parts, params),
    )
}

/// The slice without the run of `c` at either end.
pub fn trimmed_of(s: &[char], c: char) -> (r: &[char])
    ensures
        r@ == trim_matches(s@, c),
{
    let mut lo: usize = 0;
    assert(s@.skip(0) == s@);
    while lo < s.len() && s[lo] == c
        invariant
            lo <= s.len(),
            trim_start_matches(s@, c) == trim_start_matches(s@.skip(lo as int), c),
        decreases s.len() - lo,
    {
        assert(s@.skip(lo as int).drop_first() == s@.skip(lo + 1));
        lo += 1;
    }
    assert(trim_start_matches(s@, c) == s@.skip(lo as int));
    assert(s@.skip(lo as int) == s@.subrange(lo as int, s@.len() as int));
    let mut hi: usize = s.len();
    while hi > lo && s[hi - 1] == c
        invariant
            lo <= hi <= s.len(),
            trim_matches(s@, c) == trim_end_matches(s@.subrange(lo as int, hi as int), c),
        decreases hi - lo,
    {
        assert(s@.subrange(lo as int, hi as int).drop_last() == s@.subrange(
            lo as int,
            hi - 1,
        ));
        hi -= 1;
    }
    slice_subrange(s, lo, hi)
}

/// Whether the segment is a placeholder.
fn is_parameter(seg: &[char]) -> (b: bool)
    ensures
        b == is_parameter_segment(seg@),
{
    seg.len() >= 2 && seg[0] == '{' && seg[seg.len() - 1] == '}'
}

/// The words and the placeholder names of a path.
fn classify(path: &[char]) -> (r: (Vec<Vec<char>>, Vec<Vec<char>>))
    ensures
        char_views(r.0@) == name_parts(segments(path@), segments(path@).len() as int),
        char_views(r.1@) == parameter_names(segments(path@), segments(path@).len() as int),
{
    let slash: [char; 1] = ['/'];
    assert(slash@ == seq!['/']);
    let segs = split_on(trimmed_of(path, '/'), slash.as_slice());
    let ghost all = char_views(segs@);
    let mut parts: Vec<Vec<char>> = Vec::new();
    let mut params: Vec<Vec<char>> = Vec::new();
    let mut i: usize = 0;
    while i < segs.len()
        invariant
            i <= segs.len(),
            all == char_views(segs@),
            char_views(parts@) == name_parts(all, i as int),
            char_views(params@) == parameter_names(all, i as int),
        decreases segs.len() - i,
    {
        let seg = segs[i].as_slice();
        let ghost parts_before = char_views(parts@);
        let ghost params_before = char_views(params@);
        if is_parameter(seg) {
            let name = vstd::slice::slice_to_vec(slice_subrange(seg, 1, seg.len() - 1));
            params.push(name);
            assert(char_views(params@) == params_before.push(parameter_name(all[i as int])));
        } else if i + 1 < segs.len() && is_parameter(segs[i + 1].as_slice()) {
            let word = if seg.len() > 0 && seg[seg.len() - 1] == 's' {
                vstd::slice::slice_to_vec(slice_subrange(seg, 0, seg.len() - 1))
            } else {
                vstd::slice::slice_to_vec(seg)
            };
            parts.push(word);
            assert(char_views(parts@) == parts_before.push(singular(all[i as int])));
        } else {
            parts.push(vstd::slice::slice_to_vec(seg));
            assert(char_views(parts@) == parts_before.push(all[i as int]));
        }
        i += 1;
    }
    (parts, params)
}

/// The texts from which the candidate identifiers of `verb` `path` are
/// formed, the least qualified first.
pub fn operation_id_sources(verb: &str, path: &str) -> (r: Vec<String>)
    ensures
        views(r@) == id_sources(verb@, path@),
{
    let verb_chars = to_chars(verb);
    let path_chars = to_chars(path);
    let (parts, params) = classify(path_chars.as_slice());
    let ghost words = char_views(parts@);
    let ghost names = char_views(params@);
    let m = parts.len();
    let mut sources: Vec<String> = Vec::new();
    let mut joined: Vec<char> = Vec::new();
    let mut t: usize = 0;
    assert(words.skip(m as int) == Seq::<Seq<char>>::empty());
    while t < m
        invariant
            t <= m,
            m == parts.len(),
            words == char_views(parts@),
            sources@.len() == t,
            forall|j: int| 0 <= j < t ==> (#[trigger] sources@[j])@ == id_source(verb@, words, j + 1),
            joined@ == join_terminated(words.skip(m - t), seq!['_']),
            verb_chars@ == verb@,
        decreases m - t,
    {
        let i = m - 1 - t;
        let mut next: Vec<char> = Vec::new();
        extend_chars(&mut next, parts[i].as_slice());
        next.push('_');
        extend_chars(&mut next, joined.as_slice());
        proof {
            assert(words.skip(i as int).drop_first() == words.skip(m - t));
            assert(words.skip(i as int)[0] == parts@[i as int]@);
            assert(next@ == parts@[i as int]@ + seq!['_'] + joined@);
        }
        joined = next;
        let mut source: Vec<char> = Vec::new();
        extend_chars(&mut source, verb_chars.as_slice());
        source.push('_');
        extend_chars(&mut source, joined.as_slice());
        assert(source@ == verb@ + seq!['_'] + joined@);
        sources.push(from_chars(source.as_slice()));
        t += 1;
    }
    assert(words.skip(0) == words);
    let by = to_chars("_by_");
    let mut last: Vec<char> = Vec::new();
    extend_chars(&mut last, verb_chars.as_slice());
    last.push('_');
    extend_chars(&mut last, joined.as_slice());
    extend_chars(&mut last, by.as_slice());
    let names_joined = join_chars(&params, by.as_slice());
    extend_chars(&mut last, names_joined.as_slice());
    assert(last@ == fallback_source(verb@, words, names));
    sources.push(from_chars(last.as_slice()));
    assert(views(sources@) == id_sources(verb@, path@));
    sources
}

/// The lower camel case of a text: what `to_lower_camel_case` of the crate
/// `heck` returns for it.
pub uninterp spec fn lower_camel_case(s: Seq<char>) -> Seq<char>;

/// Calls `heck::ToLowerCamelCase::to_lower_camel_case` on a string slice. The
/// conversion splits the text into words at the characters that are neither
/// letters nor digits and at changes of case, and joins them again with every
/// word but the first capitalised; the contract only gives the result its
/// name, `lower_camel_case`, as a function of the text alone.
#[verifier::external_body]
fn to_lower_camel_case(s: &str) -> (r: String)
    ensures
        r@ == lower_camel_case(s@),
{
    heck::ToLowerCamelCase::to_lower_camel_case(s)
}

/// The candidate identifiers of an operation, the least qualified first: the
/// lower camel case of each of its sources.
pub open spec fn candidate_ids(verb: Seq<char>, path: Seq<char>) -> Seq<Seq<char>> {
    Seq::new(
        id_sources(verb, path).len(),
        |j: int| lower_camel_case(id_sources(verb, path)[j]),
    )
}

/// The candidate identifiers of `verb` `path`, the least qualified first and
/// the fallback, which names every placeholder, last.
pub fn generate_operation_ids(verb: &str, path: &str) -> (r: Vec<String>)
    ensures
        views(r@) == candidate_ids(verb@, path@),
        r@.len() >= 1,
{
    let sources = operation_id_sources(verb, path);
    let mut ids: Vec<String> = Vec::new();
    let mut i: usize = 0;
    while i < sources.len()
        invariant
            i <= sources.len(),
            views(sources@) == id_sources(verb@, path@),
            ids@.len() == i,
            forall|j: int| 0 <= j < i ==> (#[trigger] ids@[j])@ == lower_camel_case(sources@[j]@),
        decreases sources.len() - i,
    {
        ids.push(to_lower_camel_case(sources[i].as_str()));
        i += 1;
    }
    proof {
        assert forall|j: int| 0 <= j < ids@.len() implies views(ids@)[j] == candidate_ids(
            verb@,
            path@,
        )[j] by {
            assert(views(sources@)[j] == sources@[j]@);
        }
        assert(views(ids@) == candidate_ids(verb@, path@));
    }
    ids
}

/// How often `id` stands in `all`.
pub open spec fn occurrences(all: Seq<Seq<char>>, id: Seq<char>) -> nat
    decreases all.len(),
{
    if all.len() == 0 {
        0
    } else {
        occurrences(all.drop_last(), id) + if all.last() == id {
            1nat
        } else {
            0nat
        }
    }
}

/// The candidates of one operation as the census counts them: none for the
/// wildcard path, and otherwise those of the verb and the canonical path.
pub open spec fn operation_candidates(op: VerbPath) -> Seq<Seq<char>> {
    if op.raw_path() == wildcard_path() {
        Seq::empty()
    } else {
        candidate_ids(op.verb_text(), canonical_path(op.raw_path()))
    }
}

/// The candidates of the first `n` operations, in order.
pub open spec fn all_candidates(ops: Seq<VerbPath>, n: int) -> Seq<Seq<char>>
    decreases n,
{
    if n <= 0 {
        Seq::empty()
    } else {
        all_candidates(ops, n - 1) + operation_candidates(ops[n - 1])
    }
}

/// For every identifier, how many times the operations of a document propose
/// it as a candidate.
pub struct CollisionCensus {
    recorded: Vec<String>,
}

impl CollisionCensus {
    /// Every candidate that was counted, once for each time it was proposed.
    pub closed spec fn recorded(&self) -> Seq<Seq<char>> {
        views(self.recorded@)
    }

    /// How many times `id` was proposed.
    pub open spec fn count_of(&self, id: Seq<char>) -> nat {
        occurrences(self.recorded(), id)
    }

    /// The census of no operation.
    pub fn new() -> (r: CollisionCensus)
        ensures
            r.recorded() == Seq::<Seq<char>>::empty(),
    {
        let r = CollisionCensus { recorded: Vec::new() };
        assert(r.recorded() == Seq::<Seq<char>>::empty());
        r
    }

    /// Counts each of the candidates once more.
    pub fn record(&mut self, candidates: Vec<String>)
        ensures
            final(self).recorded() == old(self).recorded() + views(candidates@),
    {
        let mut candidates = candidates;
        let ghost added = views(candidates@);
        self.recorded.append(&mut candidates);
        assert(views(self.recorded@) == old(self).recorded() + added);
    }

    /// How many times `id` was proposed.
    pub fn count(&self, id: &str) -> (r: usize)
        ensures
            r == self.count_of(id@),
    {
        let wanted = String::from_str(id);
        let ghost all = views(self.recorded@);
        let mut n: usize = 0;
        let mut i: usize = 0;
        while i < self.recorded.len()
            invariant
                i <= self.recorded.len(),
                all == views(self.recorded@),
                wanted@ == id@,
                n <= i,
                n == occurrences(all.take(i as int), id@),
            decreases self.recorded.len() - i,
        {
            proof {
                let next = all.take(i + 1);
                assert(next.drop_last() == all.take(i as int));
                assert(next.last() == self.recorded@[i as int]@);
            }
            if self.recorded[i] == wanted {
                n += 1;
            }
            i += 1;
        }
        assert(all.take(self.recorded.len() as int) == all);
        n
    }
}

/// The census of a document: every candidate of every operation but those
/// with the wildcard path is counted, before any identifier is chosen.
pub fn census(operations: &Vec<VerbPath>) -> (r: CollisionCensus)
    ensures
        r.recorded() == all_candidates(operations@, operations@.len() as int),
{
    let mut census = CollisionCensus::new();
    let mut i: usize = 0;
    while i < operations.len()
        invariant
            i <= operations.len(),
            census.recorded() == all_candidates(operations@, i as int),
        decreases operations.len() - i,
    {
        let op = &operations[i];
        if !op.unrepresentable() {
            let path = op.path();
            census.record(generate_operation_ids(op.verb(), path.as_str()));
        }
        i += 1;
    }
    census
}

/// The position of the first candidate, from `from` on, that is proposed
/// less than twice; the number of candidates where there is none.
pub open spec fn first_unique(candidates: Seq<Seq<char>>, recorded: Seq<Seq<char>>, from: int) -> int
    decreases candidates.len() - from,
{
    if from >= candidates.len() {
        candidates.len() as int
    } else if occurrences(recorded, candidates[from]) < 2 {
        from
    } else {
        first_unique(candidates, recorded, from + 1)
    }
}

/// The identifier chosen among the candidates of an operation: the first
/// that is proposed less than twice over the whole document, and the last
/// candidate where every one of them collides.
pub open spec fn selected(candidates: Seq<Seq<char>>, recorded: Seq<Seq<char>>) -> Seq<char>
    recommends
        candidates.len() > 0,
{
    let i = first_unique(candidates, recorded, 0);
    if i < candidates.len() {
        candidates[i]
    } else {
        candidates.last()
    }
}

/// What is chosen is one of the candidates. Where one of them is proposed
/// less than twice, it is the first of these; else it is the last of all.
pub proof fn lemma_selected(candidates: Seq<Seq<char>>, recorded: Seq<Seq<char>>, from: int)
    requires
        0 <= from <= candidates.len(),
    ensures
        from <= first_unique(candidates, recorded, from) <= candidates.len(),
        first_unique(candidates, recorded, from) < candidates.len() ==> occurrences(
            recorded,
            candidates[first_unique(candidates, recorded, from)],
        ) < 2,
        forall|k: int|
            from <= k < first_unique(candidates, recorded, from) ==> occurrences(
                recorded,
                #[trigger] candidates[k],
            ) >= 2,
        from == 0 && candidates.len() > 0 ==> candidates.contains(selected(candidates, recorded)),
    decreases candidates.len() - from,
{
    if from < candidates.len() && occurrences(recorded, candidates[from]) >= 2 {
        lemma_selected(candidates, recorded, from + 1);
    }
    if from == 0 && candidates.len() > 0 {
        let i = first_unique(candidates, recorded, 0);
        if i < candidates.len() {
            assert(candidates[i] == selected(candidates, recorded));
        } else {
            assert(candidates[candidates.len() - 1] == selected(candidates, recorded));
        }
    }
}

/// Chooses the identifier of an operation among its candidates.
pub fn select_operation_id(candidates: &Vec<String>, census: &CollisionCensus) -> (r: String)
    requires
        candidates@.len() > 0,
    ensures
        r@ == selected(views(candidates@), census.recorded()),
{
    let ghost all = views(candidates@);
    let mut i: usize = 0;
    while i < candidates.len()
        invariant
            i <= candidates.len(),
            all == views(candidates@),
            first_unique(all, census.recorded(), 0) == first_unique(
                all,
                census.recorded(),
                i as int,
            ),
        decreases candidates.len() - i,
    {
        assert(all[i as int] == candidates@[i as int]@);
        if census.count(candidates[i].as_str()) < 2 {
            return candidates[i].clone();
        }
        i += 1;
    }
    assert(all.last() == candidates@[candidates@.len() - 1]@);
    candidates[candidates.len() - 1].clone()
}

/// The HTTP methods for which an operation can be written.
#[derive(Clone, Copy, Debug, PartialEq, Eq, Structural)]
pub enum Method {
    Delete,
    Get,
    Patch,
    Post,
    Put,
    Options,
}

/// The method that a verb names, if it is one of the supported six.
pub open spec fn method_of(verb: Seq<char>) -> Option<Method> {
    if verb == "DELETE"@ {
        Some(Method::Delete)
    } else if verb == "GET"@ {
        Some(Method::Get)
    } else if verb == "PATCH"@ {
        Some(Method::Patch)
    } else if verb == "POST"@ {
        Some(Method::Post)
    } else if verb == "PUT"@ {
        Some(Method::Put)
    } else if verb == "OPTIONS"@ {
        Some(Method::Options)
    } else {
        None
    }
}

/// What reading a verb gives: its method, or the error that carries the
/// verb where it is none of the supported six.
pub open spec fn method_result(verb: Seq<char>, r: Result<Method, TransformError>) -> bool {
    match method_of(verb) {
        Some(m) => r == Ok::<Method, TransformError>(m),
        None => r matches Err(TransformError::UnsupportedVerb(v)) && v@ == verb,
    }
}

/// Reads a verb.
pub fn parse_method(verb: &str) -> (r: Result<Method, TransformError>)
    ensures
        method_result(verb@, r),
{
    let chars = to_chars(verb);
    let v = chars.as_slice();
    if is_text(v, "DELETE") {
        Ok(Method::Delete)
    } else if is_text(v, "GET") {
        Ok(Method::Get)
    } else if is_text(v, "PATCH") {
        Ok(Method::Patch)
    } else if is_text(v, "POST") {
        Ok(Method::Post)
    } else if is_text(v, "PUT") {
        Ok(Method::Put)
    } else if is_text(v, "OPTIONS") {
        Ok(Method::Options)
    } else {
        Err(TransformError::UnsupportedVerb(String::from_str(verb)))
    }
}

/// The identifier that an operation gets under a census: the one chosen
/// among the candidates of its verb and its canonical path.
pub open spec fn assigned(op: VerbPath, recorded: Seq<Seq<char>>) -> Seq<char> {
    selected(candidate_ids(op.verb_text(), canonical_path(op.raw_path())), recorded)
}

/// The identifier of an operation under the census of its document. An
/// operation whose verb is none of the supported six gets none: the error
/// carries the verb.
pub fn assign(verb_path: &VerbPath, census: &CollisionCensus) -> (r: Result<String, TransformError>)
    ensures
        match method_of(verb_path.verb_text()) {
            Some(_) => r matches Ok(id) && id@ == assigned(*verb_path, census.recorded()),
            None => r matches Err(TransformError::UnsupportedVerb(v)) && v@
                == verb_path.verb_text(),
        },
{
    match parse_method(verb_path.verb()) {
        Ok(_) => {
            let path = verb_path.path();
            let candidates = generate_operation_ids(verb_path.verb(), path.as_str());
            Ok(select_operation_id(&candidates, census))
        },
        Err(e) => Err(e),
    }
}

/// One documented operation, as it was read from its section of the
/// document: the tag under which it stands, its header, and the rows of its
/// parameter table.
#[derive(Debug, PartialEq, Eq)]
pub struct Section {
    pub tag: String,
    pub verb_path: VerbPath,
    pub rows: Vec<ParameterRow>,
}

/// An operation of a path: the section that documents it, by its position
/// among the sections, with the identifier it was given and its tag.
#[derive(Debug, PartialEq, Eq)]
pub struct OperationEntry {
    pub section: usize,
    pub operation_id: String,
    pub tag: String,
}

/// A path with its parameters and, for each method, the operation that is
/// documented for it, if any.
#[derive(Debug, PartialEq, Eq)]
pub struct PathItem {
    pub path: String,
    pub parameters: Vec<ParameterSpec>,
    pub delete: Option<OperationEntry>,
    pub get: Option<OperationEntry>,
    pub patch: Option<OperationEntry>,
    pub post: Option<OperationEntry>,
    pub put: Option<OperationEntry>,
    pub options: Option<OperationEntry>,
}

/// The paths of a document and the tags under which their operations stand.
#[derive(Debug, PartialEq, Eq)]
pub struct Paths {
    pub items: Vec<PathItem>,
    pub tags: Vec<String>,
}

impl PathItem {
    /// The operation of the path for a method.
    pub open spec fn slot(&self, m: Method) -> Option<OperationEntry> {
        match m {
            Method::Delete => self.delete,
            Method::Get => self.get,
            Method::Patch => self.patch,
            Method::Post => self.post,
            Method::Put => self.put,
            Method::Options => self.options,
        }
    }

    /// Whether the path has an operation for the method.
    pub fn has(&self, m: Method) -> (b: bool)
        ensures
            b == self.slot(m) is Some,
    {
        match m {
            Method::Delete => self.delete.is_some(),
            Method::Get => self.get.is_some(),
            Method::Patch => self.patch.is_some(),
            Method::Post => self.post.is_some(),
            Method::Put => self.put.is_some(),
            Method::Options => self.options.is_some(),
        }
    }
}

/// A section for which an operation can be written: its path is not the
/// wildcard path.
pub open spec fn representable(s: Section) -> bool {
    s.verb_path.raw_path() != wildcard_path()
}

/// The key of a section: its canonical path.
pub open spec fn key_of(s: Section) -> Seq<char> {
    canonical_path(s.verb_path.raw_path())
}

/// The section documents an operation of `path`.
pub open spec fn writes(s: Section, path: Seq<char>) -> bool {
    representable(s) && key_of(s) == path
}

/// The section documents the operation of `path` for the method `m`.
pub open spec fn writes_slot(s: Section, path: Seq<char>, m: Method) -> bool {
    writes(s, path) && method_of(s.verb_path.verb_text()) == Some(m)
}

/// The section `k` is the first to document an operation of its path.
pub open spec fn opens_path(sections: Seq<Section>, k: int) -> bool {
    &&& 0 <= k < sections.len()
    &&& representable(sections[k])
    &&& forall|j: int| 0 <= j < k ==> !writes(#[trigger] sections[j], key_of(sections[k]))
}

/// The path parameters of a section hold one that no placeholder names.
pub open spec fn unresolved(s: Section) -> bool {
    first_unmatched(
        resolved_parameters(s.verb_path.raw_path(), s.rows@),
        placeholders(key_of(s)),
        0,
    ) < resolved_parameters(s.verb_path.raw_path(), s.rows@).len()
}

/// The document cannot be transformed because of the section `k`: it opens
/// its path with parameters that cannot be resolved, or its verb is none of
/// the supported methods.
pub open spec fn fails(sections: Seq<Section>, k: int) -> bool {
    &&& 0 <= k < sections.len()
    &&& representable(sections[k])
    &&& (opens_path(sections, k) && unresolved(sections[k])) || method_of(
        sections[k].verb_path.verb_text(),
    ) is None
}

/// The error with which the section `k` fails: that of its parameters where
/// they cannot be resolved, and otherwise that of its verb.
pub open spec fn failure(sections: Seq<Section>, k: int, e: TransformError) -> bool {
    let s = sections[k];
    if opens_path(sections, k) && unresolved(s) {
        let params = resolved_parameters(s.verb_path.raw_path(), s.rows@);
        let i = first_unmatched(params, placeholders(key_of(s)), 0);
        e matches TransformError::UnmatchedPathParameter { verb, path, name } && verb@
            == s.verb_path.verb_text() && path@ == s.verb_path.raw_path() && name@
            == params[i].name
    } else {
        e matches TransformError::UnsupportedVerb(v) && v@ == s.verb_path.verb_text()
    }
}

/// The headers of the sections, in order.
pub open spec fn operations_of(sections: Seq<Section>) -> Seq<VerbPath> {
    sections.map_values(|s: Section| s.verb_path)
}

/// The candidates that the census of a document counts: those of all its
/// sections.
pub open spec fn document_candidates(sections: Seq<Section>) -> Seq<Seq<char>> {
    all_candidates(operations_of(sections), sections.len() as int)
}

/// What the operation of `path` for the method `m` is, among the first `n`
/// sections: none where none of them documents it; else the first section
/// that does, with the identifier that it is assigned under the census of
/// the whole document, and with its tag.
pub open spec fn slot_of(
    sections: Seq<Section>,
    n: int,
    path: Seq<char>,
    m: Method,
    slot: Option<OperationEntry>,
) -> bool {
    match slot {
        Some(e) => {
            &&& e.section < n
            &&& writes_slot(sections[e.section as int], path, m)
            &&& forall|j: int| 0 <= j < e.section ==> !writes_slot(#[trigger] sections[j], path, m)
            &&& e.operation_id@ == assigned(
                sections[e.section as int].verb_path,
                document_candidates(sections),
            )
            &&& e.tag@ == sections[e.section as int].tag@
        },
        None => forall|j: int| 0 <= j < n ==> !writes_slot(#[trigger] sections[j], path, m),
    }
}

/// The item is the path that the section `k` opens: it has the canonical
/// path of the section and its resolved parameters.
pub open spec fn opened_by(sections: Seq<Section>, k: int, item: PathItem) -> bool {
    &&& opens_path(sections, k)
    &&& item.path@ == key_of(sections[k])
    &&& models(item.parameters@) == resolved_parameters(
        sections[k].verb_path.raw_path(),
        sections[k].rows@,
    )
}

/// Some section opens the item.
pub open spec fn opened(sections: Seq<Section>, item: PathItem) -> bool {
    exists|k: int| #[trigger] opened_by(sections, k, item)
}

/// One of the items has the path.
pub open spec fn has_path(items: Seq<PathItem>, path: Seq<char>) -> bool {
    exists|i: int| 0 <= i < items.len() && (#[trigger] items[i]).path@ == path
}

/// Some section that is not skipped stands under the tag.
pub open spec fn carries_tag(sections: Seq<Section>, tag: Seq<char>) -> bool {
    exists|k: int|
        0 <= k < sections.len() && representable(#[trigger] sections[k]) && sections[k].tag@
            == tag
}

/// The section `k` is the first that is not skipped and stands under the
/// tag.
pub open spec fn first_carrier(sections: Seq<Section>, k: int, tag: Seq<char>) -> bool {
    &&& 0 <= k < sections.len()
    &&& representable(sections[k])
    &&& sections[k].tag@ == tag
    &&& forall|j: int|
        0 <= j < k ==> !(representable(#[trigger] sections[j]) && sections[j].tag@ == tag)
}

/// The paths of a document whose sections all succeed. Every item is the
/// path that the first section of that path opens; every section that is not
/// skipped has its item; the items stand in the ascending order of their
/// paths, so that no two have the same path; every operation is that of the
/// first section that documents its path and method; and the tags are those
/// of the sections that are not skipped, each once, in the order in which
/// they first occur.
pub open spec fn assembled(sections: Seq<Section>, p: Paths) -> bool {
    &&& forall|i: int| 0 <= i < p.items@.len() ==> opened(sections, #[trigger] p.items@[i])
    &&& forall|s: int, t: int, a: int, b: int|
        0 <= s < t < p.tags@.len() && #[trigger] first_carrier(sections, a, p.tags@[s]@)
            && #[trigger] first_carrier(sections, b, p.tags@[t]@) ==> a < b
    &&& forall|k: int|
        0 <= k < sections.len() && representable(#[trigger] sections[k]) ==> has_path(
            p.items@,
            key_of(sections[k]),
        )
    &&& forall|i: int, j: int|
        0 <= i < j < p.items@.len() ==> text_lt(
            (#[trigger] p.items@[i]).path@,
            (#[trigger] p.items@[j]).path@,
        )
    &&& forall|i: int, m: Method|
        0 <= i < p.items@.len() ==> slot_of(
            sections,
            sections.len() as int,
            p.items@[i].path@,
            m,
            #[trigger] p.items@[i].slot(m),
        )
    &&& views(p.tags@).no_duplicates()
    &&& forall|t: int|
        0 <= t < p.tags@.len() ==> carries_tag(sections, (#[trigger] p.tags@[t])@)
    &&& forall|k: int|
        0 <= k < sections.len() && representable(#[trigger] sections[k]) ==> views(
            p.tags@,
        ).contains(sections[k].tag@)
}

/// What transforming the sections of a document gives: where a section
/// fails, the error of the first that does; and otherwise the paths.
pub open spec fn paths_result(sections: Seq<Section>, r: Result<Paths, TransformError>) -> bool {
    match r {
        Ok(p) => assembled(sections, p) && forall|k: int|
            0 <= k < sections.len() ==> !fails(sections, k),
        Err(e) => exists|k: int|
            #![trigger fails(sections, k)]
            fails(sections, k) && failure(sections, k, e) && forall|j: int|
                0 <= j < k ==> !fails(sections, j),
    }
}

/// Where the headers are the same, text for text, the candidates are the
/// same.
pub proof fn lemma_candidates_by_text(a: Seq<VerbPath>, b: Seq<VerbPath>, n: int)
    requires
        n <= a.len(),
        n <= b.len(),
        forall|k: int|
            0 <= k < n ==> (#[trigger] a[k]).verb_text() == (#[trigger] b[k]).verb_text()
                && a[k].raw_path() == b[k].raw_path(),
    ensures
        all_candidates(a, n) == all_candidates(b, n),
    decreases n,
{
    if n > 0 {
        lemma_candidates_by_text(a, b, n - 1);
        assert(a[n - 1].verb_text() == b[n - 1].verb_text());
    }
}

/// The census of the sections of a document.
pub fn document_census(sections: &Vec<Section>) -> (r: CollisionCensus)
    ensures
        r.recorded() == document_candidates(sections@),
{
    let mut ops: Vec<VerbPath> = Vec::new();
    let mut i: usize = 0;
    while i < sections.len()
        invariant
            i <= sections.len(),
            ops@.len() == i,
            forall|k: int|
                0 <= k < i ==> (#[trigger] ops@[k]).verb_text()
                    == sections@[k].verb_path.verb_text() && ops@[k].raw_path()
                    == sections@[k].verb_path.raw_path(),
        decreases sections.len() - i,
    {
        ops.push(sections[i].verb_path.duplicate());
        i += 1;
    }
    proof {
        let headers = operations_of(sections@);
        assert forall|k: int| 0 <= k < ops@.len() implies (#[trigger] ops@[k]).verb_text() == (
        #[trigger] headers[k]).verb_text() && ops@[k].raw_path() == headers[k].raw_path() by {
            assert(headers[k] == sections@[k].verb_path);
        }
        lemma_candidates_by_text(ops@, headers, ops@.len() as int);
    }
    census(&ops)
}

/// The entries of the index of the items: each path with the position of its
/// item.
pub open spec fn index_of_items(items: Seq<PathItem>) -> Seq<(Seq<char>, usize)> {
    Seq::new(items.len(), |i: int| (items[i].path@, i as usize))
}

/// Gives the path at position `i` the operation `e` for the method `m`.
fn fill_slot(items: &mut Vec<PathItem>, i: usize, m: Method, e: OperationEntry)
    requires
        i < old(items)@.len(),
    ensures
        final(items)@.len() == old(items)@.len(),
        forall|j: int|
            0 <= j < old(items)@.len() && j != i ==> final(items)@[j] == old(items)@[j],
        final(items)@[i as int].path == old(items)@[i as int].path,
        final(items)@[i as int].parameters == old(items)@[i as int].parameters,
        final(items)@[i as int].slot(m) == Some(e),
        forall|other: Method|
            other != m ==> final(items)@[i as int].slot(other) == old(items)@[i as int].slot(
                other,
            ),
{
    match m {
        Method::Delete => {
            items[i].delete = Some(e);
        },
        Method::Get => {
            items[i].get = Some(e);
        },
        Method::Patch => {
            items[i].patch = Some(e);
        },
        Method::Post => {
            items[i].post = Some(e);
        },
        Method::Put => {
            items[i].put = Some(e);
        },
        Method::Options => {
            items[i].options = Some(e);
        },
    }
}

/// Whether one of the tags is `tag`.
fn has_tag(tags: &Vec<String>, tag: &String) -> (b: bool)
    ensures
        b == views(tags@).contains(tag@),
{
    let mut i: usize = 0;
    while i < tags.len()
        invariant
            i <= tags.len(),
            forall|k: int| 0 <= k < i ==> views(tags@)[k] != tag@,
        decreases tags.len() - i,
    {
        assert(views(tags@)[i as int] == tags@[i as int]@);
        if tags[i] == *tag {
            return true;
        }
        i += 1;
    }
    false
}

/// What holds of the paths gathered from the first `n` sections. The ghost
/// sequences name, for every item, the section that opened it, and for every
/// section that was not skipped, its item.
pub open spec fn paths_gathered(
    sections: Seq<Section>,
    n: int,
    items: Seq<PathItem>,
    firsts: Seq<int>,
    owners: Seq<int>,
) -> bool {
    &&& 0 <= n <= sections.len()
    &&& firsts.len() == items.len()
    &&& forall|i: int|
        0 <= i < items.len() ==> (#[trigger] firsts[i]) < n && opened_by(
            sections,
            firsts[i],
            items[i],
        )
    &&& owners.len() == n
    &&& forall|k: int|
        0 <= k < n && representable(sections[k]) ==> 0 <= (#[trigger] owners[k]) < items.len()
            && items[owners[k]].path@ == key_of(sections[k])
    &&& forall|i: int, j: int|
        0 <= i < j < items.len() ==> (#[trigger] items[i]).path@ != (#[trigger] items[j]).path@
    &&& forall|i: int, j: int|
        0 <= i < j < items.len() ==> (#[trigger] firsts[i]) < (#[trigger] firsts[j])
    &&& forall|i: int, m: Method|
        0 <= i < items.len() ==> slot_of(
            sections,
            n,
            items[i].path@,
            m,
            #[trigger] items[i].slot(m),
        )
}

/// What holds of the tags gathered from the first `n` sections. The ghost
/// sequence names, for every tag, a section that carries it.
pub open spec fn tags_gathered(
    sections: Seq<Section>,
    n: int,
    tags: Seq<String>,
    tagged: Seq<int>,
) -> bool {
    &&& 0 <= n <= sections.len()
    &&& views(tags).no_duplicates()
    &&& tagged.len() == tags.len()
    &&& forall|t: int|
        0 <= t < tags.len() ==> (#[trigger] tagged[t]) < n && first_carrier(
            sections,
            tagged[t],
            tags[t]@,
        )
    &&& forall|s: int, t: int|
        0 <= s < t < tags.len() ==> (#[trigger] tagged[s]) < (#[trigger] tagged[t])
    &&& forall|k: int|
        0 <= k < n && representable(#[trigger] sections[k]) ==> views(tags).contains(
            sections[k].tag@,
        )
}

/// A section that is skipped changes nothing.
proof fn lemma_skip(
    sections: Seq<Section>,
    n: int,
    items: Seq<PathItem>,
    firsts: Seq<int>,
    owners: Seq<int>,
    tags: Seq<String>,
    tagged: Seq<int>,
)
    requires
        paths_gathered(sections, n, items, firsts, owners),
        tags_gathered(sections, n, tags, tagged),
        n < sections.len(),
        !representable(sections[n]),
    ensures
        paths_gathered(sections, n + 1, items, firsts, owners.push(-1)),
        tags_gathered(sections, n + 1, tags, tagged),
{
    let after = owners.push(-1);
    assert forall|k: int| 0 <= k < n + 1 && representable(sections[k]) implies 0 <= (
    #[trigger] after[k]) < items.len() && items[after[k]].path@ == key_of(sections[k]) by {
        assert(after[k] == owners[k]);
    }
    assert forall|i: int, m: Method| 0 <= i < items.len() implies slot_of(
        sections,
        n + 1,
        items[i].path@,
        m,
        #[trigger] items[i].slot(m),
    ) by {
        assert(slot_of(sections, n, items[i].path@, m, items[i].slot(m)));
    }
}

/// The tags after the section `n`, whose tag was added where it was new.
proof fn lemma_tags(
    sections: Seq<Section>,
    n: int,
    tags: Seq<String>,
    tagged: Seq<int>,
    after: Seq<String>,
) -> (tagged_after: Seq<int>)
    requires
        tags_gathered(sections, n, tags, tagged),
        n < sections.len(),
        representable(sections[n]),
        if views(tags).contains(sections[n].tag@) {
            after == tags
        } else {
            after.len() == tags.len() + 1 && after.drop_last() == tags && after.last()@
                == sections[n].tag@
        },
    ensures
        tags_gathered(sections, n + 1, after, tagged_after),
{
    if views(tags).contains(sections[n].tag@) {
        tagged
    } else {
        let tagged_after = tagged.push(n);
        assert(views(after) == views(tags).push(sections[n].tag@));
        assert forall|t: int| 0 <= t < after.len() implies (#[trigger] tagged_after[t]) < n + 1
            && first_carrier(sections, tagged_after[t], after[t]@) by {
            if t < tags.len() {
                assert(after[t] == tags[t]);
                assert(tagged_after[t] == tagged[t]);
            } else {
                assert forall|j: int| 0 <= j < n implies !(representable(
                    #[trigger] sections[j],
                ) && sections[j].tag@ == sections[n].tag@) by {
                    if representable(sections[j]) {
                        assert(views(tags).contains(sections[j].tag@));
                    }
                }
            }
        }
        assert forall|s: int, t: int| 0 <= s < t < after.len() implies (
        #[trigger] tagged_after[s]) < (#[trigger] tagged_after[t]) by {
            assert(tagged_after[s] == tagged[s]);
            if t < tags.len() {
                assert(tagged_after[t] == tagged[t]);
            }
        }
        assert forall|k: int|
            0 <= k < n + 1 && representable(#[trigger] sections[k]) implies views(
            after,
        ).contains(sections[k].tag@) by {
            if k < n {
                let w = choose|w: int|
                    0 <= w < views(tags).len() && views(tags)[w] == sections[k].tag@;
                assert(views(after)[w] == sections[k].tag@);
            } else {
                assert(views(after)[tags.len() as int] == sections[k].tag@);
            }
        }
        assert(views(after).no_duplicates()) by {
            assert forall|a: int, b: int|
                0 <= a < views(after).len() && 0 <= b < views(after).len() && a
                    != b implies views(after)[a] != views(after)[b] by {
                if a < tags.len() && b < tags.len() {
                    assert(views(tags)[a] != views(tags)[b]);
                } else if a < tags.len() {
                    assert(views(tags)[a] == views(after)[a]);
                } else {
                    assert(views(tags)[b] == views(after)[b]);
                }
            }
        }
        tagged_after
    }
}

/// The entry that the section `n` leaves for its method.
pub open spec fn entry_of(sections: Seq<Section>, n: int, e: OperationEntry) -> bool {
    &&& e.section == n
    &&& e.operation_id@ == assigned(sections[n].verb_path, document_candidates(sections))
    &&& e.tag@ == sections[n].tag@
}

/// The paths after a section that opens its path.
proof fn lemma_open(
    sections: Seq<Section>,
    n: int,
    items: Seq<PathItem>,
    firsts: Seq<int>,
    owners: Seq<int>,
    item: PathItem,
    m: Method,
)
    requires
        paths_gathered(sections, n, items, firsts, owners),
        n < sections.len(),
        opened_by(sections, n, item),
        method_of(sections[n].verb_path.verb_text()) == Some(m),
        item.slot(m) matches Some(e) && entry_of(sections, n, e),
        forall|other: Method| other != m ==> item.slot(other) is None,
    ensures
        paths_gathered(
            sections,
            n + 1,
            items.push(item),
            firsts.push(n),
            owners.push(items.len() as int),
        ),
{
    let items_after = items.push(item);
    let firsts_after = firsts.push(n);
    let owners_after = owners.push(items.len() as int);
    let path = key_of(sections[n]);
    assert forall|i: int| 0 <= i < items.len() implies (#[trigger] items[i]).path@ != path by {
        assert(opened_by(sections, firsts[i], items[i]));
        assert(writes(sections[firsts[i]], items[i].path@));
    }
    assert forall|i: int| 0 <= i < items_after.len() implies (#[trigger] firsts_after[i]) < n + 1
        && opened_by(sections, firsts_after[i], items_after[i]) by {
        if i < items.len() {
            assert(firsts_after[i] == firsts[i]);
            assert(items_after[i] == items[i]);
        }
    }
    assert forall|k: int| 0 <= k < n + 1 && representable(sections[k]) implies 0 <= (
    #[trigger] owners_after[k]) < items_after.len() && items_after[owners_after[k]].path@
        == key_of(sections[k]) by {
        if k < n {
            assert(owners_after[k] == owners[k]);
            assert(items_after[owners[k]] == items[owners[k]]);
        }
    }
    assert forall|i: int, j: int| 0 <= i < j < items_after.len() implies (
    #[trigger] items_after[i]).path@ != (#[trigger] items_after[j]).path@ by {
        assert(items_after[i] == items[i]);
        if j < items.len() {
            assert(items_after[j] == items[j]);
        }
    }
    assert forall|i: int, j: int| 0 <= i < j < items_after.len() implies (
    #[trigger] firsts_after[i]) < (#[trigger] firsts_after[j]) by {
        assert(firsts_after[i] == firsts[i]);
        if j < items.len() {
            assert(firsts_after[j] == firsts[j]);
        }
    }
    assert forall|i: int, mm: Method| 0 <= i < items_after.len() implies slot_of(
        sections,
        n + 1,
        items_after[i].path@,
        mm,
        #[trigger] items_after[i].slot(mm),
    ) by {
        if i < items.len() {
            assert(items_after[i] == items[i]);
            assert(slot_of(sections, n, items[i].path@, mm, items[i].slot(mm)));
            assert(items[i].path@ != path);
        } else {
            assert(items_after[i] == item);
            assert forall|j: int| 0 <= j < n implies !writes_slot(
                #[trigger] sections[j],
                path,
                mm,
            ) by {
                assert(!writes(sections[j], path));
            }
        }
    }
}

/// The paths after a section whose path was opened before: its operation
/// takes the place for its method where that was free, and changes nothing
/// where it was taken.
proof fn lemma_join(
    sections: Seq<Section>,
    n: int,
    items: Seq<PathItem>,
    firsts: Seq<int>,
    owners: Seq<int>,
    after: Seq<PathItem>,
    i: int,
    m: Method,
)
    requires
        paths_gathered(sections, n, items, firsts, owners),
        n < sections.len(),
        representable(sections[n]),
        method_of(sections[n].verb_path.verb_text()) == Some(m),
        0 <= i < items.len(),
        items[i].path@ == key_of(sections[n]),
        after.len() == items.len(),
        forall|j: int| 0 <= j < items.len() && j != i ==> after[j] == items[j],
        after[i].path == items[i].path,
        after[i].parameters == items[i].parameters,
        forall|other: Method| other != m ==> after[i].slot(other) == items[i].slot(other),
        if items[i].slot(m) is Some {
            after[i].slot(m) == items[i].slot(m)
        } else {
            after[i].slot(m) matches Some(e) && entry_of(sections, n, e)
        },
    ensures
        paths_gathered(sections, n + 1, after, firsts, owners.push(i)),
{
    let owners_after = owners.push(i);
    let path = key_of(sections[n]);
    assert forall|j: int| 0 <= j < after.len() implies (#[trigger] after[j]).path@
        == items[j].path@ && after[j].parameters == items[j].parameters by {
        if j != i {
            assert(after[j] == items[j]);
        }
    }
    assert forall|j: int| 0 <= j < after.len() implies (#[trigger] firsts[j]) < n + 1
        && opened_by(sections, firsts[j], after[j]) by {
        assert(opened_by(sections, firsts[j], items[j]));
        assert(after[j].path@ == items[j].path@);
    }
    assert forall|k: int| 0 <= k < n + 1 && representable(sections[k]) implies 0 <= (
    #[trigger] owners_after[k]) < after.len() && after[owners_after[k]].path@ == key_of(
        sections[k],
    ) by {
        if k < n {
            assert(owners_after[k] == owners[k]);
            assert(after[owners[k]].path@ == items[owners[k]].path@);
        }
    }
    assert forall|a: int, b: int| 0 <= a < b < after.len() implies (#[trigger] after[a]).path@
        != (#[trigger] after[b]).path@ by {
        assert(items[a].path@ != items[b].path@);
        assert(after[a].path@ == items[a].path@);
        assert(after[b].path@ == items[b].path@);
    }
    assert forall|j: int, mm: Method| 0 <= j < after.len() implies slot_of(
        sections,
        n + 1,
        after[j].path@,
        mm,
        #[trigger] after[j].slot(mm),
    ) by {
        assert(slot_of(sections, n, items[j].path@, mm, items[j].slot(mm)));
        assert(after[j].path@ == items[j].path@);
        if j != i {
            assert(after[j] == items[j]);
            assert(items[j].path@ != path) by {
                if j < i {
                    assert(items[j].path@ != items[i].path@);
                } else {
                    assert(items[i].path@ != items[j].path@);
                }
            }
        } else if mm != m {
            assert(after[j].slot(mm) == items[j].slot(mm));
        }
    }
}

/// A path is opened by one section only.
pub proof fn lemma_one_opener(sections: Seq<Section>, a: int, b: int, item: PathItem)
    requires
        opened_by(sections, a, item),
        opened_by(sections, b, item),
    ensures
        a == b,
{
    if a < b {
        assert(writes(sections[a], key_of(sections[b])));
    } else if b < a {
        assert(writes(sections[b], key_of(sections[a])));
    }
}

/// What was gathered from all sections, put into the order of the sorted
/// index, is the paths of the document.
proof fn lemma_gathered_all(
    sections: Seq<Section>,
    items: Seq<PathItem>,
    sorted: Seq<(Seq<char>, usize)>,
    p: Paths,
    firsts: Seq<int>,
    owners: Seq<int>,
    tagged: Seq<int>,
)
    requires
        paths_gathered(sections, sections.len() as int, items, firsts, owners),
        tags_gathered(sections, sections.len() as int, p.tags@, tagged),
        items.len() <= usize::MAX,
        sorted.to_multiset() == index_of_items(items).to_multiset(),
        forall|a: int, b: int|
            0 <= a < b < sorted.len() ==> text_le(
                (#[trigger] sorted[a]).0,
                (#[trigger] sorted[b]).0,
            ),
        p.items@.len() == sorted.len(),
        forall|t: int|
            0 <= t < sorted.len() ==> (#[trigger] sorted[t]).1 < items.len() && p.items@[t]
                == items[sorted[t].1 as int],
    ensures
        assembled(sections, p),
{
    lemma_rearranged(index_of_items(items), sorted);
    assert forall|i: int| 0 <= i < p.items@.len() implies opened(
        sections,
        #[trigger] p.items@[i],
    ) by {
        let at = sorted[i].1 as int;
        assert(opened_by(sections, firsts[at], items[at]));
    }
    assert forall|k: int|
        0 <= k < sections.len() && representable(#[trigger] sections[k]) implies has_path(
        p.items@,
        key_of(sections[k]),
    ) by {
        let at = owners[k];
        assert(items[at].path@ == key_of(sections[k]));
        assert(has_value(sorted, at));
        let t = choose|t: int| 0 <= t < sorted.len() && (#[trigger] sorted[t]).1 == at;
        assert(p.items@[t].path@ == key_of(sections[k]));
    }
    assert forall|i: int, j: int| 0 <= i < j < p.items@.len() implies text_lt(
        (#[trigger] p.items@[i]).path@,
        (#[trigger] p.items@[j]).path@,
    ) by {
        let a = sorted[i].1 as int;
        let b = sorted[j].1 as int;
        assert(sorted[i] == index_of_items(items)[a]);
        assert(sorted[j] == index_of_items(items)[b]);
        assert(text_le(sorted[i].0, sorted[j].0));
        assert(a != b);
        if a < b {
            assert(items[a].path@ != items[b].path@);
        } else {
            assert(items[b].path@ != items[a].path@);
        }
    }
    assert forall|i: int, m: Method| 0 <= i < p.items@.len() implies slot_of(
        sections,
        sections.len() as int,
        p.items@[i].path@,
        m,
        #[trigger] p.items@[i].slot(m),
    ) by {
        let at = sorted[i].1 as int;
        assert(slot_of(sections, sections.len() as int, items[at].path@, m, items[at].slot(m)));
    }
    assert forall|t: int| 0 <= t < p.tags@.len() implies carries_tag(
        sections,
        (#[trigger] p.tags@[t])@,
    ) by {
        assert(first_carrier(sections, tagged[t], p.tags@[t]@));
        assert(representable(sections[tagged[t]]));
    }
    assert forall|s: int, t: int, a: int, b: int|
        0 <= s < t < p.tags@.len() && #[trigger] first_carrier(sections, a, p.tags@[s]@)
            && #[trigger] first_carrier(sections, b, p.tags@[t]@) implies a < b by {
        assert(first_carrier(sections, tagged[s], p.tags@[s]@));
        assert(first_carrier(sections, tagged[t], p.tags@[t]@));
        assert(a == tagged[s]);
        assert(b == tagged[t]);
    }
}

/// The items in the order that `order` gives: the item at each position is
/// the one that stood where `order` says.
fn arrange<T>(items: Vec<T>, order: &Vec<usize>) -> (r: Vec<T>)
    requires
        order@.len() == items@.len(),
        forall|t: int| 0 <= t < order@.len() ==> (#[trigger] order@[t]) < items@.len(),
        forall|s: int, t: int|
            0 <= s < t < order@.len() ==> (#[trigger] order@[s]) != (#[trigger] order@[t]),
    ensures
        r@.len() == items@.len(),
        forall|t: int| 0 <= t < r@.len() ==> (#[trigger] r@[t]) == items@[order@[t] as int],
{
    let ghost all = items@;
    let mut rest = items;
    let mut stack: Vec<Option<T>> = Vec::new();
    while rest.len() > 0
        invariant
            rest@.len() <= all.len(),
            rest@ == all.take(rest@.len() as int),
            stack@.len() == all.len() - rest@.len(),
            forall|k: int|
                0 <= k < stack@.len() ==> (#[trigger] stack@[k]) == Some(all[all.len() - 1 - k]),
        decreases rest.len(),
    {
        let ghost n = rest@.len() - 1;
        let item = rest.pop().unwrap();
        assert(rest@ == all.take(n));
        stack.push(Some(item));
    }
    let mut slots: Vec<Option<T>> = Vec::new();
    while stack.len() > 0
        invariant
            stack@.len() + slots@.len() == all.len(),
            forall|k: int|
                0 <= k < stack@.len() ==> (#[trigger] stack@[k]) == Some(all[all.len() - 1 - k]),
            forall|k: int| 0 <= k < slots@.len() ==> (#[trigger] slots@[k]) == Some(all[k]),
        decreases stack.len(),
    {
        let slot = stack.pop().unwrap();
        slots.push(slot);
    }
    let mut out: Vec<T> = Vec::new();
    let mut t: usize = 0;
    while t < order.len()
        invariant
            t <= order.len(),
            order@.len() == all.len(),
            slots@.len() == all.len(),
            out@.len() == t,
            forall|u: int| 0 <= u < order@.len() ==> (#[trigger] order@[u]) < all.len(),
            forall|u: int, v: int|
                0 <= u < v < order@.len() ==> (#[trigger] order@[u]) != (#[trigger] order@[v]),
            forall|u: int| 0 <= u < t ==> (#[trigger] out@[u]) == all[order@[u] as int],
            forall|k: int|
                0 <= k < slots@.len() ==> (#[trigger] slots@[k]) == if exists|u: int|
                    0 <= u < t && order@[u] == k {
                    None
                } else {
                    Some(all[k])
                },
        decreases order.len() - t,
    {
        let at = order[t];
        let ghost before = slots@;
        assert(before[at as int] == Some(all[at as int])) by {
            if exists|u: int| 0 <= u < t && order@[u] == at {
                let u = choose|u: int| 0 <= u < t && order@[u] == at;
                assert(order@[u] != order@[t as int]);
            }
        }
        let taken = slots[at].take();
        match taken {
            Some(item) => {
                out.push(item);
            },
            None => {
                assert(false);
            },
        }
        proof {
            assert forall|k: int| 0 <= k < slots@.len() implies (#[trigger] slots@[k])
                == if exists|u: int| 0 <= u < t + 1 && order@[u] == k {
                None
            } else {
                Some(all[k])
            } by {
                if k == at {
                    assert(order@[t as int] == k);
                } else {
                    assert(slots@[k] == before[k]);
                    if exists|u: int| 0 <= u < t + 1 && order@[u] == k {
                        let u = choose|u: int| 0 <= u < t + 1 && order@[u] == k;
                        assert(u < t);
                    }
                }
            }
        }
        t += 1;
    }
    out
}

/// The paths of a document, from its sections in the order in which they
/// are to be read. A section with the wildcard path is skipped. The first
/// section of a path decides the parameters of the path, and the first
/// section of a path and a method decides the operation: later ones change
/// nothing. Every operation gets the identifier that it is assigned under
/// the census of all sections. The paths stand in ascending order. The first
/// section that fails decides the error.
pub fn paths(sections: &Vec<Section>) -> (r: Result<Paths, TransformError>)
    ensures
        paths_result(sections@, r),
{
    let census = document_census(sections);
    let mut index = index_new();
    let mut items: Vec<PathItem> = Vec::new();
    let mut tags: Vec<String> = Vec::new();
    let ghost mut firsts: Seq<int> = Seq::empty();
    let ghost mut owners: Seq<int> = Seq::empty();
    let ghost mut tagged: Seq<int> = Seq::empty();
    let mut n: usize = 0;
    assert(index_map_entries(index) == index_of_items(items@));
    assert(views(tags@) == Seq::<Seq<char>>::empty());
    while n < sections.len()
        invariant
            n <= sections.len(),
            census.recorded() == document_candidates(sections@),
            index_map_entries(index) == index_of_items(items@),
            paths_gathered(sections@, n as int, items@, firsts, owners),
            tags_gathered(sections@, n as int, tags@, tagged),
            forall|k: int| 0 <= k < n ==> !fails(sections@, k),
        decreases sections.len() - n,
    {
        let section = &sections[n];
        if section.verb_path.unrepresentable() {
            proof {
                lemma_skip(sections@, n as int, items@, firsts, owners, tags@, tagged);
                owners = owners.push(-1);
            }
            n += 1;
            continue ;
        }
        let path = section.verb_path.path();
        let found = index_get(&index, path.as_str());
        let item_count = items.len();
        proof {
            match found {
                Some(i) => {
                    let at = choose|at: int|
                        0 <= at < index_of_items(items@).len() && index_of_items(items@)[at] == (
                            path@,
                            i,
                        );
                    assert(at < item_count);
                    assert(at == i);
                    assert(opened_by(sections@, firsts[at], items@[at]));
                    assert(writes(sections@[firsts[at]], key_of(sections@[n as int])));
                    assert(!opens_path(sections@, n as int));
                },
                None => {
                    assert forall|j: int| 0 <= j < n implies !writes(
                        #[trigger] sections@[j],
                        key_of(sections@[n as int]),
                    ) by {
                        if writes(sections@[j], key_of(sections@[n as int])) {
                            let o = owners[j];
                            assert(index_of_items(items@)[o].0 == path@);
                        }
                    }
                    assert(opens_path(sections@, n as int));
                },
            }
        }
        let parameters: Option<Vec<ParameterSpec>> = match found {
            Some(_) => None,
            None => match parse_path(&section.verb_path, &section.rows) {
                Ok(parameters) => parameters,
                Err(e) => {
                    assert(fails(sections@, n as int));
                    assert(failure(sections@, n as int, e));
                    return Err(e);
                },
            },
        };
        let method = match parse_method(section.verb_path.verb()) {
            Ok(method) => method,
            Err(e) => {
                assert(fails(sections@, n as int));
                assert(failure(sections@, n as int, e));
                return Err(e);
            },
        };
        assert(!fails(sections@, n as int));
        let candidates = generate_operation_ids(section.verb_path.verb(), path.as_str());
        let operation_id = select_operation_id(&candidates, &census);
        let entry = OperationEntry { section: n, operation_id, tag: section.tag.clone() };
        assert(entry_of(sections@, n as int, entry));
        let ghost tags_before = tags@;
        if !has_tag(&tags, &section.tag) {
            tags.push(section.tag.clone());
            assert(tags@.drop_last() == tags_before);
        }
        proof {
            tagged = lemma_tags(sections@, n as int, tags_before, tagged, tags@);
        }
        let ghost items_before = items@;
        match (found, parameters) {
            (Some(i), _) => {
                if !items[i].has(method) {
                    fill_slot(&mut items, i, method, entry);
                }
                proof {
                    assert(index_of_items(items@) == index_of_items(items_before));
                    lemma_join(
                        sections@,
                        n as int,
                        items_before,
                        firsts,
                        owners,
                        items@,
                        i as int,
                        method,
                    );
                    owners = owners.push(i as int);
                }
            },
            (None, Some(parameters)) => {
                let mut item = PathItem {
                    path: path.clone(),
                    parameters,
                    delete: None,
                    get: None,
                    patch: None,
                    post: None,
                    put: None,
                    options: None,
                };
                match method {
                    Method::Delete => {
                        item.delete = Some(entry);
                    },
                    Method::Get => {
                        item.get = Some(entry);
                    },
                    Method::Patch => {
                        item.patch = Some(entry);
                    },
                    Method::Post => {
                        item.post = Some(entry);
                    },
                    Method::Put => {
                        item.put = Some(entry);
                    },
                    Method::Options => {
                        item.options = Some(entry);
                    },
                }
                let at = items.len();
                proof {
                    lemma_open(sections@, n as int, items_before, firsts, owners, item, method);
                    firsts = firsts.push(n as int);
                    owners = owners.push(at as int);
                }
                items.push(item);
                index_insert(&mut index, path, at);
                assert(index_of_items(items@) == index_of_items(items_before).push((path@, at)));
            },
            (None, None) => {
                assert(false);
            },
        }
        n += 1;
    }
    let ghost gathered_items = items@;
    let gathered_count = items.len();
    assert(gathered_items.len() == gathered_count);
    index_sort_keys(&mut index);
    let order = index_values(&index);
    let ghost sorted = index_map_entries(index);
    proof {
        lemma_rearranged(index_of_items(gathered_items), sorted);
        assert forall|t: int| 0 <= t < order@.len() implies (#[trigger] order@[t])
            < gathered_items.len() by {
            assert(order@[t] == sorted[t].1);
        }
        assert forall|s: int, t: int| 0 <= s < t < order@.len() implies (#[trigger] order@[s])
            != (#[trigger] order@[t]) by {
            assert(order@[s] == sorted[s].1);
            assert(order@[t] == sorted[t].1);
        }
    }
    let p = Paths { items: arrange(items, &order), tags };
    proof {
        assert forall|t: int| 0 <= t < sorted.len() implies (#[trigger] sorted[t]).1
            < gathered_items.len() && p.items@[t] == gathered_items[sorted[t].1 as int] by {
            assert(order@[t] == sorted[t].1);
        }
        lemma_gathered_all(sections@, gathered_items, sorted, p, firsts, owners, tagged);
    }
    Ok(p)
}

/// The wildcard path is never the path of an item.
pub proof fn lemma_wildcard_never_a_key(sections: Seq<Section>, p: Paths)
    requires
        assembled(sections, p),
    ensures
        forall|i: int| 0 <= i < p.items@.len() ==> (#[trigger] p.items@[i]).path@ != wildcard_path(),
{
    assert forall|i: int| 0 <= i < p.items@.len() implies (#[trigger] p.items@[i]).path@
        != wildcard_path() by {
        assert(opened(sections, p.items@[i]));
        let k = choose|k: int| #[trigger] opened_by(sections, k, p.items@[i]);
        lemma_canonical_not_wildcard(sections[k].verb_path.raw_path());
    }
}

/// An operation with the wildcard path is skipped: it has no parameters to
/// resolve, and the census counts no candidate for it.
pub proof fn lemma_wildcard_is_skipped(
    op: VerbPath,
    rows: Seq<ParameterRow>,
    r: Result<Option<Vec<ParameterSpec>>, TransformError>,
)
    requires
        op.raw_path() == wildcard_path(),
        resolution(op, rows, r),
    ensures
        r matches Ok(None),
        operation_candidates(op).len() == 0,
{
}

/// The two passes are deterministic: the census of a set of operations is
/// a function of the operations, and the identifier of an operation is a
/// function of the operation and the census. Two runs over the same
/// operations assign the same identifier.
pub proof fn lemma_two_passes_deterministic(
    operations: Seq<VerbPath>,
    first: CollisionCensus,
    second: CollisionCensus,
    op: VerbPath,
    first_id: Seq<char>,
    second_id: Seq<char>,
)
    requires
        first.recorded() == all_candidates(operations, operations.len() as int),
        second.recorded() == all_candidates(operations, operations.len() as int),
        first_id == assigned(op, first.recorded()),
        second_id == assigned(op, second.recorded()),
    ensures
        first_id == second_id,
        forall|id: Seq<char>| first.count_of(id) == second.count_of(id),
{
}

/// The items of the groups in the order in which a document is read: group
/// after group, and within each group from its last item to its first.
pub open spec fn reading_order_of<T>(groups: Seq<Vec<T>>) -> Seq<T>
    decreases groups.len(),
{
    if groups.len() == 0 {
        Seq::empty()
    } else {
        reading_order_of(groups.drop_last()) + groups.last()@.reverse()
    }
}

/// Puts the items of the groups in the order in which a document is read:
/// group after group, and within each group from its last item to its first,
/// so that of two entries for one place the later one comes first.
pub fn reading_order<T>(groups: Vec<Vec<T>>) -> (r: Vec<T>)
    ensures
        r@ == reading_order_of(groups@),
{
    let mut groups = groups;
    let ghost all = groups@;
    let mut stack: Vec<Vec<T>> = Vec::new();
    assert(groups@ == all.take(all.len() as int));
    while groups.len() > 0
        invariant
            groups@.len() <= all.len(),
            groups@ == all.take(groups@.len() as int),
            stack@ == all.skip(groups@.len() as int).reverse(),
        decreases groups.len(),
    {
        let ghost n = groups@.len() - 1;
        let group = groups.pop().unwrap();
        assert(groups@ == all.take(n));
        stack.push(group);
        assert(stack@ == all.skip(n).reverse());
    }
    assert(all.skip(0) == all);
    let mut out: Vec<T> = Vec::new();
    assert(all.take(0) == Seq::<Vec<T>>::empty());
    assert(stack@ == all.reverse().take(stack@.len() as int));
    while stack.len() > 0
        invariant
            stack@.len() <= all.len(),
            stack@ == all.reverse().take(stack@.len() as int),
            out@ == reading_order_of(all.take(all.len() - stack@.len())),
        decreases stack.len(),
    {
        let ghost k = all.len() - stack@.len();
        let ghost base = out@;
        let mut group = stack.pop().unwrap();
        assert(group == all[k]);
        assert(stack@ == all.reverse().take(stack@.len() as int));
        let ghost whole = group@;
        assert(group@ == whole.take(whole.len() as int));
        assert(whole.skip(whole.len() as int).reverse() == Seq::<T>::empty());
        while group.len() > 0
            invariant
                group@.len() <= whole.len(),
                group@ == whole.take(group@.len() as int),
                out@ == base + whole.skip(group@.len() as int).reverse(),
            decreases group.len(),
        {
            let ghost j = group@.len() - 1;
            let item = group.pop().unwrap();
            assert(group@ == whole.take(j));
            out.push(item);
            assert(whole.skip(j).reverse() == whole.skip(j + 1).reverse().push(whole[j]));
        }
        proof {
            assert(whole.skip(0) == whole);
            assert(all.take(k + 1).drop_last() == all.take(k));
            assert(all.take(k + 1).last() == all[k]);
        }
    }
    assert(all.take(all.len() as int) == all);
    out
}

} // verus!
