//! The parameters of an operation: what the rows of its parameter table
//! declare, and the path parameters in the order of the placeholders of its
//! path.

use crate::components::schemas::{
    parse_type_chars, spec_parse_type, PrimitiveKind, TypeModel, TypeNode,
};
use crate::info::TransformError;
use crate::paths::request_body::{body_model, request_body_of, RequestBody};
use crate::paths::verb_path::{canonical_path, wildcard_path, VerbPath};
use crate::text::{
    count, decimal, from_chars, is_text, push_decimal, split, split_on, to_chars, trim, trimmed,
    views,
};
use vstd::prelude::*;
use vstd::string::StringExecFns;

verus! {

/// One row of the parameter table of an operation.
#[derive(Debug, PartialEq, Eq)]
pub struct ParameterRow {
    /// Where the parameter travels: `Path`, `Query` or `Body`.
    pub location: String,
    /// The name cell; the name is its first line.
    pub name: String,
    pub required: bool,
    pub description: Option<String>,
    /// The type expression of the schema cell.
    pub raw_schema: String,
}

/// Where a parameter of an operation travels.
#[derive(Clone, Copy, Debug, PartialEq, Eq, Structural)]
pub enum ParameterLocation {
    Path,
    Query,
}

/// A parameter of an operation.
#[derive(Debug, PartialEq, Eq)]
pub struct ParameterSpec {
    pub location: ParameterLocation,
    pub name: String,
    pub description: Option<String>,
    pub required: bool,
    pub schema: TypeNode,
}

/// The mathematical value of a `ParameterSpec`.
pub struct ParameterModel {
    pub location: ParameterLocation,
    pub name: Seq<char>,
    pub description: Option<Seq<char>>,
    pub required: bool,
    pub schema: TypeModel,
}

impl View for ParameterSpec {
    type V = ParameterModel;

    open spec fn view(&self) -> ParameterModel {
        ParameterModel {
            location: self.location,
            name: self.name@,
            description: match self.description {
                Some(d) => Some(d@),
                None => None,
            },
            required: self.required,
            schema: self.schema@,
        }
    }
}

/// The values of the parameters of a vector, in order.
pub open spec fn models(v: Seq<ParameterSpec>) -> Seq<ParameterModel> {
    v.map_values(|p: ParameterSpec| p@)
}

/// The first line of a text.
pub open spec fn first_line(s: Seq<char>) -> Seq<char> {
    split(s, seq!['\n'])[0]
}

/// The type of a parameter: that of its type expression, and a string where
/// the row declares none.
pub open spec fn declared_schema(raw: Seq<char>) -> TypeModel {
    if trim(raw).len() == 0 {
        TypeModel::Primitive { kind: PrimitiveKind::String }
    } else {
        spec_parse_type(raw)
    }
}

/// The description of a parameter: that of its row, and none where the cell
/// is empty or missing.
pub open spec fn shown_description(d: Option<String>) -> Option<Seq<char>> {
    match d {
        Some(t) => if t@.len() == 0 {
            None
        } else {
            Some(t@)
        },
        None => None,
    }
}

/// The parameter that a row declares, for a given place and obligation.
pub open spec fn parameter_of(
    row: ParameterRow,
    location: ParameterLocation,
    required: bool,
) -> ParameterModel {
    ParameterModel {
        location,
        name: first_line(row.name@),
        description: shown_description(row.description),
        required,
        schema: declared_schema(row.raw_schema@),
    }
}

/// What a row contributes to the path parameters: a required parameter where
/// the row is a path row.
pub open spec fn path_parameter_of(row: ParameterRow) -> Option<ParameterModel> {
    if row.location@ == "Path"@ {
        Some(parameter_of(row, ParameterLocation::Path, true))
    } else {
        None
    }
}

/// What a row contributes to the query parameters: an optional parameter
/// where the row is a query row.
pub open spec fn query_parameter_of(row: ParameterRow) -> Option<ParameterModel> {
    if row.location@ == "Query"@ {
        Some(parameter_of(row, ParameterLocation::Query, false))
    } else {
        None
    }
}

/// What a row contributes to the path parameters where, with `drop_id`,
/// those named `id` are left out.
pub open spec fn kept_path_parameter_of(row: ParameterRow, drop_id: bool) -> Option<
    ParameterModel,
> {
    match path_parameter_of(row) {
        Some(p) => if drop_id && p.name == "id"@ {
            None
        } else {
            Some(p)
        },
        None => None,
    }
}

/// The path parameters that the rows declare, in the order of the rows;
/// with `drop_id`, without those named `id`.
pub open spec fn kept_path_parameters(rows: Seq<ParameterRow>, drop_id: bool) -> Seq<
    ParameterModel,
> {
    rows.filter_map(|row: ParameterRow| kept_path_parameter_of(row, drop_id))
}

/// The path parameters that the rows declare, in the order of the rows.
pub open spec fn path_parameters(rows: Seq<ParameterRow>) -> Seq<ParameterModel> {
    kept_path_parameters(rows, false)
}

/// The query parameters that the rows declare, in the order of the rows.
pub open spec fn query_parameters(rows: Seq<ParameterRow>) -> Seq<ParameterModel> {
    rows.filter_map(|row: ParameterRow| query_parameter_of(row))
}

/// The parameter that a row declares.
fn parameter(row: &ParameterRow, location: ParameterLocation, required: bool) -> (r: ParameterSpec)
    ensures
        r@ == parameter_of(*row, location, required),
{
    let name_chars = to_chars(row.name.as_str());
    let newline: [char; 1] = ['\n'];
    assert(newline@ == seq!['\n']);
    let lines = split_on(name_chars.as_slice(), newline.as_slice());
    let name = from_chars(lines[0].as_slice());
    let description = match &row.description {
        Some(d) => if d.as_str().is_empty() {
            None
        } else {
            Some(d.clone())
        },
        None => None,
    };
    let schema_chars = to_chars(row.raw_schema.as_str());
    let schema = if trimmed(schema_chars.as_slice()).len() == 0 {
        TypeNode::Primitive { kind: PrimitiveKind::String }
    } else {
        parse_type_chars(schema_chars.as_slice())
    };
    ParameterSpec { location, name, description, required, schema }
}

/// The path parameters of the rows; with `drop_id`, without those named
/// `id`.
fn kept_path_params(rows: &Vec<ParameterRow>, drop_id: bool) -> (r: Vec<ParameterSpec>)
    ensures
        models(r@) == kept_path_parameters(rows@, drop_id),
{
    let mut out: Vec<ParameterSpec> = Vec::new();
    let mut i: usize = 0;
    assert(rows@.take(0) == Seq::<ParameterRow>::empty());
    while i < rows.len()
        invariant
            i <= rows.len(),
            models(out@) == kept_path_parameters(rows@.take(i as int), drop_id),
        decreases rows.len() - i,
    {
        let row = &rows[i];
        let location = to_chars(row.location.as_str());
        proof {
            assert(rows@.take(i + 1).drop_last() == rows@.take(i as int));
        }
        if is_text(location.as_slice(), "Path") {
            let ghost before = models(out@);
            let p = parameter(row, ParameterLocation::Path, true);
            let name = to_chars(p.name.as_str());
            if !(drop_id && is_text(name.as_slice(), "id")) {
                out.push(p);
                assert(models(out@) == before + seq![p@]);
            }
        }
        i += 1;
    }
    assert(rows@.take(rows.len() as int) == rows@);
    out
}

/// The path parameters that the rows of a parameter table declare: one for
/// each row whose place is `Path`, in the order of the rows. Each is
/// required; its name is the first line of the name cell; it has the type of
/// its type expression, and is a string where the row declares none; it has
/// no description where the cell is empty.
pub fn parse_path_params(rows: &Vec<ParameterRow>) -> (r: Vec<ParameterSpec>)
    ensures
        models(r@) == path_parameters(rows@),
{
    kept_path_params(rows, false)
}

/// The query parameters that the rows of a parameter table declare: one for
/// each row whose place is `Query`, in the order of the rows, none of them
/// required, and otherwise as the path parameters are.
pub fn parse_query_params(rows: &Vec<ParameterRow>) -> (r: Vec<ParameterSpec>)
    ensures
        models(r@) == query_parameters(rows@),
{
    let mut out: Vec<ParameterSpec> = Vec::new();
    let mut i: usize = 0;
    assert(rows@.take(0) == Seq::<ParameterRow>::empty());
    while i < rows.len()
        invariant
            i <= rows.len(),
            models(out@) == query_parameters(rows@.take(i as int)),
        decreases rows.len() - i,
    {
        let row = &rows[i];
        let location = to_chars(row.location.as_str());
        proof {
            assert(rows@.take(i + 1).drop_last() == rows@.take(i as int));
        }
        if is_text(location.as_slice(), "Query") {
            let ghost before = models(out@);
            let p = parameter(row, ParameterLocation::Query, false);
            out.push(p);
            assert(models(out@) == before + seq![p@]);
        }
        i += 1;
    }
    assert(rows@.take(rows.len() as int) == rows@);
    out
}

/// The request body that the rows of a parameter table declare for an
/// operation of which nothing is known but that: its content is JSON.
pub fn parse_body_param(rows: &Vec<ParameterRow>) -> (r: Option<RequestBody>)
    ensures
        body_model(r) == request_body_of(rows@, Seq::empty()),
{
    let consumes: Vec<String> = Vec::new();
    assert(views(consumes@) == Seq::<Seq<char>>::empty());
    crate::paths::request_body::parse(rows, &consumes)
}

/// The parameters with those at the positions `i` and `j` exchanged.
pub open spec fn swapped(params: Seq<ParameterModel>, i: int, j: int) -> Seq<ParameterModel> {
    params.update(i, params[j]).update(j, params[i])
}

/// The first position, from `from` on, of a parameter named `name`; the
/// number of parameters where there is none.
pub open spec fn position_from(params: Seq<ParameterModel>, name: Seq<char>, from: int) -> int
    decreases params.len() - from,
{
    if from >= params.len() {
        params.len() as int
    } else if from >= 0 && params[from].name == name {
        from
    } else {
        position_from(params, name, from + 1)
    }
}

/// The parameters brought into the order of the placeholders, from the
/// placeholder `i` on: the parameter that the placeholder names, looked for
/// from position `i` on, takes position `i` in exchange for the one that
/// stands there; a placeholder that names no parameter changes nothing. Only
/// as many placeholders count as there are parameters.
pub open spec fn reordered(
    params: Seq<ParameterModel>,
    names: Seq<Seq<char>>,
    i: int,
) -> Seq<ParameterModel>
    decreases names.len() - i,
{
    if i < 0 || i >= names.len() || i >= params.len() {
        params
    } else {
        let j = position_from(params, names[i], i);
        if j < params.len() {
            reordered(swapped(params, i, j), names, i + 1)
        } else {
            reordered(params, names, i + 1)
        }
    }
}

/// What `position_from` finds: a parameter of that name, before which,
/// from `from` on, none has it; or the end, and then none has it from `from`
/// on.
pub proof fn lemma_position_from(params: Seq<ParameterModel>, name: Seq<char>, from: int)
    requires
        0 <= from <= params.len(),
    ensures
        from <= position_from(params, name, from) <= params.len(),
        position_from(params, name, from) < params.len() ==> params[position_from(
            params,
            name,
            from,
        )].name == name,
        forall|j: int|
            from <= j < position_from(params, name, from) ==> (#[trigger] params[j]).name != name,
    decreases params.len() - from,
{
    if from < params.len() && params[from].name != name {
        lemma_position_from(params, name, from + 1);
    }
}

/// Exchanging two parameters leaves the parameters the same, each as often
/// as before.
pub proof fn lemma_swapped_same_parameters(params: Seq<ParameterModel>, i: int, j: int)
    requires
        0 <= i < params.len(),
        0 <= j < params.len(),
    ensures
        swapped(params, i, j).to_multiset() == params.to_multiset(),
{
    broadcast use {
        vstd::multiset::group_multiset_properties,
        vstd::multiset::group_multiset_axioms,
        vstd::seq_lib::to_multiset_contains,
    };

    if i == j {
        assert(swapped(params, i, j) == params);
    } else {
        let half = params.update(i, params[j]);
        vstd::seq_lib::to_multiset_update(params, i, params[j]);
        vstd::seq_lib::to_multiset_update(half, j, params[i]);
        assert(half[j] == params[j]);
        let m = params.to_multiset();
        assert(m.contains(params[i]));
        assert(m.contains(params[j]));
        assert(m.insert(params[j]).remove(params[i]).insert(params[i]).remove(params[j]) =~= m);
    }
}

/// Ordering loses no parameter and invents none: the parameters are the
/// same afterwards, each as often as before.
pub proof fn lemma_reordered_same_parameters(
    params: Seq<ParameterModel>,
    names: Seq<Seq<char>>,
    i: int,
)
    requires
        0 <= i,
    ensures
        reordered(params, names, i).to_multiset() == params.to_multiset(),
        reordered(params, names, i).len() == params.len(),
    decreases names.len() - i,
{
    if i < names.len() && i < params.len() {
        lemma_position_from(params, names[i], i);
        let j = position_from(params, names[i], i);
        if j < params.len() {
            let next = swapped(params, i, j);
            lemma_reordered_same_parameters(next, names, i + 1);
            lemma_swapped_same_parameters(params, i, j);
        } else {
            lemma_reordered_same_parameters(params, names, i + 1);
        }
    }
}

/// Every placeholder names one of the parameters.
pub open spec fn all_named(params: Seq<ParameterModel>, names: Seq<Seq<char>>) -> bool {
    forall|m: int|
        0 <= m < names.len() ==> exists|j: int|
            0 <= j < params.len() && (#[trigger] params[j]).name == #[trigger] names[m]
}

/// Where the placeholders of a path have different names and there is one
/// parameter for each, whatever the order of the rows, the parameters come
/// out in the order of the placeholders.
pub proof fn lemma_reordered_follows_placeholders(
    params: Seq<ParameterModel>,
    names: Seq<Seq<char>>,
)
    requires
        names.len() == params.len(),
        names.no_duplicates(),
        all_named(params, names),
    ensures
        reordered(params, names, 0).len() == names.len(),
        forall|k: int|
            0 <= k < names.len() ==> (#[trigger] reordered(params, names, 0)[k]).name == names[k],
{
    lemma_follows_from(params, names, 0);
}

/// The step of `lemma_reordered_follows_placeholders`: the first `i`
/// parameters are in place already.
proof fn lemma_follows_from(params: Seq<ParameterModel>, names: Seq<Seq<char>>, i: int)
    requires
        0 <= i <= names.len(),
        names.len() == params.len(),
        names.no_duplicates(),
        all_named(params, names),
        forall|k: int| 0 <= k < i ==> (#[trigger] params[k]).name == names[k],
    ensures
        reordered(params, names, i).len() == names.len(),
        forall|k: int|
            0 <= k < names.len() ==> (#[trigger] reordered(params, names, i)[k]).name == names[k],
    decreases names.len() - i,
{
    if i < names.len() {
        lemma_position_from(params, names[i], i);
        let j = position_from(params, names[i], i);
        let w = choose|w: int| 0 <= w < params.len() && (#[trigger] params[w]).name == names[i];
        if w < i {
            assert(params[w].name == names[w]);
            assert(names[w] != names[i]);
        }
        assert(j <= w);
        let next = swapped(params, i, j);
        assert forall|m: int| 0 <= m < names.len() implies exists|v: int|
            0 <= v < next.len() && (#[trigger] next[v]).name == #[trigger] names[m] by {
            let v = choose|v: int| 0 <= v < params.len() && (#[trigger] params[v]).name == names[m];
            if v == i {
                assert(next[j].name == names[m]);
            } else if v == j {
                assert(next[i].name == names[m]);
            } else {
                assert(next[v].name == names[m]);
            }
        }
        assert forall|k: int| 0 <= k < i + 1 implies (#[trigger] next[k]).name == names[k] by {
            if k < i {
                assert(next[k] == params[k]);
            }
        }
        lemma_follows_from(next, names, i + 1);
    }
}

/// Exchanges the parameters at the positions `i` and `j`.
fn swap(params: &mut Vec<ParameterSpec>, i: usize, j: usize)
    requires
        i <= j < old(params)@.len(),
    ensures
        models(final(params)@) == swapped(models(old(params)@), i as int, j as int),
        final(params)@.len() == old(params)@.len(),
{
    if i < j {
        let b = params.remove(j);
        let a = params.remove(i);
        params.insert(i, b);
        params.insert(j, a);
        assert(params@ == old(params)@.update(i as int, old(params)@[j as int]).update(
            j as int,
            old(params)@[i as int],
        ));
    }
    assert(models(params@) == swapped(models(old(params)@), i as int, j as int));
}

/// The first position, from `from` on, of a parameter named `name`.
fn position(params: &Vec<ParameterSpec>, name: &String, from: usize) -> (j: usize)
    requires
        from <= params@.len(),
    ensures
        j == position_from(models(params@), name@, from as int),
        from <= j <= params@.len(),
{
    let mut j: usize = from;
    while j < params.len()
        invariant
            from <= j <= params.len(),
            position_from(models(params@), name@, from as int) == position_from(
                models(params@),
                name@,
                j as int,
            ),
        decreases params.len() - j,
    {
        assert(models(params@)[j as int] == params@[j as int]@);
        if params[j].name == *name {
            return j;
        }
        j += 1;
    }
    j
}

/// Brings the parameters into the order in which the placeholders of a path
/// name them.
pub fn reorder(params: Vec<ParameterSpec>, names: &Vec<String>) -> (r: Vec<ParameterSpec>)
    ensures
        models(r@) == reordered(models(params@), views(names@), 0),
{
    let mut out = params;
    let mut i: usize = 0;
    while i < names.len() && i < out.len()
        invariant
            out@.len() == params@.len(),
            reordered(models(params@), views(names@), 0) == reordered(
                models(out@),
                views(names@),
                i as int,
            ),
        decreases names.len() - i,
    {
        assert(views(names@)[i as int] == names@[i as int]@);
        let j = position(&out, &names[i], i);
        if j < out.len() {
            swap(&mut out, i, j);
        }
        i += 1;
    }
    out
}

/// The first capture group of every match of a regular expression in a
/// text, from left to right, as the crate `regex` finds them; `None` where
/// the expression does not compile.
pub uninterp spec fn regex_first_groups(pattern: Seq<char>, haystack: Seq<char>) -> Option<
    Seq<Seq<char>>,
>;

/// The views of the strings of an optional vector.
pub open spec fn option_views(r: Option<Vec<String>>) -> Option<Seq<Seq<char>>> {
    match r {
        Some(v) => Some(views(v@)),
        None => None,
    }
}

/// Compiles `pattern` with `regex::Regex::new` and walks the text with
/// `Regex::captures_iter`, which yields the successive non-overlapping
/// matches; of each match it keeps what the first group captured (the empty
/// string where that group took no part). The contract gives the list its
/// name, `regex_first_groups`, as a function of the two texts alone, and
/// `None` where `Regex::new` returns an error.
#[verifier::external_body]
fn first_groups(pattern: &str, haystack: &str) -> (r: Option<Vec<String>>)
    ensures
        option_views(r) == regex_first_groups(pattern@, haystack@),
{
    match regex::Regex::new(pattern) {
        Ok(re) => Some(
            re.captures_iter(haystack).map(
                |c| c.get(1).map_or(String::new(), |m| m.as_str().to_string()),
            ).collect(),
        ),
        Err(_) => None,
    }
}

/// The regular expression of a placeholder: an opening brace, one or more
/// characters that are no closing brace, which make the name, and a closing
/// brace.
pub open spec fn placeholder_pattern() -> Seq<char> {
    "\\{([^}]+)}"@
}

/// The names of the placeholders of a path, from left to right.
pub open spec fn placeholders(path: Seq<char>) -> Seq<Seq<char>> {
    match regex_first_groups(placeholder_pattern(), path) {
        Some(names) => names,
        None => Seq::empty(),
    }
}

/// The names of the placeholders of a path, from left to right.
pub fn path_placeholders(path: &str) -> (r: Vec<String>)
    ensures
        views(r@) == placeholders(path@),
{
    match first_groups("\\{([^}]+)}", path) {
        Some(names) => names,
        None => {
            let none: Vec<String> = Vec::new();
            assert(views(none@) == Seq::<Seq<char>>::empty());
            none
        },
    }
}

/// The parameter that stands for the `n`-th of the repeated `{id}`: a
/// required string named `id` and the number.
pub open spec fn id_parameter(n: nat) -> ParameterModel {
    ParameterModel {
        location: ParameterLocation::Path,
        name: "id"@ + decimal(n),
        description: None,
        required: true,
        schema: TypeModel::Primitive { kind: PrimitiveKind::String },
    }
}

/// The parameters `id1` to `idn`.
pub open spec fn numbered_ids(n: nat) -> Seq<ParameterModel> {
    Seq::new(n, |k: int| id_parameter((k + 1) as nat))
}

/// The path parameters of an operation before they are ordered: those that
/// the rows declare; and where `{id}` is repeated in the path, those without
/// the ones named `id`, followed by one numbered parameter for each
/// occurrence.
pub open spec fn expected_parameters(raw_path: Seq<char>, rows: Seq<ParameterRow>) -> Seq<
    ParameterModel,
> {
    let repeats = count(raw_path, "{id}"@);
    if repeats > 1 {
        kept_path_parameters(rows, true) + numbered_ids(repeats)
    } else {
        path_parameters(rows)
    }
}

/// The path parameters of an operation, in the order of the placeholders of
/// its canonical path.
pub open spec fn resolved_parameters(raw_path: Seq<char>, rows: Seq<ParameterRow>) -> Seq<
    ParameterModel,
> {
    reordered(expected_parameters(raw_path, rows), placeholders(canonical_path(raw_path)), 0)
}

/// The first position, from `from` on, of a parameter that no placeholder
/// names; the number of parameters where every one is named.
pub open spec fn first_unmatched(
    params: Seq<ParameterModel>,
    names: Seq<Seq<char>>,
    from: int,
) -> int
    decreases params.len() - from,
{
    if from >= params.len() {
        params.len() as int
    } else if from >= 0 && !names.contains(params[from].name) {
        from
    } else {
        first_unmatched(params, names, from + 1)
    }
}

/// What resolving the path parameters of an operation gives. For the
/// wildcard path: nothing, which tells the caller to skip the operation. For
/// any other path: the parameters in the order of the placeholders; but where
/// one of them is named by no placeholder, the error that carries the verb,
/// the path as documented and the name of the first such parameter.
pub open spec fn resolution(
    op: VerbPath,
    rows: Seq<ParameterRow>,
    r: Result<Option<Vec<ParameterSpec>>, TransformError>,
) -> bool {
    if op.raw_path() == wildcard_path() {
        r matches Ok(None)
    } else {
        let params = resolved_parameters(op.raw_path(), rows);
        let k = first_unmatched(params, placeholders(canonical_path(op.raw_path())), 0);
        if k < params.len() {
            r matches Err(TransformError::UnmatchedPathParameter { verb, path, name })
                && verb@ == op.verb_text() && path@ == op.raw_path() && name@ == params[k].name
        } else {
            r matches Ok(Some(v)) && models(v@) == params
        }
    }
}

/// Whether one of the names is `name`.
fn contains_name(names: &Vec<String>, name: &String) -> (b: bool)
    ensures
        b == views(names@).contains(name@),
{
    let mut i: usize = 0;
    while i < names.len()
        invariant
            i <= names.len(),
            forall|k: int| 0 <= k < i ==> views(names@)[k] != name@,
        decreases names.len() - i,
    {
        assert(views(names@)[i as int] == names@[i as int]@);
        if names[i] == *name {
            return true;
        }
        i += 1;
    }
    false
}

/// The position of the first parameter that no placeholder names.
pub fn find_unmatched(params: &Vec<ParameterSpec>, names: &Vec<String>) -> (k: usize)
    ensures
        k == first_unmatched(models(params@), views(names@), 0),
        k <= params@.len(),
{
    let mut k: usize = 0;
    while k < params.len()
        invariant
            k <= params.len(),
            first_unmatched(models(params@), views(names@), 0) == first_unmatched(
                models(params@),
                views(names@),
                k as int,
            ),
        decreases params.len() - k,
    {
        assert(models(params@)[k as int] == params@[k as int]@);
        if !contains_name(names, &params[k].name) {
            return k;
        }
        k += 1;
    }
    k
}

/// Resolves the path parameters of an operation from the rows of its
/// parameter table.
pub fn parse_path(verb_path: &VerbPath, rows: &Vec<ParameterRow>) -> (r: Result<
    Option<Vec<ParameterSpec>>,
    TransformError,
>)
    ensures
        resolution(*verb_path, rows@, r),
{
    if verb_path.unrepresentable() {
        return Ok(None);
    }
    let mut params = match verb_path.repeating_ids() {
        Some(repeats) => {
            let mut params = kept_path_params(rows, true);
            let ghost kept = models(params@);
            let mut n: usize = 0;
            while n < repeats
                invariant
                    n <= repeats,
                    models(params@) == kept + numbered_ids(n as nat),
                decreases repeats - n,
            {
                let ghost before = models(params@);
                let mut name = String::from_str("id");
                push_decimal(&mut name, n + 1);
                let p = ParameterSpec {
                    location: ParameterLocation::Path,
                    name,
                    description: None,
                    required: true,
                    schema: TypeNode::Primitive { kind: PrimitiveKind::String },
                };
                assert(p@ == id_parameter((n + 1) as nat));
                params.push(p);
                assert(models(params@) == before + seq![p@]);
                n += 1;
            }
            params
        },
        None => kept_path_params(rows, false),
    };
    let path = verb_path.path();
    let names = path_placeholders(path.as_str());
    let params = reorder(params, &names);
    let k = find_unmatched(&params, &names);
    if k < params.len() {
        assert(models(params@)[k as int] == params@[k as int]@);
        Err(
            TransformError::UnmatchedPathParameter {
                verb: String::from_str(verb_path.verb()),
                path: verb_path.raw(),
                name: params[k].name.clone(),
            },
        )
    } else {
        Ok(Some(params))
    }
}

} // verus!
