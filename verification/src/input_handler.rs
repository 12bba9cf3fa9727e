//! Streaming evaluation: mode selection, record splitting, variable binding
//! per record, dispatch to the engine, and order-preserving, fail-fast
//! collection of the results.
//!
//! One run is in exactly one of three modes.  With no input there is one
//! evaluation with no record bound.  In slurp mode the whole input is one
//! record.  In line mode every line that is not whitespace-only is one
//! record, evaluated independently on a bounded worker pool; if no record
//! remains the run behaves as if there were no input.  Results keep the
//! records' input order, and the first failure, in record order, fails the
//! whole batch.

use vstd::prelude::*;
use vstd::string::StringExecFns;
use rayon::iter::{IntoParallelRefIterator, ParallelIterator};
use crate::value::{DataValue, ValueModel, entries_model, lemma_entries_model};
use crate::varset::VariableSet;
use crate::engine::{new_context, add_variable, execute_program, ctx_vars, engine_map,
    lemma_engine_map_insert, lemma_engine_map_empty};
use crate::truthy::{is_truthy, truthy_spec};
use crate::serialize::{value_to_json, json_text_of, encodable};
use crate::json2cel::{json_to_value, json_doc, bindings_over};
use crate::varset::map_of_entries;
use crate::strutil::{chars_of, string_from_chars};

verus! {

/// Everything that can go wrong while evaluating records.
///
/// Each variant carries a human-readable diagnostic; which variant comes out
/// on which input is part of the pipeline functions' contracts.
#[derive(Debug)]
pub enum HandleError {
    /// A record was not well-formed JSON.
    JsonParseError(String),
    /// The engine result holds a kind that JSON cannot encode.
    JsonSerializationError(String),
    /// A record-derived top-level field collides with a declared variable.
    DuplicateVariableError(String),
    /// The engine reported a runtime fault.
    ExecutionError(String),
    /// A parallelism degree of exactly zero was configured.
    InvalidParallelismError,
    /// The worker pool could not be built.
    ThreadPoolError(String),
}

// ---------------------------------------------------------------------------
// Record splitting
// ---------------------------------------------------------------------------

/// The characters that whitespace trimming removes: the Unicode
/// `White_Space` set.
pub open spec fn is_space(c: char) -> bool {
    c == ' ' || c == '\t' || c == '\n' || c == '\r' || c == '\u{b}' || c == '\u{c}' || c
        == '\u{85}' || c == '\u{a0}' || c == '\u{1680}' || ('\u{2000}' <= c && c <= '\u{200a}') || c
        == '\u{2028}' || c == '\u{2029}' || c == '\u{202f}' || c == '\u{205f}' || c == '\u{3000}'
}

/// Whether a character counts as whitespace, exactly [`is_space`].
pub fn is_space_char(c: char) -> (r: bool)
    ensures
        r == is_space(c),
{
    c == ' ' || c == '\t' || c == '\n' || c == '\r' || c == '\u{b}' || c == '\u{c}' || c == '\u{85}'
        || c == '\u{a0}' || c == '\u{1680}' || (c >= '\u{2000}' && c <= '\u{200a}') || c
        == '\u{2028}' || c == '\u{2029}' || c == '\u{202f}' || c == '\u{205f}' || c == '\u{3000}'
}

/// A line of nothing but whitespace.
pub open spec fn is_blank(l: Seq<char>) -> bool {
    forall|i: int| 0 <= i < l.len() ==> is_space(#[trigger] l[i])
}

/// Reading the text left to right: the records completed so far and the
/// line still open.  A newline closes the open line, which becomes a record
/// unless it is whitespace-only.
pub open spec fn split_state(s: Seq<char>) -> (Seq<Seq<char>>, Seq<char>)
    decreases s,
{
    if s.len() == 0 {
        (Seq::empty(), Seq::empty())
    } else {
        let st = split_state(s.drop_last());
        let c = s.last();
        if c == '\n' {
            (
                if is_blank(st.1) {
                    st.0
                } else {
                    st.0.push(st.1)
                },
                Seq::empty(),
            )
        } else {
            (st.0, st.1.push(c))
        }
    }
}

/// The records of a line-mode input: its lines in order, whitespace-only
/// lines left out.
pub open spec fn records_of(s: Seq<char>) -> Seq<Seq<char>> {
    let st = split_state(s);
    if is_blank(st.1) {
        st.0
    } else {
        st.0.push(st.1)
    }
}

/// A whitespace-only input yields no records: line mode then behaves
/// exactly as null input, one evaluation with no record bound.
pub proof fn lemma_blank_input_no_records(s: Seq<char>)
    requires
        forall|i: int| 0 <= i < s.len() ==> is_space(#[trigger] s[i]),
    ensures
        records_of(s).len() == 0,
{
    lemma_blank_split_state(s);
}

proof fn lemma_blank_split_state(s: Seq<char>)
    requires
        forall|i: int| 0 <= i < s.len() ==> is_space(#[trigger] s[i]),
    ensures
        split_state(s).0.len() == 0,
        is_blank(split_state(s).1),
    decreases s,
{
    if s.len() > 0 {
        assert(forall|i: int| 0 <= i < s.drop_last().len() ==> is_space(
            #[trigger] s.drop_last()[i],
        ));
        lemma_blank_split_state(s.drop_last());
        let st = split_state(s.drop_last());
        if s.last() != '\n' {
            assert(is_space(s.last()));
            assert forall|i: int| 0 <= i < st.1.push(s.last()).len() implies is_space(
                #[trigger] st.1.push(s.last())[i],
            ) by {
                if i < st.1.len() {
                    assert(st.1.push(s.last())[i] == st.1[i]);
                }
            }
        }
    }
}

/// Splits line-mode input into its records, exactly [`records_of`].
#[verifier::loop_isolation(false)]
fn split_records(input: &str) -> (r: Vec<String>)
    ensures
        r@.len() == records_of(input@).len(),
        forall|i: int| 0 <= i < r@.len() ==> (#[trigger] r@[i])@ == records_of(input@)[i],
{
    let cs = chars_of(input);
    let n = cs.len();
    let mut recs: Vec<String> = Vec::new();
    let mut cur: Vec<char> = Vec::new();
    let mut cur_blank: bool = true;
    let mut i: usize = 0;
    while i < n
        invariant
            i <= n,
            recs@.len() == split_state(input@.take(i as int)).0.len(),
            forall|k: int| 0 <= k < recs@.len() ==> (#[trigger] recs@[k])@ == split_state(
                input@.take(i as int),
            ).0[k],
            cur@ == split_state(input@.take(i as int)).1,
            cur_blank == is_blank(cur@),
        decreases n - i,
    {
        let c = cs[i];
        proof {
            assert(input@.take(i as int + 1).drop_last() =~= input@.take(i as int));
            assert(input@.take(i as int + 1).last() == input@[i as int]);
        }
        if c == '\n' {
            if !cur_blank {
                recs.push(string_from_chars(&cur));
            }
            cur = Vec::new();
            cur_blank = true;
        } else {
            let ghost prev = cur@;
            cur.push(c);
            let space = is_space_char(c);
            proof {
                if is_blank(prev) && is_space(c) {
                    assert forall|j: int| 0 <= j < cur@.len() implies is_space(
                        #[trigger] cur@[j],
                    ) by {
                        if j < prev.len() as int {
                            assert(cur@[j] == prev[j]);
                        }
                    }
                }
                if !(is_blank(prev) && is_space(c)) {
                    if !is_blank(prev) {
                        let w = choose|j: int| 0 <= j < prev.len() && !is_space(#[trigger] prev[j]);
                        assert(cur@[w] == prev[w]);
                        assert(!is_blank(cur@));
                    } else {
                        assert(cur@[cur@.len() - 1] == c);
                        assert(!is_blank(cur@));
                    }
                }
            }
            cur_blank = cur_blank && space;
        }
        i = i + 1;
    }
    if !cur_blank {
        recs.push(string_from_chars(&cur));
    }
    proof {
        assert(input@.take(n as int) =~= input@);
    }
    recs
}

// ---------------------------------------------------------------------------
// One record
// ---------------------------------------------------------------------------

/// A record-derived top-level field name collides with a declared variable.
pub open spec fn collides(base: Map<Seq<char>, ValueModel>, m: ValueModel) -> bool {
    match m {
        ValueModel::Object(fields) => exists|i: int|
            0 <= i < fields.len() && #[trigger] base.dom().contains(fields[i].0),
        _ => false,
    }
}

/// `name` is a top-level field of the record that is also a declared
/// variable.
pub open spec fn colliding_name(
    base: Map<Seq<char>, ValueModel>,
    m: ValueModel,
    name: Seq<char>,
) -> bool {
    match m {
        ValueModel::Object(fields) => base.contains_key(name) && exists|i: int|
            0 <= i < fields.len() && (#[trigger] fields[i]).0 == name,
        _ => false,
    }
}

/// Some record of a line-mode input is not well-formed JSON.
pub open spec fn some_record_unparseable(input: Seq<char>) -> bool {
    exists|i: int|
        0 <= i < records_of(input).len() && json_doc(#[trigger] records_of(input)[i]) is None
}

/// Some record of a line-mode input parses to an object with a top-level
/// field colliding with a declared variable.
pub open spec fn some_record_collides(base: Map<Seq<char>, ValueModel>, input: Seq<char>) -> bool {
    exists|i: int|
        0 <= i < records_of(input).len() && (json_doc(#[trigger] records_of(input)[i]) matches
            Some(m) && collides(base, m))
}

/// Looks for a top-level field of `v` whose name is already a declared
/// variable.
#[verifier::spinoff_prover]
#[verifier::loop_isolation(false)]
fn find_collision(base: &VariableSet, v: &DataValue) -> (r: Option<String>)
    ensures
        r matches Some(name) ==> colliding_name(base@, v@, name@),
        r is Some ==> collides(base@, v@),
        r is None ==> !collides(base@, v@),
{
    match v {
        DataValue::Object(fields) => {
            let ghost models = entries_model(fields@);
            proof {
                lemma_entries_model(fields@);
            }
            let n = fields.len();
            let mut i: usize = 0;
            while i < n
                invariant
                    i <= n,
                    n == fields@.len(),
                    models == entries_model(fields@),
                    models.len() == n as int,
                    forall|k: int| 0 <= k < n as int ==> models[k] == (fields@[k].0@,
                        crate::value::model_of(fields@[k].1)),
                    forall|k: int| 0 <= k < i as int ==> !base@.contains_key(
                        (#[trigger] models[k]).0,
                    ),
                decreases n - i,
            {
                if base.contains_key(fields[i].0.as_str()) {
                    proof {
                        assert(collides(base@, v@)) by {
                            assert(base@.dom().contains(models[i as int].0));
                            assert(v@ == ValueModel::Object(models));
                        }
                        assert(colliding_name(base@, v@, fields@[i as int].0@)) by {
                            assert(v@ == ValueModel::Object(models));
                            assert(models[i as int].0 == fields@[i as int].0@);
                            assert(base@.contains_key(models[i as int].0));
                        }
                    }
                    return Some(fields[i].0.clone());
                }
                i = i + 1;
            }
            None
        },
        _ => None,
    }
}

/// The model of the record handed to one evaluation, if any.
pub open spec fn opt_model(record: Option<&DataValue>) -> Option<ValueModel> {
    match record {
        Option::Some(v) => Option::Some(v@),
        Option::None => Option::None,
    }
}

/// The variables one evaluation sees: the declared ones and, with a
/// record, the record under the root name and each top-level field, later
/// bindings shadowing earlier ones.
pub open spec fn bound_vars(
    base: Map<Seq<char>, ValueModel>,
    root: Seq<char>,
    record: Option<ValueModel>,
) -> Map<Seq<char>, ValueModel> {
    match record {
        Option::None => base,
        Option::Some(m) => match m {
            ValueModel::Object(fields) => bindings_over(base.insert(root, m), fields),
            _ => base.insert(root, m),
        },
    }
}

/// Builds the engine context for one evaluation: every declared variable in
/// declaration order, then, for a record, the record under the root name and
/// each top-level field.  The context holds exactly [`bound_vars`], each
/// value stored as [`engine_map`] states — the identity wherever the values
/// are JSON-representable.
#[verifier::loop_isolation(false)]
fn build_context(
    arg_variables: &VariableSet,
    root_var: &str,
    record: Option<&DataValue>,
) -> (c: cel::Context<'static, 'static>)
    ensures
        ctx_vars(c) == engine_map(bound_vars(arg_variables@, root_var@, opt_model(record))),
{
    let mut ctx = new_context();
    proof {
        lemma_engine_map_empty();
    }
    let n = arg_variables.len();
    let mut i: usize = 0;
    while i < n
        invariant
            i <= n,
            ctx_vars(ctx) == engine_map(map_of_entries(arg_variables.entry_seq().take(i as int))),
        decreases n - i,
    {
        add_variable(&mut ctx, arg_variables.name_at(i).as_str(), arg_variables.value_at(i));
        proof {
            assert(arg_variables.entry_seq().take(i as int + 1).drop_last()
                =~= arg_variables.entry_seq().take(i as int));
            assert(arg_variables.entry_seq().take(i as int + 1).last()
                == arg_variables.entry_seq()[i as int]);
            lemma_engine_map_insert(
                map_of_entries(arg_variables.entry_seq().take(i as int)),
                arg_variables.entry_seq()[i as int].0@,
                crate::value::model_of(arg_variables.entry_seq()[i as int].1),
            );
        }
        i = i + 1;
    }
    proof {
        assert(arg_variables.entry_seq().take(n as int) =~= arg_variables.entry_seq());
        arg_variables.lemma_view_is_fold();
    }
    match record {
        None => ctx,
        Some(v) => {
            add_variable(&mut ctx, root_var, v);
            proof {
                lemma_engine_map_insert(arg_variables@, root_var@, v@);
            }
            match v {
                DataValue::Object(fields) => {
                    let ghost models = entries_model(fields@);
                    let ghost with_root = arg_variables@.insert(root_var@, v@);
                    proof {
                        lemma_entries_model(fields@);
                    }
                    let fc = fields.len();
                    let mut j: usize = 0;
                    while j < fc
                        invariant
                            j <= fc,
                            ctx_vars(ctx) == engine_map(
                                bindings_over(with_root, models.take(j as int)),
                            ),
                        decreases fc - j,
                    {
                        add_variable(&mut ctx, fields[j].0.as_str(), &fields[j].1);
                        proof {
                            assert(models.take(j as int + 1).drop_last() =~= models.take(
                                j as int,
                            ));
                            assert(models.take(j as int + 1).last() == models[j as int]);
                            lemma_engine_map_insert(
                                bindings_over(with_root, models.take(j as int)),
                                models[j as int].0,
                                models[j as int].1,
                            );
                        }
                        j = j + 1;
                    }
                    proof {
                        assert(models.take(fc as int) =~= models);
                    }
                    ctx
                },
                _ => ctx,
            }
        },
    }
}

/// The pair is the JSON text and truthiness verdict of one engine value.
pub open spec fn result_shape(p: (String, bool)) -> bool {
    exists|m: ValueModel| encodable(m) && p.0@ == json_text_of(m) && p.1 == truthy_spec(m)
}

/// Evaluates the program once: the declared variables, then, if a record
/// is given, the parsed record bound under `root_var` and (for an object)
/// each of its top-level fields, are handed to the engine; the result is
/// rendered as JSON text beside its truthiness verdict.
///
/// A malformed record is a parse error, exactly when the text is not
/// well-formed JSON.  A record field that collides with a declared
/// variable is a binding error, exactly when [`collides`] holds.  What the
/// engine itself does with the bound variables is its own; an engine fault
/// is an execution error, and a result outside the JSON kinds a
/// serialization error.
pub fn handle_json(
    program: &cel::Program,
    arg_variables: &VariableSet,
    root_var: &str,
    json_str: Option<&str>,
) -> (r: Result<(String, bool), HandleError>)
    ensures
        r matches Err(e) ==> (e is JsonParseError ==> (json_str matches Some(s) && json_doc(s@)
            is None)),
        (json_str matches Some(s) && json_doc(s@) is None) ==> (r matches Err(e)
            && e is JsonParseError),
        r matches Err(e) ==> (e is DuplicateVariableError ==> (json_str matches Some(s)
            && json_doc(s@) matches Some(m) && collides(arg_variables@, m))),
        (json_str matches Some(s) && json_doc(s@) matches Some(m) && collides(arg_variables@, m))
            ==> (r matches Err(e) && e is DuplicateVariableError),
        r matches Err(e) ==> (e matches HandleError::DuplicateVariableError(nm) ==> (json_str
            matches Some(s) && json_doc(s@) matches Some(m) && colliding_name(
            arg_variables@,
            m,
            nm@,
        ))),
        r matches Err(e) ==> (e is JsonParseError || e is DuplicateVariableError
            || e is ExecutionError || e is JsonSerializationError),
        json_str matches Some(s) ==> (s@.len() == 0 ==> (r matches Err(e)
            && e is JsonParseError)),
        r matches Ok(p) ==> result_shape(p),
{
    let parsed = match json_str {
        None => None,
        Some(s) => {
            let v = match json_to_value(s) {
                Ok(v) => v,
                Err(e) => {
                    return Err(e);
                },
            };
            match find_collision(arg_variables, &v) {
                Some(name) => {
                    return Err(HandleError::DuplicateVariableError(name));
                },
                None => {},
            }
            Some(v)
        },
    };
    let record = match &parsed {
        Some(v) => Some(v),
        None => None,
    };
    let ctx = build_context(arg_variables, root_var, record);
    let result = match execute_program(program, &ctx) {
        Ok(v) => v,
        Err(e) => {
            return Err(e);
        },
    };
    let truthy = is_truthy(&result);
    let text = match value_to_json(&result) {
        Ok(t) => t,
        Err(e) => {
            return Err(e);
        },
    };
    proof {
        assert(encodable(result@) && text@ == json_text_of(result@) && truthy == truthy_spec(
            result@,
        ));
        assert(result_shape((text, truthy)));
    }
    Ok((text, truthy))
}

// ---------------------------------------------------------------------------
// Batches
// ---------------------------------------------------------------------------

/// Relies on rayon's `ThreadPoolBuilder` (zero worker threads asking for
/// the pool's default degree, normally the platform's available
/// concurrency) and on `par_iter().map(..).collect()`
/// over an indexed parallel iterator, which keeps the outcomes in input
/// order.  Each line is evaluated by [`handle_json`]; the per-element
/// clauses restate that function's contract for each line's outcome.
#[verifier::external_body]
fn eval_lines_pooled(
    program: &cel::Program,
    arg_variables: &VariableSet,
    root_var: &str,
    lines: &Vec<String>,
    threads: usize,
) -> (r: Result<Vec<Result<(String, bool), HandleError>>, HandleError>)
    ensures
        r matches Err(e) ==> e is ThreadPoolError,
        r matches Ok(v) ==> v@.len() == lines@.len(),
        r matches Ok(v) ==> forall|i: int|
            0 <= i < v@.len() ==> ((#[trigger] v@[i]) matches Ok(p) ==> result_shape(p)),
        r matches Ok(v) ==> forall|i: int|
            0 <= i < v@.len() ==> ((#[trigger] v@[i]) matches Err(e) ==> (e is JsonParseError
                || e is DuplicateVariableError || e is ExecutionError
                || e is JsonSerializationError)),
        r matches Ok(v) ==> forall|i: int|
            #![trigger v@[i]]
            0 <= i < v@.len() ==> (json_doc(lines@[i]@) is None <==> (v@[i] matches Err(e)
                && e is JsonParseError)),
        r matches Ok(v) ==> forall|i: int|
            #![trigger v@[i]]
            0 <= i < v@.len() ==> ((json_doc(lines@[i]@) matches Some(m) && collides(
                arg_variables@,
                m,
            )) <==> (v@[i] matches Err(e) && e is DuplicateVariableError)),
{
    let pool = match rayon::ThreadPoolBuilder::new().num_threads(threads).build() {
        Ok(p) => p,
        Err(e) => {
            return Err(HandleError::ThreadPoolError(format!("{}", e)));
        },
    };
    Ok(pool.install(|| {
        lines.par_iter().map(
            |line| handle_json(program, arg_variables, root_var, Some(line.as_str())),
        ).collect()
    }))
}

/// Keeps the whole batch only when every record succeeded, in record
/// order; otherwise the first failure, in record order, fails the batch
/// and every outcome is dropped.
pub fn collect_results(outcomes: Vec<Result<(String, bool), HandleError>>) -> (r: Result<
    Vec<(String, bool)>,
    HandleError,
>)
    ensures
        r matches Ok(out) ==> (forall|i: int|
            0 <= i < outcomes@.len() ==> (#[trigger] outcomes@[i]) is Ok) && out@.len()
            == outcomes@.len() && (forall|i: int|
            0 <= i < out@.len() ==> #[trigger] out@[i] == outcomes@[i]->Ok_0),
        r matches Err(e) ==> (exists|i: int|
            0 <= i < outcomes@.len() && (#[trigger] outcomes@[i]) is Err && e == outcomes@[i]->Err_0
                && (forall|j: int| 0 <= j < i ==> outcomes@[j] is Ok)),
{
    let mut outcomes = outcomes;
    let n = outcomes.len();
    let mut first_err: usize = n;
    let mut i: usize = 0;
    while i < n && first_err == n
        invariant
            i <= n,
            n == outcomes@.len(),
            first_err == n || (first_err < i && outcomes@[first_err as int] is Err),
            first_err == n ==> forall|j: int| 0 <= j < i as int ==> (#[trigger] outcomes@[j]) is Ok,
            first_err < n ==> forall|j: int|
                0 <= j < first_err as int ==> (#[trigger] outcomes@[j]) is Ok,
        decreases n - i,
    {
        if outcomes[i].is_err() {
            first_err = i;
        }
        i = i + 1;
    }
    if first_err < n {
        let item = outcomes.remove(first_err);
        match item {
            Err(e) => Err(e),
            Ok(_) => unreached(),
        }
    } else {
        let ghost all = outcomes@;
        let mut rev: Vec<(String, bool)> = Vec::new();
        while outcomes.len() > 0
            invariant
                outcomes@.len() + rev@.len() == all.len(),
                outcomes@ == all.take(outcomes@.len() as int),
                forall|k: int| 0 <= k < all.len() ==> (#[trigger] all[k]) is Ok,
                forall|k: int| 0 <= k < rev@.len() ==> #[trigger] rev@[k] == all[all.len() - 1
                    - k]->Ok_0,
            decreases outcomes@.len(),
        {
            let item = match outcomes.pop() {
                Some(x) => x,
                None => unreached(),
            };
            proof {
                assert(all[outcomes@.len() as int] == item);
            }
            match item {
                Ok(p) => rev.push(p),
                Err(_) => unreached(),
            }
        }
        let mut out: Vec<(String, bool)> = Vec::new();
        while rev.len() > 0
            invariant
                rev@.len() + out@.len() == all.len(),
                forall|k: int| 0 <= k < rev@.len() ==> #[trigger] rev@[k] == all[all.len() - 1
                    - k]->Ok_0,
                forall|k: int| 0 <= k < out@.len() ==> #[trigger] out@[k] == all[k]->Ok_0,
            decreases rev@.len(),
        {
            let item = match rev.pop() {
                Some(x) => x,
                None => unreached(),
            };
            out.push(item);
        }
        Ok(out)
    }
}

/// Rejects a parallelism degree of exactly zero, whatever the mode; a
/// negative degree asks for the platform's available concurrency.  Meant
/// to run before any input is read.
pub fn validate_parallelism(parallelism: i32) -> (r: Result<(), HandleError>)
    ensures
        parallelism == 0 <==> (r matches Err(e) && e is InvalidParallelismError),
        r matches Err(e) ==> e is InvalidParallelismError,
{
    if parallelism == 0 {
        Err(HandleError::InvalidParallelismError)
    } else {
        Ok(())
    }
}

/// Evaluates a whole input text.
///
/// A parallelism degree of zero is rejected before anything else, in every
/// mode.  In slurp mode the text is one record.  Otherwise the records are
/// the non-blank lines, evaluated on a worker pool sized by the degree (a
/// negative degree asking for the pool's default, normally the platform's
/// available concurrency) with the outcomes kept in input order; with no
/// record at all there is one evaluation with no record bound.  On success
/// there is one result per record, or exactly one with no record.
pub fn handle_buffer(
    program: &cel::Program,
    arg_variables: &VariableSet,
    root_var: &str,
    input: &str,
    slurp: bool,
    parallelism: i32,
) -> (r: Result<Vec<(String, bool)>, HandleError>)
    ensures
        parallelism == 0 <==> (r matches Err(e) && e is InvalidParallelismError),
        slurp && parallelism != 0 ==> ((r matches Err(e) && e is JsonParseError) <==> json_doc(
            input@,
        ) is None),
        slurp && parallelism != 0 && input@.len() == 0 ==> (r matches Err(e)
            && e is JsonParseError),
        slurp ==> (r matches Ok(out) ==> out@.len() == 1),
        !slurp && parallelism != 0 && records_of(input@).len() == 0 ==> (r matches Ok(out)
            ==> out@.len() == 1),
        !slurp && parallelism != 0 && records_of(input@).len() > 0 ==> (r matches Ok(out)
            ==> out@.len() == records_of(input@).len()),
        !slurp && parallelism != 0 && some_record_unparseable(input@) ==> r is Err,
        !slurp ==> (r matches Err(e) ==> (e is JsonParseError ==> some_record_unparseable(
            input@,
        ))),
        !slurp && parallelism != 0 && some_record_collides(arg_variables@, input@) ==> r is Err,
        !slurp ==> (r matches Err(e) ==> (e is DuplicateVariableError ==> some_record_collides(
            arg_variables@,
            input@,
        ))),
        slurp ==> (r matches Err(e) ==> (e is DuplicateVariableError ==> (json_doc(input@)
            matches Some(m) && collides(arg_variables@, m)))),
        slurp && parallelism != 0 ==> ((json_doc(input@) matches Some(m) && collides(
            arg_variables@,
            m,
        )) ==> (r matches Err(e) && e is DuplicateVariableError)),
        r matches Ok(out) ==> forall|i: int| 0 <= i < out@.len() ==> result_shape(
            #[trigger] out@[i],
        ),
{
    if parallelism == 0 {
        return Err(HandleError::InvalidParallelismError);
    }
    if !slurp {
        let threads: usize = if parallelism < 0 {
            0
        } else {
            parallelism as usize
        };
        let lines = split_records(input);
        if lines.len() == 0 {
            let one = match handle_json(program, arg_variables, root_var, None) {
                Ok(p) => p,
                Err(e) => {
                    return Err(e);
                },
            };
            let mut out: Vec<(String, bool)> = Vec::new();
            out.push(one);
            Ok(out)
        } else {
            let outcomes = match eval_lines_pooled(program, arg_variables, root_var, &lines,
                threads) {
                Ok(v) => v,
                Err(e) => {
                    return Err(e);
                },
            };
            let ghost outs = outcomes@;
            let res = collect_results(outcomes);
            proof {
                let recs = records_of(input@);
                if some_record_unparseable(input@) {
                    let i = choose|i: int|
                        0 <= i < recs.len() && json_doc(#[trigger] recs[i]) is None;
                    assert(lines@[i]@ == recs[i]);
                    assert(outs[i] is Err);
                    assert(res is Err);
                }
                if some_record_collides(arg_variables@, input@) {
                    let i = choose|i: int|
                        0 <= i < recs.len() && (json_doc(#[trigger] recs[i]) matches Some(m)
                            && collides(arg_variables@, m));
                    assert(lines@[i]@ == recs[i]);
                    assert(outs[i] is Err);
                    assert(res is Err);
                }
                if res is Err {
                    let e = res->Err_0;
                    let k = choose|k: int|
                        0 <= k < outs.len() && (#[trigger] outs[k]) is Err
                            && e == outs[k]->Err_0 && (forall|j: int|
                            0 <= j < k ==> outs[j] is Ok);
                    assert(lines@[k]@ == recs[k]);
                    if e is JsonParseError {
                        assert(json_doc(recs[k]) is None);
                        assert(some_record_unparseable(input@));
                    }
                    if e is DuplicateVariableError {
                        assert(json_doc(recs[k]) matches Some(m) && collides(
                            arg_variables@,
                            m,
                        ));
                        assert(some_record_collides(arg_variables@, input@));
                    }
                }
            }
            res
        }
    } else {
        let one = match handle_json(program, arg_variables, root_var, Some(input)) {
            Ok(p) => p,
            Err(e) => {
                return Err(e);
            },
        };
        let mut out: Vec<(String, bool)> = Vec::new();
        out.push(one);
        Ok(out)
    }
}

/// Evaluates the run's input: none at all, or a whole text, under
/// [`handle_buffer`]'s modes.  With no input the run behaves exactly as an
/// empty text: one evaluation with no record bound in line mode, and in
/// slurp mode a parse error, since an empty text is not a JSON document.
pub fn handle_input(
    program: &cel::Program,
    arg_variables: &VariableSet,
    root_var: &str,
    input: Option<&str>,
    slurp: bool,
    parallelism: i32,
) -> (r: Result<Vec<(String, bool)>, HandleError>)
    ensures
        parallelism == 0 <==> (r matches Err(e) && e is InvalidParallelismError),
        input is None && !slurp && parallelism != 0 ==> (r matches Ok(out) ==> out@.len() == 1),
        input is None && slurp && parallelism != 0 ==> (r matches Err(e) && e is JsonParseError),
        input matches Some(s) ==> (slurp && parallelism != 0 ==> ((r matches Err(e)
            && e is JsonParseError) <==> json_doc(s@) is None)),
        input matches Some(s) ==> (slurp ==> (r matches Ok(out) ==> out@.len() == 1)),
        input matches Some(s) ==> (!slurp && parallelism != 0 && records_of(s@).len() == 0 ==> (r
            matches Ok(out) ==> out@.len() == 1)),
        input matches Some(s) ==> (!slurp && parallelism != 0 && records_of(s@).len() > 0 ==> (r
            matches Ok(out) ==> out@.len() == records_of(s@).len())),
        input matches Some(s) ==> (!slurp && parallelism != 0 && some_record_unparseable(s@)
            ==> r is Err),
        input matches Some(s) ==> (!slurp ==> (r matches Err(e) ==> (e is JsonParseError
            ==> some_record_unparseable(s@)))),
        input matches Some(s) ==> (!slurp && parallelism != 0 && some_record_collides(
            arg_variables@,
            s@,
        ) ==> r is Err),
        input matches Some(s) ==> (!slurp ==> (r matches Err(e) ==> (e is DuplicateVariableError
            ==> some_record_collides(arg_variables@, s@)))),
        r matches Ok(out) ==> forall|i: int| 0 <= i < out@.len() ==> result_shape(
            #[trigger] out@[i],
        ),
{
    match input {
        None => {
            proof {
                reveal_strlit("");
                assert(""@ =~= Seq::<char>::empty());
                assert(records_of(""@).len() == 0);
            }
            handle_buffer(program, arg_variables, root_var, "", slurp, parallelism)
        },
        Some(s) => handle_buffer(program, arg_variables, root_var, s, slurp, parallelism),
    }
}

impl HandleError {
    /// The diagnostic line for this error.
    pub fn describe(&self) -> (r: String)
        ensures
            match self {
                HandleError::JsonParseError(m) => r@ == "JSON parse error: "@ + m@,
                HandleError::JsonSerializationError(m) => r@ == "JSON serialization error: "@
                    + m@,
                HandleError::DuplicateVariableError(n) => r@ == "Duplicate variable: '"@ + n@
                    + "' is bound by both an argument and the record"@,
                HandleError::ExecutionError(m) => r@ == "Execution error: "@ + m@,
                HandleError::InvalidParallelismError => r@ == "Parallelism level cannot be 0"@,
                HandleError::ThreadPoolError(m) => r@ == "Failed to build thread pool: "@ + m@,
            },
    {
        match self {
            HandleError::JsonParseError(m) => prefixed("JSON parse error: ", m),
            HandleError::JsonSerializationError(m) => prefixed("JSON serialization error: ", m),
            HandleError::DuplicateVariableError(n) => {
                let mut out = String::from_str("Duplicate variable: '");
                out.append(n.as_str());
                out.append("' is bound by both an argument and the record");
                out
            },
            HandleError::ExecutionError(m) => prefixed("Execution error: ", m),
            HandleError::InvalidParallelismError => String::from_str(
                "Parallelism level cannot be 0",
            ),
            HandleError::ThreadPoolError(m) => prefixed("Failed to build thread pool: ", m),
        }
    }
}

/// `prefix` followed by `tail`.
fn prefixed(prefix: &str, tail: &String) -> (r: String)
    ensures
        r@ == prefix@ + tail@,
{
    let mut out = String::from_str(prefix);
    out.append(tail.as_str());
    out
}

} // verus!
