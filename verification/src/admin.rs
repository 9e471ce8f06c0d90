//! The Admin API: compact views of jobs, runs, projects and artifacts, the
//! request bodies of its commands, and what a run's steps say about errors.
use vstd::prelude::*;

use crate::config::opt_v;
use crate::error::{config_error, DbtpError};
use crate::json::{
    array_of, as_array_v, as_bool_v, as_str_v, as_u64_v, at, at_v, bool_at, clone_json, entries_v,
    entry, get_v, group_json_view, lemma_array_view, lemma_entries_v, obj_lookup, obj_set, object_of, set_field, str_at, u64_at, u64_v, vview, Json, JsonV,
};
use crate::text::{
    chars_of, find_char, has_substring, index_of_char, is_prefix, join2, join3, join_v,
    lemma_index_absent, lemma_index_of_char, lemma_index_of_char_range, owned, slice, spec_decimal,
    str_contains, str_eq, str_starts_with, string_of, u64_to_string,
};

verus! {

broadcast use group_json_view;

// ---------------------------------------------------------------------------
// Field lists
// ---------------------------------------------------------------------------

/// The fields kept in the compact view of a job.
pub open spec fn jobs_compact_fields_v() -> Seq<Seq<char>> {
    seq![
        "id"@, "name"@, "description"@, "dbt_version"@, "job_type"@, "triggers"@,
        "most_recent_run_id"@, "most_recent_run_status"@, "most_recent_run_started_at"@,
        "most_recent_run_finished_at"@, "most_recent_completed_run_id"@,
        "most_recent_completed_run_status"@, "most_recent_completed_run_started_at"@,
        "most_recent_completed_run_finished_at"@, "schedule"@, "next_run"@,
    ]
}

/// The fields dropped from the compact view of a run.
pub open spec fn runs_strip_fields_v() -> Seq<Seq<char>> {
    seq![
        "account_id"@, "environment_id"@, "blocked_by"@, "used_repo_cache"@, "audit"@,
        "created_at_humanized"@, "duration_humanized"@, "finished_at_humanized"@,
        "queued_duration_humanized"@, "run_duration_humanized"@, "artifacts_saved"@,
        "artifact_s3_path"@, "has_docs_generated"@, "has_sources_generated"@,
        "notifications_sent"@, "executed_by_thread_id"@, "updated_at"@, "dequeued_at"@,
        "last_checked_at"@, "last_heartbeat_at"@, "trigger"@, "run_steps"@, "deprecation"@,
        "environment"@,
    ]
}

/// The fields dropped from the compact view of a project.
pub open spec fn project_strip_fields_v() -> Seq<Seq<char>> {
    seq!["freshness_job"@, "docs_job"@, "group_permissions"@]
}

/// The models of a list of field names.
pub open spec fn fields_v(f: Seq<&str>) -> Seq<Seq<char>> {
    f.map_values(|s: &str| s@)
}

/// The fields kept in the compact view of a job.
pub fn jobs_compact_fields() -> (r: Vec<&'static str>)
    ensures
        fields_v(r@) == jobs_compact_fields_v(),
{
    let r = vec![
        "id", "name", "description", "dbt_version", "job_type", "triggers",
        "most_recent_run_id", "most_recent_run_status", "most_recent_run_started_at",
        "most_recent_run_finished_at", "most_recent_completed_run_id",
        "most_recent_completed_run_status", "most_recent_completed_run_started_at",
        "most_recent_completed_run_finished_at", "schedule", "next_run",
    ];
    assert(fields_v(r@) =~= jobs_compact_fields_v());
    r
}

/// The fields dropped from the compact view of a run.
pub fn runs_strip_fields() -> (r: Vec<&'static str>)
    ensures
        fields_v(r@) == runs_strip_fields_v(),
{
    let r = vec![
        "account_id", "environment_id", "blocked_by", "used_repo_cache", "audit",
        "created_at_humanized", "duration_humanized", "finished_at_humanized",
        "queued_duration_humanized", "run_duration_humanized", "artifacts_saved",
        "artifact_s3_path", "has_docs_generated", "has_sources_generated",
        "notifications_sent", "executed_by_thread_id", "updated_at", "dequeued_at",
        "last_checked_at", "last_heartbeat_at", "trigger", "run_steps", "deprecation",
        "environment",
    ];
    assert(fields_v(r@) =~= runs_strip_fields_v());
    r
}

/// The fields dropped from the compact view of a project.
pub fn project_strip_fields() -> (r: Vec<&'static str>)
    ensures
        fields_v(r@) == project_strip_fields_v(),
{
    let r = vec!["freshness_job", "docs_job", "group_permissions"];
    assert(fields_v(r@) =~= project_strip_fields_v());
    r
}

// ---------------------------------------------------------------------------
// Keeping and dropping fields
// ---------------------------------------------------------------------------

/// The entries whose key is (or, with `keep` false, is not) in `fields`.
pub open spec fn select_entries(es: Seq<(Seq<char>, JsonV)>, fields: Seq<Seq<char>>, keep: bool) -> Seq<(Seq<char>, JsonV)>
    decreases es.len(),
{
    if es.len() == 0 {
        Seq::empty()
    } else {
        let rest = select_entries(es.drop_last(), fields, keep);
        if fields.contains(es.last().0) == keep { rest.push(es.last()) } else { rest }
    }
}

/// An object with only the listed fields (`keep`) or without them; other
/// documents are left as they are.
pub open spec fn select_fields_v(v: JsonV, fields: Seq<Seq<char>>, keep: bool) -> JsonV {
    match v {
        JsonV::Object(es) => JsonV::Object(select_entries(es, fields, keep)),
        _ => v,
    }
}

/// Dropping the listed fields of an object: a listed field is no longer
/// there, and any other reads as before.
pub proof fn lemma_strip_lookup(es: Seq<(Seq<char>, JsonV)>, fields: Seq<Seq<char>>, key: Seq<char>)
    ensures
        fields.contains(key) ==> obj_lookup(select_entries(es, fields, false), key) is None,
        !fields.contains(key) ==> obj_lookup(select_entries(es, fields, false), key) == obj_lookup(es, key),
    decreases es.len(),
{
    if es.len() > 0 {
        let init = es.drop_last();
        let e = es.last();
        lemma_strip_lookup(init, fields, key);
        assert(es == init.push(e));
        crate::json::lemma_lookup_push(init, e, key);
        let rest = select_entries(init, fields, false);
        if !fields.contains(e.0) {
            crate::json::lemma_lookup_push(rest, e, key);
        }
    } else {
        assert(select_entries(es, fields, false) =~= Seq::<(Seq<char>, JsonV)>::empty());
    }
}

proof fn lemma_select_members(es: Seq<(Seq<char>, JsonV)>, fields: Seq<Seq<char>>, keep: bool)
    ensures
        forall|i: int| 0 <= i < select_entries(es, fields, keep).len() ==>
            fields.contains((#[trigger] select_entries(es, fields, keep)[i]).0) == keep
            && es.contains(select_entries(es, fields, keep)[i]),
    decreases es.len(),
{
    if es.len() > 0 {
        lemma_select_members(es.drop_last(), fields, keep);
        let rest = select_entries(es.drop_last(), fields, keep);
        assert forall|i: int| 0 <= i < select_entries(es, fields, keep).len() implies
            fields.contains((#[trigger] select_entries(es, fields, keep)[i]).0) == keep
            && es.contains(select_entries(es, fields, keep)[i]) by {
            if i < rest.len() {
                let j = choose|j: int| 0 <= j < es.drop_last().len() && es.drop_last()[j] == rest[i];
                assert(es[j] == rest[i]);
            } else {
                assert(es[es.len() - 1] == es.last());
            }
        }
    }
}

proof fn lemma_select_lengths(es: Seq<(Seq<char>, JsonV)>, fields: Seq<Seq<char>>)
    ensures
        select_entries(es, fields, true).len() + select_entries(es, fields, false).len() == es.len(),
    decreases es.len(),
{
    if es.len() > 0 {
        lemma_select_lengths(es.drop_last(), fields);
    }
}

/// Keeping the listed fields of an object and dropping them split its
/// entries: every entry kept has a listed key, every entry left has an
/// unlisted one, each comes from the object, and together they are as many
/// as the object's entries.
pub proof fn law_keep_and_strip_split(es: Seq<(Seq<char>, JsonV)>, fields: Seq<Seq<char>>)
    ensures
        select_entries(es, fields, true).len() + select_entries(es, fields, false).len() == es.len(),
        forall|i: int| 0 <= i < select_entries(es, fields, true).len() ==>
            fields.contains((#[trigger] select_entries(es, fields, true)[i]).0)
            && es.contains(select_entries(es, fields, true)[i]),
        forall|i: int| 0 <= i < select_entries(es, fields, false).len() ==>
            !fields.contains((#[trigger] select_entries(es, fields, false)[i]).0)
            && es.contains(select_entries(es, fields, false)[i]),
{
    lemma_select_lengths(es, fields);
    lemma_select_members(es, fields, true);
    lemma_select_members(es, fields, false);
}

fn has_field(fields: &Vec<&str>, key: &str) -> (r: bool)
    ensures
        r == fields_v(fields@).contains(key@),
{
    let mut i: usize = 0;
    while i < fields.len()
        invariant
            i <= fields@.len(),
            forall|k: int| 0 <= k < i ==> fields@[k]@ != key@,
        decreases fields@.len() - i,
    {
        if str_eq(fields[i], key) {
            assert(fields_v(fields@)[i as int] == key@);
            return true;
        }
        i += 1;
    }
    assert(!fields_v(fields@).contains(key@)) by {
        if fields_v(fields@).contains(key@) {
            let k = choose|k: int| 0 <= k < fields_v(fields@).len() && fields_v(fields@)[k] == key@;
            assert(fields@[k]@ == key@);
        }
    }
    false
}

fn select_fields(val: &Json, fields: &Vec<&str>, keep: bool) -> (r: Json)
    ensures
        r@ == select_fields_v(val@, fields_v(fields@), keep),
{
    match val {
        Json::Object(es) => {
            let ghost ev = entries_v(es@);
            proof { lemma_entries_v(*es); }
            let mut out: Vec<(String, Json)> = Vec::new();
            let mut i: usize = 0;
            while i < es.len()
                invariant
                    i <= es@.len(),
                    ev == entries_v(es@),
                    entries_v(out@) == select_entries(ev.take(i as int), fields_v(fields@), keep),
                decreases es@.len() - i,
            {
                assert(ev.take(i + 1).drop_last() =~= ev.take(i as int));
                assert(ev.take(i + 1).last() == ev[i as int]);
                if has_field(fields, es[i].0.as_str()) == keep {
                    let ghost before = entries_v(out@);
                    out.push((es[i].0.clone(), clone_json(&es[i].1)));
                    assert(entries_v(out@) =~= before.push(ev[i as int]));
                }
                i += 1;
            }
            assert(ev.take(es@.len() as int) =~= ev);
            object_of(out)
        },
        _ => clone_json(val),
    }
}

/// An object with only the given fields; other documents as they are.
pub fn keep_fields(val: &Json, fields: &Vec<&str>) -> (r: Json)
    ensures
        r@ == select_fields_v(val@, fields_v(fields@), true),
{
    select_fields(val, fields, true)
}

/// An object without the given fields; other documents as they are.
pub fn strip_fields(val: &Json, fields: &Vec<&str>) -> (r: Json)
    ensures
        r@ == select_fields_v(val@, fields_v(fields@), false),
{
    select_fields(val, fields, false)
}

/// The compact view of a job: only the fields that matter day to day.
pub fn compact_job(val: &Json) -> (r: Json)
    ensures
        r@ == select_fields_v(val@, jobs_compact_fields_v(), true),
{
    keep_fields(val, &jobs_compact_fields())
}

/// `f` applied to each element of an array, or to a single document.
pub open spec fn map_array_v(v: JsonV, f: spec_fn(JsonV) -> JsonV) -> JsonV {
    match v {
        JsonV::Array(a) => JsonV::Array(Seq::new(a.len(), |i: int| f(a[i]))),
        _ => f(v),
    }
}

/// The compact view of a job.
pub open spec fn compact_job_v() -> spec_fn(JsonV) -> JsonV {
    |v: JsonV| select_fields_v(v, jobs_compact_fields_v(), true)
}

/// The compact view of each job of a list (or of a single job).
pub fn compact_jobs(val: &Json) -> (r: Json)
    ensures
        r@ == map_array_v(val@, compact_job_v()),
{
    match val {
        Json::Array(a) => {
            proof { lemma_array_view(*a); }
            let mut out: Vec<Json> = Vec::new();
            let mut i: usize = 0;
            while i < a.len()
                invariant
                    i <= a@.len(),
                    out@.len() == i,
                    forall|k: int| 0 <= k < i ==> (#[trigger] out@[k])@ == compact_job_v()(a@[k]@),
                decreases a@.len() - i,
            {
                out.push(compact_job(&a[i]));
                i += 1;
            }
            let r = array_of(out);
            assert(r@->Array_0 =~= map_array_v(val@, compact_job_v())->Array_0);
            r
        },
        _ => compact_job(val),
    }
}

/// The compact view of a project: without its job and permission details.
pub fn compact_project(val: &Json) -> (r: Json)
    ensures
        r@ == select_fields_v(val@, project_strip_fields_v(), false),
{
    strip_fields(val, &project_strip_fields())
}

/// The compact view of a run: the job is replaced by its name and steps,
/// and the bookkeeping fields are dropped; other documents as they are.
pub open spec fn compact_run_v(v: JsonV) -> JsonV {
    match v {
        JsonV::Object(es) => {
            let job = obj_lookup(es, "job"@);
            let es1 = select_entries(es, seq!["job"@], false);
            let es2 = match job {
                Some(j) => match get_v(j, "name"@) {
                    Some(n) => obj_set(es1, "job_name"@, n),
                    None => es1,
                },
                None => es1,
            };
            let es3 = match job {
                Some(j) => match get_v(j, "execute_steps"@) {
                    Some(s) => obj_set(es2, "job_steps"@, s),
                    None => es2,
                },
                None => es2,
            };
            JsonV::Object(select_entries(es3, runs_strip_fields_v(), false))
        },
        _ => v,
    }
}

/// The compact view of a run.
pub fn compact_run(val: &Json) -> (r: Json)
    ensures
        r@ == compact_run_v(val@),
{
    match val {
        Json::Object(es) => {
            let ghost ev = entries_v(es@);
            proof { lemma_entries_v(*es); }
            let job = val.get("job");
            let jf = vec!["job"];
            assert(fields_v(jf@) =~= seq!["job"@]);
            let without = strip_fields(val, &jf);
            assert(without@ == JsonV::Object(select_entries(ev, seq!["job"@], false)));
            let mut out = without;
            match job {
                Some(j) => {
                    match j.get("name") {
                        Some(n) => { out = set_field(out, "job_name", clone_json(n)); },
                        None => {},
                    }
                    match j.get("execute_steps") {
                        Some(s) => { out = set_field(out, "job_steps", clone_json(s)); },
                        None => {},
                    }
                },
                None => {},
            }
            strip_fields(&out, &runs_strip_fields())
        },
        _ => clone_json(val),
    }
}

/// The compact view of a run.
pub open spec fn compact_run_fn() -> spec_fn(JsonV) -> JsonV {
    |v: JsonV| compact_run_v(v)
}

/// The compact view of each run of a list (or of a single run).
pub fn compact_runs(val: &Json) -> (r: Json)
    ensures
        r@ == map_array_v(val@, compact_run_fn()),
{
    match val {
        Json::Array(a) => {
            proof { lemma_array_view(*a); }
            let mut out: Vec<Json> = Vec::new();
            let mut i: usize = 0;
            while i < a.len()
                invariant
                    i <= a@.len(),
                    out@.len() == i,
                    forall|k: int| 0 <= k < i ==> (#[trigger] out@[k])@ == compact_run_fn()(a@[k]@),
                decreases a@.len() - i,
            {
                out.push(compact_run(&a[i]));
                i += 1;
            }
            let r = array_of(out);
            assert(r@->Array_0 =~= map_array_v(val@, compact_run_fn())->Array_0);
            r
        },
        _ => compact_run(val),
    }
}

/// An artifact path that the compact view keeps: not compiled SQL and not
/// run output.
pub open spec fn keeps_artifact(v: JsonV) -> bool {
    let s = match as_str_v(v) { Some(s) => s, None => Seq::empty() };
    !is_prefix("compiled/"@, s) && !is_prefix("run/"@, s)
}

/// The artifacts kept by the compact view, in order.
pub open spec fn kept_artifacts_v(a: Seq<JsonV>) -> Seq<JsonV>
    decreases a.len(),
{
    if a.len() == 0 {
        Seq::empty()
    } else {
        let rest = kept_artifacts_v(a.drop_last());
        if keeps_artifact(a.last()) { rest.push(a.last()) } else { rest }
    }
}

/// The compact list of a run's artifacts: without compiled SQL and run
/// output; a document that is not a list is left as it is.
pub fn compact_artifacts(val: &Json) -> (r: Json)
    ensures
        r@ == (match val@ {
            JsonV::Array(a) => JsonV::Array(kept_artifacts_v(a)),
            other => other,
        }),
{
    match val {
        Json::Array(a) => {
            let ghost av = vview(a@);
            proof { lemma_array_view(*a); assert(json_view_arr(a) =~= av); }
            let mut out: Vec<Json> = Vec::new();
            let mut i: usize = 0;
            while i < a.len()
                invariant
                    i <= a@.len(),
                    av == vview(a@),
                    vview(out@) == kept_artifacts_v(av.take(i as int)),
                decreases a@.len() - i,
            {
                assert(av.take(i + 1).drop_last() =~= av.take(i as int));
                assert(av.take(i + 1).last() == a@[i as int]@);
                let s: &str = match a[i].as_str() {
                    Some(s) => s,
                    None => "",
                };
                proof {
                    reveal_strlit("");
                    assert(""@ =~= Seq::<char>::empty());
                }
                if !str_starts_with(s, "compiled/") && !str_starts_with(s, "run/") {
                    let ghost before = vview(out@);
                    out.push(clone_json(&a[i]));
                    assert(vview(out@) =~= before.push(a@[i as int]@));
                }
                i += 1;
            }
            assert(av.take(a@.len() as int) =~= av);
            array_of(out)
        },
        _ => clone_json(val),
    }
}

/// The model of an array's elements.
pub open spec fn json_view_arr(a: &Vec<Json>) -> Seq<JsonV> {
    Json::Array(*a)@->Array_0
}

// ---------------------------------------------------------------------------
// Errors of a run
// ---------------------------------------------------------------------------

/// A line without the carriage return of a `\r\n` ending.
pub open spec fn strip_cr(line: Seq<char>) -> Seq<char> {
    if line.len() > 0 && line.last() == '\r' { line.drop_last() } else { line }
}

/// The lines of a text, as `str::lines` gives them: split at `\n`, a
/// trailing `\r` dropped from each line that ended in `\n`, and no empty
/// line after a final line ending.
pub open spec fn lines_v(s: Seq<char>) -> Seq<Seq<char>>
    decreases s.len(),
{
    if s.len() == 0 {
        Seq::empty()
    } else {
        let i = index_of_char(s, '\n');
        if i >= s.len() {
            seq![s]
        } else {
            proof { lemma_index_of_char_range(s, '\n'); }
            seq![strip_cr(s.subrange(0, i))] + lines_v(s.subrange(i + 1, s.len() as int))
        }
    }
}

/// The models of a list of texts.
pub open spec fn strings_v(v: Seq<String>) -> Seq<Seq<char>> {
    v.map_values(|s: String| s@)
}

/// The lines of a text (`str::lines`).
pub fn lines(s: &str) -> (r: Vec<String>)
    ensures
        strings_v(r@) == lines_v(s@),
{
    let cs = chars_of(s);
    let n = cs.len();
    let mut out: Vec<String> = Vec::new();
    let mut pos: usize = 0;
    assert(cs@.subrange(0, n as int) =~= s@);
    while pos < n
        invariant
            pos <= n,
            n == cs@.len(),
            cs@ == s@,
            lines_v(s@) == strings_v(out@) + lines_v(cs@.subrange(pos as int, n as int)),
        decreases n - pos,
    {
        let rest = slice(cs.as_slice(), pos, n);
        let ghost rv = rest@;
        proof { lemma_index_of_char_range(rv, '\n'); }
        let ghost before = strings_v(out@);
        match find_char(rest.as_slice(), '\n') {
            Some(i) => {
                proof { lemma_index_of_char(rv, '\n', i as int); }
                let mut line = slice(rest.as_slice(), 0, i);
                if line.len() > 0 && line[line.len() - 1] == '\r' {
                    line.pop();
                }
                assert(line@ == strip_cr(rv.subrange(0, i as int)));
                out.push(string_of(line.as_slice()));
                assert(rv.subrange(i + 1, rv.len() as int) =~= cs@.subrange(pos + i + 1, n as int));
                assert(strings_v(out@) =~= before + seq![strip_cr(rv.subrange(0, i as int))]);
                pos = pos + i + 1;
            },
            None => {
                proof { lemma_index_absent(rv, '\n'); }
                out.push(string_of(rest.as_slice()));
                assert(strings_v(out@) =~= before + seq![rv]);
                assert(cs@.subrange(n as int, n as int) =~= Seq::<char>::empty());
                pos = n;
            },
        }
    }
    assert(cs@.subrange(n as int, n as int) =~= Seq::<char>::empty());
    assert(strings_v(out@) + Seq::<Seq<char>>::empty() =~= strings_v(out@));
    out
}

/// The logs shown for a failed step: the last 50 lines when there are
/// more, else the logs as they are.
pub open spec fn relevant_logs_v(logs: Seq<char>) -> Seq<char> {
    let ls = lines_v(logs);
    if ls.len() > 50 {
        join_v(ls.subrange(ls.len() - 50, ls.len() as int), "\n"@)
    } else {
        logs
    }
}

/// The last 50 lines of a step's logs, or the logs as they are.
pub fn relevant_logs(logs: &str) -> (r: String)
    ensures
        r@ == relevant_logs_v(logs@),
{
    let ls = lines(logs);
    let n = ls.len();
    if n > 50 {
        let ghost lv = strings_v(ls@);
        let mut out = String::new();
        let mut i: usize = n - 50;
        while i < n
            invariant
                n - 50 <= i <= n,
                n > 50,
                n == ls@.len(),
                lv == strings_v(ls@),
                lv.len() == n,
                forall|k: int| 0 <= k < n ==> #[trigger] lv[k] == ls@[k]@,
                out@ == join_v(lv.subrange(n - 50, i as int), "\n"@),
            decreases n - i,
        {
            let ghost prev = lv.subrange(n - 50, i as int);
            assert(lv.subrange(n - 50, i + 1).drop_last() =~= prev);
            assert(lv.subrange(n - 50, i + 1).last() == ls@[i as int]@);
            if i == n - 50 {
                out = ls[i].clone();
                assert(lv.subrange(n - 50, i + 1) =~= seq![ls@[i as int]@]);
            } else {
                out = join3(out.as_str(), "\n", ls[i].as_str());
            }
            i += 1;
        }
        out
    } else {
        owned(logs)
    }
}

/// The status text of a step.
pub open spec fn step_status_v(step: JsonV) -> Seq<char> {
    match as_str_v(at_v(step, "status_humanized"@)) {
        Some(s) => s,
        None => Seq::empty(),
    }
}

/// A step status that counts as a failure.
pub open spec fn is_error_status(st: Seq<char>) -> bool {
    has_substring(st, "Error"@) || has_substring(st, "Fail"@) || st == "Cancelled"@
}

/// What is reported of a failed step: its index, name and status, and the
/// tail of its logs when it has logs.
pub open spec fn error_step_v(step: JsonV) -> JsonV {
    JsonV::Object(seq![("index"@, at_v(step, "index"@))]
        + (match as_str_v(at_v(step, "logs"@)) {
            Some(l) => seq![("logs"@, JsonV::Str(relevant_logs_v(l)))],
            None => Seq::empty(),
        })
        + seq![("name"@, at_v(step, "name"@)), ("status"@, JsonV::Str(step_status_v(step)))])
}

/// The failed steps, in order.
pub open spec fn error_steps_v(steps: Seq<JsonV>) -> Seq<JsonV>
    decreases steps.len(),
{
    if steps.len() == 0 {
        Seq::empty()
    } else {
        let rest = error_steps_v(steps.drop_last());
        if is_error_status(step_status_v(steps.last())) { rest.push(error_step_v(steps.last())) } else { rest }
    }
}

/// The steps of a run.
pub open spec fn run_steps_v(run: JsonV) -> Seq<JsonV> {
    match get_v(run, "run_steps"@) {
        Some(x) => match as_array_v(x) {
            Some(a) => a,
            None => Seq::empty(),
        },
        None => Seq::empty(),
    }
}

/// The error report of a run.
pub open spec fn run_errors_v(run: JsonV) -> JsonV {
    JsonV::Object(seq![
        ("error_steps"@, JsonV::Array(error_steps_v(run_steps_v(run)))),
        ("run_id"@, at_v(run, "id"@)),
        ("status"@, at_v(run, "status_humanized"@)),
    ])
}

fn error_step(step: &Json) -> (r: Json)
    ensures
        r@ == error_step_v(step@),
{
    let status = match str_at(step, "status_humanized") {
        Some(s) => owned(s),
        None => String::new(),
    };
    let mut es: Vec<(String, Json)> = Vec::new();
    es.push(entry("index", at(step, "index")));
    match str_at(step, "logs") {
        Some(l) => es.push(entry("logs", Json::String(relevant_logs(l)))),
        None => {},
    }
    es.push(entry("name", at(step, "name")));
    es.push(entry("status", Json::String(status)));
    let r = object_of(es);
    assert(r@->Object_0 =~= error_step_v(step@)->Object_0);
    r
}

/// Extracts the failed steps of a run (fetched with its steps): those whose
/// status mentions an error or a failure, or is "Cancelled".
pub fn extract_run_errors(run: &Json) -> (r: Json)
    ensures
        r@ == run_errors_v(run@),
{
    let mut errors: Vec<Json> = Vec::new();
    match run.get("run_steps") {
        Some(Json::Array(steps)) => {
            let ghost sv = vview(steps@);
            proof { lemma_array_view(*steps); assert(json_view_arr(steps) =~= sv); }
            let mut i: usize = 0;
            while i < steps.len()
                invariant
                    i <= steps@.len(),
                    sv == vview(steps@),
                    vview(errors@) == error_steps_v(sv.take(i as int)),
                decreases steps@.len() - i,
            {
                let step = &steps[i];
                assert(sv.take(i + 1).drop_last() =~= sv.take(i as int));
                assert(sv.take(i + 1).last() == step@);
                let status: &str = match str_at(step, "status_humanized") {
                    Some(s) => s,
                    None => "",
                };
                proof {
                    reveal_strlit("");
                    assert(""@ =~= Seq::<char>::empty());
                }
                assert(status@ == step_status_v(step@));
                if str_contains(status, "Error") || str_contains(status, "Fail") || str_eq(status, "Cancelled") {
                    let ghost before = vview(errors@);
                    errors.push(error_step(step));
                    assert(vview(errors@) =~= before.push(error_step_v(step@)));
                }
                i += 1;
            }
            assert(sv.take(steps@.len() as int) =~= sv);
        },
        _ => {
            assert(vview(errors@) =~= error_steps_v(run_steps_v(run@)));
        },
    }
    let r = object_of(vec![
        entry("error_steps", array_of(errors)),
        entry("run_id", at(run, "id")),
        entry("status", at(run, "status_humanized")),
    ]);
    assert(r@->Object_0 =~= run_errors_v(run@)->Object_0);
    r
}

// ---------------------------------------------------------------------------
// Waiting for runs
// ---------------------------------------------------------------------------

/// The status codes of a run that has ended: success, error, cancelled.
pub open spec fn is_terminal_v(status: u64) -> bool {
    status == 10 || status == 20 || status == 30
}

/// Whether a run status code means the run has ended.
pub fn is_terminal_status(status: u64) -> (r: bool)
    ensures
        r == is_terminal_v(status),
{
    status == 10 || status == 20 || status == 30
}

/// A run's status text, or "Unknown".
pub open spec fn status_text_v(run: JsonV) -> Seq<char> {
    match as_str_v(at_v(run, "status_humanized"@)) {
        Some(s) => s,
        None => "Unknown"@,
    }
}

/// How a run is recognised as ended while waiting for it.
#[derive(Debug, Clone, Copy, PartialEq, Eq)]
pub enum EndSignal {
    /// The run reports `is_complete`.
    Complete,
    /// The run's status code is terminal.
    TerminalStatus,
}

/// The run has ended, by the given signal.
pub open spec fn run_ended_v(run: JsonV, signal: EndSignal) -> bool {
    match signal {
        EndSignal::Complete => as_bool_v(at_v(run, "is_complete"@)) == Some(true),
        EndSignal::TerminalStatus => is_terminal_v(match as_u64_v(at_v(run, "status"@)) { Some(c) => c, None => 0 }),
    }
}

/// What to do after looking at a run while waiting for it.
#[derive(Debug, Clone, Copy, PartialEq, Eq)]
pub enum WaitOutcome {
    /// The run has ended.
    Ended,
    /// Look again after the polling interval.
    Poll,
}

/// The message given when waiting for a run times out.
pub open spec fn timeout_msg(run_id: u64, timeout: u64) -> Seq<char> {
    "Timeout waiting for run "@ + spec_decimal(run_id as nat) + " after "@ + spec_decimal(timeout as nat) + "s"@
}

/// The state of waiting for a run: the last status reported.
pub struct RunWatch {
    pub last_status: String,
}

impl RunWatch {
    /// Waiting before the first look at the run.
    pub fn new() -> (r: RunWatch)
        ensures
            r.last_status@ == Seq::<char>::empty(),
    {
        RunWatch { last_status: String::new() }
    }

    /// Looks at the run after `elapsed` seconds: reports the status line
    /// `Run {id}: {status}` when the status changed, and decides whether the
    /// run has ended, the wait timed out, or polling goes on.
    pub fn observe(&mut self, run: &Json, run_id: u64, elapsed: u64, timeout: u64, signal: EndSignal)
        -> (r: (Option<String>, Result<WaitOutcome, DbtpError>))
        ensures
            ({
                let st = status_text_v(run@);
                &&& final(self).last_status@ == st
                &&& (st != old(self).last_status@) == (r.0 is Some)
                &&& r.0 is Some ==> r.0->0@ == "Run "@ + spec_decimal(run_id as nat) + ": "@ + st
                &&& run_ended_v(run@, signal) ==> (r.1 matches Ok(WaitOutcome::Ended))
                &&& !run_ended_v(run@, signal) && elapsed >= timeout ==> (r.1 matches Err(e) && config_error(e, timeout_msg(run_id, timeout)))
                &&& !run_ended_v(run@, signal) && elapsed < timeout ==> (r.1 matches Ok(WaitOutcome::Poll))
            }),
    {
        let status = match str_at(run, "status_humanized") {
            Some(s) => owned(s),
            None => owned("Unknown"),
        };
        let line = if !str_eq(status.as_str(), self.last_status.as_str()) {
            let id = u64_to_string(run_id);
            let head = join3("Run ", id.as_str(), ": ");
            Some(join2(head.as_str(), status.as_str()))
        } else {
            None
        };
        self.last_status = status;
        let ended = match signal {
            EndSignal::Complete => match bool_at(run, "is_complete") {
                Some(b) => b,
                None => false,
            },
            EndSignal::TerminalStatus => {
                let code = match u64_at(run, "status") {
                    Some(c) => c,
                    None => 0,
                };
                is_terminal_status(code)
            },
        };
        if ended {
            return (line, Ok(WaitOutcome::Ended));
        }
        if elapsed >= timeout {
            let a = join3("Timeout waiting for run ", u64_to_string(run_id).as_str(), " after ");
            let msg = join3(a.as_str(), u64_to_string(timeout).as_str(), "s");
            return (line, Err(DbtpError::Config(msg)));
        }
        (line, Ok(WaitOutcome::Poll))
    }
}

/// The message shown when waiting for a triggered run starts.
pub fn waiting_message(run_id: u64, interval: u64, timeout: u64) -> (r: String)
    ensures
        r@ == "Waiting for run "@ + spec_decimal(run_id as nat) + " (polling every "@ + spec_decimal(interval as nat)
            + "s, timeout "@ + spec_decimal(timeout as nat) + "s)..."@,
{
    let a = join3("Waiting for run ", u64_to_string(run_id).as_str(), " (polling every ");
    let b = join3(a.as_str(), u64_to_string(interval).as_str(), "s, timeout ");
    join3(b.as_str(), u64_to_string(timeout).as_str(), "s)...")
}

/// The message given when a trigger answer names no run.
pub open spec fn missing_run_msg() -> Seq<char> {
    "Trigger response missing run id"@
}

/// The id of the run a trigger started.
pub fn triggered_run_id(run: &Json) -> (r: Result<u64, DbtpError>)
    ensures
        as_u64_v(at_v(run@, "id"@)) matches Some(id) ==> r == Ok::<u64, DbtpError>(id),
        as_u64_v(at_v(run@, "id"@)) is None ==> (r matches Err(e) && config_error(e, missing_run_msg())),
{
    match u64_at(run, "id") {
        Some(id) => Ok(id),
        None => Err(DbtpError::config("Trigger response missing run id")),
    }
}

// ---------------------------------------------------------------------------
// Request bodies and parameters
// ---------------------------------------------------------------------------

/// An optional entry of an object.
pub open spec fn maybe_entry(key: Seq<char>, v: Option<String>) -> Seq<(Seq<char>, JsonV)> {
    match v {
        Some(s) => seq![(key, JsonV::Str(s@))],
        None => Seq::empty(),
    }
}

fn push_maybe(es: &mut Vec<(String, Json)>, key: &str, v: &Option<String>)
    ensures
        entries_v(final(es)@) == entries_v(old(es)@) + maybe_entry(key@, *v),
{
    let ghost before = entries_v(es@);
    match v {
        Some(s) => {
            es.push(entry(key, Json::str(s.as_str())));
            assert(entries_v(es@) =~= before + seq![(key@, JsonV::Str(s@))]);
        },
        None => {
            assert(entries_v(es@) =~= before + Seq::empty());
        },
    }
}

/// The body that triggers a job: the cause (by default "Triggered via dbtp
/// CLI") and, when given, the git branch and sha.
pub fn trigger_body(cause: &Option<String>, git_branch: &Option<String>, git_sha: &Option<String>) -> (r: Json)
    ensures
        r@ == JsonV::Object(seq![("cause"@, JsonV::Str(match cause { Some(c) => c@, None => "Triggered via dbtp CLI"@ }))]
            + maybe_entry("git_branch"@, *git_branch) + maybe_entry("git_sha"@, *git_sha)),
{
    let c = match cause {
        Some(c) => c.clone(),
        None => owned("Triggered via dbtp CLI"),
    };
    let ghost cv = c@;
    let mut es: Vec<(String, Json)> = Vec::new();
    es.push(entry("cause", Json::String(c)));
    assert(entries_v(es@) =~= seq![("cause"@, JsonV::Str(cv))]);
    push_maybe(&mut es, "git_branch", git_branch);
    push_maybe(&mut es, "git_sha", git_sha);
    let r = object_of(es);
    r
}

/// The body that updates a project: its description and name, when given.
pub fn project_update_body(name: &Option<String>, description: &Option<String>) -> (r: Json)
    ensures
        r@ == JsonV::Object(maybe_entry("description"@, *description) + maybe_entry("name"@, *name)),
{
    let mut es: Vec<(String, Json)> = Vec::new();
    assert(entries_v(es@) =~= Seq::<(Seq<char>, JsonV)>::empty());
    push_maybe(&mut es, "description", description);
    push_maybe(&mut es, "name", name);
    assert(entries_v(es@) =~= maybe_entry("description"@, *description) + maybe_entry("name"@, *name));
    object_of(es)
}

/// The body that creates a project: its description, when given, and name.
pub fn project_create_body(name: &str, description: &Option<String>) -> (r: Json)
    ensures
        r@ == JsonV::Object(maybe_entry("description"@, *description) + seq![("name"@, JsonV::Str(name@))]),
{
    let mut es: Vec<(String, Json)> = Vec::new();
    assert(entries_v(es@) =~= Seq::<(Seq<char>, JsonV)>::empty());
    push_maybe(&mut es, "description", description);
    let ghost before = entries_v(es@);
    es.push(entry("name", Json::str(name)));
    assert(entries_v(es@) =~= before + seq![("name"@, JsonV::Str(name@))]);
    object_of(es)
}

/// The body that renames a job or an environment: the name, when given.
pub fn rename_body(name: &Option<String>) -> (r: Json)
    ensures
        r@ == JsonV::Object(maybe_entry("name"@, *name)),
{
    let mut es: Vec<(String, Json)> = Vec::new();
    assert(entries_v(es@) =~= Seq::<(Seq<char>, JsonV)>::empty());
    push_maybe(&mut es, "name", name);
    assert(entries_v(es@) =~= maybe_entry("name"@, *name));
    object_of(es)
}

/// The body that creates a job.
pub fn job_create_body(name: &str, project_id: u64, environment_id: u64) -> (r: Json)
    ensures
        r@ == JsonV::Object(seq![
            ("environment_id"@, u64_v(environment_id)),
            ("name"@, JsonV::Str(name@)),
            ("project_id"@, u64_v(project_id)),
        ]),
{
    let r = object_of(vec![
        entry("environment_id", Json::from_u64(environment_id)),
        entry("name", Json::str(name)),
        entry("project_id", Json::from_u64(project_id)),
    ]);
    assert(r@->Object_0 =~= seq![
        ("environment_id"@, u64_v(environment_id)),
        ("name"@, JsonV::Str(name@)),
        ("project_id"@, u64_v(project_id)),
    ]);
    r
}

/// The body that creates an environment.
pub fn environment_create_body(name: &str, env_type: &str, project_id: u64) -> (r: Json)
    ensures
        r@ == JsonV::Object(seq![
            ("name"@, JsonV::Str(name@)),
            ("project_id"@, u64_v(project_id)),
            ("type"@, JsonV::Str(env_type@)),
        ]),
{
    let r = object_of(vec![
        entry("name", Json::str(name)),
        entry("project_id", Json::from_u64(project_id)),
        entry("type", Json::str(env_type)),
    ]);
    assert(r@->Object_0 =~= seq![
        ("name"@, JsonV::Str(name@)),
        ("project_id"@, u64_v(project_id)),
        ("type"@, JsonV::Str(env_type@)),
    ]);
    r
}

/// An optional query parameter.
pub open spec fn maybe_param(key: Seq<char>, v: Option<Seq<char>>) -> Seq<(Seq<char>, Seq<char>)> {
    match v {
        Some(s) => seq![(key, s)],
        None => Seq::empty(),
    }
}

/// The model of query parameters.
pub open spec fn params_of(p: Seq<(String, String)>) -> Seq<(Seq<char>, Seq<char>)> {
    Seq::new(p.len(), |i: int| (p[i].0@, p[i].1@))
}

fn push_param(ps: &mut Vec<(String, String)>, key: &str, v: Option<String>)
    ensures
        params_of(final(ps)@) == params_of(old(ps)@) + maybe_param(key@, opt_v(v)),
{
    let ghost before = params_of(ps@);
    match v {
        Some(s) => {
            let ghost sv = s@;
            ps.push((owned(key), s));
            assert(params_of(ps@) =~= before + seq![(key@, sv)]);
        },
        None => {
            assert(params_of(ps@) =~= before + Seq::empty());
        },
    }
}

fn opt_decimal(v: Option<u64>) -> (r: Option<String>)
    ensures
        opt_v(r) == (match v { Some(n) => Some(spec_decimal(n as nat)), None => None }),
{
    match v {
        Some(n) => Some(u64_to_string(n)),
        None => None,
    }
}

/// The query parameters for listing runs: by job and by status, when given.
pub fn runs_list_params(job_id: Option<u64>, status: &Option<String>) -> (r: Vec<(String, String)>)
    ensures
        params_of(r@) == maybe_param("job_definition_id"@, match job_id { Some(n) => Some(spec_decimal(n as nat)), None => None })
            + maybe_param("status"@, opt_v(*status)),
{
    let mut ps: Vec<(String, String)> = Vec::new();
    assert(params_of(ps@) =~= Seq::<(Seq<char>, Seq<char>)>::empty());
    push_param(&mut ps, "job_definition_id", opt_decimal(job_id));
    let st = match status {
        Some(s) => Some(s.clone()),
        None => None,
    };
    push_param(&mut ps, "status", st);
    ps
}

/// The query parameters for listing jobs: by project and by environment,
/// when given.
pub fn jobs_list_params(project_id: Option<u64>, environment_id: Option<u64>) -> (r: Vec<(String, String)>)
    ensures
        params_of(r@) == maybe_param("project_id"@, match project_id { Some(n) => Some(spec_decimal(n as nat)), None => None })
            + maybe_param("environment_id"@, match environment_id { Some(n) => Some(spec_decimal(n as nat)), None => None }),
{
    let mut ps: Vec<(String, String)> = Vec::new();
    assert(params_of(ps@) =~= Seq::<(Seq<char>, Seq<char>)>::empty());
    push_param(&mut ps, "project_id", opt_decimal(project_id));
    push_param(&mut ps, "environment_id", opt_decimal(environment_id));
    ps
}

/// The query parameters for listing audit log events: the related objects
/// to include, when given.
pub fn audit_list_params(include_related: &Option<String>) -> (r: Vec<(String, String)>)
    ensures
        params_of(r@) == maybe_param("include_related"@, opt_v(*include_related)),
{
    let mut ps: Vec<(String, String)> = Vec::new();
    assert(params_of(ps@) =~= Seq::<(Seq<char>, Seq<char>)>::empty());
    let v = match include_related {
        Some(s) => Some(s.clone()),
        None => None,
    };
    push_param(&mut ps, "include_related", v);
    ps
}

} // verus!
