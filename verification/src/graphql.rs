//! GraphQL requests: their body, their address, and what their answers
//! say about errors.
use vstd::prelude::*;

use crate::config::opt_v;
use crate::error::{api_error, graphql_error, DbtpError};
use crate::json::{
    as_array_v, as_str_v, at_v, entry, get_v, group_json_view, lemma_array_view,
    object_of, str_at, Json, JsonV,
};
use crate::rest::{is_success, unwrap_envelope, unwrap_envelope_v};
use crate::text::{join2, join3, join_v, owned, trim_end_char, trim_end_matches};

verus! {

broadcast use group_json_view;

/// The messages of the entries of an `errors` array, in order.
pub open spec fn error_messages_v(errs: Seq<JsonV>) -> Seq<Seq<char>>
    decreases errs.len(),
{
    if errs.len() == 0 {
        Seq::empty()
    } else {
        let rest = error_messages_v(errs.drop_last());
        match as_str_v(at_v(errs.last(), "message"@)) {
            Some(m) => rest.push(m),
            None => rest,
        }
    }
}

/// The error message of a GraphQL answer: the messages of its `errors`,
/// joined by `; `, else its `message`, `error` or `detail`.
pub open spec fn error_message_v(body: JsonV) -> Option<Seq<char>> {
    let from_errors = match get_v(body, "errors"@) {
        Some(e) => match as_array_v(e) {
            Some(a) => error_messages_v(a),
            None => Seq::empty(),
        },
        None => Seq::empty(),
    };
    if from_errors.len() > 0 {
        Some(join_v(from_errors, "; "@))
    } else if as_str_v(at_v(body, "message"@)) is Some {
        as_str_v(at_v(body, "message"@))
    } else if as_str_v(at_v(body, "error"@)) is Some {
        as_str_v(at_v(body, "error"@))
    } else {
        as_str_v(at_v(body, "detail"@))
    }
}

/// Finds the error message of a GraphQL answer, if it has one.
pub fn extract_error_message(body: &Json) -> (r: Option<String>)
    ensures
        opt_v(r) == error_message_v(body@),
{
    let ghost errs_v = match get_v(body@, "errors"@) {
        Some(e) => match as_array_v(e) {
            Some(a) => error_messages_v(a),
            None => Seq::empty(),
        },
        None => Seq::empty(),
    };
    let mut joined = String::new();
    let mut count: usize = 0;
    match body.get("errors") {
        Some(Json::Array(errors)) => {
            let ghost ev = json_view_of(errors);
            proof { lemma_array_view(*errors); }
            let mut i: usize = 0;
            while i < errors.len()
                invariant
                    i <= errors@.len(),
                    ev.len() == errors@.len(),
                    forall|k: int| 0 <= k < errors@.len() ==> ev[k] == (#[trigger] errors@[k])@,
                    count == error_messages_v(ev.take(i as int)).len(),
                    joined@ == join_v(error_messages_v(ev.take(i as int)), "; "@),
                    count <= i,
                decreases errors@.len() - i,
            {
                assert(ev.take(i + 1).drop_last() =~= ev.take(i as int));
                assert(ev.take(i + 1).last() == errors@[i as int]@);
                let ghost prev = error_messages_v(ev.take(i as int));
                if let Some(m) = str_at(&errors[i], "message") {
                    assert(prev.push(m@).drop_last() =~= prev);
                    if count == 0 {
                        joined = owned(m);
                    } else {
                        joined = join3(joined.as_str(), "; ", m);
                    }
                    count += 1;
                }
                i += 1;
            }
            assert(ev.take(errors@.len() as int) =~= ev);
            assert(errs_v == error_messages_v(ev));
        },
        _ => {
            assert(errs_v == Seq::<Seq<char>>::empty());
        },
    }
    if count > 0 {
        return Some(joined);
    }
    if let Some(m) = str_at(body, "message") {
        return Some(owned(m));
    }
    if let Some(m) = str_at(body, "error") {
        return Some(owned(m));
    }
    if let Some(m) = str_at(body, "detail") {
        return Some(owned(m));
    }
    None
}

/// The model of an array's elements.
pub open spec fn json_view_of(a: &Vec<Json>) -> Seq<JsonV> {
    Json::Array(*a)@->Array_0
}

/// Checks a GraphQL answer: a failed status gives an API error with the
/// answer's message (or "GraphQL request failed"); a successful one that
/// carries an error message gives a GraphQL error.
pub fn check_graphql_response(status: u16, body: &Json) -> (r: Result<(), DbtpError>)
    ensures
        !is_success(status) ==> (r matches Err(e) && api_error(e, status,
            match error_message_v(body@) { Some(m) => m, None => "GraphQL request failed"@ })),
        is_success(status) && error_message_v(body@) is Some ==>
            (r matches Err(e) && graphql_error(e, error_message_v(body@)->0)),
        is_success(status) && error_message_v(body@) is None ==> r is Ok,
{
    let msg = extract_error_message(body);
    if !(200 <= status && status <= 299) {
        return match msg {
            Some(m) => Err(DbtpError::api(status, m.as_str())),
            None => Err(DbtpError::api(status, "GraphQL request failed")),
        };
    }
    match msg {
        Some(m) => Err(DbtpError::graphql(m.as_str())),
        None => Ok(()),
    }
}

/// The body of a GraphQL request: the query and its variables (an empty
/// object when there are none).
pub open spec fn request_body_v(query: Seq<char>, variables: Option<JsonV>) -> JsonV {
    JsonV::Object(seq![
        ("query"@, JsonV::Str(query)),
        ("variables"@, match variables { Some(v) => v, None => JsonV::Object(Seq::empty()) }),
    ])
}

/// `{"query": .., "variables": ..}`.
pub fn request_body(query: &str, variables: Option<Json>) -> (r: Json)
    ensures
        r@ == request_body_v(query@, match variables { Some(v) => Some(v@), None => None }),
{
    let vars = match variables {
        Some(v) => v,
        None => Json::empty_object(),
    };
    let r = object_of(vec![entry("query", Json::str(query)), entry("variables", vars)]);
    assert(r@->Object_0 =~= request_body_v(query@, match variables { Some(v) => Some(v@), None => None })->Object_0);
    r
}

/// The outcome of a GraphQL exchange: the answer's `data` when it checks out.
pub fn graphql_result(status: u16, body: Json) -> (r: Result<Json, DbtpError>)
    ensures
        is_success(status) && error_message_v(body@) is None ==> (r matches Ok(v) && v@ == unwrap_envelope_v(body@)),
        !is_success(status) ==> (r matches Err(e) && api_error(e, status,
            match error_message_v(body@) { Some(m) => m, None => "GraphQL request failed"@ })),
        is_success(status) && error_message_v(body@) is Some ==>
            (r matches Err(e) && graphql_error(e, error_message_v(body@)->0)),
{
    check_graphql_response(status, &body)?;
    Ok(unwrap_envelope(body))
}

/// The address of a Discovery endpoint: `{host}/{path}`.
pub fn discovery_endpoint(host: &str, path: &str) -> (r: String)
    ensures
        r@ == trim_end_char(host@, '/') + "/"@ + path@,
{
    let h = trim_end_matches(host, '/');
    join3(h.as_str(), "/", path)
}

/// The address of the Semantic Layer GraphQL endpoint.
pub fn semantic_layer_endpoint(host: &str) -> (r: String)
    ensures
        r@ == trim_end_char(host@, '/') + "/api/graphql"@,
{
    let h = trim_end_matches(host, '/');
    join2(h.as_str(), "/api/graphql")
}

/// The `Authorization` value for a token.
pub fn bearer(token: &str) -> (r: String)
    ensures
        r@ == "Bearer "@ + token@,
{
    join2("Bearer ", token)
}

} // verus!
