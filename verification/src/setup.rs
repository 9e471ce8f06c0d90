//! The decisions of `configure` and `init`: reading what the user typed and
//! offering projects and environments to pick from.
use vstd::prelude::*;
use crate::error::{config_error, DbtpError};
use crate::json::{Json, JsonV, as_str_v, as_u64_v, at_v, vview, str_at, u64_at};
use crate::text::{
    chars_of, eq_ascii_nocase, eq_ignore_ascii_case, is_prefix, join2, join3, owned, parse_u64, spec_decimal, spec_parse_u64,
    spec_trim, str_starts_with, trim, u64_to_string,
};

verus! {

/// A host as typed, with `https://` put in front when it names neither
/// `https://` nor `http://`.
pub open spec fn with_scheme_v(h: Seq<char>) -> Seq<char> {
    if is_prefix("https://"@, h) || is_prefix("http://"@, h) {
        h
    } else {
        "https://"@ + h
    }
}

/// Puts a scheme in front of a typed host that has none.
pub fn with_scheme(host: String) -> (r: String)
    ensures
        r@ == with_scheme_v(host@),
{
    if !str_starts_with(host.as_str(), "https://") && !str_starts_with(host.as_str(), "http://") {
        join2("https://", host.as_str())
    } else {
        host
    }
}

/// The message for an account id that is not a number.
pub open spec fn account_id_msg() -> Seq<char> {
    "Account ID must be a number"@
}

/// `configure`: an empty account id is none; anything else must be a number.
pub fn optional_account_id(s: &str) -> (r: Result<Option<u64>, DbtpError>)
    ensures
        s@.len() == 0 ==> r == Ok::<Option<u64>, DbtpError>(None),
        s@.len() > 0 ==> (r is Ok <==> spec_parse_u64(s@) is Some),
        s@.len() > 0 ==> (r matches Ok(v) ==> v == spec_parse_u64(s@)),
        r matches Err(e) ==> config_error(e, account_id_msg()),
{
    if s.is_empty() {
        Ok(None)
    } else {
        match parse_u64(s) {
            Some(n) => Ok(Some(n)),
            None => Err(DbtpError::config("Account ID must be a number")),
        }
    }
}

/// `init`: the account id must be a number.
pub fn required_account_id(s: &str) -> (r: Result<u64, DbtpError>)
    ensures
        r is Ok <==> spec_parse_u64(s@) is Some,
        r matches Ok(v) ==> Some(v) == spec_parse_u64(s@),
        r matches Err(e) ==> config_error(e, account_id_msg()),
{
    match parse_u64(s) {
        Some(n) => Ok(n),
        None => Err(DbtpError::config("Account ID must be a number")),
    }
}

/// An optional answer: nothing when it is empty.
pub fn optional_text(s: String) -> (r: Option<String>)
    ensures
        s@.len() == 0 ==> r is None,
        s@.len() > 0 ==> (r matches Some(t) && t@ == s@),
{
    if s.as_str().is_empty() {
        None
    } else {
        Some(s)
    }
}

/// The label and id offered for a listed project or environment: its name
/// (for an environment, followed by `, ` and its type, `unknown` when it has
/// none) and its id; nothing when the name or id is missing.
pub open spec fn choice_v(item: JsonV, with_type: bool) -> Option<(Seq<char>, Seq<char>)> {
    match (as_str_v(at_v(item, "name"@)), as_u64_v(at_v(item, "id"@))) {
        (Some(name), Some(id)) => Some((
            if with_type {
                name + ", "@ + (match as_str_v(at_v(item, "type"@)) {
                    Some(t) => t,
                    None => "unknown"@,
                })
            } else {
                name
            },
            spec_decimal(id as nat),
        )),
        _ => None,
    }
}

/// The present values of a list of optional ones, in order.
pub open spec fn somes<T>(s: Seq<Option<T>>) -> Seq<T>
    decreases s.len(),
{
    if s.len() == 0 {
        Seq::empty()
    } else {
        let rest = somes(s.drop_last());
        match s.last() {
            Some(x) => rest.push(x),
            None => rest,
        }
    }
}

/// The choices offered for a list of projects or environments.
pub open spec fn choices_v(items: Seq<JsonV>, with_type: bool) -> Seq<(Seq<char>, Seq<char>)> {
    somes(items.map_values(|p: JsonV| choice_v(p, with_type)))
}

/// The models of labelled ids.
pub open spec fn pairs_v(v: Seq<(String, String)>) -> Seq<(Seq<char>, Seq<char>)> {
    v.map_values(|e: (String, String)| (e.0@, e.1@))
}

fn choice_of(item: &Json, with_type: bool) -> (r: Option<(String, String)>)
    ensures
        match r {
            Some(c) => choice_v(item@, with_type) == Some((c.0@, c.1@)),
            None => choice_v(item@, with_type) is None,
        },
{
    match (str_at(item, "name"), u64_at(item, "id")) {
        (Some(name), Some(id)) => {
            let label = if with_type {
                let t = match str_at(item, "type") {
                    Some(t) => owned(t),
                    None => owned("unknown"),
                };
                join3(name, ", ", t.as_str())
            } else {
                owned(name)
            };
            Some((label, u64_to_string(id)))
        },
        _ => None,
    }
}

fn choices(items: &Vec<Json>, with_type: bool) -> (r: Vec<(String, String)>)
    ensures
        pairs_v(r@) == choices_v(vview(items@), with_type),
{
    let ghost mapped = vview(items@).map_values(|p: JsonV| choice_v(p, with_type));
    let mut out: Vec<(String, String)> = Vec::new();
    let mut i: usize = 0;
    while i < items.len()
        invariant
            i <= items@.len(),
            mapped == vview(items@).map_values(|p: JsonV| choice_v(p, with_type)),
            pairs_v(out@) == somes(mapped.take(i as int)),
        decreases items@.len() - i,
    {
        let c = choice_of(&items[i], with_type);
        proof {
            assert(mapped.take(i as int + 1).drop_last() =~= mapped.take(i as int));
            assert(mapped.take(i as int + 1).last() == choice_v(items@[i as int]@, with_type));
        }
        match c {
            Some(pair) => {
                let ghost before = out@;
                out.push(pair);
                assert(pairs_v(out@) =~= pairs_v(before).push((out@.last().0@, out@.last().1@)));
            },
            None => {},
        }
        i += 1;
    }
    assert(mapped.take(items@.len() as int) =~= mapped);
    out
}

/// The projects offered to pick from: name and id of each listed project.
pub fn project_choices(items: &Vec<Json>) -> (r: Vec<(String, String)>)
    ensures
        pairs_v(r@) == choices_v(vview(items@), false),
{
    choices(items, false)
}

/// The environments offered to pick from: `name, type` and id of each.
pub fn environment_choices(items: &Vec<Json>) -> (r: Vec<(String, String)>)
    ensures
        pairs_v(r@) == choices_v(vview(items@), true),
{
    choices(items, true)
}

/// Putting a scheme in front of a host is done once: a host that already
/// went through it comes back unchanged, and it always names a scheme.
pub proof fn law_with_scheme_idempotent(h: Seq<char>)
    ensures
        with_scheme_v(with_scheme_v(h)) == with_scheme_v(h),
        is_prefix("https://"@, with_scheme_v(h)) || is_prefix("http://"@, with_scheme_v(h)),
{
    if !(is_prefix("https://"@, h) || is_prefix("http://"@, h)) {
        let r = "https://"@ + h;
        assert(r.subrange(0, "https://"@.len() as int) =~= "https://"@);
    }
}

/// What a prompt gives for a typed line: the trimmed line, or the default
/// when nothing was typed.
pub fn prompt_answer(input: &str, default: &str) -> (r: String)
    ensures
        spec_trim(input@).len() == 0 ==> r@ == default@,
        spec_trim(input@).len() > 0 ==> r@ == spec_trim(input@),
{
    let t = trim(input);
    if t.as_str().is_empty() {
        owned(default)
    } else {
        t
    }
}

/// The item picked from a numbered menu of `count` items: a number from 1
/// to `count` picks that item (as its position from 0); `s` (in any case),
/// an empty answer or anything else picks none.
pub open spec fn menu_choice_v(choice: Seq<char>, count: nat) -> Option<nat> {
    if eq_ascii_nocase(choice, "s"@) || choice.len() == 0 {
        None
    } else {
        match spec_parse_u64(choice) {
            Some(n) => if 1 <= n <= count { Some((n - 1) as nat) } else { None },
            None => None,
        }
    }
}

/// Reads the answer to a numbered menu.
pub fn menu_choice(choice: &str, count: usize) -> (r: Option<usize>)
    ensures
        match menu_choice_v(choice@, count as nat) {
            Some(i) => r == Some(i as usize),
            None => r is None,
        },
{
    let c = chars_of(choice);
    let s = chars_of("s");
    if eq_ignore_ascii_case(c.as_slice(), s.as_slice()) || c.len() == 0 {
        return None;
    }
    match parse_u64(choice) {
        Some(n) => {
            if 1 <= n && n <= count as u64 {
                Some((n - 1) as usize)
            } else {
                None
            }
        },
        None => None,
    }
}

} // verus!
