//! Audit logs: which events an export keeps, and where the export goes.
use vstd::prelude::*;

use crate::config::opt_v;
use crate::json::{as_str_v, at_v, clone_json, str_at, vview, Json, JsonV};
use crate::text::{
    index_of_char, is_prefix, is_suffix, join3, lemma_index_absent, lemma_index_of_char, owned, str_ends_with,
    str_eq, str_starts_with, strip_prefix, chars_of, find_char, slice, string_of,
};

verus! {

// ---------------------------------------------------------------------------
// Points in time
// ---------------------------------------------------------------------------

/// A point in time in UTC: whole seconds since the Unix epoch and the
/// nanoseconds within the second (a leap second counts past 999,999,999).
#[derive(Debug, Clone, Copy, PartialEq, Eq)]
pub struct Timestamp {
    pub secs: i64,
    pub nanos: u32,
}

/// What `DateTime<Utc>`'s `FromStr` (chrono) makes of a text: the seconds
/// and nanoseconds of the point in time it names, if it is a relaxed
/// RFC 3339 date and time.
pub uninterp spec fn spec_parse_utc(s: Seq<char>) -> Option<(i64, u32)>;

/// The `%Y-%m-%d` date of a point in time in UTC (chrono), when chrono can
/// represent it.
pub uninterp spec fn spec_utc_date(secs: i64, nanos: u32) -> Option<Seq<char>>;

/// `s.parse::<DateTime<Utc>>()` (chrono), as seconds and nanoseconds.
/// chrono documents that `DateTime::from_timestamp` round-trips with
/// `timestamp` and `timestamp_subsec_nanos`, so a parsed point in time
/// always has a date; nothing else is claimed of the result beyond its name.
#[verifier::external_body]
fn parse_utc(s: &str) -> (r: Option<(i64, u32)>)
    ensures
        r == spec_parse_utc(s@),
        r matches Some(t) ==> spec_utc_date(t.0, t.1) is Some,
{
    match s.parse::<chrono::DateTime<chrono::Utc>>() {
        Ok(dt) => Some((dt.timestamp(), dt.timestamp_subsec_nanos())),
        Err(_) => None,
    }
}

/// `DateTime::from_timestamp` followed by `format("%Y-%m-%d")` (chrono):
/// the date of a point in time, if chrono can represent it.
#[verifier::external_body]
fn utc_date(secs: i64, nanos: u32) -> (r: Option<String>)
    ensures
        opt_v(r) == spec_utc_date(secs, nanos),
{
    match chrono::DateTime::from_timestamp(secs, nanos) {
        Some(d) => Some(d.format("%Y-%m-%d").to_string()),
        None => None,
    }
}

/// Parses an RFC 3339 date and time (as chrono accepts it) into a point in time.
pub fn parse_timestamp(s: &str) -> (r: Option<Timestamp>)
    ensures
        r matches Some(t) ==> spec_parse_utc(s@) == Some((t.secs, t.nanos)) && spec_utc_date(t.secs, t.nanos) is Some,
        r is None ==> spec_parse_utc(s@) is None,
{
    match parse_utc(s) {
        Some((secs, nanos)) => Some(Timestamp { secs, nanos }),
        None => None,
    }
}

/// `a` is at or after `b`.
pub open spec fn at_or_after(a: (i64, u32), b: Timestamp) -> bool {
    a.0 > b.secs || (a.0 == b.secs && a.1 >= b.nanos)
}

/// An event is exported when it has no parseable `created_at`, or when
/// that is at or after `since`.
pub open spec fn event_kept(event: JsonV, since: Timestamp) -> bool {
    match as_str_v(at_v(event, "created_at"@)) {
        Some(s) => match spec_parse_utc(s) {
            Some(t) => at_or_after(t, since),
            None => true,
        },
        None => true,
    }
}

/// Returns true if the event has no parseable `created_at`, or if it is at
/// or after `since`.
pub fn event_at_or_after(event: &Json, since: &Timestamp) -> (r: bool)
    ensures
        r == event_kept(event@, *since),
{
    match str_at(event, "created_at") {
        Some(s) => match parse_utc(s) {
            Some((secs, nanos)) => secs > since.secs || (secs == since.secs && nanos >= since.nanos),
            None => true,
        },
        None => true,
    }
}

/// The events kept by an export, in order.
pub open spec fn events_since_v(events: Seq<JsonV>, since: Timestamp) -> Seq<JsonV>
    decreases events.len(),
{
    if events.len() == 0 {
        Seq::empty()
    } else {
        let rest = events_since_v(events.drop_last(), since);
        if event_kept(events.last(), since) { rest.push(events.last()) } else { rest }
    }
}

/// The audit log events at or after `since`, filtered client-side; events
/// without a parseable time are kept.
pub fn export_since(events: &Vec<Json>, since: &Timestamp) -> (r: Vec<Json>)
    ensures
        vview(r@) == events_since_v(vview(events@), *since),
{
    let ghost ev = vview(events@);
    let mut out: Vec<Json> = Vec::new();
    let mut i: usize = 0;
    while i < events.len()
        invariant
            i <= events@.len(),
            ev == vview(events@),
            vview(out@) == events_since_v(ev.take(i as int), *since),
        decreases events@.len() - i,
    {
        assert(ev.take(i + 1).drop_last() =~= ev.take(i as int));
        assert(ev.take(i + 1).last() == events@[i as int]@);
        if event_at_or_after(&events[i], since) {
            let ghost before = vview(out@);
            out.push(clone_json(&events[i]));
            assert(vview(out@) =~= before.push(events@[i as int]@));
        }
        i += 1;
    }
    assert(ev.take(events@.len() as int) =~= ev);
    out
}

// ---------------------------------------------------------------------------
// Destinations
// ---------------------------------------------------------------------------

/// Where an export is written.
pub open spec fn destination_v(output: Seq<char>, since: Timestamp) -> Option<Seq<char>> {
    if is_suffix("/"@, output) {
        match spec_utc_date(since.secs, since.nanos) {
            Some(d) => Some(output + "audit-logs-"@ + d + ".ndjson"@),
            None => None,
        }
    } else {
        Some(output)
    }
}

/// Expands a destination that ends with `/` into a full path with a file
/// name made from the date of `since`; other destinations stay as they are.
/// Gives nothing only for a point in time that chrono cannot represent.
pub fn resolve_destination(output: &str, since: &Timestamp) -> (r: Option<String>)
    ensures
        opt_v(r) == destination_v(output@, *since),
{
    if str_ends_with(output, "/") {
        match utc_date(since.secs, since.nanos) {
            Some(d) => {
                let a = join3(output, "audit-logs-", d.as_str());
                Some(crate::text::join2(a.as_str(), ".ndjson"))
            },
            None => None,
        }
    } else {
        Some(owned(output))
    }
}

/// A destination of an export.
#[derive(Debug, Clone, PartialEq)]
pub enum Dest {
    Stdout,
    LocalFile(String),
    Gcs(String),
    S3(String),
    Azure { account: String, container: String, blob: String },
}

/// The model of a destination.
pub enum DestV {
    Stdout,
    LocalFile(Seq<char>),
    Gcs(Seq<char>),
    S3(Seq<char>),
    Azure { account: Seq<char>, container: Seq<char>, blob: Seq<char> },
}

impl View for Dest {
    type V = DestV;

    open spec fn view(&self) -> DestV {
        match self {
            Dest::Stdout => DestV::Stdout,
            Dest::LocalFile(p) => DestV::LocalFile(p@),
            Dest::Gcs(u) => DestV::Gcs(u@),
            Dest::S3(u) => DestV::S3(u@),
            Dest::Azure { account, container, blob } => DestV::Azure { account: account@, container: container@, blob: blob@ },
        }
    }
}

/// What a destination names: `-` is standard output; `gs://` and `s3://`
/// name cloud storage; `az://account/container/blob` names Azure Blob
/// Storage when it has all three parts; anything else is a local file.
pub open spec fn parse_dest_v(dest: Seq<char>) -> DestV {
    if dest == "-"@ {
        DestV::Stdout
    } else if is_prefix("gs://"@, dest) {
        DestV::Gcs(dest)
    } else if is_prefix("s3://"@, dest) {
        DestV::S3(dest)
    } else if is_prefix("az://"@, dest) && ({
        let rest = dest.subrange("az://"@.len() as int, dest.len() as int);
        let i = index_of_char(rest, '/');
        let rest2 = rest.subrange(i + 1, rest.len() as int);
        i < rest.len() && index_of_char(rest2, '/') < rest2.len()
    }) {
        let rest = dest.subrange("az://"@.len() as int, dest.len() as int);
        let i = index_of_char(rest, '/');
        let rest2 = rest.subrange(i + 1, rest.len() as int);
        let j = index_of_char(rest2, '/');
        DestV::Azure {
            account: rest.subrange(0, i),
            container: rest2.subrange(0, j),
            blob: rest2.subrange(j + 1, rest2.len() as int),
        }
    } else {
        DestV::LocalFile(dest)
    }
}

/// Splits at the first `/`: the part before it and the part after it.
fn split_slash(s: &Vec<char>) -> (r: Option<(Vec<char>, Vec<char>)>)
    ensures
        index_of_char(s@, '/') < s@.len() ==> (r matches Some(p) && p.0@ == s@.subrange(0, index_of_char(s@, '/'))
            && p.1@ == s@.subrange(index_of_char(s@, '/') + 1, s@.len() as int)),
        index_of_char(s@, '/') >= s@.len() ==> r is None,
{
    match find_char(s.as_slice(), '/') {
        Some(i) => {
            proof { lemma_index_of_char(s@, '/', i as int); }
            assert(i < s.len());
            Some((slice(s.as_slice(), 0, i), slice(s.as_slice(), i + 1, s.len())))
        },
        None => {
            proof { lemma_index_absent(s@, '/'); }
            None
        },
    }
}

/// Reads a destination of an export.
pub fn parse_dest(dest: &str) -> (r: Dest)
    ensures
        r@ == parse_dest_v(dest@),
{
    if str_eq(dest, "-") {
        return Dest::Stdout;
    }
    if str_starts_with(dest, "gs://") {
        return Dest::Gcs(owned(dest));
    }
    if str_starts_with(dest, "s3://") {
        return Dest::S3(owned(dest));
    }
    if let Some(rest) = strip_prefix(dest, "az://") {
        let rc = chars_of(rest.as_str());
        if let Some((account, tail)) = split_slash(&rc) {
            if let Some((container, blob)) = split_slash(&tail) {
                return Dest::Azure {
                    account: string_of(account.as_slice()),
                    container: string_of(container.as_slice()),
                    blob: string_of(blob.as_slice()),
                };
            }
        }
    }
    Dest::LocalFile(owned(dest))
}

/// The program and arguments that upload an export read from standard
/// input: `gsutil` for Google Cloud Storage, `aws` for S3 and `az` for
/// Azure Blob Storage; none for standard output or a local file.
pub open spec fn upload_command_v(d: DestV) -> Option<(Seq<char>, Seq<Seq<char>>)> {
    match d {
        DestV::Gcs(url) => Some(("gsutil"@, seq!["cp"@, "-"@, url])),
        DestV::S3(url) => Some(("aws"@, seq!["s3"@, "cp"@, "-"@, url])),
        DestV::Azure { account, container, blob } => Some(("az"@, seq![
            "storage"@, "blob"@, "upload"@, "--file"@, "-"@, "--account-name"@, account,
            "--container-name"@, container, "--name"@, blob, "--overwrite"@,
        ])),
        _ => None,
    }
}

fn texts(parts: Vec<&str>) -> (r: Vec<String>)
    ensures
        r@.len() == parts@.len(),
        forall|i: int| 0 <= i < parts@.len() ==> (#[trigger] r@[i])@ == parts@[i]@,
{
    let mut r: Vec<String> = Vec::new();
    let mut i: usize = 0;
    while i < parts.len()
        invariant
            i <= parts@.len(),
            r@.len() == i,
            forall|k: int| 0 <= k < i ==> (#[trigger] r@[k])@ == parts@[k]@,
        decreases parts@.len() - i,
    {
        r.push(owned(parts[i]));
        i += 1;
    }
    r
}

/// The upload command for a destination, if it is in cloud storage.
pub fn upload_command(d: &Dest) -> (r: Option<(String, Vec<String>)>)
    ensures
        match (r, upload_command_v(d@)) {
            (Some(c), Some(v)) => c.0@ == v.0 && c.1@.map_values(|s: String| s@) == v.1,
            (None, None) => true,
            _ => false,
        },
{
    match d {
        Dest::Gcs(url) => {
            let args = texts(vec!["cp", "-", url.as_str()]);
            assert(args@.map_values(|s: String| s@) =~= seq!["cp"@, "-"@, url@]);
            Some((owned("gsutil"), args))
        },
        Dest::S3(url) => {
            let args = texts(vec!["s3", "cp", "-", url.as_str()]);
            assert(args@.map_values(|s: String| s@) =~= seq!["s3"@, "cp"@, "-"@, url@]);
            Some((owned("aws"), args))
        },
        Dest::Azure { account, container, blob } => {
            let args = texts(vec![
                "storage", "blob", "upload", "--file", "-", "--account-name", account.as_str(),
                "--container-name", container.as_str(), "--name", blob.as_str(), "--overwrite",
            ]);
            assert(args@.map_values(|s: String| s@) =~= seq![
                "storage"@, "blob"@, "upload"@, "--file"@, "-"@, "--account-name"@, account@,
                "--container-name"@, container@, "--name"@, blob@, "--overwrite"@,
            ]);
            Some((owned("az"), args))
        },
        _ => None,
    }
}

} // verus!
