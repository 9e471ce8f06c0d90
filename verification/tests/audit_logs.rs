use dbtp::audit::{
    event_at_or_after, export_since, parse_dest, parse_timestamp, resolve_destination, upload_command, Dest,
    Timestamp,
};
use dbtp::json::Json;

fn ts(s: &str) -> Timestamp {
    parse_timestamp(s).unwrap()
}

fn obj(pairs: Vec<(&str, Json)>) -> Json {
    Json::Object(pairs.into_iter().map(|(k, v)| (k.to_string(), v)).collect())
}

fn event(created_at: &str) -> Json {
    obj(vec![("created_at", Json::String(created_at.to_string()))])
}

#[test]
fn event_after_cutoff_is_included() {
    let since = ts("2024-01-10T00:00:00Z");
    let event = event("2024-01-15T12:00:00Z");
    assert!(event_at_or_after(&event, &since));
}

#[test]
fn event_at_cutoff_is_included() {
    let since = ts("2024-01-10T00:00:00Z");
    let event = event("2024-01-10T00:00:00Z");
    assert!(event_at_or_after(&event, &since));
}

#[test]
fn event_before_cutoff_is_excluded() {
    let since = ts("2024-01-10T00:00:00Z");
    let event = event("2024-01-05T00:00:00Z");
    assert!(!event_at_or_after(&event, &since));
}

#[test]
fn event_with_no_created_at_is_included() {
    let since = ts("2024-01-10T00:00:00Z");
    let event = obj(vec![("type", Json::String("login".to_string()))]);
    assert!(event_at_or_after(&event, &since));
}

#[test]
fn event_with_unparseable_created_at_is_included() {
    let since = ts("2024-01-10T00:00:00Z");
    let event = event("not-a-date");
    assert!(event_at_or_after(&event, &since));
}

#[test]
fn timestamp_parses_to_epoch_seconds() {
    let t = ts("2024-01-10T00:00:00Z");
    assert_eq!(t.secs, 1704844800);
    assert_eq!(t.nanos, 0);
    let u = ts("2024-01-10T02:00:00.5+02:00");
    assert_eq!(u.secs, 1704844800);
    assert_eq!(u.nanos, 500_000_000);
    assert!(parse_timestamp("yesterday").is_none());
}

#[test]
fn export_keeps_events_in_order() {
    let since = ts("2024-01-10T00:00:00Z");
    let events = vec![
        event("2024-01-01T00:00:00Z"),
        event("2024-01-11T00:00:00Z"),
        obj(vec![]),
        event("2024-01-09T23:59:59Z"),
        event("2024-01-10T00:00:00Z"),
    ];
    let kept = export_since(&events, &since);
    assert_eq!(kept, vec![event("2024-01-11T00:00:00Z"), obj(vec![]), event("2024-01-10T00:00:00Z")]);
}

#[test]
fn directory_destination_gets_a_dated_file_name() {
    let since = ts("2026-01-01T08:30:00Z");
    assert_eq!(
        resolve_destination("gs://bucket/logs/", &since).as_deref(),
        Some("gs://bucket/logs/audit-logs-2026-01-01.ndjson")
    );
    assert_eq!(resolve_destination("./out.ndjson", &since).as_deref(), Some("./out.ndjson"));
    assert_eq!(resolve_destination("-", &since).as_deref(), Some("-"));
}

#[test]
fn destinations_are_recognised() {
    assert_eq!(parse_dest("-"), Dest::Stdout);
    assert_eq!(parse_dest("gs://b/p/f.ndjson"), Dest::Gcs("gs://b/p/f.ndjson".to_string()));
    assert_eq!(parse_dest("s3://b/f"), Dest::S3("s3://b/f".to_string()));
    assert_eq!(
        parse_dest("az://acct/cont/path/to/blob.ndjson"),
        Dest::Azure {
            account: "acct".to_string(),
            container: "cont".to_string(),
            blob: "path/to/blob.ndjson".to_string()
        }
    );
    assert_eq!(parse_dest("az://acct/cont"), Dest::LocalFile("az://acct/cont".to_string()));
    assert_eq!(parse_dest("./x.ndjson"), Dest::LocalFile("./x.ndjson".to_string()));
}

#[test]
fn cloud_destinations_upload_through_their_tools() {
    let (p, a) = upload_command(&parse_dest("s3://b/f")).unwrap();
    assert_eq!(p, "aws");
    assert_eq!(a, vec!["s3", "cp", "-", "s3://b/f"]);
    let (p, a) = upload_command(&parse_dest("gs://b/f")).unwrap();
    assert_eq!(p, "gsutil");
    assert_eq!(a, vec!["cp", "-", "gs://b/f"]);
    let (p, a) = upload_command(&parse_dest("az://acct/cont/blob")).unwrap();
    assert_eq!(p, "az");
    assert_eq!(
        a,
        vec![
            "storage", "blob", "upload", "--file", "-", "--account-name", "acct", "--container-name", "cont",
            "--name", "blob", "--overwrite"
        ]
    );
    assert!(upload_command(&Dest::Stdout).is_none());
    assert!(upload_command(&Dest::LocalFile("f".to_string())).is_none());
}
