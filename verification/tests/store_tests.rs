//! The channel sink's whole-run URL deduplication and the summary
//! record.

use astra_scanner::channel::{channel_verdict, is_manifest_url};
use astra_scanner::progress::RunProgress;
use astra_scanner::store::{json_escape, render_summary_with, ChannelStore};

fn entry(title: &str, url: &str) -> (String, String) {
    (title.to_string(), url.to_string())
}

#[test]
fn first_append_writes_header_and_pairs() {
    let mut sink = ChannelStore::new();
    let channels = vec![
        entry("#EXTINF:-1,A", "http://a/1"),
        entry("#EXTINF:-1,B", "http://b/2"),
    ];
    let added = sink.append_channels(&channels);
    assert_eq!(added, 2);
    assert_eq!(
        sink.lines,
        vec!["#EXTM3U", "#EXTINF:-1,A", "http://a/1", "#EXTINF:-1,B", "http://b/2"]
    );
}

#[test]
fn appending_the_same_channels_twice_adds_nothing() {
    let mut sink = ChannelStore::new();
    let channels = vec![
        entry("#EXTINF:-1,A", "http://a/1"),
        entry("#EXTINF:-1,B", "http://b/2"),
    ];
    let first = sink.append_channels(&channels);
    let lines_after_first = sink.lines.clone();
    let second = sink.append_channels(&channels);
    assert_eq!(first, 2);
    assert_eq!(second, 0);
    assert_eq!(sink.lines, lines_after_first);
}

#[test]
fn dedup_is_by_url_not_title() {
    let mut sink = ChannelStore::new();
    sink.append_channels(&vec![entry("#EXTINF:-1,A", "http://a/1")]);
    // same URL under a fresh title: suppressed
    let added = sink.append_channels(&vec![entry("#EXTINF:-1,A renamed", "http://a/1")]);
    assert_eq!(added, 0);
    // same title with a fresh URL: appended (titles may repeat)
    let added = sink.append_channels(&vec![entry("#EXTINF:-1,A", "http://a/2")]);
    assert_eq!(added, 1);
}

#[test]
fn dedup_spans_preexisting_lines() {
    let existing = vec![
        "#EXTM3U".to_string(),
        "#EXTINF:-1,Old".to_string(),
        "http://old/1".to_string(),
    ];
    let mut sink = ChannelStore::from_lines(existing);
    let added = sink.append_channels(&vec![
        entry("#EXTINF:-1,Old again", "http://old/1"),
        entry("#EXTINF:-1,New", "http://new/1"),
    ]);
    assert_eq!(added, 1);
    assert_eq!(sink.lines.len(), 5);
    assert_eq!(sink.lines[3], "#EXTINF:-1,New");
    assert_eq!(sink.lines[4], "http://new/1");
}

#[test]
fn no_header_when_nothing_fresh() {
    let mut sink = ChannelStore::new();
    let added = sink.append_channels(&Vec::new());
    assert_eq!(added, 0);
    assert!(sink.lines.is_empty());
}

#[test]
fn duplicates_within_one_call_follow_the_sink_only() {
    // entries are filtered against the sink, not against each other,
    // matching the destination file's behaviour within one write
    let mut sink = ChannelStore::new();
    let added = sink.append_channels(&vec![
        entry("#EXTINF:-1,A", "http://a/1"),
        entry("#EXTINF:-1,A again", "http://a/1"),
    ]);
    assert_eq!(added, 2);
    // but a later call sees both stored
    let again = sink.append_channels(&vec![entry("#EXTINF:-1,A", "http://a/1")]);
    assert_eq!(again, 0);
}

#[test]
fn json_escaping() {
    assert_eq!(json_escape("plain"), "plain");
    assert_eq!(json_escape("a\"b\\c"), "a\\\"b\\\\c");
    assert_eq!(json_escape("line\nbreak\ttab\rcr"), "line\\nbreak\\ttab\\rcr");
    assert_eq!(json_escape("\u{1}"), "\\u0001");
    assert_eq!(json_escape("\u{1f}"), "\\u001f");
}

#[test]
fn summary_record_exact() {
    let servers = vec!["1.2.3.4:80".to_string(), "5.6.7.8:8080".to_string()];
    let summary = render_summary_with("2024-01-02 03:04:05", 42, 2, 7, &servers);
    assert_eq!(
        summary,
        "{\"scan_date\":\"2024-01-02 03:04:05\",\"total_checked\":42,\
         \"servers_found\":2,\"channels_found\":7,\
         \"found_servers\":[\"1.2.3.4:80\",\"5.6.7.8:8080\"]}"
    );
}

#[test]
fn summary_with_no_servers() {
    let summary = render_summary_with("t", 0, 0, 0, &Vec::new());
    assert_eq!(
        summary,
        "{\"scan_date\":\"t\",\"total_checked\":0,\"servers_found\":0,\
         \"channels_found\":0,\"found_servers\":[]}"
    );
}

#[test]
fn manifest_urls_are_judged_lowercase() {
    // fails if the lowercasing wrapper handed its argument back
    assert!(is_manifest_url("HTTP://HOST/STREAM.M3U8"));
    assert!(is_manifest_url("http://host/stream.m3u8"));
    assert!(!is_manifest_url("http://host/live.ts"));
}

#[test]
fn channel_verdict_rules() {
    // a successful lightweight probe always suffices
    assert!(channel_verdict(true, true, false, false));
    // manifests get no fallback fetch
    assert!(!channel_verdict(false, true, true, true));
    // a fallback fetch needs a body byte
    assert!(channel_verdict(false, false, true, true));
    assert!(!channel_verdict(false, false, true, false));
    assert!(!channel_verdict(false, false, false, false));
}

#[test]
fn progress_counters_saturate() {
    let mut p = RunProgress::new(10);
    p.increment_checked();
    p.increment_servers();
    p.add_channels(3);
    assert_eq!(p.checked, 1);
    assert_eq!(p.servers_found, 1);
    assert_eq!(p.channels_found, 3);
    p.add_channels(usize::MAX);
    assert_eq!(p.channels_found, usize::MAX);
    p.add_channels(1);
    assert_eq!(p.channels_found, usize::MAX);
    let snap = p.snapshot();
    assert_eq!(snap.total, 10);
}
