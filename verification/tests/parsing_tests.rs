//! Playlist parsing, input-list reading and the small validators.

use astra_scanner::channel::{
    evaluate_playlist, extract_channel_name, extract_channel_title, parse_playlist,
};
use astra_scanner::input::{parse_address_list, parse_port_list};
use astra_scanner::numbers::{decimal_string, parse_u16};
use astra_scanner::text::{split_into_lines, str_contains, str_starts_with, trim_str};
use astra_scanner::utils::{
    estimate_completion_time, format_duration, is_valid_ipv4, is_valid_port,
};

#[test]
fn playlist_two_entries_orphan_url_dropped() {
    let input = "#EXTINF:-1,Channel A\nhttp://x/1\nhttp://y/2\n#EXTINF:-1,Channel B\nhttp://z/3";
    let entries = parse_playlist(input);
    assert_eq!(entries.len(), 2);
    assert_eq!(entries[0].0, "#EXTINF:-1,Channel A");
    assert_eq!(entries[0].1, "http://x/1");
    assert_eq!(entries[1].0, "#EXTINF:-1,Channel B");
    assert_eq!(entries[1].1, "http://z/3");
}

#[test]
fn playlist_url_without_title_dropped() {
    let entries = parse_playlist("http://early/url\n#EXTINF:-1,A\nhttp://a/1");
    assert_eq!(entries.len(), 1);
    assert_eq!(entries[0].1, "http://a/1");
}

#[test]
fn playlist_dangling_title_dropped() {
    let entries = parse_playlist("#EXTINF:-1,A\nhttp://a/1\n#EXTINF:-1,B");
    assert_eq!(entries.len(), 1);
    assert_eq!(entries[0].0, "#EXTINF:-1,A");
}

#[test]
fn playlist_https_and_interleaved_noise() {
    let entries = parse_playlist("#EXTINF:-1,A\n# comment\nhttps://a/1\nnoise");
    assert_eq!(entries.len(), 1);
    assert_eq!(entries[0].1, "https://a/1");
}

#[test]
fn playlist_empty_input() {
    assert!(parse_playlist("").is_empty());
}

#[test]
fn channel_name_after_last_comma() {
    assert_eq!(extract_channel_name("#EXTINF:-1,Channel A"), "Channel A");
    assert_eq!(extract_channel_name("#EXTINF:-1,group,  News HD "), "News HD");
    assert_eq!(extract_channel_name("no comma here"), "no comma here");
    assert_eq!(extract_channel_name("trailing,"), "");
}

#[test]
fn channel_title_after_first_comma() {
    assert_eq!(extract_channel_title("#EXTINF:-1, News "), "News");
    assert_eq!(extract_channel_title("#EXTINF:-1,a,b"), "a,b");
    assert_eq!(extract_channel_title("no comma"), "Canal sin nombre");
    assert_eq!(extract_channel_title("ends with,"), "Canal sin nombre");
}

#[test]
fn playlist_needs_magic_marker() {
    assert!(evaluate_playlist("just text\nhttp://a/1").is_none());
    let body = "#EXTM3U\n#EXTINF:-1,A\nhttp://a/1";
    let entries = evaluate_playlist(body).expect("marker present");
    assert_eq!(entries.len(), 1);
    assert_eq!(entries[0].1, "http://a/1");
}

#[test]
fn address_list_skips_blank_lines_keeps_lines_verbatim() {
    let addrs = parse_address_list("1.2.3.4\n\n   \n 5.6.7.8 \r\n9.9.9.9");
    assert_eq!(addrs, vec!["1.2.3.4", " 5.6.7.8 ", "9.9.9.9"]);
}

#[test]
fn port_list_trims_parses_and_drops_junk() {
    let ports = parse_port_list("80\nabc\n0\n 8080 \n+25\n70000\n65535");
    assert_eq!(ports, vec![80, 8080, 25, 65535]);
}

#[test]
fn valid_ports() {
    assert!(is_valid_port("80"));
    assert!(is_valid_port("65535"));
    assert!(is_valid_port("+1"));
    assert!(!is_valid_port("0"));
    assert!(!is_valid_port("65536"));
    assert!(!is_valid_port(""));
    assert!(!is_valid_port(" 80"));
    assert!(!is_valid_port("-1"));
    assert!(!is_valid_port("8a"));
}

#[test]
fn parse_u16_edges() {
    assert_eq!(parse_u16("007"), Some(7));
    assert_eq!(parse_u16("+"), None);
    assert_eq!(parse_u16("99999999999999999999"), None);
    assert_eq!(parse_u16("65535"), Some(65535));
    assert_eq!(parse_u16("65536"), None);
}

#[test]
fn valid_ipv4_literals() {
    assert!(is_valid_ipv4("192.168.1.1"));
    assert!(is_valid_ipv4("0.0.0.0"));
    assert!(is_valid_ipv4("255.255.255.255"));
    assert!(!is_valid_ipv4("256.1.1.1"));
    assert!(!is_valid_ipv4("1.2.3"));
    assert!(!is_valid_ipv4("1.2.3.4.5"));
    assert!(!is_valid_ipv4("01.2.3.4"));
    assert!(!is_valid_ipv4("a.b.c.d"));
    assert!(!is_valid_ipv4("1.2.3."));
    assert!(!is_valid_ipv4(""));
}

#[test]
fn duration_formatting() {
    assert_eq!(format_duration(0), "00s");
    assert_eq!(format_duration(59), "59s");
    assert_eq!(format_duration(60), "01m 00s");
    assert_eq!(format_duration(61), "01m 01s");
    assert_eq!(format_duration(3661), "01h 01m 01s");
    assert_eq!(format_duration(86400), "24h 00m 00s");
    assert_eq!(format_duration(360000), "100h 00m 00s");
}

#[test]
fn completion_estimates() {
    assert_eq!(estimate_completion_time(0, 100, 50), "N/A");
    assert_eq!(estimate_completion_time(50, 100, 100), "01m 40s");
    assert_eq!(estimate_completion_time(10, 10, 5), "00s");
}

#[test]
fn line_splitting() {
    assert_eq!(split_into_lines("a\r\nb\nc"), vec!["a", "b", "c"]);
    assert_eq!(split_into_lines("a\n"), vec!["a"]);
    assert_eq!(split_into_lines("\n"), vec![""]);
    assert!(split_into_lines("").is_empty());
    assert_eq!(split_into_lines("tail\r"), vec!["tail\r"]);
}

#[test]
fn trimming_and_searching() {
    assert_eq!(trim_str("  padded\t"), "padded");
    assert_eq!(trim_str("\r\n"), "");
    assert!(str_contains("Astra Server", "Astra"));
    assert!(!str_contains("astra server", "Astra"));
    assert!(str_contains("anything", ""));
    assert!(str_starts_with("#EXTINF:-1,A", "#EXTINF:"));
    assert!(!str_starts_with("#EXTM3U", "#EXTINF:"));
}

#[test]
fn decimal_rendering() {
    assert_eq!(decimal_string(0), "0");
    assert_eq!(decimal_string(12345), "12345");
    assert_eq!(decimal_string(u64::MAX), "18446744073709551615");
}
