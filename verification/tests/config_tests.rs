//! The stock configuration values.

use astra_scanner::config::{Config, SimpleScannerConfig};
use astra_scanner::{AppView, ResultsView};

#[test]
fn stock_configuration() {
    let c = Config::default();
    assert_eq!(c.scanner.max_workers, 3000);
    assert_eq!(c.scanner.timeout_ms, 800);
    assert_eq!(c.scanner.chunk_size, 10);
    assert_eq!(c.scanner.max_retries, 0);
    assert_eq!(c.scanner.workers, 200);
    assert_eq!(c.scanner.batch_size, 1000);
    assert_eq!(c.scanner.connection_timeout_ms, 500);
    assert_eq!(c.scanner.playlist_timeout, 5);
    assert_eq!(c.scanner.channel_timeout, 2);
    assert_eq!(c.scanner.pool_connections, 50);
    assert_eq!(c.scanner.pool_maxsize, 50);
    assert_eq!(c.asn.max_workers, 20);
    assert_eq!(c.asn.api_timeout, 5);
    assert_eq!(c.language.default, "en");
    assert_eq!(c.app.lang, "en");
}

#[test]
fn stock_simple_configuration() {
    let c = SimpleScannerConfig::default();
    assert_eq!(c.threads, 4);
    assert_eq!(c.timeout_secs, 5);
}

#[test]
fn view_markers_compare() {
    assert_eq!(AppView::Dashboard, AppView::Dashboard);
    assert_ne!(AppView::Results, AppView::Settings);
    assert!(matches!(ResultsView::Servers, ResultsView::Servers));
}
