//! A verified core for a network service scanner.
//!
//! The library models the scan of an address space for a media-server
//! fingerprint: it enumerates targets, bounds the number of probes in
//! flight, deduplicates discoveries, parses and verifies channel
//! playlists, and renders the run summary.  All decisions are made by
//! verified functions on plain values; the surrounding binary performs
//! the network and file traffic and feeds the results back in.

use vstd::prelude::*;

pub mod channel;
pub mod config;
pub mod external;
pub mod input;
pub mod numbers;
pub mod progress;
pub mod scanner;
pub mod store;
pub mod text;
pub mod utils;

verus! {

/// A fatal condition that stops a scan before any probe is issued.
#[derive(Debug, Clone, Copy, PartialEq, Eq, Structural)]
pub enum ScanError {
    /// The address list was missing or empty.
    EmptyAddressList,
    /// The port list was missing or empty.
    EmptyPortList,
}

impl ScanError {
    /// A short description of the error, for display by callers.
    pub fn message(&self) -> (r: &'static str)
        ensures
            *self is EmptyAddressList ==> r@ == "no addresses to scan"@,
            *self is EmptyPortList ==> r@ == "no ports to scan"@,
    {
        match self {
            ScanError::EmptyAddressList => "no addresses to scan",
            ScanError::EmptyPortList => "no ports to scan",
        }
    }
}

/// Which pane an interface around the scanner is showing.
#[derive(Debug, Clone, Copy, PartialEq, Eq, Structural)]
pub enum AppView {
    Dashboard,
    Results,
    Settings,
    ASN,
    AstraServer,
}

/// Which result list an interface is showing.
#[derive(Debug, Clone, Copy, PartialEq, Eq, Structural)]
pub enum ResultsView {
    Servers,
    Channels,
}

} // verus!
