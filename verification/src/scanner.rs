//! The scan engine: target enumeration over the address space and the
//! coordinator state machine that bounds in-flight probes,
//! deduplicates discoveries and aggregates progress.
//!
//! The coordinator decides; it performs no traffic itself.  The caller
//! asks it for the next target, probes it, and reports the outcome
//! back, so every decision the scan makes is verified here.

use vstd::prelude::*;

use crate::ScanError;
use crate::config::ScannerConfig;
use crate::numbers::{append_decimal, dec_digits};
use crate::progress::RunProgress;
use crate::store::{render_summary, spec_summary_json};
use crate::text::{contains_seq, str_contains};
use vstd::arithmetic::div_mod::{
    lemma_fundamental_div_mod, lemma_fundamental_div_mod_converse, lemma_mod_bound,
    lemma_multiply_divide_lt,
};

verus! {

/// One candidate under consideration: an address and a port.
#[derive(Debug)]
pub struct Target {
    pub address: String,
    pub port: u16,
}

impl Clone for Target {
    fn clone(&self) -> (r: Self)
        ensures
            r.address@ == self.address@,
            r.port == self.port,
    {
        Target { address: self.address.clone(), port: self.port }
    }
}

/// The deduplication key of a target, also the line the server sink
/// records: the address, a colon, and the port in decimal.
pub open spec fn spec_server_key(address: Seq<char>, port: u16) -> Seq<char> {
    address + ":"@ + dec_digits(port as nat)
}

/// Renders the `address:port` key of a target, as [`spec_server_key`]
/// describes.
pub fn server_key(address: &str, port: u16) -> (r: String)
    ensures
        r@ == spec_server_key(address@, port),
{
    let mut out = String::from_str(address);
    out.append(":");
    append_decimal(&mut out, port as u64);
    proof {
        assert(out@ =~= spec_server_key(address@, port));
    }
    out
}

/// Decides a fingerprint probe from the response's server header: a
/// hit needs the header present and carrying the service signature as
/// a literal, case-sensitive substring.
pub fn fingerprint_matches(server_header: Option<&str>) -> (r: bool)
    ensures
        r == match server_header {
            Some(h) => contains_seq(h@, "Astra"@),
            None => false,
        },
{
    match server_header {
        Some(h) => str_contains(h, "Astra"),
        None => false,
    }
}

/// The target the address space puts at position `k`: address-major
/// order, all ports of one address before the next address.
pub open spec fn target_formula(
    targets: Seq<Target>,
    addresses: Seq<String>,
    ports: Seq<u16>,
) -> bool {
    forall|k: int|
        0 <= k < targets.len() ==> (#[trigger] targets[k]).address@ == addresses[k / ports.len() as int]@
            && targets[k].port == ports[k % ports.len() as int]
}

/// Enumerates the full cartesian product of addresses and ports in
/// address-major order.
pub fn build_targets(addresses: &Vec<String>, ports: &Vec<u16>) -> (r: Vec<Target>)
    requires
        addresses@.len() * ports@.len() <= usize::MAX,
    ensures
        r@.len() == addresses@.len() * ports@.len(),
        target_formula(r@, addresses@, ports@),
{
    let a = addresses.len();
    let p = ports.len();
    let mut out: Vec<Target> = Vec::new();
    let mut i: usize = 0;
    proof {
        assert(0 * p == 0) by (nonlinear_arith);
    }
    while i < a
        invariant
            a == addresses@.len(),
            p == ports@.len(),
            a * p <= usize::MAX,
            i <= a,
            out@.len() == i * p,
            target_formula(out@, addresses@, ports@),
        decreases a - i,
    {
        let mut j: usize = 0;
        while j < p
            invariant
                a == addresses@.len(),
                p == ports@.len(),
                a * p <= usize::MAX,
                i < a,
                j <= p,
                out@.len() == i * p + j,
                target_formula(out@, addresses@, ports@),
            decreases p - j,
        {
            proof {
                assert(i * p + j < a * p) by (nonlinear_arith)
                    requires
                        i < a,
                        j < p,
                        0 <= i,
                        0 <= j,
                        0 <= p,
                ;
                lemma_fundamental_div_mod_converse((i * p + j) as int, p as int, i as int, j as int);
            }
            let t = Target { address: addresses[i].clone(), port: ports[j] };
            out.push(t);
            j = j + 1;
        }
        proof {
            assert(i * p + p == (i + 1) * p) by (nonlinear_arith);
        }
        i = i + 1;
    }
    out
}

/// Distinct inputs give distinct targets: with no duplicate address
/// and no duplicate port, the address space holds no pair twice.
pub proof fn lemma_targets_distinct(targets: Seq<Target>, addresses: Seq<String>, ports: Seq<u16>)
    requires
        targets.len() == addresses.len() * ports.len(),
        target_formula(targets, addresses, ports),
        forall|x: int, y: int|
            0 <= x < y < addresses.len() ==> (#[trigger] addresses[x])@ != (#[trigger] addresses[y])@,
        forall|x: int, y: int| 0 <= x < y < ports.len() ==> ports[x] != ports[y],
    ensures
        forall|k1: int, k2: int|
            0 <= k1 < k2 < targets.len() ==> (#[trigger] targets[k1]).address@ != (
            #[trigger] targets[k2]).address@ || targets[k1].port != targets[k2].port,
{
    let a = addresses.len() as int;
    let p = ports.len() as int;
    assert forall|k1: int, k2: int| 0 <= k1 < k2 < targets.len() implies (
    #[trigger] targets[k1]).address@ != (#[trigger] targets[k2]).address@ || targets[k1].port
        != targets[k2].port by {
        assert(p > 0) by {
            if p <= 0 {
                assert(a * p <= 0) by (nonlinear_arith)
                    requires
                        p <= 0,
                        a >= 0,
                ;
            }
        }
        lemma_fundamental_div_mod(k1, p);
        lemma_fundamental_div_mod(k2, p);
        lemma_mod_bound(k1, p);
        lemma_mod_bound(k2, p);
        lemma_multiply_divide_lt(k1, p, a);
        lemma_multiply_divide_lt(k2, p, a);
        assert(k1 < p * a) by (nonlinear_arith)
            requires
                k1 < a * p,
        ;
        assert(k2 < p * a) by (nonlinear_arith)
            requires
                k2 < a * p,
        ;
        let q1 = k1 / p;
        let r1 = k1 % p;
        let q2 = k2 / p;
        let r2 = k2 % p;
        if q1 == q2 && r1 == r2 {
            assert(k1 == k2);
        }
        if q1 != q2 {
            assert(targets[k1].address@ != targets[k2].address@);
        } else {
            assert(r1 != r2);
            assert(targets[k1].port != targets[k2].port);
        }
    }
}

/// The lifecycle of one run.  Failures along the way degrade to
/// misses; only missing or empty input moves loading straight to
/// finished with an error.
#[derive(Clone, Copy, Debug, PartialEq, Eq, Structural)]
pub enum ScanState {
    Idle,
    Loading,
    Running,
    Draining,
    Finished,
}

/// No server key occurs twice.
pub open spec fn distinct_keys(ks: Seq<String>) -> bool {
    forall|x: int, y: int| 0 <= x < y < ks.len() ==> (#[trigger] ks[x])@ != (#[trigger] ks[y])@
}

/// Whether `key` is among the recorded server keys.
pub open spec fn contains_key(ks: Seq<String>, key: Seq<char>) -> bool {
    exists|x: int| 0 <= x < ks.len() && (#[trigger] ks[x])@ == key
}

/// Linear membership test against the recorded server keys.
fn found_contains(v: &Vec<String>, key: &String) -> (r: bool)
    ensures
        r == contains_key(v@, key@),
{
    let n = v.len();
    let mut i: usize = 0;
    while i < n
        invariant
            n == v@.len(),
            i <= n,
            forall|x: int| 0 <= x < i ==> (#[trigger] v@[x])@ != key@,
        decreases n - i,
    {
        if v[i].eq(key) {
            return true;
        }
        i = i + 1;
    }
    false
}

/// The run's orchestrator.  It owns the target sequence, the permit
/// count bounding in-flight probes, the deduplication record of
/// discovered servers, and the progress counters.  The caller drives
/// it: take a target with [`Self::next_target`], probe it, and report
/// the outcome with [`Self::complete_probe`].
pub struct ScanCoordinator {
    /// Size of the semaphore: probes in flight never exceed it.
    pub max_workers: usize,
    /// Dispatch batch size, for the caller's pacing.
    pub batch_size: usize,
    /// The full address space, in address-major order.
    pub targets: Vec<Target>,
    /// Index of the next target to dispatch.
    pub next: usize,
    /// Probes dispatched and not yet reported back: the permits out.
    pub outstanding: usize,
    /// Keys of discovered servers, in discovery order, no duplicates.
    /// Each is also the line the server sink records.
    pub found: Vec<String>,
    /// The run's shared counters.
    pub progress: RunProgress,
    pub state: ScanState,
}

impl ScanCoordinator {
    /// The coordinator's invariant.  In particular: probes in flight
    /// never exceed `max_workers`, and no server key is recorded
    /// twice.
    pub open spec fn inv(&self) -> bool {
        &&& self.outstanding <= self.max_workers
        &&& self.next <= self.targets@.len()
        &&& self.progress.checked + self.outstanding == self.next
        &&& self.progress.total == self.targets@.len()
        &&& self.progress.servers_found == self.found@.len()
        &&& self.found@.len() <= self.progress.checked
        &&& distinct_keys(self.found@)
        &&& ((self.state is Idle || self.state is Loading) ==> self.targets@.len() == 0
            && self.next == 0 && self.outstanding == 0 && self.found@.len() == 0)
        &&& (self.state is Finished ==> self.outstanding == 0)
    }

    /// A coordinator ready to load a run under the given tuning.
    pub fn new(config: &ScannerConfig) -> (r: Self)
        ensures
            r.inv(),
            r.state is Idle,
            r.max_workers == config.max_workers,
            r.batch_size == config.batch_size,
            r.targets@.len() == 0,
            r.progress == (RunProgress { total: 0, checked: 0, servers_found: 0, channels_found: 0 }),
    {
        ScanCoordinator {
            max_workers: config.max_workers,
            batch_size: config.batch_size,
            targets: Vec::new(),
            next: 0,
            outstanding: 0,
            found: Vec::new(),
            progress: RunProgress::new(0),
            state: ScanState::Idle,
        }
    }

    /// Marks the run as loading its inputs.
    pub fn begin_loading(&mut self)
        requires
            old(self).inv(),
            old(self).state is Idle,
        ensures
            final(self).inv(),
            *final(self) == (ScanCoordinator { state: ScanState::Loading, ..*old(self) }),
    {
        self.state = ScanState::Loading;
    }

    /// Accepts the loaded inputs and opens the run, or refuses it
    /// before any probe when either list is empty.  On refusal no
    /// target exists and nothing can be dispatched.
    pub fn start(&mut self, addresses: &Vec<String>, ports: &Vec<u16>) -> (r: Result<
        (),
        ScanError,
    >)
        requires
            old(self).inv(),
            old(self).state is Idle || old(self).state is Loading,
            addresses@.len() * ports@.len() <= usize::MAX,
        ensures
            final(self).inv(),
            final(self).max_workers == old(self).max_workers,
            final(self).batch_size == old(self).batch_size,
            addresses@.len() == 0 ==> r == Result::<(), ScanError>::Err(
                ScanError::EmptyAddressList,
            ),
            addresses@.len() > 0 && ports@.len() == 0 ==> r == Result::<(), ScanError>::Err(
                ScanError::EmptyPortList,
            ),
            addresses@.len() > 0 && ports@.len() > 0 ==> r == Result::<(), ScanError>::Ok(()),
            r is Err ==> final(self).state is Finished && final(self).targets@.len() == 0
                && final(self).next == 0 && final(self).progress.checked == 0
                && final(self).progress.servers_found == 0,
            r is Ok ==> {
                &&& final(self).state is Running
                &&& final(self).targets@.len() == addresses@.len() * ports@.len()
                &&& target_formula(final(self).targets@, addresses@, ports@)
                &&& final(self).next == 0
                &&& final(self).outstanding == 0
                &&& final(self).found@.len() == 0
                &&& final(self).progress.total == final(self).targets@.len()
                &&& final(self).progress.checked == 0
                &&& final(self).progress.servers_found == 0
            },
    {
        if addresses.len() == 0 {
            self.state = ScanState::Finished;
            return Err(ScanError::EmptyAddressList);
        }
        if ports.len() == 0 {
            self.state = ScanState::Finished;
            return Err(ScanError::EmptyPortList);
        }
        let targets = build_targets(addresses, ports);
        let total = targets.len();
        self.targets = targets;
        self.next = 0;
        self.outstanding = 0;
        self.progress = RunProgress::new(total);
        self.state = ScanState::Running;
        Ok(())
    }

    /// Hands out the next target, taking one permit, when the run is
    /// live, targets remain, and a permit is free.  The permit bound
    /// holds afterwards in every case; handing out the last target
    /// moves the run to draining.
    pub fn next_target(&mut self) -> (r: Option<Target>)
        requires
            old(self).inv(),
        ensures
            final(self).inv(),
            final(self).outstanding <= final(self).max_workers,
            match r {
                Some(t) => {
                    &&& old(self).state is Running
                    &&& old(self).next < old(self).targets@.len()
                    &&& old(self).outstanding < old(self).max_workers
                    &&& t.address@ == old(self).targets@[old(self).next as int].address@
                    &&& t.port == old(self).targets@[old(self).next as int].port
                    &&& final(self).next == old(self).next + 1
                    &&& final(self).outstanding == old(self).outstanding + 1
                    &&& final(self).state == (if old(self).next + 1 == old(self).targets@.len() {
                        ScanState::Draining
                    } else {
                        ScanState::Running
                    })
                    &&& final(self).targets == old(self).targets
                    &&& final(self).found == old(self).found
                    &&& final(self).progress == old(self).progress
                    &&& final(self).max_workers == old(self).max_workers
                    &&& final(self).batch_size == old(self).batch_size
                },
                None => {
                    &&& *final(self) == *old(self)
                    &&& !(old(self).state is Running && old(self).next < old(self).targets@.len()
                        && old(self).outstanding < old(self).max_workers)
                },
            },
    {
        if !(self.state == ScanState::Running) {
            return None;
        }
        if self.next < self.targets.len() && self.outstanding < self.max_workers {
            let t = Target {
                address: self.targets[self.next].address.clone(),
                port: self.targets[self.next].port,
            };
            self.outstanding = self.outstanding + 1;
            self.next = self.next + 1;
            if self.next == self.targets.len() {
                self.state = ScanState::Draining;
            }
            Some(t)
        } else {
            None
        }
    }

    /// Whether a target is worth probing: probing an already
    /// discovered `address:port` is a no-op, so the caller skips the
    /// network call.
    pub fn should_probe(&self, address: &str, port: u16) -> (r: bool)
        ensures
            r == !contains_key(self.found@, spec_server_key(address@, port)),
    {
        let key = server_key(address, port);
        !found_contains(&self.found, &key)
    }

    /// Takes back one permit and counts the probe.  A hit on a key
    /// never seen before records the server once and returns the line
    /// for the server sink; a miss, or a hit on an already recorded
    /// key, changes nothing else.  No key is ever recorded twice.
    pub fn complete_probe(&mut self, address: &str, port: u16, hit: bool) -> (r: Option<String>)
        requires
            old(self).inv(),
            old(self).outstanding > 0,
        ensures
            final(self).inv(),
            final(self).outstanding == old(self).outstanding - 1,
            final(self).progress.checked == old(self).progress.checked + 1,
            final(self).next == old(self).next,
            final(self).targets == old(self).targets,
            final(self).state == old(self).state,
            final(self).max_workers == old(self).max_workers,
            final(self).batch_size == old(self).batch_size,
            final(self).progress.total == old(self).progress.total,
            final(self).progress.channels_found == old(self).progress.channels_found,
            ({
                let key = spec_server_key(address@, port);
                match r {
                    Some(line) => {
                        &&& hit
                        &&& !contains_key(old(self).found@, key)
                        &&& line@ == key
                        &&& final(self).found@ == old(self).found@.push(line)
                        &&& final(self).progress.servers_found == old(
                            self,
                        ).progress.servers_found + 1
                    },
                    None => {
                        &&& (!hit || contains_key(old(self).found@, key))
                        &&& final(self).found == old(self).found
                        &&& final(self).progress.servers_found == old(self).progress.servers_found
                    },
                }
            }),
    {
        self.outstanding = self.outstanding - 1;
        self.progress.increment_checked();
        if hit {
            let key = server_key(address, port);
            if !found_contains(&self.found, &key) {
                let line = key.clone();
                let ghost old_found = self.found@;
                self.found.push(key);
                self.progress.increment_servers();
                proof {
                    assert forall|x: int, y: int| 0 <= x < y < self.found@.len() implies (
                    #[trigger] self.found@[x])@ != (#[trigger] self.found@[y])@ by {
                        if y < old_found.len() {
                            assert(self.found@[x] == old_found[x]);
                            assert(self.found@[y] == old_found[y]);
                        } else {
                            assert(self.found@[x] == old_found[x]);
                            assert(self.found@[y]@ == spec_server_key(address@, port));
                        }
                    }
                }
                return Some(line);
            }
        }
        None
    }

    /// Counts newly persisted channels from one harvest.
    pub fn record_channels(&mut self, n: usize)
        requires
            old(self).inv(),
        ensures
            final(self).inv(),
            *final(self) == (ScanCoordinator {
                progress: RunProgress {
                    channels_found: if old(self).progress.channels_found + n <= usize::MAX {
                        (old(self).progress.channels_found + n) as usize
                    } else {
                        usize::MAX
                    },
                    ..old(self).progress
                },
                ..*old(self)
            }),
    {
        self.progress.add_channels(n);
    }

    /// Stops new dispatch while letting every in-flight probe finish
    /// naturally: the run moves to draining with nothing else touched.
    pub fn cancel(&mut self)
        requires
            old(self).inv(),
            old(self).state is Running,
        ensures
            final(self).inv(),
            *final(self) == (ScanCoordinator { state: ScanState::Draining, ..*old(self) }),
    {
        self.state = ScanState::Draining;
    }

    /// Whether dispatch just crossed a batch boundary: the caller
    /// pauses here between batches.  Batching shapes throughput only;
    /// the permit bound alone is the safety mechanism.
    pub fn at_batch_boundary(&self) -> (r: bool)
        ensures
            r == (self.batch_size > 0 && self.next > 0 && self.next % self.batch_size == 0),
    {
        self.batch_size > 0 && self.next > 0 && self.next % self.batch_size == 0
    }

    /// Whether every dispatched probe has been reported back and no
    /// target remains to dispatch, whether exhausted or cancelled.
    pub fn is_drained(&self) -> (r: bool)
        ensures
            r == (self.outstanding == 0 && (self.next == self.targets@.len()
                || self.state is Draining)),
    {
        self.outstanding == 0 && (self.next == self.targets.len() || self.state
            == ScanState::Draining)
    }

    /// A consistent snapshot of the run's counters.
    pub fn snapshot(&self) -> (r: RunProgress)
        ensures
            r == self.progress,
    {
        self.progress.snapshot()
    }

    /// Closes a fully drained run and renders its summary record,
    /// stamped with the current local time.
    pub fn finish(&mut self) -> (r: String)
        requires
            old(self).inv(),
            old(self).state is Running || old(self).state is Draining,
            old(self).outstanding == 0,
            old(self).next == old(self).targets@.len() || old(self).state is Draining,
        ensures
            final(self).inv(),
            *final(self) == (ScanCoordinator { state: ScanState::Finished, ..*old(self) }),
            exists|ts: Seq<char>|
                r@ == spec_summary_json(
                    ts,
                    old(self).progress.checked as nat,
                    old(self).progress.servers_found as nat,
                    old(self).progress.channels_found as nat,
                    old(self).found.deep_view(),
                ),
    {
        self.state = ScanState::Finished;
        render_summary(&self.progress, &self.found)
    }
}

/// One discovered server, created once per unique `address:port`.
/// The original carried the address as a parsed value and the
/// discovery time as an opaque datetime; both are held here as plain
/// text.
#[derive(Debug)]
pub struct Server {
    pub address: String,
    pub port: u16,
    pub service: String,
    pub discovery_time: String,
}

impl Server {
    /// A discovery record stamped with the current local time.  The
    /// timestamp comes from the clock, so nothing is promised of it.
    pub fn new(address: String, port: u16, service: String) -> (r: Server)
        ensures
            r.address@ == address@,
            r.port == port,
            r.service@ == service@,
    {
        Server { address, port, service, discovery_time: crate::external::local_timestamp() }
    }

    /// The record's deduplication key.
    pub fn key(&self) -> (r: String)
        ensures
            r@ == spec_server_key(self.address@, self.port),
    {
        server_key(self.address.as_str(), self.port)
    }
}

/// The reduced scanner behind the simplified front-end: a list of
/// discoveries and a coarse progress figure.  The original held the
/// progress as a fraction; it is held here as a whole percentage.
#[derive(Debug)]
pub struct SimpleScanner {
    pub config: crate::config::SimpleScannerConfig,
    pub is_running: bool,
    pub progress: u32,
    pub found_servers: Vec<Server>,
}

impl SimpleScanner {
    pub fn new(config: crate::config::SimpleScannerConfig) -> (r: Self)
        ensures
            r.config == config,
            !r.is_running,
            r.progress == 0,
            r.found_servers@.len() == 0,
    {
        SimpleScanner { config, is_running: false, progress: 0, found_servers: Vec::new() }
    }

    pub fn update_config(&mut self, config: crate::config::SimpleScannerConfig)
        ensures
            *final(self) == (SimpleScanner { config, ..*old(self) }),
    {
        self.config = config;
    }

    pub fn add_server(&mut self, server: Server)
        ensures
            final(self).found_servers@ == old(self).found_servers@.push(server),
            final(self).config == old(self).config,
            final(self).is_running == old(self).is_running,
            final(self).progress == old(self).progress,
    {
        self.found_servers.push(server);
    }

    pub fn get_servers(&self) -> (r: &Vec<Server>)
        ensures
            r == self.found_servers,
    {
        &self.found_servers
    }

    pub fn clear_servers(&mut self)
        ensures
            final(self).found_servers@.len() == 0,
            final(self).config == old(self).config,
            final(self).is_running == old(self).is_running,
            final(self).progress == old(self).progress,
    {
        self.found_servers.clear();
    }

    /// Sets the displayed progress, a percentage.
    pub fn set_progress(&mut self, progress: u32)
        ensures
            *final(self) == (SimpleScanner { progress, ..*old(self) }),
    {
        self.progress = progress;
    }

    pub fn get_progress(&self) -> (r: u32)
        ensures
            r == self.progress,
    {
        self.progress
    }

    pub fn start(&mut self)
        ensures
            final(self).is_running,
            final(self).progress == 0,
            final(self).config == old(self).config,
            final(self).found_servers == old(self).found_servers,
    {
        self.is_running = true;
        self.progress = 0;
    }

    pub fn stop(&mut self)
        ensures
            *final(self) == (SimpleScanner { is_running: false, ..*old(self) }),
    {
        self.is_running = false;
    }

    pub fn is_running(&self) -> (r: bool)
        ensures
            r == self.is_running,
    {
        self.is_running
    }
}

/// The size of the address space, as the front-end reports it: the
/// product of the two list sizes when both files exist and are
/// non-empty, and zero otherwise.
pub fn calculate_total_combinations(
    ip_exists: bool,
    ip_count: usize,
    port_exists: bool,
    port_count: usize,
) -> (r: usize)
    requires
        ip_count * port_count <= usize::MAX,
    ensures
        r == if ip_exists && port_exists && ip_count > 0 && port_count > 0 {
            ip_count * port_count
        } else {
            0
        },
{
    if ip_exists && port_exists && ip_count > 0 && port_count > 0 {
        ip_count * port_count
    } else {
        0
    }
}

} // verus!
