//! A scan as a sequence of steps: which port to probe next, and what to
//! make of the answer. The caller opens the connections.

use vstd::prelude::*;
use crate::address::{address_of_text, parse_ip_address, AddressValue, IpAddress};
use crate::error::ScanError;
use crate::ports::{parse_port_range, ports_of_text, valid_ports};
use crate::probe::{classify, outcome_of, ConnectSignal, PortOutcome};
use crate::report::{
    disjoint_lists, lemma_report_of_push, lemma_report_partitions_ports, report_of, ScanReport,
};

verus! {

/// What to scan: one target and the ports to probe on it, in order.
#[derive(Debug, PartialEq, Eq)]
pub struct ScanRequest {
    target: IpAddress,
    ports: Vec<u16>,
}

/// What a target and a port specification, both as text, ask for: the
/// address and the ports, or the reason why there is no such scan. The
/// address is looked at first.
pub open spec fn request_of_text(address: Seq<char>, ports: Seq<char>) -> Result<
    (AddressValue, Seq<u16>),
    ScanError,
> {
    match address_of_text(address) {
        None => Err(ScanError::InvalidAddress),
        Some(target) => match ports_of_text(ports) {
            Err(e) => Err(e),
            Ok(list) => Ok((target, list)),
        },
    }
}

impl ScanRequest {
    #[verifier::type_invariant]
    spec fn well_formed(self) -> bool {
        valid_ports(self.ports@)
    }

    /// The address of the target.
    pub closed spec fn target_value(self) -> AddressValue {
        self.target@
    }

    /// The ports to probe, in order.
    pub closed spec fn ports_value(self) -> Seq<u16> {
        self.ports@
    }

    /// Makes a request of a target address and a port specification.
    pub fn from_text(address: &str, ports: &str) -> (request: Result<ScanRequest, ScanError>)
        ensures
            match request {
                Ok(r) => request_of_text(address@, ports@) == Ok::<
                    (AddressValue, Seq<u16>),
                    ScanError,
                >((r.target_value(), r.ports_value())),
                Err(e) => request_of_text(address@, ports@) == Err::<
                    (AddressValue, Seq<u16>),
                    ScanError,
                >(e),
            },
    {
        let target = match parse_ip_address(address) {
            Some(target) => target,
            None => {
                return Err(ScanError::InvalidAddress);
            },
        };
        match parse_port_range(ports) {
            Ok(list) => Ok(ScanRequest { target, ports: list }),
            Err(e) => Err(e),
        }
    }

    /// The address of the target.
    pub fn target(&self) -> (target: IpAddress)
        ensures
            target@ == self.target_value(),
    {
        self.target
    }

    /// The ports to probe, in order: at least one, none of them zero, none
    /// of them twice.
    pub fn ports(&self) -> (ports: &[u16])
        ensures
            ports@ == self.ports_value(),
            valid_ports(ports@),
    {
        proof {
            use_type_invariant(self);
        }
        self.ports.as_slice()
    }
}

/// A scan under way: the request, and the outcome of every probe made so
/// far.
pub struct Scan {
    request: ScanRequest,
    done: usize,
    report: ScanReport,
    outcomes: Ghost<Seq<PortOutcome>>,
}

impl Scan {
    #[verifier::type_invariant]
    spec fn well_formed(self) -> bool {
        &&& valid_ports(self.request.ports@)
        &&& self.done <= self.request.ports@.len()
        &&& self.done == self.outcomes@.len()
        &&& self.report@ == report_of(
            self.request.ports@.take(self.done as int),
            self.outcomes@,
        )
    }

    /// The address of the target.
    pub closed spec fn target_value(self) -> AddressValue {
        self.request.target@
    }

    /// The ports to probe, in order.
    pub closed spec fn ports(self) -> Seq<u16> {
        self.request.ports@
    }

    /// The outcomes of the probes made so far: `outcomes()[i]` is that of
    /// `ports()[i]`.
    pub closed spec fn outcomes(self) -> Seq<PortOutcome> {
        self.outcomes@
    }

    /// The ports probed so far.
    pub open spec fn probed(self) -> Seq<u16> {
        self.ports().take(self.outcomes().len() as int)
    }

    /// Whether every port has been probed.
    pub open spec fn complete(self) -> bool {
        self.outcomes().len() == self.ports().len()
    }

    /// Starts the scan that `request` asks for. No port is probed yet.
    pub fn new(request: ScanRequest) -> (scan: Scan)
        ensures
            scan.target_value() == request.target_value(),
            scan.ports() == request.ports_value(),
            scan.outcomes() == Seq::<PortOutcome>::empty(),
    {
        proof {
            use_type_invariant(&request);
            assert(request.ports@.take(0) =~= Seq::<u16>::empty());
        }
        Scan { request, done: 0, report: ScanReport::new(), outcomes: Ghost(Seq::empty()) }
    }

    /// The address of the target.
    pub fn target(&self) -> (target: IpAddress)
        ensures
            target@ == self.target_value(),
    {
        self.request.target
    }

    /// The port to probe next, or `None` once every port has been probed.
    pub fn next_port(&self) -> (port: Option<u16>)
        ensures
            port == if self.complete() {
                None
            } else {
                Some(self.ports()[self.outcomes().len() as int])
            },
            self.outcomes().len() <= self.ports().len(),
    {
        proof {
            use_type_invariant(self);
        }
        if self.done < self.request.ports.len() {
            Some(self.request.ports[self.done])
        } else {
            None
        }
    }

    /// The scan after the connection attempt on the port that
    /// [`Scan::next_port`] named has ended with `signal`: that port is
    /// classified, and the port after it comes next. Once every port has
    /// been probed, a further signal changes nothing.
    pub fn record(self, signal: ConnectSignal) -> (next: Scan)
        ensures
            next.target_value() == self.target_value(),
            next.ports() == self.ports(),
            next.outcomes() == if self.complete() {
                self.outcomes()
            } else {
                self.outcomes().push(outcome_of(signal))
            },
    {
        proof {
            use_type_invariant(&self);
        }
        let Scan { request, done, mut report, outcomes } = self;
        if done < request.ports.len() {
            let port: u16 = request.ports[done];
            let outcome = classify(signal);
            proof {
                let before = request.ports@.take(done as int);
                lemma_report_of_push(before, outcomes@, port, outcome);
                assert(before.push(port) =~= request.ports@.take(done as int + 1));
            }
            report.record(port, outcome);
            Scan { request, done: done + 1, report, outcomes: Ghost(outcomes@.push(outcome)) }
        } else {
            Scan { request, done, report, outcomes }
        }
    }

    /// The report of the probes made so far.
    pub fn report(&self) -> (report: &ScanReport)
        ensures
            report@ == report_of(self.probed(), self.outcomes()),
            self.outcomes().len() <= self.ports().len(),
            valid_ports(self.ports()),
    {
        proof {
            use_type_invariant(self);
        }
        &self.report
    }

    /// Ends the scan and hands out the report of the probes made.
    pub fn into_report(self) -> (report: ScanReport)
        ensures
            report@ == report_of(self.probed(), self.outcomes()),
            self.outcomes().len() <= self.ports().len(),
            valid_ports(self.ports()),
    {
        proof {
            use_type_invariant(&self);
        }
        self.report
    }
}

/// The outcomes that a run of signals stands for, one for one.
pub open spec fn outcomes_of(signals: Seq<ConnectSignal>) -> Seq<PortOutcome> {
    Seq::new(signals.len(), |i: int| outcome_of(signals[i]))
}

/// How many probes a scan of `ports` ports makes when `signals` answers
/// are at hand: one for each port that has an answer.
pub open spec fn probes_made(ports: nat, signals: nat) -> nat {
    if signals < ports {
        signals
    } else {
        ports
    }
}

/// Whatever the probes of a scan come to, the three lists of its report
/// hold, together, each scanned port exactly once, and no port stands in
/// two of them.
pub proof fn lemma_scan_partitions_ports(ports: Seq<u16>, signals: Seq<ConnectSignal>)
    requires
        valid_ports(ports),
        signals.len() == ports.len(),
    ensures
        ({
            let report = report_of(ports, outcomes_of(signals));
            &&& report.open.to_multiset().add(report.closed.to_multiset()).add(
                report.filtered.to_multiset(),
            ) == ports.to_multiset()
            &&& disjoint_lists(report)
        }),
{
    lemma_report_partitions_ports(ports, outcomes_of(signals));
}

/// Two runs of signals that stand for the same outcomes, port by port, give
/// the same report.
pub proof fn lemma_same_outcomes_same_report(
    ports: Seq<u16>,
    first: Seq<ConnectSignal>,
    second: Seq<ConnectSignal>,
)
    requires
        first.len() == second.len(),
        forall|i: int| 0 <= i < first.len() ==> outcome_of(first[i]) == outcome_of(second[i]),
    ensures
        report_of(ports, outcomes_of(first)) == report_of(ports, outcomes_of(second)),
{
    assert(outcomes_of(first) =~= outcomes_of(second));
}

/// Scans the ports of `request`, taking `signals[i]` as the end of the
/// connection attempt on the `i`-th port. A port without a signal is not
/// probed and stands in no list; a signal without a port is passed over.
pub fn scanner(request: ScanRequest, signals: &[ConnectSignal]) -> (report: ScanReport)
    ensures
        ({
            let made = probes_made(request.ports_value().len(), signals@.len()) as int;
            report@ == report_of(
                request.ports_value().take(made),
                outcomes_of(signals@.take(made)),
            )
        }),
        valid_ports(request.ports_value()),
{
    let ghost ports = request.ports_value();
    let n: usize = signals.len();
    let mut scan = Scan::new(request);
    let mut i: usize = 0;
    proof {
        assert(outcomes_of(signals@.take(0)) =~= Seq::<PortOutcome>::empty());
    }
    while i < n
        invariant
            n == signals@.len(),
            i <= n,
            scan.ports() == ports,
            scan.outcomes() == outcomes_of(
                signals@.take(probes_made(ports.len(), i as nat) as int),
            ),
        decreases n - i,
    {
        let ghost before = scan.outcomes();
        let next = scan.next_port();
        scan = scan.record(signals[i]);
        proof {
            let made = probes_made(ports.len(), i as nat) as int;
            if next is Some {
                assert(made == i);
                assert(outcomes_of(signals@.take(i as int + 1)) =~= before.push(
                    outcome_of(signals@[i as int]),
                ));
            }
        }
        i += 1;
    }
    scan.into_report()
}

} // verus!
