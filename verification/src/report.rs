//! The tally of a scan: which ports were open, closed and filtered.

use vstd::prelude::*;
use crate::ports::format_port;
use crate::probe::PortOutcome;
use crate::text::decimal_text;

verus! {

/// The ports of a scan by outcome, each list in the order of probing.
#[derive(Debug, PartialEq, Eq)]
pub struct ScanReport {
    /// The ports that accepted the connection.
    pub open: Vec<u16>,
    /// The ports that turned the connection down.
    pub closed: Vec<u16>,
    /// The ports of which nothing definite is known.
    pub filtered: Vec<u16>,
}

/// What a [`ScanReport`] holds, as sequences.
pub ghost struct ReportValue {
    /// The open ports.
    pub open: Seq<u16>,
    /// The closed ports.
    pub closed: Seq<u16>,
    /// The filtered ports.
    pub filtered: Seq<u16>,
}

impl View for ScanReport {
    type V = ReportValue;

    open spec fn view(&self) -> ReportValue {
        ReportValue { open: self.open@, closed: self.closed@, filtered: self.filtered@ }
    }
}

/// Those of `ports` whose probe had the outcome `kind`, in the order of
/// `ports`. The probe of `ports[i]` had the outcome `outcomes[i]`.
pub open spec fn ports_with(ports: Seq<u16>, outcomes: Seq<PortOutcome>, kind: PortOutcome) -> Seq<
    u16,
>
    recommends
        ports.len() == outcomes.len(),
    decreases ports.len(),
{
    if ports.len() == 0 {
        Seq::empty()
    } else {
        let earlier = ports_with(ports.drop_last(), outcomes.drop_last(), kind);
        if outcomes.last() == kind {
            earlier.push(ports.last())
        } else {
            earlier
        }
    }
}

/// The report of a scan of `ports` whose probes had the given outcomes.
pub open spec fn report_of(ports: Seq<u16>, outcomes: Seq<PortOutcome>) -> ReportValue
    recommends
        ports.len() == outcomes.len(),
{
    ReportValue {
        open: ports_with(ports, outcomes, PortOutcome::Open),
        closed: ports_with(ports, outcomes, PortOutcome::Closed),
        filtered: ports_with(ports, outcomes, PortOutcome::Filtered),
    }
}

impl ReportValue {
    /// This report with one more probed port.
    pub open spec fn with(self, port: u16, outcome: PortOutcome) -> ReportValue {
        match outcome {
            PortOutcome::Open => ReportValue { open: self.open.push(port), ..self },
            PortOutcome::Closed => ReportValue { closed: self.closed.push(port), ..self },
            PortOutcome::Filtered => ReportValue { filtered: self.filtered.push(port), ..self },
        }
    }
}

/// The ports of a list in decimal, with a comma and a space between each two.
pub open spec fn port_list_text(ports: Seq<u16>) -> Seq<char>
    decreases ports.len(),
{
    if ports.len() == 0 {
        Seq::empty()
    } else if ports.len() == 1 {
        decimal_text(ports[0] as nat)
    } else {
        port_list_text(ports.drop_last()) + seq![',', ' '] + decimal_text(ports.last() as nat)
    }
}

/// The three lines of a report: the open, the closed and the filtered ports,
/// each line closed by a line feed.
pub open spec fn report_text(report: ReportValue) -> Seq<char> {
    "Open ports: "@ + port_list_text(report.open) + seq!['\n'] + "Closed ports: "@
        + port_list_text(report.closed) + seq!['\n'] + "Filtered ports: "@ + port_list_text(
        report.filtered,
    ) + seq!['\n']
}

/// Whether no port stands in two lists of the report.
pub open spec fn disjoint_lists(report: ReportValue) -> bool {
    &&& forall|port: u16| #[trigger]
        report.open.contains(port) ==> !report.closed.contains(port) && !report.filtered.contains(
            port,
        )
    &&& forall|port: u16| #[trigger]
        report.closed.contains(port) ==> !report.open.contains(port) && !report.filtered.contains(
            port,
        )
    &&& forall|port: u16| #[trigger]
        report.filtered.contains(port) ==> !report.open.contains(port) && !report.closed.contains(
            port,
        )
}

/// Probing one more port adds it to the list of its outcome and leaves the
/// other two lists as they are.
pub proof fn lemma_report_of_push(
    ports: Seq<u16>,
    outcomes: Seq<PortOutcome>,
    port: u16,
    outcome: PortOutcome,
)
    requires
        ports.len() == outcomes.len(),
    ensures
        report_of(ports.push(port), outcomes.push(outcome)) == report_of(ports, outcomes).with(
            port,
            outcome,
        ),
{
    assert(ports.push(port).drop_last() =~= ports);
    assert(outcomes.push(outcome).drop_last() =~= outcomes);
}

/// A port is listed under an outcome only if one of its probes had that
/// outcome.
pub proof fn lemma_listed_port_was_probed(
    ports: Seq<u16>,
    outcomes: Seq<PortOutcome>,
    kind: PortOutcome,
    port: u16,
)
    requires
        ports.len() == outcomes.len(),
        ports_with(ports, outcomes, kind).contains(port),
    ensures
        exists|i: int| 0 <= i < ports.len() && ports[i] == port && outcomes[i] == kind,
    decreases ports.len(),
{
    if ports.len() > 0 {
        let earlier = ports_with(ports.drop_last(), outcomes.drop_last(), kind);
        let last = ports.len() - 1;
        if outcomes.last() == kind && ports.last() == port {
            assert(ports[last] == port && outcomes[last] == kind);
        } else {
            if outcomes.last() == kind {
                let at = choose|i: int| 0 <= i < earlier.push(ports.last()).len() && earlier.push(ports.last())[i] == port;
                assert(earlier[at] == port);
            }
            assert(earlier.contains(port));
            lemma_listed_port_was_probed(ports.drop_last(), outcomes.drop_last(), kind, port);
            let i = choose|i: int|
                0 <= i < ports.drop_last().len() && ports.drop_last()[i] == port
                    && outcomes.drop_last()[i] == kind;
            assert(ports[i] == port && outcomes[i] == kind);
        }
    }
}

/// The three lists of a report hold, together, exactly the probed ports,
/// each as often as it was probed. Where no port was probed twice, no port
/// stands in two lists.
pub proof fn lemma_report_partitions_ports(ports: Seq<u16>, outcomes: Seq<PortOutcome>)
    requires
        ports.len() == outcomes.len(),
    ensures
        ({
            let report = report_of(ports, outcomes);
            &&& report.open.to_multiset().add(report.closed.to_multiset()).add(
                report.filtered.to_multiset(),
            ) == ports.to_multiset()
            &&& report.open.len() + report.closed.len() + report.filtered.len() == ports.len()
            &&& ports.no_duplicates() ==> disjoint_lists(report)
        }),
    decreases ports.len(),
{
    broadcast use vstd::seq_lib::group_to_multiset_ensures;

    let report = report_of(ports, outcomes);
    if ports.len() == 0 {
        assert(ports.to_multiset() =~= vstd::multiset::Multiset::<u16>::empty());
        assert(report.open.to_multiset().add(report.closed.to_multiset()).add(
            report.filtered.to_multiset(),
        ) =~= ports.to_multiset());
    } else {
        let front = ports.drop_last();
        let before = report_of(front, outcomes.drop_last());
        lemma_report_partitions_ports(front, outcomes.drop_last());
        assert(front.push(ports.last()) =~= ports);
        assert(report.open.to_multiset().add(report.closed.to_multiset()).add(
            report.filtered.to_multiset(),
        ) =~= ports.to_multiset());
    }
    if ports.no_duplicates() {
        assert forall|port: u16|
            {
                &&& !(report.open.contains(port) && report.closed.contains(port))
                &&& !(report.open.contains(port) && report.filtered.contains(port))
                &&& !(report.closed.contains(port) && report.filtered.contains(port))
            } by {
            if report.open.contains(port) {
                lemma_listed_port_was_probed(ports, outcomes, PortOutcome::Open, port);
            }
            if report.closed.contains(port) {
                lemma_listed_port_was_probed(ports, outcomes, PortOutcome::Closed, port);
            }
            if report.filtered.contains(port) {
                lemma_listed_port_was_probed(ports, outcomes, PortOutcome::Filtered, port);
            }
        }
    }
}

/// Appends the ports of `ports` in decimal, separated by a comma and a space.
pub fn push_port_list(out: &mut String, ports: &[u16])
    ensures
        final(out)@ == old(out)@ + port_list_text(ports@),
{
    let n: usize = ports.len();
    let mut i: usize = 0;
    assert(out@ =~= old(out)@ + port_list_text(ports@.take(0)));
    while i < n
        invariant
            n == ports@.len(),
            i <= n,
            out@ == old(out)@ + port_list_text(ports@.take(i as int)),
        decreases n - i,
    {
        let ghost seen = ports@.take(i as int + 1);
        proof {
            assert(seen.drop_last() =~= ports@.take(i as int));
            assert(seen.last() == ports@[i as int]);
            reveal_strlit(", ");
            assert(", "@ =~= seq![',', ' ']);
        }
        if i > 0 {
            out.append(", ");
        }
        let port = format_port(ports[i]);
        out.append(port.as_str());
        proof {
            if i == 0 {
                assert(ports@.take(0).len() == 0);
                assert(seen[0] == ports@[0]);
            }
            assert(out@ =~= old(out)@ + port_list_text(seen));
        }
        i += 1;
    }
    assert(ports@.take(n as int) =~= ports@);
}

impl ScanReport {
    /// A report of no ports.
    pub fn new() -> (report: ScanReport)
        ensures
            report@ == report_of(Seq::empty(), Seq::empty()),
    {
        ScanReport { open: Vec::new(), closed: Vec::new(), filtered: Vec::new() }
    }

    /// Adds a probed port to the list of its outcome.
    pub fn record(&mut self, port: u16, outcome: PortOutcome)
        ensures
            final(self)@ == old(self)@.with(port, outcome),
    {
        match outcome {
            PortOutcome::Open => self.open.push(port),
            PortOutcome::Closed => self.closed.push(port),
            PortOutcome::Filtered => self.filtered.push(port),
        }
    }

    /// The three lines that report the scan.
    pub fn render(&self) -> (text: String)
        ensures
            text@ == report_text(self@),
    {
        let mut text = String::new();
        proof {
            reveal_strlit("\n");
            assert("\n"@ =~= seq!['\n']);
        }
        text.append("Open ports: ");
        push_port_list(&mut text, self.open.as_slice());
        text.append("\n");
        text.append("Closed ports: ");
        push_port_list(&mut text, self.closed.as_slice());
        text.append("\n");
        text.append("Filtered ports: ");
        push_port_list(&mut text, self.filtered.as_slice());
        text.append("\n");
        assert(text@ =~= report_text(self@));
        text
    }
}

} // verus!
