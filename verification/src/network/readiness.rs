//! The network readiness suite: ICMP, DNS and HTTPS probes, and whether
//! the network counts as ready.
use vstd::prelude::*;

verus! {

/// The outcome of one readiness check.
#[derive(Clone, Copy, Debug, PartialEq, Eq, Structural)]
pub enum ReadinessStatus {
    Ready,
    NotReady,
}

/// The text of a status.
pub open spec fn status_text(s: ReadinessStatus) -> Seq<char> {
    match s {
        ReadinessStatus::Ready => "ready"@,
        ReadinessStatus::NotReady => "not-ready"@,
    }
}

/// The status a probe's answer gives.
pub open spec fn status_of(passed: bool) -> ReadinessStatus {
    if passed { ReadinessStatus::Ready } else { ReadinessStatus::NotReady }
}

impl ReadinessStatus {
    /// The status's text: "ready" or "not-ready".
    pub fn to_string(&self) -> (s: String)
        ensures
            s@ == status_text(*self),
    {
        match self {
            ReadinessStatus::Ready => String::from_str("ready"),
            ReadinessStatus::NotReady => String::from_str("not-ready"),
        }
    }
}

/// A named readiness check and its outcome.
#[derive(Clone, Copy, Debug, PartialEq, Eq)]
pub struct ReadinessCheck {
    pub name: &'static str,
    pub status: ReadinessStatus,
}

/// The three checks of the suite, in the order ICMP, DNS, HTTPS.
#[derive(Clone, Debug, PartialEq, Eq)]
pub struct ReadinessSuite {
    pub checks: [ReadinessCheck; 3],
}

fn status_from(passed: bool) -> (s: ReadinessStatus)
    ensures
        s == status_of(passed),
{
    if passed { ReadinessStatus::Ready } else { ReadinessStatus::NotReady }
}

impl ReadinessSuite {
    /// Whether the suite holds the checks "icmp", "dns" and "https", in
    /// that order, with the given outcomes.
    pub open spec fn holds(&self, icmp: bool, dns: bool, https: bool) -> bool {
        &&& self.checks[0].name@ == "icmp"@
        &&& self.checks[0].status == status_of(icmp)
        &&& self.checks[1].name@ == "dns"@
        &&& self.checks[1].status == status_of(dns)
        &&& self.checks[2].name@ == "https"@
        &&& self.checks[2].status == status_of(https)
    }

    /// The suite for the three probes' answers.
    pub fn from_probe_results(icmp: bool, dns: bool, https: bool) -> (s: Self)
        ensures
            s.holds(icmp, dns, https),
    {
        ReadinessSuite {
            checks: [
                ReadinessCheck { name: "icmp", status: status_from(icmp) },
                ReadinessCheck { name: "dns", status: status_from(dns) },
                ReadinessCheck { name: "https", status: status_from(https) },
            ],
        }
    }

    /// Runs the ICMP, DNS and HTTPS probes, in that order, and records
    /// each answer.
    pub fn run_with_probes(
        icmp_probe: impl FnOnce() -> bool,
        dns_probe: impl FnOnce() -> bool,
        https_probe: impl FnOnce() -> bool,
    ) -> (s: Self)
        requires
            call_requires(icmp_probe, ()),
            call_requires(dns_probe, ()),
            call_requires(https_probe, ()),
        ensures
            exists|icmp: bool, dns: bool, https: bool|
                call_ensures(icmp_probe, (), icmp) && call_ensures(dns_probe, (), dns)
                    && call_ensures(https_probe, (), https) && #[trigger] s.holds(icmp, dns, https),
    {
        let icmp = icmp_probe();
        let dns = dns_probe();
        let https = https_probe();
        Self::from_probe_results(icmp, dns, https)
    }

    /// Whether every check is ready.
    pub fn is_ready(&self) -> (r: bool)
        ensures
            r == (forall|i: int| 0 <= i < 3 ==> #[trigger] self.checks[i].status == ReadinessStatus::Ready),
    {
        let mut i: usize = 0;
        while i < 3
            invariant
                i <= 3,
                forall|j: int| 0 <= j < i ==> #[trigger] self.checks[j].status == ReadinessStatus::Ready,
            decreases 3 - i,
        {
            match self.checks[i].status {
                ReadinessStatus::Ready => {},
                ReadinessStatus::NotReady => {
                    return false;
                },
            }
            i = i + 1;
        }
        true
    }
}

/// The suite is ready exactly when all three probes passed.
pub proof fn lemma_ready_iff_all_probes_pass(s: ReadinessSuite, icmp: bool, dns: bool, https: bool)
    requires
        s.holds(icmp, dns, https),
    ensures
        (forall|i: int| 0 <= i < 3 ==> #[trigger] s.checks[i].status == ReadinessStatus::Ready)
            <==> (icmp && dns && https),
{
    if icmp && dns && https {
        assert forall|i: int| 0 <= i < 3 implies #[trigger] s.checks[i].status == ReadinessStatus::Ready by {
            assert(i == 0 || i == 1 || i == 2);
        }
    } else {
        if !icmp {
            assert(s.checks[0].status != ReadinessStatus::Ready);
        } else if !dns {
            assert(s.checks[1].status != ReadinessStatus::Ready);
        } else {
            assert(s.checks[2].status != ReadinessStatus::Ready);
        }
    }
}

} // verus!
