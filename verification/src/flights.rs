//! The status of a flight, passed to Python and read from the database as
//! the name of its variant.
use vstd::prelude::*;

verus! {

/// The status of a flight.
#[derive(Clone, Copy, Debug, PartialEq, Eq, Structural)]
pub enum StatusFlight {
    Departed,
    Arrived,
    OnTime,
    Cancelled,
    Delayed,
    Scheduled,
}

/// The name of a status: the name of its variant.
pub open spec fn status_name(s: StatusFlight) -> Seq<char> {
    match s {
        StatusFlight::Departed => "Departed"@,
        StatusFlight::Arrived => "Arrived"@,
        StatusFlight::OnTime => "OnTime"@,
        StatusFlight::Cancelled => "Cancelled"@,
        StatusFlight::Delayed => "Delayed"@,
        StatusFlight::Scheduled => "Scheduled"@,
    }
}

fn same_text(a: &str, b: &str) -> (r: bool)
    ensures
        r == (a@ == b@),
{
    String::from_str(a) == String::from_str(b)
}

impl StatusFlight {
    /// The name that Python sees.
    pub fn name(&self) -> (r: &'static str)
        ensures
            r@ == status_name(*self),
    {
        match self {
            StatusFlight::Departed => "Departed",
            StatusFlight::Arrived => "Arrived",
            StatusFlight::OnTime => "OnTime",
            StatusFlight::Cancelled => "Cancelled",
            StatusFlight::Delayed => "Delayed",
            StatusFlight::Scheduled => "Scheduled",
        }
    }

    /// The status with the given name, if there is one.
    pub fn from_name(s: &str) -> (r: Option<StatusFlight>)
        ensures
            r matches Some(v) ==> status_name(v) == s@,
            r is None ==> forall|v: StatusFlight| status_name(v) != s@,
            forall|v: StatusFlight| status_name(v) == s@ ==> r == Some(v),
    {
        let r = if same_text(s, "Departed") {
            Some(StatusFlight::Departed)
        } else if same_text(s, "Arrived") {
            Some(StatusFlight::Arrived)
        } else if same_text(s, "OnTime") {
            Some(StatusFlight::OnTime)
        } else if same_text(s, "Cancelled") {
            Some(StatusFlight::Cancelled)
        } else if same_text(s, "Delayed") {
            Some(StatusFlight::Delayed)
        } else if same_text(s, "Scheduled") {
            Some(StatusFlight::Scheduled)
        } else {
            proof {
                assert forall|v: StatusFlight| status_name(v) != s@ by {
                    match v {
                        StatusFlight::Departed => {},
                        StatusFlight::Arrived => {},
                        StatusFlight::OnTime => {},
                        StatusFlight::Cancelled => {},
                        StatusFlight::Delayed => {},
                        StatusFlight::Scheduled => {},
                    }
                }
            }
            None
        };
        proof {
            assert forall|v: StatusFlight| status_name(v) == s@ implies r == Some(v) by {
                if let Some(w) = r {
                    lemma_status_names_distinct(v, w);
                }
            }
        }
        r
    }
}

/// Law: no two statuses share a name, so a name read back gives the status
/// that was written.
pub proof fn lemma_status_names_distinct(a: StatusFlight, b: StatusFlight)
    ensures
        status_name(a) == status_name(b) ==> a == b,
{
    reveal_strlit("Departed");
    reveal_strlit("Arrived");
    reveal_strlit("OnTime");
    reveal_strlit("Cancelled");
    reveal_strlit("Delayed");
    reveal_strlit("Scheduled");
    if status_name(a) == status_name(b) && a != b {
        let x = status_name(a);
        let y = status_name(b);
        assert(x.len() == y.len());
        assert(x[0] == y[0]);
        assert(x[1] == y[1]);
    }
}

/// Law: the name of each status is the text of its own variant's
/// identifier, in declaration order.
pub proof fn lemma_status_names_are_identifiers()
    ensures
        status_name(StatusFlight::Departed) == "Departed"@,
        status_name(StatusFlight::Arrived) == "Arrived"@,
        status_name(StatusFlight::OnTime) == "OnTime"@,
        status_name(StatusFlight::Cancelled) == "Cancelled"@,
        status_name(StatusFlight::Delayed) == "Delayed"@,
        status_name(StatusFlight::Scheduled) == "Scheduled"@,
{
}

} // verus!
