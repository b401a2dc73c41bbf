//! Which network the machine is on: its own access point for setup, or the
//! configured one, which it joins again whenever the link is lost.

use crate::bounded::text32_as_str;
use crate::settings::WifiSettings;
use vstd::prelude::*;

verus! {

/// How often the link is looked at after a join before it is joined again.
pub const LINK_CHECKS: u8 = 50;

/// Time between those looks, in milliseconds.
pub const LINK_CHECK_MS: u32 = 100;

/// Time between looks at a link that is up, in milliseconds.
pub const LINK_WATCH_MS: u32 = 500;

/// Time before a failed join is tried again, in milliseconds.
pub const JOIN_RETRY_MS: u32 = 5000;

/// An access point is opened for setup: when it is forced, or when no network is
/// configured.
pub open spec fn opens_access_point(force_ap: bool, wifi: crate::settings::WifiModel) -> bool {
    force_ap || wifi.ssid.len() == 0
}

/// Whether to open an access point for setup.
pub fn is_access_point(force_ap: bool, wifi: &WifiSettings) -> (r: bool)
    ensures
        r == opens_access_point(force_ap, wifi@),
{
    force_ap || text32_as_str(&wifi.ssid).is_empty()
}

/// Where a client is with its network.
#[derive(Clone, Copy, Debug, PartialEq, Eq, Structural)]
pub enum Link {
    /// About to join.
    Joining,
    /// Joined; the link was not up yet so many times.
    Checking(u8),
    /// The link has come up.
    Watching,
}

/// What came of the last action.
#[derive(Clone, Copy, Debug, PartialEq, Eq, Structural)]
pub enum LinkEvent {
    /// A join succeeded or failed.
    Joined(bool),
    /// The link was looked at, and is up or not.
    Up(bool),
}

impl Link {
    pub open spec fn wf(self) -> bool {
        self matches Link::Checking(n) ==> n < LINK_CHECKS
    }

    /// What the client is about to be told: a joining one of a join, any other
    /// of the link.
    pub open spec fn expects(self, event: LinkEvent) -> bool {
        (self is Joining) == (event is Joined)
    }

    /// Where an event leads, and how long to wait there before acting.
    pub open spec fn next(self, event: LinkEvent) -> (Link, u32) {
        match (self, event) {
            (Link::Joining, LinkEvent::Joined(true)) => (Link::Checking(0), 0),
            (Link::Joining, _) => (Link::Joining, JOIN_RETRY_MS),
            (Link::Checking(_), LinkEvent::Up(true)) => (Link::Watching, 0),
            (Link::Checking(n), _) => if n + 1 < LINK_CHECKS {
                (Link::Checking((n + 1) as u8), LINK_CHECK_MS)
            } else {
                (Link::Joining, LINK_CHECK_MS)
            },
            (Link::Watching, LinkEvent::Up(true)) => (Link::Watching, LINK_WATCH_MS),
            (Link::Watching, _) => (Link::Joining, 0),
        }
    }

    /// Where an event leads, and how many milliseconds to wait before acting:
    /// joining in `Joining`, looking at the link elsewhere.
    pub fn step(self, event: LinkEvent) -> (r: (Link, u32))
        requires
            self.wf(),
            self.expects(event),
        ensures
            r == self.next(event),
            r.0.wf(),
    {
        match (self, event) {
            (Link::Joining, LinkEvent::Joined(true)) => (Link::Checking(0), 0),
            (Link::Joining, _) => (Link::Joining, JOIN_RETRY_MS),
            (Link::Checking(_), LinkEvent::Up(true)) => (Link::Watching, 0),
            (Link::Checking(n), _) => if n + 1 < LINK_CHECKS {
                (Link::Checking(n + 1), LINK_CHECK_MS)
            } else {
                (Link::Joining, LINK_CHECK_MS)
            },
            (Link::Watching, LinkEvent::Up(true)) => (Link::Watching, LINK_WATCH_MS),
            (Link::Watching, _) => (Link::Joining, 0),
        }
    }
}

/// A client after its link was found down `n` times in a row.
pub open spec fn after_failures(n: nat) -> Link
    decreases n,
{
    if n == 0 {
        Link::Joining.next(LinkEvent::Joined(true)).0
    } else {
        after_failures((n - 1) as nat).next(LinkEvent::Up(false)).0
    }
}

/// A join whose link does not come up within fifty looks is tried again.
pub proof fn law_link_that_stays_down_is_joined_again(n: nat)
    requires
        n <= LINK_CHECKS,
    ensures
        after_failures(n) == if n < LINK_CHECKS {
            Link::Checking(n as u8)
        } else {
            Link::Joining
        },
    decreases n,
{
    if n > 0 {
        law_link_that_stays_down_is_joined_again((n - 1) as nat);
    }
}

/// A link that was up and is lost is joined again at once.
pub proof fn law_lost_link_is_joined_again()
    ensures
        Link::Watching.next(LinkEvent::Up(false)) == (Link::Joining, 0u32),
{
}

} // verus!
