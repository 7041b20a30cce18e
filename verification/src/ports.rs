//! The search for a free port.

use vstd::prelude::*;

use crate::text::{decimal, decimal_text};

verus! {

/// How many ports after the first are tried.
pub const PORT_SEARCH_RANGE: u16 = 99;

/// The last port that a search from `start` tries.
pub open spec fn last_port(start: u16) -> int {
    if start + PORT_SEARCH_RANGE <= u16::MAX {
        start + PORT_SEARCH_RANGE
    } else {
        u16::MAX as int
    }
}

/// The ports that a search from `start` tries, in order.
pub open spec fn port_range(start: u16) -> Seq<u16> {
    Seq::new((last_port(start) - start + 1) as nat, |i: int| (start + i) as u16)
}

/// A search for a free port.
pub struct PortSearch {
    start: u16,
    next: Option<u16>,
}

impl PortSearch {
    /// Where the search began.
    pub closed spec fn origin(self) -> u16 {
        self.start
    }

    /// The ports that are still to be tried, in order.
    pub closed spec fn remaining(self) -> Seq<u16> {
        match self.next {
            Some(port) => port_range(self.start).skip(port - self.start),
            None => Seq::empty(),
        }
    }

    /// Whether the search stands somewhere in its range.
    pub closed spec fn wf(self) -> bool {
        match self.next {
            Some(port) => self.start <= port <= last_port(self.start),
            None => true,
        }
    }

    /// Begins a search.
    pub fn new(start: u16) -> (search: PortSearch)
        ensures
            search.wf(),
            search.origin() == start,
            search.remaining() == port_range(start),
    {
        assert(port_range(start).skip(0) == port_range(start));
        PortSearch { start, next: Some(start) }
    }

    /// Where the search began.
    pub fn start(&self) -> (port: u16)
        ensures
            port == self.origin(),
    {
        self.start
    }

    /// The port to try now, unless all were refused.
    pub fn current(&self) -> (port: Option<u16>)
        requires
            self.wf(),
        ensures
            match port {
                Some(p) => self.remaining().len() > 0 && p == self.remaining()[0],
                None => self.remaining().len() == 0,
            },
    {
        self.next
    }

    /// Notes that the current port is taken.
    pub fn refused(&mut self)
        requires
            old(self).wf(),
            old(self).remaining().len() > 0,
        ensures
            final(self).wf(),
            final(self).origin() == old(self).origin(),
            final(self).remaining() == old(self).remaining().drop_first(),
    {
        let ghost before = self.remaining();
        let end: u16 = self.start.saturating_add(PORT_SEARCH_RANGE);
        match self.next {
            Some(port) => {
                if port < end {
                    self.next = Some(port + 1);
                } else {
                    self.next = None;
                }
            },
            None => {},
        }
        assert(self.remaining() =~= before.drop_first());
    }
}

/// The warning that another port than the one asked for is used.
pub open spec fn port_warning(start: u16, port: u16) -> Seq<char> {
    "\n  \x1b[33m⚠\x1b[0m  Port "@ + decimal(start as nat) + " in use — using "@ + decimal(
        port as nat,
    ) + " instead.\n"@
}

/// Warns that another port than the one asked for is used, if that is so.
pub fn port_notice(start: u16, port: u16) -> (notice: Option<String>)
    ensures
        match notice {
            Some(text) => port != start && text@ == port_warning(start, port),
            None => port == start,
        },
{
    if port == start {
        return None;
    }
    let mut text = "\n  \x1b[33m⚠\x1b[0m  Port ".to_owned();
    text.append(decimal_text(start as u64).as_str());
    text.append(" in use — using ");
    text.append(decimal_text(port as u64).as_str());
    text.append(" instead.\n");
    Some(text)
}

/// The complaint that every port was refused.
pub open spec fn no_port_message(start: u16) -> Seq<char> {
    "No free port found in range "@ + decimal(start as nat) + "–"@ + decimal(
        last_port(start) as nat,
    )
}

/// Complains that every port was refused.
pub fn no_free_port(start: u16) -> (text: String)
    ensures
        text@ == no_port_message(start),
{
    let mut text = "No free port found in range ".to_owned();
    text.append(decimal_text(start as u64).as_str());
    text.append("–");
    text.append(decimal_text(start.saturating_add(PORT_SEARCH_RANGE) as u64).as_str());
    text
}

// ---------------------------------------------------------------------------
// Laws
// ---------------------------------------------------------------------------

/// A search tries the asked port first, then each next port up to the end of its range: a hundred
/// ports, or fewer where the port numbers end, each once and in ascending order.
pub proof fn ports_ascend(start: u16)
    ensures
        port_range(start).len() == last_port(start) - start + 1,
        1 <= port_range(start).len() <= PORT_SEARCH_RANGE + 1,
        port_range(start)[0] == start,
        forall|i: int|
            0 <= i < port_range(start).len() ==> #[trigger] port_range(start)[i] == start + i,
{
}

/// The first port of a list that is free.
pub open spec fn first_free(ports: Seq<u16>, free: Set<u16>) -> Option<u16>
    decreases ports.len(),
{
    if ports.len() == 0 {
        None
    } else if free.contains(ports[0]) {
        Some(ports[0])
    } else {
        first_free(ports.drop_first(), free)
    }
}

proof fn lemma_first_free(ports: Seq<u16>, free: Set<u16>)
    ensures
        match first_free(ports, free) {
            Some(port) => free.contains(port) && exists|i: int|
                0 <= i < ports.len() && #[trigger] ports[i] == port && forall|j: int|
                    0 <= j < i ==> !free.contains(#[trigger] ports[j]),
            None => forall|i: int| 0 <= i < ports.len() ==> !free.contains(#[trigger] ports[i]),
        },
    decreases ports.len(),
{
    if ports.len() > 0 && !free.contains(ports[0]) {
        let rest = ports.drop_first();
        lemma_first_free(rest, free);
        if first_free(rest, free) is Some {
            let port = first_free(rest, free)->0;
            let i = choose|i: int|
                0 <= i < rest.len() && #[trigger] rest[i] == port && forall|j: int|
                    0 <= j < i ==> !free.contains(#[trigger] rest[j]);
            assert(ports[i + 1] == port);
            assert forall|j: int| 0 <= j < i + 1 implies !free.contains(#[trigger] ports[j]) by {
                if j > 0 {
                    assert(rest[j - 1] == ports[j]);
                }
            }
        } else {
            assert forall|i: int| 0 <= i < ports.len() implies !free.contains(
                #[trigger] ports[i],
            ) by {
                if i > 0 {
                    assert(rest[i - 1] == ports[i]);
                }
            }
        }
    }
}

/// A search that ends at the first free port of its range ends at the lowest one, and fails only
/// where the whole range is taken.
pub proof fn search_finds_the_lowest_free_port(start: u16, free: Set<u16>)
    ensures
        match first_free(port_range(start), free) {
            Some(port) => {
                &&& free.contains(port)
                &&& start <= port <= last_port(start)
                &&& forall|p: u16| start <= p < port ==> !free.contains(p)
            },
            None => forall|p: u16| start <= p <= last_port(start) ==> !free.contains(p),
        },
{
    let ports = port_range(start);
    lemma_first_free(ports, free);
    match first_free(ports, free) {
        Some(port) => {
            let i = choose|i: int|
                0 <= i < ports.len() && #[trigger] ports[i] == port && forall|j: int|
                    0 <= j < i ==> !free.contains(#[trigger] ports[j]);
            assert forall|p: u16| start <= p < port implies !free.contains(p) by {
                assert(ports[p - start] == p);
            }
        },
        None => {
            assert forall|p: u16| start <= p <= last_port(start) implies !free.contains(p) by {
                assert(ports[p - start] == p);
            }
        },
    }
}

/// A search from a port tries that port and the 99 after it, one by one; near the end of the port
/// numbers it ends with the last one, 65535.
pub proof fn search_tries_a_hundred_ports(start: u16)
    ensures
        port_range(start).len() == if start <= 65436 {
            100
        } else {
            65536 - start
        },
        forall|i: int|
            0 <= i < port_range(start).len() ==> #[trigger] port_range(start)[i] == start + i,
        last_port(start) == port_range(start).last(),
        PORT_SEARCH_RANGE == 99,
{
}

/// The warning names the port that was asked for and then the one that is used; the complaint names
/// the first port of the range and then the last.
pub proof fn messages_name_their_ports(start: u16, port: u16)
    ensures
        port_warning(start, port) == "\n  \x1b[33m⚠\x1b[0m  Port "@ + decimal(start as nat)
            + " in use — using "@ + decimal(port as nat) + " instead.\n"@,
        start <= 65436 ==> no_port_message(start) == "No free port found in range "@ + decimal(
            start as nat,
        ) + "–"@ + decimal((start + 99) as nat),
        start > 65436 ==> no_port_message(start) == "No free port found in range "@ + decimal(
            start as nat,
        ) + "–"@ + decimal(65535),
{
}

} // verus!
