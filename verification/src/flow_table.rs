//! Flow tuples and the table of live connections.
//!
//! A flow tuple identifies a connection independently of direction: the
//! tuple `(A:pA -> B:pB)` matches `(B:pB -> A:pA)` in the reverse
//! direction. The table keys connections by flow tuple, creates them on
//! first sight, routes packets to them, and retires them when they close
//! or desynchronize.

use vstd::prelude::*;

use crate::connection::{
    conn_packet_post, fresh_connection, Connection, ConnectionEvent, ConnectionState,
};
use crate::serialized::PacketExtra;
use crate::{IpAddress, TcpMeta};

verus! {

/// IANA protocol number of TCP.
pub const IPPROTO_TCP: u8 = 6;

/// IANA protocol number of UDP.
pub const IPPROTO_UDP: u8 = 17;

/// A flow tuple: protocol and two address/port endpoints.
#[derive(Clone, Copy, PartialEq, Eq, Structural, Debug)]
pub struct Flow {
    /// IP protocol number.
    pub proto: u8,
    /// Source address.
    pub src_addr: IpAddress,
    /// Source port.
    pub src_port: u16,
    /// Destination address.
    pub dst_addr: IpAddress,
    /// Destination port.
    pub dst_port: u16,
}

/// Result of comparing two flow tuples.
#[derive(Clone, Copy, PartialEq, Eq, Structural, Debug)]
pub enum FlowCompare {
    /// Identical to the other flow.
    Forward,
    /// The reverse of the other flow.
    Reverse,
    /// No relation.
    Unrelated,
}

/// How `a` relates to `b`: same endpoints in the same order, the same
/// endpoints swapped, or no relation.
pub open spec fn spec_flow_compare(a: Flow, b: Flow) -> FlowCompare {
    if a.proto != b.proto {
        FlowCompare::Unrelated
    } else if a.src_addr == b.src_addr && a.dst_addr == b.dst_addr && a.src_port == b.src_port
        && a.dst_port == b.dst_port {
        FlowCompare::Forward
    } else if a.src_addr == b.dst_addr && a.dst_addr == b.src_addr && a.src_port == b.dst_port
        && a.dst_port == b.src_port {
        FlowCompare::Reverse
    } else {
        FlowCompare::Unrelated
    }
}

/// The flow tuple of a packet.
pub open spec fn spec_flow_of_meta(meta: TcpMeta) -> Flow {
    Flow {
        proto: IPPROTO_TCP,
        src_addr: meta.src_addr,
        src_port: meta.src_port,
        dst_addr: meta.dst_addr,
        dst_port: meta.dst_port,
    }
}

/// Relatedness of flows carries across a shared flow: two flows related to
/// the same flow are related to each other.
pub proof fn lemma_flow_compare_related(a: Flow, b: Flow, c: Flow)
    requires
        spec_flow_compare(a, b) != FlowCompare::Unrelated,
        spec_flow_compare(b, c) != FlowCompare::Unrelated,
    ensures
        spec_flow_compare(a, c) != FlowCompare::Unrelated,
{
}

/// In a well-formed table at most one entry's flow can match a given flow,
/// since any two matching entries would be related to each other.
proof fn lemma_unique_match(t: FlowTable, flow: Flow, i: int, j: int)
    requires
        t.wf(),
        0 <= i < t.entries@.len(),
        0 <= j < t.entries@.len(),
        spec_flow_compare(t.entries@[i].0, flow) != FlowCompare::Unrelated,
        spec_flow_compare(t.entries@[j].0, flow) != FlowCompare::Unrelated,
    ensures
        i == j,
{
    if i != j {
        assert(spec_flow_compare(flow, t.entries@[j].0) != FlowCompare::Unrelated);
        lemma_flow_compare_related(t.entries@[i].0, flow, t.entries@[j].0);
    }
}

impl Flow {
    /// The flow with its endpoints swapped.
    pub open spec fn spec_reversed(self) -> Flow {
        Flow {
            proto: self.proto,
            src_addr: self.dst_addr,
            src_port: self.dst_port,
            dst_addr: self.src_addr,
            dst_port: self.src_port,
        }
    }

    /// Swap source and destination in place.
    pub fn reverse(&mut self)
        ensures
            *final(self) == old(self).spec_reversed(),
    {
        let tmp_addr = self.src_addr;
        let tmp_port = self.src_port;
        self.src_addr = self.dst_addr;
        self.src_port = self.dst_port;
        self.dst_addr = tmp_addr;
        self.dst_port = tmp_port;
    }

    /// The flow with source and destination swapped.
    pub fn reversed(&self) -> (r: Flow)
        ensures
            r == self.spec_reversed(),
    {
        Flow {
            proto: self.proto,
            src_addr: self.dst_addr,
            src_port: self.dst_port,
            dst_addr: self.src_addr,
            dst_port: self.src_port,
        }
    }

    /// Compare this flow to another.
    pub fn compare(&self, other: &Flow) -> (r: FlowCompare)
        ensures
            r == spec_flow_compare(*self, *other),
    {
        if self.proto != other.proto {
            FlowCompare::Unrelated
        } else if self.src_addr == other.src_addr && self.dst_addr == other.dst_addr
            && self.src_port == other.src_port && self.dst_port == other.dst_port {
            FlowCompare::Forward
        } else if self.src_addr == other.dst_addr && self.dst_addr == other.src_addr
            && self.src_port == other.dst_port && self.dst_port == other.src_port {
            FlowCompare::Reverse
        } else {
            FlowCompare::Unrelated
        }
    }

    /// The flow tuple of a packet.
    pub fn from_meta(meta: &TcpMeta) -> (r: Flow)
        ensures
            r == spec_flow_of_meta(*meta),
    {
        Flow {
            proto: IPPROTO_TCP,
            src_addr: meta.src_addr,
            src_port: meta.src_port,
            dst_addr: meta.dst_addr,
            dst_port: meta.dst_port,
        }
    }

    /// Compare this flow to a packet's flow tuple.
    pub fn compare_tcp_meta(&self, other: &TcpMeta) -> (r: FlowCompare)
        ensures
            r == spec_flow_compare(*self, spec_flow_of_meta(*other)),
    {
        let other_flow = Flow::from_meta(other);
        self.compare(&other_flow)
    }
}

impl FlowCompare {
    /// The packet direction this comparison stands for, if any.
    pub fn to_direction(&self) -> (r: Option<crate::connection::Direction>)
        ensures
            r == match *self {
                FlowCompare::Forward => Some(crate::connection::Direction::Forward),
                FlowCompare::Reverse => Some(crate::connection::Direction::Reverse),
                FlowCompare::Unrelated => None::<crate::connection::Direction>,
            },
    {
        match self {
            FlowCompare::Forward => Some(crate::connection::Direction::Forward),
            FlowCompare::Reverse => Some(crate::connection::Direction::Reverse),
            FlowCompare::Unrelated => None,
        }
    }
}

/// Result of [`FlowTable::handle_packet_direct`].
#[derive(Clone, Copy, PartialEq, Eq, Structural, Debug)]
pub enum HandlePacketResult {
    /// The packet was processed and changed something.
    Handled,
    /// The packet was ignored (out of window, duplicate, or the like).
    Dropped,
    /// No connection exists for the packet's flow.
    NotFound,
    /// The connection is fatally desynchronized and must be recreated.
    Desync,
}

/// The table of live connections, keyed by direction-insensitive flow.
pub struct FlowTable {
    /// Live connections, each keyed by a flow tuple related to its own.
    pub entries: Vec<(Flow, Connection)>,
    /// Retired connections, kept when `save_retired` is set so the caller
    /// can flush and drop them.
    pub retired: Vec<Connection>,
    /// Whether retired connections are kept in `retired`.
    pub save_retired: bool,
}

/// What [`FlowTable::handle_packet_direct`] does with the live entry at
/// `i` whose flow matches the packet: its connection handles the packet
/// per [`conn_packet_post`] (events `evs0` to `evs_mid`, result `r1`); a
/// connection that closed is removed and announced with one retirement
/// event (and kept when `save_retired`); any other is put back in place,
/// and a desynchronized one is reported as such.
pub open spec fn direct_outcome(
    pre: FlowTable,
    post: FlowTable,
    i: int,
    c1: Connection,
    evs_mid: Seq<ConnectionEvent>,
    r1: bool,
    meta: TcpMeta,
    data: Seq<u8>,
    extra: PacketExtra,
    evs0: Seq<ConnectionEvent>,
    evs1: Seq<ConnectionEvent>,
    r: HandlePacketResult,
) -> bool {
    &&& conn_packet_post(pre.entries@[i].1, c1, meta, data, extra, evs0, evs_mid, r1)
    &&& (c1.conn_state is Closed ==> {
        &&& post.entries@ == pre.entries@.remove(i)
        &&& evs1 == evs_mid.push(ConnectionEvent::WillRetire)
        &&& (pre.save_retired ==> post.retired@ == pre.retired@.push(c1))
        &&& (!pre.save_retired ==> post.retired == pre.retired)
        &&& r == (if r1 {
            HandlePacketResult::Handled
        } else {
            HandlePacketResult::Dropped
        })
    })
    &&& (!(c1.conn_state is Closed) ==> {
        &&& post.entries@ == pre.entries@.update(i, (pre.entries@[i].0, c1))
        &&& evs1 == evs_mid
        &&& post.retired == pre.retired
        &&& r == (if c1.conn_state is Desync {
            HandlePacketResult::Desync
        } else if r1 {
            HandlePacketResult::Handled
        } else {
            HandlePacketResult::Dropped
        })
    })
}

/// What [`FlowTable::handle_packet`] does when no live entry matches the
/// packet's flow: a fresh connection `c0` is created for it and handles
/// the packet per [`conn_packet_post`] (result `r1`); closed at once, it
/// is announced and dropped, else it is appended under the packet's flow
/// tuple. `r` is true exactly when the packet changed something and the
/// connection did not desynchronize.
pub open spec fn created_outcome(
    pre: FlowTable,
    post: FlowTable,
    c0: Connection,
    c1: Connection,
    evs_mid: Seq<ConnectionEvent>,
    r1: bool,
    meta: TcpMeta,
    data: Seq<u8>,
    extra: PacketExtra,
    evs0: Seq<ConnectionEvent>,
    evs1: Seq<ConnectionEvent>,
    r: bool,
) -> bool {
    &&& fresh_connection(c0, spec_flow_of_meta(meta))
    &&& conn_packet_post(c0, c1, meta, data, extra, evs0, evs_mid, r1)
    &&& (c1.conn_state is Closed ==> {
        &&& post.entries@ == pre.entries@
        &&& evs1 == evs_mid.push(ConnectionEvent::WillRetire)
        &&& (pre.save_retired ==> post.retired@ == pre.retired@.push(c1))
        &&& (!pre.save_retired ==> post.retired == pre.retired)
        &&& r == r1
    })
    &&& (!(c1.conn_state is Closed) ==> {
        &&& post.entries@ == pre.entries@.push((spec_flow_of_meta(meta), c1))
        &&& evs1 == evs_mid
        &&& post.retired == pre.retired
        &&& r == (r1 && !(c1.conn_state is Desync))
    })
}

/// What [`FlowTable::handle_packet`] does when the matched connection at
/// `i` handles the packet without desynchronizing: as
/// [`direct_outcome`], with the result as a boolean.
pub open spec fn settled_outcome(
    pre: FlowTable,
    post: FlowTable,
    i: int,
    c1: Connection,
    evs_mid: Seq<ConnectionEvent>,
    r1: bool,
    meta: TcpMeta,
    data: Seq<u8>,
    extra: PacketExtra,
    evs0: Seq<ConnectionEvent>,
    evs1: Seq<ConnectionEvent>,
    r: bool,
) -> bool {
    &&& conn_packet_post(pre.entries@[i].1, c1, meta, data, extra, evs0, evs_mid, r1)
    &&& !(c1.conn_state is Desync)
    &&& (c1.conn_state is Closed ==> {
        &&& post.entries@ == pre.entries@.remove(i)
        &&& evs1 == evs_mid.push(ConnectionEvent::WillRetire)
        &&& (pre.save_retired ==> post.retired@ == pre.retired@.push(c1))
        &&& (!pre.save_retired ==> post.retired == pre.retired)
        &&& r == r1
    })
    &&& (!(c1.conn_state is Closed) ==> {
        &&& post.entries@ == pre.entries@.update(i, (pre.entries@[i].0, c1))
        &&& evs1 == evs_mid
        &&& post.retired == pre.retired
        &&& r == r1
    })
}

/// What [`FlowTable::handle_packet`] does when the matched connection at
/// `i` desynchronizes on the packet: it is retired on the spot (one
/// retirement event, kept when `save_retired`, leaving the table `mid`),
/// and the packet is replayed on a fresh connection, as
/// [`created_outcome`] of `mid`.
pub open spec fn replayed_outcome(
    pre: FlowTable,
    post: FlowTable,
    i: int,
    c1: Connection,
    evs_mid1: Seq<ConnectionEvent>,
    r1: bool,
    mid: FlowTable,
    c0: Connection,
    c2: Connection,
    evs_mid2: Seq<ConnectionEvent>,
    r2: bool,
    meta: TcpMeta,
    data: Seq<u8>,
    extra: PacketExtra,
    evs0: Seq<ConnectionEvent>,
    evs1: Seq<ConnectionEvent>,
    r: bool,
) -> bool {
    &&& conn_packet_post(pre.entries@[i].1, c1, meta, data, extra, evs0, evs_mid1, r1)
    &&& c1.conn_state is Desync
    &&& mid.entries@ == pre.entries@.remove(i)
    &&& mid.save_retired == pre.save_retired
    &&& (pre.save_retired ==> mid.retired@ == pre.retired@.push(c1))
    &&& (!pre.save_retired ==> mid.retired == pre.retired)
    &&& created_outcome(
        mid,
        post,
        c0,
        c2,
        evs_mid2,
        r2,
        meta,
        data,
        extra,
        evs_mid1.push(ConnectionEvent::WillRetire),
        evs1,
        r,
    )
}

impl FlowTable {
    /// Structural invariant: no two entries share a flow (in either
    /// direction), every connection is well-formed, and each entry's key
    /// matches its connection's flow.
    pub open spec fn wf(&self) -> bool {
        &&& (forall|i: int, j: int|
            0 <= i < j < self.entries@.len() ==> spec_flow_compare(
                (#[trigger] self.entries@[i]).0,
                (#[trigger] self.entries@[j]).0,
            ) == FlowCompare::Unrelated)
        &&& (forall|i: int|
            0 <= i < self.entries@.len() ==> (#[trigger] self.entries@[i]).1.wf()
                && spec_flow_compare(self.entries@[i].0, self.entries@[i].1.forward_flow)
                != FlowCompare::Unrelated)
    }

    /// Create an empty table.
    pub fn new() -> (r: FlowTable)
        ensures
            r.wf(),
            r.entries@ == Seq::<(Flow, Connection)>::empty(),
            r.retired@ == Seq::<Connection>::empty(),
            !r.save_retired,
    {
        FlowTable { entries: Vec::new(), retired: Vec::new(), save_retired: false }
    }

    /// Index of the entry whose flow matches `flow`, in either direction.
    pub fn find_index(&self, flow: &Flow) -> (r: Option<usize>)
        ensures
            (r matches Some(i) ==> i < self.entries@.len() && spec_flow_compare(
                self.entries@[i as int].0,
                *flow,
            ) != FlowCompare::Unrelated),
            (r is None ==> forall|i: int|
                0 <= i < self.entries@.len() ==> spec_flow_compare(
                    (#[trigger] self.entries@[i]).0,
                    *flow,
                ) == FlowCompare::Unrelated),
    {
        let n: usize = self.entries.len();
        let mut i: usize = 0;
        while i < n
            invariant
                0 <= i <= n,
                n == self.entries@.len(),
                forall|j: int|
                    0 <= j < i ==> spec_flow_compare((#[trigger] self.entries@[j]).0, *flow)
                        == FlowCompare::Unrelated,
            decreases n - i,
        {
            if !(self.entries[i].0.compare(flow) == FlowCompare::Unrelated) {
                return Some(i);
            }
            i += 1;
        }
        None
    }

    /// Create a connection for `flow`; the flow must not collide with a
    /// live entry.
    pub fn create_flow(&mut self, flow: Flow)
        requires
            old(self).wf(),
            forall|i: int|
                0 <= i < old(self).entries@.len() ==> spec_flow_compare(
                    (#[trigger] old(self).entries@[i]).0,
                    flow,
                ) == FlowCompare::Unrelated,
        ensures
            final(self).wf(),
            final(self).entries@.len() == old(self).entries@.len() + 1,
            final(self).entries@.take(old(self).entries@.len() as int) == old(self).entries@,
            final(self).entries@.last().0 == flow,
            fresh_connection(final(self).entries@.last().1, flow),
            final(self).retired == old(self).retired,
            final(self).save_retired == old(self).save_retired,
    {
        let conn = Connection::new(flow);
        self.entries.push((flow, conn));
        proof {
            assert(final(self).entries@.take(old(self).entries@.len() as int) =~= old(
                self,
            ).entries@);
        }
    }

    /// Remove the connection matching `flow`, announce its retirement, and
    /// keep it in `retired` when `save_retired` is set.
    #[verifier::rlimit(100)]
    #[verifier::spinoff_prover]
    pub fn retire_flow(&mut self, flow: Flow, events: &mut Vec<ConnectionEvent>)
        requires
            old(self).wf(),
        ensures
            final(self).wf(),
            final(self).save_retired == old(self).save_retired,
            ((forall|i: int|
                0 <= i < old(self).entries@.len() ==> spec_flow_compare(
                    (#[trigger] old(self).entries@[i]).0,
                    flow,
                ) == FlowCompare::Unrelated) ==> *final(self) == *old(self) && final(events)@
                == old(events)@),
            (forall|i: int|
                0 <= i < old(self).entries@.len() && spec_flow_compare(
                    (#[trigger] old(self).entries@[i]).0,
                    flow,
                ) != FlowCompare::Unrelated ==> ({
                    &&& final(self).entries@ == old(self).entries@.remove(i)
                    &&& final(events)@ == old(events)@.push(ConnectionEvent::WillRetire)
                    &&& (old(self).save_retired ==> final(self).retired@ == old(
                        self,
                    ).retired@.push(old(self).entries@[i].1))
                    &&& (!old(self).save_retired ==> final(self).retired == old(self).retired)
                })),
    {
        let found = self.find_index(&flow);
        match found {
            None => {},
            Some(i) => {
                proof {
                    assert forall|j: int|
                        0 <= j < self.entries@.len() && spec_flow_compare(
                            (#[trigger] self.entries@[j]).0,
                            flow,
                        ) != FlowCompare::Unrelated implies j == i as int by {
                        lemma_unique_match(*self, flow, j, i as int);
                    }
                }
                let (_key, mut conn) = self.entries.remove(i);
                conn.will_retire(events);
                if self.save_retired {
                    self.retired.push(conn);
                }
                proof {
                    assert forall|a: int, b: int|
                        0 <= a < b < self.entries@.len() implies spec_flow_compare(
                        (#[trigger] self.entries@[a]).0,
                        (#[trigger] self.entries@[b]).0,
                    ) == FlowCompare::Unrelated by {
                        if b < i {
                            assert(self.entries@[a] == old(self).entries@[a]);
                            assert(self.entries@[b] == old(self).entries@[b]);
                        } else if a < i <= b {
                            assert(self.entries@[a] == old(self).entries@[a]);
                            assert(self.entries@[b] == old(self).entries@[b + 1]);
                        } else {
                            assert(self.entries@[a] == old(self).entries@[a + 1]);
                            assert(self.entries@[b] == old(self).entries@[b + 1]);
                        }
                    }
                    assert forall|a: int|
                        0 <= a < self.entries@.len() implies (#[trigger] self.entries@[a]).1.wf()
                        && spec_flow_compare(self.entries@[a].0, self.entries@[a].1.forward_flow)
                        != FlowCompare::Unrelated by {
                        if a < i {
                            assert(self.entries@[a] == old(self).entries@[a]);
                        } else {
                            assert(self.entries@[a] == old(self).entries@[a + 1]);
                        }
                    }
                }
            },
        }
    }

    /// Route one packet to its connection, if the table has one. A closed
    /// connection is retired on the spot; a desynchronized one is reported
    /// for the caller to recreate.
    #[verifier::rlimit(100)]
    pub fn handle_packet_direct(&mut self, meta: &TcpMeta, data: &[u8], extra: &PacketExtra,
        events: &mut Vec<ConnectionEvent>) -> (r: HandlePacketResult)
        requires
            old(self).wf(),
        ensures
            final(self).wf(),
            final(self).save_retired == old(self).save_retired,
            (r == HandlePacketResult::NotFound <==> (forall|i: int|
                0 <= i < old(self).entries@.len() ==> spec_flow_compare(
                    (#[trigger] old(self).entries@[i]).0,
                    spec_flow_of_meta(*meta),
                ) == FlowCompare::Unrelated)),
            r == HandlePacketResult::NotFound ==> *final(self) == *old(self) && final(events)@
                == old(events)@,
            final(events)@.len() >= old(events)@.len(),
            final(events)@.take(old(events)@.len() as int) == old(events)@,
            forall|j: int|
                0 <= j < old(self).entries@.len() && spec_flow_compare(
                    (#[trigger] old(self).entries@[j]).0,
                    spec_flow_of_meta(*meta),
                ) != FlowCompare::Unrelated ==> exists|
                    c1: Connection,
                    evs_mid: Seq<ConnectionEvent>,
                    r1: bool,
                |
                    #[trigger] direct_outcome(
                        *old(self),
                        *final(self),
                        j,
                        c1,
                        evs_mid,
                        r1,
                        *meta,
                        data@,
                        *extra,
                        old(events)@,
                        final(events)@,
                        r,
                    ),
    {
        let flow = Flow::from_meta(meta);
        let found = self.find_index(&flow);
        let i = match found {
            None => {
                return HandlePacketResult::NotFound;
            },
            Some(i) => i,
        };
        let (key, mut conn) = self.entries.remove(i);
        proof {
            lemma_flow_compare_related(conn.forward_flow, key, spec_flow_of_meta(*meta));
            assert forall|a: int, b: int|
                0 <= a < b < self.entries@.len() implies spec_flow_compare(
                (#[trigger] self.entries@[a]).0,
                (#[trigger] self.entries@[b]).0,
            ) == FlowCompare::Unrelated by {
                if b < i {
                } else if a < i <= b {
                    assert(self.entries@[b] == old(self).entries@[b + 1]);
                } else {
                    assert(self.entries@[a] == old(self).entries@[a + 1]);
                    assert(self.entries@[b] == old(self).entries@[b + 1]);
                }
            }
            assert forall|a: int|
                0 <= a < self.entries@.len() implies (#[trigger] self.entries@[a]).1.wf()
                && spec_flow_compare(self.entries@[a].0, self.entries@[a].1.forward_flow)
                != FlowCompare::Unrelated by {
                if a >= i {
                    assert(self.entries@[a] == old(self).entries@[a + 1]);
                }
            }
        }
        let did_something = conn.handle_packet(meta, data, extra, events);
        let ghost c1w = conn;
        let ghost evs_midw = events@;
        let mut result = if did_something {
            HandlePacketResult::Handled
        } else {
            HandlePacketResult::Dropped
        };
        let is_closed = conn.conn_state == ConnectionState::Closed;
        let is_desync = conn.conn_state == ConnectionState::Desync;
        if is_closed {
            // the connection ended: retire it on the spot
            conn.will_retire(events);
            if self.save_retired {
                self.retired.push(conn);
            }
        } else {
            let ghost before = self.entries@;
            proof {
                lemma_flow_compare_related(key, spec_flow_of_meta(*meta), conn.forward_flow);
            }
            self.entries.insert(i, (key, conn));
            proof {
                assert forall|a: int, b: int|
                    0 <= a < b < self.entries@.len() implies spec_flow_compare(
                    (#[trigger] self.entries@[a]).0,
                    (#[trigger] self.entries@[b]).0,
                ) == FlowCompare::Unrelated by {
                    if b < i {
                        assert(self.entries@[a] == old(self).entries@[a]);
                        assert(self.entries@[b] == old(self).entries@[b]);
                    } else if a < i && b == i {
                        assert(self.entries@[a] == old(self).entries@[a]);
                        assert(self.entries@[b].0 == key);
                    } else if a < i && b > i {
                        assert(self.entries@[a] == old(self).entries@[a]);
                        assert(self.entries@[b] == old(self).entries@[b]);
                    } else if a == i {
                        assert(self.entries@[a].0 == key);
                        assert(self.entries@[b] == old(self).entries@[b]);
                    } else {
                        assert(self.entries@[a] == old(self).entries@[a]);
                        assert(self.entries@[b] == old(self).entries@[b]);
                    }
                }
                assert forall|a: int|
                    0 <= a < self.entries@.len() implies (#[trigger] self.entries@[a]).1.wf()
                    && spec_flow_compare(self.entries@[a].0, self.entries@[a].1.forward_flow)
                    != FlowCompare::Unrelated by {
                    if a != i {
                        assert(self.entries@[a] == old(self).entries@[a]);
                    }
                }
            }
            if is_desync {
                result = HandlePacketResult::Desync;
            }
        }
        proof {
            assert forall|j: int|
                0 <= j < old(self).entries@.len() && spec_flow_compare(
                    (#[trigger] old(self).entries@[j]).0,
                    spec_flow_of_meta(*meta),
                ) != FlowCompare::Unrelated implies exists|
                c1: Connection,
                evs_mid: Seq<ConnectionEvent>,
                r1: bool,
            |
                #[trigger] direct_outcome(
                    *old(self),
                    *self,
                    j,
                    c1,
                    evs_mid,
                    r1,
                    *meta,
                    data@,
                    *extra,
                    old(events)@,
                    events@,
                    result,
                ) by {
                lemma_unique_match(*old(self), spec_flow_of_meta(*meta), j, i as int);
                if !is_closed {
                    assert(self.entries@ =~= old(self).entries@.update(
                        i as int,
                        (old(self).entries@[i as int].0, c1w),
                    ));
                }
                assert(direct_outcome(
                    *old(self),
                    *self,
                    i as int,
                    c1w,
                    evs_midw,
                    did_something,
                    *meta,
                    data@,
                    *extra,
                    old(events)@,
                    events@,
                    result,
                ));
            }
        }
        result
    }

    /// When the direct routing settled the packet (handled or dropped),
    /// every matching entry's outcome is a [`settled_outcome`].
    proof fn lemma_settled_case(
        pre: FlowTable,
        post: FlowTable,
        meta: TcpMeta,
        data: Seq<u8>,
        extra: PacketExtra,
        evs0: Seq<ConnectionEvent>,
        evs1: Seq<ConnectionEvent>,
        first: HandlePacketResult,
        rb: bool,
    )
        requires
            pre.wf(),
            first == HandlePacketResult::Handled || first == HandlePacketResult::Dropped,
            rb == (first == HandlePacketResult::Handled),
            forall|j: int|
                0 <= j < pre.entries@.len() && spec_flow_compare(
                    (#[trigger] pre.entries@[j]).0,
                    spec_flow_of_meta(meta),
                ) != FlowCompare::Unrelated ==> exists|
                    c1: Connection,
                    evs_mid: Seq<ConnectionEvent>,
                    r1: bool,
                |
                    #[trigger] direct_outcome(
                        pre,
                        post,
                        j,
                        c1,
                        evs_mid,
                        r1,
                        meta,
                        data,
                        extra,
                        evs0,
                        evs1,
                        first,
                    ),
        ensures
            forall|i: int|
                0 <= i < pre.entries@.len() && spec_flow_compare(
                    (#[trigger] pre.entries@[i]).0,
                    spec_flow_of_meta(meta),
                ) != FlowCompare::Unrelated ==> exists|
                    c1: Connection,
                    evs_mid: Seq<ConnectionEvent>,
                    r1: bool,
                |
                    #[trigger] settled_outcome(
                        pre,
                        post,
                        i,
                        c1,
                        evs_mid,
                        r1,
                        meta,
                        data,
                        extra,
                        evs0,
                        evs1,
                        rb,
                    ),
    {
        assert forall|i: int|
            0 <= i < pre.entries@.len() && spec_flow_compare(
                (#[trigger] pre.entries@[i]).0,
                spec_flow_of_meta(meta),
            ) != FlowCompare::Unrelated implies exists|
            c1: Connection,
            evs_mid: Seq<ConnectionEvent>,
            r1: bool,
        |
            #[trigger] settled_outcome(
                pre,
                post,
                i,
                c1,
                evs_mid,
                r1,
                meta,
                data,
                extra,
                evs0,
                evs1,
                rb,
            ) by {
            let (c1, evs_mid, r1) = choose|
                c1: Connection,
                evs_mid: Seq<ConnectionEvent>,
                r1: bool,
            |
                direct_outcome(
                    pre,
                    post,
                    i,
                    c1,
                    evs_mid,
                    r1,
                    meta,
                    data,
                    extra,
                    evs0,
                    evs1,
                    first,
                );
            assert(settled_outcome(
                pre,
                post,
                i,
                c1,
                evs_mid,
                r1,
                meta,
                data,
                extra,
                evs0,
                evs1,
                rb,
            ));
        }
    }

    /// Handle one packet: it is routed to the connection whose flow matches
    /// it, a fresh connection being created first when none does, and a
    /// desynchronized one being retired and recreated with the packet
    /// replayed. The result says whether the packet changed anything.
    #[verifier::rlimit(100)]
    #[verifier::spinoff_prover]
    pub fn handle_packet(&mut self, meta: &TcpMeta, data: &[u8], extra: &PacketExtra, events:
        &mut Vec<ConnectionEvent>) -> (r: bool)
        requires
            old(self).wf(),
        ensures
            final(self).wf(),
            final(self).save_retired == old(self).save_retired,
            final(events)@.len() >= old(events)@.len(),
            final(events)@.take(old(events)@.len() as int) == old(events)@,
            ((forall|i: int|
                0 <= i < old(self).entries@.len() ==> spec_flow_compare(
                    (#[trigger] old(self).entries@[i]).0,
                    spec_flow_of_meta(*meta),
                ) == FlowCompare::Unrelated) ==> exists|
                c0: Connection,
                c1: Connection,
                evs_mid: Seq<ConnectionEvent>,
                r1: bool,
            |
                #[trigger] created_outcome(
                    *old(self),
                    *final(self),
                    c0,
                    c1,
                    evs_mid,
                    r1,
                    *meta,
                    data@,
                    *extra,
                    old(events)@,
                    final(events)@,
                    r,
                )),
            (forall|i: int|
                0 <= i < old(self).entries@.len() && spec_flow_compare(
                    (#[trigger] old(self).entries@[i]).0,
                    spec_flow_of_meta(*meta),
                ) != FlowCompare::Unrelated ==> ((exists|
                    c1: Connection,
                    evs_mid: Seq<ConnectionEvent>,
                    r1: bool,
                |
                    #[trigger] settled_outcome(
                        *old(self),
                        *final(self),
                        i,
                        c1,
                        evs_mid,
                        r1,
                        *meta,
                        data@,
                        *extra,
                        old(events)@,
                        final(events)@,
                        r,
                    )) || (exists|
                    c1: Connection,
                    evs_mid1: Seq<ConnectionEvent>,
                    r1: bool,
                    mid: FlowTable,
                    c0: Connection,
                    c2: Connection,
                    evs_mid2: Seq<ConnectionEvent>,
                    r2: bool,
                |
                    #[trigger] replayed_outcome(
                        *old(self),
                        *final(self),
                        i,
                        c1,
                        evs_mid1,
                        r1,
                        mid,
                        c0,
                        c2,
                        evs_mid2,
                        r2,
                        *meta,
                        data@,
                        *extra,
                        old(events)@,
                        final(events)@,
                        r,
                    )))),
    {
        let ghost evs0 = events@;
        let ghost flowm = spec_flow_of_meta(*meta);
        let first = self.handle_packet_direct(meta, data, extra, events);
        let ghost t1 = *self;
        let ghost evs1g = events@;
        let r = match first {
            HandlePacketResult::Handled => {
                proof {
                    Self::lemma_settled_case(
                        *old(self),
                        t1,
                        *meta,
                        data@,
                        *extra,
                        evs0,
                        evs1g,
                        first,
                        true,
                    );
                }
                true
            },
            HandlePacketResult::Dropped => {
                proof {
                    Self::lemma_settled_case(
                        *old(self),
                        t1,
                        *meta,
                        data@,
                        *extra,
                        evs0,
                        evs1g,
                        first,
                        false,
                    );
                }
                false
            },
            HandlePacketResult::NotFound => {
                // first packet of the flow: create it, then process
                let flow = Flow::from_meta(meta);
                self.create_flow(flow);
                let ghost t2 = *self;
                let second = self.handle_packet_direct(meta, data, extra, events);
                let rr = match second {
                    HandlePacketResult::Handled => true,
                    _ => false,
                };
                proof {
                    let n0 = old(self).entries@.len() as int;
                    assert(spec_flow_compare(t2.entries@[n0].0, flowm) != FlowCompare::Unrelated);
                    let (c1, evs_mid, r1) = choose|
                        c1: Connection,
                        evs_mid: Seq<ConnectionEvent>,
                        r1: bool,
                    |
                        direct_outcome(
                            t2,
                            *self,
                            n0,
                            c1,
                            evs_mid,
                            r1,
                            *meta,
                            data@,
                            *extra,
                            evs1g,
                            events@,
                            second,
                        );
                    if c1.conn_state is Closed {
                        assert(self.entries@ =~= old(self).entries@);
                    } else {
                        assert(self.entries@ =~= old(self).entries@.push((flowm, c1)));
                    }
                    assert(created_outcome(
                        *old(self),
                        *self,
                        t2.entries@[n0].1,
                        c1,
                        evs_mid,
                        r1,
                        *meta,
                        data@,
                        *extra,
                        evs0,
                        events@,
                        rr,
                    ));
                }
                rr
            },
            HandlePacketResult::Desync => {
                // recreate the flow and replay the packet on it
                let flow = Flow::from_meta(meta);
                let ghost iw = choose|i: int|
                    0 <= i < old(self).entries@.len() && spec_flow_compare(
                        (#[trigger] old(self).entries@[i]).0,
                        flowm,
                    ) != FlowCompare::Unrelated;
                let ghost (c1, evs_mid1, r1) = choose|
                    c1: Connection,
                    evs_mid: Seq<ConnectionEvent>,
                    r1: bool,
                |
                    direct_outcome(
                        *old(self),
                        t1,
                        iw,
                        c1,
                        evs_mid,
                        r1,
                        *meta,
                        data@,
                        *extra,
                        evs0,
                        evs1g,
                        first,
                    );
                proof {
                    assert(spec_flow_compare(t1.entries@[iw].0, flowm) != FlowCompare::Unrelated);
                }
                self.retire_flow(flow, events);
                let ghost t2 = *self;
                proof {
                    assert(t2.entries@ == t1.entries@.remove(iw));
                    assert(t2.entries@ =~= old(self).entries@.remove(iw));
                    assert forall|j: int|
                        0 <= j < t2.entries@.len() implies spec_flow_compare(
                        (#[trigger] t2.entries@[j]).0,
                        flowm,
                    ) == FlowCompare::Unrelated by {
                        if spec_flow_compare(t2.entries@[j].0, flowm) != FlowCompare::Unrelated {
                            if j < iw {
                                lemma_unique_match(*old(self), flowm, j, iw);
                            } else {
                                lemma_unique_match(*old(self), flowm, j + 1, iw);
                            }
                        }
                    }
                }
                let has_room = self.find_index(&flow);
                match has_room {
                    None => {
                        self.create_flow(flow);
                    },
                    Some(_) => {},
                }
                let ghost t3 = *self;
                let second = self.handle_packet_direct(meta, data, extra, events);
                let ghost evs2g = evs_mid1.push(ConnectionEvent::WillRetire);
                let rr = match second {
                    HandlePacketResult::Handled => true,
                    _ => false,
                };
                proof {
                    let n2 = t2.entries@.len() as int;
                    assert(spec_flow_compare(t3.entries@[n2].0, flowm) != FlowCompare::Unrelated);
                    let (c2, evs_mid2, r2) = choose|
                        c2: Connection,
                        evs_mid: Seq<ConnectionEvent>,
                        r2: bool,
                    |
                        direct_outcome(
                            t3,
                            *self,
                            n2,
                            c2,
                            evs_mid,
                            r2,
                            *meta,
                            data@,
                            *extra,
                            evs2g,
                            events@,
                            second,
                        );
                    if c2.conn_state is Closed {
                        assert(self.entries@ =~= t2.entries@);
                    } else {
                        assert(self.entries@ =~= t2.entries@.push((flowm, c2)));
                    }
                    assert(created_outcome(
                        t2,
                        *self,
                        t3.entries@[n2].1,
                        c2,
                        evs_mid2,
                        r2,
                        *meta,
                        data@,
                        *extra,
                        evs2g,
                        events@,
                        rr,
                    ));
                    assert(replayed_outcome(
                        *old(self),
                        *self,
                        iw,
                        c1,
                        evs_mid1,
                        r1,
                        t2,
                        t3.entries@[n2].1,
                        c2,
                        evs_mid2,
                        r2,
                        *meta,
                        data@,
                        *extra,
                        evs0,
                        events@,
                        rr,
                    ));
                    assert forall|i: int|
                        0 <= i < old(self).entries@.len() && spec_flow_compare(
                            (#[trigger] old(self).entries@[i]).0,
                            flowm,
                        ) != FlowCompare::Unrelated implies i == iw by {
                        lemma_unique_match(*old(self), flowm, i, iw);
                    }
                }
                rr
            },
        };
        proof {
            assert(events@.take(evs0.len() as int) =~= evs0);
        }
        r
    }

    /// Retire every live connection.
    #[verifier::loop_isolation(false)]
    pub fn close(&mut self, events: &mut Vec<ConnectionEvent>)
        requires
            old(self).wf(),
        ensures
            final(self).wf(),
            final(self).entries@.len() == 0,
            final(events)@ == old(events)@ + Seq::new(
                old(self).entries@.len(),
                |i: int| ConnectionEvent::WillRetire,
            ),
            final(self).save_retired == old(self).save_retired,
            old(self).save_retired ==> final(self).retired@ == old(self).retired@ + Seq::new(
                old(self).entries@.len(),
                |i: int| old(self).entries@[old(self).entries@.len() - 1 - i].1,
            ),
            !old(self).save_retired ==> final(self).retired == old(self).retired,
    {
        let ghost evs0 = events@;
        let total: usize = self.entries.len();
        let ghost n0 = self.entries@.len();
        let mut k: usize = 0;
        proof {
            assert(self.entries@ =~= old(self).entries@.take(n0 as int));
            assert(self.retired@ =~= old(self).retired@ + Seq::new(
                0nat,
                |i: int| old(self).entries@[n0 - 1 - i].1,
            ));
        }
        while self.entries.len() > 0
            invariant
                self.wf(),
                total == n0,
                k == n0 - self.entries@.len(),
                0 <= k <= n0,
                self.entries@ == old(self).entries@.take((n0 - k) as int),
                events@ == evs0 + Seq::new(k as nat, |i: int| ConnectionEvent::WillRetire),
                self.save_retired == old(self).save_retired,
                old(self).save_retired ==> self.retired@ == old(self).retired@ + Seq::new(
                    k as nat,
                    |i: int| old(self).entries@[n0 - 1 - i].1,
                ),
                !old(self).save_retired ==> self.retired == old(self).retired,
            decreases self.entries@.len(),
        {
            let ghost entries_before = self.entries@;
            let ghost retired_before = self.retired@;
            let maybe = self.entries.pop();
            match maybe {
                Some((_key, mut conn)) => {
                    proof {
                        assert(conn == old(self).entries@[(n0 - k - 1) as int].1) by {
                            assert(entries_before.last() == old(self).entries@.take(
                                (n0 - k) as int,
                            )[(n0 - k - 1) as int]);
                        }
                    }
                    conn.will_retire(events);
                    if self.save_retired {
                        self.retired.push(conn);
                    }
                },
                None => {},
            }
            proof {
                assert(self.entries@ =~= old(self).entries@.take((n0 - k - 1) as int)) by {
                    assert(self.entries@ == entries_before.subrange(0, entries_before.len() - 1));
                }
                if old(self).save_retired {
                    assert(self.retired@ =~= old(self).retired@ + Seq::new(
                        (k + 1) as nat,
                        |i: int| old(self).entries@[n0 - 1 - i].1,
                    ));
                }
            }
            k += 1;
            proof {
                assert(events@ =~= evs0 + Seq::new(k as nat, |i: int| ConnectionEvent::WillRetire));
            }
        }
        proof {
            assert(events@ =~= evs0 + Seq::new(n0, |i: int| ConnectionEvent::WillRetire));
        }
    }
}

} // verus!
