//! Plain records handed across the library's boundary.
use crate::proto::{decode_route_discovery, route_discovery_matches, route_discovery_ok};
use vstd::prelude::*;
use vstd::string::StringExecFns;

verus! {

broadcast use vstd::string::group_string_axioms;

/// A raw envelope as staged: its content hash, its bytes and when it arrived.
#[derive(Debug)]
pub struct ServiceEnvelopeSelectResult {
    pub id: i64,
    pub hash: Vec<u8>,
    pub payload_data: Vec<u8>,
    pub created_at: i64,
}

/// How many packets and nodes the store holds.
#[derive(Clone, Copy, PartialEq, Eq, Debug)]
pub struct StatsSelectResult {
    pub num_packets: i64,
    pub num_nodes: i64,
}

/// How many packets a gateway relayed.
#[derive(Debug)]
pub struct GatewayPacketInfo {
    pub gateway_id: String,
    pub num_packets: i64,
}

impl GatewayPacketInfo {
    /// The gateway id without its `!` marks.
    pub fn raw_gateway_id(&self) -> (r: String)
        ensures
            r@ == self.gateway_id@.filter(|c: char| c != '!'),
    {
        let mut out = String::new();
        for c in iter: self.gateway_id.as_str().chars()
            invariant
                iter.seq() == self.gateway_id@,
                out@ == iter.seq().subrange(0, iter.index() as int).filter(|c: char| c != '!'),
        {
            proof {
                reveal(Seq::filter);
                assert(iter.seq().subrange(0, iter.index() + 1).drop_last() =~= iter.seq().subrange(
                    0,
                    iter.index() as int,
                ));
            }
            if c != '!' {
                out.push(c);
            }
        }
        proof {
            assert(self.gateway_id@.subrange(0, self.gateway_id@.len() as int) =~= self.gateway_id@);
        }
        out
    }
}

/// A traceroute as shown: who asked whom, and the route each way. A reply
/// travels back, so its ends are swapped.
#[derive(Debug)]
pub struct TracerouteDto {
    pub from_id: u32,
    pub to_id: u32,
    pub is_response: bool,
    pub route: Vec<u32>,
    pub route_back: Vec<u32>,
}

impl TracerouteDto {
    /// Reads a traceroute payload of a packet from `from_id` to `to_id`; a
    /// packet that does not ask for a response is the reply.
    pub fn from_payload(from_id: u32, to_id: u32, want_response: bool, payload: &[u8]) -> (r:
        Option<TracerouteDto>)
        ensures
            r is Some <==> route_discovery_ok(payload@),
            r matches Some(t) ==> {
                &&& t.is_response == !want_response
                &&& t.from_id == (if want_response { from_id } else { to_id })
                &&& t.to_id == (if want_response { to_id } else { from_id })
                &&& route_discovery_matches(
                    payload@,
                    crate::proto::RouteDiscovery { route: t.route, route_back: t.route_back },
                )
            },
    {
        match decode_route_discovery(payload) {
            Some(rd) => {
                let is_response = !want_response;
                let (f, t) = if is_response {
                    (to_id, from_id)
                } else {
                    (from_id, to_id)
                };
                Some(
                    TracerouteDto {
                        from_id: f,
                        to_id: t,
                        is_response,
                        route: rd.route,
                        route_back: rd.route_back,
                    },
                )
            },
            None => None,
        }
    }
}

/// The series a node's charts can show: a one-letter key and its label.
pub open spec fn plot_label_table() -> Seq<(Seq<char>, Seq<char>)> {
    seq![
        ("R"@, "RX RSSI"@),
        ("S"@, "RX SNR"@),
        ("C"@, "Channel utilization"@),
        ("A"@, "Air util tx"@),
        ("V"@, "Voltage"@),
        ("T"@, "Temperature"@),
        ("H"@, "Relative humidity"@),
        ("B"@, "Barometric pressure"@),
    ]
}

fn label(key: &str, text: &str) -> (r: (String, String))
    ensures
        r.0@ == key@,
        r.1@ == text@,
{
    (String::from_str(key), String::from_str(text))
}

/// The chart series, in display order.
pub fn plot_labels() -> (r: Vec<(String, String)>)
    ensures
        r@.len() == plot_label_table().len(),
        forall|i: int|
            0 <= i < r@.len() ==> (#[trigger] r@[i]).0@ == plot_label_table()[i].0 && r@[i].1@
                == plot_label_table()[i].1,
{
    let r = vec![
        label("R", "RX RSSI"),
        label("S", "RX SNR"),
        label("C", "Channel utilization"),
        label("A", "Air util tx"),
        label("V", "Voltage"),
        label("T", "Temperature"),
        label("H", "Relative humidity"),
        label("B", "Barometric pressure"),
    ];
    r
}

} // verus!
