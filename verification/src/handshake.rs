//! The handshake engine: drives the identity exchange of one node over a
//! request/response substrate. The surroundings decode wire messages and
//! report them here; the engine seals outgoing records, checks incoming
//! ones against the local network id, and buffers one completion or
//! failure event per verification, released one per poll in arrival order.

use vstd::prelude::*;

use crate::envelope::Envelope;
use crate::node_info::marshal_spec;
use crate::node_info::unmarshal_spec;
use crate::node_info::codec_spec;
use crate::node_info::domain_spec;
use crate::node_info::NodeInfo;
use crate::node_info::NodeInfoView;
use crate::envelope::unsigned_spec;
use crate::signing::key_decodes;
use crate::signing::sig_valid;

verus! {

/// A transport-level failure of one handshake attempt, as the substrate
/// reports it.
#[derive(Clone, Copy, Debug, PartialEq, Eq, Structural)]
pub enum TransportFailure {
    /// The exchange did not finish in time.
    Timeout,
    /// The connection went away under the exchange.
    ConnectionClosed,
    /// The peer does not speak the handshake protocol.
    UnsupportedProtocols,
    /// Reading or writing the stream failed.
    Io,
}

/// Why a handshake attempt failed.
#[derive(Debug)]
pub enum Error {
    /// The peer lives on another network.
    NetworkMismatch { ours: String, theirs: String },
    /// The peer's record did not decode.
    NodeInfoErr(crate::node_info::Error),
    /// The substrate failed an inbound exchange.
    Inbound(TransportFailure),
    /// The substrate failed an outbound exchange.
    Outbound(TransportFailure),
}

/// Outcome of one handshake attempt.
#[derive(Debug)]
pub enum Event {
    Completed { peer_id: u64, their_info: NodeInfo },
    Failed { peer_id: u64, error: Error },
}

/// A handshake wire message: a request or the response to one.
#[derive(Debug)]
pub enum HandshakeMessage {
    Request(NodeInfo),
    Response(NodeInfo),
}

/// Mathematical image of `Error`.
pub enum ErrorView {
    NetworkMismatch { ours: Seq<char>, theirs: Seq<char> },
    NodeInfoErr(crate::node_info::Error),
    Inbound(TransportFailure),
    Outbound(TransportFailure),
}

/// Mathematical image of `Event`.
pub enum EventView {
    Completed { peer_id: u64, their_info: NodeInfoView },
    Failed { peer_id: u64, error: ErrorView },
}

impl View for Error {
    type V = ErrorView;

    open spec fn view(&self) -> ErrorView {
        match self {
            Error::NetworkMismatch { ours, theirs } => ErrorView::NetworkMismatch {
                ours: ours@,
                theirs: theirs@,
            },
            Error::NodeInfoErr(e) => ErrorView::NodeInfoErr(*e),
            Error::Inbound(f) => ErrorView::Inbound(*f),
            Error::Outbound(f) => ErrorView::Outbound(*f),
        }
    }
}

impl View for Event {
    type V = EventView;

    open spec fn view(&self) -> EventView {
        match self {
            Event::Completed { peer_id, their_info } => EventView::Completed {
                peer_id: *peer_id,
                their_info: their_info@,
            },
            Event::Failed { peer_id, error } => EventView::Failed {
                peer_id: *peer_id,
                error: error@,
            },
        }
    }
}

/// The events a buffer holds.
pub open spec fn events_view(v: Seq<Event>) -> Seq<EventView> {
    Seq::new(v.len(), |i: int| v[i]@)
}

/// What verifying a peer's submitted record yields: its decode failure, a
/// network mismatch, or completion with the record — always exactly one
/// event.
pub open spec fn verdict(local_id: Seq<char>, peer: u64, payload: Seq<u8>) -> EventView {
    match unmarshal_spec(payload) {
        Err(e) => EventView::Failed { peer_id: peer, error: ErrorView::NodeInfoErr(e) },
        Ok((nid, mm)) => {
            if nid == local_id {
                EventView::Completed {
                    peer_id: peer,
                    their_info: NodeInfoView { network_id: nid, metadata: mm },
                }
            } else {
                EventView::Failed {
                    peer_id: peer,
                    error: ErrorView::NetworkMismatch { ours: local_id, theirs: nid },
                }
            }
        },
    }
}

/// The handshake engine of one node.
pub struct Behaviour {
    /// Key that seals outgoing records.
    keypair: libp2p_identity::Keypair,
    /// The local identity record.
    local_node_info: NodeInfo,
    /// Buffered outcome events, oldest first.
    events: Vec<Event>,
}

impl Behaviour {
    /// The local record's image.
    pub closed spec fn local(&self) -> NodeInfoView {
        self.local_node_info@
    }

    /// The buffered events, oldest first.
    pub closed spec fn ev_queue(&self) -> Seq<EventView> {
        events_view(self.events@)
    }

    /// An engine for `local_node_info`, sealing with `keypair`.
    pub fn new(keypair: libp2p_identity::Keypair, local_node_info: NodeInfo) -> (r: Behaviour)
        ensures
            r.local() == local_node_info@,
            r.ev_queue() =~= Seq::<EventView>::empty(),
    {
        let r = Behaviour { keypair, local_node_info, events: Vec::new() };
        proof {
            assert(r.ev_queue() =~= Seq::<EventView>::empty());
        }
        r
    }

    /// The local record, sealed for sending. Fails only when the signing
    /// key refuses to sign.
    pub fn sealed_node_record(&self) -> (r: Result<Envelope, crate::node_info::Error>)
        ensures
            match r {
                Ok(env) => {
                    &&& env@.payload == marshal_spec(self.local())
                    &&& env@.payload_type == codec_spec()
                    &&& key_decodes(env@.public_key)
                    &&& sig_valid(
                        env@.public_key,
                        unsigned_spec(domain_spec(), codec_spec(), marshal_spec(self.local())),
                        env@.signature,
                    )
                },
                Err(e) => e == crate::node_info::Error::Seal,
            },
    {
        self.local_node_info.seal(&self.keypair)
    }

    /// Whether a peer's record belongs to our network.
    pub fn verify_node_info(&self, their_info: &NodeInfo) -> (r: Result<(), Error>)
        ensures
            their_info@.network_id == self.local().network_id <==> r is Ok,
            r matches Err(e) ==> e@ == (ErrorView::NetworkMismatch {
                ours: self.local().network_id,
                theirs: their_info@.network_id,
            }),
    {
        if self.local_node_info.network_id == their_info.network_id {
            Ok(())
        } else {
            let ours = clone_string(&self.local_node_info.network_id);
            let theirs = clone_string(&their_info.network_id);
            Err(Error::NetworkMismatch { ours, theirs })
        }
    }

    /// Decode and check a peer's submitted record bytes, buffering exactly
    /// the one event `verdict` names.
    pub fn unmarshall_and_verify(&mut self, peer_id: u64, payload: &[u8])
        ensures
            final(self).ev_queue() == old(self).ev_queue().push(
                verdict(old(self).local().network_id, peer_id, payload@),
            ),
            final(self).local() == old(self).local(),
    {
        let ghost pre = self.ev_queue();
        let mut their_info = NodeInfo::default();
        let ev: Event = match their_info.unmarshal(payload) {
            Err(e) => Event::Failed { peer_id, error: Error::NodeInfoErr(e) },
            Ok(()) => {
                match self.verify_node_info(&their_info) {
                    Ok(()) => Event::Completed { peer_id, their_info },
                    Err(e) => Event::Failed { peer_id, error: e },
                }
            },
        };
        let ghost evv = ev@;
        self.events.push(ev);
        proof {
            assert(self.ev_queue() =~= pre.push(evv));
            assert(evv =~= verdict(old(self).local().network_id, peer_id, payload@));
        }
    }

    /// An inbound handshake request arrived: seal the local record as the
    /// response, and — whatever became of the response — check the peer's
    /// submitted record, which is the data that must be authenticated.
    /// Returns the response to send, or `None` when sealing failed (the
    /// substrate will then surface an inbound failure).
    pub fn handle_handshake_request(&mut self, peer_id: u64, request: &Envelope) -> (r: Option<
        Envelope,
    >)
        ensures
            final(self).ev_queue() == old(self).ev_queue().push(
                verdict(old(self).local().network_id, peer_id, request@.payload),
            ),
            final(self).local() == old(self).local(),
            r matches Some(env) ==> {
                &&& env@.payload == marshal_spec(old(self).local())
                &&& env@.payload_type == codec_spec()
                &&& key_decodes(env@.public_key)
                &&& sig_valid(
                    env@.public_key,
                    unsigned_spec(
                        domain_spec(),
                        codec_spec(),
                        marshal_spec(old(self).local()),
                    ),
                    env@.signature,
                )
            },
    {
        let response = match self.sealed_node_record() {
            Ok(env) => Some(env),
            Err(_) => None,
        };
        self.unmarshall_and_verify(peer_id, request.payload.as_slice());
        response
    }

    /// The response to an outbound handshake request arrived: check the
    /// peer's record.
    pub fn handle_handshake_response(&mut self, peer_id: u64, response: &Envelope)
        ensures
            final(self).ev_queue() == old(self).ev_queue().push(
                verdict(old(self).local().network_id, peer_id, response@.payload),
            ),
            final(self).local() == old(self).local(),
    {
        self.unmarshall_and_verify(peer_id, response.payload.as_slice());
    }

    /// A connection was established. When we dialed, the handshake starts
    /// with our sealed record as the request; otherwise the peer speaks
    /// first and there is nothing to send. Returns the request to send, or
    /// `None` (also when sealing failed).
    pub fn on_connection_established(&mut self, peer_id: u64, we_dialed: bool) -> (r: Option<
        Envelope,
    >)
        ensures
            final(self).ev_queue() == old(self).ev_queue(),
            final(self).local() == old(self).local(),
            !we_dialed ==> r is None,
            r matches Some(env) ==> we_dialed && {
                &&& env@.payload == marshal_spec(old(self).local())
                &&& env@.payload_type == codec_spec()
                &&& key_decodes(env@.public_key)
                &&& sig_valid(
                    env@.public_key,
                    unsigned_spec(
                        domain_spec(),
                        codec_spec(),
                        marshal_spec(old(self).local()),
                    ),
                    env@.signature,
                )
            },
    {
        if !we_dialed {
            return None;
        }
        match self.sealed_node_record() {
            Ok(env) => Some(env),
            Err(_) => None,
        }
    }

    /// The substrate failed an outbound exchange: exactly one failure
    /// event, carrying the originating peer.
    pub fn on_outbound_failure(&mut self, peer_id: u64, failure: TransportFailure)
        ensures
            final(self).ev_queue() == old(self).ev_queue().push(
                EventView::Failed { peer_id, error: ErrorView::Outbound(failure) },
            ),
            final(self).local() == old(self).local(),
    {
        let ghost pre = self.ev_queue();
        self.events.push(Event::Failed { peer_id, error: Error::Outbound(failure) });
        proof {
            assert(self.ev_queue() =~= pre.push(
                EventView::Failed { peer_id, error: ErrorView::Outbound(failure) },
            ));
        }
    }

    /// The substrate failed an inbound exchange: exactly one failure
    /// event, carrying the originating peer.
    pub fn on_inbound_failure(&mut self, peer_id: u64, failure: TransportFailure)
        ensures
            final(self).ev_queue() == old(self).ev_queue().push(
                EventView::Failed { peer_id, error: ErrorView::Inbound(failure) },
            ),
            final(self).local() == old(self).local(),
    {
        let ghost pre = self.ev_queue();
        self.events.push(Event::Failed { peer_id, error: Error::Inbound(failure) });
        proof {
            assert(self.ev_queue() =~= pre.push(
                EventView::Failed { peer_id, error: ErrorView::Inbound(failure) },
            ));
        }
    }

    /// Release at most one buffered event, oldest first. The caller keeps
    /// polling while events remain.
    pub fn poll_event(&mut self) -> (r: Option<Event>)
        ensures
            final(self).local() == old(self).local(),
            match r {
                Some(e) => {
                    &&& old(self).ev_queue().len() > 0
                    &&& e@ == old(self).ev_queue()[0]
                    &&& final(self).ev_queue() == old(self).ev_queue().skip(1)
                },
                None => {
                    &&& old(self).ev_queue().len() == 0
                    &&& final(self).ev_queue() == old(self).ev_queue()
                },
            },
    {
        if self.events.len() == 0 {
            return None;
        }
        let e = self.events.remove(0);
        proof {
            assert(self.ev_queue() =~= old(self).ev_queue().skip(1));
        }
        Some(e)
    }
}

/// Copy of a string.
fn clone_string(s: &String) -> (r: String)
    ensures
        r@ == s@,
{
    s.clone()
}

/// The handshake wire codec, without its I/O: each message is one envelope,
/// written whole and read to the end of the stream. Requests are decoded;
/// responses are decoded and their signature verified against the identity
/// record's domain and payload-type tag.
#[derive(Clone, Debug)]
pub struct EnvelopeCodec;

impl EnvelopeCodec {
    /// Decode a request read off a stream.
    pub fn read_request(data: &[u8]) -> (r: Result<Envelope, crate::envelope::Error>)
        ensures
            match r {
                Ok(env) => crate::envelope::envelope_parse(data@) == Some(env@),
                Err(e) => crate::envelope::envelope_parse(data@) is None && e
                    == crate::envelope::Error::Decode,
            },
    {
        Envelope::decode_from_slice(data)
    }

    /// Decode and verify a response read off a stream.
    pub fn read_response(data: &[u8]) -> (r: Result<Envelope, crate::envelope::Error>)
        ensures
            r matches Ok(env) ==> {
                &&& crate::envelope::envelope_parse(data@) == Some(env@)
                &&& key_decodes(env@.public_key)
                &&& sig_valid(
                    env@.public_key,
                    unsigned_spec(domain_spec(), codec_spec(), env@.payload),
                    env@.signature,
                )
            },
    {
        crate::node_info::parse_envelope(data)
    }

    /// Encode a request for writing to a stream.
    pub fn write_request(env: &Envelope) -> (r: Result<Vec<u8>, crate::envelope::Error>)
        ensures
            r matches Ok(v) && v@ == crate::envelope::envelope_enc(env@),
    {
        env.encode_to_vec()
    }

    /// Encode a response for writing to a stream.
    pub fn write_response(env: &Envelope) -> (r: Result<Vec<u8>, crate::envelope::Error>)
        ensures
            r matches Ok(v) && v@ == crate::envelope::envelope_enc(env@),
    {
        env.encode_to_vec()
    }
}

} // verus!
