//! The identity record exchanged during the handshake: the network
//! membership id and optional node metadata, carried as a JSON document
//! `{"Entries": ["", network_id, metadata?]}` — the first entry is a
//! placeholder kept for wire compatibility, the third, when present, is the
//! metadata object written as a JSON string.

use vstd::prelude::*;
use vstd::utf8::decode_utf8;
use vstd::utf8::encode_utf8;
use vstd::utf8::valid_utf8;

use crate::envelope::envelope_enc;
use crate::envelope::envelope_parse;
use crate::envelope::lemma_envelope_roundtrip;
use crate::envelope::make_unsigned;
use crate::envelope::unsigned_spec;
use crate::envelope::Envelope;
use crate::envelope::EnvelopeView;
use crate::json::arr_items_enc;
use crate::json::find_member;
use crate::json::members_view;
use crate::json::obj_enc;
use crate::json::parse_doc;
use crate::json::parse_doc_bytes;
use crate::json::strs_view;
use crate::json::val_enc;
use crate::json::write_jstr;
use crate::json::JsonVal;
use crate::json::MemberVal;
use crate::json::Members;
use crate::signing::check_signature;
use crate::signing::key_decodes;
use crate::signing::sig_valid;
use crate::signing::sign_and_export;

verus! {

/// Errors of identity-record handling.
#[derive(Clone, Copy, Debug, PartialEq, Eq, Structural)]
pub enum Error {
    /// The bytes are not a well-formed record document.
    Serialization,
    /// A byte string that had to be text was not UTF-8.
    Utf8,
    /// The signing key refused to sign.
    Seal,
    /// The document is well formed but no valid record.
    Validation,
}

/// Optional descriptive metadata of a node.
#[derive(Debug)]
pub struct NodeMetadata {
    pub node_version: String,
    pub execution_node: String,
    pub consensus_node: String,
    pub subnets: String,
}

/// The identity record itself.
#[derive(Debug)]
pub struct NodeInfo {
    pub network_id: String,
    pub metadata: Option<NodeMetadata>,
}

/// Mathematical image of `NodeMetadata`.
#[verifier::ext_equal]
pub struct NodeMetadataView {
    pub node_version: Seq<char>,
    pub execution_node: Seq<char>,
    pub consensus_node: Seq<char>,
    pub subnets: Seq<char>,
}

/// Mathematical image of `NodeInfo`.
#[verifier::ext_equal]
pub struct NodeInfoView {
    pub network_id: Seq<char>,
    pub metadata: Option<NodeMetadataView>,
}

impl View for NodeMetadata {
    type V = NodeMetadataView;

    open spec fn view(&self) -> NodeMetadataView {
        NodeMetadataView {
            node_version: self.node_version@,
            execution_node: self.execution_node@,
            consensus_node: self.consensus_node@,
            subnets: self.subnets@,
        }
    }
}

impl View for NodeInfo {
    type V = NodeInfoView;

    open spec fn view(&self) -> NodeInfoView {
        NodeInfoView {
            network_id: self.network_id@,
            metadata: match self.metadata {
                Some(ref m) => Some(m@),
                None => None,
            },
        }
    }
}

impl PartialEq for NodeMetadata {
    fn eq(&self, other: &NodeMetadata) -> (r: bool) {
        self.node_version == other.node_version && self.execution_node == other.execution_node
            && self.consensus_node == other.consensus_node && self.subnets == other.subnets
    }
}

impl vstd::std_specs::cmp::PartialEqSpecImpl for NodeMetadata {
    open spec fn obeys_eq_spec() -> bool {
        true
    }

    open spec fn eq_spec(&self, other: &NodeMetadata) -> bool {
        self@ =~= other@
    }
}

impl PartialEq for NodeInfo {
    fn eq(&self, other: &NodeInfo) -> (r: bool) {
        if !(self.network_id == other.network_id) {
            return false;
        }
        match (&self.metadata, &other.metadata) {
            (Some(a), Some(b)) => a == b,
            (None, None) => true,
            _ => false,
        }
    }
}

impl vstd::std_specs::cmp::PartialEqSpecImpl for NodeInfo {
    open spec fn obeys_eq_spec() -> bool {
        true
    }

    open spec fn eq_spec(&self, other: &NodeInfo) -> bool {
        self@ =~= other@
    }
}

impl Default for NodeInfo {
    /// The empty record: empty network id, no metadata.
    fn default() -> (r: NodeInfo)
        ensures
            r@.network_id.len() == 0,
            r@.metadata is None,
    {
        NodeInfo { network_id: String::new(), metadata: None }
    }
}

// ---------- fixed wire names ----------

/// Signing domain of identity records: `"ssv"`.
pub open spec fn domain_spec() -> Seq<u8> {
    seq![0x73u8, 0x73u8, 0x76u8]
}

/// Payload-type tag of identity records: `"ssv/nodeinfo"`.
pub open spec fn codec_spec() -> Seq<u8> {
    seq![
        0x73u8,
        0x73u8,
        0x76u8,
        0x2Fu8,
        0x6Eu8,
        0x6Fu8,
        0x64u8,
        0x65u8,
        0x69u8,
        0x6Eu8,
        0x66u8,
        0x6Fu8,
    ]
}

/// `"Entries"`.
pub open spec fn key_entries() -> Seq<u8> {
    seq![0x45u8, 0x6Eu8, 0x74u8, 0x72u8, 0x69u8, 0x65u8, 0x73u8]
}

/// `"NodeVersion"`.
pub open spec fn key_node_version() -> Seq<u8> {
    seq![0x4Eu8, 0x6Fu8, 0x64u8, 0x65u8, 0x56u8, 0x65u8, 0x72u8, 0x73u8, 0x69u8, 0x6Fu8, 0x6Eu8]
}

/// `"ExecutionNode"`.
pub open spec fn key_execution_node() -> Seq<u8> {
    seq![
        0x45u8,
        0x78u8,
        0x65u8,
        0x63u8,
        0x75u8,
        0x74u8,
        0x69u8,
        0x6Fu8,
        0x6Eu8,
        0x4Eu8,
        0x6Fu8,
        0x64u8,
        0x65u8,
    ]
}

/// `"ConsensusNode"`.
pub open spec fn key_consensus_node() -> Seq<u8> {
    seq![
        0x43u8,
        0x6Fu8,
        0x6Eu8,
        0x73u8,
        0x65u8,
        0x6Eu8,
        0x73u8,
        0x75u8,
        0x73u8,
        0x4Eu8,
        0x6Fu8,
        0x64u8,
        0x65u8,
    ]
}

/// `"Subnets"`.
pub open spec fn key_subnets() -> Seq<u8> {
    seq![0x53u8, 0x75u8, 0x62u8, 0x6Eu8, 0x65u8, 0x74u8, 0x73u8]
}

/// Build the signing domain bytes.
pub fn domain_bytes() -> (r: Vec<u8>)
    ensures
        r@ == domain_spec(),
{
    let mut v: Vec<u8> = Vec::new();
    v.push(0x73);
    v.push(0x73);
    v.push(0x76);
    proof {
        assert(v@ =~= domain_spec());
    }
    v
}

/// Build the payload-type tag bytes.
pub fn codec_bytes() -> (r: Vec<u8>)
    ensures
        r@ == codec_spec(),
{
    let mut v: Vec<u8> = Vec::new();
    v.push(0x73);
    v.push(0x73);
    v.push(0x76);
    v.push(0x2F);
    v.push(0x6E);
    v.push(0x6F);
    v.push(0x64);
    v.push(0x65);
    v.push(0x69);
    v.push(0x6E);
    v.push(0x66);
    v.push(0x6F);
    proof {
        assert(v@ =~= codec_spec());
    }
    v
}

fn entries_key_bytes() -> (r: Vec<u8>)
    ensures
        r@ == key_entries(),
{
    let mut v: Vec<u8> = Vec::new();
    v.push(0x45);
    v.push(0x6E);
    v.push(0x74);
    v.push(0x72);
    v.push(0x69);
    v.push(0x65);
    v.push(0x73);
    proof {
        assert(v@ =~= key_entries());
    }
    v
}

fn node_version_key_bytes() -> (r: Vec<u8>)
    ensures
        r@ == key_node_version(),
{
    let mut v: Vec<u8> = Vec::new();
    v.push(0x4E);
    v.push(0x6F);
    v.push(0x64);
    v.push(0x65);
    v.push(0x56);
    v.push(0x65);
    v.push(0x72);
    v.push(0x73);
    v.push(0x69);
    v.push(0x6F);
    v.push(0x6E);
    proof {
        assert(v@ =~= key_node_version());
    }
    v
}

fn execution_node_key_bytes() -> (r: Vec<u8>)
    ensures
        r@ == key_execution_node(),
{
    let mut v: Vec<u8> = Vec::new();
    v.push(0x45);
    v.push(0x78);
    v.push(0x65);
    v.push(0x63);
    v.push(0x75);
    v.push(0x74);
    v.push(0x69);
    v.push(0x6F);
    v.push(0x6E);
    v.push(0x4E);
    v.push(0x6F);
    v.push(0x64);
    v.push(0x65);
    proof {
        assert(v@ =~= key_execution_node());
    }
    v
}

fn consensus_node_key_bytes() -> (r: Vec<u8>)
    ensures
        r@ == key_consensus_node(),
{
    let mut v: Vec<u8> = Vec::new();
    v.push(0x43);
    v.push(0x6F);
    v.push(0x6E);
    v.push(0x73);
    v.push(0x65);
    v.push(0x6E);
    v.push(0x73);
    v.push(0x75);
    v.push(0x73);
    v.push(0x4E);
    v.push(0x6F);
    v.push(0x64);
    v.push(0x65);
    proof {
        assert(v@ =~= key_consensus_node());
    }
    v
}

fn subnets_key_bytes() -> (r: Vec<u8>)
    ensures
        r@ == key_subnets(),
{
    let mut v: Vec<u8> = Vec::new();
    v.push(0x53);
    v.push(0x75);
    v.push(0x62);
    v.push(0x6E);
    v.push(0x65);
    v.push(0x74);
    v.push(0x73);
    proof {
        assert(v@ =~= key_subnets());
    }
    v
}

// ---------- the wire form of a record ----------

/// The metadata object as JSON text.
pub open spec fn meta_json(m: NodeMetadataView) -> Seq<u8> {
    obj_enc(
        seq![
            (key_node_version(), MemberVal::MStr(encode_utf8(m.node_version))),
            (key_execution_node(), MemberVal::MStr(encode_utf8(m.execution_node))),
            (key_consensus_node(), MemberVal::MStr(encode_utf8(m.consensus_node))),
            (key_subnets(), MemberVal::MStr(encode_utf8(m.subnets))),
        ],
    )
}

/// The entries list a record writes: placeholder, network id, metadata text
/// when present.
pub open spec fn entries_of(info: NodeInfoView) -> Seq<Seq<u8>> {
    match info.metadata {
        None => seq![Seq::<u8>::empty(), encode_utf8(info.network_id)],
        Some(m) => seq![Seq::<u8>::empty(), encode_utf8(info.network_id), meta_json(m)],
    }
}

/// The record's wire form: the entries document.
pub open spec fn marshal_spec(info: NodeInfoView) -> Seq<u8> {
    obj_enc(seq![(key_entries(), MemberVal::MArr(entries_of(info)))])
}

// ---------- reading a record back ----------

/// What metadata text decodes to: the four named fields, each a string of
/// text; a missing or non-string field, or one that is not UTF-8, is
/// malformed.
pub open spec fn meta_from_bytes(data: Seq<u8>) -> Result<NodeMetadataView, Error> {
    match parse_doc(data) {
        None => Err(Error::Serialization),
        Some(members) => match (
            find_member(members, key_node_version()),
            find_member(members, key_execution_node()),
            find_member(members, key_consensus_node()),
            find_member(members, key_subnets()),
        ) {
            (
                Some(MemberVal::MStr(nv)),
                Some(MemberVal::MStr(ex)),
                Some(MemberVal::MStr(cn)),
                Some(MemberVal::MStr(sn)),
            ) => {
                if valid_utf8(nv) && valid_utf8(ex) && valid_utf8(cn) && valid_utf8(sn) {
                    Ok(
                        NodeMetadataView {
                            node_version: decode_utf8(nv),
                            execution_node: decode_utf8(ex),
                            consensus_node: decode_utf8(cn),
                            subnets: decode_utf8(sn),
                        },
                    )
                } else {
                    Err(Error::Serialization)
                }
            },
            _ => Err(Error::Serialization),
        },
    }
}

/// What record bytes decode to: the network id from the second entry, and,
/// when a third entry is present, the metadata it holds (`None` means the
/// reader's previous metadata stands). Fewer than two entries is a
/// validation failure.
pub open spec fn unmarshal_spec(data: Seq<u8>) -> Result<
    (Seq<char>, Option<NodeMetadataView>),
    Error,
> {
    match parse_doc(data) {
        None => Err(Error::Serialization),
        Some(members) => match find_member(members, key_entries()) {
            Some(MemberVal::MArr(entries)) => {
                if entries.len() < 2 {
                    Err(Error::Validation)
                } else if !valid_utf8(entries[1]) {
                    Err(Error::Serialization)
                } else if entries.len() >= 3 {
                    match meta_from_bytes(entries[2]) {
                        Ok(m) => Ok((decode_utf8(entries[1]), Some(m))),
                        Err(e) => Err(e),
                    }
                } else {
                    Ok((decode_utf8(entries[1]), None))
                }
            },
            _ => Err(Error::Serialization),
        },
    }
}

// ---------- executable helpers ----------

/// Byte-string equality.
fn bytes_eq(a: &[u8], b: &[u8]) -> (r: bool)
    ensures
        r == (a@ == b@),
{
    if a.len() != b.len() {
        return false;
    }
    let mut k: usize = 0;
    while k < a.len()
        invariant
            k <= a@.len(),
            a@.len() == b@.len(),
            forall|m: int| 0 <= m < k ==> a@[m] == b@[m],
        decreases a@.len() - k,
    {
        if a[k] != b[k] {
            return false;
        }
        k = k + 1;
    }
    proof {
        assert(a@ =~= b@);
    }
    true
}

/// Relies on `String::from_utf8`: it succeeds exactly on valid UTF-8 and
/// returns the text those bytes encode.
#[verifier::external_body]
fn string_from_utf8(v: Vec<u8>) -> (r: Option<String>)
    ensures
        r is Some <==> valid_utf8(v@),
        r matches Some(s) ==> s@ == decode_utf8(v@),
{
    String::from_utf8(v).ok()
}

/// First member named `key`, as an index into `members`.
fn find_member_at(members: &Vec<(Vec<u8>, JsonVal)>, key: &[u8]) -> (r: Option<usize>)
    ensures
        match r {
            Some(idx) => {
                &&& idx < members@.len()
                &&& members@[idx as int].0@ == key@
                &&& find_member(members_view(members@), key@) == Some(members@[idx as int].1@)
            },
            None => find_member(members_view(members@), key@) is None,
        },
{
    let ghost mv = members_view(members@);
    proof {
        assert(mv.skip(0) =~= mv);
    }
    let mut k: usize = 0;
    while k < members.len()
        invariant
            k <= members@.len(),
            mv == members_view(members@),
            find_member(mv, key@) == find_member(mv.skip(k as int), key@),
        decreases members@.len() - k,
    {
        proof {
            assert(mv.skip(k as int)[0] == mv[k as int]);
            assert(mv.skip(k as int).skip(1) =~= mv.skip(k as int + 1));
        }
        if bytes_eq(members[k].0.as_slice(), key) {
            return Some(k);
        }
        k = k + 1;
    }
    proof {
        assert(mv.skip(k as int).len() == 0);
    }
    None
}

// ---------- the record itself ----------

impl NodeInfo {
    /// A record from its parts.
    pub fn new(network_id: String, metadata: Option<NodeMetadata>) -> (r: NodeInfo)
        ensures
            r@.network_id == network_id@,
            r@.metadata is Some <==> metadata is Some,
            metadata matches Some(m) ==> r@.metadata == Some(m@),
    {
        NodeInfo { network_id, metadata }
    }

    /// Write this record to its wire form. Writing cannot fail; the
    /// `Result` mirrors the fallible shape of the wire interface.
    pub fn marshal(&self) -> (r: Result<Vec<u8>, Error>)
        ensures
            r matches Ok(v) && v@ == marshal_spec(self@),
    {
        let mut out: Vec<u8> = Vec::new();
        out.push(0x7B);
        let ekey = entries_key_bytes();
        write_jstr(&mut out, ekey.as_slice());
        out.push(0x3A);
        out.push(0x5B);
        let empty_entry: Vec<u8> = Vec::new();
        write_jstr(&mut out, empty_entry.as_slice());
        out.push(0x2C);
        write_jstr(&mut out, self.network_id.as_str().as_bytes());
        match &self.metadata {
            Some(m) => {
                out.push(0x2C);
                let mj = write_meta(m);
                write_jstr(&mut out, mj.as_slice());
            },
            None => {},
        }
        out.push(0x5D);
        out.push(0x7D);
        proof {
            let entries = entries_of(self@);
            let e_items = arr_items_enc(entries);
            if self@.metadata is Some {
                assert(entries.skip(1) =~= seq![entries[1], entries[2]]);
                assert(entries.skip(1).skip(1) =~= seq![entries[2]]);
                assert(arr_items_enc(entries.skip(1).skip(1)) == crate::json::jstr_enc(
                    entries[2],
                ));
                assert(arr_items_enc(entries.skip(1)) == crate::json::jstr_enc(entries[1])
                    + seq![0x2Cu8] + crate::json::jstr_enc(entries[2]));
                assert(e_items == crate::json::jstr_enc(entries[0]) + seq![0x2Cu8] + (
                crate::json::jstr_enc(entries[1]) + seq![0x2Cu8] + crate::json::jstr_enc(
                    entries[2],
                )));
            } else {
                assert(entries.skip(1) =~= seq![entries[1]]);
                assert(arr_items_enc(entries.skip(1)) == crate::json::jstr_enc(entries[1]));
                assert(e_items == crate::json::jstr_enc(entries[0]) + seq![0x2Cu8]
                    + crate::json::jstr_enc(entries[1]));
            }
            let ms: Members = seq![(key_entries(), MemberVal::MArr(entries))];
            assert(members_view(Seq::<(Vec<u8>, JsonVal)>::empty()) =~= Seq::<(
                Seq<u8>,
                MemberVal,
            )>::empty());
            assert(crate::json::members_enc(ms) == crate::json::jstr_enc(key_entries())
                + seq![0x3Au8] + val_enc(MemberVal::MArr(entries)));
            assert(val_enc(MemberVal::MArr(entries)) == seq![0x5Bu8] + e_items + seq![0x5Du8]);
            assert(entries[0] =~= Seq::<u8>::empty());
            assert(out@ =~= marshal_spec(self@));
        }
        Ok(out)
    }

    /// Read a record from its wire form, replacing this record's fields as
    /// `unmarshal_spec` says. On failure this record is left untouched.
    pub fn unmarshal(&mut self, data: &[u8]) -> (r: Result<(), Error>)
        ensures
            match unmarshal_spec(data@) {
                Ok((nid, mm)) => {
                    &&& r is Ok
                    &&& final(self)@.network_id == nid
                    &&& final(self)@.metadata == (if mm is Some {
                        mm
                    } else {
                        old(self)@.metadata
                    })
                },
                Err(e) => r == Err::<(), Error>(e) && *final(self) == *old(self),
            },
    {
        let members = match parse_doc_bytes(data) {
            Some(ms) => ms,
            None => {
                return Err(Error::Serialization);
            },
        };
        let ekey = entries_key_bytes();
        let idx = match find_member_at(&members, ekey.as_slice()) {
            Some(i) => i,
            None => {
                return Err(Error::Serialization);
            },
        };
        let entries: &Vec<Vec<u8>> = match &members[idx].1 {
            JsonVal::Arr(items) => items,
            JsonVal::Str(_) => {
                return Err(Error::Serialization);
            },
        };
        let ghost entries_spec = strs_view(entries@);
        if entries.len() < 2 {
            return Err(Error::Validation);
        }
        proof {
            assert(entries_spec[1] == entries@[1]@);
        }
        let nid = match string_from_utf8(clone_bytes(&entries[1])) {
            Some(s) => s,
            None => {
                return Err(Error::Serialization);
            },
        };
        if entries.len() >= 3 {
            proof {
                assert(entries_spec[2] == entries@[2]@);
            }
            let meta = match read_meta(entries[2].as_slice()) {
                Ok(m) => m,
                Err(e) => {
                    return Err(e);
                },
            };
            self.network_id = nid;
            self.metadata = Some(meta);
        } else {
            self.network_id = nid;
        }
        Ok(())
    }
}

/// Clone of a byte vector.
fn clone_bytes(v: &Vec<u8>) -> (r: Vec<u8>)
    ensures
        r@ == v@,
{
    let mut out: Vec<u8> = Vec::new();
    let mut k: usize = 0;
    while k < v.len()
        invariant
            k <= v@.len(),
            out@ == v@.take(k as int),
        decreases v@.len() - k,
    {
        out.push(v[k]);
        proof {
            assert(v@.take(k as int).push(v@[k as int]) =~= v@.take(k as int + 1));
        }
        k = k + 1;
    }
    proof {
        assert(v@.take(v@.len() as int) =~= v@);
    }
    out
}

/// Write the metadata object as JSON text.
#[verifier::rlimit(100)]
fn write_meta(m: &NodeMetadata) -> (r: Vec<u8>)
    ensures
        r@ == meta_json(m@),
{
    let mut out: Vec<u8> = Vec::new();
    out.push(0x7B);
    let k1 = node_version_key_bytes();
    write_jstr(&mut out, k1.as_slice());
    out.push(0x3A);
    write_jstr(&mut out, m.node_version.as_str().as_bytes());
    out.push(0x2C);
    let k2 = execution_node_key_bytes();
    write_jstr(&mut out, k2.as_slice());
    out.push(0x3A);
    write_jstr(&mut out, m.execution_node.as_str().as_bytes());
    out.push(0x2C);
    let k3 = consensus_node_key_bytes();
    write_jstr(&mut out, k3.as_slice());
    out.push(0x3A);
    write_jstr(&mut out, m.consensus_node.as_str().as_bytes());
    out.push(0x2C);
    let k4 = subnets_key_bytes();
    write_jstr(&mut out, k4.as_slice());
    out.push(0x3A);
    write_jstr(&mut out, m.subnets.as_str().as_bytes());
    out.push(0x7D);
    proof {
        let members: Members = seq![
            (key_node_version(), MemberVal::MStr(encode_utf8(m@.node_version))),
            (key_execution_node(), MemberVal::MStr(encode_utf8(m@.execution_node))),
            (key_consensus_node(), MemberVal::MStr(encode_utf8(m@.consensus_node))),
            (key_subnets(), MemberVal::MStr(encode_utf8(m@.subnets))),
        ];
        assert(members.skip(1) =~= seq![members[1], members[2], members[3]]);
        assert(members.skip(1).skip(1) =~= seq![members[2], members[3]]);
        assert(members.skip(1).skip(1).skip(1) =~= seq![members[3]]);
        let enc3 = crate::json::jstr_enc(members[3].0) + seq![0x3Au8] + val_enc(members[3].1);
        assert(crate::json::members_enc(members.skip(1).skip(1).skip(1)) == enc3);
        let enc2 = crate::json::jstr_enc(members[2].0) + seq![0x3Au8] + val_enc(members[2].1)
            + seq![0x2Cu8] + enc3;
        assert(crate::json::members_enc(members.skip(1).skip(1)) == enc2);
        let enc1 = crate::json::jstr_enc(members[1].0) + seq![0x3Au8] + val_enc(members[1].1)
            + seq![0x2Cu8] + enc2;
        assert(crate::json::members_enc(members.skip(1)) == enc1);
        let enc0 = crate::json::jstr_enc(members[0].0) + seq![0x3Au8] + val_enc(members[0].1)
            + seq![0x2Cu8] + enc1;
        assert(crate::json::members_enc(members) == enc0);
        assert(out@ =~= meta_json(m@));
    }
    out
}

/// Read the metadata object from JSON text.
fn read_meta(data: &[u8]) -> (r: Result<NodeMetadata, Error>)
    ensures
        match r {
            Ok(m) => meta_from_bytes(data@) == Ok::<NodeMetadataView, Error>(m@),
            Err(e) => meta_from_bytes(data@) == Err::<NodeMetadataView, Error>(e),
        },
{
    let members = match parse_doc_bytes(data) {
        Some(ms) => ms,
        None => {
            return Err(Error::Serialization);
        },
    };
    let k1 = node_version_key_bytes();
    let k2 = execution_node_key_bytes();
    let k3 = consensus_node_key_bytes();
    let k4 = subnets_key_bytes();
    let i1 = match find_member_at(&members, k1.as_slice()) {
        Some(i) => i,
        None => {
            return Err(Error::Serialization);
        },
    };
    let i2 = match find_member_at(&members, k2.as_slice()) {
        Some(i) => i,
        None => {
            return Err(Error::Serialization);
        },
    };
    let i3 = match find_member_at(&members, k3.as_slice()) {
        Some(i) => i,
        None => {
            return Err(Error::Serialization);
        },
    };
    let i4 = match find_member_at(&members, k4.as_slice()) {
        Some(i) => i,
        None => {
            return Err(Error::Serialization);
        },
    };
    let nv = match &members[i1].1 {
        JsonVal::Str(c) => clone_bytes(c),
        JsonVal::Arr(_) => {
            return Err(Error::Serialization);
        },
    };
    let ex = match &members[i2].1 {
        JsonVal::Str(c) => clone_bytes(c),
        JsonVal::Arr(_) => {
            return Err(Error::Serialization);
        },
    };
    let cn = match &members[i3].1 {
        JsonVal::Str(c) => clone_bytes(c),
        JsonVal::Arr(_) => {
            return Err(Error::Serialization);
        },
    };
    let sn = match &members[i4].1 {
        JsonVal::Str(c) => clone_bytes(c),
        JsonVal::Arr(_) => {
            return Err(Error::Serialization);
        },
    };
    let nv_s = match string_from_utf8(nv) {
        Some(s) => s,
        None => {
            return Err(Error::Serialization);
        },
    };
    let ex_s = match string_from_utf8(ex) {
        Some(s) => s,
        None => {
            return Err(Error::Serialization);
        },
    };
    let cn_s = match string_from_utf8(cn) {
        Some(s) => s,
        None => {
            return Err(Error::Serialization);
        },
    };
    let sn_s = match string_from_utf8(sn) {
        Some(s) => s,
        None => {
            return Err(Error::Serialization);
        },
    };
    Ok(
        NodeMetadata {
            node_version: nv_s,
            execution_node: ex_s,
            consensus_node: cn_s,
            subnets: sn_s,
        },
    )
}

// ---------- sealing and verification ----------

impl NodeInfo {
    /// Seal this record: marshal it, sign the domain-separated blob over
    /// the fixed domain and payload-type tag, and package the envelope.
    /// Fails only when the signing key refuses to sign.
    pub fn seal(&self, keypair: &libp2p_identity::Keypair) -> (r: Result<Envelope, Error>)
        ensures
            match r {
                Ok(env) => {
                    &&& env@.payload == marshal_spec(self@)
                    &&& env@.payload_type == codec_spec()
                    &&& key_decodes(env@.public_key)
                    &&& sig_valid(
                        env@.public_key,
                        unsigned_spec(domain_spec(), codec_spec(), marshal_spec(self@)),
                        env@.signature,
                    )
                },
                Err(e) => e == Error::Seal,
            },
    {
        let payload = match self.marshal() {
            Ok(p) => p,
            Err(_) => {
                return Err(Error::Seal);
            },
        };
        let domain = domain_bytes();
        let payload_type = codec_bytes();
        let unsigned = make_unsigned(
            domain.as_slice(),
            payload_type.as_slice(),
            payload.as_slice(),
        );
        match sign_and_export(keypair, unsigned.as_slice()) {
            Some((pk, sig)) => Ok(
                Envelope { public_key: pk, payload_type, payload, signature: sig },
            ),
            None => Err(Error::Seal),
        }
    }
}

/// Decode an envelope from its wire form and verify its signature against
/// the fixed domain and payload-type tag of identity records — the
/// verifier's own expectation, never the envelope's claimed fields.
pub fn parse_envelope(bytes: &[u8]) -> (r: Result<Envelope, crate::envelope::Error>)
    ensures
        match r {
            Ok(env) => {
                &&& envelope_parse(bytes@) == Some(env@)
                &&& key_decodes(env@.public_key)
                &&& sig_valid(
                    env@.public_key,
                    unsigned_spec(domain_spec(), codec_spec(), env@.payload),
                    env@.signature,
                )
            },
            Err(e) => {
                &&& (e == crate::envelope::Error::Decode <==> envelope_parse(bytes@) is None)
                &&& (e == crate::envelope::Error::PublicKeyDecoding ==> (envelope_parse(bytes@)
                    matches Some(ev) && !key_decodes(ev.public_key)))
                &&& (e == crate::envelope::Error::SignatureVerification ==> (envelope_parse(bytes@)
                    matches Some(ev) && key_decodes(ev.public_key) && !sig_valid(
                    ev.public_key,
                    unsigned_spec(domain_spec(), codec_spec(), ev.payload),
                    ev.signature,
                )))
                &&& e != crate::envelope::Error::Encode
            },
        },
{
    let env = match Envelope::decode_from_slice(bytes) {
        Ok(e) => e,
        Err(_) => {
            return Err(crate::envelope::Error::Decode);
        },
    };
    let domain = domain_bytes();
    let payload_type = codec_bytes();
    let unsigned = make_unsigned(
        domain.as_slice(),
        payload_type.as_slice(),
        env.payload.as_slice(),
    );
    match check_signature(env.public_key.as_slice(), unsigned.as_slice(), env.signature.as_slice())
    {
        None => Err(crate::envelope::Error::PublicKeyDecoding),
        Some(false) => Err(crate::envelope::Error::SignatureVerification),
        Some(true) => Ok(env),
    }
}

// ---------- round-trip laws ----------

/// Metadata text written by this library reads back to the same metadata.
#[verifier::rlimit(100)]
pub proof fn lemma_meta_roundtrip(m: NodeMetadataView)
    ensures
        meta_from_bytes(meta_json(m)) == Ok::<NodeMetadataView, Error>(m),
{
    broadcast use vstd::utf8::encode_utf8_valid_utf8, vstd::utf8::encode_utf8_decode_utf8;

    let members: Members = seq![
        (key_node_version(), MemberVal::MStr(encode_utf8(m.node_version))),
        (key_execution_node(), MemberVal::MStr(encode_utf8(m.execution_node))),
        (key_consensus_node(), MemberVal::MStr(encode_utf8(m.consensus_node))),
        (key_subnets(), MemberVal::MStr(encode_utf8(m.subnets))),
    ];
    crate::json::lemma_parse_doc_enc(members);
    assert(members.skip(1) =~= seq![members[1], members[2], members[3]]);
    assert(members.skip(1).skip(1) =~= seq![members[2], members[3]]);
    assert(members.skip(1).skip(1).skip(1) =~= seq![members[3]]);
    assert(key_node_version() != key_execution_node()) by {
        assert(key_node_version().len() != key_execution_node().len());
    }
    assert(key_node_version() != key_consensus_node()) by {
        assert(key_node_version().len() != key_consensus_node().len());
    }
    assert(key_execution_node() != key_consensus_node()) by {
        assert(key_execution_node()[0] == 0x45 && key_consensus_node()[0] == 0x43);
    }
    assert(key_node_version() != key_subnets()) by {
        assert(key_node_version().len() != key_subnets().len());
    }
    assert(key_execution_node() != key_subnets()) by {
        assert(key_execution_node().len() != key_subnets().len());
    }
    assert(key_consensus_node() != key_subnets()) by {
        assert(key_consensus_node().len() != key_subnets().len());
    }
    let tail1 = members.skip(1);
    let tail2 = members.skip(1).skip(1);
    let tail3 = members.skip(1).skip(1).skip(1);
    assert(find_member(members, key_node_version()) == Some(members[0].1));
    assert(find_member(members, key_execution_node()) == find_member(
        tail1,
        key_execution_node(),
    ));
    assert(find_member(tail1, key_execution_node()) == Some(members[1].1));
    assert(find_member(members, key_consensus_node()) == find_member(
        tail1,
        key_consensus_node(),
    ));
    assert(find_member(tail1, key_consensus_node()) == find_member(tail2, key_consensus_node()));
    assert(find_member(tail2, key_consensus_node()) == Some(members[2].1));
    assert(find_member(members, key_subnets()) == find_member(tail1, key_subnets()));
    assert(find_member(tail1, key_subnets()) == find_member(tail2, key_subnets()));
    assert(find_member(tail2, key_subnets()) == find_member(tail3, key_subnets()));
    assert(find_member(tail3, key_subnets()) == Some(members[3].1));
    assert(meta_from_bytes(meta_json(m)) matches Ok(mm) && mm =~= m);
}

/// A record written by this library reads back to the same record: the
/// network id always, and the metadata exactly when the record carried any.
pub proof fn lemma_marshal_unmarshal(info: NodeInfoView)
    ensures
        unmarshal_spec(marshal_spec(info)) == Ok::<(Seq<char>, Option<NodeMetadataView>), Error>(
            (info.network_id, info.metadata),
        ),
{
    broadcast use vstd::utf8::encode_utf8_valid_utf8, vstd::utf8::encode_utf8_decode_utf8;

    let entries = entries_of(info);
    let members: Members = seq![(key_entries(), MemberVal::MArr(entries))];
    crate::json::lemma_parse_doc_enc(members);
    assert(find_member(members, key_entries()) == Some(members[0].1));
    assert(entries[1] == encode_utf8(info.network_id));
    if info.metadata is Some {
        let m = info.metadata.unwrap();
        assert(entries[2] == meta_json(m));
        lemma_meta_roundtrip(m);
    }
}

/// Law: sealing then verifying succeeds and recovers the sealed record.
/// For any record and any signature that the sealing side's key produced
/// over its marshalled form, the encoded envelope parses back unchanged,
/// its signature checks against the expected domain and payload type, and
/// its payload unmarshals to the record itself.
pub proof fn lemma_seal_verify_roundtrip(info: NodeInfoView, pk: Seq<u8>, sig: Seq<u8>)
    requires
        pk.len() <= u64::MAX,
        sig.len() <= u64::MAX,
        marshal_spec(info).len() <= u64::MAX,
        key_decodes(pk),
        sig_valid(pk, unsigned_spec(domain_spec(), codec_spec(), marshal_spec(info)), sig),
    ensures
        ({
            let env = EnvelopeView {
                public_key: pk,
                payload_type: codec_spec(),
                payload: marshal_spec(info),
                signature: sig,
            };
            &&& envelope_parse(envelope_enc(env)) == Some(env)
            &&& sig_valid(
                env.public_key,
                unsigned_spec(domain_spec(), codec_spec(), env.payload),
                env.signature,
            )
            &&& unmarshal_spec(env.payload) == Ok::<(Seq<char>, Option<NodeMetadataView>), Error>(
                (info.network_id, info.metadata),
            )
        }),
{
    let env = EnvelopeView {
        public_key: pk,
        payload_type: codec_spec(),
        payload: marshal_spec(info),
        signature: sig,
    };
    lemma_envelope_roundtrip(env);
    lemma_marshal_unmarshal(info);
}

} // verus!
