//! The authenticated envelope: a container with four byte fields (producer's
//! public key, payload-type tag, payload, signature), carried on the wire as
//! tagged, length-delimited fields.
//!
//! Field numbers are 1 (public key), 2 (payload type), 3 (payload) and
//! 5 (signature); 4 is reserved by protocol history and is treated as an
//! unknown field. Every field is length-delimited: a varint key
//! `field * 8 + 2`, a varint byte count, then the bytes. An empty field is
//! not written and decodes as empty. Unknown fields are skipped by their
//! wire type (0: varint, 1: eight bytes, 2: length-delimited, 5: four
//! bytes); any other wire type is malformed.

use vstd::prelude::*;

use crate::varint::decode_varint;
use crate::varint::encode_varint_u64;
use crate::varint::lemma_varint_parse_acc_consumes;
use crate::varint::lemma_varint_roundtrip;
use crate::varint::varint_enc;
use crate::varint::varint_parse;

verus! {

/// Errors of envelope encoding, decoding and verification.
#[derive(Clone, Copy, Debug, PartialEq, Eq, Structural)]
pub enum Error {
    /// The byte string is not a well-formed envelope.
    Decode,
    /// The envelope could not be written out.
    Encode,
    /// The public-key field does not decode as a public key.
    PublicKeyDecoding,
    /// The signature does not verify under the envelope's key.
    SignatureVerification,
}

/// A signed, typed container exchanged during the handshake.
#[derive(Debug)]
pub struct Envelope {
    /// Encoded public key of the producer.
    pub public_key: Vec<u8>,
    /// Tag naming the payload's record kind.
    pub payload_type: Vec<u8>,
    /// The record bytes themselves.
    pub payload: Vec<u8>,
    /// Signature over the domain-separated unsigned blob.
    pub signature: Vec<u8>,
}

/// Mathematical image of an `Envelope`: its four byte strings.
#[verifier::ext_equal]
pub struct EnvelopeView {
    pub public_key: Seq<u8>,
    pub payload_type: Seq<u8>,
    pub payload: Seq<u8>,
    pub signature: Seq<u8>,
}

impl View for Envelope {
    type V = EnvelopeView;

    open spec fn view(&self) -> EnvelopeView {
        EnvelopeView {
            public_key: self.public_key@,
            payload_type: self.payload_type@,
            payload: self.payload@,
            signature: self.signature@,
        }
    }
}

/// The envelope whose four fields are all empty.
pub open spec fn empty_envelope() -> EnvelopeView {
    EnvelopeView {
        public_key: Seq::empty(),
        payload_type: Seq::empty(),
        payload: Seq::empty(),
        signature: Seq::empty(),
    }
}

/// `st` with the field numbered `field` replaced by `content`; fields other
/// than 1, 2, 3 and 5 are unknown and leave `st` as it is.
pub open spec fn envelope_set_field(st: EnvelopeView, field: nat, content: Seq<u8>) -> EnvelopeView {
    if field == 1 {
        EnvelopeView { public_key: content, ..st }
    } else if field == 2 {
        EnvelopeView { payload_type: content, ..st }
    } else if field == 3 {
        EnvelopeView { payload: content, ..st }
    } else if field == 5 {
        EnvelopeView { signature: content, ..st }
    } else {
        st
    }
}

/// Wire form of one length-delimited field; an empty field is not written.
pub open spec fn field_enc(field: nat, content: Seq<u8>) -> Seq<u8> {
    if content.len() == 0 {
        Seq::empty()
    } else {
        varint_enc(field * 8 + 2) + varint_enc(content.len() as nat) + content
    }
}

/// Wire form of a whole envelope: present fields in field-number order.
pub open spec fn envelope_enc(e: EnvelopeView) -> Seq<u8> {
    field_enc(1, e.public_key) + field_enc(2, e.payload_type) + field_enc(3, e.payload)
        + field_enc(5, e.signature)
}

/// A parsed varint that must also fit in 64 bits; larger values are
/// malformed on this wire.
pub open spec fn varint_parse_u64(s: Seq<u8>) -> Option<(u64, Seq<u8>)> {
    match varint_parse(s) {
        Some((v, rest)) => if v <= u64::MAX {
            Some((v as u64, rest))
        } else {
            None
        },
        None => None,
    }
}

/// Parse all remaining fields of `s` into `st`: the last occurrence of a
/// known field wins, unknown fields are skipped by wire type.
pub open spec fn envelope_parse_fields(s: Seq<u8>, st: EnvelopeView) -> Option<EnvelopeView>
    decreases s.len(),
    via envelope_parse_fields_dec
{
    if s.len() == 0 {
        Some(st)
    } else {
        match varint_parse_u64(s) {
            None => None,
            Some((key, r1)) => {
                let wire = key % 8;
                let field = (key / 8) as nat;
                if wire == 2 {
                    match varint_parse_u64(r1) {
                        None => None,
                        Some((len, r2)) => {
                            if len <= r2.len() {
                                envelope_parse_fields(
                                    r2.skip(len as int),
                                    envelope_set_field(st, field, r2.take(len as int)),
                                )
                            } else {
                                None
                            }
                        },
                    }
                } else if wire == 0 {
                    match varint_parse_u64(r1) {
                        None => None,
                        Some((_, rest)) => envelope_parse_fields(rest, st),
                    }
                } else if wire == 1 {
                    if r1.len() >= 8 {
                        envelope_parse_fields(r1.skip(8), st)
                    } else {
                        None
                    }
                } else if wire == 5 {
                    if r1.len() >= 4 {
                        envelope_parse_fields(r1.skip(4), st)
                    } else {
                        None
                    }
                } else {
                    None
                }
            },
        }
    }
}

#[via_fn]
proof fn envelope_parse_fields_dec(s: Seq<u8>, st: EnvelopeView) {
    if s.len() > 0 {
        if varint_parse(s) is Some {
            lemma_varint_parse_acc_consumes(s, 0, 1);
            let r1 = varint_parse(s).unwrap().1;
            if varint_parse(r1) is Some {
                lemma_varint_parse_acc_consumes(r1, 0, 1);
            }
        }
    }
}

/// Parse of a whole envelope: every byte of `s` must belong to a field.
pub open spec fn envelope_parse(s: Seq<u8>) -> Option<EnvelopeView> {
    envelope_parse_fields(s, empty_envelope())
}

/// Reading one present field off the front advances the parse by one
/// `envelope_set_field` step.
proof fn lemma_parse_one_field(field: nat, content: Seq<u8>, rest: Seq<u8>, st: EnvelopeView)
    requires
        1 <= field <= 5,
        0 < content.len() <= u64::MAX,
    ensures
        envelope_parse_fields(field_enc(field, content) + rest, st) == envelope_parse_fields(
            rest,
            envelope_set_field(st, field, content),
        ),
{
    let key = field * 8 + 2;
    let tail1 = varint_enc(content.len() as nat) + content + rest;
    let s = field_enc(field, content) + rest;
    assert(s =~= varint_enc(key) + tail1);
    lemma_varint_roundtrip(key, tail1);
    assert(key % 8 == 2 && key / 8 == field) by (nonlinear_arith)
        requires key == field * 8 + 2, field >= 1;
    let tail2 = content + rest;
    assert(tail1 =~= varint_enc(content.len() as nat) + tail2);
    lemma_varint_roundtrip(content.len() as nat, tail2);
    assert(tail2.take(content.len() as int) =~= content);
    assert(tail2.skip(content.len() as int) =~= rest);
    assert(s.len() > 0);
}

/// Round trip: parsing the wire form of an envelope recovers it exactly.
pub proof fn lemma_envelope_roundtrip(e: EnvelopeView)
    requires
        e.public_key.len() <= u64::MAX,
        e.payload_type.len() <= u64::MAX,
        e.payload.len() <= u64::MAX,
        e.signature.len() <= u64::MAX,
    ensures
        envelope_parse(envelope_enc(e)) == Some(e),
{
    let st0 = empty_envelope();
    let f1 = field_enc(1, e.public_key);
    let f2 = field_enc(2, e.payload_type);
    let f3 = field_enc(3, e.payload);
    let f5 = field_enc(5, e.signature);
    let st1 = envelope_set_field(st0, 1, e.public_key);
    let st2 = envelope_set_field(st1, 2, e.payload_type);
    let st3 = envelope_set_field(st2, 3, e.payload);
    let st5 = envelope_set_field(st3, 5, e.signature);
    assert(envelope_enc(e) =~= f1 + (f2 + (f3 + (f5 + Seq::<u8>::empty()))));
    if e.public_key.len() == 0 {
        assert(f1 + (f2 + (f3 + (f5 + Seq::<u8>::empty()))) =~= f2 + (f3 + (f5
            + Seq::<u8>::empty())));
        assert(st1 =~= st0);
    } else {
        lemma_parse_one_field(1, e.public_key, f2 + (f3 + (f5 + Seq::<u8>::empty())), st0);
    }
    if e.payload_type.len() == 0 {
        assert(f2 + (f3 + (f5 + Seq::<u8>::empty())) =~= f3 + (f5 + Seq::<u8>::empty()));
        assert(st2 =~= st1);
    } else {
        lemma_parse_one_field(2, e.payload_type, f3 + (f5 + Seq::<u8>::empty()), st1);
    }
    if e.payload.len() == 0 {
        assert(f3 + (f5 + Seq::<u8>::empty()) =~= f5 + Seq::<u8>::empty());
        assert(st3 =~= st2);
    } else {
        lemma_parse_one_field(3, e.payload, f5 + Seq::<u8>::empty(), st2);
    }
    if e.signature.len() == 0 {
        assert(f5 + Seq::<u8>::empty() =~= Seq::<u8>::empty());
        assert(st5 =~= st3);
    } else {
        lemma_parse_one_field(5, e.signature, Seq::<u8>::empty(), st3);
    }
    assert(envelope_parse_fields(Seq::<u8>::empty(), st5) == Some(st5));
    assert(st5 =~= e);
}

/// The domain-separated byte string that is signed: each of domain,
/// payload-type tag and payload framed by a varint byte count. The framing
/// is mandatory: without it, shifted field boundaries could forge a
/// different logical message out of the same bytes.
pub open spec fn unsigned_spec(domain: Seq<u8>, payload_type: Seq<u8>, payload: Seq<u8>) -> Seq<
    u8,
> {
    varint_enc(domain.len()) + domain + varint_enc(payload_type.len()) + payload_type + varint_enc(
        payload.len(),
    ) + payload
}

/// Build the unsigned blob that sealing signs and verification recomputes.
pub fn make_unsigned(domain: &[u8], payload_type: &[u8], payload: &[u8]) -> (r: Vec<u8>)
    ensures
        r@ == unsigned_spec(domain@, payload_type@, payload@),
{
    let mut out: Vec<u8> = Vec::new();
    encode_varint_u64(domain.len() as u64, &mut out);
    push_bytes(&mut out, domain);
    encode_varint_u64(payload_type.len() as u64, &mut out);
    push_bytes(&mut out, payload_type);
    encode_varint_u64(payload.len() as u64, &mut out);
    push_bytes(&mut out, payload);
    proof {
        assert(out@ =~= unsigned_spec(domain@, payload_type@, payload@));
    }
    out
}

/// Append every byte of `data` to `out`.
pub fn push_bytes(out: &mut Vec<u8>, data: &[u8])
    ensures
        final(out)@ == old(out)@ + data@,
{
    let mut k: usize = 0;
    while k < data.len()
        invariant
            k <= data@.len(),
            out@ == old(out)@ + data@.take(k as int),
        decreases data@.len() - k,
    {
        out.push(data[k]);
        proof {
            assert(data@.take(k as int).push(data@[k as int]) =~= data@.take(k as int + 1));
            assert(out@ =~= old(out)@ + data@.take(k as int + 1));
        }
        k = k + 1;
    }
    proof {
        assert(data@.take(data@.len() as int) =~= data@);
    }
}

/// Copy `data[from..to]` into a fresh vector.
pub fn copy_range(data: &[u8], from: usize, to: usize) -> (r: Vec<u8>)
    requires
        from <= to <= data@.len(),
    ensures
        r@ == data@.subrange(from as int, to as int),
{
    let mut out: Vec<u8> = Vec::new();
    let mut k: usize = from;
    while k < to
        invariant
            from <= k <= to <= data@.len(),
            out@ == data@.subrange(from as int, k as int),
        decreases to - k,
    {
        out.push(data[k]);
        proof {
            assert(data@.subrange(from as int, k as int).push(data@[k as int])
                =~= data@.subrange(from as int, k as int + 1));
        }
        k = k + 1;
    }
    proof {
        assert(out@ =~= data@.subrange(from as int, to as int));
    }
    out
}

/// Append one field's wire form to `out`.
fn emit_field(out: &mut Vec<u8>, field: u64, content: &Vec<u8>)
    requires
        1 <= field <= 5,
    ensures
        final(out)@ == old(out)@ + field_enc(field as nat, content@),
{
    if content.len() == 0 {
        proof {
            assert(out@ =~= old(out)@ + field_enc(field as nat, content@));
        }
        return ;
    }
    encode_varint_u64(field * 8 + 2, out);
    encode_varint_u64(content.len() as u64, out);
    push_bytes(out, content.as_slice());
    proof {
        assert(out@ =~= old(out)@ + field_enc(field as nat, content@));
    }
}

impl Envelope {
    /// Encode this envelope to its wire form. Encoding cannot fail; the
    /// `Result` mirrors the fallible shape of the wire interface.
    pub fn encode_to_vec(&self) -> (r: Result<Vec<u8>, Error>)
        ensures
            r matches Ok(v) && v@ == envelope_enc(self@),
    {
        let mut out: Vec<u8> = Vec::new();
        emit_field(&mut out, 1, &self.public_key);
        emit_field(&mut out, 2, &self.payload_type);
        emit_field(&mut out, 3, &self.payload);
        emit_field(&mut out, 5, &self.signature);
        proof {
            assert(out@ =~= envelope_enc(self@));
        }
        Ok(out)
    }

    /// Decode an envelope from its wire form: succeeds exactly on byte
    /// strings that `envelope_parse` accepts, and returns that parse.
    pub fn decode_from_slice(data: &[u8]) -> (r: Result<Envelope, Error>)
        ensures
            match r {
                Ok(env) => envelope_parse(data@) == Some(env@),
                Err(e) => envelope_parse(data@) is None && e == Error::Decode,
            },
    {
        let mut env = Envelope {
            public_key: Vec::new(),
            payload_type: Vec::new(),
            payload: Vec::new(),
            signature: Vec::new(),
        };
        let mut i: usize = 0;
        proof {
            assert(env@ =~= empty_envelope());
            assert(data@.skip(0) =~= data@);
        }
        loop
            invariant
                i <= data@.len(),
                envelope_parse(data@) == envelope_parse_fields(data@.skip(i as int), env@),
            decreases data@.len() - i,
        {
            let ghost s = data@.skip(i as int);
            if i >= data.len() {
                proof {
                    assert(s.len() == 0);
                }
                return Ok(env);
            }
            assert(s.len() > 0);
            let (key, j1) = match decode_varint(data, i) {
                Some(kj) => kj,
                None => {
                    return Err(Error::Decode);
                },
            };
            let ghost r1 = data@.skip(j1 as int);
            let wire = key % 8;
            if wire == 2 {
                let (len, j2) = match decode_varint(data, j1) {
                    Some(lj) => lj,
                    None => {
                        return Err(Error::Decode);
                    },
                };
                let ghost r2 = data@.skip(j2 as int);
                if !(len <= (data.len() - j2) as u64) {
                    proof {
                        assert(r2.len() == data@.len() - j2);
                    }
                    return Err(Error::Decode);
                }
                let len_us: usize = len as usize;
                let content = copy_range(data, j2, j2 + len_us);
                proof {
                    assert(content@ =~= r2.take(len as int));
                    assert(data@.skip(j2 + len_us as int) =~= r2.skip(len as int));
                }
                let ghost pre_env = env@;
                let field_small: u64 = key / 8;
                if field_small == 1 {
                    env.public_key = content;
                } else if field_small == 2 {
                    env.payload_type = content;
                } else if field_small == 3 {
                    env.payload = content;
                } else if field_small == 5 {
                    env.signature = content;
                }
                proof {
                    assert(env@ =~= envelope_set_field(
                        pre_env,
                        (key / 8) as nat,
                        r2.take(len as int),
                    ));
                }
                i = j2 + len_us;
            } else if wire == 0 {
                let (_skipped, j2) = match decode_varint(data, j1) {
                    Some(vj) => vj,
                    None => {
                        return Err(Error::Decode);
                    },
                };
                i = j2;
            } else if wire == 1 {
                if data.len() - j1 < 8 {
                    proof {
                        assert(r1.len() < 8);
                    }
                    return Err(Error::Decode);
                }
                proof {
                    assert(data@.skip(j1 + 8) =~= r1.skip(8));
                }
                i = j1 + 8;
            } else if wire == 5 {
                if data.len() - j1 < 4 {
                    proof {
                        assert(r1.len() < 4);
                    }
                    return Err(Error::Decode);
                }
                proof {
                    assert(data@.skip(j1 + 4) =~= r1.skip(4));
                }
                i = j1 + 4;
            } else {
                return Err(Error::Decode);
            }
        }
    }
}

} // verus!
