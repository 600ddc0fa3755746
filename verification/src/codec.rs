//! The wire format, as a mathematical model.
//!
//! A frame is a 4-byte little-endian length prefix followed by that many
//! payload bytes. A payload is one encoded envelope: an 8-byte little-endian
//! correlation id, a 1-byte variant tag in declaration order of `Packet`,
//! then the variant's fields. A string is a 4-byte byte count followed by
//! its UTF-8 bytes; a list is a 4-byte element count followed by its
//! elements; an optional string is a marker byte (0 absent, 1 present)
//! followed, when present, by a string.
//!
//! The executable encoder and decoder (`encode` and `decode` modules) are
//! proved equal to the spec functions here; the lemmas at the bottom state
//! the round-trip and framing laws of the format.

use vstd::prelude::*;
use vstd::bytes::*;
use vstd::utf8::*;

use crate::packets::{
    EnvVarView, InvokePacketView, PacketHeaderView, PacketView, PrintPacketView, RunPacketView,
    ToastPacketView,
};

verus! {

pub const TAG_PRINT: u8 = 0;

pub const TAG_TOAST: u8 = 1;

pub const TAG_INVOKE: u8 = 2;

pub const TAG_RUN: u8 = 3;

pub const TAG_CONFIRMATION: u8 = 4;

pub const TAG_FAILURE: u8 = 5;

/// A string can be put on the wire when its UTF-8 byte count fits the
/// 4-byte length field.
pub open spec fn str_encodable(s: Seq<char>) -> bool {
    encode_utf8(s).len() <= u32::MAX
}

pub open spec fn env_encodable(e: EnvVarView) -> bool {
    &&& str_encodable(e.name)
    &&& match e.value {
        Some(v) => str_encodable(v),
        None => true,
    }
}

/// A message can be put on the wire when every string fits the 4-byte
/// length field and every list fits the 4-byte count field.
pub open spec fn packet_encodable(p: PacketView) -> bool {
    match p {
        PacketView::Print(pp) => str_encodable(pp.message),
        PacketView::Toast(t) => str_encodable(t.title) && str_encodable(t.body),
        PacketView::Invoke(i) => str_encodable(i.class_name) && str_encodable(i.method_name)
            && str_encodable(i.desc),
        PacketView::Run(r) => {
            &&& str_encodable(r.path)
            &&& str_encodable(r.cwd)
            &&& r.args.len() <= u32::MAX
            &&& forall|i: int| 0 <= i < r.args.len() ==> str_encodable(#[trigger] r.args[i])
            &&& r.env.len() <= u32::MAX
            &&& forall|i: int| 0 <= i < r.env.len() ==> env_encodable(#[trigger] r.env[i])
        },
        PacketView::Confirmation => true,
        PacketView::Failure => true,
    }
}

pub open spec fn header_encodable(h: PacketHeaderView) -> bool {
    packet_encodable(h.packet)
}

// ---------------------------------------------------------------------------
// Specification of the encoder.
// ---------------------------------------------------------------------------
pub open spec fn enc_str(s: Seq<char>) -> Seq<u8> {
    spec_u32_to_le_bytes(encode_utf8(s).len() as u32) + encode_utf8(s)
}

pub open spec fn enc_opt_str(v: Option<Seq<char>>) -> Seq<u8> {
    match v {
        None => seq![0u8],
        Some(s) => seq![1u8] + enc_str(s),
    }
}

pub open spec fn enc_env(e: EnvVarView) -> Seq<u8> {
    enc_str(e.name) + enc_opt_str(e.value)
}

pub open spec fn enc_str_items(ss: Seq<Seq<char>>) -> Seq<u8>
    decreases ss.len(),
{
    if ss.len() == 0 {
        Seq::empty()
    } else {
        enc_str(ss[0]) + enc_str_items(ss.drop_first())
    }
}

pub open spec fn enc_env_items(es: Seq<EnvVarView>) -> Seq<u8>
    decreases es.len(),
{
    if es.len() == 0 {
        Seq::empty()
    } else {
        enc_env(es[0]) + enc_env_items(es.drop_first())
    }
}

pub open spec fn enc_str_list(ss: Seq<Seq<char>>) -> Seq<u8> {
    spec_u32_to_le_bytes(ss.len() as u32) + enc_str_items(ss)
}

pub open spec fn enc_env_list(es: Seq<EnvVarView>) -> Seq<u8> {
    spec_u32_to_le_bytes(es.len() as u32) + enc_env_items(es)
}

pub open spec fn spec_encode_packet(p: PacketView) -> Seq<u8> {
    match p {
        PacketView::Print(pp) => seq![TAG_PRINT] + enc_str(pp.message),
        PacketView::Toast(t) => seq![TAG_TOAST] + enc_str(t.title) + enc_str(t.body),
        PacketView::Invoke(i) => seq![TAG_INVOKE] + enc_str(i.class_name) + enc_str(
            i.method_name,
        ) + enc_str(i.desc),
        PacketView::Run(r) => seq![TAG_RUN] + enc_str(r.path) + enc_str_list(r.args) + enc_str(
            r.cwd,
        ) + enc_env_list(r.env),
        PacketView::Confirmation => seq![TAG_CONFIRMATION],
        PacketView::Failure => seq![TAG_FAILURE],
    }
}

pub open spec fn spec_encode_header(h: PacketHeaderView) -> Seq<u8> {
    spec_u64_to_le_bytes(h.target_id) + spec_encode_packet(h.packet)
}

/// One frame: length prefix, then exactly that many payload bytes.
pub open spec fn spec_frame(payload: Seq<u8>) -> Seq<u8>
    recommends
        payload.len() <= u32::MAX,
{
    spec_u32_to_le_bytes(payload.len() as u32) + payload
}

// ---------------------------------------------------------------------------
// Specification of the decoder. Each function consumes a prefix of the
// input and yields the parsed value together with the remaining bytes,
// or `None` where the input does not start with a well-formed item.
// ---------------------------------------------------------------------------
pub open spec fn dec_u32(b: Seq<u8>) -> Option<(u32, Seq<u8>)> {
    if b.len() >= 4 {
        Some((spec_u32_from_le_bytes(b.take(4)), b.skip(4)))
    } else {
        None
    }
}

pub open spec fn dec_u64(b: Seq<u8>) -> Option<(u64, Seq<u8>)> {
    if b.len() >= 8 {
        Some((spec_u64_from_le_bytes(b.take(8)), b.skip(8)))
    } else {
        None
    }
}

pub open spec fn dec_str(b: Seq<u8>) -> Option<(Seq<char>, Seq<u8>)> {
    match dec_u32(b) {
        Some((n, r)) => if r.len() >= n && valid_utf8(r.take(n as int)) {
            Some((decode_utf8(r.take(n as int)), r.skip(n as int)))
        } else {
            None
        },
        None => None,
    }
}

pub open spec fn dec_opt_str(b: Seq<u8>) -> Option<(Option<Seq<char>>, Seq<u8>)> {
    if b.len() < 1 {
        None
    } else if b[0] == 0u8 {
        Some((None, b.skip(1)))
    } else if b[0] == 1u8 {
        match dec_str(b.skip(1)) {
            Some((s, r)) => Some((Some(s), r)),
            None => None,
        }
    } else {
        None
    }
}

pub open spec fn dec_env(b: Seq<u8>) -> Option<(EnvVarView, Seq<u8>)> {
    match dec_str(b) {
        Some((name, r)) => match dec_opt_str(r) {
            Some((v, r2)) => Some((EnvVarView { name, value: v }, r2)),
            None => None,
        },
        None => None,
    }
}

pub open spec fn dec_str_items(b: Seq<u8>, n: nat) -> Option<(Seq<Seq<char>>, Seq<u8>)>
    decreases n,
{
    if n == 0 {
        Some((Seq::empty(), b))
    } else {
        match dec_str(b) {
            Some((s, r)) => match dec_str_items(r, (n - 1) as nat) {
                Some((ss, r2)) => Some((seq![s] + ss, r2)),
                None => None,
            },
            None => None,
        }
    }
}

pub open spec fn dec_env_items(b: Seq<u8>, n: nat) -> Option<(Seq<EnvVarView>, Seq<u8>)>
    decreases n,
{
    if n == 0 {
        Some((Seq::empty(), b))
    } else {
        match dec_env(b) {
            Some((e, r)) => match dec_env_items(r, (n - 1) as nat) {
                Some((es, r2)) => Some((seq![e] + es, r2)),
                None => None,
            },
            None => None,
        }
    }
}

pub open spec fn dec_str_list(b: Seq<u8>) -> Option<(Seq<Seq<char>>, Seq<u8>)> {
    match dec_u32(b) {
        Some((n, r)) => dec_str_items(r, n as nat),
        None => None,
    }
}

pub open spec fn dec_env_list(b: Seq<u8>) -> Option<(Seq<EnvVarView>, Seq<u8>)> {
    match dec_u32(b) {
        Some((n, r)) => dec_env_items(r, n as nat),
        None => None,
    }
}

pub open spec fn dec_packet(b: Seq<u8>) -> Option<(PacketView, Seq<u8>)> {
    if b.len() < 1 {
        None
    } else {
        let tag = b[0];
        let r = b.skip(1);
        if tag == TAG_PRINT {
            match dec_str(r) {
                Some((m, r1)) => Some((PacketView::Print(PrintPacketView { message: m }), r1)),
                None => None,
            }
        } else if tag == TAG_TOAST {
            match dec_str(r) {
                Some((title, r1)) => match dec_str(r1) {
                    Some((body, r2)) => Some(
                        (PacketView::Toast(ToastPacketView { title, body }), r2),
                    ),
                    None => None,
                },
                None => None,
            }
        } else if tag == TAG_INVOKE {
            match dec_str(r) {
                Some((class_name, r1)) => match dec_str(r1) {
                    Some((method_name, r2)) => match dec_str(r2) {
                        Some((desc, r3)) => Some(
                            (
                                PacketView::Invoke(
                                    InvokePacketView { class_name, method_name, desc },
                                ),
                                r3,
                            ),
                        ),
                        None => None,
                    },
                    None => None,
                },
                None => None,
            }
        } else if tag == TAG_RUN {
            match dec_str(r) {
                Some((path, r1)) => match dec_str_list(r1) {
                    Some((args, r2)) => match dec_str(r2) {
                        Some((cwd, r3)) => match dec_env_list(r3) {
                            Some((env, r4)) => Some(
                                (PacketView::Run(RunPacketView { path, args, cwd, env }), r4),
                            ),
                            None => None,
                        },
                        None => None,
                    },
                    None => None,
                },
                None => None,
            }
        } else if tag == TAG_CONFIRMATION {
            Some((PacketView::Confirmation, r))
        } else if tag == TAG_FAILURE {
            Some((PacketView::Failure, r))
        } else {
            None
        }
    }
}

/// Decode one whole payload. The payload must be consumed exactly:
/// trailing bytes make it ill-formed.
pub open spec fn spec_decode_header(b: Seq<u8>) -> Option<PacketHeaderView> {
    match dec_u64(b) {
        Some((id, r)) => match dec_packet(r) {
            Some((p, r2)) => if r2.len() == 0 {
                Some(PacketHeaderView { target_id: id, packet: p })
            } else {
                None
            },
            None => None,
        },
        None => None,
    }
}

/// How decoding can fail, kept apart so the read loops can tell a clean
/// end of stream from a broken transport and from ill-formed bytes.
#[derive(Debug, Clone, Copy, PartialEq, Eq)]
pub enum DecodeError {
    /// The stream ended before any byte of the frame: not a failure.
    CleanEof,
    /// The stream ended inside a frame: a transport error.
    Truncated,
    /// The frame is complete but its bytes do not form an envelope
    /// (unknown tag, bad UTF-8, wrong field lengths, trailing bytes).
    InvalidData,
}

/// Decode one frame from the front of a buffer: the length prefix, then
/// exactly that many payload bytes, which must form one envelope. Yields
/// the envelope and the number of bytes consumed.
pub open spec fn spec_decode_frame(b: Seq<u8>) -> Result<(PacketHeaderView, int), DecodeError> {
    if b.len() == 0 {
        Err(DecodeError::CleanEof)
    } else if b.len() < 4 {
        Err(DecodeError::Truncated)
    } else {
        let n = spec_u32_from_le_bytes(b.take(4)) as int;
        if b.len() < 4 + n {
            Err(DecodeError::Truncated)
        } else {
            match spec_decode_header(b.subrange(4, 4 + n)) {
                Some(h) => Ok((h, 4 + n)),
                None => Err(DecodeError::InvalidData),
            }
        }
    }
}

/// The bytes of a sequence of complete frames, one after the other.
pub open spec fn frames_bytes(ps: Seq<Seq<u8>>) -> Seq<u8>
    decreases ps.len(),
{
    if ps.len() == 0 {
        Seq::empty()
    } else {
        spec_frame(ps[0]) + frames_bytes(ps.drop_first())
    }
}

/// Split a byte stream back into the payloads of the frames it carries;
/// `None` where the stream is not a concatenation of complete frames.
pub open spec fn spec_parse_frames(b: Seq<u8>) -> Option<Seq<Seq<u8>>>
    decreases b.len(),
{
    if b.len() == 0 {
        Some(Seq::empty())
    } else if b.len() < 4 {
        None
    } else {
        let n = spec_u32_from_le_bytes(b.take(4)) as int;
        if b.len() < 4 + n {
            None
        } else {
            match spec_parse_frames(b.skip(4 + n)) {
                Some(ps) => Some(seq![b.subrange(4, 4 + n)] + ps),
                None => None,
            }
        }
    }
}

// ---------------------------------------------------------------------------
// Round-trip laws: the decoder inverts the encoder.
// ---------------------------------------------------------------------------
proof fn lemma_concat_parts<A>(a: Seq<A>, b: Seq<A>)
    ensures
        (a + b).take(a.len() as int) == a,
        (a + b).skip(a.len() as int) == b,
{
    assert((a + b).take(a.len() as int) =~= a);
    assert((a + b).skip(a.len() as int) =~= b);
}

proof fn lemma_skip_skip<A>(s: Seq<A>, i: int, j: int)
    requires
        0 <= i,
        0 <= j,
        i + j <= s.len(),
    ensures
        s.skip(i).skip(j) == s.skip(i + j),
{
    assert(s.skip(i).skip(j) =~= s.skip(i + j));
}

proof fn lemma_skip_take<A>(s: Seq<A>, i: int, n: int)
    requires
        0 <= i,
        0 <= n,
        i + n <= s.len(),
    ensures
        s.skip(i).take(n) == s.subrange(i, i + n),
{
    assert(s.skip(i).take(n) =~= s.subrange(i, i + n));
}

pub proof fn lemma_dec_u32_enc(x: u32, rest: Seq<u8>)
    ensures
        dec_u32(spec_u32_to_le_bytes(x) + rest) == Some((x, rest)),
{
    lemma_auto_spec_u32_to_from_le_bytes();
    lemma_concat_parts(spec_u32_to_le_bytes(x), rest);
}

pub proof fn lemma_dec_u64_enc(x: u64, rest: Seq<u8>)
    ensures
        dec_u64(spec_u64_to_le_bytes(x) + rest) == Some((x, rest)),
{
    lemma_auto_spec_u64_to_from_le_bytes();
    lemma_concat_parts(spec_u64_to_le_bytes(x), rest);
}

pub proof fn lemma_dec_str_enc(s: Seq<char>, rest: Seq<u8>)
    requires
        str_encodable(s),
    ensures
        dec_str(enc_str(s) + rest) == Some((s, rest)),
{
    broadcast use encode_utf8_valid_utf8, encode_utf8_decode_utf8;

    let bs = encode_utf8(s);
    let n: u32 = bs.len() as u32;
    assert((spec_u32_to_le_bytes(n) + bs) + rest =~= spec_u32_to_le_bytes(n) + (bs + rest));
    lemma_dec_u32_enc(n, bs + rest);
    lemma_concat_parts(bs, rest);
}

pub proof fn lemma_dec_opt_str_enc(v: Option<Seq<char>>, rest: Seq<u8>)
    requires
        match v {
            Some(s) => str_encodable(s),
            None => true,
        },
    ensures
        dec_opt_str(enc_opt_str(v) + rest) == Some((v, rest)),
{
    match v {
        None => {
            let b = seq![0u8] + rest;
            assert(b[0] == 0u8);
            assert(b.skip(1) =~= rest);
        },
        Some(s) => {
            let b = enc_opt_str(v) + rest;
            assert(b =~= seq![1u8] + (enc_str(s) + rest));
            assert(b[0] == 1u8);
            assert(b.skip(1) =~= enc_str(s) + rest);
            lemma_dec_str_enc(s, rest);
        },
    }
}

pub proof fn lemma_dec_env_enc(e: EnvVarView, rest: Seq<u8>)
    requires
        env_encodable(e),
    ensures
        dec_env(enc_env(e) + rest) == Some((e, rest)),
{
    assert((enc_str(e.name) + enc_opt_str(e.value)) + rest =~= enc_str(e.name) + (enc_opt_str(
        e.value,
    ) + rest));
    lemma_dec_str_enc(e.name, enc_opt_str(e.value) + rest);
    lemma_dec_opt_str_enc(e.value, rest);
}

pub proof fn lemma_dec_str_items_enc(ss: Seq<Seq<char>>, rest: Seq<u8>)
    requires
        forall|i: int| 0 <= i < ss.len() ==> str_encodable(#[trigger] ss[i]),
    ensures
        dec_str_items(enc_str_items(ss) + rest, ss.len()) == Some((ss, rest)),
    decreases ss.len(),
{
    if ss.len() == 0 {
        assert(enc_str_items(ss) + rest =~= rest);
        assert(ss =~= Seq::<Seq<char>>::empty());
    } else {
        let tail = ss.drop_first();
        assert((enc_str(ss[0]) + enc_str_items(tail)) + rest =~= enc_str(ss[0]) + (enc_str_items(
            tail,
        ) + rest));
        lemma_dec_str_enc(ss[0], enc_str_items(tail) + rest);
        lemma_dec_str_items_enc(tail, rest);
        assert(seq![ss[0]] + tail =~= ss);
    }
}

pub proof fn lemma_dec_env_items_enc(es: Seq<EnvVarView>, rest: Seq<u8>)
    requires
        forall|i: int| 0 <= i < es.len() ==> env_encodable(#[trigger] es[i]),
    ensures
        dec_env_items(enc_env_items(es) + rest, es.len()) == Some((es, rest)),
    decreases es.len(),
{
    if es.len() == 0 {
        assert(enc_env_items(es) + rest =~= rest);
        assert(es =~= Seq::<EnvVarView>::empty());
    } else {
        let tail = es.drop_first();
        assert((enc_env(es[0]) + enc_env_items(tail)) + rest =~= enc_env(es[0]) + (enc_env_items(
            tail,
        ) + rest));
        lemma_dec_env_enc(es[0], enc_env_items(tail) + rest);
        lemma_dec_env_items_enc(tail, rest);
        assert(seq![es[0]] + tail =~= es);
    }
}

pub proof fn lemma_dec_str_list_enc(ss: Seq<Seq<char>>, rest: Seq<u8>)
    requires
        ss.len() <= u32::MAX,
        forall|i: int| 0 <= i < ss.len() ==> str_encodable(#[trigger] ss[i]),
    ensures
        dec_str_list(enc_str_list(ss) + rest) == Some((ss, rest)),
{
    let n: u32 = ss.len() as u32;
    assert((spec_u32_to_le_bytes(n) + enc_str_items(ss)) + rest =~= spec_u32_to_le_bytes(n) + (
    enc_str_items(ss) + rest));
    lemma_dec_u32_enc(n, enc_str_items(ss) + rest);
    lemma_dec_str_items_enc(ss, rest);
}

pub proof fn lemma_dec_env_list_enc(es: Seq<EnvVarView>, rest: Seq<u8>)
    requires
        es.len() <= u32::MAX,
        forall|i: int| 0 <= i < es.len() ==> env_encodable(#[trigger] es[i]),
    ensures
        dec_env_list(enc_env_list(es) + rest) == Some((es, rest)),
{
    let n: u32 = es.len() as u32;
    assert((spec_u32_to_le_bytes(n) + enc_env_items(es)) + rest =~= spec_u32_to_le_bytes(n) + (
    enc_env_items(es) + rest));
    lemma_dec_u32_enc(n, enc_env_items(es) + rest);
    lemma_dec_env_items_enc(es, rest);
}

#[verifier::spinoff_prover]
#[verifier::rlimit(60)]
pub proof fn lemma_dec_packet_enc(p: PacketView, rest: Seq<u8>)
    requires
        packet_encodable(p),
    ensures
        dec_packet(spec_encode_packet(p) + rest) == Some((p, rest)),
{
    let b = spec_encode_packet(p) + rest;
    match p {
        PacketView::Print(pp) => {
            assert(b =~= seq![TAG_PRINT] + (enc_str(pp.message) + rest));
            assert(b[0] == TAG_PRINT);
            assert(b.skip(1) =~= enc_str(pp.message) + rest);
            lemma_dec_str_enc(pp.message, rest);
        },
        PacketView::Toast(t) => {
            assert(b =~= seq![TAG_TOAST] + (enc_str(t.title) + (enc_str(t.body) + rest)));
            assert(b[0] == TAG_TOAST);
            assert(b.skip(1) =~= enc_str(t.title) + (enc_str(t.body) + rest));
            lemma_dec_str_enc(t.title, enc_str(t.body) + rest);
            lemma_dec_str_enc(t.body, rest);
        },
        PacketView::Invoke(i) => {
            assert(b =~= seq![TAG_INVOKE] + (enc_str(i.class_name) + (enc_str(i.method_name) + (
            enc_str(i.desc) + rest))));
            assert(b[0] == TAG_INVOKE);
            assert(b.skip(1) =~= enc_str(i.class_name) + (enc_str(i.method_name) + (enc_str(i.desc)
                + rest)));
            lemma_dec_str_enc(i.class_name, enc_str(i.method_name) + (enc_str(i.desc) + rest));
            lemma_dec_str_enc(i.method_name, enc_str(i.desc) + rest);
            lemma_dec_str_enc(i.desc, rest);
        },
        PacketView::Run(r) => {
            assert(b =~= seq![TAG_RUN] + (enc_str(r.path) + (enc_str_list(r.args) + (enc_str(r.cwd)
                + (enc_env_list(r.env) + rest)))));
            assert(b[0] == TAG_RUN);
            assert(b.skip(1) =~= enc_str(r.path) + (enc_str_list(r.args) + (enc_str(r.cwd) + (
            enc_env_list(r.env) + rest))));
            lemma_dec_str_enc(
                r.path,
                enc_str_list(r.args) + (enc_str(r.cwd) + (enc_env_list(r.env) + rest)),
            );
            lemma_dec_str_list_enc(r.args, enc_str(r.cwd) + (enc_env_list(r.env) + rest));
            lemma_dec_str_enc(r.cwd, enc_env_list(r.env) + rest);
            lemma_dec_env_list_enc(r.env, rest);
        },
        PacketView::Confirmation => {
            assert(b =~= seq![TAG_CONFIRMATION] + rest);
            assert(b[0] == TAG_CONFIRMATION);
            assert(b.skip(1) =~= rest);
        },
        PacketView::Failure => {
            assert(b =~= seq![TAG_FAILURE] + rest);
            assert(b[0] == TAG_FAILURE);
            assert(b.skip(1) =~= rest);
        },
    }
}

/// Round trip: decoding an encoded envelope gives that envelope back,
/// for every envelope the wire format can carry.
pub proof fn lemma_header_round_trip(h: PacketHeaderView)
    requires
        header_encodable(h),
    ensures
        spec_decode_header(spec_encode_header(h)) == Some(h),
{
    let encp = spec_encode_packet(h.packet);
    lemma_dec_u64_enc(h.target_id, encp);
    assert(encp + Seq::<u8>::empty() =~= encp);
    lemma_dec_packet_enc(h.packet, Seq::<u8>::empty());
}

/// Round trip through framing: one complete frame of an encoded envelope
/// decodes to that envelope and consumes the whole frame.
pub proof fn lemma_frame_round_trip(h: PacketHeaderView)
    requires
        header_encodable(h),
        spec_encode_header(h).len() <= u32::MAX,
    ensures
        spec_decode_frame(spec_frame(spec_encode_header(h))) == Ok::<_, DecodeError>(
            (h, spec_frame(spec_encode_header(h)).len() as int),
        ),
{
    lemma_auto_spec_u32_to_from_le_bytes();
    let payload = spec_encode_header(h);
    let b = spec_frame(payload);
    lemma_concat_parts(spec_u32_to_le_bytes(payload.len() as u32), payload);
    let n = payload.len() as int;
    assert(b.take(4) =~= spec_u32_to_le_bytes(payload.len() as u32));
    assert(b.subrange(4, 4 + n) =~= payload);
    lemma_header_round_trip(h);
}

/// No frame interleaving: a stream that is a concatenation of complete
/// frames parses back to exactly the sequence of payloads that were
/// framed, each complete and in order.
pub proof fn lemma_no_interleaving(ps: Seq<Seq<u8>>)
    requires
        forall|i: int| 0 <= i < ps.len() ==> (#[trigger] ps[i]).len() <= u32::MAX,
    ensures
        spec_parse_frames(frames_bytes(ps)) == Some(ps),
    decreases ps.len(),
{
    lemma_auto_spec_u32_to_from_le_bytes();
    if ps.len() == 0 {
        assert(ps =~= Seq::<Seq<u8>>::empty());
    } else {
        let p0 = ps[0];
        let n = p0.len() as int;
        let prefix = spec_u32_to_le_bytes(p0.len() as u32);
        let tail = frames_bytes(ps.drop_first());
        let b = frames_bytes(ps);
        assert(b =~= prefix + (p0 + tail));
        lemma_concat_parts(prefix, p0 + tail);
        lemma_concat_parts(p0, tail);
        assert(b.take(4) == prefix);
        assert(b.skip(4) == p0 + tail);
        lemma_skip_take(b, 4, n);
        assert(b.subrange(4, 4 + n) == (p0 + tail).take(n));
        lemma_skip_skip(b, 4, n);
        assert(b.skip(4 + n) == tail);
        lemma_no_interleaving(ps.drop_first());
        assert(seq![p0] + ps.drop_first() =~= ps);
    }
}

} // verus!
