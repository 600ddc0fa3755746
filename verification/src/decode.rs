//! The executable decoder, proved equal to the wire-format model.
//!
//! Every function parses from `b` at offset `pos` and reports exactly what
//! the corresponding spec parser says about `b@.skip(pos)`: the same value,
//! the same remainder, and failure on exactly the same inputs.

use vstd::prelude::*;
use vstd::bytes::{spec_u32_from_le_bytes, u32_from_le_bytes, u64_from_le_bytes};
use vstd::slice::slice_subrange;
use vstd::utf8::{decode_utf8, valid_utf8};

use crate::codec::{
    dec_env, dec_env_items, dec_env_list, dec_opt_str, dec_packet, dec_str, dec_str_items,
    dec_str_list, dec_u32, dec_u64, spec_decode_frame, spec_decode_header, DecodeError,
    TAG_CONFIRMATION, TAG_FAILURE, TAG_INVOKE, TAG_PRINT, TAG_RUN, TAG_TOAST,
};
use crate::packets::{
    opt_str_view, EnvVar, InvokePacket, Packet, PacketHeader, PacketHeaderView, PrintPacket,
    RunPacket, ToastPacket,
};

verus! {

/// Relies on core::str::from_utf8: it accepts exactly the valid UTF-8
/// byte sequences, and yields the string whose bytes they are.
#[verifier::external_body]
fn bytes_to_string(b: &[u8]) -> (r: Option<String>)
    ensures
        r is Some <==> valid_utf8(b@),
        r matches Some(s) ==> s@ == decode_utf8(b@),
{
    match core::str::from_utf8(b) {
        Ok(s) => Some(s.to_owned()),
        Err(_) => None,
    }
}

fn read_u32(b: &[u8], pos: usize) -> (r: Option<(u32, usize)>)
    requires
        pos <= b@.len(),
    ensures
        match r {
            Some(v) => {
                &&& pos + 4 == v.1 && v.1 <= b@.len()
                &&& dec_u32(b@.skip(pos as int)) == Some((v.0, b@.skip(v.1 as int)))
            },
            None => dec_u32(b@.skip(pos as int)) is None,
        },
{
    if b.len() - pos < 4 {
        return None;
    }
    let sub = slice_subrange(b, pos, pos + 4);
    let x = u32_from_le_bytes(sub);
    proof {
        assert(b@.skip(pos as int).take(4) =~= b@.subrange(pos as int, pos as int + 4));
        assert(b@.skip(pos as int).skip(4) =~= b@.skip(pos as int + 4));
    }
    Some((x, pos + 4))
}

fn read_u64(b: &[u8], pos: usize) -> (r: Option<(u64, usize)>)
    requires
        pos <= b@.len(),
    ensures
        match r {
            Some(v) => {
                &&& pos + 8 == v.1 && v.1 <= b@.len()
                &&& dec_u64(b@.skip(pos as int)) == Some((v.0, b@.skip(v.1 as int)))
            },
            None => dec_u64(b@.skip(pos as int)) is None,
        },
{
    if b.len() - pos < 8 {
        return None;
    }
    let sub = slice_subrange(b, pos, pos + 8);
    let x = u64_from_le_bytes(sub);
    proof {
        assert(b@.skip(pos as int).take(8) =~= b@.subrange(pos as int, pos as int + 8));
        assert(b@.skip(pos as int).skip(8) =~= b@.skip(pos as int + 8));
    }
    Some((x, pos + 8))
}

fn read_str(b: &[u8], pos: usize) -> (r: Option<(String, usize)>)
    requires
        pos <= b@.len(),
    ensures
        match r {
            Some(v) => {
                &&& pos <= v.1 <= b@.len()
                &&& dec_str(b@.skip(pos as int)) == Some((v.0@, b@.skip(v.1 as int)))
            },
            None => dec_str(b@.skip(pos as int)) is None,
        },
{
    let (n, p1) = match read_u32(b, pos) {
        Some(v) => v,
        None => {
            return None;
        },
    };
    if b.len() - p1 < n as usize {
        return None;
    }
    let sub = slice_subrange(b, p1, p1 + n as usize);
    proof {
        assert(b@.skip(p1 as int).take(n as int) =~= b@.subrange(p1 as int, p1 as int + n));
        assert(b@.skip(p1 as int).skip(n as int) =~= b@.skip(p1 as int + n));
    }
    let s = match bytes_to_string(sub) {
        Some(s) => s,
        None => {
            return None;
        },
    };
    Some((s, p1 + n as usize))
}

fn read_opt_str(b: &[u8], pos: usize) -> (r: Option<(Option<String>, usize)>)
    requires
        pos <= b@.len(),
    ensures
        match r {
            Some(v) => {
                &&& pos <= v.1 <= b@.len()
                &&& dec_opt_str(b@.skip(pos as int)) == Some(
                    (opt_str_view(v.0), b@.skip(v.1 as int)),
                )
            },
            None => dec_opt_str(b@.skip(pos as int)) is None,
        },
{
    if b.len() - pos < 1 {
        return None;
    }
    let marker = b[pos];
    proof {
        assert(b@.skip(pos as int)[0] == b@[pos as int]);
        assert(b@.skip(pos as int).skip(1) =~= b@.skip(pos as int + 1));
    }
    if marker == 0 {
        return Some((None, pos + 1));
    }
    if marker != 1 {
        return None;
    }
    match read_str(b, pos + 1) {
        Some((s, p2)) => Some((Some(s), p2)),
        None => None,
    }
}

fn read_env(b: &[u8], pos: usize) -> (r: Option<(EnvVar, usize)>)
    requires
        pos <= b@.len(),
    ensures
        match r {
            Some(v) => {
                &&& pos <= v.1 <= b@.len()
                &&& dec_env(b@.skip(pos as int)) == Some((v.0@, b@.skip(v.1 as int)))
            },
            None => dec_env(b@.skip(pos as int)) is None,
        },
{
    let (name, p1) = match read_str(b, pos) {
        Some(v) => v,
        None => {
            return None;
        },
    };
    let (value, p2) = match read_opt_str(b, p1) {
        Some(v) => v,
        None => {
            return None;
        },
    };
    Some((EnvVar { name, value }, p2))
}

fn read_str_list(b: &[u8], pos: usize) -> (r: Option<(Vec<String>, usize)>)
    requires
        pos <= b@.len(),
    ensures
        match r {
            Some(v) => {
                &&& pos <= v.1 <= b@.len()
                &&& dec_str_list(b@.skip(pos as int)) == Some(
                    (v.0@.map_values(|s: String| s@), b@.skip(v.1 as int)),
                )
            },
            None => dec_str_list(b@.skip(pos as int)) is None,
        },
{
    let (n, p1) = match read_u32(b, pos) {
        Some(v) => v,
        None => {
            return None;
        },
    };
    let mut out: Vec<String> = Vec::new();
    let mut p = p1;
    let mut i: u32 = 0;
    while i < n
        invariant
            pos <= p1 <= p <= b@.len(),
            i <= n,
            out@.len() == i,
            dec_u32(b@.skip(pos as int)) == Some((n, b@.skip(p1 as int))),
            dec_str_items(b@.skip(p1 as int), n as nat) == (match dec_str_items(
                b@.skip(p as int),
                (n - i) as nat,
            ) {
                Some(t) => Some((out@.map_values(|s: String| s@) + t.0, t.1)),
                None => None::<(Seq<Seq<char>>, Seq<u8>)>,
            }),
        decreases n - i,
    {
        let ghost out_map = out@.map_values(|s: String| s@);
        let (s, p2) = match read_str(b, p) {
            Some(v) => v,
            None => {
                return None;
            },
        };
        proof {
            let d = dec_str_items(b@.skip(p2 as int), (n - (i + 1)) as nat);
            if let Some(t) = d {
                assert((out_map + seq![s@]) + t.0 =~= out_map + (seq![s@] + t.0));
            }
        }
        out.push(s);
        proof {
            assert(out@.map_values(|q: String| q@) =~= out_map + seq![s@]);
        }
        p = p2;
        i += 1;
    }
    proof {
        assert(dec_str_items(b@.skip(p as int), 0) == Some(
            (Seq::<Seq<char>>::empty(), b@.skip(p as int)),
        ));
        assert(out@.map_values(|s: String| s@) + Seq::<Seq<char>>::empty() =~= out@.map_values(
            |s: String| s@,
        ));
    }
    Some((out, p))
}

fn read_env_list(b: &[u8], pos: usize) -> (r: Option<(Vec<EnvVar>, usize)>)
    requires
        pos <= b@.len(),
    ensures
        match r {
            Some(v) => {
                &&& pos <= v.1 <= b@.len()
                &&& dec_env_list(b@.skip(pos as int)) == Some(
                    (v.0@.map_values(|e: EnvVar| e@), b@.skip(v.1 as int)),
                )
            },
            None => dec_env_list(b@.skip(pos as int)) is None,
        },
{
    let (n, p1) = match read_u32(b, pos) {
        Some(v) => v,
        None => {
            return None;
        },
    };
    let mut out: Vec<EnvVar> = Vec::new();
    let mut p = p1;
    let mut i: u32 = 0;
    while i < n
        invariant
            pos <= p1 <= p <= b@.len(),
            i <= n,
            out@.len() == i,
            dec_u32(b@.skip(pos as int)) == Some((n, b@.skip(p1 as int))),
            dec_env_items(b@.skip(p1 as int), n as nat) == (match dec_env_items(
                b@.skip(p as int),
                (n - i) as nat,
            ) {
                Some(t) => Some((out@.map_values(|e: EnvVar| e@) + t.0, t.1)),
                None => None::<(Seq<crate::packets::EnvVarView>, Seq<u8>)>,
            }),
        decreases n - i,
    {
        let ghost out_map = out@.map_values(|e: EnvVar| e@);
        let (e, p2) = match read_env(b, p) {
            Some(v) => v,
            None => {
                return None;
            },
        };
        proof {
            let d = dec_env_items(b@.skip(p2 as int), (n - (i + 1)) as nat);
            if let Some(t) = d {
                assert((out_map + seq![e@]) + t.0 =~= out_map + (seq![e@] + t.0));
            }
        }
        out.push(e);
        proof {
            assert(out@.map_values(|q: EnvVar| q@) =~= out_map + seq![e@]);
        }
        p = p2;
        i += 1;
    }
    proof {
        assert(dec_env_items(b@.skip(p as int), 0) == Some(
            (Seq::<crate::packets::EnvVarView>::empty(), b@.skip(p as int)),
        ));
        assert(out@.map_values(|e: EnvVar| e@) + Seq::<crate::packets::EnvVarView>::empty()
            =~= out@.map_values(|e: EnvVar| e@));
    }
    Some((out, p))
}

impl PacketHeader {
    /// Decode one whole payload back into an envelope. Fails with
    /// `InvalidData` on exactly the byte sequences that are not the
    /// encoding of an envelope: an unknown tag, ill-formed fields, a
    /// short payload, or trailing bytes.
    pub fn decode(b: &[u8]) -> (r: Result<PacketHeader, DecodeError>)
        ensures
            match r {
                Ok(h) => spec_decode_header(b@) == Some(h@),
                Err(e) => e == DecodeError::InvalidData && spec_decode_header(b@) is None,
            },
    {
        proof {
            assert(b@.skip(0) =~= b@);
        }
        let (id, p0) = match read_u64(b, 0) {
            Some(v) => v,
            None => {
                return Err(DecodeError::InvalidData);
            },
        };
        if b.len() - p0 < 1 {
            return Err(DecodeError::InvalidData);
        }
        let tag = b[p0];
        proof {
            assert(b@.skip(p0 as int)[0] == b@[p0 as int]);
            assert(b@.skip(p0 as int).skip(1) =~= b@.skip(p0 as int + 1));
        }
        let p1 = p0 + 1;
        let (packet, pend): (Packet, usize) = if tag == TAG_PRINT {
            match read_str(b, p1) {
                Some((message, p2)) => (Packet::Print(PrintPacket { message }), p2),
                None => {
                    return Err(DecodeError::InvalidData);
                },
            }
        } else if tag == TAG_TOAST {
            let (title, p2) = match read_str(b, p1) {
                Some(v) => v,
                None => {
                    return Err(DecodeError::InvalidData);
                },
            };
            let (body, p3) = match read_str(b, p2) {
                Some(v) => v,
                None => {
                    return Err(DecodeError::InvalidData);
                },
            };
            (Packet::Toast(ToastPacket { title, body }), p3)
        } else if tag == TAG_INVOKE {
            let (class_name, p2) = match read_str(b, p1) {
                Some(v) => v,
                None => {
                    return Err(DecodeError::InvalidData);
                },
            };
            let (method_name, p3) = match read_str(b, p2) {
                Some(v) => v,
                None => {
                    return Err(DecodeError::InvalidData);
                },
            };
            let (desc, p4) = match read_str(b, p3) {
                Some(v) => v,
                None => {
                    return Err(DecodeError::InvalidData);
                },
            };
            (Packet::Invoke(InvokePacket { class_name, method_name, desc }), p4)
        } else if tag == TAG_RUN {
            let (path, p2) = match read_str(b, p1) {
                Some(v) => v,
                None => {
                    return Err(DecodeError::InvalidData);
                },
            };
            let (args, p3) = match read_str_list(b, p2) {
                Some(v) => v,
                None => {
                    return Err(DecodeError::InvalidData);
                },
            };
            let (cwd, p4) = match read_str(b, p3) {
                Some(v) => v,
                None => {
                    return Err(DecodeError::InvalidData);
                },
            };
            let (env, p5) = match read_env_list(b, p4) {
                Some(v) => v,
                None => {
                    return Err(DecodeError::InvalidData);
                },
            };
            (Packet::Run(RunPacket { path, args, cwd, env }), p5)
        } else if tag == TAG_CONFIRMATION {
            (Packet::Confirmation, p1)
        } else if tag == TAG_FAILURE {
            (Packet::Failure, p1)
        } else {
            return Err(DecodeError::InvalidData);
        };
        if pend != b.len() {
            return Err(DecodeError::InvalidData);
        }
        Ok(PacketHeader { target_id: id, packet })
    }

    /// Decode one frame from the front of a buffer, telling a clean end
    /// of stream (no bytes at all) from a truncated frame and from an
    /// ill-formed payload. Returns the envelope and the bytes consumed.
    pub fn decode_frame(b: &[u8]) -> (r: Result<(PacketHeader, usize), DecodeError>)
        ensures
            match r {
                Ok(v) => spec_decode_frame(b@) == Ok::<_, DecodeError>((v.0@, v.1 as int)),
                Err(e) => spec_decode_frame(b@) == Err::<(PacketHeaderView, int), _>(e),
            },
    {
        if b.len() == 0 {
            return Err(DecodeError::CleanEof);
        }
        if b.len() < 4 {
            return Err(DecodeError::Truncated);
        }
        let prefix = slice_subrange(b, 0, 4);
        proof {
            assert(b@.take(4) =~= b@.subrange(0, 4));
        }
        let n = u32_from_le_bytes(prefix);
        if b.len() - 4 < n as usize {
            return Err(DecodeError::Truncated);
        }
        let payload = slice_subrange(b, 4, 4 + n as usize);
        match PacketHeader::decode(payload) {
            Ok(h) => Ok((h, 4 + n as usize)),
            Err(_) => Err(DecodeError::InvalidData),
        }
    }
}

/// The number of payload bytes a frame's 4-byte length prefix announces.
pub fn frame_payload_len(prefix: &[u8]) -> (n: u32)
    requires
        prefix@.len() == 4,
    ensures
        n == spec_u32_from_le_bytes(prefix@),
{
    u32_from_le_bytes(prefix)
}

} // verus!
