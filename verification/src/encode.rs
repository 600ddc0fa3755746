//! The executable encoder, proved equal to the wire-format model.
//!
//! Encoding cannot fail on any envelope the format can carry; the only
//! refusals are size limits (a string or list too long for its 4-byte
//! length field), checked up front, so `encode` returns `None` exactly
//! on envelopes that are not encodable.

use vstd::prelude::*;
use vstd::bytes::{spec_u32_to_le_bytes, spec_u64_to_le_bytes, u32_to_le_bytes, u64_to_le_bytes};
use vstd::utf8::encode_utf8;

use crate::codec::{
    enc_env, enc_env_items, enc_env_list, enc_opt_str, enc_str, enc_str_items, enc_str_list,
    env_encodable, header_encodable, packet_encodable, spec_encode_header, spec_encode_packet,
    spec_frame, str_encodable, TAG_CONFIRMATION, TAG_FAILURE, TAG_INVOKE, TAG_PRINT, TAG_RUN,
    TAG_TOAST,
};
use crate::packets::{opt_str_view, EnvVar, EnvVarView, Packet, PacketHeader, PacketView};

verus! {

proof fn lemma_enc_str_items_push(ss: Seq<Seq<char>>, s: Seq<char>)
    ensures
        enc_str_items(ss.push(s)) == enc_str_items(ss) + enc_str(s),
    decreases ss.len(),
{
    if ss.len() == 0 {
        assert(ss.push(s)[0] == s);
        assert(enc_str_items(Seq::<Seq<char>>::empty()) == Seq::<u8>::empty());
        assert(ss.push(s).drop_first() =~= Seq::<Seq<char>>::empty());
        assert(enc_str(s) + Seq::<u8>::empty() =~= enc_str(s));
        assert(Seq::<u8>::empty() + enc_str(s) =~= enc_str(s));
    } else {
        assert(ss.push(s)[0] == ss[0]);
        assert(ss.push(s).drop_first() =~= ss.drop_first().push(s));
        lemma_enc_str_items_push(ss.drop_first(), s);
        assert(enc_str(ss[0]) + (enc_str_items(ss.drop_first()) + enc_str(s)) =~= (enc_str(ss[0])
            + enc_str_items(ss.drop_first())) + enc_str(s));
    }
}

proof fn lemma_enc_env_items_push(es: Seq<EnvVarView>, e: EnvVarView)
    ensures
        enc_env_items(es.push(e)) == enc_env_items(es) + enc_env(e),
    decreases es.len(),
{
    if es.len() == 0 {
        assert(es.push(e)[0] == e);
        assert(enc_env_items(Seq::<EnvVarView>::empty()) == Seq::<u8>::empty());
        assert(es.push(e).drop_first() =~= Seq::<EnvVarView>::empty());
        assert(enc_env(e) + Seq::<u8>::empty() =~= enc_env(e));
        assert(Seq::<u8>::empty() + enc_env(e) =~= enc_env(e));
    } else {
        assert(es.push(e)[0] == es[0]);
        assert(es.push(e).drop_first() =~= es.drop_first().push(e));
        lemma_enc_env_items_push(es.drop_first(), e);
        assert(enc_env(es[0]) + (enc_env_items(es.drop_first()) + enc_env(e)) =~= (enc_env(es[0])
            + enc_env_items(es.drop_first())) + enc_env(e));
    }
}

/// Whether this string's UTF-8 byte count fits the 4-byte length field.
fn str_fits(s: &str) -> (ok: bool)
    ensures
        ok == str_encodable(s@),
{
    s.as_bytes().len() <= u32::MAX as usize
}

fn env_fits(e: &EnvVar) -> (ok: bool)
    ensures
        ok == env_encodable(e@),
{
    if !str_fits(e.name.as_str()) {
        return false;
    }
    match &e.value {
        Some(v) => str_fits(v.as_str()),
        None => true,
    }
}

/// Whether every string and list of this message fits its length field.
fn packet_fits(p: &Packet) -> (ok: bool)
    ensures
        ok == packet_encodable(p@),
{
    match p {
        Packet::Print(pp) => str_fits(pp.message.as_str()),
        Packet::Toast(t) => str_fits(t.title.as_str()) && str_fits(t.body.as_str()),
        Packet::Invoke(i) => str_fits(i.class_name.as_str()) && str_fits(i.method_name.as_str())
            && str_fits(i.desc.as_str()),
        Packet::Run(r) => {
            if !str_fits(r.path.as_str()) || !str_fits(r.cwd.as_str()) {
                return false;
            }
            if r.args.len() > u32::MAX as usize || r.env.len() > u32::MAX as usize {
                return false;
            }
            let ghost args = r@.args;
            let ghost env = r@.env;
            let mut i: usize = 0;
            while i < r.args.len()
                invariant
                    i <= r.args.len(),
                    p@ == PacketView::Run(r@),
                    args == r@.args,
                    args.len() == r.args@.len(),
                    forall|j: int| 0 <= j < i ==> str_encodable(#[trigger] args[j]),
                decreases r.args.len() - i,
            {
                proof {
                    assert(args[i as int] == r.args@[i as int]@);
                }
                if !str_fits(r.args[i].as_str()) {
                    proof {
                        assert(!str_encodable(r@.args[i as int]));
                    }
                    return false;
                }
                i += 1;
            }
            let mut k: usize = 0;
            while k < r.env.len()
                invariant
                    k <= r.env.len(),
                    p@ == PacketView::Run(r@),
                    args == r@.args,
                    env == r@.env,
                    env.len() == r.env@.len(),
                    forall|j: int| 0 <= j < args.len() ==> str_encodable(#[trigger] args[j]),
                    forall|j: int| 0 <= j < k ==> env_encodable(#[trigger] env[j]),
                decreases r.env.len() - k,
            {
                proof {
                    assert(env[k as int] == r.env@[k as int]@);
                }
                if !env_fits(&r.env[k]) {
                    proof {
                        assert(!env_encodable(r@.env[k as int]));
                    }
                    return false;
                }
                k += 1;
            }
            true
        },
        Packet::Confirmation => true,
        Packet::Failure => true,
    }
}

fn push_u32(out: &mut Vec<u8>, x: u32)
    ensures
        final(out)@ == old(out)@ + spec_u32_to_le_bytes(x),
{
    let mut b = u32_to_le_bytes(x);
    out.append(&mut b);
}

fn push_u64(out: &mut Vec<u8>, x: u64)
    ensures
        final(out)@ == old(out)@ + spec_u64_to_le_bytes(x),
{
    let mut b = u64_to_le_bytes(x);
    out.append(&mut b);
}

fn push_str(out: &mut Vec<u8>, s: &str)
    requires
        str_encodable(s@),
    ensures
        final(out)@ == old(out)@ + enc_str(s@),
{
    let bytes = s.as_bytes();
    push_u32(out, bytes.len() as u32);
    out.extend_from_slice(bytes);
    proof {
        assert(final(out)@ =~= old(out)@ + (spec_u32_to_le_bytes(encode_utf8(s@).len() as u32)
            + encode_utf8(s@)));
    }
}

fn push_opt_str(out: &mut Vec<u8>, v: &Option<String>)
    requires
        match opt_str_view(*v) {
            Some(s) => str_encodable(s),
            None => true,
        },
    ensures
        final(out)@ == old(out)@ + enc_opt_str(opt_str_view(*v)),
{
    match v {
        None => {
            out.push(0u8);
            proof {
                assert(final(out)@ =~= old(out)@ + seq![0u8]);
            }
        },
        Some(s) => {
            out.push(1u8);
            push_str(out, s.as_str());
            proof {
                assert(final(out)@ =~= old(out)@ + (seq![1u8] + enc_str(s@)));
            }
        },
    }
}

fn push_env(out: &mut Vec<u8>, e: &EnvVar)
    requires
        env_encodable(e@),
    ensures
        final(out)@ == old(out)@ + enc_env(e@),
{
    push_str(out, e.name.as_str());
    push_opt_str(out, &e.value);
    proof {
        assert(final(out)@ =~= old(out)@ + (enc_str(e@.name) + enc_opt_str(e@.value)));
    }
}

fn push_str_list(out: &mut Vec<u8>, v: &Vec<String>)
    requires
        v@.len() <= u32::MAX,
        forall|i: int| 0 <= i < v@.len() ==> str_encodable((#[trigger] v@[i])@),
    ensures
        final(out)@ == old(out)@ + enc_str_list(v@.map_values(|s: String| s@)),
{
    let ghost ss = v@.map_values(|s: String| s@);
    push_u32(out, v.len() as u32);
    let mut i: usize = 0;
    while i < v.len()
        invariant
            i <= v.len(),
            ss == v@.map_values(|s: String| s@),
            ss.len() <= u32::MAX,
            forall|j: int| 0 <= j < v@.len() ==> str_encodable((#[trigger] v@[j])@),
            out@ == old(out)@ + spec_u32_to_le_bytes(ss.len() as u32) + enc_str_items(
                ss.take(i as int),
            ),
        decreases v.len() - i,
    {
        proof {
            assert(ss[i as int] == v@[i as int]@);
        }
        push_str(out, v[i].as_str());
        proof {
            assert(ss.take(i + 1) =~= ss.take(i as int).push(ss[i as int]));
            lemma_enc_str_items_push(ss.take(i as int), ss[i as int]);
            assert(old(out)@ + spec_u32_to_le_bytes(ss.len() as u32) + enc_str_items(
                ss.take(i as int),
            ) + enc_str(ss[i as int]) =~= old(out)@ + spec_u32_to_le_bytes(ss.len() as u32)
                + enc_str_items(ss.take(i + 1)));
        }
        i += 1;
    }
    proof {
        assert(ss.take(v.len() as int) =~= ss);
        assert(old(out)@ + spec_u32_to_le_bytes(ss.len() as u32) + enc_str_items(ss) =~= old(out)@
            + enc_str_list(ss));
    }
}

fn push_env_list(out: &mut Vec<u8>, v: &Vec<EnvVar>)
    requires
        v@.len() <= u32::MAX,
        forall|i: int| 0 <= i < v@.len() ==> env_encodable((#[trigger] v@[i])@),
    ensures
        final(out)@ == old(out)@ + enc_env_list(v@.map_values(|e: EnvVar| e@)),
{
    let ghost es = v@.map_values(|e: EnvVar| e@);
    push_u32(out, v.len() as u32);
    let mut i: usize = 0;
    while i < v.len()
        invariant
            i <= v.len(),
            es == v@.map_values(|e: EnvVar| e@),
            es.len() <= u32::MAX,
            forall|j: int| 0 <= j < v@.len() ==> env_encodable((#[trigger] v@[j])@),
            out@ == old(out)@ + spec_u32_to_le_bytes(es.len() as u32) + enc_env_items(
                es.take(i as int),
            ),
        decreases v.len() - i,
    {
        proof {
            assert(es[i as int] == v@[i as int]@);
        }
        push_env(out, &v[i]);
        proof {
            assert(es.take(i + 1) =~= es.take(i as int).push(es[i as int]));
            lemma_enc_env_items_push(es.take(i as int), es[i as int]);
            assert(old(out)@ + spec_u32_to_le_bytes(es.len() as u32) + enc_env_items(
                es.take(i as int),
            ) + enc_env(es[i as int]) =~= old(out)@ + spec_u32_to_le_bytes(es.len() as u32)
                + enc_env_items(es.take(i + 1)));
        }
        i += 1;
    }
    proof {
        assert(es.take(v.len() as int) =~= es);
        assert(old(out)@ + spec_u32_to_le_bytes(es.len() as u32) + enc_env_items(es) =~= old(out)@
            + enc_env_list(es));
    }
}

fn push_packet(out: &mut Vec<u8>, p: &Packet)
    requires
        packet_encodable(p@),
    ensures
        final(out)@ == old(out)@ + spec_encode_packet(p@),
{
    match p {
        Packet::Print(pp) => {
            out.push(TAG_PRINT);
            push_str(out, pp.message.as_str());
            proof {
                assert(final(out)@ =~= old(out)@ + (seq![TAG_PRINT] + enc_str(pp.message@)));
            }
        },
        Packet::Toast(t) => {
            out.push(TAG_TOAST);
            push_str(out, t.title.as_str());
            push_str(out, t.body.as_str());
            proof {
                assert(final(out)@ =~= old(out)@ + (seq![TAG_TOAST] + enc_str(t.title@) + enc_str(
                    t.body@,
                )));
            }
        },
        Packet::Invoke(i) => {
            out.push(TAG_INVOKE);
            push_str(out, i.class_name.as_str());
            push_str(out, i.method_name.as_str());
            push_str(out, i.desc.as_str());
            proof {
                assert(final(out)@ =~= old(out)@ + (seq![TAG_INVOKE] + enc_str(i.class_name@)
                    + enc_str(i.method_name@) + enc_str(i.desc@)));
            }
        },
        Packet::Run(r) => {
            proof {
                let rv = r@;
                assert(p@ == PacketView::Run(rv));
                assert forall|i: int| 0 <= i < r.args@.len() implies str_encodable(
                    (#[trigger] r.args@[i])@,
                ) by {
                    assert(rv.args[i] == r.args@[i]@);
                }
                assert forall|i: int| 0 <= i < r.env@.len() implies env_encodable(
                    (#[trigger] r.env@[i])@,
                ) by {
                    assert(rv.env[i] == r.env@[i]@);
                }
            }
            out.push(TAG_RUN);
            push_str(out, r.path.as_str());
            push_str_list(out, &r.args);
            push_str(out, r.cwd.as_str());
            push_env_list(out, &r.env);
            proof {
                assert(final(out)@ =~= old(out)@ + (seq![TAG_RUN] + enc_str(r.path@)
                    + enc_str_list(r.args@.map_values(|s: String| s@)) + enc_str(r.cwd@)
                    + enc_env_list(r.env@.map_values(|e: EnvVar| e@))));
            }
        },
        Packet::Confirmation => {
            out.push(TAG_CONFIRMATION);
            proof {
                assert(final(out)@ =~= old(out)@ + seq![TAG_CONFIRMATION]);
            }
        },
        Packet::Failure => {
            out.push(TAG_FAILURE);
            proof {
                assert(final(out)@ =~= old(out)@ + seq![TAG_FAILURE]);
            }
        },
    }
}

impl PacketHeader {
    /// Encode this envelope as payload bytes: the 8-byte correlation id,
    /// then the tagged message. Returns `None` exactly when a string or
    /// list of the message is too long for its 4-byte length field.
    pub fn encode(&self) -> (r: Option<Vec<u8>>)
        ensures
            r is Some <==> header_encodable(self@),
            r matches Some(b) ==> b@ == spec_encode_header(self@),
    {
        if !packet_fits(&self.packet) {
            return None;
        }
        let mut out: Vec<u8> = Vec::new();
        push_u64(&mut out, self.target_id);
        push_packet(&mut out, &self.packet);
        proof {
            assert(out@ =~= spec_encode_header(self@));
        }
        Some(out)
    }

    /// Encode this envelope as one complete frame: the 4-byte length
    /// prefix, then the payload bytes. Returns `None` exactly when the
    /// envelope is not encodable or its payload is too long for the
    /// length prefix.
    pub fn encode_frame(&self) -> (r: Option<Vec<u8>>)
        ensures
            r is Some <==> (header_encodable(self@) && spec_encode_header(self@).len()
                <= u32::MAX),
            r matches Some(b) ==> b@ == spec_frame(spec_encode_header(self@)),
    {
        let payload = match self.encode() {
            Some(p) => p,
            None => {
                return None;
            },
        };
        if payload.len() > u32::MAX as usize {
            return None;
        }
        let mut out: Vec<u8> = Vec::new();
        push_u32(&mut out, payload.len() as u32);
        out.extend_from_slice(payload.as_slice());
        proof {
            assert(out@ =~= spec_frame(spec_encode_header(self@)));
        }
        Some(out)
    }
}

} // verus!
