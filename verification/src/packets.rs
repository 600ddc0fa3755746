//! Protocol messages and the envelope that carries them.
//!
//! A `PacketHeader` is the unit exchanged over the wire: a correlation id
//! (`target_id`) plus one `Packet`. `target_id == 0` marks a new request;
//! a nonzero id marks the response to the request matched by that id.
//! The set of packet variants is closed: the codec rejects any other tag.

use vstd::prelude::*;

verus! {

/// Informational text for the peer to display or log.
#[derive(Debug, Clone, PartialEq, Eq)]
pub struct PrintPacket {
    pub message: String,
}

/// A two-field notification: a title and a body.
#[derive(Debug, Clone, PartialEq, Eq)]
pub struct ToastPacket {
    pub title: String,
    pub body: String,
}

/// A reflective-invoke descriptor: class, method and signature.
#[derive(Debug, Clone, PartialEq, Eq)]
pub struct InvokePacket {
    pub class_name: String,
    pub method_name: String,
    pub desc: String,
}

/// One environment override of a launch descriptor.
///
/// `value == None` means "unset this variable".
#[derive(Debug, Clone, PartialEq, Eq)]
pub struct EnvVar {
    pub name: String,
    pub value: Option<String>,
}

/// An external-process-launch descriptor: executable path, argument list,
/// working directory and environment overrides.
#[derive(Debug, Clone, PartialEq, Eq)]
pub struct RunPacket {
    pub path: String,
    pub args: Vec<String>,
    pub cwd: String,
    pub env: Vec<EnvVar>,
}

/// One protocol message. The variant set is closed; adding a variant is a
/// protocol version change.
#[derive(Debug, Clone, PartialEq, Eq)]
pub enum Packet {
    Print(PrintPacket),
    Toast(ToastPacket),
    Invoke(InvokePacket),
    Run(RunPacket),
    Confirmation,
    Failure,
}

/// The envelope put on the wire: a correlation id plus one message.
#[derive(Debug, Clone, PartialEq, Eq)]
pub struct PacketHeader {
    pub target_id: u64,
    pub packet: Packet,
}

/// Mathematical model of a `PrintPacket`.
#[verifier::ext_equal]
pub struct PrintPacketView {
    pub message: Seq<char>,
}

/// Mathematical model of a `ToastPacket`.
#[verifier::ext_equal]
pub struct ToastPacketView {
    pub title: Seq<char>,
    pub body: Seq<char>,
}

/// Mathematical model of an `InvokePacket`.
#[verifier::ext_equal]
pub struct InvokePacketView {
    pub class_name: Seq<char>,
    pub method_name: Seq<char>,
    pub desc: Seq<char>,
}

/// Mathematical model of an `EnvVar`.
#[verifier::ext_equal]
pub struct EnvVarView {
    pub name: Seq<char>,
    pub value: Option<Seq<char>>,
}

/// Mathematical model of a `RunPacket`.
#[verifier::ext_equal]
pub struct RunPacketView {
    pub path: Seq<char>,
    pub args: Seq<Seq<char>>,
    pub cwd: Seq<char>,
    pub env: Seq<EnvVarView>,
}

/// Mathematical model of a `Packet`.
#[verifier::ext_equal]
pub enum PacketView {
    Print(PrintPacketView),
    Toast(ToastPacketView),
    Invoke(InvokePacketView),
    Run(RunPacketView),
    Confirmation,
    Failure,
}

/// Mathematical model of a `PacketHeader`.
#[verifier::ext_equal]
pub struct PacketHeaderView {
    pub target_id: u64,
    pub packet: PacketView,
}

impl View for PrintPacket {
    type V = PrintPacketView;

    open spec fn view(&self) -> PrintPacketView {
        PrintPacketView { message: self.message@ }
    }
}

impl View for ToastPacket {
    type V = ToastPacketView;

    open spec fn view(&self) -> ToastPacketView {
        ToastPacketView { title: self.title@, body: self.body@ }
    }
}

impl View for InvokePacket {
    type V = InvokePacketView;

    open spec fn view(&self) -> InvokePacketView {
        InvokePacketView {
            class_name: self.class_name@,
            method_name: self.method_name@,
            desc: self.desc@,
        }
    }
}

/// The view of an optional string field.
pub open spec fn opt_str_view(v: Option<String>) -> Option<Seq<char>> {
    match v {
        Some(s) => Some(s@),
        None => None,
    }
}

impl View for EnvVar {
    type V = EnvVarView;

    open spec fn view(&self) -> EnvVarView {
        EnvVarView { name: self.name@, value: opt_str_view(self.value) }
    }
}

impl View for RunPacket {
    type V = RunPacketView;

    open spec fn view(&self) -> RunPacketView {
        RunPacketView {
            path: self.path@,
            args: self.args@.map_values(|s: String| s@),
            cwd: self.cwd@,
            env: self.env@.map_values(|e: EnvVar| e@),
        }
    }
}

impl View for Packet {
    type V = PacketView;

    open spec fn view(&self) -> PacketView {
        match self {
            Packet::Print(p) => PacketView::Print(p@),
            Packet::Toast(p) => PacketView::Toast(p@),
            Packet::Invoke(p) => PacketView::Invoke(p@),
            Packet::Run(p) => PacketView::Run(p@),
            Packet::Confirmation => PacketView::Confirmation,
            Packet::Failure => PacketView::Failure,
        }
    }
}

impl View for PacketHeader {
    type V = PacketHeaderView;

    open spec fn view(&self) -> PacketHeaderView {
        PacketHeaderView { target_id: self.target_id, packet: self.packet@ }
    }
}

impl Packet {
    /// Wrap this message as a new request: requests always carry
    /// correlation id 0, since the id of the eventual response is chosen
    /// by the responder.
    pub fn as_header(self) -> (h: PacketHeader)
        ensures
            h@ == (PacketHeaderView { target_id: 0, packet: self@ }),
    {
        PacketHeader { target_id: 0, packet: self }
    }

    /// Wrap this message as the response matched by `target_id`.
    pub fn as_response(self, target_id: u64) -> (h: PacketHeader)
        ensures
            h@ == (PacketHeaderView { target_id: target_id, packet: self@ }),
    {
        PacketHeader { target_id, packet: self }
    }
}

impl PacketHeader {
    /// The correlation id carried by this envelope.
    pub fn target_id(&self) -> (id: u64)
        ensures
            id == self@.target_id,
    {
        self.target_id
    }

    /// The message carried by this envelope.
    pub fn packet(&self) -> (p: &Packet)
        ensures
            p@ == self@.packet,
    {
        &self.packet
    }

    /// Take the envelope apart into its correlation id and message.
    pub fn into_parts(self) -> (r: (u64, Packet))
        ensures
            r.0 == self@.target_id,
            r.1@ == self@.packet,
    {
        (self.target_id, self.packet)
    }
}

impl PrintPacket {
    /// Build an informational-text message.
    pub fn new(message: String) -> (p: Packet)
        ensures
            p@ == PacketView::Print(PrintPacketView { message: message@ }),
    {
        Packet::Print(PrintPacket { message })
    }
}

impl ToastPacket {
    /// Build a notification message.
    pub fn new(title: String, body: String) -> (p: Packet)
        ensures
            p@ == PacketView::Toast(ToastPacketView { title: title@, body: body@ }),
    {
        Packet::Toast(ToastPacket { title, body })
    }
}

impl RunPacket {
    /// Build a launch-descriptor message.
    pub fn new(path: String, args: Vec<String>, cwd: String, env: Vec<EnvVar>) -> (p: Packet)
        ensures
            p@ == PacketView::Run(
                RunPacketView {
                    path: path@,
                    args: args@.map_values(|s: String| s@),
                    cwd: cwd@,
                    env: env@.map_values(|e: EnvVar| e@),
                },
            ),
    {
        Packet::Run(RunPacket { path, args, cwd, env })
    }
}

} // verus!
