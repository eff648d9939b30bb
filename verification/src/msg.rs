//! Messages, ingestion items, and the per-session delivery rules.

use vstd::prelude::*;

verus! {

/// One unit of ingested or broadcast data: a payload tagged with the group
/// it belongs to.  Producers populate at most one of the two payload forms;
/// the other stays empty.
#[derive(Clone)]
pub struct GroupMsg {
    pub group: String,
    pub data: String,
    pub bytes: Vec<u8>,
}

/// An ingested event together with the transport metadata it arrived with.
/// Consumed exactly once by the dispatcher.
pub struct QueueItem {
    pub ua: String,
    pub ip: String,
    pub refer: String,
    pub data: GroupMsg,
}

/// State of one live duplex session: its process-unique identifier and the
/// group it subscribes to.
pub struct WsConn {
    pub id: u64,
    pub group: String,
}

/// What `str::trim` returns for a given character sequence.
pub uninterp spec fn trim_of(s: Seq<char>) -> Seq<char>;

/// Relies on std's `str::trim`: removes leading and trailing whitespace.
/// The result depends on the characters alone; it is named `trim_of`.
#[verifier::external_body]
pub fn trimmed(s: &str) -> (r: String)
    ensures
        r@ == trim_of(s@),
{
    s.trim().to_owned()
}

/// Whether a broadcast message is delivered outward on this connection:
/// the groups must agree and the message must carry some payload.
pub open spec fn delivers(conn: WsConn, m: GroupMsg) -> bool {
    conn.group@ == m.group@ && (m.data@.len() > 0 || m.bytes@.len() > 0)
}

/// Which frames of a broadcast message go out on one connection.
pub struct Delivery {
    pub send_text: bool,
    pub send_binary: bool,
}

/// An inbound transport frame from the peer, reduced to the forms the
/// session logic distinguishes.
pub enum Frame {
    Text(String),
    Binary(Vec<u8>),
    Ping(Vec<u8>),
    Close,
    Other,
}

/// The session's decision on one inbound frame.
pub enum FrameAction {
    Publish(GroupMsg),
    Pong(Vec<u8>),
    CloseReply,
    Ignore,
}

impl WsConn {
    /// Decides what of a broadcast message goes out on this connection:
    /// non-empty text as a text frame and non-empty binary as a binary
    /// frame, each only when the message's group is the connection's own.
    pub fn accept(&self, m: &GroupMsg) -> (d: Delivery)
        ensures
            d.send_text == (self.group@ == m.group@ && m.data@.len() > 0),
            d.send_binary == (self.group@ == m.group@ && m.bytes@.len() > 0),
            (d.send_text || d.send_binary) == delivers(*self, *m),
    {
        if self.group == m.group {
            Delivery {
                send_text: !m.data.as_str().is_empty(),
                send_binary: m.bytes.len() > 0,
            }
        } else {
            Delivery { send_text: false, send_binary: false }
        }
    }

    /// The session's reaction to one inbound frame while active: text and
    /// binary frames become self-published events for the connection's own
    /// group (text is trimmed first), a ping is answered with its payload,
    /// a close is acknowledged, anything else is ignored.
    pub fn frame_reaction(&self, f: Frame) -> (r: FrameAction)
        ensures
            (f matches Frame::Text(t) ==> r matches FrameAction::Publish(m)
                && m.group@ == self.group@
                && m.data@ == trim_of(t@)
                && m.bytes@.len() == 0),
            (f matches Frame::Binary(b) ==> r matches FrameAction::Publish(m)
                && m.group@ == self.group@
                && m.data@.len() == 0
                && m.bytes@ == b@),
            (f matches Frame::Ping(p) ==> r matches FrameAction::Pong(q) && q@ == p@),
            (f is Close ==> r is CloseReply),
            (f is Other ==> r is Ignore),
    {
        match f {
            Frame::Text(t) => FrameAction::Publish(
                GroupMsg {
                    group: self.group.clone(),
                    data: trimmed(t.as_str()),
                    bytes: Vec::new(),
                },
            ),
            Frame::Binary(b) => FrameAction::Publish(
                GroupMsg { group: self.group.clone(), data: String::new(), bytes: b },
            ),
            Frame::Ping(p) => FrameAction::Pong(p),
            Frame::Close => FrameAction::CloseReply,
            Frame::Other => FrameAction::Ignore,
        }
    }
}

} // verus!
