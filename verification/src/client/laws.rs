//! Laws of the blocking client's sessions.
use vstd::prelude::*;

use crate::async_client::model::id_after;
use crate::client::model::{SessionView, StepView};
use crate::codec::encode::variable_int_bytes;
use crate::codec::publish::encoded_puback;
use crate::codec::subscribe::granted_from;
use crate::codec::types::{PacketView, PubAckPacket, PublishPacketView, QoS};
use crate::error::Error;
use crate::frame::{header_len_bounds, FrameReaderView};
use crate::options::PublishOptionsView;

verus! {

/// A session that has failed or was closed refuses every operation without sending
/// anything.
pub proof fn closed_session_refuses(
    s: SessionView,
    topic: Seq<char>,
    payload: Seq<u8>,
    options: PublishOptionsView,
    qos: QoS,
    now: int,
)
    requires
        !s.connected,
    ensures
        s.begin_publish(topic, payload, options) == s.done(Err(Error::ClientClosed)),
        s.begin_subscribe(topic, qos) == s.done(Err(Error::ClientClosed)),
        s.begin_unsubscribe(topic) == s.done(Err(Error::ClientClosed)),
        s.begin_receive(now) == s.done(Err(Error::ClientClosed)),
        s.begin_disconnect() == s.done(Ok(None)),
{
}

/// Messages are handed out oldest first, and none is handed out twice.
pub proof fn oldest_message_comes_first(s: SessionView, now: int)
    requires
        s.connected,
        s.incoming.len() > 0,
    ensures
        s.begin_receive(now).1 == StepView::Done(Ok(Some(s.incoming[0]))),
        s.begin_receive(now).0.incoming == s.incoming.drop_first(),
{
}

/// Packet identifiers are never zero.
pub proof fn packet_ids_are_never_zero(s: SessionView)
    requires
        s.next_packet_id != 0,
    ensures
        s.next_id().next_packet_id == id_after(s.next_packet_id),
        s.next_id().next_packet_id != 0,
{
}

impl SessionView {
    /// Whether an acknowledgement is waited for.
    pub open spec fn awaits_ack(self) -> bool {
        self.goal is PubAck || self.goal is SubAck || self.goal is UnsubAck
    }
}

proof fn handle_keeps_messages(s: SessionView, packet: PacketView)
    requires
        s.awaits_ack(),
    ensures
        ({
            let (t, step) = s.handle(packet);
            &&& s.incoming.is_prefix_of(t.incoming)
            &&& t.max_incoming == s.max_incoming
            &&& s.incoming.len() <= s.max_incoming ==> t.incoming.len() <= t.max_incoming
            &&& packet matches PacketView::Publish(p) ==> s.incoming.len() < s.max_incoming
                ==> t.incoming == s.incoming.push(p)
            &&& step is None ==> t.goal == s.goal
        }),
{
    reveal(SessionView::handle);
}

/// While an acknowledgement is waited for, the messages that have arrived stay as they
/// are, and those that arrive stand behind them, within the limit.
pub proof fn waiting_keeps_messages(s: SessionView, now: int)
    requires
        s.awaits_ack(),
    ensures
        s.incoming.is_prefix_of(s.advance(now).0.incoming),
        s.incoming.len() <= s.max_incoming ==> s.advance(now).0.incoming.len() <= s.max_incoming,
    decreases s.reader.buf.len(),
{
    let rest = s.reader.after_next();
    let w = SessionView { reader: rest, ..s };
    if let Ok(Some(packet)) = s.reader.next_packet() {
        handle_keeps_messages(w, packet);
        let (t, step) = w.handle(packet);
        if step is None {
            header_len_bounds(s.reader.buf);
            waiting_keeps_messages(SessionView { reader: rest, ..t }, now);
        }
    }
}

/// A message that arrives while an acknowledgement is waited for is kept, behind the
/// others, where there is room for it.
pub proof fn arriving_message_is_kept(s: SessionView, message: PublishPacketView)
    requires
        s.awaits_ack(),
        s.incoming.len() < s.max_incoming,
    ensures
        s.handle(PacketView::Publish(message)).0.incoming == s.incoming.push(message),
{
    handle_keeps_messages(s, PacketView::Publish(message));
}

/// Whether a PUBLISH packet can be acknowledged, if it has to be.
pub open spec fn is_acknowledgeable(p: PublishPacketView) -> bool {
    p.qos == QoS::AtLeastOnce ==> p.packet_id is Some && p.packet_id != Some(0u16)
}

/// A QoS 1 PUBLISH packet out of a reader has a packet identifier other than zero.
proof fn decoded_publish_has_packet_id(reader: FrameReaderView)
    ensures
        reader.next_packet() matches Ok(Some(PacketView::Publish(p))) ==> is_acknowledgeable(p),
{
}

proof fn puback_len(packet_id: u16)
    requires
        packet_id != 0,
    ensures
        encoded_puback(PubAckPacket { packet_id, reason_code: 0 }) matches Ok(bytes) && bytes.len()
            == 4,
{
    reveal_with_fuel(variable_int_bytes, 2);
}

proof fn handle_failure_closes(s: SessionView, packet: PacketView)
    requires
        s.awaits_ack(),
        s.max_outbound >= 4,
        packet matches PacketView::Publish(p) ==> is_acknowledgeable(p),
    ensures
        ({
            let (t, step) = s.handle(packet);
            &&& step matches Some(StepView::Done(Err(e))) ==> !t.connected || e is AckRejected
            &&& step is None ==> t.goal == s.goal && t.max_outbound == s.max_outbound
        }),
{
    reveal(SessionView::handle);
    reveal_with_fuel(granted_from, 2);
    if let PacketView::Publish(p) = packet {
        if let Some(id) = p.packet_id {
            if id != 0 {
                puback_len(id);
            }
        }
    }
}

/// Waiting for an acknowledgement ends with the acknowledgement or with the session: after
/// any other failure the session takes no more operations, as a late acknowledgement could
/// not be told from that of a later packet with the same identifier.
///
/// A broker that does not even accept the four bytes of a PUBACK packet is left out.
pub proof fn failed_wait_closes_session(s: SessionView, now: int)
    requires
        s.awaits_ack(),
        s.max_outbound >= 4,
    ensures
        s.advance(now).1 matches StepView::Done(Err(e)) ==> !s.advance(now).0.connected
            || e is AckRejected,
    decreases s.reader.buf.len(),
{
    let rest = s.reader.after_next();
    let w = SessionView { reader: rest, ..s };
    if let Ok(Some(packet)) = s.reader.next_packet() {
        decoded_publish_has_packet_id(s.reader);
        handle_failure_closes(w, packet);
        let (t, step) = w.handle(packet);
        if step is None {
            header_len_bounds(s.reader.buf);
            failed_wait_closes_session(SessionView { reader: rest, ..t }, now);
        }
    }
}

} // verus!
