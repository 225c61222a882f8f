//! What a call that receives hands out.
use vstd::prelude::*;

use crate::client::laws::is_acknowledgeable;
use crate::client::messages::{arrived, leading_messages, ReportView};
use crate::client::model::{GoalView, Sending, SessionView, StepView, Turn};
use crate::codec::broker::{heard, ping_is_heard, puback_is_heard, Heard};
use crate::codec::encode::variable_int_bytes;
use crate::codec::ping::PINGRESP_BYTES;
use crate::codec::publish::{encoded_puback, encoded_publish};
use crate::codec::types::{PacketView, PubAckPacket, PublishPacketView, QoS};
use crate::error::Error;
use crate::frame::{
    frame_is_final, frame_of, header_len_bounds, pings_are_read_back, publish_is_read_back,
};

verus! {

/// Whether a broker reads in these bytes the acknowledgement of a message.
pub open spec fn acknowledges(bytes: Seq<u8>, message: PublishPacketView) -> bool {
    message.packet_id matches Some(packet_id) && heard(bytes) == Some(
        Heard::PubAck(PubAckPacket { packet_id, reason_code: 0 }),
    )
}

/// Whether a call that receives is over, with this message.
pub open spec fn hands_out(turn: Turn, message: PublishPacketView) -> bool {
    &&& turn.1 == StepView::Done(Ok(Some(message)))
    &&& turn.0.connected
    &&& turn.0.incoming.len() == 0
}

/// Whether this message comes out: at QoS 0 at once, and at QoS 1 once its PUBACK packet,
/// which is asked for first, was sent, at whatever time.
pub open spec fn comes_out(turn: Turn, message: PublishPacketView, at: int) -> bool {
    match message.qos {
        QoS::AtMostOnce => hands_out(turn, message),
        QoS::AtLeastOnce => {
            &&& turn.1 matches StepView::Send(bytes) && acknowledges(bytes, message)
            &&& hands_out(turn.0.sent(Ok(()), at), message)
        },
    }
}

impl SessionView {
    /// Whether a message is waited for, and none is held.
    pub open spec fn seeks_message(self) -> bool {
        &&& self.connected
        &&& self.goal is Message
        &&& self.deadline is None
        &&& self.sending == Sending::Nothing
        &&& self.incoming.len() == 0
        &&& self.max_incoming > 0
    }

    /// Whether a call that receives is under way, and `step` is one on the way: to read or to
    /// send a PINGREQ packet, where no message has arrived yet, or to acknowledge the one
    /// message that is held.
    pub open spec fn receives_at(self, step: StepView) -> bool {
        &&& self.connected
        &&& self.goal is Message
        &&& self.deadline is None
        &&& self.max_incoming > 0
        &&& match step {
            StepView::Read { .. } => {
                &&& self.sending == Sending::Nothing
                &&& self.incoming.len() == 0
                &&& leading_messages(self.reader.buf, self.reader.max).len() == 0
            },
            StepView::Send(bytes) => {
                ||| {
                    &&& self.sending == Sending::Ping
                    &&& self.incoming.len() == 0
                    &&& leading_messages(self.reader.buf, self.reader.max).len() == 0
                    &&& heard(bytes) == Some(Heard::PingReq)
                }
                ||| {
                    &&& self.sending == Sending::PubAck
                    &&& self.incoming.len() == 1
                    &&& self.incoming[0].qos == QoS::AtLeastOnce
                    &&& acknowledges(bytes, self.incoming[0])
                }
            },
            StepView::Done(_) => false,
        }
    }
}

proof fn decoded_message_is_acknowledgeable(s: SessionView)
    ensures
        s.reader.next_packet() matches Ok(Some(PacketView::Publish(p))) ==> is_acknowledgeable(p),
{
}

/// The acknowledgement of a message is four bytes, in which a broker reads just that.
proof fn acknowledgement_is_heard(message: PublishPacketView)
    requires
        message.qos == QoS::AtLeastOnce,
        is_acknowledgeable(message),
    ensures
        encoded_puback(
            PubAckPacket { packet_id: message.packet_id->Some_0, reason_code: 0 },
        ) matches Ok(bytes) && bytes.len() == 4 && acknowledges(bytes, message),
{
    let ack = PubAckPacket { packet_id: message.packet_id->Some_0, reason_code: 0 };
    reveal_with_fuel(variable_int_bytes, 2);
    assert(encoded_puback(ack) is Ok);
    puback_is_heard(ack);
}

/// Whether a turn has dealt with the messages in the order of their arrival: the first one
/// is handed out or held to be acknowledged, and the others are still to come.
spec fn finds_message(s: SessionView, data: Seq<u8>, turn: Turn, later: Seq<u8>) -> bool {
    let (t, step) = turn;
    let before = s.incoming + leading_messages(s.reader.buf + (data + later), s.reader.max);
    let after = t.incoming + leading_messages(t.reader.buf + later, t.reader.max);
    match step {
        StepView::Done(Err(_)) => true,
        StepView::Done(Ok(None)) => before.len() == 0 && !t.connected,
        StepView::Done(Ok(Some(message))) => {
            &&& before.len() > 0
            &&& message == before[0]
            &&& after == before.drop_first()
            &&& t.connected
            &&& t.incoming.len() == 0
            &&& t.reader.max == s.reader.max
            &&& s.incoming.len() == 0 ==> message.qos == QoS::AtMostOnce
        },
        _ => {
            &&& t.receives_at(step)
            &&& t.reader.max == s.reader.max
            &&& after == before
        },
    }
}

/// Taking in what has arrived finds the first message in it.
proof fn advance_finds_message(s: SessionView, now: int, later: Seq<u8>)
    requires
        s.seeks_message(),
    ensures
        finds_message(s, Seq::empty(), s.advance(now), later),
    decreases s.reader.buf.len(),
{
    reveal(leading_messages);
    reveal(SessionView::handle);
    let buf = s.reader.buf;
    let max = s.reader.max;
    let rest = s.reader.after_next();
    let w = SessionView { reader: rest, ..s };
    ping_is_heard();
    assert(buf + (Seq::<u8>::empty() + later) =~= buf + later);
    if let Ok(Some(packet)) = s.reader.next_packet() {
        header_len_bounds(buf);
        frame_is_final(buf, later, max);
        let len = frame_of(buf, max)->Complete_1;
        assert((buf + later).skip(len) =~= rest.buf + later);
        let behind = leading_messages(rest.buf + later, max);
        let (t, step) = w.handle(packet);
        match packet {
            PacketView::Publish(message) => {
                decoded_message_is_acknowledgeable(s);
                if message.qos == QoS::AtLeastOnce {
                    acknowledgement_is_heard(message);
                }
                let all = seq![message] + behind;
                assert(s.incoming + all =~= all);
                assert(all.drop_first() =~= behind);
                assert(Seq::<PublishPacketView>::empty() + behind =~= behind);
                assert(w.incoming.push(message) =~= seq![message]);
                assert(seq![message].drop_first() =~= Seq::<PublishPacketView>::empty());
            },
            PacketView::PingResp => {
                let u = SessionView { reader: rest, ..t };
                advance_finds_message(u, now, later);
                assert(rest.buf + (Seq::<u8>::empty() + later) =~= rest.buf + later);
            },
            _ => {
                assert(s.incoming + Seq::<PublishPacketView>::empty() =~= Seq::<
                    PublishPacketView,
                >::empty());
            },
        }
    }
}

proof fn report_finds_message(
    s: SessionView,
    step: StepView,
    report: ReportView,
    later: Seq<u8>,
)
    requires
        s.receives_at(step),
        report.fits(step),
    ensures
        finds_message(s, report.data(), s.heard(report), later),
{
    let buf = s.reader.buf;
    assert(buf + (Seq::<u8>::empty() + later) =~= buf + later);
    match report {
        ReportView::Sent { written, now } => {
            if written is Ok {
                if s.sending == Sending::PubAck {
                    let behind = leading_messages(buf + later, s.reader.max);
                    assert((s.incoming + behind).drop_first() =~= s.incoming.drop_first()
                        + behind);
                }
            }
        },
        ReportView::Received { read, now } => {
            match read {
                Ok(data) => {
                    let t = SessionView { reader: s.reader.pushed(data), ..s };
                    advance_finds_message(t, now, later);
                    if data.len() <= s.reader.room() {
                        assert(buf + data + (Seq::<u8>::empty() + later) =~= buf + (data + later));
                    }
                },
                Err(_) => {
                    advance_finds_message(s, now, later);
                },
            }
        },
        ReportView::TimeoutRefused { .. } => {},
    }
}

proof fn run_finds_message(s: SessionView, step: StepView, reports: Seq<ReportView>)
    requires
        s.receives_at(step),
        s.asked_for(step, reports),
    ensures
        received_right(
            s.incoming + leading_messages(s.reader.buf + arrived(reports), s.reader.max),
            (s, step),
            reports,
        ),
    decreases reports.len(),
{
    reveal_with_fuel(SessionView::asked_for, 2);
    reveal_with_fuel(SessionView::run, 2);
    if reports.len() == 0 {
        assert(s.reader.buf + arrived(reports) =~= s.reader.buf);
    } else {
        let rest = reports.drop_first();
        report_finds_message(s, step, reports[0], arrived(rest));
        let (t, next) = s.heard(reports[0]);
        if next is Done {
            assert(rest.len() == 0);
            assert(t.reader.buf + arrived(rest) =~= t.reader.buf);
            assert(reports.drop_last() =~= Seq::<ReportView>::empty());
        } else {
            run_finds_message(t, next, rest);
            if rest.len() > 0 {
                assert(reports.drop_last().drop_first() =~= rest.drop_last());
                assert(s.run(step, reports.drop_last()) == t.run(next, rest.drop_last()));
            }
        }
    }
}

/// Whether a call that receives does right by these messages, the first ones that the broker
/// has sent, from `start` on and after these reports. The message that comes out is the
/// first one as it was sent, at QoS 1 right after its acknowledgement was, and the others
/// are still to come. While something is sent, it is that acknowledgement, or a PINGREQ
/// packet where no message has arrived. The call reads on, or ends without a message, only
/// where none has arrived.
pub open spec fn received_right(
    messages: Seq<PublishPacketView>,
    start: Turn,
    reports: Seq<ReportView>,
) -> bool {
    let (t, end) = start.0.run(start.1, reports);
    match end {
        StepView::Done(Ok(Some(message))) => {
            &&& messages.len() > 0
            &&& message == messages[0]
            &&& t.connected
            &&& t.incoming.len() == 0
            &&& leading_messages(t.reader.buf, t.reader.max) == messages.drop_first()
            &&& message.qos == QoS::AtLeastOnce ==> {
                &&& reports.len() > 0
                &&& reports.last() matches ReportView::Sent { written: Ok(_), .. }
                &&& start.0.run(start.1, reports.drop_last()).1 matches StepView::Send(bytes)
                    && acknowledges(bytes, message)
            }
        },
        StepView::Done(Ok(None)) => messages.len() == 0 && !t.connected,
        StepView::Done(Err(_)) => true,
        StepView::Send(bytes) => if messages.len() == 0 {
            heard(bytes) == Some(Heard::PingReq)
        } else {
            acknowledges(bytes, messages[0])
        },
        StepView::Read { .. } => messages.len() == 0,
    }
}

/// A call that receives, in a session that holds no message, hands out the first message
/// that the broker sends, as it was sent and with nothing changed; however what the broker
/// sends is cut into reads, and whatever has to be sent meanwhile.
pub proof fn first_message_is_received(s: SessionView, now: int, reports: Seq<ReportView>)
    requires
        s.connected,
        s.incoming.len() == 0,
        s.max_incoming > 0,
        s.sending == Sending::Nothing,
        s.begin_receive(now).0.asked_for(s.begin_receive(now).1, reports),
    ensures
        received_right(
            leading_messages(s.reader.buf + arrived(reports), s.reader.max),
            s.begin_receive(now),
            reports,
        ),
{
    reveal_with_fuel(SessionView::asked_for, 2);
    reveal_with_fuel(SessionView::run, 2);
    let w = SessionView { goal: GoalView::Message, deadline: None, ..s };
    let later = arrived(reports);
    advance_finds_message(w, now, later);
    let (t, step) = s.begin_receive(now);
    let messages = leading_messages(s.reader.buf + later, s.reader.max);
    assert(s.reader.buf + (Seq::<u8>::empty() + later) =~= s.reader.buf + later);
    assert(s.incoming + messages =~= messages);
    if step is Done {
        assert(reports.len() == 0);
        assert(t.reader.buf + later =~= t.reader.buf);
        assert(t.incoming + leading_messages(t.reader.buf, t.reader.max) =~= leading_messages(
            t.reader.buf,
            t.reader.max,
        ) || t.incoming.len() > 0);
    } else {
        run_finds_message(t, step, reports);
    }
}

/// Where a whole message has arrived, taking it in makes it come out.
proof fn advance_lets_message_out(s: SessionView, now: int, at: int)
    requires
        s.seeks_message(),
        s.reader.overflow is None,
        s.max_outbound >= 4,
        leading_messages(s.reader.buf, s.reader.max).len() > 0,
    ensures
        comes_out(s.advance(now), leading_messages(s.reader.buf, s.reader.max)[0], at),
    decreases s.reader.buf.len(),
{
    reveal(leading_messages);
    reveal(SessionView::handle);
    let rest = s.reader.after_next();
    let w = SessionView { reader: rest, ..s };
    header_len_bounds(s.reader.buf);
    let packet = s.reader.next_packet()->Ok_0->Some_0;
    let (t, step) = w.handle(packet);
    match packet {
        PacketView::Publish(message) => {
            decoded_message_is_acknowledgeable(s);
            if message.qos == QoS::AtLeastOnce {
                acknowledgement_is_heard(message);
            }
            assert(w.incoming.push(message) =~= seq![message]);
            assert(seq![message].drop_first() =~= Seq::<PublishPacketView>::empty());
        },
        _ => {
            advance_lets_message_out(SessionView { reader: rest, ..t }, now, at);
        },
    }
}

/// A message that is waited for comes out as soon as the last of its bytes has arrived, and
/// one that has arrived already comes out at once: the very message that the broker sent,
/// at QoS 1 once its acknowledgement was sent.
///
/// A broker that does not even accept the four bytes of a PUBACK packet is left out.
pub proof fn arrived_message_comes_out(
    s: SessionView,
    message: PublishPacketView,
    rest: Seq<u8>,
    data: Seq<u8>,
    now: int,
    at: int,
)
    requires
        s.connected,
        s.incoming.len() == 0,
        s.max_incoming > 0,
        s.sending == Sending::Nothing,
        s.reader.overflow is None,
        s.max_outbound >= 4,
        encoded_publish(message) matches Ok(bytes) && bytes.len() <= s.reader.max
            && s.reader.buf + data == bytes + rest,
    ensures
        data.len() == 0 ==> comes_out(s.begin_receive(now), message, at),
        0 < data.len() <= s.reader.room() && s.goal is Message && s.deadline is None
            ==> comes_out(s.received(Ok(data), now), message, at),
{
    assert(leading_messages(s.reader.buf + data, s.reader.max)[0] == message
        && leading_messages(s.reader.buf + data, s.reader.max).len() > 0) by {
        reveal(leading_messages);
        publish_is_read_back(message, rest, s.reader.max);
    }
    if data.len() == 0 {
        assert(s.reader.buf + data =~= s.reader.buf);
        let w = SessionView { goal: GoalView::Message, deadline: None, ..s };
        advance_lets_message_out(w, now, at);
    } else if data.len() <= s.reader.room() && s.goal is Message && s.deadline is None {
        let w = SessionView { reader: s.reader.pushed(data), ..s };
        advance_lets_message_out(w, now, at);
    }
}

/// Answers to pings stand in the way of no message.
pub proof fn pings_hide_no_message(rest: Seq<u8>, max: usize)
    requires
        max >= 2,
    ensures
        leading_messages(PINGRESP_BYTES@ + rest, max) == leading_messages(rest, max),
{
    reveal(leading_messages);
    pings_are_read_back(rest, max);
    assert((PINGRESP_BYTES@ + rest).skip(2) =~= rest);
}

/// A message that arrives while an acknowledgement is waited for, and for which there is
/// room, is held as it was sent, behind the others. At QoS 1 its acknowledgement is asked to
/// be sent, and after that, as at once at QoS 0, the wait goes on. Where there is no room the
/// session ends.
///
/// A broker that does not even accept the four bytes of a PUBACK packet is left out.
pub proof fn message_during_a_wait_is_held_and_acknowledged(
    s: SessionView,
    message: PublishPacketView,
)
    requires
        s.connected,
        s.awaits_ack(),
        s.max_outbound >= 4,
        is_acknowledgeable(message),
    ensures
        ({
            let (t, step) = s.handle(PacketView::Publish(message));
            if s.incoming.len() < s.max_incoming {
                &&& t.connected
                &&& t.goal == s.goal
                &&& t.incoming.len() == s.incoming.len() + 1
                &&& t.incoming.last() == message
                &&& t.incoming.drop_last() == s.incoming
                &&& match message.qos {
                    QoS::AtMostOnce => step is None,
                    QoS::AtLeastOnce => {
                        &&& step matches Some(StepView::Send(bytes)) && acknowledges(
                            bytes,
                            message,
                        )
                        &&& t.sending == Sending::PubAck
                    },
                }
            } else {
                &&& !t.connected
                &&& t.incoming == s.incoming
                &&& step == Some(StepView::Done(Err(Error::QueueFull("incoming message"))))
            }
        }),
{
    reveal(SessionView::handle);
    if message.qos == QoS::AtLeastOnce {
        acknowledgement_is_heard(message);
    }
    assert(s.incoming.push(message).drop_last() =~= s.incoming);
}

} // verus!
