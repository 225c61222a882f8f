//! What becomes of the messages that arrive while the blocking client waits.
use vstd::prelude::*;

use crate::client::model::{Sending, SessionView, StepView, Turn};
use crate::codec::publish::encoded_publish;
use crate::codec::types::{PacketView, PublishPacketView, QoS};
use crate::error::{Error, IoError};
use crate::frame::{frame_is_final, frame_of, header_len_bounds, publish_is_read_back, Frame};
use crate::options::PublishOptionsView;

verus! {

/// An operation that waits for an acknowledgement.
pub enum OperationView {
    /// A publish with QoS 1.
    Publish { topic: Seq<char>, payload: Seq<u8>, options: PublishOptionsView },
    Subscribe { filter: Seq<char>, qos: QoS },
    Unsubscribe { filter: Seq<char> },
}

/// What is reported to a session of the step that it asked for.
pub enum ReportView {
    Sent { written: core::result::Result<(), IoError>, now: int },
    Received { read: core::result::Result<Seq<u8>, IoError>, now: int },
    TimeoutRefused { error: IoError },
}

impl ReportView {
    /// Whether this can be reported of a step.
    pub open spec fn fits(self, step: StepView) -> bool {
        match self {
            ReportView::Sent { .. } => step is Send,
            ReportView::Received { .. } | ReportView::TimeoutRefused { .. } => step is Read,
        }
    }

    /// The bytes that came from the broker.
    pub open spec fn data(self) -> Seq<u8> {
        match self {
            ReportView::Received { read: Ok(data), .. } => data,
            _ => Seq::empty(),
        }
    }
}

/// The bytes that came from the broker, over all reports.
pub open spec fn arrived(reports: Seq<ReportView>) -> Seq<u8>
    decreases reports.len(),
{
    if reports.len() == 0 {
        Seq::empty()
    } else {
        reports[0].data() + arrived(reports.drop_first())
    }
}

impl SessionView {
    /// Start an operation.
    pub open spec fn begin(self, operation: OperationView) -> Turn {
        match operation {
            OperationView::Publish { topic, payload, options } => self.begin_publish(
                topic,
                payload,
                options,
            ),
            OperationView::Subscribe { filter, qos } => self.begin_subscribe(filter, qos),
            OperationView::Unsubscribe { filter } => self.begin_unsubscribe(filter),
        }
    }

    /// What follows from a report.
    pub open spec fn heard(self, report: ReportView) -> Turn {
        match report {
            ReportView::Sent { written, now } => self.sent(written, now),
            ReportView::Received { read, now } => self.received(read, now),
            ReportView::TimeoutRefused { error } => self.closed(Error::Io(error)),
        }
    }

    /// Whether each report is one of the step that was asked for by then, the first one
    /// of `step`.
    pub open spec fn asked_for(self, step: StepView, reports: Seq<ReportView>) -> bool
        decreases reports.len(),
    {
        reports.len() > 0 ==> {
            let (t, next) = self.heard(reports[0]);
            &&& reports[0].fits(step)
            &&& t.asked_for(next, reports.drop_first())
        }
    }

    /// Where the reports lead to, from a session that asked for `step`.
    pub open spec fn run(self, step: StepView, reports: Seq<ReportView>) -> Turn
        decreases reports.len(),
    {
        if reports.len() == 0 {
            (self, step)
        } else {
            let (t, next) = self.heard(reports[0]);
            t.run(next, reports.drop_first())
        }
    }

    /// The session after messages were received at these times.
    pub open spec fn after_receives(self, times: Seq<int>) -> SessionView
        decreases times.len(),
    {
        if times.len() == 0 {
            self
        } else {
            self.after_receives(times.drop_last()).begin_receive(times.last()).0
        }
    }

    /// Whether an acknowledgement is waited for, and `step` is one on the way to it.
    pub open spec fn waits_at(self, step: StepView) -> bool {
        &&& self.connected
        &&& self.awaits_ack()
        &&& match step {
            StepView::Send(_) => {
                ||| self.sending == Sending::Publish
                ||| self.sending == Sending::Subscribe
                ||| self.sending == Sending::Unsubscribe
                ||| self.sending == Sending::PubAck
                ||| self.sending == Sending::Ping
            },
            StepView::Read { .. } => self.sending == Sending::Nothing,
            StepView::Done(_) => false,
        }
    }
}

/// The messages at the front of what the broker sends, up to the first packet that is
/// neither a message nor a PINGRESP.
#[verifier::opaque]
pub open spec fn leading_messages(stream: Seq<u8>, max: usize) -> Seq<PublishPacketView>
    decreases stream.len(),
{
    match frame_of(stream, max) {
        Frame::Complete(packet, len) => {
            proof {
                header_len_bounds(stream);
            }
            match packet {
                PacketView::Publish(message) => seq![message] + leading_messages(
                    stream.skip(len),
                    max,
                ),
                PacketView::PingResp => leading_messages(stream.skip(len), max),
                _ => Seq::empty(),
            }
        },
        _ => Seq::empty(),
    }
}

/// Messages on the wire, one behind the other.
pub open spec fn encoded_messages(messages: Seq<PublishPacketView>) -> Seq<u8>
    decreases messages.len(),
{
    if messages.len() == 0 {
        Seq::empty()
    } else {
        encoded_publish(messages[0])->Ok_0 + encoded_messages(messages.drop_first())
    }
}

proof fn encoded_message_leads(message: PublishPacketView, rest: Seq<u8>, max: usize)
    requires
        encoded_publish(message) matches Ok(bytes) && bytes.len() <= max,
    ensures
        leading_messages(encoded_publish(message)->Ok_0 + rest, max) == seq![message]
            + leading_messages(rest, max),
{
    reveal(leading_messages);
    publish_is_read_back(message, rest, max);
}

/// Messages that were encoded are found at the front of the stream as they were, in order,
/// and before whatever follows them.
pub proof fn encoded_messages_lead(messages: Seq<PublishPacketView>, rest: Seq<u8>, max: usize)
    requires
        forall|i: int|
            0 <= i < messages.len() ==> (encoded_publish(#[trigger] messages[i]) matches Ok(bytes)
                && bytes.len() <= max),
    ensures
        leading_messages(encoded_messages(messages) + rest, max) == messages + leading_messages(
            rest,
            max,
        ),
    decreases messages.len(),
{
    if messages.len() == 0 {
        assert(encoded_messages(messages) + rest =~= rest);
        assert(messages + leading_messages(rest, max) =~= leading_messages(rest, max));
    } else {
        let others = messages.drop_first();
        let first = encoded_publish(messages[0])->Ok_0;
        let behind = encoded_messages(others) + rest;
        assert forall|i: int| 0 <= i < others.len() implies (encoded_publish(
            #[trigger] others[i],
        ) matches Ok(bytes) && bytes.len() <= max) by {
            assert(others[i] == messages[i + 1]);
        }
        encoded_messages_lead(others, rest, max);
        encoded_message_leads(messages[0], behind, max);
        assert(encoded_messages(messages) + rest =~= first + behind);
        assert(messages + leading_messages(rest, max) =~= seq![messages[0]] + (others
            + leading_messages(rest, max)));
    }
}

/// What a packet that arrives during a wait leads to.
proof fn packet_goes_on_or_ends(s: SessionView, packet: PacketView)
    requires
        s.waits_at(StepView::Read { timeout: None, max: 0 }),
    ensures
        ({
            let (t, step) = s.handle(packet);
            &&& step matches Some(StepView::Done(Ok(r))) ==> r is None && t.connected
                && t.incoming == s.incoming && !(packet is Publish) && !(packet is PingResp)
            &&& !(step matches Some(StepView::Done(_))) ==> {
                &&& t.reader == s.reader
                &&& step is None ==> t.waits_at(StepView::Read { timeout: None, max: 0 })
                &&& step matches Some(next) ==> t.waits_at(next)
                &&& match packet {
                    PacketView::Publish(message) => t.incoming == s.incoming.push(message),
                    PacketView::PingResp => t.incoming == s.incoming,
                    _ => false,
                }
            }
        }),
{
    reveal(SessionView::handle);
}

/// Taking in what has arrived puts the leading messages behind those that are held, and
/// leaves the others at the front of what is still to be taken in.
proof fn advance_takes_messages(s: SessionView, now: int, later: Seq<u8>)
    requires
        s.waits_at(StepView::Read { timeout: None, max: 0 }),
    ensures
        takes_messages(s, Seq::empty(), s.advance(now), later),
    decreases s.reader.buf.len(),
{
    reveal(leading_messages);
    let buf = s.reader.buf;
    let max = s.reader.max;
    let rest = s.reader.after_next();
    let w = SessionView { reader: rest, ..s };
    assert(buf + (Seq::<u8>::empty() + later) =~= buf + later);
    if let Ok(Some(packet)) = s.reader.next_packet() {
        header_len_bounds(buf);
        frame_is_final(buf, later, max);
        let len = frame_of(buf, max)->Complete_1;
        assert((buf + later).skip(len) =~= rest.buf + later);
        packet_goes_on_or_ends(w, packet);
        let (t, step) = w.handle(packet);
        let behind = leading_messages(rest.buf + later, max);
        if let PacketView::Publish(message) = packet {
            assert(s.incoming + (seq![message] + behind) =~= s.incoming.push(message) + behind);
        }
        if step is None {
            let u = SessionView { reader: rest, ..t };
            advance_takes_messages(u, now, later);
            assert(rest.buf + (Seq::<u8>::empty() + later) =~= rest.buf + later);
        } else {
            assert(s.incoming + Seq::<PublishPacketView>::empty() =~= s.incoming);
        }
    }
}

/// Whether a turn has put the leading messages behind those that were held: all of them
/// where the wait is over, else as many as have arrived, and the others are still at the
/// front.
spec fn takes_messages(s: SessionView, data: Seq<u8>, turn: Turn, later: Seq<u8>) -> bool {
    let (t, step) = turn;
    let leading = leading_messages(s.reader.buf + (data + later), s.reader.max);
    match step {
        StepView::Done(Err(_)) => true,
        StepView::Done(Ok(r)) => {
            &&& r is None
            &&& t.connected
            &&& t.incoming == s.incoming + leading
        },
        _ => {
            &&& t.waits_at(step)
            &&& t.reader.max == s.reader.max
            &&& s.incoming + leading == t.incoming + leading_messages(
                t.reader.buf + later,
                t.reader.max,
            )
        },
    }
}

proof fn report_takes_messages(
    s: SessionView,
    step: StepView,
    report: ReportView,
    later: Seq<u8>,
)
    requires
        s.waits_at(step),
        report.fits(step),
    ensures
        takes_messages(s, report.data(), s.heard(report), later),
{
    let buf = s.reader.buf;
    assert(buf + (Seq::<u8>::empty() + later) =~= buf + later);
    match report {
        ReportView::Sent { written, now } => {
            if written is Ok {
                let t = SessionView { last_write_at: now, sending: Sending::Nothing, ..s };
                match s.sending {
                    Sending::PubAck => {
                        advance_takes_messages(t, now, later);
                    },
                    Sending::Publish | Sending::Subscribe | Sending::Unsubscribe => {
                        let name = s.sending.spec_awaits()->Some_0;
                        let at = now + t.ack_timeout;
                        advance_takes_messages(
                            SessionView { deadline: Some((at, name)), ..t },
                            now,
                            later,
                        );
                    },
                    _ => {},
                }
            }
        },
        ReportView::Received { read, now } => {
            match read {
                Ok(data) => {
                    let t = SessionView { reader: s.reader.pushed(data), ..s };
                    advance_takes_messages(t, now, later);
                    if data.len() <= s.reader.room() {
                        assert(buf + data + (Seq::<u8>::empty() + later) =~= buf + (data + later));
                    }
                },
                Err(_) => {
                    advance_takes_messages(s, now, later);
                },
            }
        },
        ReportView::TimeoutRefused { .. } => {},
    }
}

proof fn run_takes_messages(s: SessionView, step: StepView, reports: Seq<ReportView>)
    requires
        s.waits_at(step),
        s.asked_for(step, reports),
        s.run(step, reports).1 matches StepView::Done(Ok(_)),
    ensures
        s.run(step, reports).1 == StepView::Done(Ok(None)),
        s.run(step, reports).0.connected,
        s.run(step, reports).0.incoming == s.incoming + leading_messages(
            s.reader.buf + arrived(reports),
            s.reader.max,
        ),
    decreases reports.len(),
{
    reveal_with_fuel(SessionView::asked_for, 2);
    reveal_with_fuel(SessionView::run, 2);
    assert(reports.len() > 0);
    let rest = reports.drop_first();
    report_takes_messages(s, step, reports[0], arrived(rest));
    let (t, next) = s.heard(reports[0]);
    if next is Done {
        assert(rest.len() == 0);
    } else {
        run_takes_messages(t, next, rest);
    }
}

proof fn receives_take_the_front(s: SessionView, times: Seq<int>)
    requires
        s.connected,
        times.len() <= s.incoming.len(),
    ensures
        s.after_receives(times).connected,
        s.after_receives(times).incoming == s.incoming.skip(times.len() as int),
    decreases times.len(),
{
    if times.len() == 0 {
        assert(s.incoming.skip(0) =~= s.incoming);
    } else {
        receives_take_the_front(s, times.drop_last());
        assert(s.incoming.skip(times.len() - 1).drop_first() =~= s.incoming.skip(
            times.len() as int,
        ));
    }
}

/// The messages that arrive before the acknowledgement of an operation stand behind those
/// that were held, in the order of their arrival. The calls that receive them hand them
/// out in this order, each at once: none is discarded, reordered or repeated, and nothing
/// is read for them.
///
/// This holds however what the broker sends is cut into reads, and whatever has to be sent
/// meanwhile.
pub proof fn messages_come_out_in_order(
    s: SessionView,
    operation: OperationView,
    reports: Seq<ReportView>,
    times: Seq<int>,
    i: int,
)
    requires
        s.connected,
        operation matches OperationView::Publish { options, .. } ==> options.qos
            == QoS::AtLeastOnce,
        s.begin(operation).0.asked_for(s.begin(operation).1, reports),
        s.begin(operation).0.run(s.begin(operation).1, reports).1 matches StepView::Done(Ok(_)),
        0 <= i < times.len() <= s.incoming.len() + leading_messages(
            s.reader.buf + arrived(reports),
            s.reader.max,
        ).len(),
    ensures
        ({
            let after = s.begin(operation).0.run(s.begin(operation).1, reports).0;
            let messages = s.incoming + leading_messages(
                s.reader.buf + arrived(reports),
                s.reader.max,
            );
            &&& after.connected
            &&& after.incoming == messages
            &&& after.after_receives(times.take(i)).begin_receive(times[i]).1 == StepView::Done(
                Ok(Some(messages[i])),
            )
        }),
{
    let (t, step) = s.begin(operation);
    run_takes_messages(t, step, reports);
    let after = t.run(step, reports).0;
    receives_take_the_front(after, times.take(i));
}

/// Messages that the broker sends before the packet that acknowledges an operation come out
/// of as many calls that receive, as they were and in the order in which they were sent.
pub proof fn sent_messages_come_out_in_order(
    s: SessionView,
    operation: OperationView,
    reports: Seq<ReportView>,
    messages: Seq<PublishPacketView>,
    rest: Seq<u8>,
    times: Seq<int>,
    i: int,
)
    requires
        s.connected,
        s.incoming.len() == 0,
        operation matches OperationView::Publish { options, .. } ==> options.qos
            == QoS::AtLeastOnce,
        s.begin(operation).0.asked_for(s.begin(operation).1, reports),
        s.begin(operation).0.run(s.begin(operation).1, reports).1 matches StepView::Done(Ok(_)),
        forall|j: int|
            0 <= j < messages.len() ==> (encoded_publish(#[trigger] messages[j]) matches Ok(bytes)
                && bytes.len() <= s.reader.max),
        s.reader.buf + arrived(reports) == encoded_messages(messages) + rest,
        frame_of(rest, s.reader.max) matches Frame::Complete(packet, _) && !(packet is Publish)
            && !(packet is PingResp),
        0 <= i < times.len() == messages.len(),
    ensures
        ({
            let after = s.begin(operation).0.run(s.begin(operation).1, reports).0;
            &&& after.incoming == messages
            &&& after.after_receives(times.take(i)).begin_receive(times[i]).1 == StepView::Done(
                Ok(Some(messages[i])),
            )
        }),
{
    assert(leading_messages(rest, s.reader.max).len() == 0) by {
        reveal(leading_messages);
    }
    encoded_messages_lead(messages, rest, s.reader.max);
    assert(s.incoming + (messages + leading_messages(rest, s.reader.max)) =~= messages);
    messages_come_out_in_order(s, operation, reports, times, i);
}

} // verus!
