//! How the driver gets on: what leaves and in which order, who is told that it has left, how
//! long the driver sleeps, and how the connection ends.
use vstd::prelude::*;

use crate::async_client::model::{
    ack_failures, flush_failures, frame_failures, less, request_failures, wait_for_acks,
    wait_for_requests, AckView, DriverView, FrameView, RequestView, WrittenAction,
};
use crate::async_client::wire::message_is_delivered_and_acknowledged;
use crate::async_client::{DisconnectReason, EventView, NoticeView, OutcomeView, PublishAck};
use crate::codec::publish::encoded_publish;
use crate::codec::types::{DisconnectPacket, PacketView, PublishPacketView, QoS};
use crate::error::Error;
use crate::frame::publish_is_read_back;

verus! {

/// The bytes that the transport has not accepted yet, in the order in which it gets them.
pub open spec fn unwritten(frames: Seq<FrameView>) -> Seq<u8>
    decreases frames.len(),
{
    if frames.len() == 0 {
        Seq::empty()
    } else {
        frames[0].bytes.skip(frames[0].offset as int) + unwritten(frames.skip(1))
    }
}

proof fn queued_behind(frames: Seq<FrameView>, frame: FrameView)
    ensures
        unwritten(frames.push(frame)) == unwritten(frames) + frame.bytes.skip(
            frame.offset as int,
        ),
    decreases frames.len(),
{
    reveal_with_fuel(unwritten, 2);
    let more = frames.push(frame);
    if frames.len() == 0 {
        assert(more.skip(1) =~= frames);
        assert(unwritten(more) =~= frame.bytes.skip(frame.offset as int));
        assert(unwritten(frames) + frame.bytes.skip(frame.offset as int) =~= frame.bytes.skip(
            frame.offset as int,
        ));
    } else {
        queued_behind(frames.skip(1), frame);
        assert(more.skip(1) =~= frames.skip(1).push(frame));
        assert(unwritten(more) =~= unwritten(frames) + frame.bytes.skip(frame.offset as int));
    }
}

/// A frame that is queued goes out behind all that was queued before it, byte for byte.
pub proof fn queued_bytes_go_out_last(
    s: DriverView,
    bytes: Seq<u8>,
    action: WrittenAction,
    correlation: Option<Seq<u8>>,
)
    ensures
        ({
            let (t, r) = s.enqueue(bytes, action, correlation);
            let fits = bytes.len() <= s.peer_max_packet_size && s.outbound_bytes + bytes.len()
                <= s.max_outbound_queue_bytes;
            &&& r is Ok <==> fits
            &&& fits ==> unwritten(t.outbound) == unwritten(s.outbound) + bytes
            &&& !fits ==> t == s
        }),
{
    queued_behind(s.outbound, FrameView { bytes, offset: 0, action, correlation });
    assert(bytes.skip(0) =~= bytes);
}

/// What the transport accepts leaves at the front of what was to be written, and the rest is
/// written after it: no byte is left out, repeated or moved.
pub proof fn accepted_bytes_leave_first(s: DriverView, written: usize, now: int)
    requires
        s.inv(),
        s.outbound.len() > 0,
        0 < written <= s.outbound[0].bytes.len() - s.outbound[0].offset,
    ensures
        ({
            let t = s.advanced(written, now);
            &&& unwritten(t.outbound) == unwritten(s.outbound).skip(written as int)
            &&& t.last_write_at == now
            &&& t.needs_flush
            &&& t.acks == s.acks
            &&& t.requests == s.requests
        }),
{
    let front = s.outbound[0];
    let t = s.advanced(written, now);
    let left = front.bytes.skip(front.offset as int);
    let behind = unwritten(s.outbound.skip(1));
    assert(unwritten(s.outbound) == left + behind);
    if front.offset + written == front.bytes.len() {
        assert((left + behind).skip(written as int) =~= behind);
    } else {
        assert(t.outbound.skip(1) =~= s.outbound.skip(1));
        assert(front.bytes.skip(front.offset + written) =~= left.skip(written as int));
        assert((left + behind).skip(written as int) =~= left.skip(written as int) + behind);
    }
}

proof fn said_in_either(first: Seq<NoticeView>, second: Seq<NoticeView>, notice: NoticeView)
    ensures
        (first + second).contains(notice) <==> first.contains(notice) || second.contains(notice),
{
    let both = first + second;
    if first.contains(notice) {
        let k = choose|k: int| 0 <= k < first.len() && first[k] == notice;
        assert(both[k] == notice);
    }
    if second.contains(notice) {
        let k = choose|k: int| 0 <= k < second.len() && second[k] == notice;
        assert(both[first.len() + k] == notice);
    }
    if both.contains(notice) {
        let k = choose|k: int| 0 <= k < both.len() && both[k] == notice;
        if k < first.len() {
            assert(first[k] == notice);
        } else {
            assert(second[k - first.len()] == notice);
        }
    }
}

/// The notice that a publish at QoS 0 has left.
pub open spec fn has_left(ticket: u64) -> NoticeView {
    NoticeView::Complete {
        ticket,
        outcome: OutcomeView::Published(Ok(PublishAck { packet_id: None, reason_code: None })),
    }
}

/// The notice that the goodbye of a client has left.
pub open spec fn said_goodbye(ticket: u64) -> NoticeView {
    NoticeView::Complete { ticket, outcome: OutcomeView::Disconnected(Ok(())) }
}

/// Whether a frame with this action that has left makes the driver say this.
pub open spec fn is_told(action: WrittenAction, notice: NoticeView) -> bool {
    match action {
        WrittenAction::PublishQos0 { ticket } => notice == has_left(ticket),
        WrittenAction::Disconnect { ticket } => notice == said_goodbye(ticket) || notice
            == NoticeView::Event(EventView::Disconnected(DisconnectReason::ClientInitiated)),
        _ => false,
    }
}

/// Once the transport was flushed, exactly those are told whose packets it had accepted: a
/// publish at QoS 0 is done, and so is a disconnect, with the event that the client ended the
/// connection. A ping that has left is unanswered from then on.
pub proof fn flush_tells_who_waited(s: DriverView, now: int, notice: NoticeView)
    ensures
        ({
            let (t, says) = s.flushed(now);
            let actions = s.flush_actions;
            &&& says.contains(notice) <==> exists|i: int|
                0 <= i < actions.len() && is_told(#[trigger] actions[i].action, notice)
            &&& t.outbound == s.outbound
            &&& t.acks == s.acks
            &&& t.requests == s.requests
            &&& t.flush_actions.len() == 0
            &&& !t.needs_flush
            &&& t.ping_since == (if exists|i: int|
                0 <= i < actions.len() && #[trigger] actions[i].action == WrittenAction::PingReq {
                Some(now)
            } else {
                s.ping_since
            })
        }),
    decreases s.flush_actions.len(),
{
    let actions = s.flush_actions;
    if actions.len() > 0 {
        let flush = actions[0];
        let popped = DriverView {
            flush_actions: actions.skip(1),
            outbound_bytes: less(s.outbound_bytes, flush.bytes as int),
            ..s
        };
        let (done, first) = popped.complete_written(flush.action, now);
        let (t, rest) = done.flushed(now);
        flush_tells_who_waited(done, now, notice);
        said_in_either(first, rest, notice);
        let others = done.flush_actions;
        assert(others =~= actions.skip(1));
        assert forall|i: int| 0 <= i < others.len() implies (#[trigger] others[i]) == actions[i
            + 1] by {}
        assert forall|i: int| 1 <= i < actions.len() implies (#[trigger] actions[i]) == others[i
            - 1] by {}
        match flush.action {
            WrittenAction::PublishQos0 { ticket } => {
                assert(first[0] == has_left(ticket));
                assert(first.contains(notice) <==> notice == has_left(ticket)) by {
                    assert(first =~= seq![has_left(ticket)]);
                }
            },
            WrittenAction::Disconnect { ticket } => {
                let down = NoticeView::Event(
                    EventView::Disconnected(DisconnectReason::ClientInitiated),
                );
                assert(first =~= seq![said_goodbye(ticket), down]);
                assert(first[0] == said_goodbye(ticket));
                assert(first[1] == down);
            },
            _ => {
                assert(first.len() == 0);
            },
        }
        assert(first.contains(notice) <==> is_told(actions[0].action, notice));
    }
}

/// Whether the driver, asleep for this long from now on, wakes up by this time, or at once
/// where it is past.
pub open spec fn wakes_by(wait: int, now: int, at: int) -> bool {
    now + wait <= at || wait == 0
}

proof fn acks_wake(acks: Seq<AckView>, n: nat, wait: int, now: int)
    requires
        n <= acks.len(),
        wait >= 0,
    ensures
        0 <= wait_for_acks(acks, n, wait, now) <= wait,
        forall|i: int|
            0 <= i < n ==> wakes_by(
                wait_for_acks(acks, n, wait, now),
                now,
                (#[trigger] acks[i]).deadline,
            ),
        wait_for_acks(acks, n, wait, now) == wait || exists|i: int|
            0 <= i < n && wait_for_acks(acks, n, wait, now) == (if (
            #[trigger] acks[i]).deadline >= now {
                acks[i].deadline - now
            } else {
                0
            }),
    decreases n,
{
    if n > 0 {
        acks_wake(acks, (n - 1) as nat, wait, now);
        assert(acks[n - 1].deadline == acks[n - 1].deadline);
    }
}

proof fn requests_wake(requests: Seq<RequestView>, n: nat, wait: int, now: int)
    requires
        n <= requests.len(),
        wait >= 0,
    ensures
        0 <= wait_for_requests(requests, n, wait, now) <= wait,
        forall|i: int|
            0 <= i < n ==> wakes_by(
                wait_for_requests(requests, n, wait, now),
                now,
                (#[trigger] requests[i]).deadline,
            ),
        wait_for_requests(requests, n, wait, now) == wait || exists|i: int|
            0 <= i < n && wait_for_requests(requests, n, wait, now) == (if (
            #[trigger] requests[i]).deadline >= now {
                requests[i].deadline - now
            } else {
                0
            }),
    decreases n,
{
    if n > 0 {
        requests_wake(requests, (n - 1) as nat, wait, now);
        assert(requests[n - 1].deadline == requests[n - 1].deadline);
    }
}

/// The driver sleeps no longer than its poll interval, and wakes up by every deadline: of an
/// acknowledgement, of a request, and of the answer to a ping or the next ping. Where nothing
/// of this kind is due within the poll interval, it sleeps for all of it.
pub proof fn driver_wakes_up_in_time(s: DriverView, now: int)
    requires
        s.poll_interval >= 0,
    ensures
        ({
            let wait = s.next_wait(now);
            let second = 1_000_000_000int;
            let half = if s.keep_alive_secs >= 2 {
                s.keep_alive_secs as int / 2
            } else {
                1
            };
            let calm = now + s.poll_interval;
            &&& 0 <= wait <= s.poll_interval
            &&& forall|i: int|
                0 <= i < s.acks.len() ==> wakes_by(wait, now, (#[trigger] s.acks[i]).deadline)
            &&& forall|i: int|
                0 <= i < s.requests.len() ==> wakes_by(
                    wait,
                    now,
                    (#[trigger] s.requests[i]).deadline,
                )
            &&& s.keep_alive_secs > 0 && (s.ping_since matches Some(at)) ==> wakes_by(
                wait,
                now,
                s.ping_since->Some_0 + s.keep_alive_secs * second,
            )
            &&& s.keep_alive_secs > 0 && s.ping_since is None && !s.ping_queued ==> wakes_by(
                wait,
                now,
                s.last_write_at + half * second,
            )
            &&& (forall|i: int|
                0 <= i < s.acks.len() ==> (#[trigger] s.acks[i]).deadline >= calm) && (forall|
                i: int,
            |
                0 <= i < s.requests.len() ==> (#[trigger] s.requests[i]).deadline >= calm) && (
            s.keep_alive_secs > 0 ==> match s.ping_since {
                Some(at) => at + s.keep_alive_secs * second >= calm,
                None => s.ping_queued || s.last_write_at + half * second >= calm,
            }) ==> wait == s.poll_interval
        }),
{
    acks_wake(s.acks, s.acks.len(), s.poll_interval, now);
    let first = wait_for_acks(s.acks, s.acks.len(), s.poll_interval, now);
    requests_wake(s.requests, s.requests.len(), first, now);
}

/// Whether nobody is told of anything but that the connection is gone.
pub open spec fn tells_of_the_end(says: Seq<NoticeView>) -> bool {
    forall|k: int|
        0 <= k < says.len() ==> match #[trigger] says[k] {
            NoticeView::Complete { outcome, .. } => {
                ||| outcome == OutcomeView::Published(Err(Error::ConnectionClosed))
                ||| outcome == OutcomeView::Subscribed(Err(Error::ConnectionClosed))
                ||| outcome == OutcomeView::Disconnected(Err(Error::ConnectionClosed))
                ||| outcome == OutcomeView::Response(Err(Error::ConnectionClosed))
            },
            NoticeView::Released(_) => true,
            NoticeView::Event(_) => false,
        }
}

proof fn ends_join(first: Seq<NoticeView>, second: Seq<NoticeView>)
    requires
        tells_of_the_end(first),
        tells_of_the_end(second),
    ensures
        tells_of_the_end(first + second),
{
    let both = first + second;
    assert forall|k: int| 0 <= k < both.len() implies match #[trigger] both[k] {
        NoticeView::Complete { outcome, .. } => {
            ||| outcome == OutcomeView::Published(Err(Error::ConnectionClosed))
            ||| outcome == OutcomeView::Subscribed(Err(Error::ConnectionClosed))
            ||| outcome == OutcomeView::Disconnected(Err(Error::ConnectionClosed))
            ||| outcome == OutcomeView::Response(Err(Error::ConnectionClosed))
        },
        NoticeView::Released(_) => true,
        NoticeView::Event(_) => false,
    } by {
        if k < first.len() {
            assert(both[k] == first[k]);
        } else {
            assert(both[k] == second[k - first.len()]);
        }
    }
}

proof fn failures_tell_of_the_end(s: DriverView, n: nat)
    ensures
        n <= s.acks.len() ==> tells_of_the_end(ack_failures(s.acks, n)),
        n <= s.outbound.len() ==> tells_of_the_end(frame_failures(s.outbound, n)),
        n <= s.flush_actions.len() ==> tells_of_the_end(flush_failures(s.flush_actions, n)),
        n <= s.requests.len() ==> tells_of_the_end(request_failures(s.requests, n)),
    decreases n,
{
    if n > 0 {
        let m = (n - 1) as nat;
        failures_tell_of_the_end(s, m);
        let gone = Error::ConnectionClosed;
        if n <= s.acks.len() {
            ends_join(ack_failures(s.acks, m), s.acks[n - 1].kind.failure(gone));
        }
        if n <= s.outbound.len() {
            ends_join(frame_failures(s.outbound, m), s.outbound[n - 1].action.failure(gone));
        }
        if n <= s.flush_actions.len() {
            ends_join(
                flush_failures(s.flush_actions, m),
                s.flush_actions[n - 1].action.failure(gone),
            );
        }
        if n <= s.requests.len() {
            ends_join(
                request_failures(s.requests, m),
                seq![
                    NoticeView::Released(s.requests[n - 1].correlation),
                    NoticeView::Complete {
                        ticket: s.requests[n - 1].ticket,
                        outcome: OutcomeView::Response(Err(gone)),
                    },
                ],
            );
        }
    }
}

/// At the end of a connection everybody who waits is told that it is gone, and nothing waits
/// any more, in the queue or out of it.
pub proof fn end_leaves_nothing(s: DriverView)
    ensures
        ({
            let (t, says) = s.fail_pending();
            &&& tells_of_the_end(says)
            &&& t.acks.len() == 0
            &&& t.outbound.len() == 0
            &&& t.flush_actions.len() == 0
            &&& t.requests.len() == 0
            &&& t.outbound_bytes == 0
        }),
{
    failures_tell_of_the_end(s, s.acks.len());
    failures_tell_of_the_end(s, s.outbound.len());
    failures_tell_of_the_end(s, s.flush_actions.len());
    failures_tell_of_the_end(s, s.requests.len());
    let a = ack_failures(s.acks, s.acks.len());
    let b = frame_failures(s.outbound, s.outbound.len());
    let c = flush_failures(s.flush_actions, s.flush_actions.len());
    let d = request_failures(s.requests, s.requests.len());
    ends_join(a, b);
    ends_join(a + b, c);
    ends_join(a + b + c, d);
}

/// A broker that says goodbye ends the connection: everybody who waits is told so, the last
/// thing that is said is the event with the broker's reason code, and no other event about
/// the end follows.
pub proof fn server_disconnect_ends_the_connection(
    s: DriverView,
    disconnect: DisconnectPacket,
    now: int,
)
    ensures
        ({
            let (t, says, r) = s.dispatch_packet(PacketView::Disconnect(disconnect), now);
            &&& r == Err::<Option<PublishPacketView>, Error>(
                Error::ServerDisconnected(disconnect.reason_code),
            )
            &&& says.len() > 0
            &&& says.last() == NoticeView::Event(
                EventView::Disconnected(DisconnectReason::Server(disconnect.reason_code)),
            )
            &&& tells_of_the_end(says.drop_last())
            &&& t.terminal_event_sent
            &&& t.acks.len() == 0
            &&& t.requests.len() == 0
            &&& t.outbound.len() == 0
        }),
{
    end_leaves_nothing(s);
    let says = s.dispatch_packet(PacketView::Disconnect(disconnect), now).1;
    assert(says.drop_last() =~= s.fail_pending().1);
}

/// The answer to a ping lets the connection go on, and a packet that no broker may send is an
/// error that changes nothing.
pub proof fn other_packets_change_nothing(s: DriverView, packet: PacketView, now: int)
    requires
        packet is PingResp || packet is PingReq || packet is ConnAck || packet is Connect
            || packet is Subscribe || packet is Unsubscribe,
    ensures
        ({
            let (t, says, r) = s.dispatch_packet(packet, now);
            &&& says.len() == 0
            &&& packet is PingResp ==> r == Ok::<Option<PublishPacketView>, Error>(None) && t == (
            DriverView { ping_since: None, ..s })
            &&& !(packet is PingResp) ==> t == s && (r matches Err(Error::UnexpectedPacket(_)))
        }),
{
}

/// A message that has arrived, and answers no request, is handed out for delivery as it was
/// sent, and what the broker has sent behind it is still to be read.
pub proof fn arrived_message_is_handed_out(
    s: DriverView,
    message: PublishPacketView,
    rest: Seq<u8>,
    now: int,
)
    requires
        s.inv(),
        s.reader.overflow is None,
        encoded_publish(message) matches Ok(bytes) && bytes.len() <= s.reader.max && s.reader.buf
            == bytes + rest,
        s.answered(message) is None,
    ensures
        ({
            let (t, says, r) = s.drain_packets(now);
            &&& r is Ok ==> {
                &&& r == Ok::<Option<PublishPacketView>, Error>(Some(message))
                &&& t.reader.buf == rest
                &&& says.len() == 0
            }
            &&& message.qos == QoS::AtMostOnce ==> r is Ok
        }),
{
    reveal(DriverView::drain_one);
    reveal_with_fuel(DriverView::drain_packets, 2);
    publish_is_read_back(message, rest, s.reader.max);
    let w = DriverView { reader: s.reader.after_next(), ..s };
    let bytes = encoded_publish(message)->Ok_0;
    assert((bytes + rest).skip(bytes.len() as int) =~= rest);
    assert(w.answered(message) is None);
    message_is_delivered_and_acknowledged(w, message, now);
}

} // verus!
