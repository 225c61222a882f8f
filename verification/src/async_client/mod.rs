//! The async client: what its connection driver reports, and how the driver decides.
//!
//! The driver itself performs no I/O and reads no clock. Whoever runs it hands it
//! commands, what the transport returned and the time, and performs what it answers.
//! A waiting operation is known to the driver by its ticket.
pub mod admission;
pub mod answers;
pub mod driver;
pub mod expiry;
pub mod handshake;
pub mod laws;
pub mod lifecycle;
pub mod model;
pub mod progress;
pub mod requests;
pub mod wire;

use vstd::prelude::*;

use crate::codec::types::{AckCodesView, PublishPacket, PublishPacketView};
use crate::error::Result;

verus! {

/// Why an [`Event::Disconnected`] event was emitted.
#[derive(Debug, Clone, Copy, PartialEq, Eq, Structural)]
pub enum DisconnectReason {
    ClientInitiated,
    Server(u8),
    TransportClosed,
}

/// Unsolicited events emitted by the connection driver.
#[derive(Debug, PartialEq, Eq)]
pub enum Event {
    Publish(PublishPacket),
    Disconnected(DisconnectReason),
}

/// What an [`Event`] holds.
#[verifier::ext_equal]
pub enum EventView {
    Publish(PublishPacketView),
    Disconnected(DisconnectReason),
}

impl View for Event {
    type V = EventView;

    open spec fn view(&self) -> EventView {
        match *self {
            Event::Publish(packet) => EventView::Publish(packet@),
            Event::Disconnected(reason) => EventView::Disconnected(reason),
        }
    }
}

impl Clone for Event {
    fn clone(&self) -> (r: Self)
        ensures
            r@ == self@,
    {
        match self {
            Event::Publish(packet) => Event::Publish(packet.clone()),
            Event::Disconnected(reason) => Event::Disconnected(*reason),
        }
    }
}

/// Result of a completed outgoing publish.
#[derive(Debug, Clone, Copy, PartialEq, Eq, Structural)]
pub struct PublishAck {
    /// `None` for QoS 0, and the MQTT packet identifier for QoS 1.
    pub packet_id: Option<u16>,
    /// `None` for QoS 0, and the broker's PUBACK reason code for QoS 1.
    pub reason_code: Option<u8>,
}

/// Result of a completed subscription operation.
#[derive(Debug, PartialEq, Eq)]
pub struct SubscriptionAck {
    pub packet_id: u16,
    pub reason_codes: Vec<u8>,
}

impl View for SubscriptionAck {
    type V = AckCodesView;

    open spec fn view(&self) -> AckCodesView {
        AckCodesView { packet_id: self.packet_id, reason_codes: self.reason_codes@ }
    }
}

impl Clone for SubscriptionAck {
    fn clone(&self) -> (r: Self)
        ensures
            r@ == self@,
    {
        SubscriptionAck { packet_id: self.packet_id, reason_codes: self.reason_codes.clone() }
    }
}

/// How a waiting operation ended.
#[derive(Debug)]
pub enum Outcome {
    Published(Result<PublishAck>),
    Subscribed(Result<SubscriptionAck>),
    Disconnected(Result<()>),
    Response(Result<PublishPacket>),
}

/// What an [`Outcome`] holds.
#[verifier::ext_equal]
pub enum OutcomeView {
    Published(Result<PublishAck>),
    Subscribed(Result<AckCodesView>),
    Disconnected(Result<()>),
    Response(Result<PublishPacketView>),
}

impl View for Outcome {
    type V = OutcomeView;

    open spec fn view(&self) -> OutcomeView {
        match *self {
            Outcome::Published(r) => OutcomeView::Published(r),
            Outcome::Subscribed(Ok(ack)) => OutcomeView::Subscribed(Ok(ack@)),
            Outcome::Subscribed(Err(e)) => OutcomeView::Subscribed(Err(e)),
            Outcome::Disconnected(r) => OutcomeView::Disconnected(r),
            Outcome::Response(Ok(packet)) => OutcomeView::Response(Ok(packet@)),
            Outcome::Response(Err(e)) => OutcomeView::Response(Err(e)),
        }
    }
}

/// What the driver has to say to the outside.
#[derive(Debug)]
pub enum Notice {
    /// The operation with this ticket has ended.
    Complete { ticket: u64, outcome: Outcome },
    /// An event, dropped where nobody has room for it.
    Event(Event),
    /// The request with this correlation data is no longer pending.
    Released(Vec<u8>),
}

/// What a [`Notice`] holds.
#[verifier::ext_equal]
pub enum NoticeView {
    Complete { ticket: u64, outcome: OutcomeView },
    Event(EventView),
    Released(Seq<u8>),
}

impl View for Notice {
    type V = NoticeView;

    open spec fn view(&self) -> NoticeView {
        match *self {
            Notice::Complete { ticket, outcome } => NoticeView::Complete {
                ticket,
                outcome: outcome@,
            },
            Notice::Event(event) => NoticeView::Event(event@),
            Notice::Released(data) => NoticeView::Released(data@),
        }
    }
}

/// The notices of a step of the driver, in order.
#[derive(Debug)]
pub struct Outbox {
    notices: Vec<Notice>,
}

impl View for Outbox {
    type V = Seq<NoticeView>;

    closed spec fn view(&self) -> Seq<NoticeView> {
        Seq::new(self.notices@.len(), |i: int| self.notices@[i]@)
    }
}

impl Outbox {
    pub fn new() -> (r: Self)
        ensures
            r@ == Seq::<NoticeView>::empty(),
    {
        let r = Outbox { notices: Vec::new() };
        assert(r@ =~= Seq::empty());
        r
    }

    pub fn push(&mut self, notice: Notice)
        ensures
            final(self)@ == old(self)@.push(notice@),
    {
        self.notices.push(notice);
        assert(self@ =~= old(self)@.push(notice@));
    }

    /// Report how the operation with this ticket ended.
    pub fn complete(&mut self, ticket: u64, outcome: Outcome)
        ensures
            final(self)@ == old(self)@.push(NoticeView::Complete { ticket, outcome: outcome@ }),
    {
        self.push(Notice::Complete { ticket, outcome });
    }

    /// The notices.
    pub fn into_notices(self) -> (r: Vec<Notice>)
        ensures
            r@.len() == self@.len(),
            forall|i: int| 0 <= i < r@.len() ==> (#[trigger] r@[i])@ == self@[i],
    {
        self.notices
    }
}

} // verus!
