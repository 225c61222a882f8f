//! What becomes of operations that nobody answers: who is told, and that it is in time.
use vstd::prelude::*;

use crate::async_client::laws::{
    ack_position, bury_cancelled_keeps, expire_ack_keeps, fail_request_keeps,
    forgetting_spares_other_acks, remove_request_keeps, request_position, subscription_keeps,
};
use crate::async_client::model::{
    ack_from, bury_cancelled, is_unsent_request, overdue_acks, overdue_requests, request_from,
    requests_for, retained, AckKindView, AckView, DriverView, FrameView, RequestView,
};
use crate::async_client::requests::failing_spares_the_others;
use crate::async_client::{NoticeView, OutcomeView};
use crate::codec::types::QoS;
use crate::error::Error;

verus! {

/// What whoever waits for an acknowledgement is told when it is overdue.
pub open spec fn is_given_up(notice: NoticeView, ack: AckView) -> bool {
    match ack.kind {
        AckKindView::Publish { ticket } => notice == (NoticeView::Complete {
            ticket,
            outcome: OutcomeView::Published(Err(Error::Timeout(ack.label))),
        }),
        AckKindView::Subscribe { ticket, .. } | AckKindView::Unsubscribe { ticket, .. } => notice
            == (NoticeView::Complete {
            ticket,
            outcome: OutcomeView::Subscribed(Err(Error::Timeout(ack.label))),
        }),
        _ => false,
    }
}

/// Whether somebody says that an acknowledgement is given up.
pub open spec fn tells_given_up(says: Seq<NoticeView>, ack: AckView) -> bool {
    exists|k: int| 0 <= k < says.len() && is_given_up(#[trigger] says[k], ack)
}

/// Whether whoever made a request is told that it took too long.
pub open spec fn tells_timeout(says: Seq<NoticeView>, ticket: u64) -> bool {
    exists|k: int|
        0 <= k < says.len() && (#[trigger] says[k] matches NoticeView::Complete {
            ticket: told,
            outcome: OutcomeView::Response(Err(Error::Timeout(_))),
        } && told == ticket)
}

proof fn told_in_either(
    first: Seq<NoticeView>,
    second: Seq<NoticeView>,
    ack: AckView,
    ticket: u64,
)
    ensures
        tells_given_up(first, ack) || tells_given_up(second, ack) ==> tells_given_up(
            first + second,
            ack,
        ),
        tells_timeout(first, ticket) || tells_timeout(second, ticket) ==> tells_timeout(
            first + second,
            ticket,
        ),
{
    let both = first + second;
    assert forall|k: int| 0 <= k < first.len() implies #[trigger] first[k] == both[k] by {}
    assert forall|k: int| 0 <= k < second.len() implies #[trigger] second[k] == both[first.len()
        + k] by {}
}

/// A packet identifier that waits stands where it is found.
proof fn ack_is_where_it_is_found(s: DriverView, ack: AckView)
    requires
        s.inv(),
        s.acks.contains(ack),
    ensures
        s.has_ack(ack.packet_id),
        s.acks[ack_from(s.acks, ack.packet_id, 0)] == ack,
{
    ack_position(s.acks, ack.packet_id, 0);
    let i = ack_from(s.acks, ack.packet_id, 0);
    let k = choose|k: int| 0 <= k < s.acks.len() && s.acks[k] == ack;
    if i < k {
        assert(s.acks[i].packet_id != s.acks[k].packet_id);
    }
}

/// Forgetting a request leaves what somebody else waits for.
proof fn forgetting_spares(s: DriverView, correlation: Seq<u8>, ack: AckView)
    requires
        s.inv(),
        s.acks.contains(ack),
        !(ack.kind is RequestPublish),
    ensures
        s.remove_request(correlation).0.acks.contains(ack),
{
    ack_is_where_it_is_found(s, ack);
    forgetting_spares_other_acks(s, correlation, ack.packet_id);
    let after = s.remove_request(correlation).0;
    ack_position(after.acks, ack.packet_id, 0);
    assert(after.acks[ack_from(after.acks, ack.packet_id, 0)] == ack);
}

/// Failing requests leaves what somebody else waits for. Each of the requests is told, and
/// the others stay.
proof fn failing_tells_or_spares(
    s: DriverView,
    correlations: Seq<Seq<u8>>,
    label: &'static str,
    ack: AckView,
    request: RequestView,
)
    requires
        s.inv(),
    ensures
        ({
            let (t, says) = s.fail_all(correlations, Error::Timeout(label));
            &&& s.acks.contains(ack) && !(ack.kind is RequestPublish) ==> t.acks.contains(ack)
            &&& s.requests.contains(request) ==> t.requests.contains(request) || tells_timeout(
                says,
                request.ticket,
            )
            &&& s.requests.contains(request) && !correlations.contains(request.correlation)
                ==> t.requests.contains(request)
            &&& t.inv()
        }),
    decreases correlations.len(),
{
    if correlations.len() > 0 {
        let late = Error::Timeout(label);
        let c = correlations[0];
        let rest = correlations.skip(1);
        let (u, first) = s.fail_request(c, late);
        let (t, more) = u.fail_all(rest, late);
        one_failure_tells_or_spares(s, c, label, ack, request);
        failing_tells_or_spares(u, rest, label, ack, request);
        told_in_either(first, more, ack, request.ticket);
        if !correlations.contains(request.correlation) {
            assert(correlations[0] != request.correlation);
            if rest.contains(request.correlation) {
                let k = choose|k: int| 0 <= k < rest.len() && rest[k] == request.correlation;
                assert(correlations[k + 1] == request.correlation);
            }
        }
    }
}

proof fn one_failure_tells_or_spares(
    s: DriverView,
    correlation: Seq<u8>,
    label: &'static str,
    ack: AckView,
    request: RequestView,
)
    requires
        s.inv(),
    ensures
        ({
            let (t, says) = s.fail_request(correlation, Error::Timeout(label));
            &&& s.acks.contains(ack) && !(ack.kind is RequestPublish) ==> t.acks.contains(ack)
            &&& s.requests.contains(request) ==> if request.correlation == correlation {
                tells_timeout(says, request.ticket)
            } else {
                t.requests.contains(request)
            }
            &&& t.inv()
        }),
{
    let late = Error::Timeout(label);
    fail_request_keeps(s, correlation, late);
    if s.acks.contains(ack) && !(ack.kind is RequestPublish) {
        forgetting_spares(s, correlation, ack);
    }
    failing_spares_the_others(s, correlation, late);
    if s.requests.contains(request) && request.correlation == correlation {
        request_is_where_it_is_found(s, request);
        let says = s.fail_request(correlation, late).1;
        assert(says[1] == (NoticeView::Complete {
            ticket: request.ticket,
            outcome: OutcomeView::Response(Err(late)),
        }));
    }
}

/// A pending request stands where it is found.
proof fn request_is_where_it_is_found(s: DriverView, request: RequestView)
    requires
        s.inv(),
        s.requests.contains(request),
    ensures
        request_from(s.requests, request.correlation, 0) < s.requests.len(),
        s.requests[request_from(s.requests, request.correlation, 0)] == request,
{
    request_position(s.requests, request.correlation, 0);
    let i = request_from(s.requests, request.correlation, 0);
    let k = choose|k: int| 0 <= k < s.requests.len() && s.requests[k] == request;
    if i < k {
        assert(s.requests[i].correlation != s.requests[k].correlation);
    }
}

/// Giving up one acknowledgement tells whoever waits for it, and nobody else but the requests
/// that depend on it.
proof fn expiring_one_tells(s: DriverView, id: u16, ack: AckView, request: RequestView)
    requires
        s.inv(),
    ensures
        ({
            let (t, says) = s.expire_ack(id);
            &&& s.acks.contains(ack) && ack.kind.ticket() is Some && ack.packet_id == id
                ==> tells_given_up(says, ack)
            &&& s.acks.contains(ack) && !(ack.kind is RequestPublish) && ack.packet_id != id
                ==> t.acks.contains(ack)
            &&& s.requests.contains(request) ==> t.requests.contains(request) || tells_timeout(
                says,
                request.ticket,
            )
            &&& t.inv()
        }),
{
    expire_ack_keeps(s, id);
    ack_position(s.acks, id, 0);
    let i = ack_from(s.acks, id, 0);
    if s.acks.contains(ack) {
        ack_is_where_it_is_found(s, ack);
    }
    if i < s.acks.len() {
        let late = s.acks[i];
        let (t, says) = s.expire_ack(id);
        let u = DriverView { acks: s.acks.update(i, late.buried()), ..s };
        if s.acks.contains(ack) && ack.packet_id != id {
            let k = choose|k: int| 0 <= k < s.acks.len() && s.acks[k] == ack;
            assert(u.acks[k] == ack);
        }
        assert(u.inv());
        match late.kind {
            AckKindView::ResponseSubscribe { topic } => {
                subscription_keeps(u, topic);
                let gone = u.without_subscription(topic);
                failing_tells_or_spares(
                    gone,
                    requests_for(gone.requests, topic, false),
                    late.label,
                    ack,
                    request,
                );
            },
            AckKindView::RequestPublish { correlation } => {
                one_failure_tells_or_spares(s, correlation, late.label, ack, request);
                let w = s.fail_request(correlation, Error::Timeout(late.label)).0;
                if s.acks.contains(ack) && ack.packet_id != id && !(ack.kind is RequestPublish) {
                    let k = choose|k: int| 0 <= k < w.acks.len() && w.acks[k] == ack;
                    ack_position(w.acks, id, 0);
                    assert(t.acks[k] == ack);
                }
            },
            _ => {
                if s.acks.contains(ack) && ack.packet_id == id && ack.kind.ticket() is Some {
                    assert(is_given_up(says[0], ack));
                }
            },
        }
    }
}

proof fn expiring_tells(s: DriverView, ids: Seq<u16>, ack: AckView, request: RequestView)
    requires
        s.inv(),
    ensures
        ({
            let (t, says) = s.expire_acks(ids);
            &&& s.acks.contains(ack) && ack.kind.ticket() is Some && ids.contains(ack.packet_id)
                ==> tells_given_up(says, ack)
            &&& s.acks.contains(ack) && !(ack.kind is RequestPublish) && !ids.contains(
                ack.packet_id,
            ) ==> t.acks.contains(ack)
            &&& s.requests.contains(request) ==> t.requests.contains(request) || tells_timeout(
                says,
                request.ticket,
            )
            &&& t.inv()
        }),
    decreases ids.len(),
{
    if ids.len() > 0 {
        let rest = ids.skip(1);
        let (u, first) = s.expire_ack(ids[0]);
        let (t, more) = u.expire_acks(rest);
        expiring_one_tells(s, ids[0], ack, request);
        expiring_tells(u, rest, ack, request);
        told_in_either(first, more, ack, request.ticket);
        if ids.contains(ack.packet_id) && ids[0] != ack.packet_id {
            let k = choose|k: int| 0 <= k < ids.len() && ids[k] == ack.packet_id;
            assert(rest[k - 1] == ack.packet_id);
        }
        if rest.contains(ack.packet_id) {
            let k = choose|k: int| 0 <= k < rest.len() && rest[k] == ack.packet_id;
            assert(ids[k + 1] == ack.packet_id);
        }
    }
}

/// The acknowledgements that are overdue are found.
proof fn overdue_ids_are_found(acks: Seq<AckView>, now: int, id: u16)
    ensures
        overdue_acks(acks, now).contains(id) <==> exists|i: int|
            0 <= i < acks.len() && (#[trigger] acks[i]).packet_id == id && now
                >= acks[i].deadline && !(acks[i].kind is Tombstone),
    decreases acks.len(),
{
    if acks.len() > 0 {
        let front = acks.drop_last();
        let before = overdue_acks(front, now);
        let found = overdue_acks(acks, now);
        overdue_ids_are_found(front, now, id);
        if found.contains(id) {
            let m = choose|m: int| 0 <= m < found.len() && found[m] == id;
            if m < before.len() {
                assert(before[m] == id);
                let i = choose|i: int|
                    0 <= i < front.len() && (#[trigger] front[i]).packet_id == id && now
                        >= front[i].deadline && !(front[i].kind is Tombstone);
                assert(acks[i] == front[i]);
            } else {
                assert(acks[acks.len() - 1].packet_id == id);
            }
        }
        if exists|i: int|
            0 <= i < acks.len() && (#[trigger] acks[i]).packet_id == id && now
                >= acks[i].deadline && !(acks[i].kind is Tombstone) {
            let i = choose|i: int|
                0 <= i < acks.len() && (#[trigger] acks[i]).packet_id == id && now
                    >= acks[i].deadline && !(acks[i].kind is Tombstone);
            if i < front.len() {
                assert(front[i] == acks[i]);
                let m = choose|m: int| 0 <= m < before.len() && before[m] == id;
                assert(found[m] == id);
            } else {
                assert(found[before.len() as int] == id);
            }
        }
    }
}

/// The requests that are overdue or cancelled are found.
proof fn overdue_correlations_are_found(
    requests: Seq<RequestView>,
    now: int,
    cancelled: Seq<u64>,
    correlation: Seq<u8>,
)
    ensures
        overdue_requests(requests, now, cancelled).contains(correlation) <==> exists|i: int|
            0 <= i < requests.len() && (#[trigger] requests[i]).correlation == correlation && (now
                >= requests[i].deadline || cancelled.contains(requests[i].ticket)),
    decreases requests.len(),
{
    if requests.len() > 0 {
        let front = requests.drop_last();
        let before = overdue_requests(front, now, cancelled);
        let found = overdue_requests(requests, now, cancelled);
        overdue_correlations_are_found(front, now, cancelled, correlation);
        if found.contains(correlation) {
            let m = choose|m: int| 0 <= m < found.len() && found[m] == correlation;
            if m < before.len() {
                assert(before[m] == correlation);
                let i = choose|i: int|
                    0 <= i < front.len() && (#[trigger] front[i]).correlation == correlation && (
                    now >= front[i].deadline || cancelled.contains(front[i].ticket));
                assert(requests[i] == front[i]);
            } else {
                assert(requests[requests.len() - 1].correlation == correlation);
            }
        }
        if exists|i: int|
            0 <= i < requests.len() && (#[trigger] requests[i]).correlation == correlation && (now
                >= requests[i].deadline || cancelled.contains(requests[i].ticket)) {
            let i = choose|i: int|
                0 <= i < requests.len() && (#[trigger] requests[i]).correlation == correlation
                    && (now >= requests[i].deadline || cancelled.contains(requests[i].ticket));
            if i < front.len() {
                assert(front[i] == requests[i]);
                let m = choose|m: int| 0 <= m < before.len() && before[m] == correlation;
                assert(found[m] == correlation);
            } else {
                assert(found[before.len() as int] == correlation);
            }
        }
    }
}

proof fn expiring_requests_tells(
    s: DriverView,
    correlations: Seq<Seq<u8>>,
    cancelled: Seq<u64>,
    ack: AckView,
    request: RequestView,
)
    requires
        s.inv(),
    ensures
        ({
            let (t, says) = s.expire_requests(correlations, cancelled);
            &&& s.acks.contains(ack) && !(ack.kind is RequestPublish) ==> t.acks.contains(ack)
            &&& s.requests.contains(request) && !cancelled.contains(request.ticket) ==> if
                correlations.contains(request.correlation) {
                tells_timeout(says, request.ticket)
            } else {
                t.requests.contains(request)
            }
        }),
    decreases correlations.len(),
{
    if correlations.len() > 0 {
        let c = correlations[0];
        let rest = correlations.skip(1);
        let late = Error::Timeout("request response");
        let (u, first) = s.expire_request(c, cancelled);
        let (t, more) = u.expire_requests(rest, cancelled);
        one_failure_tells_or_spares(s, c, "request response", ack, request);
        remove_request_keeps(s, c);
        if s.acks.contains(ack) && !(ack.kind is RequestPublish) {
            forgetting_spares(s, c, ack);
        }
        if s.requests.contains(request) {
            request_is_where_it_is_found(s, request);
        }
        assert(s.fail_request(c, late).0 == s.remove_request(c).0);
        expiring_requests_tells(u, rest, cancelled, ack, request);
        told_in_either(first, more, ack, request.ticket);
        if correlations.contains(request.correlation) && c != request.correlation {
            let k = choose|k: int|
                0 <= k < correlations.len() && correlations[k] == request.correlation;
            assert(rest[k - 1] == request.correlation);
        }
        if rest.contains(request.correlation) {
            let k = choose|k: int| 0 <= k < rest.len() && rest[k] == request.correlation;
            assert(correlations[k + 1] == request.correlation);
        }
    }
}

/// A request that nobody made.
spec fn no_request(ticket: u64) -> RequestView {
    RequestView {
        correlation: Seq::empty(),
        topic: Seq::empty(),
        payload: Seq::empty(),
        response_topic: Seq::empty(),
        qos: QoS::AtMostOnce,
        properties: Seq::empty(),
        deadline: 0,
        ticket,
        publish_packet_id: None,
        published: false,
    }
}

/// Whoever waits for an acknowledgement is told that it is overdue from its deadline on, with
/// the name of what was waited for, and goes on waiting before that. Operations that were
/// cancelled are not waited for.
pub proof fn overdue_operation_is_given_up(
    s: DriverView,
    now: int,
    cancelled: Seq<u64>,
    ack: AckView,
)
    requires
        s.inv(),
        s.acks.contains(ack),
        ack.kind.ticket() matches Some(ticket) && !cancelled.contains(ticket),
    ensures
        ({
            let (t, says) = s.expire_operations(now, cancelled);
            &&& now >= ack.deadline ==> tells_given_up(says, ack)
            &&& now < ack.deadline ==> t.acks.contains(ack)
        }),
{
    let acks = bury_cancelled(s.acks, cancelled);
    let w = DriverView { acks, ..s };
    bury_cancelled_keeps(s, cancelled);
    let k = choose|k: int| 0 <= k < s.acks.len() && s.acks[k] == ack;
    assert(acks[k] == ack);
    let ids = overdue_acks(acks, now);
    overdue_ids_are_found(acks, now, ack.packet_id);
    if ids.contains(ack.packet_id) {
        let i = choose|i: int|
            0 <= i < acks.len() && (#[trigger] acks[i]).packet_id == ack.packet_id && now
                >= acks[i].deadline && !(acks[i].kind is Tombstone);
        assert(i == k) by {
            if i < k {
                assert(w.acks[i].packet_id != w.acks[k].packet_id);
            } else if k < i {
                assert(w.acks[k].packet_id != w.acks[i].packet_id);
            }
        }
    }
    let nobody = no_request(ack.kind.ticket()->Some_0);
    expiring_tells(w, ids, ack, nobody);
    let (u, first) = w.expire_acks(ids);
    let late = overdue_requests(u.requests, now, cancelled);
    expiring_requests_tells(u, late, cancelled, ack, nobody);
    told_in_either(first, u.expire_requests(late, cancelled).1, ack, nobody.ticket);
}

/// Whoever made a request is told that it took too long from its deadline on. Before that it
/// goes on, as long as no acknowledgement is overdue either.
pub proof fn overdue_request_is_given_up(
    s: DriverView,
    now: int,
    cancelled: Seq<u64>,
    request: RequestView,
)
    requires
        s.inv(),
        s.requests.contains(request),
        !cancelled.contains(request.ticket),
    ensures
        ({
            let (t, says) = s.expire_operations(now, cancelled);
            &&& now >= request.deadline ==> tells_timeout(says, request.ticket)
            &&& t.requests.contains(request) || tells_timeout(says, request.ticket)
            &&& now < request.deadline && (forall|i: int|
                0 <= i < s.acks.len() ==> now < (#[trigger] s.acks[i]).deadline)
                ==> t.requests.contains(request)
        }),
{
    let acks = bury_cancelled(s.acks, cancelled);
    let w = DriverView { acks, ..s };
    bury_cancelled_keeps(s, cancelled);
    let ids = overdue_acks(acks, now);
    let nobody = AckView {
        packet_id: 0,
        deadline: 0,
        label: "request response",
        kind: AckKindView::ResponseSubscribe { topic: Seq::empty() },
    };
    expiring_tells(w, ids, nobody, request);
    let (u, first) = w.expire_acks(ids);
    let late = overdue_requests(u.requests, now, cancelled);
    if forall|i: int| 0 <= i < s.acks.len() ==> now < (#[trigger] s.acks[i]).deadline {
        assert(ids.len() == 0) by {
            if ids.len() > 0 {
                let id = ids[0];
                assert(ids.contains(id));
                overdue_ids_are_found(acks, now, id);
                let i = choose|i: int|
                    0 <= i < acks.len() && (#[trigger] acks[i]).packet_id == id && now
                        >= acks[i].deadline && !(acks[i].kind is Tombstone);
                assert(acks[i].deadline == s.acks[i].deadline);
            }
        }
    }
    overdue_correlations_are_found(u.requests, now, cancelled, request.correlation);
    if u.requests.contains(request) {
        request_is_where_it_is_found(u, request);
        request_position(u.requests, request.correlation, 0);
        let k = request_from(u.requests, request.correlation, 0);
        if late.contains(request.correlation) {
            let i = choose|i: int|
                0 <= i < u.requests.len() && (#[trigger] u.requests[i]).correlation
                    == request.correlation && (now >= u.requests[i].deadline
                    || cancelled.contains(u.requests[i].ticket));
            assert(i == k) by {
                if i < k {
                    assert(u.requests[i].correlation != u.requests[k].correlation);
                } else if k < i {
                    assert(u.requests[k].correlation != u.requests[i].correlation);
                }
            }
        }
    }
    expiring_requests_tells(u, late, cancelled, nobody, request);
    told_in_either(first, u.expire_requests(late, cancelled).1, nobody, request.ticket);
}

/// An operation that was cancelled is let go, whether it is overdue or not: its packet
/// identifier stays reserved for an acknowledgement of the same class, with nobody waiting.
pub proof fn cancelled_operation_is_let_go(
    s: DriverView,
    now: int,
    cancelled: Seq<u64>,
    ack: AckView,
)
    requires
        s.inv(),
        s.acks.contains(ack),
        ack.kind.ticket() matches Some(ticket) && cancelled.contains(ticket),
    ensures
        ({
            let (t, says) = s.expire_operations(now, cancelled);
            exists|i: int|
                0 <= i < t.acks.len() && {
                    &&& (#[trigger] t.acks[i]).packet_id == ack.packet_id
                    &&& t.acks[i].kind is Tombstone
                    &&& t.acks[i].kind.ack_class() == ack.kind.ack_class()
                    &&& t.acks[i].kind.ticket() is None
                }
        }),
{
    let acks = bury_cancelled(s.acks, cancelled);
    let w = DriverView { acks, ..s };
    bury_cancelled_keeps(s, cancelled);
    let k = choose|k: int| 0 <= k < s.acks.len() && s.acks[k] == ack;
    let grave = ack.buried();
    assert(acks[k] == grave);
    let ids = overdue_acks(acks, now);
    overdue_ids_are_found(acks, now, ack.packet_id);
    if ids.contains(ack.packet_id) {
        let i = choose|i: int|
            0 <= i < acks.len() && (#[trigger] acks[i]).packet_id == ack.packet_id && now
                >= acks[i].deadline && !(acks[i].kind is Tombstone);
        if i < k {
            assert(w.acks[i].packet_id != w.acks[k].packet_id);
        } else if k < i {
            assert(w.acks[k].packet_id != w.acks[i].packet_id);
        }
    }
    let nobody = no_request(0);
    expiring_tells(w, ids, grave, nobody);
    let (u, first) = w.expire_acks(ids);
    let late = overdue_requests(u.requests, now, cancelled);
    expiring_requests_tells(u, late, cancelled, grave, nobody);
    let t = s.expire_operations(now, cancelled).0;
    let i = choose|i: int| 0 <= i < t.acks.len() && t.acks[i] == grave;
    assert(t.acks[i].packet_id == ack.packet_id);
}

/// A request that was cancelled is forgotten, and its caller is told nothing; only its
/// correlation data is given back.
pub proof fn cancelled_request_is_forgotten(
    s: DriverView,
    cancelled: Seq<u64>,
    request: RequestView,
)
    requires
        s.inv(),
        s.requests.contains(request),
        cancelled.contains(request.ticket),
    ensures
        ({
            let (t, says) = s.expire_request(request.correlation, cancelled);
            &&& says.len() == 1
            &&& says[0] == NoticeView::Released(request.correlation)
            &&& forall|i: int|
                0 <= i < t.requests.len() ==> (#[trigger] t.requests[i]).correlation
                    != request.correlation
        }),
        s.remove_all(seq![request.correlation]).1.len() == 1,
        s.remove_all(seq![request.correlation]).1[0] == NoticeView::Released(request.correlation),
{
    reveal_with_fuel(DriverView::remove_all, 2);
    let c = request.correlation;
    request_is_where_it_is_found(s, request);
    request_position(s.requests, c, 0);
    let i = request_from(s.requests, c, 0);
    let t = s.remove_request(c).0;
    assert forall|j: int| 0 <= j < t.requests.len() implies (#[trigger] t.requests[j]).correlation
        != c by {
        let from = if j < i {
            j
        } else {
            j + 1
        };
        assert(t.requests[j] == s.requests[from]);
    }
    assert(seq![c].skip(1) =~= Seq::<Seq<u8>>::empty());
}

proof fn retained_frames_are_others(frames: Seq<FrameView>, correlation: Seq<u8>, frame: FrameView)
    ensures
        retained(frames, correlation).contains(frame) <==> frames.contains(frame)
            && !is_unsent_request(frame, correlation),
    decreases frames.len(),
{
    let kept = retained(frames, correlation);
    if frames.len() > 0 {
        let front = frames.drop_last();
        let before = retained(front, correlation);
        retained_frames_are_others(front, correlation, frame);
        if frames.contains(frame) {
            let k = choose|k: int| 0 <= k < frames.len() && frames[k] == frame;
            if k < front.len() {
                assert(front[k] == frame);
            }
        }
        if front.contains(frame) {
            let k = choose|k: int| 0 <= k < front.len() && front[k] == frame;
            assert(frames[k] == frame);
        }
        if before.contains(frame) {
            let k = choose|k: int| 0 <= k < before.len() && before[k] == frame;
            assert(kept[k] == frame);
        }
        if kept.contains(frame) {
            let k = choose|k: int| 0 <= k < kept.len() && kept[k] == frame;
            if k < before.len() {
                assert(before[k] == frame);
            } else {
                assert(frames[frames.len() - 1] == frame);
            }
        }
        if !is_unsent_request(frames.last(), correlation) {
            assert(kept[before.len() as int] == frames.last());
        }
    }
}

/// What was not written of a forgotten request never goes out: the queue then holds exactly
/// the frames that it held, but for those of the request of which nothing was written. A
/// frame that was begun is finished.
pub proof fn forgotten_request_is_not_sent(s: DriverView, request: RequestView, frame: FrameView)
    requires
        s.inv(),
        s.requests.contains(request),
    ensures
        s.remove_request(request.correlation).0.outbound.contains(frame) <==> {
            &&& s.outbound.contains(frame)
            &&& !(frame.correlation == Some(request.correlation) && frame.offset == 0)
        },
{
    request_is_where_it_is_found(s, request);
    retained_frames_are_others(s.outbound, request.correlation, frame);
}

} // verus!
