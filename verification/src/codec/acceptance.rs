//! Which topics, filters and messages are taken, and which are not.
use vstd::prelude::*;

use crate::codec::connect::ServerCapabilities;
use crate::codec::topic::{
    is_shared, level_len, level_len_is_first_slash, levels_accepted_iff_wildcards_well_placed,
    share_prefix, topic_filter_check, topic_name_check, wildcard_well_placed,
};
use crate::codec::types::QoS;

verus! {

/// A topic name is taken exactly where it is not empty and no character of it is a wildcard.
pub proof fn topic_name_is_taken(topic: Seq<char>)
    ensures
        topic_name_check(topic) is Ok <==> topic.len() > 0 && forall|i: int|
            0 <= i < topic.len() ==> #[trigger] topic[i] != '#' && topic[i] != '+',
{
    assert forall|i: int| 0 <= i < topic.len() implies topic.contains(#[trigger] topic[i]) by {}
}

/// Whether every wildcard in these levels is well placed.
pub open spec fn places_wildcards_well(levels: Seq<char>) -> bool {
    forall|i: int| 0 <= i < levels.len() ==> #[trigger] wildcard_well_placed(levels, i)
}

/// Whether a filter starts like that of a shared subscription.
pub open spec fn starts_shared(filter: Seq<char>) -> bool {
    &&& filter.len() >= 7
    &&& filter[0] == '$'
    &&& filter[1] == 's'
    &&& filter[2] == 'h'
    &&& filter[3] == 'a'
    &&& filter[4] == 'r'
    &&& filter[5] == 'e'
    &&& filter[6] == '/'
}

pub(crate) proof fn shared_prefix_is_seen(filter: Seq<char>)
    ensures
        is_shared(filter) <==> starts_shared(filter),
{
    if filter.len() >= 7 {
        let head = filter.take(7);
        assert(forall|i: int| 0 <= i < 7 ==> head[i] == filter[i]);
        if starts_shared(filter) {
            assert(head =~= share_prefix());
        }
    }
}

/// Whether the filter of a shared subscription has a share name, up to the slash at `slash`,
/// that is not empty and holds neither slash nor wildcard, and behind it levels that place
/// their wildcards well.
pub open spec fn shares_at(filter: Seq<char>, slash: int) -> bool {
    &&& 7 < slash < filter.len() - 1
    &&& filter[slash] == '/'
    &&& forall|i: int|
        7 <= i < slash ==> #[trigger] filter[i] != '/' && filter[i] != '#' && filter[i] != '+'
    &&& places_wildcards_well(filter.skip(slash + 1))
}

/// A topic filter is taken exactly where it is not empty, and places its wildcards well or
/// is that of a shared subscription.
pub proof fn topic_filter_is_taken(filter: Seq<char>)
    ensures
        topic_filter_check(filter) is Ok <==> filter.len() > 0 && if starts_shared(filter) {
            exists|slash: int| shares_at(filter, slash)
        } else {
            places_wildcards_well(filter)
        },
{
    levels_accepted_iff_wildcards_well_placed(filter);
    shared_prefix_is_seen(filter);
    if starts_shared(filter) {
        let shared = filter.skip(7);
        level_len_is_first_slash(shared);
        let n = level_len(shared) as int;
        let name = shared.take(n);
        assert(forall|i: int| 0 <= i < shared.len() ==> shared[i] == filter[i + 7]);
        assert(forall|i: int| 0 <= i < n ==> name[i] == shared[i]);
        if n < shared.len() {
            levels_accepted_iff_wildcards_well_placed(shared.skip(n + 1));
            assert(shared.skip(n + 1) =~= filter.skip(n + 8));
        }
        if topic_filter_check(filter) is Ok {
            assert forall|i: int| 7 <= i < n + 7 implies #[trigger] filter[i] != '/' && filter[i]
                != '#' && filter[i] != '+' by {
                assert(name[i - 7] == filter[i]);
                assert(shared[i - 7] == filter[i]);
                assert(name.contains(name[i - 7]));
            }
            assert(shares_at(filter, n + 7));
        }
        if exists|slash: int| shares_at(filter, slash) {
            let slash = choose|slash: int| shares_at(filter, slash);
            assert(shared[slash - 7] == '/');
            assert(n == slash - 7) by {
                if n < slash - 7 {
                    assert(shared[n] == filter[n + 7]);
                }
            }
            assert(!name.contains('#') && !name.contains('+')) by {
                assert forall|i: int| 0 <= i < n implies #[trigger] name[i] != '#' && name[i]
                    != '+' by {
                    assert(name[i] == filter[i + 7]);
                }
            }
        }
    }
}

/// A broker's capabilities let through a message of QoS 0 that is not to be retained, and
/// every other one exactly where they say so; and a filter exactly where it is one, without a
/// wildcard unless they say so, and for a shared subscription only where they say so.
pub proof fn capabilities_are_respected(
    c: ServerCapabilities,
    qos: QoS,
    retain: bool,
    filter: Seq<char>,
)
    ensures
        c.publish_check(qos, retain) is Ok <==> (qos == QoS::AtMostOnce || c.maximum_qos
            == QoS::AtLeastOnce) && (!retain || c.retain_available),
        c.filter_check(filter) is Ok <==> {
            &&& topic_filter_check(filter) is Ok
            &&& starts_shared(filter) ==> c.shared_subscriptions_available
            &&& (exists|i: int|
                0 <= i < filter.len() && (#[trigger] filter[i] == '#' || filter[i] == '+'))
                ==> c.wildcard_subscriptions_available
        },
{
    shared_prefix_is_seen(filter);
    assert forall|i: int| 0 <= i < filter.len() implies filter.contains(#[trigger] filter[i]) by {}
}

} // verus!
