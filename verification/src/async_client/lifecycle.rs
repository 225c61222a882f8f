//! Which requests are under way, and which of them nobody waits for any more.
use vstd::prelude::*;

use crate::error::{Error, Result};
use crate::request_response::RequestCommand;
use crate::text::same_bytes;

verus! {

/// Whether a payload fits into the packets that are accepted, going by its length alone.
pub open spec fn payload_check(len: nat, max_packet_size: usize) -> Result<()> {
    if len > max_packet_size {
        Err(Error::PacketTooLarge { size: len as usize, max: max_packet_size })
    } else {
        Ok(())
    }
}

/// Turn down a payload that is larger than any packet that is accepted.
pub fn validate_payload(len: usize, max_packet_size: usize) -> (r: Result<()>)
    ensures
        r == payload_check(len as nat, max_packet_size),
{
    if len > max_packet_size {
        return Err(Error::PacketTooLarge { size: len, max: max_packet_size });
    }
    Ok(())
}

/// The error for a command that the driver's queue had no room for, or that no driver is
/// there for any more.
pub fn refused_command(full: bool) -> (r: Error)
    ensures
        r == (if full {
            Error::QueueFull("command")
        } else {
            Error::ClientClosed
        }),
{
    if full {
        Error::QueueFull("command")
    } else {
        Error::ClientClosed
    }
}

/// The requests of a client, known by their correlation data.
pub struct RequestLifecycle {
    active: Vec<Vec<u8>>,
    cancelled: Vec<Vec<u8>>,
    max_active: usize,
}

/// What a [`RequestLifecycle`] holds: no correlation data twice, and no more than the
/// limit.
#[verifier::ext_equal]
pub struct LifecycleView {
    pub active: Seq<Seq<u8>>,
    pub cancelled: Seq<Seq<u8>>,
    pub max_active: usize,
}

/// The bytes in each element.
pub open spec fn byte_views(v: Seq<Vec<u8>>) -> Seq<Seq<u8>> {
    Seq::new(v.len(), |i: int| v[i]@)
}

/// The elements other than `data`, in order.
pub open spec fn without_data(s: Seq<Seq<u8>>, data: Seq<u8>) -> Seq<Seq<u8>>
    decreases s.len(),
{
    if s.len() == 0 {
        s
    } else if s.last() == data {
        without_data(s.drop_last(), data)
    } else {
        without_data(s.drop_last(), data).push(s.last())
    }
}

impl LifecycleView {
    /// A request is active once, cancelled requests are active, and there is room for
    /// the active ones.
    pub open spec fn wf(self) -> bool {
        &&& self.active.no_duplicates()
        &&& self.cancelled.no_duplicates()
        &&& self.active.len() <= self.max_active
        &&& forall|i: int|
            0 <= i < self.cancelled.len() ==> self.active.contains(#[trigger] self.cancelled[i])
    }

    /// Whether a request with this correlation data can start.
    pub open spec fn registration(self, data: Seq<u8>) -> Result<()> {
        if self.active.len() >= self.max_active {
            Err(Error::QueueFull("pending request"))
        } else if self.active.contains(data) {
            Err(Error::InvalidOptions("duplicate request correlation data"))
        } else {
            Ok(())
        }
    }

    /// The requests after one has ended.
    pub open spec fn finished(self, data: Seq<u8>) -> LifecycleView {
        LifecycleView {
            active: without_data(self.active, data),
            cancelled: without_data(self.cancelled, data),
            ..self
        }
    }
}

impl View for RequestLifecycle {
    type V = LifecycleView;

    closed spec fn view(&self) -> LifecycleView {
        LifecycleView {
            active: byte_views(self.active@),
            cancelled: byte_views(self.cancelled@),
            max_active: self.max_active,
        }
    }
}

fn position(v: &Vec<Vec<u8>>, data: &[u8]) -> (r: Option<usize>)
    ensures
        match r {
            Some(i) => i < v.len() && v@[i as int]@ == data@,
            None => !byte_views(v@).contains(data@),
        },
        r is Some <==> byte_views(v@).contains(data@),
{
    let mut i: usize = 0;
    while i < v.len()
        invariant
            i <= v.len(),
            forall|j: int| 0 <= j < i ==> (#[trigger] byte_views(v@)[j]) != data@,
        decreases v.len() - i,
    {
        if same_bytes(v[i].as_slice(), data) {
            assert(byte_views(v@)[i as int] == data@);
            return Some(i);
        }
        i += 1;
    }
    None
}

fn drop_data(v: &mut Vec<Vec<u8>>, data: &[u8]) -> (r: bool)
    requires
        byte_views(old(v)@).no_duplicates(),
    ensures
        byte_views(final(v)@) == without_data(byte_views(old(v)@), data@),
        r == byte_views(old(v)@).contains(data@),
{
    match position(v, data) {
        Some(i) => {
            let ghost before = byte_views(v@);
            let _ = v.remove(i);
            proof {
                assert(byte_views(v@) =~= before.remove(i as int));
                without_data_removes(before, i as int);
            }
            true
        },
        None => {
            proof {
                without_data_absent(byte_views(v@), data@);
            }
            false
        },
    }
}

proof fn without_data_absent(s: Seq<Seq<u8>>, data: Seq<u8>)
    requires
        !s.contains(data),
    ensures
        without_data(s, data) == s,
    decreases s.len(),
{
    if s.len() > 0 {
        let front = s.drop_last();
        if front.contains(data) {
            let j = choose|j: int| 0 <= j < front.len() && front[j] == data;
            assert(s[j] == data);
        }
        assert(s[s.len() - 1] != data);
        without_data_absent(front, data);
        assert(front.push(s.last()) =~= s);
    }
}

proof fn without_data_removes(s: Seq<Seq<u8>>, i: int)
    requires
        0 <= i < s.len(),
        s.no_duplicates(),
    ensures
        without_data(s, s[i]) == s.remove(i),
    decreases s.len(),
{
    let data = s[i];
    let front = s.drop_last();
    assert(front.no_duplicates());
    if i == s.len() - 1 {
        if front.contains(data) {
            let j = choose|j: int| 0 <= j < front.len() && front[j] == data;
            assert(s[j] == s[i]);
        }
        without_data_absent(front, data);
        assert(s.remove(i) =~= front);
    } else {
        without_data_removes(front, i);
        assert(s.last() != data) by {
            assert(s[s.len() - 1] != s[i]);
        }
        assert(s.remove(i) =~= front.remove(i).push(s.last()));
    }
}

proof fn without_data_properties(s: Seq<Seq<u8>>, data: Seq<u8>)
    ensures
        !without_data(s, data).contains(data),
        without_data(s, data).len() <= s.len(),
        forall|x: Seq<u8>|
            x != data ==> (#[trigger] without_data(s, data).contains(x) <==> s.contains(x)),
        s.no_duplicates() ==> without_data(s, data).no_duplicates(),
    decreases s.len(),
{
    if s.len() > 0 {
        let front = s.drop_last();
        without_data_properties(front, data);
        let rest = without_data(front, data);
        assert(front.push(s.last()) =~= s);
        assert forall|x: Seq<u8>| x != data implies (#[trigger] without_data(s, data).contains(x)
            <==> s.contains(x)) by {
            if s.contains(x) {
                let j = choose|j: int| 0 <= j < s.len() && s[j] == x;
                if j < front.len() {
                    assert(front[j] == x);
                    assert(rest.contains(x));
                    let k = choose|k: int| 0 <= k < rest.len() && rest[k] == x;
                    if s.last() != data {
                        assert(without_data(s, data)[k] == x);
                    }
                } else {
                    assert(without_data(s, data)[rest.len() as int] == x);
                }
            }
            if without_data(s, data).contains(x) {
                let k = choose|k: int|
                    0 <= k < without_data(s, data).len() && without_data(s, data)[k] == x;
                if k < rest.len() {
                    assert(rest[k] == x);
                    assert(rest.contains(x));
                    assert(front.contains(x));
                    let j = choose|j: int| 0 <= j < front.len() && front[j] == x;
                    assert(s[j] == x);
                } else {
                    assert(s[s.len() - 1] == x);
                }
            }
        }
        if without_data(s, data).contains(data) {
            let k = choose|k: int|
                0 <= k < without_data(s, data).len() && without_data(s, data)[k] == data;
            if k < rest.len() {
                assert(rest[k] == data);
                assert(rest.contains(data));
            }
        }
        if s.no_duplicates() {
            assert(front.no_duplicates());
            if s.last() != data {
                if rest.contains(s.last()) {
                    assert(front.contains(s.last()));
                    let j = choose|j: int| 0 <= j < front.len() && front[j] == s.last();
                    assert(s[j] == s[s.len() - 1]);
                }
                let all = rest.push(s.last());
                assert forall|a: int, b: int|
                    0 <= a < all.len() && 0 <= b < all.len() && a != b implies all[a] != all[b] by {
                    if a == rest.len() {
                        assert(rest.contains(rest[b]));
                    } else if b == rest.len() {
                        assert(rest.contains(rest[a]));
                    }
                }
            }
        }
    }
}

impl RequestLifecycle {
    pub fn new(max_active: usize) -> (r: Self)
        ensures
            r@.wf(),
            r@ == (LifecycleView { active: Seq::empty(), cancelled: Seq::empty(), max_active }),
    {
        let r = Self { active: Vec::new(), cancelled: Vec::new(), max_active };
        assert(r@.active =~= Seq::empty());
        assert(r@.cancelled =~= Seq::empty());
        r
    }

    /// Start a request.
    pub fn register(&mut self, correlation_data: Vec<u8>) -> (r: Result<()>)
        requires
            old(self)@.wf(),
        ensures
            final(self)@.wf(),
            r == old(self)@.registration(correlation_data@),
            final(self)@ == (if r is Ok {
                LifecycleView { active: old(self)@.active.push(correlation_data@), ..old(self)@ }
            } else {
                old(self)@
            }),
    {
        if self.active.len() >= self.max_active {
            return Err(Error::QueueFull("pending request"));
        }
        if position(&self.active, correlation_data.as_slice()).is_some() {
            return Err(Error::InvalidOptions("duplicate request correlation data"));
        }
        let ghost data = correlation_data@;
        self.active.push(correlation_data);
        proof {
            let before = old(self)@;
            assert(self@.active =~= before.active.push(data));
            assert forall|i: int| 0 <= i < self@.cancelled.len() implies self@.active.contains(
                #[trigger] self@.cancelled[i],
            ) by {
                assert(before.active.contains(before.cancelled[i]));
                let j = choose|j: int|
                    0 <= j < before.active.len() && before.active[j] == before.cancelled[i];
                assert(self@.active[j] == self@.cancelled[i]);
            }
            assert forall|a: int, b: int|
                0 <= a < self@.active.len() && 0 <= b < self@.active.len() && a
                    != b implies self@.active[a] != self@.active[b] by {
                if a == before.active.len() {
                    assert(before.active.contains(before.active[b]));
                } else if b == before.active.len() {
                    assert(before.active.contains(before.active[a]));
                }
            }
        }
        Ok(())
    }

    /// Start a request over a connection on which packets of this size are accepted.
    pub fn start(&mut self, request: &RequestCommand, max_packet_size: usize) -> (r: Result<()>)
        requires
            old(self)@.wf(),
        ensures
            final(self)@.wf(),
            r == (if request@.payload.len() > max_packet_size {
                payload_check(request@.payload.len(), max_packet_size)
            } else {
                old(self)@.registration(request@.correlation_data)
            }),
            final(self)@ == (if r is Ok {
                LifecycleView {
                    active: old(self)@.active.push(request@.correlation_data),
                    ..old(self)@
                }
            } else {
                old(self)@
            }),
    {
        validate_payload(request.payload.len(), max_packet_size)?;
        self.register(request.correlation_data.clone())
    }

    /// Note that nobody waits for the request any more. A request that is not active
    /// cannot be cancelled.
    pub fn cancel(&mut self, correlation_data: Vec<u8>)
        requires
            old(self)@.wf(),
        ensures
            final(self)@.wf(),
            final(self)@ == (if old(self)@.active.contains(correlation_data@)
                && !old(self)@.cancelled.contains(correlation_data@) {
                LifecycleView {
                    cancelled: old(self)@.cancelled.push(correlation_data@),
                    ..old(self)@
                }
            } else {
                old(self)@
            }),
    {
        if position(&self.active, correlation_data.as_slice()).is_some() && position(
            &self.cancelled,
            correlation_data.as_slice(),
        ).is_none() {
            let ghost data = correlation_data@;
            self.cancelled.push(correlation_data);
            proof {
                let before = old(self)@;
                assert(self@.cancelled =~= before.cancelled.push(data));
                assert forall|a: int, b: int|
                    0 <= a < self@.cancelled.len() && 0 <= b < self@.cancelled.len() && a
                        != b implies self@.cancelled[a] != self@.cancelled[b] by {
                    if a == before.cancelled.len() {
                        assert(before.cancelled.contains(before.cancelled[b]));
                    } else if b == before.cancelled.len() {
                        assert(before.cancelled.contains(before.cancelled[a]));
                    }
                }
            }
        }
    }

    /// End the request if it was cancelled, and say whether it was.
    pub fn consume_cancellation(&mut self, correlation_data: &[u8]) -> (r: bool)
        requires
            old(self)@.wf(),
        ensures
            final(self)@.wf(),
            r == old(self)@.cancelled.contains(correlation_data@),
            final(self)@ == (if r {
                old(self)@.finished(correlation_data@)
            } else {
                old(self)@
            }),
    {
        if position(&self.cancelled, correlation_data).is_some() {
            self.finish(correlation_data);
            true
        } else {
            false
        }
    }

    /// The correlation data of the cancelled requests.
    pub fn cancelled(&self) -> (r: Vec<Vec<u8>>)
        ensures
            byte_views(r@) == self@.cancelled,
    {
        let mut r: Vec<Vec<u8>> = Vec::new();
        let mut i: usize = 0;
        while i < self.cancelled.len()
            invariant
                i <= self.cancelled.len(),
                r.len() == i,
                forall|j: int| 0 <= j < i ==> (#[trigger] r@[j])@ == self.cancelled@[j]@,
            decreases self.cancelled.len() - i,
        {
            r.push(self.cancelled[i].clone());
            i += 1;
        }
        assert(byte_views(r@) =~= self@.cancelled);
        r
    }

    /// End the request.
    pub fn finish(&mut self, correlation_data: &[u8])
        requires
            old(self)@.wf(),
        ensures
            final(self)@.wf(),
            final(self)@ == old(self)@.finished(correlation_data@),
    {
        proof {
            finish_forgets(self@, correlation_data@);
        }
        let _ = drop_data(&mut self.active, correlation_data);
        let _ = drop_data(&mut self.cancelled, correlation_data);
    }
}

/// A finished request is neither active nor cancelled, every other request stays what it
/// was, and the correlation data can be used again.
pub proof fn finish_forgets(requests: LifecycleView, data: Seq<u8>)
    requires
        requests.wf(),
    ensures
        requests.finished(data).wf(),
        !requests.finished(data).active.contains(data),
        !requests.finished(data).cancelled.contains(data),
        forall|x: Seq<u8>|
            x != data ==> (#[trigger] requests.finished(data).active.contains(x)
                <==> requests.active.contains(x)),
        forall|x: Seq<u8>|
            x != data ==> (#[trigger] requests.finished(data).cancelled.contains(x)
                <==> requests.cancelled.contains(x)),
{
    without_data_properties(requests.active, data);
    without_data_properties(requests.cancelled, data);
    let after = requests.finished(data);
    assert forall|i: int| 0 <= i < after.cancelled.len() implies after.active.contains(
        #[trigger] after.cancelled[i],
    ) by {
        let x = after.cancelled[i];
        assert(after.cancelled.contains(x));
        assert(requests.cancelled.contains(x));
        let j = choose|j: int| 0 <= j < requests.cancelled.len() && requests.cancelled[j] == x;
        assert(requests.active.contains(requests.cancelled[j]));
    }
}

} // verus!
