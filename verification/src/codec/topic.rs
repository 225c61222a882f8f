//! Topic names and topic filters.
use vstd::prelude::*;

use crate::error::{Error, Result};
use crate::text::{chars_of, contains_char};

verus! {

/// Whether `s` holds one of the wildcard characters.
pub open spec fn has_wildcard(s: Seq<char>) -> bool {
    s.contains('#') || s.contains('+')
}

/// A topic name is not empty and holds no wildcard character.
pub open spec fn topic_name_check(topic: Seq<char>) -> Result<()> {
    if topic.len() == 0 {
        Err(Error::MalformedPacket("topic name is empty"))
    } else if has_wildcard(topic) {
        Err(Error::MalformedPacket("topic name contains a wildcard"))
    } else {
        Ok(())
    }
}

/// The number of characters before the first `/`, or of all where there is none.
pub open spec fn level_len(s: Seq<char>) -> nat
    decreases s.len(),
{
    if s.len() == 0 || s[0] == '/' {
        0
    } else {
        1 + level_len(s.skip(1))
    }
}

/// Wildcards stand alone in their level, and `#` only in the last one. The first level
/// that breaks this decides the error.
pub open spec fn levels_check(s: Seq<char>) -> Result<()>
    decreases s.len(),
{
    let n = level_len(s) as int;
    let level = s.take(n);
    let last = n >= s.len();
    if level.contains('#') && (level != seq!['#'] || !last) {
        Err(Error::MalformedPacket("multi-level wildcard must occupy the final topic level"))
    } else if level.contains('+') && level != seq!['+'] {
        Err(Error::MalformedPacket("single-level wildcard must occupy an entire topic level"))
    } else if last {
        Ok(())
    } else {
        levels_check(s.skip(n + 1))
    }
}

/// What a shared subscription starts with.
pub open spec fn share_prefix() -> Seq<char> {
    seq!['$', 's', 'h', 'a', 'r', 'e', '/']
}

/// Whether a filter asks for a shared subscription.
pub open spec fn is_shared(filter: Seq<char>) -> bool {
    filter.len() >= 7 && filter.take(7) == share_prefix()
}

/// A shared subscription's part behind the prefix: a share name, `/`, and a filter.
pub open spec fn shared_check(shared: Seq<char>) -> Result<()> {
    let n = level_len(shared) as int;
    if n >= shared.len() {
        Err(Error::MalformedPacket("shared subscription is missing its topic filter"))
    } else if n == 0 || has_wildcard(shared.take(n)) {
        Err(Error::MalformedPacket("shared subscription has an invalid share name"))
    } else if n + 1 == shared.len() {
        Err(Error::MalformedPacket("shared subscription is missing its topic filter"))
    } else {
        levels_check(shared.skip(n + 1))
    }
}

/// A topic filter is not empty, places its wildcards well, and has the form
/// `$share/{ShareName}/{filter}` where it starts with `$share/`.
pub open spec fn topic_filter_check(filter: Seq<char>) -> Result<()> {
    if filter.len() == 0 {
        Err(Error::MalformedPacket("topic filter is empty"))
    } else if is_shared(filter) {
        shared_check(filter.skip(7))
    } else {
        levels_check(filter)
    }
}

/// Whether `s` holds a wildcard character.
pub fn contains_wildcard(s: &str) -> (r: bool)
    ensures
        r == has_wildcard(s@),
{
    contains_char(s, '#') || contains_char(s, '+')
}

/// Validate the MQTT-specific shape of a Topic Name.
///
/// UTF-8, NUL, and encoded-length checks remain centralized in the string
/// encoder/decoder. Topic aliases are not supported, so an empty name is never
/// valid for this crate.
pub fn validate_topic_name(topic: &str) -> (r: Result<()>)
    ensures
        r == topic_name_check(topic@),
{
    if chars_of(topic).is_empty() {
        return Err(Error::MalformedPacket("topic name is empty"));
    }
    if contains_wildcard(topic) {
        return Err(Error::MalformedPacket("topic name contains a wildcard"));
    }
    Ok(())
}

/// Whether `filter` starts with `$share/`.
pub fn starts_with_share(filter: &str) -> (r: bool)
    ensures
        r == is_shared(filter@),
{
    chars_start_with_share(&chars_of(filter))
}

fn chars_start_with_share(chars: &Vec<char>) -> (r: bool)
    ensures
        r == is_shared(chars@),
{
    let r = chars.len() >= 7 && chars[0] == '$' && chars[1] == 's' && chars[2] == 'h' && chars[3]
        == 'a' && chars[4] == 'r' && chars[5] == 'e' && chars[6] == '/';
    proof {
        if r {
            assert(chars@.take(7) =~= share_prefix());
        } else if chars.len() >= 7 {
            let head = chars@.take(7);
            assert(head[0] == chars@[0] && head[1] == chars@[1] && head[2] == chars@[2] && head[3]
                == chars@[3] && head[4] == chars@[4] && head[5] == chars@[5] && head[6]
                == chars@[6]);
        }
    }
    r
}

/// Validate MQTT Topic Filter wildcard placement, including the standard
/// `$share/{ShareName}/{filter}` form.
///
/// UTF-8, NUL, and encoded-length checks remain centralized in the string
/// encoder.
pub fn validate_topic_filter(filter: &str) -> (r: Result<()>)
    ensures
        r == topic_filter_check(filter@),
{
    let chars = chars_of(filter);
    if chars.is_empty() {
        return Err(Error::MalformedPacket("topic filter is empty"));
    }
    if chars_start_with_share(&chars) {
        let end: usize = level_end(&chars, 7);
        if end == chars.len() {
            return Err(Error::MalformedPacket("shared subscription is missing its topic filter"));
        }
        assert(chars@.skip(7).take(end - 7) =~= chars@.subrange(7, end as int));
        if end == 7 || range_contains(&chars, 7, end, '#') || range_contains(&chars, 7, end, '+') {
            return Err(Error::MalformedPacket("shared subscription has an invalid share name"));
        }
        if end + 1 == chars.len() {
            return Err(Error::MalformedPacket("shared subscription is missing its topic filter"));
        }
        assert(chars@.skip(7).skip(end - 7 + 1) =~= chars@.skip(end + 1));
        return validate_filter_levels(&chars, end + 1);
    }
    assert(chars@.skip(0) =~= chars@);
    validate_filter_levels(&chars, 0)
}

fn validate_filter_levels(chars: &Vec<char>, from: usize) -> (r: Result<()>)
    requires
        from <= chars.len(),
    ensures
        r == levels_check(chars@.skip(from as int)),
{
    let mut start: usize = from;
    loop
        invariant
            start <= chars.len(),
            levels_check(chars@.skip(from as int)) == levels_check(chars@.skip(start as int)),
        decreases chars.len() - start,
    {
        let end: usize = level_end(chars, start);
        let ghost rest = chars@.skip(start as int);
        let ghost level = rest.take(end - start);
        assert(level =~= chars@.subrange(start as int, end as int));
        let alone = end - start == 1;
        if range_contains(chars, start, end, '#') && (!alone || end < chars.len()) {
            proof {
                assert(level == seq!['#'] ==> level.len() == 1);
            }
            return Err(
                Error::MalformedPacket("multi-level wildcard must occupy the final topic level"),
            );
        }
        proof {
            if level.contains('#') {
                assert(level =~= seq!['#']);
            }
        }
        if range_contains(chars, start, end, '+') && !alone {
            proof {
                assert(level == seq!['+'] ==> level.len() == 1);
            }
            return Err(
                Error::MalformedPacket("single-level wildcard must occupy an entire topic level"),
            );
        }
        proof {
            if level.contains('+') {
                assert(level =~= seq!['+']);
            }
        }
        if end >= chars.len() {
            return Ok(());
        }
        assert(rest.skip(end - start + 1) =~= chars@.skip(end + 1));
        start = end + 1;
    }
}

fn level_end(chars: &Vec<char>, start: usize) -> (r: usize)
    requires
        start <= chars.len(),
    ensures
        start <= r <= chars.len(),
        r - start == level_len(chars@.skip(start as int)),
{
    let mut end: usize = start;
    while end < chars.len() && chars[end] != '/'
        invariant
            start <= end <= chars.len(),
            level_len(chars@.skip(start as int)) == end - start + level_len(
                chars@.skip(end as int),
            ),
        decreases chars.len() - end,
    {
        assert(chars@.skip(end as int).skip(1) =~= chars@.skip(end + 1));
        end += 1;
    }
    end
}

fn range_contains(chars: &Vec<char>, from: usize, to: usize, c: char) -> (r: bool)
    requires
        from <= to <= chars.len(),
    ensures
        r == chars@.subrange(from as int, to as int).contains(c),
{
    let ghost range = chars@.subrange(from as int, to as int);
    let mut i: usize = from;
    while i < to
        invariant
            from <= i <= to <= chars.len(),
            range == chars@.subrange(from as int, to as int),
            forall|j: int| 0 <= j < i - from ==> range[j] != c,
        decreases to - i,
    {
        if chars[i] == c {
            assert(range[i - from] == c);
            return true;
        }
        i += 1;
    }
    false
}

/// Whether the character at `i`, if it is a wildcard, stands alone in its level, and in
/// the last level if it is `#`.
pub open spec fn wildcard_well_placed(s: Seq<char>, i: int) -> bool {
    let opens = i == 0 || s[i - 1] == '/';
    let closes = i + 1 == s.len() || s[i + 1] == '/';
    &&& s[i] == '#' ==> opens && i + 1 == s.len()
    &&& s[i] == '+' ==> opens && closes
}

/// A filter's levels are accepted exactly where each of its wildcards is well placed.
pub proof fn levels_accepted_iff_wildcards_well_placed(s: Seq<char>)
    ensures
        levels_check(s) is Ok <==> forall|i: int|
            0 <= i < s.len() ==> #[trigger] wildcard_well_placed(s, i),
    decreases s.len(),
{
    level_len_is_first_slash(s);
    let n = level_len(s) as int;
    let level = s.take(n);
    let last = n >= s.len();
    assert forall|i: int| 0 <= i < n implies level[i] == s[i] by {}
    if level.contains('#') && (level != seq!['#'] || !last) {
        let i = choose|i: int| 0 <= i < n && level[i] == '#';
        if wildcard_well_placed(s, i) {
            assert(i == 0);
            assert(level =~= seq!['#']);
        }
    } else if level.contains('+') && level != seq!['+'] {
        let i = choose|i: int| 0 <= i < n && level[i] == '+';
        if wildcard_well_placed(s, i) {
            assert(i == 0);
            assert(n == 1);
            assert(level =~= seq!['+']);
        }
    } else {
        assert forall|i: int| 0 <= i < n implies #[trigger] wildcard_well_placed(s, i) by {
            if s[i] == '#' {
                assert(level.contains('#'));
                assert(level.len() == 1);
            }
            if s[i] == '+' {
                assert(level.contains('+'));
                assert(level.len() == 1);
            }
        }
        if !last {
            let rest = s.skip(n + 1);
            levels_accepted_iff_wildcards_well_placed(rest);
            assert(wildcard_well_placed(s, n));
            assert forall|i: int| 0 <= i < rest.len() implies wildcard_well_placed(rest, i)
                == #[trigger] wildcard_well_placed(s, i + n + 1) by {
                assert(rest[i] == s[i + n + 1]);
                if i > 0 {
                    assert(rest[i - 1] == s[i + n]);
                }
                if i + 1 < rest.len() {
                    assert(rest[i + 1] == s[i + n + 2]);
                }
            }
            if levels_check(rest) is Ok {
                assert forall|i: int| 0 <= i < s.len() implies #[trigger] wildcard_well_placed(
                    s,
                    i,
                ) by {
                    if i > n {
                        let j = i - n - 1;
                        assert(wildcard_well_placed(rest, j));
                        assert(wildcard_well_placed(s, j + n + 1));
                    }
                }
            } else {
                let j = choose|j: int| 0 <= j < rest.len() && !wildcard_well_placed(rest, j);
                assert(!wildcard_well_placed(s, j + n + 1));
            }
        }
    }
}

pub(crate) proof fn level_len_is_first_slash(s: Seq<char>)
    ensures
        level_len(s) <= s.len(),
        level_len(s) < s.len() ==> s[level_len(s) as int] == '/',
        forall|i: int| 0 <= i < level_len(s) ==> s[i] != '/',
    decreases s.len(),
{
    if s.len() > 0 && s[0] != '/' {
        let rest = s.skip(1);
        level_len_is_first_slash(rest);
        assert forall|i: int| 0 <= i < level_len(s) implies s[i] != '/' by {
            if i > 0 {
                assert(rest[i - 1] == s[i]);
            }
        }
        if level_len(s) < s.len() {
            assert(rest[level_len(rest) as int] == s[level_len(s) as int]);
        }
    }
}

/// Every topic name that is not a shared subscription's filter is a topic filter, too.
pub proof fn topic_name_is_a_filter(topic: Seq<char>)
    requires
        topic_name_check(topic) is Ok,
        !is_shared(topic),
    ensures
        topic_filter_check(topic) is Ok,
{
    levels_accepted_iff_wildcards_well_placed(topic);
    assert forall|i: int| 0 <= i < topic.len() implies #[trigger] wildcard_well_placed(topic, i) by {
        assert(topic.contains(topic[i]));
    }
}

} // verus!
