//! Server-sent-events framing: a stream of text is cut into events at each
//! blank line (`"\n\n"`), and the `data:` lines of an event are joined into
//! its payload.
use vstd::prelude::*;

use crate::text::{
    chars_eq, copy_range, has_prefix, starts_with_chars, string_from, trim_start,
    trim_start_index,
};

verus! {

broadcast use vstd::string::group_string_axioms;

// ---------------------------------------------------------------------------
// Framing
// ---------------------------------------------------------------------------

/// A blank line starts at index `q` of `s`.
pub open spec fn is_break_at(s: Seq<char>, q: int) -> bool {
    0 <= q && q + 1 < s.len() && s[q] == '\n' && s[q + 1] == '\n'
}

/// The first blank line (`"\n\n"`) of `s` at or after index `k`: the index
/// of its first `'\n'`.
pub open spec fn break_from(s: Seq<char>, k: int) -> Option<int>
    decreases s.len() - k,
{
    if k < 0 || k + 1 >= s.len() {
        None
    } else if s[k] == '\n' && s[k + 1] == '\n' {
        Some(k)
    } else {
        break_from(s, k + 1)
    }
}

/// A blank line found at or after `k` lies inside `s`.
pub proof fn lemma_break_in_range(s: Seq<char>, k: int)
    ensures
        break_from(s, k) matches Some(p) ==> {
            &&& k <= p
            &&& p + 2 <= s.len()
            &&& s[p] == '\n'
            &&& s[p + 1] == '\n'
            &&& forall|q: int| k <= q < p ==> !#[trigger] is_break_at(s, q)
        },
    decreases s.len() - k,
{
    if k < 0 || k + 1 >= s.len() {
    } else if s[k] == '\n' && s[k + 1] == '\n' {
    } else {
        lemma_break_in_range(s, k + 1);
    }
}

/// The complete events at the front of `s` (each ends with its blank line),
/// and the incomplete rest.
pub open spec fn frame(s: Seq<char>) -> (Seq<Seq<char>>, Seq<char>)
    decreases s.len(),
{
    match break_from(s, 0) {
        None => (Seq::empty(), s),
        Some(p) => {
            proof {
                lemma_break_in_range(s, 0);
            }
            if p + 2 <= s.len() {
                let (events, rest) = frame(s.skip(p + 2));
                (seq![s.take(p + 2)] + events, rest)
            } else {
                (Seq::empty(), s)
            }
        },
    }
}

/// Framing loses nothing: the events followed by the rest are the input.
pub proof fn lemma_frame_keeps_text(s: Seq<char>)
    ensures
        flatten(frame(s).0) + frame(s).1 == s,
    decreases s.len(),
{
    lemma_break_in_range(s, 0);
    match break_from(s, 0) {
        None => {
            assert(flatten(Seq::<Seq<char>>::empty()) =~= Seq::<char>::empty());
            assert(Seq::<char>::empty() + s =~= s);
        },
        Some(p) => {
            let (events, rest) = frame(s.skip(p + 2));
            lemma_frame_keeps_text(s.skip(p + 2));
            let all = seq![s.take(p + 2)] + events;
            assert(all.drop_first() =~= events);
            assert(all[0] == s.take(p + 2));
            assert(flatten(all) == s.take(p + 2) + flatten(events));
            assert(s.take(p + 2) + (flatten(events) + rest) =~= s);
            assert(s.take(p + 2) + flatten(events) + rest =~= s.take(p + 2) + (flatten(events)
                + rest));
        },
    }
}

/// A blank line found in `x` is also the first one found in `x` followed by
/// more text.
proof fn lemma_break_from_extend(x: Seq<char>, y: Seq<char>, k: int)
    requires
        break_from(x, k) is Some,
    ensures
        break_from(x + y, k) == break_from(x, k),
    decreases x.len() - k,
{
    if k < 0 || k + 1 >= x.len() {
    } else {
        assert((x + y)[k] == x[k]);
        assert((x + y)[k + 1] == x[k + 1]);
        if !(x[k] == '\n' && x[k + 1] == '\n') {
            lemma_break_from_extend(x, y, k + 1);
        }
    }
}

/// Framing `x` followed by `y` gives the events of `x`, then the events of
/// `x`'s incomplete rest followed by `y`.
pub proof fn lemma_frame_append(x: Seq<char>, y: Seq<char>)
    ensures
        frame(x + y).0 == frame(x).0 + frame(frame(x).1 + y).0,
        frame(x + y).1 == frame(frame(x).1 + y).1,
    decreases x.len(),
{
    lemma_break_in_range(x, 0);
    match break_from(x, 0) {
        None => {
            assert(Seq::<Seq<char>>::empty() + frame(x + y).0 =~= frame(x + y).0);
        },
        Some(p) => {
            lemma_break_from_extend(x, y, 0);
            lemma_break_in_range(x + y, 0);
            let xs = x.skip(p + 2);
            assert((x + y).take(p + 2) =~= x.take(p + 2));
            assert((x + y).skip(p + 2) =~= xs + y);
            lemma_frame_append(xs, y);
            let r = frame(xs).1;
            assert(frame(x).1 == r);
            assert(frame(x + y).0 == seq![x.take(p + 2)] + frame(xs + y).0);
            assert(seq![x.take(p + 2)] + (frame(xs).0 + frame(r + y).0) =~= seq![x.take(p + 2)]
                + frame(xs).0 + frame(r + y).0);
        },
    }
}

/// The payloads of two runs of events are those of the first run, then
/// those of the second.
pub proof fn lemma_payloads_append(e1: Seq<Seq<char>>, e2: Seq<Seq<char>>)
    ensures
        payloads(e1 + e2) == payloads(e1) + payloads(e2),
    decreases e2.len(),
{
    if e2.len() == 0 {
        assert(e1 + e2 =~= e1);
        assert(payloads(e1) + payloads(e2) =~= payloads(e1));
    } else {
        assert((e1 + e2).drop_last() =~= e1 + e2.drop_last());
        assert((e1 + e2).last() == e2.last());
        lemma_payloads_append(e1, e2.drop_last());
        match event_payload(e2.last()) {
            Some(d) => {
                assert(payloads(e1) + payloads(e2.drop_last()).push(d) =~= (payloads(e1)
                    + payloads(e2.drop_last())).push(d));
            },
            None => {},
        }
    }
}

/// The concatenation of `parts`.
pub open spec fn flatten(parts: Seq<Seq<char>>) -> Seq<char>
    decreases parts.len(),
{
    if parts.len() == 0 {
        Seq::empty()
    } else {
        parts[0] + flatten(parts.drop_first())
    }
}

/// The first blank line of `s` at or after `from`.
fn find_break(s: &[char], from: usize) -> (r: Option<usize>)
    ensures
        match r {
            None => break_from(s@, from as int) is None,
            Some(p) => break_from(s@, from as int) == Some(p as int),
        },
{
    let n = s.len();
    let mut k = from;
    while n >= 2 && k <= n - 2
        invariant
            n == s@.len(),
            from <= k,
            break_from(s@, from as int) == break_from(s@, k as int),
        decreases n - k,
    {
        if s[k] == '\n' && s[k + 1] == '\n' {
            return Some(k);
        }
        k = k + 1;
    }
    None
}

/// Cuts the complete events off the front of `buf`: returns them, and
/// leaves the incomplete rest in `buf`.
pub fn take_events(buf: &mut Vec<char>) -> (events: Vec<Vec<char>>)
    ensures
        events@.len() == frame(old(buf)@).0.len(),
        forall|k: int| 0 <= k < events@.len() ==> #[trigger] events@[k]@ == frame(old(buf)@).0[k],
        final(buf)@ == frame(old(buf)@).1,
{
    let mut events: Vec<Vec<char>> = Vec::new();
    let ghost all = frame(old(buf)@).0;
    loop
        invariant
            frame(old(buf)@).1 == frame(buf@).1,
            all == frame(old(buf)@).0,
            all == Seq::new(events@.len() as nat, |k: int| events@[k]@) + frame(buf@).0,
        ensures
            all == Seq::new(events@.len() as nat, |k: int| events@[k]@),
            frame(old(buf)@).1 == buf@,
        decreases buf@.len(),
    {
        let ghost before = buf@;
        match find_break(buf.as_slice(), 0) {
            None => {
                assert(frame(buf@).0 =~= Seq::<Seq<char>>::empty());
                assert(frame(buf@).1 == buf@);
                assert(all =~= Seq::new(events@.len() as nat, |k: int| events@[k]@));
                break;
            },
            Some(p) => {
                proof {
                    lemma_break_in_range(buf@, 0);
                }
                let n = buf.len();
                let event = copy_range(buf.as_slice(), 0, p + 2);
                let rest = copy_range(buf.as_slice(), p + 2, n);
                assert(before.subrange(0, p + 2) =~= before.take(p + 2));
                assert(before.subrange(p + 2, n as int) =~= before.skip(p + 2));
                let ghost done = Seq::new(events@.len() as nat, |k: int| events@[k]@);
                events.push(event);
                *buf = rest;
                assert(Seq::new(events@.len() as nat, |k: int| events@[k]@) =~= done.push(
                    before.take(p + 2),
                ));
                assert(frame(before).0 =~= seq![before.take(p + 2)] + frame(buf@).0);
                assert(done + frame(before).0 =~= done.push(before.take(p + 2)) + frame(
                    buf@,
                ).0);
            },
        }
    }
    assert(all.len() == events@.len());
    assert(forall|k: int| 0 <= k < events@.len() ==> #[trigger] events@[k]@ == all[k]);
    events
}

// ---------------------------------------------------------------------------
// Event payloads
// ---------------------------------------------------------------------------

/// `s` cut at every `'\n'` (which is dropped), as `str::split('\n')`.
pub open spec fn split_lines(s: Seq<char>) -> Seq<Seq<char>>
    decreases s.len(),
{
    if s.len() == 0 {
        seq![Seq::<char>::empty()]
    } else {
        let prev = split_lines(s.drop_last());
        let c = s.last();
        if c == '\n' {
            prev.push(Seq::<char>::empty())
        } else {
            prev.update(prev.len() - 1, prev.last().push(c))
        }
    }
}

/// A line ended by `'\n'` loses a trailing `'\r'` (as `str::lines`).
pub open spec fn strip_cr(line: Seq<char>) -> Seq<char> {
    if line.len() > 0 && line.last() == '\r' {
        line.drop_last()
    } else {
        line
    }
}

/// What a line adds to the payload: for a `data:` line, the rest of the
/// line without its leading whitespace; nothing for any other line.
pub open spec fn line_data(line: Seq<char>) -> Seq<char> {
    if has_prefix(line, "data:"@) {
        trim_start(line.skip("data:"@.len() as int))
    } else {
        Seq::empty()
    }
}

/// The data of lines that were each ended by a `'\n'`.
pub open spec fn ended_lines_data(lines: Seq<Seq<char>>) -> Seq<char>
    decreases lines.len(),
{
    if lines.len() == 0 {
        Seq::empty()
    } else {
        ended_lines_data(lines.drop_last()) + line_data(strip_cr(lines.last()))
    }
}

/// The joined `data:` lines of an event.
pub open spec fn event_data(event: Seq<char>) -> Seq<char> {
    let lines = split_lines(event);
    ended_lines_data(lines.drop_last()) + line_data(lines.last())
}

/// The payload of an event: its data, unless that is empty or `[DONE]`.
pub open spec fn event_payload(event: Seq<char>) -> Option<Seq<char>> {
    let d = event_data(event);
    if d.len() == 0 || d == "[DONE]"@ {
        None
    } else {
        Some(d)
    }
}

/// The payloads of `events`, in order, skipping the events without one.
pub open spec fn payloads(events: Seq<Seq<char>>) -> Seq<Seq<char>>
    decreases events.len(),
{
    if events.len() == 0 {
        Seq::empty()
    } else {
        let prev = payloads(events.drop_last());
        match event_payload(events.last()) {
            Some(d) => prev.push(d),
            None => prev,
        }
    }
}

/// Appends the data of one line to `data`.
fn add_line_data(data: &mut Vec<char>, line: &[char], prefix: &[char])
    requires
        prefix@ == "data:"@,
    ensures
        final(data)@ == old(data)@ + line_data(line@),
{
    if starts_with_chars(line, prefix) {
        let n = line.len();
        let k = prefix.len();
        let rest = copy_range(line, k, n);
        assert(rest@ =~= line@.skip(k as int));
        let i = trim_start_index(rest.as_slice());
        let m = rest.len();
        let kept = copy_range(rest.as_slice(), i, m);
        assert(kept@ =~= rest@.skip(i as int));
        crate::text::extend_chars(data, kept.as_slice());
    } else {
        assert(old(data)@ + line_data(line@) =~= old(data)@);
    }
}

/// The joined `data:` lines of an event.
pub fn event_data_of(event: &[char]) -> (data: Vec<char>)
    ensures
        data@ == event_data(event@),
{
    let prefix: Vec<char> = vec!['d', 'a', 't', 'a', ':'];
    proof {
        reveal_strlit("data:");
    }
    assert(prefix@ =~= "data:"@);
    let n = event.len();
    let mut data: Vec<char> = Vec::new();
    let mut line: Vec<char> = Vec::new();
    assert(event@.take(0) =~= Seq::<char>::empty());
    for i in 0..n
        invariant
            n == event@.len(),
            prefix@ == "data:"@,
            split_lines(event@.take(i as int)).len() >= 1,
            data@ == ended_lines_data(split_lines(event@.take(i as int)).drop_last()),
            line@ == split_lines(event@.take(i as int)).last(),
    {
        let c = event[i];
        let ghost prev = split_lines(event@.take(i as int));
        assert(event@.take(i + 1).drop_last() =~= event@.take(i as int));
        if c == '\n' {
            let mut body = line.clone();
            let len = body.len();
            if len > 0 && body[len - 1] == '\r' {
                body = copy_range(line.as_slice(), 0, len - 1);
                assert(body@ =~= line@.drop_last());
            }
            assert(body@ == strip_cr(line@));
            add_line_data(&mut data, body.as_slice(), prefix.as_slice());
            line = Vec::new();
            assert(prev.push(Seq::<char>::empty()).drop_last() =~= prev);
        } else {
            line.push(c);
            assert(prev.update(prev.len() - 1, prev.last().push(c)).drop_last() =~= prev.drop_last());
        }
    }
    assert(event@.take(n as int) =~= event@);
    add_line_data(&mut data, line.as_slice(), prefix.as_slice());
    data
}

/// The payload of an event, if it has one.
pub fn event_payload_of(event: &[char]) -> (r: Option<String>)
    ensures
        match r {
            None => event_payload(event@) is None,
            Some(d) => event_payload(event@) == Some(d@),
        },
{
    let data = event_data_of(event);
    let done: Vec<char> = vec!['[', 'D', 'O', 'N', 'E', ']'];
    proof {
        reveal_strlit("[DONE]");
    }
    assert(done@ =~= "[DONE]"@);
    if data.len() == 0 || chars_eq(data.as_slice(), done.as_slice()) {
        None
    } else {
        Some(string_from(data.as_slice()))
    }
}

} // verus!
