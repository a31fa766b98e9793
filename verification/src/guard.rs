//! Consecutive-repetition detector for streaming model output.
//!
//! The recent output tail is cut into sentence-like segments (each ends with
//! one of `。 . ! ? ！ ？` or a newline, and is then trimmed). A repetition
//! loop is a run of a short unit that comes back every `period` segments,
//! for a period of 1 to 4. Units made only of divider characters (`───`,
//! `---`, `===`, ...) are legitimate markdown and never count.
use vstd::prelude::*;

use crate::text::{chars_eq, chars_of, copy_range, is_white_space, string_from, trim, trim_end, trim_start, trimmed};

verus! {

/// The shortest run (in segments, period included) that is reported.
pub const MIN_RUN: usize = 12;

/// The longest unit (in characters) that can take part in a run.
pub const MAX_UNIT_CHARS: usize = 48;

/// The longest period that is looked for.
pub const MAX_PERIOD: usize = 4;

/// The characters that end a segment; they stay in the segment they end.
pub open spec fn is_segment_end(c: char) -> bool {
    c == '。' || c == '.' || c == '!' || c == '?' || c == '！' || c == '？' || c == '\n'
}

/// The characters a divider unit is made of.
pub open spec fn is_divider_char(c: char) -> bool {
    c == '─' || c == '-' || c == '–' || c == '=' || c == '—' || c == '_' || c == '.' || c == 'x'
        || c == 'X' || c == '*' || c == '#' || c == ' ' || c == '\t'
}

/// A non-empty unit made only of divider characters.
pub open spec fn is_divider(u: Seq<char>) -> bool {
    u.len() > 0 && forall|k: int| 0 <= k < u.len() ==> #[trigger] is_divider_char(u[k])
}

/// A unit that can take part in a repetition run.
pub open spec fn repeatable(u: Seq<char>) -> bool {
    0 < u.len() <= MAX_UNIT_CHARS && !is_divider(u)
}

/// The raw pieces of `s`: it is cut right after every segment end, and the
/// text after the last one (possibly empty) is the final piece.
pub open spec fn split_pieces(s: Seq<char>) -> Seq<Seq<char>>
    decreases s.len(),
{
    if s.len() == 0 {
        seq![Seq::<char>::empty()]
    } else {
        let prev = split_pieces(s.drop_last());
        let c = s.last();
        let grown = prev.update(prev.len() - 1, prev.last().push(c));
        if is_segment_end(c) {
            grown.push(Seq::<char>::empty())
        } else {
            grown
        }
    }
}

/// The trimmed segments of `s`.
pub open spec fn segments(s: Seq<char>) -> Seq<Seq<char>> {
    split_pieces(s).map_values(|p: Seq<char>| trim(p))
}

/// Segment `i` repeats segment `i - p` and is a repeatable unit.
pub open spec fn repeats_at(segs: Seq<Seq<char>>, p: int, i: int) -> bool {
    1 <= p <= i < segs.len() && segs[i] == segs[i - p] && repeatable(segs[i])
}

/// The number of consecutive repeats with period `p` that end at segment `i`.
pub open spec fn run_len(segs: Seq<Seq<char>>, p: int, i: int) -> nat
    decreases i,
{
    if p < 1 || i < p {
        0
    } else if repeats_at(segs, p, i) {
        run_len(segs, p, i - 1) + 1
    } else {
        0
    }
}

/// The length of the run ending at segment `i`, counted in segments: the
/// repeats plus the first period.
pub open spec fn run_total(segs: Seq<Seq<char>>, p: int, i: int) -> int {
    run_len(segs, p, i) + p
}

/// A run with period `p` ending at segment `i` that is long enough to report.
pub open spec fn is_candidate(segs: Seq<Seq<char>>, p: int, i: int) -> bool {
    &&& p <= MAX_PERIOD
    &&& repeats_at(segs, p, i)
    &&& run_total(segs, p, i) >= MIN_RUN
}

/// `(q, j)` is scanned before `(p, i)`: periods in increasing order, and
/// segments in increasing order within a period.
pub open spec fn scanned_before(q: int, j: int, p: int, i: int) -> bool {
    q < p || (q == p && j < i)
}

/// The reported run: a longest candidate, the first one found among the
/// longest.
pub open spec fn is_best(segs: Seq<Seq<char>>, p: int, i: int) -> bool {
    &&& is_candidate(segs, p, i)
    &&& forall|q: int, j: int| #[trigger]
        is_candidate(segs, q, j) ==> run_total(segs, q, j) <= run_total(segs, p, i)
    &&& forall|q: int, j: int| #[trigger]
        is_candidate(segs, q, j) && scanned_before(q, j, p, i) ==> run_total(segs, q, j)
            < run_total(segs, p, i)
}

/// What the detector reports for `tail`: the unit of the best run and the
/// run's length, or nothing when no run reaches `MIN_RUN`.
pub open spec fn loop_verdict(tail: Seq<char>) -> Option<(Seq<char>, int)> {
    let segs = segments(tail);
    if exists|p: int, i: int| is_best(segs, p, i) {
        let (p, i) = choose|p: int, i: int| is_best(segs, p, i);
        Some((segs[i], run_total(segs, p, i)))
    } else {
        None
    }
}

/// At most one run is the best one.
pub proof fn lemma_best_unique(segs: Seq<Seq<char>>, p: int, i: int, q: int, j: int)
    requires
        is_best(segs, p, i),
        is_best(segs, q, j),
    ensures
        p == q && i == j,
{
    assert(run_total(segs, q, j) <= run_total(segs, p, i));
    assert(run_total(segs, p, i) <= run_total(segs, q, j));
    if scanned_before(q, j, p, i) {
        assert(run_total(segs, q, j) < run_total(segs, p, i));
    }
    if scanned_before(p, i, q, j) {
        assert(run_total(segs, p, i) < run_total(segs, q, j));
    }
}

/// A reported loop is at least `MIN_RUN` segments long, its period is 1 to
/// 4, and its unit is a non-empty unit of at most `MAX_UNIT_CHARS`
/// characters that is not a divider.
pub proof fn lemma_verdict_is_a_real_loop(tail: Seq<char>)
    ensures
        loop_verdict(tail) matches Some((unit, total)) ==> {
            &&& total >= MIN_RUN
            &&& 0 < unit.len() <= MAX_UNIT_CHARS
            &&& !is_divider(unit)
            &&& exists|p: int, i: int| 1 <= p <= MAX_PERIOD && #[trigger] is_best(segments(tail), p, i)
                && segments(tail)[i] == unit && segments(tail)[i - p] == unit
        },
{
}

/// The best run among those not scanned before `(p, i)`, given `best`, the
/// best among those scanned before it.
proof fn lemma_scan_best(segs: Seq<Seq<char>>, p: int, i: int, best: Option<(int, int)>) -> (r: Option<(int, int)>)
    requires
        1 <= p <= MAX_PERIOD + 1,
        0 <= i <= segs.len(),
        best is None ==> forall|q: int, j: int|
            #[trigger] is_candidate(segs, q, j) ==> !scanned_before(q, j, p, i),
        best matches Some((bp, bi)) ==> {
            &&& is_candidate(segs, bp, bi)
            &&& scanned_before(bp, bi, p, i)
            &&& forall|q: int, j: int| #[trigger]
                is_candidate(segs, q, j) && scanned_before(q, j, p, i) ==> run_total(segs, q, j)
                    <= run_total(segs, bp, bi)
            &&& forall|q: int, j: int| #[trigger]
                is_candidate(segs, q, j) && scanned_before(q, j, bp, bi) ==> run_total(segs, q, j)
                    < run_total(segs, bp, bi)
        },
    ensures
        r is None ==> forall|q: int, j: int| !#[trigger] is_candidate(segs, q, j),
        r matches Some((bp, bi)) ==> is_best(segs, bp, bi),
    decreases MAX_PERIOD + 1 - p, segs.len() - i,
{
    if p > MAX_PERIOD {
        best
    } else if i == segs.len() {
        lemma_scan_best(segs, p + 1, 0, best)
    } else {
        let better = match best {
            None => true,
            Some((bp, bi)) => run_total(segs, p, i) > run_total(segs, bp, bi),
        };
        let next = if is_candidate(segs, p, i) && better {
            Some((p, i))
        } else {
            best
        };
        lemma_scan_best(segs, p, i + 1, next)
    }
}

/// Whenever some run reaches `MIN_RUN`, a loop is reported, at least as long
/// as that run.
pub proof fn lemma_candidate_is_reported(tail: Seq<char>, p: int, i: int)
    requires
        is_candidate(segments(tail), p, i),
    ensures
        loop_verdict(tail) matches Some((unit, total)) && total >= run_total(segments(tail), p, i),
{
    let segs = segments(tail);
    let r = lemma_scan_best(segs, 1, 0, None);
    let (bp, bi) = r->0;
    let (q, j) = choose|q: int, j: int| is_best(segs, q, j);
    lemma_best_unique(segs, bp, bi, q, j);
}

/// `k` copies of `x`, one after another.
pub open spec fn repeat_text(x: Seq<char>, k: nat) -> Seq<char>
    decreases k,
{
    if k == 0 {
        Seq::empty()
    } else {
        repeat_text(x, (k - 1) as nat) + x
    }
}

/// There is always at least one piece.
proof fn lemma_pieces_nonempty(s: Seq<char>)
    ensures
        split_pieces(s).len() >= 1,
    decreases s.len(),
{
    if s.len() > 0 {
        lemma_pieces_nonempty(s.drop_last());
    }
}

/// Text with no segment end in it only extends the last piece.
proof fn lemma_pieces_append_plain(s: Seq<char>, t: Seq<char>)
    requires
        forall|k: int| 0 <= k < t.len() ==> !#[trigger] is_segment_end(t[k]),
    ensures
        split_pieces(s + t) == split_pieces(s).update(
            split_pieces(s).len() - 1,
            split_pieces(s).last() + t,
        ),
    decreases t.len(),
{
    lemma_pieces_nonempty(s);
    if t.len() == 0 {
        assert(s + t =~= s);
        assert(split_pieces(s).last() + t =~= split_pieces(s).last());
        assert(split_pieces(s).update(split_pieces(s).len() - 1, split_pieces(s).last())
            =~= split_pieces(s));
    } else {
        let t0 = t.drop_last();
        let c = t.last();
        assert(!is_segment_end(t[t.len() - 1]));
        lemma_pieces_append_plain(s, t0);
        assert((s + t).drop_last() =~= s + t0);
        assert((s + t).last() == c);
        assert(split_pieces(s).last() + t0 + seq![c] =~= split_pieces(s).last() + t);
        assert((split_pieces(s).last() + t0).push(c) =~= split_pieces(s).last() + t);
        assert(split_pieces(s + t) =~= split_pieces(s).update(
            split_pieces(s).len() - 1,
            split_pieces(s).last() + t,
        ));
    }
}

/// The pieces of `k` copies of `line`, a line of plain text closed by a
/// newline: `k` copies of the line and an empty last piece.
proof fn lemma_pieces_of_lines(u: Seq<char>, k: nat)
    requires
        forall|m: int| 0 <= m < u.len() ==> !#[trigger] is_segment_end(u[m]),
    ensures
        split_pieces(repeat_text(u.push('\n'), k)) =~= Seq::new(
            k + 1,
            |j: int| if j < k { u.push('\n') } else { Seq::<char>::empty() },
        ),
    decreases k,
{
    let line = u.push('\n');
    if k == 0 {
        assert(repeat_text(line, 0) =~= Seq::<char>::empty());
    } else {
        let prev = repeat_text(line, (k - 1) as nat);
        lemma_pieces_of_lines(u, (k - 1) as nat);
        lemma_pieces_append_plain(prev, u);
        let whole = repeat_text(line, k);
        assert(whole =~= (prev + u).push('\n'));
        assert(whole.drop_last() =~= prev + u);
        assert(whole.last() == '\n');
        assert(Seq::<char>::empty() + u =~= u);
    }
}

/// Every run with period `p` inside `k` equal segments (followed by an empty
/// one) reaches back to the start.
proof fn lemma_run_len_of_lines(segs: Seq<Seq<char>>, u: Seq<char>, k: int, p: int, i: int)
    requires
        repeatable(u),
        segs.len() == k + 1,
        forall|j: int| 0 <= j < k ==> #[trigger] segs[j] == u,
        1 <= p <= i < k,
    ensures
        run_len(segs, p, i) == i - p + 1,
    decreases i,
{
    assert(repeats_at(segs, p, i));
    if i > p {
        lemma_run_len_of_lines(segs, u, k, p, i - 1);
    } else {
        assert(run_len(segs, p, i - 1) == 0);
    }
    assert(run_len(segs, p, i) == run_len(segs, p, i - 1) + 1);
}

/// A newline ends a segment: text made of `k >= MIN_RUN` copies of one short
/// line that is not a divider, holds no sentence punctuation (`。 . ! ? ！ ？`)
/// and does not start or end with whitespace, each copy followed by `\n`,
/// is reported as a loop of that line with a run of `k`.
pub proof fn law_repeated_lines_are_a_loop(u: Seq<char>, k: nat)
    requires
        0 < u.len() <= MAX_UNIT_CHARS,
        !is_divider(u),
        forall|m: int|
            0 <= m < u.len() ==> {
                let c = #[trigger] u[m];
                c != '。' && c != '.' && c != '!' && c != '?' && c != '！' && c != '？' && c != '\n'
            },
        !is_white_space(u[0]),
        !is_white_space(u.last()),
        k >= MIN_RUN,
    ensures
        loop_verdict(repeat_text(u.push('\n'), k)) == Some((u, k as int)),
{
    let line = u.push('\n');
    let tail = repeat_text(line, k);
    assert forall|m: int| 0 <= m < u.len() implies !#[trigger] is_segment_end(u[m]) by {
        let c = u[m];
        assert(c != '。' && c != '.' && c != '!' && c != '?' && c != '！' && c != '？' && c != '\n');
    }
    lemma_pieces_of_lines(u, k);
    let pieces = split_pieces(tail);
    assert(trim_start(line) == line);
    assert(line.drop_last() =~= u);
    assert(trim_end(line) == trim_end(u));
    assert(trim_end(u) == u);
    assert(trim(line) == u);
    assert(trim(Seq::<char>::empty()) == Seq::<char>::empty());
    let segs = segments(tail);
    assert(segs.len() == k + 1);
    assert forall|j: int| 0 <= j < k implies #[trigger] segs[j] == u by {
        assert(pieces[j] == line);
    }
    assert(segs[k as int] == Seq::<char>::empty());
    let last = k - 1;
    lemma_run_len_of_lines(segs, u, k as int, 1, last);
    assert(is_candidate(segs, 1, last));
    assert forall|q: int, j: int| #[trigger] is_candidate(segs, q, j) implies run_total(segs, q, j)
        == j + 1 && j < k by {
        assert(j != k);
        lemma_run_len_of_lines(segs, u, k as int, q, j);
    }
    assert(is_best(segs, 1, last));
    let (p, i) = choose|p: int, i: int| is_best(segs, p, i);
    lemma_best_unique(segs, 1, last, p, i);
}

/// Exactly `。 . ! ? ！ ？` and the newline end a segment: after `s` and one
/// of them, the last piece of `s` (with that character) is complete and an
/// empty piece follows; after any other character, the last piece just
/// grows by it.
pub proof fn law_segment_ends(s: Seq<char>, c: char)
    ensures
        (c == '。' || c == '.' || c == '!' || c == '?' || c == '！' || c == '？' || c == '\n')
            ==> split_pieces(s.push(c)) == split_pieces(s).update(
            split_pieces(s).len() - 1,
            split_pieces(s).last().push(c),
        ).push(Seq::<char>::empty()),
        !(c == '。' || c == '.' || c == '!' || c == '?' || c == '！' || c == '？' || c == '\n')
            ==> split_pieces(s.push(c)) == split_pieces(s).update(
            split_pieces(s).len() - 1,
            split_pieces(s).last().push(c),
        ),
{
    assert(s.push(c).drop_last() =~= s);
    lemma_pieces_nonempty(s);
}

/// Whether `c` ends a segment.
fn is_segment_end_char(c: char) -> (r: bool)
    ensures
        r == is_segment_end(c),
{
    c == '。' || c == '.' || c == '!' || c == '?' || c == '！' || c == '？' || c == '\n'
}

/// Whether the unit is made only of divider characters (and is not empty).
fn is_divider_unit(unit: &[char]) -> (r: bool)
    ensures
        r == is_divider(unit@),
{
    if unit.len() == 0 {
        return false;
    }
    let n = unit.len();
    for k in 0..n
        invariant
            n == unit@.len(),
            forall|m: int| 0 <= m < k ==> is_divider_char(unit@[m]),
    {
        let c = unit[k];
        let d = c == '─' || c == '-' || c == '–' || c == '=' || c == '—' || c == '_' || c == '.'
            || c == 'x' || c == 'X' || c == '*' || c == '#' || c == ' ' || c == '\t';
        if !d {
            assert(!is_divider_char(unit@[k as int]));
            return false;
        }
    }
    true
}

/// The trimmed segments of `s`.
fn segments_of(s: &[char]) -> (segs: Vec<Vec<char>>)
    ensures
        segs@.len() == segments(s@).len(),
        forall|k: int| 0 <= k < segs@.len() ==> #[trigger] segs@[k]@ == segments(s@)[k],
{
    let n = s.len();
    let mut closed: Vec<Vec<char>> = Vec::new();
    let mut start: usize = 0;
    assert(s@.take(0) =~= Seq::<char>::empty());
    for i in 0..n
        invariant
            n == s@.len(),
            start <= i,
            closed@.len() + 1 == split_pieces(s@.take(i as int)).len(),
            forall|k: int|
                0 <= k < closed@.len() ==> #[trigger] closed@[k]@ == trim(
                    split_pieces(s@.take(i as int))[k],
                ),
            split_pieces(s@.take(i as int)).last() == s@.subrange(start as int, i as int),
    {
        let c = s[i];
        assert(s@.take(i + 1).drop_last() =~= s@.take(i as int));
        assert(s@.subrange(start as int, i + 1) =~= s@.subrange(start as int, i as int).push(c));
        if is_segment_end_char(c) {
            let piece = copy_range(s, start, i + 1);
            closed.push(trimmed(piece.as_slice()));
            start = i + 1;
            assert(s@.subrange(start as int, i + 1) =~= Seq::<char>::empty());
        }
    }
    assert(s@.take(n as int) =~= s@);
    let last = copy_range(s, start, n);
    closed.push(trimmed(last.as_slice()));
    closed
}

/// The unit and run length of the best repetition loop in the characters
/// `tail`, if a run of at least `MIN_RUN` exists.
pub fn detect_loop_chars(tail: &[char]) -> (r: Option<(Vec<char>, usize)>)
    ensures
        match r {
            None => loop_verdict(tail@) is None,
            Some((unit, total)) => loop_verdict(tail@) == Some((unit@, total as int)),
        },
{
    let segs = segments_of(tail);
    let ghost sv = segments(tail@);
    let n = segs.len();
    let mut best: Option<(usize, usize, usize)> = None;
    let mut p: usize = 1;
    while p <= MAX_PERIOD
        invariant
            1 <= p <= MAX_PERIOD + 1,
            n == segs@.len() == sv.len(),
            sv == segments(tail@),
            forall|k: int| 0 <= k < n ==> #[trigger] segs@[k]@ == sv[k],
            best is None ==> forall|q: int, j: int|
                #[trigger] is_candidate(sv, q, j) ==> !scanned_before(q, j, p as int, 0),
            best matches Some((bp, bi, bt)) ==> {
                &&& is_candidate(sv, bp as int, bi as int)
                &&& bt == run_total(sv, bp as int, bi as int)
                &&& forall|q: int, j: int| #[trigger]
                    is_candidate(sv, q, j) && scanned_before(q, j, p as int, 0) ==> run_total(
                        sv,
                        q,
                        j,
                    ) <= bt
                &&& forall|q: int, j: int| #[trigger]
                    is_candidate(sv, q, j) && scanned_before(q, j, bp as int, bi as int)
                        ==> run_total(sv, q, j) < bt
                &&& scanned_before(bp as int, bi as int, p as int, 0)
            },
        decreases MAX_PERIOD + 1 - p,
    {
        let mut run: usize = 0;
        let mut i: usize = p;
        while i < n
            invariant
                1 <= p <= MAX_PERIOD,
                p <= i,
                i <= n || i == p,
                n == segs@.len() == sv.len(),
                forall|k: int| 0 <= k < n ==> #[trigger] segs@[k]@ == sv[k],
                run == run_len(sv, p as int, i - 1),
                run <= i - p,
                best is None ==> forall|q: int, j: int|
                    #[trigger] is_candidate(sv, q, j) ==> !scanned_before(q, j, p as int, i as int),
                best matches Some((bp, bi, bt)) ==> {
                    &&& is_candidate(sv, bp as int, bi as int)
                    &&& bt == run_total(sv, bp as int, bi as int)
                    &&& forall|q: int, j: int| #[trigger]
                        is_candidate(sv, q, j) && scanned_before(q, j, p as int, i as int)
                            ==> run_total(sv, q, j) <= bt
                    &&& forall|q: int, j: int| #[trigger]
                        is_candidate(sv, q, j) && scanned_before(q, j, bp as int, bi as int)
                            ==> run_total(sv, q, j) < bt
                    &&& scanned_before(bp as int, bi as int, p as int, i as int)
                },
            decreases n - i,
        {
            let cur = segs[i].as_slice();
            let prev = segs[i - p].as_slice();
            let ok = chars_eq(cur, prev) && cur.len() > 0 && cur.len() <= MAX_UNIT_CHARS
                && !is_divider_unit(cur);
            assert(ok == repeats_at(sv, p as int, i as int));
            if ok {
                run = run + 1;
                let total = run + p;
                assert(run == run_len(sv, p as int, i as int));
                let better = match best {
                    None => true,
                    Some((_, _, bt)) => total > bt,
                };
                if total >= MIN_RUN && better {
                    best = Some((p, i, total));
                }
            } else {
                run = 0;
            }
            i = i + 1;
        }
        p = p + 1;
    }
    match best {
        None => {
            proof {
                if exists|q: int, j: int| is_best(sv, q, j) {
                    let (q, j) = choose|q: int, j: int| is_best(sv, q, j);
                    assert(is_candidate(sv, q, j));
                }
            }
            None
        },
        Some((bp, bi, bt)) => {
            proof {
                assert(is_best(sv, bp as int, bi as int));
                let (q, j) = choose|q: int, j: int| is_best(sv, q, j);
                lemma_best_unique(sv, bp as int, bi as int, q, j);
            }
            let unit = copy_range(segs[bi].as_slice(), 0, segs[bi].len());
            assert(segs@[bi as int]@.subrange(0, segs@[bi as int]@.len() as int) =~= segs@[bi as int]@);
            Some((unit, bt))
        },
    }
}

/// Detect a consecutive repetition loop in the recent output `tail`:
/// `(unit, total_run)` when a run of at least `MIN_RUN` repeats exists.
pub fn detect_loop(tail: &str) -> (r: Option<(String, usize)>)
    ensures
        match r {
            None => loop_verdict(tail@) is None,
            Some((unit, total)) => loop_verdict(tail@) == Some((unit@, total as int)),
        },
{
    let cs = chars_of(tail);
    match detect_loop_chars(cs.as_slice()) {
        None => None,
        Some((unit, total)) => Some((string_from(unit.as_slice()), total)),
    }
}

/// The longest prefix of a unit shown in alerts, in characters.
pub const SHORT_UNIT_CHARS: usize = 24;

/// The unit as shown in alerts: trimmed, cut to `SHORT_UNIT_CHARS`
/// characters, with `…` appended when it was cut.
pub open spec fn shortened(unit: Seq<char>) -> Seq<char> {
    let t = trim(unit);
    if t.len() > SHORT_UNIT_CHARS {
        t.take(SHORT_UNIT_CHARS as int).push('…')
    } else {
        t
    }
}

/// Shorten a detected unit (given as characters) for display in alerts.
pub fn shorten_unit_chars(unit: &[char]) -> (r: String)
    ensures
        r@ == shortened(unit@),
{
    let t = trimmed(unit);
    if t.len() > SHORT_UNIT_CHARS {
        let mut head = copy_range(t.as_slice(), 0, SHORT_UNIT_CHARS);
        head.push('…');
        string_from(head.as_slice())
    } else {
        string_from(t.as_slice())
    }
}

/// Shorten a detected unit for display in alerts.
pub fn shorten_unit(unit: &str) -> (r: String)
    ensures
        r@ == shortened(unit@),
{
    let cs = chars_of(unit);
    shorten_unit_chars(cs.as_slice())
}

} // verus!
