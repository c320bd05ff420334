//! Search index logic: exhaustive overlapping substring scanning over a
//! buffer's text, and cursor-relative circular navigation among the
//! recorded match spans.

use vstd::prelude::*;

verus! {

/// `pat` occurs in `text` at position `i`.
pub open spec fn occurs_at(text: Seq<char>, pat: Seq<char>, i: int) -> bool {
    &&& 0 <= i
    &&& i + pat.len() <= text.len()
    &&& forall|k: int| 0 <= k < pat.len() ==> text[i + k] == pat[k]
}

/// The recorded spans are strictly ascending by start offset.
pub open spec fn sorted_matches(ms: Seq<(usize, usize)>) -> bool {
    forall|j1: int, j2: int| 0 <= j1 < j2 < ms.len() ==> ms[j1].0 < ms[j2].0
}

/// `ms` is exactly the list of occurrences of `pat` in `text`, in ascending
/// order, each span half-open and `pat.len()` long. A sound, complete and
/// strictly sorted list is unique, so this pins the match list down.
pub open spec fn is_match_list(text: Seq<char>, pat: Seq<char>, ms: Seq<(usize, usize)>) -> bool {
    &&& forall|j: int|
        0 <= j < ms.len() ==> occurs_at(text, pat, #[trigger] ms[j].0 as int) && ms[j].1 == ms[j].0
            + pat.len()
    &&& sorted_matches(ms)
    &&& forall|i: int| #[trigger]
        occurs_at(text, pat, i) ==> exists|j: int| 0 <= j < ms.len() && ms[j].0 == i
}

/// Whether `pat` occurs in `text` at position `i`, by direct comparison.
fn match_at(text: &str, tlen: usize, pat: &str, plen: usize, i: usize) -> (r: bool)
    requires
        tlen == text@.len(),
        plen == pat@.len(),
        i + plen <= tlen,
    ensures
        r == occurs_at(text@, pat@, i as int),
{
    let mut k: usize = 0;
    while k < plen
        invariant
            tlen == text@.len(),
            plen == pat@.len(),
            i + plen <= tlen,
            k <= plen,
            forall|j: int| 0 <= j < k ==> text@[i + j] == pat@[j],
        decreases plen - k,
    {
        if text.get_char(i + k) != pat.get_char(k) {
            return false;
        }
        k += 1;
    }
    true
}

/// Scans `text` for every occurrence of `pat`, with a one-character stride,
/// so overlapping occurrences are all recorded.
pub fn find_matches(text: &str, pat: &str) -> (r: Vec<(usize, usize)>)
    requires
        pat@.len() > 0,
    ensures
        is_match_list(text@, pat@, r@),
{
    let tlen = text.unicode_len();
    let plen = pat.unicode_len();
    let mut r: Vec<(usize, usize)> = Vec::new();
    if plen > tlen {
        return r;
    }
    let mut i: usize = 0;
    while i <= tlen - plen
        invariant
            tlen == text@.len(),
            plen == pat@.len(),
            0 < plen <= tlen,
            i <= tlen - plen + 1,
            forall|j: int|
                0 <= j < r@.len() ==> occurs_at(text@, pat@, #[trigger] r@[j].0 as int) && r@[j].1
                    == r@[j].0 + plen,
            forall|j: int| 0 <= j < r@.len() ==> #[trigger] r@[j].0 < i,
            forall|j1: int, j2: int| 0 <= j1 < j2 < r@.len() ==> r@[j1].0 < r@[j2].0,
            forall|ii: int| #[trigger]
                occurs_at(text@, pat@, ii) && ii < i ==> exists|j: int|
                    0 <= j < r@.len() && r@[j].0 == ii,
        decreases tlen - plen + 1 - i,
    {
        let ghost r0 = r@;
        let matched = match_at(text, tlen, pat, plen, i);
        if matched {
            r.push((i, i + plen));
        }
        proof {
            assert forall|ii: int| #[trigger] occurs_at(text@, pat@, ii) && ii < i + 1 implies exists|
                j: int,
            | 0 <= j < r@.len() && r@[j].0 == ii by {
                if ii < i {
                    let j = choose|j: int| 0 <= j < r0.len() && r0[j].0 == ii;
                    assert(r@[j].0 == ii);
                } else {
                    assert(r@[r@.len() - 1].0 == ii);
                }
            }
        }
        i += 1;
    }
    r
}

/// The start offset of the first listed match strictly past `cur`, if any.
pub open spec fn first_start_after(ms: Seq<(usize, usize)>, cur: int) -> Option<int>
    decreases ms.len(),
{
    if ms.len() == 0 {
        None
    } else if ms[0].0 > cur {
        Some(ms[0].0 as int)
    } else {
        first_start_after(ms.drop_first(), cur)
    }
}

/// The start offset of the last listed match strictly before `cur`, if any.
pub open spec fn last_start_before(ms: Seq<(usize, usize)>, cur: int) -> Option<int>
    decreases ms.len(),
{
    if ms.len() == 0 {
        None
    } else if ms.last().0 < cur {
        Some(ms.last().0 as int)
    } else {
        last_start_before(ms.drop_last(), cur)
    }
}

/// Where forward navigation from `cur` lands: the first match past `cur`,
/// wrapping around to the first match when none follows.
pub open spec fn next_match_start(ms: Seq<(usize, usize)>, cur: int) -> int
    recommends
        ms.len() > 0,
{
    match first_start_after(ms, cur) {
        Some(p) => p,
        None => ms[0].0 as int,
    }
}

/// Where backward navigation from `cur` lands: the last match before `cur`,
/// wrapping around to the last match when none precedes.
pub open spec fn prev_match_start(ms: Seq<(usize, usize)>, cur: int) -> int
    recommends
        ms.len() > 0,
{
    match last_start_before(ms, cur) {
        Some(p) => p,
        None => ms.last().0 as int,
    }
}

/// Finds the start offset of the first match strictly past `cur`, wrapping
/// to the first match in the list when none follows.
pub fn next_start(ms: &Vec<(usize, usize)>, cur: usize) -> (r: usize)
    requires
        ms@.len() > 0,
    ensures
        r as int == next_match_start(ms@, cur as int),
{
    let n = ms.len();
    proof {
        assert(ms@.subrange(0, n as int) =~= ms@);
    }
    let mut k: usize = 0;
    while k < n
        invariant
            n == ms@.len(),
            0 < n,
            k <= n,
            first_start_after(ms@, cur as int) == first_start_after(
                ms@.subrange(k as int, n as int),
                cur as int,
            ),
            forall|j: int| 0 <= j < k ==> ms@[j].0 <= cur,
        decreases n - k,
    {
        proof {
            assert(ms@.subrange(k as int, n as int).drop_first() =~= ms@.subrange(
                k + 1,
                n as int,
            ));
        }
        if ms[k].0 > cur {
            return ms[k].0;
        }
        k += 1;
    }
    proof {
        assert(ms@.subrange(n as int, n as int).len() == 0);
    }
    ms[0].0
}

/// Finds the start offset of the last match strictly before `cur`, wrapping
/// to the last match in the list when none precedes.
pub fn prev_start(ms: &Vec<(usize, usize)>, cur: usize) -> (r: usize)
    requires
        ms@.len() > 0,
    ensures
        r as int == prev_match_start(ms@, cur as int),
{
    let n = ms.len();
    proof {
        assert(ms@.subrange(0, n as int) =~= ms@);
    }
    let mut k: usize = n;
    while k > 0
        invariant
            n == ms@.len(),
            0 < n,
            k <= n,
            last_start_before(ms@, cur as int) == last_start_before(
                ms@.subrange(0, k as int),
                cur as int,
            ),
            forall|j: int| k <= j < n ==> ms@[j].0 >= cur,
        decreases k,
    {
        proof {
            assert(ms@.subrange(0, k as int).drop_last() =~= ms@.subrange(0, k - 1));
            assert(ms@.subrange(0, k as int).last() == ms@[k - 1]);
        }
        if ms[k - 1].0 < cur {
            return ms[k - 1].0;
        }
        k -= 1;
    }
    proof {
        assert(ms@.subrange(0, 0).len() == 0);
    }
    ms[n - 1].0
}

/// No listed match starts past `cur`, so the first-past scan comes up
/// empty.
proof fn lemma_first_after_none(ms: Seq<(usize, usize)>, cur: int)
    requires
        forall|j: int| 0 <= j < ms.len() ==> (#[trigger] ms[j]).0 <= cur,
    ensures
        first_start_after(ms, cur) is None,
    decreases ms.len(),
{
    if ms.len() > 0 {
        assert(forall|j: int|
            0 <= j < ms.drop_first().len() ==> (#[trigger] ms.drop_first()[j]).0 <= cur);
        lemma_first_after_none(ms.drop_first(), cur);
    }
}

/// Circular navigation, wrap case: when no match starts past the
/// cursor, forward navigation lands on the first match in the list.
pub proof fn lemma_next_match_wraps(ms: Seq<(usize, usize)>, cur: int)
    requires
        ms.len() > 0,
        forall|j: int| 0 <= j < ms.len() ==> (#[trigger] ms[j]).0 <= cur,
    ensures
        next_match_start(ms, cur) == ms[0].0,
{
    lemma_first_after_none(ms, cur);
}

/// Circular navigation, forward case: when some match starts past the
/// cursor, forward navigation lands on the earliest listed one that
/// does; the returned value is its position in the list.
pub proof fn lemma_next_match_advances(ms: Seq<(usize, usize)>, cur: int) -> (j: int)
    requires
        exists|i: int| 0 <= i < ms.len() && (#[trigger] ms[i]).0 > cur,
    ensures
        0 <= j < ms.len(),
        ms[j].0 == next_match_start(ms, cur),
        ms[j].0 > cur,
        forall|k: int| 0 <= k < j ==> (#[trigger] ms[k]).0 <= cur,
    decreases ms.len(),
{
    if ms[0].0 > cur {
        assert(ms[0].0 == next_match_start(ms, cur));
        0
    } else {
        let w = choose|i: int| 0 <= i < ms.len() && (#[trigger] ms[i]).0 > cur;
        assert(ms.drop_first()[w - 1].0 > cur);
        let j1 = lemma_next_match_advances(ms.drop_first(), cur);
        assert(ms[j1 + 1] == ms.drop_first()[j1]);
        assert forall|k: int| 0 <= k < j1 + 1 implies (#[trigger] ms[k]).0 <= cur by {
            if k > 0 {
                assert(ms[k] == ms.drop_first()[k - 1]);
            }
        }
        j1 + 1
    }
}

/// No listed match starts before `cur`, so the last-before scan comes up
/// empty.
proof fn lemma_last_before_none(ms: Seq<(usize, usize)>, cur: int)
    requires
        forall|j: int| 0 <= j < ms.len() ==> (#[trigger] ms[j]).0 >= cur,
    ensures
        last_start_before(ms, cur) is None,
    decreases ms.len(),
{
    if ms.len() > 0 {
        assert(forall|j: int|
            0 <= j < ms.drop_last().len() ==> (#[trigger] ms.drop_last()[j]).0 >= cur);
        lemma_last_before_none(ms.drop_last(), cur);
    }
}

/// Circular navigation, wrap case: when no match starts before the
/// cursor, backward navigation lands on the last match in the list.
pub proof fn lemma_prev_match_wraps(ms: Seq<(usize, usize)>, cur: int)
    requires
        ms.len() > 0,
        forall|j: int| 0 <= j < ms.len() ==> (#[trigger] ms[j]).0 >= cur,
    ensures
        prev_match_start(ms, cur) == ms.last().0,
{
    lemma_last_before_none(ms, cur);
}

/// Circular navigation, backward case: when some match starts before
/// the cursor, backward navigation lands on the latest listed one that
/// does; the returned value is its position in the list.
pub proof fn lemma_prev_match_retreats(ms: Seq<(usize, usize)>, cur: int) -> (j: int)
    requires
        exists|i: int| 0 <= i < ms.len() && (#[trigger] ms[i]).0 < cur,
    ensures
        0 <= j < ms.len(),
        ms[j].0 == prev_match_start(ms, cur),
        ms[j].0 < cur,
        forall|k: int| j < k < ms.len() ==> (#[trigger] ms[k]).0 >= cur,
    decreases ms.len(),
{
    if ms.last().0 < cur {
        assert(ms[ms.len() - 1].0 == prev_match_start(ms, cur));
        ms.len() - 1
    } else {
        let w = choose|i: int| 0 <= i < ms.len() && (#[trigger] ms[i]).0 < cur;
        assert(ms.drop_last()[w].0 < cur);
        let j1 = lemma_prev_match_retreats(ms.drop_last(), cur);
        assert(ms[j1] == ms.drop_last()[j1]);
        assert forall|k: int| j1 < k < ms.len() implies (#[trigger] ms[k]).0 >= cur by {
            if k < ms.len() - 1 {
                assert(ms[k] == ms.drop_last()[k]);
            }
        }
        j1
    }
}

/// How one stretch of the buffer is painted: plain text, the current
/// match, or one of the other matches.
#[derive(Clone, Copy, Debug, PartialEq, Eq, Structural)]
pub enum SpanKind {
    Plain,
    Current,
    Other,
}

/// One stretch of the buffer, half-open, with its paint.
#[derive(Clone, Copy, Debug, PartialEq, Eq, Structural)]
pub struct Span {
    pub start: usize,
    pub end: usize,
    pub kind: SpanKind,
}

/// The first listed index at or past `k` whose match starts at or past
/// the cursor, if any.
pub open spec fn first_idx_from(ms: Seq<(usize, usize)>, cur: int, k: int) -> Option<int>
    decreases ms.len() - k,
{
    if k < 0 || k >= ms.len() {
        None
    } else if ms[k].0 >= cur {
        Some(k)
    } else {
        first_idx_from(ms, cur, k + 1)
    }
}

/// Which listed match is the current one: the first whose start is at or
/// past the cursor.
pub open spec fn current_match_index(ms: Seq<(usize, usize)>, cur: int) -> Option<int> {
    first_idx_from(ms, cur, 0)
}

/// Finds the current match: the first whose start is at or past the
/// cursor.
pub fn find_current_match(ms: &Vec<(usize, usize)>, cursor: usize) -> (r: Option<usize>)
    ensures
        current_match_index(ms@, cursor as int) is Some <==> r is Some,
        r matches Some(j) ==> current_match_index(ms@, cursor as int) == Some(j as int),
{
    let n = ms.len();
    let mut k: usize = 0;
    while k < n
        invariant
            n == ms@.len(),
            k <= n,
            current_match_index(ms@, cursor as int) == first_idx_from(ms@, cursor as int, k as int),
        decreases n - k,
    {
        if ms[k].0 >= cursor {
            return Some(k);
        }
        k += 1;
    }
    None
}

/// The painted stretches read off the match list from entry `k` on, the
/// text before offset `last_end` having been emitted already: plain text
/// up to each in-bounds match, the match itself (current or other), and
/// the plain tail after the last one.
pub open spec fn spec_segments(
    len: usize,
    ms: Seq<(usize, usize)>,
    cur: Option<int>,
    k: int,
    last_end: usize,
) -> Seq<Span>
    decreases ms.len() - k,
{
    if k < 0 || k >= ms.len() {
        if last_end < len {
            seq![Span { start: last_end, end: len, kind: SpanKind::Plain }]
        } else {
            Seq::empty()
        }
    } else {
        let s = ms[k].0;
        let e = ms[k].1;
        let plain = if last_end < s && s < len {
            seq![Span { start: last_end, end: s, kind: SpanKind::Plain }]
        } else {
            Seq::empty()
        };
        let hl = if s < len && e <= len {
            seq![
                Span {
                    start: s,
                    end: e,
                    kind: if cur == Some(k) {
                        SpanKind::Current
                    } else {
                        SpanKind::Other
                    },
                },
            ]
        } else {
            Seq::empty()
        };
        plain + hl + spec_segments(len, ms, cur, k + 1, e)
    }
}

/// Computes the painted stretches of a buffer of `content_len`
/// characters whose match list is `ms` and whose cursor sits at
/// `cursor`.
pub fn highlight_segments(content_len: usize, ms: &Vec<(usize, usize)>, cursor: usize) -> (r: Vec<
    Span,
>)
    ensures
        r@ == spec_segments(
            content_len,
            ms@,
            current_match_index(ms@, cursor as int),
            0,
            0,
        ),
{
    let cur = find_current_match(ms, cursor);
    let ghost gcur = current_match_index(ms@, cursor as int);
    let n = ms.len();
    let mut r: Vec<Span> = Vec::new();
    let mut last_end: usize = 0;
    let mut k: usize = 0;
    while k < n
        invariant
            n == ms@.len(),
            k <= n,
            gcur == current_match_index(ms@, cursor as int),
            gcur is Some <==> cur is Some,
            cur matches Some(j) ==> gcur == Some(j as int),
            spec_segments(content_len, ms@, gcur, 0, 0) =~= r@ + spec_segments(
                content_len,
                ms@,
                gcur,
                k as int,
                last_end,
            ),
        decreases n - k,
    {
        let ghost r0 = r@;
        let ghost le0 = last_end;
        let (s, e) = ms[k];
        let mut is_cur = false;
        if let Some(ci) = cur {
            is_cur = ci == k;
        }
        if last_end < s && s < content_len {
            r.push(Span { start: last_end, end: s, kind: SpanKind::Plain });
        }
        if s < content_len && e <= content_len {
            r.push(
                Span {
                    start: s,
                    end: e,
                    kind: if is_cur {
                        SpanKind::Current
                    } else {
                        SpanKind::Other
                    },
                },
            );
        }
        proof {
            let plain = if le0 < s && s < content_len {
                seq![Span { start: le0, end: s, kind: SpanKind::Plain }]
            } else {
                Seq::<Span>::empty()
            };
            let hl = if s < content_len && e <= content_len {
                seq![
                    Span {
                        start: s,
                        end: e,
                        kind: if gcur == Some(k as int) {
                            SpanKind::Current
                        } else {
                            SpanKind::Other
                        },
                    },
                ]
            } else {
                Seq::<Span>::empty()
            };
            assert(is_cur == (gcur == Some(k as int)));
            assert(r@ =~= r0 + plain + hl);
            assert(spec_segments(content_len, ms@, gcur, k as int, le0) =~= plain + hl
                + spec_segments(content_len, ms@, gcur, k + 1, e));
            assert(r0 + spec_segments(content_len, ms@, gcur, k as int, le0) =~= r@
                + spec_segments(content_len, ms@, gcur, k + 1, e));
        }
        last_end = e;
        k += 1;
    }
    if last_end < content_len {
        r.push(Span { start: last_end, end: content_len, kind: SpanKind::Plain });
    }
    proof {
        assert(r@ =~= spec_segments(content_len, ms@, gcur, 0, 0));
    }
    r
}

} // verus!
