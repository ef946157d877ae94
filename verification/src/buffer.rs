//! The output-offset buffer and the verified translation of its raw
//! start/end pairs into captured substrings.
//!
//! The engine reports each capture slot as a pair of signed 32-bit byte
//! offsets into the subject. A pair with a negative offset, or with start
//! equal to end, marks a group that did not participate in the match and is
//! skipped — never emitted as an empty placeholder. The remaining pairs, in
//! ascending group order, are sliced out of the subject; an offset that is
//! reversed, out of bounds, or off a character boundary is the engine
//! breaking its contract and is reported, not sliced.

use vstd::prelude::*;
use vstd::string::StringSliceAdditionalSpecFns;
use vstd::utf8::encode_utf8;
use vstd::utf8::is_char_boundary;

use crate::errors::Error;

verus! {

/// Number of signed 32-bit slots in the offset buffer handed to the engine.
pub const OVEC_SLOTS: usize = 30;

/// Capture pairs of the buffer that the engine actually fills: it reserves
/// the top third of the slots as workspace, so of `OVEC_SLOTS` slots only
/// the first `OVEC_SLOTS / 3` pairs carry offsets, pair 0 being the whole
/// match.
pub const USABLE_PAIRS: usize = OVEC_SLOTS / 3;

/// A pair that denotes a non-participating group: a negative offset or an
/// empty span.
pub open spec fn pair_unset(s: i32, e: i32) -> bool {
    s == e || s < 0 || e < 0
}

/// The byte spans of the participating capture pairs among pairs `lo..hi`
/// of the buffer, in ascending pair order.
pub open spec fn capture_spans(slots: Seq<i32>, lo: int, hi: int) -> Seq<(int, int)>
    decreases hi - lo,
{
    if hi <= lo {
        Seq::empty()
    } else if pair_unset(slots[2 * (hi - 1)], slots[2 * (hi - 1) + 1]) {
        capture_spans(slots, lo, hi - 1)
    } else {
        capture_spans(slots, lo, hi - 1) + seq![
            (slots[2 * (hi - 1)] as int, slots[2 * (hi - 1) + 1] as int),
        ]
    }
}

/// A span that can be sliced out of the subject's bytes: ordered, in
/// bounds, and on character boundaries at both ends.
pub open spec fn span_sliceable(sb: Seq<u8>, s: int, e: int) -> bool {
    0 <= s <= e <= sb.len() && is_char_boundary(sb, s) && is_char_boundary(sb, e)
}

pub open spec fn all_spans_sliceable(spans: Seq<(int, int)>, sb: Seq<u8>) -> bool {
    forall|j: int| 0 <= j < spans.len() ==> span_sliceable(sb, spans[j].0, spans[j].1)
}

/// The extracted substrings are exactly the given spans of the subject's
/// bytes, in order.
pub open spec fn groups_match_spans(groups: Seq<String>, spans: Seq<(int, int)>, sb: Seq<u8>) -> bool {
    &&& groups.len() == spans.len()
    &&& forall|j: int|
        0 <= j < spans.len() ==> encode_utf8(#[trigger] groups[j]@) == sb.subrange(
            spans[j].0,
            spans[j].1,
        )
}

/// No extracted substring is an empty placeholder.
pub open spec fn groups_nonempty(groups: Seq<String>) -> bool {
    forall|j: int| 0 <= j < groups.len() ==> (#[trigger] groups[j]@).len() > 0
}

/// What one buffer pair holds after the buffer is filled from the engine's
/// reported capture pairs: the reported offsets where they exist, and the
/// unset pair `(-1, -1)` everywhere else.
pub open spec fn pair_models(slots: Seq<i32>, pairs: Seq<Option<(usize, usize)>>, i: int) -> bool {
    if 0 <= i < pairs.len() && pairs[i] is Some {
        slots[2 * i] == pairs[i]->Some_0.0 as i32 && slots[2 * i + 1] == pairs[i]->Some_0.1 as i32
    } else {
        slots[2 * i] == -1i32 && slots[2 * i + 1] == -1i32
    }
}

pub open spec fn buffer_models(slots: Seq<i32>, pairs: Seq<Option<(usize, usize)>>) -> bool {
    forall|i: int| 0 <= i < OVEC_SLOTS as int / 2 ==> #[trigger] pair_models(slots, pairs, i)
}

/// Slot `n` of the buffer that the engine's reported capture pairs fill.
pub open spec fn slot_at(pairs: Seq<Option<(usize, usize)>>, n: int) -> i32 {
    let i = n / 2;
    if 0 <= i < pairs.len() && pairs[i] is Some {
        if n % 2 == 0 {
            pairs[i]->Some_0.0 as i32
        } else {
            pairs[i]->Some_0.1 as i32
        }
    } else {
        (-1) as i32
    }
}

/// The whole buffer, as a function of the engine's reported capture pairs.
pub open spec fn slots_of(pairs: Seq<Option<(usize, usize)>>) -> Seq<i32> {
    Seq::new(OVEC_SLOTS as nat, |n: int| slot_at(pairs, n))
}

/// The count of participating pairs among pairs `lo..hi` of the buffer.
pub open spec fn participating_count(slots: Seq<i32>, lo: int, hi: int) -> int
    decreases hi - lo,
{
    if hi <= lo {
        0
    } else if pair_unset(slots[2 * (hi - 1)], slots[2 * (hi - 1) + 1]) {
        participating_count(slots, lo, hi - 1)
    } else {
        participating_count(slots, lo, hi - 1) + 1
    }
}

/// Law: extraction emits exactly one substring per participating pair —
/// unset pairs contribute nothing, set pairs contribute one entry each.
pub proof fn lemma_spans_count_participating(slots: Seq<i32>, lo: int, hi: int)
    ensures
        capture_spans(slots, lo, hi).len() == participating_count(slots, lo, hi),
        participating_count(slots, lo, hi) <= if hi <= lo {
            0
        } else {
            hi - lo
        },
    decreases hi - lo,
{
    if hi <= lo {
    } else {
        lemma_spans_count_participating(slots, lo, hi - 1);
    }
}

/// Law: a pair whose group did not participate shortens the extracted
/// sequence below the pair count — the group is skipped, never emitted as
/// an empty placeholder.
pub proof fn lemma_unset_pair_excluded(slots: Seq<i32>, lo: int, hi: int, k: int)
    requires
        lo <= k < hi,
        pair_unset(slots[2 * k], slots[2 * k + 1]),
    ensures
        capture_spans(slots, lo, hi).len() < hi - lo,
    decreases hi - lo,
{
    lemma_spans_count_participating(slots, lo, hi);
    if k == hi - 1 {
        lemma_spans_count_participating(slots, lo, hi - 1);
    } else {
        lemma_unset_pair_excluded(slots, lo, hi - 1, k);
        lemma_spans_count_participating(slots, lo, hi - 1);
    }
}

/// Pairs that are all unset contribute nothing to the count.
proof fn lemma_count_unset_tail(slots: Seq<i32>, lo: int, mid: int, hi: int)
    requires
        lo <= mid <= hi,
        forall|i: int| mid <= i < hi ==> pair_unset(#[trigger] slots[2 * i], slots[2 * i + 1]),
    ensures
        participating_count(slots, lo, hi) == participating_count(slots, lo, mid),
    decreases hi - mid,
{
    if hi <= mid {
    } else {
        lemma_count_unset_tail(slots, lo, mid, hi - 1);
    }
}

/// Law: a capturing group that did not participate in the match leaves the
/// extracted sequence shorter than the pattern's group count — the engine
/// reporting one pair per group beside the whole-match pair — rather than
/// filling its place with an empty string.
pub proof fn lemma_nonparticipating_group_shortens(
    slots: Seq<i32>,
    pairs: Seq<Option<(usize, usize)>>,
    k: int,
)
    requires
        slots.len() == OVEC_SLOTS,
        buffer_models(slots, pairs),
        pairs.len() <= USABLE_PAIRS as int,
        1 <= k < pairs.len(),
        pairs[k] is None,
    ensures
        capture_spans(slots, 1, USABLE_PAIRS as int).len() < pairs.len() - 1,
{
    assert(pair_models(slots, pairs, k));
    assert forall|i: int| pairs.len() <= i < USABLE_PAIRS as int implies pair_unset(
        #[trigger] slots[2 * i],
        slots[2 * i + 1],
    ) by {
        assert(pair_models(slots, pairs, i));
    };
    lemma_spans_count_participating(slots, 1, USABLE_PAIRS as int);
    lemma_count_unset_tail(slots, 1, pairs.len() as int, USABLE_PAIRS as int);
    lemma_count_with_unset(slots, 1, pairs.len() as int, k);
}

/// A range holding an unset pair counts at most one fewer participant than
/// it has pairs.
proof fn lemma_count_with_unset(slots: Seq<i32>, lo: int, hi: int, k: int)
    requires
        lo <= k < hi,
        pair_unset(slots[2 * k], slots[2 * k + 1]),
    ensures
        participating_count(slots, lo, hi) <= hi - lo - 1,
    decreases hi - lo,
{
    lemma_spans_count_participating(slots, lo, hi - 1);
    if k == hi - 1 {
    } else {
        lemma_count_with_unset(slots, lo, hi - 1, k);
    }
}

/// Pairs that are all unset extract nothing.
proof fn lemma_all_unset_spans_empty(slots: Seq<i32>, lo: int, hi: int)
    requires
        forall|i: int| lo <= i < hi ==> pair_unset(#[trigger] slots[2 * i], slots[2 * i + 1]),
    ensures
        capture_spans(slots, lo, hi).len() == 0,
    decreases hi - lo,
{
    if hi <= lo {
    } else {
        lemma_all_unset_spans_empty(slots, lo, hi - 1);
    }
}

/// Law: a pattern with no capturing groups extracts no substrings. When
/// the engine reports no capture pair beyond the whole-match pair, every
/// usable capture pair of the filled buffer is unset, so any successful
/// match yields an empty substring sequence.
pub proof fn lemma_whole_match_only_extracts_nothing(
    slots: Seq<i32>,
    pairs: Seq<Option<(usize, usize)>>,
)
    requires
        slots.len() == OVEC_SLOTS,
        buffer_models(slots, pairs),
        pairs.len() <= 1,
    ensures
        capture_spans(slots, 1, USABLE_PAIRS as int).len() == 0,
{
    assert forall|i: int| 1 <= i < USABLE_PAIRS as int implies pair_unset(
        #[trigger] slots[2 * i],
        slots[2 * i + 1],
    ) by {
        assert(pair_models(slots, pairs, i));
    };
    lemma_all_unset_spans_empty(slots, 1, USABLE_PAIRS as int);
}

/// The subslice of `s` over the byte range `start..end` when both ends lie
/// on character boundaries and `start <= end <= length`, and `None`
/// otherwise.
pub(crate) fn slice_str<'a>(s: &'a str, start: usize, end: usize) -> (r: Option<&'a str>)
    requires
        s.spec_bytes().len() <= usize::MAX,
    ensures
        r is Some <==> (start <= end && end <= s.spec_bytes().len() && is_char_boundary(
            s.spec_bytes(),
            start as int,
        ) && is_char_boundary(s.spec_bytes(), end as int)),
        r matches Some(t) ==> t.spec_bytes() == s.spec_bytes().subrange(start as int, end as int),
{
    broadcast use vstd::utf8::encode_utf8_valid_utf8;
    broadcast use vstd::utf8::is_char_boundary_start_end_of_seq;

    if !(start <= end && end <= s.len() && s.is_char_boundary(start) && s.is_char_boundary(end)) {
        return None;
    }
    let (_, tail) = s.split_at(start);
    proof {
        let sb = s.spec_bytes();
        let tb = tail.spec_bytes();
        assert(tb =~= sb.subrange(start as int, sb.len() as int));
        if end < sb.len() {
            vstd::utf8::is_char_boundary_iff_not_is_continuation_byte(sb, end as int);
            vstd::utf8::is_char_boundary_iff_not_is_continuation_byte(
                tb,
                end as int - start as int,
            );
            assert(tb[end as int - start as int] == sb[end as int]);
        } else {
            assert(end - start == tb.len());
        }
    }
    let (piece, _) = tail.split_at(end - start);
    proof {
        assert(piece.spec_bytes() =~= s.spec_bytes().subrange(start as int, end as int));
    }
    Some(piece)
}

/// The fixed-capacity buffer of raw start/end byte offsets, one signed
/// 32-bit slot each, pair `i` at slots `2i` and `2i + 1`.
pub struct OffsetBuffer {
    slots: Vec<i32>,
}

impl View for OffsetBuffer {
    type V = Seq<i32>;

    closed spec fn view(&self) -> Seq<i32> {
        self.slots@
    }
}

impl OffsetBuffer {
    pub open spec fn wf(self) -> bool {
        self@.len() == OVEC_SLOTS
    }

    /// Fill a fresh buffer from the capture pairs the engine reported:
    /// pair `i` takes the `i`-th reported offsets where they exist, and the
    /// unset pair `(-1, -1)` everywhere else.
    pub fn from_engine(pairs: &Vec<Option<(usize, usize)>>) -> (r: OffsetBuffer)
        requires
            forall|i: int|
                0 <= i < pairs@.len() ==> (#[trigger] pairs@[i] matches Some(p) ==> p.0
                    <= i32::MAX && p.1 <= i32::MAX),
        ensures
            r.wf(),
            buffer_models(r@, pairs@),
            r@ == slots_of(pairs@),
    {
        let mut slots: Vec<i32> = Vec::new();
        let mut i: usize = 0;
        while i < OVEC_SLOTS / 2
            invariant
                i <= OVEC_SLOTS / 2,
                slots@.len() == 2 * i,
                forall|j: int| 0 <= j < i ==> #[trigger] pair_models(slots@, pairs@, j),
                forall|k: int|
                    0 <= k < pairs@.len() ==> (#[trigger] pairs@[k] matches Some(p) ==> p.0
                        <= i32::MAX && p.1 <= i32::MAX),
            decreases OVEC_SLOTS / 2 - i,
        {
            let (s, e): (i32, i32) = if i < pairs.len() {
                match pairs[i] {
                    Some(p) => (p.0 as i32, p.1 as i32),
                    None => (-1, -1),
                }
            } else {
                (-1, -1)
            };
            let ghost prev_slots = slots@;
            slots.push(s);
            slots.push(e);
            proof {
                assert(pair_models(slots@, pairs@, i as int));
                assert forall|j: int| 0 <= j < i implies #[trigger] pair_models(
                    slots@,
                    pairs@,
                    j,
                ) by {
                    assert(pair_models(prev_slots, pairs@, j));
                    assert(slots@[2 * j] == prev_slots[2 * j]);
                    assert(slots@[2 * j + 1] == prev_slots[2 * j + 1]);
                };
            }
            i = i + 1;
        }
        proof {
            assert forall|n: int| 0 <= n < OVEC_SLOTS as int implies slots@[n] == slot_at(
                pairs@,
                n,
            ) by {
                let j = n / 2;
                assert(n == 2 * j || n == 2 * j + 1);
                assert(pair_models(slots@, pairs@, j));
            };
            assert(slots@ =~= slots_of(pairs@));
        }
        OffsetBuffer { slots }
    }

    /// Translate the buffer's usable capture pairs — pairs 1 up to
    /// `USABLE_PAIRS`, pair 0 being the whole match — into the ordered
    /// sequence of captured substrings, each an owned copy of a slice of the
    /// subject. Unset pairs are skipped. Fails exactly when some
    /// participating pair cannot be sliced: reversed, out of the subject's
    /// bounds, or off a character boundary.
    pub fn extract(&self, subject: &str) -> (r: Result<Vec<String>, Error>)
        requires
            self.wf(),
            subject.spec_bytes().len() <= i32::MAX,
        ensures
            match r {
                Ok(groups) => {
                    &&& all_spans_sliceable(
                        capture_spans(self@, 1, USABLE_PAIRS as int),
                        subject.spec_bytes(),
                    )
                    &&& groups_match_spans(
                        groups@,
                        capture_spans(self@, 1, USABLE_PAIRS as int),
                        subject.spec_bytes(),
                    )
                    &&& groups_nonempty(groups@)
                },
                Err(e) => {
                    &&& e == Error::ExtractionError
                    &&& !all_spans_sliceable(
                        capture_spans(self@, 1, USABLE_PAIRS as int),
                        subject.spec_bytes(),
                    )
                },
            },
    {
        let ghost sb = subject.spec_bytes();
        let sb_len = subject.len();
        let mut groups: Vec<String> = Vec::new();
        let mut bad = false;
        let mut i: usize = 1;
        while i < USABLE_PAIRS
            invariant
                1 <= i <= USABLE_PAIRS,
                self.wf(),
                sb == subject.spec_bytes(),
                sb_len == sb.len(),
                !bad ==> all_spans_sliceable(capture_spans(self@, 1, i as int), sb),
                !bad ==> groups_match_spans(groups@, capture_spans(self@, 1, i as int), sb),
                !bad ==> groups_nonempty(groups@),
                bad ==> !all_spans_sliceable(capture_spans(self@, 1, i as int), sb),
            decreases USABLE_PAIRS - i,
        {
            let s = self.slots[2 * i];
            let e = self.slots[2 * i + 1];
            let ghost prev = capture_spans(self@, 1, i as int);
            let ghost cur = capture_spans(self@, 1, i as int + 1);
            if !(s == e || s < 0 || e < 0) {
                proof {
                    assert(cur == prev + seq![(s as int, e as int)]);
                }
                let su = s as usize;
                let eu = e as usize;
                if !bad && su <= eu && eu <= sb_len && subject.is_char_boundary(su)
                    && subject.is_char_boundary(eu) {
                    match slice_str(subject, su, eu) {
                        Some(piece) => {
                            proof {
                                assert(encode_utf8(piece@) == sb.subrange(s as int, e as int));
                                assert(piece@.len() > 0) by {
                                    if piece@.len() == 0 {
                                        assert(encode_utf8(piece@) =~= Seq::<u8>::empty());
                                    }
                                };
                            }
                            groups.push(piece.to_owned());
                            proof {
                                assert forall|j: int| 0 <= j < cur.len() implies span_sliceable(
                                    sb,
                                    cur[j].0,
                                    cur[j].1,
                                ) by {
                                    if j < prev.len() {
                                        assert(cur[j] == prev[j]);
                                    }
                                };
                                assert forall|j: int| 0 <= j < cur.len() implies encode_utf8(
                                    #[trigger] groups@[j]@,
                                ) == sb.subrange(cur[j].0, cur[j].1) by {
                                    if j < prev.len() {
                                        assert(cur[j] == prev[j]);
                                    }
                                };
                            }
                        },
                        None => {
                            proof {
                                assert(false);
                            }
                        },
                    }
                } else {
                    proof {
                        if !bad {
                            assert(!span_sliceable(sb, s as int, e as int));
                            assert(cur[cur.len() - 1] == (s as int, e as int));
                        } else {
                            let j = choose|j: int|
                                0 <= j < prev.len() && !span_sliceable(sb, prev[j].0, prev[j].1);
                            assert(cur[j] == prev[j]);
                        }
                    }
                    bad = true;
                }
            } else {
                proof {
                    assert(cur == prev);
                }
            }
            i = i + 1;
        }
        if bad {
            Err(Error::ExtractionError)
        } else {
            Ok(groups)
        }
    }
}

} // verus!
