use vstd::prelude::*;

verus! {

/// The indices below `n` whose flag in `keep` is set, in increasing order.
pub open spec fn kept_indices(keep: Seq<bool>, n: int) -> Seq<int>
    decreases n,
{
    if n <= 0 {
        Seq::empty()
    } else if keep[n - 1] {
        kept_indices(keep, n - 1).push(n - 1)
    } else {
        kept_indices(keep, n - 1)
    }
}

/// The number of matches kept at most: `max_matches`, and never fewer than one.
pub open spec fn match_cap(max_matches: usize) -> int {
    if max_matches == 0 {
        1
    } else {
        max_matches as int
    }
}

/// The candidate indices that a selection keeps: among the first `count` candidates, those
/// whose flag is set, in order, up to the cap.
pub open spec fn selected_indices(keep: Seq<bool>, count: int, max_matches: usize) -> Seq<int> {
    let kept = kept_indices(keep, count);
    if kept.len() <= match_cap(max_matches) {
        kept
    } else {
        kept.take(match_cap(max_matches))
    }
}

/// The number of candidates a match can offer: as many as all three outputs provide.
pub open spec fn candidate_count(n0: int, n1: int, nc: int) -> int {
    if n0 <= n1 && n0 <= nc {
        n0
    } else if n1 <= nc {
        n1
    } else {
        nc
    }
}

/// The matches a selection keeps, each output taken by view.
pub struct MatchBitsView {
    pub keypoints0: Seq<(u32, u32)>,
    pub keypoints1: Seq<(u32, u32)>,
    pub confidence: Seq<u32>,
}

/// The matches kept from a model's output, with coordinates and confidences held by the bit
/// patterns of their 32-bit floats.
#[derive(Clone, Debug)]
pub struct MatchBits {
    pub keypoints0: Vec<(u32, u32)>,
    pub keypoints1: Vec<(u32, u32)>,
    pub confidence: Vec<u32>,
}

impl View for MatchBits {
    type V = MatchBitsView;

    open spec fn view(&self) -> MatchBitsView {
        MatchBitsView {
            keypoints0: self.keypoints0@,
            keypoints1: self.keypoints1@,
            confidence: self.confidence@,
        }
    }
}

/// What a selection returns, given the decoded outputs and the confidence flags.
pub open spec fn selected_matches(
    keypoints0: Seq<(u32, u32)>,
    keypoints1: Seq<(u32, u32)>,
    confidence: Seq<u32>,
    keep: Seq<bool>,
    max_matches: usize,
) -> MatchBitsView {
    let count = candidate_count(
        keypoints0.len() as int,
        keypoints1.len() as int,
        confidence.len() as int,
    );
    let chosen = selected_indices(keep, count, max_matches);
    MatchBitsView {
        keypoints0: chosen.map_values(|i: int| keypoints0[i]),
        keypoints1: chosen.map_values(|i: int| keypoints1[i]),
        confidence: chosen.map_values(|i: int| confidence[i]),
    }
}

/// Every index kept below `n` is below `n`, is flagged, and the list is strictly increasing.
pub proof fn lemma_kept_indices_shape(keep: Seq<bool>, n: int)
    requires
        0 <= n <= keep.len(),
    ensures
        kept_indices(keep, n).len() <= n,
        forall|k: int|
            0 <= k < kept_indices(keep, n).len() ==> 0 <= #[trigger] kept_indices(keep, n)[k] < n
                && keep[kept_indices(keep, n)[k]],
        forall|a: int, b: int|
            0 <= a < b < kept_indices(keep, n).len() ==> kept_indices(keep, n)[a] < kept_indices(
                keep,
                n,
            )[b],
        forall|i: int| 0 <= i < n && keep[i] ==> kept_indices(keep, n).contains(i),
    decreases n,
{
    if n > 0 {
        lemma_kept_indices_shape(keep, n - 1);
        let prev = kept_indices(keep, n - 1);
        if keep[n - 1] {
            assert forall|i: int| 0 <= i < n && keep[i] implies kept_indices(keep, n).contains(
                i,
            ) by {
                if i == n - 1 {
                    assert(kept_indices(keep, n)[prev.len() as int] == i);
                } else {
                    let k = choose|k: int| 0 <= k < prev.len() && prev[k] == i;
                    assert(kept_indices(keep, n)[k] == i);
                }
            }
        }
    }
}

/// Scanning further never changes the indices kept so far: the earlier list is a prefix.
proof fn lemma_kept_indices_prefix(keep: Seq<bool>, m: int, n: int)
    requires
        0 <= m <= n,
    ensures
        kept_indices(keep, m).len() <= kept_indices(keep, n).len(),
        kept_indices(keep, n).take(kept_indices(keep, m).len() as int) == kept_indices(keep, m),
    decreases n - m,
{
    if m < n {
        lemma_kept_indices_prefix(keep, m, n - 1);
        let short = kept_indices(keep, m);
        let mid = kept_indices(keep, n - 1);
        let long = kept_indices(keep, n);
        if n - 1 >= 0 && keep[n - 1] {
            assert(long.take(short.len() as int) =~= mid.take(short.len() as int));
        }
    } else {
        assert(kept_indices(keep, n).take(kept_indices(keep, n).len() as int) =~= kept_indices(
            keep,
            n,
        ));
    }
}

/// Keeps the candidates whose confidence passed the threshold, in order, stopping once
/// `max(max_matches, 1)` matches are kept. `keep[i]` tells whether candidate `i` passed.
pub fn select_matches(
    keypoints0: &[(u32, u32)],
    keypoints1: &[(u32, u32)],
    confidence: &[u32],
    keep: &[bool],
    max_matches: usize,
) -> (out: MatchBits)
    requires
        keep@.len() == confidence@.len(),
    ensures
        out@ == selected_matches(keypoints0@, keypoints1@, confidence@, keep@, max_matches),
{
    let count = if keypoints0.len() <= keypoints1.len() && keypoints0.len() <= confidence.len() {
        keypoints0.len()
    } else if keypoints1.len() <= confidence.len() {
        keypoints1.len()
    } else {
        confidence.len()
    };
    let cap = if max_matches == 0 {
        1
    } else {
        max_matches
    };
    let ghost chosen = selected_indices(keep@, count as int, max_matches);
    let ghost kept_all = kept_indices(keep@, count as int);
    let mut out0: Vec<(u32, u32)> = Vec::new();
    let mut out1: Vec<(u32, u32)> = Vec::new();
    let mut outc: Vec<u32> = Vec::new();
    let mut i: usize = 0;
    while i < count
        invariant_except_break
            kept_indices(keep@, i as int).len() < cap,
        invariant
            0 <= i <= count,
            count == candidate_count(
                keypoints0@.len() as int,
                keypoints1@.len() as int,
                confidence@.len() as int,
            ),
            count <= keypoints0@.len(),
            count <= keypoints1@.len(),
            count <= confidence@.len(),
            keep@.len() == confidence@.len(),
            cap == match_cap(max_matches),
            outc@.len() == kept_indices(keep@, i as int).len(),
            out0@ == kept_indices(keep@, i as int).map_values(|k: int| keypoints0@[k]),
            out1@ == kept_indices(keep@, i as int).map_values(|k: int| keypoints1@[k]),
            outc@ == kept_indices(keep@, i as int).map_values(|k: int| confidence@[k]),
        ensures
            outc@.len() == kept_indices(keep@, i as int).len(),
            out0@ == kept_indices(keep@, i as int).map_values(|k: int| keypoints0@[k]),
            out1@ == kept_indices(keep@, i as int).map_values(|k: int| keypoints1@[k]),
            outc@ == kept_indices(keep@, i as int).map_values(|k: int| confidence@[k]),
            i == count || kept_indices(keep@, i as int).len() == cap,
            kept_indices(keep@, i as int).len() <= cap,
        decreases count - i,
    {
        let ghost before = kept_indices(keep@, i as int);
        if keep[i] {
            out0.push(keypoints0[i]);
            out1.push(keypoints1[i]);
            outc.push(confidence[i]);
            i = i + 1;
            assert(kept_indices(keep@, i as int) == before.push(i - 1));
            assert(out0@ =~= kept_indices(keep@, i as int).map_values(|k: int| keypoints0@[k]));
            assert(out1@ =~= kept_indices(keep@, i as int).map_values(|k: int| keypoints1@[k]));
            assert(outc@ =~= kept_indices(keep@, i as int).map_values(|k: int| confidence@[k]));
            if outc.len() >= cap {
                break;
            }
        } else {
            i = i + 1;
        }
    }
    proof {
        lemma_kept_indices_prefix(keep@, i as int, count as int);
        let got = kept_indices(keep@, i as int);
        if i < count {
            assert(got.len() == cap);
            assert(kept_all.take(cap as int) == got);
            if kept_all.len() == cap {
                assert(kept_all.take(cap as int) =~= kept_all);
            }
            assert(chosen =~= got);
        } else {
            assert(got.len() <= cap);
            assert(chosen =~= got);
        }
    }
    MatchBits { keypoints0: out0, keypoints1: out1, confidence: outc }
}

/// A selection keeps its three outputs aligned and within the cap; every kept match comes
/// from a candidate whose flag is set, candidates keep their order, and when fewer flagged
/// candidates exist than the cap allows, all of them are kept.
pub proof fn lemma_selection_properties(
    keypoints0: Seq<(u32, u32)>,
    keypoints1: Seq<(u32, u32)>,
    confidence: Seq<u32>,
    keep: Seq<bool>,
    max_matches: usize,
)
    requires
        keep.len() == confidence.len(),
    ensures
        ({
            let out = selected_matches(keypoints0, keypoints1, confidence, keep, max_matches);
            let count = candidate_count(
                keypoints0.len() as int,
                keypoints1.len() as int,
                confidence.len() as int,
            );
            let chosen = selected_indices(keep, count, max_matches);
            &&& out.keypoints0.len() == out.keypoints1.len()
            &&& out.keypoints1.len() == out.confidence.len()
            &&& 1 <= match_cap(max_matches)
            &&& out.confidence.len() <= match_cap(max_matches)
            &&& out.confidence.len() == chosen.len()
            &&& forall|k: int|
                0 <= k < chosen.len() ==> {
                    &&& 0 <= #[trigger] chosen[k] < count
                    &&& keep[chosen[k]]
                    &&& out.keypoints0[k] == keypoints0[chosen[k]]
                    &&& out.keypoints1[k] == keypoints1[chosen[k]]
                    &&& out.confidence[k] == confidence[chosen[k]]
                }
            &&& forall|a: int, b: int| 0 <= a < b < chosen.len() ==> chosen[a] < chosen[b]
            &&& kept_indices(keep, count).len() <= match_cap(max_matches) ==> forall|i: int|
                0 <= i < count && keep[i] ==> chosen.contains(i)
        }),
{
    let count = candidate_count(
        keypoints0.len() as int,
        keypoints1.len() as int,
        confidence.len() as int,
    );
    lemma_kept_indices_shape(keep, count);
}

/// A smaller cap keeps a prefix of what a larger cap keeps, of length the smaller cap or
/// all there is.
pub proof fn lemma_cap_keeps_prefix(
    keypoints0: Seq<(u32, u32)>,
    keypoints1: Seq<(u32, u32)>,
    confidence: Seq<u32>,
    keep: Seq<bool>,
    smaller: usize,
    larger: usize,
)
    requires
        smaller <= larger,
    ensures
        ({
            let small = selected_matches(keypoints0, keypoints1, confidence, keep, smaller);
            let large = selected_matches(keypoints0, keypoints1, confidence, keep, larger);
            let n = small.confidence.len() as int;
            &&& n == (if match_cap(smaller) <= large.confidence.len() {
                match_cap(smaller)
            } else {
                large.confidence.len() as int
            })
            &&& small.keypoints0 == large.keypoints0.take(n)
            &&& small.keypoints1 == large.keypoints1.take(n)
            &&& small.confidence == large.confidence.take(n)
        }),
{
    let count = candidate_count(
        keypoints0.len() as int,
        keypoints1.len() as int,
        confidence.len() as int,
    );
    let kept = kept_indices(keep, count);
    let s = selected_indices(keep, count, smaller);
    let l = selected_indices(keep, count, larger);
    let n = s.len() as int;
    assert(s =~= l.take(n));
    let small = selected_matches(keypoints0, keypoints1, confidence, keep, smaller);
    let large = selected_matches(keypoints0, keypoints1, confidence, keep, larger);
    assert(small.keypoints0 =~= large.keypoints0.take(n));
    assert(small.keypoints1 =~= large.keypoints1.take(n));
    assert(small.confidence =~= large.confidence.take(n));
}

/// A cap of zero keeps at most one match, exactly as a cap of one does.
pub proof fn lemma_zero_cap_acts_as_one(
    keypoints0: Seq<(u32, u32)>,
    keypoints1: Seq<(u32, u32)>,
    confidence: Seq<u32>,
    keep: Seq<bool>,
)
    ensures
        selected_matches(keypoints0, keypoints1, confidence, keep, 0) == selected_matches(
            keypoints0,
            keypoints1,
            confidence,
            keep,
            1,
        ),
{
}

/// The magnitude bits of a 32-bit float: everything but the sign.
pub open spec fn float_magnitude(bits: u32) -> int {
    (bits % 0x8000_0000) as int
}

/// Whether the bit pattern is a NaN: all exponent bits set and a non-zero fraction.
pub open spec fn float_is_nan(bits: u32) -> bool {
    float_magnitude(bits) > 0x7f80_0000
}

/// A number that orders non-NaN floats as their values do (both zeros map to 0).
pub open spec fn float_key(bits: u32) -> int {
    if bits < 0x8000_0000 {
        bits as int
    } else {
        -float_magnitude(bits)
    }
}

/// IEEE-754 `<` on the floats with the given bit patterns: false when either is NaN.
pub open spec fn float_less(a: u32, b: u32) -> bool {
    !float_is_nan(a) && !float_is_nan(b) && float_key(a) < float_key(b)
}

fn ordering_key(bits: u32) -> (k: i64)
    ensures
        k == float_key(bits),
{
    if bits < 0x8000_0000 {
        bits as i64
    } else {
        -((bits % 0x8000_0000) as i64)
    }
}

/// Compares two 32-bit floats, given by their bit patterns, with IEEE-754 `<`.
pub fn float_bits_less(a: u32, b: u32) -> (r: bool)
    ensures
        r == float_less(a, b),
{
    let a_nan = a % 0x8000_0000 > 0x7f80_0000;
    let b_nan = b % 0x8000_0000 > 0x7f80_0000;
    !a_nan && !b_nan && ordering_key(a) < ordering_key(b)
}

/// Which confidences pass the threshold: those that do not compare below it.
pub open spec fn threshold_flags(confidence: Seq<u32>, threshold: u32) -> Seq<bool> {
    confidence.map_values(|c: u32| !float_less(c, threshold))
}

/// A confidence passes the threshold exactly when it does not compare below the threshold as
/// given. For non-negative, non-NaN values the comparison is that of the bit patterns, so a
/// confidence passes exactly when its pattern is at least the threshold's; a NaN confidence
/// always passes, and so does every confidence when the threshold is NaN; a threshold at or
/// below zero passes every non-negative confidence; a negative confidence fails every
/// non-negative threshold; and between values at or below zero the larger magnitude is the
/// smaller value, so a confidence passes exactly when its pattern is at most the threshold's.
pub proof fn lemma_threshold_rule(confidence: Seq<u32>, threshold: u32)
    ensures
        threshold_flags(confidence, threshold).len() == confidence.len(),
        forall|i: int|
            0 <= i < confidence.len() && confidence[i] <= 0x7f80_0000 && threshold <= 0x7f80_0000
                ==> (#[trigger] threshold_flags(confidence, threshold)[i] <==> confidence[i]
                >= threshold),
        forall|i: int|
            0 <= i < confidence.len() && 0x7f80_0000 < confidence[i] % 0x8000_0000 ==> #[trigger] threshold_flags(
                confidence,
                threshold,
            )[i],
        0x7f80_0000 < threshold % 0x8000_0000 ==> forall|i: int|
            0 <= i < confidence.len() ==> #[trigger] threshold_flags(confidence, threshold)[i],
        forall|i: int|
            0 <= i < confidence.len() && confidence[i] <= 0x7f80_0000 && 0x8000_0000 <= threshold
                && threshold <= 0xff80_0000 ==> #[trigger] threshold_flags(confidence, threshold)[i],
        forall|i: int|
            0 <= i < confidence.len() && 0x8000_0000 < confidence[i] && confidence[i] <= 0xff80_0000
                && threshold <= 0x7f80_0000 ==> !#[trigger] threshold_flags(confidence, threshold)[i],
        forall|i: int|
            0 <= i < confidence.len() && 0x8000_0000 <= confidence[i] && confidence[i] <= 0xff80_0000
                && 0x8000_0000 <= threshold && threshold <= 0xff80_0000 ==> (
            #[trigger] threshold_flags(confidence, threshold)[i] <==> confidence[i] <= threshold),
{
}

/// Flags the confidences that pass the threshold.
pub fn confidence_flags(confidence: &[u32], threshold: u32) -> (flags: Vec<bool>)
    ensures
        flags@ == threshold_flags(confidence@, threshold),
{
    let mut flags: Vec<bool> = Vec::new();
    let n = confidence.len();
    for i in 0..n
        invariant
            n == confidence@.len(),
            flags@ == threshold_flags(confidence@.take(i as int), threshold),
    {
        flags.push(!float_bits_less(confidence[i], threshold));
        assert(threshold_flags(confidence@.take(i + 1), threshold) =~= threshold_flags(
            confidence@.take(i as int),
            threshold,
        ).push(!float_less(confidence@[i as int], threshold)));
    }
    assert(confidence@.take(n as int) =~= confidence@);
    flags
}

} // verus!
