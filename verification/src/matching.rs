use vstd::prelude::*;

use crate::error::{EfficientLoftrError, ErrorView};
use crate::names::{TensorNames, TensorNamesView};
use crate::selection::{
    MatchBits,
    MatchBitsView,
    confidence_flags,
    lemma_cap_keeps_prefix,
    lemma_zero_cap_acts_as_one,
    select_matches,
    selected_matches,
    threshold_flags,
};
use crate::tensor::{
    BitTensor,
    decode_batch_confidence,
    decode_batch_keypoints,
    decoded_batch_confidence,
    decoded_batch_keypoints,
    decode_confidence,
    decode_keypoints,
    decoded_confidence,
    decoded_keypoints,
};

verus! {

/// The three decoded outputs of a model run, before selection.
pub struct DecodedOutputs {
    pub keypoints0: Vec<(u32, u32)>,
    pub keypoints1: Vec<(u32, u32)>,
    pub confidence: Vec<u32>,
}

/// Decoding of the three output tensors, in the order keypoints0, keypoints1, confidence;
/// the first one whose shape is not accepted is reported under its configured name.
pub open spec fn decoded_outputs(
    names: TensorNamesView,
    keypoints0: (Seq<usize>, Seq<u32>),
    keypoints1: (Seq<usize>, Seq<u32>),
    confidence: (Seq<usize>, Seq<u32>),
) -> Result<(Seq<(u32, u32)>, Seq<(u32, u32)>, Seq<u32>), ErrorView> {
    match decoded_keypoints(keypoints0.0, keypoints0.1) {
        None => Err(ErrorView::InvalidOutputShape(names.keypoints0)),
        Some(k0) => match decoded_keypoints(keypoints1.0, keypoints1.1) {
            None => Err(ErrorView::InvalidOutputShape(names.keypoints1)),
            Some(k1) => match decoded_confidence(confidence.0, confidence.1) {
                None => Err(ErrorView::InvalidOutputShape(names.confidence)),
                Some(c) => Ok((k0, k1, c)),
            },
        },
    }
}

/// A tensor taken by shape and elements.
pub open spec fn tensor_parts(t: BitTensor) -> (Seq<usize>, Seq<u32>) {
    (t.shape_view(), t.bits_view())
}

/// Decodes the keypoint and confidence tensors that a model run produced. `names` holds the
/// configured tensor names, under which shape errors are reported.
pub fn decode_match_outputs(
    names: &TensorNames,
    keypoints0: &BitTensor,
    keypoints1: &BitTensor,
    confidence: &BitTensor,
) -> (r: Result<DecodedOutputs, EfficientLoftrError>)
    ensures
        match r {
            Ok(d) => decoded_outputs(
                names@,
                tensor_parts(*keypoints0),
                tensor_parts(*keypoints1),
                tensor_parts(*confidence),
            ) == Ok::<(Seq<(u32, u32)>, Seq<(u32, u32)>, Seq<u32>), ErrorView>(
                (d.keypoints0@, d.keypoints1@, d.confidence@),
            ),
            Err(e) => decoded_outputs(
                names@,
                tensor_parts(*keypoints0),
                tensor_parts(*keypoints1),
                tensor_parts(*confidence),
            ) == Err::<(Seq<(u32, u32)>, Seq<(u32, u32)>, Seq<u32>), ErrorView>(e@),
        },
{
    let k0 = decode_keypoints(keypoints0, names.keypoints0_name.as_str())?;
    let k1 = decode_keypoints(keypoints1, names.keypoints1_name.as_str())?;
    let c = decode_confidence(confidence, names.confidence_name.as_str())?;
    Ok(DecodedOutputs { keypoints0: k0, keypoints1: k1, confidence: c })
}

/// What a match yields from the three output tensors of a run: the decoded outputs, or the
/// first decoding error, and of those the matches whose confidence does not compare below
/// the threshold, in order, up to `max(max_matches, 1)` of them.
pub open spec fn finished_match(
    names: TensorNamesView,
    keypoints0: (Seq<usize>, Seq<u32>),
    keypoints1: (Seq<usize>, Seq<u32>),
    confidence: (Seq<usize>, Seq<u32>),
    threshold: u32,
    max_matches: usize,
) -> Result<MatchBitsView, ErrorView> {
    match decoded_outputs(names, keypoints0, keypoints1, confidence) {
        Err(e) => Err(e),
        Ok((k0, k1, c)) => Ok(
            selected_matches(k0, k1, c, threshold_flags(c, threshold), max_matches),
        ),
    }
}

/// Turns the output tensors of a model run into the matches to report. `names` holds the
/// configured tensor names, under which shape errors are reported; `threshold` is the bit
/// pattern of the confidence threshold.
pub fn finish_match(
    names: &TensorNames,
    keypoints0: &BitTensor,
    keypoints1: &BitTensor,
    confidence: &BitTensor,
    threshold: u32,
    max_matches: usize,
) -> (r: Result<MatchBits, EfficientLoftrError>)
    ensures
        match r {
            Ok(m) => finished_match(
                names@,
                tensor_parts(*keypoints0),
                tensor_parts(*keypoints1),
                tensor_parts(*confidence),
                threshold,
                max_matches,
            ) == Ok::<MatchBitsView, ErrorView>(m@),
            Err(e) => finished_match(
                names@,
                tensor_parts(*keypoints0),
                tensor_parts(*keypoints1),
                tensor_parts(*confidence),
                threshold,
                max_matches,
            ) == Err::<MatchBitsView, ErrorView>(e@),
        },
{
    let decoded = decode_match_outputs(names, keypoints0, keypoints1, confidence)?;
    let keep = confidence_flags(decoded.confidence.as_slice(), threshold);
    Ok(
        select_matches(
            decoded.keypoints0.as_slice(),
            decoded.keypoints1.as_slice(),
            decoded.confidence.as_slice(),
            keep.as_slice(),
            max_matches,
        ),
    )
}

/// For the same outputs and threshold, a smaller `max_matches` reports a prefix of what a
/// larger one reports, as long as the smaller cap or all there is; and `max_matches` zero
/// reports exactly what one does.
pub proof fn lemma_match_cap(
    names: TensorNamesView,
    keypoints0: (Seq<usize>, Seq<u32>),
    keypoints1: (Seq<usize>, Seq<u32>),
    confidence: (Seq<usize>, Seq<u32>),
    threshold: u32,
    smaller: usize,
    larger: usize,
)
    requires
        smaller <= larger,
    ensures
        finished_match(names, keypoints0, keypoints1, confidence, threshold, 0) == finished_match(
            names,
            keypoints0,
            keypoints1,
            confidence,
            threshold,
            1,
        ),
        finished_match(names, keypoints0, keypoints1, confidence, threshold, smaller) matches Ok(
            small,
        ) ==> finished_match(names, keypoints0, keypoints1, confidence, threshold, larger) matches Ok(
            large,
        ) && small.confidence.len() == (if (if smaller == 0 {
            1
        } else {
            smaller as int
        }) <= large.confidence.len() {
            if smaller == 0 {
                1
            } else {
                smaller as int
            }
        } else {
            large.confidence.len() as int
        }) && small.keypoints0 == large.keypoints0.take(small.confidence.len() as int)
            && small.keypoints1 == large.keypoints1.take(small.confidence.len() as int)
            && small.confidence == large.confidence.take(small.confidence.len() as int),
        finished_match(names, keypoints0, keypoints1, confidence, threshold, smaller) is Err
            <==> finished_match(names, keypoints0, keypoints1, confidence, threshold, larger)
            is Err,
{
    if let Ok((k0, k1, c)) = decoded_outputs(names, keypoints0, keypoints1, confidence) {
        let flags = threshold_flags(c, threshold);
        lemma_zero_cap_acts_as_one(k0, k1, c, flags);
        lemma_cap_keeps_prefix(k0, k1, c, flags, smaller, larger);
    }
}

/// What a batched match yields from the three output tensors of a run over `batch` pairs:
/// the first decoding error, or for each item the matches `finished_match` would keep.
pub open spec fn finished_batch_match(
    names: TensorNamesView,
    keypoints0: (Seq<usize>, Seq<u32>),
    keypoints1: (Seq<usize>, Seq<u32>),
    confidence: (Seq<usize>, Seq<u32>),
    batch: usize,
    threshold: u32,
    max_matches: usize,
) -> Result<Seq<MatchBitsView>, ErrorView> {
    match decoded_batch_keypoints(keypoints0.0, keypoints0.1, batch) {
        None => Err(ErrorView::InvalidOutputShape(names.keypoints0)),
        Some(k0) => match decoded_batch_keypoints(keypoints1.0, keypoints1.1, batch) {
            None => Err(ErrorView::InvalidOutputShape(names.keypoints1)),
            Some(k1) => match decoded_batch_confidence(confidence.0, confidence.1, batch) {
                None => Err(ErrorView::InvalidOutputShape(names.confidence)),
                Some(c) => Ok(
                    Seq::new(
                        batch as nat,
                        |b: int|
                            selected_matches(
                                k0[b],
                                k1[b],
                                c[b],
                                threshold_flags(c[b], threshold),
                                max_matches,
                            ),
                    ),
                ),
            },
        },
    }
}

/// Turns the output tensors of a batched model run over `batch` pairs into the matches of
/// each pair.
pub fn finish_batch_match(
    names: &TensorNames,
    keypoints0: &BitTensor,
    keypoints1: &BitTensor,
    confidence: &BitTensor,
    batch: usize,
    threshold: u32,
    max_matches: usize,
) -> (r: Result<Vec<MatchBits>, EfficientLoftrError>)
    ensures
        match r {
            Ok(items) => finished_batch_match(
                names@,
                tensor_parts(*keypoints0),
                tensor_parts(*keypoints1),
                tensor_parts(*confidence),
                batch,
                threshold,
                max_matches,
            ) == Ok::<Seq<MatchBitsView>, ErrorView>(items@.map_values(|m: MatchBits| m@)),
            Err(e) => finished_batch_match(
                names@,
                tensor_parts(*keypoints0),
                tensor_parts(*keypoints1),
                tensor_parts(*confidence),
                batch,
                threshold,
                max_matches,
            ) == Err::<Seq<MatchBitsView>, ErrorView>(e@),
        },
{
    let k0 = decode_batch_keypoints(keypoints0, batch, names.keypoints0_name.as_str())?;
    let k1 = decode_batch_keypoints(keypoints1, batch, names.keypoints1_name.as_str())?;
    let c = decode_batch_confidence(confidence, batch, names.confidence_name.as_str())?;
    let ghost k0v = k0@.map_values(|v: Vec<(u32, u32)>| v@);
    let ghost k1v = k1@.map_values(|v: Vec<(u32, u32)>| v@);
    let ghost cv = c@.map_values(|v: Vec<u32>| v@);
    assert(k0v.len() == batch && k1v.len() == batch && cv.len() == batch) by {
        let p0 = tensor_parts(*keypoints0);
        let p1 = tensor_parts(*keypoints1);
        let pc = tensor_parts(*confidence);
        assert(decoded_batch_keypoints(p0.0, p0.1, batch).unwrap().len() == batch);
        assert(decoded_batch_keypoints(p1.0, p1.1, batch).unwrap().len() == batch);
        assert(decoded_batch_confidence(pc.0, pc.1, batch).unwrap().len() == batch);
    }
    let mut items: Vec<MatchBits> = Vec::new();
    for b in 0..batch
        invariant
            k0@.len() == batch,
            k1@.len() == batch,
            c@.len() == batch,
            k0v == k0@.map_values(|v: Vec<(u32, u32)>| v@),
            k1v == k1@.map_values(|v: Vec<(u32, u32)>| v@),
            cv == c@.map_values(|v: Vec<u32>| v@),
            items@.len() == b,
            forall|j: int|
                0 <= j < b ==> #[trigger] items@[j]@ == selected_matches(
                    k0v[j],
                    k1v[j],
                    cv[j],
                    threshold_flags(cv[j], threshold),
                    max_matches,
                ),
    {
        let keep = confidence_flags(c[b].as_slice(), threshold);
        let selected = select_matches(
            k0[b].as_slice(),
            k1[b].as_slice(),
            c[b].as_slice(),
            keep.as_slice(),
            max_matches,
        );
        items.push(selected);
    }
    proof {
        assert(items@.map_values(|m: MatchBits| m@) =~= Seq::new(
            batch as nat,
            |j: int|
                selected_matches(
                    k0v[j],
                    k1v[j],
                    cv[j],
                    threshold_flags(cv[j], threshold),
                    max_matches,
                ),
        ));
    }
    Ok(items)
}

/// Item `b` of a batched keypoint output of shape `[batch, n, c]`: the `[n, c]` tensor of
/// that item's rows.
pub open spec fn keypoint_item(part: (Seq<usize>, Seq<u32>), b: int) -> (Seq<usize>, Seq<u32>) {
    let size = part.0[1] * part.0[2];
    (seq![part.0[1], part.0[2]], part.1.subrange(b * size, (b + 1) * size))
}

/// Item `b` of a batched confidence output of shape `[batch, n]`: the `[n]` tensor of that
/// item's scores.
pub open spec fn confidence_item(part: (Seq<usize>, Seq<u32>), b: int) -> (Seq<usize>, Seq<u32>) {
    let size = part.0[1] as int;
    (seq![part.0[1]], part.1.subrange(b * size, (b + 1) * size))
}

proof fn lemma_keypoint_item(part: (Seq<usize>, Seq<u32>), batch: usize, b: int)
    requires
        part.0.len() == 3,
        part.0[0] == batch,
        part.0[2] >= 2,
        part.1.len() == part.0[0] * (part.0[1] * part.0[2]),
        0 <= b < batch,
    ensures
        decoded_keypoints(keypoint_item(part, b).0, keypoint_item(part, b).1) == Some(
            decoded_batch_keypoints(part.0, part.1, batch).unwrap()[b],
        ),
{
    let n = part.0[1] as int;
    let c = part.0[2] as int;
    let item = keypoint_item(part, b);
    assert((b + 1) * (n * c) <= batch * (n * c)) by (nonlinear_arith)
        requires
            b + 1 <= batch,
            n * c >= 0,
    ;
    assert(0 <= b * (n * c)) by (nonlinear_arith)
        requires
            b >= 0,
            n * c >= 0,
    ;
    assert((b + 1) * (n * c) == b * (n * c) + n * c) by (nonlinear_arith);
    let single = decoded_keypoints(item.0, item.1).unwrap();
    let items = decoded_batch_keypoints(part.0, part.1, batch).unwrap();
    assert forall|i: int| 0 <= i < n implies #[trigger] single[i] == items[b][i] by {
        assert((b * n + i) * c == b * (n * c) + i * c) by (nonlinear_arith);
        assert(i * c + 1 < n * c) by (nonlinear_arith)
            requires
                0 <= i < n,
                c >= 2,
        ;
        assert(0 <= i * c) by (nonlinear_arith)
            requires
                0 <= i,
                c >= 2,
        ;
    }
    assert(single =~= items[b]);
}

proof fn lemma_confidence_item(part: (Seq<usize>, Seq<u32>), batch: usize, b: int)
    requires
        part.0.len() == 2,
        part.0[0] == batch,
        part.1.len() == part.0[0] * part.0[1],
        0 <= b < batch,
    ensures
        decoded_confidence(confidence_item(part, b).0, confidence_item(part, b).1) == Some(
            decoded_batch_confidence(part.0, part.1, batch).unwrap()[b],
        ),
{
    let n = part.0[1] as int;
    let item = confidence_item(part, b);
    assert((b + 1) * n <= batch * n) by (nonlinear_arith)
        requires
            b + 1 <= batch,
            n >= 0,
    ;
    assert(0 <= b * n) by (nonlinear_arith)
        requires
            b >= 0,
            n >= 0,
    ;
    assert((b + 1) * n == b * n + n) by (nonlinear_arith);
    let single = decoded_confidence(item.0, item.1).unwrap();
    let items = decoded_batch_confidence(part.0, part.1, batch).unwrap();
    assert(single =~= items[b]);
}

/// Every pair of a batch is matched exactly as it would be on its own: for each item, a
/// batched match yields what a single-pair match of that item's outputs yields, under the
/// same threshold and the same `max_matches`, and fails with the same error when it fails.
pub proof fn lemma_batch_items_match_alone(
    names: TensorNamesView,
    keypoints0: (Seq<usize>, Seq<u32>),
    keypoints1: (Seq<usize>, Seq<u32>),
    confidence: (Seq<usize>, Seq<u32>),
    batch: usize,
    threshold: u32,
    max_matches: usize,
)
    requires
        keypoints0.0.len() == 3,
        keypoints0.0[0] == batch,
        keypoints0.1.len() == keypoints0.0[0] * (keypoints0.0[1] * keypoints0.0[2]),
        keypoints1.0.len() == 3,
        keypoints1.0[0] == batch,
        keypoints1.1.len() == keypoints1.0[0] * (keypoints1.0[1] * keypoints1.0[2]),
        confidence.0.len() == 2,
        confidence.0[0] == batch,
        confidence.1.len() == confidence.0[0] * confidence.0[1],
    ensures
        finished_batch_match(names, keypoints0, keypoints1, confidence, batch, threshold, max_matches)
            matches Ok(items) ==> items.len() == batch,
        forall|b: int|
            0 <= b < batch ==> match #[trigger] finished_match(
                names,
                keypoint_item(keypoints0, b),
                keypoint_item(keypoints1, b),
                confidence_item(confidence, b),
                threshold,
                max_matches,
            ) {
                Ok(m) => finished_batch_match(
                    names,
                    keypoints0,
                    keypoints1,
                    confidence,
                    batch,
                    threshold,
                    max_matches,
                ) matches Ok(items) && items[b] == m,
                Err(e) => finished_batch_match(
                    names,
                    keypoints0,
                    keypoints1,
                    confidence,
                    batch,
                    threshold,
                    max_matches,
                ) == Err::<Seq<MatchBitsView>, ErrorView>(e),
            },
{
    assert forall|b: int| 0 <= b < batch implies match #[trigger] finished_match(
        names,
        keypoint_item(keypoints0, b),
        keypoint_item(keypoints1, b),
        confidence_item(confidence, b),
        threshold,
        max_matches,
    ) {
        Ok(m) => finished_batch_match(
            names,
            keypoints0,
            keypoints1,
            confidence,
            batch,
            threshold,
            max_matches,
        ) matches Ok(items) && items[b] == m,
        Err(e) => finished_batch_match(
            names,
            keypoints0,
            keypoints1,
            confidence,
            batch,
            threshold,
            max_matches,
        ) == Err::<Seq<MatchBitsView>, ErrorView>(e),
    } by {
        if keypoints0.0[2] >= 2 {
            lemma_keypoint_item(keypoints0, batch, b);
        }
        if keypoints1.0[2] >= 2 {
            lemma_keypoint_item(keypoints1, batch, b);
        }
        lemma_confidence_item(confidence, batch, b);
    }
}

/// A batch of one pair gives exactly what matching that pair alone gives.
pub proof fn lemma_single_item_batch(
    names: TensorNamesView,
    keypoints0: (Seq<usize>, Seq<u32>),
    keypoints1: (Seq<usize>, Seq<u32>),
    confidence: (Seq<usize>, Seq<u32>),
    threshold: u32,
    max_matches: usize,
)
    ensures
        match finished_match(names, keypoints0, keypoints1, confidence, threshold, max_matches) {
            Ok(m) => finished_batch_match(
                names,
                keypoints0,
                keypoints1,
                confidence,
                1,
                threshold,
                max_matches,
            ) == Ok::<Seq<MatchBitsView>, ErrorView>(seq![m]),
            Err(e) => finished_batch_match(
                names,
                keypoints0,
                keypoints1,
                confidence,
                1,
                threshold,
                max_matches,
            ) == Err::<Seq<MatchBitsView>, ErrorView>(e),
        },
{
    lemma_single_item_keypoints(keypoints0.0, keypoints0.1);
    lemma_single_item_keypoints(keypoints1.0, keypoints1.1);
    lemma_single_item_confidence(confidence.0, confidence.1);
    if let Ok(m) = finished_match(names, keypoints0, keypoints1, confidence, threshold, max_matches) {
        if let Ok(items) = finished_batch_match(
            names,
            keypoints0,
            keypoints1,
            confidence,
            1,
            threshold,
            max_matches,
        ) {
            assert(items =~= seq![m]);
        }
    }
}

proof fn lemma_single_item_keypoints(shape: Seq<usize>, bits: Seq<u32>)
    ensures
        match decoded_keypoints(shape, bits) {
            Some(p) => decoded_batch_keypoints(shape, bits, 1) == Some(seq![p]),
            None => decoded_batch_keypoints(shape, bits, 1) is None,
        },
{
    if let Some(p) = decoded_keypoints(shape, bits) {
        let items = decoded_batch_keypoints(shape, bits, 1).unwrap();
        let (n, c) = batch_keypoint_layout_of(shape);
        assert(0 * n == 0);
        assert(items[0] =~= p);
        assert(items =~= seq![p]);
    }
}

proof fn lemma_single_item_confidence(shape: Seq<usize>, bits: Seq<u32>)
    ensures
        match decoded_confidence(shape, bits) {
            Some(v) => decoded_batch_confidence(shape, bits, 1) == Some(seq![v]),
            None => decoded_batch_confidence(shape, bits, 1) is None,
        },
{
    if let Some(v) = decoded_confidence(shape, bits) {
        let items = decoded_batch_confidence(shape, bits, 1).unwrap();
        assert(0 * (if shape.len() == 1 { shape[0] as int } else { shape[1] as int }) == 0);
        assert(items[0] =~= v);
        assert(items =~= seq![v]);
    }
}

spec fn batch_keypoint_layout_of(shape: Seq<usize>) -> (int, int) {
    if shape.len() == 3 {
        (shape[1] as int, shape[2] as int)
    } else {
        (shape[0] as int, shape[1] as int)
    }
}

} // verus!
