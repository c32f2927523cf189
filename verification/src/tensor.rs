use vstd::prelude::*;
use vstd::string::StringExecFns;

use crate::error::{EfficientLoftrError, ErrorView};

verus! {

/// The number of elements of a tensor with the given shape.
pub open spec fn shape_product(shape: Seq<usize>) -> int
    decreases shape.len(),
{
    if shape.len() == 0 {
        1
    } else {
        shape_product(shape.drop_last()) * shape.last()
    }
}

/// A dense tensor of 32-bit floats, each element held by its IEEE-754 bit pattern,
/// in logical (row-major) order.
pub struct BitTensor {
    shape: Vec<usize>,
    bits: Vec<u32>,
}

impl BitTensor {
    #[verifier::type_invariant]
    spec fn well_formed(self) -> bool {
        self.bits@.len() == shape_product(self.shape@)
    }

    /// The extent of each axis.
    pub closed spec fn shape_view(self) -> Seq<usize> {
        self.shape@
    }

    /// The element bit patterns in logical order.
    pub closed spec fn bits_view(self) -> Seq<u32> {
        self.bits@
    }

    /// Builds a tensor from its shape and its elements in logical order, or `None` when the
    /// number of elements does not fit the shape.
    pub fn new(shape: Vec<usize>, bits: Vec<u32>) -> (r: Option<BitTensor>)
        ensures
            match r {
                Some(t) => t.shape_view() == shape@ && t.bits_view() == bits@,
                None => bits@.len() != shape_product(shape@),
            },
    {
        let n = shape.len();
        for k in 0..n
            invariant
                n == shape@.len(),
                forall|j: int| 0 <= j < k ==> shape@[j] > 0,
        {
            if shape[k] == 0 {
                proof {
                    lemma_zero_axis_empties(shape@, k as int);
                }
                if bits.len() == 0 {
                    return Some(BitTensor { shape, bits });
                } else {
                    return None;
                }
            }
        }
        let total = bits.len();
        let mut product: usize = 1;
        for i in 0..n
            invariant
                n == shape@.len(),
                total == bits@.len(),
                forall|j: int| 0 <= j < n ==> shape@[j] > 0,
                product == shape_product(shape@.take(i as int)),
        {
            assert(shape@.take(i + 1).drop_last() =~= shape@.take(i as int));
            match product.checked_mul(shape[i]) {
                Some(p) => {
                    product = p;
                },
                None => {
                    proof {
                        assert(shape@.take(i + 1).last() == shape@[i as int]);
                        assert(shape_product(shape@.take(i + 1)) > usize::MAX);
                        lemma_prefix_product_bounds(shape@, i + 1);
                    }
                    return None;
                },
            }
        }
        assert(shape@.take(n as int) =~= shape@);
        if product == total {
            Some(BitTensor { shape, bits })
        } else {
            None
        }
    }

    /// The extent of each axis.
    pub fn shape(&self) -> (s: &[usize])
        ensures
            s@ == self.shape_view(),
    {
        self.shape.as_slice()
    }

    /// The element bit patterns in logical order.
    pub fn bits(&self) -> (b: &[u32])
        ensures
            b@ == self.bits_view(),
            b@.len() == shape_product(self.shape_view()),
    {
        proof {
            use_type_invariant(self);
        }
        self.bits.as_slice()
    }
}

/// A zero-length axis leaves the tensor without elements.
proof fn lemma_zero_axis_empties(shape: Seq<usize>, k: int)
    requires
        0 <= k < shape.len(),
        shape[k] == 0,
    ensures
        shape_product(shape) == 0,
    decreases shape.len(),
{
    let pr = shape_product(shape.drop_last());
    let last = shape.last() as int;
    if k < shape.len() - 1 {
        lemma_zero_axis_empties(shape.drop_last(), k);
        assert(pr * last == 0) by (nonlinear_arith)
            requires
                pr == 0,
        ;
    } else {
        assert(pr * last == 0) by (nonlinear_arith)
            requires
                last == 0,
        ;
    }
}

/// With no zero-length axis, the product over a prefix of the axes never exceeds the whole
/// product.
proof fn lemma_prefix_product_bounds(shape: Seq<usize>, i: int)
    requires
        0 <= i <= shape.len(),
        forall|j: int| 0 <= j < shape.len() ==> shape[j] > 0,
    ensures
        shape_product(shape.take(i)) <= shape_product(shape),
        shape_product(shape) >= 1,
    decreases shape.len(),
{
    if shape.len() == 0 {
        assert(shape.take(i) =~= shape);
    } else {
        let rest = shape.drop_last();
        if i == shape.len() {
            assert(shape.take(i) =~= shape);
            lemma_prefix_product_bounds(rest, 0);
        } else {
            assert(rest.take(i) =~= shape.take(i));
            lemma_prefix_product_bounds(rest, i);
        }
        let pr = shape_product(rest);
        let last = shape.last() as int;
        assert(pr * last >= pr) by (nonlinear_arith)
            requires
                pr >= 1,
                last >= 1,
        ;
    }
}

/// Where the keypoints sit in a keypoint tensor: their count and the stride between them.
/// Shapes `[n, c]` and `[1, n, c]` with `c >= 2` are accepted; the first two components of
/// each row are the point's coordinates.
pub open spec fn keypoint_layout(shape: Seq<usize>) -> Option<(int, int)> {
    if shape.len() == 2 && shape[1] >= 2 {
        Some((shape[0] as int, shape[1] as int))
    } else if shape.len() == 3 && shape[0] == 1 && shape[2] >= 2 {
        Some((shape[1] as int, shape[2] as int))
    } else {
        None
    }
}

/// The keypoints held by a tensor with the given shape and elements.
pub open spec fn decoded_keypoints(shape: Seq<usize>, bits: Seq<u32>) -> Option<Seq<(u32, u32)>> {
    match keypoint_layout(shape) {
        Some((n, c)) => Some(Seq::new(n as nat, |i: int| (bits[i * c], bits[i * c + 1]))),
        None => None,
    }
}

/// The number of confidences a tensor with the given shape holds: shapes `[n]` and `[1, n]`
/// are accepted.
pub open spec fn confidence_count(shape: Seq<usize>) -> Option<int> {
    if shape.len() == 1 {
        Some(shape[0] as int)
    } else if shape.len() == 2 && shape[0] == 1 {
        Some(shape[1] as int)
    } else {
        None
    }
}

/// The confidences held by a tensor with the given shape and elements.
pub open spec fn decoded_confidence(shape: Seq<usize>, bits: Seq<u32>) -> Option<Seq<u32>> {
    match confidence_count(shape) {
        Some(n) => Some(Seq::new(n as nat, |i: int| bits[i])),
        None => None,
    }
}

/// The element counts of tensors with one, two or three axes.
proof fn lemma_small_products(shape: Seq<usize>)
    ensures
        shape.len() == 1 ==> shape_product(shape) == shape[0],
        shape.len() == 2 ==> shape_product(shape) == shape[0] * shape[1],
        shape.len() == 3 ==> shape_product(shape) == shape[0] * shape[1] * shape[2],
{
    reveal_with_fuel(shape_product, 4);
    if shape.len() == 1 {
        assert(shape.drop_last() =~= Seq::<usize>::empty());
    } else if shape.len() == 2 {
        assert(shape.drop_last().drop_last() =~= Seq::<usize>::empty());
        assert(shape.drop_last() =~= seq![shape[0]]);
    } else if shape.len() == 3 {
        assert(shape.drop_last().drop_last().drop_last() =~= Seq::<usize>::empty());
        assert(shape.drop_last().drop_last() =~= seq![shape[0]]);
        assert(shape.drop_last() =~= seq![shape[0], shape[1]]);
    }
}

proof fn lemma_row_in_bounds(i: int, n: int, c: int)
    requires
        0 <= i < n,
        c >= 2,
    ensures
        i * c + 1 < n * c,
        0 <= i * c,
{
    assert(i * c + c <= n * c) by (nonlinear_arith)
        requires
            0 <= i < n,
            c >= 2,
    ;
    assert(0 <= i * c) by (nonlinear_arith)
        requires
            0 <= i,
            c >= 2,
    ;
}

/// Reads the keypoints out of a keypoint tensor; `name` is the tensor name reported when the
/// shape is not one of the accepted ones.
pub fn decode_keypoints(tensor: &BitTensor, name: &str) -> (r: Result<Vec<(u32, u32)>, EfficientLoftrError>)
    ensures
        match r {
            Ok(points) => decoded_keypoints(tensor.shape_view(), tensor.bits_view()) == Some(
                points@,
            ),
            Err(e) => decoded_keypoints(tensor.shape_view(), tensor.bits_view()) is None
                && e@ == ErrorView::InvalidOutputShape(name@),
        },
{
    let shape = tensor.shape();
    let bits = tensor.bits();
    let (n, c) = if shape.len() == 2 && shape[1] >= 2 {
        (shape[0], shape[1])
    } else if shape.len() == 3 && shape[0] == 1 && shape[2] >= 2 {
        (shape[1], shape[2])
    } else {
        return Err(EfficientLoftrError::InvalidOutputShape(String::from_str(name)));
    };
    proof {
        lemma_small_products(shape@);
        if shape@.len() == 3 {
            assert(1 * n * c == n * c) by (nonlinear_arith);
        }
    }
    let total = bits.len();
    let mut points: Vec<(u32, u32)> = Vec::new();
    for i in 0..n
        invariant
            bits@ == tensor.bits_view(),
            bits@.len() == n * c,
            total == bits@.len(),
            c >= 2,
            points@.len() == i,
            forall|k: int|
                0 <= k < i ==> #[trigger] points@[k] == (bits@[k * c], bits@[k * c + 1]),
    {
        proof {
            lemma_row_in_bounds(i as int, n as int, c as int);
        }
        let base = i * c;
        points.push((bits[base], bits[base + 1]));
    }
    let ghost expected = decoded_keypoints(tensor.shape_view(), tensor.bits_view());
    assert(expected == Some(points@)) by {
        assert(keypoint_layout(shape@) == Some((n as int, c as int)));
        assert(points@ =~= Seq::new(n as nat, |i: int| (bits@[i * c], bits@[i * c + 1])));
    }
    Ok(points)
}

/// Reads the confidences out of a confidence tensor; `name` is the tensor name reported when
/// the shape is not one of the accepted ones.
pub fn decode_confidence(tensor: &BitTensor, name: &str) -> (r: Result<Vec<u32>, EfficientLoftrError>)
    ensures
        match r {
            Ok(values) => decoded_confidence(tensor.shape_view(), tensor.bits_view()) == Some(
                values@,
            ),
            Err(e) => decoded_confidence(tensor.shape_view(), tensor.bits_view()) is None
                && e@ == ErrorView::InvalidOutputShape(name@),
        },
{
    let shape = tensor.shape();
    let bits = tensor.bits();
    let n = if shape.len() == 1 {
        shape[0]
    } else if shape.len() == 2 && shape[0] == 1 {
        shape[1]
    } else {
        return Err(EfficientLoftrError::InvalidOutputShape(String::from_str(name)));
    };
    proof {
        lemma_small_products(shape@);
        if shape@.len() == 2 {
            assert(1 * n == n);
        }
    }
    let mut values: Vec<u32> = Vec::new();
    for i in 0..n
        invariant
            bits@ == tensor.bits_view(),
            bits@.len() == n,
            values@ == bits@.take(i as int),
    {
        values.push(bits[i]);
        assert(bits@.take(i + 1) =~= bits@.take(i as int).push(bits@[i as int]));
    }
    assert(values@ =~= Seq::new(n as nat, |i: int| bits@[i]));
    Ok(values)
}

/// A batch axis of extent one changes nothing: shapes `[n, c]` and `[1, n, c]` hold the same
/// keypoints, one per row, and shapes `[n]` and `[1, n]` the same confidences.
pub proof fn lemma_unit_batch_axis_is_transparent(n: usize, c: usize, bits: Seq<u32>)
    ensures
        decoded_keypoints(seq![n, c], bits) == decoded_keypoints(seq![1usize, n, c], bits),
        c >= 2 ==> (decoded_keypoints(seq![n, c], bits) matches Some(points) && points.len() == n),
        c < 2 ==> decoded_keypoints(seq![n, c], bits) is None,
        decoded_confidence(seq![n], bits) == decoded_confidence(seq![1usize, n], bits),
{
}

/// Where the keypoints of a batch sit in a keypoint tensor: the count per item and the stride
/// between keypoints. Shape `[batch, n, c]` with `c >= 2` is accepted, and for a batch of one
/// also `[n, c]`.
pub open spec fn batch_keypoint_layout(shape: Seq<usize>, batch: usize) -> Option<(int, int)> {
    if shape.len() == 3 && shape[0] == batch && shape[2] >= 2 {
        Some((shape[1] as int, shape[2] as int))
    } else if batch == 1 && shape.len() == 2 && shape[1] >= 2 {
        Some((shape[0] as int, shape[1] as int))
    } else {
        None
    }
}

/// The keypoints of each item of a batch.
pub open spec fn decoded_batch_keypoints(shape: Seq<usize>, bits: Seq<u32>, batch: usize) -> Option<
    Seq<Seq<(u32, u32)>>,
> {
    match batch_keypoint_layout(shape, batch) {
        Some((n, c)) => Some(
            Seq::new(
                batch as nat,
                |b: int|
                    Seq::new(
                        n as nat,
                        |i: int| (bits[(b * n + i) * c], bits[(b * n + i) * c + 1]),
                    ),
            ),
        ),
        None => None,
    }
}

/// The confidence count per item of a batch: shape `[batch, n]`, and for a batch of one
/// also `[n]`.
pub open spec fn batch_confidence_count(shape: Seq<usize>, batch: usize) -> Option<int> {
    if shape.len() == 2 && shape[0] == batch {
        Some(shape[1] as int)
    } else if batch == 1 && shape.len() == 1 {
        Some(shape[0] as int)
    } else {
        None
    }
}

/// The confidences of each item of a batch.
pub open spec fn decoded_batch_confidence(shape: Seq<usize>, bits: Seq<u32>, batch: usize) -> Option<
    Seq<Seq<u32>>,
> {
    match batch_confidence_count(shape, batch) {
        Some(n) => Some(
            Seq::new(batch as nat, |b: int| Seq::new(n as nat, |i: int| bits[b * n + i])),
        ),
        None => None,
    }
}

proof fn lemma_batch_row_in_bounds(b: int, batch: int, i: int, n: int, c: int)
    requires
        0 <= b < batch,
        0 <= i < n,
        c >= 1,
    ensures
        0 <= b * n + i < batch * n,
        0 <= (b * n + i) * c,
        (b * n + i) * c + c <= batch * n * c,
        batch * n <= batch * n * c,
        0 <= b * n,
{
    assert(batch * n <= batch * n * c) by (nonlinear_arith)
        requires
            0 <= b < batch,
            0 <= i < n,
            c >= 1,
    ;
    assert(b * n + i < batch * n) by (nonlinear_arith)
        requires
            0 <= b < batch,
            0 <= i < n,
    ;
    assert(0 <= b * n) by (nonlinear_arith)
        requires
            0 <= b,
            0 <= i < n,
    ;
    assert((b * n + i) * c + c <= batch * n * c) by (nonlinear_arith)
        requires
            b * n + i < batch * n,
            c >= 1,
    ;
    assert(0 <= (b * n + i) * c) by (nonlinear_arith)
        requires
            0 <= b * n + i,
            c >= 1,
    ;
}

/// Reads the keypoints of each item of a batch out of a keypoint tensor; `name` is the
/// tensor name reported when the shape is not accepted.
pub fn decode_batch_keypoints(tensor: &BitTensor, batch: usize, name: &str) -> (r: Result<
    Vec<Vec<(u32, u32)>>,
    EfficientLoftrError,
>)
    ensures
        match r {
            Ok(items) => decoded_batch_keypoints(tensor.shape_view(), tensor.bits_view(), batch)
                == Some(items@.map_values(|v: Vec<(u32, u32)>| v@)),
            Err(e) => decoded_batch_keypoints(tensor.shape_view(), tensor.bits_view(), batch)
                is None && e@ == ErrorView::InvalidOutputShape(name@),
        },
{
    let shape = tensor.shape();
    let bits = tensor.bits();
    let (n, c) = if shape.len() == 3 && shape[0] == batch && shape[2] >= 2 {
        (shape[1], shape[2])
    } else if batch == 1 && shape.len() == 2 && shape[1] >= 2 {
        (shape[0], shape[1])
    } else {
        return Err(EfficientLoftrError::InvalidOutputShape(String::from_str(name)));
    };
    proof {
        lemma_small_products(shape@);
        if shape@.len() == 2 {
            assert(1 * n * c == n * c) by (nonlinear_arith);
        }
    }
    assert(bits@.len() == batch * n * c);
    let total = bits.len();
    let ghost expected = decoded_batch_keypoints(tensor.shape_view(), tensor.bits_view(), batch);
    let mut items: Vec<Vec<(u32, u32)>> = Vec::new();
    for b in 0..batch
        invariant
            bits@ == tensor.bits_view(),
            bits@.len() == batch * n * c,
            total == bits@.len(),
            c >= 2,
            batch_keypoint_layout(tensor.shape_view(), batch) == Some((n as int, c as int)),
            items@.len() == b,
            forall|k: int|
                0 <= k < b ==> #[trigger] items@[k]@ == Seq::new(
                    n as nat,
                    |i: int| (bits@[(k * n + i) * c], bits@[(k * n + i) * c + 1]),
                ),
    {
        let mut points: Vec<(u32, u32)> = Vec::new();
        for i in 0..n
            invariant
                bits@ == tensor.bits_view(),
                bits@.len() == batch * n * c,
                total == bits@.len(),
                c >= 2,
                b < batch,
                points@.len() == i,
                forall|k: int|
                    0 <= k < i ==> #[trigger] points@[k] == (
                        bits@[(b * n + k) * c],
                        bits@[(b * n + k) * c + 1],
                    ),
        {
            proof {
                lemma_batch_row_in_bounds(b as int, batch as int, i as int, n as int, c as int);
            }
            let base = (b * n + i) * c;
            points.push((bits[base], bits[base + 1]));
        }
        assert(points@ =~= Seq::new(
            n as nat,
            |i: int| (bits@[(b * n + i) * c], bits@[(b * n + i) * c + 1]),
        ));
        items.push(points);
    }
    assert(items@.map_values(|v: Vec<(u32, u32)>| v@) =~= expected.unwrap());
    Ok(items)
}

/// Reads the confidences of each item of a batch out of a confidence tensor; `name` is the
/// tensor name reported when the shape is not accepted.
pub fn decode_batch_confidence(tensor: &BitTensor, batch: usize, name: &str) -> (r: Result<
    Vec<Vec<u32>>,
    EfficientLoftrError,
>)
    ensures
        match r {
            Ok(items) => decoded_batch_confidence(tensor.shape_view(), tensor.bits_view(), batch)
                == Some(items@.map_values(|v: Vec<u32>| v@)),
            Err(e) => decoded_batch_confidence(tensor.shape_view(), tensor.bits_view(), batch)
                is None && e@ == ErrorView::InvalidOutputShape(name@),
        },
{
    let shape = tensor.shape();
    let bits = tensor.bits();
    let n = if shape.len() == 2 && shape[0] == batch {
        shape[1]
    } else if batch == 1 && shape.len() == 1 {
        shape[0]
    } else {
        return Err(EfficientLoftrError::InvalidOutputShape(String::from_str(name)));
    };
    proof {
        lemma_small_products(shape@);
    }
    assert(bits@.len() == batch * n * 1) by (nonlinear_arith)
        requires
            bits@.len() == batch * n,
    ;
    let total = bits.len();
    let ghost expected = decoded_batch_confidence(tensor.shape_view(), tensor.bits_view(), batch);
    let mut items: Vec<Vec<u32>> = Vec::new();
    for b in 0..batch
        invariant
            bits@ == tensor.bits_view(),
            bits@.len() == batch * n * 1,
            total == bits@.len(),
            batch_confidence_count(tensor.shape_view(), batch) == Some(n as int),
            items@.len() == b,
            forall|k: int|
                0 <= k < b ==> #[trigger] items@[k]@ == Seq::new(
                    n as nat,
                    |i: int| bits@[k * n + i],
                ),
    {
        let mut values: Vec<u32> = Vec::new();
        for i in 0..n
            invariant
                bits@ == tensor.bits_view(),
                bits@.len() == batch * n * 1,
                total == bits@.len(),
                b < batch,
                values@.len() == i,
                forall|k: int| 0 <= k < i ==> #[trigger] values@[k] == bits@[b * n + k],
        {
            proof {
                lemma_batch_row_in_bounds(b as int, batch as int, i as int, n as int, 1);
                assert((b * n + i) * 1 == b * n + i);
            }
            values.push(bits[b * n + i]);
        }
        assert(values@ =~= Seq::new(n as nat, |i: int| bits@[b * n + i]));
        items.push(values);
    }
    assert(items@.map_values(|v: Vec<u32>| v@) =~= expected.unwrap());
    Ok(items)
}

} // verus!
