use vstd::prelude::*;
use vstd::string::{StrSliceExecFns, StringExecFns};

use crate::text::{decimal, push_decimal};

verus! {

/// What the batch analysis reads of one model input: whether it is a tensor and, if so,
/// the extent of its first axis (`-1` when the axis is dynamic, `None` when it has no axes).
#[derive(Clone, Copy, Debug)]
pub enum InputShape {
    NotTensor,
    Tensor { first_dim: Option<i64> },
}

/// How a model's inputs handle the batch axis.
#[derive(Clone, Copy, Debug, PartialEq, Eq)]
pub enum BatchSupport {
    Unknown,
    FixedNonUnitBatch,
    NotBatchedTensor,
    DynamicBatch,
    FixedBatch1,
}

/// A tensor input whose first axis is neither dynamic nor of extent one.
pub open spec fn is_irregular(s: InputShape) -> bool {
    match s {
        InputShape::Tensor { first_dim } => first_dim != Some(-1i64) && first_dim != Some(1i64),
        InputShape::NotTensor => false,
    }
}

/// The first irregular input at or after position `from`.
pub open spec fn first_irregular(inputs: Seq<InputShape>, from: int) -> Option<int>
    decreases inputs.len() - from,
{
    if from < 0 || from >= inputs.len() {
        None
    } else if is_irregular(inputs[from]) {
        Some(from)
    } else {
        first_irregular(inputs, from + 1)
    }
}

/// The batch support of a list of model inputs: with no inputs it is unknown; the first
/// tensor input whose first axis is neither dynamic nor of extent one decides (a fixed
/// non-unit batch, or no batch axis at all); otherwise, with no tensor input it is unknown,
/// with every tensor input dynamic it is dynamic, and else it is fixed to one.
pub open spec fn batch_support(inputs: Seq<InputShape>) -> BatchSupport {
    if inputs.len() == 0 {
        BatchSupport::Unknown
    } else {
        match first_irregular(inputs, 0) {
            Some(k) => match inputs[k] {
                InputShape::Tensor { first_dim: None } => BatchSupport::NotBatchedTensor,
                _ => BatchSupport::FixedNonUnitBatch,
            },
            None => if !(exists|i: int|
                0 <= i < inputs.len() && #[trigger] inputs[i] is Tensor) {
                BatchSupport::Unknown
            } else if forall|i: int|
                0 <= i < inputs.len() && #[trigger] inputs[i] is Tensor ==> inputs[i]
                    == (InputShape::Tensor { first_dim: Some(-1i64) }) {
                BatchSupport::DynamicBatch
            } else {
                BatchSupport::FixedBatch1
            },
        }
    }
}

/// Whether an input is a tensor whose first axis is dynamic or of extent one.
pub open spec fn unit_or_dynamic(s: InputShape) -> bool {
    s == (InputShape::Tensor { first_dim: Some(-1i64) }) || s == (InputShape::Tensor {
        first_dim: Some(1i64),
    })
}

proof fn lemma_first_irregular(inputs: Seq<InputShape>, from: int)
    requires
        0 <= from,
    ensures
        first_irregular(inputs, from) is None <==> forall|i: int|
            from <= i < inputs.len() && #[trigger] inputs[i] is Tensor ==> unit_or_dynamic(inputs[i]),
        first_irregular(inputs, from) matches Some(k) ==> {
            &&& from <= k < inputs.len()
            &&& inputs[k] is Tensor
            &&& !unit_or_dynamic(inputs[k])
            &&& forall|i: int|
                from <= i < k && #[trigger] inputs[i] is Tensor ==> unit_or_dynamic(inputs[i])
        },
    decreases inputs.len() - from,
{
    if from < inputs.len() {
        lemma_first_irregular(inputs, from + 1);
    }
}

/// How the classification follows from the inputs. No tensor input: unknown. Otherwise the
/// first tensor input whose batch axis is neither dynamic nor of extent one decides: no axes
/// at all means not batched, any other extent a fixed non-unit batch. When there is none, the
/// batch is dynamic if every tensor input's axis is dynamic, and fixed to one if some tensor
/// input's axis is one.
pub proof fn lemma_batch_support_rule(inputs: Seq<InputShape>)
    ensures
        (forall|i: int| 0 <= i < inputs.len() ==> #[trigger] inputs[i] is NotTensor) ==> batch_support(
            inputs,
        ) == BatchSupport::Unknown,
        forall|k: int|
            0 <= k < inputs.len() && #[trigger] inputs[k] is Tensor && !unit_or_dynamic(inputs[k])
                && (forall|i: int| 0 <= i < k && #[trigger] inputs[i] is Tensor ==> unit_or_dynamic(
                inputs[i],
            )) ==> batch_support(inputs) == if inputs[k] == (InputShape::Tensor { first_dim: None }) {
                BatchSupport::NotBatchedTensor
            } else {
                BatchSupport::FixedNonUnitBatch
            },
        (forall|i: int| 0 <= i < inputs.len() && #[trigger] inputs[i] is Tensor ==> unit_or_dynamic(
            inputs[i],
        )) ==> {
            &&& (exists|i: int|
                0 <= i < inputs.len() && #[trigger] inputs[i] == (InputShape::Tensor {
                    first_dim: Some(1i64),
                })) ==> batch_support(inputs) == BatchSupport::FixedBatch1
            &&& (exists|i: int| 0 <= i < inputs.len() && #[trigger] inputs[i] is Tensor) && (forall|
                i: int,
            |
                0 <= i < inputs.len() && #[trigger] inputs[i] is Tensor ==> inputs[i]
                    == (InputShape::Tensor { first_dim: Some(-1i64) })) ==> batch_support(inputs)
                == BatchSupport::DynamicBatch
        },
{
    lemma_first_irregular(inputs, 0);
    if let Some(k) = first_irregular(inputs, 0) {
        assert forall|j: int|
            0 <= j < inputs.len() && #[trigger] inputs[j] is Tensor && !unit_or_dynamic(inputs[j])
                && (forall|i: int| 0 <= i < j && #[trigger] inputs[i] is Tensor ==> unit_or_dynamic(
                inputs[i],
            )) implies j == k by {
            if j < k {
                assert(unit_or_dynamic(inputs[j]));
            } else if k < j {
                assert(unit_or_dynamic(inputs[k]));
            }
        }
    }
    if exists|i: int|
        0 <= i < inputs.len() && #[trigger] inputs[i] == (InputShape::Tensor { first_dim: Some(1i64) }) {
        let i = choose|i: int|
            0 <= i < inputs.len() && #[trigger] inputs[i] == (InputShape::Tensor {
                first_dim: Some(1i64),
            });
        assert(inputs[i] is Tensor);
    }
}

/// Classifies how a model's inputs handle the batch axis.
pub fn classify_batch_support(inputs: &[InputShape]) -> (r: BatchSupport)
    ensures
        r == batch_support(inputs@),
{
    if inputs.len() == 0 {
        return BatchSupport::Unknown;
    }
    let mut saw_tensor = false;
    let mut all_dynamic = true;
    let n = inputs.len();
    for i in 0..n
        invariant
            n == inputs@.len(),
            n > 0,
            first_irregular(inputs@, 0) == first_irregular(inputs@, i as int),
            saw_tensor == exists|k: int| 0 <= k < i && #[trigger] inputs@[k] is Tensor,
            all_dynamic == forall|k: int|
                0 <= k < i && #[trigger] inputs@[k] is Tensor ==> inputs@[k]
                    == (InputShape::Tensor { first_dim: Some(-1i64) }),
    {
        match inputs[i] {
            InputShape::Tensor { first_dim } => {
                match first_dim {
                    Some(d) => {
                        if d == -1 {
                        } else if d == 1 {
                            all_dynamic = false;
                        } else {
                            return BatchSupport::FixedNonUnitBatch;
                        }
                    },
                    None => {
                        return BatchSupport::NotBatchedTensor;
                    },
                }
                saw_tensor = true;
            },
            InputShape::NotTensor => {},
        }
    }
    if !saw_tensor {
        BatchSupport::Unknown
    } else if all_dynamic {
        BatchSupport::DynamicBatch
    } else {
        BatchSupport::FixedBatch1
    }
}

impl BatchSupport {
    /// The label under which the classification is reported.
    pub open spec fn label_text(self) -> Seq<char> {
        match self {
            BatchSupport::Unknown => "unknown"@,
            BatchSupport::FixedNonUnitBatch => "fixed-nonunit-batch"@,
            BatchSupport::NotBatchedTensor => "not-batched-tensor"@,
            BatchSupport::DynamicBatch => "dynamic-batch"@,
            BatchSupport::FixedBatch1 => "fixed-batch-1"@,
        }
    }

    /// The label under which the classification is reported.
    pub fn label(&self) -> (s: &'static str)
        ensures
            s@ == self.label_text(),
    {
        match self {
            BatchSupport::Unknown => "unknown",
            BatchSupport::FixedNonUnitBatch => "fixed-nonunit-batch",
            BatchSupport::NotBatchedTensor => "not-batched-tensor",
            BatchSupport::DynamicBatch => "dynamic-batch",
            BatchSupport::FixedBatch1 => "fixed-batch-1",
        }
    }
}

/// The type of a model input or output, as far as its description shows it. Element types
/// are given by their names; a tensor's axes by their extents (`-1` when dynamic) and
/// symbolic names (empty when unnamed).
pub enum ValueKind {
    Tensor { element: String, dims: Vec<i64>, symbols: Vec<String> },
    Sequence(Box<ValueKind>),
    Mapping { key: String, value: String },
    Optional(Box<ValueKind>),
}

/// One axis as it is described: `symbol=extent` for a named axis, the extent alone otherwise.
pub open spec fn axis_text(dim: i64, symbol: Seq<char>) -> Seq<char> {
    if symbol.len() == 0 {
        decimal(dim as int)
    } else {
        symbol + "="@ + decimal(dim as int)
    }
}

/// The axes of a tensor as described, separated by `", "`; an axis without a symbol entry (or
/// a symbol without an extent) is left out.
pub open spec fn axes_text(dims: Seq<i64>, symbols: Seq<Seq<char>>) -> Seq<char>
    decreases dims.len(),
{
    let n = if dims.len() <= symbols.len() {
        dims.len()
    } else {
        symbols.len()
    };
    if n == 0 {
        Seq::empty()
    } else if n == 1 {
        axis_text(dims[0], symbols[0])
    } else {
        axes_text(dims.take(n - 1), symbols.take(n - 1)) + ", "@ + axis_text(
            dims[n - 1],
            symbols[n - 1],
        )
    }
}

/// The description of a value type.
pub open spec fn describe(v: ValueKind) -> Seq<char>
    decreases v,
{
    match v {
        ValueKind::Tensor { element, dims, symbols } => "tensor<"@ + element@ + ">["@ + axes_text(
            dims@,
            symbols@.map_values(|s: String| s@),
        ) + "]"@,
        ValueKind::Sequence(inner) => "sequence<"@ + describe(*inner) + ">"@,
        ValueKind::Mapping { key, value } => "map<"@ + key@ + ", "@ + value@ + ">"@,
        ValueKind::Optional(inner) => "optional<"@ + describe(*inner) + ">"@,
    }
}

fn push_axes(s: &mut String, dims: &[i64], symbols: &[String])
    ensures
        final(s)@ == old(s)@ + axes_text(dims@, symbols@.map_values(|x: String| x@)),
{
    let ghost views = symbols@.map_values(|x: String| x@);
    let n = if dims.len() <= symbols.len() {
        dims.len()
    } else {
        symbols.len()
    };
    let ghost start = s@;
    for i in 0..n
        invariant
            n <= dims@.len(),
            n <= symbols@.len(),
            n == dims@.len() || n == symbols@.len(),
            views == symbols@.map_values(|x: String| x@),
            s@ == start + axes_text(dims@.take(i as int), views.take(i as int)),
    {
        assert(dims@.take(i + 1).take(i as int) =~= dims@.take(i as int));
        assert(views.take(i + 1).take(i as int) =~= views.take(i as int));
        assert(views[i as int] == symbols@[i as int]@);
        if i > 0 {
            s.append(", ");
        }
        if symbols[i].as_str().unicode_len() > 0 {
            s.append(symbols[i].as_str());
            s.append("=");
        }
        push_decimal(s, dims[i]);
        proof {
            let t = axes_text(dims@.take(i + 1), views.take(i + 1));
            assert(dims@.take(i + 1)[i as int] == dims@[i as int]);
            assert(views.take(i + 1)[i as int] == views[i as int]);
            assert(s@ =~= start + t);
        }
    }
    proof {
        if n == dims@.len() {
            assert(dims@.take(n as int) =~= dims@);
        }
        if n == symbols@.len() {
            assert(views.take(n as int) =~= views);
        }
        lemma_axes_text_truncates(dims@, views, n as int);
    }
}

/// Only the axes that have both an extent and a symbol entry are described.
proof fn lemma_axes_text_truncates(dims: Seq<i64>, symbols: Seq<Seq<char>>, n: int)
    requires
        0 <= n <= dims.len(),
        n <= symbols.len(),
        n == dims.len() || n == symbols.len(),
    ensures
        axes_text(dims, symbols) == axes_text(dims.take(n), symbols.take(n)),
{
    if n >= 2 {
        assert(dims.take(n).take(n - 1) =~= dims.take(n - 1));
        assert(symbols.take(n).take(n - 1) =~= symbols.take(n - 1));
    }
}

/// Describes a value type the way model inspection reports it, such as
/// `tensor<f32>[batch=-1, 1, 480, 640]`.
pub fn describe_value_type(v: &ValueKind) -> (text: String)
    ensures
        text@ == describe(*v),
    decreases v,
{
    match v {
        ValueKind::Tensor { element, dims, symbols } => {
            let mut s = String::from_str("tensor<");
            s.append(element.as_str());
            s.append(">[");
            push_axes(&mut s, dims.as_slice(), symbols.as_slice());
            s.append("]");
            s
        },
        ValueKind::Sequence(inner) => {
            let mut s = String::from_str("sequence<");
            let inner_text = describe_value_type(inner);
            s.append(inner_text.as_str());
            s.append(">");
            s
        },
        ValueKind::Mapping { key, value } => {
            let mut s = String::from_str("map<");
            s.append(key.as_str());
            s.append(", ");
            s.append(value.as_str());
            s.append(">");
            s
        },
        ValueKind::Optional(inner) => {
            let mut s = String::from_str("optional<");
            let inner_text = describe_value_type(inner);
            s.append(inner_text.as_str());
            s.append(">");
            s
        },
    }
}

} // verus!
