use vstd::prelude::*;

use crate::frame::GrayscaleFrame;
use crate::names::string_views;
use crate::selection::MatchBits;
use vstd::string::StringExecFns;
use crate::text::{
    ascii_lower,
    ascii_lowercase,
    chars_le,
    chars_le_exec,
    chars_of,
    decimal_digits,
    ends_with_chars,
    has_prefix,
    has_suffix,
    lemma_chars_le_total,
    lemma_chars_le_transitive,
    lowercase_ascii,
    push_char,
    push_decimal_usize,
    starts_with_chars,
};

verus! {

/// How many frame pairs an evaluation forms from `frame_count` frames: one pair per frame
/// that has a partner `step` frames later, limited by `max_pairs`.
pub open spec fn pair_count(frame_count: int, step: int, max_pairs: Option<usize>) -> int {
    let available = if frame_count > step {
        frame_count - step
    } else {
        0
    };
    match max_pairs {
        Some(limit) => if limit < available {
            limit as int
        } else {
            available
        },
        None => available,
    }
}

/// Forms the frame pairs of an evaluation: pair `k` couples frame `k` with frame `k + step`.
/// Each entry is `(pair id, index of the first frame, index of the second frame)`.
pub fn collect_pair_specs(frame_count: usize, step: usize, max_pairs: Option<usize>) -> (pairs: Vec<
    (usize, usize, usize),
>)
    ensures
        pairs@.len() == pair_count(frame_count as int, step as int, max_pairs),
        forall|k: int|
            0 <= k < pairs@.len() ==> #[trigger] pairs@[k] == (k as usize, k as usize, (k
                + step) as usize),
{
    let mut pairs: Vec<(usize, usize, usize)> = Vec::new();
    let mut pair_id: usize = 0;
    let mut i: usize = 0;
    while step < frame_count && i < frame_count - step
        invariant_except_break
            step < frame_count ==> i <= frame_count - step,
        invariant
            pair_id == i,
            i <= pair_count(frame_count as int, step as int, max_pairs),
            pairs@.len() == i,
            forall|k: int|
                0 <= k < pairs@.len() ==> #[trigger] pairs@[k] == (k as usize, k as usize, (k
                    + step) as usize),
        ensures
            pairs@.len() == pair_count(frame_count as int, step as int, max_pairs),
            forall|k: int|
                0 <= k < pairs@.len() ==> #[trigger] pairs@[k] == (k as usize, k as usize, (k
                    + step) as usize),
        decreases frame_count - i,
    {
        if let Some(limit) = max_pairs {
            if pair_id >= limit {
                break;
            }
        }
        pairs.push((pair_id, i, i + step));
        pair_id = pair_id + 1;
        i = i + 1;
    }
    pairs
}

/// The `k`-th batch of an evaluation over `total` pairs in batches of `batch_size`:
/// pairs `k * batch_size` up to (not including) `min((k + 1) * batch_size, total)`.
pub open spec fn batch_range(total: int, batch_size: int, k: int) -> (int, int) {
    let start = k * batch_size;
    let end = if start + batch_size <= total {
        start + batch_size
    } else {
        total
    };
    (start, end)
}

/// Splits `total` pairs into consecutive batches of `batch_size` (the last one may be
/// shorter). Each entry is `(first pair, one past the last pair)`.
pub fn batch_ranges(total: usize, batch_size: usize) -> (ranges: Vec<(usize, usize)>)
    requires
        batch_size >= 1,
    ensures
        forall|k: int|
            0 <= k < ranges@.len() ==> (#[trigger] ranges@[k].0 as int, ranges@[k].1 as int)
                == batch_range(total as int, batch_size as int, k),
        ranges@.len() * batch_size >= total,
        ranges@.len() > 0 ==> (ranges@.len() - 1) * batch_size < total,
{
    let mut ranges: Vec<(usize, usize)> = Vec::new();
    let mut offset: usize = 0;
    assert(0 * batch_size == 0);
    while offset < total
        invariant
            batch_size >= 1,
            offset <= total,
            offset < total ==> offset == ranges@.len() * batch_size,
            offset == total ==> ranges@.len() * batch_size >= total,
            ranges@.len() > 0 ==> (ranges@.len() - 1) * batch_size < total,
            forall|k: int|
                0 <= k < ranges@.len() ==> (#[trigger] ranges@[k].0 as int, ranges@[k].1 as int)
                    == batch_range(total as int, batch_size as int, k),
        decreases total - offset,
    {
        let ghost len = ranges@.len() as int;
        let upper = if batch_size <= total - offset {
            offset + batch_size
        } else {
            total
        };
        proof {
            assert((len + 1) * batch_size == len * batch_size + batch_size) by (nonlinear_arith);
        }
        ranges.push((offset, upper));
        assert(ranges@[len] == (offset, upper));
        offset = upper;
    }
    ranges
}

/// The values appear in non-decreasing order.
pub open spec fn is_sorted(s: Seq<usize>) -> bool {
    forall|i: int, j: int| 0 <= i <= j < s.len() ==> s[i] <= s[j]
}

/// The sum of the values.
pub open spec fn seq_sum(s: Seq<usize>) -> int
    decreases s.len(),
{
    if s.len() == 0 {
        0
    } else {
        seq_sum(s.drop_last()) + s.last()
    }
}

/// Sorts match counts in non-decreasing order.
pub fn sort_counts(counts: &[usize]) -> (sorted: Vec<usize>)
    ensures
        is_sorted(sorted@),
        sorted@.to_multiset() == counts@.to_multiset(),
        sorted@.len() == counts@.len(),
{
    broadcast use vstd::seq_lib::group_to_multiset_ensures;

    let mut sorted: Vec<usize> = Vec::new();
    let n = counts.len();
    for i in 0..n
        invariant
            n == counts@.len(),
            is_sorted(sorted@),
            sorted@.to_multiset() == counts@.take(i as int).to_multiset(),
            sorted@.len() == i,
    {
        let x = counts[i];
        let mut p: usize = 0;
        while p < sorted.len() && sorted[p] <= x
            invariant
                p <= sorted@.len(),
                forall|k: int| 0 <= k < p ==> sorted@[k] <= x,
            decreases sorted@.len() - p,
        {
            p = p + 1;
        }
        let ghost before = sorted@;
        sorted.insert(p, x);
        assert(sorted@ == before.insert(p as int, x));
        assert(is_sorted(sorted@)) by {
            assert forall|a: int, b: int| 0 <= a <= b < sorted@.len() implies sorted@[a]
                <= sorted@[b] by {
                if p < before.len() {
                    assert(x < before[p as int]);
                }
            }
        }
        assert(counts@.take(i + 1) =~= counts@.take(i as int).push(x));
        proof {
            vstd::seq_lib::to_multiset_insert(before, p as int, x);
            vstd::seq_lib::to_multiset_build(counts@.take(i as int), x);
        }
    }
    assert(counts@.take(n as int) =~= counts@);
    sorted
}

/// The statistics of the match counts of an evaluation that are computed exactly.
pub struct CountSummary {
    /// The counts in non-decreasing order.
    pub sorted: Vec<usize>,
    pub min: usize,
    pub max: usize,
    /// The sum of all counts.
    pub total: u128,
}

/// Summarises the match counts of an evaluation, or `None` when there are none.
pub fn summarize_counts(counts: &[usize]) -> (r: Option<CountSummary>)
    ensures
        r is None <==> counts@.len() == 0,
        r matches Some(summary) ==> {
            &&& is_sorted(summary.sorted@)
            &&& summary.sorted@.to_multiset() == counts@.to_multiset()
            &&& summary.sorted@.len() == counts@.len()
            &&& summary.min == summary.sorted@[0]
            &&& summary.max == summary.sorted@.last()
            &&& counts@.contains(summary.min)
            &&& counts@.contains(summary.max)
            &&& forall|i: int|
                0 <= i < counts@.len() ==> summary.min <= #[trigger] counts@[i] <= summary.max
            &&& summary.total == seq_sum(counts@)
        },
{
    broadcast use vstd::seq_lib::group_to_multiset_ensures;

    if counts.len() == 0 {
        return None;
    }
    let sorted = sort_counts(counts);
    let min = sorted[0];
    let max = sorted[sorted.len() - 1];
    let mut total: u128 = 0;
    let n = counts.len();
    for i in 0..n
        invariant
            n == counts@.len(),
            total == seq_sum(counts@.take(i as int)),
            total <= i * (usize::MAX as int),
    {
        assert(counts@.take(i + 1).drop_last() =~= counts@.take(i as int));
        assert(total + counts@[i as int] <= (i + 1) * (usize::MAX as int)) by (nonlinear_arith)
            requires
                total <= i * (usize::MAX as int),
                counts@[i as int] <= usize::MAX,
        ;
        assert((i + 1) * (usize::MAX as int) <= u128::MAX) by (nonlinear_arith)
            requires
                i < usize::MAX,
        ;
        total = total + counts[i] as u128;
    }
    assert(counts@.take(n as int) =~= counts@);
    proof {
        assert(sorted@.to_multiset().count(min) > 0);
        assert(sorted@.to_multiset().count(max) > 0);
        assert forall|i: int| 0 <= i < counts@.len() implies min <= #[trigger] counts@[i]
            <= max by {
            let v = counts@[i];
            assert(counts@.to_multiset().count(v) > 0);
            assert(sorted@.contains(v));
            let j = choose|j: int| 0 <= j < sorted@.len() && sorted@[j] == v;
            assert(sorted@[0] <= sorted@[j] <= sorted@[sorted@.len() - 1]);
        }
    }
    Some(CountSummary { sorted, min, max, total })
}

/// A CSV field holding `value`: double quotes around it, with each double quote inside
/// replaced by a single quote.
pub open spec fn csv_escaped(value: Seq<char>) -> Seq<char> {
    seq!['"'] + value.map_values(|c: char| if c == '"' { '\'' } else { c }) + seq!['"']
}

/// Quotes a value for a CSV field.
pub fn csv_escape(value: &str) -> (field: String)
    ensures
        field@ == csv_escaped(value@),
{
    let mut field = String::new();
    push_char(&mut field, '"');
    let ghost quoted = value@.map_values(|c: char| if c == '"' { '\'' } else { c });
    for c in it: value.chars()
        invariant
            it.seq() == value@,
            quoted == value@.map_values(|c: char| if c == '"' { '\'' } else { c }),
            field@ == seq!['"'] + quoted.take(it.index() as int),
    {
        let ghost k = it.index() as int;
        if c == '"' {
            push_char(&mut field, '\'');
        } else {
            push_char(&mut field, c);
        }
        assert(quoted.take(k + 1) =~= quoted.take(k).push(quoted[k]));
    }
    assert(quoted.take(value@.len() as int) =~= quoted);
    push_char(&mut field, '"');
    field
}

/// Whether a file name is one of the frames of a sequence: it starts with `prefix` and,
/// ignoring ASCII case, ends with `.` followed by `ext`.
pub open spec fn is_frame_name(name: Seq<char>, prefix: Seq<char>, ext: Seq<char>) -> bool {
    &&& has_prefix(name, prefix)
    &&& has_suffix(ascii_lowercase(name), seq!['.'] + ascii_lowercase(ext))
}

/// A file name is a frame of the sequence exactly when its first characters are the prefix,
/// unchanged (so case matters there), and it ends in `.` followed by the extension, letter
/// case aside.
pub proof fn lemma_frame_name_rule(name: Seq<char>, prefix: Seq<char>, ext: Seq<char>)
    ensures
        is_frame_name(name, prefix, ext) <==> {
            &&& prefix.len() <= name.len()
            &&& forall|i: int| 0 <= i < prefix.len() ==> name[i] == prefix[i]
            &&& ext.len() + 1 <= name.len()
            &&& name[name.len() - ext.len() - 1] == '.'
            &&& forall|j: int|
                0 <= j < ext.len() ==> ascii_lower(#[trigger] name[name.len() - ext.len() + j])
                    == ascii_lower(ext[j])
        },
{
    let lname = ascii_lowercase(name);
    let suffix = seq!['.'] + ascii_lowercase(ext);
    let rule = {
        &&& prefix.len() <= name.len()
        &&& forall|i: int| 0 <= i < prefix.len() ==> name[i] == prefix[i]
        &&& ext.len() + 1 <= name.len()
        &&& name[name.len() - ext.len() - 1] == '.'
        &&& forall|j: int|
            0 <= j < ext.len() ==> ascii_lower(#[trigger] name[name.len() - ext.len() + j])
                == ascii_lower(ext[j])
    };
    if prefix.len() <= name.len() {
        if forall|i: int| 0 <= i < prefix.len() ==> name[i] == prefix[i] {
            assert(name.take(prefix.len() as int) =~= prefix);
        } else {
            let i = choose|i: int| 0 <= i < prefix.len() && name[i] != prefix[i];
            assert(name.take(prefix.len() as int)[i] != prefix[i]);
        }
    }
    if ext.len() + 1 <= name.len() {
        let start = name.len() - ext.len() - 1;
        let c = name[start];
        assert(ascii_lower(c) == '.' <==> c == '.') by {
            if 'A' <= c && c <= 'Z' {
                assert(((c as u32) + 32) as char != '.');
            }
        }
        if has_suffix(lname, suffix) {
            assert(lname.skip(start)[0] == suffix[0]);
            assert forall|j: int| 0 <= j < ext.len() implies ascii_lower(
                #[trigger] name[name.len() - ext.len() + j],
            ) == ascii_lower(ext[j]) by {
                assert(lname.skip(start)[j + 1] == suffix[j + 1]);
            }
        }
        if rule {
            assert forall|k: int| 0 <= k < suffix.len() implies lname.skip(start)[k] == suffix[k] by {
                if k > 0 {
                    assert(ascii_lower(name[name.len() - ext.len() + (k - 1)]) == ascii_lower(
                        ext[k - 1],
                    ));
                }
            }
            assert(lname.skip(start) =~= suffix);
        }
    }
}

/// Tells whether a file name belongs to the frame sequence.
pub fn is_frame_file_name(name: &str, prefix: &str, ext: &str) -> (r: bool)
    ensures
        r == is_frame_name(name@, prefix@, ext@),
{
    let name_chars = chars_of(name);
    let prefix_chars = chars_of(prefix);
    if !starts_with_chars(name_chars.as_slice(), prefix_chars.as_slice()) {
        return false;
    }
    let lowered_name = lowercase_ascii(name_chars.as_slice());
    let ext_chars = chars_of(ext);
    let lowered_ext = lowercase_ascii(ext_chars.as_slice());
    let mut suffix: Vec<char> = Vec::new();
    suffix.push('.');
    let n = lowered_ext.len();
    for i in 0..n
        invariant
            n == lowered_ext@.len(),
            suffix@ == seq!['.'] + lowered_ext@.take(i as int),
    {
        suffix.push(lowered_ext[i]);
        assert(lowered_ext@.take(i + 1) =~= lowered_ext@.take(i as int).push(lowered_ext@[i as int]));
    }
    assert(lowered_ext@.take(n as int) =~= lowered_ext@);
    ends_with_chars(lowered_name.as_slice(), suffix.as_slice())
}

/// The names are in non-decreasing lexicographic order.
pub open spec fn names_sorted(s: Seq<Seq<char>>) -> bool {
    forall|i: int, j: int| 0 <= i <= j < s.len() ==> chars_le(s[i], s[j])
}

/// Sorts names lexicographically by character.
pub fn sort_names(names: Vec<String>) -> (sorted: Vec<String>)
    ensures
        names_sorted(string_views(sorted@)),
        string_views(sorted@).to_multiset() == string_views(names@).to_multiset(),
{
    let mut sorted: Vec<String> = Vec::new();
    let mut keys: Vec<Vec<char>> = Vec::new();
    let n = names.len();
    assert(string_views(sorted@) =~= string_views(names@.take(0)));
    for i in 0..n
        invariant
            n == names@.len(),
            keys@.len() == sorted@.len(),
            forall|k: int| 0 <= k < keys@.len() ==> #[trigger] keys@[k]@ == sorted@[k]@,
            names_sorted(string_views(sorted@)),
            string_views(sorted@).to_multiset() == string_views(names@.take(i as int)).to_multiset(),
    {
        let name = names[i].clone();
        let key = chars_of(name.as_str());
        let mut p: usize = 0;
        while p < keys.len() && chars_le_exec(keys[p].as_slice(), key.as_slice())
            invariant
                p <= keys@.len(),
                keys@.len() == sorted@.len(),
                forall|k: int| 0 <= k < keys@.len() ==> #[trigger] keys@[k]@ == sorted@[k]@,
                forall|k: int| 0 <= k < p ==> chars_le(#[trigger] sorted@[k]@, key@),
            decreases keys@.len() - p,
        {
            p = p + 1;
        }
        let ghost before = sorted@;
        let ghost views_before = string_views(before);
        proof {
            if p < before.len() {
                lemma_chars_le_total(before[p as int]@, key@);
            }
        }
        sorted.insert(p, name);
        keys.insert(p, key);
        proof {
            assert(string_views(sorted@) =~= views_before.insert(p as int, key@));
            assert forall|a: int, b: int|
                0 <= a <= b < sorted@.len() implies chars_le(
                #[trigger] string_views(sorted@)[a],
                #[trigger] string_views(sorted@)[b],
            ) by {
                let sv = string_views(sorted@);
                if a < p && b == p {
                } else if a == p && b > p {
                    assert(views_before[p as int] == before[p as int]@);
                    assert(views_before[b - 1] == before[b - 1]@);
                    lemma_chars_le_transitive(key@, before[p as int]@, before[b - 1]@);
                } else if a < p && b > p {
                    assert(views_before[p as int] == before[p as int]@);
                    assert(views_before[b - 1] == before[b - 1]@);
                    lemma_chars_le_transitive(before[a]@, key@, before[p as int]@);
                    lemma_chars_le_transitive(before[a]@, before[p as int]@, before[b - 1]@);
                } else if a == p && b == p {
                    lemma_chars_le_reflexive(key@);
                } else if a > p {
                    assert(sv[a] == views_before[a - 1]);
                    assert(sv[b] == views_before[b - 1]);
                } else {
                    assert(sv[a] == views_before[a]);
                    assert(sv[b] == views_before[b]);
                }
            }
            vstd::seq_lib::to_multiset_insert(views_before, p as int, key@);
            assert(string_views(names@.take(i + 1)) =~= string_views(names@.take(i as int)).push(
                key@,
            ));
            vstd::seq_lib::to_multiset_build(string_views(names@.take(i as int)), key@);
        }
    }
    assert(names@.take(n as int) =~= names@);
    sorted
}

/// Every sequence is ordered before itself.
pub proof fn lemma_chars_le_reflexive(a: Seq<char>)
    ensures
        chars_le(a, a),
    decreases a.len(),
{
    if a.len() > 0 {
        lemma_chars_le_reflexive(a.drop_first());
    }
}

/// Keeps the names that belong to the frame sequence, in their original order.
pub fn filter_frame_names(names: &[String], prefix: &str, ext: &str) -> (kept: Vec<String>)
    ensures
        string_views(kept@) == string_views(names@).filter(
            |name: Seq<char>| is_frame_name(name, prefix@, ext@),
        ),
{
    let ghost pred = |name: Seq<char>| is_frame_name(name, prefix@, ext@);
    let ghost views = string_views(names@);
    let mut kept: Vec<String> = Vec::new();
    let n = names.len();
    reveal(Seq::filter);
    assert(string_views(kept@) =~= views.take(0).filter(pred));
    for i in 0..n
        invariant
            n == names@.len(),
            views == string_views(names@),
            pred == (|name: Seq<char>| is_frame_name(name, prefix@, ext@)),
            string_views(kept@) == views.take(i as int).filter(pred),
    {
        assert(views.take(i + 1).drop_last() =~= views.take(i as int));
        assert(views.take(i + 1).last() == names@[i as int]@);
        reveal(Seq::filter);
        assert(views.take(i + 1).filter(pred) == (if pred(names@[i as int]@) {
            views.take(i as int).filter(pred).push(names@[i as int]@)
        } else {
            views.take(i as int).filter(pred)
        }));
        if is_frame_file_name(names[i].as_str(), prefix, ext) {
            let ghost old_kept = kept@;
            kept.push(names[i].clone());
            assert(string_views(kept@) =~= string_views(old_kept).push(names@[i as int]@));
        }
    }
    assert(views.take(n as int) =~= views);
    kept
}

/// The file names of a frame sequence, in the order in which its frames are played: the names
/// that belong to the sequence, sorted lexicographically.
pub fn select_frame_names(names: &[String], prefix: &str, ext: &str) -> (frames: Vec<String>)
    ensures
        names_sorted(string_views(frames@)),
        string_views(frames@).to_multiset() == string_views(names@).filter(
            |name: Seq<char>| is_frame_name(name, prefix@, ext@),
        ).to_multiset(),
{
    let kept = filter_frame_names(names, prefix, ext);
    sort_names(kept)
}

/// Batches as `batch_ranges` forms them partition the pairs: they start at the first pair,
/// follow one another without gap or overlap, end at the last pair, and each holds between
/// one and `batch_size` pairs.
pub proof fn lemma_batches_partition(total: int, batch_size: int, count: int)
    requires
        total >= 0,
        batch_size >= 1,
        count >= 0,
        count * batch_size >= total,
        count > 0 ==> (count - 1) * batch_size < total,
    ensures
        total == 0 <==> count == 0,
        count > 0 ==> batch_range(total, batch_size, 0).0 == 0,
        count > 0 ==> batch_range(total, batch_size, count - 1).1 == total,
        forall|k: int|
            0 <= k < count ==> {
                let (start, end) = #[trigger] batch_range(total, batch_size, k);
                &&& 0 <= start < end <= total
                &&& end - start <= batch_size
                &&& k + 1 < count ==> end == batch_range(total, batch_size, k + 1).0
            },
{
    if count > 0 {
        assert(0 * batch_size == 0);
        assert((count - 1) * batch_size + batch_size == count * batch_size) by (nonlinear_arith);
    } else {
        assert(0 * batch_size == 0);
    }
    assert forall|k: int| 0 <= k < count implies {
        let (start, end) = #[trigger] batch_range(total, batch_size, k);
        &&& 0 <= start < end <= total
        &&& end - start <= batch_size
        &&& k + 1 < count ==> end == batch_range(total, batch_size, k + 1).0
    } by {
        assert(k * batch_size <= (count - 1) * batch_size) by (nonlinear_arith)
            requires
                k <= count - 1,
                batch_size >= 1,
        ;
        assert(0 <= k * batch_size) by (nonlinear_arith)
            requires
                k >= 0,
                batch_size >= 1,
        ;
        assert((k + 1) * batch_size == k * batch_size + batch_size) by (nonlinear_arith);
        if k + 1 < count {
            assert((k + 1) * batch_size <= (count - 1) * batch_size) by (nonlinear_arith)
                requires
                    k + 1 <= count - 1,
                    batch_size >= 1,
            ;
        }
    }
}

/// An escaped field holds double quotes only at its two ends.
pub proof fn lemma_csv_escaped_quotes(value: Seq<char>)
    ensures
        csv_escaped(value).len() == value.len() + 2,
        csv_escaped(value)[0] == '"',
        csv_escaped(value).last() == '"',
        forall|i: int| 0 < i < csv_escaped(value).len() - 1 ==> #[trigger] csv_escaped(value)[i] != '"',
{
    let inner = value.map_values(|c: char| if c == '"' { '\'' } else { c });
    assert forall|i: int| 0 < i < csv_escaped(value).len() - 1 implies #[trigger] csv_escaped(
        value,
    )[i] != '"' by {
        assert(csv_escaped(value)[i] == inner[i - 1]);
    }
}

/// The message that reports two frames of a pair with different dimensions.
pub open spec fn dimension_mismatch_text(
    path0: Seq<char>,
    w0: usize,
    h0: usize,
    path1: Seq<char>,
    w1: usize,
    h1: usize,
) -> Seq<char> {
    "frame dimensions differ: "@ + path0 + " ("@ + decimal_digits(w0 as nat) + "x"@
        + decimal_digits(h0 as nat) + ") vs "@ + path1 + " ("@ + decimal_digits(w1 as nat) + "x"@
        + decimal_digits(h1 as nat) + ")"@
}

/// Refuses a frame pair of an evaluation whose frames differ in size; `path0` and `path1`
/// are how the frames' files are shown.
pub fn check_frame_dimensions(
    frame0: &GrayscaleFrame,
    frame1: &GrayscaleFrame,
    path0: &str,
    path1: &str,
) -> (r: Result<(), String>)
    ensures
        r is Ok <==> (frame0.width == frame1.width && frame0.height == frame1.height),
        r matches Err(m) ==> m@ == dimension_mismatch_text(
            path0@,
            frame0.width,
            frame0.height,
            path1@,
            frame1.width,
            frame1.height,
        ),
{
    if frame0.width == frame1.width && frame0.height == frame1.height {
        return Ok(());
    }
    let mut m = String::from_str("frame dimensions differ: ");
    m.append(path0);
    m.append(" (");
    push_decimal_usize(&mut m, frame0.width);
    m.append("x");
    push_decimal_usize(&mut m, frame0.height);
    m.append(") vs ");
    m.append(path1);
    m.append(" (");
    push_decimal_usize(&mut m, frame1.width);
    m.append("x");
    push_decimal_usize(&mut m, frame1.height);
    m.append(")");
    Err(m)
}

/// The number of matches kept for each pair of a batch.
pub fn match_counts(outputs: &[MatchBits]) -> (counts: Vec<usize>)
    ensures
        counts@.len() == outputs@.len(),
        forall|k: int| 0 <= k < counts@.len() ==> #[trigger] counts@[k] == outputs@[k].confidence@.len(),
{
    let mut counts: Vec<usize> = Vec::new();
    let n = outputs.len();
    for k in 0..n
        invariant
            n == outputs@.len(),
            counts@.len() == k,
            forall|j: int| 0 <= j < k ==> #[trigger] counts@[j] == outputs@[j].confidence@.len(),
    {
        counts.push(outputs[k].confidence.len());
    }
    counts
}

} // verus!
