use vstd::prelude::*;
use vstd::string::StringExecFns;

use crate::error::{EfficientLoftrError, ErrorView};
use crate::text::{joined, join_strings};

verus! {

/// The views of a list of owned strings.
pub open spec fn string_views(strings: Seq<String>) -> Seq<Seq<char>> {
    strings.map_values(|s: String| s@)
}

/// The views of a list of string slices.
pub open spec fn str_views(strings: Seq<&str>) -> Seq<Seq<char>> {
    strings.map_values(|s: &str| s@)
}

/// The first alias, scanning from position `from`, that is among the available names.
pub open spec fn first_available_alias(
    available: Seq<Seq<char>>,
    aliases: Seq<Seq<char>>,
    from: int,
) -> Option<Seq<char>>
    decreases aliases.len() - from,
{
    if from < 0 || from >= aliases.len() {
        None
    } else if available.contains(aliases[from]) {
        Some(aliases[from])
    } else {
        first_available_alias(available, aliases, from + 1)
    }
}

/// The name that is used for a tensor: the preferred one when the model offers it,
/// otherwise the first alias (in the order given) that the model offers.
pub open spec fn resolved_name(
    available: Seq<Seq<char>>,
    preferred: Seq<char>,
    aliases: Seq<Seq<char>>,
) -> Option<Seq<char>> {
    if available.contains(preferred) {
        Some(preferred)
    } else {
        first_available_alias(available, aliases, 0)
    }
}

/// Whether `name` occurs in `available`.
fn contains_name(available: &[String], name: &String) -> (r: bool)
    ensures
        r == string_views(available@).contains(name@),
{
    let n = available.len();
    for i in 0..n
        invariant
            n == available@.len(),
            forall|k: int| 0 <= k < i ==> available@[k]@ != name@,
    {
        if available[i] == *name {
            assert(string_views(available@)[i as int] == name@);
            return true;
        }
    }
    assert forall|k: int| 0 <= k < string_views(available@).len() implies string_views(
        available@,
    )[k] != name@ by {
        assert(string_views(available@)[k] == available@[k]@);
    }
    false
}

/// Picks the tensor name to use among the names that a model offers.
pub fn resolve_name(available: &[String], preferred: &str, aliases: &[&str]) -> (r: Option<String>)
    ensures
        r matches Some(name) ==> resolved_name(
            string_views(available@),
            preferred@,
            str_views(aliases@),
        ) == Some(name@),
        r is None ==> resolved_name(string_views(available@), preferred@, str_views(aliases@))
            is None,
{
    let ghost avail = string_views(available@);
    let ghost alias_views = str_views(aliases@);
    let preferred_owned = String::from_str(preferred);
    if contains_name(available, &preferred_owned) {
        return Some(preferred_owned);
    }
    let n = aliases.len();
    for j in 0..n
        invariant
            n == aliases@.len(),
            avail == string_views(available@),
            alias_views == str_views(aliases@),
            !avail.contains(preferred@),
            first_available_alias(avail, alias_views, 0) == first_available_alias(
                avail,
                alias_views,
                j as int,
            ),
    {
        let candidate = String::from_str(aliases[j]);
        assert(alias_views[j as int] == aliases@[j as int]@);
        if contains_name(available, &candidate) {
            return Some(candidate);
        }
    }
    None
}



/// The role a model tensor plays in a match.
#[derive(Clone, Copy, Debug, PartialEq, Eq)]
pub enum TensorRole {
    Input0,
    Input1,
    Keypoints0,
    Keypoints1,
    Confidence,
}

/// The names that exported model variants commonly use for each role, in order of preference.
pub open spec fn role_aliases(role: TensorRole) -> Seq<Seq<char>> {
    match role {
        TensorRole::Input0 => seq!["image0"@, "img0"@, "input0"@, "left"@],
        TensorRole::Input1 => seq!["image1"@, "img1"@, "input1"@, "right"@],
        TensorRole::Keypoints0 => seq!["keypoints0"@, "mkpts0_f"@, "points0"@, "kpts0"@],
        TensorRole::Keypoints1 => seq!["keypoints1"@, "mkpts1_f"@, "points1"@, "kpts1"@],
        TensorRole::Confidence => seq!["confidence"@, "mconf"@, "scores"@, "conf"@],
    }
}

/// The alias table of a role.
pub fn aliases_for(role: TensorRole) -> (v: Vec<&'static str>)
    ensures
        str_views(v@) == role_aliases(role),
{
    let v = match role {
        TensorRole::Input0 => vec!["image0", "img0", "input0", "left"],
        TensorRole::Input1 => vec!["image1", "img1", "input1", "right"],
        TensorRole::Keypoints0 => vec!["keypoints0", "mkpts0_f", "points0", "kpts0"],
        TensorRole::Keypoints1 => vec!["keypoints1", "mkpts1_f", "points1", "kpts1"],
        TensorRole::Confidence => vec!["confidence", "mconf", "scores", "conf"],
    };
    assert(str_views(v@) =~= role_aliases(role));
    v
}

/// The five tensor names a match works with: two image inputs and three outputs.
#[derive(Clone, Debug)]
pub struct TensorNames {
    pub input0_name: String,
    pub input1_name: String,
    pub keypoints0_name: String,
    pub keypoints1_name: String,
    pub confidence_name: String,
}

/// Tensor names taken by view.
pub struct TensorNamesView {
    pub input0: Seq<char>,
    pub input1: Seq<char>,
    pub keypoints0: Seq<char>,
    pub keypoints1: Seq<char>,
    pub confidence: Seq<char>,
}

impl View for TensorNames {
    type V = TensorNamesView;

    open spec fn view(&self) -> TensorNamesView {
        TensorNamesView {
            input0: self.input0_name@,
            input1: self.input1_name@,
            keypoints0: self.keypoints0_name@,
            keypoints1: self.keypoints1_name@,
            confidence: self.confidence_name@,
        }
    }
}

impl Default for TensorNames {
    /// The names of the reference export: `image0`, `image1`, `keypoints0`, `keypoints1`,
    /// `confidence`.
    fn default() -> (names: Self)
        ensures
            names@ == (TensorNamesView {
                input0: "image0"@,
                input1: "image1"@,
                keypoints0: "keypoints0"@,
                keypoints1: "keypoints1"@,
                confidence: "confidence"@,
            }),
    {
        TensorNames {
            input0_name: String::from_str("image0"),
            input1_name: String::from_str("image1"),
            keypoints0_name: String::from_str("keypoints0"),
            keypoints1_name: String::from_str("keypoints1"),
            confidence_name: String::from_str("confidence"),
        }
    }
}

/// The detail of a missing-tensor error: the requested name and what the model offers.
pub open spec fn missing_detail(name: Seq<char>, available: Seq<Seq<char>>) -> Seq<char> {
    name + " (available: "@ + joined(available, ", "@) + ")"@
}

/// The error reported when no name can be resolved for a role.
pub open spec fn missing_error(role: TensorRole, name: Seq<char>, available: Seq<Seq<char>>) -> ErrorView {
    match role {
        TensorRole::Input0 | TensorRole::Input1 => ErrorView::MissingInput(
            missing_detail(name, available),
        ),
        _ => ErrorView::MissingOutput(missing_detail(name, available)),
    }
}

/// Resolution of one role's name, or the error that reports its absence.
pub open spec fn role_resolution(role: TensorRole, name: Seq<char>, available: Seq<Seq<char>>) -> Result<
    Seq<char>,
    ErrorView,
> {
    match resolved_name(available, name, role_aliases(role)) {
        Some(found) => Ok(found),
        None => Err(missing_error(role, name, available)),
    }
}

/// Resolves all five names, inputs against the model's inputs and outputs against its outputs,
/// stopping at the first role that cannot be resolved (in the order input0, input1,
/// keypoints0, keypoints1, confidence).
pub open spec fn resolved_tensor_names(
    names: TensorNamesView,
    inputs: Seq<Seq<char>>,
    outputs: Seq<Seq<char>>,
) -> Result<TensorNamesView, ErrorView> {
    match role_resolution(TensorRole::Input0, names.input0, inputs) {
        Err(e) => Err(e),
        Ok(input0) => match role_resolution(TensorRole::Input1, names.input1, inputs) {
            Err(e) => Err(e),
            Ok(input1) => match role_resolution(TensorRole::Keypoints0, names.keypoints0, outputs) {
                Err(e) => Err(e),
                Ok(keypoints0) => match role_resolution(
                    TensorRole::Keypoints1,
                    names.keypoints1,
                    outputs,
                ) {
                    Err(e) => Err(e),
                    Ok(keypoints1) => match role_resolution(
                        TensorRole::Confidence,
                        names.confidence,
                        outputs,
                    ) {
                        Err(e) => Err(e),
                        Ok(confidence) => Ok(
                            TensorNamesView { input0, input1, keypoints0, keypoints1, confidence },
                        ),
                    },
                },
            },
        },
    }
}

/// The error that reports that no name could be resolved for a role.
pub fn missing_tensor(role: TensorRole, name: &String, available: &[String]) -> (e: EfficientLoftrError)
    ensures
        e@ == missing_error(role, name@, string_views(available@)),
{
    let mut detail = name.clone();
    detail.append(" (available: ");
    let listed = join_strings(available, ", ");
    detail.append(listed.as_str());
    detail.append(")");
    match role {
        TensorRole::Input0 | TensorRole::Input1 => EfficientLoftrError::MissingInput(detail),
        _ => EfficientLoftrError::MissingOutput(detail),
    }
}

/// Resolves the name of one role among the available names.
pub fn resolve_role(role: TensorRole, name: &String, available: &[String]) -> (r: Result<
    String,
    EfficientLoftrError,
>)
    ensures
        match r {
            Ok(found) => role_resolution(role, name@, string_views(available@)) == Ok::<
                Seq<char>,
                ErrorView,
            >(found@),
            Err(e) => role_resolution(role, name@, string_views(available@)) == Err::<
                Seq<char>,
                ErrorView,
            >(e@),
        },
{
    let aliases = aliases_for(role);
    match resolve_name(available, name.as_str(), aliases.as_slice()) {
        Some(found) => Ok(found),
        None => Err(missing_tensor(role, name, available)),
    }
}

/// Resolves the names of the five tensors of a match against a model's input and output names.
pub fn resolve_tensor_names(names: &TensorNames, inputs: &[String], outputs: &[String]) -> (r:
    Result<TensorNames, EfficientLoftrError>)
    ensures
        match r {
            Ok(found) => resolved_tensor_names(
                names@,
                string_views(inputs@),
                string_views(outputs@),
            ) == Ok::<TensorNamesView, ErrorView>(found@),
            Err(e) => resolved_tensor_names(names@, string_views(inputs@), string_views(outputs@))
                == Err::<TensorNamesView, ErrorView>(e@),
        },
{
    let input0 = resolve_role(TensorRole::Input0, &names.input0_name, inputs)?;
    let input1 = resolve_role(TensorRole::Input1, &names.input1_name, inputs)?;
    let keypoints0 = resolve_role(TensorRole::Keypoints0, &names.keypoints0_name, outputs)?;
    let keypoints1 = resolve_role(TensorRole::Keypoints1, &names.keypoints1_name, outputs)?;
    let confidence = resolve_role(TensorRole::Confidence, &names.confidence_name, outputs)?;
    Ok(
        TensorNames {
            input0_name: input0,
            input1_name: input1,
            keypoints0_name: keypoints0,
            keypoints1_name: keypoints1,
            confidence_name: confidence,
        },
    )
}

proof fn lemma_first_alias(available: Seq<Seq<char>>, aliases: Seq<Seq<char>>, from: int)
    requires
        0 <= from <= aliases.len(),
    ensures
        first_available_alias(available, aliases, from) matches Some(found) ==> exists|j: int|
            from <= j < aliases.len() && aliases[j] == found && available.contains(found)
                && forall|k: int| from <= k < j ==> !available.contains(#[trigger] aliases[k]),
        first_available_alias(available, aliases, from) is None <==> forall|k: int|
            from <= k < aliases.len() ==> !available.contains(#[trigger] aliases[k]),
    decreases aliases.len() - from,
{
    if from < aliases.len() {
        lemma_first_alias(available, aliases, from + 1);
        if !available.contains(aliases[from]) {
            if let Some(found) = first_available_alias(available, aliases, from + 1) {
                let j = choose|j: int|
                    from + 1 <= j < aliases.len() && aliases[j] == found && available.contains(
                        found,
                    ) && forall|k: int|
                        from + 1 <= k < j ==> !available.contains(#[trigger] aliases[k]);
                assert(forall|k: int| from <= k < j ==> !available.contains(#[trigger] aliases[k]));
            }
        }
    }
}

/// A resolved name is always one the model offers. The preferred name wins whenever the
/// model offers it; otherwise the result is the earliest alias the model offers, and there is
/// none exactly when neither the preferred name nor any alias is offered.
pub proof fn lemma_resolved_name_properties(
    available: Seq<Seq<char>>,
    preferred: Seq<char>,
    aliases: Seq<Seq<char>>,
)
    ensures
        resolved_name(available, preferred, aliases) matches Some(found) ==> available.contains(
            found,
        ),
        available.contains(preferred) ==> resolved_name(available, preferred, aliases) == Some(
            preferred,
        ),
        resolved_name(available, preferred, aliases) matches Some(found) ==> found == preferred
            || exists|j: int|
            0 <= j < aliases.len() && aliases[j] == found && forall|k: int|
                0 <= k < j ==> !available.contains(#[trigger] aliases[k]),
        resolved_name(available, preferred, aliases) is None <==> !available.contains(preferred)
            && forall|k: int| 0 <= k < aliases.len() ==> !available.contains(#[trigger] aliases[k]),
{
    lemma_first_alias(available, aliases, 0);
}

/// Resolution is stable: names that were resolved against a model resolve to themselves
/// when they are configured for the same model.
pub proof fn lemma_resolution_is_stable(
    names: TensorNamesView,
    inputs: Seq<Seq<char>>,
    outputs: Seq<Seq<char>>,
)
    ensures
        resolved_tensor_names(names, inputs, outputs) matches Ok(found) ==> resolved_tensor_names(
            found,
            inputs,
            outputs,
        ) == Ok::<TensorNamesView, ErrorView>(found),
{
    lemma_resolved_name_properties(inputs, names.input0, role_aliases(TensorRole::Input0));
    lemma_resolved_name_properties(inputs, names.input1, role_aliases(TensorRole::Input1));
    lemma_resolved_name_properties(outputs, names.keypoints0, role_aliases(TensorRole::Keypoints0));
    lemma_resolved_name_properties(outputs, names.keypoints1, role_aliases(TensorRole::Keypoints1));
    lemma_resolved_name_properties(outputs, names.confidence, role_aliases(TensorRole::Confidence));
    if let Ok(found) = resolved_tensor_names(names, inputs, outputs) {
        lemma_resolved_name_properties(inputs, found.input0, role_aliases(TensorRole::Input0));
        lemma_resolved_name_properties(inputs, found.input1, role_aliases(TensorRole::Input1));
        lemma_resolved_name_properties(
            outputs,
            found.keypoints0,
            role_aliases(TensorRole::Keypoints0),
        );
        lemma_resolved_name_properties(
            outputs,
            found.keypoints1,
            role_aliases(TensorRole::Keypoints1),
        );
        lemma_resolved_name_properties(
            outputs,
            found.confidence,
            role_aliases(TensorRole::Confidence),
        );
    }
}

} // verus!
