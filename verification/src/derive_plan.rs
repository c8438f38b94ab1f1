//! What the derive macros decide before they write code.
//!
//! The macros read the fields of a struct and their attributes; what is to
//! be generated for which field is decided here, on plain values.

use vstd::prelude::*;

verus! {

/// The expansion attributes that a field carries.
#[derive(Clone, Copy, Debug, PartialEq, Eq)]
pub struct FieldMarks {
    /// The field is not registered at all.
    pub ignore: bool,
    /// The field is expanded itself, not registered.
    pub nested: bool,
    /// The field is registered as a copy.
    pub force: bool,
}

/// Two expansion attributes on one field that exclude each other.
#[derive(Clone, Copy, Debug, PartialEq, Eq)]
pub enum ExpansionConflict {
    /// A field is both ignored and expanded.
    IgnoredAndNested,
    /// A field is both ignored and registered as a copy.
    IgnoredAndForced,
}

/// What an expansion does with the fields, by their positions.
#[derive(Clone, Debug, PartialEq, Eq)]
pub struct ExpansionPlan {
    /// The fields that are taken out of the value.
    pub extracted: Vec<usize>,
    /// The fields that are registered as they are.
    pub instances: Vec<usize>,
    /// The fields that are registered as a copy.
    pub forced: Vec<usize>,
    /// The fields that are expanded themselves.
    pub nested: Vec<usize>,
}

/// The positions, in order, of the fields that `wanted` accepts.
pub open spec fn positions(fields: Seq<FieldMarks>, wanted: spec_fn(FieldMarks) -> bool) -> Seq<
    usize,
>
    decreases fields.len(),
{
    if fields.len() == 0 {
        Seq::empty()
    } else if wanted(fields.last()) {
        positions(fields.drop_last(), wanted).push((fields.len() - 1) as usize)
    } else {
        positions(fields.drop_last(), wanted)
    }
}

/// Whether some field is both ignored and expanded.
pub open spec fn ignores_nested(fields: Seq<FieldMarks>) -> bool {
    exists|i: int| 0 <= i < fields.len() && (#[trigger] fields[i]).ignore && fields[i].nested
}

/// Whether some field is both ignored and registered as a copy.
pub open spec fn ignores_forced(fields: Seq<FieldMarks>) -> bool {
    exists|i: int| 0 <= i < fields.len() && (#[trigger] fields[i]).ignore && fields[i].force
}

/// Whether a field is taken out of the value.
pub open spec fn is_extracted(field: FieldMarks) -> bool {
    !field.ignore
}

/// Whether a field is registered as it is.
pub open spec fn is_instance(field: FieldMarks) -> bool {
    !field.ignore && !field.nested && !field.force
}

/// Whether a field is registered as a copy.
pub open spec fn is_forced(field: FieldMarks) -> bool {
    !field.ignore && field.force
}

/// Whether a field is expanded itself.
pub open spec fn is_nested(field: FieldMarks) -> bool {
    !field.ignore && field.nested
}

/// Decides what an expansion does with each field.
///
/// An ignored field is skipped. A nested field is expanded, a forced one is
/// registered as a copy, and any other is registered as it is. A field
/// that is ignored and also nested or forced is a conflict; that with
/// nesting is reported first.
pub fn plan_expansion(fields: &Vec<FieldMarks>) -> (planned: Result<
    ExpansionPlan,
    ExpansionConflict,
>)
    ensures
        match planned {
            Ok(plan) => {
                &&& !ignores_nested(fields@)
                &&& !ignores_forced(fields@)
                &&& plan.extracted@ == positions(fields@, |field: FieldMarks| is_extracted(field))
                &&& plan.instances@ == positions(fields@, |field: FieldMarks| is_instance(field))
                &&& plan.forced@ == positions(fields@, |field: FieldMarks| is_forced(field))
                &&& plan.nested@ == positions(fields@, |field: FieldMarks| is_nested(field))
            },
            Err(ExpansionConflict::IgnoredAndNested) => ignores_nested(fields@),
            Err(ExpansionConflict::IgnoredAndForced) => !ignores_nested(fields@) && ignores_forced(
                fields@,
            ),
        },
{
    let mut nested_conflict = false;
    let mut forced_conflict = false;
    let mut extracted: Vec<usize> = Vec::new();
    let mut instances: Vec<usize> = Vec::new();
    let mut forced: Vec<usize> = Vec::new();
    let mut nested: Vec<usize> = Vec::new();
    let ghost wants_extracted = |field: FieldMarks| is_extracted(field);
    let ghost wants_instance = |field: FieldMarks| is_instance(field);
    let ghost wants_forced = |field: FieldMarks| is_forced(field);
    let ghost wants_nested = |field: FieldMarks| is_nested(field);
    let mut i: usize = 0;
    assert(fields@.take(0) =~= Seq::empty());
    while i < fields.len()
        invariant
            i <= fields.len(),
            wants_extracted == (|field: FieldMarks| is_extracted(field)),
            wants_instance == (|field: FieldMarks| is_instance(field)),
            wants_forced == (|field: FieldMarks| is_forced(field)),
            wants_nested == (|field: FieldMarks| is_nested(field)),
            nested_conflict == ignores_nested(fields@.take(i as int)),
            forced_conflict == ignores_forced(fields@.take(i as int)),
            extracted@ == positions(fields@.take(i as int), wants_extracted),
            instances@ == positions(fields@.take(i as int), wants_instance),
            forced@ == positions(fields@.take(i as int), wants_forced),
            nested@ == positions(fields@.take(i as int), wants_nested),
        decreases fields.len() - i,
    {
        let field = fields[i];
        proof {
            let before = fields@.take(i as int);
            let after = fields@.take(i + 1);
            assert(after.drop_last() =~= before);
            assert(after.last() == field);
            assert(after[i as int] == field);
            assert forall|j: int| 0 <= j < i implies after[j] == before[j] by {}
            if ignores_nested(before) {
                let j = choose|j: int|
                    0 <= j < before.len() && (#[trigger] before[j]).ignore && before[j].nested;
                assert(after[j].ignore && after[j].nested);
            }
            if ignores_forced(before) {
                let j = choose|j: int|
                    0 <= j < before.len() && (#[trigger] before[j]).ignore && before[j].force;
                assert(after[j].ignore && after[j].force);
            }
            if ignores_nested(after) {
                let j = choose|j: int|
                    0 <= j < after.len() && (#[trigger] after[j]).ignore && after[j].nested;
                if j < i {
                    assert(before[j].ignore && before[j].nested);
                }
            }
            if ignores_forced(after) {
                let j = choose|j: int|
                    0 <= j < after.len() && (#[trigger] after[j]).ignore && after[j].force;
                if j < i {
                    assert(before[j].ignore && before[j].force);
                }
            }
        }
        if field.ignore && field.nested {
            nested_conflict = true;
        }
        if field.ignore && field.force {
            forced_conflict = true;
        }
        if !field.ignore {
            extracted.push(i);
            if field.force {
                forced.push(i);
            }
            if field.nested {
                nested.push(i);
            }
            if !field.nested && !field.force {
                instances.push(i);
            }
        }
        i += 1;
    }
    assert(fields@.take(fields.len() as int) =~= fields@);
    if nested_conflict {
        Err(ExpansionConflict::IgnoredAndNested)
    } else if forced_conflict {
        Err(ExpansionConflict::IgnoredAndForced)
    } else {
        Ok(ExpansionPlan { extracted, instances, forced, nested })
    }
}

/// What the macro says of a conflict.
pub fn conflict_message(conflict: ExpansionConflict) -> (message: &'static str)
    ensures
        message@ == match conflict {
            ExpansionConflict::IgnoredAndNested => "Can't ignore and expand field simultaneously"@,
            ExpansionConflict::IgnoredAndForced => "Can't ignore and force expanding for field simultaneously"@,
        },
{
    match conflict {
        ExpansionConflict::IgnoredAndNested => "Can't ignore and expand field simultaneously",
        ExpansionConflict::IgnoredAndForced => "Can't ignore and force expanding for field simultaneously",
    }
}

/// One token of the arguments of a `component` attribute.
#[derive(Clone, Debug, PartialEq, Eq)]
pub enum ArgToken {
    /// The keyword `default`.
    Keyword,
    /// The sign `=`.
    Equals,
    /// An identifier.
    Ident(String),
    /// Anything else.
    Other,
}

/// Where the value of a field comes from.
#[derive(Clone, Debug, PartialEq, Eq)]
pub enum DefaultValue {
    /// From the container.
    FromContainer,
    /// From `Default::default()`.
    TypeDefault,
    /// From the function of this name.
    Function(String),
}

/// What is wrong with the `component` attributes of a field.
#[derive(Clone, Copy, Debug, PartialEq, Eq)]
pub enum AttributeError {
    /// The attribute has no argument.
    Empty,
    /// The argument does not start with `default`.
    ExpectedDefault,
    /// No function name follows `default =`.
    ExpectedFunction,
    /// Something follows the argument.
    Unexpected,
    /// The field has more than one `component` attribute.
    Multiple,
}

/// What the arguments of one `component` attribute mean.
pub open spec fn component_args(tokens: Seq<ArgToken>) -> Result<DefaultValue, AttributeError> {
    if tokens.len() == 0 {
        Err(AttributeError::Empty)
    } else if !(tokens[0] is Keyword) {
        Err(AttributeError::ExpectedDefault)
    } else if tokens.len() == 1 {
        Ok(DefaultValue::TypeDefault)
    } else if !(tokens[1] is Equals) {
        Err(AttributeError::Unexpected)
    } else if tokens.len() == 2 || !(tokens[2] is Ident) {
        Err(AttributeError::ExpectedFunction)
    } else if tokens.len() == 3 {
        Ok(DefaultValue::Function(tokens[2]->Ident_0))
    } else {
        Err(AttributeError::Unexpected)
    }
}

/// Reads the arguments of one `component` attribute: `default`, or
/// `default = ` and the name of a function.
pub fn parse_component_args(tokens: &Vec<ArgToken>) -> (parsed: Result<
    DefaultValue,
    AttributeError,
>)
    ensures
        parsed == component_args(tokens@),
{
    if tokens.len() == 0 {
        return Err(AttributeError::Empty);
    }
    match &tokens[0] {
        ArgToken::Keyword => {},
        _ => {
            return Err(AttributeError::ExpectedDefault);
        },
    }
    if tokens.len() == 1 {
        return Ok(DefaultValue::TypeDefault);
    }
    match &tokens[1] {
        ArgToken::Equals => {},
        _ => {
            return Err(AttributeError::Unexpected);
        },
    }
    if tokens.len() == 2 {
        return Err(AttributeError::ExpectedFunction);
    }
    match &tokens[2] {
        ArgToken::Ident(name) => {
            if tokens.len() == 3 {
                Ok(DefaultValue::Function(name.clone()))
            } else {
                Err(AttributeError::Unexpected)
            }
        },
        _ => Err(AttributeError::ExpectedFunction),
    }
}

/// What the `component` attributes of a field mean, each given by its
/// arguments.
pub open spec fn default_value_of(attributes: Seq<Vec<ArgToken>>) -> Result<
    DefaultValue,
    AttributeError,
> {
    if attributes.len() == 0 {
        Ok(DefaultValue::FromContainer)
    } else if component_args(attributes[0]@) is Err {
        component_args(attributes[0]@)
    } else if attributes.len() > 1 {
        Err(AttributeError::Multiple)
    } else {
        component_args(attributes[0]@)
    }
}

/// Reads where the value of a field comes from. A field without the
/// attribute is read from the container; a field may carry the attribute
/// only once.
pub fn read_default_value(attributes: &Vec<Vec<ArgToken>>) -> (read: Result<
    DefaultValue,
    AttributeError,
>)
    ensures
        read == default_value_of(attributes@),
{
    if attributes.len() == 0 {
        return Ok(DefaultValue::FromContainer);
    }
    match parse_component_args(&attributes[0]) {
        Err(error) => Err(error),
        Ok(value) => {
            if attributes.len() > 1 {
                Err(AttributeError::Multiple)
            } else {
                Ok(value)
            }
        },
    }
}

/// What the macro says of a wrong attribute.
pub fn attribute_message(error: AttributeError) -> (message: &'static str)
    ensures
        message@ == match error {
            AttributeError::Empty => "Expected an argument after #[component(...)]."@,
            AttributeError::ExpectedDefault => "expected `default`"@,
            AttributeError::ExpectedFunction => "Expected a user-defined function identifier after #[component(default = ...)]."@,
            AttributeError::Unexpected => "unexpected token"@,
            AttributeError::Multiple => "Multiple #[component(...)] annotations found. Ensure the field has only one #[component(...)] annotation."@,
        },
{
    match error {
        AttributeError::Empty => "Expected an argument after #[component(...)].",
        AttributeError::ExpectedDefault => "expected `default`",
        AttributeError::ExpectedFunction => "Expected a user-defined function identifier after #[component(default = ...)].",
        AttributeError::Unexpected => "unexpected token",
        AttributeError::Multiple => "Multiple #[component(...)] annotations found. Ensure the field has only one #[component(...)] annotation.",
    }
}

/// The positions, in order, of the fields of `values` that are read from
/// the container.
pub open spec fn injected_positions(values: Seq<DefaultValue>) -> Seq<usize>
    decreases values.len(),
{
    if values.len() == 0 {
        Seq::empty()
    } else if values.last() is FromContainer {
        injected_positions(values.drop_last()).push((values.len() - 1) as usize)
    } else {
        injected_positions(values.drop_last())
    }
}

/// The fields that are read from the container: those are the
/// dependencies of the component.
pub fn injected_fields(values: &Vec<DefaultValue>) -> (injected: Vec<usize>)
    ensures
        injected@ == injected_positions(values@),
{
    let mut injected: Vec<usize> = Vec::new();
    let mut i: usize = 0;
    assert(values@.take(0) =~= Seq::empty());
    while i < values.len()
        invariant
            i <= values.len(),
            injected@ == injected_positions(values@.take(i as int)),
        decreases values.len() - i,
    {
        proof {
            assert(values@.take(i + 1).drop_last() =~= values@.take(i as int));
            assert(values@.take(i + 1).last() == values@[i as int]);
        }
        match &values[i] {
            DefaultValue::FromContainer => {
                injected.push(i);
            },
            _ => {},
        }
        i += 1;
    }
    assert(values@.take(values.len() as int) =~= values@);
    injected
}

} // verus!
