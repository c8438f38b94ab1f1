use mydi::derive_plan::{
    attribute_message, conflict_message, injected_fields, parse_component_args, plan_expansion,
    read_default_value, ArgToken, AttributeError, DefaultValue, ExpansionConflict, ExpansionPlan,
    FieldMarks,
};

fn marks(ignore: bool, nested: bool, force: bool) -> FieldMarks {
    FieldMarks { ignore, nested, force }
}

fn ident(name: &str) -> ArgToken {
    ArgToken::Ident(name.to_string())
}

#[test]
fn plain_fields_are_registered_as_they_are() {
    let plan = plan_expansion(&vec![marks(false, false, false), marks(false, false, false)]);
    assert_eq!(
        plan,
        Ok(ExpansionPlan { extracted: vec![0, 1], instances: vec![0, 1], forced: vec![], nested: vec![] })
    );
}

#[test]
fn ignored_fields_are_skipped() {
    let plan = plan_expansion(&vec![marks(false, false, false), marks(true, false, false)]);
    assert_eq!(
        plan,
        Ok(ExpansionPlan { extracted: vec![0], instances: vec![0], forced: vec![], nested: vec![] })
    );
}

#[test]
fn nested_and_forced_fields_go_their_ways() {
    let plan = plan_expansion(&vec![
        marks(false, true, false),
        marks(false, false, true),
        marks(false, false, false),
        marks(false, true, true),
        marks(true, false, false),
    ]);
    assert_eq!(
        plan,
        Ok(ExpansionPlan {
            extracted: vec![0, 1, 2, 3],
            instances: vec![2],
            forced: vec![1, 3],
            nested: vec![0, 3],
        })
    );
}

#[test]
fn no_fields_no_plan() {
    assert_eq!(
        plan_expansion(&vec![]),
        Ok(ExpansionPlan { extracted: vec![], instances: vec![], forced: vec![], nested: vec![] })
    );
}

#[test]
fn ignoring_excludes_nesting_and_forcing() {
    assert_eq!(
        plan_expansion(&vec![marks(false, false, false), marks(true, true, false)]),
        Err(ExpansionConflict::IgnoredAndNested)
    );
    assert_eq!(
        plan_expansion(&vec![marks(true, false, true)]),
        Err(ExpansionConflict::IgnoredAndForced)
    );
    assert_eq!(
        plan_expansion(&vec![marks(true, false, true), marks(true, true, false)]),
        Err(ExpansionConflict::IgnoredAndNested)
    );
}

#[test]
fn conflict_messages() {
    assert_eq!(
        conflict_message(ExpansionConflict::IgnoredAndNested),
        "Can't ignore and expand field simultaneously"
    );
    assert_eq!(
        conflict_message(ExpansionConflict::IgnoredAndForced),
        "Can't ignore and force expanding for field simultaneously"
    );
}

#[test]
fn component_arguments() {
    assert_eq!(parse_component_args(&vec![ArgToken::Keyword]), Ok(DefaultValue::TypeDefault));
    assert_eq!(
        parse_component_args(&vec![ArgToken::Keyword, ArgToken::Equals, ident("func")]),
        Ok(DefaultValue::Function("func".to_string()))
    );
}

#[test]
fn wrong_component_arguments() {
    assert_eq!(parse_component_args(&vec![]), Err(AttributeError::Empty));
    assert_eq!(parse_component_args(&vec![ident("x")]), Err(AttributeError::ExpectedDefault));
    assert_eq!(parse_component_args(&vec![ArgToken::Equals]), Err(AttributeError::ExpectedDefault));
    assert_eq!(
        parse_component_args(&vec![ArgToken::Keyword, ident("x")]),
        Err(AttributeError::Unexpected)
    );
    assert_eq!(
        parse_component_args(&vec![ArgToken::Keyword, ArgToken::Equals]),
        Err(AttributeError::ExpectedFunction)
    );
    assert_eq!(
        parse_component_args(&vec![ArgToken::Keyword, ArgToken::Equals, ArgToken::Other]),
        Err(AttributeError::ExpectedFunction)
    );
    assert_eq!(
        parse_component_args(&vec![ArgToken::Keyword, ArgToken::Equals, ident("f"), ArgToken::Other]),
        Err(AttributeError::Unexpected)
    );
}

#[test]
fn a_field_carries_the_attribute_at_most_once() {
    assert_eq!(read_default_value(&vec![]), Ok(DefaultValue::FromContainer));
    assert_eq!(read_default_value(&vec![vec![ArgToken::Keyword]]), Ok(DefaultValue::TypeDefault));
    assert_eq!(
        read_default_value(&vec![vec![ArgToken::Keyword], vec![ArgToken::Keyword]]),
        Err(AttributeError::Multiple)
    );
    assert_eq!(
        read_default_value(&vec![vec![], vec![ArgToken::Keyword]]),
        Err(AttributeError::Empty)
    );
}

#[test]
fn attribute_messages() {
    assert_eq!(
        attribute_message(AttributeError::Empty),
        "Expected an argument after #[component(...)]."
    );
    assert_eq!(attribute_message(AttributeError::ExpectedDefault), "expected `default`");
    assert_eq!(
        attribute_message(AttributeError::ExpectedFunction),
        "Expected a user-defined function identifier after #[component(default = ...)]."
    );
    assert_eq!(attribute_message(AttributeError::Unexpected), "unexpected token");
    assert_eq!(
        attribute_message(AttributeError::Multiple),
        "Multiple #[component(...)] annotations found. Ensure the field has only one #[component(...)] annotation."
    );
}

#[test]
fn the_fields_without_a_default_are_the_dependencies() {
    let values = vec![
        DefaultValue::FromContainer,
        DefaultValue::TypeDefault,
        DefaultValue::FromContainer,
        DefaultValue::Function("f".to_string()),
    ];
    assert_eq!(injected_fields(&values), vec![0, 2]);
    assert_eq!(injected_fields(&vec![]), Vec::<usize>::new());
}
