use accord::catalog::{ColumnDefinition, SchemaField};
use accord::coordinator::Coordinator;
use accord::deps::DepSet;
use accord::error::{apply_result, should_retry, AccordError};
use accord::plan::{
    CreateSchema, DdlPlan, Insert, LogicalPlan, OutputShape, PlanError, SetValue, SetVariable,
    ShowVariable, TransactionPlan, VariablePlan, WritePlan,
};
use accord::quorum::Quorums;
use accord::replica::PreAcceptReply;
use accord::timestamp::Timestamp;

fn set(values: Vec<SetValue>) -> SetVariable {
    SetVariable { variable: "search_path".to_string(), values }
}

fn t(text: &str) -> String {
    text.to_string()
}

#[test]
fn set_values_join_with_commas() {
    let v = set(vec![
        SetValue::Identifier(t("public")),
        SetValue::SingleQuoted(t("my schema")),
        SetValue::Number(t("42")),
    ]);
    assert_eq!(v.try_into_string(), Ok(t("public,my schema,42")));
}

#[test]
fn set_double_quoted_keeps_its_quotes() {
    let v = set(vec![SetValue::DoubleQuoted(t("Mixed Case")), SetValue::UnQuoted(t("x"))]);
    assert_eq!(v.try_into_string(), Ok(t("\"Mixed Case\",x")));
    let v = set(vec![SetValue::DoubleQuoted(t(""))]);
    assert_eq!(v.try_into_string(), Ok(t("\"\"")));
}

#[test]
fn set_single_value_has_no_comma() {
    assert_eq!(set(vec![SetValue::Literal(t("true"))]).try_into_string(), Ok(t("true")));
    assert_eq!(set(vec![]).try_into_string(), Ok(t("")));
    assert_eq!(
        set(vec![SetValue::UnQuoted(t("")), SetValue::UnQuoted(t(""))]).try_into_string(),
        Ok(t(","))
    );
}

#[test]
fn set_expression_is_an_error_at_its_place() {
    let v = set(vec![
        SetValue::Identifier(t("a")),
        SetValue::Expression(t("1 + 1")),
        SetValue::Expression(t("2 + 2")),
    ]);
    assert_eq!(v.try_into_string(), Err(PlanError::InvalidSetExpression { index: 1 }));
    let v = set(vec![SetValue::Expression(t("f(x)"))]);
    assert_eq!(v.try_into_string(), Err(PlanError::InvalidSetExpression { index: 0 }));
}

#[test]
fn only_query_plans_are_query_plans() {
    let q: LogicalPlan<u32> = LogicalPlan::Query(7);
    assert!(q.is_query());
    assert!(q.has_parameters());
    assert_eq!(q.try_into_datafusion_plan(), Ok(7));
    let tx: LogicalPlan<u32> = LogicalPlan::from(TransactionPlan::Begin);
    assert!(!tx.is_query());
    assert!(!tx.has_parameters());
    assert_eq!(tx.try_into_datafusion_plan(), Err(PlanError::ExpectedQueryPlan));
}

#[test]
fn plans_convert_into_logical_plans() {
    let ddl: LogicalPlan<u32> = LogicalPlan::from(DdlPlan::CreateSchema(CreateSchema {
        schema_name: t("s"),
        if_not_exists: false,
    }));
    assert!(matches!(ddl, LogicalPlan::Ddl(DdlPlan::CreateSchema(_))));
    let write: LogicalPlan<u32> = LogicalPlan::from(WritePlan::Insert(Insert {
        table_name: t("t"),
        columns: vec![t("a")],
        source: 3,
    }));
    assert!(matches!(write, LogicalPlan::Write(WritePlan::Insert(_))));
    let var: LogicalPlan<u32> =
        LogicalPlan::from(VariablePlan::ShowVariable(ShowVariable { variable: t("x") }));
    assert!(matches!(var, LogicalPlan::Variable(VariablePlan::ShowVariable(_))));
    let tx: LogicalPlan<u32> = TransactionPlan::Commit.into();
    assert!(matches!(tx, LogicalPlan::Transaction(TransactionPlan::Commit)));
}

#[test]
fn output_schema_of_query_and_show() {
    let q: LogicalPlan<u32> = LogicalPlan::Query(7);
    assert!(matches!(q.output_schema(), Some(OutputShape::OfQuery)));
    let show: LogicalPlan<u32> =
        LogicalPlan::Variable(VariablePlan::ShowVariable(ShowVariable { variable: t("tz") }));
    match show.output_schema() {
        Some(OutputShape::TextColumn { name }) => assert_eq!(name, "tz"),
        other => panic!("expected one text column, got {:?}", other),
    }
    let set_plan: LogicalPlan<u32> = LogicalPlan::Variable(VariablePlan::SetVariable(set(vec![])));
    assert!(set_plan.output_schema().is_none());
    let tx: LogicalPlan<u32> = LogicalPlan::Transaction(TransactionPlan::Abort);
    assert!(tx.output_schema().is_none());
}

#[test]
fn columns_are_made_of_fields_in_order() {
    let fields = vec![
        SchemaField { name: t("id"), datatype: 1u8, nullable: false },
        SchemaField { name: t("name"), datatype: 2u8, nullable: true },
        SchemaField { name: t("age"), datatype: 3u8, nullable: true },
    ];
    let columns = ColumnDefinition::from_arrow_fields(fields);
    assert_eq!(columns.len(), 3);
    assert_eq!(columns[0].name, "id");
    assert_eq!(columns[0].datatype, 1);
    assert!(!columns[0].nullable);
    assert_eq!(columns[1].name, "name");
    assert_eq!(columns[2].name, "age");
    assert_eq!(columns[2].datatype, 3);
    assert!(ColumnDefinition::<u8>::from_arrow_fields(vec![]).is_empty());
}

#[test]
fn column_and_field_convert_both_ways() {
    let field = SchemaField { name: t("c"), datatype: "utf8", nullable: true };
    let column = ColumnDefinition::from_field(field);
    assert_eq!(column.name, "c");
    assert_eq!(column.datatype, "utf8");
    assert!(column.nullable);
    let back = column.into_field();
    assert_eq!(back.name, "c");
    assert_eq!(back.datatype, "utf8");
    assert!(back.nullable);
}

#[test]
fn retry_needs_a_retryable_error_and_budget() {
    assert!(should_retry(AccordError::QuorumUnavailable, 0, 3));
    assert!(should_retry(AccordError::StaleBallot, 2, 3));
    assert!(!should_retry(AccordError::StaleBallot, 3, 3));
    assert!(!should_retry(AccordError::QuorumUnavailable, 0, 0));
    assert!(!should_retry(AccordError::ConflictingFinalization, 0, 3));
    assert!(!should_retry(AccordError::PayloadApplyFailure, 0, 3));
}

#[test]
fn storage_rejection_is_an_apply_failure() {
    assert_eq!(apply_result(true), Ok(()));
    assert_eq!(apply_result(false), Err(AccordError::PayloadApplyFailure));
}

#[test]
fn submission_result_follows_the_stage() {
    let p = Timestamp::new(10, 0, 1);
    let mut c = Coordinator::new(1, p, 0, Quorums::new(3, 2).unwrap());
    assert_eq!(c.submission_result(AccordError::QuorumUnavailable), None);
    c.on_pre_accept_reply(1, PreAcceptReply { witnessed_ts: p, deps: DepSet::new(), agreed: true });
    c.on_pre_accept_reply(2, PreAcceptReply { witnessed_ts: p, deps: DepSet::new(), agreed: true });
    assert_eq!(c.submission_result(AccordError::QuorumUnavailable), Some(Ok(p)));
    c.on_rejected(AccordError::StaleBallot);
    c.on_timeout();
    assert_eq!(c.submission_result(AccordError::StaleBallot), Some(Ok(p)));
    let mut d = Coordinator::new(1, p, 0, Quorums::new(3, 2).unwrap());
    d.on_timeout();
    assert_eq!(
        d.submission_result(AccordError::QuorumUnavailable),
        Some(Err(AccordError::QuorumUnavailable))
    );
}
