//! The plans that a session runs besides queries: data definition,
//! transaction control and session variables.

use crate::hashing::FunctionType;
use vstd::prelude::*;

verus! {

#[derive(Clone, Debug)]
pub struct CreateSchema {
    pub schema_name: String,
    pub if_not_exists: bool,
}

#[derive(Clone, Debug)]
pub struct CreateView {
    pub view_name: String,
    pub num_columns: usize,
    pub sql: String,
}

#[derive(Clone, Debug)]
pub struct AlterTableRename {
    pub name: String,
    pub new_name: String,
}

#[derive(Clone, Debug)]
pub struct DropTables {
    pub names: Vec<String>,
    pub if_exists: bool,
}

#[derive(Clone, Debug)]
pub struct DropViews {
    pub names: Vec<String>,
    pub if_exists: bool,
}

#[derive(Clone, Debug)]
pub struct DropSchemas {
    pub names: Vec<String>,
    pub if_exists: bool,
}

#[derive(Clone, Debug)]
pub struct DropDatabase {
    pub name: String,
    pub if_exists: bool,
}

#[derive(Clone, Debug)]
pub struct AlterDatabaseRename {
    pub name: String,
    pub new_name: String,
}

/// The data definition plans that name catalog objects only.
#[derive(Clone, Debug)]
pub enum DdlPlan {
    CreateSchema(CreateSchema),
    CreateView(CreateView),
    AlterTableRaname(AlterTableRename),
    AlterDatabaseRename(AlterDatabaseRename),
    DropTables(DropTables),
    DropViews(DropViews),
    DropSchemas(DropSchemas),
    DropDatabase(DropDatabase),
}

impl DdlPlan {
    /// How many catalog objects the plan names.
    pub open spec fn spec_object_count(self) -> nat {
        match self {
            DdlPlan::DropTables(p) => p.names@.len(),
            DdlPlan::DropViews(p) => p.names@.len(),
            DdlPlan::DropSchemas(p) => p.names@.len(),
            _ => 1,
        }
    }

    /// Whether the plan leaves the catalog alone where its object already
    /// is as wanted: `if not exists` on a create, `if exists` on a drop.
    pub open spec fn spec_is_lenient(self) -> bool {
        match self {
            DdlPlan::CreateSchema(p) => p.if_not_exists,
            DdlPlan::DropTables(p) => p.if_exists,
            DdlPlan::DropViews(p) => p.if_exists,
            DdlPlan::DropSchemas(p) => p.if_exists,
            DdlPlan::DropDatabase(p) => p.if_exists,
            _ => false,
        }
    }

    pub fn object_count(&self) -> (n: usize)
        ensures
            n == self.spec_object_count(),
    {
        match self {
            DdlPlan::DropTables(p) => p.names.len(),
            DdlPlan::DropViews(p) => p.names.len(),
            DdlPlan::DropSchemas(p) => p.names.len(),
            _ => 1,
        }
    }

    pub fn is_lenient(&self) -> (r: bool)
        ensures
            r == self.spec_is_lenient(),
    {
        match self {
            DdlPlan::CreateSchema(p) => p.if_not_exists,
            DdlPlan::DropTables(p) => p.if_exists,
            DdlPlan::DropViews(p) => p.if_exists,
            DdlPlan::DropSchemas(p) => p.if_exists,
            DdlPlan::DropDatabase(p) => p.if_exists,
            _ => false,
        }
    }
}

/// Plans related to transaction management.
#[derive(Clone, Copy, Debug, PartialEq, Eq, Structural)]
pub enum TransactionPlan {
    Begin,
    Commit,
    Abort,
}

impl TransactionPlan {
    pub open spec fn spec_ends_transaction(self) -> bool {
        self is Commit || self is Abort
    }

    /// Whether the plan ends the transaction that is open.
    pub fn ends_transaction(&self) -> (r: bool)
        ensures
            r == self.spec_ends_transaction(),
    {
        match self {
            TransactionPlan::Begin => false,
            TransactionPlan::Commit => true,
            TransactionPlan::Abort => true,
        }
    }
}

#[derive(Clone, Debug)]
pub struct ShowVariable {
    pub variable: String,
}

/// One value of a `SET` statement.
#[derive(Clone, Debug)]
pub enum SetValue {
    /// An identifier, plain or compound, as written.
    Identifier(String),
    /// The text between single quotes.
    SingleQuoted(String),
    /// The text between double quotes.
    DoubleQuoted(String),
    /// A string written without quotes.
    UnQuoted(String),
    /// A number, as written.
    Number(String),
    /// Any other literal, as written.
    Literal(String),
    /// An expression that is no value, as written.
    Expression(String),
}

/// Why a plan cannot be carried out.
#[derive(Clone, Copy, Debug, PartialEq, Eq, Structural)]
pub enum PlanError {
    /// The value at this place of a `SET` statement is an expression.
    InvalidSetExpression { index: usize },
    /// A query plan was expected, and the plan is of another kind.
    ExpectedQueryPlan,
}

impl SetValue {
    /// The text that a value stands for: a double-quoted string keeps its
    /// quotes, every other value is its text, an expression has none.
    pub open spec fn spec_text(self) -> Option<Seq<char>> {
        match self {
            SetValue::Identifier(s) => Some(s@),
            SetValue::SingleQuoted(s) => Some(s@),
            SetValue::DoubleQuoted(s) => Some("\""@ + s@ + "\""@),
            SetValue::UnQuoted(s) => Some(s@),
            SetValue::Number(s) => Some(s@),
            SetValue::Literal(s) => Some(s@),
            SetValue::Expression(_) => None,
        }
    }
}

/// The texts of the values, with a comma between each two.
pub open spec fn spec_joined(values: Seq<SetValue>) -> Seq<char>
    decreases values.len(),
{
    if values.len() == 0 {
        Seq::empty()
    } else {
        let text = match values.last().spec_text() {
            Some(t) => t,
            None => Seq::empty(),
        };
        if values.len() == 1 {
            text
        } else {
            spec_joined(values.drop_last()) + ","@ + text
        }
    }
}

#[derive(Clone, Debug)]
pub struct SetVariable {
    pub variable: String,
    pub values: Vec<SetValue>,
}

impl SetVariable {
    /// The values as one string, joined by commas. The first value that is
    /// an expression makes it an error.
    pub fn try_into_string(&self) -> (r: Result<String, PlanError>)
        ensures
            match r {
                Ok(text) => text@ == spec_joined(self.values@) && forall|k: int|
                    0 <= k < self.values.len() ==> !((#[trigger] self.values[k]) is Expression),
                Err(e) => e matches PlanError::InvalidSetExpression { index } && index
                    < self.values.len() && self.values[index as int] is Expression && forall|k: int|
                    0 <= k < index ==> !((#[trigger] self.values[k]) is Expression),
            },
    {
        let mut out = String::new();
        let mut i: usize = 0;
        proof {
            assert(self.values@.take(0) =~= Seq::<SetValue>::empty());
        }
        while i < self.values.len()
            invariant
                i <= self.values.len(),
                out@ == spec_joined(self.values@.take(i as int)),
                forall|k: int| 0 <= k < i ==> !((#[trigger] self.values[k]) is Expression),
            decreases self.values.len() - i,
        {
            let ghost before = out@;
            proof {
                assert(self.values@.take(i + 1).drop_last() =~= self.values@.take(i as int));
                assert(self.values@.take(i + 1).last() == self.values@[i as int]);
            }
            if i > 0 {
                out.append(",");
            }
            let ghost lead = out@;
            match &self.values[i] {
                SetValue::Identifier(s) => {
                    out.append(s.as_str());
                },
                SetValue::SingleQuoted(s) => {
                    out.append(s.as_str());
                },
                SetValue::DoubleQuoted(s) => {
                    out.append("\"");
                    out.append(s.as_str());
                    out.append("\"");
                    assert(out@ =~= lead + ("\""@ + s@ + "\""@));
                },
                SetValue::UnQuoted(s) => {
                    out.append(s.as_str());
                },
                SetValue::Number(s) => {
                    out.append(s.as_str());
                },
                SetValue::Literal(s) => {
                    out.append(s.as_str());
                },
                SetValue::Expression(_) => {
                    return Err(PlanError::InvalidSetExpression { index: i });
                },
            }
            proof {
                let text = self.values@[i as int].spec_text().unwrap();
                assert(out@ == lead + text);
                if i == 0 {
                    assert(before =~= Seq::<char>::empty());
                    assert(out@ =~= text);
                }
            }
            i += 1;
        }
        proof {
            assert(self.values@.take(i as int) =~= self.values@);
        }
        Ok(out)
    }
}

/// Plans related to altering the state or runtime of the session.
#[derive(Clone, Debug)]
pub enum VariablePlan {
    SetVariable(SetVariable),
    ShowVariable(ShowVariable),
}

/// An insert of the rows that the plan `source` yields.
#[derive(Clone, Debug)]
pub struct Insert<Q> {
    pub table_name: String,
    pub columns: Vec<String>,
    pub source: Q,
}

#[derive(Clone, Debug)]
pub enum WritePlan<Q> {
    Insert(Insert<Q>),
}

/// What a plan hands back to the client.
#[derive(Clone, Debug)]
pub enum OutputShape {
    /// The columns of the query.
    OfQuery,
    /// One column of text, never null, with this name.
    TextColumn { name: String },
}

/// A plan of a session. `Q` is the plan of a query, which the query
/// engine runs.
#[derive(Clone, Debug)]
pub enum LogicalPlan<Q> {
    /// DDL plans.
    Ddl(DdlPlan),
    /// Write plans.
    Write(WritePlan<Q>),
    /// Plans related to querying the underlying data store.
    Query(Q),
    /// Plans related to transaction management.
    Transaction(TransactionPlan),
    /// Plans related to altering the state or runtime of the session.
    Variable(VariablePlan),
}

impl<Q> LogicalPlan<Q> {
    pub open spec fn spec_is_query(self) -> bool {
        self is Query
    }

    pub fn is_query(&self) -> (r: bool)
        ensures
            r == self.spec_is_query(),
    {
        match self {
            LogicalPlan::Query(_) => true,
            _ => false,
        }
    }

    /// The query plan, if this plan is one.
    pub fn try_into_datafusion_plan(self) -> (r: Result<Q, PlanError>)
        ensures
            match r {
                Ok(plan) => self == LogicalPlan::<Q>::Query(plan),
                Err(e) => e == PlanError::ExpectedQueryPlan && !(self is Query),
            },
    {
        match self {
            LogicalPlan::Query(plan) => Ok(plan),
            _ => Err(PlanError::ExpectedQueryPlan),
        }
    }

    /// What the plan hands back, if it hands anything back: a query its
    /// columns, a `SHOW` one text column named after the variable.
    pub fn output_schema(&self) -> (shape: Option<OutputShape>)
        ensures
            match shape {
                Some(OutputShape::OfQuery) => self is Query,
                Some(OutputShape::TextColumn { name }) => self matches LogicalPlan::Variable(
                    VariablePlan::ShowVariable(show),
                ) && name@ == show.variable@,
                None => !(self is Query) && !(self matches LogicalPlan::Variable(
                    VariablePlan::ShowVariable(_),
                )),
            },
    {
        match self {
            LogicalPlan::Query(_) => Some(OutputShape::OfQuery),
            LogicalPlan::Variable(VariablePlan::ShowVariable(plan)) => Some(
                OutputShape::TextColumn { name: plan.variable.clone() },
            ),
            _ => None,
        }
    }

    /// Whether placeholders of the plan are replaced and its parameter
    /// types asked for: so far only in query plans.
    pub fn has_parameters(&self) -> (r: bool)
        ensures
            r == (self is Query),
    {
        self.is_query()
    }
}

impl<Q> From<DdlPlan> for LogicalPlan<Q> {
    fn from(plan: DdlPlan) -> (logical: Self) {
        LogicalPlan::Ddl(plan)
    }
}

impl<Q> vstd::std_specs::convert::FromSpecImpl<DdlPlan> for LogicalPlan<Q> {
    open spec fn obeys_from_spec() -> bool {
        true
    }

    open spec fn from_spec(plan: DdlPlan) -> Self {
        LogicalPlan::Ddl(plan)
    }
}

impl<Q> From<WritePlan<Q>> for LogicalPlan<Q> {
    fn from(plan: WritePlan<Q>) -> (logical: Self) {
        LogicalPlan::Write(plan)
    }
}

impl<Q> vstd::std_specs::convert::FromSpecImpl<WritePlan<Q>> for LogicalPlan<Q> {
    open spec fn obeys_from_spec() -> bool {
        true
    }

    open spec fn from_spec(plan: WritePlan<Q>) -> Self {
        LogicalPlan::Write(plan)
    }
}

impl<Q> From<TransactionPlan> for LogicalPlan<Q> {
    fn from(plan: TransactionPlan) -> (logical: Self) {
        LogicalPlan::Transaction(plan)
    }
}

impl<Q> vstd::std_specs::convert::FromSpecImpl<TransactionPlan> for LogicalPlan<Q> {
    open spec fn obeys_from_spec() -> bool {
        true
    }

    open spec fn from_spec(plan: TransactionPlan) -> Self {
        LogicalPlan::Transaction(plan)
    }
}

impl<Q> From<VariablePlan> for LogicalPlan<Q> {
    fn from(plan: VariablePlan) -> (logical: Self) {
        LogicalPlan::Variable(plan)
    }
}

impl<Q> vstd::std_specs::convert::FromSpecImpl<VariablePlan> for LogicalPlan<Q> {
    open spec fn obeys_from_spec() -> bool {
        true
    }

    open spec fn from_spec(plan: VariablePlan) -> Self {
        LogicalPlan::Variable(plan)
    }
}

/// Where a table function prefers to run.
#[derive(Clone, Copy, Debug, PartialEq, Eq, Structural)]
pub enum RuntimePreference {
    Unspecified,
    Local,
    Remote,
}

/// Function for scanning delta tables.
#[derive(Debug, Clone, Copy)]
pub struct DeltaScan;

impl DeltaScan {
    pub fn runtime_preference(&self) -> (preference: RuntimePreference)
        ensures
            preference == RuntimePreference::Remote,
    {
        RuntimePreference::Remote
    }

    pub fn name(&self) -> (name: &'static str)
        ensures
            name@ == "delta_scan"@,
    {
        "delta_scan"
    }

    pub fn function_type(&self) -> (t: FunctionType)
        ensures
            t == FunctionType::TableReturning,
    {
        FunctionType::TableReturning
    }
}

} // verus!
