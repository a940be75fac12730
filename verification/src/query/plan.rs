//! Logical plans of bound queries.

use vstd::prelude::*;

use super::bound::{
    BoundCallProcedureStatement, BoundCompositeQueryStatement, BoundExpr,
    BoundLinearQueryStatement, BoundOrderByAndPageStatement, BoundResultStatement,
    BoundReturnStatement, BoundSimpleQueryStatement, BoundSortSpec,
};
#[allow(unused_imports)]
use super::error::plan_refused;
use super::error::{not_planned, PlanError, PlanResult};
use crate::common::data_type::DataSchemaRef;

verus! {

/// A step of a plan, and the step that it takes its rows from.
#[derive(Debug)]
pub enum PlanNode {
    /// One row without columns.
    LogicalOneRow,
    /// The rows that a procedure yields.
    LogicalCall(BoundCallProcedureStatement),
    /// The values of expressions for each row.
    LogicalProject(Project),
    /// The rows in another order.
    LogicalSort(Sort),
    /// The first rows.
    LogicalLimit(Limit),
}

/// The values of expressions for each row.
#[derive(Debug)]
pub struct Project {
    /// Where the rows come from.
    pub child: Box<PlanNode>,
    /// The expressions.
    pub exprs: Vec<BoundExpr>,
    /// The columns.
    pub schema: DataSchemaRef,
}

/// The rows in another order.
#[derive(Debug)]
pub struct Sort {
    /// Where the rows come from.
    pub child: Box<PlanNode>,
    /// By what they are ordered.
    pub specs: Vec<BoundSortSpec>,
}

/// The first rows.
#[derive(Debug)]
pub struct Limit {
    /// Where the rows come from.
    pub child: Box<PlanNode>,
    /// How many.
    pub limit: usize,
}

/// What a plan comes to: the plan, or the feature that is not implemented.
pub type Planned = Result<PlanNode, Seq<char>>;

/// Whether planning came to what it should.
pub open spec fn plans(result: PlanResult<PlanNode>, planned: Planned) -> bool {
    match planned {
        Ok(plan) => result == Ok::<PlanNode, PlanError>(plan),
        Err(feature) => plan_refused(result, feature),
    }
}

/// The plan of what is returned of rows.
pub open spec fn return_plan(statement: BoundReturnStatement, plan: PlanNode) -> Planned {
    if statement.quantifier is Some {
        Err("set quantifier in return statement"@)
    } else {
        match statement.items {
            Some(exprs) => Ok(
                PlanNode::LogicalProject(
                    Project { child: Box::new(plan), exprs, schema: statement.schema },
                ),
            ),
            None => Ok(plan),
        }
    }
}

/// The plan of rows in an order. Without anything to order by it is the plan of the rows.
pub open spec fn sort_plan(specs: Vec<BoundSortSpec>, plan: PlanNode) -> PlanNode {
    if specs@.len() > 0 {
        PlanNode::LogicalSort(Sort { child: Box::new(plan), specs })
    } else {
        plan
    }
}

/// The plan of a number of rows in an order: they are ordered before they are counted.
pub open spec fn page_plan(statement: BoundOrderByAndPageStatement, plan: PlanNode) -> Planned {
    let sorted = sort_plan(statement.order_by, plan);
    if statement.offset is Some {
        Err("offset clause"@)
    } else {
        match statement.limit {
            Some(limit) => Ok(
                PlanNode::LogicalLimit(Limit { child: Box::new(sorted), limit }),
            ),
            None => Ok(sorted),
        }
    }
}

/// The plan of what a query returns of rows.
pub open spec fn result_plan(statement: BoundResultStatement, plan: PlanNode) -> Planned {
    match statement {
        BoundResultStatement::Finish => Err("finish statement"@),
        BoundResultStatement::Return { statement, order_by_and_page } => match return_plan(
            statement,
            plan,
        ) {
            Err(feature) => Err(feature),
            Ok(rows) => match order_by_and_page {
                Some(page) => page_plan(page, rows),
                None => Ok(rows),
            },
        },
    }
}

/// Plans bound queries. The calls of procedures are planned by others.
pub struct LogicalPlanner<C> {
    /// Plans the call of a procedure.
    pub plan_call: C,
}

impl<C: Fn(BoundCallProcedureStatement) -> PlanResult<PlanNode>> LogicalPlanner<C> {
    /// Whether a call can be planned.
    pub open spec fn ready(self) -> bool {
        forall|call: BoundCallProcedureStatement| #[trigger] call_requires(self.plan_call, (call,))
    }

    /// Whether planning a query can come to a result.
    pub open spec fn linear_plans(
        self,
        statement: BoundLinearQueryStatement,
        plan: PlanResult<PlanNode>,
    ) -> bool {
        match statement {
            BoundLinearQueryStatement::Query { statements, result } => if statements@.len() > 1 {
                plan_refused(plan, "multiple statements"@)
            } else if statements@.len() == 0 {
                plans(plan, result_plan(result, PlanNode::LogicalOneRow))
            } else {
                match statements@[0] {
                    BoundSimpleQueryStatement::Match(_) => true,
                    BoundSimpleQueryStatement::Call(call) => exists|
                        rows: PlanResult<PlanNode>,
                    | #[trigger]
                        call_ensures(self.plan_call, (call,), rows) && match rows {
                            Ok(rows) => plans(plan, result_plan(result, rows)),
                            Err(error) => plan == Err::<PlanNode, PlanError>(error),
                        },
                }
            },
            BoundLinearQueryStatement::Nested(_) => plan_refused(plan, "nested query"@),
            BoundLinearQueryStatement::Select => plan_refused(plan, "select statement"@),
        }
    }

    /// Whether a query can be planned: patterns cannot.
    pub open spec fn plannable(statement: BoundLinearQueryStatement) -> bool {
        statement matches BoundLinearQueryStatement::Query { statements, .. } ==> (
        statements@.len() == 1 ==> statements@[0] is Call)
    }

    /// Plans queries that are connected, or one query. Connections are not implemented.
    pub fn plan_composite_query_statement(&self, statement: BoundCompositeQueryStatement) -> (plan:
        PlanResult<PlanNode>)
        requires
            self.ready(),
            statement matches BoundCompositeQueryStatement::Primary(query) ==> Self::plannable(
                query,
            ),
        ensures
            match statement {
                BoundCompositeQueryStatement::Conjunction { .. } => plan_refused(
                    plan,
                    "query conjunction"@,
                ),
                BoundCompositeQueryStatement::Primary(query) => self.linear_plans(query, plan),
            },
    {
        match statement {
            BoundCompositeQueryStatement::Conjunction { .. } => not_planned("query conjunction"),
            BoundCompositeQueryStatement::Primary(query) => self.plan_linear_query_statement(query),
        }
    }

    /// Plans a query.
    pub fn plan_linear_query_statement(&self, statement: BoundLinearQueryStatement) -> (plan:
        PlanResult<PlanNode>)
        requires
            self.ready(),
            Self::plannable(statement),
        ensures
            self.linear_plans(statement, plan),
    {
        match statement {
            BoundLinearQueryStatement::Query { mut statements, result } => {
                if statements.len() > 1 {
                    return not_planned("multiple statements");
                }
                match statements.pop() {
                    None => self.plan_result_statement(result, PlanNode::LogicalOneRow),
                    Some(first) => match self.plan_simple_query_statement(first) {
                        Ok(rows) => self.plan_result_statement(result, rows),
                        Err(error) => Err(error),
                    },
                }
            },
            BoundLinearQueryStatement::Nested(_) => not_planned("nested query"),
            BoundLinearQueryStatement::Select => not_planned("select statement"),
        }
    }

    /// Plans a statement. It must not be a match.
    pub fn plan_simple_query_statement(&self, statement: BoundSimpleQueryStatement) -> (plan:
        PlanResult<PlanNode>)
        requires
            self.ready(),
            statement is Call,
        ensures
            statement matches BoundSimpleQueryStatement::Call(call) && call_ensures(
                self.plan_call,
                (call,),
                plan,
            ),
    {
        match statement {
            BoundSimpleQueryStatement::Match(_) => not_planned("match statement"),
            BoundSimpleQueryStatement::Call(call) => {
                let plan_call = &self.plan_call;
                plan_call(call)
            },
        }
    }

    /// Plans what a query returns of rows.
    pub fn plan_result_statement(&self, statement: BoundResultStatement, plan: PlanNode) -> (result:
        PlanResult<PlanNode>)
        ensures
            plans(result, result_plan(statement, plan)),
    {
        match statement {
            BoundResultStatement::Return { statement, order_by_and_page } => {
                let rows = match self.plan_return_statement(statement, plan) {
                    Ok(rows) => rows,
                    Err(error) => {
                        return Err(error);
                    },
                };
                match order_by_and_page {
                    Some(page) => self.plan_order_by_and_page_statement(page, rows),
                    None => Ok(rows),
                }
            },
            BoundResultStatement::Finish => not_planned("finish statement"),
        }
    }

    /// Plans which columns are returned.
    pub fn plan_return_statement(&self, statement: BoundReturnStatement, plan: PlanNode) -> (result:
        PlanResult<PlanNode>)
        ensures
            plans(result, return_plan(statement, plan)),
    {
        if statement.quantifier.is_some() {
            return not_planned("set quantifier in return statement");
        }
        match statement.items {
            Some(exprs) => Ok(
                PlanNode::LogicalProject(
                    Project { child: Box::new(plan), exprs, schema: statement.schema },
                ),
            ),
            None => Ok(plan),
        }
    }

    /// Plans the order and the number of rows.
    pub fn plan_order_by_and_page_statement(
        &self,
        statement: BoundOrderByAndPageStatement,
        plan: PlanNode,
    ) -> (result: PlanResult<PlanNode>)
        ensures
            plans(result, page_plan(statement, plan)),
    {
        let mut rows = plan;
        if statement.order_by.len() > 0 {
            rows = PlanNode::LogicalSort(
                Sort { child: Box::new(rows), specs: statement.order_by },
            );
        }
        if statement.offset.is_some() {
            return not_planned("offset clause");
        }
        if let Some(limit) = statement.limit {
            rows = PlanNode::LogicalLimit(Limit { child: Box::new(rows), limit });
        }
        Ok(rows)
    }
}

} // verus!
