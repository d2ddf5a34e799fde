//! The `budgets` command: what it asks of the API and the rows it shows.
use vstd::prelude::*;

verus! {

/// The `budgets` sub-commands.
#[derive(Debug, Clone, Copy, PartialEq, Eq, Structural)]
pub enum BudgetsCmd {
    /// List the budget of each month.
    Month,
    /// Set a budget (not available yet).
    SetBudget,
}

/// A month's budget, as the API reports it.
pub struct BudgetMonth {
    pub month: String,
    pub amount: String,
}

/// What the command needs from the API next.
#[derive(Debug, Clone, Copy, PartialEq, Eq, Structural)]
pub enum BudgetsAction {
    /// Fetch the budget of each month, then show them with `budget_rows`.
    ListBudgetMonths,
}

/// Why the command fails.
#[derive(Debug, Clone, Copy, PartialEq, Eq, Structural)]
pub enum BudgetsError {
    /// `budgets set` has no mutation document yet.
    SetNotImplemented,
}

/// The message of a failure.
pub open spec fn budgets_error_text(e: BudgetsError) -> Seq<char> {
    match e {
        BudgetsError::SetNotImplemented => "budgets set not implemented yet (need mutation doc)"@,
    }
}

impl BudgetsError {
    /// The message that the failure is reported with.
    pub fn message(&self) -> (r: String)
        ensures
            r@ == budgets_error_text(*self),
    {
        match self {
            BudgetsError::SetNotImplemented => "budgets set not implemented yet (need mutation doc)".to_owned(),
        }
    }
}

/// Decides what `budgets <cmd>` does: listing months fetches them; setting a
/// budget fails, as it is not available yet.
pub fn run_budgets(cmd: &BudgetsCmd) -> (r: Result<BudgetsAction, BudgetsError>)
    ensures
        *cmd == BudgetsCmd::Month <==> r == Ok::<BudgetsAction, BudgetsError>(BudgetsAction::ListBudgetMonths),
        *cmd == BudgetsCmd::SetBudget <==> r == Err::<BudgetsAction, BudgetsError>(BudgetsError::SetNotImplemented),
{
    match cmd {
        BudgetsCmd::Month => Ok(BudgetsAction::ListBudgetMonths),
        BudgetsCmd::SetBudget => Err(BudgetsError::SetNotImplemented),
    }
}

/// One row of the budgets table.
pub struct BudgetRow {
    pub month: String,
    pub amount: String,
}

impl BudgetRow {
    /// The column headers: `month`, `amount`.
    pub fn headers() -> (r: Vec<String>)
        ensures
            r@.len() == 2,
            r@[0]@ == "month"@,
            r@[1]@ == "amount"@,
    {
        let mut v = Vec::new();
        v.push("month".to_owned());
        v.push("amount".to_owned());
        v
    }

    /// The cells of the row: the month, then the amount.
    pub fn cells(&self) -> (r: Vec<String>)
        ensures
            r@.len() == 2,
            r@[0]@ == self.month@,
            r@[1]@ == self.amount@,
    {
        let mut v = Vec::new();
        v.push(self.month.clone());
        v.push(self.amount.clone());
        v
    }
}

/// One row per month's budget, in the order the API gave them.
pub fn budget_rows(items: Vec<BudgetMonth>) -> (r: Vec<BudgetRow>)
    ensures
        r@.len() == items@.len(),
        forall|i: int| 0 <= i < items@.len() ==> #[trigger] r@[i].month@ == items@[i].month@ && r@[i].amount@ == items@[i].amount@,
{
    let mut rows: Vec<BudgetRow> = Vec::new();
    let mut i: usize = 0;
    while i < items.len()
        invariant
            i <= items@.len(),
            rows@.len() == i,
            forall|k: int| 0 <= k < i ==> #[trigger] rows@[k].month@ == items@[k].month@ && rows@[k].amount@ == items@[k].amount@,
        decreases items@.len() - i,
    {
        rows.push(BudgetRow { month: items[i].month.clone(), amount: items[i].amount.clone() });
        i = i + 1;
    }
    rows
}

} // verus!
