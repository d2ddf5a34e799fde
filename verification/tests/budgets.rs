use copilot_money_cli::budgets::{budget_rows, run_budgets, BudgetMonth, BudgetRow, BudgetsAction, BudgetsCmd, BudgetsError};

#[test]
fn budgets_month_lists_and_set_fails() {
    assert_eq!(run_budgets(&BudgetsCmd::Month), Ok(BudgetsAction::ListBudgetMonths));
    let err = run_budgets(&BudgetsCmd::SetBudget).unwrap_err();
    assert_eq!(err, BudgetsError::SetNotImplemented);
    assert_eq!(err.message(), "budgets set not implemented yet (need mutation doc)");
}

#[test]
fn budget_rows_keep_order_and_cells() {
    let rows = budget_rows(vec![
        BudgetMonth { month: "2024-01".to_string(), amount: "10".to_string() },
        BudgetMonth { month: "2024-02".to_string(), amount: "20".to_string() },
    ]);
    assert_eq!(rows.len(), 2);
    assert_eq!(rows[0].cells(), vec!["2024-01".to_string(), "10".to_string()]);
    assert_eq!(rows[1].cells(), vec!["2024-02".to_string(), "20".to_string()]);
    assert_eq!(BudgetRow::headers(), vec!["month".to_string(), "amount".to_string()]);
}
