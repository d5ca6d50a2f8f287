use sybl::utils::finance::job_cost;

#[test]
fn jobs_cost_models_times_columns_times_thousands_of_rows() {
    assert_eq!(job_cost(3, 4, 5000), 60);
    assert_eq!(job_cost(3, 4, 5999), 60);
}

#[test]
fn small_datasets_cost_one_unit_of_size() {
    assert_eq!(job_cost(2, 10, 10), 20);
    assert_eq!(job_cost(2, 10, 1999), 20);
    assert_eq!(job_cost(2, 10, -5000), 20);
}
