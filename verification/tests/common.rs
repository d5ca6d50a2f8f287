use sybl::utils::{chunk_calculate, infer_train_and_predict, join_lines, merge_datasets, CHUNK_SIZE};

#[test]
fn train_and_predict_data_can_be_inferred() {
    let dataset = "age,location\n20,Coventry\n20,\n21,Leamington";
    let (data, predict) = infer_train_and_predict(dataset);

    assert_eq!(data, vec!["age,location", "20,Coventry", "21,Leamington"]);
    assert_eq!(predict, vec!["age,location", "20,"])
}

#[test]
fn correct_chunks_calculated_chunk_one() {
    let min_row = 0;
    let max_row = 10;

    let (chunk_vec, lower_chunk) = chunk_calculate(min_row, max_row, CHUNK_SIZE);
    assert_eq!(0, lower_chunk);
    assert_eq!(chunk_vec, vec![0, 1]);
}

#[test]
fn correct_chunks_calculated_chunk_two() {
    let min_row = 101;
    let max_row = 125;

    let (chunk_vec, lower_chunk) = chunk_calculate(min_row, max_row, CHUNK_SIZE);
    assert_eq!(1, lower_chunk);
    assert_eq!(chunk_vec, vec![0, 1, 2]);
}

#[test]
fn correct_chunks_calculated_multi_chunk() {
    let min_row = 90;
    let max_row = 101;

    let (chunk_vec, lower_chunk) = chunk_calculate(min_row, max_row, CHUNK_SIZE);
    assert_eq!(0, lower_chunk);
    assert_eq!(chunk_vec, vec![0, 1]);
}

#[test]
fn datasets_without_prediction_rows_have_only_a_header_to_predict() {
    let (data, predict) = infer_train_and_predict("a,b\n1,2\n3,4");
    assert_eq!(data, vec!["a,b", "1,2", "3,4"]);
    assert_eq!(predict, vec!["a,b"]);
}

#[test]
fn chunks_span_the_whole_row_range() {
    let (chunk_vec, lower_chunk) = chunk_calculate(250, 480, CHUNK_SIZE);
    assert_eq!(2, lower_chunk);
    assert_eq!(chunk_vec, vec![0, 1, 2, 3, 4, 5]);
}

#[test]
fn training_and_prediction_sets_are_merged_under_one_header() {
    assert_eq!(
        merge_datasets("age,location\n20,Coventry", "age,location\n21,"),
        "age,location\n20,Coventry\n21,"
    );
    assert_eq!(merge_datasets("a,b\n1,2", "a,b"), "a,b\n1,2");
    assert_eq!(join_lines(&vec!["x", "", "y"]), "x\n\ny");
    assert_eq!(join_lines(&vec![]), "");
}
