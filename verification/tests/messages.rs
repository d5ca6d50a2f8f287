use sybl::messages::client::ClientMessage;
use sybl::messages::kafka_message::KafkaWsMessage;
use sybl::messages::websocket_message::ClientCompleteMessage;
use sybl::messages::RawMessage;
use sybl::models::jobs::{JobConfiguration, PredictionType};
use sybl::utils::compress::decode_and_decompress;

#[test]
fn datasets_are_compressed_and_encoded() {
    let message = ClientMessage::from_train_and_predict("a,b\n1,2", "a,b\n3,");
    match message {
        ClientMessage::Dataset { train, predict } => {
            assert_ne!(train, "a,b\n1,2");
            assert_eq!(decode_and_decompress(&train), Ok(String::from("a,b\n1,2")));
            assert_eq!(decode_and_decompress(&predict), Ok(String::from("a,b\n3,")));
        }
        other => panic!("unexpected message {:?}", other),
    }
}

fn config() -> JobConfiguration {
    let mut config = JobConfiguration::default();
    config.node_computation_time = 5;
    config.cluster_size = 3;
    config.column_types = vec![String::from("age"), String::from("name")];
    config.prediction_column = String::from("name");
    config.prediction_type = PredictionType::Regression;
    config
}

#[test]
fn job_configurations_give_models_their_computation_time() {
    let message = ClientMessage::job_config_at(&config(), 1_000);
    assert_eq!(
        message,
        ClientMessage::JobConfig {
            message_creation_timestamp: 1_000,
            prediction_cutoff_timestamp: 1_300,
            cluster_size: 3,
            column_types: vec![String::from("age"), String::from("name")],
            prediction_column: String::from("name"),
            prediction_type: PredictionType::Regression,
        }
    );
}

#[test]
fn job_configurations_are_stamped_now() {
    match ClientMessage::from_job_configuration(&config()) {
        ClientMessage::JobConfig {
            message_creation_timestamp,
            prediction_cutoff_timestamp,
            cluster_size,
            ..
        } => {
            assert!(message_creation_timestamp > 1_600_000_000);
            assert_eq!(prediction_cutoff_timestamp - message_creation_timestamp, 300);
            assert_eq!(cluster_size, 3);
        }
        other => panic!("unexpected message {:?}", other),
    }
}

#[test]
fn anonymised_configurations_rename_only_the_prediction_column() {
    let anonymised = config().anonymise(String::from("c0"));
    assert_eq!(anonymised.prediction_column, "c0");
    assert_eq!(anonymised.cluster_size, 3);
    assert_eq!(anonymised.column_types, config().column_types);
}

#[test]
fn raw_messages_are_length_prefixed() {
    let message = RawMessage::new(String::from("{\"x\":true}"));
    assert_eq!(message.as_bytes(), b"\x00\x00\x00\x0a{\"x\":true}".to_vec());
}

#[test]
fn completion_messages_count_the_finished_models() {
    let message = KafkaWsMessage::client_complete("p1", 5, 2, true);
    assert_eq!(
        message,
        KafkaWsMessage::ClientCompleteMessage {
            project_id: "p1",
            cluster_size: 5,
            model_complete_count: 3,
            success: true,
        }
    );
    let done = ClientCompleteMessage::new(String::from("m1"), 4);
    assert_eq!(done, ClientCompleteMessage::new(String::from("m1"), 4));
}

#[test]
fn datasets_travel_as_standard_base64_of_their_compression() {
    let message = ClientMessage::from_train_and_predict("a,b\n1,2", "a,b\n3,");
    let expected_train = base64::encode(sybl::utils::compress::compress_data("a,b\n1,2").unwrap());
    match message {
        ClientMessage::Dataset { train, .. } => assert_eq!(train, expected_train),
        other => panic!("unexpected message {:?}", other),
    }
}
