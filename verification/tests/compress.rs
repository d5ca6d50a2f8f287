use sybl::utils::compress::{
    compress_bytes, compress_data, compress_vec, decode_and_decompress, decompress_data,
    DecodeError,
};
use sybl::utils::infer_train_and_predict;

#[test]
fn compression_full_stack() {
    let data = "Hello World!";
    let comp_data: Vec<u8> = compress_data(data).unwrap();
    let decomp_vec = decompress_data(&comp_data).unwrap();
    let decomp_data = std::str::from_utf8(&decomp_vec).unwrap();
    assert_eq!(data, decomp_data);
}

#[test]
fn vectors_can_be_compressed() {
    let dataset = "age,location\n20,Coventry\n20,\n21,Leamington";
    let (data, predict) = infer_train_and_predict(dataset);

    let comp = compress_vec(&data).unwrap();
    let decomp = decompress_data(&comp).unwrap();

    assert_eq!(
        std::str::from_utf8(&decomp).unwrap(),
        "age,location\n20,Coventry\n21,Leamington"
    );

    let comp = compress_vec(&predict).unwrap();
    let decomp = decompress_data(&comp).unwrap();

    assert_eq!(std::str::from_utf8(&decomp).unwrap(), "age,location\n20,");
}

#[test]
fn compressed_data_starts_with_the_bzip2_magic() {
    let comp = compress_bytes(b"some bytes to squeeze").unwrap();
    assert_eq!(&comp[..3], b"BZh");
    assert_ne!(comp, b"some bytes to squeeze".to_vec());
}

#[test]
fn data_that_is_not_bzip2_is_refused() {
    assert!(decompress_data(b"definitely not compressed").is_err());
}

#[test]
fn encoded_datasets_are_decoded_and_decompressed() {
    let comp = compress_data("x,y\n1,2").unwrap();
    let encoded = base64::encode(&comp);
    assert_eq!(decode_and_decompress(&encoded), Ok(String::from("x,y\n1,2")));
}

#[test]
fn text_that_is_not_base64_is_a_base64_error() {
    assert_eq!(decode_and_decompress("***"), Err(DecodeError::Base64));
}

#[test]
fn base64_that_is_not_bzip2_is_a_bzip2_error() {
    let encoded = base64::encode(b"plain bytes");
    assert_eq!(decode_and_decompress(&encoded), Err(DecodeError::Bzip2));
}

#[test]
fn bytes_that_are_not_utf8_are_a_utf8_error() {
    let comp = compress_bytes(&[0xff, 0xfe, 0xfd]).unwrap();
    let encoded = base64::encode(&comp);
    assert_eq!(decode_and_decompress(&encoded), Err(DecodeError::Utf8));
}
