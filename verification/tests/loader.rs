use rwkv_web::loader::{JsTensor, ReaderError, TensorReader};
use wasm_bindgen::{JsCast, JsValue};
use web_sys::Blob;

fn blob() -> Blob {
    JsValue::NULL.unchecked_into::<Blob>()
}

fn tensor(name: &str, shape: &[usize]) -> JsTensor {
    JsTensor::new(name.to_string(), shape, blob())
}

#[test]
fn tensor_keeps_name_and_shape() {
    let t = tensor("emb.weight", &[65536, 768]);
    assert_eq!(t.name(), "emb.weight");
    assert_eq!(t.shape(), &[65536, 768]);
}

#[test]
fn reader_lists_names_in_order() {
    let reader = TensorReader::new(vec![tensor("a", &[1]), tensor("b", &[2]), tensor("a", &[3])]);
    assert_eq!(reader.names(), vec!["a", "b", "a"]);
}

#[test]
fn reader_contains() {
    let reader = TensorReader::new(vec![tensor("head.weight", &[1]), tensor("ln_out.bias", &[2])]);
    assert!(reader.contains("head.weight"));
    assert!(reader.contains("ln_out.bias"));
    assert!(!reader.contains("head"));
    assert!(!TensorReader::new(vec![]).contains(""));
}

#[test]
fn reader_finds_last_tensor_of_a_name() {
    let reader = TensorReader::new(vec![tensor("a", &[1]), tensor("b", &[2]), tensor("a", &[3])]);
    assert_eq!(reader.tensor("a").unwrap().shape(), &[3]);
    assert_eq!(reader.tensor("b").unwrap().shape(), &[2]);
}

#[test]
fn reader_reports_missing_tensor() {
    let reader = TensorReader::new(vec![tensor("a", &[1])]);
    match reader.tensor("blocks.0.att.key.weight") {
        Err(ReaderError::TensorNotFound(name)) => assert_eq!(name, "blocks.0.att.key.weight"),
        Ok(_) => panic!("found a tensor that is not there"),
    }
}
