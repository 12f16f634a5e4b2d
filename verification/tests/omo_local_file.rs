use cc_switch_omo::omo::{omo_local_file_data, STANDARD};

const OMO_CONFIG: &str = r#"{
  "agents": {
    "defaults": {
      "model": "gpt-5"
    }
  },
  "categories": {
    "coding": ["default"]
  }
}"#;

#[test]
fn omo_baseline_local_file_read_is_stable() {
    let path = format!("/home/tester/.config/opencode/{}", STANDARD.config_file_name());
    let data = omo_local_file_data(path.clone(), OMO_CONFIG).expect("read omo local file");
    assert_eq!(data.file_path, path);
    assert!(data.agents.is_some());
    assert!(data.categories.is_some());
    assert!(data.categories.as_ref().unwrap().get("coding").is_some());
    assert!(data.categories.as_ref().unwrap().get("defaults").is_none());
    assert_eq!(
        data.agents.unwrap()["defaults"]["model"],
        serde_json::Value::String("gpt-5".to_string())
    );
}

#[test]
fn omo_local_file_without_sections_has_none() {
    let data = omo_local_file_data("p".to_string(), r#"{"other": 1}"#).unwrap();
    assert!(data.agents.is_none());
    assert!(data.categories.is_none());
    let not_object = omo_local_file_data("p".to_string(), "[1, 2]").unwrap();
    assert!(not_object.agents.is_none());
}

#[test]
fn omo_local_file_rejects_malformed_text() {
    assert!(omo_local_file_data("p".to_string(), "{ \"agents\": ").is_err());
    assert!(omo_local_file_data("p".to_string(), "").is_err());
}
