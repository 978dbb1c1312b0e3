use rowforge::manifest::{default_cwd, default_startup_timeout_ms, ConfigField, Entry, Manifest, Output};
use rowforge::outcome::JsonValue;
use rowforge::runtime::{Mode, Runtime};

fn minimal() -> Manifest {
    Manifest {
        name: "enrich-email".into(),
        version: "0.1.0".into(),
        description: String::new(),
        language: String::new(),
        entry: Entry {
            cmd: vec!["./bin/enrich-email".into()],
            build: None,
            cwd: default_cwd(),
            env: Vec::new(),
            startup_timeout_ms: default_startup_timeout_ms(),
        },
        required_input: Vec::new(),
        config: Vec::new(),
        runtime: None,
        output: None,
    }
}

#[test]
fn entry_defaults_apply() {
    let m = minimal();
    assert_eq!(m.entry.startup_timeout_ms, 30_000);
    assert_eq!(m.entry.cwd, ".");
}

#[test]
fn manifest_output_block_defaults_when_empty() {
    let mut m = minimal();
    assert!(!m.include_meta());
    m.output = Some(Output::default());
    assert!(!m.include_meta());
    m.output = Some(Output { include_meta: true });
    assert!(m.include_meta());
}

#[test]
fn manifest_rejects_invalid_runtime() {
    let mut m = minimal();
    assert!(m.check_runtime().is_ok());
    m.runtime = Some(Runtime { mode: Mode::Batch, batch_size: None, max_batch_bytes: 16 << 20, batch_bytes_target: 4 << 20, idempotent: Some(true), stateful: false });
    assert_eq!(m.check_runtime(), Err("manifest.runtime: runtime.batch_size required when mode=batch".to_string()));
    m.runtime = Some(Runtime::default());
    assert!(m.check_runtime().is_ok());
}

#[test]
fn config_defaults_by_key() {
    let mut m = minimal();
    m.config = vec![
        ("retries".into(), ConfigField { default: JsonValue::Encoded("3".into()) }),
        ("region".into(), ConfigField { default: JsonValue::Str("eu".into()) }),
    ];
    let d = m.config_defaults();
    assert_eq!(d.len(), 2);
    assert!(d.iter().any(|f| f.key == "retries" && matches!(&f.value, JsonValue::Encoded(t) if t == "3")));
    assert!(d.iter().any(|f| f.key == "region" && matches!(&f.value, JsonValue::Str(t) if t == "eu")));
}
