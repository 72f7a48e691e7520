use lifecycle::exec_d::{decode_exec_d_output, exec_d_decode_error};

#[test]
fn exec_d_output_decoding() {
    let vars = decode_exec_d_output("/bin/x", "MY_NEW_VAR = \"injected_value\"\n").unwrap();
    assert_eq!(vars, vec![("MY_NEW_VAR".to_string(), "injected_value".to_string())]);
    let vars = decode_exec_d_output("/bin/x", "B = \"2\"\nA = 'one'\n").unwrap();
    assert_eq!(vars.len(), 2);
    assert!(vars.contains(&("A".to_string(), "one".to_string())));
    assert!(vars.contains(&("B".to_string(), "2".to_string())));
}

#[test]
fn exec_d_empty_output() {
    assert_eq!(decode_exec_d_output("/bin/x", ""), Ok(vec![]));
    assert_eq!(decode_exec_d_output("/bin/x", " \n\t"), Ok(vec![]));
}

#[test]
fn exec_d_bad_output() {
    let err = decode_exec_d_output("/bin/x", "A = 1").unwrap_err();
    assert!(err.starts_with("Failed to decode TOML output from exec.d binary '/bin/x': "), "{}", err);
    assert!(err.ends_with("\nOutput: 'A = 1'"), "{}", err);
    assert!(decode_exec_d_output("/bin/x", "not toml").is_err());
    assert_eq!(exec_d_decode_error("p", "why", "out"), "Failed to decode TOML output from exec.d binary 'p': why\nOutput: 'out'");
}
