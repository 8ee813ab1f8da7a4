use heave::Output;

#[test]
fn filter_only_new_outputs() {
    let existing_files = vec![
        std::path::PathBuf::from("output/file1.hurl"),
        std::path::PathBuf::from("output/file3.hurl"),
    ];
    let existing_files: Vec<String> = existing_files
        .iter()
        .map(|p| p.to_string_lossy().into_owned())
        .collect();
    let out1 = Output {
        name: "file1.hurl".to_string(),
        method: "GET".to_string(),
        expected_status_code: 0,
        path: "".to_string(),
        header_parameters: vec![],
        query_parameters: vec![],
        asserts: vec![],
        request_body_parameter: "".to_string(),
    };
    let out2 = Output {
        name: "file2.hurl".to_string(),
        ..out1.clone()
    };
    let out3 = Output {
        name: "file3.hurl".to_string(),
        ..out1.clone()
    };
    let outputs = vec![out1, out2, out3];
    let filtered = heave::filter_only_new_outputs(&existing_files, outputs);
    assert_eq!(filtered.len(), 1);
    assert_eq!(filtered.get(0).unwrap().name, "file2.hurl");
}
