use jones::grep_class;

#[test]
fn utils_test_grep_class_some() {
    let test_codebase = vec![
        "class God:",
        "",
        "    def __init__(self, name):",
        "        self.name = name",
        "",
        "class GodMode:",
        "",
        "    def __init__(self, name):",
        "        self.name = name",
        "",
    ];

    let keyword = String::from("God");
    let filename = "./testing";
    let expected = vec![
        (String::from("class God:"), filename.to_string()),
        (String::from("class GodMode:"), filename.to_string()),
    ];

    assert_eq!(grep_class(test_codebase, &keyword, filename).unwrap(), expected);
}

#[test]
fn utils_test_grep_class_none() {
    let test_codebase = vec![
        "class God:",
        "",
        "    def __init__(self, name):",
        "        self.name = name",
        "",
        "class GodMode:",
        "",
        "    def __init__(self, name):",
        "        self.name = name",
        "",
    ];

    let keyword = String::from("Zeus");
    let filename = "./testing";

    assert_eq!(grep_class(test_codebase, &keyword, filename), None);
}
