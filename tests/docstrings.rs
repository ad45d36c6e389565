use jones::{extract_docstring, format_line, get_docstring};

#[test]
fn test_format_line() {
    let test_string = "\"\"\"Test docstring";
    let expected = "Test docstring";

    assert_eq!(format_line(test_string), expected);
}

#[test]
fn test_get_docstring() {
    let test_code_block: Vec<String> = vec![
        "class God:".to_string(),
        "    \"\"\"DocString\"\"\"".to_string(),
        "".to_string(),
        "    def __init__(self, name: int):".to_string(),
        "        self.name = name".to_string(),
        "".to_string(),
    ];
    let expected = vec!["DocString".to_string()];

    assert_eq!(get_docstring(&test_code_block), Some(expected));
}

#[test]
fn test_get_docstring_none() {
    let test_code_block: Vec<String> =
        vec!["class God:".to_string(), "    pass".to_string(), "".to_string()];
    assert_eq!(get_docstring(&test_code_block), None);
}

#[test]
fn test_extract_docstring_some() {
    let test_code_block: Vec<String> = vec![
        "class God:".to_string(),
        "    \"\"\"".to_string(),
        "     DocString".to_string(),
        "     Some more test".to_string(),
        "    \"\"\"".to_string(),
        "".to_string(),
        "    def __init__(self, name: int):".to_string(),
        "        self.name = name".to_string(),
        "".to_string(),
    ];
    let expected = vec![
        "".to_string(),
        "DocString".to_string(),
        "Some more test".to_string(),
        "".to_string(),
    ];

    assert_eq!(extract_docstring(&test_code_block), Some(expected.join("\n")));
}
