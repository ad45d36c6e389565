use jones::{parse_class, parse_method, parse_method_parameter, Method, Parameter, PythonClass};

#[test]
fn test_parse_method_params_ok() {
    let raw_parameters = vec!["self||str".to_string(), "cls||int".to_string()];
    let parsed_parameters = parse_method_parameter(raw_parameters);
    let expected_parameters = vec![
        Parameter::new("self".to_string(), "str".to_string()),
        Parameter::new("cls".to_string(), "int".to_string()),
    ];
    assert_eq!(parsed_parameters, expected_parameters);
}

#[test]
fn test_parse_method_params_invalid_separator() {
    let raw_parameters = vec!["self||str".to_string(), "cls|int".to_string()];
    let parsed_parameters = parse_method_parameter(raw_parameters);
    let expected_parameters = vec![Parameter::new("self".to_string(), "str".to_string())];
    assert_eq!(parsed_parameters, expected_parameters);
}

#[test]
fn test_parse_method_params_no_type() {
    let raw_parameters = vec!["self||str".to_string(), "xvalue||".to_string()];
    let parsed_parameters = parse_method_parameter(raw_parameters);
    let expected_parameters = vec![Parameter::new("self".to_string(), "str".to_string())];
    assert_eq!(parsed_parameters, expected_parameters);
}

#[test]
fn test_parse_method_params_no_params() {
    let raw_parameters = vec!["".to_string()];
    let parsed_parameters = parse_method_parameter(raw_parameters);
    let expected_parameters: Vec<Parameter> = vec![];
    assert_eq!(parsed_parameters, expected_parameters);
}

#[test]
fn test_parse_method_ok() {
    let raw_methods = vec![
        (
            "_this_method".to_string(),
            "self||None,xvalue||int".to_string(),
            "None".to_string(),
        ),
        ("another_method".to_string(), "self||None".to_string(), "str".to_string()),
    ];
    let parsed_methods = parse_method(raw_methods);
    let expected_methods = vec![
        Method {
            name: "_this_method".to_string(),
            parameters: vec![
                Parameter::new("self".to_string(), "Self".to_string()),
                Parameter::new("xvalue".to_string(), "int".to_string()),
            ],
            output: "None".to_string(),
        },
        Method {
            name: "another_method".to_string(),
            parameters: vec![Parameter::new("self".to_string(), "Self".to_string())],
            output: "str".to_string(),
        },
    ];
    assert_eq!(parsed_methods, expected_methods);
}

#[test]
fn test_parse_method_with_wrong_parameters() {
    let raw_methods = vec![
        (
            "_this_method".to_string(),
            "self||None,xvalue||ThisIsAClass".to_string(),
            "None".to_string(),
        ),
        ("another_method".to_string(), "self||None".to_string(), "str".to_string()),
        ("wrong_method".to_string(), "self||None,xvalue".to_string(), "str".to_string()),
    ];
    let parsed_methods = parse_method(raw_methods);
    let expected_methods = vec![
        Method {
            name: "_this_method".to_string(),
            parameters: vec![
                Parameter::new("self".to_string(), "Self".to_string()),
                Parameter::new("xvalue".to_string(), "ThisIsAClass".to_string()),
            ],
            output: "None".to_string(),
        },
        Method {
            name: "another_method".to_string(),
            parameters: vec![Parameter::new("self".to_string(), "Self".to_string())],
            output: "str".to_string(),
        },
        Method {
            name: "wrong_method".to_string(),
            parameters: vec![Parameter::new("self".to_string(), "Self".to_string())],
            output: "str".to_string(),
        },
    ];
    assert_eq!(parsed_methods, expected_methods);
}

#[test]
fn test_parse_python_class() {
    let raw_methods = vec![
        (
            "_this_method".to_string(),
            "self||None,xvalue||int".to_string(),
            "None".to_string(),
        ),
        ("another_method".to_string(), "self||None".to_string(), "str".to_string()),
    ];
    let parsed_class = parse_class(
        "MyClass".to_string(),
        raw_methods,
        "This is a docstring".to_string(),
        vec!["MyParentClass".to_string()],
    );
    let expected_class = PythonClass {
        name: "MyClass".to_string(),
        methods: vec![
            Method {
                name: "_this_method".to_string(),
                parameters: vec![
                    Parameter::new("self".to_string(), "Self".to_string()),
                    Parameter::new("xvalue".to_string(), "int".to_string()),
                ],
                output: "None".to_string(),
            },
            Method {
                name: "another_method".to_string(),
                parameters: vec![Parameter::new("self".to_string(), "Self".to_string())],
                output: "str".to_string(),
            },
        ],
        docstring: Some("This is a docstring".to_string()),
        inheritance: vec!["MyParentClass".to_string()],
    };
    assert_eq!(parsed_class, expected_class);
}
