use jones::{declares_class, find_class, split_lines, ProjectEntry, PythonClass};

const PYTHON_CODE: &str = "
    class Human:

        def __init__(self, name: int):
            self.name == name

        def hi(self) -> None:
            print(f'My name is {self.name}')


    class Kid:

        def __init__(self, age):
            self.age == age

        def hi(self):
            print(f'My name is {self.age}')
    ";

const GOD_CODE: &str = "
    class God:
        \"\"\"DocString\"\"\"
        def __init__(self, name: int):
            self.name == name

        def hi(self) -> None:
            print(f'My name is {self.name}')

    ";

const RANDOM_CODE: &str = "
    class TestClass:

        def __init__(self, age: gig):
            self.age == age

        def hi(self):
            print(f'My name is {self.age}')
    ";

#[test]
fn test_check_file_contains_class() {
    assert_eq!(true, PYTHON_CODE.split("\n").any(|line| declares_class(line, "Human")));
}

#[test]
fn test_project_traversal() {
    let tree = ProjectEntry::Directory {
        path: "./testing".to_string(),
        entries: vec![ProjectEntry::File {
            path: "./testing/test.py".to_string(),
            lines: split_lines(PYTHON_CODE),
        }],
    };

    let test_codebase = vec![
        "class Human:".to_string(),
        "".to_string(),
        "    def __init__(self, name: int):".to_string(),
        "        self.name = name".to_string(),
        "".to_string(),
        "    def hi(self):".to_string(),
        "        print(f'My name is {self.name}')".to_string(),
        "".to_string(),
    ];

    let expected_class = PythonClass::new(test_codebase, String::from("Human"));
    assert_eq!(expected_class, find_class(&tree, "Human").unwrap());
}

#[test]
fn test_process_only_py_files() {
    let tree = ProjectEntry::Directory {
        path: "./testing_none".to_string(),
        entries: vec![
            ProjectEntry::File {
                path: "./testing_none/test.py".to_string(),
                lines: split_lines(GOD_CODE),
            },
            ProjectEntry::File {
                path: "./testing_none/test.rs".to_string(),
                lines: split_lines(RANDOM_CODE),
            },
        ],
    };

    assert_eq!(find_class(&tree, "TestCode"), None);
    assert_eq!(find_class(&tree, "TestClass"), None);
    assert!(find_class(&tree, "God").is_some());
}
