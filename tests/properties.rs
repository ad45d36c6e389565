use jones::{
    class_block, extract_class_inheritance, extract_method_name, extract_method_output,
    extract_methods, extract_parameters, find_class, format_line, get_docstring,
    get_header_arguments, grep_project, is_source_file, mark_commas_for_split, parse_class,
    split_lines, split_outside_brackets, Method, Parameter, ProjectEntry, PythonClass,
};

fn lines(text: &[&str]) -> Vec<String> {
    text.iter().map(|l| l.to_string()).collect()
}

fn param(name: &str, ty: &str) -> Parameter {
    Parameter { name: name.to_string(), static_type: ty.to_string() }
}

#[test]
fn two_parameter_header_is_read_exactly() {
    let m = Method::new(&"def compute(alpha: int, beta: str) -> Result:".to_string());
    assert_eq!(m.name, "compute");
    assert_eq!(m.parameters, vec![param("alpha", "int"), param("beta", "str")]);
    assert_eq!(m.output, "Result");
}

#[test]
fn receiver_parameters_are_typed_self() {
    let m = Method::new(&"    def build(cls, self: Other, value) -> None:".to_string());
    assert_eq!(
        m.parameters,
        vec![param("cls", "Self"), param("self", "Self"), param("value", "None")]
    );
}

#[test]
fn missing_return_type_defaults_to_none() {
    let m = Method::new(&"def f(x: int):".to_string());
    assert_eq!(m.output, "None");
    assert!(extract_method_output(&"def f(x: int):".to_string()).is_err());
}

#[test]
fn bracketed_generic_stays_one_parameter() {
    let ps = extract_parameters(&"def f(self, x: Map[str, int], y: int) -> None:".to_string());
    assert_eq!(ps, vec![param("self", "Self"), param("x", "Map[str,int]"), param("y", "int")]);
}

#[test]
fn splitter_keeps_commas_inside_brackets() {
    let text: Vec<char> = "a: Map[str, int],b: int".chars().collect();
    let parts = split_outside_brackets(&text, ',');
    let parts: Vec<String> = parts.iter().map(|p| p.iter().collect()).collect();
    assert_eq!(parts, vec!["a: Map[str, int]".to_string(), "b: int".to_string()]);
}

#[test]
fn marking_tightens_every_inner_comma() {
    assert_eq!(mark_commas_for_split("x: Tuple[int, str,  float], y: int"), "x: Tuple[int,str,float], y: int");
}

#[test]
fn multi_line_header_matches_single_line() {
    let code = lines(&["class A:", "    def f(self,", "          x: int,", "          y: str) -> bool:", "        pass"]);
    let single = Method::new(&"def f(self, x: int, y: str) -> bool:".to_string());
    assert_eq!(extract_methods(code), vec![single]);
}

#[test]
fn unterminated_header_gives_no_method() {
    let code = lines(&["class A:", "    def f(self,", "          x: int"]);
    assert_eq!(extract_methods(code), Vec::<Method>::new());
}

#[test]
fn header_not_starting_with_def_gives_no_method() {
    let code = lines(&["class A:", "    async def f(self):", "        pass"]);
    assert_eq!(extract_methods(code), Vec::<Method>::new());
    assert!(extract_method_name(&"async def f(self):".to_string()).is_err());
}

#[test]
fn method_name_needs_a_name_after_def() {
    assert!(extract_method_name(&"def".to_string()).is_err());
    assert_eq!(extract_method_name(&"  def  spaced (x):".to_string()).unwrap(), "spaced");
}

#[test]
fn class_bases_in_declared_order() {
    let class = PythonClass::new(lines(&["class Child(Base1, Base2):", "    pass"]), "Child".to_string());
    assert_eq!(class.inheritance, vec!["Base1".to_string(), "Base2".to_string()]);
}

#[test]
fn class_without_bases_has_none() {
    let class = PythonClass::new(lines(&["class Child:", "    pass"]), "Child".to_string());
    assert_eq!(class.inheritance, Vec::<String>::new());
    assert_eq!(extract_class_inheritance(&"class Child():".to_string()), Some(vec![]));
}

#[test]
fn single_line_docstring_is_recovered() {
    let class = PythonClass::new(
        lines(&["class God:", "    \"\"\"text\"\"\"", "    def f(self):"]),
        "God".to_string(),
    );
    assert_eq!(class.docstring, Some("text".to_string()));
}

#[test]
fn no_docstring_is_absent() {
    let class = PythonClass::new(lines(&["class God:", "    def f(self):"]), "God".to_string());
    assert_eq!(class.docstring, None);
    assert_eq!(get_docstring(&lines(&["class God:"])), None);
}

#[test]
fn format_line_drops_every_delimiter() {
    assert_eq!(format_line("   \"\"\"Both\"\"\"  "), "Both");
}

#[test]
fn block_stops_at_two_empty_lines() {
    let code = vec!["x = 1", "class A(Base):", "    pass", "", "", "class B:"];
    assert_eq!(
        class_block(&code, "A"),
        vec!["class A(Base):".to_string(), "    pass".to_string(), "".to_string(), "".to_string()]
    );
    assert_eq!(class_block(&code, "C"), Vec::<String>::new());
    assert_eq!(class_block(&vec!["class AB:"], "A"), Vec::<String>::new());
}

#[test]
fn header_arguments_edge_cases() {
    assert_eq!(get_header_arguments(&"def f".to_string()), None);
    assert_eq!(get_header_arguments(&"def f(a: g(1), b):".to_string()), Some("a: g(1), b".to_string()));
    assert_eq!(get_header_arguments(&"def f(a: int:".to_string()), Some("a: int".to_string()));
}

#[test]
fn doubly_annotated_parameter_is_skipped() {
    let ps = extract_parameters(&"def f(x: int: str, y) -> None:".to_string());
    assert_eq!(ps, vec![param("y", "None")]);
}

#[test]
fn source_files_are_py_files() {
    assert!(is_source_file("a.py"));
    assert!(is_source_file("dir/b.c.py"));
    assert!(!is_source_file(".py"));
    assert!(!is_source_file("dir/.py"));
    assert!(!is_source_file("a.rs"));
    assert!(!is_source_file("a.pyc"));
}

#[test]
fn split_lines_keeps_empty_pieces() {
    assert_eq!(split_lines("a\n\nb\n"), lines(&["a", "", "b", ""]));
}

#[test]
fn reported_none_docstring_is_absent() {
    let c = parse_class("A".to_string(), vec![], "None".to_string(), vec![]);
    assert_eq!(c.docstring, None);
}

fn file(path: &str, text: &str) -> ProjectEntry {
    ProjectEntry::File { path: path.to_string(), lines: split_lines(text) }
}

fn sample_tree() -> ProjectEntry {
    ProjectEntry::Directory {
        path: "root".to_string(),
        entries: vec![
            file("root/notes.txt", "class Human:\n    def fake(self):\n"),
            ProjectEntry::Directory {
                path: "root/pkg".to_string(),
                entries: vec![
                    file("root/pkg/a.py", "class God:\n    pass\n"),
                    file("root/pkg/b.py", "class Human(Being):\n    \"\"\"A person\"\"\"\n    def hi(self) -> None:\n        pass\n"),
                ],
            },
            file("root/c.py", "class GodMode:\n    pass\n"),
        ],
    }
}

#[test]
fn exact_search_finds_the_one_declaring_file() {
    let found = find_class(&sample_tree(), "Human").unwrap();
    assert_eq!(found.name, "Human");
    assert_eq!(found.inheritance, vec!["Being".to_string()]);
    assert_eq!(found.docstring, Some("A person".to_string()));
    assert_eq!(found.methods, vec![Method::new(&"def hi(self) -> None:".to_string())]);
}

#[test]
fn exact_search_without_declaration_is_absent() {
    assert_eq!(find_class(&sample_tree(), "Zeus"), None);
    let only_text = ProjectEntry::Directory {
        path: "r".to_string(),
        entries: vec![file("r/x.txt", "class Zeus:\n")],
    };
    assert_eq!(find_class(&only_text, "Zeus"), None);
}

#[test]
fn exact_search_twice_gives_the_same_summary() {
    let tree = sample_tree();
    assert_eq!(find_class(&tree, "Human"), find_class(&tree, "Human"));
}

#[test]
fn fuzzy_search_lists_matches_in_traversal_order() {
    let found = grep_project(&sample_tree(), &"God".to_string()).unwrap();
    assert_eq!(
        found,
        vec![
            ("class God:".to_string(), "root/pkg/a.py".to_string()),
            ("class GodMode:".to_string(), "root/c.py".to_string()),
        ]
    );
    assert_eq!(grep_project(&sample_tree(), &"Zeus".to_string()), None);
}

#[test]
fn wrapped_return_type_is_kept() {
    let code = lines(&["class A:", "    def f(self)", "        -> int:", "        pass"]);
    assert_eq!(extract_methods(code), vec![Method::new(&"def f(self) -> int:".to_string())]);
    assert_eq!(Method::new(&"def f(self) -> int:".to_string()).output, "int");
}

#[test]
fn line_ending_in_colon_completes_a_header() {
    let code = lines(&["class A:", "    def f(self, a:", "          int) -> None:"]);
    let methods = extract_methods(code);
    assert_eq!(methods.len(), 1);
    assert_eq!(methods[0].parameters, vec![param("self", "Self"), param("a", "None")]);
}

#[test]
fn break_after_comma_keeps_the_type() {
    let code = lines(&["class A:", "    def f(self, a: int,", "          b: Dict[str,", "          int]) -> None:"]);
    let methods = extract_methods(code);
    assert_eq!(
        methods[0].parameters,
        vec![param("self", "Self"), param("a", "int"), param("b", "Dict[str,int]")]
    );
}

#[test]
fn name_stops_at_non_ascii_punctuation() {
    assert_eq!(extract_method_name(&"def f\u{2014}g(x):".to_string()).unwrap(), "f");
    assert_eq!(extract_method_name(&"def h\u{e9}llo(x):".to_string()).unwrap(), "h\u{e9}llo");
}

#[test]
fn return_type_keeps_inner_colons() {
    let out = extract_method_output(&"def f(x) -> Literal[\"a:b\"]:".to_string()).unwrap();
    assert_eq!(out, "Literal[\"a:b\"]");
}

#[test]
fn docstring_with_inner_quotes_is_recovered() {
    let class = PythonClass::new(
        lines(&["class God:", "    \"\"\"say \"hi\"\"\"\"", "    def f(self):"]),
        "God".to_string(),
    );
    assert_eq!(class.docstring, Some("say \"hi\"".to_string()));
}

#[test]
fn adding_a_non_source_file_changes_nothing() {
    let with_extra = ProjectEntry::Directory {
        path: "root".to_string(),
        entries: vec![file("root/x.rs", "class Human:\n"), sample_tree()],
    };
    assert_eq!(find_class(&with_extra, "Human"), find_class(&sample_tree(), "Human"));
    assert_eq!(
        grep_project(&with_extra, &"Hu".to_string()),
        grep_project(&sample_tree(), &"Hu".to_string())
    );
}

#[test]
fn two_parameter_header_with_bracketed_types() {
    let m = Method::new(&"    def pick(items: List[int], index: Optional[int]) -> Set[str]:".to_string());
    assert_eq!(m.name, "pick");
    assert_eq!(m.parameters, vec![param("items", "List[int]"), param("index", "Optional[int]")]);
    assert_eq!(m.output, "Set[str]");
}
