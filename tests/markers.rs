use jones::{get_header_arguments, mark_commas_for_split};

#[test]
fn test_mark_commas_for_split() {
    let args = "param1: str, param2: Dict[str, int]";
    let expected = String::from("param1: str, param2: Dict[str,int]");

    assert_eq!(mark_commas_for_split(args), expected);
}

#[test]
fn test_get_header_arguments() {
    let header = String::from("def test_method(param1: str, param2: Dict[str, int]) -> str");
    let expected = String::from("param1: str, param2: Dict[str,int]");

    assert_eq!(get_header_arguments(&header), Some(expected));
}

#[test]
fn test_get_header_no_arguments() {
    let header = String::from("def test_method() -> str");
    assert_eq!(get_header_arguments(&header), None);
}
