//! Finds a Python class in a project and summarises it (bases, docstring,
//! methods with their typed parameters and return types) with lexical
//! heuristics instead of a full parser; or lists every class declaration
//! whose line mentions a keyword.
pub mod class;
pub mod docstrings;
pub mod header;
pub mod laws;
pub mod markers;
pub mod methods;
pub mod objects;
pub mod parser;
pub mod search;
pub mod text;

pub use class::{class_block, declares_class, extract_class_inheritance, extract_python_class};
pub use docstrings::{extract_docstring, format_line, get_docstring};
pub use header::{extract_method_name, extract_method_output, extract_parameters, get_header_arguments};
pub use markers::{mark_commas_for_split, split_outside_brackets};
pub use methods::extract_methods;
pub use objects::{Method, Parameter, PythonClass, CLI};
pub use parser::{parse_class, parse_method, parse_method_parameter, split_lines};
pub use search::{find_class, grep_class, grep_project, is_source_file, ProjectEntry};
