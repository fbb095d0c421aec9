use pyrwa::codegen::{derive_iterable, enum_to_py_object};
use pyrwa::registry::{add_functions, AddFunctions, Token};

fn tok(text: &str) -> Token {
    Token { text: text.to_string(), group: None }
}

fn group(items: &[&str]) -> Token {
    let inner: Vec<String> = items.iter().map(|s| s.to_string()).collect();
    Token { text: format!("[{}]", items.join(" ")), group: Some(inner) }
}

#[test]
fn add_functions_registers_each_function_of_each_module() {
    let tokens = vec![
        tok("m"),
        tok(","),
        group(&["init", ",", "configure"]),
        tok("from"),
        tok("utils"),
        tok(","),
        group(&["select_1"]),
        tok("from"),
        tok("select_1"),
        tok(","),
    ];
    let out = add_functions(&tokens);
    let expected = [
        "m.add_function(utils::__pyo3_get_function_init(PyFunctionArguments::PyModule(m))?)?;",
        "m.add_function(utils::__pyo3_get_function_configure(PyFunctionArguments::PyModule(m))?)?;",
        "m.add_function(select_1::__pyo3_get_function_select_1(PyFunctionArguments::PyModule(m))?)?;",
    ]
    .join("\n");
    assert_eq!(out, expected);
}

#[test]
fn add_functions_with_only_the_module_name_is_empty() {
    assert_eq!(add_functions(&vec![tok("m")]), "");
}

#[test]
fn add_functions_parser_steps_through_the_cycle() {
    let mut st = AddFunctions::new();
    assert_eq!(st.idx, 0);
    st.next(&tok("m"));
    assert_eq!(st.idx, 1);
    assert_eq!(st.py_module_name.as_deref(), Some("m"));
    st.next(&tok(","));
    assert_eq!(st.idx, 2);
    st.next(&group(&["a", ",", "b", ","]));
    assert_eq!(st.idx, 3);
    assert_eq!(st.modules.len(), 1);
    assert_eq!(st.modules[0].functions, vec!["a".to_string(), "b".to_string()]);
    assert!(st.modules[0].module_name.is_none());
    st.next(&tok("from"));
    assert_eq!(st.idx, 4);
    st.next(&tok("x"));
    assert_eq!(st.idx, 1);
    assert_eq!(st.modules[0].module_name.as_deref(), Some("x"));
    let out = st.stream();
    assert_eq!(
        out,
        "m.add_function(x::__pyo3_get_function_a(PyFunctionArguments::PyModule(m))?)?;\nm.add_function(x::__pyo3_get_function_b(PyFunctionArguments::PyModule(m))?)?;"
    );
}

#[test]
fn enum_to_py_object_arms() {
    let variants = vec!["Departed".to_string(), "OnTime".to_string()];
    let arms = enum_to_py_object("StatusFlight", &variants);
    assert_eq!(
        arms.to_name,
        "StatusFlight::Departed => \"Departed\",\nStatusFlight::OnTime => \"OnTime\","
    );
    assert_eq!(
        arms.from_name,
        "\"Departed\" => StatusFlight::Departed,\n\"OnTime\" => StatusFlight::OnTime,"
    );
}

#[test]
fn enum_to_py_object_without_variants() {
    let arms = enum_to_py_object("E", &vec![]);
    assert_eq!(arms.to_name, "");
    assert_eq!(arms.from_name, "");
}

#[test]
fn derive_iterable_entries() {
    let fields = vec!["flight_id".to_string(), "status".to_string()];
    assert_eq!(
        derive_iterable(&fields),
        "(\"flight_id\", slf.flight_id.clone().into_py(py)),\n(\"status\", slf.status.clone().into_py(py)),"
    );
}
