use gitlab_mr_resource::flatten::compose_params_from_instance_vars;
use gitlab_mr_resource::flatten::VarValue;

fn entry(key: &str, value: VarValue) -> (String, VarValue) {
    (key.to_owned(), value)
}

#[test]
fn test_generate_url_with_no_parameter() {
    let vars: Vec<(String, VarValue)> = Vec::new();
    let url = compose_params_from_instance_vars(&vars, None);
    assert!(url.is_none());
}

#[test]
fn test_generate_url_with_a_string_parameter() {
    let vars = vec![entry("a", VarValue::Str("s".to_owned()))];
    let url = compose_params_from_instance_vars(&vars, None);
    assert!(url == Some("vars.a=%22s%22".to_owned()));
}

#[test]
fn test_generate_url_with_a_integer_parameter() {
    let vars = vec![entry("a", VarValue::Int(0))];
    let url = compose_params_from_instance_vars(&vars, None);
    assert!(url == Some("vars.a=0".to_owned()));
}

#[test]
fn test_generate_url_with_a_boolean_parameter() {
    let vars = vec![entry("a", VarValue::Bool(true))];
    let url = compose_params_from_instance_vars(&vars, None);
    assert!(url == Some("vars.a=true".to_owned()));
}

#[test]
fn test_generate_url_with_nested_parameter() {
    let vars = vec![entry(
        "a",
        VarValue::Object(vec![entry("a", VarValue::Int(0)), entry("b", VarValue::Bool(true))]),
    )];
    let url = compose_params_from_instance_vars(&vars, None);
    assert!(url == Some("vars.a.a=0&vars.a.b=true".to_owned()));
}

#[test]
fn test_generate_url_with_more_nested_parameter() {
    let vars = vec![entry(
        "a",
        VarValue::Object(vec![
            entry("a", VarValue::Int(0)),
            entry(
                "b",
                VarValue::Object(vec![
                    entry("c", VarValue::Int(0)),
                    entry("d", VarValue::Object(vec![entry("e", VarValue::Int(0))])),
                ]),
            ),
        ]),
    )];
    let url = compose_params_from_instance_vars(&vars, None);
    assert!(url == Some("vars.a.a=0&vars.a.b.c=0&vars.a.b.d.e=0".to_owned()));
}

#[test]
fn test_generate_url_with_complex_parameter() {
    let vars = vec![
        entry("a", VarValue::Int(0)),
        entry(
            "b",
            VarValue::Object(vec![entry("a", VarValue::Int(0)), entry("b", VarValue::Bool(true))]),
        ),
        entry("c", VarValue::Str("0-0".to_owned())),
    ];
    let url = compose_params_from_instance_vars(&vars, None);
    assert!(url == Some("vars.a=0&vars.b.a=0&vars.b.b=true&vars.c=%220-0%22".to_owned()));
}

#[test]
fn flatten_is_deterministic_for_equal_input() {
    let build = || {
        vec![
            entry("a", VarValue::Int(-7)),
            entry("b", VarValue::Object(vec![entry("x", VarValue::Str("q\"q".to_owned()))])),
        ]
    };
    let first = compose_params_from_instance_vars(&build(), None);
    let second = compose_params_from_instance_vars(&build(), None);
    assert_eq!(first, second);
    assert!(first == Some("vars.a=-7&vars.b.x=%22q\\%22q%22".to_owned()));
}

#[test]
fn flatten_respects_supplied_key_order() {
    let vars = vec![entry("z", VarValue::Int(1)), entry("a", VarValue::Int(2))];
    let url = compose_params_from_instance_vars(&vars, None);
    assert!(url == Some("vars.z=1&vars.a=2".to_owned()));
}

#[test]
fn flatten_with_parent_prefix() {
    let vars = vec![entry("a", VarValue::Int(0))];
    let parent = "p".to_owned();
    let url = compose_params_from_instance_vars(&vars, Some(&parent));
    assert!(url == Some("vars.p.a=0".to_owned()));
}

#[test]
fn flatten_empty_nested_mapping_contributes_nothing() {
    let vars = vec![
        entry("a", VarValue::Int(1)),
        entry("b", VarValue::Object(Vec::new())),
        entry("c", VarValue::Int(2)),
    ];
    let url = compose_params_from_instance_vars(&vars, None);
    assert!(url == Some("vars.a=1&vars.c=2".to_owned()));
}
