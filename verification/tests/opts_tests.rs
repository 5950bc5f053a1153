use lq::opts::{Args, Input, Output};
use lq::Error;

fn base_args() -> Args {
    Args {
        input: Input::Yaml,
        output: Output::Jq,
        yaml_output: false,
        toml_output: false,
        in_place: false,
        split: None,
        jq_query: None,
        file: None,
        compact_output: false,
        raw_output: false,
        join_output: false,
        modules: None,
    }
}

#[test]
fn jq_args_all_flags() {
    let mut a = base_args();
    a.jq_query = Some(".x".to_string());
    a.compact_output = true;
    a.raw_output = true;
    a.join_output = true;
    a.modules = Some("mods".to_string());
    let args = a.jq_args();
    assert_eq!(args, vec![".x", "-c", "-r", "-j", "-L", "mods"]);
}

#[test]
fn jq_args_defaults_empty() {
    let a = base_args();
    assert_eq!(a.jq_args(), Vec::<String>::new());
}

#[test]
fn jq_args_query_only() {
    let mut a = base_args();
    a.jq_query = Some(".[2].metadata".to_string());
    assert_eq!(a.jq_args(), vec![".[2].metadata"]);
}

#[test]
fn jq_split_args_present() {
    let mut a = base_args();
    a.split = Some(".name".to_string());
    assert_eq!(a.jq_split_args(), Some(vec!["-r".to_string(), ".name".to_string()]));
}

#[test]
fn jq_split_args_absent() {
    let a = base_args();
    assert_eq!(a.jq_split_args(), None);
}

#[test]
fn in_place_without_file_rejected() {
    let mut a = base_args();
    a.in_place = true;
    assert!(matches!(a.validate(), Err(Error::Usage)));
}

#[test]
fn in_place_with_split_rejected() {
    let mut a = base_args();
    a.in_place = true;
    a.file = Some("f.yaml".to_string());
    a.split = Some(".name".to_string());
    assert!(matches!(a.validate(), Err(Error::Usage)));
}

#[test]
fn both_shorthands_rejected() {
    let mut a = base_args();
    a.yaml_output = true;
    a.toml_output = true;
    assert!(matches!(a.validate(), Err(Error::Usage)));
}

#[test]
fn split_with_raw_rejected() {
    let mut a = base_args();
    a.split = Some(".name".to_string());
    a.raw_output = true;
    assert!(matches!(a.validate(), Err(Error::Usage)));
}

#[test]
fn plain_options_accepted() {
    let mut a = base_args();
    a.in_place = true;
    a.file = Some("f.yaml".to_string());
    assert!(a.validate().is_ok());
}

#[test]
fn shorthands_resolve_output() {
    let mut a = base_args();
    assert_eq!(a.resolved_output(), Output::Jq);
    a.yaml_output = true;
    assert_eq!(a.resolved_output(), Output::Yaml);
    a.yaml_output = false;
    a.toml_output = true;
    assert_eq!(a.resolved_output(), Output::Toml);
}

#[test]
fn default_args_select_yaml_in_jq_out() {
    let a = Args::default();
    assert_eq!(a.input, Input::Yaml);
    assert_eq!(a.output, Output::Jq);
    assert!(!a.in_place && a.split.is_none() && a.file.is_none());
}
