use sonde::ast::{Probe, Provider};
use sonde::builder::{gather, Builder};
use sonde::parser::{Expected, ParseError};

#[test]
fn new_builder_is_empty() {
    let builder = Builder::new();
    assert!(builder.d_files().is_empty());
    assert!(!builder.keeps_h_file());
    assert!(!builder.keeps_c_file());
    let other = Builder::default();
    assert!(other.d_files().is_empty());
    assert!(!other.keeps_h_file());
    assert!(!other.keeps_c_file());
}

#[test]
fn files_are_kept_in_order() {
    let mut builder = Builder::new();
    builder
        .file("./providerA.d")
        .files(&vec!["b.d".to_string(), "c.d".to_string()])
        .file("./providerB.d");
    assert_eq!(
        builder.d_files(),
        &vec![
            "./providerA.d".to_string(),
            "b.d".to_string(),
            "c.d".to_string(),
            "./providerB.d".to_string()
        ]
    );
}

#[test]
fn keep_switches() {
    let mut builder = Builder::new();
    builder.keep_h_file(true);
    assert!(builder.keeps_h_file());
    assert!(!builder.keeps_c_file());
    builder.keep_c_file(true).keep_h_file(false);
    assert!(!builder.keeps_h_file());
    assert!(builder.keeps_c_file());
    builder.file("a.d").keep_c_file(false);
    assert!(!builder.keeps_c_file());
    assert_eq!(builder.d_files().len(), 1);
}

#[test]
fn gathered_sources() {
    let contents = vec![
        "provider a { probe x(int); };\n".to_string(),
        "nothing".to_string(),
        "provider b { };provider c { };".to_string(),
    ];
    let sources = gather(&contents).unwrap();
    assert_eq!(
        sources.text,
        "provider a { probe x(int); };\nnothingprovider b { };provider c { };"
    );
    let names: Vec<&str> = sources.script.providers.iter().map(|p| p.name.as_str()).collect();
    assert_eq!(names, vec!["a", "b", "c"]);
    assert_eq!(
        sources.script.providers[0],
        Provider {
            name: "a".to_string(),
            probes: vec![Probe {
                name: "x".to_string(),
                arguments: vec!["int".to_string()]
            }]
        }
    );
    let none = gather(&vec![]).unwrap();
    assert_eq!(none.text, "");
    assert!(none.script.providers.is_empty());
}

#[test]
fn first_malformed_source_is_reported() {
    let contents = vec![
        "provider a { };".to_string(),
        "provider b { ".to_string(),
        "provider c".to_string(),
    ];
    assert_eq!(
        gather(&contents).err(),
        Some((
            1,
            ParseError {
                expected: Expected::CloseBrace,
                position: 13,
                fragment: "".to_string()
            }
        ))
    );
}
