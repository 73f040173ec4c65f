use sonde::ast::{Probe, Provider, Script};
use sonde::parser::{name, parse, probe, provider, script, ty, ws, Expected, ParseError};

fn probe_of(name: &str, arguments: &[&str]) -> Probe {
    Probe {
        name: name.to_string(),
        arguments: arguments.iter().map(|a| a.to_string()).collect(),
    }
}

fn error(expected: Expected, position: usize, fragment: &str) -> ParseError {
    ParseError {
        expected,
        position,
        fragment: fragment.to_string(),
    }
}

#[test]
fn test_name() {
    assert_eq!(name("foobar"), Ok(("", "foobar")));
}

#[test]
fn test_type() {
    assert_eq!(ty("char"), ("", "char"));
    assert_eq!(ty("short"), ("", "short"));
    assert_eq!(ty("int"), ("", "int"));
    assert_eq!(ty("long"), ("", "long"));
    assert_eq!(ty("long long"), ("", "long long"));
    assert_eq!(ty("uint32_t"), ("", "uint32_t"));
    assert_eq!(ty("char *"), ("", "char *"));
    assert_eq!(ty("foo bar *,"), (",", "foo bar *"));
    assert_eq!(ty("foo bar *)"), (")", "foo bar *"));
}

#[test]
fn test_probe_with_zero_argument() {
    assert_eq!(
        probe("probe abc();"),
        Ok((
            "",
            Probe {
                name: "abc".to_string(),
                arguments: vec![],
            }
        ))
    );
}

#[test]
fn test_probe_with_one_argument() {
    assert_eq!(
        probe("probe abc ( char * ) ;"),
        Ok((
            "",
            Probe {
                name: "abc".to_string(),
                arguments: vec!["char *".to_string()],
            }
        ))
    );
}

#[test]
fn test_probe_with_many_argument() {
    assert_eq!(
        probe("probe abc ( char *, uint8_t ) ;"),
        Ok((
            "",
            Probe {
                name: "abc".to_string(),
                arguments: vec!["char *".to_string(), "uint8_t".to_string()],
            }
        ))
    );
}

#[test]
fn test_empty_provider() {
    assert_eq!(
        provider("provider foobar { } ;"),
        Ok((
            "",
            Provider {
                name: "foobar".to_string(),
                probes: vec![]
            }
        ))
    );
}

#[test]
fn test_provider() {
    assert_eq!(
        provider(
            "provider foobar {
                     probe abc(char*, int);
                     probe def(string);
                 };"
        ),
        Ok((
            "",
            Provider {
                name: "foobar".to_string(),
                probes: vec![
                    Probe {
                        name: "abc".to_string(),
                        arguments: vec!["char*".to_string(), "int".to_string()],
                    },
                    Probe {
                        name: "def".to_string(),
                        arguments: vec!["string".to_string()],
                    }
                ]
            }
        ))
    );
}

#[test]
fn test_script() {
    assert_eq!(
        script(
            "provider foobar {
                     probe abc(char*, int);
                     probe def(string);
                 };

                 provider hopla {
                     probe xyz();
                 };"
        ),
        Ok((
            "",
            Script {
                providers: vec![
                    Provider {
                        name: "foobar".to_string(),
                        probes: vec![
                            Probe {
                                name: "abc".to_string(),
                                arguments: vec!["char*".to_string(), "int".to_string()],
                            },
                            Probe {
                                name: "def".to_string(),
                                arguments: vec!["string".to_string()],
                            }
                        ]
                    },
                    Provider {
                        name: "hopla".to_string(),
                        probes: vec![Probe {
                            name: "xyz".to_string(),
                            arguments: vec![]
                        }],
                    },
                ]
            }
        ))
    );
}

#[test]
fn blanks_are_taken_from_the_start() {
    assert_eq!(ws(" \t\r\n x y"), ("x y", " \t\r\n "));
    assert_eq!(ws("x "), ("x ", ""));
    assert_eq!(ws(""), ("", ""));
    assert_eq!(ws("\u{b}x"), ("\u{b}x", ""));
}

#[test]
fn name_takes_letters_digits_hyphen_and_underscore() {
    assert_eq!(name("a-b_c9Z rest"), Ok((" rest", "a-b_c9Z")));
    assert_eq!(name("abc("), Ok(("(", "abc")));
    assert_eq!(name("é"), Err(error(Expected::Name, 0, "é")));
    assert_eq!(name("abcéd"), Ok(("éd", "abc")));
}

#[test]
fn name_must_not_be_empty() {
    assert_eq!(name(""), Err(error(Expected::Name, 0, "")));
    assert_eq!(name(" abc"), Err(error(Expected::Name, 0, " abc")));
    assert_eq!(
        probe("probe ();"),
        Err(error(Expected::Name, 6, "();"))
    );
    assert_eq!(
        provider("provider { };"),
        Err(error(Expected::Name, 9, "{ };"))
    );
}

#[test]
fn single_provider_with_one_probe() {
    assert_eq!(
        parse("provider foobar { probe abc(); };"),
        Ok(Script {
            providers: vec![Provider {
                name: "foobar".to_string(),
                probes: vec![probe_of("abc", &[])],
            }]
        })
    );
}

#[test]
fn spacing_between_tokens_does_not_matter() {
    let tight = probe("probe abc();").unwrap().1;
    let loose = probe("probe   abc ( ) ;").unwrap().1;
    assert_eq!(tight, loose);
    assert_eq!(tight, probe_of("abc", &[]));
    let a = probe("probe abc ( char * ) ;").unwrap().1;
    let b = probe("probe abc(char *);").unwrap().1;
    let c = probe("probe\n\tabc\r\n(\tchar *\n)\n;").unwrap().1;
    assert_eq!(a, b);
    assert_eq!(a, c);
    assert_eq!(probe("probeabc();").unwrap().1, tight);
}

#[test]
fn arguments_are_trimmed_and_empty_ones_left_out() {
    assert_eq!(
        probe("probe p( long long ,unsigned int , char **);").unwrap().1,
        probe_of("p", &["long long", "unsigned int", "char **"])
    );
    assert_eq!(probe("probe p(  );").unwrap().1, probe_of("p", &[]));
    assert_eq!(probe("probe p(,);").unwrap().1, probe_of("p", &[]));
    assert_eq!(probe("probe p(int,,char);").unwrap().1, probe_of("p", &["int", "char"]));
    assert_eq!(probe("probe p(\u{b}int\u{a0});").unwrap().1, probe_of("p", &["int"]));
    assert_eq!(probe("probe p(a b);").unwrap().1, probe_of("p", &["a b"]));
}

#[test]
fn what_follows_a_probe_is_handed_back() {
    assert_eq!(
        probe("probe abc(int); probe def();"),
        Ok((" probe def();", probe_of("abc", &["int"])))
    );
    assert_eq!(
        provider("provider p {};tail"),
        Ok((
            "tail",
            Provider {
                name: "p".to_string(),
                probes: vec![]
            }
        ))
    );
}

#[test]
fn malformed_probe_is_an_error() {
    assert_eq!(
        probe("prob abc();"),
        Err(error(Expected::ProbeKeyword, 0, "prob abc();"))
    );
    assert_eq!(
        probe(" probe abc();"),
        Err(error(Expected::ProbeKeyword, 0, " probe abc();"))
    );
    assert_eq!(
        probe("probe abc;"),
        Err(error(Expected::OpenParen, 9, ";"))
    );
    assert_eq!(
        probe("probe abc(int"),
        Err(error(Expected::CloseParen, 13, ""))
    );
    assert_eq!(
        probe("probe abc(int) x"),
        Err(error(Expected::Semicolon, 15, "x"))
    );
    assert_eq!(probe("probe abc()"), Err(error(Expected::Semicolon, 11, "")));
}

#[test]
fn malformed_provider_is_an_error() {
    assert_eq!(
        provider("provide foo {};"),
        Err(error(Expected::ProviderKeyword, 0, "provide foo {};"))
    );
    assert_eq!(
        provider("provider foo probe"),
        Err(error(Expected::OpenBrace, 13, "probe"))
    );
    assert_eq!(
        provider("provider foo { probe abc( };"),
        Err(error(Expected::CloseBrace, 15, "probe abc( };"))
    );
    assert_eq!(
        provider("provider foo { probe abc();"),
        Err(error(Expected::CloseBrace, 27, ""))
    );
    assert_eq!(
        provider("provider foo { }"),
        Err(error(Expected::Semicolon, 16, ""))
    );
    assert_eq!(
        provider("provider foo { } probe"),
        Err(error(Expected::Semicolon, 17, "probe"))
    );
}

#[test]
fn text_between_providers_is_passed_over() {
    let text = "#pragma D option quiet\n/* nothing */\nprovider a { probe x(int); };\ntypedef int t;\nprovider b { };\ntrailing text";
    assert_eq!(
        parse(text),
        Ok(Script {
            providers: vec![
                Provider {
                    name: "a".to_string(),
                    probes: vec![probe_of("x", &["int"])],
                },
                Provider {
                    name: "b".to_string(),
                    probes: vec![],
                },
            ]
        })
    );
}

#[test]
fn text_without_provider_is_an_empty_script() {
    assert_eq!(parse(""), Ok(Script { providers: vec![] }));
    assert_eq!(parse("probe abc();"), Ok(Script { providers: vec![] }));
    assert_eq!(parse("provide"), Ok(Script { providers: vec![] }));
    assert_eq!(script("nothing here"), Ok(("", Script { providers: vec![] })));
}

#[test]
fn the_word_inside_other_text_starts_a_provider() {
    assert_eq!(
        parse("// a provider is a group\nprovider p { };"),
        Err(error(Expected::OpenBrace, 17, "a group\nprovider p { };"))
    );
    assert_eq!(
        parse("myprovider p { };"),
        Ok(Script {
            providers: vec![Provider {
                name: "p".to_string(),
                probes: vec![]
            }]
        })
    );
}

#[test]
fn error_position_counts_characters() {
    assert_eq!(
        parse("é provider p { probe q(int) };"),
        Err(error(Expected::CloseBrace, 15, "probe q(int) };"))
    );
    assert_eq!(
        parse("provider a { };\nprovider b { probe }; "),
        Err(error(Expected::CloseBrace, 29, "probe }; "))
    );
}

#[test]
fn providers_keep_their_order() {
    let parsed = parse("provider foobar { probe abc(char*, int); probe def(string); }; provider hopla { probe xyz(); };").unwrap();
    let names: Vec<&str> = parsed.providers.iter().map(|p| p.name.as_str()).collect();
    assert_eq!(names, vec!["foobar", "hopla"]);
    let probes: Vec<&str> = parsed.providers[0].probes.iter().map(|p| p.name.as_str()).collect();
    assert_eq!(probes, vec!["abc", "def"]);
    assert_eq!(parsed.providers[0].probes[0].arguments, vec!["char*", "int"]);
    assert_eq!(parsed.providers[0].probes[1].arguments, vec!["string"]);
}

#[test]
fn name_case_is_kept() {
    assert_eq!(
        provider("provider Foo-Bar_1 { probe Do__It(); };").unwrap().1,
        Provider {
            name: "Foo-Bar_1".to_string(),
            probes: vec![probe_of("Do__It", &[])],
        }
    );
}
