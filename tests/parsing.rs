use posh_core::{parse, Command, CommandType, Expansion, Meta, Redirect, SyntaxTree, Word};

#[test]
fn basic_parsing() {
    let input = "2>&1 echo hello world | lolcat -n;".to_string();
    let ast = parse(&input).unwrap();

    assert_eq!(
        SyntaxTree {
            commands: vec![CommandType::Pipeline(vec![
                Command {
                    name: Word::new("echo", vec![]),
                    prefixes: vec![Meta::Redirect(Redirect::Output {
                        from: Some(Word::new("2", vec![])),
                        to: Word::new("&1", vec![]),
                        append: false,
                    }),],
                    suffixes: vec![
                        Meta::Word(Word::new("hello", vec![])),
                        Meta::Word(Word::new("world", vec![])),
                    ],
                },
                Command {
                    name: Word::new("lolcat", vec![]),
                    prefixes: vec![],
                    suffixes: vec![Meta::Word(Word::new("-n", vec![])),],
                }
            ]),],
        },
        ast
    );
}

#[test]
fn asterisk_expansion_parsing() {
    let input = "echo **/*.rs".to_string();
    let ast = parse(&input).unwrap();

    let expected = SyntaxTree {
        commands: vec![CommandType::Single(Command {
            name: Word::new("echo", vec![]),
            prefixes: vec![],
            suffixes: vec![Meta::Word(Word::new(
                "**/*.rs",
                vec![
                    Expansion::Glob {
                        pattern: "**".into(),
                        recursive: true,
                        range: 0..=1,
                    },
                    Expansion::Glob {
                        pattern: "*.rs".into(),
                        recursive: false,
                        range: 3..=6,
                    },
                ],
            ))],
        })],
    };
    assert_eq!(expected, ast);
}

#[test]
fn variable_expansion_parsing() {
    let input = "echo \"yo $foo $A\"".to_string();
    let ast = parse(&input).unwrap();

    assert_eq!(
        SyntaxTree {
            commands: vec![CommandType::Single(Command {
                name: Word::new("echo", vec![]),
                prefixes: vec![],
                suffixes: vec![Meta::Word(Word::new(
                    "yo $foo $A",
                    vec![
                        Expansion::Parameter {
                            name: "foo".into(),
                            range: 3..=6,
                        },
                        Expansion::Parameter {
                            name: "A".into(),
                            range: 8..=9,
                        },
                    ],
                )),],
            })],
        },
        ast
    );
}

#[test]
fn single_quote_doesnt_expand_parsing() {
    let input = "echo '** $foo'".to_string();
    let ast = parse(&input).unwrap();

    let expected = SyntaxTree {
        commands: vec![CommandType::Single(Command {
            name: Word::new("echo", vec![]),
            prefixes: vec![],
            suffixes: vec![Meta::Word(Word::new("** $foo", vec![]))],
        })],
    };

    assert_eq!(expected, ast);
}

#[test]
fn nested_pipeline_parsing() {
    let input = r#"echo "I \"am\": $(whoami | rev | grep -o -v foo)" | less"#.to_string();
    let ast = parse(&input).unwrap();

    let expected = SyntaxTree {
        commands: vec![CommandType::Pipeline(vec![
            Command {
                name: Word::new("echo", vec![]),
                prefixes: vec![],
                suffixes: vec![Meta::Word(Word::new(
                    "I \"am\": $(whoami | rev | grep -o -v foo)",
                    vec![Expansion::Command {
                        range: 8..=39,
                        ast: SyntaxTree {
                            commands: vec![CommandType::Pipeline(vec![
                                Command {
                                    name: Word::new("whoami", vec![]),
                                    prefixes: vec![],
                                    suffixes: vec![],
                                },
                                Command {
                                    name: Word::new("rev", vec![]),
                                    prefixes: vec![],
                                    suffixes: vec![],
                                },
                                Command {
                                    name: Word::new("grep", vec![]),
                                    prefixes: vec![],
                                    suffixes: vec![
                                        Meta::Word(Word::new("-o", vec![])),
                                        Meta::Word(Word::new("-v", vec![])),
                                        Meta::Word(Word::new("foo", vec![])),
                                    ],
                                },
                            ])],
                        },
                    }],
                ))],
            },
            Command {
                name: Word::new("less", vec![]),
                prefixes: vec![],
                suffixes: vec![],
            },
        ])],
    };

    assert_eq!(expected, ast);
}

#[test]
fn complicated_parsing() {
    let input = r#"CMD=exec=async 2>&1 grep ": $(whoami)" ~/.cache/ | xargs -I {} echo "$CMD: {}" >foo.log"#.to_string();
    let ast = parse(&input).unwrap();

    let expected = SyntaxTree {
        commands: vec![CommandType::Pipeline(vec![
            Command {
                name: Word::new("grep", vec![]),
                prefixes: vec![
                    Meta::Assignment(Word::new("CMD", vec![]), Word::new("exec=async", vec![])),
                    Meta::Redirect(Redirect::Output {
                        from: Some(Word::new("2", vec![])),
                        to: Word::new("&1", vec![]),
                        append: false,
                    }),
                ],
                suffixes: vec![
                    Meta::Word(Word::new(
                        ": $(whoami)",
                        vec![Expansion::Command {
                            range: 2..=10,
                            ast: SyntaxTree {
                                commands: vec![CommandType::Single(Command {
                                    name: Word::new("whoami", vec![]),
                                    prefixes: vec![],
                                    suffixes: vec![],
                                })],
                            },
                        }],
                    )),
                    Meta::Word(Word::new("~/.cache/", vec![Expansion::Tilde { index: 0 }])),
                ],
            },
            Command {
                name: Word::new("xargs", vec![]),
                prefixes: vec![],
                suffixes: vec![
                    Meta::Word(Word::new("-I", vec![])),
                    Meta::Word(Word::new("{}", vec![])),
                    Meta::Word(Word::new("echo", vec![])),
                    Meta::Word(Word::new(
                        "$CMD: {}",
                        vec![Expansion::Parameter {
                            name: "CMD".into(),
                            range: 0..=3,
                        }],
                    )),
                    Meta::Redirect(Redirect::Output {
                        from: None,
                        to: Word::new("foo.log", vec![]),
                        append: false,
                    }),
                ],
            },
        ])],
    };

    assert_eq!(expected, ast);
}

#[test]
fn basic_command_expansion_parsing() {
    let input = r#"echo "bat: $(cat /sys/class/power_supply/BAT0/capacity)""#.to_string();
    let ast = parse(&input).unwrap();

    let expected = SyntaxTree {
        commands: vec![CommandType::Single(Command {
            name: Word::new("echo", vec![]),
            prefixes: vec![],
            suffixes: vec![Meta::Word(Word::new(
                "bat: $(cat /sys/class/power_supply/BAT0/capacity)",
                vec![Expansion::Command {
                    range: 5..=48,
                    ast: SyntaxTree {
                        commands: vec![CommandType::Single(Command {
                            name: Word::new("cat", vec![]),
                            prefixes: vec![],
                            suffixes: vec![Meta::Word(Word::new(
                                "/sys/class/power_supply/BAT0/capacity",
                                vec![],
                            ))],
                        })],
                    },
                }],
            ))],
        })],
    };

    assert_eq!(expected, ast);
}

#[test]
fn tilde_expansion_parsing() {
    let input = "ls ~ ~/ ~/foo foo~ bar/~ ./~ ~% ~baz".to_string();
    let ast = parse(&input).unwrap();

    let expected = SyntaxTree {
        commands: vec![CommandType::Single(Command {
            name: Word::new("ls", vec![]),
            prefixes: vec![],
            suffixes: vec![
                Meta::Word(Word::new("~", vec![Expansion::Tilde { index: 0 }])),
                Meta::Word(Word::new("~/", vec![Expansion::Tilde { index: 0 }])),
                Meta::Word(Word::new("~/foo", vec![Expansion::Tilde { index: 0 }])),
                Meta::Word(Word::new("foo~", vec![])),
                Meta::Word(Word::new("bar/~", vec![])),
                Meta::Word(Word::new("./~", vec![])),
                Meta::Word(Word::new("~%", vec![])),
                Meta::Word(Word::new("~baz", vec![])),
            ],
        })],
    };

    assert_eq!(expected, ast);
}

#[test]
fn nested_quotes_in_command_expansion_parsing() {
    let input = r#"echo "bat: $(cat "/sys/class/power_supply/BAT0/capacity")""#.to_string();
    let ast = parse(&input).unwrap();

    let expected = SyntaxTree {
        commands: vec![CommandType::Single(Command {
            name: Word::new("echo", vec![]),
            prefixes: vec![],
            suffixes: vec![Meta::Word(Word::new(
                "bat: $(cat \"/sys/class/power_supply/BAT0/capacity\")",
                vec![Expansion::Command {
                    range: 5..=50,
                    ast: SyntaxTree {
                        commands: vec![CommandType::Single(Command {
                            name: Word::new("cat", vec![]),
                            prefixes: vec![],
                            suffixes: vec![Meta::Word(Word::new(
                                "/sys/class/power_supply/BAT0/capacity",
                                vec![],
                            ))],
                        })],
                    },
                }],
            ))],
        })],
    };

    assert_eq!(expected, ast);
}

#[test]
fn nested_commands_parsing() {
    let input = r#"echo "foo: $(echo "$(whoami | lolcat)") yo""#.to_string();
    let ast = parse(&input).unwrap();

    let expected = SyntaxTree {
        commands: vec![CommandType::Single(Command {
            name: Word::new("echo", vec![]),
            prefixes: vec![],
            suffixes: vec![Meta::Word(Word::new(
                r#"foo: $(echo "$(whoami | lolcat)") yo"#,
                vec![Expansion::Command {
                    range: 5..=32,
                    ast: SyntaxTree {
                        commands: vec![CommandType::Single(Command {
                            name: Word::new("echo", vec![]),
                            prefixes: vec![],
                            suffixes: vec![Meta::Word(Word::new(
                                "$(whoami | lolcat)",
                                vec![Expansion::Command {
                                    range: 0..=17,
                                    ast: SyntaxTree {
                                        commands: vec![CommandType::Pipeline(vec![
                                            Command {
                                                name: Word::new("whoami", vec![]),
                                                prefixes: vec![],
                                                suffixes: vec![],
                                            },
                                            Command {
                                                name: Word::new("lolcat", vec![]),
                                                prefixes: vec![],
                                                suffixes: vec![],
                                            },
                                        ])],
                                    },
                                }],
                            ))],
                        })],
                    },
                }],
            ))],
        })],
    };

    assert_eq!(expected, ast);
}

#[test]
fn command_expansion_without_quotes_parsing() {
    let input = "echo $(cat $(echo $(cat foo | rev) )) bar".to_string();
    let ast = parse(&input).unwrap();

    let expected = SyntaxTree {
        commands: vec![CommandType::Single(Command {
            name: Word::new("echo", vec![]),
            prefixes: vec![],
            suffixes: vec![
                Meta::Word(Word::new(
                    "$(cat $(echo $(cat foo | rev) ))",
                    vec![Expansion::Command {
                        range: 0..=31,
                        ast: SyntaxTree {
                            commands: vec![CommandType::Single(Command {
                                name: Word::new("cat", vec![]),
                                prefixes: vec![],
                                suffixes: vec![Meta::Word(Word::new(
                                    "$(echo $(cat foo | rev) )",
                                    vec![Expansion::Command {
                                        range: 0..=24,
                                        ast: SyntaxTree {
                                            commands: vec![CommandType::Single(Command {
                                                name: Word::new("echo", vec![]),
                                                prefixes: vec![],
                                                suffixes: vec![Meta::Word(Word::new(
                                                    "$(cat foo | rev)",
                                                    vec![Expansion::Command {
                                                        range: 0..=15,
                                                        ast: SyntaxTree {
                                                            commands: vec![
                                                                CommandType::Pipeline(vec![
                                                                    Command {
                                                                        name: Word::new(
                                                                            "cat",
                                                                            vec![],
                                                                        ),
                                                                        prefixes: vec![],
                                                                        suffixes: vec![
                                                                            Meta::Word(
                                                                                Word::new(
                                                                                    "foo",
                                                                                    vec![],
                                                                                ),
                                                                            ),
                                                                        ],
                                                                    },
                                                                    Command {
                                                                        name: Word::new(
                                                                            "rev",
                                                                            vec![],
                                                                        ),
                                                                        prefixes: vec![],
                                                                        suffixes: vec![],
                                                                    },
                                                                ]),
                                                            ],
                                                        },
                                                    }],
                                                ))],
                                            })],
                                        },
                                    }],
                                ))],
                            })],
                        },
                    }],
                )),
                Meta::Word(Word::new("bar", vec![])),
            ],
        })],
    };

    assert_eq!(expected, ast);
}

#[test]
fn multiple_nested_command_expansions_parsing() {
    let input = r#"echo "$(cat $(echo "$(cat foo)"))""#.to_string();
    let ast = parse(&input).unwrap();

    let expected = SyntaxTree {
        commands: vec![CommandType::Single(Command {
            name: Word::new("echo", vec![]),
            prefixes: vec![],
            suffixes: vec![Meta::Word(Word::new(
                r#"$(cat $(echo "$(cat foo)"))"#,
                vec![Expansion::Command {
                    range: 0..=26,
                    ast: SyntaxTree {
                        commands: vec![CommandType::Single(Command {
                            name: Word::new("cat", vec![]),
                            prefixes: vec![],
                            suffixes: vec![Meta::Word(Word::new(
                                r#"$(echo "$(cat foo)")"#,
                                vec![Expansion::Command {
                                    range: 0..=19,
                                    ast: SyntaxTree {
                                        commands: vec![CommandType::Single(Command {
                                            name: Word::new("echo", vec![]),
                                            prefixes: vec![],
                                            suffixes: vec![Meta::Word(Word::new(
                                                "$(cat foo)",
                                                vec![Expansion::Command {
                                                    range: 0..=9,
                                                    ast: SyntaxTree {
                                                        commands: vec![CommandType::Single(
                                                            Command {
                                                                name: Word::new("cat", vec![]),
                                                                prefixes: vec![],
                                                                suffixes: vec![Meta::Word(
                                                                    Word::new("foo", vec![]),
                                                                )],
                                                            },
                                                        )],
                                                    },
                                                }],
                                            ))],
                                        })],
                                    },
                                }],
                            ))],
                        })],
                    },
                }],
            ))],
        })],
    };

    assert_eq!(expected, ast);
}
