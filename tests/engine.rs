use posh_core::{
    expand_abbreviation, expand_word, has_abbreviation, should_highlight_assignment,
    should_highlight_command, lex, parse, Bindings, Command, CommandType, Error, Expand, Expansion,
    ExpansionKind, Feature, Meta, Redirect, SyntaxError, SyntaxTree, Token, Word,
    MAX_NESTING_DEPTH,
};

fn single(tree: &SyntaxTree) -> &Command {
    assert_eq!(tree.commands.len(), 1);
    match &tree.commands[0] {
        CommandType::Single(c) => c,
        CommandType::Pipeline(_) => panic!("expected a single command"),
    }
}

fn bindings(pairs: &[(&str, &str)]) -> Bindings {
    pairs.iter().map(|(a, b)| (a.to_string(), b.to_string())).collect()
}

#[test]
fn lexes_operators_and_redirections() {
    let tokens = lex("a|b || c && d & e; f >> g 2> h <i", true).unwrap();
    assert_eq!(
        tokens,
        vec![
            Token::String("a".into()),
            Token::Pipe,
            Token::String("b".into()),
            Token::Space,
            Token::Or,
            Token::Space,
            Token::String("c".into()),
            Token::Space,
            Token::And,
            Token::Space,
            Token::String("d".into()),
            Token::Space,
            Token::Ampersand,
            Token::Space,
            Token::String("e".into()),
            Token::Semicolon,
            Token::Space,
            Token::String("f".into()),
            Token::Space,
            Token::RedirectOutput(None, "g".into(), Some(" ".into()), true),
            Token::Space,
            Token::RedirectOutput(Some("2".into()), "h".into(), Some(" ".into()), false),
            Token::Space,
            Token::RedirectInput("i".into()),
        ]
    );
}

#[test]
fn unterminated_quote_is_tolerated_only_interactively() {
    let tokens = lex("echo 'abc", true).unwrap();
    assert_eq!(tokens[2], Token::SingleQuotedString("abc".into(), false));
    assert_eq!(lex("echo 'abc", false), Err(Error::Syntax(SyntaxError::UnterminatedQuote)));
    assert_eq!(parse("echo \"abc"), Err(Error::Syntax(SyntaxError::UnterminatedQuote)));
}

#[test]
fn double_quotes_unescape_outside_substitutions() {
    let tokens = lex(r#""a \"b\" \\ c""#, false).unwrap();
    assert_eq!(tokens, vec![Token::DoubleQuotedString(r#"a "b" \ c"#.into(), true)]);
}

#[test]
fn unsupported_operators_are_reported() {
    assert_eq!(parse("true && false"), Err(Error::Unsupported(Feature::And)));
    assert_eq!(parse("true || false"), Err(Error::Unsupported(Feature::Or)));
    assert_eq!(parse("sleep 1 &"), Err(Error::Unsupported(Feature::Background)));
    assert_eq!(parse("(echo hi)"), Err(Error::Unsupported(Feature::Subshell)));
    assert_eq!(parse("{ echo hi; }"), Err(Error::Unsupported(Feature::Grouping)));
}

#[test]
fn stage_without_command_is_a_syntax_error() {
    assert_eq!(
        parse(">out"),
        Err(Error::Syntax(SyntaxError::MissingCommand { start: 0, end: 1 }))
    );
    assert_eq!(
        parse("echo a | A=b"),
        Err(Error::Syntax(SyntaxError::MissingCommand { start: 5, end: 7 }))
    );
    assert_eq!(parse("echo >"), Err(Error::Syntax(SyntaxError::MissingRedirectTarget)));
    assert_eq!(parse("echo $(ls"), Err(Error::Syntax(SyntaxError::UnterminatedSubstitution)));
}

#[test]
fn blank_stages_and_groups_are_dropped() {
    assert_eq!(parse("").unwrap(), SyntaxTree::new());
    assert_eq!(parse(" ; ;").unwrap(), SyntaxTree::default());
    let tree = parse("echo a | ").unwrap();
    assert_eq!(single(&tree).cmd_name(), "echo");
}

#[test]
fn nesting_deeper_than_the_limit_fails() {
    let mut line = String::from("echo");
    for _ in 0..MAX_NESTING_DEPTH {
        line = format!("echo $({})", line);
    }
    assert!(parse(&line).is_ok());
    let deeper = format!("echo $({})", line);
    assert_eq!(parse(&deeper), Err(Error::NestingLimitExceeded));
}

#[test]
fn assignment_after_the_name_is_a_plain_word() {
    let tree = parse("A=1 env B=2").unwrap();
    let cmd = single(&tree);
    assert_eq!(
        cmd.prefixes,
        vec![Meta::Assignment(Word::new("A", vec![]), Word::new("1", vec![]))]
    );
    assert_eq!(cmd.suffixes, vec![Meta::Word(Word::new("B=2", vec![]))]);
    assert_eq!(cmd.args(), vec!["B=2".to_string()]);
}

#[test]
fn empty_assignment_name_is_a_word() {
    let tree = parse("=x").unwrap();
    assert_eq!(single(&tree).cmd_name(), "=x");
}

#[test]
fn tilde_after_equals_sign_expands() {
    let tree = parse("echo x=~ ~x ~/a").unwrap();
    let cmd = single(&tree);
    assert_eq!(
        cmd.suffixes,
        vec![
            Meta::Word(Word::new("x=~", vec![Expansion::Tilde { index: 2 }])),
            Meta::Word(Word::new("~x", vec![])),
            Meta::Word(Word::new("~/a", vec![Expansion::Tilde { index: 0 }])),
        ]
    );
}

#[test]
fn glob_with_single_stars_is_not_recursive() {
    let tree = parse("ls *.r*").unwrap();
    assert_eq!(
        single(&tree).suffixes,
        vec![Meta::Word(Word::new(
            "*.r*",
            vec![Expansion::Glob { range: 0..=3, pattern: "*.r*".into(), recursive: false }]
        ))]
    );
}

#[test]
fn double_quotes_do_not_glob() {
    let tree = parse("echo \"* ~\"").unwrap();
    assert_eq!(single(&tree).suffixes, vec![Meta::Word(Word::new("* ~", vec![]))]);
}

#[test]
fn resolves_parameters_right_to_left() {
    let word = Word::new(
        "$A-$BB-$C",
        vec![
            Expansion::Parameter { range: 0..=1, name: "A".into() },
            Expansion::Parameter { range: 3..=5, name: "BB".into() },
            Expansion::Parameter { range: 7..=8, name: "C".into() },
        ],
    );
    let vars = bindings(&[("A", "first"), ("BB", "x"), ("A", "last")]);
    let resolved = expand_word(&vars, &word, "/home/me").unwrap();
    assert_eq!(resolved.name, "last-x-$C");
    assert_eq!(
        resolved.expansions,
        vec![Expansion::Parameter { range: 7..=8, name: "C".into() }]
    );
}

#[test]
fn resolves_tilde_to_home() {
    let word = Word::new("~/src", vec![Expansion::Tilde { index: 0 }]);
    let resolved = expand_word(&Vec::new(), &word, "/home/me").unwrap();
    assert_eq!(resolved, Word::new("/home/me/src", vec![]));
}

#[test]
fn globs_and_substitutions_are_unresolved() {
    let tree = parse("echo *.rs").unwrap();
    let cmd = single(&tree);
    let glob = match &cmd.suffixes[0] {
        Meta::Word(w) => w,
        _ => panic!("expected a word"),
    };
    assert_eq!(
        expand_word(&Vec::new(), glob, "/h"),
        Err(Error::Unresolved(ExpansionKind::Glob))
    );
    let tree = parse("echo $(ls)").unwrap();
    let cmd = single(&tree);
    let sub = match &cmd.suffixes[0] {
        Meta::Word(w) => w,
        _ => panic!("expected a word"),
    };
    assert_eq!(
        expand_word(&Vec::new(), sub, "/h"),
        Err(Error::Unresolved(ExpansionKind::Command))
    );
}

#[test]
fn command_bindings_shadow_the_environment() {
    let tree = parse("A=1 B=$A A=2 run $A $B").unwrap();
    let cmd = single(&tree);
    let env = bindings(&[("A", "env"), ("PATH", "/bin")]);
    let vars = cmd.vars(&env, "/h");
    assert_eq!(vars, bindings(&[("PATH", "/bin"), ("B", "1"), ("A", "2")]));
}

#[test]
fn expanding_a_command_uses_its_bindings() {
    let tree = parse("A=1 B=$A A=2 run $A $B ~").unwrap();
    let cmd = match tree.commands.into_iter().next().unwrap() {
        CommandType::Single(c) => c,
        CommandType::Pipeline(_) => panic!("expected a single command"),
    };
    let expanded = cmd.expand(&Vec::new(), "/home/me").unwrap();
    assert_eq!(expanded.args(), vec!["2".to_string(), "1".to_string(), "/home/me".to_string()]);
}

#[test]
fn expanding_a_pipeline_expands_each_command() {
    let tree = parse("echo $X | cat ~").unwrap();
    let ct = tree.commands.into_iter().next().unwrap();
    let expanded = ct.expand(&bindings(&[("X", "y")]), "/root").unwrap();
    assert_eq!(expanded.to_string(), "echo y | cat /root");
}

#[test]
fn redirections_pick_the_last_of_each_stream() {
    let tree = parse("<in >a 2>err cmd >b 3>x 1>>c").unwrap();
    let cmd = single(&tree);
    let (stdin, stdout, stderr) = cmd.redirections();
    assert_eq!(stdin, Some(Redirect::Input { to: Word::new("in", vec![]) }));
    assert_eq!(
        stdout,
        Some(Redirect::Output {
            from: Some(Word::new("1", vec![])),
            to: Word::new("c", vec![]),
            append: true
        })
    );
    assert_eq!(
        stderr,
        Some(Redirect::Output {
            from: Some(Word::new("2", vec![])),
            to: Word::new("err", vec![]),
            append: false
        })
    );
    assert_eq!(cmd.args(), Vec::<String>::new());
}

#[test]
fn renders_trees() {
    let tree = parse("2>&1 echo hello world | lolcat -n;").unwrap();
    assert_eq!(tree.to_string(), "2>&1 echo hello world | lolcat -n");
    let tree = parse("A=1 >>log <in  run  'a b' ; ls >out").unwrap();
    assert_eq!(tree.to_string(), "A=1 >>log <in run a b; ls >out");
    let meta = Meta::Redirect(Redirect::Output {
        from: None,
        to: Word::new("f", vec![]),
        append: false,
    });
    assert_eq!(meta.to_string(), ">f");
}

#[test]
fn rendering_is_stable_under_reparsing() {
    for line in [
        "2>&1 echo hello world | lolcat -n;",
        "A=1 B=x run $A *.rs ~ | wc -l ; ls >out",
        "echo \"bat: $(cat /sys/class/power_supply/BAT0/capacity)\"",
    ] {
        let first = parse(line).unwrap().to_string();
        let second = parse(&first).unwrap().to_string();
        assert_eq!(first, second);
    }
}

#[test]
fn builds_trees_by_hand() {
    let mut tree = SyntaxTree::new();
    tree.add_command(CommandType::Single(Command {
        name: Word::new("ls", vec![]),
        prefixes: vec![],
        suffixes: vec![],
    }));
    assert_eq!(tree, parse("ls").unwrap());
}

#[test]
fn assignment_tokens_split_at_the_first_equals_sign() {
    let t = Token::String("CMD=exec=async".into());
    assert_eq!(t.try_get_assignment(), Some(("CMD".to_string(), Some("exec=async".to_string()))));
    assert_eq!(Token::String("A=".into()).try_get_assignment(), Some(("A".to_string(), None)));
    assert_eq!(Token::String("=A".into()).try_get_assignment(), None);
    assert_eq!(Token::DoubleQuotedString("A=b".into(), true).try_get_assignment(), None);
}

#[test]
fn commands_start_after_separators_and_assignments() {
    assert!(should_highlight_command(None));
    assert!(should_highlight_command(Some(&Token::Pipe)));
    assert!(should_highlight_command(Some(&Token::Semicolon)));
    assert!(should_highlight_command(Some(&Token::RedirectOutput(None, "f".into(), None, false))));
    assert!(should_highlight_command(Some(&Token::String("A=1".into()))));
    assert!(!should_highlight_command(Some(&Token::String("echo".into()))));
    assert!(!should_highlight_command(Some(&Token::RedirectInput("f".into()))));
    assert!(should_highlight_assignment(None));
    assert!(should_highlight_assignment(Some(&Token::String("A=1".into()))));
    assert!(!should_highlight_assignment(Some(&Token::String("ls".into()))));
}

#[test]
fn abbreviations_expand_at_the_start_of_the_line() {
    let table = bindings(&[("g", "git"), ("gs", "git status")]);
    assert!(has_abbreviation(&table, "gs"));
    assert!(!has_abbreviation(&table, "git"));
    assert_eq!(expand_abbreviation(&table, "gs", true), Some(("git status".to_string(), 8)));
    assert_eq!(expand_abbreviation(&table, "g push", false), Some(("git push".to_string(), 2)));
    assert_eq!(expand_abbreviation(&table, "g push", true), None);
    assert_eq!(expand_abbreviation(&table, "gx", false), None);
}

#[test]
fn expansion_ranges_are_byte_offsets() {
    let tree = parse("echo \"é $A\"").unwrap();
    assert_eq!(
        single(&tree).suffixes,
        vec![Meta::Word(Word::new(
            "é $A",
            vec![Expansion::Parameter { range: 3..=4, name: "A".into() }]
        ))]
    );
    let tree = parse("ls ü~ é=~/x").unwrap();
    assert_eq!(
        single(&tree).suffixes,
        vec![
            Meta::Word(Word::new("ü~", vec![])),
            Meta::Word(Word::new("é=~/x", vec![Expansion::Tilde { index: 3 }])),
        ]
    );
}

#[test]
fn resolves_byte_ranges_after_wide_characters() {
    let tree = parse("echo ü$A-ß$B").unwrap();
    let word = match &single(&tree).suffixes[0] {
        Meta::Word(w) => w,
        _ => panic!("expected a word"),
    };
    assert_eq!(
        word.expansions,
        vec![
            Expansion::Parameter { range: 2..=3, name: "A".into() },
            Expansion::Parameter { range: 7..=8, name: "B".into() },
        ]
    );
    let resolved = expand_word(&bindings(&[("A", "1"), ("B", "ŝ")]), word, "/h").unwrap();
    assert_eq!(resolved, Word::new("ü1-ßŝ", vec![]));
}

#[test]
fn stray_dollar_is_a_syntax_error() {
    assert_eq!(parse("echo 5$"), Err(Error::Syntax(SyntaxError::StrayDollar)));
    assert_eq!(parse("echo \"a $ b\""), Err(Error::Syntax(SyntaxError::StrayDollar)));
    assert_eq!(parse("echo '5$'").unwrap().to_string(), "echo 5$");
}

#[test]
fn unsupported_constructs_come_before_other_errors() {
    assert_eq!(parse("echo $ && x"), Err(Error::Unsupported(Feature::And)));
    assert_eq!(parse("A=$ || x"), Err(Error::Unsupported(Feature::Or)));
    assert_eq!(parse("echo $ &"), Err(Error::Unsupported(Feature::Background)));
    assert_eq!(parse("echo a (b"), Err(Error::Unsupported(Feature::Subshell)));
    assert_eq!(parse("echo {"), Ok(parse("echo {").unwrap()));
}

#[test]
fn rendering_trims_each_word() {
    let tree = parse("echo ' a' \"b \"").unwrap();
    assert_eq!(tree.to_string(), "echo a b");
    let again = parse(&tree.to_string()).unwrap();
    assert_eq!(again.to_string(), "echo a b");
}

#[test]
fn abbreviation_length_change_counts_bytes() {
    let table = bindings(&[("é", "x")]);
    assert_eq!(expand_abbreviation(&table, "é", true), Some(("x".to_string(), -1)));
}

#[test]
fn trees_can_be_cloned() {
    let tree = parse("A=~ echo \"$(ls *.rs | wc -l) $B\" >out | cat").unwrap();
    assert_eq!(tree.clone(), tree);
    let cmd = single(&parse("echo x").unwrap()).clone();
    assert_eq!(cmd.cmd_name(), "echo");
}

#[test]
fn glob_patterns_stop_at_whitespace() {
    let chars: Vec<char> = "*.rs\nx/*".chars().collect();
    let word = posh_core::parser::parse_word(&chars, posh_core::parser::Mode::Full, 0).unwrap();
    assert_eq!(
        word.expansions,
        vec![
            Expansion::Glob { range: 0..=3, pattern: "*.rs".into(), recursive: false },
            Expansion::Glob { range: 7..=7, pattern: "*".into(), recursive: false },
        ]
    );
}
