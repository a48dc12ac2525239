use witd::session::{build_contexts, split_commands};
use witd::witd::{CommandErr, RunMode, WitdErr};

fn strings(parts: &[&str]) -> Vec<String> {
    parts.iter().map(|p| p.to_string()).collect()
}

fn by_std(input: &str) -> Vec<String> {
    if input.contains(";;") {
        input.split(";;").map(|m| m.trim().to_string()).collect()
    } else {
        vec![input.to_string()]
    }
}

#[test]
fn input_without_separator_is_one_command_left_as_it_is() {
    assert_eq!(
        strings(&["directory . do echo end"]),
        split_commands("directory . do echo end".into())
    );
    assert_eq!(strings(&["  a  "]), split_commands("  a  ".into()));
    assert_eq!(strings(&[""]), split_commands("".into()));
    assert_eq!(strings(&["a;b"]), split_commands("a;b".into()));
}

#[test]
fn input_is_cut_at_each_separator_and_trimmed() {
    assert_eq!(strings(&["a", "b"]), split_commands("a ;; b".into()));
    assert_eq!(strings(&["a", "b"]), split_commands("  a;;b\t".into()));
    assert_eq!(
        strings(&["directory ./a do make end", "foreach file in ./b do echo NAME end"]),
        split_commands("directory ./a do make end ;; foreach file in ./b do echo NAME end".into())
    );
    assert_eq!(strings(&["a", "b", "c"]), split_commands("a;;b;;c".into()));
}

#[test]
fn separators_at_the_ends_or_in_a_row_give_empty_commands() {
    assert_eq!(strings(&["", ""]), split_commands(";;".into()));
    assert_eq!(strings(&["a", ""]), split_commands("a;;".into()));
    assert_eq!(strings(&["", "a"]), split_commands(";;a".into()));
    assert_eq!(strings(&["a", "", "b"]), split_commands("a;;;;b".into()));
    assert_eq!(strings(&["a", "", "b"]), split_commands("a;;  ;;b".into()));
}

#[test]
fn separators_do_not_overlap() {
    assert_eq!(strings(&["a", ";b"]), split_commands("a;;;b".into()));
    assert_eq!(strings(&["", ";"]), split_commands(";;;".into()));
}

#[test]
fn split_commands_agrees_with_str_split() {
    for input in [
        "",
        ";",
        ";;",
        ";;;",
        ";;;;",
        ";;;;;",
        " ;; ",
        "a",
        " a ",
        "a;;b",
        " a ;; b ;; c ",
        "a; ;b",
        "\u{e9} ;;\u{3000}\u{65e5}\u{a0};; \u{1f600}",
        "directory . do echo a;b end;;directory .. do echo end",
    ] {
        assert_eq!(by_std(input), split_commands(input.to_string()), "{:?}", input);
    }
}

#[test]
fn contexts_are_built_in_order() {
    let contexts = build_contexts(strings(&[
        "directory ./a do make end",
        "foreach file in ./b do echo NAME end",
    ]));
    let contexts = match contexts {
        Ok(contexts) => contexts,
        Err(e) => panic!("{:?}", e),
    };
    assert_eq!(2, contexts.len());
    assert_eq!("./a", contexts[0].path);
    assert_eq!("./b", contexts[1].path);
}

#[test]
fn no_input_gives_no_context() {
    match build_contexts(vec![]) {
        Ok(contexts) => assert!(contexts.is_empty()),
        Err(e) => panic!("{:?}", e),
    }
}

#[test]
fn first_failing_input_gives_the_error() {
    let cases = [
        (vec![""], CommandErr::EmptyInput),
        (vec!["directory ./a do make end", "bogus"], CommandErr::MissingRunMode),
        (vec!["directory", "bogus"], CommandErr::MissingPathSpecification),
        (
            vec!["directory ./a do make end", "directory ./a make end", "directory ./a do"],
            CommandErr::MissingKeywordDo,
        ),
        (vec!["directory ./a do make", ""], CommandErr::MissingKeywordEnd),
    ];
    for (inputs, expected) in cases {
        match build_contexts(strings(&inputs)) {
            Ok(_) => panic!("{:?}", inputs),
            Err(e) => assert_eq!(WitdErr::CommandErr(expected), e),
        }
    }
}

#[test]
fn split_then_build() {
    let inputs =
        split_commands("directory ./a do make end ;; foreach file in ./b do echo end".into());
    match build_contexts(inputs) {
        Ok(mut contexts) => {
            assert_eq!(2, contexts.len());
            let second = contexts.pop().unwrap();
            assert_eq!("./b", second.path);
            let first = contexts.pop().unwrap();
            assert_eq!("./a", first.path);
            let _ = RunMode::values();
        }
        Err(e) => panic!("{:?}", e),
    }
}
