use witd::types::File;
use witd::witd::{Command, RunMode};

fn file() -> File {
    File {
        created_at: 333_000_000,
        directory: "./testy".into(),
        extension: "obj".into(),
        modified_at: 444_000_000,
        name: "testy-mctest.obj".into(),
        path: "./testy/testy-mctest.obj".into(),
    }
}

fn cmd(template: &str) -> Command {
    let command =
        Command::parse(&format!("foreach file in testy/test/src do {} end", template)).unwrap();
    assert_eq!(template, command.command());
    assert_eq!(RunMode::File, command.run_mode());
    command
}

/// Renders a template by reading it once and copying it piece by piece.
fn by_one_pass(template: &str, file: Option<&File>, root_path: &str) -> String {
    let table: Vec<(&str, &str)> = match file {
        Some(f) => vec![
            ("DIR", f.directory.as_str()),
            ("EXT", f.extension.as_str()),
            ("NAME", f.name.as_str()),
            ("PATH", f.path.as_str()),
        ],
        None => vec![("DIR", root_path)],
    };
    let mut out = String::new();
    let mut rest = template;
    while let Some(c) = rest.chars().next() {
        match table.iter().find(|(name, _)| rest.starts_with(name)) {
            Some((name, value)) => {
                out.push_str(value);
                rest = &rest[name.len()..];
            }
            None => {
                out.push(c);
                rest = &rest[c.len_utf8()..];
            }
        }
    }
    out
}

#[test]
fn dir_replaces_filename() {
    let expected = format!("echo {}", file().directory);
    assert_eq!(expected, cmd("echo DIR").execution(Some(&file())));
}

#[test]
fn dir_replaces_filename_if_no_file() {
    assert_eq!("echo testy/test/src", cmd("echo DIR").execution(None));
}

#[test]
fn name_replaces_filename() {
    let expected = format!("echo {}", file().name);
    assert_eq!(expected, cmd("echo NAME").execution(Some(&file())));
}

#[test]
fn path_replaces_path() {
    let expected = format!("echo {}", file().path);
    assert_eq!(expected, cmd("echo PATH").execution(Some(&file())));
}

#[test]
fn ext_replaces_ext() {
    let expected = format!("echo {}", file().extension);
    assert_eq!(expected, cmd("echo EXT").execution(Some(&file())));
}

#[test]
fn complex() {
    assert_eq!(
        "echo testy_testy-mctest.obj_path_./testy/testy-mctest.obj_ext_obj",
        cmd("echo testy_NAME_path_PATH_ext_EXT").execution(Some(&file()))
    );
}

#[test]
fn name_of_a_file_is_put_in() {
    let mut f = file();
    f.name = "a.txt".into();
    assert_eq!("echo a.txt", cmd("echo NAME").execution(Some(&f)));
}

#[test]
fn all_four_tokens_in_one_template() {
    assert_eq!(
        "./testy obj testy-mctest.obj ./testy/testy-mctest.obj",
        cmd("DIR EXT NAME PATH").execution(Some(&file()))
    );
    assert_eq!(
        "./testy/testy-mctest.obj|testy-mctest.obj|obj|./testy",
        cmd("PATH|NAME|EXT|DIR").execution(Some(&file()))
    );
}

#[test]
fn directory_rule_gets_the_root_path() {
    let command = Command::parse("directory ./root do echo DIR end").unwrap();
    assert_eq!("echo ./root", command.execution(None));
}

#[test]
fn without_a_file_only_dir_is_replaced() {
    let command = Command::parse("directory ./root do echo EXT NAME PATH DIR end").unwrap();
    assert_eq!("echo EXT NAME PATH ./root", command.execution(None));
}

#[test]
fn every_occurrence_is_replaced() {
    assert_eq!(
        "obj obj objobj xobjx",
        cmd("EXT EXT EXTEXT xEXTx").execution(Some(&file()))
    );
}

#[test]
fn tokens_are_case_sensitive() {
    assert_eq!(
        "echo name Name nAME",
        cmd("echo name Name nAME").execution(Some(&file()))
    );
}

#[test]
fn template_without_tokens_is_run_as_written() {
    assert_eq!("make -j4 all", cmd("make -j4 all").execution(Some(&file())));
    assert_eq!("make -j4 all", cmd("make -j4 all").execution(None));
    assert_eq!("", cmd("").execution(Some(&file())));
}

#[test]
fn tokens_give_way_to_their_values_part_by_part() {
    let f = File {
        created_at: 1,
        directory: "./w/sub".into(),
        extension: "txt".into(),
        modified_at: 2,
        name: "a.txt".into(),
        path: "./w/sub/a.txt".into(),
    };
    assert_eq!(
        "cp ./w/sub/a.txt ./out/a.txt.txt; ls ./w/sub",
        cmd("cp PATH ./out/NAME.EXT; ls DIR").execution(Some(&f))
    );
    assert_eq!("a.txttxt./w/sub./w/sub/a.txt", cmd("NAMEEXTDIRPATH").execution(Some(&f)));
    assert_eq!("./w/sub/a.txta.txt", cmd("PATHNAME").execution(Some(&f)));
    assert_eq!(
        "cp PATH testy/test/src/NAME.EXT",
        cmd("cp PATH DIR/NAME.EXT").execution(None)
    );
}

#[test]
fn a_token_is_read_whole_before_what_follows_it() {
    let f = file();
    assert_eq!("testy-mctest.objXT", cmd("NAMEXT").execution(Some(&f)));
    assert_eq!("NAobjME", cmd("NAEXTME").execution(Some(&f)));
    assert_eq!("D./testyIR", cmd("DDIRIR").execution(Some(&f)));
}

#[test]
fn a_value_that_holds_a_token_name_is_not_searched() {
    let command = Command::parse("foreach file in ./d do echo NAME end").unwrap();
    let f = File {
        created_at: 1,
        directory: "./d".into(),
        extension: "txt".into(),
        modified_at: 1,
        name: "PATH.txt".into(),
        path: "./d/PATH.txt".into(),
    };
    assert_eq!("echo PATH.txt", command.execution(Some(&f)));
}

#[test]
fn with_a_file_dir_is_the_directory_of_the_file_only() {
    let command = Command::parse("foreach file in ./r do echo DIR end").unwrap();
    let mut f = file();
    f.directory = "xDIRx".into();
    assert_eq!("echo xDIRx", command.execution(Some(&f)));
}

#[test]
fn values_are_put_in_as_they_are() {
    let mut f = file();
    f.directory = "DIR/EXT".into();
    f.extension = "NAME".into();
    f.name = "PATH".into();
    f.path = "DIR".into();
    assert_eq!("DIR/EXT NAME PATH DIR", cmd("DIR EXT NAME PATH").execution(Some(&f)));
    assert_eq!("DIRPATHNAMEDIR/EXT", cmd("PATHNAMEEXTDIR").execution(Some(&f)));
}

#[test]
fn rendering_agrees_with_copying_piece_by_piece() {
    let mut odd = file();
    odd.directory = "DIR/EXT".into();
    odd.extension = "NAME".into();
    odd.name = "PATH".into();
    odd.path = "DIR".into();
    let templates = [
        "",
        "DIR",
        "echo DIR EXT NAME PATH",
        "DIRDIR EXTNAME PATHPATH",
        "DI R PAT NAM EX",
        "DDIRIR",
        "NAMEXT",
        "PATHNAMEEXTDIR",
        "DIREXTNAMEPATHDIR",
        "NANAMEME PAPATHTH",
        "\u{e9}DIR\u{1f600}NAME\u{65e5}",
    ];
    for template in templates {
        let command = cmd(template);
        for f in [file(), odd.clone()] {
            assert_eq!(
                by_one_pass(template, Some(&f), "testy/test/src"),
                command.execution(Some(&f)),
                "{:?}",
                template
            );
        }
        assert_eq!(by_one_pass(template, None, "testy/test/src"), command.execution(None));
    }
}
