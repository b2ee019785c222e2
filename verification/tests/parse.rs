use shortstop::addr::parse_addr;
use shortstop::cmd::{parse_command, Cmd, Info, Proc, SetCmd};
use shortstop::error::ErrorKind;
use shortstop::fmt::{parse_fmt, Fmt};

#[test]
fn cli_test_parse_fmt() {
    assert_eq!(
        parse_fmt("32xw").ok(),
        Some(Fmt {
            reverse: false,
            repeat: Some(32),
            format: Some('x'),
            size: Some('w'),
        })
    );
    assert_eq!(
        parse_fmt("-32wx").ok(),
        Some(Fmt {
            reverse: true,
            repeat: Some(32),
            format: Some('x'),
            size: Some('w'),
        })
    );
}

#[test]
fn cli_test_parse_fmt_error() {
    assert!(parse_fmt("32kx").is_err());
    assert!(parse_fmt("32wk").is_err());
}

#[test]
fn cmd_test_parse_fmt() {
    assert_eq!(
        parse_fmt("32xw").ok(),
        Some(Fmt {
            reverse: false,
            repeat: Some(32),
            format: Some('x'),
            size: Some('w'),
        })
    );
    assert_eq!(
        parse_fmt("-32wx").ok(),
        Some(Fmt {
            reverse: true,
            repeat: Some(32),
            format: Some('x'),
            size: Some('w'),
        })
    );
}

#[test]
fn cmd_test_parse_fmt_error() {
    assert!(parse_fmt("32kx").is_err());
    assert!(parse_fmt("32wk").is_err());
}

#[test]
fn test_parse_addr() {
    assert_eq!(parse_addr("0x1000").ok(), Some(0x1000));
    assert_eq!(parse_addr("0b1010").ok(), Some(0b1010));
    assert_eq!(parse_addr("0o1111").ok(), Some(0o1111));
    assert_eq!(parse_addr("1234").ok(), Some(1234));
}

#[test]
fn parse_fmt_error_values() {
    assert_eq!(parse_fmt("32kx"), Err(ErrorKind::InvalidOutputFormat('k')));
    assert_eq!(parse_fmt("32wk"), Err(ErrorKind::InvalidOutputSize('k')));
}

#[test]
fn parse_fmt_pieces() {
    assert_eq!(
        parse_fmt("").ok(),
        Some(Fmt { reverse: false, repeat: None, format: None, size: None })
    );
    assert_eq!(
        parse_fmt("-").ok(),
        Some(Fmt { reverse: true, repeat: None, format: None, size: None })
    );
    assert_eq!(
        parse_fmt("8").ok(),
        Some(Fmt { reverse: false, repeat: Some(8), format: None, size: None })
    );
    assert_eq!(
        parse_fmt("gx").ok(),
        Some(Fmt { reverse: false, repeat: None, format: Some('x'), size: Some('g') })
    );
    // A third letter is ignored.
    assert_eq!(
        parse_fmt("4xwz").ok(),
        Some(Fmt { reverse: false, repeat: Some(4), format: Some('x'), size: Some('w') })
    );
}

#[test]
fn parse_fmt_repeat_too_large() {
    // One past the largest machine word.
    assert_eq!(
        parse_fmt("18446744073709551616x"),
        Err(ErrorKind::InvalidRepeat)
    );
}

#[test]
fn parse_addr_errors() {
    assert_eq!(parse_addr(""), Err(ErrorKind::EmptyAddress));
    assert_eq!(parse_addr("0xzz"), Err(ErrorKind::InvalidAddress));
    assert_eq!(parse_addr("0x"), Err(ErrorKind::InvalidAddress));
    // One past the largest machine word.
    assert_eq!(
        parse_addr("18446744073709551616"),
        Err(ErrorKind::InvalidAddress)
    );
    assert_eq!(parse_addr("18446744073709551615").ok(), Some(u64::MAX));
}

#[test]
fn parse_addr_case_insensitive() {
    assert_eq!(parse_addr("0XDEADBEEF").ok(), Some(0xdeadbeef));
    assert_eq!(parse_addr("0xDeadBeef").ok(), Some(0xdeadbeef));
    assert_eq!(parse_addr("0B101").ok(), Some(5));
    assert_eq!(parse_addr("0O17").ok(), Some(15));
}

#[test]
fn parse_addr_format_round_trip() {
    for n in [0u64, 1, 9, 10, 255, 0x1000, 0xdeadbeef, u64::MAX] {
        let hex = format!("0x{}", shortstop::numfmt::u64_to_radix(n, 16));
        assert_eq!(parse_addr(&hex).ok(), Some(n));
        let dec = shortstop::numfmt::u64_to_radix(n, 10);
        assert_eq!(parse_addr(&dec).ok(), Some(n));
        let bin = format!("0b{}", shortstop::numfmt::u64_to_radix(n, 2));
        assert_eq!(parse_addr(&bin).ok(), Some(n));
        let oct = format!("0o{}", shortstop::numfmt::u64_to_radix(n, 8));
        assert_eq!(parse_addr(&oct).ok(), Some(n));
    }
}

#[test]
fn parse_command_words() {
    assert_eq!(parse_command("").ok(), Some(Cmd::Repeat));
    assert_eq!(
        parse_command("run a b").ok(),
        Some(Cmd::Run { args: vec!["a".to_string(), "b".to_string()] })
    );
    assert_eq!(parse_command("continue").ok(), Some(Cmd::Continue { n: 1 }));
    assert_eq!(parse_command("c 3").ok(), Some(Cmd::Continue { n: 3 }));
    assert_eq!(parse_command("st 2").ok(), Some(Cmd::Stepi { n: 2 }));
    assert_eq!(parse_command("break 0x1000").ok(), Some(Cmd::Break { loc: 0x1000 }));
    assert_eq!(parse_command("b 16").ok(), Some(Cmd::Break { loc: 16 }));
    assert_eq!(
        parse_command("delete 1 2").ok(),
        Some(Cmd::Delete { args: vec![1, 2] })
    );
    assert_eq!(
        parse_command("file prog").ok(),
        Some(Cmd::File { path: "prog".to_string() })
    );
}

#[test]
fn parse_command_prefix_inference() {
    // `d` begins both `delete` and `disable`.
    assert_eq!(
        parse_command("d 1"),
        Err(ErrorKind::UndefinedCommand("d".to_string()))
    );
    // `s` begins both `stepi` and `set`.
    assert_eq!(
        parse_command("s"),
        Err(ErrorKind::UndefinedCommand("s".to_string()))
    );
    assert_eq!(
        parse_command("quit"),
        Err(ErrorKind::UndefinedCommand("quit".to_string()))
    );
}

#[test]
fn parse_command_examine() {
    assert_eq!(
        parse_command("x/32wx 0x1000").ok(),
        Some(Cmd::Examine {
            fmt: Some(Fmt {
                reverse: false,
                repeat: Some(32),
                format: Some('x'),
                size: Some('w'),
            }),
            addr: Some(0x1000),
        })
    );
    assert_eq!(parse_command("x").ok(), Some(Cmd::Examine { fmt: None, addr: None }));
    // `p/...` names no command.
    assert_eq!(
        parse_command("p/x 0x10"),
        Err(ErrorKind::UndefinedCommand("p".to_string()))
    );
}

#[test]
fn parse_command_set_and_info() {
    assert_eq!(
        parse_command("set args a b").ok(),
        Some(Cmd::SetEnv {
            expr: None,
            cmd: Some(SetCmd::Args { args: vec!["a".to_string(), "b".to_string()] }),
        })
    );
    assert_eq!(
        parse_command("set x=1").ok(),
        Some(Cmd::SetEnv { expr: Some("x=1".to_string()), cmd: None })
    );
    assert_eq!(
        parse_command("info proc mappings").ok(),
        Some(Cmd::Info { cmd: Info::Proc { cmd: Proc::Mappings } })
    );
    assert_eq!(
        parse_command("info breakpoints").ok(),
        Some(Cmd::Info { cmd: Info::Breakpoints { args: vec![] } })
    );
    assert_eq!(
        parse_command("i r rip").ok(),
        Some(Cmd::Info { cmd: Info::Registers { names: vec!["rip".to_string()] } })
    );
}

#[test]
fn parse_command_arity_errors() {
    assert_eq!(parse_command("break"), Err(ErrorKind::MissingArgument));
    assert_eq!(parse_command("break 1 2"), Err(ErrorKind::ExtraArgument));
    assert_eq!(parse_command("file a b"), Err(ErrorKind::ExtraArgument));
    assert_eq!(parse_command("continue x"), Err(ErrorKind::InvalidNumber));
    assert_eq!(parse_command("delete one"), Err(ErrorKind::InvalidNumber));
}
