use shortstop::error::{pretty_error, ErrorKind};
use shortstop::fmt::Fmt;
use shortstop::numfmt::{pad_right, u64_to_hex_pad, u64_to_radix};

#[test]
fn radix_rendering() {
    assert_eq!(u64_to_radix(0, 10), "0");
    assert_eq!(u64_to_radix(1234, 10), "1234");
    assert_eq!(u64_to_radix(255, 16), "ff");
    assert_eq!(u64_to_radix(0xdeadbeef, 16), "deadbeef");
    assert_eq!(u64_to_radix(10, 2), "1010");
    assert_eq!(u64_to_radix(0o1111, 8), "1111");
    assert_eq!(u64_to_radix(u64::MAX, 10), "18446744073709551615");
}

#[test]
fn hex_padding() {
    assert_eq!(u64_to_hex_pad(255, 8), "000000ff");
    assert_eq!(u64_to_hex_pad(0, 2), "00");
    assert_eq!(u64_to_hex_pad(0xdeadbeef, 4), "deadbeef");
    assert_eq!(u64_to_hex_pad(0xdeadbeef, 18), "0000000000deadbeef");
}

#[test]
fn space_padding() {
    assert_eq!(pad_right("ab".to_string(), 5), "ab   ");
    assert_eq!(pad_right("abcdef".to_string(), 3), "abcdef");
}

#[test]
fn error_messages() {
    assert_eq!(
        ErrorKind::NoExecutable.message(),
        "No executable file specified."
    );
    assert_eq!(
        ErrorKind::NotRunning.message(),
        "The program is not being run."
    );
    assert_eq!(
        ErrorKind::Read(0xdead).message(),
        "Cannot read memory at address 0xdead"
    );
    assert_eq!(
        ErrorKind::Write(0x10).message(),
        "Cannot write memory at address 0x10"
    );
    assert_eq!(
        ErrorKind::SetExpr.message(),
        "set expressions are not implemented yet"
    );
    assert_eq!(
        ErrorKind::ArgumentRequired.message(),
        "Argument required (starting display address)."
    );
    assert_eq!(
        ErrorKind::EmptyAddress.message(),
        "Cannot parse empty address string"
    );
    assert_eq!(
        ErrorKind::InvalidOutputFormat('k').message(),
        "Invalid output format: k"
    );
    assert_eq!(
        ErrorKind::InvalidOutputSize('q').message(),
        "Invalid output size: q"
    );
    assert_eq!(
        ErrorKind::UndefinedCommand("foo".to_string()).message(),
        "Undefined command: \"foo\".  Try \"help\"."
    );
    assert_eq!(ErrorKind::Path("prog".to_string()).message(), "prog");
    assert_eq!(
        ErrorKind::BreakpointLimit.message(),
        "Cannot number another breakpoint"
    );
    assert_eq!(
        ErrorKind::AddressOverflow.message(),
        "Address range passes the end of memory"
    );
    assert_eq!(ErrorKind::InvalidNumber.message(), "Cannot parse number");
    assert_eq!(
        ErrorKind::MissingArgument.message(),
        "Missing required argument"
    );
    assert_eq!(ErrorKind::ExtraArgument.message(), "Too many arguments");
}

#[test]
fn pretty_error_is_the_message() {
    let e = ErrorKind::NotRunning;
    assert_eq!(pretty_error(&e), "The program is not being run.");
}

#[test]
fn fmt_overlay_applies_present_fields() {
    let mut base = Fmt { reverse: false, repeat: Some(4), format: Some('x'), size: None };
    let patch = Fmt { reverse: true, repeat: None, format: Some('d'), size: Some('b') };
    base.update(patch);
    assert_eq!(
        base,
        Fmt { reverse: true, repeat: Some(4), format: Some('d'), size: Some('b') }
    );
}

#[test]
fn fmt_overlay_twice_equals_once() {
    let patch = Fmt { reverse: true, repeat: Some(2), format: None, size: Some('g') };
    let mut once = Fmt { reverse: false, repeat: Some(9), format: Some('x'), size: Some('w') };
    once.update(patch);
    let mut twice = once;
    twice.update(patch);
    assert_eq!(once, twice);
}

#[test]
fn fmt_overlay_preserves_absent_fields() {
    let base = Fmt { reverse: false, repeat: Some(7), format: Some('x'), size: Some('h') };
    let mut patched = base;
    patched.update(Fmt { reverse: false, repeat: None, format: None, size: None });
    assert_eq!(patched.repeat, base.repeat);
    assert_eq!(patched.format, base.format);
    assert_eq!(patched.size, base.size);
}

#[test]
fn fmt_default_is_all_unset() {
    let f: Fmt = Default::default();
    assert_eq!(f, Fmt { reverse: false, repeat: None, format: None, size: None });
}
