//! The interactive command grammar: whitespace tokenization, unique-prefix
//! command inference, and per-command argument parsing.
use vstd::prelude::*;

use crate::addr::{parse_addr, parse_addr_spec, parse_radix_spec, parse_u64_dec};
use crate::error::ErrorKind;
use crate::fmt::{
    lemma_prefix_len_at, lemma_prefix_len_bounds, parse_fmt, parse_fmt_spec, prefix_len_while, Fmt,
};
use crate::strutil::{char_string, push_char, str_is_prefix};

verus! {

/// A command typed at the prompt.
#[derive(Debug, Clone, PartialEq, Eq)]
pub enum Cmd {
    /// The empty line: repeat the last repeatable command.
    Repeat,
    /// Start the debugged program.
    Run { args: Vec<String> },
    /// Continue the program, `n` times.
    Continue { n: u64 },
    /// Step `n` instructions exactly.
    Stepi { n: u64 },
    /// Set a breakpoint at an address.
    Break { loc: u64 },
    /// Delete the numbered breakpoints, or all after a prompt.
    Delete { args: Vec<u64> },
    /// Disable the numbered breakpoints.
    Disable { args: Vec<u64> },
    /// Enable the numbered breakpoints.
    Enable { args: Vec<u64> },
    /// Examine memory: `x/FMT ADDRESS`.
    Examine { fmt: Option<Fmt>, addr: Option<u64> },
    /// Use a file as the program to be debugged.
    File { path: String },
    /// Change parts of the debug environment.
    SetEnv { expr: Option<String>, cmd: Option<SetCmd> },
    /// Show things about the program being debugged.
    Info { cmd: Info },
}

/// The subcommands of `set`.
#[derive(Debug, Clone, PartialEq, Eq)]
pub enum SetCmd {
    /// Replace the argument list given to the program on `run`.
    Args { args: Vec<String> },
}

/// The subcommands of `info`.
#[derive(Debug, Clone, PartialEq, Eq)]
pub enum Info {
    /// Show `/proc` information about the running process.
    Proc { cmd: Proc },
    /// Status of the given breakpoints.
    Breakpoints { args: Vec<u64> },
    /// Integer registers and their contents.
    Registers { names: Vec<String> },
}

/// The subcommands of `info proc`.
#[derive(Debug, Clone, PartialEq, Eq)]
pub enum Proc {
    /// The mapped memory regions.
    Mappings,
}

/// The mathematical shape of a parsed command: strings as character
/// sequences.
pub enum CmdView {
    Repeat,
    Run { args: Seq<Seq<char>> },
    Continue { n: u64 },
    Stepi { n: u64 },
    Break { loc: u64 },
    Delete { args: Seq<u64> },
    Disable { args: Seq<u64> },
    Enable { args: Seq<u64> },
    Examine { fmt: Option<Fmt>, addr: Option<u64> },
    File { path: Seq<char> },
    SetEnv { expr: Option<Seq<char>>, sub: Option<Seq<Seq<char>>> },
    Info { sub: InfoView },
}

/// The mathematical shape of an `info` subcommand.
pub enum InfoView {
    Proc,
    Breakpoints { args: Seq<u64> },
    Registers { names: Seq<Seq<char>> },
}

impl View for Cmd {
    type V = CmdView;

    open spec fn view(&self) -> CmdView {
        match self {
            Cmd::Repeat => CmdView::Repeat,
            Cmd::Run { args } => CmdView::Run { args: args.deep_view() },
            Cmd::Continue { n } => CmdView::Continue { n: *n },
            Cmd::Stepi { n } => CmdView::Stepi { n: *n },
            Cmd::Break { loc } => CmdView::Break { loc: *loc },
            Cmd::Delete { args } => CmdView::Delete { args: args.deep_view() },
            Cmd::Disable { args } => CmdView::Disable { args: args.deep_view() },
            Cmd::Enable { args } => CmdView::Enable { args: args.deep_view() },
            Cmd::Examine { fmt, addr } => CmdView::Examine { fmt: *fmt, addr: *addr },
            Cmd::File { path } => CmdView::File { path: path@ },
            Cmd::SetEnv { expr, cmd } => CmdView::SetEnv {
                expr: match expr {
                    Some(e) => Some(e@),
                    None => None,
                },
                sub: match cmd {
                    Some(SetCmd::Args { args }) => Some(args.deep_view()),
                    None => None,
                },
            },
            Cmd::Info { cmd } => CmdView::Info {
                sub: match cmd {
                    Info::Proc { cmd: p } => InfoView::Proc,
                    Info::Breakpoints { args } => InfoView::Breakpoints { args: args.deep_view() },
                    Info::Registers { names } => InfoView::Registers { names: names.deep_view() },
                },
            },
        }
    }
}

/// What parsing can reject: an unknown command word, or a plain error.
pub enum ErrSpec {
    Undefined(Seq<char>),
    Plain(ErrorKind),
}

/// Whether an error value renders the rejection `es`.
pub open spec fn err_corresponds(es: ErrSpec, e: ErrorKind) -> bool {
    match es {
        ErrSpec::Undefined(t) => e matches ErrorKind::UndefinedCommand(s) && s@ == t,
        ErrSpec::Plain(k) => e == k,
    }
}

/// The characters that separate tokens.
pub open spec fn is_space(c: char) -> bool {
    c == ' ' || c == '\t' || c == '\n' || c == '\r'
}

/// The predicate picking token characters.
pub open spec fn nonspace_pred() -> spec_fn(char) -> bool {
    |c: char| !is_space(c)
}

/// The whitespace-separated tokens of a line, in order.
pub open spec fn spec_tokens(s: Seq<char>) -> Seq<Seq<char>>
    decreases s.len(),
    via spec_tokens_decreases
{
    if s.len() == 0 {
        Seq::empty()
    } else if is_space(s[0]) {
        spec_tokens(s.drop_first())
    } else {
        seq![s.take(prefix_len_while(s, nonspace_pred()))] + spec_tokens(
            s.skip(prefix_len_while(s, nonspace_pred())),
        )
    }
}

#[via_fn]
proof fn spec_tokens_decreases(s: Seq<char>) {
    if s.len() > 0 && !is_space(s[0]) {
        lemma_prefix_len_bounds(s.drop_first(), nonspace_pred());
        assert(prefix_len_while(s, nonspace_pred()) >= 1);
    }
}

/// Whether `c` separates tokens.
fn space_char(c: char) -> (r: bool)
    ensures
        r == is_space(c),
{
    c == ' ' || c == '\t' || c == '\n' || c == '\r'
}

/// Split a line into its whitespace-separated tokens.
fn tokenize(s: &str) -> (toks: Vec<String>)
    ensures
        toks.deep_view() == spec_tokens(s@),
{
    let len = s.unicode_len();
    let mut toks: Vec<String> = Vec::new();
    let mut i: usize = 0;
    proof {
        assert(toks.deep_view() =~~= Seq::<Seq<char>>::empty());
        assert(s@.skip(0) =~= s@);
        assert(toks.deep_view() + spec_tokens(s@) =~~= spec_tokens(s@));
    }
    while i < len
        invariant
            i <= len,
            len == s@.len(),
            spec_tokens(s@) == toks.deep_view() + spec_tokens(s@.skip(i as int)),
        decreases len - i,
    {
        let c = s.get_char(i);
        if space_char(c) {
            proof {
                let t = s@.skip(i as int);
                assert(t[0] == s@[i as int]);
                assert(t.drop_first() =~= s@.skip(i + 1));
            }
            i += 1;
        } else {
            let start = i;
            let mut tok = String::new();
            while i < len && !space_char(s.get_char(i))
                invariant
                    start <= i <= len,
                    len == s@.len(),
                    forall|j: int| start <= j < i ==> !is_space(#[trigger] s@[j]),
                    tok@ =~= s@.subrange(start as int, i as int),
                decreases len - i,
            {
                push_char(&mut tok, s.get_char(i));
                proof {
                    assert(tok@ =~= s@.subrange(start as int, i + 1));
                }
                i += 1;
            }
            let ghost dv = toks.deep_view();
            proof {
                let t = s@.skip(start as int);
                assert(forall|j: int| 0 <= j < t.len() ==> #[trigger] t[j] == s@[start + j]);
                lemma_prefix_len_at(t, nonspace_pred(), i - start);
                assert(t.take(i - start) =~= s@.subrange(start as int, i as int));
                assert(t.skip(i - start) =~= s@.skip(i as int));
                assert(spec_tokens(t) == seq![tok@] + spec_tokens(s@.skip(i as int)));
            }
            toks.push(tok);
            proof {
                assert(toks.deep_view() =~~= dv.push(toks@.last()@));
                assert(dv + (seq![toks@.last()@] + spec_tokens(s@.skip(i as int))) =~~= dv.push(
                    toks@.last()@,
                ) + spec_tokens(s@.skip(i as int)));
            }
        }
    }
    proof {
        assert(s@.skip(len as int) =~= Seq::<char>::empty());
        assert(toks.deep_view() + Seq::<Seq<char>>::empty() =~~= toks.deep_view());
    }
    toks
}

/// The `x/FMT` shorthand: a leading `x/` or `p/` reads as the command word
/// followed by its first argument.
pub open spec fn rewrite_slash(s: Seq<char>) -> Seq<char> {
    if s.len() >= 2 && (s[0] == 'x' || s[0] == 'p') && s[1] == '/' {
        s.update(1, ' ')
    } else {
        s
    }
}

/// Whether the non-empty token `tok` is a prefix of the command name
/// `name`.
pub open spec fn pre_of(tok: Seq<char>, name: Seq<char>) -> bool {
    tok.len() >= 1 && tok.is_prefix_of(name)
}

/// Whether `tok` is a non-empty prefix of `name`.
fn pre_of_exec(tok: &str, name: &str) -> (r: bool)
    ensures
        r == pre_of(tok@, name@),
{
    tok.unicode_len() >= 1 && str_is_prefix(tok, name)
}

/// The command words.
#[derive(Debug, Clone, Copy, PartialEq, Eq)]
pub enum CmdName {
    Run,
    Continue,
    Stepi,
    Break,
    Delete,
    Disable,
    Enable,
    Examine,
    File,
    SetEnv,
    Info,
}

/// How many command words the token could begin.
pub open spec fn cmd_match_count(tok: Seq<char>) -> int {
    (if pre_of(tok, "run"@) {
        1int
    } else {
        0
    }) + (if pre_of(tok, "continue"@) {
        1int
    } else {
        0
    }) + (if pre_of(tok, "stepi"@) {
        1int
    } else {
        0
    }) + (if pre_of(tok, "break"@) {
        1int
    } else {
        0
    }) + (if pre_of(tok, "delete"@) {
        1int
    } else {
        0
    }) + (if pre_of(tok, "disable"@) {
        1int
    } else {
        0
    }) + (if pre_of(tok, "enable"@) {
        1int
    } else {
        0
    }) + (if pre_of(tok, "x"@) {
        1int
    } else {
        0
    }) + (if pre_of(tok, "file"@) {
        1int
    } else {
        0
    }) + (if pre_of(tok, "set"@) {
        1int
    } else {
        0
    }) + (if pre_of(tok, "info"@) {
        1int
    } else {
        0
    })
}

/// The command the token names: the unique command word it begins, if
/// exactly one.
pub open spec fn resolve_spec(tok: Seq<char>) -> Option<CmdName> {
    if cmd_match_count(tok) != 1 {
        None
    } else if pre_of(tok, "run"@) {
        Some(CmdName::Run)
    } else if pre_of(tok, "continue"@) {
        Some(CmdName::Continue)
    } else if pre_of(tok, "stepi"@) {
        Some(CmdName::Stepi)
    } else if pre_of(tok, "break"@) {
        Some(CmdName::Break)
    } else if pre_of(tok, "delete"@) {
        Some(CmdName::Delete)
    } else if pre_of(tok, "disable"@) {
        Some(CmdName::Disable)
    } else if pre_of(tok, "enable"@) {
        Some(CmdName::Enable)
    } else if pre_of(tok, "x"@) {
        Some(CmdName::Examine)
    } else if pre_of(tok, "file"@) {
        Some(CmdName::File)
    } else if pre_of(tok, "set"@) {
        Some(CmdName::SetEnv)
    } else if pre_of(tok, "info"@) {
        Some(CmdName::Info)
    } else {
        None
    }
}

/// Resolve a token to the command it names.
fn resolve(tok: &str) -> (r: Option<CmdName>)
    ensures
        r == resolve_spec(tok@),
{
    let p_run = pre_of_exec(tok, "run");
    let p_continue = pre_of_exec(tok, "continue");
    let p_stepi = pre_of_exec(tok, "stepi");
    let p_break = pre_of_exec(tok, "break");
    let p_delete = pre_of_exec(tok, "delete");
    let p_disable = pre_of_exec(tok, "disable");
    let p_enable = pre_of_exec(tok, "enable");
    let p_x = pre_of_exec(tok, "x");
    let p_file = pre_of_exec(tok, "file");
    let p_set = pre_of_exec(tok, "set");
    let p_info = pre_of_exec(tok, "info");
    let mut count: u64 = 0;
    if p_run {
        count += 1;
    }
    if p_continue {
        count += 1;
    }
    if p_stepi {
        count += 1;
    }
    if p_break {
        count += 1;
    }
    if p_delete {
        count += 1;
    }
    if p_disable {
        count += 1;
    }
    if p_enable {
        count += 1;
    }
    if p_x {
        count += 1;
    }
    if p_file {
        count += 1;
    }
    if p_set {
        count += 1;
    }
    if p_info {
        count += 1;
    }
    if count != 1 {
        return None;
    }
    if p_run {
        Some(CmdName::Run)
    } else if p_continue {
        Some(CmdName::Continue)
    } else if p_stepi {
        Some(CmdName::Stepi)
    } else if p_break {
        Some(CmdName::Break)
    } else if p_delete {
        Some(CmdName::Delete)
    } else if p_disable {
        Some(CmdName::Disable)
    } else if p_enable {
        Some(CmdName::Enable)
    } else if p_x {
        Some(CmdName::Examine)
    } else if p_file {
        Some(CmdName::File)
    } else if p_set {
        Some(CmdName::SetEnv)
    } else {
        Some(CmdName::Info)
    }
}

/// The `info` subcommand words.
#[derive(Debug, Clone, Copy, PartialEq, Eq)]
enum InfoName {
    Proc,
    Breakpoints,
    Registers,
}

/// How many `info` subcommand words the token could begin.
pub open spec fn info_match_count(tok: Seq<char>) -> int {
    (if pre_of(tok, "proc"@) {
        1int
    } else {
        0
    }) + (if pre_of(tok, "breakpoints"@) {
        1int
    } else {
        0
    }) + (if pre_of(tok, "registers"@) {
        1int
    } else {
        0
    })
}

/// The `info` subcommand a token names, if exactly one.
pub open spec fn resolve_info_spec(tok: Seq<char>) -> Option<InfoView> {
    if info_match_count(tok) != 1 {
        None
    } else if pre_of(tok, "proc"@) {
        Some(InfoView::Proc)
    } else if pre_of(tok, "breakpoints"@) {
        Some(InfoView::Breakpoints { args: Seq::empty() })
    } else {
        Some(InfoView::Registers { names: Seq::empty() })
    }
}

/// Resolve a token to the `info` subcommand it names.
fn resolve_info(tok: &str) -> (r: Option<InfoName>)
    ensures
        match r {
            Some(InfoName::Proc) => resolve_info_spec(tok@) == Some(InfoView::Proc),
            Some(InfoName::Breakpoints) => resolve_info_spec(tok@) matches Some(
                InfoView::Breakpoints { args },
            ),
            Some(InfoName::Registers) => resolve_info_spec(tok@) matches Some(
                InfoView::Registers { names },
            ),
            None => resolve_info_spec(tok@) is None,
        },
{
    let p_proc = pre_of_exec(tok, "proc");
    let p_bp = pre_of_exec(tok, "breakpoints");
    let p_reg = pre_of_exec(tok, "registers");
    let mut count: u64 = 0;
    if p_proc {
        count += 1;
    }
    if p_bp {
        count += 1;
    }
    if p_reg {
        count += 1;
    }
    if count != 1 {
        return None;
    }
    if p_proc {
        Some(InfoName::Proc)
    } else if p_bp {
        Some(InfoName::Breakpoints)
    } else {
        Some(InfoName::Registers)
    }
}

/// The breakpoint numbers a list of tokens parses to: every token a
/// decimal number, else nothing.
pub open spec fn parse_ids_spec(toks: Seq<Seq<char>>) -> Option<Seq<u64>>
    decreases toks.len(),
{
    if toks.len() == 0 {
        Some(Seq::empty())
    } else {
        match parse_radix_spec(toks[0], 10) {
            Ok(v) => match parse_ids_spec(toks.drop_first()) {
                Some(rest) => Some(seq![v] + rest),
                None => None,
            },
            Err(e) => None,
        }
    }
}

/// Parse the tokens from position `from` on as decimal breakpoint
/// numbers.
fn parse_ids(toks: &Vec<String>, from: usize) -> (r: Result<Vec<u64>, ErrorKind>)
    requires
        from <= toks@.len(),
    ensures
        match r {
            Ok(v) => parse_ids_spec(toks.deep_view().skip(from as int)) == Some(v@),
            Err(e) => e == ErrorKind::InvalidNumber && parse_ids_spec(
                toks.deep_view().skip(from as int),
            ) is None,
        },
{
    let ghost dv = toks.deep_view();
    let len = toks.len();
    let mut acc: Vec<u64> = Vec::new();
    let mut k: usize = from;
    while k < len
        invariant
            from <= k <= len,
            len == toks@.len(),
            dv == toks.deep_view(),
            dv.len() == len,
            match parse_ids_spec(dv.skip(k as int)) {
                Some(tail) => parse_ids_spec(dv.skip(from as int)) == Some(acc@ + tail),
                None => parse_ids_spec(dv.skip(from as int)) is None,
            },
        decreases len - k,
    {
        proof {
            assert(dv[k as int] == toks@[k as int]@);
        }
        let v = match parse_u64_dec(toks[k].as_str()) {
            Ok(v) => v,
            Err(e) => {
                proof {
                    let t = dv.skip(k as int);
                    assert(t[0] == dv[k as int]);
                }
                return Err(ErrorKind::InvalidNumber);
            },
        };
        proof {
            let t = dv.skip(k as int);
            assert(t[0] == dv[k as int]);
            assert(t.drop_first() =~= dv.skip(k + 1));
        }
        let ghost accpre = acc@;
        acc.push(v);
        proof {
            if parse_ids_spec(dv.skip(k + 1)) is Some {
                let tail = parse_ids_spec(dv.skip(k + 1))->Some_0;
                assert(accpre + (seq![v] + tail) =~= acc@ + tail);
            }
        }
        k += 1;
    }
    proof {
        assert(dv.skip(len as int) =~= Seq::<Seq<char>>::empty());
        assert(acc@ + Seq::<u64>::empty() =~= acc@);
    }
    Ok(acc)
}

/// Clone the tokens from position `from` on.
fn collect_strings(toks: &Vec<String>, from: usize) -> (r: Vec<String>)
    requires
        from <= toks@.len(),
    ensures
        r.deep_view() == toks.deep_view().skip(from as int),
{
    let ghost dv = toks.deep_view();
    let len = toks.len();
    let mut acc: Vec<String> = Vec::new();
    let mut k: usize = from;
    while k < len
        invariant
            from <= k <= len,
            len == toks@.len(),
            dv == toks.deep_view(),
            dv.len() == len,
            acc.deep_view() == dv.subrange(from as int, k as int),
        decreases len - k,
    {
        let ghost vpre = acc@;
        let ghost apre = acc.deep_view();
        let s = toks[k].clone();
        acc.push(s);
        proof {
            assert(dv[k as int] == toks@[k as int]@);
            assert(acc@ == vpre.push(s));
            assert(apre.len() == vpre.len());
            assert(acc.deep_view().len() == acc@.len());
            assert(apre == dv.subrange(from as int, k as int));
            assert(vpre.len() == k - from);
            assert forall|i: int|
                0 <= i < acc.deep_view().len() implies acc.deep_view()[i] == dv.subrange(
                from as int,
                k + 1,
            )[i] by {
                assert(acc.deep_view()[i] == acc@[i].deep_view());
                if i < vpre.len() {
                    assert(acc@[i] == vpre[i]);
                    assert(apre[i] == vpre[i].deep_view());
                    assert(apre[i] == dv.subrange(from as int, k as int)[i]);
                } else {
                    assert(acc@[i] == s);
                    assert(s == toks@[k as int]);
                }
            }
            assert(acc.deep_view() =~= dv.subrange(from as int, k + 1));
        }
        k += 1;
    }
    proof {
        assert(dv.subrange(from as int, len as int) =~~= dv.skip(from as int));
    }
    acc
}

/// What a command line parses to.  The empty line repeats; a leading `x/`
/// or `p/` splits at the slash; the first token picks the command by
/// unique prefix; the rest are that command's arguments.
pub open spec fn parse_command_spec(line: Seq<char>) -> Result<CmdView, ErrSpec> {
    if line.len() == 0 {
        Ok(CmdView::Repeat)
    } else {
        let toks = spec_tokens(rewrite_slash(line));
        if toks.len() == 0 {
            Err(ErrSpec::Undefined(Seq::empty()))
        } else {
            match resolve_spec(toks[0]) {
                None => Err(ErrSpec::Undefined(toks[0])),
                Some(name) => parse_args_spec(name, toks),
            }
        }
    }
}

/// What the arguments of a resolved command parse to.
pub open spec fn parse_args_spec(name: CmdName, toks: Seq<Seq<char>>) -> Result<CmdView, ErrSpec> {
    match name {
        CmdName::Run => Ok(CmdView::Run { args: toks.skip(1) }),
        CmdName::Continue => match parse_count_spec(toks) {
            Ok(n) => Ok(CmdView::Continue { n }),
            Err(e) => Err(e),
        },
        CmdName::Stepi => match parse_count_spec(toks) {
            Ok(n) => Ok(CmdView::Stepi { n }),
            Err(e) => Err(e),
        },
        CmdName::Break => if toks.len() < 2 {
            Err(ErrSpec::Plain(ErrorKind::MissingArgument))
        } else if toks.len() > 2 {
            Err(ErrSpec::Plain(ErrorKind::ExtraArgument))
        } else {
            match parse_addr_spec(toks[1]) {
                Ok(a) => Ok(CmdView::Break { loc: a }),
                Err(e) => Err(ErrSpec::Plain(e)),
            }
        },
        CmdName::Delete => match parse_ids_spec(toks.skip(1)) {
            Some(ids) => Ok(CmdView::Delete { args: ids }),
            None => Err(ErrSpec::Plain(ErrorKind::InvalidNumber)),
        },
        CmdName::Disable => match parse_ids_spec(toks.skip(1)) {
            Some(ids) => Ok(CmdView::Disable { args: ids }),
            None => Err(ErrSpec::Plain(ErrorKind::InvalidNumber)),
        },
        CmdName::Enable => match parse_ids_spec(toks.skip(1)) {
            Some(ids) => Ok(CmdView::Enable { args: ids }),
            None => Err(ErrSpec::Plain(ErrorKind::InvalidNumber)),
        },
        CmdName::Examine => if toks.len() > 3 {
            Err(ErrSpec::Plain(ErrorKind::ExtraArgument))
        } else if toks.len() == 1 {
            Ok(CmdView::Examine { fmt: None, addr: None })
        } else {
            match parse_fmt_spec(toks[1]) {
                Err(e) => Err(ErrSpec::Plain(e)),
                Ok(f) => if toks.len() == 2 {
                    Ok(CmdView::Examine { fmt: Some(f), addr: None })
                } else {
                    match parse_addr_spec(toks[2]) {
                        Ok(a) => Ok(CmdView::Examine { fmt: Some(f), addr: Some(a) }),
                        Err(e) => Err(ErrSpec::Plain(e)),
                    }
                },
            }
        },
        CmdName::File => if toks.len() < 2 {
            Err(ErrSpec::Plain(ErrorKind::MissingArgument))
        } else if toks.len() > 2 {
            Err(ErrSpec::Plain(ErrorKind::ExtraArgument))
        } else {
            Ok(CmdView::File { path: toks[1] })
        },
        CmdName::SetEnv => if toks.len() == 1 {
            Ok(CmdView::SetEnv { expr: None, sub: None })
        } else if pre_of(toks[1], "args"@) {
            Ok(CmdView::SetEnv { expr: None, sub: Some(toks.skip(2)) })
        } else if toks.len() == 2 {
            Ok(CmdView::SetEnv { expr: Some(toks[1]), sub: None })
        } else {
            Err(ErrSpec::Plain(ErrorKind::ExtraArgument))
        },
        CmdName::Info => if toks.len() < 2 {
            Err(ErrSpec::Plain(ErrorKind::MissingArgument))
        } else {
            match resolve_info_spec(toks[1]) {
                None => Err(ErrSpec::Undefined(toks[1])),
                Some(InfoView::Proc) => if toks.len() < 3 {
                    Err(ErrSpec::Plain(ErrorKind::MissingArgument))
                } else if !pre_of(toks[2], "mappings"@) {
                    Err(ErrSpec::Undefined(toks[2]))
                } else if toks.len() > 3 {
                    Err(ErrSpec::Plain(ErrorKind::ExtraArgument))
                } else {
                    Ok(CmdView::Info { sub: InfoView::Proc })
                },
                Some(InfoView::Breakpoints { args }) => match parse_ids_spec(toks.skip(2)) {
                    Some(ids) => Ok(CmdView::Info { sub: InfoView::Breakpoints { args: ids } }),
                    None => Err(ErrSpec::Plain(ErrorKind::InvalidNumber)),
                },
                Some(InfoView::Registers { names }) => Ok(
                    CmdView::Info { sub: InfoView::Registers { names: toks.skip(2) } },
                ),
            }
        },
    }
}

/// The count argument of `continue` and `stepi`: one by default.
pub open spec fn parse_count_spec(toks: Seq<Seq<char>>) -> Result<u64, ErrSpec> {
    if toks.len() == 1 {
        Ok(1u64)
    } else if toks.len() == 2 {
        match parse_radix_spec(toks[1], 10) {
            Ok(v) => Ok(v),
            Err(e) => Err(ErrSpec::Plain(ErrorKind::InvalidNumber)),
        }
    } else {
        Err(ErrSpec::Plain(ErrorKind::ExtraArgument))
    }
}

/// Parse the count argument of `continue` and `stepi`.
fn parse_count(toks: &Vec<String>) -> (r: Result<u64, ErrorKind>)
    requires
        toks@.len() >= 1,
    ensures
        match r {
            Ok(n) => parse_count_spec(toks.deep_view()) == Ok::<u64, ErrSpec>(n),
            Err(e) => parse_count_spec(toks.deep_view()) is Err && err_corresponds(
                parse_count_spec(toks.deep_view())->Err_0,
                e,
            ),
        },
{
    let len = toks.len();
    if len == 1 {
        return Ok(1);
    }
    if len > 2 {
        return Err(ErrorKind::ExtraArgument);
    }
    proof {
        assert(toks.deep_view()[1] == toks@[1]@);
    }
    match parse_u64_dec(toks[1].as_str()) {
        Ok(v) => Ok(v),
        Err(e) => Err(ErrorKind::InvalidNumber),
    }
}

/// Tokenize and parse a command line.
pub fn parse_command(line: &str) -> (r: Result<Cmd, ErrorKind>)
    ensures
        match r {
            Ok(c) => parse_command_spec(line@) == Ok::<CmdView, ErrSpec>(c@),
            Err(e) => parse_command_spec(line@) is Err && err_corresponds(
                parse_command_spec(line@)->Err_0,
                e,
            ),
        },
{
    let len0 = line.unicode_len();
    if len0 == 0 {
        return Ok(Cmd::Repeat);
    }

    // A leading "x/" or "p/" reads as the command word and its argument.
    let c0 = line.get_char(0);
    let rewritten: String = if len0 >= 2 && (c0 == 'x' || c0 == 'p') && line.get_char(1) == '/' {
        let mut t = char_string(c0);
        push_char(&mut t, ' ');
        t.append(line.substring_char(2, len0));
        proof {
            assert(t@ =~= line@.update(1, ' '));
        }
        t
    } else {
        proof {
            assert(rewrite_slash(line@) == line@);
        }
        String::from_str(line)
    };
    proof {
        assert(rewritten@ == rewrite_slash(line@));
    }

    let toks = tokenize(rewritten.as_str());
    let ghost dv = toks.deep_view();
    if toks.len() == 0 {
        proof {
            assert(dv.len() == 0);
        }
        return Err(ErrorKind::UndefinedCommand(String::new()));
    }
    proof {
        assert(dv.len() == toks@.len());
        assert(dv[0] == toks@[0]@);
    }
    let name = match resolve(toks[0].as_str()) {
        Some(name) => name,
        None => {
            return Err(ErrorKind::UndefinedCommand(toks[0].clone()));
        },
    };

    match name {
        CmdName::Run => Ok(Cmd::Run { args: collect_strings(&toks, 1) }),
        CmdName::Continue => match parse_count(&toks) {
            Ok(n) => Ok(Cmd::Continue { n }),
            Err(e) => Err(e),
        },
        CmdName::Stepi => match parse_count(&toks) {
            Ok(n) => Ok(Cmd::Stepi { n }),
            Err(e) => Err(e),
        },
        CmdName::Break => {
            if toks.len() < 2 {
                return Err(ErrorKind::MissingArgument);
            }
            if toks.len() > 2 {
                return Err(ErrorKind::ExtraArgument);
            }
            proof {
                assert(dv[1] == toks@[1]@);
            }
            match parse_addr(toks[1].as_str()) {
                Ok(a) => Ok(Cmd::Break { loc: a }),
                Err(e) => Err(e),
            }
        },
        CmdName::Delete => match parse_ids(&toks, 1) {
            Ok(ids) => {
                proof {
                    assert(ids.deep_view() =~= ids@);
                }
                Ok(Cmd::Delete { args: ids })
            },
            Err(e) => Err(e),
        },
        CmdName::Disable => match parse_ids(&toks, 1) {
            Ok(ids) => {
                proof {
                    assert(ids.deep_view() =~= ids@);
                }
                Ok(Cmd::Disable { args: ids })
            },
            Err(e) => Err(e),
        },
        CmdName::Enable => match parse_ids(&toks, 1) {
            Ok(ids) => {
                proof {
                    assert(ids.deep_view() =~= ids@);
                }
                Ok(Cmd::Enable { args: ids })
            },
            Err(e) => Err(e),
        },
        CmdName::Examine => {
            if toks.len() > 3 {
                return Err(ErrorKind::ExtraArgument);
            }
            if toks.len() == 1 {
                return Ok(Cmd::Examine { fmt: None, addr: None });
            }
            proof {
                assert(dv[1] == toks@[1]@);
            }
            let f = match parse_fmt(toks[1].as_str()) {
                Ok(f) => f,
                Err(e) => {
                    return Err(e);
                },
            };
            if toks.len() == 2 {
                return Ok(Cmd::Examine { fmt: Some(f), addr: None });
            }
            proof {
                assert(dv[2] == toks@[2]@);
            }
            match parse_addr(toks[2].as_str()) {
                Ok(a) => Ok(Cmd::Examine { fmt: Some(f), addr: Some(a) }),
                Err(e) => Err(e),
            }
        },
        CmdName::File => {
            if toks.len() < 2 {
                return Err(ErrorKind::MissingArgument);
            }
            if toks.len() > 2 {
                return Err(ErrorKind::ExtraArgument);
            }
            proof {
                assert(dv[1] == toks@[1]@);
            }
            Ok(Cmd::File { path: toks[1].clone() })
        },
        CmdName::SetEnv => {
            if toks.len() == 1 {
                return Ok(Cmd::SetEnv { expr: None, cmd: None });
            }
            proof {
                assert(dv[1] == toks@[1]@);
            }
            if pre_of_exec(toks[1].as_str(), "args") {
                let args = collect_strings(&toks, 2);
                return Ok(Cmd::SetEnv { expr: None, cmd: Some(SetCmd::Args { args }) });
            }
            if toks.len() == 2 {
                return Ok(Cmd::SetEnv { expr: Some(toks[1].clone()), cmd: None });
            }
            Err(ErrorKind::ExtraArgument)
        },
        CmdName::Info => {
            if toks.len() < 2 {
                return Err(ErrorKind::MissingArgument);
            }
            proof {
                assert(dv[1] == toks@[1]@);
            }
            let sub = match resolve_info(toks[1].as_str()) {
                Some(sub) => sub,
                None => {
                    return Err(ErrorKind::UndefinedCommand(toks[1].clone()));
                },
            };
            match sub {
                InfoName::Proc => {
                    if toks.len() < 3 {
                        return Err(ErrorKind::MissingArgument);
                    }
                    proof {
                        assert(dv[2] == toks@[2]@);
                    }
                    if !pre_of_exec(toks[2].as_str(), "mappings") {
                        return Err(ErrorKind::UndefinedCommand(toks[2].clone()));
                    }
                    if toks.len() > 3 {
                        return Err(ErrorKind::ExtraArgument);
                    }
                    Ok(Cmd::Info { cmd: Info::Proc { cmd: Proc::Mappings } })
                },
                InfoName::Breakpoints => match parse_ids(&toks, 2) {
                    Ok(ids) => {
                        proof {
                            assert(ids.deep_view() =~= ids@);
                        }
                        Ok(Cmd::Info { cmd: Info::Breakpoints { args: ids } })
                    },
                    Err(e) => Err(e),
                },
                InfoName::Registers => Ok(
                    Cmd::Info { cmd: Info::Registers { names: collect_strings(&toks, 2) } },
                ),
            }
        },
    }
}

} // verus!
