//! Command-line arguments: parsing into a command, positional arguments,
//! value options and flags, the options and flags each command accepts,
//! and the failures reported for bad usage. Running commands stays with
//! the host program.
use crate::compat::strings_of;
use crate::identity::{id_message, PlanId};
use crate::text::{owned, push_str, str_eq};
use crate::text_map::{entries_map, lookup, TextMap};
use vstd::prelude::*;

verus! {

/// A command failure: the command, a machine code, a message, and whether
/// output is JSON.
#[derive(Debug, Clone, PartialEq, Eq)]
pub struct CliFailure {
    pub command: String,
    pub code: String,
    pub message: String,
    pub json: bool,
}

/// Value of a failure.
pub struct FailureV {
    pub command: Seq<char>,
    pub code: Seq<char>,
    pub message: Seq<char>,
    pub json: bool,
}

impl View for CliFailure {
    type V = FailureV;

    open spec fn view(&self) -> FailureV {
        FailureV { command: self.command@, code: self.code@, message: self.message@, json: self.json }
    }
}

/// A failure of a command.
pub fn failure(command: &str, code: &str, message: String, json: bool) -> (r: CliFailure)
    ensures
        r@ == (FailureV { command: command@, code: code@, message: message@, json }),
{
    CliFailure { command: owned(command), code: owned(code), message, json }
}

/// The usage text.
pub open spec fn usage_text() -> Seq<char> {
    "eggplan [--state-root PATH] [--json] COMMAND\nCommands: init, new --input PLAN.json, show PLAN_ID, status [PLAN_ID], ready PLAN_ID, graph PLAN_ID, check [PLAN_ID] [--recover-pending], activate PLAN_ID --expected-revision N, item update PLAN_ID ITEM_ID --expected-revision N (--status STATUS | --blocker TEXT | --next-action TEXT), evidence list|show|supersessions, assess PLAN_ID --provider-policy FILE, close PLAN_ID --expected-revision N --provider-policy FILE, closure show PLAN_ID, registry render"@
}

/// The usage text (see `usage_text`).
pub fn usage() -> (r: String)
    ensures
        r@ == usage_text(),
{
    owned(
        "eggplan [--state-root PATH] [--json] COMMAND\nCommands: init, new --input PLAN.json, show PLAN_ID, status [PLAN_ID], ready PLAN_ID, graph PLAN_ID, check [PLAN_ID] [--recover-pending], activate PLAN_ID --expected-revision N, item update PLAN_ID ITEM_ID --expected-revision N (--status STATUS | --blocker TEXT | --next-action TEXT), evidence list|show|supersessions, assess PLAN_ID --provider-policy FILE, close PLAN_ID --expected-revision N --provider-policy FILE, closure show PLAN_ID, registry render",
    )
}

/// An option that takes the next argument as its value.
pub open spec fn value_option(a: Seq<char>) -> bool {
    a == "--state-root"@ || a == "--input"@ || a == "--expected-revision"@ || a == "--provider-policy"@ || a
        == "--status"@ || a == "--blocker"@ || a == "--next-action"@
}

/// Whether an argument is a value option (see `value_option`).
pub fn is_value_option(value: &str) -> (r: bool)
    ensures
        r == value_option(value@),
{
    str_eq(value, "--state-root") || str_eq(value, "--input") || str_eq(value, "--expected-revision") || str_eq(
        value,
        "--provider-policy",
    ) || str_eq(value, "--status") || str_eq(value, "--blocker") || str_eq(value, "--next-action")
}

/// Arguments read so far.
pub struct ArgsV {
    pub command: Option<Seq<char>>,
    pub positional: Seq<Seq<char>>,
    pub options: Map<Seq<char>, Seq<char>>,
    pub help: bool,
    pub recover_pending: bool,
    pub json: bool,
}

/// The command a failure names while parsing: the command read so far,
/// or `usage`.
pub open spec fn context_command(c: Option<Seq<char>>) -> Seq<char> {
    match c {
        Some(x) => x,
        None => "usage"@,
    }
}

/// A usage failure while parsing.
pub open spec fn usage_failure(st: ArgsV, message: Seq<char>) -> FailureV {
    FailureV { command: context_command(st.command), code: "usage"@, message, json: st.json }
}

/// Reads the arguments from position `i` on: `--json`, `--recover-pending`
/// and `--help`/`-h` set flags; a value option takes the next argument,
/// once; another argument starting with `-` is refused; the first other
/// argument is the command, the rest are positional.
pub open spec fn parse_from(args: Seq<Seq<char>>, i: int, st: ArgsV) -> Result<ArgsV, FailureV>
    decreases args.len() - i,
{
    if i < 0 || i >= args.len() {
        Ok(st)
    } else {
        let a = args[i];
        if a == "--json"@ {
            parse_from(args, i + 1, ArgsV { json: true, ..st })
        } else if a == "--recover-pending"@ {
            parse_from(args, i + 1, ArgsV { recover_pending: true, ..st })
        } else if a == "--help"@ || a == "-h"@ {
            parse_from(args, i + 1, ArgsV { help: true, ..st })
        } else if value_option(a) {
            if i + 1 >= args.len() {
                Err(usage_failure(st, "missing value for "@ + a))
            } else if st.options.dom().contains(a) {
                Err(usage_failure(st, "duplicate option "@ + a))
            } else {
                parse_from(args, i + 2, ArgsV { options: st.options.insert(a, args[i + 1]), ..st })
            }
        } else if a.len() > 0 && a[0] == '-' {
            Err(usage_failure(st, "unknown option "@ + a))
        } else if st.command is None {
            parse_from(args, i + 1, ArgsV { command: Some(a), ..st })
        } else {
            parse_from(args, i + 1, ArgsV { positional: st.positional.push(a), ..st })
        }
    }
}

/// Nothing read.
pub open spec fn initial_args() -> ArgsV {
    ArgsV {
        command: None,
        positional: Seq::empty(),
        options: Map::empty(),
        help: false,
        recover_pending: false,
        json: false,
    }
}

/// The parse of a whole argument list: no arguments, or no command without
/// `--help`, fails with the usage text; `--help` alone is the `help`
/// command.
pub open spec fn parse_spec(args: Seq<Seq<char>>) -> Result<ArgsV, FailureV> {
    if args.len() == 0 {
        Err(FailureV { command: "help"@, code: "usage"@, message: usage_text(), json: false })
    } else {
        match parse_from(args, 0, initial_args()) {
            Err(f) => Err(f),
            Ok(st) => match st.command {
                Some(_) => Ok(st),
                None => if st.help {
                    Ok(ArgsV { command: Some("help"@), ..st })
                } else {
                    Err(FailureV { command: "usage"@, code: "usage"@, message: usage_text(), json: st.json })
                },
            },
        }
    }
}

/// Parsed arguments.
#[derive(Debug)]
pub struct ParsedArgs {
    pub command: String,
    pub positional: Vec<String>,
    pub options: TextMap,
    pub help: bool,
    pub recover_pending: bool,
    pub json: bool,
}

/// The value of parsed arguments.
pub open spec fn args_view(p: ParsedArgs) -> ArgsV {
    ArgsV {
        command: Some(p.command@),
        positional: strings_of(p.positional@),
        options: entries_map(p.options@),
        help: p.help,
        recover_pending: p.recover_pending,
        json: p.json,
    }
}

fn usage_failure_of(command: &Option<String>, message: String, json: bool) -> (r: CliFailure)
    ensures
        r@ == (FailureV {
            command: context_command(crate::compat::opt_text(*command)),
            code: "usage"@,
            message: message@,
            json,
        }),
{
    proof {
        reveal_strlit("usage");
    }
    match command {
        Some(c) => failure(c.as_str(), "usage", message, json),
        None => failure("usage", "usage", message, json),
    }
}

fn prefixed(prefix: &str, a: &str) -> (r: String)
    ensures
        r@ == prefix@ + a@,
{
    let mut m = owned(prefix);
    push_str(&mut m, a);
    m
}

fn starts_with_dash(a: &str) -> (r: bool)
    ensures
        r == (a@.len() > 0 && a@[0] == '-'),
{
    let cs = crate::text::chars_of(a);
    cs.len() > 0 && cs[0] == '-'
}

/// Parses the arguments (see `parse_spec`).
pub fn parse_args(args: &[String]) -> (r: Result<ParsedArgs, CliFailure>)
    ensures
        match r {
            Ok(p) => parse_spec(strings_of(args@)) == Ok::<ArgsV, FailureV>(args_view(p)),
            Err(f) => parse_spec(strings_of(args@)) == Err::<ArgsV, FailureV>(f@),
        },
{
    let ghost av = strings_of(args@);
    proof {
        reveal_strlit("help");
        reveal_strlit("usage");
        reveal_strlit("--json");
        reveal_strlit("--recover-pending");
        reveal_strlit("--help");
        reveal_strlit("-h");
    }
    if args.len() == 0 {
        return Err(failure("help", "usage", usage(), false));
    }
    let mut command: Option<String> = None;
    let mut positional: Vec<String> = Vec::new();
    let mut options = TextMap::new();
    let mut help = false;
    let mut recover_pending = false;
    let mut json = false;
    proof {
        assert(entries_map(options@) =~= Map::<Seq<char>, Seq<char>>::empty());
        assert(strings_of(positional@) =~= Seq::<Seq<char>>::empty());
    }
    let mut i: usize = 0;
    while i < args.len()
        invariant
            i <= args@.len(),
            av == strings_of(args@),
            parse_from(av, 0, initial_args()) == parse_from(
                av,
                i as int,
                ArgsV {
                    command: crate::compat::opt_text(command),
                    positional: strings_of(positional@),
                    options: entries_map(options@),
                    help,
                    recover_pending,
                    json,
                },
            ),
        decreases args.len() - i,
    {
        let ghost st = ArgsV {
            command: crate::compat::opt_text(command),
            positional: strings_of(positional@),
            options: entries_map(options@),
            help,
            recover_pending,
            json,
        };
        let a = &args[i];
        assert(av[i as int] == a@);
        if str_eq(a.as_str(), "--json") {
            json = true;
        } else if str_eq(a.as_str(), "--recover-pending") {
            recover_pending = true;
        } else if str_eq(a.as_str(), "--help") || str_eq(a.as_str(), "-h") {
            help = true;
        } else if is_value_option(a.as_str()) {
            if i + 1 >= args.len() {
                proof {
                    reveal_strlit("missing value for ");
                }
                let m = prefixed("missing value for ", a.as_str());
                return Err(usage_failure_of(&command, m, json));
            }
            let value = args[i + 1].clone();
            assert(av[i + 1] == value@);
            let previous = options.insert(a.clone(), value);
            if previous.is_some() {
                proof {
                    reveal_strlit("duplicate option ");
                }
                let m = prefixed("duplicate option ", a.as_str());
                return Err(usage_failure_of(&command, m, json));
            }
            i = i + 1;
        } else if starts_with_dash(a.as_str()) {
            proof {
                reveal_strlit("unknown option ");
            }
            let m = prefixed("unknown option ", a.as_str());
            return Err(usage_failure_of(&command, m, json));
        } else if command.is_none() {
            command = Some(a.clone());
        } else {
            positional.push(a.clone());
            assert(strings_of(positional@) =~= st.positional.push(a@));
        }
        i = i + 1;
    }
    match command {
        Some(c) => Ok(ParsedArgs { command: c, positional, options, help, recover_pending, json }),
        None => {
            if help {
                Ok(ParsedArgs { command: owned("help"), positional, options, help, recover_pending, json })
            } else {
                Err(failure("usage", "usage", usage(), json))
            }
        },
    }
}

/// A command whose options and flags are checked.
pub open spec fn known_command(c: Seq<char>) -> bool {
    c == "init"@ || c == "new"@ || c == "show"@ || c == "status"@ || c == "ready"@ || c == "graph"@ || c
        == "registry"@ || c == "closure"@ || c == "evidence"@ || c == "check"@ || c == "activate"@ || c == "item"@
        || c == "assess"@ || c == "close"@ || c == "help"@
}

/// A value option a command accepts: `--state-root` everywhere, and the
/// command's own.
pub open spec fn option_allowed(c: Seq<char>, k: Seq<char>) -> bool {
    ||| k == "--state-root"@
    ||| c == "new"@ && k == "--input"@
    ||| c == "check"@ && k == "--provider-policy"@
    ||| c == "activate"@ && k == "--expected-revision"@
    ||| c == "item"@ && (k == "--expected-revision"@ || k == "--status"@ || k == "--blocker"@ || k == "--next-action"@)
    ||| c == "assess"@ && k == "--provider-policy"@
    ||| c == "close"@ && (k == "--expected-revision"@ || k == "--provider-policy"@)
}

/// The first key among the first `n` entries that the command does not
/// accept.
pub open spec fn first_disallowed(c: Seq<char>, e: Seq<(Seq<char>, Seq<char>)>, n: int) -> Option<Seq<char>>
    decreases n,
{
    if n <= 0 {
        None
    } else if first_disallowed(c, e, n - 1) is Some {
        first_disallowed(c, e, n - 1)
    } else if !option_allowed(c, e[n - 1].0) {
        Some(e[n - 1].0)
    } else {
        None
    }
}

/// What a known command refuses, in order: an option it does not accept
/// (the first in key order), then `--help` outside `help`, then
/// `--recover-pending` outside `check`. Other commands are not checked.
pub open spec fn command_options_fault(p: ParsedArgs) -> Option<Seq<char>> {
    let c = p.command@;
    if !known_command(c) {
        None
    } else if first_disallowed(c, p.options@, p.options@.len() as int) is Some {
        Some("option "@ + first_disallowed(c, p.options@, p.options@.len() as int)->0 + " is not valid for this command"@)
    } else if p.help && c != "help"@ {
        Some("flag --help is not valid for this command"@)
    } else if p.recover_pending && c != "check"@ {
        Some("flag --recover-pending is not valid for this command"@)
    } else {
        None
    }
}

fn known_command_check(c: &str) -> (r: bool)
    ensures
        r == known_command(c@),
{
    str_eq(c, "init") || str_eq(c, "new") || str_eq(c, "show") || str_eq(c, "status") || str_eq(c, "ready") || str_eq(
        c,
        "graph",
    ) || str_eq(c, "registry") || str_eq(c, "closure") || str_eq(c, "evidence") || str_eq(c, "check") || str_eq(
        c,
        "activate",
    ) || str_eq(c, "item") || str_eq(c, "assess") || str_eq(c, "close") || str_eq(c, "help")
}

fn option_allowed_check(c: &str, k: &str) -> (r: bool)
    ensures
        r == option_allowed(c@, k@),
{
    str_eq(k, "--state-root") || (str_eq(c, "new") && str_eq(k, "--input")) || (str_eq(c, "check") && str_eq(
        k,
        "--provider-policy",
    )) || (str_eq(c, "activate") && str_eq(k, "--expected-revision")) || (str_eq(c, "item") && (str_eq(
        k,
        "--expected-revision",
    ) || str_eq(k, "--status") || str_eq(k, "--blocker") || str_eq(k, "--next-action"))) || (str_eq(c, "assess")
        && str_eq(k, "--provider-policy")) || (str_eq(c, "close") && (str_eq(k, "--expected-revision") || str_eq(
        k,
        "--provider-policy",
    )))
}

/// Checks the options and flags a command was given (see
/// `command_options_fault`).
pub fn validate_command_options(args: &ParsedArgs) -> (r: Result<(), CliFailure>)
    ensures
        match command_options_fault(*args) {
            Some(m) => r matches Err(f) && f@ == (FailureV { command: args.command@, code: "usage"@, message: m, json: args.json }),
            None => r is Ok,
        },
{
    proof {
        reveal_strlit("usage");
        reveal_strlit("help");
        reveal_strlit("check");
    }
    let c = args.command.as_str();
    if !known_command_check(c) {
        return Ok(());
    }
    let entries = args.options.entries();
    let mut i: usize = 0;
    while i < entries.len()
        invariant
            i <= entries@.len(),
            crate::text_map::entry_views(entries@) == args.options@,
            c@ == args.command@,
            known_command(c@),
            first_disallowed(c@, args.options@, i as int) is None,
        decreases entries.len() - i,
    {
        let k = entries[i].0.as_str();
        assert(args.options@[i as int].0 == k@);
        if !option_allowed_check(c, k) {
            proof {
                reveal_strlit("option ");
                reveal_strlit(" is not valid for this command");
                lemma_first_disallowed_stable(c@, args.options@, i + 1, args.options@.len() as int);
            }
            let mut m = owned("option ");
            push_str(&mut m, k);
            push_str(&mut m, " is not valid for this command");
            return Err(failure(c, "usage", m, args.json));
        }
        i = i + 1;
    }
    if args.help && !str_eq(c, "help") {
        return Err(failure(c, "usage", owned("flag --help is not valid for this command"), args.json));
    }
    if args.recover_pending && !str_eq(c, "check") {
        return Err(failure(c, "usage", owned("flag --recover-pending is not valid for this command"), args.json));
    }
    Ok(())
}

proof fn lemma_first_disallowed_stable(c: Seq<char>, e: Seq<(Seq<char>, Seq<char>)>, n: int, m: int)
    requires
        0 <= n <= m,
        first_disallowed(c, e, n) is Some,
    ensures
        first_disallowed(c, e, m) == first_disallowed(c, e, n),
    decreases m - n,
{
    if m > n {
        lemma_first_disallowed_stable(c, e, n, m - 1);
    }
}

/// The value of a required option, or a usage failure naming it.
pub fn required_option<'a>(args: &'a ParsedArgs, key: &str) -> (r: Result<&'a str, CliFailure>)
    ensures
        match lookup(args.options@, key@) {
            Some(v) => r matches Ok(x) && x@ == v,
            None => r matches Err(f) && f@ == (FailureV {
                command: args.command@,
                code: "usage"@,
                message: "required option "@ + key@ + " is missing"@,
                json: args.json,
            }),
        },
{
    proof {
        reveal_strlit("usage");
        reveal_strlit("required option ");
        reveal_strlit(" is missing");
    }
    match args.options.get(key) {
        Some(v) => Ok(v.as_str()),
        None => {
            let mut m = owned("required option ");
            push_str(&mut m, key);
            push_str(&mut m, " is missing");
            Err(failure(args.command.as_str(), "usage", m, args.json))
        },
    }
}

/// Checks the number of positional arguments; otherwise a usage failure
/// with the usage text.
pub fn require_positions(args: &ParsedArgs, min: usize, max: usize) -> (r: Result<(), CliFailure>)
    ensures
        r is Ok <==> (min <= args.positional@.len() <= max),
        r matches Err(f) ==> f@ == (FailureV { command: args.command@, code: "usage"@, message: usage_text(), json: args.json }),
{
    proof {
        reveal_strlit("usage");
    }
    if args.positional.len() < min || args.positional.len() > max {
        return Err(failure(args.command.as_str(), "usage", usage(), args.json));
    }
    Ok(())
}

/// An ASCII digit.
pub open spec fn digit(c: char) -> bool {
    '0' <= c && c <= '9'
}

/// The number decimal digits denote.
pub open spec fn digits_value(d: Seq<char>) -> nat
    decreases d.len(),
{
    if d.len() == 0 {
        0
    } else {
        digits_value(d.drop_last()) * 10 + ((d.last() as nat) - ('0' as nat)) as nat
    }
}

/// The digits of an unsigned number's text: without one leading `+`.
pub open spec fn unsigned_digits(s: Seq<char>) -> Seq<char> {
    if s.len() > 0 && s[0] == '+' {
        s.drop_first()
    } else {
        s
    }
}

/// Every character is a decimal digit.
pub open spec fn all_digits(d: Seq<char>) -> bool {
    forall|i: int| 0 <= i < d.len() ==> digit(#[trigger] d[i])
}

/// The unsigned 64-bit number a text denotes (as `u64::from_str` reads
/// it): an optional `+`, then one or more decimal digits, at most
/// `u64::MAX`.
pub open spec fn parse_u64(s: Seq<char>) -> Option<u64> {
    let d = unsigned_digits(s);
    if d.len() == 0 || !all_digits(d) || digits_value(d) > u64::MAX {
        None
    } else {
        Some(digits_value(d) as u64)
    }
}

proof fn lemma_digits_value_grows(d: Seq<char>, i: int)
    requires
        0 <= i <= d.len(),
        forall|k: int| 0 <= k < d.len() ==> digit(#[trigger] d[k]),
    ensures
        digits_value(d.take(i)) <= digits_value(d),
    decreases d.len() - i,
{
    if i < d.len() {
        lemma_digits_value_grows(d, i + 1);
        assert(d.take(i + 1).drop_last() =~= d.take(i));
        assert(digit(d[i]));
    } else {
        assert(d.take(i) =~= d);
    }
}

/// Reads an unsigned number (see `parse_u64`).
pub fn read_u64(s: &str) -> (r: Option<u64>)
    ensures
        r == parse_u64(s@),
{
    let cs = crate::text::chars_of(s);
    let start: usize = if cs.len() > 0 && cs[0] == '+' {
        1
    } else {
        0
    };
    let ghost d = unsigned_digits(s@);
    assert(d =~= cs@.subrange(start as int, cs@.len() as int));
    if start >= cs.len() {
        return None;
    }
    let mut acc: u64 = 0;
    let mut i: usize = start;
    while i < cs.len()
        invariant
            start <= i <= cs@.len(),
            cs@ == s@,
            d == cs@.subrange(start as int, cs@.len() as int),
            d == unsigned_digits(s@),
            d.len() > 0,
            forall|k: int| 0 <= k < i - start ==> digit(#[trigger] d[k]),
            acc == digits_value(d.take(i - start)),
        decreases cs.len() - i,
    {
        let c = cs[i];
        assert(d[i - start] == c);
        assert(d.take(i - start + 1).drop_last() =~= d.take(i - start));
        if !('0' <= c && c <= '9') {
            proof {
                let k = (i - start) as int;
                assert(0 <= k < d.len());
                assert(!digit(d[k]));
                assert(!all_digits(d));
                assert(parse_u64(s@) is None);
            }
            return None;
        }
        let v = (c as u32 - '0' as u32) as u64;
        let next = match acc.checked_mul(10) {
            Some(m) => m.checked_add(v),
            None => None,
        };
        match next {
            Some(n) => {
                acc = n;
            },
            None => {
                proof {
                    let j = i - start + 1;
                    assert(d.take(j).last() == c);
                    assert(d.take(j).drop_last() =~= d.take(j - 1));
                    assert(digits_value(d.take(j)) == acc * 10 + v);
                    assert(digits_value(d.take(j)) > u64::MAX);
                    if all_digits(d) {
                        lemma_digits_value_grows(d, j);
                        assert(digits_value(d) > u64::MAX);
                    }
                    assert(parse_u64(s@) is None);
                }
                return None;
            },
        }
        i = i + 1;
    }
    assert(d.take(d.len() as int) =~= d);
    Some(acc)
}

/// The expected revision option as a number; a usage failure when it is
/// missing, an `invalid_revision` failure when it is not a number.
pub fn expected_revision(args: &ParsedArgs) -> (r: Result<u64, CliFailure>)
    ensures
        match lookup(args.options@, "--expected-revision"@) {
            None => r matches Err(f) && f.code@ == "usage"@,
            Some(v) => match parse_u64(v) {
                Some(n) => r == Ok::<u64, CliFailure>(n),
                None => r matches Err(f) && f@ == (FailureV {
                    command: args.command@,
                    code: "invalid_revision"@,
                    message: "expected revision must be a nonnegative integer"@,
                    json: args.json,
                }),
            },
        },
{
    let raw = required_option(args, "--expected-revision")?;
    match read_u64(raw) {
        Some(n) => Ok(n),
        None => Err(
            failure(
                args.command.as_str(),
                "invalid_revision",
                owned("expected revision must be a nonnegative integer"),
                args.json,
            ),
        ),
    }
}

/// A plan identifier argument; an `invalid_id` failure with the reason
/// otherwise.
pub fn plan_id(raw: &str, command: &str, json: bool) -> (r: Result<PlanId, CliFailure>)
    ensures
        match r {
            Ok(id) => id@ == raw@ && crate::identity::valid_id(raw@, "ep_"@),
            Err(f) => crate::identity::id_error(raw@, "ep_") matches Some(e) && f@ == (FailureV {
                command: command@,
                code: "invalid_id"@,
                message: id_message(e),
                json,
            }),
        },
{
    match PlanId::new(raw) {
        Ok(id) => Ok(id),
        Err(e) => Err(failure(command, "invalid_id", e.message(), json)),
    }
}

} // verus!
