//! The command line: `lock [INPUT]`, `lock verify`, and `lock witness`.

use vstd::prelude::*;
use crate::json::opt_view;
use crate::text::{chars_of, text_eq};

verus! {

/// Parsed arguments of the `lock` command.
#[derive(Debug, Clone)]
pub struct Cli {
    pub command: Option<Command>,
    /// JSONL input file; standard input when absent.
    pub input: Option<String>,
    pub dataset_id: Option<String>,
    pub as_of: Option<String>,
    pub note: Option<String>,
    pub no_witness: bool,
    pub describe: bool,
    pub schema: bool,
}

/// Subcommands.
#[derive(Debug, Clone)]
pub enum Command {
    /// Verify a lockfile against its self-hash and, with a root, the files.
    Verify(VerifyArgs),
    /// Query the witness ledger.
    Witness { action: WitnessAction },
}

/// Arguments of `lock verify`.
#[derive(Debug, Clone)]
pub struct VerifyArgs {
    pub lockfile: String,
    pub root: Option<String>,
    pub json: bool,
    pub no_witness: bool,
    pub strict: bool,
}

/// Filters shared by `witness query` and `witness count`.
#[derive(Debug, Clone, Default)]
pub struct WitnessFilters {
    pub tool: Option<String>,
    pub since: Option<String>,
    pub until: Option<String>,
    pub outcome: Option<String>,
    pub input_hash: Option<String>,
}

/// Witness subcommands.
#[derive(Debug, Clone)]
pub enum WitnessAction {
    Query { filters: WitnessFilters, limit: usize, json: bool },
    Last { json: bool },
    Count { filters: WitnessFilters, json: bool },
}

/// Why the arguments were rejected.
#[derive(Debug, Clone, PartialEq, Eq)]
pub enum CliError {
    /// A flag that the command does not take.
    UnknownArgument(String),
    /// A flag that needs a value came last.
    MissingValue(String),
    /// A value that does not parse, such as a non-numeric limit.
    InvalidValue(String),
    /// A flag given twice.
    Repeated(String),
    /// A positional argument with no place.
    UnexpectedArgument(String),
    /// `witness` or `verify` without what it needs.
    MissingSubcommand(String),
}

/// The default number of records `witness query` lists.
pub const DEFAULT_LIMIT: usize = 20;

/// Whether a token is a flag.
pub open spec fn is_flag(t: Seq<char>) -> bool {
    t.len() > 1 && t[0] == '-'
}

fn starts_with_dash(t: &str) -> (r: bool)
    ensures
        r == is_flag(t@),
{
    let cs = chars_of(t);
    cs.len() > 1 && cs[0] == '-'
}

/// Whether the character is an ASCII digit.
pub open spec fn is_digit(c: char) -> bool {
    '0' <= c && c <= '9'
}

/// The value of a text of decimal digits.
pub open spec fn digits_value(s: Seq<char>) -> nat
    decreases s.len(),
{
    if s.len() == 0 {
        0
    } else {
        digits_value(s.drop_last()) * 10 + ((s.last() as u32) - ('0' as u32)) as nat
    }
}

/// Whether every character is a digit.
pub open spec fn all_digits(s: Seq<char>) -> bool {
    forall|i: int| 0 <= i < s.len() ==> is_digit(#[trigger] s[i])
}

proof fn lemma_digits_monotone(s: Seq<char>, k: int)
    requires
        0 <= k <= s.len(),
        all_digits(s),
    ensures
        digits_value(s.take(k)) <= digits_value(s),
    decreases s.len() - k,
{
    if k < s.len() {
        lemma_digits_monotone(s, k + 1);
        assert(s.take(k + 1).drop_last() =~= s.take(k));
        assert(digits_value(s.take(k)) <= digits_value(s.take(k)) * 10) by (nonlinear_arith);
    } else {
        assert(s.take(k) =~= s);
    }
}

/// Parses a decimal limit.
pub fn parse_limit(t: &str) -> (r: Option<usize>)
    ensures
        match r {
            Some(n) => t@.len() > 0 && all_digits(t@) && n == digits_value(t@),
            None => t@.len() == 0 || !all_digits(t@) || digits_value(t@) > usize::MAX,
        },
{
    let cs = chars_of(t);
    if cs.len() == 0 {
        return None;
    }
    let mut n: usize = 0;
    let mut i: usize = 0;
    while i < cs.len()
        invariant
            i <= cs@.len(),
            cs@ == t@,
            all_digits(cs@.take(i as int)),
            n == digits_value(cs@.take(i as int)),
        decreases cs.len() - i,
    {
        let c = cs[i];
        if !('0' <= c && c <= '9') {
            return None;
        }
        let d: usize = ((c as u32) - ('0' as u32)) as usize;
        assert(cs@.take(i + 1).drop_last() =~= cs@.take(i as int));
        assert(all_digits(cs@.take(i + 1)));
        if n > (usize::MAX - d) / 10 {
            proof {
                assert(n * 10 + d > usize::MAX) by (nonlinear_arith)
                    requires n > (usize::MAX - d) / 10, d <= 9;
                lemma_digits_monotone_all(cs@, i + 1);
            }
            return None;
        }
        assert(n * 10 + d <= usize::MAX) by (nonlinear_arith)
            requires n <= (usize::MAX - d) / 10, d <= 9;
        n = n * 10 + d;
        i = i + 1;
    }
    assert(cs@.take(i as int) =~= cs@);
    Some(n)
}

/// The filters of a witness query, as texts.
pub struct FiltersView {
    pub tool: Option<Seq<char>>,
    pub since: Option<Seq<char>>,
    pub until: Option<Seq<char>>,
    pub outcome: Option<Seq<char>>,
    pub input_hash: Option<Seq<char>>,
}

pub enum ActionView {
    Query { filters: FiltersView, limit: usize, json: bool },
    Last { json: bool },
    Count { filters: FiltersView, json: bool },
}

pub struct VerifyView {
    pub lockfile: Seq<char>,
    pub root: Option<Seq<char>>,
    pub json: bool,
    pub no_witness: bool,
    pub strict: bool,
}

pub enum CommandView {
    Verify(VerifyView),
    Witness(ActionView),
}

pub struct CliView {
    pub command: Option<CommandView>,
    pub input: Option<Seq<char>>,
    pub dataset_id: Option<Seq<char>>,
    pub as_of: Option<Seq<char>>,
    pub note: Option<Seq<char>>,
    pub no_witness: bool,
    pub describe: bool,
    pub schema: bool,
}

impl View for WitnessFilters {
    type V = FiltersView;

    open spec fn view(&self) -> FiltersView {
        FiltersView {
            tool: opt_view(self.tool),
            since: opt_view(self.since),
            until: opt_view(self.until),
            outcome: opt_view(self.outcome),
            input_hash: opt_view(self.input_hash),
        }
    }
}

impl View for WitnessAction {
    type V = ActionView;

    open spec fn view(&self) -> ActionView {
        match self {
            WitnessAction::Query { filters, limit, json } => ActionView::Query { filters: filters@, limit: *limit, json: *json },
            WitnessAction::Last { json } => ActionView::Last { json: *json },
            WitnessAction::Count { filters, json } => ActionView::Count { filters: filters@, json: *json },
        }
    }
}

impl View for VerifyArgs {
    type V = VerifyView;

    open spec fn view(&self) -> VerifyView {
        VerifyView {
            lockfile: self.lockfile@,
            root: opt_view(self.root),
            json: self.json,
            no_witness: self.no_witness,
            strict: self.strict,
        }
    }
}

impl View for Command {
    type V = CommandView;

    open spec fn view(&self) -> CommandView {
        match self {
            Command::Verify(v) => CommandView::Verify(v@),
            Command::Witness { action } => CommandView::Witness(action@),
        }
    }
}

impl View for Cli {
    type V = CliView;

    open spec fn view(&self) -> CliView {
        CliView {
            command: match self.command {
                Some(c) => Some(c@),
                None => None,
            },
            input: opt_view(self.input),
            dataset_id: opt_view(self.dataset_id),
            as_of: opt_view(self.as_of),
            note: opt_view(self.note),
            no_witness: self.no_witness,
            describe: self.describe,
            schema: self.schema,
        }
    }
}

/// The arguments as texts.
pub open spec fn tokens(args: Seq<&str>) -> Seq<Seq<char>> {
    args.map_values(|s: &str| s@)
}

/// The limit a text gives: decimal digits whose value fits in `usize`.
pub open spec fn limit_of(t: Seq<char>) -> Option<usize> {
    if t.len() > 0 && all_digits(t) && digits_value(t) <= usize::MAX {
        Some(digits_value(t) as usize)
    } else {
        None
    }
}

/// The flags that take a filter value.
pub open spec fn is_filter_flag(a: Seq<char>) -> bool {
    a == "--tool"@ || a == "--since"@ || a == "--until"@ || a == "--outcome"@ || a == "--input-hash"@
}

/// The filters with the one a filter flag names set, unless it was set already.
pub open spec fn set_filter(f: FiltersView, a: Seq<char>, v: Seq<char>) -> Option<FiltersView> {
    if a == "--tool"@ {
        if f.tool is Some { None } else { Some(FiltersView { tool: Some(v), ..f }) }
    } else if a == "--since"@ {
        if f.since is Some { None } else { Some(FiltersView { since: Some(v), ..f }) }
    } else if a == "--until"@ {
        if f.until is Some { None } else { Some(FiltersView { until: Some(v), ..f }) }
    } else if a == "--outcome"@ {
        if f.outcome is Some { None } else { Some(FiltersView { outcome: Some(v), ..f }) }
    } else {
        if f.input_hash is Some { None } else { Some(FiltersView { input_hash: Some(v), ..f }) }
    }
}

/// The witness action from position `i` on, given what was read before:
/// `--json` once; for `query` and `count` each filter flag once with a
/// value; for `query` `--limit` once with a decimal value (20 when absent);
/// nothing else.
pub open spec fn witness_tail(
    t: Seq<Seq<char>>,
    i: int,
    action: Seq<char>,
    f: FiltersView,
    limit: Option<usize>,
    json: bool,
) -> Option<ActionView>
    decreases t.len() - i,
{
    if i < 0 || i >= t.len() {
        if action == "query"@ {
            Some(ActionView::Query { filters: f, limit: match limit { Some(n) => n, None => 20 }, json })
        } else if action == "count"@ {
            Some(ActionView::Count { filters: f, json })
        } else {
            Some(ActionView::Last { json })
        }
    } else if t[i] == "--json"@ {
        if json { None } else { witness_tail(t, i + 1, action, f, limit, true) }
    } else if action != "last"@ && is_filter_flag(t[i]) {
        if i + 1 >= t.len() {
            None
        } else {
            match set_filter(f, t[i], t[i + 1]) {
                Some(g) => witness_tail(t, i + 2, action, g, limit, json),
                None => None,
            }
        }
    } else if action == "query"@ && t[i] == "--limit"@ {
        if i + 1 >= t.len() || limit is Some {
            None
        } else {
            match limit_of(t[i + 1]) {
                Some(n) => witness_tail(t, i + 2, action, f, Some(n), json),
                None => None,
            }
        }
    } else {
        None
    }
}

/// The filters with nothing set.
pub open spec fn no_filters() -> FiltersView {
    FiltersView { tool: None, since: None, until: None, outcome: None, input_hash: None }
}

/// The witness action whose word stands at `start`: `query`, `count` or `last`.
pub open spec fn witness_spec(t: Seq<Seq<char>>, start: int) -> Option<ActionView> {
    if start < 0 || start >= t.len() {
        None
    } else if t[start] == "query"@ || t[start] == "count"@ || t[start] == "last"@ {
        witness_tail(t, start + 1, t[start], no_filters(), None, false)
    } else {
        None
    }
}

/// The `verify` arguments from position `i` on: `--json`, `--strict` and
/// `--no-witness` at most once each, `--root` once with a value, and exactly
/// one positional lockfile path.
pub open spec fn verify_tail(
    t: Seq<Seq<char>>,
    i: int,
    lockfile: Option<Seq<char>>,
    root: Option<Seq<char>>,
    json: bool,
    no_witness: bool,
    strict: bool,
) -> Option<VerifyView>
    decreases t.len() - i,
{
    if i < 0 || i >= t.len() {
        match lockfile {
            Some(l) => Some(VerifyView { lockfile: l, root, json, no_witness, strict }),
            None => None,
        }
    } else if t[i] == "--json"@ {
        if json { None } else { verify_tail(t, i + 1, lockfile, root, true, no_witness, strict) }
    } else if t[i] == "--no-witness"@ {
        if no_witness { None } else { verify_tail(t, i + 1, lockfile, root, json, true, strict) }
    } else if t[i] == "--strict"@ {
        if strict { None } else { verify_tail(t, i + 1, lockfile, root, json, no_witness, true) }
    } else if t[i] == "--root"@ {
        if i + 1 >= t.len() || root is Some {
            None
        } else {
            verify_tail(t, i + 2, lockfile, Some(t[i + 1]), json, no_witness, strict)
        }
    } else if is_flag(t[i]) {
        None
    } else if lockfile is None {
        verify_tail(t, i + 1, Some(t[i]), root, json, no_witness, strict)
    } else {
        None
    }
}

/// The command line from position `i` on, given what was read before:
/// `--no-witness`, `--describe`, `--schema` at most once each;
/// `--dataset-id`, `--as-of`, `--note` at most once each with a value; a
/// first positional word `witness` or `verify` starts that subcommand, which
/// takes the rest; any other first positional word is the input path; no
/// second positional word and no other flag.
pub open spec fn top_spec(t: Seq<Seq<char>>, i: int, c: CliView) -> Option<CliView>
    decreases t.len() - i,
{
    if i < 0 || i >= t.len() {
        Some(c)
    } else if t[i] == "--no-witness"@ {
        if c.no_witness { None } else { top_spec(t, i + 1, CliView { no_witness: true, ..c }) }
    } else if t[i] == "--describe"@ {
        if c.describe { None } else { top_spec(t, i + 1, CliView { describe: true, ..c }) }
    } else if t[i] == "--schema"@ {
        if c.schema { None } else { top_spec(t, i + 1, CliView { schema: true, ..c }) }
    } else if t[i] == "--dataset-id"@ || t[i] == "--as-of"@ || t[i] == "--note"@ {
        if i + 1 >= t.len() {
            None
        } else if t[i] == "--dataset-id"@ {
            if c.dataset_id is Some { None } else { top_spec(t, i + 2, CliView { dataset_id: Some(t[i + 1]), ..c }) }
        } else if t[i] == "--as-of"@ {
            if c.as_of is Some { None } else { top_spec(t, i + 2, CliView { as_of: Some(t[i + 1]), ..c }) }
        } else {
            if c.note is Some { None } else { top_spec(t, i + 2, CliView { note: Some(t[i + 1]), ..c }) }
        }
    } else if is_flag(t[i]) {
        None
    } else if c.input is None && t[i] == "witness"@ {
        match witness_spec(t, i + 1) {
            Some(a) => Some(CliView { command: Some(CommandView::Witness(a)), ..c }),
            None => None,
        }
    } else if c.input is None && t[i] == "verify"@ {
        match verify_tail(t, i + 1, None, None, false, false, false) {
            Some(v) => Some(CliView { command: Some(CommandView::Verify(v)), ..c }),
            None => None,
        }
    } else if c.input is None {
        top_spec(t, i + 1, CliView { input: Some(t[i]), ..c })
    } else {
        None
    }
}

/// The command line with nothing given.
pub open spec fn default_cli() -> CliView {
    CliView {
        command: None,
        input: None,
        dataset_id: None,
        as_of: None,
        note: None,
        no_witness: false,
        describe: false,
        schema: false,
    }
}

/// The command line the arguments denote, the first being the program
/// name; `None` when they are not a valid command line.
pub open spec fn parse_cli(t: Seq<Seq<char>>) -> Option<CliView> {
    top_spec(t, 1, default_cli())
}

/// The value after the flag at `i`.
fn value_after(args: &[&str], i: usize) -> (r: Result<String, CliError>)
    requires
        i < args@.len(),
    ensures
        r is Ok <==> i + 1 < args@.len(),
        r matches Ok(v) ==> v@ == args@[i + 1]@,
{
    if i < args.len() - 1 {
        Ok(args[i + 1].to_owned())
    } else {
        Err(CliError::MissingValue(args[i].to_owned()))
    }
}

/// Stores a value that may be given once.
fn set_once(slot: &mut Option<String>, v: String, flag: &str) -> (r: Result<(), CliError>)
    ensures
        r is Ok <==> (*old(slot)) is None,
        r is Ok ==> *final(slot) == Some(v),
        r is Err ==> *final(slot) == *old(slot),
{
    if slot.is_some() {
        return Err(CliError::Repeated(flag.to_owned()));
    }
    *slot = Some(v);
    Ok(())
}

/// Parses the arguments of `witness query`, `witness count` or `witness last`
/// from position `start`, where the action word stands.
fn parse_witness(args: &[&str], start: usize) -> (r: Result<WitnessAction, CliError>)
    requires
        start <= args@.len(),
    ensures
        match r {
            Ok(a) => witness_spec(tokens(args@), start as int) == Some(a@),
            Err(_) => witness_spec(tokens(args@), start as int) is None,
        },
{
    let ghost t = tokens(args@);
    if start >= args.len() {
        return Err(CliError::MissingSubcommand("witness".to_owned()));
    }
    let action = args[start];
    assert(t[start as int] == action@);
    let is_query = text_eq(action, "query");
    let is_count = text_eq(action, "count");
    let is_last = text_eq(action, "last");
    if !is_query && !is_count && !is_last {
        return Err(CliError::UnexpectedArgument(action.to_owned()));
    }
    let mut filters = WitnessFilters { tool: None, since: None, until: None, outcome: None, input_hash: None };
    let mut limit: Option<usize> = None;
    let mut json = false;
    let mut i: usize = start + 1;
    assert(filters@ == no_filters());
    while i < args.len()
        invariant
            start < i,
            i <= args@.len() + 1,
            t == tokens(args@),
            t[start as int] == action@,
            is_query == (action@ == "query"@),
            is_count == (action@ == "count"@),
            is_last == (action@ == "last"@),
            is_query || is_count || is_last,
            witness_spec(t, start as int) == witness_tail(t, i as int, action@, filters@, limit, json),
        decreases args.len() - i,
    {
        let a = args[i];
        assert(t[i as int] == a@);
        if text_eq(a, "--json") {
            if json {
                return Err(CliError::Repeated(a.to_owned()));
            }
            json = true;
            i = i + 1;
        } else if !is_last && (text_eq(a, "--tool") || text_eq(a, "--since") || text_eq(a, "--until")
            || text_eq(a, "--outcome") || text_eq(a, "--input-hash")) {
            let v = value_after(args, i)?;
            assert(t[i + 1] == v@);
            if text_eq(a, "--tool") {
                set_once(&mut filters.tool, v, a)?;
            } else if text_eq(a, "--since") {
                set_once(&mut filters.since, v, a)?;
            } else if text_eq(a, "--until") {
                set_once(&mut filters.until, v, a)?;
            } else if text_eq(a, "--outcome") {
                set_once(&mut filters.outcome, v, a)?;
            } else {
                set_once(&mut filters.input_hash, v, a)?;
            }
            i = i + 2;
        } else if is_query && text_eq(a, "--limit") {
            let v = value_after(args, i)?;
            assert(t[i + 1] == v@);
            if limit.is_some() {
                return Err(CliError::Repeated(a.to_owned()));
            }
            match parse_limit(v.as_str()) {
                Some(n) => {
                    limit = Some(n);
                },
                None => {
                    return Err(CliError::InvalidValue(v));
                },
            }
            i = i + 2;
        } else if starts_with_dash(a) {
            return Err(CliError::UnknownArgument(a.to_owned()));
        } else {
            return Err(CliError::UnexpectedArgument(a.to_owned()));
        }
    }
    if is_query {
        let limit = match limit {
            Some(n) => n,
            None => DEFAULT_LIMIT,
        };
        Ok(WitnessAction::Query { filters, limit, json })
    } else if is_count {
        Ok(WitnessAction::Count { filters, json })
    } else {
        Ok(WitnessAction::Last { json })
    }
}

/// Parses the arguments of `verify` from position `start`.
fn parse_verify(args: &[&str], start: usize) -> (r: Result<VerifyArgs, CliError>)
    requires
        start <= args@.len(),
    ensures
        match r {
            Ok(v) => verify_tail(tokens(args@), start as int, None, None, false, false, false) == Some(v@),
            Err(_) => verify_tail(tokens(args@), start as int, None, None, false, false, false) is None,
        },
{
    let ghost t = tokens(args@);
    let mut lockfile: Option<String> = None;
    let mut root: Option<String> = None;
    let mut json = false;
    let mut no_witness = false;
    let mut strict = false;
    let mut i: usize = start;
    while i < args.len()
        invariant
            start <= i,
            i <= args@.len() + 1,
            t == tokens(args@),
            verify_tail(t, start as int, None, None, false, false, false)
                == verify_tail(t, i as int, opt_view(lockfile), opt_view(root), json, no_witness, strict),
        decreases args.len() - i,
    {
        let a = args[i];
        assert(t[i as int] == a@);
        if text_eq(a, "--json") {
            if json {
                return Err(CliError::Repeated(a.to_owned()));
            }
            json = true;
            i = i + 1;
        } else if text_eq(a, "--no-witness") {
            if no_witness {
                return Err(CliError::Repeated(a.to_owned()));
            }
            no_witness = true;
            i = i + 1;
        } else if text_eq(a, "--strict") {
            if strict {
                return Err(CliError::Repeated(a.to_owned()));
            }
            strict = true;
            i = i + 1;
        } else if text_eq(a, "--root") {
            let v = value_after(args, i)?;
            assert(t[i + 1] == v@);
            set_once(&mut root, v, a)?;
            i = i + 2;
        } else if starts_with_dash(a) {
            return Err(CliError::UnknownArgument(a.to_owned()));
        } else if lockfile.is_none() {
            lockfile = Some(a.to_owned());
            i = i + 1;
        } else {
            return Err(CliError::UnexpectedArgument(a.to_owned()));
        }
    }
    match lockfile {
        Some(lockfile) => Ok(VerifyArgs { lockfile, root, json, no_witness, strict }),
        None => Err(CliError::MissingSubcommand("verify".to_owned())),
    }
}

impl Cli {
    /// Parses the arguments, the first being the program name: `Ok` exactly
    /// when they form a command line of `parse_cli`'s grammar, holding what
    /// it denotes.
    pub fn try_parse_from(args: &[&str]) -> (r: Result<Cli, CliError>)
        ensures
            match r {
                Ok(c) => parse_cli(tokens(args@)) == Some(c@),
                Err(_) => parse_cli(tokens(args@)) is None,
            },
    {
        let ghost t = tokens(args@);
        let mut cli = Cli {
            command: None,
            input: None,
            dataset_id: None,
            as_of: None,
            note: None,
            no_witness: false,
            describe: false,
            schema: false,
        };
        let mut i: usize = 1;
        assert(cli@ == default_cli());
        while i < args.len()
            invariant
                1 <= i,
                i <= args@.len() + 1,
                t == tokens(args@),
                cli.command is None,
                parse_cli(t) == top_spec(t, i as int, cli@),
            decreases args.len() - i,
        {
            let a = args[i];
            assert(t[i as int] == a@);
            if text_eq(a, "--no-witness") {
                if cli.no_witness {
                    return Err(CliError::Repeated(a.to_owned()));
                }
                cli.no_witness = true;
                i = i + 1;
            } else if text_eq(a, "--describe") {
                if cli.describe {
                    return Err(CliError::Repeated(a.to_owned()));
                }
                cli.describe = true;
                i = i + 1;
            } else if text_eq(a, "--schema") {
                if cli.schema {
                    return Err(CliError::Repeated(a.to_owned()));
                }
                cli.schema = true;
                i = i + 1;
            } else if text_eq(a, "--dataset-id") || text_eq(a, "--as-of") || text_eq(a, "--note") {
                let v = value_after(args, i)?;
                assert(t[i + 1] == v@);
                if text_eq(a, "--dataset-id") {
                    set_once(&mut cli.dataset_id, v, a)?;
                } else if text_eq(a, "--as-of") {
                    set_once(&mut cli.as_of, v, a)?;
                } else {
                    set_once(&mut cli.note, v, a)?;
                }
                i = i + 2;
            } else if starts_with_dash(a) {
                return Err(CliError::UnknownArgument(a.to_owned()));
            } else if cli.input.is_none() && text_eq(a, "witness") {
                let action = parse_witness(args, i + 1)?;
                cli.command = Some(Command::Witness { action });
                return Ok(cli);
            } else if cli.input.is_none() && text_eq(a, "verify") {
                let v = parse_verify(args, i + 1)?;
                cli.command = Some(Command::Verify(v));
                return Ok(cli);
            } else if cli.input.is_none() {
                cli.input = Some(a.to_owned());
                i = i + 1;
            } else {
                return Err(CliError::UnexpectedArgument(a.to_owned()));
            }
        }
        Ok(cli)
    }
}

/// When the text is all digits, a prefix's value bounds the whole.
proof fn lemma_digits_monotone_all(s: Seq<char>, k: int)
    requires
        0 <= k <= s.len(),
    ensures
        all_digits(s) ==> digits_value(s.take(k)) <= digits_value(s),
{
    if all_digits(s) {
        lemma_digits_monotone(s, k);
    }
}

} // verus!
