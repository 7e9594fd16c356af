//! Command-line arguments of the `wickra-xray` program.
//!
//! The grammar: `--spec <PATH>` (required), `--data <DIR>` or `--stdin`
//! (mutually exclusive), `--at <TS>` and `--format <text|json>` (default
//! `text`). A value follows its option as the next argument or after `=`
//! (`--at=1500`); an argument that starts with `-` is never taken as a value.
//! Every option may be given at most once; `-h`/`--help` and
//! `-V`/`--version` stop parsing. The first argument is the program name.

use vstd::prelude::*;

verus! {

/// How to render the frame.
#[derive(Clone, Copy, Debug, PartialEq, Eq, Structural)]
pub enum Format {
    /// A compact human-readable per-panel summary.
    Text,
    /// The frame serialized as JSON.
    Json,
}

/// The parsed arguments.
#[derive(Clone, Debug, PartialEq, Eq)]
pub struct Args {
    /// Path to the spec file (JSON or TOML, chosen by extension).
    pub spec: String,
    /// Directory of per-stream JSON dataset files.
    pub data: Option<String>,
    /// Read the whole dataset as one JSON object from stdin instead of `--data`.
    pub stdin: bool,
    /// Fold up to this timestamp; omitted builds the full frame.
    pub at: Option<i64>,
    /// Output format.
    pub format: Format,
}

/// Why the arguments were not accepted.
#[derive(Clone, Debug, PartialEq, Eq)]
pub enum ArgsError {
    /// `-h` or `--help` was given.
    Help,
    /// `-V` or `--version` was given.
    Version,
    /// An argument the grammar does not know.
    UnknownArgument(String),
    /// The option was given without a value.
    MissingValue(String),
    /// The option's value is not one it accepts.
    InvalidValue(String, String),
    /// A flag was given a value.
    UnexpectedValue(String),
    /// The option was given more than once.
    Duplicate(String),
    /// `--data` and `--stdin` were both given.
    Conflict,
    /// `--spec` was not given.
    MissingSpec,
}

/// The mathematical content of [`Args`].
pub struct ArgsView {
    pub spec: Seq<char>,
    pub data: Option<Seq<char>>,
    pub stdin: bool,
    pub at: Option<i64>,
    pub format: Format,
}

/// The mathematical content of [`ArgsError`].
pub enum ArgsErrorView {
    Help,
    Version,
    UnknownArgument(Seq<char>),
    MissingValue(Seq<char>),
    InvalidValue(Seq<char>, Seq<char>),
    UnexpectedValue(Seq<char>),
    Duplicate(Seq<char>),
    Conflict,
    MissingSpec,
}

impl View for Args {
    type V = ArgsView;

    open spec fn view(&self) -> ArgsView {
        ArgsView {
            spec: self.spec@,
            data: match self.data {
                Some(d) => Some(d@),
                None => None,
            },
            stdin: self.stdin,
            at: self.at,
            format: self.format,
        }
    }
}

impl View for ArgsError {
    type V = ArgsErrorView;

    open spec fn view(&self) -> ArgsErrorView {
        match self {
            ArgsError::Help => ArgsErrorView::Help,
            ArgsError::Version => ArgsErrorView::Version,
            ArgsError::UnknownArgument(a) => ArgsErrorView::UnknownArgument(a@),
            ArgsError::MissingValue(a) => ArgsErrorView::MissingValue(a@),
            ArgsError::InvalidValue(a, v) => ArgsErrorView::InvalidValue(a@, v@),
            ArgsError::UnexpectedValue(a) => ArgsErrorView::UnexpectedValue(a@),
            ArgsError::Duplicate(a) => ArgsErrorView::Duplicate(a@),
            ArgsError::Conflict => ArgsErrorView::Conflict,
            ArgsError::MissingSpec => ArgsErrorView::MissingSpec,
        }
    }
}

// ---------------------------------------------------------------- integers

/// Whether `c` is an ASCII decimal digit.
pub open spec fn is_digit(c: char) -> bool {
    '0' <= c && c <= '9'
}

/// The value of the decimal digits `s`.
pub open spec fn digits_value(s: Seq<char>) -> int
    decreases s.len(),
{
    if s.len() == 0 {
        0
    } else {
        digits_value(s.drop_last()) * 10 + (s.last() as int - 48)
    }
}

/// The digits of a number: the text after its sign, if any.
pub open spec fn number_body(s: Seq<char>) -> Seq<char> {
    if s.len() > 0 && (s[0] == '-' || s[0] == '+') { s.drop_first() } else { s }
}

/// The 64-bit integer written as an optional sign (`+` or `-`) followed by
/// one or more decimal digits, if it is in range (`i64::from_str`).
pub open spec fn parse_i64(s: Seq<char>) -> Option<i64> {
    let neg = s.len() > 0 && s[0] == '-';
    let body = number_body(s);
    let v = if neg { -digits_value(body) } else { digits_value(body) };
    if body.len() == 0 || !(forall|i: int| 0 <= i < body.len() ==> is_digit(#[trigger] body[i])) {
        None
    } else if i64::MIN <= v <= i64::MAX {
        Some(v as i64)
    } else {
        None
    }
}

proof fn lemma_digits_value_nonneg(s: Seq<char>)
    requires
        forall|i: int| 0 <= i < s.len() ==> is_digit(#[trigger] s[i]),
    ensures
        digits_value(s) >= 0,
    decreases s.len(),
{
    if s.len() > 0 {
        lemma_digits_value_nonneg(s.drop_last());
    }
}

/// Parses a timestamp: an optional sign and decimal digits.
pub fn parse_int(s: &str) -> (r: Option<i64>)
    ensures
        r == parse_i64(s@),
{
    let n = s.unicode_len();
    let mut i: usize = 0;
    let mut neg = false;
    if n > 0 {
        let c = s.get_char(0);
        if c == '-' || c == '+' {
            neg = c == '-';
            i = 1;
        }
    }
    let start = i;
    let ghost body = s@.subrange(start as int, n as int);
    proof {
        if n > 0 && (s@[0] == '-' || s@[0] == '+') {
            assert(body =~= s@.drop_first());
        } else {
            assert(body =~= s@);
        }
        assert(body == number_body(s@));
        assert(neg == (s@.len() > 0 && s@[0] == '-'));
    }
    if start == n {
        assert(body.len() == 0);
        return None;
    }
    let mut acc: i128 = 0;
    let mut big = false;
    while i < n
        invariant
            start <= i <= n,
            n == s@.len(),
            body == number_body(s@),
            neg == (s@.len() > 0 && s@[0] == '-'),
            body == s@.subrange(start as int, n as int),
            forall|k: int| start <= k < i ==> is_digit(#[trigger] s@[k]),
            !big ==> acc == digits_value(s@.subrange(start as int, i as int)),
            big ==> digits_value(s@.subrange(start as int, i as int)) > 0x1_0000_0000_0000_0000,
            0 <= acc <= 0x1_0000_0000_0000_0000,
        decreases n - i,
    {
        let c = s.get_char(i);
        if !('0' <= c && c <= '9') {
            assert(!is_digit(body[i - start]));
            return None;
        }
        let d = (c as u32 - 48) as i128;
        let ghost prefix = s@.subrange(start as int, i as int);
        assert(s@.subrange(start as int, i + 1).drop_last() =~= prefix);
        proof {
            lemma_digits_value_nonneg(prefix);
        }
        if !big {
            if acc * 10 + d > 0x1_0000_0000_0000_0000 {
                big = true;
                acc = 0;
            } else {
                acc = acc * 10 + d;
            }
        }
        i = i + 1;
    }
    assert(s@.subrange(start as int, n as int) == body);
    assert forall|k: int| 0 <= k < body.len() implies is_digit(#[trigger] body[k]) by {
        assert(body[k] == s@[start + k]);
    }
    if big {
        return None;
    }
    let v: i128 = if neg { -acc } else { acc };
    if v < i64::MIN as i128 || v > i64::MAX as i128 {
        None
    } else {
        Some(v as i64)
    }
}

// ---------------------------------------------------------------- grammar

/// The options seen so far.
pub struct ParseState {
    pub spec: Option<Seq<char>>,
    pub data: Option<Seq<char>>,
    pub stdin: bool,
    pub at: Option<i64>,
    pub format: Option<Format>,
}

/// No option seen yet.
pub open spec fn initial_state() -> ParseState {
    ParseState { spec: None, data: None, stdin: false, at: None, format: None }
}

/// Whether `t` is read as an option rather than a value: it starts with `-`
/// and is longer than the lone `-`.
pub open spec fn looks_like_option(t: Seq<char>) -> bool {
    t.len() > 1 && t[0] == '-'
}

/// The index of the first `=` in `t` at or after `j`, or `t.len()`.
pub open spec fn eq_index(t: Seq<char>, j: int) -> int
    decreases t.len() - j,
{
    if j >= t.len() {
        t.len() as int
    } else if t[j] == '=' {
        j
    } else {
        eq_index(t, j + 1)
    }
}

/// Whether the option takes a value.
pub open spec fn takes_value(name: Seq<char>) -> bool {
    name == "--spec"@ || name == "--data"@ || name == "--at"@ || name == "--format"@
}

/// Records the value `v` of the valued option `name`.
pub open spec fn with_value(st: ParseState, name: Seq<char>, v: Seq<char>) -> Result<ParseState, ArgsErrorView> {
    if name == "--spec"@ {
        if st.spec is Some { Err(ArgsErrorView::Duplicate(name)) } else { Ok(ParseState { spec: Some(v), ..st }) }
    } else if name == "--data"@ {
        if st.data is Some { Err(ArgsErrorView::Duplicate(name)) } else { Ok(ParseState { data: Some(v), ..st }) }
    } else if name == "--at"@ {
        if st.at is Some {
            Err(ArgsErrorView::Duplicate(name))
        } else {
            match parse_i64(v) {
                Some(ts) => Ok(ParseState { at: Some(ts), ..st }),
                None => Err(ArgsErrorView::InvalidValue(name, v)),
            }
        }
    } else {
        if st.format is Some {
            Err(ArgsErrorView::Duplicate(name))
        } else if v == "text"@ {
            Ok(ParseState { format: Some(Format::Text), ..st })
        } else if v == "json"@ {
            Ok(ParseState { format: Some(Format::Json), ..st })
        } else {
            Err(ArgsErrorView::InvalidValue(name, v))
        }
    }
}

/// The options read from argument `i` on, starting from `st`.
pub open spec fn parse_from(toks: Seq<Seq<char>>, i: int, st: ParseState) -> Result<ParseState, ArgsErrorView>
    decreases toks.len() - i,
{
    if i < 0 || i >= toks.len() {
        Ok(st)
    } else {
        let t = toks[i];
        if t == "-h"@ || t == "--help"@ {
            Err(ArgsErrorView::Help)
        } else if t == "-V"@ || t == "--version"@ {
            Err(ArgsErrorView::Version)
        } else if t == "--"@ {
            if i + 1 < toks.len() { Err(ArgsErrorView::UnknownArgument(toks[i + 1])) } else { Ok(st) }
        } else if t == "--stdin"@ {
            if st.stdin {
                Err(ArgsErrorView::Duplicate(t))
            } else {
                parse_from(toks, i + 1, ParseState { stdin: true, ..st })
            }
        } else if takes_value(t) {
            if i + 1 >= toks.len() || looks_like_option(toks[i + 1]) {
                Err(ArgsErrorView::MissingValue(t))
            } else {
                match with_value(st, t, toks[i + 1]) {
                    Ok(next) => parse_from(toks, i + 2, next),
                    Err(e) => Err(e),
                }
            }
        } else if t.len() >= 2 && t[0] == '-' && t[1] == '-' && eq_index(t, 0) < t.len() {
            let e = eq_index(t, 0);
            let name = t.subrange(0, e);
            let v = t.subrange(e + 1, t.len() as int);
            if takes_value(name) {
                match with_value(st, name, v) {
                    Ok(next) => parse_from(toks, i + 1, next),
                    Err(err) => Err(err),
                }
            } else if name == "--stdin"@ {
                Err(ArgsErrorView::UnexpectedValue(name))
            } else {
                Err(ArgsErrorView::UnknownArgument(t))
            }
        } else {
            Err(ArgsErrorView::UnknownArgument(t))
        }
    }
}

/// The arguments `toks` (the program name first) denote, or why they are
/// rejected: conflicts are reported before a missing `--spec`.
pub open spec fn parse_args(toks: Seq<Seq<char>>) -> Result<ArgsView, ArgsErrorView> {
    match parse_from(toks, 1, initial_state()) {
        Err(e) => Err(e),
        Ok(st) => if st.data is Some && st.stdin {
            Err(ArgsErrorView::Conflict)
        } else {
            match st.spec {
                None => Err(ArgsErrorView::MissingSpec),
                Some(sp) => Ok(ArgsView {
                    spec: sp,
                    data: st.data,
                    stdin: st.stdin,
                    at: st.at,
                    format: match st.format { Some(f) => f, None => Format::Text },
                }),
            }
        },
    }
}

/// The text of each argument.
pub open spec fn arg_texts(argv: Seq<&str>) -> Seq<Seq<char>> {
    argv.map_values(|a: &str| a@)
}

fn same(a: &str, b: &str) -> (r: bool)
    ensures
        r == (a@ == b@),
{
    String::from_str(a) == String::from_str(b)
}

fn find_eq(t: &str) -> (e: usize)
    ensures
        e == eq_index(t@, 0),
{
    let n = t.unicode_len();
    let mut j: usize = 0;
    while j < n && t.get_char(j) != '='
        invariant
            j <= n,
            n == t@.len(),
            eq_index(t@, j as int) == eq_index(t@, 0),
        decreases n - j,
    {
        j = j + 1;
    }
    j
}

/// The options in the making.
struct Pending {
    spec: Option<String>,
    data: Option<String>,
    stdin: bool,
    at: Option<i64>,
    format: Option<Format>,
}

impl Pending {
    spec fn state(&self) -> ParseState {
        ParseState {
            spec: match self.spec { Some(s) => Some(s@), None => None },
            data: match self.data { Some(s) => Some(s@), None => None },
            stdin: self.stdin,
            at: self.at,
            format: self.format,
        }
    }
}

fn record_value(p: &mut Pending, name: &str, v: &str) -> (r: Result<(), ArgsError>)
    requires
        takes_value(name@),
    ensures
        match with_value(old(p).state(), name@, v@) {
            Ok(next) => r is Ok && final(p).state() == next,
            Err(e) => r matches Err(err) && err@ == e,
        },
{
    proof {
        lemma_option_names_distinct();
    }
    if same(name, "--spec") {
        if p.spec.is_some() {
            return Err(ArgsError::Duplicate(String::from_str(name)));
        }
        p.spec = Some(String::from_str(v));
    } else if same(name, "--data") {
        if p.data.is_some() {
            return Err(ArgsError::Duplicate(String::from_str(name)));
        }
        p.data = Some(String::from_str(v));
    } else if same(name, "--at") {
        if p.at.is_some() {
            return Err(ArgsError::Duplicate(String::from_str(name)));
        }
        match parse_int(v) {
            Some(ts) => {
                p.at = Some(ts);
            },
            None => {
                return Err(ArgsError::InvalidValue(String::from_str(name), String::from_str(v)));
            },
        }
    } else {
        if p.format.is_some() {
            return Err(ArgsError::Duplicate(String::from_str(name)));
        }
        if same(v, "text") {
            p.format = Some(Format::Text);
        } else if same(v, "json") {
            p.format = Some(Format::Json);
        } else {
            return Err(ArgsError::InvalidValue(String::from_str(name), String::from_str(v)));
        }
    }
    Ok(())
}

proof fn lemma_option_names_distinct()
    ensures
        "--spec"@ != "--data"@,
        "--spec"@ != "--at"@,
        "--spec"@ != "--format"@,
        "--data"@ != "--at"@,
        "--data"@ != "--format"@,
        "--at"@ != "--format"@,
        "--stdin"@ != "--spec"@,
        "--stdin"@ != "--data"@,
        "--stdin"@ != "--at"@,
        "--stdin"@ != "--format"@,
        "-h"@ != "--stdin"@,
        "--help"@ != "--stdin"@,
        "-V"@ != "--stdin"@,
        "--version"@ != "--stdin"@,
        "--"@ != "--stdin"@,
        !takes_value("-h"@),
        !takes_value("--help"@),
        !takes_value("-V"@),
        !takes_value("--version"@),
        !takes_value("--"@),
        !takes_value("--stdin"@),
        "--stdin"@.len() == 7,
{
    reveal_strlit("--spec");
    reveal_strlit("--data");
    reveal_strlit("--at");
    reveal_strlit("--format");
    reveal_strlit("--stdin");
    reveal_strlit("-h");
    reveal_strlit("--help");
    reveal_strlit("-V");
    reveal_strlit("--version");
    reveal_strlit("--");
    assert("--spec"@.len() == 6);
    assert("--data"@.len() == 6);
    assert("--at"@.len() == 4);
    assert("--format"@.len() == 8);
    assert("--stdin"@.len() == 7);
    assert("-h"@.len() == 2);
    assert("--help"@.len() == 6);
    assert("-V"@.len() == 2);
    assert("--version"@.len() == 9);
    assert("--"@.len() == 2);
    assert("--spec"@[2] != "--data"@[2]);
    assert("--spec"@[2] != "--help"@[2]);
    assert("--data"@[2] != "--help"@[2]);
}

impl Args {
    /// Parses the arguments of the program (`argv[0]` is its name).
    pub fn try_parse_from(argv: &[&str]) -> (r: Result<Args, ArgsError>)
        ensures
            match parse_args(arg_texts(argv@)) {
                Ok(a) => r matches Ok(args) && args@ == a,
                Err(e) => r matches Err(err) && err@ == e,
            },
    {
        let ghost toks = arg_texts(argv@);
        proof {
            lemma_option_names_distinct();
        }
        let mut p = Pending { spec: None, data: None, stdin: false, at: None, format: None };
        let mut i: usize = 1;
        if argv.len() == 0 {
            i = 0;
        }
        while i < argv.len()
            invariant
                toks == arg_texts(argv@),
                toks.len() == argv@.len(),
                i <= argv@.len(),
                parse_from(toks, 1, initial_state()) == parse_from(toks, i as int, p.state()),
            ensures
                toks == arg_texts(argv@),
                i == argv@.len(),
                parse_from(toks, 1, initial_state()) == parse_from(toks, i as int, p.state()),
            decreases argv.len() - i,
        {
            let t = argv[i];
            assert(toks[i as int] == t@);
            if same(t, "-h") || same(t, "--help") {
                return Err(ArgsError::Help);
            }
            if same(t, "-V") || same(t, "--version") {
                return Err(ArgsError::Version);
            }
            if same(t, "--") {
                if i + 1 < argv.len() {
                    assert(toks[i + 1] == argv@[i + 1]@);
                    return Err(ArgsError::UnknownArgument(String::from_str(argv[i + 1])));
                }
                let ghost st = p.state();
                assert(parse_from(toks, i as int, st) == Ok::<ParseState, ArgsErrorView>(st));
                i = argv.len();
                break;
            }
            if same(t, "--stdin") {
                if p.stdin {
                    return Err(ArgsError::Duplicate(String::from_str(t)));
                }
                p.stdin = true;
                i = i + 1;
                continue;
            }
            if same(t, "--spec") || same(t, "--data") || same(t, "--at") || same(t, "--format") {
                if i + 1 >= argv.len() {
                    return Err(ArgsError::MissingValue(String::from_str(t)));
                }
                let v = argv[i + 1];
                assert(toks[i + 1] == v@);
                if v.unicode_len() > 1 && v.get_char(0) == '-' {
                    return Err(ArgsError::MissingValue(String::from_str(t)));
                }
                record_value(&mut p, t, v)?;
                i = i + 2;
                continue;
            }
            let n = t.unicode_len();
            if n >= 2 && t.get_char(0) == '-' && t.get_char(1) == '-' {
                let e = find_eq(t);
                if e < n {
                    let name = t.substring_char(0, e);
                    let v = t.substring_char(e + 1, n);
                    if same(name, "--spec") || same(name, "--data") || same(name, "--at") || same(name, "--format") {
                        record_value(&mut p, name, v)?;
                        i = i + 1;
                        continue;
                    }
                    if same(name, "--stdin") {
                        return Err(ArgsError::UnexpectedValue(String::from_str(name)));
                    }
                }
            }
            return Err(ArgsError::UnknownArgument(String::from_str(t)));
        }
        assert(parse_from(toks, i as int, p.state()) == Ok::<ParseState, ArgsErrorView>(p.state()));
        if p.data.is_some() && p.stdin {
            return Err(ArgsError::Conflict);
        }
        let spec = match p.spec {
            Some(s) => s,
            None => {
                return Err(ArgsError::MissingSpec);
            },
        };
        Ok(Args {
            spec,
            data: p.data,
            stdin: p.stdin,
            at: p.at,
            format: match p.format {
                Some(f) => f,
                None => Format::Text,
            },
        })
    }
}

} // verus!
