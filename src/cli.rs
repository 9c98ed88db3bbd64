//! The command line: a subcommand, then its options.
//!
//! `publishers`, `crates` and `json` take `-d`/`--diffable`,
//! `--cache-max-age AGE`, `-m ARGS` (any number of times) and the options
//! handed on to the build-metadata tool: `--all-features`,
//! `--no-default-features`, `--features F`, `--target T`,
//! `--manifest-path P`. `update` takes `--cache-max-age AGE` alone. A long
//! option with a value may also be written `--name=value`. `help` takes an
//! optional command name.
use vstd::prelude::*;
use vstd::string::StrSliceExecFns;
use crate::freshness::{MaxAge, NANOS_PER_SEC, SECS_PER_HOUR};

verus! {

/// What `humantime::parse_duration` makes of a text: seconds and
/// nanoseconds, or none where the text is no duration.
pub uninterp spec fn duration_of(s: Seq<char>) -> Option<(u64, u32)>;

/// The most decimal digits that a duration text may hold.
/// `humantime::parse_duration` panics only where the seconds reach the
/// largest `u64` while the sub-second parts add up to exactly one second
/// (its carry into the seconds is skipped then, and `Duration::new`
/// overflows). A text with at most this many digits writes numbers summing
/// below 10^11, and the longest unit, a year, is 31,557,600 seconds: it
/// stays below 3.2 * 10^18 seconds, far from that limit.
pub const MAX_AGE_DIGITS: usize = 11;

/// Is `c` an ASCII decimal digit?
pub open spec fn is_ascii_digit(c: char) -> bool {
    '0' <= c <= '9'
}

/// How many ASCII decimal digits `s` holds.
pub open spec fn digit_count(s: Seq<char>) -> nat
    decreases s.len(),
{
    if s.len() == 0 {
        0
    } else {
        digit_count(s.drop_last()) + if is_ascii_digit(s.last()) {
            1nat
        } else {
            0nat
        }
    }
}

/// Counts the ASCII decimal digits of `text`, stopping once there are more
/// than `MAX_AGE_DIGITS`.
fn few_digits(text: &str) -> (r: bool)
    ensures
        r == (digit_count(text@) <= MAX_AGE_DIGITS),
{
    let n = text.unicode_len();
    let mut count: usize = 0;
    let mut i: usize = 0;
    while i < n
        invariant
            n == text@.len(),
            i <= n,
            count == digit_count(text@.take(i as int)),
            count <= MAX_AGE_DIGITS,
        decreases n - i,
    {
        let c = text.get_char(i);
        assert(text@.take(i + 1).drop_last() =~= text@.take(i as int));
        if '0' <= c && c <= '9' {
            if count == MAX_AGE_DIGITS {
                proof {
                    lemma_digit_count_grows(text@, i + 1);
                }
                return false;
            }
            count = count + 1;
        }
        i = i + 1;
    }
    assert(text@.take(n as int) =~= text@);
    true
}

proof fn lemma_digit_count_grows(s: Seq<char>, k: int)
    requires
        0 <= k <= s.len(),
    ensures
        digit_count(s.take(k)) <= digit_count(s),
    decreases s.len() - k,
{
    if k < s.len() {
        assert(s.take(k + 1).drop_last() =~= s.take(k));
        lemma_digit_count_grows(s, k + 1);
    } else {
        assert(s.take(k) =~= s);
    }
}

/// Relies on `humantime::parse_duration`, which reads a human-readable
/// duration such as `1w` or `1d 6h`: its result depends on the text alone,
/// and a `Duration`'s sub-second part is below one second. Texts with more
/// than `MAX_AGE_DIGITS` digits, among which all those on which it panics,
/// are not handed to it.
#[verifier::external_body]
fn parse_duration_text(text: &str) -> (r: Option<(u64, u32)>)
    requires
        digit_count(text@) <= MAX_AGE_DIGITS,
    ensures
        r == duration_of(text@),
        r matches Some(d) ==> d.1 < NANOS_PER_SEC,
{
    match humantime::parse_duration(text) {
        Ok(d) => Some((d.as_secs(), d.subsec_nanos())),
        Err(_) => None,
    }
}

/// Why a command line was refused.
#[derive(Clone, Copy, Debug, PartialEq, Eq, Structural)]
pub enum ArgError {
    /// No subcommand was given.
    NoCommand,
    /// The subcommand is not one of the known ones.
    UnknownCommand,
    /// An argument that the subcommand does not take.
    UnexpectedArgument,
    /// An option that needs a value came last.
    MissingValue,
    /// An option that may be given once was given twice.
    Repeated,
    /// The value of `--cache-max-age` is no duration.
    InvalidAge,
}

/// The maximum cache age that a text gives: humantime's reading of it,
/// and none for a text with more than `MAX_AGE_DIGITS` digits.
pub open spec fn age_of(s: Seq<char>) -> Option<MaxAge> {
    if digit_count(s) > MAX_AGE_DIGITS {
        None
    } else {
        match duration_of(s) {
            Some(d) => Some(MaxAge { secs: d.0, nanos: d.1 }),
            None => None,
        }
    }
}

/// Reads a maximum cache age written as a human-readable duration with at
/// most `MAX_AGE_DIGITS` digits.
pub fn parse_max_age(text: &str) -> (r: Result<MaxAge, ArgError>)
    ensures
        r matches Ok(a) ==> a.wf() && age_of(text@) == Some(a),
        r is Err <==> age_of(text@) is None,
        r matches Err(e) ==> e == ArgError::InvalidAge,
        digit_count(text@) <= MAX_AGE_DIGITS ==> match duration_of(text@) {
            Some(d) => r == Ok::<MaxAge, ArgError>(MaxAge { secs: d.0, nanos: d.1 }),
            None => r == Err::<MaxAge, ArgError>(ArgError::InvalidAge),
        },
{
    if !few_digits(text) {
        return Err(ArgError::InvalidAge);
    }
    match parse_duration_text(text) {
        Some((secs, nanos)) => Ok(MaxAge { secs, nanos }),
        None => Err(ArgError::InvalidAge),
    }
}

/// The options read so far, as values.
pub struct OptsView {
    pub diffable: bool,
    pub age: Option<MaxAge>,
    pub metadata: Seq<Seq<char>>,
    pub all_features: bool,
    pub no_default_features: bool,
    pub features: Option<Seq<char>>,
    pub target: Option<Seq<char>>,
    pub manifest_path: Option<Seq<char>>,
}

/// No option read yet.
pub open spec fn no_opts() -> OptsView {
    OptsView {
        diffable: false,
        age: None,
        metadata: Seq::empty(),
        all_features: false,
        no_default_features: false,
        features: None,
        target: None,
        manifest_path: None,
    }
}

/// Is token `i` the option `name`, and which value does it carry: the next
/// token, or what follows `=` where the token is written `name=value`. The
/// value and the position after it, or an error where the value is missing.
pub open spec fn option_value(toks: Seq<Seq<char>>, i: int, name: Seq<char>) -> Option<
    Result<(Seq<char>, int), ArgError>,
> {
    let t = toks[i];
    if t == name {
        if i + 1 < toks.len() {
            Some(Ok((toks[i + 1], i + 2)))
        } else {
            Some(Err(ArgError::MissingValue))
        }
    } else if t.len() > name.len() && t.take(name.len() as int) == name && t[name.len() as int]
        == '=' {
        Some(Ok((t.skip(name.len() as int + 1), i + 1)))
    } else {
        None
    }
}

/// Sets a text option given at most once.
pub open spec fn set_once(cur: Option<Seq<char>>, v: Seq<char>) -> Result<Option<Seq<char>>, ArgError> {
    if cur is Some {
        Err(ArgError::Repeated)
    } else {
        Ok(Some(v))
    }
}

/// Reads the option at token `i`: the options read so far with it, and the
/// position after it. `update` tells whether the subcommand is `update`.
pub open spec fn step(update: bool, toks: Seq<Seq<char>>, i: int, o: OptsView) -> Result<
    (OptsView, int),
    ArgError,
> {
    let t = toks[i];
    if t == "-d"@ || t == "--diffable"@ {
        if update {
            Err(ArgError::UnexpectedArgument)
        } else if o.diffable {
            Err(ArgError::Repeated)
        } else {
            Ok((OptsView { diffable: true, ..o }, i + 1))
        }
    } else if let Some(v) = option_value(toks, i, "--cache-max-age"@) {
        match v {
            Err(e) => Err(e),
            Ok((text, next)) => if o.age is Some {
                Err(ArgError::Repeated)
            } else {
                match age_of(text) {
                    None => Err(ArgError::InvalidAge),
                    Some(a) => Ok((OptsView { age: Some(a), ..o }, next)),
                }
            },
        }
    } else if update {
        Err(ArgError::UnexpectedArgument)
    } else {
        step_query(toks, i, o)
    }
}

/// Reads an option at token `i` that the query subcommands alone take.
pub open spec fn step_query(toks: Seq<Seq<char>>, i: int, o: OptsView) -> Result<(OptsView, int), ArgError> {
    let t = toks[i];
    if t == "--all-features"@ {
        if o.all_features {
            Err(ArgError::Repeated)
        } else {
            Ok((OptsView { all_features: true, ..o }, i + 1))
        }
    } else if t == "--no-default-features"@ {
        if o.no_default_features {
            Err(ArgError::Repeated)
        } else {
            Ok((OptsView { no_default_features: true, ..o }, i + 1))
        }
    } else if let Some(v) = option_value(toks, i, "-m"@) {
        match v {
            Err(e) => Err(e),
            Ok((text, next)) => Ok((OptsView { metadata: o.metadata.push(text), ..o }, next)),
        }
    } else {
        step_text(toks, i, o)
    }
}

/// Reads a text option, given at most once, at token `i`.
pub open spec fn step_text(toks: Seq<Seq<char>>, i: int, o: OptsView) -> Result<(OptsView, int), ArgError> {
    if let Some(v) = option_value(toks, i, "--features"@) {
        match v {
            Err(e) => Err(e),
            Ok((text, next)) => match set_once(o.features, text) {
                Err(e) => Err(e),
                Ok(f) => Ok((OptsView { features: f, ..o }, next)),
            },
        }
    } else if let Some(v) = option_value(toks, i, "--target"@) {
        match v {
            Err(e) => Err(e),
            Ok((text, next)) => match set_once(o.target, text) {
                Err(e) => Err(e),
                Ok(f) => Ok((OptsView { target: f, ..o }, next)),
            },
        }
    } else if let Some(v) = option_value(toks, i, "--manifest-path"@) {
        match v {
            Err(e) => Err(e),
            Ok((text, next)) => match set_once(o.manifest_path, text) {
                Err(e) => Err(e),
                Ok(f) => Ok((OptsView { manifest_path: f, ..o }, next)),
            },
        }
    } else {
        Err(ArgError::UnexpectedArgument)
    }
}

/// Reads the options from token `i` on.
pub open spec fn opts_from(update: bool, toks: Seq<Seq<char>>, i: int, o: OptsView) -> Result<
    OptsView,
    ArgError,
>
    decreases toks.len() - i,
{
    if i < 0 || i >= toks.len() {
        Ok(o)
    } else {
        match step(update, toks, i, o) {
            Err(e) => Err(e),
            Ok((o2, next)) => if next > i {
                opts_from(update, toks, next, o2)
            } else {
                Ok(o2)
            },
        }
    }
}

/// The tokens of a command line, as texts.
pub open spec fn tokens(v: Seq<String>) -> Seq<Seq<char>> {
    v.map_values(|s: String| s@)
}

/// Are two texts the same?
pub(crate) fn text_eq(a: &str, b: &str) -> (r: bool)
    ensures
        r == (a@ == b@),
{
    let n = a.unicode_len();
    if n != b.unicode_len() {
        return false;
    }
    let mut i: usize = 0;
    while i < n
        invariant
            n == a@.len(),
            n == b@.len(),
            i <= n,
            forall|j: int| 0 <= j < i ==> a@[j] == b@[j],
        decreases n - i,
    {
        if a.get_char(i) != b.get_char(i) {
            return false;
        }
        i = i + 1;
    }
    assert(a@ =~= b@);
    true
}

/// The value that token `i` carries where it is the option `name`.
fn option_value_at(toks: &Vec<String>, i: usize, name: &str) -> (r: Option<
    Result<(String, usize), ArgError>,
>)
    requires
        i < toks@.len() <= usize::MAX,
    ensures
        option_value(tokens(toks@), i as int, name@) == match r {
            Some(Ok((v, n))) => Some(Ok((v@, n as int))),
            Some(Err(e)) => Some(Err(e)),
            None => None::<Result<(Seq<char>, int), ArgError>>,
        },
        r matches Some(Ok((v, n))) ==> i < n <= toks@.len(),
{
    let t: &str = toks[i].as_str();
    assert(tokens(toks@)[i as int] == t@);
    if text_eq(t, name) {
        if i + 1 < toks.len() {
            assert(tokens(toks@)[i + 1] == toks@[i + 1]@);
            Some(Ok((toks[i + 1].clone(), i + 2)))
        } else {
            Some(Err(ArgError::MissingValue))
        }
    } else {
        let tl = t.unicode_len();
        let nl = name.unicode_len();
        if tl > nl && text_eq(t.substring_char(0, nl), name) && t.get_char(nl) == '=' {
            assert(t@.subrange(0, nl as int) == t@.take(nl as int));
            let v = t.substring_char(nl + 1, tl).to_owned();
            assert(v@ == t@.skip(nl as int + 1));
            Some(Ok((v, i + 1)))
        } else {
            assert(!(t@.len() > name@.len() && t@.take(name@.len() as int) == name@ && t@[name@.len() as int] == '=')) by {
                if t@.len() > name@.len() && t@.take(name@.len() as int) == name@ {
                    assert(t@.subrange(0, nl as int) == t@.take(nl as int));
                }
            }
            None
        }
    }
}

/// Options read so far.
struct Opts {
    diffable: bool,
    age: Option<MaxAge>,
    metadata: Vec<String>,
    all_features: bool,
    no_default_features: bool,
    features: Option<String>,
    target: Option<String>,
    manifest_path: Option<String>,
}

/// The text of an optional text.
pub open spec fn opt_text(o: Option<String>) -> Option<Seq<char>> {
    match o {
        Some(s) => Some(s@),
        None => None,
    }
}

impl View for Opts {
    type V = OptsView;

    closed spec fn view(&self) -> OptsView {
        OptsView {
            diffable: self.diffable,
            age: self.age,
            metadata: tokens(self.metadata@),
            all_features: self.all_features,
            no_default_features: self.no_default_features,
            features: opt_text(self.features),
            target: opt_text(self.target),
            manifest_path: opt_text(self.manifest_path),
        }
    }
}

/// Reads the option at token `i` into `o`; the position after it.
fn step_at(update: bool, toks: &Vec<String>, i: usize, o: &mut Opts) -> (r: Result<usize, ArgError>)
    requires
        i < toks@.len() <= usize::MAX,
    ensures
        r matches Ok(n) ==> i < n <= toks@.len(),
        match step(update, tokens(toks@), i as int, old(o)@) {
            Ok((o2, next)) => r == Ok::<usize, ArgError>(next as usize) && final(o)@ == o2,
            Err(e) => r == Err::<usize, ArgError>(e),
        },
{
    let t: &str = toks[i].as_str();
    assert(tokens(toks@)[i as int] == t@);
    if text_eq(t, "-d") || text_eq(t, "--diffable") {
        if update {
            return Err(ArgError::UnexpectedArgument);
        } else if o.diffable {
            return Err(ArgError::Repeated);
        } else {
            o.diffable = true;
            return Ok(i + 1);
        }
    }
    let age = option_value_at(toks, i, "--cache-max-age");
    if let Some(v) = age {
        match v {
            Err(e) => return Err(e),
            Ok((text, next)) => {
                if o.age.is_some() {
                    return Err(ArgError::Repeated);
                }
                match parse_max_age(text.as_str()) {
                    Err(e) => return Err(e),
                    Ok(a) => {
                        o.age = Some(a);
                        return Ok(next);
                    },
                }
            },
        }
    }
    if update {
        return Err(ArgError::UnexpectedArgument);
    }
    query_step_at(toks, i, o)
}

/// Reads an option at token `i` that the query subcommands alone take.
fn query_step_at(toks: &Vec<String>, i: usize, o: &mut Opts) -> (r: Result<usize, ArgError>)
    requires
        i < toks@.len() <= usize::MAX,
    ensures
        r matches Ok(n) ==> i < n <= toks@.len(),
        match step_query(tokens(toks@), i as int, old(o)@) {
            Ok((o2, next)) => r == Ok::<usize, ArgError>(next as usize) && final(o)@ == o2,
            Err(e) => r == Err::<usize, ArgError>(e),
        },
{
    let t: &str = toks[i].as_str();
    assert(tokens(toks@)[i as int] == t@);
    if text_eq(t, "--all-features") {
        if o.all_features {
            return Err(ArgError::Repeated);
        }
        o.all_features = true;
        return Ok(i + 1);
    }
    if text_eq(t, "--no-default-features") {
        if o.no_default_features {
            return Err(ArgError::Repeated);
        }
        o.no_default_features = true;
        return Ok(i + 1);
    }
    let m = option_value_at(toks, i, "-m");
    if let Some(v) = m {
        match v {
            Err(e) => return Err(e),
            Ok((text, next)) => {
                o.metadata.push(text);
                assert(tokens(o.metadata@) =~= tokens(old(o).metadata@).push(text@));
                return Ok(next);
            },
        }
    }
    text_step_at(toks, i, o)
}

/// Reads a text option, given at most once, at token `i`.
fn text_step_at(toks: &Vec<String>, i: usize, o: &mut Opts) -> (r: Result<usize, ArgError>)
    requires
        i < toks@.len() <= usize::MAX,
    ensures
        r matches Ok(n) ==> i < n <= toks@.len(),
        match step_text(tokens(toks@), i as int, old(o)@) {
            Ok((o2, next)) => r == Ok::<usize, ArgError>(next as usize) && final(o)@ == o2,
            Err(e) => r == Err::<usize, ArgError>(e),
        },
{
    let f = option_value_at(toks, i, "--features");
    if let Some(v) = f {
        match v {
            Err(e) => return Err(e),
            Ok((text, next)) => {
                if o.features.is_some() {
                    return Err(ArgError::Repeated);
                }
                o.features = Some(text);
                return Ok(next);
            },
        }
    }
    let tg = option_value_at(toks, i, "--target");
    if let Some(v) = tg {
        match v {
            Err(e) => return Err(e),
            Ok((text, next)) => {
                if o.target.is_some() {
                    return Err(ArgError::Repeated);
                }
                o.target = Some(text);
                return Ok(next);
            },
        }
    }
    let mp = option_value_at(toks, i, "--manifest-path");
    if let Some(v) = mp {
        match v {
            Err(e) => return Err(e),
            Ok((text, next)) => {
                if o.manifest_path.is_some() {
                    return Err(ArgError::Repeated);
                }
                o.manifest_path = Some(text);
                return Ok(next);
            },
        }
    }
    Err(ArgError::UnexpectedArgument)
}

impl Opts {
    fn new() -> (r: Opts)
        ensures
            r@ == no_opts(),
    {
        let r = Opts {
            diffable: false,
            age: None,
            metadata: Vec::new(),
            all_features: false,
            no_default_features: false,
            features: None,
            target: None,
            manifest_path: None,
        };
        assert(r@.metadata =~= Seq::<Seq<char>>::empty());
        r
    }
}

/// Reads the options from token `start` on.
fn read_opts(update: bool, toks: &Vec<String>, start: usize) -> (r: Result<Opts, ArgError>)
    requires
        1 <= start,
    ensures
        match opts_from(update, tokens(toks@), start as int, no_opts()) {
            Ok(o) => r matches Ok(x) && x@ == o,
            Err(e) => r == Err::<Opts, ArgError>(e),
        },
{
    let mut o = Opts::new();
    let mut i: usize = start;
    while i < toks.len()
        invariant
            1 <= start,
            start <= i || toks@.len() <= i,
            opts_from(update, tokens(toks@), start as int, no_opts()) == opts_from(
                update,
                tokens(toks@),
                i as int,
                o@,
            ),
        decreases toks@.len() - i,
    {
        match step_at(update, toks, i, &mut o) {
            Err(e) => return Err(e),
            Ok(n) => {
                i = n;
            },
        }
    }
    Ok(o)
}

/// The query subcommands.
#[derive(Clone, Copy, Debug, PartialEq, Eq, Structural)]
pub enum QueryKind {
    Publishers,
    Crates,
    Json,
}

/// Arguments of the query subcommands: `crates`, `publishers`, `json`.
#[derive(Clone, Debug)]
pub struct QueryCommandArgs {
    pub cache_max_age: MaxAge,
    pub diffable: bool,
    pub metadata_args: Vec<String>,
}

/// Arguments handed on to the build-metadata tool.
#[derive(Clone, Debug)]
pub struct MetadataArgs {
    pub all_features: bool,
    pub no_default_features: bool,
    pub features: Option<String>,
    pub target: Option<String>,
    pub manifest_path: Option<String>,
}

/// A command line that was read.
#[derive(Clone, Debug)]
pub enum ValidatedArgs {
    Publishers { args: QueryCommandArgs, meta_args: MetadataArgs },
    Crates { args: QueryCommandArgs, meta_args: MetadataArgs },
    Json { args: QueryCommandArgs, meta_args: MetadataArgs },
    Update { cache_max_age: MaxAge },
    Help { command: Option<String> },
}

/// A command line, as values: for a query, its options with the cache age
/// always set.
pub enum CommandView {
    Query(QueryKind, OptsView),
    Update(MaxAge),
    Help(Option<Seq<char>>),
}

/// The cache age given, else the default of 48 hours.
pub open spec fn age_or_default(a: Option<MaxAge>) -> MaxAge {
    match a {
        Some(x) => x,
        None => MaxAge { secs: (48 * SECS_PER_HOUR) as u64, nanos: 0 },
    }
}

/// The query subcommand that a text names.
pub open spec fn query_kind(t: Seq<char>) -> Option<QueryKind> {
    if t == "publishers"@ {
        Some(QueryKind::Publishers)
    } else if t == "crates"@ {
        Some(QueryKind::Crates)
    } else if t == "json"@ {
        Some(QueryKind::Json)
    } else {
        None
    }
}

/// Is the token a request for help?
pub open spec fn asks_help(t: Seq<char>) -> bool {
    t == "-h"@ || t == "--help"@
}

/// Does a token after the subcommand ask for help?
pub open spec fn help_later(toks: Seq<Seq<char>>) -> bool {
    exists|i: int| 1 <= i < toks.len() && asks_help(#[trigger] toks[i])
}

/// Is there a request for help among the tokens after the subcommand?
fn find_help(toks: &Vec<String>) -> (r: bool)
    ensures
        r == help_later(tokens(toks@)),
{
    let ghost t = tokens(toks@);
    let mut i: usize = 1;
    while i < toks.len()
        invariant
            1 <= i,
            t == tokens(toks@),
            forall|j: int| 1 <= j < i && j < t.len() ==> !asks_help(#[trigger] t[j]),
        decreases toks@.len() - i,
    {
        let s: &str = toks[i].as_str();
        assert(t[i as int] == s@);
        if text_eq(s, "-h") || text_eq(s, "--help") {
            return true;
        }
        i = i + 1;
    }
    false
}

/// What a command line means: `-h` or `--help` first asks for help in
/// general, and after a subcommand for help on it.
pub open spec fn command_of(toks: Seq<Seq<char>>) -> Result<CommandView, ArgError> {
    if toks.len() == 0 {
        Err(ArgError::NoCommand)
    } else if asks_help(toks[0]) {
        Ok(CommandView::Help(None))
    } else if (query_kind(toks[0]) is Some || toks[0] == "update"@) && help_later(toks) {
        Ok(CommandView::Help(Some(toks[0])))
    } else if let Some(k) = query_kind(toks[0]) {
        match opts_from(false, toks, 1, no_opts()) {
            Ok(o) => Ok(CommandView::Query(k, OptsView { age: Some(age_or_default(o.age)), ..o })),
            Err(e) => Err(e),
        }
    } else if toks[0] == "update"@ {
        match opts_from(true, toks, 1, no_opts()) {
            Ok(o) => Ok(CommandView::Update(age_or_default(o.age))),
            Err(e) => Err(e),
        }
    } else if toks[0] == "help"@ {
        if toks.len() == 1 {
            Ok(CommandView::Help(None))
        } else if toks.len() == 2 {
            Ok(CommandView::Help(Some(toks[1])))
        } else {
            Err(ArgError::UnexpectedArgument)
        }
    } else {
        Err(ArgError::UnknownCommand)
    }
}

/// The options of a query, as values.
pub open spec fn query_view(a: QueryCommandArgs, m: MetadataArgs) -> OptsView {
    OptsView {
        diffable: a.diffable,
        age: Some(a.cache_max_age),
        metadata: tokens(a.metadata_args@),
        all_features: m.all_features,
        no_default_features: m.no_default_features,
        features: opt_text(m.features),
        target: opt_text(m.target),
        manifest_path: opt_text(m.manifest_path),
    }
}

impl View for ValidatedArgs {
    type V = CommandView;

    open spec fn view(&self) -> CommandView {
        match self {
            ValidatedArgs::Publishers { args, meta_args } => CommandView::Query(
                QueryKind::Publishers,
                query_view(*args, *meta_args),
            ),
            ValidatedArgs::Crates { args, meta_args } => CommandView::Query(
                QueryKind::Crates,
                query_view(*args, *meta_args),
            ),
            ValidatedArgs::Json { args, meta_args } => CommandView::Query(
                QueryKind::Json,
                query_view(*args, *meta_args),
            ),
            ValidatedArgs::Update { cache_max_age } => CommandView::Update(*cache_max_age),
            ValidatedArgs::Help { command } => CommandView::Help(opt_text(*command)),
        }
    }
}

fn default_age(a: Option<MaxAge>) -> (r: MaxAge)
    ensures
        r == age_or_default(a),
{
    match a {
        Some(x) => x,
        None => MaxAge::default_max_age(),
    }
}

/// Reads a command line, without the program's name: a subcommand, then
/// its options.
pub fn parse_args(toks: &Vec<String>) -> (r: Result<ValidatedArgs, ArgError>)
    ensures
        match command_of(tokens(toks@)) {
            Ok(c) => r matches Ok(v) && v@ == c,
            Err(e) => r == Err::<ValidatedArgs, ArgError>(e),
        },
{
    let ghost t = tokens(toks@);
    if toks.len() == 0 {
        return Err(ArgError::NoCommand);
    }
    let cmd: &str = toks[0].as_str();
    assert(t[0] == cmd@);
    if text_eq(cmd, "-h") || text_eq(cmd, "--help") {
        return Ok(ValidatedArgs::Help { command: None });
    }
    let kind = if text_eq(cmd, "publishers") {
        Some(QueryKind::Publishers)
    } else if text_eq(cmd, "crates") {
        Some(QueryKind::Crates)
    } else if text_eq(cmd, "json") {
        Some(QueryKind::Json)
    } else {
        None
    };
    if (kind.is_some() || text_eq(cmd, "update")) && find_help(toks) {
        return Ok(ValidatedArgs::Help { command: Some(toks[0].clone()) });
    }
    if let Some(k) = kind {
        let o = match read_opts(false, toks, 1) {
            Ok(o) => o,
            Err(e) => return Err(e),
        };
        let args = QueryCommandArgs {
            cache_max_age: default_age(o.age),
            diffable: o.diffable,
            metadata_args: o.metadata,
        };
        let meta_args = MetadataArgs {
            all_features: o.all_features,
            no_default_features: o.no_default_features,
            features: o.features,
            target: o.target,
            manifest_path: o.manifest_path,
        };
        return Ok(
            match k {
                QueryKind::Publishers => ValidatedArgs::Publishers { args, meta_args },
                QueryKind::Crates => ValidatedArgs::Crates { args, meta_args },
                QueryKind::Json => ValidatedArgs::Json { args, meta_args },
            },
        );
    }
    if text_eq(cmd, "update") {
        let o = match read_opts(true, toks, 1) {
            Ok(o) => o,
            Err(e) => return Err(e),
        };
        return Ok(ValidatedArgs::Update { cache_max_age: default_age(o.age) });
    }
    if text_eq(cmd, "help") {
        if toks.len() == 1 {
            return Ok(ValidatedArgs::Help { command: None });
        } else if toks.len() == 2 {
            assert(t[1] == toks@[1]@);
            return Ok(ValidatedArgs::Help { command: Some(toks[1].clone()) });
        } else {
            return Err(ArgError::UnexpectedArgument);
        }
    }
    Err(ArgError::UnknownCommand)
}

} // verus!
