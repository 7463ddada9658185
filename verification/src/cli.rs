//! The command line: what the arguments ask for, and what is wrong with them
//! when they ask for nothing that can be done.

use vstd::prelude::*;
use vstd::string::{StrSliceExecFns, StringExecFns};
use crate::pattern::{build_globset, compiles, PatternSet};
use crate::text::{is_whitespace, split, to_chars, trim, trim_bounds, views};

verus! {

/// What a well-formed command line asks for.
#[derive(Debug, PartialEq, Eq)]
pub struct Request {
    /// The directory to walk.
    pub base_dir: String,
    /// The patterns of which a file's name must match one.
    pub include_patterns: Vec<String>,
    /// The patterns of which none may match.
    pub exclude_patterns: Vec<String>,
}

/// A request as texts.
pub struct RequestView {
    pub base_dir: Seq<char>,
    pub include_patterns: Seq<Seq<char>>,
    pub exclude_patterns: Seq<Seq<char>>,
}

impl View for Request {
    type V = RequestView;

    open spec fn view(&self) -> RequestView {
        RequestView {
            base_dir: self.base_dir@,
            include_patterns: views(self.include_patterns@),
            exclude_patterns: views(self.exclude_patterns@),
        }
    }
}

/// Why a command line is refused.
#[derive(Debug, PartialEq, Eq)]
pub enum CliError {
    /// Fewer than the two required arguments.
    Usage,
    /// The first argument names no directory.
    NotADirectory { path: String },
    /// The pattern list holds no pattern.
    NoIncludePatterns,
    /// `--exclude` is the last argument.
    MissingExcludeValue,
    /// An argument that is not `--exclude`, where only that may stand.
    UnknownArgument { argument: String },
    /// An include pattern is not a glob.
    InvalidIncludePattern { message: String },
    /// An exclude pattern is not a glob.
    InvalidExcludePattern { message: String },
}

/// An error as texts.
pub enum CliErrorView {
    Usage,
    NotADirectory { path: Seq<char> },
    NoIncludePatterns,
    MissingExcludeValue,
    UnknownArgument { argument: Seq<char> },
    InvalidIncludePattern { message: Seq<char> },
    InvalidExcludePattern { message: Seq<char> },
}

impl View for CliError {
    type V = CliErrorView;

    open spec fn view(&self) -> CliErrorView {
        match *self {
            CliError::Usage => CliErrorView::Usage,
            CliError::NotADirectory { path } => CliErrorView::NotADirectory { path: path@ },
            CliError::NoIncludePatterns => CliErrorView::NoIncludePatterns,
            CliError::MissingExcludeValue => CliErrorView::MissingExcludeValue,
            CliError::UnknownArgument { argument } => CliErrorView::UnknownArgument {
                argument: argument@,
            },
            CliError::InvalidIncludePattern { message } => CliErrorView::InvalidIncludePattern {
                message: message@,
            },
            CliError::InvalidExcludePattern { message } => CliErrorView::InvalidExcludePattern {
                message: message@,
            },
        }
    }
}

/// The segments trimmed, without those of which nothing is left.
pub open spec fn trimmed_nonempty(segments: Seq<Seq<char>>) -> Seq<Seq<char>>
    decreases segments.len(),
{
    if segments.len() == 0 {
        Seq::empty()
    } else {
        let before = trimmed_nonempty(segments.drop_last());
        let segment = trim(segments.last());
        if segment.len() > 0 {
            before.push(segment)
        } else {
            before
        }
    }
}

/// The patterns that a comma-separated list names.
pub open spec fn listed_patterns(list: Seq<char>) -> Seq<Seq<char>> {
    trimmed_nonempty(split(list, ','))
}

/// The values of the `--exclude` flags that make up `args[from..]`, or what
/// is wrong with the first argument that is out of place.
pub open spec fn exclude_values(args: Seq<Seq<char>>, from: int) -> Result<
    Seq<Seq<char>>,
    CliErrorView,
>
    decreases args.len() - from,
{
    if from >= args.len() {
        Ok(Seq::empty())
    } else if args[from] != "--exclude"@ {
        Err(CliErrorView::UnknownArgument { argument: args[from] })
    } else if from + 1 >= args.len() {
        Err(CliErrorView::MissingExcludeValue)
    } else {
        match exclude_values(args, from + 2) {
            Ok(rest) => Ok(seq![args[from + 1]] + rest),
            Err(error) => Err(error),
        }
    }
}

/// What the arguments ask for. `args[0]` is the program's name; `base_is_dir`
/// says whether `args[1]` names a directory. The checks are made in the order
/// in which they stand here, and the first that fails decides the error.
pub open spec fn parsed(args: Seq<Seq<char>>, base_is_dir: bool) -> Result<
    RequestView,
    CliErrorView,
> {
    if args.len() < 3 {
        Err(CliErrorView::Usage)
    } else if !base_is_dir {
        Err(CliErrorView::NotADirectory { path: args[1] })
    } else if listed_patterns(args[2]).len() == 0 {
        Err(CliErrorView::NoIncludePatterns)
    } else {
        match exclude_values(args, 3) {
            Ok(excluded) => Ok(
                RequestView {
                    base_dir: args[1],
                    include_patterns: listed_patterns(args[2]),
                    exclude_patterns: excluded,
                },
            ),
            Err(error) => Err(error),
        }
    }
}

/// The text that reports an error to the user.
pub open spec fn error_text(error: CliErrorView) -> Seq<char> {
    match error {
        CliErrorView::Usage => "Usage: dircat <directory> <patterns> [--exclude <pattern>...]"@,
        CliErrorView::NotADirectory { path } => "Error: "@ + path + " is not a directory"@,
        CliErrorView::NoIncludePatterns => "Error: no include patterns specified"@,
        CliErrorView::MissingExcludeValue => "Error: --exclude requires a pattern"@,
        CliErrorView::UnknownArgument { argument } => "Unknown argument: "@ + argument,
        CliErrorView::InvalidIncludePattern { message } => "Invalid include pattern: "@ + message,
        CliErrorView::InvalidExcludePattern { message } => "Invalid exclude pattern: "@ + message,
    }
}

impl CliError {
    /// The text that reports this error to the user.
    pub fn message(&self) -> (text: String)
        ensures
            text@ == error_text(self@),
    {
        match self {
            CliError::Usage => String::from_str(
                "Usage: dircat <directory> <patterns> [--exclude <pattern>...]",
            ),
            CliError::NotADirectory { path } => String::from_str("Error: ").concat(
                path.as_str(),
            ).concat(" is not a directory"),
            CliError::NoIncludePatterns => String::from_str("Error: no include patterns specified"),
            CliError::MissingExcludeValue => String::from_str("Error: --exclude requires a pattern"),
            CliError::UnknownArgument { argument } => String::from_str("Unknown argument: ").concat(
                argument.as_str(),
            ),
            CliError::InvalidIncludePattern { message } => String::from_str(
                "Invalid include pattern: ",
            ).concat(message.as_str()),
            CliError::InvalidExcludePattern { message } => String::from_str(
                "Invalid exclude pattern: ",
            ).concat(message.as_str()),
        }
    }
}

/// Splits a comma-separated list into its patterns: each segment is trimmed
/// of the white space around it, and empty segments are dropped.
pub fn parse_pattern_list(list: &str) -> (patterns: Vec<String>)
    ensures
        views(patterns@) == listed_patterns(list@),
{
    let chars = to_chars(list);
    let mut patterns: Vec<String> = Vec::new();
    let ghost mut closed: Seq<Seq<char>> = Seq::empty();
    let mut start: usize = 0;
    let mut i: usize = 0;
    assert(chars@.take(0) =~= Seq::empty());
    while i < chars.len()
        invariant
            chars@ == list@,
            start <= i <= chars.len(),
            split(chars@.take(i as int), ',') == closed.push(chars@.subrange(start as int, i as int)),
            views(patterns@) == trimmed_nonempty(closed),
        decreases chars.len() - i,
    {
        proof {
            let upto = chars@.take(i + 1);
            assert(upto.drop_last() == chars@.take(i as int));
        }
        if chars[i] == ',' {
            let ghost segment = chars@.subrange(start as int, i as int);
            let (a, b) = trim_bounds(&chars, start, i);
            if a < b {
                patterns.push(String::from_str(list.substring_char(a, b)));
            }
            proof {
                assert(closed.push(segment).drop_last() == closed);
                closed = closed.push(segment);
                assert(chars@.subrange(i + 1, i + 1) =~= Seq::empty());
            }
            start = i + 1;
        } else {
            assert(chars@.subrange(start as int, i as int).push(chars@[i as int]) == chars@.subrange(
                start as int,
                i + 1,
            ));
        }
        i = i + 1;
    }
    assert(chars@.take(i as int) == chars@);
    let ghost segment = chars@.subrange(start as int, i as int);
    let (a, b) = trim_bounds(&chars, start, i);
    if a < b {
        patterns.push(String::from_str(list.substring_char(a, b)));
    }
    assert(closed.push(segment).drop_last() == closed);
    patterns
}

/// Reads the command line. `args[0]` is the program's name, and `base_is_dir`
/// says whether `args[1]` names an existing directory.
pub fn parse_args(args: &[String], base_is_dir: bool) -> (r: Result<Request, CliError>)
    ensures
        match r {
            Ok(request) => parsed(views(args@), base_is_dir) == Ok::<RequestView, CliErrorView>(
                request@,
            ),
            Err(error) => parsed(views(args@), base_is_dir) == Err::<RequestView, CliErrorView>(
                error@,
            ),
        },
{
    if args.len() < 3 {
        return Err(CliError::Usage);
    }
    if !base_is_dir {
        return Err(CliError::NotADirectory { path: args[1].clone() });
    }
    let include_patterns = parse_pattern_list(args[2].as_str());
    if include_patterns.len() == 0 {
        return Err(CliError::NoIncludePatterns);
    }
    let flag = String::from_str("--exclude");
    let mut exclude_patterns: Vec<String> = Vec::new();
    let mut i: usize = 3;
    while i < args.len()
        invariant
            3 <= i,
            base_is_dir,
            views(include_patterns@) == listed_patterns(args[2]@),
            include_patterns.len() > 0,
            flag@ == "--exclude"@,
            exclude_values(views(args@), 3) == match exclude_values(views(args@), i as int) {
                Ok(rest) => Ok::<Seq<Seq<char>>, CliErrorView>(views(exclude_patterns@) + rest),
                Err(error) => Err(error),
            },
        decreases args.len() - i,
    {
        if args[i] != flag {
            return Err(CliError::UnknownArgument { argument: args[i].clone() });
        }
        if i + 1 >= args.len() {
            return Err(CliError::MissingExcludeValue);
        }
        let ghost before = views(exclude_patterns@);
        exclude_patterns.push(args[i + 1].clone());
        proof {
            assert(views(exclude_patterns@) == before.push(args[i + 1]@));
            match exclude_values(views(args@), i + 2) {
                Ok(rest) => {
                    assert(before + (seq![args[i + 1]@] + rest) == before.push(args[i + 1]@) + rest);
                },
                Err(_) => {},
            }
        }
        i = i + 2;
    }
    Ok(Request { base_dir: args[1].clone(), include_patterns, exclude_patterns })
}

/// All that a run needs once its command line is accepted.
#[derive(Debug)]
pub struct Setup {
    /// The directory to walk.
    pub base_dir: String,
    /// The compiled include patterns.
    pub including: PatternSet,
    /// The compiled exclude patterns.
    pub excluding: PatternSet,
}

/// Reads the command line and compiles its patterns. An error of the command
/// line comes before one of a pattern, and one of an include pattern before
/// one of an exclude pattern.
pub fn prepare(args: &[String], base_is_dir: bool) -> (r: Result<Setup, CliError>)
    ensures
        match parsed(views(args@), base_is_dir) {
            Err(error) => r matches Err(e) && e@ == error,
            Ok(request) => match r {
                Ok(setup) => {
                    &&& compiles(request.include_patterns)
                    &&& compiles(request.exclude_patterns)
                    &&& setup.base_dir@ == request.base_dir
                    &&& setup.including@ == request.include_patterns
                    &&& setup.excluding@ == request.exclude_patterns
                },
                Err(CliError::InvalidIncludePattern { .. }) => !compiles(request.include_patterns),
                Err(CliError::InvalidExcludePattern { .. }) => compiles(request.include_patterns)
                    && !compiles(request.exclude_patterns),
                Err(_) => false,
            },
        },
{
    let request = match parse_args(args, base_is_dir) {
        Ok(request) => request,
        Err(error) => {
            return Err(error);
        },
    };
    let including = match build_globset(request.include_patterns.as_slice()) {
        Ok(set) => set,
        Err(error) => {
            return Err(CliError::InvalidIncludePattern { message: error.message().clone() });
        },
    };
    let excluding = match build_globset(request.exclude_patterns.as_slice()) {
        Ok(set) => set,
        Err(error) => {
            return Err(CliError::InvalidExcludePattern { message: error.message().clone() });
        },
    };
    Ok(Setup { base_dir: request.base_dir, including, excluding })
}

/// The exit status of the process: 0 when the run was set up, 1 when the
/// command line or a pattern was refused.
pub fn exit_status(outcome: &Result<Setup, CliError>) -> (code: i32)
    ensures
        code == if outcome is Ok {
            0i32
        } else {
            1i32
        },
{
    match outcome {
        Ok(_) => 0,
        Err(_) => 1,
    }
}

proof fn lemma_blank_segments(list: Seq<char>)
    requires
        forall|i: int| 0 <= i < list.len() ==> list[i] == ',' || is_whitespace(#[trigger] list[i]),
    ensures
        split(list, ',').len() > 0,
        forall|j: int, i: int|
            0 <= j < split(list, ',').len() && 0 <= i < split(list, ',')[j].len() ==> is_whitespace(
                #[trigger] split(list, ',')[j][i],
            ),
    decreases list.len(),
{
    if list.len() > 0 {
        let front = list.drop_last();
        assert forall|i: int| 0 <= i < front.len() implies front[i] == ',' || is_whitespace(
            #[trigger] front[i],
        ) by {}
        lemma_blank_segments(front);
    }
}

proof fn lemma_trim_of_blank(segment: Seq<char>)
    requires
        forall|i: int| 0 <= i < segment.len() ==> is_whitespace(#[trigger] segment[i]),
    ensures
        trim(segment).len() == 0,
    decreases segment.len(),
{
    if segment.len() > 0 {
        let rest = segment.drop_first();
        assert forall|i: int| 0 <= i < rest.len() implies is_whitespace(#[trigger] rest[i]) by {}
        lemma_trim_of_blank(rest);
    }
}

proof fn lemma_blank_segments_name_nothing(segments: Seq<Seq<char>>)
    requires
        forall|j: int, i: int|
            0 <= j < segments.len() && 0 <= i < segments[j].len() ==> is_whitespace(
                #[trigger] segments[j][i],
            ),
    ensures
        trimmed_nonempty(segments).len() == 0,
    decreases segments.len(),
{
    if segments.len() > 0 {
        let front = segments.drop_last();
        assert forall|j: int, i: int|
            0 <= j < front.len() && 0 <= i < front[j].len() implies is_whitespace(
            #[trigger] front[j][i],
        ) by {}
        lemma_blank_segments_name_nothing(front);
        let last = segments.last();
        assert forall|i: int| 0 <= i < last.len() implies is_whitespace(#[trigger] last[i]) by {}
        lemma_trim_of_blank(last);
    }
}

/// A pattern list that holds nothing but commas and white space is refused:
/// where the directory exists, the error is that no include pattern was
/// given.
pub proof fn lemma_blank_pattern_list_is_refused(args: Seq<Seq<char>>, base_is_dir: bool)
    requires
        args.len() >= 3,
        forall|i: int|
            0 <= i < args[2].len() ==> args[2][i] == ',' || is_whitespace(#[trigger] args[2][i]),
    ensures
        listed_patterns(args[2]).len() == 0,
        parsed(args, base_is_dir) is Err,
        base_is_dir ==> parsed(args, base_is_dir) == Err::<RequestView, CliErrorView>(
            CliErrorView::NoIncludePatterns,
        ),
{
    lemma_blank_segments(args[2]);
    lemma_blank_segments_name_nothing(split(args[2], ','));
}

proof fn lemma_odd_tail_is_refused(args: Seq<Seq<char>>, from: int)
    requires
        0 <= from < args.len(),
        (args.len() - from) % 2 == 1,
    ensures
        exclude_values(args, from) is Err,
        (forall|k: int| from <= k < args.len() && (k - from) % 2 == 0 ==> args[k] == "--exclude"@)
            ==> exclude_values(args, from) == Err::<Seq<Seq<char>>, CliErrorView>(
            CliErrorView::MissingExcludeValue,
        ),
    decreases args.len() - from,
{
    if args[from] == "--exclude"@ && from + 1 < args.len() {
        lemma_odd_tail_is_refused(args, from + 2);
        if forall|k: int| from <= k < args.len() && (k - from) % 2 == 0 ==> args[k] == "--exclude"@ {
            assert forall|k: int| from + 2 <= k < args.len() && (k - (from + 2)) % 2
                == 0 implies args[k] == "--exclude"@ by {}
        }
    }
}

/// `--exclude` as the last argument, with no value after it, is refused. The
/// last argument stands in the place of a flag when the arguments after the
/// pattern list are odd in number; any such command line is refused, and
/// where nothing else is wrong before its end, for the missing value.
pub proof fn lemma_trailing_exclude_is_refused(args: Seq<Seq<char>>, base_is_dir: bool)
    requires
        args.len() >= 4,
        (args.len() - 3) % 2 == 1,
        args.last() == "--exclude"@,
    ensures
        parsed(args, base_is_dir) is Err,
        base_is_dir && listed_patterns(args[2]).len() > 0 && (forall|k: int|
            3 <= k < args.len() && (k - 3) % 2 == 0 ==> args[k] == "--exclude"@) ==> parsed(
            args,
            base_is_dir,
        ) == Err::<RequestView, CliErrorView>(CliErrorView::MissingExcludeValue),
{
    lemma_odd_tail_is_refused(args, 3);
}

} // verus!
