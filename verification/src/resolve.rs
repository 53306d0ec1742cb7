//! Deciding the version string from what `jj` prints. Running `jj` is left
//! to the caller: `resolve_jj_version` takes the state of a resolution and
//! the output of the `jj` command it asked for, and says which command to run
//! next or which version came out.

use vstd::prelude::*;
use vstd::utf8::{decode_utf8, valid_utf8};

use crate::boundary::utf8_string;
use crate::decimal::{
    decimal, decimal_round_trip, decimal_string, is_digit, lemma_decimal_digits, parsed_usize,
    parse_usize,
};
use crate::lines::{
    first_non_empty_line, first_non_empty_line_of, has_no_newline, is_clean_line,
    first_line_is_read_first, is_line_of, is_white_space, read_lines_come_from_the_text,
    single_line, single_line_agrees_with_first, single_line_of, visible_text_has_a_first_line,
};

verus! {

/// What came of running `jj`.
#[derive(Debug, Clone, PartialEq, Eq)]
pub enum JjOutput {
    /// `jj` could not be started.
    NotRun,
    /// `jj` ran; whether it reported success, and what it printed on stdout.
    Exited { success: bool, stdout: Vec<u8> },
}

/// The text that a successful run of `jj` printed, if it is UTF-8.
pub open spec fn stdout_text(output: JjOutput) -> Option<Seq<char>> {
    match output {
        JjOutput::NotRun => None,
        JjOutput::Exited { success, stdout } => {
            if success && valid_utf8(stdout@) {
                Some(decode_utf8(stdout@))
            } else {
                None
            }
        },
    }
}

/// The text that `jj` printed, or `None` when it could not be started, failed,
/// or printed something that is not UTF-8.
pub fn jj_stdout(output: JjOutput) -> (r: Option<String>)
    ensures
        r.deep_view() == stdout_text(output),
{
    match output {
        JjOutput::NotRun => None,
        JjOutput::Exited { success, stdout } => {
            if success {
                utf8_string(stdout)
            } else {
                None
            }
        },
    }
}

pub open spec fn single_line_of_output(output: JjOutput) -> Option<Seq<char>> {
    match stdout_text(output) {
        Some(text) => single_line_of(text),
        None => None,
    }
}

pub open spec fn first_non_empty_line_of_output(output: JjOutput) -> Option<Seq<char>> {
    match stdout_text(output) {
        Some(text) => first_non_empty_line_of(text),
        None => None,
    }
}

/// The only non-empty line that a successful `jj` run printed, trimmed;
/// `None` when the run failed or printed no non-empty line or several.
pub fn run_jj_single_line(output: JjOutput) -> (r: Option<String>)
    ensures
        r.deep_view() == single_line_of_output(output),
{
    match jj_stdout(output) {
        Some(text) => single_line(text.as_str()),
        None => None,
    }
}

/// The first non-empty line that a successful `jj` run printed, trimmed;
/// `None` when the run failed or printed no non-empty line.
pub fn run_jj_first_non_empty_line(output: JjOutput) -> (r: Option<String>)
    ensures
        r.deep_view() == first_non_empty_line_of_output(output),
{
    match jj_stdout(output) {
        Some(text) => first_non_empty_line(text.as_str()),
        None => None,
    }
}

/// The revision that a version describes: the working-copy commit, or its
/// parent when the working-copy commit is empty.
pub open spec fn effective_revision() -> Seq<char> {
    "coalesce(@ ~ empty(), @-)"@
}

/// The newest tagged ancestor of the effective revision.
pub open spec fn tag_revision() -> Seq<char> {
    "latest(heads(tags() & ::(coalesce(@ ~ empty(), @-))))"@
}

/// The commits after the tagged revision up to the effective revision.
pub open spec fn distance_revisions() -> Seq<char> {
    "("@ + tag_revision() + ")..("@ + effective_revision() + ")"@
}

/// The arguments that every `jj` call starts with: never snapshot the working
/// copy, read the latest operation, no pager, no colour.
pub open spec fn base_args() -> Seq<Seq<char>> {
    seq!["--ignore-working-copy"@, "--at-op=@"@, "--no-pager"@, "--color=never"@]
}

/// Where a resolution stands: which `jj` query it waits for, and what it has
/// learnt so far.
#[derive(Debug, Clone, PartialEq, Eq)]
pub enum Pending {
    /// Waits for the short commit id of the effective revision.
    ShortId,
    /// Waits for the nearest tag; knows the short commit id.
    Tag { short: String },
    /// Waits for the number of commits since the tag.
    Distance { short: String, tag: String },
}

pub enum PendingView {
    ShortId,
    Tag { short: Seq<char> },
    Distance { short: Seq<char>, tag: Seq<char> },
}

impl View for Pending {
    type V = PendingView;

    open spec fn view(&self) -> PendingView {
        match self {
            Pending::ShortId => PendingView::ShortId,
            Pending::Tag { short } => PendingView::Tag { short: short@ },
            Pending::Distance { short, tag } => PendingView::Distance { short: short@, tag: tag@ },
        }
    }
}

/// The whole argument list of the `jj` call that `pending` waits for.
pub open spec fn query_args(pending: PendingView) -> Seq<Seq<char>> {
    base_args() + match pending {
        PendingView::ShortId => seq![
            "log"@,
            "-G"@,
            "-r"@,
            effective_revision(),
            "-T"@,
            "commit_id.short(12) ++ \"\\n\""@,
        ],
        PendingView::Tag { .. } => seq![
            "tag"@,
            "list"@,
            "-r"@,
            tag_revision(),
            "--sort"@,
            "name"@,
            "-T"@,
            "name ++ \"\\n\""@,
        ],
        PendingView::Distance { .. } => seq!["log"@, "--count"@, "-r"@, distance_revisions()],
    }
}

fn push_arg(args: &mut Vec<String>, arg: &str)
    ensures
        final(args).deep_view() == old(args).deep_view().push(arg@),
{
    let ghost before = args.deep_view();
    args.push(String::from_str(arg));
    assert(args.deep_view() =~= before.push(arg@));
}

impl Pending {
    /// The arguments to run `jj` with for the query this resolution waits for.
    pub fn jj_args(&self) -> (r: Vec<String>)
        ensures
            r.deep_view() == query_args(self@),
    {
        let mut args: Vec<String> = Vec::new();
        push_arg(&mut args, "--ignore-working-copy");
        push_arg(&mut args, "--at-op=@");
        push_arg(&mut args, "--no-pager");
        push_arg(&mut args, "--color=never");
        match self {
            Pending::ShortId => {
                push_arg(&mut args, "log");
                push_arg(&mut args, "-G");
                push_arg(&mut args, "-r");
                push_arg(&mut args, "coalesce(@ ~ empty(), @-)");
                push_arg(&mut args, "-T");
                push_arg(&mut args, "commit_id.short(12) ++ \"\\n\"");
            },
            Pending::Tag { .. } => {
                push_arg(&mut args, "tag");
                push_arg(&mut args, "list");
                push_arg(&mut args, "-r");
                push_arg(&mut args, "latest(heads(tags() & ::(coalesce(@ ~ empty(), @-))))");
                push_arg(&mut args, "--sort");
                push_arg(&mut args, "name");
                push_arg(&mut args, "-T");
                push_arg(&mut args, "name ++ \"\\n\"");
            },
            Pending::Distance { .. } => {
                push_arg(&mut args, "log");
                push_arg(&mut args, "--count");
                push_arg(&mut args, "-r");
                let mut revs = String::from_str("(");
                revs.append("latest(heads(tags() & ::(coalesce(@ ~ empty(), @-))))");
                revs.append(")..(");
                revs.append("coalesce(@ ~ empty(), @-)");
                revs.append(")");
                let ghost before = args.deep_view();
                args.push(revs);
                assert(args.deep_view() =~= before.push(distance_revisions()));
            },
        }
        assert(args.deep_view() =~= query_args(self@));
        args
    }
}

/// What a resolution does next.
#[derive(Debug, Clone, PartialEq, Eq)]
pub enum Step {
    /// Run `jj` with `pending.jj_args()` and hand its output back.
    Run(Pending),
    /// The resolution is over: the version, or `None` when it could not be
    /// found out.
    Done(Option<String>),
}

pub enum StepView {
    Run(PendingView),
    Done(Option<Seq<char>>),
}

impl View for Step {
    type V = StepView;

    open spec fn view(&self) -> StepView {
        match self {
            Step::Run(p) => StepView::Run(p@),
            Step::Done(v) => StepView::Done(v.deep_view()),
        }
    }
}

/// The version of a revision that is `distance` commits after the tag `tag`
/// and whose short commit id is `short`: the tag alone when the revision is
/// the tagged one, else `<tag>-<distance>-g<short>`.
pub open spec fn described(tag: Seq<char>, distance: nat, short: Seq<char>) -> Seq<char> {
    if distance == 0 {
        tag
    } else {
        tag + "-"@ + decimal(distance) + "-g"@ + short
    }
}

/// The number that a `jj log --count` run printed.
pub open spec fn distance_of_output(output: JjOutput) -> Option<usize> {
    match single_line_of_output(output) {
        Some(line) => parsed_usize(line),
        None => None,
    }
}

/// The step that follows `pending` once its `jj` query printed `output`.
pub open spec fn next_step(pending: PendingView, output: JjOutput) -> StepView {
    match pending {
        PendingView::ShortId => match single_line_of_output(output) {
            Some(short) => StepView::Run(PendingView::Tag { short }),
            None => StepView::Done(None),
        },
        PendingView::Tag { short } => match first_non_empty_line_of_output(output) {
            Some(tag) => StepView::Run(PendingView::Distance { short, tag }),
            None => StepView::Done(Some(short)),
        },
        PendingView::Distance { short, tag } => match distance_of_output(output) {
            Some(n) => StepView::Done(Some(described(tag, n as nat, short))),
            None => StepView::Done(None),
        },
    }
}

/// Advances a resolution by the output of the `jj` query it waited for.
/// A resolution starts at `Pending::ShortId`.
pub fn resolve_jj_version(pending: Pending, output: JjOutput) -> (r: Step)
    ensures
        r@ == next_step(pending@, output),
{
    match pending {
        Pending::ShortId => match run_jj_single_line(output) {
            Some(short) => Step::Run(Pending::Tag { short }),
            None => Step::Done(None),
        },
        Pending::Tag { short } => match run_jj_first_non_empty_line(output) {
            Some(tag) => Step::Run(Pending::Distance { short, tag }),
            None => Step::Done(Some(short)),
        },
        Pending::Distance { short, tag } => {
            let distance = match run_jj_single_line(output) {
                Some(line) => parse_usize(line.as_str()),
                None => None,
            };
            match distance {
                None => Step::Done(None),
                Some(n) => {
                    if n == 0 {
                        Step::Done(Some(tag))
                    } else {
                        let mut version = tag;
                        version.append("-");
                        let digits = decimal_string(n);
                        version.append(digits.as_str());
                        version.append("-g");
                        version.append(short.as_str());
                        Step::Done(Some(version))
                    }
                },
            }
        },
    }
}

/// The version that the three `jj` queries give, in the terms the macro is
/// documented by: no version when the commit id cannot be read; the short
/// commit id when no tag is reachable; the tag when the revision is tagged;
/// `<tag>-<distance>-g<short>` when it is ahead of the tag; no version when
/// the distance cannot be read.
pub open spec fn version_from(short_out: JjOutput, tag_out: JjOutput, distance_out: JjOutput) -> Option<Seq<char>> {
    match single_line_of_output(short_out) {
        None => None,
        Some(short) => match first_non_empty_line_of_output(tag_out) {
            None => Some(short),
            Some(tag) => match distance_of_output(distance_out) {
                None => None,
                Some(n) => Some(described(tag, n as nat, short)),
            },
        },
    }
}

/// Where a resolution that starts at `ShortId` stands after it is handed the
/// given outputs in turn: `Some(version)` once it is over, `None` while it
/// still asks for more.
pub open spec fn run_resolution(short_out: JjOutput, tag_out: JjOutput, distance_out: JjOutput) -> Option<Option<Seq<char>>> {
    match next_step(PendingView::ShortId, short_out) {
        StepView::Done(v) => Some(v),
        StepView::Run(p) => match next_step(p, tag_out) {
            StepView::Done(v) => Some(v),
            StepView::Run(q) => match next_step(q, distance_out) {
                StepView::Done(v) => Some(v),
                StepView::Run(_) => None,
            },
        },
    }
}

proof fn lemma_concat_no_newline(a: Seq<char>, b: Seq<char>)
    requires
        has_no_newline(a),
        has_no_newline(b),
    ensures
        has_no_newline(a + b),
{
    assert forall|k: int| 0 <= k < (a + b).len() implies (a + b)[k] != '\n' by {
        if k >= a.len() {
            assert((a + b)[k] == b[k - a.len()]);
        }
    }
}

/// A resolution asks `jj` at most three times, and comes out with the
/// documented version; a version it comes out with is never empty, holds no
/// line feed and has no whitespace at either end.
pub proof fn resolution_ends_with_documented_version(
    short_out: JjOutput,
    tag_out: JjOutput,
    distance_out: JjOutput,
)
    ensures
        run_resolution(short_out, tag_out, distance_out) == Some(
            version_from(short_out, tag_out, distance_out),
        ),
        version_from(short_out, tag_out, distance_out) matches Some(v) ==> {
            &&& is_clean_line(v)
            &&& has_no_newline(v)
        },
{
    if let Some(text) = stdout_text(short_out) {
        single_line_agrees_with_first(text);
        read_lines_come_from_the_text(text);
    }
    if let Some(text) = stdout_text(tag_out) {
        single_line_agrees_with_first(text);
        read_lines_come_from_the_text(text);
    }
    if let Some(v) = version_from(short_out, tag_out, distance_out) {
        let short = single_line_of_output(short_out)->0;
        if let Some(tag) = first_non_empty_line_of_output(tag_out) {
            let n = distance_of_output(distance_out)->0;
            if n > 0 {
                lemma_decimal_digits(n as nat);
                let d = decimal(n as nat);
                assert forall|k: int| 0 <= k < d.len() implies d[k] != '\n' by {
                    assert(is_digit(d[k]));
                }
                reveal_strlit("-");
                reveal_strlit("-g");
                assert(has_no_newline("-"@));
                assert(has_no_newline("-g"@));
                lemma_concat_no_newline(tag, "-"@);
                lemma_concat_no_newline(tag + "-"@, d);
                lemma_concat_no_newline(tag + "-"@ + d, "-g"@);
                lemma_concat_no_newline(tag + "-"@ + d + "-g"@, short);
                assert(v[0] == tag[0]);
                assert(v.last() == short.last());
            }
        }
    }
}

/// Every `jj` call of a resolution starts with the base arguments: it never
/// snapshots the working copy, and it reads the latest operation.
pub proof fn queries_never_snapshot(pending: PendingView)
    ensures
        query_args(pending).take(4) == base_args(),
        query_args(pending).contains("--ignore-working-copy"@),
{
    assert(query_args(pending).take(4) =~= base_args());
    assert(query_args(pending)[0] == "--ignore-working-copy"@);
}

/// The distance query: every `jj log --count` call counts the commits from
/// the tagged revision (excluded) to the effective revision, the same
/// arguments whatever short id and tag the resolution holds.
pub proof fn distance_query_is_fixed(short: Seq<char>, tag: Seq<char>, other_short: Seq<char>, other_tag: Seq<char>)
    ensures
        query_args(PendingView::Distance { short, tag }) == seq![
            "--ignore-working-copy"@,
            "--at-op=@"@,
            "--no-pager"@,
            "--color=never"@,
            "log"@,
            "--count"@,
            "-r"@,
            "(latest(heads(tags() & ::(coalesce(@ ~ empty(), @-)))))..(coalesce(@ ~ empty(), @-))"@,
        ],
        query_args(PendingView::Distance { short, tag }) == query_args(
            PendingView::Distance { short: other_short, tag: other_tag },
        ),
        query_args(PendingView::Tag { short }) == query_args(
            PendingView::Tag { short: other_short },
        ),
{
    reveal_strlit("(");
    reveal_strlit(")..(");
    reveal_strlit(")");
    reveal_strlit("latest(heads(tags() & ::(coalesce(@ ~ empty(), @-))))");
    reveal_strlit("coalesce(@ ~ empty(), @-)");
    reveal_strlit("(latest(heads(tags() & ::(coalesce(@ ~ empty(), @-)))))..(coalesce(@ ~ empty(), @-))");
    assert(distance_revisions() =~= "(latest(heads(tags() & ::(coalesce(@ ~ empty(), @-)))))..(coalesce(@ ~ empty(), @-))"@);
    assert(query_args(PendingView::Distance { short, tag }) =~= seq![
        "--ignore-working-copy"@,
        "--at-op=@"@,
        "--no-pager"@,
        "--color=never"@,
        "log"@,
        "--count"@,
        "-r"@,
        "(latest(heads(tags() & ::(coalesce(@ ~ empty(), @-)))))..(coalesce(@ ~ empty(), @-))"@,
    ]);
    assert(query_args(PendingView::Distance { short: other_short, tag: other_tag }) =~= query_args(
        PendingView::Distance { short, tag },
    ));
    assert(query_args(PendingView::Tag { short }) =~= query_args(
        PendingView::Tag { short: other_short },
    ));
}

/// The distance step ends the resolution with the number that `jj` printed:
/// when the output's only non-empty line reads as the number `n`, the
/// version is the tag for `n == 0`, else the tag, `-`, `n` in decimal, `-g`
/// and the short id; when it reads as no number, there is no version.
pub proof fn distance_step_uses_the_printed_count(short: Seq<char>, tag: Seq<char>, output: JjOutput)
    ensures
        next_step(PendingView::Distance { short, tag }, output) == match stdout_text(output) {
            Some(text) => match single_line_of(text) {
                Some(line) => match parsed_usize(line) {
                    Some(n) => StepView::Done(
                        Some(
                            if n == 0 {
                                tag
                            } else {
                                tag + "-"@ + decimal(n as nat) + "-g"@ + short
                            },
                        ),
                    ),
                    None => StepView::Done(None),
                },
                None => StepView::Done(None),
            },
            None => StepView::Done(None),
        },
{
}

/// A successful `jj log --count` that prints the number `n` and a line feed
/// ends the resolution with `n` itself in the version, whatever its size.
pub proof fn printed_distance_is_kept(short: Seq<char>, tag: Seq<char>, output: JjOutput, n: usize)
    requires
        n > 0,
        stdout_text(output) == Some(decimal(n as nat) + seq!['\n']),
    ensures
        next_step(PendingView::Distance { short, tag }, output) == StepView::Done(
            Some(tag + "-"@ + decimal(n as nat) + "-g"@ + short),
        ),
{
    let d = decimal(n as nat);
    lemma_decimal_digits(n as nat);
    assert(is_digit(d[0]));
    assert(is_digit(d.last()));
    assert(has_no_newline(d)) by {
        assert forall|k: int| 0 <= k < d.len() implies d[k] != '\n' by {
            assert(is_digit(d[k]));
        }
    }
    first_line_is_read_first(d, Seq::<char>::empty());
    decimal_round_trip(n);
}

/// A tag listing with any character that is not whitespace names a tag: the
/// resolution goes on to the distance query with the first non-empty line,
/// trimmed, as the tag, whatever the listing's length; it never ends with
/// the bare short id.
pub proof fn visible_tag_listing_names_a_tag(short: Seq<char>, output: JjOutput, i: int)
    requires
        stdout_text(output) matches Some(text) && 0 <= i < text.len() && !is_white_space(text[i]),
    ensures
        first_non_empty_line_of_output(output) == first_non_empty_line_of(stdout_text(output)->0),
        first_non_empty_line_of_output(output) matches Some(tag) && is_clean_line(tag)
            && is_line_of(tag, stdout_text(output)->0),
        next_step(PendingView::Tag { short }, output) matches StepView::Run(
            PendingView::Distance { short: s, tag },
        ) && s == short && first_non_empty_line_of_output(output) == Some(tag),
{
    visible_text_has_a_first_line(stdout_text(output)->0, i);
}

/// A listing whose first line is a tag is read as that tag, whatever the
/// tag's length and whatever follows; the short-id query likewise reads a
/// one-line output as that line.
pub proof fn first_listed_tag_is_taken(short: Seq<char>, output: JjOutput, tag: Seq<char>, rest: Seq<char>)
    requires
        is_clean_line(tag),
        has_no_newline(tag),
        stdout_text(output) == Some(tag + seq!['\n'] + rest),
    ensures
        next_step(PendingView::Tag { short }, output) == StepView::Run(
            PendingView::Distance { short, tag },
        ),
{
    first_line_is_read_first(tag, rest);
}

/// A short-id query that prints one line and a line feed moves on to the tag
/// query with that line as the short id.
pub proof fn printed_short_id_is_kept(output: JjOutput, short: Seq<char>)
    requires
        is_clean_line(short),
        has_no_newline(short),
        stdout_text(output) == Some(short + seq!['\n']),
    ensures
        next_step(PendingView::ShortId, output) == StepView::Run(PendingView::Tag { short }),
{
    first_line_is_read_first(short, Seq::<char>::empty());
}

} // verus!
