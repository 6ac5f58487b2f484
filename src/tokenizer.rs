use vstd::prelude::*;
use vstd::string::StrSliceExecFns;

use crate::arg::{Arg, ArgView};

verus! {

/// The executable result of classifying one token: the reading, the advance
/// when the option takes no argument, and the advance with the argument when
/// it takes one.
pub type Parsed<'s> = (Arg<'s>, Option<usize>, Option<(usize, &'s str)>);

/// The model of `Parsed`.
pub type ParsedView = (ArgView, Option<nat>, Option<(nat, Seq<char>)>);

/// The tokens as character sequences.
pub open spec fn tokens_view(argv: Seq<&str>) -> Seq<Seq<char>> {
    argv.map_values(|s: &str| s@)
}

/// The model of a `Parsed` result: names and values as character sequences,
/// advances as natural numbers.
pub open spec fn parsed_view(r: Parsed) -> ParsedView {
    (
        r.0@,
        match r.1 {
            Some(n) => Some(n as nat),
            None => None,
        },
        match r.2 {
            Some((n, s)) => Some((n as nat, s@)),
            None => None,
        },
    )
}

/// The token is exactly `-`.
pub open spec fn is_single_dash(t: Seq<char>) -> bool {
    t == seq!['-']
}

/// The token is exactly `--`.
pub open spec fn is_double_dash(t: Seq<char>) -> bool {
    t == seq!['-', '-']
}

pub open spec fn starts_with_dash(t: Seq<char>) -> bool {
    t.len() >= 1 && t[0] == '-'
}

pub open spec fn starts_with_double_dash(t: Seq<char>) -> bool {
    t.len() >= 2 && t[0] == '-' && t[1] == '-'
}

/// A token that may be read as the argument of the option just before it:
/// a lone `-`, or anything that does not look like an option.
pub open spec fn can_be_argument(t: Seq<char>) -> bool {
    is_single_dash(t) || !starts_with_dash(t)
}

/// `i` is the position of the first `=` in `t`.
pub open spec fn is_first_eq(t: Seq<char>, i: int) -> bool {
    0 <= i < t.len() && t[i] == '=' && !t.take(i).contains('=')
}

/// The position of the first `=` in `t`, where there is one.
pub open spec fn first_eq(t: Seq<char>) -> int {
    choose|i: int| is_first_eq(t, i)
}

/// An option `name` spelled alone at `index`: it takes no argument, and also,
/// when the next token can be an argument, that next token.
pub open spec fn bare_option(argv: Seq<Seq<char>>, index: int, name: Seq<char>) -> ParsedView {
    if index + 1 < argv.len() && can_be_argument(argv[index + 1]) {
        (ArgView::Option(name), Some(1), Some((2, argv[index + 1])))
    } else {
        (ArgView::Option(name), Some(1), None)
    }
}

/// How the token at `index` is read.
pub open spec fn classify(argv: Seq<Seq<char>>, index: int) -> ParsedView {
    let a = argv[index];
    if is_single_dash(a) {
        (ArgView::Value, None, Some((1, a)))
    } else if is_double_dash(a) {
        (ArgView::Separator(a), Some(1), None)
    } else if starts_with_double_dash(a) {
        if a.contains('=') {
            let i = first_eq(a);
            (ArgView::Option(a.take(i)), None, Some((1, a.skip(i + 1))))
        } else {
            bare_option(argv, index, a)
        }
    } else if starts_with_dash(a) {
        if a.len() > 2 {
            (ArgView::Option(a.take(2)), None, Some((1, a.skip(2))))
        } else {
            bare_option(argv, index, a)
        }
    } else {
        (ArgView::Value, None, Some((1, a)))
    }
}

/// A lone `-` is always a positional value, consuming exactly itself.
pub proof fn lemma_single_dash_is_value(argv: Seq<Seq<char>>, index: int)
    requires
        0 <= index < argv.len(),
        is_single_dash(argv[index]),
    ensures
        classify(argv, index) == (ArgView::Value, None::<nat>, Some((1nat, argv[index]))),
{
}

/// A literal `--` is the separator, consuming exactly one token, wherever it
/// stands.
pub proof fn lemma_double_dash_is_separator(argv: Seq<Seq<char>>, index: int)
    requires
        0 <= index < argv.len(),
        is_double_dash(argv[index]),
    ensures
        classify(argv, index) == (
            ArgView::Separator(argv[index]),
            Some(1nat),
            None::<(nat, Seq<char>)>,
        ),
{
}

/// A long option with `=` is split at its first `=`: the name before it,
/// the inline value after it (possibly empty), and no form without argument.
pub proof fn lemma_long_option_with_eq(argv: Seq<Seq<char>>, index: int, i: int)
    requires
        0 <= index < argv.len(),
        starts_with_double_dash(argv[index]),
        is_first_eq(argv[index], i),
    ensures
        classify(argv, index) == (
            ArgView::Option(argv[index].take(i)),
            None::<nat>,
            Some((1nat, argv[index].skip(i + 1))),
        ),
{
    let a = argv[index];
    assert(a.contains('='));
    assert(!is_double_dash(a)) by {
        if is_double_dash(a) {
            assert(a[i] == '=');
        }
    }
    lemma_first_eq_unique(a, i, first_eq(a));
}

/// A long option without `=` that is followed by a token that can be its
/// argument is ambiguous: both the form without argument (advance 1) and the
/// form with the next token as argument (advance 2) are given.
pub proof fn lemma_long_option_ambiguous(argv: Seq<Seq<char>>, index: int)
    requires
        0 <= index,
        index + 1 < argv.len(),
        starts_with_double_dash(argv[index]),
        argv[index].len() > 2,
        !argv[index].contains('='),
        can_be_argument(argv[index + 1]),
    ensures
        classify(argv, index) == (
            ArgView::Option(argv[index]),
            Some(1nat),
            Some((2nat, argv[index + 1])),
        ),
{
}

/// A short option with more than one character after the dash is the
/// option `-x` with the rest of the token as its inline value, `=` included.
pub proof fn lemma_bundled_short_option(argv: Seq<Seq<char>>, index: int)
    requires
        0 <= index < argv.len(),
        starts_with_dash(argv[index]),
        !starts_with_double_dash(argv[index]),
        argv[index].len() > 2,
    ensures
        classify(argv, index) == (
            ArgView::Option(argv[index].take(2)),
            None::<nat>,
            Some((1nat, argv[index].skip(2))),
        ),
{
}

/// A bare short option `-x` followed by a token that looks like another
/// option takes no argument: only the form without argument is given.
pub proof fn lemma_bare_short_option_before_option(argv: Seq<Seq<char>>, index: int)
    requires
        0 <= index,
        index + 1 < argv.len(),
        argv[index].len() == 2,
        starts_with_dash(argv[index]),
        !starts_with_double_dash(argv[index]),
        !can_be_argument(argv[index + 1]),
    ensures
        classify(argv, index) == (
            ArgView::Option(argv[index]),
            Some(1nat),
            None::<(nat, Seq<char>)>,
        ),
{
}

proof fn lemma_first_eq_unique(t: Seq<char>, i: int, j: int)
    requires
        is_first_eq(t, i),
        is_first_eq(t, j),
    ensures
        i == j,
{
    if i < j {
        assert(t.take(j)[i] == '=');
    } else if j < i {
        assert(t.take(i)[j] == '=');
    }
}

fn is_dash_only(t: &str) -> (r: bool)
    ensures
        r == is_single_dash(t@),
{
    if t.unicode_len() == 1 && t.get_char(0) == '-' {
        assert(t@ =~= seq!['-']);
        true
    } else {
        false
    }
}

fn is_dash_dash(t: &str) -> (r: bool)
    ensures
        r == is_double_dash(t@),
{
    if t.unicode_len() == 2 && t.get_char(0) == '-' && t.get_char(1) == '-' {
        assert(t@ =~= seq!['-', '-']);
        true
    } else {
        false
    }
}

fn has_dash_prefix(t: &str) -> (r: bool)
    ensures
        r == starts_with_dash(t@),
{
    t.unicode_len() >= 1 && t.get_char(0) == '-'
}

fn has_double_dash_prefix(t: &str) -> (r: bool)
    ensures
        r == starts_with_double_dash(t@),
{
    t.unicode_len() >= 2 && t.get_char(0) == '-' && t.get_char(1) == '-'
}

/// The position of the first `=` in `t`, if any.
fn find_eq(t: &str) -> (r: Option<usize>)
    ensures
        match r {
            Some(i) => is_first_eq(t@, i as int),
            None => !t@.contains('='),
        },
{
    let n = t.unicode_len();
    let mut i: usize = 0;
    while i < n
        invariant
            n == t@.len(),
            i <= n,
            !t@.take(i as int).contains('='),
        decreases n - i,
    {
        if t.get_char(i) == '=' {
            return Some(i);
        }
        assert(t@.take(i as int + 1) =~= t@.take(i as int).push(t@[i as int]));
        i = i + 1;
    }
    assert(t@.take(n as int) =~= t@);
    None
}

fn bare_option_exec<'s>(argv: &[&'s str], index: usize, name: &'s str) -> (r: Parsed<'s>)
    requires
        index < argv@.len(),
    ensures
        parsed_view(r) == bare_option(tokens_view(argv@), index as int, name@),
{
    if argv.len() - index > 1 {
        let next = argv[index + 1];
        if is_dash_only(next) || !has_dash_prefix(next) {
            return (Arg::Option(name), Some(1), Some((2, next)));
        }
    }
    (Arg::Option(name), Some(1), None)
}

/// Classifies the token at `index`. The result is the reading of the token,
/// the advance when it is taken as an option without argument, and the
/// advance with the argument when it is taken as an option (or value) with
/// one. An option followed by a token that may be its argument has both.
pub fn arg_parse<'s, 'a>(argv: &'a [&'s str], index: usize) -> (r: Parsed<'s>)
    requires
        index < argv@.len(),
    ensures
        parsed_view(r) == classify(tokens_view(argv@), index as int),
{
    let a = argv[index];
    if is_dash_only(a) {
        (Arg::Value, None, Some((1, a)))
    } else if is_dash_dash(a) {
        (Arg::Separator(a), Some(1), None)
    } else if has_double_dash_prefix(a) {
        match find_eq(a) {
            Some(i) => {
                proof {
                    lemma_first_eq_unique(a@, i as int, first_eq(a@));
                }
                let n = a.unicode_len();
                (Arg::Option(a.substring_char(0, i)), None, Some((1, a.substring_char(i + 1, n))))
            },
            None => bare_option_exec(argv, index, a),
        }
    } else if has_dash_prefix(a) {
        let n = a.unicode_len();
        if n > 2 {
            (Arg::Option(a.substring_char(0, 2)), None, Some((1, a.substring_char(2, n))))
        } else {
            bare_option_exec(argv, index, a)
        }
    } else {
        (Arg::Value, None, Some((1, a)))
    }
}

} // verus!
