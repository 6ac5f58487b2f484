use vstd::prelude::*;

use crate::arg::{Arg, ArgView};
use crate::tokenizer::{arg_parse, classify, parsed_view, tokens_view, Parsed, ParsedView};

verus! {

/// What the collector does at `index`: its reading, and the positional
/// values it appends. A value is appended and reported as processed; a
/// separator appends every token after it and consumes the rest; an option is
/// passed through untouched.
pub open spec fn collect_step(argv: Seq<Seq<char>>, index: int) -> (ParsedView, Seq<Seq<char>>) {
    let c = classify(argv, index);
    match c.0 {
        ArgView::Value => ((ArgView::Processed, Some(1), None), seq![argv[index]]),
        ArgView::Separator(_) => (
            (ArgView::Processed, Some((argv.len() - index) as nat), None),
            argv.subrange(index + 1, argv.len() as int),
        ),
        _ => (c, Seq::empty()),
    }
}

/// The advance a caller takes from a reading: with `prefer_argument` the
/// with-argument form wins when both are present, otherwise the form
/// without argument wins. Zero when neither is present.
pub open spec fn advance(r: ParsedView, prefer_argument: bool) -> nat {
    match (r.1, r.2) {
        (Some(n), Some((m, _))) => if prefer_argument { m } else { n },
        (Some(n), None) => n,
        (None, Some((m, _))) => m,
        (None, None) => 0,
    }
}

/// The reading a caller loop sees at `index`, through the collector or
/// straight from the tokenizer.
pub open spec fn step_view(argv: Seq<Seq<char>>, index: int, collecting: bool) -> ParsedView {
    if collecting {
        collect_step(argv, index).0
    } else {
        classify(argv, index)
    }
}

/// The sum of the advances that a caller loop takes from `index` to the end.
pub open spec fn consumed(
    argv: Seq<Seq<char>>,
    index: int,
    collecting: bool,
    prefer_argument: bool,
) -> nat
    decreases argv.len() - index,
{
    if 0 <= index < argv.len() {
        let n = advance(step_view(argv, index, collecting), prefer_argument);
        if n == 0 {
            0
        } else {
            n + consumed(argv, index + n, collecting, prefer_argument)
        }
    } else {
        0
    }
}

/// The positional values that a loop over the collector gathers from
/// `index` on, where the with-argument form wins.
pub open spec fn collect_from(argv: Seq<Seq<char>>, index: int) -> Seq<Seq<char>>
    decreases argv.len() - index,
{
    if 0 <= index < argv.len() {
        let s = collect_step(argv, index);
        let n = advance(s.0, true);
        if n == 0 {
            Seq::empty()
        } else {
            s.1 + collect_from(argv, index + n)
        }
    } else {
        Seq::empty()
    }
}

/// Every step of a caller loop reports at least one advance, and each
/// advance it reports is at least one token and stays within the tokens
/// left, so the loop ends exactly at the end.
pub proof fn lemma_advances_in_range(argv: Seq<Seq<char>>, index: int, collecting: bool)
    requires
        0 <= index < argv.len(),
    ensures
        step_view(argv, index, collecting).1 is Some || step_view(argv, index, collecting).2 is Some,
        step_view(argv, index, collecting).1 matches Some(n) ==> 1 <= n <= argv.len() - index,
        step_view(argv, index, collecting).2 matches Some((n, _)) ==> 1 <= n <= argv.len() - index,
{
}

/// A caller loop that starts at `index` consumes exactly the tokens from
/// `index` to the end, whichever form it prefers.
pub proof fn lemma_consumed_from(
    argv: Seq<Seq<char>>,
    index: int,
    collecting: bool,
    prefer_argument: bool,
)
    requires
        0 <= index <= argv.len(),
    ensures
        consumed(argv, index, collecting, prefer_argument) == argv.len() - index,
    decreases argv.len() - index,
{
    if index < argv.len() {
        lemma_advances_in_range(argv, index, collecting);
        let n = advance(step_view(argv, index, collecting), prefer_argument);
        lemma_consumed_from(argv, index + n, collecting, prefer_argument);
    }
}

/// A full caller loop from cursor 1 (after the program name) consumes
/// exactly `length - 1` tokens, through the tokenizer or the collector,
/// with either precedence.
pub proof fn lemma_full_loop_consumes_all(
    argv: Seq<Seq<char>>,
    collecting: bool,
    prefer_argument: bool,
)
    requires
        argv.len() >= 1,
    ensures
        consumed(argv, 1, collecting, prefer_argument) == argv.len() - 1,
{
    lemma_consumed_from(argv, 1, collecting, prefer_argument);
}

/// Like `arg_parse`, but positional values go into `args`: a value is
/// appended and reported as `Processed` with its advance; a separator appends
/// every remaining token and consumes them all; an option is returned as
/// `arg_parse` gives it and leaves `args` unchanged.
pub fn arg_parse_a<'s, 'a, 'b>(argv: &'a [&'s str], index: usize, args: &'b mut Vec<&'s str>) -> (r:
    Parsed<'s>)
    requires
        index < argv@.len(),
    ensures
        parsed_view(r) == collect_step(tokens_view(argv@), index as int).0,
        tokens_view(final(args)@) == tokens_view(old(args)@) + collect_step(
            tokens_view(argv@),
            index as int,
        ).1,
{
    let ghost tv = tokens_view(argv@);
    let (a, na, wa) = arg_parse(argv, index);
    match a {
        Arg::Value => {
            let (eat, value) = wa.unwrap();
            args.push(value);
            proof {
                assert(tokens_view(args@) =~= tokens_view(old(args)@) + seq![tv[index as int]]);
            }
            (Arg::Processed, Some(eat), None)
        },
        Arg::Separator(_name) => {
            let ghost start = args@;
            let len = argv.len();
            let mut j: usize = index + 1;
            while j < len
                invariant
                    len == argv@.len(),
                    index < j <= len,
                    args@ == start + argv@.subrange(index + 1, j as int),
                decreases argv@.len() - j,
            {
                args.push(argv[j]);
                proof {
                    assert(argv@.subrange(index + 1, j + 1) =~= argv@.subrange(
                        index + 1,
                        j as int,
                    ).push(argv@[j as int]));
                }
                j = j + 1;
            }
            proof {
                assert(tokens_view(args@) =~= tokens_view(start) + tv.subrange(
                    index + 1,
                    argv@.len() as int,
                ));
            }
            (Arg::Processed, Some(len - index), None)
        },
        _ => (a, na, wa),
    }
}

/// Runs the caller loop over the collector from cursor 1 (after the program
/// name), taking the with-argument form where both are given, and returns
/// the positional values gathered, in order.
pub fn collect_arguments<'s, 'a>(argv: &'a [&'s str]) -> (r: Vec<&'s str>)
    ensures
        tokens_view(r@) == collect_from(tokens_view(argv@), 1),
{
    let ghost tv = tokens_view(argv@);
    let mut args: Vec<&'s str> = Vec::new();
    if argv.len() == 0 {
        proof {
            assert(tokens_view(args@) =~= Seq::empty());
        }
        return args;
    }
    let mut i: usize = 1;
    proof {
        assert(tokens_view(args@) =~= Seq::empty());
        assert(tokens_view(args@) + collect_from(tv, 1) =~= collect_from(tv, 1));
    }
    while i < argv.len()
        invariant
            tv == tokens_view(argv@),
            1 <= i <= argv@.len(),
            tokens_view(args@) + collect_from(tv, i as int) == collect_from(tv, 1),
        decreases argv@.len() - i,
    {
        let ghost before = tokens_view(args@);
        let r = arg_parse_a(argv, i, &mut args);
        proof {
            lemma_advances_in_range(tv, i as int, true);
            assert(step_view(tv, i as int, true) == collect_step(tv, i as int).0);
        }
        let eat = match r.2 {
            Some((eat, _value)) => eat,
            None => r.1.unwrap(),
        };
        proof {
            let s = collect_step(tv, i as int);
            assert(eat == advance(s.0, true));
            assert(collect_from(tv, i as int) == s.1 + collect_from(tv, i + eat));
            assert(tokens_view(args@) + collect_from(tv, i + eat) =~= before + collect_from(
                tv,
                i as int,
            ));
        }
        i = i + eat;
    }
    proof {
        assert(tokens_view(args@) + collect_from(tv, i as int) =~= tokens_view(args@));
    }
    args
}

} // verus!
