use vstd::prelude::*;
use vstd::string::StrSliceExecFns;

use crate::arg::{Arg, ArgView};
use crate::tokenizer::{tokens_view, Parsed};

verus! {

/// The decision taken on one reading against a set of terminal options
/// (such as `-h`, `--help`): end the program, or go on with the reading.
pub enum Dispatch<'s> {
    /// The reading names a terminal option: the caller performs its action
    /// (print the text and exit with success) and does not return.
    Terminate,
    /// The reading is handed back unchanged.
    Continue(Parsed<'s>),
}

/// The reading is an option whose name is one of `names`.
pub open spec fn is_terminal(a: ArgView, names: Seq<Seq<char>>) -> bool {
    a matches ArgView::Option(n) && names.contains(n)
}

fn same_text(x: &str, y: &str) -> (r: bool)
    ensures
        r == (x@ == y@),
{
    let n = x.unicode_len();
    if n != y.unicode_len() {
        return false;
    }
    let mut i: usize = 0;
    while i < n
        invariant
            n == x@.len(),
            n == y@.len(),
            i <= n,
            x@.take(i as int) == y@.take(i as int),
        decreases n - i,
    {
        if x.get_char(i) != y.get_char(i) {
            assert(x@[i as int] != y@[i as int]);
            return false;
        }
        assert(x@.take(i + 1) =~= x@.take(i as int).push(x@[i as int]));
        assert(y@.take(i + 1) =~= y@.take(i as int).push(y@[i as int]));
        i = i + 1;
    }
    assert(x@.take(n as int) =~= x@);
    assert(y@.take(n as int) =~= y@);
    true
}

fn is_listed(name: &str, names: &[&str]) -> (r: bool)
    ensures
        r == tokens_view(names@).contains(name@),
{
    let ghost nv = tokens_view(names@);
    let mut k: usize = 0;
    while k < names.len()
        invariant
            nv == tokens_view(names@),
            k <= names@.len(),
            forall|m: int| 0 <= m < k ==> nv[m] != name@,
        decreases names@.len() - k,
    {
        if same_text(names[k], name) {
            assert(nv[k as int] == name@);
            return true;
        }
        k = k + 1;
    }
    false
}

/// Checks a reading against the spellings of a terminal option: `Terminate`
/// exactly when the reading is an option named in `names`, otherwise the
/// reading itself, unchanged.
pub fn handle_terminal_option<'s>(result: Parsed<'s>, names: &[&str]) -> (d: Dispatch<'s>)
    ensures
        d is Terminate <==> is_terminal(result.0@, tokens_view(names@)),
        d matches Dispatch::Continue(r) ==> r == result,
{
    let terminal = match result.0 {
        Arg::Option(name) => is_listed(name, names),
        _ => false,
    };
    if terminal {
        Dispatch::Terminate
    } else {
        Dispatch::Continue(result)
    }
}

} // verus!
