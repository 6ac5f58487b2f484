use vstd::prelude::*;

verus! {

/// What a token (or a prefix of it) was read as.
#[derive(Debug, PartialEq)]
pub enum Arg<'a> {
    /// A positional argument.
    Value,
    /// An option, with its spelling (`-x` or `--xxx`) borrowed from the input.
    Option(&'a str),
    /// The literal `--`, after which every token is positional.
    Separator(&'a str),
    /// The token was already handled by the collector.
    Processed,
}

/// The mathematical model of an `Arg`: names are character sequences.
pub enum ArgView {
    Value,
    Option(Seq<char>),
    Separator(Seq<char>),
    Processed,
}

impl<'a> View for Arg<'a> {
    type V = ArgView;

    open spec fn view(&self) -> ArgView {
        match self {
            Arg::Value => ArgView::Value,
            Arg::Option(n) => ArgView::Option(n@),
            Arg::Separator(n) => ArgView::Separator(n@),
            Arg::Processed => ArgView::Processed,
        }
    }
}

} // verus!
