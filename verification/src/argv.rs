//! Command lines that mix fixed words with arguments that are passed on untouched.
use vstd::prelude::*;

verus! {

/// One argument of a command line: a word of this program, or one that was given to it. A
/// given argument is never looked into, so it may be anything the operating system allows.
#[derive(Debug, PartialEq, Eq)]
pub enum Argument<T> {
    Text(String),
    Given(T),
}

/// The mathematical counterpart of [`Argument`].
pub enum ArgumentModel<T> {
    Text(Seq<char>),
    Given(T),
}

impl<T> View for Argument<T> {
    type V = ArgumentModel<T>;

    open spec fn view(&self) -> ArgumentModel<T> {
        match self {
            Argument::Text(text) => ArgumentModel::Text(text@),
            Argument::Given(argument) => ArgumentModel::Given(*argument),
        }
    }
}

/// The models of a command line.
pub open spec fn argument_models<T>(argv: Seq<Argument<T>>) -> Seq<ArgumentModel<T>> {
    argv.map_values(|argument: Argument<T>| argument@)
}

/// Arguments that are passed on as they were given.
pub open spec fn given<T>(arguments: Seq<T>) -> Seq<ArgumentModel<T>> {
    arguments.map_values(|argument: T| ArgumentModel::Given(argument))
}

/// Words of this program.
pub open spec fn words<T>(texts: Seq<Seq<char>>) -> Seq<ArgumentModel<T>> {
    texts.map_values(|text: Seq<char>| ArgumentModel::Text(text))
}

/// Appends a word of this program.
pub(crate) fn push_text<T>(argv: &mut Vec<Argument<T>>, text: &str)
    ensures
        argument_models(final(argv)@) == argument_models(old(argv)@).push(
            ArgumentModel::Text(text@),
        ),
{
    argv.push(Argument::Text(text.to_owned()));
    assert(argument_models(argv@) =~= argument_models(old(argv)@).push(ArgumentModel::Text(text@)));
}

/// Appends an argument that was given.
pub(crate) fn push_given<T>(argv: &mut Vec<Argument<T>>, argument: T)
    ensures
        argument_models(final(argv)@) == argument_models(old(argv)@).push(
            ArgumentModel::Given(argument),
        ),
{
    argv.push(Argument::Given(argument));
    assert(argument_models(argv@) =~= argument_models(old(argv)@).push(
        ArgumentModel::Given(argument),
    ));
}

/// Appends arguments that were given, in their order.
pub(crate) fn extend_given<T>(argv: &mut Vec<Argument<T>>, arguments: Vec<T>)
    ensures
        argument_models(final(argv)@) == argument_models(old(argv)@) + given(arguments@),
{
    for argument in it: arguments.into_iter()
        invariant
            it.seq() == arguments@,
            argument_models(argv@) == argument_models(old(argv)@) + given(
                arguments@.subrange(0, it.index()),
            ),
    {
        push_given(argv, argument);
        assert(argument_models(argv@) =~= argument_models(old(argv)@) + given(
            arguments@.subrange(0, it.index() + 1),
        ));
    }
    assert(arguments@.subrange(0, arguments@.len() as int) =~= arguments@);
}

/// Appends copies of arguments that were given, in their order.
pub(crate) fn extend_copied<T: Copy>(argv: &mut Vec<Argument<T>>, arguments: &Vec<T>)
    ensures
        argument_models(final(argv)@) == argument_models(old(argv)@) + given(arguments@),
{
    let n: usize = arguments.len();
    let mut i: usize = 0;
    assert(argument_models(argv@) =~= argument_models(old(argv)@) + given(
        arguments@.subrange(0, 0),
    ));
    while i < n
        invariant
            n == arguments@.len(),
            i <= n,
            argument_models(argv@) == argument_models(old(argv)@) + given(
                arguments@.subrange(0, i as int),
            ),
        decreases n - i,
    {
        push_given(argv, arguments[i]);
        i = i + 1;
        assert(argument_models(argv@) =~= argument_models(old(argv)@) + given(
            arguments@.subrange(0, i as int),
        ));
    }
    assert(arguments@.subrange(0, n as int) =~= arguments@);
}

} // verus!
