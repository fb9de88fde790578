//! Validation of the caller's argument list: a quoted template locator
//! followed by comma-separated binding identifiers.

use vstd::prelude::*;
use vstd::string::StrSliceExecFns;
use crate::codegen::names_of;

verus! {

/// One argument token, as the invocation site hands it over: a literal (its
/// text as written, quotes included), an identifier, a punctuation character,
/// or a delimited group.
#[derive(Debug)]
pub enum ArgToken {
    Literal { text: String },
    Ident { text: String },
    Punct { ch: char },
    Group,
}

/// A malformed invocation.
#[derive(Clone, Copy, Debug, PartialEq, Eq, Structural)]
pub enum InvokeError {
    /// No argument was given at all.
    MissingFilename,
    /// The first argument is not a quoted string literal.
    FilenameNotLiteral,
    /// Two arguments are not separated by exactly one comma.
    NotComma,
    /// A comma is not followed by a plain identifier binding.
    NotIdent,
}

/// A validated invocation: the template locator with its quotes removed, and
/// the binding names in order.
#[derive(Debug)]
pub struct Invocation {
    pub filename: String,
    pub bindings: Vec<String>,
}

/// Whether a literal's text is quoted: at least the two quote characters,
/// one at each end.
pub open spec fn is_quoted(s: Seq<char>) -> bool {
    s.len() >= 2 && s[0] == '"' && s[s.len() - 1] == '"'
}

/// The binding names collected from position `i` on: pairs of one comma and
/// one identifier, in order.  A dangling trailing comma, with nothing after
/// it, is malformed: every comma must be followed by an identifier.
pub open spec fn collect_bindings(toks: Seq<ArgToken>, i: int) -> Result<Seq<Seq<char>>, InvokeError>
    decreases toks.len() - i,
{
    if i >= toks.len() {
        Ok(Seq::empty())
    } else if !(toks[i] matches ArgToken::Punct { ch: ',' }) {
        Err(InvokeError::NotComma)
    } else if i + 1 >= toks.len() {
        Err(InvokeError::NotIdent)
    } else {
        match toks[i + 1] {
            ArgToken::Ident { text } => match collect_bindings(toks, i + 2) {
                Ok(rest) => Ok(seq![text@] + rest),
                Err(e) => Err(e),
            },
            _ => Err(InvokeError::NotIdent),
        }
    }
}

/// The outcome of validating an argument list: the locator without its quotes
/// and the binding names, or the first failure.  The comma-and-identifier
/// shape is checked before the locator's quoting.
pub open spec fn spec_parse(toks: Seq<ArgToken>) -> Result<
    (Seq<char>, Seq<Seq<char>>),
    InvokeError,
> {
    if toks.len() == 0 {
        Err(InvokeError::MissingFilename)
    } else {
        match toks[0] {
            ArgToken::Literal { text } => match collect_bindings(toks, 1) {
                Ok(bs) => if is_quoted(text@) {
                    Ok((text@.subrange(1, text@.len() - 1), bs))
                } else {
                    Err(InvokeError::FilenameNotLiteral)
                },
                Err(e) => Err(e),
            },
            _ => Err(InvokeError::FilenameNotLiteral),
        }
    }
}

/// The message reported for each way an invocation can be malformed.
pub open spec fn invoke_message(e: InvokeError) -> Seq<char> {
    match e {
        InvokeError::MissingFilename => "Expected a filename argument"@,
        InvokeError::FilenameNotLiteral => "The filename argument must be a string literal"@,
        InvokeError::NotComma => "Arguments must be separated by commas"@,
        InvokeError::NotIdent => "Bindings must be identifiers"@,
    }
}

impl InvokeError {
    /// The error rendered for reporting.
    pub fn message(&self) -> (r: String)
        ensures
            r@ == invoke_message(*self),
    {
        match self {
            InvokeError::MissingFilename => ("Expected a filename argument").to_owned(),
            InvokeError::FilenameNotLiteral => (
            "The filename argument must be a string literal").to_owned(),
            InvokeError::NotComma => ("Arguments must be separated by commas").to_owned(),
            InvokeError::NotIdent => ("Bindings must be identifiers").to_owned(),
        }
    }
}

/// Validates an argument list: the first token must be a quoted string
/// literal, and what follows must be binding identifiers separated by single
/// commas, with no dangling trailing comma.  Returns the locator without its
/// quotes and the binding names in order, or the first failure.
pub fn parse_invocation(tokens: &Vec<ArgToken>) -> (r: Result<Invocation, InvokeError>)
    ensures
        (r matches Ok(inv) ==> spec_parse(tokens@) matches Ok(p) && inv.filename@ == p.0
            && names_of(inv.bindings@) == p.1),
        (r matches Err(e) ==> spec_parse(tokens@) == Err::<(Seq<char>, Seq<Seq<char>>),
        InvokeError>(e)),
{
    let n = tokens.len();
    if n == 0 {
        return Err(InvokeError::MissingFilename);
    }
    let text0: String = match &tokens[0] {
        ArgToken::Literal { text } => text.clone(),
        _ => {
            return Err(InvokeError::FilenameNotLiteral);
        },
    };
    let mut bindings: Vec<String> = Vec::new();
    let mut i: usize = 1;
    while i < n
        invariant
            n == tokens@.len(),
            1 <= i,
            tokens@[0] is Literal,
            match collect_bindings(tokens@, i as int) {
                Ok(rest) => collect_bindings(tokens@, 1) == Ok::<Seq<Seq<char>>, InvokeError>(
                    names_of(bindings@) + rest,
                ),
                Err(e) => collect_bindings(tokens@, 1) == Err::<Seq<Seq<char>>, InvokeError>(e),
            },
        decreases n - i,
    {
        let is_comma = match &tokens[i] {
            ArgToken::Punct { ch } => *ch == ',',
            _ => false,
        };
        if !is_comma {
            return Err(InvokeError::NotComma);
        }
        if i + 1 >= n {
            return Err(InvokeError::NotIdent);
        } else {
            let ghost names0 = names_of(bindings@);
            match &tokens[i + 1] {
                ArgToken::Ident { text } => {
                    bindings.push(text.clone());
                    proof {
                        assert(names_of(bindings@) =~= names0 + seq![text@]);
                        match collect_bindings(tokens@, i as int + 2) {
                            Ok(rest) => {
                                assert(names0 + (seq![text@] + rest) =~= names_of(bindings@)
                                    + rest);
                            },
                            Err(_) => {},
                        }
                    }
                },
                _ => {
                    return Err(InvokeError::NotIdent);
                },
            }
            i = i + 2;
        }
    }
    proof {
        assert(collect_bindings(tokens@, i as int) == Ok::<Seq<Seq<char>>, InvokeError>(
            Seq::empty(),
        ));
        assert(names_of(bindings@) + Seq::<Seq<char>>::empty() =~= names_of(bindings@));
    }
    let tl = text0.as_str().unicode_len();
    if !(tl >= 2 && text0.as_str().get_char(0) == '"' && text0.as_str().get_char(tl - 1) == '"') {
        return Err(InvokeError::FilenameNotLiteral);
    }
    let fname = text0.as_str().substring_char(1, tl - 1).to_owned();
    Ok(Invocation { filename: fname, bindings })
}

} // verus!
