//! What the operator's answers mean. Printing the questions and reading the
//! answers is left to the program.

use vstd::prelude::*;
use vstd::string::*;
use crate::text::{str_eq, trim, trimmed};

verus! {

/// What a trimmed answer to a yes/no question means: `y` is yes, `n` is no,
/// and anything else is no answer.
pub open spec fn letter_meaning(given: Seq<char>) -> Option<bool> {
    if given == seq!['y'] {
        Some(true)
    } else if given == seq!['n'] {
        Some(false)
    } else {
        None
    }
}

/// What a line means as an answer to a yes/no question. Whitespace around
/// the letter does not count.
pub open spec fn yes_no(input: Seq<char>) -> Option<bool> {
    letter_meaning(trimmed(input))
}

/// Reads a trimmed answer to a yes/no question.
pub fn letter_answer(given: &str) -> (answer: Option<bool>)
    ensures
        answer == letter_meaning(given@),
{
    proof {
        reveal_strlit("y");
        reveal_strlit("n");
        assert("y"@ =~= seq!['y']);
        assert("n"@ =~= seq!['n']);
    }
    if str_eq(given, "y") {
        Some(true)
    } else if str_eq(given, "n") {
        Some(false)
    } else {
        None
    }
}

/// Reads an answer to a yes/no question; none where the question has to be
/// asked again.
pub fn yes_no_answer(input: &str) -> (answer: Option<bool>)
    ensures
        answer == yes_no(input@),
{
    let given = trim(input);
    letter_answer(given.as_str())
}

/// A trimmed answer, or the default where the answer is empty and there is a
/// default.
pub open spec fn given_or(given: Seq<char>, default: Seq<char>) -> Seq<char> {
    if default.len() > 0 && given.len() == 0 {
        default
    } else {
        given
    }
}

/// What a line means as an answer to a question with a default. Whitespace
/// around the answer does not count.
pub open spec fn answer_or(input: Seq<char>, default: Seq<char>) -> Seq<char> {
    given_or(trimmed(input), default)
}

/// Settles a trimmed answer to a question with a default.
pub fn given_or_default(given: String, default: &str) -> (answer: String)
    ensures
        answer@ == given_or(given@, default@),
{
    if !default.is_empty() && given.as_str().is_empty() {
        default.to_owned()
    } else {
        given
    }
}

/// Reads an answer to a question with a default.
pub fn answer_or_default(input: &str, default: &str) -> (answer: String)
    ensures
        answer@ == answer_or(input@, default@),
{
    given_or_default(trim(input), default)
}

/// A path with one more component, as `Path::join` makes it for a relative
/// component: the component follows a `/`, which is left out after an empty
/// path and after a path that ends in one.
pub open spec fn joined_path(base: Seq<char>, component: Seq<char>) -> Seq<char> {
    if base.len() == 0 || base.last() == '/' {
        base + component
    } else {
        base + seq!['/'] + component
    }
}

/// Where the operator's private key is looked for first: `.ssh/id_rsa` below
/// the home directory, and nowhere where no home directory is known.
pub open spec fn default_key_file(home: Option<Seq<char>>) -> Seq<char> {
    match home {
        Some(dir) => joined_path(joined_path(dir, ".ssh"@), "id_rsa"@),
        None => Seq::empty(),
    }
}

fn push_component(path: &mut String, component: &str)
    ensures
        final(path)@ == joined_path(old(path)@, component@),
{
    let n: usize = path.as_str().unicode_len();
    if n > 0 && path.as_str().get_char(n - 1) != '/' {
        path.append("/");
        proof {
            reveal_strlit("/");
        }
    }
    path.append(component);
}

/// The private key file to offer the operator as the default.
pub fn default_private_key_file(home: Option<&str>) -> (path: String)
    ensures
        path@ == default_key_file(
            match home {
                Some(dir) => Some(dir@),
                None => None,
            },
        ),
{
    match home {
        Some(dir) => {
            let mut path = dir.to_owned();
            push_component(&mut path, ".ssh");
            push_component(&mut path, "id_rsa");
            path
        },
        None => String::new(),
    }
}

} // verus!
