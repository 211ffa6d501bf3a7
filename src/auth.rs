//! Where the password of an SSH connection comes from: given outright,
//! asked for interactively, or not used at all.

use vstd::prelude::*;

use crate::error::BbcprError;

verus! {

/// The question put to the user for the password of `user` on `host`:
/// `Password for user@host: `, or `Password for host: ` without a user.
pub open spec fn prompt_text(host: Seq<char>, user: Option<Seq<char>>) -> Seq<char> {
    "Password for "@ + match user {
        Some(u) => u + "@"@,
        None => Seq::<char>::empty(),
    } + host + ": "@
}

/// What an answer to the prompt gives: no password when nothing was typed.
pub open spec fn password_from_answer(answer: Result<String, BbcprError>) -> Result<
    Option<String>,
    BbcprError,
> {
    match answer {
        Ok(typed) => if typed@.len() == 0 {
            Ok(None)
        } else {
            Ok(Some(typed))
        },
        Err(e) => Err(e),
    }
}

/// The prompt for the password of `user` on `host`.
pub fn password_prompt(host: &str, user: Option<&str>) -> (r: String)
    ensures
        r@ == prompt_text(
            host@,
            match user {
                Some(u) => Some(u@),
                None => None,
            },
        ),
{
    let mut text = String::from_str("Password for ");
    match user {
        Some(u) => {
            text.append(u);
            text.append("@");
        },
        None => {},
    }
    text.append(host);
    text.append(": ");
    proof {
        let user_part = match user {
            Some(u) => u@ + "@"@,
            None => Seq::<char>::empty(),
        };
        assert(text@ =~= "Password for "@ + user_part + host@ + ": "@);
    }
    text
}

/// The password to use for an SSH connection: the one given, if any; else,
/// when `password_prompt` is set, what `read_password` returns for the
/// prompt (no password when nothing is typed); else none.
pub fn get_ssh_password<F: FnOnce(String) -> Result<String, BbcprError>>(
    password_prompt: bool,
    password_value: Option<String>,
    host: &str,
    user: Option<&str>,
    read_password: F,
) -> (r: Result<Option<String>, BbcprError>)
    requires
        password_value is None && password_prompt ==> forall|p: String|
            call_requires(read_password, (p,)),
    ensures
        password_value is Some ==> r == Ok::<Option<String>, BbcprError>(password_value),
        password_value is None && !password_prompt ==> r == Ok::<Option<String>, BbcprError>(
            None,
        ),
        password_value is None && password_prompt ==> exists|p: String, answer: Result<
            String,
            BbcprError,
        >|
            {
                &&& p@ == prompt_text(
                    host@,
                    match user {
                        Some(u) => Some(u@),
                        None => None,
                    },
                )
                &&& call_ensures(read_password, (p,), answer)
                &&& r == password_from_answer(answer)
            },
{
    match password_value {
        Some(password) => Ok(Some(password)),
        None => {
            if password_prompt {
                let prompt = crate::auth::password_prompt(host, user);
                let ghost asked = prompt;
                let answer = read_password(prompt);
                let ghost got = answer;
                match answer {
                    Ok(typed) => {
                        if typed.as_str().is_empty() {
                            Ok(None)
                        } else {
                            Ok(Some(typed))
                        }
                    },
                    Err(e) => Err(e),
                }
            } else {
                Ok(None)
            }
        },
    }
}

} // verus!
