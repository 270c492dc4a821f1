//! `xrayctl rmuser`: removes a client chosen by its number in the list.

use vstd::prelude::*;
use crate::cmd::listusers::{numbered_client_lines, numbered_clients, strings_view};
use crate::cmd::newuser::is_registered;
use crate::error::XrayError;
use crate::json::{
    clients_of, edit_clients, lemma_clients_of_with_clients, model_wf, with_clients, ClientEdit,
    Json, JsonModel,
};
use crate::text::{
    decimal, is_digit, is_ws, lemma_decimal_digits, lemma_trim_padded, parse_usize,
    parse_usize_seq, trim, trim_seq, unsigned_digits,
};
use crate::utils::config::{client_email, get_clients};

verus! {

/// The answer to "which number?": the number that the trimmed answer
/// denotes, if it is between 1 and `max`.
pub open spec fn choice_of(input: Seq<char>, max: usize) -> Result<usize, XrayError> {
    match parse_usize_seq(trim_seq(input)) {
        None => Err(XrayError::InvalidNumber),
        Some(n) => if n < 1 || n > max {
            Err(XrayError::NumberOutOfRange(max))
        } else {
            Ok(n)
        },
    }
}

/// Reads a number between 1 and `max` from the line `input`.
pub fn prompt_number(input: &str, max: usize) -> (r: Result<usize, XrayError>)
    ensures
        r == choice_of(input@, max),
{
    let answer = trim(input);
    let n = match parse_usize(answer.as_str()) {
        Some(n) => n,
        None => return Err(XrayError::InvalidNumber),
    };
    if n < 1 || n > max {
        return Err(XrayError::NumberOutOfRange(max));
    }
    Ok(n)
}

/// The lines shown before asking which client to remove: a heading, then one
/// numbered line per client.  Fails where there is no client array, or no
/// client.
pub fn client_list(config: &Json) -> (r: Result<Vec<String>, XrayError>)
    ensures
        match clients_of(config@) {
            None => r matches Err(XrayError::NoClientsArray),
            Some(cs) => if cs.len() == 0 {
                r matches Err(XrayError::NoClientsToRemove)
            } else {
                r matches Ok(lines) && strings_view(lines@) == seq!["Client list:"@]
                    + numbered_clients(cs)
            },
        },
{
    let numbered = numbered_client_lines(config)?;
    assert(strings_view(numbered@).len() == numbered@.len());
    if numbered.len() == 0 {
        return Err(XrayError::NoClientsToRemove);
    }
    let mut lines: Vec<String> = Vec::new();
    lines.push("Client list:".to_owned());
    let mut numbered = numbered;
    let ghost tail = strings_view(numbered@);
    let ghost first = strings_view(lines@);
    lines.append(&mut numbered);
    assert(strings_view(lines@) =~= first + tail);
    Ok(lines)
}

/// Removes the client whose number `input` gives; the other clients stay,
/// in order, and the rest of the configuration is unchanged.  Gives the
/// removed client's email (the empty string where it has none).  Where it
/// fails, `config` is unchanged.
pub fn run(config: &mut Json, input: &str) -> (r: Result<String, XrayError>)
    ensures
        match clients_of(old(config)@) {
            None => r matches Err(XrayError::NoClientsArray) && final(config)@ == old(config)@,
            Some(cs) => if cs.len() == 0 {
                r matches Err(XrayError::NoClientsToRemove) && final(config)@ == old(config)@
            } else {
                match choice_of(input@, cs.len() as usize) {
                    Err(e) => r matches Err(f) && f == e && final(config)@ == old(config)@,
                    Ok(n) => {
                        &&& r matches Ok(removed) && removed@ == client_email(cs[n - 1])
                        &&& final(config)@ == with_clients(old(config)@, cs.remove(n - 1))
                    },
                }
            },
        },
        model_wf(old(config)@) ==> model_wf(final(config)@),
{
    let rows = get_clients(config)?;
    if rows.len() == 0 {
        return Err(XrayError::NoClientsToRemove);
    }
    let choice = prompt_number(input, rows.len())?;
    let selected = rows[choice - 1].1.clone();
    let mut taken = Json::Null;
    std::mem::swap(config, &mut taken);
    let edited = edit_clients(taken, ClientEdit::RemoveAt(choice - 1));
    *config = edited;
    Ok(selected)
}

/// Removing the client at position `k` takes out that client alone: those
/// before it keep their places, those after it move up by one.  Where no
/// other client has its email, that name is then free to be added again.
pub proof fn law_removed_client_is_gone(config: JsonModel, k: int)
    requires
        clients_of(config) is Some,
        0 <= k < clients_of(config)->0.len(),
    ensures
        ({
            let cs = clients_of(config)->0;
            let after = with_clients(config, cs.remove(k));
            &&& clients_of(after) is Some
            &&& clients_of(after)->0.len() == cs.len() - 1
            &&& forall|i: int| 0 <= i < k ==> clients_of(after)->0[i] == cs[i]
            &&& forall|i: int| k <= i < cs.len() - 1 ==> clients_of(after)->0[i] == cs[i + 1]
            &&& (forall|j: int|
                0 <= j < cs.len() && j != k ==> client_email(#[trigger] cs[j]) != client_email(cs[k]))
                ==> !is_registered(clients_of(after)->0, client_email(cs[k]))
        }),
{
    let cs = clients_of(config)->0;
    let left = cs.remove(k);
    lemma_clients_of_with_clients(config, left);
    if forall|j: int|
        0 <= j < cs.len() && j != k ==> client_email(#[trigger] cs[j]) != client_email(cs[k]) {
        assert forall|i: int| 0 <= i < left.len() implies #[trigger] client_email(left[i])
            != client_email(cs[k]) by {
            if i < k {
                assert(left[i] == cs[i]);
            } else {
                assert(left[i] == cs[i + 1]);
            }
        }
    }
}

/// The answer is read as the whole number it writes: the decimal number `n`,
/// with any whitespace around it (the line end of the answer among it),
/// selects `n` where `1 <= n <= max`, and is refused as out of range
/// otherwise.
pub proof fn law_answer_is_the_whole_number(
    n: usize,
    max: usize,
    before: Seq<char>,
    after: Seq<char>,
)
    requires
        forall|i: int| 0 <= i < before.len() ==> is_ws(#[trigger] before[i]),
        forall|i: int| 0 <= i < after.len() ==> is_ws(#[trigger] after[i]),
    ensures
        choice_of(before + decimal(n as nat) + after, max) == if 1 <= n <= max {
            Ok::<usize, XrayError>(n)
        } else {
            Err(XrayError::NumberOutOfRange(max))
        },
{
    let d = decimal(n as nat);
    lemma_decimal_digits(n as nat);
    assert(is_digit(d[0]));
    assert(is_digit(d[d.len() - 1]));
    assert(d.last() == d[d.len() - 1]);
    lemma_trim_padded(before, d, after);
    assert(unsigned_digits(d) == d);
}

} // verus!
