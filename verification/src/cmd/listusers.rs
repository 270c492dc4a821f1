//! `xrayctl listusers`: a numbered list of the configured usernames.

use vstd::prelude::*;
use crate::cmd::rmuser::{choice_of, law_answer_is_the_whole_number};
use crate::error::XrayError;
use crate::json::{clients_of, Json, JsonModel};
use crate::text::{decimal, push_decimal};
use crate::utils::config::{client_email, get_clients};

verus! {

/// The texts of a list of strings.
pub open spec fn strings_view(v: Seq<String>) -> Seq<Seq<char>> {
    Seq::new(v.len(), |i: int| v[i]@)
}

/// Line `i` of a client listing: its number from 1, a dot, a space and the
/// client's email.
pub open spec fn numbered_line(i: int, email: Seq<char>) -> Seq<char> {
    decimal((i + 1) as nat) + ". "@ + email
}

/// The numbered lines that list the clients `cs`.
pub open spec fn numbered_clients(cs: Seq<JsonModel>) -> Seq<Seq<char>> {
    Seq::new(cs.len(), |i: int| numbered_line(i, client_email(cs[i])))
}

/// The numbered lines that list the clients of `config`.  Fails where
/// `config` has no client array.
pub fn numbered_client_lines(config: &Json) -> (r: Result<Vec<String>, XrayError>)
    ensures
        match clients_of(config@) {
            None => r matches Err(XrayError::NoClientsArray),
            Some(cs) => r matches Ok(lines) && strings_view(lines@) == numbered_clients(cs),
        },
{
    let rows = get_clients(config)?;
    let ghost cs = clients_of(config@)->0;
    let mut lines: Vec<String> = Vec::new();
    let mut i: usize = 0;
    while i < rows.len()
        invariant
            i <= rows@.len(),
            rows@.len() == cs.len(),
            forall|j: int| 0 <= j < cs.len() ==> (#[trigger] rows@[j]).1@ == client_email(cs[j]),
            lines@.len() == i,
            strings_view(lines@) == numbered_clients(cs).take(i as int),
        decreases rows@.len() - i,
    {
        let mut line = String::new();
        push_decimal(&mut line, (i + 1) as u64);
        line.append(". ");
        line.append(rows[i].1.as_str());
        assert(line@ =~= numbered_line(i as int, client_email(cs[i as int])));
        let ghost old_lines = lines@;
        lines.push(line);
        assert forall|j: int| 0 <= j < i implies #[trigger] lines@[j]@ == numbered_clients(cs)[j] by {
            assert(lines@[j] == old_lines[j]);
            assert(strings_view(old_lines)[j] == numbered_clients(cs).take(i as int)[j]);
        }
        i = i + 1;
        assert(strings_view(lines@) =~= numbered_clients(cs).take(i as int));
    }
    assert(numbered_clients(cs).take(i as int) == numbered_clients(cs));
    Ok(lines)
}

/// Lists the configured clients: a heading, then one numbered line per
/// client.  Fails where there is no client array, or no client.
pub fn run(config: &Json) -> (r: Result<Vec<String>, XrayError>)
    ensures
        match clients_of(config@) {
            None => r matches Err(XrayError::NoClientsArray),
            Some(cs) => if cs.len() == 0 {
                r matches Err(XrayError::NoClientsConfigured)
            } else {
                r matches Ok(lines) && strings_view(lines@) == seq!["Client list:"@]
                    + numbered_clients(cs)
            },
        },
{
    let numbered = numbered_client_lines(config)?;
    assert(strings_view(numbered@).len() == numbered@.len());
    if numbered.len() == 0 {
        return Err(XrayError::NoClientsConfigured);
    }
    let mut lines: Vec<String> = Vec::new();
    lines.push("Client list:".to_owned());
    let mut numbered = numbered;
    let ghost tail = strings_view(numbered@);
    let ghost first = strings_view(lines@);
    lines.append(&mut numbered);
    assert(strings_view(lines@) =~= first + tail);
    Ok(lines)
}

/// The number shown before a client in the listing, typed back as the
/// answer (alone or followed by the line end), chooses that same client:
/// line `i` is that number, `. ` and the client's email, and the number
/// selects `i + 1`, the client's place counted from 1.
pub proof fn law_listed_number_selects_client(cs: Seq<JsonModel>, i: int)
    requires
        0 <= i < cs.len(),
        cs.len() <= usize::MAX,
    ensures
        exists|num: Seq<char>|
            {
                &&& #[trigger] numbered_clients(cs)[i] == num + ". "@ + client_email(cs[i])
                &&& choice_of(num, cs.len() as usize) == Ok::<usize, XrayError>((i + 1) as usize)
                &&& choice_of(num + seq!['\n'], cs.len() as usize) == Ok::<usize, XrayError>(
                    (i + 1) as usize,
                )
            },
{
    let n = (i + 1) as usize;
    let num = decimal(n as nat);
    let none = Seq::<char>::empty();
    let nl = seq!['\n'];
    assert(crate::text::is_ws(nl[0]));
    law_answer_is_the_whole_number(n, cs.len() as usize, none, none);
    law_answer_is_the_whole_number(n, cs.len() as usize, none, nl);
    assert(none + num + none == num);
    assert(none + num + nl == num + nl);
    assert(numbered_clients(cs)[i] == num + ". "@ + client_email(cs[i]));
}

} // verus!
