//! The credential file: one `name: value` pair per line.

use vstd::prelude::*;
use crate::error::XrayError;
use crate::text::{
    chars_of, piece_starts_with, split_lines, starts_with, string_of, trim_bounds, trim_seq,
};
use crate::utils::entities::{KeyField, Keys};

verus! {

/// What follows `p` in `line`, where `line` begins with `p`.
pub open spec fn after_prefix(line: Seq<char>, p: Seq<char>) -> Option<Seq<char>> {
    if starts_with(line, p) {
        Some(line.skip(p.len() as int))
    } else {
        None
    }
}

/// The field that a trimmed line of the credential file sets, and its value.
/// `uuid: ` sets the UUID; `PrivateKey: ` or `Private key: ` the private key;
/// `Password: ` or `Public key: ` the public key; `shortsid: ` the short ID.
/// The first of these prefixes that matches decides.
pub open spec fn key_line(line: Seq<char>) -> Option<(KeyField, Seq<char>)> {
    if let Some(v) = after_prefix(line, "uuid: "@) {
        Some((KeyField::Uuid, v))
    } else if let Some(v) = after_prefix(line, "PrivateKey: "@) {
        Some((KeyField::PrivateKey, v))
    } else if let Some(v) = after_prefix(line, "Private key: "@) {
        Some((KeyField::PrivateKey, v))
    } else if let Some(v) = after_prefix(line, "Password: "@) {
        Some((KeyField::PublicKey, v))
    } else if let Some(v) = after_prefix(line, "Public key: "@) {
        Some((KeyField::PublicKey, v))
    } else if let Some(v) = after_prefix(line, "shortsid: "@) {
        Some((KeyField::ShortId, v))
    } else {
        None
    }
}

/// The value that the last line setting `f` gives it, lines being trimmed
/// before they are read.
pub open spec fn last_value(lines: Seq<Seq<char>>, f: KeyField) -> Option<Seq<char>>
    decreases lines.len(),
{
    if lines.len() == 0 {
        None
    } else {
        match key_line(trim_seq(lines.last())) {
            Some((g, v)) if g == f => Some(v),
            _ => last_value(lines.drop_last(), f),
        }
    }
}

/// The first field, in the order UUID, private key, public key, short ID,
/// that no line of `lines` sets.
pub open spec fn missing_field(lines: Seq<Seq<char>>) -> Option<KeyField> {
    if last_value(lines, KeyField::Uuid) is None {
        Some(KeyField::Uuid)
    } else if last_value(lines, KeyField::PrivateKey) is None {
        Some(KeyField::PrivateKey)
    } else if last_value(lines, KeyField::PublicKey) is None {
        Some(KeyField::PublicKey)
    } else if last_value(lines, KeyField::ShortId) is None {
        Some(KeyField::ShortId)
    } else {
        None
    }
}

/// The view of an optional string.
pub open spec fn opt_view(o: Option<String>) -> Option<Seq<char>> {
    match o {
        Some(s) => Some(s@),
        None => None,
    }
}

/// The keys that `content` holds, where it holds all four.
pub open spec fn keys_from(content: Seq<char>, k: Keys) -> bool {
    let lines = split_lines(content);
    &&& last_value(lines, KeyField::Uuid) == Some(k.uuid@)
    &&& last_value(lines, KeyField::PrivateKey) == Some(k.private_key@)
    &&& last_value(lines, KeyField::PublicKey) == Some(k.public_key@)
    &&& last_value(lines, KeyField::ShortId) == Some(k.short_id@)
}

/// The value after prefix `p` in the trimmed line `cs[a..b]`, if it has `p`.
fn value_after(cs: &Vec<char>, a: usize, b: usize, p: &str) -> (r: Option<String>)
    requires
        a <= b <= cs@.len(),
    ensures
        opt_view(r) == after_prefix(cs@.subrange(a as int, b as int), p@),
{
    let pc = chars_of(p);
    if piece_starts_with(cs, a, b, &pc) {
        let v = string_of(cs, a + pc.len(), b);
        assert(cs@.subrange(a as int, b as int).skip(pc@.len() as int) == cs@.subrange(
            a + pc@.len(),
            b as int,
        ));
        Some(v)
    } else {
        None
    }
}

/// The field that the line `cs[from..to]` sets, once trimmed, and its value.
fn classify_line(cs: &Vec<char>, from: usize, to: usize) -> (r: Option<(KeyField, String)>)
    requires
        from <= to <= cs@.len(),
    ensures
        match r {
            Some((f, v)) => key_line(trim_seq(cs@.subrange(from as int, to as int))) == Some(
                (f, v@),
            ),
            None => key_line(trim_seq(cs@.subrange(from as int, to as int))) is None,
        },
{
    let (a, b) = trim_bounds(cs, from, to);
    if let Some(v) = value_after(cs, a, b, "uuid: ") {
        return Some((KeyField::Uuid, v));
    }
    if let Some(v) = value_after(cs, a, b, "PrivateKey: ") {
        return Some((KeyField::PrivateKey, v));
    }
    if let Some(v) = value_after(cs, a, b, "Private key: ") {
        return Some((KeyField::PrivateKey, v));
    }
    if let Some(v) = value_after(cs, a, b, "Password: ") {
        return Some((KeyField::PublicKey, v));
    }
    if let Some(v) = value_after(cs, a, b, "Public key: ") {
        return Some((KeyField::PublicKey, v));
    }
    if let Some(v) = value_after(cs, a, b, "shortsid: ") {
        return Some((KeyField::ShortId, v));
    }
    None
}

/// The four fields as `lines` set them, once one more line is read.
proof fn lemma_last_value_push(lines: Seq<Seq<char>>, line: Seq<char>, f: KeyField)
    ensures
        last_value(lines.push(line), f) == match key_line(trim_seq(line)) {
            Some((g, v)) if g == f => Some(v),
            _ => last_value(lines, f),
        },
{
    assert(lines.push(line).drop_last() == lines);
    assert(lines.push(line).last() == line);
}

/// Later lines override earlier ones: what a field is after the lines `p`
/// then `x` is its last value in `x`, else its last value in `p`.
pub proof fn lemma_last_value_concat(p: Seq<Seq<char>>, x: Seq<Seq<char>>, f: KeyField)
    ensures
        last_value(p + x, f) == if last_value(x, f) is Some {
            last_value(x, f)
        } else {
            last_value(p, f)
        },
    decreases x.len(),
{
    if x.len() == 0 {
        assert(p + x == p);
    } else {
        let x0 = x.drop_last();
        lemma_last_value_concat(p, x0, f);
        assert((p + x).drop_last() == p + x0);
        assert((p + x).last() == x.last());
    }
}

/// Reads the credential file `content` as the `.keys` file that
/// installation writes: each line is trimmed; a line beginning with one of
/// the prefixes of [`key_line`] sets that field to the rest of the line; a
/// later line overrides an earlier one.  All four fields must be set.
pub fn read_keys(content: &str) -> (r: Result<Keys, XrayError>)
    ensures
        match missing_field(split_lines(content@)) {
            Some(f) => r matches Err(XrayError::MissingKey(g)) && g == f,
            None => r matches Ok(k) && keys_from(content@, k),
        },
{
    let cs = chars_of(content);
    let n = cs.len();
    let mut uuid: Option<String> = None;
    let mut private_key: Option<String> = None;
    let mut public_key: Option<String> = None;
    let mut short_id: Option<String> = None;
    let ghost mut done: Seq<Seq<char>> = Seq::empty();
    let mut start: usize = 0;
    let mut i: usize = 0;
    assert(cs@.take(0) == Seq::<char>::empty());
    assert(cs@.subrange(0, 0) == Seq::<char>::empty());
    assert(done.push(Seq::<char>::empty()) == seq![Seq::<char>::empty()]);
    while i < n
        invariant
            n == cs@.len(),
            cs@ == content@,
            start <= i <= n,
            split_lines(cs@.take(i as int)) == done.push(cs@.subrange(start as int, i as int)),
            opt_view(uuid) == last_value(done, KeyField::Uuid),
            opt_view(private_key) == last_value(done, KeyField::PrivateKey),
            opt_view(public_key) == last_value(done, KeyField::PublicKey),
            opt_view(short_id) == last_value(done, KeyField::ShortId),
        decreases n - i,
    {
        let ghost prev = cs@.take(i as int);
        let ghost cur = cs@.subrange(start as int, i as int);
        assert(cs@.take(i + 1).drop_last() == prev);
        assert(cs@.take(i + 1).last() == cs@[i as int]);
        if cs[i] == '\n' {
            let line = classify_line(&cs, start, i);
            proof {
                lemma_last_value_push(done, cur, KeyField::Uuid);
                lemma_last_value_push(done, cur, KeyField::PrivateKey);
                lemma_last_value_push(done, cur, KeyField::PublicKey);
                lemma_last_value_push(done, cur, KeyField::ShortId);
            }
            match line {
                Some((KeyField::Uuid, v)) => {
                    uuid = Some(v);
                },
                Some((KeyField::PrivateKey, v)) => {
                    private_key = Some(v);
                },
                Some((KeyField::PublicKey, v)) => {
                    public_key = Some(v);
                },
                Some((KeyField::ShortId, v)) => {
                    short_id = Some(v);
                },
                None => {},
            }
            proof {
                done = done.push(cur);
                assert(cs@.subrange(i + 1, i + 1) == Seq::<char>::empty());
            }
            start = i + 1;
        } else {
            assert(cur.push(cs@[i as int]) == cs@.subrange(start as int, i + 1));
            assert(done.push(cur).update(done.len() as int, cur.push(cs@[i as int])) == done.push(
                cs@.subrange(start as int, i + 1),
            ));
        }
        i = i + 1;
    }
    let ghost cur = cs@.subrange(start as int, n as int);
    let line = classify_line(&cs, start, n);
    proof {
        lemma_last_value_push(done, cur, KeyField::Uuid);
        lemma_last_value_push(done, cur, KeyField::PrivateKey);
        lemma_last_value_push(done, cur, KeyField::PublicKey);
        lemma_last_value_push(done, cur, KeyField::ShortId);
        assert(cs@.take(n as int) == cs@);
    }
    match line {
        Some((KeyField::Uuid, v)) => {
            uuid = Some(v);
        },
        Some((KeyField::PrivateKey, v)) => {
            private_key = Some(v);
        },
        Some((KeyField::PublicKey, v)) => {
            public_key = Some(v);
        },
        Some((KeyField::ShortId, v)) => {
            short_id = Some(v);
        },
        None => {},
    }
    let uuid = match uuid {
        Some(v) => v,
        None => return Err(XrayError::MissingKey(KeyField::Uuid)),
    };
    let private_key = match private_key {
        Some(v) => v,
        None => return Err(XrayError::MissingKey(KeyField::PrivateKey)),
    };
    let public_key = match public_key {
        Some(v) => v,
        None => return Err(XrayError::MissingKey(KeyField::PublicKey)),
    };
    let short_id = match short_id {
        Some(v) => v,
        None => return Err(XrayError::MissingKey(KeyField::ShortId)),
    };
    Ok(Keys { uuid, private_key, public_key, short_id })
}

} // verus!
