//! The key extractor: recovers the `secret` and `nullifier` values from the
//! key/value document that the upstream circuit was fed.
//!
//! A line carries a value for a key when, with the whitespace around it
//! removed, it begins with the key and holds a `=`. The value is what follows
//! the first `=`, without the whitespace around it and without one double
//! quote at either end. Blank lines and lines that begin with `#` carry
//! nothing. The first line that carries a value for a key decides it.

use vstd::prelude::*;
use vstd::slice::slice_subrange;
use crate::document::scalar_line;
use crate::error::AssembleError;
use crate::lines::{lines_of, single_line, split_first_line};
use crate::text::{find, lemma_position, lemma_trimmed_end, lemma_trimmed_start, position,
    starts_with, to_chars, to_text, trim, trimmed, trimmed_end, trimmed_start, white_space};

verus! {

/// The key under which the upstream document holds the secret.
pub open spec fn secret_key() -> Seq<char> {
    "secret"@
}

/// The key under which the upstream document holds the nullifier.
pub open spec fn nullifier_key() -> Seq<char> {
    "nullifier"@
}

/// `s` without one double quote at its start and one at its end, each
/// removed only if it is there.
pub open spec fn unquoted(s: Seq<char>) -> Seq<char> {
    let open = if s.len() > 0 && s.first() == '"' {
        s.drop_first()
    } else {
        s
    };
    if open.len() > 0 && open.last() == '"' {
        open.drop_last()
    } else {
        open
    }
}

/// The value that `line` carries for `key`, if it carries one.
pub open spec fn line_value(line: Seq<char>, key: Seq<char>) -> Option<Seq<char>> {
    let t = trimmed(line);
    let eq = position(t, '=');
    if key.is_prefix_of(t) && eq < t.len() {
        Some(unquoted(trimmed(t.skip(eq as int + 1))))
    } else {
        None
    }
}

/// Whether `line` is blank or a comment.
pub open spec fn skipped(line: Seq<char>) -> bool {
    let t = trimmed(line);
    t.len() == 0 || t.first() == '#'
}

/// The value of `key` in a document with the given lines: the one carried by
/// the first line that is not skipped and carries a value for `key`.
pub open spec fn first_value(lines: Seq<Seq<char>>, key: Seq<char>) -> Option<Seq<char>>
    decreases lines.len(),
{
    if lines.len() == 0 {
        None
    } else if !skipped(lines.first()) && line_value(lines.first(), key) is Some {
        line_value(lines.first(), key)
    } else {
        first_value(lines.drop_first(), key)
    }
}

/// The secret and the nullifier of a document with the given lines, if it
/// holds both.
pub open spec fn secret_pair(lines: Seq<Seq<char>>) -> Option<(Seq<char>, Seq<char>)> {
    match (first_value(lines, secret_key()), first_value(lines, nullifier_key())) {
        (Some(secret), Some(nullifier)) => Some((secret, nullifier)),
        _ => None,
    }
}

/// What one more line at the end does to the value of `key`: nothing if
/// the value was found before, else the line decides.
proof fn lemma_first_value_push(lines: Seq<Seq<char>>, line: Seq<char>, key: Seq<char>)
    ensures
        first_value(lines.push(line), key) == if first_value(lines, key) is Some {
            first_value(lines, key)
        } else if !skipped(line) {
            line_value(line, key)
        } else {
            None
        },
    decreases lines.len(),
{
    let longer = lines.push(line);
    if lines.len() == 0 {
        assert(longer.drop_first() =~= lines);
    } else {
        assert(longer.first() == lines.first());
        assert(longer.drop_first() =~= lines.drop_first().push(line));
        lemma_first_value_push(lines.drop_first(), line, key);
    }
}

/// A value that was found stays found, whatever lines follow.
proof fn lemma_first_value_extend(lines: Seq<Seq<char>>, more: Seq<Seq<char>>, key: Seq<char>)
    requires
        first_value(lines, key) is Some,
    ensures
        first_value(lines + more, key) == first_value(lines, key),
    decreases lines.len(),
{
    let all = lines + more;
    assert(all.first() == lines.first());
    assert(all.drop_first() =~= lines.drop_first() + more);
    if !(!skipped(lines.first()) && line_value(lines.first(), key) is Some) {
        lemma_first_value_extend(lines.drop_first(), more, key);
    }
}

/// The line of a scalar field has no whitespace around it.
pub proof fn lemma_scalar_line_trimmed(key: Seq<char>, value: Seq<char>)
    requires
        key.len() > 0,
        !white_space(key.first()),
    ensures
        trimmed(scalar_line(key, value)) == scalar_line(key, value),
{
    reveal_strlit(" = \"");
    reveal_strlit("\"");
    let line = scalar_line(key, value);
    assert(line.first() == key.first());
    assert(trimmed_start(line) == line);
    assert(line.last() == '"');
}

/// What is written as the scalar field `key` is read back as the value of
/// `key`, whatever the value: if `key` is not empty, does not begin with
/// whitespace and holds no `=`, the line `key = "value"` carries `value`
/// for `key`.
pub proof fn lemma_scalar_line_value(key: Seq<char>, value: Seq<char>)
    requires
        key.len() > 0,
        !white_space(key.first()),
        forall|j: int| 0 <= j < key.len() ==> key[j] != '=',
    ensures
        line_value(scalar_line(key, value), key) == Some(value),
{
    reveal_strlit(" = \"");
    reveal_strlit("\"");
    let line = scalar_line(key, value);
    lemma_scalar_line_trimmed(key, value);
    assert(line.subrange(0, key.len() as int) =~= key);
    let eq = key.len() + 1;
    assert forall|j: int| 0 <= j < eq implies line[j] != '=' by {
        if j < key.len() {
            assert(line[j] == key[j]);
        }
    }
    assert(line[eq as int] == '=');
    lemma_position(line, '=', eq as int);
    let after = line.skip(eq as int + 1);
    let quoted = seq!['"'] + value + seq!['"'];
    assert(after =~= seq![' '] + quoted);
    assert(after.drop_first() =~= quoted);
    assert(trimmed_start(after) == trimmed_start(quoted));
    assert(trimmed_start(quoted) == quoted);
    assert(trimmed_end(quoted) == quoted);
    assert(quoted.drop_first() =~= value + seq!['"']);
    assert((value + seq!['"']).drop_last() =~= value);
}

/// Where every line either is skipped, carries no value for `key` or
/// carries `value`, and the line at `at` does carry it, `value` is found.
proof fn lemma_first_value_found(lines: Seq<Seq<char>>, key: Seq<char>, value: Seq<char>, at: int)
    requires
        forall|i: int|
            0 <= i < lines.len() ==> skipped(#[trigger] lines[i]) || line_value(lines[i], key)
                is None || line_value(lines[i], key) == Some(value),
        0 <= at < lines.len(),
        !skipped(lines[at]),
        line_value(lines[at], key) == Some(value),
    ensures
        first_value(lines, key) == Some(value),
    decreases lines.len(),
{
    if !(!skipped(lines.first()) && line_value(lines.first(), key) is Some) {
        let rest = lines.drop_first();
        assert forall|i: int| 0 <= i < rest.len() implies skipped(#[trigger] rest[i])
            || line_value(rest[i], key) is None || line_value(rest[i], key) == Some(value) by {
            assert(rest[i] == lines[i + 1]);
        }
        assert(rest[at - 1] == lines[at]);
        lemma_first_value_found(rest, key, value, at - 1);
    } else {
        assert(lines.first() == lines[0]);
    }
}

/// A document that holds the line `secret = "s"` and the line
/// `nullifier = "n"`, in either order, each any number of times, and
/// besides them only blank lines and comments, yields the pair `(s, n)`.
pub proof fn lemma_pair_found(lines: Seq<Seq<char>>, secret: Seq<char>, nullifier: Seq<char>)
    requires
        forall|i: int|
            0 <= i < lines.len() ==> skipped(#[trigger] lines[i]) || lines[i] == scalar_line(
                secret_key(),
                secret,
            ) || lines[i] == scalar_line(nullifier_key(), nullifier),
        exists|i: int| 0 <= i < lines.len() && #[trigger] lines[i] == scalar_line(secret_key(), secret),
        exists|i: int|
            0 <= i < lines.len() && #[trigger] lines[i] == scalar_line(nullifier_key(), nullifier),
    ensures
        secret_pair(lines) == Some((secret, nullifier)),
{
    reveal_strlit("secret");
    reveal_strlit("nullifier");
    let secret_line = scalar_line(secret_key(), secret);
    let nullifier_line = scalar_line(nullifier_key(), nullifier);
    lemma_scalar_line_trimmed(secret_key(), secret);
    lemma_scalar_line_trimmed(nullifier_key(), nullifier);
    lemma_scalar_line_value(secret_key(), secret);
    lemma_scalar_line_value(nullifier_key(), nullifier);
    assert(secret_line.first() == 's');
    assert(nullifier_line.first() == 'n');
    assert(line_value(nullifier_line, secret_key()) is None) by {
        if secret_key().is_prefix_of(nullifier_line) {
            assert(nullifier_line.subrange(0, secret_key().len() as int)[0] == secret_key()[0]);
        }
    }
    assert(line_value(secret_line, nullifier_key()) is None) by {
        if nullifier_key().is_prefix_of(secret_line) {
            assert(secret_line.subrange(0, nullifier_key().len() as int)[0] == nullifier_key()[0]);
        }
    }
    let at_secret = choose|i: int| 0 <= i < lines.len() && #[trigger] lines[i] == secret_line;
    let at_nullifier = choose|i: int| 0 <= i < lines.len() && #[trigger] lines[i] == nullifier_line;
    lemma_first_value_found(lines, secret_key(), secret, at_secret);
    lemma_first_value_found(lines, nullifier_key(), nullifier, at_nullifier);
}

/// Trimming a text without line feeds leaves one.
proof fn lemma_trimmed_single(s: Seq<char>)
    requires
        single_line(s),
    ensures
        single_line(trimmed(s)),
{
    lemma_trimmed_start(s);
    let a = trimmed_start(s);
    lemma_trimmed_end(a);
    let b = trimmed_end(a);
    let k = s.len() - a.len();
    assert forall|j: int| 0 <= j < b.len() implies b[j] != '\n' by {
        assert(b[j] == a.subrange(0, b.len() as int)[j]);
        assert(a[j] == s.skip(k)[j]);
    }
}

/// The value that a line without line feeds carries holds none.
proof fn lemma_line_value_single(line: Seq<char>, key: Seq<char>)
    requires
        single_line(line),
        line_value(line, key) is Some,
    ensures
        single_line(line_value(line, key)->Some_0),
{
    lemma_trimmed_single(line);
    let t = trimmed(line);
    let after = t.skip(position(t, '=') as int + 1);
    assert(single_line(after));
    lemma_trimmed_single(after);
    let v = trimmed(after);
    let open = if v.len() > 0 && v.first() == '"' {
        v.drop_first()
    } else {
        v
    };
    assert(single_line(open));
}

/// The value found in lines without line feeds holds none.
proof fn lemma_first_value_single(lines: Seq<Seq<char>>, key: Seq<char>)
    requires
        forall|i: int| 0 <= i < lines.len() ==> single_line(#[trigger] lines[i]),
        first_value(lines, key) is Some,
    ensures
        single_line(first_value(lines, key)->Some_0),
    decreases lines.len(),
{
    if !skipped(lines.first()) && line_value(lines.first(), key) is Some {
        assert(single_line(lines[0]));
        lemma_line_value_single(lines.first(), key);
    } else {
        let rest = lines.drop_first();
        assert forall|i: int| 0 <= i < rest.len() implies single_line(#[trigger] rest[i]) by {
            assert(rest[i] == lines[i + 1]);
        }
        lemma_first_value_single(rest, key);
    }
}

/// The secret and the nullifier of a document whose lines hold no line
/// feed hold none either.
pub proof fn lemma_secret_pair_single(lines: Seq<Seq<char>>)
    requires
        forall|i: int| 0 <= i < lines.len() ==> single_line(#[trigger] lines[i]),
        secret_pair(lines) is Some,
    ensures
        single_line(secret_pair(lines)->Some_0.0),
        single_line(secret_pair(lines)->Some_0.1),
{
    lemma_first_value_single(lines, secret_key());
    lemma_first_value_single(lines, nullifier_key());
}

/// `s` without one double quote at either end.
pub fn strip_quotes(s: &[char]) -> (r: &[char])
    ensures
        r@ == unquoted(s@),
{
    let open = if s.len() > 0 && s[0] == '"' {
        slice_subrange(s, 1, s.len())
    } else {
        s
    };
    if open.len() > 0 && open[open.len() - 1] == '"' {
        slice_subrange(open, 0, open.len() - 1)
    } else {
        open
    }
}

/// Whether `line` is blank or a comment.
pub fn is_skipped(line: &[char]) -> (b: bool)
    ensures
        b == skipped(line@),
{
    let t = trim(line);
    t.len() == 0 || t[0] == '#'
}

/// The value that `line` carries for `key`, as a part of `line`.
pub fn value_in_line<'a>(line: &'a [char], key: &[char]) -> (r: Option<&'a [char]>)
    ensures
        match r {
            Some(value) => line_value(line@, key@) == Some(value@),
            None => line_value(line@, key@) is None,
        },
{
    let t = trim(line);
    if !starts_with(t, key) {
        return None;
    }
    let eq = find(t, '=');
    if eq >= t.len() {
        return None;
    }
    let after = slice_subrange(t, eq + 1, t.len());
    assert(after@ =~= t@.skip(eq as int + 1));
    Some(strip_quotes(trim(after)))
}

/// The value that `line` carries for `key`, if it carries one.
pub fn parse_toml_line(line: &str, key: &str) -> (value: Option<String>)
    ensures
        value.deep_view() == line_value(line@, key@),
{
    let line_chars = to_chars(line);
    let key_chars = to_chars(key);
    match value_in_line(line_chars.as_slice(), key_chars.as_slice()) {
        Some(value) => Some(to_text(value)),
        None => None,
    }
}

/// The view of a value that may have been found.
spec fn found(value: Option<&[char]>) -> Option<Seq<char>> {
    match value {
        Some(v) => Some(v@),
        None => None,
    }
}

/// The secret and the nullifier of the upstream document with contents
/// `content`. Fails with `MissingField` exactly when the document does not
/// hold both.
pub fn read_prover_toml(content: &str) -> (r: Result<(String, String), AssembleError>)
    ensures
        match r {
            Ok(pair) => secret_pair(lines_of(content@)) == Some((pair.0@, pair.1@)),
            Err(e) => e == AssembleError::MissingField && secret_pair(lines_of(content@)) is None,
        },
{
    let chars = to_chars(content);
    let secret_chars = to_chars("secret");
    let nullifier_chars = to_chars("nullifier");
    let mut rest = chars.as_slice();
    let mut secret: Option<&[char]> = None;
    let mut nullifier: Option<&[char]> = None;
    let ghost mut seen: Seq<Seq<char>> = Seq::empty();
    assert(seen + lines_of(rest@) =~= lines_of(content@));
    loop
        invariant
            secret_chars@ == secret_key(),
            nullifier_chars@ == nullifier_key(),
            lines_of(content@) == seen + lines_of(rest@),
            found(secret) == first_value(seen, secret_key()),
            found(nullifier) == first_value(seen, nullifier_key()),
        ensures
            found(secret) == first_value(lines_of(content@), secret_key()),
            found(nullifier) == first_value(lines_of(content@), nullifier_key()),
        decreases rest@.len(),
    {
        if secret.is_some() && nullifier.is_some() {
            proof {
                lemma_first_value_extend(seen, lines_of(rest@), secret_key());
                lemma_first_value_extend(seen, lines_of(rest@), nullifier_key());
            }
            break ;
        }
        match split_first_line(rest) {
            Some((line, tail)) => {
                proof {
                    lemma_first_value_push(seen, line@, secret_key());
                    lemma_first_value_push(seen, line@, nullifier_key());
                    assert(seen + (seq![line@] + lines_of(tail@)) =~= seen.push(line@) + lines_of(
                        tail@,
                    ));
                    seen = seen.push(line@);
                }
                if !is_skipped(line) {
                    if secret.is_none() {
                        secret = value_in_line(line, secret_chars.as_slice());
                    }
                    if nullifier.is_none() {
                        nullifier = value_in_line(line, nullifier_chars.as_slice());
                    }
                }
                rest = tail;
            },
            None => {
                assert(seen + lines_of(rest@) =~= seen);
                break ;
            },
        }
    }
    match (secret, nullifier) {
        (Some(s), Some(n)) => Ok((to_text(s), to_text(n))),
        _ => Err(AssembleError::MissingField),
    }
}

} // verus!
