//! The document assembler: gathers the values of all fields, and writes them
//! in the one order and form that the consuming circuit accepts.
//!
//! A scalar field is the line `key = "value"`. An array field is the line
//! `key = [`, one line per element, made of four spaces, the element and a
//! comma, and the line `]`. The path indices are written bare, the siblings
//! in double quotes.

use vstd::prelude::*;
use vstd::string::StringExecFns;
use crate::error::{outcome_view, AssembleError};
use crate::extract::{lemma_secret_pair_single, read_prover_toml, secret_pair};
use crate::lines::{first_line_of, is_line, joined, lemma_first_line_single, lemma_joined_concat,
    lemma_joined_one, lemma_lines_round_trip, lemma_lines_single, lines_of, read_first_line,
    read_lines, single_line};

verus! {

/// The line of the scalar field `key` with the given value.
pub open spec fn scalar_line(key: Seq<char>, value: Seq<char>) -> Seq<char> {
    key + " = \""@ + value + "\""@
}

/// The line that opens the array field `key`.
pub open spec fn array_open(key: Seq<char>) -> Seq<char> {
    key + " = ["@
}

/// The line of an array element that is written as it is.
pub open spec fn bare_item(item: Seq<char>) -> Seq<char> {
    "    "@ + item + ","@
}

/// The line of an array element that is written in double quotes.
pub open spec fn quoted_item(item: Seq<char>) -> Seq<char> {
    "    \""@ + item + "\","@
}

/// The line that closes an array field.
pub open spec fn array_close() -> Seq<char> {
    "]"@
}

/// The lines of the elements of an array field.
pub open spec fn item_lines(items: Seq<Seq<char>>, quoted: bool) -> Seq<Seq<char>> {
    Seq::new(
        items.len(),
        |i: int|
            if quoted {
                quoted_item(items[i])
            } else {
                bare_item(items[i])
            },
    )
}

/// The lines of the array field `key` with the given elements.
pub open spec fn array_lines(key: Seq<char>, items: Seq<Seq<char>>, quoted: bool) -> Seq<
    Seq<char>,
> {
    seq![array_open(key)] + item_lines(items, quoted) + seq![array_close()]
}

/// The fields of the document, each with its value.
#[derive(Debug, PartialEq, Eq)]
pub struct ProofInputs {
    /// The time at which the document is assembled.
    pub current_timestamp: String,
    /// The time that was recorded when the event was created.
    pub create_timestamp: String,
    /// The root of the Merkle tree.
    pub root: String,
    /// The secret carried over from the upstream document.
    pub secret: String,
    /// The nullifier carried over from the upstream document.
    pub nullifier: String,
    /// The hash of the nullifier.
    pub nullifier_hash: String,
    /// The path indices of the inclusion proof, one per tree level.
    pub proof_path_indices: Vec<String>,
    /// The sibling hashes of the inclusion proof, one per tree level.
    pub proof_siblings: Vec<String>,
}

/// What `ProofInputs` holds, as sequences of characters.
pub struct ProofInputsView {
    pub current_timestamp: Seq<char>,
    pub create_timestamp: Seq<char>,
    pub root: Seq<char>,
    pub secret: Seq<char>,
    pub nullifier: Seq<char>,
    pub nullifier_hash: Seq<char>,
    pub proof_path_indices: Seq<Seq<char>>,
    pub proof_siblings: Seq<Seq<char>>,
}

impl View for ProofInputs {
    type V = ProofInputsView;

    open spec fn view(&self) -> ProofInputsView {
        ProofInputsView {
            current_timestamp: self.current_timestamp@,
            create_timestamp: self.create_timestamp@,
            root: self.root@,
            secret: self.secret@,
            nullifier: self.nullifier@,
            nullifier_hash: self.nullifier_hash@,
            proof_path_indices: self.proof_path_indices.deep_view(),
            proof_siblings: self.proof_siblings.deep_view(),
        }
    }
}

/// The lines of the document that do not depend on the time of assembly.
pub open spec fn body_lines(fields: ProofInputsView) -> Seq<Seq<char>> {
    seq![
        scalar_line("create_timestamp"@, fields.create_timestamp),
        scalar_line("root"@, fields.root),
        scalar_line("secret"@, fields.secret),
        scalar_line("nullifier"@, fields.nullifier),
        scalar_line("nullifier_hash"@, fields.nullifier_hash),
    ] + array_lines("proof_path_indices"@, fields.proof_path_indices, false) + array_lines(
        "proof_siblings"@,
        fields.proof_siblings,
        true,
    )
}

/// The lines of the document, in order.
pub open spec fn document_lines(fields: ProofInputsView) -> Seq<Seq<char>> {
    seq![scalar_line("current_timestamp"@, fields.current_timestamp)] + body_lines(fields)
}

/// The document: each of its lines, followed by a line feed.
pub open spec fn document_text(fields: ProofInputsView) -> Seq<char> {
    joined(document_lines(fields))
}

/// Whether no value among the fields holds a line feed.
pub open spec fn line_safe(fields: ProofInputsView) -> bool {
    &&& single_line(fields.current_timestamp)
    &&& single_line(fields.create_timestamp)
    &&& single_line(fields.root)
    &&& single_line(fields.secret)
    &&& single_line(fields.nullifier)
    &&& single_line(fields.nullifier_hash)
    &&& forall|i: int|
        0 <= i < fields.proof_path_indices.len() ==> single_line(
            #[trigger] fields.proof_path_indices[i],
        )
    &&& forall|i: int|
        0 <= i < fields.proof_siblings.len() ==> single_line(#[trigger] fields.proof_siblings[i])
}

/// The line of a scalar field is one line, if its key and value are.
proof fn lemma_scalar_line_is_line(key: Seq<char>, value: Seq<char>)
    requires
        single_line(key),
        single_line(value),
    ensures
        is_line(scalar_line(key, value)),
{
    reveal_strlit(" = \"");
    reveal_strlit("\"");
    let line = scalar_line(key, value);
    assert(line.last() == '"');
    assert forall|j: int| 0 <= j < line.len() implies line[j] != '\n' by {
        if j < key.len() {
            assert(line[j] == key[j]);
        } else if key.len() + 4 <= j < key.len() + 4 + value.len() {
            assert(line[j] == value[j - key.len() - 4]);
        }
    }
}

/// Each line of an array field is one line, if its key and elements are.
proof fn lemma_array_lines_are_lines(key: Seq<char>, items: Seq<Seq<char>>, quoted: bool)
    requires
        single_line(key),
        forall|i: int| 0 <= i < items.len() ==> single_line(#[trigger] items[i]),
    ensures
        forall|i: int|
            0 <= i < array_lines(key, items, quoted).len() ==> is_line(
                #[trigger] array_lines(key, items, quoted)[i],
            ),
{
    reveal_strlit(" = [");
    reveal_strlit("    ");
    reveal_strlit(",");
    reveal_strlit("    \"");
    reveal_strlit("\",");
    reveal_strlit("]");
    let all = array_lines(key, items, quoted);
    assert forall|i: int| 0 <= i < all.len() implies is_line(#[trigger] all[i]) by {
        let line = all[i];
        if i == 0 {
            assert(line == array_open(key));
            assert(line.last() == '[');
            assert forall|j: int| 0 <= j < line.len() implies line[j] != '\n' by {
                if j < key.len() {
                    assert(line[j] == key[j]);
                }
            }
        } else if i <= items.len() {
            let item = items[i - 1];
            assert(single_line(item));
            assert(line == item_lines(items, quoted)[i - 1]);
            assert(line.last() == ',');
            if quoted {
                assert forall|j: int| 0 <= j < line.len() implies line[j] != '\n' by {
                    if 5 <= j < 5 + item.len() {
                        assert(line[j] == item[j - 5]);
                    }
                }
            } else {
                assert forall|j: int| 0 <= j < line.len() implies line[j] != '\n' by {
                    if 4 <= j < 4 + item.len() {
                        assert(line[j] == item[j - 4]);
                    }
                }
            }
        } else {
            assert(line == array_close());
        }
    }
}

/// Values that hold no line feed cannot break the lines of the document:
/// read back line by line, the document gives the lines it was made of, so
/// that each field stands where it was put and each array has the
/// elements it was given, in their order.
pub proof fn lemma_document_lines(fields: ProofInputsView)
    requires
        line_safe(fields),
    ensures
        lines_of(document_text(fields)) == document_lines(fields),
{
    reveal_strlit("current_timestamp");
    reveal_strlit("create_timestamp");
    reveal_strlit("root");
    reveal_strlit("secret");
    reveal_strlit("nullifier");
    reveal_strlit("nullifier_hash");
    reveal_strlit("proof_path_indices");
    reveal_strlit("proof_siblings");
    lemma_scalar_line_is_line("current_timestamp"@, fields.current_timestamp);
    lemma_scalar_line_is_line("create_timestamp"@, fields.create_timestamp);
    lemma_scalar_line_is_line("root"@, fields.root);
    lemma_scalar_line_is_line("secret"@, fields.secret);
    lemma_scalar_line_is_line("nullifier"@, fields.nullifier);
    lemma_scalar_line_is_line("nullifier_hash"@, fields.nullifier_hash);
    lemma_array_lines_are_lines("proof_path_indices"@, fields.proof_path_indices, false);
    lemma_array_lines_are_lines("proof_siblings"@, fields.proof_siblings, true);
    let scalars = seq![
        scalar_line("current_timestamp"@, fields.current_timestamp),
        scalar_line("create_timestamp"@, fields.create_timestamp),
        scalar_line("root"@, fields.root),
        scalar_line("secret"@, fields.secret),
        scalar_line("nullifier"@, fields.nullifier),
        scalar_line("nullifier_hash"@, fields.nullifier_hash),
    ];
    let indices = array_lines("proof_path_indices"@, fields.proof_path_indices, false);
    let siblings = array_lines("proof_siblings"@, fields.proof_siblings, true);
    let all = document_lines(fields);
    assert(all =~= scalars + indices + siblings);
    assert forall|i: int| 0 <= i < all.len() implies is_line(#[trigger] all[i]) by {
        if i < 6 {
            assert(all[i] == scalars[i]);
        } else if i < 6 + indices.len() {
            assert(all[i] == indices[i - 6]);
        } else {
            assert(all[i] == siblings[i - 6 - indices.len()]);
        }
    }
    lemma_lines_round_trip(all);
}

/// Whatever the input files hold, what is gathered from them holds no line
/// feed. With a timestamp that holds none either, the document therefore
/// has exactly the lines of its fields.
pub proof fn lemma_gathered_line_safe(readings: ReadingsView)
    requires
        failure(readings) is None,
        single_line(readings.current_timestamp->Ok_0),
    ensures
        line_safe(gathered(readings)),
        lines_of(document_text(gathered(readings))) == document_lines(gathered(readings)),
{
    lemma_first_line_single(readings.create_timestamp->Ok_0);
    lemma_first_line_single(readings.root->Ok_0);
    lemma_first_line_single(readings.nullifier_hash->Ok_0);
    lemma_lines_single(readings.proof_path_indices->Ok_0);
    lemma_lines_single(readings.proof_siblings->Ok_0);
    lemma_lines_single(readings.upstream->Ok_0);
    lemma_secret_pair_single(lines_of(readings.upstream->Ok_0));
    lemma_document_lines(gathered(readings));
}

/// Appends the line of a scalar field to `out`.
fn write_scalar(out: &mut String, key: &str, value: &str)
    ensures
        final(out)@ == old(out)@ + joined(seq![scalar_line(key@, value@)]),
{
    out.append(key);
    out.append(" = \"");
    out.append(value);
    out.append("\"");
    out.push('\n');
    proof {
        lemma_joined_one(scalar_line(key@, value@));
        assert(out@ =~= old(out)@ + (scalar_line(key@, value@) + seq!['\n']));
    }
}

/// Appends the lines of an array field to `out`.
fn write_array(out: &mut String, key: &str, items: &Vec<String>, quoted: bool)
    ensures
        final(out)@ == old(out)@ + joined(array_lines(key@, items.deep_view(), quoted)),
{
    let ghost all = item_lines(items.deep_view(), quoted);
    out.append(key);
    out.append(" = [");
    out.push('\n');
    proof {
        lemma_joined_one(array_open(key@));
        assert(out@ =~= old(out)@ + joined(seq![array_open(key@)]));
        assert(all.take(0) =~= Seq::<Seq<char>>::empty());
    }
    let mut i: usize = 0;
    while i < items.len()
        invariant
            i <= items.len(),
            all == item_lines(items.deep_view(), quoted),
            out@ == old(out)@ + joined(seq![array_open(key@)]) + joined(all.take(i as int)),
        decreases items.len() - i,
    {
        let ghost before = out@;
        if quoted {
            out.append("    \"");
            out.append(items[i].as_str());
            out.append("\",");
        } else {
            out.append("    ");
            out.append(items[i].as_str());
            out.append(",");
        }
        out.push('\n');
        proof {
            let line = all[i as int];
            assert(items.deep_view()[i as int] == items@[i as int]@);
            assert(out@ =~= before + (line + seq!['\n']));
            lemma_joined_one(line);
            lemma_joined_concat(all.take(i as int), seq![line]);
            assert(all.take(i + 1) =~= all.take(i as int) + seq![line]);
        }
        i += 1;
    }
    out.append("]");
    out.push('\n');
    proof {
        assert(all.take(i as int) =~= all);
        lemma_joined_one(array_close());
        lemma_joined_concat(seq![array_open(key@)], all);
        lemma_joined_concat(seq![array_open(key@)] + all, seq![array_close()]);
        assert(out@ =~= old(out)@ + (joined(seq![array_open(key@)]) + joined(all) + joined(
            seq![array_close()],
        )));
    }
}

impl ProofInputs {
    /// The document that holds these fields.
    pub fn render(&self) -> (text: String)
        ensures
            text@ == document_text(self@),
    {
        let mut out = String::new();
        write_scalar(&mut out, "current_timestamp", self.current_timestamp.as_str());
        write_scalar(&mut out, "create_timestamp", self.create_timestamp.as_str());
        write_scalar(&mut out, "root", self.root.as_str());
        write_scalar(&mut out, "secret", self.secret.as_str());
        write_scalar(&mut out, "nullifier", self.nullifier.as_str());
        write_scalar(&mut out, "nullifier_hash", self.nullifier_hash.as_str());
        write_array(&mut out, "proof_path_indices", &self.proof_path_indices, false);
        write_array(&mut out, "proof_siblings", &self.proof_siblings, true);
        proof {
            let f = self@;
            let l0 = seq![scalar_line("current_timestamp"@, f.current_timestamp)];
            let l1 = seq![scalar_line("create_timestamp"@, f.create_timestamp)];
            let l2 = seq![scalar_line("root"@, f.root)];
            let l3 = seq![scalar_line("secret"@, f.secret)];
            let l4 = seq![scalar_line("nullifier"@, f.nullifier)];
            let l5 = seq![scalar_line("nullifier_hash"@, f.nullifier_hash)];
            let a1 = array_lines("proof_path_indices"@, f.proof_path_indices, false);
            let a2 = array_lines("proof_siblings"@, f.proof_siblings, true);
            lemma_joined_concat(l0, l1);
            lemma_joined_concat(l0 + l1, l2);
            lemma_joined_concat(l0 + l1 + l2, l3);
            lemma_joined_concat(l0 + l1 + l2 + l3, l4);
            lemma_joined_concat(l0 + l1 + l2 + l3 + l4, l5);
            lemma_joined_concat(l0 + l1 + l2 + l3 + l4 + l5, a1);
            lemma_joined_concat(l0 + l1 + l2 + l3 + l4 + l5 + a1, a2);
            assert(document_lines(f) =~= l0 + l1 + l2 + l3 + l4 + l5 + a1 + a2);
            assert(out@ =~= joined(l0) + joined(l1) + joined(l2) + joined(l3) + joined(l4)
                + joined(l5) + joined(a1) + joined(a2));
        }
        out
    }
}

/// What was gathered of each input: the contents of a file that was read,
/// the timestamp where the clock could be read, or the reason why not.
pub struct Readings {
    /// The timestamp for the time of assembly.
    pub current_timestamp: Result<String, AssembleError>,
    /// The file that holds the recorded creation timestamp.
    pub create_timestamp: Result<String, AssembleError>,
    /// The file that holds the nullifier hash.
    pub nullifier_hash: Result<String, AssembleError>,
    /// The file that holds the Merkle root.
    pub root: Result<String, AssembleError>,
    /// The input document of the upstream circuit.
    pub upstream: Result<String, AssembleError>,
    /// The file that holds the sibling hashes, one per line.
    pub proof_siblings: Result<String, AssembleError>,
    /// The file that holds the path indices, one per line.
    pub proof_path_indices: Result<String, AssembleError>,
}

/// What `Readings` holds, as sequences of characters.
pub struct ReadingsView {
    pub current_timestamp: Result<Seq<char>, AssembleError>,
    pub create_timestamp: Result<Seq<char>, AssembleError>,
    pub nullifier_hash: Result<Seq<char>, AssembleError>,
    pub root: Result<Seq<char>, AssembleError>,
    pub upstream: Result<Seq<char>, AssembleError>,
    pub proof_siblings: Result<Seq<char>, AssembleError>,
    pub proof_path_indices: Result<Seq<char>, AssembleError>,
}

impl View for Readings {
    type V = ReadingsView;

    open spec fn view(&self) -> ReadingsView {
        ReadingsView {
            current_timestamp: outcome_view(self.current_timestamp),
            create_timestamp: outcome_view(self.create_timestamp),
            nullifier_hash: outcome_view(self.nullifier_hash),
            root: outcome_view(self.root),
            upstream: outcome_view(self.upstream),
            proof_siblings: outcome_view(self.proof_siblings),
            proof_path_indices: outcome_view(self.proof_path_indices),
        }
    }
}

/// The failure that stops the assembly, if one does: the first in the order
/// in which the inputs are taken up. That order is the timestamp, the three
/// scalar files, the upstream document and its two keys, and the two
/// sequence files.
pub open spec fn failure(readings: ReadingsView) -> Option<AssembleError> {
    if readings.current_timestamp is Err {
        Some(readings.current_timestamp->Err_0)
    } else if readings.create_timestamp is Err {
        Some(readings.create_timestamp->Err_0)
    } else if readings.nullifier_hash is Err {
        Some(readings.nullifier_hash->Err_0)
    } else if readings.root is Err {
        Some(readings.root->Err_0)
    } else if readings.upstream is Err {
        Some(readings.upstream->Err_0)
    } else if secret_pair(lines_of(readings.upstream->Ok_0)) is None {
        Some(AssembleError::MissingField)
    } else if readings.proof_siblings is Err {
        Some(readings.proof_siblings->Err_0)
    } else if readings.proof_path_indices is Err {
        Some(readings.proof_path_indices->Err_0)
    } else {
        None
    }
}

/// The fields that the readings give, where none of them is a failure.
pub open spec fn gathered(readings: ReadingsView) -> ProofInputsView {
    let pair = secret_pair(lines_of(readings.upstream->Ok_0))->Some_0;
    ProofInputsView {
        current_timestamp: readings.current_timestamp->Ok_0,
        create_timestamp: first_line_of(readings.create_timestamp->Ok_0),
        root: first_line_of(readings.root->Ok_0),
        secret: pair.0,
        nullifier: pair.1,
        nullifier_hash: first_line_of(readings.nullifier_hash->Ok_0),
        proof_path_indices: lines_of(readings.proof_path_indices->Ok_0),
        proof_siblings: lines_of(readings.proof_siblings->Ok_0),
    }
}

/// The contents of a file that was read, or the reason why it was not.
fn content(reading: &Result<String, AssembleError>) -> (r: Result<&str, AssembleError>)
    ensures
        match r {
            Ok(text) => outcome_view(*reading) == Ok::<Seq<char>, AssembleError>(text@),
            Err(e) => outcome_view(*reading) == Err::<Seq<char>, AssembleError>(e),
        },
{
    match reading {
        Ok(text) => Ok(text.as_str()),
        Err(e) => Err(*e),
    }
}

/// Gathers the fields of the document from the readings. Fails with the
/// first failure among them, and with `MissingField` where the upstream
/// document lacks a key; succeeds in every other case.
pub fn assemble(readings: &Readings) -> (r: Result<ProofInputs, AssembleError>)
    ensures
        match r {
            Ok(fields) => failure(readings@) is None && fields@ == gathered(readings@),
            Err(e) => failure(readings@) == Some(e),
        },
{
    let current_timestamp = content(&readings.current_timestamp)?;
    let create_timestamp = content(&readings.create_timestamp)?;
    let nullifier_hash = content(&readings.nullifier_hash)?;
    let root = content(&readings.root)?;
    let upstream = content(&readings.upstream)?;
    let (secret, nullifier) = read_prover_toml(upstream)?;
    let proof_siblings = content(&readings.proof_siblings)?;
    let proof_path_indices = content(&readings.proof_path_indices)?;
    Ok(
        ProofInputs {
            current_timestamp: String::from_str(current_timestamp),
            create_timestamp: read_first_line(create_timestamp),
            root: read_first_line(root),
            secret,
            nullifier,
            nullifier_hash: read_first_line(nullifier_hash),
            proof_path_indices: read_lines(proof_path_indices),
            proof_siblings: read_lines(proof_siblings),
        },
    )
}

/// The document for the readings: the fields that `assemble` gathers, as
/// `render` writes them. Fails as `assemble` does, so that there is either
/// the whole document or none.
pub fn assemble_document(readings: &Readings) -> (r: Result<String, AssembleError>)
    ensures
        match r {
            Ok(text) => failure(readings@) is None && text@ == document_text(
                gathered(readings@),
            ),
            Err(e) => failure(readings@) == Some(e),
        },
{
    match assemble(readings) {
        Ok(fields) => Ok(fields.render()),
        Err(e) => Err(e),
    }
}

/// Two assemblies from the same inputs differ in the timestamp alone: where
/// the readings agree but for the time of assembly, either both fail in the
/// same way, or both documents are one line for the time of assembly
/// followed by the same text.
pub proof fn lemma_same_inputs_same_body(a: ReadingsView, b: ReadingsView)
    requires
        a.current_timestamp is Ok,
        b.current_timestamp is Ok,
        b == (ReadingsView { current_timestamp: b.current_timestamp, ..a }),
    ensures
        failure(a) == failure(b),
        body_lines(gathered(a)) == body_lines(gathered(b)),
        document_text(gathered(a)) == joined(
            seq![scalar_line("current_timestamp"@, a.current_timestamp->Ok_0)],
        ) + joined(body_lines(gathered(a))),
        document_text(gathered(b)) == joined(
            seq![scalar_line("current_timestamp"@, b.current_timestamp->Ok_0)],
        ) + joined(body_lines(gathered(a))),
{
    lemma_joined_concat(
        seq![scalar_line("current_timestamp"@, a.current_timestamp->Ok_0)],
        body_lines(gathered(a)),
    );
    lemma_joined_concat(
        seq![scalar_line("current_timestamp"@, b.current_timestamp->Ok_0)],
        body_lines(gathered(b)),
    );
}

} // verus!
