//! The two readers of flat value files: one that yields the first line of a
//! file as a scalar, and one that yields every line as an element of a
//! sequence.
//!
//! A line ends at a line feed. The line feed, and a carriage return directly
//! before it, are not part of the line. Text after the last line feed is a
//! line of its own unless it is empty, so a file that ends in a line feed
//! has no empty last line, while an empty line inside the file is kept.

use vstd::prelude::*;
use vstd::slice::slice_subrange;
use crate::text::{find, lemma_position, lemma_position_is_first, lemma_trimmed_end, position,
    to_chars, to_text, trim_end, trimmed_end, white_space};

verus! {

/// The scalar held by a file with contents `s`: what stands before the first
/// line feed, without trailing whitespace.
pub open spec fn first_line_of(s: Seq<char>) -> Seq<char> {
    trimmed_end(s.take(position(s, '\n') as int))
}

/// `s` without a carriage return at its end.
pub open spec fn without_cr(s: Seq<char>) -> Seq<char> {
    if s.len() > 0 && s.last() == '\r' {
        s.drop_last()
    } else {
        s
    }
}

/// The lines of a file with contents `s`, in file order.
pub open spec fn lines_of(s: Seq<char>) -> Seq<Seq<char>>
    decreases s.len(),
{
    let n = position(s, '\n');
    if s.len() == 0 {
        Seq::empty()
    } else if n >= s.len() {
        seq![s]
    } else {
        seq![without_cr(s.take(n as int))] + lines_of(s.skip(n as int + 1))
    }
}

/// The file contents in which each of `lines` is followed by a line feed.
pub open spec fn joined(lines: Seq<Seq<char>>) -> Seq<char>
    decreases lines.len(),
{
    if lines.len() == 0 {
        Seq::empty()
    } else {
        lines.first() + seq!['\n'] + joined(lines.drop_first())
    }
}

/// Joining distributes over concatenation.
pub proof fn lemma_joined_concat(a: Seq<Seq<char>>, b: Seq<Seq<char>>)
    ensures
        joined(a + b) == joined(a) + joined(b),
    decreases a.len(),
{
    if a.len() == 0 {
        assert(a + b =~= b);
        assert(joined(a) + joined(b) =~= joined(b));
    } else {
        assert((a + b).first() == a.first());
        assert((a + b).drop_first() =~= a.drop_first() + b);
        lemma_joined_concat(a.drop_first(), b);
        assert(a.first() + seq!['\n'] + (joined(a.drop_first()) + joined(b)) =~= a.first()
            + seq!['\n'] + joined(a.drop_first()) + joined(b));
    }
}

/// One line joined is the line and a line feed.
pub proof fn lemma_joined_one(line: Seq<char>)
    ensures
        joined(seq![line]) == line + seq!['\n'],
{
    reveal_with_fuel(joined, 2);
    assert(seq![line].drop_first() =~= Seq::<Seq<char>>::empty());
    assert(joined(seq![line]) =~= line + seq!['\n']);
}

/// Whether `s` holds no line feed.
pub open spec fn single_line(s: Seq<char>) -> bool {
    forall|j: int| 0 <= j < s.len() ==> s[j] != '\n'
}

/// Whether `line` can stand in a file as one line: it holds no line feed
/// and does not end in a carriage return.
pub open spec fn is_line(line: Seq<char>) -> bool {
    &&& single_line(line)
    &&& without_cr(line) == line
}

/// The scalar held by a file holds no line feed.
pub proof fn lemma_first_line_single(s: Seq<char>)
    ensures
        single_line(first_line_of(s)),
{
    lemma_position_is_first(s, '\n');
    let head = s.take(position(s, '\n') as int);
    lemma_trimmed_end(head);
    let t = trimmed_end(head);
    assert forall|j: int| 0 <= j < t.len() implies t[j] != '\n' by {
        assert(t[j] == head.subrange(0, t.len() as int)[j]);
        assert(head[j] == s[j]);
    }
}

/// No line of a file holds a line feed.
pub proof fn lemma_lines_single(s: Seq<char>)
    ensures
        forall|i: int| 0 <= i < lines_of(s).len() ==> single_line(#[trigger] lines_of(s)[i]),
    decreases s.len(),
{
    lemma_position_is_first(s, '\n');
    let n = position(s, '\n') as int;
    if s.len() > 0 && n < s.len() {
        let rest = s.skip(n + 1);
        lemma_lines_single(rest);
        let head = without_cr(s.take(n));
        assert(single_line(head)) by {
            assert forall|j: int| 0 <= j < head.len() implies head[j] != '\n' by {
                assert(head[j] == s[j]);
            }
        }
        assert forall|i: int| 0 <= i < lines_of(s).len() implies single_line(
            #[trigger] lines_of(s)[i],
        ) by {
            if i > 0 {
                assert(lines_of(s)[i] == lines_of(rest)[i - 1]);
            }
        }
    }
}

/// A scalar written to a file, followed by any amount of whitespace, is read
/// back unchanged: if `value` is not empty, holds no line feed and does not
/// end in whitespace, and `padding` is whitespace only, the scalar held by
/// `value + padding` is `value`.
pub proof fn lemma_scalar_round_trip(value: Seq<char>, padding: Seq<char>)
    requires
        value.len() > 0,
        single_line(value),
        !white_space(value.last()),
        forall|j: int| 0 <= j < padding.len() ==> white_space(padding[j]),
    ensures
        first_line_of(value + padding) == value,
{
    let s = value + padding;
    lemma_position_is_first(s, '\n');
    let n = position(s, '\n') as int;
    if n < value.len() {
        assert(s[n] == value[n]);
    }
    let head = s.take(n);
    lemma_trimmed_end(head);
    let t = trimmed_end(head);
    if t.len() > value.len() {
        assert(t.last() == head[t.len() - 1]);
        assert(head[t.len() - 1] == padding[t.len() - 1 - value.len()]);
    }
    if t.len() < value.len() {
        assert(head[value.len() - 1] == value.last());
    }
    assert(t =~= value);
}

/// Lines are read back in the order in which they were written: if each of
/// `lines` holds no line feed and does not end in a carriage return, the
/// lines of `joined(lines)` are `lines`.
pub proof fn lemma_lines_round_trip(lines: Seq<Seq<char>>)
    requires
        forall|i: int| 0 <= i < lines.len() ==> is_line(#[trigger] lines[i]),
    ensures
        lines_of(joined(lines)) == lines,
        lines_of(joined(lines)).len() == lines.len(),
    decreases lines.len(),
{
    if lines.len() > 0 {
        let head = lines.first();
        let rest = lines.drop_first();
        let s = joined(lines);
        assert(is_line(head));
        assert forall|i: int| 0 <= i < rest.len() implies is_line(#[trigger] rest[i]) by {
            assert(rest[i] == lines[i + 1]);
        }
        lemma_lines_round_trip(rest);
        assert forall|j: int| 0 <= j < head.len() implies s[j] != '\n' by {
            assert(s[j] == head[j]);
        }
        assert(s[head.len() as int] == '\n');
        lemma_position(s, '\n', head.len() as int);
        assert(s.take(head.len() as int) =~= head);
        assert(s.skip(head.len() as int + 1) =~= joined(rest));
        assert(seq![head] + rest =~= lines);
    }
}

/// The same holds where the last line is not followed by a line feed, as
/// long as that line is not empty.
pub proof fn lemma_lines_round_trip_open(lines: Seq<Seq<char>>, last: Seq<char>)
    requires
        forall|i: int| 0 <= i < lines.len() ==> is_line(#[trigger] lines[i]),
        last.len() > 0,
        single_line(last),
    ensures
        lines_of(joined(lines) + last) == lines.push(last),
    decreases lines.len(),
{
    if lines.len() == 0 {
        let s = joined(lines) + last;
        assert(s =~= last);
        lemma_position(last, '\n', last.len() as int);
        assert(lines.push(last) =~= seq![last]);
    } else {
        let head = lines.first();
        let rest = lines.drop_first();
        let s = joined(lines) + last;
        assert(is_line(head));
        assert forall|i: int| 0 <= i < rest.len() implies is_line(#[trigger] rest[i]) by {
            assert(rest[i] == lines[i + 1]);
        }
        lemma_lines_round_trip_open(rest, last);
        assert forall|j: int| 0 <= j < head.len() implies s[j] != '\n' by {
            assert(s[j] == head[j]);
        }
        assert(s[head.len() as int] == '\n');
        lemma_position(s, '\n', head.len() as int);
        assert(s.take(head.len() as int) =~= head);
        assert(s.skip(head.len() as int + 1) =~= joined(rest) + last);
        assert(seq![head] + rest.push(last) =~= lines.push(last));
    }
}

/// Splits the first line off `s`: the line, and what follows its line
/// feed. There is none where `s` is empty.
pub fn split_first_line<'a>(s: &'a [char]) -> (r: Option<(&'a [char], &'a [char])>)
    ensures
        match r {
            Some((line, rest)) => {
                &&& s@.len() > 0
                &&& lines_of(s@) == seq![line@] + lines_of(rest@)
                &&& rest@.len() < s@.len()
            },
            None => s@.len() == 0,
        },
{
    if s.len() == 0 {
        return None;
    }
    let n = find(s, '\n');
    if n >= s.len() {
        let rest = slice_subrange(s, 0, 0);
        assert(seq![s@] + lines_of(rest@) =~= seq![s@]);
        Some((s, rest))
    } else {
        let head = slice_subrange(s, 0, n);
        let rest = slice_subrange(s, n + 1, s.len());
        assert(rest@ =~= s@.skip(n + 1));
        assert(head@ =~= s@.take(n as int));
        let line = if n > 0 && head[n - 1] == '\r' {
            slice_subrange(head, 0, n - 1)
        } else {
            head
        };
        assert(line@ =~= without_cr(head@));
        Some((line, rest))
    }
}

/// The scalar held by a file with contents `content`: its first line,
/// without trailing whitespace. An empty file holds the empty scalar.
pub fn read_first_line(content: &str) -> (value: String)
    ensures
        value@ == first_line_of(content@),
{
    let chars = to_chars(content);
    let s = chars.as_slice();
    let n = find(s, '\n');
    let head = slice_subrange(s, 0, n);
    assert(head@ =~= content@.take(n as int));
    to_text(trim_end(head))
}

/// The lines of a file with contents `content`, in file order.
pub fn read_lines(content: &str) -> (lines: Vec<String>)
    ensures
        lines.deep_view() == lines_of(content@),
{
    let chars = to_chars(content);
    let mut rest = chars.as_slice();
    let mut lines: Vec<String> = Vec::new();
    assert(lines.deep_view() + lines_of(rest@) =~= lines_of(content@));
    loop
        invariant
            lines_of(content@) == lines.deep_view() + lines_of(rest@),
        decreases rest@.len(),
    {
        match split_first_line(rest) {
            Some((line, tail)) => {
                let ghost before = lines.deep_view();
                lines.push(to_text(line));
                assert(lines.deep_view() =~= before.push(line@));
                assert(before + (seq![line@] + lines_of(tail@)) =~= before.push(line@) + lines_of(
                    tail@,
                ));
                rest = tail;
            },
            None => {
                assert(lines.deep_view() + lines_of(rest@) =~= lines.deep_view());
                return lines;
            },
        }
    }
}

} // verus!
