//! What becomes of texts. Each law speaks of calls: of their arguments, and of
//! what they gave back.

use vstd::prelude::*;
use vstd::string::*;
use vstd::utf8::{encode_utf8, encode_utf8_decode_utf8, encode_utf8_valid_utf8, valid_utf8};

use crate::control::NEWLINE;
use crate::control::{control_line, control_lines, memchr_nl, ControlLine};
use crate::control::{line_contents, lines_of, tail_of, LineView};
use crate::control_laws::joined;
use crate::json::json_str;
use crate::json::{escaped_all, lemma_escaped_concat};
use crate::seqs::{lemma_first_index_at, views};
use crate::text::{is_white_space, trim, trim_back, trim_front, trimmed};

verus! {

/// Whether `u` is the part of `t` from `from` to `to`, on whose two sides there
/// is nothing but white space, and which has none at its ends.
pub open spec fn stripped(t: Seq<char>, u: Seq<char>, from: int, to: int) -> bool {
    &&& 0 <= from <= to <= t.len()
    &&& u == t.subrange(from, to)
    &&& forall|k: int| 0 <= k < from ==> is_white_space(#[trigger] t[k])
    &&& forall|k: int| to <= k < t.len() ==> is_white_space(#[trigger] t[k])
    &&& from < to ==> !is_white_space(t[from]) && !is_white_space(t[to - 1])
}

/// Whether `t` is nothing but white space.
pub open spec fn blank(t: Seq<char>) -> bool {
    forall|k: int| 0 <= k < t.len() ==> is_white_space(#[trigger] t[k])
}

proof fn lemma_trim_front(t: Seq<char>) -> (from: int)
    ensures
        0 <= from <= t.len(),
        trim_front(t) == t.skip(from),
        forall|k: int| 0 <= k < from ==> is_white_space(#[trigger] t[k]),
        from < t.len() ==> !is_white_space(t[from]),
    decreases t.len(),
{
    if t.len() > 0 && is_white_space(t[0]) {
        let rest = t.drop_first();
        let n = lemma_trim_front(rest);
        assert forall|k: int| 0 <= k < n + 1 implies is_white_space(#[trigger] t[k]) by {
            if k > 0 {
                assert(rest[k - 1] == t[k]);
            }
        }
        assert(rest.skip(n) =~= t.skip(n + 1));
        n + 1
    } else {
        assert(t.skip(0) =~= t);
        0
    }
}

proof fn lemma_trim_back(t: Seq<char>) -> (to: int)
    ensures
        0 <= to <= t.len(),
        trim_back(t) == t.take(to),
        forall|k: int| to <= k < t.len() ==> is_white_space(#[trigger] t[k]),
        to > 0 ==> !is_white_space(t[to - 1]),
    decreases t.len(),
{
    if t.len() > 0 && is_white_space(t.last()) {
        let rest = t.drop_last();
        let n = lemma_trim_back(rest);
        assert forall|k: int| n <= k < t.len() implies is_white_space(#[trigger] t[k]) by {
            if k < t.len() - 1 {
                assert(rest[k] == t[k]);
            }
        }
        assert(rest.take(n) =~= t.take(n));
        n
    } else {
        assert(t.take(t.len() as int) =~= t);
        t.len() as int
    }
}

proof fn lemma_trimmed(t: Seq<char>) -> (r: (int, int))
    ensures
        stripped(t, trimmed(t), r.0, r.1),
        trimmed(t).len() == 0 <==> blank(t),
{
    let from = lemma_trim_front(t);
    let rest = t.skip(from);
    let n = lemma_trim_back(rest);
    let to = from + n;
    assert(trimmed(t) =~= t.subrange(from, to));
    assert forall|k: int| to <= k < t.len() implies is_white_space(#[trigger] t[k]) by {
        assert(rest[k - from] == t[k]);
    }
    if from < to {
        assert(t[from] == rest[0]);
        assert(t[to - 1] == rest[n - 1]);
    }
    (from, to)
}

/// Trimming takes the white space off the two ends of a text, all of it, and
/// nothing else.
pub proof fn law_trim_strips_white_space(s: &str, r: String)
    requires
        call_ensures(trim, (s,), r),
    ensures
        exists|from: int, to: int| stripped(s@, r@, from, to),
        r@.len() == 0 <==> blank(s@),
{
    let (from, to) = lemma_trimmed(s@);
    assert(stripped(s@, r@, from, to));
}

/// The view of a line holds all of the line.
pub proof fn law_views_hold_the_line(line: ControlLine)
    ensures
        match line {
            ControlLine::InvalidUtf8 => line@ == LineView::InvalidUtf8,
            ControlLine::Empty => line@ == LineView::Empty,
            ControlLine::Text(t) => line@ == LineView::Text(t@),
        },
{
}

/// A line that encodes a text is read as blank exactly where the text is
/// nothing but white space. Otherwise it is read as the text without the white
/// space at its two ends, however long it is.
pub proof fn law_line_holds_its_text(line: &[u8], t: Seq<char>, r: ControlLine)
    requires
        call_ensures(control_line, (line,), r),
        line@ == encode_utf8(t),
    ensures
        blank(t) ==> r is Empty,
        !blank(t) ==> r is Text && r->Text_0@.len() > 0 && exists|from: int, to: int|
            stripped(t, r->Text_0@, from, to),
{
    encode_utf8_valid_utf8(t);
    encode_utf8_decode_utf8(t);
    let (from, to) = lemma_trimmed(t);
    if !blank(t) {
        assert(r@ == LineView::Text(trimmed(t)));
        assert(stripped(t, r->Text_0@, from, to));
    }
}

/// A line is invalid exactly where its bytes are not UTF-8.
pub proof fn law_line_must_be_utf8(line: &[u8], r: ControlLine)
    requires
        call_ensures(control_line, (line,), r),
    ensures
        r is InvalidUtf8 <==> !valid_utf8(line@),
{
}

/// Whether no line holds a newline.
pub open spec fn are_lines(lines: Seq<Seq<u8>>) -> bool {
    forall|i: int| 0 <= i < lines.len() ==> !(#[trigger] lines[i]).contains(NEWLINE)
}

proof fn lemma_joined_is_cut_again(lines: Seq<Seq<u8>>, tail: Seq<u8>)
    requires
        are_lines(lines),
        !tail.contains(NEWLINE),
    ensures
        lines_of(joined(lines, tail)) == lines,
        tail_of(joined(lines, tail)) == tail,
    decreases lines.len(),
{
    let buf = joined(lines, tail);
    if lines.len() == 0 {
        assert forall|j: int| 0 <= j < buf.len() implies buf[j] != NEWLINE by {
            assert(tail.contains(tail[j]));
        }
        lemma_first_index_at(buf, NEWLINE, buf.len() as int);
        assert(lines =~= Seq::<Seq<u8>>::empty());
    } else {
        let line = lines[0];
        let rest = lines.drop_first();
        let n = line.len() as int;
        assert(!line.contains(NEWLINE));
        assert forall|j: int| 0 <= j < n implies buf[j] != NEWLINE by {
            assert(line.contains(line[j]));
            assert(buf[j] == line[j]);
        }
        assert(buf[n] == NEWLINE);
        lemma_first_index_at(buf, NEWLINE, n);
        assert(buf.take(n) =~= line);
        assert(buf.skip(n + 1) =~= joined(rest, tail));
        assert forall|i: int| 0 <= i < rest.len() implies !(#[trigger] rest[i]).contains(
            NEWLINE,
        ) by {
            assert(rest[i] == lines[i + 1]);
        }
        lemma_joined_is_cut_again(rest, tail);
        assert(lines =~= seq![line] + rest);
    }
}

/// Bytes are cut at their newlines: each line is read by itself, in order, and
/// what follows the last newline is left over.
pub proof fn law_bytes_are_cut_at_newlines(
    buf: &[u8],
    lines: Seq<Seq<u8>>,
    tail: Seq<u8>,
    r: (Vec<ControlLine>, Vec<u8>),
    i: int,
    line: &[u8],
    read: ControlLine,
)
    requires
        call_ensures(control_lines, (buf,), r),
        are_lines(lines),
        !tail.contains(NEWLINE),
        buf@ == joined(lines, tail),
        0 <= i < lines.len() ==> line@ == lines[i] && call_ensures(control_line, (line,), read),
    ensures
        r.0@.len() == lines.len(),
        r.1@ == tail,
        0 <= i < lines.len() ==> r.0@[i]@ == read@,
{
    lemma_joined_is_cut_again(lines, tail);
    assert(views(r.0@) == line_contents(buf@));
    assert(views(r.0@).len() == lines.len());
    if 0 <= i < lines.len() {
        assert(views(r.0@)[i] == line_contents(buf@)[i]);
    }
}

/// The newline that is found is the first one.
pub proof fn law_first_newline_is_found(buf: &[u8], r: Option<usize>, i: int)
    requires
        call_ensures(memchr_nl, (buf,), r),
    ensures
        0 <= i < buf@.len() && buf@[i] == 0x0a && (forall|j: int| 0 <= j < i ==> buf@[j] != 0x0a)
            ==> r == Some(i as usize) && i == i as usize,
        (forall|j: int| 0 <= j < buf@.len() ==> buf@[j] != 0x0a) ==> r is None,
{
    if 0 <= i < buf@.len() && buf@[i] == 0x0a && (forall|j: int| 0 <= j < i ==> buf@[j] != 0x0a) {
        lemma_first_index_at(buf@, NEWLINE, i);
    }
    if forall|j: int| 0 <= j < buf@.len() ==> buf@[j] != 0x0a {
        lemma_first_index_at(buf@, NEWLINE, buf@.len() as int);
    }
}

/// A JSON string is made character by character: that of a text is that of its
/// front and that of its rest, without the two quotes where they meet.
pub proof fn law_json_is_made_of_parts(
    front: &str,
    rest: &str,
    all: &str,
    front_json: String,
    rest_json: String,
    all_json: String,
)
    requires
        call_ensures(json_str, (front,), front_json),
        call_ensures(json_str, (rest,), rest_json),
        call_ensures(json_str, (all,), all_json),
        all@ == front@ + rest@,
    ensures
        all_json@ == front_json@.drop_last() + rest_json@.drop_first(),
{
    lemma_escaped_concat(front@, rest@);
    assert(all_json@ =~= front_json@.drop_last() + rest_json@.drop_first());
}

/// The JSON string of a single character: quotes, backslashes and the
/// characters below the space are escaped, and no others.
pub proof fn law_json_of_one_character(c: char, s: &str, r: String)
    requires
        call_ensures(json_str, (s,), r),
        s@ == seq![c],
    ensures
        c == '"' ==> r@ == seq!['"', '\\', '"', '"'],
        c == '\\' ==> r@ == seq!['"', '\\', '\\', '"'],
        c == '\n' ==> r@ == seq!['"', '\\', 'n', '"'],
        c == '\r' ==> r@ == seq!['"', '\\', 'r', '"'],
        c == '\t' ==> r@ == seq!['"', '\\', 't', '"'],
        (c as u32) < 0x20 && c != '\n' && c != '\r' && c != '\t' ==> r@ == seq![
            '"',
            '\\',
            'u',
            '0',
            '0',
            "0123456789abcdef"@[c as int / 16],
            "0123456789abcdef"@[c as int % 16],
            '"',
        ],
        c as u32 >= 0x20 && c != '"' && c != '\\' ==> r@ == seq!['"', c, '"'],
{
    reveal_strlit("0123456789abcdef");
    assert(s@.drop_first() =~= Seq::<char>::empty());
    assert(escaped_all(s@.drop_first()) =~= Seq::<char>::empty());
    assert(escaped_all(s@) =~= crate::json::escaped(c));
}

/// The JSON string of the empty text is two quotes.
pub proof fn law_json_of_nothing(s: &str, r: String)
    requires
        call_ensures(json_str, (s,), r),
        s@.len() == 0,
    ensures
        r@ == seq!['"', '"'],
{
    assert(r@ =~= seq!['"', '"']);
}

} // verus!
