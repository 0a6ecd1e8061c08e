//! JSON strings.

use vstd::prelude::*;
use vstd::string::*;

use crate::text::push_char;

verus! {

/// The lower-case hexadecimal digit of `n`, for `n` below sixteen.
pub open spec fn hex_digit(n: u32) -> char {
    if n < 10 {
        (0x30 + n) as char
    } else {
        (0x61 + n - 10) as char
    }
}

/// How the character `c` is written inside a JSON string.
pub open spec fn escaped(c: char) -> Seq<char> {
    if c == '"' {
        seq!['\\', '"']
    } else if c == '\\' {
        seq!['\\', '\\']
    } else if c == '\n' {
        seq!['\\', 'n']
    } else if c == '\r' {
        seq!['\\', 'r']
    } else if c == '\t' {
        seq!['\\', 't']
    } else if ' ' > c {
        seq!['\\', 'u', '0', '0', hex_digit(c as u32 / 16), hex_digit(c as u32 % 16)]
    } else {
        seq![c]
    }
}

/// How the characters of `s` are written inside a JSON string.
pub open spec fn escaped_all(s: Seq<char>) -> Seq<char>
    decreases s.len(),
{
    if s.len() == 0 {
        Seq::empty()
    } else {
        escaped(s[0]) + escaped_all(s.drop_first())
    }
}

/// `s` as a JSON string, with its quotes.
pub open spec fn json_text(s: Seq<char>) -> Seq<char> {
    seq!['"'] + escaped_all(s) + seq!['"']
}

fn hex_char(n: u32) -> (c: char)
    requires
        n < 16,
    ensures
        c == hex_digit(n),
{
    if n < 10 {
        (0x30 + n as u8) as char
    } else {
        (0x61 + (n as u8 - 10)) as char
    }
}

fn push_escaped(out: &mut String, c: char)
    ensures
        final(out)@ == old(out)@ + escaped(c),
{
    if c == '"' {
        push_char(out, '\\');
        push_char(out, '"');
    } else if c == '\\' {
        push_char(out, '\\');
        push_char(out, '\\');
    } else if c == '\n' {
        push_char(out, '\\');
        push_char(out, 'n');
    } else if c == '\r' {
        push_char(out, '\\');
        push_char(out, 'r');
    } else if c == '\t' {
        push_char(out, '\\');
        push_char(out, 't');
    } else if ' ' > c {
        push_char(out, '\\');
        push_char(out, 'u');
        push_char(out, '0');
        push_char(out, '0');
        push_char(out, hex_char(c as u32 / 16));
        push_char(out, hex_char(c as u32 % 16));
    } else {
        push_char(out, c);
    }
    assert(out@ =~= old(out)@ + escaped(c));
}

/// `s` as a JSON string. The characters that JSON does not allow bare in a
/// string are escaped, and no others.
pub fn json_str(s: &str) -> (r: String)
    ensures
        r@ == json_text(s@),
{
    let mut out = String::new();
    push_char(&mut out, '"');
    for c in it: s.chars()
        invariant
            it.seq() == s@,
            out@ == seq!['"'] + escaped_all(s@.take(it.index() as int)),
    {
        push_escaped(&mut out, c);
        proof {
            let i = it.index() as int;
            assert(s@.take(i + 1) =~= s@.take(i).push(c));
            lemma_escaped_push(s@.take(i), c);
            assert(out@ =~= seq!['"'] + escaped_all(s@.take(i + 1)));
        }
    }
    proof {
        assert(s@.take(s@.len() as int) =~= s@);
    }
    push_char(&mut out, '"');
    assert(out@ =~= json_text(s@));
    out
}

proof fn lemma_escaped_push(s: Seq<char>, c: char)
    ensures
        escaped_all(s.push(c)) == escaped_all(s) + escaped(c),
    decreases s.len(),
{
    if s.len() == 0 {
        assert(s.push(c).drop_first() =~= s);
        assert(escaped_all(s.push(c)) =~= escaped_all(s) + escaped(c));
    } else {
        assert(s.push(c).drop_first() =~= s.drop_first().push(c));
        lemma_escaped_push(s.drop_first(), c);
        assert(escaped_all(s.push(c)) =~= escaped_all(s) + escaped(c));
    }
}

pub(crate) proof fn lemma_escaped_concat(a: Seq<char>, b: Seq<char>)
    ensures
        escaped_all(a + b) == escaped_all(a) + escaped_all(b),
    decreases a.len(),
{
    if a.len() == 0 {
        assert(a + b =~= b);
        assert(escaped_all(a + b) =~= escaped_all(a) + escaped_all(b));
    } else {
        assert((a + b).drop_first() =~= a.drop_first() + b);
        lemma_escaped_concat(a.drop_first(), b);
        assert(escaped_all(a + b) =~= escaped_all(a) + escaped_all(b));
    }
}

/// The value of a lower-case hexadecimal digit.
pub open spec fn hex_value(c: char) -> Option<int> {
    if '0' <= c <= '9' {
        Some(c as u32 - 0x30)
    } else if 'a' <= c <= 'f' {
        Some(c as u32 - 0x61 + 10)
    } else {
        None
    }
}

/// The character at the front of the inside of a JSON string, and how many
/// characters it is written with. Only the escapes that JSON strings need for
/// the characters below U+0020, the quote and the backslash are read.
pub open spec fn unescaped(t: Seq<char>) -> Option<(char, int)> {
    if t.len() == 0 || t[0] == '"' || ' ' > t[0] {
        None
    } else if t[0] != '\\' {
        Some((t[0], 1))
    } else if t.len() < 2 {
        None
    } else if t[1] == '"' || t[1] == '\\' {
        Some((t[1], 2))
    } else if t[1] == 'n' {
        Some(('\n', 2))
    } else if t[1] == 'r' {
        Some(('\r', 2))
    } else if t[1] == 't' {
        Some(('\t', 2))
    } else if t[1] == 'u' && t.len() >= 6 && t[2] == '0' && t[3] == '0' {
        match (hex_value(t[4]), hex_value(t[5])) {
            (Some(h), Some(l)) => Some(((h * 16 + l) as char, 6)),
            _ => None,
        }
    } else {
        None
    }
}

/// The characters that the inside of a JSON string stands for.
pub open spec fn unescaped_all(t: Seq<char>) -> Option<Seq<char>>
    decreases t.len(),
{
    if t.len() == 0 {
        Some(Seq::empty())
    } else {
        match unescaped(t) {
            Some((c, n)) => if 0 < n <= t.len() {
                match unescaped_all(t.skip(n)) {
                    Some(rest) => Some(seq![c] + rest),
                    None => None,
                }
            } else {
                None
            },
            None => None,
        }
    }
}

/// A JSON string reads back as the characters that it was made from.
pub proof fn law_json_reads_back(s: Seq<char>)
    ensures
        json_text(s).first() == '"',
        json_text(s).last() == '"',
        unescaped_all(json_text(s).subrange(1, json_text(s).len() - 1)) == Some(s),
{
    let t = json_text(s);
    assert(t.subrange(1, t.len() - 1) =~= escaped_all(s));
    lemma_reads_back(s);
}

proof fn lemma_unescaped(c: char, rest: Seq<char>)
    ensures
        unescaped(escaped(c) + rest) == Some((c, escaped(c).len() as int)),
        forall|i: int| 0 <= i < escaped(c).len() ==> (#[trigger] escaped(c)[i]) >= ' ',
{
    let t = escaped(c) + rest;
    assert(forall|i: int| 0 <= i < escaped(c).len() ==> t[i] == escaped(c)[i]);
}

proof fn lemma_reads_back(s: Seq<char>)
    ensures
        unescaped_all(escaped_all(s)) == Some(s),
    decreases s.len(),
{
    if s.len() == 0 {
        assert(unescaped_all(escaped_all(s)) == Some(Seq::<char>::empty()));
        assert(s =~= Seq::<char>::empty());
    } else {
        let c = s[0];
        let rest = escaped_all(s.drop_first());
        let t = escaped_all(s);
        let n = escaped(c).len() as int;
        lemma_reads_back(s.drop_first());
        assert(t.skip(n) =~= rest);
        lemma_unescaped(c, rest);
        assert(seq![c] + s.drop_first() =~= s);
    }
}

/// A JSON string shows where it ends: of two texts that start with one and are
/// the same, the strings are the same and so is what follows them.
pub proof fn law_json_shows_its_end(s: Seq<char>, t: Seq<char>, x: Seq<char>, y: Seq<char>)
    requires
        json_text(s) + x == json_text(t) + y,
    ensures
        s == t,
        x == y,
{
    let a = escaped_all(s) + seq!['"'] + x;
    let b = escaped_all(t) + seq!['"'] + y;
    assert(a =~= (json_text(s) + x).skip(1));
    assert(b =~= (json_text(t) + y).skip(1));
    lemma_escaped_shows_its_end(s, t, x, y);
}

proof fn lemma_escaped_shows_its_end(s: Seq<char>, t: Seq<char>, x: Seq<char>, y: Seq<char>)
    requires
        escaped_all(s) + seq!['"'] + x == escaped_all(t) + seq!['"'] + y,
    ensures
        s == t,
        x == y,
    decreases s.len(),
{
    let a = escaped_all(s) + seq!['"'] + x;
    let b = escaped_all(t) + seq!['"'] + y;
    if s.len() > 0 && t.len() > 0 {
        let more_a = escaped_all(s.drop_first()) + seq!['"'] + x;
        let more_b = escaped_all(t.drop_first()) + seq!['"'] + y;
        assert(a =~= escaped(s[0]) + more_a);
        assert(b =~= escaped(t[0]) + more_b);
        lemma_unescaped(s[0], more_a);
        lemma_unescaped(t[0], more_b);
        let n = escaped(s[0]).len() as int;
        assert(a.skip(n) =~= more_a);
        assert(b.skip(n) =~= more_b);
        lemma_escaped_shows_its_end(s.drop_first(), t.drop_first(), x, y);
        assert(s =~= seq![s[0]] + s.drop_first());
        assert(t =~= seq![t[0]] + t.drop_first());
    } else if s.len() > 0 {
        assert(a[0] == escaped(s[0])[0]);
        assert(b[0] == '"');
    } else if t.len() > 0 {
        assert(b[0] == escaped(t[0])[0]);
        assert(a[0] == '"');
    } else {
        assert(s =~= t);
        assert(x =~= a.skip(1));
        assert(y =~= b.skip(1));
    }
}

/// A JSON string holds no control character, and so no line break.
pub proof fn law_json_has_no_control_character(s: Seq<char>)
    ensures
        forall|i: int| 0 <= i < json_text(s).len() ==> (#[trigger] json_text(s)[i]) >= ' ',
{
    lemma_no_control_character(s);
}

proof fn lemma_no_control_character(s: Seq<char>)
    ensures
        forall|i: int|
            0 <= i < escaped_all(s).len() ==> (#[trigger] escaped_all(s)[i]) >= ' ',
    decreases s.len(),
{
    if s.len() > 0 {
        lemma_no_control_character(s.drop_first());
        lemma_unescaped(s[0], Seq::empty());
        let n = escaped(s[0]).len() as int;
        let rest = escaped_all(s.drop_first());
        assert forall|i: int| 0 <= i < escaped_all(s).len() implies (#[trigger] escaped_all(s)[i])
            >= ' ' by {
            if i < n {
                assert(escaped_all(s)[i] == escaped(s[0])[i]);
            } else {
                assert(escaped_all(s)[i] == rest[i - n]);
            }
        }
    }
}

} // verus!
