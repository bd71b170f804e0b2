//! Strings in double quotes, as the field configuration file holds them.

use vstd::prelude::*;

use crate::mapping::hex_digit;
use crate::text::lacks;

verus! {

/// A hexadecimal digit, in lower case.
pub open spec fn nibble(d: int) -> char {
    if d < 10 {
        ('0' as int + d) as char
    } else {
        ('a' as int + (d - 10)) as char
    }
}

/// A character inside double quotes.
pub open spec fn escaped(c: char) -> Seq<char> {
    if c == '"' || c == '\\' {
        seq!['\\', c]
    } else if c == '\u{8}' {
        seq!['\\', 'b']
    } else if c == '\t' {
        seq!['\\', 't']
    } else if c == '\n' {
        seq!['\\', 'n']
    } else if c == '\u{c}' {
        seq!['\\', 'f']
    } else if c == '\r' {
        seq!['\\', 'r']
    } else if (c as int) < 32 {
        seq!['\\', 'u', '0', '0', nibble(c as int / 16), nibble(c as int % 16)]
    } else {
        seq![c]
    }
}

/// The characters of a string, each as it stands inside double quotes.
pub open spec fn escape(s: Seq<char>) -> Seq<char>
    decreases s.len(),
{
    if s.len() == 0 {
        s
    } else {
        escaped(s[0]) + escape(s.drop_first())
    }
}

/// A string in double quotes.
pub open spec fn quoted(s: Seq<char>) -> Seq<char> {
    seq!['"'] + escape(s) + seq!['"']
}

/// A string in double quotes, from `serde_json::to_string`. It is taken to put a
/// backslash before a quote and a backslash, to write backspace, tab, line feed,
/// form feed and carriage return as a backslash and a letter, every other control
/// character below the space as `\u` and four digits, and the rest as it is. It does
/// not fail on a string.
#[verifier::external_body]
pub(crate) fn toml_string(value: &str) -> (text: String)
    ensures
        text@ == quoted(value@),
{
    serde_json::to_string(value).unwrap()
}

proof fn lemma_nibble(a: int, b: int)
    requires
        0 <= a < 16,
        0 <= b < 16,
        nibble(a) == nibble(b),
    ensures
        a == b,
{
}

proof fn lemma_escaped(a: char, b: char, x: Seq<char>, y: Seq<char>)
    requires
        escaped(a) + x == escaped(b) + y,
    ensures
        a == b,
        x == y,
{
    let (s, t) = (escaped(a) + x, escaped(b) + y);
    assert(s[0] == escaped(a)[0] && t[0] == escaped(b)[0]);
    assert(escaped(a).len() > 1 ==> s[1] == escaped(a)[1]);
    assert(escaped(b).len() > 1 ==> t[1] == escaped(b)[1]);
    if escaped(a).len() == 6 && escaped(b).len() == 6 {
        assert(s[4] == escaped(a)[4] && t[4] == escaped(b)[4]);
        assert(s[5] == escaped(a)[5] && t[5] == escaped(b)[5]);
        lemma_nibble(a as int / 16, b as int / 16);
        lemma_nibble(a as int % 16, b as int % 16);
    }
    assert(a == b);
    assert(x =~= s.skip(escaped(a).len() as int));
    assert(y =~= t.skip(escaped(b).len() as int));
}

proof fn lemma_escape(a: Seq<char>, b: Seq<char>, x: Seq<char>, y: Seq<char>)
    requires
        escape(a) + seq!['"'] + x == escape(b) + seq!['"'] + y,
    ensures
        a == b,
        x == y,
    decreases a.len() + b.len(),
{
    let q = seq!['"'];
    let (s, t) = (escape(a) + q + x, escape(b) + q + y);
    if a.len() == 0 && b.len() == 0 {
        assert(x =~= s.skip(1));
        assert(y =~= t.skip(1));
        assert(a =~= b);
    } else if a.len() == 0 {
        assert(s[0] == '"');
        assert(t[0] == escaped(b[0])[0]);
    } else if b.len() == 0 {
        assert(t[0] == '"');
        assert(s[0] == escaped(a[0])[0]);
    } else {
        let (u, v) = (escape(a.drop_first()) + q + x, escape(b.drop_first()) + q + y);
        assert(s =~= escaped(a[0]) + u);
        assert(t =~= escaped(b[0]) + v);
        lemma_escaped(a[0], b[0], u, v);
        lemma_escape(a.drop_first(), b.drop_first(), x, y);
        assert(a =~= seq![a[0]] + a.drop_first());
        assert(b =~= seq![b[0]] + b.drop_first());
    }
}

/// A string in quotes ends where it ends whatever follows, and can be read back: two
/// texts that start with a string in quotes and are equal start with the same string
/// and go on in the same way.
pub proof fn law_quoted_reads_back(a: Seq<char>, b: Seq<char>, x: Seq<char>, y: Seq<char>)
    requires
        quoted(a) + x == quoted(b) + y,
    ensures
        a == b,
        x == y,
{
    let q = seq!['"'];
    assert((quoted(a) + x).skip(1) =~= escape(a) + q + x);
    assert((quoted(b) + y).skip(1) =~= escape(b) + q + y);
    lemma_escape(a, b, x, y);
}

// ---- reading ---------------------------------------------------------------

/// The character that a letter stands for behind a backslash.
pub open spec fn meant(c: char) -> Option<char> {
    if c == '"' || c == '\\' {
        Some(c)
    } else if c == 'b' {
        Some('\u{8}')
    } else if c == 't' {
        Some('\t')
    } else if c == 'n' {
        Some('\n')
    } else if c == 'f' {
        Some('\u{c}')
    } else if c == 'r' {
        Some('\r')
    } else {
        None
    }
}

/// The character whose number four hexadecimal digits give.
pub open spec fn numbered(s: Seq<char>) -> Option<char> {
    match (hex_digit(s[0]), hex_digit(s[1]), hex_digit(s[2]), hex_digit(s[3])) {
        (Some(a), Some(b), Some(c), Some(d)) => {
            let n = 4096 * a + 256 * b + 16 * c + d;
            if 0xd800 <= n <= 0xdfff {
                None
            } else {
                Some(n as char)
            }
        },
        _ => None,
    }
}

/// Whether a character may not stand inside double quotes as it is: a control character
/// other than the tab.
pub open spec fn forbidden(c: char) -> bool {
    (c as int) < 32 && c != '\t' || c == '\u{7f}'
}

/// A string with one more character before it.
pub open spec fn preceded(c: char, s: Option<Seq<char>>) -> Option<Seq<char>> {
    match s {
        Some(t) => Some(seq![c] + t),
        None => None,
    }
}

/// What stands before the closing quote, which has to be the last character.
pub open spec fn unescaped(s: Seq<char>) -> Option<Seq<char>>
    decreases s.len(),
{
    if s.len() == 0 {
        None
    } else if s[0] == '"' {
        if s.len() == 1 {
            Some(Seq::empty())
        } else {
            None
        }
    } else if s[0] != '\\' {
        if forbidden(s[0]) {
            None
        } else {
            preceded(s[0], unescaped(s.skip(1)))
        }
    } else if s.len() >= 2 && meant(s[1]) is Some {
        preceded(meant(s[1])->0, unescaped(s.skip(2)))
    } else if s.len() >= 6 && s[1] == 'u' && numbered(s.subrange(2, 6)) is Some {
        preceded(numbered(s.subrange(2, 6))->0, unescaped(s.skip(6)))
    } else {
        None
    }
}

/// What a string in double quotes holds, read as a basic string of TOML.
pub open spec fn unquoted(s: Seq<char>) -> Option<Seq<char>> {
    if s.len() > 0 && s[0] == '"' {
        unescaped(s.skip(1))
    } else {
        None
    }
}

/// Whether a string can stand in quotes: all that is not escaped there is allowed.
pub open spec fn quotable(s: Seq<char>) -> bool {
    forall|i: int| 0 <= i < s.len() ==> s[i] != '\u{7f}'
}

proof fn lemma_numbered(c: char)
    requires
        (c as int) < 32,
    ensures
        numbered(seq!['0', '0', nibble(c as int / 16), nibble(c as int % 16)]) == Some(c),
{
    let (h, l) = (c as int / 16, c as int % 16);
    assert(hex_digit('0') == Some(0nat));
    assert(hex_digit(nibble(h)) == Some(h as nat));
    assert(hex_digit(nibble(l)) == Some(l as nat));
}

proof fn lemma_one_unescaped(c: char, rest: Seq<char>)
    requires
        c != '\u{7f}',
    ensures
        unescaped(escaped(c) + rest) == preceded(c, unescaped(rest)),
{
    let e = escaped(c);
    let s = e + rest;
    assert(s.skip(e.len() as int) =~= rest);
    assert(s[0] == e[0]);
    if e.len() == 2 {
        assert(s[1] == e[1]);
    } else if e.len() == 6 {
        assert(s[1] == 'u');
        lemma_numbered(c);
        assert(s.subrange(2, 6) =~= seq!['0', '0', nibble(c as int / 16), nibble(c as int % 16)]);
    }
}

/// What was quoted can be read: a string in quotes, read as a basic string of TOML, holds
/// the string. Left out are strings with the delete character, which is not escaped and
/// which TOML does not allow.
pub proof fn law_quoted_is_read(s: Seq<char>)
    requires
        quotable(s),
    ensures
        unquoted(quoted(s)) == Some(s),
{
    assert(quoted(s).skip(1) =~= escape(s) + seq!['"']);
    lemma_unescaped(s);
}

proof fn lemma_unescaped(s: Seq<char>)
    requires
        quotable(s),
    ensures
        unescaped(escape(s) + seq!['"']) == Some(s),
    decreases s.len(),
{
    let q = seq!['"'];
    if s.len() == 0 {
        assert(escape(s) + q =~= q);
        assert(s =~= Seq::empty());
    } else {
        let rest = s.drop_first();
        lemma_unescaped(rest);
        assert(escape(s) + q =~= escaped(s[0]) + (escape(rest) + q));
        lemma_one_unescaped(s[0], escape(rest) + q);
        assert(seq![s[0]] + rest =~= s);
    }
}

proof fn lemma_escaped_lacks(c: char)
    ensures
        lacks(escaped(c), '\n'),
{
    if (c as int) < 32 {
        let (h, l) = (c as int / 16, c as int % 16);
        assert(0 <= h < 2 && 0 <= l < 16);
        assert(nibble(h) != '\n' && nibble(l) != '\n');
    }
}

/// A string in quotes stands on one line.
pub proof fn lemma_quoted_lacks(s: Seq<char>)
    ensures
        lacks(escape(s), '\n'),
        lacks(quoted(s), '\n'),
    decreases s.len(),
{
    if s.len() > 0 {
        lemma_quoted_lacks(s.drop_first());
        let (e, r) = (escaped(s[0]), escape(s.drop_first()));
        lemma_escaped_lacks(s[0]);
        assert forall|i: int| 0 <= i < escape(s).len() implies escape(s)[i] != '\n' by {
            if i < e.len() {
                assert(escape(s)[i] == e[i]);
            } else {
                assert(escape(s)[i] == r[i - e.len()]);
            }
        }
    }
    assert forall|i: int| 0 <= i < quoted(s).len() implies quoted(s)[i] != '\n' by {
        if 0 < i && i <= escape(s).len() {
            assert(quoted(s)[i] == escape(s)[i - 1]);
        }
    }
}

} // verus!
