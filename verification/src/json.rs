//! Verified emission of JSON text: string escaping and decimal numbers.
//!
//! The remote-procedure-call builders assemble their documents from these
//! pieces, so the exact text of every document is pinned down by spec
//! functions rather than by an opaque serializer.

use vstd::prelude::*;
use vstd::string::StrSliceExecFns;

verus! {

/// Relies on `String::push`: it appends the given character to the end of
/// the string.
#[verifier::external_body]
pub(crate) fn push_char(out: &mut String, c: char)
    ensures
        final(out)@ == old(out)@.push(c),
{
    out.push(c);
}

/// The character for a decimal digit.
pub open spec fn digit_char(d: nat) -> char {
    ((48 + d) as u8) as char
}

/// The decimal digits of `n`, most significant first, no leading zeros.
pub open spec fn dec_digits(n: nat) -> Seq<char>
    decreases n,
{
    if n < 10 {
        seq![digit_char(n)]
    } else {
        dec_digits(n / 10) + seq![digit_char(n % 10)]
    }
}

/// Appends the decimal digits of `n`.
pub fn push_decimal(out: &mut String, n: u64)
    ensures
        final(out)@ == old(out)@ + dec_digits(n as nat),
    decreases n,
{
    if n >= 10 {
        push_decimal(out, n / 10);
    }
    push_char(out, (48 + (n % 10) as u8) as char);
    proof {
        assert(out@ =~= old(out)@ + dec_digits(n as nat));
    }
}

/// The character for a hexadecimal digit, lower case.
pub open spec fn hex_digit(d: nat) -> char {
    if d < 10 {
        ((48 + d) as u8) as char
    } else {
        ((87 + d) as u8) as char
    }
}

/// How one character is written inside a JSON string: quotes and
/// backslashes get a two-character escape, the named control characters
/// their short forms, any other control character a `\u00XX` escape, and
/// everything else stands for itself.
pub open spec fn esc_char(c: char) -> Seq<char> {
    if c == '"' {
        seq!['\\', '"']
    } else if c == '\\' {
        seq!['\\', '\\']
    } else if (c as nat) == 8 {
        seq!['\\', 'b']
    } else if c == '\t' {
        seq!['\\', 't']
    } else if c == '\n' {
        seq!['\\', 'n']
    } else if (c as nat) == 12 {
        seq!['\\', 'f']
    } else if c == '\r' {
        seq!['\\', 'r']
    } else if (c as nat) < 32 {
        seq!['\\', 'u', '0', '0', hex_digit((c as nat) / 16), hex_digit((c as nat) % 16)]
    } else {
        seq![c]
    }
}

/// A text with every character escaped as JSON requires.
pub open spec fn esc(s: Seq<char>) -> Seq<char>
    decreases s.len(),
{
    if s.len() == 0 {
        Seq::empty()
    } else {
        esc_char(s[0]) + esc(s.drop_first())
    }
}

/// Escaping one more character appends that character's escape.
proof fn lemma_esc_snoc(s: Seq<char>, i: int)
    requires
        0 <= i < s.len(),
    ensures
        esc(s.take(i + 1)) == esc(s.take(i)) + esc_char(s[i]),
    decreases i,
{
    if i == 0 {
        assert(s.take(1).drop_first() =~= Seq::<char>::empty());
        assert(esc(Seq::<char>::empty()) == Seq::<char>::empty());
        assert(s.take(1)[0] == s[0]);
        assert(esc(s.take(1)) == esc_char(s[0]) + Seq::<char>::empty());
        assert(s.take(0) =~= Seq::<char>::empty());
        assert(esc(s.take(1)) =~= esc(s.take(0)) + esc_char(s[0]));
    } else {
        let t = s.drop_first();
        lemma_esc_snoc(t, i - 1);
        assert(s.take(i + 1).drop_first() =~= t.take(i));
        assert(s.take(i).drop_first() =~= t.take(i - 1));
        assert(s.take(i + 1)[0] == s[0] && s.take(i)[0] == s[0]);
        assert(esc(s.take(i + 1)) == esc_char(s[0]) + esc(t.take(i)));
        assert(esc(s.take(i)) == esc_char(s[0]) + esc(t.take(i - 1)));
        assert(esc_char(s[0]) + (esc(t.take(i - 1)) + esc_char(t[i - 1])) =~= (esc_char(s[0])
            + esc(t.take(i - 1))) + esc_char(s[i]));
    }
}

/// Appends the JSON escape of one character.
fn push_escaped_char(out: &mut String, c: char)
    ensures
        final(out)@ == old(out)@ + esc_char(c),
{
    if c == '"' {
        push_char(out, '\\');
        push_char(out, '"');
    } else if c == '\\' {
        push_char(out, '\\');
        push_char(out, '\\');
    } else if (c as u32) == 8 {
        push_char(out, '\\');
        push_char(out, 'b');
    } else if c == '\t' {
        push_char(out, '\\');
        push_char(out, 't');
    } else if c == '\n' {
        push_char(out, '\\');
        push_char(out, 'n');
    } else if (c as u32) == 12 {
        push_char(out, '\\');
        push_char(out, 'f');
    } else if c == '\r' {
        push_char(out, '\\');
        push_char(out, 'r');
    } else if (c as u32) < 32 {
        let code = c as u32;
        push_char(out, '\\');
        push_char(out, 'u');
        push_char(out, '0');
        push_char(out, '0');
        let hi = code / 16;
        let lo = code % 16;
        push_char(out, if hi < 10 { (48 + hi as u8) as char } else { (87 + hi as u8) as char });
        push_char(out, if lo < 10 { (48 + lo as u8) as char } else { (87 + lo as u8) as char });
    } else {
        push_char(out, c);
    }
    proof {
        assert(out@ =~= old(out)@ + esc_char(c));
    }
}

/// Appends the JSON escape of a whole text.
fn push_escaped(out: &mut String, s: &str)
    ensures
        final(out)@ == old(out)@ + esc(s@),
{
    let n = s.unicode_len();
    let ghost sv = s@;
    assert(out@ == old(out)@ + esc(sv.take(0)));
    for i in 0..n
        invariant
            n == sv.len(),
            sv == s@,
            out@ == old(out)@ + esc(sv.take(i as int)),
    {
        let c = s.get_char(i);
        push_escaped_char(out, c);
        proof {
            lemma_esc_snoc(sv, i as int);
            assert(out@ =~= old(out)@ + esc(sv.take(i + 1)));
        }
    }
    proof {
        assert(sv.take(n as int) =~= sv);
    }
}

/// A JSON string: the escaped text between double quotes.
pub open spec fn jstr(s: Seq<char>) -> Seq<char> {
    seq!['"'] + esc(s) + seq!['"']
}

/// Appends the JSON string holding `s`.
pub fn push_json_str(out: &mut String, s: &str)
    ensures
        final(out)@ == old(out)@ + jstr(s@),
{
    push_char(out, '"');
    push_escaped(out, s);
    push_char(out, '"');
    proof {
        assert(out@ =~= old(out)@ + jstr(s@));
    }
}

} // verus!
