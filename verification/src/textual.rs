//! Small text builders shared by the exporters: decimal and hexadecimal
//! numbers, and escaping of text content.
use vstd::prelude::*;

verus! {

/// `String::push`: appends one character.
#[verifier::external_body]
pub(crate) fn push_char(s: &mut String, c: char)
    ensures
        final(s)@ == old(s)@.push(c),
{
    s.push(c)
}

/// The decimal digit character of `d`.
pub open spec fn digit_char(d: nat) -> char {
    if d == 0 { '0' }
    else if d == 1 { '1' }
    else if d == 2 { '2' }
    else if d == 3 { '3' }
    else if d == 4 { '4' }
    else if d == 5 { '5' }
    else if d == 6 { '6' }
    else if d == 7 { '7' }
    else if d == 8 { '8' }
    else { '9' }
}

/// The upper-case hexadecimal digit character of `d`.
pub open spec fn hex_char(d: nat) -> char {
    if d < 10 { digit_char(d) }
    else if d == 10 { 'A' }
    else if d == 11 { 'B' }
    else if d == 12 { 'C' }
    else if d == 13 { 'D' }
    else if d == 14 { 'E' }
    else { 'F' }
}

/// Decimal writing of `n`, without leading zeros.
pub open spec fn decimal(n: nat) -> Seq<char>
    decreases n,
{
    if n < 10 {
        seq![digit_char(n)]
    } else {
        decimal(n / 10).push(digit_char(n % 10))
    }
}

/// Two upper-case hexadecimal digits of a byte.
pub open spec fn hex2(b: u8) -> Seq<char> {
    seq![hex_char(b as nat / 16), hex_char(b as nat % 16)]
}

fn digit_exec(d: u64) -> (c: char)
    requires
        d < 16,
    ensures
        c == hex_char(d as nat),
{
    if d == 0 { '0' }
    else if d == 1 { '1' }
    else if d == 2 { '2' }
    else if d == 3 { '3' }
    else if d == 4 { '4' }
    else if d == 5 { '5' }
    else if d == 6 { '6' }
    else if d == 7 { '7' }
    else if d == 8 { '8' }
    else if d == 9 { '9' }
    else if d == 10 { 'A' }
    else if d == 11 { 'B' }
    else if d == 12 { 'C' }
    else if d == 13 { 'D' }
    else if d == 14 { 'E' }
    else { 'F' }
}

/// Appends the decimal writing of `n`.
pub fn push_decimal(s: &mut String, n: u64)
    ensures
        final(s)@ == old(s)@ + decimal(n as nat),
    decreases n,
{
    if n < 10 {
        push_char(s, digit_exec(n));
        assert(final(s)@ =~= old(s)@ + decimal(n as nat));
    } else {
        push_decimal(s, n / 10);
        push_char(s, digit_exec(n % 10));
        assert(final(s)@ =~= old(s)@ + decimal(n as nat));
    }
}

/// The decimal writing of `n`.
pub fn decimal_text(n: u64) -> (r: String)
    ensures
        r@ == decimal(n as nat),
{
    let mut s = String::new();
    push_decimal(&mut s, n);
    assert(s@ =~= decimal(n as nat));
    s
}

/// Appends two upper-case hexadecimal digits of `b`.
pub fn push_hex2(s: &mut String, b: u8)
    ensures
        final(s)@ == old(s)@ + hex2(b),
{
    push_char(s, digit_exec(b as u64 / 16));
    push_char(s, digit_exec(b as u64 % 16));
    assert(final(s)@ =~= old(s)@ + hex2(b));
}

/// Appends a string slice.
pub fn push_str(s: &mut String, t: &str)
    ensures
        final(s)@ == old(s)@ + t@,
{
    s.append(t);
}

/// A text with `<` written `&lt;` and `>` written `&gt;`, as in XML content.
pub open spec fn escape_markup(t: Seq<char>) -> Seq<char>
    decreases t.len(),
{
    if t.len() == 0 {
        Seq::empty()
    } else {
        escape_markup(t.drop_last()) + escape_char(t.last())
    }
}

pub open spec fn escape_char(c: char) -> Seq<char> {
    if c == '<' {
        "&lt;"@
    } else if c == '>' {
        "&gt;"@
    } else {
        seq![c]
    }
}

/// `text` with `<` and `>` replaced by their entities.
pub fn escape_text(text: &str) -> (r: String)
    ensures
        r@ == escape_markup(text@),
{
    let n = text.unicode_len();
    let mut out = String::new();
    let mut i: usize = 0;
    while i < n
        invariant
            i <= n,
            n == text@.len(),
            out@ == escape_markup(text@.take(i as int)),
        decreases n - i,
    {
        let ghost next = text@.take(i as int + 1);
        assert(next.drop_last() =~= text@.take(i as int));
        let c = text.get_char(i);
        assert(next.last() == c);
        if c == '<' {
            push_str(&mut out, "&lt;");
        } else if c == '>' {
            push_str(&mut out, "&gt;");
        } else {
            push_char(&mut out, c);
            assert(out@ =~= escape_markup(next));
        }
        i = i + 1;
    }
    assert(text@.take(n as int) =~= text@);
    out
}

} // verus!

verus! {

/// Escaped text holds no `<` and no `>`: it cannot open or close markup.
pub proof fn law_escaped_has_no_markup(t: Seq<char>)
    ensures
        forall|i: int| 0 <= i < escape_markup(t).len() ==> #[trigger] escape_markup(t)[i] != '<' && escape_markup(t)[i] != '>',
    decreases t.len(),
{
    reveal_strlit("&lt;");
    reveal_strlit("&gt;");
    if t.len() > 0 {
        law_escaped_has_no_markup(t.drop_last());
        let a = escape_markup(t.drop_last());
        let b = escape_char(t.last());
        assert(forall|j: int| 0 <= j < b.len() ==> #[trigger] b[j] != '<' && b[j] != '>');
        assert forall|i: int| 0 <= i < escape_markup(t).len() implies #[trigger] escape_markup(t)[i] != '<' && escape_markup(t)[i] != '>' by {
            if i < a.len() {
                assert(escape_markup(t)[i] == a[i]);
            } else {
                assert(escape_markup(t)[i] == b[i - a.len()]);
            }
        }
    }
}

/// Text without `<` and `>` is left as it is.
pub proof fn law_plain_text_unchanged(t: Seq<char>)
    requires
        forall|i: int| 0 <= i < t.len() ==> #[trigger] t[i] != '<' && t[i] != '>',
    ensures
        escape_markup(t) == t,
    decreases t.len(),
{
    if t.len() > 0 {
        law_plain_text_unchanged(t.drop_last());
        assert(t.drop_last().push(t.last()) =~= t);
        assert(escape_char(t.last()) =~= seq![t.last()]);
        assert(escape_markup(t.drop_last()) + seq![t.last()] =~= t.drop_last().push(t.last()));
    }
}

} // verus!
