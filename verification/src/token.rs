//! The two kinds of value that a stored record is made of: quoted strings
//! and numerals, in the compact JSON form.

use crate::text::{
    decimal_text, digit_char, holds_at, is_digit, lemma_decimal_text, lemma_holds_at_concat,
    push_decimal, read_decimal, substring, to_chars,
};
use vstd::prelude::*;

verus! {

/// The lower-case hexadecimal digit of `d`, for `d` in `0..=15`.
pub open spec fn hex_char(d: int) -> char {
    if d < 10 {
        digit_char(d)
    } else {
        (('a' as int) + d - 10) as char
    }
}

/// Whether `c` is a control character that is written as `\u00XX`.
pub open spec fn is_plain_control(c: char) -> bool {
    0 <= (c as int) < 0x20 && c != '\u{8}' && c != '\t' && c != '\n' && c != '\u{c}' && c != '\r'
}

/// How one character is written inside a quoted string: the quote, the
/// backslash and the control characters are escaped, every other character
/// stands for itself.
pub open spec fn escaped_char(c: char) -> Seq<char> {
    if c == '"' {
        seq!['\\', '"']
    } else if c == '\\' {
        seq!['\\', '\\']
    } else if c == '\u{8}' {
        seq!['\\', 'b']
    } else if c == '\u{c}' {
        seq!['\\', 'f']
    } else if c == '\n' {
        seq!['\\', 'n']
    } else if c == '\r' {
        seq!['\\', 'r']
    } else if c == '\t' {
        seq!['\\', 't']
    } else if 0 <= (c as int) < 0x20 {
        seq!['\\', 'u', '0', '0', hex_char((c as int) / 16), hex_char((c as int) % 16)]
    } else {
        seq![c]
    }
}

/// The characters of `s`, each written as inside a quoted string.
pub open spec fn escaped_text(s: Seq<char>) -> Seq<char>
    decreases s.len(),
{
    if s.len() == 0 {
        Seq::empty()
    } else {
        escaped_text(s.drop_last()) + escaped_char(s.last())
    }
}

/// The quoted string that stands for `s`.
pub open spec fn quoted_text(s: Seq<char>) -> Seq<char> {
    seq!['"'] + escaped_text(s) + seq!['"']
}

/// Escaping works character by character.
pub proof fn lemma_escaped_text_concat(a: Seq<char>, b: Seq<char>)
    ensures
        escaped_text(a + b) == escaped_text(a) + escaped_text(b),
    decreases b.len(),
{
    if b.len() == 0 {
        assert(a + b == a);
    } else {
        lemma_escaped_text_concat(a, b.drop_last());
        assert((a + b).drop_last() == a + b.drop_last());
        assert((a + b).last() == b.last());
    }
}

/// The escaped form of a text that is not empty begins with the escaped form
/// of its first character.
pub proof fn lemma_escaped_text_head(s: Seq<char>)
    requires
        s.len() > 0,
    ensures
        escaped_text(s) == escaped_char(s[0]) + escaped_text(s.skip(1)),
{
    let head = seq![s[0]];
    assert(head + s.skip(1) == s);
    lemma_escaped_text_concat(head, s.skip(1));
    assert(head.drop_last() == Seq::<char>::empty());
    assert(escaped_text(head) == escaped_text(head.drop_last()) + escaped_char(head.last()));
}

/// Appends `c` as it is written inside a quoted string.
pub(crate) fn push_escaped_char(out: &mut String, c: char)
    ensures
        final(out)@ == old(out)@ + escaped_char(c),
{
    if c == '"' {
        out.push('\\');
        out.push('"');
    } else if c == '\\' {
        out.push('\\');
        out.push('\\');
    } else if c == '\u{8}' {
        out.push('\\');
        out.push('b');
    } else if c == '\u{c}' {
        out.push('\\');
        out.push('f');
    } else if c == '\n' {
        out.push('\\');
        out.push('n');
    } else if c == '\r' {
        out.push('\\');
        out.push('r');
    } else if c == '\t' {
        out.push('\\');
        out.push('t');
    } else if is_control(c) {
        let code: u8 = c as u32 as u8;
        out.push('\\');
        out.push('u');
        out.push('0');
        out.push('0');
        out.push(hex_of(code / 16));
        out.push(hex_of(code % 16));
    } else {
        out.push(c);
    }
}

/// Whether `c` comes before the space, as the control characters do.
pub(crate) fn is_control(c: char) -> (b: bool)
    ensures
        b == (0 <= (c as int) < 0x20),
{
    ' ' > c
}

/// The lower-case hexadecimal digit of `d`.
pub(crate) fn hex_of(d: u8) -> (c: char)
    requires
        d < 16,
    ensures
        c == hex_char(d as int),
{
    if d < 10 {
        (48u8 + d) as char
    } else {
        (87u8 + d) as char
    }
}

/// The value of `c` where it is a lower-case hexadecimal digit.
pub(crate) fn hex_value_of(c: char) -> (r: Option<u8>)
    ensures
        r matches Some(d) ==> d < 16 && c == hex_char(d as int),
        forall|d: int| 0 <= d < 16 && c == #[trigger] hex_char(d) ==> r == Some(d as u8),
{
    if c >= '0' && c <= '9' {
        Some((c as u32 - '0' as u32) as u8)
    } else if c >= 'a' && c <= 'f' {
        Some((c as u32 - 'a' as u32 + 10) as u8)
    } else {
        None
    }
}

/// Appends the quoted string that stands for `s`.
pub(crate) fn push_quoted(out: &mut String, s: &str)
    ensures
        final(out)@ == old(out)@ + quoted_text(s@),
{
    out.push('"');
    for c in it: s.chars()
        invariant
            it.seq() == s@,
            out@ == old(out)@ + seq!['"'] + escaped_text(s@.take(it.index() as int)),
    {
        proof {
            let done = s@.take(it.index() as int);
            let next = s@.take(it.index() + 1);
            assert(next.drop_last() == done);
            assert(next.last() == c);
        }
        push_escaped_char(out, c);
    }
    assert(s@.take(s@.len() as int) == s@);
    out.push('"');
}

/// Where a text holds `t` at `pos`, its characters from `pos` on are those of
/// `t`.
pub proof fn lemma_holds_at_index(s: Seq<char>, pos: int, t: Seq<char>, k: int)
    requires
        holds_at(s, pos, t),
        0 <= k < t.len(),
    ensures
        s[pos + k] == t[k],
{
    assert(s.subrange(pos, pos + t.len())[k] == s[pos + k]);
}

/// Where a text holds the escaped form of `c`, its first characters are
/// those of that form.
pub proof fn lemma_escaped_char_at(s: Seq<char>, i: int, c: char)
    requires
        holds_at(s, i, escaped_char(c)),
    ensures
        0 <= i < s.len(),
        s[i] == escaped_char(c)[0],
        escaped_char(c).len() == 1 || escaped_char(c).len() == 2 || escaped_char(c).len() == 6,
        escaped_char(c).len() >= 2 ==> i + 1 < s.len() && s[i + 1] == escaped_char(c)[1],
        escaped_char(c).len() == 6 ==> {
            &&& i + 5 < s.len()
            &&& s[i + 2] == '0'
            &&& s[i + 3] == '0'
            &&& s[i + 4] == hex_char((c as int) / 16)
            &&& s[i + 5] == hex_char((c as int) % 16)
        },
{
    let t = escaped_char(c);
    lemma_holds_at_index(s, i, t, 0);
    if t.len() >= 2 {
        lemma_holds_at_index(s, i, t, 1);
    }
    if t.len() == 6 {
        lemma_holds_at_index(s, i, t, 2);
        lemma_holds_at_index(s, i, t, 3);
        lemma_holds_at_index(s, i, t, 4);
        lemma_holds_at_index(s, i, t, 5);
    }
}

/// The character that a two-character escape with the letter `e` stands for.
pub open spec fn short_escape(e: char) -> Option<char> {
    if e == '"' {
        Some('"')
    } else if e == '\\' {
        Some('\\')
    } else if e == 'b' {
        Some('\u{8}')
    } else if e == 'f' {
        Some('\u{c}')
    } else if e == 'n' {
        Some('\n')
    } else if e == 'r' {
        Some('\r')
    } else if e == 't' {
        Some('\t')
    } else {
        None
    }
}

/// The three shapes of an escaped character, each told by its first two
/// characters.
pub proof fn lemma_escaped_char_shape(c: char)
    ensures
        escaped_char(c).len() == 1 ==> escaped_char(c)[0] == c && c != '"' && c != '\\' && !(0
            <= (c as int) < 0x20),
        escaped_char(c).len() != 1 ==> escaped_char(c)[0] == '\\',
        escaped_char(c).len() == 2 ==> short_escape(escaped_char(c)[1]) == Some(c),
        escaped_char(c).len() == 6 ==> escaped_char(c)[1] == 'u' && is_plain_control(c),
        escaped_char(c).len() == 1 || escaped_char(c).len() == 2 || escaped_char(c).len() == 6,
{
}

/// Reads the four characters behind `\u` at `i`: two zeros and the two
/// hexadecimal digits of a control character that has no shorter escape.
fn read_control_escape(v: &Vec<char>, i: usize) -> (r: Option<char>)
    requires
        i + 6 <= v.len(),
        v@[i as int] == '\\',
        v@[i + 1] == 'u',
    ensures
        r matches Some(c) ==> escaped_char(c).len() == 6 && holds_at(
            v@,
            i as int,
            escaped_char(c),
        ),
        forall|c: char| holds_at(v@, i as int, #[trigger] escaped_char(c)) ==> r == Some(c),
{
    proof {
        assert forall|c: char| holds_at(v@, i as int, #[trigger] escaped_char(c)) implies {
            &&& is_plain_control(c)
            &&& v@[i + 2] == '0'
            &&& v@[i + 3] == '0'
            &&& v@[i + 4] == hex_char((c as int) / 16)
            &&& v@[i + 5] == hex_char((c as int) % 16)
        } by {
            lemma_escaped_char_at(v@, i as int, c);
            lemma_escaped_char_shape(c);
        }
    }
    if v[i + 2] != '0' || v[i + 3] != '0' {
        return None;
    }
    let high = match hex_value_of(v[i + 4]) {
        Some(d) => d,
        None => { return None; },
    };
    let low = match hex_value_of(v[i + 5]) {
        Some(d) => d,
        None => { return None; },
    };
    if high >= 2 {
        return None;
    }
    let code: u8 = high * 16 + low;
    if code == 8 || code == 9 || code == 10 || code == 12 || code == 13 {
        return None;
    }
    let c = code as char;
    assert(v@.subrange(i as int, i + 6) == escaped_char(c));
    Some(c)
}

/// The character that the escape letter `e` stands for.
fn read_short_escape(e: char) -> (r: Option<char>)
    ensures
        r == short_escape(e),
{
    if e == '"' {
        Some('"')
    } else if e == '\\' {
        Some('\\')
    } else if e == 'b' {
        Some('\u{8}')
    } else if e == 'f' {
        Some('\u{c}')
    } else if e == 'n' {
        Some('\n')
    } else if e == 'r' {
        Some('\r')
    } else if e == 't' {
        Some('\t')
    } else {
        None
    }
}

/// Reads one character of a quoted string at `i`, in its escaped form. It
/// answers with the character and the width of that form exactly where `v`
/// holds the escaped form of a character there.
pub(crate) fn read_escaped_char(v: &Vec<char>, i: usize) -> (r: Option<(char, usize)>)
    ensures
        r matches Some((c, w)) ==> holds_at(v@, i as int, escaped_char(c)) && w == escaped_char(
            c,
        ).len(),
        forall|c: char|
            holds_at(v@, i as int, #[trigger] escaped_char(c)) ==> (r matches Some(p) && p.0 == c),
{
    proof {
        assert forall|c: char| holds_at(v@, i as int, #[trigger] escaped_char(c)) implies {
            &&& i < v.len()
            &&& v@[i as int] == escaped_char(c)[0]
            &&& escaped_char(c).len() >= 2 ==> i + 1 < v.len() && v@[i + 1] == escaped_char(c)[1]
            &&& escaped_char(c).len() == 6 ==> i + 5 < v.len()
        } by {
            lemma_escaped_char_at(v@, i as int, c);
        }
        assert forall|c: char|
            {
                &&& (#[trigger] escaped_char(c)).len() == 1 ==> escaped_char(c)[0] == c && c != '"'
                    && c != '\\' && !(0 <= (c as int) < 0x20)
                &&& escaped_char(c).len() != 1 ==> escaped_char(c)[0] == '\\'
                &&& escaped_char(c).len() == 2 ==> short_escape(escaped_char(c)[1]) == Some(c)
                &&& escaped_char(c).len() == 6 ==> escaped_char(c)[1] == 'u'
                &&& escaped_char(c).len() == 1 || escaped_char(c).len() == 2 || escaped_char(
                    c,
                ).len() == 6
            } by {
            lemma_escaped_char_shape(c);
        }
    }
    if i >= v.len() {
        return None;
    }
    let first = v[i];
    if first != '\\' {
        if first == '"' || is_control(first) {
            return None;
        }
        assert(v@.subrange(i as int, i + 1) == seq![first]);
        return Some((first, 1));
    }
    if v.len() - i < 2 {
        return None;
    }
    let second = v[i + 1];
    if second == 'u' {
        if v.len() - i < 6 {
            return None;
        }
        return match read_control_escape(v, i) {
            Some(c) => Some((c, 6)),
            None => None,
        };
    }
    match read_short_escape(second) {
        Some(c) => {
            assert(v@.subrange(i as int, i + 2) == escaped_char(c));
            Some((c, 2))
        },
        None => None,
    }
}

/// What a text holds where the rest of a quoted string begins: the closing
/// quote where nothing is left of the string, else the escaped form of the
/// next character followed by the rest.
pub proof fn lemma_quoted_step(s: Seq<char>, i: int, rest: Seq<char>)
    requires
        holds_at(s, i, escaped_text(rest) + seq!['"']),
    ensures
        0 <= i < s.len(),
        rest.len() == 0 ==> s[i] == '"',
        rest.len() > 0 ==> {
            &&& s[i] != '"'
            &&& holds_at(s, i, escaped_char(rest[0]))
            &&& holds_at(
                s,
                i + escaped_char(rest[0]).len(),
                escaped_text(rest.skip(1)) + seq!['"'],
            )
        },
{
    let quote = seq!['"'];
    if rest.len() == 0 {
        assert(escaped_text(rest) + quote == quote);
        lemma_holds_at_index(s, i, quote, 0);
    } else {
        let head = escaped_char(rest[0]);
        let tail = escaped_text(rest.skip(1)) + quote;
        lemma_escaped_text_head(rest);
        assert(escaped_text(rest) + quote == head + tail);
        lemma_holds_at_concat(s, i, head, tail);
        lemma_escaped_char_at(s, i, rest[0]);
        lemma_escaped_char_shape(rest[0]);
    }
}

/// Reads the quoted string at `pos`. It answers with the string and the
/// position behind its closing quote exactly where `v` holds a quoted string
/// there, and that string is the only one whose quoted form `v` holds there.
pub(crate) fn read_quoted(v: &Vec<char>, pos: usize) -> (r: Option<(String, usize)>)
    ensures
        r matches Some((s, end)) ==> holds_at(v@, pos as int, quoted_text(s@)) && end == pos
            + quoted_text(s@).len(),
        forall|x: Seq<char>|
            holds_at(v@, pos as int, #[trigger] quoted_text(x)) ==> (r matches Some(p) && p.0@
                == x),
{
    proof {
        assert forall|x: Seq<char>| holds_at(v@, pos as int, #[trigger] quoted_text(x)) implies {
            &&& pos < v.len()
            &&& v@[pos as int] == '"'
            &&& holds_at(v@, pos + 1, escaped_text(x) + seq!['"'])
        } by {
            assert(quoted_text(x) == seq!['"'] + (escaped_text(x) + seq!['"']));
            lemma_holds_at_concat(v@, pos as int, seq!['"'], escaped_text(x) + seq!['"']);
            lemma_holds_at_index(v@, pos as int, seq!['"'], 0);
        }
    }
    if pos >= v.len() || v[pos] != '"' {
        return None;
    }
    let mut out = String::new();
    let mut i: usize = pos + 1;
    proof {
        assert(v@.subrange(pos + 1, i as int) == Seq::<char>::empty());
        assert forall|x: Seq<char>|
            holds_at(v@, pos as int, #[trigger] quoted_text(x)) implies out@.is_prefix_of(x)
            && holds_at(v@, i as int, escaped_text(x.skip(out@.len() as int)) + seq!['"']) by {
            assert(x.skip(0) == x);
        }
    }
    loop
        invariant
            pos < i <= v.len(),
            v@[pos as int] == '"',
            v@.subrange(pos + 1, i as int) == escaped_text(out@),
            forall|x: Seq<char>|
                holds_at(v@, pos as int, #[trigger] quoted_text(x)) ==> {
                    &&& out@.is_prefix_of(x)
                    &&& holds_at(
                        v@,
                        i as int,
                        escaped_text(x.skip(out@.len() as int)) + seq!['"'],
                    )
                },
        decreases v.len() - i,
    {
        proof {
            assert forall|x: Seq<char>|
                holds_at(v@, pos as int, #[trigger] quoted_text(x)) implies {
                let rest = x.skip(out@.len() as int);
                &&& i < v.len()
                &&& rest.len() == 0 ==> v@[i as int] == '"' && x == out@
                &&& rest.len() > 0 ==> {
                    &&& v@[i as int] != '"'
                    &&& holds_at(v@, i as int, escaped_char(rest[0]))
                    &&& out@.push(rest[0]).is_prefix_of(x)
                    &&& x.skip((out@.len() + 1) as int) == rest.skip(1)
                    &&& holds_at(
                        v@,
                        i + escaped_char(rest[0]).len(),
                        escaped_text(rest.skip(1)) + seq!['"'],
                    )
                }
            } by {
                lemma_quoted_step(v@, i as int, x.skip(out@.len() as int));
            }
        }
        if i >= v.len() {
            return None;
        }
        if v[i] == '"' {
            proof {
                assert(v@.subrange(pos as int, i + 1) == seq!['"'] + v@.subrange(
                    pos + 1,
                    i as int,
                ) + seq!['"']);
            }
            return Some((out, i + 1));
        }
        match read_escaped_char(v, i) {
            None => {
                return None;
            },
            Some((c, w)) => {
                proof {
                    let before = out@;
                    let after = before.push(c);
                    assert(after.drop_last() == before);
                    assert(v@.subrange(pos + 1, i + w) == v@.subrange(pos + 1, i as int)
                        + v@.subrange(i as int, i + w));
                }
                out.push(c);
                i = i + w;
            },
        }
    }
}

/// The position behind the digits that `s` holds from `i` on.
pub open spec fn digits_end(s: Seq<char>, i: int) -> int
    decreases s.len() - i,
{
    if 0 <= i < s.len() && is_digit(s[i]) {
        digits_end(s, i + 1)
    } else {
        i
    }
}

/// Whether `c` is a sign of the kind that may stand in an exponent.
pub open spec fn is_sign(c: char) -> bool {
    c == '+' || c == '-'
}

/// Whether `c` is the letter that begins an exponent.
pub open spec fn is_exponent_mark(c: char) -> bool {
    c == 'e' || c == 'E'
}

/// Whether `c` can occur in a numeral.
pub open spec fn is_numeral_char(c: char) -> bool {
    is_digit(c) || is_sign(c) || c == '.' || is_exponent_mark(c)
}

/// Where the integer part of the numeral `s` begins: behind its minus sign,
/// if it has one.
pub open spec fn integer_start(s: Seq<char>) -> int {
    if s.len() > 0 && s[0] == '-' {
        1
    } else {
        0
    }
}

/// Where the fraction of the numeral `s` ends; where it has none, that is
/// where its integer part ends.
pub open spec fn fraction_end(s: Seq<char>) -> int {
    let b = digits_end(s, integer_start(s));
    if b < s.len() && s[b] == '.' {
        digits_end(s, b + 1)
    } else {
        b
    }
}

/// Where the digits of the exponent of the numeral `s` begin, for a numeral
/// with an exponent: behind the mark and the sign, if there is one.
pub open spec fn exponent_start(s: Seq<char>) -> int {
    let c = fraction_end(s);
    if c + 1 < s.len() && is_sign(s[c + 1]) {
        c + 2
    } else {
        c + 1
    }
}

/// Whether `s` is a number as JSON writes it: an optional minus sign, an
/// integer part without a needless leading zero, then optionally a point with
/// at least one digit, then optionally an exponent with at least one digit.
pub open spec fn is_numeral(s: Seq<char>) -> bool {
    let a = integer_start(s);
    let b = digits_end(s, a);
    let c = fraction_end(s);
    &&& b > a
    &&& s[a] == '0' ==> b == a + 1
    &&& (b < s.len() && s[b] == '.') ==> c > b + 1
    &&& if c < s.len() && is_exponent_mark(s[c]) {
        digits_end(s, exponent_start(s)) > exponent_start(s) && digits_end(s, exponent_start(s))
            == s.len()
    } else {
        c == s.len()
    }
}

/// The digits from `i` on end within the text, consist of digits, and are
/// followed by something else.
pub proof fn lemma_digits_end(s: Seq<char>, i: int)
    requires
        0 <= i <= s.len(),
    ensures
        i <= digits_end(s, i) <= s.len(),
        forall|k: int| i <= k < digits_end(s, i) ==> is_digit(#[trigger] s[k]),
        digits_end(s, i) < s.len() ==> !is_digit(s[digits_end(s, i)]),
    decreases s.len() - i,
{
    if i < s.len() && is_digit(s[i]) {
        lemma_digits_end(s, i + 1);
    }
}

/// A numeral consists of numeral characters.
pub proof fn lemma_numeral_chars(s: Seq<char>)
    requires
        is_numeral(s),
    ensures
        s.len() >= 1,
        forall|k: int| 0 <= k < s.len() ==> is_numeral_char(#[trigger] s[k]),
{
    let a = integer_start(s);
    let b = digits_end(s, a);
    let c = fraction_end(s);
    lemma_digits_end(s, a);
    if b < s.len() && s[b] == '.' {
        lemma_digits_end(s, b + 1);
    }
    if c < s.len() && is_exponent_mark(s[c]) {
        lemma_digits_end(s, exponent_start(s));
    }
}

/// The shortest decimal numeral of a number is a numeral.
pub proof fn lemma_decimal_text_is_numeral(n: nat)
    ensures
        is_numeral(decimal_text(n)),
{
    let s = decimal_text(n);
    lemma_decimal_text(n);
    lemma_digits_run(s, 0);
}

/// Where a text consists of digits from `i` on, the digits end with the text.
pub proof fn lemma_digits_run(s: Seq<char>, i: int)
    requires
        0 <= i <= s.len(),
        forall|k: int| i <= k < s.len() ==> is_digit(#[trigger] s[k]),
    ensures
        digits_end(s, i) == s.len(),
    decreases s.len() - i,
{
    if i < s.len() {
        lemma_digits_run(s, i + 1);
    }
}

/// The position behind the digits that `v` holds from `i` on.
fn scan_digits(v: &Vec<char>, i: usize) -> (end: usize)
    requires
        i <= v.len(),
    ensures
        end == digits_end(v@, i as int),
        i <= end <= v.len(),
{
    let mut k: usize = i;
    while k < v.len() && v[k] >= '0' && v[k] <= '9'
        invariant
            i <= k <= v.len(),
            digits_end(v@, k as int) == digits_end(v@, i as int),
        decreases v.len() - k,
    {
        k += 1;
    }
    k
}

/// Whether `v` is a numeral.
pub(crate) fn is_numeral_text(v: &Vec<char>) -> (b: bool)
    ensures
        b == is_numeral(v@),
{
    let len = v.len();
    let a: usize = if len > 0 && v[0] == '-' {
        1
    } else {
        0
    };
    let b = scan_digits(v, a);
    if b == a || (v[a] == '0' && b != a + 1) {
        return false;
    }
    let c: usize = if b < len && v[b] == '.' {
        let c = scan_digits(v, b + 1);
        if c == b + 1 {
            return false;
        }
        c
    } else {
        b
    };
    if c < len && (v[c] == 'e' || v[c] == 'E') {
        let e: usize = if c + 1 < len && (v[c + 1] == '+' || v[c + 1] == '-') {
            c + 2
        } else {
            c + 1
        };
        let end = scan_digits(v, e);
        end > e && end == len
    } else {
        c == len
    }
}

/// A number as it is written in a record: a numeral kept character for
/// character, so that what was read is written back unchanged.
#[derive(Debug, PartialEq, Eq)]
pub struct Numeral {
    text: String,
}

impl Clone for Numeral {
    fn clone(&self) -> (r: Self)
        ensures
            r@ == self@,
    {
        proof {
            use_type_invariant(self);
        }
        Numeral { text: self.text.clone() }
    }
}

impl View for Numeral {
    type V = Seq<char>;

    closed spec fn view(&self) -> Seq<char> {
        self.text@
    }
}

impl Numeral {
    /// Every `Numeral` holds a numeral.
    #[verifier::type_invariant]
    pub closed spec fn well_formed(self) -> bool {
        is_numeral(self.text@)
    }

    /// The numeral that `text` is, where it is one.
    pub fn parse(text: &str) -> (r: Option<Numeral>)
        ensures
            r is Some <==> is_numeral(text@),
            r matches Some(n) ==> n@ == text@,
    {
        let v = to_chars(text);
        if is_numeral_text(&v) {
            assert(v@.subrange(0, v.len() as int) == v@);
            Some(Numeral { text: substring(&v, 0, v.len()) })
        } else {
            None
        }
    }

    /// The shortest decimal numeral of `n`.
    pub fn from_u64(n: u64) -> (r: Numeral)
        ensures
            r@ == decimal_text(n as nat),
    {
        let mut text = String::new();
        push_decimal(&mut text, n);
        proof {
            lemma_decimal_text_is_numeral(n as nat);
        }
        Numeral { text }
    }

    /// The number that the numeral spells, where it is the shortest decimal
    /// numeral of a number that fits 64 bits.
    pub fn to_u64(&self) -> (r: Option<u64>)
        ensures
            r matches Some(n) ==> self@ == decimal_text(n as nat),
            forall|n: u64| self@ == #[trigger] decimal_text(n as nat) ==> r == Some(n),
    {
        let v = to_chars(self.text.as_str());
        read_decimal(&v)
    }

    /// The characters of the numeral.
    pub fn as_str(&self) -> (s: &str)
        ensures
            s@ == self@,
            is_numeral(self@),
    {
        proof {
            use_type_invariant(self);
        }
        self.text.as_str()
    }
}

/// The position behind the numeral characters that `s` holds from `i` on.
pub open spec fn numeral_chars_end(s: Seq<char>, i: int) -> int
    decreases s.len() - i,
{
    if 0 <= i < s.len() && is_numeral_char(s[i]) {
        numeral_chars_end(s, i + 1)
    } else {
        i
    }
}

/// Where a text holds at `i` a run of numeral characters followed by
/// something else, the run is what the numeral characters from `i` on end
/// with.
pub proof fn lemma_numeral_chars_end(s: Seq<char>, i: int, run: Seq<char>)
    requires
        holds_at(s, i, run),
        forall|k: int| 0 <= k < run.len() ==> is_numeral_char(#[trigger] run[k]),
        i + run.len() == s.len() || !is_numeral_char(s[i + run.len()]),
    ensures
        numeral_chars_end(s, i) == i + run.len(),
    decreases run.len(),
{
    if run.len() > 0 {
        lemma_holds_at_index(s, i, run, 0);
        assert(holds_at(s, i + 1, run.skip(1))) by {
            assert(seq![run[0]] + run.skip(1) == run);
            lemma_holds_at_concat(s, i, seq![run[0]], run.skip(1));
        }
        assert forall|k: int| 0 <= k < run.skip(1).len() implies is_numeral_char(
            #[trigger] run.skip(1)[k],
        ) by {
            assert(run.skip(1)[k] == run[k + 1]);
        }
        lemma_numeral_chars_end(s, i + 1, run.skip(1));
    }
}

/// Whether something other than a numeral character follows at `i`, or
/// nothing at all.
pub open spec fn numeral_stops_at(s: Seq<char>, i: int) -> bool {
    i == s.len() || (0 <= i < s.len() && !is_numeral_char(s[i]))
}

/// Reads the numeral at `pos`, which ends where something other than a
/// numeral character follows. It answers with the numeral and the position
/// behind it exactly where `v` holds a numeral there that ends so.
pub(crate) fn read_numeral(v: &Vec<char>, pos: usize) -> (r: Option<(Numeral, usize)>)
    ensures
        r matches Some((n, end)) ==> {
            &&& holds_at(v@, pos as int, n@)
            &&& end == pos + n@.len()
            &&& numeral_stops_at(v@, end as int)
        },
        forall|x: Seq<char>|
            #![trigger holds_at(v@, pos as int, x)]
            is_numeral(x) && holds_at(v@, pos as int, x) && numeral_stops_at(v@, pos + x.len())
                ==> (r matches Some(p) && p.0@ == x),
{
    if pos > v.len() {
        return None;
    }
    let mut end: usize = pos;
    while end < v.len() && is_numeral_letter(v[end])
        invariant
            pos <= end <= v.len(),
            numeral_chars_end(v@, end as int) == numeral_chars_end(v@, pos as int),
        decreases v.len() - end,
    {
        end += 1;
    }
    let text = substring(v, pos, end);
    proof {
        assert forall|x: Seq<char>|
            is_numeral(x) && #[trigger] holds_at(v@, pos as int, x) && numeral_stops_at(
                v@,
                pos + x.len(),
            ) implies x == text@ by {
            lemma_numeral_chars(x);
            lemma_numeral_chars_end(v@, pos as int, x);
        }
    }
    match Numeral::parse(text.as_str()) {
        Some(n) => Some((n, end)),
        None => None,
    }
}

/// Whether `c` can occur in a numeral.
fn is_numeral_letter(c: char) -> (b: bool)
    ensures
        b == is_numeral_char(c),
{
    (c >= '0' && c <= '9') || c == '+' || c == '-' || c == '.' || c == 'e' || c == 'E'
}

} // verus!
