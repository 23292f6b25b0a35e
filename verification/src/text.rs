//! Character sequences: conversions, decimal digits and the order of keys.

use vstd::prelude::*;

verus! {

/// `String::push` appends exactly one character to the string.
pub assume_specification[ String::push ](s: &mut String, c: char)
    ensures
        final(s)@ == old(s)@.push(c),
;

/// The decimal digit character of `d`, for `d` in `0..=9`.
pub open spec fn digit_char(d: int) -> char {
    (('0' as int) + d) as char
}

/// Whether `c` is one of the ten ASCII digits.
pub open spec fn is_digit(c: char) -> bool {
    '0' <= c <= '9'
}

/// The value of the digit `c`.
pub open spec fn digit_value(c: char) -> int {
    (c as int) - ('0' as int)
}

/// Whether `s` holds the text `t` starting at position `pos`.
pub open spec fn holds_at(s: Seq<char>, pos: int, t: Seq<char>) -> bool {
    &&& 0 <= pos
    &&& pos + t.len() <= s.len()
    &&& s.subrange(pos, pos + t.len()) == t
}

/// The shortest decimal numeral of `n`: no leading zero, `"0"` for zero.
pub open spec fn decimal_text(n: nat) -> Seq<char>
    decreases n,
{
    if n < 10 {
        seq![digit_char(n as int)]
    } else {
        decimal_text(n / 10).push(digit_char((n % 10) as int))
    }
}

/// The last `width` decimal digits of `n`, zero-padded on the left.
pub open spec fn padded_text(n: nat, width: nat) -> Seq<char>
    decreases width,
{
    if width == 0 {
        Seq::empty()
    } else {
        padded_text(n / 10, (width - 1) as nat).push(digit_char((n % 10) as int))
    }
}

/// Ten to the power `e`.
pub open spec fn pow10(e: nat) -> nat
    decreases e,
{
    if e == 0 {
        1
    } else {
        10 * pow10((e - 1) as nat)
    }
}

/// Strict lexicographic order on character sequences, by code point.
pub open spec fn lex_lt(a: Seq<char>, b: Seq<char>) -> bool {
    exists|i: int|
        #![trigger a.take(i)]
        {
            &&& 0 <= i <= a.len()
            &&& i <= b.len()
            &&& a.take(i) == b.take(i)
            &&& i < b.len()
            &&& i < a.len() ==> (a[i] as int) < (b[i] as int)
        }
}

/// Whether every character of `s` is a decimal digit.
pub open spec fn all_digits(s: Seq<char>) -> bool {
    forall|i: int| 0 <= i < s.len() ==> is_digit(#[trigger] s[i])
}

/// The number that the digits of `s` spell in base ten.
pub open spec fn digits_value(s: Seq<char>) -> nat
    decreases s.len(),
{
    if s.len() == 0 {
        0
    } else {
        (digits_value(s.drop_last()) * 10 + digit_value(s.last())) as nat
    }
}

/// A text holds a concatenation exactly where it holds the two parts one
/// after the other.
pub proof fn lemma_holds_at_concat(s: Seq<char>, pos: int, a: Seq<char>, b: Seq<char>)
    ensures
        holds_at(s, pos, a + b) <==> holds_at(s, pos, a) && holds_at(s, pos + a.len(), b),
{
    if holds_at(s, pos, a + b) {
        assert(s.subrange(pos, pos + a.len()) == a) by {
            assert(s.subrange(pos, pos + a.len()) == s.subrange(pos, pos + (a + b).len()).take(
                a.len() as int,
            ));
            assert((a + b).take(a.len() as int) == a);
        }
        assert(s.subrange(pos + a.len(), pos + a.len() + b.len()) == b) by {
            assert(s.subrange(pos + a.len(), pos + a.len() + b.len()) == s.subrange(
                pos,
                pos + (a + b).len(),
            ).skip(a.len() as int));
            assert((a + b).skip(a.len() as int) == b);
        }
    }
    if holds_at(s, pos, a) && holds_at(s, pos + a.len(), b) {
        assert(s.subrange(pos, pos + (a + b).len()) == s.subrange(pos, pos + a.len())
            + s.subrange(pos + a.len(), pos + a.len() + b.len()));
    }
}

/// A zero-padded numeral has the width it was asked for, consists of digits
/// and spells the number modulo ten to that width.
pub proof fn lemma_padded_text(n: nat, width: nat)
    ensures
        padded_text(n, width).len() == width,
        all_digits(padded_text(n, width)),
        digits_value(padded_text(n, width)) == n % pow10(width),
    decreases width,
{
    if width > 0 {
        let head = padded_text(n / 10, (width - 1) as nat);
        let whole = padded_text(n, width);
        lemma_padded_text(n / 10, (width - 1) as nat);
        assert(whole.drop_last() == head);
        assert forall|i: int| 0 <= i < whole.len() implies is_digit(#[trigger] whole[i]) by {
            if i < head.len() {
                assert(whole[i] == head[i]);
            }
        }
        lemma_pow10_positive((width - 1) as nat);
        let p = pow10((width - 1) as nat);
        assert(((n / 10) % p) * 10 + n % 10 == n % (10 * p)) by (nonlinear_arith)
            requires
                p > 0,
        ;
    }
}

/// The powers of ten that the widths of this library need.
pub proof fn lemma_pow10_values()
    ensures
        pow10(2) == 100,
        pow10(4) == 10000,
        pow10(13) == 10000000000000,
{
    reveal_with_fuel(pow10, 14);
}

/// Numbers that fit a width are told apart by their zero-padded numerals.
pub proof fn lemma_padded_text_injective(a: nat, b: nat, width: nat)
    requires
        a < pow10(width),
        b < pow10(width),
        padded_text(a, width) == padded_text(b, width),
    ensures
        a == b,
{
    lemma_padded_text(a, width);
    lemma_padded_text(b, width);
    assert(a % pow10(width) == a) by (nonlinear_arith)
        requires
            a < pow10(width),
    ;
    assert(b % pow10(width) == b) by (nonlinear_arith)
        requires
            b < pow10(width),
    ;
}

/// Powers of ten are positive.
pub proof fn lemma_pow10_positive(e: nat)
    ensures
        pow10(e) > 0,
    decreases e,
{
    if e > 0 {
        lemma_pow10_positive((e - 1) as nat);
    }
}

/// A run of digits is the zero-padded numeral of the number it spells, and
/// that number has no more digits than the run.
pub proof fn lemma_digits_are_padded_text(s: Seq<char>)
    requires
        all_digits(s),
    ensures
        digits_value(s) < pow10(s.len()),
        padded_text(digits_value(s), s.len()) == s,
    decreases s.len(),
{
    if s.len() > 0 {
        let head = s.drop_last();
        lemma_digits_are_padded_text(head);
        let v = digits_value(s);
        assert(is_digit(s.last()));
        assert(v / 10 == digits_value(head));
        assert(v % 10 == digit_value(s.last()));
        assert(padded_text(v, s.len()) == padded_text(v / 10, (s.len() - 1) as nat).push(
            digit_char((v % 10) as int),
        ));
        assert(head.push(s.last()) == s);
    }
}

/// Texts of equal length that are in order stay in order whatever follows
/// them.
pub proof fn lemma_lex_lt_extend(a: Seq<char>, b: Seq<char>, x: Seq<char>, y: Seq<char>)
    requires
        lex_lt(a, b),
        a.len() == b.len(),
    ensures
        lex_lt(a + x, b + y),
{
    let i = choose|i: int|
        #![trigger a.take(i)]
        {
            &&& 0 <= i <= a.len()
            &&& i <= b.len()
            &&& a.take(i) == b.take(i)
            &&& i < b.len()
            &&& i < a.len() ==> (a[i] as int) < (b[i] as int)
        };
    assert((a + x).take(i) == a.take(i));
    assert((b + y).take(i) == b.take(i));
    assert((a + x)[i] == a[i]);
    assert((b + y)[i] == b[i]);
}

/// Texts that are in order stay in order behind a common prefix.
pub proof fn lemma_lex_lt_common_prefix(p: Seq<char>, a: Seq<char>, b: Seq<char>)
    requires
        lex_lt(a, b),
    ensures
        lex_lt(p + a, p + b),
{
    let i = choose|i: int|
        #![trigger a.take(i)]
        {
            &&& 0 <= i <= a.len()
            &&& i <= b.len()
            &&& a.take(i) == b.take(i)
            &&& i < b.len()
            &&& i < a.len() ==> (a[i] as int) < (b[i] as int)
        };
    let k = p.len() + i;
    assert((p + a).take(k) == p + a.take(i));
    assert((p + b).take(k) == p + b.take(i));
    assert((p + b)[k] == b[i]);
    if i < a.len() {
        assert((p + a)[k] == a[i]);
    }
}

/// Texts behind a common prefix are in order only where they are in order
/// without it.
pub proof fn lemma_lex_lt_without_prefix(p: Seq<char>, a: Seq<char>, b: Seq<char>)
    requires
        lex_lt(p + a, p + b),
    ensures
        lex_lt(a, b),
{
    let x = p + a;
    let y = p + b;
    let k = choose|k: int|
        #![trigger x.take(k)]
        {
            &&& 0 <= k <= x.len()
            &&& k <= y.len()
            &&& x.take(k) == y.take(k)
            &&& k < y.len()
            &&& k < x.len() ==> (x[k] as int) < (y[k] as int)
        };
    if k < p.len() {
        assert(x[k] == p[k]);
        assert(y[k] == p[k]);
    } else {
        let i = k - p.len();
        assert(a.take(i) =~= b.take(i)) by {
            assert forall|j: int| 0 <= j < i implies a[j] == b[j] by {
                assert(x.take(k)[p.len() + j] == x[p.len() + j]);
                assert(y.take(k)[p.len() + j] == y[p.len() + j]);
                assert(x[p.len() + j] == a[j]);
                assert(y[p.len() + j] == b[j]);
            }
        }
        assert(y[k] == b[i]);
        if i < a.len() {
            assert(x[k] == a[i]);
        }
    }
}

/// Zero-padded numerals of one width are ordered as the numbers they spell.
pub proof fn lemma_padded_text_order(n: nat, m: nat, width: nat)
    requires
        n < m < pow10(width),
    ensures
        lex_lt(padded_text(n, width), padded_text(m, width)),
    decreases width,
{
    if width > 0 {
        let w1 = (width - 1) as nat;
        let a = padded_text(n / 10, w1);
        let b = padded_text(m / 10, w1);
        let da = seq![digit_char((n % 10) as int)];
        let db = seq![digit_char((m % 10) as int)];
        lemma_padded_text(n / 10, w1);
        lemma_padded_text(m / 10, w1);
        assert(padded_text(n, width) == a + da);
        assert(padded_text(m, width) == b + db);
        if n / 10 < m / 10 {
            lemma_padded_text_order(n / 10, m / 10, w1);
            lemma_lex_lt_extend(a, b, da, db);
        } else {
            assert(n / 10 == m / 10);
            let i = w1 as int;
            assert((a + da).take(i) == a);
            assert((b + db).take(i) == b);
            assert(lex_lt(a + da, b + db));
        }
    }
}

/// The characters of `s`, in order.
pub(crate) fn to_chars(s: &str) -> (v: Vec<char>)
    ensures
        v@ == s@,
{
    let mut v: Vec<char> = Vec::new();
    for c in it: s.chars()
        invariant
            it.seq() == s@,
            v@ == s@.take(it.index() as int),
    {
        v.push(c);
    }
    v
}

/// The string made of the characters `v[from..to]`.
pub(crate) fn substring(v: &Vec<char>, from: usize, to: usize) -> (s: String)
    requires
        from <= to <= v.len(),
    ensures
        s@ == v@.subrange(from as int, to as int),
{
    let mut s = String::new();
    let mut i: usize = from;
    while i < to
        invariant
            from <= i <= to <= v.len(),
            s@ == v@.subrange(from as int, i as int),
        decreases to - i,
    {
        s.push(v[i]);
        i += 1;
    }
    s
}

/// Whether `v` holds the text `lit` starting at position `pos`.
pub(crate) fn starts_with_at(v: &Vec<char>, pos: usize, lit: &Vec<char>) -> (b: bool)
    ensures
        b == holds_at(v@, pos as int, lit@),
{
    if pos > v.len() || lit.len() > v.len() - pos {
        return false;
    }
    let mut i: usize = 0;
    while i < lit.len()
        invariant
            pos + lit.len() <= v.len(),
            0 <= i <= lit.len(),
            v@.subrange(pos as int, pos + i) == lit@.take(i as int),
        decreases lit.len() - i,
    {
        if v[pos + i] != lit[i] {
            assert(v@.subrange(pos as int, pos + lit.len())[i as int] != lit@[i as int]);
            return false;
        }
        i += 1;
    }
    assert(lit@.take(lit.len() as int) == lit@);
    true
}

/// Whether the character `c` occurs in `s`.
pub(crate) fn contains_char(s: &str, c: char) -> (b: bool)
    ensures
        b == s@.contains(c),
{
    let mut found = false;
    for x in it: s.chars()
        invariant
            it.seq() == s@,
            found == s@.take(it.index() as int).contains(c),
    {
        let ghost seen = s@.take(it.index() as int);
        let ghost next = s@.take(it.index() + 1);
        assert(next == seen.push(x));
        assert(next.contains(c) == (seen.contains(c) || x == c)) by {
            if seen.contains(c) {
                let j = choose|j: int| 0 <= j < seen.len() && seen[j] == c;
                assert(next[j] == c);
            }
            if x == c {
                assert(next[seen.len() as int] == c);
            }
        }
        if x == c {
            found = true;
        }
    }
    assert(s@.take(s@.len() as int) == s@);
    found
}

/// The digit character of `d`.
pub(crate) fn digit_of(d: u8) -> (c: char)
    requires
        d < 10,
    ensures
        c == digit_char(d as int),
        is_digit(c),
        digit_value(c) == d,
{
    (48u8 + d) as char
}

/// The value of `c` where it is a decimal digit.
pub(crate) fn value_of(c: char) -> (r: Option<u8>)
    ensures
        r is Some == is_digit(c),
        r matches Some(d) ==> d < 10 && d == digit_value(c) && c == digit_char(d as int),
{
    if c >= '0' && c <= '9' {
        Some((c as u32 - '0' as u32) as u8)
    } else {
        None
    }
}

/// Reads the `width` digits at `pos` as a zero-padded numeral. It answers
/// with the number exactly where `v` holds such a numeral there.
pub(crate) fn read_padded(v: &Vec<char>, pos: usize, width: u8) -> (r: Option<u64>)
    requires
        width <= 19,
    ensures
        r matches Some(n) ==> n < pow10(width as nat) && holds_at(
            v@,
            pos as int,
            padded_text(n as nat, width as nat),
        ),
        forall|m: nat|
            holds_at(v@, pos as int, #[trigger] padded_text(m, width as nat)) ==> r == Some(
                (m % pow10(width as nat)) as u64,
            ),
{
    let w: usize = width as usize;
    if pos > v.len() || w > v.len() - pos {
        proof {
            assert forall|m: nat| !holds_at(v@, pos as int, #[trigger] padded_text(m, w as nat)) by {
                lemma_padded_text(m, w as nat);
            }
        }
        return None;
    }
    let ghost run = v@.subrange(pos as int, pos + w);
    let mut acc: u64 = 0;
    let mut i: usize = 0;
    while i < w
        invariant
            w == width,
            w <= 19,
            pos + w <= v.len(),
            0 <= i <= w,
            run == v@.subrange(pos as int, pos + w),
            all_digits(run.take(i as int)),
            acc == digits_value(run.take(i as int)),
            acc < pow10(i as nat),
        decreases w - i,
    {
        let c = v[pos + i];
        match value_of(c) {
            Some(d) => {
                proof {
                    reveal_with_fuel(pow10, 20);
                    let before = run.take(i as int);
                    let after = run.take(i + 1);
                    assert(after.drop_last() == before);
                    assert(after.last() == c);
                    assert forall|j: int| 0 <= j < after.len() implies is_digit(
                        #[trigger] after[j],
                    ) by {
                        if j < before.len() {
                            assert(after[j] == before[j]);
                        }
                    }
                    lemma_digits_are_padded_text(after);
                    assert(pow10((i + 1) as nat) <= pow10(19)) by {
                        lemma_pow10_monotonic((i + 1) as nat, 19);
                    }
                }
                acc = acc * 10 + d as u64;
            },
            None => {
                proof {
                    assert forall|m: nat|
                        !holds_at(v@, pos as int, #[trigger] padded_text(m, w as nat)) by {
                        lemma_padded_text(m, w as nat);
                        if holds_at(v@, pos as int, padded_text(m, w as nat)) {
                            assert(padded_text(m, w as nat)[i as int] == c);
                        }
                    }
                }
                return None;
            },
        }
        i += 1;
    }
    proof {
        assert(run.take(w as int) == run);
        lemma_digits_are_padded_text(run);
        assert forall|m: nat|
            holds_at(v@, pos as int, #[trigger] padded_text(m, w as nat)) implies acc == m % pow10(
            w as nat,
        ) by {
            lemma_padded_text(m, w as nat);
        }
    }
    Some(acc)
}

/// The shortest numeral of a number consists of digits, spells the number,
/// and begins with a zero only where it is the single digit zero.
pub proof fn lemma_decimal_text(n: nat)
    ensures
        decimal_text(n).len() >= 1,
        all_digits(decimal_text(n)),
        digits_value(decimal_text(n)) == n,
        decimal_text(n)[0] == '0' ==> n == 0 && decimal_text(n).len() == 1,
    decreases n,
{
    let whole = decimal_text(n);
    if n < 10 {
        assert(whole.drop_last() == Seq::<char>::empty());
        assert(digits_value(whole.drop_last()) == 0);
    } else {
        let head = decimal_text(n / 10);
        lemma_decimal_text(n / 10);
        assert(whole.drop_last() == head);
        assert(whole[0] == head[0]);
        assert forall|i: int| 0 <= i < whole.len() implies is_digit(#[trigger] whole[i]) by {
            if i < head.len() {
                assert(whole[i] == head[i]);
            }
        }
    }
}

/// A run of digits without a needless leading zero is the shortest numeral of
/// the number it spells.
pub proof fn lemma_digits_are_decimal_text(s: Seq<char>)
    requires
        all_digits(s),
        s.len() >= 1,
        s[0] != '0' || s.len() == 1,
    ensures
        decimal_text(digits_value(s)) == s,
        s.len() > 1 ==> digits_value(s) >= 10,
        s[0] != '0' ==> digits_value(s) >= 1,
    decreases s.len(),
{
    let head = s.drop_last();
    assert(is_digit(s.last()));
    if s.len() == 1 {
        assert(digits_value(head) == 0);
        assert(s == seq![s.last()]);
    } else {
        assert(head[0] == s[0]);
        lemma_digits_are_decimal_text(head);
        let v = digits_value(s);
        assert(v / 10 == digits_value(head));
        assert(v % 10 == digit_value(s.last()));
        assert(head.push(s.last()) == s);
    }
}

/// The number that a run of digits spells is no smaller than the number that
/// any of its beginnings spells.
pub proof fn lemma_digits_value_grows(s: Seq<char>, k: int)
    requires
        all_digits(s),
        0 <= k <= s.len(),
    ensures
        digits_value(s.take(k)) <= digits_value(s),
    decreases s.len(),
{
    if k == s.len() {
        assert(s.take(k) == s);
    } else {
        let head = s.drop_last();
        assert(is_digit(s.last()));
        assert(head.take(k) == s.take(k));
        lemma_digits_value_grows(head, k);
    }
}

/// Reads `v` as the shortest decimal numeral of a number that fits 64 bits.
/// It answers with the number exactly where `v` is such a numeral.
pub(crate) fn read_decimal(v: &Vec<char>) -> (r: Option<u64>)
    ensures
        r matches Some(n) ==> v@ == decimal_text(n as nat),
        forall|n: u64| v@ == #[trigger] decimal_text(n as nat) ==> r == Some(n),
{
    proof {
        assert forall|n: u64| v@ == #[trigger] decimal_text(n as nat) implies {
            &&& v.len() >= 1
            &&& all_digits(v@)
            &&& digits_value(v@) == n
            &&& v@[0] == '0' ==> v.len() == 1
        } by {
            lemma_decimal_text(n as nat);
        }
    }
    if v.len() == 0 || (v[0] == '0' && v.len() > 1) {
        return None;
    }
    let mut acc: u64 = 0;
    let mut i: usize = 0;
    while i < v.len()
        invariant
            0 <= i <= v.len(),
            all_digits(v@.take(i as int)),
            acc == digits_value(v@.take(i as int)),
            forall|n: u64|
                v@ == #[trigger] decimal_text(n as nat) ==> all_digits(v@) && digits_value(v@)
                    == n,
        decreases v.len() - i,
    {
        let d = match value_of(v[i]) {
            Some(d) => d,
            None => { return None; },
        };
        proof {
            let before = v@.take(i as int);
            let after = v@.take(i + 1);
            assert(after.drop_last() == before);
            assert(after.last() == v@[i as int]);
            assert forall|j: int| 0 <= j < after.len() implies is_digit(#[trigger] after[j]) by {
                if j < before.len() {
                    assert(after[j] == before[j]);
                }
            }
            assert forall|n: u64| v@ == #[trigger] decimal_text(n as nat) implies acc * 10 + d
                <= n by {
                lemma_digits_value_grows(v@, i + 1);
            }
        }
        if acc > (u64::MAX - d as u64) / 10 {
            return None;
        }
        acc = acc * 10 + d as u64;
        i += 1;
    }
    proof {
        assert(v@.take(v.len() as int) == v@);
        lemma_digits_are_decimal_text(v@);
    }
    Some(acc)
}

/// Powers of ten grow with the exponent.
pub proof fn lemma_pow10_monotonic(a: nat, b: nat)
    requires
        a <= b,
    ensures
        pow10(a) <= pow10(b),
    decreases b,
{
    if a < b {
        lemma_pow10_monotonic(a, (b - 1) as nat);
    }
}

/// Appends the shortest decimal numeral of `n`.
pub(crate) fn push_decimal(out: &mut String, n: u64)
    ensures
        final(out)@ == old(out)@ + decimal_text(n as nat),
    decreases n,
{
    if n >= 10 {
        push_decimal(out, n / 10);
    }
    out.push(digit_of((n % 10) as u8));
}

/// Appends the last `width` decimal digits of `n`, zero-padded.
pub(crate) fn push_padded(out: &mut String, n: u64, width: u8)
    ensures
        final(out)@ == old(out)@ + padded_text(n as nat, width as nat),
    decreases width,
{
    if width > 0 {
        push_padded(out, n / 10, width - 1);
        out.push(digit_of((n % 10) as u8));
    }
}

} // verus!
