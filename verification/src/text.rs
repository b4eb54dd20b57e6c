//! Text primitives shared by the renderers and parsers: characters,
//! decimal numbers, padding, splitting and whitespace trimming, all stated
//! over the character sequence that a string holds.

use vstd::prelude::*;
use vstd::std_specs::iter::IteratorSpec;

verus! {

// ---------------------------------------------------------------------------
// Characters in and out of strings.
// ---------------------------------------------------------------------------

/// `String::push`: appends one character.
#[verifier::external_body]
pub(crate) fn push_char(s: &mut String, c: char)
    ensures
        final(s)@ == old(s)@.push(c),
{
    s.push(c);
}

/// The characters of `s` in order, read with `str::chars`.
pub fn chars_of(s: &str) -> (v: Vec<char>)
    ensures
        v@ == s@,
{
    broadcast use vstd::string::axiom_spec_iter, vstd::string::next_postcondition;

    let mut it = s.chars();
    let mut v: Vec<char> = Vec::new();
    assert(it.remaining() == s@);
    loop
        invariant
            v@ + it.remaining() == s@,
            it.obeys_prophetic_iter_laws(),
            it.decrease() is Some,
        ensures
            v@ == s@,
        decreases it.decrease()->0,
    {
        let ghost before = it.remaining();
        match it.next() {
            Some(c) => {
                v.push(c);
                assert(v@ + it.remaining() =~= s@) by {
                    assert(before =~= seq![c] + before.drop_first());
                }
            },
            None => {
                assert(v@ =~= s@);
                break;
            },
        }
    }
    v
}

/// The string holding exactly the characters `v`.
pub fn string_from_chars(v: &[char]) -> (s: String)
    ensures
        s@ == v@,
{
    let mut s = String::new();
    let mut i: usize = 0;
    while i < v.len()
        invariant
            i <= v.len(),
            s@ == v@.subrange(0, i as int),
        decreases v.len() - i,
    {
        push_char(&mut s, v[i]);
        assert(v@.subrange(0, i + 1) == v@.subrange(0, i as int).push(v@[i as int]));
        i = i + 1;
    }
    assert(v@.subrange(0, v.len() as int) == v@);
    s
}

/// Appends `t` to `s`.
pub fn push_str(s: &mut String, t: &str)
    ensures
        final(s)@ == old(s)@ + t@,
{
    s.append(t);
}

// ---------------------------------------------------------------------------
// Decimal numbers.
// ---------------------------------------------------------------------------

/// The character of decimal digit `d`.
pub open spec fn digit_char(d: int) -> char {
    (d + 48) as char
}

/// `c` is an ASCII decimal digit.
pub open spec fn is_digit(c: char) -> bool {
    48 <= c as int <= 57
}

/// The value of decimal digit `c`.
pub fn digit_value(c: char) -> (u: u32)
    requires
        is_digit(c),
    ensures
        u as int == c as int - 48,
{
    match c {
        '0' => 0,
        '1' => 1,
        '2' => 2,
        '3' => 3,
        '4' => 4,
        '5' => 5,
        '6' => 6,
        '7' => 7,
        '8' => 8,
        _ => 9,
    }
}

/// `char::is_ascii_digit`.
pub fn char_is_digit(c: char) -> (r: bool)
    ensures
        r == is_digit(c),
{
    c >= '0' && c <= '9'
}

/// The decimal representation of `n`, without leading zeros.
pub open spec fn dec(n: nat) -> Seq<char>
    decreases n,
{
    if n < 10 {
        seq![digit_char(n as int)]
    } else {
        dec(n / 10).push(digit_char((n % 10) as int))
    }
}

/// `Display` of a signed integer: a minus sign, then the decimal digits.
pub open spec fn int_text(i: int) -> Seq<char> {
    if i < 0 {
        seq!['-'] + dec((-i) as nat)
    } else {
        dec(i as nat)
    }
}

/// `k` zero characters.
pub open spec fn zeros(k: nat) -> Seq<char> {
    Seq::new(k, |i: int| '0')
}

/// `s` left-padded with zeros to at least `w` characters.
pub open spec fn zpad(s: Seq<char>, w: nat) -> Seq<char> {
    if s.len() < w {
        zeros((w - s.len()) as nat) + s
    } else {
        s
    }
}

/// Every character of `s` is a decimal digit.
pub open spec fn all_digits(s: Seq<char>) -> bool {
    forall|i: int| 0 <= i < s.len() ==> is_digit(#[trigger] s[i])
}

/// The value of a string of decimal digits.
pub open spec fn digits_value(s: Seq<char>) -> nat
    decreases s.len(),
{
    if s.len() == 0 {
        0
    } else {
        digits_value(s.drop_last()) * 10 + (s.last() as int - 48) as nat
    }
}

/// `10` to the power `k`.
pub open spec fn pow10(k: nat) -> nat
    decreases k,
{
    if k == 0 {
        1
    } else {
        10 * pow10((k - 1) as nat)
    }
}

pub proof fn lemma_dec_digits(n: nat)
    ensures
        all_digits(dec(n)),
        dec(n).len() >= 1,
        digits_value(dec(n)) == n,
    decreases n,
{
    lemma_digit_char((n % 10) as int);
    if n < 10 {
        assert(dec(n).drop_last() =~= Seq::<char>::empty());
        assert(digits_value(Seq::<char>::empty()) == 0);
    } else {
        lemma_dec_digits(n / 10);
        let s = dec(n);
        assert(s.drop_last() == dec(n / 10));
        assert(digits_value(s) == (n / 10) * 10 + n % 10);
        assert(all_digits(s)) by {
            assert forall|i: int| 0 <= i < s.len() implies is_digit(#[trigger] s[i]) by {
                if i < s.len() - 1 {
                    assert(s[i] == dec(n / 10)[i]);
                }
            }
        }
    }
}

pub proof fn lemma_digit_char(d: int)
    requires
        0 <= d <= 9,
    ensures
        digit_char(d) as int == d + 48,
        is_digit(digit_char(d)),
{
}

pub proof fn lemma_leading_zeros(k: nat, s: Seq<char>)
    ensures
        digits_value(zeros(k) + s) == digits_value(s),
        all_digits(s) ==> all_digits(zeros(k) + s),
    decreases s.len(),
{
    if s.len() == 0 {
        lemma_zeros_value(k);
        assert(zeros(k) + s == zeros(k));
    } else {
        lemma_leading_zeros(k, s.drop_last());
        assert((zeros(k) + s).drop_last() == zeros(k) + s.drop_last());
    }
}

proof fn lemma_zeros_value(k: nat)
    ensures
        digits_value(zeros(k)) == 0,
        all_digits(zeros(k)),
    decreases k,
{
    if k > 0 {
        lemma_zeros_value((k - 1) as nat);
        assert(zeros(k).drop_last() == zeros((k - 1) as nat));
    }
}

/// A zero-padded decimal reads back as its value.
pub proof fn lemma_zpad_dec(n: nat, w: nat)
    ensures
        all_digits(zpad(dec(n), w)),
        zpad(dec(n), w).len() >= 1,
        digits_value(zpad(dec(n), w)) == n,
{
    lemma_dec_digits(n);
    if dec(n).len() < w {
        lemma_leading_zeros((w - dec(n).len()) as nat, dec(n));
    }
}

/// A number below `10^k` has at most `k` decimal digits.
pub proof fn lemma_dec_len(n: nat, k: nat)
    requires
        1 <= k,
        n < pow10(k),
    ensures
        dec(n).len() <= k,
    decreases k,
{
    if n >= 10 {
        assert(k >= 2) by {
            if k == 1 {
                reveal_with_fuel(pow10, 2);
            }
        }
        assert(pow10(k) == 10 * pow10((k - 1) as nat));
        lemma_dec_len(n / 10, (k - 1) as nat);
    }
}

/// Padded to a width that it fits, a number takes exactly that width.
pub proof fn lemma_zpad_dec_len(n: nat, w: nat)
    requires
        1 <= w,
        n < pow10(w),
    ensures
        zpad(dec(n), w).len() == w,
{
    lemma_dec_len(n, w);
}

/// Two digit strings of one length with one value are the same string.
pub proof fn lemma_digits_unique(x: Seq<char>, y: Seq<char>)
    requires
        all_digits(x),
        all_digits(y),
        x.len() == y.len(),
        digits_value(x) == digits_value(y),
    ensures
        x == y,
    decreases x.len(),
{
    if x.len() == 0 {
        assert(x =~= y);
    } else {
        let px = x.drop_last();
        let py = y.drop_last();
        assert(is_digit(x[x.len() - 1]));
        assert(is_digit(y[y.len() - 1]));
        assert(all_digits(px)) by {
            assert forall|i: int| 0 <= i < px.len() implies is_digit(#[trigger] px[i]) by {
                assert(px[i] == x[i]);
            }
        }
        assert(all_digits(py)) by {
            assert forall|i: int| 0 <= i < py.len() implies is_digit(#[trigger] py[i]) by {
                assert(py[i] == y[i]);
            }
        }
        assert(digits_value(px) == digits_value(py));
        assert(x.last() as int == y.last() as int);
        lemma_digits_unique(px, py);
        assert(x =~= px.push(x.last()));
        assert(y =~= py.push(y.last()));
    }
}

/// Appends the decimal digits of `n`.
pub fn push_decimal(s: &mut String, n: u64)
    ensures
        final(s)@ == old(s)@ + dec(n as nat),
    decreases n,
{
    if n >= 10 {
        push_decimal(s, n / 10);
    }
    let c = ((n % 10) as u8 + 48u8) as char;
    push_char(s, c);
    assert(c == digit_char((n % 10) as int));
}

/// Appends `n` in decimal, zero-padded to at least `w` characters.
pub fn push_padded(s: &mut String, n: u64, w: usize)
    ensures
        final(s)@ == old(s)@ + zpad(dec(n as nat), w as nat),
{
    let mut digits = String::new();
    push_decimal(&mut digits, n);
    let len = digits.unicode_len();
    if len < w {
        let mut k: usize = 0;
        while k < w - len
            invariant
                len < w,
                k <= w - len,
                s@ == old(s)@ + zeros(k as nat),
            decreases w - len - k,
        {
            push_char(s, '0');
            assert(zeros((k + 1) as nat) == zeros(k as nat).push('0'));
            k = k + 1;
        }
    }
    push_str(s, digits.as_str());
}

/// Appends `i` as `Display` writes it.
pub fn push_int(s: &mut String, i: i64)
    ensures
        final(s)@ == old(s)@ + int_text(i as int),
{
    if i < 0 {
        push_char(s, '-');
        let a: u64 = if i == i64::MIN { 9223372036854775808u64 } else { (-i) as u64 };
        push_decimal(s, a);
    } else {
        push_decimal(s, i as u64);
    }
}


// ---------------------------------------------------------------------------
// Splitting.
// ---------------------------------------------------------------------------

/// `str::split` on one character: the pieces between the separators, in
/// order; there is always one more piece than there are separators.
pub open spec fn split_on(s: Seq<char>, sep: char) -> Seq<Seq<char>>
    decreases s.len(),
{
    if s.len() == 0 {
        seq![Seq::<char>::empty()]
    } else {
        let init = split_on(s.drop_last(), sep);
        if s.last() == sep {
            init.push(Seq::<char>::empty())
        } else {
            init.update(init.len() - 1, init.last().push(s.last()))
        }
    }
}

/// The character sequences held by a vector of character vectors.
pub open spec fn pieces(v: Seq<Vec<char>>) -> Seq<Seq<char>> {
    v.map_values(|p: Vec<char>| p@)
}

/// The pieces of `v` between occurrences of `sep`.
pub fn split_chars(v: &[char], sep: char) -> (r: Vec<Vec<char>>)
    ensures
        pieces(r@) == split_on(v@, sep),
{
    let mut done: Vec<Vec<char>> = Vec::new();
    let mut cur: Vec<char> = Vec::new();
    let mut i: usize = 0;
    assert(v@.subrange(0, 0) == Seq::<char>::empty());
    assert(pieces(done@).push(cur@) == split_on(Seq::<char>::empty(), sep));
    while i < v.len()
        invariant
            i <= v.len(),
            pieces(done@).push(cur@) == split_on(v@.subrange(0, i as int), sep),
        decreases v.len() - i,
    {
        let c = v[i];
        let ghost pre = v@.subrange(0, i as int);
        assert(v@.subrange(0, i + 1).drop_last() == pre);
        assert(v@.subrange(0, i + 1).last() == c);
        let ghost old_dv = pieces(done@);
        if c == sep {
            let finished = cur;
            cur = Vec::new();
            done.push(finished);
            assert(pieces(done@) =~= old_dv.push(finished@));
            assert(pieces(done@) == split_on(pre, sep));
        } else {
            cur.push(c);
            assert(pieces(done@) =~= old_dv);
            assert(pieces(done@).push(cur@) == split_on(pre, sep).update(
                split_on(pre, sep).len() - 1,
                split_on(pre, sep).last().push(c),
            ));
        }
        i = i + 1;
    }
    assert(v@.subrange(0, v.len() as int) == v@);
    let ghost old_dv = pieces(done@);
    let ghost last = cur@;
    done.push(cur);
    assert(pieces(done@) =~= old_dv.push(last));
    done
}

// ---------------------------------------------------------------------------
// Whitespace.
// ---------------------------------------------------------------------------

/// `char::is_whitespace`: the Unicode `White_Space` property.
pub open spec fn is_ws(c: char) -> bool {
    let u = c as int;
    (0x9 <= u <= 0xD) || u == 0x20 || u == 0x85 || u == 0xA0 || u == 0x1680 || (0x2000 <= u
        <= 0x200A) || u == 0x2028 || u == 0x2029 || u == 0x202F || u == 0x205F || u == 0x3000
}

/// `char::is_whitespace`.
pub fn char_is_ws(c: char) -> (r: bool)
    ensures
        r == is_ws(c),
{
    ('\u{9}' <= c && c <= '\u{D}') || c == ' ' || c == '\u{85}' || c == '\u{A0}' || c == '\u{1680}'
        || ('\u{2000}' <= c && c <= '\u{200A}') || c == '\u{2028}' || c == '\u{2029}' || c
        == '\u{202F}' || c == '\u{205F}' || c == '\u{3000}'
}

/// `str::trim_end`: `s` without its trailing whitespace.
pub open spec fn trim_end(s: Seq<char>) -> Seq<char>
    decreases s.len(),
{
    if s.len() > 0 && is_ws(s.last()) {
        trim_end(s.drop_last())
    } else {
        s
    }
}

/// `str::trim_start`: `s` without its leading whitespace.
pub open spec fn trim_start(s: Seq<char>) -> Seq<char>
    decreases s.len(),
{
    if s.len() > 0 && is_ws(s[0]) {
        trim_start(s.drop_first())
    } else {
        s
    }
}

/// `str::trim`: `s` without leading and trailing whitespace.
pub open spec fn trim(s: Seq<char>) -> Seq<char> {
    trim_start(trim_end(s))
}

/// `trim_end` keeps a prefix.
pub proof fn lemma_trim_end_prefix(s: Seq<char>)
    ensures
        trim_end(s) == s.subrange(0, trim_end(s).len() as int),
        trim_end(s).len() <= s.len(),
    decreases s.len(),
{
    if s.len() > 0 && is_ws(s.last()) {
        lemma_trim_end_prefix(s.drop_last());
    }
}

/// `trim_start` keeps a suffix.
pub proof fn lemma_trim_start_suffix(s: Seq<char>)
    ensures
        trim_start(s) == s.subrange(s.len() - trim_start(s).len(), s.len() as int),
        trim_start(s).len() <= s.len(),
    decreases s.len(),
{
    if s.len() > 0 && is_ws(s[0]) {
        lemma_trim_start_suffix(s.drop_first());
    }
}

/// Number of characters that remain after dropping trailing whitespace of
/// `v[0 .. n]`.
fn trimmed_end_len(v: &[char], n: usize) -> (k: usize)
    requires
        n <= v.len(),
    ensures
        k as int == trim_end(v@.subrange(0, n as int)).len(),
    decreases n,
{
    if n > 0 && char_is_ws(v[n - 1]) {
        assert(v@.subrange(0, n as int).drop_last() == v@.subrange(0, n - 1));
        trimmed_end_len(v, n - 1)
    } else {
        n
    }
}

/// Number of leading whitespace characters of `v[from ..]`.
fn trimmed_start_skip(v: &[char], from: usize, to: usize) -> (k: usize)
    requires
        from <= to <= v.len(),
    ensures
        from <= k <= to,
        v@.subrange(k as int, to as int) == trim_start(v@.subrange(from as int, to as int)),
    decreases to - from,
{
    if from < to && char_is_ws(v[from]) {
        assert(v@.subrange(from as int, to as int).drop_first() == v@.subrange(from + 1, to as int));
        trimmed_start_skip(v, from + 1, to)
    } else {
        from
    }
}

/// `str::trim_end`, on a character sequence.
pub fn trim_end_chars(v: &[char]) -> (r: Vec<char>)
    ensures
        r@ == trim_end(v@),
{
    let k = trimmed_end_len(v, v.len());
    assert(v@.subrange(0, v.len() as int) == v@);
    proof {
        lemma_trim_end_prefix(v@);
    }
    let mut r: Vec<char> = Vec::new();
    let mut i: usize = 0;
    while i < k
        invariant
            k <= v.len(),
            i <= k,
            r@ == v@.subrange(0, i as int),
        decreases k - i,
    {
        r.push(v[i]);
        assert(v@.subrange(0, i + 1) == v@.subrange(0, i as int).push(v@[i as int]));
        i = i + 1;
    }
    r
}

/// `str::trim`, on a character sequence.
pub fn trim_chars(v: &[char]) -> (r: Vec<char>)
    ensures
        r@ == trim(v@),
{
    let k = trimmed_end_len(v, v.len());
    assert(v@.subrange(0, v.len() as int) == v@);
    proof {
        lemma_trim_end_prefix(v@);
    }
    let start = trimmed_start_skip(v, 0, k);
    let mut r: Vec<char> = Vec::new();
    let mut i: usize = start;
    while i < k
        invariant
            start <= i <= k <= v.len(),
            r@ == v@.subrange(start as int, i as int),
        decreases k - i,
    {
        r.push(v[i]);
        assert(v@.subrange(start as int, i + 1) == v@.subrange(start as int, i as int).push(
            v@[i as int],
        ));
        i = i + 1;
    }
    r
}

/// `str::trim`.
pub fn trim_str(s: &str) -> (r: String)
    ensures
        r@ == trim(s@),
{
    let v = chars_of(s);
    let t = trim_chars(v.as_slice());
    string_from_chars(t.as_slice())
}

/// `str::trim_end`.
pub fn trim_end_str(s: &str) -> (r: String)
    ensures
        r@ == trim_end(s@),
{
    let v = chars_of(s);
    let t = trim_end_chars(v.as_slice());
    string_from_chars(t.as_slice())
}

/// `trim(s).is_empty()`: `s` holds only whitespace.
pub fn is_blank(s: &str) -> (r: bool)
    ensures
        r == (trim(s@).len() == 0),
{
    trim_str(s).unicode_len() == 0
}


// ---------------------------------------------------------------------------
// Joining, prefixes, padding and ordering.
// ---------------------------------------------------------------------------

/// `[T]::join`: the pieces with `sep` between consecutive ones.
pub open spec fn join(pieces: Seq<Seq<char>>, sep: Seq<char>) -> Seq<char>
    decreases pieces.len(),
{
    if pieces.len() == 0 {
        Seq::empty()
    } else if pieces.len() == 1 {
        pieces[0]
    } else {
        join(pieces.drop_last(), sep) + sep + pieces.last()
    }
}

/// The character sequences of a list of strings.
pub open spec fn texts(v: Seq<String>) -> Seq<Seq<char>> {
    v.map_values(|s: String| s@)
}

/// Joins `pieces` with `sep` between consecutive ones.
pub fn join_strings(pieces: &Vec<String>, sep: &str) -> (r: String)
    ensures
        r@ == join(texts(pieces@), sep@),
{
    let mut r = String::new();
    let mut i: usize = 0;
    while i < pieces.len()
        invariant
            i <= pieces.len(),
            r@ == join(texts(pieces@).subrange(0, i as int), sep@),
        decreases pieces.len() - i,
    {
        let ghost pre = texts(pieces@).subrange(0, i as int);
        let ghost next = texts(pieces@).subrange(0, i + 1);
        assert(next.drop_last() == pre);
        assert(next.last() == pieces@[i as int]@);
        if i != 0 {
            push_str(&mut r, sep);
        } else {
            assert(next.len() == 1);
        }
        push_str(&mut r, pieces[i].as_str());
        i = i + 1;
    }
    assert(texts(pieces@).subrange(0, pieces.len() as int) == texts(pieces@));
    r
}

/// `p` is a suffix of `s`.
pub open spec fn has_suffix(s: Seq<char>, p: Seq<char>) -> bool {
    p.len() <= s.len() && s.subrange(s.len() - p.len(), s.len() as int) == p
}

/// `str::ends_with`.
pub fn ends_with(s: &str, p: &str) -> (r: bool)
    ensures
        r == has_suffix(s@, p@),
{
    let sv = chars_of(s);
    let pv = chars_of(p);
    if pv.len() > sv.len() {
        return false;
    }
    let off = sv.len() - pv.len();
    let mut i: usize = 0;
    while i < pv.len()
        invariant
            pv.len() <= sv.len(),
            off == sv.len() - pv.len(),
            sv@ == s@,
            pv@ == p@,
            i <= pv.len(),
            sv@.subrange(off as int, off + i) == pv@.subrange(0, i as int),
        decreases pv.len() - i,
    {
        if sv[off + i] != pv[i] {
            assert(sv@.subrange(off as int, sv.len() as int)[i as int] != pv@[i as int]);
            return false;
        }
        assert(sv@.subrange(off as int, off + i + 1) =~= pv@.subrange(0, i + 1));
        i = i + 1;
    }
    assert(pv@.subrange(0, pv.len() as int) == pv@);
    true
}

/// `p` is a prefix of `s`.
pub open spec fn has_prefix(s: Seq<char>, p: Seq<char>) -> bool {
    p.len() <= s.len() && s.subrange(0, p.len() as int) == p
}

/// `str::starts_with`.
pub fn starts_with(s: &str, p: &str) -> (r: bool)
    ensures
        r == has_prefix(s@, p@),
{
    let sv = chars_of(s);
    let pv = chars_of(p);
    if pv.len() > sv.len() {
        return false;
    }
    let mut i: usize = 0;
    while i < pv.len()
        invariant
            pv.len() <= sv.len(),
            sv@ == s@,
            pv@ == p@,
            i <= pv.len(),
            sv@.subrange(0, i as int) == pv@.subrange(0, i as int),
        decreases pv.len() - i,
    {
        if sv[i] != pv[i] {
            assert(sv@.subrange(0, pv.len() as int)[i as int] != pv@[i as int]);
            assert(sv@.subrange(0, pv.len() as int) != pv@);
            return false;
        }
        assert(sv@.subrange(0, i + 1) =~= pv@.subrange(0, i + 1));
        i = i + 1;
    }
    assert(pv@.subrange(0, pv.len() as int) == pv@);
    true
}

/// `k` spaces.
pub open spec fn spaces(k: nat) -> Seq<char> {
    Seq::new(k, |i: int| ' ')
}

/// `{:<w$}`: `s` followed by spaces up to at least `w` characters.
pub open spec fn pad_right(s: Seq<char>, w: nat) -> Seq<char> {
    if s.len() < w {
        s + spaces((w - s.len()) as nat)
    } else {
        s
    }
}

/// Appends `t` left-aligned in a field of `w` characters.
pub fn push_padded_right(s: &mut String, t: &str, w: usize)
    ensures
        final(s)@ == old(s)@ + pad_right(t@, w as nat),
{
    push_str(s, t);
    let len = t.unicode_len();
    if len < w {
        let mut k: usize = 0;
        while k < w - len
            invariant
                len == t@.len(),
                len < w,
                k <= w - len,
                s@ == old(s)@ + t@ + spaces(k as nat),
            decreases w - len - k,
        {
            push_char(s, ' ');
            assert(spaces((k + 1) as nat) == spaces(k as nat).push(' '));
            k = k + 1;
        }
    }
    assert(s@ =~= old(s)@ + pad_right(t@, w as nat));
}

/// The number of bytes of the UTF-8 encoding of `s` (what `str::len` gives).
pub open spec fn utf8_bytes(s: Seq<char>) -> nat {
    vstd::utf8::encode_utf8(s).len()
}

/// `p` is the longest prefix of `s` whose UTF-8 encoding takes at most `n`
/// bytes: `s` cut at a character boundary so that no more than `n` bytes
/// remain, and no further character would fit.
pub open spec fn byte_prefix(s: Seq<char>, p: Seq<char>, n: nat) -> bool {
    &&& p.len() <= s.len()
    &&& p == s.subrange(0, p.len() as int)
    &&& utf8_bytes(p) <= n
    &&& p.len() < s.len() ==> utf8_bytes(s.subrange(0, p.len() as int + 1)) > n
}

/// One more character adds its own encoding's length.
pub proof fn lemma_utf8_bytes_push(p: Seq<char>, c: char)
    ensures
        utf8_bytes(p.push(c)) == utf8_bytes(p) + vstd::utf8::encode_scalar(c as u32).len(),
    decreases p.len(),
{
    let e = Seq::<char>::empty();
    assert(utf8_bytes(e) == 0);
    if p.len() == 0 {
        assert(p =~= e);
        assert(p.push(c).drop_first() =~= e);
        assert(p.push(c)[0] == c);
        assert(utf8_bytes(p.push(c)) == vstd::utf8::encode_scalar(c as u32).len() + utf8_bytes(e));
    } else {
        lemma_utf8_bytes_push(p.drop_first(), c);
        assert(p.push(c).drop_first() =~= p.drop_first().push(c));
        assert(p.push(c)[0] == p[0]);
        assert(utf8_bytes(p) == vstd::utf8::encode_scalar(p[0] as u32).len() + utf8_bytes(
            p.drop_first(),
        ));
        assert(utf8_bytes(p.push(c)) == vstd::utf8::encode_scalar(p[0] as u32).len() + utf8_bytes(
            p.drop_first().push(c),
        ));
    }
}

/// A longer prefix takes at least as many bytes.
proof fn lemma_utf8_bytes_prefix_monotone(s: Seq<char>, i: int, j: int)
    requires
        0 <= i <= j <= s.len(),
    ensures
        utf8_bytes(s.subrange(0, i)) <= utf8_bytes(s.subrange(0, j)),
    decreases j - i,
{
    if i < j {
        lemma_utf8_bytes_prefix_monotone(s, i, j - 1);
        lemma_utf8_bytes_push(s.subrange(0, j - 1), s[j - 1]);
        assert(s.subrange(0, j - 1).push(s[j - 1]) =~= s.subrange(0, j));
    }
}

/// Within a byte budget there is only one longest prefix.
pub proof fn law_byte_prefix_unique(s: Seq<char>, p: Seq<char>, q: Seq<char>, n: nat)
    requires
        byte_prefix(s, p, n),
        byte_prefix(s, q, n),
    ensures
        p == q,
{
    if p.len() < q.len() {
        lemma_utf8_bytes_prefix_monotone(s, p.len() as int + 1, q.len() as int);
    } else if q.len() < p.len() {
        lemma_utf8_bytes_prefix_monotone(s, q.len() as int + 1, p.len() as int);
    }
}

/// The number of bytes that UTF-8 takes for `c`.
pub fn utf8_width(c: char) -> (w: usize)
    ensures
        w == vstd::utf8::encode_scalar(c as u32).len(),
        1 <= w <= 4,
{
    let v = c as u32;
    if v < 0x80 {
        1
    } else if v < 0x800 {
        2
    } else if v < 0x10000 {
        3
    } else {
        4
    }
}

/// The longest prefix of `s` that fits in `n` bytes of UTF-8, cut at a
/// character boundary.
pub fn take_utf8_prefix(s: &str, n: usize) -> (r: String)
    ensures
        byte_prefix(s@, r@, n as nat),
{
    let v = chars_of(s);
    let mut out: Vec<char> = Vec::new();
    let mut used: usize = 0;
    let mut i: usize = 0;
    assert(v@.subrange(0, 0) =~= Seq::<char>::empty());
    while i < v.len() && utf8_width(v[i]) <= n - used
        invariant
            i <= v@.len(),
            used <= n,
            used == utf8_bytes(v@.subrange(0, i as int)),
            out@ == v@.subrange(0, i as int),
        decreases v.len() - i,
    {
        let w = utf8_width(v[i]);
        proof {
            lemma_utf8_bytes_push(v@.subrange(0, i as int), v@[i as int]);
        }
        assert(v@.subrange(0, i + 1) =~= v@.subrange(0, i as int).push(v@[i as int]));
        out.push(v[i]);
        used = used + w;
        i = i + 1;
    }
    proof {
        if i < v@.len() {
            lemma_utf8_bytes_push(v@.subrange(0, i as int), v@[i as int]);
            assert(v@.subrange(0, i + 1) =~= v@.subrange(0, i as int).push(v@[i as int]));
        }
    }
    string_from_chars(out.as_slice())
}

/// Lexicographic order of character sequences (the order of `str`, which
/// compares UTF-8 bytes and so compares characters by code point).
pub open spec fn text_lt(a: Seq<char>, b: Seq<char>) -> bool
    decreases a.len(),
{
    if a.len() == 0 {
        b.len() > 0
    } else if b.len() == 0 {
        false
    } else if a[0] != b[0] {
        (a[0] as int) < (b[0] as int)
    } else {
        text_lt(a.drop_first(), b.drop_first())
    }
}

/// `a < b` for strings.
pub fn str_less(a: &str, b: &str) -> (r: bool)
    ensures
        r == text_lt(a@, b@),
{
    let av = chars_of(a);
    let bv = chars_of(b);
    let mut i: usize = 0;
    assert(av@.subrange(0, av@.len() as int) == av@);
    assert(bv@.subrange(0, bv@.len() as int) == bv@);
    while i < av.len() && i < bv.len() && av[i] == bv[i]
        invariant
            i <= av@.len(),
            i <= bv@.len(),
            text_lt(a@, b@) == text_lt(av@.subrange(i as int, av@.len() as int), bv@.subrange(i as int, bv@.len() as int)),
            av@ == a@,
            bv@ == b@,
        decreases av.len() - i,
    {
        let ghost x = av@.subrange(i as int, av@.len() as int);
        let ghost y = bv@.subrange(i as int, bv@.len() as int);
        assert(x.drop_first() == av@.subrange(i + 1, av@.len() as int));
        assert(y.drop_first() == bv@.subrange(i + 1, bv@.len() as int));
        assert(x[0] == av@[i as int] && y[0] == bv@[i as int]);
        i = i + 1;
    }
    let ghost x = av@.subrange(i as int, av@.len() as int);
    let ghost y = bv@.subrange(i as int, bv@.len() as int);
    if i == av.len() {
        i < bv.len()
    } else if i == bv.len() {
        false
    } else {
        assert(x[0] == av@[i as int] && y[0] == bv@[i as int]);
        av[i] < bv[i]
    }
}

/// `String::pop`: removes the last character, if any.
#[verifier::external_body]
pub(crate) fn pop_char(s: &mut String) -> (r: Option<char>)
    ensures
        old(s)@.len() == 0 ==> r is None && final(s)@ == old(s)@,
        old(s)@.len() > 0 ==> r == Some(old(s)@.last()) && final(s)@ == old(s)@.drop_last(),
{
    s.pop()
}


/// `text_lt` never holds both ways, nor of equal texts.
pub proof fn lemma_text_lt_asymmetric(a: Seq<char>, b: Seq<char>)
    ensures
        !(text_lt(a, b) && text_lt(b, a)),
        !text_lt(a, a),
    decreases a.len(),
{
    if a.len() > 0 && b.len() > 0 && a[0] == b[0] {
        lemma_text_lt_asymmetric(a.drop_first(), b.drop_first());
    }
    if a.len() > 0 {
        lemma_text_lt_asymmetric(a.drop_first(), a.drop_first());
    }
}

/// Two texts are equal or ordered one way.
pub proof fn lemma_text_lt_total(a: Seq<char>, b: Seq<char>)
    ensures
        text_lt(a, b) || text_lt(b, a) || a == b,
    decreases a.len(),
{
    if a.len() == 0 && b.len() == 0 {
        assert(a =~= b);
    } else if a.len() > 0 && b.len() > 0 && a[0] == b[0] {
        lemma_text_lt_total(a.drop_first(), b.drop_first());
        if a.drop_first() == b.drop_first() {
            assert(a =~= seq![a[0]] + a.drop_first());
            assert(b =~= seq![b[0]] + b.drop_first());
        }
    }
}

/// `text_lt` is transitive.
pub proof fn lemma_text_lt_transitive(a: Seq<char>, b: Seq<char>, c: Seq<char>)
    requires
        text_lt(a, b),
        text_lt(b, c),
    ensures
        text_lt(a, c),
    decreases a.len(),
{
    if a.len() > 0 && b.len() > 0 && c.len() > 0 && a[0] == b[0] && b[0] == c[0] {
        lemma_text_lt_transitive(a.drop_first(), b.drop_first(), c.drop_first());
    }
}

} // verus!
