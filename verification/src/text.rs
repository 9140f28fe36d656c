use vstd::prelude::*;

verus! {

/// Appends one character to a string (`String::push`).
#[verifier::external_body]
pub(crate) fn string_push(s: &mut String, c: char)
    ensures
        final(s)@ == old(s)@.push(c),
{
    s.push(c)
}

/// The characters of a string slice, in order.
pub fn str_to_chars(s: &str) -> (res: Vec<char>)
    ensures
        res@ == s@,
{
    let mut v: Vec<char> = Vec::new();
    for c in it: s.chars()
        invariant
            it.seq() == s@,
            v@ == it.seq().take(it.index()),
    {
        v.push(c);
    }
    v
}

/// A string made of the given characters, in order.
pub fn string_from_chars(cs: &Vec<char>) -> (res: String)
    ensures
        res@ == cs@,
{
    let mut s = String::new();
    let mut i: usize = 0;
    while i < cs.len()
        invariant
            i <= cs@.len(),
            s@ == cs@.take(i as int),
        decreases cs@.len() - i,
    {
        string_push(&mut s, cs[i]);
        assert(cs@.take(i as int).push(cs@[i as int]) =~= cs@.take(i + 1));
        i = i + 1;
    }
    assert(cs@.take(cs@.len() as int) =~= cs@);
    s
}

/// Lower-case hexadecimal digit for a value below 16.
pub open spec fn hex_digit(n: u8) -> char {
    if n < 10 {
        (48 + n) as char
    } else {
        (87 + n) as char
    }
}

/// Lower-case hexadecimal text of a byte string, two digits per byte,
/// high nibble first.
pub open spec fn spec_hex_lower(b: Seq<u8>) -> Seq<char>
    decreases b.len(),
{
    if b.len() == 0 {
        Seq::empty()
    } else {
        spec_hex_lower(b.drop_last()) + seq![hex_digit(b.last() / 16), hex_digit(b.last() % 16)]
    }
}

/// The hexadecimal text has two digits per byte.
pub proof fn lemma_hex_lower_len(b: Seq<u8>)
    ensures
        spec_hex_lower(b).len() == 2 * b.len(),
    decreases b.len(),
{
    if b.len() > 0 {
        lemma_hex_lower_len(b.drop_last());
    }
}

/// The value of a lower-case hexadecimal digit.
pub open spec fn hex_value(c: char) -> int {
    if '0' <= c && c <= '9' {
        c as int - 48
    } else {
        c as int - 87
    }
}

/// A lower-case hexadecimal digit.
pub open spec fn is_lower_hex_digit(c: char) -> bool {
    ('0' <= c && c <= '9') || ('a' <= c && c <= 'f')
}

/// The hexadecimal text can be read back: it is made of lower-case digits,
/// and the two digits at `2 i` and `2 i + 1` give byte `i`, high nibble
/// first.
pub proof fn lemma_hex_lower_decodes(b: Seq<u8>)
    ensures
        spec_hex_lower(b).len() == 2 * b.len(),
        forall|k: int| 0 <= k < 2 * b.len() ==> is_lower_hex_digit(#[trigger] spec_hex_lower(b)[k]),
        forall|i: int| 0 <= i < b.len() ==>
            hex_value(spec_hex_lower(b)[2 * i]) * 16 + hex_value(spec_hex_lower(b)[2 * i + 1]) == #[trigger] b[i],
    decreases b.len(),
{
    lemma_hex_lower_len(b);
    if b.len() > 0 {
        let front = b.drop_last();
        lemma_hex_lower_decodes(front);
        let last = b.last();
        let hi = last / 16;
        let lo = last % 16;
        let s = spec_hex_lower(b);
        assert(s == spec_hex_lower(front) + seq![hex_digit(hi), hex_digit(lo)]);
        assert(hex_value(hex_digit(hi)) == hi as int && is_lower_hex_digit(hex_digit(hi)));
        assert(hex_value(hex_digit(lo)) == lo as int && is_lower_hex_digit(hex_digit(lo)));
        assert forall|i: int| 0 <= i < b.len() implies
            hex_value(s[2 * i]) * 16 + hex_value(s[2 * i + 1]) == #[trigger] b[i] by {
            if i < b.len() - 1 {
                assert(s[2 * i] == spec_hex_lower(front)[2 * i]);
                assert(s[2 * i + 1] == spec_hex_lower(front)[2 * i + 1]);
                assert(front[i] == b[i]);
            }
        }
        assert forall|k: int| 0 <= k < 2 * b.len() implies is_lower_hex_digit(#[trigger] s[k]) by {
            if k < 2 * b.len() - 2 {
                assert(s[k] == spec_hex_lower(front)[k]);
            }
        }
    }
}

fn hex_digit_exec(n: u8) -> (c: char)
    requires
        n < 16,
    ensures
        c == hex_digit(n),
{
    if n < 10 {
        (48u8 + n) as char
    } else {
        (87u8 + n) as char
    }
}

/// Lower-case hexadecimal encoding of `bytes`.
pub fn hex_lower(bytes: &[u8]) -> (res: String)
    ensures
        res@ == spec_hex_lower(bytes@),
        res@.len() == 2 * bytes@.len(),
{
    let mut s = String::new();
    let mut i: usize = 0;
    while i < bytes.len()
        invariant
            i <= bytes@.len(),
            s@ == spec_hex_lower(bytes@.take(i as int)),
        decreases bytes@.len() - i,
    {
        let b = bytes[i];
        string_push(&mut s, hex_digit_exec(b / 16));
        string_push(&mut s, hex_digit_exec(b % 16));
        assert(bytes@.take(i + 1).drop_last() =~= bytes@.take(i as int));
        i = i + 1;
    }
    assert(bytes@.take(bytes@.len() as int) =~= bytes@);
    proof {
        lemma_hex_lower_len(bytes@);
    }
    s
}

/// Every non-overlapping occurrence of `pat` in `s`, scanning from the left,
/// replaced by `to` (the behaviour of `str::replace` for a non-empty pattern).
pub open spec fn spec_replace(s: Seq<char>, pat: Seq<char>, to: Seq<char>) -> Seq<char>
    decreases s.len(),
{
    if pat.len() == 0 || s.len() < pat.len() {
        s
    } else if s.take(pat.len() as int) == pat {
        to + spec_replace(s.skip(pat.len() as int), pat, to)
    } else {
        seq![s[0]] + spec_replace(s.skip(1), pat, to)
    }
}

/// Whether `pat` occurs in `s` at position `i`.
pub open spec fn occurs_at(s: Seq<char>, pat: Seq<char>, i: int) -> bool {
    0 <= i && i + pat.len() <= s.len() && s.subrange(i, i + pat.len()) == pat
}

fn matches_at(s: &Vec<char>, pat: &Vec<char>, i: usize) -> (res: bool)
    requires
        i <= s@.len(),
    ensures
        res == occurs_at(s@, pat@, i as int),
{
    if pat.len() > s.len() - i {
        return false;
    }
    let mut k: usize = 0;
    while k < pat.len()
        invariant
            k <= pat@.len(),
            i + pat@.len() <= s@.len(),
            i + pat.len() <= s.len(),
            forall|t: int| 0 <= t < k ==> s@[i + t] == pat@[t],
        decreases pat@.len() - k,
    {
        if s[i + k] != pat[k] {
            assert(s@.subrange(i as int, i + pat@.len())[k as int] != pat@[k as int]);
            return false;
        }
        k = k + 1;
    }
    assert(s@.subrange(i as int, i + pat@.len()) =~= pat@);
    true
}

/// `s` with every non-overlapping occurrence of `pat` (scanned from the left)
/// replaced by `to`.
pub fn replace_all(s: &str, pat: &str, to: &str) -> (res: String)
    requires
        pat@.len() > 0,
    ensures
        res@ == spec_replace(s@, pat@, to@),
{
    let cs = str_to_chars(s);
    let ps = str_to_chars(pat);
    let ts = str_to_chars(to);
    let mut out: Vec<char> = Vec::new();
    let mut i: usize = 0;
    assert(cs@.skip(0) =~= cs@);
    assert(out@ + spec_replace(cs@, ps@, ts@) =~= spec_replace(cs@, ps@, ts@));
    while i < cs.len()
        invariant
            i <= cs@.len(),
            ps@ == pat@,
            ps@.len() > 0,
            cs@ == s@,
            out@ + spec_replace(cs@.skip(i as int), ps@, ts@) == spec_replace(cs@, ps@, ts@),
        decreases cs@.len() - i,
    {
        let ghost rest = cs@.skip(i as int);
        if matches_at(&cs, &ps, i) {
            assert(rest.take(ps@.len() as int) =~= cs@.subrange(i as int, i + ps@.len()));
            assert(rest.skip(ps@.len() as int) =~= cs@.skip(i + ps@.len()));
            let ghost before = out@;
            let mut k: usize = 0;
            while k < ts.len()
                invariant
                    k <= ts@.len(),
                    out@ == before + ts@.take(k as int),
                decreases ts@.len() - k,
            {
                out.push(ts[k]);
                assert(before + ts@.take(k as int) + seq![ts@[k as int]] =~= before + ts@.take(k + 1));
                k = k + 1;
            }
            assert(ts@.take(ts@.len() as int) =~= ts@);
            assert(before + ts@ + spec_replace(cs@.skip(i + ps@.len()), ps@, ts@)
                =~= before + (ts@ + spec_replace(cs@.skip(i + ps@.len()), ps@, ts@)));
            i = i + ps.len();
        } else {
            proof {
                if rest.len() >= ps@.len() {
                    assert(rest.take(ps@.len() as int) =~= cs@.subrange(i as int, i + ps@.len()));
                }
                assert(rest.skip(1) =~= cs@.skip(i + 1));
            }
            let ghost before = out@;
            out.push(cs[i]);
            assert(before + seq![cs@[i as int]] + spec_replace(cs@.skip(i + 1), ps@, ts@)
                =~= before + (seq![cs@[i as int]] + spec_replace(cs@.skip(i + 1), ps@, ts@)));
            proof {
                if rest.len() < ps@.len() {
                    // the rest is shorter than the pattern: it is copied as it is
                    assert(spec_replace(rest, ps@, ts@) == rest);
                    assert(cs@.skip(i + 1).len() < ps@.len());
                    assert(spec_replace(cs@.skip(i + 1), ps@, ts@) == cs@.skip(i + 1));
                    assert(seq![cs@[i as int]] + cs@.skip(i + 1) =~= rest);
                }
            }
            i = i + 1;
        }
    }
    assert(cs@.skip(i as int) =~= Seq::<char>::empty());
    assert(out@ + Seq::<char>::empty() =~= out@);
    string_from_chars(&out)
}

/// `s` with every character `from` replaced by `to`.
pub open spec fn spec_replace_char(s: Seq<char>, from: char, to: char) -> Seq<char> {
    Seq::new(s.len(), |i: int| if s[i] == from { to } else { s[i] })
}

/// `s` with every character `from` replaced by `to`.
pub fn replace_char(s: &str, from: char, to: char) -> (res: String)
    ensures
        res@ == spec_replace_char(s@, from, to),
{
    let cs = str_to_chars(s);
    let mut out = String::new();
    let mut i: usize = 0;
    while i < cs.len()
        invariant
            i <= cs@.len(),
            cs@ == s@,
            out@ == spec_replace_char(s@, from, to).take(i as int),
        decreases cs@.len() - i,
    {
        let c = if cs[i] == from { to } else { cs[i] };
        string_push(&mut out, c);
        assert(spec_replace_char(s@, from, to).take(i as int).push(c)
            =~= spec_replace_char(s@, from, to).take(i + 1));
        i = i + 1;
    }
    assert(spec_replace_char(s@, from, to).take(i as int) =~= spec_replace_char(s@, from, to));
    out
}


/// The text that `String::from_utf8_lossy` makes of a byte string: invalid
/// sequences become U+FFFD.
pub uninterp spec fn spec_utf8_lossy(bytes: Seq<u8>) -> Seq<char>;

/// Decodes bytes as UTF-8 with `String::from_utf8_lossy`. Claimed: the result
/// is the named lossy decoding, which is the plain decoding when the bytes
/// are valid UTF-8.
#[verifier::external_body]
pub(crate) fn utf8_lossy(bytes: &[u8]) -> (res: String)
    ensures
        res@ == spec_utf8_lossy(bytes@),
        vstd::utf8::valid_utf8(bytes@) ==> res@ == vstd::utf8::decode_utf8(bytes@),
{
    String::from_utf8_lossy(bytes).into_owned()
}


/// Whether two strings hold the same characters.
pub fn str_eq(a: &str, b: &str) -> (res: bool)
    ensures
        res == (a@ == b@),
{
    let ca = str_to_chars(a);
    let cb = str_to_chars(b);
    if ca.len() != cb.len() {
        assert(ca@.len() != cb@.len());
        return false;
    }
    let mut i: usize = 0;
    while i < ca.len()
        invariant
            i <= ca@.len(),
            ca@ == a@,
            cb@ == b@,
            ca@.len() == cb@.len(),
            forall|k: int| 0 <= k < i ==> ca@[k] == cb@[k],
        decreases ca@.len() - i,
    {
        if ca[i] != cb[i] {
            assert(ca@[i as int] != cb@[i as int]);
            assert(ca@ != cb@);
            return false;
        }
        i = i + 1;
    }
    assert(ca@ =~= cb@);
    true
}

/// The parts joined with `sep` between each two of them.
pub open spec fn spec_join(parts: Seq<Seq<char>>, sep: Seq<char>) -> Seq<char>
    decreases parts.len(),
{
    if parts.len() == 0 {
        Seq::empty()
    } else if parts.len() == 1 {
        parts[0]
    } else {
        spec_join(parts.drop_last(), sep) + sep + parts.last()
    }
}

/// The text of each string.
pub open spec fn strings_view(v: Seq<String>) -> Seq<Seq<char>> {
    Seq::new(v.len(), |i: int| v[i]@)
}

/// Joins the strings with `sep` between each two of them.
pub fn join(parts: &Vec<String>, sep: &str) -> (res: String)
    ensures
        res@ == spec_join(strings_view(parts@), sep@),
{
    let mut res = String::new();
    let mut i: usize = 0;
    while i < parts.len()
        invariant
            i <= parts@.len(),
            res@ == spec_join(strings_view(parts@).take(i as int), sep@),
        decreases parts@.len() - i,
    {
        let ghost prev = strings_view(parts@).take(i as int);
        let ghost next = strings_view(parts@).take(i + 1);
        assert(next.drop_last() =~= prev);
        if i > 0 {
            res.append(sep);
        }
        res.append(parts[i].as_str());
        i = i + 1;
    }
    assert(strings_view(parts@).take(parts@.len() as int) =~= strings_view(parts@));
    res
}

/// Whether `pat` occurs somewhere in `s`.
pub open spec fn spec_contains(s: Seq<char>, pat: Seq<char>) -> bool {
    exists|i: int| #[trigger] occurs_at(s, pat, i)
}

/// Whether `pat` occurs in `s`.
pub fn contains_str(s: &str, pat: &str) -> (res: bool)
    ensures
        res == spec_contains(s@, pat@),
{
    let cs = str_to_chars(s);
    let ps = str_to_chars(pat);
    if ps.len() == 0 {
        assert(s@.subrange(0, 0) =~= pat@);
        assert(occurs_at(s@, pat@, 0));
        return true;
    }
    if ps.len() > cs.len() {
        assert forall|k: int| !occurs_at(s@, pat@, k) by {}
        return false;
    }
    let last: usize = cs.len() - ps.len();
    let mut i: usize = 0;
    while i <= last
        invariant
            i <= last + 1,
            last + ps@.len() == cs@.len(),
            last < cs.len(),
            ps@.len() > 0,
            cs@ == s@,
            ps@ == pat@,
            forall|k: int| 0 <= k < i ==> !occurs_at(s@, pat@, k),
        decreases last + 1 - i,
    {
        if matches_at(&cs, &ps, i) {
            return true;
        }
        i = i + 1;
    }
    assert forall|k: int| !occurs_at(s@, pat@, k) by {}
    false
}

/// Whether `s` starts with `pat`.
pub open spec fn spec_starts_with(s: Seq<char>, pat: Seq<char>) -> bool {
    occurs_at(s, pat, 0)
}

/// Whether `s` ends with `pat`.
pub open spec fn spec_ends_with(s: Seq<char>, pat: Seq<char>) -> bool {
    occurs_at(s, pat, s.len() - pat.len())
}

/// Whether `s` starts with `pat`.
pub fn starts_with_str(s: &str, pat: &str) -> (res: bool)
    ensures
        res == spec_starts_with(s@, pat@),
{
    let cs = str_to_chars(s);
    let ps = str_to_chars(pat);
    matches_at(&cs, &ps, 0)
}

/// Whether `s` ends with `pat`.
pub fn ends_with_str(s: &str, pat: &str) -> (res: bool)
    ensures
        res == spec_ends_with(s@, pat@),
{
    let cs = str_to_chars(s);
    let ps = str_to_chars(pat);
    if ps.len() > cs.len() {
        return false;
    }
    matches_at(&cs, &ps, cs.len() - ps.len())
}


/// The decimal digit character for a value below 10.
pub open spec fn decimal_digit(n: int) -> char {
    (48 + n) as char
}

/// Decimal digits of a natural number, without leading zeros.
pub open spec fn spec_decimal_nat(n: nat) -> Seq<char>
    decreases n,
{
    if n < 10 {
        seq![decimal_digit(n as int)]
    } else {
        spec_decimal_nat(n / 10).push(decimal_digit((n % 10) as int))
    }
}

/// Decimal text of an integer, with a leading `-` when it is negative.
pub open spec fn spec_decimal(v: int) -> Seq<char> {
    if v < 0 {
        seq!['-'] + spec_decimal_nat((-v) as nat)
    } else {
        spec_decimal_nat(v as nat)
    }
}

fn decimal_digits(n: u64) -> (res: Vec<char>)
    ensures
        res@ == spec_decimal_nat(n as nat),
    decreases n,
{
    let d = ((n % 10) as u8 + 48) as char;
    if n < 10 {
        let mut v = Vec::new();
        v.push(d);
        assert(v@ =~= seq![decimal_digit(n as int)]);
        v
    } else {
        let mut v = decimal_digits(n / 10);
        v.push(d);
        v
    }
}

/// Decimal text of an integer (what `to_string` gives for an `i64`).
pub fn i64_to_decimal(v: i64) -> (res: String)
    ensures
        res@ == spec_decimal(v as int),
{
    if v < 0 {
        let mag: u64 = (0i128 - v as i128) as u64;
        let digits = decimal_digits(mag);
        let mut all: Vec<char> = Vec::new();
        all.push('-');
        let mut i: usize = 0;
        while i < digits.len()
            invariant
                i <= digits@.len(),
                all@ == seq!['-'] + digits@.take(i as int),
            decreases digits@.len() - i,
        {
            all.push(digits[i]);
            assert(seq!['-'] + digits@.take(i as int) + seq![digits@[i as int]]
                =~= seq!['-'] + digits@.take(i + 1));
            i = i + 1;
        }
        assert(digits@.take(digits@.len() as int) =~= digits@);
        string_from_chars(&all)
    } else {
        let digits = decimal_digits(v as u64);
        string_from_chars(&digits)
    }
}

/// The characters for which `char::is_whitespace` holds (Unicode White_Space).
pub open spec fn is_unicode_whitespace(c: char) -> bool {
    c == '\t' || c == '\n' || c == '\u{0B}' || c == '\u{0C}' || c == '\r' || c == ' '
        || c == '\u{85}' || c == '\u{A0}' || c == '\u{1680}'
        || ('\u{2000}' <= c && c <= '\u{200A}')
        || c == '\u{2028}' || c == '\u{2029}' || c == '\u{202F}' || c == '\u{205F}'
        || c == '\u{3000}'
}

fn is_whitespace_char(c: char) -> (res: bool)
    ensures
        res == is_unicode_whitespace(c),
{
    c == '\t' || c == '\n' || c == '\u{0B}' || c == '\u{0C}' || c == '\r' || c == ' '
        || c == '\u{85}' || c == '\u{A0}' || c == '\u{1680}'
        || ('\u{2000}' <= c && c <= '\u{200A}')
        || c == '\u{2028}' || c == '\u{2029}' || c == '\u{202F}' || c == '\u{205F}'
        || c == '\u{3000}'
}

/// `s` without leading whitespace.
pub open spec fn spec_trim_start(s: Seq<char>) -> Seq<char>
    decreases s.len(),
{
    if s.len() > 0 && is_unicode_whitespace(s[0]) {
        spec_trim_start(s.skip(1))
    } else {
        s
    }
}

/// `s` without trailing whitespace.
pub open spec fn spec_trim_end(s: Seq<char>) -> Seq<char>
    decreases s.len(),
{
    if s.len() > 0 && is_unicode_whitespace(s.last()) {
        spec_trim_end(s.drop_last())
    } else {
        s
    }
}

/// `s` without leading and trailing whitespace (`str::trim`).
pub open spec fn spec_trim(s: Seq<char>) -> Seq<char> {
    spec_trim_end(spec_trim_start(s))
}

/// `s` without leading and trailing whitespace.
pub fn trim(s: &str) -> (res: String)
    ensures
        res@ == spec_trim(s@),
{
    let cs = str_to_chars(s);
    let mut start: usize = 0;
    assert(cs@.skip(0) =~= cs@);
    while start < cs.len() && is_whitespace_char(cs[start])
        invariant
            start <= cs@.len(),
            spec_trim_start(cs@) == spec_trim_start(cs@.skip(start as int)),
        decreases cs@.len() - start,
    {
        assert(cs@.skip(start as int).skip(1) =~= cs@.skip(start + 1));
        start = start + 1;
    }
    let mut end: usize = cs.len();
    let ghost t = cs@.skip(start as int);
    assert(cs@.subrange(start as int, end as int) =~= t);
    while end > start && is_whitespace_char(cs[end - 1])
        invariant
            start <= end <= cs@.len(),
            spec_trim_end(t) == spec_trim_end(cs@.subrange(start as int, end as int)),
        decreases end - start,
    {
        assert(cs@.subrange(start as int, end as int).drop_last() =~= cs@.subrange(start as int, end - 1));
        end = end - 1;
    }
    let mut out: Vec<char> = Vec::new();
    let mut i: usize = start;
    while i < end
        invariant
            start <= i <= end,
            end <= cs@.len(),
            out@ == cs@.subrange(start as int, i as int),
        decreases end - i,
    {
        out.push(cs[i]);
        assert(cs@.subrange(start as int, i as int).push(cs@[i as int]) =~= cs@.subrange(start as int, i + 1));
        i = i + 1;
    }
    assert(s@ == cs@);
    string_from_chars(&out)
}

/// The part of `s` before the first `sep` (all of `s` when there is none):
/// the first item of `str::split(sep)`.
pub open spec fn spec_before_char(s: Seq<char>, sep: char) -> Seq<char>
    decreases s.len(),
{
    if s.len() == 0 || s[0] == sep {
        Seq::empty()
    } else {
        seq![s[0]] + spec_before_char(s.skip(1), sep)
    }
}

/// The part of `s` before the first `sep`.
pub fn before_char(s: &str, sep: char) -> (res: String)
    ensures
        res@ == spec_before_char(s@, sep),
{
    let cs = str_to_chars(s);
    let mut out: Vec<char> = Vec::new();
    let mut i: usize = 0;
    assert(cs@.skip(0) =~= cs@);
    while i < cs.len() && cs[i] != sep
        invariant
            i <= cs@.len(),
            out@ + spec_before_char(cs@.skip(i as int), sep) == spec_before_char(cs@, sep),
        decreases cs@.len() - i,
    {
        assert(cs@.skip(i as int).skip(1) =~= cs@.skip(i + 1));
        let ghost before = out@;
        out.push(cs[i]);
        assert(before + (seq![cs@[i as int]] + spec_before_char(cs@.skip(i + 1), sep))
            =~= before.push(cs@[i as int]) + spec_before_char(cs@.skip(i + 1), sep));
        i = i + 1;
    }
    assert(spec_before_char(cs@.skip(i as int), sep) =~= Seq::<char>::empty());
    assert(out@ + Seq::<char>::empty() =~= out@);
    string_from_chars(&out)
}

/// The lower-case form of a text, as `str::to_lowercase` maps it (Unicode
/// case mapping).
pub uninterp spec fn spec_to_lowercase(s: Seq<char>) -> Seq<char>;

/// Lower-cases with `str::to_lowercase`. Claimed: the result is the named
/// Unicode lower-case mapping of the text.
#[verifier::external_body]
pub(crate) fn to_lowercase(s: &str) -> (res: String)
    ensures
        res@ == spec_to_lowercase(s@),
{
    s.to_lowercase()
}

} // verus!
