//! Character-sequence helpers that the rest of the library builds on:
//! decimal and hexadecimal rendering, concatenation, character mapping,
//! trimming, splitting and joining.

use vstd::prelude::*;

verus! {

// ---------------------------------------------------------------------------
// Specifications
// ---------------------------------------------------------------------------

/// The ASCII digit for a value below ten.
pub open spec fn digit_char(d: nat) -> char {
    (48 + d) as char
}

/// The lower-case hexadecimal digit for a value below sixteen.
pub open spec fn hex_char(d: nat) -> char {
    if d < 10 {
        (48 + d) as char
    } else {
        (87 + d) as char
    }
}

/// The decimal rendering of a natural number, without sign or leading zeros.
pub open spec fn decimal(n: nat) -> Seq<char>
    decreases n,
{
    if n < 10 {
        seq![digit_char(n)]
    } else {
        decimal(n / 10).push(digit_char(n % 10))
    }
}

/// Two lower-case hexadecimal digits per byte, most significant nibble first.
pub open spec fn hex_lower(bytes: Seq<u8>) -> Seq<char>
    decreases bytes.len(),
{
    if bytes.len() == 0 {
        Seq::empty()
    } else {
        hex_lower(bytes.drop_last()) + seq![
            hex_char((bytes.last() / 16) as nat),
            hex_char((bytes.last() % 16) as nat),
        ]
    }
}

/// Whether `p` is a prefix of `s`.
pub open spec fn has_prefix(s: Seq<char>, p: Seq<char>) -> bool {
    p.len() <= s.len() && s.subrange(0, p.len() as int) == p
}

/// Whether `p` is a suffix of `s`.
pub open spec fn has_suffix(s: Seq<char>, p: Seq<char>) -> bool {
    p.len() <= s.len() && s.subrange(s.len() - p.len(), s.len() as int) == p
}

/// `s` with every occurrence of `from` replaced by `to`.
pub open spec fn map_char(s: Seq<char>, from: char, to: char) -> Seq<char> {
    s.map_values(|c: char| if c == from { to } else { c })
}

/// `s` without any trailing run of `c`.
pub open spec fn trim_end_char(s: Seq<char>, c: char) -> Seq<char>
    decreases s.len(),
{
    if s.len() > 0 && s.last() == c {
        trim_end_char(s.drop_last(), c)
    } else {
        s
    }
}

/// The pieces of `s` between occurrences of `sep`; an empty `s` gives one empty piece.
pub open spec fn split_on(s: Seq<char>, sep: char) -> Seq<Seq<char>>
    decreases s.len(),
{
    if s.len() == 0 {
        seq![Seq::<char>::empty()]
    } else {
        let rest = split_on(s.drop_last(), sep);
        if s.last() == sep {
            rest.push(Seq::<char>::empty())
        } else {
            rest.update(rest.len() - 1, rest.last().push(s.last()))
        }
    }
}

/// The pieces joined with `sep` between neighbours.
pub open spec fn join_with(parts: Seq<Seq<char>>, sep: char) -> Seq<char>
    decreases parts.len(),
{
    if parts.len() == 0 {
        Seq::empty()
    } else if parts.len() == 1 {
        parts[0]
    } else {
        join_with(parts.drop_last(), sep) + seq![sep] + parts.last()
    }
}

// ---------------------------------------------------------------------------
// Conversions between `str`, `String` and vectors of characters
// ---------------------------------------------------------------------------

/// Turns a string slice into the vector of its characters.
pub fn chars_of(s: &str) -> (v: Vec<char>)
    ensures
        v@ == s@,
{
    let mut v: Vec<char> = Vec::new();
    for c in it: s.chars()
        invariant
            v@ == it.seq().take(it.index() as int),
    {
        v.push(c);
    }
    v
}

/// Collects the characters into a `String` (std's `FromIterator<&char> for String`);
/// claimed: the string holds exactly these characters, in order.
#[verifier::external_body]
pub fn string_of(v: &Vec<char>) -> (s: String)
    ensures
        s@ == v@,
{
    v.iter().collect()
}

/// Appends all characters of `s` to `v`.
pub fn push_str(v: &mut Vec<char>, s: &str)
    ensures
        final(v)@ == old(v)@ + s@,
{
    let cs = chars_of(s);
    push_chars(v, &cs);
}

/// Appends all characters of `w` to `v`.
pub fn push_chars(v: &mut Vec<char>, w: &Vec<char>)
    ensures
        final(v)@ == old(v)@ + w@,
{
    let ghost start = v@;
    for i in 0..w.len()
        invariant
            v@ == start + w@.take(i as int),
    {
        v.push(w[i]);
        assert(w@.take(i + 1) =~= w@.take(i as int).push(w@[i as int]));
    }
    assert(w@.take(w@.len() as int) =~= w@);
}

/// The concatenation of two strings.
pub fn concat_str(a: &str, b: &str) -> (s: String)
    ensures
        s@ == a@ + b@,
{
    let mut v = chars_of(a);
    push_str(&mut v, b);
    string_of(&v)
}

/// Whether two character vectors hold the same characters.
pub fn same_chars(a: &Vec<char>, b: &Vec<char>) -> (r: bool)
    ensures
        r == (a@ == b@),
{
    if a.len() != b.len() {
        return false;
    }
    for i in 0..a.len()
        invariant
            a.len() == b.len(),
            forall|j: int| 0 <= j < i ==> a@[j] == b@[j],
    {
        if a[i] != b[i] {
            return false;
        }
    }
    assert(a@ =~= b@);
    true
}

/// Whether two strings hold the same characters.
pub fn str_eq(a: &str, b: &str) -> (r: bool)
    ensures
        r == (a@ == b@),
{
    same_chars(&chars_of(a), &chars_of(b))
}

/// Whether `p` is a prefix of `s`.
pub fn starts_with(s: &Vec<char>, p: &Vec<char>) -> (r: bool)
    ensures
        r == has_prefix(s@, p@),
{
    if p.len() > s.len() {
        return false;
    }
    for i in 0..p.len()
        invariant
            p.len() <= s.len(),
            forall|j: int| 0 <= j < i ==> s@[j] == p@[j],
    {
        if s[i] != p[i] {
            assert(s@.subrange(0, p@.len() as int)[i as int] != p@[i as int]);
            return false;
        }
    }
    assert(s@.subrange(0, p@.len() as int) =~= p@);
    true
}

/// Whether the vector holds the character.
pub fn contains_char(s: &Vec<char>, c: char) -> (r: bool)
    ensures
        r == s@.contains(c),
{
    for i in 0..s.len()
        invariant
            forall|j: int| 0 <= j < i ==> s@[j] != c,
    {
        if s[i] == c {
            return true;
        }
    }
    false
}

// ---------------------------------------------------------------------------
// Numbers
// ---------------------------------------------------------------------------

/// The decimal digit character of `d`.
pub fn digit(d: u64) -> (c: char)
    requires
        d < 10,
    ensures
        c == digit_char(d as nat),
{
    let b: u8 = 48u8 + (d as u8);
    b as char
}

/// The lower-case hexadecimal digit character of `d`.
pub fn hex_digit(d: u8) -> (c: char)
    requires
        d < 16,
    ensures
        c == hex_char(d as nat),
{
    if d < 10 {
        (48u8 + d) as char
    } else {
        (87u8 + d) as char
    }
}

/// The decimal digits of `n`, as characters.
pub fn decimal_chars(n: u64) -> (v: Vec<char>)
    ensures
        v@ == decimal(n as nat),
{
    let mut v: Vec<char> = Vec::new();
    let mut q: u64 = n;
    while q >= 10
        invariant
            decimal(n as nat) == decimal(q as nat) + v@,
        decreases q,
    {
        let d = digit(q % 10);
        let ghost old_v = v@;
        v.insert(0, d);
        assert(decimal(q as nat) == decimal((q / 10) as nat).push(digit_char((q % 10) as nat)));
        assert(decimal((q / 10) as nat).push(d) + old_v =~= decimal((q / 10) as nat) + v@);
        q = q / 10;
    }
    let d = digit(q);
    v.insert(0, d);
    assert(decimal(q as nat) == seq![d]);
    assert(seq![d] + v@.drop_first() =~= v@);
    v
}

/// The decimal rendering of `n` (what `format!("{}", n)` prints).
pub fn decimal_string(n: u64) -> (s: String)
    ensures
        s@ == decimal(n as nat),
{
    string_of(&decimal_chars(n))
}

/// Two lower-case hexadecimal digits per byte (what `{:02x}` prints for each byte).
pub fn to_hex_lower(bytes: &[u8]) -> (v: Vec<char>)
    ensures
        v@ == hex_lower(bytes@),
{
    let mut v: Vec<char> = Vec::new();
    for i in 0..bytes.len()
        invariant
            v@ == hex_lower(bytes@.take(i as int)),
    {
        let b = bytes[i];
        v.push(hex_digit(b / 16));
        v.push(hex_digit(b % 16));
        assert(bytes@.take(i + 1).drop_last() =~= bytes@.take(i as int));
    }
    assert(bytes@.take(bytes@.len() as int) =~= bytes@);
    v
}

// ---------------------------------------------------------------------------
// Character mapping, trimming, splitting
// ---------------------------------------------------------------------------

/// Replaces every occurrence of `from` by `to` (`str::replace` with one-character pattern and replacement).
pub fn replace_char(s: &Vec<char>, from: char, to: char) -> (v: Vec<char>)
    ensures
        v@ == map_char(s@, from, to),
{
    let mut v: Vec<char> = Vec::new();
    for i in 0..s.len()
        invariant
            v@ == map_char(s@.take(i as int), from, to),
    {
        let c = s[i];
        if c == from {
            v.push(to);
        } else {
            v.push(c);
        }
        assert(map_char(s@.take(i + 1), from, to) =~= map_char(s@.take(i as int), from, to).push(
            if c == from { to } else { c },
        ));
    }
    assert(s@.take(s@.len() as int) =~= s@);
    v
}

/// Drops every trailing `c` (`str::trim_end_matches` with a character).
pub fn trim_end(s: &Vec<char>, c: char) -> (v: Vec<char>)
    ensures
        v@ == trim_end_char(s@, c),
{
    let mut n: usize = s.len();
    assert(s@.take(n as int) =~= s@);
    while n > 0 && s[n - 1] == c
        invariant
            n <= s.len(),
            trim_end_char(s@.take(n as int), c) == trim_end_char(s@, c),
        decreases n,
    {
        assert(s@.take(n as int).drop_last() =~= s@.take(n - 1));
        n = n - 1;
    }
    let mut v: Vec<char> = Vec::new();
    for i in 0..n
        invariant
            n <= s.len(),
            v@ == s@.take(i as int),
    {
        v.push(s[i]);
        assert(s@.take(i + 1) =~= s@.take(i as int).push(s@[i as int]));
    }
    assert(s@.take(s@.len() as int) =~= s@);
    v
}

/// Splits `s` at every `sep` (`str::split` with a character pattern).
pub fn split_chars(s: &Vec<char>, sep: char) -> (parts: Vec<Vec<char>>)
    ensures
        parts@.len() == split_on(s@, sep).len(),
        forall|i: int| 0 <= i < parts@.len() ==> #[trigger] parts@[i]@ == split_on(s@, sep)[i],
{
    let mut parts: Vec<Vec<char>> = Vec::new();
    let mut cur: Vec<char> = Vec::new();
    for i in 0..s.len()
        invariant
            parts@.len() + 1 == split_on(s@.take(i as int), sep).len(),
            forall|j: int| 0 <= j < parts@.len() ==> #[trigger] parts@[j]@ == split_on(s@.take(i as int), sep)[j],
            cur@ == split_on(s@.take(i as int), sep).last(),
    {
        let c = s[i];
        assert(s@.take(i + 1).drop_last() =~= s@.take(i as int));
        if c == sep {
            parts.push(cur);
            cur = Vec::new();
        } else {
            cur.push(c);
        }
    }
    assert(s@.take(s@.len() as int) =~= s@);
    parts.push(cur);
    parts
}

} // verus!

verus! {

/// The lower-case form of a text, as Unicode defines it.
pub uninterp spec fn lowercase_of(s: Seq<char>) -> Seq<char>;

/// ASCII letters made lower case, every other character kept.
pub open spec fn ascii_lowercase(s: Seq<char>) -> Seq<char> {
    s.map_values(|c: char| if 'A' <= c <= 'Z' { ((c as u32) + 32) as char } else { c })
}

/// Whether every character is ASCII.
pub open spec fn all_ascii(s: Seq<char>) -> bool {
    forall|i: int| 0 <= i < s.len() ==> (s[i] as u32) < 128
}

/// Calls `str::to_lowercase`; claimed: the result is the Unicode lower-case
/// form of the text, which on ASCII text only maps `A`-`Z` to `a`-`z`.
#[verifier::external_body]
pub fn to_lowercase(s: &str) -> (r: String)
    ensures
        r@ == lowercase_of(s@),
        all_ascii(s@) ==> r@ == ascii_lowercase(s@),
{
    s.to_lowercase()
}

/// Whether one of the texts in `list` equals `s` (`Vec::<String>::contains`).
pub fn contains_text(list: &Vec<String>, s: &str) -> (r: bool)
    ensures
        r == exists|i: int| 0 <= i < list@.len() && (#[trigger] list@[i])@ == s@,
{
    let n = list.len();
    for i in 0..n
        invariant
            n == list@.len(),
            forall|j: int| 0 <= j < i ==> (#[trigger] list@[j])@ != s@,
    {
        if str_eq(list[i].as_str(), s) {
            return true;
        }
    }
    false
}

} // verus!

verus! {

/// The number that a text of decimal digits stands for.
pub open spec fn digits_value(s: Seq<char>) -> nat
    decreases s.len(),
{
    if s.len() == 0 {
        0
    } else {
        digits_value(s.drop_last()) * 10 + ((s.last() as nat) - 48) as nat
    }
}

/// A decimal rendering reads back as the number it renders, and has no leading
/// zero (zero itself is `0`).
pub proof fn law_decimal_reads_back(n: nat)
    ensures
        digits_value(decimal(n)) == n,
        n > 0 ==> decimal(n)[0] != '0',
        n == 0 ==> decimal(n) == seq!['0'],
    decreases n,
{
    if n >= 10 {
        law_decimal_reads_back(n / 10);
        let s = decimal(n);
        assert(s.drop_last() =~= decimal(n / 10));
        assert(s[0] == decimal(n / 10)[0]);
        assert(s.last() == digit_char(n % 10));
        assert((digit_char(n % 10) as nat) == 48 + n % 10);
        assert(digits_value(s) == digits_value(decimal(n / 10)) * 10 + n % 10);
        assert((n / 10) * 10 + n % 10 == n);
    } else {
        assert(decimal(n).drop_last() =~= Seq::<char>::empty());
        assert((digit_char(n) as nat) == 48 + n);
        assert(digits_value(decimal(n)) == digits_value(Seq::<char>::empty()) * 10 + n);
    }
}

/// Decimal renderings hold only the digits `0`-`9`.
pub proof fn lemma_decimal_digits(n: nat)
    ensures
        forall|i: int| 0 <= i < decimal(n).len() ==> 48 <= (#[trigger] decimal(n)[i] as u32) <= 57,
        decimal(n).len() > 0,
    decreases n,
{
    if n >= 10 {
        lemma_decimal_digits(n / 10);
    }
}

/// Lower-case hexadecimal renderings hold only `0`-`9` and `a`-`f`.
pub proof fn lemma_hex_digits(bytes: Seq<u8>)
    ensures
        forall|i: int| 0 <= i < hex_lower(bytes).len() ==> {
            let c = (#[trigger] hex_lower(bytes)[i]) as u32;
            (48 <= c <= 57) || (97 <= c <= 102)
        },
    decreases bytes.len(),
{
    if bytes.len() > 0 {
        lemma_hex_digits(bytes.drop_last());
        let hi = (bytes.last() / 16) as nat;
        let lo = (bytes.last() % 16) as nat;
        assert(hi < 16 && lo < 16);
        let prev = hex_lower(bytes.drop_last());
        let tail = seq![hex_char(hi), hex_char(lo)];
        assert(hex_lower(bytes) == prev + tail);
        assert forall|i: int| 0 <= i < hex_lower(bytes).len() implies {
            let c = (#[trigger] hex_lower(bytes)[i]) as u32;
            (48 <= c <= 57) || (97 <= c <= 102)
        } by {
            if i < prev.len() {
                assert(hex_lower(bytes)[i] == prev[i]);
            } else {
                let d = if i == prev.len() { hi } else { lo };
                assert(hex_lower(bytes)[i] == hex_char(d));
            }
        }
    }
}

} // verus!

verus! {

/// After trimming a trailing run of `c`, the text no longer ends with `c`.
pub proof fn lemma_trim_end_last(s: Seq<char>, c: char)
    ensures
        trim_end_char(s, c).len() > 0 ==> trim_end_char(s, c).last() != c,
    decreases s.len(),
{
    if s.len() > 0 && s.last() == c {
        lemma_trim_end_last(s.drop_last(), c);
    }
}

/// Trimming keeps a prefix of the text and drops only `c`s after it.
pub proof fn lemma_trim_end_prefix(s: Seq<char>, c: char)
    ensures
        trim_end_char(s, c).len() <= s.len(),
        trim_end_char(s, c) == s.subrange(0, trim_end_char(s, c).len() as int),
        forall|i: int| trim_end_char(s, c).len() <= i < s.len() ==> s[i] == c,
    decreases s.len(),
{
    if s.len() > 0 && s.last() == c {
        lemma_trim_end_prefix(s.drop_last(), c);
        let t = trim_end_char(s, c);
        assert(s.drop_last().subrange(0, t.len() as int) =~= s.subrange(0, t.len() as int));
        assert forall|i: int| t.len() <= i < s.len() implies s[i] == c by {
            if i < s.len() - 1 {
                assert(s.drop_last()[i] == s[i]);
            }
        }
    } else {
        assert(s.subrange(0, s.len() as int) =~= s);
    }
}

/// Different numbers have different decimal renderings.
pub proof fn lemma_decimal_injective(n: nat, m: nat)
    requires
        decimal(n) == decimal(m),
    ensures
        n == m,
    decreases n,
{
    lemma_decimal_digits(n / 10);
    lemma_decimal_digits(m / 10);
    if n >= 10 && m >= 10 {
        assert(decimal(n).drop_last() =~= decimal(n / 10));
        assert(decimal(m).drop_last() =~= decimal(m / 10));
        lemma_decimal_injective(n / 10, m / 10);
        assert(digit_char(n % 10) == decimal(n).last());
    } else if n >= 10 {
        assert(decimal(n).len() >= 2);
    } else if m >= 10 {
        assert(decimal(m).len() >= 2);
    } else {
        assert(decimal(n)[0] == digit_char(n));
    }
}

/// Byte sequences of the same length with the same hexadecimal rendering are equal.
pub proof fn lemma_hex_injective(x: Seq<u8>, y: Seq<u8>)
    requires
        hex_lower(x) == hex_lower(y),
    ensures
        x == y,
    decreases x.len(),
{
    lemma_hex_len(x);
    lemma_hex_len(y);
    if x.len() > 0 {
        let hx = hex_lower(x);
        let px = hex_lower(x.drop_last());
        let py = hex_lower(y.drop_last());
        assert(hx == px + seq![hex_char((x.last() / 16) as nat), hex_char((x.last() % 16) as nat)]);
        assert(hex_lower(y) == py + seq![hex_char((y.last() / 16) as nat), hex_char((y.last() % 16) as nat)]);
        assert(hx[hx.len() - 2] == hex_char((x.last() / 16) as nat));
        assert(hx[hx.len() - 1] == hex_char((x.last() % 16) as nat));
        assert(hex_char((x.last() / 16) as nat) == hex_char((y.last() / 16) as nat));
        assert(hex_char((x.last() % 16) as nat) == hex_char((y.last() % 16) as nat));
        assert(x.last() / 16 == y.last() / 16);
        assert(x.last() % 16 == y.last() % 16);
        assert(x.last() == y.last());
        assert(px =~= hx.subrange(0, hx.len() - 2));
        assert(py =~= hx.subrange(0, hx.len() - 2));
        lemma_hex_injective(x.drop_last(), y.drop_last());
        assert(x =~= x.drop_last().push(x.last()));
        assert(y =~= y.drop_last().push(y.last()));
    }
}

/// Two hexadecimal digits per byte.
pub proof fn lemma_hex_len(x: Seq<u8>)
    ensures
        hex_lower(x).len() == 2 * x.len(),
    decreases x.len(),
{
    if x.len() > 0 {
        lemma_hex_len(x.drop_last());
    }
}

} // verus!
