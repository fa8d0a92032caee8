//! Character-level text handling: trimming, case folding, hexadecimal and
//! decimal rendering, and the number parsing that the MDD strings need.
use vstd::prelude::*;
use vstd::slice::{slice_subrange, slice_to_vec};

verus! {

/// The characters that `String::from_utf8_lossy` yields for `bytes`.
pub uninterp spec fn spec_utf8_lossy(bytes: Seq<u8>) -> Seq<char>;

/// Calls `String::from_utf8_lossy`: the bytes decoded as UTF-8, every invalid
/// sequence replaced by U+FFFD. Claimed: the result is a function of the
/// bytes alone, and valid UTF-8 comes back unchanged.
#[verifier::external_body]
pub(crate) fn utf8_lossy(bytes: &[u8]) -> (s: String)
    ensures
        s@ == spec_utf8_lossy(bytes@),
        vstd::utf8::valid_utf8(bytes@) ==> s@ == vstd::utf8::decode_utf8(bytes@),
{
    String::from_utf8_lossy(bytes).into_owned()
}

/// Calls `String::push`, which appends one character to the string.
#[verifier::external_body]
fn push_char(s: &mut String, c: char)
    ensures
        final(s)@ == old(s)@.push(c),
{
    s.push(c);
}

/// A string holding exactly the characters `chars`, in order.
pub fn chars_to_string(chars: &[char]) -> (s: String)
    ensures
        s@ == chars@,
{
    let mut s = String::new();
    for i in 0..chars.len()
        invariant
            s@ == chars@.take(i as int),
    {
        push_char(&mut s, chars[i]);
        assert(s@ =~= chars@.take(i + 1));
    }
    assert(chars@.take(chars@.len() as int) =~= chars@);
    s
}

/// The characters of `s`, in order.
pub fn str_chars(s: &str) -> (v: Vec<char>)
    ensures
        v@ == s@,
{
    broadcast use vstd::string::group_string_axioms;

    let mut v: Vec<char> = Vec::new();
    for c in it: s.chars()
        invariant
            v@ == it.seq().take(it.index() as int),
            it.seq() == s@,
    {
        v.push(c);
    }
    v
}

} // verus!

verus! {

/// Unicode `White_Space`, the set that `char::is_whitespace` tests.
pub open spec fn is_ws(c: char) -> bool {
    let n = c as u32;
    ||| 0x9 <= n <= 0xD
    ||| n == 0x20
    ||| n == 0x85
    ||| n == 0xA0
    ||| n == 0x1680
    ||| 0x2000 <= n <= 0x200A
    ||| n == 0x2028
    ||| n == 0x2029
    ||| n == 0x202F
    ||| n == 0x205F
    ||| n == 0x3000
}

/// `s` without its leading characters that satisfy `p`.
pub open spec fn skip_while(s: Seq<char>, p: spec_fn(char) -> bool) -> Seq<char>
    decreases s.len(),
{
    if s.len() > 0 && p(s[0]) {
        skip_while(s.drop_first(), p)
    } else {
        s
    }
}

/// `s` without its trailing characters that satisfy `p`.
pub open spec fn skip_while_end(s: Seq<char>, p: spec_fn(char) -> bool) -> Seq<char>
    decreases s.len(),
{
    if s.len() > 0 && p(s.last()) {
        skip_while_end(s.drop_last(), p)
    } else {
        s
    }
}

/// `s` without the characters satisfying `p` at either end.
pub open spec fn strip(s: Seq<char>, p: spec_fn(char) -> bool) -> Seq<char> {
    skip_while_end(skip_while(s, p), p)
}

/// The test `char::is_whitespace` as a predicate.
pub open spec fn ws_pred() -> spec_fn(char) -> bool {
    |c: char| is_ws(c)
}

/// The test "is the character `t`" as a predicate.
pub open spec fn char_pred(t: char) -> spec_fn(char) -> bool {
    |c: char| c == t
}

/// `str::trim`.
pub open spec fn trim(s: Seq<char>) -> Seq<char> {
    strip(s, ws_pred())
}

/// `str::trim_matches` with a single character.
pub open spec fn trim_char(s: Seq<char>, t: char) -> Seq<char> {
    strip(s, char_pred(t))
}

proof fn lemma_skip_while_index(s: Seq<char>, p: spec_fn(char) -> bool, i: int)
    requires
        0 <= i <= s.len(),
        forall|k: int| 0 <= k < i ==> p(#[trigger] s[k]),
    ensures
        skip_while(s, p) == skip_while(s.subrange(i, s.len() as int), p),
    decreases i,
{
    if i > 0 {
        assert(s.drop_first().subrange(i - 1, s.drop_first().len() as int) =~= s.subrange(
            i,
            s.len() as int,
        ));
        lemma_skip_while_index(s.drop_first(), p, i - 1);
    } else {
        assert(s.subrange(0, s.len() as int) =~= s);
    }
}

proof fn lemma_skip_while_end_index(s: Seq<char>, p: spec_fn(char) -> bool, j: int)
    requires
        0 <= j <= s.len(),
        forall|k: int| j <= k < s.len() ==> p(#[trigger] s[k]),
    ensures
        skip_while_end(s, p) == skip_while_end(s.subrange(0, j), p),
    decreases s.len() - j,
{
    if j < s.len() {
        assert(s.drop_last().subrange(0, j) =~= s.subrange(0, j));
        lemma_skip_while_end_index(s.drop_last(), p, j);
    } else {
        assert(s.subrange(0, s.len() as int) =~= s);
    }
}

/// Characters `v` without whitespace at either end.
pub fn trim_chars(v: &[char]) -> (r: Vec<char>)
    ensures
        r@ == trim(v@),
{
    let ghost p = ws_pred();
    let mut i: usize = 0;
    while i < v.len() && is_whitespace(v[i])
        invariant
            i <= v@.len(),
            p == ws_pred(),
            forall|k: int| 0 <= k < i ==> p(#[trigger] v@[k]),
        decreases v@.len() - i,
    {
        i += 1;
    }
    proof {
        lemma_skip_while_index(v@, p, i as int);
    }
    let ghost rest = v@.subrange(i as int, v@.len() as int);
    assert(skip_while(rest, p) == rest);
    let mut j: usize = v.len();
    while j > i && is_whitespace(v[j - 1])
        invariant
            i <= j <= v@.len(),
            p == ws_pred(),
            forall|k: int| j <= k < v@.len() ==> p(#[trigger] v@[k]),
        decreases j,
    {
        j -= 1;
    }
    proof {
        assert forall|k: int| j - i <= k < rest.len() implies p(#[trigger] rest[k]) by {
            assert(rest[k] == v@[k + i]);
        }
        lemma_skip_while_end_index(rest, p, j - i);
        assert(rest.subrange(0, j - i) =~= v@.subrange(i as int, j as int));
    }
    slice_to_vec(slice_subrange(v, i, j))
}

/// Characters `v` without the character `t` at either end.
pub fn trim_char_chars(v: &[char], t: char) -> (r: Vec<char>)
    ensures
        r@ == trim_char(v@, t),
{
    let ghost p = char_pred(t);
    let mut i: usize = 0;
    while i < v.len() && v[i] == t
        invariant
            i <= v@.len(),
            p == char_pred(t),
            forall|k: int| 0 <= k < i ==> p(#[trigger] v@[k]),
        decreases v@.len() - i,
    {
        i += 1;
    }
    proof {
        lemma_skip_while_index(v@, p, i as int);
    }
    let ghost rest = v@.subrange(i as int, v@.len() as int);
    assert(skip_while(rest, p) == rest);
    let mut j: usize = v.len();
    while j > i && v[j - 1] == t
        invariant
            i <= j <= v@.len(),
            p == char_pred(t),
            forall|k: int| j <= k < v@.len() ==> p(#[trigger] v@[k]),
        decreases j,
    {
        j -= 1;
    }
    proof {
        assert forall|k: int| j - i <= k < rest.len() implies p(#[trigger] rest[k]) by {
            assert(rest[k] == v@[k + i]);
        }
        lemma_skip_while_end_index(rest, p, j - i);
        assert(rest.subrange(0, j - i) =~= v@.subrange(i as int, j as int));
    }
    slice_to_vec(slice_subrange(v, i, j))
}

/// `char::is_whitespace`.
pub fn is_whitespace(c: char) -> (r: bool)
    ensures
        r == is_ws(c),
{
    let n = c as u32;
    (0x9 <= n && n <= 0xD) || n == 0x20 || n == 0x85 || n == 0xA0 || n == 0x1680 || (0x2000 <= n
        && n <= 0x200A) || n == 0x2028 || n == 0x2029 || n == 0x202F || n == 0x205F || n == 0x3000
}

/// The path a user typed or pasted, without surrounding whitespace and quotes.
pub open spec fn spec_clean_path(raw: Seq<char>) -> Seq<char> {
    trim(trim_char(trim_char(trim(raw), '"'), '\''))
}

/// Removes surrounding whitespace, then double quotes, then single quotes,
/// then whitespace again.
pub fn clean_path(raw: &str) -> (r: String)
    ensures
        r@ == spec_clean_path(raw@),
{
    let v = str_chars(raw);
    let a = trim_chars(&v);
    let b = trim_char_chars(&a, '"');
    let c = trim_char_chars(&b, '\'');
    let d = trim_chars(&c);
    chars_to_string(&d)
}

} // verus!

verus! {

/// ASCII upper case letters folded to lower case; every other character kept.
pub open spec fn lower_char(c: char) -> char {
    if 'A' <= c <= 'Z' {
        ((c as u32) + 32) as char
    } else {
        c
    }
}

/// ASCII lower case letters raised to upper case; every other character kept.
pub open spec fn upper_char(c: char) -> char {
    if 'a' <= c <= 'z' {
        ((c as u32) - 32) as char
    } else {
        c
    }
}

/// `char::to_ascii_lowercase`.
pub fn to_ascii_lower(c: char) -> (r: char)
    ensures
        r == lower_char(c),
{
    let n = c as u32;
    if 65 <= n && n <= 90 {
        ((n + 32) as u8) as char
    } else {
        c
    }
}

/// `char::to_ascii_uppercase`.
pub fn to_ascii_upper(c: char) -> (r: char)
    ensures
        r == upper_char(c),
{
    let n = c as u32;
    if 97 <= n && n <= 122 {
        ((n - 32) as u8) as char
    } else {
        c
    }
}

/// The characters of `v`, each ASCII-lowercased.
pub fn lower_chars(v: &[char]) -> (r: Vec<char>)
    ensures
        r@ == v@.map_values(|c: char| lower_char(c)),
{
    let mut r: Vec<char> = Vec::new();
    for i in 0..v.len()
        invariant
            r@ == v@.take(i as int).map_values(|c: char| lower_char(c)),
    {
        r.push(to_ascii_lower(v[i]));
        assert(v@.take(i + 1).map_values(|c: char| lower_char(c)) =~= v@.take(i as int).map_values(
            |c: char| lower_char(c),
        ).push(lower_char(v@[i as int])));
    }
    assert(v@.take(v@.len() as int) =~= v@);
    r
}

/// The characters of `v`, each ASCII-uppercased.
pub fn upper_chars(v: &[char]) -> (r: Vec<char>)
    ensures
        r@ == v@.map_values(|c: char| upper_char(c)),
{
    let mut r: Vec<char> = Vec::new();
    for i in 0..v.len()
        invariant
            r@ == v@.take(i as int).map_values(|c: char| upper_char(c)),
    {
        r.push(to_ascii_upper(v[i]));
        assert(v@.take(i + 1).map_values(|c: char| upper_char(c)) =~= v@.take(i as int).map_values(
            |c: char| upper_char(c),
        ).push(upper_char(v@[i as int])));
    }
    assert(v@.take(v@.len() as int) =~= v@);
    r
}

/// `str::eq_ignore_ascii_case`: equal once ASCII letters are folded.
pub open spec fn eq_ignore_case(a: Seq<char>, b: Seq<char>) -> bool {
    a.map_values(|c: char| lower_char(c)) == b.map_values(|c: char| lower_char(c))
}

/// Compares two texts with ASCII letters folded to one case.
pub fn eq_ignore_ascii_case(a: &str, b: &str) -> (r: bool)
    ensures
        r == eq_ignore_case(a@, b@),
{
    let x = lower_chars(&str_chars(a));
    let y = lower_chars(&str_chars(b));
    chars_eq(&x, &y)
}

/// Character-wise equality of two character slices.
pub fn chars_eq(a: &[char], b: &[char]) -> (r: bool)
    ensures
        r == (a@ == b@),
{
    if a.len() != b.len() {
        return false;
    }
    for i in 0..a.len()
        invariant
            a@.len() == b@.len(),
            forall|k: int| 0 <= k < i ==> a@[k] == b@[k],
    {
        if a[i] != b[i] {
            return false;
        }
    }
    assert(a@ =~= b@);
    true
}

/// `s` ends with `suffix`.
pub open spec fn ends_with(s: Seq<char>, suffix: Seq<char>) -> bool {
    suffix.len() <= s.len() && s.subrange(s.len() - suffix.len(), s.len() as int) == suffix
}

/// Whether the characters `s` end with the characters `suffix`.
pub fn chars_end_with(s: &[char], suffix: &str) -> (r: bool)
    ensures
        r == ends_with(s@, suffix@),
{
    let t = str_chars(suffix);
    if t.len() > s.len() {
        return false;
    }
    let off = s.len() - t.len();
    let mut i: usize = 0;
    while i < t.len()
        invariant
            i <= t@.len(),
            t@.len() <= s@.len(),
            off == s@.len() - t@.len(),
            t@ == suffix@,
            forall|k: int| 0 <= k < i ==> s@[off + k] == t@[k],
        decreases t@.len() - i,
    {
        assert(off + i < s.len());
        let at: usize = off + i;
        if s[at] != t[i] {
            assert(s@.subrange(off as int, s@.len() as int)[i as int] == s@[off + i]);
            return false;
        }
        i += 1;
    }
    assert(s@.subrange(off as int, s@.len() as int) =~= t@);
    true
}

/// `s` begins with `0x` or `0X`.
pub open spec fn has_hex_prefix(s: Seq<char>) -> bool {
    s.len() >= 2 && s[0] == '0' && (s[1] == 'x' || s[1] == 'X')
}

/// `s` without a leading `0x` or `0X`.
pub open spec fn strip_hex_prefix(s: Seq<char>) -> Seq<char> {
    if has_hex_prefix(s) {
        s.skip(2)
    } else {
        s
    }
}

/// The value of `c` as a digit in base `radix`, as `char::to_digit` gives it.
pub open spec fn digit_value(c: char, radix: nat) -> Option<nat> {
    let d: int = if '0' <= c <= '9' {
        c as u32 - 48
    } else if 'a' <= c <= 'z' {
        c as u32 - 87
    } else if 'A' <= c <= 'Z' {
        c as u32 - 55
    } else {
        99
    };
    if d < radix {
        Some(d as nat)
    } else {
        None
    }
}

/// Every character of `s` is a digit in base `radix`.
pub open spec fn all_digits(s: Seq<char>, radix: nat) -> bool {
    forall|i: int| 0 <= i < s.len() ==> (#[trigger] digit_value(s[i], radix)) is Some
}

/// The number that the digits `s` spell in base `radix`.
pub open spec fn digits_value(s: Seq<char>, radix: nat) -> nat
    decreases s.len(),
{
    if s.len() == 0 {
        0
    } else {
        let d = match digit_value(s.last(), radix) {
            Some(d) => d,
            None => 0,
        };
        digits_value(s.drop_last(), radix) * radix + d
    }
}

/// `from_str_radix` for an unsigned type whose largest value is `max`: an
/// optional `+`, then at least one digit, and a value that fits.
pub open spec fn parse_unsigned(s: Seq<char>, radix: nat, max: nat) -> Option<nat> {
    let d = if s.len() > 0 && s[0] == '+' {
        s.drop_first()
    } else {
        s
    };
    if d.len() == 0 || !all_digits(d, radix) || digits_value(d, radix) > max {
        None
    } else {
        Some(digits_value(d, radix))
    }
}

proof fn lemma_digits_value_prefix(s: Seq<char>, radix: nat, k: int)
    requires
        0 <= k <= s.len(),
        radix >= 1,
    ensures
        digits_value(s.take(k), radix) <= digits_value(s, radix),
    decreases s.len() - k,
{
    if k < s.len() {
        lemma_digits_value_prefix(s, radix, k + 1);
        assert(s.take(k + 1).drop_last() =~= s.take(k));
        let d = match digit_value(s.take(k + 1).last(), radix) {
            Some(d) => d,
            None => 0,
        };
        let v = digits_value(s.take(k), radix);
        assert(v * radix + d >= v) by (nonlinear_arith)
            requires
                radix >= 1,
                v >= 0,
                d >= 0,
        ;
    } else {
        assert(s.take(k) =~= s);
    }
}

/// The value of the digit character `c` in base `radix`, if it is one.
pub fn to_digit(c: char, radix: u32) -> (r: Option<u32>)
    requires
        2 <= radix <= 36,
    ensures
        r matches Some(d) ==> digit_value(c, radix as nat) == Some(d as nat),
        r is None ==> digit_value(c, radix as nat) is None,
{
    let n = c as u32;
    let d: u32 = if 48 <= n && n <= 57 {
        n - 48
    } else if 97 <= n && n <= 122 {
        n - 87
    } else if 65 <= n && n <= 90 {
        n - 55
    } else {
        99
    };
    if d < radix {
        Some(d)
    } else {
        None
    }
}

/// Parses `s` as `from_str_radix` does for an unsigned type whose largest
/// value is `max`.
pub fn parse_unsigned_chars(s: &[char], radix: u32, max: u64) -> (r: Option<u64>)
    requires
        2 <= radix <= 36,
    ensures
        r matches Some(n) ==> parse_unsigned(s@, radix as nat, max as nat) == Some(n as nat),
        r is None ==> parse_unsigned(s@, radix as nat, max as nat) is None,
{
    let start: usize = if s.len() > 0 && s[0] == '+' {
        1
    } else {
        0
    };
    let ghost d = if s@.len() > 0 && s@[0] == '+' {
        s@.drop_first()
    } else {
        s@
    };
    assert(d =~= s@.subrange(start as int, s@.len() as int));
    if start == s.len() {
        return None;
    }
    let mut acc: u64 = 0;
    let mut i: usize = start;
    while i < s.len()
        invariant
            2 <= radix <= 36,
            start <= i <= s@.len(),
            d == s@.subrange(start as int, s@.len() as int),
            d == (if s@.len() > 0 && s@[0] == '+' {
                s@.drop_first()
            } else {
                s@
            }),
            forall|k: int| 0 <= k < i - start ==> (#[trigger] digit_value(d[k], radix as nat)) is Some,
            acc == digits_value(d.take(i - start), radix as nat),
            acc <= max,
        decreases s@.len() - i,
    {
        let ghost j = i - start;
        assert(d[j] == s@[i as int]);
        let dv = match to_digit(s[i], radix) {
            Some(v) => v,
            None => {
                assert(!all_digits(d, radix as nat));
                return None;
            },
        };
        assert(d.take(j + 1).drop_last() =~= d.take(j));
        assert(d.take(j + 1).last() == d[j]);
        let next = match acc.checked_mul(radix as u64) {
            Some(m) => m.checked_add(dv as u64),
            None => None,
        };
        match next {
            Some(nv) if nv <= max => {
                acc = nv;
            },
            _ => {
                proof {
                    let v = digits_value(d.take(j), radix as nat);
                    assert(digits_value(d.take(j + 1), radix as nat) == v * radix + dv);
                    assert(v * radix + dv > max);
                    lemma_digits_value_prefix(d, radix as nat, j + 1);
                }
                return None;
            },
        }
        i += 1;
    }
    assert(d.take(d.len() as int) =~= d);
    Some(acc)
}

/// The character of a digit below 36: `0`-`9`, then `A`-`Z`.
pub open spec fn digit_char(d: nat) -> char {
    if d < 10 {
        (48 + d) as char
    } else {
        (55 + d) as char
    }
}

/// The digits of `n` in base `radix`, most significant first, no leading zero.
pub open spec fn digits_in(n: nat, radix: nat) -> Seq<char>
    decreases n,
{
    if n < radix || radix < 2 {
        seq![digit_char(n)]
    } else {
        proof {
            assert(n / radix < n) by (nonlinear_arith)
                requires
                    radix >= 2,
                    n >= radix,
            ;
        }
        digits_in(n / radix, radix).push(digit_char(n % radix))
    }
}

/// `s` left-padded with `0` to at least `width` characters.
pub open spec fn pad_zeros(s: Seq<char>, width: nat) -> Seq<char> {
    if s.len() >= width {
        s
    } else {
        Seq::new((width - s.len()) as nat, |i: int| '0') + s
    }
}

/// Appends the base-`radix` digits of `n` (upper case) to `out`.
pub fn push_digits(n: u64, radix: u64, out: &mut Vec<char>)
    requires
        2 <= radix <= 16,
    ensures
        final(out)@ == old(out)@ + digits_in(n as nat, radix as nat),
    decreases n,
{
    if n >= radix {
        assert(n / radix < n) by (nonlinear_arith)
            requires
                radix >= 2,
                n >= radix,
        ;
        push_digits(n / radix, radix, out);
    }
    let d = n % radix;
    let c = if d < 10 {
        ((48 + d) as u8) as char
    } else {
        ((55 + d) as u8) as char
    };
    assert(c == digit_char(d as nat));
    out.push(c);
    if n < radix {
        assert(n % radix == n) by (nonlinear_arith)
            requires
                n < radix,
        ;
        assert(final(out)@ =~= old(out)@ + digits_in(n as nat, radix as nat));
    } else {
        assert(final(out)@ =~= old(out)@ + digits_in(n as nat, radix as nat));
    }
}

/// Appends `width - len` zeros to `out` when the digits to follow are fewer
/// than `width`.
fn push_zeros(count: usize, out: &mut Vec<char>)
    ensures
        final(out)@ == old(out)@ + Seq::new(count as nat, |i: int| '0'),
{
    let mut i: usize = 0;
    while i < count
        invariant
            i <= count,
            out@ == old(out)@ + Seq::new(i as nat, |k: int| '0'),
        decreases count - i,
    {
        out.push('0');
        i += 1;
        assert(out@ =~= old(out)@ + Seq::new(i as nat, |k: int| '0'));
    }
}

/// The base-`radix` digits of `n` (upper case), zero-padded to at least `width`.
pub fn digits_padded(n: u64, radix: u64, width: usize) -> (r: Vec<char>)
    requires
        2 <= radix <= 16,
    ensures
        r@ == pad_zeros(digits_in(n as nat, radix as nat), width as nat),
{
    let mut digits: Vec<char> = Vec::new();
    push_digits(n, radix, &mut digits);
    assert(digits@ =~= digits_in(n as nat, radix as nat));
    let mut r: Vec<char> = Vec::new();
    if digits.len() < width {
        push_zeros(width - digits.len(), &mut r);
    }
    let mut i: usize = 0;
    let ghost prefix = r@;
    while i < digits.len()
        invariant
            i <= digits@.len(),
            r@ == prefix + digits@.take(i as int),
        decreases digits@.len() - i,
    {
        r.push(digits[i]);
        i += 1;
        assert(r@ =~= prefix + digits@.take(i as int));
    }
    assert(digits@.take(digits@.len() as int) =~= digits@);
    assert(r@ =~= pad_zeros(digits_in(n as nat, radix as nat), width as nat));
    r
}

/// Uppercase hexadecimal digits of `n`, zero-padded to at least `width`.
pub fn hex_padded(n: u64, width: usize) -> (r: Vec<char>)
    ensures
        r@ == pad_zeros(digits_in(n as nat, 16), width as nat),
{
    digits_padded(n, 16, width)
}

/// The decimal digits of a `u64`, as `u64::to_string` writes them.
pub fn u64_to_decimal(n: u64) -> (r: String)
    ensures
        r@ == digits_in(n as nat, 10),
{
    let mut digits: Vec<char> = Vec::new();
    push_digits(n, 10, &mut digits);
    assert(digits@ =~= digits_in(n as nat, 10));
    chars_to_string(&digits)
}

/// The text of an `i64`, as `i64::to_string` writes it.
pub open spec fn signed_decimal(n: int) -> Seq<char> {
    if n < 0 {
        seq!['-'] + digits_in((-n) as nat, 10)
    } else {
        digits_in(n as nat, 10)
    }
}

/// The decimal text of an `i64` above `i64::MIN`.
pub fn i64_to_decimal(n: i64) -> (r: String)
    requires
        n > i64::MIN,
    ensures
        r@ == signed_decimal(n as int),
{
    let mut digits: Vec<char> = Vec::new();
    if n < 0 {
        digits.push('-');
        push_digits((-n) as u64, 10, &mut digits);
    } else {
        push_digits(n as u64, 10, &mut digits);
    }
    assert(digits@ =~= signed_decimal(n as int));
    chars_to_string(&digits)
}

/// The digit count that `decimal_string_to_hex` pads a value to.
pub open spec fn hex_width(n: nat) -> nat {
    if n <= 0xFF {
        2
    } else if n <= 0xFFFF {
        4
    } else if n <= 0xFF_FFFF {
        6
    } else {
        8
    }
}

/// A decimal or `0x`-prefixed hexadecimal number, after trimming, that fits in a `u64`.
pub open spec fn parse_u64_text(t: Seq<char>) -> Option<nat> {
    if has_hex_prefix(t) {
        parse_unsigned(t.skip(2), 16, u64::MAX as nat)
    } else {
        parse_unsigned(t, 10, u64::MAX as nat)
    }
}

/// The uppercase hexadecimal rendering of a number written in an MDD string.
pub open spec fn spec_decimal_string_to_hex(value: Seq<char>) -> Option<Seq<char>> {
    match parse_u64_text(trim(value)) {
        None => None,
        Some(n) => Some(pad_zeros(digits_in(n, 16), hex_width(n))),
    }
}

/// Rewrites a decimal (or `0x`-prefixed hexadecimal) number as uppercase
/// hexadecimal with an even number of digits, at least two.
pub fn decimal_string_to_hex(value: &str) -> (r: Option<String>)
    ensures
        r is Some == spec_decimal_string_to_hex(value@) is Some,
        r matches Some(h) ==> spec_decimal_string_to_hex(value@) == Some(h@),
{
    let t = trim_chars(&str_chars(value));
    let parsed = if t.len() >= 2 && t[0] == '0' && (t[1] == 'x' || t[1] == 'X') {
        let rest = slice_subrange(t.as_slice(), 2, t.len());
        assert(rest@ =~= t@.skip(2));
        parse_unsigned_chars(rest, 16, u64::MAX)
    } else {
        parse_unsigned_chars(t.as_slice(), 10, u64::MAX)
    };
    let n = match parsed {
        Some(n) => n,
        None => {
            return None;
        },
    };
    let width: usize = if n <= 0xFF {
        2
    } else if n <= 0xFFFF {
        4
    } else if n <= 0xFF_FFFF {
        6
    } else {
        8
    };
    let digits = hex_padded(n, width);
    Some(chars_to_string(&digits))
}

} // verus!

verus! {

/// An ASCII hexadecimal digit, as `char::is_ascii_hexdigit` tests.
pub open spec fn is_hex_char(c: char) -> bool {
    digit_value(c, 16) is Some
}

/// The predicate `is_hex_char`.
pub open spec fn hex_pred() -> spec_fn(char) -> bool {
    |c: char| is_hex_char(c)
}

/// `char::is_ascii_hexdigit`.
pub fn is_ascii_hexdigit(c: char) -> (r: bool)
    ensures
        r == is_hex_char(c),
{
    to_digit(c, 16).is_some()
}

/// The hexadecimal digits of `value`: trimmed, without a `0x` prefix, every
/// other character dropped, a leading zero added to an odd count, upper case.
pub open spec fn spec_clean_hex_string(value: Seq<char>) -> Option<Seq<char>> {
    let h = strip_hex_prefix(trim(value)).filter(hex_pred());
    if h.len() == 0 {
        None
    } else {
        let even = if h.len() % 2 != 0 {
            seq!['0'] + h
        } else {
            h
        };
        Some(even.map_values(|c: char| upper_char(c)))
    }
}

/// Keeps the hexadecimal digits of `v`, in order.
pub fn keep_hex_digits(v: &[char]) -> (r: Vec<char>)
    ensures
        r@ == v@.filter(hex_pred()),
{
    let mut r: Vec<char> = Vec::new();
    for i in 0..v.len()
        invariant
            r@ == v@.take(i as int).filter(hex_pred()),
    {
        assert(v@.take(i + 1).drop_last() =~= v@.take(i as int));
        reveal(Seq::filter);
        if is_ascii_hexdigit(v[i]) {
            r.push(v[i]);
        }
    }
    assert(v@.take(v@.len() as int) =~= v@);
    r
}

/// Normalises a byte string written in hexadecimal, or `None` when it holds
/// no hexadecimal digit.
pub fn clean_hex_string(value: &str) -> (r: Option<String>)
    ensures
        r is Some == spec_clean_hex_string(value@) is Some,
        r matches Some(h) ==> spec_clean_hex_string(value@) == Some(h@),
{
    let t = trim_chars(&str_chars(value));
    let body: &[char] = if t.len() >= 2 && t[0] == '0' && (t[1] == 'x' || t[1] == 'X') {
        let rest = slice_subrange(t.as_slice(), 2, t.len());
        assert(rest@ =~= t@.skip(2));
        rest
    } else {
        t.as_slice()
    };
    let h = keep_hex_digits(body);
    if h.len() == 0 {
        return None;
    }
    let mut even: Vec<char> = Vec::new();
    if h.len() % 2 != 0 {
        even.push('0');
    }
    let mut i: usize = 0;
    let ghost prefix = even@;
    while i < h.len()
        invariant
            i <= h@.len(),
            even@ == prefix + h@.take(i as int),
        decreases h@.len() - i,
    {
        even.push(h[i]);
        i += 1;
        assert(even@ =~= prefix + h@.take(i as int));
    }
    assert(h@.take(h@.len() as int) =~= h@);
    assert(even@ =~= (if h@.len() % 2 != 0 {
        seq!['0'] + h@
    } else {
        h@
    }));
    let up = upper_chars(&even);
    Some(chars_to_string(&up))
}

/// The two uppercase hexadecimal digits of a byte.
pub open spec fn hex2(b: u8) -> Seq<char> {
    pad_zeros(digits_in(b as nat, 16), 2)
}

/// Bytes as uppercase hexadecimal pairs separated by single spaces.
pub open spec fn spec_bytes_to_hex(b: Seq<u8>) -> Seq<char>
    decreases b.len(),
{
    if b.len() == 0 {
        Seq::empty()
    } else if b.len() == 1 {
        hex2(b[0])
    } else {
        spec_bytes_to_hex(b.drop_last()) + seq![' '] + hex2(b.last())
    }
}

/// Renders bytes as `"0A 1B 2C"`.
pub fn bytes_to_hex(bytes: &[u8]) -> (r: String)
    ensures
        r@ == spec_bytes_to_hex(bytes@),
{
    let mut out: Vec<char> = Vec::new();
    for i in 0..bytes.len()
        invariant
            out@ == spec_bytes_to_hex(bytes@.take(i as int)),
    {
        assert(bytes@.take(i + 1).drop_last() =~= bytes@.take(i as int));
        if i > 0 {
            out.push(' ');
        }
        let pair = hex_padded(bytes[i] as u64, 2);
        let ghost before = out@;
        out.append(&mut pair.clone());
        proof {
            assert(pair@ == hex2(bytes@[i as int]));
            if i == 0 {
                assert(out@ =~= hex2(bytes@[0]));
            } else {
                assert(out@ =~= before + hex2(bytes@[i as int]));
            }
        }
    }
    assert(bytes@.take(bytes@.len() as int) =~= bytes@);
    chars_to_string(&out)
}

/// Renders bytes as `"0A 1B 2C"`, as `bytes_to_hex` does.
pub fn format_hex_bytes(bytes: &[u8]) -> (r: String)
    ensures
        r@ == spec_bytes_to_hex(bytes@),
{
    bytes_to_hex(bytes)
}

} // verus!

verus! {

/// Letters, digits, space, `-`, `_` and `.` stay in a folder name.
pub open spec fn folder_char_kept(c: char) -> bool {
    let n = c as u32;
    ||| 97 <= n <= 122
    ||| 65 <= n <= 90
    ||| 48 <= n <= 57
    ||| n == 32
    ||| n == 45
    ||| n == 95
    ||| n == 46
}

/// A name usable as a single path component, or `fallback` when nothing of
/// it survives.
pub open spec fn spec_safe_folder_name(name: Seq<char>, fallback: Seq<char>) -> Seq<char> {
    let mapped = trim(name).map_values(
        |c: char|
            if folder_char_kept(c) {
                c
            } else {
                '_'
            },
    );
    let cleaned = trim(trim_char(trim(mapped), '.'));
    if cleaned.len() == 0 {
        fallback
    } else {
        cleaned
    }
}

/// Replaces every character outside `[A-Za-z0-9 ._-]` by `_`, strips
/// whitespace and dots from the ends, and falls back when nothing is left.
pub fn safe_folder_name(name: &str, fallback: &str) -> (r: String)
    ensures
        r@ == spec_safe_folder_name(name@, fallback@),
{
    let t = trim_chars(&str_chars(name));
    let mut mapped: Vec<char> = Vec::new();
    for i in 0..t.len()
        invariant
            mapped@ == t@.take(i as int).map_values(
                |c: char|
                    if folder_char_kept(c) {
                        c
                    } else {
                        '_'
                    },
            ),
    {
        let c = t[i];
        let n = c as u32;
        let keep = (97 <= n && n <= 122) || (65 <= n && n <= 90) || (48 <= n && n <= 57) || n == 32
            || n == 45 || n == 95 || n == 46;
        assert(keep == folder_char_kept(c));
        assert(t@.take(i + 1)[i as int] == c);
        mapped.push(
            if keep {
                c
            } else {
                '_'
            },
        );
        assert(t@.take(i + 1).map_values(
            |c: char|
                if folder_char_kept(c) {
                    c
                } else {
                    '_'
                },
        ) =~= t@.take(i as int).map_values(
            |c: char|
                if folder_char_kept(c) {
                    c
                } else {
                    '_'
                },
        ).push(mapped@.last()));
    }
    assert(t@.take(t@.len() as int) =~= t@);
    let a = trim_chars(&mapped);
    let b = trim_char_chars(&a, '.');
    let c = trim_chars(&b);
    if c.len() == 0 {
        String::from_str(fallback)
    } else {
        chars_to_string(&c)
    }
}

/// The file endings of the ODX family, lower case.
pub open spec fn has_odx_ending(lower: Seq<char>) -> bool {
    ||| ends_with(lower, ".odx"@)
    ||| ends_with(lower, ".odx-d"@)
    ||| ends_with(lower, ".odx-f"@)
    ||| ends_with(lower, ".odx-c"@)
    ||| ends_with(lower, ".odx-cs"@)
    ||| ends_with(lower, ".odx-e"@)
}

/// The characters of `s` with ASCII letters in lower case.
pub open spec fn lower(s: Seq<char>) -> Seq<char> {
    s.map_values(|c: char| lower_char(c))
}

fn chars_have_odx_ending(lower: &[char]) -> (r: bool)
    ensures
        r == has_odx_ending(lower@),
{
    chars_end_with(lower, ".odx") || chars_end_with(lower, ".odx-d") || chars_end_with(
        lower,
        ".odx-f",
    ) || chars_end_with(lower, ".odx-c") || chars_end_with(lower, ".odx-cs") || chars_end_with(
        lower,
        ".odx-e",
    )
}

/// Whether an archive member is an ODX file, judged by its ending in any case.
pub fn is_odx_archive_entry(name: &str) -> (r: bool)
    ensures
        r == has_odx_ending(lower(name@)),
{
    let l = lower_chars(&str_chars(name));
    chars_have_odx_ending(&l)
}

/// The kind of diagnostic source a file name denotes: `pdx`, `mdd` or `odx`.
pub open spec fn spec_diagnostic_kind(file_name: Seq<char>) -> Option<Seq<char>> {
    let l = lower(file_name);
    if ends_with(l, ".pdx"@) {
        Some("pdx"@)
    } else if ends_with(l, ".mdd"@) {
        Some("mdd"@)
    } else if has_odx_ending(l) {
        Some("odx"@)
    } else {
        None
    }
}

/// Classifies a source file by the ending of its name; a path without a
/// file name has no kind.
pub fn diagnostic_kind(file_name: Option<&str>) -> (r: Option<&'static str>)
    ensures
        file_name is None ==> r is None,
        file_name matches Some(n) ==> (match r {
            Some(k) => spec_diagnostic_kind(n@) == Some(k@),
            None => spec_diagnostic_kind(n@) is None,
        }),
{
    let name = match file_name {
        Some(n) => n,
        None => {
            return None;
        },
    };
    let l = lower_chars(&str_chars(name));
    if chars_end_with(&l, ".pdx") {
        Some("pdx")
    } else if chars_end_with(&l, ".mdd") {
        Some("mdd")
    } else if chars_have_odx_ending(&l) {
        Some("odx")
    } else {
        None
    }
}

} // verus!

verus! {

/// Characters that may separate the bytes of a hexadecimal frame.
pub open spec fn frame_separator(c: char) -> bool {
    is_ws(c) || c == ',' || c == ';' || c == ':' || c == '_' || c == '-'
}

/// The predicate "not a frame separator".
pub open spec fn frame_char_pred() -> spec_fn(char) -> bool {
    |c: char| !frame_separator(c)
}

/// `s` with every non-overlapping `a b` pair removed, scanning left to right,
/// as `str::replace` with an empty replacement does.
pub open spec fn remove_pair(s: Seq<char>, a: char, b: char) -> Seq<char>
    decreases s.len(),
{
    if s.len() == 0 {
        s
    } else if s.len() >= 2 && s[0] == a && s[1] == b {
        remove_pair(s.skip(2), a, b)
    } else {
        seq![s[0]] + remove_pair(s.drop_first(), a, b)
    }
}

/// The digits of a frame once separators and `0x`/`0X` markers are gone.
pub open spec fn frame_digits(frame: Seq<char>) -> Seq<char> {
    remove_pair(remove_pair(frame.filter(frame_char_pred()), '0', 'x'), '0', 'X')
}

/// The number of bytes UTF-8 needs for `c`.
pub open spec fn char_utf8_len(c: char) -> nat {
    let n = c as u32;
    if n < 0x80 {
        1
    } else if n < 0x800 {
        2
    } else if n < 0x10000 {
        3
    } else {
        4
    }
}

/// The number of bytes UTF-8 needs for `s`.
pub open spec fn utf8_len(s: Seq<char>) -> nat
    decreases s.len(),
{
    if s.len() == 0 {
        0
    } else {
        utf8_len(s.drop_last()) + char_utf8_len(s.last())
    }
}

/// The value of a hexadecimal digit character.
pub open spec fn hex_val(c: char) -> nat {
    match digit_value(c, 16) {
        Some(d) => d,
        None => 0,
    }
}

/// The bytes spelled by consecutive pairs of hexadecimal digits.
pub open spec fn hex_pairs(s: Seq<char>) -> Seq<u8> {
    Seq::new(s.len() / 2, |k: int| (16 * hex_val(s[2 * k]) + hex_val(s[2 * k + 1])) as u8)
}

/// What `parse_hex_frame_text` gives for `frame`.
pub open spec fn spec_parse_hex_frame_text(frame: Seq<char>) -> Result<Seq<u8>, Seq<char>> {
    let d = frame_digits(frame);
    if d.len() == 0 {
        Err("A sequence contains an empty frame."@)
    } else if utf8_len(d) % 2 != 0 {
        Err("Invalid hexadecimal frame '"@ + frame + "': odd number of digits."@)
    } else if !(forall|i: int| 0 <= i < d.len() ==> is_hex_char(#[trigger] d[i])) {
        Err("Invalid hexadecimal frame '"@ + frame + "'."@)
    } else {
        Ok(hex_pairs(d))
    }
}

proof fn lemma_ascii_utf8_len(s: Seq<char>)
    requires
        forall|i: int| 0 <= i < s.len() ==> is_hex_char(#[trigger] s[i]),
    ensures
        utf8_len(s) == s.len(),
    decreases s.len(),
{
    if s.len() > 0 {
        assert(is_hex_char(s[s.len() - 1]));
        assert forall|i: int| 0 <= i < s.drop_last().len() implies is_hex_char(
            #[trigger] s.drop_last()[i],
        ) by {
            assert(s.drop_last()[i] == s[i]);
        }
        lemma_ascii_utf8_len(s.drop_last());
    }
}

fn keep_frame_chars(v: &[char]) -> (r: Vec<char>)
    ensures
        r@ == v@.filter(frame_char_pred()),
{
    let mut r: Vec<char> = Vec::new();
    for i in 0..v.len()
        invariant
            r@ == v@.take(i as int).filter(frame_char_pred()),
    {
        assert(v@.take(i + 1).drop_last() =~= v@.take(i as int));
        reveal(Seq::filter);
        let c = v[i];
        if !(is_whitespace(c) || c == ',' || c == ';' || c == ':' || c == '_' || c == '-') {
            r.push(c);
        }
    }
    assert(v@.take(v@.len() as int) =~= v@);
    r
}

fn remove_pairs(s: &[char], a: char, b: char) -> (r: Vec<char>)
    ensures
        r@ == remove_pair(s@, a, b),
{
    let mut out: Vec<char> = Vec::new();
    let mut i: usize = 0;
    assert(s@.skip(0) =~= s@);
    while i < s.len()
        invariant
            i <= s@.len(),
            out@ + remove_pair(s@.skip(i as int), a, b) == remove_pair(s@, a, b),
        decreases s@.len() - i,
    {
        let ghost rest = s@.skip(i as int);
        if i + 1 < s.len() && s[i] == a && s[i + 1] == b {
            assert(rest.skip(2) =~= s@.skip(i + 2));
            i += 2;
        } else {
            assert(rest.drop_first() =~= s@.skip(i + 1));
            let ghost before = out@;
            out.push(s[i]);
            assert(out@ + remove_pair(s@.skip(i + 1), a, b) =~= before + (seq![s@[i as int]]
                + remove_pair(rest.drop_first(), a, b)));
            i += 1;
        }
    }
    assert(remove_pair(s@.skip(i as int), a, b) =~= Seq::<char>::empty());
    assert(out@ =~= out@ + Seq::<char>::empty());
    out
}

/// The bytes spelled by consecutive pairs of the hexadecimal digits `d`.
pub fn hex_pairs_bytes(d: &[char]) -> (r: Vec<u8>)
    requires
        d@.len() % 2 == 0,
        forall|j: int| 0 <= j < d@.len() ==> is_hex_char(#[trigger] d@[j]),
    ensures
        r@ == hex_pairs(d@),
{
    let mut out: Vec<u8> = Vec::new();
    let half = d.len() / 2;
    for k in 0..half
        invariant
            half == d@.len() / 2,
            d@.len() % 2 == 0,
            forall|j: int| 0 <= j < d@.len() ==> is_hex_char(#[trigger] d@[j]),
            out@ == hex_pairs(d@).take(k as int),
    {
        assert(2 * k + 1 < d.len());
        let hi = match to_digit(d[2 * k], 16) {
            Some(v) => v,
            None => 0,
        };
        let lo = match to_digit(d[2 * k + 1], 16) {
            Some(v) => v,
            None => 0,
        };
        out.push((16 * hi + lo) as u8);
        assert(out@ =~= hex_pairs(d@).take(k + 1));
    }
    assert(hex_pairs(d@).take(half as int) =~= hex_pairs(d@));
    out
}

/// Reads a UDS frame typed as hexadecimal: separators (whitespace `,` `;`
/// `:` `_` `-`) and `0x`/`0X` markers are ignored, and the rest must be an
/// even number of hexadecimal digits.
pub fn parse_hex_frame_text(frame: &str) -> (r: Result<Vec<u8>, String>)
    ensures
        r is Ok == spec_parse_hex_frame_text(frame@) is Ok,
        r matches Ok(v) ==> spec_parse_hex_frame_text(frame@) == Ok::<Seq<u8>, Seq<char>>(v@),
        r matches Err(m) ==> spec_parse_hex_frame_text(frame@) == Err::<Seq<u8>, Seq<char>>(m@),
{
    let kept = keep_frame_chars(&str_chars(frame));
    let no_lower = remove_pairs(&kept, '0', 'x');
    let d = remove_pairs(&no_lower, '0', 'X');
    if d.len() == 0 {
        return Err(String::from_str("A sequence contains an empty frame."));
    }
    let mut odd = false;
    for i in 0..d.len()
        invariant
            odd == (utf8_len(d@.take(i as int)) % 2 == 1),
    {
        assert(d@.take(i + 1).drop_last() =~= d@.take(i as int));
        let n = d[i] as u32;
        let w: usize = if n < 0x80 {
            1
        } else if n < 0x800 {
            2
        } else if n < 0x10000 {
            3
        } else {
            4
        };
        if w % 2 == 1 {
            odd = !odd;
        }
    }
    assert(d@.take(d@.len() as int) =~= d@);
    if odd {
        let mut m = String::from_str("Invalid hexadecimal frame '");
        m.append(frame);
        m.append("': odd number of digits.");
        return Err(m);
    }
    for i in 0..d.len()
        invariant
            d@ == frame_digits(frame@),
            d@.len() > 0,
            utf8_len(d@) % 2 == 0,
            forall|k: int| 0 <= k < i ==> is_hex_char(#[trigger] d@[k]),
    {
        if !is_ascii_hexdigit(d[i]) {
            let mut m = String::from_str("Invalid hexadecimal frame '");
            m.append(frame);
            m.append("'.");
            return Err(m);
        }
    }
    proof {
        lemma_ascii_utf8_len(d@);
    }
    Ok(hex_pairs_bytes(&d))
}

/// What `parse_logical_address` gives for `raw` under the name `label`.
pub open spec fn spec_parse_logical_address(raw: Seq<char>, label: Seq<char>) -> Result<
    u16,
    Seq<char>,
> {
    let v = trim(raw);
    if v.len() == 0 {
        Err(label + " is empty."@)
    } else {
        match (if has_hex_prefix(v) {
            parse_unsigned(v.skip(2), 16, 0xFFFF)
        } else {
            parse_unsigned(v, 10, 0xFFFF)
        }) {
            Some(n) => Ok(n as u16),
            None => Err("Invalid "@ + label + " '"@ + v + "'. Use for example 0x0E80."@),
        }
    }
}

/// Reads a DoIP logical address written in decimal or as `0x`-prefixed
/// hexadecimal; the error names the address by `label`.
pub fn parse_logical_address(raw: &str, label: &str) -> (r: Result<u16, String>)
    ensures
        r is Ok == spec_parse_logical_address(raw@, label@) is Ok,
        r matches Ok(a) ==> spec_parse_logical_address(raw@, label@) == Ok::<u16, Seq<char>>(a),
        r matches Err(m) ==> spec_parse_logical_address(raw@, label@) == Err::<u16, Seq<char>>(
            m@,
        ),
{
    let v = trim_chars(&str_chars(raw));
    if v.len() == 0 {
        let mut m = String::from_str(label);
        m.append(" is empty.");
        return Err(m);
    }
    let parsed = if v.len() >= 2 && v[0] == '0' && (v[1] == 'x' || v[1] == 'X') {
        let rest = slice_subrange(v.as_slice(), 2, v.len());
        assert(rest@ =~= v@.skip(2));
        parse_unsigned_chars(rest, 16, 0xFFFF)
    } else {
        parse_unsigned_chars(v.as_slice(), 10, 0xFFFF)
    };
    match parsed {
        Some(n) => Ok(n as u16),
        None => {
            let shown = chars_to_string(&v);
            let mut m = String::from_str("Invalid ");
            m.append(label);
            m.append(" '");
            m.append(shown.as_str());
            m.append("'. Use for example 0x0E80.");
            Err(m)
        },
    }
}

} // verus!

verus! {

/// The hexadecimal digits of `b`, two per byte, with nothing between them.
pub open spec fn hex_digits_of(b: Seq<u8>) -> Seq<char>
    decreases b.len(),
{
    if b.len() == 0 {
        Seq::empty()
    } else {
        hex_digits_of(b.drop_last()) + hex2(b.last())
    }
}

/// A character that a frame keeps as a hexadecimal digit.
pub open spec fn plain_hex_digit(c: char) -> bool {
    is_hex_char(c) && !frame_separator(c) && c != 'x' && c != 'X'
}

proof fn lemma_digit_char(d: nat)
    requires
        d < 16,
    ensures
        digit_value(digit_char(d), 16) == Some(d),
        plain_hex_digit(digit_char(d)),
{
}

proof fn lemma_hex2(x: u8)
    ensures
        hex2(x).len() == 2,
        digit_value(hex2(x)[0], 16) == Some((x / 16) as nat),
        digit_value(hex2(x)[1], 16) == Some((x % 16) as nat),
        plain_hex_digit(hex2(x)[0]),
        plain_hex_digit(hex2(x)[1]),
{
    let n = x as nat;
    if n < 16 {
        assert(digits_in(n, 16) == seq![digit_char(n)]);
        assert(hex2(x) =~= seq!['0', digit_char(n)]);
        lemma_digit_char(0);
        lemma_digit_char(n);
        assert(digit_char(0) == '0');
    } else {
        let q = n / 16;
        let r = n % 16;
        assert(q < 16);
        assert(digits_in(q, 16) == seq![digit_char(q)]);
        assert(digits_in(n, 16) =~= seq![digit_char(q), digit_char(r)]);
        assert(hex2(x) =~= seq![digit_char(q), digit_char(r)]);
        lemma_digit_char(q);
        lemma_digit_char(r);
    }
}

proof fn lemma_hex_digits_of(b: Seq<u8>)
    ensures
        hex_digits_of(b).len() == 2 * b.len(),
        forall|k: int|
            0 <= k < b.len() ==> hex_digits_of(b)[2 * k] == hex2(#[trigger] b[k])[0]
                && hex_digits_of(b)[2 * k + 1] == hex2(b[k])[1],
        forall|i: int| 0 <= i < hex_digits_of(b).len() ==> plain_hex_digit(#[trigger] hex_digits_of(b)[i]),
    decreases b.len(),
{
    if b.len() > 0 {
        let p = b.drop_last();
        lemma_hex_digits_of(p);
        lemma_hex2(b.last());
        let d = hex_digits_of(b);
        assert(d == hex_digits_of(p) + hex2(b.last()));
        assert forall|k: int| 0 <= k < b.len() implies d[2 * k] == hex2(#[trigger] b[k])[0]
            && d[2 * k + 1] == hex2(b[k])[1] by {
            if k < p.len() {
                assert(b[k] == p[k]);
            }
        }
        assert forall|i: int| 0 <= i < d.len() implies plain_hex_digit(#[trigger] d[i]) by {
            if i < hex_digits_of(p).len() {
                assert(d[i] == hex_digits_of(p)[i]);
            } else {
                assert(d[i] == hex2(b.last())[i - hex_digits_of(p).len()]);
            }
        }
    }
}

pub(crate) proof fn lemma_filter_keeps_all<A>(s: Seq<A>, p: spec_fn(A) -> bool)
    requires
        forall|i: int| 0 <= i < s.len() ==> p(#[trigger] s[i]),
    ensures
        s.filter(p) == s,
    decreases s.len(),
{
    reveal(Seq::filter);
    if s.len() > 0 {
        lemma_filter_keeps_all(s.drop_last(), p);
        assert(s.drop_last().push(s.last()) =~= s);
    }
}

proof fn lemma_remove_pair_absent(s: Seq<char>, a: char, b: char)
    requires
        forall|i: int| 0 <= i < s.len() ==> #[trigger] s[i] != b,
    ensures
        remove_pair(s, a, b) == s,
    decreases s.len(),
{
    if s.len() > 0 {
        assert(s.len() >= 2 ==> s[1] != b);
        lemma_remove_pair_absent(s.drop_first(), a, b);
        assert(seq![s[0]] + s.drop_first() =~= s);
    }
}

proof fn lemma_bytes_to_hex_digits(b: Seq<u8>)
    ensures
        spec_bytes_to_hex(b).filter(frame_char_pred()) == hex_digits_of(b),
    decreases b.len(),
{
    reveal(Seq::filter);
    lemma_hex_digits_of(b);
    if b.len() == 1 {
        lemma_hex2(b[0]);
        lemma_filter_keeps_all(hex2(b[0]), frame_char_pred());
        assert(hex_digits_of(b) =~= hex2(b[0]));
    } else if b.len() > 1 {
        let p = b.drop_last();
        lemma_bytes_to_hex_digits(p);
        lemma_hex2(b.last());
        lemma_filter_keeps_all(hex2(b.last()), frame_char_pred());
        let pred = frame_char_pred();
        Seq::filter_distributes_over_add(spec_bytes_to_hex(p) + seq![' '], hex2(b.last()), pred);
        Seq::filter_distributes_over_add(spec_bytes_to_hex(p), seq![' '], pred);
        assert(seq![' '].drop_last() =~= Seq::<char>::empty());
        assert(!pred(' '));
        assert(seq![' '].filter(pred) =~= Seq::<char>::empty()) by {
            reveal_with_fuel(Seq::filter, 2);
        }
        assert(spec_bytes_to_hex(p) + seq![' '] + Seq::<char>::empty() =~= spec_bytes_to_hex(p)
            + seq![' ']);
    }
}

/// Bytes rendered as hexadecimal text read back as the same bytes: for every
/// non-empty `bytes`, parsing what `bytes_to_hex` renders gives `bytes`.
pub proof fn lemma_hex_frame_round_trip(bytes: Seq<u8>)
    requires
        bytes.len() > 0,
    ensures
        spec_parse_hex_frame_text(spec_bytes_to_hex(bytes)) == Ok::<Seq<u8>, Seq<char>>(bytes),
{
    let d = hex_digits_of(bytes);
    lemma_hex_digits_of(bytes);
    lemma_bytes_to_hex_digits(bytes);
    lemma_remove_pair_absent(d, '0', 'x');
    lemma_remove_pair_absent(d, '0', 'X');
    assert(frame_digits(spec_bytes_to_hex(bytes)) == d);
    assert forall|i: int| 0 <= i < d.len() implies is_hex_char(#[trigger] d[i]) by {
        assert(plain_hex_digit(d[i]));
    }
    lemma_ascii_utf8_len(d);
    assert forall|k: int| 0 <= k < bytes.len() implies #[trigger] hex_pairs(d)[k] == bytes[k] by {
        lemma_hex2(bytes[k]);
        let x = bytes[k];
        assert(hex_val(d[2 * k]) == x / 16);
        assert(hex_val(d[2 * k + 1]) == x % 16);
        assert(16 * (x / 16) + x % 16 == x);
    }
    assert(hex_pairs(d) =~= bytes);
}


/// A digit that `clean_hex_string` gives: hexadecimal and not lower case.
pub open spec fn clean_hex_digit(c: char) -> bool {
    is_hex_char(c) && !is_ws(c) && c != 'x' && c != 'X' && upper_char(c) == c
}

proof fn lemma_upper_hex(c: char)
    requires
        is_hex_char(c),
    ensures
        clean_hex_digit(upper_char(c)),
{
}

/// What `clean_hex_string` gives is clean: of even length, made of
/// hexadecimal digits none of which is lower case; and cleaning it again
/// gives it back unchanged.
pub proof fn lemma_clean_hex_idempotent(value: Seq<char>)
    requires
        spec_clean_hex_string(value) is Some,
    ensures
        spec_clean_hex_string(value)->0.len() % 2 == 0,
        forall|i: int|
            0 <= i < spec_clean_hex_string(value)->0.len() ==> clean_hex_digit(
                #[trigger] spec_clean_hex_string(value)->0[i],
            ),
        spec_clean_hex_string(spec_clean_hex_string(value)->0) == spec_clean_hex_string(value),
{
    let h = strip_hex_prefix(trim(value)).filter(hex_pred());
    let even = if h.len() % 2 != 0 {
        seq!['0'] + h
    } else {
        h
    };
    let c = even.map_values(|x: char| upper_char(x));
    assert(spec_clean_hex_string(value) == Some(c));
    assert forall|i: int| 0 <= i < even.len() implies is_hex_char(#[trigger] even[i]) by {
        broadcast use Seq::lemma_filter_pred;
        if h.len() % 2 != 0 && i > 0 {
            assert(even[i] == h[i - 1]);
            assert(hex_pred()(h[i - 1]));
        } else if h.len() % 2 == 0 {
            assert(hex_pred()(h[i]));
        }
    }
    assert forall|i: int| 0 <= i < c.len() implies clean_hex_digit(#[trigger] c[i]) by {
        lemma_upper_hex(even[i]);
    }
    assert(c.len() % 2 == 0);
    assert(c.len() > 0);
    assert(skip_while(c, ws_pred()) == c);
    assert(skip_while_end(c, ws_pred()) == c);
    assert(trim(c) == c);
    assert(!has_hex_prefix(c));
    lemma_filter_keeps_all(c, hex_pred());
    assert(c.map_values(|x: char| upper_char(x)) =~= c);
}

} // verus!

verus! {

/// A digit character as number rendering writes it: a digit in its base,
/// neither whitespace, nor a sign, nor an `x`, and not lower case.
pub open spec fn plain_digit(c: char, radix: nat) -> bool {
    &&& digit_value(c, radix) is Some
    &&& is_hex_char(c)
    &&& !is_ws(c)
    &&& c != 'x' && c != 'X' && c != '+'
    &&& upper_char(c) == c
}

proof fn lemma_digit_char_plain(d: nat, radix: nat)
    requires
        d < radix <= 16,
    ensures
        digit_value(digit_char(d), radix) == Some(d),
        plain_digit(digit_char(d), radix),
{
}

/// The digits of `n` in base `radix` spell `n`.
pub proof fn lemma_digits_in_value(n: nat, radix: nat)
    requires
        2 <= radix <= 16,
    ensures
        digits_in(n, radix).len() >= 1,
        digits_value(digits_in(n, radix), radix) == n,
        forall|i: int|
            0 <= i < digits_in(n, radix).len() ==> plain_digit(#[trigger] digits_in(n, radix)[i], radix),
    decreases n,
{
    let s = digits_in(n, radix);
    if n < radix {
        lemma_digit_char_plain(n, radix);
        assert(s == seq![digit_char(n)]);
        assert(s.drop_last() =~= Seq::<char>::empty());
        assert(digits_value(Seq::<char>::empty(), radix) == 0);
        assert(digits_value(s, radix) == digits_value(s.drop_last(), radix) * radix + n);
        assert(0 * radix == 0);
    } else {
        assert(n / radix < n) by (nonlinear_arith)
            requires
                radix >= 2,
                n >= radix,
        ;
        assert(n % radix < radix) by (nonlinear_arith)
            requires
                radix >= 2,
        ;
        lemma_digits_in_value(n / radix, radix);
        lemma_digit_char_plain(n % radix, radix);
        let p = digits_in(n / radix, radix);
        assert(s == p.push(digit_char(n % radix)));
        assert(s.drop_last() =~= p);
        assert((n / radix) * radix + n % radix == n) by (nonlinear_arith)
            requires
                radix >= 2,
        ;
        assert(digits_value(s, radix) == digits_value(p, radix) * radix + n % radix);
        assert forall|i: int| 0 <= i < s.len() implies plain_digit(#[trigger] s[i], radix) by {
            if i < p.len() {
                assert(s[i] == p[i]);
            }
        }
    }
}

proof fn lemma_zeros_value(z: Seq<char>, radix: nat)
    requires
        forall|i: int| 0 <= i < z.len() ==> #[trigger] z[i] == '0',
        radix >= 2,
    ensures
        digits_value(z, radix) == 0,
    decreases z.len(),
{
    if z.len() > 0 {
        assert forall|i: int| 0 <= i < z.drop_last().len() implies #[trigger] z.drop_last()[i] == '0' by {
            assert(z.drop_last()[i] == z[i]);
        }
        lemma_zeros_value(z.drop_last(), radix);
        assert(z.last() == '0');
        assert(digit_value('0', radix) == Some(0nat));
        assert(digits_value(z, radix) == digits_value(z.drop_last(), radix) * radix + 0);
        assert(0 * radix == 0);
    }
}

proof fn lemma_zeros_prefix_value(z: Seq<char>, s: Seq<char>, radix: nat)
    requires
        forall|i: int| 0 <= i < z.len() ==> #[trigger] z[i] == '0',
        radix >= 2,
    ensures
        digits_value(z + s, radix) == digits_value(s, radix),
    decreases s.len(),
{
    if s.len() == 0 {
        assert(z + s =~= z);
        lemma_zeros_value(z, radix);
    } else {
        assert((z + s).drop_last() =~= z + s.drop_last());
        assert((z + s).last() == s.last());
        lemma_zeros_prefix_value(z, s.drop_last(), radix);
    }
}

/// `n` written in base `radix` and zero-padded to `width` digits reads back
/// as `n`, and is made of plain digits only.
pub proof fn lemma_padded_digits_parse(n: nat, radix: nat, width: nat, max: nat)
    requires
        2 <= radix <= 16,
        n <= max,
    ensures
        parse_unsigned(pad_zeros(digits_in(n, radix), width), radix, max) == Some(n),
        pad_zeros(digits_in(n, radix), width).len() == if digits_in(n, radix).len() >= width {
            digits_in(n, radix).len()
        } else {
            width
        },
        forall|i: int|
            0 <= i < pad_zeros(digits_in(n, radix), width).len() ==> plain_digit(
                #[trigger] pad_zeros(digits_in(n, radix), width)[i],
                radix,
            ),
{
    let d = digits_in(n, radix);
    lemma_digits_in_value(n, radix);
    lemma_digit_char_plain(0, radix);
    let t = pad_zeros(d, width);
    if d.len() < width {
        let z = Seq::new((width - d.len()) as nat, |i: int| '0');
        assert(t == z + d);
        lemma_zeros_prefix_value(z, d, radix);
        assert forall|i: int| 0 <= i < t.len() implies plain_digit(#[trigger] t[i], radix) by {
            if i < z.len() {
                assert(t[i] == '0');
                assert(digit_char(0) == '0');
            } else {
                assert(t[i] == d[i - z.len()]);
            }
        }
    }
    assert(t[0] != '+');
    assert(all_digits(t, radix));
}

/// A text of plain digits is its own trim.
pub proof fn lemma_trim_plain(s: Seq<char>)
    requires
        forall|i: int| 0 <= i < s.len() ==> !is_ws(#[trigger] s[i]),
    ensures
        trim(s) == s,
{
    assert(skip_while(s, ws_pred()) == s);
    assert(skip_while_end(s, ws_pred()) == s);
}

/// The digits `decimal_string_to_hex` gives for `n`.
pub open spec fn padded_hex(n: nat) -> Seq<char> {
    pad_zeros(digits_in(n, 16), hex_width(n))
}

/// Powers of sixteen.
pub open spec fn pow16(k: nat) -> nat
    decreases k,
{
    if k == 0 {
        1
    } else {
        16 * pow16((k - 1) as nat)
    }
}

proof fn lemma_hex_digit_count(n: nat, k: nat)
    requires
        k >= 1,
        n < pow16(k),
    ensures
        digits_in(n, 16).len() <= k,
    decreases k,
{
    if n >= 16 {
        if k == 1 {
            assert(pow16(1) == 16) by {
                reveal_with_fuel(pow16, 2);
            }
        } else {
            let p = pow16((k - 1) as nat);
            assert(n / 16 < p) by (nonlinear_arith)
                requires
                    n < 16 * p,
            ;
            lemma_hex_digit_count(n / 16, (k - 1) as nat);
        }
    }
}

/// `a` spells the digits `b`, each in either ASCII case.
pub open spec fn same_digits_any_case(a: Seq<char>, b: Seq<char>) -> bool {
    a.len() == b.len() && forall|i: int| 0 <= i < a.len() ==> upper_char(#[trigger] a[i]) == b[i]
}

proof fn lemma_digit_any_case(c: char, d: char)
    requires
        upper_char(c) == d,
        plain_digit(d, 16),
    ensures
        digit_value(c, 16) == digit_value(d, 16),
        !is_ws(c),
        c != '+',
{
}

proof fn lemma_digits_any_case(a: Seq<char>, b: Seq<char>)
    requires
        same_digits_any_case(a, b),
        forall|i: int| 0 <= i < b.len() ==> plain_digit(#[trigger] b[i], 16),
    ensures
        all_digits(a, 16),
        digits_value(a, 16) == digits_value(b, 16),
        forall|i: int| 0 <= i < a.len() ==> !is_ws(#[trigger] a[i]) && a[i] != '+',
    decreases a.len(),
{
    assert forall|i: int| 0 <= i < a.len() implies digit_value(#[trigger] a[i], 16) == digit_value(
        b[i],
        16,
    ) && !is_ws(a[i]) && a[i] != '+' by {
        lemma_digit_any_case(a[i], b[i]);
    }
    if a.len() > 0 {
        assert(same_digits_any_case(a.drop_last(), b.drop_last()));
        lemma_digits_any_case(a.drop_last(), b.drop_last());
        assert(digit_value(a.last(), 16) == digit_value(b.last(), 16));
    }
}

/// A number written in decimal, or as `0x` or `0X` and its hexadecimal
/// digits in either case, with any whitespace around it, is rewritten by
/// `decimal_string_to_hex` as upper case hexadecimal digits that read back
/// as the same number, zero-padded to 2, 4, 6 or 8 digits by its size; so
/// the length is even whenever the number fits in 32 bits.
pub proof fn lemma_decimal_to_hex_round_trip(n: u64, value: Seq<char>, digits: Seq<char>, x: char)
    requires
        trim(value) == digits_in(n as nat, 10) || ((x == 'x' || x == 'X') && same_digits_any_case(
            digits,
            digits_in(n as nat, 16),
        ) && trim(value) == seq!['0', x] + digits),
    ensures
        spec_decimal_string_to_hex(value) == Some(padded_hex(n as nat)),
        parse_unsigned(padded_hex(n as nat), 16, u64::MAX as nat) == Some(n as nat),
        forall|i: int|
            0 <= i < padded_hex(n as nat).len() ==> is_hex_char(#[trigger] padded_hex(n as nat)[i])
                && upper_char(padded_hex(n as nat)[i]) == padded_hex(n as nat)[i],
        padded_hex(n as nat).len() >= hex_width(n as nat),
        n <= u32::MAX ==> padded_hex(n as nat).len() == hex_width(n as nat),
        n <= u32::MAX ==> padded_hex(n as nat).len() % 2 == 0,
{
    let m = n as nat;
    let dec = digits_in(m, 10);
    let hex = digits_in(m, 16);
    lemma_digits_in_value(m, 10);
    lemma_digits_in_value(m, 16);
    lemma_padded_digits_parse(m, 10, 0, u64::MAX as nat);
    lemma_padded_digits_parse(m, 16, hex_width(m), u64::MAX as nat);
    assert(pad_zeros(dec, 0) == dec);
    let t = trim(value);
    if t == dec {
        assert(!has_hex_prefix(dec));
        assert(parse_u64_text(t) == Some(m));
    } else {
        lemma_digits_any_case(digits, hex);
        assert(has_hex_prefix(t));
        assert(t.skip(2) =~= digits);
        assert(digits[0] != '+');
        assert(parse_unsigned(digits, 16, u64::MAX as nat) == Some(m));
        assert(parse_u64_text(t) == Some(m));
    }
    if n <= u32::MAX {
        reveal_with_fuel(pow16, 9);
        if m <= 0xFF {
            lemma_hex_digit_count(m, 2);
        } else if m <= 0xFFFF {
            lemma_hex_digit_count(m, 4);
        } else if m <= 0xFF_FFFF {
            lemma_hex_digit_count(m, 6);
        } else {
            lemma_hex_digit_count(m, 8);
        }
    }
}

} // verus!

verus! {

proof fn lemma_common_suffix(l: Seq<char>, a: Seq<char>, b: Seq<char>, k: int)
    requires
        ends_with(l, a),
        ends_with(l, b),
        0 <= k < a.len(),
        k < b.len(),
    ensures
        a[a.len() - 1 - k] == b[b.len() - 1 - k],
{
    assert(l.subrange(l.len() - a.len(), l.len() as int)[a.len() - 1 - k] == l[l.len() - 1 - k]);
    assert(l.subrange(l.len() - b.len(), l.len() as int)[b.len() - 1 - k] == l[l.len() - 1 - k]);
}

proof fn lemma_endings_exclusive(l: Seq<char>, a: Seq<char>, b: Seq<char>, k: int)
    requires
        ends_with(l, a),
        0 <= k < a.len(),
        k < b.len(),
        a[a.len() - 1 - k] != b[b.len() - 1 - k],
    ensures
        !ends_with(l, b),
{
    if ends_with(l, b) {
        lemma_common_suffix(l, a, b, k);
    }
}

proof fn lemma_odx_endings_exclusive(l: Seq<char>)
    requires
        has_odx_ending(l),
    ensures
        !ends_with(l, ".pdx"@),
        !ends_with(l, ".mdd"@),
{
    reveal_strlit(".pdx");
    reveal_strlit(".mdd");
    reveal_strlit(".odx");
    reveal_strlit(".odx-d");
    reveal_strlit(".odx-f");
    reveal_strlit(".odx-c");
    reveal_strlit(".odx-cs");
    reveal_strlit(".odx-e");
    if ends_with(l, ".odx"@) {
        assert(".odx"@[1] != ".pdx"@[1]);
        lemma_endings_exclusive(l, ".odx"@, ".pdx"@, 2);
        assert(".odx"@[3] != ".mdd"@[3]);
        lemma_endings_exclusive(l, ".odx"@, ".mdd"@, 0);
    } else if ends_with(l, ".odx-d"@) {
        assert(".odx-d"@[5] != ".pdx"@[3]);
        lemma_endings_exclusive(l, ".odx-d"@, ".pdx"@, 0);
        assert(".odx-d"@[4] != ".mdd"@[2]);
        lemma_endings_exclusive(l, ".odx-d"@, ".mdd"@, 1);
    } else if ends_with(l, ".odx-f"@) {
        assert(".odx-f"@[5] != ".pdx"@[3] && ".odx-f"@[5] != ".mdd"@[3]);
        lemma_endings_exclusive(l, ".odx-f"@, ".pdx"@, 0);
        lemma_endings_exclusive(l, ".odx-f"@, ".mdd"@, 0);
    } else if ends_with(l, ".odx-c"@) {
        assert(".odx-c"@[5] != ".pdx"@[3] && ".odx-c"@[5] != ".mdd"@[3]);
        lemma_endings_exclusive(l, ".odx-c"@, ".pdx"@, 0);
        lemma_endings_exclusive(l, ".odx-c"@, ".mdd"@, 0);
    } else if ends_with(l, ".odx-cs"@) {
        assert(".odx-cs"@[6] != ".pdx"@[3] && ".odx-cs"@[6] != ".mdd"@[3]);
        lemma_endings_exclusive(l, ".odx-cs"@, ".pdx"@, 0);
        lemma_endings_exclusive(l, ".odx-cs"@, ".mdd"@, 0);
    } else {
        assert(ends_with(l, ".odx-e"@));
        assert(".odx-e"@[5] != ".pdx"@[3] && ".odx-e"@[5] != ".mdd"@[3]);
        lemma_endings_exclusive(l, ".odx-e"@, ".pdx"@, 0);
        lemma_endings_exclusive(l, ".odx-e"@, ".mdd"@, 0);
    }
}

/// A file's kind follows from the ending of its name alone, ignoring ASCII
/// case: `pdx` exactly for `.pdx`, `mdd` exactly for `.mdd`, `odx` exactly
/// for the six ODX endings, and no kind for any other name.
pub proof fn lemma_diagnostic_kind_endings(name: Seq<char>)
    ensures
        spec_diagnostic_kind(name) == Some("pdx"@) <==> ends_with(lower(name), ".pdx"@),
        spec_diagnostic_kind(name) == Some("mdd"@) <==> ends_with(lower(name), ".mdd"@),
        spec_diagnostic_kind(name) == Some("odx"@) <==> has_odx_ending(lower(name)),
        spec_diagnostic_kind(name) is None <==> (!ends_with(lower(name), ".pdx"@) && !ends_with(
            lower(name),
            ".mdd"@,
        ) && !has_odx_ending(lower(name))),
{
    reveal_strlit("pdx");
    reveal_strlit("mdd");
    reveal_strlit("odx");
    reveal_strlit(".pdx");
    reveal_strlit(".mdd");
    let l = lower(name);
    assert("pdx"@ != "mdd"@ && "pdx"@ != "odx"@ && "mdd"@ != "odx"@) by {
        assert("pdx"@[0] != "mdd"@[0]);
        assert("pdx"@[0] != "odx"@[0]);
        assert("mdd"@[0] != "odx"@[0]);
    }
    if ends_with(l, ".pdx"@) {
        assert(".pdx"@[3] != ".mdd"@[3]);
        lemma_endings_exclusive(l, ".pdx"@, ".mdd"@, 0);
    }
    if has_odx_ending(l) {
        lemma_odx_endings_exclusive(l);
    }
}

} // verus!

verus! {

/// Each of the six ODX endings, in any ASCII case, makes a file an ODX
/// source (and an ODX entry of a PDX archive); `.pdx` and `.mdd` make it a
/// PDX or MDD source.
pub proof fn lemma_odx_endings_are_odx(name: Seq<char>)
    ensures
        ends_with(lower(name), ".odx"@) ==> spec_diagnostic_kind(name) == Some("odx"@) && has_odx_ending(lower(name)),
        ends_with(lower(name), ".odx-d"@) ==> spec_diagnostic_kind(name) == Some("odx"@) && has_odx_ending(lower(name)),
        ends_with(lower(name), ".odx-f"@) ==> spec_diagnostic_kind(name) == Some("odx"@) && has_odx_ending(lower(name)),
        ends_with(lower(name), ".odx-c"@) ==> spec_diagnostic_kind(name) == Some("odx"@) && has_odx_ending(lower(name)),
        ends_with(lower(name), ".odx-cs"@) ==> spec_diagnostic_kind(name) == Some("odx"@) && has_odx_ending(lower(name)),
        ends_with(lower(name), ".odx-e"@) ==> spec_diagnostic_kind(name) == Some("odx"@) && has_odx_ending(lower(name)),
        ends_with(lower(name), ".pdx"@) ==> spec_diagnostic_kind(name) == Some("pdx"@),
        ends_with(lower(name), ".mdd"@) ==> spec_diagnostic_kind(name) == Some("mdd"@),
{
    lemma_diagnostic_kind_endings(name);
}

} // verus!
