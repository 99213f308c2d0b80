//! Character-level text helpers with exact specifications: Unicode
//! whitespace, trimming, whitespace splitting, decimal numbers.
use vstd::prelude::*;
use vstd::arithmetic::power::pow;

verus! {

/// The characters with the Unicode `White_Space` property.
pub open spec fn is_ws(c: char) -> bool {
    let u = c as u32;
    ||| (0x09 <= u && u <= 0x0D)
    ||| u == 0x20
    ||| u == 0x85
    ||| u == 0xA0
    ||| u == 0x1680
    ||| (0x2000 <= u && u <= 0x200A)
    ||| u == 0x2028
    ||| u == 0x2029
    ||| u == 0x202F
    ||| u == 0x205F
    ||| u == 0x3000
}

/// Executable test of [`is_ws`].
pub fn is_whitespace_char(c: char) -> (r: bool)
    ensures
        r == is_ws(c),
{
    let u: u32 = c as u32;
    (0x09 <= u && u <= 0x0D) || u == 0x20 || u == 0x85 || u == 0xA0 || u == 0x1680 || (0x2000
        <= u && u <= 0x200A) || u == 0x2028 || u == 0x2029 || u == 0x202F || u == 0x205F || u
        == 0x3000
}

/// The characters of `s`, in order.
pub fn chars_of(s: &str) -> (v: Vec<char>)
    ensures
        v@ == s@,
{
    let n: usize = s.unicode_len();
    let mut v: Vec<char> = Vec::new();
    let mut i: usize = 0;
    while i < n
        invariant
            n == s@.len(),
            i <= n,
            v@ == s@.subrange(0, i as int),
        decreases n - i,
    {
        let c: char = s.get_char(i);
        v.push(c);
        i = i + 1;
        assert(v@ =~= s@.subrange(0, i as int));
    }
    assert(v@ =~= s@);
    v
}

/// Appends `c` to `s` (`String::push`).
#[verifier::external_body]
fn string_push(s: &mut String, c: char)
    ensures
        final(s)@ == old(s)@.push(c),
{
    s.push(c);
}

/// A `String` holding exactly the characters `cs[from..to]`.
pub fn string_from_range(cs: &Vec<char>, from: usize, to: usize) -> (r: String)
    requires
        from <= to <= cs@.len(),
    ensures
        r@ == cs@.subrange(from as int, to as int),
{
    let mut r: String = String::new();
    let mut i: usize = from;
    while i < to
        invariant
            from <= i <= to <= cs@.len(),
            r@ == cs@.subrange(from as int, i as int),
        decreases to - i,
    {
        string_push(&mut r, cs[i]);
        i = i + 1;
        assert(r@ =~= cs@.subrange(from as int, i as int));
    }
    r
}

/// A `String` holding exactly the characters of `cs`.
pub fn string_from_chars(cs: &Vec<char>) -> (r: String)
    ensures
        r@ == cs@,
{
    let r = string_from_range(cs, 0, cs.len());
    assert(cs@.subrange(0, cs@.len() as int) =~= cs@);
    r
}

/// Index of the first non-whitespace character of `s` at or after `i`
/// (or `s.len()` when there is none).
pub open spec fn skip_ws(s: Seq<char>, i: int) -> int
    decreases s.len() - i,
{
    if 0 <= i < s.len() && is_ws(s[i]) {
        skip_ws(s, i + 1)
    } else {
        i
    }
}

/// Index of the first whitespace character of `s` at or after `i`
/// (or `s.len()` when there is none).
pub open spec fn skip_word(s: Seq<char>, i: int) -> int
    decreases s.len() - i,
{
    if 0 <= i < s.len() && !is_ws(s[i]) {
        skip_word(s, i + 1)
    } else {
        i
    }
}

/// One past the last non-whitespace character of `s[..e]` (or 0).
pub open spec fn skip_ws_back(s: Seq<char>, e: int) -> int
    decreases e,
{
    if 0 < e <= s.len() && is_ws(s[e - 1]) {
        skip_ws_back(s, e - 1)
    } else {
        e
    }
}

/// `s` without its leading and trailing whitespace.
pub open spec fn trimmed(s: Seq<char>) -> Seq<char> {
    let b = skip_ws(s, 0);
    let e = skip_ws_back(s, s.len() as int);
    if b < e {
        s.subrange(b, e)
    } else {
        Seq::empty()
    }
}

/// The maximal runs of non-whitespace characters of `s` from index `i` on.
pub open spec fn words_from(s: Seq<char>, i: int) -> Seq<Seq<char>>
    decreases s.len() - i,
{
    if i < 0 || i >= s.len() {
        Seq::empty()
    } else {
        let j = skip_ws(s, i);
        if j >= s.len() {
            Seq::empty()
        } else {
            let k = skip_word(s, j);
            if j < i || k <= j || k > s.len() {
                Seq::empty()
            } else {
                seq![s.subrange(j, k)] + words_from(s, k)
            }
        }
    }
}

/// A string that is not blank after trimming has at least one word.
pub proof fn lemma_trimmed_has_word(s: Seq<char>)
    requires
        trimmed(s).len() > 0,
    ensures
        words(trimmed(s)).len() > 0,
{
    let b = skip_ws(s, 0);
    let e = skip_ws_back(s, s.len() as int);
    lemma_skip_ws_bounds(s, 0);
    lemma_skip_ws_back_bounds(s, s.len() as int);
    let t = trimmed(s);
    assert(t[0] == s[b]);
    assert(skip_ws(t, 0) == 0);
    lemma_skip_word_bounds(t, 0);
    assert(skip_word(t, 0) >= 1);
}

/// The whitespace-separated words of `s`, in order.
pub open spec fn words(s: Seq<char>) -> Seq<Seq<char>> {
    words_from(s, 0)
}

proof fn lemma_skip_ws_bounds(s: Seq<char>, i: int)
    requires
        0 <= i <= s.len(),
    ensures
        i <= skip_ws(s, i) <= s.len(),
        forall|t: int| i <= t < skip_ws(s, i) ==> is_ws(#[trigger] s[t]),
        skip_ws(s, i) < s.len() ==> !is_ws(s[skip_ws(s, i)]),
    decreases s.len() - i,
{
    if i < s.len() && is_ws(s[i]) {
        lemma_skip_ws_bounds(s, i + 1);
    }
}

proof fn lemma_skip_word_bounds(s: Seq<char>, i: int)
    requires
        0 <= i <= s.len(),
    ensures
        i <= skip_word(s, i) <= s.len(),
        forall|t: int| i <= t < skip_word(s, i) ==> !is_ws(#[trigger] s[t]),
        skip_word(s, i) < s.len() ==> is_ws(s[skip_word(s, i)]),
    decreases s.len() - i,
{
    if i < s.len() && !is_ws(s[i]) {
        lemma_skip_word_bounds(s, i + 1);
    }
}

proof fn lemma_skip_ws_back_bounds(s: Seq<char>, e: int)
    requires
        0 <= e <= s.len(),
    ensures
        0 <= skip_ws_back(s, e) <= e,
        forall|t: int| skip_ws_back(s, e) <= t < e ==> is_ws(#[trigger] s[t]),
        skip_ws_back(s, e) > 0 ==> !is_ws(s[skip_ws_back(s, e) - 1]),
    decreases e,
{
    if 0 < e && is_ws(s[e - 1]) {
        lemma_skip_ws_back_bounds(s, e - 1);
    }
}

/// Index of the first non-whitespace character at or after `i`.
fn exec_skip_ws(cs: &Vec<char>, i: usize) -> (r: usize)
    requires
        i <= cs@.len(),
    ensures
        r == skip_ws(cs@, i as int),
        i <= r <= cs@.len(),
{
    let mut j: usize = i;
    while j < cs.len() && is_whitespace_char(cs[j])
        invariant
            i <= j <= cs@.len(),
            skip_ws(cs@, i as int) == skip_ws(cs@, j as int),
        decreases cs@.len() - j,
    {
        j = j + 1;
    }
    j
}

/// Index of the first whitespace character at or after `i`.
fn exec_skip_word(cs: &Vec<char>, i: usize) -> (r: usize)
    requires
        i <= cs@.len(),
    ensures
        r == skip_word(cs@, i as int),
        i <= r <= cs@.len(),
{
    let mut j: usize = i;
    while j < cs.len() && !is_whitespace_char(cs[j])
        invariant
            i <= j <= cs@.len(),
            skip_word(cs@, i as int) == skip_word(cs@, j as int),
        decreases cs@.len() - j,
    {
        j = j + 1;
    }
    j
}

/// `s` without leading and trailing whitespace (`str::trim`).
pub fn trim(s: &str) -> (r: String)
    ensures
        r@ == trimmed(s@),
{
    let cs = chars_of(s);
    let b = exec_skip_ws(&cs, 0);
    let mut e: usize = cs.len();
    while e > 0 && is_whitespace_char(cs[e - 1])
        invariant
            e <= cs@.len(),
            skip_ws_back(cs@, cs@.len() as int) == skip_ws_back(cs@, e as int),
        decreases e,
    {
        e = e - 1;
    }
    if b < e {
        string_from_range(&cs, b, e)
    } else {
        String::new()
    }
}

/// The whitespace-separated words of `s` (`str::split_whitespace`).
pub fn split_words(s: &str) -> (r: Vec<String>)
    ensures
        r@.len() == words(s@).len(),
        forall|k: int| 0 <= k < r@.len() ==> #[trigger] r@[k]@ == words(s@)[k],
{
    let cs = chars_of(s);
    let mut r: Vec<String> = Vec::new();
    let mut i: usize = 0;
    let ghost mut got: Seq<Seq<char>> = Seq::empty();
    loop
        invariant
            i <= cs@.len(),
            cs@ == s@,
            r@.len() == got.len(),
            forall|k: int| 0 <= k < r@.len() ==> #[trigger] r@[k]@ == got[k],
            got + words_from(cs@, i as int) == words(s@),
        decreases cs@.len() - i,
    {
        let j = exec_skip_ws(&cs, i);
        if j >= cs.len() {
            proof {
                assert(words_from(cs@, i as int) =~= Seq::<Seq<char>>::empty());
                assert(got =~= words(s@));
            }
            return r;
        }
        let k = exec_skip_word(&cs, j);
        proof {
            lemma_skip_ws_bounds(cs@, i as int);
            lemma_skip_word_bounds(cs@, j as int);
        }
        let w = string_from_range(&cs, j, k);
        proof {
            let tail = words_from(cs@, k as int);
            assert(words_from(cs@, i as int) == seq![cs@.subrange(j as int, k as int)] + tail);
            got = got.push(cs@.subrange(j as int, k as int));
            assert(got + tail =~= (got.drop_last() + seq![cs@.subrange(j as int, k as int)]) + tail);
        }
        r.push(w);
        i = k;
    }
}


/// The code point of `c` after ASCII lower-casing; other characters keep
/// their code point.
pub open spec fn lower_code(c: char) -> u32 {
    if 'A' <= c && c <= 'Z' {
        ((c as u32) + 32) as u32
    } else {
        c as u32
    }
}

/// `word` is `lower` up to the case of ASCII letters; `lower` is written in
/// lower case.
pub open spec fn matches_keyword(word: Seq<char>, lower: Seq<char>) -> bool {
    &&& word.len() == lower.len()
    &&& forall|i: int| 0 <= i < word.len() ==> lower_code(#[trigger] word[i]) == lower[i] as u32
}

/// Executable test of [`matches_keyword`].
pub fn keyword_eq(word: &str, lower: &str) -> (r: bool)
    ensures
        r == matches_keyword(word@, lower@),
{
    let w = chars_of(word);
    let l = chars_of(lower);
    if w.len() != l.len() {
        return false;
    }
    let mut i: usize = 0;
    while i < w.len()
        invariant
            w@ == word@,
            l@ == lower@,
            w@.len() == l@.len(),
            i <= w@.len(),
            forall|t: int| 0 <= t < i ==> lower_code(#[trigger] w@[t]) == l@[t] as u32,
        decreases w@.len() - i,
    {
        let c: char = w[i];
        let code: u32 = if 'A' <= c && c <= 'Z' {
            (c as u32) + 32
        } else {
            c as u32
        };
        if code != (l[i] as u32) {
            return false;
        }
        i = i + 1;
    }
    true
}

/// `c` is an ASCII decimal digit.
pub open spec fn is_digit(c: char) -> bool {
    '0' <= c && c <= '9'
}

/// Every character of `d` is an ASCII digit.
pub open spec fn all_digits(d: Seq<char>) -> bool {
    forall|i: int| 0 <= i < d.len() ==> is_digit(#[trigger] d[i])
}

/// The value of the digit `c`.
pub open spec fn digit_value(c: char) -> nat {
    ((c as u32) - ('0' as u32)) as nat
}

/// The number that the decimal digits `d` spell (0 for no digits).
pub open spec fn digits_value(d: Seq<char>) -> nat
    decreases d.len(),
{
    if d.len() == 0 {
        0
    } else {
        digits_value(d.drop_last()) * 10 + digit_value(d.last())
    }
}

/// `s` without one leading `+`.
pub open spec fn unsigned_part(s: Seq<char>) -> Seq<char> {
    if s.len() > 0 && s[0] == '+' {
        s.drop_first()
    } else {
        s
    }
}

/// What `str::parse::<u16>` gives: an optional `+` sign, then one or more
/// ASCII digits whose value fits in 16 bits; anything else is no number.
pub open spec fn parse_u16_spec(s: Seq<char>) -> Option<u16> {
    let d = unsigned_part(s);
    if d.len() == 0 || !all_digits(d) || digits_value(d) > 0xFFFF {
        None
    } else {
        Some(digits_value(d) as u16)
    }
}

proof fn lemma_digits_value_prefix(d: Seq<char>, i: int)
    requires
        0 <= i <= d.len(),
        forall|t: int| 0 <= t < d.len() ==> is_digit(#[trigger] d[t]),
    ensures
        digits_value(d.subrange(0, i)) <= digits_value(d),
    decreases d.len() - i,
{
    if i < d.len() {
        lemma_digits_value_prefix(d, i + 1);
        assert(d.subrange(0, i + 1).drop_last() =~= d.subrange(0, i));
    } else {
        assert(d.subrange(0, i) =~= d);
    }
}

/// Parses a decimal `u16` exactly as `str::parse::<u16>` does.
pub fn parse_u16(s: &str) -> (r: Option<u16>)
    ensures
        r == parse_u16_spec(s@),
{
    let cs = chars_of(s);
    let start: usize = if cs.len() > 0 && cs[0] == '+' {
        1
    } else {
        0
    };
    let ghost d = unsigned_part(s@);
    assert(d =~= cs@.subrange(start as int, cs@.len() as int));
    if start >= cs.len() {
        return None;
    }
    let mut v: u32 = 0;
    let mut i: usize = start;
    while i < cs.len()
        invariant
            cs@ == s@,
            start <= i <= cs@.len(),
            start < cs@.len(),
            d == cs@.subrange(start as int, cs@.len() as int),
            d == unsigned_part(s@),
            forall|t: int| start <= t < i ==> is_digit(#[trigger] cs@[t]),
            v == digits_value(cs@.subrange(start as int, i as int)),
            v <= 0xFFFF,
        decreases cs@.len() - i,
    {
        let c: char = cs[i];
        if !('0' <= c && c <= '9') {
            proof {
                assert(d[i - start] == cs@[i as int]);
                assert(!is_digit(d[i - start]));
                assert(!all_digits(d));
                assert(parse_u16_spec(s@) == None::<u16>);
            }
            return None;
        }
        let nv: u32 = v * 10 + ((c as u32) - ('0' as u32));
        proof {
            let pre = cs@.subrange(start as int, i as int);
            let nxt = cs@.subrange(start as int, i + 1);
            assert(nxt.drop_last() =~= pre);
            assert(nxt.last() == c);
            assert(digits_value(nxt) == digits_value(pre) * 10 + digit_value(c));
        }
        if nv > 0xFFFF {
            proof {
                let nxt = cs@.subrange(start as int, i + 1);
                if all_digits(d) {
                    lemma_digits_value_prefix(d, i + 1 - start);
                    assert(d.subrange(0, i + 1 - start) =~= nxt);
                    assert(digits_value(d) > 0xFFFF);
                }
            }
            return None;
        }
        v = nv;
        i = i + 1;
    }
    proof {
        assert(cs@.subrange(start as int, i as int) =~= d);
        assert forall|t: int| 0 <= t < d.len() implies is_digit(#[trigger] d[t]) by {
            assert(d[t] == cs@[t + start]);
        }
    }
    Some(v as u16)
}

/// The decimal digits of `n` without leading zeros ("0" for zero).
pub open spec fn decimal(n: nat) -> Seq<char>
    decreases n,
{
    if n < 10 {
        seq![digit_char(n)]
    } else {
        decimal(n / 10).push(digit_char(n % 10))
    }
}

/// The ASCII digit for `d` (`d < 10`).
pub open spec fn digit_char(d: nat) -> char {
    if d == 0 {
        '0'
    } else if d == 1 {
        '1'
    } else if d == 2 {
        '2'
    } else if d == 3 {
        '3'
    } else if d == 4 {
        '4'
    } else if d == 5 {
        '5'
    } else if d == 6 {
        '6'
    } else if d == 7 {
        '7'
    } else if d == 8 {
        '8'
    } else {
        '9'
    }
}

fn exec_digit_char(d: u16) -> (c: char)
    requires
        d < 10,
    ensures
        c == digit_char(d as nat),
{
    if d == 0 {
        '0'
    } else if d == 1 {
        '1'
    } else if d == 2 {
        '2'
    } else if d == 3 {
        '3'
    } else if d == 4 {
        '4'
    } else if d == 5 {
        '5'
    } else if d == 6 {
        '6'
    } else if d == 7 {
        '7'
    } else if d == 8 {
        '8'
    } else {
        '9'
    }
}

proof fn lemma_digit_char(k: nat)
    requires
        k < 10,
    ensures
        is_digit(digit_char(k)),
        digit_value(digit_char(k)) == k,
{
    assert('0' as u32 == 48);
    assert('1' as u32 == 49);
    assert('2' as u32 == 50);
    assert('3' as u32 == 51);
    assert('4' as u32 == 52);
    assert('5' as u32 == 53);
    assert('6' as u32 == 54);
    assert('7' as u32 == 55);
    assert('8' as u32 == 56);
    assert('9' as u32 == 57);
}

proof fn lemma_decimal_digits(n: nat)
    ensures
        decimal(n).len() >= 1,
        forall|i: int| 0 <= i < decimal(n).len() ==> is_digit(#[trigger] decimal(n)[i]),
        digits_value(decimal(n)) == n,
    decreases n,
{
    if n >= 10 {
        lemma_decimal_digits(n / 10);
        lemma_digit_char(n % 10);
        let d = decimal(n);
        assert(d.drop_last() =~= decimal(n / 10));
        assert(d.last() == digit_char(n % 10));
        assert(digits_value(d) == digits_value(decimal(n / 10)) * 10 + digit_value(digit_char(n % 10)));
        assert((n / 10) * 10 + n % 10 == n);
        assert(digits_value(d) == n);
        assert forall|i: int| 0 <= i < d.len() implies is_digit(#[trigger] d[i]) by {
            if i < d.len() - 1 {
                assert(d[i] == decimal(n / 10)[i]);
            }
        }
    } else {
        lemma_digit_char(n);
        let d = decimal(n);
        assert(d.drop_last() =~= Seq::<char>::empty());
        assert(digits_value(d.drop_last()) == 0);
        assert(d.last() == digit_char(n));
        assert(digits_value(d) == n);
    }
}

/// `decimal(n)` always reads back as `n`.
pub proof fn lemma_parse_decimal_u16(n: u16)
    ensures
        parse_u16_spec(decimal(n as nat)) == Some(n),
{
    lemma_decimal_digits(n as nat);
    let d = decimal(n as nat);
    if d[0] == '+' {
        assert(is_digit(d[0]));
    }
}

/// The decimal representation of `n` (`u16::to_string`).
pub fn format_u16(n: u16) -> (r: String)
    ensures
        r@ == decimal(n as nat),
    decreases n,
{
    if n < 10 {
        let c: char = exec_digit_char(n);
        let mut r: String = String::new();
        string_push(&mut r, c);
        assert(r@ =~= decimal(n as nat));
        r
    } else {
        let mut r = format_u16(n / 10);
        let c: char = exec_digit_char(n % 10);
        string_push(&mut r, c);
        r
    }
}

/// `s` contains the character `c`.
pub open spec fn has_char(s: Seq<char>, c: char) -> bool {
    exists|i: int| 0 <= i < s.len() && s[i] == c
}

/// Executable test of [`has_char`].
pub fn contains_char(s: &str, c: char) -> (r: bool)
    ensures
        r == has_char(s@, c),
{
    let cs = chars_of(s);
    let mut i: usize = 0;
    while i < cs.len()
        invariant
            cs@ == s@,
            i <= cs@.len(),
            forall|t: int| 0 <= t < i ==> cs@[t] != c,
        decreases cs@.len() - i,
    {
        if cs[i] == c {
            return true;
        }
        i = i + 1;
    }
    false
}

/// The characters of `s` before the first `c` (all of `s` when there is no
/// `c`): the first piece of `s.split(c)`.
pub open spec fn before_char(s: Seq<char>, c: char) -> Seq<char>
    decreases s.len(),
{
    if s.len() == 0 {
        s
    } else if s[0] == c {
        Seq::empty()
    } else {
        seq![s[0]] + before_char(s.drop_first(), c)
    }
}

proof fn lemma_before_char_index(s: Seq<char>, c: char, i: int)
    requires
        0 <= i <= s.len(),
        forall|t: int| 0 <= t < i ==> s[t] != c,
        i == s.len() || s[i] == c,
    ensures
        before_char(s, c) == s.subrange(0, i),
    decreases s.len(),
{
    if s.len() == 0 {
        assert(s.subrange(0, i) =~= s);
    } else if i == 0 {
        assert(s.subrange(0, 0) =~= Seq::<char>::empty());
    } else {
        lemma_before_char_index(s.drop_first(), c, i - 1);
        assert(seq![s[0]] + s.drop_first().subrange(0, i - 1) =~= s.subrange(0, i));
    }
}

/// The first piece of `s.split(c)`.
pub fn prefix_before(s: &str, c: char) -> (r: String)
    ensures
        r@ == before_char(s@, c),
{
    let cs = chars_of(s);
    let mut i: usize = 0;
    while i < cs.len() && cs[i] != c
        invariant
            cs@ == s@,
            i <= cs@.len(),
            forall|t: int| 0 <= t < i ==> cs@[t] != c,
        decreases cs@.len() - i,
    {
        i = i + 1;
    }
    proof {
        lemma_before_char_index(s@, c, i as int);
    }
    string_from_range(&cs, 0, i)
}

/// `s` with every `from` replaced by `to`.
pub open spec fn replaced(s: Seq<char>, from: char, to: char) -> Seq<char> {
    s.map_values(|x: char| if x == from { to } else { x })
}

/// `s.replace(from, to)` for single characters.
pub fn replace_char(s: &str, from: char, to: char) -> (r: String)
    ensures
        r@ == replaced(s@, from, to),
{
    let cs = chars_of(s);
    let mut r: String = String::new();
    let mut i: usize = 0;
    while i < cs.len()
        invariant
            cs@ == s@,
            i <= cs@.len(),
            r@ == replaced(cs@.subrange(0, i as int), from, to),
        decreases cs@.len() - i,
    {
        let x: char = cs[i];
        if x == from {
            string_push(&mut r, to);
        } else {
            string_push(&mut r, x);
        }
        i = i + 1;
        assert(r@ =~= replaced(cs@.subrange(0, i as int), from, to));
    }
    assert(cs@.subrange(0, cs@.len() as int) =~= cs@);
    r
}

/// The last character of `s` is `c`.
pub open spec fn ends_with_char(s: Seq<char>, c: char) -> bool {
    s.len() > 0 && s.last() == c
}

/// Executable test of [`ends_with_char`].
pub fn last_char_is(s: &str, c: char) -> (r: bool)
    ensures
        r == ends_with_char(s@, c),
{
    let n: usize = s.unicode_len();
    if n == 0 {
        false
    } else {
        s.get_char(n - 1) == c
    }
}

/// The concatenation of two strings.
pub fn concat2(a: &str, b: &str) -> (r: String)
    ensures
        r@ == a@ + b@,
{
    let s = a.to_owned();
    s.concat(b)
}

/// The concatenation of three strings.
pub fn concat3(a: &str, b: &str, c: &str) -> (r: String)
    ensures
        r@ == a@ + b@ + c@,
{
    let s = a.to_owned();
    let s = s.concat(b);
    s.concat(c)
}


/// Index of the first character of `s` at or after `i` that is not `c`.
pub open spec fn skip_char(s: Seq<char>, c: char, i: int) -> int
    decreases s.len() - i,
{
    if 0 <= i < s.len() && s[i] == c {
        skip_char(s, c, i + 1)
    } else {
        i
    }
}

/// One past the last character of `s[..e]` that is not `c` (or 0).
pub open spec fn skip_char_back(s: Seq<char>, c: char, e: int) -> int
    decreases e,
{
    if 0 < e <= s.len() && s[e - 1] == c {
        skip_char_back(s, c, e - 1)
    } else {
        e
    }
}

/// `s` without the characters `c` at either end (`str::trim_matches`).
pub open spec fn stripped(s: Seq<char>, c: char) -> Seq<char> {
    let b = skip_char(s, c, 0);
    let e = skip_char_back(s, c, s.len() as int);
    if b < e {
        s.subrange(b, e)
    } else {
        Seq::empty()
    }
}

/// `s.trim_matches(c)` for one character `c`.
pub fn trim_char(s: &str, c: char) -> (r: String)
    ensures
        r@ == stripped(s@, c),
{
    let cs = chars_of(s);
    let mut b: usize = 0;
    while b < cs.len() && cs[b] == c
        invariant
            cs@ == s@,
            b <= cs@.len(),
            skip_char(cs@, c, 0) == skip_char(cs@, c, b as int),
        decreases cs@.len() - b,
    {
        b = b + 1;
    }
    let mut e: usize = cs.len();
    while e > 0 && cs[e - 1] == c
        invariant
            cs@ == s@,
            e <= cs@.len(),
            skip_char_back(cs@, c, cs@.len() as int) == skip_char_back(cs@, c, e as int),
        decreases e,
    {
        e = e - 1;
    }
    if b < e {
        string_from_range(&cs, b, e)
    } else {
        String::new()
    }
}


/// Trimming keeps one stretch of `s` and drops only whitespace: what goes
/// before and after it is whitespace, and the stretch, when not empty,
/// starts and ends with a character that is not.
pub proof fn law_trim_drops_only_surrounding_whitespace(s: Seq<char>)
    ensures
        exists|b: int, e: int|
            0 <= b <= e <= s.len() && trimmed(s) == s.subrange(b, e) && (forall|k: int|
                0 <= k < b ==> is_ws(#[trigger] s[k])) && (forall|k: int|
                e <= k < s.len() ==> is_ws(#[trigger] s[k])) && (b < e ==> !is_ws(s[b]) && !is_ws(
                s[e - 1],
            )),
{
    let b = skip_ws(s, 0);
    let e = skip_ws_back(s, s.len() as int);
    lemma_skip_ws_bounds(s, 0);
    lemma_skip_ws_back_bounds(s, s.len() as int);
    if b < e {
        assert(trimmed(s) == s.subrange(b, e));
    } else {
        let n = s.len() as int;
        if b < n {
            assert(is_ws(s[b]));
        }
        assert(s.subrange(n, n) =~= Seq::<char>::empty());
        assert(trimmed(s) == s.subrange(n, n));
        assert(forall|k: int| 0 <= k < n ==> is_ws(#[trigger] s[k]));
    }
}

proof fn lemma_skip_char_bounds(s: Seq<char>, c: char, i: int)
    requires
        0 <= i <= s.len(),
    ensures
        i <= skip_char(s, c, i) <= s.len(),
        forall|t: int| i <= t < skip_char(s, c, i) ==> #[trigger] s[t] == c,
        skip_char(s, c, i) < s.len() ==> s[skip_char(s, c, i)] != c,
    decreases s.len() - i,
{
    if i < s.len() && s[i] == c {
        lemma_skip_char_bounds(s, c, i + 1);
    }
}

proof fn lemma_skip_char_back_bounds(s: Seq<char>, c: char, e: int)
    requires
        0 <= e <= s.len(),
    ensures
        0 <= skip_char_back(s, c, e) <= e,
        forall|t: int| skip_char_back(s, c, e) <= t < e ==> #[trigger] s[t] == c,
        skip_char_back(s, c, e) > 0 ==> s[skip_char_back(s, c, e) - 1] != c,
    decreases e,
{
    if 0 < e && s[e - 1] == c {
        lemma_skip_char_back_bounds(s, c, e - 1);
    }
}

/// Stripping `c` keeps one stretch of `s` and drops only copies of `c`
/// around it; the stretch, when not empty, starts and ends with another
/// character.
pub proof fn law_strip_drops_only_surrounding_copies(s: Seq<char>, c: char)
    ensures
        exists|b: int, e: int|
            0 <= b <= e <= s.len() && stripped(s, c) == s.subrange(b, e) && (forall|k: int|
                0 <= k < b ==> #[trigger] s[k] == c) && (forall|k: int|
                e <= k < s.len() ==> #[trigger] s[k] == c) && (b < e ==> s[b] != c && s[e - 1]
                != c),
{
    let b = skip_char(s, c, 0);
    let e = skip_char_back(s, c, s.len() as int);
    lemma_skip_char_bounds(s, c, 0);
    lemma_skip_char_back_bounds(s, c, s.len() as int);
    if b < e {
        assert(stripped(s, c) == s.subrange(b, e));
    } else {
        let n = s.len() as int;
        if b < n {
            assert(s[b] == c);
        }
        assert(s.subrange(n, n) =~= Seq::<char>::empty());
        assert(stripped(s, c) == s.subrange(n, n));
        assert(forall|k: int| 0 <= k < n ==> #[trigger] s[k] == c);
    }
}

/// The first piece of `s` split at `c` is the start of `s` up to the first
/// `c`: it holds no `c`, and either it is all of `s` or a `c` follows it.
pub proof fn law_first_piece_ends_at_the_first_separator(s: Seq<char>, c: char)
    ensures
        before_char(s, c).len() <= s.len(),
        before_char(s, c) == s.subrange(0, before_char(s, c).len() as int),
        forall|k: int| 0 <= k < before_char(s, c).len() ==> #[trigger] before_char(s, c)[k] != c,
        before_char(s, c).len() < s.len() ==> s[before_char(s, c).len() as int] == c,
    decreases s.len(),
{
    if s.len() > 0 && s[0] != c {
        let t = s.drop_first();
        law_first_piece_ends_at_the_first_separator(t, c);
        let p = before_char(t, c);
        assert(before_char(s, c) == seq![s[0]] + p);
        assert(seq![s[0]] + t.subrange(0, p.len() as int) =~= s.subrange(0, p.len() as int + 1));
        assert forall|k: int| 0 <= k < before_char(s, c).len() implies #[trigger] before_char(
            s,
            c,
        )[k] != c by {
            if k > 0 {
                assert(before_char(s, c)[k] == p[k - 1]);
            }
        }
    } else if s.len() > 0 {
        assert(s.subrange(0, 0) =~= Seq::<char>::empty());
    } else {
        assert(s.subrange(0, 0) =~= s);
    }
}

/// Digits read left to right: the value of two runs of digits written one
/// after the other is the first's value shifted by the second's length,
/// plus the second's value.
#[verifier::spinoff_prover]
pub proof fn law_digits_read_left_to_right(a: Seq<char>, b: Seq<char>)
    ensures
        digits_value(a + b) == digits_value(a) * pow(10, b.len()) + digits_value(b),
        digits_value(Seq::<char>::empty()) == 0,
        b.len() == 1 ==> digits_value(b) == digit_value(b[0]),
    decreases b.len(),
{
    reveal(pow);
    if b.len() == 0 {
        assert(a + b =~= a);
        assert(pow(10, 0) == 1);
        assert(digits_value(a) * 1 == digits_value(a));
        assert(digits_value(b) == 0);
    } else {
        let b1 = b.drop_last();
        law_digits_read_left_to_right(a, b1);
        assert((a + b).drop_last() =~= a + b1);
        assert((a + b).last() == b.last());
        let x = digits_value(a);
        let p = pow(10, b1.len());
        let y = digits_value(b1);
        let d = digit_value(b.last());
        assert(pow(10, b.len()) == 10 * p);
        assert(digits_value(a + b) == digits_value(a + b1) * 10 + d);
        assert(digits_value(a + b1) == x * p + y);
        assert(digits_value(b) == y * 10 + d);
        assert((x * p + y) * 10 + d == x * (10 * p) + (y * 10 + d)) by (nonlinear_arith);
        assert(digits_value(a + b) == x * pow(10, b.len()) + digits_value(b));
        if b.len() == 1 {
            assert(b1 =~= Seq::<char>::empty());
        }
    }
}

proof fn lemma_decimal_leads_with_nonzero(n: nat)
    requires
        n >= 1,
    ensures
        decimal(n)[0] != '0',
    decreases n,
{
    if n >= 10 {
        lemma_decimal_leads_with_nonzero(n / 10);
        lemma_decimal_digits(n / 10);
        assert(decimal(n)[0] == decimal(n / 10)[0]);
    } else {
        lemma_digit_char(n);
        assert(digit_value('0') == 0);
    }
}

/// `decimal(n)` spells `n` in decimal digits with no leading zero ("0"
/// alone for zero).
pub proof fn law_decimal_spells_the_number(n: nat)
    ensures
        decimal(n).len() >= 1,
        all_digits(decimal(n)),
        digits_value(decimal(n)) == n,
        n == 0 ==> decimal(n) == seq!['0'],
        n > 0 ==> decimal(n)[0] != '0',
{
    lemma_decimal_digits(n);
    if n > 0 {
        lemma_decimal_leads_with_nonzero(n);
    } else {
        assert(decimal(0) =~= seq!['0']);
    }
}

/// Reading a port: the decimal text of any `u16` reads back as it, also
/// with a leading `+` or leading zeros; text with no digits, with a
/// character that is neither a digit nor a leading `+`, or spelling a
/// number above 65535, is no number.
pub proof fn law_parse_reads_decimal_numbers(n: u16, big: nat, s: Seq<char>)
    ensures
        parse_u16_spec(decimal(n as nat)) == Some(n),
        parse_u16_spec(seq!['+'] + decimal(n as nat)) == Some(n),
        parse_u16_spec(seq!['0'] + decimal(n as nat)) == Some(n),
        parse_u16_spec(Seq::<char>::empty()) is None,
        parse_u16_spec(seq!['+']) is None,
        big > 0xFFFF ==> parse_u16_spec(decimal(big)) is None,
        (exists|k: int| 0 <= k < s.len() && !is_digit(#[trigger] s[k]) && !(k == 0 && s[k] == '+'))
            ==> parse_u16_spec(s) is None,
{
    lemma_parse_decimal_u16(n);
    lemma_decimal_digits(n as nat);
    lemma_decimal_digits(big);
    let d = decimal(n as nat);
    let plus = seq!['+'] + d;
    assert(unsigned_part(plus) =~= d);
    let zero = seq!['0'] + d;
    assert(zero[0] == '0');
    assert(unsigned_part(zero) == zero);
    law_digits_read_left_to_right(seq!['0'], d);
    assert(digits_value(seq!['0']) == 0) by {
        assert(seq!['0'].drop_last() =~= Seq::<char>::empty());
    }
    assert(all_digits(zero)) by {
        assert forall|i: int| 0 <= i < zero.len() implies is_digit(#[trigger] zero[i]) by {
            if i > 0 {
                assert(zero[i] == d[i - 1]);
            }
        }
    }
    assert(seq!['+'].drop_first() =~= Seq::<char>::empty());
    let db = decimal(big);
    if db[0] == '+' {
        assert(is_digit(db[0]));
    }
    if exists|k: int| 0 <= k < s.len() && !is_digit(#[trigger] s[k]) && !(k == 0 && s[k] == '+') {
        let k = choose|k: int| 0 <= k < s.len() && !is_digit(#[trigger] s[k]) && !(k == 0 && s[k]
            == '+');
        let u = unsigned_part(s);
        if s.len() > 0 && s[0] == '+' {
            assert(u[k - 1] == s[k]);
            assert(!is_digit(u[k - 1]));
        } else {
            assert(u[k] == s[k]);
        }
    }
}


/// A keyword matches a word of the same length whose every character is
/// the keyword's, or the upper-case form of an ASCII letter of it; no other
/// case folding happens.
pub proof fn law_keywords_ignore_ascii_case(word: Seq<char>, lower: Seq<char>)
    ensures
        matches_keyword(word, lower) <==> word.len() == lower.len() && forall|i: int|
            0 <= i < word.len() ==> (!('A' <= #[trigger] word[i] <= 'Z') && word[i] as u32
                == lower[i] as u32 || 'A' <= word[i] <= 'Z' && lower[i] as u32 == word[i] as u32
                + 32),
{
}


proof fn lemma_skip_shift(p: Seq<char>, q: Seq<char>, j: int)
    requires
        0 <= j <= q.len(),
    ensures
        skip_ws(p + q, p.len() + j) == p.len() + skip_ws(q, j),
        skip_word(p + q, p.len() + j) == p.len() + skip_word(q, j),
    decreases q.len() - j,
{
    if j < q.len() {
        assert((p + q)[p.len() + j] == q[j]);
        lemma_skip_shift(p, q, j + 1);
    }
}

proof fn lemma_words_shift(p: Seq<char>, q: Seq<char>, j: int)
    requires
        0 <= j <= q.len(),
    ensures
        words_from(p + q, p.len() + j) == words_from(q, j),
    decreases q.len() - j,
{
    let t = p + q;
    if j < q.len() {
        lemma_skip_shift(p, q, j);
        lemma_skip_ws_bounds(q, j);
        let jj = skip_ws(q, j);
        if jj < q.len() {
            lemma_skip_shift(p, q, jj);
            lemma_skip_word_bounds(q, jj);
            let k = skip_word(q, jj);
            assert(t.subrange(p.len() + jj, p.len() + k) =~= q.subrange(jj, k));
            if k > jj {
                lemma_words_shift(p, q, k);
            }
        }
    }
}

proof fn lemma_skip_ws_through(s: Seq<char>, i: int, m: int)
    requires
        0 <= i <= m <= s.len(),
        forall|k: int| i <= k < m ==> is_ws(#[trigger] s[k]),
    ensures
        skip_ws(s, i) == skip_ws(s, m),
    decreases m - i,
{
    if i < m {
        lemma_skip_ws_through(s, i + 1, m);
    }
}

proof fn lemma_words_through(s: Seq<char>, i: int, m: int)
    requires
        0 <= i <= m <= s.len(),
        forall|k: int| i <= k < m ==> is_ws(#[trigger] s[k]),
    ensures
        words_from(s, i) == words_from(s, m),
{
    lemma_skip_ws_through(s, i, m);
    lemma_skip_ws_bounds(s, i);
    lemma_skip_ws_bounds(s, m);
}

proof fn lemma_skip_in_front(a: Seq<char>, c: char, b: Seq<char>, i: int)
    requires
        is_ws(c),
        0 <= i <= a.len(),
    ensures
        skip_ws(a, i) < a.len() ==> skip_ws(a + seq![c] + b, i) == skip_ws(a, i),
        skip_word(a + seq![c] + b, i) == skip_word(a, i),
    decreases a.len() - i,
{
    let t = a + seq![c] + b;
    if i < a.len() {
        assert(t[i] == a[i]);
        lemma_skip_in_front(a, c, b, i + 1);
    } else {
        assert(t[i] == c);
    }
}

proof fn lemma_words_at_the_gap(a: Seq<char>, c: char, b: Seq<char>)
    requires
        is_ws(c),
    ensures
        words_from(a + seq![c] + b, a.len() as int) == words(b),
{
    let t = a + seq![c] + b;
    assert(t[a.len() as int] == c);
    lemma_words_through(t, a.len() as int, a.len() as int + 1);
    assert(t == (a + seq![c]) + b);
    lemma_words_shift(a + seq![c], b, 0);
}

proof fn lemma_words_split(a: Seq<char>, c: char, b: Seq<char>, i: int)
    requires
        is_ws(c),
        0 <= i <= a.len(),
    ensures
        words_from(a + seq![c] + b, i) == words_from(a, i) + words(b),
    decreases a.len() - i,
{
    let t = a + seq![c] + b;
    lemma_skip_ws_bounds(a, i);
    lemma_words_at_the_gap(a, c, b);
    let j = skip_ws(a, i);
    if j < a.len() {
        lemma_skip_in_front(a, c, b, i);
        lemma_skip_in_front(a, c, b, j);
        lemma_skip_word_bounds(a, j);
        let k = skip_word(a, j);
        assert(t.subrange(j, k) =~= a.subrange(j, k));
        lemma_words_split(a, c, b, k);
        assert(words_from(a, i) == seq![a.subrange(j, k)] + words_from(a, k));
        assert(words_from(t, i) == seq![t.subrange(j, k)] + words_from(t, k));
        assert(seq![a.subrange(j, k)] + (words_from(a, k) + words(b)) =~= (seq![a.subrange(j, k)]
            + words_from(a, k)) + words(b));
    } else {
        assert forall|k: int| i <= k < a.len() implies is_ws(#[trigger] t[k]) by {
            assert(t[k] == a[k]);
        }
        lemma_words_through(t, i, a.len() as int);
        assert(words_from(a, i) =~= Seq::<Seq<char>>::empty());
        assert(Seq::<Seq<char>>::empty() + words(b) =~= words(b));
    }
}

/// Words are the runs between whitespace: splitting a text at a whitespace
/// character splits its words there; a run with no whitespace is one word;
/// a text of whitespace alone has none.
pub proof fn law_words_split_at_whitespace(a: Seq<char>, c: char, b: Seq<char>, w: Seq<char>)
    ensures
        is_ws(c) ==> words(a + seq![c] + b) == words(a) + words(b),
        w.len() > 0 && (forall|k: int| 0 <= k < w.len() ==> !is_ws(#[trigger] w[k])) ==> words(w)
            == seq![w],
        (forall|k: int| 0 <= k < w.len() ==> is_ws(#[trigger] w[k])) ==> words(w) == Seq::<
            Seq<char>,
        >::empty(),
{
    if is_ws(c) {
        lemma_words_split(a, c, b, 0);
    }
    lemma_skip_ws_bounds(w, 0);
    lemma_skip_word_bounds(w, 0);
    if w.len() > 0 && (forall|k: int| 0 <= k < w.len() ==> !is_ws(#[trigger] w[k])) {
        assert(skip_ws(w, 0) == 0);
        if skip_word(w, 0) < w.len() {
            assert(!is_ws(w[skip_word(w, 0)]));
        }
        assert(skip_word(w, 0) == w.len());
        assert(w.subrange(0, w.len() as int) =~= w);
        assert(words_from(w, w.len() as int) == Seq::<Seq<char>>::empty());
        assert(words(w) == seq![w.subrange(0, w.len() as int)] + words_from(w, w.len() as int));
        assert(seq![w] + Seq::<Seq<char>>::empty() =~= seq![w]);
    }
    if forall|k: int| 0 <= k < w.len() ==> is_ws(#[trigger] w[k]) {
        if w.len() > 0 {
            lemma_skip_ws_through(w, 0, w.len() as int);
        }
    }
}

} // verus!
