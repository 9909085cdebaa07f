//! Text as sequences of characters, and the byte offsets that go with them.

use vstd::prelude::*;
use vstd::string::*;
use vstd::utf8::*;

verus! {

/// Number of bytes that `c` takes in UTF-8.
pub open spec fn char_width(c: char) -> nat {
    if (c as u32) < 0x80 {
        1
    } else if (c as u32) < 0x800 {
        2
    } else if (c as u32) < 0x10000 {
        3
    } else {
        4
    }
}

/// Number of bytes that `s` takes in UTF-8.
pub open spec fn utf8_len(s: Seq<char>) -> nat
    decreases s.len(),
{
    if s.len() == 0 {
        0
    } else {
        utf8_len(s.drop_last()) + char_width(s.last())
    }
}

/// Whether `pattern` stands in `s` from index `at` on.
pub open spec fn occurs_at<A>(s: Seq<A>, pattern: Seq<A>, at: int) -> bool {
    &&& 0 <= at
    &&& at + pattern.len() <= s.len()
    &&& s.subrange(at, at + pattern.len()) == pattern
}

/// Whether `pattern` stands anywhere in `s`.
pub open spec fn contains_text<A>(s: Seq<A>, pattern: Seq<A>) -> bool {
    exists|at: int| occurs_at(s, pattern, at)
}

/// Whether `s` begins with `pattern`.
pub open spec fn starts_with<A>(s: Seq<A>, pattern: Seq<A>) -> bool {
    occurs_at(s, pattern, 0)
}

/// Whether `s` ends with `pattern`.
pub open spec fn ends_with<A>(s: Seq<A>, pattern: Seq<A>) -> bool {
    occurs_at(s, pattern, s.len() - pattern.len())
}

/// The first index at or after `from` at which `pattern` stands in `s`.
pub open spec fn find_from<A>(s: Seq<A>, pattern: Seq<A>, from: int) -> Option<int>
    decreases s.len() + 1 - from,
{
    if from + pattern.len() > s.len() {
        None
    } else if occurs_at(s, pattern, from) {
        Some(from)
    } else {
        find_from(s, pattern, from + 1)
    }
}

/// The last index before `before` at which `pattern` stands in `s`.
pub open spec fn rfind_before<A>(s: Seq<A>, pattern: Seq<A>, before: int) -> Option<int>
    decreases before,
{
    if before <= 0 {
        None
    } else if occurs_at(s, pattern, before - 1) {
        Some(before - 1)
    } else {
        rfind_before(s, pattern, before - 1)
    }
}

/// The last index at which `pattern` stands in `s`.
pub open spec fn rfind<A>(s: Seq<A>, pattern: Seq<A>) -> Option<int> {
    rfind_before(s, pattern, s.len() as int + 1)
}

/// The characters with the Unicode property White_Space.
pub open spec fn whitespace(c: char) -> bool {
    let u = c as u32;
    ||| 0x09 <= u <= 0x0d
    ||| u == 0x20
    ||| u == 0x85
    ||| u == 0xa0
    ||| u == 0x1680
    ||| 0x2000 <= u <= 0x200a
    ||| u == 0x2028
    ||| u == 0x2029
    ||| u == 0x202f
    ||| u == 0x205f
    ||| u == 0x3000
}

/// The characters of the Unicode category Cc.
pub open spec fn control(c: char) -> bool {
    let u = c as u32;
    u <= 0x1f || 0x7f <= u <= 0x9f
}

/// `s` without the white space at its start.
pub open spec fn trim_start(s: Seq<char>) -> Seq<char>
    decreases s.len(),
{
    if s.len() > 0 && whitespace(s[0]) {
        trim_start(s.skip(1))
    } else {
        s
    }
}

/// `s` without the white space at its end.
pub open spec fn trim_end(s: Seq<char>) -> Seq<char>
    decreases s.len(),
{
    if s.len() > 0 && whitespace(s.last()) {
        trim_end(s.drop_last())
    } else {
        s
    }
}

/// `s` without the white space at either end.
pub open spec fn trim(s: Seq<char>) -> Seq<char> {
    trim_end(trim_start(s))
}

/// `c` with an ASCII capital made small.
pub open spec fn ascii_lower(c: char) -> char {
    if 'A' <= c && c <= 'Z' {
        ((c as u32 + 32) as u32) as char
    } else {
        c
    }
}

/// `s` with its ASCII capitals made small.
pub open spec fn ascii_lowercase(s: Seq<char>) -> Seq<char> {
    s.map_values(|c: char| ascii_lower(c))
}

/// The texts held by a sequence of strings.
pub open spec fn texts(v: Seq<String>) -> Seq<Seq<char>> {
    v.map_values(|s: String| s@)
}

/// Appends one character, as `String::push` does.
pub assume_specification[ String::push ](s: &mut String, c: char)
    ensures
        final(s)@ == old(s)@.push(c),
;

/// The characters of `s`.
pub fn chars_of(s: &str) -> (r: Vec<char>)
    ensures
        r@ == s@,
{
    let mut out: Vec<char> = Vec::new();
    for c in it: s.chars()
        invariant
            it.seq() == s@,
            out@ == s@.take(it.index()),
    {
        out.push(c);
        assert(out@ =~= s@.take(it.index() + 1));
    }
    assert(out@ =~= s@);
    out
}

/// The text made of the characters of `v` from `from` up to `to`.
pub fn string_of(v: &[char], from: usize, to: usize) -> (r: String)
    requires
        from <= to <= v@.len(),
    ensures
        r@ == v@.subrange(from as int, to as int),
{
    let mut out = String::new();
    let mut i: usize = from;
    while i < to
        invariant
            from <= i <= to <= v@.len(),
            out@ == v@.subrange(from as int, i as int),
        decreases to - i,
    {
        out.push(v[i]);
        i += 1;
        assert(v@.subrange(from as int, i as int) =~= v@.subrange(from as int, i - 1).push(v@[i - 1]));
    }
    out
}

/// Whether `c` is white space.
pub fn is_whitespace(c: char) -> (r: bool)
    ensures
        r == whitespace(c),
{
    let u = c as u32;
    (0x09 <= u && u <= 0x0d) || u == 0x20 || u == 0x85 || u == 0xa0 || u == 0x1680 || (0x2000 <= u
        && u <= 0x200a) || u == 0x2028 || u == 0x2029 || u == 0x202f || u == 0x205f || u == 0x3000
}

/// Whether `c` is a control character.
pub fn is_control(c: char) -> (r: bool)
    ensures
        r == control(c),
{
    let u = c as u32;
    u <= 0x1f || (0x7f <= u && u <= 0x9f)
}

/// Whether `pattern` stands in `s` from `at` on.
pub fn is_at(s: &[char], pattern: &[char], at: usize) -> (r: bool)
    ensures
        r == occurs_at(s@, pattern@, at as int),
{
    let n: usize = s.len();
    if pattern.len() > n || at > n - pattern.len() {
        return false;
    }
    let mut i: usize = 0;
    while i < pattern.len()
        invariant
            n == s@.len(),
            i <= pattern@.len(),
            at + pattern@.len() <= s@.len(),
            forall|k: int| 0 <= k < i ==> s@[at + k] == pattern@[k],
        decreases pattern@.len() - i,
    {
        if s[at + i] != pattern[i] {
            assert(s@.subrange(at as int, at + pattern@.len())[i as int] == s@[at + i]);
            return false;
        }
        i += 1;
    }
    assert(s@.subrange(at as int, at + pattern@.len()) =~= pattern@);
    true
}

/// The first index at or after `from` at which `pattern` stands in `s`.
pub fn find(s: &[char], pattern: &[char], from: usize) -> (r: Option<usize>)
    requires
        from <= s@.len(),
    ensures
        match r {
            Some(i) => find_from(s@, pattern@, from as int) == Some(i as int),
            None => find_from(s@, pattern@, from as int) is None,
        },
{
    let mut i: usize = from;
    while pattern.len() <= s.len() && i <= s.len() - pattern.len()
        invariant
            from <= i <= s@.len() + 1,
            find_from(s@, pattern@, from as int) == find_from(s@, pattern@, i as int),
        decreases s@.len() + 1 - i,
    {
        if is_at(s, pattern, i) {
            return Some(i);
        }
        if i == s.len() {
            assert(find_from(s@, pattern@, i + 1) is None);
            return None;
        }
        i += 1;
    }
    None
}

/// What a found index means: the pattern stands there and nowhere between.
pub proof fn lemma_find<A>(s: Seq<A>, pattern: Seq<A>, from: int)
    requires
        0 <= from,
    ensures
        match find_from(s, pattern, from) {
            Some(i) => from <= i && occurs_at(s, pattern, i) && forall|k: int|
                from <= k < i ==> !occurs_at(s, pattern, k),
            None => forall|k: int| from <= k ==> !occurs_at(s, pattern, k),
        },
    decreases s.len() + 1 - from,
{
    if from + pattern.len() > s.len() {
    } else if occurs_at(s, pattern, from) {
    } else {
        lemma_find(s, pattern, from + 1);
    }
}

/// The byte length of two texts put together.
pub proof fn lemma_utf8_len_add(a: Seq<char>, b: Seq<char>)
    ensures
        utf8_len(a + b) == utf8_len(a) + utf8_len(b),
    decreases b.len(),
{
    if b.len() == 0 {
        assert(a + b =~= a);
    } else {
        assert((a + b).drop_last() =~= a + b.drop_last());
        lemma_utf8_len_add(a, b.drop_last());
    }
}

/// The number of bytes is that of the UTF-8 encoding.
pub proof fn lemma_utf8_len(s: Seq<char>)
    ensures
        utf8_len(s) == encode_utf8(s).len(),
        s.len() <= utf8_len(s),
    decreases s.len(),
{
    if s.len() > 0 {
        lemma_utf8_len(s.drop_first());
        assert(seq![s[0]] + s.drop_first() =~= s);
        lemma_utf8_len_add(seq![s[0]], s.drop_first());
        assert(seq![s[0]].drop_last() =~= Seq::<char>::empty());
        char_is_scalar(s[0]);
        assert(utf8_len(seq![s[0]]) == char_width(s[0])) by {
            reveal_with_fuel(utf8_len, 2);
        }
    }
}

/// The byte length of `s`.
pub fn byte_len(s: &str) -> (r: usize)
    ensures
        r == utf8_len(s@),
{
    proof {
        lemma_utf8_len(s@);
    }
    s.as_bytes().len()
}


/// The decimal numeral of `n`.
pub open spec fn decimal(n: nat) -> Seq<char>
    decreases n,
{
    if n < 10 {
        seq![digit_char(n)]
    } else {
        decimal(n / 10).push(digit_char(n % 10))
    }
}

/// The character of a decimal digit.
pub open spec fn digit_char(d: nat) -> char {
    if d == 0 { '0' } else if d == 1 { '1' } else if d == 2 { '2' } else if d == 3 { '3' }
    else if d == 4 { '4' } else if d == 5 { '5' } else if d == 6 { '6' } else if d == 7 { '7' }
    else if d == 8 { '8' } else { '9' }
}

/// What digit `c` is in bases up to sixteen.
pub open spec fn digit_of(c: char) -> Option<nat> {
    if '0' <= c && c <= '9' {
        Some((c as u32 - 48) as nat)
    } else if 'a' <= c && c <= 'f' {
        Some((c as u32 - 87) as nat)
    } else if 'A' <= c && c <= 'F' {
        Some((c as u32 - 55) as nat)
    } else {
        None
    }
}

/// The number that the digits of `s` write in the given base, if all are digits of it.
pub open spec fn digits_value(s: Seq<char>, base: nat) -> Option<nat>
    decreases s.len(),
{
    if s.len() == 0 {
        Some(0)
    } else {
        match (digits_value(s.drop_last(), base), digit_of(s.last())) {
            (Some(high), Some(low)) => if low < base {
                Some(high * base + low)
            } else {
                None
            },
            _ => None,
        }
    }
}

/// The number that `s` writes: one or more digits behind an optional plus sign.
pub open spec fn numeral_value(s: Seq<char>, base: nat) -> Option<nat> {
    let digits = if s.len() > 1 && s[0] == '+' { s.skip(1) } else { s };
    if digits.len() == 0 {
        None
    } else {
        digits_value(digits, base)
    }
}

/// The number that `s` writes, if it is at most `limit`.
pub open spec fn bounded_numeral(s: Seq<char>, base: nat, limit: nat) -> Option<nat> {
    match numeral_value(s, base) {
        Some(n) => if n <= limit {
            Some(n)
        } else {
            None
        },
        None => None,
    }
}

/// Whether two runs of characters are the same.
pub fn same(a: &[char], b: &[char]) -> (r: bool)
    ensures
        r == (a@ == b@),
{
    if a.len() != b.len() {
        return false;
    }
    let r = is_at(a, b, 0);
    assert(a@.subrange(0, b@.len() as int) =~= a@);
    r
}

/// Whether `pattern` stands anywhere in `s`.
pub fn contains(s: &[char], pattern: &[char]) -> (r: bool)
    ensures
        r == contains_text(s@, pattern@),
{
    proof {
        lemma_find(s@, pattern@, 0);
    }
    find(s, pattern, 0).is_some()
}

/// `s` with its ASCII capitals made small.
pub fn lower(s: &[char]) -> (r: Vec<char>)
    ensures
        r@ == ascii_lowercase(s@),
{
    let mut out: Vec<char> = Vec::new();
    let mut i: usize = 0;
    while i < s.len()
        invariant
            i <= s@.len(),
            out@ == ascii_lowercase(s@.take(i as int)),
        decreases s@.len() - i,
    {
        out.push(lower_char(s[i]));
        i += 1;
        assert(out@ =~= ascii_lowercase(s@.take(i as int)));
    }
    assert(s@.take(i as int) =~= s@);
    out
}

/// `c` with an ASCII capital made small.
pub fn lower_char(c: char) -> (r: char)
    ensures
        r == ascii_lower(c),
{
    if 'A' <= c && c <= 'Z' {
        ((c as u8) + 32) as char
    } else {
        c
    }
}

/// `s` without the white space at its start.
pub fn trimmed_start(s: &[char]) -> (r: &[char])
    ensures
        r@ == trim_start(s@),
        r@.len() <= s@.len(),
{
    let mut i: usize = 0;
    assert(s@.skip(0) =~= s@);
    while i < s.len() && is_whitespace(s[i])
        invariant
            i <= s@.len(),
            trim_start(s@) == trim_start(s@.skip(i as int)),
        decreases s@.len() - i,
    {
        assert(s@.skip(i as int).skip(1) =~= s@.skip(i + 1));
        i += 1;
    }
    assert(s@.skip(i as int) =~= s@.subrange(i as int, s@.len() as int));
    vstd::slice::slice_subrange(s, i, s.len())
}

/// `s` without the white space at its end.
pub fn trimmed_end(s: &[char]) -> (r: &[char])
    ensures
        r@ == trim_end(s@),
        r@.len() <= s@.len(),
{
    let mut i: usize = s.len();
    assert(s@.take(i as int) =~= s@);
    while i > 0 && is_whitespace(s[i - 1])
        invariant
            i <= s@.len(),
            trim_end(s@) == trim_end(s@.take(i as int)),
        decreases i,
    {
        assert(s@.take(i as int).drop_last() =~= s@.take(i - 1));
        i -= 1;
    }
    assert(s@.take(i as int) =~= s@.subrange(0, i as int));
    vstd::slice::slice_subrange(s, 0, i)
}

/// `s` without the white space at either end.
pub fn trimmed(s: &[char]) -> (r: &[char])
    ensures
        r@ == trim(s@),
        r@.len() <= s@.len(),
{
    trimmed_end(trimmed_start(s))
}

/// The decimal numeral of `n`.
pub fn decimal_text(n: u64) -> (r: String)
    ensures
        r@ == decimal(n as nat),
    decreases n,
{
    let mut out = if n < 10 {
        String::new()
    } else {
        decimal_text(n / 10)
    };
    let d: u8 = (n % 10) as u8;
    let c = (d + 48) as char;
    assert(c == digit_char(n as nat % 10));
    out.push(c);
    assert(n < 10 ==> out@ =~= seq![digit_char(n as nat)]);
    out
}

/// The digit that `c` is.
fn digit_value(c: char) -> (r: Option<u32>)
    ensures
        match r {
            Some(d) => digit_of(c) == Some(d as nat),
            None => digit_of(c) is None,
        },
{
    let u = c as u32;
    if '0' <= c && c <= '9' {
        Some(u - 48)
    } else if 'a' <= c && c <= 'f' {
        Some(u - 87)
    } else if 'A' <= c && c <= 'F' {
        Some(u - 55)
    } else {
        None
    }
}

proof fn lemma_digits_value_prefix(s: Seq<char>, base: nat, i: int)
    requires
        0 <= i <= s.len(),
        base >= 1,
    ensures
        digits_value(s.take(i), base) is None ==> digits_value(s, base) is None,
        match (digits_value(s.take(i), base), digits_value(s, base)) {
            (Some(a), Some(b)) => a <= b,
            _ => true,
        },
    decreases s.len() - i,
{
    if i == s.len() {
        assert(s.take(i) =~= s);
    } else {
        assert(s.take(i + 1).drop_last() =~= s.take(i));
        assert(s.take(i + 1).last() == s[i]);
        lemma_digits_value_prefix(s, base, i + 1);
        match digits_value(s.take(i), base) {
            Some(a) => {
                assert(a * base >= a) by (nonlinear_arith)
                    requires
                        base >= 1,
                ;
            },
            None => {},
        }
    }
}

/// Reads a numeral of at most `limit`, as the integer types of the language do.
pub fn parse_numeral(s: &[char], base: u32, limit: u64) -> (r: Option<u64>)
    requires
        2 <= base <= 16,
    ensures
        match r {
            Some(n) => bounded_numeral(s@, base as nat, limit as nat) == Some(n as nat),
            None => bounded_numeral(s@, base as nat, limit as nat) is None,
        },
{
    let digits = if s.len() > 1 && s[0] == '+' {
        assert(s@.subrange(1, s@.len() as int) =~= s@.skip(1));
        vstd::slice::slice_subrange(s, 1, s.len())
    } else {
        s
    };
    if digits.len() == 0 {
        return None;
    }
    let mut value: u64 = 0;
    let mut i: usize = 0;
    while i < digits.len()
        invariant
            i <= digits@.len(),
            2 <= base <= 16,
            value <= limit,
            digits_value(digits@.take(i as int), base as nat) == Some(value as nat),
            digits@.len() > 0,
            digits@ == (if s@.len() > 1 && s@[0] == '+' { s@.skip(1) } else { s@ }),
        decreases digits@.len() - i,
    {
        let ghost before = digits@.take(i as int);
        proof {
            assert(digits@.take(i + 1).drop_last() =~= before);
            assert(digits@.take(i + 1).last() == digits@[i as int]);
            lemma_digits_value_prefix(digits@, base as nat, i + 1);
        }
        match digit_value(digits[i]) {
            Some(d) => {
                if d >= base {
                    return None;
                }
                assert(value as int * base as int <= 0x10_0000_0000_0000_0000) by (nonlinear_arith)
                    requires
                        value <= u64::MAX,
                        base <= 16,
                ;
                let next: u128 = (value as u128) * (base as u128) + (d as u128);
                if next > limit as u128 {
                    return None;
                }
                value = next as u64;
            },
            None => {
                return None;
            },
        }
        i += 1;
    }
    assert(digits@.take(i as int) =~= digits@);
    Some(value)
}


/// Whether two texts are the same.
pub fn eq(a: &str, b: &str) -> (r: bool)
    ensures
        r == (a@ == b@),
{
    same(&chars_of(a), &chars_of(b))
}

/// Whether `pattern` stands anywhere in `s`.
pub fn has(s: &str, pattern: &str) -> (r: bool)
    ensures
        r == contains_text(s@, pattern@),
{
    contains(&chars_of(s), &chars_of(pattern))
}

/// What a text is printed as for programmers, in double quotes and with escapes.
pub uninterp spec fn debug_quoted(s: Seq<char>) -> Seq<char>;

/// The `Debug` form of a `str`, as a function of the text.
#[verifier::external_body]
pub(crate) fn debug_text(s: &str) -> (r: String)
    ensures
        r@ == debug_quoted(s@),
{
    format!("{:?}", s)
}

/// Texts put together with a separator between each two.
pub open spec fn join(parts: Seq<Seq<char>>, separator: Seq<char>) -> Seq<char>
    decreases parts.len(),
{
    if parts.len() == 0 {
        Seq::empty()
    } else if parts.len() == 1 {
        parts[0]
    } else {
        join(parts.drop_last(), separator) + separator + parts.last()
    }
}

/// Filtering one element more.
pub proof fn lemma_filter_step<A>(s: Seq<A>, keep: spec_fn(A) -> bool, i: int)
    requires
        0 <= i < s.len(),
    ensures
        s.take(i + 1).filter(keep) == (if keep(s[i]) {
            s.take(i).filter(keep).push(s[i])
        } else {
            s.take(i).filter(keep)
        }),
{
    reveal(Seq::filter);
    assert(s.take(i + 1).drop_last() =~= s.take(i));
    assert(s.take(i + 1).last() == s[i]);
}

/// The positions of the elements that a filter keeps, in their order.
pub proof fn lemma_filter_positions<A>(s: Seq<A>, keep: spec_fn(A) -> bool) -> (at: Seq<int>)
    ensures
        at.len() == s.filter(keep).len(),
        forall|k: int|
            0 <= k < at.len() ==> 0 <= (#[trigger] at[k]) < s.len() && keep(s[at[k]]) && s.filter(
                keep,
            )[k] == s[at[k]],
        forall|i: int, j: int| 0 <= i < j < at.len() ==> #[trigger] at[i] < #[trigger] at[j],
        forall|i: int| 0 <= i < s.len() && keep(#[trigger] s[i]) ==> at.contains(i),
    decreases s.len(),
{
    reveal(Seq::filter);
    if s.len() == 0 {
        Seq::empty()
    } else {
        let n = s.len() - 1;
        let before = lemma_filter_positions(s.drop_last(), keep);
        if keep(s.last()) {
            let at = before.push(n);
            assert forall|i: int| 0 <= i < s.len() && keep(#[trigger] s[i]) implies at.contains(
                i,
            ) by {
                if i < n {
                    assert(s.drop_last()[i] == s[i]);
                    let k = choose|k: int| 0 <= k < before.len() && before[k] == i;
                    assert(at[k] == i);
                } else {
                    assert(at[n - n + before.len()] == i);
                }
            }
            at
        } else {
            assert forall|i: int| 0 <= i < s.len() && keep(#[trigger] s[i]) implies before.contains(
                i,
            ) by {
                assert(s.drop_last()[i] == s[i]);
            }
            before
        }
    }
}

/// How many characters of `s` stand before its first white space.
pub open spec fn word_len(s: Seq<char>) -> nat
    decreases s.len(),
{
    if s.len() == 0 || whitespace(s[0]) {
        0
    } else {
        1 + word_len(s.skip(1))
    }
}

/// The words of `s`: its longest runs without white space.
pub open spec fn words(s: Seq<char>) -> Seq<Seq<char>>
    decreases s.len(),
{
    let rest = trim_start(s);
    if rest.len() == 0 || word_len(rest) == 0 || rest.len() > s.len() || word_len(rest)
        > rest.len() {
        Seq::empty()
    } else {
        seq![rest.take(word_len(rest) as int)] + words(rest.skip(word_len(rest) as int))
    }
}

/// The guards in `words` never cut it short.
pub proof fn lemma_words(s: Seq<char>)
    ensures
        trim_start(s).len() <= s.len(),
        word_len(s) <= s.len(),
        trim_start(s).len() > 0 ==> word_len(trim_start(s)) > 0,
        trim_start(s).len() > 0 ==> !whitespace(trim_start(s)[0]),
        forall|k: int| 0 <= k < word_len(s) ==> !whitespace(#[trigger] s[k]),
        word_len(s) < s.len() ==> whitespace(s[word_len(s) as int]),
    decreases s.len(),
{
    if s.len() > 0 {
        lemma_words(s.skip(1));
        assert forall|k: int| 0 <= k < word_len(s) implies !whitespace(#[trigger] s[k]) by {
            if k > 0 {
                assert(s.skip(1)[k - 1] == s[k]);
            }
        }
    }
}

/// The words of `s` as runs of characters.
pub fn split_words(s: &[char]) -> (r: Vec<Vec<char>>)
    ensures
        r@.map_values(|w: Vec<char>| w@) == words(s@),
{
    let mut out: Vec<Vec<char>> = Vec::new();
    let mut rest: &[char] = s;
    let ghost shown = out@.map_values(|w: Vec<char>| w@);
    assert(shown + words(rest@) =~= words(s@));
    loop
        invariant
            out@.map_values(|w: Vec<char>| w@) + words(rest@) == words(s@),
        ensures
            out@.map_values(|w: Vec<char>| w@) == words(s@),
        decreases rest@.len(),
    {
        let ghost before = out@.map_values(|w: Vec<char>| w@);
        let ghost whole = rest@;
        proof {
            lemma_words(rest@);
        }
        rest = trimmed_start(rest);
        if rest.len() == 0 {
            assert(before + words(whole) =~= before);
            break;
        }
        let mut n: usize = 0;
        proof {
            lemma_words(rest@);
        }
        while n < rest.len() && !is_whitespace(rest[n])
            invariant
                n <= rest@.len(),
                n <= word_len(rest@),
                word_len(rest@) <= rest@.len(),
                forall|k: int| 0 <= k < word_len(rest@) ==> !whitespace(#[trigger] rest@[k]),
                word_len(rest@) < rest@.len() ==> whitespace(rest@[word_len(rest@) as int]),
            decreases rest@.len() - n,
        {
            n += 1;
        }
        assert(n == word_len(rest@));
        let word = vstd::slice::slice_to_vec(vstd::slice::slice_subrange(rest, 0, n));
        assert(word@ =~= rest@.take(n as int));
        out.push(word);
        let ghost tail = rest@.skip(n as int);
        assert(rest@.subrange(n as int, rest@.len() as int) =~= tail);
        assert(out@.map_values(|w: Vec<char>| w@) =~= before.push(word@));
        rest = vstd::slice::slice_subrange(rest, n, rest.len());
        assert(before + (seq![word@] + words(tail)) =~= before.push(word@) + words(tail));
    }
    out
}

/// `s` without a carriage return at its end.
pub open spec fn without_cr(s: Seq<char>) -> Seq<char> {
    if s.len() > 0 && s.last() == '\r' {
        s.drop_last()
    } else {
        s
    }
}

/// The lines of `s`: a line ends with a line feed, or a carriage return and a line feed, and the
/// last one may end without.
pub open spec fn lines(s: Seq<char>) -> Seq<Seq<char>>
    decreases s.len(),
{
    if s.len() == 0 {
        Seq::empty()
    } else {
        match find_from(s, seq!['\n'], 0) {
            Some(i) => if 0 <= i < s.len() {
                seq![without_cr(s.take(i))] + lines(s.skip(i + 1))
            } else {
                Seq::empty()
            },
            None => seq![s],
        }
    }
}

/// The lines of `s` as runs of characters.
pub fn split_lines(s: &[char]) -> (r: Vec<Vec<char>>)
    ensures
        r@.map_values(|w: Vec<char>| w@) == lines(s@),
{
    let mut out: Vec<Vec<char>> = Vec::new();
    let mut rest: &[char] = s;
    let mut feed: Vec<char> = Vec::new();
    feed.push('\n');
    assert(feed@ =~= seq!['\n']);
    assert(out@.map_values(|w: Vec<char>| w@) + lines(rest@) =~= lines(s@));
    loop
        invariant_except_break
            feed@ == seq!['\n'],
            out@.map_values(|w: Vec<char>| w@) + lines(rest@) == lines(s@),
        ensures
            out@.map_values(|w: Vec<char>| w@) == lines(s@),
        decreases rest@.len(),
    {
        let ghost before = out@.map_values(|w: Vec<char>| w@);
        if rest.len() == 0 {
            assert(before + lines(rest@) =~= before);
            break;
        }
        proof {
            lemma_find(rest@, feed@, 0);
        }
        match find(rest, &feed, 0) {
            None => {
                let line = vstd::slice::slice_to_vec(rest);
                out.push(line);
                assert(out@.map_values(|w: Vec<char>| w@) =~= before + seq![rest@]);
                break;
            },
            Some(i) => {
                let mut end: usize = i;
                if end > 0 && rest[end - 1] == '\r' {
                    end -= 1;
                }
                let line = vstd::slice::slice_to_vec(vstd::slice::slice_subrange(rest, 0, end));
                assert(line@ =~= without_cr(rest@.take(i as int)));
                out.push(line);
                let ghost tail = rest@.skip(i + 1);
                assert(rest@.subrange(i + 1, rest@.len() as int) =~= tail);
                assert(out@.map_values(|w: Vec<char>| w@) =~= before.push(line@));
                assert(before + (seq![line@] + lines(tail)) =~= before.push(line@) + lines(tail));
                rest = vstd::slice::slice_subrange(rest, i + 1, rest.len());
            },
        }
    }
    out
}

/// `core::str::from_utf8`: the text that the bytes encode, where they encode one.
#[verifier::external_body]
pub(crate) fn utf8_text(bytes: &[u8]) -> (r: Option<String>)
    ensures
        match r {
            Some(text) => valid_utf8(bytes@) && text@ == decode_utf8(bytes@),
            None => !valid_utf8(bytes@),
        },
{
    core::str::from_utf8(bytes).ok().map(String::from)
}

/// What bytes say when whatever is no UTF-8 in them is replaced.
pub uninterp spec fn lossy(bytes: Seq<u8>) -> Seq<char>;

/// `String::from_utf8_lossy`, as a function of the bytes; bytes that encode a text give that text.
#[verifier::external_body]
pub(crate) fn lossy_text(bytes: &[u8]) -> (r: String)
    ensures
        r@ == lossy(bytes@),
        valid_utf8(bytes@) ==> r@ == decode_utf8(bytes@),
{
    String::from_utf8_lossy(bytes).into_owned()
}

/// How many characters of `s`, from its start, fit into `limit` bytes.
pub open spec fn fitting(s: Seq<char>, limit: int) -> nat
    decreases s.len(),
{
    if s.len() == 0 || char_width(s[0]) > limit {
        0
    } else {
        1 + fitting(s.skip(1), limit - char_width(s[0]))
    }
}

/// What fits is the longest start that fits.
pub proof fn lemma_fitting(s: Seq<char>, limit: int)
    requires
        limit >= 0,
    ensures
        fitting(s, limit) <= s.len(),
        utf8_len(s.take(fitting(s, limit) as int)) <= limit,
        forall|n: int|
            fitting(s, limit) < n <= s.len() ==> utf8_len(#[trigger] s.take(n)) > limit,
        utf8_len(s) <= limit ==> fitting(s, limit) == s.len(),
    decreases s.len(),
{
    if s.len() == 0 {
        assert(s.take(0) =~= s);
    } else {
        let rest = s.skip(1);
        assert forall|n: int| 1 <= n <= s.len() implies utf8_len(#[trigger] s.take(n))
            == char_width(s[0]) + utf8_len(rest.take(n - 1)) by {
            assert(s.take(n) =~= seq![s[0]] + rest.take(n - 1));
            lemma_utf8_len_add(seq![s[0]], rest.take(n - 1));
            assert(seq![s[0]].drop_last() =~= Seq::<char>::empty());
            reveal_with_fuel(utf8_len, 2);
        }
        assert(s.take(0) =~= Seq::<char>::empty());
        assert(s.take(s.len() as int) =~= s);
        assert(rest.take(rest.len() as int) =~= rest);
        if char_width(s[0]) <= limit {
            lemma_fitting(rest, limit - char_width(s[0]));
            assert forall|n: int| fitting(s, limit) < n <= s.len() implies utf8_len(
                #[trigger] s.take(n),
            ) > limit by {
                assert(utf8_len(rest.take(n - 1)) > limit - char_width(s[0]));
            }
        }
    }
}

/// The number of bytes that `c` takes.
pub fn width(c: char) -> (r: usize)
    ensures
        r == char_width(c),
        1 <= r <= 4,
{
    let u = c as u32;
    if u < 0x80 {
        1
    } else if u < 0x800 {
        2
    } else if u < 0x10000 {
        3
    } else {
        4
    }
}

/// How many characters of `s` fit into `limit` bytes, and how many bytes those are.
pub fn fit(s: &[char], limit: usize) -> (r: (usize, usize))
    ensures
        r.0 == fitting(s@, limit as int),
        r.0 <= s@.len(),
        r.1 == utf8_len(s@.take(r.0 as int)),
        r.1 <= limit,
{
    let mut i: usize = 0;
    let mut used: usize = 0;
    assert(s@.skip(0) =~= s@);
    assert(s@.take(0) =~= Seq::<char>::empty());
    while i < s.len() && width(s[i]) <= limit - used
        invariant
            i <= s@.len(),
            used <= limit,
            used == utf8_len(s@.take(i as int)),
            fitting(s@, limit as int) == i + fitting(s@.skip(i as int), limit - used),
        decreases s@.len() - i,
    {
        assert(s@.skip(i as int).skip(1) =~= s@.skip(i + 1));
        assert(s@.take(i + 1).drop_last() =~= s@.take(i as int));
        used += width(s[i]);
        i += 1;
    }
    (i, used)
}

/// The longest start of `s` that fits into `limit` bytes.
pub open spec fn fitting_prefix(s: Seq<char>, limit: nat) -> Seq<char> {
    s.take(fitting(s, limit as int) as int)
}

/// The longest start of `s` that fits into `limit` bytes, and whether that is less than all of it.
pub fn truncate_utf8(s: &str, limit: usize) -> (r: (String, bool))
    ensures
        r.0@ == fitting_prefix(s@, limit as nat),
        r.1 == (utf8_len(s@) > limit),
        !r.1 ==> r.0@ == s@,
{
    proof {
        lemma_fitting(s@, limit as int);
    }
    if byte_len(s) <= limit {
        assert(s@.take(s@.len() as int) =~= s@);
        return (String::from_str(s), false);
    }
    let chars = chars_of(s);
    let (n, _) = fit(&chars, limit);
    assert(s@.subrange(0, n as int) =~= s@.take(n as int));
    (string_of(&chars, 0, n), true)
}

/// A truncated text is a start of the text, fits, and could not be longer; a text that fits is
/// left alone.
pub proof fn law_truncation(s: Seq<char>, limit: nat)
    ensures
        fitting_prefix(s, limit).is_prefix_of(s),
        utf8_len(fitting_prefix(s, limit)) <= limit,
        forall|n: int|
            fitting_prefix(s, limit).len() < n <= s.len() ==> utf8_len(#[trigger] s.take(n))
                > limit,
        utf8_len(s) <= limit ==> fitting_prefix(s, limit) == s,
{
    lemma_fitting(s, limit as int);
    assert(s.take(s.len() as int) =~= s);
}

/// Whether Unicode takes a character for a letter or a number.
pub uninterp spec fn alphanumeric(c: char) -> bool;

/// `char::is_alphanumeric`, as a function of the character; of ASCII it takes the letters and the
/// digits.
#[verifier::external_body]
pub(crate) fn is_alphanumeric(c: char) -> (r: bool)
    ensures
        r == alphanumeric(c),
        (c as u32) < 0x80 ==> r == (('0' <= c && c <= '9') || ('A' <= c && c <= 'Z') || ('a' <= c
            && c <= 'z')),
{
    c.is_alphanumeric()
}

/// What a list of runs of characters holds.
pub open spec fn runs(v: Seq<Vec<char>>) -> Seq<Seq<char>> {
    v.map_values(|w: Vec<char>| w@)
}

/// The first index at or after `from` of a character.
pub open spec fn char_from(s: Seq<char>, c: char, from: int) -> Option<int>
    decreases s.len() - from,
{
    if from >= s.len() {
        None
    } else if s[from] == c {
        Some(from)
    } else {
        char_from(s, c, from + 1)
    }
}

/// The last index before `before` of a character.
pub open spec fn char_before(s: Seq<char>, c: char, before: int) -> Option<int>
    decreases before,
{
    if before <= 0 {
        None
    } else if s[before - 1] == c {
        Some(before - 1)
    } else {
        char_before(s, c, before - 1)
    }
}

/// What a found index of a character means.
pub proof fn lemma_char_from(s: Seq<char>, c: char, from: int)
    requires
        0 <= from,
    ensures
        match char_from(s, c, from) {
            Some(i) => from <= i < s.len() && s[i] == c && forall|k: int|
                from <= k < i ==> s[k] != c,
            None => forall|k: int| from <= k < s.len() ==> s[k] != c,
        },
    decreases s.len() - from,
{
    if from < s.len() && s[from] != c {
        lemma_char_from(s, c, from + 1);
    }
}

/// What a found index of a character, from the end, means.
pub proof fn lemma_char_before(s: Seq<char>, c: char, before: int)
    requires
        before <= s.len(),
    ensures
        match char_before(s, c, before) {
            Some(i) => 0 <= i < before && s[i] == c && forall|k: int| i < k < before ==> s[k] != c,
            None => forall|k: int| 0 <= k < before ==> s[k] != c,
        },
    decreases before,
{
    if before > 0 && s[before - 1] != c {
        lemma_char_before(s, c, before - 1);
    }
}

/// The first index at or after `from` of a character.
pub fn find_char(s: &[char], c: char, from: usize) -> (r: Option<usize>)
    requires
        from <= s@.len(),
    ensures
        match r {
            Some(i) => char_from(s@, c, from as int) == Some(i as int) && from <= i < s@.len(),
            None => char_from(s@, c, from as int) is None,
        },
{
    let mut i: usize = from;
    while i < s.len()
        invariant
            from <= i <= s@.len(),
            char_from(s@, c, from as int) == char_from(s@, c, i as int),
        decreases s@.len() - i,
    {
        if s[i] == c {
            return Some(i);
        }
        i += 1;
    }
    None
}

/// The last index of a character.
pub fn rfind_char(s: &[char], c: char) -> (r: Option<usize>)
    ensures
        match r {
            Some(i) => char_before(s@, c, s@.len() as int) == Some(i as int) && i < s@.len(),
            None => char_before(s@, c, s@.len() as int) is None,
        },
{
    let mut i: usize = s.len();
    while i > 0
        invariant
            i <= s@.len(),
            char_before(s@, c, s@.len() as int) == char_before(s@, c, i as int),
        decreases i,
    {
        if s[i - 1] == c {
            return Some(i - 1);
        }
        i -= 1;
    }
    None
}

/// What stands in `s` before the first `c`, or all of it.
pub open spec fn before_first(s: Seq<char>, c: char) -> Seq<char> {
    match char_from(s, c, 0) {
        Some(i) => s.take(i),
        None => s,
    }
}

/// What stands in `s` behind the last `c`, or all of it.
pub open spec fn after_last(s: Seq<char>, c: char) -> Seq<char> {
    match char_before(s, c, s.len() as int) {
        Some(i) => s.skip(i + 1),
        None => s,
    }
}

/// What stands in `s` before the first `c`, or all of it.
pub fn up_to(s: &[char], c: char) -> (r: &[char])
    ensures
        r@ == before_first(s@, c),
        r@.len() <= s@.len(),
{
    match find_char(s, c, 0) {
        Some(i) => {
            assert(s@.subrange(0, i as int) =~= s@.take(i as int));
            vstd::slice::slice_subrange(s, 0, i)
        },
        None => s,
    }
}

/// What stands in `s` behind the last `c`, or all of it.
pub fn behind_last(s: &[char], c: char) -> (r: &[char])
    ensures
        r@ == after_last(s@, c),
        r@.len() <= s@.len(),
{
    let n: usize = s.len();
    match rfind_char(s, c) {
        Some(i) => {
            assert(s@.subrange(i + 1, s@.len() as int) =~= s@.skip(i + 1));
            vstd::slice::slice_subrange(s, i + 1, n)
        },
        None => s,
    }
}

/// `s` without the `c` at its start, however many.
pub open spec fn strip_start(s: Seq<char>, c: char) -> Seq<char>
    decreases s.len(),
{
    if s.len() > 0 && s[0] == c {
        strip_start(s.skip(1), c)
    } else {
        s
    }
}

/// `s` without the `c` at its end, however many.
pub open spec fn strip_end(s: Seq<char>, c: char) -> Seq<char>
    decreases s.len(),
{
    if s.len() > 0 && s.last() == c {
        strip_end(s.drop_last(), c)
    } else {
        s
    }
}

/// `s` without the `c` at its start.
pub fn stripped_start(s: &[char], c: char) -> (r: &[char])
    ensures
        r@ == strip_start(s@, c),
        r@.len() <= s@.len(),
{
    let mut i: usize = 0;
    assert(s@.skip(0) =~= s@);
    while i < s.len() && s[i] == c
        invariant
            i <= s@.len(),
            strip_start(s@, c) == strip_start(s@.skip(i as int), c),
        decreases s@.len() - i,
    {
        assert(s@.skip(i as int).skip(1) =~= s@.skip(i + 1));
        i += 1;
    }
    assert(s@.skip(i as int) =~= s@.subrange(i as int, s@.len() as int));
    vstd::slice::slice_subrange(s, i, s.len())
}

/// `s` without the `c` at its end.
pub fn stripped_end(s: &[char], c: char) -> (r: &[char])
    ensures
        r@ == strip_end(s@, c),
        r@.len() <= s@.len(),
{
    let mut i: usize = s.len();
    assert(s@.take(i as int) =~= s@);
    while i > 0 && s[i - 1] == c
        invariant
            i <= s@.len(),
            strip_end(s@, c) == strip_end(s@.take(i as int), c),
        decreases i,
    {
        assert(s@.take(i as int).drop_last() =~= s@.take(i - 1));
        i -= 1;
    }
    assert(s@.take(i as int) =~= s@.subrange(0, i as int));
    vstd::slice::slice_subrange(s, 0, i)
}

/// What stands behind a start of `s`, where it is one.
pub open spec fn after_prefix(s: Seq<char>, prefix: Seq<char>) -> Option<Seq<char>> {
    if starts_with(s, prefix) {
        Some(s.skip(prefix.len() as int))
    } else {
        None
    }
}

/// What stands behind a start of `s`, where it is one.
pub fn behind_prefix<'a>(s: &'a [char], prefix: &str) -> (r: Option<&'a [char]>)
    ensures
        match r {
            Some(rest) => after_prefix(s@, prefix@) == Some(rest@) && rest@.len() <= s@.len(),
            None => after_prefix(s@, prefix@) is None,
        },
{
    let pattern = chars_of(prefix);
    if is_at(s, &pattern, 0) {
        let n: usize = pattern.len();
        assert(s@.subrange(n as int, s@.len() as int) =~= s@.skip(n as int));
        Some(vstd::slice::slice_subrange(s, n, s.len()))
    } else {
        None
    }
}

/// What stands before and behind the first `pattern` in `s`.
pub open spec fn split_at_first(s: Seq<char>, pattern: Seq<char>) -> Option<
    (Seq<char>, Seq<char>),
> {
    match find_from(s, pattern, 0) {
        Some(i) => Some((s.take(i), s.skip(i + pattern.len()))),
        None => None,
    }
}

/// What stands before and behind the first `pattern` in `s`.
pub fn cut<'a>(s: &'a [char], pattern: &str) -> (r: Option<(&'a [char], &'a [char])>)
    ensures
        match r {
            Some((before, behind)) => split_at_first(s@, pattern@) == Some((before@, behind@))
                && before@.len() <= s@.len() && behind@.len() <= s@.len(),
            None => split_at_first(s@, pattern@) is None,
        },
{
    let wanted = chars_of(pattern);
    proof {
        lemma_find(s@, pattern@, 0);
    }
    match find(s, &wanted, 0) {
        Some(i) => {
            let n: usize = s.len();
            let j: usize = i + wanted.len();
            assert(s@.subrange(0, i as int) =~= s@.take(i as int));
            assert(s@.subrange(j as int, s@.len() as int) =~= s@.skip(j as int));
            Some((vstd::slice::slice_subrange(s, 0, i), vstd::slice::slice_subrange(s, j, n)))
        },
        None => None,
    }
}

/// The parts of `s` between the `c` in it.
pub open spec fn split(s: Seq<char>, c: char) -> Seq<Seq<char>>
    decreases s.len(),
{
    match char_from(s, c, 0) {
        Some(i) => if 0 <= i < s.len() {
            seq![s.take(i)] + split(s.skip(i + 1), c)
        } else {
            seq![s]
        },
        None => seq![s],
    }
}

/// The parts of `s` between the `c` in it.
pub fn split_char(s: &[char], c: char) -> (r: Vec<Vec<char>>)
    ensures
        runs(r@) == split(s@, c),
{
    let mut out: Vec<Vec<char>> = Vec::new();
    let mut rest: &[char] = s;
    assert(runs(out@) + split(rest@, c) =~= split(s@, c));
    loop
        invariant_except_break
            runs(out@) + split(rest@, c) == split(s@, c),
        ensures
            runs(out@) == split(s@, c),
        decreases rest@.len(),
    {
        let ghost before = runs(out@);
        let n: usize = rest.len();
        match find_char(rest, c, 0) {
            None => {
                let part = vstd::slice::slice_to_vec(rest);
                out.push(part);
                assert(runs(out@) =~= before + seq![rest@]);
                break;
            },
            Some(i) => {
                let part = vstd::slice::slice_to_vec(vstd::slice::slice_subrange(rest, 0, i));
                assert(part@ =~= rest@.take(i as int));
                out.push(part);
                let ghost tail = rest@.skip(i + 1);
                assert(rest@.subrange(i + 1, rest@.len() as int) =~= tail);
                assert(runs(out@) =~= before.push(part@));
                assert(before + (seq![part@] + split(tail, c)) =~= before.push(part@) + split(
                    tail,
                    c,
                ));
                rest = vstd::slice::slice_subrange(rest, i + 1, n);
            },
        }
    }
    out
}

/// `s` with every `pattern` in it, from the left and without overlap, replaced.
pub open spec fn replace_all(s: Seq<char>, pattern: Seq<char>, by: Seq<char>) -> Seq<char>
    decreases s.len(),
{
    match find_from(s, pattern, 0) {
        Some(i) => if 0 <= i && pattern.len() > 0 && i + pattern.len() <= s.len() {
            s.take(i) + by + replace_all(s.skip(i + pattern.len()), pattern, by)
        } else {
            s
        },
        None => s,
    }
}

/// `s` with every `pattern` in it replaced.
pub fn replaced(s: &[char], pattern: &str, by: &str) -> (r: Vec<char>)
    requires
        pattern@.len() > 0,
    ensures
        r@ == replace_all(s@, pattern@, by@),
{
    let wanted = chars_of(pattern);
    let new = chars_of(by);
    let mut out: Vec<char> = Vec::new();
    let mut rest: &[char] = s;
    assert(out@ + replace_all(rest@, pattern@, by@) =~= replace_all(s@, pattern@, by@));
    loop
        invariant_except_break
            wanted@ == pattern@,
            new@ == by@,
            pattern@.len() > 0,
            out@ + replace_all(rest@, pattern@, by@) == replace_all(s@, pattern@, by@),
        ensures
            out@ == replace_all(s@, pattern@, by@),
        decreases rest@.len(),
    {
        let ghost before = out@;
        proof {
            lemma_find(rest@, pattern@, 0);
        }
        match find(rest, &wanted, 0) {
            None => {
                out.extend_from_slice(rest);
                assert(out@ =~= before + rest@);
                break;
            },
            Some(i) => {
                let n: usize = rest.len();
                let j: usize = i + wanted.len();
                let head = vstd::slice::slice_subrange(rest, 0, i);
                assert(head@ =~= rest@.take(i as int));
                out.extend_from_slice(head);
                out.extend_from_slice(&new);
                assert(out@ =~= before + rest@.take(i as int) + by@);
                let ghost tail = rest@.skip(j as int);
                assert(rest@.subrange(j as int, rest@.len() as int) =~= tail);
                assert(before + (rest@.take(i as int) + by@ + replace_all(tail, pattern@, by@))
                    =~= out@ + replace_all(tail, pattern@, by@));
                rest = vstd::slice::slice_subrange(rest, j, n);
            },
        }
    }
    out
}

/// The text of a run of characters.
pub fn to_string(s: &[char]) -> (r: String)
    ensures
        r@ == s@,
{
    assert(s@.subrange(0, s@.len() as int) =~= s@);
    string_of(s, 0, s.len())
}

/// The last index at which `pattern` stands in `s`.
pub fn find_last(s: &[char], pattern: &[char]) -> (r: Option<usize>)
    ensures
        match r {
            Some(i) => rfind(s@, pattern@) == Some(i as int) && i + pattern@.len() <= s@.len(),
            None => rfind(s@, pattern@) is None,
        },
{
    let n: usize = s.len();
    assert(!occurs_at(s@, pattern@, n as int) || pattern@.len() == 0);
    if is_at(s, pattern, n) {
        return Some(n);
    }
    let mut i: usize = n;
    while i > 0
        invariant
            i <= n,
            n == s@.len(),
            rfind(s@, pattern@) == rfind_before(s@, pattern@, i as int),
        decreases i,
    {
        if is_at(s, pattern, i - 1) {
            return Some(i - 1);
        }
        i -= 1;
    }
    None
}

/// The parts of `s` between the `pattern` in it.
pub open spec fn split_text(s: Seq<char>, pattern: Seq<char>) -> Seq<Seq<char>>
    decreases s.len(),
{
    match split_at_first(s, pattern) {
        Some((before, behind)) => if behind.len() < s.len() {
            seq![before] + split_text(behind, pattern)
        } else {
            seq![s]
        },
        None => seq![s],
    }
}

/// The parts of `s` between the `pattern` in it.
pub fn split_on(s: &[char], pattern: &str) -> (r: Vec<Vec<char>>)
    requires
        pattern@.len() > 0,
    ensures
        runs(r@) == split_text(s@, pattern@),
{
    let mut out: Vec<Vec<char>> = Vec::new();
    let mut rest: &[char] = s;
    assert(runs(out@) + split_text(rest@, pattern@) =~= split_text(s@, pattern@));
    loop
        invariant_except_break
            pattern@.len() > 0,
            runs(out@) + split_text(rest@, pattern@) == split_text(s@, pattern@),
        ensures
            runs(out@) == split_text(s@, pattern@),
        decreases rest@.len(),
    {
        let ghost before = runs(out@);
        proof {
            lemma_find(rest@, pattern@, 0);
        }
        match cut(rest, pattern) {
            None => {
                let part = vstd::slice::slice_to_vec(rest);
                out.push(part);
                assert(runs(out@) =~= before + seq![rest@]);
                break;
            },
            Some((head, tail)) => {
                let part = vstd::slice::slice_to_vec(head);
                out.push(part);
                assert(runs(out@) =~= before.push(part@));
                assert(before + (seq![part@] + split_text(tail@, pattern@)) =~= before.push(part@)
                    + split_text(tail@, pattern@));
                rest = tail;
            },
        }
    }
    out
}

/// Whether a byte offset stands between two characters of `s`, or at one of its ends.
pub open spec fn char_boundary(s: Seq<char>, offset: nat) -> bool {
    offset == utf8_len(fitting_prefix(s, offset))
}

/// An offset is a boundary exactly where it is the length of a start of the text.
pub proof fn lemma_char_boundary(s: Seq<char>, n: int)
    requires
        0 <= n <= s.len(),
    ensures
        char_boundary(s, utf8_len(s.take(n))),
        fitting(s, utf8_len(s.take(n)) as int) == n,
{
    let offset = utf8_len(s.take(n));
    lemma_fitting(s, offset as int);
    let k = fitting(s, offset as int) as int;
    if k > n {
        assert(s.take(k) =~= s.take(n) + s.subrange(n, k));
        lemma_utf8_len_add(s.take(n), s.subrange(n, k));
        lemma_utf8_len(s.subrange(n, k));
    }
}

/// Whether a byte offset stands between two characters of `s`, or at one of its ends; and if so,
/// the index of the character behind it.
pub fn char_index(s: &[char], offset: usize) -> (r: Option<usize>)
    ensures
        r is Some == char_boundary(s@, offset as nat),
        r is Some ==> r->0 == fitting(s@, offset as int) && r->0 <= s@.len() && utf8_len(
            s@.take(r->0 as int),
        ) == offset,
{
    let (n, bytes) = fit(s, offset);
    if bytes == offset {
        Some(n)
    } else {
        None
    }
}

/// The byte offset of a character of a text that a machine integer can count.
pub fn offset_of(s: &[char], index: usize) -> (r: usize)
    requires
        index <= s@.len(),
        utf8_len(s@) <= usize::MAX,
    ensures
        r == utf8_len(s@.take(index as int)),
        r <= utf8_len(s@),
{
    let mut i: usize = 0;
    let mut offset: usize = 0;
    assert(s@.take(0) =~= Seq::<char>::empty());
    proof {
        lemma_take_len(s@, index as int);
    }
    while i < index
        invariant
            i <= index <= s@.len(),
            utf8_len(s@) <= usize::MAX,
            offset == utf8_len(s@.take(i as int)),
        decreases index - i,
    {
        proof {
            lemma_take_len(s@, i + 1);
            assert(s@.take(i + 1).drop_last() =~= s@.take(i as int));
        }
        offset += width(s[i]);
        i += 1;
    }
    offset
}

/// A start of a text is no longer than the text.
pub proof fn lemma_take_len(s: Seq<char>, n: int)
    requires
        0 <= n <= s.len(),
    ensures
        utf8_len(s.take(n)) <= utf8_len(s),
{
    assert(s =~= s.take(n) + s.skip(n));
    lemma_utf8_len_add(s.take(n), s.skip(n));
}

/// Texts put together with a separator between each two.
pub fn joined(parts: &Vec<Vec<char>>, separator: &str) -> (r: Vec<char>)
    ensures
        r@ == join(runs(parts@), separator@),
{
    let between = chars_of(separator);
    let ghost all = runs(parts@);
    let mut out: Vec<char> = Vec::new();
    let mut i: usize = 0;
    assert(all.take(0) =~= Seq::<Seq<char>>::empty());
    while i < parts.len()
        invariant
            i <= parts@.len(),
            all == runs(parts@),
            between@ == separator@,
            out@ == join(all.take(i as int), separator@),
        decreases parts@.len() - i,
    {
        assert(all.take(i + 1).drop_last() =~= all.take(i as int));
        assert(all.take(i + 1).last() == parts@[i as int]@);
        if i > 0 {
            out.extend_from_slice(&between);
        }
        out.extend_from_slice(&parts[i]);
        assert(out@ =~= join(all.take(i + 1), separator@));
        i += 1;
    }
    assert(all.take(i as int) =~= all);
    out
}

/// Puts a text behind another.
pub fn put(out: &mut Vec<char>, more: &str)
    ensures
        final(out)@ == old(out)@ + more@,
{
    let chars = chars_of(more);
    out.extend_from_slice(&chars);
    assert(out@ =~= old(out)@ + more@);
}

/// Whether a character stands in `s`.
pub fn holds(s: &[char], c: char) -> (r: bool)
    ensures
        r == s@.contains(c),
{
    proof {
        lemma_char_from(s@, c, 0);
    }
    match find_char(s, c, 0) {
        Some(i) => {
            assert(s@[i as int] == c);
            true
        },
        None => false,
    }
}

/// Whether `s` ends with a text.
pub fn ends(s: &[char], end: &str) -> (r: bool)
    ensures
        r == ends_with(s@, end@),
{
    let pattern = chars_of(end);
    if pattern.len() > s.len() {
        return false;
    }
    is_at(s, &pattern, s.len() - pattern.len())
}

/// Whether `s` starts with a text.
pub fn begins(s: &[char], start: &str) -> (r: bool)
    ensures
        r == starts_with(s@, start@),
{
    is_at(s, &chars_of(start), 0)
}

/// The indices, from `from` on, at which `pattern` stands in `s`, none within another.
pub open spec fn occurrences(s: Seq<char>, pattern: Seq<char>, from: int) -> Seq<int>
    decreases s.len() + 1 - from,
{
    match find_from(s, pattern, from) {
        Some(i) => if from <= i && pattern.len() > 0 && i + pattern.len() <= s.len() {
            seq![i] + occurrences(s, pattern, i + pattern.len())
        } else {
            Seq::empty()
        },
        None => Seq::empty(),
    }
}

/// Every occurrence lies within the text, behind the one before.
pub proof fn lemma_occurrences(s: Seq<char>, pattern: Seq<char>, from: int)
    requires
        0 <= from,
    ensures
        forall|k: int|
            0 <= k < occurrences(s, pattern, from).len() ==> from
                <= #[trigger] occurrences(s, pattern, from)[k] && occurs_at(
                s,
                pattern,
                occurrences(s, pattern, from)[k],
            ),
        forall|j: int, k: int|
            0 <= j < k < occurrences(s, pattern, from).len() ==> #[trigger] occurrences(
                s,
                pattern,
                from,
            )[j] + pattern.len() <= #[trigger] occurrences(s, pattern, from)[k],
    decreases s.len() + 1 - from,
{
    lemma_find(s, pattern, from);
    match find_from(s, pattern, from) {
        Some(i) => {
            if pattern.len() > 0 && i + pattern.len() <= s.len() {
                let rest = occurrences(s, pattern, i + pattern.len());
                let all = occurrences(s, pattern, from);
                lemma_occurrences(s, pattern, i + pattern.len());
                assert(all == seq![i] + rest);
                assert forall|k: int| 0 <= k < all.len() implies from <= #[trigger] all[k]
                    && occurs_at(s, pattern, all[k]) by {
                    if k > 0 {
                        assert(all[k] == rest[k - 1]);
                    }
                }
                assert forall|j: int, k: int| 0 <= j < k < all.len() implies #[trigger] all[j]
                    + pattern.len() <= #[trigger] all[k] by {
                    assert(all[k] == rest[k - 1]);
                    if j > 0 {
                        assert(all[j] == rest[j - 1]);
                    }
                }
            }
        },
        None => {},
    }
}

/// The numbers in a list of machine numbers.
pub open spec fn numbers(v: Seq<usize>) -> Seq<int> {
    v.map_values(|n: usize| n as int)
}

/// The indices at which `pattern` stands in `s`, none within another.
pub fn find_all(s: &[char], pattern: &[char]) -> (r: Vec<usize>)
    ensures
        numbers(r@) == occurrences(s@, pattern@, 0),
{
    let n: usize = s.len();
    let m: usize = pattern.len();
    let mut out: Vec<usize> = Vec::new();
    let mut from: usize = 0;
    let ghost goal = occurrences(s@, pattern@, 0);
    assert(numbers(out@) + goal =~= goal);
    if m == 0 {
        return out;
    }
    loop
        invariant_except_break
            n == s@.len(),
            0 < m == pattern@.len(),
            from <= n,
            goal == occurrences(s@, pattern@, 0),
            goal == numbers(out@) + occurrences(s@, pattern@, from as int),
        ensures
            goal == numbers(out@),
        decreases n - from,
    {
        proof {
            lemma_find(s@, pattern@, from as int);
        }
        match find(s, pattern, from) {
            None => {
                assert(numbers(out@) + Seq::<int>::empty() =~= numbers(out@));
                break;
            },
            Some(i) => {
                let ghost before = numbers(out@);
                out.push(i);
                assert(numbers(out@) =~= before.push(i as int));
                from = i + m;
                proof {
                    let rest = occurrences(s@, pattern@, from as int);
                    assert(before + (seq![i as int] + rest) =~= before.push(i as int) + rest);
                }
            },
        }
    }
    out
}

/// Trimming leaves no more than there was.
pub proof fn lemma_trim_len(s: Seq<char>)
    ensures
        trim(s).len() <= s.len(),
{
    lemma_trim_start_len(s);
    lemma_trim_end_len(trim_start(s));
}

proof fn lemma_trim_start_len(s: Seq<char>)
    ensures
        trim_start(s).len() <= s.len(),
    decreases s.len(),
{
    if s.len() > 0 {
        lemma_trim_start_len(s.skip(1));
    }
}

/// Trimming the end leaves no more than there was.
pub proof fn lemma_trim_end_len(s: Seq<char>)
    ensures
        trim_end(s).len() <= s.len(),
    decreases s.len(),
{
    if s.len() > 0 {
        lemma_trim_end_len(s.drop_last());
    }
}

/// The first `n` elements, or all where there are fewer.
pub open spec fn first<A>(s: Seq<A>, n: nat) -> Seq<A> {
    if s.len() <= n {
        s
    } else {
        s.take(n as int)
    }
}

/// Filtering and mapping one element more.
pub proof fn lemma_filter_map_step<A, B>(
    s: Seq<A>,
    keep: spec_fn(A) -> bool,
    to: spec_fn(A) -> B,
    i: int,
)
    requires
        0 <= i < s.len(),
    ensures
        s.take(i + 1).filter(keep).map_values(to) == (if keep(s[i]) {
            s.take(i).filter(keep).map_values(to).push(to(s[i]))
        } else {
            s.take(i).filter(keep).map_values(to)
        }),
{
    lemma_filter_step(s, keep, i);
    assert(s.take(i + 1).filter(keep).map_values(to) =~= (if keep(s[i]) {
        s.take(i).filter(keep).map_values(to).push(to(s[i]))
    } else {
        s.take(i).filter(keep).map_values(to)
    }));
}

/// Filtering and mapping nothing.
pub proof fn lemma_filter_map_none<A, B>(s: Seq<A>, keep: spec_fn(A) -> bool, to: spec_fn(A) -> B)
    ensures
        s.take(0).filter(keep).map_values(to) == Seq::<B>::empty(),
{
    reveal(Seq::filter);
    assert(s.take(0).filter(keep).map_values(to) =~= Seq::<B>::empty());
}

/// Whether the characters of one text come before those of another.
pub open spec fn lexically_before(a: Seq<char>, b: Seq<char>) -> bool
    decreases a.len(),
{
    if b.len() == 0 {
        false
    } else if a.len() == 0 {
        true
    } else if a[0] == b[0] {
        lexically_before(a.skip(1), b.skip(1))
    } else {
        a[0] < b[0]
    }
}

/// Whether the characters of one text come before those of another.
pub fn is_lexically_before(a: &[char], b: &[char]) -> (r: bool)
    ensures
        r == lexically_before(a@, b@),
{
    let n: usize = a.len();
    let m: usize = b.len();
    let mut i: usize = 0;
    assert(a@.skip(0) =~= a@);
    assert(b@.skip(0) =~= b@);
    while i < n && i < m
        invariant
            n == a@.len(),
            m == b@.len(),
            i <= n,
            i <= m,
            lexically_before(a@, b@) == lexically_before(a@.skip(i as int), b@.skip(i as int)),
        decreases n - i,
    {
        assert(a@.skip(i as int)[0] == a@[i as int]);
        assert(b@.skip(i as int)[0] == b@[i as int]);
        assert(a@.skip(i as int).skip(1) =~= a@.skip(i + 1));
        assert(b@.skip(i as int).skip(1) =~= b@.skip(i + 1));
        if a[i] != b[i] {
            return a[i] < b[i];
        }
        i += 1;
    }
    i < m
}

/// Of two texts that differ, one comes before the other and not the other way round.
pub proof fn lemma_lexical(a: Seq<char>, b: Seq<char>)
    ensures
        !(lexically_before(a, b) && lexically_before(b, a)),
        a != b ==> lexically_before(a, b) || lexically_before(b, a),
        a == b ==> !lexically_before(a, b),
    decreases a.len(),
{
    if a.len() > 0 && b.len() > 0 {
        if a[0] == b[0] {
            lemma_lexical(a.skip(1), b.skip(1));
            if a.skip(1) == b.skip(1) {
                assert(a =~= seq![a[0]] + a.skip(1));
                assert(b =~= seq![b[0]] + b.skip(1));
                assert(a == b);
            }
        }
    } else if a.len() == 0 && b.len() == 0 {
        assert(a =~= b);
    }
}

/// What comes before what comes before something comes before it.
pub proof fn lemma_lexical_chain(a: Seq<char>, b: Seq<char>, c: Seq<char>)
    requires
        lexically_before(a, b),
        lexically_before(b, c),
    ensures
        lexically_before(a, c),
    decreases a.len(),
{
    if a.len() > 0 && a[0] == b[0] && b[0] == c[0] {
        lemma_lexical_chain(a.skip(1), b.skip(1), c.skip(1));
    }
}

} // verus!
