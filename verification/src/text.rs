//! Character-sequence helpers shared by the parsers: prefix and substring
//! tests, searches, decimal numbers and UTF-8 byte offsets.
use vstd::prelude::*;
use vstd::std_specs::iter::IteratorSpec;

verus! {

broadcast use vstd::string::group_string_axioms;

// ---------------------------------------------------------------------------
// Specification helpers
// ---------------------------------------------------------------------------

/// `s` begins with `p`.
pub open spec fn starts_with(s: Seq<char>, p: Seq<char>) -> bool {
    p.len() <= s.len() && s.take(p.len() as int) == p
}

/// `p` occurs in `s` starting at index `i`.
pub open spec fn occurs_at(s: Seq<char>, p: Seq<char>, i: int) -> bool {
    0 <= i && i + p.len() <= s.len() && s.subrange(i, i + p.len()) == p
}

/// The first index at or after `i` where `p` occurs in `s`.
pub open spec fn find_from(s: Seq<char>, p: Seq<char>, i: int) -> Option<int>
    decreases s.len() + 1 - i,
{
    if i < 0 || i + p.len() > s.len() {
        None
    } else if occurs_at(s, p, i) {
        Some(i)
    } else {
        find_from(s, p, i + 1)
    }
}

/// The first index where `p` occurs in `s`.
pub open spec fn find(s: Seq<char>, p: Seq<char>) -> Option<int> {
    find_from(s, p, 0)
}

/// `p` occurs somewhere in `s`.
pub open spec fn contains(s: Seq<char>, p: Seq<char>) -> bool {
    find(s, p) is Some
}

/// The first index at or after `i` whose character belongs to `set`.
pub open spec fn first_in_from(s: Seq<char>, set: Seq<char>, i: int) -> Option<int>
    decreases s.len() - i,
{
    if i < 0 || i >= s.len() {
        None
    } else if set.contains(s[i]) {
        Some(i)
    } else {
        first_in_from(s, set, i + 1)
    }
}

/// The first index whose character belongs to `set`.
pub open spec fn first_in(s: Seq<char>, set: Seq<char>) -> Option<int> {
    first_in_from(s, set, 0)
}

/// An ASCII decimal digit (`char::is_digit(10)`).
pub open spec fn is_digit(c: char) -> bool {
    '0' <= c && c <= '9'
}

/// The first index at or after `i` whose character is not a decimal digit.
pub open spec fn first_non_digit_from(s: Seq<char>, i: int) -> Option<int>
    decreases s.len() - i,
{
    if i < 0 || i >= s.len() {
        None
    } else if !is_digit(s[i]) {
        Some(i)
    } else {
        first_non_digit_from(s, i + 1)
    }
}

/// Every character of `s` is a decimal digit.
pub open spec fn all_digits(s: Seq<char>) -> bool {
    forall|i: int| 0 <= i < s.len() ==> #[trigger] is_digit(s[i])
}

/// The numeric value of a digit character.
pub open spec fn digit_value(c: char) -> nat {
    (c as int - '0' as int) as nat
}

/// The value of a string of decimal digits, most significant first.
pub open spec fn digits_value(s: Seq<char>) -> nat
    decreases s.len(),
{
    if s.len() == 0 {
        0
    } else {
        digits_value(s.drop_last()) * 10 + digit_value(s.last())
    }
}

/// The character of a single decimal digit.
pub open spec fn digit_char(d: nat) -> char {
    ('0' as int + d) as char
}

/// The decimal representation of `n`, without leading zeros.
pub open spec fn decimal(n: nat) -> Seq<char>
    decreases n,
{
    if n < 10 {
        seq![digit_char(n)]
    } else {
        decimal(n / 10).push(digit_char(n % 10))
    }
}

/// The text before the first occurrence of `c`, and the text after it.
pub open spec fn split_once_char(s: Seq<char>, c: char) -> Option<(Seq<char>, Seq<char>)> {
    match first_in(s, seq![c]) {
        Some(i) => Some((s.take(i), s.skip(i + 1))),
        None => None,
    }
}

/// The number of bytes of the UTF-8 encoding of `c`.
pub open spec fn utf8_width(c: char) -> nat {
    if c as u32 <= 0x7f {
        1
    } else if c as u32 <= 0x7ff {
        2
    } else if c as u32 <= 0xffff {
        3
    } else {
        4
    }
}

/// The number of bytes of the UTF-8 encoding of `s`.
pub open spec fn utf8_len(s: Seq<char>) -> nat
    decreases s.len(),
{
    if s.len() == 0 {
        0
    } else {
        utf8_width(s[0]) + utf8_len(s.drop_first())
    }
}

/// The number `k` of leading characters of `s` whose UTF-8 encoding takes
/// exactly `b` bytes; `None` when byte offset `b` lies inside a character
/// or beyond the end, which is where `str::split_at(b)` panics.
pub open spec fn chars_for_bytes(s: Seq<char>, b: int) -> Option<int>
    decreases s.len(),
{
    if b == 0 {
        Some(0)
    } else if b < 0 || s.len() == 0 {
        None
    } else {
        match chars_for_bytes(s.drop_first(), b - utf8_width(s[0])) {
            Some(k) => Some(k + 1),
            None => None,
        }
    }
}

/// The pieces of `s` between the occurrences of `sep` (`str::split`).
pub open spec fn split_on(s: Seq<char>, sep: Seq<char>) -> Seq<Seq<char>>
    decreases s.len(),
{
    if sep.len() == 0 {
        seq![s]
    } else {
        match find(s, sep) {
            Some(i) => {
                proof {
                    lemma_find_from_bounds(s, sep, 0);
                }
                seq![s.take(i)] + split_on(s.skip(i + sep.len()), sep)
            },
            None => seq![s],
        }
    }
}

/// The number of characters of `s` before the first character of `set`, as
/// `s.split_at(s.chars().position(|c| set.contains(c)).unwrap_or(s.len()))`
/// takes them: the character index found serves as a byte offset, and
/// splitting at the full byte length keeps the whole text. `None` where
/// that byte offset falls inside a character.
pub open spec fn token_end(s: Seq<char>, set: Seq<char>) -> Option<int> {
    match first_in(s, set) {
        Some(i) => chars_for_bytes(s, i),
        None => Some(s.len() as int),
    }
}

/// `t` is accepted by `str::parse::<u32>()`, and the value it gives.
pub open spec fn parse_u32(t: Seq<char>) -> Option<u32> {
    let d = if t.len() > 0 && t[0] == '+' {
        t.drop_first()
    } else {
        t
    };
    if d.len() > 0 && all_digits(d) && digits_value(d) <= u32::MAX {
        Some(digits_value(d) as u32)
    } else {
        None
    }
}

/// `t` is accepted by `str::parse::<i64>()`.
pub open spec fn parses_as_i64(t: Seq<char>) -> bool {
    if t.len() > 0 && t[0] == '-' {
        let d = t.drop_first();
        d.len() > 0 && all_digits(d) && digits_value(d) <= 0x8000_0000_0000_0000
    } else if t.len() > 0 && t[0] == '+' {
        let d = t.drop_first();
        d.len() > 0 && all_digits(d) && digits_value(d) <= 0x7fff_ffff_ffff_ffff
    } else {
        t.len() > 0 && all_digits(t) && digits_value(t) <= 0x7fff_ffff_ffff_ffff
    }
}

/// The first piece of `s` split on spaces (`s.split(" ").next()`).
pub open spec fn first_word(s: Seq<char>) -> Seq<char> {
    match split_once_char(s, ' ') {
        Some((a, _)) => a,
        None => s,
    }
}

/// The text of `s` before the first occurrence of `p` (all of `s` without one).
pub open spec fn before_first(s: Seq<char>, p: Seq<char>) -> Seq<char> {
    match find(s, p) {
        Some(i) => s.take(i),
        None => s,
    }
}

// ---------------------------------------------------------------------------
// Lemmas
// ---------------------------------------------------------------------------

/// A match found by `find_from` lies inside `s`, at or after `i`, and the
/// pattern occurs there.
pub proof fn lemma_find_from_bounds(s: Seq<char>, p: Seq<char>, i: int)
    ensures
        find_from(s, p, i) matches Some(j) ==> i <= j && j + p.len() <= s.len() && occurs_at(
            s,
            p,
            j,
        ),
    decreases s.len() + 1 - i,
{
    if i < 0 || i + p.len() > s.len() {
    } else if occurs_at(s, p, i) {
    } else {
        lemma_find_from_bounds(s, p, i + 1);
    }
}

/// An index found by `first_in_from` lies inside `s` and its character is in the set.
pub proof fn lemma_first_in_from_bounds(s: Seq<char>, set: Seq<char>, i: int)
    ensures
        first_in_from(s, set, i) matches Some(j) ==> i <= j < s.len() && set.contains(s[j]),
    decreases s.len() - i,
{
    if i < 0 || i >= s.len() {
    } else if set.contains(s[i]) {
    } else {
        lemma_first_in_from_bounds(s, set, i + 1);
    }
}

/// An index found by `first_non_digit_from` lies inside `s`.
pub proof fn lemma_first_non_digit_from_bounds(s: Seq<char>, i: int)
    ensures
        first_non_digit_from(s, i) matches Some(j) ==> i <= j < s.len() && !is_digit(s[j]),
    decreases s.len() - i,
{
    if i < 0 || i >= s.len() {
    } else if !is_digit(s[i]) {
    } else {
        lemma_first_non_digit_from_bounds(s, i + 1);
    }
}

/// `chars_for_bytes` never goes past the end of `s`.
pub proof fn lemma_chars_for_bytes_bounds(s: Seq<char>, b: int)
    ensures
        chars_for_bytes(s, b) matches Some(k) ==> 0 <= k <= s.len(),
    decreases s.len(),
{
    if b == 0 {
    } else if b < 0 || s.len() == 0 {
    } else {
        lemma_chars_for_bytes_bounds(s.drop_first(), b - utf8_width(s[0]));
    }
}

/// Counting bytes from the front of `s` or from the front of `s` with a
/// prefix removed agree.
proof fn lemma_chars_for_bytes_step(s: Seq<char>, i: int, b: int)
    requires
        0 <= i < s.len(),
        b > 0,
    ensures
        chars_for_bytes(s.skip(i), b) == (match chars_for_bytes(
            s.skip(i + 1),
            b - utf8_width(s[i]),
        ) {
            Some(k) => Some(k + 1),
            None => None::<int>,
        }),
{
    assert(s.skip(i).drop_first() == s.skip(i + 1));
}

/// Splitting at the full byte length of a text yields the whole text.
pub proof fn lemma_chars_for_bytes_full(s: Seq<char>)
    ensures
        chars_for_bytes(s, utf8_len(s) as int) == Some(s.len() as int),
    decreases s.len(),
{
    if s.len() > 0 {
        lemma_chars_for_bytes_full(s.drop_first());
    }
}

/// Splitting `a + b` at the byte length of `a` separates `a` from `b`.
pub proof fn lemma_chars_for_bytes_concat(a: Seq<char>, b: Seq<char>)
    ensures
        chars_for_bytes(a + b, utf8_len(a) as int) == Some(a.len() as int),
    decreases a.len(),
{
    if a.len() > 0 {
        assert((a + b).drop_first() == a.drop_first() + b);
        lemma_chars_for_bytes_concat(a.drop_first(), b);
    }
}

/// `utf8_len` agrees with the length of vstd's UTF-8 encoding.
pub proof fn lemma_utf8_len_encode(s: Seq<char>)
    ensures
        utf8_len(s) == vstd::utf8::encode_utf8(s).len(),
    decreases s.len(),
{
    if s.len() > 0 {
        let c = s[0];
        vstd::utf8::char_is_scalar(c);
        lemma_utf8_len_encode(s.drop_first());
    }
}

/// The digits of `s` before the first non-digit are all digits.
pub proof fn lemma_digit_prefix(s: Seq<char>, i: int)
    requires
        0 <= i <= s.len(),
        forall|j: int| 0 <= j < i ==> is_digit(#[trigger] s[j]),
    ensures
        match first_non_digit_from(s, i) {
            Some(j) => all_digits(s.take(j)),
            None => all_digits(s),
        },
    decreases s.len() - i,
{
    if i >= s.len() {
    } else if !is_digit(s[i]) {
    } else {
        lemma_digit_prefix(s, i + 1);
    }
}

/// `token_end` never goes past the end of `s`.
pub proof fn lemma_token_end_bounds(s: Seq<char>, set: Seq<char>)
    ensures
        token_end(s, set) matches Some(k) ==> 0 <= k <= s.len(),
{
    lemma_first_in_from_bounds(s, set, 0);
    if let Some(i) = first_in(s, set) {
        lemma_chars_for_bytes_bounds(s, i);
    }
}

/// Over an ASCII prefix, byte offsets and character indices coincide.
pub proof fn lemma_chars_for_bytes_ascii(s: Seq<char>, i: int)
    requires
        0 <= i <= s.len(),
        forall|j: int| 0 <= j < i ==> (#[trigger] s[j]) as u32 <= 0x7f,
    ensures
        chars_for_bytes(s, i) == Some(i),
    decreases s.len(),
{
    if i > 0 {
        assert(s[0] as u32 <= 0x7f);
        assert forall|j: int| 0 <= j < i - 1 implies (#[trigger] s.drop_first()[j]) as u32 <= 0x7f by {
            assert(s.drop_first()[j] == s[j + 1]);
        }
        lemma_chars_for_bytes_ascii(s.drop_first(), i - 1);
    }
}

/// The digit prefix of a text is split at its character count.
pub proof fn lemma_digit_split(s: Seq<char>)
    ensures
        match first_non_digit_from(s, 0) {
            Some(i) => chars_for_bytes(s, i) == Some(i) && all_digits(s.take(i)),
            None => all_digits(s),
        },
{
    lemma_digit_prefix(s, 0);
    lemma_first_non_digit_from_bounds(s, 0);
    if let Some(i) = first_non_digit_from(s, 0) {
        assert forall|j: int| 0 <= j < i implies (#[trigger] s[j]) as u32 <= 0x7f by {
            assert(is_digit(s.take(i)[j]));
        }
        lemma_chars_for_bytes_ascii(s, i);
    }
}

/// Taking one more digit multiplies the value by ten and adds the digit.
proof fn lemma_digits_value_step(s: Seq<char>, i: int)
    requires
        0 <= i < s.len(),
    ensures
        digits_value(s.take(i + 1)) == digits_value(s.take(i)) * 10 + digit_value(s[i]),
{
    assert(s.take(i + 1).drop_last() == s.take(i));
}

/// The decimal representation of `n` is a nonempty run of digits worth `n`.
pub proof fn lemma_decimal(n: nat)
    ensures
        decimal(n).len() > 0,
        all_digits(decimal(n)),
        digits_value(decimal(n)) == n,
    decreases n,
{
    lemma_digit_char(n % 10);
    assert(n == (n / 10) * 10 + n % 10);
    if n < 10 {
        assert(decimal(n).drop_last() =~= Seq::<char>::empty());
        assert(decimal(n).last() == digit_char(n));
        assert(n % 10 == n);
        assert(digits_value(Seq::<char>::empty()) == 0);
        assert(digits_value(decimal(n)) == digits_value(decimal(n).drop_last()) * 10 + digit_value(decimal(n).last()));
        assert(digit_value(decimal(n).last()) == n);
    } else {
        lemma_decimal(n / 10);
        let d = decimal(n / 10);
        assert(decimal(n).drop_last() == d);
        assert(decimal(n).last() == digit_char(n % 10));
        assert(digits_value(decimal(n)) == digits_value(d) * 10 + digit_value(decimal(n).last()));
        assert(digits_value(decimal(n)) == (n / 10) * 10 + n % 10);
        assert forall|i: int| 0 <= i < decimal(n).len() implies #[trigger] is_digit(decimal(n)[i]) by {
            if i < d.len() {
                assert(decimal(n)[i] == d[i]);
            }
        }
    }
}

/// A digit's character is a digit worth that digit.
pub proof fn lemma_digit_char(d: nat)
    requires
        d < 10,
    ensures
        is_digit(digit_char(d)),
        digit_value(digit_char(d)) == d,
{
    assert(('0' as int + d) == 48 + d);
    assert((48 + d) as char as int == 48 + d);
}

/// In a run of digits followed by a non-digit, the first non-digit is
/// right after the run.
pub proof fn lemma_first_non_digit_after(d: Seq<char>, u: Seq<char>, i: int)
    requires
        all_digits(d),
        u.len() > 0,
        !is_digit(u[0]),
        0 <= i <= d.len(),
    ensures
        first_non_digit_from(d + u, i) == Some(d.len() as int),
    decreases d.len() - i,
{
    if i < d.len() {
        assert((d + u)[i] == d[i]);
        lemma_first_non_digit_after(d, u, i + 1);
    } else {
        assert((d + u)[i] == u[0]);
    }
}

/// The first character of `set` in `s` is at `k` when none comes before
/// it.
pub proof fn lemma_first_in_at(s: Seq<char>, set: Seq<char>, k: int, i: int)
    requires
        0 <= i <= k < s.len(),
        forall|j: int| i <= j < k ==> !set.contains(#[trigger] s[j]),
        set.contains(s[k]),
    ensures
        first_in_from(s, set, i) == Some(k),
    decreases k - i,
{
    if i < k {
        lemma_first_in_at(s, set, k, i + 1);
    }
}

/// No character of `set` occurs in `s`.
pub proof fn lemma_first_in_absent(s: Seq<char>, set: Seq<char>, i: int)
    requires
        0 <= i <= s.len(),
        forall|j: int| i <= j < s.len() ==> !set.contains(#[trigger] s[j]),
    ensures
        first_in_from(s, set, i) is None,
    decreases s.len() - i,
{
    if i < s.len() {
        lemma_first_in_absent(s, set, i + 1);
    }
}

// ---------------------------------------------------------------------------
// Executable helpers
// ---------------------------------------------------------------------------

/// Appends one character to a string (`String::push`).
#[verifier::external_body]
fn push_char(s: &mut String, c: char)
    ensures
        final(s)@ == old(s)@.push(c),
{
    s.push(c);
}

/// The characters of `s`.
pub fn chars_of(s: &str) -> (v: Vec<char>)
    ensures
        v@ == s@,
{
    let mut v: Vec<char> = Vec::new();
    for c in it: s.chars()
        invariant
            v@ == it.seq().take(it.index() as int),
            it.seq() == s@,
    {
        v.push(c);
    }
    v
}

/// A string holding the characters `s[from..to]`.
pub fn string_of(s: &Vec<char>, from: usize, to: usize) -> (r: String)
    requires
        from <= to <= s.len(),
    ensures
        r@ == s@.subrange(from as int, to as int),
{
    let mut r = String::new();
    let mut i = from;
    while i < to
        invariant
            from <= i <= to <= s.len(),
            r@ == s@.subrange(from as int, i as int),
        decreases to - i,
    {
        push_char(&mut r, s[i]);
        assert(s@.subrange(from as int, i + 1) == s@.subrange(from as int, i as int).push(s@[i as int]));
        i += 1;
    }
    r
}

/// `c` is one of the characters of `set`.
pub fn char_in(set: &str, c: char) -> (b: bool)
    ensures
        b == set@.contains(c),
{
    let n = set.unicode_len();
    let mut i: usize = 0;
    while i < n
        invariant
            n == set@.len(),
            i <= n,
            forall|j: int| 0 <= j < i ==> set@[j] != c,
        decreases n - i,
    {
        if set.get_char(i) == c {
            assert(set@[i as int] == c);
            return true;
        }
        i += 1;
    }
    false
}

/// The window `s[pos..end]` begins with `lit`.
pub fn starts_with_at(s: &Vec<char>, pos: usize, end: usize, lit: &str) -> (b: bool)
    requires
        pos <= end <= s.len(),
    ensures
        b == starts_with(s@.subrange(pos as int, end as int), lit@),
{
    let n = lit.unicode_len();
    if n > end - pos {
        return false;
    }
    let ghost w = s@.subrange(pos as int, end as int);
    let mut i: usize = 0;
    while i < n
        invariant
            n == lit@.len(),
            n <= end - pos,
            pos <= end <= s.len(),
            w == s@.subrange(pos as int, end as int),
            i <= n,
            forall|j: int| 0 <= j < i ==> w[j] == lit@[j],
        decreases n - i,
    {
        if s[pos + i] != lit.get_char(i) {
            assert(w.take(n as int)[i as int] != lit@[i as int]);
            return false;
        }
        i += 1;
    }
    assert(w.take(n as int) == lit@);
    true
}

/// The first index at or after `pos` in `s[..end]` where `lit` occurs.
pub fn find_at(s: &Vec<char>, pos: usize, end: usize, lit: &str) -> (r: Option<usize>)
    requires
        pos <= end <= s.len(),
    ensures
        r == (match find(s@.subrange(pos as int, end as int), lit@) {
            Some(j) => Some((j + pos) as usize),
            None => None::<usize>,
        }),
{
    let ghost w = s@.subrange(pos as int, end as int);
    let n = lit.unicode_len();
    let mut i = pos;
    loop
        invariant
            pos <= i <= end <= s.len(),
            n == lit@.len(),
            w == s@.subrange(pos as int, end as int),
            find(w, lit@) == find_from(w, lit@, i - pos),
        decreases end - i,
    {
        if end - i < n {
            return None;
        }
        let b = starts_with_at(s, i, end, lit);
        assert(s@.subrange(i as int, end as int) == w.skip(i - pos));
        assert(w.skip(i - pos).take(n as int) == w.subrange(i - pos, i - pos + n));
        if b {
            return Some(i);
        }
        if i == end {
            assert(n > 0) by {
                if n == 0 {
                    assert(w.skip(i - pos).take(0) =~= lit@);
                }
            }
            return None;
        }
        i += 1;
    }
}

/// The first index at or after `pos` in `s[..end]` whose character is in `set`.
pub fn first_in_at(s: &Vec<char>, pos: usize, end: usize, set: &str) -> (r: Option<usize>)
    requires
        pos <= end <= s.len(),
    ensures
        r == (match first_in(s@.subrange(pos as int, end as int), set@) {
            Some(j) => Some((j + pos) as usize),
            None => None::<usize>,
        }),
{
    let ghost w = s@.subrange(pos as int, end as int);
    let mut i = pos;
    while i < end
        invariant
            pos <= i <= end <= s.len(),
            w == s@.subrange(pos as int, end as int),
            first_in(w, set@) == first_in_from(w, set@, i - pos),
        decreases end - i,
    {
        if char_in(set, s[i]) {
            return Some(i);
        }
        i += 1;
    }
    None
}

/// The first index at or after `pos` in `s[..end]` whose character is not a digit.
pub fn first_non_digit_at(s: &Vec<char>, pos: usize, end: usize) -> (r: Option<usize>)
    requires
        pos <= end <= s.len(),
    ensures
        r == (match first_non_digit_from(s@.subrange(pos as int, end as int), 0) {
            Some(j) => Some((j + pos) as usize),
            None => None::<usize>,
        }),
{
    let ghost w = s@.subrange(pos as int, end as int);
    let mut i = pos;
    while i < end
        invariant
            pos <= i <= end <= s.len(),
            w == s@.subrange(pos as int, end as int),
            first_non_digit_from(w, 0) == first_non_digit_from(w, i - pos),
        decreases end - i,
    {
        let c = s[i];
        if !('0' <= c && c <= '9') {
            return Some(i);
        }
        i += 1;
    }
    None
}

/// The number of bytes of the UTF-8 encoding of `c`.
pub fn char_width(c: char) -> (w: usize)
    ensures
        w == utf8_width(c),
{
    let v = c as u32;
    if v <= 0x7f {
        1
    } else if v <= 0x7ff {
        2
    } else if v <= 0xffff {
        3
    } else {
        4
    }
}

/// The index `pos + k` where `k = chars_for_bytes(s[pos..end], b)`.
pub fn chars_for_bytes_at(s: &Vec<char>, pos: usize, end: usize, b: usize) -> (r: Option<usize>)
    requires
        pos <= end <= s.len(),
    ensures
        r == (match chars_for_bytes(s@.subrange(pos as int, end as int), b as int) {
            Some(k) => Some((k + pos) as usize),
            None => None::<usize>,
        }),
{
    let ghost w = s@.subrange(pos as int, end as int);
    let mut i = pos;
    let mut acc: u128 = 0;
    assert(w.skip(0) == w);
    while acc < b as u128 && i < end
        invariant
            pos <= i <= end <= s.len(),
            acc <= b,
            w == s@.subrange(pos as int, end as int),
            chars_for_bytes(w, b as int) == (match chars_for_bytes(w.skip(i - pos), b - acc) {
                Some(k) => Some(k + (i - pos)),
                None => None::<int>,
            }),
        decreases end - i,
    {
        proof {
            lemma_chars_for_bytes_step(w, i - pos, b - acc);
            assert(w.skip(i - pos + 1) == w.skip((i + 1) - pos));
        }
        acc = acc + char_width(s[i]) as u128;
        i += 1;
        if acc > b as u128 {
            proof {
                assert(chars_for_bytes(w.skip(i - pos), b - acc) is None);
            }
            return None;
        }
    }
    if acc == b as u128 {
        Some(i)
    } else {
        assert(w.skip(i - pos).len() == 0);
        None
    }
}

/// `token_end(s[pos..end], set)`, as an index into `s`.
pub fn token_end_at(s: &Vec<char>, pos: usize, end: usize, set: &str) -> (r: Option<usize>)
    requires
        pos <= end <= s.len(),
    ensures
        r == (match token_end(s@.subrange(pos as int, end as int), set@) {
            Some(k) => Some((k + pos) as usize),
            None => None::<usize>,
        }),
{
    proof {
        lemma_first_in_from_bounds(s@.subrange(pos as int, end as int), set@, 0);
    }
    match first_in_at(s, pos, end, set) {
        Some(i) => chars_for_bytes_at(s, pos, end, i - pos),
        None => Some(end),
    }
}

/// `s[from..to]` is a nonempty run of digits whose value is at most `limit`.
pub fn digits_within(s: &Vec<char>, from: usize, to: usize, limit: u64) -> (b: bool)
    requires
        from <= to <= s.len(),
    ensures
        b == ({
            let t = s@.subrange(from as int, to as int);
            t.len() > 0 && all_digits(t) && digits_value(t) <= limit
        }),
{
    let ghost t = s@.subrange(from as int, to as int);
    if from == to {
        return false;
    }
    let cap: u128 = 0x1_0000_0000_0000_0000;
    let mut v: u128 = 0;
    let mut i = from;
    assert(t.take(0) =~= Seq::<char>::empty());
    while i < to
        invariant
            from <= i <= to <= s.len(),
            t == s@.subrange(from as int, to as int),
            cap == 0x1_0000_0000_0000_0000u128,
            all_digits(t.take(i - from)),
            v == (if digits_value(t.take(i - from)) <= cap {
                digits_value(t.take(i - from))
            } else {
                cap as nat
            }),
        decreases to - i,
    {
        let c = s[i];
        if !('0' <= c && c <= '9') {
            assert(!is_digit(t[i - from]));
            return false;
        }
        proof {
            lemma_digits_value_step(t, i - from);
            assert forall|j: int| 0 <= j < i + 1 - from implies #[trigger] is_digit(
                t.take(i + 1 - from)[j],
            ) by {
                if j < i - from {
                    assert(t.take(i - from)[j] == t.take(i + 1 - from)[j]);
                }
            }
        }
        let d = (c as u32 - '0' as u32) as u128;
        v = v * 10 + d;
        if v > cap {
            v = cap;
        }
        i += 1;
    }
    assert(t.take(to - from) == t);
    v <= limit as u128
}

/// The value of the digits `s[from..to]`.
pub fn digits_to_u32(s: &Vec<char>, from: usize, to: usize) -> (n: u32)
    requires
        from <= to <= s.len(),
        all_digits(s@.subrange(from as int, to as int)),
        digits_value(s@.subrange(from as int, to as int)) <= u32::MAX,
    ensures
        n == digits_value(s@.subrange(from as int, to as int)),
{
    let ghost t = s@.subrange(from as int, to as int);
    let mut v: u64 = 0;
    let mut i = from;
    assert(t.take(0) =~= Seq::<char>::empty());
    while i < to
        invariant
            from <= i <= to <= s.len(),
            t == s@.subrange(from as int, to as int),
            all_digits(t),
            digits_value(t) <= u32::MAX,
            v == digits_value(t.take(i - from)),
        decreases to - i,
    {
        proof {
            lemma_digits_value_step(t, i - from);
            lemma_digits_value_prefix_bound(t, i + 1 - from);
            assert(is_digit(t[i - from]));
        }
        let c = s[i];
        let d = (c as u32 - '0' as u32) as u64;
        v = v * 10 + d;
        i += 1;
    }
    assert(t.take(to - from) == t);
    v as u32
}

/// A prefix of a digit string is worth no more than the whole string.
proof fn lemma_digits_value_prefix_bound(t: Seq<char>, k: int)
    requires
        0 <= k <= t.len(),
    ensures
        digits_value(t.take(k)) <= digits_value(t),
    decreases t.len() - k,
{
    if k < t.len() {
        lemma_digits_value_step(t, k);
        lemma_digits_value_prefix_bound(t, k + 1);
    } else {
        assert(t.take(k) == t);
    }
}

/// The pieces of `s[from..to]` between the occurrences of `sep`
/// (`str::split`).
pub fn split_pieces(s: &Vec<char>, from: usize, to: usize, sep: &str) -> (r: Vec<String>)
    requires
        from <= to <= s.len(),
        sep@.len() > 0,
    ensures
        r.deep_view() == split_on(s@.subrange(from as int, to as int), sep@),
{
    let ghost w = s@.subrange(from as int, to as int);
    let n = sep.unicode_len();
    let mut pieces: Vec<String> = Vec::new();
    let mut start = from;
    assert(w.skip(0) == w);
    loop
        invariant
            from <= start <= to <= s.len(),
            n == sep@.len(),
            n > 0,
            w == s@.subrange(from as int, to as int),
            split_on(w, sep@) == pieces.deep_view() + split_on(w.skip(start - from), sep@),
        decreases to - start,
    {
        let ghost v = w.skip(start - from);
        assert(s@.subrange(start as int, to as int) == v);
        proof {
            lemma_find_from_bounds(v, sep@, 0);
        }
        match find_at(s, start, to, sep) {
            Some(j) => {
                let piece = string_of(s, start, j);
                assert(piece@ == v.take(j - start));
                assert(v.skip(j - start + n) == w.skip(j + n - from));
                let ghost before = pieces.deep_view();
                pieces.push(piece);
                assert(pieces.deep_view() =~= before + seq![v.take(j - start)]);
                assert(pieces.deep_view() + split_on(w.skip(j + n - from), sep@) =~= before + (
                seq![v.take(j - start)] + split_on(v.skip(j - start + n), sep@)));
                start = j + n;
            },
            None => {
                let piece = string_of(s, start, to);
                let ghost before = pieces.deep_view();
                pieces.push(piece);
                assert(pieces.deep_view() =~= before + seq![v]);
                return pieces;
            },
        }
    }
}

/// The decimal representation of `n`.
pub fn decimal_string(n: u64) -> (r: String)
    ensures
        r@ == decimal(n as nat),
    decreases n,
{
    if n < 10 {
        let mut r = String::new();
        push_char(&mut r, digit_to_char(n));
        r
    } else {
        let mut r = decimal_string(n / 10);
        push_char(&mut r, digit_to_char(n % 10));
        r
    }
}

/// The character of the digit `d`.
fn digit_to_char(d: u64) -> (c: char)
    requires
        d < 10,
    ensures
        c == digit_char(d as nat),
{
    if d == 0 { '0' }
    else if d == 1 { '1' }
    else if d == 2 { '2' }
    else if d == 3 { '3' }
    else if d == 4 { '4' }
    else if d == 5 { '5' }
    else if d == 6 { '6' }
    else if d == 7 { '7' }
    else if d == 8 { '8' }
    else { '9' }
}

} // verus!
