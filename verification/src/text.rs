//! Text as the library's contracts see it: a string is the sequence of its
//! characters, and its size is the size of its UTF-8 encoding.

use vstd::prelude::*;
use vstd::utf8::{decode_utf8, encode_scalar, encode_utf8, encode_utf8_decode_utf8};

verus! {

/// `String::push` appends one character at the end.
pub assume_specification[ String::push ](text: &mut String, c: char)
    ensures
        final(text)@ == old(text)@.push(c),
;

/// The number of bytes in the UTF-8 encoding of `s`.
pub open spec fn utf8_len(s: Seq<char>) -> nat {
    encode_utf8(s).len()
}

/// Control characters: the two ranges of the Unicode general category `Cc`.
pub open spec fn is_control(c: char) -> bool {
    c as u32 <= 0x1f || 0x7f <= c as u32 <= 0x9f
}

/// Characters with the Unicode property `White_Space`.
pub open spec fn is_whitespace(c: char) -> bool {
    let u = c as u32;
    ||| 0x09 <= u <= 0x0d
    ||| u == 0x20
    ||| u == 0x85
    ||| u == 0xa0
    ||| u == 0x1680
    ||| 0x2000 <= u <= 0x200a
    ||| u == 0x2028
    ||| u == 0x2029
    ||| u == 0x202f
    ||| u == 0x205f
    ||| u == 0x3000
}

/// Whether every character of `s` is whitespace (the empty text included).
pub open spec fn is_blank(s: Seq<char>) -> bool {
    forall|i: int| 0 <= i < s.len() ==> is_whitespace(#[trigger] s[i])
}

/// Whether `s` holds a control character.
pub open spec fn has_control(s: Seq<char>) -> bool {
    exists|i: int| 0 <= i < s.len() && is_control(#[trigger] s[i])
}

/// Whether `s` neither begins nor ends with whitespace.
pub open spec fn is_trimmed(s: Seq<char>) -> bool {
    s.len() == 0 || (!is_whitespace(s[0]) && !is_whitespace(s.last()))
}

/// `s` without its leading whitespace.
pub open spec fn trim_start(s: Seq<char>) -> Seq<char>
    decreases s.len(),
{
    if s.len() > 0 && is_whitespace(s[0]) {
        trim_start(s.drop_first())
    } else {
        s
    }
}

/// `s` without its trailing whitespace.
pub open spec fn trim_end(s: Seq<char>) -> Seq<char>
    decreases s.len(),
{
    if s.len() > 0 && is_whitespace(s.last()) {
        trim_end(s.drop_last())
    } else {
        s
    }
}

/// `s` without whitespace at either end.
pub open spec fn trim(s: Seq<char>) -> Seq<char> {
    trim_end(trim_start(s))
}

/// Whether `needle` stands in `hay` at character position `at`.
pub open spec fn occurs_at(hay: Seq<char>, needle: Seq<char>, at: int) -> bool {
    0 <= at && at + needle.len() <= hay.len() && hay.subrange(at, at + needle.len() as int)
        == needle
}

/// Whether `needle` stands anywhere in `hay`.
pub open spec fn contains_text(hay: Seq<char>, needle: Seq<char>) -> bool {
    exists|at: int| occurs_at(hay, needle, at)
}

/// Whether `s` begins with `prefix`.
pub open spec fn starts_with(s: Seq<char>, prefix: Seq<char>) -> bool {
    s.len() >= prefix.len() && s.subrange(0, prefix.len() as int) == prefix
}

/// Lexicographic order of byte strings.
pub open spec fn bytes_lt(a: Seq<u8>, b: Seq<u8>) -> bool
    decreases a.len(),
{
    if b.len() == 0 {
        false
    } else if a.len() == 0 {
        true
    } else if a[0] == b[0] {
        bytes_lt(a.drop_first(), b.drop_first())
    } else {
        a[0] < b[0]
    }
}

/// The order of texts: that of their UTF-8 encodings, as `str` is ordered.
pub open spec fn text_lt(a: Seq<char>, b: Seq<char>) -> bool {
    bytes_lt(encode_utf8(a), encode_utf8(b))
}

/// The decimal digit for `d`, which is below ten.
pub open spec fn digit_char(d: nat) -> char {
    (('0' as u32) + d) as char
}

/// `n` written in decimal, without leading zeros.
pub open spec fn decimal(n: nat) -> Seq<char>
    decreases n,
{
    if n < 10 {
        seq![digit_char(n)]
    } else {
        decimal(n / 10).push(digit_char(n % 10))
    }
}

/// Whether `c` is one of the ASCII digits.
pub open spec fn is_digit(c: char) -> bool {
    '0' as u32 <= c as u32 <= '9' as u32
}

/// Whether `c` is a lower-case ASCII letter.
pub open spec fn is_lower(c: char) -> bool {
    'a' as u32 <= c as u32 <= 'z' as u32
}

/// Whether `c` is an upper-case ASCII letter.
pub open spec fn is_upper(c: char) -> bool {
    'A' as u32 <= c as u32 <= 'Z' as u32
}

/// Whether `c` is an ASCII letter or digit.
pub open spec fn is_alphanumeric(c: char) -> bool {
    is_digit(c) || is_lower(c) || is_upper(c)
}

/// Whether `c` is an ASCII hexadecimal digit of either case.
pub open spec fn is_hex_digit(c: char) -> bool {
    is_digit(c) || 'a' as u32 <= c as u32 <= 'f' as u32 || 'A' as u32 <= c as u32 <= 'F' as u32
}

/// Whether `c` is a hexadecimal digit written in lower case.
pub open spec fn is_lower_hex(c: char) -> bool {
    is_digit(c) || 'a' as u32 <= c as u32 <= 'f' as u32
}

/// `c` with ASCII capitals made small; every other character is kept.
pub open spec fn ascii_lower(c: char) -> char {
    if is_upper(c) {
        ((c as u32) + 32) as char
    } else {
        c
    }
}

/// `c` with ASCII small letters made capital; every other character is kept.
pub open spec fn ascii_upper(c: char) -> char {
    if is_lower(c) {
        ((c as u32) - 32) as char
    } else {
        c
    }
}

/// The value of the digits of `s` read as a decimal number.
pub open spec fn digits_value(s: Seq<char>) -> nat
    decreases s.len(),
{
    if s.len() == 0 {
        0
    } else {
        digits_value(s.drop_last()) * 10 + ((s.last() as u32) - ('0' as u32)) as nat
    }
}

/// The digits that a decimal number may carry behind an optional plus sign.
pub open spec fn unsigned_digits(s: Seq<char>) -> Seq<char> {
    if s.len() > 0 && s[0] == '+' {
        s.drop_first()
    } else {
        s
    }
}

/// `s` read as a 64-bit number: an optional plus sign and at least one digit.
pub open spec fn parsed_u64(s: Seq<char>) -> Option<u64> {
    let digits = unsigned_digits(s);
    if digits.len() > 0 && (forall|i: int| 0 <= i < digits.len() ==> is_digit(#[trigger] digits[i]))
        && digits_value(digits) <= u64::MAX {
        Some(digits_value(digits) as u64)
    } else {
        None
    }
}

/// Two texts with one encoding are one text.
pub proof fn lemma_encoding_injective(a: Seq<char>, b: Seq<char>)
    requires
        encode_utf8(a) == encode_utf8(b),
    ensures
        a == b,
{
    encode_utf8_decode_utf8(a);
    encode_utf8_decode_utf8(b);
    assert(decode_utf8(encode_utf8(a)) == a);
    assert(decode_utf8(encode_utf8(b)) == b);
}

/// No byte string comes before itself.
pub proof fn lemma_bytes_lt_irreflexive(a: Seq<u8>)
    ensures
        !bytes_lt(a, a),
    decreases a.len(),
{
    if a.len() > 0 {
        lemma_bytes_lt_irreflexive(a.drop_first());
    }
}

/// The order of byte strings is transitive.
pub proof fn lemma_bytes_lt_transitive(a: Seq<u8>, b: Seq<u8>, c: Seq<u8>)
    requires
        bytes_lt(a, b),
        bytes_lt(b, c),
    ensures
        bytes_lt(a, c),
    decreases a.len(),
{
    if a.len() > 0 && b.len() > 0 && c.len() > 0 && a[0] == b[0] && b[0] == c[0] {
        lemma_bytes_lt_transitive(a.drop_first(), b.drop_first(), c.drop_first());
    }
}

/// Of two different byte strings one comes first.
pub proof fn lemma_bytes_lt_total(a: Seq<u8>, b: Seq<u8>)
    ensures
        a == b || bytes_lt(a, b) || bytes_lt(b, a),
    decreases a.len(),
{
    if a.len() == 0 || b.len() == 0 {
        if a.len() == 0 && b.len() == 0 {
            assert(a =~= b);
        }
    } else if a[0] == b[0] {
        lemma_bytes_lt_total(a.drop_first(), b.drop_first());
        if a.drop_first() == b.drop_first() {
            assert(a =~= seq![a[0]] + a.drop_first());
            assert(b =~= seq![b[0]] + b.drop_first());
        }
    }
}

/// The order of texts is a strict total order.
pub proof fn lemma_text_order(a: Seq<char>, b: Seq<char>, c: Seq<char>)
    ensures
        !text_lt(a, a),
        text_lt(a, b) && text_lt(b, c) ==> text_lt(a, c),
        a == b || text_lt(a, b) || text_lt(b, a),
{
    lemma_bytes_lt_irreflexive(encode_utf8(a));
    if text_lt(a, b) && text_lt(b, c) {
        lemma_bytes_lt_transitive(encode_utf8(a), encode_utf8(b), encode_utf8(c));
    }
    lemma_bytes_lt_total(encode_utf8(a), encode_utf8(b));
    if encode_utf8(a) == encode_utf8(b) {
        lemma_encoding_injective(a, b);
    }
}

/// Of two texts at most one comes before the other.
pub proof fn lemma_text_asymmetric(a: Seq<char>, b: Seq<char>)
    requires
        text_lt(a, b),
    ensures
        !text_lt(b, a),
        a != b,
{
    lemma_text_order(a, b, a);
}

/// The size of `s` in bytes.
pub fn byte_len(s: &str) -> (n: usize)
    ensures
        n == utf8_len(s@),
{
    s.as_bytes().len()
}

/// The number of bytes that encode one character.
pub fn char_width(c: char) -> (r: usize)
    ensures
        r == encode_scalar(c as u32).len(),
        1 <= r <= 4,
{
    let u: u32 = c as u32;
    if u <= 0x7f {
        1
    } else if u <= 0x7ff {
        2
    } else if u <= 0xffff {
        3
    } else {
        4
    }
}

/// One character more at the end adds its own bytes.
pub proof fn lemma_utf8_len_push(s: Seq<char>, c: char)
    ensures
        utf8_len(s.push(c)) == utf8_len(s) + encode_scalar(c as u32).len(),
    decreases s.len(),
{
    let longer = s.push(c);
    assert(encode_utf8(longer) == encode_scalar(longer[0] as u32) + encode_utf8(
        longer.drop_first(),
    ));
    if s.len() == 0 {
        assert(longer.drop_first() =~= Seq::empty());
        assert(encode_utf8(longer.drop_first()).len() == 0);
    } else {
        assert(longer.drop_first() =~= s.drop_first().push(c));
        lemma_utf8_len_push(s.drop_first(), c);
        assert(encode_utf8(s) == encode_scalar(s[0] as u32) + encode_utf8(s.drop_first()));
    }
}

/// The longest beginning of a text that fits in `limit` bytes.
pub open spec fn head_within(s: Seq<char>, limit: nat) -> Seq<char>
    decreases s.len(),
{
    if utf8_len(s) <= limit || s.len() == 0 {
        s
    } else {
        head_within(s.drop_last(), limit)
    }
}

/// What is kept of a text is a beginning of it, fits, and holds its first character when the
/// limit leaves room for any.
pub proof fn lemma_head_within(s: Seq<char>, limit: nat)
    requires
        limit >= 4,
        s.len() > 0,
    ensures
        utf8_len(head_within(s, limit)) <= limit,
        head_within(s, limit).len() > 0,
        head_within(s, limit)[0] == s[0],
    decreases s.len(),
{
    if utf8_len(s) > limit {
        if s.len() == 1 {
            assert(s =~= Seq::<char>::empty().push(s[0]));
            lemma_utf8_len_push(Seq::empty(), s[0]);
            assert(encode_utf8(Seq::<char>::empty()).len() == 0);
        } else {
            lemma_head_within(s.drop_last(), limit);
        }
    }
}

/// Keeps the longest beginning of a text that fits in `limit` bytes.
pub fn keep_head(text: &str, limit: usize) -> (r: String)
    ensures
        r@ == head_within(text@, limit as nat),
{
    let chars = chars_of(text);
    let mut size: usize = byte_len(text);
    let mut k: usize = chars.len();
    assert(text@.take(k as int) =~= text@);
    while size > limit
        invariant
            k <= chars@.len(),
            chars@ == text@,
            size == utf8_len(text@.take(k as int)),
            head_within(text@, limit as nat) == head_within(text@.take(k as int), limit as nat),
        decreases k,
    {
        proof {
            if k == 0 {
                assert(text@.take(0) =~= Seq::empty());
                assert(encode_utf8(text@.take(0)).len() == 0);
            }
            let shorter = text@.take(k - 1);
            assert(text@.take(k as int) =~= shorter.push(text@[k - 1]));
            assert(text@.take(k as int).drop_last() =~= shorter);
            lemma_utf8_len_push(shorter, text@[k - 1]);
        }
        size -= char_width(chars[k - 1]);
        k -= 1;
    }
    let kept = text_of(&chars, 0, k);
    assert(kept@ =~= text@.take(k as int));
    kept
}

/// Whether two texts are the same.
pub fn same_text(a: &str, b: &str) -> (r: bool)
    ensures
        r == (a@ == b@),
{
    let x = a.as_bytes();
    let y = b.as_bytes();
    if x.len() != y.len() {
        return false;
    }
    let mut i: usize = 0;
    while i < x.len()
        invariant
            i <= x.len(),
            x.len() == y.len(),
            x@ == encode_utf8(a@),
            y@ == encode_utf8(b@),
            forall|j: int| 0 <= j < i ==> x@[j] == y@[j],
        decreases x.len() - i,
    {
        if x[i] != y[i] {
            return false;
        }
        i += 1;
    }
    proof {
        assert(x@ =~= y@);
        lemma_encoding_injective(a@, b@);
    }
    true
}

/// Whether two optional texts are the same.
pub fn same_optional(a: Option<&str>, b: Option<&str>) -> (r: bool)
    ensures
        r == (optional_view(a) == optional_view(b)),
{
    match (a, b) {
        (None, None) => true,
        (Some(x), Some(y)) => same_text(x, y),
        _ => false,
    }
}

/// The characters of an optional text.
pub open spec fn optional_view(a: Option<&str>) -> Option<Seq<char>> {
    match a {
        Some(s) => Some(s@),
        None => None,
    }
}

/// The characters of an optional owned text.
pub open spec fn option_view(a: Option<String>) -> Option<Seq<char>> {
    match a {
        Some(s) => Some(s@),
        None => None,
    }
}

/// Borrows an optional text.
pub fn as_optional(a: &Option<String>) -> (r: Option<&str>)
    ensures
        optional_view(r) == option_view(*a),
{
    match a {
        Some(s) => Some(s.as_str()),
        None => None,
    }
}

/// Whether two optional owned texts are the same.
pub fn copy_option(a: &Option<String>) -> (r: Option<String>)
    ensures
        option_view(r) == option_view(*a),
{
    match a {
        Some(s) => Some(s.clone()),
        None => None,
    }
}

/// Whether two optional texts are the same.
pub fn same_option(a: &Option<String>, b: &Option<String>) -> (r: bool)
    ensures
        r == (option_view(*a) == option_view(*b)),
{
    same_optional(as_optional(a), as_optional(b))
}

/// Whether `a` comes before `b` in the order of texts.
pub fn text_before(a: &str, b: &str) -> (r: bool)
    ensures
        r == text_lt(a@, b@),
{
    let x = a.as_bytes();
    let y = b.as_bytes();
    let mut i: usize = 0;
    proof {
        assert(x@ =~= x@.skip(0));
        assert(y@ =~= y@.skip(0));
    }
    while i < x.len() && i < y.len()
        invariant
            i <= x.len(),
            i <= y.len(),
            x@ == encode_utf8(a@),
            y@ == encode_utf8(b@),
            bytes_lt(x@, y@) == bytes_lt(x@.skip(i as int), y@.skip(i as int)),
        decreases x.len() - i,
    {
        proof {
            assert(x@.skip(i as int).drop_first() =~= x@.skip(i + 1));
            assert(y@.skip(i as int).drop_first() =~= y@.skip(i + 1));
        }
        if x[i] != y[i] {
            return x[i] < y[i];
        }
        i += 1;
    }
    i < y.len()
}

/// The characters of `s`.
pub fn chars_of(s: &str) -> (r: Vec<char>)
    ensures
        r@ == s@,
{
    let mut out: Vec<char> = Vec::new();
    for c in it: s.chars()
        invariant
            out@ == it.seq().take(it.index()),
            it.seq() == s@,
    {
        proof {
            assert(it.seq().take(it.index() + 1) =~= it.seq().take(it.index()).push(c));
        }
        out.push(c);
    }
    proof {
        assert(s@.take(s@.len() as int) =~= s@);
    }
    out
}

/// The text made of the characters from `from` up to `to`.
pub fn text_of(chars: &Vec<char>, from: usize, to: usize) -> (r: String)
    requires
        from <= to <= chars@.len(),
    ensures
        r@ == chars@.subrange(from as int, to as int),
{
    let mut out = String::new();
    let mut i: usize = from;
    while i < to
        invariant
            from <= i <= to <= chars@.len(),
            out@ == chars@.subrange(from as int, i as int),
        decreases to - i,
    {
        out.push(chars[i]);
        proof {
            assert(chars@.subrange(from as int, i + 1) =~= chars@.subrange(
                from as int,
                i as int,
            ).push(chars@[i as int]));
        }
        i += 1;
    }
    out
}

/// Whether `c` is a control character.
pub fn control(c: char) -> (r: bool)
    ensures
        r == is_control(c),
{
    let u: u32 = c as u32;
    u <= 0x1f || (0x7f <= u && u <= 0x9f)
}

/// Whether `c` is whitespace.
pub fn whitespace(c: char) -> (r: bool)
    ensures
        r == is_whitespace(c),
{
    let u: u32 = c as u32;
    (0x09 <= u && u <= 0x0d) || u == 0x20 || u == 0x85 || u == 0xa0 || u == 0x1680 || (0x2000 <= u
        && u <= 0x200a) || u == 0x2028 || u == 0x2029 || u == 0x202f || u == 0x205f || u == 0x3000
}

/// Whether every character of `s` is whitespace.
pub fn blank(s: &str) -> (r: bool)
    ensures
        r == is_blank(s@),
{
    let chars = chars_of(s);
    let mut i: usize = 0;
    while i < chars.len()
        invariant
            i <= chars@.len(),
            chars@ == s@,
            forall|j: int| 0 <= j < i ==> is_whitespace(#[trigger] s@[j]),
        decreases chars@.len() - i,
    {
        if !whitespace(chars[i]) {
            assert(!is_whitespace(s@[i as int]));
            return false;
        }
        i += 1;
    }
    true
}

/// Whether `s` holds a control character.
pub fn any_control(s: &str) -> (r: bool)
    ensures
        r == has_control(s@),
{
    let chars = chars_of(s);
    let mut i: usize = 0;
    while i < chars.len()
        invariant
            i <= chars@.len(),
            chars@ == s@,
            forall|j: int| 0 <= j < i ==> !is_control(#[trigger] s@[j]),
        decreases chars@.len() - i,
    {
        if control(chars[i]) {
            assert(is_control(s@[i as int]));
            return true;
        }
        i += 1;
    }
    false
}

/// Whether `s` neither begins nor ends with whitespace.
pub fn trimmed(s: &str) -> (r: bool)
    ensures
        r == is_trimmed(s@),
{
    let chars = chars_of(s);
    let n: usize = chars.len();
    n == 0 || (!whitespace(chars[0]) && !whitespace(chars[n - 1]))
}

/// The first position of `chars` at or behind `from` that holds no whitespace.
fn skip_whitespace(chars: &Vec<char>, from: usize) -> (r: usize)
    requires
        from <= chars@.len(),
    ensures
        from <= r <= chars@.len(),
        chars@.skip(r as int) == trim_start(chars@.skip(from as int)),
{
    let mut i: usize = from;
    while i < chars.len() && whitespace(chars[i])
        invariant
            from <= i <= chars@.len(),
            trim_start(chars@.skip(from as int)) == trim_start(chars@.skip(i as int)),
        decreases chars@.len() - i,
    {
        proof {
            assert(chars@.skip(i as int).drop_first() =~= chars@.skip(i + 1));
        }
        i += 1;
    }
    i
}

/// The end of `chars` from `from` on, without trailing whitespace.
fn drop_whitespace(chars: &Vec<char>, from: usize) -> (r: usize)
    requires
        from <= chars@.len(),
    ensures
        from <= r <= chars@.len(),
        chars@.subrange(from as int, r as int) == trim_end(chars@.skip(from as int)),
{
    let mut end: usize = chars.len();
    proof {
        assert(chars@.skip(from as int) =~= chars@.subrange(from as int, end as int));
    }
    while end > from && whitespace(chars[end - 1])
        invariant
            from <= end <= chars@.len(),
            trim_end(chars@.skip(from as int)) == trim_end(
                chars@.subrange(from as int, end as int),
            ),
        decreases end,
    {
        proof {
            assert(chars@.subrange(from as int, end as int).drop_last() =~= chars@.subrange(
                from as int,
                end - 1,
            ));
        }
        end -= 1;
    }
    end
}

/// `s` without whitespace at either end.
pub fn trim_text(s: &str) -> (r: String)
    ensures
        r@ == trim(s@),
{
    let chars = chars_of(s);
    proof {
        assert(chars@.skip(0) =~= chars@);
    }
    let from: usize = skip_whitespace(&chars, 0);
    let to: usize = drop_whitespace(&chars, from);
    text_of(&chars, from, to)
}

/// `s` without leading whitespace.
pub fn trim_start_text(s: &str) -> (r: String)
    ensures
        r@ == trim_start(s@),
{
    let chars = chars_of(s);
    proof {
        assert(chars@.skip(0) =~= chars@);
    }
    let from: usize = skip_whitespace(&chars, 0);
    proof {
        assert(chars@.subrange(from as int, chars@.len() as int) =~= chars@.skip(from as int));
    }
    text_of(&chars, from, chars.len())
}

/// `s` without trailing whitespace.
pub fn trim_end_text(s: &str) -> (r: String)
    ensures
        r@ == trim_end(s@),
{
    let chars = chars_of(s);
    proof {
        assert(chars@.skip(0) =~= chars@);
    }
    let to: usize = drop_whitespace(&chars, 0);
    text_of(&chars, 0, to)
}

/// Whether `needle` stands in `hay` at position `at`.
fn stands_at(hay: &Vec<char>, needle: &Vec<char>, at: usize) -> (r: bool)
    ensures
        r == occurs_at(hay@, needle@, at as int),
{
    if needle.len() > hay.len() || at > hay.len() - needle.len() {
        return false;
    }
    let size: usize = hay.len();
    let mut i: usize = 0;
    while i < needle.len()
        invariant
            i <= needle@.len(),
            at + needle@.len() <= hay@.len(),
            size == hay@.len(),
            forall|j: int| 0 <= j < i ==> hay@[at + j] == needle@[j],
        decreases needle@.len() - i,
    {
        if hay[at + i] != needle[i] {
            proof {
                let part = hay@.subrange(at as int, at + needle@.len() as int);
                assert(part[i as int] == hay@[at + i]);
            }
            return false;
        }
        i += 1;
    }
    proof {
        assert(hay@.subrange(at as int, at + needle@.len() as int) =~= needle@);
    }
    true
}

/// The first position of `needle` in `hay` at or behind `from`.
pub fn find_from(hay: &Vec<char>, needle: &Vec<char>, from: usize) -> (r: Option<usize>)
    ensures
        match r {
            Some(at) => {
                &&& from <= at
                &&& occurs_at(hay@, needle@, at as int)
                &&& forall|j: int| from <= j && #[trigger] occurs_at(hay@, needle@, j) ==> at <= j
            },
            None => forall|j: int| from <= j ==> !#[trigger] occurs_at(hay@, needle@, j),
        },
{
    let mut i: usize = from;
    while i <= hay.len()
        invariant
            from <= i,
            from > hay@.len() || i <= hay@.len() + 1,
            hay@.len() < usize::MAX || i <= hay@.len(),
            forall|j: int| from <= j < i ==> !#[trigger] occurs_at(hay@, needle@, j),
        decreases hay@.len() + 1 - i,
    {
        if stands_at(hay, needle, i) {
            return Some(i);
        }
        if i == hay.len() {
            return None;
        }
        i += 1;
    }
    None
}

/// Whether `needle` stands anywhere in `hay`.
pub fn holds_text(hay: &str, needle: &str) -> (r: bool)
    ensures
        r == contains_text(hay@, needle@),
{
    let h = chars_of(hay);
    let n = chars_of(needle);
    match find_from(&h, &n, 0) {
        Some(at) => {
            assert(occurs_at(hay@, needle@, at as int));
            true
        },
        None => {
            assert forall|j: int| !occurs_at(hay@, needle@, j) by {
                if j >= 0 {
                }
            }
            false
        },
    }
}

/// What follows `prefix` in `s`, when `s` begins with it.
pub fn strip_prefix(s: &str, prefix: &str) -> (r: Option<String>)
    ensures
        match r {
            Some(rest) => starts_with(s@, prefix@) && rest@ == s@.skip(prefix@.len() as int),
            None => !starts_with(s@, prefix@),
        },
{
    let chars = chars_of(s);
    let head = chars_of(prefix);
    if stands_at(&chars, &head, 0) {
        proof {
            assert(chars@.subrange(head@.len() as int, chars@.len() as int) =~= s@.skip(
                prefix@.len() as int,
            ));
        }
        Some(text_of(&chars, head.len(), chars.len()))
    } else {
        None
    }
}

/// Whether `c` is an ASCII digit.
pub fn digit(c: char) -> (r: bool)
    ensures
        r == is_digit(c),
{
    '0' <= c && c <= '9'
}

/// Whether `c` is a lower-case ASCII letter.
pub fn lower(c: char) -> (r: bool)
    ensures
        r == is_lower(c),
{
    'a' <= c && c <= 'z'
}

/// Whether `c` is an upper-case ASCII letter.
pub fn upper(c: char) -> (r: bool)
    ensures
        r == is_upper(c),
{
    'A' <= c && c <= 'Z'
}

/// Whether `c` is an ASCII letter or digit.
pub fn alphanumeric(c: char) -> (r: bool)
    ensures
        r == is_alphanumeric(c),
{
    digit(c) || lower(c) || upper(c)
}

/// Whether `c` is an ASCII hexadecimal digit.
pub fn hex_digit(c: char) -> (r: bool)
    ensures
        r == is_hex_digit(c),
{
    digit(c) || ('a' <= c && c <= 'f') || ('A' <= c && c <= 'F')
}

/// Whether `c` is a hexadecimal digit in lower case.
pub fn lower_hex(c: char) -> (r: bool)
    ensures
        r == is_lower_hex(c),
{
    digit(c) || ('a' <= c && c <= 'f')
}

/// `c` with ASCII capitals made small.
pub fn to_lower(c: char) -> (r: char)
    ensures
        r == ascii_lower(c),
{
    if upper(c) {
        ((c as u8) + 32) as char
    } else {
        c
    }
}

/// The decimal digit for `d`.
fn digit_of(d: u64) -> (r: char)
    requires
        d < 10,
    ensures
        r == digit_char(d as nat),
{
    (48u8 + d as u8) as char
}

/// Appends `n` in decimal.
pub fn push_decimal(out: &mut String, n: u64)
    ensures
        final(out)@ == old(out)@ + decimal(n as nat),
    decreases n,
{
    if n >= 10 {
        push_decimal(out, n / 10);
    }
    out.push(digit_of(n % 10));
    proof {
        if n < 10 {
            assert(final(out)@ =~= old(out)@ + decimal(n as nat));
        } else {
            assert(final(out)@ =~= old(out)@ + decimal(n as nat));
        }
    }
}

/// `n` in decimal.
pub fn decimal_text(n: u64) -> (r: String)
    ensures
        r@ == decimal(n as nat),
{
    let mut out = String::new();
    push_decimal(&mut out, n);
    proof {
        assert(Seq::<char>::empty() + decimal(n as nat) =~= decimal(n as nat));
    }
    out
}

/// Whether every character from `from` on is a digit.
fn all_digits(chars: &Vec<char>, from: usize) -> (r: bool)
    requires
        from <= chars@.len(),
    ensures
        r == forall|i: int|
            0 <= i < chars@.skip(from as int).len() ==> is_digit(
                #[trigger] chars@.skip(from as int)[i],
            ),
{
    let ghost tail = chars@.skip(from as int);
    let mut i: usize = from;
    while i < chars.len()
        invariant
            from <= i <= chars@.len(),
            tail == chars@.skip(from as int),
            forall|j: int| 0 <= j < i - from ==> is_digit(#[trigger] tail[j]),
        decreases chars@.len() - i,
    {
        if !digit(chars[i]) {
            assert(!is_digit(tail[i - from]));
            return false;
        }
        assert(tail[i - from] == chars@[i as int]);
        i += 1;
    }
    true
}

/// Reading fewer digits never gives a greater value.
proof fn lemma_digits_monotone(s: Seq<char>, n: int)
    requires
        0 <= n <= s.len(),
        forall|i: int| 0 <= i < s.len() ==> is_digit(#[trigger] s[i]),
    ensures
        digits_value(s.take(n)) <= digits_value(s),
    decreases s.len() - n,
{
    if n == s.len() {
        assert(s.take(n) =~= s);
    } else {
        lemma_digits_monotone(s, n + 1);
        assert(s.take(n + 1).drop_last() =~= s.take(n));
    }
}

/// Reads `s` as a 64-bit number.
pub fn parse_u64(s: &str) -> (r: Option<u64>)
    ensures
        r == parsed_u64(s@),
{
    let chars = chars_of(s);
    let from: usize = if chars.len() > 0 && chars[0] == '+' {
        1
    } else {
        0
    };
    let ghost tail = chars@.skip(from as int);
    proof {
        assert(tail =~= unsigned_digits(s@));
    }
    if from == chars.len() || !all_digits(&chars, from) {
        return None;
    }
    let mut value: u64 = 0;
    let mut i: usize = from;
    proof {
        assert(tail.take(0) =~= Seq::<char>::empty());
    }
    while i < chars.len()
        invariant
            from <= i <= chars@.len(),
            tail == chars@.skip(from as int),
            tail == unsigned_digits(s@),
            tail.len() > 0,
            forall|j: int| 0 <= j < tail.len() ==> is_digit(#[trigger] tail[j]),
            value == digits_value(tail.take(i - from)),
        decreases chars@.len() - i,
    {
        proof {
            assert(tail[i - from] == chars@[i as int]);
            assert(is_digit(tail[i - from]));
        }
        let code: u32 = chars[i] as u32;
        let d: u64 = (code - 48) as u64;
        proof {
            assert(tail.take(i - from + 1).drop_last() =~= tail.take(i - from));
            lemma_digits_monotone(tail, i - from + 1);
        }
        if value > (u64::MAX - d) / 10 {
            return None;
        }
        value = value * 10 + d;
        i += 1;
    }
    proof {
        assert(tail.take(tail.len() as int) =~= tail);
    }
    Some(value)
}

/// A text in quotes, escaped as for debugging.
pub uninterp spec fn debug_quoted(text: Seq<char>) -> Seq<char>;

/// Formats a text with `{:?}`. Claimed: the result is a function of the text alone. Which
/// characters are escaped, and how, is not stated.
#[verifier::external_body]
pub(crate) fn quoted(text: &str) -> (r: String)
    ensures
        r@ == debug_quoted(text@),
{
    format!("{text:?}")
}

/// What is wrong with a bounded line, in words: it is empty or too long, holds a control
/// character, or has whitespace at an end.
pub open spec fn line_fault(label: Seq<char>, value: Seq<char>, limit: usize) -> Option<Seq<char>> {
    if value.len() == 0 {
        Some(label + " is empty"@)
    } else if utf8_len(value) > limit {
        Some(label + " exceeds "@ + decimal(limit as nat) + " bytes"@)
    } else if has_control(value) {
        Some(label + " contains a control character"@)
    } else if !is_trimmed(value) {
        Some(label + " has leading or trailing whitespace"@)
    } else {
        None
    }
}

/// Says what is wrong with a bounded line.
pub fn check_line(label: &str, value: &str, limit: usize) -> (r: Option<String>)
    ensures
        option_view(r) == line_fault(label@, value@, limit),
{
    let mut message = label.to_owned();
    if value.is_empty() {
        message.append(" is empty");
        return Some(message);
    }
    if byte_len(value) > limit {
        message.append(" exceeds ");
        push_decimal(&mut message, limit as u64);
        message.append(" bytes");
        return Some(message);
    }
    if any_control(value) {
        message.append(" contains a control character");
        return Some(message);
    }
    if !trimmed(value) {
        message.append(" has leading or trailing whitespace");
        return Some(message);
    }
    None
}

/// A number is read back from its decimal form.
pub proof fn lemma_decimal_round_trip(n: u64)
    ensures
        parsed_u64(decimal(n as nat)) == Some(n),
{
    lemma_decimal_digits(n as nat);
    assert(unsigned_digits(decimal(n as nat)) == decimal(n as nat));
}

/// Two numbers with one decimal form are one number.
pub proof fn lemma_decimal_injective(a: nat, b: nat)
    requires
        decimal(a) == decimal(b),
    ensures
        a == b,
{
    lemma_decimal_digits(a);
    lemma_decimal_digits(b);
}

/// The decimal form of a number is made of digits and has the number's value.
pub proof fn lemma_decimal_digits(n: nat)
    ensures
        decimal(n).len() > 0,
        forall|i: int| 0 <= i < decimal(n).len() ==> is_digit(#[trigger] decimal(n)[i]),
        decimal(n)[0] != '+' && decimal(n)[0] != '-',
        digits_value(decimal(n)) == n,
    decreases n,
{
    if n < 10 {
        let s = decimal(n);
        assert(s.drop_last() =~= Seq::<char>::empty());
        assert(digits_value(s.drop_last()) == 0);
    } else {
        lemma_decimal_digits(n / 10);
        let s = decimal(n);
        assert(s.drop_last() =~= decimal(n / 10));
        assert(s.last() == digit_char(n % 10));
        assert forall|i: int| 0 <= i < s.len() implies is_digit(#[trigger] s[i]) by {
            if i < s.len() - 1 {
                assert(s[i] == decimal(n / 10)[i]);
            }
        }
        assert(s[0] == decimal(n / 10)[0]);
    }
}

/// A signed number in decimal.
pub open spec fn signed_decimal(n: i32) -> Seq<char> {
    if n < 0 {
        "-"@ + decimal((-(n as int)) as nat)
    } else {
        decimal(n as nat)
    }
}

/// `s` read as a signed 32-bit number: an optional sign and at least one digit.
pub open spec fn parsed_i32(s: Seq<char>) -> Option<i32> {
    if s.len() > 0 && s[0] == '-' {
        let rest = s.drop_first();
        if rest.len() > 0 && rest[0] != '+' && parsed_u64(rest) is Some && parsed_u64(rest)->Some_0
            <= 0x8000_0000 {
            Some((-(parsed_u64(rest)->Some_0 as int)) as i32)
        } else {
            None
        }
    } else if parsed_u64(s) is Some && parsed_u64(s)->Some_0 <= 0x7fff_ffff {
        Some(parsed_u64(s)->Some_0 as i32)
    } else {
        None
    }
}

/// A signed number is read back from its decimal form.
pub proof fn lemma_signed_round_trip(n: i32)
    ensures
        parsed_i32(signed_decimal(n)) == Some(n),
{
    reveal_strlit("-");
    if n < 0 {
        let m = (-(n as int)) as u64;
        lemma_decimal_digits(m as nat);
        lemma_decimal_round_trip(m);
        assert(signed_decimal(n)[0] == '-');
        assert(signed_decimal(n).drop_first() =~= decimal(m as nat));
    } else {
        lemma_decimal_digits(n as nat);
        lemma_decimal_round_trip(n as u64);
    }
}

/// Writes a signed number in decimal.
pub fn signed_text(n: i32) -> (r: String)
    ensures
        r@ == signed_decimal(n),
{
    let wide: i64 = n as i64;
    if wide < 0 {
        let mut out = "-".to_owned();
        push_decimal(&mut out, (0 - wide) as u64);
        out
    } else {
        decimal_text(wide as u64)
    }
}

/// Reads a signed 32-bit number.
pub fn parse_i32(s: &str) -> (r: Option<i32>)
    ensures
        r == parsed_i32(s@),
{
    let chars = chars_of(s);
    if chars.len() > 0 && chars[0] == '-' {
        let rest = text_of(&chars, 1, chars.len());
        proof {
            assert(rest@ =~= s@.drop_first());
        }
        if chars.len() == 1 || chars[1] == '+' {
            return None;
        }
        match parse_u64(rest.as_str()) {
            Some(n) if n <= 0x8000_0000 => Some((0 - (n as i64)) as i32),
            _ => None,
        }
    } else {
        match parse_u64(s) {
            Some(n) if n <= 0x7fff_ffff => Some(n as i32),
            _ => None,
        }
    }
}

/// The text that bytes spell, with a replacement character for what is no text.
pub uninterp spec fn lossy_text(bytes: Seq<u8>) -> Seq<char>;

/// Calls `String::from_utf8_lossy`. Claimed: the text is a function of the bytes, and bytes that
/// are valid UTF-8 are the encoding of the text. What the text is for other bytes is not stated.
#[verifier::external_body]
pub(crate) fn from_utf8_lossy(bytes: &[u8]) -> (r: String)
    ensures
        r@ == lossy_text(bytes@),
        vstd::utf8::valid_utf8(bytes@) ==> encode_utf8(r@) == bytes@,
{
    String::from_utf8_lossy(bytes).into_owned()
}

/// The position of the first `c` from `from` on.
pub open spec fn char_from(s: Seq<char>, c: char, from: int) -> Option<int>
    decreases s.len() - from,
{
    if from < 0 || from >= s.len() {
        None
    } else if s[from] == c {
        Some(from)
    } else {
        char_from(s, c, from + 1)
    }
}

/// The first `c` is where it stands, and nowhere before.
pub proof fn lemma_char_from(s: Seq<char>, c: char, from: int)
    requires
        0 <= from,
    ensures
        match char_from(s, c, from) {
            Some(p) => from <= p < s.len() && s[p] == c && forall|i: int|
                from <= i < p ==> #[trigger] s[i] != c,
            None => forall|i: int| from <= i < s.len() ==> #[trigger] s[i] != c,
        },
    decreases s.len() - from,
{
    if from < s.len() && s[from] != c {
        lemma_char_from(s, c, from + 1);
    }
}

/// A character that is not there is not found.
pub proof fn lemma_char_absent(s: Seq<char>, c: char, from: int)
    requires
        0 <= from,
        forall|i: int| from <= i < s.len() ==> s[i] != c,
    ensures
        char_from(s, c, from) is None,
{
    lemma_char_from(s, c, from);
}

/// A character is found where it stands first.
pub proof fn lemma_char_at(s: Seq<char>, c: char, from: int, p: int)
    requires
        0 <= from <= p < s.len(),
        s[p] == c,
        forall|i: int| from <= i < p ==> s[i] != c,
    ensures
        char_from(s, c, from) == Some(p),
    decreases p - from,
{
    if from < p {
        lemma_char_at(s, c, from + 1, p);
    }
}

/// What stands before the first space; all of it when there is none.
pub open spec fn head_of(s: Seq<char>) -> Seq<char> {
    match char_from(s, ' ', 0) {
        Some(p) => s.take(p),
        None => s,
    }
}

/// What stands behind the first space; nothing when there is none.
pub open spec fn rest_of(s: Seq<char>) -> Seq<char> {
    match char_from(s, ' ', 0) {
        Some(p) => s.skip(p + 1),
        None => Seq::empty(),
    }
}

/// Parts a text at its first space.
pub fn split_head(s: &str) -> (r: (String, String))
    ensures
        r.0@ == head_of(s@),
        r.1@ == rest_of(s@),
{
    let chars = chars_of(s);
    let mut i: usize = 0;
    while i < chars.len() && chars[i] != ' '
        invariant
            i <= chars@.len(),
            chars@ == s@,
            char_from(s@, ' ', 0) == char_from(s@, ' ', i as int),
        decreases chars@.len() - i,
    {
        i += 1;
    }
    let head = text_of(&chars, 0, i);
    if i == chars.len() {
        let rest = text_of(&chars, i, i);
        proof {
            assert(head@ =~= s@);
            assert(rest@ =~= Seq::<char>::empty());
        }
        (head, rest)
    } else {
        let rest = text_of(&chars, i + 1, chars.len());
        proof {
            assert(head@ =~= s@.take(i as int));
            assert(rest@ =~= s@.skip(i + 1));
        }
        (head, rest)
    }
}

/// A line without the carriage return at its end.
pub open spec fn without_return(line: Seq<char>) -> Seq<char> {
    if line.len() > 0 && line.last() == '\r' {
        line.drop_last()
    } else {
        line
    }
}

/// The lines of a text. The last one may lack its end.
pub open spec fn lines_of(s: Seq<char>) -> Seq<Seq<char>>
    decreases s.len(),
{
    match char_from(s, '\n', 0) {
        None => if s.len() == 0 {
            Seq::empty()
        } else {
            seq![s]
        },
        Some(p) => if 0 <= p < s.len() {
            seq![without_return(s.take(p))] + lines_of(s.skip(p + 1))
        } else {
            Seq::empty()
        },
    }
}

/// A line and its end come off the front of a text.
pub proof fn lemma_first_line(line: Seq<char>, rest: Seq<char>)
    requires
        forall|i: int| 0 <= i < line.len() ==> line[i] != '\n',
        line.len() > 0 ==> line.last() != '\r',
    ensures
        lines_of(line + "\n"@ + rest) == seq![line] + lines_of(rest),
{
    reveal_strlit("\n");
    let s = line + "\n"@ + rest;
    lemma_char_at(s, '\n', 0, line.len() as int);
    assert(s.take(line.len() as int) =~= line);
    assert(s.skip(line.len() as int + 1) =~= rest);
}

/// Splits a text into its lines.
pub fn split_lines(s: &str) -> (r: Vec<String>)
    ensures
        crate::digest::text_views(r@) == lines_of(s@),
{
    let chars = chars_of(s);
    let mut out: Vec<String> = Vec::new();
    let mut from: usize = 0;
    let mut i: usize = 0;
    proof {
        assert(s@.skip(0) =~= s@);
        assert(crate::digest::text_views(out@) =~= Seq::empty());
        assert(Seq::<Seq<char>>::empty() + lines_of(s@) =~= lines_of(s@));
    }
    while i < chars.len()
        invariant
            from <= i <= chars@.len(),
            chars@ == s@,
            forall|j: int| from <= j < i ==> #[trigger] s@[j] != '\n',
            lines_of(s@) == crate::digest::text_views(out@) + lines_of(s@.skip(from as int)),
        decreases chars@.len() - i,
    {
        if chars[i] == '\n' {
            let ghost rest = s@.skip(from as int);
            let ghost before = crate::digest::text_views(out@);
            let end: usize = if i > from && chars[i - 1] == '\r' {
                i - 1
            } else {
                i
            };
            let line = text_of(&chars, from, end);
            proof {
                let p: int = i - from;
                assert forall|j: int| 0 <= j < p implies #[trigger] rest[j] != '\n' by {
                    assert(rest[j] == s@[from + j]);
                }
                assert(rest[p] == s@[i as int]);
                lemma_char_at(rest, '\n', 0, p);
                assert(rest.take(p) =~= s@.subrange(from as int, i as int));
                assert(line@ =~= without_return(rest.take(p)));
                assert(rest.skip(p + 1) =~= s@.skip(i + 1));
            }
            out.push(line);
            proof {
                assert(crate::digest::text_views(out@) =~= before.push(line@));
                let tail = lines_of(s@.skip(i + 1));
                assert(before + (seq![line@] + tail) =~= before.push(line@) + tail);
            }
            from = i + 1;
        }
        i += 1;
    }
    let ghost rest = s@.skip(from as int);
    let ghost before = crate::digest::text_views(out@);
    proof {
        assert forall|j: int| 0 <= j < rest.len() implies rest[j] != '\n' by {
            assert(rest[j] == s@[from + j]);
        }
        lemma_char_absent(rest, '\n', 0);
    }
    if from < chars.len() {
        let line = text_of(&chars, from, chars.len());
        out.push(line);
        proof {
            assert(line@ =~= rest);
            assert(crate::digest::text_views(out@) =~= before.push(line@));
            assert(before + seq![rest] =~= before.push(line@));
        }
    } else {
        proof {
            assert(before + Seq::<Seq<char>>::empty() =~= before);
        }
    }
    out
}

/// Calls `std::str::from_utf8`. Claimed: bytes that are valid UTF-8, and only those, give a text,
/// and the bytes are its encoding.
#[verifier::external_body]
pub(crate) fn utf8_text(bytes: &[u8]) -> (r: Option<String>)
    ensures
        match r {
            Some(text) => vstd::utf8::valid_utf8(bytes@) && encode_utf8(text@) == bytes@,
            None => !vstd::utf8::valid_utf8(bytes@),
        },
{
    std::str::from_utf8(bytes).ok().map(str::to_owned)
}

/// A bounded line is in order exactly where it says something, is no longer than it may be, holds
/// no control character and neither begins nor ends with whitespace.
pub proof fn law_lines_are_bounded_and_trimmed(label: Seq<char>, value: Seq<char>, limit: usize)
    ensures
        line_fault(label, value, limit) is None <==> {
            &&& 0 < value.len()
            &&& utf8_len(value) <= limit
            &&& forall|i: int| 0 <= i < value.len() ==> !is_control(#[trigger] value[i])
            &&& !is_whitespace(value[0])
            &&& !is_whitespace(value[value.len() - 1])
        },
{
}

} // verus!
