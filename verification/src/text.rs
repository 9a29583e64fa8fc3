//! Text: white space, decimal numerals, padding and case folding.
//!
//! The specification side treats a text as its sequence of characters.
use vstd::prelude::*;
use vstd::string::*;
use vstd::utf8::*;

verus! {

/// `String::push` appends the given character to the end of the string.
pub assume_specification[ std::string::String::push ](s: &mut std::string::String, c: char)
    ensures
        final(s)@ == old(s)@.push(c),
;

// ---------------------------------------------------------------------------
// Character classes
// ---------------------------------------------------------------------------

/// The characters with the Unicode `White_Space` property.
pub open spec fn white_space(c: char) -> bool {
    ||| '\u{9}' <= c <= '\u{d}'
    ||| c == '\u{20}'
    ||| c == '\u{85}'
    ||| c == '\u{a0}'
    ||| c == '\u{1680}'
    ||| '\u{2000}' <= c <= '\u{200a}'
    ||| c == '\u{2028}'
    ||| c == '\u{2029}'
    ||| c == '\u{202f}'
    ||| c == '\u{205f}'
    ||| c == '\u{3000}'
}

/// Whether `c` is white space.
pub fn is_white_space(c: char) -> (r: bool)
    ensures
        r == white_space(c),
{
    ('\u{9}' <= c && c <= '\u{d}') || c == '\u{20}' || c == '\u{85}' || c == '\u{a0}' || c
        == '\u{1680}' || ('\u{2000}' <= c && c <= '\u{200a}') || c == '\u{2028}' || c == '\u{2029}'
        || c == '\u{202f}' || c == '\u{205f}' || c == '\u{3000}'
}

/// `0` to `9`.
pub open spec fn digit(c: char) -> bool {
    '0' <= c <= '9'
}

/// Whether `c` is an ASCII digit.
pub fn is_digit(c: char) -> (r: bool)
    ensures
        r == digit(c),
{
    '0' <= c && c <= '9'
}

/// `a` to `z` and `A` to `Z`.
pub open spec fn letter(c: char) -> bool {
    'a' <= c <= 'z' || 'A' <= c <= 'Z'
}

/// Whether `c` is an ASCII letter.
pub fn is_letter(c: char) -> (r: bool)
    ensures
        r == letter(c),
{
    ('a' <= c && c <= 'z') || ('A' <= c && c <= 'Z')
}

/// The ASCII lower-case form of `c`; every other character is its own.
pub open spec fn lower(c: char) -> char {
    if 'A' <= c <= 'Z' {
        ((c as u32 + 32) as u32) as char
    } else {
        c
    }
}

/// A text with every ASCII capital replaced by its small letter.
pub open spec fn folded(s: Seq<char>) -> Seq<char> {
    s.map_values(|c: char| lower(c))
}

/// Whether `a` sorts before `b`: they agree up to where `b` has the greater character, or goes on
/// and `a` does not.
pub open spec fn sorts_before(a: Seq<char>, b: Seq<char>) -> bool {
    exists|k: int| #[trigger] first_difference(a, b, k)
}

/// Whether `a` and `b` agree up to `k`, and `b` is the greater one there.
pub open spec fn first_difference(a: Seq<char>, b: Seq<char>, k: int) -> bool {
    &&& 0 <= k <= a.len()
    &&& k < b.len()
    &&& a.take(k) == b.take(k)
    &&& k < a.len() ==> a[k] < b[k]
}

/// Of two texts at most one sorts before the other, and none before itself.
pub proof fn sorting_is_one_way(a: Seq<char>, b: Seq<char>)
    ensures
        sorts_before(a, b) ==> !sorts_before(b, a) && a != b,
{
    if sorts_before(a, b) {
        let k = choose|k: int| #[trigger] first_difference(a, b, k);
        if sorts_before(b, a) {
            let j = choose|j: int| #[trigger] first_difference(b, a, j);
            if j < k {
                assert(a.take(k)[j] == b.take(k)[j]);
            } else if k < j {
                assert(b.take(j)[k] == a.take(j)[k]);
            }
        }
    }
}

proof fn agreement_decides(a: Seq<char>, b: Seq<char>, k: int)
    requires
        0 <= k <= a.len(),
        k <= b.len(),
        a.take(k) == b.take(k),
    ensures
        a == b || sorts_before(a, b) || sorts_before(b, a),
    decreases a.len() - k,
{
    if k == a.len() && k == b.len() {
        assert(a.take(k) == a && b.take(k) == b);
    } else if k == a.len() {
        assert(first_difference(a, b, k));
    } else if k == b.len() {
        assert(first_difference(b, a, k));
    } else if a[k] == b[k] {
        assert(a.take(k + 1) == a.take(k).push(a[k]));
        assert(b.take(k + 1) == b.take(k).push(b[k]));
        agreement_decides(a, b, k + 1);
    } else if a[k] < b[k] {
        assert(first_difference(a, b, k));
    } else {
        assert(first_difference(b, a, k));
    }
}

/// Of two different texts one sorts before the other.
pub proof fn sorting_decides(a: Seq<char>, b: Seq<char>)
    ensures
        a == b || sorts_before(a, b) || sorts_before(b, a),
{
    assert(a.take(0) == b.take(0));
    agreement_decides(a, b, 0);
}

/// A text sorts before every longer one that begins with it, and texts that go on from the same
/// beginning with different characters sort as these do.
pub proof fn sorting_goes_by_the_first_difference(
    front: Seq<char>,
    c: char,
    d: char,
    x: Seq<char>,
    y: Seq<char>,
)
    ensures
        sorts_before(front, front.push(c) + x),
        c < d ==> sorts_before(front.push(c) + x, front.push(d) + y),
{
    let a = front.push(c) + x;
    let b = front.push(d) + y;
    let k = front.len() as int;
    assert(front.take(k) == a.take(k));
    assert(first_difference(front, a, k));
    assert(a.take(k) == b.take(k));
    if c < d {
        assert(first_difference(a, b, k));
    }
}

/// White space is made of these 25 characters and no others.
pub proof fn white_space_has_these_characters(c: char)
    ensures
        white_space(c) <==> seq![
            0x9u32,
            0xa,
            0xb,
            0xc,
            0xd,
            0x20,
            0x85,
            0xa0,
            0x1680,
            0x2000,
            0x2001,
            0x2002,
            0x2003,
            0x2004,
            0x2005,
            0x2006,
            0x2007,
            0x2008,
            0x2009,
            0x200a,
            0x2028,
            0x2029,
            0x202f,
            0x205f,
            0x3000,
        ].contains(c as u32),
{
    let all = seq![
        0x9u32,
        0xa,
        0xb,
        0xc,
        0xd,
        0x20,
        0x85,
        0xa0,
        0x1680,
        0x2000,
        0x2001,
        0x2002,
        0x2003,
        0x2004,
        0x2005,
        0x2006,
        0x2007,
        0x2008,
        0x2009,
        0x200a,
        0x2028,
        0x2029,
        0x202f,
        0x205f,
        0x3000,
    ];
    assert(all[0] == 0x9 && all[1] == 0xa && all[2] == 0xb && all[3] == 0xc && all[4] == 0xd
        && all[5] == 0x20 && all[6] == 0x85 && all[7] == 0xa0 && all[8] == 0x1680 && all[9]
        == 0x2000 && all[10] == 0x2001 && all[11] == 0x2002 && all[12] == 0x2003 && all[13]
        == 0x2004 && all[14] == 0x2005 && all[15] == 0x2006 && all[16] == 0x2007 && all[17]
        == 0x2008 && all[18] == 0x2009 && all[19] == 0x200a && all[20] == 0x2028 && all[21]
        == 0x2029 && all[22] == 0x202f && all[23] == 0x205f && all[24] == 0x3000);
}

/// Folding keeps the length, and changes ASCII capitals into their small letters and nothing else.
pub proof fn folding_lowers_capitals(s: Seq<char>)
    ensures
        folded(s).len() == s.len(),
        forall|i: int|
            0 <= i < s.len() ==> if 'A' <= s[i] <= 'Z' {
                (#[trigger] folded(s)[i]) as u32 == s[i] as u32 + ('a' as u32 - 'A' as u32)
            } else {
                folded(s)[i] == s[i]
            },
        folded(folded(s)) == folded(s),
{
    assert forall|i: int| 0 <= i < s.len() implies folded(folded(s))[i] == folded(s)[i] by {
        assert(folded(s)[i] == lower(s[i]));
    }
}

/// Spaces, tabs and line breaks are white space; what ASCII prints otherwise is not.
pub proof fn printed_ascii_is_no_white_space(c: char)
    ensures
        c == ' ' || c == '\t' || c == '\n' || c == '\r' ==> white_space(c),
        '!' <= c <= '~' ==> !white_space(c),
        digit(c) <==> '0' <= c <= '9',
        letter(c) <==> 'a' <= c <= 'z' || 'A' <= c <= 'Z',
{
}

/// The value of one decimal digit as a character.
pub open spec fn digit_char(d: nat) -> char {
    (('0' as u32 + d) as u32) as char
}

// ---------------------------------------------------------------------------
// Conversions
// ---------------------------------------------------------------------------

/// The characters of a text, in order.
pub fn chars_of(s: &str) -> (r: Vec<char>)
    ensures
        r@ == s@,
{
    let mut r: Vec<char> = Vec::new();
    for c in it: s.chars()
        invariant
            r@ == it.seq().take(it.index()),
            it.seq() == s@,
    {
        r.push(c);
    }
    r
}

/// The text made of the characters from `from` up to `to`.
pub fn text_between(chars: &Vec<char>, from: usize, to: usize) -> (r: String)
    requires
        from <= to <= chars@.len(),
    ensures
        r@ == chars@.subrange(from as int, to as int),
{
    let mut r = String::new();
    let mut i: usize = from;
    while i < to
        invariant
            from <= i <= to <= chars@.len(),
            r@ == chars@.subrange(from as int, i as int),
        decreases to - i,
    {
        r.push(chars[i]);
        i = i + 1;
    }
    r
}

/// A text with every ASCII capital replaced by its small letter.
pub fn fold(s: &str) -> (r: String)
    ensures
        r@ == folded(s@),
{
    let chars = chars_of(s);
    let mut r = String::new();
    let mut i: usize = 0;
    while i < chars.len()
        invariant
            i <= chars@.len(),
            chars@ == s@,
            r@ == folded(s@.take(i as int)),
        decreases chars@.len() - i,
    {
        let c = chars[i];
        if 'A' <= c && c <= 'Z' {
            r.push((c as u8 + 32u8) as char);
        } else {
            r.push(c);
        }
        i = i + 1;
    }
    r
}

/// Whether two texts hold the same characters.
pub fn same_text(a: &str, b: &str) -> (r: bool)
    ensures
        r == (a@ == b@),
{
    a.to_owned() == b.to_owned()
}

// ---------------------------------------------------------------------------
// Bytes
// ---------------------------------------------------------------------------

/// The number of bytes in front of character `i`, in UTF-8.
pub open spec fn byte_offset(s: Seq<char>, i: int) -> nat {
    encode_utf8(s.take(i)).len()
}

/// The number of bytes of a character in UTF-8.
pub open spec fn char_bytes(c: char) -> nat {
    encode_scalar(c as u32).len()
}

proof fn encode_push(s: Seq<char>, c: char)
    ensures
        encode_utf8(s.push(c)) == encode_utf8(s) + encode_scalar(c as u32),
    decreases s.len(),
{
    if s.len() == 0 {
        assert(encode_utf8(s.push(c).drop_first()) == Seq::<u8>::empty());
    } else {
        assert(s.push(c).drop_first() == s.drop_first().push(c));
        encode_push(s.drop_first(), c);
    }
}

proof fn byte_offset_step(s: Seq<char>, i: int)
    requires
        0 <= i < s.len(),
    ensures
        byte_offset(s, i + 1) == byte_offset(s, i) + char_bytes(s[i]),
{
    assert(s.take(i + 1) == s.take(i).push(s[i]));
    encode_push(s.take(i), s[i]);
}

proof fn byte_offset_bound(s: Seq<char>, i: int)
    requires
        0 <= i <= s.len(),
    ensures
        byte_offset(s, i) <= encode_utf8(s).len(),
    decreases s.len() - i,
{
    if i == s.len() {
        assert(s.take(i) == s);
    } else {
        byte_offset_step(s, i);
        byte_offset_bound(s, i + 1);
    }
}

/// A character takes one byte up to U+007F, two up to U+07FF, three up to
/// U+FFFF, and four beyond.
proof fn char_width(c: char)
    ensures
        c <= '\u{7f}' ==> char_bytes(c) == 1,
        '\u{7f}' < c <= '\u{7ff}' ==> char_bytes(c) == 2,
        '\u{7ff}' < c <= '\u{ffff}' ==> char_bytes(c) == 3,
        '\u{ffff}' < c ==> char_bytes(c) == 4,
{
    char_is_scalar(c);
}

/// The number of bytes in front of character `at` of a text.
pub fn bytes_before(s: &str, at: usize) -> (r: usize)
    requires
        at <= s@.len(),
    ensures
        r == byte_offset(s@, at as int),
{
    let whole = s.as_bytes().len();
    let chars = chars_of(s);
    let mut i: usize = 0;
    let mut bytes: usize = 0;
    while i < at
        invariant
            i <= at <= chars@.len(),
            chars@ == s@,
            whole == encode_utf8(s@).len(),
            bytes == byte_offset(s@, i as int),
        decreases at - i,
    {
        let c = chars[i];
        proof {
            byte_offset_step(s@, i as int);
            byte_offset_bound(s@, i + 1);
            char_width(c);
        }
        let width: usize = if c <= '\u{7f}' {
            1
        } else if c <= '\u{7ff}' {
            2
        } else if c <= '\u{ffff}' {
            3
        } else {
            4
        };
        bytes = bytes + width;
        i = i + 1;
    }
    bytes
}

/// In a text of ASCII characters, each character is one byte on from the one before.
pub proof fn ascii_offsets_are_indices(s: Seq<char>, i: int)
    requires
        0 <= i <= s.len(),
        forall|k: int| 0 <= k < s.len() ==> #[trigger] s[k] <= '\u{7f}',
    ensures
        byte_offset(s, i) == i,
    decreases i,
{
    if i == 0 {
        assert(s.take(0) == Seq::<char>::empty());
    } else {
        ascii_offsets_are_indices(s, i - 1);
        byte_offset_step(s, i - 1);
        char_width(s[i - 1]);
    }
}

/// Every character is as many bytes on from the one before as that has in UTF-8.
pub proof fn offsets_count_bytes(s: Seq<char>, i: int)
    requires
        0 <= i < s.len(),
    ensures
        byte_offset(s, 0) == 0,
        byte_offset(s, i + 1) - byte_offset(s, i) == (if s[i] <= '\u{7f}' {
            1int
        } else if s[i] <= '\u{7ff}' {
            2
        } else if s[i] <= '\u{ffff}' {
            3
        } else {
            4
        }),
{
    assert(s.take(0) == Seq::<char>::empty());
    byte_offset_step(s, i);
    char_width(s[i]);
}

// ---------------------------------------------------------------------------
// Trimming
// ---------------------------------------------------------------------------

/// A text without the white space at its two ends.
pub open spec fn trimmed(s: Seq<char>) -> Seq<char>
    decreases s.len(),
{
    if s.len() == 0 {
        s
    } else if white_space(s.first()) {
        trimmed(s.drop_first())
    } else if white_space(s.last()) {
        trimmed(s.drop_last())
    } else {
        s
    }
}

/// A text that holds nothing but white space, if anything.
pub open spec fn blank(s: Seq<char>) -> bool {
    forall|i: int| 0 <= i < s.len() ==> white_space(#[trigger] s[i])
}

/// Trimming leaves nothing exactly when the text was blank.
pub proof fn trimmed_is_empty_iff_blank(s: Seq<char>)
    ensures
        trimmed(s).len() == 0 <==> blank(s),
    decreases s.len(),
{
    if s.len() > 0 {
        if white_space(s.first()) {
            trimmed_is_empty_iff_blank(s.drop_first());
            assert forall|i: int| blank(s.drop_first()) && 0 <= i < s.len() implies white_space(
                #[trigger] s[i],
            ) by {
                if i > 0 {
                    assert(s.drop_first()[i - 1] == s[i]);
                }
            }
        } else if white_space(s.last()) {
            trimmed_is_empty_iff_blank(s.drop_last());
        }
    }
}

/// White space behind a text does not survive trimming.
pub proof fn trimmed_ignores_white_space_behind(s: Seq<char>, c: char)
    requires
        white_space(c),
    ensures
        trimmed(s.push(c)) == trimmed(s),
    decreases s.len(),
{
    let longer = s.push(c);
    if s.len() == 0 {
        assert(longer.drop_first() == s);
    } else if white_space(s.first()) {
        assert(longer.drop_first() == s.drop_first().push(c));
        trimmed_ignores_white_space_behind(s.drop_first(), c);
    } else {
        assert(longer.drop_last() == s);
    }
}

/// What trimming leaves begins and ends with a character that is not white space.
pub proof fn trimmed_has_bare_ends(s: Seq<char>)
    ensures
        trimmed(s).len() > 0 ==> !white_space(trimmed(s).first()) && !white_space(
            trimmed(s).last(),
        ),
    decreases s.len(),
{
    if s.len() > 0 {
        if white_space(s.first()) {
            trimmed_has_bare_ends(s.drop_first());
        } else if white_space(s.last()) {
            trimmed_has_bare_ends(s.drop_last());
        }
    }
}

/// Trimming takes white space away at both ends and nothing else: what it leaves stands in the text
/// between two blank parts.
pub proof fn trimmed_is_the_middle(s: Seq<char>) -> (r: (int, int))
    ensures
        0 <= r.0 <= r.1 <= s.len(),
        trimmed(s) == s.subrange(r.0, r.1),
        blank(s.take(r.0)),
        blank(s.skip(r.1)),
    decreases s.len(),
{
    if s.len() == 0 {
        assert(s.subrange(0, 0) == s);
        (0, 0)
    } else if white_space(s.first()) {
        let inner = s.drop_first();
        let (i, j) = trimmed_is_the_middle(inner);
        assert(s.subrange(i + 1, j + 1) == inner.subrange(i, j));
        assert(s.skip(j + 1) == inner.skip(j));
        assert forall|k: int| 0 <= k < i + 1 implies white_space(#[trigger] s.take(i + 1)[k]) by {
            if k > 0 {
                assert(inner.take(i)[k - 1] == s[k]);
            }
        }
        (i + 1, j + 1)
    } else if white_space(s.last()) {
        let inner = s.drop_last();
        let (i, j) = trimmed_is_the_middle(inner);
        assert(s.subrange(i, j) == inner.subrange(i, j));
        assert(s.take(i) == inner.take(i));
        assert forall|k: int| 0 <= k < s.len() - j implies white_space(#[trigger] s.skip(j)[k]) by {
            if k < s.len() - j - 1 {
                assert(inner.skip(j)[k] == s[j + k]);
            }
        }
        (i, j)
    } else {
        assert(s.subrange(0, s.len() as int) == s);
        (0, s.len() as int)
    }
}

/// The text between the first and the last character that is not white space.
pub fn trim(s: &str) -> (r: String)
    ensures
        r@ == trimmed(s@),
{
    let chars = chars_of(s);
    let mut from: usize = 0;
    let mut to: usize = chars.len();
    assert(chars@.subrange(0, chars@.len() as int) == s@);
    while from < to && is_white_space(chars[from])
        invariant
            from <= to == chars@.len(),
            trimmed(chars@.subrange(from as int, to as int)) == trimmed(s@),
        decreases to - from,
    {
        assert(chars@.subrange(from as int, to as int).drop_first() == chars@.subrange(
            from + 1,
            to as int,
        ));
        from = from + 1;
    }
    while from < to && is_white_space(chars[to - 1])
        invariant
            from <= to <= chars@.len(),
            from < to ==> !white_space(chars@[from as int]),
            trimmed(chars@.subrange(from as int, to as int)) == trimmed(s@),
        decreases to - from,
    {
        assert(chars@.subrange(from as int, to as int).drop_last() == chars@.subrange(
            from as int,
            to - 1,
        ));
        to = to - 1;
    }
    text_between(&chars, from, to)
}

/// Whether a text is blank.
pub fn is_blank(s: &str) -> (r: bool)
    ensures
        r == blank(s@),
{
    let trimmed_text = trim(s);
    proof {
        trimmed_is_empty_iff_blank(s@);
    }
    trimmed_text.as_str().is_empty()
}

// ---------------------------------------------------------------------------
// Counting characters
// ---------------------------------------------------------------------------

/// How often `c` stands among the first `n` characters of a text.
pub open spec fn occurrences_before(s: Seq<char>, c: char, n: int) -> nat
    decreases n,
{
    if n <= 0 {
        0
    } else {
        occurrences_before(s, c, n - 1) + (if s[n - 1] == c {
            1nat
        } else {
            0nat
        })
    }
}

/// How often `c` stands in a text.
pub open spec fn occurrences(s: Seq<char>, c: char) -> nat {
    occurrences_before(s, c, s.len() as int)
}

proof fn occurrences_before_agree(a: Seq<char>, b: Seq<char>, c: char, n: int)
    requires
        n <= a.len(),
        n <= b.len(),
        forall|i: int| 0 <= i < n ==> a[i] == b[i],
    ensures
        occurrences_before(a, c, n) == occurrences_before(b, c, n),
    decreases n,
{
    if n > 0 {
        occurrences_before_agree(a, b, c, n - 1);
    }
}

proof fn occurrences_before_add(a: Seq<char>, b: Seq<char>, c: char, n: int)
    requires
        0 <= n <= b.len(),
    ensures
        occurrences_before(a + b, c, a.len() + n) == occurrences(a, c) + occurrences_before(b, c, n),
    decreases n,
{
    if n == 0 {
        occurrences_before_agree(a + b, a, c, a.len() as int);
    } else {
        occurrences_before_add(a, b, c, n - 1);
    }
}

/// The occurrences in two texts after each other are those in both.
pub proof fn occurrences_add(a: Seq<char>, b: Seq<char>, c: char)
    ensures
        occurrences(a + b, c) == occurrences(a, c) + occurrences(b, c),
{
    occurrences_before_add(a, b, c, b.len() as int);
}

/// A character that is not in a text does not occur in it.
pub proof fn occurrences_of_absent(s: Seq<char>, c: char, n: int)
    requires
        n <= s.len(),
        forall|i: int| 0 <= i < n ==> #[trigger] s[i] != c,
    ensures
        occurrences_before(s, c, n) == 0,
    decreases n,
{
    if n > 0 {
        occurrences_of_absent(s, c, n - 1);
    }
}

// ---------------------------------------------------------------------------
// Numerals
// ---------------------------------------------------------------------------

/// The decimal numeral of `n`, without leading zeros.
pub open spec fn decimal(n: nat) -> Seq<char>
    decreases n,
{
    if n < 10 {
        seq![digit_char(n)]
    } else {
        decimal(n / 10).push(digit_char(n % 10))
    }
}

/// The number that a sequence of digits denotes in base ten.
pub open spec fn decimal_value(s: Seq<char>) -> nat
    decreases s.len(),
{
    if s.len() == 0 {
        0
    } else {
        decimal_value(s.drop_last()) * 10 + digit_value(s.last())
    }
}

/// The value of a decimal digit.
pub open spec fn digit_value(c: char) -> nat {
    (c as u32 - '0' as u32) as nat
}

/// Whether every character is a digit.
pub open spec fn all_digits(s: Seq<char>) -> bool {
    forall|i: int| 0 <= i < s.len() ==> digit(#[trigger] s[i])
}

/// A text of at least one digit and nothing else.
pub open spec fn numeral(s: Seq<char>) -> bool {
    s.len() > 0 && all_digits(s)
}

/// Whether a text is a numeral.
pub fn is_numeral(s: &str) -> (r: bool)
    ensures
        r == numeral(s@),
{
    let chars = chars_of(s);
    let mut i: usize = 0;
    while i < chars.len()
        invariant
            i <= chars@.len(),
            chars@ == s@,
            forall|j: int| 0 <= j < i ==> digit(#[trigger] s@[j]),
        decreases chars@.len() - i,
    {
        if !is_digit(chars[i]) {
            return false;
        }
        i = i + 1;
    }
    chars.len() > 0
}

/// A numeral is made of digits and denotes its number.
pub proof fn decimal_denotes(n: nat)
    ensures
        numeral(decimal(n)),
        decimal_value(decimal(n)) == n,
    decreases n,
{
    if n < 10 {
        assert(decimal_value(decimal(n).drop_last()) == 0);
    } else {
        decimal_denotes(n / 10);
        assert(decimal(n).drop_last() == decimal(n / 10));
    }
}

/// Numerals are written in base ten: a further digit goes behind the others, a numeral begins with
/// `0` only where it is that digit, and digits stand for their numbers.
pub proof fn numerals_have_base_ten(n: nat, d: nat)
    requires
        d < 10,
    ensures
        decimal(d).len() == 1,
        decimal(d)[0] as u32 == '0' as u32 + d,
        n > 0 ==> decimal(n * 10 + d) == decimal(n) + decimal(d),
        n > 0 ==> decimal(n)[0] != '0',
    decreases n,
{
    if n > 0 {
        assert((n * 10 + d) / 10 == n && (n * 10 + d) % 10 == d);
        assert(decimal(n).push(digit_char(d)) == decimal(n) + decimal(d));
        if n >= 10 {
            numerals_have_base_ten(n / 10, d);
            assert(decimal(n)[0] == decimal(n / 10)[0]) by {
                decimal_denotes(n / 10);
            }
        }
    }
}

/// A digit behind others makes their number ten times as great and adds its own.
pub proof fn digits_denote_in_base_ten(s: Seq<char>, c: char)
    requires
        '0' <= c <= '9',
    ensures
        decimal_value(s.push(c)) == decimal_value(s) * 10 + (c as u32 - '0' as u32),
{
    assert(s.push(c).drop_last() == s);
}

proof fn decimal_value_grows(s: Seq<char>, k: int)
    requires
        0 <= k <= s.len(),
    ensures
        decimal_value(s.take(k)) <= decimal_value(s),
    decreases s.len() - k,
{
    if k == s.len() {
        assert(s.take(k) == s);
    } else {
        assert(s.take(k + 1).drop_last() == s.take(k));
        decimal_value_grows(s, k + 1);
    }
}

/// The number that a numeral denotes, where the text is one and the number fits 64 bits.
pub fn whole_number(s: &str) -> (r: Option<u64>)
    ensures
        match r {
            Some(n) => numeral(s@) && n == decimal_value(s@),
            None => !numeral(s@) || decimal_value(s@) > u64::MAX,
        },
{
    let chars = chars_of(s);
    if chars.len() == 0 {
        return None;
    }
    let mut i: usize = 0;
    let mut n: u64 = 0;
    while i < chars.len()
        invariant
            i <= chars@.len(),
            chars@ == s@,
            n == decimal_value(s@.take(i as int)),
            forall|j: int| 0 <= j < i ==> digit(#[trigger] s@[j]),
        decreases chars@.len() - i,
    {
        let c = chars[i];
        if !is_digit(c) {
            return None;
        }
        let d: u64 = c as u64 - 48;
        proof {
            assert(s@.take(i + 1).drop_last() == s@.take(i as int));
            decimal_value_grows(s@, i + 1);
        }
        match n.checked_mul(10) {
            None => {
                return None;
            },
            Some(tens) => match tens.checked_add(d) {
                None => {
                    return None;
                },
                Some(sum) => {
                    n = sum;
                },
            },
        }
        i = i + 1;
    }
    assert(s@.take(i as int) == s@);
    Some(n)
}

/// The decimal numeral of `n`.
pub fn decimal_text(n: u64) -> (r: String)
    ensures
        r@ == decimal(n as nat),
    decreases n,
{
    if n < 10 {
        let mut r = String::new();
        r.push((48u8 + n as u8) as char);
        r
    } else {
        let mut r = decimal_text(n / 10);
        r.push((48u8 + (n % 10) as u8) as char);
        r
    }
}

/// A text moved to the right edge of a column of `width` characters; a wider one is left as it is.
pub open spec fn right_aligned(s: Seq<char>, width: nat) -> Seq<char> {
    if s.len() >= width {
        s
    } else {
        Seq::new((width - s.len()) as nat, |i: int| ' ') + s
    }
}

/// Moving a text to the right puts spaces in front of it, as many as the column is wider, and
/// changes nothing else.
pub proof fn aligning_adds_spaces_in_front(s: Seq<char>, width: nat)
    ensures
        right_aligned(s, width).len() == (if s.len() < width {
            width
        } else {
            s.len()
        }),
        right_aligned(s, width).skip(right_aligned(s, width).len() - s.len()) == s,
        forall|i: int|
            0 <= i < right_aligned(s, width).len() - s.len() ==> #[trigger] right_aligned(
                s,
                width,
            )[i] == ' ',
{
}

/// A text moved to the right edge of a column of `width` characters.
pub fn align_right(s: &str, width: usize) -> (r: String)
    ensures
        r@ == right_aligned(s@, width as nat),
{
    let len = s.unicode_len();
    let mut r = String::new();
    if len < width {
        let mut n: usize = len;
        while n < width
            invariant
                len <= n <= width,
                r@ == Seq::new((n - len) as nat, |i: int| ' '),
            decreases width - n,
        {
            r.push(' ');
            n = n + 1;
        }
    }
    r.append(s);
    r
}

} // verus!
