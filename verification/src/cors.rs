//! The origins that may make cross-origin requests.
//!
//! They are given as a list between commas. White space around an origin, and commas with nothing
//! between them, mean nothing. A `*` stands for any origin, and stands alone.
use crate::json;
use crate::text;
use crate::text::{chars_of, decimal_text, same_text, text_between, trim};
use axum::http::HeaderValue;
use vstd::prelude::*;
use vstd::string::*;
use vstd::utf8::*;

verus! {

// ---------------------------------------------------------------------------
// Header values
// ---------------------------------------------------------------------------

/// `http::HeaderValue`, the value of an HTTP header.
#[verifier::external_type_specification]
#[verifier::external_body]
pub struct ExHeaderValue(HeaderValue);

/// The bytes of a header value.
pub uninterp spec fn header_bytes(value: HeaderValue) -> Seq<u8>;

/// The bytes that a header value may hold: none of the control characters but the tab.
pub open spec fn header_byte(b: u8) -> bool {
    (b >= 32 && b != 127) || b == 9
}

/// Whether a text may be a header value.
pub open spec fn header_text(t: Seq<char>) -> bool {
    forall|i: int| 0 <= i < encode_utf8(t).len() ==> header_byte(#[trigger] encode_utf8(t)[i])
}

/// `http::HeaderValue::from_str`: a header value of the bytes of the text, unless one of them is
/// a control character other than the tab.
#[verifier::external_body]
fn header_value(t: &str) -> (r: Option<HeaderValue>)
    ensures
        match r {
            Some(value) => header_text(t@) && header_bytes(value) == encode_utf8(t@),
            None => !header_text(t@),
        },
{
    HeaderValue::from_str(t).ok()
}

/// `http::HeaderValue::as_bytes`: the bytes of the value.
#[verifier::external_body]
fn bytes_of(value: &HeaderValue) -> (r: &[u8])
    ensures
        r@ == header_bytes(*value),
{
    value.as_bytes()
}

/// The bytes of each of some header values.
pub open spec fn all_header_bytes(values: Seq<HeaderValue>) -> Seq<Seq<u8>> {
    values.map_values(|v: HeaderValue| header_bytes(v))
}

// ---------------------------------------------------------------------------
// The list
// ---------------------------------------------------------------------------

/// What stands between the commas of a text.
pub open spec fn split_at_commas(s: Seq<char>) -> Seq<Seq<char>>
    decreases s.len(),
{
    if s.len() == 0 {
        seq![seq![]]
    } else {
        let front = split_at_commas(s.drop_last());
        if s.last() == ',' {
            front.push(seq![])
        } else {
            front.drop_last().push(front.last().push(s.last()))
        }
    }
}

/// The pieces without the white space around them, and without those that are blank.
pub open spec fn bare_pieces(pieces: Seq<Seq<char>>) -> Seq<Seq<char>>
    decreases pieces.len(),
{
    if pieces.len() == 0 {
        seq![]
    } else {
        let front = bare_pieces(pieces.drop_last());
        let piece = text::trimmed(pieces.last());
        if piece.len() == 0 {
            front
        } else {
            front.push(piece)
        }
    }
}

/// The origins that a text lists.
pub open spec fn listed_origins(s: Seq<char>) -> Seq<Seq<char>> {
    bare_pieces(split_at_commas(s))
}

/// Why a list of origins is refused.
pub enum CorsFault {
    /// A `*` with other origins beside it.
    StarAmongOthers,
    /// An origin that cannot stand in a header.
    Invalid(Seq<char>),
}

/// The first origin that cannot stand in a header, if there is one.
pub open spec fn first_invalid(origins: Seq<Seq<char>>) -> Option<Seq<char>>
    decreases origins.len(),
{
    if origins.len() == 0 {
        None
    } else {
        match first_invalid(origins.drop_last()) {
            Some(origin) => Some(origin),
            None => if header_text(origins.last()) {
                None
            } else {
                Some(origins.last())
            },
        }
    }
}

/// The origins that a list allows.
pub open spec fn allowed_origins(raw: Option<Seq<char>>) -> Result<Seq<Seq<char>>, CorsFault> {
    match raw {
        None => Ok(seq![]),
        Some(s) => {
            let origins = listed_origins(s);
            if origins.contains("*"@) {
                if origins.len() == 1 {
                    Ok(origins)
                } else {
                    Err(CorsFault::StarAmongOthers)
                }
            } else {
                match first_invalid(origins) {
                    Some(origin) => Err(CorsFault::Invalid(origin)),
                    None => Ok(origins),
                }
            }
        },
    }
}

/// What is reported of a fault.
pub open spec fn fault_message(fault: CorsFault) -> Seq<char> {
    match fault {
        CorsFault::StarAmongOthers =>
            "`*` (allow any origin) cannot be combined with specific origins; use either `*` alone or a list of explicit origins"@,
        CorsFault::Invalid(origin) => "`"@ + origin
            + "` is not a valid HTTP header value (check for control characters or non-ASCII bytes)"@,
    }
}

/// The bytes of each of some texts.
pub open spec fn all_bytes(texts: Seq<Seq<char>>) -> Seq<Seq<u8>> {
    texts.map_values(|t: Seq<char>| encode_utf8(t))
}

// ---------------------------------------------------------------------------
// Laws
// ---------------------------------------------------------------------------

/// There is always at least one piece between commas.
proof fn pieces_are_not_empty(s: Seq<char>)
    ensures
        split_at_commas(s).len() > 0,
    decreases s.len(),
{
    if s.len() > 0 {
        pieces_are_not_empty(s.drop_last());
    }
}

proof fn pieces_add_up(a: Seq<char>, b: Seq<char>)
    ensures
        split_at_commas(a + seq![','] + b) == split_at_commas(a) + split_at_commas(b),
    decreases b.len(),
{
    let s = a + seq![','] + b;
    pieces_are_not_empty(a);
    if b.len() == 0 {
        assert(s.drop_last() == a);
        assert(split_at_commas(a).push(seq![]) == split_at_commas(a) + seq![Seq::<char>::empty()]);
    } else {
        let front = b.drop_last();
        pieces_add_up(a, front);
        pieces_are_not_empty(front);
        assert(s.drop_last() == a + seq![','] + front);
        assert(s.last() == b.last());
        let x = split_at_commas(a);
        let y = split_at_commas(front);
        if b.last() == ',' {
            assert((x + y).push(seq![]) == x + y.push(seq![]));
        } else {
            let grown = y.last().push(b.last());
            assert((x + y).last() == y.last());
            assert((x + y).drop_last().push(grown) == x + y.drop_last().push(grown));
        }
    }
}

proof fn bare_pieces_add_up(a: Seq<Seq<char>>, b: Seq<Seq<char>>)
    ensures
        bare_pieces(a + b) == bare_pieces(a) + bare_pieces(b),
    decreases b.len(),
{
    if b.len() == 0 {
        assert(a + b == a);
        assert(bare_pieces(a) + bare_pieces(b) == bare_pieces(a));
    } else {
        bare_pieces_add_up(a, b.drop_last());
        assert((a + b).drop_last() == a + b.drop_last());
        let front = bare_pieces(a) + bare_pieces(b.drop_last());
        let piece = text::trimmed(b.last());
        assert(front.push(piece) == bare_pieces(a) + bare_pieces(b.drop_last()).push(piece));
    }
}

proof fn text_without_commas_is_one_piece(s: Seq<char>)
    requires
        !s.contains(','),
    ensures
        split_at_commas(s) == seq![s],
    decreases s.len(),
{
    if s.len() == 0 {
        assert(s == Seq::<char>::empty());
    } else {
        let front = s.drop_last();
        assert(s[s.len() - 1] != ',');
        assert forall|i: int| 0 <= i < front.len() implies front[i] != ',' by {
            assert(front[i] == s[i]);
        }
        text_without_commas_is_one_piece(front);
        assert(front.push(s.last()) == s);
        assert(seq![front].drop_last().push(s) == seq![s]);
    }
}

/// Two lists with a comma between them list the origins of the first and then those of the second.
/// A text without a comma lists itself, without the white space around it, unless it is blank.
pub proof fn lists_add_up(a: Seq<char>, b: Seq<char>, s: Seq<char>)
    requires
        !s.contains(','),
    ensures
        listed_origins(a + seq![','] + b) == listed_origins(a) + listed_origins(b),
        listed_origins(s) == (if text::blank(s) {
            Seq::<Seq<char>>::empty()
        } else {
            seq![text::trimmed(s)]
        }),
{
    pieces_add_up(a, b);
    bare_pieces_add_up(split_at_commas(a), split_at_commas(b));
    text_without_commas_is_one_piece(s);
    text::trimmed_is_empty_iff_blank(s);
    assert(seq![s].drop_last() == Seq::<Seq<char>>::empty());
    assert(bare_pieces(seq![s].drop_last()) == Seq::<Seq<char>>::empty());
    assert(Seq::<Seq<char>>::empty().push(text::trimmed(s)) == seq![text::trimmed(s)]);
}

proof fn first_invalid_is_the_first(origins: Seq<Seq<char>>)
    ensures
        match first_invalid(origins) {
            Some(origin) => exists|k: int|
                0 <= k < origins.len() && origin == #[trigger] origins[k] && !header_text(
                    origins[k],
                ) && forall|j: int| 0 <= j < k ==> header_text(#[trigger] origins[j]),
            None => forall|j: int| 0 <= j < origins.len() ==> header_text(#[trigger] origins[j]),
        },
    decreases origins.len(),
{
    if origins.len() > 0 {
        let front = origins.drop_last();
        first_invalid_is_the_first(front);
        if first_invalid(front) is Some {
            let k = choose|k: int|
                0 <= k < front.len() && first_invalid(front)->0 == #[trigger] front[k]
                    && !header_text(front[k]) && forall|j: int|
                    0 <= j < k ==> header_text(#[trigger] front[j]);
            assert(origins[k] == front[k]);
            assert forall|j: int| 0 <= j < k implies header_text(#[trigger] origins[j]) by {
                assert(origins[j] == front[j]);
            }
        } else {
            let last = origins.len() - 1;
            assert forall|j: int| 0 <= j < last implies header_text(#[trigger] origins[j]) by {
                assert(origins[j] == front[j]);
            }
            assert(origins[last] == origins.last());
        }
    }
}

/// All listed origins are allowed, in their order, where each can stand in a header or a star
/// stands alone. A star beside others is refused, and else the first origin that cannot stand in a
/// header.
pub proof fn listed_origins_are_allowed(s: Seq<char>)
    ensures
        ({
            let origins = listed_origins(s);
            match allowed_origins(Some(s)) {
                Ok(allowed) => allowed == origins && (origins == seq!["*"@] || (!origins.contains(
                    "*"@,
                ) && forall|j: int|
                    0 <= j < origins.len() ==> header_text(#[trigger] origins[j]))),
                Err(CorsFault::StarAmongOthers) => origins.contains("*"@) && origins.len() > 1,
                Err(CorsFault::Invalid(origin)) => !origins.contains("*"@) && exists|k: int|
                    0 <= k < origins.len() && origin == #[trigger] origins[k] && !header_text(
                        origins[k],
                    ) && forall|j: int| 0 <= j < k ==> header_text(#[trigger] origins[j]),
            }
        }),
        allowed_origins(None) == Ok::<_, CorsFault>(Seq::<Seq<char>>::empty()),
{
    let origins = listed_origins(s);
    first_invalid_is_the_first(origins);
    if origins.contains("*"@) && origins.len() == 1 {
        assert(origins[0] == "*"@);
        assert(origins == seq!["*"@]);
    }
}

/// A comma at the end of a list means nothing.
pub proof fn trailing_comma_means_nothing(s: Seq<char>)
    ensures
        allowed_origins(Some(s.push(','))) == allowed_origins(Some(s)),
{
    let longer = split_at_commas(s.push(','));
    assert(s.push(',').drop_last() == s);
    assert(longer.drop_last() == split_at_commas(s));
}

/// White space at the end of a list means nothing.
pub proof fn trailing_white_space_means_nothing(s: Seq<char>, c: char)
    requires
        text::white_space(c),
    ensures
        allowed_origins(Some(s.push(c))) == allowed_origins(Some(s)),
{
    pieces_are_not_empty(s);
    let pieces = split_at_commas(s);
    let longer = split_at_commas(s.push(c));
    assert(s.push(c).drop_last() == s);
    assert(longer.drop_last() == pieces.drop_last());
    text::trimmed_ignores_white_space_behind(pieces.last(), c);
}

/// A list without anything but commas and white space allows no origin, as no list does.
pub proof fn blank_list_allows_nothing(s: Seq<char>)
    requires
        forall|i: int| 0 <= i < s.len() ==> s[i] == ',' || text::white_space(#[trigger] s[i]),
    ensures
        allowed_origins(Some(s)) == allowed_origins(None),
    decreases s.len(),
{
    if s.len() == 0 {
        assert(bare_pieces(split_at_commas(s).drop_last()) == Seq::<Seq<char>>::empty());
    } else {
        let front = s.drop_last();
        blank_list_allows_nothing(front);
        assert(s == front.push(s.last()));
        if s.last() == ',' {
            trailing_comma_means_nothing(front);
        } else {
            trailing_white_space_means_nothing(front, s.last());
        }
    }
}

/// A star among the allowed origins is the only one.
pub proof fn star_stands_alone(raw: Option<Seq<char>>)
    ensures
        allowed_origins(raw) matches Ok(origins) ==> origins.contains("*"@) ==> origins.len() == 1,
{
}

// ---------------------------------------------------------------------------
// Reading the list
// ---------------------------------------------------------------------------

/// The characters of each of some texts.
pub open spec fn text_models(texts: Seq<String>) -> Seq<Seq<char>> {
    texts.map_values(|t: String| t@)
}

/// Add a piece to the origins, unless it is blank.
fn add_piece(origins: &mut Vec<String>, piece: &str)
    ensures
        ({
            let bare = text::trimmed(piece@);
            text_models(final(origins)@) == (if bare.len() == 0 {
                text_models(old(origins)@)
            } else {
                text_models(old(origins)@).push(bare)
            })
        }),
{
    let bare = trim(piece);
    if bare.as_str().unicode_len() > 0 {
        origins.push(bare);
    }
}

/// The origins that a text lists.
fn list_origins(s: &str) -> (r: Vec<String>)
    ensures
        text_models(r@) == listed_origins(s@),
{
    let chars = chars_of(s);
    let mut origins: Vec<String> = Vec::new();
    let mut start: usize = 0;
    let mut i: usize = 0;
    while i < chars.len()
        invariant
            start <= i <= chars@.len(),
            chars@ == s@,
            split_at_commas(s@.take(i as int)).len() > 0,
            split_at_commas(s@.take(i as int)).last() == s@.subrange(start as int, i as int),
            text_models(origins@) == bare_pieces(split_at_commas(s@.take(i as int)).drop_last()),
        decreases chars@.len() - i,
    {
        let ghost before = split_at_commas(s@.take(i as int));
        let ghost after = split_at_commas(s@.take(i + 1));
        assert(s@.take(i + 1).drop_last() == s@.take(i as int));
        if chars[i] == ',' {
            add_piece(&mut origins, text_between(&chars, start, i).as_str());
            start = i + 1;
            proof {
                assert(after.drop_last() == before);
            }
        } else {
            proof {
                assert(after.drop_last() == before.drop_last());
            }
        }
        i = i + 1;
    }
    assert(s@.take(i as int) == s@);
    add_piece(&mut origins, text_between(&chars, start, chars.len()).as_str());
    origins
}

/// Whether a star is among the origins.
fn has_star(origins: &Vec<String>) -> (r: bool)
    ensures
        r == text_models(origins@).contains("*"@),
{
    let ghost models = text_models(origins@);
    let mut i: usize = 0;
    while i < origins.len()
        invariant
            i <= origins@.len(),
            models == text_models(origins@),
            forall|j: int| 0 <= j < i ==> #[trigger] models[j] != "*"@,
        decreases origins@.len() - i,
    {
        if same_text(origins[i].as_str(), "*") {
            assert(models[i as int] == "*"@);
            return true;
        }
        i = i + 1;
    }
    false
}

/// An origin that cannot stand in a header decides, whatever follows it.
proof fn first_invalid_decides(origins: Seq<Seq<char>>, k: int)
    requires
        0 <= k <= origins.len(),
        first_invalid(origins.take(k)) is Some,
    ensures
        first_invalid(origins) == first_invalid(origins.take(k)),
    decreases origins.len(),
{
    if k == origins.len() {
        assert(origins.take(k) == origins);
    } else {
        assert(origins.drop_last().take(k) == origins.take(k));
        first_invalid_decides(origins.drop_last(), k);
    }
}

/// A star is one byte.
proof fn star_is_one_byte()
    ensures
        encode_utf8("*"@) == seq![42u8],
{
    reveal_strlit("*");
    assert(encode_utf8("*"@.drop_first()) == Seq::<u8>::empty());
    assert((42u32 & 0x7f) as u8 == 42u8) by (bit_vector);
}

/// The origins that a list allows, as header values; none where there is no list.
///
/// A `*` beside other origins is refused, and so is an origin that cannot stand in a header; the
/// message names it.
pub fn parse_cors_origins(raw: Option<String>) -> (r: Result<Vec<HeaderValue>, String>)
    ensures
        match allowed_origins(json::text_view(raw)) {
            Ok(origins) => r matches Ok(values) && all_header_bytes(values@) == all_bytes(origins),
            Err(fault) => r matches Err(message) && message@ == fault_message(fault),
        },
{
    let mut values: Vec<HeaderValue> = Vec::new();
    let listed = match raw {
        Some(s) => s,
        None => {
            return Ok(values);
        },
    };
    let origins = list_origins(listed.as_str());
    let ghost models = text_models(origins@);
    if has_star(&origins) {
        if origins.len() != 1 {
            return Err(
                "`*` (allow any origin) cannot be combined with specific origins; use either `*` alone or a list of explicit origins".to_owned(),
            );
        }
        proof {
            star_is_one_byte();
        }
        if let Some(star) = header_value("*") {
            values.push(star);
        }
        return Ok(values);
    }
    let mut i: usize = 0;
    while i < origins.len()
        invariant
            i <= origins@.len(),
            models == text_models(origins@),
            models == listed_origins(listed@),
            json::text_view(raw) == Some(listed@),
            !models.contains("*"@),
            first_invalid(models.take(i as int)) is None,
            all_header_bytes(values@) == all_bytes(models.take(i as int)),
        decreases origins@.len() - i,
    {
        assert(models.take(i + 1).drop_last() == models.take(i as int));
        match header_value(origins[i].as_str()) {
            Some(value) => {
                values.push(value);
                assert(all_bytes(models.take(i + 1)) == all_bytes(models.take(i as int)).push(
                    encode_utf8(origins@[i as int]@),
                ));
            },
            None => {
                proof {
                    first_invalid_decides(models, i + 1);
                }
                let mut message = "`".to_owned();
                message.append(origins[i].as_str());
                message.append(
                    "` is not a valid HTTP header value (check for control characters or non-ASCII bytes)",
                );
                return Err(message);
            },
        }
        i = i + 1;
    }
    assert(models.take(i as int) == models);
    Ok(values)
}

/// What the log says of the allowed origins.
pub open spec fn summary(origins: Seq<Seq<u8>>) -> Seq<char> {
    if origins.len() == 0 {
        "disabled"@
    } else if origins.len() == 1 && origins[0] == seq![42u8] {
        "any origin (*)"@
    } else {
        text::decimal(origins.len()) + " specific origin(s)"@
    }
}

/// The log says whether no origin is allowed, any is, or how many are.
pub proof fn summaries_count_the_origins(origins: Seq<Seq<u8>>)
    ensures
        origins.len() == 0 ==> summary(origins) == "disabled"@,
        origins == seq![encode_utf8("*"@)] ==> summary(origins) == "any origin (*)"@,
        origins.len() > 0 && origins != seq![encode_utf8("*"@)] ==> summary(origins)
            == text::decimal(origins.len()) + " specific origin(s)"@,
{
    star_is_one_byte();
    if origins.len() == 1 && origins[0] == encode_utf8("*"@) {
        assert(origins == seq![encode_utf8("*"@)]);
    }
}

/// What the log says of the allowed origins.
pub fn cors_summary(origins: &[HeaderValue]) -> (r: String)
    ensures
        r@ == summary(all_header_bytes(origins@)),
{
    if origins.len() == 0 {
        return "disabled".to_owned();
    }
    if origins.len() == 1 {
        let bytes = bytes_of(&origins[0]);
        if bytes.len() == 1 && bytes[0] == 42 {
            assert(bytes@ == seq![42u8]);
            return "any origin (*)".to_owned();
        }
    }
    let mut r = decimal_text(origins.len() as u64);
    r.append(" specific origin(s)");
    r
}

} // verus!
