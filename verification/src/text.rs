//! Text and byte strings.

use crate::split::split_on;
use vstd::prelude::*;
use vstd::string::*;
use vstd::utf8::encode_utf8;

verus! {

/// The bytes that `text` is encoded as.
pub open spec fn utf8(text: Seq<char>) -> Seq<u8> {
    encode_utf8(text)
}

/// The views of a sequence of values.
pub open spec fn views<T: View>(values: Seq<T>) -> Seq<T::V> {
    values.map_values(|value: T| value@)
}

/// Appending a value appends its view.
pub broadcast proof fn lemma_views_push<T: View>(values: Seq<T>, value: T)
    ensures
        #[trigger] views(values.push(value)) == views(values).push(value@),
{
    assert(views(values.push(value)) =~= views(values).push(value@));
}

/// The view of an optional value.
pub open spec fn opt_view<T: View>(value: Option<T>) -> Option<T::V> {
    match value {
        Some(value) => Some(value@),
        None => None,
    }
}

/// Encodes `text`.
pub fn to_bytes(text: &str) -> (bytes: Vec<u8>)
    ensures
        bytes@ == utf8(text@),
{
    text.as_bytes_vec()
}

/// Appends `tail` to `bytes`.
pub fn push_bytes(bytes: &mut Vec<u8>, tail: &[u8])
    ensures
        final(bytes)@ == old(bytes)@ + tail@,
{
    bytes.extend_from_slice(tail);
    assert(bytes@ =~= old(bytes)@ + tail@);
}

/// Puts `before` and `after` around `text`.
pub fn enclose(before: &str, text: &str, after: &str) -> (whole: String)
    ensures
        whole@ == before@ + text@ + after@,
{
    let mut whole = before.to_owned();
    whole.append(text);
    whole.append(after);
    whole
}

/// The decimal digits of `value`, with no leading zero.
pub open spec fn decimal(value: nat) -> Seq<u8>
    decreases value,
{
    if value < 10 {
        seq![(48 + value) as u8]
    } else {
        decimal(value / 10).push((48 + value % 10) as u8)
    }
}

/// Writes `value` in decimal.
pub fn to_decimal(value: usize) -> (digits: Vec<u8>)
    ensures
        digits@ == decimal(value as nat),
    decreases value,
{
    if value < 10 {
        let mut digits: Vec<u8> = Vec::new();
        digits.push(48 + value as u8);
        assert(digits@ =~= decimal(value as nat));
        digits
    } else {
        let mut digits = to_decimal(value / 10);
        digits.push(48 + (value % 10) as u8);
        digits
    }
}

/// Writes a truth value as `true` or `false`.
pub open spec fn bool_text(value: bool) -> Seq<char> {
    if value {
        "true"@
    } else {
        "false"@
    }
}

/// `std`'s `String::push`: the character is appended to the text.
pub assume_specification[ String::push ](text: &mut String, c: char)
    ensures
        final(text)@ == old(text)@.push(c),
;

/// Splits `text` at its spaces.
pub fn split_at_spaces(text: &str) -> (pieces: Vec<String>)
    ensures
        views(pieces@) == split_on(text@, ' '),
        pieces@.len() >= 1,
{
    let mut pieces: Vec<String> = Vec::new();
    let mut piece = String::new();
    assert(views(pieces@).push(piece@) =~= split_on(text@.take(0), ' '));
    for c in it: text.chars()
        invariant
            it.seq() == text@,
            views(pieces@).push(piece@) == split_on(text@.take(it.index() as int), ' '),
    {
        let ghost before = text@.take(it.index() as int);
        let ghost after = text@.take(it.index() + 1);
        assert(after.drop_last() =~= before);
        assert(after.last() == c);
        let ghost old_pieces = views(pieces@);
        assert(old_pieces.push(piece@).drop_last() =~= old_pieces);
        if c == ' ' {
            pieces.push(piece);
            proof {
                lemma_views_push(pieces@.drop_last(), piece);
                assert(pieces@.drop_last().push(piece) =~= pieces@);
            }
            piece = String::new();
        } else {
            piece.push(c);
        }
    }
    assert(text@.take(text@.len() as int) =~= text@);
    let ghost last = piece;
    let ghost front = pieces@;
    pieces.push(piece);
    proof {
        lemma_views_push(front, last);
    }
    pieces
}

/// What `char::to_uppercase` gives for `c`: the full upper-case mapping of Unicode, which can be
/// several characters long.
pub uninterp spec fn full_uppercase(c: char) -> Seq<char>;

/// `std`'s `char::to_uppercase`, its characters collected. Claimed of it: the result depends on
/// `c` alone, and on ASCII it takes the small letters to the capital ones and everything else to
/// itself.
#[verifier::external_body]
fn uppercase_chars(c: char) -> (mapped: Vec<char>)
    ensures
        mapped@ == full_uppercase(c),
        'a' <= c <= 'z' ==> mapped@ == seq![(c as u32 - 32) as char],
        (c as u32) < 128 && !('a' <= c <= 'z') ==> mapped@ == seq![c],
{
    c.to_uppercase().collect()
}

/// The small Greek letters with an iota subscript that have a single capital letter, although
/// their full upper-case mapping is two characters long.
pub open spec fn has_prosgegrammeni(c: char) -> bool {
    let code = c as u32;
    ||| 0x1F80 <= code <= 0x1F87
    ||| 0x1F90 <= code <= 0x1F97
    ||| 0x1FA0 <= code <= 0x1FA7
    ||| code == 0x1FB3
    ||| code == 0x1FC3
    ||| code == 0x1FF3
}

/// The simple upper-case mapping of Unicode: one character for one character. A character whose
/// only mapping is several characters long stands for itself.
pub open spec fn simple_uppercase(c: char) -> char {
    let full = full_uppercase(c);
    if full.len() == 1 {
        full[0]
    } else if has_prosgegrammeni(c) {
        if (c as u32) < 0x1FB0 {
            (c as u32 + 8) as char
        } else {
            (c as u32 + 9) as char
        }
    } else {
        c
    }
}

/// The capital letter with prosgegrammeni that goes with `c`.
fn prosgegrammeni(c: char) -> (capital: char)
    ensures
        has_prosgegrammeni(c) && (c as u32) < 0x1FB0 ==> capital == (c as u32 + 8) as char,
        has_prosgegrammeni(c) && (c as u32) >= 0x1FB0 ==> capital == (c as u32 + 9) as char,
        !has_prosgegrammeni(c) ==> capital == c,
{
    match c {
        '\u{1F80}' => '\u{1F88}',
        '\u{1F81}' => '\u{1F89}',
        '\u{1F82}' => '\u{1F8A}',
        '\u{1F83}' => '\u{1F8B}',
        '\u{1F84}' => '\u{1F8C}',
        '\u{1F85}' => '\u{1F8D}',
        '\u{1F86}' => '\u{1F8E}',
        '\u{1F87}' => '\u{1F8F}',
        '\u{1F90}' => '\u{1F98}',
        '\u{1F91}' => '\u{1F99}',
        '\u{1F92}' => '\u{1F9A}',
        '\u{1F93}' => '\u{1F9B}',
        '\u{1F94}' => '\u{1F9C}',
        '\u{1F95}' => '\u{1F9D}',
        '\u{1F96}' => '\u{1F9E}',
        '\u{1F97}' => '\u{1F9F}',
        '\u{1FA0}' => '\u{1FA8}',
        '\u{1FA1}' => '\u{1FA9}',
        '\u{1FA2}' => '\u{1FAA}',
        '\u{1FA3}' => '\u{1FAB}',
        '\u{1FA4}' => '\u{1FAC}',
        '\u{1FA5}' => '\u{1FAD}',
        '\u{1FA6}' => '\u{1FAE}',
        '\u{1FA7}' => '\u{1FAF}',
        '\u{1FB3}' => '\u{1FBC}',
        '\u{1FC3}' => '\u{1FCC}',
        '\u{1FF3}' => '\u{1FFC}',
        _ => c,
    }
}

/// Maps `c` to upper case, one character for one character.
pub fn to_uppercase(c: char) -> (mapped: char)
    ensures
        mapped == simple_uppercase(c),
        'a' <= c <= 'z' ==> mapped == (c as u32 - 32) as char,
        (c as u32) < 128 && !('a' <= c <= 'z') ==> mapped == c,
{
    let full = uppercase_chars(c);
    if full.len() == 1 {
        full[0]
    } else {
        prosgegrammeni(c)
    }
}

/// A character of a package's name, as it stands in the name of an environment variable.
pub open spec fn env_char(c: char) -> char {
    if c == '-' {
        '_'
    } else {
        simple_uppercase(c)
    }
}

/// A package's name, as it stands in the name of an environment variable.
pub open spec fn env_name(name: Seq<char>) -> Seq<char> {
    name.map_values(|c: char| env_char(c))
}

/// Rewrites a package's name for use in the name of an environment variable.
pub fn to_env_name(name: &str) -> (mapped: String)
    ensures
        mapped@ == env_name(name@),
        forall|i: int|
            0 <= i < name@.len() && (name@[i] as u32) < 128 ==> {
                let c = #[trigger] mapped@[i];
                c != '-' && !('a' <= c <= 'z')
            },
{
    let mut mapped = String::new();
    for c in it: name.chars()
        invariant
            it.seq() == name@,
            mapped@ == env_name(name@.take(it.index() as int)),
            forall|i: int|
                0 <= i < it.index() && (name@[i] as u32) < 128 ==> {
                    let c = #[trigger] mapped@[i];
                    c != '-' && !('a' <= c <= 'z')
                },
    {
        proof {
            let before = name@.take(it.index() as int);
            assert(env_name(name@.take(it.index() + 1)) =~= env_name(before).push(env_char(c)));
        }
        if c == '-' {
            mapped.push('_');
        } else {
            mapped.push(to_uppercase(c));
        }
    }
    assert(name@.take(name@.len() as int) =~= name@);
    mapped
}

/// The number that digits stand for.
pub open spec fn number(digits: Seq<u8>) -> int
    decreases digits.len(),
{
    if digits.len() == 0 {
        0
    } else {
        number(digits.drop_last()) * 10 + (digits.last() - 48)
    }
}

/// A number in decimal consists of digits, does not start with a zero unless it is one digit long,
/// and can be read back.
pub proof fn law_decimal_reads_back(value: nat)
    ensures
        number(decimal(value)) == value,
        decimal(value).len() > 0,
        decimal(value).len() > 1 ==> decimal(value)[0] != 48,
        forall|i: int| 0 <= i < decimal(value).len() ==> 48 <= #[trigger] decimal(value)[i] <= 57,
    decreases value,
{
    let digits = decimal(value);
    if value < 10 {
        assert(digits.drop_last() =~= Seq::empty());
        assert(number(digits.drop_last()) == 0);
    } else {
        law_decimal_reads_back(value / 10);
        let front = decimal(value / 10);
        assert(digits.drop_last() =~= front);
        assert(digits[0] == front[0]);
        if front.len() == 1 && front[0] == 48 {
            assert(front.drop_last() =~= Seq::empty());
            assert(number(front.drop_last()) == 0);
            assert(number(front) == 0);
        }
    }
}

/// Truth values are written as they are called.
pub proof fn law_bool_text()
    ensures
        bool_text(true) == "true"@,
        bool_text(false) == "false"@,
{
}

/// In the name of a variable each `-` stands as `_`, each other character in upper case, and no
/// character is lost or added.
pub proof fn law_env_name(name: Seq<char>, i: int)
    requires
        0 <= i < name.len(),
    ensures
        env_name(name).len() == name.len(),
        name[i] == '-' ==> env_name(name)[i] == '_',
        name[i] != '-' && full_uppercase(name[i]).len() == 1 ==> env_name(name)[i]
            == full_uppercase(name[i])[0],
        name[i] != '-' && full_uppercase(name[i]).len() != 1 && !(0x1F80 <= name[i] as u32
            <= 0x1FFF) ==> env_name(name)[i] == name[i],
{
}

/// The view of several values holds the view of each, and that of an optional value is there if the
/// value is.
pub proof fn law_views<T: View>(values: Seq<T>, value: Option<T>, i: int)
    ensures
        views(values).len() == values.len(),
        0 <= i < values.len() ==> views(values)[i] == values[i]@,
        value is Some ==> opt_view(value) == Some(value->0@),
        value is None ==> opt_view(value) is None,
{
}

/// Of the small Greek letters with an iota subscript, whose full mapping is not one character, each
/// has the capital one that goes with it, and all other characters without a mapping of one character
/// stand for themselves.
pub proof fn law_capitals_with_prosgegrammeni(c: char)
    requires
        full_uppercase(c).len() != 1,
    ensures
        0x1F80 <= c as u32 <= 0x1F87 || 0x1F90 <= c as u32 <= 0x1F97 || 0x1FA0 <= c as u32 <= 0x1FA7
            ==> simple_uppercase(c) == (c as u32 + 8) as char,
        c as u32 == 0x1FB3 || c as u32 == 0x1FC3 || c as u32 == 0x1FF3 ==> simple_uppercase(c) == (
        c as u32 + 9) as char,
        !(0x1F80 <= c as u32 <= 0x1FFF) || 0x1F88 <= c as u32 <= 0x1F8F || 0x1F98 <= c as u32
            <= 0x1F9F || 0x1FA8 <= c as u32 <= 0x1FB2 ==> simple_uppercase(c) == c,
{
}

} // verus!
