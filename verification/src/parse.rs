//! Reading an address and a prefix length from text of the shape `A.B.C.D/P`.
//!
//! The shape is stated here over the characters of the text. A regular
//! expression finds the five fields; nothing is proved of the engine that runs
//! it, so what it hands back is held against the text before any value is read
//! from it. An answer other than `MalformedInput` is therefore always the
//! text's own value, whatever the engine returned.

use crate::address::address_of;
use crate::address::lemma_octets_round_trip;
use crate::address::octet_of;
use crate::address::octets_of;
use crate::decimal::decimal_text;
use crate::decimal::decimal_value;
use crate::decimal::digit_value;
use crate::decimal::is_digit;
use crate::decimal::is_digits;
use crate::decimal::lemma_decimal_round_trip;
use crate::decimal::lemma_decimal_text_len;
use crate::render::dotted_decimal_text;
use vstd::prelude::*;
use vstd::string::*;

verus! {

/// Why a text was not read as an address with a prefix length.
#[derive(Clone, Copy, Debug, PartialEq, Eq, Structural)]
pub enum ParseError {
    /// The text does not have the shape `A.B.C.D/P`.
    MalformedInput,
    /// One of the four octets is above 255.
    InvalidOctet,
    /// The prefix length is above 32.
    InvalidPrefix,
}

/// The pattern of a whole line `A.B.C.D/P`: four groups of one to three
/// digits between literal dots, a slash, and one group of one or two digits.
pub const CIDR_PATTERN: &'static str =
    r"^([0-9]{1,3})\.([0-9]{1,3})\.([0-9]{1,3})\.([0-9]{1,3})/([0-9]{1,2})$";

/// A field: between one and `max_len` digits.
pub open spec fn is_field(s: Seq<char>, max_len: nat) -> bool {
    1 <= s.len() <= max_len && is_digits(s)
}

/// Five fields: four octets of up to three digits and a prefix length of up to two.
pub open spec fn is_cidr_fields(f: Seq<Seq<char>>) -> bool {
    &&& f.len() == 5
    &&& is_field(f[0], 3)
    &&& is_field(f[1], 3)
    &&& is_field(f[2], 3)
    &&& is_field(f[3], 3)
    &&& is_field(f[4], 2)
}

/// The line that five fields make: dots between the octets, a slash before the prefix length.
pub open spec fn cidr_text(f: Seq<Seq<char>>) -> Seq<char>
    recommends
        f.len() == 5,
{
    f[0] + seq!['.'] + f[1] + seq!['.'] + f[2] + seq!['.'] + f[3] + seq!['/'] + f[4]
}

/// `text` is exactly the line that the fields `f` make.
pub open spec fn splits_into(text: Seq<char>, f: Seq<Seq<char>>) -> bool {
    is_cidr_fields(f) && text == cidr_text(f)
}

/// `text` has the shape `A.B.C.D/P`.
pub open spec fn is_cidr_text(text: Seq<char>) -> bool {
    exists|f: Seq<Seq<char>>| splits_into(text, f)
}

/// The five fields of a text of the shape `A.B.C.D/P`.
pub open spec fn cidr_fields(text: Seq<char>) -> Seq<Seq<char>>
    recommends
        is_cidr_text(text),
{
    choose|f: Seq<Seq<char>>| splits_into(text, f)
}

/// What five fields are worth: the octets are judged first, then the prefix length.
pub open spec fn fields_value(f: Seq<Seq<char>>) -> Result<(Seq<u8>, u32), ParseError>
    recommends
        is_cidr_fields(f),
{
    if decimal_value(f[0]) > 255 || decimal_value(f[1]) > 255 || decimal_value(f[2]) > 255
        || decimal_value(f[3]) > 255 {
        Err(ParseError::InvalidOctet)
    } else if decimal_value(f[4]) > 32 {
        Err(ParseError::InvalidPrefix)
    } else {
        Ok(
            (
                seq![
                    decimal_value(f[0]) as u8,
                    decimal_value(f[1]) as u8,
                    decimal_value(f[2]) as u8,
                    decimal_value(f[3]) as u8,
                ],
                decimal_value(f[4]) as u32,
            ),
        )
    }
}

/// What a text is worth: its octets and prefix length, or the reason why it has none.
pub open spec fn cidr_value(text: Seq<char>) -> Result<(Seq<u8>, u32), ParseError> {
    if is_cidr_text(text) {
        fields_value(cidr_fields(text))
    } else {
        Err(ParseError::MalformedInput)
    }
}

/// A parse result with the octets as a sequence.
pub open spec fn parsed_view(r: Result<([u8; 4], u32), ParseError>) -> Result<
    (Seq<u8>, u32),
    ParseError,
> {
    match r {
        Ok((octets, prefix)) => Ok((octets@, prefix)),
        Err(e) => Err(e),
    }
}

/// Two texts that each start with a run of digits and a character that is no
/// digit are equal only if the runs, the characters and the rests are.
proof fn lemma_leading_field(
    a: Seq<char>,
    c: char,
    x: Seq<char>,
    b: Seq<char>,
    d: char,
    y: Seq<char>,
)
    requires
        is_digits(a),
        is_digits(b),
        !is_digit(c),
        !is_digit(d),
        a + seq![c] + x == b + seq![d] + y,
    ensures
        a == b,
        c == d,
        x == y,
{
    let w = a + seq![c] + x;
    let v = b + seq![d] + y;
    assert(w.len() == a.len() + 1 + x.len());
    assert(v.len() == b.len() + 1 + y.len());
    if a.len() < b.len() {
        assert(w[a.len() as int] == c);
        assert(v[a.len() as int] == b[a.len() as int]);
    }
    if b.len() < a.len() {
        assert(v[b.len() as int] == d);
        assert(w[b.len() as int] == a[b.len() as int]);
    }
    assert(a.len() == b.len());
    assert(w[a.len() as int] == c);
    assert(v[a.len() as int] == d);
    assert forall|i: int| 0 <= i < a.len() implies a[i] == b[i] by {
        assert(w[i] == a[i]);
        assert(v[i] == b[i]);
    }
    assert(a =~= b);
    assert forall|i: int| 0 <= i < x.len() implies x[i] == y[i] by {
        assert(w[a.len() + 1 + i] == x[i]);
        assert(v[a.len() + 1 + i] == y[i]);
    }
    assert(x =~= y);
}

/// The line that five fields make, read as a first field, a dot and the rest, and so on.
proof fn lemma_cidr_text_nested(f: Seq<Seq<char>>)
    requires
        f.len() == 5,
    ensures
        cidr_text(f) == f[0] + seq!['.'] + (f[1] + seq!['.'] + (f[2] + seq!['.'] + (f[3]
            + seq!['/'] + f[4]))),
{
    let dot = seq!['.'];
    let slash = seq!['/'];
    let x3 = f[3] + slash + f[4];
    let x2 = f[2] + dot + x3;
    let x1 = f[1] + dot + x2;
    assert(f[0] + dot + f[1] + dot + f[2] + dot + x3 =~= f[0] + dot + f[1] + dot + f[2] + dot
        + f[3] + slash + f[4]);
    assert(f[0] + dot + f[1] + dot + x2 =~= f[0] + dot + f[1] + dot + f[2] + dot + x3);
    assert(f[0] + dot + x1 =~= f[0] + dot + f[1] + dot + x2);
}

/// A text splits into fields in at most one way.
pub proof fn lemma_split_unique(text: Seq<char>, f: Seq<Seq<char>>, g: Seq<Seq<char>>)
    requires
        splits_into(text, f),
        splits_into(text, g),
    ensures
        f == g,
{
    let f3 = f[3] + seq!['/'] + f[4];
    let g3 = g[3] + seq!['/'] + g[4];
    let f2 = f[2] + seq!['.'] + f3;
    let g2 = g[2] + seq!['.'] + g3;
    let f1 = f[1] + seq!['.'] + f2;
    let g1 = g[1] + seq!['.'] + g2;
    lemma_cidr_text_nested(f);
    lemma_cidr_text_nested(g);
    lemma_leading_field(f[0], '.', f1, g[0], '.', g1);
    lemma_leading_field(f[1], '.', f2, g[1], '.', g2);
    lemma_leading_field(f[2], '.', f3, g[2], '.', g3);
    lemma_leading_field(f[3], '/', f[4], g[3], '/', g[4]);
    assert(f =~= g);
}

/// The value of a text that splits into the fields `f` is the value of `f`.
pub proof fn lemma_cidr_value_of_fields(text: Seq<char>, f: Seq<Seq<char>>)
    requires
        splits_into(text, f),
    ensures
        is_cidr_text(text),
        cidr_fields(text) == f,
        cidr_value(text) == fields_value(f),
{
    lemma_split_unique(text, cidr_fields(text), f);
}

/// An address written in dotted decimal, with a prefix length behind a
/// slash, is worth the octets of that address and that prefix length; and
/// the octets make up the address again.
pub proof fn lemma_dotted_decimal_round_trip(address: u32, prefix: u32)
    requires
        prefix <= 32,
    ensures
        cidr_value(dotted_decimal_text(address) + seq!['/'] + decimal_text(prefix as nat)) == Ok::<
            (Seq<u8>, u32),
            ParseError,
        >((octets_of(address), prefix)),
        address_of(octets_of(address)) == address,
{
    let f = seq![
        decimal_text(octet_of(address, 0) as nat),
        decimal_text(octet_of(address, 1) as nat),
        decimal_text(octet_of(address, 2) as nat),
        decimal_text(octet_of(address, 3) as nat),
        decimal_text(prefix as nat),
    ];
    let line = dotted_decimal_text(address) + seq!['/'] + decimal_text(prefix as nat);
    lemma_decimal_round_trip(octet_of(address, 0) as nat);
    lemma_decimal_round_trip(octet_of(address, 1) as nat);
    lemma_decimal_round_trip(octet_of(address, 2) as nat);
    lemma_decimal_round_trip(octet_of(address, 3) as nat);
    lemma_decimal_round_trip(prefix as nat);
    lemma_decimal_text_len(octet_of(address, 0) as nat);
    lemma_decimal_text_len(octet_of(address, 1) as nat);
    lemma_decimal_text_len(octet_of(address, 2) as nat);
    lemma_decimal_text_len(octet_of(address, 3) as nat);
    lemma_decimal_text_len(prefix as nat);
    assert(line =~= cidr_text(f));
    lemma_cidr_value_of_fields(line, f);
    assert(octets_of(address) =~= seq![
        octet_of(address, 0),
        octet_of(address, 1),
        octet_of(address, 2),
        octet_of(address, 3),
    ]);
    lemma_octets_round_trip(address);
}

/// What `regex::Regex::captures` finds in `text` for the regular expression
/// `pattern`: nothing, or the text of each capture group in the order of the
/// opening brackets, the whole match first; a group that took no part has no
/// text.
pub uninterp spec fn captured_groups(pattern: Seq<char>, text: Seq<char>) -> Option<
    Seq<Option<Seq<char>>>,
>;

/// Compiles `pattern` with `regex::Regex::new` and searches `text` with
/// `regex::Regex::captures`. The contract claims one thing: what comes back
/// depends on the two texts alone. It is `None` where the pattern is refused
/// or nothing matches. Which texts a pattern matches is not stated.
#[verifier::external_body]
fn find_groups(pattern: &str, text: &str) -> (found: Option<Vec<Option<String>>>)
    ensures
        found.deep_view() == captured_groups(pattern@, text@),
{
    let re = regex::Regex::new(pattern).ok()?;
    let caps = re.captures(text)?;
    Some(caps.iter().map(|group| group.map(|m| m.as_str().to_string())).collect())
}

/// The five fields among the groups of a search: groups 1 to 5, where there
/// are six groups and those five took part.
pub open spec fn found_fields(found: Option<Seq<Option<Seq<char>>>>) -> Option<Seq<Seq<char>>> {
    match found {
        Some(groups) => if groups.len() == 6 && groups[1] is Some && groups[2] is Some
            && groups[3] is Some && groups[4] is Some && groups[5] is Some {
            Some(seq![groups[1]->0, groups[2]->0, groups[3]->0, groups[4]->0, groups[5]->0])
        } else {
            None
        },
        None => None,
    }
}

/// What a text is worth, given what a search found in it: the text's own
/// value where the groups found are its five fields, and `MalformedInput`
/// where they are not.
pub open spec fn cidr_of_groups(text: Seq<char>, found: Option<Seq<Option<Seq<char>>>>) -> Result<
    (Seq<u8>, u32),
    ParseError,
> {
    match found_fields(found) {
        Some(f) => if splits_into(text, f) {
            cidr_value(text)
        } else {
            Err(ParseError::MalformedInput)
        },
        None => Err(ParseError::MalformedInput),
    }
}

/// The number that `token` writes, if it is a run of one to `max_len` digits.
fn field_value(token: &str, max_len: usize) -> (r: Option<u32>)
    requires
        max_len <= 3,
    ensures
        r is Some <==> is_field(token@, max_len as nat),
        r matches Some(v) ==> v == decimal_value(token@),
{
    if !token.is_ascii() {
        return None;
    }
    let bytes = token.as_bytes();
    let n = bytes.len();
    proof {
        is_ascii_spec_bytes(token);
    }
    if n == 0 || n > max_len {
        return None;
    }
    let mut v: u32 = 0;
    let mut i: usize = 0;
    while i < n
        invariant
            i <= n <= 3,
            n == token@.len(),
            is_ascii(token),
            bytes@ == token.spec_bytes(),
            is_digits(token@.take(i as int)),
            v == decimal_value(token@.take(i as int)),
            i == 0 ==> v == 0,
            i == 1 ==> v <= 9,
            i == 2 ==> v <= 99,
        decreases n - i,
    {
        proof {
            is_ascii_spec_bytes(token);
        }
        let b = bytes[i];
        if b < 48 || b > 57 {
            assert(!is_digit(token@[i as int]));
            return None;
        }
        proof {
            let next = token@.take(i + 1);
            assert(next.drop_last() =~= token@.take(i as int));
            assert(next.last() == token@[i as int]);
            assert(digit_value(token@[i as int]) == b - 48);
        }
        v = v * 10 + (b - 48) as u32;
        i += 1;
    }
    assert(token@.take(n as int) =~= token@);
    Some(v)
}

/// The text of group `i`, if there is such a group and it took part.
fn group_text(groups: &Vec<Option<String>>, i: usize) -> (r: Option<&str>)
    ensures
        r is Some <==> i < groups.len() && groups.deep_view()[i as int] is Some,
        r matches Some(s) ==> groups.deep_view()[i as int] == Some(s@),
{
    if i >= groups.len() {
        return None;
    }
    match &groups[i] {
        Some(s) => Some(s.as_str()),
        None => None,
    }
}

/// Reads the address and the prefix length of `input` from what a search for
/// `CIDR_PATTERN` found in it. The groups are held against the text first:
/// they must be five fields that make up the whole of `input`.
pub fn cidr_from_captures(input: &str, found: &Option<Vec<Option<String>>>) -> (r: Result<
    ([u8; 4], u32),
    ParseError,
>)
    ensures
        parsed_view(r) == cidr_of_groups(input@, found.deep_view()),
{
    let groups = match found {
        Some(groups) => groups,
        None => {
            return Err(ParseError::MalformedInput);
        },
    };
    if groups.len() != 6 {
        return Err(ParseError::MalformedInput);
    }
    let (t0, t1, t2, t3, t4) = match (
        group_text(groups, 1),
        group_text(groups, 2),
        group_text(groups, 3),
        group_text(groups, 4),
        group_text(groups, 5),
    ) {
        (Some(t0), Some(t1), Some(t2), Some(t3), Some(t4)) => (t0, t1, t2, t3, t4),
        _ => {
            return Err(ParseError::MalformedInput);
        },
    };
    let ghost f = seq![t0@, t1@, t2@, t3@, t4@];
    assert(found_fields(found.deep_view()) == Some(f)) by {
        assert(found_fields(found.deep_view())->0 =~= f);
    }
    let (v0, v1, v2, v3, v4) = match (
        field_value(t0, 3),
        field_value(t1, 3),
        field_value(t2, 3),
        field_value(t3, 3),
        field_value(t4, 2),
    ) {
        (Some(v0), Some(v1), Some(v2), Some(v3), Some(v4)) => (v0, v1, v2, v3, v4),
        _ => {
            return Err(ParseError::MalformedInput);
        },
    };
    let mut line = String::from_str(t0);
    line.append(".");
    line.append(t1);
    line.append(".");
    line.append(t2);
    line.append(".");
    line.append(t3);
    line.append("/");
    line.append(t4);
    proof {
        reveal_strlit(".");
        reveal_strlit("/");
        assert("."@ =~= seq!['.']);
        assert("/"@ =~= seq!['/']);
        assert(line@ =~= cidr_text(f));
    }
    let whole = String::from_str(input);
    if line != whole {
        return Err(ParseError::MalformedInput);
    }
    proof {
        lemma_cidr_value_of_fields(input@, f);
    }
    if v0 > 255 || v1 > 255 || v2 > 255 || v3 > 255 {
        return Err(ParseError::InvalidOctet);
    }
    if v4 > 32 {
        return Err(ParseError::InvalidPrefix);
    }
    let octets = [v0 as u8, v1 as u8, v2 as u8, v3 as u8];
    assert(octets@ =~= seq![v0 as u8, v1 as u8, v2 as u8, v3 as u8]);
    Ok((octets, v4))
}

/// Reads four octets and a prefix length from a line `A.B.C.D/P`.
///
/// The line is searched with `CIDR_PATTERN`, and the groups found are read by
/// `cidr_from_captures`. Whether a line of the right shape is accepted rests
/// on that search; every other answer is the value of the line itself.
pub fn parse_user_cidr_input(user_cidr_input: &str) -> (r: Result<([u8; 4], u32), ParseError>)
    ensures
        parsed_view(r) == cidr_of_groups(
            user_cidr_input@,
            captured_groups(CIDR_PATTERN@, user_cidr_input@),
        ),
        parsed_view(r) == cidr_value(user_cidr_input@) || r == Err::<([u8; 4], u32), ParseError>(
            ParseError::MalformedInput,
        ),
{
    let found = find_groups(CIDR_PATTERN, user_cidr_input);
    cidr_from_captures(user_cidr_input, &found)
}

} // verus!
