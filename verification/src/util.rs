//! Identifiers and collection size bounds.

use vstd::prelude::*;
use vstd::string::*;

verus! {

/// The longest identifier, in characters.
pub const IDENT_MAX_LEN: usize = 32;

/// The longest name of a field or a variant, in characters.
pub const MEMBER_MAX_LEN: usize = 100;

/// Why a string is no identifier.
#[derive(Copy, Clone, PartialEq, Eq, Hash, Debug)]
pub enum InvalidIdent {
    /// The name starts with this character, with which no name of its kind
    /// may start.
    NonAlphabetic(char),
    /// The name holds this character, which is neither alphanumeric nor `_`.
    InvalidChar(char),
    /// The name holds a character outside ASCII.
    NonAsciiChar,
    /// The name has this many characters: none, or more than its kind allows.
    Confinement(usize),
}

/// The kinds of names, which differ in how a name may start and how long it
/// may be.
#[derive(Copy, Clone, PartialEq, Eq, Structural, Hash, Debug)]
pub enum NameRule {
    /// An identifier: it starts with a letter and has up to `IDENT_MAX_LEN`
    /// characters.
    Ident,
    /// The name of a field or a variant: it starts with a small letter or
    /// `_` and has up to `MEMBER_MAX_LEN` characters.
    Member,
}

/// An ASCII letter.
pub open spec fn is_alphabetic(c: char) -> bool {
    ('a' <= c && c <= 'z') || ('A' <= c && c <= 'Z')
}

/// A character that may stand in a name: an ASCII letter or digit, or `_`.
pub open spec fn is_ident_char(c: char) -> bool {
    is_alphabetic(c) || ('0' <= c && c <= '9') || c == '_'
}

/// A character with which a name of the kind `rule` may start.
pub open spec fn may_start(rule: NameRule, c: char) -> bool {
    match rule {
        NameRule::Ident => is_alphabetic(c),
        NameRule::Member => ('a' <= c && c <= 'z') || c == '_',
    }
}

/// The most characters that a name of the kind `rule` may have.
pub open spec fn max_len(rule: NameRule) -> nat {
    match rule {
        NameRule::Ident => IDENT_MAX_LEN as nat,
        NameRule::Member => MEMBER_MAX_LEN as nat,
    }
}

/// All of `name` up to `end` may stand in a name.
pub open spec fn ident_chars_until(name: Seq<char>, end: int) -> bool {
    forall|i: int| 0 <= i < end ==> is_ident_char(#[trigger] name[i])
}

/// `name` is a name of the kind `rule`: it has between 1 and `max_len(rule)`
/// characters, starts as its kind asks, and holds letters, digits and `_`
/// only.
pub open spec fn is_name(rule: NameRule, name: Seq<char>) -> bool {
    &&& 1 <= name.len() <= max_len(rule)
    &&& may_start(rule, name[0])
    &&& ident_chars_until(name, name.len() as int)
}

/// `name` is an identifier: 1 to `IDENT_MAX_LEN` characters, the first a
/// letter, the others letters, digits or `_`.
pub open spec fn is_ident(name: Seq<char>) -> bool {
    is_name(NameRule::Ident, name)
}

/// What the check of `name` against `rule` answers.
pub open spec fn check_name(rule: NameRule, name: Seq<char>) -> Result<(), InvalidIdent> {
    if !vstd::utf8::is_ascii_chars(name) {
        Err(InvalidIdent::NonAsciiChar)
    } else if name.len() == 0 || name.len() > max_len(rule) {
        Err(InvalidIdent::Confinement(name.len() as usize))
    } else if !may_start(rule, name[0]) {
        Err(InvalidIdent::NonAlphabetic(name[0]))
    } else if !ident_chars_until(name, name.len() as int) {
        let at = choose|i: int|
            0 <= i < name.len() && !is_ident_char(#[trigger] name[i]) && ident_chars_until(name, i);
        Err(InvalidIdent::InvalidChar(name[at]))
    } else {
        Ok(())
    }
}

/// What `Ident::try_from` answers for `name`.
pub open spec fn check_ident(name: Seq<char>) -> Result<(), InvalidIdent> {
    check_name(NameRule::Ident, name)
}

/// The first `upto` characters of `name` may stand in a name, told one
/// character after the other.
pub open spec fn chars_below(name: Seq<char>, upto: nat) -> bool
    decreases upto,
{
    upto == 0 || (is_ident_char(name[upto - 1]) && chars_below(name, (upto - 1) as nat))
}

/// What is told one character after the other holds of all of them.
pub proof fn lemma_chars_below(name: Seq<char>, upto: nat)
    requires
        chars_below(name, upto),
    ensures
        ident_chars_until(name, upto as int),
    decreases upto,
{
    if upto > 0 {
        lemma_chars_below(name, (upto - 1) as nat);
    }
}

/// The canonical bytes of a name: its length in one byte, then its characters.
pub open spec fn encode_name(name: Seq<char>) -> Seq<u8> {
    seq![name.len() as u8] + Seq::new(name.len(), |i: int| name[i] as u8)
}

/// A name holds ASCII only.
pub proof fn lemma_name_ascii(rule: NameRule, name: Seq<char>)
    requires
        is_name(rule, name),
    ensures
        vstd::utf8::is_ascii_chars(name),
        name.len() <= 100,
{
    assert forall|i: int| 0 <= i < name.len() implies '\0' <= #[trigger] name[i] <= '\u{7f}' by {
        assert(is_ident_char(name[i]));
    }
}

/// A name passes the check of its kind, and nothing else does.
pub proof fn lemma_check_name(rule: NameRule, name: Seq<char>)
    ensures
        check_name(rule, name) is Ok <==> is_name(rule, name),
{
    if is_name(rule, name) {
        lemma_name_ascii(rule, name);
    }
}

fn is_alphabetic_byte(b: u8) -> (res: bool)
    ensures
        res == is_alphabetic(b as char),
{
    (b >= 0x61 && b <= 0x7a) || (b >= 0x41 && b <= 0x5a)
}

fn is_ident_byte(b: u8) -> (res: bool)
    ensures
        res == is_ident_char(b as char),
{
    is_alphabetic_byte(b) || (b >= 0x30 && b <= 0x39) || b == 0x5f
}

fn may_start_byte(rule: NameRule, b: u8) -> (res: bool)
    ensures
        res == may_start(rule, b as char),
{
    match rule {
        NameRule::Ident => is_alphabetic_byte(b),
        NameRule::Member => (b >= 0x61 && b <= 0x7a) || b == 0x5f,
    }
}

/// Checks `value` against `rule`. The checks come in this order: that all of
/// it is ASCII, that its length is in bounds, that it starts as its kind
/// asks, that it holds letters, digits and `_` only; the error tells the
/// first that fails, with the first character that offends.
pub fn check(rule: NameRule, value: &str) -> (res: Result<(), InvalidIdent>)
    ensures
        res == check_name(rule, value@),
        res is Ok <==> is_name(rule, value@),
{
    broadcast use vstd::string::is_ascii_spec_bytes;

    proof {
        lemma_check_name(rule, value@);
    }
    if !value.is_ascii() {
        return Err(InvalidIdent::NonAsciiChar);
    }
    let bytes = value.as_bytes();
    let n = bytes.len();
    assert(n == value@.len());
    let limit = match rule {
        NameRule::Ident => IDENT_MAX_LEN,
        NameRule::Member => MEMBER_MAX_LEN,
    };
    if n == 0 || n > limit {
        return Err(InvalidIdent::Confinement(n));
    }
    assert(forall|i: int| 0 <= i < n ==> bytes@[i] == value@[i] as u8);
    assert(forall|i: int| 0 <= i < n ==> (#[trigger] value@[i]) as u8 as char == value@[i]);
    let first = bytes[0];
    if !may_start_byte(rule, first) {
        return Err(InvalidIdent::NonAlphabetic(first as char));
    }
    assert(first as char == value@[0]);
    let mut i: usize = 0;
    while i < n
        invariant
            0 <= i <= n,
            1 <= n <= max_len(rule),
            vstd::utf8::is_ascii_chars(value@),
            may_start(rule, value@[0]),
            n == value@.len(),
            n == bytes@.len(),
            forall|j: int| 0 <= j < n ==> bytes@[j] == value@[j] as u8,
            forall|j: int| 0 <= j < n ==> (#[trigger] value@[j]) as u8 as char == value@[j],
            ident_chars_until(value@, i as int),
        decreases n - i,
    {
        let b = bytes[i];
        if !is_ident_byte(b) {
            proof {
                assert(b as char == value@[i as int]);
                assert(!is_ident_char(value@[i as int]));
                assert(!ident_chars_until(value@, n as int));
                let at = choose|k: int|
                    0 <= k < value@.len() && !is_ident_char(#[trigger] value@[k])
                        && ident_chars_until(value@, k);
                assert(at == i) by {
                    if at < i {
                        assert(is_ident_char(value@[at]));
                    }
                    if i < at {
                        assert(is_ident_char(value@[i as int]));
                    }
                }
            }
            return Err(InvalidIdent::InvalidChar(b as char));
        }
        i = i + 1;
    }
    Ok(())
}

/// Appends to `out` the canonical bytes of the name that `text` spells.
fn encode_text(rule: Ghost<NameRule>, text: &str, out: &mut Vec<u8>)
    requires
        is_name(rule@, text@),
    ensures
        final(out)@ == old(out)@ + encode_name(text@),
{
    broadcast use vstd::string::is_ascii_spec_bytes;

    proof {
        lemma_name_ascii(rule@, text@);
    }
    let bytes = text.as_bytes();
    assert(vstd::string::is_ascii(text));
    assert(bytes@ =~= Seq::new(text@.len(), |i: int| text@[i] as u8));
    out.push(bytes.len() as u8);
    crate::hash::append_bytes(out, bytes);
    assert(out@ =~= old(out)@ + encode_name(text@));
}

/// `String::from_utf8`: the text that `bytes` encode in UTF-8, where they
/// encode one.
#[verifier::external_body]
pub(crate) fn string_from_utf8(bytes: Vec<u8>) -> (res: Option<String>)
    ensures
        res matches Some(text) ==> vstd::utf8::valid_utf8(bytes@) && text@ == vstd::utf8::decode_utf8(bytes@),
        res is None ==> !vstd::utf8::valid_utf8(bytes@),
{
    String::from_utf8(bytes).ok()
}

/// The character of the hexadecimal digit `d`, capital letters for the
/// digits above 9.
pub open spec fn upper_digit(d: nat) -> char {
    if d == 0 {
        '0'
    } else if d == 1 {
        '1'
    } else if d == 2 {
        '2'
    } else if d == 3 {
        '3'
    } else if d == 4 {
        '4'
    } else if d == 5 {
        '5'
    } else if d == 6 {
        '6'
    } else if d == 7 {
        '7'
    } else if d == 8 {
        '8'
    } else if d == 9 {
        '9'
    } else if d == 10 {
        'A'
    } else if d == 11 {
        'B'
    } else if d == 12 {
        'C'
    } else if d == 13 {
        'D'
    } else if d == 14 {
        'E'
    } else {
        'F'
    }
}

/// The text of one hexadecimal digit, in capital letters.
fn upper_digit_str(d: u8) -> (res: &'static str)
    requires
        d < 16,
    ensures
        res@ == seq![upper_digit(d as nat)],
{
    proof {
        reveal_strlit("0");
        reveal_strlit("1");
        reveal_strlit("2");
        reveal_strlit("3");
        reveal_strlit("4");
        reveal_strlit("5");
        reveal_strlit("6");
        reveal_strlit("7");
        reveal_strlit("8");
        reveal_strlit("9");
        reveal_strlit("A");
        reveal_strlit("B");
        reveal_strlit("C");
        reveal_strlit("D");
        reveal_strlit("E");
        reveal_strlit("F");
    }
    let res = if d == 0 {
        "0"
    } else if d == 1 {
        "1"
    } else if d == 2 {
        "2"
    } else if d == 3 {
        "3"
    } else if d == 4 {
        "4"
    } else if d == 5 {
        "5"
    } else if d == 6 {
        "6"
    } else if d == 7 {
        "7"
    } else if d == 8 {
        "8"
    } else if d == 9 {
        "9"
    } else if d == 10 {
        "A"
    } else if d == 11 {
        "B"
    } else if d == 12 {
        "C"
    } else if d == 13 {
        "D"
    } else if d == 14 {
        "E"
    } else {
        "F"
    };
    assert(res@ =~= seq![upper_digit(d as nat)]);
    res
}

/// The first `count` hexadecimal digits of `bytes`, two for each byte, the
/// high one first, in capital letters.
pub open spec fn upper_hex(bytes: Seq<u8>, count: nat) -> Seq<char> {
    Seq::new(
        count,
        |k: int|
            if k % 2 == 0 {
                upper_digit((bytes[k / 2] / 16) as nat)
            } else {
                upper_digit((bytes[k / 2] % 16) as nat)
            },
    )
}

/// The name that stands for an identity where no name was given: `Auto`
/// and the first eight hexadecimal digits of the identity, in capital
/// letters.
pub open spec fn auto_name(id: Seq<u8>) -> Seq<char> {
    "Auto"@ + upper_hex(id, 8)
}

/// The name that stands for an identity is an identifier.
pub proof fn lemma_auto_name(id: Seq<u8>)
    ensures
        is_ident(auto_name(id)),
        auto_name(id).len() == 12,
{
    reveal_strlit("Auto");
    let name = auto_name(id);
    assert(name.len() == 12);
    assert(name[0] == 'A');
    assert forall|i: int| 0 <= i < name.len() implies is_ident_char(#[trigger] name[i]) by {
        if i < 4 {
            assert(name[i] == "Auto"@[i]);
        } else {
            assert(name[i] == upper_hex(id, 8)[i - 4]);
        }
    }
}

/// An identifier: the name of a library or of a type.
#[derive(PartialEq, Eq, Hash, Debug)]
pub struct Ident {
    name: String,
}

/// The name of a type within its library.
pub type TypeName = Ident;

/// The name of a library.
pub type LibName = Ident;

/// The name of a field of a structure, or of a variant of an enumeration
/// or a union.
#[derive(PartialEq, Eq, Hash, Debug)]
pub struct MemberName {
    name: String,
}

/// The name of a field of a structure.
pub type FieldName = MemberName;

/// The name of a variant of an enumeration or a union.
pub type VariantName = MemberName;

impl View for Ident {
    type V = Seq<char>;

    closed spec fn view(&self) -> Seq<char> {
        self.name@
    }
}

impl View for MemberName {
    type V = Seq<char>;

    closed spec fn view(&self) -> Seq<char> {
        self.name@
    }
}

impl Ident {
    #[verifier::type_invariant]
    spec fn inv(self) -> bool {
        is_ident(self.name@)
    }

    /// Checks `value` and makes an identifier of it.
    pub fn try_from(value: &str) -> (res: Result<Ident, InvalidIdent>)
        ensures
            match res {
                Ok(ident) => check_ident(value@) is Ok && ident@ == value@ && is_ident(value@),
                Err(e) => check_ident(value@) == Err::<(), InvalidIdent>(e),
            },
    {
        match check(NameRule::Ident, value) {
            Ok(()) => Ok(Ident { name: value.to_owned() }),
            Err(e) => Err(e),
        }
    }

    /// The identifier that stands for the identity `id` where no name was
    /// given: `Auto` and the first eight hexadecimal digits of the identity.
    pub fn auto(id: &[u8; 32]) -> (res: Ident)
        ensures
            res@ == auto_name(id@),
    {
        let mut name = String::from_str("Auto");
        let mut i: usize = 0;
        assert(name@ =~= "Auto"@ + upper_hex(id@, 0));
        while i < 4
            invariant
                0 <= i <= 4,
                name@ == "Auto"@ + upper_hex(id@, (2 * i) as nat),
            decreases 4 - i,
        {
            let byte = id[i];
            name.append(upper_digit_str(byte / 16));
            name.append(upper_digit_str(byte % 16));
            assert(name@ =~= "Auto"@ + upper_hex(id@, (2 * (i + 1)) as nat));
            i = i + 1;
        }
        proof {
            lemma_auto_name(id@);
        }
        Ident { name }
    }

    /// The identifier that `name` spells.
    pub fn from_static(name: &'static str) -> (res: Ident)
        requires
            is_ident(name@),
        ensures
            res@ == name@,
    {
        Ident { name: name.to_owned() }
    }

    /// The identifier as text.
    pub fn as_str(&self) -> (res: &str)
        ensures
            res@ == self@,
            is_ident(self@),
    {
        proof {
            use_type_invariant(self);
        }
        self.name.as_str()
    }

    /// Appends the canonical bytes of the name to `out`.
    pub fn encode_into(&self, out: &mut Vec<u8>)
        ensures
            final(out)@ == old(out)@ + encode_name(self@),
    {
        proof {
            use_type_invariant(self);
        }
        encode_text(Ghost(NameRule::Ident), self.name.as_str(), out);
    }

    /// Whether both spell the same name.
    pub fn same(&self, other: &Ident) -> (res: bool)
        ensures
            res == (self@ == other@),
    {
        self.name == other.name
    }
}

impl Clone for Ident {
    fn clone(&self) -> (res: Ident)
        ensures
            res@ == self@,
    {
        proof {
            use_type_invariant(self);
        }
        Ident { name: self.name.clone() }
    }
}

impl MemberName {
    #[verifier::type_invariant]
    spec fn inv(self) -> bool {
        is_name(NameRule::Member, self.name@)
    }

    /// Checks `value` and makes the name of a field or a variant of it.
    pub fn try_from(value: &str) -> (res: Result<MemberName, InvalidIdent>)
        ensures
            match res {
                Ok(name) => {
                    &&& check_name(NameRule::Member, value@) is Ok
                    &&& name@ == value@
                    &&& is_name(NameRule::Member, value@)
                },
                Err(e) => check_name(NameRule::Member, value@) == Err::<(), InvalidIdent>(e),
            },
    {
        match check(NameRule::Member, value) {
            Ok(()) => Ok(MemberName { name: value.to_owned() }),
            Err(e) => Err(e),
        }
    }

    /// The name that `name` spells.
    pub fn from_static(name: &'static str) -> (res: MemberName)
        requires
            is_name(NameRule::Member, name@),
        ensures
            res@ == name@,
    {
        MemberName { name: name.to_owned() }
    }

    /// The name as text.
    pub fn as_str(&self) -> (res: &str)
        ensures
            res@ == self@,
            is_name(NameRule::Member, self@),
    {
        proof {
            use_type_invariant(self);
        }
        self.name.as_str()
    }

    /// Appends the canonical bytes of the name to `out`.
    pub fn encode_into(&self, out: &mut Vec<u8>)
        ensures
            final(out)@ == old(out)@ + encode_name(self@),
            is_name(NameRule::Member, self@),
    {
        proof {
            use_type_invariant(self);
        }
        encode_text(Ghost(NameRule::Member), self.name.as_str(), out);
    }

    /// Whether the name is spelled `text`.
    pub fn spells(&self, text: &str) -> (res: bool)
        ensures
            res == (self@ == text@),
    {
        let other = text.to_owned();
        self.name == other
    }

    /// Whether both spell the same name.
    pub fn same(&self, other: &MemberName) -> (res: bool)
        ensures
            res == (self@ == other@),
    {
        self.name == other.name
    }
}

impl Clone for MemberName {
    fn clone(&self) -> (res: MemberName)
        ensures
            res@ == self@,
    {
        proof {
            use_type_invariant(self);
        }
        MemberName { name: self.name.clone() }
    }
}

/// Bounds on the number of elements of a collection type.
#[derive(Copy, Clone, PartialEq, Eq, Structural, Hash, Debug)]
pub struct Sizing {
    pub min: u16,
    pub max: u16,
}

impl Sizing {
    /// Up to 255 elements.
    pub fn u8() -> (res: Sizing)
        ensures
            res == (Sizing { min: 0, max: 255 }),
    {
        Sizing { min: 0, max: 255 }
    }

    /// Up to 65535 elements.
    pub fn u16() -> (res: Sizing)
        ensures
            res == (Sizing { min: 0, max: 65535 }),
    {
        Sizing { min: 0, max: 65535 }
    }

    /// From 1 to 255 elements.
    pub fn u8_nonempty() -> (res: Sizing)
        ensures
            res == (Sizing { min: 1, max: 255 }),
    {
        Sizing { min: 1, max: 255 }
    }

    /// Sizing with explicit bounds.
    pub fn new(min: u16, max: u16) -> (res: Sizing)
        ensures
            res.min == min,
            res.max == max,
    {
        Sizing { min, max }
    }
}

} // verus!
