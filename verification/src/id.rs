//! Identities of types, libraries and type systems.

use vstd::prelude::*;
use vstd::string::*;
use crate::hash::{compute_tagged_hash, tagged_hash};

verus! {

/// The tag under which a single type is hashed.
pub open spec fn sem_id_tag() -> Seq<u8> {
    "urn:ubideco:strict-types:typ:v01".spec_bytes()
}

/// The tag under which the name of a type is hashed for a recursive
/// reference.
pub open spec fn link_tag() -> Seq<u8> {
    "urn:ubideco:strict-types:ref:v01".spec_bytes()
}

/// The tag under which a library is hashed.
pub open spec fn lib_id_tag() -> Seq<u8> {
    "urn:ubideco:strict-types:lib:v01".spec_bytes()
}

/// The tag under which a type system is hashed.
pub open spec fn typesys_id_tag() -> Seq<u8> {
    "urn:ubideco:strict-types:sys:v02".spec_bytes()
}

/// `a` comes before `b` in the order of byte strings: at the first place
/// where they differ, `a` holds the smaller byte.
pub open spec fn lex_lt(a: Seq<u8>, b: Seq<u8>) -> bool {
    exists|i: int|
        0 <= i < a.len() && i < b.len() && #[trigger] a[i] < b[i] && a.take(i) == b.take(i)
}

/// `ids` holds identities of 32 bytes in strictly ascending order.
pub open spec fn sorted_ids(ids: Seq<Seq<u8>>) -> bool {
    &&& forall|i: int| 0 <= i < ids.len() ==> (#[trigger] ids[i]).len() == 32
    &&& forall|i: int, j: int| 0 <= i < j < ids.len() ==> lex_lt(#[trigger] ids[i], #[trigger] ids[j])
}

/// Nothing comes before itself.
pub proof fn lemma_lex_irreflexive(a: Seq<u8>)
    ensures
        !lex_lt(a, a),
{
}

/// Of two different byte strings of one length, one comes before the other.
pub proof fn lemma_lex_total(a: Seq<u8>, b: Seq<u8>)
    requires
        a.len() == b.len(),
        a != b,
    ensures
        lex_lt(a, b) || lex_lt(b, a),
{
    assert(a.take(0) =~= b.take(0));
    lemma_first_difference(a, b, 0);
}

/// Two byte strings of one length that agree up to `from` and differ are
/// ordered one way or the other.
proof fn lemma_first_difference(a: Seq<u8>, b: Seq<u8>, from: int)
    requires
        a.len() == b.len(),
        a != b,
        0 <= from <= a.len(),
        a.take(from) == b.take(from),
    ensures
        lex_lt(a, b) || lex_lt(b, a),
    decreases a.len() - from,
{
    if from == a.len() {
        assert(a.take(from) =~= a);
        assert(b.take(from) =~= b);
    } else if a[from] < b[from] {
    } else if b[from] < a[from] {
    } else {
        assert(a.take(from + 1) =~= a.take(from).push(a[from]));
        assert(b.take(from + 1) =~= b.take(from).push(b[from]));
        lemma_first_difference(a, b, from + 1);
    }
}

/// The order of byte strings is transitive.
pub proof fn lemma_lex_transitive(a: Seq<u8>, b: Seq<u8>, c: Seq<u8>)
    requires
        lex_lt(a, b),
        lex_lt(b, c),
    ensures
        lex_lt(a, c),
{
    let i = choose|i: int|
        0 <= i < a.len() && i < b.len() && #[trigger] a[i] < b[i] && a.take(i) == b.take(i);
    let j = choose|j: int|
        0 <= j < b.len() && j < c.len() && #[trigger] b[j] < c[j] && b.take(j) == c.take(j);
    let k = if i <= j { i } else { j };
    assert(a.take(k) =~= a.take(i).take(k));
    assert(b.take(k) =~= b.take(i).take(k));
    assert(b.take(k) =~= b.take(j).take(k));
    assert(c.take(k) =~= c.take(j).take(k));
    if i < j {
        assert(b.take(j)[i] == c.take(j)[i]);
    } else if j < i {
        assert(a.take(i)[j] == b.take(i)[j]);
    }
    assert(a[k] < c[k]);
}

/// No two byte strings come each before the other.
pub proof fn lemma_lex_asymmetric(a: Seq<u8>, b: Seq<u8>)
    requires
        lex_lt(a, b),
    ensures
        !lex_lt(b, a),
{
    if lex_lt(b, a) {
        lemma_lex_transitive(a, b, a);
    }
}

/// An ascending row of identities is fixed by the set of its members: two
/// such rows with the same members are the same row.
pub proof fn lemma_sorted_unique(a: Seq<Seq<u8>>, b: Seq<Seq<u8>>)
    requires
        sorted_ids(a),
        sorted_ids(b),
        a.to_set() == b.to_set(),
    ensures
        a == b,
    decreases a.len(),
{
    if a.len() == 0 {
        if b.len() > 0 {
            assert(b.to_set().contains(b[0]));
            assert(a.to_set().contains(b[0]));
        }
        assert(a =~= b);
    } else if b.len() == 0 {
        assert(a.to_set().contains(a[0]));
        assert(b.to_set().contains(a[0]));
    } else {
        // the last of each is the greatest of the common set
        let x = a.last();
        let y = b.last();
        assert(a.to_set().contains(x));
        assert(b.to_set().contains(y));
        assert(b.to_set().contains(x));
        assert(a.to_set().contains(y));
        let ix = choose|i: int| 0 <= i < b.len() && b[i] == x;
        let iy = choose|i: int| 0 <= i < a.len() && a[i] == y;
        if x != y {
            assert(ix < b.len() - 1);
            assert(lex_lt(b[ix], b[b.len() - 1]));
            assert(iy < a.len() - 1);
            assert(lex_lt(a[iy], a[a.len() - 1]));
            lemma_lex_asymmetric(x, y);
        }
        let a0 = a.drop_last();
        let b0 = b.drop_last();
        assert forall|v: Seq<u8>| a0.to_set().contains(v) <==> b0.to_set().contains(v) by {
            if a0.to_set().contains(v) {
                let i = choose|i: int| 0 <= i < a0.len() && a0[i] == v;
                assert(a[i] == v);
                assert(lex_lt(a[i], a[a.len() - 1]));
                lemma_lex_irreflexive(x);
                assert(a.to_set().contains(v));
                assert(b.to_set().contains(v));
                let k = choose|k: int| 0 <= k < b.len() && b[k] == v;
                assert(k < b.len() - 1);
                assert(b0[k] == v);
            }
            if b0.to_set().contains(v) {
                let i = choose|i: int| 0 <= i < b0.len() && b0[i] == v;
                assert(b[i] == v);
                assert(lex_lt(b[i], b[b.len() - 1]));
                lemma_lex_irreflexive(y);
                assert(b.to_set().contains(v));
                assert(a.to_set().contains(v));
                let k = choose|k: int| 0 <= k < a.len() && a[k] == v;
                assert(k < a.len() - 1);
                assert(a0[k] == v);
            }
        }
        assert(a0.to_set() =~= b0.to_set());
        lemma_sorted_unique(a0, b0);
        assert(a =~= a0.push(x));
        assert(b =~= b0.push(y));
    }
}

/// Whether the two rows of 32 bytes are the same.
pub fn bytes32_eq(a: &[u8; 32], b: &[u8; 32]) -> (res: bool)
    ensures
        res == (a@ == b@),
{
    let mut i: usize = 0;
    while i < 32
        invariant
            0 <= i <= 32,
            a@.take(i as int) == b@.take(i as int),
        decreases 32 - i,
    {
        if a[i] != b[i] {
            return false;
        }
        assert(a@.take(i + 1) =~= a@.take(i as int).push(a@[i as int]));
        assert(b@.take(i + 1) =~= b@.take(i as int).push(b@[i as int]));
        i = i + 1;
    }
    assert(a@.take(32) =~= a@);
    assert(b@.take(32) =~= b@);
    true
}

/// Whether `a` comes before `b` in the order of byte strings.
pub fn bytes32_lt(a: &[u8; 32], b: &[u8; 32]) -> (res: bool)
    ensures
        res == lex_lt(a@, b@),
{
    let mut i: usize = 0;
    while i < 32
        invariant
            0 <= i <= 32,
            a@.take(i as int) == b@.take(i as int),
        decreases 32 - i,
    {
        if a[i] < b[i] {
            return true;
        }
        if a[i] > b[i] {
            proof {
                assert(b@.take(i as int) == a@.take(i as int));
                assert(lex_lt(b@, a@));
                lemma_lex_asymmetric(b@, a@);
            }
            return false;
        }
        assert(a@.take(i + 1) =~= a@.take(i as int).push(a@[i as int]));
        assert(b@.take(i + 1) =~= b@.take(i as int).push(b@[i as int]));
        i = i + 1;
    }
    proof {
        assert(a@.take(32) =~= a@);
        assert(b@.take(32) =~= b@);
        lemma_lex_irreflexive(a@);
    }
    false
}

/// The Base58 text in which `baid58` writes `payload` for an identity whose
/// kind is told by `hri`.
pub uninterp spec fn baid58_value(hri: Seq<char>, payload: Seq<u8>) -> Seq<char>;

/// The three words in which `baid58` writes the checksum of `payload` for
/// an identity whose kind is told by `hri`.
pub uninterp spec fn baid58_mnemonic(hri: Seq<char>, payload: Seq<u8>) -> Seq<char>;

/// `hri` can tell the kind of an identity: it is ASCII and no longer than 8
/// characters.
pub open spec fn is_hri(hri: Seq<char>) -> bool {
    hri.len() <= 8 && vstd::utf8::is_ascii_chars(hri)
}

/// `Baid58::with(hri, payload)` of `baid58`, written by its `Display` with
/// no flag set, which writes the payload in Base58 and nothing else.
#[verifier::external_body]
fn baid58_value_text(hri: &'static str, payload: [u8; 32]) -> (res: String)
    requires
        is_hri(hri@),
    ensures
        res@ == baid58_value(hri@, payload@),
{
    format!("{}", baid58::Baid58::<32>::with(hri, payload))
}

/// `Baid58::with(hri, payload).mnemonic()` of `baid58`: the checksum of the
/// payload, keyed by `hri`, as three words joined by `-`.
#[verifier::external_body]
fn baid58_mnemonic_text(hri: &'static str, payload: [u8; 32]) -> (res: String)
    requires
        is_hri(hri@),
    ensures
        res@ == baid58_mnemonic(hri@, payload@),
{
    baid58::Baid58::<32>::with(hri, payload).mnemonic()
}

/// What tells the kind of the identity of a type.
pub const SEM_ID_HRI: &'static str = "semid";

/// What tells the kind of the identity of a library.
pub const LIB_ID_HRI: &'static str = "stl";

/// What tells the kind of the identity of a type system.
pub const TYPESYS_ID_HRI: &'static str = "sts";

/// The short form of an identity: its payload in Base58, `#`, and the three
/// words of its checksum.
pub open spec fn short_text(hri: Seq<char>, payload: Seq<u8>) -> Seq<char> {
    baid58_value(hri, payload) + "#"@ + baid58_mnemonic(hri, payload)
}

/// The plain form of an identity: `urn:ubideco:`, its kind, `:`, and its
/// payload in Base58.
pub open spec fn plain_text(hri: Seq<char>, payload: Seq<u8>) -> Seq<char> {
    "urn:ubideco:"@ + hri + ":"@ + baid58_value(hri, payload)
}

/// The full form of an identity: `urn:ubideco:`, its kind, `:`, its payload
/// in Base58, `#`, and the three words of its checksum.
pub open spec fn urn_text(hri: Seq<char>, payload: Seq<u8>) -> Seq<char> {
    "urn:ubideco:"@ + hri + ":"@ + short_text(hri, payload)
}

/// The short form of the identity of the kind `hri` with the payload `payload`.
pub fn short_string(hri: &'static str, payload: [u8; 32]) -> (res: String)
    requires
        is_hri(hri@),
    ensures
        res@ == short_text(hri@, payload@),
{
    let mut out = baid58_value_text(hri, payload);
    out.append("#");
    let words = baid58_mnemonic_text(hri, payload);
    out.append(words.as_str());
    out
}

/// The plain form of the identity of the kind `hri` with the payload `payload`.
pub fn plain_string(hri: &'static str, payload: [u8; 32]) -> (res: String)
    requires
        is_hri(hri@),
    ensures
        res@ == plain_text(hri@, payload@),
{
    let mut out = String::from_str("urn:ubideco:");
    out.append(hri);
    out.append(":");
    let value = baid58_value_text(hri, payload);
    out.append(value.as_str());
    out
}

/// The full form of the identity of the kind `hri` with the payload `payload`.
pub fn urn_string(hri: &'static str, payload: [u8; 32]) -> (res: String)
    requires
        is_hri(hri@),
    ensures
        res@ == urn_text(hri@, payload@),
{
    let mut out = String::from_str("urn:ubideco:");
    out.append(hri);
    out.append(":");
    let short = short_string(hri, payload);
    out.append(short.as_str());
    assert(out@ =~= urn_text(hri@, payload@));
    out
}

/// The form of an identity that the three flags of a format ask for: the
/// alternate flag asks for the three words of the checksum alone; without
/// it the minus sign asks for the short form; without either the zero asks
/// for the plain form; with none of them the identity is written in full.
pub open spec fn flagged_text(
    hri: Seq<char>,
    payload: Seq<u8>,
    alternate: bool,
    sign_minus: bool,
    zero_pad: bool,
) -> Seq<char> {
    if alternate {
        baid58_mnemonic(hri, payload)
    } else if sign_minus {
        short_text(hri, payload)
    } else if zero_pad {
        plain_text(hri, payload)
    } else {
        urn_text(hri, payload)
    }
}

/// The identity of the kind `hri` with the payload `payload` in the form
/// that the three flags ask for.
pub fn flagged_string(
    hri: &'static str,
    payload: [u8; 32],
    alternate: bool,
    sign_minus: bool,
    zero_pad: bool,
) -> (res: String)
    requires
        is_hri(hri@),
    ensures
        res@ == flagged_text(hri@, payload@, alternate, sign_minus, zero_pad),
{
    if alternate {
        baid58_mnemonic_text(hri, payload)
    } else if sign_minus {
        short_string(hri, payload)
    } else if zero_pad {
        plain_string(hri, payload)
    } else {
        urn_string(hri, payload)
    }
}

/// The three kinds of identities are told by what an HRI can be.
pub proof fn lemma_hris()
    ensures
        is_hri(SEM_ID_HRI@),
        is_hri(LIB_ID_HRI@),
        is_hri(TYPESYS_ID_HRI@),
        SEM_ID_HRI@ =~= seq!['s', 'e', 'm', 'i', 'd'],
        LIB_ID_HRI@ =~= seq!['s', 't', 'l'],
        TYPESYS_ID_HRI@ =~= seq!['s', 't', 's'],
{
    reveal_strlit("semid");
    reveal_strlit("stl");
    reveal_strlit("sts");
}

/// The same 32 bytes never read the same as the identity of a type, of a
/// library and of a type system: the text of each tells its kind, in the
/// full form and in the plain form.
pub proof fn lemma_kinds_apart(payload: Seq<u8>)
    ensures
        urn_text(SEM_ID_HRI@, payload) != urn_text(TYPESYS_ID_HRI@, payload),
        urn_text(SEM_ID_HRI@, payload) != urn_text(LIB_ID_HRI@, payload),
        urn_text(LIB_ID_HRI@, payload) != urn_text(TYPESYS_ID_HRI@, payload),
        plain_text(SEM_ID_HRI@, payload) != plain_text(TYPESYS_ID_HRI@, payload),
        plain_text(SEM_ID_HRI@, payload) != plain_text(LIB_ID_HRI@, payload),
        plain_text(LIB_ID_HRI@, payload) != plain_text(TYPESYS_ID_HRI@, payload),
        sem_id_tag() != typesys_id_tag(),
        sem_id_tag() != lib_id_tag(),
        lib_id_tag() != typesys_id_tag(),
{
    lemma_hris();
    reveal_strlit("urn:ubideco:");
    reveal_strlit(":");
    let sem = urn_text(SEM_ID_HRI@, payload);
    let lib = urn_text(LIB_ID_HRI@, payload);
    let sys = urn_text(TYPESYS_ID_HRI@, payload);
    assert(sem[13] == 'e');
    assert(lib[13] == 't');
    assert(sys[13] == 't');
    assert(lib[14] == 'l');
    assert(sys[14] == 's');
    let sem = plain_text(SEM_ID_HRI@, payload);
    let lib = plain_text(LIB_ID_HRI@, payload);
    let sys = plain_text(TYPESYS_ID_HRI@, payload);
    assert(sem[13] == 'e');
    assert(lib[13] == 't');
    assert(sys[13] == 't');
    assert(lib[14] == 'l');
    assert(sys[14] == 's');
    lemma_tags_apart();
}

/// The tags under which types, libraries and type systems are hashed differ.
pub proof fn lemma_tags_apart()
    ensures
        sem_id_tag() != typesys_id_tag(),
        sem_id_tag() != lib_id_tag(),
        lib_id_tag() != typesys_id_tag(),
{
    broadcast use vstd::utf8::is_ascii_chars_encode_utf8;

    reveal_strlit("urn:ubideco:strict-types:typ:v01");
    reveal_strlit("urn:ubideco:strict-types:lib:v01");
    reveal_strlit("urn:ubideco:strict-types:sys:v02");
    let typ = "urn:ubideco:strict-types:typ:v01"@;
    let lib = "urn:ubideco:strict-types:lib:v01"@;
    let sys = "urn:ubideco:strict-types:sys:v02"@;
    assert(vstd::utf8::is_ascii_chars(typ));
    assert(vstd::utf8::is_ascii_chars(lib));
    assert(vstd::utf8::is_ascii_chars(sys));
    assert(typ[25] == 't' && lib[25] == 'l' && sys[25] == 's');
    assert(sem_id_tag()[25] == typ[25] as u8);
    assert(lib_id_tag()[25] == lib[25] as u8);
    assert(typesys_id_tag()[25] == sys[25] as u8);
}

/// The identity of one type: the hash of its structure, with the identities
/// of the types it refers to.
#[derive(Copy, Clone, PartialEq, Eq, PartialOrd, Ord, Hash, Debug)]
pub struct SemId {
    bytes: [u8; 32],
}

/// The identity of a library of types.
#[derive(Copy, Clone, PartialEq, Eq, PartialOrd, Ord, Hash, Debug)]
pub struct TypeLibId {
    bytes: [u8; 32],
}

/// The identity of a whole type system.
#[derive(Copy, Clone, PartialEq, Eq, PartialOrd, Ord, Hash, Debug)]
pub struct TypeSysId {
    bytes: [u8; 32],
}

impl View for SemId {
    type V = Seq<u8>;

    closed spec fn view(&self) -> Seq<u8> {
        self.bytes@
    }
}

impl View for TypeLibId {
    type V = Seq<u8>;

    closed spec fn view(&self) -> Seq<u8> {
        self.bytes@
    }
}

impl View for TypeSysId {
    type V = Seq<u8>;

    closed spec fn view(&self) -> Seq<u8> {
        self.bytes@
    }
}

impl SemId {
    /// An identity has 32 bytes.
    pub proof fn lemma_len(self)
        ensures
            self@.len() == 32,
    {
    }

    /// The payload of the identity in Base58, as it stands within type
    /// expressions.
    pub fn to_value_string(&self) -> (res: String)
        ensures
            res@ == baid58_value(SEM_ID_HRI@, self@),
    {
        proof {
            lemma_hris();
        }
        baid58_value_text(SEM_ID_HRI, self.bytes)
    }

    /// The identity made of `bytes`.
    pub fn from_byte_array(bytes: [u8; 32]) -> (res: SemId)
        ensures
            res@ == bytes@,
    {
        SemId { bytes }
    }

    /// The 32 bytes of the identity.
    pub fn to_byte_array(&self) -> (res: [u8; 32])
        ensures
            res@ == self@,
            self@.len() == 32,
    {
        self.bytes
    }

    /// The identity of the type whose canonical encoding is `content`.
    pub fn of_content(content: &[u8]) -> (res: SemId)
        ensures
            res@ == tagged_hash(sem_id_tag(), content@),
    {
        let tag = "urn:ubideco:strict-types:typ:v01";
        SemId { bytes: compute_tagged_hash(tag.as_bytes(), content) }
    }

    /// The identity of the name whose canonical encoding is `content`, as a
    /// recursive reference holds it.
    pub fn of_link(content: &[u8]) -> (res: SemId)
        ensures
            res@ == tagged_hash(link_tag(), content@),
    {
        let tag = "urn:ubideco:strict-types:ref:v01";
        SemId { bytes: compute_tagged_hash(tag.as_bytes(), content) }
    }

    /// The identity in full: `urn:ubideco:`, its kind, its payload in
    /// Base58 and, behind `#`, the three words of its checksum.
    pub fn to_string(&self) -> (res: String)
        ensures
            res@ == urn_text(SEM_ID_HRI@, self@),
    {
        proof {
            lemma_hris();
        }
        urn_string(SEM_ID_HRI, self.bytes)
    }

    /// The identity without its checksum: `urn:ubideco:`, its kind and its
    /// payload in Base58.
    pub fn to_plain_string(&self) -> (res: String)
        ensures
            res@ == plain_text(SEM_ID_HRI@, self@),
    {
        proof {
            lemma_hris();
        }
        plain_string(SEM_ID_HRI, self.bytes)
    }

    /// The identity in short: its payload in Base58 and, behind `#`, the
    /// three words of its checksum.
    pub fn to_short_string(&self) -> (res: String)
        ensures
            res@ == short_text(SEM_ID_HRI@, self@),
    {
        proof {
            lemma_hris();
        }
        short_string(SEM_ID_HRI, self.bytes)
    }

    /// The three words of the checksum of the identity.
    pub fn to_mnemonic(&self) -> (res: String)
        ensures
            res@ == baid58_mnemonic(SEM_ID_HRI@, self@),
    {
        proof {
            lemma_hris();
        }
        baid58_mnemonic_text(SEM_ID_HRI, self.bytes)
    }

    /// The identity as a format with these flags writes it: the three
    /// words of its checksum where the alternate flag is set; else its short
    /// form where the minus sign is set; else its plain form where the zero
    /// is set; else the identity in full.
    pub fn to_text(&self, alternate: bool, sign_minus: bool, zero_pad: bool) -> (res: String)
        ensures
            res@ == if alternate {
                baid58_mnemonic(SEM_ID_HRI@, self@)
            } else if sign_minus {
                short_text(SEM_ID_HRI@, self@)
            } else if zero_pad {
                plain_text(SEM_ID_HRI@, self@)
            } else {
                urn_text(SEM_ID_HRI@, self@)
            },
    {
        proof {
            lemma_hris();
        }
        flagged_string(SEM_ID_HRI, self.bytes, alternate, sign_minus, zero_pad)
    }

    /// Whether both are the same identity.
    pub fn same(&self, other: &SemId) -> (res: bool)
        ensures
            res == (self@ == other@),
    {
        bytes32_eq(&self.bytes, &other.bytes)
    }

    /// Whether this identity comes before `other`.
    pub fn before(&self, other: &SemId) -> (res: bool)
        ensures
            res == lex_lt(self@, other@),
    {
        bytes32_lt(&self.bytes, &other.bytes)
    }
}

impl TypeLibId {
    /// An identity has 32 bytes.
    pub proof fn lemma_len(self)
        ensures
            self@.len() == 32,
    {
    }

    /// The identity made of `bytes`.
    pub fn from_byte_array(bytes: [u8; 32]) -> (res: TypeLibId)
        ensures
            res@ == bytes@,
    {
        TypeLibId { bytes }
    }

    /// The 32 bytes of the identity.
    pub fn to_byte_array(&self) -> (res: [u8; 32])
        ensures
            res@ == self@,
            self@.len() == 32,
    {
        self.bytes
    }

    /// The identity of the library whose commitment is `content`.
    pub fn of_content(content: &[u8]) -> (res: TypeLibId)
        ensures
            res@ == tagged_hash(lib_id_tag(), content@),
    {
        let tag = "urn:ubideco:strict-types:lib:v01";
        TypeLibId { bytes: compute_tagged_hash(tag.as_bytes(), content) }
    }

    /// The identity in full: `urn:ubideco:`, its kind, its payload in
    /// Base58 and, behind `#`, the three words of its checksum.
    pub fn to_string(&self) -> (res: String)
        ensures
            res@ == urn_text(LIB_ID_HRI@, self@),
    {
        proof {
            lemma_hris();
        }
        urn_string(LIB_ID_HRI, self.bytes)
    }

    /// The identity without its checksum: `urn:ubideco:`, its kind and its
    /// payload in Base58.
    pub fn to_plain_string(&self) -> (res: String)
        ensures
            res@ == plain_text(LIB_ID_HRI@, self@),
    {
        proof {
            lemma_hris();
        }
        plain_string(LIB_ID_HRI, self.bytes)
    }

    /// The identity in short: its payload in Base58 and, behind `#`, the
    /// three words of its checksum.
    pub fn to_short_string(&self) -> (res: String)
        ensures
            res@ == short_text(LIB_ID_HRI@, self@),
    {
        proof {
            lemma_hris();
        }
        short_string(LIB_ID_HRI, self.bytes)
    }

    /// The three words of the checksum of the identity.
    pub fn to_mnemonic(&self) -> (res: String)
        ensures
            res@ == baid58_mnemonic(LIB_ID_HRI@, self@),
    {
        proof {
            lemma_hris();
        }
        baid58_mnemonic_text(LIB_ID_HRI, self.bytes)
    }

    /// The identity as a format with these flags writes it: the three
    /// words of its checksum where the alternate flag is set; else its short
    /// form where the minus sign is set; else its plain form where the zero
    /// is set; else the identity in full.
    pub fn to_text(&self, alternate: bool, sign_minus: bool, zero_pad: bool) -> (res: String)
        ensures
            res@ == if alternate {
                baid58_mnemonic(LIB_ID_HRI@, self@)
            } else if sign_minus {
                short_text(LIB_ID_HRI@, self@)
            } else if zero_pad {
                plain_text(LIB_ID_HRI@, self@)
            } else {
                urn_text(LIB_ID_HRI@, self@)
            },
    {
        proof {
            lemma_hris();
        }
        flagged_string(LIB_ID_HRI, self.bytes, alternate, sign_minus, zero_pad)
    }

    /// Whether both are the same identity.
    pub fn same(&self, other: &TypeLibId) -> (res: bool)
        ensures
            res == (self@ == other@),
    {
        bytes32_eq(&self.bytes, &other.bytes)
    }

    /// Whether this identity comes before `other`.
    pub fn before(&self, other: &TypeLibId) -> (res: bool)
        ensures
            res == lex_lt(self@, other@),
    {
        bytes32_lt(&self.bytes, &other.bytes)
    }
}

impl TypeSysId {
    /// An identity has 32 bytes.
    pub proof fn lemma_len(self)
        ensures
            self@.len() == 32,
    {
    }

    /// The identity made of `bytes`.
    pub fn from_byte_array(bytes: [u8; 32]) -> (res: TypeSysId)
        ensures
            res@ == bytes@,
    {
        TypeSysId { bytes }
    }

    /// The 32 bytes of the identity.
    pub fn to_byte_array(&self) -> (res: [u8; 32])
        ensures
            res@ == self@,
            self@.len() == 32,
    {
        self.bytes
    }

    /// The 32 bytes that the textual form encodes.
    pub fn to_baid58_payload(&self) -> (res: [u8; 32])
        ensures
            res@ == self@,
    {
        self.bytes
    }

    /// The identity of the type system whose commitment is `content`.
    pub fn of_content(content: &[u8]) -> (res: TypeSysId)
        ensures
            res@ == tagged_hash(typesys_id_tag(), content@),
    {
        let tag = "urn:ubideco:strict-types:sys:v02";
        TypeSysId { bytes: compute_tagged_hash(tag.as_bytes(), content) }
    }

    /// The identity in full: `urn:ubideco:`, its kind, its payload in
    /// Base58 and, behind `#`, the three words of its checksum.
    pub fn to_string(&self) -> (res: String)
        ensures
            res@ == urn_text(TYPESYS_ID_HRI@, self@),
    {
        proof {
            lemma_hris();
        }
        urn_string(TYPESYS_ID_HRI, self.bytes)
    }

    /// The identity without its checksum: `urn:ubideco:`, its kind and its
    /// payload in Base58.
    pub fn to_plain_string(&self) -> (res: String)
        ensures
            res@ == plain_text(TYPESYS_ID_HRI@, self@),
    {
        proof {
            lemma_hris();
        }
        plain_string(TYPESYS_ID_HRI, self.bytes)
    }

    /// The identity in short: its payload in Base58 and, behind `#`, the
    /// three words of its checksum.
    pub fn to_short_string(&self) -> (res: String)
        ensures
            res@ == short_text(TYPESYS_ID_HRI@, self@),
    {
        proof {
            lemma_hris();
        }
        short_string(TYPESYS_ID_HRI, self.bytes)
    }

    /// The three words of the checksum of the identity.
    pub fn to_mnemonic(&self) -> (res: String)
        ensures
            res@ == baid58_mnemonic(TYPESYS_ID_HRI@, self@),
    {
        proof {
            lemma_hris();
        }
        baid58_mnemonic_text(TYPESYS_ID_HRI, self.bytes)
    }

    /// The identity as a format with these flags writes it: the three
    /// words of its checksum where the alternate flag is set; else its short
    /// form where the minus sign is set; else its plain form where the zero
    /// is set; else the identity in full.
    pub fn to_text(&self, alternate: bool, sign_minus: bool, zero_pad: bool) -> (res: String)
        ensures
            res@ == if alternate {
                baid58_mnemonic(TYPESYS_ID_HRI@, self@)
            } else if sign_minus {
                short_text(TYPESYS_ID_HRI@, self@)
            } else if zero_pad {
                plain_text(TYPESYS_ID_HRI@, self@)
            } else {
                urn_text(TYPESYS_ID_HRI@, self@)
            },
    {
        proof {
            lemma_hris();
        }
        flagged_string(TYPESYS_ID_HRI, self.bytes, alternate, sign_minus, zero_pad)
    }

    /// Whether both are the same identity.
    pub fn same(&self, other: &TypeSysId) -> (res: bool)
        ensures
            res == (self@ == other@),
    {
        bytes32_eq(&self.bytes, &other.bytes)
    }
}

} // verus!
