//! Reading the canonical bytes of types and type systems back.

use vstd::prelude::*;
use crate::id::{lemma_lex_transitive, lemma_sorted_unique, lex_lt, sorted_ids, SemId, TypeLibId};
use crate::typesys::{all_ok, encode_entries, encode_u24, id_row, lib_views, lists_keys, system_bytes};
use crate::typesys::{type_map, BoundError, TypeMap, TypeSystem, MAX_LIBS, MAX_SIZE, MAX_TYPES};
use crate::ty::{encode_alternatives, encode_fields, encode_members, encode_sizing, encode_ty};
use crate::ty::{encode_u16, encode_variants, Alternative, AlternativeView, Field, FieldView, Ty};
use crate::ty::{ty_ok, variant_views, TyView, Variant, VariantView, MAX_MEMBERS};
use crate::util::{encode_name, is_ident_char, is_name, may_start, MemberName, NameRule, Sizing};

verus! {

/// The number that the first two of `bytes` stand for, the low byte first.
pub open spec fn parse_u16(bytes: Seq<u8>) -> Option<(u16, int)> {
    if bytes.len() >= 2 {
        Some(((bytes[0] + 256 * bytes[1]) as u16, 2))
    } else {
        None
    }
}

/// The number that the first three of `bytes` stand for, the lowest byte
/// first.
pub open spec fn parse_u24(bytes: Seq<u8>) -> Option<(nat, int)> {
    if bytes.len() >= 3 {
        Some(((bytes[0] + 256 * bytes[1] + 65536 * bytes[2]) as nat, 3))
    } else {
        None
    }
}

/// The identity that the first 32 of `bytes` are.
pub open spec fn parse_id(bytes: Seq<u8>) -> Option<(Seq<u8>, int)> {
    if bytes.len() >= 32 {
        Some((bytes.take(32), 32))
    } else {
        None
    }
}

/// The bounds that the first four of `bytes` stand for.
pub open spec fn parse_sizing(bytes: Seq<u8>) -> Option<(Sizing, int)> {
    if bytes.len() >= 4 {
        Some(
            (
                Sizing {
                    min: (bytes[0] + 256 * bytes[1]) as u16,
                    max: (bytes[2] + 256 * bytes[3]) as u16,
                },
                4,
            ),
        )
    } else {
        None
    }
}

/// The characters of a name of `len` characters that starts at the second
/// of `bytes`.
pub open spec fn name_chars(bytes: Seq<u8>, len: int) -> Seq<char> {
    Seq::new(len as nat, |i: int| bytes[1 + i] as char)
}

/// The name of a field or a variant that `bytes` start with: its length in
/// one byte, then its characters.
pub open spec fn parse_name(bytes: Seq<u8>) -> Option<(Seq<char>, int)> {
    if bytes.len() >= 1 && bytes.len() >= 1 + bytes[0] && is_name(
        NameRule::Member,
        name_chars(bytes, bytes[0] as int),
    ) {
        Some((name_chars(bytes, bytes[0] as int), 1 + bytes[0]))
    } else {
        None
    }
}

/// Two bytes read back are the number they were written for.
pub proof fn lemma_parse_u16(v: u16, rest: Seq<u8>)
    ensures
        parse_u16(encode_u16(v) + rest) == Some((v, 2int)),
{
}

/// Three bytes read back are the number they were written for.
pub proof fn lemma_parse_u24(n: nat, rest: Seq<u8>)
    requires
        n < 0x1000000,
    ensures
        parse_u24(crate::typesys::encode_u24(n) + rest) == Some((n, 3int)),
{
}

/// An identity read back is the one that was written.
pub proof fn lemma_parse_id(id: Seq<u8>, rest: Seq<u8>)
    requires
        id.len() == 32,
    ensures
        parse_id(id + rest) == Some((id, 32int)),
{
    assert((id + rest).take(32) =~= id);
}

/// Bounds read back are the ones that were written.
pub proof fn lemma_parse_sizing(sizing: Sizing, rest: Seq<u8>)
    ensures
        parse_sizing(encode_sizing(sizing) + rest) == Some((sizing, 4int)),
{
    let bytes = encode_sizing(sizing) + rest;
    assert(bytes[0] == encode_u16(sizing.min)[0]);
    assert(bytes[1] == encode_u16(sizing.min)[1]);
    assert(bytes[2] == encode_u16(sizing.max)[0]);
    assert(bytes[3] == encode_u16(sizing.max)[1]);
}

/// A name read back is the one that was written.
pub proof fn lemma_parse_name(name: Seq<char>, rest: Seq<u8>)
    requires
        is_name(NameRule::Member, name),
    ensures
        parse_name(encode_name(name) + rest) == Some((name, 1 + name.len() as int)),
        encode_name(name).len() == 1 + name.len(),
{
    let bytes = encode_name(name) + rest;
    crate::util::lemma_name_ascii(NameRule::Member, name);
    assert(bytes[0] == name.len() as u8);
    assert forall|i: int| 0 <= i < name.len() implies (#[trigger] name_chars(
        bytes,
        name.len() as int,
    )[i]) == name[i] by {
        assert(bytes[1 + i] == name[i] as u8);
        assert('\0' <= name[i] <= '\u{7f}');
    }
    assert(name_chars(bytes, name.len() as int) =~= name);
}

/// Reads two bytes as a number, the low byte first.
pub fn read_u16(bytes: &[u8], pos: usize) -> (res: Option<(u16, usize)>)
    requires
        pos <= bytes.len(),
    ensures
        match res {
            Some((v, next)) => parse_u16(bytes@.skip(pos as int)) == Some((v, next - pos)) && next
                <= bytes.len(),
            None => parse_u16(bytes@.skip(pos as int)) is None,
        },
{
    if bytes.len() - pos < 2 {
        return None;
    }
    let low = bytes[pos] as u16;
    let high = bytes[pos + 1] as u16;
    Some((low + 256 * high, pos + 2))
}

/// Reads three bytes as a number, the lowest byte first.
pub fn read_u24(bytes: &[u8], pos: usize) -> (res: Option<(u32, usize)>)
    requires
        pos <= bytes.len(),
    ensures
        match res {
            Some((v, next)) => parse_u24(bytes@.skip(pos as int)) == Some((v as nat, next - pos))
                && next <= bytes.len(),
            None => parse_u24(bytes@.skip(pos as int)) is None,
        },
{
    if bytes.len() - pos < 3 {
        return None;
    }
    let low = bytes[pos] as u32;
    let mid = bytes[pos + 1] as u32;
    let high = bytes[pos + 2] as u32;
    Some((low + 256 * mid + 65536 * high, pos + 3))
}

/// Reads 32 bytes.
pub fn read_id(bytes: &[u8], pos: usize) -> (res: Option<([u8; 32], usize)>)
    requires
        pos <= bytes.len(),
    ensures
        match res {
            Some((id, next)) => parse_id(bytes@.skip(pos as int)) == Some((id@, next - pos))
                && next <= bytes.len(),
            None => parse_id(bytes@.skip(pos as int)) is None,
        },
{
    if bytes.len() - pos < 32 {
        return None;
    }
    let mut id = [0u8; 32];
    let mut i: usize = 0;
    while i < 32
        invariant
            0 <= i <= 32,
            pos + 32 <= bytes.len(),
            forall|j: int| 0 <= j < i ==> id@[j] == bytes@[pos + j],
        decreases 32 - i,
    {
        id[i] = bytes[pos + i];
        i = i + 1;
    }
    assert(id@ =~= bytes@.skip(pos as int).take(32));
    Some((id, pos + 32))
}

/// Reads four bytes as bounds.
pub fn read_sizing(bytes: &[u8], pos: usize) -> (res: Option<(Sizing, usize)>)
    requires
        pos <= bytes.len(),
    ensures
        match res {
            Some((sizing, next)) => parse_sizing(bytes@.skip(pos as int)) == Some(
                (sizing, next - pos),
            ) && next <= bytes.len(),
            None => parse_sizing(bytes@.skip(pos as int)) is None,
        },
{
    if bytes.len() - pos < 4 {
        return None;
    }
    let min = bytes[pos] as u16 + 256 * (bytes[pos + 1] as u16);
    let max = bytes[pos + 2] as u16 + 256 * (bytes[pos + 3] as u16);
    Some((Sizing { min, max }, pos + 4))
}

/// All of `parts`, one behind the other.
pub open spec fn concat_all(parts: Seq<Seq<u8>>) -> Seq<u8>
    decreases parts.len(),
{
    if parts.len() == 0 {
        Seq::empty()
    } else {
        concat_all(parts.drop_last()) + parts.last()
    }
}

/// The `count` items that `bytes` start with, each read by `one`, and the
/// number of bytes they take.
pub open spec fn parse_list<T>(
    bytes: Seq<u8>,
    count: nat,
    one: spec_fn(Seq<u8>) -> Option<(T, int)>,
) -> Option<(Seq<T>, int)>
    decreases count,
{
    if count == 0 {
        Some((Seq::empty(), 0))
    } else {
        match one(bytes) {
            Some((item, used)) => if 0 <= used <= bytes.len() {
                match parse_list(bytes.skip(used), (count - 1) as nat, one) {
                    Some((items, more)) => Some((seq![item] + items, used + more)),
                    None => None,
                }
            } else {
                None
            },
            None => None,
        }
    }
}

/// Parts one behind the other are the first of them and then the others.
pub proof fn lemma_concat_first(parts: Seq<Seq<u8>>)
    requires
        parts.len() > 0,
    ensures
        concat_all(parts) == parts.first() + concat_all(parts.drop_first()),
    decreases parts.len(),
{
    if parts.len() == 1 {
        assert(parts.drop_last() =~= Seq::<Seq<u8>>::empty());
        assert(parts.drop_first() =~= Seq::<Seq<u8>>::empty());
        assert(concat_all(parts) =~= parts.first() + concat_all(parts.drop_first()));
    } else {
        lemma_concat_first(parts.drop_last());
        assert(parts.drop_last().drop_first() =~= parts.drop_first().drop_last());
        assert(parts.drop_last().first() == parts.first());
        assert(parts.drop_first().last() == parts.last());
        assert(concat_all(parts) =~= parts.first() + concat_all(parts.drop_first()));
    }
}

/// Items written one behind the other are read back as they were, where
/// each of them alone is read back as it was.
pub proof fn lemma_parse_list<T>(
    items: Seq<T>,
    write: spec_fn(T) -> Seq<u8>,
    one: spec_fn(Seq<u8>) -> Option<(T, int)>,
    rest: Seq<u8>,
)
    requires
        forall|i: int, tail: Seq<u8>|
            0 <= i < items.len() ==> #[trigger] one(write(items[i]) + tail) == Some(
                (items[i], write(items[i]).len() as int),
            ),
    ensures
        parse_list(concat_all(items.map_values(write)) + rest, items.len(), one) == Some(
            (items, concat_all(items.map_values(write)).len() as int),
        ),
    decreases items.len(),
{
    let parts = items.map_values(write);
    let bytes = concat_all(parts) + rest;
    if items.len() == 0 {
        assert(items =~= Seq::<T>::empty());
    } else {
        lemma_concat_first(parts);
        let first = write(items[0]);
        let others = items.drop_first();
        assert(parts.first() == first);
        assert(parts.drop_first() =~= others.map_values(write));
        let tail = concat_all(others.map_values(write)) + rest;
        assert(bytes =~= first + tail);
        assert(one(first + tail) == Some((items[0], first.len() as int)));
        assert(bytes.skip(first.len() as int) =~= tail);
        assert forall|i: int, tail: Seq<u8>| 0 <= i < others.len() implies #[trigger] one(
            write(others[i]) + tail,
        ) == Some((others[i], write(others[i]).len() as int)) by {
            assert(others[i] == items[i + 1]);
        }
        lemma_parse_list(others, write, one, rest);
        assert(seq![items[0]] + others =~= items);
    }
}

/// The bytes of a name are those of its characters, which are ASCII.
pub proof fn lemma_name_bytes(raw: Seq<u8>, name: Seq<char>)
    requires
        name.len() == raw.len(),
        forall|i: int| 0 <= i < raw.len() ==> name[i] == raw[i] as char,
        vstd::utf8::is_ascii_chars(name),
    ensures
        raw == vstd::utf8::encode_utf8(name),
        vstd::utf8::valid_utf8(raw),
        vstd::utf8::decode_utf8(raw) == name,
{
    broadcast use vstd::utf8::is_ascii_chars_encode_utf8;
    broadcast use vstd::utf8::encode_utf8_valid_utf8;
    broadcast use vstd::utf8::encode_utf8_decode_utf8;

    let encoded = vstd::utf8::encode_utf8(name);
    assert(encoded.len() == name.len());
    assert forall|i: int| 0 <= i < raw.len() implies raw[i] == encoded[i] by {
        assert(encoded[i] == name[i] as u8);
        assert('\0' <= name[i] <= '\u{7f}');
        assert((raw[i] as char) as u8 == raw[i]);
    }
    assert(raw =~= encoded);
}

/// Reads a name of a field or a variant: its length in one byte, then its
/// characters.
pub fn read_name(bytes: &[u8], pos: usize) -> (res: Option<(MemberName, usize)>)
    requires
        pos <= bytes.len(),
    ensures
        match res {
            Some((name, next)) => parse_name(bytes@.skip(pos as int)) == Some(
                (name@, next - pos),
            ) && pos < next <= bytes.len(),
            None => parse_name(bytes@.skip(pos as int)) is None,
        },
{
    broadcast use vstd::utf8::is_ascii_chars_encode_utf8;
    broadcast use vstd::utf8::decode_utf8_encode_utf8;

    let ghost tail = bytes@.skip(pos as int);
    if bytes.len() - pos < 1 {
        return None;
    }
    let len = bytes[pos] as usize;
    if bytes.len() - pos - 1 < len {
        return None;
    }
    let from = pos + 1;
    let mut raw: Vec<u8> = Vec::new();
    crate::hash::append_bytes(&mut raw, vstd::slice::slice_subrange(bytes, from, from + len));
    let ghost chars = name_chars(tail, len as int);
    assert(raw@ =~= bytes@.subrange(from as int, from + len));
    assert(chars.len() == raw@.len());
    assert forall|i: int| 0 <= i < raw@.len() implies chars[i] == raw@[i] as char by {
        assert(tail[1 + i] == bytes@[pos + 1 + i]);
    }
    let ghost copy = raw@;
    let text = match crate::util::string_from_utf8(raw) {
        Some(text) => text,
        None => {
            proof {
                if is_name(NameRule::Member, chars) {
                    crate::util::lemma_name_ascii(NameRule::Member, chars);
                    lemma_name_bytes(copy, chars);
                }
            }
            return None;
        },
    };
    match MemberName::try_from(text.as_str()) {
        Ok(name) => {
            proof {
                crate::util::lemma_name_ascii(NameRule::Member, text@);
                let encoded = vstd::utf8::encode_utf8(text@);
                assert(encoded == copy);
                assert forall|i: int| 0 <= i < chars.len() implies chars[i] == text@[i] by {
                    assert(encoded[i] == text@[i] as u8);
                    assert('\0' <= text@[i] <= '\u{7f}');
                }
                assert(chars =~= text@);
            }
            Some((name, from + len))
        },
        Err(_) => {
            proof {
                crate::util::lemma_check_name(NameRule::Member, text@);
                if is_name(NameRule::Member, chars) {
                    crate::util::lemma_name_ascii(NameRule::Member, chars);
                    lemma_name_bytes(copy, chars);
                }
            }
            None
        },
    }
}

/// What is read goes on from what was read: `whole` is what `done`, which
/// took `used` bytes, makes together with `rest`.
pub open spec fn continues<T>(
    whole: Option<(Seq<T>, int)>,
    done: Seq<T>,
    used: int,
    rest: Option<(Seq<T>, int)>,
) -> bool {
    match rest {
        Some((items, more)) => whole == Some((done + items, used + more)),
        None => whole is None,
    }
}

/// The canonical bytes of one variant.
pub open spec fn encode_variant(v: VariantView) -> Seq<u8> {
    encode_name(v.name) + seq![v.tag]
}

/// The canonical bytes of one alternative.
pub open spec fn encode_alternative(a: AlternativeView<Seq<u8>>) -> Seq<u8> {
    encode_name(a.name) + seq![a.tag] + a.ty
}

/// The canonical bytes of one field.
pub open spec fn encode_field(f: FieldView<Seq<u8>>) -> Seq<u8> {
    encode_name(f.name) + f.ty
}

/// The variant that `bytes` start with: its name and its byte.
pub open spec fn parse_variant(bytes: Seq<u8>) -> Option<(VariantView, int)> {
    match parse_name(bytes) {
        Some((name, used)) => if bytes.len() > used {
            Some((VariantView { name, tag: bytes[used] }, used + 1))
        } else {
            None
        },
        None => None,
    }
}

/// The alternative that `bytes` start with: its name, its byte and the
/// identity of its type.
pub open spec fn parse_alternative(bytes: Seq<u8>) -> Option<(AlternativeView<Seq<u8>>, int)> {
    match parse_name(bytes) {
        Some((name, used)) => if bytes.len() >= used + 33 {
            Some(
                (
                    AlternativeView {
                        name,
                        tag: bytes[used],
                        ty: bytes.subrange(used + 1, used + 33),
                    },
                    used + 33,
                ),
            )
        } else {
            None
        },
        None => None,
    }
}

/// The field that `bytes` start with: its name and the identity of its type.
pub open spec fn parse_field(bytes: Seq<u8>) -> Option<(FieldView<Seq<u8>>, int)> {
    match parse_name(bytes) {
        Some((name, used)) => if bytes.len() >= used + 32 {
            Some((FieldView { name, ty: bytes.subrange(used, used + 32) }, used + 32))
        } else {
            None
        },
        None => None,
    }
}

/// How a variant is written.
pub open spec fn variant_writer() -> spec_fn(VariantView) -> Seq<u8> {
    |v: VariantView| encode_variant(v)
}

/// How a variant is read.
pub open spec fn variant_reader() -> spec_fn(Seq<u8>) -> Option<(VariantView, int)> {
    |bytes: Seq<u8>| parse_variant(bytes)
}

/// How an alternative is written.
pub open spec fn alternative_writer() -> spec_fn(AlternativeView<Seq<u8>>) -> Seq<u8> {
    |a: AlternativeView<Seq<u8>>| encode_alternative(a)
}

/// How an alternative is read.
pub open spec fn alternative_reader() -> spec_fn(Seq<u8>) -> Option<
    (AlternativeView<Seq<u8>>, int),
> {
    |bytes: Seq<u8>| parse_alternative(bytes)
}

/// How a field is written.
pub open spec fn field_writer() -> spec_fn(FieldView<Seq<u8>>) -> Seq<u8> {
    |f: FieldView<Seq<u8>>| encode_field(f)
}

/// How a field is read.
pub open spec fn field_reader() -> spec_fn(Seq<u8>) -> Option<(FieldView<Seq<u8>>, int)> {
    |bytes: Seq<u8>| parse_field(bytes)
}

/// How an identity is written.
pub open spec fn id_writer() -> spec_fn(Seq<u8>) -> Seq<u8> {
    |id: Seq<u8>| id
}

/// How an identity is read.
pub open spec fn id_reader() -> spec_fn(Seq<u8>) -> Option<(Seq<u8>, int)> {
    |bytes: Seq<u8>| parse_id(bytes)
}

/// The type that `bytes` start with: one byte that tells its kind, then
/// what the kind holds.
pub open spec fn parse_ty(bytes: Seq<u8>) -> Option<(TyView<Seq<u8>>, int)> {
    if bytes.len() < 2 {
        None
    } else if bytes[0] == 0 {
        Some((TyView::Primitive(bytes[1]), 2))
    } else if bytes[0] == 1 {
        match parse_list(bytes.skip(2), bytes[1] as nat, variant_reader()) {
            Some((variants, used)) => Some((TyView::Enum(variants), 2 + used)),
            None => None,
        }
    } else if bytes[0] == 2 {
        match parse_list(bytes.skip(2), bytes[1] as nat, alternative_reader()) {
            Some((alts, used)) => Some((TyView::Union(alts), 2 + used)),
            None => None,
        }
    } else if bytes[0] == 3 {
        match parse_list(bytes.skip(2), bytes[1] as nat, id_reader()) {
            Some((members, used)) => Some((TyView::Tuple(members), 2 + used)),
            None => None,
        }
    } else if bytes[0] == 4 {
        match parse_list(bytes.skip(2), bytes[1] as nat, field_reader()) {
            Some((fields, used)) => Some((TyView::Struct(fields), 2 + used)),
            None => None,
        }
    } else if bytes[0] == 5 {
        if bytes.len() >= 35 {
            Some(
                (
                    TyView::Array(
                        bytes.subrange(1, 33),
                        (bytes[33] + 256 * bytes[34]) as u16,
                    ),
                    35,
                ),
            )
        } else {
            None
        }
    } else if bytes[0] == 6 {
        match parse_sizing(bytes.skip(33)) {
            Some((sizing, _)) => if bytes.len() >= 37 {
                Some((TyView::List(bytes.subrange(1, 33), sizing), 37))
            } else {
                None
            },
            None => None,
        }
    } else if bytes[0] == 7 {
        match parse_sizing(bytes.skip(33)) {
            Some((sizing, _)) => if bytes.len() >= 37 {
                Some((TyView::SetOf(bytes.subrange(1, 33), sizing), 37))
            } else {
                None
            },
            None => None,
        }
    } else if bytes[0] == 8 {
        match parse_sizing(bytes.skip(65)) {
            Some((sizing, _)) => if bytes.len() >= 69 {
                Some(
                    (TyView::MapOf(bytes.subrange(1, 33), bytes.subrange(33, 65), sizing), 69),
                )
            } else {
                None
            },
            None => None,
        }
    } else if bytes[0] == 9 {
        if bytes.len() >= 33 {
            Some((TyView::Optional(bytes.subrange(1, 33)), 33))
        } else {
            None
        }
    } else if bytes[0] == 10 {
        if bytes.len() >= 33 {
            Some((TyView::Recursive(bytes.subrange(1, 33)), 33))
        } else {
            None
        }
    } else {
        None
    }
}

/// The bytes of a row of variants are those of each, one behind the other.
pub proof fn lemma_variants_concat(variants: Seq<VariantView>)
    ensures
        encode_variants(variants) == concat_all(variants.map_values(variant_writer())),
    decreases variants.len(),
{
    if variants.len() > 0 {
        lemma_variants_concat(variants.drop_last());
        assert(variants.map_values(variant_writer()).drop_last() =~= variants.drop_last().map_values(
            variant_writer(),
        ));
        assert(encode_variants(variants) =~= concat_all(variants.map_values(variant_writer())));
    }
}

/// The bytes of a row of alternatives are those of each, one behind the
/// other.
pub proof fn lemma_alternatives_concat(alts: Seq<AlternativeView<Seq<u8>>>)
    ensures
        encode_alternatives(alts) == concat_all(alts.map_values(alternative_writer())),
    decreases alts.len(),
{
    if alts.len() > 0 {
        lemma_alternatives_concat(alts.drop_last());
        assert(alts.map_values(alternative_writer()).drop_last() =~= alts.drop_last().map_values(
            alternative_writer(),
        ));
        assert(encode_alternatives(alts) =~= concat_all(alts.map_values(alternative_writer())));
    }
}

/// The bytes of a row of identities are those of each, one behind the other.
pub proof fn lemma_members_concat(members: Seq<Seq<u8>>)
    ensures
        encode_members(members) == concat_all(members.map_values(id_writer())),
    decreases members.len(),
{
    if members.len() > 0 {
        lemma_members_concat(members.drop_last());
        assert(members.map_values(id_writer()).drop_last() =~= members.drop_last().map_values(
            id_writer(),
        ));
        assert(encode_members(members) =~= concat_all(members.map_values(id_writer())));
    }
}

/// The bytes of a row of fields are those of each, one behind the other.
pub proof fn lemma_fields_concat(fields: Seq<FieldView<Seq<u8>>>)
    ensures
        encode_fields(fields) == concat_all(fields.map_values(field_writer())),
    decreases fields.len(),
{
    if fields.len() > 0 {
        lemma_fields_concat(fields.drop_last());
        assert(fields.map_values(field_writer()).drop_last() =~= fields.drop_last().map_values(
            field_writer(),
        ));
        assert(encode_fields(fields) =~= concat_all(fields.map_values(field_writer())));
    }
}

/// A variant read back is the one that was written.
pub proof fn lemma_parse_variant(v: VariantView, rest: Seq<u8>)
    requires
        is_name(NameRule::Member, v.name),
    ensures
        parse_variant(encode_variant(v) + rest) == Some((v, encode_variant(v).len() as int)),
{
    let bytes = encode_variant(v) + rest;
    lemma_parse_name(v.name, seq![v.tag] + rest);
    assert(bytes =~= encode_name(v.name) + (seq![v.tag] + rest));
    assert(bytes[1 + v.name.len() as int] == v.tag);
}

/// An alternative read back is the one that was written.
pub proof fn lemma_parse_alternative(a: AlternativeView<Seq<u8>>, rest: Seq<u8>)
    requires
        is_name(NameRule::Member, a.name),
        a.ty.len() == 32,
    ensures
        parse_alternative(encode_alternative(a) + rest) == Some(
            (a, encode_alternative(a).len() as int),
        ),
{
    let bytes = encode_alternative(a) + rest;
    lemma_parse_name(a.name, seq![a.tag] + a.ty + rest);
    assert(bytes =~= encode_name(a.name) + (seq![a.tag] + a.ty + rest));
    let used = 1 + a.name.len() as int;
    assert(bytes[used] == a.tag);
    assert(bytes.subrange(used + 1, used + 33) =~= a.ty);
}

/// A field read back is the one that was written.
pub proof fn lemma_parse_field(f: FieldView<Seq<u8>>, rest: Seq<u8>)
    requires
        is_name(NameRule::Member, f.name),
        f.ty.len() == 32,
    ensures
        parse_field(encode_field(f) + rest) == Some((f, encode_field(f).len() as int)),
{
    let bytes = encode_field(f) + rest;
    lemma_parse_name(f.name, f.ty + rest);
    assert(bytes =~= encode_name(f.name) + (f.ty + rest));
    let used = 1 + f.name.len() as int;
    assert(bytes.subrange(used, used + 32) =~= f.ty);
}

/// An enumeration read back is the one that was written.
proof fn lemma_parse_enum(variants: Seq<VariantView>, rest: Seq<u8>)
    requires
        ty_ok(TyView::Enum(variants)),
    ensures
        parse_ty(encode_ty(TyView::Enum(variants)) + rest) == Some(
            (TyView::<Seq<u8>>::Enum(variants), encode_ty(TyView::Enum(variants)).len() as int),
        ),
{
    let ty = TyView::<Seq<u8>>::Enum(variants);
    let bytes = encode_ty(ty) + rest;
    lemma_variants_concat(variants);
    assert forall|i: int, tail: Seq<u8>| 0 <= i < variants.len() implies #[trigger] variant_reader()(
        variant_writer()(variants[i]) + tail,
    ) == Some((variants[i], variant_writer()(variants[i]).len() as int)) by {
        lemma_parse_variant(variants[i], tail);
    }
    lemma_parse_list(variants, variant_writer(), variant_reader(), rest);
    assert(bytes[0] == 1 && bytes[1] == variants.len() as u8);
    assert(bytes.skip(2) =~= encode_variants(variants) + rest);
}

/// A union read back is the one that was written.
proof fn lemma_parse_union(alts: Seq<AlternativeView<Seq<u8>>>, rest: Seq<u8>)
    requires
        ty_ok(TyView::Union(alts)),
    ensures
        parse_ty(encode_ty(TyView::Union(alts)) + rest) == Some(
            (TyView::Union(alts), encode_ty(TyView::Union(alts)).len() as int),
        ),
{
    let ty = TyView::Union(alts);
    let bytes = encode_ty(ty) + rest;
    lemma_alternatives_concat(alts);
    assert forall|i: int, tail: Seq<u8>| 0 <= i < alts.len() implies #[trigger] alternative_reader()(
        alternative_writer()(alts[i]) + tail,
    ) == Some((alts[i], alternative_writer()(alts[i]).len() as int)) by {
        assert(ty.refs()[i] == alts[i].ty);
        lemma_parse_alternative(alts[i], tail);
    }
    lemma_parse_list(alts, alternative_writer(), alternative_reader(), rest);
    assert(bytes[0] == 2 && bytes[1] == alts.len() as u8);
    assert(bytes.skip(2) =~= encode_alternatives(alts) + rest);
}

/// A tuple read back is the one that was written.
proof fn lemma_parse_tuple(members: Seq<Seq<u8>>, rest: Seq<u8>)
    requires
        ty_ok(TyView::Tuple(members)),
    ensures
        parse_ty(encode_ty(TyView::Tuple(members)) + rest) == Some(
            (TyView::Tuple(members), encode_ty(TyView::Tuple(members)).len() as int),
        ),
{
    let ty = TyView::Tuple(members);
    let bytes = encode_ty(ty) + rest;
    lemma_members_concat(members);
    assert forall|i: int, tail: Seq<u8>| 0 <= i < members.len() implies #[trigger] id_reader()(
        id_writer()(members[i]) + tail,
    ) == Some((members[i], id_writer()(members[i]).len() as int)) by {
        assert(ty.refs()[i] == members[i]);
        lemma_parse_id(members[i], tail);
    }
    lemma_parse_list(members, id_writer(), id_reader(), rest);
    assert(bytes[0] == 3 && bytes[1] == members.len() as u8);
    assert(bytes.skip(2) =~= encode_members(members) + rest);
}

/// A structure read back is the one that was written.
proof fn lemma_parse_struct(fields: Seq<FieldView<Seq<u8>>>, rest: Seq<u8>)
    requires
        ty_ok(TyView::Struct(fields)),
    ensures
        parse_ty(encode_ty(TyView::Struct(fields)) + rest) == Some(
            (TyView::Struct(fields), encode_ty(TyView::Struct(fields)).len() as int),
        ),
{
    let ty = TyView::Struct(fields);
    let bytes = encode_ty(ty) + rest;
    lemma_fields_concat(fields);
    assert forall|i: int, tail: Seq<u8>| 0 <= i < fields.len() implies #[trigger] field_reader()(
        field_writer()(fields[i]) + tail,
    ) == Some((fields[i], field_writer()(fields[i]).len() as int)) by {
        assert(ty.refs()[i] == fields[i].ty);
        lemma_parse_field(fields[i], tail);
    }
    lemma_parse_list(fields, field_writer(), field_reader(), rest);
    assert(bytes[0] == 4 && bytes[1] == fields.len() as u8);
    assert(bytes.skip(2) =~= encode_fields(fields) + rest);
}

/// A collection type read back is the one that was written.
proof fn lemma_parse_collection(ty: TyView<Seq<u8>>, rest: Seq<u8>)
    requires
        ty_ok(ty),
        ty is List || ty is SetOf || ty is MapOf,
    ensures
        parse_ty(encode_ty(ty) + rest) == Some((ty, encode_ty(ty).len() as int)),
{
    let bytes = encode_ty(ty) + rest;
    match ty {
        TyView::List(item, sizing) => {
            assert(ty.refs()[0] == item);
            assert(bytes[0] == 6);
            assert(bytes.subrange(1, 33) =~= item);
            assert(bytes.skip(33) =~= encode_sizing(sizing) + rest);
            lemma_parse_sizing(sizing, rest);
        },
        TyView::SetOf(item, sizing) => {
            assert(ty.refs()[0] == item);
            assert(bytes[0] == 7);
            assert(bytes.subrange(1, 33) =~= item);
            assert(bytes.skip(33) =~= encode_sizing(sizing) + rest);
            lemma_parse_sizing(sizing, rest);
        },
        TyView::MapOf(key, value, sizing) => {
            assert(ty.refs()[0] == key);
            assert(ty.refs()[1] == value);
            assert(bytes[0] == 8);
            assert(bytes.subrange(1, 33) =~= key);
            assert(bytes.subrange(33, 65) =~= value);
            assert(bytes.skip(65) =~= encode_sizing(sizing) + rest);
            lemma_parse_sizing(sizing, rest);
        },
        _ => {},
    }
}

/// A type of one reference, or of none, read back is the one that was
/// written.
proof fn lemma_parse_simple(ty: TyView<Seq<u8>>, rest: Seq<u8>)
    requires
        ty_ok(ty),
        ty is Primitive || ty is Array || ty is Optional || ty is Recursive,
    ensures
        parse_ty(encode_ty(ty) + rest) == Some((ty, encode_ty(ty).len() as int)),
{
    let bytes = encode_ty(ty) + rest;
    match ty {
        TyView::Primitive(code) => {
            assert(bytes[0] == 0 && bytes[1] == code);
        },
        TyView::Array(item, len) => {
            assert(ty.refs()[0] == item);
            assert(bytes[0] == 5);
            assert(bytes.subrange(1, 33) =~= item);
            assert(bytes[33] == encode_u16(len)[0] && bytes[34] == encode_u16(len)[1]);
        },
        TyView::Optional(item) => {
            assert(ty.refs()[0] == item);
            assert(bytes[0] == 9);
            assert(bytes.subrange(1, 33) =~= item);
        },
        TyView::Recursive(link) => {
            assert(bytes[0] == 10);
            assert(bytes.subrange(1, 33) =~= link);
        },
        _ => {},
    }
}

/// A type read back is the one that was written.
pub proof fn lemma_parse_ty(ty: TyView<Seq<u8>>, rest: Seq<u8>)
    requires
        ty_ok(ty),
    ensures
        parse_ty(encode_ty(ty) + rest) == Some((ty, encode_ty(ty).len() as int)),
{
    match ty {
        TyView::Enum(variants) => lemma_parse_enum(variants, rest),
        TyView::Union(alts) => lemma_parse_union(alts, rest),
        TyView::Tuple(members) => lemma_parse_tuple(members, rest),
        TyView::Struct(fields) => lemma_parse_struct(fields, rest),
        TyView::List(_, _) => lemma_parse_collection(ty, rest),
        TyView::SetOf(_, _) => lemma_parse_collection(ty, rest),
        TyView::MapOf(_, _, _) => lemma_parse_collection(ty, rest),
        _ => lemma_parse_simple(ty, rest),
    }
}

/// The views of a row of alternatives.
pub open spec fn alternative_views(alts: Seq<Alternative<SemId>>) -> Seq<AlternativeView<Seq<u8>>> {
    alts.map_values(|a: Alternative<SemId>| a@)
}

/// The views of a row of fields.
pub open spec fn field_views(fields: Seq<Field<SemId>>) -> Seq<FieldView<Seq<u8>>> {
    fields.map_values(|f: Field<SemId>| f@)
}

/// The views of a row of identities of types.
pub open spec fn member_views(members: Seq<SemId>) -> Seq<Seq<u8>> {
    members.map_values(|m: SemId| m@)
}

/// Reads a variant: its name and its byte.
fn read_variant(bytes: &[u8], pos: usize) -> (res: Option<(Variant, usize)>)
    requires
        pos <= bytes.len(),
    ensures
        match res {
            Some((v, next)) => parse_variant(bytes@.skip(pos as int)) == Some((v@, next - pos))
                && pos < next <= bytes.len(),
            None => parse_variant(bytes@.skip(pos as int)) is None,
        },
{
    let (name, at) = match read_name(bytes, pos) {
        Some(found) => found,
        None => {
            return None;
        },
    };
    if at >= bytes.len() {
        return None;
    }
    Some((Variant { name, tag: bytes[at] }, at + 1))
}

/// Reads an alternative: its name, its byte and the identity of its type.
fn read_alternative(bytes: &[u8], pos: usize) -> (res: Option<(Alternative<SemId>, usize)>)
    requires
        pos <= bytes.len(),
    ensures
        match res {
            Some((a, next)) => parse_alternative(bytes@.skip(pos as int)) == Some(
                (a@, next - pos),
            ) && pos < next <= bytes.len(),
            None => parse_alternative(bytes@.skip(pos as int)) is None,
        },
{
    let ghost tail = bytes@.skip(pos as int);
    let (name, at) = match read_name(bytes, pos) {
        Some(found) => found,
        None => {
            return None;
        },
    };
    if bytes.len() - at < 33 {
        return None;
    }
    let tag = bytes[at];
    let (id, next) = match read_id(bytes, at + 1) {
        Some(found) => found,
        None => {
            return None;
        },
    };
    assert(id@ =~= tail.subrange(at - pos + 1, at - pos + 33));
    Some((Alternative { name, tag, ty: SemId::from_byte_array(id) }, next))
}

/// Reads a field: its name and the identity of its type.
fn read_field(bytes: &[u8], pos: usize) -> (res: Option<(Field<SemId>, usize)>)
    requires
        pos <= bytes.len(),
    ensures
        match res {
            Some((f, next)) => parse_field(bytes@.skip(pos as int)) == Some((f@, next - pos))
                && pos < next <= bytes.len(),
            None => parse_field(bytes@.skip(pos as int)) is None,
        },
{
    let ghost tail = bytes@.skip(pos as int);
    let (name, at) = match read_name(bytes, pos) {
        Some(found) => found,
        None => {
            return None;
        },
    };
    let (id, next) = match read_id(bytes, at) {
        Some(found) => found,
        None => {
            return None;
        },
    };
    assert(id@ =~= tail.subrange(at - pos, at - pos + 32));
    Some((Field { name, ty: SemId::from_byte_array(id) }, next))
}

/// Reads `count` variants.
fn read_variants(bytes: &[u8], pos: usize, count: usize) -> (res: Option<(Vec<Variant>, usize)>)
    requires
        pos <= bytes.len(),
    ensures
        match res {
            Some((items, next)) => parse_list(
                bytes@.skip(pos as int),
                count as nat,
                variant_reader(),
            ) == Some((variant_views(items@), next - pos)) && pos <= next <= bytes.len(),
            None => parse_list(bytes@.skip(pos as int), count as nat, variant_reader()) is None,
        },
{
    let ghost whole = parse_list(bytes@.skip(pos as int), count as nat, variant_reader());
    let mut out: Vec<Variant> = Vec::new();
    let mut at = pos;
    let mut i: usize = 0;
    proof {
        let rest = parse_list(bytes@.skip(at as int), count as nat, variant_reader());
        if let Some((items, more)) = rest {
            assert(variant_views(out@) + items =~= items);
        }
    }
    while i < count
        invariant
            i <= count,
            pos <= at <= bytes.len(),
            whole == parse_list(bytes@.skip(pos as int), count as nat, variant_reader()),
            continues(
                whole,
                variant_views(out@),
                at - pos,
                parse_list(bytes@.skip(at as int), (count - i) as nat, variant_reader()),
            ),
        decreases count - i,
    {
        let ghost done = variant_views(out@);
        let ghost rest = bytes@.skip(at as int);
        match read_variant(bytes, at) {
            None => {
                return None;
            },
            Some((item, next)) => {
                proof {
                    assert(variant_reader()(rest) == parse_variant(rest));
                    assert(rest.skip(next - at) =~= bytes@.skip(next as int));
                    let tail = parse_list(
                        bytes@.skip(next as int),
                        (count - i - 1) as nat,
                        variant_reader(),
                    );
                    if let Some((items, more)) = tail {
                        assert(done.push(item@) + items =~= done + (seq![item@] + items));
                    }
                }
                out.push(item);
                assert(variant_views(out@) =~= done.push(item@));
                at = next;
                i = i + 1;
            },
        }
    }
    assert(variant_views(out@) + Seq::<VariantView>::empty() =~= variant_views(out@));
    Some((out, at))
}

/// Reads `count` alternatives.
fn read_alternatives(bytes: &[u8], pos: usize, count: usize) -> (res: Option<
    (Vec<Alternative<SemId>>, usize),
>)
    requires
        pos <= bytes.len(),
    ensures
        match res {
            Some((items, next)) => parse_list(
                bytes@.skip(pos as int),
                count as nat,
                alternative_reader(),
            ) == Some((alternative_views(items@), next - pos)) && pos <= next <= bytes.len(),
            None => parse_list(bytes@.skip(pos as int), count as nat, alternative_reader()) is None,
        },
{
    let ghost whole = parse_list(bytes@.skip(pos as int), count as nat, alternative_reader());
    let mut out: Vec<Alternative<SemId>> = Vec::new();
    let mut at = pos;
    let mut i: usize = 0;
    proof {
        let rest = parse_list(bytes@.skip(at as int), count as nat, alternative_reader());
        if let Some((items, more)) = rest {
            assert(alternative_views(out@) + items =~= items);
        }
    }
    while i < count
        invariant
            i <= count,
            pos <= at <= bytes.len(),
            whole == parse_list(bytes@.skip(pos as int), count as nat, alternative_reader()),
            continues(
                whole,
                alternative_views(out@),
                at - pos,
                parse_list(bytes@.skip(at as int), (count - i) as nat, alternative_reader()),
            ),
        decreases count - i,
    {
        let ghost done = alternative_views(out@);
        let ghost rest = bytes@.skip(at as int);
        match read_alternative(bytes, at) {
            None => {
                return None;
            },
            Some((item, next)) => {
                proof {
                    assert(alternative_reader()(rest) == parse_alternative(rest));
                    assert(rest.skip(next - at) =~= bytes@.skip(next as int));
                    let tail = parse_list(
                        bytes@.skip(next as int),
                        (count - i - 1) as nat,
                        alternative_reader(),
                    );
                    if let Some((items, more)) = tail {
                        assert(done.push(item@) + items =~= done + (seq![item@] + items));
                    }
                }
                out.push(item);
                assert(alternative_views(out@) =~= done.push(item@));
                at = next;
                i = i + 1;
            },
        }
    }
    assert(alternative_views(out@) + Seq::<AlternativeView<Seq<u8>>>::empty() =~= alternative_views(
        out@,
    ));
    Some((out, at))
}

/// Reads `count` fields.
fn read_fields(bytes: &[u8], pos: usize, count: usize) -> (res: Option<(Vec<Field<SemId>>, usize)>)
    requires
        pos <= bytes.len(),
    ensures
        match res {
            Some((items, next)) => parse_list(bytes@.skip(pos as int), count as nat, field_reader())
                == Some((field_views(items@), next - pos)) && pos <= next <= bytes.len(),
            None => parse_list(bytes@.skip(pos as int), count as nat, field_reader()) is None,
        },
{
    let ghost whole = parse_list(bytes@.skip(pos as int), count as nat, field_reader());
    let mut out: Vec<Field<SemId>> = Vec::new();
    let mut at = pos;
    let mut i: usize = 0;
    proof {
        let rest = parse_list(bytes@.skip(at as int), count as nat, field_reader());
        if let Some((items, more)) = rest {
            assert(field_views(out@) + items =~= items);
        }
    }
    while i < count
        invariant
            i <= count,
            pos <= at <= bytes.len(),
            whole == parse_list(bytes@.skip(pos as int), count as nat, field_reader()),
            continues(
                whole,
                field_views(out@),
                at - pos,
                parse_list(bytes@.skip(at as int), (count - i) as nat, field_reader()),
            ),
        decreases count - i,
    {
        let ghost done = field_views(out@);
        let ghost rest = bytes@.skip(at as int);
        match read_field(bytes, at) {
            None => {
                return None;
            },
            Some((item, next)) => {
                proof {
                    assert(field_reader()(rest) == parse_field(rest));
                    assert(rest.skip(next - at) =~= bytes@.skip(next as int));
                    let tail = parse_list(
                        bytes@.skip(next as int),
                        (count - i - 1) as nat,
                        field_reader(),
                    );
                    if let Some((items, more)) = tail {
                        assert(done.push(item@) + items =~= done + (seq![item@] + items));
                    }
                }
                out.push(item);
                assert(field_views(out@) =~= done.push(item@));
                at = next;
                i = i + 1;
            },
        }
    }
    assert(field_views(out@) + Seq::<FieldView<Seq<u8>>>::empty() =~= field_views(out@));
    Some((out, at))
}

/// Reads `count` identities.
pub fn read_ids(bytes: &[u8], pos: usize, count: usize) -> (res: Option<(Vec<SemId>, usize)>)
    requires
        pos <= bytes.len(),
    ensures
        match res {
            Some((items, next)) => parse_list(bytes@.skip(pos as int), count as nat, id_reader())
                == Some((member_views(items@), next - pos)) && pos <= next <= bytes.len(),
            None => parse_list(bytes@.skip(pos as int), count as nat, id_reader()) is None,
        },
{
    let ghost whole = parse_list(bytes@.skip(pos as int), count as nat, id_reader());
    let mut out: Vec<SemId> = Vec::new();
    let mut at = pos;
    let mut i: usize = 0;
    proof {
        let rest = parse_list(bytes@.skip(at as int), count as nat, id_reader());
        if let Some((items, more)) = rest {
            assert(member_views(out@) + items =~= items);
        }
    }
    while i < count
        invariant
            i <= count,
            pos <= at <= bytes.len(),
            whole == parse_list(bytes@.skip(pos as int), count as nat, id_reader()),
            continues(
                whole,
                member_views(out@),
                at - pos,
                parse_list(bytes@.skip(at as int), (count - i) as nat, id_reader()),
            ),
        decreases count - i,
    {
        let ghost done = member_views(out@);
        let ghost rest = bytes@.skip(at as int);
        match read_id(bytes, at) {
            None => {
                return None;
            },
            Some((id, next)) => {
                let item = SemId::from_byte_array(id);
                proof {
                    assert(id_reader()(rest) == parse_id(rest));
                    assert(rest.skip(next - at) =~= bytes@.skip(next as int));
                    let tail = parse_list(
                        bytes@.skip(next as int),
                        (count - i - 1) as nat,
                        id_reader(),
                    );
                    if let Some((items, more)) = tail {
                        assert(done.push(item@) + items =~= done + (seq![item@] + items));
                    }
                }
                out.push(item);
                assert(member_views(out@) =~= done.push(item@));
                at = next;
                i = i + 1;
            },
        }
    }
    assert(member_views(out@) + Seq::<Seq<u8>>::empty() =~= member_views(out@));
    Some((out, at))
}

/// Reads a type: one byte that tells its kind, then what the kind holds.
pub fn read_ty(bytes: &[u8], pos: usize) -> (res: Option<(Ty<SemId>, usize)>)
    requires
        pos <= bytes.len(),
    ensures
        match res {
            Some((ty, next)) => parse_ty(bytes@.skip(pos as int)) == Some((ty@, next - pos))
                && pos < next <= bytes.len(),
            None => parse_ty(bytes@.skip(pos as int)) is None,
        },
{
    let ghost tail = bytes@.skip(pos as int);
    if bytes.len() - pos < 2 {
        return None;
    }
    let kind = bytes[pos];
    let count = bytes[pos + 1] as usize;
    assert(tail.skip(2) =~= bytes@.skip(pos + 2));
    if kind == 0 {
        Some((Ty::Primitive(bytes[pos + 1]), pos + 2))
    } else if kind == 1 {
        match read_variants(bytes, pos + 2, count) {
            Some((variants, next)) => {
                let ty = Ty::Enum(variants);
                assert(ty@->Enum_0 =~= variant_views(variants@));
                Some((ty, next))
            },
            None => None,
        }
    } else if kind == 2 {
        match read_alternatives(bytes, pos + 2, count) {
            Some((alts, next)) => {
                let ty = Ty::Union(alts);
                assert(ty@->Union_0 =~= alternative_views(alts@));
                Some((ty, next))
            },
            None => None,
        }
    } else if kind == 3 {
        match read_ids(bytes, pos + 2, count) {
            Some((members, next)) => {
                let ty = Ty::Tuple(members);
                assert(ty@->Tuple_0 =~= member_views(members@));
                Some((ty, next))
            },
            None => None,
        }
    } else if kind == 4 {
        match read_fields(bytes, pos + 2, count) {
            Some((fields, next)) => {
                let ty = Ty::Struct(fields);
                assert(ty@->Struct_0 =~= field_views(fields@));
                Some((ty, next))
            },
            None => None,
        }
    } else if kind == 5 {
        if bytes.len() - pos < 35 {
            return None;
        }
        let (id, at) = match read_id(bytes, pos + 1) {
            Some(found) => found,
            None => {
                return None;
            },
        };
        assert(id@ =~= tail.subrange(1, 33));
        let len = bytes[pos + 33] as u16 + 256 * (bytes[pos + 34] as u16);
        Some((Ty::Array(SemId::from_byte_array(id), len), pos + 35))
    } else if kind == 6 || kind == 7 {
        if bytes.len() - pos < 37 {
            return None;
        }
        let (id, at) = match read_id(bytes, pos + 1) {
            Some(found) => found,
            None => {
                return None;
            },
        };
        assert(id@ =~= tail.subrange(1, 33));
        assert(tail.skip(33) =~= bytes@.skip(pos + 33));
        let (sizing, next) = match read_sizing(bytes, pos + 33) {
            Some(found) => found,
            None => {
                return None;
            },
        };
        let item = SemId::from_byte_array(id);
        if kind == 6 {
            Some((Ty::List(item, sizing), next))
        } else {
            Some((Ty::SetOf(item, sizing), next))
        }
    } else if kind == 8 {
        if bytes.len() - pos < 69 {
            return None;
        }
        let (key, at) = match read_id(bytes, pos + 1) {
            Some(found) => found,
            None => {
                return None;
            },
        };
        let (value, at) = match read_id(bytes, pos + 33) {
            Some(found) => found,
            None => {
                return None;
            },
        };
        assert(key@ =~= tail.subrange(1, 33));
        assert(value@ =~= tail.subrange(33, 65));
        assert(tail.skip(65) =~= bytes@.skip(pos + 65));
        let (sizing, next) = match read_sizing(bytes, pos + 65) {
            Some(found) => found,
            None => {
                return None;
            },
        };
        Some((Ty::MapOf(SemId::from_byte_array(key), SemId::from_byte_array(value), sizing), next))
    } else if kind == 9 {
        if bytes.len() - pos < 33 {
            return None;
        }
        let (id, at) = match read_id(bytes, pos + 1) {
            Some(found) => found,
            None => {
                return None;
            },
        };
        assert(id@ =~= tail.subrange(1, 33));
        Some((Ty::Optional(SemId::from_byte_array(id)), pos + 33))
    } else if kind == 10 {
        if bytes.len() - pos < 33 {
            return None;
        }
        let (id, at) = match read_id(bytes, pos + 1) {
            Some(found) => found,
            None => {
                return None;
            },
        };
        assert(id@ =~= tail.subrange(1, 33));
        Some((Ty::Recursive(SemId::from_byte_array(id)), pos + 33))
    } else {
        None
    }
}

/// A type of a type system with its identity.
pub struct EntryView {
    pub id: Seq<u8>,
    pub ty: TyView<Seq<u8>>,
}

/// A type system as it is read: the identities of its libraries, and its
/// types with their identities, both in ascending order.
pub struct SystemView {
    pub libs: Seq<Seq<u8>>,
    pub entries: Seq<EntryView>,
}

/// The canonical bytes of one type of a system: its identity and the type.
pub open spec fn encode_entry(entry: EntryView) -> Seq<u8> {
    entry.id + encode_ty(entry.ty)
}

/// The type of a system that `bytes` start with: its identity and the type.
pub open spec fn parse_entry(bytes: Seq<u8>) -> Option<(EntryView, int)> {
    if bytes.len() >= 32 {
        match parse_ty(bytes.skip(32)) {
            Some((ty, used)) => Some((EntryView { id: bytes.take(32), ty }, 32 + used)),
            None => None,
        }
    } else {
        None
    }
}

/// How a type of a system is written.
pub open spec fn entry_writer() -> spec_fn(EntryView) -> Seq<u8> {
    |entry: EntryView| encode_entry(entry)
}

/// How a type of a system is read.
pub open spec fn entry_reader() -> spec_fn(Seq<u8>) -> Option<(EntryView, int)> {
    |bytes: Seq<u8>| parse_entry(bytes)
}

/// The identities of `entries`, in their order.
pub open spec fn entry_ids(entries: Seq<EntryView>) -> Seq<Seq<u8>> {
    Seq::new(entries.len(), |i: int| entries[i].id)
}

/// The types of `types` under `row`, each with its identity.
pub open spec fn entry_views(types: Map<Seq<u8>, Ty<SemId>>, row: Seq<Seq<u8>>) -> Seq<EntryView> {
    Seq::new(row.len(), |i: int| EntryView { id: row[i], ty: types[row[i]]@ })
}

/// The type system of the libraries `libs` and the types `types`, as it is
/// read.
pub open spec fn system_view(libs: Seq<Seq<u8>>, types: Map<Seq<u8>, Ty<SemId>>) -> SystemView {
    SystemView { libs, entries: entry_views(types, id_row(types.dom())) }
}

/// The type system that `bytes` are the canonical bytes of: the number of
/// its libraries and their identities, the number of its types and the
/// types with their identities, all of it in ascending order of identities
/// and with no byte left over.
pub open spec fn parse_system(bytes: Seq<u8>) -> Option<SystemView> {
    if bytes.len() > MAX_SIZE {
        None
    } else {
        match parse_u16(bytes) {
            None => None,
            Some((lib_count, _)) => match parse_list(bytes.skip(2), lib_count as nat, id_reader()) {
                None => None,
                Some((libs, used)) => match parse_u24(bytes.skip(2 + used)) {
                    None => None,
                    Some((count, _)) => match parse_list(
                        bytes.skip(5 + used),
                        count,
                        entry_reader(),
                    ) {
                        None => None,
                        Some((entries, more)) => if 5 + used + more == bytes.len() && sorted_ids(
                            libs,
                        ) && sorted_ids(entry_ids(entries)) {
                            Some(SystemView { libs, entries })
                        } else {
                            None
                        },
                    },
                },
            },
        }
    }
}

/// The bytes of the types of a system are those of each, one behind the
/// other.
pub proof fn lemma_entries_concat(types: Map<Seq<u8>, Ty<SemId>>, row: Seq<Seq<u8>>)
    ensures
        encode_entries(types, row) == concat_all(entry_views(types, row).map_values(entry_writer())),
    decreases row.len(),
{
    if row.len() > 0 {
        lemma_entries_concat(types, row.drop_last());
        let parts = entry_views(types, row).map_values(entry_writer());
        assert(parts.drop_last() =~= entry_views(types, row.drop_last()).map_values(entry_writer()));
        assert(parts.last() =~= row.last() + encode_ty(types[row.last()]@));
        assert(encode_entries(types, row) =~= concat_all(parts));
    }
}

/// A type of a system read back is the one that was written.
pub proof fn lemma_parse_entry(entry: EntryView, rest: Seq<u8>)
    requires
        entry.id.len() == 32,
        ty_ok(entry.ty),
    ensures
        parse_entry(encode_entry(entry) + rest) == Some((entry, encode_entry(entry).len() as int)),
{
    let bytes = encode_entry(entry) + rest;
    assert(bytes.take(32) =~= entry.id);
    assert(bytes.skip(32) =~= encode_ty(entry.ty) + rest);
    lemma_parse_ty(entry.ty, rest);
}

/// A type system read back from its canonical bytes is the one that was
/// written: with the same libraries and the same types under the same
/// identities.
pub proof fn lemma_decode_encode(libs: Seq<Seq<u8>>, types: Map<Seq<u8>, Ty<SemId>>)
    requires
        sorted_ids(libs),
        libs.len() <= MAX_LIBS,
        lists_keys(types, id_row(types.dom())),
        all_ok(types),
        system_bytes(libs, types).len() <= MAX_SIZE,
    ensures
        parse_system(system_bytes(libs, types)) == Some(system_view(libs, types)),
{
    let row = id_row(types.dom());
    let entries = entry_views(types, row);
    let bytes = system_bytes(libs, types);
    let lib_bytes = encode_members(libs);
    let entry_bytes = encode_entries(types, row);
    let count_bytes = encode_u24(row.len());
    // the count of the types is less than 2^24, as each of them takes 32 bytes at least
    assert(bytes.len() == 2 + lib_bytes.len() + 3 + entry_bytes.len());
    lemma_entries_concat(types, row);
    lemma_entries_len(entries);
    assert(row.len() < 0x1000000);
    // the libraries
    let after_count = lib_bytes + (count_bytes + entry_bytes);
    assert(bytes =~= encode_u16(libs.len() as u16) + after_count);
    lemma_parse_u16(libs.len() as u16, after_count);
    assert(bytes.skip(2) =~= after_count);
    lemma_members_concat(libs);
    assert forall|i: int, tail: Seq<u8>| 0 <= i < libs.len() implies #[trigger] id_reader()(
        id_writer()(libs[i]) + tail,
    ) == Some((libs[i], id_writer()(libs[i]).len() as int)) by {
        lemma_parse_id(libs[i], tail);
    }
    lemma_parse_list(libs, id_writer(), id_reader(), count_bytes + entry_bytes);
    let used = lib_bytes.len() as int;
    // the types
    assert(bytes.skip(2 + used) =~= count_bytes + entry_bytes);
    lemma_parse_u24(row.len(), entry_bytes);
    assert(bytes.skip(5 + used) =~= entry_bytes + Seq::<u8>::empty());
    assert forall|i: int, tail: Seq<u8>| 0 <= i < entries.len() implies #[trigger] entry_reader()(
        entry_writer()(entries[i]) + tail,
    ) == Some((entries[i], entry_writer()(entries[i]).len() as int)) by {
        assert(entries[i].id == row[i]);
        assert(row.to_set().contains(row[i]));
        assert(ty_ok(types[row[i]]@));
        lemma_parse_entry(entries[i], tail);
    }
    lemma_parse_list(entries, entry_writer(), entry_reader(), Seq::<u8>::empty());
    assert(entry_ids(entries) =~= row);
}

/// The types of a system take 32 bytes each at least.
pub proof fn lemma_entries_len(entries: Seq<EntryView>)
    requires
        forall|i: int| 0 <= i < entries.len() ==> (#[trigger] entries[i]).id.len() == 32,
    ensures
        concat_all(entries.map_values(entry_writer())).len() >= 32 * entries.len(),
    decreases entries.len(),
{
    if entries.len() > 0 {
        let front = entries.drop_last();
        assert forall|i: int| 0 <= i < front.len() implies (#[trigger] front[i]).id.len() == 32 by {
            assert(front[i] == entries[i]);
        }
        lemma_entries_len(front);
        assert(entries.map_values(entry_writer()).drop_last() =~= front.map_values(entry_writer()));
    }
}

/// Identities of which each comes before the next are in ascending order.
pub proof fn lemma_ascending(ids: Seq<Seq<u8>>)
    requires
        forall|i: int| 0 <= i < ids.len() ==> (#[trigger] ids[i]).len() == 32,
        forall|i: int| 0 <= i < ids.len() - 1 ==> lex_lt(#[trigger] ids[i], ids[i + 1]),
    ensures
        sorted_ids(ids),
    decreases ids.len(),
{
    if ids.len() > 1 {
        let front = ids.drop_last();
        assert forall|i: int| 0 <= i < front.len() - 1 implies lex_lt(
            #[trigger] front[i],
            front[i + 1],
        ) by {
            assert(lex_lt(ids[i], ids[i + 1]));
        }
        lemma_ascending(front);
        assert forall|i: int, j: int| 0 <= i < j < ids.len() implies lex_lt(
            #[trigger] ids[i],
            #[trigger] ids[j],
        ) by {
            if j < ids.len() - 1 {
                assert(lex_lt(front[i], front[j]));
            } else if i < ids.len() - 2 {
                assert(lex_lt(front[i], front[ids.len() - 2]));
                assert(lex_lt(ids[ids.len() - 2], ids[ids.len() - 2 + 1]));
                lemma_lex_transitive(ids[i], ids[ids.len() - 2], ids[j]);
            } else {
                assert(lex_lt(ids[i], ids[i + 1]));
            }
        }
    }
}

/// Why bytes are not the canonical bytes of a type system.
#[derive(Copy, Clone, PartialEq, Eq, Structural, Hash, Debug)]
pub enum DecodeError {
    /// The bytes are cut short, hold what the format does not know, are
    /// not in ascending order of identities, or go on behind the last type.
    Malformed,
    /// The bytes hold types that refer to a type that is not among them.
    Incomplete,
    /// The types that the bytes hold break a bound of the type system.
    Bound(BoundError),
}

impl TypeSystem {
    /// The type system that `bytes` are the canonical bytes of. Bytes that
    /// are read as types of which one refers to a type that is not among
    /// them, or as types that break a bound, make no type system either.
    pub fn deserialize(bytes: &[u8]) -> (res: Result<TypeSystem, DecodeError>)
        ensures
            match res {
                Ok(sys) => {
                    &&& sys.is_closed()
                    &&& lists_keys(sys.types(), sys.sem_ids())
                    &&& parse_system(bytes@) == Some(system_view(sys.lib_ids(), sys.types()))
                },
                Err(DecodeError::Malformed) => parse_system(bytes@) is None,
                Err(DecodeError::Incomplete) => exists|sys: TypeSystem|
                    #![trigger sys.types()]
                    {
                        &&& sys.wf()
                        &&& lists_keys(sys.types(), sys.sem_ids())
                        &&& parse_system(bytes@) == Some(system_view(sys.lib_ids(), sys.types()))
                        &&& !crate::typesys::complete(sys.types())
                    },
                Err(DecodeError::Bound(e)) => exists|sys: TypeSystem|
                    #![trigger sys.types()]
                    {
                        &&& sys.wf()
                        &&& lists_keys(sys.types(), sys.sem_ids())
                        &&& parse_system(bytes@) == Some(system_view(sys.lib_ids(), sys.types()))
                        &&& crate::typesys::complete(sys.types())
                        &&& crate::typesys::broken_bound(sys.lib_ids(), sys.types()) == Some(e)
                    },
            },
    {
        if bytes.len() > MAX_SIZE {
            return Err(DecodeError::Malformed);
        }
        assert(bytes@.skip(0) =~= bytes@);
        let (lib_count, at) = match read_u16(bytes, 0) {
            Some(found) => found,
            None => {
                return Err(DecodeError::Malformed);
            },
        };
        let (lib_ids, at) = match read_ids(bytes, 2, lib_count as usize) {
            Some(found) => found,
            None => {
                return Err(DecodeError::Malformed);
            },
        };
        let ghost libs_read = member_views(lib_ids@);
        let ghost used = at - 2;
        // the libraries come in ascending order
        let mut libs: Vec<TypeLibId> = Vec::new();
        let mut i: usize = 0;
        while i < lib_ids.len()
            invariant
                0 <= i <= lib_ids.len(),
                libs_read == member_views(lib_ids@),
                libs@.len() == i,
                forall|j: int| 0 <= j < i ==> (#[trigger] libs@[j])@ == libs_read[j],
                forall|j: int| 0 <= j < i ==> (#[trigger] libs_read[j]).len() == 32,
                forall|j: int| 0 <= j < i - 1 ==> lex_lt(#[trigger] libs_read[j], libs_read[j + 1]),
                parse_list(bytes@.skip(2), lib_count as nat, id_reader()) == Some((libs_read, used)),
                parse_u16(bytes@) == Some((lib_count, 2int)),
                bytes@.len() <= MAX_SIZE,
            decreases lib_ids.len() - i,
        {
            let raw = lib_ids[i].to_byte_array();
            let lib = TypeLibId::from_byte_array(raw);
            if i > 0 {
                if !libs[i - 1].before(&lib) {
                    assert(libs_read[i as int] == lib@);
                    assert(libs_read[i - 1] == libs@[i - 1]@);
                    assert(!lex_lt(libs_read[i - 1], libs_read[i as int]));
                    assert(!sorted_ids(libs_read));
                    return Err(DecodeError::Malformed);
                }
            }
            libs.push(lib);
            i = i + 1;
        }
        proof {
            lemma_ascending(libs_read);
            assert(lib_views(libs@) =~= libs_read);
            lemma_members_concat_len(bytes@.skip(2), lib_count as nat, libs_read, used);
        }
        let (count, start) = match read_u24(bytes, at) {
            Some(found) => found,
            None => {
                return Err(DecodeError::Malformed);
            },
        };
        assert(bytes@.skip(2 + used) =~= bytes@.skip(at as int));
        let ghost whole = parse_list(bytes@.skip(start as int), count as nat, entry_reader());
        let mut types = TypeMap::new();
        let mut pos = start;
        let mut k: usize = 0;
        let ghost mut done: Seq<EntryView> = Seq::empty();
        let mut last = [0u8; 32];
        proof {
            let rest = parse_list(bytes@.skip(pos as int), count as nat, entry_reader());
            if let Some((items, more)) = rest {
                assert(done + items =~= items);
            }
            assert(entry_ids(done) =~= Seq::<Seq<u8>>::empty());
            assert(entry_ids(done).to_set() =~= type_map(types).dom());
        }
        while k < (count as usize)
            invariant
                k <= count,
                count <= 0xFFFFFF,
                start <= pos <= bytes.len(),
                bytes@.len() <= MAX_SIZE,
                start == 5 + used,
                parse_u16(bytes@) == Some((lib_count, 2int)),
                parse_list(bytes@.skip(2), lib_count as nat, id_reader()) == Some((libs_read, used)),
                parse_u24(bytes@.skip(2 + used)) == Some((count as nat, 3int)),
                whole == parse_list(bytes@.skip(start as int), count as nat, entry_reader()),
                continues(
                    whole,
                    done,
                    pos - start,
                    parse_list(bytes@.skip(pos as int), (count - k) as nat, entry_reader()),
                ),
                done.len() == k,
                sorted_ids(entry_ids(done)),
                k > 0 ==> last@ == done[k - 1].id,
                type_map(types).dom() == entry_ids(done).to_set(),
                forall|j: int| 0 <= j < k ==> (#[trigger] type_map(types)[done[j].id])@ == done[j].ty,
            decreases count - k,
        {
            let ghost rest = bytes@.skip(pos as int);
            let ghost before = type_map(types);
            let (id, at) = match read_id(bytes, pos) {
                Some(found) => found,
                None => {
                    assert(parse_entry(rest) is None);
                    assert(entry_reader()(rest) == parse_entry(rest));
                    return Err(DecodeError::Malformed);
                },
            };
            assert(rest.skip(32) =~= bytes@.skip(at as int));
            let (ty, next) = match read_ty(bytes, at) {
                Some(found) => found,
                None => {
                    assert(entry_reader()(rest) == parse_entry(rest));
                    return Err(DecodeError::Malformed);
                },
            };
            let ghost entry = EntryView { id: id@, ty: ty@ };
            proof {
                assert(entry_reader()(rest) == parse_entry(rest));
                assert(parse_entry(rest) == Some((entry, next - pos)));
                assert(rest.skip(next - pos) =~= bytes@.skip(next as int));
                let tail = parse_list(
                    bytes@.skip(next as int),
                    (count - k - 1) as nat,
                    entry_reader(),
                );
                if let Some((items, more)) = tail {
                    assert(done.push(entry) + items =~= done + (seq![entry] + items));
                }
            }
            let ghost longer = done.push(entry);
            if k > 0 && !crate::id::bytes32_lt(&last, &id) {
                proof {
                    // whatever follows, the identities read so far are not in ascending order
                    if let Some(view) = parse_system(bytes@) {
                        let all = view.entries;
                        let tail = parse_list(
                            bytes@.skip(next as int),
                            (count - k - 1) as nat,
                            entry_reader(),
                        );
                        assert(whole == Some((all, bytes@.len() - start)));
                        let items = tail->Some_0.0;
                        assert(all =~= longer + items);
                        assert(entry_ids(all)[k - 1] == last@);
                        assert(entry_ids(all)[k as int] == id@);
                        assert(lex_lt(entry_ids(all)[k - 1], entry_ids(all)[k as int]));
                    }
                }
                return Err(DecodeError::Malformed);
            }
            proof {
                // the identity is new: it comes behind all that were read
                assert(entry_ids(longer) =~= entry_ids(done).push(id@));
                assert forall|i: int, j: int| 0 <= i < j < longer.len() implies lex_lt(
                    #[trigger] entry_ids(longer)[i],
                    #[trigger] entry_ids(longer)[j],
                ) by {
                    if j < k {
                        assert(lex_lt(entry_ids(done)[i], entry_ids(done)[j]));
                    } else if i < k - 1 {
                        assert(lex_lt(entry_ids(done)[i], entry_ids(done)[k - 1]));
                        lemma_lex_transitive(entry_ids(done)[i], last@, id@);
                    }
                }
                assert forall|i: int| 0 <= i < longer.len() implies (#[trigger] entry_ids(
                    longer,
                )[i]).len() == 32 by {
                    if i < k {
                        assert(entry_ids(done)[i].len() == 32);
                    }
                }
                assert(!before.dom().contains(id@)) by {
                    if before.dom().contains(id@) {
                        let i = choose|i: int|
                            0 <= i < entry_ids(done).len() && entry_ids(done)[i] == id@;
                        assert(lex_lt(entry_ids(longer)[i], entry_ids(longer)[k as int]));
                        crate::id::lemma_lex_irreflexive(id@);
                    }
                }
                entry_ids(done).lemma_cardinality_of_set();
            }
            // there is room: fewer types are there than three bytes can count
            match types.insert(id, ty) {
                Ok(_) => {},
                Err(_) => vstd::pervasive::unreached(),
            }
            proof {
                assert(type_map(types).dom() =~= entry_ids(longer).to_set()) by {
                    assert forall|v: Seq<u8>| type_map(types).dom().contains(v) <==> entry_ids(
                        longer,
                    ).to_set().contains(v) by {
                        if entry_ids(longer).to_set().contains(v) {
                            let i = choose|i: int|
                                0 <= i < entry_ids(longer).len() && entry_ids(longer)[i] == v;
                            if i < k {
                                assert(entry_ids(done)[i] == v);
                                assert(entry_ids(done).to_set().contains(v));
                            }
                        }
                        if before.dom().contains(v) {
                            let i = choose|i: int|
                                0 <= i < entry_ids(done).len() && entry_ids(done)[i] == v;
                            assert(entry_ids(longer)[i] == v);
                        }
                        if v == id@ {
                            assert(entry_ids(longer)[k as int] == v);
                        }
                    }
                }
                assert forall|j: int| 0 <= j < k + 1 implies (#[trigger] type_map(
                    types,
                )[longer[j].id])@ == longer[j].ty by {
                    if j < k {
                        assert(before[done[j].id]@ == done[j].ty);
                        assert(entry_ids(done)[j] == done[j].id);
                        assert(before.dom().contains(done[j].id));
                    }
                }
                done = longer;
            }
            last = id;
            pos = next;
            k = k + 1;
        }
        proof {
            assert(done + Seq::<EntryView>::empty() =~= done);
            assert(bytes@.skip(2 + used) =~= bytes@.skip(at as int));
            assert(bytes@.skip(5 + used) =~= bytes@.skip(start as int));
        }
        if pos != bytes.len() {
            return Err(DecodeError::Malformed);
        }
        let sys = TypeSystem::from_parts(libs, types);
        proof {
            let row = id_row(sys.types().dom());
            lemma_sorted_unique(entry_ids(done), row);
            assert(entry_views(sys.types(), row) =~= done);
        }
        let missing = sys.dangling_refs();
        // what was read is the system that the errors speak of
        let ghost read = sys.types();
        if missing.len() > 0 {
            return Err(DecodeError::Incomplete);
        }
        match sys.serialize() {
            Ok(_) => {},
            Err(e) => {
                return Err(DecodeError::Bound(e));
            },
        }
        Ok(sys)
    }
}

/// Identities that were read took 32 bytes each, and there are as many as
/// were asked for.
pub proof fn lemma_members_concat_len(bytes: Seq<u8>, count: nat, ids: Seq<Seq<u8>>, used: int)
    requires
        parse_list(bytes, count, id_reader()) == Some((ids, used)),
    ensures
        ids.len() == count,
        used == 32 * count,
        forall|i: int| 0 <= i < ids.len() ==> (#[trigger] ids[i]).len() == 32,
    decreases count,
{
    if count > 0 {
        let (first, taken) = id_reader()(bytes)->Some_0;
        let (others, more) = parse_list(bytes.skip(taken), (count - 1) as nat, id_reader())->Some_0;
        lemma_members_concat_len(bytes.skip(taken), (count - 1) as nat, others, more);
        assert(ids =~= seq![first] + others);
    }
}

/// A closed type system read back from its canonical bytes is the system
/// itself: with the same libraries, and the same types under the same
/// identities.
pub proof fn lemma_closed_roundtrip(sys: TypeSystem)
    requires
        sys.is_closed(),
    ensures
        parse_system(sys.spec_bytes()) == Some(system_view(sys.lib_ids(), sys.types())),
{
    sys.lemma_libs_in_order();
    lemma_decode_encode(sys.lib_ids(), sys.types());
}

/// Type systems that read the same are the same: they name the same
/// libraries, hold types of the same structure under the same identities,
/// and have the same identity.
pub proof fn lemma_same_system(a: TypeSystem, b: TypeSystem)
    requires
        lists_keys(a.types(), a.sem_ids()),
        lists_keys(b.types(), b.sem_ids()),
        system_view(a.lib_ids(), a.types()) == system_view(b.lib_ids(), b.types()),
    ensures
        a.lib_ids() == b.lib_ids(),
        a.types().dom() == b.types().dom(),
        forall|id: Seq<u8>| a.types().dom().contains(id) ==> (#[trigger] a.types()[id])@ == b.types()[id]@,
        a.spec_id() == b.spec_id(),
{
    let row_a = a.sem_ids();
    let row_b = b.sem_ids();
    let entries_a = entry_views(a.types(), row_a);
    let entries_b = entry_views(b.types(), row_b);
    assert(entry_ids(entries_a) =~= row_a);
    assert(entry_ids(entries_b) =~= row_b);
    assert(row_a == row_b);
    assert(a.types().dom() =~= b.types().dom());
    assert forall|id: Seq<u8>| a.types().dom().contains(id) implies (#[trigger] a.types()[id])@
        == b.types()[id]@ by {
        assert(row_a.to_set().contains(id));
        let i = choose|i: int| 0 <= i < row_a.len() && row_a[i] == id;
        assert(entries_a[i].ty == a.types()[row_a[i]]@);
        assert(entries_b[i].ty == b.types()[row_b[i]]@);
    }
}

} // verus!
