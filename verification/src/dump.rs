//! Type systems as text: the listing of their types, and their canonical
//! bytes in Base64 between two marker lines.

use base64::Engine;
use vstd::prelude::*;
use vstd::string::*;
use crate::id::{baid58_value, short_text, urn_text, SemId, LIB_ID_HRI, SEM_ID_HRI, TYPESYS_ID_HRI};
use crate::typelib::TypeLib;
use crate::text::{decimal, push_decimal, sizing_text};
use crate::ty::{Alternative, AlternativeView, Field, FieldView, Ty, TyView, Variant, VariantView};
use crate::typesys::{all_wf, id_row, id_views, lists_keys, system_bytes, BoundError, TypeSystem};
use crate::typesys::MAX_SIZE;

verus! {

/// The text in which the `STANDARD` engine of `base64` writes `data`.
pub uninterp spec fn base64_text(data: Seq<u8>) -> Seq<char>;

/// `Engine::encode` of the `STANDARD` engine of `base64`: `data` in Base64,
/// with the standard alphabet and with padding, all of whose characters
/// are ASCII.
#[verifier::external_body]
fn base64_encode(data: &[u8]) -> (res: String)
    ensures
        res@ == base64_text(data@),
        vstd::utf8::is_ascii_chars(res@),
{
    base64::engine::general_purpose::STANDARD.encode(data)
}

/// A reference within a type expression: the payload of the identity in
/// Base58.
pub open spec fn ref_text(id: Seq<u8>) -> Seq<char> {
    baid58_value(SEM_ID_HRI@, id)
}

/// The variants of an enumeration: each as `name=tag`, with ` | ` between
/// them.
pub open spec fn variants_text(variants: Seq<VariantView>) -> Seq<char>
    decreases variants.len(),
{
    if variants.len() == 0 {
        Seq::empty()
    } else {
        let last = variants.last().name + "="@ + decimal(variants.last().tag as nat);
        if variants.len() == 1 {
            last
        } else {
            variants_text(variants.drop_last()) + " | "@ + last
        }
    }
}

/// The alternatives of a union: each as `name=tag type`, with ` | ` between
/// them.
pub open spec fn alternatives_text(alts: Seq<AlternativeView<Seq<u8>>>) -> Seq<char>
    decreases alts.len(),
{
    if alts.len() == 0 {
        Seq::empty()
    } else {
        let last = alts.last().name + "="@ + decimal(alts.last().tag as nat) + " "@ + ref_text(
            alts.last().ty,
        );
        if alts.len() == 1 {
            last
        } else {
            alternatives_text(alts.drop_last()) + " | "@ + last
        }
    }
}

/// The members of a tuple, with `, ` between them.
pub open spec fn members_text(members: Seq<Seq<u8>>) -> Seq<char>
    decreases members.len(),
{
    if members.len() == 0 {
        Seq::empty()
    } else if members.len() == 1 {
        ref_text(members.last())
    } else {
        members_text(members.drop_last()) + ", "@ + ref_text(members.last())
    }
}

/// The fields of a structure: each as `name type`, with `, ` between them.
pub open spec fn fields_text(fields: Seq<FieldView<Seq<u8>>>) -> Seq<char>
    decreases fields.len(),
{
    if fields.len() == 0 {
        Seq::empty()
    } else {
        let last = fields.last().name + " "@ + ref_text(fields.last().ty);
        if fields.len() == 1 {
            last
        } else {
            fields_text(fields.drop_last()) + ", "@ + last
        }
    }
}

/// A compiled type as an expression.
pub open spec fn ty_text(ty: TyView<Seq<u8>>) -> Seq<char> {
    match ty {
        TyView::Primitive(code) => "#"@ + decimal(code as nat),
        TyView::Enum(variants) => "("@ + variants_text(variants) + ")"@,
        TyView::Union(alts) => "("@ + alternatives_text(alts) + ")"@,
        TyView::Tuple(members) => "("@ + members_text(members) + ")"@,
        TyView::Struct(fields) => "("@ + fields_text(fields) + ")"@,
        TyView::Array(item, len) => "["@ + ref_text(item) + " ^ "@ + decimal(len as nat) + "]"@,
        TyView::List(item, sizing) => "["@ + ref_text(item) + sizing_text(sizing) + "]"@,
        TyView::SetOf(item, sizing) => "{"@ + ref_text(item) + sizing_text(sizing) + "}"@,
        TyView::MapOf(key, value, sizing) => "{"@ + ref_text(key) + " -> "@ + ref_text(value)
            + sizing_text(sizing) + "}"@,
        TyView::Optional(item) => ref_text(item) + "?"@,
        TyView::Recursive(link) => "&"@ + ref_text(link),
    }
}

fn push_ref(out: &mut String, id: &SemId)
    ensures
        final(out)@ == old(out)@ + ref_text(id@),
{
    let text = id.to_value_string();
    out.append(text.as_str());
}

impl Ty<SemId> {
    /// The type as an expression.
    pub fn to_string(&self) -> (res: String)
        ensures
            res@ == ty_text(self@),
    {
        let mut out = String::new();
        match self {
            Ty::Primitive(code) => {
                out.append("#");
                push_decimal(&mut out, *code as u64);
            },
            Ty::Enum(variants) => {
                out.append("(");
                let ghost head = out@;
                let ghost views = variants@.map_values(|v: Variant| v@);
                let mut i: usize = 0;
                while i < variants.len()
                    invariant
                        0 <= i <= variants.len(),
                        views == variants@.map_values(|v: Variant| v@),
                        out@ == head + variants_text(views.take(i as int)),
                    decreases variants.len() - i,
                {
                    assert(views.take(i + 1).drop_last() =~= views.take(i as int));
                    if i > 0 {
                        out.append(" | ");
                    }
                    out.append(variants[i].name.as_str());
                    out.append("=");
                    push_decimal(&mut out, variants[i].tag as u64);
                    assert(out@ =~= head + variants_text(views.take(i + 1)));
                    i = i + 1;
                }
                assert(views.take(i as int) =~= views);
                out.append(")");
            },
            Ty::Union(alts) => {
                out.append("(");
                let ghost head = out@;
                let ghost views = alts@.map_values(|a: Alternative<SemId>| a@);
                let mut i: usize = 0;
                while i < alts.len()
                    invariant
                        0 <= i <= alts.len(),
                        views == alts@.map_values(|a: Alternative<SemId>| a@),
                        out@ == head + alternatives_text(views.take(i as int)),
                    decreases alts.len() - i,
                {
                    assert(views.take(i + 1).drop_last() =~= views.take(i as int));
                    if i > 0 {
                        out.append(" | ");
                    }
                    out.append(alts[i].name.as_str());
                    out.append("=");
                    push_decimal(&mut out, alts[i].tag as u64);
                    out.append(" ");
                    push_ref(&mut out, &alts[i].ty);
                    assert(out@ =~= head + alternatives_text(views.take(i + 1)));
                    i = i + 1;
                }
                assert(views.take(i as int) =~= views);
                out.append(")");
            },
            Ty::Tuple(members) => {
                out.append("(");
                let ghost head = out@;
                let ghost views = members@.map_values(|m: SemId| m@);
                let mut i: usize = 0;
                while i < members.len()
                    invariant
                        0 <= i <= members.len(),
                        views == members@.map_values(|m: SemId| m@),
                        out@ == head + members_text(views.take(i as int)),
                    decreases members.len() - i,
                {
                    assert(views.take(i + 1).drop_last() =~= views.take(i as int));
                    if i > 0 {
                        out.append(", ");
                    }
                    push_ref(&mut out, &members[i]);
                    assert(out@ =~= head + members_text(views.take(i + 1)));
                    i = i + 1;
                }
                assert(views.take(i as int) =~= views);
                out.append(")");
            },
            Ty::Struct(fields) => {
                out.append("(");
                let ghost head = out@;
                let ghost views = fields@.map_values(|f: Field<SemId>| f@);
                let mut i: usize = 0;
                while i < fields.len()
                    invariant
                        0 <= i <= fields.len(),
                        views == fields@.map_values(|f: Field<SemId>| f@),
                        out@ == head + fields_text(views.take(i as int)),
                    decreases fields.len() - i,
                {
                    assert(views.take(i + 1).drop_last() =~= views.take(i as int));
                    if i > 0 {
                        out.append(", ");
                    }
                    out.append(fields[i].name.as_str());
                    out.append(" ");
                    push_ref(&mut out, &fields[i].ty);
                    assert(out@ =~= head + fields_text(views.take(i + 1)));
                    i = i + 1;
                }
                assert(views.take(i as int) =~= views);
                out.append(")");
            },
            Ty::Array(item, len) => {
                out.append("[");
                push_ref(&mut out, item);
                out.append(" ^ ");
                push_decimal(&mut out, *len as u64);
                out.append("]");
            },
            Ty::List(item, sizing) => {
                out.append("[");
                push_ref(&mut out, item);
                let bounds = sizing.to_string();
                out.append(bounds.as_str());
                out.append("]");
            },
            Ty::SetOf(item, sizing) => {
                out.append("{");
                push_ref(&mut out, item);
                let bounds = sizing.to_string();
                out.append(bounds.as_str());
                out.append("}");
            },
            Ty::MapOf(key, value, sizing) => {
                out.append("{");
                push_ref(&mut out, key);
                out.append(" -> ");
                push_ref(&mut out, value);
                let bounds = sizing.to_string();
                out.append(bounds.as_str());
                out.append("}");
            },
            Ty::Optional(item) => {
                push_ref(&mut out, item);
                out.append("?");
            },
            Ty::Recursive(link) => {
                out.append("&");
                push_ref(&mut out, link);
            },
        }
        assert(out@ =~= ty_text(self@));
        out
    }
}

/// The lines of the types under `row`: for each, `data`, its identity in
/// short, ` :: ` and the type as an expression.
pub open spec fn data_lines(types: Map<Seq<u8>, Ty<SemId>>, row: Seq<Seq<u8>>) -> Seq<char>
    decreases row.len(),
{
    if row.len() == 0 {
        Seq::empty()
    } else {
        data_lines(types, row.drop_last()) + "data "@ + short_text(SEM_ID_HRI@, row.last())
            + " :: "@ + ty_text(types[row.last()]@) + "\n"@
    }
}

/// The listing of a type system: a line with its identity, an empty line,
/// and a line for each of its types, in ascending order of their identities.
pub open spec fn listing(id: Seq<u8>, types: Map<Seq<u8>, Ty<SemId>>) -> Seq<char> {
    "typesys -- "@ + urn_text(TYPESYS_ID_HRI@, id) + "\n\n"@ + data_lines(
        types,
        id_row(types.dom()),
    )
}

/// The number of characters in a full line of the armoured form.
pub const ARMOR_WIDTH: usize = 64;

/// `text` cut into lines of `ARMOR_WIDTH` characters, each closed by a line
/// feed: every line but the last is full, and the last is shorter, be it
/// empty.
pub open spec fn cut_lines(text: Seq<char>) -> Seq<char>
    decreases text.len(),
{
    if text.len() >= ARMOR_WIDTH {
        text.take(ARMOR_WIDTH as int) + "\n"@ + cut_lines(text.skip(ARMOR_WIDTH as int))
    } else {
        text + "\n"@
    }
}

/// The whole of `data` in Base64, cut into lines of 64 characters, the last
/// one shorter, be it empty.
pub open spec fn armor_lines(data: Seq<u8>) -> Seq<char> {
    cut_lines(base64_text(data))
}

/// The armoured form of a type system: a line that opens it, a line with
/// its identity in short, an empty line, its canonical bytes in Base64, an
/// empty line and a line that closes it.
pub open spec fn armored(id: Seq<u8>, bytes: Seq<u8>) -> Seq<char> {
    "-----BEGIN STRICT TYPE SYSTEM-----\n"@ + "Id: "@ + short_text(TYPESYS_ID_HRI@, id) + "\n\n"@
        + armor_lines(bytes) + "\n-----END STRICT TYPE SYSTEM-----\n"@
}

/// Appends to `out` the text `text` cut into lines of 64 characters, the
/// last one shorter.
fn push_cut_lines(out: &mut String, text: &str)
    requires
        vstd::utf8::is_ascii_chars(text@),
    ensures
        final(out)@ == old(out)@ + cut_lines(text@),
{
    let len = text.unicode_len();
    let mut from: usize = 0;
    assert(text@.skip(0) =~= text@);
    while len - from >= ARMOR_WIDTH
        invariant
            0 <= from <= len,
            len == text@.len(),
            vstd::utf8::is_ascii_chars(text@),
            old(out)@ + cut_lines(text@) == out@ + cut_lines(text@.skip(from as int)),
        decreases len - from,
    {
        let ghost rest = text@.skip(from as int);
        let line = text.substring_ascii(from, from + ARMOR_WIDTH);
        assert(line@ =~= rest.take(ARMOR_WIDTH as int));
        assert(rest.skip(ARMOR_WIDTH as int) =~= text@.skip(from + ARMOR_WIDTH));
        out.append(line);
        out.append("\n");
        from = from + ARMOR_WIDTH;
        assert(old(out)@ + cut_lines(text@) =~= out@ + cut_lines(text@.skip(from as int)));
    }
    let last = text.substring_ascii(from, len);
    assert(last@ =~= text@.skip(from as int));
    out.append(last);
    out.append("\n");
    assert(old(out)@ + cut_lines(text@) =~= out@);
}

/// Appends to `out` the whole of `data` in Base64, cut into lines of 64
/// characters, the last one shorter.
pub fn push_armor_lines(out: &mut String, data: &[u8])
    ensures
        final(out)@ == old(out)@ + armor_lines(data@),
{
    let text = base64_encode(data);
    push_cut_lines(out, text.as_str());
}

/// The listing of a library: a line with its name and its identity, an
/// empty line, and a line for each of its types, in ascending order of their
/// identities.
pub open spec fn lib_listing(name: Seq<char>, id: Seq<u8>, types: Map<Seq<u8>, Ty<SemId>>) -> Seq<
    char,
> {
    "typelib "@ + name + " -- "@ + urn_text(LIB_ID_HRI@, id) + "\n\n"@ + data_lines(
        types,
        id_row(types.dom()),
    )
}

impl TypeLib {
    /// The listing of the library: a line with its name and its identity,
    /// an empty line, and a line for each of its types, in ascending order of
    /// their identities.
    pub fn to_string(&self) -> (res: String)
        ensures
            res@ == lib_listing(self.spec_name(), self.spec_id(), self.types()),
    {
        let ghost types = self.types();
        let mut out = String::from_str("typelib ");
        out.append(self.name().as_str());
        out.append(" -- ");
        let id = self.id().to_string();
        out.append(id.as_str());
        out.append("\n\n");
        let ghost head = out@;
        let ids = self.ids();
        let ghost row = id_views(ids@);
        let mut i: usize = 0;
        assert(row.take(0) =~= Seq::<Seq<u8>>::empty());
        assert(out@ =~= head + data_lines(types, row.take(0)));
        while i < ids.len()
            invariant
                0 <= i <= ids.len(),
                types == self.types(),
                row == id_views(ids@),
                lists_keys(types, row),
                out@ == head + data_lines(types, row.take(i as int)),
            decreases ids.len() - i,
        {
            assert(row.take(i + 1).drop_last() =~= row.take(i as int));
            assert(row[i as int] == ids@[i as int]@);
            assert(row.to_set().contains(row[i as int]));
            let ty = match self.get(ids[i]) {
                Some(ty) => ty,
                None => vstd::pervasive::unreached(),
            };
            out.append("data ");
            let short = ids[i].to_short_string();
            out.append(short.as_str());
            out.append(" :: ");
            let expr = ty.to_string();
            out.append(expr.as_str());
            out.append("\n");
            assert(out@ =~= head + data_lines(types, row.take(i + 1)));
            i = i + 1;
        }
        assert(row.take(i as int) =~= row);
        assert(out@ =~= lib_listing(self.spec_name(), self.spec_id(), types));
        out
    }
}

impl TypeSystem {
    /// The listing of the system: a line with its identity, an empty line,
    /// and a line for each of its types, in ascending order of their
    /// identities.
    pub fn to_string(&self) -> (res: String)
        requires
            self.wf(),
        ensures
            res@ == listing(self.spec_id(), self.types()),
    {
        let ghost types = self.types();
        let mut out = String::from_str("typesys -- ");
        let id = self.id().to_string();
        out.append(id.as_str());
        out.append("\n\n");
        let ghost head = out@;
        let ids = self.ids();
        let ghost row = id_views(ids@);
        let mut i: usize = 0;
        while i < ids.len()
            invariant
                0 <= i <= ids.len(),
                types == self.types(),
                row == id_views(ids@),
                lists_keys(types, row),
                out@ == head + data_lines(types, row.take(i as int)),
            decreases ids.len() - i,
        {
            assert(row.take(i + 1).drop_last() =~= row.take(i as int));
            assert(row[i as int] == ids@[i as int]@);
            assert(row.to_set().contains(row[i as int]));
            let ty = self.index(ids[i]);
            out.append("data ");
            let short = ids[i].to_short_string();
            out.append(short.as_str());
            out.append(" :: ");
            let expr = ty.to_string();
            out.append(expr.as_str());
            out.append("\n");
            assert(out@ =~= head + data_lines(types, row.take(i + 1)));
            i = i + 1;
        }
        assert(row.take(i as int) =~= row);
        assert(out@ =~= listing(self.spec_id(), types));
        out
    }

    /// The armoured form of the system: its canonical bytes in Base64
    /// between a line that opens and a line that closes, with its identity.
    /// There is none where the system has no canonical bytes.
    pub fn to_armored(&self) -> (res: Result<String, BoundError>)
        requires
            self.wf(),
        ensures
            match res {
                Ok(text) => {
                    &&& all_wf(self.types())
                    &&& self.spec_bytes().len() <= MAX_SIZE
                    &&& text@ == armored(self.spec_id(), self.spec_bytes())
                },
                Err(BoundError::TooManyMembers) => !all_wf(self.types()),
                Err(BoundError::TooLarge) => {
                    &&& all_wf(self.types())
                    &&& self.spec_bytes().len() > MAX_SIZE
                },
                Err(_) => false,
            },
    {
        let bytes = match self.serialize() {
            Ok(bytes) => bytes,
            Err(e) => {
                return Err(e);
            },
        };
        let mut out = String::from_str("-----BEGIN STRICT TYPE SYSTEM-----\n");
        out.append("Id: ");
        let id = self.id().to_short_string();
        out.append(id.as_str());
        out.append("\n\n");
        push_armor_lines(&mut out, bytes.as_slice());
        out.append("\n-----END STRICT TYPE SYSTEM-----\n");
        assert(out@ =~= armored(self.spec_id(), self.spec_bytes()));
        Ok(out)
    }
}

} // verus!
