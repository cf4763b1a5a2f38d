//! The libraries that come with the crate: `Std`, the enumerations of small
//! numbers and of characters, and `StrictTypes`, the types of this crate.

use strict_encoding::stl::{
    Alpha, AlphaCaps, AlphaCapsNum, AlphaNum, AlphaNumDash, AlphaNumLodash, AlphaSmall,
    AsciiPrintable, AsciiSym, Bool, Dec, HexDecCaps, HexDecSmall, U2, U3, U4, U6, U7,
};
use strict_encoding::{StrictSum, StrictType, U5};
use vstd::prelude::*;
use crate::ty::{Field, Ty, TyView, Variant, VariantView, FieldView};
use crate::typelib::{CompileError, Dependency, LibBuilder, SymbolView, SymbolicLib, TranspileError};
use crate::typelib::{TypeLib, TypeSymbol};
use crate::typesys::{FqnView, TypeFqn};
use crate::util::{is_ident, is_name, Ident, InvalidIdent, MemberName, NameRule, Sizing};

verus! {

/// The name of the library of small numbers and characters.
pub const LIB_NAME_STD: &'static str = "Std";

/// The name of the library of the types of this crate.
pub const LIB_NAME_STRICT_TYPES: &'static str = "StrictTypes";

/// An enumeration as it is declared elsewhere: its name, if it has one, and
/// each variant with the byte that stands for it.
pub struct EnumTable {
    pub name: Option<String>,
    pub variants: Vec<(u8, &'static str)>,
}

/// Why one of the libraries of the crate cannot be built.
#[derive(Clone, Debug)]
pub enum StlError {
    /// An enumeration has no name.
    Unnamed,
    /// A name is none of its kind.
    Name(InvalidIdent),
    /// The declarations make no symbolic library.
    Transpile(TranspileError),
}

/// The variants of a table as the variants of an enumeration type.
pub open spec fn table_variants(variants: Seq<(u8, &'static str)>) -> Seq<VariantView> {
    Seq::new(variants.len(), |k: int| VariantView { name: variants[k].1@, tag: variants[k].0 })
}

/// The table can be declared: it has a name, which is an identifier, and
/// the name of each of its variants is a name for variants.
pub open spec fn table_ok(table: EnumTable) -> bool {
    &&& table.name matches Some(name) && is_ident(name@)
    &&& forall|k: int|
        0 <= k < table.variants@.len() ==> is_name(NameRule::Member, (#[trigger] table.variants@[k]).1@)
}

/// The declaration that a table stands for: an enumeration of its name,
/// with its variants in their order.
pub open spec fn table_symbol(table: EnumTable) -> SymbolView {
    SymbolView { name: table.name->Some_0@, ty: TyView::Enum(table_variants(table.variants@)) }
}

/// The place of the first of `variants`, from `from` on, whose name is no
/// name for variants.
pub open spec fn first_bad_variant(variants: Seq<(u8, &'static str)>, from: int) -> Option<int>
    decreases variants.len() - from,
{
    if from < 0 || from >= variants.len() {
        None
    } else if !is_name(NameRule::Member, variants[from].1@) {
        Some(from)
    } else {
        first_bad_variant(variants, from + 1)
    }
}

/// What is wrong with the first name of a named table that is none of its
/// kind: the name of the table itself, else the names of its variants in
/// their order.
pub open spec fn table_name_fault(table: EnumTable) -> Option<InvalidIdent> {
    match crate::util::check_ident(table.name->Some_0@) {
        Err(e) => Some(e),
        Ok(()) => match first_bad_variant(table.variants@, 0) {
            Some(at) => Some(
                crate::util::check_name(NameRule::Member, table.variants@[at].1@)->Err_0,
            ),
            None => None,
        },
    }
}

/// The declaration that `table` stands for; where the table has no name,
/// or a name in it is none of its kind, what is wrong with the first such
/// name.
pub fn declare_enum(table: &EnumTable) -> (res: Result<TypeSymbol, StlError>)
    ensures
        match res {
            Ok(symbol) => table_ok(*table) && symbol@ == table_symbol(*table),
            Err(StlError::Unnamed) => table.name is None,
            Err(StlError::Name(e)) => {
                &&& !table_ok(*table)
                &&& table.name is Some
                &&& table_name_fault(*table) == Some(e)
            },
            Err(_) => false,
        },
{
    let name = match &table.name {
        Some(name) => match Ident::try_from(name.as_str()) {
            Ok(name) => name,
            Err(e) => {
                proof {
                    crate::util::lemma_check_name(NameRule::Ident, name@);
                }
                return Err(StlError::Name(e));
            },
        },
        None => {
            return Err(StlError::Unnamed);
        },
    };
    let mut variants: Vec<Variant> = Vec::new();
    let mut k: usize = 0;
    while k < table.variants.len()
        invariant
            0 <= k <= table.variants.len(),
            table.name is Some,
            crate::util::check_ident(table.name->Some_0@) is Ok,
            first_bad_variant(table.variants@, 0) == first_bad_variant(table.variants@, k as int),
            variants@.len() == k,
            forall|j: int|
                0 <= j < k ==> (#[trigger] variants@[j])@ == (VariantView {
                    name: table.variants@[j].1@,
                    tag: table.variants@[j].0,
                }),
            forall|j: int|
                0 <= j < k ==> is_name(NameRule::Member, (#[trigger] table.variants@[j]).1@),
        decreases table.variants.len() - k,
    {
        let (tag, text) = table.variants[k];
        match MemberName::try_from(text) {
            Ok(variant) => {
                variants.push(Variant { name: variant, tag });
            },
            Err(e) => {
                proof {
                    crate::util::lemma_check_name(NameRule::Member, text@);
                    assert(!is_name(NameRule::Member, table.variants@[k as int].1@));
                }
                return Err(StlError::Name(e));
            },
        }
        k = k + 1;
    }
    let symbol = TypeSymbol { name, ty: Ty::Enum(variants) };
    assert(symbol@.ty->Enum_0 =~= table_variants(table.variants@));
    Ok(symbol)
}

/// The place of the first of `tables`, from `from` on, that cannot be
/// declared.
pub open spec fn first_bad_table(tables: Seq<EnumTable>, from: int) -> Option<int>
    decreases tables.len() - from,
{
    if from < 0 || from >= tables.len() {
        None
    } else if !table_ok(tables[from]) {
        Some(from)
    } else {
        first_bad_table(tables, from + 1)
    }
}

/// The symbolic library `name` of the enumerations of `tables`, as plain
/// values: it depends on nothing and declares each table in its place.
pub open spec fn enum_lib_view(name: Seq<char>, tables: Seq<EnumTable>) -> crate::typelib::SymbolicView {
    crate::typelib::SymbolicView {
        name,
        dependencies: Seq::empty(),
        types: Seq::new(tables.len(), |i: int| table_symbol(tables[i])),
    }
}

/// The symbolic library `name`, without dependencies, that declares the
/// enumerations of `tables` in their order.
pub fn enum_lib(name: Ident, tables: &Vec<EnumTable>) -> (res: Result<SymbolicLib, StlError>)
    ensures
        match res {
            Ok(lib) => {
                &&& lib@ == enum_lib_view(name@, tables@)
                &&& first_bad_table(tables@, 0) is None
                &&& forall|i: int| 0 <= i < tables@.len() ==> table_ok(#[trigger] tables@[i])
                &&& lib@.first_fault(0) is None
            },
            Err(StlError::Unnamed) => first_bad_table(tables@, 0) matches Some(at)
                && tables@[at].name is None,
            Err(StlError::Name(e)) => first_bad_table(tables@, 0) matches Some(at)
                && tables@[at].name is Some && table_name_fault(tables@[at]) == Some(e),
            Err(StlError::Transpile(e)) => {
                &&& first_bad_table(tables@, 0) is None
                &&& forall|i: int| 0 <= i < tables@.len() ==> table_ok(#[trigger] tables@[i])
                &&& enum_lib_view(name@, tables@).first_fault(0) == Some(e@)
                &&& !(e is UnknownType)
            },
        },
{
    let mut builder = LibBuilder::new(name, Vec::new());
    let mut i: usize = 0;
    while i < tables.len()
        invariant
            0 <= i <= tables.len(),
            builder@.name == name@,
            builder@.dependencies.len() == 0,
            builder@.types.len() == i,
            first_bad_table(tables@, 0) == first_bad_table(tables@, i as int),
            forall|j: int|
                0 <= j < i ==> table_ok(#[trigger] tables@[j]) && builder@.types[j] == table_symbol(
                    tables@[j],
                ),
        decreases tables.len() - i,
    {
        let symbol = match declare_enum(&tables[i]) {
            Ok(symbol) => symbol,
            Err(e) => {
                return Err(e);
            },
        };
        builder = builder.transpile(symbol.name, symbol.ty);
        i = i + 1;
    }
    let ghost sym = builder@;
    proof {
        let view = enum_lib_view(name@, tables@);
        assert(sym.dependencies =~= view.dependencies);
        assert(sym.types =~= view.types);
        assert(sym == view);
    }
    match builder.compile_symbols() {
        Ok(lib) => Ok(lib),
        Err(e) => {
            proof {
                // an enumeration refers to nothing, so no name in it can be unknown
                if e is UnknownType {
                    assert forall|j: int| 0 <= j < sym.types.len() implies (
                    #[trigger] sym.types[j]).ty is Enum by {
                        assert(table_ok(tables@[j]));
                    }
                    lemma_enum_fault(sym, 0);
                }
            }
            Err(StlError::Transpile(e))
        },
    }
}

/// In a library of enumerations no fault is an unknown name.
pub proof fn lemma_enum_fault(sym: crate::typelib::SymbolicView, from: int)
    requires
        0 <= from,
        forall|i: int| 0 <= i < sym.types.len() ==> (#[trigger] sym.types[i]).ty is Enum,
    ensures
        !(sym.first_fault(from) matches Some(crate::typelib::FaultView::UnknownType(_))),
    decreases sym.types.len() - from,
{
    if from < sym.types.len() {
        assert(sym.types[from].ty is Enum);
        assert(sym.types[from].ty.refs().len() == 0);
        lemma_enum_fault(sym, from + 1);
    }
}

/// The variants of the enumeration of the truth values: `false` under 0
/// and `true` under 1.
pub open spec fn bool_row() -> Seq<VariantView> {
    seq![VariantView { name: "false"@, tag: 0 }, VariantView { name: "true"@, tag: 1 }]
}

/// The variants of the enumeration of the numbers below `count`: each
/// number under itself, named `_` and the number in decimal.
pub open spec fn number_row(count: nat) -> Seq<VariantView> {
    Seq::new(
        count,
        |k: int| VariantView { name: "_"@ + crate::text::decimal(k as nat), tag: k as u8 },
    )
}

/// The row holds no more variants than the format can count, each under a
/// name for variants.
pub open spec fn row_ok(row: Seq<VariantView>) -> bool {
    &&& row.len() <= crate::ty::MAX_MEMBERS
    &&& forall|k: int| 0 <= k < row.len() ==> is_name(NameRule::Member, (#[trigger] row[k]).name)
}

/// The table bears the name `name` and has no more variants than the format
/// can count, each under a name for variants.
pub open spec fn declares(table: EnumTable, name: Seq<char>) -> bool {
    &&& table.name matches Some(text) && text@ == name
    &&& table.variants@.len() <= crate::ty::MAX_MEMBERS
    &&& forall|k: int|
        0 <= k < table.variants@.len() ==> is_name(NameRule::Member, (#[trigger] table.variants@[k]).1@)
}

/// The names of the enumerations of the library `Std`, in the order in
/// which it declares them.
pub open spec fn std_table_names() -> Seq<Seq<char>> {
    seq![
        "Bool"@,
        "U2"@,
        "U3"@,
        "U4"@,
        "U5"@,
        "U6"@,
        "U7"@,
        "Ascii"@,
        "AsciiPrintable"@,
        "Alpha"@,
        "AlphaCaps"@,
        "AlphaSmall"@,
        "Dec"@,
        "HexDecCaps"@,
        "HexDecSmall"@,
        "AlphaNum"@,
        "AlphaCapsNum"@,
        "AlphaNumDash"@,
        "AlphaNumLodash"@
    ]
}

/// The symbolic library is the library `Std`: it bears that name, depends
/// on nothing, and declares an enumeration under each name of
/// `std_table_names`, in that order. Each has no more variants than the
/// format can count, under names for variants. The first is that of the
/// truth values; the six after it are those of the numbers of two to seven
/// bits.
pub open spec fn is_std(sym: crate::typelib::SymbolicView) -> bool {
    &&& sym.name == LIB_NAME_STD@
    &&& sym.dependencies.len() == 0
    &&& sym.types.len() == std_table_names().len()
    &&& forall|i: int|
        0 <= i < sym.types.len() ==> {
            &&& (#[trigger] sym.types[i]).name == std_table_names()[i]
            &&& sym.types[i].ty matches TyView::Enum(row) && row_ok(row)
        }
    &&& sym.types[0].ty == TyView::<FqnView>::Enum(bool_row())
    &&& sym.types[1].ty == TyView::<FqnView>::Enum(number_row(4))
    &&& sym.types[2].ty == TyView::<FqnView>::Enum(number_row(8))
    &&& sym.types[3].ty == TyView::<FqnView>::Enum(number_row(16))
    &&& sym.types[4].ty == TyView::<FqnView>::Enum(number_row(32))
    &&& sym.types[5].ty == TyView::<FqnView>::Enum(number_row(64))
    &&& sym.types[6].ty == TyView::<FqnView>::Enum(number_row(128))
}

/// The library `StrictTypes` on top of what the library `std` compiles to,
/// as plain values.
pub open spec fn strict_view(std: crate::typelib::SymbolicView) -> crate::typelib::SymbolicView {
    crate::typelib::SymbolicView {
        name: LIB_NAME_STRICT_TYPES@,
        dependencies: seq![crate::typelib::compiled_dependency(std)],
        types: strict_types_symbols(),
    }
}

/// `StrictType::strict_name` and `StrictSum::ALL_VARIANTS` of
/// `strict_encoding` for its type `Bool`: it is declared as `Bool`, with
/// the variant `false` under 0 and the variant `true` under 1.
#[verifier::external_body]
fn table_bool() -> (res: EnumTable)
    ensures
        declares(res, "Bool"@),
        table_variants(res.variants@) == bool_row(),
{
    EnumTable { name: Bool::strict_name().map(String::from), variants: Bool::ALL_VARIANTS.to_vec() }
}

/// `StrictType::strict_name` and `StrictSum::ALL_VARIANTS` of
/// `strict_encoding` for its type `U2`: it is declared as `U2`, with a
/// variant for each number below 4, under the number and named `_` and
/// the number in decimal.
#[verifier::external_body]
fn table_u2() -> (res: EnumTable)
    ensures
        declares(res, "U2"@),
        table_variants(res.variants@) == number_row(4),
{
    EnumTable { name: U2::strict_name().map(String::from), variants: U2::ALL_VARIANTS.to_vec() }
}

/// `StrictType::strict_name` and `StrictSum::ALL_VARIANTS` of
/// `strict_encoding` for its type `U3`: it is declared as `U3`, with a
/// variant for each number below 8, under the number and named `_` and
/// the number in decimal.
#[verifier::external_body]
fn table_u3() -> (res: EnumTable)
    ensures
        declares(res, "U3"@),
        table_variants(res.variants@) == number_row(8),
{
    EnumTable { name: U3::strict_name().map(String::from), variants: U3::ALL_VARIANTS.to_vec() }
}

/// `StrictType::strict_name` and `StrictSum::ALL_VARIANTS` of
/// `strict_encoding` for its type `U4`: it is declared as `U4`, with a
/// variant for each number below 16, under the number and named `_` and
/// the number in decimal.
#[verifier::external_body]
fn table_u4() -> (res: EnumTable)
    ensures
        declares(res, "U4"@),
        table_variants(res.variants@) == number_row(16),
{
    EnumTable { name: U4::strict_name().map(String::from), variants: U4::ALL_VARIANTS.to_vec() }
}

/// `StrictType::strict_name` and `StrictSum::ALL_VARIANTS` of
/// `strict_encoding` for its type `U5`: it is declared as `U5`, with a
/// variant for each number below 32, under the number and named `_` and
/// the number in decimal.
#[verifier::external_body]
fn table_u5() -> (res: EnumTable)
    ensures
        declares(res, "U5"@),
        table_variants(res.variants@) == number_row(32),
{
    EnumTable { name: U5::strict_name().map(String::from), variants: U5::ALL_VARIANTS.to_vec() }
}

/// `StrictType::strict_name` and `StrictSum::ALL_VARIANTS` of
/// `strict_encoding` for its type `U6`: it is declared as `U6`, with a
/// variant for each number below 64, under the number and named `_` and
/// the number in decimal.
#[verifier::external_body]
fn table_u6() -> (res: EnumTable)
    ensures
        declares(res, "U6"@),
        table_variants(res.variants@) == number_row(64),
{
    EnumTable { name: U6::strict_name().map(String::from), variants: U6::ALL_VARIANTS.to_vec() }
}

/// `StrictType::strict_name` and `StrictSum::ALL_VARIANTS` of
/// `strict_encoding` for its type `U7`: it is declared as `U7`, with a
/// variant for each number below 128, under the number and named `_` and
/// the number in decimal.
#[verifier::external_body]
fn table_u7() -> (res: EnumTable)
    ensures
        declares(res, "U7"@),
        table_variants(res.variants@) == number_row(128),
{
    EnumTable { name: U7::strict_name().map(String::from), variants: U7::ALL_VARIANTS.to_vec() }
}

/// `StrictType::strict_name` and `StrictSum::ALL_VARIANTS` of
/// `strict_encoding` for its type `AsciiSym`: it is declared as `Ascii` and has
/// no more than 255 variants, each under a name for variants.
#[verifier::external_body]
fn table_asciisym() -> (res: EnumTable)
    ensures
        declares(res, "Ascii"@),
{
    EnumTable { name: AsciiSym::strict_name().map(String::from), variants: AsciiSym::ALL_VARIANTS.to_vec() }
}

/// `StrictType::strict_name` and `StrictSum::ALL_VARIANTS` of
/// `strict_encoding` for its type `AsciiPrintable`: it is declared as `AsciiPrintable` and has
/// no more than 255 variants, each under a name for variants.
#[verifier::external_body]
fn table_asciiprintable() -> (res: EnumTable)
    ensures
        declares(res, "AsciiPrintable"@),
{
    EnumTable { name: AsciiPrintable::strict_name().map(String::from), variants: AsciiPrintable::ALL_VARIANTS.to_vec() }
}

/// `StrictType::strict_name` and `StrictSum::ALL_VARIANTS` of
/// `strict_encoding` for its type `Alpha`: it is declared as `Alpha` and has
/// no more than 255 variants, each under a name for variants.
#[verifier::external_body]
fn table_alpha() -> (res: EnumTable)
    ensures
        declares(res, "Alpha"@),
{
    EnumTable { name: Alpha::strict_name().map(String::from), variants: Alpha::ALL_VARIANTS.to_vec() }
}

/// `StrictType::strict_name` and `StrictSum::ALL_VARIANTS` of
/// `strict_encoding` for its type `AlphaCaps`: it is declared as `AlphaCaps` and has
/// no more than 255 variants, each under a name for variants.
#[verifier::external_body]
fn table_alphacaps() -> (res: EnumTable)
    ensures
        declares(res, "AlphaCaps"@),
{
    EnumTable { name: AlphaCaps::strict_name().map(String::from), variants: AlphaCaps::ALL_VARIANTS.to_vec() }
}

/// `StrictType::strict_name` and `StrictSum::ALL_VARIANTS` of
/// `strict_encoding` for its type `AlphaSmall`: it is declared as `AlphaSmall` and has
/// no more than 255 variants, each under a name for variants.
#[verifier::external_body]
fn table_alphasmall() -> (res: EnumTable)
    ensures
        declares(res, "AlphaSmall"@),
{
    EnumTable { name: AlphaSmall::strict_name().map(String::from), variants: AlphaSmall::ALL_VARIANTS.to_vec() }
}

/// `StrictType::strict_name` and `StrictSum::ALL_VARIANTS` of
/// `strict_encoding` for its type `Dec`: it is declared as `Dec` and has
/// no more than 255 variants, each under a name for variants.
#[verifier::external_body]
fn table_dec() -> (res: EnumTable)
    ensures
        declares(res, "Dec"@),
{
    EnumTable { name: Dec::strict_name().map(String::from), variants: Dec::ALL_VARIANTS.to_vec() }
}

/// `StrictType::strict_name` and `StrictSum::ALL_VARIANTS` of
/// `strict_encoding` for its type `HexDecCaps`: it is declared as `HexDecCaps` and has
/// no more than 255 variants, each under a name for variants.
#[verifier::external_body]
fn table_hexdeccaps() -> (res: EnumTable)
    ensures
        declares(res, "HexDecCaps"@),
{
    EnumTable { name: HexDecCaps::strict_name().map(String::from), variants: HexDecCaps::ALL_VARIANTS.to_vec() }
}

/// `StrictType::strict_name` and `StrictSum::ALL_VARIANTS` of
/// `strict_encoding` for its type `HexDecSmall`: it is declared as `HexDecSmall` and has
/// no more than 255 variants, each under a name for variants.
#[verifier::external_body]
fn table_hexdecsmall() -> (res: EnumTable)
    ensures
        declares(res, "HexDecSmall"@),
{
    EnumTable { name: HexDecSmall::strict_name().map(String::from), variants: HexDecSmall::ALL_VARIANTS.to_vec() }
}

/// `StrictType::strict_name` and `StrictSum::ALL_VARIANTS` of
/// `strict_encoding` for its type `AlphaNum`: it is declared as `AlphaNum` and has
/// no more than 255 variants, each under a name for variants.
#[verifier::external_body]
fn table_alphanum() -> (res: EnumTable)
    ensures
        declares(res, "AlphaNum"@),
{
    EnumTable { name: AlphaNum::strict_name().map(String::from), variants: AlphaNum::ALL_VARIANTS.to_vec() }
}

/// `StrictType::strict_name` and `StrictSum::ALL_VARIANTS` of
/// `strict_encoding` for its type `AlphaCapsNum`: it is declared as `AlphaCapsNum` and has
/// no more than 255 variants, each under a name for variants.
#[verifier::external_body]
fn table_alphacapsnum() -> (res: EnumTable)
    ensures
        declares(res, "AlphaCapsNum"@),
{
    EnumTable { name: AlphaCapsNum::strict_name().map(String::from), variants: AlphaCapsNum::ALL_VARIANTS.to_vec() }
}

/// `StrictType::strict_name` and `StrictSum::ALL_VARIANTS` of
/// `strict_encoding` for its type `AlphaNumDash`: it is declared as `AlphaNumDash` and has
/// no more than 255 variants, each under a name for variants.
#[verifier::external_body]
fn table_alphanumdash() -> (res: EnumTable)
    ensures
        declares(res, "AlphaNumDash"@),
{
    EnumTable { name: AlphaNumDash::strict_name().map(String::from), variants: AlphaNumDash::ALL_VARIANTS.to_vec() }
}

/// `StrictType::strict_name` and `StrictSum::ALL_VARIANTS` of
/// `strict_encoding` for its type `AlphaNumLodash`: it is declared as `AlphaNumLodash` and has
/// no more than 255 variants, each under a name for variants.
#[verifier::external_body]
fn table_alphanumlodash() -> (res: EnumTable)
    ensures
        declares(res, "AlphaNumLodash"@),
{
    EnumTable { name: AlphaNumLodash::strict_name().map(String::from), variants: AlphaNumLodash::ALL_VARIANTS.to_vec() }
}

/// `tables` are the first tables of the library `Std`, each under its name.
pub open spec fn std_prefix(tables: Seq<EnumTable>) -> bool {
    &&& tables.len() <= std_table_names().len()
    &&& forall|i: int| 0 <= i < tables.len() ==> declares(#[trigger] tables[i], std_table_names()[i])
}

/// Puts the next table of the library `Std` behind those that are there.
fn add_table(tables: &mut Vec<EnumTable>, table: EnumTable)
    requires
        std_prefix(old(tables)@),
        old(tables)@.len() < std_table_names().len(),
        declares(table, std_table_names()[old(tables)@.len() as int]),
    ensures
        final(tables)@ == old(tables)@.push(table),
        std_prefix(final(tables)@),
{
    tables.push(table);
}

/// The tables of the library `Std`, in the order in which it declares them:
/// the truth values, the numbers of two to seven bits, the ASCII characters,
/// the letters, the digits, and the letters with digits.
fn std_tables() -> (res: Vec<EnumTable>)
    ensures
        is_std(enum_lib_view(LIB_NAME_STD@, res@)),
        forall|i: int| 0 <= i < res@.len() ==> table_ok(#[trigger] res@[i]),
{
    proof {
        lemma_std_names();
    }
    let mut tables: Vec<EnumTable> = Vec::new();
    add_table(&mut tables, table_bool());
    add_table(&mut tables, table_u2());
    add_table(&mut tables, table_u3());
    add_table(&mut tables, table_u4());
    add_table(&mut tables, table_u5());
    add_table(&mut tables, table_u6());
    add_table(&mut tables, table_u7());
    add_table(&mut tables, table_asciisym());
    add_table(&mut tables, table_asciiprintable());
    add_table(&mut tables, table_alpha());
    add_table(&mut tables, table_alphacaps());
    add_table(&mut tables, table_alphasmall());
    add_table(&mut tables, table_dec());
    add_table(&mut tables, table_hexdeccaps());
    add_table(&mut tables, table_hexdecsmall());
    add_table(&mut tables, table_alphanum());
    add_table(&mut tables, table_alphacapsnum());
    add_table(&mut tables, table_alphanumdash());
    add_table(&mut tables, table_alphanumlodash());
    proof {
        let names = std_table_names();
        let view = enum_lib_view(LIB_NAME_STD@, tables@);
        assert forall|i: int| 0 <= i < view.types.len() implies {
            &&& (#[trigger] view.types[i]).name == names[i]
            &&& view.types[i].ty matches TyView::Enum(row) && row_ok(row)
        } by {
            assert(declares(tables@[i], names[i]));
            let row = table_variants(tables@[i].variants@);
            assert(view.types[i].ty == TyView::<FqnView>::Enum(row));
            assert forall|k: int| 0 <= k < row.len() implies is_name(
                NameRule::Member,
                (#[trigger] row[k]).name,
            ) by {
                assert(is_name(NameRule::Member, tables@[i].variants@[k].1@));
            }
        }
        assert forall|i: int| 0 <= i < tables@.len() implies table_ok(#[trigger] tables@[i]) by {
            assert(declares(tables@[i], names[i]));
            assert(is_ident(names[i]));
        }
    }
    tables
}

/// Where every table can be declared, none is the first that cannot.
pub proof fn lemma_no_bad_table(tables: Seq<EnumTable>, from: int)
    requires
        0 <= from,
        forall|i: int| from <= i < tables.len() ==> table_ok(#[trigger] tables[i]),
    ensures
        first_bad_table(tables, from) is None,
    decreases tables.len() - from,
{
    if from < tables.len() {
        assert(table_ok(tables[from]));
        lemma_no_bad_table(tables, from + 1);
    }
}

/// The symbolic library `Std`: the enumerations of the truth values, of
/// the numbers of two to seven bits, of the ASCII characters, of the
/// letters and of the digits, as `strict_encoding` declares them. It depends
/// on nothing, and no declaration of it has a fault.
pub fn std_sym() -> (res: SymbolicLib)
    ensures
        is_std(res@),
        res@.first_fault(0) is None,
{
    proof {
        lemma_std_names();
        crate::util::lemma_check_name(NameRule::Ident, LIB_NAME_STD@);
    }
    let name = match Ident::try_from(LIB_NAME_STD) {
        Ok(name) => name,
        Err(_) => vstd::pervasive::unreached(),
    };
    let tables = std_tables();
    proof {
        lemma_no_bad_table(tables@, 0);
        lemma_std_faults(enum_lib_view(name@, tables@));
    }
    match enum_lib(name, &tables) {
        Ok(lib) => lib,
        Err(_) => vstd::pervasive::unreached(),
    }
}

/// In the library `Std` every declaration can be compiled: enumerations
/// refer to nothing.
proof fn lemma_std_grounded(sym: crate::typelib::SymbolicView)
    requires
        is_std(sym),
    ensures
        sym.first_cyclic(0) is None,
{
    assert forall|i: int| 0 <= i < sym.types.len() implies (#[trigger] sym.symbol_id(
        sym.types.len(),
        i,
    )) is Some by {
        assert(sym.types[i].ty is Enum);
        crate::typelib::lemma_no_refs_grounded(sym, sym.types.len(), i);
    }
    crate::typelib::lemma_none_cyclic(sym, 0);
}

/// What `std_stl` gives: what the library `Std` compiles to.
pub open spec fn std_compiled(res: Result<TypeLib, CompileError>) -> bool {
    exists|std: crate::typelib::SymbolicView| #[trigger] is_std(std) && crate::typelib::assembled(std, res)
}

/// The library `Std`, compiled. There is one unless two of its
/// enumerations have one semantic identity and different variants, or there
/// are too many of them; the error then tells the first that cannot join
/// those before it.
pub fn std_stl() -> (res: Result<TypeLib, CompileError>)
    ensures
        std_compiled(res),
{
    let sym = std_sym();
    proof {
        lemma_std_grounded(sym@);
    }
    let res = sym.compile();
    assert(is_std(sym@) && crate::typelib::assembled(sym@, res));
    res
}

/// The code of the primitive type of one byte.
pub const PRIMITIVE_U8: u8 = 0x01;

/// The code of the primitive type of two bytes.
pub const PRIMITIVE_U16: u8 = 0x02;

/// The identifier that `text` spells.
fn ident(text: &'static str) -> (res: Result<Ident, StlError>)
    ensures
        match res {
            Ok(name) => name@ == text@ && is_ident(text@),
            Err(StlError::Name(_)) => !is_ident(text@),
            Err(_) => false,
        },
{
    proof {
        crate::util::lemma_check_name(NameRule::Ident, text@);
    }
    match Ident::try_from(text) {
        Ok(name) => Ok(name),
        Err(e) => Err(StlError::Name(e)),
    }
}

/// The name for fields that `text` spells.
fn member(text: &'static str) -> (res: Result<MemberName, StlError>)
    ensures
        match res {
            Ok(name) => name@ == text@ && is_name(NameRule::Member, text@),
            Err(StlError::Name(_)) => !is_name(NameRule::Member, text@),
            Err(_) => false,
        },
{
    proof {
        crate::util::lemma_check_name(NameRule::Member, text@);
    }
    match MemberName::try_from(text) {
        Ok(name) => Ok(name),
        Err(e) => Err(StlError::Name(e)),
    }
}

/// The type `name` of the library `lib`.
fn named(lib: &'static str, name: &'static str) -> (res: Result<TypeFqn, StlError>)
    ensures
        match res {
            Ok(fqn) => fqn@ == (FqnView { lib: lib@, name: name@ }),
            Err(StlError::Name(_)) => !is_ident(lib@) || !is_ident(name@),
            Err(_) => false,
        },
{
    let lib = match ident(lib) {
        Ok(lib) => lib,
        Err(e) => {
            return Err(e);
        },
    };
    let name = match ident(name) {
        Ok(name) => name,
        Err(e) => {
            return Err(e);
        },
    };
    Ok(TypeFqn::with(lib, name))
}

/// The declarations of the library `StrictTypes`, as names with types.
pub open spec fn strict_types_symbols() -> Seq<SymbolView> {
    let own = LIB_NAME_STRICT_TYPES@;
    let bounds = Sizing { min: 1, max: 32 };
    seq![
        SymbolView { name: "U8"@, ty: TyView::Primitive(PRIMITIVE_U8) },
        SymbolView { name: "U16"@, ty: TyView::Primitive(PRIMITIVE_U16) },
        SymbolView { name: "SemId"@, ty: TyView::Array(FqnView { lib: own, name: "U8"@ }, 32) },
        SymbolView {
            name: "Sizing"@,
            ty: TyView::Struct(
                seq![
                    FieldView { name: "min"@, ty: FqnView { lib: own, name: "U16"@ } },
                    FieldView { name: "max"@, ty: FqnView { lib: own, name: "U16"@ } },
                ],
            ),
        },
        SymbolView {
            name: "Ident"@,
            ty: TyView::List(FqnView { lib: LIB_NAME_STD@, name: "AlphaNumLodash"@ }, bounds),
        },
        SymbolView {
            name: "TypeFqn"@,
            ty: TyView::Struct(
                seq![
                    FieldView { name: "lib"@, ty: FqnView { lib: own, name: "Ident"@ } },
                    FieldView { name: "name"@, ty: FqnView { lib: own, name: "Ident"@ } },
                ],
            ),
        },
        SymbolView {
            name: "TypeSystem"@,
            ty: TyView::MapOf(
                FqnView { lib: own, name: "SemId"@ },
                FqnView { lib: own, name: "SemId"@ },
                Sizing { min: 0, max: 65535 },
            ),
        },
    ]
}

/// What `strict_types_on` says of its result.
pub open spec fn is_strict_types(lib: crate::typelib::SymbolicView, std: Dependency) -> bool {
    &&& lib.name == LIB_NAME_STRICT_TYPES@
    &&& lib.dependencies == seq![std@]
    &&& lib.types == strict_types_symbols()
    &&& lib.first_fault(0) is None
}

/// The symbolic library `StrictTypes`, which declares types of this crate,
/// on top of the compiled library `std`. There is one where `std` is the
/// library `Std` and offers the type of the characters that identifiers are
/// made of; else that type is unknown.
pub fn strict_types_on(std: Dependency) -> (res: Result<SymbolicLib, StlError>)
    ensures
        match res {
            Ok(lib) => is_strict_types(lib@, std) && offers_chars(seq![std@]),
            Err(StlError::Transpile(TranspileError::UnknownType(fqn))) => {
                &&& !offers_chars(seq![std@])
                &&& fqn@ == chars_fqn()
            },
            Err(_) => false,
        },
{
    proof {
        lemma_strict_names();
    }
    let mut deps: Vec<Dependency> = Vec::new();
    let ghost dep = std@;
    deps.push(std);
    assert(deps@.map_values(|d: Dependency| d@) =~= seq![dep]);
    let mut builder = LibBuilder::new(ident(LIB_NAME_STRICT_TYPES)?, deps);
    builder = builder.transpile(ident("U8")?, Ty::Primitive(PRIMITIVE_U8));
    builder = builder.transpile(ident("U16")?, Ty::Primitive(PRIMITIVE_U16));
    builder = builder.transpile(ident("SemId")?, Ty::Array(named(LIB_NAME_STRICT_TYPES, "U8")?, 32));
    let mut bounds: Vec<Field<TypeFqn>> = Vec::new();
    bounds.push(Field { name: member("min")?, ty: named(LIB_NAME_STRICT_TYPES, "U16")? });
    bounds.push(Field { name: member("max")?, ty: named(LIB_NAME_STRICT_TYPES, "U16")? });
    let sizing = Ty::Struct(bounds);
    assert(sizing@->Struct_0 =~= strict_types_symbols()[3].ty->Struct_0);
    builder = builder.transpile(ident("Sizing")?, sizing);
    builder = builder.transpile(
        ident("Ident")?,
        Ty::List(named(LIB_NAME_STD, "AlphaNumLodash")?, Sizing::new(1, 32)),
    );
    let mut parts: Vec<Field<TypeFqn>> = Vec::new();
    parts.push(Field { name: member("lib")?, ty: named(LIB_NAME_STRICT_TYPES, "Ident")? });
    parts.push(Field { name: member("name")?, ty: named(LIB_NAME_STRICT_TYPES, "Ident")? });
    let fqn = Ty::Struct(parts);
    assert(fqn@->Struct_0 =~= strict_types_symbols()[5].ty->Struct_0);
    builder = builder.transpile(ident("TypeFqn")?, fqn);
    builder = builder.transpile(
        ident("TypeSystem")?,
        Ty::MapOf(
            named(LIB_NAME_STRICT_TYPES, "SemId")?,
            named(LIB_NAME_STRICT_TYPES, "SemId")?,
            Sizing::new(0, 65535),
        ),
    );
    assert(builder@.types =~= strict_types_symbols());
    proof {
        let view = builder@;
        lemma_strict_faults(view);
        if offers_chars(view.dependencies) {
            crate::typelib::lemma_first_fault_none(view, 0);
        } else {
            crate::typelib::lemma_first_fault_at(view, 0, 4);
        }
    }
    match builder.compile_symbols() {
        Ok(lib) => Ok(lib),
        Err(e) => Err(StlError::Transpile(e)),
    }
}

/// What the library `Std` compiles to offers the type of the characters
/// that identifiers are made of.
proof fn lemma_std_offers_chars(std: crate::typelib::SymbolicView)
    requires
        is_std(std),
    ensures
        offers_chars(seq![crate::typelib::compiled_dependency(std)]),
{
    lemma_strict_names();
    lemma_std_names();
    let dep = crate::typelib::compiled_dependency(std);
    let at = std_table_names().len() - 1;
    assert(std_table_names()[at] == "AlphaNumLodash"@);
    assert(std.types[at].name == "AlphaNumLodash"@);
    assert(dep.types[at].name == "AlphaNumLodash"@);
    crate::typelib::lemma_find_export_some(dep.types, "AlphaNumLodash"@, 0, at);
    assert(crate::typelib::find_dependency(seq![dep], LIB_NAME_STD@, 0) == Some(0int));
}

/// What `strict_types_sym` gives: the symbolic library `StrictTypes` on top
/// of what the library `Std` compiles to, or the error for which `Std` does
/// not compile.
pub open spec fn strict_declared(res: Result<SymbolicLib, CompileError>) -> bool {
    exists|std: crate::typelib::SymbolicView| #[trigger]
        is_std(std) && match res {
            Ok(lib) => {
                &&& std.first_assembly_fault(0) is None
                &&& lib@ == strict_view(std)
                &&& lib@.first_fault(0) is None
            },
            Err(e) => crate::typelib::assembled(std, Err(e)),
        }
}

/// The symbolic library `StrictTypes`, on top of the library `Std`. There
/// is one wherever the library `Std` compiles; else the error is that of
/// `std_stl`.
pub fn strict_types_sym() -> (res: Result<SymbolicLib, CompileError>)
    ensures
        strict_declared(res),
{
    let compiled = std_stl();
    let ghost std = choose|std: crate::typelib::SymbolicView| #[trigger]
        is_std(std) && crate::typelib::assembled(std, compiled);
    let lib = match compiled {
        Ok(lib) => lib,
        Err(e) => {
            assert(is_std(std) && crate::typelib::assembled(std, Err::<TypeLib, CompileError>(e)));
            return Err(e);
        },
    };
    let dep = lib.to_dependency();
    proof {
        lib.lemma_dependency(std, dep@);
        lemma_std_offers_chars(std);
    }
    match strict_types_on(dep) {
        Ok(sym) => {
            assert(sym@.dependencies =~= strict_view(std).dependencies);
            assert(is_std(std) && sym@ == strict_view(std));
            Ok(sym)
        },
        Err(_) => vstd::pervasive::unreached(),
    }
}

/// What `strict_types_stl` gives: what the library `StrictTypes` compiles
/// to on top of the library `Std`, or the error for which the first of the
/// two that does not compile does not.
pub open spec fn strict_compiled(res: Result<TypeLib, CompileError>) -> bool {
    exists|std: crate::typelib::SymbolicView| #[trigger]
        is_std(std) && if std.first_assembly_fault(0) is Some {
            res matches Err(e) && crate::typelib::assembled(std, Err(e))
        } else {
            crate::typelib::assembled(strict_view(std), res)
        }
}

/// The library `StrictTypes`, compiled. There is one wherever the library
/// `Std` compiles and no two types of `StrictTypes` have one semantic
/// identity and different structures; the error tells the first type, of
/// `Std` or else of `StrictTypes`, that cannot join those before it.
pub fn strict_types_stl() -> (res: Result<TypeLib, CompileError>)
    ensures
        strict_compiled(res),
{
    let declared = strict_types_sym();
    let ghost std = choose|std: crate::typelib::SymbolicView| #[trigger]
        is_std(std) && match declared {
            Ok(lib) => {
                &&& std.first_assembly_fault(0) is None
                &&& lib@ == strict_view(std)
                &&& lib@.first_fault(0) is None
            },
            Err(e) => crate::typelib::assembled(std, Err(e)),
        };
    let sym = match declared {
        Ok(sym) => sym,
        Err(e) => {
            assert(is_std(std) && std.first_assembly_fault(0) is Some);
            return Err(e);
        },
    };
    proof {
        lemma_std_offers_chars(std);
        lemma_strict_grounded(sym@);
    }
    let res = sym.compile();
    assert(is_std(std) && crate::typelib::assembled(strict_view(std), res));
    res
}

/// The names that the library `StrictTypes` uses are names of their kinds,
/// and those that it declares differ from each other.
proof fn lemma_strict_names()
    ensures
        is_ident("StrictTypes"@),
        is_ident("Std"@),
        is_ident("U8"@),
        is_ident("U16"@),
        is_ident("SemId"@),
        is_ident("Sizing"@),
        is_ident("Ident"@),
        is_ident("TypeFqn"@),
        is_ident("TypeSystem"@),
        is_ident("AlphaNumLodash"@),
        is_name(NameRule::Member, "min"@),
        is_name(NameRule::Member, "max"@),
        is_name(NameRule::Member, "lib"@),
        is_name(NameRule::Member, "name"@),
        LIB_NAME_STD@ == "Std"@,
        LIB_NAME_STRICT_TYPES@ == "StrictTypes"@,
        "Std"@ != "StrictTypes"@,
        "U8"@ != "U16"@,
        "U8"@ != "SemId"@,
        "U8"@ != "Sizing"@,
        "U8"@ != "Ident"@,
        "U8"@ != "TypeFqn"@,
        "U8"@ != "TypeSystem"@,
        "U16"@ != "SemId"@,
        "U16"@ != "Sizing"@,
        "U16"@ != "Ident"@,
        "U16"@ != "TypeFqn"@,
        "U16"@ != "TypeSystem"@,
        "SemId"@ != "Sizing"@,
        "SemId"@ != "Ident"@,
        "SemId"@ != "TypeFqn"@,
        "SemId"@ != "TypeSystem"@,
        "Sizing"@ != "Ident"@,
        "Sizing"@ != "TypeFqn"@,
        "Sizing"@ != "TypeSystem"@,
        "Ident"@ != "TypeFqn"@,
        "Ident"@ != "TypeSystem"@,
        "TypeFqn"@ != "TypeSystem"@,
{
    reveal_with_fuel(crate::util::chars_below, 33);
    reveal_strlit("StrictTypes");
    crate::util::lemma_chars_below("StrictTypes"@, "StrictTypes"@.len());
    assert("StrictTypes"@.len() == 11 && "StrictTypes"@[0] == 'S');
    reveal_strlit("Std");
    crate::util::lemma_chars_below("Std"@, "Std"@.len());
    assert("Std"@.len() == 3 && "Std"@[0] == 'S');
    reveal_strlit("U8");
    crate::util::lemma_chars_below("U8"@, "U8"@.len());
    assert("U8"@.len() == 2 && "U8"@[0] == 'U');
    reveal_strlit("U16");
    crate::util::lemma_chars_below("U16"@, "U16"@.len());
    assert("U16"@.len() == 3 && "U16"@[0] == 'U');
    reveal_strlit("SemId");
    crate::util::lemma_chars_below("SemId"@, "SemId"@.len());
    assert("SemId"@.len() == 5 && "SemId"@[0] == 'S');
    reveal_strlit("Sizing");
    crate::util::lemma_chars_below("Sizing"@, "Sizing"@.len());
    assert("Sizing"@.len() == 6 && "Sizing"@[0] == 'S');
    reveal_strlit("Ident");
    crate::util::lemma_chars_below("Ident"@, "Ident"@.len());
    assert("Ident"@.len() == 5 && "Ident"@[0] == 'I');
    reveal_strlit("TypeFqn");
    crate::util::lemma_chars_below("TypeFqn"@, "TypeFqn"@.len());
    assert("TypeFqn"@.len() == 7 && "TypeFqn"@[0] == 'T');
    reveal_strlit("TypeSystem");
    crate::util::lemma_chars_below("TypeSystem"@, "TypeSystem"@.len());
    assert("TypeSystem"@.len() == 10 && "TypeSystem"@[0] == 'T');
    reveal_strlit("AlphaNumLodash");
    crate::util::lemma_chars_below("AlphaNumLodash"@, "AlphaNumLodash"@.len());
    assert("AlphaNumLodash"@.len() == 14 && "AlphaNumLodash"@[0] == 'A');
    reveal_strlit("min");
    crate::util::lemma_chars_below("min"@, "min"@.len());
    assert("min"@.len() == 3 && "min"@[0] == 'm');
    reveal_strlit("max");
    crate::util::lemma_chars_below("max"@, "max"@.len());
    assert("max"@.len() == 3 && "max"@[0] == 'm');
    reveal_strlit("lib");
    crate::util::lemma_chars_below("lib"@, "lib"@.len());
    assert("lib"@.len() == 3 && "lib"@[0] == 'l');
    reveal_strlit("name");
    crate::util::lemma_chars_below("name"@, "name"@.len());
    assert("name"@.len() == 4 && "name"@[0] == 'n');
}

/// The names under which the library `Std` declares its enumerations are
/// identifiers, and no two of them are one name: they differ in their
/// length or in their last character. None of them is `U1`.
proof fn lemma_std_names()
    ensures
        std_table_names().len() == 19,
        forall|i: int| 0 <= i < std_table_names().len() ==> is_ident(#[trigger] std_table_names()[i]),
        forall|i: int, j: int|
            #![trigger std_table_names()[i], std_table_names()[j]]
            0 <= i < j < 19 ==> std_table_names()[i] != std_table_names()[j],
        forall|i: int| 0 <= i < 19 ==> #[trigger] std_table_names()[i] != "U1"@,
        is_ident(LIB_NAME_STD@),
{
    let names = std_table_names();
    reveal_strlit("U1");
    reveal_with_fuel(crate::util::chars_below, 33);
    reveal_strlit("Std");
    crate::util::lemma_chars_below("Std"@, "Std"@.len());
    reveal_strlit("Bool");
    crate::util::lemma_chars_below("Bool"@, "Bool"@.len());
    reveal_strlit("U2");
    crate::util::lemma_chars_below("U2"@, "U2"@.len());
    reveal_strlit("U3");
    crate::util::lemma_chars_below("U3"@, "U3"@.len());
    reveal_strlit("U4");
    crate::util::lemma_chars_below("U4"@, "U4"@.len());
    reveal_strlit("U5");
    crate::util::lemma_chars_below("U5"@, "U5"@.len());
    reveal_strlit("U6");
    crate::util::lemma_chars_below("U6"@, "U6"@.len());
    reveal_strlit("U7");
    crate::util::lemma_chars_below("U7"@, "U7"@.len());
    reveal_strlit("Ascii");
    crate::util::lemma_chars_below("Ascii"@, "Ascii"@.len());
    reveal_strlit("AsciiPrintable");
    crate::util::lemma_chars_below("AsciiPrintable"@, "AsciiPrintable"@.len());
    reveal_strlit("Alpha");
    crate::util::lemma_chars_below("Alpha"@, "Alpha"@.len());
    reveal_strlit("AlphaCaps");
    crate::util::lemma_chars_below("AlphaCaps"@, "AlphaCaps"@.len());
    reveal_strlit("AlphaSmall");
    crate::util::lemma_chars_below("AlphaSmall"@, "AlphaSmall"@.len());
    reveal_strlit("Dec");
    crate::util::lemma_chars_below("Dec"@, "Dec"@.len());
    reveal_strlit("HexDecCaps");
    crate::util::lemma_chars_below("HexDecCaps"@, "HexDecCaps"@.len());
    reveal_strlit("HexDecSmall");
    crate::util::lemma_chars_below("HexDecSmall"@, "HexDecSmall"@.len());
    reveal_strlit("AlphaNum");
    crate::util::lemma_chars_below("AlphaNum"@, "AlphaNum"@.len());
    reveal_strlit("AlphaCapsNum");
    crate::util::lemma_chars_below("AlphaCapsNum"@, "AlphaCapsNum"@.len());
    reveal_strlit("AlphaNumDash");
    crate::util::lemma_chars_below("AlphaNumDash"@, "AlphaNumDash"@.len());
    reveal_strlit("AlphaNumLodash");
    crate::util::lemma_chars_below("AlphaNumLodash"@, "AlphaNumLodash"@.len());
    assert(names[0] == "Bool"@ && names[0].len() == 4 && names[0][3] == 'l');
    assert(names[1] == "U2"@ && names[1].len() == 2 && names[1][1] == '2');
    assert(names[2] == "U3"@ && names[2].len() == 2 && names[2][1] == '3');
    assert(names[3] == "U4"@ && names[3].len() == 2 && names[3][1] == '4');
    assert(names[4] == "U5"@ && names[4].len() == 2 && names[4][1] == '5');
    assert(names[5] == "U6"@ && names[5].len() == 2 && names[5][1] == '6');
    assert(names[6] == "U7"@ && names[6].len() == 2 && names[6][1] == '7');
    assert(names[7] == "Ascii"@ && names[7].len() == 5 && names[7][4] == 'i');
    assert(names[8] == "AsciiPrintable"@ && names[8].len() == 14 && names[8][13] == 'e');
    assert(names[9] == "Alpha"@ && names[9].len() == 5 && names[9][4] == 'a');
    assert(names[10] == "AlphaCaps"@ && names[10].len() == 9 && names[10][8] == 's');
    assert(names[11] == "AlphaSmall"@ && names[11].len() == 10 && names[11][9] == 'l');
    assert(names[12] == "Dec"@ && names[12].len() == 3 && names[12][2] == 'c');
    assert(names[13] == "HexDecCaps"@ && names[13].len() == 10 && names[13][9] == 's');
    assert(names[14] == "HexDecSmall"@ && names[14].len() == 11 && names[14][10] == 'l');
    assert(names[15] == "AlphaNum"@ && names[15].len() == 8 && names[15][7] == 'm');
    assert(names[16] == "AlphaCapsNum"@ && names[16].len() == 12 && names[16][11] == 'm');
    assert(names[17] == "AlphaNumDash"@ && names[17].len() == 12 && names[17][11] == 'h');
    assert(names[18] == "AlphaNumLodash"@ && names[18].len() == 14 && names[18][13] == 'h');
}

/// In the library `Std` each declaration is the first of its name.
proof fn lemma_std_positions(std: crate::typelib::SymbolicView, at: int)
    requires
        is_std(std),
        0 <= at < 19,
    ensures
        crate::typelib::find_symbol(std.types, std_table_names()[at], 0) == Some(at),
{
    lemma_std_names();
    let types = std.types;
    assert forall|i: int, j: int| 0 <= i < j < types.len() implies (#[trigger] types[i]).name != (
    #[trigger] types[j]).name by {
        assert(types[i].name == std_table_names()[i]);
        assert(types[j].name == std_table_names()[j]);
    }
    crate::typelib::lemma_find_distinct(types, at);
}

/// The library `Std` is named `Std` and depends on nothing. It declares
/// nineteen enumerations, each under its own name and in this order: `Bool`,
/// the numbers `U2` to `U7`, `Ascii`, `AsciiPrintable`, `Alpha`, `AlphaCaps`,
/// `AlphaSmall`, `Dec`, `HexDecCaps`, `HexDecSmall`, `AlphaNum`,
/// `AlphaCapsNum`, `AlphaNumDash` and `AlphaNumLodash`. It declares no `U1`.
pub proof fn lemma_std_declares(std: crate::typelib::SymbolicView)
    requires
        is_std(std),
    ensures
        std.name == "Std"@,
        std.dependencies.len() == 0,
        std.types.len() == 19,
        std_table_names().len() == 19,
        forall|i: int|
            0 <= i < 19 ==> crate::typelib::find_symbol(
                std.types,
                #[trigger] std_table_names()[i],
                0,
            ) == Some(i),
        forall|i: int| 0 <= i < 19 ==> (#[trigger] std.types[i]).ty is Enum,
        crate::typelib::find_symbol(std.types, "U1"@, 0) is None,
{
    let types = std.types;
    let names = std_table_names();
    lemma_std_names();
    assert forall|i: int| 0 <= i < 19 implies crate::typelib::find_symbol(
        types,
        #[trigger] names[i],
        0,
    ) == Some(i) by {
        lemma_std_positions(std, i);
    }
    assert forall|j: int| 0 <= j < types.len() implies (#[trigger] types[j]).name != "U1"@ by {
        assert(types[j].name == names[j]);
    }
    crate::typelib::lemma_find_symbol_none(types, "U1"@, 0);
}

/// In the library `Std` no declaration has a fault of its own.
proof fn lemma_std_faults(sym: crate::typelib::SymbolicView)
    requires
        is_std(sym),
    ensures
        sym.first_fault(0) is None,
{
    lemma_std_names();
    let types = sym.types;
    assert forall|i: int| 0 <= i < types.len() implies (#[trigger] sym.symbol_fault(i)) is None by {
        assert(types[i].name == std_table_names()[i]);
        assert(types[i].ty.wf());
        assert(types[i].ty.refs().len() == 0);
        lemma_std_positions(sym, i);
    }
    crate::typelib::lemma_first_fault_none(sym, 0);
}

/// The type of the characters that identifiers are made of: it is of the
/// library `Std`.
pub open spec fn chars_fqn() -> FqnView {
    FqnView { lib: LIB_NAME_STD@, name: "AlphaNumLodash"@ }
}

/// The libraries `deps` offer the type of the characters that identifiers
/// are made of.
pub open spec fn offers_chars(deps: Seq<crate::typelib::DependencyView>) -> bool {
    crate::typelib::import_id(deps, chars_fqn()) is Some
}

/// Each declaration of the library `StrictTypes` is the first of its name.
proof fn lemma_strict_positions(types: Seq<SymbolView>)
    requires
        types == strict_types_symbols(),
    ensures
        types.len() == 7,
        crate::typelib::find_symbol(types, "U8"@, 0) == Some(0int),
        crate::typelib::find_symbol(types, "U16"@, 0) == Some(1int),
        crate::typelib::find_symbol(types, "SemId"@, 0) == Some(2int),
        crate::typelib::find_symbol(types, "Sizing"@, 0) == Some(3int),
        crate::typelib::find_symbol(types, "Ident"@, 0) == Some(4int),
        crate::typelib::find_symbol(types, "TypeFqn"@, 0) == Some(5int),
        crate::typelib::find_symbol(types, "TypeSystem"@, 0) == Some(6int),
{
    lemma_strict_names();
    reveal_with_fuel(crate::typelib::find_symbol, 8);
    assert(types[0].name == "U8"@);
    assert(types[1].name == "U16"@);
    assert(types[2].name == "SemId"@);
    assert(types[3].name == "Sizing"@);
    assert(types[4].name == "Ident"@);
    assert(types[5].name == "TypeFqn"@);
    assert(types[6].name == "TypeSystem"@);
}

/// The library `sym` is the library `StrictTypes`, whatever it depends on.
pub open spec fn declares_strict_types(sym: crate::typelib::SymbolicView) -> bool {
    sym.name == LIB_NAME_STRICT_TYPES@ && sym.types == strict_types_symbols()
}

/// The library `StrictTypes` knows each name of its own that it refers to.
proof fn lemma_strict_knows(sym: crate::typelib::SymbolicView)
    requires
        declares_strict_types(sym),
    ensures
        sym.knows(FqnView { lib: LIB_NAME_STRICT_TYPES@, name: "U8"@ }),
        sym.knows(FqnView { lib: LIB_NAME_STRICT_TYPES@, name: "U16"@ }),
        sym.knows(FqnView { lib: LIB_NAME_STRICT_TYPES@, name: "SemId"@ }),
        sym.knows(FqnView { lib: LIB_NAME_STRICT_TYPES@, name: "Ident"@ }),
        sym.knows(chars_fqn()) == offers_chars(sym.dependencies),
{
    lemma_strict_names();
    lemma_strict_positions(sym.types);
}

/// In the library `StrictTypes` no declaration has a fault of its own, but
/// that of the identifiers where the characters they are made of are not
/// offered.
proof fn lemma_strict_faults(sym: crate::typelib::SymbolicView)
    requires
        declares_strict_types(sym),
    ensures
        sym.types.len() == 7,
        forall|i: int| 0 <= i < 7 && i != 4 ==> (#[trigger] sym.symbol_fault(i)) is None,
        sym.symbol_fault(4) == if offers_chars(sym.dependencies) {
            None
        } else {
            Some(crate::typelib::FaultView::UnknownType(chars_fqn()))
        },
{
    lemma_strict_positions(sym.types);
    lemma_strict_knows(sym);
    let own = LIB_NAME_STRICT_TYPES@;
    let types = sym.types;
    assert forall|i: int| 0 <= i < 7 implies sym.first_unknown(types[i].ty.refs(), 0) == if i == 4
        && !offers_chars(sym.dependencies) {
        Some(0int)
    } else {
        None
    } by {
        let refs = types[i].ty.refs();
        if i == 0 || i == 1 {
            assert(refs.len() == 0);
        } else if i == 2 {
            assert(refs =~= seq![FqnView { lib: own, name: "U8"@ }]);
            lemma_all_known_one(sym, refs);
        } else if i == 3 {
            assert(refs.len() == 2);
            assert(refs[0] == FqnView { lib: own, name: "U16"@ });
            assert(refs[1] == FqnView { lib: own, name: "U16"@ });
            crate::typelib::lemma_all_known(sym, refs, 0);
        } else if i == 4 {
            assert(refs =~= seq![chars_fqn()]);
            if offers_chars(sym.dependencies) {
                lemma_all_known_one(sym, refs);
            }
        } else if i == 5 {
            assert(refs.len() == 2);
            assert(refs[0] == FqnView { lib: own, name: "Ident"@ });
            assert(refs[1] == FqnView { lib: own, name: "Ident"@ });
            crate::typelib::lemma_all_known(sym, refs, 0);
        } else {
            assert(refs =~= seq![
                FqnView { lib: own, name: "SemId"@ },
                FqnView { lib: own, name: "SemId"@ },
            ]);
            crate::typelib::lemma_all_known(sym, refs, 0);
        }
    }
    assert forall|i: int| 0 <= i < 7 && i != 4 implies (#[trigger] sym.symbol_fault(i)) is None by {
        assert(sym.first_unknown(types[i].ty.refs(), 0) is None);
        assert(types[i].ty.wf());
    }
    assert(sym.first_unknown(types[4].ty.refs(), 0) == if !offers_chars(sym.dependencies) {
        Some(0int)
    } else {
        None
    });
    assert(types[4].ty.refs()[0] == chars_fqn());
}

/// A single reference that means something is not unknown.
proof fn lemma_all_known_one(sym: crate::typelib::SymbolicView, refs: Seq<FqnView>)
    requires
        refs.len() == 1,
        sym.knows(refs[0]),
    ensures
        sym.first_unknown(refs, 0) is None,
{
    crate::typelib::lemma_all_known(sym, refs, 0);
}

/// In the library `StrictTypes` every declaration can be compiled, where
/// the characters that identifiers are made of are offered: no declaration
/// refers to itself, directly or through others.
proof fn lemma_strict_grounded(sym: crate::typelib::SymbolicView)
    requires
        declares_strict_types(sym),
        offers_chars(sym.dependencies),
    ensures
        forall|i: int| 0 <= i < 7 ==> (#[trigger] sym.symbol_id(7, i)) is Some,
        sym.first_cyclic(0) is None,
{
    lemma_strict_names();
    lemma_strict_positions(sym.types);
    let own = LIB_NAME_STRICT_TYPES@;
    let types = sym.types;
    // the primitives and the identifiers refer to nothing of the library
    crate::typelib::lemma_no_refs_grounded(sym, 1, 0);
    crate::typelib::lemma_no_refs_grounded(sym, 1, 1);
    let chars = types[4].ty.refs();
    assert(chars =~= seq![chars_fqn()]);
    assert(sym.ref_id(0, chars_fqn()) is Some);
    crate::typelib::lemma_refs_grounded(sym, 0, chars);
    assert(sym.symbol_id(1, 4) is Some);
    // what refers to them comes next
    let bytes = types[2].ty.refs();
    assert(bytes =~= seq![FqnView { lib: own, name: "U8"@ }]);
    assert(sym.ref_id(1, FqnView { lib: own, name: "U8"@ }) == sym.symbol_id(1, 0));
    crate::typelib::lemma_refs_grounded(sym, 1, bytes);
    assert(sym.symbol_id(2, 2) is Some);
    let bounds = types[3].ty.refs();
    assert(bounds.len() == 2);
    assert(bounds[0] == FqnView { lib: own, name: "U16"@ });
    assert(bounds[1] == FqnView { lib: own, name: "U16"@ });
    assert(sym.ref_id(1, FqnView { lib: own, name: "U16"@ }) == sym.symbol_id(1, 1));
    crate::typelib::lemma_refs_grounded(sym, 1, bounds);
    assert(sym.symbol_id(2, 3) is Some);
    let parts = types[5].ty.refs();
    assert(parts.len() == 2);
    assert(parts[0] == FqnView { lib: own, name: "Ident"@ });
    assert(parts[1] == FqnView { lib: own, name: "Ident"@ });
    assert(sym.ref_id(1, FqnView { lib: own, name: "Ident"@ }) == sym.symbol_id(1, 4));
    crate::typelib::lemma_refs_grounded(sym, 1, parts);
    assert(sym.symbol_id(2, 5) is Some);
    // and the map of identities last
    let ids = types[6].ty.refs();
    assert(ids =~= seq![
        FqnView { lib: own, name: "SemId"@ },
        FqnView { lib: own, name: "SemId"@ },
    ]);
    assert(sym.ref_id(2, FqnView { lib: own, name: "SemId"@ }) == sym.symbol_id(2, 2));
    crate::typelib::lemma_refs_grounded(sym, 2, ids);
    assert(sym.symbol_id(3, 6) is Some);
    crate::typelib::lemma_more_fuel(sym, 1, 7);
    crate::typelib::lemma_more_fuel(sym, 2, 7);
    crate::typelib::lemma_more_fuel(sym, 3, 7);
    assert forall|i: int| 0 <= i < 7 implies (#[trigger] sym.symbol_id(7, i)) is Some by {
        if i == 0 {
            assert(sym.symbol_id(1, 0) is Some);
        } else if i == 1 {
            assert(sym.symbol_id(1, 1) is Some);
        } else if i == 2 {
            assert(sym.symbol_id(2, 2) is Some);
        } else if i == 3 {
            assert(sym.symbol_id(2, 3) is Some);
        } else if i == 4 {
            assert(sym.symbol_id(1, 4) is Some);
        } else if i == 5 {
            assert(sym.symbol_id(2, 5) is Some);
        } else {
            assert(sym.symbol_id(3, 6) is Some);
        }
    }
    crate::typelib::lemma_none_cyclic(sym, 0);
}

} // verus!
