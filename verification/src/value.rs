//! Strict values: data as it is read against a type.

use indexmap::IndexMap;
use std::str::FromStr;
use vstd::prelude::*;
use vstd::std_specs::cmp::PartialEqSpecImpl;
use vstd::std_specs::convert::{FromSpecImpl, TryFromSpec};
use vstd::utf8::{decode_utf8, valid_utf8};
use crate::util::{check, is_name, NameRule, VariantName};

verus! {

/// The unsigned integer of 1024 bits of `amplify`.
#[verifier::external_type_specification]
#[verifier::external_body]
pub struct ExBigUint(amplify::num::u1024);

/// The signed integer of 1024 bits of `amplify`.
#[verifier::external_type_specification]
#[verifier::external_body]
pub struct ExBigInt(amplify::num::i1024);

/// A number.
#[derive(Copy, Clone, PartialEq, Eq, Hash, Debug)]
#[non_exhaustive]
pub enum StrictNum {
    /// An unsigned integer of up to 128 bits.
    Uint(u128),
    /// An unsigned integer of up to 1024 bits.
    BigUint(amplify::num::u1024),
    /// A signed integer of up to 128 bits.
    Int(i128),
    /// A signed integer of up to 1024 bits.
    BigInt(amplify::num::i1024),
}

/// `u1024::eq` of `amplify`, which compares the words of both numbers:
/// whether both are one number.
#[verifier::external_body]
fn big_uint_same(a: &amplify::num::u1024, b: &amplify::num::u1024) -> (res: bool)
    ensures
        res == (*a == *b),
{
    a == b
}

/// `i1024::eq` of `amplify`, which compares the words of both numbers:
/// whether both are one number.
#[verifier::external_body]
fn big_int_same(a: &amplify::num::i1024, b: &amplify::num::i1024) -> (res: bool)
    ensures
        res == (*a == *b),
{
    a == b
}

impl From<amplify::num::u1024> for StrictNum {
    fn from(value: amplify::num::u1024) -> (res: StrictNum) {
        StrictNum::BigUint(value)
    }
}

impl FromSpecImpl<amplify::num::u1024> for StrictNum {
    open spec fn obeys_from_spec() -> bool {
        true
    }

    open spec fn from_spec(value: amplify::num::u1024) -> StrictNum {
        StrictNum::BigUint(value)
    }
}

impl From<amplify::num::i1024> for StrictNum {
    fn from(value: amplify::num::i1024) -> (res: StrictNum) {
        StrictNum::BigInt(value)
    }
}

impl FromSpecImpl<amplify::num::i1024> for StrictNum {
    open spec fn obeys_from_spec() -> bool {
        true
    }

    open spec fn from_spec(value: amplify::num::i1024) -> StrictNum {
        StrictNum::BigInt(value)
    }
}

impl From<u8> for StrictNum {
    fn from(value: u8) -> (res: StrictNum) {
        StrictNum::Uint(value as u128)
    }
}

impl FromSpecImpl<u8> for StrictNum {
    open spec fn obeys_from_spec() -> bool {
        true
    }

    open spec fn from_spec(value: u8) -> StrictNum {
        StrictNum::Uint(value as u128)
    }
}

impl From<u16> for StrictNum {
    fn from(value: u16) -> (res: StrictNum) {
        StrictNum::Uint(value as u128)
    }
}

impl FromSpecImpl<u16> for StrictNum {
    open spec fn obeys_from_spec() -> bool {
        true
    }

    open spec fn from_spec(value: u16) -> StrictNum {
        StrictNum::Uint(value as u128)
    }
}

impl From<u32> for StrictNum {
    fn from(value: u32) -> (res: StrictNum) {
        StrictNum::Uint(value as u128)
    }
}

impl FromSpecImpl<u32> for StrictNum {
    open spec fn obeys_from_spec() -> bool {
        true
    }

    open spec fn from_spec(value: u32) -> StrictNum {
        StrictNum::Uint(value as u128)
    }
}

impl From<u64> for StrictNum {
    fn from(value: u64) -> (res: StrictNum) {
        StrictNum::Uint(value as u128)
    }
}

impl FromSpecImpl<u64> for StrictNum {
    open spec fn obeys_from_spec() -> bool {
        true
    }

    open spec fn from_spec(value: u64) -> StrictNum {
        StrictNum::Uint(value as u128)
    }
}

impl From<u128> for StrictNum {
    fn from(value: u128) -> (res: StrictNum) {
        StrictNum::Uint(value as u128)
    }
}

impl FromSpecImpl<u128> for StrictNum {
    open spec fn obeys_from_spec() -> bool {
        true
    }

    open spec fn from_spec(value: u128) -> StrictNum {
        StrictNum::Uint(value as u128)
    }
}

impl From<i8> for StrictNum {
    fn from(value: i8) -> (res: StrictNum) {
        StrictNum::Int(value as i128)
    }
}

impl FromSpecImpl<i8> for StrictNum {
    open spec fn obeys_from_spec() -> bool {
        true
    }

    open spec fn from_spec(value: i8) -> StrictNum {
        StrictNum::Int(value as i128)
    }
}

impl From<i16> for StrictNum {
    fn from(value: i16) -> (res: StrictNum) {
        StrictNum::Int(value as i128)
    }
}

impl FromSpecImpl<i16> for StrictNum {
    open spec fn obeys_from_spec() -> bool {
        true
    }

    open spec fn from_spec(value: i16) -> StrictNum {
        StrictNum::Int(value as i128)
    }
}

impl From<i32> for StrictNum {
    fn from(value: i32) -> (res: StrictNum) {
        StrictNum::Int(value as i128)
    }
}

impl FromSpecImpl<i32> for StrictNum {
    open spec fn obeys_from_spec() -> bool {
        true
    }

    open spec fn from_spec(value: i32) -> StrictNum {
        StrictNum::Int(value as i128)
    }
}

impl From<i64> for StrictNum {
    fn from(value: i64) -> (res: StrictNum) {
        StrictNum::Int(value as i128)
    }
}

impl FromSpecImpl<i64> for StrictNum {
    open spec fn obeys_from_spec() -> bool {
        true
    }

    open spec fn from_spec(value: i64) -> StrictNum {
        StrictNum::Int(value as i128)
    }
}

impl From<i128> for StrictNum {
    fn from(value: i128) -> (res: StrictNum) {
        StrictNum::Int(value as i128)
    }
}

impl FromSpecImpl<i128> for StrictNum {
    open spec fn obeys_from_spec() -> bool {
        true
    }

    open spec fn from_spec(value: i128) -> StrictNum {
        StrictNum::Int(value as i128)
    }
}

impl StrictNum {
    /// The number, which is an unsigned integer that `N` can hold, as `N`.
    pub fn unwrap_uint<N: TryFrom<u128>>(self) -> (res: N)
        requires
            self is Uint,
            <N as TryFromSpec<u128>>::obeys_try_from_spec(),
            <N as TryFromSpec<u128>>::try_from_spec(self->Uint_0) is Ok,
        ensures
            <N as TryFromSpec<u128>>::try_from_spec(self->Uint_0) == Ok::<N, N::Error>(res),
    {
        match self {
            StrictNum::Uint(v) => match N::try_from(v) {
                Ok(n) => n,
                Err(_) => vstd::pervasive::unreached(),
            },
            _ => vstd::pervasive::unreached(),
        }
    }
}

/// What tells the variant of an enumeration or a union: its name or its
/// number.
#[derive(Clone, Debug)]
pub enum EnumTag {
    Name(VariantName),
    Ord(u8),
}

impl EnumTag {
    /// The number of the variant, where the tag holds a number.
    pub fn unwrap_ord(&self) -> (res: u8)
        requires
            self is Ord,
        ensures
            res == self->Ord_0,
    {
        match self {
            EnumTag::Name(_) => vstd::pervasive::unreached(),
            EnumTag::Ord(tag) => *tag,
        }
    }

    /// A copy of the tag: it tells the same variant in the same way.
    pub fn duplicate(&self) -> (res: EnumTag)
        ensures
            tag_same(*self, res),
    {
        match self {
            EnumTag::Name(name) => EnumTag::Name(name.clone()),
            EnumTag::Ord(tag) => EnumTag::Ord(*tag),
        }
    }

    /// Whether both tell the same variant in the same way.
    pub fn same(&self, other: &EnumTag) -> (res: bool)
        ensures
            res == tag_same(*self, *other),
    {
        match (self, other) {
            (EnumTag::Name(a), EnumTag::Name(b)) => a.same(b),
            (EnumTag::Ord(a), EnumTag::Ord(b)) => *a == *b,
            _ => false,
        }
    }
}

/// Both tags tell the same variant in the same way.
pub open spec fn tag_same(a: EnumTag, b: EnumTag) -> bool {
    match (a, b) {
        (EnumTag::Name(x), EnumTag::Name(y)) => x@ == y@,
        (EnumTag::Ord(x), EnumTag::Ord(y)) => x == y,
        _ => false,
    }
}

/// The named fields of a structure value, in the order in which they came.
/// They are held in the `IndexMap` of `indexmap`, under the `FieldName` of
/// `strict_encoding`.
#[verifier::external_body]
pub struct Fields {
    map: IndexMap<strict_encoding::FieldName, StrictVal>,
}

/// What the fields hold: each name with its value, in the order in which
/// the names came.
pub uninterp spec fn fields_of(fields: Fields) -> Seq<(Seq<char>, StrictVal)>;

/// Whether two rows of fields hold the same values under the same names,
/// in whatever order: what `IndexMap::eq` answers. `Fields::same` states it
/// in full, as `fields_match` of what both hold. It has a name of its own
/// only so that `val_same` can speak of structures: the values that fields
/// hold lie behind the outside map, where a recursive definition cannot
/// follow them.
pub uninterp spec fn fields_same(a: Fields, b: Fields) -> bool;

/// The place of the first of `fields`, from `from` on, that is named `name`.
pub open spec fn field_at(fields: Seq<(Seq<char>, StrictVal)>, name: Seq<char>, from: int) -> Option<
    int,
>
    decreases fields.len() - from,
{
    if from < 0 || from >= fields.len() {
        None
    } else if fields[from].0 == name {
        Some(from)
    } else {
        field_at(fields, name, from + 1)
    }
}

/// `fields` with `value` under `name`: in the place where `name` is
/// already, else behind all others.
pub open spec fn with_field(
    fields: Seq<(Seq<char>, StrictVal)>,
    name: Seq<char>,
    value: StrictVal,
) -> Seq<(Seq<char>, StrictVal)> {
    match field_at(fields, name, 0) {
        Some(at) => fields.update(at, (name, value)),
        None => fields.push((name, value)),
    }
}

/// Both rows hold the same values under the same names, in whatever order:
/// they are as long, and every name of the first is in the second, with
/// the same value.
pub open spec fn fields_match(a: Seq<(Seq<char>, StrictVal)>, b: Seq<(Seq<char>, StrictVal)>) -> bool {
    &&& a.len() == b.len()
    &&& forall|i: int|
        0 <= i < a.len() ==> match field_value(b, (#[trigger] a[i]).0) {
            Some(value) => val_same(a[i].1, value),
            None => false,
        }
}

/// The value that `fields` hold under `name`.
pub open spec fn field_value(fields: Seq<(Seq<char>, StrictVal)>, name: Seq<char>) -> Option<
    StrictVal,
> {
    match field_at(fields, name, 0) {
        Some(at) => Some(fields[at].1),
        None => None,
    }
}

impl Fields {
    /// `IndexMap::new`: fields that hold nothing.
    #[verifier::external_body]
    pub(crate) fn new() -> (res: Fields)
        ensures
            fields_of(res) == Seq::<(Seq<char>, StrictVal)>::empty(),
    {
        Fields { map: IndexMap::new() }
    }

    /// `IndexMap::insert`, with the key made by `FieldName::from_str` of
    /// `strict_encoding`, which takes every name for fields and variants: a
    /// key that is there keeps its place and gets the value, a new key goes
    /// behind all others.
    #[verifier::external_body]
    pub(crate) fn insert(&mut self, name: &str, value: StrictVal)
        requires
            is_name(NameRule::Member, name@),
        ensures
            fields_of(*final(self)) == with_field(fields_of(*old(self)), name@, value),
    {
        self.map.insert(strict_encoding::FieldName::from_str(name).unwrap(), value);
    }

    /// `IndexMap::get`, with the key made by `FieldName::from_str` of
    /// `strict_encoding`: the value under the key, if it is there.
    #[verifier::external_body]
    pub(crate) fn get(&self, name: &str) -> (res: Option<&StrictVal>)
        requires
            is_name(NameRule::Member, name@),
        ensures
            res == match field_value(fields_of(*self), name@) {
                Some(value) => Some(&value),
                None => None,
            },
    {
        self.map.get(&strict_encoding::FieldName::from_str(name).unwrap())
    }

    /// `IndexMap::eq`: whether both maps hold the same values under the same
    /// keys, in whatever order. It says so where both are as long and every
    /// key of the first is in the second with an equal value; values are
    /// equal as `StrictVal::eq` says.
    #[verifier::external_body]
    pub(crate) fn same(&self, other: &Fields) -> (res: bool)
        ensures
            res == fields_same(*self, *other),
            res == fields_match(fields_of(*self), fields_of(*other)),
    {
        self.map == other.map
    }
}

/// The second row holds, under the names of the first and in their order,
/// the same values.
pub open spec fn fields_copied(a: Seq<(Seq<char>, StrictVal)>, b: Seq<(Seq<char>, StrictVal)>) -> bool {
    &&& a.len() == b.len()
    &&& forall|i: int|
        0 <= i < a.len() ==> (#[trigger] a[i]).0 == b[i].0 && val_same(a[i].1, b[i].1)
}

impl Fields {
    /// `IndexMap::clone`: fields that hold, under the same names in the same
    /// order, copies of the values, made by `StrictVal::clone`; they are the
    /// same as the fields they were copied from.
    #[verifier::external_body]
    pub(crate) fn duplicate(&self) -> (res: Fields)
        ensures
            fields_copied(fields_of(*self), fields_of(res)),
            fields_same(*self, res),
    {
        Fields { map: self.map.clone() }
    }
}

impl core::fmt::Debug for Fields {
    /// `IndexMap::fmt`.
    #[verifier::external_body]
    fn fmt(&self, f: &mut core::fmt::Formatter<'_>) -> (res: Result<(), core::fmt::Error>) {
        core::fmt::Debug::fmt(&self.map, f)
    }
}

/// A value as it is read against a type.
#[derive(Debug)]
pub enum StrictVal {
    /// The value of the unit type.
    Unit,
    /// A number.
    Number(StrictNum),
    /// A string or a character, Unicode or ASCII.
    String(String),
    /// A byte string or an array of bytes.
    Bytes(Vec<u8>),
    /// A tuple.
    Tuple(Vec<StrictVal>),
    /// A structure.
    Struct(Fields),
    /// A value of an enumeration.
    Enum(EnumTag),
    /// A value of a union.
    Union(EnumTag, Box<StrictVal>),
    /// A list or an array that holds neither bytes nor characters.
    List(Vec<StrictVal>),
    /// A set.
    SetOf(Vec<StrictVal>),
    /// A map, as a list of keys with their values.
    MapOf(Vec<(StrictVal, StrictVal)>),
}

impl From<u8> for StrictVal {
    fn from(value: u8) -> (res: StrictVal) {
        StrictVal::Number(StrictNum::from(value))
    }
}

impl FromSpecImpl<u8> for StrictVal {
    open spec fn obeys_from_spec() -> bool {
        true
    }

    open spec fn from_spec(value: u8) -> StrictVal {
        StrictVal::Number(StrictNum::Uint(value as u128))
    }
}

impl From<u16> for StrictVal {
    fn from(value: u16) -> (res: StrictVal) {
        StrictVal::Number(StrictNum::from(value))
    }
}

impl FromSpecImpl<u16> for StrictVal {
    open spec fn obeys_from_spec() -> bool {
        true
    }

    open spec fn from_spec(value: u16) -> StrictVal {
        StrictVal::Number(StrictNum::Uint(value as u128))
    }
}

impl From<u32> for StrictVal {
    fn from(value: u32) -> (res: StrictVal) {
        StrictVal::Number(StrictNum::from(value))
    }
}

impl FromSpecImpl<u32> for StrictVal {
    open spec fn obeys_from_spec() -> bool {
        true
    }

    open spec fn from_spec(value: u32) -> StrictVal {
        StrictVal::Number(StrictNum::Uint(value as u128))
    }
}

impl From<u64> for StrictVal {
    fn from(value: u64) -> (res: StrictVal) {
        StrictVal::Number(StrictNum::from(value))
    }
}

impl FromSpecImpl<u64> for StrictVal {
    open spec fn obeys_from_spec() -> bool {
        true
    }

    open spec fn from_spec(value: u64) -> StrictVal {
        StrictVal::Number(StrictNum::Uint(value as u128))
    }
}

impl From<u128> for StrictVal {
    fn from(value: u128) -> (res: StrictVal) {
        StrictVal::Number(StrictNum::from(value))
    }
}

impl FromSpecImpl<u128> for StrictVal {
    open spec fn obeys_from_spec() -> bool {
        true
    }

    open spec fn from_spec(value: u128) -> StrictVal {
        StrictVal::Number(StrictNum::Uint(value as u128))
    }
}

impl From<i8> for StrictVal {
    fn from(value: i8) -> (res: StrictVal) {
        StrictVal::Number(StrictNum::from(value))
    }
}

impl FromSpecImpl<i8> for StrictVal {
    open spec fn obeys_from_spec() -> bool {
        true
    }

    open spec fn from_spec(value: i8) -> StrictVal {
        StrictVal::Number(StrictNum::Int(value as i128))
    }
}

impl From<i16> for StrictVal {
    fn from(value: i16) -> (res: StrictVal) {
        StrictVal::Number(StrictNum::from(value))
    }
}

impl FromSpecImpl<i16> for StrictVal {
    open spec fn obeys_from_spec() -> bool {
        true
    }

    open spec fn from_spec(value: i16) -> StrictVal {
        StrictVal::Number(StrictNum::Int(value as i128))
    }
}

impl From<i32> for StrictVal {
    fn from(value: i32) -> (res: StrictVal) {
        StrictVal::Number(StrictNum::from(value))
    }
}

impl FromSpecImpl<i32> for StrictVal {
    open spec fn obeys_from_spec() -> bool {
        true
    }

    open spec fn from_spec(value: i32) -> StrictVal {
        StrictVal::Number(StrictNum::Int(value as i128))
    }
}

impl From<i64> for StrictVal {
    fn from(value: i64) -> (res: StrictVal) {
        StrictVal::Number(StrictNum::from(value))
    }
}

impl FromSpecImpl<i64> for StrictVal {
    open spec fn obeys_from_spec() -> bool {
        true
    }

    open spec fn from_spec(value: i64) -> StrictVal {
        StrictVal::Number(StrictNum::Int(value as i128))
    }
}

impl From<i128> for StrictVal {
    fn from(value: i128) -> (res: StrictVal) {
        StrictVal::Number(StrictNum::from(value))
    }
}

impl FromSpecImpl<i128> for StrictVal {
    open spec fn obeys_from_spec() -> bool {
        true
    }

    open spec fn from_spec(value: i128) -> StrictVal {
        StrictVal::Number(StrictNum::Int(value as i128))
    }
}

impl From<()> for StrictVal {
    fn from(value: ()) -> (res: StrictVal) {
        StrictVal::Unit
    }
}

impl FromSpecImpl<()> for StrictVal {
    open spec fn obeys_from_spec() -> bool {
        true
    }

    open spec fn from_spec(value: ()) -> StrictVal {
        StrictVal::Unit
    }
}

impl From<String> for StrictVal {
    fn from(value: String) -> (res: StrictVal) {
        StrictVal::String(value)
    }
}

impl FromSpecImpl<String> for StrictVal {
    open spec fn obeys_from_spec() -> bool {
        true
    }

    open spec fn from_spec(value: String) -> StrictVal {
        StrictVal::String(value)
    }
}

impl From<Vec<u8>> for StrictVal {
    fn from(value: Vec<u8>) -> (res: StrictVal) {
        StrictVal::Bytes(value)
    }
}

impl FromSpecImpl<Vec<u8>> for StrictVal {
    open spec fn obeys_from_spec() -> bool {
        true
    }

    open spec fn from_spec(value: Vec<u8>) -> StrictVal {
        StrictVal::Bytes(value)
    }
}

impl From<EnumTag> for StrictVal {
    fn from(value: EnumTag) -> (res: StrictVal) {
        StrictVal::Enum(value)
    }
}

impl FromSpecImpl<EnumTag> for StrictVal {
    open spec fn obeys_from_spec() -> bool {
        true
    }

    open spec fn from_spec(value: EnumTag) -> StrictVal {
        StrictVal::Enum(value)
    }
}

impl From<Option<StrictVal>> for StrictVal {
    fn from(value: Option<StrictVal>) -> (res: StrictVal) {
        match value {
            None => StrictVal::none(),
            Some(val) => StrictVal::some(val),
        }
    }
}

impl FromSpecImpl<Option<StrictVal>> for StrictVal {
    open spec fn obeys_from_spec() -> bool {
        true
    }

    open spec fn from_spec(value: Option<StrictVal>) -> StrictVal {
        match value {
            None => StrictVal::Union(EnumTag::Ord(0), Box::new(StrictVal::Unit)),
            Some(val) => StrictVal::Union(EnumTag::Ord(1), Box::new(val)),
        }
    }
}

impl<'a> FromSpecImpl<&'a StrictVal> for StrictVal {
    /// The value is a copy: what `from` gives is told by its own contract.
    open spec fn obeys_from_spec() -> bool {
        false
    }

    open spec fn from_spec(value: &'a StrictVal) -> StrictVal {
        *value
    }
}

impl<'a> From<&'a StrictVal> for StrictVal {
    fn from(value: &'a StrictVal) -> (res: StrictVal)
        ensures
            val_same(*value, res),
    {
        value.duplicate()
    }
}

impl<'a> FromSpecImpl<&'a str> for StrictVal {
    /// The string in the value is a new one: what `from` gives is told by
    /// its own contract.
    open spec fn obeys_from_spec() -> bool {
        false
    }

    open spec fn from_spec(value: &'a str) -> StrictVal {
        StrictVal::Unit
    }
}

impl<'a> From<&'a str> for StrictVal {
    fn from(value: &'a str) -> (res: StrictVal)
        ensures
            res matches StrictVal::String(s) && s@ == value@,
    {
        StrictVal::String(value.to_owned())
    }
}

/// Both values are the same: of the same kind, with the same parts. The
/// fields of structures may come in any order.
pub open spec fn val_same(a: StrictVal, b: StrictVal) -> bool
    decreases a,
{
    match a {
        StrictVal::Unit => b is Unit,
        StrictVal::Number(x) => b matches StrictVal::Number(y) && x == y,
        StrictVal::String(x) => b matches StrictVal::String(y) && x@ == y@,
        StrictVal::Bytes(x) => b matches StrictVal::Bytes(y) && x@ == y@,
        StrictVal::Tuple(x) => b matches StrictVal::Tuple(y) && vals_same(x@, y@),
        StrictVal::Struct(x) => b matches StrictVal::Struct(y) && fields_same(x, y),
        StrictVal::Enum(x) => b matches StrictVal::Enum(y) && tag_same(x, y),
        StrictVal::Union(t, v) => b matches StrictVal::Union(u, w) && tag_same(t, u) && val_same(
            *v,
            *w,
        ),
        StrictVal::List(x) => b matches StrictVal::List(y) && vals_same(x@, y@),
        StrictVal::SetOf(x) => b matches StrictVal::SetOf(y) && vals_same(x@, y@),
        StrictVal::MapOf(x) => b matches StrictVal::MapOf(y) && pairs_same(x@, y@),
    }
}

/// Both rows hold the same values in the same order.
pub open spec fn vals_same(a: Seq<StrictVal>, b: Seq<StrictVal>) -> bool
    decreases a,
{
    &&& a.len() == b.len()
    &&& forall|i: int| 0 <= i < a.len() ==> val_same(#[trigger] a[i], b[i])
}

/// Both rows hold the same keys with the same values in the same order.
pub open spec fn pairs_same(a: Seq<(StrictVal, StrictVal)>, b: Seq<(StrictVal, StrictVal)>) -> bool
    decreases a,
{
    &&& a.len() == b.len()
    &&& forall|i: int|
        0 <= i < a.len() ==> val_same((#[trigger] a[i]).0, b[i].0) && val_same(a[i].1, b[i].1)
}

fn same_bytes(a: &Vec<u8>, b: &Vec<u8>) -> (res: bool)
    ensures
        res == (a@ == b@),
{
    if a.len() != b.len() {
        return false;
    }
    let mut i: usize = 0;
    while i < a.len()
        invariant
            0 <= i <= a.len(),
            a.len() == b.len(),
            a@.take(i as int) == b@.take(i as int),
        decreases a.len() - i,
    {
        if a[i] != b[i] {
            return false;
        }
        assert(a@.take(i + 1) =~= a@.take(i as int).push(a@[i as int]));
        assert(b@.take(i + 1) =~= b@.take(i as int).push(b@[i as int]));
        i = i + 1;
    }
    assert(a@.take(i as int) =~= a@);
    assert(b@.take(i as int) =~= b@);
    true
}

fn same_vals(a: &Vec<StrictVal>, b: &Vec<StrictVal>) -> (res: bool)
    ensures
        res == vals_same(a@, b@),
    decreases a,
{
    if a.len() != b.len() {
        return false;
    }
    let mut i: usize = 0;
    while i < a.len()
        invariant
            0 <= i <= a.len(),
            a.len() == b.len(),
            forall|j: int| 0 <= j < i ==> val_same(#[trigger] a@[j], b@[j]),
        decreases a.len() - i,
    {
        if !a[i].same(&b[i]) {
            return false;
        }
        i = i + 1;
    }
    true
}

fn same_pairs(a: &Vec<(StrictVal, StrictVal)>, b: &Vec<(StrictVal, StrictVal)>) -> (res: bool)
    ensures
        res == pairs_same(a@, b@),
    decreases a,
{
    if a.len() != b.len() {
        return false;
    }
    let mut i: usize = 0;
    while i < a.len()
        invariant
            0 <= i <= a.len(),
            a.len() == b.len(),
            forall|j: int|
                0 <= j < i ==> val_same((#[trigger] a@[j]).0, b@[j].0) && val_same(
                    a@[j].1,
                    b@[j].1,
                ),
        decreases a.len() - i,
    {
        if !a[i].0.same(&b[i].0) || !a[i].1.same(&b[i].1) {
            return false;
        }
        i = i + 1;
    }
    true
}

fn copy_bytes(a: &Vec<u8>) -> (res: Vec<u8>)
    ensures
        res@ == a@,
{
    let mut copy: Vec<u8> = Vec::new();
    crate::hash::append_bytes(&mut copy, a.as_slice());
    assert(copy@ =~= a@);
    copy
}

fn copy_vals(a: &Vec<StrictVal>) -> (res: Vec<StrictVal>)
    ensures
        vals_same(a@, res@),
    decreases a,
{
    let mut copy: Vec<StrictVal> = Vec::new();
    let mut i: usize = 0;
    while i < a.len()
        invariant
            0 <= i <= a.len(),
            copy@.len() == i,
            forall|j: int| 0 <= j < i ==> val_same(#[trigger] a@[j], copy@[j]),
        decreases a.len() - i,
    {
        let item = a[i].duplicate();
        copy.push(item);
        i = i + 1;
    }
    copy
}

fn copy_pairs(a: &Vec<(StrictVal, StrictVal)>) -> (res: Vec<(StrictVal, StrictVal)>)
    ensures
        pairs_same(a@, res@),
    decreases a,
{
    let mut copy: Vec<(StrictVal, StrictVal)> = Vec::new();
    let mut i: usize = 0;
    while i < a.len()
        invariant
            0 <= i <= a.len(),
            copy@.len() == i,
            forall|j: int|
                0 <= j < i ==> val_same((#[trigger] a@[j]).0, copy@[j].0) && val_same(
                    a@[j].1,
                    copy@[j].1,
                ),
        decreases a.len() - i,
    {
        let key = a[i].0.duplicate();
        let value = a[i].1.duplicate();
        copy.push((key, value));
        i = i + 1;
    }
    copy
}

impl Clone for StrictVal {
    fn clone(&self) -> (res: StrictVal)
        ensures
            val_same(*self, res),
    {
        self.duplicate()
    }
}

impl PartialEq for StrictVal {
    fn eq(&self, other: &StrictVal) -> (res: bool) {
        self.same(other)
    }
}

impl PartialEqSpecImpl for StrictVal {
    open spec fn obeys_eq_spec() -> bool {
        true
    }

    open spec fn eq_spec(&self, other: &StrictVal) -> bool {
        val_same(*self, *other)
    }
}

/// All of `fields` have names for fields.
pub open spec fn field_names_ok(fields: Seq<(&'static str, StrictVal)>) -> bool {
    forall|i: int| 0 <= i < fields.len() ==> is_name(NameRule::Member, (#[trigger] fields[i]).0@)
}

/// The fields of a structure made of `fields`, taken in their order.
pub open spec fn fields_from(fields: Seq<(&'static str, StrictVal)>) -> Seq<(Seq<char>, StrictVal)>
    decreases fields.len(),
{
    if fields.len() == 0 {
        Seq::empty()
    } else {
        with_field(fields_from(fields.drop_last()), fields.last().0@, fields.last().1)
    }
}

impl StrictVal {
    /// The value without the tuples of one member that wrap it.
    pub open spec fn unwrapped(self) -> StrictVal
        decreases self,
    {
        if let StrictVal::Tuple(fields) = self {
            if fields@.len() == 1 {
                fields@[0].unwrapped()
            } else {
                self
            }
        } else {
            self
        }
    }

    /// The value is an optional one: a union of the variant `None` or 0 with
    /// the unit value, or of the variant `Some` or 1 with any value.
    pub open spec fn is_optional(self) -> bool {
        self.unwrapped() matches StrictVal::Union(tag, value) && (self.as_none() || match tag {
            EnumTag::Name(name) => name@ == "Some"@,
            EnumTag::Ord(ord) => ord == 1,
        })
    }

    /// The value is the absent one: a union of the variant `None` or 0 with
    /// the unit value.
    pub open spec fn as_none(self) -> bool {
        self.unwrapped() matches StrictVal::Union(tag, value) && *value is Unit && match tag {
            EnumTag::Name(name) => name@ == "None"@,
            EnumTag::Ord(ord) => ord == 0,
        }
    }

    /// Whether both values are the same. Two structures are the same where
    /// they have as many fields and every field of the first is in the
    /// second, with the same value.
    pub fn same(&self, other: &StrictVal) -> (res: bool)
        ensures
            res == val_same(*self, *other),
            match (*self, *other) {
                (StrictVal::Struct(x), StrictVal::Struct(y)) => res == fields_match(
                    fields_of(x),
                    fields_of(y),
                ),
                _ => true,
            },
        decreases self,
    {
        match self {
            StrictVal::Unit => match other {
                StrictVal::Unit => true,
                _ => false,
            },
            StrictVal::Number(x) => match other {
                StrictVal::Number(y) => match (x, y) {
                    (StrictNum::Uint(a), StrictNum::Uint(b)) => *a == *b,
                    (StrictNum::BigUint(a), StrictNum::BigUint(b)) => big_uint_same(a, b),
                    (StrictNum::Int(a), StrictNum::Int(b)) => *a == *b,
                    (StrictNum::BigInt(a), StrictNum::BigInt(b)) => big_int_same(a, b),
                    _ => false,
                },
                _ => false,
            },
            StrictVal::String(x) => match other {
                StrictVal::String(y) => *x == *y,
                _ => false,
            },
            StrictVal::Bytes(x) => match other {
                StrictVal::Bytes(y) => same_bytes(x, y),
                _ => false,
            },
            StrictVal::Tuple(x) => match other {
                StrictVal::Tuple(y) => same_vals(x, y),
                _ => false,
            },
            StrictVal::Struct(x) => match other {
                StrictVal::Struct(y) => x.same(y),
                _ => false,
            },
            StrictVal::Enum(x) => match other {
                StrictVal::Enum(y) => x.same(y),
                _ => false,
            },
            StrictVal::Union(t, v) => match other {
                StrictVal::Union(u, w) => t.same(u) && v.same(w),
                _ => false,
            },
            StrictVal::List(x) => match other {
                StrictVal::List(y) => same_vals(x, y),
                _ => false,
            },
            StrictVal::SetOf(x) => match other {
                StrictVal::SetOf(y) => same_vals(x, y),
                _ => false,
            },
            StrictVal::MapOf(x) => match other {
                StrictVal::MapOf(y) => same_pairs(x, y),
                _ => false,
            },
        }
    }

    /// A copy of the value: the same value.
    pub fn duplicate(&self) -> (res: StrictVal)
        ensures
            val_same(*self, res),
        decreases self,
    {
        match self {
            StrictVal::Unit => StrictVal::Unit,
            StrictVal::Number(n) => StrictVal::Number(*n),
            StrictVal::String(text) => StrictVal::String(text.clone()),
            StrictVal::Bytes(bytes) => StrictVal::Bytes(copy_bytes(bytes)),
            StrictVal::Tuple(items) => StrictVal::Tuple(copy_vals(items)),
            StrictVal::Struct(fields) => StrictVal::Struct(fields.duplicate()),
            StrictVal::Enum(tag) => StrictVal::Enum(tag.duplicate()),
            StrictVal::Union(tag, val) => StrictVal::Union(
                tag.duplicate(),
                Box::new(val.duplicate()),
            ),
            StrictVal::List(items) => StrictVal::List(copy_vals(items)),
            StrictVal::SetOf(items) => StrictVal::SetOf(copy_vals(items)),
            StrictVal::MapOf(items) => StrictVal::MapOf(copy_pairs(items)),
        }
    }

    /// The number `n` as a value.
    pub fn num(n: StrictNum) -> (res: StrictVal)
        ensures
            res == StrictVal::Number(n),
    {
        StrictVal::Number(n)
    }

    /// The text `s` as a value.
    pub fn str(s: &str) -> (res: StrictVal)
        ensures
            res matches StrictVal::String(text) && text@ == s@,
    {
        StrictVal::String(s.to_owned())
    }

    /// The bytes `s` as a value.
    pub fn bytes(s: &[u8]) -> (res: StrictVal)
        ensures
            res matches StrictVal::Bytes(bytes) && bytes@ == s@,
    {
        StrictVal::Bytes(vstd::slice::slice_to_vec(s))
    }

    /// The value `inner`, wrapped into a tuple of one member.
    pub fn newtype(inner: StrictVal) -> (res: StrictVal)
        ensures
            res matches StrictVal::Tuple(fields) && fields@ == seq![inner],
    {
        let mut fields = Vec::new();
        fields.push(inner);
        assert(fields@ =~= seq![inner]);
        StrictVal::Tuple(fields)
    }

    /// The tuple of `fields`.
    pub fn tuple(fields: Vec<StrictVal>) -> (res: StrictVal)
        ensures
            res == StrictVal::Tuple(fields),
    {
        StrictVal::Tuple(fields)
    }

    /// The structure of `fields`: each value under its name, in the order
    /// given; of values given under one name, the last stays, in the place
    /// of the first.
    pub fn struc(fields: Vec<(&'static str, StrictVal)>) -> (res: StrictVal)
        requires
            field_names_ok(fields@),
        ensures
            res matches StrictVal::Struct(made) && fields_of(made) == fields_from(fields@),
    {
        let ghost all = fields@;
        let mut rest = fields;
        let mut taken: Vec<(&'static str, StrictVal)> = Vec::new();
        // take the fields off the end, so that they can be put in from the front
        while rest.len() > 0
            invariant
                all == rest@ + taken@.reverse(),
            decreases rest.len(),
        {
            let ghost before = rest@;
            let ghost had = taken@;
            match rest.pop() {
                Some(field) => {
                    taken.push(field);
                    assert(taken@.reverse() =~= seq![field] + had.reverse());
                    assert(before =~= rest@ + seq![field]);
                    assert(all =~= rest@ + taken@.reverse());
                },
                None => {},
            }
        }
        assert(all =~= taken@.reverse());
        let mut made = Fields::new();
        let ghost total = taken@.len() as int;
        assert(all.take(0) =~= Seq::<(&'static str, StrictVal)>::empty());
        while taken.len() > 0
            invariant
                total == all.len(),
                taken@.len() <= total,
                field_names_ok(all),
                forall|i: int| 0 <= i < taken@.len() ==> taken@[i] == all[total - 1 - i],
                fields_of(made) == fields_from(all.take(total - taken@.len())),
            decreases taken.len(),
        {
            let ghost at = total - taken@.len();
            match taken.pop() {
                Some((name, value)) => {
                    assert((name, value) == all[at]);
                    assert(all.take(at + 1).drop_last() =~= all.take(at));
                    assert(all.take(at + 1).last() == all[at]);
                    made.insert(name, value);
                },
                None => {},
            }
        }
        assert(all.take(total) =~= all);
        StrictVal::Struct(made)
    }

    /// The value of the variant `tag` of an enumeration.
    pub fn enumer(tag: EnumTag) -> (res: StrictVal)
        ensures
            res == StrictVal::Enum(tag),
    {
        StrictVal::Enum(tag)
    }

    /// The truth value `v`: the variant 1 for true, 0 for false.
    pub fn bool(v: bool) -> (res: StrictVal)
        ensures
            res == StrictVal::Enum(EnumTag::Ord(if v { 1u8 } else { 0u8 })),
    {
        StrictVal::Enum(EnumTag::Ord(if v { 1u8 } else { 0u8 }))
    }

    /// The value `val` in the variant `tag` of a union.
    pub fn union(tag: EnumTag, val: StrictVal) -> (res: StrictVal)
        ensures
            res == StrictVal::Union(tag, Box::new(val)),
    {
        StrictVal::Union(tag, Box::new(val))
    }

    /// The absent value.
    pub fn none() -> (res: StrictVal)
        ensures
            res == StrictVal::Union(EnumTag::Ord(0), Box::new(StrictVal::Unit)),
            res.as_none(),
    {
        StrictVal::Union(EnumTag::Ord(0), Box::new(StrictVal::Unit))
    }

    /// The value `val` as one that is present.
    pub fn some(val: StrictVal) -> (res: StrictVal)
        ensures
            res == StrictVal::Union(EnumTag::Ord(1), Box::new(val)),
            res.is_optional(),
            !res.as_none(),
    {
        StrictVal::Union(EnumTag::Ord(1), Box::new(val))
    }

    /// The list of `items`.
    pub fn list(items: Vec<StrictVal>) -> (res: StrictVal)
        ensures
            res == StrictVal::List(items),
    {
        StrictVal::List(items)
    }

    /// The set of `items`.
    pub fn set(items: Vec<StrictVal>) -> (res: StrictVal)
        ensures
            res == StrictVal::SetOf(items),
    {
        StrictVal::SetOf(items)
    }

    /// The map of `items`, each a key with its value.
    pub fn map(items: Vec<(StrictVal, StrictVal)>) -> (res: StrictVal)
        ensures
            res == StrictVal::MapOf(items),
    {
        StrictVal::MapOf(items)
    }

    /// The value without the tuples of one member that wrap it.
    pub fn skip_wrapper(&self) -> (res: &StrictVal)
        ensures
            *res == self.unwrapped(),
        decreases self,
    {
        match self {
            StrictVal::Tuple(fields) => {
                if fields.len() == 1 {
                    fields[0].skip_wrapper()
                } else {
                    self
                }
            },
            _ => self,
        }
    }

    /// What an optional value holds: nothing, or the value that is present.
    pub fn unwrap_option(&self) -> (res: Option<&StrictVal>)
        requires
            self.is_optional(),
        ensures
            match res {
                None => self.as_none(),
                Some(value) => {
                    &&& !self.as_none()
                    &&& self.unwrapped() matches StrictVal::Union(_, held) && *held == *value
                },
            },
    {
        match self.skip_wrapper() {
            StrictVal::Union(tag, value) => {
                let unit = match &**value {
                    StrictVal::Unit => true,
                    _ => false,
                };
                match tag {
                    EnumTag::Name(name) => {
                        if name.spells("None") && unit {
                            None
                        } else {
                            Some(&**value)
                        }
                    },
                    EnumTag::Ord(ord) => {
                        if *ord == 0 && unit {
                            None
                        } else {
                            Some(&**value)
                        }
                    },
                }
            },
            _ => vstd::pervasive::unreached(),
        }
    }

    /// The number that the value is.
    pub fn unwrap_num(&self) -> (res: &StrictNum)
        requires
            self.unwrapped() is Number,
        ensures
            *res == self.unwrapped()->Number_0,
    {
        match self.skip_wrapper() {
            StrictVal::Number(v) => v,
            _ => vstd::pervasive::unreached(),
        }
    }

    /// The unsigned integer that the value is, as `N`.
    pub fn unwrap_uint<N: TryFrom<u128>>(&self) -> (res: N)
        requires
            self.unwrapped() matches StrictVal::Number(StrictNum::Uint(v)) && <N as TryFromSpec<
                u128,
            >>::try_from_spec(v) is Ok,
            <N as TryFromSpec<u128>>::obeys_try_from_spec(),
        ensures
            self.unwrapped() matches StrictVal::Number(StrictNum::Uint(v)) && <N as TryFromSpec<
                u128,
            >>::try_from_spec(v) == Ok::<N, N::Error>(res),
    {
        self.unwrap_num().unwrap_uint()
    }

    /// The bytes that the value is.
    pub fn unwrap_bytes(&self) -> (res: &Vec<u8>)
        requires
            self.unwrapped() is Bytes,
        ensures
            *res == self.unwrapped()->Bytes_0,
    {
        match self.skip_wrapper() {
            StrictVal::Bytes(v) => v,
            _ => vstd::pervasive::unreached(),
        }
    }

    /// The member `no` of the tuple that the value is.
    pub fn unwrap_tuple(&self, no: u16) -> (res: &StrictVal)
        requires
            self.unwrapped() matches StrictVal::Tuple(fields) && no < fields@.len(),
        ensures
            self.unwrapped() matches StrictVal::Tuple(fields) && *res == fields@[no as int],
    {
        match self.skip_wrapper() {
            StrictVal::Tuple(v) => &v[no as usize],
            _ => vstd::pervasive::unreached(),
        }
    }

    /// The field `field` of the structure that the value is.
    pub fn unwrap_struct(&self, field: &'static str) -> (res: &StrictVal)
        requires
            is_name(NameRule::Member, field@),
            self.unwrapped() matches StrictVal::Struct(fields) && field_value(
                fields_of(fields),
                field@,
            ) is Some,
        ensures
            self.unwrapped() matches StrictVal::Struct(fields) && field_value(
                fields_of(fields),
                field@,
            ) == Some(*res),
    {
        match self.skip_wrapper() {
            StrictVal::Struct(v) => match v.get(field) {
                Some(value) => value,
                None => vstd::pervasive::unreached(),
            },
            _ => vstd::pervasive::unreached(),
        }
    }

    /// The field `field` of the value, where the value is a structure that
    /// has a field of that name, and nothing else.
    pub fn try_unwrap_struct(&self, field: &'static str) -> (res: Option<&StrictVal>)
        ensures
            match res {
                Some(value) => {
                    &&& is_name(NameRule::Member, field@)
                    &&& self.unwrapped() matches StrictVal::Struct(fields) && field_value(
                        fields_of(fields),
                        field@,
                    ) == Some(*value)
                },
                None => !is_name(NameRule::Member, field@) || !(self.unwrapped() matches StrictVal::Struct(
                    fields,
                ) && field_value(fields_of(fields), field@) is Some),
            },
    {
        if crate::util::check(NameRule::Member, field).is_err() {
            return None;
        }
        match self.skip_wrapper() {
            StrictVal::Struct(v) => {
                if v.get(field).is_some() {
                    Some(self.unwrap_struct(field))
                } else {
                    None
                }
            },
            _ => None,
        }
    }

    /// The tag of the value of an enumeration that the value is.
    pub fn unwrap_enum_tag(&self) -> (res: &EnumTag)
        requires
            self.unwrapped() is Enum,
        ensures
            *res == self.unwrapped()->Enum_0,
    {
        match self.skip_wrapper() {
            StrictVal::Enum(tag) => tag,
            _ => vstd::pervasive::unreached(),
        }
    }

    /// The tag and the value of the union that the value is.
    pub fn unwrap_union(&self) -> (res: (&EnumTag, &StrictVal))
        requires
            self.unwrapped() is Union,
        ensures
            self.unwrapped() matches StrictVal::Union(tag, value) && *res.0 == tag && *res.1
                == *value,
    {
        match self.skip_wrapper() {
            StrictVal::Union(tag, v) => (tag, &**v),
            _ => vstd::pervasive::unreached(),
        }
    }

    /// The item at `no` of the list or the set that the value is.
    pub fn unwrap_pos(&self, no: usize) -> (res: &StrictVal)
        requires
            match self.unwrapped() {
                StrictVal::List(items) => no < items@.len(),
                StrictVal::SetOf(items) => no < items@.len(),
                _ => false,
            },
        ensures
            match self.unwrapped() {
                StrictVal::List(items) => *res == items@[no as int],
                StrictVal::SetOf(items) => *res == items@[no as int],
                _ => false,
            },
    {
        match self.skip_wrapper() {
            StrictVal::List(v) => &v[no],
            StrictVal::SetOf(v) => &v[no],
            _ => vstd::pervasive::unreached(),
        }
    }

    /// The value under the first key that is the same as `key`, in the map
    /// that the value is.
    pub fn unwrap_key(&self, key: &StrictVal) -> (res: &StrictVal)
        requires
            self.unwrapped() matches StrictVal::MapOf(items) && key_at(items@, *key, 0) is Some,
        ensures
            self.unwrapped() matches StrictVal::MapOf(items) && key_at(items@, *key, 0) matches Some(
                at,
            ) && *res == items@[at].1,
    {
        match self.skip_wrapper() {
            StrictVal::MapOf(v) => {
                let mut i: usize = 0;
                while i < v.len()
                    invariant
                        0 <= i <= v.len(),
                        self.unwrapped() == StrictVal::MapOf(*v),
                        key_at(v@, *key, 0) == key_at(v@, *key, i as int),
                        key_at(v@, *key, 0) is Some,
                    decreases v.len() - i,
                {
                    if v[i].0.same(key) {
                        return &v[i].1;
                    }
                    i = i + 1;
                }
                vstd::pervasive::unreached()
            },
            _ => vstd::pervasive::unreached(),
        }
    }
}

/// Every one of `items` is a value of an enumeration told by its number.
pub open spec fn all_ords(items: Seq<StrictVal>) -> bool {
    forall|i: int|
        0 <= i < items.len() ==> (#[trigger] items[i]) matches StrictVal::Enum(EnumTag::Ord(_))
}

/// The numbers that tell the values of `items`.
pub open spec fn ords_of(items: Seq<StrictVal>) -> Seq<u8> {
    Seq::new(items.len(), |i: int| items[i]->Enum_0->Ord_0)
}

impl StrictVal {
    /// The bytes of the text that the value holds, where it holds it as
    /// bytes: in a byte string, or in a list of values of an enumeration of
    /// characters.
    pub open spec fn text_bytes(self) -> Option<Seq<u8>> {
        match self.unwrapped() {
            StrictVal::Bytes(bytes) => Some(bytes@),
            StrictVal::List(items) => if all_ords(items@) {
                Some(ords_of(items@))
            } else {
                None
            },
            _ => None,
        }
    }

    /// The value holds a text: it is a string, or bytes that encode a text
    /// in UTF-8, or an empty list, or a list of values of an enumeration,
    /// told by their numbers, which encode a text in UTF-8.
    pub open spec fn is_text(self) -> bool {
        match self.unwrapped() {
            StrictVal::String(_) => true,
            StrictVal::List(items) => items@.len() == 0 || (all_ords(items@) && valid_utf8(
                ords_of(items@),
            )),
            StrictVal::Bytes(bytes) => valid_utf8(bytes@),
            _ => false,
        }
    }

    /// The text that the value holds, where it holds one.
    pub fn try_unwrap_string(&self) -> (res: Option<String>)
        ensures
            res is Some <==> self.is_text(),
            res matches Some(text) ==> match self.unwrapped() {
                StrictVal::String(held) => text@ == held@,
                StrictVal::List(items) => if items@.len() == 0 {
                    text@ == Seq::<char>::empty()
                } else {
                    text@ == decode_utf8(ords_of(items@))
                },
                StrictVal::Bytes(bytes) => text@ == decode_utf8(bytes@),
                _ => false,
            },
    {
        match self.skip_wrapper() {
            StrictVal::String(v) => Some(v.clone()),
            StrictVal::Bytes(v) => {
                let mut copy: Vec<u8> = Vec::new();
                crate::hash::append_bytes(&mut copy, v.as_slice());
                assert(copy@ =~= v@);
                crate::util::string_from_utf8(copy)
            },
            StrictVal::List(v) => {
                if v.len() == 0 {
                    return Some(String::new());
                }
                let mut bytes: Vec<u8> = Vec::new();
                let mut i: usize = 0;
                while i < v.len()
                    invariant
                        0 <= i <= v.len(),
                        v@.len() > 0,
                        self.unwrapped() matches StrictVal::List(items) && items@ == v@,
                        all_ords(v@.take(i as int)),
                        bytes@.len() == i,
                        forall|j: int| 0 <= j < i ==> bytes@[j] == ords_of(v@)[j],
                    decreases v.len() - i,
                {
                    let ord = match &v[i] {
                        StrictVal::Enum(EnumTag::Ord(ord)) => *ord,
                        _ => {
                            assert(!(v@[i as int] matches StrictVal::Enum(EnumTag::Ord(_))));
                            return None;
                        },
                    };
                    bytes.push(ord);
                    assert forall|j: int| 0 <= j < i + 1 implies (#[trigger] v@.take(i + 1)[j]) matches StrictVal::Enum(
                        EnumTag::Ord(_),
                    ) by {
                        if j < i {
                            assert(v@.take(i as int)[j] == v@[j]);
                        }
                    }
                    i = i + 1;
                }
                assert(v@.take(i as int) =~= v@);
                assert(bytes@ =~= ords_of(v@));
                crate::util::string_from_utf8(bytes)
            },
            _ => None,
        }
    }

    /// The text that the value holds.
    pub fn unwrap_string(&self) -> (res: String)
        requires
            self.is_text(),
        ensures
            match self.unwrapped() {
                StrictVal::String(text) => res@ == text@,
                StrictVal::List(items) => if items@.len() == 0 {
                    res@ == Seq::<char>::empty()
                } else {
                    res@ == decode_utf8(ords_of(items@))
                },
                StrictVal::Bytes(bytes) => res@ == decode_utf8(bytes@),
                _ => false,
            },
    {
        match self.try_unwrap_string() {
            Some(text) => text,
            None => vstd::pervasive::unreached(),
        }
    }
}

/// The place of the first of `items`, from `from` on, whose key is the same
/// as `key`.
pub open spec fn key_at(items: Seq<(StrictVal, StrictVal)>, key: StrictVal, from: int) -> Option<
    int,
>
    decreases items.len() - from,
{
    if from < 0 || from >= items.len() {
        None
    } else if val_same(items[from].0, key) {
        Some(from)
    } else {
        key_at(items, key, from + 1)
    }
}

} // verus!
