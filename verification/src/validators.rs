//! Validators of option arguments.

use crate::errors::{InvalidOption, InvalidOptionView};
use crate::strings::opt_string_view;
use vstd::prelude::*;

verus! {

/// The outcome of a validation, with the error taken by its view.
pub open spec fn outcome_view(r: Result<(), InvalidOption>) -> Result<(), InvalidOptionView> {
    match r {
        Ok(()) => Ok(()),
        Err(e) => Err(e@),
    }
}

/// What validating `opt_arg` gives when converting it to a number reported `failure` (`None`
/// when the conversion succeeded, else the description of its error).
pub open spec fn arg_check_outcome(
    store_key: Seq<char>,
    option: Seq<char>,
    opt_arg: Seq<char>,
    failure: Option<Seq<char>>,
) -> Result<(), InvalidOptionView> {
    match failure {
        None => Ok(()),
        Some(details) => Err(
            InvalidOptionView::OptionArgIsInvalid { store_key, option, opt_arg, details },
        ),
    }
}

/// Integer types whose text form an option argument can be checked against.
pub trait NumberArg {
    /// Converts `text` to a number of this type and returns `None` when that succeeds, or the
    /// description of the conversion error.
    fn parse_failure(text: &str) -> Option<String>;
}
/// An ASCII decimal digit.
pub open spec fn is_decimal_digit(c: char) -> bool {
    '0' <= c && c <= '9'
}

/// The value of the decimal digits `d`.
pub open spec fn decimal_value(d: Seq<char>) -> int
    decreases d.len(),
{
    if d.len() == 0 {
        0
    } else {
        decimal_value(d.drop_last()) * 10 + (d.last() as int - '0' as int)
    }
}

/// The integer that `text` writes in decimal: an optional `+` sign (or, where `signed`, a `-`
/// sign), then at least one decimal digit and nothing else; `None` when it writes none.
pub open spec fn decimal_integer(text: Seq<char>, signed: bool) -> Option<int> {
    let (negative, digits) = if text.len() > 0 && text[0] == '+' {
        (false, text.skip(1))
    } else if signed && text.len() > 0 && text[0] == '-' {
        (true, text.skip(1))
    } else {
        (false, text)
    };
    if digits.len() > 0 && forall|k: int| 0 <= k < digits.len() ==> is_decimal_digit(#[trigger] digits[k]) {
        Some(if negative { -decimal_value(digits) } else { decimal_value(digits) })
    } else {
        None
    }
}

/// Whether `text` writes, as [decimal_integer] reads it, an integer from `min` to `max`.
pub open spec fn parses_within(text: Seq<char>, signed: bool, min: int, max: int) -> bool {
    decimal_integer(text, signed) matches Some(v) && min <= v && v <= max
}

/// The outcome of `str::parse::<i8>` on the given text: `None` when it succeeds, else the
/// text of its error.
pub uninterp spec fn i8_parse_failure(text: Seq<char>) -> Option<Seq<char>>;
/// The outcome of `str::parse::<i16>` on the given text: `None` when it succeeds, else the
/// text of its error.
pub uninterp spec fn i16_parse_failure(text: Seq<char>) -> Option<Seq<char>>;
/// The outcome of `str::parse::<i32>` on the given text: `None` when it succeeds, else the
/// text of its error.
pub uninterp spec fn i32_parse_failure(text: Seq<char>) -> Option<Seq<char>>;
/// The outcome of `str::parse::<i64>` on the given text: `None` when it succeeds, else the
/// text of its error.
pub uninterp spec fn i64_parse_failure(text: Seq<char>) -> Option<Seq<char>>;
/// The outcome of `str::parse::<i128>` on the given text: `None` when it succeeds, else the
/// text of its error.
pub uninterp spec fn i128_parse_failure(text: Seq<char>) -> Option<Seq<char>>;
/// The outcome of `str::parse::<u8>` on the given text: `None` when it succeeds, else the
/// text of its error.
pub uninterp spec fn u8_parse_failure(text: Seq<char>) -> Option<Seq<char>>;
/// The outcome of `str::parse::<u16>` on the given text: `None` when it succeeds, else the
/// text of its error.
pub uninterp spec fn u16_parse_failure(text: Seq<char>) -> Option<Seq<char>>;
/// The outcome of `str::parse::<u32>` on the given text: `None` when it succeeds, else the
/// text of its error.
pub uninterp spec fn u32_parse_failure(text: Seq<char>) -> Option<Seq<char>>;
/// The outcome of `str::parse::<u64>` on the given text: `None` when it succeeds, else the
/// text of its error.
pub uninterp spec fn u64_parse_failure(text: Seq<char>) -> Option<Seq<char>>;
/// The outcome of `str::parse::<u128>` on the given text: `None` when it succeeds, else the
/// text of its error.
pub uninterp spec fn u128_parse_failure(text: Seq<char>) -> Option<Seq<char>>;
/// The outcome of `str::parse::<isize>` on the given text where `isize` is `width` bits wide:
/// `None` when it succeeds, else the text of its error.
pub uninterp spec fn isize_parse_failure(text: Seq<char>, width: u32) -> Option<Seq<char>>;
/// The outcome of `str::parse::<usize>` on the given text where `usize` is `width` bits wide:
/// `None` when it succeeds, else the text of its error.
pub uninterp spec fn usize_parse_failure(text: Seq<char>, width: u32) -> Option<Seq<char>>;
/// Calls `str::parse::<i8>` on `text` and returns the error's description (its `Display`
/// text) when the conversion fails. The contract claims that the result is
/// `i8_parse_failure` of the text, and that the conversion succeeds exactly when
/// the text writes a decimal integer in the type's range (`parses_within`), as std documents;
/// the error's text is left unsaid.
#[verifier::external_body]
fn parse_i8_failure(text: &str) -> (r: Option<String>)
    ensures
        opt_string_view(r) == i8_parse_failure(text@),
        (opt_string_view(r) is None) == parses_within(text@, true, i8::MIN as int, i8::MAX as int),
{
    match text.parse::<i8>() {
        Ok(_) => None,
        Err(e) => Some(e.to_string()),
    }
}

impl NumberArg for i8 {
    fn parse_failure(text: &str) -> (r: Option<String>)
        ensures
            opt_string_view(r) == i8_parse_failure(text@),
            (opt_string_view(r) is None) == parses_within(text@, true, i8::MIN as int, i8::MAX as int),
    {
        parse_i8_failure(text)
    }
}
/// Calls `str::parse::<i16>` on `text` and returns the error's description (its `Display`
/// text) when the conversion fails. The contract claims that the result is
/// `i16_parse_failure` of the text, and that the conversion succeeds exactly when
/// the text writes a decimal integer in the type's range (`parses_within`), as std documents;
/// the error's text is left unsaid.
#[verifier::external_body]
fn parse_i16_failure(text: &str) -> (r: Option<String>)
    ensures
        opt_string_view(r) == i16_parse_failure(text@),
        (opt_string_view(r) is None) == parses_within(text@, true, i16::MIN as int, i16::MAX as int),
{
    match text.parse::<i16>() {
        Ok(_) => None,
        Err(e) => Some(e.to_string()),
    }
}

impl NumberArg for i16 {
    fn parse_failure(text: &str) -> (r: Option<String>)
        ensures
            opt_string_view(r) == i16_parse_failure(text@),
            (opt_string_view(r) is None) == parses_within(text@, true, i16::MIN as int, i16::MAX as int),
    {
        parse_i16_failure(text)
    }
}
/// Calls `str::parse::<i32>` on `text` and returns the error's description (its `Display`
/// text) when the conversion fails. The contract claims that the result is
/// `i32_parse_failure` of the text, and that the conversion succeeds exactly when
/// the text writes a decimal integer in the type's range (`parses_within`), as std documents;
/// the error's text is left unsaid.
#[verifier::external_body]
fn parse_i32_failure(text: &str) -> (r: Option<String>)
    ensures
        opt_string_view(r) == i32_parse_failure(text@),
        (opt_string_view(r) is None) == parses_within(text@, true, i32::MIN as int, i32::MAX as int),
{
    match text.parse::<i32>() {
        Ok(_) => None,
        Err(e) => Some(e.to_string()),
    }
}

impl NumberArg for i32 {
    fn parse_failure(text: &str) -> (r: Option<String>)
        ensures
            opt_string_view(r) == i32_parse_failure(text@),
            (opt_string_view(r) is None) == parses_within(text@, true, i32::MIN as int, i32::MAX as int),
    {
        parse_i32_failure(text)
    }
}
/// Calls `str::parse::<i64>` on `text` and returns the error's description (its `Display`
/// text) when the conversion fails. The contract claims that the result is
/// `i64_parse_failure` of the text, and that the conversion succeeds exactly when
/// the text writes a decimal integer in the type's range (`parses_within`), as std documents;
/// the error's text is left unsaid.
#[verifier::external_body]
fn parse_i64_failure(text: &str) -> (r: Option<String>)
    ensures
        opt_string_view(r) == i64_parse_failure(text@),
        (opt_string_view(r) is None) == parses_within(text@, true, i64::MIN as int, i64::MAX as int),
{
    match text.parse::<i64>() {
        Ok(_) => None,
        Err(e) => Some(e.to_string()),
    }
}

impl NumberArg for i64 {
    fn parse_failure(text: &str) -> (r: Option<String>)
        ensures
            opt_string_view(r) == i64_parse_failure(text@),
            (opt_string_view(r) is None) == parses_within(text@, true, i64::MIN as int, i64::MAX as int),
    {
        parse_i64_failure(text)
    }
}
/// Calls `str::parse::<i128>` on `text` and returns the error's description (its `Display`
/// text) when the conversion fails. The contract claims that the result is
/// `i128_parse_failure` of the text, and that the conversion succeeds exactly when
/// the text writes a decimal integer in the type's range (`parses_within`), as std documents;
/// the error's text is left unsaid.
#[verifier::external_body]
fn parse_i128_failure(text: &str) -> (r: Option<String>)
    ensures
        opt_string_view(r) == i128_parse_failure(text@),
        (opt_string_view(r) is None) == parses_within(text@, true, i128::MIN as int, i128::MAX as int),
{
    match text.parse::<i128>() {
        Ok(_) => None,
        Err(e) => Some(e.to_string()),
    }
}

impl NumberArg for i128 {
    fn parse_failure(text: &str) -> (r: Option<String>)
        ensures
            opt_string_view(r) == i128_parse_failure(text@),
            (opt_string_view(r) is None) == parses_within(text@, true, i128::MIN as int, i128::MAX as int),
    {
        parse_i128_failure(text)
    }
}
/// Calls `str::parse::<u8>` on `text` and returns the error's description (its `Display`
/// text) when the conversion fails. The contract claims that the result is
/// `u8_parse_failure` of the text, and that the conversion succeeds exactly when
/// the text writes a decimal integer in the type's range (`parses_within`), as std documents;
/// the error's text is left unsaid.
#[verifier::external_body]
fn parse_u8_failure(text: &str) -> (r: Option<String>)
    ensures
        opt_string_view(r) == u8_parse_failure(text@),
        (opt_string_view(r) is None) == parses_within(text@, false, u8::MIN as int, u8::MAX as int),
{
    match text.parse::<u8>() {
        Ok(_) => None,
        Err(e) => Some(e.to_string()),
    }
}

impl NumberArg for u8 {
    fn parse_failure(text: &str) -> (r: Option<String>)
        ensures
            opt_string_view(r) == u8_parse_failure(text@),
            (opt_string_view(r) is None) == parses_within(text@, false, u8::MIN as int, u8::MAX as int),
    {
        parse_u8_failure(text)
    }
}
/// Calls `str::parse::<u16>` on `text` and returns the error's description (its `Display`
/// text) when the conversion fails. The contract claims that the result is
/// `u16_parse_failure` of the text, and that the conversion succeeds exactly when
/// the text writes a decimal integer in the type's range (`parses_within`), as std documents;
/// the error's text is left unsaid.
#[verifier::external_body]
fn parse_u16_failure(text: &str) -> (r: Option<String>)
    ensures
        opt_string_view(r) == u16_parse_failure(text@),
        (opt_string_view(r) is None) == parses_within(text@, false, u16::MIN as int, u16::MAX as int),
{
    match text.parse::<u16>() {
        Ok(_) => None,
        Err(e) => Some(e.to_string()),
    }
}

impl NumberArg for u16 {
    fn parse_failure(text: &str) -> (r: Option<String>)
        ensures
            opt_string_view(r) == u16_parse_failure(text@),
            (opt_string_view(r) is None) == parses_within(text@, false, u16::MIN as int, u16::MAX as int),
    {
        parse_u16_failure(text)
    }
}
/// Calls `str::parse::<u32>` on `text` and returns the error's description (its `Display`
/// text) when the conversion fails. The contract claims that the result is
/// `u32_parse_failure` of the text, and that the conversion succeeds exactly when
/// the text writes a decimal integer in the type's range (`parses_within`), as std documents;
/// the error's text is left unsaid.
#[verifier::external_body]
fn parse_u32_failure(text: &str) -> (r: Option<String>)
    ensures
        opt_string_view(r) == u32_parse_failure(text@),
        (opt_string_view(r) is None) == parses_within(text@, false, u32::MIN as int, u32::MAX as int),
{
    match text.parse::<u32>() {
        Ok(_) => None,
        Err(e) => Some(e.to_string()),
    }
}

impl NumberArg for u32 {
    fn parse_failure(text: &str) -> (r: Option<String>)
        ensures
            opt_string_view(r) == u32_parse_failure(text@),
            (opt_string_view(r) is None) == parses_within(text@, false, u32::MIN as int, u32::MAX as int),
    {
        parse_u32_failure(text)
    }
}
/// Calls `str::parse::<u64>` on `text` and returns the error's description (its `Display`
/// text) when the conversion fails. The contract claims that the result is
/// `u64_parse_failure` of the text, and that the conversion succeeds exactly when
/// the text writes a decimal integer in the type's range (`parses_within`), as std documents;
/// the error's text is left unsaid.
#[verifier::external_body]
fn parse_u64_failure(text: &str) -> (r: Option<String>)
    ensures
        opt_string_view(r) == u64_parse_failure(text@),
        (opt_string_view(r) is None) == parses_within(text@, false, u64::MIN as int, u64::MAX as int),
{
    match text.parse::<u64>() {
        Ok(_) => None,
        Err(e) => Some(e.to_string()),
    }
}

impl NumberArg for u64 {
    fn parse_failure(text: &str) -> (r: Option<String>)
        ensures
            opt_string_view(r) == u64_parse_failure(text@),
            (opt_string_view(r) is None) == parses_within(text@, false, u64::MIN as int, u64::MAX as int),
    {
        parse_u64_failure(text)
    }
}
/// Calls `str::parse::<u128>` on `text` and returns the error's description (its `Display`
/// text) when the conversion fails. The contract claims that the result is
/// `u128_parse_failure` of the text, and that the conversion succeeds exactly when
/// the text writes a decimal integer in the type's range (`parses_within`), as std documents;
/// the error's text is left unsaid.
#[verifier::external_body]
fn parse_u128_failure(text: &str) -> (r: Option<String>)
    ensures
        opt_string_view(r) == u128_parse_failure(text@),
        (opt_string_view(r) is None) == parses_within(text@, false, u128::MIN as int, u128::MAX as int),
{
    match text.parse::<u128>() {
        Ok(_) => None,
        Err(e) => Some(e.to_string()),
    }
}

impl NumberArg for u128 {
    fn parse_failure(text: &str) -> (r: Option<String>)
        ensures
            opt_string_view(r) == u128_parse_failure(text@),
            (opt_string_view(r) is None) == parses_within(text@, false, u128::MIN as int, u128::MAX as int),
    {
        parse_u128_failure(text)
    }
}
/// Calls `str::parse::<isize>` on `text` and returns the error's description (its `Display`
/// text) when the conversion fails. The range of `isize` depends on the machine's pointer width,
/// so the contract claims that the result is `isize_parse_failure` of the text and of that width
/// (`usize::BITS`), and that the conversion succeeds exactly when the text writes a decimal
/// integer in the type's range (`parses_within`), as std documents; the error's text is left
/// unsaid.
#[verifier::external_body]
fn parse_isize_failure(text: &str) -> (r: Option<String>)
    ensures
        opt_string_view(r) == isize_parse_failure(text@, usize::BITS),
        (opt_string_view(r) is None) == parses_within(text@, true, isize::MIN as int, isize::MAX as int),
{
    match text.parse::<isize>() {
        Ok(_) => None,
        Err(e) => Some(e.to_string()),
    }
}

impl NumberArg for isize {
    fn parse_failure(text: &str) -> (r: Option<String>)
        ensures
            opt_string_view(r) == isize_parse_failure(text@, usize::BITS),
            (opt_string_view(r) is None) == parses_within(text@, true, isize::MIN as int, isize::MAX as int),
    {
        parse_isize_failure(text)
    }
}
/// Calls `str::parse::<usize>` on `text` and returns the error's description (its `Display`
/// text) when the conversion fails. The range of `usize` depends on the machine's pointer width,
/// so the contract claims that the result is `usize_parse_failure` of the text and of that width
/// (`usize::BITS`), and that the conversion succeeds exactly when the text writes a decimal
/// integer in the type's range (`parses_within`), as std documents; the error's text is left
/// unsaid.
#[verifier::external_body]
fn parse_usize_failure(text: &str) -> (r: Option<String>)
    ensures
        opt_string_view(r) == usize_parse_failure(text@, usize::BITS),
        (opt_string_view(r) is None) == parses_within(text@, false, usize::MIN as int, usize::MAX as int),
{
    match text.parse::<usize>() {
        Ok(_) => None,
        Err(e) => Some(e.to_string()),
    }
}

impl NumberArg for usize {
    fn parse_failure(text: &str) -> (r: Option<String>)
        ensures
            opt_string_view(r) == usize_parse_failure(text@, usize::BITS),
            (opt_string_view(r) is None) == parses_within(text@, false, usize::MIN as int, usize::MAX as int),
    {
        parse_usize_failure(text)
    }
}
/// Turns the outcome of converting `opt_arg` to a number into the outcome of its validation:
/// `Ok` when the conversion succeeded, else `InvalidOption::OptionArgIsInvalid` with the
/// conversion error's description as `details`.
pub fn check_number_outcome(
    store_key: &str,
    option: &str,
    opt_arg: &str,
    failure: Option<String>,
) -> (r: Result<(), InvalidOption>)
    ensures
        outcome_view(r) == arg_check_outcome(store_key@, option@, opt_arg@, opt_string_view(failure)),
{
    match failure {
        None => Ok(()),
        Some(details) => Err(
            InvalidOption::OptionArgIsInvalid {
                store_key: store_key.to_owned(),
                option: option.to_owned(),
                opt_arg: opt_arg.to_owned(),
                details,
            },
        ),
    }
}

/// Validates an option argument string whether it is valid as a number value of the specified
/// type.
///
/// If the option argument is invalid, this function returns a `InvalidOption::OptionArgIsInvalid`
/// instance.
///
/// The outcome is that of [check_number_outcome] on what `T::parse_failure` gives for the
/// option argument.
pub fn validate_number<T: NumberArg>(store_key: &str, option: &str, opt_arg: &str) -> (r: Result<
    (),
    InvalidOption,
>)
    ensures
        exists|failure: Option<String>|
            #![trigger call_ensures(T::parse_failure, (opt_arg,), failure)]
            call_ensures(T::parse_failure, (opt_arg,), failure) && outcome_view(r)
                == arg_check_outcome(store_key@, option@, opt_arg@, opt_string_view(failure)),
{
    let parse = T::parse_failure;
    let failure = parse(opt_arg);
    let ghost reported = failure;
    let r = check_number_outcome(store_key, option, opt_arg, failure);
    assert(call_ensures(T::parse_failure, (opt_arg,), reported));
    r
}

/// The integer type of a number validator.
#[derive(Clone, Copy, Debug, PartialEq, Eq)]
pub enum NumberKind {
    I8,
    I16,
    I32,
    I64,
    I128,
    U8,
    U16,
    U32,
    U64,
    U128,
}

/// How an option configuration validates the arguments of its option.
#[derive(Clone, Copy, Debug, PartialEq, Eq)]
pub enum Validator {
    /// Every argument is valid.
    Accept,
    /// An argument is valid when it converts to a number of the given integer type.
    Number(NumberKind),
}

/// The outcome of converting `text` to a number of the given kind.
pub open spec fn number_failure(kind: NumberKind, text: Seq<char>) -> Option<Seq<char>> {
    match kind {
        NumberKind::I8 => i8_parse_failure(text),
        NumberKind::I16 => i16_parse_failure(text),
        NumberKind::I32 => i32_parse_failure(text),
        NumberKind::I64 => i64_parse_failure(text),
        NumberKind::I128 => i128_parse_failure(text),
        NumberKind::U8 => u8_parse_failure(text),
        NumberKind::U16 => u16_parse_failure(text),
        NumberKind::U32 => u32_parse_failure(text),
        NumberKind::U64 => u64_parse_failure(text),
        NumberKind::U128 => u128_parse_failure(text),
    }
}

/// The outcome of validating `opt_arg` of the option `option` with store key `store_key`.
pub open spec fn validator_outcome(
    v: Validator,
    store_key: Seq<char>,
    option: Seq<char>,
    opt_arg: Seq<char>,
) -> Result<(), InvalidOptionView> {
    match v {
        Validator::Accept => Ok(()),
        Validator::Number(kind) => arg_check_outcome(
            store_key,
            option,
            opt_arg,
            number_failure(kind, opt_arg),
        ),
    }
}

/// Whether the integer type of the kind `k` is signed.
pub open spec fn kind_signed(k: NumberKind) -> bool {
    match k {
        NumberKind::I8 | NumberKind::I16 | NumberKind::I32 | NumberKind::I64 | NumberKind::I128 => true,
        _ => false,
    }
}

/// The least value of the integer type of the kind `k`.
pub open spec fn kind_min(k: NumberKind) -> int {
    match k {
        NumberKind::I8 => -0x80,
        NumberKind::I16 => -0x8000,
        NumberKind::I32 => -0x8000_0000,
        NumberKind::I64 => -0x8000_0000_0000_0000,
        NumberKind::I128 => -0x8000_0000_0000_0000_0000_0000_0000_0000,
        _ => 0,
    }
}

/// The greatest value of the integer type of the kind `k`.
pub open spec fn kind_max(k: NumberKind) -> int {
    match k {
        NumberKind::I8 => 0x7f,
        NumberKind::I16 => 0x7fff,
        NumberKind::I32 => 0x7fff_ffff,
        NumberKind::I64 => 0x7fff_ffff_ffff_ffff,
        NumberKind::I128 => 0x7fff_ffff_ffff_ffff_ffff_ffff_ffff_ffff,
        NumberKind::U8 => 0xff,
        NumberKind::U16 => 0xffff,
        NumberKind::U32 => 0xffff_ffff,
        NumberKind::U64 => 0xffff_ffff_ffff_ffff,
        NumberKind::U128 => 0xffff_ffff_ffff_ffff_ffff_ffff_ffff_ffff,
    }
}

/// The outcome of converting `text` to a number of the kind `k`.
pub(crate) fn number_failure_of(k: NumberKind, text: &str) -> (r: Option<String>)
    ensures
        match r {
            Some(d) => number_failure(k, text@) == Some(d@),
            None => number_failure(k, text@) is None,
        },
        (r is None) == parses_within(text@, kind_signed(k), kind_min(k), kind_max(k)),
{
    match k {
        NumberKind::I8 => parse_i8_failure(text),
        NumberKind::I16 => parse_i16_failure(text),
        NumberKind::I32 => parse_i32_failure(text),
        NumberKind::I64 => parse_i64_failure(text),
        NumberKind::I128 => parse_i128_failure(text),
        NumberKind::U8 => parse_u8_failure(text),
        NumberKind::U16 => parse_u16_failure(text),
        NumberKind::U32 => parse_u32_failure(text),
        NumberKind::U64 => parse_u64_failure(text),
        NumberKind::U128 => parse_u128_failure(text),
    }
}

impl Validator {
    /// Validates `opt_arg`, given to the option `option` whose store key is `store_key`.
    pub fn validate(&self, store_key: &str, option: &str, opt_arg: &str) -> (r: Result<
        (),
        InvalidOption,
    >)
        ensures
            outcome_view(r) == validator_outcome(*self, store_key@, option@, opt_arg@),
            match *self {
                Validator::Accept => r is Ok,
                Validator::Number(k) => (r is Ok) == parses_within(
                    opt_arg@,
                    kind_signed(k),
                    kind_min(k),
                    kind_max(k),
                ),
            },
    {
        match self {
            Validator::Accept => Ok(()),
            Validator::Number(kind) => {
                let failure = number_failure_of(*kind, opt_arg);
                check_number_outcome(store_key, option, opt_arg, failure)
            },
        }
    }
}

} // verus!
