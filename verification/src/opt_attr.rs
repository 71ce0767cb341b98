//! The `opt` field attributes of option stores: their errors, and the default values that a
//! `cfg` attribute gives after its `=`.

use crate::keyed::{find_key, key_at, keys_distinct, lemma_index_of_key, lemma_put, put, value_of};
use crate::opt_cfg::{OptCfg, OptCfgView};
use crate::strings::{chars_of, owned, strings_view, substring};
use crate::validators::{NumberKind, Validator, number_failure, number_failure_of};
use vstd::prelude::*;

verus! {

/// The errors of deriving an option store from a struct.
pub enum OptStoreErr {
    MustPutOnStruct,
    MustNotPutOnTuple,
    BadFieldType,
    BadAttrMetaName,
    BadAttrMetaValueCfg,
    BadAttrMetaValueDesc,
    BadAttrMetaValueArg,
    MustNotHasDefaults(String),
    InvalidNumberFormat(String, String),
}

impl OptStoreErr {
    /// The text that describes the error.
    pub open spec fn message(&self) -> Seq<char> {
        match self {
            OptStoreErr::MustPutOnStruct => "must be attached to a struct"@,
            OptStoreErr::MustNotPutOnTuple => "must not be attached to a tuple"@,
            OptStoreErr::BadFieldType =>
                "accept only bool, primitive number types, String, Vec<> of primitive number, Vec<> of String, Option<> primitive number, Option<> of String"@,
            OptStoreErr::BadAttrMetaName =>
                "field attribute `opt` accepts only cfg=\"...\", desc=\"...\", and arg=\"...\""@,
            OptStoreErr::BadAttrMetaValueCfg =>
                "`cfg` in field attributes `opt` must be a string literal"@,
            OptStoreErr::BadAttrMetaValueDesc =>
                "`desc` in field attributes `opt` must be a string literal"@,
            OptStoreErr::BadAttrMetaValueArg =>
                "`arg` in field attributes `opt` must be a string literal"@,
            OptStoreErr::MustNotHasDefaults(fld) => "`"@ + fld@
                + "` is bool, so the default value cannot be specified"@,
            OptStoreErr::InvalidNumberFormat(fld, ty) => "`"@ + fld@ + "` is "@ + ty@
                + ", but the default value is invalid format"@,
        }
    }

    /// Returns the text that describes the error.
    pub fn msg(&self) -> (r: String)
        ensures
            r@ == self.message(),
    {
        match self {
            OptStoreErr::MustPutOnStruct => String::from_str("must be attached to a struct"),
            OptStoreErr::MustNotPutOnTuple => String::from_str("must not be attached to a tuple"),
            OptStoreErr::BadFieldType => String::from_str(
                "accept only bool, primitive number types, String, Vec<> of primitive number, Vec<> of String, Option<> primitive number, Option<> of String",
            ),
            OptStoreErr::BadAttrMetaName => String::from_str(
                "field attribute `opt` accepts only cfg=\"...\", desc=\"...\", and arg=\"...\"",
            ),
            OptStoreErr::BadAttrMetaValueCfg => String::from_str(
                "`cfg` in field attributes `opt` must be a string literal",
            ),
            OptStoreErr::BadAttrMetaValueDesc => String::from_str(
                "`desc` in field attributes `opt` must be a string literal",
            ),
            OptStoreErr::BadAttrMetaValueArg => String::from_str(
                "`arg` in field attributes `opt` must be a string literal",
            ),
            OptStoreErr::MustNotHasDefaults(fld) => {
                let mut r = String::from_str("`");
                r.append(fld.as_str());
                r.append("` is bool, so the default value cannot be specified");
                r
            },
            OptStoreErr::InvalidNumberFormat(fld, ty) => {
                let mut r = String::from_str("`");
                r.append(fld.as_str());
                r.append("` is ");
                r.append(ty.as_str());
                r.append(", but the default value is invalid format");
                r
            },
        }
    }
}

/// The pieces of `s` between the occurrences of `sep`, in order: one more piece than there are
/// occurrences, each possibly empty.
pub open spec fn split_on(s: Seq<char>, sep: char) -> Seq<Seq<char>>
    decreases s.len(),
{
    if s.len() == 0 {
        seq![Seq::empty()]
    } else {
        let p = split_on(s.drop_last(), sep);
        if s.last() == sep {
            p.push(Seq::empty())
        } else {
            p.update(p.len() - 1, p.last().push(s.last()))
        }
    }
}

/// Splitting gives at least one piece.
proof fn lemma_split_on_len(s: Seq<char>, sep: char)
    ensures
        split_on(s, sep).len() >= 1,
    decreases s.len(),
{
    if s.len() > 0 {
        lemma_split_on_len(s.drop_last(), sep);
    }
}

/// The default values that the text after `=` in a `cfg` attribute gives.
///
/// A text enclosed in `[` and `]` is a list of values separated by commas, and a text of the
/// form `<sep>[...]` is a list of values separated by the character `<sep>`; in both, nothing
/// between the brackets is an empty list. Any other text is one value.
pub open spec fn defaults_of_text(s: Seq<char>) -> Seq<Seq<char>> {
    if s.len() > 0 && s.last() == ']' {
        let body = s.drop_last();
        if s[0] == '[' {
            let inner = body.skip(1);
            if inner.len() == 0 {
                Seq::empty()
            } else {
                split_on(inner, ',')
            }
        } else if body.len() >= 2 && body[1] == '[' {
            let rest = body.skip(2);
            if rest.len() == 0 {
                Seq::empty()
            } else {
                split_on(rest, body[0])
            }
        } else {
            seq![s]
        }
    } else {
        seq![s]
    }
}

/// The pieces of the characters of `s` from `from` to `to` (exclusive), between the occurrences
/// of `sep`; `cs` holds the characters of `s`.
fn split_chars(s: &str, cs: &Vec<char>, from: usize, to: usize, sep: char) -> (r: Vec<String>)
    requires
        cs@ == s@,
        from <= to <= cs@.len(),
    ensures
        strings_view(r@) == split_on(s@.subrange(from as int, to as int), sep),
{
    let ghost t = s@.subrange(from as int, to as int);
    let mut pieces: Vec<String> = Vec::new();
    let mut cur = String::new();
    let mut i: usize = from;
    proof {
        assert(t.take(0) =~= Seq::<char>::empty());
        assert(strings_view(pieces@).push(cur@) =~= split_on(t.take(0), sep));
    }
    while i < to
        invariant
            from <= i <= to,
            to <= cs@.len(),
            cs@ == s@,
            t == s@.subrange(from as int, to as int),
            strings_view(pieces@).push(cur@) == split_on(t.take(i - from), sep),
        decreases to - i,
    {
        let ghost before = strings_view(pieces@).push(cur@);
        proof {
            assert(t.take(i + 1 - from).drop_last() =~= t.take(i - from));
            assert(t.take(i + 1 - from).last() == cs@[i as int]);
            lemma_split_on_len(t.take(i - from), sep);
        }
        let c = cs[i];
        if c == sep {
            let done = cur;
            pieces.push(done);
            cur = String::new();
            proof {
                assert(strings_view(pieces@).push(cur@) =~= before.push(Seq::empty()));
            }
        } else {
            let piece = substring(s, i, i + 1);
            let ghost old_cur = cur@;
            cur.append(piece.as_str());
            proof {
                assert(piece@ =~= seq![c]);
                assert(cur@ =~= old_cur.push(c));
                assert(before.last() == old_cur);
                assert(strings_view(pieces@).push(cur@) =~= before.update(
                    before.len() - 1,
                    before.last().push(c),
                ));
            }
        }
        i = i + 1;
    }
    pieces.push(cur);
    proof {
        assert(t.take(to - from) =~= t);
    }
    pieces
}

/// The default values that the text `s` after `=` in a `cfg` attribute gives, as
/// [defaults_of_text] says.
fn defaults_from_text(s: &str) -> (r: Vec<String>)
    ensures
        strings_view(r@) == defaults_of_text(s@),
{
    let cs = chars_of(s);
    let n = cs.len();
    let mut whole: Vec<String> = Vec::new();
    whole.push(owned(s));
    proof {
        assert(strings_view(whole@) =~= seq![s@]);
    }
    if n > 0 && cs[n - 1] == ']' {
        if cs[0] == '[' {
            if n - 2 == 0 {
                let r: Vec<String> = Vec::new();
                proof {
                    assert(strings_view(r@) =~= Seq::<Seq<char>>::empty());
                }
                return r;
            }
            proof {
                assert(s@.subrange(1, n - 1) =~= s@.drop_last().skip(1));
            }
            return split_chars(s, &cs, 1, n - 1, ',');
        } else if n - 1 >= 2 && cs[1] == '[' {
            if n - 1 == 2 {
                let r: Vec<String> = Vec::new();
                proof {
                    assert(strings_view(r@) =~= Seq::<Seq<char>>::empty());
                }
                return r;
            }
            proof {
                assert(s@.subrange(2, n - 1) =~= s@.drop_last().skip(2));
            }
            return split_chars(s, &cs, 2, n - 1, cs[0]);
        }
    }
    whole
}

/// The attribute value stored under `key` in `attrs`, when there is one.
pub open spec fn attr_value(attrs: Seq<(String, String)>, key: Seq<char>) -> Option<Seq<char>> {
    match value_of(attrs.map_values(|p: (String, String)| (p.0@, p.1@)), key) {
        Some(v) => Some(v),
        None => None,
    }
}

/// Returns the default values given by the `defaults` entry of the attribute map `attr_map` (the
/// text after `=` in a `cfg` attribute), as [defaults_of_text] says, or `None` when there is no
/// such entry. Each key of the map occurs once.
pub fn parse_defaults(attr_map: &Vec<(String, String)>) -> (r: Option<Vec<String>>)
    requires
        keys_distinct(attr_map@.map_values(|p: (String, String)| (p.0@, p.1@))),
    ensures
        match attr_value(attr_map@, "defaults"@) {
            Some(s) => r matches Some(v) && strings_view(v@) == defaults_of_text(s),
            None => r is None,
        },
{
    let ghost m = attr_map@.map_values(|p: (String, String)| (p.0@, p.1@));
    let key = String::from_str("defaults");
    match find_key(attr_map, &key) {
        Some(i) => {
            proof {
                assert(m[i as int].0 == attr_map@[i as int].0@);
                assert(key_at(m, key@, i as int));
                lemma_index_of_key(m, key@, i as int);
            }
            Some(defaults_from_text(attr_map[i].1.as_str()))
        },
        None => {
            proof {
                assert forall|q: int| !key_at(m, key@, q) by {
                    if 0 <= q < m.len() {
                        assert(m[q].0 == attr_map@[q].0@);
                    }
                }
            }
            None
        },
    }
}

/// The abstract value of an [OptStoreErr]: the same variants over character sequences.
pub enum OptStoreErrView {
    MustPutOnStruct,
    MustNotPutOnTuple,
    BadFieldType,
    BadAttrMetaName,
    BadAttrMetaValueCfg,
    BadAttrMetaValueDesc,
    BadAttrMetaValueArg,
    MustNotHasDefaults(Seq<char>),
    InvalidNumberFormat(Seq<char>, Seq<char>),
}

impl View for OptStoreErr {
    type V = OptStoreErrView;

    open spec fn view(&self) -> OptStoreErrView {
        match self {
            OptStoreErr::MustPutOnStruct => OptStoreErrView::MustPutOnStruct,
            OptStoreErr::MustNotPutOnTuple => OptStoreErrView::MustNotPutOnTuple,
            OptStoreErr::BadFieldType => OptStoreErrView::BadFieldType,
            OptStoreErr::BadAttrMetaName => OptStoreErrView::BadAttrMetaName,
            OptStoreErr::BadAttrMetaValueCfg => OptStoreErrView::BadAttrMetaValueCfg,
            OptStoreErr::BadAttrMetaValueDesc => OptStoreErrView::BadAttrMetaValueDesc,
            OptStoreErr::BadAttrMetaValueArg => OptStoreErrView::BadAttrMetaValueArg,
            OptStoreErr::MustNotHasDefaults(f) => OptStoreErrView::MustNotHasDefaults(f@),
            OptStoreErr::InvalidNumberFormat(f, t) => OptStoreErrView::InvalidNumberFormat(f@, t@),
        }
    }
}

/// What a field of an option store holds: a flag, a text, or an integer of the given kind; one
/// of them, or a list of them.
#[derive(Clone, Copy, Debug, PartialEq, Eq)]
pub enum FieldValue {
    Bool,
    Text,
    Number(NumberKind),
}

/// The name of the integer type of a number kind.
pub open spec fn kind_name(k: NumberKind) -> Seq<char> {
    match k {
        NumberKind::I8 => "i8"@,
        NumberKind::I16 => "i16"@,
        NumberKind::I32 => "i32"@,
        NumberKind::I64 => "i64"@,
        NumberKind::I128 => "i128"@,
        NumberKind::U8 => "u8"@,
        NumberKind::U16 => "u16"@,
        NumberKind::U32 => "u32"@,
        NumberKind::U64 => "u64"@,
        NumberKind::U128 => "u128"@,
    }
}

/// Returns the name of the integer type of a number kind.
pub fn number_kind_name(k: NumberKind) -> (r: &'static str)
    ensures
        r@ == kind_name(k),
{
    match k {
        NumberKind::I8 => "i8",
        NumberKind::I16 => "i16",
        NumberKind::I32 => "i32",
        NumberKind::I64 => "i64",
        NumberKind::I128 => "i128",
        NumberKind::U8 => "u8",
        NumberKind::U16 => "u16",
        NumberKind::U32 => "u32",
        NumberKind::U64 => "u64",
        NumberKind::U128 => "u128",
    }
}

/// A character with the Unicode `White_Space` property, as `char::is_whitespace` tests it.
pub open spec fn is_white_space(c: char) -> bool {
    ||| ('\u{9}' <= c && c <= '\u{d}')
    ||| c == ' '
    ||| c == '\u{85}'
    ||| c == '\u{a0}'
    ||| c == '\u{1680}'
    ||| ('\u{2000}' <= c && c <= '\u{200a}')
    ||| c == '\u{2028}'
    ||| c == '\u{2029}'
    ||| c == '\u{202f}'
    ||| c == '\u{205f}'
    ||| c == '\u{3000}'
}

/// The text without its leading white space.
pub open spec fn trim_front(text: Seq<char>) -> Seq<char>
    decreases text.len(),
{
    if text.len() > 0 && is_white_space(text[0]) {
        trim_front(text.drop_first())
    } else {
        text
    }
}

/// The text without its trailing white space.
pub open spec fn trim_back(text: Seq<char>) -> Seq<char>
    decreases text.len(),
{
    if text.len() > 0 && is_white_space(text.last()) {
        trim_back(text.drop_last())
    } else {
        text
    }
}

/// What `str::trim` gives for a text: the text without its leading and trailing white space.
pub open spec fn trimmed(text: Seq<char>) -> Seq<char> {
    trim_back(trim_front(text))
}

/// Calls `str::trim` and copies the result. The contract claims that the result is `trimmed`
/// of the text: std documents `trim` as removing leading and trailing characters with the
/// Unicode `White_Space` property, which `is_white_space` lists.
#[verifier::external_body]
fn trim_text(text: &str) -> (r: String)
    ensures
        r@ == trimmed(text@),
{
    text.trim().to_string()
}

/// The text stored under `key` in the attribute map, or an empty text when there is none.
pub open spec fn attr_text(attrs: Seq<(String, String)>, key: Seq<char>) -> Seq<char> {
    match attr_value(attrs, key) {
        Some(v) => v,
        None => Seq::empty(),
    }
}

/// The option names that the `names` entry of the attribute map gives: none when it is empty
/// or missing, else its pieces between commas, each trimmed.
pub open spec fn attr_names(attrs: Seq<(String, String)>) -> Seq<Seq<char>> {
    let n = attr_text(attrs, "names"@);
    if n.len() == 0 {
        Seq::empty()
    } else {
        split_on(n, ',').map_values(|p: Seq<char>| trimmed(p))
    }
}

/// The default values of the attribute map, as [parse_defaults] gives them.
pub open spec fn attr_defaults(attrs: Seq<(String, String)>) -> Option<Seq<Seq<char>>> {
    match attr_value(attrs, "defaults"@) {
        Some(s) => Some(defaults_of_text(s)),
        None => None,
    }
}

/// The default values convert to numbers of the kind `k`: all of them for a list, the first
/// one (if any) otherwise.
pub open spec fn defaults_are_numbers(k: NumberKind, vals: Seq<Seq<char>>, is_list: bool) -> bool {
    if is_list {
        forall|i: int| 0 <= i < vals.len() ==> number_failure(k, #[trigger] vals[i]) is None
    } else {
        vals.len() == 0 || number_failure(k, vals[0]) is None
    }
}

/// The option configuration of a field of an option store named `field`, holding `value` (a
/// list of them when `is_list`), with the attribute map `attrs`; or the error of such a field.
///
/// The store key is the field name; the names, description and argument placeholder come from
/// the attributes. A flag takes no argument and can have no default value, and there is no list
/// of flags; a text or a number takes arguments, several when it is a list; the default values
/// of a number must convert to numbers of its kind, and its arguments are checked as such.
pub open spec fn field_cfg(
    field: Seq<char>,
    value: FieldValue,
    is_list: bool,
    attrs: Seq<(String, String)>,
) -> Result<OptCfgView, OptStoreErrView> {
    let cfg = OptCfgView {
        store_key: field,
        names: attr_names(attrs),
        has_arg: true,
        is_array: is_list,
        defaults: attr_defaults(attrs),
        desc: attr_text(attrs, "desc"@),
        arg_in_help: attr_text(attrs, "arg"@),
        validator: Validator::Accept,
    };
    match value {
        FieldValue::Bool => if is_list {
            Err(OptStoreErrView::BadFieldType)
        } else if attr_defaults(attrs) is Some {
            Err(OptStoreErrView::MustNotHasDefaults(field))
        } else {
            Ok(OptCfgView { has_arg: false, ..cfg })
        },
        FieldValue::Text => Ok(cfg),
        FieldValue::Number(k) => match attr_defaults(attrs) {
            Some(vals) => if defaults_are_numbers(k, vals, is_list) {
                Ok(OptCfgView { validator: Validator::Number(k), ..cfg })
            } else {
                Err(OptStoreErrView::InvalidNumberFormat(field, kind_name(k)))
            },
            None => Ok(OptCfgView { validator: Validator::Number(k), ..cfg }),
        },
    }
}

/// The text stored under `key` in the attribute map, or an empty text.
fn attr_text_of(attr_map: &Vec<(String, String)>, key: &str) -> (r: String)
    requires
        keys_distinct(attr_map@.map_values(|p: (String, String)| (p.0@, p.1@))),
    ensures
        r@ == attr_text(attr_map@, key@),
{
    let ghost m = attr_map@.map_values(|p: (String, String)| (p.0@, p.1@));
    let k = owned(key);
    match find_key(attr_map, &k) {
        Some(i) => {
            proof {
                assert(m[i as int].0 == attr_map@[i as int].0@);
                assert(key_at(m, k@, i as int));
                lemma_index_of_key(m, k@, i as int);
            }
            attr_map[i].1.clone()
        },
        None => {
            proof {
                assert forall|q: int| !key_at(m, k@, q) by {
                    if 0 <= q < m.len() {
                        assert(m[q].0 == attr_map@[q].0@);
                    }
                }
            }
            String::new()
        },
    }
}

/// The option names that the `names` entry of the attribute map gives, as [attr_names] says.
fn names_of_attrs(attr_map: &Vec<(String, String)>) -> (r: Vec<String>)
    requires
        keys_distinct(attr_map@.map_values(|p: (String, String)| (p.0@, p.1@))),
    ensures
        strings_view(r@) == attr_names(attr_map@),
{
    let text = attr_text_of(attr_map, "names");
    proof {
        reveal_strlit("names");
    }
    let mut r: Vec<String> = Vec::new();
    if text.as_str().is_empty() {
        proof {
            assert(strings_view(r@) =~= Seq::<Seq<char>>::empty());
        }
        return r;
    }
    let cs = chars_of(text.as_str());
    let pieces = split_chars(text.as_str(), &cs, 0, cs.len(), ',');
    proof {
        assert(text@.subrange(0, text@.len() as int) =~= text@);
    }
    let ghost pv = strings_view(pieces@);
    let mut i: usize = 0;
    while i < pieces.len()
        invariant
            i <= pieces@.len(),
            pv == strings_view(pieces@),
            r@.len() == i,
            forall|j: int| 0 <= j < i ==> #[trigger] r@[j]@ == trimmed(pv[j]),
        decreases pieces@.len() - i,
    {
        let t = trim_text(pieces[i].as_str());
        r.push(t);
        i = i + 1;
    }
    proof {
        assert(strings_view(r@) =~= pv.map_values(|p: Seq<char>| trimmed(p)));
    }
    r
}

/// Whether the default values convert to numbers of the kind `k`, as [defaults_are_numbers]
/// says.
fn check_default_numbers(k: NumberKind, vals: &Vec<String>, is_list: bool) -> (r: bool)
    ensures
        r == defaults_are_numbers(k, strings_view(vals@), is_list),
{
    let ghost vv = strings_view(vals@);
    if !is_list {
        if vals.len() == 0 {
            return true;
        }
        let f = number_failure_of(k, vals[0].as_str());
        return f.is_none();
    }
    let mut i: usize = 0;
    while i < vals.len()
        invariant
            i <= vals@.len(),
            vv == strings_view(vals@),
            is_list,
            forall|j: int| 0 <= j < i ==> number_failure(k, #[trigger] vv[j]) is None,
        decreases vals@.len() - i,
    {
        let f = number_failure_of(k, vals[i].as_str());
        if f.is_some() {
            proof {
                assert(number_failure(k, vv[i as int]) is Some);
            }
            return false;
        }
        i = i + 1;
    }
    true
}

/// Makes the option configuration of a field of an option store named `field_name`, holding
/// `value` (a list of them when `is_list`), with the attribute map `attr_map`, as [field_cfg]
/// says; or returns the error of such a field. Each key of the map occurs once.
pub fn field_opt_cfg(
    field_name: &str,
    value: FieldValue,
    is_list: bool,
    attr_map: &Vec<(String, String)>,
) -> (r: Result<OptCfg, OptStoreErr>)
    requires
        keys_distinct(attr_map@.map_values(|p: (String, String)| (p.0@, p.1@))),
    ensures
        match r {
            Ok(cfg) => field_cfg(field_name@, value, is_list, attr_map@) == Ok::<
                OptCfgView,
                OptStoreErrView,
            >(cfg@),
            Err(e) => field_cfg(field_name@, value, is_list, attr_map@) == Err::<
                OptCfgView,
                OptStoreErrView,
            >(e@),
        },
{
    proof {
        reveal_strlit("desc");
        reveal_strlit("arg");
        reveal_strlit("defaults");
    }
    let defaults = parse_defaults(attr_map);
    let mut cfg = OptCfg {
        store_key: owned(field_name),
        names: names_of_attrs(attr_map),
        has_arg: true,
        is_array: is_list,
        defaults: None,
        desc: attr_text_of(attr_map, "desc"),
        arg_in_help: attr_text_of(attr_map, "arg"),
        validator: Validator::Accept,
    };
    match value {
        FieldValue::Bool => {
            if is_list {
                return Err(OptStoreErr::BadFieldType);
            }
            if defaults.is_some() {
                return Err(OptStoreErr::MustNotHasDefaults(owned(field_name)));
            }
            cfg.has_arg = false;
            Ok(cfg)
        },
        FieldValue::Text => {
            cfg.defaults = defaults;
            Ok(cfg)
        },
        FieldValue::Number(k) => {
            match &defaults {
                Some(vals) => {
                    if !check_default_numbers(k, vals, is_list) {
                        return Err(
                            OptStoreErr::InvalidNumberFormat(
                                owned(field_name),
                                owned(number_kind_name(k)),
                            ),
                        );
                    }
                },
                None => {},
            }
            cfg.defaults = defaults;
            cfg.validator = Validator::Number(k);
            Ok(cfg)
        },
    }
}

/// The character sequences of an attribute map.
pub open spec fn attrs_view(m: Seq<(String, String)>) -> Seq<(Seq<char>, Seq<char>)> {
    m.map_values(|p: (String, String)| (p.0@, p.1@))
}

/// An item of an `opt` field attribute, read from its syntax: a name with a value (`None` when
/// the value is not a string literal), or anything else.
pub enum AttrMeta {
    NameValue { name: String, value: Option<String> },
    Other,
}

/// The abstract value of an [AttrMeta].
pub enum AttrMetaView {
    NameValue { name: Seq<char>, value: Option<Seq<char>> },
    Other,
}

impl View for AttrMeta {
    type V = AttrMetaView;

    open spec fn view(&self) -> AttrMetaView {
        match self {
            AttrMeta::NameValue { name, value } => AttrMetaView::NameValue {
                name: name@,
                value: match value {
                    Some(v) => Some(v@),
                    None => None,
                },
            },
            AttrMeta::Other => AttrMetaView::Other,
        }
    }
}

/// The index of the first `c` in `v` from `from` on, if any.
pub open spec fn find_char(v: Seq<char>, c: char, from: int) -> Option<int>
    decreases v.len() - from,
{
    if from < 0 || from >= v.len() {
        None
    } else if v[from] == c {
        Some(from)
    } else {
        find_char(v, c, from + 1)
    }
}

/// What a `cfg` value puts in the attribute map: the text before its first `=` as the names
/// and the text after it as the defaults, or the whole text as the names when it has no `=`.
pub open spec fn cfg_entries(m: Seq<(Seq<char>, Seq<char>)>, v: Seq<char>) -> Seq<(Seq<char>, Seq<char>)> {
    match find_char(v, '=', 0) {
        Some(p) => put(put(m, "names"@, v.take(p)), "defaults"@, v.skip(p + 1)),
        None => put(m, "names"@, v),
    }
}

/// What one item of an `opt` attribute does to the attribute map: `cfg`, `desc` and `arg` with
/// a string literal are stored; one of them with another value, or any other item, is an error.
pub open spec fn meta_step(m: Seq<(Seq<char>, Seq<char>)>, meta: AttrMetaView) -> Result<
    Seq<(Seq<char>, Seq<char>)>,
    OptStoreErrView,
> {
    match meta {
        AttrMetaView::NameValue { name, value } => if name == "cfg"@ {
            match value {
                Some(v) => Ok(cfg_entries(m, v)),
                None => Err(OptStoreErrView::BadAttrMetaValueCfg),
            }
        } else if name == "desc"@ {
            match value {
                Some(v) => Ok(put(m, "desc"@, v)),
                None => Err(OptStoreErrView::BadAttrMetaValueDesc),
            }
        } else if name == "arg"@ {
            match value {
                Some(v) => Ok(put(m, "arg"@, v)),
                None => Err(OptStoreErrView::BadAttrMetaValueArg),
            }
        } else {
            Err(OptStoreErrView::BadAttrMetaName)
        },
        AttrMetaView::Other => Err(OptStoreErrView::BadAttrMetaName),
    }
}

/// The attribute map after the items `metas`, in order, or the first error.
pub open spec fn metas_fold(m: Seq<(Seq<char>, Seq<char>)>, metas: Seq<AttrMetaView>) -> Result<
    Seq<(Seq<char>, Seq<char>)>,
    OptStoreErrView,
>
    decreases metas.len(),
{
    if metas.len() == 0 {
        Ok(m)
    } else {
        match metas_fold(m, metas.drop_last()) {
            Ok(m2) => meta_step(m2, metas.last()),
            Err(e) => Err(e),
        }
    }
}

/// Stores `val` under `key` in the attribute map, replacing what was there.
fn put_attr(m: &mut Vec<(String, String)>, key: String, val: String)
    requires
        keys_distinct(attrs_view(old(m)@)),
    ensures
        keys_distinct(attrs_view(final(m)@)),
        attrs_view(final(m)@) == put(attrs_view(old(m)@), key@, val@),
{
    let ghost before = attrs_view(m@);
    proof {
        lemma_put(before, key@, val@);
    }
    match find_key(m, &key) {
        Some(i) => {
            proof {
                assert(before[i as int].0 == old(m)@[i as int].0@);
                assert(key_at(before, key@, i as int));
                lemma_index_of_key(before, key@, i as int);
            }
            m.remove(i);
            m.insert(i, (key, val));
            proof {
                assert(attrs_view(m@) =~= put(before, key@, val@));
            }
        },
        None => {
            proof {
                assert forall|q: int| !key_at(before, key@, q) by {
                    if 0 <= q < before.len() {
                        assert(before[q].0 == old(m)@[q].0@);
                    }
                }
            }
            m.push((key, val));
            proof {
                assert(attrs_view(m@) =~= put(before, key@, val@));
            }
        },
    }
}

/// Puts what the `cfg` value `v` gives in the attribute map, as [cfg_entries] says.
fn put_cfg_entries(m: &mut Vec<(String, String)>, v: &str)
    requires
        keys_distinct(attrs_view(old(m)@)),
    ensures
        keys_distinct(attrs_view(final(m)@)),
        attrs_view(final(m)@) == cfg_entries(attrs_view(old(m)@), v@),
{
    proof {
        reveal_strlit("names");
        reveal_strlit("defaults");
    }
    let cs = chars_of(v);
    let mut p: usize = 0;
    while p < cs.len() && cs[p] != '='
        invariant
            p <= cs@.len(),
            cs@ == v@,
            find_char(v@, '=', 0) == find_char(v@, '=', p as int),
        decreases cs@.len() - p,
    {
        p = p + 1;
    }
    if p < cs.len() {
        let names = substring(v, 0, p);
        let defaults = substring(v, p + 1, cs.len());
        proof {
            assert(names@ =~= v@.take(p as int));
            assert(defaults@ =~= v@.skip(p + 1));
        }
        put_attr(m, String::from_str("names"), names);
        put_attr(m, String::from_str("defaults"), defaults);
    } else {
        put_attr(m, String::from_str("names"), owned(v));
    }
}

/// Reads the items of the `opt` attributes of a field into the attribute map, in order, as
/// [metas_fold] says; the first error stops the reading.
pub fn collect_field_attrs(metas: &Vec<AttrMeta>, attr_map: &mut Vec<(String, String)>) -> (r: Result<
    (),
    OptStoreErr,
>)
    requires
        keys_distinct(attrs_view(old(attr_map)@)),
    ensures
        keys_distinct(attrs_view(final(attr_map)@)),
        match metas_fold(attrs_view(old(attr_map)@), metas@.map_values(|x: AttrMeta| x@)) {
            Ok(m) => r is Ok && attrs_view(final(attr_map)@) == m,
            Err(e) => r matches Err(x) && x@ == e,
        },
{
    let ghost m0 = attrs_view(attr_map@);
    let ghost mv = metas@.map_values(|x: AttrMeta| x@);
    proof {
        reveal_strlit("cfg");
        reveal_strlit("desc");
        reveal_strlit("arg");
        assert(mv.take(0) =~= Seq::<AttrMetaView>::empty());
    }
    let cfg_name = String::from_str("cfg");
    let desc_name = String::from_str("desc");
    let arg_name = String::from_str("arg");
    let mut i: usize = 0;
    while i < metas.len()
        invariant
            i <= metas@.len(),
            mv == metas@.map_values(|x: AttrMeta| x@),
            m0 == attrs_view(old(attr_map)@),
            cfg_name@ == "cfg"@,
            desc_name@ == "desc"@,
            arg_name@ == "arg"@,
            keys_distinct(attrs_view(attr_map@)),
            metas_fold(m0, mv.take(i as int)) == Ok::<
                Seq<(Seq<char>, Seq<char>)>,
                OptStoreErrView,
            >(attrs_view(attr_map@)),
        decreases metas@.len() - i,
    {
        proof {
            assert(mv.take(i + 1).drop_last() =~= mv.take(i as int));
            assert(mv.take(i + 1).last() == metas@[i as int]@);
        }
        let step: Result<(), OptStoreErr> = match &metas[i] {
            AttrMeta::NameValue { name, value } => {
                if *name == cfg_name {
                    match value {
                        Some(v) => {
                            put_cfg_entries(attr_map, v.as_str());
                            Ok(())
                        },
                        None => Err(OptStoreErr::BadAttrMetaValueCfg),
                    }
                } else if *name == desc_name {
                    match value {
                        Some(v) => {
                            put_attr(attr_map, String::from_str("desc"), v.clone());
                            Ok(())
                        },
                        None => Err(OptStoreErr::BadAttrMetaValueDesc),
                    }
                } else if *name == arg_name {
                    match value {
                        Some(v) => {
                            put_attr(attr_map, String::from_str("arg"), v.clone());
                            Ok(())
                        },
                        None => Err(OptStoreErr::BadAttrMetaValueArg),
                    }
                } else {
                    Err(OptStoreErr::BadAttrMetaName)
                }
            },
            AttrMeta::Other => Err(OptStoreErr::BadAttrMetaName),
        };
        match step {
            Ok(()) => {},
            Err(e) => {
                proof {
                    lemma_metas_err_stays(m0, mv, (i + 1) as int);
                }
                return Err(e);
            },
        }
        i = i + 1;
    }
    proof {
        assert(mv.take(metas@.len() as int) =~= mv);
    }
    Ok(())
}

/// Once reading the first `n` items fails, reading all of them fails with the same error.
proof fn lemma_metas_err_stays(m: Seq<(Seq<char>, Seq<char>)>, metas: Seq<AttrMetaView>, n: int)
    requires
        0 <= n <= metas.len(),
        metas_fold(m, metas.take(n)) is Err,
    ensures
        metas_fold(m, metas) == metas_fold(m, metas.take(n)),
    decreases metas.len() - n,
{
    if n < metas.len() {
        assert(metas.take(n + 1).drop_last() =~= metas.take(n));
        lemma_metas_err_stays(m, metas, n + 1);
    } else {
        assert(metas.take(n) =~= metas);
    }
}


/// The configuration of a field, when it has one, is the field's: its store key is the field
/// name, it takes arguments exactly when the field is not a flag, several exactly when the field
/// is a list, and its arguments are checked as numbers of the field's own integer kind when the
/// field is a number, and not checked otherwise.
pub proof fn law_field_cfg_follows_field(
    field: Seq<char>,
    value: FieldValue,
    is_list: bool,
    attrs: Seq<(String, String)>,
)
    ensures
        field_cfg(field, value, is_list, attrs) matches Ok(c) ==> {
            &&& c.store_key == field
            &&& c.has_arg == !(value is Bool)
            &&& c.is_array == is_list
            &&& c.validator == match value {
                FieldValue::Number(k) => Validator::Number(k),
                _ => Validator::Accept,
            }
        },
{
}

} // verus!
