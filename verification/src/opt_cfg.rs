//! Option configurations.

use crate::strings::{strings_view, strs_view, strs_to_strings, owned};
use crate::validators::Validator;
use vstd::prelude::*;

verus! {

/// Represents an option configuration for how to parse command line arguments.
///
/// And this is also used when creating the help text for command line arguments.
pub struct OptCfg {
    /// Is the key to store option value(s) in the option map in a `Cmd` instance.
    /// If this key is not specified or empty, the first element of the `names` field is used
    /// instead.
    pub store_key: String,
    /// Is the vector for specifying the option name and the aliases.
    /// The order of the `names` in this array are used in a help text.
    pub names: Vec<String>,
    /// Is the flag which allow the option to take option arguments.
    pub has_arg: bool,
    /// Is the flag which allow the option to take multiple option arguments.
    pub is_array: bool,
    /// Is the `Option` of the vector to specify default value(s) for when the command option is
    /// not given in command line arguments.
    /// If this value is `None`, the default value(s) is not specified.
    pub defaults: Option<Vec<String>>,
    /// Is the string field to set the description of the option which is used in a help text.
    pub desc: String,
    /// Is the field to set a display string of the option argument(s) in a help text.
    /// An example of the display is like: `-o, --option <value>`.
    pub arg_in_help: String,
    /// Is the validator of the option argument(s).
    /// If an option argument is invalid, it gives an `InvalidOption::OptionArgIsInvalid`.
    pub validator: Validator,
}

/// The abstract value of an [OptCfg].
pub struct OptCfgView {
    pub store_key: Seq<char>,
    pub names: Seq<Seq<char>>,
    pub has_arg: bool,
    pub is_array: bool,
    pub defaults: Option<Seq<Seq<char>>>,
    pub desc: Seq<char>,
    pub arg_in_help: Seq<char>,
    pub validator: Validator,
}

/// The character sequences of optional default values.
pub open spec fn defaults_view(d: Option<Vec<String>>) -> Option<Seq<Seq<char>>> {
    match d {
        Some(v) => Some(strings_view(v@)),
        None => None,
    }
}

impl View for OptCfg {
    type V = OptCfgView;

    open spec fn view(&self) -> OptCfgView {
        OptCfgView {
            store_key: self.store_key@,
            names: strings_view(self.names@),
            has_arg: self.has_arg,
            is_array: self.is_array,
            defaults: defaults_view(self.defaults),
            desc: self.desc@,
            arg_in_help: self.arg_in_help@,
            validator: self.validator,
        }
    }
}

/// The views of a sequence of configurations.
pub open spec fn cfgs_view(cfgs: Seq<OptCfg>) -> Seq<OptCfgView> {
    cfgs.map_values(|c: OptCfg| c@)
}

/// The configuration that no parameter has changed: everything empty or false, and a validator
/// that accepts every argument.
pub open spec fn blank_cfg() -> OptCfgView {
    OptCfgView {
        store_key: Seq::empty(),
        names: Seq::empty(),
        has_arg: false,
        is_array: false,
        defaults: None,
        desc: Seq::empty(),
        arg_in_help: Seq::empty(),
        validator: Validator::Accept,
    }
}

/// `v` with the field that `p` names set to the value that `p` holds.
pub open spec fn apply_param<'a>(v: OptCfgView, p: OptCfgParam<'a>) -> OptCfgView {
    match p {
        OptCfgParam::store_key(s) => OptCfgView { store_key: s@, ..v },
        OptCfgParam::names(ns) => OptCfgView { names: strs_view(ns@), ..v },
        OptCfgParam::has_arg(b) => OptCfgView { has_arg: b, ..v },
        OptCfgParam::is_array(b) => OptCfgView { is_array: b, ..v },
        OptCfgParam::defaults(ds) => OptCfgView { defaults: Some(strs_view(ds@)), ..v },
        OptCfgParam::desc(s) => OptCfgView { desc: s@, ..v },
        OptCfgParam::arg_in_help(s) => OptCfgView { arg_in_help: s@, ..v },
        OptCfgParam::validator(f) => OptCfgView { validator: f, ..v },
    }
}

/// The configuration that the parameters `ps` make, applied in order to the blank one: where
/// two parameters set the same field, the later one wins.
pub open spec fn cfg_of_params<'a>(ps: Seq<OptCfgParam<'a>>) -> OptCfgView
    decreases ps.len(),
{
    if ps.len() == 0 {
        blank_cfg()
    } else {
        apply_param(cfg_of_params(ps.drop_last()), ps.last())
    }
}

impl OptCfg {
    /// Creates a `OptCfg` instance in a manner similar to named parameters.
    ///
    /// ```rust
    ///   use cliargs::OptCfg;
    ///   use cliargs::OptCfgParam::{names, has_arg, desc};
    ///
    ///   let cfg = OptCfg::with(&[
    ///       names(&["foo-bar", "f"]),
    ///       has_arg(true),
    ///       desc("this is foo-bar option."),
    ///   ]);
    /// ```
    pub fn with(params: &[OptCfgParam]) -> (cfg: OptCfg)
        ensures
            cfg@ == cfg_of_params(params@),
    {
        let empty: &[&str] = &[];
        let mut init = OptCfgInit {
            store_key: "",
            names: empty,
            has_arg: false,
            is_array: false,
            defaults: None,
            desc: "",
            arg_in_help: "",
            validator: Validator::Accept,
        };
        proof {
            reveal_strlit("");
            assert(""@ =~= Seq::<char>::empty());
            assert(strs_view(empty@) =~= Seq::<Seq<char>>::empty());
            assert(init.view() == blank_cfg());
        }
        let mut i: usize = 0;
        while i < params.len()
            invariant
                i <= params@.len(),
                init.view() == cfg_of_params(params@.take(i as int)),
            decreases params@.len() - i,
        {
            init.edit(&params[i]);
            proof {
                assert(params@.take(i + 1).drop_last() =~= params@.take(i as int));
            }
            i = i + 1;
        }
        proof {
            assert(params@.take(params@.len() as int) =~= params@);
        }
        let defaults = match init.defaults {
            Some(ds) => Some(strs_to_strings(ds)),
            None => None,
        };
        OptCfg {
            store_key: owned(init.store_key),
            names: strs_to_strings(init.names),
            has_arg: init.has_arg,
            is_array: init.is_array,
            defaults,
            desc: owned(init.desc),
            arg_in_help: owned(init.arg_in_help),
            validator: init.validator,
        }
    }
}

/// The fields of a configuration under construction, borrowed from the parameters.
struct OptCfgInit<'a> {
    store_key: &'a str,
    names: &'a [&'a str],
    has_arg: bool,
    is_array: bool,
    defaults: Option<&'a [&'a str]>,
    desc: &'a str,
    arg_in_help: &'a str,
    validator: Validator,
}

impl<'a> OptCfgInit<'a> {
    /// The configuration that these fields describe.
    spec fn view(&self) -> OptCfgView {
        OptCfgView {
            store_key: self.store_key@,
            names: strs_view(self.names@),
            has_arg: self.has_arg,
            is_array: self.is_array,
            defaults: match self.defaults {
                Some(ds) => Some(strs_view(ds@)),
                None => None,
            },
            desc: self.desc@,
            arg_in_help: self.arg_in_help@,
            validator: self.validator,
        }
    }

    /// Sets the field that `param` names to the value that it holds.
    fn edit(&mut self, param: &'a OptCfgParam<'a>)
        ensures
            final(self).view() == apply_param(old(self).view(), *param),
    {
        match param {
            OptCfgParam::store_key(s) => self.store_key = s,
            OptCfgParam::names(v) => self.names = v,
            OptCfgParam::has_arg(b) => self.has_arg = *b,
            OptCfgParam::is_array(b) => self.is_array = *b,
            OptCfgParam::defaults(v) => self.defaults = Some(v),
            OptCfgParam::desc(s) => self.desc = s,
            OptCfgParam::arg_in_help(s) => self.arg_in_help = s,
            OptCfgParam::validator(f) => self.validator = *f,
        }
    }
}

/// Enables to create a `OptCfg` instance in a manner similar to named parameters.
#[allow(non_camel_case_types)]
pub enum OptCfgParam<'a> {
    /// Holds the value for `OptCfg#store_key`.
    store_key(&'a str),
    /// Holds the value for `OptCfg#names`.
    names(&'a [&'a str]),
    /// Holds the value for `OptCfg#has_arg`.
    has_arg(bool),
    /// Holds the value for `OptCfg#is_array`.
    is_array(bool),
    /// Holds the value for `OptCfg#defaults`.
    defaults(&'a [&'a str]),
    /// Holds the value for `OptCfg#desc`.
    desc(&'a str),
    /// Holds the value for `OptCfg#arg_in_help`.
    arg_in_help(&'a str),
    /// Holds the value for `OptCfg#validator`.
    validator(Validator),
}

/// What the `Debug` format of `str` gives for a text: the text in double quotes, escaped.
pub uninterp spec fn debug_str(text: Seq<char>) -> Seq<char>;

/// Formats `text` with `{:?}`, the `Debug` format of `str`. The contract claims only that the
/// result is `debug_str` of the text: the quoting and escaping rules are std's.
#[verifier::external_body]
pub(crate) fn debug_quoted(text: &str) -> (r: String)
    ensures
        r@ == debug_str(text@),
{
    format!("{:?}", text)
}

/// The `Debug` forms of `items`, separated by `, `.
pub open spec fn joined_debug(items: Seq<Seq<char>>) -> Seq<char>
    decreases items.len(),
{
    if items.len() == 0 {
        Seq::empty()
    } else if items.len() == 1 {
        debug_str(items[0])
    } else {
        joined_debug(items.drop_last()) + ", "@ + debug_str(items.last())
    }
}

/// `true` or `false`.
pub open spec fn bool_text(b: bool) -> Seq<char> {
    if b {
        "true"@
    } else {
        "false"@
    }
}

/// The text that shows the fields of a configuration, its validator left out, as a derived
/// `Debug` format would.
pub open spec fn opt_cfg_debug(c: OptCfgView) -> Seq<char> {
    "OptCfg { store_key: "@ + debug_str(c.store_key) + ", names: ["@ + joined_debug(c.names)
        + "], has_arg: "@ + bool_text(c.has_arg) + ", is_array: "@ + bool_text(c.is_array)
        + ", defaults: "@ + match c.defaults {
        Some(d) => "Some(["@ + joined_debug(d) + "])"@,
        None => "None"@,
    } + ", desc: "@ + debug_str(c.desc) + ", arg_in_help: "@ + debug_str(c.arg_in_help)
        + " }"@
}

/// Appends the `Debug` forms of `items`, separated by `, `.
pub(crate) fn push_joined_debug(text: &mut String, items: &Vec<String>)
    ensures
        final(text)@ == old(text)@ + joined_debug(strings_view(items@)),
{
    let ghost iv = strings_view(items@);
    let mut i: usize = 0;
    proof {
        reveal_strlit(", ");
        assert(iv.take(0) =~= Seq::<Seq<char>>::empty());
        assert(text@ =~= old(text)@ + joined_debug(iv.take(0)));
    }
    while i < items.len()
        invariant
            i <= items@.len(),
            iv == strings_view(items@),
            ", "@ == seq![',', ' '],
            text@ == old(text)@ + joined_debug(iv.take(i as int)),
        decreases items@.len() - i,
    {
        let ghost before = text@;
        proof {
            assert(iv.take(i + 1).drop_last() =~= iv.take(i as int));
            assert(iv.take(i + 1).last() == items@[i as int]@);
        }
        if i > 0 {
            text.append(", ");
        }
        let d = debug_quoted(items[i].as_str());
        text.append(d.as_str());
        proof {
            if i == 0 {
                assert(iv.take(1)[0] == items@[0]@);
                assert(iv.take(0) =~= Seq::<Seq<char>>::empty());
            }
            assert(text@ =~= old(text)@ + joined_debug(iv.take(i + 1)));
        }
        i = i + 1;
    }
    proof {
        assert(iv.take(items@.len() as int) =~= iv);
    }
}

impl OptCfg {
    /// Returns the text that shows the fields of this configuration, its validator left out, in
    /// the form of a derived `Debug` format.
    pub fn debug_text(&self) -> (r: String)
        ensures
            r@ == opt_cfg_debug(self@),
    {
        let mut t = String::from_str("OptCfg { store_key: ");
        t.append(debug_quoted(self.store_key.as_str()).as_str());
        t.append(", names: [");
        push_joined_debug(&mut t, &self.names);
        t.append("], has_arg: ");
        t.append(if self.has_arg {
            "true"
        } else {
            "false"
        });
        t.append(", is_array: ");
        t.append(if self.is_array {
            "true"
        } else {
            "false"
        });
        t.append(", defaults: ");
        match &self.defaults {
            Some(d) => {
                t.append("Some([");
                push_joined_debug(&mut t, d);
                t.append("])");
            },
            None => {
                t.append("None");
            },
        }
        t.append(", desc: ");
        t.append(debug_quoted(self.desc.as_str()).as_str());
        t.append(", arg_in_help: ");
        t.append(debug_quoted(self.arg_in_help.as_str()).as_str());
        t.append(" }");
        proof {
            assert(t@ =~= opt_cfg_debug(self@));
        }
        t
    }
}

} // verus!
