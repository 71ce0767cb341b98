//! Errors that can occur when configuring options and parsing command line arguments.

use crate::strings::str_eq;
use vstd::prelude::*;

verus! {

/// What `str::escape_debug` renders for the given text.
pub uninterp spec fn debug_escaped(text: Seq<char>) -> Seq<char>;

/// Calls `str::escape_debug` on `text` and collects the escaped characters into a string.
/// The contract claims only that the result is `debug_escaped` of the text: the escaping rules
/// themselves are std's.
#[verifier::external_body]
pub(crate) fn escape_debug(text: &str) -> (r: String)
    ensures
        r@ == debug_escaped(text@),
{
    text.escape_debug().to_string()
}

/// `prefix`, then `body`, then `suffix`, as one string.
pub(crate) fn framed(prefix: &str, body: &str, suffix: &str) -> (r: String)
    ensures
        r@ == prefix@ + body@ + suffix@,
{
    let mut r = String::from_str(prefix);
    r.append(body);
    r.append(suffix);
    r
}

/// `prefix`, then `text` escaped as `str::escape_debug` does, then `suffix`.
pub(crate) fn framed_escaped(prefix: &str, text: &str, suffix: &str) -> (r: String)
    ensures
        r@ == prefix@ + debug_escaped(text@) + suffix@,
{
    let e = escape_debug(text);
    framed(prefix, e.as_str(), suffix)
}

/// The enum type for errors of options or option arguments.
///
/// This enum type has `option()` method, which makes it possible to handle option-related errors
/// in a unified manner.
#[derive(Debug, PartialEq)]
pub enum InvalidOption {
    /// Indicates that the name of an option is using invalid characters.
    /// This error occurs if the name contains symbols or starts with a symbol or number.
    OptionContainsInvalidChar {
        /// The option name that caused this error.
        option: String,
    },
    /// Indicates that the option with the specified name does not exist in the option
    /// configurations.
    UnconfiguredOption {
        /// The option name that caused this error.
        option: String,
    },
    /// Indicates that the option requires arguments in the configuration, but no argument is
    /// specified.
    OptionNeedsArg {
        /// The option name that caused this error.
        option: String,
        /// The store key of the specified option in the configuration.
        store_key: String,
    },
    /// Indicates that the option is not supposed to take an argument in the configuration, but
    /// an argument is specified.
    OptionTakesNoArg {
        /// The option name that caused this error.
        option: String,
        /// The store key of the specified option in the configuration.
        store_key: String,
    },
    /// Indicates that the option is supposed to take one argument in the configuration, but
    /// multiple arguments are specified.
    OptionIsNotArray {
        /// The option name that caused this error.
        option: String,
        /// The store key of the specified option in the configuration.
        store_key: String,
    },
    /// Indicates that there are duplicated store keys among multiple configurations.
    StoreKeyIsDuplicated {
        /// The store key that caused this error.
        store_key: String,
        /// The first name of the option configuration.
        name: String,
    },
    /// Indicates that an option configuration contradicts that the option can take multiple
    /// arguments (`.is_array == true`) though it does not take option arguments
    /// (`.has_arg == false`).
    ConfigIsArrayButHasNoArg {
        /// The store key of the option configuration that caused this error.
        store_key: String,
        /// The first name of the option configuration.
        name: String,
    },
    /// Indicates that an option configuration contradicts that the default arguments
    /// (`.defaults`) is not empty though it does not take option arguments
    /// (`.has_arg == false`).
    ConfigHasDefaultsButHasNoArg {
        /// The store key of the option configuration that caused this error.
        store_key: String,
        /// The first name of the option configuration.
        name: String,
    },
    /// Indicates that there are duplicated option names among the option configurations.
    OptionNameIsDuplicated {
        /// The store key of the option configuration that caused this error.
        store_key: String,
        /// The duplicated name of the option configuration.
        name: String,
    },
    /// Indicates that the option argument is invalidated by the validator in the option
    /// configuration.
    OptionArgIsInvalid {
        /// The store key of the option configuration that caused this error.
        store_key: String,
        /// The option name that caused this error.
        option: String,
        /// The option argument that was validated.
        opt_arg: String,
        /// The details for the invalidation.
        details: String,
    },
}

/// The abstract value of an [InvalidOption]: the same variants over character sequences.
pub enum InvalidOptionView {
    OptionContainsInvalidChar { option: Seq<char> },
    UnconfiguredOption { option: Seq<char> },
    OptionNeedsArg { option: Seq<char>, store_key: Seq<char> },
    OptionTakesNoArg { option: Seq<char>, store_key: Seq<char> },
    OptionIsNotArray { option: Seq<char>, store_key: Seq<char> },
    StoreKeyIsDuplicated { store_key: Seq<char>, name: Seq<char> },
    ConfigIsArrayButHasNoArg { store_key: Seq<char>, name: Seq<char> },
    ConfigHasDefaultsButHasNoArg { store_key: Seq<char>, name: Seq<char> },
    OptionNameIsDuplicated { store_key: Seq<char>, name: Seq<char> },
    OptionArgIsInvalid {
        store_key: Seq<char>,
        option: Seq<char>,
        opt_arg: Seq<char>,
        details: Seq<char>,
    },
}

impl View for InvalidOption {
    type V = InvalidOptionView;

    open spec fn view(&self) -> InvalidOptionView {
        match self {
            InvalidOption::OptionContainsInvalidChar { option } =>
                InvalidOptionView::OptionContainsInvalidChar { option: option@ },
            InvalidOption::UnconfiguredOption { option } =>
                InvalidOptionView::UnconfiguredOption { option: option@ },
            InvalidOption::OptionNeedsArg { option, store_key } =>
                InvalidOptionView::OptionNeedsArg { option: option@, store_key: store_key@ },
            InvalidOption::OptionTakesNoArg { option, store_key } =>
                InvalidOptionView::OptionTakesNoArg { option: option@, store_key: store_key@ },
            InvalidOption::OptionIsNotArray { option, store_key } =>
                InvalidOptionView::OptionIsNotArray { option: option@, store_key: store_key@ },
            InvalidOption::StoreKeyIsDuplicated { store_key, name } =>
                InvalidOptionView::StoreKeyIsDuplicated { store_key: store_key@, name: name@ },
            InvalidOption::ConfigIsArrayButHasNoArg { store_key, name } =>
                InvalidOptionView::ConfigIsArrayButHasNoArg { store_key: store_key@, name: name@ },
            InvalidOption::ConfigHasDefaultsButHasNoArg { store_key, name } =>
                InvalidOptionView::ConfigHasDefaultsButHasNoArg {
                    store_key: store_key@,
                    name: name@,
                },
            InvalidOption::OptionNameIsDuplicated { store_key, name } =>
                InvalidOptionView::OptionNameIsDuplicated { store_key: store_key@, name: name@ },
            InvalidOption::OptionArgIsInvalid { store_key, option, opt_arg, details } =>
                InvalidOptionView::OptionArgIsInvalid {
                    store_key: store_key@,
                    option: option@,
                    opt_arg: opt_arg@,
                    details: details@,
                },
        }
    }
}

impl InvalidOptionView {
    /// The name of the option that caused the error: the `option` field where there is one,
    /// otherwise the `name` field.
    pub open spec fn option(self) -> Seq<char> {
        match self {
            InvalidOptionView::OptionContainsInvalidChar { option } => option,
            InvalidOptionView::UnconfiguredOption { option } => option,
            InvalidOptionView::OptionNeedsArg { option, .. } => option,
            InvalidOptionView::OptionTakesNoArg { option, .. } => option,
            InvalidOptionView::OptionIsNotArray { option, .. } => option,
            InvalidOptionView::StoreKeyIsDuplicated { name, .. } => name,
            InvalidOptionView::ConfigIsArrayButHasNoArg { name, .. } => name,
            InvalidOptionView::ConfigHasDefaultsButHasNoArg { name, .. } => name,
            InvalidOptionView::OptionNameIsDuplicated { name, .. } => name,
            InvalidOptionView::OptionArgIsInvalid { option, .. } => option,
        }
    }

    /// The text that describes the error.
    pub open spec fn message(self) -> Seq<char> {
        match self {
            InvalidOptionView::OptionContainsInvalidChar { option } =>
                "The option contains invalid character (option: \""@ + debug_escaped(option)
                    + "\")"@,
            InvalidOptionView::UnconfiguredOption { option } =>
                "The option is not specified in configurations (option: \""@ + debug_escaped(
                    option,
                ) + "\")"@,
            InvalidOptionView::OptionNeedsArg { option, .. } =>
                "The option needs argument(s) (option: \""@ + debug_escaped(option) + "\")"@,
            InvalidOptionView::OptionTakesNoArg { option, .. } =>
                "The option takes no argument (option: \""@ + debug_escaped(option) + "\")"@,
            InvalidOptionView::OptionIsNotArray { option, .. } =>
                "The option cannot have multiple arguments (option: \""@ + debug_escaped(option)
                    + "\")"@,
            InvalidOptionView::OptionArgIsInvalid { option, opt_arg, details, .. } =>
                "The option argument \""@ + debug_escaped(opt_arg) + "\" is invalid because: "@
                    + debug_escaped(details) + " (option: \""@ + debug_escaped(option) + "\")"@,
            _ => "The option configuration is invalid (option: \""@ + self.option() + "\")"@,
        }
    }
}

impl InvalidOption {
    /// Returns the name of the option that caused the error.
    pub fn option(&self) -> (r: &str)
        ensures
            r@ == self@.option(),
    {
        match self {
            InvalidOption::OptionContainsInvalidChar { option } => option.as_str(),
            InvalidOption::UnconfiguredOption { option } => option.as_str(),
            InvalidOption::OptionNeedsArg { option, .. } => option.as_str(),
            InvalidOption::OptionTakesNoArg { option, .. } => option.as_str(),
            InvalidOption::OptionIsNotArray { option, .. } => option.as_str(),
            InvalidOption::StoreKeyIsDuplicated { name, .. } => name.as_str(),
            InvalidOption::ConfigIsArrayButHasNoArg { name, .. } => name.as_str(),
            InvalidOption::ConfigHasDefaultsButHasNoArg { name, .. } => name.as_str(),
            InvalidOption::OptionNameIsDuplicated { name, .. } => name.as_str(),
            InvalidOption::OptionArgIsInvalid { option, .. } => option.as_str(),
        }
    }

    /// Returns the text that describes the error.
    pub fn to_string(&self) -> (r: String)
        ensures
            r@ == self@.message(),
    {
        match self {
            InvalidOption::OptionContainsInvalidChar { option } => framed_escaped(
                "The option contains invalid character (option: \"",
                option.as_str(),
                "\")",
            ),
            InvalidOption::UnconfiguredOption { option } => framed_escaped(
                "The option is not specified in configurations (option: \"",
                option.as_str(),
                "\")",
            ),
            InvalidOption::OptionNeedsArg { option, .. } => framed_escaped(
                "The option needs argument(s) (option: \"",
                option.as_str(),
                "\")",
            ),
            InvalidOption::OptionTakesNoArg { option, .. } => framed_escaped(
                "The option takes no argument (option: \"",
                option.as_str(),
                "\")",
            ),
            InvalidOption::OptionIsNotArray { option, .. } => framed_escaped(
                "The option cannot have multiple arguments (option: \"",
                option.as_str(),
                "\")",
            ),
            InvalidOption::OptionArgIsInvalid { option, opt_arg, details, .. } => {
                let mut r = framed_escaped(
                    "The option argument \"",
                    opt_arg.as_str(),
                    "\" is invalid because: ",
                );
                let d = escape_debug(details.as_str());
                r.append(d.as_str());
                r.append(" (option: \"");
                let o = escape_debug(option.as_str());
                r.append(o.as_str());
                r.append("\")");
                r
            },
            _ => framed("The option configuration is invalid (option: \"", self.option(), "\")"),
        }
    }
}

/// The enum type for errors of option configurations.
#[derive(Debug, PartialEq)]
pub enum InvalidConfig {
    /// Indicates that there are duplicated store keys among multiple configurations.
    StoreKeyIsDuplicated {
        /// The store key that caused this error.
        store_key: String,
    },
    /// Indicates that a configuration takes multiple arguments but takes no argument.
    ConfigIsMultiArgsButHasNoArg {
        /// The store key of the configuration that caused this error.
        store_key: String,
    },
    /// Indicates that a configuration has default arguments but takes no argument.
    ConfigHasDefaultsButHasNoArg {
        /// The store key of the configuration that caused this error.
        store_key: String,
    },
    /// Indicates that there are duplicated option names among the configurations.
    OptionNameIsDuplicated {
        /// The store key of the configuration that caused this error.
        store_key: String,
        /// The duplicated name.
        name: String,
    },
}

impl InvalidConfig {
    /// The store key held by every variant.
    pub open spec fn spec_store_key(&self) -> Seq<char> {
        match self {
            InvalidConfig::StoreKeyIsDuplicated { store_key } => store_key@,
            InvalidConfig::ConfigIsMultiArgsButHasNoArg { store_key } => store_key@,
            InvalidConfig::ConfigHasDefaultsButHasNoArg { store_key } => store_key@,
            InvalidConfig::OptionNameIsDuplicated { store_key, .. } => store_key@,
        }
    }

    /// The text that describes the error.
    pub open spec fn message(&self) -> Seq<char> {
        match self {
            InvalidConfig::StoreKeyIsDuplicated { store_key } =>
                "The store key is duplicated (store_key: \""@ + debug_escaped(store_key@)
                    + "\")"@,
            InvalidConfig::ConfigIsMultiArgsButHasNoArg { store_key } =>
                "The configuration is specified both having multiple arguments and having no argument (store_key: \""@
                    + debug_escaped(store_key@) + "\")"@,
            InvalidConfig::ConfigHasDefaultsButHasNoArg { store_key } =>
                "The configuration is specified both default argument(s) and having no argument (store_key: \""@
                    + debug_escaped(store_key@) + "\")"@,
            InvalidConfig::OptionNameIsDuplicated { store_key, name } =>
                "The option name in the configuration is duplicated (store_key: \""@
                    + debug_escaped(store_key@) + "\", name: \""@ + debug_escaped(name@)
                    + "\")"@,
        }
    }

    /// Returns the store key of the configuration that caused the error.
    pub fn store_key(&self) -> (r: &str)
        ensures
            r@ == self.spec_store_key(),
    {
        match self {
            InvalidConfig::StoreKeyIsDuplicated { store_key } => store_key.as_str(),
            InvalidConfig::ConfigIsMultiArgsButHasNoArg { store_key } => store_key.as_str(),
            InvalidConfig::ConfigHasDefaultsButHasNoArg { store_key } => store_key.as_str(),
            InvalidConfig::OptionNameIsDuplicated { store_key, .. } => store_key.as_str(),
        }
    }

    /// Returns the text that describes the error.
    pub fn to_string(&self) -> (r: String)
        ensures
            r@ == self.message(),
    {
        match self {
            InvalidConfig::StoreKeyIsDuplicated { store_key } => framed_escaped(
                "The store key is duplicated (store_key: \"",
                store_key.as_str(),
                "\")",
            ),
            InvalidConfig::ConfigIsMultiArgsButHasNoArg { store_key } => framed_escaped(
                "The configuration is specified both having multiple arguments and having no argument (store_key: \"",
                store_key.as_str(),
                "\")",
            ),
            InvalidConfig::ConfigHasDefaultsButHasNoArg { store_key } => framed_escaped(
                "The configuration is specified both default argument(s) and having no argument (store_key: \"",
                store_key.as_str(),
                "\")",
            ),
            InvalidConfig::OptionNameIsDuplicated { store_key, name } => {
                let mut r = framed_escaped(
                    "The option name in the configuration is duplicated (store_key: \"",
                    store_key.as_str(),
                    "\", name: \"",
                );
                let e = escape_debug(name.as_str());
                r.append(e.as_str());
                r.append("\")");
                r
            },
        }
    }
}

/// Errors of options given in command line arguments, borrowing the option texts.
#[derive(Debug, PartialEq)]
pub enum OptionError<'a> {
    /// The option contains characters that an option name cannot have.
    OptionContainsInvalidChar { option: &'a str },
    /// The option is not in the option configurations.
    UnconfiguredOption { option: &'a str },
    /// The option needs argument(s), but none is given.
    OptionNeedsArg { option: &'a str, store_key: &'a str },
    /// The option takes no argument, but one is given.
    OptionTakesNoArg { option: &'a str, store_key: &'a str },
    /// The option cannot have multiple arguments, but more than one are given.
    OptionIsNotMultiArgs { option: &'a str, store_key: &'a str },
}

impl<'a> OptionError<'a> {
    /// The option text held by every variant.
    pub open spec fn spec_option(&self) -> Seq<char> {
        match self {
            OptionError::OptionContainsInvalidChar { option } => option@,
            OptionError::UnconfiguredOption { option } => option@,
            OptionError::OptionNeedsArg { option, .. } => option@,
            OptionError::OptionTakesNoArg { option, .. } => option@,
            OptionError::OptionIsNotMultiArgs { option, .. } => option@,
        }
    }

    /// The text that describes the error.
    pub open spec fn message(&self) -> Seq<char> {
        match self {
            OptionError::OptionContainsInvalidChar { option } =>
                "The option contains invalid characters (option: \""@ + debug_escaped(option@)
                    + "\")"@,
            OptionError::UnconfiguredOption { option } =>
                "The option is not specified in configurations (option: \""@ + debug_escaped(
                    option@,
                ) + "\")"@,
            OptionError::OptionNeedsArg { option, .. } =>
                "The option needs argument(s) (option: \""@ + debug_escaped(option@) + "\")"@,
            OptionError::OptionTakesNoArg { option, .. } =>
                "The option takes no argument (option: \""@ + debug_escaped(option@) + "\")"@,
            OptionError::OptionIsNotMultiArgs { option, .. } =>
                "The option cannot have multiple arguments (option: \""@ + debug_escaped(option@)
                    + "\")"@,
        }
    }

    /// Returns the option that caused the error.
    pub fn option(&self) -> (r: &'a str)
        ensures
            r@ == self.spec_option(),
    {
        match self {
            OptionError::OptionContainsInvalidChar { option } => option,
            OptionError::UnconfiguredOption { option } => option,
            OptionError::OptionNeedsArg { option, .. } => option,
            OptionError::OptionTakesNoArg { option, .. } => option,
            OptionError::OptionIsNotMultiArgs { option, .. } => option,
        }
    }

    /// Returns the text that describes the error.
    pub fn to_string(&self) -> (r: String)
        ensures
            r@ == self.message(),
    {
        match self {
            OptionError::OptionContainsInvalidChar { option } => framed_escaped(
                "The option contains invalid characters (option: \"",
                option,
                "\")",
            ),
            OptionError::UnconfiguredOption { option } => framed_escaped(
                "The option is not specified in configurations (option: \"",
                option,
                "\")",
            ),
            OptionError::OptionNeedsArg { option, .. } => framed_escaped(
                "The option needs argument(s) (option: \"",
                option,
                "\")",
            ),
            OptionError::OptionTakesNoArg { option, .. } => framed_escaped(
                "The option takes no argument (option: \"",
                option,
                "\")",
            ),
            OptionError::OptionIsNotMultiArgs { option, .. } => framed_escaped(
                "The option cannot have multiple arguments (option: \"",
                option,
                "\")",
            ),
        }
    }
}

/// Errors of option configurations, borrowing the texts of the configurations.
#[derive(Debug, PartialEq)]
pub enum ConfigError<'a> {
    /// Two configurations have the same store key.
    StoreKeyIsDuplicated { store_key: &'a str },
    /// A configuration takes multiple arguments but takes no argument.
    ConfigIsMultiArgsButHasNoArg { store_key: &'a str },
    /// A configuration has default arguments but takes no argument.
    ConfigHasDefaultsButHasNoArg { store_key: &'a str },
    /// Two configurations have the same option name.
    OptionNameIsDuplicated { store_key: &'a str, name: &'a str },
}

impl<'a> ConfigError<'a> {
    /// The store key held by every variant.
    pub open spec fn spec_store_key(&self) -> Seq<char> {
        match self {
            ConfigError::StoreKeyIsDuplicated { store_key } => store_key@,
            ConfigError::ConfigIsMultiArgsButHasNoArg { store_key } => store_key@,
            ConfigError::ConfigHasDefaultsButHasNoArg { store_key } => store_key@,
            ConfigError::OptionNameIsDuplicated { store_key, .. } => store_key@,
        }
    }

    /// Returns the store key of the configuration that caused the error.
    pub fn store_key(&self) -> (r: &'a str)
        ensures
            r@ == self.spec_store_key(),
    {
        match self {
            ConfigError::StoreKeyIsDuplicated { store_key } => store_key,
            ConfigError::ConfigIsMultiArgsButHasNoArg { store_key } => store_key,
            ConfigError::ConfigHasDefaultsButHasNoArg { store_key } => store_key,
            ConfigError::OptionNameIsDuplicated { store_key, .. } => store_key,
        }
    }

    /// The text that describes the error.
    pub open spec fn message(&self) -> Seq<char> {
        match self {
            ConfigError::StoreKeyIsDuplicated { store_key } =>
                "The store key is duplicated (store_key: \""@ + debug_escaped(store_key@)
                    + "\")"@,
            ConfigError::ConfigIsMultiArgsButHasNoArg { store_key } =>
                "The configuration is specified both having multiple arguments and having no argument (store_key: \""@
                    + debug_escaped(store_key@) + "\")"@,
            ConfigError::ConfigHasDefaultsButHasNoArg { store_key } =>
                "The configuration is specified both default argument(s) and having no argument (store_key: \""@
                    + debug_escaped(store_key@) + "\")"@,
            ConfigError::OptionNameIsDuplicated { store_key, name } =>
                "The option name in the configuration is duplicated (store_key: \""@
                    + debug_escaped(store_key@) + "\", name: \""@ + debug_escaped(name@)
                    + "\")"@,
        }
    }

    /// Returns the text that describes the error.
    pub fn to_string(&self) -> (r: String)
        ensures
            r@ == self.message(),
    {
        match self {
            ConfigError::StoreKeyIsDuplicated { store_key } => framed_escaped(
                "The store key is duplicated (store_key: \"",
                store_key,
                "\")",
            ),
            ConfigError::ConfigIsMultiArgsButHasNoArg { store_key } => framed_escaped(
                "The configuration is specified both having multiple arguments and having no argument (store_key: \"",
                store_key,
                "\")",
            ),
            ConfigError::ConfigHasDefaultsButHasNoArg { store_key } => framed_escaped(
                "The configuration is specified both default argument(s) and having no argument (store_key: \"",
                store_key,
                "\")",
            ),
            ConfigError::OptionNameIsDuplicated { store_key, name } => {
                let mut r = framed_escaped(
                    "The option name in the configuration is duplicated (store_key: \"",
                    store_key,
                    "\", name: \"",
                );
                let e = escape_debug(name);
                r.append(e.as_str());
                r.append("\")");
                r
            },
        }
    }
}

/// Errors of converting option arguments to numbers, borrowing the texts involved.
///
/// `cause` holds the description of the underlying conversion error.
#[derive(Debug)]
pub enum ParseError<'a> {
    /// The argument is not a valid signed integer.
    InvalidInt { option: &'a str, field: &'a str, input: &'a str, bit_size: u8, cause: String },
    /// The argument is not a valid unsigned integer.
    InvalidUint { option: &'a str, field: &'a str, input: &'a str, bit_size: u8, cause: String },
    /// The argument is not a valid floating point number.
    InvalidFloat { option: &'a str, field: &'a str, input: &'a str, bit_size: u8, cause: String },
}

impl<'a> ParseError<'a> {
    /// The option text held by every variant.
    pub open spec fn spec_option(&self) -> Seq<char> {
        match self {
            ParseError::InvalidInt { option, .. } => option@,
            ParseError::InvalidUint { option, .. } => option@,
            ParseError::InvalidFloat { option, .. } => option@,
        }
    }

    /// The field name held by every variant.
    pub open spec fn spec_field(&self) -> Seq<char> {
        match self {
            ParseError::InvalidInt { field, .. } => field@,
            ParseError::InvalidUint { field, .. } => field@,
            ParseError::InvalidFloat { field, .. } => field@,
        }
    }

    /// The input text held by every variant.
    pub open spec fn spec_input(&self) -> Seq<char> {
        match self {
            ParseError::InvalidInt { input, .. } => input@,
            ParseError::InvalidUint { input, .. } => input@,
            ParseError::InvalidFloat { input, .. } => input@,
        }
    }

    /// Returns the option whose argument could not be converted.
    pub fn option(&self) -> (r: &'a str)
        ensures
            r@ == self.spec_option(),
    {
        match self {
            ParseError::InvalidInt { option, .. } => option,
            ParseError::InvalidUint { option, .. } => option,
            ParseError::InvalidFloat { option, .. } => option,
        }
    }

    /// Returns the name of the field that was to receive the value.
    pub fn field(&self) -> (r: &'a str)
        ensures
            r@ == self.spec_field(),
    {
        match self {
            ParseError::InvalidInt { field, .. } => field,
            ParseError::InvalidUint { field, .. } => field,
            ParseError::InvalidFloat { field, .. } => field,
        }
    }

    /// Returns the argument text that could not be converted.
    pub fn input(&self) -> (r: &'a str)
        ensures
            r@ == self.spec_input(),
    {
        match self {
            ParseError::InvalidInt { input, .. } => input,
            ParseError::InvalidUint { input, .. } => input,
            ParseError::InvalidFloat { input, .. } => input,
        }
    }
}

impl<'a> ParseError<'a> {
    /// The text that describes the error.
    pub open spec fn message(&self) -> Seq<char> {
        match self {
            ParseError::InvalidInt { option, input, .. } =>
                "The option arguments is invalid as an integer (option: \""@ + debug_escaped(option@)
                    + "\", argument: \""@ + debug_escaped(input@) + "\")"@,
            ParseError::InvalidUint { option, input, .. } =>
                "The option arguments is invalid as an unsigned integer (option: \""@
                    + debug_escaped(option@) + "\", argument: \""@ + debug_escaped(input@)
                    + "\")"@,
            ParseError::InvalidFloat { option, input, .. } =>
                "The option arguments is invalid as a floating point number (option: \""@
                    + debug_escaped(option@) + "\", argument: \""@ + debug_escaped(input@)
                    + "\")"@,
        }
    }

    /// Returns the text that describes the error.
    pub fn to_string(&self) -> (r: String)
        ensures
            r@ == self.message(),
    {
        let (head, option, input) = match self {
            ParseError::InvalidInt { option, input, .. } => (
                "The option arguments is invalid as an integer (option: \"",
                option,
                input,
            ),
            ParseError::InvalidUint { option, input, .. } => (
                "The option arguments is invalid as an unsigned integer (option: \"",
                option,
                input,
            ),
            ParseError::InvalidFloat { option, input, .. } => (
                "The option arguments is invalid as a floating point number (option: \"",
                option,
                input,
            ),
        };
        let mut r = framed_escaped(head, option, "\", argument: \"");
        let e = escape_debug(input);
        r.append(e.as_str());
        r.append("\")");
        r
    }

    /// The bit size held by every variant.
    pub open spec fn spec_bit_size(&self) -> u8 {
        match self {
            ParseError::InvalidInt { bit_size, .. } => *bit_size,
            ParseError::InvalidUint { bit_size, .. } => *bit_size,
            ParseError::InvalidFloat { bit_size, .. } => *bit_size,
        }
    }

    /// Both errors are of the same variant.
    pub open spec fn same_variant(&self, other: &Self) -> bool {
        match (self, other) {
            (ParseError::InvalidInt { .. }, ParseError::InvalidInt { .. }) => true,
            (ParseError::InvalidUint { .. }, ParseError::InvalidUint { .. }) => true,
            (ParseError::InvalidFloat { .. }, ParseError::InvalidFloat { .. }) => true,
            _ => false,
        }
    }
}

impl<'a> PartialEq for ParseError<'a> {
    /// Two errors are equal when they are of the same variant and hold the same option, field,
    /// input and bit size; their causes are not compared.
    fn eq(&self, other: &Self) -> (r: bool) {
        let same = match (self, other) {
            (ParseError::InvalidInt { .. }, ParseError::InvalidInt { .. }) => true,
            (ParseError::InvalidUint { .. }, ParseError::InvalidUint { .. }) => true,
            (ParseError::InvalidFloat { .. }, ParseError::InvalidFloat { .. }) => true,
            _ => false,
        };
        same && str_eq(self.option(), other.option()) && str_eq(self.field(), other.field())
            && str_eq(self.input(), other.input()) && self.bit_size() == other.bit_size()
    }
}

impl<'a> vstd::std_specs::cmp::PartialEqSpecImpl for ParseError<'a> {
    open spec fn obeys_eq_spec() -> bool {
        true
    }

    open spec fn eq_spec(&self, other: &Self) -> bool {
        &&& self.same_variant(other)
        &&& self.spec_option() == other.spec_option()
        &&& self.spec_field() == other.spec_field()
        &&& self.spec_input() == other.spec_input()
        &&& self.spec_bit_size() == other.spec_bit_size()
    }
}

impl<'a> ParseError<'a> {
    /// Returns the bit size of the type that the argument was to be converted to.
    pub fn bit_size(&self) -> (r: u8)
        ensures
            r == self.spec_bit_size(),
    {
        match self {
            ParseError::InvalidInt { bit_size, .. } => *bit_size,
            ParseError::InvalidUint { bit_size, .. } => *bit_size,
            ParseError::InvalidFloat { bit_size, .. } => *bit_size,
        }
    }
}

} // verus!
