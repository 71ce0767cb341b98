//! The parsed command line: command name, command arguments and options.

use crate::keyed::{
    find_key, has_key, key_at, keys_distinct, lemma_index_of_key, opts_view, stored_args, value_of,
};
use crate::errors::InvalidOption;
use crate::opt_cfg::{OptCfg, OptCfgView, cfgs_view, debug_quoted, debug_str, joined_debug, push_joined_debug};
use crate::parse::{collect_plain, outcome_of, plain_parse};
use crate::scan::{
    first_operand, flags_view, mode_before, parse_args, start_mode, takes_of,
};
use crate::validators::outcome_view;
use crate::parse_with::{
    cfg_flags, cfg_table, check_configs, collect_with, put_defaults, table_flags, with_parse,
};
use crate::parse_for::OptStore;
use crate::strings::{opt_string_view, owned, strings_view};
use vstd::prelude::*;

verus! {

/// Parses command line arguments and stores them.
///
/// The results of parsing are stored by separating into command name, command arguments, options,
/// and option arguments.
pub struct Cmd {
    pub(crate) name: String,
    pub(crate) args: Vec<String>,
    pub(crate) opts: Vec<(String, Vec<String>)>,
    pub(crate) cfgs: Vec<OptCfg>,
    pub(crate) line: Vec<String>,
    pub(crate) is_after_end_opt: bool,
}

/// The abstract value of a [Cmd].
pub struct CmdView {
    /// The command name.
    pub name: Seq<char>,
    /// The command arguments, in the order given.
    pub args: Seq<Seq<char>>,
    /// The options: each store key (or option name) with its option arguments, in the order in
    /// which each key was first stored.
    pub opts: Seq<(Seq<char>, Seq<Seq<char>>)>,
    /// The option configurations used in the last parse.
    pub cfgs: Seq<OptCfgView>,
    /// The words of the command line: the command path, then the arguments to parse.
    pub line: Seq<Seq<char>>,
    /// Whether the words to parse all come after an end-of-options mark (`--`).
    pub after_end: bool,
}

impl View for Cmd {
    type V = CmdView;

    closed spec fn view(&self) -> CmdView {
        CmdView {
            name: self.name@,
            args: strings_view(self.args@),
            opts: opts_view(self.opts@),
            cfgs: cfgs_view(self.cfgs@),
            line: strings_view(self.line@),
            after_end: self.is_after_end_opt,
        }
    }
}

/// The command that a sub command starts: its name is the word at `from` itself, the words from
/// there on are its command line, and nothing has been parsed yet.
pub open spec fn sub_cmd_view(line: Seq<Seq<char>>, from: int, after_end: bool) -> CmdView {
    CmdView {
        name: line[from],
        args: Seq::empty(),
        opts: Seq::empty(),
        cfgs: Seq::empty(),
        line: line.skip(from),
        after_end,
    }
}

/// A path that is one plain component: not empty, not `.` or `..`, and without `/`, `\` or
/// `:`, which some platforms read as separators or as the start of a prefix.
pub open spec fn is_plain_component(n: Seq<char>) -> bool {
    &&& n.len() > 0
    &&& n != seq!['.']
    &&& n != seq!['.', '.']
    &&& !n.contains('/')
    &&& !n.contains('\\')
    &&& !n.contains(':')
}

/// The path `path` ends in the plain component `n`, maybe followed by one `/`, and what comes
/// before `n` is empty or ends in `/`, holds no `\` or `:`, and does not start with `//`: on
/// every platform `n` is then the final component of `path`.
pub open spec fn ends_in_component(path: Seq<char>, n: Seq<char>) -> bool {
    &&& is_plain_component(n)
    &&& exists|d: Seq<char>|
        #![trigger d + n]
        {
            &&& (path == d + n || path == d + n + seq!['/'])
            &&& (d.len() == 0 || d.last() == '/')
            &&& !d.contains('\\')
            &&& !d.contains(':')
            &&& !(d.len() >= 2 && d[0] == '/' && d[1] == '/')
        }
}

/// `part` is a run of consecutive characters of `whole`.
pub open spec fn is_infix(part: Seq<char>, whole: Seq<char>) -> bool {
    exists|i: int|
        0 <= i && i + part.len() <= whole.len() && #[trigger] whole.subrange(i, i + part.len())
            == part
}

/// Finds the final component of `path` with `std::path::Path::file_name` and returns its text,
/// or `None` when there is none. Which characters separate the components of a path, and which
/// prefixes a path can have, differ between platforms, so the contract claims only what holds on
/// every platform: the component is a non-empty run of the path's characters, and a path that
/// ends in a plain component (`ends_in_component`) has that component as its final one. What
/// the component is for other paths (with `\`, `:` or a leading `//` before the last `/`) is
/// left unsaid.
#[verifier::external_body]
fn file_name_of(path: &str) -> (r: Option<String>)
    ensures
        opt_string_view(r) is Some ==> opt_string_view(r)->Some_0.len() > 0 && is_infix(
            opt_string_view(r)->Some_0,
            path@,
        ),
        forall|n: Seq<char>| #[trigger] ends_in_component(path@, n) ==> opt_string_view(r) == Some(n),
{
    match std::path::Path::new(path).file_name() {
        Some(base) => match base.to_str() {
            Some(text) => Some(text.to_string()),
            None => None,
        },
        None => None,
    }
}

impl Cmd {
    /// The state that every `Cmd` keeps: a command line with at least the command path, and no
    /// option key stored twice.
    pub closed spec fn wf(&self) -> bool {
        &&& self.line@.len() >= 1
        &&& keys_distinct(opts_view(self.opts@))
    }

    /// What `wf` says, by the view.
    pub proof fn lemma_wf(&self)
        requires
            self.wf(),
        ensures
            self@.line.len() >= 1,
            keys_distinct(self@.opts),
    {
    }

    /// Creates a `Cmd` instance with the specified command line words: the command path, then
    /// the arguments.
    ///
    /// The command name is the base name of the command path: its final component, as
    /// `std::path::Path::file_name` finds it, or empty when it has none. So `/path/to/app`,
    /// `../path/to/app`, `/path/to/app/` and `app` all have the name `app`.
    pub fn with_strings(args: Vec<String>) -> (cmd: Cmd)
        ensures
            cmd.wf(),
            cmd@.line == (if args@.len() == 0 {
                seq![Seq::<char>::empty()]
            } else {
                strings_view(args@)
            }),
            cmd@.args.len() == 0,
            cmd@.opts.len() == 0,
            cmd@.cfgs.len() == 0,
            !cmd@.after_end,
            cmd@.name.len() > 0 ==> is_infix(cmd@.name, cmd@.line[0]),
            forall|n: Seq<char>| #[trigger] ends_in_component(cmd@.line[0], n) ==> cmd@.name == n,
    {
        let mut line = args;
        if line.len() == 0 {
            line.push(String::new());
            proof {
                assert(strings_view(line@) =~= seq![Seq::<char>::empty()]);
            }
        }
        let name = match file_name_of(line[0].as_str()) {
            Some(base) => base,
            None => String::new(),
        };
        let cmd = Cmd {
            name,
            args: Vec::new(),
            opts: Vec::new(),
            cfgs: Vec::new(),
            line,
            is_after_end_opt: false,
        };
        proof {
            assert(cmd@.opts =~= Seq::<(Seq<char>, Seq<Seq<char>>)>::empty());
        }
        cmd
    }

    /// Creates the command that starts at the word `from_index` of this command line: a sub
    /// command named by that word, with the following words as its command line.
    pub(crate) fn sub_cmd(&self, from_index: usize, is_after_end_opt: bool) -> (cmd: Cmd)
        requires
            from_index < self.line@.len(),
        ensures
            cmd.wf(),
            cmd@ == sub_cmd_view(self@.line, from_index as int, is_after_end_opt),
    {
        let mut line: Vec<String> = Vec::new();
        let mut i = from_index;
        while i < self.line.len()
            invariant
                from_index <= i <= self.line@.len(),
                line@.len() == i - from_index,
                forall|j: int| 0 <= j < line@.len() ==> #[trigger] line@[j]@ == self.line@[from_index + j]@,
            decreases self.line@.len() - i,
        {
            line.push(self.line[i].clone());
            i = i + 1;
        }
        let cmd = Cmd {
            name: self.line[from_index].clone(),
            args: Vec::new(),
            opts: Vec::new(),
            cfgs: Vec::new(),
            line,
            is_after_end_opt,
        };
        proof {
            assert(cmd@.opts =~= Seq::<(Seq<char>, Seq<Seq<char>>)>::empty());
            assert(cmd@.args =~= Seq::<Seq<char>>::empty());
            assert(cmd@.cfgs =~= Seq::<OptCfgView>::empty());
            assert(cmd@.line =~= strings_view(self.line@).skip(from_index as int));
        }
        cmd
    }

    /// Returns the command name.
    pub fn name(&self) -> (r: &str)
        ensures
            r@ == self@.name,
    {
        self.name.as_str()
    }

    /// Returns the command arguments.
    pub fn args(&self) -> (r: &[String])
        ensures
            strings_view(r@) == self@.args,
    {
        self.args.as_slice()
    }

    /// Checks whether an option with the specified name exists.
    pub fn has_opt(&self, name: &str) -> (r: bool)
        ensures
            r == has_key(self@.opts, name@),
    {
        let key = owned(name);
        match find_key(&self.opts, &key) {
            Some(i) => {
                proof {
                    assert(key_at(self@.opts, name@, i as int));
                }
                true
            },
            None => {
                proof {
                    assert forall|j: int| !key_at(self@.opts, name@, j) by {
                        if 0 <= j < self@.opts.len() {
                            assert(self@.opts[j].0 == self.opts@[j].0@);
                        }
                    }
                }
                false
            },
        }
    }

    /// Returns the option argument with the specified name.
    ///
    /// If the option has multiple arguments, this method returns the first argument.
    /// Since the option may not be specified in the command line arguments, the return value of
    /// this method is an [Option] of an option argument or [None].
    pub fn opt_arg(&self, name: &str) -> (r: Option<&str>)
        requires
            self.wf(),
        ensures
            match r {
                Some(a) => stored_args(self@.opts, name@).len() > 0 && a@ == stored_args(
                    self@.opts,
                    name@,
                )[0],
                None => stored_args(self@.opts, name@).len() == 0,
            },
    {
        let key = owned(name);
        match find_key(&self.opts, &key) {
            Some(i) => {
                proof {
                    assert(key_at(self@.opts, name@, i as int));
                    lemma_index_of_key(self@.opts, name@, i as int);
                }
                let vals = &self.opts[i].1;
                if vals.len() > 0 {
                    Some(vals[0].as_str())
                } else {
                    None
                }
            },
            None => {
                proof {
                    assert forall|j: int| !key_at(self@.opts, name@, j) by {
                        if 0 <= j < self@.opts.len() {
                            assert(self@.opts[j].0 == self.opts@[j].0@);
                        }
                    }
                }
                None
            },
        }
    }

    /// Returns the option arguments with the specified name.
    ///
    /// If the option has one or multiple arguments, this method returns an array of the
    /// arguments. Since the option may not be specified in the command line arguments, the
    /// return value of this method is an [Option] of option arguments or [None].
    pub fn opt_args(&self, name: &str) -> (r: Option<&[String]>)
        requires
            self.wf(),
        ensures
            match r {
                Some(v) => value_of(self@.opts, name@) == Some(strings_view(v@)),
                None => value_of(self@.opts, name@) is None,
            },
    {
        let key = owned(name);
        match find_key(&self.opts, &key) {
            Some(i) => {
                proof {
                    assert(key_at(self@.opts, name@, i as int));
                    lemma_index_of_key(self@.opts, name@, i as int);
                }
                Some(self.opts[i].1.as_slice())
            },
            None => {
                proof {
                    assert forall|j: int| !key_at(self@.opts, name@, j) by {
                        if 0 <= j < self@.opts.len() {
                            assert(self@.opts[j].0 == self.opts@[j].0@);
                        }
                    }
                }
                None
            },
        }
    }

    /// Retrieves the option configurations which was used to parse command line arguments.
    pub fn opt_cfgs(&self) -> (r: &[OptCfg])
        ensures
            cfgs_view(r@) == self@.cfgs,
    {
        self.cfgs.as_slice()
    }
}

impl Cmd {
    /// Parses command line arguments without configurations.
    ///
    /// This method divides command line arguments into options and command arguments based on
    /// simple rules that are almost the same as POSIX & GNU:
    /// arguments staring with `-` or `--` are treated as options, and others are treated as
    /// command arguments.
    /// If an `=` is found within an option, the part before the `=` is treated as the option
    /// name, and the part after the `=` is treated as the option argument.
    /// Options starting with `--` are long options and option starting with `-` are short
    /// options. Multiple short options can be concatenated into a single command line argument.
    /// If an argument is exactly `--`, all subsequent arguments are treated as command
    /// arguments.
    ///
    /// Every argument is parsed even after an error; the first error is returned.
    pub fn parse(&mut self) -> (r: Result<(), InvalidOption>)
        requires
            old(self).wf(),
        ensures
            final(self).wf(),
            ({
                let s = plain_parse(old(self)@, false);
                &&& final(self)@ == CmdView { args: s.args, opts: s.opts, ..old(self)@ }
                &&& outcome_view(r) == outcome_of(s.err)
            }),
    {
        let takes: Vec<(String, bool)> = Vec::new();
        proof {
            assert(flags_view(takes@) =~= Seq::<(Seq<char>, bool)>::empty());
        }
        let (tokens, _) = parse_args(&self.line, &takes, false, self.is_after_end_opt);
        let err = collect_plain(&tokens, &mut self.args, &mut self.opts);
        match err {
            Some(e) => Err(e),
            None => Ok(()),
        }
    }

    /// Parses command line arguments without configurations but stops parsing when encountering
    /// first command argument.
    ///
    /// This method creates and returns a new [Cmd] instance that holds the command line
    /// arguments starting from the first command argument: its name is that argument, and if it
    /// came after `--`, all its arguments are command arguments.
    ///
    /// This method parses command line arguments in the same way as the [Cmd::parse] method,
    /// except that it only parses the command line arguments before the first command argument.
    pub fn parse_until_sub_cmd(&mut self) -> (r: Result<Option<Cmd>, InvalidOption>)
        requires
            old(self).wf(),
        ensures
            final(self).wf(),
            ({
                let s = plain_parse(old(self)@, true);
                let w = old(self)@.line.skip(1);
                let m0 = start_mode(old(self)@.after_end);
                let tk = takes_of(Seq::empty());
                &&& final(self)@ == CmdView { args: s.args, opts: s.opts, ..old(self)@ }
                &&& match r {
                    Err(e) => s.err == Some(e@),
                    Ok(None) => s.err is None && first_operand(w, m0, tk) is None,
                    Ok(Some(sub)) => s.err is None && sub.wf() && match first_operand(w, m0, tk) {
                        Some(i) => sub@ == sub_cmd_view(
                            old(self)@.line,
                            i + 1,
                            mode_before(w, i, m0, tk) is Operands,
                        ),
                        None => false,
                    },
                }
            }),
    {
        let takes: Vec<(String, bool)> = Vec::new();
        proof {
            assert(flags_view(takes@) =~= Seq::<(Seq<char>, bool)>::empty());
        }
        let (tokens, stop) = parse_args(&self.line, &takes, true, self.is_after_end_opt);
        let n = self.line.len();
        let err = collect_plain(&tokens, &mut self.args, &mut self.opts);
        match err {
            Some(e) => Err(e),
            None => match stop {
                Some((i, ae)) => {
                    assert(i < n - 1);
                    Ok(Some(self.sub_cmd(i + 1, ae)))
                },
                None => Ok(None),
            },
        }
    }
}

impl Cmd {
    /// Parses command line arguments with option configurations.
    ///
    /// This method divides command line arguments to command arguments and options, as
    /// [Cmd::parse] does, but allows only options declared in the option configurations,
    /// basically.
    ///
    /// When an option matches one of the `names` of a configuration, it is stored under that
    /// configuration's `store_key` (or, when that is empty, its first name). An option whose
    /// configuration has `has_arg` takes the next command line argument as its option argument
    /// when no `=` gives one; it can have only one argument unless the configuration has
    /// `is_array`, and its arguments are checked by the configuration's `validator`. An option
    /// whose configuration does not have `has_arg` cannot have an argument. When an option with
    /// `defaults` is not given, the default arguments are stored.
    ///
    /// An option that no configuration declares gives [InvalidOption::UnconfiguredOption],
    /// unless a configuration has the store key `*`, which lets every such option through.
    ///
    /// The configurations are checked before parsing: a wrong one is the error, and then nothing
    /// is parsed. Either way they are kept in this [Cmd] instance, and [Cmd::opt_cfgs] returns
    /// them.
    pub fn parse_with(&mut self, opt_cfgs: Vec<OptCfg>) -> (r: Result<(), InvalidOption>)
        requires
            old(self).wf(),
        ensures
            final(self).wf(),
            ({
                let cs = cfgs_view(opt_cfgs@);
                let s = with_parse(old(self)@, cs, false);
                &&& final(self)@ == CmdView { args: s.args, opts: s.opts, cfgs: cs, ..old(self)@ }
                &&& outcome_view(r) == outcome_of(s.err)
            }),
    {
        let r = match check_configs(&opt_cfgs, self.is_after_end_opt) {
            Err(e) => Err(e),
            Ok(idx) => {
                let flags = table_flags(&idx, &opt_cfgs);
                let (tokens, _) = parse_args(&self.line, &flags, false, self.is_after_end_opt);
                let err = collect_with(&tokens, &opt_cfgs, &idx, &mut self.args, &mut self.opts);
                put_defaults(&opt_cfgs, &mut self.opts);
                match err {
                    Some(e) => Err(e),
                    None => Ok(()),
                }
            },
        };
        self.cfgs = opt_cfgs;
        r
    }

    /// Parses command line arguments with option configurations but stops parsing when
    /// encountering first command argument.
    ///
    /// This method parses the command line arguments before the first command argument in the
    /// same way as [Cmd::parse_with], and creates and returns a new [Cmd] instance that holds
    /// the command line arguments starting from that first command argument, as
    /// [Cmd::parse_until_sub_cmd] does. The configurations are kept in this [Cmd] instance.
    pub fn parse_until_sub_cmd_with(&mut self, opt_cfgs: Vec<OptCfg>) -> (r: Result<
        Option<Cmd>,
        InvalidOption,
    >)
        requires
            old(self).wf(),
        ensures
            final(self).wf(),
            ({
                let cs = cfgs_view(opt_cfgs@);
                let s = with_parse(old(self)@, cs, true);
                let w = old(self)@.line.skip(1);
                let m0 = start_mode(old(self)@.after_end);
                &&& final(self)@ == CmdView { args: s.args, opts: s.opts, cfgs: cs, ..old(self)@ }
                &&& match r {
                    Err(e) => s.err == Some(e@),
                    Ok(None) => s.err is None && (cfg_table(old(self)@, cs) matches Ok(t)
                        && first_operand(w, m0, takes_of(cfg_flags(t.names, cs))) is None),
                    Ok(Some(sub)) => s.err is None && sub.wf() && (cfg_table(old(self)@, cs) matches Ok(t)
                        && match first_operand(w, m0, takes_of(cfg_flags(t.names, cs))) {
                        Some(i) => sub@ == sub_cmd_view(
                            old(self)@.line,
                            i + 1,
                            mode_before(w, i, m0, takes_of(cfg_flags(t.names, cs))) is Operands,
                        ),
                        None => false,
                    }),
                }
            }),
    {
        let r = match check_configs(&opt_cfgs, self.is_after_end_opt) {
            Err(e) => Err(e),
            Ok(idx) => {
                let flags = table_flags(&idx, &opt_cfgs);
                let (tokens, stop) = parse_args(&self.line, &flags, true, self.is_after_end_opt);
                let n = self.line.len();
                let err = collect_with(&tokens, &opt_cfgs, &idx, &mut self.args, &mut self.opts);
                put_defaults(&opt_cfgs, &mut self.opts);
                match err {
                    Some(e) => Err(e),
                    None => match stop {
                        Some((i, ae)) => {
                            assert(i < n - 1);
                            Ok(Some(self.sub_cmd(i + 1, ae)))
                        },
                        None => Ok(None),
                    },
                }
            },
        };
        self.cfgs = opt_cfgs;
        r
    }

    /// Parses command line arguments and sets their option values to the option store which is
    /// passed as an argument.
    ///
    /// The option configurations are made by the option store ([OptStore::make_opt_cfgs]),
    /// the command line arguments are parsed with them as [Cmd::parse_with] does, and the
    /// configurations are kept in this [Cmd] instance. When that parse fails, its error is the
    /// result and the option store is left as it was; otherwise the option store sets its field
    /// values from the stored options ([OptStore::set_field_values]), and what that returns is
    /// the result.
    pub fn parse_for<T: OptStore>(&mut self, opt_store: &mut T) -> (r: Result<(), InvalidOption>)
        requires
            old(self).wf(),
        ensures
            final(self).wf(),
            exists|c: Vec<OptCfg>|
                #![trigger call_ensures(T::make_opt_cfgs, (&*old(opt_store),), c)]
                call_ensures(T::make_opt_cfgs, (&*old(opt_store),), c) && ({
                    let cs = cfgs_view(c@);
                    let s = with_parse(old(self)@, cs, false);
                    &&& final(self)@ == CmdView { args: s.args, opts: s.opts, cfgs: cs, ..old(self)@ }
                    &&& match s.err {
                        Some(e) => r matches Err(x) && x@ == e && *final(opt_store) == *old(opt_store),
                        None => exists|m: &mut T, stored: &[(String, Vec<String>)]|
                            #![trigger call_ensures(T::set_field_values, (m, stored), r)]
                            mut_ref_current(m) == *old(opt_store) && mut_ref_future(m)
                                == *final(opt_store) && opts_view(stored@) == s.opts
                                && call_ensures(T::set_field_values, (m, stored), r),
                    }
                }),
    {
        let make = T::make_opt_cfgs;
        let cfgs = make(&*opt_store);
        let ghost made = cfgs;
        match self.parse_with(cfgs) {
            Ok(()) => {},
            Err(e) => {
                return Err(e);
            },
        }
        let set = T::set_field_values;
        let stored = self.opts.as_slice();
        let r = set(opt_store, stored);
        r
    }
}

/// The `Debug` forms of the options `opts`: each key, `: `, and its arguments in brackets,
/// separated by `, `.
pub open spec fn opts_debug(opts: Seq<(Seq<char>, Seq<Seq<char>>)>) -> Seq<char>
    decreases opts.len(),
{
    if opts.len() == 0 {
        Seq::empty()
    } else {
        let entry = debug_str(opts.last().0) + ": ["@ + joined_debug(opts.last().1) + "]"@;
        if opts.len() == 1 {
            entry
        } else {
            opts_debug(opts.drop_last()) + ", "@ + entry
        }
    }
}

/// The text that shows the command name, the command arguments and the options of a command,
/// as a derived `Debug` format would, the options in the order in which they were first stored.
pub open spec fn cmd_debug(c: CmdView) -> Seq<char> {
    "Cmd { name: "@ + debug_str(c.name) + ", args: ["@ + joined_debug(c.args) + "], opts: {"@
        + opts_debug(c.opts) + "} }"@
}

impl Cmd {
    /// Returns the text that shows the command name, the command arguments and the options of
    /// this command, in the form of a derived `Debug` format.
    pub fn debug_text(&self) -> (r: String)
        ensures
            r@ == cmd_debug(self@),
    {
        let ghost ov = opts_view(self.opts@);
        let mut t = String::from_str("Cmd { name: ");
        t.append(debug_quoted(self.name.as_str()).as_str());
        t.append(", args: [");
        push_joined_debug(&mut t, &self.args);
        t.append("], opts: {");
        let ghost before = t@;
        let mut i: usize = 0;
        proof {
            reveal_strlit(", ");
            reveal_strlit(": [");
            reveal_strlit("]");
            assert(ov.take(0) =~= Seq::<(Seq<char>, Seq<Seq<char>>)>::empty());
            assert(t@ =~= before + opts_debug(ov.take(0)));
        }
        while i < self.opts.len()
            invariant
                i <= self.opts@.len(),
                ov == opts_view(self.opts@),
                ", "@ == seq![',', ' '],
                ": ["@ == seq![':', ' ', '['],
                "]"@ == seq![']'],
                t@ == before + opts_debug(ov.take(i as int)),
            decreases self.opts@.len() - i,
        {
            let ghost prev = t@;
            proof {
                assert(ov.take(i + 1).drop_last() =~= ov.take(i as int));
                assert(ov.take(i + 1).last() == ov[i as int]);
                assert(ov[i as int] == (self.opts@[i as int].0@, strings_view(self.opts@[i as int].1@)));
            }
            if i > 0 {
                t.append(", ");
            }
            t.append(debug_quoted(self.opts[i].0.as_str()).as_str());
            t.append(": [");
            push_joined_debug(&mut t, &self.opts[i].1);
            t.append("]");
            proof {
                if i == 0 {
                    assert(ov.take(0) =~= Seq::<(Seq<char>, Seq<Seq<char>>)>::empty());
                }
                assert(t@ =~= before + opts_debug(ov.take(i + 1)));
            }
            i = i + 1;
        }
        proof {
            assert(ov.take(self.opts@.len() as int) =~= ov);
        }
        t.append("} }");
        proof {
            assert(t@ =~= cmd_debug(self@));
        }
        t
    }
}

} // verus!
