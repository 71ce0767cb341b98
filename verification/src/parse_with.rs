//! Collecting scanned tokens into options by option configurations: which options are allowed,
//! under which store key they are kept, whether they take arguments, how many, and which
//! default arguments an option gets when it is not given.

use crate::cmd::CmdView;
use crate::errors::{InvalidOption, InvalidOptionView};
use crate::keyed::{
    find_key, has_key, index_of_key, key_at, keys_distinct, lemma_index_of_key, lemma_put, opts_view, put,
    stored_args, value_of,
};
use crate::opt_cfg::{OptCfg, OptCfgView, cfgs_view};
use crate::parse::{ParseState, add_opt_arg, keep_first, operand_words, opt_error_view, set_opt_args};
use crate::scan::{
    ArgToken, ScanMode, Token, first_operand, flags_view, is_alpha, is_name_char, law_long_option_alone,
    law_scan_reads_only_scanned_words, scan_word,
    law_words_after_end_mark, lemma_first_operand_from, lemma_first_operand_same, mode_before, operands,
    scan_end, scan_words, start_mode, takes_of, tokens_view,
};
use crate::strings::{clone_strings, opt_string_view, owned, strings_view};
use crate::validators::validator_outcome;
use vstd::prelude::*;

verus! {

/// The names in `names` that are not empty, in order.
pub open spec fn nonempty_names(names: Seq<Seq<char>>) -> Seq<Seq<char>>
    decreases names.len(),
{
    if names.len() == 0 {
        Seq::empty()
    } else {
        let front = nonempty_names(names.drop_last());
        if names.last().len() > 0 {
            front.push(names.last())
        } else {
            front
        }
    }
}

/// The store key that marks a configuration that lets every unconfigured option through.
pub open spec fn any_opt_key() -> Seq<char> {
    seq!['*']
}

/// The key under which the arguments of a configured option are stored: the configuration's
/// `store_key`, or, when that is empty, its first non-empty name (empty when there is none).
pub open spec fn cfg_key(c: OptCfgView) -> Seq<char> {
    let ns = nonempty_names(c.names);
    if c.store_key.len() == 0 && ns.len() > 0 {
        ns[0]
    } else {
        c.store_key
    }
}

/// The name by which errors of a configuration name it: its first non-empty name, or its store
/// key when it has none.
pub open spec fn cfg_first_name(c: OptCfgView) -> Seq<char> {
    let ns = nonempty_names(c.names);
    if ns.len() > 0 {
        ns[0]
    } else {
        cfg_key(c)
    }
}

/// What checking the configurations builds: the store keys seen, each option name with the
/// index of its configuration, and whether unconfigured options are let through.
pub struct CfgTable {
    pub keys: Seq<Seq<char>>,
    pub names: Seq<(Seq<char>, usize)>,
    pub any: bool,
}

/// Adds the names `ns` of the configuration at `i` (whose store key is `key`) to `m`, in order;
/// a name that is there already is an error.
pub open spec fn add_names(
    m: Seq<(Seq<char>, usize)>,
    ns: Seq<Seq<char>>,
    i: usize,
    key: Seq<char>,
) -> Result<Seq<(Seq<char>, usize)>, InvalidOptionView>
    decreases ns.len(),
{
    if ns.len() == 0 {
        Ok(m)
    } else {
        match add_names(m, ns.drop_last(), i, key) {
            Err(e) => Err(e),
            Ok(m2) => if has_key(m2, ns.last()) {
                Err(InvalidOptionView::OptionNameIsDuplicated { store_key: key, name: ns.last() })
            } else {
                Ok(m2.push((ns.last(), i)))
            },
        }
    }
}

/// Checks the configuration `c` at index `i` against the table `t` built from those before it.
///
/// A configuration with no store key is ignored, and one whose store key is `*` lets
/// unconfigured options through. Otherwise its store key must be new, a configuration that
/// takes no argument can neither take multiple arguments nor have non-empty default arguments,
/// and its names must be new. A configuration without names is found by its store key.
pub open spec fn check_cfg(t: CfgTable, c: OptCfgView, i: usize) -> Result<
    CfgTable,
    InvalidOptionView,
> {
    let key = cfg_key(c);
    let first = cfg_first_name(c);
    let ns = nonempty_names(c.names);
    if key.len() == 0 {
        Ok(t)
    } else if key == any_opt_key() {
        Ok(CfgTable { any: true, ..t })
    } else if t.keys.contains(key) {
        Err(InvalidOptionView::StoreKeyIsDuplicated { store_key: key, name: first })
    } else if !c.has_arg && c.is_array {
        Err(InvalidOptionView::ConfigIsArrayButHasNoArg { store_key: key, name: first })
    } else if !c.has_arg && (match c.defaults {
        Some(d) => d.len() > 0,
        None => false,
    }) {
        Err(InvalidOptionView::ConfigHasDefaultsButHasNoArg { store_key: key, name: first })
    } else if ns.len() == 0 {
        Ok(CfgTable { keys: t.keys.push(key), names: put(t.names, key, i), any: t.any })
    } else {
        match add_names(t.names, ns, i, key) {
            Ok(m) => Ok(CfgTable { keys: t.keys.push(key), names: m, any: t.any }),
            Err(e) => Err(e),
        }
    }
}

/// Checks the first `n` configurations of `cs` in order and builds their table; the first
/// error found is the result. Unconfigured options are let through from the start when the
/// words to parse all come after an end-of-options mark.
pub open spec fn check_cfgs(cs: Seq<OptCfgView>, n: int, after_end: bool) -> Result<
    CfgTable,
    InvalidOptionView,
>
    decreases n,
{
    if n <= 0 {
        Ok(CfgTable { keys: Seq::empty(), names: Seq::empty(), any: after_end })
    } else {
        match check_cfgs(cs, n - 1, after_end) {
            Err(e) => Err(e),
            Ok(t) => check_cfg(t, cs[n - 1], (n - 1) as usize),
        }
    }
}

/// Every name occurs once in the table, and each names one of the first `n` configurations.
pub open spec fn table_wf(t: CfgTable, n: int) -> bool {
    &&& keys_distinct(t.names)
    &&& forall|k: int| 0 <= k < t.names.len() ==> (#[trigger] t.names[k]).1 < n
}

/// Each option name of the table, paired with whether its configuration takes arguments.
pub open spec fn cfg_flags(names: Seq<(Seq<char>, usize)>, cs: Seq<OptCfgView>) -> Seq<
    (Seq<char>, bool),
> {
    names.map_values(|p: (Seq<char>, usize)| (p.0, cs[p.1 as int].has_arg))
}

/// What a configured option `name` given with `arg` (if any) does to the stored options, by its
/// configuration `c` with store key `key`.
pub open spec fn configured_collect(
    c: OptCfgView,
    key: Seq<char>,
    name: Seq<char>,
    arg: Option<Seq<char>>,
    opts: Seq<(Seq<char>, Seq<Seq<char>>)>,
) -> Result<Seq<(Seq<char>, Seq<Seq<char>>)>, InvalidOptionView> {
    match arg {
        Some(a) => if !c.has_arg {
            Err(InvalidOptionView::OptionTakesNoArg { option: name, store_key: key })
        } else if stored_args(opts, key).len() > 0 && !c.is_array {
            Err(InvalidOptionView::OptionIsNotArray { option: name, store_key: key })
        } else {
            match validator_outcome(c.validator, key, name, a) {
                Err(e) => Err(e),
                Ok(_) => Ok(put(opts, key, stored_args(opts, key).push(a))),
            }
        },
        None => if c.has_arg {
            Err(InvalidOptionView::OptionNeedsArg { option: name, store_key: key })
        } else if has_key(opts, key) {
            Ok(opts)
        } else {
            Ok(put(opts, key, Seq::empty()))
        },
    }
}

/// What an option `name` with no configuration does: an error, unless unconfigured options are
/// let through (`any`); then it is stored under its own name, its argument appended, or with no
/// arguments at all when it has none.
pub open spec fn unconfigured_collect(
    any: bool,
    name: Seq<char>,
    arg: Option<Seq<char>>,
    opts: Seq<(Seq<char>, Seq<Seq<char>>)>,
) -> Result<Seq<(Seq<char>, Seq<Seq<char>>)>, InvalidOptionView> {
    if !any {
        Err(InvalidOptionView::UnconfiguredOption { option: name })
    } else {
        match arg {
            Some(a) => Ok(put(opts, name, stored_args(opts, name).push(a))),
            None => Ok(put(opts, name, Seq::empty())),
        }
    }
}

/// What the option `name` with `arg` does to the stored options, by the configurations `cs`
/// and their table `t`.
pub open spec fn collect_opt(
    cs: Seq<OptCfgView>,
    t: CfgTable,
    name: Seq<char>,
    arg: Option<Seq<char>>,
    opts: Seq<(Seq<char>, Seq<Seq<char>>)>,
) -> Result<Seq<(Seq<char>, Seq<Seq<char>>)>, InvalidOptionView> {
    match value_of(t.names, name) {
        Some(i) => configured_collect(cs[i as int], cfg_key(cs[i as int]), name, arg, opts),
        None => unconfigured_collect(t.any, name, arg, opts),
    }
}

/// What one token does with configurations: a command argument is appended, an option is
/// collected as [collect_opt] says (its error, if any, is kept when it is the first one), and an
/// invalid option is kept as the error when it is the first one.
pub open spec fn with_step(cs: Seq<OptCfgView>, t: CfgTable, s: ParseState, tok: ArgToken) -> ParseState {
    match tok {
        ArgToken::Operand(a) => ParseState { args: s.args.push(a), ..s },
        ArgToken::Opt(n, v) => match collect_opt(cs, t, n, v, s.opts) {
            Ok(o) => ParseState { opts: o, ..s },
            Err(e) => ParseState { err: keep_first(s.err, e), ..s },
        },
        ArgToken::BadOpt(o) => ParseState {
            err: keep_first(s.err, InvalidOptionView::OptionContainsInvalidChar { option: o }),
            ..s
        },
    }
}

/// What the tokens `ts` do, one after the other, from `s`.
pub open spec fn with_fold(cs: Seq<OptCfgView>, t: CfgTable, s: ParseState, ts: Seq<ArgToken>) -> ParseState
    decreases ts.len(),
{
    if ts.len() == 0 {
        s
    } else {
        with_step(cs, t, with_fold(cs, t, s, ts.drop_last()), ts.last())
    }
}

/// The default arguments of the configuration `c` put under its store key, unless it has no
/// store key, its store key is `*`, something is stored under it already, or it has no default
/// arguments.
pub open spec fn default_step(
    opts: Seq<(Seq<char>, Seq<Seq<char>>)>,
    c: OptCfgView,
) -> Seq<(Seq<char>, Seq<Seq<char>>)> {
    let key = cfg_key(c);
    if key.len() == 0 || key == any_opt_key() || has_key(opts, key) {
        opts
    } else {
        match c.defaults {
            Some(d) => put(opts, key, d),
            None => opts,
        }
    }
}

/// The default arguments of the first `n` configurations of `cs`, put in order.
pub open spec fn apply_defaults(
    opts: Seq<(Seq<char>, Seq<Seq<char>>)>,
    cs: Seq<OptCfgView>,
    n: int,
) -> Seq<(Seq<char>, Seq<Seq<char>>)>
    decreases n,
{
    if n <= 0 {
        opts
    } else {
        default_step(apply_defaults(opts, cs, n - 1), cs[n - 1])
    }
}

/// The table of the configurations `cs` for the command `c`, or the first configuration error.
pub open spec fn cfg_table(c: CmdView, cs: Seq<OptCfgView>) -> Result<CfgTable, InvalidOptionView> {
    check_cfgs(cs, cs.len() as int, c.after_end)
}

/// What parsing `c` with the configurations `cs` collects. When a configuration is wrong,
/// nothing is parsed and that is the error. Otherwise every word after the command path is
/// scanned (or, with `until_first_arg`, those before the first command argument), an option
/// takes the next word as its argument when its configuration takes arguments, the tokens are
/// applied as [with_step] says, and then the default arguments are put.
pub open spec fn with_parse(c: CmdView, cs: Seq<OptCfgView>, until_first_arg: bool) -> ParseState {
    match cfg_table(c, cs) {
        Err(e) => ParseState { args: c.args, opts: c.opts, err: Some(e) },
        Ok(t) => {
            let w = c.line.skip(1);
            let m0 = start_mode(c.after_end);
            let tk = takes_of(cfg_flags(t.names, cs));
            let s = with_fold(
                cs,
                t,
                ParseState { args: c.args, opts: c.opts, err: None },
                scan_words(w, scan_end(w, m0, tk, until_first_arg), m0, tk).0,
            );
            ParseState { opts: apply_defaults(s.opts, cs, cs.len() as int), ..s }
        },
    }
}

/// The configurations, checked and indexed for parsing.
pub(crate) struct CfgIndex {
    pub(crate) keys: Vec<String>,
    pub(crate) names: Vec<(String, usize)>,
    pub(crate) any: bool,
}

/// The character sequences of the names of a table, with their indices.
pub open spec fn index_names_view(v: Seq<(String, usize)>) -> Seq<(Seq<char>, usize)> {
    v.map_values(|p: (String, usize)| (p.0@, p.1))
}

impl View for CfgIndex {
    type V = CfgTable;

    closed spec fn view(&self) -> CfgTable {
        CfgTable {
            keys: strings_view(self.keys@),
            names: index_names_view(self.names@),
            any: self.any,
        }
    }
}

/// The non-empty names of `names`, in order.
pub(crate) fn nonempty_names_of(names: &Vec<String>) -> (r: Vec<String>)
    ensures
        strings_view(r@) == nonempty_names(strings_view(names@)),
{
    let ghost nv = strings_view(names@);
    let mut r: Vec<String> = Vec::new();
    let mut i: usize = 0;
    proof {
        assert(nv.take(0) =~= Seq::<Seq<char>>::empty());
        assert(strings_view(r@) =~= Seq::<Seq<char>>::empty());
    }
    while i < names.len()
        invariant
            i <= names@.len(),
            nv == strings_view(names@),
            strings_view(r@) == nonempty_names(nv.take(i as int)),
        decreases names@.len() - i,
    {
        proof {
            assert(nv.take(i + 1).drop_last() =~= nv.take(i as int));
            assert(nv.take(i + 1).last() == names@[i as int]@);
        }
        if !names[i].as_str().is_empty() {
            let ghost before = r@;
            r.push(names[i].clone());
            proof {
                assert(strings_view(r@) =~= strings_view(before).push(names@[i as int]@));
            }
        }
        i = i + 1;
    }
    proof {
        assert(nv.take(names@.len() as int) =~= nv);
    }
    r
}

/// The store key of the configuration `cfg`.
pub(crate) fn cfg_store_key(cfg: &OptCfg) -> (r: String)
    ensures
        r@ == cfg_key(cfg@),
{
    let ns = nonempty_names_of(&cfg.names);
    if cfg.store_key.as_str().is_empty() && ns.len() > 0 {
        proof {
            assert(ns@[0]@ == strings_view(ns@)[0]);
        }
        ns[0].clone()
    } else {
        cfg.store_key.clone()
    }
}

/// Whether `keys` holds a string with the characters of `key`.
fn contains_text(keys: &Vec<String>, key: &String) -> (r: bool)
    ensures
        r == strings_view(keys@).contains(key@),
{
    let mut i: usize = 0;
    while i < keys.len()
        invariant
            i <= keys@.len(),
            forall|j: int| 0 <= j < i ==> keys@[j]@ != key@,
        decreases keys@.len() - i,
    {
        if keys[i] == *key {
            proof {
                assert(strings_view(keys@)[i as int] == key@);
            }
            return true;
        }
        i = i + 1;
    }
    proof {
        assert forall|j: int| 0 <= j < keys@.len() implies strings_view(keys@)[j] != key@ by {
            assert(strings_view(keys@)[j] == keys@[j]@);
        }
    }
    false
}

/// Puts the configuration index `i` under the name `key`: in place when the name is there,
/// appended otherwise.
fn put_index(names: &mut Vec<(String, usize)>, key: String, i: usize)
    requires
        keys_distinct(index_names_view(old(names)@)),
    ensures
        keys_distinct(index_names_view(final(names)@)),
        index_names_view(final(names)@) == put(index_names_view(old(names)@), key@, i),
{
    let ghost before = index_names_view(names@);
    proof {
        lemma_put(before, key@, i);
    }
    match find_key(names, &key) {
        Some(j) => {
            proof {
                assert(key_at(before, key@, j as int));
                lemma_index_of_key(before, key@, j as int);
            }
            names.remove(j);
            names.insert(j, (key, i));
            proof {
                assert(index_names_view(names@) =~= put(before, key@, i));
            }
        },
        None => {
            proof {
                assert forall|q: int| !key_at(before, key@, q) by {
                    if 0 <= q < before.len() {
                        assert(before[q].0 == old(names)@[q].0@);
                    }
                }
            }
            names.push((key, i));
            proof {
                assert(index_names_view(names@) =~= put(before, key@, i));
            }
        },
    }
}

/// Adds the names `ns` of the configuration at `i`, whose store key is `key`, to the table; a
/// name that is there already is an error, and the names added before it stay.
fn add_cfg_names(names: &mut Vec<(String, usize)>, ns: &Vec<String>, i: usize, key: &String) -> (r:
    Option<InvalidOption>)
    requires
        keys_distinct(index_names_view(old(names)@)),
        forall|k: int|
            0 <= k < old(names)@.len() ==> (#[trigger] index_names_view(old(names)@)[k]).1 <= i,
    ensures
        keys_distinct(index_names_view(final(names)@)),
        forall|k: int|
            0 <= k < final(names)@.len() ==> (#[trigger] index_names_view(final(names)@)[k]).1
                <= i,
        match add_names(index_names_view(old(names)@), strings_view(ns@), i, key@) {
            Ok(m) => r is None && index_names_view(final(names)@) == m,
            Err(e) => r matches Some(x) && x@ == e,
        },
{
    let ghost m0 = index_names_view(names@);
    let ghost nv = strings_view(ns@);
    let mut j: usize = 0;
    proof {
        assert(nv.take(0) =~= Seq::<Seq<char>>::empty());
    }
    while j < ns.len()
        invariant
            j <= ns@.len(),
            nv == strings_view(ns@),
            m0 == index_names_view(old(names)@),
            keys_distinct(index_names_view(names@)),
            forall|k: int| 0 <= k < names@.len() ==> (#[trigger] index_names_view(names@)[k]).1 <= i,
            add_names(m0, nv.take(j as int), i, key@) == Ok::<
                Seq<(Seq<char>, usize)>,
                InvalidOptionView,
            >(index_names_view(names@)),
        decreases ns@.len() - j,
    {
        let ghost cur = index_names_view(names@);
        proof {
            assert(nv.take(j + 1).drop_last() =~= nv.take(j as int));
            assert(nv.take(j + 1).last() == ns@[j as int]@);
        }
        match find_key(names, &ns[j]) {
            Some(q) => {
                proof {
                    assert(key_at(cur, ns@[j as int]@, q as int));
                }
                let e = InvalidOption::OptionNameIsDuplicated {
                    store_key: key.clone(),
                    name: ns[j].clone(),
                };
                proof {
                    assert(has_key(cur, ns@[j as int]@));
                    assert(add_names(m0, nv.take(j + 1), i, key@) == Err::<
                        Seq<(Seq<char>, usize)>,
                        InvalidOptionView,
                    >(e@));
                    lemma_add_names_err_stays(m0, nv, i, key@, (j + 1) as int);
                }
                return Some(e);
            },
            None => {
                proof {
                    assert forall|q: int| !key_at(cur, ns@[j as int]@, q) by {
                        if 0 <= q < cur.len() {
                            assert(cur[q].0 == names@[q].0@);
                        }
                    }
                }
                names.push((ns[j].clone(), i));
                proof {
                    assert(index_names_view(names@) =~= cur.push((ns@[j as int]@, i)));
                    assert forall|a: int, b: int|
                        0 <= a < b < index_names_view(names@).len() implies index_names_view(
                        names@,
                    )[a].0 != index_names_view(names@)[b].0 by {
                        if b == cur.len() {
                            assert(!key_at(cur, ns@[j as int]@, a));
                        } else {
                            assert(cur[a].0 != cur[b].0);
                        }
                    }
                }
            },
        }
        j = j + 1;
    }
    proof {
        assert(nv.take(ns@.len() as int) =~= nv);
    }
    None
}

/// Once adding the first `n` names fails, adding all of them fails with the same error.
proof fn lemma_add_names_err_stays(
    m: Seq<(Seq<char>, usize)>,
    ns: Seq<Seq<char>>,
    i: usize,
    key: Seq<char>,
    n: int,
)
    requires
        0 <= n <= ns.len(),
        add_names(m, ns.take(n), i, key) is Err,
    ensures
        add_names(m, ns, i, key) == add_names(m, ns.take(n), i, key),
    decreases ns.len() - n,
{
    if n < ns.len() {
        assert(ns.take(n + 1).drop_last() =~= ns.take(n));
        lemma_add_names_err_stays(m, ns, i, key, n + 1);
    } else {
        assert(ns.take(n) =~= ns);
    }
}

/// Once checking the first `n` configurations fails, checking the first `m` (from `n` on) fails
/// with the same error.
proof fn lemma_check_err_stays(cs: Seq<OptCfgView>, n: int, m: int, after_end: bool)
    requires
        0 <= n <= m,
        check_cfgs(cs, n, after_end) is Err,
    ensures
        check_cfgs(cs, m, after_end) == check_cfgs(cs, n, after_end),
    decreases m - n,
{
    if n < m {
        lemma_check_err_stays(cs, n + 1, m, after_end);
    }
}

/// Checks the configurations in order and builds their table, or returns the first error.
pub(crate) fn check_configs(cfgs: &Vec<OptCfg>, after_end: bool) -> (r: Result<
    CfgIndex,
    InvalidOption,
>)
    ensures
        match r {
            Ok(x) => check_cfgs(cfgs_view(cfgs@), cfgs@.len() as int, after_end) == Ok::<
                CfgTable,
                InvalidOptionView,
            >(x@) && table_wf(x@, cfgs@.len() as int),
            Err(e) => check_cfgs(cfgs_view(cfgs@), cfgs@.len() as int, after_end) == Err::<
                CfgTable,
                InvalidOptionView,
            >(e@),
        },
{
    let ghost cs = cfgs_view(cfgs@);
    let mut idx = CfgIndex { keys: Vec::new(), names: Vec::new(), any: after_end };
    let star = owned("*");
    proof {
        reveal_strlit("*");
        assert(star@ =~= any_opt_key());
        assert(idx@.keys =~= Seq::<Seq<char>>::empty());
        assert(idx@.names =~= Seq::<(Seq<char>, usize)>::empty());
    }
    let mut i: usize = 0;
    while i < cfgs.len()
        invariant
            i <= cfgs@.len(),
            cs == cfgs_view(cfgs@),
            star@ == any_opt_key(),
            check_cfgs(cs, i as int, after_end) == Ok::<CfgTable, InvalidOptionView>(idx@),
            table_wf(idx@, i as int),
        decreases cfgs@.len() - i,
    {
        let cfg = &cfgs[i];
        let ghost c = cs[i as int];
        assert(cfg@ == c);
        let ghost t = idx@;
        let ns = nonempty_names_of(&cfg.names);
        let key = cfg_store_key(cfg);
        if key.as_str().is_empty() {
            i = i + 1;
            continue;
        }
        if key == star {
            idx.any = true;
            proof {
                assert(idx@ == CfgTable { any: true, ..t });
            }
            i = i + 1;
            continue;
        }
        let first = if ns.len() > 0 {
            ns[0].clone()
        } else {
            key.clone()
        };
        proof {
            if ns@.len() > 0 {
                assert(ns@[0]@ == strings_view(ns@)[0]);
            }
            assert(first@ == cfg_first_name(c));
        }
        proof {
            if check_cfg(t, c, i) is Err {
                lemma_check_err_stays(cs, i + 1, cs.len() as int, after_end);
            }
        }
        if contains_text(&idx.keys, &key) {
            return Err(InvalidOption::StoreKeyIsDuplicated { store_key: key, name: first });
        }
        if !cfg.has_arg {
            if cfg.is_array {
                return Err(InvalidOption::ConfigIsArrayButHasNoArg { store_key: key, name: first });
            }
            match &cfg.defaults {
                Some(d) => {
                    if d.len() > 0 {
                        return Err(
                            InvalidOption::ConfigHasDefaultsButHasNoArg { store_key: key, name: first },
                        );
                    }
                },
                None => {},
            }
        }
        if ns.len() == 0 {
            put_index(&mut idx.names, key.clone(), i);
            proof {
                lemma_put(t.names, key@, i);
                assert forall|k: int| 0 <= k < idx@.names.len() implies (#[trigger] idx@.names[k]).1
                    < i + 1 by {
                    if key_at(t.names, key@, k) || k == t.names.len() {
                    } else {
                        assert(idx@.names[k] == t.names[k]);
                    }
                }
            }
        } else {
            let dup = add_cfg_names(&mut idx.names, &ns, i, &key);
            match dup {
                Some(e) => {
                    proof {
                        lemma_check_err_stays(cs, i + 1, cs.len() as int, after_end);
                    }
                    return Err(e);
                },
                None => {},
            }
        }
        let ghost names_after = idx@.names;
        idx.keys.push(key);
        proof {
            assert(idx@.keys =~= t.keys.push(key@));
            assert(idx@ == CfgTable { keys: t.keys.push(key@), names: names_after, any: t.any });
        }
        i = i + 1;
    }
    Ok(idx)
}

/// The option names of the table, each paired with whether its configuration takes arguments.
pub(crate) fn table_flags(idx: &CfgIndex, cfgs: &Vec<OptCfg>) -> (r: Vec<(String, bool)>)
    requires
        table_wf(idx@, cfgs@.len() as int),
    ensures
        flags_view(r@) == cfg_flags(idx@.names, cfgs_view(cfgs@)),
{
    let ghost want = cfg_flags(idx@.names, cfgs_view(cfgs@));
    let mut r: Vec<(String, bool)> = Vec::new();
    let mut k: usize = 0;
    while k < idx.names.len()
        invariant
            k <= idx.names@.len(),
            table_wf(idx@, cfgs@.len() as int),
            want == cfg_flags(idx@.names, cfgs_view(cfgs@)),
            r@.len() == k,
            forall|q: int| 0 <= q < k ==> (#[trigger] flags_view(r@)[q]) == want[q],
        decreases idx.names@.len() - k,
    {
        let i = idx.names[k].1;
        proof {
            assert(idx@.names[k as int] == (idx.names@[k as int].0@, i));
        }
        let ghost before = r@;
        r.push((idx.names[k].0.clone(), cfgs[i].has_arg));
        proof {
            assert forall|q: int| 0 <= q < k + 1 implies (#[trigger] flags_view(r@)[q]) == want[q] by {
                if q < k {
                    assert(r@[q] == before[q]);
                    assert(flags_view(r@)[q] == flags_view(before)[q]);
                } else {
                    assert(cfgs_view(cfgs@)[i as int] == cfgs@[i as int]@);
                    assert(flags_view(r@)[q] == (r@[q].0@, r@[q].1));
                    assert(want[q] == (idx@.names[q].0, cfgs_view(cfgs@)[idx@.names[q].1 as int].has_arg));
                }
            }
        }
        k = k + 1;
    }
    proof {
        assert(flags_view(r@) =~= want);
    }
    r
}

/// The number of arguments stored under `key` (0 when nothing is).
fn stored_count(opts: &Vec<(String, Vec<String>)>, key: &String) -> (n: usize)
    requires
        keys_distinct(opts_view(opts@)),
    ensures
        n == stored_args(opts_view(opts@), key@).len(),
{
    let ghost ov = opts_view(opts@);
    match find_key(opts, key) {
        Some(i) => {
            proof {
                assert(key_at(ov, key@, i as int));
                lemma_index_of_key(ov, key@, i as int);
            }
            opts[i].1.len()
        },
        None => {
            proof {
                assert forall|q: int| !key_at(ov, key@, q) by {
                    if 0 <= q < ov.len() {
                        assert(ov[q].0 == opts@[q].0@);
                    }
                }
            }
            0
        },
    }
}

/// Collects the configured option `name` with `arg` (if any) as [configured_collect] says, by
/// its configuration `cfg` with store key `key`; on an error nothing is stored.
fn collect_configured(
    cfg: &OptCfg,
    key: &String,
    name: &String,
    arg: Option<String>,
    opts: &mut Vec<(String, Vec<String>)>,
) -> (r: Result<(), InvalidOption>)
    requires
        keys_distinct(opts_view(old(opts)@)),
    ensures
        keys_distinct(opts_view(final(opts)@)),
        match configured_collect(cfg@, key@, name@, opt_string_view(arg), opts_view(old(opts)@)) {
            Ok(o) => r is Ok && opts_view(final(opts)@) == o,
            Err(e) => r matches Err(x) && x@ == e && final(opts)@ == old(opts)@,
        },
{
    match arg {
        Some(a) => {
            if !cfg.has_arg {
                return Err(
                    InvalidOption::OptionTakesNoArg { option: name.clone(), store_key: key.clone() },
                );
            }
            let n = stored_count(opts, key);
            if n > 0 && !cfg.is_array {
                return Err(
                    InvalidOption::OptionIsNotArray { option: name.clone(), store_key: key.clone() },
                );
            }
            match cfg.validator.validate(key.as_str(), name.as_str(), a.as_str()) {
                Err(e) => {
                    return Err(e);
                },
                Ok(()) => {},
            }
            add_opt_arg(opts, key.clone(), Some(a));
            Ok(())
        },
        None => {
            if cfg.has_arg {
                return Err(
                    InvalidOption::OptionNeedsArg { option: name.clone(), store_key: key.clone() },
                );
            }
            match find_key(opts, key) {
                Some(i) => {
                    proof {
                        assert(key_at(opts_view(opts@), key@, i as int));
                    }
                    Ok(())
                },
                None => {
                    proof {
                        assert forall|q: int| !key_at(opts_view(opts@), key@, q) by {
                            if 0 <= q < opts@.len() {
                                assert(opts_view(opts@)[q].0 == opts@[q].0@);
                            }
                        }
                    }
                    let empty: Vec<String> = Vec::new();
                    proof {
                        assert(strings_view(empty@) =~= Seq::<Seq<char>>::empty());
                    }
                    set_opt_args(opts, key.clone(), empty);
                    Ok(())
                },
            }
        },
    }
}

/// Collects the option `name` with `arg` (if any) as [collect_opt] says; on an error nothing is
/// stored.
fn collect_option(
    cfgs: &Vec<OptCfg>,
    idx: &CfgIndex,
    name: &String,
    arg: Option<String>,
    opts: &mut Vec<(String, Vec<String>)>,
) -> (r: Result<(), InvalidOption>)
    requires
        keys_distinct(opts_view(old(opts)@)),
        table_wf(idx@, cfgs@.len() as int),
    ensures
        keys_distinct(opts_view(final(opts)@)),
        match collect_opt(cfgs_view(cfgs@), idx@, name@, opt_string_view(arg), opts_view(old(opts)@)) {
            Ok(o) => r is Ok && opts_view(final(opts)@) == o,
            Err(e) => r matches Err(x) && x@ == e && final(opts)@ == old(opts)@,
        },
{
    let ghost t = idx@;
    match find_key(&idx.names, name) {
        Some(j) => {
            let i = idx.names[j].1;
            proof {
                assert(t.names[j as int] == (idx.names@[j as int].0@, i));
                assert(key_at(t.names, name@, j as int));
                lemma_index_of_key(t.names, name@, j as int);
                assert(cfgs@[i as int]@ == cfgs_view(cfgs@)[i as int]);
            }
            let cfg = &cfgs[i];
            let key = cfg_store_key(cfg);
            collect_configured(cfg, &key, name, arg, opts)
        },
        None => {
            proof {
                assert forall|q: int| !key_at(t.names, name@, q) by {
                    if 0 <= q < t.names.len() {
                        assert(t.names[q].0 == idx.names@[q].0@);
                    }
                }
            }
            if !idx.any {
                return Err(InvalidOption::UnconfiguredOption { option: name.clone() });
            }
            match arg {
                Some(a) => {
                    add_opt_arg(opts, name.clone(), Some(a));
                },
                None => {
                    let empty: Vec<String> = Vec::new();
                    proof {
                        assert(strings_view(empty@) =~= Seq::<Seq<char>>::empty());
                    }
                    set_opt_args(opts, name.clone(), empty);
                },
            }
            Ok(())
        },
    }
}

/// Applies the tokens to the command arguments and options as [with_step] says, and returns
/// the first error.
pub(crate) fn collect_with(
    tokens: &Vec<Token>,
    cfgs: &Vec<OptCfg>,
    idx: &CfgIndex,
    args: &mut Vec<String>,
    opts: &mut Vec<(String, Vec<String>)>,
) -> (err: Option<InvalidOption>)
    requires
        keys_distinct(opts_view(old(opts)@)),
        table_wf(idx@, cfgs@.len() as int),
    ensures
        keys_distinct(opts_view(final(opts)@)),
        ({
            let s = with_fold(
                cfgs_view(cfgs@),
                idx@,
                ParseState {
                    args: strings_view(old(args)@),
                    opts: opts_view(old(opts)@),
                    err: None,
                },
                tokens_view(tokens@),
            );
            &&& strings_view(final(args)@) == s.args
            &&& opts_view(final(opts)@) == s.opts
            &&& opt_error_view(err) == s.err
        }),
{
    let ghost cs = cfgs_view(cfgs@);
    let ghost s0 = ParseState { args: strings_view(args@), opts: opts_view(opts@), err: None };
    let mut err: Option<InvalidOption> = None;
    let mut i: usize = 0;
    while i < tokens.len()
        invariant
            i <= tokens@.len(),
            cs == cfgs_view(cfgs@),
            keys_distinct(opts_view(opts@)),
            table_wf(idx@, cfgs@.len() as int),
            ({
                let s = with_fold(cs, idx@, s0, tokens_view(tokens@).take(i as int));
                &&& strings_view(args@) == s.args
                &&& opts_view(opts@) == s.opts
                &&& opt_error_view(err) == s.err
            }),
        decreases tokens@.len() - i,
    {
        proof {
            assert(tokens_view(tokens@).take(i + 1).drop_last() =~= tokens_view(tokens@).take(
                i as int,
            ));
            assert(tokens_view(tokens@).take(i + 1).last() == tokens@[i as int]@);
        }
        match &tokens[i] {
            Token::Operand(a) => {
                let ghost before = args@;
                args.push(a.clone());
                proof {
                    assert(strings_view(args@) =~= strings_view(before).push(a@));
                }
            },
            Token::Opt(n, v) => {
                let value = match v {
                    Some(x) => Some(x.clone()),
                    None => None,
                };
                match collect_option(cfgs, idx, n, value, opts) {
                    Ok(()) => {},
                    Err(e) => {
                        if err.is_none() {
                            err = Some(e);
                        }
                    },
                }
            },
            Token::BadOpt(o) => {
                if err.is_none() {
                    err = Some(InvalidOption::OptionContainsInvalidChar { option: o.clone() });
                }
            },
        }
        i = i + 1;
    }
    proof {
        assert(tokens_view(tokens@).take(tokens@.len() as int) =~= tokens_view(tokens@));
    }
    err
}

/// Puts the default arguments of the configurations as [apply_defaults] says.
pub(crate) fn put_defaults(cfgs: &Vec<OptCfg>, opts: &mut Vec<(String, Vec<String>)>)
    requires
        keys_distinct(opts_view(old(opts)@)),
    ensures
        keys_distinct(opts_view(final(opts)@)),
        opts_view(final(opts)@) == apply_defaults(
            opts_view(old(opts)@),
            cfgs_view(cfgs@),
            cfgs@.len() as int,
        ),
{
    let ghost cs = cfgs_view(cfgs@);
    let ghost o0 = opts_view(opts@);
    let star = owned("*");
    proof {
        reveal_strlit("*");
        assert(star@ =~= any_opt_key());
    }
    let mut i: usize = 0;
    while i < cfgs.len()
        invariant
            i <= cfgs@.len(),
            cs == cfgs_view(cfgs@),
            star@ == any_opt_key(),
            keys_distinct(opts_view(opts@)),
            opts_view(opts@) == apply_defaults(o0, cs, i as int),
        decreases cfgs@.len() - i,
    {
        let cfg = &cfgs[i];
        assert(cfg@ == cs[i as int]);
        let key = cfg_store_key(cfg);
        if !key.as_str().is_empty() && key != star {
            match find_key(opts, &key) {
                Some(j) => {
                    proof {
                        assert(key_at(opts_view(opts@), key@, j as int));
                    }
                },
                None => {
                    proof {
                        assert forall|q: int| !key_at(opts_view(opts@), key@, q) by {
                            if 0 <= q < opts@.len() {
                                assert(opts_view(opts@)[q].0 == opts@[q].0@);
                            }
                        }
                    }
                    match &cfg.defaults {
                        Some(d) => {
                            let vals = clone_strings(d);
                            set_opt_args(opts, key, vals);
                        },
                        None => {},
                    }
                },
            }
        }
        i = i + 1;
    }
}

/// Applying two runs of tokens one after the other is applying them joined.
pub proof fn lemma_with_fold_append(
    cs: Seq<OptCfgView>,
    t: CfgTable,
    s: ParseState,
    a: Seq<ArgToken>,
    b: Seq<ArgToken>,
)
    ensures
        with_fold(cs, t, s, a + b) == with_fold(cs, t, with_fold(cs, t, s, a), b),
    decreases b.len(),
{
    if b.len() == 0 {
        assert(a + b =~= a);
    } else {
        lemma_with_fold_append(cs, t, s, a, b.drop_last());
        assert((a + b).drop_last() =~= a + b.drop_last());
        assert((a + b).last() == b.last());
    }
}

/// Command argument tokens append their words to the command arguments, and change nothing
/// else.
pub proof fn lemma_with_fold_operands(cs: Seq<OptCfgView>, t: CfgTable, s: ParseState, ws: Seq<Seq<char>>)
    ensures
        with_fold(cs, t, s, operands(ws)) == (ParseState { args: s.args + ws, ..s }),
    decreases ws.len(),
{
    if ws.len() == 0 {
        assert(operands(ws) =~= Seq::<ArgToken>::empty());
        assert(s.args + ws =~= s.args);
    } else {
        lemma_with_fold_operands(cs, t, s, ws.drop_last());
        assert(operands(ws).drop_last() =~= operands(ws.drop_last()));
        assert(s.args + ws =~= (s.args + ws.drop_last()).push(ws.last()));
    }
}

/// Parsing with configurations makes every word after an end-of-options mark a command
/// argument: the options and the error collected before the mark stay as they are (before the
/// default arguments are put), and the words after it are appended to the command arguments, in
/// order.
pub proof fn law_parse_with_after_end_mark(c: CmdView, cs: Seq<OptCfgView>, i: int)
    requires
        1 <= i < c.line.len(),
        c.line[i] == seq!['-', '-'],
        cfg_table(c, cs) matches Ok(t) && mode_before(
            c.line.skip(1),
            i - 1,
            start_mode(c.after_end),
            takes_of(cfg_flags(t.names, cs)),
        ) is Options,
    ensures
        cfg_table(c, cs) matches Ok(t) && ({
            let before = with_fold(
                cs,
                t,
                ParseState { args: c.args, opts: c.opts, err: None },
                scan_words(
                    c.line.skip(1),
                    i - 1,
                    start_mode(c.after_end),
                    takes_of(cfg_flags(t.names, cs)),
                ).0,
            );
            with_parse(c, cs, false) == ParseState {
                args: before.args + c.line.skip(i + 1),
                opts: apply_defaults(before.opts, cs, cs.len() as int),
                err: before.err,
            }
        }),
{
    let t = cfg_table(c, cs)->Ok_0;
    let w = c.line.skip(1);
    let m0 = start_mode(c.after_end);
    let tk = takes_of(cfg_flags(t.names, cs));
    let s0 = ParseState { args: c.args, opts: c.opts, err: None };
    assert(w[i - 1] == c.line[i]);
    law_words_after_end_mark(w, i - 1, m0, tk);
    assert(w.skip(i) =~= c.line.skip(i + 1));
    lemma_with_fold_append(cs, t, s0, scan_words(w, i - 1, m0, tk).0, operands(w.skip(i)));
    lemma_with_fold_operands(cs, t, with_fold(cs, t, s0, scan_words(w, i - 1, m0, tk).0), w.skip(i));
}

/// When no word is a command argument, parsing with configurations until the first command
/// argument collects what parsing all the words collects.
pub proof fn law_with_until_first_arg_without_args(c: CmdView, cs: Seq<OptCfgView>)
    requires
        cfg_table(c, cs) matches Ok(t) && first_operand(
            c.line.skip(1),
            start_mode(c.after_end),
            takes_of(cfg_flags(t.names, cs)),
        ) is None,
    ensures
        with_parse(c, cs, true) == with_parse(c, cs, false),
{
}

/// Once there is an error, applying more tokens keeps it.
pub proof fn lemma_with_fold_keeps_error(cs: Seq<OptCfgView>, t: CfgTable, s: ParseState, ts: Seq<ArgToken>)
    requires
        s.err is Some,
    ensures
        with_fold(cs, t, s, ts).err == s.err,
    decreases ts.len(),
{
    if ts.len() > 0 {
        lemma_with_fold_keeps_error(cs, t, s, ts.drop_last());
    }
}

/// Unless a configuration lets every option through, an option that no configuration names
/// makes parsing fail, wherever it stands among the tokens.
pub proof fn law_unconfigured_option_is_error(
    cs: Seq<OptCfgView>,
    t: CfgTable,
    s: ParseState,
    ts: Seq<ArgToken>,
    k: int,
)
    requires
        !t.any,
        0 <= k < ts.len(),
        ts[k] matches ArgToken::Opt(n, _) && !has_key(t.names, n),
    ensures
        with_fold(cs, t, s, ts).err is Some,
{
    let a = ts.take(k + 1);
    let b = ts.skip(k + 1);
    assert(a + b =~= ts);
    lemma_with_fold_append(cs, t, s, a, b);
    assert(a.drop_last() =~= ts.take(k));
    assert(a.last() == ts[k]);
    assert(with_fold(cs, t, s, a).err is Some);
    lemma_with_fold_keeps_error(cs, t, with_fold(cs, t, s, a), b);
}

/// Default arguments never replace what is stored: an option key that is there keeps its
/// arguments, and keys stay distinct.
pub proof fn law_defaults_keep_given(
    opts: Seq<(Seq<char>, Seq<Seq<char>>)>,
    cs: Seq<OptCfgView>,
    n: int,
    k: Seq<char>,
)
    requires
        keys_distinct(opts),
        has_key(opts, k),
    ensures
        keys_distinct(apply_defaults(opts, cs, n)),
        has_key(apply_defaults(opts, cs, n), k),
        value_of(apply_defaults(opts, cs, n), k) == value_of(opts, k),
    decreases n,
{
    if n > 0 {
        law_defaults_keep_given(opts, cs, n - 1, k);
        let p = apply_defaults(opts, cs, n - 1);
        let c = cs[n - 1];
        let key = cfg_key(c);
        if !(key.len() == 0 || key == any_opt_key() || has_key(p, key)) {
            match c.defaults {
                Some(d) => {
                    lemma_put(p, key, d);
                },
                None => {},
            }
        }
    }
}

/// Putting the default arguments of the first `n` configurations leaves a key absent when none
/// of them has it as its store key.
proof fn lemma_defaults_leave_absent(
    opts: Seq<(Seq<char>, Seq<Seq<char>>)>,
    cs: Seq<OptCfgView>,
    n: int,
    k: Seq<char>,
)
    requires
        keys_distinct(opts),
        !has_key(opts, k),
        n <= cs.len(),
        forall|i: int| 0 <= i < n ==> cfg_key(#[trigger] cs[i]) != k,
    ensures
        keys_distinct(apply_defaults(opts, cs, n)),
        !has_key(apply_defaults(opts, cs, n), k),
    decreases n,
{
    if n > 0 {
        lemma_defaults_leave_absent(opts, cs, n - 1, k);
        let p = apply_defaults(opts, cs, n - 1);
        let c = cs[n - 1];
        let key = cfg_key(c);
        if !(key.len() == 0 || key == any_opt_key() || has_key(p, key)) {
            match c.defaults {
                Some(d) => {
                    lemma_put(p, key, d);
                },
                None => {},
            }
        }
    }
}

/// An option that was not given gets the default arguments of its configuration, when that has
/// some and no other configuration has the same store key.
pub proof fn law_defaults_fill_missing(
    opts: Seq<(Seq<char>, Seq<Seq<char>>)>,
    cs: Seq<OptCfgView>,
    j: int,
)
    requires
        keys_distinct(opts),
        0 <= j < cs.len(),
        cfg_key(cs[j]).len() > 0,
        cfg_key(cs[j]) != any_opt_key(),
        cs[j].defaults is Some,
        !has_key(opts, cfg_key(cs[j])),
        forall|i: int| 0 <= i < cs.len() && i != j ==> cfg_key(#[trigger] cs[i]) != cfg_key(cs[j]),
    ensures
        value_of(apply_defaults(opts, cs, cs.len() as int), cfg_key(cs[j])) == Some(
            cs[j].defaults->Some_0,
        ),
{
    let k = cfg_key(cs[j]);
    lemma_defaults_leave_absent(opts, cs, j, k);
    let p = apply_defaults(opts, cs, j);
    lemma_put(p, k, cs[j].defaults->Some_0);
    lemma_defaults_keep_from(opts, cs, j + 1, cs.len() as int, k);
}

/// Once a key is there after the default arguments of the first `m` configurations, it keeps
/// its arguments through those of the first `n`.
proof fn lemma_defaults_keep_from(
    opts: Seq<(Seq<char>, Seq<Seq<char>>)>,
    cs: Seq<OptCfgView>,
    m: int,
    n: int,
    k: Seq<char>,
)
    requires
        0 <= m <= n,
        keys_distinct(apply_defaults(opts, cs, m)),
        has_key(apply_defaults(opts, cs, m), k),
    ensures
        keys_distinct(apply_defaults(opts, cs, n)),
        has_key(apply_defaults(opts, cs, n), k),
        value_of(apply_defaults(opts, cs, n), k) == value_of(apply_defaults(opts, cs, m), k),
    decreases n - m,
{
    if m < n {
        lemma_defaults_keep_from(opts, cs, m, n - 1, k);
        let p = apply_defaults(opts, cs, n - 1);
        let c = cs[n - 1];
        let key = cfg_key(c);
        if !(key.len() == 0 || key == any_opt_key() || has_key(p, key)) {
            match c.defaults {
                Some(d) => {
                    lemma_put(p, key, d);
                },
                None => {},
            }
        }
    }
}

/// The arguments that the tokens `ts` give to options whose configuration stores them under the
/// key `k`, in order.
pub open spec fn key_values(cs: Seq<OptCfgView>, t: CfgTable, ts: Seq<ArgToken>, k: Seq<char>) -> Seq<Seq<char>>
    decreases ts.len(),
{
    if ts.len() == 0 {
        Seq::empty()
    } else {
        let p = key_values(cs, t, ts.drop_last(), k);
        match ts.last() {
            ArgToken::Opt(m, Some(v)) => match value_of(t.names, m) {
                Some(i) => if cfg_key(cs[i as int]) == k {
                    p.push(v)
                } else {
                    p
                },
                None => p,
            },
            _ => p,
        }
    }
}

/// Applying tokens with configurations keeps every option key once, and a key that is there
/// stays there.
pub proof fn lemma_with_fold_keys(cs: Seq<OptCfgView>, t: CfgTable, s: ParseState, ts: Seq<ArgToken>, k: Seq<char>)
    requires
        keys_distinct(s.opts),
    ensures
        keys_distinct(with_fold(cs, t, s, ts).opts),
        has_key(s.opts, k) ==> has_key(with_fold(cs, t, s, ts).opts, k),
    decreases ts.len(),
{
    if ts.len() > 0 {
        lemma_with_fold_keys(cs, t, s, ts.drop_last(), k);
        let p = with_fold(cs, t, s, ts.drop_last());
        match ts.last() {
            ArgToken::Opt(m, v) => {
                match value_of(t.names, m) {
                    Some(i) => {
                        let c = cs[i as int];
                        let key = cfg_key(c);
                        match v {
                            Some(a) => {
                                lemma_put(p.opts, key, stored_args(p.opts, key).push(a));
                            },
                            None => {
                                lemma_put(p.opts, key, Seq::empty());
                            },
                        }
                    },
                    None => {
                        match v {
                            Some(a) => {
                                lemma_put(p.opts, m, stored_args(p.opts, m).push(a));
                            },
                            None => {
                                lemma_put(p.opts, m, Seq::empty());
                            },
                        }
                    },
                }
            },
            _ => {},
        }
    }
}

/// When applying tokens with configurations ends with no error, no step before the last had one.
proof fn lemma_with_fold_no_error_before(cs: Seq<OptCfgView>, t: CfgTable, s: ParseState, ts: Seq<ArgToken>)
    requires
        ts.len() > 0,
        with_fold(cs, t, s, ts).err is None,
    ensures
        with_fold(cs, t, s, ts.drop_last()).err is None,
{
}

/// When parsing with configurations that let no unconfigured option through ends with no
/// error, each store key holds the arguments it held before followed by the arguments given to
/// the options configured under it, in order; a key that held something, or was given
/// something, is there.
pub proof fn law_with_fold_reads_back(
    cs: Seq<OptCfgView>,
    t: CfgTable,
    s: ParseState,
    ts: Seq<ArgToken>,
    k: Seq<char>,
)
    requires
        keys_distinct(s.opts),
        s.err is None,
        !t.any,
        with_fold(cs, t, s, ts).err is None,
    ensures
        stored_args(with_fold(cs, t, s, ts).opts, k) == stored_args(s.opts, k) + key_values(
            cs,
            t,
            ts,
            k,
        ),
        (has_key(s.opts, k) || key_values(cs, t, ts, k).len() > 0) ==> has_key(
            with_fold(cs, t, s, ts).opts,
            k,
        ),
    decreases ts.len(),
{
    if ts.len() == 0 {
        assert(stored_args(s.opts, k) + key_values(cs, t, ts, k) =~= stored_args(s.opts, k));
    } else {
        lemma_with_fold_no_error_before(cs, t, s, ts);
        law_with_fold_reads_back(cs, t, s, ts.drop_last(), k);
        lemma_with_fold_keys(cs, t, s, ts.drop_last(), k);
        let p = with_fold(cs, t, s, ts.drop_last());
        match ts.last() {
            ArgToken::Opt(m, v) => {
                match value_of(t.names, m) {
                    Some(i) => {
                        let c = cs[i as int];
                        let key = cfg_key(c);
                        match v {
                            Some(a) => {
                                lemma_put(p.opts, key, stored_args(p.opts, key).push(a));
                                if key == k {
                                    assert(stored_args(with_fold(cs, t, s, ts).opts, k)
                                        =~= stored_args(s.opts, k) + key_values(cs, t, ts, k));
                                }
                            },
                            None => {
                                lemma_put(p.opts, key, Seq::empty());
                            },
                        }
                    },
                    None => {},
                }
            },
            _ => {},
        }
    }
}

/// The tokens that parsing `c` with the configurations `cs` scans, when they are right.
pub open spec fn with_tokens(c: CmdView, cs: Seq<OptCfgView>, t: CfgTable, until_first_arg: bool) -> Seq<ArgToken> {
    let w = c.line.skip(1);
    let m0 = start_mode(c.after_end);
    let tk = takes_of(cfg_flags(t.names, cs));
    scan_words(w, scan_end(w, m0, tk, until_first_arg), m0, tk).0
}

/// After parsing with configurations that let no unconfigured option through, when parsing
/// reports no error, reading a store key that was given arguments gives back the arguments it
/// held before followed by those given to the options configured under it, in order: default
/// arguments do not replace them.
pub proof fn law_parse_with_reads_back(c: CmdView, cs: Seq<OptCfgView>, until_first_arg: bool, k: Seq<char>)
    requires
        keys_distinct(c.opts),
        cfg_table(c, cs) matches Ok(t) && !t.any,
        with_parse(c, cs, until_first_arg).err is None,
    ensures
        cfg_table(c, cs) matches Ok(t) && ({
            let vals = key_values(cs, t, with_tokens(c, cs, t, until_first_arg), k);
            (has_key(c.opts, k) || vals.len() > 0) ==> stored_args(
                with_parse(c, cs, until_first_arg).opts,
                k,
            ) == stored_args(c.opts, k) + vals
        }),
{
    let t = cfg_table(c, cs)->Ok_0;
    let ts = with_tokens(c, cs, t, until_first_arg);
    let s0 = ParseState { args: c.args, opts: c.opts, err: None };
    law_with_fold_reads_back(cs, t, s0, ts, k);
    lemma_with_fold_keys(cs, t, s0, ts, k);
    let f = with_fold(cs, t, s0, ts);
    if has_key(f.opts, k) {
        law_defaults_keep_given(f.opts, cs, cs.len() as int, k);
    }
}

/// Parsing with configurations collects every command argument, in order, whatever errors occur
/// among the options.
pub proof fn law_with_fold_collects_all_args(cs: Seq<OptCfgView>, t: CfgTable, s: ParseState, ts: Seq<ArgToken>)
    ensures
        with_fold(cs, t, s, ts).args == s.args + operand_words(ts),
    decreases ts.len(),
{
    if ts.len() == 0 {
        assert(s.args + operand_words(ts) =~= s.args);
    } else {
        law_with_fold_collects_all_args(cs, t, s, ts.drop_last());
        let p = with_fold(cs, t, s, ts.drop_last());
        match ts.last() {
            ArgToken::Opt(m, v) => {
                match collect_opt(cs, t, m, v, p.opts) {
                    Ok(o) => {},
                    Err(e) => {},
                }
            },
            _ => {},
        }
        assert(with_fold(cs, t, s, ts).args =~= s.args + operand_words(ts));
    }
}

/// When a configuration is wrong, parsing with the configurations parses nothing: the command
/// arguments and the stored options stay as they were (no default is put), and the error is
/// the first wrong configuration's, as `check_cfgs` finds it.
pub proof fn law_config_error_parses_nothing(c: CmdView, cs: Seq<OptCfgView>, until_first_arg: bool)
    requires
        cfg_table(c, cs) is Err,
    ensures
        with_parse(c, cs, until_first_arg) == (ParseState {
            args: c.args,
            opts: c.opts,
            err: Some(cfg_table(c, cs)->Err_0),
        }),
{
}

/// When a configuration has the store key `*`, an option that no configuration names is let
/// through and stored under its own name, wherever it stands among the tokens.
pub proof fn law_any_keeps_unconfigured_option(
    cs: Seq<OptCfgView>,
    t: CfgTable,
    s: ParseState,
    ts: Seq<ArgToken>,
    k: int,
)
    requires
        t.any,
        keys_distinct(s.opts),
        0 <= k < ts.len(),
        ts[k] matches ArgToken::Opt(n, _) && value_of(t.names, n) is None,
    ensures
        ts[k] matches ArgToken::Opt(n, _) && has_key(with_fold(cs, t, s, ts).opts, n),
{
    let n = ts[k]->Opt_0;
    let v = ts[k]->Opt_1;
    let a = ts.take(k + 1);
    let b = ts.skip(k + 1);
    assert(a + b =~= ts);
    lemma_with_fold_append(cs, t, s, a, b);
    assert(a.drop_last() =~= ts.take(k));
    assert(a.last() == ts[k]);
    let p = with_fold(cs, t, s, a.drop_last());
    lemma_with_fold_keys(cs, t, s, a.drop_last(), n);
    match v {
        Some(x) => lemma_put(p.opts, n, stored_args(p.opts, n).push(x)),
        None => lemma_put(p.opts, n, Seq::<Seq<char>>::empty()),
    }
    let q = with_fold(cs, t, s, a);
    assert(has_key(q.opts, n));
    lemma_with_fold_keys(cs, t, q, b, n);
}

/// Parsing with configurations until the first command argument reads nothing from that
/// argument on: two commands in the same state whose command lines agree up to and including
/// the first command argument of one of them parse alike, whatever follows it.
pub proof fn law_until_first_arg_reads_no_further(
    c1: CmdView,
    c2: CmdView,
    cs: Seq<OptCfgView>,
    i: int,
)
    requires
        c1.line.len() >= 1,
        c1.after_end == c2.after_end,
        c1.args == c2.args,
        c1.opts == c2.opts,
        cfg_table(c1, cs) matches Ok(t) && first_operand(
            c1.line.skip(1),
            start_mode(c1.after_end),
            takes_of(cfg_flags(t.names, cs)),
        ) == Some(i),
        c2.line.len() > i + 1,
        c1.line.take(i + 2) == c2.line.take(i + 2),
    ensures
        with_parse(c1, cs, true) == with_parse(c2, cs, true),
{
    let t = cfg_table(c1, cs)->Ok_0;
    let w1 = c1.line.skip(1);
    let w2 = c2.line.skip(1);
    let m0 = start_mode(c1.after_end);
    let tk = takes_of(cfg_flags(t.names, cs));
    lemma_first_operand_from(w1, 0, m0, tk);
    assert(0 <= i < w1.len());
    assert(w1.take(i + 1) =~= c1.line.take(i + 2).skip(1));
    assert(w2.take(i + 1) =~= c2.line.take(i + 2).skip(1));
    lemma_first_operand_same(w1, w2, m0, tk, 0, i);
    assert(w1.take(i) =~= w1.take(i + 1).take(i));
    assert(w2.take(i) =~= w2.take(i + 1).take(i));
    law_scan_reads_only_scanned_words(w1, w2, i, m0, tk);
}


/// Adding names to a table whose names are distinct and name configurations before `n` keeps
/// it so, when the names are new, for a configuration before `n`.
proof fn lemma_add_names_wf(m: Seq<(Seq<char>, usize)>, ns: Seq<Seq<char>>, i: usize, key: Seq<char>, n: int)
    requires
        keys_distinct(m),
        forall|k: int| 0 <= k < m.len() ==> (#[trigger] m[k]).1 < n,
        i < n,
    ensures
        add_names(m, ns, i, key) matches Ok(m2) ==> keys_distinct(m2) && forall|k: int|
            0 <= k < m2.len() ==> (#[trigger] m2[k]).1 < n,
    decreases ns.len(),
{
    if ns.len() > 0 {
        lemma_add_names_wf(m, ns.drop_last(), i, key, n);
        match add_names(m, ns.drop_last(), i, key) {
            Ok(m2) => {
                if !has_key(m2, ns.last()) {
                    let m3 = m2.push((ns.last(), i));
                    assert forall|a: int, b: int| 0 <= a < b < m3.len() implies m3[a].0 != m3[b].0 by {
                        if b == m2.len() && m2[a].0 == ns.last() {
                            assert(key_at(m2, ns.last(), a));
                        }
                    }
                    assert forall|k: int| 0 <= k < m3.len() implies (#[trigger] m3[k]).1 < n by {
                        if k < m2.len() {
                            assert(m3[k] == m2[k]);
                        }
                    }
                }
            },
            Err(_) => {},
        }
    }
}

/// The table that checking configurations builds has every name once, each naming one of the
/// configurations.
pub proof fn lemma_check_cfgs_wf(cs: Seq<OptCfgView>, n: int, after_end: bool)
    requires
        0 <= n,
    ensures
        check_cfgs(cs, n, after_end) matches Ok(t) ==> table_wf(t, n),
    decreases n,
{
    if n > 0 {
        lemma_check_cfgs_wf(cs, n - 1, after_end);
        match check_cfgs(cs, n - 1, after_end) {
            Ok(t) => {
                let c = cs[n - 1];
                let key = cfg_key(c);
                let i = (n - 1) as usize;
                let ns = nonempty_names(c.names);
                assert forall|k: int| 0 <= k < t.names.len() implies (#[trigger] t.names[k]).1 < n by {
                }
                lemma_add_names_wf(t.names, ns, i, key, n);
                lemma_put(t.names, key, i);
                let p = put(t.names, key, i);
                assert forall|k: int| 0 <= k < p.len() implies (#[trigger] p[k]).1 < n by {
                    if has_key(t.names, key) {
                        let x = index_of_key(t.names, key);
                        if k != x {
                            assert(p[k] == t.names[k]);
                        }
                    } else if k < t.names.len() {
                        assert(p[k] == t.names[k]);
                    }
                }
            },
            Err(_) => {},
        }
    }
}

/// An option that a configuration names takes the next word as its argument exactly when that
/// configuration takes arguments, whatever its default arguments are: the word `--name` (not the
/// last word) leaves the option waiting for its argument, the next word becomes that argument,
/// and, when nothing is stored under its store key yet and the argument is valid, that word is
/// what is stored there.
pub proof fn law_configured_option_takes_next_word(
    c: CmdView,
    cs: Seq<OptCfgView>,
    n: Seq<char>,
    w: Seq<char>,
    w_is_last: bool,
    opts: Seq<(Seq<char>, Seq<Seq<char>>)>,
)
    requires
        cfg_table(c, cs) matches Ok(t) && value_of(t.names, n) is Some,
        n.len() > 0,
        is_alpha(n[0]),
        forall|k: int| 0 <= k < n.len() ==> is_name_char(#[trigger] n[k]),
    ensures
        cfg_table(c, cs) matches Ok(t) && ({
            let i = value_of(t.names, n)->Some_0 as int;
            let tk = takes_of(cfg_flags(t.names, cs));
            let key = cfg_key(cs[i]);
            &&& tk(n) == cs[i].has_arg
            &&& scan_word(ScanMode::Options, seq!['-', '-'] + n, false, tk) == if cs[i].has_arg {
                (Seq::<ArgToken>::empty(), ScanMode::Pending(n))
            } else {
                (seq![ArgToken::Opt(n, None)], ScanMode::Options)
            }
            &&& scan_word(ScanMode::Pending(n), w, w_is_last, tk) == (
                seq![ArgToken::Opt(n, Some(w))],
                ScanMode::Options,
            )
            &&& (cs[i].has_arg && stored_args(opts, key).len() == 0 && validator_outcome(
                cs[i].validator,
                key,
                n,
                w,
            ) is Ok) ==> collect_opt(cs, t, n, Some(w), opts) == Ok::<
                Seq<(Seq<char>, Seq<Seq<char>>)>,
                InvalidOptionView,
            >(put(opts, key, seq![w]))
        }),
{
    let t = cfg_table(c, cs)->Ok_0;
    lemma_check_cfgs_wf(cs, cs.len() as int, c.after_end);
    let j = index_of_key(t.names, n);
    assert(key_at(t.names, n, j));
    lemma_index_of_key(t.names, n, j);
    let i = t.names[j].1 as int;
    let flags = cfg_flags(t.names, cs);
    let tk = takes_of(flags);
    assert(flags[j] == (n, cs[i].has_arg));
    if cs[i].has_arg {
        assert(tk(n));
    } else {
        assert forall|k: int| 0 <= k < flags.len() && flags[k].0 == n implies !flags[k].1 by {
            assert(t.names[k].0 == n);
            if k != j {
                assert(t.names[k].0 != t.names[j].0);
            }
        }
        assert(!tk(n));
    }
    law_long_option_alone(n, false, tk);
    let key = cfg_key(cs[i]);
    assert(stored_args(opts, key).len() == 0 ==> stored_args(opts, key).push(w) =~= seq![w]);
}

} // verus!
