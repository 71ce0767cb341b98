//! Collecting scanned tokens into command arguments and options, without configurations.

use crate::cmd::{CmdView, sub_cmd_view};
use crate::errors::{InvalidOption, InvalidOptionView};
use crate::keyed::{
    find_key, has_key, key_at, keys_distinct, lemma_index_of_key, lemma_put, opts_view, put,
    stored_args,
};
use crate::scan::{
    ArgToken, ScanMode, Token, first_operand, law_words_after_end_mark, lemma_operands_from,
    mode_before, operands, scan_end, scan_words, start_mode, takes_of, tokens_view,
};
use crate::strings::{opt_string_view, strings_view};
use vstd::prelude::*;

verus! {

/// The command arguments, options and first error collected so far.
pub struct ParseState {
    pub args: Seq<Seq<char>>,
    pub opts: Seq<(Seq<char>, Seq<Seq<char>>)>,
    pub err: Option<InvalidOptionView>,
}

/// `vals` with `v` appended when there is one.
pub open spec fn with_arg(vals: Seq<Seq<char>>, v: Option<Seq<char>>) -> Seq<Seq<char>> {
    match v {
        Some(x) => vals.push(x),
        None => vals,
    }
}

/// The first error: `err` if there is one already, else `e`.
pub open spec fn keep_first(err: Option<InvalidOptionView>, e: InvalidOptionView) -> Option<
    InvalidOptionView,
> {
    match err {
        Some(x) => Some(x),
        None => Some(e),
    }
}

/// What one token does when no configuration is given: a command argument is appended, an
/// option is stored under its own name with its argument (if any) appended, and an invalid
/// option is kept as the error if it is the first one.
pub open spec fn plain_step(s: ParseState, t: ArgToken) -> ParseState {
    match t {
        ArgToken::Operand(a) => ParseState { args: s.args.push(a), ..s },
        ArgToken::Opt(n, v) => ParseState {
            opts: put(s.opts, n, with_arg(stored_args(s.opts, n), v)),
            ..s
        },
        ArgToken::BadOpt(o) => ParseState {
            err: keep_first(s.err, InvalidOptionView::OptionContainsInvalidChar { option: o }),
            ..s
        },
    }
}

/// What the tokens `ts` do, one after the other, from `s`.
pub open spec fn plain_fold(s: ParseState, ts: Seq<ArgToken>) -> ParseState
    decreases ts.len(),
{
    if ts.len() == 0 {
        s
    } else {
        plain_step(plain_fold(s, ts.drop_last()), ts.last())
    }
}

/// What parsing `c` without configurations collects: every word after the command path is
/// scanned (or, with `until_first_arg`, those before the first command argument), no option
/// takes the next word as its argument, and the tokens are applied as [plain_step] says.
pub open spec fn plain_parse(c: CmdView, until_first_arg: bool) -> ParseState {
    let w = c.line.skip(1);
    let m0 = start_mode(c.after_end);
    let tk = takes_of(Seq::empty());
    plain_fold(
        ParseState { args: c.args, opts: c.opts, err: None },
        scan_words(w, scan_end(w, m0, tk, until_first_arg), m0, tk).0,
    )
}

/// The outcome that an error (or none) gives.
pub open spec fn outcome_of(err: Option<InvalidOptionView>) -> Result<(), InvalidOptionView> {
    match err {
        Some(e) => Err(e),
        None => Ok(()),
    }
}

/// The error, taken by its view.
pub open spec fn opt_error_view(e: Option<InvalidOption>) -> Option<InvalidOptionView> {
    match e {
        Some(x) => Some(x@),
        None => None,
    }
}

/// Replaces the entry at `i` with `entry`.
fn replace_entry(opts: &mut Vec<(String, Vec<String>)>, i: usize, entry: (String, Vec<String>))
    requires
        i < old(opts)@.len(),
    ensures
        final(opts)@ == old(opts)@.update(i as int, entry),
{
    opts.remove(i);
    opts.insert(i, entry);
    proof {
        assert(final(opts)@ =~= old(opts)@.update(i as int, entry));
    }
}

/// Appends `arg` (if any) to the arguments stored under `key`, storing the key first if it is
/// not there.
pub(crate) fn add_opt_arg(opts: &mut Vec<(String, Vec<String>)>, key: String, arg: Option<String>)
    requires
        keys_distinct(opts_view(old(opts)@)),
    ensures
        keys_distinct(opts_view(final(opts)@)),
        opts_view(final(opts)@) == put(
            opts_view(old(opts)@),
            key@,
            with_arg(stored_args(opts_view(old(opts)@), key@), opt_string_view(arg)),
        ),
{
    let ghost before = opts_view(opts@);
    let ghost vals = with_arg(stored_args(before, key@), opt_string_view(arg));
    proof {
        lemma_put(before, key@, vals);
    }
    match find_key(opts, &key) {
        Some(i) => {
            proof {
                assert(key_at(before, key@, i as int));
                lemma_index_of_key(before, key@, i as int);
            }
            let mut entry = opts.remove(i);
            let ghost old_entry = entry;
            match arg {
                Some(a) => entry.1.push(a),
                None => {},
            }
            proof {
                assert(strings_view(entry.1@) =~= vals);
            }
            opts.insert(i, entry);
            proof {
                assert(opts_view(opts@) =~= put(before, key@, vals));
            }
        },
        None => {
            proof {
                assert forall|j: int| !key_at(before, key@, j) by {
                    if 0 <= j < before.len() {
                        assert(before[j].0 == old(opts)@[j].0@);
                    }
                }
                assert(!has_key(before, key@));
            }
            let mut vs: Vec<String> = Vec::new();
            match arg {
                Some(a) => vs.push(a),
                None => {},
            }
            proof {
                assert(strings_view(vs@) =~= vals);
            }
            opts.push((key, vs));
            proof {
                assert(opts_view(opts@) =~= put(before, key@, vals));
            }
        },
    }
}

/// Stores `vals` under `key`, replacing what was stored there.
pub(crate) fn set_opt_args(opts: &mut Vec<(String, Vec<String>)>, key: String, vals: Vec<String>)
    requires
        keys_distinct(opts_view(old(opts)@)),
    ensures
        keys_distinct(opts_view(final(opts)@)),
        opts_view(final(opts)@) == put(opts_view(old(opts)@), key@, strings_view(vals@)),
{
    let ghost before = opts_view(opts@);
    proof {
        lemma_put(before, key@, strings_view(vals@));
    }
    match find_key(opts, &key) {
        Some(i) => {
            proof {
                assert(key_at(before, key@, i as int));
                lemma_index_of_key(before, key@, i as int);
            }
            replace_entry(opts, i, (key, vals));
            proof {
                assert(opts_view(opts@) =~= put(before, key@, strings_view(vals@)));
            }
        },
        None => {
            proof {
                assert forall|j: int| !key_at(before, key@, j) by {
                    if 0 <= j < before.len() {
                        assert(before[j].0 == old(opts)@[j].0@);
                    }
                }
                assert(!has_key(before, key@));
            }
            opts.push((key, vals));
            proof {
                assert(opts_view(opts@) =~= put(before, key@, strings_view(vals@)));
            }
        },
    }
}

/// Applies the tokens to the command arguments and options as [plain_step] says, and returns
/// the first error.
pub(crate) fn collect_plain(
    tokens: &Vec<Token>,
    args: &mut Vec<String>,
    opts: &mut Vec<(String, Vec<String>)>,
) -> (err: Option<InvalidOption>)
    requires
        keys_distinct(opts_view(old(opts)@)),
    ensures
        keys_distinct(opts_view(final(opts)@)),
        ({
            let s = plain_fold(
                ParseState {
                    args: strings_view(old(args)@),
                    opts: opts_view(old(opts)@),
                    err: None,
                },
                tokens_view(tokens@),
            );
            &&& strings_view(final(args)@) == s.args
            &&& opts_view(final(opts)@) == s.opts
            &&& opt_error_view(err) == s.err
        }),
{
    let ghost s0 = ParseState { args: strings_view(args@), opts: opts_view(opts@), err: None };
    let mut err: Option<InvalidOption> = None;
    let mut i: usize = 0;
    while i < tokens.len()
        invariant
            i <= tokens@.len(),
            keys_distinct(opts_view(opts@)),
            ({
                let s = plain_fold(s0, tokens_view(tokens@).take(i as int));
                &&& strings_view(args@) == s.args
                &&& opts_view(opts@) == s.opts
                &&& opt_error_view(err) == s.err
            }),
        decreases tokens@.len() - i,
    {
        proof {
            assert(tokens_view(tokens@).take(i + 1).drop_last() =~= tokens_view(tokens@).take(
                i as int,
            ));
            assert(tokens_view(tokens@).take(i + 1).last() == tokens@[i as int]@);
        }
        match &tokens[i] {
            Token::Operand(a) => {
                let ghost before = args@;
                args.push(a.clone());
                proof {
                    assert(strings_view(args@) =~= strings_view(before).push(a@));
                }
            },
            Token::Opt(n, v) => {
                let value = match v {
                    Some(x) => Some(x.clone()),
                    None => None,
                };
                add_opt_arg(opts, n.clone(), value);
            },
            Token::BadOpt(o) => {
                if err.is_none() {
                    err = Some(InvalidOption::OptionContainsInvalidChar { option: o.clone() });
                }
            },
        }
        i = i + 1;
    }
    proof {
        assert(tokens_view(tokens@).take(tokens@.len() as int) =~= tokens_view(tokens@));
    }
    err
}

/// Applying two runs of tokens one after the other is applying them joined.
pub proof fn lemma_plain_fold_append(s: ParseState, a: Seq<ArgToken>, b: Seq<ArgToken>)
    ensures
        plain_fold(s, a + b) == plain_fold(plain_fold(s, a), b),
    decreases b.len(),
{
    if b.len() == 0 {
        assert(a + b =~= a);
    } else {
        lemma_plain_fold_append(s, a, b.drop_last());
        assert((a + b).drop_last() =~= a + b.drop_last());
        assert((a + b).last() == b.last());
    }
}

/// Command argument tokens append their words to the command arguments, and change nothing
/// else.
pub proof fn lemma_plain_fold_operands(s: ParseState, ws: Seq<Seq<char>>)
    ensures
        plain_fold(s, operands(ws)) == (ParseState { args: s.args + ws, ..s }),
    decreases ws.len(),
{
    if ws.len() == 0 {
        assert(operands(ws) =~= Seq::<ArgToken>::empty());
        assert(s.args + ws =~= s.args);
    } else {
        lemma_plain_fold_operands(s, ws.drop_last());
        assert(operands(ws).drop_last() =~= operands(ws.drop_last()));
        assert(s.args + ws =~= (s.args + ws.drop_last()).push(ws.last()));
    }
}

/// The tokens that parsing `c` scans.
pub open spec fn parsed_tokens(c: CmdView, takes: spec_fn(Seq<char>) -> bool, until_first_arg: bool) -> Seq<ArgToken> {
    let w = c.line.skip(1);
    let m0 = start_mode(c.after_end);
    scan_words(w, scan_end(w, m0, takes, until_first_arg), m0, takes).0
}

/// Parsing without configurations makes every word after an end-of-options mark a command
/// argument: what was collected before the mark stays as it is, and the words after it are
/// appended to the command arguments, in order.
pub proof fn law_parse_after_end_mark(c: CmdView, i: int)
    requires
        1 <= i < c.line.len(),
        c.line[i] == seq!['-', '-'],
        mode_before(c.line.skip(1), i - 1, start_mode(c.after_end), takes_of(Seq::empty()))
            is Options,
    ensures
        ({
            let before = plain_fold(
                ParseState { args: c.args, opts: c.opts, err: None },
                scan_words(
                    c.line.skip(1),
                    i - 1,
                    start_mode(c.after_end),
                    takes_of(Seq::empty()),
                ).0,
            );
            plain_parse(c, false) == ParseState { args: before.args + c.line.skip(i + 1), ..before }
        }),
{
    let w = c.line.skip(1);
    let m0 = start_mode(c.after_end);
    let tk = takes_of(Seq::<(Seq<char>, bool)>::empty());
    let s0 = ParseState { args: c.args, opts: c.opts, err: None };
    assert(w[i - 1] == c.line[i]);
    law_words_after_end_mark(w, i - 1, m0, tk);
    assert(w.skip(i) =~= c.line.skip(i + 1));
    lemma_plain_fold_append(s0, scan_words(w, i - 1, m0, tk).0, operands(w.skip(i)));
    lemma_plain_fold_operands(plain_fold(s0, scan_words(w, i - 1, m0, tk).0), w.skip(i));
}

/// The arguments that the tokens `ts` give to the option `n`, in order.
pub open spec fn opt_values(ts: Seq<ArgToken>, n: Seq<char>) -> Seq<Seq<char>>
    decreases ts.len(),
{
    if ts.len() == 0 {
        Seq::empty()
    } else {
        let p = opt_values(ts.drop_last(), n);
        match ts.last() {
            ArgToken::Opt(m, Some(v)) => if m == n {
                p.push(v)
            } else {
                p
            },
            _ => p,
        }
    }
}

/// Some token of `ts` is the option `n`.
pub open spec fn gives_option(ts: Seq<ArgToken>, n: Seq<char>) -> bool
    decreases ts.len(),
{
    if ts.len() == 0 {
        false
    } else {
        gives_option(ts.drop_last(), n) || match ts.last() {
            ArgToken::Opt(m, _) => m == n,
            _ => false,
        }
    }
}

/// Applying tokens without configurations keeps every option key once, stores an option when
/// some token gives it, and appends the arguments that the tokens give it, in order.
pub proof fn lemma_plain_fold_stores(s: ParseState, ts: Seq<ArgToken>, n: Seq<char>)
    requires
        keys_distinct(s.opts),
    ensures
        keys_distinct(plain_fold(s, ts).opts),
        stored_args(plain_fold(s, ts).opts, n) == stored_args(s.opts, n) + opt_values(ts, n),
        has_key(plain_fold(s, ts).opts, n) == (has_key(s.opts, n) || gives_option(ts, n)),
    decreases ts.len(),
{
    if ts.len() == 0 {
        assert(stored_args(s.opts, n) + opt_values(ts, n) =~= stored_args(s.opts, n));
    } else {
        let p = plain_fold(s, ts.drop_last());
        lemma_plain_fold_stores(s, ts.drop_last(), n);
        match ts.last() {
            ArgToken::Opt(m, v) => {
                let vals = with_arg(stored_args(p.opts, m), v);
                lemma_put(p.opts, m, vals);
                lemma_plain_fold_stores(s, ts.drop_last(), m);
                if m == n {
                    assert(stored_args(plain_fold(s, ts).opts, n) =~= stored_args(s.opts, n)
                        + opt_values(ts, n));
                } else {
                    assert(stored_args(plain_fold(s, ts).opts, n) == stored_args(p.opts, n));
                }
            },
            _ => {},
        }
    }
}

/// After parsing without configurations, reading an option gives back the arguments given to
/// it, in order, after those it had before; and an option is there exactly when it was there
/// before or was given.
pub proof fn law_parse_reads_back(c: CmdView, until_first_arg: bool, n: Seq<char>)
    requires
        keys_distinct(c.opts),
    ensures
        ({
            let ts = parsed_tokens(c, takes_of(Seq::empty()), until_first_arg);
            let r = plain_parse(c, until_first_arg);
            &&& keys_distinct(r.opts)
            &&& stored_args(r.opts, n) == stored_args(c.opts, n) + opt_values(ts, n)
            &&& has_key(r.opts, n) == (has_key(c.opts, n) || gives_option(ts, n))
        }),
{
    let ts = parsed_tokens(c, takes_of(Seq::<(Seq<char>, bool)>::empty()), until_first_arg);
    lemma_plain_fold_stores(ParseState { args: c.args, opts: c.opts, err: None }, ts, n);
}

/// The first invalid option among the tokens `ts`.
pub open spec fn first_invalid(ts: Seq<ArgToken>) -> Option<Seq<char>>
    decreases ts.len(),
{
    if ts.len() == 0 {
        None
    } else {
        match first_invalid(ts.drop_last()) {
            Some(o) => Some(o),
            None => match ts.last() {
                ArgToken::BadOpt(o) => Some(o),
                _ => None,
            },
        }
    }
}

/// Applying tokens without configurations keeps the first error: the one there already, or
/// else the first invalid option among the tokens.
pub proof fn lemma_plain_fold_first_error(s: ParseState, ts: Seq<ArgToken>)
    ensures
        plain_fold(s, ts).err == match s.err {
            Some(e) => Some(e),
            None => match first_invalid(ts) {
                Some(o) => Some(InvalidOptionView::OptionContainsInvalidChar { option: o }),
                None => None,
            },
        },
    decreases ts.len(),
{
    if ts.len() > 0 {
        lemma_plain_fold_first_error(s, ts.drop_last());
    }
}

/// Parsing without configurations goes through every word even after an invalid option, and
/// reports the first invalid option; it reports no error when there is none.
pub proof fn law_parse_reports_first_invalid(c: CmdView, until_first_arg: bool)
    ensures
        plain_parse(c, until_first_arg).err == match first_invalid(
            parsed_tokens(c, takes_of(Seq::empty()), until_first_arg),
        ) {
            Some(o) => Some(InvalidOptionView::OptionContainsInvalidChar { option: o }),
            None => None,
        },
{
    lemma_plain_fold_first_error(
        ParseState { args: c.args, opts: c.opts, err: None },
        parsed_tokens(c, takes_of(Seq::<(Seq<char>, bool)>::empty()), until_first_arg),
    );
}

/// When no word is a command argument, parsing until the first command argument collects what
/// parsing all the words collects.
pub proof fn law_until_first_arg_without_args(c: CmdView)
    requires
        first_operand(c.line.skip(1), start_mode(c.after_end), takes_of(Seq::empty())) is None,
    ensures
        plain_parse(c, true) == plain_parse(c, false),
{
}

/// A sub command that starts after an end-of-options mark takes all of its words as command
/// arguments: parsing it collects them, in order, and no option and no error.
pub proof fn law_sub_cmd_after_end_mark(line: Seq<Seq<char>>, from: int)
    requires
        0 <= from < line.len(),
    ensures
        plain_parse(sub_cmd_view(line, from, true), false) == (ParseState {
            args: line.skip(from + 1),
            opts: Seq::empty(),
            err: None,
        }),
{
    let c = sub_cmd_view(line, from, true);
    let w = c.line.skip(1);
    let tk = takes_of(Seq::<(Seq<char>, bool)>::empty());
    assert(w =~= line.skip(from + 1));
    lemma_operands_from(w, 0, ScanMode::Operands, tk, w.len() as int);
    assert(w.subrange(0, w.len() as int) =~= w);
    assert(scan_words(w, 0, ScanMode::Operands, tk).0 + operands(w) =~= operands(w));
    let s0 = ParseState { args: Seq::empty(), opts: Seq::empty(), err: None };
    lemma_plain_fold_operands(s0, w);
    assert(s0.args + w =~= w);
}

/// The words of the command argument tokens among `ts`, in order.
pub open spec fn operand_words(ts: Seq<ArgToken>) -> Seq<Seq<char>>
    decreases ts.len(),
{
    if ts.len() == 0 {
        Seq::empty()
    } else {
        match ts.last() {
            ArgToken::Operand(a) => operand_words(ts.drop_last()).push(a),
            _ => operand_words(ts.drop_last()),
        }
    }
}

/// Parsing without configurations collects every command argument, in order, whatever errors
/// occur among the options.
pub proof fn law_plain_fold_collects_all_args(s: ParseState, ts: Seq<ArgToken>)
    ensures
        plain_fold(s, ts).args == s.args + operand_words(ts),
    decreases ts.len(),
{
    if ts.len() == 0 {
        assert(s.args + operand_words(ts) =~= s.args);
    } else {
        law_plain_fold_collects_all_args(s, ts.drop_last());
        assert(plain_fold(s, ts).args =~= s.args + operand_words(ts));
    }
}

} // verus!
