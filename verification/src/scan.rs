//! Splitting the words of a command line into options and command arguments.
//!
//! A word `--name` or `--name=value` is a long option, a word `-abc` or `-abc=value` is a group
//! of short options (the value, if any, belongs to the last one), the word `--` ends the options,
//! and every other word is a command argument.

use crate::strings::{chars_of, strings_view, substring};
use vstd::prelude::*;

verus! {

/// An ASCII letter.
pub open spec fn is_alpha(c: char) -> bool {
    ('a' <= c && c <= 'z') || ('A' <= c && c <= 'Z')
}

/// An ASCII digit.
pub open spec fn is_digit(c: char) -> bool {
    '0' <= c && c <= '9'
}

/// A character that a long option name can have after its first one.
pub open spec fn is_name_char(c: char) -> bool {
    c == '-' || is_alpha(c) || is_digit(c)
}

/// Whether `ch` can stand in a long option name after its first character.
pub fn is_allowed_character(ch: char) -> (r: bool)
    ensures
        r == is_name_char(ch),
{
    ch == '-' || ('a' <= ch && ch <= 'z') || ('A' <= ch && ch <= 'Z') || ('0' <= ch && ch <= '9')
}

/// Whether `ch` can start an option name (and be a short option).
pub fn is_allowed_first_character(ch: char) -> (r: bool)
    ensures
        r == is_alpha(ch),
{
    ('a' <= ch && ch <= 'z') || ('A' <= ch && ch <= 'Z')
}

/// What scanning finds in the words of a command line.
pub enum ArgToken {
    /// A command argument.
    Operand(Seq<char>),
    /// An option with its name and, if given, its argument.
    Opt(Seq<char>, Option<Seq<char>>),
    /// An option whose name has a character that option names cannot have.
    BadOpt(Seq<char>),
}

/// How the next word is read.
pub enum ScanMode {
    /// Words are options or command arguments.
    Options,
    /// The next word is the argument of the named option.
    Pending(Seq<char>),
    /// Every word is a command argument (an end-of-options mark was seen).
    Operands,
}

/// The mode in which scanning starts.
pub open spec fn start_mode(after_end: bool) -> ScanMode {
    if after_end {
        ScanMode::Operands
    } else {
        ScanMode::Options
    }
}

/// The option names for which the option takes the next word as its argument: those paired
/// with `true` in `flags`.
pub open spec fn takes_of(flags: Seq<(Seq<char>, bool)>) -> spec_fn(Seq<char>) -> bool {
    |s: Seq<char>| exists|k: int| 0 <= k < flags.len() && flags[k].0 == s && flags[k].1
}

/// The character sequences of names paired with flags.
pub open spec fn flags_view(v: Seq<(String, bool)>) -> Seq<(Seq<char>, bool)> {
    v.map_values(|p: (String, bool)| (p.0@, p.1))
}

/// The index at which the name of a long option (the text after `--`) ends, looking from `j`:
/// the first `=` or character that a name cannot have, or the end.
pub open spec fn long_name_end(b: Seq<char>, j: int) -> int
    decreases b.len() - j,
{
    if j >= b.len() {
        b.len() as int
    } else if b[j] == '=' || !is_name_char(b[j]) {
        j
    } else {
        long_name_end(b, j + 1)
    }
}

/// The index at which a group of short options (the text after `-`) ends, looking from `j`:
/// the first `=`, or the end.
pub open spec fn short_group_end(b: Seq<char>, j: int) -> int
    decreases b.len() - j,
{
    if j >= b.len() {
        b.len() as int
    } else if b[j] == '=' {
        j
    } else {
        short_group_end(b, j + 1)
    }
}

/// The token of a short option that is not the last of its group.
pub open spec fn short_token(c: char) -> ArgToken {
    if is_alpha(c) {
        ArgToken::Opt(seq![c], None)
    } else {
        ArgToken::BadOpt(seq![c])
    }
}

/// The tokens of a long option `b` (the text after `--`) and the mode for the next word.
pub open spec fn scan_long(b: Seq<char>, is_last: bool, takes: spec_fn(Seq<char>) -> bool) -> (
    Seq<ArgToken>,
    ScanMode,
) {
    if !is_alpha(b[0]) {
        (seq![ArgToken::BadOpt(b)], ScanMode::Options)
    } else {
        let j = long_name_end(b, 1);
        if j >= b.len() {
            if takes(b) && !is_last {
                (Seq::empty(), ScanMode::Pending(b))
            } else {
                (seq![ArgToken::Opt(b, None)], ScanMode::Options)
            }
        } else if b[j] == '=' {
            (seq![ArgToken::Opt(b.take(j), Some(b.skip(j + 1)))], ScanMode::Options)
        } else {
            (seq![ArgToken::BadOpt(b)], ScanMode::Options)
        }
    }
}

/// The tokens of a group of short options `b` (the text after `-`) and the mode for the next
/// word: one token for each character up to the first `=` after the first character; the last
/// option of the group gets the text after that `=` as its argument.
pub open spec fn scan_short(b: Seq<char>, is_last: bool, takes: spec_fn(Seq<char>) -> bool) -> (
    Seq<ArgToken>,
    ScanMode,
) {
    let k = short_group_end(b, 1);
    let front = Seq::new((k - 1) as nat, |j: int| short_token(b[j]));
    let c = b[k - 1];
    if !is_alpha(c) {
        (front.push(ArgToken::BadOpt(seq![c])), ScanMode::Options)
    } else if k < b.len() {
        (front.push(ArgToken::Opt(seq![c], Some(b.skip(k + 1)))), ScanMode::Options)
    } else if takes(seq![c]) && !is_last {
        (front, ScanMode::Pending(seq![c]))
    } else {
        (front.push(ArgToken::Opt(seq![c], None)), ScanMode::Options)
    }
}

/// A word that starts with `--`.
pub open spec fn is_long_form(a: Seq<char>) -> bool {
    a.len() >= 2 && a[0] == '-' && a[1] == '-'
}

/// A word that starts with `-` and one more character that is not `-`.
pub open spec fn is_short_form(a: Seq<char>) -> bool {
    a.len() >= 2 && a[0] == '-' && a[1] != '-'
}

/// The tokens of the word `a`, read in mode `m`, and the mode for the next word.
pub open spec fn scan_word(
    m: ScanMode,
    a: Seq<char>,
    is_last: bool,
    takes: spec_fn(Seq<char>) -> bool,
) -> (Seq<ArgToken>, ScanMode) {
    match m {
        ScanMode::Operands => (seq![ArgToken::Operand(a)], ScanMode::Operands),
        ScanMode::Pending(name) => (seq![ArgToken::Opt(name, Some(a))], ScanMode::Options),
        ScanMode::Options => if is_long_form(a) {
            if a.len() == 2 {
                (Seq::empty(), ScanMode::Operands)
            } else {
                scan_long(a.skip(2), is_last, takes)
            }
        } else if is_short_form(a) {
            scan_short(a.skip(1), is_last, takes)
        } else {
            (seq![ArgToken::Operand(a)], ScanMode::Options)
        },
    }
}

/// The tokens of the first `n` words of `w`, and the mode after them.
pub open spec fn scan_words(
    w: Seq<Seq<char>>,
    n: int,
    m0: ScanMode,
    takes: spec_fn(Seq<char>) -> bool,
) -> (Seq<ArgToken>, ScanMode)
    decreases n,
{
    if n <= 0 {
        (Seq::empty(), m0)
    } else {
        let p = scan_words(w, n - 1, m0, takes);
        let s = scan_word(p.1, w[n - 1], n - 1 == w.len() - 1, takes);
        (p.0 + s.0, s.1)
    }
}

/// The mode in which the word `w[i]` is read.
pub open spec fn mode_before(
    w: Seq<Seq<char>>,
    i: int,
    m0: ScanMode,
    takes: spec_fn(Seq<char>) -> bool,
) -> ScanMode {
    scan_words(w, i, m0, takes).1
}

/// Whether the word `a`, read in mode `m`, is a command argument.
pub open spec fn word_is_operand(m: ScanMode, a: Seq<char>) -> bool {
    match m {
        ScanMode::Operands => true,
        ScanMode::Pending(_) => false,
        ScanMode::Options => !(a.len() >= 2 && a[0] == '-'),
    }
}

/// The index of the first word, from `i` on, that is a command argument.
pub open spec fn first_operand_from(
    w: Seq<Seq<char>>,
    i: int,
    m0: ScanMode,
    takes: spec_fn(Seq<char>) -> bool,
) -> Option<int>
    decreases w.len() - i,
{
    if i < 0 || i >= w.len() {
        None
    } else if word_is_operand(mode_before(w, i, m0, takes), w[i]) {
        Some(i)
    } else {
        first_operand_from(w, i + 1, m0, takes)
    }
}

/// The index of the first word of `w` that is a command argument.
pub open spec fn first_operand(
    w: Seq<Seq<char>>,
    m0: ScanMode,
    takes: spec_fn(Seq<char>) -> bool,
) -> Option<int> {
    first_operand_from(w, 0, m0, takes)
}

/// The first command argument from `j` on is a command argument, at or after `j`, before the
/// end, and no word between `j` and it is one.
pub proof fn lemma_first_operand_from(
    w: Seq<Seq<char>>,
    j: int,
    m0: ScanMode,
    takes: spec_fn(Seq<char>) -> bool,
)
    requires
        0 <= j,
    ensures
        first_operand_from(w, j, m0, takes) matches Some(i) ==> {
            &&& j <= i < w.len()
            &&& word_is_operand(mode_before(w, i, m0, takes), w[i])
            &&& forall|k: int|
                j <= k < i ==> !word_is_operand(#[trigger] mode_before(w, k, m0, takes), w[k])
        },
        first_operand_from(w, j, m0, takes) is None ==> forall|k: int|
            j <= k < w.len() ==> !word_is_operand(#[trigger] mode_before(w, k, m0, takes), w[k]),
    decreases w.len() - j,
{
    if j < w.len() && !word_is_operand(mode_before(w, j, m0, takes), w[j]) {
        lemma_first_operand_from(w, j + 1, m0, takes);
    }
}

/// Scanning the first `n` words of a line reads only those words (and that the last of them is
/// not the last word of the line): two lines that are both longer than `n` and agree on their
/// first `n` words scan them alike.
pub proof fn law_scan_reads_only_scanned_words(
    w1: Seq<Seq<char>>,
    w2: Seq<Seq<char>>,
    n: int,
    m0: ScanMode,
    takes: spec_fn(Seq<char>) -> bool,
)
    requires
        0 <= n < w1.len(),
        n < w2.len(),
        w1.take(n) == w2.take(n),
    ensures
        scan_words(w1, n, m0, takes) == scan_words(w2, n, m0, takes),
    decreases n,
{
    if n > 0 {
        assert(w1.take(n - 1) =~= w1.take(n).take(n - 1));
        assert(w2.take(n - 1) =~= w2.take(n).take(n - 1));
        law_scan_reads_only_scanned_words(w1, w2, n - 1, m0, takes);
        assert(w1[n - 1] == w1.take(n)[n - 1]);
        assert(w2[n - 1] == w2.take(n)[n - 1]);
    }
}

/// Two lines that agree up to and including the first command argument of one of them, from
/// `j` on, have it as their first command argument from `j` on.
pub proof fn lemma_first_operand_same(
    w1: Seq<Seq<char>>,
    w2: Seq<Seq<char>>,
    m0: ScanMode,
    takes: spec_fn(Seq<char>) -> bool,
    j: int,
    i: int,
)
    requires
        0 <= j <= i,
        i < w1.len(),
        i < w2.len(),
        first_operand_from(w1, j, m0, takes) == Some(i),
        w1.take(i + 1) == w2.take(i + 1),
    ensures
        first_operand_from(w2, j, m0, takes) == Some(i),
    decreases i - j,
{
    lemma_first_operand_from(w1, j, m0, takes);
    assert(w1.take(j) =~= w1.take(i + 1).take(j));
    assert(w2.take(j) =~= w2.take(i + 1).take(j));
    law_scan_reads_only_scanned_words(w1, w2, j, m0, takes);
    assert(w1[j] == w1.take(i + 1)[j]);
    assert(w2[j] == w2.take(i + 1)[j]);
    assert(w1[j] == w2[j]);
    assert(mode_before(w1, j, m0, takes) == mode_before(w2, j, m0, takes));
    if j < i {
        assert(!word_is_operand(mode_before(w1, j, m0, takes), w1[j]));
        assert(first_operand_from(w1, j + 1, m0, takes) == Some(i));
        lemma_first_operand_same(w1, w2, m0, takes, j + 1, i);
    } else {
        assert(word_is_operand(mode_before(w1, j, m0, takes), w1[j]));
    }
}

/// How many words are scanned: all of them, or, when scanning stops at the first command
/// argument, those before it.
pub open spec fn scan_end(
    w: Seq<Seq<char>>,
    m0: ScanMode,
    takes: spec_fn(Seq<char>) -> bool,
    until_first_arg: bool,
) -> int {
    if until_first_arg {
        match first_operand(w, m0, takes) {
            Some(i) => i,
            None => w.len() as int,
        }
    } else {
        w.len() as int
    }
}

/// In a long option `n` followed by `rest`, where `rest` is empty or starts with `=`, and every character of
/// `n` can stand in a name, the name ends where `n` does, looking from any `j` within `n`.
proof fn lemma_long_name_end_before_eq(n: Seq<char>, rest: Seq<char>, j: int)
    requires
        1 <= j <= n.len(),
        rest.len() == 0 || rest[0] == '=',
        forall|k: int| 0 <= k < n.len() ==> is_name_char(#[trigger] n[k]),
    ensures
        long_name_end(n + rest, j) == n.len(),
    decreases n.len() - j,
{
    let b = n + rest;
    if j < n.len() {
        assert(b[j] == n[j]);
        assert(is_name_char(n[j]));
        lemma_long_name_end_before_eq(n, rest, j + 1);
    } else if rest.len() > 0 {
        assert(b[j] == rest[0]);
    } else {
        assert(b =~= n);
    }
}

/// A word `--name`, read where options are read, whose name starts with a letter and has only
/// letters, digits and `-`, is the option `name` with no argument; except that when the option
/// takes arguments and the word is not the last one, the next word is read as its argument.
pub proof fn law_long_option_alone(n: Seq<char>, is_last: bool, takes: spec_fn(Seq<char>) -> bool)
    requires
        n.len() > 0,
        is_alpha(n[0]),
        forall|k: int| 0 <= k < n.len() ==> is_name_char(#[trigger] n[k]),
    ensures
        scan_word(ScanMode::Options, seq!['-', '-'] + n, is_last, takes) == if takes(n) && !is_last {
            (Seq::<ArgToken>::empty(), ScanMode::Pending(n))
        } else {
            (seq![ArgToken::Opt(n, None)], ScanMode::Options)
        },
{
    let a = seq!['-', '-'] + n;
    let b = a.skip(2);
    assert(b =~= n + Seq::<char>::empty());
    assert(a[0] == '-' && a[1] == '-');
    assert(b[0] == n[0]);
    lemma_long_name_end_before_eq(n, Seq::<char>::empty(), 1);
}

/// A word `--name=value`, read where options are read, whose name starts with a letter and has
/// only letters, digits and `-`, is one option `name` with the argument `value`: everything
/// after the first `=`, which may be empty or hold more `=`. It never takes the next word as
/// its argument, and the next word is read where options are read.
pub proof fn law_long_option_with_value(
    n: Seq<char>,
    v: Seq<char>,
    is_last: bool,
    takes: spec_fn(Seq<char>) -> bool,
)
    requires
        n.len() > 0,
        is_alpha(n[0]),
        forall|k: int| 0 <= k < n.len() ==> is_name_char(#[trigger] n[k]),
    ensures
        scan_word(ScanMode::Options, seq!['-', '-'] + n + seq!['='] + v, is_last, takes) == (
            seq![ArgToken::Opt(n, Some(v))],
            ScanMode::Options,
        ),
{
    let a = seq!['-', '-'] + n + seq!['='] + v;
    let rest = seq!['='] + v;
    let b = a.skip(2);
    assert(b =~= n + rest);
    assert(a[0] == '-' && a[1] == '-');
    assert(b[0] == n[0]);
    lemma_long_name_end_before_eq(n, rest, 1);
    let j = n.len() as int;
    assert(b[j] == '=');
    assert(b.take(j) =~= n);
    assert(b.skip(j + 1) =~= v);
}

/// In a group of short options `g` followed by `rest`, where `rest` is empty or starts with `=`
/// and `g` has no `=`, the group ends where `g` does, looking from any `j` within `g`.
proof fn lemma_short_group_end_of(g: Seq<char>, rest: Seq<char>, j: int)
    requires
        1 <= j <= g.len(),
        rest.len() == 0 || rest[0] == '=',
        forall|k: int| 0 <= k < g.len() ==> #[trigger] g[k] != '=',
    ensures
        short_group_end(g + rest, j) == g.len(),
    decreases g.len() - j,
{
    let b = g + rest;
    if j < g.len() {
        assert(b[j] == g[j]);
        lemma_short_group_end_of(g, rest, j + 1);
    } else if rest.len() > 0 {
        assert(b[j] == rest[0]);
    } else {
        assert(b =~= g);
    }
}

/// The options of a group of letters `g`, each with no argument, in order.
pub open spec fn letter_options(g: Seq<char>) -> Seq<ArgToken> {
    Seq::new(g.len(), |j: int| ArgToken::Opt(seq![g[j]], None))
}

/// A word `-x1...xn=v`, read where options are read, whose characters before the `=` are all
/// letters, is one option for each letter, in order: all but the last with no argument, the
/// last with the argument `v` (everything after the first `=`). The next word is read where
/// options are read.
pub proof fn law_short_group_with_value(
    g: Seq<char>,
    v: Seq<char>,
    is_last: bool,
    takes: spec_fn(Seq<char>) -> bool,
)
    requires
        g.len() > 0,
        forall|k: int| 0 <= k < g.len() ==> is_alpha(#[trigger] g[k]),
    ensures
        scan_word(ScanMode::Options, seq!['-'] + g + seq!['='] + v, is_last, takes) == (
            letter_options(g.drop_last()).push(ArgToken::Opt(seq![g.last()], Some(v))),
            ScanMode::Options,
        ),
{
    let a = seq!['-'] + g + seq!['='] + v;
    let rest = seq!['='] + v;
    let b = a.skip(1);
    assert(b =~= g + rest);
    assert(a[0] == '-' && a[1] == g[0]);
    assert forall|k: int| 0 <= k < g.len() implies #[trigger] g[k] != '=' by {
        assert(is_alpha(g[k]));
    }
    lemma_short_group_end_of(g, rest, 1);
    let n = g.len() as int;
    assert(b[n - 1] == g[n - 1]);
    assert(b[n] == '=');
    assert(b.skip(n + 1) =~= v);
    let front = Seq::new((n - 1) as nat, |j: int| short_token(b[j]));
    assert forall|j: int| 0 <= j < n - 1 implies front[j] == letter_options(g.drop_last())[j] by {
        assert(b[j] == g[j]);
        assert(is_alpha(g[j]));
    }
    assert(front =~= letter_options(g.drop_last()));
}

/// A word `-x1...xn` made of letters, read where options are read, is one option for each
/// letter, in order, with no argument; except that when the last letter takes arguments and the
/// word is not the last one, the next word is read as that option's argument.
pub proof fn law_short_group_of_letters(
    g: Seq<char>,
    is_last: bool,
    takes: spec_fn(Seq<char>) -> bool,
)
    requires
        g.len() > 0,
        forall|k: int| 0 <= k < g.len() ==> is_alpha(#[trigger] g[k]),
    ensures
        scan_word(ScanMode::Options, seq!['-'] + g, is_last, takes) == if takes(seq![g.last()])
            && !is_last {
            (letter_options(g.drop_last()), ScanMode::Pending(seq![g.last()]))
        } else {
            (letter_options(g), ScanMode::Options)
        },
{
    let a = seq!['-'] + g;
    let b = a.skip(1);
    assert(b =~= g + Seq::<char>::empty());
    assert(a[0] == '-' && a[1] == g[0]);
    assert forall|k: int| 0 <= k < g.len() implies #[trigger] g[k] != '=' by {
        assert(is_alpha(g[k]));
    }
    lemma_short_group_end_of(g, Seq::<char>::empty(), 1);
    let n = g.len() as int;
    let front = Seq::new((n - 1) as nat, |j: int| short_token(b[j]));
    assert forall|j: int| 0 <= j < n - 1 implies front[j] == letter_options(g.drop_last())[j] by {
        assert(b[j] == g[j]);
        assert(is_alpha(g[j]));
    }
    assert(front =~= letter_options(g.drop_last()));
    assert(letter_options(g.drop_last()).push(ArgToken::Opt(seq![g.last()], None)) =~= letter_options(g));
}

/// A token of the scanner, holding owned strings.
pub enum Token {
    Operand(String),
    Opt(String, Option<String>),
    BadOpt(String),
}

impl View for Token {
    type V = ArgToken;

    open spec fn view(&self) -> ArgToken {
        match self {
            Token::Operand(a) => ArgToken::Operand(a@),
            Token::Opt(n, v) => ArgToken::Opt(
                n@,
                match v {
                    Some(s) => Some(s@),
                    None => None,
                },
            ),
            Token::BadOpt(o) => ArgToken::BadOpt(o@),
        }
    }
}

/// The views of a sequence of tokens.
pub open spec fn tokens_view(ts: Seq<Token>) -> Seq<ArgToken> {
    ts.map_values(|t: Token| t@)
}

/// The scanning mode, holding owned strings.
pub enum Scan {
    Options,
    Pending(String),
    Operands,
}

impl View for Scan {
    type V = ScanMode;

    open spec fn view(&self) -> ScanMode {
        match self {
            Scan::Options => ScanMode::Options,
            Scan::Pending(n) => ScanMode::Pending(n@),
            Scan::Operands => ScanMode::Operands,
        }
    }
}

/// Whether `s` is paired with `true` in `flags`.
pub(crate) fn takes_arg(flags: &Vec<(String, bool)>, s: &String) -> (r: bool)
    ensures
        r == takes_of(flags_view(flags@))(s@),
{
    let ghost fv = flags_view(flags@);
    let mut i: usize = 0;
    while i < flags.len()
        invariant
            i <= flags@.len(),
            fv == flags_view(flags@),
            forall|k: int| 0 <= k < i ==> !(fv[k].0 == s@ && fv[k].1),
        decreases flags@.len() - i,
    {
        if flags[i].1 && flags[i].0 == *s {
            proof {
                assert(fv[i as int].0 == s@ && fv[i as int].1);
            }
            return true;
        }
        i = i + 1;
    }
    false
}

/// Scans a long option word `a` (which starts with `--` and has more after it).
fn scan_long_word(a: &String, cs: &Vec<char>, is_last: bool, takes: &Vec<(String, bool)>) -> (r: (
    Vec<Token>,
    Scan,
))
    requires
        cs@ == a@,
        cs@.len() > 2,
    ensures
        (tokens_view(r.0@), r.1@) == scan_long(a@.skip(2), is_last, takes_of(flags_view(takes@))),
{
    let ghost b = a@.skip(2);
    let n = cs.len();
    let body = substring(a.as_str(), 2, n);
    let mut toks: Vec<Token> = Vec::new();
    proof {
        assert(body@ =~= b);
    }
    if !is_allowed_first_character(cs[2]) {
        toks.push(Token::BadOpt(body));
        proof {
            assert(tokens_view(toks@) =~= seq![ArgToken::BadOpt(b)]);
        }
        return (toks, Scan::Options);
    }
    let mut j: usize = 1;
    while j + 2 < n && cs[j + 2] != '=' && is_allowed_character(cs[j + 2])
        invariant
            1 <= j <= n - 2,
            n == cs@.len(),
            cs@ == a@,
            b == a@.skip(2),
            long_name_end(b, 1) == long_name_end(b, j as int),
        decreases n - j,
    {
        j = j + 1;
    }
    if j + 2 == n {
        if !is_last && takes_arg(takes, &body) {
            proof {
                assert(tokens_view(toks@) =~= Seq::<ArgToken>::empty());
            }
            return (toks, Scan::Pending(body));
        }
        toks.push(Token::Opt(body, None));
        proof {
            assert(tokens_view(toks@) =~= seq![ArgToken::Opt(b, None)]);
        }
        return (toks, Scan::Options);
    }
    if cs[j + 2] == '=' {
        let name = substring(a.as_str(), 2, j + 2);
        let value = substring(a.as_str(), j + 3, n);
        proof {
            assert(name@ =~= b.take(j as int));
            assert(value@ =~= b.skip(j + 1));
        }
        toks.push(Token::Opt(name, Some(value)));
        proof {
            assert(tokens_view(toks@) =~= seq![ArgToken::Opt(b.take(j as int), Some(b.skip(j + 1)))]);
        }
        (toks, Scan::Options)
    } else {
        toks.push(Token::BadOpt(body));
        proof {
            assert(tokens_view(toks@) =~= seq![ArgToken::BadOpt(b)]);
        }
        (toks, Scan::Options)
    }
}

/// Scans a word `a` that is a group of short options (it starts with `-` and a character other
/// than `-`).
fn scan_short_word(a: &String, cs: &Vec<char>, is_last: bool, takes: &Vec<(String, bool)>) -> (r: (
    Vec<Token>,
    Scan,
))
    requires
        cs@ == a@,
        cs@.len() >= 2,
    ensures
        (tokens_view(r.0@), r.1@) == scan_short(a@.skip(1), is_last, takes_of(flags_view(takes@))),
{
    let ghost b = a@.skip(1);
    let n = cs.len();
    let mut k: usize = 1;
    while k + 1 < n && cs[k + 1] != '='
        invariant
            1 <= k <= n - 1,
            n == cs@.len(),
            cs@ == a@,
            b == a@.skip(1),
            short_group_end(b, 1) == short_group_end(b, k as int),
        decreases n - k,
    {
        k = k + 1;
    }
    let mut toks: Vec<Token> = Vec::new();
    let mut j: usize = 0;
    while j + 1 < k
        invariant
            j + 1 <= k,
            k <= n - 1,
            n == cs@.len(),
            cs@ == a@,
            b == a@.skip(1),
            tokens_view(toks@) == Seq::new(j as nat, |x: int| short_token(b[x])),
        decreases k - j,
    {
        let c = cs[j + 1];
        let s = substring(a.as_str(), j + 1, j + 2);
        proof {
            assert(s@ =~= seq![b[j as int]]);
            assert(c == b[j as int]);
        }
        let ghost before = toks@;
        if is_allowed_first_character(c) {
            toks.push(Token::Opt(s, None));
        } else {
            toks.push(Token::BadOpt(s));
        }
        proof {
            let ghost next = Seq::new((j + 1) as nat, |x: int| short_token(b[x]));
            assert(toks@ == before.push(toks@.last()));
            assert(tokens_view(toks@) =~= tokens_view(before).push(short_token(b[j as int])));
            assert(tokens_view(toks@) =~= next);
        }
        j = j + 1;
    }
    let ghost front = Seq::new((k - 1) as nat, |x: int| short_token(b[x]));
    assert(tokens_view(toks@) == front);
    let c = cs[k];
    let s = substring(a.as_str(), k, k + 1);
    proof {
        assert(s@ =~= seq![b[k - 1]]);
    }
    if !is_allowed_first_character(c) {
        toks.push(Token::BadOpt(s));
        proof {
            assert(tokens_view(toks@) =~= front.push(ArgToken::BadOpt(seq![b[k - 1]])));
        }
        (toks, Scan::Options)
    } else if k + 1 < n {
        let value = substring(a.as_str(), k + 2, n);
        proof {
            assert(value@ =~= b.skip(k + 1));
        }
        toks.push(Token::Opt(s, Some(value)));
        proof {
            assert(tokens_view(toks@) =~= front.push(
                ArgToken::Opt(seq![b[k - 1]], Some(b.skip(k + 1))),
            ));
        }
        (toks, Scan::Options)
    } else if !is_last && takes_arg(takes, &s) {
        (toks, Scan::Pending(s))
    } else {
        toks.push(Token::Opt(s, None));
        proof {
            assert(tokens_view(toks@) =~= front.push(ArgToken::Opt(seq![b[k - 1]], None)));
        }
        (toks, Scan::Options)
    }
}

/// Scans the word `a` in mode `mode`.
pub(crate) fn scan_one_word(mode: &Scan, a: &String, is_last: bool, takes: &Vec<(String, bool)>) -> (r: (
    Vec<Token>,
    Scan,
))
    ensures
        (tokens_view(r.0@), r.1@) == scan_word(mode@, a@, is_last, takes_of(flags_view(takes@))),
{
    match mode {
        Scan::Operands => {
            let mut toks: Vec<Token> = Vec::new();
            toks.push(Token::Operand(a.clone()));
            proof {
                assert(tokens_view(toks@) =~= seq![ArgToken::Operand(a@)]);
            }
            (toks, Scan::Operands)
        },
        Scan::Pending(name) => {
            let mut toks: Vec<Token> = Vec::new();
            toks.push(Token::Opt(name.clone(), Some(a.clone())));
            proof {
                assert(tokens_view(toks@) =~= seq![ArgToken::Opt(name@, Some(a@))]);
            }
            (toks, Scan::Options)
        },
        Scan::Options => {
            let cs = chars_of(a.as_str());
            if cs.len() >= 2 && cs[0] == '-' && cs[1] == '-' {
                if cs.len() == 2 {
                    let toks: Vec<Token> = Vec::new();
                    proof {
                        assert(tokens_view(toks@) =~= Seq::<ArgToken>::empty());
                    }
                    (toks, Scan::Operands)
                } else {
                    scan_long_word(a, &cs, is_last, takes)
                }
            } else if cs.len() >= 2 && cs[0] == '-' {
                scan_short_word(a, &cs, is_last, takes)
            } else {
                let mut toks: Vec<Token> = Vec::new();
                toks.push(Token::Operand(a.clone()));
                proof {
                    assert(tokens_view(toks@) =~= seq![ArgToken::Operand(a@)]);
                }
                (toks, Scan::Options)
            }
        },
    }
}

/// Whether the word `a`, read in mode `mode`, is a command argument.
fn is_operand(mode: &Scan, a: &String) -> (r: bool)
    ensures
        r == word_is_operand(mode@, a@),
{
    match mode {
        Scan::Operands => true,
        Scan::Pending(_) => false,
        Scan::Options => {
            let cs = chars_of(a.as_str());
            !(cs.len() >= 2 && cs[0] == '-')
        },
    }
}

/// Scans the words of `line` after the command path, in order, starting in the mode that
/// `after_end` gives; with `until_first_arg`, stops at the first command argument and returns its
/// index among the scanned words (0 for the word after the command path) with whether it comes
/// after an end-of-options mark.
pub(crate) fn parse_args(
    line: &Vec<String>,
    takes: &Vec<(String, bool)>,
    until_first_arg: bool,
    after_end: bool,
) -> (r: (Vec<Token>, Option<(usize, bool)>))
    requires
        line@.len() >= 1,
    ensures
        ({
            let w = strings_view(line@).skip(1);
            let m0 = start_mode(after_end);
            let tk = takes_of(flags_view(takes@));
            &&& tokens_view(r.0@) == scan_words(w, scan_end(w, m0, tk, until_first_arg), m0, tk).0
            &&& match r.1 {
                Some((i, ae)) => until_first_arg && first_operand(w, m0, tk) == Some(i as int)
                    && i < w.len() && ae == (mode_before(w, i as int, m0, tk) is Operands),
                None => !until_first_arg || first_operand(w, m0, tk) is None,
            }
        }),
{
    let ghost w = strings_view(line@).skip(1);
    let ghost m0 = start_mode(after_end);
    let ghost tk = takes_of(flags_view(takes@));
    let mut mode = if after_end {
        Scan::Operands
    } else {
        Scan::Options
    };
    let mut toks: Vec<Token> = Vec::new();
    let n = line.len() - 1;
    let mut k: usize = 0;
    proof {
        assert(tokens_view(toks@) =~= Seq::<ArgToken>::empty());
    }
    while k < n
        invariant
            n == line@.len() - 1,
            w == strings_view(line@).skip(1),
            w.len() == n,
            m0 == start_mode(after_end),
            tk == takes_of(flags_view(takes@)),
            k <= n,
            tokens_view(toks@) == scan_words(w, k as int, m0, tk).0,
            mode@ == scan_words(w, k as int, m0, tk).1,
            until_first_arg ==> first_operand(w, m0, tk) == first_operand_from(w, k as int, m0, tk),
        decreases n - k,
    {
        let a = &line[k + 1];
        assert(a@ == w[k as int]);
        if until_first_arg && is_operand(&mode, a) {
            let ae = match mode {
                Scan::Operands => true,
                _ => false,
            };
            proof {
                lemma_first_operand_from(w, k as int, m0, tk);
            }
            return (toks, Some((k, ae)));
        }
        let (mut more, next) = scan_one_word(&mode, a, k + 1 == n, takes);
        proof {
            assert(tokens_view(toks@ + more@) =~= tokens_view(toks@) + tokens_view(more@));
        }
        toks.append(&mut more);
        mode = next;
        k = k + 1;
    }
    (toks, None)
}

/// One command argument token for each word of `ws`, in order.
pub open spec fn operands(ws: Seq<Seq<char>>) -> Seq<ArgToken> {
    ws.map_values(|a: Seq<char>| ArgToken::Operand(a))
}

/// Once a word is read as a command argument because an end-of-options mark came before it,
/// every later word is too: from the word `i` on, the tokens are one command argument for each
/// word, in order.
pub proof fn lemma_operands_from(
    w: Seq<Seq<char>>,
    i: int,
    m0: ScanMode,
    takes: spec_fn(Seq<char>) -> bool,
    j: int,
)
    requires
        0 <= i <= j <= w.len(),
        mode_before(w, i, m0, takes) is Operands,
    ensures
        mode_before(w, j, m0, takes) is Operands,
        scan_words(w, j, m0, takes).0 == scan_words(w, i, m0, takes).0 + operands(
            w.subrange(i, j),
        ),
    decreases j - i,
{
    if j == i {
        assert(w.subrange(i, j) =~= Seq::<Seq<char>>::empty());
        assert(scan_words(w, j, m0, takes).0 =~= scan_words(w, i, m0, takes).0 + operands(
            w.subrange(i, j),
        ));
    } else {
        lemma_operands_from(w, i, m0, takes, j - 1);
        assert(operands(w.subrange(i, j)) =~= operands(w.subrange(i, j - 1)).push(
            ArgToken::Operand(w[j - 1]),
        ));
        assert(scan_words(w, j, m0, takes).0 =~= scan_words(w, i, m0, takes).0 + operands(
            w.subrange(i, j),
        ));
    }
}

/// Every word after an end-of-options mark (`--` read where options are read) is a command
/// argument, even one that starts with `-` or `--`: the tokens of all the words are those of
/// the words before the mark, then one command argument for each word after it, in order.
pub proof fn law_words_after_end_mark(
    w: Seq<Seq<char>>,
    i: int,
    m0: ScanMode,
    takes: spec_fn(Seq<char>) -> bool,
)
    requires
        0 <= i < w.len(),
        w[i] == seq!['-', '-'],
        mode_before(w, i, m0, takes) is Options,
    ensures
        forall|j: int| i < j <= w.len() ==> (#[trigger] mode_before(w, j, m0, takes)) is Operands,
        scan_words(w, w.len() as int, m0, takes).0 == scan_words(w, i, m0, takes).0 + operands(
            w.skip(i + 1),
        ),
{
    assert(scan_words(w, i + 1, m0, takes).0 =~= scan_words(w, i, m0, takes).0);
    assert forall|j: int| i < j <= w.len() implies (#[trigger] mode_before(w, j, m0, takes)) is Operands by {
        lemma_operands_from(w, i + 1, m0, takes, j);
    }
    lemma_operands_from(w, i + 1, m0, takes, w.len() as int);
    assert(w.subrange(i + 1, w.len() as int) =~= w.skip(i + 1));
}

} // verus!
