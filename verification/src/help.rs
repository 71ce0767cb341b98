//! The help text of option configurations: one entry per option, its names (and argument
//! placeholder) first, then its description, aligned at a common column or at a given one.

use crate::opt_cfg::{OptCfg, OptCfgView, cfgs_view};
use crate::parse_with::{any_opt_key, cfg_key, cfg_store_key};
use crate::strings::strings_view;
use vstd::prelude::*;
use vstd::utf8::encode_utf8;

verus! {

/// What `linebreak::text_width` gives for a text: its display width in columns.
pub uninterp spec fn display_width(text: Seq<char>) -> nat;

/// Calls `linebreak::text_width`, which adds up the display width of each character of the text
/// (0, 1 or 2 columns, by the character's general category and East Asian Width). The contract
/// claims that the result is `display_width` of the text and, since each character adds at most
/// 2, that it is at most twice the number of characters; the width tables are the crate's.
#[verifier::external_body]
fn text_width_of(text: &str) -> (w: usize)
    ensures
        w == display_width(text@),
        w <= 2 * text@.len(),
{
    linebreak::text_width(text)
}

/// The number of bytes of `s` in UTF-8.
pub open spec fn byte_len(s: Seq<char>) -> nat {
    encode_utf8(s).len()
}

/// `n` spaces.
pub open spec fn spaces(n: nat) -> Seq<char> {
    Seq::new(n, |_i: int| ' ')
}

/// What separates a name from the one before it in a title: a comma and `last - 1` spaces, or
/// nothing when `last` is 0.
pub open spec fn separator(last: nat) -> Seq<char> {
    if last > 0 {
        seq![','] + spaces((last - 1) as nat)
    } else {
        Seq::empty()
    }
}

/// An option name as it is written: `-` before a name of one byte, `--` before a longer one.
pub open spec fn dashed(name: Seq<char>) -> Seq<char> {
    if byte_len(name) == 1 {
        seq!['-'] + name
    } else {
        seq!['-', '-'] + name
    }
}

/// The title of an option under construction: the spaces before it, the spaces owed before the
/// next name, the text so far, and whether no name has been written (so the store key is).
pub struct TitleState {
    pub head: nat,
    pub last: nat,
    pub title: Seq<char>,
    pub by_key: bool,
}

/// What one name does to the title: an empty name before any other adds 4 spaces before the
/// title, and after one adds 4 spaces (2 when it is the last name) before the next; a name is
/// written after the separator owed, and owes 2 spaces to the next name unless it is the last.
pub open spec fn title_step(s: TitleState, name: Seq<char>, is_last: bool) -> TitleState {
    if name.len() == 0 {
        if s.title.len() == 0 {
            TitleState { head: s.head + 4, ..s }
        } else if !is_last {
            TitleState { last: s.last + 4, ..s }
        } else {
            TitleState { last: s.last + 2, ..s }
        }
    } else {
        TitleState {
            head: s.head,
            last: if is_last {
                0
            } else {
                2
            },
            title: s.title + separator(s.last) + dashed(name),
            by_key: false,
        }
    }
}

/// The title after the first `n` of the names `names`.
pub open spec fn title_fold(names: Seq<Seq<char>>, n: int) -> TitleState
    decreases n,
{
    if n <= 0 {
        TitleState { head: 0, last: 0, title: Seq::empty(), by_key: true }
    } else {
        title_step(title_fold(names, n - 1), names[n - 1], n == names.len())
    }
}

/// The title of an option configuration, with the number of spaces before it: its names, or its
/// store key when all of its names are empty, then a space and its argument placeholder when
/// it has one.
pub open spec fn opt_title(c: OptCfgView) -> (nat, Seq<char>) {
    let s = title_fold(c.names, c.names.len() as int);
    let t1 = if s.by_key && c.store_key.len() > 0 {
        s.title + separator(s.last) + dashed(c.store_key)
    } else {
        s.title
    };
    let t2 = if c.arg_in_help.len() > 0 {
        t1 + seq![' '] + c.arg_in_help
    } else {
        t1
    };
    (s.head, t2)
}

/// The spaces before a title and the text of the title fit in a machine word, with room to
/// spare for two more columns.
pub open spec fn title_fits(c: OptCfgView) -> bool {
    &&& 4 * c.names.len() <= usize::MAX
    &&& opt_title(c).0 + 2 * opt_title(c).1.len() + 2 <= usize::MAX
}

/// `n` spaces, as a string.
fn spaces_string(n: usize) -> (r: String)
    ensures
        r@ == spaces(n as nat),
{
    let mut r = String::new();
    let mut i: usize = 0;
    proof {
        reveal_strlit(" ");
        assert(r@ =~= spaces(0));
    }
    while i < n
        invariant
            i <= n,
            r@ == spaces(i as nat),
            " "@ == seq![' '],
        decreases n - i,
    {
        r.append(" ");
        proof {
            assert(r@ =~= spaces((i + 1) as nat));
        }
        i = i + 1;
    }
    r
}

/// Appends the separator owed before the next name.
fn push_separator(title: &mut String, last: usize)
    ensures
        final(title)@ == old(title)@ + separator(last as nat),
{
    if last > 0 {
        proof {
            reveal_strlit(",");
        }
        title.append(",");
        let sp = spaces_string(last - 1);
        title.append(sp.as_str());
        proof {
            assert(final(title)@ =~= old(title)@ + separator(last as nat));
        }
    } else {
        proof {
            assert(title@ =~= old(title)@ + separator(last as nat));
        }
    }
}

/// Appends an option name as it is written.
fn push_dashed(title: &mut String, name: &str)
    ensures
        final(title)@ == old(title)@ + dashed(name@),
{
    proof {
        reveal_strlit("-");
        reveal_strlit("--");
    }
    if name.as_bytes().len() == 1 {
        title.append("-");
    } else {
        title.append("--");
    }
    title.append(name);
    proof {
        assert(final(title)@ =~= old(title)@ + dashed(name@));
    }
}

/// Makes the title of the option configuration `cfg` and returns it with the number of spaces
/// to put before it.
pub fn make_opt_title(cfg: &OptCfg) -> (r: (usize, String))
    requires
        4 * cfg.names@.len() <= usize::MAX,
    ensures
        r.0 as nat == opt_title(cfg@).0,
        r.1@ == opt_title(cfg@).1,
{
    let ghost nv = strings_view(cfg.names@);
    let n = cfg.names.len();
    let mut head: usize = 0;
    let mut last: usize = 0;
    let mut title = String::new();
    let mut by_key = true;
    let mut i: usize = 0;
    while i < n
        invariant
            n == cfg.names@.len(),
            4 * n <= usize::MAX,
            nv == strings_view(cfg.names@),
            i <= n,
            head <= 4 * i,
            last <= 4 * i,
            title_fold(nv, i as int) == (TitleState {
                head: head as nat,
                last: last as nat,
                title: title@,
                by_key,
            }),
        decreases n - i,
    {
        let name = &cfg.names[i];
        assert(name@ == nv[i as int]);
        if name.as_str().is_empty() {
            if title.as_str().is_empty() {
                head = head + 4;
            } else if i != n - 1 {
                last = last + 4;
            } else {
                last = last + 2;
            }
        } else {
            push_separator(&mut title, last);
            push_dashed(&mut title, name.as_str());
            last = if i != n - 1 {
                2
            } else {
                0
            };
            by_key = false;
        }
        i = i + 1;
    }
    if by_key && !cfg.store_key.as_str().is_empty() {
        push_separator(&mut title, last);
        push_dashed(&mut title, cfg.store_key.as_str());
    }
    if !cfg.arg_in_help.as_str().is_empty() {
        let ghost before = title@;
        proof {
            reveal_strlit(" ");
        }
        title.append(" ");
        title.append(cfg.arg_in_help.as_str());
        proof {
            assert(title@ =~= before + seq![' '] + cfg.arg_in_help@);
        }
    }
    (head, title)
}

/// A configuration gets a help entry: it has a store key, and its store key is not `*`.
pub open spec fn shown(c: OptCfgView) -> bool {
    cfg_key(c).len() > 0 && cfg_key(c) != any_opt_key()
}

/// The configurations of `cs` that get a help entry, in order.
pub open spec fn shown_cfgs(cs: Seq<OptCfgView>) -> Seq<OptCfgView>
    decreases cs.len(),
{
    if cs.len() == 0 {
        Seq::empty()
    } else {
        let front = shown_cfgs(cs.drop_last());
        if shown(cs.last()) {
            front.push(cs.last())
        } else {
            front
        }
    }
}

/// The width of the title of `c` in columns, counting the spaces before it.
pub open spec fn title_width(c: OptCfgView) -> nat {
    opt_title(c).0 + display_width(opt_title(c).1)
}

/// The widest title among `cs` (0 when there is none).
pub open spec fn widest(cs: Seq<OptCfgView>) -> nat
    decreases cs.len(),
{
    if cs.len() == 0 {
        0
    } else {
        let w = widest(cs.drop_last());
        if title_width(cs.last()) > w {
            title_width(cs.last())
        } else {
            w
        }
    }
}

/// The help entry of `c` when descriptions start at the column `indent`: the spaces before the
/// title, and the title followed by the description. The description follows after spaces up
/// to that column, or, when the title leaves less than two spaces before it, on a new line
/// after `indent` spaces.
pub open spec fn help_entry(c: OptCfgView, indent: nat) -> (nat, Seq<char>) {
    let t = opt_title(c);
    let w = title_width(c);
    if c.desc.len() == 0 {
        t
    } else if w + 2 > indent {
        (t.0, t.1 + seq!['\n'] + spaces(indent) + c.desc)
    } else {
        (t.0, t.1 + spaces((indent - w) as nat) + c.desc)
    }
}

/// The column at which descriptions start: the given one, or, when that is 0, two columns after
/// the widest title.
pub open spec fn help_indent(cs: Seq<OptCfgView>, indent: nat) -> nat {
    if indent > 0 {
        indent
    } else {
        widest(shown_cfgs(cs)) + 2
    }
}

/// The help entries of the configurations `cs`, descriptions starting at the column that
/// [help_indent] gives.
pub open spec fn opts_help(cs: Seq<OptCfgView>, indent: nat) -> Seq<(nat, Seq<char>)> {
    let col = help_indent(cs, indent);
    shown_cfgs(cs).map_values(|c: OptCfgView| help_entry(c, col))
}

/// The help entries, as plain values.
pub open spec fn entries_view(v: Seq<(usize, String)>) -> Seq<(nat, Seq<char>)> {
    v.map_values(|e: (usize, String)| (e.0 as nat, e.1@))
}

/// No title is wider than the widest.
pub proof fn lemma_widest(cs: Seq<OptCfgView>, k: int)
    requires
        0 <= k < cs.len(),
    ensures
        title_width(cs[k]) <= widest(cs),
    decreases cs.len(),
{
    if k < cs.len() - 1 {
        lemma_widest(cs.drop_last(), k);
    }
}

/// The titles, widths and configuration indices collected so far are those of the
/// configurations `shown`, which are among `cs`.
spec fn titles_match(
    titles: Seq<(usize, String)>,
    widths: Seq<usize>,
    descs: Seq<usize>,
    cs: Seq<OptCfgView>,
    shown: Seq<OptCfgView>,
) -> bool {
    &&& titles.len() == shown.len()
    &&& widths.len() == titles.len()
    &&& descs.len() == titles.len()
    &&& forall|k: int|
        #![trigger titles[k]]
        0 <= k < titles.len() ==> {
            &&& (titles[k].0 as nat, titles[k].1@) == opt_title(shown[k])
            &&& widths[k] as nat == title_width(shown[k])
            &&& descs[k] < cs.len()
            &&& cs[descs[k] as int] == shown[k]
        }
}

/// The title of `cfg`, with the spaces before it and its width.
fn title_and_width(cfg: &OptCfg) -> (r: (usize, String, usize))
    requires
        title_fits(cfg@),
    ensures
        (r.0 as nat, r.1@) == opt_title(cfg@),
        r.2 as nat == title_width(cfg@),
        r.2 + 2 <= usize::MAX,
{
    let (head, title) = make_opt_title(cfg);
    let tw = text_width_of(title.as_str());
    (head, title, head + tw)
}

/// Makes the help entries of the option configurations: for each configuration that has a store
/// key other than `*`, the number of spaces before its title, and its title with its
/// description.
///
/// Descriptions start at the column `*indent_ref`; when that is 0, at two columns after the
/// widest title, and `*indent_ref` is set to that column.
pub fn create_opts_help(cfgs: &[OptCfg], indent_ref: &mut usize) -> (r: Vec<(usize, String)>)
    requires
        forall|i: int| 0 <= i < cfgs@.len() ==> title_fits(#[trigger] cfgs@[i]@),
    ensures
        entries_view(r@) == opts_help(cfgs_view(cfgs@), *old(indent_ref) as nat),
        *final(indent_ref) as nat == help_indent(cfgs_view(cfgs@), *old(indent_ref) as nat),
{
    let ghost cs = cfgs_view(cfgs@);
    let indent = *indent_ref;
    let star = String::from_str("*");
    proof {
        reveal_strlit("*");
        assert(star@ =~= any_opt_key());
        reveal_strlit(" ");
        reveal_strlit("\n");
    }
    let mut ret: Vec<(usize, String)> = Vec::new();
    if indent > 0 {
        let mut i: usize = 0;
        while i < cfgs.len()
            invariant
                i <= cfgs@.len(),
                indent > 0,
                cs == cfgs_view(cfgs@),
                star@ == any_opt_key(),
                " "@ == seq![' '],
                "\n"@ == seq!['\n'],
                forall|j: int| 0 <= j < cfgs@.len() ==> title_fits(#[trigger] cfgs@[j]@),
                entries_view(ret@) == shown_cfgs(cs.take(i as int)).map_values(
                    |c: OptCfgView| help_entry(c, indent as nat),
                ),
            decreases cfgs@.len() - i,
        {
            let cfg = &cfgs[i];
            proof {
                assert(cfg@ == cs[i as int]);
                assert(cs.take(i + 1).drop_last() =~= cs.take(i as int));
                assert(cs.take(i + 1).last() == cs[i as int]);
            }
            let key = cfg_store_key(cfg);
            if !key.as_str().is_empty() && key != star {
                let (head, mut text, width) = title_and_width(cfg);
                if !cfg.desc.as_str().is_empty() {
                    if width + 2 > indent {
                        text.append("\n");
                        let sp = spaces_string(indent);
                        text.append(sp.as_str());
                        text.append(cfg.desc.as_str());
                    } else {
                        let sp = spaces_string(indent - width);
                        text.append(sp.as_str());
                        text.append(cfg.desc.as_str());
                    }
                }
                let ghost before = ret@;
                ret.push((head, text));
                proof {
                    assert((head as nat, text@) == help_entry(cs[i as int], indent as nat));
                    assert(entries_view(ret@) =~= entries_view(before).push(
                        help_entry(cs[i as int], indent as nat),
                    ));
                    assert(shown_cfgs(cs.take(i + 1)) == shown_cfgs(cs.take(i as int)).push(
                        cs[i as int],
                    ));
                    assert(shown_cfgs(cs.take(i + 1)).map_values(
                        |c: OptCfgView| help_entry(c, indent as nat),
                    ) =~= shown_cfgs(cs.take(i as int)).map_values(
                        |c: OptCfgView| help_entry(c, indent as nat),
                    ).push(help_entry(cs[i as int], indent as nat)));
                }
            }
            i = i + 1;
        }
        proof {
            assert(cs.take(cfgs@.len() as int) =~= cs);
        }
        ret
    } else {
        let mut titles: Vec<(usize, String)> = Vec::new();
        let mut widths: Vec<usize> = Vec::new();
        let mut descs: Vec<usize> = Vec::new();
        let mut widest_so_far: usize = 0;
        let mut i: usize = 0;
        while i < cfgs.len()
            invariant
                i <= cfgs@.len(),
                cs == cfgs_view(cfgs@),
                star@ == any_opt_key(),
                forall|j: int| 0 <= j < cfgs@.len() ==> title_fits(#[trigger] cfgs@[j]@),
                titles_match(titles@, widths@, descs@, cs, shown_cfgs(cs.take(i as int))),
                widest_so_far as nat == widest(shown_cfgs(cs.take(i as int))),
                widest_so_far + 2 <= usize::MAX,
            decreases cfgs@.len() - i,
        {
            let cfg = &cfgs[i];
            let ghost old_shown = shown_cfgs(cs.take(i as int));
            proof {
                assert(cfg@ == cs[i as int]);
                assert(cs.take(i + 1).drop_last() =~= cs.take(i as int));
                assert(cs.take(i + 1).last() == cs[i as int]);
            }
            let key = cfg_store_key(cfg);
            if !key.as_str().is_empty() && key != star {
                let ghost old_titles = titles@;
                let ghost old_widths = widths@;
                let ghost old_descs = descs@;
                let (head, text, width) = title_and_width(cfg);
                if widest_so_far < width {
                    widest_so_far = width;
                }
                titles.push((head, text));
                widths.push(width);
                descs.push(i);
                proof {
                    let new_shown = shown_cfgs(cs.take(i + 1));
                    assert(new_shown == old_shown.push(cs[i as int]));
                    assert(new_shown.drop_last() =~= old_shown);
                    assert forall|k: int| #![trigger titles@[k]] 0 <= k < titles@.len() - 1 implies {
                        &&& titles@[k] == old_titles[k]
                        &&& widths@[k] == old_widths[k]
                        &&& descs@[k] == old_descs[k]
                        &&& new_shown[k] == old_shown[k]
                    } by {}
                    assert(titles_match(titles@, widths@, descs@, cs, new_shown));
                }
            }
            i = i + 1;
        }
        proof {
            assert(cs.take(cfgs@.len() as int) =~= cs);
        }
        let col = widest_so_far + 2;
        let ghost shown_all = shown_cfgs(cs);
        let mut k: usize = 0;
        while k < titles.len()
            invariant
                k <= titles@.len(),
                cs == cfgs_view(cfgs@),
                shown_all == shown_cfgs(cs),
                col as nat == widest(shown_all) + 2,
                " "@ == seq![' '],
                titles_match(titles@, widths@, descs@, cs, shown_all),
                ret@.len() == k,
                forall|q: int|
                    0 <= q < k ==> (#[trigger] entries_view(ret@)[q]) == help_entry(
                        shown_all[q],
                        col as nat,
                    ),
            decreases titles@.len() - k,
        {
            let head = titles[k].0;
            let mut text = titles[k].1.clone();
            let cfg = &cfgs[descs[k]];
            proof {
                assert(cfg@ == cs[descs@[k as int] as int]);
                lemma_widest(shown_all, k as int);
            }
            if !cfg.desc.as_str().is_empty() {
                let sp = spaces_string(col - widths[k]);
                text.append(sp.as_str());
                text.append(cfg.desc.as_str());
            }
            let ghost before = ret@;
            ret.push((head, text));
            proof {
                assert forall|q: int| 0 <= q < k + 1 implies (#[trigger] entries_view(ret@)[q])
                    == help_entry(shown_all[q], col as nat) by {
                    if q < k {
                        assert(entries_view(ret@)[q] == entries_view(before)[q]);
                    }
                }
            }
            k = k + 1;
        }
        *indent_ref = col;
        proof {
            assert(entries_view(ret@) =~= opts_help(cs, indent as nat));
        }
        ret
    }
}

/// When no column is given, every description starts at the same column, two columns after the
/// widest title, on the line of its title: no entry breaks its line.
pub proof fn law_help_aligned(cs: Seq<OptCfgView>, j: int)
    requires
        0 <= j < shown_cfgs(cs).len(),
        shown_cfgs(cs)[j].desc.len() > 0,
    ensures
        ({
            let c = shown_cfgs(cs)[j];
            let col = help_indent(cs, 0);
            &&& title_width(c) + 2 <= col
            &&& opts_help(cs, 0)[j] == (
                opt_title(c).0,
                opt_title(c).1 + spaces((col - title_width(c)) as nat) + c.desc,
            )
        }),
{
    lemma_widest(shown_cfgs(cs), j);
}


/// Before the first non-empty name, a title has no text and owes no spaces; the store key is
/// still to be used exactly while every name so far is empty.
proof fn lemma_title_fold_prefix(names: Seq<Seq<char>>, m: int)
    requires
        0 <= m <= names.len(),
    ensures
        title_fold(names, m).by_key == (forall|k: int| 0 <= k < m ==> (#[trigger] names[k]).len() == 0),
        (forall|k: int| 0 <= k < m ==> (#[trigger] names[k]).len() == 0) ==> {
            &&& title_fold(names, m).title.len() == 0
            &&& title_fold(names, m).last == 0
            &&& title_fold(names, m).head == 4 * m
        },
    decreases m,
{
    if m > 0 {
        lemma_title_fold_prefix(names, m - 1);
        let all_before = forall|k: int| 0 <= k < m - 1 ==> (#[trigger] names[k]).len() == 0;
        let all_now = forall|k: int| 0 <= k < m ==> (#[trigger] names[k]).len() == 0;
        if all_now {
            assert(all_before);
        } else if all_before {
            assert(names[m - 1].len() != 0);
        }
    }
}

/// After the first non-empty name `names[j]`, the title starts with it, written as an option.
proof fn lemma_title_fold_starts(names: Seq<Seq<char>>, j: int, m: int)
    requires
        0 <= j < m <= names.len(),
        names[j].len() > 0,
        forall|k: int| 0 <= k < j ==> (#[trigger] names[k]).len() == 0,
    ensures
        title_fold(names, m).title.len() >= dashed(names[j]).len(),
        title_fold(names, m).title.take(dashed(names[j]).len() as int) == dashed(names[j]),
    decreases m,
{
    if m == j + 1 {
        lemma_title_fold_prefix(names, j);
        assert(separator(0) =~= Seq::<char>::empty());
        assert(title_fold(names, m).title =~= dashed(names[j]));
    } else {
        lemma_title_fold_starts(names, j, m - 1);
        let p = title_fold(names, m - 1).title;
        let q = title_fold(names, m).title;
        let d = dashed(names[j]);
        if names[m - 1].len() > 0 {
            assert(q == p + separator(title_fold(names, m - 1).last) + dashed(names[m - 1]));
            assert(q.take(d.len() as int) =~= p.take(d.len() as int));
        }
    }
}

/// When an option configuration has a non-empty name, its title is made of its names (and its
/// argument placeholder) alone: configurations that differ only in their store keys, or in
/// anything else but their names and placeholders, have the same title.
pub proof fn law_title_ignores_store_key_with_a_name(c1: OptCfgView, c2: OptCfgView, j: int)
    requires
        c1.names == c2.names,
        c1.arg_in_help == c2.arg_in_help,
        0 <= j < c1.names.len(),
        c1.names[j].len() > 0,
    ensures
        opt_title(c1) == opt_title(c2),
{
    lemma_title_fold_prefix(c1.names, c1.names.len() as int);
    assert(c1.names[j].len() > 0);
}

/// When an option configuration has a non-empty name, its title starts with the first one,
/// written as an option (`-` before a one-byte name, `--` before a longer one), after 4 spaces
/// for each empty name before it.
pub proof fn law_title_starts_with_first_name(c: OptCfgView, j: int)
    requires
        0 <= j < c.names.len(),
        c.names[j].len() > 0,
        forall|k: int| 0 <= k < j ==> (#[trigger] c.names[k]).len() == 0,
    ensures
        opt_title(c).1.len() >= dashed(c.names[j]).len(),
        opt_title(c).1.take(dashed(c.names[j]).len() as int) == dashed(c.names[j]),
        opt_title(c).0 == 4 * j,
{
    let names = c.names;
    lemma_title_fold_starts(names, j, names.len() as int);
    lemma_title_fold_prefix(names, names.len() as int);
    assert(names[j].len() > 0);
    head_after(names, j, names.len() as int);
    let s = title_fold(names, names.len() as int);
    let d = dashed(names[j]);
    if c.arg_in_help.len() > 0 {
        assert((s.title + seq![' '] + c.arg_in_help).take(d.len() as int) =~= s.title.take(d.len() as int));
    }
}

/// Once a name has been written, the spaces before the title stay as they were.
proof fn head_after(names: Seq<Seq<char>>, j: int, m: int)
    requires
        0 <= j < m <= names.len(),
        names[j].len() > 0,
        forall|k: int| 0 <= k < j ==> (#[trigger] names[k]).len() == 0,
    ensures
        title_fold(names, m).head == 4 * j,
    decreases m,
{
    if m == j + 1 {
        lemma_title_fold_prefix(names, j);
    } else {
        head_after(names, j, m - 1);
        lemma_title_fold_starts(names, j, m - 1);
    }
}

/// When every name of an option configuration is empty and it has a store key, its title is
/// that store key written as an option (then the argument placeholder), after 4 spaces for each
/// empty name.
pub proof fn law_title_of_store_key(c: OptCfgView)
    requires
        forall|k: int| 0 <= k < c.names.len() ==> (#[trigger] c.names[k]).len() == 0,
        c.store_key.len() > 0,
    ensures
        opt_title(c).0 == 4 * c.names.len(),
        opt_title(c).1 == if c.arg_in_help.len() > 0 {
            dashed(c.store_key) + seq![' '] + c.arg_in_help
        } else {
            dashed(c.store_key)
        },
{
    lemma_title_fold_prefix(c.names, c.names.len() as int);
    assert(separator(0) =~= Seq::<char>::empty());
    let s = title_fold(c.names, c.names.len() as int);
    assert(s.title + separator(s.last) + dashed(c.store_key) =~= dashed(c.store_key));
}


/// The names written as options, separated by `, `.
pub open spec fn dashed_list(names: Seq<Seq<char>>) -> Seq<char>
    decreases names.len(),
{
    if names.len() == 0 {
        Seq::empty()
    } else if names.len() == 1 {
        dashed(names[0])
    } else {
        dashed_list(names.drop_last()) + seq![',', ' '] + dashed(names.last())
    }
}

/// With only non-empty names, the title after `m` of them is those names written as options,
/// separated by `, `, with no spaces before it.
proof fn lemma_title_fold_all_named(names: Seq<Seq<char>>, m: int)
    requires
        0 <= m <= names.len(),
        forall|k: int| 0 <= k < names.len() ==> (#[trigger] names[k]).len() > 0,
    ensures
        title_fold(names, m).title == dashed_list(names.take(m)),
        title_fold(names, m).head == 0,
        title_fold(names, m).last == if 0 < m < names.len() { 2nat } else { 0nat },
    decreases m,
{
    if m > 0 {
        lemma_title_fold_all_named(names, m - 1);
        assert(names.take(m).drop_last() =~= names.take(m - 1));
        assert(names.take(m).last() == names[m - 1]);
        assert(names[m - 1].len() > 0);
        if m == 1 {
            assert(separator(0) =~= Seq::<char>::empty());
            assert(dashed_list(names.take(m)) =~= dashed(names[0]));
        } else {
            assert(separator(2) =~= seq![',', ' ']);
        }
    } else {
        assert(names.take(0) =~= Seq::<Seq<char>>::empty());
    }
}

/// When every name of an option configuration is non-empty (and there is one), its title is its
/// names written as options, in order and separated by `, `, then a space and the argument
/// placeholder when it has one, with no spaces before it.
pub proof fn law_title_lists_names(c: OptCfgView)
    requires
        c.names.len() > 0,
        forall|k: int| 0 <= k < c.names.len() ==> (#[trigger] c.names[k]).len() > 0,
    ensures
        opt_title(c).0 == 0,
        opt_title(c).1 == if c.arg_in_help.len() > 0 {
            dashed_list(c.names) + seq![' '] + c.arg_in_help
        } else {
            dashed_list(c.names)
        },
{
    lemma_title_fold_all_named(c.names, c.names.len() as int);
    lemma_title_fold_prefix(c.names, c.names.len() as int);
    assert(c.names.take(c.names.len() as int) =~= c.names);
    assert(c.names[0].len() > 0);
}

} // verus!
