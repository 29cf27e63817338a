//! Splitting a key/value list and writing it back with other separators.
//!
//! The input is cut at each item separator; every piece is trimmed, empty
//! pieces are dropped, and in each remaining item the first key/value
//! separator (when one is configured and present) is replaced, with the key
//! and the value trimmed. The items are then joined with the item replacement.

use vstd::prelude::*;
use crate::text::{
    chars_of, find, find_from, lemma_first_from_bounds, occurs_at, occurs_at_exec, same_chars,
    string_of, trim_range, trimmed,
};

verus! {

/// The options as given on a command line, before presets and escapes are applied.
pub struct Args {
    pub pattern: Option<String>,
    pub item_separator: String,
    pub kv_separator: Option<String>,
    pub item_replacement: String,
    pub kv_replacement: String,
}

/// How an input is split and rewritten.
pub struct SplitConfig {
    pub item_separator: String,
    pub kv_separator: Option<String>,
    pub item_replacement: String,
    pub kv_replacement: String,
}

/// The characters of each setting of a [`SplitConfig`].
pub ghost struct SplitModel {
    pub item_sep: Seq<char>,
    pub kv_sep: Option<Seq<char>>,
    pub item_rep: Seq<char>,
    pub kv_rep: Seq<char>,
}

/// The characters of an optional string.
pub open spec fn opt_view(o: Option<String>) -> Option<Seq<char>> {
    match o {
        Some(s) => Some(s@),
        None => None,
    }
}

impl View for SplitConfig {
    type V = SplitModel;

    open spec fn view(&self) -> SplitModel {
        SplitModel {
            item_sep: self.item_separator@,
            kv_sep: opt_view(self.kv_separator),
            item_rep: self.item_replacement@,
            kv_rep: self.kv_replacement@,
        }
    }
}

/// Scans `s` from index `i` for occurrences of `p` (not empty), `cur` holding
/// the characters of the piece under way.
pub open spec fn scan(s: Seq<char>, p: Seq<char>, i: int, cur: Seq<char>) -> Seq<Seq<char>>
    decreases s.len() - i,
{
    if i < 0 || i >= s.len() || p.len() == 0 {
        seq![cur]
    } else if occurs_at(s, p, i) {
        seq![cur] + scan(s, p, i + p.len(), seq![])
    } else {
        scan(s, p, i + 1, cur.push(s[i]))
    }
}

/// The pieces of `s` between the leftmost non-overlapping occurrences of `p`,
/// as `str::split` gives them. An empty `p` separates every character and
/// adds an empty piece at both ends.
pub open spec fn split_pieces(s: Seq<char>, p: Seq<char>) -> Seq<Seq<char>> {
    if p.len() == 0 {
        seq![seq![]] + s.map_values(|c: char| seq![c]) + seq![seq![]]
    } else {
        scan(s, p, 0, seq![])
    }
}

/// The trimmed pieces that are not empty, in order.
pub open spec fn kept(ps: Seq<Seq<char>>) -> Seq<Seq<char>>
    decreases ps.len(),
{
    if ps.len() == 0 {
        seq![]
    } else if trimmed(ps.last()).len() > 0 {
        kept(ps.drop_last()).push(trimmed(ps.last()))
    } else {
        kept(ps.drop_last())
    }
}

/// The items of an input: trimmed, non-empty pieces between item separators.
pub open spec fn items(s: Seq<char>, sep: Seq<char>) -> Seq<Seq<char>> {
    kept(split_pieces(s, sep))
}

/// One item rewritten: key and value around the first key/value separator,
/// each trimmed, joined by the key/value replacement.
pub open spec fn render_item(item: Seq<char>, c: SplitModel) -> Seq<char> {
    match c.kv_sep {
        Some(k) => match find(item, k) {
            Some(pos) => trimmed(item.take(pos)) + c.kv_rep + trimmed(item.skip(pos + k.len())),
            None => item,
        },
        None => item,
    }
}

/// The parts one after the other, `sep` between each two of them.
pub open spec fn join(xs: Seq<Seq<char>>, sep: Seq<char>) -> Seq<char>
    decreases xs.len(),
{
    if xs.len() == 0 {
        seq![]
    } else if xs.len() == 1 {
        xs[0]
    } else {
        join(xs.drop_last(), sep) + sep + xs.last()
    }
}

/// Each item rewritten.
pub open spec fn rendered(xs: Seq<Seq<char>>, c: SplitModel) -> Seq<Seq<char>> {
    xs.map_values(|x: Seq<char>| render_item(x, c))
}

/// The whole output for an input.
pub open spec fn processed(input: Seq<char>, c: SplitModel) -> Seq<char> {
    join(rendered(items(input, c.item_sep), c), c.item_rep)
}

/// `s` with every leftmost non-overlapping occurrence of `p` replaced by `r`.
pub open spec fn replaced(s: Seq<char>, p: Seq<char>, r: Seq<char>) -> Seq<char>
    decreases s.len(),
{
    if s.len() == 0 {
        seq![]
    } else if 0 < p.len() <= s.len() && s.take(p.len() as int) == p {
        r + replaced(s.skip(p.len() as int), p, r)
    } else {
        seq![s[0]] + replaced(s.skip(1), p, r)
    }
}

/// The escapes `\n`, `\t`, `\r` and `\\` replaced, one kind after the other.
pub open spec fn unescaped(s: Seq<char>) -> Seq<char> {
    let a = replaced(s, seq!['\\', 'n'], seq!['\n']);
    let b = replaced(a, seq!['\\', 't'], seq!['\t']);
    let c = replaced(b, seq!['\\', 'r'], seq!['\r']);
    replaced(c, seq!['\\', '\\'], seq!['\\'])
}

/// `;`-separated items, one per line.
pub open spec fn path_preset() -> SplitModel {
    SplitModel { item_sep: seq![';'], kv_sep: None, item_rep: seq!['\n'], kv_rep: seq!['\t'] }
}

/// `;`-separated `name=value` items, one per line, tab between name and value.
pub open spec fn cookies_preset() -> SplitModel {
    SplitModel {
        item_sep: seq![';'],
        kv_sep: Some(seq!['=']),
        item_rep: seq!['\n'],
        kv_rep: seq!['\t'],
    }
}

/// The preset of a (lower-case) name: `path` or `cookies`.
pub open spec fn preset(name: Seq<char>) -> Option<SplitModel> {
    if name == seq!['p', 'a', 't', 'h'] {
        Some(path_preset())
    } else if name == seq!['c', 'o', 'o', 'k', 'i', 'e', 's'] {
        Some(cookies_preset())
    } else {
        None
    }
}

/// The configuration that explicit options give.
pub open spec fn args_config(a: Args) -> SplitModel {
    SplitModel {
        item_sep: a.item_separator@,
        kv_sep: opt_view(a.kv_separator),
        item_rep: unescaped(a.item_replacement@),
        kv_rep: unescaped(a.kv_replacement@),
    }
}

/// The lower-case form of a text, as `str::to_lowercase` computes it.
pub uninterp spec fn lower_of(s: Seq<char>) -> Seq<char>;

/// Relies on `str::to_lowercase`: the result depends on the characters alone.
#[verifier::external_body]
fn lowercase(s: &str) -> (r: String)
    ensures
        r@ == lower_of(s@),
{
    s.to_lowercase()
}

fn push_all(out: &mut Vec<char>, v: &Vec<char>)
    ensures
        final(out)@ == old(out)@ + v@,
{
    let mut i: usize = 0;
    while i < v.len()
        invariant
            i <= v@.len(),
            out@ == old(out)@ + v@.take(i as int),
        decreases v@.len() - i,
    {
        out.push(v[i]);
        i = i + 1;
        assert(out@ =~= old(out)@ + v@.take(i as int));
    }
    assert(v@.take(i as int) =~= v@);
}

/// `s` with every leftmost non-overlapping occurrence of `p` replaced by `r`.
fn replace_all(s: &Vec<char>, p: &Vec<char>, r: &Vec<char>) -> (out: Vec<char>)
    requires
        p@.len() > 0,
    ensures
        out@ == replaced(s@, p@, r@),
{
    let mut out: Vec<char> = Vec::new();
    let mut i: usize = 0;
    assert(s@.skip(0) =~= s@);
    assert(out@ + replaced(s@, p@, r@) =~= replaced(s@, p@, r@));
    while i < s.len()
        invariant
            i <= s@.len(),
            p@.len() > 0,
            replaced(s@, p@, r@) == out@ + replaced(s@.skip(i as int), p@, r@),
        decreases s@.len() - i,
    {
        let ghost t = s@.skip(i as int);
        if occurs_at_exec(s, p, i) {
            assert(t.take(p@.len() as int) =~= s@.subrange(i as int, i + p@.len()));
            assert(t.skip(p@.len() as int) =~= s@.skip(i + p@.len()));
            push_all(&mut out, r);
            i = i + p.len();
        } else {
            assert(p@.len() <= t.len() ==> t.take(p@.len() as int) =~= s@.subrange(
                i as int,
                i + p@.len(),
            ));
            assert(t.skip(1) =~= s@.skip(i + 1));
            assert(t[0] == s@[i as int]);
            out.push(s[i]);
            i = i + 1;
        }
    }
    assert(s@.skip(i as int).len() == 0);
    assert(out@ + seq![] =~= out@);
    out
}

/// Replaces the escapes `\n`, `\t`, `\r` and `\\` by the characters they
/// stand for, each kind in turn over the whole text.
pub fn unescape(s: &str) -> (r: String)
    ensures
        r@ == unescaped(s@),
{
    let v = chars_of(s);
    let bs: char = '\\';
    let (pn, rn) = (vec![bs, 'n'], vec!['\n']);
    let (pt, rt) = (vec![bs, 't'], vec!['\t']);
    let (pr, rr) = (vec![bs, 'r'], vec!['\r']);
    let (pb, rb) = (vec![bs, bs], vec![bs]);
    assert(pn@ =~= seq!['\\', 'n'] && rn@ =~= seq!['\n']);
    assert(pt@ =~= seq!['\\', 't'] && rt@ =~= seq!['\t']);
    assert(pr@ =~= seq!['\\', 'r'] && rr@ =~= seq!['\r']);
    assert(pb@ =~= seq!['\\', '\\'] && rb@ =~= seq!['\\']);
    let a = replace_all(&v, &pn, &rn);
    let b = replace_all(&a, &pt, &rt);
    let c = replace_all(&b, &pr, &rr);
    let d = replace_all(&c, &pb, &rb);
    string_of(&d)
}

/// The characters of each vector.
pub open spec fn views(v: Seq<Vec<char>>) -> Seq<Seq<char>> {
    v.map_values(|x: Vec<char>| x@)
}

/// The pieces of `s` between occurrences of `p`.
fn split_exec(s: &Vec<char>, p: &Vec<char>) -> (r: Vec<Vec<char>>)
    ensures
        views(r@) == split_pieces(s@, p@),
{
    let mut out: Vec<Vec<char>> = Vec::new();
    if p.len() == 0 {
        out.push(Vec::new());
        let mut i: usize = 0;
        assert(views(out@) =~= seq![seq![]] + s@.take(0).map_values(|c: char| seq![c]));
        while i < s.len()
            invariant
                i <= s@.len(),
                views(out@) == seq![seq![]] + s@.take(i as int).map_values(|c: char| seq![c]),
            decreases s@.len() - i,
        {
            let one = vec![s[i]];
            assert(one@ =~= seq![s@[i as int]]);
            let ghost before = views(out@);
            out.push(one);
            proof {
                let f = |c: char| seq![c];
                assert(views(out@) =~= before.push(seq![s@[i as int]]));
                assert(s@.take(i + 1).map_values(f) =~= s@.take(i as int).map_values(f).push(
                    seq![s@[i as int]],
                ));
                assert(seq![seq![]] + s@.take(i + 1).map_values(f) =~= (seq![seq![]] + s@.take(
                    i as int,
                ).map_values(f)).push(seq![s@[i as int]]));
            }
            i = i + 1;
        }
        out.push(Vec::new());
        assert(s@.take(i as int) =~= s@);
        assert(views(out@) =~= split_pieces(s@, p@));
        return out;
    }
    let mut cur: Vec<char> = Vec::new();
    let mut i: usize = 0;
    assert(views(out@) + scan(s@, p@, 0, cur@) =~= scan(s@, p@, 0, seq![]));
    while i < s.len()
        invariant
            i <= s@.len(),
            p@.len() > 0,
            scan(s@, p@, 0, seq![]) == views(out@) + scan(s@, p@, i as int, cur@),
        decreases s@.len() - i,
    {
        if occurs_at_exec(s, p, i) {
            let ghost before = views(out@);
            let ghost c = cur@;
            out.push(cur);
            cur = Vec::new();
            i = i + p.len();
            assert(views(out@) =~= before.push(c));
            assert(cur@ =~= seq![]);
            assert(before + (seq![c] + scan(s@, p@, i as int, seq![])) =~= before.push(c) + scan(
                s@,
                p@,
                i as int,
                seq![],
            ));
        } else {
            cur.push(s[i]);
            i = i + 1;
        }
    }
    let ghost before = views(out@);
    let ghost c = cur@;
    out.push(cur);
    assert(views(out@) =~= before + seq![c]);
    out
}

/// One item rewritten around its first key/value separator.
fn render_item_exec(
    item: &Vec<char>,
    kv_sep: &Option<Vec<char>>,
    kv_rep: &Vec<char>,
    Ghost(c): Ghost<SplitModel>,
) -> (r: Vec<char>)
    requires
        c.kv_sep == (match kv_sep {
            Some(k) => Some(k@),
            None => None::<Seq<char>>,
        }),
        c.kv_rep == kv_rep@,
    ensures
        r@ == render_item(item@, c),
{
    match kv_sep {
        Some(k) => match find_from(item, k, 0) {
            Some(pos) => {
                proof {
                    lemma_first_from_bounds(item@, k@, 0);
                    assert(occurs_at(item@, k@, pos as int));
                }
                let mut out = trim_range(item, 0, pos);
                let n = item.len();
                let value = trim_range(item, pos + k.len(), n);
                push_all(&mut out, kv_rep);
                push_all(&mut out, &value);
                assert(item@.take(pos as int) =~= item@.subrange(0, pos as int));
                assert(item@.skip(pos + k@.len()) =~= item@.subrange(
                    pos + k@.len(),
                    item@.len() as int,
                ));
                out
            },
            None => item.clone(),
        },
        None => item.clone(),
    }
}

proof fn lemma_join_push(xs: Seq<Seq<char>>, y: Seq<char>, sep: Seq<char>)
    ensures
        join(xs.push(y), sep) == (if xs.len() == 0 {
            y
        } else {
            join(xs, sep) + sep + y
        }),
{
    assert(xs.push(y).drop_last() =~= xs);
}

/// Splits `input` into items, rewrites each item's key/value separator and
/// joins the items with the item replacement.
pub fn process_input(input: &str, config: &SplitConfig) -> (r: String)
    ensures
        r@ == processed(input@, config@),
{
    let ghost c = config@;
    let s = chars_of(input);
    let sep = chars_of(config.item_separator.as_str());
    let kv_sep: Option<Vec<char>> = match &config.kv_separator {
        Some(k) => Some(chars_of(k.as_str())),
        None => None,
    };
    let item_rep = chars_of(config.item_replacement.as_str());
    let kv_rep = chars_of(config.kv_replacement.as_str());
    let pieces = split_exec(&s, &sep);
    let ghost ps = views(pieces@);
    let mut out: Vec<char> = Vec::new();
    let mut count: usize = 0;
    let mut k: usize = 0;
    assert(ps.take(0) =~= seq![]);
    while k < pieces.len()
        invariant
            k <= pieces@.len(),
            ps == views(pieces@),
            ps == split_pieces(s@, c.item_sep),
            c == config@,
            s@ == input@,
            item_rep@ == c.item_rep,
            kv_rep@ == c.kv_rep,
            c.kv_sep == (match kv_sep {
                Some(k) => Some(k@),
                None => None::<Seq<char>>,
            }),
            count == kept(ps.take(k as int)).len(),
            count <= k,
            out@ == join(rendered(kept(ps.take(k as int)), c), c.item_rep),
        decreases pieces@.len() - k,
    {
        let t = trim_range(&pieces[k], 0, pieces[k].len());
        let ghost xs = kept(ps.take(k as int));
        proof {
            assert(ps.take(k + 1).drop_last() =~= ps.take(k as int));
            assert(ps.take(k + 1).last() == pieces@[k as int]@);
            assert(pieces@[k as int]@.subrange(0, pieces@[k as int]@.len() as int)
                =~= pieces@[k as int]@);
        }
        if t.len() > 0 {
            let item = render_item_exec(&t, &kv_sep, &kv_rep, Ghost(c));
            if count > 0 {
                push_all(&mut out, &item_rep);
            }
            push_all(&mut out, &item);
            count = count + 1;
            proof {
                assert(rendered(xs.push(t@), c) =~= rendered(xs, c).push(render_item(t@, c)));
                lemma_join_push(rendered(xs, c), render_item(t@, c), c.item_rep);
                if xs.len() == 0 {
                    assert(out@ =~= render_item(t@, c));
                }
            }
        }
        k = k + 1;
    }
    assert(ps.take(k as int) =~= ps);
    string_of(&out)
}

fn clone_opt(o: &Option<String>) -> (r: Option<String>)
    ensures
        opt_view(r) == opt_view(*o),
{
    match o {
        Some(s) => Some(s.clone()),
        None => None,
    }
}

impl SplitConfig {
    /// The preset that a lower-case name stands for: `path` (items only) or
    /// `cookies` (`name=value` items), both cut at `;` and written one per line.
    pub fn from_preset(name: &str) -> (r: Option<SplitConfig>)
        ensures
            preset(name@) is None <==> r is None,
            r matches Some(c) ==> preset(name@) == Some(c@),
    {
        let v = chars_of(name);
        let path = vec!['p', 'a', 't', 'h'];
        let cookies = vec!['c', 'o', 'o', 'k', 'i', 'e', 's'];
        assert(path@ =~= seq!['p', 'a', 't', 'h']);
        assert(cookies@ =~= seq!['c', 'o', 'o', 'k', 'i', 'e', 's']);
        let is_path = same_chars(&v, &path);
        let is_cookies = same_chars(&v, &cookies);
        if !is_path && !is_cookies {
            return None;
        }
        let (semi, nl, tab, eq) = (vec![';'], vec!['\n'], vec!['\t'], vec!['=']);
        assert(semi@ =~= seq![';'] && nl@ =~= seq!['\n'] && tab@ =~= seq!['\t'] && eq@ =~= seq![
            '=',
        ]);
        let kv_separator = if is_path {
            None
        } else {
            Some(string_of(&eq))
        };
        Some(
            SplitConfig {
                item_separator: string_of(&semi),
                kv_separator,
                item_replacement: string_of(&nl),
                kv_replacement: string_of(&tab),
            },
        )
    }

    /// The preset named by `pattern`, compared without regard to case.
    pub fn from_pattern(pattern: &str) -> (r: Option<SplitConfig>)
        ensures
            preset(lower_of(pattern@)) is None <==> r is None,
            r matches Some(c) ==> preset(lower_of(pattern@)) == Some(c@),
    {
        let lowered = lowercase(pattern);
        SplitConfig::from_preset(lowered.as_str())
    }

    /// The configuration of explicit options: separators as given,
    /// replacements with their escapes resolved.
    pub fn from_args(args: &Args) -> (r: SplitConfig)
        ensures
            r@ == args_config(*args),
    {
        SplitConfig {
            item_separator: args.item_separator.clone(),
            kv_separator: clone_opt(&args.kv_separator),
            item_replacement: unescape(args.item_replacement.as_str()),
            kv_replacement: unescape(args.kv_replacement.as_str()),
        }
    }

    /// The configuration that a command line asks for: the named preset when
    /// a pattern is given and known, else the explicit options. The flag is
    /// set when a pattern was given but names no preset.
    pub fn for_args(args: &Args) -> (r: (SplitConfig, bool))
        ensures
            match args.pattern {
                Some(p) => match preset(lower_of(p@)) {
                    Some(m) => r.0@ == m && !r.1,
                    None => r.0@ == args_config(*args) && r.1,
                },
                None => r.0@ == args_config(*args) && !r.1,
            },
    {
        match &args.pattern {
            Some(p) => match SplitConfig::from_pattern(p.as_str()) {
                Some(c) => (c, false),
                None => (SplitConfig::from_args(args), true),
            },
            None => (SplitConfig::from_args(args), false),
        }
    }
}

} // verus!
