//! Paints inside CSS text: inline `style` attributes (`name: value; ...`) and embedded
//! stylesheets (`selector { name: value; ... } ...`).
//!
//! A *recoloring* is a list of `(paint value, replacement)` pairs; the first pair whose value
//! equals a paint decides its replacement. Paint values that are `none`, `transparent`,
//! `url(...)` or `var(...)` are never replaced.
use vstd::prelude::*;
use crate::paint::{classify_paint, is_color_property, is_color_property_name, is_unpainted, Paint};
use crate::text::{
    char_views, chars_of, chars_split, chars_split_once, chars_trim, extend, join, lemma_join_push,
    lemma_join_split, slice, split, split_once, string_of, trim, views,
};

verus! {

// ---------------------------------------------------------------------------------------------
// Specifications
// ---------------------------------------------------------------------------------------------

/// The view of a recoloring.
pub open spec fn pair_views(m: Seq<(String, String)>) -> Seq<(Seq<char>, Seq<char>)> {
    m.map_values(|p: (String, String)| (p.0@, p.1@))
}

pub open spec fn option_view(o: Option<String>) -> Option<Seq<char>> {
    match o {
        Some(s) => Some(s@),
        None => None,
    }
}

/// The replacement the first matching pair gives `key`.
pub open spec fn lookup(m: Seq<(Seq<char>, Seq<char>)>, key: Seq<char>) -> Option<Seq<char>>
    decreases m.len(),
{
    if m.len() == 0 {
        None
    } else if m[0].0 == key {
        Some(m[0].1)
    } else {
        lookup(m.drop_first(), key)
    }
}

/// What a paint value becomes: `None` when it stays as it is.
pub open spec fn recolored_paint(value: Seq<char>, m: Seq<(Seq<char>, Seq<char>)>) -> Option<
    Seq<char>,
> {
    if is_unpainted(value) {
        None
    } else {
        lookup(m, value)
    }
}

/// The paint value of one declaration `name: value`, when `name` (trimmed) is a color
/// property; the value is trimmed.
pub open spec fn decl_paint(d: Seq<char>) -> Option<Seq<char>> {
    match split_once(d, ':') {
        Some((name, value)) => if is_color_property(trim(name)) {
            Some(trim(value))
        } else {
            None
        },
        None => None,
    }
}

/// A declaration after recoloring: `name:replacement`, the name kept as written.
pub open spec fn rewrite_decl(d: Seq<char>, m: Seq<(Seq<char>, Seq<char>)>) -> Seq<char> {
    match split_once(d, ':') {
        Some((name, value)) => if is_color_property(trim(name)) {
            match recolored_paint(trim(value), m) {
                Some(r) => name + seq![':'] + r,
                None => d,
            }
        } else {
            d
        },
        None => d,
    }
}

/// The paint sites of a declaration: its paint value unless that is never recolored.
pub open spec fn decl_sites(d: Seq<char>) -> Seq<Seq<char>> {
    match decl_paint(d) {
        Some(v) => if is_unpainted(v) {
            Seq::empty()
        } else {
            seq![v]
        },
        None => Seq::empty(),
    }
}

pub open spec fn decls_sites(ds: Seq<Seq<char>>) -> Seq<Seq<char>>
    decreases ds.len(),
{
    if ds.len() == 0 {
        Seq::empty()
    } else {
        decls_sites(ds.drop_last()) + decl_sites(ds.last())
    }
}

/// Paint sites of an inline style, in order.
pub open spec fn style_sites(style: Seq<char>) -> Seq<Seq<char>> {
    decls_sites(split(style, ';'))
}

pub open spec fn rewrite_decls(ds: Seq<Seq<char>>, m: Seq<(Seq<char>, Seq<char>)>) -> Seq<
    Seq<char>,
> {
    ds.map_values(|d: Seq<char>| rewrite_decl(d, m))
}

/// An inline style after recoloring: each `;`-separated declaration rewritten.
pub open spec fn rewrite_style(style: Seq<char>, m: Seq<(Seq<char>, Seq<char>)>) -> Seq<char> {
    join(rewrite_decls(split(style, ';'), m), ';')
}

/// Paint sites of one stylesheet rule: those of the declarations after its first `{`.
pub open spec fn rule_sites(rule: Seq<char>) -> Seq<Seq<char>> {
    match split_once(rule, '{') {
        Some((_selector, body)) => style_sites(body),
        None => Seq::empty(),
    }
}

pub open spec fn rules_sites(rs: Seq<Seq<char>>) -> Seq<Seq<char>>
    decreases rs.len(),
{
    if rs.len() == 0 {
        Seq::empty()
    } else {
        rules_sites(rs.drop_last()) + rule_sites(rs.last())
    }
}

/// Paint sites of a stylesheet, in order.
pub open spec fn stylesheet_sites(sheet: Seq<char>) -> Seq<Seq<char>> {
    rules_sites(split(sheet, '}'))
}

/// A rule after recoloring: the selector kept, the declarations after `{` rewritten.
pub open spec fn rewrite_rule(rule: Seq<char>, m: Seq<(Seq<char>, Seq<char>)>) -> Seq<char> {
    match split_once(rule, '{') {
        Some((selector, body)) => selector + seq!['{'] + rewrite_style(body, m),
        None => rule,
    }
}

pub open spec fn rewrite_rules(rs: Seq<Seq<char>>, m: Seq<(Seq<char>, Seq<char>)>) -> Seq<
    Seq<char>,
> {
    rs.map_values(|r: Seq<char>| rewrite_rule(r, m))
}

/// A stylesheet after recoloring: each `}`-terminated rule rewritten.
pub open spec fn rewrite_stylesheet(sheet: Seq<char>, m: Seq<(Seq<char>, Seq<char>)>) -> Seq<
    char,
> {
    join(rewrite_rules(split(sheet, '}'), m), '}')
}

// ---------------------------------------------------------------------------------------------
// Laws
// ---------------------------------------------------------------------------------------------

/// `none`, `transparent`, `url(...)` and `var(...)` paints are never replaced, whatever the
/// recoloring says.
pub proof fn law_unpainted_values_are_kept(value: Seq<char>, m: Seq<(Seq<char>, Seq<char>)>)
    requires
        is_unpainted(value),
    ensures
        recolored_paint(value, m) is None,
{
}

/// No pair of the recoloring names any of `sites`.
pub open spec fn none_named(m: Seq<(Seq<char>, Seq<char>)>, sites: Seq<Seq<char>>) -> bool {
    forall|k: int| 0 <= k < sites.len() ==> lookup(m, #[trigger] sites[k]) is None
}

/// A declaration whose paint no pair names is kept as it is.
pub proof fn lemma_rewrite_decl_unnamed(d: Seq<char>, m: Seq<(Seq<char>, Seq<char>)>)
    requires
        none_named(m, decl_sites(d)),
    ensures
        rewrite_decl(d, m) == d,
{
    if let Some((name, value)) = split_once(d, ':') {
        if is_color_property(trim(name)) && !is_unpainted(trim(value)) {
            assert(decl_sites(d)[0] == trim(value));
        }
    }
}

/// A recoloring that names none of `a + b` names none of `a` and none of `b`.
pub proof fn lemma_none_named_concat(
    m: Seq<(Seq<char>, Seq<char>)>,
    a: Seq<Seq<char>>,
    b: Seq<Seq<char>>,
)
    requires
        none_named(m, a + b),
    ensures
        none_named(m, a),
        none_named(m, b),
{
    assert forall|k: int| 0 <= k < a.len() implies lookup(m, #[trigger] a[k]) is None by {
        assert((a + b)[k] == a[k]);
    }
    assert forall|k: int| 0 <= k < b.len() implies lookup(m, #[trigger] b[k]) is None by {
        assert((a + b)[a.len() + k] == b[k]);
    }
}

/// Rewriting a list of declarations changes none of them when no pair names any of their
/// paint sites.
pub proof fn lemma_rewrite_decls_unnamed(ds: Seq<Seq<char>>, m: Seq<(Seq<char>, Seq<char>)>)
    requires
        none_named(m, decls_sites(ds)),
    ensures
        rewrite_decls(ds, m) == ds,
    decreases ds.len(),
{
    if ds.len() > 0 {
        let init = ds.drop_last();
        lemma_none_named_concat(m, decls_sites(init), decl_sites(ds.last()));
        lemma_rewrite_decls_unnamed(init, m);
        lemma_rewrite_decl_unnamed(ds.last(), m);
        assert forall|k: int| 0 <= k < ds.len() implies rewrite_decls(ds, m)[k] == ds[k] by {
            if k < ds.len() - 1 {
                assert(rewrite_decls(init, m)[k] == init[k]);
            }
        }
        assert(rewrite_decls(ds, m) =~= ds);
    }
}

/// An inline style none of whose paint sites the recoloring names is kept as it is.
pub proof fn law_style_kept_when_unnamed(style: Seq<char>, m: Seq<(Seq<char>, Seq<char>)>)
    requires
        none_named(m, style_sites(style)),
    ensures
        rewrite_style(style, m) == style,
{
    lemma_rewrite_decls_unnamed(split(style, ';'), m);
    lemma_join_split(style, ';');
}

proof fn lemma_rewrite_rule_unnamed(r: Seq<char>, m: Seq<(Seq<char>, Seq<char>)>)
    requires
        none_named(m, rule_sites(r)),
    ensures
        rewrite_rule(r, m) == r,
{
    if let Some((selector, body)) = split_once(r, '{') {
        law_style_kept_when_unnamed(body, m);
        crate::text::lemma_index_of(r, '{');
        assert(selector + seq!['{'] + body =~= r);
    }
}

proof fn lemma_rewrite_rules_unnamed(rs: Seq<Seq<char>>, m: Seq<(Seq<char>, Seq<char>)>)
    requires
        none_named(m, rules_sites(rs)),
    ensures
        rewrite_rules(rs, m) == rs,
    decreases rs.len(),
{
    if rs.len() > 0 {
        let init = rs.drop_last();
        lemma_none_named_concat(m, rules_sites(init), rule_sites(rs.last()));
        lemma_rewrite_rules_unnamed(init, m);
        lemma_rewrite_rule_unnamed(rs.last(), m);
        assert forall|k: int| 0 <= k < rs.len() implies rewrite_rules(rs, m)[k] == rs[k] by {
            if k < rs.len() - 1 {
                assert(rewrite_rules(init, m)[k] == init[k]);
            }
        }
        assert(rewrite_rules(rs, m) =~= rs);
    }
}

/// A stylesheet none of whose paint sites the recoloring names is kept as it is.
pub proof fn law_stylesheet_kept_when_unnamed(sheet: Seq<char>, m: Seq<(Seq<char>, Seq<char>)>)
    requires
        none_named(m, stylesheet_sites(sheet)),
    ensures
        rewrite_stylesheet(sheet, m) == sheet,
{
    lemma_rewrite_rules_unnamed(split(sheet, '}'), m);
    lemma_join_split(sheet, '}');
}

// ---------------------------------------------------------------------------------------------
// Executable operations
// ---------------------------------------------------------------------------------------------

/// The replacement the first pair with key `key` gives.
pub fn lookup_replacement(m: &Vec<(String, String)>, key: &String) -> (r: Option<String>)
    ensures
        option_view(r) == lookup(pair_views(m@), key@),
{
    let mut i: usize = 0;
    assert(pair_views(m@).skip(0) =~= pair_views(m@));
    while i < m.len()
        invariant
            i <= m.len(),
            lookup(pair_views(m@), key@) == lookup(pair_views(m@).skip(i as int), key@),
        decreases m.len() - i,
    {
        let ghost rest = pair_views(m@).skip(i as int);
        assert(rest[0] == (m@[i as int].0@, m@[i as int].1@));
        if m[i].0 == *key {
            return Some(m[i].1.clone());
        }
        assert(rest.drop_first() =~= pair_views(m@).skip(i + 1));
        i = i + 1;
    }
    None
}

/// What a paint value becomes under a recoloring (`None`: it stays).
pub fn recolor_paint(value: &String, m: &Vec<(String, String)>) -> (r: Option<String>)
    ensures
        option_view(r) == recolored_paint(value@, pair_views(m@)),
{
    match classify_paint(value.as_str()) {
        Paint::Unpainted => None,
        _ => lookup_replacement(m, value),
    }
}

fn decl_paint_exec(d: &Vec<char>) -> (r: Option<Vec<char>>)
    ensures
        match r {
            Some(v) => decl_paint(d@) == Some(v@),
            None => decl_paint(d@) is None,
        },
{
    match chars_split_once(d, ':') {
        Some((name, value)) => {
            if is_color_property_name(&chars_trim(&name)) {
                Some(chars_trim(&value))
            } else {
                None
            }
        },
        None => None,
    }
}

fn decl_sites_exec(d: &Vec<char>, out: &mut Vec<String>)
    ensures
        views(final(out)@) == views(old(out)@) + decl_sites(d@),
{
    let ghost o0 = out@;
    match decl_paint_exec(d) {
        Some(v) => {
            let value = string_of(&v);
            match classify_paint(value.as_str()) {
                Paint::Unpainted => {
                    assert(views(out@) =~= views(o0) + decl_sites(d@));
                },
                _ => {
                    out.push(value);
                    assert(views(out@) =~= views(o0) + decl_sites(d@));
                },
            }
        },
        None => {
            assert(views(out@) =~= views(o0) + decl_sites(d@));
        },
    }
}

fn rewrite_decl_exec(d: &Vec<char>, m: &Vec<(String, String)>) -> (r: Vec<char>)
    ensures
        r@ == rewrite_decl(d@, pair_views(m@)),
{
    match chars_split_once(d, ':') {
        Some((name, value)) => {
            if is_color_property_name(&chars_trim(&name)) {
                let v = string_of(&chars_trim(&value));
                match recolor_paint(&v, m) {
                    Some(replacement) => {
                        let mut r = name;
                        r.push(':');
                        extend(&mut r, &chars_of(replacement.as_str()));
                        r
                    },
                    None => slice(d, 0, d.len()),
                }
            } else {
                slice(d, 0, d.len())
            }
        },
        None => slice(d, 0, d.len()),
    }
}

/// Appends the paint sites of an inline style.
fn style_sites_exec(style: &Vec<char>, out: &mut Vec<String>)
    ensures
        views(final(out)@) == views(old(out)@) + style_sites(style@),
{
    let pieces = chars_split(style, ';');
    let ghost ps = split(style@, ';');
    let ghost o0 = out@;
    let mut i: usize = 0;
    while i < pieces.len()
        invariant
            i <= pieces.len(),
            char_views(pieces@) == ps,
            views(out@) == views(o0) + decls_sites(ps.take(i as int)),
        decreases pieces.len() - i,
    {
        assert(pieces@[i as int]@ == ps[i as int]);
        decl_sites_exec(&pieces[i], out);
        assert(ps.take(i + 1).drop_last() =~= ps.take(i as int));
        assert(views(out@) =~= views(o0) + decls_sites(ps.take(i + 1)));
        i = i + 1;
    }
    assert(ps.take(pieces.len() as int) =~= ps);
}

fn rewrite_style_exec(style: &Vec<char>, m: &Vec<(String, String)>) -> (r: Vec<char>)
    ensures
        r@ == rewrite_style(style@, pair_views(m@)),
{
    let pieces = chars_split(style, ';');
    let ghost ps = split(style@, ';');
    let ghost mv = pair_views(m@);
    let mut out: Vec<char> = Vec::new();
    let mut i: usize = 0;
    while i < pieces.len()
        invariant
            i <= pieces.len(),
            char_views(pieces@) == ps,
            mv == pair_views(m@),
            out@ == join(rewrite_decls(ps.take(i as int), mv), ';'),
        decreases pieces.len() - i,
    {
        assert(pieces@[i as int]@ == ps[i as int]);
        let piece = rewrite_decl_exec(&pieces[i], m);
        proof {
            assert(rewrite_decls(ps.take(i + 1), mv) =~= rewrite_decls(ps.take(i as int), mv).push(
                rewrite_decl(ps[i as int], mv),
            ));
            lemma_join_push(rewrite_decls(ps.take(i as int), mv), ';', piece@);
        }
        if i > 0 {
            out.push(';');
        }
        extend(&mut out, &piece);
        i = i + 1;
    }
    assert(ps.take(pieces.len() as int) =~= ps);
    out
}

fn rule_sites_exec(rule: &Vec<char>, out: &mut Vec<String>)
    ensures
        views(final(out)@) == views(old(out)@) + rule_sites(rule@),
{
    match chars_split_once(rule, '{') {
        Some((_selector, body)) => style_sites_exec(&body, out),
        None => {
            assert(views(out@) =~= views(out@) + rule_sites(rule@));
        },
    }
}

fn rewrite_rule_exec(rule: &Vec<char>, m: &Vec<(String, String)>) -> (r: Vec<char>)
    ensures
        r@ == rewrite_rule(rule@, pair_views(m@)),
{
    match chars_split_once(rule, '{') {
        Some((selector, body)) => {
            let mut r = selector;
            r.push('{');
            extend(&mut r, &rewrite_style_exec(&body, m));
            r
        },
        None => slice(rule, 0, rule.len()),
    }
}

fn stylesheet_sites_exec(sheet: &Vec<char>, out: &mut Vec<String>)
    ensures
        views(final(out)@) == views(old(out)@) + stylesheet_sites(sheet@),
{
    let pieces = chars_split(sheet, '}');
    let ghost ps = split(sheet@, '}');
    let ghost o0 = out@;
    let mut i: usize = 0;
    while i < pieces.len()
        invariant
            i <= pieces.len(),
            char_views(pieces@) == ps,
            views(out@) == views(o0) + rules_sites(ps.take(i as int)),
        decreases pieces.len() - i,
    {
        assert(pieces@[i as int]@ == ps[i as int]);
        rule_sites_exec(&pieces[i], out);
        assert(ps.take(i + 1).drop_last() =~= ps.take(i as int));
        assert(views(out@) =~= views(o0) + rules_sites(ps.take(i + 1)));
        i = i + 1;
    }
    assert(ps.take(pieces.len() as int) =~= ps);
}

fn rewrite_stylesheet_exec(sheet: &Vec<char>, m: &Vec<(String, String)>) -> (r: Vec<char>)
    ensures
        r@ == rewrite_stylesheet(sheet@, pair_views(m@)),
{
    let pieces = chars_split(sheet, '}');
    let ghost ps = split(sheet@, '}');
    let ghost mv = pair_views(m@);
    let mut out: Vec<char> = Vec::new();
    let mut i: usize = 0;
    while i < pieces.len()
        invariant
            i <= pieces.len(),
            char_views(pieces@) == ps,
            mv == pair_views(m@),
            out@ == join(rewrite_rules(ps.take(i as int), mv), '}'),
        decreases pieces.len() - i,
    {
        assert(pieces@[i as int]@ == ps[i as int]);
        let piece = rewrite_rule_exec(&pieces[i], m);
        proof {
            assert(rewrite_rules(ps.take(i + 1), mv) =~= rewrite_rules(ps.take(i as int), mv).push(
                rewrite_rule(ps[i as int], mv),
            ));
            lemma_join_push(rewrite_rules(ps.take(i as int), mv), '}', piece@);
        }
        if i > 0 {
            out.push('}');
        }
        extend(&mut out, &piece);
        i = i + 1;
    }
    assert(ps.take(pieces.len() as int) =~= ps);
    out
}

// ---------------------------------------------------------------------------------------------
// Public entry points
// ---------------------------------------------------------------------------------------------

/// The paint values of an inline `style` attribute that may be recolored, in order: for each
/// `;`-separated declaration `name:value` whose trimmed name is a color property, the trimmed
/// value, unless it is `none`, `transparent`, `url(...)` or `var(...)`.
pub fn style_declarations(style: &str) -> (r: Vec<String>)
    ensures
        views(r@) == style_sites(style@),
{
    let mut out: Vec<String> = Vec::new();
    style_sites_exec(&chars_of(style), &mut out);
    assert(views(out@) =~= Seq::<Seq<char>>::empty() + style_sites(style@));
    out
}

/// The paint values of an embedded stylesheet that may be recolored, in order, rule by rule.
pub fn stylesheet_declarations(stylesheet: &str) -> (r: Vec<String>)
    ensures
        views(r@) == stylesheet_sites(stylesheet@),
{
    let mut out: Vec<String> = Vec::new();
    stylesheet_sites_exec(&chars_of(stylesheet), &mut out);
    assert(views(out@) =~= Seq::<Seq<char>>::empty() + stylesheet_sites(stylesheet@));
    out
}

/// An inline `style` attribute after recoloring.
pub fn transform_style(style: &str, recoloring: &Vec<(String, String)>) -> (r: String)
    ensures
        r@ == rewrite_style(style@, pair_views(recoloring@)),
{
    string_of(&rewrite_style_exec(&chars_of(style), recoloring))
}

/// An embedded stylesheet after recoloring.
pub fn transform_stylesheet(stylesheet: &str, recoloring: &Vec<(String, String)>) -> (r: String)
    ensures
        r@ == rewrite_stylesheet(stylesheet@, pair_views(recoloring@)),
{
    string_of(&rewrite_stylesheet_exec(&chars_of(stylesheet), recoloring))
}

} // verus!
