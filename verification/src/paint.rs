//! Which properties carry paint, how a paint value is classified, and the output mode.
use vstd::prelude::*;
use vstd::string::StringExecFns;
use crate::text::{
    ascii_lower, chars_eq, chars_eq_ignore_ascii_case, chars_of, chars_starts_with, chars_trim, eq_ignore_ascii_case,
    slice, starts_with, string_of, trim,
};

verus! {

/// The presentation attributes and style properties whose value is a paint:
/// `color`, `fill`, `stroke`, `stop-color`, `flood-color` and `lighting-color`.
pub open spec fn is_color_property(name: Seq<char>) -> bool {
    ||| name == "color"@
    ||| name == "fill"@
    ||| name == "stroke"@
    ||| name == "stop-color"@
    ||| name == "flood-color"@
    ||| name == "lighting-color"@
}

/// Index of the rightmost `c` in `s`.
pub open spec fn last_index_of(s: Seq<char>, c: char) -> Option<int>
    decreases s.len(),
{
    if s.len() == 0 {
        None
    } else if s.last() == c {
        Some(s.len() - 1)
    } else {
        last_index_of(s.drop_last(), c)
    }
}

/// The part of a (possibly prefixed) XML name after its last `:`.
pub open spec fn local_name(name: Seq<char>) -> Seq<char> {
    match last_index_of(name, ':') {
        Some(i) => name.skip(i + 1),
        None => name,
    }
}

/// What a paint value asks for.
pub enum PaintKind {
    /// `none`, `transparent`, `url(...)` or `var(...)`: left as it is.
    Unpainted,
    /// `currentColor`: the primary color.
    CurrentColor,
    /// Any other value, to be read as a CSS color.
    Literal(Seq<char>),
}

/// Classifies a paint value. Keywords are matched ignoring ASCII case after trimming white
/// space; `green` stands for `#00ff00`.
pub open spec fn paint_kind(value: Seq<char>) -> PaintKind {
    let v = trim(value);
    if eq_ignore_ascii_case(v, "none"@) || eq_ignore_ascii_case(v, "transparent"@) || starts_with(
        v,
        "url("@,
    ) || starts_with(v, "var("@) {
        PaintKind::Unpainted
    } else if eq_ignore_ascii_case(v, "currentcolor"@) {
        PaintKind::CurrentColor
    } else if eq_ignore_ascii_case(v, "green"@) {
        PaintKind::Literal("#00ff00"@)
    } else {
        PaintKind::Literal(v)
    }
}

pub open spec fn is_unpainted(value: Seq<char>) -> bool {
    paint_kind(value) is Unpainted
}

/// The keywords of a paint are read ignoring ASCII case and surrounding white space: any
/// spelling of `currentColor` is the primary color, any spelling of `none` or `transparent` is
/// left alone, and any spelling of `green` is `#00ff00`.
pub proof fn law_paint_keywords_ignore_case(value: Seq<char>)
    ensures
        eq_ignore_ascii_case(trim(value), "currentcolor"@) ==> paint_kind(value) is CurrentColor,
        eq_ignore_ascii_case(trim(value), "none"@) ==> paint_kind(value) is Unpainted,
        eq_ignore_ascii_case(trim(value), "transparent"@) ==> paint_kind(value) is Unpainted,
        eq_ignore_ascii_case(trim(value), "green"@) ==> paint_kind(value) == PaintKind::Literal(
            "#00ff00"@,
        ),
{
    let v = trim(value);
    reveal_strlit("currentcolor");
    reveal_strlit("none");
    reveal_strlit("transparent");
    reveal_strlit("green");
    reveal_strlit("url(");
    reveal_strlit("var(");
    if eq_ignore_ascii_case(v, "currentcolor"@) {
        assert(ascii_lower(v[0]) == ascii_lower("currentcolor"@[0]));
        if starts_with(v, "url("@) {
            assert(v.take(4)[0] == v[0]);
        }
        if starts_with(v, "var("@) {
            assert(v.take(4)[0] == v[0]);
        }
    }
    if eq_ignore_ascii_case(v, "green"@) {
        assert(ascii_lower(v[0]) == ascii_lower("green"@[0]));
        if starts_with(v, "url("@) {
            assert(v.take(4)[0] == v[0]);
        }
        if starts_with(v, "var("@) {
            assert(v.take(4)[0] == v[0]);
        }
    }
}

/// A classified paint value.
pub enum Paint {
    Unpainted,
    CurrentColor,
    Literal(String),
}

impl Paint {
    pub open spec fn kind(&self) -> PaintKind {
        match self {
            Paint::Unpainted => PaintKind::Unpainted,
            Paint::CurrentColor => PaintKind::CurrentColor,
            Paint::Literal(s) => PaintKind::Literal(s@),
        }
    }
}

/// The two ways a recolored paint is written.
#[derive(Clone, Copy, Debug, PartialEq, Eq, Structural)]
pub enum OutputMode {
    /// `rgb(r,g,b)` values.
    Rgb,
    /// References to CSS custom properties.
    CssVars,
}

impl OutputMode {
    /// Reads an output mode name: `rgb` or `css_vars`, exactly.
    pub fn from_str(value: &str) -> (r: Result<OutputMode, String>)
        ensures
            r matches Ok(m) ==> (m == OutputMode::Rgb && value@ == "rgb"@) || (m
                == OutputMode::CssVars && value@ == "css_vars"@),
            r is Err <==> value@ != "rgb"@ && value@ != "css_vars"@,
            r matches Err(e) ==> e@ == "unsupported output mode: "@ + value@,
    {
        let v = chars_of(value);
        if chars_eq(&v, &chars_of("rgb")) {
            Ok(OutputMode::Rgb)
        } else if chars_eq(&v, &chars_of("css_vars")) {
            Ok(OutputMode::CssVars)
        } else {
            let mut message = String::from_str("unsupported output mode: ");
            message.append(value);
            Err(message)
        }
    }
}

fn word_is(v: &Vec<char>, word: &str) -> (r: bool)
    ensures
        r == (v@ == word@),
{
    chars_eq(v, &chars_of(word))
}

/// Whether a (trimmed) property name carries paint.
pub fn is_color_property_name(name: &Vec<char>) -> (r: bool)
    ensures
        r == is_color_property(name@),
{
    word_is(name, "color") || word_is(name, "fill") || word_is(name, "stroke") || word_is(
        name,
        "stop-color",
    ) || word_is(name, "flood-color") || word_is(name, "lighting-color")
}

/// `last_index_of` finds the rightmost occurrence.
pub proof fn lemma_last_index_of(s: Seq<char>, c: char)
    ensures
        match last_index_of(s, c) {
            Some(i) => 0 <= i < s.len() && s[i] == c && forall|j: int| i < j < s.len() ==> s[j] != c,
            None => forall|j: int| 0 <= j < s.len() ==> s[j] != c,
        },
    decreases s.len(),
{
    if s.len() > 0 && s.last() != c {
        lemma_last_index_of(s.drop_last(), c);
        assert forall|j: int| 0 <= j < s.len() - 1 implies s[j] == s.drop_last()[j] by {}
    }
}

/// The local part of an XML name: what follows its last `:`.
pub fn local_name_of(name: &Vec<char>) -> (r: Vec<char>)
    ensures
        r@ == local_name(name@),
{
    proof {
        lemma_last_index_of(name@, ':');
    }
    let mut i: usize = name.len();
    while i > 0 && name[i - 1] != ':'
        invariant
            i <= name.len(),
            forall|j: int| i <= j < name.len() ==> name@[j] != ':',
        decreases i,
    {
        i = i - 1;
    }
    proof {
        if i == 0 {
            if let Some(k) = last_index_of(name@, ':') {
                assert(name@[k] == ':');
            }
        } else {
            match last_index_of(name@, ':') {
                Some(k) => {
                    if k < i - 1 {
                        assert(name@[i - 1] == ':');
                    }
                },
                None => {
                    assert(name@[i - 1] == ':');
                },
            }
        }
        assert(name@.skip(0) =~= name@);
    }
    slice(name, i, name.len())
}

/// Whether the local part of `name` is `word`.
pub fn local_name_is(name: &String, word: &str) -> (r: bool)
    ensures
        r == (local_name(name@) == word@),
{
    word_is(&local_name_of(&chars_of(name.as_str())), word)
}

/// Classifies a paint value the way the converter reads it before recoloring.
pub fn classify_paint(value: &str) -> (p: Paint)
    ensures
        p.kind() == paint_kind(value@),
{
    let v = chars_trim(&chars_of(value));
    if chars_eq_ignore_ascii_case(&v, &chars_of("none")) || chars_eq_ignore_ascii_case(
        &v,
        &chars_of("transparent"),
    ) || chars_starts_with(&v, &chars_of("url(")) || chars_starts_with(&v, &chars_of("var(")) {
        Paint::Unpainted
    } else if chars_eq_ignore_ascii_case(&v, &chars_of("currentcolor")) {
        Paint::CurrentColor
    } else if chars_eq_ignore_ascii_case(&v, &chars_of("green")) {
        Paint::Literal(String::from_str("#00ff00"))
    } else {
        Paint::Literal(string_of(&v))
    }
}

} // verus!
