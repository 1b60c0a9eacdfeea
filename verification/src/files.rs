//! The command line's own decisions: which files are SVG icons, the order they are converted
//! in, and the usage line.
use vstd::prelude::*;
use vstd::string::StringExecFns;
use crate::paint::{last_index_of, lemma_last_index_of};
use crate::text::{chars_eq, chars_eq_ignore_ascii_case, chars_of, eq_ignore_ascii_case, slice, views};

verus! {

/// A path as the sequence of its component names.
pub open spec fn path_view(p: Vec<String>) -> Seq<Seq<char>> {
    views(p@)
}

pub open spec fn paths_view(ps: Seq<Vec<String>>) -> Seq<Seq<Seq<char>>> {
    ps.map_values(|p: Vec<String>| path_view(p))
}

/// `Path::extension` of a file name: what follows its last `.`, if there is a `.` that is not
/// the first character; `..` has none.
pub open spec fn extension(name: Seq<char>) -> Option<Seq<char>> {
    if name == ".."@ {
        None
    } else {
        match last_index_of(name, '.') {
            Some(i) => if i == 0 {
                None
            } else {
                Some(name.skip(i + 1))
            },
            None => None,
        }
    }
}

/// The path names a file whose extension is `svg`, in any ASCII case.
pub open spec fn is_svg_path(p: Seq<Seq<char>>) -> bool {
    p.len() > 0 && match extension(p.last()) {
        Some(e) => eq_ignore_ascii_case(e, "svg"@),
        None => false,
    }
}

/// File names in the order `OsStr` compares them: lexicographically by character (on UTF-8,
/// the byte order and the code point order agree).
pub open spec fn name_le(a: Seq<char>, b: Seq<char>) -> bool
    decreases a.len(),
{
    if a.len() == 0 {
        true
    } else if b.len() == 0 {
        false
    } else if a[0] != b[0] {
        a[0] < b[0]
    } else {
        name_le(a.drop_first(), b.drop_first())
    }
}

/// Paths in the order `Path` compares them: lexicographically by component.
pub open spec fn path_le(a: Seq<Seq<char>>, b: Seq<Seq<char>>) -> bool
    decreases a.len(),
{
    if a.len() == 0 {
        true
    } else if b.len() == 0 {
        false
    } else if a[0] != b[0] {
        name_le(a[0], b[0])
    } else {
        path_le(a.drop_first(), b.drop_first())
    }
}

/// The extension of a file name is what follows its last `.`: for `stem.ext` with a non-empty
/// stem and no `.` in `ext` (and the name not `..`), the extension is `ext`; so a file whose
/// name is a non-empty stem followed by `.svg` is an SVG file, however many dots the stem has.
pub proof fn law_extension_after_last_dot(stem: Seq<char>, ext: Seq<char>, p: Seq<Seq<char>>)
    requires
        stem.len() > 0,
        forall|i: int| 0 <= i < ext.len() ==> ext[i] != '.',
        stem + seq!['.'] + ext != ".."@,
    ensures
        extension(stem + seq!['.'] + ext) == Some(ext),
        p.len() > 0 && p.last() == stem + ".svg"@ ==> is_svg_path(p),
{
    lemma_extension_of(stem, ext);
    reveal_strlit("svg");
    reveal_strlit(".svg");
    reveal_strlit("..");
    let svg_name = stem + ".svg"@;
    assert(svg_name =~= stem + seq!['.'] + "svg"@);
    let svg = "svg"@;
    assert forall|i: int| 0 <= i < svg.len() implies svg[i] != '.' by {}
    if svg_name == ".."@ {
        assert(svg_name.len() == 2);
    }
    lemma_extension_of(stem, svg);
}

proof fn lemma_extension_of(stem: Seq<char>, ext: Seq<char>)
    requires
        stem.len() > 0,
        forall|i: int| 0 <= i < ext.len() ==> ext[i] != '.',
        stem + seq!['.'] + ext != ".."@,
    ensures
        extension(stem + seq!['.'] + ext) == Some(ext),
{
    let name = stem + seq!['.'] + ext;
    let d = stem.len() as int;
    lemma_last_index_of(name, '.');
    assert(name[d] == '.');
    match last_index_of(name, '.') {
        Some(i) => {
            if i > d {
                assert(name[i] == ext[i - d - 1]);
            }
        },
        None => {},
    }
    assert(name.skip(d + 1) =~= ext);
}

pub open spec fn sorted_paths(s: Seq<Seq<Seq<char>>>) -> bool {
    forall|i: int, j: int| 0 <= i < j < s.len() ==> path_le(#[trigger] s[i], #[trigger] s[j])
}

pub open spec fn svg_paths(s: Seq<Seq<Seq<char>>>) -> Seq<Seq<Seq<char>>> {
    s.filter(|p: Seq<Seq<char>>| is_svg_path(p))
}

// ---------------------------------------------------------------------------------------------
// Order lemmas
// ---------------------------------------------------------------------------------------------

pub proof fn lemma_name_le_total(a: Seq<char>, b: Seq<char>)
    ensures
        name_le(a, b) || name_le(b, a),
    decreases a.len(),
{
    if a.len() > 0 && b.len() > 0 && a[0] == b[0] {
        lemma_name_le_total(a.drop_first(), b.drop_first());
    }
}

pub proof fn lemma_name_le_trans(a: Seq<char>, b: Seq<char>, c: Seq<char>)
    requires
        name_le(a, b),
        name_le(b, c),
    ensures
        name_le(a, c),
    decreases a.len(),
{
    if a.len() > 0 && b.len() > 0 && c.len() > 0 && a[0] == b[0] && b[0] == c[0] {
        lemma_name_le_trans(a.drop_first(), b.drop_first(), c.drop_first());
    }
}

pub proof fn lemma_name_le_antisym(a: Seq<char>, b: Seq<char>)
    requires
        name_le(a, b),
        name_le(b, a),
    ensures
        a == b,
    decreases a.len(),
{
    if a.len() > 0 {
        lemma_name_le_antisym(a.drop_first(), b.drop_first());
        assert(a =~= seq![a[0]] + a.drop_first());
        assert(b =~= seq![b[0]] + b.drop_first());
    } else {
        assert(b.len() == 0);
        assert(a =~= b);
    }
}

pub proof fn lemma_path_le_total(a: Seq<Seq<char>>, b: Seq<Seq<char>>)
    ensures
        path_le(a, b) || path_le(b, a),
    decreases a.len(),
{
    if a.len() > 0 && b.len() > 0 {
        if a[0] == b[0] {
            lemma_path_le_total(a.drop_first(), b.drop_first());
        } else {
            lemma_name_le_total(a[0], b[0]);
        }
    }
}

pub proof fn lemma_path_le_trans(a: Seq<Seq<char>>, b: Seq<Seq<char>>, c: Seq<Seq<char>>)
    requires
        path_le(a, b),
        path_le(b, c),
    ensures
        path_le(a, c),
    decreases a.len(),
{
    if a.len() > 0 && b.len() > 0 && c.len() > 0 {
        if a[0] == b[0] && b[0] == c[0] {
            lemma_path_le_trans(a.drop_first(), b.drop_first(), c.drop_first());
        } else if a[0] == b[0] {
            // b[0] != c[0]: a[0] < c[0] as b[0] < c[0]
        } else if b[0] == c[0] {
        } else {
            lemma_name_le_trans(a[0], b[0], c[0]);
            if a[0] == c[0] {
                lemma_name_le_antisym(a[0], b[0]);
            }
        }
    }
}

pub proof fn lemma_path_le_antisym(a: Seq<Seq<char>>, b: Seq<Seq<char>>)
    requires
        path_le(a, b),
        path_le(b, a),
    ensures
        a == b,
    decreases a.len(),
{
    if a.len() > 0 {
        if a[0] == b[0] {
            lemma_path_le_antisym(a.drop_first(), b.drop_first());
            assert(a =~= seq![a[0]] + a.drop_first());
            assert(b =~= seq![b[0]] + b.drop_first());
        } else {
            lemma_name_le_antisym(a[0], b[0]);
        }
    } else {
        assert(a =~= b);
    }
}

/// A sorted list of paths is determined by which paths it holds: two sorted lists with the
/// same paths (counted with multiplicity) are equal. So the order in which `find_svg_files`
/// returns the files does not depend on the order in which they were listed.
pub proof fn law_sorted_paths_unique(a: Seq<Seq<Seq<char>>>, b: Seq<Seq<Seq<char>>>)
    requires
        sorted_paths(a),
        sorted_paths(b),
        a.to_multiset() == b.to_multiset(),
    ensures
        a == b,
    decreases a.len(),
{
    broadcast use vstd::seq_lib::to_multiset_contains;
    broadcast use vstd::seq_lib::to_multiset_len;

    if a.len() == 0 {
        assert(b.to_multiset().len() == 0);
        assert(b =~= a);
    } else {
        assert(a.to_multiset().len() == a.len());
        assert(b.to_multiset().len() == b.len());
        assert(b.len() == a.len());
        let x = a[0];
        let y = b[0];
        assert(b.to_multiset().count(y) > 0) by {
            assert(b.contains(y));
        }
        assert(a.contains(y));
        let k: int = choose|k: int| 0 <= k < a.len() && a[k] == y;
        if k > 0 {
            assert(path_le(a[0], a[k]));
        }
        assert(a.to_multiset().count(x) > 0) by {
            assert(a.contains(x));
        }
        assert(b.contains(x));
        let j: int = choose|j: int| 0 <= j < b.len() && b[j] == x;
        if j > 0 {
            assert(path_le(b[0], b[j]));
        }
        if x != y {
            lemma_path_le_antisym(x, y);
        }
        vstd::seq_lib::to_multiset_remove(a, 0);
        vstd::seq_lib::to_multiset_remove(b, 0);
        assert(a.remove(0) =~= a.drop_first());
        assert(b.remove(0) =~= b.drop_first());
        assert forall|i: int, j: int|
            0 <= i < j < a.drop_first().len() implies path_le(
            #[trigger] a.drop_first()[i],
            #[trigger] a.drop_first()[j],
        ) by {
            assert(path_le(a[i + 1], a[j + 1]));
        }
        assert forall|i: int, j: int|
            0 <= i < j < b.drop_first().len() implies path_le(
            #[trigger] b.drop_first()[i],
            #[trigger] b.drop_first()[j],
        ) by {
            assert(path_le(b[i + 1], b[j + 1]));
        }
        law_sorted_paths_unique(a.drop_first(), b.drop_first());
        assert(a =~= b) by {
            assert forall|i: int| 0 <= i < a.len() implies a[i] == b[i] by {
                if i > 0 {
                    assert(a[i] == a.drop_first()[i - 1]);
                    assert(b[i] == b.drop_first()[i - 1]);
                }
            }
        }
    }
}

// ---------------------------------------------------------------------------------------------
// Executable operations
// ---------------------------------------------------------------------------------------------

fn chars_name_le(a: &Vec<char>, b: &Vec<char>) -> (r: bool)
    ensures
        r == name_le(a@, b@),
{
    let mut i: usize = 0;
    assert(a@.skip(0) =~= a@);
    assert(b@.skip(0) =~= b@);
    while i < a.len() && i < b.len() && a[i] == b[i]
        invariant
            i <= a.len(),
            i <= b.len(),
            name_le(a@, b@) == name_le(a@.skip(i as int), b@.skip(i as int)),
        decreases a.len() - i,
    {
        assert(a@.skip(i as int).drop_first() =~= a@.skip(i + 1));
        assert(b@.skip(i as int).drop_first() =~= b@.skip(i + 1));
        i = i + 1;
    }
    proof {
        if i < a.len() {
            assert(a@.skip(i as int)[0] == a@[i as int]);
        }
        if i < b.len() {
            assert(b@.skip(i as int)[0] == b@[i as int]);
        }
    }
    if i == a.len() {
        true
    } else if i == b.len() {
        false
    } else {
        a[i] < b[i]
    }
}

fn paths_le(a: &Vec<String>, b: &Vec<String>) -> (r: bool)
    ensures
        r == path_le(path_view(*a), path_view(*b)),
{
    let ghost av = path_view(*a);
    let ghost bv = path_view(*b);
    proof {
        assert(av.skip(0) =~= av);
        assert(bv.skip(0) =~= bv);
    }
    let mut i: usize = 0;
    while i < a.len() && i < b.len()
        invariant
            i <= a.len(),
            i <= b.len(),
            av == path_view(*a),
            bv == path_view(*b),
            path_le(av, bv) == path_le(av.skip(i as int), bv.skip(i as int)),
        decreases a.len() - i,
    {
        let x = chars_of(a[i].as_str());
        let y = chars_of(b[i].as_str());
        assert(av.skip(i as int)[0] == x@);
        assert(bv.skip(i as int)[0] == y@);
        if !chars_eq(&x, &y) {
            return chars_name_le(&x, &y);
        }
        assert(av.skip(i as int).drop_first() =~= av.skip(i + 1));
        assert(bv.skip(i as int).drop_first() =~= bv.skip(i + 1));
        i = i + 1;
    }
    i == a.len()
}

fn svg_path(p: &Vec<String>) -> (r: bool)
    ensures
        r == is_svg_path(path_view(*p)),
{
    if p.len() == 0 {
        return false;
    }
    let name = chars_of(p[p.len() - 1].as_str());
    assert(path_view(*p).last() == name@);
    if chars_eq(&name, &chars_of("..")) {
        return false;
    }
    let mut i: usize = name.len();
    while i > 0 && name[i - 1] != '.'
        invariant
            i <= name.len(),
            forall|j: int| i <= j < name.len() ==> name@[j] != '.',
        decreases i,
    {
        i = i - 1;
    }
    proof {
        lemma_last_index_of(name@, '.');
        match last_index_of(name@, '.') {
            Some(k) => {
                if k < i - 1 {
                    assert(name@[i - 1] == '.');
                }
                if k >= i {
                    assert(name@[k] == '.');
                }
            },
            None => {
                if i > 0 {
                    assert(name@[i - 1] == '.');
                }
            },
        }
    }
    if i <= 1 {
        return false;
    }
    let ext = slice(&name, i, name.len());
    assert(ext@ =~= name@.skip(i as int));
    chars_eq_ignore_ascii_case(&ext, &chars_of("svg"))
}

/// Inserts `p` into the sorted `out` after every path that is not greater than it.
fn insert_sorted(out: &mut Vec<Vec<String>>, p: Vec<String>)
    requires
        sorted_paths(paths_view(old(out)@)),
    ensures
        sorted_paths(paths_view(final(out)@)),
        paths_view(final(out)@).to_multiset() == paths_view(old(out)@).to_multiset().insert(
            path_view(p),
        ),
{
    let ghost s = paths_view(out@);
    let ghost pv = path_view(p);
    let mut lo: usize = 0;
    let mut hi: usize = out.len();
    while lo < hi
        invariant
            lo <= hi <= out.len(),
            s == paths_view(out@),
            pv == path_view(p),
            sorted_paths(s),
            forall|k: int| 0 <= k < lo ==> path_le(#[trigger] s[k], pv),
            forall|k: int| hi <= k < s.len() ==> !path_le(#[trigger] s[k], pv),
        decreases hi - lo,
    {
        let mid: usize = lo + (hi - lo) / 2;
        assert(s[mid as int] == path_view(out@[mid as int]));
        if paths_le(&out[mid], &p) {
            assert forall|k: int| 0 <= k < mid + 1 implies path_le(#[trigger] s[k], pv) by {
                if k < mid {
                    lemma_path_le_trans(s[k], s[mid as int], pv);
                }
            }
            lo = mid + 1;
        } else {
            assert forall|k: int| mid <= k < s.len() implies !path_le(#[trigger] s[k], pv) by {
                if k > mid && path_le(s[k], pv) {
                    lemma_path_le_trans(s[mid as int], s[k], pv);
                }
            }
            hi = mid;
        }
    }
    out.insert(lo, p);
    proof {
        let t = paths_view(out@);
        assert(t =~= s.insert(lo as int, pv));
        vstd::seq_lib::to_multiset_insert(s, lo as int, pv);
        assert forall|i: int, j: int| 0 <= i < j < t.len() implies path_le(#[trigger] t[i], #[trigger] t[j]) by {
            if j < lo {
            } else if j == lo {
                assert(t[i] == s[i]);
            } else if i < lo {
                assert(t[j] == s[j - 1]);
                assert(path_le(s[i], pv));
                lemma_path_le_total(s[j - 1], pv);
                lemma_path_le_trans(s[i], pv, s[j - 1]);
            } else if i == lo {
                assert(t[j] == s[j - 1]);
                lemma_path_le_total(s[j - 1], pv);
            } else {
                assert(t[i] == s[i - 1]);
                assert(t[j] == s[j - 1]);
            }
        }
    }
}

/// The SVG files among `files` (each a path relative to the input directory, as its component
/// names), sorted in path order. A file is an SVG file when its extension is `svg` in any ASCII
/// case.
pub fn find_svg_files(files: Vec<Vec<String>>) -> (r: Vec<Vec<String>>)
    ensures
        sorted_paths(paths_view(r@)),
        paths_view(r@).to_multiset() == svg_paths(paths_view(files@)).to_multiset(),
{
    let ghost fv = paths_view(files@);
    let mut out: Vec<Vec<String>> = Vec::new();
    proof {
        assert(fv.take(0).filter(|p: Seq<Seq<char>>| is_svg_path(p)) =~= Seq::<Seq<Seq<char>>>::empty());
        assert(paths_view(out@) =~= Seq::<Seq<Seq<char>>>::empty());
    }
    for p in it: files.into_iter()
        invariant
            it.seq() == files@,
            fv == paths_view(files@),
            sorted_paths(paths_view(out@)),
            paths_view(out@).to_multiset() == svg_paths(fv.take(it.index() as int)).to_multiset(),
    {
        let ghost k: int = it.index() as int;
        assert(path_view(p) == fv[k]);
        proof {
            assert(fv.take(k + 1) =~= fv.take(k).push(fv[k]));
            fv.take(k).lemma_filter_push(fv[k], |p: Seq<Seq<char>>| is_svg_path(p));
            vstd::seq_lib::to_multiset_build(svg_paths(fv.take(k)), fv[k]);
        }
        if svg_path(&p) {
            insert_sorted(&mut out, p);
        }
    }
    assert(fv.take(fv.len() as int) =~= fv);
    out
}

#[verifier::external_type_specification]
#[verifier::external_body]
pub struct ExIoError(std::io::Error);

/// The message of an I/O error: its `Display` text.
pub fn io_error(error: std::io::Error) -> (r: String)
    ensures
        vstd::string::to_string_from_display_ensures::<std::io::Error>(&error, r),
{
    error.to_string()
}

/// The command line's usage line.
pub fn usage() -> (r: String)
    ensures
        r@ == "Usage: svg-conversion <input_dir> <output_dir> [primary_color] [tolerance] [rgb|css_vars]"@,
{
    String::from_str(
        "Usage: svg-conversion <input_dir> <output_dir> [primary_color] [tolerance] [rgb|css_vars]",
    )
}

} // verus!
