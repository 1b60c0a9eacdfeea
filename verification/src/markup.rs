//! Repairs made to the SVG markup as text: the xlink namespace before parsing, the SVG
//! namespace after serializing.
use vstd::prelude::*;
use vstd::string::StringExecFns;
use crate::text::{
    chars_contains, chars_find, chars_index_of, chars_insert, chars_of, chars_replace_all, contains,
    find, index_of, insert_at, lemma_find_from, matches_at, replace_all, slice, string_of,
};

verus! {

/// What `parse_svg_document` does to the text before parsing it.
///
/// Some published logos declare the xlink namespace as `xmlns2:xlink=`; that is corrected to
/// `xmlns:xlink=`. Then, if the text uses the `xlink:` prefix without declaring it, the
/// declaration `xmlns:xlink="http://www.w3.org/1999/xlink"` is added at the end of the root
/// `<svg` tag: the error is the message when there is no `<svg`, or no `>` after it.
pub open spec fn xlink_repaired(svg: Seq<char>) -> Result<Seq<char>, Seq<char>> {
    let normalized = replace_all(svg, "xmlns2:xlink="@, "xmlns:xlink="@);
    if contains(normalized, "xlink:"@) && !contains(normalized, "xmlns:xlink"@) {
        match find(normalized, "<svg"@) {
            None => Err("document root must be an <svg> element"@),
            Some(start) => match index_of(normalized.skip(start), '>') {
                None => Err("malformed SVG root element"@),
                Some(offset) => Ok(
                    insert_at(
                        normalized,
                        start + offset,
                        " xmlns:xlink=\"http://www.w3.org/1999/xlink\""@,
                    ),
                ),
            },
        }
    } else {
        Ok(normalized)
    }
}

/// The start tag that begins at `start`: the text from there up to its first `>` (or to the
/// end, when there is none).
pub open spec fn start_tag(xml: Seq<char>, start: int) -> Seq<char> {
    let rest = xml.skip(start);
    match index_of(rest, '>') {
        Some(end) => rest.take(end),
        None => rest,
    }
}

/// What `serialize` does to the written XML: when the root `<svg` start tag (the first `<svg`
/// of the text, up to its `>`) declares no default namespace (`xmlns=`),
/// `xmlns="http://www.w3.org/2000/svg"` is added right after `<svg`, so that standalone
/// consumers can decode the image. Declarations on descendants do not count.
pub open spec fn with_svg_namespace(xml: Seq<char>) -> Seq<char> {
    match find(xml, "<svg"@) {
        Some(offset) => if !contains(start_tag(xml, offset), "xmlns="@) {
            insert_at(xml, offset + 4, " xmlns=\"http://www.w3.org/2000/svg\""@)
        } else {
            xml
        },
        None => xml,
    }
}

/// The root `<svg` start tag of a text declares a default namespace.
pub open spec fn root_declares_namespace(xml: Seq<char>) -> bool {
    match find(xml, "<svg"@) {
        Some(offset) => contains(start_tag(xml, offset), "xmlns="@),
        None => false,
    }
}

pub open spec fn result_view(r: Result<String, String>) -> Result<Seq<char>, Seq<char>> {
    match r {
        Ok(s) => Ok(s@),
        Err(e) => Err(e@),
    }
}

pub proof fn lemma_contains_at(s: Seq<char>, pat: Seq<char>, i: int)
    requires
        matches_at(s, pat, i),
    ensures
        contains(s, pat),
{
    lemma_find_from(s, pat, 0);
}

/// After the repair, a document that uses the `xlink:` prefix declares it.
pub proof fn law_xlink_declared(svg: Seq<char>)
    requires
        xlink_repaired(svg) is Ok,
    ensures
        contains(xlink_repaired(svg)->Ok_0, "xlink:"@) ==> contains(
            xlink_repaired(svg)->Ok_0,
            "xmlns:xlink"@,
        ),
{
    let normalized = replace_all(svg, "xmlns2:xlink="@, "xmlns:xlink="@);
    if contains(normalized, "xlink:"@) && !contains(normalized, "xmlns:xlink"@) {
        let start: int = find(normalized, "<svg"@)->0;
        let offset: int = index_of(normalized.skip(start), '>')->0;
        let at: int = start + offset;
        let ins = " xmlns:xlink=\"http://www.w3.org/1999/xlink\""@;
        let t = insert_at(normalized, at, ins);
        lemma_find_from(normalized, "<svg"@, 0);
        crate::text::lemma_index_of(normalized.skip(start), '>');
        reveal_strlit(" xmlns:xlink=\"http://www.w3.org/1999/xlink\"");
        reveal_strlit("xmlns:xlink");
        assert(t.subrange(at + 1, at + 12) =~= "xmlns:xlink"@);
        lemma_contains_at(t, "xmlns:xlink"@, at + 1);
    }
}

/// When the repair adds the xlink declaration, it adds it inside the root start tag: at the
/// first `>` that follows the first `<svg` of the corrected text, and nowhere else.
pub proof fn law_xlink_inserted_in_root_tag(svg: Seq<char>)
    requires
        contains(replace_all(svg, "xmlns2:xlink="@, "xmlns:xlink="@), "xlink:"@),
        !contains(replace_all(svg, "xmlns2:xlink="@, "xmlns:xlink="@), "xmlns:xlink"@),
        xlink_repaired(svg) is Ok,
    ensures
        ({
            let n = replace_all(svg, "xmlns2:xlink="@, "xmlns:xlink="@);
            exists|start: int, p: int|
                {
                    &&& matches_at(n, "<svg"@, start)
                    &&& forall|j: int| 0 <= j < start ==> !matches_at(n, "<svg"@, j)
                    &&& start <= p < n.len()
                    &&& n[p] == '>'
                    &&& forall|j: int| start <= j < p ==> n[j] != '>'
                    &&& xlink_repaired(svg)->Ok_0 == n.take(p) + " xmlns:xlink=\"http://www.w3.org/1999/xlink\""@
                        + n.skip(p)
                }
        }),
{
    let n = replace_all(svg, "xmlns2:xlink="@, "xmlns:xlink="@);
    let start: int = find(n, "<svg"@)->0;
    let rest = n.skip(start);
    let offset: int = index_of(rest, '>')->0;
    let p = start + offset;
    lemma_find_from(n, "<svg"@, 0);
    crate::text::lemma_index_of(rest, '>');
    assert(n[p] == rest[offset]);
    assert forall|j: int| start <= j < p implies n[j] != '>' by {
        assert(n[j] == rest[j - start]);
    }
    assert(xlink_repaired(svg)->Ok_0 == n.take(p) + " xmlns:xlink=\"http://www.w3.org/1999/xlink\""@
        + n.skip(p));
}

/// The leftmost occurrence, from what the text holds.
proof fn lemma_find_is(s: Seq<char>, pat: Seq<char>, k: int)
    requires
        matches_at(s, pat, k),
        forall|j: int| 0 <= j < k ==> !matches_at(s, pat, j),
    ensures
        find(s, pat) == Some(k),
{
    lemma_find_from(s, pat, 0);
    match find(s, pat) {
        Some(k2) => {
            if k2 > k {
                assert(!matches_at(s, pat, k));
            }
        },
        None => {
            assert(!matches_at(s, pat, k));
        },
    }
}

/// Adding the SVG namespace is idempotent; after it, the root start tag of a document with an
/// `<svg` tag declares a default namespace; and a root tag that declared one is left alone.
pub proof fn law_svg_namespace(xml: Seq<char>)
    ensures
        with_svg_namespace(with_svg_namespace(xml)) == with_svg_namespace(xml),
        contains(xml, "<svg"@) ==> root_declares_namespace(with_svg_namespace(xml)),
        root_declares_namespace(xml) ==> with_svg_namespace(xml) == xml,
{
    let pat = "<svg"@;
    let ins = " xmlns=\"http://www.w3.org/2000/svg\""@;
    lemma_find_from(xml, pat, 0);
    if let Some(offset) = find(xml, pat) {
        if !contains(start_tag(xml, offset), "xmlns="@) {
            let y = insert_at(xml, offset + 4, ins);
            reveal_strlit(" xmlns=\"http://www.w3.org/2000/svg\"");
            reveal_strlit("xmlns=");
            reveal_strlit("<svg");
            assert(ins.len() == 35);
            // `<svg` is still first found at `offset`.
            assert(y.take(offset + 4) =~= xml.take(offset + 4));
            assert(y.subrange(offset, offset + 4) =~= xml.subrange(offset, offset + 4));
            assert forall|j: int| 0 <= j < offset implies !matches_at(y, pat, j) by {
                assert(!matches_at(xml, pat, j));
                assert(y.subrange(j, j + 4) =~= xml.subrange(j, j + 4));
            }
            lemma_find_is(y, pat, offset);
            // The root tag of `y` starts with `<svg` and the inserted declaration.
            let rest = y.skip(offset);
            assert forall|j: int| 0 <= j < 39 implies rest[j] != '>' by {
                if j < 4 {
                    assert(rest[j] == xml.subrange(offset, offset + 4)[j]);
                    assert(rest[j] == pat[j]);
                } else {
                    assert(rest[j] == ins[j - 4]);
                }
            }
            crate::text::lemma_index_of(rest, '>');
            let tag = start_tag(y, offset);
            match index_of(rest, '>') {
                Some(e) => {
                    if e < 39 {
                        assert(rest[e] == '>');
                    }
                },
                None => {},
            }
            assert(tag.len() >= 39);
            assert(tag.subrange(5, 11) =~= "xmlns="@) by {
                assert forall|j: int| 0 <= j < 6 implies tag.subrange(5, 11)[j] == ins[j + 1] by {
                    assert(tag[5 + j] == rest[5 + j]);
                }
            }
            lemma_contains_at(tag, "xmlns="@, 5);
        }
    }
}

/// The text of `svg` as `parse_svg_document` hands it to the XML parser, or the reason it
/// cannot be a document (see `xlink_repaired`).
pub fn repair_xlink_namespace(svg: &str) -> (r: Result<String, String>)
    ensures
        result_view(r) == xlink_repaired(svg@),
{
    let text = chars_of(svg);
    let from = chars_of("xmlns2:xlink=");
    proof {
        reveal_strlit("xmlns2:xlink=");
        assert(from@.len() > 0);
    }
    let normalized = chars_replace_all(&text, &from, &chars_of("xmlns:xlink="));
    if chars_contains(&normalized, &chars_of("xlink:")) && !chars_contains(
        &normalized,
        &chars_of("xmlns:xlink"),
    ) {
        match chars_find(&normalized, &chars_of("<svg")) {
            None => Err(String::from_str("document root must be an <svg> element")),
            Some(start) => {
                proof {
                    lemma_find_from(normalized@, "<svg"@, 0);
                }
                let tail = slice(&normalized, start, normalized.len());
                assert(tail@ =~= normalized@.skip(start as int));
                match chars_index_of(&tail, '>') {
                    None => Err(String::from_str("malformed SVG root element")),
                    Some(offset) => {
                        let repaired = chars_insert(
                            &normalized,
                            start + offset,
                            &chars_of(" xmlns:xlink=\"http://www.w3.org/1999/xlink\""),
                        );
                        Ok(string_of(&repaired))
                    },
                }
            },
        }
    } else {
        Ok(string_of(&normalized))
    }
}

/// The serialized document with the SVG namespace declared (see `with_svg_namespace`).
pub fn add_svg_namespace(xml: &str) -> (r: String)
    ensures
        r@ == with_svg_namespace(xml@),
{
    let text = chars_of(xml);
    let tag = chars_of("<svg");
    match chars_find(&text, &tag) {
        Some(offset) => {
            proof {
                lemma_find_from(text@, "<svg"@, 0);
                reveal_strlit("<svg");
                assert(tag@.len() == 4);
                assert(matches_at(text@, tag@, offset as int));
                assert(offset + 4 <= text.len());
            }
            let rest = slice(&text, offset, text.len());
            assert(rest@ =~= text@.skip(offset as int));
            let root_tag = match chars_index_of(&rest, '>') {
                Some(end) => {
                    let t = slice(&rest, 0, end);
                    assert(t@ =~= rest@.take(end as int));
                    t
                },
                None => rest,
            };
            if !chars_contains(&root_tag, &chars_of("xmlns=")) {
                let out = chars_insert(
                    &text,
                    offset + 4,
                    &chars_of(" xmlns=\"http://www.w3.org/2000/svg\""),
                );
                string_of(&out)
            } else {
                string_of(&text)
            }
        },
        None => string_of(&text),
    }
}

} // verus!
