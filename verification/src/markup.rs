//! Wiki-markup scanning: comment stripping, the redirect directive, and the
//! disambiguation and soft-redirect template markers.
//!
//! Each predicate mirrors the corresponding piece of the page grammar: a
//! template invocation is `{{`, a marker name, and then a parameter or
//! closing delimiter; a markup comment runs from `<!--` to the first `-->`.

use vstd::prelude::*;
use crate::chars::ascii_eq;
use crate::chars::ascii_eq_at;
use crate::chars::ascii_eq_at_exec;
use crate::chars::chars_of;
use crate::chars::is_space;
use crate::canon::spec_trim_start;

verus! {

/// Whether a comment opener `<!--` stands at position `i`.
pub open spec fn comment_open_at(s: Seq<char>, i: int) -> bool {
    &&& 0 <= i
    &&& i + 4 <= s.len()
    &&& s[i] == '<'
    &&& s[i + 1] == '!'
    &&& s[i + 2] == '-'
    &&& s[i + 3] == '-'
}

/// Whether a comment closer `-->` stands at position `i`.
pub open spec fn comment_close_at(s: Seq<char>, i: int) -> bool {
    &&& 0 <= i
    &&& i + 3 <= s.len()
    &&& s[i] == '-'
    &&& s[i + 1] == '-'
    &&& s[i + 2] == '>'
}

/// The position of the first comment closer at or after `j`, if any.
pub open spec fn find_comment_close(s: Seq<char>, j: int) -> Option<int>
    decreases s.len() - j,
{
    if j < 0 || j + 3 > s.len() {
        None
    } else if comment_close_at(s, j) {
        Some(j)
    } else {
        find_comment_close(s, j + 1)
    }
}

/// What remains of `s` from position `i` once every comment region, from an
/// opener to the first closer after it, is removed. An opener without a
/// closer is left as it stands.
pub open spec fn spec_strip_comments_from(s: Seq<char>, i: int) -> Seq<char>
    decreases s.len() - i,
{
    if i < 0 || i >= s.len() {
        Seq::empty()
    } else if comment_open_at(s, i) {
        match find_comment_close(s, i + 4) {
            Some(j) => if i + 4 <= j && j + 3 <= s.len() {
                spec_strip_comments_from(s, j + 3)
            } else {
                s.skip(i)
            },
            None => s.skip(i),
        }
    } else {
        seq![s[i]] + spec_strip_comments_from(s, i + 1)
    }
}

/// `s` with every markup-comment region removed.
pub open spec fn spec_strip_comments(s: Seq<char>) -> Seq<char> {
    spec_strip_comments_from(s, 0)
}

/// Decides whether a comment opener stands at `i`.
fn comment_open_exec(s: &Vec<char>, i: usize) -> (r: bool)
    ensures
        r == comment_open_at(s@, i as int),
{
    i < s.len() && s.len() - i >= 4 && s[i] == '<' && s[i + 1] == '!' && s[i + 2] == '-'
        && s[i + 3] == '-'
}

/// Decides whether a comment closer stands at `i`.
fn comment_close_exec(s: &Vec<char>, i: usize) -> (r: bool)
    ensures
        r == comment_close_at(s@, i as int),
{
    i < s.len() && s.len() - i >= 3 && s[i] == '-' && s[i + 1] == '-' && s[i + 2] == '>'
}

/// Removes every markup-comment region from the text.
pub fn strip_comments(s: &Vec<char>) -> (r: Vec<char>)
    ensures
        r@ == spec_strip_comments(s@),
{
    let mut r: Vec<char> = Vec::new();
    let mut i: usize = 0;
    proof {
        assert(r@ + spec_strip_comments_from(s@, 0) =~= spec_strip_comments_from(s@, 0));
    }
    while i < s.len()
        invariant
            0 <= i <= s.len(),
            spec_strip_comments(s@) == r@ + spec_strip_comments_from(s@, i as int),
        decreases s.len() - i,
    {
        if comment_open_exec(s, i) {
            let mut j: usize = i + 4;
            while j < s.len() && !comment_close_exec(s, j)
                invariant
                    i + 4 <= j,
                    find_comment_close(s@, i + 4) == find_comment_close(s@, j as int),
                decreases s.len() - j,
            {
                j += 1;
            }
            if j < s.len() && s.len() - j >= 3 {
                proof {
                    assert(comment_close_at(s@, j as int));
                    assert(find_comment_close(s@, i + 4) == Some(j as int));
                }
                i = j + 3;
            } else {
                proof {
                    assert(find_comment_close(s@, j as int) is None);
                    assert(find_comment_close(s@, i + 4) is None);
                    assert(spec_strip_comments_from(s@, i as int) == s@.skip(i as int));
                }
                while i < s.len()
                    invariant
                        0 <= i <= s.len(),
                        spec_strip_comments(s@) == r@ + s@.skip(i as int),
                    decreases s.len() - i,
                {
                    proof {
                        assert(s@.skip(i as int) =~= seq![s@[i as int]] + s@.skip(i + 1));
                    }
                    r.push(s[i]);
                    i += 1;
                }
                proof {
                    assert(s@.skip(s@.len() as int) =~= Seq::<char>::empty());
                    assert(r@ + Seq::<char>::empty() =~= r@);
                }
                return r;
            }
        } else {
            proof {
                assert(spec_strip_comments_from(s@, i as int) == seq![s@[i as int]]
                    + spec_strip_comments_from(s@, i + 1));
            }
            r.push(s[i]);
            i += 1;
        }
    }
    proof {
        assert(r@ + Seq::<char>::empty() =~= r@);
    }
    r
}

/// The redirect directive keyword.
pub open spec fn kw_redirect() -> Seq<char> {
    "#redirect"@
}

/// Whether the text, after leading whitespace, begins with the redirect
/// directive, compared up to ASCII case.
pub open spec fn spec_is_redirect(s: Seq<char>) -> bool {
    ascii_eq_at(spec_trim_start(s), 0, kw_redirect())
}

/// Decides whether the text is a hard redirect page.
pub fn is_redirect(s: &Vec<char>) -> (r: bool)
    ensures
        r == spec_is_redirect(s@),
{
    let mut a: usize = 0;
    proof {
        assert(s@.skip(0) =~= s@);
    }
    while a < s.len() && is_space(s[a])
        invariant
            0 <= a <= s.len(),
            spec_trim_start(s@) == spec_trim_start(s@.skip(a as int)),
        decreases s.len() - a,
    {
        proof {
            assert(s@.skip(a as int)[0] == s@[a as int]);
            assert(s@.skip(a as int).skip(1) =~= s@.skip(a + 1));
        }
        a += 1;
    }
    proof {
        if a == s.len() {
            assert(s@.skip(a as int) =~= Seq::<char>::empty());
            assert(spec_trim_start(s@) =~= s@.skip(a as int));
        } else {
            assert(s@.skip(a as int)[0] == s@[a as int]);
            assert(spec_trim_start(s@) == s@.skip(a as int));
        }
    }
    let pat = chars_of("#redirect");
    let r = ascii_eq_at_exec(s, a, &pat);
    proof {
        let t = s@.skip(a as int);
        assert(ascii_eq_at(s@, a as int, kw_redirect()) == ascii_eq_at(t, 0, kw_redirect())) by {
            if ascii_eq_at(t, 0, kw_redirect()) {
                assert forall|k: int| 0 <= k < kw_redirect().len() implies ascii_eq(
                    s@[a + k],
                    kw_redirect()[k],
                ) by {
                    assert(t[k] == s@[a + k]);
                    assert(ascii_eq(t[0 + k], kw_redirect()[k]));
                }
            }
            if ascii_eq_at(s@, a as int, kw_redirect()) {
                assert forall|k: int| 0 <= k < kw_redirect().len() implies ascii_eq(
                    t[k],
                    kw_redirect()[k],
                ) by {
                    assert(t[k] == s@[a + k]);
                    assert(ascii_eq(s@[a + k], kw_redirect()[k]));
                }
            }
        }
    }
    r
}

/// Whether a template opener `{{` stands at position `i`.
pub open spec fn tmpl_open_at(s: Seq<char>, i: int) -> bool {
    &&& 0 <= i
    &&& i + 2 <= s.len()
    &&& s[i] == '{'
    &&& s[i + 1] == '{'
}

/// Whether a template parameter or closing delimiter (`#`, `|` or `}}`)
/// stands at position `i`.
pub open spec fn tmpl_delim_at(s: Seq<char>, i: int) -> bool {
    &&& 0 <= i
    &&& ((i < s.len() && (s[i] == '#' || s[i] == '|')) || (i + 2 <= s.len() && s[i] == '}'
        && s[i + 1] == '}'))
}

/// Decides whether a template delimiter stands at `i`.
fn tmpl_delim_exec(s: &Vec<char>, i: usize) -> (r: bool)
    ensures
        r == tmpl_delim_at(s@, i as int),
{
    (i < s.len() && (s[i] == '#' || s[i] == '|')) || (i < s.len() && s.len() - i >= 2
        && s[i] == '}' && s[i + 1] == '}')
}

/// Whether the marker name occurs at `i`, up to ASCII case, followed by a
/// template delimiter.
pub open spec fn name_then_delim_at(s: Seq<char>, i: int, name: Seq<char>) -> bool {
    ascii_eq_at(s, i, name) && tmpl_delim_at(s, i + name.len())
}

/// Decides `name_then_delim_at`.
fn name_delim_exec(s: &Vec<char>, i: usize, name: &Vec<char>) -> (r: bool)
    ensures
        r == name_then_delim_at(s@, i as int, name@),
{
    if ascii_eq_at_exec(s, i, name) {
        let n = s.len();
        proof {
            assert(i + name@.len() <= n as int);
        }
        tmpl_delim_exec(s, i + name.len())
    } else {
        false
    }
}

/// Characters that may not occur in the free-form part of a disambiguation
/// marker name.
pub open spec fn excluded_tmpl_char(c: char) -> bool {
    c == '|' || c == '{' || c == '}' || c == '#'
}

/// The generic disambiguation marker: any run of permitted characters, then
/// the word `disambiguation`, an optional ` cleanup`, and a delimiter.
pub open spec fn generic_disambig_at(s: Seq<char>, i: int) -> bool {
    exists|k: int|
        #![trigger ascii_eq_at(s, k, kw_disambiguation())]
        {
            &&& i <= k <= s.len()
            &&& (forall|j: int| i <= j < k ==> !excluded_tmpl_char(s[j]))
            &&& ascii_eq_at(s, k, kw_disambiguation())
            &&& (tmpl_delim_at(s, k + 14) || (ascii_eq_at(s, k + 14, kw_cleanup())
                && tmpl_delim_at(s, k + 22)))
        }
}

/// The word of the generic disambiguation marker.
pub open spec fn kw_disambiguation() -> Seq<char> {
    "disambiguation"@
}

/// The optional suffix of the generic disambiguation marker.
pub open spec fn kw_cleanup() -> Seq<char> {
    " cleanup"@
}

/// Whether one of the disambiguation marker names, fixed or generic, stands
/// at position `i` (just after a template opener).
pub open spec fn disambig_marker_at(s: Seq<char>, i: int) -> bool {
    ||| name_then_delim_at(s, i, "dis"@)
    ||| name_then_delim_at(s, i, "disam"@)
    ||| name_then_delim_at(s, i, "disamb"@)
    ||| name_then_delim_at(s, i, "disambig"@)
    ||| name_then_delim_at(s, i, "dab"@)
    ||| name_then_delim_at(s, i, "hndis"@)
    ||| name_then_delim_at(s, i, "hndisambig"@)
    ||| name_then_delim_at(s, i, "hndab"@)
    ||| name_then_delim_at(s, i, "mathdab"@)
    ||| name_then_delim_at(s, i, "geodis"@)
    ||| name_then_delim_at(s, i, "geo-dis"@)
    ||| name_then_delim_at(s, i, "geodab"@)
    ||| name_then_delim_at(s, i, "geodisambig"@)
    ||| name_then_delim_at(s, i, "roaddis"@)
    ||| name_then_delim_at(s, i, "schooldis"@)
    ||| generic_disambig_at(s, i)
}

/// Whether the text carries a disambiguation template marker anywhere.
pub open spec fn spec_is_disambig(s: Seq<char>) -> bool {
    exists|i: int| #[trigger] tmpl_open_at(s, i) && disambig_marker_at(s, i + 2)
}

/// Decides whether a disambiguation marker stands at `p`.
#[verifier::loop_isolation(false)]
fn disambig_marker_exec(s: &Vec<char>, p: usize) -> (r: bool)
    ensures
        r == disambig_marker_at(s@, p as int),
{
    if name_delim_exec(s, p, &chars_of("dis")) {
        return true;
    }
    if name_delim_exec(s, p, &chars_of("disam")) {
        return true;
    }
    if name_delim_exec(s, p, &chars_of("disamb")) {
        return true;
    }
    if name_delim_exec(s, p, &chars_of("disambig")) {
        return true;
    }
    if name_delim_exec(s, p, &chars_of("dab")) {
        return true;
    }
    if name_delim_exec(s, p, &chars_of("hndis")) {
        return true;
    }
    if name_delim_exec(s, p, &chars_of("hndisambig")) {
        return true;
    }
    if name_delim_exec(s, p, &chars_of("hndab")) {
        return true;
    }
    if name_delim_exec(s, p, &chars_of("mathdab")) {
        return true;
    }
    if name_delim_exec(s, p, &chars_of("geodis")) {
        return true;
    }
    if name_delim_exec(s, p, &chars_of("geo-dis")) {
        return true;
    }
    if name_delim_exec(s, p, &chars_of("geodab")) {
        return true;
    }
    if name_delim_exec(s, p, &chars_of("geodisambig")) {
        return true;
    }
    if name_delim_exec(s, p, &chars_of("roaddis")) {
        return true;
    }
    if name_delim_exec(s, p, &chars_of("schooldis")) {
        return true;
    }
    let dis = chars_of("disambiguation");
    let cleanup = chars_of(" cleanup");
    proof {
        reveal_strlit("disambiguation");
        reveal_strlit(" cleanup");
    }
    if p > s.len() {
        proof {
            assert(!generic_disambig_at(s@, p as int));
        }
        return false;
    }
    let mut k: usize = p;
    while k < s.len()
        invariant
            p <= k <= s.len(),
            dis@ == kw_disambiguation(),
            cleanup@ == kw_cleanup(),
            dis@.len() == 14,
            cleanup@.len() == 8,
            forall|j: int| p <= j < k ==> !excluded_tmpl_char(s@[j]),
            forall|m: int|
                p <= m < k ==> !(#[trigger] ascii_eq_at(s@, m, kw_disambiguation())
                    && (tmpl_delim_at(s@, m + 14) || (ascii_eq_at(s@, m + 14, kw_cleanup())
                        && tmpl_delim_at(s@, m + 22)))),
        decreases s.len() - k,
    {
        if ascii_eq_at_exec(s, k, &dis) {
            if tmpl_delim_exec(s, k + 14) {
                return true;
            }
            if ascii_eq_at_exec(s, k + 14, &cleanup) {
                if tmpl_delim_exec(s, k + 22) {
                    return true;
                }
            }
        }
        if s[k] == '|' || s[k] == '{' || s[k] == '}' || s[k] == '#' {
            proof {
                assert forall|m: int|
                    !(#[trigger] ascii_eq_at(s@, m, kw_disambiguation()) && p <= m <= s@.len()
                        && (forall|j: int| p <= j < m ==> !excluded_tmpl_char(s@[j]))
                        && (tmpl_delim_at(s@, m + 14) || (ascii_eq_at(s@, m + 14, kw_cleanup())
                            && tmpl_delim_at(s@, m + 22)))) by {
                    if p <= m <= s@.len() && (forall|j: int| p <= j < m ==> !excluded_tmpl_char(
                        s@[j],
                    )) {
                        if m > k {
                            assert(excluded_tmpl_char(s@[k as int]));
                        }
                    }
                }
                assert(!generic_disambig_at(s@, p as int));
            }
            return false;
        }
        k += 1;
    }
    proof {
        assert forall|m: int|
            !(#[trigger] ascii_eq_at(s@, m, kw_disambiguation()) && p <= m <= s@.len()
                && (forall|j: int| p <= j < m ==> !excluded_tmpl_char(s@[j]))
                && (tmpl_delim_at(s@, m + 14) || (ascii_eq_at(s@, m + 14, kw_cleanup())
                    && tmpl_delim_at(s@, m + 22)))) by {
            if p <= m < s@.len() {
            }
        }
        assert(!generic_disambig_at(s@, p as int));
    }
    false
}

/// Decides whether the text is a disambiguation page.
pub fn is_disambiguation(s: &Vec<char>) -> (r: bool)
    ensures
        r == spec_is_disambig(s@),
{
    let mut i: usize = 0;
    while i < s.len()
        invariant
            0 <= i <= s.len(),
            forall|m: int|
                0 <= m < i ==> !(#[trigger] tmpl_open_at(s@, m) && disambig_marker_at(s@, m + 2)),
        decreases s.len() - i,
    {
        if s[i] == '{' && i + 1 < s.len() && s[i + 1] == '{' {
            if disambig_marker_exec(s, i + 2) {
                proof {
                    assert(tmpl_open_at(s@, i as int) && disambig_marker_at(s@, i + 2));
                }
                return true;
            }
        }
        proof {
            assert(!(tmpl_open_at(s@, i as int) && disambig_marker_at(s@, i + 2)));
        }
        i += 1;
    }
    proof {
        assert forall|m: int| !(#[trigger] tmpl_open_at(s@, m) && disambig_marker_at(s@, m + 2))
            by {
            if 0 <= m < s@.len() {
            }
        }
    }
    false
}

/// Whether one of the soft-redirect marker names stands at position `i`.
pub open spec fn soft_redirect_marker_at(s: Seq<char>, i: int) -> bool {
    ||| name_then_delim_at(s, i, "wiktionary redirect"@)
    ||| name_then_delim_at(s, i, "wi"@)
    ||| name_then_delim_at(s, i, "wtr"@)
    ||| name_then_delim_at(s, i, "soft redirect with wikidata item"@)
    ||| name_then_delim_at(s, i, "wikidata redirect"@)
}

/// Whether the text carries a soft-redirect template marker anywhere.
pub open spec fn spec_is_soft_redirect(s: Seq<char>) -> bool {
    exists|i: int| #[trigger] tmpl_open_at(s, i) && soft_redirect_marker_at(s, i + 2)
}

/// Decides whether the text is a soft-redirect page.
pub fn is_soft_redirect(s: &Vec<char>) -> (r: bool)
    ensures
        r == spec_is_soft_redirect(s@),
{
    let n1 = chars_of("wiktionary redirect");
    let n2 = chars_of("wi");
    let n3 = chars_of("wtr");
    let n4 = chars_of("soft redirect with wikidata item");
    let n5 = chars_of("wikidata redirect");
    let mut i: usize = 0;
    while i < s.len()
        invariant
            0 <= i <= s.len(),
            n1@ == "wiktionary redirect"@,
            n2@ == "wi"@,
            n3@ == "wtr"@,
            n4@ == "soft redirect with wikidata item"@,
            n5@ == "wikidata redirect"@,
            forall|m: int|
                0 <= m < i ==> !(#[trigger] tmpl_open_at(s@, m) && soft_redirect_marker_at(
                    s@,
                    m + 2,
                )),
        decreases s.len() - i,
    {
        if s[i] == '{' && i + 1 < s.len() && s[i + 1] == '{' {
            let p = i + 2;
            if name_delim_exec(s, p, &n1) || name_delim_exec(s, p, &n2) || name_delim_exec(
                s,
                p,
                &n3,
            ) || name_delim_exec(s, p, &n4) || name_delim_exec(s, p, &n5) {
                proof {
                    assert(tmpl_open_at(s@, i as int) && soft_redirect_marker_at(s@, i + 2));
                }
                return true;
            }
        }
        proof {
            assert(!(tmpl_open_at(s@, i as int) && soft_redirect_marker_at(s@, i + 2)));
        }
        i += 1;
    }
    proof {
        assert forall|m: int| !(#[trigger] tmpl_open_at(s@, m) && soft_redirect_marker_at(
            s@,
            m + 2,
        )) by {
            if 0 <= m < s@.len() {
            }
        }
    }
    false
}

} // verus!
